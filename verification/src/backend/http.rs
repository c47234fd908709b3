//! The HTTP backend: what is sent to the origin for a head and for a get,
//! and what a status and its headers are reported as.

use crate::backend::{
    header_view,
    opt_header_view,
    HeaderView,
    GetRequest,
    GetResponse,
    HeadRequest,
    HeadResponse,
    Header,
    HttpCall,
    TlsVerification,
};
use crate::error::{Error, ErrorKind};
use crate::storage::metadata::opt_text;
use crate::text::{decimal, u64_to_string};
use vstd::prelude::*;
use vstd::string::*;

verus! {

/// The standard reason phrase of an HTTP status; `None` for a number that is
/// no status and for a status without a standard phrase.
pub uninterp spec fn canonical_reason(status: u16) -> Option<Seq<char>>;

/// Looks up the standard reason phrase of `status` with
/// `reqwest::StatusCode::from_u16` and `canonical_reason`. The phrase is a
/// function of the number alone. A number that `from_u16` refuses has none.
#[verifier::external_body]
pub(crate) fn status_reason(status: u16) -> (r: Option<String>)
    ensures
        opt_text(r) == canonical_reason(status),
{
    match reqwest::StatusCode::from_u16(status) {
        Ok(code) => match code.canonical_reason() {
            Some(reason) => Some(reason.to_string()),
            None => None,
        },
        Err(_) => None,
    }
}

/// True for the numbers that are an HTTP status: 100 to 999.
pub open spec fn is_status(status: u16) -> bool {
    100 <= status <= 999
}

/// A status as text: the number in decimal, a space, and the standard
/// reason phrase, or `<unknown status code>` for a status that has none.
/// A number that is no status has no text.
pub open spec fn status_display(status: u16) -> Option<Seq<char>> {
    if is_status(status) {
        Some(
            decimal(status as nat) + seq![' '] + match canonical_reason(status) {
                Some(reason) => reason,
                None => "<unknown status code>"@,
            },
        )
    } else {
        None
    }
}

/// Writes a status as text.
pub fn status_text(status: u16) -> (r: Option<String>)
    ensures
        opt_text(r) == status_display(status),
{
    if status < 100 || status > 999 {
        return None;
    }
    proof {
        reveal_strlit(" ");
    }
    let mut out = u64_to_string(status as u64);
    out.append(" ");
    match status_reason(status) {
        Some(reason) => {
            out.append(reason.as_str());
        },
        None => {
            out.append("<unknown status code>");
        },
    }
    assert(out@ =~= status_display(status)->0);
    Some(out)
}

/// True for a text that `reqwest::header::HeaderName` takes as the name of
/// a header.
pub uninterp spec fn header_name_accepted(name: Seq<char>) -> bool;

/// True for a text that `reqwest::header::HeaderValue` takes as the value of
/// a header.
pub uninterp spec fn header_value_accepted(value: Seq<char>) -> bool;

/// Asks `reqwest::header::HeaderName::from_bytes` whether it takes the
/// bytes of `name` as the name of a header. The answer is a function of the
/// text alone.
#[verifier::external_body]
fn name_accepted(name: &str) -> (r: bool)
    ensures
        r == header_name_accepted(name@),
{
    match reqwest::header::HeaderName::from_bytes(name.as_bytes()) {
        Ok(_) => true,
        Err(_) => false,
    }
}

/// Asks `reqwest::header::HeaderValue::from_bytes` whether it takes the
/// bytes of `value` as the value of a header. The answer is a function of
/// the text alone.
#[verifier::external_body]
fn value_accepted(value: &str) -> (r: bool)
    ensures
        r == header_value_accepted(value@),
{
    match reqwest::header::HeaderValue::from_bytes(value.as_bytes()) {
        Ok(_) => true,
        Err(_) => false,
    }
}

/// True when every name and every value of the headers is one that can be
/// sent.
pub open spec fn headers_accepted(header: HeaderView) -> bool {
    forall|i: int|
        0 <= i < header.len() ==> header_name_accepted((#[trigger] header[i]).0)
            && header_value_accepted(header[i].1)
}

/// Tests whether every name and every value of the headers is one that can
/// be sent.
pub fn check_headers(header: &Header) -> (r: bool)
    ensures
        r == headers_accepted(header_view(header@)),
{
    let mut i: usize = 0;
    while i < header.len()
        invariant
            i <= header@.len(),
            forall|j: int|
                0 <= j < i ==> header_name_accepted((#[trigger] header_view(header@)[j]).0)
                    && header_value_accepted(header_view(header@)[j].1),
        decreases header@.len() - i,
    {
        if !name_accepted(header[i].0.as_str()) || !value_accepted(header[i].1.as_str()) {
            assert(!(header_name_accepted(header_view(header@)[i as int].0)
                && header_value_accepted(header_view(header@)[i as int].1)));
            return false;
        }
        i = i + 1;
    }
    true
}

/// True for the statuses that report success: 200 to 299.
pub open spec fn spec_is_success(status: u16) -> bool {
    200 <= status < 300
}

/// True for the statuses that report success: 200 to 299.
#[verifier::when_used_as_spec(spec_is_success)]
pub fn is_success(status: u16) -> (r: bool)
    ensures
        r == spec_is_success(status),
{
    200 <= status && status < 300
}

/// The certificates of a request as a mathematical value.
pub open spec fn certs_view(certs: Option<Vec<Vec<u8>>>) -> Option<Seq<Seq<u8>>> {
    match certs {
        Some(v) => Some(Seq::new(v@.len(), |i: int| v@[i]@)),
        None => None,
    }
}

impl TlsVerification {
    /// The certificates that are trusted; `None` where any is.
    pub open spec fn spec_roots(self) -> Option<Seq<Seq<u8>>> {
        match self {
            TlsVerification::CustomRoots(v) => Some(Seq::new(v@.len(), |i: int| v@[i]@)),
            TlsVerification::Disabled => None,
        }
    }
}

impl HttpCall {
    /// True when this call gets `url` with `header` within `timeout`, and
    /// trusts `certs`.
    pub open spec fn sends(
        self,
        url: Seq<char>,
        header: Option<Header>,
        timeout: u64,
        certs: Option<Vec<Vec<u8>>>,
    ) -> bool {
        &&& self.url@ == url
        &&& Some(header_view(self.header@)) == opt_header_view(header)
        &&& self.timeout == timeout
        &&& self.verification.spec_roots() == certs_view(certs)
    }
}

/// The HTTP backend.
#[derive(Debug)]
pub struct HTTP {
    scheme: String,
}

impl HTTP {
    /// The scheme that this backend serves.
    pub closed spec fn spec_scheme(&self) -> Seq<char> {
        self.scheme@
    }

    /// A backend for `scheme`.
    pub fn new(scheme: &str) -> (r: HTTP)
        ensures
            r.spec_scheme() == scheme@,
    {
        HTTP { scheme: String::from_str(scheme) }
    }

    /// The scheme that this backend serves.
    pub fn scheme(&self) -> (r: String)
        ensures
            r@ == self.spec_scheme(),
    {
        self.scheme.clone()
    }

    /// How the server's certificate is checked: against the certificates
    /// given, and not at all where none are given.
    pub fn client(&self, client_certs: Option<Vec<Vec<u8>>>) -> (r: TlsVerification)
        ensures
            r.spec_roots() == certs_view(client_certs),
    {
        match client_certs {
            Some(certs) => TlsVerification::CustomRoots(certs),
            None => TlsVerification::Disabled,
        }
    }

    /// What is sent to learn the headers of a resource. The request must
    /// carry headers: without them the call fails with `InvalidParameter`.
    /// The resource is asked for with a GET, because a signed address is
    /// signed for one method only.
    pub fn head(&self, request: HeadRequest) -> (r: Result<HttpCall, Error>)
        ensures
            match r {
                Ok(call) => request.http_header is Some && call.sends(
                    request.url@,
                    request.http_header,
                    request.timeout,
                    request.client_certs,
                ),
                Err(e) => request.http_header is None && e.spec_kind()
                    == ErrorKind::InvalidParameter,
            },
    {
        let header = match request.http_header {
            Some(h) => h,
            None => {
                return Err(Error::InvalidParameter);
            },
        };
        let verification = self.client(request.client_certs);
        Ok(HttpCall { url: request.url, header, timeout: request.timeout, verification })
    }

    /// What a status, headers and content length received for a head are
    /// reported as.
    pub fn head_response(&self, status: u16, header: Header, content_length: Option<u64>) -> (r:
        HeadResponse)
        ensures
            r.success == spec_is_success(status),
            r.content_length == content_length,
            opt_header_view(r.http_header) == Some(header_view(header@)),
            r.http_status_code == Some(status),
            opt_text(r.error_message) == status_display(status),
    {
        HeadResponse {
            success: is_success(status),
            content_length,
            http_header: Some(header),
            http_status_code: Some(status),
            error_message: status_text(status),
        }
    }

    /// What is sent to get the bytes of a resource. The request must carry
    /// headers: without them the call fails with `InvalidParameter`.
    pub fn get(&self, request: GetRequest) -> (r: Result<HttpCall, Error>)
        ensures
            match r {
                Ok(call) => request.http_header is Some && call.sends(
                    request.url@,
                    request.http_header,
                    request.timeout,
                    request.client_certs,
                ),
                Err(e) => request.http_header is None && e.spec_kind()
                    == ErrorKind::InvalidParameter,
            },
    {
        let header = match request.http_header {
            Some(h) => h,
            None => {
                return Err(Error::InvalidParameter);
            },
        };
        let verification = self.client(request.client_certs);
        Ok(HttpCall { url: request.url, header, timeout: request.timeout, verification })
    }

    /// What a status, headers and body received for a get are reported as.
    pub fn get_response(&self, status: u16, header: Header, body: Vec<u8>) -> (r: GetResponse)
        ensures
            r.success == spec_is_success(status),
            opt_header_view(r.http_header) == Some(header_view(header@)),
            r.http_status_code == Some(status),
            r.body@ == body@,
            opt_text(r.error_message) == status_display(status),
    {
        GetResponse {
            success: is_success(status),
            http_header: Some(header),
            http_status_code: Some(status),
            body,
            error_message: status_text(status),
        }
    }
}

impl Default for HTTP {
    /// A backend for the scheme `http`.
    fn default() -> (r: HTTP)
        ensures
            r.spec_scheme() == "http"@,
    {
        HTTP::new("http")
    }
}

} // verus!
