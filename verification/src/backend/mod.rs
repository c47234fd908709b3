//! What the piece manager asks of a backend that reaches the origin: the
//! requests it hands over and the responses it takes back.

pub mod http;

use vstd::prelude::*;
use vstd::string::*;

verus! {

/// HTTP headers as name and value pairs, in order.
pub type Header = Vec<(String, String)>;

/// Headers as a mathematical value.
pub type HeaderView = Seq<(Seq<char>, Seq<char>)>;

/// The names and values of a list of headers.
pub open spec fn header_view(h: Seq<(String, String)>) -> HeaderView {
    Seq::new(h.len(), |i: int| (h[i].0@, h[i].1@))
}

/// The names and values of an optional list of headers.
pub open spec fn opt_header_view(h: Option<Header>) -> Option<HeaderView> {
    match h {
        Some(v) => Some(header_view(v@)),
        None => None,
    }
}

/// Copies a list of headers.
pub fn clone_header(h: &Header) -> (r: Header)
    ensures
        header_view(r@) == header_view(h@),
{
    let mut out: Header = Vec::new();
    let mut i: usize = 0;
    while i < h.len()
        invariant
            i <= h@.len(),
            out@.len() == i,
            forall|j: int|
                0 <= j < i ==> (#[trigger] out@[j]).0@ == h@[j].0@ && out@[j].1@ == h@[j].1@,
        decreases h@.len() - i,
    {
        out.push((h[i].0.clone(), h[i].1.clone()));
        i = i + 1;
    }
    assert(header_view(out@) =~= header_view(h@));
    out
}

/// A request for the headers of a resource.
#[derive(Debug)]
pub struct HeadRequest {
    /// The task that the request is made for.
    pub task_id: String,
    /// The address of the resource.
    pub url: String,
    /// The headers to send. They are required.
    pub http_header: Option<Header>,
    /// How long, in milliseconds, the request may take.
    pub timeout: u64,
    /// The certificates to trust, each in DER form; `None` to trust any.
    pub client_certs: Option<Vec<Vec<u8>>>,
}

/// The answer to a `HeadRequest`.
#[derive(Debug)]
pub struct HeadResponse {
    /// True when the status is one of 200 to 299.
    pub success: bool,
    /// The length of the content, where the transport reports one.
    pub content_length: Option<u64>,
    /// The headers received.
    pub http_header: Option<Header>,
    /// The status received.
    pub http_status_code: Option<u16>,
    /// The status and its standard reason, as text.
    pub error_message: Option<String>,
}

/// A request for the bytes of a resource, or of a piece of it.
#[derive(Debug)]
pub struct GetRequest {
    /// The task that the request is made for.
    pub task_id: String,
    /// The piece that the request is made for.
    pub piece_id: String,
    /// The address of the resource.
    pub url: String,
    /// The headers to send. They are required.
    pub http_header: Option<Header>,
    /// How long, in milliseconds, the request may take.
    pub timeout: u64,
    /// The certificates to trust, each in DER form; `None` to trust any.
    pub client_certs: Option<Vec<Vec<u8>>>,
}

/// The answer to a `GetRequest`, with the body read to its end.
#[derive(Debug)]
pub struct GetResponse {
    /// True when the status is one of 200 to 299.
    pub success: bool,
    /// The headers received.
    pub http_header: Option<Header>,
    /// The status received.
    pub http_status_code: Option<u16>,
    /// The bytes of the body.
    pub body: Vec<u8>,
    /// The status and its standard reason, as text.
    pub error_message: Option<String>,
}

/// How the server's certificate is checked.
#[derive(Debug)]
pub enum TlsVerification {
    /// Against these certificates, each in DER form.
    CustomRoots(Vec<Vec<u8>>),
    /// Not at all.
    Disabled,
}

/// What the transport is to send: a GET of `url` with these headers.
#[derive(Debug)]
pub struct HttpCall {
    /// The address to get.
    pub url: String,
    /// The headers to send.
    pub header: Header,
    /// How long, in milliseconds, the call may take.
    pub timeout: u64,
    /// How the server's certificate is checked.
    pub verification: TlsVerification,
}

} // verus!
