use dragonfly_client::backend::http::{check_headers, is_success, HTTP};
use dragonfly_client::backend::{GetRequest, HeadRequest, TlsVerification};
use dragonfly_client::error::ErrorKind;

fn head_request(http_header: Option<Vec<(String, String)>>) -> HeadRequest {
    HeadRequest {
        task_id: "test".to_string(),
        url: format!("{}/head", "http://localhost:8080"),
        http_header,
        timeout: 5000,
        client_certs: None,
    }
}

#[test]
fn should_get_head_response() {
    let http_backend = HTTP::new("http");
    let call = http_backend.head(head_request(Some(Vec::new()))).unwrap();
    assert_eq!(call.url, "http://localhost:8080/head");
    assert!(call.header.is_empty());
    assert_eq!(call.timeout, 5000);
    let resp = http_backend.head_response(
        200,
        vec![("Content-Type".to_string(), "text/html; charset=UTF-8".to_string())],
        None,
    );
    assert_eq!(resp.http_status_code, Some(200));
    assert!(resp.success);
    assert_eq!(resp.content_length, None);
    assert_eq!(
        resp.http_header,
        Some(vec![("Content-Type".to_string(), "text/html; charset=UTF-8".to_string())])
    );
    assert_eq!(resp.error_message, Some("200 OK".to_string()));
}

#[test]
fn should_return_error_response_when_head_notexists() {
    let http_backend = HTTP::new("http");
    let resp = http_backend.head(head_request(None));
    assert!(resp.is_err());
    assert_eq!(resp.unwrap_err().kind(), ErrorKind::InvalidParameter);
}

#[test]
fn should_get_response() {
    let http_backend = HTTP::new("http");
    let call = http_backend
        .get(GetRequest {
            task_id: "test".to_string(),
            piece_id: "test".to_string(),
            url: format!("{}/get", "http://localhost:8080"),
            http_header: Some(Vec::new()),
            timeout: 5000,
            client_certs: None,
        })
        .unwrap();
    assert_eq!(call.url, "http://localhost:8080/get");
    let resp = http_backend.get_response(
        200,
        vec![("Content-Type".to_string(), "text/html; charset=UTF-8".to_string())],
        b"OK".to_vec(),
    );
    assert_eq!(resp.http_status_code, Some(200));
    assert_eq!(String::from_utf8(resp.body).unwrap(), "OK");
    assert!(resp.success);
}

#[test]
fn get_without_headers_is_refused() {
    let http_backend = HTTP::new("http");
    let e = http_backend
        .get(GetRequest {
            task_id: "test".to_string(),
            piece_id: "test".to_string(),
            url: "http://localhost/get".to_string(),
            http_header: None,
            timeout: 5000,
            client_certs: None,
        })
        .unwrap_err();
    assert_eq!(e.kind(), ErrorKind::InvalidParameter);
}

#[test]
fn scheme_is_the_one_given() {
    assert_eq!(HTTP::new("https").scheme(), "https");
    assert_eq!(HTTP::default().scheme(), "http");
}

#[test]
fn success_is_200_to_299() {
    assert!(!is_success(199));
    assert!(is_success(200));
    assert!(is_success(206));
    assert!(is_success(299));
    assert!(!is_success(300));
    assert!(!is_success(404));
    assert!(!is_success(503));
    assert!(!is_success(0));
}

#[test]
fn a_status_that_is_no_success_is_reported_as_such() {
    let http_backend = HTTP::new("http");
    let resp = http_backend.head_response(404, Vec::new(), Some(12));
    assert!(!resp.success);
    assert_eq!(resp.http_status_code, Some(404));
    assert_eq!(resp.content_length, Some(12));
    assert_eq!(resp.error_message, Some("404 Not Found".to_string()));
    let resp = http_backend.get_response(503, Vec::new(), Vec::new());
    assert!(!resp.success);
    assert_eq!(resp.error_message, Some("503 Service Unavailable".to_string()));
}

#[test]
fn a_status_without_a_standard_reason_is_displayed_as_unknown() {
    let http_backend = HTTP::new("http");
    let resp = http_backend.get_response(299, Vec::new(), Vec::new());
    assert_eq!(resp.error_message, Some("299 <unknown status code>".to_string()));
    // a number that is no status has no text
    let resp = http_backend.get_response(42, Vec::new(), Vec::new());
    assert_eq!(resp.error_message, None);
    assert_eq!(resp.http_status_code, Some(42));
}

#[test]
fn certificates_decide_how_the_server_is_checked() {
    let http_backend = HTTP::new("https");
    match http_backend.client(None) {
        TlsVerification::Disabled => {}
        _ => panic!("expected no verification"),
    }
    match http_backend.client(Some(vec![vec![1, 2, 3]])) {
        TlsVerification::CustomRoots(roots) => assert_eq!(roots, vec![vec![1, 2, 3]]),
        _ => panic!("expected custom roots"),
    }
    let mut request = head_request(Some(vec![("a".to_string(), "b".to_string())]));
    request.client_certs = Some(vec![vec![9]]);
    let call = http_backend.head(request).unwrap();
    assert_eq!(call.header, vec![("a".to_string(), "b".to_string())]);
    match call.verification {
        TlsVerification::CustomRoots(roots) => assert_eq!(roots, vec![vec![9]]),
        _ => panic!("expected custom roots"),
    }
}

fn headers(pairs: Vec<(&str, &str)>) -> Vec<(String, String)> {
    pairs.into_iter().map(|(n, v)| (n.to_string(), v.to_string())).collect()
}

#[test]
fn check_headers_takes_what_can_be_sent() {
    assert!(check_headers(&headers(vec![])));
    assert!(check_headers(&headers(vec![("Accept", "*/*"), ("x-token", "a b\tc")])));
    assert!(check_headers(&headers(vec![("range", "bytes=0-3")])));
}

#[test]
fn check_headers_refuses_a_bad_name_or_value() {
    assert!(!check_headers(&headers(vec![("bad name", "v")])));
    assert!(!check_headers(&headers(vec![("", "v")])));
    assert!(!check_headers(&headers(vec![("a", "line\nbreak")])));
    assert!(!check_headers(&headers(vec![("ok", "fine"), ("na:me", "v")])));
    assert!(!check_headers(&headers(vec![("ok", "fine"), ("name", "\u{7f}")])));
}
