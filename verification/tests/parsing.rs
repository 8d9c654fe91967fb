use routecore::http::{Method, Status, Version, status_line};
use routecore::parse::head_complete;
use routecore::http::RequestParts;

#[test]
fn test_parse_request() {
    let request = "GET /love/you/tornado HTTP/1.1\r\nCookie: Name=Value&loved_one=tornado\r\nHost: example.com\r\n\r\n";
    let parsed = RequestParts::from_str(request).unwrap();
    assert_eq!(parsed.method, Method::Get);
    assert_eq!(parsed.uri.as_str(), "/love/you/tornado");
    assert_eq!(parsed.version, Version::Http11);
    assert_eq!(parsed.headers.get("Host").unwrap().as_str(), "example.com");
    assert_eq!(
        parsed.headers.get("Cookie").unwrap().as_str(),
        "Name=Value&loved_one=tornado"
    );
}

#[test]
fn parse_simple_head() {
    let parsed = RequestParts::from_str("GET /a HTTP/1.1\r\nHost: x\r\n\r\n").unwrap();
    assert_eq!(parsed.method, Method::Get);
    assert_eq!(parsed.uri.as_str(), "/a");
    assert_eq!(parsed.version, Version::Http11);
    assert_eq!(parsed.headers.get("Host").unwrap().as_str(), "x");
    assert!(parsed.headers.get("Cookie").is_none());
}

#[test]
fn parse_unknown_version_fails() {
    assert!(RequestParts::from_str("GET /a HTTP/9.9\r\n\r\n").is_err());
}

#[test]
fn parse_missing_terminator_fails() {
    assert!(RequestParts::from_str("GET /a HTTP/1.1\r\nHost: x\r\n").is_err());
}

#[test]
fn parse_unknown_method_fails() {
    assert!(RequestParts::from_str("PATCH /a HTTP/1.1\r\n\r\n").is_err());
}

#[test]
fn parse_malformed_header_fails() {
    assert!(RequestParts::from_str("GET /a HTTP/1.1\r\nNoSeparator\r\n\r\n").is_err());
}

#[test]
fn parse_no_headers() {
    let parsed = RequestParts::from_str("POST /b HTTP/1.0\r\n\r\n").unwrap();
    assert_eq!(parsed.method, Method::Post);
    assert_eq!(parsed.uri.as_str(), "/b");
    assert_eq!(parsed.version, Version::Http10);
    assert!(parsed.headers.get("Host").is_none());
}

#[test]
fn parse_duplicate_header_keeps_last() {
    let parsed = RequestParts::from_str("GET /a HTTP/1.1\r\nH: 1\r\nH: 2\r\n\r\n").unwrap();
    assert_eq!(parsed.headers.get("H").unwrap().as_str(), "2");
}

#[test]
fn parse_empty_uri_token() {
    let parsed = RequestParts::from_str("GET  HTTP/1.1\r\n\r\n").unwrap();
    assert_eq!(parsed.uri.as_str(), "");
}

#[test]
fn parse_ignores_bytes_after_terminator() {
    let parsed = RequestParts::from_str("GET /a HTTP/1.1\r\nHost: x\r\n\r\ntrailing").unwrap();
    assert_eq!(parsed.uri.as_str(), "/a");
    assert_eq!(parsed.headers.get("Host").unwrap().as_str(), "x");
}

#[test]
fn header_name_runs_to_the_first_colon() {
    // The grammar takes every character up to `:` as the name — a CRLF
    // before a later colon is swallowed into the name, and the head still
    // ends at the first lone CRLF line after the greedy header lines.
    let parsed = RequestParts::from_str("GET /a HTTP/1.1\r\n\r\nX: y\r\n\r\n").unwrap();
    assert_eq!(parsed.headers.get("\r\nX").unwrap().as_str(), "y");
    assert!(parsed.headers.get("X").is_none());
}

#[test]
fn parse_non_ascii_uri_and_header() {
    let parsed = RequestParts::from_str("GET /héllo HTTP/1.1\r\nWörld: süß\r\n\r\n").unwrap();
    assert_eq!(parsed.uri.as_str(), "/héllo");
    assert_eq!(parsed.headers.get("Wörld").unwrap().as_str(), "süß");
}

#[test]
fn method_tokens() {
    assert_eq!(Method::from_str("GET").unwrap(), Method::Get);
    assert_eq!(Method::from_str("POST").unwrap(), Method::Post);
    assert!(Method::from_str("get").is_err());
    assert!(Method::from_str("GETX").is_err());
    assert_eq!(Method::Get.as_str(), "GET");
    assert_eq!(Method::Post.as_str(), "POST");
}

#[test]
fn version_tokens() {
    assert_eq!(Version::from_str("HTTP/1.0").unwrap(), Version::Http10);
    assert_eq!(Version::from_str("HTTP/1.1").unwrap(), Version::Http11);
    assert!(Version::from_str("HTTP/2.0").is_err());
    assert_eq!(Version::Http10.as_str(), "HTTP/1.0");
    assert_eq!(Version::Http11.as_str(), "HTTP/1.1");
}

#[test]
fn status_values() {
    assert_eq!(Status::OK.code(), 200);
    assert_eq!(Status::NotFound.code(), 404);
    assert_eq!(Status::InternalServerError.code(), 500);
    assert_eq!(Status::NotImplemented.code(), 501);
    assert_eq!(Status::OK.reason(), "OK");
    assert_eq!(Status::NotFound.reason(), "Not Found");
    assert_eq!(Status::InternalServerError.reason(), "Internal Server Error");
    assert_eq!(Status::NotImplemented.reason(), "Not Implemented");
    assert_eq!(Status::OK.as_str().as_str(), "200");
    assert_eq!(Status::NotFound.as_str().as_str(), "404");
}

#[test]
fn status_line_rendering() {
    assert_eq!(
        status_line(Version::Http11, Status::OK).as_str(),
        "HTTP/1.1 200 OK\r\n"
    );
    assert_eq!(
        status_line(Version::Http10, Status::NotFound).as_str(),
        "HTTP/1.0 404 Not Found\r\n"
    );
}

#[test]
fn head_terminator_detection() {
    assert!(head_complete(b"GET / HTTP/1.1\r\n\r\n"));
    assert!(!head_complete(b"GET / HTTP/1.1\r\n"));
    assert!(!head_complete(b"GET / HTTP/1.1\r\n\r"));
    assert!(!head_complete(b"\r\n\r\n"));
    assert!(head_complete(b"x\r\n\r\n"));
    assert!(!head_complete(b""));
}
