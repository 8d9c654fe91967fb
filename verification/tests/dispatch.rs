use routecore::handler::{EchoHandler, IntoResponse, TextHandler};
use routecore::http::{HeaderMap, Method, RequestParts, Status, Version};
use routecore::router::{Chain, DispatchOutcome, Dispatcher, Router, get, post};

fn req(method: Method, uri: &str) -> RequestParts {
    RequestParts {
        method,
        uri: uri.to_string(),
        version: Version::Http11,
        headers: HeaderMap::new(),
    }
}

fn body_text(resp: &routecore::http::Response) -> String {
    String::from_utf8(resp.body.inner.clone()).unwrap()
}

#[test]
fn single_route_dispatch() {
    let router = Router::new("/check", get(TextHandler::new("hello")));
    let resp = router.dispatch(&req(Method::Get, "/check")).unwrap();
    assert_eq!(resp.status(), Status::OK);
    assert_eq!(resp.version(), Version::Http11);
    assert_eq!(body_text(&resp), "hello");
    assert!(router.dispatch(&req(Method::Get, "/other")).is_none());
}

#[test]
fn method_must_match() {
    let router = Router::new("/check", post(TextHandler::new("posted")));
    assert!(router.dispatch(&req(Method::Get, "/check")).is_none());
    assert!(router.dispatch(&req(Method::Post, "/check")).is_some());
}

#[test]
fn first_match_wins_in_registration_order() {
    let chain = Router::new("/a/{x}", get(TextHandler::new("first")))
        .route("/a/{y}", get(TextHandler::new("second")))
        .route("/b", get(TextHandler::new("third")));
    let resp = chain.dispatch(&req(Method::Get, "/a/1")).unwrap();
    assert_eq!(body_text(&resp), "first");
    let resp = chain.dispatch(&req(Method::Get, "/b")).unwrap();
    assert_eq!(body_text(&resp), "third");
}

#[test]
fn composition_is_associative() {
    let reqs = [
        (Method::Get, "/a"),
        (Method::Get, "/b"),
        (Method::Get, "/c"),
        (Method::Post, "/a"),
        (Method::Get, "/nope"),
    ];
    for (m, uri) in reqs {
        let a = Router::new("/a", get(TextHandler::new("A")));
        let b = Router::new("/b", get(TextHandler::new("B")));
        let c = Router::new("/c", get(TextHandler::new("C")));
        let left = Chain::new(Chain::new(a, b), c);
        let a2 = Router::new("/a", get(TextHandler::new("A")));
        let b2 = Router::new("/b", get(TextHandler::new("B")));
        let c2 = Router::new("/c", get(TextHandler::new("C")));
        let right = Chain::new(a2, Chain::new(b2, c2));
        let rl = left.dispatch(&req(m, uri));
        let rr = right.dispatch(&req(m, uri));
        match (rl, rr) {
            (None, None) => {},
            (Some(x), Some(y)) => {
                assert_eq!(x.status(), y.status());
                assert_eq!(body_text(&x), body_text(&y));
            },
            _ => panic!("groupings disagree on {uri}"),
        }
    }
}

#[test]
fn no_match_is_distinct_from_matched_empty_content() {
    let chain = Router::new("/here", get(TextHandler::new("")));
    // An unmatched request reports "no match".
    match chain.try_dispatch(&req(Method::Get, "/nope")) {
        DispatchOutcome::NoMatch => {},
        DispatchOutcome::Matched(_) => panic!("no route should have matched"),
    }
    // A matched route whose handler renders empty content is still a match.
    match chain.try_dispatch(&req(Method::Get, "/here")) {
        DispatchOutcome::Matched(Some(resp)) => {
            assert_eq!(body_text(&resp), "");
        },
        _ => panic!("the route should have matched"),
    }
}

#[test]
fn dispatch_recovers_embedded_values() {
    let chain = Router::new("/user/{id}/{action}", get(EchoHandler))
        .route("/post/{slug}", get(EchoHandler));
    let cases = [
        (Method::Get, "/user/42/run", "id=42\naction=run\n"),
        (Method::Get, "/user//stop", "id=\naction=stop\n"),
        (Method::Get, "/post/a-day", "slug=a-day\n"),
    ];
    for (m, uri, expected) in cases {
        let resp = chain.dispatch(&req(m, uri)).unwrap();
        assert_eq!(body_text(&resp), expected);
    }
}

#[test]
fn parsed_head_dispatches() {
    let head = RequestParts::from_str("GET /user/7/view HTTP/1.1\r\nHost: x\r\n\r\n").unwrap();
    let chain = Router::new("/user/{id}/{action}", get(EchoHandler));
    let resp = chain.dispatch(&head).unwrap();
    assert_eq!(body_text(&resp), "id=7\naction=view\n");
}

#[test]
fn into_response_defaults() {
    let resp = "abc".into_response();
    assert_eq!(resp.status(), Status::OK);
    assert_eq!(resp.version(), Version::Http11);
    assert_eq!(resp.body.inner, b"abc".to_vec());
    let resp = String::from("xyz").into_response();
    assert_eq!(resp.body.inner, b"xyz".to_vec());
}

#[test]
fn header_map_overwrites() {
    let mut h = HeaderMap::new();
    assert!(h.get("A").is_none());
    h.insert("A".to_string(), "1".to_string());
    h.insert("B".to_string(), "2".to_string());
    h.insert("A".to_string(), "3".to_string());
    assert_eq!(h.get("A").unwrap().as_str(), "3");
    assert_eq!(h.get("B").unwrap().as_str(), "2");
    assert!(h.get("C").is_none());
}

#[test]
fn empty_body_helper() {
    let body = routecore::http::BoxedBody::empty();
    assert!(body.inner.is_empty());
}
