use routecore::pattern::{PathPattern, template_well_formed};

#[test]
fn captures_two_placeholders() {
    let p = PathPattern::new("/user/{id}/post/{pid}").unwrap();
    let params = p.captures("/user/42/post/7").unwrap();
    assert_eq!(params.len(), 2);
    assert_eq!(params[0].0.as_str(), "id");
    assert_eq!(params[0].1.as_str(), "42");
    assert_eq!(params[1].0.as_str(), "pid");
    assert_eq!(params[1].1.as_str(), "7");
}

#[test]
fn placeholder_may_capture_empty() {
    let p = PathPattern::new("/a/{x}").unwrap();
    let params = p.captures("/a/").unwrap();
    assert_eq!(params.len(), 1);
    assert_eq!(params[0].0.as_str(), "x");
    assert_eq!(params[0].1.as_str(), "");
}

#[test]
fn placeholder_never_spans_slash() {
    let p = PathPattern::new("/a/{x}").unwrap();
    assert!(p.captures("/a/b/c").is_none());
}

#[test]
fn zero_placeholders_exact_match_only() {
    let p = PathPattern::new("/exact").unwrap();
    assert_eq!(p.captures("/exact").unwrap().len(), 0);
    assert!(p.captures("/exacta").is_none());
    assert!(p.captures("/exac").is_none());
    assert!(p.captures("/Exact").is_none());
    assert!(p.captures("/exact/").is_none());
    assert!(p.captures("exact").is_none());
}

#[test]
fn matching_is_case_sensitive() {
    let p = PathPattern::new("/Case/{x}").unwrap();
    assert!(p.captures("/case/1").is_none());
    assert!(p.captures("/Case/1").is_some());
}

#[test]
fn query_string_is_part_of_last_segment() {
    let p = PathPattern::new("/a/{x}").unwrap();
    let params = p.captures("/a/7?q=1").unwrap();
    assert_eq!(params[0].1.as_str(), "7?q=1");
}

#[test]
fn malformed_template_is_rejected() {
    assert!(PathPattern::new("/a/{x").is_err());
    assert!(PathPattern::new("/{").is_err());
    assert!(!template_well_formed("/a/{x"));
    assert!(template_well_formed("/a/{x}"));
    assert!(template_well_formed("/plain"));
}

#[test]
fn empty_placeholder_name_is_allowed() {
    let p = PathPattern::new("/a/{}").unwrap();
    let params = p.captures("/a/v").unwrap();
    assert_eq!(params.len(), 1);
    assert_eq!(params[0].0.as_str(), "");
    assert_eq!(params[0].1.as_str(), "v");
}

#[test]
fn repeated_placeholder_name_keeps_both_captures_in_order() {
    let p = PathPattern::new("/{x}/{x}").unwrap();
    let params = p.captures("/1/2").unwrap();
    assert_eq!(params.len(), 2);
    assert_eq!(params[0].0.as_str(), "x");
    assert_eq!(params[0].1.as_str(), "1");
    assert_eq!(params[1].0.as_str(), "x");
    assert_eq!(params[1].1.as_str(), "2");
}

#[test]
fn brace_inside_segment_is_literal() {
    let p = PathPattern::new("/a{b}").unwrap();
    assert!(p.captures("/a{b}").is_some());
    assert!(p.captures("/ab").is_none());
}

#[test]
fn non_ascii_segments_match_by_character() {
    let p = PathPattern::new("/héllo/{x}").unwrap();
    let params = p.captures("/héllo/wörld").unwrap();
    assert_eq!(params[0].1.as_str(), "wörld");
    assert!(p.captures("/hello/wörld").is_none());
}

#[test]
fn template_without_leading_slash() {
    let p = PathPattern::new("{x}").unwrap();
    let params = p.captures("anything").unwrap();
    assert_eq!(params[0].1.as_str(), "anything");
    assert!(p.captures("a/b").is_none());
}
