use planner::graphhopper::route_endpoint;
use planner::scoring::suggestion_id;
use planner::text::{decimal_string, text_eq};

#[test]
fn route_endpoint_appends_route() {
    assert_eq!(route_endpoint("http://localhost:8989"), "http://localhost:8989/route");
}

#[test]
fn route_endpoint_drops_trailing_slashes() {
    assert_eq!(route_endpoint("http://localhost:8989/"), "http://localhost:8989/route");
    assert_eq!(route_endpoint("http://localhost:8989///"), "http://localhost:8989/route");
    assert_eq!(route_endpoint("http://host/base/"), "http://host/base/route");
}

#[test]
fn route_endpoint_of_empty_or_slash_only_base() {
    assert_eq!(route_endpoint(""), "/route");
    assert_eq!(route_endpoint("/"), "/route");
    assert_eq!(route_endpoint("//"), "/route");
}

#[test]
fn route_endpoint_keeps_inner_slashes_and_other_characters() {
    assert_eq!(route_endpoint("a/b"), "a/b/route");
    assert_eq!(route_endpoint("http://h\u{e9}te/\u{1F6B2}/"), "http://h\u{e9}te/\u{1F6B2}/route");
}

#[test]
fn decimal_string_writes_numbers() {
    assert_eq!(decimal_string(0), "0");
    assert_eq!(decimal_string(7), "7");
    assert_eq!(decimal_string(10), "10");
    assert_eq!(decimal_string(1234567890), "1234567890");
    assert_eq!(decimal_string(usize::MAX), usize::MAX.to_string());
}

#[test]
fn suggestion_ids_count_from_their_place() {
    assert_eq!(suggestion_id(1), "suggestion-1");
    assert_eq!(suggestion_id(2), "suggestion-2");
    assert_eq!(suggestion_id(12), "suggestion-12");
    assert_eq!(suggestion_id(100), "suggestion-100");
}

#[test]
fn text_eq_compares_characters() {
    assert!(text_eq("", ""));
    assert!(text_eq("cycleway", "cycleway"));
    assert!(!text_eq("cycleway", "cyclewaY"));
    assert!(!text_eq("cycleway", "cycleways"));
    assert!(!text_eq("path", ""));
    assert!(text_eq("h\u{e9}", "h\u{e9}"));
    assert!(!text_eq("h\u{e9}", "he"));
}
