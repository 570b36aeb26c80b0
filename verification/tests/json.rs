use planner::json::{decode_entry, decode_segments, metric};
use planner::models::CandidatePath;
use serde_json::Value;

fn parse(text: &str) -> Value {
    serde_json::from_str(text).unwrap()
}

fn triples(route: &Value) -> Vec<(u64, u64, String)> {
    decode_segments(route).into_iter().map(|s| (s.from, s.to, s.label)).collect()
}

#[test]
fn decode_reads_well_formed_segments_in_order() {
    let route = parse(
        r#"{"details": {"road_class": [[0, 6, "cycleway"], [6, 10, "residential"], [10, 12, "primary"]]}}"#,
    );
    assert_eq!(
        triples(&route),
        vec![
            (0, 6, "cycleway".to_string()),
            (6, 10, "residential".to_string()),
            (10, 12, "primary".to_string()),
        ]
    );
}

#[test]
fn decode_of_payload_without_detail_is_empty() {
    assert!(triples(&parse(r#"{}"#)).is_empty());
    assert!(triples(&parse(r#"{"details": {}}"#)).is_empty());
    assert!(triples(&parse(r#"{"details": {"surface": [[0, 1, "paved"]]}}"#)).is_empty());
    assert!(triples(&parse(r#"{"details": {"road_class": []}}"#)).is_empty());
    assert!(triples(&parse(r#"null"#)).is_empty());
    assert!(triples(&parse(r#"[1, 2, 3]"#)).is_empty());
}

#[test]
fn decode_of_detail_that_is_no_array_is_empty() {
    assert!(triples(&parse(r#"{"details": {"road_class": "cycleway"}}"#)).is_empty());
    assert!(triples(&parse(r#"{"details": {"road_class": {"0": [0, 1, "path"]}}}"#)).is_empty());
    assert!(triples(&parse(r#"{"details": {"road_class": 5}}"#)).is_empty());
    assert!(triples(&parse(r#"{"details": [0, 1, "path"]}"#)).is_empty());
}

#[test]
fn decode_leaves_out_malformed_entries() {
    let route = parse(
        r#"{"details": {"road_class": [
            [0, 2, "path"],
            [2, 4],
            "track",
            [4.5, 6, "track"],
            [4, 6.0, "track"],
            [-1, 6, "track"],
            [6, 8, 17],
            [6, 8, null],
            {"from": 6, "to": 8},
            [],
            [8, 9, "service", "extra"],
            ["8", "9", "service"],
            [9, 12, "primary"]
        ]}}"#,
    );
    assert_eq!(
        triples(&route),
        vec![
            (0, 2, "path".to_string()),
            (8, 9, "service".to_string()),
            (9, 12, "primary".to_string()),
        ]
    );
}

#[test]
fn decode_keeps_segments_without_length_as_given() {
    let route = parse(r#"{"details": {"road_class": [[5, 5, "path"], [9, 3, "trunk"]]}}"#);
    assert_eq!(triples(&route), vec![(5, 5, "path".to_string()), (9, 3, "trunk".to_string())]);
}

#[test]
fn decode_reads_the_largest_offsets() {
    let route = parse(r#"{"details": {"road_class": [[0, 18446744073709551615, "path"]]}}"#);
    assert_eq!(triples(&route), vec![(0, u64::MAX, "path".to_string())]);
    let over = parse(r#"{"details": {"road_class": [[0, 18446744073709551616, "path"]]}}"#);
    assert!(triples(&over).is_empty());
}

#[test]
fn decode_entry_tells_segments_from_other_values() {
    let segment = decode_entry(&parse(r#"[3, 7, "tertiary"]"#)).unwrap();
    assert_eq!((segment.from, segment.to, segment.label.as_str()), (3, 7, "tertiary"));
    assert!(decode_entry(&parse(r#"[3, 7]"#)).is_none());
    assert!(decode_entry(&parse(r#"[3, "7", "tertiary"]"#)).is_none());
    assert!(decode_entry(&parse(r#"{"a": 1}"#)).is_none());
    assert!(decode_entry(&parse(r#"3"#)).is_none());
}

#[test]
fn missing_metrics_become_zero() {
    assert_eq!(metric(None), 0);
    assert_eq!(metric(Some(0)), 0);
    assert_eq!(metric(Some(1_000_000)), 1_000_000);
    assert_eq!(metric(Some(u64::MAX)), u64::MAX);
}

#[test]
fn from_route_takes_metrics_segments_and_payload() {
    let route = parse(r#"{"distance": 1000.0, "details": {"road_class": [[0, 6, "cycleway"]]}, "points": [1, 2]}"#);
    let path = CandidatePath::from_route(Some(1_000_000), None, Some(10_000), route.clone());
    assert_eq!(path.distance, 1_000_000);
    assert_eq!(path.time, 0);
    assert_eq!(path.ascend, 10_000);
    assert_eq!(path.segments.len(), 1);
    assert_eq!(path.segments[0].from, 0);
    assert_eq!(path.segments[0].to, 6);
    assert_eq!(path.segments[0].label, "cycleway");
    assert_eq!(path.route, route);
}
