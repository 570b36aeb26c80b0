//! Reading the road-class detail of a route out of its JSON payload.

use vstd::prelude::*;
use serde_json::Value;
use crate::models::{segment_views, CandidatePath, RoadSegment, SegmentView};

verus! {

/// `serde_json::Value`, a JSON value. What it holds is read through the
/// methods below and is otherwise not looked into.
#[verifier::external_type_specification]
#[verifier::external_body]
pub struct ExValue(serde_json::Value);

/// The number that a JSON value holds, where it is an integer that fits
/// `u64`.
pub uninterp spec fn json_unsigned(value: Value) -> Option<u64>;

/// The text that a JSON value holds, where it is a string.
pub uninterp spec fn json_text(value: Value) -> Option<Seq<char>>;

/// The elements that a JSON value holds, where it is an array.
pub uninterp spec fn json_items(value: Value) -> Option<Seq<Value>>;

/// The value that a JSON pointer reaches inside a JSON value, where it
/// reaches one.
pub uninterp spec fn json_at(value: Value, pointer: Seq<char>) -> Option<Value>;

/// `serde_json::Value::as_u64`: the result depends on the value alone and is
/// named `json_unsigned`.
pub assume_specification[ serde_json::Value::as_u64 ](value: &Value) -> (r: Option<u64>)
    ensures
        r == json_unsigned(*value),
;

/// `serde_json::Value::as_str`: the result depends on the value alone; its
/// characters are named `json_text`.
pub assume_specification[ serde_json::Value::as_str ](value: &Value) -> (r: Option<&str>)
    ensures
        match r {
            Some(text) => json_text(*value) == Some(text@),
            None => json_text(*value).is_none(),
        },
;

/// `serde_json::Value::as_array`: the result depends on the value alone; its
/// elements are named `json_items`.
pub assume_specification[ serde_json::Value::as_array ](value: &Value) -> (r: Option<&Vec<Value>>)
    ensures
        match r {
            Some(items) => json_items(*value) == Some(items@),
            None => json_items(*value).is_none(),
        },
;

/// `serde_json::Value::pointer`: the result depends on the value and the
/// pointer's characters alone and is named `json_at`.
pub assume_specification<'a>[ serde_json::Value::pointer ](
    value: &'a Value,
    pointer: &str,
) -> (r: Option<&'a Value>)
    ensures
        match r {
            Some(found) => json_at(*value, pointer@) == Some(*found),
            None => json_at(*value, pointer@).is_none(),
        },
;

/// `Clone::clone` of `serde_json::Value`: the copy equals the value that it
/// was made of.
pub assume_specification[ <serde_json::Value as Clone>::clone ](value: &Value) -> (r: Value)
    ensures
        r == *value,
;

/// What one entry of the road-class detail holds: a segment where the entry
/// is an array of at least three elements that starts with two unsigned
/// integers and a string, nothing otherwise.
pub open spec fn entry_segment(entry: Value) -> Option<SegmentView> {
    match json_items(entry) {
        Some(fields) => if fields.len() >= 3 {
            match (json_unsigned(fields[0]), json_unsigned(fields[1]), json_text(fields[2])) {
                (Some(from), Some(to), Some(label)) => Some(SegmentView { from, to, label }),
                _ => None,
            }
        } else {
            None
        },
        None => None,
    }
}

/// The segments that a list of entries holds, in order; entries that hold
/// none are left out.
pub open spec fn entry_segments(entries: Seq<Value>) -> Seq<SegmentView>
    decreases entries.len(),
{
    if entries.len() == 0 {
        Seq::empty()
    } else {
        let front = entry_segments(entries.drop_last());
        match entry_segment(entries.last()) {
            Some(segment) => front.push(segment),
            None => front,
        }
    }
}

/// The road-class segments of a route payload: those of the array at
/// `/details/road_class`, none where the payload has no array there.
pub open spec fn route_segments(route: Value) -> Seq<SegmentView> {
    match json_at(route, "/details/road_class"@) {
        Some(detail) => match json_items(detail) {
            Some(entries) => entry_segments(entries),
            None => Seq::empty(),
        },
        None => Seq::empty(),
    }
}

/// Reads one entry of the road-class detail.
pub fn decode_entry(entry: &Value) -> (r: Option<RoadSegment>)
    ensures
        match r {
            Some(segment) => entry_segment(*entry) == Some(segment@),
            None => entry_segment(*entry).is_none(),
        },
{
    let fields = match entry.as_array() {
        Some(fields) => fields,
        None => {
            return None;
        },
    };
    if fields.len() < 3 {
        return None;
    }
    let from: u64 = match fields[0].as_u64() {
        Some(from) => from,
        None => {
            return None;
        },
    };
    let to: u64 = match fields[1].as_u64() {
        Some(to) => to,
        None => {
            return None;
        },
    };
    let label = match fields[2].as_str() {
        Some(label) => label,
        None => {
            return None;
        },
    };
    Some(RoadSegment { from, to, label: label.to_owned() })
}

/// Reads the road-class segments out of a route payload. A payload without
/// the detail, or with something else than an array in its place, has none;
/// an entry that is no well-formed segment is left out.
pub fn decode_segments(route: &Value) -> (segments: Vec<RoadSegment>)
    ensures
        segment_views(segments@) == route_segments(*route),
{
    let mut segments: Vec<RoadSegment> = Vec::new();
    let detail = match route.pointer("/details/road_class") {
        Some(detail) => detail,
        None => {
            assert(segment_views(segments@) =~= Seq::empty());
            return segments;
        },
    };
    let entries = match detail.as_array() {
        Some(entries) => entries,
        None => {
            assert(segment_views(segments@) =~= Seq::empty());
            return segments;
        },
    };
    let mut i: usize = 0;
    assert(entries@.take(0) =~= Seq::empty());
    assert(segment_views(segments@) =~= Seq::empty());
    while i < entries.len()
        invariant
            i <= entries@.len(),
            segment_views(segments@) == entry_segments(entries@.take(i as int)),
        decreases entries@.len() - i,
    {
        proof {
            let next = entries@.take(i + 1);
            assert(next.drop_last() =~= entries@.take(i as int));
            assert(next.last() == entries@[i as int]);
        }
        let ghost before = segments@;
        match decode_entry(&entries[i]) {
            Some(segment) => {
                segments.push(segment);
                assert(segment_views(segments@) =~= segment_views(before).push(segment@));
            },
            None => {},
        }
        i = i + 1;
    }
    assert(entries@.take(i as int) =~= entries@);
    segments
}

/// A metric as it is used: 0 where the payload gave none.
pub open spec fn metric_value(raw: Option<u64>) -> u64 {
    match raw {
        Some(v) => v,
        None => 0,
    }
}

/// Reads one metric: a missing or non-numeric one becomes 0.
pub fn metric(raw: Option<u64>) -> (r: u64)
    ensures
        r == metric_value(raw),
{
    match raw {
        Some(v) => v,
        None => 0,
    }
}

impl CandidatePath {
    /// Makes a candidate of its length, travel time and climb, each of which
    /// may be missing and then counts as 0, and of its payload, out of which
    /// the road-class segments are read.
    pub fn from_route(
        distance: Option<u64>,
        time: Option<u64>,
        ascend: Option<u64>,
        route: Value,
    ) -> (path: CandidatePath)
        ensures
            path.distance == metric_value(distance),
            path.time == metric_value(time),
            path.ascend == metric_value(ascend),
            path.route == route,
            segment_views(path.segments@) == route_segments(route),
    {
        let segments = decode_segments(&route);
        CandidatePath {
            distance: metric(distance),
            time: metric(time),
            ascend: metric(ascend),
            segments,
            route,
        }
    }
}

} // verus!
