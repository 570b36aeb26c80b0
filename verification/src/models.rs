//! The records that go into and come out of a scoring pass.

use vstd::prelude::*;
use serde_json::Value;
use crate::fixed::{clamp01, clamped_unit, UNIT};

verus! {

/// The rider's four dials, each in millionths of the unit interval.
#[derive(Clone, Copy, Debug, PartialEq, Eq)]
pub struct SuggestionPreferences {
    /// 0 prefers flat routes, one million tolerates climbing.
    pub fitness_level: i64,
    /// 0 is indifferent, one million strongly favours scenic road classes.
    pub scenic_preference: i64,
    /// 0 is indifferent, one million strongly avoids major roads.
    pub avoid_main_roads: i64,
    /// 0 optimises distance, one million optimises duration.
    pub time_priority: i64,
}

/// A dial as it is used: a setting inside the unit interval is kept; one
/// outside it, or none at all, counts as one half.
pub open spec fn dial_value(raw: Option<i64>) -> i64 {
    match raw {
        Some(v) => clamped_unit(v as int) as i64,
        None => 500_000,
    }
}

/// Reads one dial: a missing or non-numeric setting, and one outside the
/// unit interval, become one half.
pub fn dial(raw: Option<i64>) -> (r: i64)
    ensures
        r == dial_value(raw),
        0 <= r <= UNIT,
{
    match raw {
        Some(v) => clamp01(v),
        None => 500_000,
    }
}

impl SuggestionPreferences {
    /// Makes preferences of four raw settings, each of which may be missing.
    pub fn from_raw(
        fitness_level: Option<i64>,
        scenic_preference: Option<i64>,
        avoid_main_roads: Option<i64>,
        time_priority: Option<i64>,
    ) -> (r: Self)
        ensures
            r.fitness_level == dial_value(fitness_level),
            r.scenic_preference == dial_value(scenic_preference),
            r.avoid_main_roads == dial_value(avoid_main_roads),
            r.time_priority == dial_value(time_priority),
            r.in_range(),
    {
        SuggestionPreferences {
            fitness_level: dial(fitness_level),
            scenic_preference: dial(scenic_preference),
            avoid_main_roads: dial(avoid_main_roads),
            time_priority: dial(time_priority),
        }
    }

    /// Every dial lies in the unit interval.
    pub open spec fn in_range(self) -> bool {
        &&& 0 <= self.fitness_level <= UNIT
        &&& 0 <= self.scenic_preference <= UNIT
        &&& 0 <= self.avoid_main_roads <= UNIT
        &&& 0 <= self.time_priority <= UNIT
    }

    /// The preferences with every dial that lies outside the unit interval
    /// replaced by one half.
    pub open spec fn clamped_value(self) -> SuggestionPreferences {
        SuggestionPreferences {
            fitness_level: clamped_unit(self.fitness_level as int) as i64,
            scenic_preference: clamped_unit(self.scenic_preference as int) as i64,
            avoid_main_roads: clamped_unit(self.avoid_main_roads as int) as i64,
            time_priority: clamped_unit(self.time_priority as int) as i64,
        }
    }

    /// Brings every dial into the unit interval: a dial outside it collapses
    /// to one half.
    pub fn clamped(self) -> (r: Self)
        ensures
            r == self.clamped_value(),
            r.in_range(),
            self.in_range() ==> r == self,
    {
        SuggestionPreferences {
            fitness_level: clamp01(self.fitness_level),
            scenic_preference: clamp01(self.scenic_preference),
            avoid_main_roads: clamp01(self.avoid_main_roads),
            time_priority: clamp01(self.time_priority),
        }
    }
}

impl Default for SuggestionPreferences {
    /// Every dial at one half.
    fn default() -> (r: Self)
        ensures
            r.fitness_level == 500_000,
            r.scenic_preference == 500_000,
            r.avoid_main_roads == 500_000,
            r.time_priority == 500_000,
    {
        SuggestionPreferences {
            fitness_level: 500_000,
            scenic_preference: 500_000,
            avoid_main_roads: 500_000,
            time_priority: 500_000,
        }
    }
}

/// The number of suggestions returned where a request names none.
pub fn default_max_suggestions() -> (r: usize)
    ensures
        r == 3,
{
    3
}

/// The least number of suggestions that a request is served with.
pub const MIN_SUGGESTIONS: usize = 1;

/// The greatest number of suggestions that a request is served with.
pub const MAX_SUGGESTIONS: usize = 6;

/// Brings a requested number of suggestions into the range that is served.
pub fn clamp_max_suggestions(requested: usize) -> (r: usize)
    ensures
        r == if requested < MIN_SUGGESTIONS {
            MIN_SUGGESTIONS
        } else if requested > MAX_SUGGESTIONS {
            MAX_SUGGESTIONS
        } else {
            requested
        },
{
    if requested < MIN_SUGGESTIONS {
        MIN_SUGGESTIONS
    } else if requested > MAX_SUGGESTIONS {
        MAX_SUGGESTIONS
    } else {
        requested
    }
}

/// One stretch of a route with its road class: the offsets of its first and
/// last point along the route, and the class label.
#[derive(Clone, Debug, PartialEq, Eq)]
pub struct RoadSegment {
    pub from: u64,
    pub to: u64,
    pub label: String,
}

/// A road segment as a plain value.
pub struct SegmentView {
    pub from: u64,
    pub to: u64,
    pub label: Seq<char>,
}

impl View for RoadSegment {
    type V = SegmentView;

    open spec fn view(&self) -> SegmentView {
        SegmentView { from: self.from, to: self.to, label: self.label@ }
    }
}

/// The segments of a list as plain values.
pub open spec fn segment_views(segments: Seq<RoadSegment>) -> Seq<SegmentView> {
    Seq::new(segments.len(), |i: int| segments[i]@)
}

/// One alternative route: its length in thousandths of a metre, its travel
/// time in milliseconds, its climb in thousandths of a metre, its road-class
/// segments, and the payload that is handed through to the suggestion.
#[derive(Clone, Debug, PartialEq, Eq)]
pub struct CandidatePath {
    pub distance: u64,
    pub time: u64,
    pub ascend: u64,
    pub segments: Vec<RoadSegment>,
    pub route: Value,
}

/// What is measured of one candidate: metres, seconds and metres climbed in
/// thousandths, the two road-class ratios in millionths.
#[derive(Clone, Copy, Debug, PartialEq, Eq)]
pub struct DerivedMetrics {
    pub distance_m: u64,
    pub duration_s: u64,
    pub ascend_m: u64,
    pub scenic_ratio: u64,
    pub major_road_ratio: u64,
}

impl DerivedMetrics {
    /// Both ratios lie in the unit interval.
    pub open spec fn in_range(self) -> bool {
        self.scenic_ratio <= UNIT && self.major_road_ratio <= UNIT
    }
}

/// The metrics as presented: metres, seconds and metres climbed in
/// hundredths, the two ratios in thousandths.
#[derive(Clone, Copy, Debug, PartialEq, Eq)]
pub struct SuggestionMetrics {
    pub distance_m: u64,
    pub duration_s: u64,
    pub ascend_m: u64,
    pub scenic_ratio: u64,
    pub major_road_ratio: u64,
}

/// One ranked suggestion: its identifier, its score in thousandths, the
/// sentence that explains it, its metrics and the route's payload.
#[derive(Clone, Debug, PartialEq, Eq)]
pub struct RouteSuggestion {
    pub id: String,
    pub score: u64,
    pub explanation: String,
    pub metrics: SuggestionMetrics,
    pub route: Value,
}

} // verus!
