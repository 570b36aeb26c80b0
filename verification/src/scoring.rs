//! Metrics, scores and explanations of candidate routes, and the ranked list
//! of suggestions.

use vstd::prelude::*;
use vstd::string::*;
use crate::fixed::{
    highest, lemma_lowest_highest, lemma_rounded_monotone, lowest, min_max, normalize,
    normalized, ratio, round2, round3, round_to_step, rounded, unit_ratio, HALF, UNIT,
};
use crate::models::{
    segment_views, CandidatePath, DerivedMetrics, RoadSegment, RouteSuggestion, SegmentView,
    SuggestionMetrics, SuggestionPreferences,
};
use crate::ranking::{is_ranking, lemma_ranking_descends, rank_by_score, ranking};
use crate::text::{decimal, decimal_string, text_eq};

verus! {

/// The bucket that a road class falls into.
#[derive(Clone, Copy, Debug, PartialEq, Eq)]
pub enum RoadClass {
    Scenic,
    Major,
    Other,
}

/// Whether a label names a scenic road class.
pub open spec fn is_scenic_label(label: Seq<char>) -> bool {
    ||| label == "cycleway"@
    ||| label == "path"@
    ||| label == "track"@
    ||| label == "living_street"@
    ||| label == "residential"@
    ||| label == "service"@
}

/// Whether a label names a major road class.
pub open spec fn is_major_label(label: Seq<char>) -> bool {
    ||| label == "motorway"@
    ||| label == "trunk"@
    ||| label == "primary"@
    ||| label == "secondary"@
    ||| label == "tertiary"@
}

/// The bucket of a road-class label.
pub open spec fn class_of(label: Seq<char>) -> RoadClass {
    if is_scenic_label(label) {
        RoadClass::Scenic
    } else if is_major_label(label) {
        RoadClass::Major
    } else {
        RoadClass::Other
    }
}

/// The length of a segment; 0 where its end does not lie behind its start.
pub open spec fn segment_length(segment: SegmentView) -> nat {
    if segment.to > segment.from {
        (segment.to - segment.from) as nat
    } else {
        0
    }
}

/// The summed length of the segments.
pub open spec fn total_length(segments: Seq<SegmentView>) -> nat
    decreases segments.len(),
{
    if segments.len() == 0 {
        0
    } else {
        total_length(segments.drop_last()) + segment_length(segments.last())
    }
}

/// The summed length of the segments whose label falls into `class`.
pub open spec fn class_length(segments: Seq<SegmentView>, class: RoadClass) -> nat
    decreases segments.len(),
{
    if segments.len() == 0 {
        0
    } else {
        class_length(segments.drop_last(), class) + if class_of(segments.last().label) == class {
            segment_length(segments.last())
        } else {
            0
        }
    }
}

/// The scenic and the major-road share of a route's length in millionths,
/// rounded down; one half each where no segment has a length.
pub open spec fn ratios(segments: Seq<SegmentView>) -> (u64, u64) {
    if total_length(segments) == 0 {
        (500_000, 500_000)
    } else {
        (
            ratio(
                class_length(segments, RoadClass::Scenic) as int,
                total_length(segments) as int,
            ) as u64,
            ratio(
                class_length(segments, RoadClass::Major) as int,
                total_length(segments) as int,
            ) as u64,
        )
    }
}

/// The length of one class never exceeds the total, and the scenic and the
/// major lengths together do not either.
pub proof fn lemma_class_lengths(segments: Seq<SegmentView>)
    ensures
        class_length(segments, RoadClass::Scenic) + class_length(segments, RoadClass::Major)
            <= total_length(segments),
        total_length(segments) <= segments.len() * 0xffff_ffff_ffff_ffff,
    decreases segments.len(),
{
    if segments.len() > 0 {
        lemma_class_lengths(segments.drop_last());
        assert((segments.len() - 1) * 0xffff_ffff_ffff_ffff + 0xffff_ffff_ffff_ffff
            == segments.len() * 0xffff_ffff_ffff_ffff) by (nonlinear_arith);
    }
}

/// The bucket of a road-class label.
pub fn road_class(label: &str) -> (class: RoadClass)
    ensures
        class == class_of(label@),
{
    if text_eq(label, "cycleway") || text_eq(label, "path") || text_eq(label, "track") || text_eq(
        label,
        "living_street",
    ) || text_eq(label, "residential") || text_eq(label, "service") {
        RoadClass::Scenic
    } else if text_eq(label, "motorway") || text_eq(label, "trunk") || text_eq(label, "primary")
        || text_eq(label, "secondary") || text_eq(label, "tertiary") {
        RoadClass::Major
    } else {
        RoadClass::Other
    }
}

/// The scenic and the major-road share of a route's length, in millionths.
/// Segments without a length are passed over; where none has a length, both
/// shares are one half.
pub fn road_class_ratios(segments: &[RoadSegment]) -> (r: (u64, u64))
    ensures
        r == ratios(segment_views(segments@)),
        r.0 <= UNIT,
        r.1 <= UNIT,
        r.0 + r.1 <= UNIT,
{
    let ghost views = segment_views(segments@);
    let mut scenic_total: u128 = 0;
    let mut major_total: u128 = 0;
    let mut total: u128 = 0;
    let mut i: usize = 0;
    assert(views.take(0) =~= Seq::empty());
    while i < segments.len()
        invariant
            i <= segments@.len(),
            views == segment_views(segments@),
            total == total_length(views.take(i as int)),
            scenic_total == class_length(views.take(i as int), RoadClass::Scenic),
            major_total == class_length(views.take(i as int), RoadClass::Major),
        decreases segments@.len() - i,
    {
        let segment = &segments[i];
        proof {
            let next = views.take(i + 1);
            assert(next.drop_last() =~= views.take(i as int));
            assert(next.last() == segment@);
            lemma_class_lengths(next);
            assert(next.len() * 0xffff_ffff_ffff_ffff <= 0xffff_ffff_ffff_ffff
                * 0xffff_ffff_ffff_ffff) by (nonlinear_arith)
                requires
                    next.len() <= 0xffff_ffff_ffff_ffff,
            ;
        }
        if segment.to > segment.from {
            let length: u128 = (segment.to - segment.from) as u128;
            total = total + length;
            match road_class(segment.label.as_str()) {
                RoadClass::Scenic => {
                    scenic_total = scenic_total + length;
                },
                RoadClass::Major => {
                    major_total = major_total + length;
                },
                RoadClass::Other => {},
            }
        }
        i = i + 1;
    }
    proof {
        assert(views.take(i as int) =~= views);
        lemma_class_lengths(views);
    }
    if total == 0 {
        return (HALF, HALF);
    }
    let scenic: u64 = unit_ratio(scenic_total, total);
    let major: u64 = unit_ratio(major_total, total);
    proof {
        lemma_ratio_sum(scenic_total as int, major_total as int, total as int);
    }
    (scenic, major)
}

/// Two shares of one whole that together do not exceed it have ratios that
/// together do not exceed one.
pub proof fn lemma_ratio_sum(a: int, b: int, whole: int)
    requires
        0 <= a,
        0 <= b,
        a + b <= whole,
        0 < whole,
    ensures
        ratio(a, whole) + ratio(b, whole) <= 1_000_000,
{
    let x = a * 1_000_000;
    let y = b * 1_000_000;
    vstd::arithmetic::div_mod::lemma_fundamental_div_mod(x, whole);
    vstd::arithmetic::div_mod::lemma_fundamental_div_mod(y, whole);
    vstd::arithmetic::div_mod::lemma_mod_bound(x, whole);
    vstd::arithmetic::div_mod::lemma_mod_bound(y, whole);
    let qx = x / whole;
    let qy = y / whole;
    assert((qx + qy) * whole <= 1_000_000 * whole) by (nonlinear_arith)
        requires
            x == whole * qx + x % whole,
            y == whole * qy + y % whole,
            0 <= x % whole,
            0 <= y % whole,
            x == a * 1_000_000,
            y == b * 1_000_000,
            a + b <= whole,
    ;
    assert(qx + qy <= 1_000_000) by (nonlinear_arith)
        requires
            (qx + qy) * whole <= 1_000_000 * whole,
            0 < whole,
    ;
}

/// The metrics of one candidate: its length, its travel time in seconds, its
/// climb, and the shares of its road classes.
pub open spec fn metrics_of(path: CandidatePath) -> DerivedMetrics {
    let shares = ratios(segment_views(path.segments@));
    DerivedMetrics {
        distance_m: path.distance,
        duration_s: path.time,
        ascend_m: path.ascend,
        scenic_ratio: shares.0,
        major_road_ratio: shares.1,
    }
}

/// The metrics of every candidate, in input order.
pub open spec fn all_metrics(paths: Seq<CandidatePath>) -> Seq<DerivedMetrics> {
    Seq::new(paths.len(), |i: int| metrics_of(paths[i]))
}

/// The metrics rounded for presentation: lengths and durations to
/// hundredths, ratios to thousandths.
pub open spec fn presented(metrics: DerivedMetrics) -> SuggestionMetrics {
    SuggestionMetrics {
        distance_m: rounded(metrics.distance_m as int, 10) as u64,
        duration_s: rounded(metrics.duration_s as int, 10) as u64,
        ascend_m: rounded(metrics.ascend_m as int, 10) as u64,
        scenic_ratio: rounded(metrics.scenic_ratio as int, 1_000) as u64,
        major_road_ratio: rounded(metrics.major_road_ratio as int, 1_000) as u64,
    }
}

/// Derives the metrics of one candidate.
pub fn derive_metrics(path: &CandidatePath) -> (metrics: DerivedMetrics)
    ensures
        metrics == metrics_of(*path),
        metrics.in_range(),
{
    let shares = road_class_ratios(path.segments.as_slice());
    DerivedMetrics {
        distance_m: path.distance,
        duration_s: path.time,
        ascend_m: path.ascend,
        scenic_ratio: shares.0,
        major_road_ratio: shares.1,
    }
}

/// Rounds metrics for presentation.
pub fn present_metrics(metrics: &DerivedMetrics) -> (r: SuggestionMetrics)
    ensures
        r == presented(*metrics),
{
    SuggestionMetrics {
        distance_m: round2(metrics.distance_m),
        duration_s: round2(metrics.duration_s),
        ascend_m: round2(metrics.ascend_m),
        scenic_ratio: round3(metrics.scenic_ratio),
        major_road_ratio: round3(metrics.major_road_ratio),
    }
}

/// The least and the greatest length, duration and climb of a candidate set.
#[derive(Clone, Copy, Debug, PartialEq, Eq)]
pub struct MetricRanges {
    pub min_distance: u64,
    pub max_distance: u64,
    pub min_duration: u64,
    pub max_duration: u64,
    pub min_climb: u64,
    pub max_climb: u64,
}

/// The lengths of the candidates, in input order.
pub open spec fn distances(metrics: Seq<DerivedMetrics>) -> Seq<u64> {
    Seq::new(metrics.len(), |i: int| metrics[i].distance_m)
}

/// The durations of the candidates, in input order.
pub open spec fn durations(metrics: Seq<DerivedMetrics>) -> Seq<u64> {
    Seq::new(metrics.len(), |i: int| metrics[i].duration_s)
}

/// The climbs of the candidates, in input order.
pub open spec fn climbs(metrics: Seq<DerivedMetrics>) -> Seq<u64> {
    Seq::new(metrics.len(), |i: int| metrics[i].ascend_m)
}

/// The ranges of the three metrics over a candidate set.
pub open spec fn ranges_of(metrics: Seq<DerivedMetrics>) -> MetricRanges {
    MetricRanges {
        min_distance: lowest(distances(metrics)),
        max_distance: highest(distances(metrics)),
        min_duration: lowest(durations(metrics)),
        max_duration: highest(durations(metrics)),
        min_climb: lowest(climbs(metrics)),
        max_climb: highest(climbs(metrics)),
    }
}

/// Finds the ranges of the three metrics over a candidate set.
pub fn metric_ranges(metrics: &[DerivedMetrics]) -> (ranges: MetricRanges)
    ensures
        ranges == ranges_of(metrics@),
{
    let mut lengths: Vec<u64> = Vec::new();
    let mut times: Vec<u64> = Vec::new();
    let mut ascents: Vec<u64> = Vec::new();
    let mut i: usize = 0;
    while i < metrics.len()
        invariant
            i <= metrics@.len(),
            lengths@ =~= distances(metrics@).take(i as int),
            times@ =~= durations(metrics@).take(i as int),
            ascents@ =~= climbs(metrics@).take(i as int),
        decreases metrics@.len() - i,
    {
        lengths.push(metrics[i].distance_m);
        times.push(metrics[i].duration_s);
        ascents.push(metrics[i].ascend_m);
        i = i + 1;
    }
    assert(lengths@ =~= distances(metrics@));
    assert(times@ =~= durations(metrics@));
    assert(ascents@ =~= climbs(metrics@));
    let length_range = min_max(lengths.as_slice());
    let time_range = min_max(times.as_slice());
    let ascent_range = min_max(ascents.as_slice());
    MetricRanges {
        min_distance: length_range.0,
        max_distance: length_range.1,
        min_duration: time_range.0,
        max_duration: time_range.1,
        min_climb: ascent_range.0,
        max_climb: ascent_range.1,
    }
}

/// The three sub-scores of a candidate in millionths; higher is better.
#[derive(Clone, Copy, Debug, PartialEq, Eq)]
pub struct SubScores {
    pub distance: u64,
    pub duration: u64,
    pub climb: u64,
}

impl SubScores {
    /// Every sub-score lies in the unit interval.
    pub open spec fn in_range(self) -> bool {
        self.distance <= UNIT && self.duration <= UNIT && self.climb <= UNIT
    }
}

/// The sub-scores of a candidate: one minus each of its normalised metrics.
pub open spec fn sub_scores_of(metrics: DerivedMetrics, ranges: MetricRanges) -> SubScores {
    SubScores {
        distance: (1_000_000 - normalized(
            metrics.distance_m as int,
            ranges.min_distance as int,
            ranges.max_distance as int,
        )) as u64,
        duration: (1_000_000 - normalized(
            metrics.duration_s as int,
            ranges.min_duration as int,
            ranges.max_duration as int,
        )) as u64,
        climb: (1_000_000 - normalized(
            metrics.ascend_m as int,
            ranges.min_climb as int,
            ranges.max_climb as int,
        )) as u64,
    }
}

/// Computes the sub-scores of a candidate within the ranges of its set.
pub fn sub_scores(metrics: &DerivedMetrics, ranges: &MetricRanges) -> (scores: SubScores)
    ensures
        scores == sub_scores_of(*metrics, *ranges),
        scores.in_range(),
{
    SubScores {
        distance: 1_000_000 - normalize(metrics.distance_m, ranges.min_distance, ranges.max_distance),
        duration: 1_000_000 - normalize(metrics.duration_s, ranges.min_duration, ranges.max_duration),
        climb: 1_000_000 - normalize(metrics.ascend_m, ranges.min_climb, ranges.max_climb),
    }
}

/// The blend of the distance and the duration sub-score by the time
/// priority, in millionths of millionths.
pub open spec fn travel_efficiency(
    time_priority: int,
    distance_score: int,
    duration_score: int,
) -> int {
    (1_000_000 - time_priority) * distance_score + time_priority * duration_score
}

/// The weighted sum of a candidate, in units of ten to the minus eighteen:
/// 0.45 of the travel efficiency, the scenic ratio weighted by 0.2 plus 0.3
/// of the scenic preference, the share off major roads weighted by 0.2 plus
/// 0.3 of the avoidance, and the climb sub-score weighted by 0.15 plus 0.25
/// of one minus the fitness level.
pub open spec fn weighted_total(
    metrics: DerivedMetrics,
    preferences: SuggestionPreferences,
    scores: SubScores,
) -> int {
    450_000 * travel_efficiency(
        preferences.time_priority as int,
        scores.distance as int,
        scores.duration as int,
    ) + metrics.scenic_ratio * (200_000_000_000 + 300_000 * preferences.scenic_preference) + (
    1_000_000 - metrics.major_road_ratio) * (200_000_000_000 + 300_000
        * preferences.avoid_main_roads) + scores.climb * (150_000_000_000 + 250_000 * (1_000_000
        - preferences.fitness_level))
}

/// A weighted sum as it is presented: rounded to thousandths.
pub open spec fn presented_score(total: int) -> int {
    rounded(total, 1_000_000_000_000_000)
}

/// Rounds a weighted sum to thousandths for presentation.
pub fn round_score(total: u64) -> (score: u64)
    ensures
        score == presented_score(total as int),
{
    round_to_step(total, 1_000_000_000_000_000)
}

/// Computes the weighted sum of a candidate, by which candidates are
/// ranked, in units of ten to the minus eighteen.
pub fn total_score(
    metrics: &DerivedMetrics,
    preferences: &SuggestionPreferences,
    scores: &SubScores,
) -> (total: u64)
    requires
        preferences.in_range(),
        scores.in_range(),
        metrics.in_range(),
    ensures
        total == weighted_total(*metrics, *preferences, *scores),
        total <= 1_850_000_000_000_000_000,
{
    let time_priority: u64 = preferences.time_priority as u64;
    let scenic_preference: u64 = preferences.scenic_preference as u64;
    let avoid_main_roads: u64 = preferences.avoid_main_roads as u64;
    let climb_weight: u64 = 1_000_000 - preferences.fitness_level as u64;
    let distance_priority: u64 = 1_000_000 - time_priority;
    assert(distance_priority * scores.distance <= distance_priority * 1_000_000)
        by (nonlinear_arith)
        requires
            scores.distance <= 1_000_000,
    ;
    assert(time_priority * scores.duration <= time_priority * 1_000_000) by (nonlinear_arith)
        requires
            scores.duration <= 1_000_000,
    ;
    let efficiency: u64 = distance_priority * scores.distance + time_priority * scores.duration;
    let scenic_weight: u64 = 200_000_000_000 + 300_000 * scenic_preference;
    let quiet_weight: u64 = 200_000_000_000 + 300_000 * avoid_main_roads;
    let effort_weight: u64 = 150_000_000_000 + 250_000 * climb_weight;
    let quiet_share: u64 = 1_000_000 - metrics.major_road_ratio;
    assert(metrics.scenic_ratio * scenic_weight <= 1_000_000 * 500_000_000_000)
        by (nonlinear_arith)
        requires
            metrics.scenic_ratio <= 1_000_000,
            scenic_weight <= 500_000_000_000,
    ;
    assert(quiet_share * quiet_weight <= 1_000_000 * 500_000_000_000) by (nonlinear_arith)
        requires
            quiet_share <= 1_000_000,
            quiet_weight <= 500_000_000_000,
    ;
    assert(scores.climb * effort_weight <= 1_000_000 * 400_000_000_000) by (nonlinear_arith)
        requires
            scores.climb <= 1_000_000,
            effort_weight <= 400_000_000_000,
    ;
    let total: u64 = 450_000 * efficiency + metrics.scenic_ratio * scenic_weight + quiet_share
        * quiet_weight + scores.climb * effort_weight;
    assert(total == weighted_total(*metrics, *preferences, *scores));
    total
}

/// The reasons that speak for a candidate, in their fixed order: travel time
/// or distance, scenic roads, distance from main roads, climbing effort.
pub open spec fn reasons(
    metrics: DerivedMetrics,
    preferences: SuggestionPreferences,
    distance_score: u64,
    duration_score: u64,
    climb_score: u64,
) -> Seq<Seq<char>> {
    let travel = if preferences.time_priority >= 600_000 && duration_score >= 500_000 {
        seq!["keeps travel time lower"@]
    } else if preferences.time_priority < 600_000 && distance_score >= 500_000 {
        seq!["keeps total distance shorter"@]
    } else {
        Seq::empty()
    };
    let scenic = if preferences.scenic_preference >= 600_000 && metrics.scenic_ratio >= 450_000 {
        seq!["uses more scenic road segments"@]
    } else {
        Seq::empty()
    };
    let quiet = if preferences.avoid_main_roads >= 600_000 && metrics.major_road_ratio
        <= 350_000 {
        seq!["stays away from main roads"@]
    } else {
        Seq::empty()
    };
    let effort = if preferences.fitness_level < 500_000 && climb_score >= 500_000 {
        seq!["reduces climbing effort"@]
    } else {
        Seq::empty()
    };
    travel + scenic + quiet + effort
}

/// The sentence made of a list of reasons: a fixed sentence for none, the
/// reason for one, the first two joined by "and" for more.
pub open spec fn sentence(reasons: Seq<Seq<char>>) -> Seq<char> {
    if reasons.len() == 0 {
        "Balanced option based on your current preference mix."@
    } else if reasons.len() == 1 {
        "Selected because it "@ + reasons[0] + "."@
    } else {
        "Selected because it "@ + reasons[0] + " and "@ + reasons[1] + "."@
    }
}

/// The sentence that explains a candidate.
pub open spec fn explanation_text(
    metrics: DerivedMetrics,
    preferences: SuggestionPreferences,
    distance_score: u64,
    duration_score: u64,
    climb_score: u64,
) -> Seq<char> {
    sentence(reasons(metrics, preferences, distance_score, duration_score, climb_score))
}

/// The characters of each of the strings.
spec fn texts(strings: Seq<&'static str>) -> Seq<Seq<char>> {
    Seq::new(strings.len(), |i: int| strings[i]@)
}

/// Explains in one sentence what speaks for a candidate. Of the reasons
/// that hold, the first two are named.
pub fn explanation_for(
    metrics: &DerivedMetrics,
    preferences: &SuggestionPreferences,
    distance_score: u64,
    duration_score: u64,
    climb_score: u64,
) -> (explanation: String)
    ensures
        explanation@ == explanation_text(
            *metrics,
            *preferences,
            distance_score,
            duration_score,
            climb_score,
        ),
{
    let mut found: Vec<&'static str> = Vec::new();
    let ghost all = reasons(*metrics, *preferences, distance_score, duration_score, climb_score);
    let ghost mut so_far: Seq<Seq<char>> = Seq::empty();
    assert(texts(found@) =~= so_far);

    if preferences.time_priority >= 600_000 && duration_score >= 500_000 {
        found.push("keeps travel time lower");
        proof {
            so_far = so_far + seq!["keeps travel time lower"@];
        }
    } else if preferences.time_priority < 600_000 && distance_score >= 500_000 {
        found.push("keeps total distance shorter");
        proof {
            so_far = so_far + seq!["keeps total distance shorter"@];
        }
    }
    assert(texts(found@) =~= so_far);

    if preferences.scenic_preference >= 600_000 && metrics.scenic_ratio >= 450_000 {
        found.push("uses more scenic road segments");
        proof {
            so_far = so_far + seq!["uses more scenic road segments"@];
        }
    }
    assert(texts(found@) =~= so_far);

    if preferences.avoid_main_roads >= 600_000 && metrics.major_road_ratio <= 350_000 {
        found.push("stays away from main roads");
        proof {
            so_far = so_far + seq!["stays away from main roads"@];
        }
    }
    assert(texts(found@) =~= so_far);

    if preferences.fitness_level < 500_000 && climb_score >= 500_000 {
        found.push("reduces climbing effort");
        proof {
            so_far = so_far + seq!["reduces climbing effort"@];
        }
    }
    assert(texts(found@) =~= so_far);
    assert(so_far =~= all);

    if found.len() == 0 {
        return String::from_str("Balanced option based on your current preference mix.");
    }
    let first: &'static str = found[0];
    assert(first@ == all[0]);
    if found.len() == 1 {
        return String::from_str("Selected because it ").concat(first).concat(".");
    }
    let second: &'static str = found[1];
    assert(second@ == all[1]);
    String::from_str("Selected because it ").concat(first).concat(" and ").concat(second).concat(
        ".",
    )
}

/// The identifier of the suggestion at a place of the list, places counted
/// from one.
pub open spec fn suggestion_id_text(place: nat) -> Seq<char> {
    "suggestion-"@ + decimal(place)
}

/// Writes the identifier of the suggestion at a place of the list.
pub fn suggestion_id(place: usize) -> (id: String)
    ensures
        id@ == suggestion_id_text(place as nat),
{
    let number = decimal_string(place);
    String::from_str("suggestion-").concat(number.as_str())
}

/// The weighted sums of candidates with the given metrics, each scored
/// within `ranges`, in input order.
pub open spec fn totals_of(
    metrics: Seq<DerivedMetrics>,
    ranges: MetricRanges,
    preferences: SuggestionPreferences,
) -> Seq<u64> {
    Seq::new(
        metrics.len(),
        |c: int| weighted_total(metrics[c], preferences, sub_scores_of(metrics[c], ranges)) as u64,
    )
}

/// The weighted sums of all candidates, each scored within the ranges of
/// the whole set, in input order.
pub open spec fn all_totals(paths: Seq<CandidatePath>, preferences: SuggestionPreferences) -> Seq<
    u64,
> {
    totals_of(all_metrics(paths), ranges_of(all_metrics(paths)), preferences)
}

/// The weighted sum of candidate `c` among `paths`.
pub open spec fn candidate_total(
    paths: Seq<CandidatePath>,
    preferences: SuggestionPreferences,
    c: int,
) -> u64 {
    all_totals(paths, preferences)[c]
}

/// `suggestion` presents candidate `c` of `paths` at place `place` of the
/// list, places counted from zero: it has the identifier of the place, the
/// candidate's rounded score, its explanation, its rounded metrics and its
/// payload.
pub open spec fn presents(
    suggestion: RouteSuggestion,
    paths: Seq<CandidatePath>,
    preferences: SuggestionPreferences,
    c: int,
    place: int,
) -> bool {
    let metrics = all_metrics(paths);
    let scores = sub_scores_of(metrics[c], ranges_of(metrics));
    &&& suggestion.id@ == suggestion_id_text((place + 1) as nat)
    &&& suggestion.score == presented_score(candidate_total(paths, preferences, c) as int)
    &&& suggestion.explanation@ == explanation_text(
        metrics[c],
        preferences,
        scores.distance,
        scores.duration,
        scores.climb,
    )
    &&& suggestion.metrics == presented(metrics[c])
    &&& suggestion.route == paths[c].route
}

/// `out` is the list of suggestions for `paths`: as many as the limit and
/// the number of candidates allow, and at each place the candidate that the
/// ranking of the weighted sums has there, scored under the preferences
/// brought into range.
pub open spec fn is_suggestion_list(
    out: Seq<RouteSuggestion>,
    paths: Seq<CandidatePath>,
    preferences: SuggestionPreferences,
    limit: int,
) -> bool {
    let dials = preferences.clamped_value();
    let order = ranking(all_totals(paths, dials));
    &&& out.len() == if limit <= paths.len() {
        limit
    } else {
        paths.len() as int
    }
    &&& forall|k: int|
        0 <= k < out.len() ==> presents(#[trigger] out[k], paths, dials, order[k] as int, k)
}

/// Derives the metrics of every candidate.
pub fn derive_all_metrics(paths: &[CandidatePath]) -> (metrics: Vec<DerivedMetrics>)
    ensures
        metrics@ == all_metrics(paths@),
        forall|i: int| 0 <= i < metrics@.len() ==> (#[trigger] metrics@[i]).in_range(),
{
    let mut metrics: Vec<DerivedMetrics> = Vec::new();
    let mut i: usize = 0;
    while i < paths.len()
        invariant
            i <= paths@.len(),
            metrics@ =~= all_metrics(paths@).take(i as int),
            forall|j: int| 0 <= j < metrics@.len() ==> (#[trigger] metrics@[j]).in_range(),
        decreases paths@.len() - i,
    {
        metrics.push(derive_metrics(&paths[i]));
        i = i + 1;
    }
    assert(metrics@ =~= all_metrics(paths@));
    metrics
}

/// Computes the weighted sum of every candidate of a set, each scored
/// within `ranges`, under preferences that lie in range.
pub fn score_candidates(
    metrics: &[DerivedMetrics],
    ranges: &MetricRanges,
    preferences: &SuggestionPreferences,
) -> (totals: Vec<u64>)
    requires
        preferences.in_range(),
        forall|i: int| 0 <= i < metrics@.len() ==> (#[trigger] metrics@[i]).in_range(),
    ensures
        totals@ == totals_of(metrics@, *ranges, *preferences),
{
    let mut totals: Vec<u64> = Vec::new();
    let mut i: usize = 0;
    while i < metrics.len()
        invariant
            i <= metrics@.len(),
            preferences.in_range(),
            forall|j: int| 0 <= j < metrics@.len() ==> (#[trigger] metrics@[j]).in_range(),
            totals@ =~= totals_of(metrics@, *ranges, *preferences).take(i as int),
        decreases metrics@.len() - i,
    {
        let sub = sub_scores(&metrics[i], ranges);
        totals.push(total_score(&metrics[i], preferences, &sub));
        i = i + 1;
    }
    assert(totals@ =~= totals_of(metrics@, *ranges, *preferences));
    totals
}

/// Scores the candidates under the rider's preferences and returns the best
/// of them, at most `limit`, best first, each with its identifier, rounded
/// score, explanation, rounded metrics and payload. Candidates are ranked by
/// their weighted sums before rounding; those with equal sums keep their
/// input order. Preferences outside the unit interval count as one half.
pub fn build_suggestions(
    paths: &[CandidatePath],
    preferences: SuggestionPreferences,
    limit: usize,
) -> (out: Vec<RouteSuggestion>)
    ensures
        is_suggestion_list(out@, paths@, preferences, limit as int),
        out@.len() == if limit <= paths@.len() {
            limit as int
        } else {
            paths@.len() as int
        },
        forall|k: int|
            0 <= k < out@.len() ==> (#[trigger] out@[k]).id@ == suggestion_id_text((k + 1) as nat),
        forall|i: int, j: int|
            #![trigger out@[i], out@[j]]
            0 <= i <= j < out@.len() ==> out@[i].score >= out@[j].score,
{
    let dials = preferences.clamped();
    let metrics = derive_all_metrics(paths);
    let ranges = metric_ranges(metrics.as_slice());
    let totals = score_candidates(metrics.as_slice(), &ranges, &dials);
    let order = rank_by_score(totals.as_slice());
    let count: usize = if limit <= paths.len() {
        limit
    } else {
        paths.len()
    };
    proof {
        lemma_ranking_descends(order@, totals@);
    }
    let mut out: Vec<RouteSuggestion> = Vec::new();
    let mut k: usize = 0;
    while k < count
        invariant
            k <= count <= paths@.len(),
            out@.len() == k,
            dials == preferences.clamped_value(),
            metrics@ == all_metrics(paths@),
            ranges == ranges_of(metrics@),
            totals@ == all_totals(paths@, dials),
            is_ranking(order@, totals@),
            order@ == ranking(totals@),
            forall|i: int|
                0 <= i < out@.len() ==> presents(
                    #[trigger] out@[i],
                    paths@,
                    dials,
                    order@[i] as int,
                    i,
                ),
        decreases count - k,
    {
        let c: usize = order[k];
        assert(c < paths@.len());
        let sub = sub_scores(&metrics[c], &ranges);
        let suggestion = RouteSuggestion {
            id: suggestion_id(k + 1),
            score: round_score(totals[c]),
            explanation: explanation_for(&metrics[c], &dials, sub.distance, sub.duration, sub.climb),
            metrics: present_metrics(&metrics[c]),
            route: paths[c].route.clone(),
        };
        assert(presents(suggestion, paths@, dials, c as int, k as int));
        out.push(suggestion);
        k = k + 1;
    }
    assert forall|i: int, j: int|
        #![trigger out@[i], out@[j]]
        0 <= i <= j < out@.len() implies out@[i].score >= out@[j].score by {
        assert(presents(out@[i], paths@, dials, order@[i] as int, i));
        assert(presents(out@[j], paths@, dials, order@[j] as int, j));
        assert(totals@[order@[i] as int] >= totals@[order@[j] as int]);
        lemma_rounded_monotone(
            totals@[order@[j] as int] as int,
            totals@[order@[i] as int] as int,
            1_000_000_000_000_000,
        );
    }
    out
}

/// The inputs fix the output: two lists of suggestions for the same
/// candidates, preferences and limit have the same length and, place by
/// place, the same identifier, score, explanation, metrics and payload.
pub proof fn lemma_suggestions_determined(
    a: Seq<RouteSuggestion>,
    b: Seq<RouteSuggestion>,
    paths: Seq<CandidatePath>,
    preferences: SuggestionPreferences,
    limit: int,
)
    requires
        is_suggestion_list(a, paths, preferences, limit),
        is_suggestion_list(b, paths, preferences, limit),
    ensures
        a.len() == b.len(),
        forall|k: int|
            #![trigger a[k]]
            #![trigger b[k]]
            0 <= k < a.len() ==> {
                &&& a[k].id@ == b[k].id@
                &&& a[k].score == b[k].score
                &&& a[k].explanation@ == b[k].explanation@
                &&& a[k].metrics == b[k].metrics
                &&& a[k].route == b[k].route
            },
{
    let dials = preferences.clamped_value();
    let order = ranking(all_totals(paths, dials));
    assert forall|k: int|
        #![trigger a[k]]
        #![trigger b[k]]
        0 <= k < a.len() implies {
        &&& a[k].id@ == b[k].id@
        &&& a[k].score == b[k].score
        &&& a[k].explanation@ == b[k].explanation@
        &&& a[k].metrics == b[k].metrics
        &&& a[k].route == b[k].route
    } by {
        assert(presents(a[k], paths, dials, order[k] as int, k));
        assert(presents(b[k], paths, dials, order[k] as int, k));
    }
}

/// Where all candidates have the same length, the same travel time and the
/// same climb, each sub-score of each candidate is exactly one half.
pub proof fn lemma_neutral_range(paths: Seq<CandidatePath>, c: int)
    requires
        0 <= c < paths.len(),
        forall|i: int|
            0 <= i < paths.len() ==> (#[trigger] paths[i]).distance == paths[0].distance
                && paths[i].time == paths[0].time && paths[i].ascend == paths[0].ascend,
    ensures
        sub_scores_of(all_metrics(paths)[c], ranges_of(all_metrics(paths))) == (SubScores {
            distance: 500_000,
            duration: 500_000,
            climb: 500_000,
        }),
{
    let metrics = all_metrics(paths);
    assert forall|i: int| 0 <= i < metrics.len() implies (#[trigger] distances(metrics)[i])
        == paths[0].distance && (#[trigger] durations(metrics)[i]) == paths[0].time
        && (#[trigger] climbs(metrics)[i]) == paths[0].ascend by {
        assert(metrics[i] == metrics_of(paths[i]));
    }
    lemma_lowest_highest(distances(metrics));
    lemma_lowest_highest(durations(metrics));
    lemma_lowest_highest(climbs(metrics));
}

/// A candidate without road-class segments has a scenic and a major-road
/// ratio of one half each.
pub proof fn lemma_no_detail_is_neutral(path: CandidatePath)
    requires
        path.segments@.len() == 0,
    ensures
        metrics_of(path).scenic_ratio == 500_000,
        metrics_of(path).major_road_ratio == 500_000,
{
}

} // verus!
