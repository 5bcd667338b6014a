//! The fine phase of a measurement, and the measurement as a whole.
//!
//! Which rule measures the winning pair depends on the shapes of its two
//! segments. Two lines are measured exactly. Where a curve is involved the
//! distance comes from a numeric search that this library does not carry
//! out itself: the caller hands in a function, the metric, that answers a
//! [`CurveQuery`]. Nothing is assumed of the metric's answers, so every
//! contract here holds whatever it returns.

use crate::geometry::{
    all_segments, collect_segments, segments_within, Path, Segment, SegmentKind, COORD_LIMIT,
};
use crate::proximity::{
    closest_pair, estimate, is_closest_pair, lemma_closest_pair_exists, lemma_closest_pair_unique,
    lemma_estimate_is_least_gap, lemma_line_gap_symmetric, lemma_shared_end_has_no_gap, line_gap,
    line_line_distance, sample_gap, wins_against,
};
use vstd::prelude::*;

verus! {

/// The rule by which a pair of segments is measured.
#[derive(Clone, Copy, Debug, PartialEq, Eq, Structural)]
pub enum Refinement {
    /// Two lines: the exact distance.
    LineLine,
    /// A line and a curve: ten points of the line against the curve.
    /// `line_first` tells whether the line is the pair's first segment.
    LineCurve { line_first: bool },
    /// Two curves of the same degree: a numeric search.
    CurveCurve,
    /// Two curves of different degree: not measured, taken as zero.
    Unsupported,
}

/// The rule for a pair of segments of the given shapes.
pub open spec fn refinement_rule(a: SegmentKind, b: SegmentKind) -> Refinement {
    match (a, b) {
        (SegmentKind::Line, SegmentKind::Line) => Refinement::LineLine,
        (SegmentKind::Line, _) => Refinement::LineCurve { line_first: true },
        (_, SegmentKind::Line) => Refinement::LineCurve { line_first: false },
        (SegmentKind::Quad, SegmentKind::Quad) => Refinement::CurveCurve,
        (SegmentKind::Cubic, SegmentKind::Cubic) => Refinement::CurveCurve,
        _ => Refinement::Unsupported,
    }
}

/// Picks the rule for a pair of segments of the given shapes.
pub fn choose_refinement(a: SegmentKind, b: SegmentKind) -> (rule: Refinement)
    ensures
        rule == refinement_rule(a, b),
{
    match (a, b) {
        (SegmentKind::Line, SegmentKind::Line) => Refinement::LineLine,
        (SegmentKind::Line, _) => Refinement::LineCurve { line_first: true },
        (_, SegmentKind::Line) => Refinement::LineCurve { line_first: false },
        (SegmentKind::Quad, SegmentKind::Quad) => Refinement::CurveCurve,
        (SegmentKind::Cubic, SegmentKind::Cubic) => Refinement::CurveCurve,
        _ => Refinement::Unsupported,
    }
}

/// A distance that only a numeric search can give.
#[derive(Clone, Copy, Debug, PartialEq, Eq, Structural)]
pub enum CurveQuery {
    /// From the point of `line` at parameter `tenths / 10` to the nearest
    /// point of `curve`.
    FromLine { line: Segment, tenths: u8, curve: Segment },
    /// Between the nearest points of two curves, the search starting at
    /// the middle of each.
    Between { first: Segment, second: Segment },
}

/// How many points of a line are held against a curve. The points lie at
/// the parameters 0/10 up to 9/10; the end of the line is left out.
pub const LINE_SAMPLES: u8 = 10;

/// The answers that a metric may give: `d` is admitted for `q` where a
/// call of the metric on `q` may return `d`.
pub open spec fn admission<M: Fn(CurveQuery) -> u64>(metric: &M) -> spec_fn(CurveQuery, u64) -> bool {
    |q: CurveQuery, d: u64| call_ensures(*metric, (q,), d)
}

/// The metric can be called on every query.
pub open spec fn total<M: Fn(CurveQuery) -> u64>(metric: &M) -> bool {
    forall|q: CurveQuery| call_requires(*metric, (q,))
}

/// The admission of a metric that answers each query `q` with `m(q)` and
/// nothing else.
pub open spec fn exactly(m: spec_fn(CurveQuery) -> u64) -> spec_fn(CurveQuery, u64) -> bool {
    |q: CurveQuery, d: u64| d == m(q)
}

/// The smallest member of a sequence of answers, or zero for none.
pub open spec fn least_sample(samples: Seq<u64>) -> u64
    decreases samples.len(),
{
    if samples.len() == 0 {
        0
    } else if samples.len() == 1 {
        samples[0]
    } else {
        let rest = least_sample(samples.drop_last());
        if samples.last() < rest {
            samples.last()
        } else {
            rest
        }
    }
}

/// `samples` holds one admitted answer for each of the ten points of
/// `line`, in order.
pub open spec fn are_line_samples(
    line: Segment,
    curve: Segment,
    admits: spec_fn(CurveQuery, u64) -> bool,
    samples: Seq<u64>,
) -> bool {
    &&& samples.len() == LINE_SAMPLES
    &&& forall|k: int|
        0 <= k < LINE_SAMPLES ==> admits(
            CurveQuery::FromLine { line, tenths: k as u8, curve },
            #[trigger] samples[k],
        )
}

/// `d` is a distance between `line` and `curve`: the smallest of ten
/// admitted answers, one for each point of the line.
pub open spec fn line_curve_refined(
    line: Segment,
    curve: Segment,
    admits: spec_fn(CurveQuery, u64) -> bool,
    d: u64,
) -> bool {
    exists|samples: Seq<u64>| #[trigger]
        are_line_samples(line, curve, admits, samples) && d == least_sample(samples)
}

/// `d` is a fine-phase distance for the pair `(a, b)`.
pub open spec fn refined(
    a: Segment,
    b: Segment,
    admits: spec_fn(CurveQuery, u64) -> bool,
    d: u64,
) -> bool {
    match refinement_rule(a.kind_of(), b.kind_of()) {
        Refinement::LineLine => d == line_gap(a.start(), a.end(), b.start(), b.end()),
        Refinement::LineCurve { line_first } => if line_first {
            line_curve_refined(a, b, admits, d)
        } else {
            line_curve_refined(b, a, admits, d)
        },
        Refinement::CurveCurve => admits(CurveQuery::Between { first: a, second: b }, d),
        Refinement::Unsupported => d == 0,
    }
}

/// The ten answers of a metric that answers `q` with `m(q)`.
pub open spec fn line_samples_with(
    line: Segment,
    curve: Segment,
    m: spec_fn(CurveQuery) -> u64,
) -> Seq<u64> {
    Seq::new(
        LINE_SAMPLES as nat,
        |k: int| m(CurveQuery::FromLine { line, tenths: k as u8, curve }),
    )
}

/// The fine-phase distance for the pair `(a, b)` under a metric that
/// answers `q` with `m(q)`.
pub open spec fn refine_with(a: Segment, b: Segment, m: spec_fn(CurveQuery) -> u64) -> int {
    match refinement_rule(a.kind_of(), b.kind_of()) {
        Refinement::LineLine => line_gap(a.start(), a.end(), b.start(), b.end()),
        Refinement::LineCurve { line_first } => if line_first {
            least_sample(line_samples_with(a, b, m)) as int
        } else {
            least_sample(line_samples_with(b, a, m)) as int
        },
        Refinement::CurveCurve => m(CurveQuery::Between { first: a, second: b }) as int,
        Refinement::Unsupported => 0,
    }
}

/// Under a metric with one answer per query the fine phase has one
/// result.
pub proof fn lemma_refined_exactly(a: Segment, b: Segment, m: spec_fn(CurveQuery) -> u64, d: u64)
    ensures
        refined(a, b, exactly(m), d) ==> d == refine_with(a, b, m),
{
    if refined(a, b, exactly(m), d) {
        match refinement_rule(a.kind_of(), b.kind_of()) {
            Refinement::LineCurve { line_first } => {
                let line = if line_first {
                    a
                } else {
                    b
                };
                let curve = if line_first {
                    b
                } else {
                    a
                };
                assert(line_curve_refined(line, curve, exactly(m), d));
                let samples = choose|samples: Seq<u64>| #[trigger]
                    are_line_samples(line, curve, exactly(m), samples) && d == least_sample(
                        samples,
                    );
                assert(samples =~= line_samples_with(line, curve, m)) by {
                    assert forall|k: int| 0 <= k < LINE_SAMPLES implies samples[k]
                        == line_samples_with(line, curve, m)[k] by {
                        assert(exactly(m)(
                            CurveQuery::FromLine { line, tenths: k as u8, curve },
                            samples[k],
                        ));
                    }
                }
            },
            _ => {},
        }
    }
}

/// What the fine phase admits grows with what the metric admits.
pub proof fn lemma_refined_monotone(
    a: Segment,
    b: Segment,
    narrow: spec_fn(CurveQuery, u64) -> bool,
    wide: spec_fn(CurveQuery, u64) -> bool,
    d: u64,
)
    requires
        forall|q: CurveQuery, v: u64| #[trigger] narrow(q, v) ==> wide(q, v),
        refined(a, b, narrow, d),
    ensures
        refined(a, b, wide, d),
{
    match refinement_rule(a.kind_of(), b.kind_of()) {
        Refinement::LineCurve { line_first } => {
            let line = if line_first {
                a
            } else {
                b
            };
            let curve = if line_first {
                b
            } else {
                a
            };
            let samples = choose|samples: Seq<u64>| #[trigger]
                are_line_samples(line, curve, narrow, samples) && d == least_sample(samples);
            assert(are_line_samples(line, curve, wide, samples)) by {
                assert forall|k: int| 0 <= k < LINE_SAMPLES implies wide(
                    CurveQuery::FromLine { line, tenths: k as u8, curve },
                    #[trigger] samples[k],
                ) by {
                    assert(narrow(
                        CurveQuery::FromLine { line, tenths: k as u8, curve },
                        samples[k],
                    ));
                }
            }
        },
        _ => {},
    }
}

/// The distance between a line and a curve: the metric is asked for the
/// distance from each of ten points of the line to the curve, and the
/// smallest answer is taken.
pub fn line_curve_distance<M: Fn(CurveQuery) -> u64>(
    line: &Segment,
    curve: &Segment,
    metric: &M,
) -> (d: u64)
    requires
        total(metric),
    ensures
        line_curve_refined(*line, *curve, admission(metric), d),
{
    let mut best: u64 = 0;
    let ghost mut samples: Seq<u64> = Seq::empty();
    let mut k: u8 = 0;
    while k < LINE_SAMPLES
        invariant
            total(metric),
            k <= LINE_SAMPLES,
            samples.len() == k,
            best == least_sample(samples),
            forall|i: int|
                0 <= i < k ==> admission(metric)(
                    CurveQuery::FromLine { line: *line, tenths: i as u8, curve: *curve },
                    #[trigger] samples[i],
                ),
        decreases LINE_SAMPLES - k,
    {
        let answer = metric(CurveQuery::FromLine { line: *line, tenths: k, curve: *curve });
        proof {
            let longer = samples.push(answer);
            assert(longer.drop_last() == samples);
            assert(longer.last() == answer);
            samples = longer;
        }
        if k == 0 || answer < best {
            best = answer;
        }
        k = k + 1;
    }
    proof {
        assert(are_line_samples(*line, *curve, admission(metric), samples));
    }
    best
}

/// The fine phase: the distance of the pair `(a, b)` by the rule for its
/// shapes.
pub fn refine<M: Fn(CurveQuery) -> u64>(a: &Segment, b: &Segment, metric: &M) -> (d: u64)
    requires
        a.within(COORD_LIMIT as int),
        b.within(COORD_LIMIT as int),
        total(metric),
    ensures
        refined(*a, *b, admission(metric), d),
{
    match choose_refinement(a.kind(), b.kind()) {
        Refinement::LineLine => match (a, b) {
            (Segment::Line { p0: a0, p1: a1 }, Segment::Line { p0: b0, p1: b1 }) => {
                line_line_distance(a0, a1, b0, b1)
            },
            _ => 0,
        },
        Refinement::LineCurve { line_first } => if line_first {
            line_curve_distance(a, b, metric)
        } else {
            line_curve_distance(b, a, metric)
        },
        Refinement::CurveCurve => metric(CurveQuery::Between { first: *a, second: *b }),
        Refinement::Unsupported => 0,
    }
}

/// The outcome of a measurement.
#[derive(Clone, Copy, Debug, PartialEq, Eq, Structural)]
pub struct Measured {
    /// Index of the winning segment on the left side.
    pub left: usize,
    /// Index of the winning segment on the right side.
    pub right: usize,
    /// The rule by which the winning pair was measured. Where it is
    /// `Unsupported` the distance is zero for want of a rule.
    pub rule: Refinement,
    /// The distance of the winning pair.
    pub distance: u64,
}

/// `result` is an outcome of measuring `left` against `right`.
pub open spec fn measured(
    left: Seq<Segment>,
    right: Seq<Segment>,
    admits: spec_fn(CurveQuery, u64) -> bool,
    result: Option<Measured>,
) -> bool {
    match result {
        None => left.len() == 0 || right.len() == 0,
        Some(m) => {
            &&& is_closest_pair(left, right, m.left as int, m.right as int)
            &&& m.rule == refinement_rule(
                left[m.left as int].kind_of(),
                right[m.right as int].kind_of(),
            )
            &&& refined(left[m.left as int], right[m.right as int], admits, m.distance)
        },
    }
}

/// `result` is a distance between `left` and `right`: none where a side
/// is empty, else a fine-phase distance of the winning pair.
pub open spec fn is_distance(
    left: Seq<Segment>,
    right: Seq<Segment>,
    admits: spec_fn(CurveQuery, u64) -> bool,
    result: Option<u64>,
) -> bool {
    match result {
        None => left.len() == 0 || right.len() == 0,
        Some(d) => exists|i: int, j: int| #[trigger]
            is_closest_pair(left, right, i, j) && refined(left[i], right[j], admits, d),
    }
}

/// Measures the distance between two lists of segments.
pub fn measure_segments<M: Fn(CurveQuery) -> u64>(
    left: &Vec<Segment>,
    right: &Vec<Segment>,
    metric: &M,
) -> (result: Option<Measured>)
    requires
        segments_within(left@, COORD_LIMIT as int),
        segments_within(right@, COORD_LIMIT as int),
        total(metric),
    ensures
        measured(left@, right@, admission(metric), result),
        result is None <==> (left@.len() == 0 || right@.len() == 0),
        is_distance(
            left@,
            right@,
            admission(metric),
            match result {
                Some(m) => Some(m.distance),
                None => None,
            },
        ),
{
    match closest_pair(left, right) {
        None => None,
        Some((i, j)) => {
            let a = &left[i];
            let b = &right[j];
            let rule = choose_refinement(a.kind(), b.kind());
            let distance = refine(a, b, metric);
            Some(Measured { left: i, right: j, rule, distance })
        },
    }
}

/// What two sets of paths measure where both hold a path and one of them
/// holds no segment: farther apart than anything that can be measured.
pub const FARTHEST: u64 = 0xffff_ffff_ffff_ffff;

/// `result` is a distance between two sets of paths. Where a set holds no
/// path there is none. Where both hold a path and one holds no segment,
/// it is the farthest. Otherwise it is a distance between the segments of
/// the one and the segments of the other.
pub open spec fn is_path_distance(
    left_paths: Seq<Path>,
    right_paths: Seq<Path>,
    admits: spec_fn(CurveQuery, u64) -> bool,
    result: Option<u64>,
) -> bool {
    if left_paths.len() == 0 || right_paths.len() == 0 {
        result is None
    } else if all_segments(left_paths).len() == 0 || all_segments(right_paths).len() == 0 {
        result == Some(FARTHEST)
    } else {
        result is Some && is_distance(
            all_segments(left_paths),
            all_segments(right_paths),
            admits,
            result,
        )
    }
}

/// Measures two sets of paths against one another and tells which pair
/// of segments won, by which rule it was measured, and how far apart it
/// is. The segments are counted through all paths of a set, path after
/// path. There is no answer where a set holds no segment.
pub fn measure_paths<M: Fn(CurveQuery) -> u64>(
    left_paths: &[Path],
    right_paths: &[Path],
    metric: &M,
) -> (result: Option<Measured>)
    requires
        segments_within(all_segments(left_paths@), COORD_LIMIT as int),
        segments_within(all_segments(right_paths@), COORD_LIMIT as int),
        total(metric),
    ensures
        measured(
            all_segments(left_paths@),
            all_segments(right_paths@),
            admission(metric),
            result,
        ),
        result is None <==> (all_segments(left_paths@).len() == 0 || all_segments(
            right_paths@,
        ).len() == 0),
{
    let left = collect_segments(left_paths);
    let right = collect_segments(right_paths);
    measure_segments(&left, &right, metric)
}

/// The distance between two sets of paths, or `None` where one of them
/// holds no path.
pub fn path_distance<M: Fn(CurveQuery) -> u64>(
    left_paths: &[Path],
    right_paths: &[Path],
    metric: &M,
) -> (distance: Option<u64>)
    requires
        segments_within(all_segments(left_paths@), COORD_LIMIT as int),
        segments_within(all_segments(right_paths@), COORD_LIMIT as int),
        total(metric),
    ensures
        is_path_distance(left_paths@, right_paths@, admission(metric), distance),
        distance is None <==> (left_paths@.len() == 0 || right_paths@.len() == 0),
{
    if left_paths.len() == 0 || right_paths.len() == 0 {
        return None;
    }
    match measure_paths(left_paths, right_paths, metric) {
        Some(m) => Some(m.distance),
        None => Some(FARTHEST),
    }
}

/// The distance between `left` and `right` under a metric that answers
/// `q` with `m(q)`.
pub open spec fn distance_with(
    left: Seq<Segment>,
    right: Seq<Segment>,
    m: spec_fn(CurveQuery) -> u64,
) -> Option<int> {
    if left.len() == 0 || right.len() == 0 {
        None
    } else {
        let pair = choose|pair: (int, int)| is_closest_pair(left, right, pair.0, pair.1);
        Some(refine_with(left[pair.0], right[pair.1], m))
    }
}

/// Under a metric with one answer per query a measurement has one
/// result, the one that `distance_with` names.
pub proof fn lemma_distance_exactly(
    left: Seq<Segment>,
    right: Seq<Segment>,
    m: spec_fn(CurveQuery) -> u64,
    result: Option<u64>,
)
    requires
        is_distance(left, right, exactly(m), result),
    ensures
        result is None <==> distance_with(left, right, m) is None,
        result matches Some(d) ==> distance_with(left, right, m) == Some(d as int),
{
    match result {
        None => {},
        Some(d) => {
            let (i, j) = choose|i: int, j: int| #[trigger]
                is_closest_pair(left, right, i, j) && refined(left[i], right[j], exactly(m), d);
            let pair = choose|pair: (int, int)| is_closest_pair(left, right, pair.0, pair.1);
            assert(is_closest_pair(left, right, (i, j).0, (i, j).1));
            lemma_closest_pair_unique(left, right, i, j, pair.0, pair.1);
            lemma_refined_exactly(left[i], right[j], m, d);
        },
    }
}

/// What a measurement admits grows with what the metric admits.
pub proof fn lemma_distance_monotone(
    left: Seq<Segment>,
    right: Seq<Segment>,
    narrow: spec_fn(CurveQuery, u64) -> bool,
    wide: spec_fn(CurveQuery, u64) -> bool,
    result: Option<u64>,
)
    requires
        forall|q: CurveQuery, v: u64| #[trigger] narrow(q, v) ==> wide(q, v),
        is_distance(left, right, narrow, result),
    ensures
        is_distance(left, right, wide, result),
{
    match result {
        None => {},
        Some(d) => {
            let (i, j) = choose|i: int, j: int| #[trigger]
                is_closest_pair(left, right, i, j) && refined(left[i], right[j], narrow, d);
            lemma_refined_monotone(left[i], right[j], narrow, wide, d);
            assert(is_closest_pair(left, right, i, j) && refined(left[i], right[j], wide, d));
        },
    }
}

/// A measurement with a metric that answers each query `q` with `m(q)`
/// and nothing else gives the distance that `distance_with` names.
pub proof fn lemma_distance_of_exact_metric<M: Fn(CurveQuery) -> u64>(
    left: Seq<Segment>,
    right: Seq<Segment>,
    metric: &M,
    m: spec_fn(CurveQuery) -> u64,
    result: Option<u64>,
)
    requires
        forall|q: CurveQuery, v: u64| call_ensures(*metric, (q,), v) ==> v == m(q),
        is_distance(left, right, admission(metric), result),
    ensures
        result is None <==> distance_with(left, right, m) is None,
        result matches Some(d) ==> distance_with(left, right, m) == Some(d as int),
{
    assert forall|q: CurveQuery, v: u64| #[trigger]
        admission(metric)(q, v) implies exactly(m)(q, v) by {}
    lemma_distance_monotone(left, right, admission(metric), exactly(m), result);
    lemma_distance_exactly(left, right, m, result);
}

/// The fine-phase distance of a pair does not depend on the order of its
/// two segments, provided the metric gives two curves the same distance
/// in either order; and it is never negative.
pub proof fn lemma_refine_symmetric(a: Segment, b: Segment, m: spec_fn(CurveQuery) -> u64)
    requires
        m(CurveQuery::Between { first: a, second: b }) == m(
            CurveQuery::Between { first: b, second: a },
        ),
    ensures
        refine_with(a, b, m) == refine_with(b, a, m),
        0 <= refine_with(a, b, m),
{
    lemma_line_gap_symmetric(a.start(), a.end(), b.start(), b.end());
}

/// Measuring `left` against `right` gives what measuring `right` against
/// `left` gives.
///
/// This holds where the same pair wins the coarse phase in either order,
/// and where the metric gives the two curves of a winning pair the same
/// distance in either order. Where two pairs have the same smallest
/// estimate, each order may pick its own, and the two measurements may
/// differ.
pub proof fn distance_is_symmetric(
    left: Seq<Segment>,
    right: Seq<Segment>,
    m: spec_fn(CurveQuery) -> u64,
)
    requires
        forall|i: int, j: int| #[trigger]
            is_closest_pair(left, right, i, j) ==> {
                &&& is_closest_pair(right, left, j, i)
                &&& m(CurveQuery::Between { first: left[i], second: right[j] }) == m(
                    CurveQuery::Between { first: right[j], second: left[i] },
                )
            },
    ensures
        distance_with(left, right, m) == distance_with(right, left, m),
{
    if left.len() > 0 && right.len() > 0 {
        lemma_closest_pair_exists(left, right);
        lemma_closest_pair_exists(right, left);
        let pair = choose|pair: (int, int)| is_closest_pair(left, right, pair.0, pair.1);
        let back = choose|back: (int, int)| is_closest_pair(right, left, back.0, back.1);
        assert(is_closest_pair(right, left, pair.1, pair.0));
        lemma_closest_pair_unique(right, left, back.0, back.1, pair.1, pair.0);
        lemma_refine_symmetric(left[pair.0], right[pair.1], m);
    }
}

/// A measured distance is never negative.
pub proof fn distance_is_never_negative(
    left: Seq<Segment>,
    right: Seq<Segment>,
    m: spec_fn(CurveQuery) -> u64,
)
    ensures
        distance_with(left, right, m) matches Some(d) ==> 0 <= d,
{
    if left.len() > 0 && right.len() > 0 {
        let pair = choose|pair: (int, int)| is_closest_pair(left, right, pair.0, pair.1);
        let a = left[pair.0];
        let b = right[pair.1];
        lemma_line_gap_symmetric(a.start(), a.end(), b.start(), b.end());
    }
}

/// The two segments are lines that share an end.
pub open spec fn lines_share_end(a: Segment, b: Segment) -> bool {
    &&& a is Line
    &&& b is Line
    &&& (a.start() == b.start() || a.start() == b.end() || a.end() == b.start() || a.end()
        == b.end())
}

/// Two outlines measure zero where the pair that wins the coarse phase
/// consists of two lines that share an end.
pub proof fn shared_corner_measures_zero(
    left: Seq<Segment>,
    right: Seq<Segment>,
    m: spec_fn(CurveQuery) -> u64,
    i: int,
    j: int,
)
    requires
        is_closest_pair(left, right, i, j),
        lines_share_end(left[i], right[j]),
    ensures
        distance_with(left, right, m) == Some(0int),
{
    let pair = choose|pair: (int, int)| is_closest_pair(left, right, pair.0, pair.1);
    assert(is_closest_pair(left, right, (i, j).0, (i, j).1));
    lemma_closest_pair_unique(left, right, i, j, pair.0, pair.1);
    lemma_shared_end_has_no_gap(left[i].start(), left[i].end(), right[j].start(), right[j].end());
}

/// Where some left segment and some right segment have a sample point
/// in common, the pair that wins the coarse phase has one in common too:
/// its estimate is zero.
pub proof fn touch_makes_winner_touch(
    left: Seq<Segment>,
    right: Seq<Segment>,
    i: int,
    j: int,
    i2: int,
    j2: int,
    s: int,
    t: int,
)
    requires
        is_closest_pair(left, right, i, j),
        0 <= i2 < left.len(),
        0 <= j2 < right.len(),
        0 <= s <= 2,
        0 <= t <= 2,
        sample_gap(left[i2], s, right[j2], t) == 0,
    ensures
        estimate(left[i], right[j]) == 0,
{
    lemma_estimate_is_least_gap(left[i2], right[j2]);
    lemma_estimate_is_least_gap(left[i], right[j]);
    assert(wins_against(left, right, i, j, i2, j2));
}

} // verus!
