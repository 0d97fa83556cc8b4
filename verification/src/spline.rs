//! The sampled centre line of a track.
use crate::arith::{div_round, lemma_div_round_fraction, spec_div_round};
use crate::geometry::{Coordinates, Orientation, Vector3};
use crate::units::LENGTH_LIMIT;
use vstd::prelude::*;

verus! {

/// One sample of a centre line: where the track is and how it is turned.
pub type Sample = (Vector3, Orientation);

/// The distance along the polyline from the first sample to sample `i`.
pub open spec fn spec_travelled(points: Seq<Sample>, i: int) -> int
    decreases i,
{
    if i <= 0 {
        0
    } else {
        spec_travelled(points, i - 1) + points[i - 1].0.spec_distance(points[i].0)
    }
}

/// The length of the polyline through all samples.
pub open spec fn polyline_length(points: Seq<Sample>) -> int {
    spec_travelled(points, points.len() - 1)
}

/// Whether a sample can be stored: its position is within the length limit
/// and its orientation is a unit quaternion.
pub open spec fn valid_sample(sample: Sample) -> bool {
    sample.0.in_range() && sample.1.is_unit()
}

/// Why a sample was not taken into a spline.
#[derive(Clone, Copy, Debug, PartialEq, Eq, Structural)]
pub enum SplineError {
    /// A coordinate of the position is beyond the length limit.
    PositionOutOfRange,
    /// The orientation is not a unit quaternion.
    NotUnit,
    /// The polyline would become longer than a length can express.
    TooLong,
}

/// The orientation at an evaluated point of a spline.
#[derive(Clone, Copy, Debug, PartialEq, Eq, Structural)]
pub enum Heading {
    /// The point is a sample, and this is its orientation.
    Sample(Orientation),
    /// The point lies between two samples: the orientation is the spherical
    /// interpolation from `from` to `to` at `numerator / denominator`, a
    /// fraction strictly between zero and one.
    Between { from: Orientation, to: Orientation, numerator: i64, denominator: i64 },
}

/// A distance along the track held to the track: at least zero and at most
/// the length of the polyline.
pub open spec fn spec_clamped(points: Seq<Sample>, t: int) -> int {
    let total = polyline_length(points);
    if t < 0 {
        0
    } else if t > total {
        total
    } else {
        t
    }
}

/// The index of the sample at or before the distance `t`. The samples are
/// taken to divide the length of the track into equal parts, one for each
/// pair of neighbours; on a track without length every `t` is at the first
/// sample.
pub open spec fn spec_segment(points: Seq<Sample>, t: int) -> int {
    let total = polyline_length(points);
    if total == 0 {
        0
    } else {
        (spec_clamped(points, t) * (points.len() - 1)) / total
    }
}

/// How far the distance `t` lies beyond the sample at [`spec_segment`], as
/// a numerator over the length of the polyline.
pub open spec fn spec_remainder(points: Seq<Sample>, t: int) -> int {
    let total = polyline_length(points);
    if total == 0 {
        0
    } else {
        (spec_clamped(points, t) * (points.len() - 1)) % total
    }
}

/// The value at the fraction `num / den` of the way from `a` to `b`.
pub open spec fn spec_lerp(a: int, b: int, num: int, den: int) -> int {
    a + spec_div_round((b - a) * num, den)
}

/// The position at the distance `t` along a spline of at least two samples:
/// a sample's own position where `t` falls on one, else the point on the
/// straight line between the neighbours.
pub open spec fn spec_position_at(points: Seq<Sample>, t: int) -> Coordinates {
    let k = spec_segment(points, t);
    let r = spec_remainder(points, t);
    let total = polyline_length(points);
    if r == 0 {
        points[k].0@
    } else {
        Coordinates {
            x: spec_lerp(points[k].0.x as int, points[k + 1].0.x as int, r, total),
            y: spec_lerp(points[k].0.y as int, points[k + 1].0.y as int, r, total),
            z: spec_lerp(points[k].0.z as int, points[k + 1].0.z as int, r, total),
        }
    }
}

/// Whether `heading` is the orientation at the distance `t` along a spline
/// of at least two samples.
pub open spec fn spec_heading_at(points: Seq<Sample>, t: int, heading: Heading) -> bool {
    let k = spec_segment(points, t);
    let r = spec_remainder(points, t);
    if r == 0 {
        heading == Heading::Sample(points[k].1)
    } else {
        &&& heading matches Heading::Between { from, to, numerator, denominator }
        &&& from == points[k].1
        &&& to == points[k + 1].1
        &&& numerator == r
        &&& denominator == polyline_length(points)
    }
}

/// Whether a position and a heading are what a spline of at least two
/// samples has at the distance `t`.
pub open spec fn spec_evaluates_to(
    points: Seq<Sample>,
    t: int,
    position: Vector3,
    heading: Heading,
) -> bool {
    position@ == spec_position_at(points, t) && spec_heading_at(points, t, heading)
}

/// A stored sample together with the distance travelled up to it.
#[derive(Debug)]
struct Entry {
    position: Vector3,
    orientation: Orientation,
    travelled: i64,
}

/// An ordered sequence of samples along a track.
#[derive(Debug)]
pub struct TrackSpline {
    entries: Vec<Entry>,
}

impl View for TrackSpline {
    type V = Seq<Sample>;

    closed spec fn view(&self) -> Seq<Sample> {
        Seq::new(
            self.entries@.len(),
            |i: int| (self.entries@[i].position, self.entries@[i].orientation),
        )
    }
}

impl TrackSpline {
    /// The invariant of a spline: every sample is valid, and each entry
    /// records the distance travelled up to it. Every constructor
    /// establishes it and every method keeps it.
    pub closed spec fn wf(self) -> bool {
        forall|i: int|
            0 <= i < self.entries@.len() ==> {
                &&& valid_sample(#[trigger] self@[i])
                &&& self.entries@[i].travelled == spec_travelled(self@, i)
            }
    }

    /// A spline without samples.
    pub fn new() -> (s: TrackSpline)
        ensures
            s.wf(),
            s@ == Seq::<Sample>::empty(),
    {
        let s = TrackSpline { entries: Vec::new() };
        assert(s@ =~= Seq::<Sample>::empty());
        s
    }

    /// The number of samples.
    pub fn len(&self) -> (n: usize)
        ensures
            n == self@.len(),
    {
        self.entries.len()
    }

    /// The sample at index `i`.
    pub fn point(&self, i: usize) -> (sample: Sample)
        requires
            self.wf(),
            i < self@.len(),
        ensures
            sample == self@[i as int],
            valid_sample(sample),
    {
        (self.entries[i].position, self.entries[i].orientation)
    }

    /// The distance along the polyline from the first sample to sample `i`.
    pub fn travelled(&self, i: usize) -> (d: i64)
        requires
            self.wf(),
            i < self@.len(),
        ensures
            d == spec_travelled(self@, i as int),
            0 <= d <= polyline_length(self@),
    {
        proof {
            assert(valid_sample(self@[i as int]));
            lemma_travelled_nonnegative(self@, i as int);
            lemma_travelled_monotonic(self@, i as int, self@.len() - 1);
        }
        self.entries[i].travelled
    }

    /// The length of the polyline through the samples: the sum of the
    /// straight-line distances between consecutive samples.
    pub fn length(&self) -> (l: i64)
        requires
            self.wf(),
        ensures
            l == polyline_length(self@),
            l >= 0,
    {
        proof {
            lemma_travelled_nonnegative(self@, self@.len() - 1);
        }
        let n: usize = self.entries.len();
        if n == 0 {
            0
        } else {
            assert(valid_sample(self@[n - 1]));
            self.entries[n - 1].travelled
        }
    }

    /// The position and orientation at the distance `t` along the track, or
    /// nothing for a spline of fewer than two samples. Distances before the
    /// start count as the start and distances beyond the end as the end.
    pub fn evaluate(&self, t: i64) -> (r: Option<(Vector3, Heading)>)
        requires
            self.wf(),
        ensures
            r is None <==> self@.len() < 2,
            r matches Some((position, heading)) ==> spec_evaluates_to(
                self@,
                t as int,
                position,
                heading,
            ) && position.in_range(),
    {
        let n: usize = self.len();
        if n < 2 {
            return None;
        }
        let total: i64 = self.length();
        if total == 0 {
            let first: Sample = self.point(0);
            return Some((first.0, Heading::Sample(first.1)));
        }
        let clamped: i64 = if t < 0 {
            0
        } else if t > total {
            total
        } else {
            t
        };
        let parts: i128 = (n - 1) as i128;
        proof {
            lemma_station_bounds(clamped as int, total as int, parts as int);
        }
        let station: i128 = (clamped as i128) * parts;
        let k: i128 = station / (total as i128);
        let rem: i128 = station % (total as i128);
        if rem == 0 {
            let sample: Sample = self.point(k as usize);
            return Some((sample.0, Heading::Sample(sample.1)));
        }
        let a: Sample = self.point(k as usize);
        let b: Sample = self.point((k + 1) as usize);
        let position = Vector3 {
            x: lerp(a.0.x, b.0.x, rem as i64, total),
            y: lerp(a.0.y, b.0.y, rem as i64, total),
            z: lerp(a.0.z, b.0.z, rem as i64, total),
        };
        Some(
            (
                position,
                Heading::Between { from: a.1, to: b.1, numerator: rem as i64, denominator: total },
            ),
        )
    }

    /// Appends a sample, or says why it cannot be taken. On an error the
    /// spline is left as it was.
    pub fn push(&mut self, position: Vector3, orientation: Orientation) -> (r: Result<
        (),
        SplineError,
    >)
        requires
            old(self).wf(),
        ensures
            final(self).wf(),
            r is Ok ==> final(self)@ == old(self)@.push((position, orientation)),
            r is Err ==> final(self)@ == old(self)@,
            r == push_outcome(old(self)@, (position, orientation)),
    {
        if !position.is_in_range() {
            return Err(SplineError::PositionOutOfRange);
        }
        if !orientation.check_unit() {
            return Err(SplineError::NotUnit);
        }
        let n: usize = self.entries.len();
        let ghost before = self@;
        let ghost after = before.push((position, orientation));
        let travelled: i64 = if n == 0 {
            0
        } else {
            let last: &Entry = &self.entries[n - 1];
            assert(valid_sample(before[n - 1]));
            let step: i64 = last.position.distance(&position);
            proof {
                lemma_travelled_nonnegative(before, n - 1);
                lemma_travelled_prefix(before, (position, orientation), n - 1);
                assert(after[n - 1] == before[n - 1]);
                assert(spec_travelled(after, n as int) == spec_travelled(before, n - 1) + step);
            }
            match last.travelled.checked_add(step) {
                Some(sum) => sum,
                None => {
                    return Err(SplineError::TooLong);
                },
            }
        };
        self.entries.push(Entry { position, orientation, travelled });
        proof {
            assert(self@ =~= after);
            assert forall|i: int| 0 <= i < self.entries@.len() implies {
                &&& valid_sample(#[trigger] self@[i])
                &&& self.entries@[i].travelled == spec_travelled(self@, i)
            } by {
                if i < n {
                    assert(valid_sample(before[i]));
                    lemma_travelled_prefix(before, (position, orientation), i);
                }
            }
        }
        Ok(())
    }
}

/// The value at the fraction `num / den` of the way between two
/// coordinates.
fn lerp(a: i64, b: i64, num: i64, den: i64) -> (r: i64)
    requires
        -LENGTH_LIMIT <= a <= LENGTH_LIMIT,
        -LENGTH_LIMIT <= b <= LENGTH_LIMIT,
        0 <= num <= den,
        0 < den,
    ensures
        r == spec_lerp(a as int, b as int, num as int, den as int),
        a <= b ==> a <= r <= b,
        b <= a ==> b <= r <= a,
{
    let d: i128 = (b as i128) - (a as i128);
    proof {
        lemma_div_round_fraction(d as int, num as int, den as int);
        lemma_lerp_product(d as int, den as int);
    }
    let q: i128 = div_round(d * (num as i128), den as i128);
    ((a as i128) + q) as i64
}

/// The difference of two coordinates times a distance on the track is
/// within the limits of rounded division.
proof fn lemma_lerp_product(d: int, den: int)
    requires
        -2 * LENGTH_LIMIT <= d <= 2 * LENGTH_LIMIT,
        0 < den <= 0x7fff_ffff_ffff_ffff,
    ensures
        -0x2000_0000_0000_0000 * 0x7fff_ffff_ffff_ffff <= d * den <= 0x2000_0000_0000_0000
            * 0x7fff_ffff_ffff_ffff,
{
    assert(-0x2000_0000_0000_0000 * 0x7fff_ffff_ffff_ffff <= d * den <= 0x2000_0000_0000_0000
        * 0x7fff_ffff_ffff_ffff) by (nonlinear_arith)
        requires
            -0x2000_0000_0000_0000 <= d <= 0x2000_0000_0000_0000,
            0 < den <= 0x7fff_ffff_ffff_ffff,
    {
    }
}

/// A distance on the track, times the number of parts, divided by the
/// length of the track, gives a part of the track: the quotient is at most
/// the number of parts, and below it unless the distance is the whole length.
proof fn lemma_station_bounds(clamped: int, total: int, parts: int)
    requires
        0 <= clamped <= total <= 0x7fff_ffff_ffff_ffff,
        0 < total,
        0 < parts <= 0xffff_ffff_ffff_ffff,
    ensures
        0 <= clamped * parts <= 0x7fff_ffff_ffff_ffff * 0xffff_ffff_ffff_ffff,
        0 <= (clamped * parts) / total <= parts,
        0 <= (clamped * parts) % total < total,
        (clamped * parts) % total != 0 ==> (clamped * parts) / total < parts,
        clamped == total ==> (clamped * parts) / total == parts && (clamped * parts) % total == 0,
        clamped == 0 ==> (clamped * parts) / total == 0 && (clamped * parts) % total == 0,
{
    let station = clamped * parts;
    assert(0 <= station <= total * parts && total * parts <= 0x7fff_ffff_ffff_ffff
        * 0xffff_ffff_ffff_ffff) by (nonlinear_arith)
        requires
            station == clamped * parts,
            0 <= clamped <= total <= 0x7fff_ffff_ffff_ffff,
            0 < parts <= 0xffff_ffff_ffff_ffff,
    {
    }
    vstd::arithmetic::div_mod::lemma_fundamental_div_mod(station, total);
    vstd::arithmetic::div_mod::lemma_mod_bound(station, total);
    vstd::arithmetic::div_mod::lemma_div_is_ordered(0, station, total);
    vstd::arithmetic::div_mod::lemma_div_is_ordered(station, total * parts, total);
    vstd::arithmetic::div_mod::lemma_div_multiples_vanish(parts, total);
    vstd::arithmetic::div_mod::lemma_mod_multiples_basic(parts, total);
    assert(parts * total == total * parts) by (nonlinear_arith);
    let q = station / total;
    let r = station % total;
    if r != 0 && q >= parts {
        assert(total * q >= total * parts) by (nonlinear_arith)
            requires
                q >= parts,
                total > 0,
        {
        }
    }
    if clamped == 0 {
        assert(station == 0) by (nonlinear_arith)
            requires
                station == clamped * parts,
                clamped == 0,
        {
        }
    }
}

/// At distance zero a spline is at its first sample, in position and in
/// orientation.
pub proof fn lemma_evaluate_start(s: TrackSpline)
    requires
        s.wf(),
        s@.len() >= 2,
    ensures
        spec_evaluates_to(s@, 0, s@[0].0, Heading::Sample(s@[0].1)),
{
    let points = s@;
    let total = polyline_length(points);
    lemma_travelled_nonnegative(points, points.len() - 1);
    if total > 0 {
        assert(0 * (points.len() - 1) == 0) by (nonlinear_arith);
    }
}

/// At the distance of its whole length a spline is at its last sample, in
/// position and in orientation, provided that it has a length at all.
pub proof fn lemma_evaluate_end(s: TrackSpline)
    requires
        s.wf(),
        s@.len() >= 2,
        polyline_length(s@) > 0,
    ensures
        spec_evaluates_to(
            s@,
            polyline_length(s@),
            s@[s@.len() - 1].0,
            Heading::Sample(s@[s@.len() - 1].1),
        ),
{
    let points = s@;
    let total = polyline_length(points);
    let parts = points.len() - 1;
    vstd::arithmetic::div_mod::lemma_div_multiples_vanish(parts, total);
    vstd::arithmetic::div_mod::lemma_mod_multiples_basic(parts, total);
    assert(parts * total == total * parts) by (nonlinear_arith);
}

/// Every sample of a spline has a position within the length limit and an
/// orientation whose norm is within the tolerance of one.
pub proof fn lemma_samples_valid(s: TrackSpline, i: int)
    requires
        s.wf(),
        0 <= i < s@.len(),
    ensures
        valid_sample(s@[i]),
        s@[i].1.is_unit(),
{
}

/// What [`TrackSpline::push`] answers for a spline holding `points`.
pub open spec fn push_outcome(points: Seq<Sample>, sample: Sample) -> Result<(), SplineError> {
    if !sample.0.in_range() {
        Err(SplineError::PositionOutOfRange)
    } else if !sample.1.is_unit() {
        Err(SplineError::NotUnit)
    } else if polyline_length(points.push(sample)) > i64::MAX {
        Err(SplineError::TooLong)
    } else {
        Ok(())
    }
}

/// The distance travelled never decreases along the samples.
pub proof fn lemma_travelled_nonnegative(points: Seq<Sample>, i: int)
    ensures
        0 <= spec_travelled(points, i),
        i > 0 ==> spec_travelled(points, i - 1) <= spec_travelled(points, i),
    decreases i,
{
    if i > 0 {
        lemma_travelled_nonnegative(points, i - 1);
        let n = points[i - 1].0.spec_distance_squared(points[i].0);
        assert(n >= 0) by (nonlinear_arith)
            requires
                n == points[i - 1].0.spec_distance_squared(points[i].0),
        {
        }
        crate::arith::lemma_isqrt_is_root(n);
    }
}

/// A later sample is at least as far along the polyline as an earlier one.
pub proof fn lemma_travelled_monotonic(points: Seq<Sample>, i: int, j: int)
    requires
        i <= j,
    ensures
        spec_travelled(points, i) <= spec_travelled(points, j),
    decreases j - i,
{
    if i < j {
        lemma_travelled_monotonic(points, i, j - 1);
        lemma_travelled_nonnegative(points, j);
    }
}

/// Appending a sample leaves the distance travelled to earlier samples
/// unchanged.
pub proof fn lemma_travelled_prefix(points: Seq<Sample>, sample: Sample, i: int)
    requires
        i < points.len(),
    ensures
        spec_travelled(points.push(sample), i) == spec_travelled(points, i),
    decreases i,
{
    if i > 0 {
        lemma_travelled_prefix(points, sample, i - 1);
    }
}

} // verus!
