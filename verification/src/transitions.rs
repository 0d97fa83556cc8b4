//! Profiles: eased segments that say how a quantity changes over time.
use crate::arith::{div_round, spec_div_round};
use crate::timeline::{
    active_index, all_positive, lemma_active_index, lemma_completed_in_range,
    lemma_prefix_sum_increases, lemma_prefix_sum_push, prefix_sum, total,
};
use crate::units::ONE;
use vstd::prelude::*;

verus! {

/// Where the rising ramp of a plateau ends: three tenths of the segment.
pub const PLATEAU_RISE_END: i64 = 300_000;

/// Where the falling ramp of a plateau starts: seven tenths of the segment.
pub const PLATEAU_FALL_START: i64 = 700_000;

/// The shape of a segment. `Linear`, `Quadratic` and `Cubic` ease in and out
/// from zero to one. `Plateau` rises to one over the first three tenths with
/// the cubic shape, holds, and falls back to zero over the last three tenths.
#[derive(Clone, Copy, Debug, PartialEq, Eq, Structural)]
pub enum TransitionFunction {
    Linear,
    Quadratic,
    Cubic,
    Plateau,
}

/// A parameter held to the range from zero to one.
pub open spec fn clamp_unit(t: int) -> int {
    if t < 0 {
        0
    } else if t > ONE {
        ONE as int
    } else {
        t
    }
}

/// Quadratic ease in and out: `2 t^2` up to the middle, `1 - 2 (1 - t)^2`
/// after it.
pub open spec fn spec_quad_inout(t: int) -> int {
    if 2 * t < ONE {
        spec_div_round(2 * (t * t), ONE as int)
    } else {
        ONE - spec_div_round(2 * ((ONE - t) * (ONE - t)), ONE as int)
    }
}

/// Cubic ease in and out: `4 t^3` up to the middle, `1 - 4 (1 - t)^3` after
/// it.
pub open spec fn spec_cubic_inout(t: int) -> int {
    if 2 * t < ONE {
        spec_div_round(4 * (t * t * t), ONE * ONE)
    } else {
        ONE - spec_div_round(4 * ((ONE - t) * (ONE - t) * (ONE - t)), ONE * ONE)
    }
}

/// The plateau: a cubic rise, a hold at one, a cubic fall.
pub open spec fn spec_plateau(t: int) -> int {
    if t < PLATEAU_RISE_END {
        spec_cubic_inout(spec_div_round(t * ONE, PLATEAU_RISE_END as int))
    } else if t <= PLATEAU_FALL_START {
        ONE as int
    } else {
        ONE - spec_cubic_inout(
            spec_div_round((t - PLATEAU_FALL_START) * ONE, ONE - PLATEAU_FALL_START),
        )
    }
}

impl TransitionFunction {
    /// The value of the shape at the parameter `t`, which is first held to
    /// the range from zero to one.
    pub open spec fn spec_interpolate(self, t: int) -> int {
        let u = clamp_unit(t);
        match self {
            TransitionFunction::Linear => u,
            TransitionFunction::Quadratic => spec_quad_inout(u),
            TransitionFunction::Cubic => spec_cubic_inout(u),
            TransitionFunction::Plateau => spec_plateau(u),
        }
    }

    /// Whether the shape ends where it began, adding nothing for good.
    pub open spec fn returns_to_baseline(self) -> bool {
        self == TransitionFunction::Plateau
    }

    /// Evaluates the shape at `t`.
    pub fn interpolate(&self, t: i64) -> (r: i64)
        ensures
            r == self.spec_interpolate(t as int),
            0 <= r <= ONE,
    {
        let u: i64 = if t < 0 {
            0
        } else if t > ONE {
            ONE
        } else {
            t
        };
        match self {
            TransitionFunction::Linear => u,
            TransitionFunction::Quadratic => quad_inout(u),
            TransitionFunction::Cubic => cubic_inout(u),
            TransitionFunction::Plateau => {
                if u < PLATEAU_RISE_END {
                    proof {
                        lemma_ramp_parameter(u as int, PLATEAU_RISE_END as int);
                    }
                    let n: i128 = (u as i128) * (ONE as i128);
                    let v: i128 = div_round(n, PLATEAU_RISE_END as i128);
                    cubic_inout(v as i64)
                } else if u <= PLATEAU_FALL_START {
                    ONE
                } else {
                    proof {
                        lemma_ramp_parameter(
                            (u - PLATEAU_FALL_START) as int,
                            ONE - PLATEAU_FALL_START,
                        );
                    }
                    let n: i128 = ((u - PLATEAU_FALL_START) as i128) * (ONE as i128);
                    let v: i128 = div_round(n, (ONE - PLATEAU_FALL_START) as i128);
                    ONE - cubic_inout(v as i64)
                }
            },
        }
    }
}

/// A position on a ramp of the given width, as a fraction of that width,
/// lies between zero and one.
proof fn lemma_ramp_parameter(offset: int, width: int)
    requires
        0 <= offset <= width,
        0 < width,
    ensures
        0 <= spec_div_round(offset * ONE, width) <= ONE,
        0 <= offset * ONE <= width * ONE,
{
    assert(0 <= offset * ONE <= ONE * width) by (nonlinear_arith)
        requires
            0 <= offset <= width,
    {
    }
    crate::arith::lemma_div_round_monotonic(0, offset * ONE, width);
    crate::arith::lemma_div_round_monotonic(offset * ONE, ONE * width, width);
    crate::arith::lemma_div_round_exact(ONE as int, width);
    crate::arith::lemma_div_round_exact(0, width);
}

/// Quadratic ease in and out of a parameter between zero and one.
fn quad_inout(t: i64) -> (r: i64)
    requires
        0 <= t <= ONE,
    ensures
        r == spec_quad_inout(t as int),
        0 <= r <= ONE,
{
    let s: i64 = if 2 * t < ONE {
        t
    } else {
        ONE - t
    };
    proof {
        lemma_half_power(s as int);
    }
    let q: i128 = div_round(2 * ((s as i128) * (s as i128)), ONE as i128);
    if 2 * t < ONE {
        q as i64
    } else {
        ONE - (q as i64)
    }
}

/// Cubic ease in and out of a parameter between zero and one.
fn cubic_inout(t: i64) -> (r: i64)
    requires
        0 <= t <= ONE,
    ensures
        r == spec_cubic_inout(t as int),
        0 <= r <= ONE,
{
    let s: i64 = if 2 * t < ONE {
        t
    } else {
        ONE - t
    };
    proof {
        lemma_half_power(s as int);
    }
    let q: i128 = div_round(
        4 * ((s as i128) * (s as i128) * (s as i128)),
        (ONE as i128) * (ONE as i128),
    );
    if 2 * t < ONE {
        q as i64
    } else {
        ONE - (q as i64)
    }
}

/// Up to the middle of the range, twice the square and four times the cube
/// of a parameter stay within half of one.
proof fn lemma_half_power(s: int)
    requires
        0 <= s,
        2 * s <= ONE,
    ensures
        0 <= s * s <= 250_000_000_000,
        0 <= s * s * s <= 125_000_000_000_000_000,
        0 <= spec_div_round(2 * (s * s), ONE as int) <= ONE / 2,
        0 <= spec_div_round(4 * (s * s * s), ONE * ONE) <= ONE / 2,
        ONE * ONE == 1_000_000_000_000,
{
    assert(0 <= s * s <= 250_000_000_000 && 0 <= s * s * s <= 125_000_000_000_000_000)
        by (nonlinear_arith)
        requires
            0 <= s <= 500_000,
    {
    }
    assert(ONE * ONE == 1_000_000_000_000) by (nonlinear_arith);
    crate::arith::lemma_div_round_monotonic(0, 2 * (s * s), ONE as int);
    crate::arith::lemma_div_round_monotonic(2 * (s * s), 500_000 * ONE, ONE as int);
    crate::arith::lemma_div_round_exact(500_000, ONE as int);
    crate::arith::lemma_div_round_exact(0, ONE as int);
    crate::arith::lemma_div_round_monotonic(0, 4 * (s * s * s), ONE * ONE);
    crate::arith::lemma_div_round_monotonic(4 * (s * s * s), 500_000 * (ONE * ONE), ONE * ONE);
    crate::arith::lemma_div_round_exact(500_000, ONE * ONE);
    crate::arith::lemma_div_round_exact(0, ONE * ONE);
}

/// One segment of a profile: a shape, the signed amount by which the value
/// changes under that shape, and a duration.
#[derive(Clone, Copy, Debug, PartialEq, Eq, Structural)]
pub struct Transition {
    pub function: TransitionFunction,
    pub change: i64,
    pub length: i64,
}

/// The value that a shape scaled by `change` contributes at the parameter `t`.
pub open spec fn spec_eased(function: TransitionFunction, change: int, t: int) -> int {
    if change == 0 {
        0
    } else {
        spec_div_round(function.spec_interpolate(t) * change, ONE as int)
    }
}

/// What a shape scaled by `change` adds for good once its segment is over.
pub open spec fn spec_net_change(function: TransitionFunction, change: int) -> int {
    if function.returns_to_baseline() {
        0
    } else {
        change
    }
}

impl Transition {
    /// Whether the segment has a positive duration.
    pub open spec fn wf(self) -> bool {
        self.length > 0
    }

    /// The fraction of the segment that has passed after `elapsed`.
    pub open spec fn spec_parameter(self, elapsed: int) -> int {
        spec_div_round(elapsed * ONE, self.length as int)
    }

    /// The contribution of the segment after `elapsed` of its duration:
    /// the shape at `elapsed / length`, times the change.
    pub open spec fn spec_interpolate(self, elapsed: int) -> int {
        spec_eased(self.function, self.change as int, self.spec_parameter(elapsed))
    }

    /// What the segment adds for good once it is over: its change, or
    /// nothing for a plateau.
    pub open spec fn spec_end_value(self) -> int {
        spec_net_change(self.function, self.change as int)
    }

    /// A segment of the given shape, change and duration.
    pub fn new(function: TransitionFunction, change: i64, length: i64) -> (t: Transition)
        ensures
            t == (Transition { function, change, length }),
    {
        Transition { function, change, length }
    }

    /// The contribution of the segment at `time` after its start. A time
    /// outside the segment counts as its nearer end.
    pub fn interpolate(&self, time: i64) -> (r: i64)
        requires
            self.wf(),
        ensures
            r == self.spec_interpolate(time as int),
            self.change >= 0 ==> 0 <= r <= self.change,
            self.change <= 0 ==> self.change <= r <= 0,
    {
        proof {
            lemma_scaled_time(time as int);
        }
        let n: i128 = (time as i128) * (ONE as i128);
        let q: i128 = div_round(n, self.length as i128);
        let t: i64 = if q < 0 {
            0
        } else if q > ONE as i128 {
            ONE
        } else {
            q as i64
        };
        eased(self.function, self.change, t)
    }

    /// What the segment adds for good once it is over.
    pub fn end_value(&self) -> (r: i64)
        ensures
            r == self.spec_end_value(),
    {
        match self.function {
            TransitionFunction::Cubic
            | TransitionFunction::Quadratic
            | TransitionFunction::Linear => self.change,
            TransitionFunction::Plateau => 0,
        }
    }
}

/// The value that a shape scaled by `change` contributes at the parameter `t`.
pub fn eased(function: TransitionFunction, change: i64, t: i64) -> (r: i64)
    ensures
        r == spec_eased(function, change as int, t as int),
        change >= 0 ==> 0 <= r <= change,
        change <= 0 ==> change <= r <= 0,
{
    if change == 0 {
        return 0;
    }
    let e: i64 = function.interpolate(t);
    proof {
        lemma_eased_bounds(e as int, change as int);
    }
    let m: i128 = (e as i128) * (change as i128);
    div_round(m, ONE as i128) as i64
}

/// A time in millionths, scaled by a million, is within the limits of
/// rounded division.
proof fn lemma_scaled_time(time: int)
    requires
        -0x8000_0000_0000_0000 <= time <= 0x7fff_ffff_ffff_ffff,
    ensures
        -0x8000_0000_0000_0000 * 1_000_000 <= time * ONE <= 0x7fff_ffff_ffff_ffff * 1_000_000,
{
    assert(-0x8000_0000_0000_0000 * 1_000_000 <= time * 1_000_000 <= 0x7fff_ffff_ffff_ffff
        * 1_000_000) by (nonlinear_arith)
        requires
            -0x8000_0000_0000_0000 <= time <= 0x7fff_ffff_ffff_ffff,
    {
    }
}

/// A fraction `e` of a change lies between zero and the change.
pub proof fn lemma_eased_bounds(e: int, change: int)
    requires
        0 <= e <= ONE,
    ensures
        change >= 0 ==> 0 <= e * change <= ONE * change,
        change <= 0 ==> ONE * change <= e * change <= 0,
        change >= 0 ==> 0 <= spec_div_round(e * change, ONE as int) <= change,
        change <= 0 ==> change <= spec_div_round(e * change, ONE as int) <= 0,
{
    assert(change >= 0 ==> 0 <= e * change <= ONE * change) by (nonlinear_arith)
        requires
            0 <= e <= ONE,
    {
    }
    assert(change <= 0 ==> ONE * change <= e * change <= 0) by (nonlinear_arith)
        requires
            0 <= e <= ONE,
    {
    }
    assert(change * ONE == ONE * change) by (nonlinear_arith);
    crate::arith::lemma_div_round_exact(change, ONE as int);
    crate::arith::lemma_div_round_exact(0, ONE as int);
    if change >= 0 {
        crate::arith::lemma_div_round_monotonic(0, e * change, ONE as int);
        crate::arith::lemma_div_round_monotonic(e * change, change * ONE, ONE as int);
    } else {
        crate::arith::lemma_div_round_monotonic(e * change, 0, ONE as int);
        crate::arith::lemma_div_round_monotonic(change * ONE, e * change, ONE as int);
    }
}

/// Every shape starts at zero.
pub proof fn lemma_shape_starts_at_zero(function: TransitionFunction)
    ensures
        function.spec_interpolate(0) == 0,
{
    assert(0int * 0int == 0int) by (nonlinear_arith);
    assert(0int * 0int * 0int == 0int) by (nonlinear_arith);
    assert(0int * ONE == 0) by (nonlinear_arith);
    crate::arith::lemma_div_round_exact(0, ONE as int);
    crate::arith::lemma_div_round_exact(0, ONE * ONE);
    crate::arith::lemma_div_round_exact(0, PLATEAU_RISE_END as int);
    assert(ONE * ONE > 0) by (nonlinear_arith);
}

/// A plateau ends at zero and every other shape at one.
pub proof fn lemma_shape_end(function: TransitionFunction)
    ensures
        function.spec_interpolate(ONE as int) == if function.returns_to_baseline() {
            0
        } else {
            ONE as int
        },
{
    assert(0int * 0int == 0int) by (nonlinear_arith);
    assert(0int * 0int * 0int == 0int) by (nonlinear_arith);
    assert(ONE * ONE > 0) by (nonlinear_arith);
    crate::arith::lemma_div_round_exact(0, ONE as int);
    crate::arith::lemma_div_round_exact(0, ONE * ONE);
    crate::arith::lemma_div_round_exact(ONE as int, ONE - PLATEAU_FALL_START);
    assert((ONE - PLATEAU_FALL_START) * ONE == ONE * (ONE - PLATEAU_FALL_START))
        by (nonlinear_arith);
}

/// The linear, quadratic and cubic shapes never fall: a later parameter
/// gives at least the value of an earlier one.
pub proof fn lemma_shape_monotonic(function: TransitionFunction, a: int, b: int)
    requires
        !function.returns_to_baseline(),
        a <= b,
    ensures
        function.spec_interpolate(a) <= function.spec_interpolate(b),
{
    let u = clamp_unit(a);
    let v = clamp_unit(b);
    let s = if 2 * u < ONE { u } else { ONE - u };
    let t = if 2 * v < ONE { v } else { ONE - v };
    lemma_half_power(s);
    lemma_half_power(t);
    if (2 * u < ONE) == (2 * v < ONE) {
        let (low, high) = if 2 * u < ONE { (s, t) } else { (t, s) };
        assert(low * low <= high * high && low * low * low <= high * high * high)
            by (nonlinear_arith)
            requires
                0 <= low <= high,
        {
        }
        crate::arith::lemma_div_round_monotonic(2 * (low * low), 2 * (high * high), ONE as int);
        crate::arith::lemma_div_round_monotonic(
            4 * (low * low * low),
            4 * (high * high * high),
            ONE * ONE,
        );
    }
}

/// A segment of a linear, quadratic or cubic shape moves one way only:
/// upwards for a positive change and downwards for a negative one.
pub proof fn lemma_segment_monotonic(segment: Transition, a: int, b: int)
    requires
        segment.wf(),
        !segment.function.returns_to_baseline(),
        a <= b,
    ensures
        segment.change >= 0 ==> segment.spec_interpolate(a) <= segment.spec_interpolate(b),
        segment.change <= 0 ==> segment.spec_interpolate(a) >= segment.spec_interpolate(b),
{
    let change = segment.change as int;
    let length = segment.length as int;
    assert(a * ONE <= b * ONE) by (nonlinear_arith)
        requires
            a <= b,
    {
    }
    crate::arith::lemma_div_round_monotonic(a * ONE, b * ONE, length);
    let p = segment.spec_parameter(a);
    let q = segment.spec_parameter(b);
    lemma_shape_monotonic(segment.function, p, q);
    let e = segment.function.spec_interpolate(p);
    let f = segment.function.spec_interpolate(q);
    assert(change >= 0 ==> e * change <= f * change) by (nonlinear_arith)
        requires
            e <= f,
    {
    }
    assert(change <= 0 ==> e * change >= f * change) by (nonlinear_arith)
        requires
            e <= f,
    {
    }
    if change > 0 {
        crate::arith::lemma_div_round_monotonic(e * change, f * change, ONE as int);
    } else if change < 0 {
        crate::arith::lemma_div_round_monotonic(f * change, e * change, ONE as int);
    }
}

/// A segment contributes nothing at its start.
pub proof fn lemma_segment_start(segment: Transition)
    requires
        segment.wf(),
    ensures
        segment.spec_interpolate(0) == 0,
{
    lemma_shape_starts_at_zero(segment.function);
    assert(0int * ONE == 0) by (nonlinear_arith);
    crate::arith::lemma_div_round_exact(0, segment.length as int);
    assert(0 * segment.change == 0) by (nonlinear_arith);
    crate::arith::lemma_div_round_exact(0, ONE as int);
}

/// At its end a segment contributes exactly what it adds for good: the
/// value reached inside the segment is the value that the next one starts
/// from.
pub proof fn lemma_segment_end(segment: Transition)
    requires
        segment.wf(),
    ensures
        segment.spec_interpolate(segment.length as int) == segment.spec_end_value(),
{
    lemma_shape_end(segment.function);
    assert(segment.length * ONE == ONE * segment.length) by (nonlinear_arith);
    crate::arith::lemma_div_round_exact(ONE as int, segment.length as int);
    assert(0 * segment.change == 0) by (nonlinear_arith);
    assert(ONE * segment.change == segment.change * ONE) by (nonlinear_arith);
    crate::arith::lemma_div_round_exact(0, ONE as int);
    crate::arith::lemma_div_round_exact(segment.change as int, ONE as int);
}

/// Half way through a linear, quadratic or cubic segment exactly half of the
/// change has been made, where the duration and the change can be halved.
pub proof fn lemma_segment_midpoint(segment: Transition)
    requires
        segment.wf(),
        !segment.function.returns_to_baseline(),
        segment.length % 2 == 0,
        segment.change % 2 == 0,
    ensures
        segment.spec_interpolate(segment.length / 2) == segment.change / 2,
{
    let half: int = segment.length / 2;
    let k: int = segment.change / 2;
    assert(half * ONE == 500_000 * segment.length) by (nonlinear_arith)
        requires
            2 * half == segment.length,
    {
    }
    crate::arith::lemma_div_round_exact(500_000, segment.length as int);
    assert(segment.spec_parameter(half) == 500_000);
    assert(500_000int * 500_000int == 250_000_000_000int) by (nonlinear_arith);
    assert(500_000int * 500_000int * 500_000int == 125_000_000_000_000_000int)
        by (nonlinear_arith);
    assert(ONE * ONE == 1_000_000_000_000) by (nonlinear_arith);
    crate::arith::lemma_div_round_exact(500_000, ONE as int);
    crate::arith::lemma_div_round_exact(500_000, ONE * ONE);
    assert(500_000 * ONE == 2 * 250_000_000_000int);
    assert(500_000 * (ONE * ONE) == 4 * 125_000_000_000_000_000int);
    assert(segment.function.spec_interpolate(500_000) == 500_000);
    assert(500_000 * segment.change == k * ONE) by (nonlinear_arith)
        requires
            2 * k == segment.change,
    {
    }
    crate::arith::lemma_div_round_exact(k, ONE as int);
}

/// The durations of the segments.
pub open spec fn lengths_of(segments: Seq<Transition>) -> Seq<int> {
    Seq::new(segments.len(), |i: int| segments[i].length as int)
}

/// What each segment adds for good.
pub open spec fn end_values_of(segments: Seq<Transition>) -> Seq<int> {
    Seq::new(segments.len(), |i: int| segments[i].spec_end_value())
}

/// The part of a change that lowers the value.
pub open spec fn fall(change: int) -> int {
    if change < 0 {
        change
    } else {
        0
    }
}

/// The part of a change that raises the value.
pub open spec fn rise(change: int) -> int {
    if change > 0 {
        change
    } else {
        0
    }
}

/// By how much each segment can lower the value.
pub open spec fn falls_of(segments: Seq<Transition>) -> Seq<int> {
    Seq::new(segments.len(), |i: int| fall(segments[i].change as int))
}

/// By how much each segment can raise the value.
pub open spec fn rises_of(segments: Seq<Transition>) -> Seq<int> {
    Seq::new(segments.len(), |i: int| rise(segments[i].change as int))
}

/// The value that segment `i` starts from: the start value and what the
/// segments before it have added for good.
pub open spec fn spec_baseline(segments: Seq<Transition>, start: int, i: int) -> int {
    start + prefix_sum(end_values_of(segments), i)
}

/// The value of a profile at `time`: none outside the profile; inside it,
/// the value that the active segment starts from plus what that segment
/// contributes so far. An empty profile keeps its start value.
pub open spec fn spec_value(segments: Seq<Transition>, start: int, time: int) -> Option<int> {
    let lengths = lengths_of(segments);
    if time < 0 || time > total(lengths) {
        None
    } else {
        let k = active_index(lengths, time);
        Some(
            spec_baseline(segments, start, k) + if k < segments.len() {
                segments[k].spec_interpolate(time - prefix_sum(lengths, k))
            } else {
                0
            },
        )
    }
}

/// Why a segment was not taken into a profile.
#[derive(Clone, Copy, Debug, PartialEq, Eq, Structural)]
pub enum ProfileError {
    /// The duration of the segment is not positive.
    NonPositiveLength,
    /// The profile would last longer than a time can express.
    TooLong,
    /// The profile could reach a value that cannot be expressed.
    ValueOutOfRange,
}

/// What [`Transitions::push`] answers for a profile of the given segments
/// and start value.
pub open spec fn push_outcome(segments: Seq<Transition>, start: int, segment: Transition) -> Result<
    (),
    ProfileError,
> {
    let n = segments.len() as int;
    if segment.length <= 0 {
        Err(ProfileError::NonPositiveLength)
    } else if total(lengths_of(segments)) + segment.length > i64::MAX {
        Err(ProfileError::TooLong)
    } else if start + prefix_sum(falls_of(segments), n) + fall(segment.change as int) < i64::MIN
        || start + prefix_sum(rises_of(segments), n) + rise(segment.change as int) > i64::MAX {
        Err(ProfileError::ValueOutOfRange)
    } else {
        Ok(())
    }
}

/// A profile of one quantity: a start value and segments in time order.
#[derive(Debug)]
pub struct Transitions {
    transitions: Vec<Transition>,
    start_value: i64,
    total: i64,
    lowest: i64,
    highest: i64,
}

impl View for Transitions {
    type V = Seq<Transition>;

    closed spec fn view(&self) -> Seq<Transition> {
        self.transitions@
    }
}

impl Clone for Transitions {
    fn clone(&self) -> (p: Transitions)
        ensures
            p@ == self@,
            p.spec_start_value() == self.spec_start_value(),
            self.wf() ==> p.wf(),
    {
        let transitions: Vec<Transition> = self.transitions.clone();
        assert(transitions@ =~= self.transitions@);
        Transitions {
            transitions,
            start_value: self.start_value,
            total: self.total,
            lowest: self.lowest,
            highest: self.highest,
        }
    }
}

impl Transitions {
    /// The value before the first segment.
    pub closed spec fn spec_start_value(self) -> int {
        self.start_value as int
    }

    /// The invariant of a profile: every segment has a positive duration,
    /// and the total duration and the lowest and highest value that the
    /// profile can reach are recorded and can be expressed.
    pub closed spec fn wf(self) -> bool {
        &&& all_positive(lengths_of(self@))
        &&& self.total == total(lengths_of(self@))
        &&& self.lowest == self.start_value + prefix_sum(falls_of(self@), self@.len() as int)
        &&& self.highest == self.start_value + prefix_sum(rises_of(self@), self@.len() as int)
    }

    /// The total duration of the profile.
    pub open spec fn spec_length(self) -> int {
        total(lengths_of(self@))
    }

    /// The value of the profile at `time`.
    pub open spec fn spec_interpolate(self, time: int) -> Option<int> {
        spec_value(self@, self.spec_start_value(), time)
    }

    /// A profile without segments that stays at `start_value`.
    pub fn new(start_value: i64) -> (p: Transitions)
        ensures
            p.wf(),
            p@ == Seq::<Transition>::empty(),
            p.spec_start_value() == start_value,
    {
        Transitions {
            transitions: Vec::new(),
            start_value,
            total: 0,
            lowest: start_value,
            highest: start_value,
        }
    }

    /// The value before the first segment.
    pub fn start_value(&self) -> (v: i64)
        ensures
            v == self.spec_start_value(),
    {
        self.start_value
    }

    /// The number of segments.
    pub fn len(&self) -> (n: usize)
        ensures
            n == self@.len(),
    {
        self.transitions.len()
    }

    /// The segment at index `i`.
    pub fn segment(&self, i: usize) -> (t: Transition)
        requires
            self.wf(),
            i < self@.len(),
        ensures
            t == self@[i as int],
            t.wf(),
    {
        assert(lengths_of(self@)[i as int] > 0);
        self.transitions[i]
    }

    /// The total duration: the sum of the durations of the segments.
    pub fn length(&self) -> (l: i64)
        requires
            self.wf(),
        ensures
            l == self.spec_length(),
            l >= 0,
    {
        proof {
            lemma_prefix_sum_increases(lengths_of(self@), 0, self@.len() as int);
        }
        self.total
    }

    /// Says whether a segment can be appended, and if not, why.
    pub fn check_push(&self, segment: &Transition) -> (r: Result<(), ProfileError>)
        requires
            self.wf(),
        ensures
            r == push_outcome(self@, self.spec_start_value(), *segment),
    {
        if segment.length <= 0 {
            return Err(ProfileError::NonPositiveLength);
        }
        if self.total.checked_add(segment.length).is_none() {
            return Err(ProfileError::TooLong);
        }
        let down: i64 = if segment.change < 0 {
            segment.change
        } else {
            0
        };
        let up: i64 = if segment.change > 0 {
            segment.change
        } else {
            0
        };
        if self.lowest.checked_add(down).is_none() || self.highest.checked_add(up).is_none() {
            return Err(ProfileError::ValueOutOfRange);
        }
        Ok(())
    }

    /// Appends a segment, or says why it cannot be taken. On an error the
    /// profile is left as it was.
    pub fn push(&mut self, segment: Transition) -> (r: Result<(), ProfileError>)
        requires
            old(self).wf(),
        ensures
            final(self).wf(),
            final(self).spec_start_value() == old(self).spec_start_value(),
            r is Ok ==> final(self)@ == old(self)@.push(segment),
            r is Err ==> final(self)@ == old(self)@,
            r == push_outcome(old(self)@, old(self).spec_start_value(), segment),
    {
        match self.check_push(&segment) {
            Err(e) => {
                return Err(e);
            },
            Ok(_) => {},
        }
        let down: i64 = if segment.change < 0 {
            segment.change
        } else {
            0
        };
        let up: i64 = if segment.change > 0 {
            segment.change
        } else {
            0
        };
        let ghost before = self@;
        let total: i64 = self.total + segment.length;
        let lowest: i64 = self.lowest + down;
        let highest: i64 = self.highest + up;
        self.transitions.push(segment);
        self.total = total;
        self.lowest = lowest;
        self.highest = highest;
        proof {
            let n = before.len() as int;
            let after = before.push(segment);
            assert(self@ == after);
            assert(lengths_of(after) =~= lengths_of(before).push(segment.length as int));
            assert(falls_of(after) =~= falls_of(before).push(fall(segment.change as int)));
            assert(rises_of(after) =~= rises_of(before).push(rise(segment.change as int)));
            lemma_prefix_sum_push(lengths_of(before), segment.length as int, n);
            lemma_prefix_sum_push(falls_of(before), fall(segment.change as int), n);
            lemma_prefix_sum_push(rises_of(before), rise(segment.change as int), n);
        }
        Ok(())
    }

    /// Tells whether two profiles have the same start value and the same
    /// segments, and so the same value at every time.
    pub fn same_as(&self, other: &Transitions) -> (b: bool)
        ensures
            b == (self@ == other@ && self.spec_start_value() == other.spec_start_value()),
    {
        if self.start_value != other.start_value || self.transitions.len()
            != other.transitions.len() {
            return false;
        }
        let n: usize = self.transitions.len();
        let mut i: usize = 0;
        while i < n
            invariant
                n == self@.len(),
                n == other@.len(),
                i <= n,
                forall|j: int| 0 <= j < i ==> self@[j] == other@[j],
            decreases n - i,
        {
            let a: Transition = self.transitions[i];
            let b: Transition = other.transitions[i];
            if a.function != b.function || a.change != b.change || a.length != b.length {
                return false;
            }
            i = i + 1;
        }
        assert(self@ =~= other@);
        true
    }

    /// The index of the segment that `time` falls into, or nothing for a
    /// time outside the profile and for a profile without segments.
    pub fn active_segment(&self, time: i64) -> (r: Option<usize>)
        requires
            self.wf(),
        ensures
            r is None <==> time < 0 || time > self.spec_length() || self@.len() == 0,
            r matches Some(k) ==> k == active_index(lengths_of(self@), time as int) && k
                < self@.len(),
    {
        if time < 0 || time > self.total {
            return None;
        }
        let ghost lengths = lengths_of(self@);
        let n: usize = self.transitions.len();
        let mut i: usize = 0;
        let mut time_so_far: i64 = 0;
        while i < n
            invariant
                self.wf(),
                lengths == lengths_of(self@),
                n == self@.len(),
                i <= n,
                0 <= time <= self.total,
                time_so_far == prefix_sum(lengths, i as int),
                i > 0 ==> time_so_far < time,
            decreases n - i,
        {
            let length: i64 = self.transitions[i].length;
            proof {
                assert(lengths[i as int] > 0);
                lemma_prefix_sum_increases(lengths, i as int + 1, n as int);
            }
            if time <= time_so_far + length {
                proof {
                    lemma_active_index(lengths, time as int, i as int);
                }
                return Some(i);
            }
            time_so_far = time_so_far + length;
            i = i + 1;
        }
        None
    }

    /// The value of the profile at `time`, or nothing for a time outside
    /// the profile.
    pub fn interpolate(&self, time: i64) -> (r: Option<i64>)
        requires
            self.wf(),
        ensures
            r is None <==> time < 0 || time > self.spec_length(),
            match r {
                Some(v) => self.spec_interpolate(time as int) == Some(v as int),
                None => self.spec_interpolate(time as int) is None,
            },
    {
        if time < 0 || time > self.total {
            return None;
        }
        let ghost segments = self@;
        let ghost lengths = lengths_of(segments);
        let ghost ends = end_values_of(segments);
        let n: usize = self.transitions.len();
        let mut i: usize = 0;
        let mut time_so_far: i64 = 0;
        let mut value: i64 = self.start_value;
        while i < n
            invariant
                self.wf(),
                segments == self@,
                lengths == lengths_of(segments),
                ends == end_values_of(segments),
                n == segments.len(),
                i <= n,
                0 <= time <= self.total,
                time_so_far == prefix_sum(lengths, i as int),
                value == self.start_value + prefix_sum(ends, i as int),
                i > 0 ==> time_so_far < time,
            decreases n - i,
        {
            let segment: Transition = self.transitions[i];
            proof {
                assert(lengths[i as int] > 0);
                lemma_prefix_sum_increases(lengths, i as int + 1, n as int);
                lemma_value_bounds(segments, self.start_value as int, i as int, 0);
                lemma_value_bounds(
                    segments,
                    self.start_value as int,
                    i as int,
                    segment.spec_end_value(),
                );
            }
            if time <= time_so_far + segment.length {
                let part: i64 = segment.interpolate(time - time_so_far);
                proof {
                    lemma_active_index(lengths, time as int, i as int);
                    lemma_value_bounds(segments, self.start_value as int, i as int, part as int);
                }
                return Some(value + part);
            }
            value = value + segment.end_value();
            time_so_far = time_so_far + segment.length;
            i = i + 1;
        }
        Some(value)
    }
}

/// The time at which segment `i` of a profile starts.
pub open spec fn spec_boundary(segments: Seq<Transition>, i: int) -> int {
    prefix_sum(lengths_of(segments), i)
}

/// A profile has no value before its start or after its end.
pub proof fn lemma_no_value_outside(p: Transitions, time: int)
    requires
        p.wf(),
        time < 0 || time > p.spec_length(),
    ensures
        p.spec_interpolate(time) is None,
{
}

/// A profile without segments has no duration and keeps its start value:
/// it has that value at time zero and none at any other time.
pub proof fn lemma_empty_profile(p: Transitions, time: int)
    requires
        p.wf(),
        p@.len() == 0,
    ensures
        p.spec_length() == 0,
        p.spec_interpolate(0) == Some(p.spec_start_value()),
        time != 0 ==> p.spec_interpolate(time) is None,
{
}

/// At the time where segment `i` starts, which is where the segment before
/// it ends, a profile has the value that segment `i` starts from. At time
/// zero this is the start value, and at the end of the profile it is the
/// start value with everything that the segments add for good.
pub proof fn lemma_value_at_boundary(p: Transitions, i: int)
    requires
        p.wf(),
        0 <= i <= p@.len(),
    ensures
        p.spec_interpolate(spec_boundary(p@, i)) == Some(
            spec_baseline(p@, p.spec_start_value(), i),
        ),
{
    let segments = p@;
    let lengths = lengths_of(segments);
    let n = segments.len() as int;
    lemma_prefix_sum_increases(lengths, i, n);
    if i == 0 {
        if n > 0 {
            assert(lengths[0] > 0);
            lemma_active_index(lengths, 0, 0);
            lemma_segment_start(segments[0]);
        }
    } else {
        assert(lengths[i - 1] > 0);
        lemma_prefix_sum_increases(lengths, i - 1, i);
        lemma_active_index(lengths, prefix_sum(lengths, i), i - 1);
        lemma_segment_end(segments[i - 1]);
    }
}

/// At time zero a profile has exactly its start value.
pub proof fn lemma_value_at_start(p: Transitions)
    requires
        p.wf(),
    ensures
        p.spec_interpolate(0) == Some(p.spec_start_value()),
{
    lemma_value_at_boundary(p, 0);
}

/// A profile is continuous where two segments meet: the value that the
/// earlier segment reaches at its end is the value that the later one has
/// at its start, and it is the value of the profile at that time.
pub proof fn lemma_continuous_at_boundary(p: Transitions, i: int)
    requires
        p.wf(),
        0 < i < p@.len(),
    ensures
        spec_baseline(p@, p.spec_start_value(), i - 1) + p@[i - 1].spec_interpolate(
            p@[i - 1].length as int,
        ) == spec_baseline(p@, p.spec_start_value(), i) + p@[i].spec_interpolate(0),
        p.spec_interpolate(spec_boundary(p@, i)) == Some(
            spec_baseline(p@, p.spec_start_value(), i) + p@[i].spec_interpolate(0),
        ),
{
    let lengths = lengths_of(p@);
    assert(lengths[i - 1] > 0);
    assert(lengths[i] > 0);
    lemma_segment_end(p@[i - 1]);
    lemma_segment_start(p@[i]);
    lemma_value_at_boundary(p, i);
}

/// A plateau returns to where it began: the profile has the same value
/// after a plateau segment as before it.
pub proof fn lemma_plateau_returns(p: Transitions, i: int)
    requires
        p.wf(),
        0 <= i < p@.len(),
        p@[i].function == TransitionFunction::Plateau,
    ensures
        p.spec_interpolate(spec_boundary(p@, i + 1)) == p.spec_interpolate(spec_boundary(p@, i)),
{
    lemma_value_at_boundary(p, i);
    lemma_value_at_boundary(p, i + 1);
}

/// Whether no segment changes the value.
pub open spec fn spec_unchanging(segments: Seq<Transition>) -> bool {
    forall|i: int| 0 <= i < segments.len() ==> (#[trigger] segments[i]).change == 0
}

/// A profile whose segments change nothing keeps its start value for as
/// long as it lasts.
pub proof fn lemma_unchanging_profile(segments: Seq<Transition>, start: int, time: int)
    requires
        spec_unchanging(segments),
        0 <= time <= total(lengths_of(segments)),
    ensures
        spec_value(segments, start, time) == Some(start),
{
    let k = active_index(lengths_of(segments), time);
    lemma_completed_in_range(lengths_of(segments), time, segments.len() as int);
    lemma_unchanging_baseline(segments, k);
    if k < segments.len() {
        assert(segments[k].change == 0);
    }
}

/// The segments of a profile that changes nothing add nothing for good.
proof fn lemma_unchanging_baseline(segments: Seq<Transition>, k: int)
    requires
        spec_unchanging(segments),
        0 <= k <= segments.len(),
    ensures
        prefix_sum(end_values_of(segments), k) == 0,
    decreases k,
{
    if k > 0 {
        lemma_unchanging_baseline(segments, k - 1);
        assert(segments[k - 1].change == 0);
    }
}

/// Whatever a profile has reached when segment `k` has contributed `part`,
/// a value between nothing and its whole change, lies between the lowest and
/// the highest value of the profile.
pub proof fn lemma_value_bounds(segments: Seq<Transition>, start: int, k: int, part: int)
    requires
        0 <= k <= segments.len(),
        k < segments.len() ==> fall(segments[k].change as int) <= part <= rise(
            segments[k].change as int,
        ),
        k == segments.len() ==> part == 0,
    ensures
        start + prefix_sum(falls_of(segments), segments.len() as int) <= spec_baseline(
            segments,
            start,
            k,
        ) + part <= start + prefix_sum(rises_of(segments), segments.len() as int),
{
    lemma_baseline_bounds(segments, k);
    if k < segments.len() {
        lemma_extremes_monotonic(segments, k + 1, segments.len() as int);
    }
}

/// What the first `k` segments add for good lies between what they can
/// lower and what they can raise.
proof fn lemma_baseline_bounds(segments: Seq<Transition>, k: int)
    requires
        0 <= k <= segments.len(),
    ensures
        prefix_sum(falls_of(segments), k) <= prefix_sum(end_values_of(segments), k) <= prefix_sum(
            rises_of(segments),
            k,
        ),
    decreases k,
{
    if k > 0 {
        lemma_baseline_bounds(segments, k - 1);
    }
}

/// More segments can lower the value further and raise it further.
proof fn lemma_extremes_monotonic(segments: Seq<Transition>, i: int, j: int)
    requires
        0 <= i <= j <= segments.len(),
    ensures
        prefix_sum(falls_of(segments), j) <= prefix_sum(falls_of(segments), i),
        prefix_sum(rises_of(segments), i) <= prefix_sum(rises_of(segments), j),
    decreases j,
{
    if i < j {
        lemma_extremes_monotonic(segments, i, j - 1);
    }
}

} // verus!
