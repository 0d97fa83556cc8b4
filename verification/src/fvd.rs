//! The integrator that turns a profile into a track.
//!
//! The integrator walks through the profile in steps of [`DT`] and carries
//! the frame of the train along: its position, its orientation and its
//! speed. For each step [`Integrator::plan`] derives from what the profile
//! demands how the frame has to turn, as a rotation about an axis of the
//! world by an angle, and by what angle it has to roll about its own forward
//! axis. The caller makes quaternions of the two rotations, which takes a
//! sine and a cosine each, and [`Integrator::complete`] applies them, moves
//! the train along its new forward axis, takes a sample, and derives the
//! speed of the next step from the height gained, by conservation of energy.
//! [`create_spline`] runs the steps to the end of the profile, with a
//! function of the caller for the quaternions.
//!
//! One sample is taken for each step. The speed of a segment that fixes none
//! is carried over from the step before.
use crate::arith::{
    div_round, isqrt, lemma_div_round_fraction, lemma_div_round_magnitude, spec_div_round,
    spec_isqrt,
};
use crate::channels::Transitions;
use crate::geometry::{
    spec_forward_axis, spec_right_axis, spec_up_axis, Components, Coordinates, Orientation,
    Vector3, AXIS_LIMIT,
};
use crate::rotation::{
    lemma_product_near_unit, lemma_unit_is_near, spec_normalized, spec_product, PRODUCT_SLACK,
    UNIT_SLACK,
};
use crate::spline::{polyline_length, Sample, SplineError, TrackSpline};
use crate::units::{G, LENGTH_LIMIT, ONE};
use crate::vector::{
    along, bounded, cross, magnitude, scaled, spec_along, spec_cross, spec_difference,
    spec_magnitude, spec_scaled, spec_sum,
};
use vstd::prelude::*;

verus! {

/// The duration of one step of the integrator: a hundredth of a second.
pub const DT: i64 = 10_000;

/// The centripetal acceleration up to which the track is taken to run
/// straight: a ten-thousandth of a metre per second squared.
pub const EPSILON: i64 = 100;

/// The largest acceleration that a profile may demand: a million g.
pub const DEMAND_LIMIT: i64 = 1_000_000_000_000;

/// Radians in a degree, times a thousand million.
pub const RADIANS_PER_DEGREE_E9: i64 = 17_453_293;

/// An acceleration demanded in g, in metres per second squared.
pub open spec fn spec_acceleration(demand: int) -> int {
    spec_div_round(demand * G, ONE as int)
}

/// An angle in degrees, in radians.
pub open spec fn spec_radians(degrees: int) -> int {
    spec_div_round(degrees * RADIANS_PER_DEGREE_E9, 1_000_000_000)
}

/// The acceleration in metres per second squared of a demand in g.
fn acceleration(demand: i64) -> (a: i64)
    requires
        -DEMAND_LIMIT <= demand <= DEMAND_LIMIT,
    ensures
        a == spec_acceleration(demand as int),
        -10_000_000_000_000 <= a <= 10_000_000_000_000,
{
    proof {
        assert(-(10_000_000_000_000 * ONE) <= demand * G <= 10_000_000_000_000 * ONE)
            by (nonlinear_arith)
            requires
                -1_000_000_000_000 <= demand <= 1_000_000_000_000,
                G == 9_806_000,
                ONE == 1_000_000,
        {
        }
        lemma_div_round_magnitude(demand * G, ONE as int, 10_000_000_000_000);
    }
    div_round((demand as i128) * (G as i128), ONE as i128) as i64
}

/// A rotation about an axis by an angle.
#[derive(Clone, Copy, Debug, PartialEq, Eq, Structural)]
pub struct Turn {
    /// The direction of the axis. It is not scaled to the length one.
    pub axis: Vector3,
    /// The angle in radians.
    pub angle: i64,
}

/// What the integrator has to do in one step.
#[derive(Clone, Copy, Debug, PartialEq, Eq, Structural)]
pub struct Step {
    /// The speed of the train during the step.
    pub speed: i64,
    /// The distance that the train travels during the step.
    pub arc_length: i64,
    /// The turn that the centripetal acceleration asks for, if any, about
    /// an axis of the world.
    pub turn: Option<Turn>,
    /// The angle in radians by which the train rolls during the step, about
    /// its own forward axis.
    pub roll_angle: i64,
}

impl Step {
    /// Whether the distance travelled is within the length limit, as it is
    /// for every step that [`Integrator::plan`] has planned.
    pub open spec fn spec_plausible(self) -> bool {
        -LENGTH_LIMIT <= self.arc_length <= LENGTH_LIMIT
    }

    /// Tells whether the distance travelled is within the length limit.
    pub fn is_plausible(&self) -> (b: bool)
        ensures
            b == self.spec_plausible(),
    {
        -LENGTH_LIMIT <= self.arc_length && self.arc_length <= LENGTH_LIMIT
    }
}

/// The acceleration that is left of gravity once the track gives the rider
/// the demanded accelerations along the up and the right axis of the frame.
pub open spec fn spec_remainder(q: Components, vertical: int, lateral: int) -> Coordinates {
    let reaction = spec_sum(
        spec_scaled(spec_up_axis(q), spec_acceleration(vertical)),
        spec_scaled(spec_right_axis(q), spec_acceleration(lateral)),
    );
    Coordinates { x: reaction.x, y: reaction.y - G, z: reaction.z }
}

/// The part of the remaining acceleration that changes the direction of
/// travel: what is left of it without its part along the forward axis.
pub open spec fn spec_centripetal(q: Components, vertical: int, lateral: int) -> Coordinates {
    let remainder = spec_remainder(q, vertical, lateral);
    spec_difference(remainder, spec_along(spec_forward_axis(q), remainder))
}

/// The turn of one step: none where the centripetal acceleration does not
/// exceed [`EPSILON`], where the train does not move, or where the axis has
/// no direction; else a rotation about the vector product of the forward
/// axis and the centripetal acceleration, by the distance travelled over
/// the radius of the turn, which is the centripetal acceleration times the
/// duration of the step over the speed.
pub open spec fn spec_turn(q: Components, vertical: int, lateral: int, speed: int) -> Option<
    (Coordinates, int),
> {
    let centripetal = spec_centripetal(q, vertical, lateral);
    let strength = spec_magnitude(centripetal);
    let axis = spec_cross(spec_forward_axis(q), centripetal);
    if strength <= EPSILON || speed <= 0 || (axis.x == 0 && axis.y == 0 && axis.z == 0) {
        None
    } else {
        Some((axis, spec_div_round(strength * DT, speed)))
    }
}

/// The speed during a step: the speed that the active segment fixes, or
/// else the speed carried over from the step before.
pub open spec fn spec_step_speed(fixed_speed: Option<i64>, carried: i64) -> i64 {
    match fixed_speed {
        Some(v) => v,
        None => carried,
    }
}

/// The angle in radians by which a train rolls in one step at a rate in
/// degrees per second.
pub open spec fn spec_roll_angle(roll_rate: int) -> int {
    spec_radians(spec_div_round(roll_rate * DT, ONE as int))
}

/// Whether `step` is the step that a frame of the orientation `q` takes
/// when the profile demands `demand` and the speed `carried` was carried
/// over.
pub open spec fn spec_is_step(
    step: Step,
    q: Components,
    demand: (int, int, int, Option<i64>),
    carried: i64,
) -> bool {
    &&& step.speed == spec_step_speed(demand.3, carried)
    &&& step.arc_length == spec_div_round(step.speed * DT, ONE as int)
    &&& step.roll_angle == spec_roll_angle(demand.2)
    &&& match spec_turn(q, demand.0, demand.1, step.speed as int) {
        Some((axis, angle)) => step.turn matches Some(turn) && turn.axis@ == axis && turn.angle
            == angle,
        None => step.turn is None,
    }
}

/// Whether a demand is within [`DEMAND_LIMIT`] in both accelerations.
pub open spec fn spec_demand_in_range(demand: (int, int, int, Option<i64>)) -> bool {
    -DEMAND_LIMIT <= demand.0 <= DEMAND_LIMIT && -DEMAND_LIMIT <= demand.1 <= DEMAND_LIMIT
}

/// Whether `step` is what a state has to do next under a profile: the
/// demand of the profile at the time of the state is within the limit, and
/// `step` is the step that it leads to.
pub open spec fn spec_planned(profile: Transitions, state: State, step: Step) -> bool {
    match profile.spec_interpolate(state.time) {
        Some(demand) => spec_demand_in_range(demand) && spec_is_step(
            step,
            state.orientation,
            demand,
            state.speed as i64,
        ) && step.spec_plausible(),
        None => false,
    }
}

/// Whether the demand of a profile at the time of a state is beyond the
/// limit.
pub open spec fn spec_overdemanded(profile: Transitions, state: State) -> bool {
    match profile.spec_interpolate(state.time) {
        Some(demand) => !spec_demand_in_range(demand),
        None => false,
    }
}

/// The turn that a frame of the orientation `q` takes at `speed` under the
/// demanded accelerations.
fn plan_turn(q: &Orientation, vertical: i64, lateral: i64, speed: i64) -> (r: Option<Turn>)
    requires
        q.is_unit(),
        -DEMAND_LIMIT <= vertical <= DEMAND_LIMIT,
        -DEMAND_LIMIT <= lateral <= DEMAND_LIMIT,
    ensures
        match spec_turn(q@, vertical as int, lateral as int, speed as int) {
            Some((axis, angle)) => r matches Some(turn) && turn.axis@ == axis && turn.angle
                == angle,
            None => r is None,
        },
{
    let up: Vector3 = q.up();
    let right: Vector3 = q.right();
    let forward: Vector3 = q.forward();
    let lift: Vector3 = scaled(&up, acceleration(vertical));
    let push: Vector3 = scaled(&right, acceleration(lateral));
    let remainder = Vector3 { x: lift.x + push.x, y: lift.y + push.y - G, z: lift.z + push.z };
    let ahead: Vector3 = along(&forward, &remainder);
    let centripetal = Vector3 {
        x: remainder.x - ahead.x,
        y: remainder.y - ahead.y,
        z: remainder.z - ahead.z,
    };
    assert(centripetal@ == spec_centripetal(q@, vertical as int, lateral as int));
    let strength: i64 = magnitude(&centripetal);
    if strength <= EPSILON || speed <= 0 {
        return None;
    }
    let axis: Vector3 = cross(&forward, &centripetal);
    if axis.x == 0 && axis.y == 0 && axis.z == 0 {
        return None;
    }
    proof {
        let n: int = strength * DT;
        assert(0 <= n <= 2_000_000_000_000_000_000) by (nonlinear_arith)
            requires
                n == strength * 10_000,
                0 <= strength <= 200_000_000_000_000,
        {
        }
        assert(n <= 2_000_000_000_000_000_000 * speed) by (nonlinear_arith)
            requires
                0 <= n <= 2_000_000_000_000_000_000,
                speed >= 1,
        {
        }
        lemma_div_round_magnitude(n, speed as int, 2_000_000_000_000_000_000);
    }
    let angle: i128 = div_round((strength as i128) * (DT as i128), speed as i128);
    Some(Turn { axis, angle: angle as i64 })
}

/// The angle in radians by which a train rolls in one step.
fn roll_angle(roll_rate: i64) -> (r: i64)
    ensures
        r == spec_roll_angle(roll_rate as int),
{
    proof {
        lemma_div_round_fraction(roll_rate as int, DT as int, ONE as int);
    }
    let degrees: i128 = div_round((roll_rate as i128) * (DT as i128), ONE as i128);
    proof {
        lemma_div_round_fraction(
            degrees as int,
            RADIANS_PER_DEGREE_E9 as int,
            1_000_000_000,
        );
    }
    div_round(degrees * (RADIANS_PER_DEGREE_E9 as i128), 1_000_000_000) as i64
}

/// Why an integration cannot go on.
#[derive(Clone, Copy, Debug, PartialEq, Eq, Structural)]
pub enum IntegrationError {
    /// The profile demands an acceleration beyond [`DEMAND_LIMIT`].
    DemandOutOfRange,
    /// A rotation handed in is not a unit quaternion.
    RotationNotUnit,
    /// The train has climbed higher than its energy allows: the profile
    /// asks for a track that the train cannot travel.
    InfeasibleProfile,
    /// The speed has grown beyond what a speed can express.
    SpeedOutOfRange,
    /// The spline did not take the sample.
    Sample(SplineError),
}

/// The square of the speed after a step in which the train gained
/// `d_height`: the kinetic energy that is left, by conservation of energy.
pub open spec fn spec_speed_squared(speed: int, d_height: int) -> int {
    speed * speed - 2 * G * d_height
}

/// The speed after a step at `speed` in which the train gained `d_height`.
pub open spec fn spec_next_speed(speed: int, d_height: int) -> Result<int, IntegrationError> {
    let squared = spec_speed_squared(speed, d_height);
    if squared < 0 {
        Err(IntegrationError::InfeasibleProfile)
    } else if spec_isqrt(squared) > i64::MAX {
        Err(IntegrationError::SpeedOutOfRange)
    } else {
        Ok(spec_isqrt(squared))
    }
}

/// The time after a step that began at `time`.
pub open spec fn spec_next_time(time: int) -> int {
    if time + DT > i64::MAX {
        i64::MAX as int
    } else {
        time + DT
    }
}

/// The number of steps that an integration at `time` still has to take
/// through a profile of the duration `total`.
pub open spec fn spec_steps_left(time: int, total: int) -> int {
    if time >= total {
        0
    } else {
        (total - time + DT - 1) / (DT as int)
    }
}

/// Each step brings an integration one step closer to its end: a run
/// through a profile takes as many steps as there are begun hundredths of a
/// second in its duration, and then it is over.
pub proof fn lemma_steps_left(time: int, total: int)
    requires
        0 <= time < total <= i64::MAX,
    ensures
        spec_steps_left(spec_next_time(time), total) == spec_steps_left(time, total) - 1,
        spec_steps_left(time, total) >= 1,
        spec_steps_left(total, total) == 0,
{
    let left = total - time;
    assert((left + DT - 1) / (DT as int) >= 1 && (left > DT ==> (left - DT + DT - 1) / (DT as int)
        == (left + DT - 1) / (DT as int) - 1) && (left <= DT ==> (left + DT - 1) / (DT as int)
        == 1)) by (nonlinear_arith)
        requires
            left >= 1,
            DT == 10_000,
    {
    }
}

/// The speed after a step at `speed` in which the train gained `d_height`,
/// or the reason why there is none.
pub fn next_speed(speed: i64, d_height: i64) -> (r: Result<i64, IntegrationError>)
    ensures
        match r {
            Ok(v) => spec_next_speed(speed as int, d_height as int) == Ok::<int, IntegrationError>(
                v as int,
            ) && v >= 0,
            Err(e) => spec_next_speed(speed as int, d_height as int) == Err::<
                int,
                IntegrationError,
            >(e),
        },
{
    proof {
        lemma_energy_bounds(speed as int, d_height as int);
    }
    let kinetic: i128 = (speed as i128) * (speed as i128);
    let potential: i128 = 2 * (G as i128) * (d_height as i128);
    let squared: i128 = kinetic - potential;
    if squared < 0 {
        return Err(IntegrationError::InfeasibleProfile);
    }
    let root: u64 = isqrt(squared as u128);
    if root > 0x7fff_ffff_ffff_ffff {
        return Err(IntegrationError::SpeedOutOfRange);
    }
    Ok(root as i64)
}

/// The energies of a train fit in a hundred and twenty-eight bits.
proof fn lemma_energy_bounds(speed: int, d_height: int)
    requires
        -0x8000_0000_0000_0000 <= speed <= 0x7fff_ffff_ffff_ffff,
        -0x8000_0000_0000_0000 <= d_height <= 0x7fff_ffff_ffff_ffff,
    ensures
        0 <= speed * speed <= 0x4000_0000_0000_0000_0000_0000_0000_0000,
        -0x100_0000_0000_0000_0000_0000 <= 2 * G * d_height <= 0x100_0000_0000_0000_0000_0000,
{
    assert(0 <= speed * speed <= 0x4000_0000_0000_0000_0000_0000_0000_0000) by (nonlinear_arith)
        requires
            -0x8000_0000_0000_0000 <= speed <= 0x7fff_ffff_ffff_ffff,
    {
    }
    assert(-0x100_0000_0000_0000_0000_0000 <= 2 * G * d_height <= 0x100_0000_0000_0000_0000_0000)
        by (nonlinear_arith)
        requires
            G == 9_806_000,
            -0x8000_0000_0000_0000 <= d_height <= 0x7fff_ffff_ffff_ffff,
    {
    }
}

/// The orientation of the frame after the rotations of a step: the turn,
/// if there is one, about the axes of the world; then the roll about the
/// axes of the turned frame itself; and the result scaled to the norm one.
pub open spec fn spec_rotated(q: Components, turn: Option<Orientation>, roll: Orientation) -> Components {
    let turned = match turn {
        Some(t) => spec_product(t@, q),
        None => q,
    };
    spec_normalized(spec_product(turned, roll@))
}

/// The way that a train of the forward axis `forward` makes over the
/// distance `arc_length`.
pub open spec fn spec_advance(forward: Coordinates, arc_length: int) -> Coordinates {
    Coordinates {
        x: spec_div_round(forward.x * arc_length, ONE as int),
        y: spec_div_round(forward.y * arc_length, ONE as int),
        z: spec_div_round(forward.z * arc_length, ONE as int),
    }
}

/// The sample of a position and an orientation given by their coordinates
/// and components.
pub open spec fn spec_sample(position: Coordinates, orientation: Components) -> Sample {
    (
        Vector3 { x: position.x as i64, y: position.y as i64, z: position.z as i64 },
        Orientation {
            x: orientation.x as i64,
            y: orientation.y as i64,
            z: orientation.z as i64,
            w: orientation.w as i64,
        },
    )
}

/// The state of an integration: the time reached, the speed carried over to
/// the next step, the frame of the train and the samples taken so far.
pub struct State {
    pub time: int,
    pub speed: int,
    pub position: Coordinates,
    pub orientation: Components,
    pub samples: Seq<Sample>,
}

/// What a step makes of a state: the rotations are applied and the
/// orientation is scaled to the norm one; the train moves along its new
/// forward axis; the speed that is left follows from the height gained;
/// the new frame is taken as a sample; the time moves on by [`DT`]. The
/// step is refused, first, if a rotation is not a unit; then if there is no
/// speed left or too much; then if the spline does not take the sample.
pub open spec fn spec_outcome(
    state: State,
    step: Step,
    turn: Option<Orientation>,
    roll: Orientation,
) -> Result<State, IntegrationError> {
    let orientation = spec_rotated(state.orientation, turn, roll);
    let advance = spec_advance(spec_forward_axis(orientation), step.arc_length as int);
    let position = spec_sum(state.position, advance);
    let samples = state.samples.push(spec_sample(position, orientation));
    if !roll.is_unit() || (turn matches Some(t) && !t.is_unit()) {
        Err(IntegrationError::RotationNotUnit)
    } else {
        match spec_next_speed(step.speed as int, advance.y) {
            Err(e) => Err(e),
            Ok(speed) => if !bounded(position, LENGTH_LIMIT as int) {
                Err(IntegrationError::Sample(SplineError::PositionOutOfRange))
            } else if polyline_length(samples) > i64::MAX {
                Err(IntegrationError::Sample(SplineError::TooLong))
            } else {
                Ok(
                    State {
                        time: spec_next_time(state.time),
                        speed,
                        position,
                        orientation,
                        samples,
                    },
                )
            },
        }
    }
}

/// An integration in progress.
#[derive(Debug)]
pub struct Integrator {
    time: i64,
    speed: i64,
    position: Vector3,
    orientation: Orientation,
    spline: TrackSpline,
}

impl View for Integrator {
    type V = State;

    closed spec fn view(&self) -> State {
        State {
            time: self.time as int,
            speed: self.speed as int,
            position: self.position@,
            orientation: self.orientation@,
            samples: self.spline@,
        }
    }
}

impl Integrator {
    /// The invariant of an integration: the orientation of the frame is a
    /// unit quaternion, and the samples form a well-formed spline.
    pub closed spec fn wf(self) -> bool {
        self.orientation.is_unit() && self.spline.wf()
    }

    /// The state at the start of a track: at time zero, at the starting
    /// position, not turned, with no samples.
    pub fn new(start: Vector3, start_velocity: i64) -> (s: Integrator)
        ensures
            s.wf(),
            s@ == (State {
                time: 0,
                speed: start_velocity as int,
                position: start@,
                orientation: Orientation { x: 0, y: 0, z: 0, w: ONE }@,
                samples: Seq::<Sample>::empty(),
            }),
    {
        Integrator {
            time: 0,
            speed: start_velocity,
            position: start,
            orientation: Orientation::identity(),
            spline: TrackSpline::new(),
        }
    }

    /// The time reached.
    pub fn time(&self) -> (t: i64)
        ensures
            t == self@.time,
    {
        self.time
    }

    /// The speed carried over to the next step.
    pub fn speed(&self) -> (v: i64)
        ensures
            v == self@.speed,
    {
        self.speed
    }

    /// The position of the train.
    pub fn position(&self) -> (p: Vector3)
        ensures
            p@ == self@.position,
    {
        self.position
    }

    /// The orientation of the train.
    pub fn orientation(&self) -> (q: Orientation)
        requires
            self.wf(),
        ensures
            q@ == self@.orientation,
            q.is_unit(),
    {
        self.orientation
    }

    /// The samples taken so far.
    pub fn spline(&self) -> (s: &TrackSpline)
        requires
            self.wf(),
        ensures
            s@ == self@.samples,
            s.wf(),
    {
        &self.spline
    }

    /// Ends the integration and hands out the samples taken.
    pub fn into_spline(self) -> (s: TrackSpline)
        requires
            self.wf(),
        ensures
            s@ == self@.samples,
            s.wf(),
    {
        self.spline
    }

    /// What the next step has to do; nothing when the integration is over,
    /// which it is when the time has reached the end of the profile; or an
    /// error when the profile demands more than [`DEMAND_LIMIT`].
    pub fn plan(&self, profile: &Transitions) -> (r: Result<Option<Step>, IntegrationError>)
        requires
            self.wf(),
            profile.wf(),
        ensures
            match r {
                Ok(None) => !(0 <= self@.time < profile.spec_length()),
                Ok(Some(step)) => 0 <= self@.time < profile.spec_length() && spec_planned(
                    *profile,
                    self@,
                    step,
                ),
                Err(e) => 0 <= self@.time < profile.spec_length() && spec_overdemanded(
                    *profile,
                    self@,
                ) && e == IntegrationError::DemandOutOfRange,
            },
    {
        if self.time >= profile.length() {
            return Ok(None);
        }
        match profile.interpolate(self.time) {
            None => Ok(None),
            Some((vertical, lateral, roll_rate, fixed_speed)) => {
                if vertical < -DEMAND_LIMIT || vertical > DEMAND_LIMIT || lateral < -DEMAND_LIMIT
                    || lateral > DEMAND_LIMIT {
                    return Err(IntegrationError::DemandOutOfRange);
                }
                let speed: i64 = match fixed_speed {
                    Some(v) => v,
                    None => self.speed,
                };
                proof {
                    lemma_div_round_fraction(speed as int, DT as int, ONE as int);
                }
                let arc_length: i128 = div_round((speed as i128) * (DT as i128), ONE as i128);
                let turn: Option<Turn> = plan_turn(&self.orientation, vertical, lateral, speed);
                Ok(
                    Some(
                        Step {
                            speed,
                            arc_length: arc_length as i64,
                            turn,
                            roll_angle: roll_angle(roll_rate),
                        },
                    ),
                )
            },
        }
    }

    /// Carries out a step with the rotations that the caller has made of
    /// the turn of the step and of its roll, which is a rotation about the
    /// z axis by the angle of the roll; or says why the step cannot be
    /// carried out. On an error the integration is left as it was.
    pub fn complete(&mut self, step: &Step, turn: Option<Orientation>, roll: Orientation) -> (r:
        Result<(), IntegrationError>)
        requires
            old(self).wf(),
            step.spec_plausible(),
        ensures
            final(self).wf(),
            match r {
                Ok(_) => spec_outcome(old(self)@, *step, turn, roll) == Ok::<
                    State,
                    IntegrationError,
                >(final(self)@),
                Err(e) => spec_outcome(old(self)@, *step, turn, roll) == Err::<
                    State,
                    IntegrationError,
                >(e) && final(self)@ == old(self)@,
            },
    {
        if !roll.check_unit() {
            return Err(IntegrationError::RotationNotUnit);
        }
        proof {
            lemma_unit_is_near(self.orientation);
            lemma_unit_is_near(roll);
        }
        let turned: Orientation = match turn {
            Some(t) => {
                if !t.check_unit() {
                    return Err(IntegrationError::RotationNotUnit);
                }
                proof {
                    lemma_unit_is_near(t);
                    lemma_product_near_unit(t@, self.orientation@, UNIT_SLACK as int);
                }
                t.compose(&self.orientation)
            },
            None => self.orientation,
        };
        proof {
            lemma_product_near_unit(turned@, roll@, UNIT_SLACK + PRODUCT_SLACK);
        }
        let orientation: Orientation = turned.compose(&roll).normalize();
        assert(orientation@ == spec_rotated(self.orientation@, turn, roll));
        let forward: Vector3 = orientation.forward();
        proof {
            lemma_advance_coordinate(forward.x as int, step.arc_length as int);
            lemma_advance_coordinate(forward.y as int, step.arc_length as int);
            lemma_advance_coordinate(forward.z as int, step.arc_length as int);
        }
        let arc: i128 = step.arc_length as i128;
        let one: i128 = ONE as i128;
        let dx: i128 = div_round((forward.x as i128) * arc, one);
        let dy: i128 = div_round((forward.y as i128) * arc, one);
        let dz: i128 = div_round((forward.z as i128) * arc, one);
        let speed: i64 = match next_speed(step.speed, dy as i64) {
            Err(e) => {
                return Err(e);
            },
            Ok(v) => v,
        };
        let x: i128 = (self.position.x as i128) + dx;
        let y: i128 = (self.position.y as i128) + dy;
        let z: i128 = (self.position.z as i128) + dz;
        let limit: i128 = LENGTH_LIMIT as i128;
        if x < -limit || x > limit || y < -limit || y > limit || z < -limit || z > limit {
            return Err(IntegrationError::Sample(SplineError::PositionOutOfRange));
        }
        let position = Vector3 { x: x as i64, y: y as i64, z: z as i64 };
        assert((position, orientation) == spec_sample(position@, orientation@));
        match self.spline.push(position, orientation) {
            Err(e) => {
                return Err(IntegrationError::Sample(e));
            },
            Ok(_) => {},
        }
        self.time = if self.time > i64::MAX - DT {
            i64::MAX
        } else {
            self.time + DT
        };
        self.speed = speed;
        self.position = position;
        self.orientation = orientation;
        Ok(())
    }
}

/// A coordinate of the forward axis times a distance within the length
/// limit stays a little above the length limit at most.
proof fn lemma_advance_coordinate(c: int, arc: int)
    requires
        -AXIS_LIMIT <= c <= AXIS_LIMIT,
        -LENGTH_LIMIT <= arc <= LENGTH_LIMIT,
    ensures
        -(2 * LENGTH_LIMIT) * ONE <= c * arc <= (2 * LENGTH_LIMIT) * ONE,
        -2 * LENGTH_LIMIT <= spec_div_round(c * arc, ONE as int) <= 2 * LENGTH_LIMIT,
{
    assert(-(2 * 0x1000_0000_0000_0000) * 1_000_000 <= c * arc <= (2 * 0x1000_0000_0000_0000)
        * 1_000_000) by (nonlinear_arith)
        requires
            -1_000_200 <= c <= 1_000_200,
            -0x1000_0000_0000_0000 <= arc <= 0x1000_0000_0000_0000,
    {
    }
    lemma_div_round_magnitude(c * arc, ONE as int, 2 * LENGTH_LIMIT);
}

/// The components of the rotation that leaves every direction where it
/// is.
pub open spec fn spec_identity() -> Components {
    Components { x: 0, y: 0, z: 0, w: ONE as int }
}

/// A frame that is not turned needs no turn to give its rider one g
/// upwards and nothing sideways: the track cancels gravity and runs
/// straight.
pub proof fn lemma_level_needs_no_turn(speed: int)
    ensures
        spec_turn(spec_identity(), ONE as int, 0, speed) is None,
        spec_roll_angle(0) == 0,
{
    assert(0 * DT == 0 && 0 * RADIANS_PER_DEGREE_E9 == 0) by (nonlinear_arith);
    crate::arith::lemma_div_round_exact(0, 1_000_000_000);
    let q = spec_identity();
    lemma_identity_axes();
    assert((ONE as int) * G == G * ONE && 0 * G == 0 * ONE) by (nonlinear_arith);
    crate::arith::lemma_div_round_exact(G as int, ONE as int);
    crate::arith::lemma_div_round_exact(0, ONE as int);
    assert(0 * G == 0 && ONE * G == G * ONE) by (nonlinear_arith);
    let remainder = spec_remainder(q, ONE as int, 0);
    assert(remainder == Coordinates { x: 0, y: 0, z: 0 });
    assert(ONE * ONE > 0) by (nonlinear_arith);
    crate::arith::lemma_div_round_exact(0, ONE * ONE);
    assert(0 * ONE == 0 && ONE * 0 == 0 && 0 * (ONE * ONE) == 0) by (nonlinear_arith);
    let centripetal = spec_centripetal(q, ONE as int, 0);
    assert(centripetal == Coordinates { x: 0, y: 0, z: 0 });
    crate::arith::lemma_isqrt_unique(0, 0);
}

/// The axes of a frame that is not turned are the axes of the world.
pub proof fn lemma_identity_axes()
    ensures
        spec_up_axis(spec_identity()) == (Coordinates { x: 0, y: ONE as int, z: 0 }),
        spec_right_axis(spec_identity()) == (Coordinates { x: ONE as int, y: 0, z: 0 }),
        spec_forward_axis(spec_identity()) == (Coordinates { x: 0, y: 0, z: ONE as int }),
{
    assert(0 * ONE == 0 && 0int * 0int == 0) by (nonlinear_arith);
    crate::arith::lemma_div_round_exact(ONE as int, ONE as int);
    crate::arith::lemma_div_round_exact(0, ONE as int);
}

/// A step without a turn and without a roll leaves a frame that is not
/// turned as it is and moves it straight on along the forward axis of the
/// world, by the distance of the step.
pub proof fn lemma_straight_step(arc_length: int)
    ensures
        spec_rotated(spec_identity(), None, Orientation { x: 0, y: 0, z: 0, w: ONE })
            == spec_identity(),
        spec_advance(spec_forward_axis(spec_identity()), arc_length) == (Coordinates {
            x: 0,
            y: 0,
            z: arc_length,
        }),
{
    let q = spec_identity();
    lemma_identity_axes();
    assert(0 * ONE == 0 && 0int * 0int == 0 && ONE * 0 == 0) by (nonlinear_arith);
    crate::arith::lemma_div_round_exact(ONE as int, ONE as int);
    crate::arith::lemma_div_round_exact(0, ONE as int);
    let product = spec_product(q, q);
    assert(product == q);
    assert((ONE + 1) * (ONE + 1) > ONE * ONE) by (nonlinear_arith);
    crate::arith::lemma_isqrt_unique(ONE * ONE, ONE as int);
    assert(spec_normalized(q) == q);
    assert(0 * arc_length == 0 && ONE * arc_length == arc_length * ONE) by (nonlinear_arith);
    crate::arith::lemma_div_round_exact(arc_length, ONE as int);
}

/// A step without a turn and without a roll, carried out on a state that is
/// not turned, leaves the state not turned, moves it along the forward axis
/// of the world by the distance of the step, and leaves it neither higher
/// nor lower. A track whose every step is of this kind is a straight line.
pub proof fn lemma_straight_outcome(state: State, step: Step)
    requires
        state.orientation == spec_identity(),
    ensures
        match spec_outcome(state, step, None, Orientation { x: 0, y: 0, z: 0, w: ONE }) {
            Ok(next) => next.orientation == spec_identity() && next.position == (Coordinates {
                x: state.position.x,
                y: state.position.y,
                z: state.position.z + step.arc_length,
            }),
            Err(_) => true,
        },
{
    lemma_straight_step(step.arc_length as int);
}

/// What a run of steps without turns and without rolls makes of a state.
pub open spec fn spec_straight_run(state: State, steps: Seq<Step>) -> Result<
    State,
    IntegrationError,
>
    decreases steps.len(),
{
    if steps.len() == 0 {
        Ok(state)
    } else {
        match spec_straight_run(state, steps.drop_last()) {
            Err(e) => Err(e),
            Ok(before) => spec_outcome(
                before,
                steps.last(),
                None,
                Orientation { x: 0, y: 0, z: 0, w: ONE },
            ),
        }
    }
}

/// Whether a sample is not turned and stands straight ahead of `start`: on
/// the line through `start` along the forward axis of the world.
pub open spec fn spec_straight_ahead(sample: Sample, start: Coordinates) -> bool {
    sample.1@ == spec_identity() && sample.0@.x == start.x && sample.0@.y == start.y
}

/// A track without turns and without rolls is a straight line: from a state
/// that is not turned, every sample of such a run is not turned either and
/// stands on the line through the starting position along the forward axis.
pub proof fn lemma_straight_run(state: State, steps: Seq<Step>)
    requires
        state.orientation == spec_identity(),
    ensures
        match spec_straight_run(state, steps) {
            Ok(end) => {
                &&& end.orientation == spec_identity()
                &&& end.position.x == state.position.x
                &&& end.position.y == state.position.y
                &&& end.samples.len() == state.samples.len() + steps.len()
                &&& forall|i: int|
                    state.samples.len() <= i < end.samples.len() ==> spec_straight_ahead(
                        #[trigger] end.samples[i],
                        state.position,
                    )
                &&& forall|i: int|
                    0 <= i < state.samples.len() ==> #[trigger] end.samples[i] == state.samples[i]
            },
            Err(_) => true,
        },
    decreases steps.len(),
{
    if steps.len() > 0 {
        lemma_straight_run(state, steps.drop_last());
        match spec_straight_run(state, steps.drop_last()) {
            Err(_) => {},
            Ok(before) => {
                lemma_straight_outcome(before, steps.last());
                lemma_identity_axes();
                assert(ONE * ONE == 1_000_000_000_000) by (nonlinear_arith)
                    requires
                        ONE == 1_000_000,
                {
                }
            },
        }
    }
}

/// Every sample that an integration has taken has an orientation whose norm
/// is within a ten-thousandth of one.
pub proof fn lemma_samples_are_units(integrator: Integrator, i: int)
    requires
        integrator.wf(),
        0 <= i < integrator@.samples.len(),
    ensures
        integrator@.samples[i].1.is_unit(),
{
    crate::spline::lemma_samples_valid(integrator.spline, i);
}

/// The forward axis of a train at rest.
pub open spec fn spec_forward() -> Vector3 {
    Vector3 { x: 0, y: 0, z: ONE }
}

/// Whether the rotations `turn` and `roll` can be what `rotation` makes of
/// the turn of a step, if it has one, and of its roll, which is a rotation
/// about the forward axis of a train at rest.
pub open spec fn spec_rotations_made<F: Fn(Vector3, i64) -> Orientation>(
    rotation: F,
    step: Step,
    turn: Option<Orientation>,
    roll: Orientation,
) -> bool {
    &&& call_ensures(rotation, (spec_forward(), step.roll_angle), roll)
    &&& match step.turn {
        Some(t) => turn matches Some(q) && call_ensures(rotation, (t.axis, t.angle), q),
        None => turn is None,
    }
}

/// Whether `step`, `turn` and `roll` are what an integration in `state`
/// does next: the profile has not ended, `step` is the step planned, and
/// the rotations are made of it.
pub open spec fn spec_step_taken<F: Fn(Vector3, i64) -> Orientation>(
    profile: Transitions,
    rotation: F,
    state: State,
    step: Step,
    turn: Option<Orientation>,
    roll: Orientation,
) -> bool {
    &&& 0 <= state.time < profile.spec_length()
    &&& spec_planned(profile, state, step)
    &&& spec_rotations_made(rotation, step, turn, roll)
}

/// Whether an integration that starts in `start` can be in `state` after
/// `n` steps.
pub open spec fn spec_reached<F: Fn(Vector3, i64) -> Orientation>(
    profile: Transitions,
    rotation: F,
    start: State,
    state: State,
    n: nat,
) -> bool
    decreases n,
{
    if n == 0 {
        state == start
    } else {
        exists|before: State, step: Step, turn: Option<Orientation>, roll: Orientation|
            spec_reached(profile, rotation, start, before, (n - 1) as nat) && #[trigger] spec_step_taken(
                profile,
                rotation,
                before,
                step,
                turn,
                roll,
            ) && spec_outcome(before, step, turn, roll) == Ok::<State, IntegrationError>(state)
    }
}

/// Whether an integration can end in `state` for the reason `stopped`:
/// for none when the profile has ended, else for the error that planning or
/// carrying out the next step gives.
pub open spec fn spec_ended<F: Fn(Vector3, i64) -> Orientation>(
    profile: Transitions,
    rotation: F,
    state: State,
    stopped: Option<IntegrationError>,
) -> bool {
    match stopped {
        None => !(0 <= state.time < profile.spec_length()),
        Some(e) => 0 <= state.time < profile.spec_length() && (e
            == IntegrationError::DemandOutOfRange && spec_overdemanded(profile, state)
            || exists|step: Step, turn: Option<Orientation>, roll: Orientation| #[trigger]
                spec_step_taken(profile, rotation, state, step, turn, roll) && spec_outcome(
                    state,
                    step,
                    turn,
                    roll,
                ) == Err::<State, IntegrationError>(e)),
    }
}

/// The state at the start of a track.
pub open spec fn spec_start(start: Vector3, start_velocity: i64) -> State {
    State {
        time: 0,
        speed: start_velocity as int,
        position: start@,
        orientation: spec_identity(),
        samples: Seq::<Sample>::empty(),
    }
}

/// Integrates a profile into a track, from the position `start` and the
/// speed `start_velocity`. The quaternion of each rotation is made by
/// `rotation` from an axis, which is not scaled to the length one, and an
/// angle in radians. The integration goes on to the end of the profile; if
/// it has to stop before, the track up to there is returned with the reason.
pub fn create_spline<F: Fn(Vector3, i64) -> Orientation>(
    transitions: &Transitions,
    start: Vector3,
    start_velocity: i64,
    rotation: F,
) -> (r: (TrackSpline, Option<IntegrationError>))
    requires
        transitions.wf(),
        forall|axis: Vector3, angle: i64| call_requires(rotation, (axis, angle)),
    ensures
        r.0.wf(),
        exists|end: State, n: nat| #[trigger]
            spec_reached(*transitions, rotation, spec_start(start, start_velocity), end, n)
                && end.samples == r.0@ && spec_ended(*transitions, rotation, end, r.1),
{
    let mut integrator = Integrator::new(start, start_velocity);
    let ghost first = spec_start(start, start_velocity);
    let ghost mut steps: nat = 0;
    let mut stopped: Option<IntegrationError> = None;
    let total: i64 = transitions.length();
    loop
        invariant_except_break
            integrator.wf(),
            transitions.wf(),
            total == transitions.spec_length(),
            forall|axis: Vector3, angle: i64| call_requires(rotation, (axis, angle)),
            spec_reached(*transitions, rotation, first, integrator@, steps),
        ensures
            integrator.wf(),
            spec_reached(*transitions, rotation, first, integrator@, steps),
            spec_ended(*transitions, rotation, integrator@, stopped),
        decreases spec_steps_left(integrator@.time, transitions.spec_length()),
    {
        let step: Step = match integrator.plan(transitions) {
            Ok(None) => {
                stopped = None;
                break ;
            },
            Err(e) => {
                stopped = Some(e);
                break ;
            },
            Ok(Some(step)) => step,
        };
        let turn: Option<Orientation> = match step.turn {
            Some(t) => Some(rotation(t.axis, t.angle)),
            None => None,
        };
        let roll: Orientation = rotation(Vector3 { x: 0, y: 0, z: ONE }, step.roll_angle);
        let ghost before = integrator@;
        assert(spec_step_taken(*transitions, rotation, before, step, turn, roll));
        match integrator.complete(&step, turn, roll) {
            Err(e) => {
                stopped = Some(e);
                break ;
            },
            Ok(_) => {
                proof {
                    steps = steps + 1;
                    lemma_steps_left(before.time, transitions.spec_length());
                    assert(spec_reached(*transitions, rotation, first, integrator@, steps));
                }
            },
        }
    }
    let ghost end = integrator@;
    let spline: TrackSpline = integrator.into_spline();
    assert(spec_reached(*transitions, rotation, first, end, steps) && end.samples == spline@
        && spec_ended(*transitions, rotation, end, stopped));
    (spline, stopped)
}

/// Whether a profile demands one g upwards, nothing sideways and no roll
/// for as long as it lasts: what a rider feels on a level track.
pub open spec fn spec_level(profile: Transitions) -> bool {
    forall|time: int|
        0 <= time <= profile.spec_length() ==> match #[trigger] profile.spec_interpolate(time) {
            Some(demand) => demand.0 == ONE && demand.1 == 0 && demand.2 == 0,
            None => false,
        }
}

/// Whether `rotation` makes of the angle zero the rotation that leaves
/// every direction where it is, whatever the axis.
pub open spec fn spec_makes_identity<F: Fn(Vector3, i64) -> Orientation>(rotation: F) -> bool {
    forall|axis: Vector3, q: Orientation| #[trigger]
        call_ensures(rotation, (axis, 0i64), q) ==> q == (Orientation { x: 0, y: 0, z: 0, w: ONE })
}

/// A level profile gives a straight track: every state that an integration
/// from a start that is not turned can reach is not turned either and
/// stands straight ahead of the start, and so does every sample taken.
pub proof fn lemma_level_track<F: Fn(Vector3, i64) -> Orientation>(
    profile: Transitions,
    rotation: F,
    start: State,
    state: State,
    n: nat,
)
    requires
        spec_level(profile),
        spec_makes_identity(rotation),
        start.orientation == spec_identity(),
        spec_reached(profile, rotation, start, state, n),
    ensures
        state.orientation == spec_identity(),
        state.position.x == start.position.x,
        state.position.y == start.position.y,
        state.samples.len() == start.samples.len() + n,
        forall|i: int|
            start.samples.len() <= i < state.samples.len() ==> spec_straight_ahead(
                #[trigger] state.samples[i],
                start.position,
            ),
    decreases n,
{
    if n > 0 {
        let (before, step, turn, roll) = choose|
            before: State,
            step: Step,
            turn: Option<Orientation>,
            roll: Orientation,
        |
            spec_reached(profile, rotation, start, before, (n - 1) as nat) && #[trigger] spec_step_taken(
                profile,
                rotation,
                before,
                step,
                turn,
                roll,
            ) && spec_outcome(before, step, turn, roll) == Ok::<State, IntegrationError>(state);
        lemma_level_track(profile, rotation, start, before, (n - 1) as nat);
        let demand = profile.spec_interpolate(before.time)->0;
        assert(profile.spec_interpolate(before.time) is Some);
        lemma_level_needs_no_turn(step.speed as int);
        assert(step.turn is None);
        assert(step.roll_angle == 0);
        assert(roll == (Orientation { x: 0, y: 0, z: 0, w: ONE }));
        lemma_straight_outcome(before, step);
        lemma_identity_axes();
        assert(ONE * ONE == 1_000_000_000_000) by (nonlinear_arith)
            requires
                ONE == 1_000_000,
        {
        }
    }
}

} // verus!
