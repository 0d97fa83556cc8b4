//! Profiles of three quantities that share their segments: the vertical and
//! the lateral acceleration that a rider feels, and the rate of roll. Each
//! segment may also fix the speed of the train while it lasts.
use crate::timeline::{active_index, total};
use crate::transitions::{
    eased, lengths_of, spec_eased, spec_net_change, spec_value, ProfileError, TransitionFunction,
};
use crate::units::ONE;
use vstd::prelude::*;

verus! {

/// How one quantity changes during a segment: a shape and a signed amount.
#[derive(Clone, Copy, Debug, PartialEq, Eq, Structural)]
pub struct Transition {
    pub function: TransitionFunction,
    pub change: i64,
}

impl Transition {
    /// The contribution at the fraction `t` of the segment.
    pub open spec fn spec_interpolate(self, t: int) -> int {
        spec_eased(self.function, self.change as int, t)
    }

    /// What the change adds for good once the segment is over.
    pub open spec fn spec_end_value(self) -> int {
        spec_net_change(self.function, self.change as int)
    }

    /// The same change as a segment of its own with the given duration.
    pub open spec fn spec_over(self, length: i64) -> crate::transitions::Transition {
        crate::transitions::Transition { function: self.function, change: self.change, length }
    }

    /// A change of the given shape and amount.
    pub fn new(function: TransitionFunction, change: i64) -> (t: Transition)
        ensures
            t == (Transition { function, change }),
    {
        Transition { function, change }
    }

    /// The contribution at the fraction `time` of the segment, which is
    /// first held to the range from zero to one.
    pub fn interpolate(&self, time: i64) -> (r: i64)
        ensures
            r == self.spec_interpolate(time as int),
            self.change >= 0 ==> 0 <= r <= self.change,
            self.change <= 0 ==> self.change <= r <= 0,
    {
        eased(self.function, self.change, time)
    }

    /// What the change adds for good once the segment is over: the amount,
    /// or nothing for a plateau.
    pub fn end_value(&self) -> (r: i64)
        ensures
            r == self.spec_end_value(),
    {
        match self.function {
            TransitionFunction::Cubic
            | TransitionFunction::Quadratic
            | TransitionFunction::Linear => self.change,
            TransitionFunction::Plateau => 0,
        }
    }

    /// The same change as a segment of its own with the given duration.
    pub fn over(&self, length: i64) -> (t: crate::transitions::Transition)
        ensures
            t == self.spec_over(length),
    {
        crate::transitions::Transition::new(self.function, self.change, length)
    }
}

/// One segment of a three-channel profile.
#[derive(Clone, Copy, Debug, PartialEq, Eq, Structural)]
pub struct FullTransition {
    pub vert: Transition,
    pub lat: Transition,
    pub roll: Transition,
    pub length: i64,
    pub speed: Option<i64>,
}

/// The segment that a new profile starts with: one second in which nothing
/// changes and no speed is fixed.
pub open spec fn spec_default_segment() -> FullTransition {
    FullTransition {
        vert: Transition { function: TransitionFunction::Cubic, change: 0 },
        lat: Transition { function: TransitionFunction::Cubic, change: 0 },
        roll: Transition { function: TransitionFunction::Plateau, change: 0 },
        length: ONE,
        speed: None,
    }
}

impl FullTransition {
    /// A segment of the given changes, duration and fixed speed.
    pub fn new(
        vert: Transition,
        lat: Transition,
        roll: Transition,
        length: i64,
        speed: Option<i64>,
    ) -> (t: FullTransition)
        ensures
            t == (FullTransition { vert, lat, roll, length, speed }),
    {
        FullTransition { vert, lat, roll, length, speed }
    }
}

impl Default for FullTransition {
    fn default() -> (t: FullTransition)
        ensures
            t == spec_default_segment(),
    {
        let still = Transition::new(TransitionFunction::Cubic, 0);
        FullTransition::new(still, still, Transition::new(TransitionFunction::Plateau, 0), ONE, None)
    }
}

/// The vertical channel of the segments as a profile of its own.
pub open spec fn vert_channel(segments: Seq<FullTransition>) -> Seq<crate::transitions::Transition> {
    Seq::new(segments.len(), |i: int| segments[i].vert.spec_over(segments[i].length))
}

/// The lateral channel of the segments as a profile of its own.
pub open spec fn lat_channel(segments: Seq<FullTransition>) -> Seq<crate::transitions::Transition> {
    Seq::new(segments.len(), |i: int| segments[i].lat.spec_over(segments[i].length))
}

/// The roll channel of the segments as a profile of its own.
pub open spec fn roll_channel(segments: Seq<FullTransition>) -> Seq<crate::transitions::Transition> {
    Seq::new(segments.len(), |i: int| segments[i].roll.spec_over(segments[i].length))
}

/// The total duration of the segments.
pub open spec fn spec_duration(segments: Seq<FullTransition>) -> int {
    total(lengths_of(vert_channel(segments)))
}

/// The speed that the segment active at `time` fixes, if it fixes one.
pub open spec fn spec_fixed_speed(segments: Seq<FullTransition>, time: int) -> Option<i64> {
    let k = active_index(lengths_of(vert_channel(segments)), time);
    if 0 <= time <= spec_duration(segments) && k < segments.len() {
        segments[k].speed
    } else {
        None
    }
}

/// What [`Transitions::push`] answers: the first objection of the vertical,
/// the lateral and the roll channel, in that order.
pub open spec fn push_outcome(
    segments: Seq<FullTransition>,
    vert_start: int,
    lat_start: int,
    roll_start: int,
    segment: FullTransition,
) -> Result<(), ProfileError> {
    let vert = crate::transitions::push_outcome(
        vert_channel(segments),
        vert_start,
        segment.vert.spec_over(segment.length),
    );
    let lat = crate::transitions::push_outcome(
        lat_channel(segments),
        lat_start,
        segment.lat.spec_over(segment.length),
    );
    let roll = crate::transitions::push_outcome(
        roll_channel(segments),
        roll_start,
        segment.roll.spec_over(segment.length),
    );
    if vert is Err {
        vert
    } else if lat is Err {
        lat
    } else {
        roll
    }
}

/// A profile of vertical acceleration, lateral acceleration and roll rate.
#[derive(Debug)]
pub struct Transitions {
    transitions: Vec<FullTransition>,
    vert: crate::transitions::Transitions,
    lat: crate::transitions::Transitions,
    roll: crate::transitions::Transitions,
}

impl View for Transitions {
    type V = Seq<FullTransition>;

    closed spec fn view(&self) -> Seq<FullTransition> {
        self.transitions@
    }
}

impl Clone for Transitions {
    fn clone(&self) -> (p: Transitions)
        ensures
            p@ == self@,
            p.spec_vert_start() == self.spec_vert_start(),
            p.spec_lat_start() == self.spec_lat_start(),
            p.spec_roll_start() == self.spec_roll_start(),
            self.wf() ==> p.wf(),
    {
        let transitions: Vec<FullTransition> = self.transitions.clone();
        assert(transitions@ =~= self.transitions@);
        Transitions {
            transitions,
            vert: self.vert.clone(),
            lat: self.lat.clone(),
            roll: self.roll.clone(),
        }
    }
}

impl Transitions {
    /// The vertical acceleration before the first segment.
    pub closed spec fn spec_vert_start(self) -> int {
        self.vert.spec_start_value()
    }

    /// The lateral acceleration before the first segment.
    pub closed spec fn spec_lat_start(self) -> int {
        self.lat.spec_start_value()
    }

    /// The roll rate before the first segment.
    pub closed spec fn spec_roll_start(self) -> int {
        self.roll.spec_start_value()
    }

    /// The invariant of a profile: each channel is kept as a well-formed
    /// profile of its own over the same segments.
    pub closed spec fn wf(self) -> bool {
        &&& self.vert.wf()
        &&& self.lat.wf()
        &&& self.roll.wf()
        &&& self.vert@ == vert_channel(self@)
        &&& self.lat@ == lat_channel(self@)
        &&& self.roll@ == roll_channel(self@)
    }

    /// The total duration of the profile.
    pub open spec fn spec_length(self) -> int {
        spec_duration(self@)
    }

    /// What the profile demands at `time`, if it demands anything: in each
    /// channel the value of that channel's own profile, and the speed that
    /// the active segment fixes.
    pub open spec fn spec_interpolate(self, time: int) -> Option<(int, int, int, Option<i64>)> {
        if time < 0 || time > self.spec_length() {
            None
        } else {
            Some(
                (
                    spec_value(vert_channel(self@), self.spec_vert_start(), time)->0,
                    spec_value(lat_channel(self@), self.spec_lat_start(), time)->0,
                    spec_value(roll_channel(self@), self.spec_roll_start(), time)->0,
                    spec_fixed_speed(self@, time),
                ),
            )
        }
    }

    /// A profile without segments.
    pub fn empty(vert_start: i64, lat_start: i64, roll_start: i64) -> (p: Transitions)
        ensures
            p.wf(),
            p@ == Seq::<FullTransition>::empty(),
            p.spec_vert_start() == vert_start,
            p.spec_lat_start() == lat_start,
            p.spec_roll_start() == roll_start,
    {
        let p = Transitions {
            transitions: Vec::new(),
            vert: crate::transitions::Transitions::new(vert_start),
            lat: crate::transitions::Transitions::new(lat_start),
            roll: crate::transitions::Transitions::new(roll_start),
        };
        proof {
            assert(vert_channel(p@) =~= p.vert@);
            assert(lat_channel(p@) =~= p.lat@);
            assert(roll_channel(p@) =~= p.roll@);
        }
        p
    }

    /// A profile of one default segment: a second in which nothing changes.
    pub fn new(vert_start: i64, lat_start: i64, roll_start: i64) -> (p: Transitions)
        ensures
            p.wf(),
            p@ == seq![spec_default_segment()],
            p.spec_vert_start() == vert_start,
            p.spec_lat_start() == lat_start,
            p.spec_roll_start() == roll_start,
    {
        let mut p = Transitions::empty(vert_start, lat_start, roll_start);
        proof {
            let none = Seq::<crate::transitions::Transition>::empty();
            assert(vert_channel(p@) =~= none);
            assert(lat_channel(p@) =~= none);
            assert(roll_channel(p@) =~= none);
            assert(lengths_of(none) =~= Seq::<int>::empty());
        }
        let r = p.push(FullTransition::default());
        assert(r is Ok);
        assert(p@ =~= seq![spec_default_segment()]);
        p
    }

    /// The number of segments.
    pub fn len(&self) -> (n: usize)
        ensures
            n == self@.len(),
    {
        self.transitions.len()
    }

    /// The segment at index `i`.
    pub fn segment(&self, i: usize) -> (t: FullTransition)
        requires
            i < self@.len(),
        ensures
            t == self@[i as int],
    {
        self.transitions[i]
    }

    /// The total duration: the sum of the durations of the segments.
    pub fn length(&self) -> (l: i64)
        requires
            self.wf(),
        ensures
            l == self.spec_length(),
            l >= 0,
    {
        self.vert.length()
    }

    /// Tells whether two profiles have the same start values and the same
    /// segments, and so demand the same at every time.
    pub fn same_as(&self, other: &Transitions) -> (b: bool)
        ensures
            b == (self@ == other@ && self.spec_vert_start() == other.spec_vert_start()
                && self.spec_lat_start() == other.spec_lat_start() && self.spec_roll_start()
                == other.spec_roll_start()),
    {
        if self.vert.start_value() != other.vert.start_value() || self.lat.start_value()
            != other.lat.start_value() || self.roll.start_value() != other.roll.start_value()
            || self.transitions.len() != other.transitions.len() {
            return false;
        }
        let n: usize = self.transitions.len();
        let mut i: usize = 0;
        while i < n
            invariant
                n == self@.len(),
                n == other@.len(),
                i <= n,
                forall|j: int| 0 <= j < i ==> self@[j] == other@[j],
            decreases n - i,
        {
            let a: FullTransition = self.transitions[i];
            let b: FullTransition = other.transitions[i];
            if !(same_change(&a.vert, &b.vert) && same_change(&a.lat, &b.lat) && same_change(
                &a.roll,
                &b.roll,
            ) && a.length == b.length && same_speed(a.speed, b.speed)) {
                return false;
            }
            i = i + 1;
        }
        assert(self@ =~= other@);
        true
    }

    /// Appends a segment, or says why it cannot be taken. On an error the
    /// profile is left as it was.
    pub fn push(&mut self, segment: FullTransition) -> (r: Result<(), ProfileError>)
        requires
            old(self).wf(),
        ensures
            final(self).wf(),
            final(self).spec_vert_start() == old(self).spec_vert_start(),
            final(self).spec_lat_start() == old(self).spec_lat_start(),
            final(self).spec_roll_start() == old(self).spec_roll_start(),
            r is Ok ==> final(self)@ == old(self)@.push(segment),
            r is Err ==> final(self)@ == old(self)@,
            r == push_outcome(
                old(self)@,
                old(self).spec_vert_start(),
                old(self).spec_lat_start(),
                old(self).spec_roll_start(),
                segment,
            ),
    {
        let vert = segment.vert.over(segment.length);
        let lat = segment.lat.over(segment.length);
        let roll = segment.roll.over(segment.length);
        match self.vert.check_push(&vert) {
            Err(e) => {
                return Err(e);
            },
            Ok(_) => {},
        }
        match self.lat.check_push(&lat) {
            Err(e) => {
                return Err(e);
            },
            Ok(_) => {},
        }
        match self.roll.check_push(&roll) {
            Err(e) => {
                return Err(e);
            },
            Ok(_) => {},
        }
        let ghost before = self@;
        let _ = self.vert.push(vert);
        let _ = self.lat.push(lat);
        let _ = self.roll.push(roll);
        self.transitions.push(segment);
        proof {
            let after = before.push(segment);
            assert(vert_channel(after) =~= vert_channel(before).push(vert));
            assert(lat_channel(after) =~= lat_channel(before).push(lat));
            assert(roll_channel(after) =~= roll_channel(before).push(roll));
        }
        Ok(())
    }

    /// What the profile demands at `time`, or nothing for a time outside
    /// the profile.
    pub fn interpolate(&self, time: i64) -> (r: Option<(i64, i64, i64, Option<i64>)>)
        requires
            self.wf(),
        ensures
            r is None <==> time < 0 || time > self.spec_length(),
            match r {
                Some((vertical, lateral, roll_rate, fixed_speed)) => self.spec_interpolate(
                    time as int,
                ) == Some((vertical as int, lateral as int, roll_rate as int, fixed_speed)),
                None => self.spec_interpolate(time as int) is None,
            },
    {
        proof {
            lemma_channels_share_lengths(self@);
        }
        let vertical: i64 = match self.vert.interpolate(time) {
            Some(v) => v,
            None => {
                return None;
            },
        };
        let lateral: i64 = match self.lat.interpolate(time) {
            Some(v) => v,
            None => {
                return None;
            },
        };
        let roll_rate: i64 = match self.roll.interpolate(time) {
            Some(v) => v,
            None => {
                return None;
            },
        };
        let fixed_speed: Option<i64> = match self.vert.active_segment(time) {
            Some(k) => self.transitions[k].speed,
            None => None,
        };
        Some((vertical, lateral, roll_rate, fixed_speed))
    }
}

/// Tells whether two changes are the same.
fn same_change(a: &Transition, b: &Transition) -> (r: bool)
    ensures
        r == (*a == *b),
{
    a.function == b.function && a.change == b.change
}

/// Tells whether two segments fix the same speed, or both none.
fn same_speed(a: Option<i64>, b: Option<i64>) -> (r: bool)
    ensures
        r == (a == b),
{
    match (a, b) {
        (Some(x), Some(y)) => x == y,
        (None, None) => true,
        _ => false,
    }
}

/// A profile whose segments change nothing demands its start values for as
/// long as it lasts.
pub proof fn lemma_unchanging_demand(p: Transitions, time: int)
    requires
        p.wf(),
        forall|i: int|
            0 <= i < p@.len() ==> (#[trigger] p@[i]).vert.change == 0 && p@[i].lat.change == 0
                && p@[i].roll.change == 0,
        0 <= time <= p.spec_length(),
    ensures
        p.spec_interpolate(time) == Some(
            (
                p.spec_vert_start(),
                p.spec_lat_start(),
                p.spec_roll_start(),
                spec_fixed_speed(p@, time),
            ),
        ),
{
    lemma_channels_share_lengths(p@);
    assert forall|i: int| 0 <= i < p@.len() implies (#[trigger] vert_channel(p@)[i]).change
        == 0 by {
        assert(p@[i].vert.change == 0);
    }
    assert forall|i: int| 0 <= i < p@.len() implies (#[trigger] lat_channel(p@)[i]).change
        == 0 by {
        assert(p@[i].lat.change == 0);
    }
    assert forall|i: int| 0 <= i < p@.len() implies (#[trigger] roll_channel(p@)[i]).change
        == 0 by {
        assert(p@[i].roll.change == 0);
    }
    crate::transitions::lemma_unchanging_profile(vert_channel(p@), p.spec_vert_start(), time);
    crate::transitions::lemma_unchanging_profile(lat_channel(p@), p.spec_lat_start(), time);
    crate::transitions::lemma_unchanging_profile(roll_channel(p@), p.spec_roll_start(), time);
}

/// The three channels of a profile have the same durations.
pub proof fn lemma_channels_share_lengths(segments: Seq<FullTransition>)
    ensures
        lengths_of(lat_channel(segments)) == lengths_of(vert_channel(segments)),
        lengths_of(roll_channel(segments)) == lengths_of(vert_channel(segments)),
{
    assert(lengths_of(lat_channel(segments)) =~= lengths_of(vert_channel(segments)));
    assert(lengths_of(roll_channel(segments)) =~= lengths_of(vert_channel(segments)));
}

} // verus!
