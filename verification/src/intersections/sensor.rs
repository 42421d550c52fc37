//! Sensors: what they report and when.
use crate::intersections::component::{Component, ComponentId, ComponentState, ComponentUid};
use crate::intersections::group::{GroupChannels, GroupId};
use crate::intersections::intersection::{IntersectionChannels, Notification};
use std::convert::TryFrom;
use vstd::prelude::*;
use vstd::std_specs::convert::{FromSpec, FromSpecImpl, TryFromSpec, TryFromSpecImpl};

verus! {


/// The error for an integer that stands for no sensor state.
#[derive(Clone, Copy, Debug, Eq, PartialEq, Structural)]
pub enum SensorStateError {
    CouldNotConvert { value: i32 },
}

/// What a sensor reports: `High` while something is detected.
#[derive(Clone, Copy, Debug, Eq, Hash, Ord, PartialEq, PartialOrd, Structural)]
pub enum SensorState {
    Low,
    High,
}

impl SensorState {
    /// The upper-case name of the state.
    pub fn name(&self) -> (s: &'static str)
        ensures
            s@ == match self {
                SensorState::Low => "LOW"@,
                SensorState::High => "HIGH"@,
            },
    {
        match self {
            SensorState::Low => "LOW",
            SensorState::High => "HIGH",
        }
    }
}

impl ComponentState for SensorState {
    open spec fn code(self) -> int {
        match self {
            SensorState::Low => 0,
            SensorState::High => 1,
        }
    }

    open spec fn decoded(code: int) -> Option<Self> {
        if code == 0 {
            Some(SensorState::Low)
        } else if code == 1 {
            Some(SensorState::High)
        } else {
            None
        }
    }

    open spec fn states() -> int {
        2
    }

    proof fn lemma_codec(code: int) {
    }

    fn to_int(self) -> (code: i32) {
        match self {
            SensorState::Low => 0,
            SensorState::High => 1,
        }
    }

    fn from_int(code: i32) -> (state: Option<Self>) {
        match code {
            0 => Some(SensorState::Low),
            1 => Some(SensorState::High),
            _ => None,
        }
    }

    fn same(self, other: Self) -> (same: bool) {
        self == other
    }
}

impl SensorState {
    /// Converting a state to its code and back gives the state; converting
    /// any integer that is no code fails with that integer.
    pub proof fn lemma_round_trip(state: SensorState, other: i32)
        ensures
            <SensorState as TryFromSpec<i32>>::try_from_spec(<i32 as FromSpec<SensorState>>::from_spec(state))
                == Ok::<SensorState, SensorStateError>(state),
            !(0 <= other < 2) ==> <SensorState as TryFromSpec<i32>>::try_from_spec(other) == Err::<
                SensorState,
                SensorStateError,
            >(SensorStateError::CouldNotConvert { value: other }),
    {
    }
}

impl Default for SensorState {
    /// A sensor reports nothing until told otherwise.
    fn default() -> (state: Self)
        ensures
            state == SensorState::Low,
    {
        SensorState::Low
    }
}

impl TryFrom<i32> for SensorState {
    type Error = SensorStateError;

    /// Reads a state from its code; any other integer is refused, and the error
    /// carries it.
    fn try_from(value: i32) -> (state: Result<Self, Self::Error>) {
        match SensorState::from_int(value) {
            Some(s) => Ok(s),
            None => Err(SensorStateError::CouldNotConvert { value }),
        }
    }
}

impl TryFromSpecImpl<i32> for SensorState {
    open spec fn obeys_try_from_spec() -> bool {
        true
    }

    open spec fn try_from_spec(v: i32) -> Result<Self, Self::Error> {
        match SensorState::decoded(v as int) {
            Some(s) => Ok(s),
            None => Err(SensorStateError::CouldNotConvert { value: v }),
        }
    }
}

impl From<SensorState> for i32 {
    /// The code of a state.
    fn from(state: SensorState) -> (code: i32) {
        state.to_int()
    }
}

impl FromSpecImpl<SensorState> for i32 {
    open spec fn obeys_from_spec() -> bool {
        true
    }

    open spec fn from_spec(v: SensorState) -> i32 {
        v.code() as i32
    }
}


/// A sensor of a group.
///
/// `timestamp` is the instant of the last call that set the state, in
/// milliseconds since the Unix epoch. `events` is the sensor's own channel: one
/// entry for every such call that nobody has taken out yet. `distance` is the
/// weight of the sensor in the demand score of its group.
pub struct Sensor {
    pub group: GroupId,
    pub id: ComponentId,
    pub state: SensorState,
    pub initial_state: SensorState,
    pub timestamp: i64,
    pub events: Vec<ComponentUid>,
    pub distance: i32,
}

/// The mathematical value of a [`Sensor`].
pub struct SensorView {
    pub group: GroupId,
    pub id: ComponentId,
    pub state: SensorState,
    pub initial_state: SensorState,
    pub timestamp: int,
    pub events: Seq<ComponentUid>,
    pub distance: int,
}

impl View for Sensor {
    type V = SensorView;

    open spec fn view(&self) -> SensorView {
        SensorView {
            group: self.group,
            id: self.id,
            state: self.state,
            initial_state: self.initial_state,
            timestamp: self.timestamp as int,
            events: self.events@,
            distance: self.distance as int,
        }
    }
}

impl SensorView {
    /// A sensor as it is made: in its initial state since `now`, with nothing
    /// on its channel.
    pub open spec fn fresh(
        group: GroupId,
        id: ComponentId,
        initial_state: SensorState,
        distance: int,
        now: int,
    ) -> SensorView {
        SensorView {
            group,
            id,
            state: initial_state,
            initial_state,
            timestamp: now,
            events: Seq::empty(),
            distance,
        }
    }

    /// The identifier of the sensor within the installation.
    pub open spec fn uid(self) -> ComponentUid {
        ComponentUid { group_id: self.group, component_id: self.id }
    }

    /// The sensor with state `state` since `now`; nothing is sent.
    pub open spec fn set_state_internal(self, state: SensorState, now: int) -> SensorView {
        SensorView { state, timestamp: now, ..self }
    }

    /// The sensor after `state` was set at `now`: the state and the instant
    /// change together, and one event goes onto the sensor's channel.
    pub open spec fn set_state(self, state: SensorState, now: int) -> SensorView {
        SensorView { state, timestamp: now, events: self.events.push(self.uid()), ..self }
    }

    /// The sensor after a reset at `now`: its initial state was set.
    pub open spec fn reset(self, now: int) -> SensorView {
        self.set_state(self.initial_state, now)
    }

    /// Whether at `now` the sensor is in `state` and has been since at least
    /// `duration` milliseconds.
    pub open spec fn triggered_for(self, duration: int, state: SensorState, now: int) -> bool {
        self.state == state && now - self.timestamp >= duration
    }
}

impl SensorView {
    /// After `state` was set at `then`, the sensor is triggered at `now` for
    /// exactly the states and durations that it has held since: it is
    /// triggered for `asked` and `duration` if and only if `asked` is the
    /// state that was set and at least `duration` has passed since `then`.
    pub proof fn lemma_triggered_since_set(
        self,
        state: SensorState,
        then: int,
        duration: int,
        asked: SensorState,
        now: int,
    )
        ensures
            self.set_state(state, then).triggered_for(duration, asked, now) <==> (asked == state
                && now - then >= duration),
    {
    }

    /// Setting a state leaves one more event on the sensor's channel, and
    /// nothing else of the sensor changes but the state and its instant.
    pub proof fn lemma_set_state_sends_once(self, state: SensorState, now: int)
        ensures
            self.set_state(state, now).events.len() == self.events.len() + 1,
            self.set_state(state, now).events.last() == self.uid(),
            self.set_state(state, now).uid() == self.uid(),
            self.set_state(state, now).initial_state == self.initial_state,
            self.set_state(state, now).distance == self.distance,
    {
    }
}

impl Sensor {
    /// A sensor of group `group` in its initial state since `now`.
    pub fn new(
        group: GroupId,
        id: ComponentId,
        initial_state: SensorState,
        distance: i32,
        now: i64,
    ) -> (sensor: Self)
        ensures
            sensor@ == SensorView::fresh(group, id, initial_state, distance as int, now as int),
    {
        Self {
            group,
            id,
            state: initial_state,
            initial_state,
            timestamp: now,
            events: Vec::new(),
            distance,
        }
    }

    /// The group that the sensor belongs to.
    pub fn group(&self) -> (group: GroupId)
        ensures
            group == self@.group,
    {
        self.group
    }

    /// The identifier of the sensor within its group.
    pub fn id(&self) -> (id: ComponentId)
        ensures
            id == self@.id,
    {
        self.id
    }

    /// The identifier of the sensor within the installation.
    pub fn uid(&self) -> (uid: ComponentUid)
        ensures
            uid == self@.uid(),
    {
        ComponentUid { group_id: self.group, component_id: self.id }
    }

    /// The current state.
    pub fn state(&self) -> (state: SensorState)
        ensures
            state == self@.state,
    {
        self.state
    }

    /// The state that a reset sets.
    pub fn initial_state(&self) -> (state: SensorState)
        ensures
            state == self@.initial_state,
    {
        self.initial_state
    }

    /// The instant at which the state was last set.
    pub fn timestamp(&self) -> (timestamp: i64)
        ensures
            timestamp == self@.timestamp,
    {
        self.timestamp
    }

    /// The events on the sensor's channel that nobody has taken out yet.
    pub fn receiver(&self) -> (events: &Vec<ComponentUid>)
        ensures
            events@ == self@.events,
    {
        &self.events
    }

    /// Takes the pending events out of the sensor's channel.
    pub fn take_events(&mut self) -> (events: Vec<ComponentUid>)
        ensures
            events@ == old(self)@.events,
            final(self)@ == (SensorView { events: Seq::empty(), ..old(self)@ }),
    {
        let mut events: Vec<ComponentUid> = Vec::new();
        std::mem::swap(&mut self.events, &mut events);
        events
    }

    /// Writes the state and the instant, and sends nothing.
    pub fn set_state_internal(&mut self, state: SensorState, now: i64)
        ensures
            final(self)@ == old(self)@.set_state_internal(state, now as int),
    {
        self.state = state;
        self.timestamp = now;
    }

    /// Sets the state at `now`, and tells the sensor's own channel, the
    /// channels of its group and those of its intersection, once each.
    pub fn set_state(
        &mut self,
        state: SensorState,
        now: i64,
        group: &mut GroupChannels,
        intersection: &mut IntersectionChannels,
    )
        ensures
            final(self)@ == old(self)@.set_state(state, now as int),
            final(group)@ == old(group)@.send_actuator(old(self)@.uid()),
            final(intersection)@ == old(intersection)@.send_state(old(self)@.uid()),
            final(intersection)@.notifications == old(intersection)@.notifications.push(
                Notification::StateUpdated(old(self)@.uid()),
            ),
    {
        self.set_state_internal(state, now);
        let uid = self.uid();
        self.events.push(uid);
        group.send_actuator(uid, intersection);
    }

    /// Sets the initial state at `now`, as [`Sensor::set_state`] does.
    pub fn reset(
        &mut self,
        now: i64,
        group: &mut GroupChannels,
        intersection: &mut IntersectionChannels,
    )
        ensures
            final(self)@ == old(self)@.reset(now as int),
            final(group)@ == old(group)@.send_actuator(old(self)@.uid()),
            final(intersection)@ == old(intersection)@.send_state(old(self)@.uid()),
    {
        let initial = self.initial_state;
        self.set_state(initial, now, group, intersection);
    }

    /// Whether at `now` the sensor is in `state` and has been since at least
    /// `duration` milliseconds.
    pub fn triggered_for(&self, duration: u64, state: SensorState, now: i64) -> (triggered: bool)
        ensures
            triggered == self@.triggered_for(duration as int, state, now as int),
    {
        self.state == state && now as i128 - self.timestamp as i128 >= duration as i128
    }

    /// A sensor of group `group`, made at the instant that the wall clock
    /// shows.
    pub fn new_now(group: GroupId, id: ComponentId, initial_state: SensorState, distance: i32) -> (sensor:
        Self)
        ensures
            exists|now: i64|
                sensor@ == #[trigger] SensorView::fresh(
                    group,
                    id,
                    initial_state,
                    distance as int,
                    now as int,
                ),
    {
        let now = crate::clock::utc_now_millis();
        Self::new(group, id, initial_state, distance, now)
    }

    /// Writes the state and the instant that the wall clock shows, and sends
    /// nothing.
    pub fn set_state_internal_now(&mut self, state: SensorState)
        ensures
            exists|now: i64|
                final(self)@ == #[trigger] old(self)@.set_state_internal(state, now as int),
    {
        let now = crate::clock::utc_now_millis();
        self.set_state_internal(state, now);
    }

    /// Sets the state at the instant that the wall clock shows, as
    /// [`Sensor::set_state`] does.
    pub fn set_state_now(
        &mut self,
        state: SensorState,
        group: &mut GroupChannels,
        intersection: &mut IntersectionChannels,
    )
        ensures
            exists|now: i64| final(self)@ == #[trigger] old(self)@.set_state(state, now as int),
            final(group)@ == old(group)@.send_actuator(old(self)@.uid()),
            final(intersection)@ == old(intersection)@.send_state(old(self)@.uid()),
    {
        let now = crate::clock::utc_now_millis();
        self.set_state(state, now, group, intersection);
    }

    /// Sets the initial state at the instant that the wall clock shows, as
    /// [`Sensor::reset`] does.
    pub fn reset_now(&mut self, group: &mut GroupChannels, intersection: &mut IntersectionChannels)
        ensures
            exists|now: i64| final(self)@ == #[trigger] old(self)@.reset(now as int),
            final(group)@ == old(group)@.send_actuator(old(self)@.uid()),
            final(intersection)@ == old(intersection)@.send_state(old(self)@.uid()),
    {
        let now = crate::clock::utc_now_millis();
        self.reset(now, group, intersection);
    }

    /// Whether, at the instant that the wall clock shows, the sensor is in
    /// `state` and has been since at least `duration` milliseconds.
    pub fn triggered_for_now(&self, duration: u64, state: SensorState) -> (triggered: bool)
        ensures
            exists|now: i64|
                triggered == #[trigger] self@.triggered_for(duration as int, state, now as int),
            triggered ==> self@.state == state,
    {
        let now = crate::clock::utc_now_millis();
        self.triggered_for(duration, state, now)
    }
}

impl Component<SensorState> for Sensor {
    open spec fn current(&self) -> SensorState {
        self@.state
    }

    open spec fn initial(&self) -> SensorState {
        self@.initial_state
    }

    open spec fn since(&self) -> int {
        self@.timestamp
    }

    open spec fn identity(&self) -> ComponentUid {
        self@.uid()
    }

    open spec fn pending(&self) -> Seq<ComponentUid> {
        self@.events
    }

    fn receiver(&self) -> (events: &Vec<ComponentUid>) {
        &self.events
    }

    fn group(&self) -> (group: GroupId) {
        self.group
    }

    fn state(&self) -> (state: SensorState) {
        self.state
    }

    fn initial_state(&self) -> (state: SensorState) {
        self.initial_state
    }

    fn set_state_internal(&mut self, state: SensorState, now: i64)
        ensures
            final(self)@ == old(self)@.set_state_internal(state, now as int),
    {
        self.state = state;
        self.timestamp = now;
    }

    fn timestamp(&self) -> (timestamp: i64) {
        self.timestamp
    }

    fn id(&self) -> (id: ComponentId) {
        self.id
    }

    fn set_state(
        &mut self,
        state: SensorState,
        now: i64,
        group: &mut GroupChannels,
        intersection: &mut IntersectionChannels,
    )
        ensures
            final(self)@ == old(self)@.set_state(state, now as int),
    {
        Sensor::set_state(self, state, now, group, intersection);
    }

    fn uid(&self) -> (uid: ComponentUid) {
        ComponentUid { group_id: self.group, component_id: self.id }
    }

    fn reset(
        &mut self,
        now: i64,
        group: &mut GroupChannels,
        intersection: &mut IntersectionChannels,
    )
        ensures
            final(self)@ == old(self)@.reset(now as int),
    {
        Sensor::reset(self, now, group, intersection);
    }

    fn triggered_for(&self, duration: u64, state: SensorState, now: i64) -> (triggered: bool) {
        Sensor::triggered_for(self, duration, state, now)
    }
}

} // verus!
