//! Actuators: lights, gates and decks, each with a state type of its own.
use crate::intersections::component::{Component, ComponentId, ComponentState, ComponentUid};
use crate::intersections::group::{GroupChannels, GroupId};
use crate::intersections::intersection::{IntersectionChannels, Notification};
use vstd::prelude::*;

verus! {

/// The text of an alias, where there is one.
pub open spec fn alias_text(alias: Option<String>) -> Option<Seq<char>> {
    match alias {
        Some(a) => Some(a@),
        None => None,
    }
}

/// An actuator of a group, with states of type `S`.
///
/// `timestamp` is the instant of the last call that set the state, in
/// milliseconds since the Unix epoch. `events` is the actuator's own channel:
/// one entry for every such call that nobody has taken out yet.
pub struct Actuator<S: ComponentState> {
    pub group: GroupId,
    pub id: ComponentId,
    pub alias: Option<String>,
    pub state: S,
    pub initial_state: S,
    pub timestamp: i64,
    pub events: Vec<ComponentUid>,
}

/// The mathematical value of an [`Actuator`].
pub struct ActuatorView<S> {
    pub group: GroupId,
    pub id: ComponentId,
    pub alias: Option<Seq<char>>,
    pub state: S,
    pub initial_state: S,
    pub timestamp: int,
    pub events: Seq<ComponentUid>,
}

impl<S: ComponentState> View for Actuator<S> {
    type V = ActuatorView<S>;

    open spec fn view(&self) -> ActuatorView<S> {
        ActuatorView {
            group: self.group,
            id: self.id,
            alias: alias_text(self.alias),
            state: self.state,
            initial_state: self.initial_state,
            timestamp: self.timestamp as int,
            events: self.events@,
        }
    }
}

impl<S: ComponentState> ActuatorView<S> {
    /// An actuator as it is made: in its initial state since `now`, with
    /// nothing on its channel.
    pub open spec fn fresh(
        group: GroupId,
        id: ComponentId,
        alias: Option<Seq<char>>,
        initial_state: S,
        now: int,
    ) -> ActuatorView<S> {
        ActuatorView {
            group,
            id,
            alias,
            state: initial_state,
            initial_state,
            timestamp: now,
            events: Seq::empty(),
        }
    }

    /// The identifier of the actuator within the installation.
    pub open spec fn uid(self) -> ComponentUid {
        ComponentUid { group_id: self.group, component_id: self.id }
    }

    /// The actuator with state `state` since `now`; nothing is sent.
    pub open spec fn set_state_internal(self, state: S, now: int) -> ActuatorView<S> {
        ActuatorView { state, timestamp: now, ..self }
    }

    /// The actuator after `state` was set at `now`: the state and the instant
    /// change together, and one event goes onto the actuator's channel.
    pub open spec fn set_state(self, state: S, now: int) -> ActuatorView<S> {
        ActuatorView { state, timestamp: now, events: self.events.push(self.uid()), ..self }
    }

    /// The actuator after a reset at `now`: its initial state was set.
    pub open spec fn reset(self, now: int) -> ActuatorView<S> {
        self.set_state(self.initial_state, now)
    }

    /// Whether at `now` the actuator is in `state` and has been since at least
    /// `duration` milliseconds.
    pub open spec fn triggered_for(self, duration: int, state: S, now: int) -> bool {
        self.state == state && now - self.timestamp >= duration
    }
}

impl<S: ComponentState> ActuatorView<S> {
    /// After `state` was set at `then`, the actuator is triggered at `now`
    /// for exactly the states and durations that it has held since: it is
    /// triggered for `asked` and `duration` if and only if `asked` is the
    /// state that was set and at least `duration` has passed since `then`.
    pub proof fn lemma_triggered_since_set(
        self,
        state: S,
        then: int,
        duration: int,
        asked: S,
        now: int,
    )
        ensures
            self.set_state(state, then).triggered_for(duration, asked, now) <==> (asked == state
                && now - then >= duration),
    {
    }

    /// Setting a state leaves one more event on the actuator's channel, and
    /// nothing else of the actuator changes but the state and its instant.
    pub proof fn lemma_set_state_sends_once(self, state: S, now: int)
        ensures
            self.set_state(state, now).events.len() == self.events.len() + 1,
            self.set_state(state, now).events.last() == self.uid(),
            self.set_state(state, now).uid() == self.uid(),
            self.set_state(state, now).initial_state == self.initial_state,
            self.set_state(state, now).alias == self.alias,
    {
    }
}

impl<S: ComponentState> Actuator<S> {
    /// An actuator of group `group` in its initial state since `now`.
    pub fn new(
        group: GroupId,
        id: ComponentId,
        alias: Option<String>,
        initial_state: S,
        now: i64,
    ) -> (actuator: Self)
        ensures
            actuator@ == ActuatorView::fresh(
                group,
                id,
                alias_text(alias),
                initial_state,
                now as int,
            ),
    {
        Self {
            group,
            id,
            alias,
            state: initial_state,
            initial_state,
            timestamp: now,
            events: Vec::new(),
        }
    }

    /// The group that the actuator belongs to.
    pub fn group(&self) -> (group: GroupId)
        ensures
            group == self@.group,
    {
        self.group
    }

    /// The identifier of the actuator within its group.
    pub fn id(&self) -> (id: ComponentId)
        ensures
            id == self@.id,
    {
        self.id
    }

    /// The identifier of the actuator within the installation.
    pub fn uid(&self) -> (uid: ComponentUid)
        ensures
            uid == self@.uid(),
    {
        ComponentUid { group_id: self.group, component_id: self.id }
    }

    /// The current state.
    pub fn state(&self) -> (state: S)
        ensures
            state == self@.state,
    {
        self.state
    }

    /// The state that a reset sets.
    pub fn initial_state(&self) -> (state: S)
        ensures
            state == self@.initial_state,
    {
        self.initial_state
    }

    /// The instant at which the state was last set.
    pub fn timestamp(&self) -> (timestamp: i64)
        ensures
            timestamp == self@.timestamp,
    {
        self.timestamp
    }

    /// The events on the actuator's channel that nobody has taken out yet.
    pub fn receiver(&self) -> (events: &Vec<ComponentUid>)
        ensures
            events@ == self@.events,
    {
        &self.events
    }

    /// Takes the pending events out of the actuator's channel.
    pub fn take_events(&mut self) -> (events: Vec<ComponentUid>)
        ensures
            events@ == old(self)@.events,
            final(self)@ == (ActuatorView { events: Seq::empty(), ..old(self)@ }),
    {
        let mut events: Vec<ComponentUid> = Vec::new();
        std::mem::swap(&mut self.events, &mut events);
        events
    }

    /// Writes the state and the instant, and sends nothing.
    pub fn set_state_internal(&mut self, state: S, now: i64)
        ensures
            final(self)@ == old(self)@.set_state_internal(state, now as int),
    {
        self.state = state;
        self.timestamp = now;
    }

    /// Sets the state at `now`, and tells the actuator's own channel, the
    /// channels of its group and those of its intersection, once each.
    pub fn set_state(
        &mut self,
        state: S,
        now: i64,
        group: &mut GroupChannels,
        intersection: &mut IntersectionChannels,
    )
        ensures
            final(self)@ == old(self)@.set_state(state, now as int),
            final(group)@ == old(group)@.send_actuator(old(self)@.uid()),
            final(intersection)@ == old(intersection)@.send_state(old(self)@.uid()),
            final(intersection)@.notifications == old(intersection)@.notifications.push(
                Notification::StateUpdated(old(self)@.uid()),
            ),
    {
        self.set_state_internal(state, now);
        let uid = self.uid();
        self.events.push(uid);
        group.send_actuator(uid, intersection);
    }

    /// Sets the initial state at `now`, as [`Actuator::set_state`] does.
    pub fn reset(
        &mut self,
        now: i64,
        group: &mut GroupChannels,
        intersection: &mut IntersectionChannels,
    )
        ensures
            final(self)@ == old(self)@.reset(now as int),
            final(group)@ == old(group)@.send_actuator(old(self)@.uid()),
            final(intersection)@ == old(intersection)@.send_state(old(self)@.uid()),
    {
        let initial = self.initial_state;
        self.set_state(initial, now, group, intersection);
    }

    /// Whether at `now` the actuator is in `state` and has been since at least
    /// `duration` milliseconds.
    pub fn triggered_for(&self, duration: u64, state: S, now: i64) -> (triggered: bool)
        ensures
            triggered == self@.triggered_for(duration as int, state, now as int),
    {
        self.state.same(state) && now as i128 - self.timestamp as i128 >= duration as i128
    }

    /// An actuator of group `group`, made at the instant that the wall clock
    /// shows.
    pub fn new_now(group: GroupId, id: ComponentId, alias: Option<String>, initial_state: S) -> (actuator:
        Self)
        ensures
            exists|now: i64|
                actuator@ == #[trigger] ActuatorView::fresh(
                    group,
                    id,
                    alias_text(alias),
                    initial_state,
                    now as int,
                ),
    {
        let now = crate::clock::utc_now_millis();
        Self::new(group, id, alias, initial_state, now)
    }

    /// Writes the state and the instant that the wall clock shows, and sends
    /// nothing.
    pub fn set_state_internal_now(&mut self, state: S)
        ensures
            exists|now: i64|
                final(self)@ == #[trigger] old(self)@.set_state_internal(state, now as int),
    {
        let now = crate::clock::utc_now_millis();
        self.set_state_internal(state, now);
    }

    /// Sets the state at the instant that the wall clock shows, as
    /// [`Actuator::set_state`] does.
    pub fn set_state_now(
        &mut self,
        state: S,
        group: &mut GroupChannels,
        intersection: &mut IntersectionChannels,
    )
        ensures
            exists|now: i64| final(self)@ == #[trigger] old(self)@.set_state(state, now as int),
            final(group)@ == old(group)@.send_actuator(old(self)@.uid()),
            final(intersection)@ == old(intersection)@.send_state(old(self)@.uid()),
    {
        let now = crate::clock::utc_now_millis();
        self.set_state(state, now, group, intersection);
    }

    /// Sets the initial state at the instant that the wall clock shows, as
    /// [`Actuator::reset`] does.
    pub fn reset_now(&mut self, group: &mut GroupChannels, intersection: &mut IntersectionChannels)
        ensures
            exists|now: i64| final(self)@ == #[trigger] old(self)@.reset(now as int),
            final(group)@ == old(group)@.send_actuator(old(self)@.uid()),
            final(intersection)@ == old(intersection)@.send_state(old(self)@.uid()),
    {
        let now = crate::clock::utc_now_millis();
        self.reset(now, group, intersection);
    }

    /// Whether, at the instant that the wall clock shows, the actuator is in
    /// `state` and has been since at least `duration` milliseconds.
    pub fn triggered_for_now(&self, duration: u64, state: S) -> (triggered: bool)
        ensures
            exists|now: i64|
                triggered == #[trigger] self@.triggered_for(duration as int, state, now as int),
            triggered ==> self@.state == state,
    {
        let now = crate::clock::utc_now_millis();
        self.triggered_for(duration, state, now)
    }
}

impl<S: ComponentState> Component<S> for Actuator<S> {
    open spec fn current(&self) -> S {
        self@.state
    }

    open spec fn initial(&self) -> S {
        self@.initial_state
    }

    open spec fn since(&self) -> int {
        self@.timestamp
    }

    open spec fn identity(&self) -> ComponentUid {
        self@.uid()
    }

    open spec fn pending(&self) -> Seq<ComponentUid> {
        self@.events
    }

    fn receiver(&self) -> (events: &Vec<ComponentUid>) {
        &self.events
    }

    fn group(&self) -> (group: GroupId) {
        self.group
    }

    fn state(&self) -> (state: S) {
        self.state
    }

    fn initial_state(&self) -> (state: S) {
        self.initial_state
    }

    fn set_state_internal(&mut self, state: S, now: i64)
        ensures
            final(self)@ == old(self)@.set_state_internal(state, now as int),
    {
        self.state = state;
        self.timestamp = now;
    }

    fn timestamp(&self) -> (timestamp: i64) {
        self.timestamp
    }

    fn id(&self) -> (id: ComponentId) {
        self.id
    }

    fn set_state(
        &mut self,
        state: S,
        now: i64,
        group: &mut GroupChannels,
        intersection: &mut IntersectionChannels,
    )
        ensures
            final(self)@ == old(self)@.set_state(state, now as int),
    {
        Actuator::<S>::set_state(self, state, now, group, intersection);
    }

    fn uid(&self) -> (uid: ComponentUid) {
        ComponentUid { group_id: self.group, component_id: self.id }
    }

    fn reset(
        &mut self,
        now: i64,
        group: &mut GroupChannels,
        intersection: &mut IntersectionChannels,
    )
        ensures
            final(self)@ == old(self)@.reset(now as int),
    {
        Actuator::<S>::reset(self, now, group, intersection);
    }

    fn triggered_for(&self, duration: u64, state: S, now: i64) -> (triggered: bool) {
        Actuator::<S>::triggered_for(self, duration, state, now)
    }
}

} // verus!
