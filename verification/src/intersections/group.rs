//! Groups: sensors and actuators that share a traffic modality and a number.
use crate::intersections::actuator::{Actuator, ActuatorView};
use crate::intersections::component::{ComponentId, ComponentKind, ComponentState, ComponentUid};
use crate::intersections::deck::DeckState;
use crate::intersections::gate::GateState;
use crate::intersections::intersection::IntersectionChannels;
use crate::intersections::light::LightState;
use crate::intersections::sensor::{Sensor, SensorState, SensorView};
use std::convert::TryFrom;
use vstd::prelude::*;
use vstd::std_specs::convert::TryFromSpecImpl;

verus! {

/// The error for a text that names no group kind.
#[derive(Debug)]
pub struct InvalidGroupKind {
    /// The text that was given.
    pub group_kind: String,
}

/// The traffic modality of a group.
#[derive(Clone, Copy, Debug, Eq, Hash, PartialEq, Structural)]
pub enum GroupKind {
    MotorVehicle,
    Cycle,
    Foot,
    Vessel,
    Bridge,
}

impl GroupKind {
    /// The lower-case name of the kind, as topics and configuration spell it.
    pub open spec fn text(self) -> Seq<char> {
        match self {
            GroupKind::MotorVehicle => "motor_vehicle"@,
            GroupKind::Cycle => "cycle"@,
            GroupKind::Foot => "foot"@,
            GroupKind::Vessel => "vessel"@,
            GroupKind::Bridge => "bridge"@,
        }
    }

    /// The kind that `s` names, if any.
    pub open spec fn named(s: Seq<char>) -> Option<GroupKind> {
        if s == "motor_vehicle"@ {
            Some(GroupKind::MotorVehicle)
        } else if s == "cycle"@ {
            Some(GroupKind::Cycle)
        } else if s == "foot"@ {
            Some(GroupKind::Foot)
        } else if s == "vessel"@ {
            Some(GroupKind::Vessel)
        } else if s == "bridge"@ {
            Some(GroupKind::Bridge)
        } else {
            None
        }
    }

    /// Every kind is named by its own text, which holds no `/`.
    pub proof fn lemma_text(self)
        ensures
            GroupKind::named(self.text()) == Some(self),
            !self.text().contains('/'),
    {
        reveal_strlit("motor_vehicle");
        reveal_strlit("cycle");
        reveal_strlit("foot");
        reveal_strlit("vessel");
        reveal_strlit("bridge");
        let t = self.text();
        assert(t.len() == 13 ==> t[0] == 'm');
        assert(t.len() == 5 ==> t[0] == 'c');
        assert(t.len() == 4 ==> t[0] == 'f');
        assert(t.len() == 6 ==> (t[0] == 'v' || t[0] == 'b'));
        if t.contains('/') {
            let i = choose|i: int| 0 <= i < t.len() && t[i] == '/';
            assert(t[i] == '/');
        }
    }

    /// A text names at most the kind whose text it is.
    pub proof fn lemma_named(s: Seq<char>)
        ensures
            GroupKind::named(s) matches Some(k) ==> k.text() == s,
    {
    }

    /// The lower-case name of the kind.
    pub fn as_str(&self) -> (s: &'static str)
        ensures
            s@ == self.text(),
    {
        match self {
            GroupKind::MotorVehicle => "motor_vehicle",
            GroupKind::Cycle => "cycle",
            GroupKind::Foot => "foot",
            GroupKind::Vessel => "vessel",
            GroupKind::Bridge => "bridge",
        }
    }

    /// The lower-case name of the kind, owned.
    pub fn to_string(&self) -> (s: String)
        ensures
            s@ == self.text(),
    {
        String::from_str(self.as_str())
    }

    /// Reads a kind from the characters of `chars` from `from` up to `to`.
    pub fn from_chars(chars: &Vec<char>, from: usize, to: usize) -> (kind: Option<GroupKind>)
        requires
            from <= to <= chars.len(),
        ensures
            kind == GroupKind::named(chars@.subrange(from as int, to as int)),
    {
        if crate::text::field_is(chars, from, to, "motor_vehicle") {
            Some(GroupKind::MotorVehicle)
        } else if crate::text::field_is(chars, from, to, "cycle") {
            Some(GroupKind::Cycle)
        } else if crate::text::field_is(chars, from, to, "foot") {
            Some(GroupKind::Foot)
        } else if crate::text::field_is(chars, from, to, "vessel") {
            Some(GroupKind::Vessel)
        } else if crate::text::field_is(chars, from, to, "bridge") {
            Some(GroupKind::Bridge)
        } else {
            None
        }
    }
}

impl<'a> TryFrom<&'a str> for GroupKind {
    type Error = InvalidGroupKind;

    /// Reads a kind from its lower-case name. Any other text is refused, and
    /// the error carries that text.
    fn try_from(value: &'a str) -> (kind: Result<Self, Self::Error>)
        ensures
            match kind {
                Ok(k) => GroupKind::named(value@) == Some(k),
                Err(e) => GroupKind::named(value@).is_none() && e.group_kind@ == value@,
            },
    {
        let chars = crate::text::chars_of(value);
        assert(chars@.subrange(0, chars@.len() as int) =~= value@);
        match GroupKind::from_chars(&chars, 0, chars.len()) {
            Some(k) => Ok(k),
            None => Err(InvalidGroupKind { group_kind: String::from_str(value) }),
        }
    }
}

impl<'a> TryFromSpecImpl<&'a str> for GroupKind {
    open spec fn obeys_try_from_spec() -> bool {
        false
    }

    open spec fn try_from_spec(v: &'a str) -> Result<Self, Self::Error> {
        arbitrary()
    }
}

/// The identifier of a group: its kind and its number.
#[derive(Clone, Copy, Debug, Eq, Hash, PartialEq, Structural)]
pub struct GroupId {
    pub kind: GroupKind,
    pub id: i32,
}

impl GroupId {
    /// The text of the identifier: `<kind>/<id>`.
    pub open spec fn text(self) -> Seq<char> {
        self.kind.text() + seq!['/'] + crate::text::int_text(self.id as int)
    }

    /// Appends the text of the identifier to `out`.
    pub fn push_to(&self, out: &mut String)
        ensures
            final(out)@ == old(out)@ + self.text(),
    {
        proof {
            reveal_strlit("/");
        }
        out.append(self.kind.as_str());
        out.append("/");
        crate::text::push_i32(out, self.id);
        assert(out@ =~= old(out)@ + self.text());
    }

    /// The text of the identifier: `<kind>/<id>`.
    pub fn to_string(&self) -> (s: String)
        ensures
            s@ == self.text(),
    {
        let mut s = String::new();
        self.push_to(&mut s);
        assert(s@ =~= self.text());
        s
    }
}

/// The position of the first entry of `ids` that equals `id`, or the length of
/// `ids` where there is none.
pub open spec fn position<T>(ids: Seq<T>, id: T) -> int
    decreases ids.len(),
{
    if ids.len() == 0 {
        0
    } else if ids[0] == id {
        0
    } else {
        1 + position(ids.drop_first(), id)
    }
}

/// `position` is the least index that holds `id`.
pub proof fn lemma_position<T>(ids: Seq<T>, id: T)
    ensures
        0 <= position(ids, id) <= ids.len(),
        position(ids, id) < ids.len() ==> ids[position(ids, id)] == id,
        forall|j: int| 0 <= j < position(ids, id) ==> ids[j] != id,
        ids.contains(id) <==> position(ids, id) < ids.len(),
    decreases ids.len(),
{
    if ids.len() > 0 && ids[0] != id {
        let rest = ids.drop_first();
        lemma_position(rest, id);
        assert forall|j: int| 0 <= j < position(ids, id) implies ids[j] != id by {
            if j > 0 {
                assert(rest[j - 1] == ids[j]);
            }
        }
        if ids.contains(id) {
            let k = choose|k: int| 0 <= k < ids.len() && ids[k] == id;
            assert(rest[k - 1] == id);
        }
        if position(rest, id) < rest.len() {
            assert(ids[position(rest, id) + 1] == id);
        }
    }
}

/// The index `i` is `position(ids, id)` where no earlier entry equals `id` and
/// either entry `i` does or `i` is the length.
pub proof fn lemma_position_is<T>(ids: Seq<T>, id: T, i: int)
    requires
        0 <= i <= ids.len(),
        forall|j: int| 0 <= j < i ==> ids[j] != id,
        i < ids.len() ==> ids[i] == id,
    ensures
        position(ids, id) == i,
{
    lemma_position(ids, id);
}

/// The channels of a group: for each, the events sent on it that nobody has
/// taken out yet, oldest first.
///
/// Every change of a component goes onto the channel of its kind and onto
/// `actuator`.
pub struct GroupChannels {
    pub sensor: Vec<ComponentUid>,
    pub light: Vec<ComponentUid>,
    pub gate: Vec<ComponentUid>,
    pub deck: Vec<ComponentUid>,
    pub actuator: Vec<ComponentUid>,
}

/// The mathematical value of [`GroupChannels`].
pub struct GroupChannelsView {
    pub sensor: Seq<ComponentUid>,
    pub light: Seq<ComponentUid>,
    pub gate: Seq<ComponentUid>,
    pub deck: Seq<ComponentUid>,
    pub actuator: Seq<ComponentUid>,
}

impl View for GroupChannels {
    type V = GroupChannelsView;

    open spec fn view(&self) -> GroupChannelsView {
        GroupChannelsView {
            sensor: self.sensor@,
            light: self.light@,
            gate: self.gate@,
            deck: self.deck@,
            actuator: self.actuator@,
        }
    }
}

impl GroupChannelsView {
    /// Channels on which nothing is pending.
    pub open spec fn empty() -> GroupChannelsView {
        GroupChannelsView {
            sensor: Seq::empty(),
            light: Seq::empty(),
            gate: Seq::empty(),
            deck: Seq::empty(),
            actuator: Seq::empty(),
        }
    }

    /// The channels after `uid` went onto the channel of its kind.
    pub open spec fn send(self, uid: ComponentUid) -> GroupChannelsView {
        match uid.component_id.kind {
            ComponentKind::Sensor => GroupChannelsView { sensor: self.sensor.push(uid), ..self },
            ComponentKind::Light => GroupChannelsView { light: self.light.push(uid), ..self },
            ComponentKind::Gate => GroupChannelsView { gate: self.gate.push(uid), ..self },
            ComponentKind::Deck => GroupChannelsView { deck: self.deck.push(uid), ..self },
        }
    }

    /// The channels after `uid` went onto the channel of its kind and onto
    /// `actuator`.
    pub open spec fn send_actuator(self, uid: ComponentUid) -> GroupChannelsView {
        GroupChannelsView { actuator: self.actuator.push(uid), ..self.send(uid) }
    }

    /// The channels after each of `uids` was sent as `send_actuator` does, in
    /// order.
    pub open spec fn send_actuators(self, uids: Seq<ComponentUid>) -> GroupChannelsView
        decreases uids.len(),
    {
        if uids.len() == 0 {
            self
        } else {
            self.send_actuators(uids.drop_last()).send_actuator(uids.last())
        }
    }
}

impl GroupChannels {
    /// Channels on which nothing is pending.
    pub fn new() -> (channels: Self)
        ensures
            channels@ == GroupChannelsView::empty(),
    {
        Self {
            sensor: Vec::new(),
            light: Vec::new(),
            gate: Vec::new(),
            deck: Vec::new(),
            actuator: Vec::new(),
        }
    }

    /// Tells the intersection that `uid` changed, then the channel of its kind.
    pub fn send(&mut self, uid: ComponentUid, intersection: &mut IntersectionChannels)
        ensures
            final(self)@ == old(self)@.send(uid),
            final(intersection)@ == old(intersection)@.send_state(uid),
    {
        intersection.send_state(uid);
        match uid.component_id.kind {
            ComponentKind::Sensor => self.sensor.push(uid),
            ComponentKind::Light => self.light.push(uid),
            ComponentKind::Gate => self.gate.push(uid),
            ComponentKind::Deck => self.deck.push(uid),
        }
    }

    /// As [`GroupChannels::send`], and then tells the `actuator` channel.
    pub fn send_actuator(&mut self, uid: ComponentUid, intersection: &mut IntersectionChannels)
        ensures
            final(self)@ == old(self)@.send_actuator(uid),
            final(intersection)@ == old(intersection)@.send_state(uid),
    {
        self.send(uid, intersection);
        self.actuator.push(uid);
    }
}

/// The values of the sensors in `sensors`, in order.
pub open spec fn sensor_views(sensors: Seq<Sensor>) -> Seq<SensorView> {
    sensors.map_values(|s: Sensor| s@)
}

/// The values of the actuators in `actuators`, in order.
pub open spec fn actuator_views<S: ComponentState>(actuators: Seq<Actuator<S>>) -> Seq<
    ActuatorView<S>,
> {
    actuators.map_values(|a: Actuator<S>| a@)
}

/// The identifiers within their group of `sensors`, in order.
pub open spec fn sensor_ids(sensors: Seq<SensorView>) -> Seq<ComponentId> {
    sensors.map_values(|s: SensorView| s.id)
}

/// The identifiers within their group of `actuators`, in order.
pub open spec fn actuator_ids<S: ComponentState>(actuators: Seq<ActuatorView<S>>) -> Seq<
    ComponentId,
> {
    actuators.map_values(|a: ActuatorView<S>| a.id)
}

/// The identifiers within the installation of `sensors`, in order.
pub open spec fn sensor_uids(sensors: Seq<SensorView>) -> Seq<ComponentUid> {
    sensors.map_values(|s: SensorView| s.uid())
}

/// The identifiers within the installation of `actuators`, in order.
pub open spec fn actuator_uids<S: ComponentState>(actuators: Seq<ActuatorView<S>>) -> Seq<
    ComponentUid,
> {
    actuators.map_values(|a: ActuatorView<S>| a.uid())
}

/// `sensors` after each was reset at `now`.
pub open spec fn sensors_reset(sensors: Seq<SensorView>, now: int) -> Seq<SensorView> {
    sensors.map_values(|s: SensorView| s.reset(now))
}

/// `actuators` after each was reset at `now`.
pub open spec fn actuators_reset<S: ComponentState>(
    actuators: Seq<ActuatorView<S>>,
    now: int,
) -> Seq<ActuatorView<S>> {
    actuators.map_values(|a: ActuatorView<S>| a.reset(now))
}

/// `list` with `sensor` in the place of the first sensor that has its
/// identifier, or at the end where there is none: what a map keyed by the
/// identifier would hold.
pub open spec fn sensors_with(list: Seq<SensorView>, sensor: SensorView) -> Seq<SensorView> {
    let p = position(sensor_ids(list), sensor.id);
    if p < list.len() {
        list.update(p, sensor)
    } else {
        list.push(sensor)
    }
}

/// `list` with `actuator` in the place of the first actuator that has its
/// identifier, or at the end where there is none.
pub open spec fn actuators_with<S: ComponentState>(
    list: Seq<ActuatorView<S>>,
    actuator: ActuatorView<S>,
) -> Seq<ActuatorView<S>> {
    let p = position(actuator_ids(list), actuator.id);
    if p < list.len() {
        list.update(p, actuator)
    } else {
        list.push(actuator)
    }
}

/// A group of one installation.
///
/// Each list of components stands for a map keyed by the component's
/// identifier: a lookup finds the first component with the identifier, and an
/// insertion replaces it. `blocks` lists the groups that must not proceed
/// together with this one, `concurrences` those that may.
pub struct Group {
    pub id: GroupId,
    pub can_be_blocked: bool,
    pub block: bool,
    pub sensors: Vec<Sensor>,
    pub lights: Vec<Actuator<LightState>>,
    pub gates: Vec<Actuator<GateState>>,
    pub decks: Vec<Actuator<DeckState>>,
    pub score: i32,
    pub blocks: Vec<GroupId>,
    pub concurrences: Vec<GroupId>,
    pub channels: GroupChannels,
}

/// The mathematical value of a [`Group`].
pub struct GroupView {
    pub id: GroupId,
    pub can_be_blocked: bool,
    pub block: bool,
    pub sensors: Seq<SensorView>,
    pub lights: Seq<ActuatorView<LightState>>,
    pub gates: Seq<ActuatorView<GateState>>,
    pub decks: Seq<ActuatorView<DeckState>>,
    pub score: int,
    pub blocks: Seq<GroupId>,
    pub concurrences: Seq<GroupId>,
    pub channels: GroupChannelsView,
}

impl View for Group {
    type V = GroupView;

    open spec fn view(&self) -> GroupView {
        GroupView {
            id: self.id,
            can_be_blocked: self.can_be_blocked,
            block: self.block,
            sensors: sensor_views(self.sensors@),
            lights: actuator_views(self.lights@),
            gates: actuator_views(self.gates@),
            decks: actuator_views(self.decks@),
            score: self.score as int,
            blocks: self.blocks@,
            concurrences: self.concurrences@,
            channels: self.channels@,
        }
    }
}

impl GroupView {
    /// A group as it is made: unblocked, without components, with score 0 and
    /// nothing pending.
    pub open spec fn fresh(id: GroupId, can_be_blocked: bool) -> GroupView {
        GroupView {
            id,
            can_be_blocked,
            block: false,
            sensors: Seq::empty(),
            lights: Seq::empty(),
            gates: Seq::empty(),
            decks: Seq::empty(),
            score: 0,
            blocks: Seq::empty(),
            concurrences: Seq::empty(),
            channels: GroupChannelsView::empty(),
        }
    }

    /// Where the sensor `id` stands in `sensors`, or their number.
    pub open spec fn sensor_position(self, id: ComponentId) -> int {
        position(sensor_ids(self.sensors), id)
    }

    /// Where the light `id` stands in `lights`, or their number.
    pub open spec fn light_position(self, id: ComponentId) -> int {
        position(actuator_ids(self.lights), id)
    }

    /// Where gate `id` stands in `gates`, or their number.
    pub open spec fn gate_position(self, id: ComponentId) -> int {
        position(actuator_ids(self.gates), id)
    }

    /// Where the deck `id` stands in `decks`, or their number.
    pub open spec fn deck_position(self, id: ComponentId) -> int {
        position(actuator_ids(self.decks), id)
    }

    /// Whether the group has a sensor `id`.
    pub open spec fn has_sensor(self, id: ComponentId) -> bool {
        self.sensor_position(id) < self.sensors.len()
    }

    /// Whether the group has a light `id`.
    pub open spec fn has_light(self, id: ComponentId) -> bool {
        self.light_position(id) < self.lights.len()
    }

    /// Whether the group has a gate `id`.
    pub open spec fn has_gate(self, id: ComponentId) -> bool {
        self.gate_position(id) < self.gates.len()
    }

    /// Whether the group has a deck `id`.
    pub open spec fn has_deck(self, id: ComponentId) -> bool {
        self.deck_position(id) < self.decks.len()
    }

    /// The sensor `id` of the group.
    pub open spec fn sensor(self, id: ComponentId) -> SensorView
        recommends
            self.has_sensor(id),
    {
        self.sensors[self.sensor_position(id)]
    }

    /// The light `id` of the group.
    pub open spec fn light(self, id: ComponentId) -> ActuatorView<LightState>
        recommends
            self.has_light(id),
    {
        self.lights[self.light_position(id)]
    }

    /// Gate `id` of the group.
    pub open spec fn gate(self, id: ComponentId) -> ActuatorView<GateState>
        recommends
            self.has_gate(id),
    {
        self.gates[self.gate_position(id)]
    }

    /// The deck `id` of the group.
    pub open spec fn deck(self, id: ComponentId) -> ActuatorView<DeckState>
        recommends
            self.has_deck(id),
    {
        self.decks[self.deck_position(id)]
    }

    /// The group after its sensor `id` was set to `state` at `now`; the group
    /// itself where it has no such sensor.
    pub open spec fn set_sensor_state(self, id: ComponentId, state: SensorState, now: int) -> GroupView {
        if self.has_sensor(id) {
            let p = self.sensor_position(id);
            GroupView {
                sensors: self.sensors.update(p, self.sensors[p].set_state(state, now)),
                channels: self.channels.send_actuator(self.sensors[p].uid()),
                ..self
            }
        } else {
            self
        }
    }

    /// The group after its light `id` was set to `state` at `now`; the group
    /// itself where it has no such light.
    pub open spec fn set_light_state(self, id: ComponentId, state: LightState, now: int) -> GroupView {
        if self.has_light(id) {
            let p = self.light_position(id);
            GroupView {
                lights: self.lights.update(p, self.lights[p].set_state(state, now)),
                channels: self.channels.send_actuator(self.lights[p].uid()),
                ..self
            }
        } else {
            self
        }
    }

    /// The group after its gate `id` was set to `state` at `now`; the group
    /// itself where it has no such gate.
    pub open spec fn set_gate_state(self, id: ComponentId, state: GateState, now: int) -> GroupView {
        if self.has_gate(id) {
            let p = self.gate_position(id);
            GroupView {
                gates: self.gates.update(p, self.gates[p].set_state(state, now)),
                channels: self.channels.send_actuator(self.gates[p].uid()),
                ..self
            }
        } else {
            self
        }
    }

    /// The group after its deck `id` was set to `state` at `now`; the group
    /// itself where it has no such deck.
    pub open spec fn set_deck_state(self, id: ComponentId, state: DeckState, now: int) -> GroupView {
        if self.has_deck(id) {
            let p = self.deck_position(id);
            GroupView {
                decks: self.decks.update(p, self.decks[p].set_state(state, now)),
                channels: self.channels.send_actuator(self.decks[p].uid()),
                ..self
            }
        } else {
            self
        }
    }

    /// Whether some sensor of the group is `High`.
    pub open spec fn one_sensor_high(self) -> bool {
        exists|i: int| 0 <= i < self.sensors.len() && (#[trigger] self.sensors[i]).state == SensorState::High
    }

    /// Whether this group lists the group `id` among those it blocks.
    pub open spec fn blocks_group(self, id: GroupId) -> bool {
        self.blocks.contains(id)
    }

    /// The components of the group in the order in which a reset takes them:
    /// sensors, lights, decks, gates.
    pub open spec fn reset_uids(self) -> Seq<ComponentUid> {
        sensor_uids(self.sensors) + actuator_uids(self.lights) + actuator_uids(self.decks)
            + actuator_uids(self.gates)
    }

    /// The group after every component was reset at `now`.
    pub open spec fn reset_all(self, now: int) -> GroupView {
        GroupView {
            sensors: sensors_reset(self.sensors, now),
            lights: actuators_reset(self.lights, now),
            gates: actuators_reset(self.gates, now),
            decks: actuators_reset(self.decks, now),
            channels: self.channels.send_actuators(self.reset_uids()),
            ..self
        }
    }
}

impl GroupView {
    /// Whether every component of the group says of itself that it belongs
    /// to this group.
    pub open spec fn consistent(self) -> bool {
        &&& forall|i: int| 0 <= i < self.sensors.len() ==> (#[trigger] self.sensors[i]).group == self.id
        &&& forall|i: int| 0 <= i < self.lights.len() ==> (#[trigger] self.lights[i]).group == self.id
        &&& forall|i: int| 0 <= i < self.gates.len() ==> (#[trigger] self.gates[i]).group == self.id
        &&& forall|i: int| 0 <= i < self.decks.len() ==> (#[trigger] self.decks[i]).group == self.id
    }

    /// Whether no two sensors, no two lights, no two gates and no two decks
    /// of the group share an identifier.
    pub open spec fn distinct_components(self) -> bool {
        &&& forall|i: int, j: int|
            0 <= i < j < self.sensors.len() ==> (#[trigger] self.sensors[i]).id != (
            #[trigger] self.sensors[j]).id
        &&& forall|i: int, j: int|
            0 <= i < j < self.lights.len() ==> (#[trigger] self.lights[i]).id != (
            #[trigger] self.lights[j]).id
        &&& forall|i: int, j: int|
            0 <= i < j < self.gates.len() ==> (#[trigger] self.gates[i]).id != (
            #[trigger] self.gates[j]).id
        &&& forall|i: int, j: int|
            0 <= i < j < self.decks.len() ==> (#[trigger] self.decks[i]).id != (
            #[trigger] self.decks[j]).id
    }

    /// Whether the group is a map of its components: every component belongs
    /// to the group, and none is hidden behind another with its identifier.
    pub open spec fn well_formed(self) -> bool {
        self.consistent() && self.distinct_components()
    }

    /// Whether `other` has the same identifier, components with the same
    /// identifiers in the same order, and the same groups that it blocks and
    /// that may run together with it.
    pub open spec fn same_ids(self, other: GroupView) -> bool {
        &&& self.id == other.id
        &&& self.blocks == other.blocks
        &&& self.concurrences == other.concurrences
        &&& sensor_uids(self.sensors) == sensor_uids(other.sensors)
        &&& actuator_uids(self.lights) == actuator_uids(other.lights)
        &&& actuator_uids(self.gates) == actuator_uids(other.gates)
        &&& actuator_uids(self.decks) == actuator_uids(other.decks)
    }

    /// What holds of the identifiers of one group holds of those of a group
    /// with the same identifiers.
    proof fn lemma_same_ids_carry(self, other: GroupView)
        requires
            self.same_ids(other),
        ensures
            self.sensors.len() == other.sensors.len(),
            self.lights.len() == other.lights.len(),
            self.gates.len() == other.gates.len(),
            self.decks.len() == other.decks.len(),
            self.consistent() ==> other.consistent(),
            self.distinct_components() ==> other.distinct_components(),
    {
        let su = sensor_uids(self.sensors);
        let lu = actuator_uids(self.lights);
        let gu = actuator_uids(self.gates);
        let du = actuator_uids(self.decks);
        let sv = sensor_uids(other.sensors);
        let lv = actuator_uids(other.lights);
        let gv = actuator_uids(other.gates);
        let dv = actuator_uids(other.decks);
        assert(su.len() == sv.len() && lu.len() == lv.len() && gu.len() == gv.len() && du.len()
            == dv.len());
        assert forall|i: int| 0 <= i < other.sensors.len() implies (#[trigger] other.sensors[i]).uid()
            == self.sensors[i].uid() by {
            assert(su[i] == sv[i]);
        }
        assert forall|i: int| 0 <= i < other.lights.len() implies (#[trigger] other.lights[i]).uid()
            == self.lights[i].uid() by {
            assert(lu[i] == lv[i]);
        }
        assert forall|i: int| 0 <= i < other.gates.len() implies (#[trigger] other.gates[i]).uid()
            == self.gates[i].uid() by {
            assert(gu[i] == gv[i]);
        }
        assert forall|i: int| 0 <= i < other.decks.len() implies (#[trigger] other.decks[i]).uid()
            == self.decks[i].uid() by {
            assert(du[i] == dv[i]);
        }
        if self.consistent() {
            assert forall|i: int| 0 <= i < other.sensors.len() implies (
            #[trigger] other.sensors[i]).group == other.id by {
                assert(self.sensors[i].group == self.id);
            }
            assert forall|i: int| 0 <= i < other.lights.len() implies (
            #[trigger] other.lights[i]).group == other.id by {
                assert(self.lights[i].group == self.id);
            }
            assert forall|i: int| 0 <= i < other.gates.len() implies (
            #[trigger] other.gates[i]).group == other.id by {
                assert(self.gates[i].group == self.id);
            }
            assert forall|i: int| 0 <= i < other.decks.len() implies (
            #[trigger] other.decks[i]).group == other.id by {
                assert(self.decks[i].group == self.id);
            }
        }
        if self.distinct_components() {
            assert forall|i: int, j: int| 0 <= i < j < other.sensors.len() implies (
            #[trigger] other.sensors[i]).id != (#[trigger] other.sensors[j]).id by {
                assert(self.sensors[i].id != self.sensors[j].id);
            }
            assert forall|i: int, j: int| 0 <= i < j < other.lights.len() implies (
            #[trigger] other.lights[i]).id != (#[trigger] other.lights[j]).id by {
                assert(self.lights[i].id != self.lights[j].id);
            }
            assert forall|i: int, j: int| 0 <= i < j < other.gates.len() implies (
            #[trigger] other.gates[i]).id != (#[trigger] other.gates[j]).id by {
                assert(self.gates[i].id != self.gates[j].id);
            }
            assert forall|i: int, j: int| 0 <= i < j < other.decks.len() implies (
            #[trigger] other.decks[i]).id != (#[trigger] other.decks[j]).id by {
                assert(self.decks[i].id != self.decks[j].id);
            }
        }
    }

    /// Groups with the same identifiers are well formed together and hold the
    /// same components under the same identifiers.
    pub proof fn lemma_same_ids(self, other: GroupView)
        requires
            self.same_ids(other),
        ensures
            self.well_formed() == other.well_formed(),
            self.consistent() == other.consistent(),
            sensor_ids(self.sensors) == sensor_ids(other.sensors),
            actuator_ids(self.lights) == actuator_ids(other.lights),
            actuator_ids(self.gates) == actuator_ids(other.gates),
            actuator_ids(self.decks) == actuator_ids(other.decks),
            self.reset_uids() == other.reset_uids(),
    {
        self.lemma_same_ids_carry(other);
        other.lemma_same_ids_carry(self);
        assert forall|i: int| 0 <= i < self.sensors.len() implies sensor_ids(self.sensors)[i]
            == sensor_ids(other.sensors)[i] by {
            assert(sensor_uids(self.sensors)[i] == sensor_uids(other.sensors)[i]);
        }
        assert forall|i: int| 0 <= i < self.lights.len() implies actuator_ids(self.lights)[i]
            == actuator_ids(other.lights)[i] by {
            assert(actuator_uids(self.lights)[i] == actuator_uids(other.lights)[i]);
        }
        assert forall|i: int| 0 <= i < self.gates.len() implies actuator_ids(self.gates)[i]
            == actuator_ids(other.gates)[i] by {
            assert(actuator_uids(self.gates)[i] == actuator_uids(other.gates)[i]);
        }
        assert forall|i: int| 0 <= i < self.decks.len() implies actuator_ids(self.decks)[i]
            == actuator_ids(other.decks)[i] by {
            assert(actuator_uids(self.decks)[i] == actuator_uids(other.decks)[i]);
        }
        assert(sensor_ids(self.sensors) =~= sensor_ids(other.sensors));
        assert(actuator_ids(self.lights) =~= actuator_ids(other.lights));
        assert(actuator_ids(self.gates) =~= actuator_ids(other.gates));
        assert(actuator_ids(self.decks) =~= actuator_ids(other.decks));
    }

    /// In a well-formed group every component is found under its own
    /// identifier.
    pub proof fn lemma_components_found(self)
        requires
            self.well_formed(),
        ensures
            forall|i: int|
                0 <= i < self.sensors.len() ==> self.sensor_position(
                    (#[trigger] self.sensors[i]).id,
                ) == i,
            forall|i: int|
                0 <= i < self.lights.len() ==> self.light_position((#[trigger] self.lights[i]).id)
                    == i,
            forall|i: int|
                0 <= i < self.gates.len() ==> self.gate_position((#[trigger] self.gates[i]).id)
                    == i,
            forall|i: int|
                0 <= i < self.decks.len() ==> self.deck_position((#[trigger] self.decks[i]).id)
                    == i,
    {
        assert forall|i: int| 0 <= i < self.sensors.len() implies self.sensor_position(
            (#[trigger] self.sensors[i]).id,
        ) == i by {
            let ids = sensor_ids(self.sensors);
            assert forall|j: int| 0 <= j < i implies ids[j] != self.sensors[i].id by {
                assert(self.sensors[j].id != self.sensors[i].id);
            }
            lemma_position_is(ids, self.sensors[i].id, i);
        }
        assert forall|i: int| 0 <= i < self.lights.len() implies self.light_position(
            (#[trigger] self.lights[i]).id,
        ) == i by {
            let ids = actuator_ids(self.lights);
            assert forall|j: int| 0 <= j < i implies ids[j] != self.lights[i].id by {
                assert(self.lights[j].id != self.lights[i].id);
            }
            lemma_position_is(ids, self.lights[i].id, i);
        }
        assert forall|i: int| 0 <= i < self.gates.len() implies self.gate_position(
            (#[trigger] self.gates[i]).id,
        ) == i by {
            let ids = actuator_ids(self.gates);
            assert forall|j: int| 0 <= j < i implies ids[j] != self.gates[i].id by {
                assert(self.gates[j].id != self.gates[i].id);
            }
            lemma_position_is(ids, self.gates[i].id, i);
        }
        assert forall|i: int| 0 <= i < self.decks.len() implies self.deck_position(
            (#[trigger] self.decks[i]).id,
        ) == i by {
            let ids = actuator_ids(self.decks);
            assert forall|j: int| 0 <= j < i implies ids[j] != self.decks[i].id by {
                assert(self.decks[j].id != self.decks[i].id);
            }
            lemma_position_is(ids, self.decks[i].id, i);
        }
    }

    /// Setting states, writing the score and blocking change no identifier.
    pub proof fn lemma_ids_kept(self, id: ComponentId, now: int)
        ensures
            forall|state: SensorState| #[trigger]
                self.set_sensor_state(id, state, now).same_ids(self),
            forall|state: LightState| #[trigger]
                self.set_light_state(id, state, now).same_ids(self),
            forall|state: GateState| #[trigger] self.set_gate_state(id, state, now).same_ids(self),
            forall|state: DeckState| #[trigger] self.set_deck_state(id, state, now).same_ids(self),
            self.reset_all(now).same_ids(self),
    {
        lemma_position(sensor_ids(self.sensors), id);
        lemma_position(actuator_ids(self.lights), id);
        lemma_position(actuator_ids(self.gates), id);
        lemma_position(actuator_ids(self.decks), id);
        assert forall|state: SensorState| #[trigger]
            self.set_sensor_state(id, state, now).same_ids(self) by {
            assert(sensor_uids(self.set_sensor_state(id, state, now).sensors) =~= sensor_uids(
                self.sensors,
            ));
        }
        assert forall|state: LightState| #[trigger]
            self.set_light_state(id, state, now).same_ids(self) by {
            assert(actuator_uids(self.set_light_state(id, state, now).lights) =~= actuator_uids(
                self.lights,
            ));
        }
        assert forall|state: GateState| #[trigger]
            self.set_gate_state(id, state, now).same_ids(self) by {
            assert(actuator_uids(self.set_gate_state(id, state, now).gates) =~= actuator_uids(
                self.gates,
            ));
        }
        assert forall|state: DeckState| #[trigger]
            self.set_deck_state(id, state, now).same_ids(self) by {
            assert(actuator_uids(self.set_deck_state(id, state, now).decks) =~= actuator_uids(
                self.decks,
            ));
        }
        assert(sensor_uids(self.reset_all(now).sensors) =~= sensor_uids(self.sensors));
        assert(actuator_uids(self.reset_all(now).lights) =~= actuator_uids(self.lights));
        assert(actuator_uids(self.reset_all(now).gates) =~= actuator_uids(self.gates));
        assert(actuator_uids(self.reset_all(now).decks) =~= actuator_uids(self.decks));
    }

    /// Setting a sensor leaves every other component of the group as it is.
    pub proof fn lemma_set_sensor_state_frame(
        self,
        id: ComponentId,
        state: SensorState,
        now: int,
        other: ComponentId,
    )
        ensures
            self.set_sensor_state(id, state, now).lights == self.lights,
            self.set_sensor_state(id, state, now).gates == self.gates,
            self.set_sensor_state(id, state, now).decks == self.decks,
            self.set_sensor_state(id, state, now).id == self.id,
            self.set_sensor_state(id, state, now).has_sensor(other) == self.has_sensor(other),
            other != id && self.has_sensor(other) ==> self.set_sensor_state(id, state, now).sensor(other)
                == self.sensor(other),
    {
        let ids = sensor_ids(self.sensors);
        lemma_position(ids, id);
        lemma_position(ids, other);
        let after = self.set_sensor_state(id, state, now);
        assert(sensor_ids(after.sensors) =~= ids);
    }

    /// Setting a light leaves every other component of the group as it is.
    pub proof fn lemma_set_light_state_frame(
        self,
        id: ComponentId,
        state: LightState,
        now: int,
        other: ComponentId,
    )
        ensures
            self.set_light_state(id, state, now).sensors == self.sensors,
            self.set_light_state(id, state, now).gates == self.gates,
            self.set_light_state(id, state, now).decks == self.decks,
            self.set_light_state(id, state, now).id == self.id,
            self.set_light_state(id, state, now).has_light(other) == self.has_light(other),
            other != id && self.has_light(other) ==> self.set_light_state(id, state, now).light(other)
                == self.light(other),
    {
        let ids = actuator_ids(self.lights);
        lemma_position(ids, id);
        lemma_position(ids, other);
        let after = self.set_light_state(id, state, now);
        assert(actuator_ids(after.lights) =~= ids);
    }

    /// Setting a gate leaves every other component of the group as it is.
    pub proof fn lemma_set_gate_state_frame(
        self,
        id: ComponentId,
        state: GateState,
        now: int,
        other: ComponentId,
    )
        ensures
            self.set_gate_state(id, state, now).sensors == self.sensors,
            self.set_gate_state(id, state, now).lights == self.lights,
            self.set_gate_state(id, state, now).decks == self.decks,
            self.set_gate_state(id, state, now).id == self.id,
            self.set_gate_state(id, state, now).has_gate(other) == self.has_gate(other),
            other != id && self.has_gate(other) ==> self.set_gate_state(id, state, now).gate(other)
                == self.gate(other),
    {
        let ids = actuator_ids(self.gates);
        lemma_position(ids, id);
        lemma_position(ids, other);
        let after = self.set_gate_state(id, state, now);
        assert(actuator_ids(after.gates) =~= ids);
    }

    /// Setting a deck leaves every other component of the group as it is.
    pub proof fn lemma_set_deck_state_frame(
        self,
        id: ComponentId,
        state: DeckState,
        now: int,
        other: ComponentId,
    )
        ensures
            self.set_deck_state(id, state, now).sensors == self.sensors,
            self.set_deck_state(id, state, now).lights == self.lights,
            self.set_deck_state(id, state, now).gates == self.gates,
            self.set_deck_state(id, state, now).id == self.id,
            self.set_deck_state(id, state, now).has_deck(other) == self.has_deck(other),
            other != id && self.has_deck(other) ==> self.set_deck_state(id, state, now).deck(other)
                == self.deck(other),
    {
        let ids = actuator_ids(self.decks);
        lemma_position(ids, id);
        lemma_position(ids, other);
        let after = self.set_deck_state(id, state, now);
        assert(actuator_ids(after.decks) =~= ids);
    }

    /// A sensor that is found under an identifier has that identifier.
    pub proof fn lemma_sensor_found(self, id: ComponentId)
        requires
            self.has_sensor(id),
        ensures
            0 <= self.sensor_position(id) < self.sensors.len(),
            self.sensor(id).id == id,
    {
        lemma_position(sensor_ids(self.sensors), id);
    }

    /// A light that is found under an identifier has that identifier.
    pub proof fn lemma_light_found(self, id: ComponentId)
        requires
            self.has_light(id),
        ensures
            0 <= self.light_position(id) < self.lights.len(),
            self.light(id).id == id,
    {
        lemma_position(actuator_ids(self.lights), id);
    }

    /// A gate that is found under an identifier has that identifier.
    pub proof fn lemma_gate_found(self, id: ComponentId)
        requires
            self.has_gate(id),
        ensures
            0 <= self.gate_position(id) < self.gates.len(),
            self.gate(id).id == id,
    {
        lemma_position(actuator_ids(self.gates), id);
    }

    /// A deck that is found under an identifier has that identifier.
    pub proof fn lemma_deck_found(self, id: ComponentId)
        requires
            self.has_deck(id),
        ensures
            0 <= self.deck_position(id) < self.decks.len(),
            self.deck(id).id == id,
    {
        lemma_position(actuator_ids(self.decks), id);
    }

    /// After a sensor was set it is found under the same identifier, with the
    /// state that was set and the instant at which it was set.
    pub proof fn lemma_set_sensor_state(self, id: ComponentId, state: SensorState, now: int)
        requires
            self.has_sensor(id),
        ensures
            self.set_sensor_state(id, state, now).has_sensor(id),
            self.set_sensor_state(id, state, now).sensor(id) == self.sensor(id).set_state(
                state,
                now,
            ),
            self.set_sensor_state(id, state, now).id == self.id,
            self.consistent() ==> self.set_sensor_state(id, state, now).consistent(),
    {
        self.lemma_sensor_found(id);
        let after = self.set_sensor_state(id, state, now);
        assert(sensor_ids(after.sensors) =~= sensor_ids(self.sensors));
    }

    /// After a light was set it is found under the same identifier, with the
    /// state that was set and the instant at which it was set.
    pub proof fn lemma_set_light_state(self, id: ComponentId, state: LightState, now: int)
        requires
            self.has_light(id),
        ensures
            self.set_light_state(id, state, now).has_light(id),
            self.set_light_state(id, state, now).light(id) == self.light(id).set_state(state, now),
            self.set_light_state(id, state, now).id == self.id,
            self.consistent() ==> self.set_light_state(id, state, now).consistent(),
    {
        self.lemma_light_found(id);
        let after = self.set_light_state(id, state, now);
        assert(actuator_ids(after.lights) =~= actuator_ids(self.lights));
    }

    /// After a gate was set it is found under the same identifier, with the
    /// state that was set and the instant at which it was set.
    pub proof fn lemma_set_gate_state(self, id: ComponentId, state: GateState, now: int)
        requires
            self.has_gate(id),
        ensures
            self.set_gate_state(id, state, now).has_gate(id),
            self.set_gate_state(id, state, now).gate(id) == self.gate(id).set_state(state, now),
            self.set_gate_state(id, state, now).id == self.id,
            self.consistent() ==> self.set_gate_state(id, state, now).consistent(),
    {
        self.lemma_gate_found(id);
        let after = self.set_gate_state(id, state, now);
        assert(actuator_ids(after.gates) =~= actuator_ids(self.gates));
    }

    /// After a deck was set it is found under the same identifier, with the
    /// state that was set and the instant at which it was set.
    pub proof fn lemma_set_deck_state(self, id: ComponentId, state: DeckState, now: int)
        requires
            self.has_deck(id),
        ensures
            self.set_deck_state(id, state, now).has_deck(id),
            self.set_deck_state(id, state, now).deck(id) == self.deck(id).set_state(state, now),
            self.set_deck_state(id, state, now).id == self.id,
            self.consistent() ==> self.set_deck_state(id, state, now).consistent(),
    {
        self.lemma_deck_found(id);
        let after = self.set_deck_state(id, state, now);
        assert(actuator_ids(after.decks) =~= actuator_ids(self.decks));
    }
}

/// Sending `a + b` is sending `a` and then `b`.
pub proof fn lemma_send_actuators_add(
    channels: GroupChannelsView,
    a: Seq<ComponentUid>,
    b: Seq<ComponentUid>,
)
    ensures
        channels.send_actuators(a + b) == channels.send_actuators(a).send_actuators(b),
    decreases b.len(),
{
    if b.len() == 0 {
        assert(a + b =~= a);
    } else {
        lemma_send_actuators_add(channels, a, b.drop_last());
        assert((a + b).drop_last() =~= a + b.drop_last());
        assert((a + b).last() == b.last());
    }
}

/// Where `id` stands in `sensors`, or their number.
fn sensor_position(sensors: &Vec<Sensor>, id: ComponentId) -> (p: usize)
    ensures
        p == position(sensor_ids(sensor_views(sensors@)), id),
        p <= sensors.len(),
{
    let ghost ids = sensor_ids(sensor_views(sensors@));
    let mut i: usize = 0;
    while i < sensors.len()
        invariant
            i <= sensors.len(),
            ids == sensor_ids(sensor_views(sensors@)),
            forall|j: int| 0 <= j < i ==> ids[j] != id,
        decreases sensors.len() - i,
    {
        if sensors[i].id == id {
            proof {
                lemma_position_is(ids, id, i as int);
            }
            return i;
        }
        i += 1;
    }
    proof {
        lemma_position_is(ids, id, i as int);
    }
    i
}

/// Where `id` stands in `actuators`, or their number.
fn actuator_position<S: ComponentState>(actuators: &Vec<Actuator<S>>, id: ComponentId) -> (p:
    usize)
    ensures
        p == position(actuator_ids(actuator_views(actuators@)), id),
        p <= actuators.len(),
{
    let ghost ids = actuator_ids(actuator_views(actuators@));
    let mut i: usize = 0;
    while i < actuators.len()
        invariant
            i <= actuators.len(),
            ids == actuator_ids(actuator_views(actuators@)),
            forall|j: int| 0 <= j < i ==> ids[j] != id,
        decreases actuators.len() - i,
    {
        if actuators[i].id == id {
            proof {
                lemma_position_is(ids, id, i as int);
            }
            return i;
        }
        i += 1;
    }
    proof {
        lemma_position_is(ids, id, i as int);
    }
    i
}

/// Resets every sensor of `sensors` at `now`, first to last.
fn reset_sensors(
    sensors: &mut Vec<Sensor>,
    now: i64,
    group: &mut GroupChannels,
    intersection: &mut IntersectionChannels,
)
    ensures
        sensor_views(final(sensors)@) == sensors_reset(sensor_views(old(sensors)@), now as int),
        final(group)@ == old(group)@.send_actuators(sensor_uids(sensor_views(old(sensors)@))),
        final(intersection)@ == old(intersection)@.send_states(
            sensor_uids(sensor_views(old(sensors)@)),
        ),
{
    let ghost before = sensor_views(sensors@);
    let ghost uids = sensor_uids(before);
    let mut i: usize = 0;
    assert(uids.take(0) =~= Seq::<ComponentUid>::empty());
    while i < sensors.len()
        invariant
            i <= sensors.len(),
            sensors.len() == before.len(),
            before == sensor_views(old(sensors)@),
            uids == sensor_uids(before),
            forall|j: int| 0 <= j < i ==> (#[trigger] sensors@[j])@ == before[j].reset(now as int),
            forall|j: int| i <= j < sensors.len() ==> (#[trigger] sensors@[j])@ == before[j],
            group@ == old(group)@.send_actuators(uids.take(i as int)),
            intersection@ == old(intersection)@.send_states(uids.take(i as int)),
        decreases sensors.len() - i,
    {
        sensors[i].reset(now, group, intersection);
        proof {
            assert(uids.take(i + 1).drop_last() =~= uids.take(i as int));
            assert(uids.take(i + 1).last() == before[i as int].uid());
        }
        i += 1;
    }
    assert(uids.take(i as int) =~= uids);
    assert(sensor_views(sensors@) =~= sensors_reset(before, now as int));
}

/// Resets every actuator of `actuators` at `now`, first to last.
fn reset_actuators<S: ComponentState>(
    actuators: &mut Vec<Actuator<S>>,
    now: i64,
    group: &mut GroupChannels,
    intersection: &mut IntersectionChannels,
)
    ensures
        actuator_views(final(actuators)@) == actuators_reset(
            actuator_views(old(actuators)@),
            now as int,
        ),
        final(group)@ == old(group)@.send_actuators(
            actuator_uids(actuator_views(old(actuators)@)),
        ),
        final(intersection)@ == old(intersection)@.send_states(
            actuator_uids(actuator_views(old(actuators)@)),
        ),
{
    let ghost before = actuator_views(actuators@);
    let ghost uids = actuator_uids(before);
    let mut i: usize = 0;
    assert(uids.take(0) =~= Seq::<ComponentUid>::empty());
    while i < actuators.len()
        invariant
            i <= actuators.len(),
            actuators.len() == before.len(),
            before == actuator_views(old(actuators)@),
            uids == actuator_uids(before),
            forall|j: int| 0 <= j < i ==> (#[trigger] actuators@[j])@ == before[j].reset(now as int),
            forall|j: int| i <= j < actuators.len() ==> (#[trigger] actuators@[j])@ == before[j],
            group@ == old(group)@.send_actuators(uids.take(i as int)),
            intersection@ == old(intersection)@.send_states(uids.take(i as int)),
        decreases actuators.len() - i,
    {
        actuators[i].reset(now, group, intersection);
        proof {
            assert(uids.take(i + 1).drop_last() =~= uids.take(i as int));
            assert(uids.take(i + 1).last() == before[i as int].uid());
        }
        i += 1;
    }
    assert(uids.take(i as int) =~= uids);
    assert(actuator_views(actuators@) =~= actuators_reset(before, now as int));
}

impl Group {
    /// A group without components: unblocked, with score 0 and nothing pending.
    pub fn new(id: GroupId, can_be_blocked: bool) -> (group: Self)
        ensures
            group@ == GroupView::fresh(id, can_be_blocked),
    {
        let group = Self {
            id,
            can_be_blocked,
            block: false,
            sensors: Vec::new(),
            lights: Vec::new(),
            gates: Vec::new(),
            decks: Vec::new(),
            score: 0,
            blocks: Vec::new(),
            concurrences: Vec::new(),
            channels: GroupChannels::new(),
        };
        assert(group@.sensors =~= Seq::empty());
        assert(group@.lights =~= Seq::empty());
        assert(group@.gates =~= Seq::empty());
        assert(group@.decks =~= Seq::empty());
        group
    }

    /// Adds `block` to the groups that this one blocks.
    pub fn push_block(&mut self, block: GroupId)
        ensures
            final(self)@ == (GroupView { blocks: old(self)@.blocks.push(block), ..old(self)@ }),
    {
        self.blocks.push(block);
    }

    /// Adds `concurrent` to the groups that may proceed together with this one.
    pub fn push_concurrent(&mut self, concurrent: GroupId)
        ensures
            final(self)@ == (GroupView {
                concurrences: old(self)@.concurrences.push(concurrent),
                ..old(self)@
            }),
    {
        self.concurrences.push(concurrent);
    }

    /// The sensors of the group.
    pub fn sensors(&self) -> (sensors: &Vec<Sensor>)
        ensures
            sensor_views(sensors@) == self@.sensors,
    {
        &self.sensors
    }

    /// The sensor `id`, if the group has one.
    pub fn find_sensor(&self, id: ComponentId) -> (found: Option<&Sensor>)
        ensures
            found.is_some() == self@.has_sensor(id),
            found matches Some(sensor) ==> sensor@ == self@.sensor(id),
    {
        let p = sensor_position(&self.sensors, id);
        if p < self.sensors.len() {
            Some(&self.sensors[p])
        } else {
            None
        }
    }

    /// The light `id`, if the group has one.
    pub fn find_light(&self, id: ComponentId) -> (found: Option<&Actuator<LightState>>)
        ensures
            found.is_some() == self@.has_light(id),
            found matches Some(light) ==> light@ == self@.light(id),
    {
        let p = actuator_position(&self.lights, id);
        if p < self.lights.len() {
            Some(&self.lights[p])
        } else {
            None
        }
    }

    /// Gate `id`, if the group has one.
    pub fn find_gate(&self, id: ComponentId) -> (found: Option<&Actuator<GateState>>)
        ensures
            found.is_some() == self@.has_gate(id),
            found matches Some(gate) ==> gate@ == self@.gate(id),
    {
        let p = actuator_position(&self.gates, id);
        if p < self.gates.len() {
            Some(&self.gates[p])
        } else {
            None
        }
    }

    /// The deck `id`, if the group has one.
    pub fn find_deck(&self, id: ComponentId) -> (found: Option<&Actuator<DeckState>>)
        ensures
            found.is_some() == self@.has_deck(id),
            found matches Some(deck) ==> deck@ == self@.deck(id),
    {
        let p = actuator_position(&self.decks, id);
        if p < self.decks.len() {
            Some(&self.decks[p])
        } else {
            None
        }
    }

    /// Puts `sensor` under its identifier: in the place of the sensor that has
    /// it, or at the end.
    pub fn insert_sensor(&mut self, sensor: Sensor)
        ensures
            final(self)@ == (GroupView {
                sensors: sensors_with(old(self)@.sensors, sensor@),
                ..old(self)@
            }),
    {
        let p = sensor_position(&self.sensors, sensor.id);
        if p < self.sensors.len() {
            self.sensors[p] = sensor;
        } else {
            self.sensors.push(sensor);
        }
        assert(self@.sensors =~= sensors_with(old(self)@.sensors, sensor@));
    }

    /// Puts `light` under its identifier: in the place of the light that has
    /// it, or at the end.
    pub fn insert_light(&mut self, light: Actuator<LightState>)
        ensures
            final(self)@ == (GroupView {
                lights: actuators_with(old(self)@.lights, light@),
                ..old(self)@
            }),
    {
        let p = actuator_position(&self.lights, light.id);
        if p < self.lights.len() {
            self.lights[p] = light;
        } else {
            self.lights.push(light);
        }
        assert(self@.lights =~= actuators_with(old(self)@.lights, light@));
    }

    /// Puts `gate` under its identifier: in the place of a gate that has it,
    /// or at the end.
    pub fn insert_gate(&mut self, gate: Actuator<GateState>)
        ensures
            final(self)@ == (GroupView {
                gates: actuators_with(old(self)@.gates, gate@),
                ..old(self)@
            }),
    {
        let p = actuator_position(&self.gates, gate.id);
        if p < self.gates.len() {
            self.gates[p] = gate;
        } else {
            self.gates.push(gate);
        }
        assert(self@.gates =~= actuators_with(old(self)@.gates, gate@));
    }

    /// Puts `deck` under its identifier: in the place of the deck that has it,
    /// or at the end.
    pub fn insert_deck(&mut self, deck: Actuator<DeckState>)
        ensures
            final(self)@ == (GroupView {
                decks: actuators_with(old(self)@.decks, deck@),
                ..old(self)@
            }),
    {
        let p = actuator_position(&self.decks, deck.id);
        if p < self.decks.len() {
            self.decks[p] = deck;
        } else {
            self.decks.push(deck);
        }
        assert(self@.decks =~= actuators_with(old(self)@.decks, deck@));
    }

    /// Sets the sensor `id` to `state` at `now` and sends its change. Says
    /// whether the group has such a sensor; where it has none, nothing changes.
    pub fn set_sensor_state(
        &mut self,
        id: ComponentId,
        state: SensorState,
        now: i64,
        intersection: &mut IntersectionChannels,
    ) -> (found: bool)
        ensures
            found == old(self)@.has_sensor(id),
            final(self)@ == old(self)@.set_sensor_state(id, state, now as int),
            final(intersection)@ == if found {
                old(intersection)@.send_state(old(self)@.sensor(id).uid())
            } else {
                old(intersection)@
            },
    {
        let p = sensor_position(&self.sensors, id);
        if p < self.sensors.len() {
            self.sensors[p].set_state(state, now, &mut self.channels, intersection);
            assert(self@.sensors =~= old(self)@.sensors.update(
                p as int,
                old(self)@.sensors[p as int].set_state(state, now as int),
            ));
            true
        } else {
            false
        }
    }

    /// Sets the light `id` to `state` at `now` and sends its change. Says
    /// whether the group has such a light; where it has none, nothing changes.
    pub fn set_light_state(
        &mut self,
        id: ComponentId,
        state: LightState,
        now: i64,
        intersection: &mut IntersectionChannels,
    ) -> (found: bool)
        ensures
            found == old(self)@.has_light(id),
            final(self)@ == old(self)@.set_light_state(id, state, now as int),
            final(intersection)@ == if found {
                old(intersection)@.send_state(old(self)@.light(id).uid())
            } else {
                old(intersection)@
            },
    {
        let p = actuator_position(&self.lights, id);
        if p < self.lights.len() {
            self.lights[p].set_state(state, now, &mut self.channels, intersection);
            assert(self@.lights =~= old(self)@.lights.update(
                p as int,
                old(self)@.lights[p as int].set_state(state, now as int),
            ));
            true
        } else {
            false
        }
    }

    /// Sets gate `id` to `state` at `now` and sends its change. Says
    /// whether the group has such a gate; where it has none, nothing changes.
    pub fn set_gate_state(
        &mut self,
        id: ComponentId,
        state: GateState,
        now: i64,
        intersection: &mut IntersectionChannels,
    ) -> (found: bool)
        ensures
            found == old(self)@.has_gate(id),
            final(self)@ == old(self)@.set_gate_state(id, state, now as int),
            final(intersection)@ == if found {
                old(intersection)@.send_state(old(self)@.gate(id).uid())
            } else {
                old(intersection)@
            },
    {
        let p = actuator_position(&self.gates, id);
        if p < self.gates.len() {
            self.gates[p].set_state(state, now, &mut self.channels, intersection);
            assert(self@.gates =~= old(self)@.gates.update(
                p as int,
                old(self)@.gates[p as int].set_state(state, now as int),
            ));
            true
        } else {
            false
        }
    }

    /// Sets the deck `id` to `state` at `now` and sends its change. Says
    /// whether the group has such a deck; where it has none, nothing changes.
    pub fn set_deck_state(
        &mut self,
        id: ComponentId,
        state: DeckState,
        now: i64,
        intersection: &mut IntersectionChannels,
    ) -> (found: bool)
        ensures
            found == old(self)@.has_deck(id),
            final(self)@ == old(self)@.set_deck_state(id, state, now as int),
            final(intersection)@ == if found {
                old(intersection)@.send_state(old(self)@.deck(id).uid())
            } else {
                old(intersection)@
            },
    {
        let p = actuator_position(&self.decks, id);
        if p < self.decks.len() {
            self.decks[p].set_state(state, now, &mut self.channels, intersection);
            assert(self@.decks =~= old(self)@.decks.update(
                p as int,
                old(self)@.decks[p as int].set_state(state, now as int),
            ));
            true
        } else {
            false
        }
    }

    /// Sets every light of the group to `state` at `now`, first to last, and
    /// sends each change.
    pub fn set_lights(&mut self, state: LightState, now: i64, intersection: &mut IntersectionChannels)
        ensures
            final(self)@ == (GroupView {
                lights: old(self)@.lights.map_values(
                    |l: ActuatorView<LightState>| l.set_state(state, now as int),
                ),
                channels: old(self)@.channels.send_actuators(actuator_uids(old(self)@.lights)),
                ..old(self)@
            }),
            final(intersection)@ == old(intersection)@.send_states(
                actuator_uids(old(self)@.lights),
            ),
    {
        let ghost before = self@.lights;
        let ghost uids = actuator_uids(before);
        let mut i: usize = 0;
        assert(uids.take(0) =~= Seq::<ComponentUid>::empty());
        while i < self.lights.len()
            invariant
                i <= self.lights.len(),
                self.lights.len() == before.len(),
                before == old(self)@.lights,
                uids == actuator_uids(before),
                forall|j: int|
                    0 <= j < i ==> (#[trigger] self.lights@[j])@ == before[j].set_state(
                        state,
                        now as int,
                    ),
                forall|j: int| i <= j < self.lights.len() ==> (#[trigger] self.lights@[j])@ == before[j],
                self.channels@ == old(self)@.channels.send_actuators(uids.take(i as int)),
                intersection@ == old(intersection)@.send_states(uids.take(i as int)),
                self@ == (GroupView {
                    lights: self@.lights,
                    channels: self@.channels,
                    ..old(self)@
                }),
            decreases self.lights.len() - i,
        {
            self.lights[i].set_state(state, now, &mut self.channels, intersection);
            proof {
                assert(uids.take(i + 1).drop_last() =~= uids.take(i as int));
                assert(uids.take(i + 1).last() == before[i as int].uid());
            }
            i += 1;
        }
        assert(uids.take(i as int) =~= uids);
        assert(self@.lights =~= before.map_values(
            |l: ActuatorView<LightState>| l.set_state(state, now as int),
        ));
    }

    /// Writes the score and tells the intersection.
    pub fn set_score(&mut self, score: i32, intersection: &mut IntersectionChannels)
        ensures
            final(self)@ == (GroupView { score: score as int, ..old(self)@ }),
            final(intersection)@ == old(intersection)@.send_score(old(self)@.id),
    {
        self.score = score;
        intersection.send_score(self.id);
    }

    /// Writes 0 as the score and tells the intersection.
    pub fn reset_score(&mut self, intersection: &mut IntersectionChannels)
        ensures
            final(self)@ == (GroupView { score: 0, ..old(self)@ }),
            final(intersection)@ == old(intersection)@.send_score(old(self)@.id),
    {
        self.set_score(0, intersection);
    }

    /// Whether some sensor of the group is `High`.
    pub fn one_sensor_high(&self) -> (high: bool)
        ensures
            high == self@.one_sensor_high(),
    {
        let mut i: usize = 0;
        while i < self.sensors.len()
            invariant
                i <= self.sensors.len(),
                forall|j: int| 0 <= j < i ==> (#[trigger] self@.sensors[j]).state != SensorState::High,
            decreases self.sensors.len() - i,
        {
            if self.sensors[i].state == SensorState::High {
                assert(self@.sensors[i as int].state == SensorState::High);
                return true;
            }
            i += 1;
        }
        false
    }

    /// Whether this group lists the group `id` among those it blocks.
    pub fn blocks_group(&self, id: GroupId) -> (blocks: bool)
        ensures
            blocks == self@.blocks_group(id),
    {
        let mut i: usize = 0;
        while i < self.blocks.len()
            invariant
                i <= self.blocks.len(),
                forall|j: int| 0 <= j < i ==> self.blocks@[j] != id,
            decreases self.blocks.len() - i,
        {
            if self.blocks[i] == id {
                return true;
            }
            i += 1;
        }
        false
    }

    /// Resets every component of the group at `now`: sensors, lights, decks,
    /// gates, each list first to last, and sends each change.
    pub fn reset_all(&mut self, now: i64, intersection: &mut IntersectionChannels)
        ensures
            final(self)@ == old(self)@.reset_all(now as int),
            final(intersection)@ == old(intersection)@.send_states(old(self)@.reset_uids()),
    {
        let ghost before = self@;
        let ghost su = sensor_uids(before.sensors);
        let ghost lu = actuator_uids(before.lights);
        let ghost du = actuator_uids(before.decks);
        let ghost gu = actuator_uids(before.gates);
        reset_sensors(&mut self.sensors, now, &mut self.channels, intersection);
        reset_actuators(&mut self.lights, now, &mut self.channels, intersection);
        reset_actuators(&mut self.decks, now, &mut self.channels, intersection);
        reset_actuators(&mut self.gates, now, &mut self.channels, intersection);
        proof {
            lemma_send_actuators_add(before.channels, su, lu);
            lemma_send_actuators_add(before.channels, su + lu, du);
            lemma_send_actuators_add(before.channels, su + lu + du, gu);
            crate::intersections::intersection::lemma_send_states_add(old(intersection)@, su, lu);
            crate::intersections::intersection::lemma_send_states_add(
                old(intersection)@,
                su + lu,
                du,
            );
            crate::intersections::intersection::lemma_send_states_add(
                old(intersection)@,
                su + lu + du,
                gu,
            );
        }
    }

    /// Tells the intersection that `uid` changed, then the channel of its kind.
    pub fn send(&mut self, uid: ComponentUid, intersection: &mut IntersectionChannels)
        ensures
            final(self)@ == (GroupView { channels: old(self)@.channels.send(uid), ..old(self)@ }),
            final(intersection)@ == old(intersection)@.send_state(uid),
    {
        self.channels.send(uid, intersection);
    }

    /// As [`Group::send`], and then tells the `actuator` channel.
    pub fn send_actuator(&mut self, uid: ComponentUid, intersection: &mut IntersectionChannels)
        ensures
            final(self)@ == (GroupView {
                channels: old(self)@.channels.send_actuator(uid),
                ..old(self)@
            }),
            final(intersection)@ == old(intersection)@.send_state(uid),
    {
        self.channels.send_actuator(uid, intersection);
    }
}

} // verus!
