//! Intersections: the groups of one installation and their channels.
use crate::intersections::actuator::{Actuator, ActuatorView};
use crate::intersections::component::{ComponentId, ComponentKind, ComponentUid};
use crate::intersections::deck::DeckState;
use crate::intersections::gate::GateState;
use crate::intersections::group::{
    actuator_uids, lemma_position, lemma_position_is, position, sensor_uids, Group, GroupId,
    GroupView,
};
use crate::intersections::light::LightState;
use crate::intersections::sensor::{Sensor, SensorState, SensorView};
use vstd::prelude::*;

verus! {

/// What an intersection tells the outside about.
#[derive(Clone, Copy, Debug, Eq, PartialEq, Structural)]
pub enum Notification {
    /// The state of a component was set.
    StateUpdated(ComponentUid),
    /// The score of a group was written.
    ScoreUpdated(GroupId),
}

/// The channels of an intersection: for each, what was sent on it and nobody
/// has taken out yet, oldest first.
///
/// `state` and `score` wake those that wait inside the installation;
/// `notifications` is the stream to the outside.
pub struct IntersectionChannels {
    pub state: Vec<ComponentUid>,
    pub score: Vec<GroupId>,
    pub notifications: Vec<Notification>,
}

/// The mathematical value of [`IntersectionChannels`].
pub struct IntersectionChannelsView {
    pub state: Seq<ComponentUid>,
    pub score: Seq<GroupId>,
    pub notifications: Seq<Notification>,
}

impl View for IntersectionChannels {
    type V = IntersectionChannelsView;

    open spec fn view(&self) -> IntersectionChannelsView {
        IntersectionChannelsView {
            state: self.state@,
            score: self.score@,
            notifications: self.notifications@,
        }
    }
}

impl IntersectionChannelsView {
    /// Channels on which nothing is pending.
    pub open spec fn empty() -> IntersectionChannelsView {
        IntersectionChannelsView {
            state: Seq::empty(),
            score: Seq::empty(),
            notifications: Seq::empty(),
        }
    }

    /// The channels after a change of `uid` was sent: once on `state`, once as
    /// a notification.
    pub open spec fn send_state(self, uid: ComponentUid) -> IntersectionChannelsView {
        IntersectionChannelsView {
            state: self.state.push(uid),
            notifications: self.notifications.push(Notification::StateUpdated(uid)),
            ..self
        }
    }

    /// The channels after a new score of `id` was sent: once on `score`, once
    /// as a notification.
    pub open spec fn send_score(self, id: GroupId) -> IntersectionChannelsView {
        IntersectionChannelsView {
            score: self.score.push(id),
            notifications: self.notifications.push(Notification::ScoreUpdated(id)),
            ..self
        }
    }

    /// The channels after a change of each of `uids` was sent, in order.
    pub open spec fn send_states(self, uids: Seq<ComponentUid>) -> IntersectionChannelsView
        decreases uids.len(),
    {
        if uids.len() == 0 {
            self
        } else {
            self.send_states(uids.drop_last()).send_state(uids.last())
        }
    }
}

impl IntersectionChannels {
    /// Channels on which nothing is pending.
    pub fn new() -> (channels: Self)
        ensures
            channels@ == IntersectionChannelsView::empty(),
    {
        Self { state: Vec::new(), score: Vec::new(), notifications: Vec::new() }
    }

    /// Sends a change of `uid`: once on `state`, once as a notification.
    pub fn send_state(&mut self, uid: ComponentUid)
        ensures
            final(self)@ == old(self)@.send_state(uid),
    {
        self.state.push(uid);
        self.notifications.push(Notification::StateUpdated(uid));
    }

    /// Sends a new score of `id`: once on `score`, once as a notification.
    pub fn send_score(&mut self, id: GroupId)
        ensures
            final(self)@ == old(self)@.send_score(id),
    {
        self.score.push(id);
        self.notifications.push(Notification::ScoreUpdated(id));
    }
}

/// What sending the changes of `uids` leaves on the channels: the state
/// channel and the notifications grow by one entry for each, in order, and
/// the score channel stays.
pub proof fn lemma_send_states(channels: IntersectionChannelsView, uids: Seq<ComponentUid>)
    ensures
        channels.send_states(uids).state == channels.state + uids,
        channels.send_states(uids).score == channels.score,
        channels.send_states(uids).notifications == channels.notifications + uids.map_values(
            |uid: ComponentUid| Notification::StateUpdated(uid),
        ),
    decreases uids.len(),
{
    let told = |uid: ComponentUid| Notification::StateUpdated(uid);
    if uids.len() == 0 {
        assert(channels.state + uids =~= channels.state);
        assert(channels.notifications + uids.map_values(told) =~= channels.notifications);
    } else {
        lemma_send_states(channels, uids.drop_last());
        assert(channels.send_states(uids).state =~= channels.state + uids);
        assert(channels.send_states(uids).notifications =~= channels.notifications
            + uids.map_values(told));
    }
}

/// Sending `a + b` is sending `a` and then `b`.
pub proof fn lemma_send_states_add(
    channels: IntersectionChannelsView,
    a: Seq<ComponentUid>,
    b: Seq<ComponentUid>,
)
    ensures
        channels.send_states(a + b) == channels.send_states(a).send_states(b),
    decreases b.len(),
{
    if b.len() == 0 {
        assert(a + b =~= a);
    } else {
        lemma_send_states_add(channels, a, b.drop_last());
        assert((a + b).drop_last() =~= a + b.drop_last());
        assert((a + b).last() == b.last());
    }
}

/// The values of the groups in `groups`, in order.
pub open spec fn group_views(groups: Seq<Group>) -> Seq<GroupView> {
    groups.map_values(|g: Group| g@)
}

/// The identifiers of `groups`, in order.
pub open spec fn group_ids(groups: Seq<GroupView>) -> Seq<GroupId> {
    groups.map_values(|g: GroupView| g.id)
}

/// `list` with `group` in the place of the first group that has its
/// identifier, or at the end where there is none: what a map keyed by the
/// identifier would hold.
pub open spec fn groups_with(list: Seq<GroupView>, group: GroupView) -> Seq<GroupView> {
    let p = position(group_ids(list), group.id);
    if p < list.len() {
        list.update(p, group)
    } else {
        list.push(group)
    }
}

/// The identifiers of those among the first `n` of `groups` that are not
/// blocked, in order.
pub open spec fn unblocked_ids(groups: Seq<GroupView>, n: int) -> Seq<GroupId>
    decreases n,
{
    if n <= 0 {
        Seq::empty()
    } else if !groups[n - 1].block {
        unblocked_ids(groups, n - 1).push(groups[n - 1].id)
    } else {
        unblocked_ids(groups, n - 1)
    }
}

/// The identifiers of those among the first `n` of `groups` that can be
/// blocked, in order.
pub open spec fn blockable_ids(groups: Seq<GroupView>, n: int) -> Seq<GroupId>
    decreases n,
{
    if n <= 0 {
        Seq::empty()
    } else if groups[n - 1].can_be_blocked {
        blockable_ids(groups, n - 1).push(groups[n - 1].id)
    } else {
        blockable_ids(groups, n - 1)
    }
}

/// The sensors of the first `n` of `groups`, group by group.
pub open spec fn sensors_of(groups: Seq<GroupView>, n: int) -> Seq<ComponentUid>
    decreases n,
{
    if n <= 0 {
        Seq::empty()
    } else {
        sensors_of(groups, n - 1) + sensor_uids(groups[n - 1].sensors)
    }
}

/// The groups of one installation, with the channels on which their changes
/// are told.
///
/// `groups` stands for a map keyed by the group's identifier: a lookup finds
/// the first group with the identifier, and an insertion replaces it.
pub struct Intersection {
    pub alias: Option<String>,
    pub groups: Vec<Group>,
    pub channels: IntersectionChannels,
}

/// The mathematical value of an [`Intersection`].
pub struct IntersectionView {
    pub alias: Option<Seq<char>>,
    pub groups: Seq<GroupView>,
    pub channels: IntersectionChannelsView,
}

impl View for Intersection {
    type V = IntersectionView;

    open spec fn view(&self) -> IntersectionView {
        IntersectionView {
            alias: match self.alias {
                Some(a) => Some(a@),
                None => None,
            },
            groups: group_views(self.groups@),
            channels: self.channels@,
        }
    }
}

impl IntersectionView {
    /// An intersection as it is made: without groups, with nothing pending.
    pub open spec fn fresh(alias: Option<Seq<char>>) -> IntersectionView {
        IntersectionView { alias, groups: Seq::empty(), channels: IntersectionChannelsView::empty() }
    }

    /// Where the group `id` stands in `groups`, or their number.
    pub open spec fn group_position(self, id: GroupId) -> int {
        position(group_ids(self.groups), id)
    }

    /// Whether the intersection has a group `id`.
    pub open spec fn has_group(self, id: GroupId) -> bool {
        self.group_position(id) < self.groups.len()
    }

    /// The group `id` of the intersection.
    pub open spec fn group(self, id: GroupId) -> GroupView
        recommends
            self.has_group(id),
    {
        self.groups[self.group_position(id)]
    }

    /// Whether the intersection has a sensor `uid`.
    pub open spec fn has_sensor(self, uid: ComponentUid) -> bool {
        self.has_group(uid.group_id) && self.group(uid.group_id).has_sensor(uid.component_id)
    }

    /// Whether the intersection has a light `uid`.
    pub open spec fn has_light(self, uid: ComponentUid) -> bool {
        self.has_group(uid.group_id) && self.group(uid.group_id).has_light(uid.component_id)
    }

    /// Whether the intersection has a gate `uid`.
    pub open spec fn has_gate(self, uid: ComponentUid) -> bool {
        self.has_group(uid.group_id) && self.group(uid.group_id).has_gate(uid.component_id)
    }

    /// Whether the intersection has a deck `uid`.
    pub open spec fn has_deck(self, uid: ComponentUid) -> bool {
        self.has_group(uid.group_id) && self.group(uid.group_id).has_deck(uid.component_id)
    }

    /// The sensor `uid` of the intersection.
    pub open spec fn sensor(self, uid: ComponentUid) -> SensorView
        recommends
            self.has_sensor(uid),
    {
        self.group(uid.group_id).sensor(uid.component_id)
    }

    /// The light `uid` of the intersection.
    pub open spec fn light(self, uid: ComponentUid) -> ActuatorView<LightState>
        recommends
            self.has_light(uid),
    {
        self.group(uid.group_id).light(uid.component_id)
    }

    /// Gate `uid` of the intersection.
    pub open spec fn gate(self, uid: ComponentUid) -> ActuatorView<GateState>
        recommends
            self.has_gate(uid),
    {
        self.group(uid.group_id).gate(uid.component_id)
    }

    /// The deck `uid` of the intersection.
    pub open spec fn deck(self, uid: ComponentUid) -> ActuatorView<DeckState>
        recommends
            self.has_deck(uid),
    {
        self.group(uid.group_id).deck(uid.component_id)
    }

    /// The intersection with `group` in the place of the group `id`.
    pub open spec fn with_group_at(self, id: GroupId, group: GroupView) -> IntersectionView {
        IntersectionView { groups: self.groups.update(self.group_position(id), group), ..self }
    }

    /// The intersection after its sensor `uid` was set to `state` at `now`:
    /// the sensor changes, its group's channels and the intersection's are
    /// told. The intersection itself where it has no such sensor.
    pub open spec fn set_sensor_state(
        self,
        uid: ComponentUid,
        state: SensorState,
        now: int,
    ) -> IntersectionView {
        if self.has_sensor(uid) {
            let group = self.group(uid.group_id);
            IntersectionView {
                channels: self.channels.send_state(self.sensor(uid).uid()),
                ..self.with_group_at(
                    uid.group_id,
                    group.set_sensor_state(uid.component_id, state, now),
                )
            }
        } else {
            self
        }
    }

    /// The intersection after its light `uid` was set to `state` at `now`; the
    /// intersection itself where it has no such light.
    pub open spec fn set_light_state(
        self,
        uid: ComponentUid,
        state: LightState,
        now: int,
    ) -> IntersectionView {
        if self.has_light(uid) {
            let group = self.group(uid.group_id);
            IntersectionView {
                channels: self.channels.send_state(self.light(uid).uid()),
                ..self.with_group_at(
                    uid.group_id,
                    group.set_light_state(uid.component_id, state, now),
                )
            }
        } else {
            self
        }
    }

    /// The intersection after its gate `uid` was set to `state` at `now`; the
    /// intersection itself where it has no such gate.
    pub open spec fn set_gate_state(
        self,
        uid: ComponentUid,
        state: GateState,
        now: int,
    ) -> IntersectionView {
        if self.has_gate(uid) {
            let group = self.group(uid.group_id);
            IntersectionView {
                channels: self.channels.send_state(self.gate(uid).uid()),
                ..self.with_group_at(
                    uid.group_id,
                    group.set_gate_state(uid.component_id, state, now),
                )
            }
        } else {
            self
        }
    }

    /// The intersection after its deck `uid` was set to `state` at `now`; the
    /// intersection itself where it has no such deck.
    pub open spec fn set_deck_state(
        self,
        uid: ComponentUid,
        state: DeckState,
        now: int,
    ) -> IntersectionView {
        if self.has_deck(uid) {
            let group = self.group(uid.group_id);
            IntersectionView {
                channels: self.channels.send_state(self.deck(uid).uid()),
                ..self.with_group_at(
                    uid.group_id,
                    group.set_deck_state(uid.component_id, state, now),
                )
            }
        } else {
            self
        }
    }

    /// The intersection after every light of its group `id` was set to `state`
    /// at `now`; the intersection itself where it has no such group.
    pub open spec fn set_lights(self, id: GroupId, state: LightState, now: int) -> IntersectionView {
        if self.has_group(id) {
            let group = self.group(id);
            IntersectionView {
                channels: self.channels.send_states(actuator_uids(group.lights)),
                ..self.with_group_at(
                    id,
                    GroupView {
                        lights: group.lights.map_values(
                            |l: ActuatorView<LightState>| l.set_state(state, now),
                        ),
                        channels: group.channels.send_actuators(actuator_uids(group.lights)),
                        ..group
                    },
                )
            }
        } else {
            self
        }
    }

    /// The intersection after `score` was written as the score of its group
    /// `id` and told; the intersection itself where it has no such group.
    pub open spec fn set_score(self, id: GroupId, score: int) -> IntersectionView {
        if self.has_group(id) {
            let group = self.group(id);
            IntersectionView {
                channels: self.channels.send_score(group.id),
                ..self.with_group_at(id, GroupView { score, ..group })
            }
        } else {
            self
        }
    }

    /// The intersection with the group `id` blocked or not, as `block` says;
    /// the intersection itself where it has no such group.
    pub open spec fn set_block(self, id: GroupId, block: bool) -> IntersectionView {
        if self.has_group(id) {
            self.with_group_at(id, GroupView { block, ..self.group(id) })
        } else {
            self
        }
    }

    /// The intersection after its first `n` groups were reset at `now`, each
    /// with all its components and then its score.
    pub open spec fn reset_first(self, n: int, now: int) -> IntersectionView
        decreases n,
    {
        if n <= 0 {
            self
        } else {
            let before = self.reset_first(n - 1, now);
            let group = before.groups[n - 1];
            IntersectionView {
                groups: before.groups.update(
                    n - 1,
                    GroupView { score: 0, ..group.reset_all(now) },
                ),
                channels: before.channels.send_states(group.reset_uids()).send_score(group.id),
                ..before
            }
        }
    }

    /// The intersection after every group was reset at `now`.
    pub open spec fn reset_all(self, now: int) -> IntersectionView {
        self.reset_first(self.groups.len() as int, now)
    }
}

impl IntersectionView {
    /// Whether every component says of itself that it belongs to the group
    /// that holds it.
    pub open spec fn consistent(self) -> bool {
        forall|g: int| 0 <= g < self.groups.len() ==> (#[trigger] self.groups[g]).consistent()
    }

    /// Whether the intersection is a map of its groups and every group a map
    /// of its components: no two groups share an identifier, every component
    /// belongs to the group that holds it, no two components of one kind
    /// share an identifier within a group, and no group lists a group twice
    /// among those that may run together with it.
    pub open spec fn well_formed(self) -> bool {
        &&& self.distinct_ids()
        &&& self.distinct_concurrences()
        &&& forall|g: int| 0 <= g < self.groups.len() ==> (#[trigger] self.groups[g]).well_formed()
    }

    /// Whether the intersection holds a component `uid`, of whatever kind.
    pub open spec fn reachable(self, uid: ComponentUid) -> bool {
        self.has_sensor(uid) || self.has_light(uid) || self.has_gate(uid) || self.has_deck(uid)
    }

    /// Whether the intersection holds what `notification` is about.
    pub open spec fn knows(self, notification: Notification) -> bool {
        match notification {
            Notification::StateUpdated(uid) => self.reachable(uid),
            Notification::ScoreUpdated(id) => self.has_group(id),
        }
    }

    /// Whether everything that is pending on the channels of the intersection
    /// is about a component or a group that the intersection holds.
    pub open spec fn told_known(self) -> bool {
        &&& forall|k: int|
            0 <= k < self.channels.state.len() ==> self.reachable(#[trigger] self.channels.state[k])
        &&& forall|k: int|
            0 <= k < self.channels.score.len() ==> self.has_group(#[trigger] self.channels.score[k])
        &&& forall|k: int|
            0 <= k < self.channels.notifications.len() ==> self.knows(
                #[trigger] self.channels.notifications[k],
            )
    }

    /// What every intersection upholds once it is built: it is well formed,
    /// and whatever it has told is about something that it holds.
    pub open spec fn sound(self) -> bool {
        self.well_formed() && self.told_known()
    }

    /// Whether `other` has groups with the same identifiers in the same
    /// order, each with components with the same identifiers in the same
    /// order.
    pub open spec fn same_ids(self, other: IntersectionView) -> bool {
        &&& self.groups.len() == other.groups.len()
        &&& forall|g: int|
            0 <= g < self.groups.len() ==> (#[trigger] self.groups[g]).same_ids(other.groups[g])
    }

    /// Intersections with the same identifiers are well formed together and
    /// hold the same groups and components.
    pub proof fn lemma_same_ids(self, other: IntersectionView)
        requires
            self.same_ids(other),
        ensures
            other.same_ids(self),
            group_ids(self.groups) == group_ids(other.groups),
            self.well_formed() == other.well_formed(),
            self.consistent() == other.consistent(),
            forall|id: GroupId| #[trigger] self.has_group(id) == other.has_group(id),
            forall|uid: ComponentUid| #[trigger] self.has_sensor(uid) == other.has_sensor(uid),
            forall|uid: ComponentUid| #[trigger] self.has_light(uid) == other.has_light(uid),
            forall|uid: ComponentUid| #[trigger] self.has_gate(uid) == other.has_gate(uid),
            forall|uid: ComponentUid| #[trigger] self.has_deck(uid) == other.has_deck(uid),
            forall|uid: ComponentUid| #[trigger] self.reachable(uid) == other.reachable(uid),
            forall|n: Notification| #[trigger] self.knows(n) == other.knows(n),
    {
        assert forall|g: int| 0 <= g < other.groups.len() implies (
        #[trigger] other.groups[g]).same_ids(self.groups[g]) by {
            assert(self.groups[g].same_ids(other.groups[g]));
        }
        assert forall|g: int| 0 <= g < self.groups.len() implies group_ids(self.groups)[g]
            == group_ids(other.groups)[g] by {
            assert(self.groups[g].same_ids(other.groups[g]));
        }
        assert(group_ids(self.groups) =~= group_ids(other.groups));
        assert forall|g: int| 0 <= g < self.groups.len() implies (#[trigger] self.groups[g]).id
            == other.groups[g].id && self.groups[g].well_formed() == other.groups[g].well_formed()
            && self.groups[g].consistent() == other.groups[g].consistent() by {
            assert(self.groups[g].same_ids(other.groups[g]));
            self.groups[g].lemma_same_ids(other.groups[g]);
        }
        assert forall|g: int| 0 <= g < other.groups.len() implies (#[trigger] other.groups[g]).id
            == self.groups[g].id && self.groups[g].well_formed() == other.groups[g].well_formed()
            && self.groups[g].consistent() == other.groups[g].consistent() by {
            assert(self.groups[g].same_ids(other.groups[g]));
            self.groups[g].lemma_same_ids(other.groups[g]);
        }
        assert forall|uid: ComponentUid|
            self.has_sensor(uid) == other.has_sensor(uid) && self.has_light(uid) == other.has_light(
                uid,
            ) && self.has_gate(uid) == other.has_gate(uid) && self.has_deck(uid) == other.has_deck(
                uid,
            ) by {
            lemma_position(group_ids(self.groups), uid.group_id);
            if self.has_group(uid.group_id) {
                let p = self.group_position(uid.group_id);
                assert(self.groups[p].same_ids(other.groups[p]));
                self.groups[p].lemma_same_ids(other.groups[p]);
            }
        }
    }

    /// In a well-formed intersection every group is found under its own
    /// identifier, and every component under its own.
    pub proof fn lemma_components_reachable(self, g: int)
        requires
            self.well_formed(),
            0 <= g < self.groups.len(),
        ensures
            self.group_position(self.groups[g].id) == g,
            self.has_group(self.groups[g].id),
            self.group(self.groups[g].id) == self.groups[g],
            forall|i: int|
                0 <= i < self.groups[g].sensors.len() ==> self.has_sensor(
                    (#[trigger] self.groups[g].sensors[i]).uid(),
                ),
            forall|i: int|
                0 <= i < self.groups[g].lights.len() ==> self.has_light(
                    (#[trigger] self.groups[g].lights[i]).uid(),
                ),
            forall|i: int|
                0 <= i < self.groups[g].gates.len() ==> self.has_gate(
                    (#[trigger] self.groups[g].gates[i]).uid(),
                ),
            forall|i: int|
                0 <= i < self.groups[g].decks.len() ==> self.has_deck(
                    (#[trigger] self.groups[g].decks[i]).uid(),
                ),
            forall|k: int|
                0 <= k < self.groups[g].reset_uids().len() ==> self.reachable(
                    #[trigger] self.groups[g].reset_uids()[k],
                ),
    {
        let group = self.groups[g];
        let ids = group_ids(self.groups);
        assert forall|j: int| 0 <= j < g implies ids[j] != group.id by {
            assert(self.groups[j].id != self.groups[g].id);
        }
        lemma_position_is(ids, group.id, g);
        assert(group.well_formed());
        group.lemma_components_found();
        assert forall|i: int| 0 <= i < group.sensors.len() implies self.has_sensor(
            (#[trigger] group.sensors[i]).uid(),
        ) by {
            assert(group.sensors[i].group == group.id);
        }
        assert forall|i: int| 0 <= i < group.lights.len() implies self.has_light(
            (#[trigger] group.lights[i]).uid(),
        ) by {
            assert(group.lights[i].group == group.id);
        }
        assert forall|i: int| 0 <= i < group.gates.len() implies self.has_gate(
            (#[trigger] group.gates[i]).uid(),
        ) by {
            assert(group.gates[i].group == group.id);
        }
        assert forall|i: int| 0 <= i < group.decks.len() implies self.has_deck(
            (#[trigger] group.decks[i]).uid(),
        ) by {
            assert(group.decks[i].group == group.id);
        }
        let su = sensor_uids(group.sensors);
        let lu = actuator_uids(group.lights);
        let du = actuator_uids(group.decks);
        let gu = actuator_uids(group.gates);
        assert forall|k: int| 0 <= k < group.reset_uids().len() implies self.reachable(
            #[trigger] group.reset_uids()[k],
        ) by {
            if k < su.len() {
                assert(group.reset_uids()[k] == group.sensors[k].uid());
            } else if k < su.len() + lu.len() {
                assert(group.reset_uids()[k] == group.lights[k - su.len()].uid());
            } else if k < su.len() + lu.len() + du.len() {
                assert(group.reset_uids()[k] == group.decks[k - su.len() - lu.len()].uid());
            } else {
                assert(group.reset_uids()[k] == group.gates[k - su.len() - lu.len()
                    - du.len()].uid());
            }
        }
    }

    /// Having the same identifiers carries over: from `self` to `middle`, and
    /// from `middle` to `other`.
    pub proof fn lemma_same_ids_chain(self, middle: IntersectionView, other: IntersectionView)
        requires
            self.same_ids(middle),
            middle.same_ids(other),
        ensures
            self.same_ids(other),
    {
        assert forall|g: int| 0 <= g < self.groups.len() implies (#[trigger] self.groups[g]).same_ids(
            other.groups[g],
        ) by {
            assert(self.groups[g].same_ids(middle.groups[g]));
            assert(middle.groups[g].same_ids(other.groups[g]));
        }
    }

    /// An intersection stays sound when its identifiers stay and everything
    /// that is pending afterwards is about something that it holds.
    pub proof fn lemma_sound_kept(self, after: IntersectionView)
        requires
            self.well_formed(),
            after.same_ids(self),
            forall|k: int|
                0 <= k < after.channels.state.len() ==> self.reachable(
                    #[trigger] after.channels.state[k],
                ),
            forall|k: int|
                0 <= k < after.channels.score.len() ==> self.has_group(
                    #[trigger] after.channels.score[k],
                ),
            forall|k: int|
                0 <= k < after.channels.notifications.len() ==> self.knows(
                    #[trigger] after.channels.notifications[k],
                ),
        ensures
            after.sound(),
    {
        after.lemma_same_ids(self);
        assert forall|k: int| 0 <= k < after.channels.state.len() implies after.reachable(
            #[trigger] after.channels.state[k],
        ) by {
            assert(self.reachable(after.channels.state[k]));
        }
        assert forall|k: int| 0 <= k < after.channels.score.len() implies after.has_group(
            #[trigger] after.channels.score[k],
        ) by {
            assert(self.has_group(after.channels.score[k]));
        }
        assert forall|k: int| 0 <= k < after.channels.notifications.len() implies after.knows(
            #[trigger] after.channels.notifications[k],
        ) by {
            assert(self.knows(after.channels.notifications[k]));
        }
    }

    /// Putting a group with the same identifiers in the place of a group
    /// keeps the identifiers of the intersection.
    pub proof fn lemma_with_group_at_same_ids(self, id: GroupId, group: GroupView)
        requires
            self.has_group(id),
            group.same_ids(self.group(id)),
        ensures
            self.with_group_at(id, group).same_ids(self),
    {
        self.lemma_group_found(id);
        let after = self.with_group_at(id, group);
        assert forall|g: int| 0 <= g < after.groups.len() implies (#[trigger] after.groups[g]).same_ids(
            self.groups[g],
        ) by {}
    }

    /// Setting a sensor keeps a sound intersection sound.
    pub proof fn lemma_set_sensor_state_sound(self, uid: ComponentUid, state: SensorState, now: int)
        requires
            self.sound(),
        ensures
            self.set_sensor_state(uid, state, now).sound(),
            self.set_sensor_state(uid, state, now).same_ids(self),
    {
        let after = self.set_sensor_state(uid, state, now);
        if self.has_sensor(uid) {
            let group = self.group(uid.group_id);
            group.lemma_ids_kept(uid.component_id, now);
            self.lemma_with_group_at_same_ids(
                uid.group_id,
                group.set_sensor_state(uid.component_id, state, now),
            );
            self.lemma_consistent();
            self.lemma_found_uid(uid);
            self.lemma_sound_kept(after);
        } else {
            assert forall|g: int| 0 <= g < after.groups.len() implies (
            #[trigger] after.groups[g]).same_ids(self.groups[g]) by {}
        }
    }

    /// Setting a light keeps a sound intersection sound.
    pub proof fn lemma_set_light_state_sound(self, uid: ComponentUid, state: LightState, now: int)
        requires
            self.sound(),
        ensures
            self.set_light_state(uid, state, now).sound(),
            self.set_light_state(uid, state, now).same_ids(self),
    {
        let after = self.set_light_state(uid, state, now);
        if self.has_light(uid) {
            let group = self.group(uid.group_id);
            group.lemma_ids_kept(uid.component_id, now);
            self.lemma_with_group_at_same_ids(
                uid.group_id,
                group.set_light_state(uid.component_id, state, now),
            );
            self.lemma_consistent();
            self.lemma_found_uid(uid);
            self.lemma_sound_kept(after);
        } else {
            assert forall|g: int| 0 <= g < after.groups.len() implies (
            #[trigger] after.groups[g]).same_ids(self.groups[g]) by {}
        }
    }

    /// Setting a gate keeps a sound intersection sound.
    pub proof fn lemma_set_gate_state_sound(self, uid: ComponentUid, state: GateState, now: int)
        requires
            self.sound(),
        ensures
            self.set_gate_state(uid, state, now).sound(),
            self.set_gate_state(uid, state, now).same_ids(self),
    {
        let after = self.set_gate_state(uid, state, now);
        if self.has_gate(uid) {
            let group = self.group(uid.group_id);
            group.lemma_ids_kept(uid.component_id, now);
            self.lemma_with_group_at_same_ids(
                uid.group_id,
                group.set_gate_state(uid.component_id, state, now),
            );
            self.lemma_consistent();
            self.lemma_found_uid(uid);
            self.lemma_sound_kept(after);
        } else {
            assert forall|g: int| 0 <= g < after.groups.len() implies (
            #[trigger] after.groups[g]).same_ids(self.groups[g]) by {}
        }
    }

    /// Setting a deck keeps a sound intersection sound.
    pub proof fn lemma_set_deck_state_sound(self, uid: ComponentUid, state: DeckState, now: int)
        requires
            self.sound(),
        ensures
            self.set_deck_state(uid, state, now).sound(),
            self.set_deck_state(uid, state, now).same_ids(self),
    {
        let after = self.set_deck_state(uid, state, now);
        if self.has_deck(uid) {
            let group = self.group(uid.group_id);
            group.lemma_ids_kept(uid.component_id, now);
            self.lemma_with_group_at_same_ids(
                uid.group_id,
                group.set_deck_state(uid.component_id, state, now),
            );
            self.lemma_consistent();
            self.lemma_found_uid(uid);
            self.lemma_sound_kept(after);
        } else {
            assert forall|g: int| 0 <= g < after.groups.len() implies (
            #[trigger] after.groups[g]).same_ids(self.groups[g]) by {}
        }
    }

    /// Setting all lights of a group keeps a sound intersection sound.
    pub proof fn lemma_set_lights_sound(self, id: GroupId, state: LightState, now: int)
        requires
            self.sound(),
        ensures
            self.set_lights(id, state, now).sound(),
            self.set_lights(id, state, now).same_ids(self),
    {
        let after = self.set_lights(id, state, now);
        if self.has_group(id) {
            let group = self.group(id);
            let p = self.group_position(id);
            self.lemma_group_found(id);
            let uids = actuator_uids(group.lights);
            let lit = GroupView {
                lights: group.lights.map_values(
                    |l: ActuatorView<LightState>| l.set_state(state, now),
                ),
                channels: group.channels.send_actuators(uids),
                ..group
            };
            assert(actuator_uids(lit.lights) =~= uids);
            self.lemma_with_group_at_same_ids(id, lit);
            lemma_send_states(self.channels, uids);
            self.lemma_components_reachable(p);
            assert forall|k: int| 0 <= k < uids.len() implies self.reachable(#[trigger] uids[k]) by {
                assert(uids[k] == group.lights[k].uid());
                assert(self.has_light(group.lights[k].uid()));
            }
            self.lemma_sound_kept(after);
        } else {
            assert forall|g: int| 0 <= g < after.groups.len() implies (
            #[trigger] after.groups[g]).same_ids(self.groups[g]) by {}
        }
    }

    /// Writing a score keeps a sound intersection sound.
    pub proof fn lemma_set_score_sound(self, id: GroupId, score: int)
        requires
            self.sound(),
        ensures
            self.set_score(id, score).sound(),
            self.set_score(id, score).same_ids(self),
    {
        let after = self.set_score(id, score);
        if self.has_group(id) {
            self.lemma_group_found(id);
            self.lemma_with_group_at_same_ids(id, GroupView { score, ..self.group(id) });
            self.lemma_sound_kept(after);
        } else {
            assert forall|g: int| 0 <= g < after.groups.len() implies (
            #[trigger] after.groups[g]).same_ids(self.groups[g]) by {}
        }
    }

    /// Blocking a group or lifting its block keeps a sound intersection sound.
    pub proof fn lemma_set_block_sound(self, id: GroupId, block: bool)
        requires
            self.sound(),
        ensures
            self.set_block(id, block).sound(),
            self.set_block(id, block).same_ids(self),
    {
        let after = self.set_block(id, block);
        if self.has_group(id) {
            self.lemma_group_found(id);
            self.lemma_with_group_at_same_ids(id, GroupView { block, ..self.group(id) });
            self.lemma_sound_kept(after);
        } else {
            assert forall|g: int| 0 <= g < after.groups.len() implies (
            #[trigger] after.groups[g]).same_ids(self.groups[g]) by {}
        }
    }

    /// Resetting groups keeps a sound intersection sound.
    pub proof fn lemma_reset_first_sound(self, n: int, now: int)
        requires
            self.sound(),
            0 <= n <= self.groups.len(),
        ensures
            self.reset_first(n, now).sound(),
            self.reset_first(n, now).same_ids(self),
        decreases n,
    {
        if n > 0 {
            self.lemma_reset_first_sound(n - 1, now);
            let before = self.reset_first(n - 1, now);
            let after = self.reset_first(n, now);
            let group = before.groups[n - 1];
            let fresh = GroupView { score: 0, ..group.reset_all(now) };
            group.lemma_ids_kept(ComponentId { kind: ComponentKind::Sensor, id: 0 }, now);
            assert forall|g: int| 0 <= g < after.groups.len() implies (
            #[trigger] after.groups[g]).same_ids(before.groups[g]) by {}
            before.lemma_components_reachable(n - 1);
            lemma_send_states(before.channels, group.reset_uids());
            before.lemma_sound_kept(after);
            after.lemma_same_ids_chain(before, self);
        } else {
            assert forall|g: int| 0 <= g < self.groups.len() implies (
            #[trigger] self.groups[g]).same_ids(self.groups[g]) by {}
        }
    }

    /// A reset keeps a sound intersection sound.
    pub proof fn lemma_reset_all_sound(self, now: int)
        requires
            self.sound(),
        ensures
            self.reset_all(now).sound(),
            self.reset_all(now).same_ids(self),
    {
        self.lemma_reset_first_sound(self.groups.len() as int, now);
    }

    /// A well-formed intersection is consistent.
    pub proof fn lemma_consistent(self)
        requires
            self.well_formed(),
        ensures
            self.consistent(),
    {
        assert forall|g: int| 0 <= g < self.groups.len() implies (
        #[trigger] self.groups[g]).consistent() by {
            assert(self.groups[g].well_formed());
        }
    }

    /// A group that is found under an identifier has that identifier.
    pub proof fn lemma_group_found(self, id: GroupId)
        requires
            self.has_group(id),
        ensures
            0 <= self.group_position(id) < self.groups.len(),
            self.group(id).id == id,
    {
        lemma_position(group_ids(self.groups), id);
    }

    /// Putting a group with the same identifier in the place of a group
    /// leaves every identifier where it is.
    pub proof fn lemma_with_group_at(self, id: GroupId, group: GroupView)
        requires
            self.has_group(id),
            group.id == id,
        ensures
            group_ids(self.with_group_at(id, group).groups) == group_ids(self.groups),
            self.with_group_at(id, group).has_group(id),
            self.with_group_at(id, group).group(id) == group,
            forall|other: GroupId|
                other != id ==> self.with_group_at(id, group).has_group(other) == self.has_group(
                    other,
                ) && (self.has_group(other) ==> self.with_group_at(id, group).group(other)
                    == self.group(other)),
    {
        self.lemma_group_found(id);
        let after = self.with_group_at(id, group);
        assert(group_ids(after.groups) =~= group_ids(self.groups));
        assert forall|other: GroupId| other != id implies after.has_group(other)
            == self.has_group(other) && (self.has_group(other) ==> after.group(other)
            == self.group(other)) by {
            lemma_position(group_ids(self.groups), other);
        }
    }

    /// In a consistent intersection a component that is found under an
    /// identifier has that identifier.
    pub proof fn lemma_found_uid(self, uid: ComponentUid)
        requires
            self.consistent(),
        ensures
            self.has_sensor(uid) ==> self.sensor(uid).uid() == uid,
            self.has_light(uid) ==> self.light(uid).uid() == uid,
            self.has_gate(uid) ==> self.gate(uid).uid() == uid,
            self.has_deck(uid) ==> self.deck(uid).uid() == uid,
    {
        if self.has_group(uid.group_id) {
            self.lemma_group_found(uid.group_id);
            let group = self.group(uid.group_id);
            assert(group.consistent());
            if group.has_sensor(uid.component_id) {
                group.lemma_sensor_found(uid.component_id);
                assert(group.sensors[group.sensor_position(uid.component_id)].group == group.id);
            }
            if group.has_light(uid.component_id) {
                group.lemma_light_found(uid.component_id);
                assert(group.lights[group.light_position(uid.component_id)].group == group.id);
            }
            if group.has_gate(uid.component_id) {
                group.lemma_gate_found(uid.component_id);
                assert(group.gates[group.gate_position(uid.component_id)].group == group.id);
            }
            if group.has_deck(uid.component_id) {
                group.lemma_deck_found(uid.component_id);
                assert(group.decks[group.deck_position(uid.component_id)].group == group.id);
            }
        }
    }

    /// Setting a sensor leaves every other component of the intersection as it
    /// is.
    pub proof fn lemma_set_sensor_state_frame(
        self,
        uid: ComponentUid,
        state: SensorState,
        now: int,
        other: ComponentUid,
    )
        ensures
            self.set_sensor_state(uid, state, now).has_light(other) == self.has_light(other),
            self.has_light(other) ==> self.set_sensor_state(uid, state, now).light(other) == self.light(
                other,
            ),
            self.set_sensor_state(uid, state, now).has_gate(other) == self.has_gate(other),
            self.has_gate(other) ==> self.set_sensor_state(uid, state, now).gate(other) == self.gate(
                other,
            ),
            self.set_sensor_state(uid, state, now).has_deck(other) == self.has_deck(other),
            self.has_deck(other) ==> self.set_sensor_state(uid, state, now).deck(other) == self.deck(
                other,
            ),
            self.set_sensor_state(uid, state, now).has_sensor(other) == self.has_sensor(other),
            other != uid && self.has_sensor(other) ==> self.set_sensor_state(uid, state, now).sensor(other)
                == self.sensor(other),
    {
        if self.has_sensor(uid) {
            let group = self.group(uid.group_id);
            self.lemma_group_found(uid.group_id);
            group.lemma_set_sensor_state_frame(uid.component_id, state, now, other.component_id);
            self.lemma_with_group_at(
                uid.group_id,
                group.set_sensor_state(uid.component_id, state, now),
            );
        }
    }

    /// Setting a light leaves every other component of the intersection as it
    /// is.
    pub proof fn lemma_set_light_state_frame(
        self,
        uid: ComponentUid,
        state: LightState,
        now: int,
        other: ComponentUid,
    )
        ensures
            self.set_light_state(uid, state, now).has_sensor(other) == self.has_sensor(other),
            self.has_sensor(other) ==> self.set_light_state(uid, state, now).sensor(other) == self.sensor(
                other,
            ),
            self.set_light_state(uid, state, now).has_gate(other) == self.has_gate(other),
            self.has_gate(other) ==> self.set_light_state(uid, state, now).gate(other) == self.gate(
                other,
            ),
            self.set_light_state(uid, state, now).has_deck(other) == self.has_deck(other),
            self.has_deck(other) ==> self.set_light_state(uid, state, now).deck(other) == self.deck(
                other,
            ),
            self.set_light_state(uid, state, now).has_light(other) == self.has_light(other),
            other != uid && self.has_light(other) ==> self.set_light_state(uid, state, now).light(other)
                == self.light(other),
    {
        if self.has_light(uid) {
            let group = self.group(uid.group_id);
            self.lemma_group_found(uid.group_id);
            group.lemma_set_light_state_frame(uid.component_id, state, now, other.component_id);
            self.lemma_with_group_at(
                uid.group_id,
                group.set_light_state(uid.component_id, state, now),
            );
        }
    }

    /// Setting a gate leaves every other component of the intersection as it
    /// is.
    pub proof fn lemma_set_gate_state_frame(
        self,
        uid: ComponentUid,
        state: GateState,
        now: int,
        other: ComponentUid,
    )
        ensures
            self.set_gate_state(uid, state, now).has_sensor(other) == self.has_sensor(other),
            self.has_sensor(other) ==> self.set_gate_state(uid, state, now).sensor(other) == self.sensor(
                other,
            ),
            self.set_gate_state(uid, state, now).has_light(other) == self.has_light(other),
            self.has_light(other) ==> self.set_gate_state(uid, state, now).light(other) == self.light(
                other,
            ),
            self.set_gate_state(uid, state, now).has_deck(other) == self.has_deck(other),
            self.has_deck(other) ==> self.set_gate_state(uid, state, now).deck(other) == self.deck(
                other,
            ),
            self.set_gate_state(uid, state, now).has_gate(other) == self.has_gate(other),
            other != uid && self.has_gate(other) ==> self.set_gate_state(uid, state, now).gate(other)
                == self.gate(other),
    {
        if self.has_gate(uid) {
            let group = self.group(uid.group_id);
            self.lemma_group_found(uid.group_id);
            group.lemma_set_gate_state_frame(uid.component_id, state, now, other.component_id);
            self.lemma_with_group_at(
                uid.group_id,
                group.set_gate_state(uid.component_id, state, now),
            );
        }
    }

    /// Setting a deck leaves every other component of the intersection as it
    /// is.
    pub proof fn lemma_set_deck_state_frame(
        self,
        uid: ComponentUid,
        state: DeckState,
        now: int,
        other: ComponentUid,
    )
        ensures
            self.set_deck_state(uid, state, now).has_sensor(other) == self.has_sensor(other),
            self.has_sensor(other) ==> self.set_deck_state(uid, state, now).sensor(other) == self.sensor(
                other,
            ),
            self.set_deck_state(uid, state, now).has_light(other) == self.has_light(other),
            self.has_light(other) ==> self.set_deck_state(uid, state, now).light(other) == self.light(
                other,
            ),
            self.set_deck_state(uid, state, now).has_gate(other) == self.has_gate(other),
            self.has_gate(other) ==> self.set_deck_state(uid, state, now).gate(other) == self.gate(
                other,
            ),
            self.set_deck_state(uid, state, now).has_deck(other) == self.has_deck(other),
            other != uid && self.has_deck(other) ==> self.set_deck_state(uid, state, now).deck(other)
                == self.deck(other),
    {
        if self.has_deck(uid) {
            let group = self.group(uid.group_id);
            self.lemma_group_found(uid.group_id);
            group.lemma_set_deck_state_frame(uid.component_id, state, now, other.component_id);
            self.lemma_with_group_at(
                uid.group_id,
                group.set_deck_state(uid.component_id, state, now),
            );
        }
    }

    /// Setting the lights of a group leaves every sensor, gate and deck of the
    /// intersection and the lights of every other group as they are.
    pub proof fn lemma_set_lights_frame(
        self,
        id: GroupId,
        state: LightState,
        now: int,
        other: ComponentUid,
    )
        ensures
            self.set_lights(id, state, now).has_sensor(other) == self.has_sensor(other),
            self.has_sensor(other) ==> self.set_lights(id, state, now).sensor(other) == self.sensor(
                other,
            ),
            self.set_lights(id, state, now).has_gate(other) == self.has_gate(other),
            self.has_gate(other) ==> self.set_lights(id, state, now).gate(other) == self.gate(other),
            self.set_lights(id, state, now).has_deck(other) == self.has_deck(other),
            self.has_deck(other) ==> self.set_lights(id, state, now).deck(other) == self.deck(other),
            self.set_lights(id, state, now).has_light(other) == self.has_light(other),
            other.group_id != id && self.has_light(other) ==> self.set_lights(id, state, now).light(
                other,
            ) == self.light(other),
    {
        if self.has_group(id) {
            let group = self.group(id);
            self.lemma_group_found(id);
            let lit = GroupView {
                lights: group.lights.map_values(
                    |l: ActuatorView<LightState>| l.set_state(state, now),
                ),
                channels: group.channels.send_actuators(actuator_uids(group.lights)),
                ..group
            };
            assert(crate::intersections::group::actuator_ids(lit.lights)
                =~= crate::intersections::group::actuator_ids(group.lights));
            self.lemma_with_group_at(id, lit);
        }
    }

    /// A sensor reflects what was last set: after it was set, it is found
    /// with the state that was set and the instant at which it was set, and
    /// exactly one notification of it has gone out.
    pub proof fn lemma_set_sensor_state(self, uid: ComponentUid, state: SensorState, now: int)
        requires
            self.has_sensor(uid),
        ensures
            self.set_sensor_state(uid, state, now).has_sensor(uid),
            self.set_sensor_state(uid, state, now).sensor(uid).state == state,
            self.set_sensor_state(uid, state, now).sensor(uid).timestamp == now,
            self.set_sensor_state(uid, state, now).channels.notifications
                == self.channels.notifications.push(
                Notification::StateUpdated(self.sensor(uid).uid()),
            ),
            self.consistent() ==> self.set_sensor_state(uid, state, now).consistent(),
    {
        let group = self.group(uid.group_id);
        self.lemma_group_found(uid.group_id);
        group.lemma_set_sensor_state(uid.component_id, state, now);
        self.lemma_with_group_at(
            uid.group_id,
            group.set_sensor_state(uid.component_id, state, now),
        );
    }

    /// After the state of a light was set, the light is found with that state
    /// and the instant at which it was set, and exactly one notification of
    /// it has gone out.
    pub proof fn lemma_set_light_state(self, uid: ComponentUid, state: LightState, now: int)
        requires
            self.has_light(uid),
        ensures
            self.set_light_state(uid, state, now).has_light(uid),
            self.set_light_state(uid, state, now).light(uid).state == state,
            self.set_light_state(uid, state, now).light(uid).timestamp == now,
            self.set_light_state(uid, state, now).channels.notifications
                == self.channels.notifications.push(
                Notification::StateUpdated(self.light(uid).uid()),
            ),
            self.consistent() ==> self.set_light_state(uid, state, now).consistent(),
    {
        let group = self.group(uid.group_id);
        self.lemma_group_found(uid.group_id);
        group.lemma_set_light_state(uid.component_id, state, now);
        self.lemma_with_group_at(uid.group_id, group.set_light_state(uid.component_id, state, now));
    }

    /// After the state of a gate was set, it is found with that state and the
    /// instant at which it was set, and exactly one notification of it has
    /// gone out.
    pub proof fn lemma_set_gate_state(self, uid: ComponentUid, state: GateState, now: int)
        requires
            self.has_gate(uid),
        ensures
            self.set_gate_state(uid, state, now).has_gate(uid),
            self.set_gate_state(uid, state, now).gate(uid).state == state,
            self.set_gate_state(uid, state, now).gate(uid).timestamp == now,
            self.set_gate_state(uid, state, now).channels.notifications
                == self.channels.notifications.push(
                Notification::StateUpdated(self.gate(uid).uid()),
            ),
            self.consistent() ==> self.set_gate_state(uid, state, now).consistent(),
    {
        let group = self.group(uid.group_id);
        self.lemma_group_found(uid.group_id);
        group.lemma_set_gate_state(uid.component_id, state, now);
        self.lemma_with_group_at(uid.group_id, group.set_gate_state(uid.component_id, state, now));
    }

    /// After the state of a deck was set, the deck is found with that state
    /// and the instant at which it was set, and exactly one notification of
    /// it has gone out.
    pub proof fn lemma_set_deck_state(self, uid: ComponentUid, state: DeckState, now: int)
        requires
            self.has_deck(uid),
        ensures
            self.set_deck_state(uid, state, now).has_deck(uid),
            self.set_deck_state(uid, state, now).deck(uid).state == state,
            self.set_deck_state(uid, state, now).deck(uid).timestamp == now,
            self.set_deck_state(uid, state, now).channels.notifications
                == self.channels.notifications.push(
                Notification::StateUpdated(self.deck(uid).uid()),
            ),
            self.consistent() ==> self.set_deck_state(uid, state, now).consistent(),
    {
        let group = self.group(uid.group_id);
        self.lemma_group_found(uid.group_id);
        group.lemma_set_deck_state(uid.component_id, state, now);
        self.lemma_with_group_at(uid.group_id, group.set_deck_state(uid.component_id, state, now));
    }

    /// After the score of a group was set back, the group has score 0, and
    /// the notification that went out last is that of its score.
    pub proof fn lemma_reset_score(self, id: GroupId)
        requires
            self.has_group(id),
        ensures
            self.set_score(id, 0).has_group(id),
            self.set_score(id, 0).group(id).score == 0,
            self.set_score(id, 0).channels.notifications == self.channels.notifications.push(
                Notification::ScoreUpdated(id),
            ),
    {
        self.lemma_group_found(id);
        self.lemma_with_group_at(id, GroupView { score: 0, ..self.group(id) });
    }
}

impl Intersection {
    /// An intersection without groups, with nothing pending.
    pub fn new(alias: Option<String>) -> (intersection: Self)
        ensures
            intersection@ == IntersectionView::fresh(
                match alias {
                    Some(a) => Some(a@),
                    None => None,
                },
            ),
    {
        let intersection = Self { alias, groups: Vec::new(), channels: IntersectionChannels::new() };
        assert(intersection@.groups =~= Seq::empty());
        intersection
    }

    /// The groups of the intersection.
    pub fn groups(&self) -> (groups: &Vec<Group>)
        ensures
            group_views(groups@) == self@.groups,
    {
        &self.groups
    }

    /// Where the group `id` stands among the groups, or their number.
    pub fn group_position(&self, id: GroupId) -> (p: usize)
        ensures
            p == self@.group_position(id),
            p <= self.groups.len(),
    {
        let ghost ids = group_ids(self@.groups);
        let mut i: usize = 0;
        while i < self.groups.len()
            invariant
                i <= self.groups.len(),
                ids == group_ids(self@.groups),
                forall|j: int| 0 <= j < i ==> ids[j] != id,
            decreases self.groups.len() - i,
        {
            if self.groups[i].id == id {
                proof {
                    lemma_position_is(ids, id, i as int);
                }
                return i;
            }
            i += 1;
        }
        proof {
            lemma_position_is(ids, id, i as int);
        }
        i
    }

    /// The group `id`, if the intersection has one.
    pub fn find_group(&self, id: GroupId) -> (found: Option<&Group>)
        ensures
            found.is_some() == self@.has_group(id),
            found matches Some(group) ==> group@ == self@.group(id),
    {
        let p = self.group_position(id);
        if p < self.groups.len() {
            Some(&self.groups[p])
        } else {
            None
        }
    }

    /// The sensor `uid`, if the intersection has one.
    pub fn find_sensor(&self, uid: ComponentUid) -> (found: Option<&Sensor>)
        ensures
            found.is_some() == self@.has_sensor(uid),
            found matches Some(sensor) ==> sensor@ == self@.sensor(uid),
    {
        match self.find_group(uid.group_id) {
            Some(group) => group.find_sensor(uid.component_id),
            None => None,
        }
    }

    /// The light `uid`, if the intersection has one.
    pub fn find_light(&self, uid: ComponentUid) -> (found: Option<&Actuator<LightState>>)
        ensures
            found.is_some() == self@.has_light(uid),
            found matches Some(light) ==> light@ == self@.light(uid),
    {
        match self.find_group(uid.group_id) {
            Some(group) => group.find_light(uid.component_id),
            None => None,
        }
    }

    /// Gate `uid`, if the intersection has one.
    pub fn find_gate(&self, uid: ComponentUid) -> (found: Option<&Actuator<GateState>>)
        ensures
            found.is_some() == self@.has_gate(uid),
            found matches Some(gate) ==> gate@ == self@.gate(uid),
    {
        match self.find_group(uid.group_id) {
            Some(group) => group.find_gate(uid.component_id),
            None => None,
        }
    }

    /// The deck `uid`, if the intersection has one.
    pub fn find_deck(&self, uid: ComponentUid) -> (found: Option<&Actuator<DeckState>>)
        ensures
            found.is_some() == self@.has_deck(uid),
            found matches Some(deck) ==> deck@ == self@.deck(uid),
    {
        match self.find_group(uid.group_id) {
            Some(group) => group.find_deck(uid.component_id),
            None => None,
        }
    }

    /// The groups that are not blocked, in order.
    pub fn unblocked_groups(&self) -> (ids: Vec<GroupId>)
        ensures
            ids@ == unblocked_ids(self@.groups, self@.groups.len() as int),
    {
        let mut ids: Vec<GroupId> = Vec::new();
        let mut i: usize = 0;
        while i < self.groups.len()
            invariant
                i <= self.groups.len(),
                ids@ == unblocked_ids(self@.groups, i as int),
            decreases self.groups.len() - i,
        {
            if !self.groups[i].block {
                ids.push(self.groups[i].id);
            }
            i += 1;
        }
        ids
    }

    /// The groups that can be blocked, in order.
    pub fn blockable_groups(&self) -> (ids: Vec<GroupId>)
        ensures
            ids@ == blockable_ids(self@.groups, self@.groups.len() as int),
    {
        let mut ids: Vec<GroupId> = Vec::new();
        let mut i: usize = 0;
        while i < self.groups.len()
            invariant
                i <= self.groups.len(),
                ids@ == blockable_ids(self@.groups, i as int),
            decreases self.groups.len() - i,
        {
            if self.groups[i].can_be_blocked {
                ids.push(self.groups[i].id);
            }
            i += 1;
        }
        ids
    }

    /// The sensors of all groups, group by group.
    pub fn sensors(&self) -> (uids: Vec<ComponentUid>)
        ensures
            uids@ == sensors_of(self@.groups, self@.groups.len() as int),
    {
        let mut uids: Vec<ComponentUid> = Vec::new();
        let mut i: usize = 0;
        while i < self.groups.len()
            invariant
                i <= self.groups.len(),
                uids@ == sensors_of(self@.groups, i as int),
            decreases self.groups.len() - i,
        {
            let group = &self.groups[i];
            let ghost start = uids@;
            let ghost all = sensor_uids(group@.sensors);
            let mut j: usize = 0;
            while j < group.sensors.len()
                invariant
                    j <= group.sensors.len(),
                    all == sensor_uids(group@.sensors),
                    uids@ == start + all.take(j as int),
                decreases group.sensors.len() - j,
            {
                uids.push(group.sensors[j].uid());
                assert(all.take(j + 1) =~= all.take(j as int).push(all[j as int]));
                j += 1;
            }
            assert(all.take(j as int) =~= all);
            i += 1;
        }
        uids
    }

    /// Puts `group` under its identifier: in the place of the group that has
    /// it, or at the end.
    pub fn insert_group(&mut self, group: Group)
        ensures
            final(self)@ == (IntersectionView {
                groups: groups_with(old(self)@.groups, group@),
                ..old(self)@
            }),
    {
        let p = self.group_position(group.id);
        if p < self.groups.len() {
            self.groups[p] = group;
        } else {
            self.groups.push(group);
        }
        assert(self@.groups =~= groups_with(old(self)@.groups, group@));
    }

    /// Sends a change of `uid`: once on the state channel, once as a
    /// notification to the outside.
    pub fn send_state(&mut self, uid: ComponentUid)
        ensures
            final(self)@ == (IntersectionView {
                channels: old(self)@.channels.send_state(uid),
                ..old(self)@
            }),
    {
        self.channels.send_state(uid);
    }

    /// Sends a new score of `id`: once on the score channel, once as a
    /// notification to the outside.
    pub fn send_score(&mut self, id: GroupId)
        ensures
            final(self)@ == (IntersectionView {
                channels: old(self)@.channels.send_score(id),
                ..old(self)@
            }),
    {
        self.channels.send_score(id);
    }

    /// Sets the sensor `uid` to `state` at `now` and tells its change, once on
    /// every channel that carries it. Says whether the intersection has such a
    /// sensor; where it has none, nothing changes.
    pub fn set_sensor_state(&mut self, uid: ComponentUid, state: SensorState, now: i64) -> (found:
        bool)
        ensures
            found == old(self)@.has_sensor(uid),
            final(self)@ == old(self)@.set_sensor_state(uid, state, now as int),
            old(self)@.sound() ==> final(self)@.sound(),
    {
        proof {
            if old(self)@.sound() {
                old(self)@.lemma_set_sensor_state_sound(uid, state, now as int);
            }
        }
        let p = self.group_position(uid.group_id);
        if p < self.groups.len() {
            let found = self.groups[p].set_sensor_state(
                uid.component_id,
                state,
                now,
                &mut self.channels,
            );
            assert(self@.groups =~= old(self)@.groups.update(
                p as int,
                old(self)@.groups[p as int].set_sensor_state(uid.component_id, state, now as int),
            ));
            assert(!found ==> self@.groups =~= old(self)@.groups);
            found
        } else {
            false
        }
    }

    /// Sets the light `uid` to `state` at `now` and tells its change. Says
    /// whether the intersection has such a light; where it has none, nothing
    /// changes.
    pub fn set_light_state(&mut self, uid: ComponentUid, state: LightState, now: i64) -> (found:
        bool)
        ensures
            found == old(self)@.has_light(uid),
            final(self)@ == old(self)@.set_light_state(uid, state, now as int),
            old(self)@.sound() ==> final(self)@.sound(),
    {
        proof {
            if old(self)@.sound() {
                old(self)@.lemma_set_light_state_sound(uid, state, now as int);
            }
        }
        let p = self.group_position(uid.group_id);
        if p < self.groups.len() {
            let found = self.groups[p].set_light_state(
                uid.component_id,
                state,
                now,
                &mut self.channels,
            );
            assert(self@.groups =~= old(self)@.groups.update(
                p as int,
                old(self)@.groups[p as int].set_light_state(uid.component_id, state, now as int),
            ));
            assert(!found ==> self@.groups =~= old(self)@.groups);
            found
        } else {
            false
        }
    }

    /// Sets gate `uid` to `state` at `now` and tells its change. Says
    /// whether the intersection has such a gate; where it has none, nothing
    /// changes.
    pub fn set_gate_state(&mut self, uid: ComponentUid, state: GateState, now: i64) -> (found: bool)
        ensures
            found == old(self)@.has_gate(uid),
            final(self)@ == old(self)@.set_gate_state(uid, state, now as int),
            old(self)@.sound() ==> final(self)@.sound(),
    {
        proof {
            if old(self)@.sound() {
                old(self)@.lemma_set_gate_state_sound(uid, state, now as int);
            }
        }
        let p = self.group_position(uid.group_id);
        if p < self.groups.len() {
            let found = self.groups[p].set_gate_state(
                uid.component_id,
                state,
                now,
                &mut self.channels,
            );
            assert(self@.groups =~= old(self)@.groups.update(
                p as int,
                old(self)@.groups[p as int].set_gate_state(uid.component_id, state, now as int),
            ));
            assert(!found ==> self@.groups =~= old(self)@.groups);
            found
        } else {
            false
        }
    }

    /// Sets the deck `uid` to `state` at `now` and tells its change. Says
    /// whether the intersection has such a deck; where it has none, nothing
    /// changes.
    pub fn set_deck_state(&mut self, uid: ComponentUid, state: DeckState, now: i64) -> (found: bool)
        ensures
            found == old(self)@.has_deck(uid),
            final(self)@ == old(self)@.set_deck_state(uid, state, now as int),
            old(self)@.sound() ==> final(self)@.sound(),
    {
        proof {
            if old(self)@.sound() {
                old(self)@.lemma_set_deck_state_sound(uid, state, now as int);
            }
        }
        let p = self.group_position(uid.group_id);
        if p < self.groups.len() {
            let found = self.groups[p].set_deck_state(
                uid.component_id,
                state,
                now,
                &mut self.channels,
            );
            assert(self@.groups =~= old(self)@.groups.update(
                p as int,
                old(self)@.groups[p as int].set_deck_state(uid.component_id, state, now as int),
            ));
            assert(!found ==> self@.groups =~= old(self)@.groups);
            found
        } else {
            false
        }
    }

    /// Sets every light of the group `id` to `state` at `now` and tells each
    /// change. Says whether the intersection has such a group.
    pub fn set_lights(&mut self, id: GroupId, state: LightState, now: i64) -> (found: bool)
        ensures
            found == old(self)@.has_group(id),
            final(self)@ == old(self)@.set_lights(id, state, now as int),
            old(self)@.sound() ==> final(self)@.sound(),
    {
        proof {
            if old(self)@.sound() {
                old(self)@.lemma_set_lights_sound(id, state, now as int);
            }
        }
        let p = self.group_position(id);
        if p < self.groups.len() {
            self.groups[p].set_lights(state, now, &mut self.channels);
            assert(self@.groups =~= old(self)@.set_lights(id, state, now as int).groups);
            true
        } else {
            false
        }
    }

    /// Writes `score` as the score of the group `id` and tells it. Says whether
    /// the intersection has such a group.
    pub fn set_score(&mut self, id: GroupId, score: i32) -> (found: bool)
        ensures
            found == old(self)@.has_group(id),
            final(self)@ == old(self)@.set_score(id, score as int),
            old(self)@.sound() ==> final(self)@.sound(),
    {
        proof {
            if old(self)@.sound() {
                old(self)@.lemma_set_score_sound(id, score as int);
            }
        }
        let p = self.group_position(id);
        if p < self.groups.len() {
            self.groups[p].set_score(score, &mut self.channels);
            assert(self@.groups =~= old(self)@.set_score(id, score as int).groups);
            true
        } else {
            false
        }
    }

    /// Writes 0 as the score of the group `id` and tells it. Says whether the
    /// intersection has such a group.
    pub fn reset_score(&mut self, id: GroupId) -> (found: bool)
        ensures
            found == old(self)@.has_group(id),
            final(self)@ == old(self)@.set_score(id, 0),
            old(self)@.sound() ==> final(self)@.sound(),
    {
        proof {
            if old(self)@.sound() {
                old(self)@.lemma_set_score_sound(id, 0);
            }
        }
        self.set_score(id, 0)
    }

    /// Blocks the group `id` or lifts its block, as `block` says. Says whether
    /// the intersection has such a group.
    pub fn set_block(&mut self, id: GroupId, block: bool) -> (found: bool)
        ensures
            found == old(self)@.has_group(id),
            final(self)@ == old(self)@.set_block(id, block),
            old(self)@.sound() ==> final(self)@.sound(),
    {
        proof {
            if old(self)@.sound() {
                old(self)@.lemma_set_block_sound(id, block);
            }
        }
        let p = self.group_position(id);
        if p < self.groups.len() {
            self.groups[p].block = block;
            assert(self@.groups =~= old(self)@.set_block(id, block).groups);
            true
        } else {
            false
        }
    }

    /// Resets every group at `now`: all its components, then its score.
    pub fn reset_all(&mut self, now: i64)
        ensures
            final(self)@ == old(self)@.reset_all(now as int),
            old(self)@.sound() ==> final(self)@.sound(),
    {
        proof {
            if old(self)@.sound() {
                old(self)@.lemma_reset_all_sound(now as int);
            }
        }
        let mut i: usize = 0;
        while i < self.groups.len()
            invariant
                i <= self.groups.len(),
                self.groups.len() == old(self).groups.len(),
                self@ == old(self)@.reset_first(i as int, now as int),
            decreases self.groups.len() - i,
        {
            let ghost before = self@;
            self.groups[i].reset_all(now, &mut self.channels);
            self.groups[i].reset_score(&mut self.channels);
            assert(self@.groups =~= before.groups.update(
                i as int,
                GroupView { score: 0, ..before.groups[i as int].reset_all(now as int) },
            ));
            i += 1;
        }
    }

    /// Takes the pending notifications out of the stream to the outside,
    /// oldest first.
    pub fn take_notifications(&mut self) -> (notifications: Vec<Notification>)
        ensures
            notifications@ == old(self)@.channels.notifications,
            final(self)@ == (IntersectionView {
                channels: IntersectionChannelsView {
                    notifications: Seq::empty(),
                    ..old(self)@.channels
                },
                ..old(self)@
            }),
            old(self)@.sound() ==> final(self)@.sound(),
    {
        let mut notifications: Vec<Notification> = Vec::new();
        std::mem::swap(&mut self.channels.notifications, &mut notifications);
        notifications
    }
}

impl IntersectionView {
    /// Among the first `n` groups, the position of the unblocked group with
    /// the highest score, the first of them where several have it; -1 where
    /// all are blocked.
    pub open spec fn highest_unblocked(self, n: int) -> int
        decreases n,
    {
        if n <= 0 {
            -1
        } else {
            let h = self.highest_unblocked(n - 1);
            let g = self.groups[n - 1];
            if g.block {
                h
            } else if h < 0 || g.score > self.groups[h].score {
                n - 1
            } else {
                h
            }
        }
    }

    /// Whether the group `id` asks to proceed and may: it exists, has a
    /// positive score and is not blocked.
    pub open spec fn eligible(self, id: GroupId) -> bool {
        self.has_group(id) && self.group(id).score > 0 && !self.group(id).block
    }

    /// Whether the group `id` lists one of `chosen` among the groups it blocks.
    pub open spec fn conflicts(self, id: GroupId, chosen: Seq<GroupId>) -> bool {
        exists|k: int| 0 <= k < chosen.len() && self.group(id).blocks.contains(#[trigger] chosen[k])
    }

    /// The groups chosen from the first `n` of `candidates`: each candidate in
    /// turn joins those chosen before it if it is eligible and blocks none of
    /// them.
    pub open spec fn selected(self, candidates: Seq<GroupId>, n: int) -> Seq<GroupId>
        decreases n,
    {
        if n <= 0 {
            Seq::empty()
        } else {
            let chosen = self.selected(candidates, n - 1);
            let id = candidates[n - 1];
            if self.eligible(id) && !self.conflicts(id, chosen) {
                chosen.push(id)
            } else {
                chosen
            }
        }
    }

    /// The groups that proceed in the next phase: none where no unblocked
    /// group has a positive score; else those chosen from the groups that may
    /// run together with the highest-scoring unblocked group.
    pub open spec fn runnables(self) -> Seq<GroupId> {
        let h = self.highest_unblocked(self.groups.len() as int);
        if h < 0 || self.groups[h].score <= 0 {
            Seq::empty()
        } else {
            self.selected(self.groups[h].concurrences, self.groups[h].concurrences.len() as int)
        }
    }

    /// Whether no two groups share an identifier.
    pub open spec fn distinct_ids(self) -> bool {
        forall|i: int, j: int|
            0 <= i < j < self.groups.len() ==> (#[trigger] self.groups[i]).id != (
            #[trigger] self.groups[j]).id
    }

    /// Whether every group lists itself among the groups that may run
    /// together with it.
    pub open spec fn self_concurrent(self) -> bool {
        forall|i: int|
            0 <= i < self.groups.len() ==> (#[trigger] self.groups[i]).concurrences.contains(
                self.groups[i].id,
            )
    }

    /// What `highest_unblocked` finds: no group if all of the first `n` are
    /// blocked; else an unblocked group that no unblocked group outscores and
    /// that no earlier unblocked group equals in score.
    pub proof fn lemma_highest_unblocked(self, n: int)
        requires
            0 <= n <= self.groups.len(),
        ensures
            -1 <= self.highest_unblocked(n) < n,
            self.highest_unblocked(n) == -1 ==> forall|j: int|
                0 <= j < n ==> (#[trigger] self.groups[j]).block,
            self.highest_unblocked(n) >= 0 ==> {
                let h = self.highest_unblocked(n);
                &&& !self.groups[h].block
                &&& forall|j: int|
                    0 <= j < n && !(#[trigger] self.groups[j]).block ==> self.groups[j].score
                        <= self.groups[h].score
                &&& forall|j: int|
                    0 <= j < h && !(#[trigger] self.groups[j]).block ==> self.groups[j].score
                        < self.groups[h].score
            },
        decreases n,
    {
        if n > 0 {
            self.lemma_highest_unblocked(n - 1);
        }
    }

    /// Those chosen from the first `n` candidates stay chosen when more
    /// candidates are taken.
    pub proof fn lemma_selected_grows(self, candidates: Seq<GroupId>, n: int, m: int)
        requires
            0 <= n <= m,
        ensures
            self.selected(candidates, n).len() <= self.selected(candidates, m).len(),
            self.selected(candidates, n) == self.selected(candidates, m).take(
                self.selected(candidates, n).len() as int,
            ),
        decreases m - n,
    {
        if n == m {
            assert(self.selected(candidates, n) =~= self.selected(candidates, m).take(
                self.selected(candidates, n).len() as int,
            ));
        } else {
            self.lemma_selected_grows(candidates, n, m - 1);
            let a = self.selected(candidates, n);
            let b = self.selected(candidates, m - 1);
            let c = self.selected(candidates, m);
            assert(a =~= c.take(a.len() as int)) by {
                assert(a == b.take(a.len() as int));
                assert(b =~= c.take(b.len() as int));
            }
        }
    }

    /// What is chosen from the first `n` candidates: each chosen group is an
    /// eligible candidate and blocks none chosen before it; each eligible
    /// candidate is chosen or blocks a chosen group.
    pub proof fn lemma_selected(self, candidates: Seq<GroupId>, n: int)
        requires
            0 <= n <= candidates.len(),
        ensures
            forall|i: int|
                0 <= i < self.selected(candidates, n).len() ==> self.eligible(
                    #[trigger] self.selected(candidates, n)[i],
                ) && candidates.take(n).contains(self.selected(candidates, n)[i]),
            forall|i: int, j: int|
                0 <= i < j < self.selected(candidates, n).len() ==> !self.group(
                    #[trigger] self.selected(candidates, n)[j],
                ).blocks.contains(#[trigger] self.selected(candidates, n)[i]),
            forall|k: int|
                0 <= k < n && self.eligible(#[trigger] candidates[k]) ==> self.selected(
                    candidates,
                    n,
                ).contains(candidates[k]) || self.conflicts(
                    candidates[k],
                    self.selected(candidates, n),
                ),
        decreases n,
    {
        if n > 0 {
            self.lemma_selected(candidates, n - 1);
            let before = self.selected(candidates, n - 1);
            let after = self.selected(candidates, n);
            let id = candidates[n - 1];
            assert(candidates.take(n)[n - 1] == id);
            assert forall|i: int| 0 <= i < after.len() implies self.eligible(#[trigger] after[i])
                && candidates.take(n).contains(after[i]) by {
                if i < before.len() {
                    assert(after[i] == before[i]);
                    let shorter = candidates.take(n - 1);
                    let w = choose|w: int| 0 <= w < shorter.len() && shorter[w] == before[i];
                    assert(candidates.take(n)[w] == before[i]);
                }
            }
            assert forall|i: int, j: int| 0 <= i < j < after.len() implies !self.group(
                #[trigger] after[j],
            ).blocks.contains(#[trigger] after[i]) by {
                if j < before.len() {
                    assert(after[i] == before[i] && after[j] == before[j]);
                } else {
                    assert(after[j] == id);
                    assert(after[i] == before[i]);
                    assert(!self.conflicts(id, before));
                }
            }
            assert forall|k: int| 0 <= k < n && self.eligible(#[trigger] candidates[k]) implies
                after.contains(candidates[k]) || self.conflicts(candidates[k], after) by {
                if k < n - 1 {
                    if before.contains(candidates[k]) {
                        let w = choose|w: int| 0 <= w < before.len() && before[w] == candidates[k];
                        assert(after[w] == candidates[k]);
                    } else {
                        let w = choose|w: int|
                            0 <= w < before.len() && self.group(candidates[k]).blocks.contains(
                                #[trigger] before[w],
                            );
                        assert(after[w] == before[w]);
                    }
                } else {
                    if self.conflicts(id, before) {
                        let w = choose|w: int|
                            0 <= w < before.len() && self.group(id).blocks.contains(
                                #[trigger] before[w],
                            );
                        assert(after[w] == before[w]);
                    } else {
                        assert(after[after.len() - 1] == id);
                    }
                }
            }
        }
    }

    /// Where one of the first `n` candidates is eligible, something is chosen.
    pub proof fn lemma_selected_nonempty(self, candidates: Seq<GroupId>, n: int, k: int)
        requires
            0 <= k < n <= candidates.len(),
            self.eligible(candidates[k]),
        ensures
            self.selected(candidates, n).len() > 0,
    {
        self.lemma_selected_grows(candidates, k + 1, n);
        let before = self.selected(candidates, k);
        if before.len() == 0 {
            assert(!self.conflicts(candidates[k], before));
        }
    }

    /// From candidates that are all different, no group is chosen twice.
    pub proof fn lemma_selected_distinct(self, candidates: Seq<GroupId>, n: int)
        requires
            0 <= n <= candidates.len(),
            candidates.no_duplicates(),
        ensures
            self.selected(candidates, n).no_duplicates(),
        decreases n,
    {
        if n > 0 {
            self.lemma_selected_distinct(candidates, n - 1);
            self.lemma_selected(candidates, n - 1);
            let before = self.selected(candidates, n - 1);
            let after = self.selected(candidates, n);
            let shorter = candidates.take(n - 1);
            assert forall|i: int, j: int|
                0 <= i < after.len() && 0 <= j < after.len() && i != j implies after[i]
                != after[j] by {
                if i < before.len() && j < before.len() {
                    assert(before[i] != before[j]);
                } else {
                    let k = if i < before.len() {
                        i
                    } else {
                        j
                    };
                    assert(shorter.contains(before[k]));
                    let w = choose|w: int| 0 <= w < shorter.len() && shorter[w] == before[k];
                    assert(candidates[w] != candidates[n - 1]);
                }
            }
        }
    }

    /// Whether no group lists a group twice among those that may run together
    /// with it.
    pub open spec fn distinct_concurrences(self) -> bool {
        forall|g: int|
            0 <= g < self.groups.len() ==> (#[trigger] self.groups[g]).concurrences.no_duplicates()
    }

    /// Where no group lists a group twice among those that may run together
    /// with it, no group comes twice in a phase.
    pub proof fn lemma_runnables_distinct(self)
        requires
            self.distinct_concurrences(),
        ensures
            self.runnables().no_duplicates(),
    {
        let h = self.highest_unblocked(self.groups.len() as int);
        self.lemma_highest_unblocked(self.groups.len() as int);
        if h >= 0 && self.groups[h].score > 0 {
            let candidates = self.groups[h].concurrences;
            self.lemma_selected_distinct(candidates, candidates.len() as int);
        }
    }

    /// No two groups of a phase are in each other's lists of blocked groups.
    pub proof fn lemma_runnables_conflict_free(self, i: int, j: int)
        requires
            0 <= i < self.runnables().len(),
            0 <= j < self.runnables().len(),
            i != j,
        ensures
            !(self.group(self.runnables()[i]).blocks_group(self.runnables()[j]) && self.group(
                self.runnables()[j],
            ).blocks_group(self.runnables()[i])),
    {
        let h = self.highest_unblocked(self.groups.len() as int);
        self.lemma_highest_unblocked(self.groups.len() as int);
        let candidates = self.groups[h].concurrences;
        self.lemma_selected(candidates, candidates.len() as int);
        let r = self.runnables();
        if i < j {
            assert(!self.group(r[j]).blocks.contains(r[i]));
        } else {
            assert(!self.group(r[i]).blocks.contains(r[j]));
        }
    }

    /// Every group of a phase exists, has a positive score and is not blocked.
    pub proof fn lemma_runnables_eligible(self, i: int)
        requires
            0 <= i < self.runnables().len(),
        ensures
            self.eligible(self.runnables()[i]),
    {
        let h = self.highest_unblocked(self.groups.len() as int);
        self.lemma_highest_unblocked(self.groups.len() as int);
        let candidates = self.groups[h].concurrences;
        self.lemma_selected(candidates, candidates.len() as int);
    }

    /// Where identifiers are distinct and every group may run together with
    /// itself, a phase is not empty as soon as one unblocked group has a
    /// positive score.
    pub proof fn lemma_runnables_nonempty(self, g: int)
        requires
            self.distinct_ids(),
            self.self_concurrent(),
            0 <= g < self.groups.len(),
            !self.groups[g].block,
            self.groups[g].score > 0,
        ensures
            self.runnables().len() > 0,
    {
        let n = self.groups.len() as int;
        self.lemma_highest_unblocked(n);
        let h = self.highest_unblocked(n);
        assert(!self.groups[g].block);
        assert(h >= 0);
        let top = self.groups[h];
        assert(top.score >= self.groups[g].score);
        let candidates = top.concurrences;
        let k = choose|k: int| 0 <= k < candidates.len() && candidates[k] == top.id;
        let ids = group_ids(self.groups);
        assert forall|j: int| 0 <= j < h implies ids[j] != top.id by {
            assert(self.groups[j].id != self.groups[h].id);
        }
        lemma_position_is(ids, top.id, h);
        assert(self.group(top.id) == top);
        self.lemma_selected_nonempty(candidates, candidates.len() as int, k);
    }

    /// A phase leaves out no group that could join it: every eligible group
    /// that may run together with the highest-scoring one is in the phase or
    /// blocks a group of the phase.
    pub proof fn lemma_runnables_maximal(self, k: int)
        requires
            self.runnables().len() > 0,
            0 <= k < self.groups[self.highest_unblocked(
                self.groups.len() as int,
            )].concurrences.len(),
            self.eligible(
                self.groups[self.highest_unblocked(self.groups.len() as int)].concurrences[k],
            ),
        ensures
            ({
                let id = self.groups[self.highest_unblocked(
                    self.groups.len() as int,
                )].concurrences[k];
                self.runnables().contains(id) || self.conflicts(id, self.runnables())
            }),
    {
        let h = self.highest_unblocked(self.groups.len() as int);
        let candidates = self.groups[h].concurrences;
        self.lemma_selected(candidates, candidates.len() as int);
    }
}

impl Intersection {
    /// The position of the unblocked group with the highest score, the first
    /// of them where several have it; `None` where every group is blocked.
    pub fn highest_scoring_group(&self) -> (highest: Option<usize>)
        ensures
            match highest {
                Some(h) => h == self@.highest_unblocked(self@.groups.len() as int),
                None => self@.highest_unblocked(self@.groups.len() as int) == -1,
            },
    {
        let mut highest: Option<usize> = None;
        let mut i: usize = 0;
        while i < self.groups.len()
            invariant
                i <= self.groups.len(),
                match highest {
                    Some(h) => h == self@.highest_unblocked(i as int) && h < i,
                    None => self@.highest_unblocked(i as int) == -1,
                },
            decreases self.groups.len() - i,
        {
            if !self.groups[i].block {
                match highest {
                    Some(h) => {
                        if self.groups[i].score > self.groups[h].score {
                            highest = Some(i);
                        }
                    },
                    None => {
                        highest = Some(i);
                    },
                }
            }
            i += 1;
        }
        highest
    }

    /// Whether `group` lists one of `chosen` among the groups it blocks.
    fn blocks_any(group: &Group, chosen: &Vec<GroupId>) -> (conflict: bool)
        ensures
            conflict == exists|k: int|
                0 <= k < chosen@.len() && group@.blocks.contains(#[trigger] chosen@[k]),
    {
        let mut k: usize = 0;
        while k < chosen.len()
            invariant
                k <= chosen.len(),
                forall|w: int| 0 <= w < k ==> !group@.blocks.contains(#[trigger] chosen@[w]),
            decreases chosen.len() - k,
        {
            if group.blocks_group(chosen[k]) {
                return true;
            }
            k += 1;
        }
        false
    }

    /// The groups that proceed in the next phase.
    ///
    /// None where no unblocked group has a positive score. Else the groups
    /// that may run together with the highest-scoring unblocked group are
    /// taken in turn, and each joins the phase if it has a positive score, is
    /// not blocked and blocks no group already in the phase. No group comes
    /// twice where none is listed twice.
    pub fn get_runnables(&self) -> (runnables: Vec<GroupId>)
        ensures
            runnables@ == self@.runnables(),
            forall|i: int| 0 <= i < runnables@.len() ==> self@.eligible(#[trigger] runnables@[i]),
            forall|i: int, j: int|
                0 <= i < j < runnables@.len() ==> !self@.group(
                    #[trigger] runnables@[j],
                ).blocks_group(#[trigger] runnables@[i]),
            self@.distinct_concurrences() ==> runnables@.no_duplicates(),
    {
        proof {
            if self@.distinct_concurrences() {
                self@.lemma_runnables_distinct();
            }
        }
        let mut chosen: Vec<GroupId> = Vec::new();
        let h = match self.highest_scoring_group() {
            Some(h) => h,
            None => {
                return chosen;
            },
        };
        proof {
            self@.lemma_highest_unblocked(self@.groups.len() as int);
        }
        if self.groups[h].score <= 0 {
            return chosen;
        }
        let candidates = &self.groups[h].concurrences;
        let mut n: usize = 0;
        while n < candidates.len()
            invariant
                n <= candidates.len(),
                chosen@ == self@.selected(candidates@, n as int),
            decreases candidates.len() - n,
        {
            let id = candidates[n];
            match self.find_group(id) {
                Some(group) => {
                    if group.score > 0 && !group.block && !Self::blocks_any(group, &chosen) {
                        chosen.push(id);
                    }
                },
                None => {},
            }
            n += 1;
        }
        proof {
            assert(candidates@ == self@.groups[h as int].concurrences);
            self@.lemma_selected(candidates@, candidates@.len() as int);
        }
        chosen
    }
}

} // verus!
