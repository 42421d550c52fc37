//! Builds intersections from definition records.
//!
//! The groups and their components come first, in the order of the records;
//! then each group gets the groups that it blocks; last, each group gets the
//! groups that may run together with it: all that it does not block.
use crate::config::blocks::{Block, Blocks, Group as BlockedGroup};
use crate::config::definitions::{Component as ConfigComponent, Definitions, Group as ConfigGroup};
use crate::intersections::actuator::{Actuator, ActuatorView};
use crate::intersections::component::{ComponentId, ComponentKind, ComponentState};
use crate::intersections::deck::{DeckState, DeckStateError};
use crate::intersections::gate::{GateState, GateStateError};
use crate::intersections::group::{
    actuator_ids, actuators_with, lemma_position, position, sensor_ids, sensors_with, Group,
    GroupId, GroupKind, GroupView,
};
use crate::intersections::intersection::{
    group_ids, group_views, groups_with, Intersection, IntersectionChannelsView, IntersectionView,
};
use crate::intersections::light::{LightState, LightStateError};
use crate::intersections::sensor::{Sensor, SensorState, SensorStateError, SensorView};
use vstd::prelude::*;

verus! {

/// The error for a builder that was given no definitions.
#[derive(Clone, Copy, Debug, Eq, PartialEq, Structural)]
pub struct IntersectionBuildError;

/// Why an intersection could not be built.
#[derive(Clone, Copy, Debug, Eq, PartialEq, Structural)]
pub enum BuildError {
    /// The builder was given no definitions.
    NoDefinitions(IntersectionBuildError),
    /// A record names no group kind.
    InvalidGroupKind,
    /// A record names no component kind.
    InvalidComponentKind,
    /// The initial state of a sensor is no sensor state.
    SensorState(SensorStateError),
    /// The initial state of a light is no light state.
    LightState(LightStateError),
    /// The initial state of a gate is no gate state.
    GateState(GateStateError),
    /// The initial state of a deck is no deck state.
    DeckState(DeckStateError),
    /// The blocks name a group that the definitions do not hold: as the
    /// group that blocks, or as a group that is blocked.
    UnknownGroup(GroupId),
}

/// The initial state of a sensor: the one with the code given, `Low` where
/// none is given.
pub open spec fn initial_sensor_state(code: Option<i32>) -> Result<SensorState, BuildError> {
    match code {
        Some(v) => match SensorState::decoded(v as int) {
            Some(s) => Ok(s),
            None => Err(BuildError::SensorState(SensorStateError::CouldNotConvert { value: v })),
        },
        None => Ok(SensorState::Low),
    }
}

/// The initial state of a light: the one with the code given, `Prohibit`
/// where none is given.
pub open spec fn initial_light_state(code: Option<i32>) -> Result<LightState, BuildError> {
    match code {
        Some(v) => match LightState::decoded(v as int) {
            Some(s) => Ok(s),
            None => Err(BuildError::LightState(LightStateError::CouldNotConvert { value: v })),
        },
        None => Ok(LightState::Prohibit),
    }
}

/// The initial state of a gate: the one with the code given, `Open` where
/// none is given.
pub open spec fn initial_gate_state(code: Option<i32>) -> Result<GateState, BuildError> {
    match code {
        Some(v) => match GateState::decoded(v as int) {
            Some(s) => Ok(s),
            None => Err(BuildError::GateState(GateStateError::CouldNotConvert { value: v })),
        },
        None => Ok(GateState::Open),
    }
}

/// The initial state of a deck: the one with the code given, `Close` where
/// none is given.
pub open spec fn initial_deck_state(code: Option<i32>) -> Result<DeckState, BuildError> {
    match code {
        Some(v) => match DeckState::decoded(v as int) {
            Some(s) => Ok(s),
            None => Err(BuildError::DeckState(DeckStateError::CouldNotConvert { value: v })),
        },
        None => Ok(DeckState::Close),
    }
}

/// The group `group` with the component of the record `record`, made at `now`.
pub open spec fn component_added(group: GroupView, record: ConfigComponent, now: int) -> Result<
    GroupView,
    BuildError,
> {
    match ComponentKind::named(record.kind@) {
        None => Err(BuildError::InvalidComponentKind),
        Some(kind) => {
            let id = ComponentId { kind, id: record.id };
            match kind {
                ComponentKind::Sensor => match initial_sensor_state(record.initial_state) {
                    Err(e) => Err(e),
                    Ok(state) => Ok(
                        GroupView {
                            sensors: sensors_with(
                                group.sensors,
                                SensorView::fresh(
                                    group.id,
                                    id,
                                    state,
                                    match record.distance {
                                        Some(d) => d as int,
                                        None => 0,
                                    },
                                    now,
                                ),
                            ),
                            ..group
                        },
                    ),
                },
                ComponentKind::Light => match initial_light_state(record.initial_state) {
                    Err(e) => Err(e),
                    Ok(state) => Ok(
                        GroupView {
                            lights: actuators_with(
                                group.lights,
                                ActuatorView::fresh(group.id, id, None, state, now),
                            ),
                            ..group
                        },
                    ),
                },
                ComponentKind::Gate => match initial_gate_state(record.initial_state) {
                    Err(e) => Err(e),
                    Ok(state) => Ok(
                        GroupView {
                            gates: actuators_with(
                                group.gates,
                                ActuatorView::fresh(group.id, id, None, state, now),
                            ),
                            ..group
                        },
                    ),
                },
                ComponentKind::Deck => match initial_deck_state(record.initial_state) {
                    Err(e) => Err(e),
                    Ok(state) => Ok(
                        GroupView {
                            decks: actuators_with(
                                group.decks,
                                ActuatorView::fresh(group.id, id, None, state, now),
                            ),
                            ..group
                        },
                    ),
                },
            }
        },
    }
}

/// The group `group` with the components of the first `n` of `records`, or
/// the error of the first record that has one.
pub open spec fn components_built(
    group: GroupView,
    records: Seq<ConfigComponent>,
    n: int,
    now: int,
) -> Result<GroupView, BuildError>
    decreases n,
{
    if n <= 0 {
        Ok(group)
    } else {
        match components_built(group, records, n - 1, now) {
            Err(e) => Err(e),
            Ok(g) => component_added(g, records[n - 1], now),
        }
    }
}

/// The group of the record `record`, with its components, made at `now`.
pub open spec fn group_built(record: ConfigGroup, now: int) -> Result<GroupView, BuildError> {
    match GroupKind::named(record.kind@) {
        None => Err(BuildError::InvalidGroupKind),
        Some(kind) => {
            let group = GroupView::fresh(
                GroupId { kind, id: record.id },
                match record.can_be_blocked {
                    Some(b) => b,
                    None => false,
                },
            );
            match record.components {
                Some(components) => components_built(
                    group,
                    components@,
                    components@.len() as int,
                    now,
                ),
                None => Ok(group),
            }
        },
    }
}

/// The intersection `intersection` with the groups of the first `n` of
/// `records`, or the error of the first record that has one.
pub open spec fn groups_built(
    intersection: IntersectionView,
    records: Seq<ConfigGroup>,
    n: int,
    now: int,
) -> Result<IntersectionView, BuildError>
    decreases n,
{
    if n <= 0 {
        Ok(intersection)
    } else {
        match groups_built(intersection, records, n - 1, now) {
            Err(e) => Err(e),
            Ok(ix) => match group_built(records[n - 1], now) {
                Err(e) => Err(e),
                Ok(group) => Ok(IntersectionView { groups: groups_with(ix.groups, group), ..ix }),
            },
        }
    }
}

/// The intersection after the group `target` got the first `n` of `records`
/// as groups that it blocks.
pub open spec fn peers_added(
    intersection: IntersectionView,
    target: GroupId,
    records: Seq<Block>,
    n: int,
) -> Result<IntersectionView, BuildError>
    decreases n,
{
    if n <= 0 {
        Ok(intersection)
    } else {
        match peers_added(intersection, target, records, n - 1) {
            Err(e) => Err(e),
            Ok(ix) => match GroupKind::named(records[n - 1].kind@) {
                None => Err(BuildError::InvalidGroupKind),
                Some(kind) => {
                    let peer = GroupId { kind, id: records[n - 1].id };
                    if ix.has_group(peer) {
                        Ok(
                            ix.with_group_at(
                                target,
                                GroupView {
                                    blocks: ix.group(target).blocks.push(peer),
                                    ..ix.group(target)
                                },
                            ),
                        )
                    } else {
                        Err(BuildError::UnknownGroup(peer))
                    }
                },
            },
        }
    }
}

/// The intersection after the first `n` of `records` were taken: each names a
/// group and the groups that it blocks. A record whose own group the
/// intersection does not hold fails, as a blocked group that it does not hold
/// does.
pub open spec fn blocks_filled(
    intersection: IntersectionView,
    records: Seq<BlockedGroup>,
    n: int,
) -> Result<IntersectionView, BuildError>
    decreases n,
{
    if n <= 0 {
        Ok(intersection)
    } else {
        match blocks_filled(intersection, records, n - 1) {
            Err(e) => Err(e),
            Ok(ix) => match GroupKind::named(records[n - 1].kind@) {
                None => Err(BuildError::InvalidGroupKind),
                Some(kind) => {
                    let target = GroupId { kind, id: records[n - 1].id };
                    if ix.has_group(target) {
                        peers_added(
                            ix,
                            target,
                            records[n - 1].blocks@,
                            records[n - 1].blocks@.len() as int,
                        )
                    } else {
                        Err(BuildError::UnknownGroup(target))
                    }
                },
            },
        }
    }
}

/// Those among the first `n` of `ids` that `blocks` does not hold, in order.
pub open spec fn unblocked_peers(blocks: Seq<GroupId>, ids: Seq<GroupId>, n: int) -> Seq<GroupId>
    decreases n,
{
    if n <= 0 {
        Seq::empty()
    } else if blocks.contains(ids[n - 1]) {
        unblocked_peers(blocks, ids, n - 1)
    } else {
        unblocked_peers(blocks, ids, n - 1).push(ids[n - 1])
    }
}

/// The group with every group of `ids` that it does not block added to the
/// groups that may run together with it.
pub open spec fn with_concurrences(group: GroupView, ids: Seq<GroupId>) -> GroupView {
    GroupView {
        concurrences: group.concurrences + unblocked_peers(group.blocks, ids, ids.len() as int),
        ..group
    }
}

/// The intersection after every group got the groups that may run together
/// with it: all groups that it does not block, itself among them.
pub open spec fn concurrences_filled(intersection: IntersectionView) -> IntersectionView {
    IntersectionView {
        groups: Seq::new(
            intersection.groups.len(),
            |i: int| with_concurrences(intersection.groups[i], group_ids(intersection.groups)),
        ),
        ..intersection
    }
}

/// The intersection that is built at `now` from `defs` and `blocks`, or why
/// none is.
pub open spec fn built(defs: Option<&Definitions>, blocks: Option<&Blocks>, now: int) -> Result<
    IntersectionView,
    BuildError,
> {
    match defs {
        None => Err(BuildError::NoDefinitions(IntersectionBuildError)),
        Some(defs) => match groups_built(
            IntersectionView::fresh(None),
            defs.groups@,
            defs.groups@.len() as int,
            now,
        ) {
            Err(e) => Err(e),
            Ok(ix) => match blocks {
                None => Ok(concurrences_filled(ix)),
                Some(blocks) => match blocks_filled(
                    ix,
                    blocks.groups@,
                    blocks.groups@.len() as int,
                ) {
                    Err(e) => Err(e),
                    Ok(filled) => Ok(concurrences_filled(filled)),
                },
            },
        },
    }
}

/// Once a record has failed, taking more records changes nothing.
pub proof fn lemma_components_failed(
    group: GroupView,
    records: Seq<ConfigComponent>,
    k: int,
    n: int,
    now: int,
)
    requires
        0 <= k <= n,
        components_built(group, records, k, now).is_err(),
    ensures
        components_built(group, records, n, now) == components_built(group, records, k, now),
    decreases n - k,
{
    if k < n {
        lemma_components_failed(group, records, k, n - 1, now);
    }
}

/// Once a record has failed, taking more records changes nothing.
pub proof fn lemma_groups_failed(
    intersection: IntersectionView,
    records: Seq<ConfigGroup>,
    k: int,
    n: int,
    now: int,
)
    requires
        0 <= k <= n,
        groups_built(intersection, records, k, now).is_err(),
    ensures
        groups_built(intersection, records, n, now) == groups_built(intersection, records, k, now),
    decreases n - k,
{
    if k < n {
        lemma_groups_failed(intersection, records, k, n - 1, now);
    }
}

/// Once a record has failed, taking more records changes nothing.
pub proof fn lemma_peers_failed(
    intersection: IntersectionView,
    target: GroupId,
    records: Seq<Block>,
    k: int,
    n: int,
)
    requires
        0 <= k <= n,
        peers_added(intersection, target, records, k).is_err(),
    ensures
        peers_added(intersection, target, records, n) == peers_added(
            intersection,
            target,
            records,
            k,
        ),
    decreases n - k,
{
    if k < n {
        lemma_peers_failed(intersection, target, records, k, n - 1);
    }
}

/// Once a record has failed, taking more records changes nothing.
pub proof fn lemma_blocks_failed(
    intersection: IntersectionView,
    records: Seq<BlockedGroup>,
    k: int,
    n: int,
)
    requires
        0 <= k <= n,
        blocks_filled(intersection, records, k).is_err(),
    ensures
        blocks_filled(intersection, records, n) == blocks_filled(intersection, records, k),
    decreases n - k,
{
    if k < n {
        lemma_blocks_failed(intersection, records, k, n - 1);
    }
}

/// What holds of an intersection while it is built: it is well formed,
/// nothing is pending on its channels, and no group has been given the groups
/// that may run together with it yet.
pub open spec fn in_the_making(intersection: IntersectionView) -> bool {
    &&& intersection.well_formed()
    &&& intersection.channels == IntersectionChannelsView::empty()
    &&& forall|g: int|
        0 <= g < intersection.groups.len() ==> (
        #[trigger] intersection.groups[g]).concurrences.len() == 0
}

/// Whether the groups that may run together with a group are exactly the
/// groups of the intersection that it does not block, for every group.
pub open spec fn concurrences_complete(intersection: IntersectionView) -> bool {
    forall|g: int, id: GroupId|
        0 <= g < intersection.groups.len() ==> (#[trigger] intersection.groups[g].concurrences.contains(
            id,
        ) <==> group_ids(intersection.groups).contains(id) && !intersection.groups[g].blocks_group(
            id,
        ))
}

/// Putting a sensor under its identifier keeps the sensors of a group apart
/// and within the group.
pub proof fn lemma_sensors_with(list: Seq<SensorView>, sensor: SensorView, group: GroupId)
    requires
        sensor.group == group,
        forall|i: int| 0 <= i < list.len() ==> (#[trigger] list[i]).group == group,
        forall|i: int, j: int|
            0 <= i < j < list.len() ==> (#[trigger] list[i]).id != (#[trigger] list[j]).id,
    ensures
        forall|i: int|
            0 <= i < sensors_with(list, sensor).len() ==> (#[trigger] sensors_with(
                list,
                sensor,
            )[i]).group == group,
        forall|i: int, j: int|
            0 <= i < j < sensors_with(list, sensor).len() ==> (#[trigger] sensors_with(
                list,
                sensor,
            )[i]).id != (#[trigger] sensors_with(list, sensor)[j]).id,
{
    lemma_position(sensor_ids(list), sensor.id);
    let after = sensors_with(list, sensor);
    let p = position(sensor_ids(list), sensor.id);
    assert forall|i: int, j: int| 0 <= i < j < after.len() implies (#[trigger] after[i]).id != (
    #[trigger] after[j]).id by {
        if p < list.len() {
            assert(sensor_ids(list)[p] == sensor.id);
            assert(after[i].id == list[i].id);
            assert(after[j].id == list[j].id);
        } else if j == list.len() {
            assert(sensor_ids(list)[i] != sensor.id);
        }
    }
}

/// Putting an actuator under its identifier keeps the actuators of a group
/// apart and within the group.
pub proof fn lemma_actuators_with<S: ComponentState>(
    list: Seq<ActuatorView<S>>,
    actuator: ActuatorView<S>,
    group: GroupId,
)
    requires
        actuator.group == group,
        forall|i: int| 0 <= i < list.len() ==> (#[trigger] list[i]).group == group,
        forall|i: int, j: int|
            0 <= i < j < list.len() ==> (#[trigger] list[i]).id != (#[trigger] list[j]).id,
    ensures
        forall|i: int|
            0 <= i < actuators_with(list, actuator).len() ==> (#[trigger] actuators_with(
                list,
                actuator,
            )[i]).group == group,
        forall|i: int, j: int|
            0 <= i < j < actuators_with(list, actuator).len() ==> (#[trigger] actuators_with(
                list,
                actuator,
            )[i]).id != (#[trigger] actuators_with(list, actuator)[j]).id,
{
    lemma_position(actuator_ids(list), actuator.id);
    let after = actuators_with(list, actuator);
    let p = position(actuator_ids(list), actuator.id);
    assert forall|i: int, j: int| 0 <= i < j < after.len() implies (#[trigger] after[i]).id != (
    #[trigger] after[j]).id by {
        if p < list.len() {
            assert(actuator_ids(list)[p] == actuator.id);
            assert(after[i].id == list[i].id);
            assert(after[j].id == list[j].id);
        } else if j == list.len() {
            assert(actuator_ids(list)[i] != actuator.id);
        }
    }
}

/// Adding a component keeps a group well formed and changes nothing but its
/// components.
pub proof fn lemma_component_added(group: GroupView, record: ConfigComponent, now: int)
    requires
        group.well_formed(),
    ensures
        component_added(group, record, now) matches Ok(g) ==> g.well_formed() && g.id == group.id
            && g.blocks == group.blocks && g.concurrences == group.concurrences,
{
    if component_added(group, record, now).is_ok() {
        let kind = ComponentKind::named(record.kind@).unwrap();
        let id = ComponentId { kind, id: record.id };
        match kind {
            ComponentKind::Sensor => {
                let state = initial_sensor_state(record.initial_state).unwrap();
                let distance = match record.distance {
                    Some(d) => d as int,
                    None => 0,
                };
                lemma_sensors_with(
                    group.sensors,
                    SensorView::fresh(group.id, id, state, distance, now),
                    group.id,
                );
            },
            ComponentKind::Light => {
                let state = initial_light_state(record.initial_state).unwrap();
                lemma_actuators_with(
                    group.lights,
                    ActuatorView::fresh(group.id, id, None, state, now),
                    group.id,
                );
            },
            ComponentKind::Gate => {
                let state = initial_gate_state(record.initial_state).unwrap();
                lemma_actuators_with(
                    group.gates,
                    ActuatorView::fresh(group.id, id, None, state, now),
                    group.id,
                );
            },
            ComponentKind::Deck => {
                let state = initial_deck_state(record.initial_state).unwrap();
                lemma_actuators_with(
                    group.decks,
                    ActuatorView::fresh(group.id, id, None, state, now),
                    group.id,
                );
            },
        }
    }
}

/// Adding components keeps a group well formed and changes nothing but its
/// components.
pub proof fn lemma_components_built(
    group: GroupView,
    records: Seq<ConfigComponent>,
    n: int,
    now: int,
)
    requires
        group.well_formed(),
    ensures
        components_built(group, records, n, now) matches Ok(g) ==> g.well_formed() && g.id
            == group.id && g.blocks == group.blocks && g.concurrences == group.concurrences,
    decreases n,
{
    if n > 0 {
        lemma_components_built(group, records, n - 1, now);
        if components_built(group, records, n - 1, now).is_ok() {
            let g = components_built(group, records, n - 1, now).unwrap();
            lemma_component_added(g, records[n - 1], now);
        }
    }
}

/// Putting a group under its identifier keeps identifiers distinct.
pub proof fn lemma_groups_with(list: Seq<GroupView>, group: GroupView)
    requires
        forall|i: int, j: int|
            0 <= i < j < list.len() ==> (#[trigger] list[i]).id != (#[trigger] list[j]).id,
    ensures
        forall|i: int, j: int|
            0 <= i < j < groups_with(list, group).len() ==> (#[trigger] groups_with(
                list,
                group,
            )[i]).id != (#[trigger] groups_with(list, group)[j]).id,
{
    lemma_position(group_ids(list), group.id);
    let after = groups_with(list, group);
    let p = position(group_ids(list), group.id);
    assert forall|i: int, j: int| 0 <= i < j < after.len() implies (#[trigger] after[i]).id != (
    #[trigger] after[j]).id by {
        if p < list.len() {
            assert(after[i].id == list[i].id);
            assert(after[j].id == list[j].id);
        } else {
            if j == list.len() {
                assert(group_ids(list)[i] != group.id);
            }
        }
    }
}

/// Adding groups keeps an intersection as it has to be while it is built.
pub proof fn lemma_groups_built(
    intersection: IntersectionView,
    records: Seq<ConfigGroup>,
    n: int,
    now: int,
)
    requires
        in_the_making(intersection),
    ensures
        groups_built(intersection, records, n, now) matches Ok(v) ==> in_the_making(v),
    decreases n,
{
    if n > 0 {
        lemma_groups_built(intersection, records, n - 1, now);
        if groups_built(intersection, records, n - 1, now).is_ok() {
            let ix = groups_built(intersection, records, n - 1, now).unwrap();
            if group_built(records[n - 1], now).is_ok() {
                let group = group_built(records[n - 1], now).unwrap();
                let kind = GroupKind::named(records[n - 1].kind@).unwrap();
                let empty = GroupView::fresh(
                    GroupId { kind, id: records[n - 1].id },
                    match records[n - 1].can_be_blocked {
                        Some(b) => b,
                        None => false,
                    },
                );
                assert(empty.well_formed());
                match records[n - 1].components {
                    Some(components) => {
                        lemma_components_built(empty, components@, components@.len() as int, now);
                    },
                    None => {},
                }
                lemma_groups_with(ix.groups, group);
                lemma_position(group_ids(ix.groups), group.id);
            }
        }
    }
}

/// Giving a group the groups that it blocks keeps an intersection as it has
/// to be while it is built, and keeps its identifiers.
pub proof fn lemma_peers_added(
    intersection: IntersectionView,
    target: GroupId,
    records: Seq<Block>,
    n: int,
)
    requires
        in_the_making(intersection),
        intersection.has_group(target),
    ensures
        peers_added(intersection, target, records, n) matches Ok(v) ==> in_the_making(v)
            && group_ids(v.groups) == group_ids(intersection.groups),
    decreases n,
{
    if n > 0 {
        lemma_peers_added(intersection, target, records, n - 1);
        if peers_added(intersection, target, records, n - 1).is_ok() {
            let ix = peers_added(intersection, target, records, n - 1).unwrap();
            if peers_added(intersection, target, records, n).is_ok() {
                let v = peers_added(intersection, target, records, n).unwrap();
                let kind = GroupKind::named(records[n - 1].kind@).unwrap();
                let peer = GroupId { kind, id: records[n - 1].id };
                let group = GroupView {
                    blocks: ix.group(target).blocks.push(peer),
                    ..ix.group(target)
                };
                ix.lemma_group_found(target);
                ix.lemma_with_group_at(target, group);
                assert(ix.group(target).well_formed());
                assert forall|g: int| 0 <= g < v.groups.len() implies (#[trigger] v.groups[g]).id
                    == ix.groups[g].id by {
                    assert(group_ids(v.groups)[g] == group_ids(ix.groups)[g]);
                }
            }
        }
    } else {
        assert(peers_added(intersection, target, records, n) == Ok::<
            IntersectionView,
            BuildError,
        >(intersection));
    }
}

/// The group that the record `record` names.
pub open spec fn peer_id(record: Block) -> GroupId
    recommends
        GroupKind::named(record.kind@).is_some(),
{
    GroupId { kind: GroupKind::named(record.kind@).unwrap(), id: record.id }
}

/// The groups that the first `n` of `records` name, in order.
pub open spec fn peer_ids(records: Seq<Block>, n: int) -> Seq<GroupId>
    decreases n,
{
    if n <= 0 {
        Seq::empty()
    } else {
        peer_ids(records, n - 1).push(peer_id(records[n - 1]))
    }
}

/// Whether the record `record` names a group of the intersection.
pub open spec fn peer_known(intersection: IntersectionView, record: Block) -> bool {
    GroupKind::named(record.kind@).is_some() && intersection.has_group(peer_id(record))
}

/// Whether the record `record` names a group of the intersection and, as the
/// groups that it blocks, groups of the intersection only.
pub open spec fn record_known(intersection: IntersectionView, record: BlockedGroup) -> bool {
    &&& GroupKind::named(record.kind@).is_some()
    &&& intersection.has_group(
        GroupId { kind: GroupKind::named(record.kind@).unwrap(), id: record.id },
    )
    &&& forall|k: int|
        0 <= k < record.blocks@.len() ==> peer_known(intersection, #[trigger] record.blocks@[k])
}

/// Where a group is given the groups that it blocks, it blocks exactly the
/// groups that the records name, in their order, after those that it blocked
/// before; every one of them is a group of the intersection; and nothing else
/// changes.
pub proof fn lemma_peers_added_blocks(
    intersection: IntersectionView,
    target: GroupId,
    records: Seq<Block>,
    n: int,
)
    requires
        intersection.has_group(target),
        0 <= n <= records.len(),
    ensures
        peer_ids(records, n).len() == n,
        peers_added(intersection, target, records, n) matches Ok(v) ==> v
            == intersection.with_group_at(
            target,
            GroupView {
                blocks: intersection.group(target).blocks + peer_ids(records, n),
                ..intersection.group(target)
            },
        ) && group_ids(v.groups) == group_ids(intersection.groups) && forall|k: int|
            0 <= k < n ==> peer_known(intersection, #[trigger] records[k]),
    decreases n,
{
    let group = intersection.group(target);
    intersection.lemma_group_found(target);
    let p = intersection.group_position(target);
    if n <= 0 {
        assert(group.blocks + peer_ids(records, n) =~= group.blocks);
        assert(intersection.groups.update(p, group) =~= intersection.groups);
    } else {
        lemma_peers_added_blocks(intersection, target, records, n - 1);
        if peers_added(intersection, target, records, n).is_ok() {
            let before = peers_added(intersection, target, records, n - 1).unwrap();
            let after = peers_added(intersection, target, records, n).unwrap();
            let peer = peer_id(records[n - 1]);
            let was = GroupView { blocks: group.blocks + peer_ids(records, n - 1), ..group };
            let now = GroupView { blocks: group.blocks + peer_ids(records, n), ..group };
            intersection.lemma_with_group_at(target, was);
            intersection.lemma_with_group_at(target, now);
            assert(before.group(target) == was);
            assert(was.blocks.push(peer) =~= now.blocks);
            assert(after.groups =~= intersection.groups.update(p, now));
            assert(before.has_group(peer));
            assert(peer_known(intersection, records[n - 1]));
        }
    }
}

/// Where the blocks are filled in, every record names a group of the
/// intersection and, as the groups that it blocks, groups of the intersection
/// only; no group is added or taken away.
pub proof fn lemma_blocks_filled_known(
    intersection: IntersectionView,
    records: Seq<BlockedGroup>,
    n: int,
)
    requires
        0 <= n <= records.len(),
    ensures
        blocks_filled(intersection, records, n) matches Ok(v) ==> group_ids(v.groups)
            == group_ids(intersection.groups) && forall|i: int|
            0 <= i < n ==> record_known(intersection, #[trigger] records[i]),
    decreases n,
{
    if n > 0 {
        lemma_blocks_filled_known(intersection, records, n - 1);
        if blocks_filled(intersection, records, n).is_ok() {
            let before = blocks_filled(intersection, records, n - 1).unwrap();
            let record = records[n - 1];
            let target = GroupId { kind: GroupKind::named(record.kind@).unwrap(), id: record.id };
            lemma_peers_added_blocks(before, target, record.blocks@, record.blocks@.len() as int);
            assert forall|k: int| 0 <= k < record.blocks@.len() implies peer_known(
                intersection,
                #[trigger] record.blocks@[k],
            ) by {
                assert(peer_known(before, record.blocks@[k]));
            }
        }
    }
}

/// Filling in the blocks keeps an intersection as it has to be while it is
/// built.
pub proof fn lemma_blocks_filled(
    intersection: IntersectionView,
    records: Seq<BlockedGroup>,
    n: int,
)
    requires
        in_the_making(intersection),
    ensures
        blocks_filled(intersection, records, n) matches Ok(v) ==> in_the_making(v),
    decreases n,
{
    if n > 0 {
        lemma_blocks_filled(intersection, records, n - 1);
        if blocks_filled(intersection, records, n - 1).is_ok() {
            let ix = blocks_filled(intersection, records, n - 1).unwrap();
            if GroupKind::named(records[n - 1].kind@).is_some() {
                let kind = GroupKind::named(records[n - 1].kind@).unwrap();
                let target = GroupId { kind, id: records[n - 1].id };
                if ix.has_group(target) {
                    lemma_peers_added(
                        ix,
                        target,
                        records[n - 1].blocks@,
                        records[n - 1].blocks@.len() as int,
                    );
                }
            }
        }
    }
}

/// The groups that `unblocked_peers` picks are those among the first `n`
/// identifiers that `blocks` does not hold.
pub proof fn lemma_unblocked_peers(blocks: Seq<GroupId>, ids: Seq<GroupId>, n: int, id: GroupId)
    requires
        0 <= n <= ids.len(),
    ensures
        unblocked_peers(blocks, ids, n).contains(id) <==> ids.take(n).contains(id)
            && !blocks.contains(id),
    decreases n,
{
    if n > 0 {
        lemma_unblocked_peers(blocks, ids, n - 1, id);
        let before = unblocked_peers(blocks, ids, n - 1);
        let after = unblocked_peers(blocks, ids, n);
        let shorter = ids.take(n - 1);
        let longer = ids.take(n);
        assert(longer[n - 1] == ids[n - 1]);
        if shorter.contains(id) {
            let k = choose|k: int| 0 <= k < shorter.len() && shorter[k] == id;
            assert(longer[k] == id);
        }
        if longer.contains(id) && !shorter.contains(id) {
            let k = choose|k: int| 0 <= k < longer.len() && longer[k] == id;
            if k < n - 1 {
                assert(shorter[k] == id);
            }
            assert(ids[n - 1] == id);
        }
        if before.contains(id) {
            let k = choose|k: int| 0 <= k < before.len() && before[k] == id;
            if !blocks.contains(ids[n - 1]) {
                assert(after[k] == id);
            }
        }
        if after.contains(id) && !before.contains(id) {
            let k = choose|k: int| 0 <= k < after.len() && after[k] == id;
            if k < before.len() {
                assert(before[k] == id);
            }
        }
        if !blocks.contains(ids[n - 1]) {
            assert(after[after.len() - 1] == ids[n - 1]);
        }
    }
}

/// Among identifiers that are all different, `unblocked_peers` picks none
/// twice.
pub proof fn lemma_unblocked_peers_distinct(blocks: Seq<GroupId>, ids: Seq<GroupId>, n: int)
    requires
        0 <= n <= ids.len(),
        ids.no_duplicates(),
    ensures
        unblocked_peers(blocks, ids, n).no_duplicates(),
    decreases n,
{
    if n > 0 {
        lemma_unblocked_peers_distinct(blocks, ids, n - 1);
        let before = unblocked_peers(blocks, ids, n - 1);
        let after = unblocked_peers(blocks, ids, n);
        let shorter = ids.take(n - 1);
        assert forall|i: int, j: int|
            0 <= i < after.len() && 0 <= j < after.len() && i != j implies after[i] != after[j] by {
            if i < before.len() && j < before.len() {
                assert(before[i] != before[j]);
            } else {
                let k = if i < before.len() {
                    i
                } else {
                    j
                };
                lemma_unblocked_peers(blocks, ids, n - 1, before[k]);
                assert(before.contains(before[k]));
                let w = choose|w: int| 0 <= w < shorter.len() && shorter[w] == before[k];
                assert(ids[w] != ids[n - 1]);
            }
        }
    }
}

/// After the groups that may run together were filled in, they are exactly
/// the groups that a group does not block; so a group that does not block
/// itself may run together with itself.
pub proof fn lemma_concurrences_filled(intersection: IntersectionView)
    requires
        in_the_making(intersection),
    ensures
        concurrences_filled(intersection).sound(),
        concurrences_filled(intersection).consistent(),
        concurrences_filled(intersection).distinct_ids(),
        concurrences_filled(intersection).distinct_concurrences(),
        concurrences_complete(concurrences_filled(intersection)),
        (forall|g: int|
            0 <= g < intersection.groups.len() ==> !(
            #[trigger] intersection.groups[g]).blocks_group(intersection.groups[g].id))
            ==> concurrences_filled(intersection).self_concurrent(),
{
    let v = concurrences_filled(intersection);
    let ids = group_ids(intersection.groups);
    assert(group_ids(v.groups) =~= ids);
    assert(ids.take(ids.len() as int) =~= ids);
    assert forall|i: int, j: int| 0 <= i < ids.len() && 0 <= j < ids.len() && i != j implies ids[i]
        != ids[j] by {
        if i < j {
            assert(intersection.groups[i].id != intersection.groups[j].id);
        } else {
            assert(intersection.groups[j].id != intersection.groups[i].id);
        }
    }
    assert forall|g: int| 0 <= g < v.groups.len() implies (
    #[trigger] v.groups[g]).concurrences.no_duplicates() by {
        let group = intersection.groups[g];
        lemma_unblocked_peers_distinct(group.blocks, ids, ids.len() as int);
        assert(group.concurrences.len() == 0);
        assert(v.groups[g].concurrences =~= unblocked_peers(group.blocks, ids, ids.len() as int));
    }
    assert forall|g: int| 0 <= g < v.groups.len() implies (#[trigger] v.groups[g]).well_formed() by {
        assert(intersection.groups[g].well_formed());
    }
    v.lemma_consistent();
    assert forall|g: int, id: GroupId| 0 <= g < v.groups.len() implies (
    #[trigger] v.groups[g].concurrences.contains(id) <==> group_ids(v.groups).contains(id)
        && !v.groups[g].blocks_group(id)) by {
        let group = intersection.groups[g];
        lemma_unblocked_peers(group.blocks, ids, ids.len() as int, id);
        assert(group.concurrences.len() == 0);
        assert(v.groups[g].concurrences =~= unblocked_peers(group.blocks, ids, ids.len() as int));
    }
    if forall|g: int|
        0 <= g < intersection.groups.len() ==> !(#[trigger] intersection.groups[g]).blocks_group(
            intersection.groups[g].id,
        ) {
        assert forall|g: int| 0 <= g < v.groups.len() implies (
        #[trigger] v.groups[g]).concurrences.contains(v.groups[g].id) by {
            assert(!intersection.groups[g].blocks_group(intersection.groups[g].id));
            assert(ids[g] == v.groups[g].id);
            assert(v.groups[g].blocks_group(v.groups[g].id) == intersection.groups[g].blocks_group(
                intersection.groups[g].id,
            ));
        }
    }
}

/// Whether every record of `blocks`, if there are blocks, names a group of
/// the intersection and, as the groups that it blocks, groups of the
/// intersection only.
pub open spec fn blocks_known(intersection: IntersectionView, blocks: Option<&Blocks>) -> bool {
    match blocks {
        Some(b) => forall|i: int|
            0 <= i < b.groups@.len() ==> record_known(intersection, #[trigger] b.groups@[i]),
        None => true,
    }
}

/// What holds of every intersection that is built: it is sound, so that every
/// component belongs to the group that holds it and is found under its own
/// identifier; the blocks name groups of the intersection only; the groups
/// that may run together with a group are exactly the groups that it does not
/// block, each listed once; and where no group blocks itself, every group may
/// run together with itself.
pub proof fn lemma_built(defs: Option<&Definitions>, blocks: Option<&Blocks>, now: int)
    ensures
        built(defs, blocks, now) matches Ok(v) ==> v.sound() && v.consistent() && v.distinct_ids()
            && v.distinct_concurrences() && blocks_known(v, blocks)
            && concurrences_complete(v) && ((forall|g: int|
            0 <= g < v.groups.len() ==> !(#[trigger] v.groups[g]).blocks_group(v.groups[g].id))
            ==> v.self_concurrent()),
{
    if built(defs, blocks, now).is_ok() {
        let v = built(defs, blocks, now).unwrap();
        let d = defs.unwrap();
        let start = IntersectionView::fresh(None);
        assert(in_the_making(start));
        lemma_groups_built(start, d.groups@, d.groups@.len() as int, now);
        let ix = groups_built(start, d.groups@, d.groups@.len() as int, now).unwrap();
        let filled = match blocks {
            None => ix,
            Some(b) => blocks_filled(ix, b.groups@, b.groups@.len() as int).unwrap(),
        };
        match blocks {
            None => {},
            Some(b) => {
                lemma_blocks_filled(ix, b.groups@, b.groups@.len() as int);
                lemma_blocks_filled_known(ix, b.groups@, b.groups@.len() as int);
            },
        }
        lemma_concurrences_filled(filled);
        assert(v == concurrences_filled(filled));
        assert(group_ids(v.groups) =~= group_ids(filled.groups));
        match blocks {
            None => {},
            Some(b) => {
                assert forall|i: int| 0 <= i < b.groups@.len() implies record_known(
                    v,
                    #[trigger] b.groups@[i],
                ) by {
                    let record = b.groups@[i];
                    assert(record_known(ix, record));
                    assert forall|k: int| 0 <= k < record.blocks@.len() implies peer_known(
                        v,
                        #[trigger] record.blocks@[k],
                    ) by {
                        assert(peer_known(ix, record.blocks@[k]));
                    }
                }
            },
        }
        assert forall|g: int| 0 <= g < v.groups.len() implies (#[trigger] v.groups[g]).blocks
            == filled.groups[g].blocks && v.groups[g].id == filled.groups[g].id by {}
        if forall|g: int|
            0 <= g < v.groups.len() ==> !(#[trigger] v.groups[g]).blocks_group(v.groups[g].id) {
            assert forall|g: int| 0 <= g < filled.groups.len() implies !(
            #[trigger] filled.groups[g]).blocks_group(filled.groups[g].id) by {
                assert(!v.groups[g].blocks_group(v.groups[g].id));
            }
        }
    }
}

/// Collects definitions and blocks, and builds an intersection from them.
pub struct IntersectionsBuilder<'a> {
    pub defs: Option<&'a Definitions>,
    pub blocks: Option<&'a Blocks>,
}

impl<'a> IntersectionsBuilder<'a> {
    /// A builder without definitions and without blocks.
    pub fn new() -> (builder: IntersectionsBuilder<'a>)
        ensures
            builder.defs.is_none(),
            builder.blocks.is_none(),
    {
        Self { defs: None, blocks: None }
    }

    /// The builder with `defs` as its definitions.
    pub fn with_defs(self, defs: &'a Definitions) -> (builder: Self)
        ensures
            builder.defs == Some(defs),
            builder.blocks == self.blocks,
    {
        Self { defs: Some(defs), blocks: self.blocks }
    }

    /// The builder with `blocks` as its blocks.
    pub fn with_blocks(self, blocks: &'a Blocks) -> (builder: Self)
        ensures
            builder.blocks == Some(blocks),
            builder.defs == self.defs,
    {
        Self { defs: self.defs, blocks: Some(blocks) }
    }

    /// Builds the intersection at `now`: groups with their components, then
    /// blocks, then concurrences. Fails without definitions, on a text that
    /// names no kind, on an initial state that is none, and on blocks that
    /// name a group that the definitions do not hold.
    pub fn finish(&self, now: i64) -> (result: Result<Intersection, BuildError>)
        ensures
            match built(self.defs, self.blocks, now as int) {
                Ok(v) => result matches Ok(made) && made@ == v,
                Err(e) => result matches Err(error) && error == e,
            },
            result matches Ok(made) ==> made@.sound() && concurrences_complete(made@)
                && made@.distinct_concurrences() && blocks_known(made@, self.blocks),
    {
        proof {
            lemma_built(self.defs, self.blocks, now as int);
        }
        let defs = match self.defs {
            Some(defs) => defs,
            None => {
                return Err(BuildError::NoDefinitions(IntersectionBuildError));
            },
        };
        let intersection = Intersection::new(None);
        let intersection = match self.build_groups(&defs.groups, intersection, now) {
            Ok(ix) => ix,
            Err(e) => {
                return Err(e);
            },
        };
        let intersection = match self.fill_blocks(intersection) {
            Ok(ix) => ix,
            Err(e) => {
                return Err(e);
            },
        };
        Ok(self.fill_concurrences(intersection))
    }

    /// Adds the groups of `conf_groups` to `intersection`, in order, each with
    /// its components made at `now`.
    #[verifier::loop_isolation(false)]
    pub fn build_groups(
        &self,
        conf_groups: &Vec<ConfigGroup>,
        intersection: Intersection,
        now: i64,
    ) -> (result: Result<Intersection, BuildError>)
        ensures
            match groups_built(
                intersection@,
                conf_groups@,
                conf_groups@.len() as int,
                now as int,
            ) {
                Ok(v) => result matches Ok(made) && made@ == v,
                Err(e) => result matches Err(error) && error == e,
            },
    {
        let ghost start = intersection@;
        let mut intersection = intersection;
        let mut i: usize = 0;
        while i < conf_groups.len()
            invariant
                i <= conf_groups.len(),
                groups_built(start, conf_groups@, i as int, now as int) == Ok::<
                    IntersectionView,
                    BuildError,
                >(intersection@),
            decreases conf_groups.len() - i,
        {
            let conf_group = &conf_groups[i];
            proof {
                if group_built(conf_groups@[i as int], now as int).is_err() {
                    lemma_groups_failed(
                        start,
                        conf_groups@,
                        i + 1,
                        conf_groups@.len() as int,
                        now as int,
                    );
                }
            }
            let kind = match GroupKind::try_from(conf_group.kind.as_str()) {
                Ok(kind) => kind,
                Err(_) => {
                    return Err(BuildError::InvalidGroupKind);
                },
            };
            let id = GroupId { kind, id: conf_group.id };
            let group = Group::new(
                id,
                match conf_group.can_be_blocked {
                    Some(can_be_blocked) => can_be_blocked,
                    None => false,
                },
            );
            let group = match &conf_group.components {
                Some(records) => match self.build_components(records, group, now) {
                    Ok(group) => group,
                    Err(e) => {
                        return Err(e);
                    },
                },
                None => group,
            };
            intersection.insert_group(group);
            i += 1;
        }
        Ok(intersection)
    }

    /// Adds the components of `records` to `group`, in order, each made at
    /// `now` in its initial state.
    #[verifier::loop_isolation(false)]
    pub fn build_components(
        &self,
        records: &Vec<ConfigComponent>,
        group: Group,
        now: i64,
    ) -> (result: Result<Group, BuildError>)
        ensures
            match components_built(group@, records@, records@.len() as int, now as int) {
                Ok(v) => result matches Ok(made) && made@ == v,
                Err(e) => result matches Err(error) && error == e,
            },
    {
        let ghost start = group@;
        let mut group = group;
        let mut i: usize = 0;
        while i < records.len()
            invariant
                i <= records.len(),
                components_built(start, records@, i as int, now as int) == Ok::<
                    GroupView,
                    BuildError,
                >(group@),
            decreases records.len() - i,
        {
            let record = &records[i];
            proof {
                if component_added(group@, records@[i as int], now as int).is_err() {
                    lemma_components_failed(
                        start,
                        records@,
                        i + 1,
                        records@.len() as int,
                        now as int,
                    );
                }
            }
            let kind = match ComponentKind::try_from(record.kind.as_str()) {
                Ok(kind) => kind,
                Err(_) => {
                    return Err(BuildError::InvalidComponentKind);
                },
            };
            let id = ComponentId { kind, id: record.id };
            match kind {
                ComponentKind::Sensor => {
                    let state = match record.initial_state {
                        Some(v) => match SensorState::try_from(v) {
                            Ok(s) => s,
                            Err(e) => {
                                return Err(BuildError::SensorState(e));
                            },
                        },
                        None => SensorState::default(),
                    };
                    let distance = match record.distance {
                        Some(distance) => distance,
                        None => 0,
                    };
                    group.insert_sensor(Sensor::new(group.id, id, state, distance, now));
                },
                ComponentKind::Light => {
                    let state = match record.initial_state {
                        Some(v) => match LightState::try_from(v) {
                            Ok(s) => s,
                            Err(e) => {
                                return Err(BuildError::LightState(e));
                            },
                        },
                        None => LightState::default(),
                    };
                    group.insert_light(Actuator::new(group.id, id, None, state, now));
                },
                ComponentKind::Gate => {
                    let state = match record.initial_state {
                        Some(v) => match GateState::try_from(v) {
                            Ok(s) => s,
                            Err(e) => {
                                return Err(BuildError::GateState(e));
                            },
                        },
                        None => GateState::default(),
                    };
                    group.insert_gate(Actuator::new(group.id, id, None, state, now));
                },
                ComponentKind::Deck => {
                    let state = match record.initial_state {
                        Some(v) => match DeckState::try_from(v) {
                            Ok(s) => s,
                            Err(e) => {
                                return Err(BuildError::DeckState(e));
                            },
                        },
                        None => DeckState::default(),
                    };
                    group.insert_deck(Actuator::new(group.id, id, None, state, now));
                },
            }
            i += 1;
        }
        Ok(group)
    }

    /// Gives the group `target`, which stands at `p`, the groups of `records`
    /// as groups that it blocks.
    #[verifier::loop_isolation(false)]
    fn push_blocks(intersection: Intersection, target: GroupId, p: usize, records: &Vec<Block>) -> (result:
        Result<Intersection, BuildError>)
        requires
            p == intersection@.group_position(target),
            p < intersection.groups.len(),
        ensures
            match peers_added(intersection@, target, records@, records@.len() as int) {
                Ok(v) => result matches Ok(made) && made@ == v,
                Err(e) => result matches Err(error) && error == e,
            },
    {
        let ghost start = intersection@;
        let mut intersection = intersection;
        let mut j: usize = 0;
        while j < records.len()
            invariant
                j <= records.len(),
                p < intersection.groups.len(),
                p == intersection@.group_position(target),
                peers_added(start, target, records@, j as int) == Ok::<
                    IntersectionView,
                    BuildError,
                >(intersection@),
            decreases records.len() - j,
        {
            let block = &records[j];
            proof {
                if peers_added(start, target, records@, j + 1).is_err() {
                    lemma_peers_failed(start, target, records@, j + 1, records@.len() as int);
                }
            }
            let kind = match GroupKind::try_from(block.kind.as_str()) {
                Ok(kind) => kind,
                Err(_) => {
                    return Err(BuildError::InvalidGroupKind);
                },
            };
            let peer = GroupId { kind, id: block.id };
            if intersection.find_group(peer).is_none() {
                return Err(BuildError::UnknownGroup(peer));
            }
            let ghost mid = intersection@;
            intersection.groups[p].push_block(peer);
            proof {
                let next = mid.with_group_at(
                    target,
                    GroupView { blocks: mid.group(target).blocks.push(peer), ..mid.group(target) },
                );
                assert(intersection@.groups =~= next.groups);
                assert(group_ids(intersection@.groups) =~= group_ids(mid.groups));
            }
            j += 1;
        }
        Ok(intersection)
    }

    /// Gives each group of the builder's blocks the groups that it blocks.
    #[verifier::loop_isolation(false)]
    fn fill_blocks(&self, intersection: Intersection) -> (result: Result<Intersection, BuildError>)
        ensures
            match self.blocks {
                None => result matches Ok(made) && made@ == intersection@,
                Some(blocks) => match blocks_filled(
                    intersection@,
                    blocks.groups@,
                    blocks.groups@.len() as int,
                ) {
                    Ok(v) => result matches Ok(made) && made@ == v,
                    Err(e) => result matches Err(error) && error == e,
                },
            },
    {
        let blocks = match self.blocks {
            Some(blocks) => blocks,
            None => {
                return Ok(intersection);
            },
        };
        let ghost start = intersection@;
        let mut intersection = intersection;
        let mut i: usize = 0;
        while i < blocks.groups.len()
            invariant
                i <= blocks.groups.len(),
                self.blocks == Some(blocks),
                blocks_filled(start, blocks.groups@, i as int) == Ok::<
                    IntersectionView,
                    BuildError,
                >(intersection@),
            decreases blocks.groups.len() - i,
        {
            let blocked_group = &blocks.groups[i];
            proof {
                if blocks_filled(start, blocks.groups@, i + 1).is_err() {
                    lemma_blocks_failed(start, blocks.groups@, i + 1, blocks.groups@.len() as int);
                }
            }
            let kind = match GroupKind::try_from(blocked_group.kind.as_str()) {
                Ok(kind) => kind,
                Err(_) => {
                    return Err(BuildError::InvalidGroupKind);
                },
            };
            let target = GroupId { kind, id: blocked_group.id };
            let p = intersection.group_position(target);
            if p >= intersection.groups.len() {
                return Err(BuildError::UnknownGroup(target));
            }
            intersection = match Self::push_blocks(
                intersection,
                target,
                p,
                &blocked_group.blocks,
            ) {
                Ok(ix) => ix,
                Err(e) => {
                    return Err(e);
                },
            };
            i += 1;
        }
        Ok(intersection)
    }

    /// Gives each group the groups that may run together with it.
    fn fill_concurrences(&self, intersection: Intersection) -> (result: Intersection)
        ensures
            result@ == concurrences_filled(intersection@),
    {
        let mut intersection = intersection;
        let ghost start = intersection@;
        let ghost ids = group_ids(start.groups);
        let mut all: Vec<GroupId> = Vec::new();
        let mut k: usize = 0;
        while k < intersection.groups.len()
            invariant
                k <= intersection.groups.len(),
                intersection@ == start,
                ids == group_ids(start.groups),
                all@ == ids.take(k as int),
            decreases intersection.groups.len() - k,
        {
            all.push(intersection.groups[k].id);
            assert(ids.take(k + 1) =~= ids.take(k as int).push(ids[k as int]));
            k += 1;
        }
        assert(ids.take(k as int) =~= ids);
        let mut i: usize = 0;
        while i < intersection.groups.len()
            invariant
                i <= intersection.groups.len(),
                intersection.groups.len() == start.groups.len(),
                all@ == ids,
                ids == group_ids(start.groups),
                intersection@.alias == start.alias,
                intersection@.channels == start.channels,
                forall|g: int|
                    0 <= g < i ==> (#[trigger] intersection@.groups[g]) == with_concurrences(
                        start.groups[g],
                        ids,
                    ),
                forall|g: int|
                    i <= g < intersection.groups.len() ==> (#[trigger] intersection@.groups[g])
                        == start.groups[g],
            decreases intersection.groups.len() - i,
        {
            let ghost outer = start.groups[i as int];
            let mut j: usize = 0;
            while j < all.len()
                invariant
                    j <= all.len(),
                    i < intersection.groups.len(),
                    intersection.groups.len() == start.groups.len(),
                    all@ == ids,
                    outer == start.groups[i as int],
                    intersection@.alias == start.alias,
                    intersection@.channels == start.channels,
                    forall|g: int|
                        0 <= g < i ==> (#[trigger] intersection@.groups[g]) == with_concurrences(
                            start.groups[g],
                            ids,
                        ),
                    forall|g: int|
                        i < g < intersection.groups.len() ==> (#[trigger] intersection@.groups[g])
                            == start.groups[g],
                    intersection@.groups[i as int] == (GroupView {
                        concurrences: outer.concurrences + unblocked_peers(
                            outer.blocks,
                            ids,
                            j as int,
                        ),
                        ..outer
                    }),
                decreases all.len() - j,
            {
                let inner = all[j];
                let ghost mid = intersection@;
                if !intersection.groups[i].blocks_group(inner) {
                    intersection.groups[i].push_concurrent(inner);
                    assert(intersection@.groups[i as int].concurrences =~= outer.concurrences
                        + unblocked_peers(outer.blocks, ids, j + 1));
                }
                assert forall|g: int|
                    0 <= g < intersection.groups.len() && g != i implies (
                #[trigger] intersection@.groups[g]) == mid.groups[g] by {}
                j += 1;
            }
            i += 1;
        }
        assert(intersection@.groups =~= concurrences_filled(start).groups);
        intersection
    }
}

} // verus!
