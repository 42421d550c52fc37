use intersection_controller::config::blocks::{Block, Blocks, Group as BlockedGroup};
use intersection_controller::config::definitions::{Component, Definitions, Group};
use intersection_controller::intersections::component::{ComponentId, ComponentKind, ComponentUid};
use intersection_controller::intersections::deck::{DeckState, DeckStateError};
use intersection_controller::intersections::gate::{GateState, GateStateError};
use intersection_controller::intersections::group::{Group as LiveGroup, GroupId, GroupKind};
use intersection_controller::intersections::intersection::{Intersection, Notification};
use intersection_controller::intersections::intersection_builder::{
    BuildError, IntersectionBuildError, IntersectionsBuilder,
};
use intersection_controller::intersections::light::{LightState, LightStateError};
use intersection_controller::intersections::sensor::{Sensor, SensorState, SensorStateError};

fn part(kind: &str, id: i32) -> Component {
    Component { kind: String::from(kind), id, distance: None, initial_state: None }
}

fn lane(kind: &str, id: i32, components: Vec<Component>) -> Group {
    Group { kind: String::from(kind), id, can_be_blocked: None, components: Some(components) }
}

fn gid(kind: GroupKind, id: i32) -> GroupId {
    GroupId { kind, id }
}

fn crossing() -> Definitions {
    Definitions {
        groups: vec![
            lane("motor_vehicle", 1, vec![part("light", 1), part("sensor", 1)]),
            lane("motor_vehicle", 2, vec![part("light", 1), part("sensor", 1)]),
            lane("cycle", 1, vec![part("light", 1), part("sensor", 1), part("sensor", 2)]),
            lane("foot", 1, vec![part("light", 1), part("light", 2), part("sensor", 1)]),
        ],
    }
}

fn crossing_blocks() -> Blocks {
    let block = |kind: &str, id: i32| Block { kind: String::from(kind), id };
    Blocks {
        groups: vec![
            BlockedGroup {
                kind: String::from("motor_vehicle"),
                id: 1,
                blocks: vec![block("cycle", 1), block("foot", 1)],
            },
            BlockedGroup {
                kind: String::from("cycle"),
                id: 1,
                blocks: vec![block("motor_vehicle", 1)],
            },
            BlockedGroup {
                kind: String::from("foot"),
                id: 1,
                blocks: vec![block("motor_vehicle", 1), block("motor_vehicle", 2)],
            },
            BlockedGroup {
                kind: String::from("motor_vehicle"),
                id: 2,
                blocks: vec![block("foot", 1)],
            },
        ],
    }
}

fn built_crossing() -> Intersection {
    let defs = crossing();
    let blocks = crossing_blocks();
    IntersectionsBuilder::new().with_defs(&defs).with_blocks(&blocks).finish(5).unwrap()
}

fn failure(defs: &Definitions) -> BuildError {
    match IntersectionsBuilder::new().with_defs(defs).finish(0) {
        Ok(_) => panic!("the intersection was built"),
        Err(e) => e,
    }
}

#[test]
fn a_builder_without_definitions_fails() {
    let blocks = crossing_blocks();
    assert!(matches!(
        IntersectionsBuilder::new().finish(0),
        Err(BuildError::NoDefinitions(IntersectionBuildError))
    ));
    assert!(matches!(
        IntersectionsBuilder::new().with_blocks(&blocks).finish(0),
        Err(BuildError::NoDefinitions(IntersectionBuildError))
    ));
}

#[test]
fn groups_and_components_are_built_in_order() {
    let intersection = built_crossing();
    let ids: Vec<GroupId> = intersection.groups().iter().map(|g| g.id).collect();
    assert_eq!(
        ids,
        vec![
            gid(GroupKind::MotorVehicle, 1),
            gid(GroupKind::MotorVehicle, 2),
            gid(GroupKind::Cycle, 1),
            gid(GroupKind::Foot, 1),
        ]
    );
    let foot = intersection.find_group(gid(GroupKind::Foot, 1)).unwrap();
    assert_eq!(foot.lights.len(), 2);
    assert_eq!(foot.sensors().len(), 1);
    assert!(foot.gates.is_empty());
    assert!(foot.decks.is_empty());
    assert_eq!(foot.score, 0);
    assert!(!foot.block);
    assert!(!foot.can_be_blocked);
    let light = foot.find_light(ComponentId { kind: ComponentKind::Light, id: 2 }).unwrap();
    assert_eq!(light.state(), LightState::Prohibit);
    assert_eq!(light.initial_state(), LightState::Prohibit);
    assert_eq!(light.timestamp(), 5);
    assert_eq!(light.group(), gid(GroupKind::Foot, 1));
    assert_eq!(light.alias, None);
    let sensor = intersection
        .find_sensor(ComponentUid::new(GroupKind::Cycle, 1, ComponentKind::Sensor, 2))
        .unwrap();
    assert_eq!(sensor.state(), SensorState::Low);
    assert_eq!(sensor.distance, 0);
    assert_eq!(sensor.timestamp(), 5);
    assert!(intersection.channels.notifications.is_empty());
    assert!(intersection.channels.state.is_empty());
    assert!(intersection.channels.score.is_empty());
    assert_eq!(intersection.alias, None);
}

#[test]
fn lookups_miss_without_an_error() {
    let intersection = built_crossing();
    assert!(intersection.find_group(gid(GroupKind::Vessel, 1)).is_none());
    assert!(intersection.find_group(gid(GroupKind::MotorVehicle, 3)).is_none());
    assert!(intersection
        .find_sensor(ComponentUid::new(GroupKind::MotorVehicle, 1, ComponentKind::Sensor, 2))
        .is_none());
    assert!(intersection
        .find_sensor(ComponentUid::new(GroupKind::MotorVehicle, 1, ComponentKind::Light, 1))
        .is_none());
    assert!(intersection
        .find_light(ComponentUid::new(GroupKind::MotorVehicle, 1, ComponentKind::Light, 1))
        .is_some());
    assert!(intersection
        .find_light(ComponentUid::new(GroupKind::Bridge, 1, ComponentKind::Light, 1))
        .is_none());
    assert!(intersection
        .find_gate(ComponentUid::new(GroupKind::MotorVehicle, 1, ComponentKind::Gate, 1))
        .is_none());
    assert!(intersection
        .find_deck(ComponentUid::new(GroupKind::MotorVehicle, 1, ComponentKind::Deck, 1))
        .is_none());
}

#[test]
fn optional_fields_have_their_defaults() {
    let defs = Definitions {
        groups: vec![
            Group {
                kind: String::from("bridge"),
                id: 1,
                can_be_blocked: Some(true),
                components: Some(vec![
                    Component {
                        kind: String::from("sensor"),
                        id: 1,
                        distance: Some(40),
                        initial_state: Some(1),
                    },
                    Component {
                        kind: String::from("light"),
                        id: 1,
                        distance: None,
                        initial_state: Some(2),
                    },
                    part("gate", 1),
                    Component {
                        kind: String::from("gate"),
                        id: 2,
                        distance: None,
                        initial_state: Some(1),
                    },
                    part("deck", 1),
                    Component {
                        kind: String::from("deck"),
                        id: 2,
                        distance: None,
                        initial_state: Some(0),
                    },
                ]),
            },
            Group { kind: String::from("vessel"), id: 1, can_be_blocked: None, components: None },
        ],
    };
    let ix = IntersectionsBuilder::new().with_defs(&defs).finish(9).unwrap();
    let bridge = ix.find_group(gid(GroupKind::Bridge, 1)).unwrap();
    assert!(bridge.can_be_blocked);
    let part_of = |kind: ComponentKind, id: i32| ComponentUid::new(GroupKind::Bridge, 1, kind, id);
    let sensor = ix.find_sensor(part_of(ComponentKind::Sensor, 1)).unwrap();
    assert_eq!(sensor.state(), SensorState::High);
    assert_eq!(sensor.initial_state(), SensorState::High);
    assert_eq!(sensor.distance, 40);
    assert_eq!(ix.find_light(part_of(ComponentKind::Light, 1)).unwrap().state(), LightState::Proceed);
    assert_eq!(ix.find_gate(part_of(ComponentKind::Gate, 1)).unwrap().state(), GateState::Open);
    assert_eq!(ix.find_gate(part_of(ComponentKind::Gate, 2)).unwrap().state(), GateState::Close);
    assert_eq!(ix.find_deck(part_of(ComponentKind::Deck, 1)).unwrap().state(), DeckState::Close);
    assert_eq!(ix.find_deck(part_of(ComponentKind::Deck, 2)).unwrap().state(), DeckState::Open);
    let vessel = ix.find_group(gid(GroupKind::Vessel, 1)).unwrap();
    assert!(!vessel.can_be_blocked);
    assert!(vessel.sensors().is_empty());
}

#[test]
fn a_later_record_replaces_an_earlier_one_with_the_same_identifier() {
    let defs = Definitions {
        groups: vec![
            lane("cycle", 1, vec![part("light", 1), part("light", 2)]),
            lane("foot", 1, vec![]),
            lane(
                "cycle",
                1,
                vec![
                    part("sensor", 1),
                    Component {
                        kind: String::from("sensor"),
                        id: 1,
                        distance: Some(3),
                        initial_state: None,
                    },
                ],
            ),
        ],
    };
    let ix = IntersectionsBuilder::new().with_defs(&defs).finish(0).unwrap();
    assert_eq!(ix.groups().len(), 2);
    assert_eq!(ix.groups()[0].id, gid(GroupKind::Cycle, 1));
    assert_eq!(ix.groups()[1].id, gid(GroupKind::Foot, 1));
    let cycle = ix.find_group(gid(GroupKind::Cycle, 1)).unwrap();
    assert!(cycle.lights.is_empty());
    assert_eq!(cycle.sensors().len(), 1);
    assert_eq!(cycle.sensors()[0].distance, 3);
}

#[test]
fn unknown_kinds_and_states_abort_the_build() {
    assert_eq!(
        failure(&Definitions { groups: vec![lane("car", 1, vec![])] }),
        BuildError::InvalidGroupKind
    );
    assert_eq!(
        failure(&Definitions { groups: vec![lane("cycle", 1, vec![part("lamp", 1)])] }),
        BuildError::InvalidComponentKind
    );
    let with_state = |kind: &str, state: i32| Definitions {
        groups: vec![lane(
            "bridge",
            1,
            vec![Component {
                kind: String::from(kind),
                id: 1,
                distance: None,
                initial_state: Some(state),
            }],
        )],
    };
    assert_eq!(
        failure(&with_state("sensor", 2)),
        BuildError::SensorState(SensorStateError::CouldNotConvert { value: 2 })
    );
    assert_eq!(
        failure(&with_state("light", 4)),
        BuildError::LightState(LightStateError::CouldNotConvert { value: 4 })
    );
    assert_eq!(
        failure(&with_state("gate", -1)),
        BuildError::GateState(GateStateError::CouldNotConvert { value: -1 })
    );
    assert_eq!(
        failure(&with_state("deck", 2)),
        BuildError::DeckState(DeckStateError::CouldNotConvert { value: 2 })
    );
    assert_eq!(
        failure(&Definitions {
            groups: vec![lane("cycle", 1, vec![part("light", 1)]), lane("boat", 1, vec![])]
        }),
        BuildError::InvalidGroupKind
    );
}

#[test]
fn blocks_name_groups_that_exist() {
    let defs = crossing();
    let block = |kind: &str, id: i32| Block { kind: String::from(kind), id };
    let unknown_peer = Blocks {
        groups: vec![BlockedGroup {
            kind: String::from("cycle"),
            id: 1,
            blocks: vec![block("foot", 1), block("foot", 2)],
        }],
    };
    assert!(matches!(
        IntersectionsBuilder::new().with_defs(&defs).with_blocks(&unknown_peer).finish(0),
        Err(BuildError::UnknownGroup(GroupId { kind: GroupKind::Foot, id: 2 }))
    ));
    let bad_kind = Blocks {
        groups: vec![BlockedGroup { kind: String::from("bike"), id: 1, blocks: vec![] }],
    };
    assert!(matches!(
        IntersectionsBuilder::new().with_defs(&defs).with_blocks(&bad_kind).finish(0),
        Err(BuildError::InvalidGroupKind)
    ));
    let bad_peer_kind = Blocks {
        groups: vec![BlockedGroup {
            kind: String::from("cycle"),
            id: 1,
            blocks: vec![block("feet", 1)],
        }],
    };
    assert!(matches!(
        IntersectionsBuilder::new().with_defs(&defs).with_blocks(&bad_peer_kind).finish(0),
        Err(BuildError::InvalidGroupKind)
    ));
    let unknown_owner = Blocks {
        groups: vec![BlockedGroup {
            kind: String::from("vessel"),
            id: 9,
            blocks: vec![block("nothing", 1)],
        }],
    };
    assert!(matches!(
        IntersectionsBuilder::new().with_defs(&defs).with_blocks(&unknown_owner).finish(0),
        Err(BuildError::UnknownGroup(GroupId { kind: GroupKind::Vessel, id: 9 }))
    ));
    let unknown_owner_without_peers = Blocks {
        groups: vec![
            BlockedGroup { kind: String::from("cycle"), id: 1, blocks: vec![block("foot", 1)] },
            BlockedGroup { kind: String::from("cycle"), id: 2, blocks: vec![] },
        ],
    };
    assert!(matches!(
        IntersectionsBuilder::new()
            .with_defs(&defs)
            .with_blocks(&unknown_owner_without_peers)
            .finish(0),
        Err(BuildError::UnknownGroup(GroupId { kind: GroupKind::Cycle, id: 2 }))
    ));
}

#[test]
fn concurrences_are_the_groups_that_are_not_blocked() {
    let ix = built_crossing();
    let mv1 = ix.find_group(gid(GroupKind::MotorVehicle, 1)).unwrap();
    assert_eq!(mv1.blocks, vec![gid(GroupKind::Cycle, 1), gid(GroupKind::Foot, 1)]);
    assert_eq!(
        mv1.concurrences,
        vec![gid(GroupKind::MotorVehicle, 1), gid(GroupKind::MotorVehicle, 2)]
    );
    assert!(mv1.blocks_group(gid(GroupKind::Cycle, 1)));
    assert!(!mv1.blocks_group(gid(GroupKind::MotorVehicle, 2)));
    let foot = ix.find_group(gid(GroupKind::Foot, 1)).unwrap();
    assert_eq!(foot.concurrences, vec![gid(GroupKind::Cycle, 1), gid(GroupKind::Foot, 1)]);
    for group in ix.groups() {
        assert!(group.concurrences.contains(&group.id));
        for other in ix.groups() {
            assert_eq!(
                group.concurrences.contains(&other.id),
                !group.blocks_group(other.id),
                "{:?} and {:?}",
                group.id,
                other.id
            );
        }
    }
    let plain = IntersectionsBuilder::new().with_defs(&crossing()).finish(0).unwrap();
    for group in plain.groups() {
        assert_eq!(group.concurrences.len(), 4);
        assert!(group.blocks.is_empty());
    }
}

#[test]
fn a_group_that_blocks_itself_cannot_run_with_itself() {
    let defs = Definitions { groups: vec![lane("cycle", 1, vec![]), lane("foot", 1, vec![])] };
    let blocks = Blocks {
        groups: vec![BlockedGroup {
            kind: String::from("cycle"),
            id: 1,
            blocks: vec![Block { kind: String::from("cycle"), id: 1 }],
        }],
    };
    let mut ix = IntersectionsBuilder::new().with_defs(&defs).with_blocks(&blocks).finish(0).unwrap();
    assert_eq!(
        ix.find_group(gid(GroupKind::Cycle, 1)).unwrap().concurrences,
        vec![gid(GroupKind::Foot, 1)]
    );
    assert!(ix.set_score(gid(GroupKind::Cycle, 1), 5));
    assert!(ix.get_runnables().is_empty());
}

#[test]
fn setting_a_component_through_the_intersection() {
    let mut ix = built_crossing();
    let light = ComponentUid::new(GroupKind::Cycle, 1, ComponentKind::Light, 1);
    let sensor = ComponentUid::new(GroupKind::Cycle, 1, ComponentKind::Sensor, 2);
    assert!(ix.set_light_state(light, LightState::Proceed, 100));
    assert!(ix.set_sensor_state(sensor, SensorState::High, 200));
    assert!(!ix.set_light_state(sensor, LightState::Proceed, 300));
    assert!(!ix.set_sensor_state(light, SensorState::High, 300));
    assert!(!ix.set_gate_state(light, GateState::Close, 300));
    assert!(!ix.set_deck_state(light, DeckState::Open, 300));
    assert!(!ix
        .set_light_state(ComponentUid::new(GroupKind::Vessel, 1, ComponentKind::Light, 1),
            LightState::Proceed, 300));
    assert_eq!(ix.find_light(light).unwrap().state(), LightState::Proceed);
    assert_eq!(ix.find_light(light).unwrap().timestamp(), 100);
    assert_eq!(ix.find_sensor(sensor).unwrap().state(), SensorState::High);
    assert_eq!(ix.find_sensor(sensor).unwrap().timestamp(), 200);
    assert_eq!(
        ix.channels.notifications,
        vec![Notification::StateUpdated(light), Notification::StateUpdated(sensor)]
    );
    assert_eq!(ix.channels.state, vec![light, sensor]);
    let cycle = ix.find_group(gid(GroupKind::Cycle, 1)).unwrap();
    assert_eq!(cycle.channels.light, vec![light]);
    assert_eq!(cycle.channels.sensor, vec![sensor]);
    assert_eq!(cycle.channels.actuator, vec![light, sensor]);
    assert!(cycle.one_sensor_high());
    assert!(!ix.find_group(gid(GroupKind::Foot, 1)).unwrap().one_sensor_high());
    let other = ix.find_group(gid(GroupKind::MotorVehicle, 1)).unwrap();
    assert!(other.channels.light.is_empty());
    assert_eq!(
        ix.take_notifications(),
        vec![Notification::StateUpdated(light), Notification::StateUpdated(sensor)]
    );
    assert!(ix.channels.notifications.is_empty());
    assert_eq!(ix.channels.state.len(), 2);
}

#[test]
fn scores_are_written_and_told() {
    let mut ix = built_crossing();
    let cycle = gid(GroupKind::Cycle, 1);
    assert!(ix.set_score(cycle, 12));
    assert!(!ix.set_score(gid(GroupKind::Vessel, 1), 3));
    assert_eq!(ix.find_group(cycle).unwrap().score, 12);
    assert!(ix.reset_score(cycle));
    assert_eq!(ix.find_group(cycle).unwrap().score, 0);
    assert_eq!(
        ix.channels.notifications,
        vec![Notification::ScoreUpdated(cycle), Notification::ScoreUpdated(cycle)]
    );
    assert_eq!(ix.channels.score, vec![cycle, cycle]);
    ix.send_score(cycle);
    ix.send_state(ComponentUid::new(GroupKind::Cycle, 1, ComponentKind::Light, 1));
    assert_eq!(ix.channels.notifications.len(), 4);
    assert_eq!(ix.channels.score.len(), 3);
    assert_eq!(ix.channels.state.len(), 1);
}

#[test]
fn blocked_and_blockable_groups() {
    let defs = Definitions {
        groups: vec![
            Group {
                kind: String::from("cycle"),
                id: 1,
                can_be_blocked: Some(true),
                components: None,
            },
            Group {
                kind: String::from("foot"),
                id: 1,
                can_be_blocked: Some(false),
                components: None,
            },
            Group {
                kind: String::from("foot"),
                id: 2,
                can_be_blocked: Some(true),
                components: None,
            },
        ],
    };
    let mut ix = IntersectionsBuilder::new().with_defs(&defs).finish(0).unwrap();
    assert_eq!(
        ix.blockable_groups(),
        vec![gid(GroupKind::Cycle, 1), gid(GroupKind::Foot, 2)]
    );
    assert_eq!(ix.unblocked_groups().len(), 3);
    assert!(ix.set_block(gid(GroupKind::Foot, 2), true));
    assert!(!ix.set_block(gid(GroupKind::Foot, 3), true));
    assert_eq!(
        ix.unblocked_groups(),
        vec![gid(GroupKind::Cycle, 1), gid(GroupKind::Foot, 1)]
    );
    assert!(ix.set_block(gid(GroupKind::Foot, 2), false));
    assert_eq!(ix.unblocked_groups().len(), 3);
    assert!(ix.channels.notifications.is_empty());
}

#[test]
fn sensors_of_all_groups() {
    let ix = built_crossing();
    assert_eq!(
        ix.sensors(),
        vec![
            ComponentUid::new(GroupKind::MotorVehicle, 1, ComponentKind::Sensor, 1),
            ComponentUid::new(GroupKind::MotorVehicle, 2, ComponentKind::Sensor, 1),
            ComponentUid::new(GroupKind::Cycle, 1, ComponentKind::Sensor, 1),
            ComponentUid::new(GroupKind::Cycle, 1, ComponentKind::Sensor, 2),
            ComponentUid::new(GroupKind::Foot, 1, ComponentKind::Sensor, 1),
        ]
    );
}

#[test]
fn no_demand_no_phase() {
    let mut ix = built_crossing();
    assert!(ix.get_runnables().is_empty());
    assert_eq!(ix.highest_scoring_group(), Some(0));
    for group in ix.blockable_groups() {
        ix.set_block(group, true);
    }
    assert!(ix.get_runnables().is_empty());
    assert!(Intersection::new(None).get_runnables().is_empty());
    assert_eq!(Intersection::new(Some(String::from("empty"))).highest_scoring_group(), None);
}

#[test]
fn the_highest_score_leads_the_phase() {
    let mut ix = built_crossing();
    ix.set_score(gid(GroupKind::MotorVehicle, 1), 3);
    ix.set_score(gid(GroupKind::MotorVehicle, 2), 1);
    ix.set_score(gid(GroupKind::Cycle, 1), 2);
    ix.set_score(gid(GroupKind::Foot, 1), 2);
    assert_eq!(ix.highest_scoring_group(), Some(0));
    assert_eq!(
        ix.get_runnables(),
        vec![gid(GroupKind::MotorVehicle, 1), gid(GroupKind::MotorVehicle, 2)]
    );
    ix.set_score(gid(GroupKind::Foot, 1), 4);
    assert_eq!(ix.highest_scoring_group(), Some(3));
    assert_eq!(ix.get_runnables(), vec![gid(GroupKind::Cycle, 1), gid(GroupKind::Foot, 1)]);
    ix.set_score(gid(GroupKind::Cycle, 1), 0);
    assert_eq!(ix.get_runnables(), vec![gid(GroupKind::Foot, 1)]);
    ix.set_score(gid(GroupKind::Cycle, 1), 4);
    assert_eq!(ix.highest_scoring_group(), Some(2));
    assert_eq!(
        ix.get_runnables(),
        vec![gid(GroupKind::MotorVehicle, 2), gid(GroupKind::Cycle, 1)]
    );
}

#[test]
fn phases_are_free_of_conflicts_and_of_idle_groups() {
    let scores = [0, 1, 2, 3, 5];
    for a in scores {
        for b in scores {
            for c in scores {
                for d in scores {
                    let mut ix = built_crossing();
                    ix.set_score(gid(GroupKind::MotorVehicle, 1), a);
                    ix.set_score(gid(GroupKind::MotorVehicle, 2), b);
                    ix.set_score(gid(GroupKind::Cycle, 1), c);
                    ix.set_score(gid(GroupKind::Foot, 1), d);
                    let phase = ix.get_runnables();
                    assert_eq!(phase.is_empty(), a + b + c + d == 0);
                    for first in phase.iter() {
                        let group = ix.find_group(*first).unwrap();
                        assert!(group.score > 0);
                        assert!(!group.block);
                        for second in phase.iter() {
                            let other = ix.find_group(*second).unwrap();
                            if first != second {
                                assert!(
                                    !(group.blocks_group(*second) && other.blocks_group(*first))
                                );
                            }
                        }
                    }
                }
            }
        }
    }
}

#[test]
fn blocked_groups_neither_lead_nor_join() {
    let defs = Definitions {
        groups: vec![
            Group {
                kind: String::from("motor_vehicle"),
                id: 1,
                can_be_blocked: Some(true),
                components: None,
            },
            lane("cycle", 1, vec![]),
        ],
    };
    let mut ix = IntersectionsBuilder::new().with_defs(&defs).finish(0).unwrap();
    ix.set_score(gid(GroupKind::MotorVehicle, 1), 9);
    ix.set_score(gid(GroupKind::Cycle, 1), 1);
    assert_eq!(
        ix.get_runnables(),
        vec![gid(GroupKind::MotorVehicle, 1), gid(GroupKind::Cycle, 1)]
    );
    ix.set_block(gid(GroupKind::MotorVehicle, 1), true);
    assert_eq!(ix.highest_scoring_group(), Some(1));
    assert_eq!(ix.get_runnables(), vec![gid(GroupKind::Cycle, 1)]);
}

#[test]
fn a_reset_takes_every_component_and_every_score() {
    let mut ix = built_crossing();
    let light = ComponentUid::new(GroupKind::Foot, 1, ComponentKind::Light, 2);
    let sensor = ComponentUid::new(GroupKind::Foot, 1, ComponentKind::Sensor, 1);
    ix.set_light_state(light, LightState::Proceed, 10);
    ix.set_sensor_state(sensor, SensorState::High, 10);
    ix.set_score(gid(GroupKind::Foot, 1), 7);
    ix.take_notifications();
    ix.reset_all(50);
    assert_eq!(ix.find_light(light).unwrap().state(), LightState::Prohibit);
    assert_eq!(ix.find_light(light).unwrap().timestamp(), 50);
    assert_eq!(ix.find_sensor(sensor).unwrap().state(), SensorState::Low);
    assert!(ix.groups().iter().all(|g| g.score == 0));
    let part_of = |k: GroupKind, g: i32, c: ComponentKind, i: i32| {
        Notification::StateUpdated(ComponentUid::new(k, g, c, i))
    };
    assert_eq!(
        ix.channels.notifications,
        vec![
            part_of(GroupKind::MotorVehicle, 1, ComponentKind::Sensor, 1),
            part_of(GroupKind::MotorVehicle, 1, ComponentKind::Light, 1),
            Notification::ScoreUpdated(gid(GroupKind::MotorVehicle, 1)),
            part_of(GroupKind::MotorVehicle, 2, ComponentKind::Sensor, 1),
            part_of(GroupKind::MotorVehicle, 2, ComponentKind::Light, 1),
            Notification::ScoreUpdated(gid(GroupKind::MotorVehicle, 2)),
            part_of(GroupKind::Cycle, 1, ComponentKind::Sensor, 1),
            part_of(GroupKind::Cycle, 1, ComponentKind::Sensor, 2),
            part_of(GroupKind::Cycle, 1, ComponentKind::Light, 1),
            Notification::ScoreUpdated(gid(GroupKind::Cycle, 1)),
            part_of(GroupKind::Foot, 1, ComponentKind::Sensor, 1),
            part_of(GroupKind::Foot, 1, ComponentKind::Light, 1),
            part_of(GroupKind::Foot, 1, ComponentKind::Light, 2),
            Notification::ScoreUpdated(gid(GroupKind::Foot, 1)),
        ]
    );
}

#[test]
fn a_group_is_a_map_of_components() {
    let mut group = LiveGroup::new(gid(GroupKind::Cycle, 4), true);
    assert!(group.can_be_blocked);
    assert!(!group.block);
    let id = ComponentId { kind: ComponentKind::Sensor, id: 1 };
    group.insert_sensor(Sensor::new(group.id, id, SensorState::Low, 1, 0));
    group.insert_sensor(Sensor::new(
        group.id,
        ComponentId { kind: ComponentKind::Sensor, id: 2 },
        SensorState::Low,
        2,
        0,
    ));
    group.insert_sensor(Sensor::new(group.id, id, SensorState::High, 3, 0));
    assert_eq!(group.sensors().len(), 2);
    assert_eq!(group.find_sensor(id).unwrap().distance, 3);
    assert!(group.one_sensor_high());
    group.push_block(gid(GroupKind::Foot, 1));
    group.push_concurrent(gid(GroupKind::Cycle, 4));
    assert!(group.blocks_group(gid(GroupKind::Foot, 1)));
    assert!(!group.blocks_group(gid(GroupKind::Cycle, 4)));
    assert_eq!(group.concurrences, vec![gid(GroupKind::Cycle, 4)]);
}

#[test]
fn whatever_is_told_is_about_something_held() {
    let mut ix = built_crossing();
    let light = ComponentUid::new(GroupKind::Foot, 1, ComponentKind::Light, 2);
    let sensor = ComponentUid::new(GroupKind::Cycle, 1, ComponentKind::Sensor, 2);
    ix.set_light_state(light, LightState::Proceed, 1);
    ix.set_sensor_state(sensor, SensorState::High, 2);
    ix.set_lights(gid(GroupKind::Foot, 1), LightState::Transitioning, 3);
    ix.set_score(gid(GroupKind::Cycle, 1), 4);
    ix.reset_all(5);
    ix.set_light_state(sensor, LightState::Proceed, 6);
    ix.set_score(gid(GroupKind::Vessel, 9), 1);
    assert_eq!(ix.channels.notifications.len(), 2 + 2 + 1 + 14);
    for notification in ix.channels.notifications.iter() {
        match notification {
            Notification::StateUpdated(uid) => assert!(
                ix.find_sensor(*uid).is_some()
                    || ix.find_light(*uid).is_some()
                    || ix.find_gate(*uid).is_some()
                    || ix.find_deck(*uid).is_some()
            ),
            Notification::ScoreUpdated(id) => assert!(ix.find_group(*id).is_some()),
        }
    }
    for uid in ix.channels.state.iter() {
        assert!(ix.find_sensor(*uid).is_some() || ix.find_light(*uid).is_some());
    }
    for group in ix.groups() {
        for sensor in group.sensors().iter() {
            assert_eq!(sensor.group(), group.id);
            assert_eq!(ix.find_sensor(sensor.uid()).unwrap().uid(), sensor.uid());
        }
        for light in group.lights.iter() {
            assert_eq!(light.group(), group.id);
            assert_eq!(ix.find_light(light.uid()).unwrap().uid(), light.uid());
        }
    }
}

#[test]
fn no_group_comes_twice() {
    let mut ix = built_crossing();
    for group in ix.groups() {
        for (i, first) in group.concurrences.iter().enumerate() {
            for second in group.concurrences.iter().skip(i + 1) {
                assert!(first != second);
            }
        }
    }
    for group in ix.unblocked_groups() {
        ix.set_score(group, 3);
    }
    let phase = ix.get_runnables();
    for (i, first) in phase.iter().enumerate() {
        for second in phase.iter().skip(i + 1) {
            assert!(first != second);
        }
    }
}
