use intersection_controller::config::definitions::{Component, Definitions, Group};
use intersection_controller::control::score_poller::{
    ScorePoller, PERSISTENCE_MILLIS, POLL_MILLIS,
};
use intersection_controller::intersections::component::{ComponentKind, ComponentUid};
use intersection_controller::intersections::group::{GroupId, GroupKind};
use intersection_controller::intersections::intersection::{Intersection, Notification};
use intersection_controller::intersections::intersection_builder::IntersectionsBuilder;
use intersection_controller::intersections::sensor::SensorState;

fn detector(id: i32, distance: Option<i32>) -> Component {
    Component { kind: String::from("sensor"), id, distance, initial_state: None }
}

fn approach() -> Intersection {
    let defs = Definitions {
        groups: vec![
            Group {
                kind: String::from("motor_vehicle"),
                id: 1,
                can_be_blocked: None,
                components: Some(vec![
                    detector(1, None),
                    detector(2, Some(40)),
                    detector(3, Some(-5)),
                ]),
            },
            Group {
                kind: String::from("cycle"),
                id: 1,
                can_be_blocked: None,
                components: Some(vec![detector(1, None)]),
            },
        ],
    };
    IntersectionsBuilder::new().with_defs(&defs).finish(0).unwrap()
}

fn road() -> GroupId {
    GroupId { kind: GroupKind::MotorVehicle, id: 1 }
}

fn cycle() -> GroupId {
    GroupId { kind: GroupKind::Cycle, id: 1 }
}

fn road_sensor(id: i32) -> ComponentUid {
    ComponentUid::new(GroupKind::MotorVehicle, 1, ComponentKind::Sensor, id)
}

#[test]
fn the_poller_ticks_every_hundred_milliseconds() {
    assert_eq!(POLL_MILLIS, 100);
    assert_eq!(PERSISTENCE_MILLIS, 3000);
}

#[test]
fn low_sensors_add_nothing() {
    let mut ix = approach();
    ScorePoller::new().poll(&mut ix, 10_000);
    assert_eq!(ix.find_group(road()).unwrap().score, 0);
    assert_eq!(ix.find_group(cycle()).unwrap().score, 0);
    assert_eq!(
        ix.channels.notifications,
        vec![Notification::ScoreUpdated(road()), Notification::ScoreUpdated(cycle())]
    );
    assert_eq!(ix.channels.score, vec![road(), cycle()]);
}

#[test]
fn a_high_sensor_adds_one_and_a_persistent_one_its_weight() {
    let mut ix = approach();
    let poller = ScorePoller::new();
    ix.set_sensor_state(road_sensor(1), SensorState::High, 1000);
    ix.set_sensor_state(road_sensor(2), SensorState::High, 1000);
    ix.set_sensor_state(road_sensor(3), SensorState::High, 1000);
    poller.poll(&mut ix, 1100);
    assert_eq!(ix.find_group(road()).unwrap().score, 3);
    poller.poll(&mut ix, 3999);
    assert_eq!(ix.find_group(road()).unwrap().score, 6);
    poller.poll(&mut ix, 4000);
    assert_eq!(ix.find_group(road()).unwrap().score, 6 + 1 + 40 + 1);
    poller.poll(&mut ix, 4100);
    assert_eq!(ix.find_group(road()).unwrap().score, 48 + 42);
    assert_eq!(ix.find_group(cycle()).unwrap().score, 0);
    ix.set_sensor_state(road_sensor(2), SensorState::High, 4150);
    poller.poll(&mut ix, 4200);
    assert_eq!(ix.find_group(road()).unwrap().score, 90 + 3);
    ix.set_sensor_state(road_sensor(2), SensorState::Low, 4250);
    poller.poll(&mut ix, 9000);
    assert_eq!(ix.find_group(road()).unwrap().score, 93 + 2);
}

#[test]
fn the_demand_of_one_sensor() {
    let mut ix = approach();
    ix.set_sensor_state(road_sensor(2), SensorState::High, 1000);
    let group = ix.find_group(road()).unwrap();
    assert_eq!(ScorePoller::sensor_demand(&group.sensors()[0], 9000), 0);
    assert_eq!(ScorePoller::sensor_demand(&group.sensors()[1], 3999), 1);
    assert_eq!(ScorePoller::sensor_demand(&group.sensors()[1], 4000), 40);
    assert_eq!(ScorePoller::sensor_demand(&group.sensors()[1], 500), 1);
    assert_eq!(ScorePoller::polled_score(group, 4000), 40);
    assert_eq!(ScorePoller::polled_score(group, 3000), 1);
}

#[test]
fn a_score_never_shrinks_and_stops_at_the_largest_number() {
    let mut ix = approach();
    let poller = ScorePoller::new();
    ix.set_sensor_state(road_sensor(1), SensorState::High, 0);
    ix.set_sensor_state(road_sensor(2), SensorState::High, 0);
    ix.set_score(road(), i32::MAX - 45);
    let mut last = ix.find_group(road()).unwrap().score;
    for tick in 0..5 {
        poller.poll(&mut ix, 5000 + tick);
        let score = ix.find_group(road()).unwrap().score;
        assert!(score >= last);
        last = score;
    }
    assert_eq!(last, i32::MAX);
    ix.set_score(cycle(), -7);
    poller.poll(&mut ix, 6000);
    assert_eq!(ix.find_group(cycle()).unwrap().score, -7);
}

#[test]
fn after_a_reset_the_next_score_told_is_zero() {
    let mut ix = approach();
    let poller = ScorePoller::new();
    ix.set_sensor_state(road_sensor(1), SensorState::High, 0);
    poller.poll(&mut ix, 100);
    poller.poll(&mut ix, 200);
    assert_eq!(ix.find_group(road()).unwrap().score, 2);
    ix.take_notifications();
    assert!(ix.reset_score(road()));
    assert_eq!(ix.channels.notifications, vec![Notification::ScoreUpdated(road())]);
    assert_eq!(ix.find_group(road()).unwrap().score, 0);
}
