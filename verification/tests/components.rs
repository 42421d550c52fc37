use intersection_controller::intersections::actuator::Actuator;
use intersection_controller::intersections::component::{
    Component, ComponentId, ComponentKind, ComponentUid,
};
use intersection_controller::intersections::deck::DeckState;
use intersection_controller::intersections::gate::GateState;
use intersection_controller::intersections::group::{GroupChannels, GroupId, GroupKind};
use intersection_controller::intersections::intersection::{IntersectionChannels, Notification};
use intersection_controller::intersections::light::LightState;
use intersection_controller::intersections::sensor::{Sensor, SensorState};

fn road_group() -> GroupId {
    GroupId { kind: GroupKind::MotorVehicle, id: 1 }
}

fn sensor_id(id: i32) -> ComponentId {
    ComponentId { kind: ComponentKind::Sensor, id }
}

fn light_id(id: i32) -> ComponentId {
    ComponentId { kind: ComponentKind::Light, id }
}

fn unix_millis() -> i64 {
    std::time::SystemTime::now()
        .duration_since(std::time::UNIX_EPOCH)
        .unwrap()
        .as_millis() as i64
}

#[test]
fn a_new_sensor_is_in_its_initial_state() {
    let sensor = Sensor::new(road_group(), sensor_id(1), SensorState::High, 7, 1000);
    assert_eq!(sensor.group(), road_group());
    assert_eq!(sensor.id(), sensor_id(1));
    assert_eq!(sensor.state(), SensorState::High);
    assert_eq!(sensor.initial_state(), SensorState::High);
    assert_eq!(sensor.timestamp(), 1000);
    assert_eq!(sensor.distance, 7);
    assert!(sensor.receiver().is_empty());
    assert_eq!(
        sensor.uid(),
        ComponentUid::new(GroupKind::MotorVehicle, 1, ComponentKind::Sensor, 1)
    );
}

#[test]
fn setting_a_sensor_tells_every_channel_once() {
    let mut sensor = Sensor::new(road_group(), sensor_id(1), SensorState::Low, 0, 1000);
    let mut group = GroupChannels::new();
    let mut intersection = IntersectionChannels::new();
    sensor.set_state(SensorState::High, 2500, &mut group, &mut intersection);
    let uid = sensor.uid();
    assert_eq!(sensor.state(), SensorState::High);
    assert_eq!(sensor.timestamp(), 2500);
    assert_eq!(sensor.initial_state(), SensorState::Low);
    assert_eq!(sensor.receiver(), &vec![uid]);
    assert_eq!(group.sensor, vec![uid]);
    assert_eq!(group.actuator, vec![uid]);
    assert!(group.light.is_empty());
    assert!(group.gate.is_empty());
    assert!(group.deck.is_empty());
    assert_eq!(intersection.state, vec![uid]);
    assert_eq!(intersection.notifications, vec![Notification::StateUpdated(uid)]);
    assert!(intersection.score.is_empty());
}

#[test]
fn setting_the_same_state_again_tells_again_and_restarts_the_clock() {
    let mut sensor = Sensor::new(road_group(), sensor_id(1), SensorState::Low, 0, 1000);
    let mut group = GroupChannels::new();
    let mut intersection = IntersectionChannels::new();
    sensor.set_state(SensorState::High, 2000, &mut group, &mut intersection);
    sensor.set_state(SensorState::High, 4000, &mut group, &mut intersection);
    assert_eq!(sensor.timestamp(), 4000);
    assert_eq!(sensor.receiver().len(), 2);
    assert_eq!(intersection.notifications.len(), 2);
    assert!(!sensor.triggered_for(3000, SensorState::High, 6999));
    assert!(sensor.triggered_for(3000, SensorState::High, 7000));
}

#[test]
fn an_actuator_tells_the_channel_of_its_kind() {
    let mut light: Actuator<LightState> =
        Actuator::new(road_group(), light_id(1), None, LightState::Prohibit, 0);
    let mut gate: Actuator<GateState> = Actuator::new(
        road_group(),
        ComponentId { kind: ComponentKind::Gate, id: 1 },
        Some(String::from("front")),
        GateState::Open,
        0,
    );
    let mut deck: Actuator<DeckState> = Actuator::new(
        road_group(),
        ComponentId { kind: ComponentKind::Deck, id: 1 },
        None,
        DeckState::Close,
        0,
    );
    let mut group = GroupChannels::new();
    let mut intersection = IntersectionChannels::new();
    light.set_state(LightState::Proceed, 10, &mut group, &mut intersection);
    gate.set_state(GateState::Close, 20, &mut group, &mut intersection);
    deck.set_state(DeckState::Open, 30, &mut group, &mut intersection);
    assert_eq!(light.state(), LightState::Proceed);
    assert_eq!(gate.state(), GateState::Close);
    assert_eq!(deck.state(), DeckState::Open);
    assert_eq!(gate.alias, Some(String::from("front")));
    assert_eq!(group.light, vec![light.uid()]);
    assert_eq!(group.gate, vec![gate.uid()]);
    assert_eq!(group.deck, vec![deck.uid()]);
    assert!(group.sensor.is_empty());
    assert_eq!(group.actuator, vec![light.uid(), gate.uid(), deck.uid()]);
    assert_eq!(
        intersection.notifications,
        vec![
            Notification::StateUpdated(light.uid()),
            Notification::StateUpdated(gate.uid()),
            Notification::StateUpdated(deck.uid()),
        ]
    );
    assert_eq!(intersection.state, vec![light.uid(), gate.uid(), deck.uid()]);
}

#[test]
fn a_reset_sets_the_initial_state_and_tells_it() {
    let mut light: Actuator<LightState> =
        Actuator::new(road_group(), light_id(2), None, LightState::OutOfOrder, 0);
    let mut group = GroupChannels::new();
    let mut intersection = IntersectionChannels::new();
    light.set_state(LightState::Proceed, 10, &mut group, &mut intersection);
    light.reset(20, &mut group, &mut intersection);
    assert_eq!(light.state(), LightState::OutOfOrder);
    assert_eq!(light.initial_state(), LightState::OutOfOrder);
    assert_eq!(light.timestamp(), 20);
    assert_eq!(light.receiver().len(), 2);
    assert_eq!(intersection.notifications.len(), 2);
    let taken = light.take_events();
    assert_eq!(taken, vec![light.uid(), light.uid()]);
    assert!(light.receiver().is_empty());
    assert_eq!(light.state(), LightState::OutOfOrder);
}

#[test]
fn set_state_internal_tells_nobody() {
    let mut sensor = Sensor::new(road_group(), sensor_id(3), SensorState::Low, 5, 0);
    sensor.set_state_internal(SensorState::High, 77);
    assert_eq!(sensor.state(), SensorState::High);
    assert_eq!(sensor.timestamp(), 77);
    assert!(sensor.receiver().is_empty());
    assert_eq!(sensor.distance, 5);
}

#[test]
fn triggered_for_asks_for_the_state_and_the_time() {
    let sensor = Sensor::new(road_group(), sensor_id(1), SensorState::High, 0, 10_000);
    assert!(sensor.triggered_for(3000, SensorState::High, 13_000));
    assert!(sensor.triggered_for(3000, SensorState::High, 20_000));
    assert!(!sensor.triggered_for(3000, SensorState::High, 12_999));
    assert!(!sensor.triggered_for(3000, SensorState::Low, 13_000));
    assert!(sensor.triggered_for(0, SensorState::High, 10_000));
    assert!(!sensor.triggered_for(0, SensorState::High, 9_999));
    assert!(!sensor.triggered_for(1, SensorState::High, 9_000));
    let early = Sensor::new(road_group(), sensor_id(1), SensorState::High, 0, i64::MIN);
    assert!(early.triggered_for(u64::MAX, SensorState::High, i64::MAX));
    let late = Sensor::new(road_group(), sensor_id(1), SensorState::High, 0, i64::MAX);
    assert!(!late.triggered_for(0, SensorState::High, i64::MIN));
    let light: Actuator<LightState> =
        Actuator::new(road_group(), light_id(1), None, LightState::Proceed, 500);
    assert!(light.triggered_for(500, LightState::Proceed, 1000));
    assert!(!light.triggered_for(501, LightState::Proceed, 1000));
    assert!(!light.triggered_for(500, LightState::Prohibit, 1000));
}

#[test]
fn the_wall_clock_stamps_components() {
    let before = unix_millis();
    let mut sensor = Sensor::new_now(road_group(), sensor_id(1), SensorState::Low, 0);
    let made = sensor.timestamp();
    assert!(before - 5_000 <= made && made <= unix_millis() + 5_000);
    assert!(made > 1_500_000_000_000);
    let mut group = GroupChannels::new();
    let mut intersection = IntersectionChannels::new();
    sensor.set_state(SensorState::High, 0, &mut group, &mut intersection);
    assert_eq!(sensor.timestamp(), 0);
    sensor.set_state_now(SensorState::High, &mut group, &mut intersection);
    assert!(sensor.timestamp() >= made);
    assert_eq!(intersection.notifications.len(), 2);
    assert!(sensor.triggered_for_now(0, SensorState::High));
    assert!(!sensor.triggered_for_now(0, SensorState::Low));
    assert!(!sensor.triggered_for_now(3_600_000, SensorState::High));
    sensor.set_state_internal(SensorState::High, 0);
    assert!(sensor.triggered_for_now(3_600_000, SensorState::High));
    sensor.set_state_internal_now(SensorState::Low);
    assert!(sensor.timestamp() >= made);
    sensor.reset_now(&mut group, &mut intersection);
    assert_eq!(sensor.state(), SensorState::Low);
    assert_eq!(intersection.notifications.len(), 3);
    let mut light: Actuator<LightState> =
        Actuator::new_now(road_group(), light_id(1), None, LightState::Prohibit);
    assert!(light.timestamp() >= made);
    light.set_state_now(LightState::Proceed, &mut group, &mut intersection);
    assert_eq!(light.state(), LightState::Proceed);
    assert!(light.triggered_for_now(0, LightState::Proceed));
    light.set_state_internal_now(LightState::Transitioning);
    assert_eq!(light.state(), LightState::Transitioning);
    light.reset_now(&mut group, &mut intersection);
    assert_eq!(light.state(), LightState::Prohibit);
    assert_eq!(intersection.notifications.len(), 5);
}

#[test]
fn sensors_and_actuators_are_components() {
    fn drive<S, C>(component: &mut C, state: S) -> (S, i64, ComponentUid, usize)
    where
        S: intersection_controller::intersections::component::ComponentState,
        C: Component<S>,
    {
        let mut group = GroupChannels::new();
        let mut intersection = IntersectionChannels::new();
        Component::set_state(component, state, 42, &mut group, &mut intersection);
        assert_eq!(intersection.notifications.len(), 1);
        assert!(Component::triggered_for(component, 8, state, 50));
        assert!(!Component::triggered_for(component, 9, state, 50));
        (
            Component::state(component),
            Component::timestamp(component),
            Component::uid(component),
            Component::receiver(component).len(),
        )
    }
    let mut sensor = Sensor::new(road_group(), sensor_id(1), SensorState::Low, 0, 0);
    assert_eq!(
        drive(&mut sensor, SensorState::High),
        (
            SensorState::High,
            42,
            ComponentUid::new(GroupKind::MotorVehicle, 1, ComponentKind::Sensor, 1),
            1
        )
    );
    let mut light: Actuator<LightState> =
        Actuator::new(road_group(), light_id(4), None, LightState::Prohibit, 0);
    assert_eq!(
        drive(&mut light, LightState::Proceed),
        (
            LightState::Proceed,
            42,
            ComponentUid::new(GroupKind::MotorVehicle, 1, ComponentKind::Light, 4),
            1
        )
    );
}
