use intersection_controller::config::blocks::Blocks;
use intersection_controller::config::definitions::{Component, Definitions, Group};
use intersection_controller::config::general::General;
use intersection_controller::config::groups::{General as Timing, Group as Times, Groups};
use intersection_controller::config::io::{Io, MqConnection};
use intersection_controller::config::protocols::{Protocol, Protocols};
use intersection_controller::config::Config;
use intersection_controller::control::bridge_runner::{BridgePhase, BridgeWait};
use intersection_controller::control::controller::{
    ComponentMessageError, Controller, LifeCycleAction, Routed,
};
use intersection_controller::control::message_publisher::{Message, MessagePublisher};
use intersection_controller::control::message_subscriber::MessageSubscriber;
use intersection_controller::control::score_poller::ScorePoller;
use intersection_controller::control::state_publisher::{ComponentNotFound, StatePublisher};
use intersection_controller::control::traffic_lights_runner::PhaseWorker;
use intersection_controller::intersections::component::{ComponentKind, ComponentUid};
use intersection_controller::intersections::deck::DeckState;
use intersection_controller::intersections::gate::GateState;
use intersection_controller::intersections::group::{GroupId, GroupKind};
use intersection_controller::intersections::intersection::{Intersection, Notification};
use intersection_controller::intersections::intersection_builder::IntersectionsBuilder;
use intersection_controller::intersections::light::LightState;
use intersection_controller::intersections::sensor::{SensorState, SensorStateError};
use intersection_controller::io::client::{AnyTopic, Client, ClientError, QoS};
use intersection_controller::io::topics::component_topic::ComponentTopic;
use intersection_controller::io::topics::lifecycle_topic::{Device, Handler, LifeCycleTopic};

fn unit(kind: &str, id: i32, initial_state: Option<i32>) -> Component {
    Component { kind: String::from(kind), id, distance: None, initial_state }
}

fn team(kind: &str, id: i32, components: Vec<Component>) -> Group {
    Group { kind: String::from(kind), id, can_be_blocked: None, components: Some(components) }
}

fn road_definitions() -> Definitions {
    Definitions {
        groups: vec![team("motor_vehicle", 1, vec![unit("light", 1, None), unit("sensor", 1, None)])],
    }
}

fn bridge_definitions() -> Definitions {
    Definitions {
        groups: vec![
            team(
                "bridge",
                1,
                vec![
                    unit("sensor", 1, None),
                    unit("light", 1, Some(2)),
                    unit("gate", 1, None),
                    unit("gate", 2, None),
                    unit("deck", 1, None),
                ],
            ),
            team("vessel", 1, vec![unit("sensor", 1, None), unit("light", 1, None)]),
            team("vessel", 3, vec![unit("sensor", 1, None)]),
        ],
    }
}

fn connection(client_id: &str) -> MqConnection {
    MqConnection {
        client_id: String::from(client_id),
        host: String::from("localhost"),
        protocol: String::from("tcp"),
        qos: 1,
    }
}

fn settings() -> Config {
    Config {
        traffic_lights_blocks: Blocks { groups: vec![] },
        traffic_lights: road_definitions(),
        bridge: bridge_definitions(),
        general: General { team_id: 1 },
        groups: Groups {
            groups: vec![Times {
                kind: String::from("motor_vehicle"),
                min_go_time: 10000,
                min_transition_time: 4000,
            }],
            general: Timing { min_evac_time: 0 },
        },
        io: Io { publisher: connection("publisher"), subscriber: connection("subscriber") },
        protocols: Protocols { protocols: vec![Protocol { name: String::from("tcp"), port: 1883 }] },
    }
}

fn supervisor() -> Controller {
    let config = settings();
    let road = IntersectionsBuilder::new()
        .with_defs(&config.traffic_lights)
        .with_blocks(&config.traffic_lights_blocks)
        .finish(0)
        .unwrap();
    let bridge = IntersectionsBuilder::new().with_defs(&config.bridge).finish(0).unwrap();
    Controller::new(road, bridge, config)
}

fn road_light() -> ComponentUid {
    ComponentUid::new(GroupKind::MotorVehicle, 1, ComponentKind::Light, 1)
}

fn road_sensor() -> ComponentUid {
    ComponentUid::new(GroupKind::MotorVehicle, 1, ComponentKind::Sensor, 1)
}

fn payloads(list: Vec<Result<Message, ComponentNotFound>>) -> Vec<(String, String)> {
    let publisher = MessagePublisher::new({
        let mut client =
            Client::new(String::from("p"), String::from("h"), 1883, QoS::AtLeastOnce, 1);
        client.start();
        client
    });
    list.into_iter()
        .map(|m| {
            let request = publisher.publication(m.unwrap()).unwrap();
            (request.topic, String::from_utf8(request.payload).unwrap())
        })
        .collect()
}

#[test]
fn a_new_supervisor_has_no_runners() {
    let controller = supervisor();
    assert!(!controller.runners_started);
    assert_eq!(controller.bridge_runner.phase, BridgePhase::Idle);
    assert_eq!(controller.traffic_lights_runner.groups_config.groups.len(), 1);
    assert_eq!(controller.traffic_lights.groups().len(), 1);
    assert_eq!(controller.bridge.groups().len(), 3);
}

#[test]
fn the_supervisor_subscribes_to_sensors_and_to_the_simulator() {
    let controller = supervisor();
    let sensor = |kind: GroupKind, group: i32| {
        AnyTopic::Component(ComponentTopic {
            team_id: None,
            uid: ComponentUid::new(kind, group, ComponentKind::Sensor, 1),
        })
    };
    assert_eq!(
        controller.subscriptions(),
        vec![
            sensor(GroupKind::MotorVehicle, 1),
            sensor(GroupKind::Bridge, 1),
            sensor(GroupKind::Vessel, 1),
            sensor(GroupKind::Vessel, 3),
            AnyTopic::LifeCycle(LifeCycleTopic::new(Device::Simulator, Handler::Connect)),
            AnyTopic::LifeCycle(LifeCycleTopic::new(Device::Simulator, Handler::Disconnect)),
        ]
    );
    let mut subscriber =
        Client::new(String::from("s"), String::from("h"), 1883, QoS::ExactlyOnce, 1);
    subscriber.start();
    let texts: Vec<String> = controller
        .subscriptions()
        .into_iter()
        .map(|t| subscriber.subscribe(t).unwrap().topic)
        .collect();
    assert_eq!(
        texts,
        vec![
            "1/motor_vehicle/1/sensor/1",
            "1/bridge/1/sensor/1",
            "1/vessel/1/sensor/1",
            "1/vessel/3/sensor/1",
            "1/features/lifecycle/simulator/onconnect",
            "1/features/lifecycle/simulator/ondisconnect",
        ]
    );
}

#[test]
fn a_sensor_message_sets_the_sensor() {
    let mut controller = supervisor();
    assert_eq!(
        controller.handle_message("1/motor_vehicle/1/sensor/1", "1", 777),
        Routed::Component(Ok(()))
    );
    let sensor = controller.traffic_lights.find_sensor(road_sensor()).unwrap();
    assert_eq!(sensor.state(), SensorState::High);
    assert_eq!(sensor.timestamp(), 777);
    assert_eq!(
        controller.traffic_lights.channels.notifications,
        vec![Notification::StateUpdated(road_sensor())]
    );
    assert!(controller.bridge.channels.notifications.is_empty());
    assert_eq!(
        controller.handle_message("1/motor_vehicle/1/sensor/1", "0", 900),
        Routed::Component(Ok(()))
    );
    let sensor = controller.traffic_lights.find_sensor(road_sensor()).unwrap();
    assert_eq!(sensor.state(), SensorState::Low);
    assert_eq!(sensor.timestamp(), 900);
    assert_eq!(
        controller.handle_message("9/vessel/3/sensor/1", "1", 901),
        Routed::Component(Ok(()))
    );
    let below = ComponentUid::new(GroupKind::Vessel, 3, ComponentKind::Sensor, 1);
    assert_eq!(controller.bridge.find_sensor(below).unwrap().state(), SensorState::High);
    assert_eq!(controller.traffic_lights.channels.notifications.len(), 2);
}

#[test]
fn a_bad_payload_changes_nothing() {
    let mut controller = supervisor();
    assert_eq!(
        controller.handle_message("1/motor_vehicle/1/sensor/1", "high", 5),
        Routed::Component(Err(ComponentMessageError::InvalidPayload))
    );
    assert_eq!(
        controller.handle_message("1/motor_vehicle/1/sensor/1", "", 5),
        Routed::Component(Err(ComponentMessageError::InvalidPayload))
    );
    assert_eq!(
        controller.handle_message("1/motor_vehicle/1/sensor/1", "2", 5),
        Routed::Component(Err(ComponentMessageError::InvalidState(
            SensorStateError::CouldNotConvert { value: 2 }
        )))
    );
    assert_eq!(
        controller.handle_message("1/motor_vehicle/1/sensor/1", "-1", 5),
        Routed::Component(Err(ComponentMessageError::InvalidState(
            SensorStateError::CouldNotConvert { value: -1 }
        )))
    );
    let sensor = controller.traffic_lights.find_sensor(road_sensor()).unwrap();
    assert_eq!(sensor.state(), SensorState::Low);
    assert_eq!(sensor.timestamp(), 0);
    assert!(controller.traffic_lights.channels.notifications.is_empty());
}

#[test]
fn messages_about_other_things_are_passed_over() {
    let mut controller = supervisor();
    assert_eq!(controller.handle_message("1/motor_vehicle/9/sensor/1", "1", 5), Routed::Component(Ok(())));
    assert_eq!(controller.handle_message("1/motor_vehicle/1/light/1", "1", 5), Routed::Component(Ok(())));
    assert_eq!(controller.handle_message("1/car/1/sensor/1", "1", 5), Routed::Ignored);
    assert_eq!(controller.handle_message("nothing", "1", 5), Routed::Ignored);
    assert_eq!(controller.handle_message("", "", 5), Routed::Ignored);
    assert!(controller.traffic_lights.channels.notifications.is_empty());
    assert!(controller.bridge.channels.notifications.is_empty());
    assert_eq!(
        controller.traffic_lights.find_light(road_light()).unwrap().state(),
        LightState::Prohibit
    );
}

#[test]
fn lifecycle_messages_ask_for_a_restart_or_a_halt() {
    let mut controller = supervisor();
    assert_eq!(
        controller.handle_message("1/features/lifecycle/simulator/onconnect", "", 5),
        Routed::LifeCycle(LifeCycleAction::Restart)
    );
    assert_eq!(
        controller.handle_message("1/features/lifecycle/simulator/ondisconnect", "x", 5),
        Routed::LifeCycle(LifeCycleAction::Halt)
    );
    assert_eq!(
        controller.handle_message("1/features/lifecycle/controller/onconnect", "", 5),
        Routed::LifeCycle(LifeCycleAction::Ignore)
    );
    assert_eq!(
        controller.handle_message("1/features/lifecycle/controller/ondisconnect", "", 5),
        Routed::LifeCycle(LifeCycleAction::Ignore)
    );
    assert_eq!(
        controller
            .handle_life_cycle_message(LifeCycleTopic::new(Device::Simulator, Handler::Connect)),
        LifeCycleAction::Restart
    );
    assert!(!controller.runners_started);
    assert!(controller.traffic_lights.channels.notifications.is_empty());
}

#[test]
fn a_connect_resets_and_restarts() {
    let mut controller = supervisor();
    controller.start_runners();
    controller.handle_message("1/motor_vehicle/1/sensor/1", "1", 100);
    ScorePoller::new().poll(&mut controller.traffic_lights, 200);
    let mut phases = controller.traffic_lights_runner.tick(&mut controller.traffic_lights, 250);
    let mut worker = PhaseWorker::new(phases.remove(0));
    worker.advance(&mut controller.traffic_lights, false, 260);
    controller.handle_message("1/vessel/1/sensor/1", "1", 270);
    assert_eq!(
        controller.bridge_runner.advance(&mut controller.bridge, false, 280),
        BridgeWait::Timer(4000)
    );
    assert!(controller.traffic_lights.groups()[0].score > 0);
    controller.traffic_lights.take_notifications();
    controller.bridge.take_notifications();

    let routed = controller.handle_message("1/features/lifecycle/simulator/onconnect", "", 300);
    assert_eq!(routed, Routed::LifeCycle(LifeCycleAction::Restart));
    assert!(controller.stop_runners());
    assert!(!controller.stop_runners());
    worker.advance(&mut controller.traffic_lights, true, 310);
    controller.bridge_runner.advance(&mut controller.bridge, true, 310);
    assert!(controller.traffic_lights.take_notifications().is_empty());
    assert!(controller.after_stop(LifeCycleAction::Restart, 320));
    assert!(controller.runners_started);
    assert_eq!(controller.bridge_runner.phase, BridgePhase::Idle);

    assert_eq!(controller.traffic_lights.groups()[0].score, 0);
    assert_eq!(
        controller.traffic_lights.find_light(road_light()).unwrap().state(),
        LightState::Prohibit
    );
    assert_eq!(
        controller.traffic_lights.find_sensor(road_sensor()).unwrap().state(),
        SensorState::Low
    );
    let road = controller.traffic_lights.take_notifications();
    assert_eq!(payloads(controller.messages(&road)), vec![(
        String::from("1/motor_vehicle/1/light/1"),
        String::from("0")
    )]);
    let water = controller.bridge.take_notifications();
    assert_eq!(
        payloads(controller.messages(&water)),
        vec![
            (String::from("1/bridge/1/light/1"), String::from("2")),
            (String::from("1/bridge/1/deck/1"), String::from("1")),
            (String::from("1/bridge/1/gate/1"), String::from("0")),
            (String::from("1/bridge/1/gate/2"), String::from("0")),
            (String::from("1/vessel/1/light/1"), String::from("0")),
        ]
    );
}

#[test]
fn a_disconnect_idles() {
    let mut controller = supervisor();
    controller.start_runners();
    controller.handle_message("1/motor_vehicle/1/sensor/1", "1", 100);
    controller.traffic_lights.set_light_state(road_light(), LightState::Proceed, 100);
    let routed = controller.handle_message("1/features/lifecycle/simulator/ondisconnect", "", 300);
    assert_eq!(routed, Routed::LifeCycle(LifeCycleAction::Halt));
    assert!(controller.stop_runners());
    assert!(!controller.after_stop(LifeCycleAction::Halt, 310));
    assert!(!controller.runners_started);
    assert!(!controller.after_stop(LifeCycleAction::Ignore, 311));
    controller.traffic_lights.take_notifications();
    controller.bridge.take_notifications();
    assert_eq!(
        controller.traffic_lights.find_light(road_light()).unwrap().state(),
        LightState::Prohibit
    );
    assert!(controller.traffic_lights.take_notifications().is_empty());
    assert!(controller.bridge.take_notifications().is_empty());
}

#[test]
fn actuators_are_published_and_sensors_are_not() {
    let mut controller = supervisor();
    let publisher = StatePublisher::new();
    let deck = ComponentUid::new(GroupKind::Bridge, 1, ComponentKind::Deck, 1);
    let gate = ComponentUid::new(GroupKind::Bridge, 1, ComponentKind::Gate, 2);
    controller.bridge.set_deck_state(deck, DeckState::Open, 5);
    controller.bridge.set_gate_state(gate, GateState::Close, 5);
    controller.traffic_lights.set_light_state(road_light(), LightState::OutOfOrder, 5);
    let message = publisher
        .message(Notification::StateUpdated(deck), &controller.traffic_lights, &controller.bridge)
        .unwrap()
        .unwrap();
    assert_eq!(message.topic, AnyTopic::Component(ComponentTopic::from(deck)));
    assert_eq!(message.payload, b"0".to_vec());
    assert_eq!(publisher.get_payload(&controller.traffic_lights, &controller.bridge, deck), Ok(0));
    assert_eq!(publisher.get_payload(&controller.traffic_lights, &controller.bridge, gate), Ok(1));
    assert_eq!(
        publisher.get_payload(&controller.traffic_lights, &controller.bridge, road_light()),
        Ok(3)
    );
    assert_eq!(
        publisher.get_payload(&controller.traffic_lights, &controller.bridge, road_sensor()),
        Ok(0)
    );
    assert!(publisher
        .message(
            Notification::StateUpdated(road_sensor()),
            &controller.traffic_lights,
            &controller.bridge
        )
        .unwrap()
        .is_none());
    assert!(publisher
        .message(
            Notification::ScoreUpdated(GroupId { kind: GroupKind::MotorVehicle, id: 1 }),
            &controller.traffic_lights,
            &controller.bridge
        )
        .unwrap()
        .is_none());
    let missing = ComponentUid::new(GroupKind::Foot, 1, ComponentKind::Light, 1);
    assert_eq!(
        publisher
            .message(
                Notification::StateUpdated(missing),
                &controller.traffic_lights,
                &controller.bridge
            )
            .err(),
        Some(ComponentNotFound { id: missing })
    );
    assert_eq!(
        publisher.get_payload(&controller.traffic_lights, &controller.bridge, missing),
        Err(ComponentNotFound { id: missing })
    );
    let unknown_sensor = ComponentUid::new(GroupKind::Foot, 1, ComponentKind::Sensor, 1);
    assert!(publisher
        .message(
            Notification::StateUpdated(unknown_sensor),
            &controller.traffic_lights,
            &controller.bridge
        )
        .unwrap()
        .is_none());
    let list = controller.messages(&vec![
        Notification::StateUpdated(road_sensor()),
        Notification::StateUpdated(missing),
        Notification::ScoreUpdated(GroupId { kind: GroupKind::MotorVehicle, id: 1 }),
        Notification::StateUpdated(gate),
    ]);
    assert_eq!(list.len(), 2);
    assert_eq!(list[0].as_ref().err(), Some(&ComponentNotFound { id: missing }));
    assert_eq!(list[1].as_ref().unwrap().payload, b"1".to_vec());
}

#[test]
fn a_publisher_that_is_not_started_refuses() {
    let publisher = MessagePublisher::new(Client::new(
        String::from("pub"),
        String::from("h"),
        1883,
        QoS::AtMostOnce,
        7,
    ));
    let message = Message {
        topic: AnyTopic::Component(ComponentTopic::from(road_light())),
        payload: b"2".to_vec(),
    };
    match publisher.publication(message) {
        Err(ClientError::NotYetStarted { client_id }) => assert_eq!(client_id, "pub"),
        Ok(_) => panic!("published before the start"),
    }
}

#[test]
fn inbound_payloads_become_text() {
    let subscriber = MessageSubscriber::new();
    assert_eq!(
        subscriber.inbound(String::from("1/vessel/3/sensor/1"), &b"1".to_vec()),
        (String::from("1/vessel/3/sensor/1"), String::from("1"))
    );
    assert_eq!(
        subscriber.inbound(String::from("t"), &"grün".as_bytes().to_vec()),
        (String::from("t"), String::from("grün"))
    );
    assert_eq!(
        subscriber.inbound(String::from("t"), &vec![b'1', 0xff, b'2']),
        (String::from("t"), String::from("1\u{fffd}2"))
    );
    assert_eq!(subscriber.inbound(String::new(), &vec![]), (String::new(), String::new()));
}

#[test]
fn a_reset_by_hand() {
    let mut controller = supervisor();
    controller.handle_message("1/motor_vehicle/1/sensor/1", "1", 100);
    controller.traffic_lights.set_score(GroupId { kind: GroupKind::MotorVehicle, id: 1 }, 3);
    controller.reset(200);
    assert_eq!(controller.traffic_lights.groups()[0].score, 0);
    assert_eq!(
        controller.traffic_lights.find_sensor(road_sensor()).unwrap().state(),
        SensorState::Low
    );
    assert_eq!(controller.traffic_lights.find_sensor(road_sensor()).unwrap().timestamp(), 200);
    controller.start_runners();
    assert!(controller.runners_started);
    assert!(!controller.after_stop(LifeCycleAction::Ignore, 300));
    assert!(controller.runners_started);
}
