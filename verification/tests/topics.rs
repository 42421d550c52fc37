use intersection_controller::intersections::component::{ComponentId, ComponentKind, ComponentUid};
use intersection_controller::intersections::group::{GroupId, GroupKind};
use intersection_controller::io::topics::component_topic::{
    ComponentTopic, ComponentTopicBuildError,
};
use intersection_controller::io::topics::lifecycle_topic::{
    Device, Handler, LifeCycleTopic, LifeCycleTopicBuildError,
};
use intersection_controller::io::topics::{NoTeamIdSet, Topic};
use std::convert::TryFrom;

#[test]
fn test_valid_topic() {
    let raw_topic = "18/motor_vehicle/3/light/1";
    let topic = ComponentTopic::try_from(raw_topic);

    assert!(topic.is_ok());

    let topic = topic.unwrap();

    assert_eq!(topic.team_id, Some(18));
    assert_eq!(topic.uid.group_id.kind, GroupKind::MotorVehicle);
    assert_eq!(topic.uid.group_id.id, 3);
    assert_eq!(topic.uid.component_id.kind, ComponentKind::Light);
    assert_eq!(topic.uid.component_id.id, 1);
}

#[test]
fn test_invalid_kinds() {
    let raw_topic = "18/car/3/lamp/1";
    let topic = ComponentKind::try_from(raw_topic);

    assert!(topic.is_err());
}

#[test]
fn component_topic_reports_the_first_bad_field() {
    assert_eq!(
        ComponentTopic::try_from("18/motor_vehicle/3/light"),
        Err(ComponentTopicBuildError::InvalidAmountOfTopicParts)
    );
    assert_eq!(
        ComponentTopic::try_from("18/motor_vehicle/3/light/1/2"),
        Err(ComponentTopicBuildError::InvalidAmountOfTopicParts)
    );
    assert_eq!(
        ComponentTopic::try_from(""),
        Err(ComponentTopicBuildError::InvalidAmountOfTopicParts)
    );
    assert_eq!(
        ComponentTopic::try_from("x/car/3/lamp/y"),
        Err(ComponentTopicBuildError::InvalidTeamId)
    );
    assert_eq!(
        ComponentTopic::try_from("18/car/3/lamp/1"),
        Err(ComponentTopicBuildError::InvalidGroupKind)
    );
    assert_eq!(
        ComponentTopic::try_from("18/cycle//lamp/1"),
        Err(ComponentTopicBuildError::InvalidGroupId)
    );
    assert_eq!(
        ComponentTopic::try_from("18/cycle/3/lamp/1"),
        Err(ComponentTopicBuildError::InvalidComponentKind)
    );
    assert_eq!(
        ComponentTopic::try_from("18/cycle/3/gate/2147483648"),
        Err(ComponentTopicBuildError::InvalidComponentId)
    );
}

#[test]
fn component_topic_numbers_follow_the_integer_grammar() {
    let topic = ComponentTopic::try_from("+7/vessel/-3/deck/007").unwrap();
    assert_eq!(topic.team_id, Some(7));
    assert_eq!(topic.uid, ComponentUid::new(GroupKind::Vessel, -3, ComponentKind::Deck, 7));
    let topic = ComponentTopic::try_from("-2147483648/foot/2147483647/sensor/0").unwrap();
    assert_eq!(topic.team_id, Some(i32::MIN));
    assert_eq!(topic.uid.group_id.id, i32::MAX);
    assert!(ComponentTopic::try_from("1 /foot/1/sensor/0").is_err());
    assert!(ComponentTopic::try_from("-/foot/1/sensor/0").is_err());
    assert!(ComponentTopic::try_from("1/foot/1/sensor/1_0").is_err());
}

#[test]
fn component_topic_text() {
    let uid = ComponentUid::new(GroupKind::MotorVehicle, 3, ComponentKind::Light, 1);
    assert_eq!(uid.to_string(), "motor_vehicle/3/light/1");
    let mut topic = ComponentTopic::from(uid);
    assert_eq!(topic.team_id, None);
    assert_eq!(topic.team_id(), Err(NoTeamIdSet));
    assert_eq!(topic.to_string(), "None/motor_vehicle/3/light/1");
    topic.set_team_id(18);
    assert_eq!(topic.team_id(), Ok(18));
    assert_eq!(topic.to_string(), "18/motor_vehicle/3/light/1");
}

#[test]
fn component_topic_round_trip() {
    let kinds = [
        GroupKind::MotorVehicle,
        GroupKind::Cycle,
        GroupKind::Foot,
        GroupKind::Vessel,
        GroupKind::Bridge,
    ];
    let parts = [
        ComponentKind::Light,
        ComponentKind::Sensor,
        ComponentKind::Gate,
        ComponentKind::Deck,
    ];
    let numbers = [0, 1, -1, 9, 10, 99, 100, 12345, i32::MAX, i32::MIN, -2147483647];
    for group_kind in kinds.iter() {
        for component_kind in parts.iter() {
            for (i, n) in numbers.iter().enumerate() {
                let topic = ComponentTopic {
                    team_id: Some(numbers[(i + 1) % numbers.len()]),
                    uid: ComponentUid {
                        group_id: GroupId { kind: *group_kind, id: *n },
                        component_id: ComponentId {
                            kind: *component_kind,
                            id: numbers[(i + 2) % numbers.len()],
                        },
                    },
                };
                assert_eq!(ComponentTopic::try_from(topic.to_string().as_str()), Ok(topic));
            }
        }
    }
}

#[test]
fn kinds_have_their_names() {
    assert_eq!(GroupKind::MotorVehicle.to_string(), "motor_vehicle");
    assert_eq!(GroupKind::Cycle.to_string(), "cycle");
    assert_eq!(GroupKind::Foot.to_string(), "foot");
    assert_eq!(GroupKind::Vessel.to_string(), "vessel");
    assert_eq!(GroupKind::Bridge.to_string(), "bridge");
    assert_eq!(ComponentKind::Light.to_string(), "light");
    assert_eq!(ComponentKind::Sensor.to_string(), "sensor");
    assert_eq!(ComponentKind::Gate.to_string(), "gate");
    assert_eq!(ComponentKind::Deck.to_string(), "deck");
    assert_eq!(GroupKind::try_from("vessel").unwrap(), GroupKind::Vessel);
    assert_eq!(GroupKind::try_from("Vessel").unwrap_err().group_kind, "Vessel");
    assert_eq!(ComponentKind::try_from("gate").unwrap(), ComponentKind::Gate);
    assert_eq!(ComponentKind::try_from("gates").unwrap_err().kind, "gates");
    assert_eq!(GroupId { kind: GroupKind::Bridge, id: 1 }.to_string(), "bridge/1");
    assert_eq!(ComponentId { kind: ComponentKind::Deck, id: -4 }.to_string(), "deck/-4");
}

#[test]
fn lifecycle_topic_reads_team_device_and_handler() {
    let topic = LifeCycleTopic::try_from("1/features/lifecycle/simulator/onconnect").unwrap();
    assert_eq!(topic.team_id, Some(1));
    assert_eq!(topic.device, Device::Simulator);
    assert_eq!(topic.handler, Handler::Connect);
    let topic = LifeCycleTopic::try_from("0042/features/lifecycle/controller/ondisconnect").unwrap();
    assert_eq!(topic.team_id, Some(42));
    assert_eq!(topic.device, Device::Controller);
    assert_eq!(topic.handler, Handler::Disconnect);
}

#[test]
fn lifecycle_topic_refuses_other_texts() {
    let bad = [
        "",
        "/features/lifecycle/simulator/onconnect",
        "-1/features/lifecycle/simulator/onconnect",
        "+1/features/lifecycle/simulator/onconnect",
        "1/feature/lifecycle/simulator/onconnect",
        "1/features/lifecycles/simulator/onconnect",
        "1/features/lifecycle/emulator/onconnect",
        "1/features/lifecycle/simulator/connect",
        "1/features/lifecycle/simulator/onconnect/",
        "1/features/lifecycle/simulator/onconnect\n",
        " 1/features/lifecycle/simulator/onconnect",
        "2147483648/features/lifecycle/simulator/onconnect",
        "1/motor_vehicle/1/sensor/1",
    ];
    for text in bad.iter() {
        assert_eq!(LifeCycleTopic::try_from(*text), Err(LifeCycleTopicBuildError::InvalidFormat));
    }
}

#[test]
fn lifecycle_topic_text_and_round_trip() {
    let mut topic = LifeCycleTopic::new(Device::Controller, Handler::Disconnect);
    assert_eq!(topic.team_id, None);
    assert_eq!(topic.team_id(), Err(NoTeamIdSet));
    topic.set_team_id(4);
    assert_eq!(topic.team_id(), Ok(4));
    assert_eq!(topic.to_string(), "4/features/lifecycle/controller/ondisconnect");
    for team in [0, 1, 9, 10, 4711, i32::MAX].iter() {
        for device in [Device::Controller, Device::Simulator].iter() {
            for handler in [Handler::Connect, Handler::Disconnect].iter() {
                let topic =
                    LifeCycleTopic { team_id: Some(*team), device: *device, handler: *handler };
                assert_eq!(LifeCycleTopic::try_from(topic.to_string().as_str()), Ok(topic));
            }
        }
    }
}

#[test]
fn lifecycle_grammar_agrees_with_its_regular_expression() {
    let pattern = regex::Regex::new(
        "^\\d+/features/lifecycle/(controller|simulator)/(onconnect|ondisconnect)$",
    )
    .unwrap();
    let texts = [
        "1/features/lifecycle/simulator/onconnect",
        "18/features/lifecycle/controller/ondisconnect",
        "007/features/lifecycle/simulator/ondisconnect",
        "/features/lifecycle/simulator/onconnect",
        "1/features/lifecycle/simulator/onconnect ",
        "x1/features/lifecycle/simulator/onconnect",
        "1/features/lifecycle/simulator",
        "1/features/lifecycle/simulator/onconnect/extra",
        "1//features/lifecycle/simulator/onconnect",
        "1/features/lifecycle/controller/onconnect",
        "-1/features/lifecycle/controller/onconnect",
        "1/Features/lifecycle/controller/onconnect",
    ];
    for text in texts.iter() {
        assert_eq!(LifeCycleTopic::try_from(*text).is_ok(), pattern.is_match(text));
    }
    for text in [
        "٣/features/lifecycle/simulator/onconnect",
        "99999999999/features/lifecycle/simulator/onconnect",
    ] {
        assert!(pattern.is_match(text));
        assert_eq!(LifeCycleTopic::try_from(text), Err(LifeCycleTopicBuildError::InvalidFormat));
    }
}

#[test]
fn devices_and_handlers_have_their_names() {
    assert_eq!(Device::Controller.to_string(), "controller");
    assert_eq!(Device::Simulator.to_string(), "simulator");
    assert_eq!(Handler::Connect.to_string(), "onconnect");
    assert_eq!(Handler::Disconnect.to_string(), "ondisconnect");
    assert_eq!(Device::try_from("simulator").unwrap(), Device::Simulator);
    assert_eq!(Device::try_from("sim").unwrap_err().device, "sim");
    assert_eq!(Handler::try_from("ondisconnect").unwrap(), Handler::Disconnect);
    assert_eq!(Handler::try_from("").unwrap_err().handler, "");
}
