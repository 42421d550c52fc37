use intersection_controller::config::io::MqConnection;
use intersection_controller::config::protocols::{Protocol, Protocols};
use intersection_controller::intersections::component::{ComponentKind, ComponentUid};
use intersection_controller::intersections::group::GroupKind;
use intersection_controller::io::client::{AnyTopic, Client, ClientError, QoS};
use intersection_controller::io::client_builder::{ClientBuildError, ClientBuilder};
use intersection_controller::io::topics::component_topic::ComponentTopic;
use intersection_controller::io::topics::lifecycle_topic::{Device, Handler, LifeCycleTopic};
use intersection_controller::io::topics::{NoTeamIdSet, Topic};

fn link(protocol: &str, qos: i32) -> MqConnection {
    MqConnection {
        client_id: String::from("controller"),
        host: String::from("broker.local"),
        protocol: String::from(protocol),
        qos,
    }
}

fn table() -> Protocols {
    Protocols {
        protocols: vec![
            Protocol { name: String::from("tcp"), port: 1883 },
            Protocol { name: String::from("ws"), port: 8080 },
            Protocol { name: String::from("tcp"), port: 1884 },
            Protocol { name: String::from("wide"), port: 65536 + 1883 },
            Protocol { name: String::from("negative"), port: -1 },
        ],
    }
}

fn a_light() -> AnyTopic {
    AnyTopic::Component(ComponentTopic::from(ComponentUid::new(
        GroupKind::Cycle,
        2,
        ComponentKind::Light,
        1,
    )))
}

#[test]
fn quality_of_service_has_three_levels() {
    assert_eq!(QoS::from_u8(0), Some(QoS::AtMostOnce));
    assert_eq!(QoS::from_u8(1), Some(QoS::AtLeastOnce));
    assert_eq!(QoS::from_u8(2), Some(QoS::ExactlyOnce));
    for level in 3..=255u8 {
        assert_eq!(QoS::from_u8(level), None);
    }
    assert_eq!(QoS::AtMostOnce.to_u8(), 0);
    assert_eq!(QoS::AtLeastOnce.to_u8(), 1);
    assert_eq!(QoS::ExactlyOnce.to_u8(), 2);
}

#[test]
fn a_client_is_built_from_its_connection() {
    let io = link("tcp", 2);
    let protocols = table();
    let builder = ClientBuilder::new(&io, &protocols, 18);
    assert_eq!(builder.team_id, 18);
    assert_eq!(builder.find_protocol().unwrap().port, 1883);
    let client = builder.finalize().unwrap();
    assert_eq!(client.client_id, "controller");
    assert_eq!(client.host, "broker.local");
    assert_eq!(client.port, 1883);
    assert_eq!(client.qos, QoS::ExactlyOnce);
    assert_eq!(client.team_id, 18);
    assert!(client.last_will.is_none());
    assert!(!client.started);
    let io = link("ws", 0);
    let client = ClientBuilder::new(&io, &protocols, 1).finalize().unwrap();
    assert_eq!(client.port, 8080);
    assert_eq!(client.qos, QoS::AtMostOnce);
}

#[test]
fn an_unknown_protocol_is_refused() {
    let protocols = table();
    let io = link("udp", 1);
    let builder = ClientBuilder::new(&io, &protocols, 1);
    match builder.find_protocol() {
        Err(ClientBuildError::InvalidProtocol { protocol }) => assert_eq!(protocol, "udp"),
        _ => panic!("a protocol was found"),
    }
    match builder.finalize() {
        Err(ClientBuildError::InvalidProtocol { protocol }) => assert_eq!(protocol, "udp"),
        _ => panic!("a client was built"),
    }
    let none = Protocols { protocols: vec![] };
    let io = link("tcp", 7);
    assert!(matches!(
        ClientBuilder::new(&io, &none, 1).finalize(),
        Err(ClientBuildError::InvalidProtocol { .. })
    ));
}

#[test]
fn an_unknown_quality_of_service_is_refused() {
    let protocols = table();
    for qos in [3, 4, 255, -1, 1000] {
        let io = link("tcp", qos);
        assert!(matches!(
            ClientBuilder::new(&io, &protocols, 1).finalize(),
            Err(ClientBuildError::UnsupportedQualityOfService)
        ));
    }
}

#[test]
fn only_the_low_bits_of_port_and_quality_count() {
    let protocols = table();
    let io = link("wide", 256 + 1);
    let client = ClientBuilder::new(&io, &protocols, 1).finalize().unwrap();
    assert_eq!(client.port, 1883);
    assert_eq!(client.qos, QoS::AtLeastOnce);
    let io = link("negative", -254);
    let client = ClientBuilder::new(&io, &protocols, 1).finalize().unwrap();
    assert_eq!(client.port, 65535);
    assert_eq!(client.qos, QoS::ExactlyOnce);
}

#[test]
fn a_client_addresses_topics_for_its_team() {
    let client = Client::new(String::from("c"), String::from("h"), 1, QoS::AtMostOnce, 18);
    assert_eq!(client.address(a_light()), "18/cycle/2/light/1");
    assert_eq!(
        client.address(AnyTopic::LifeCycle(LifeCycleTopic::new(
            Device::Controller,
            Handler::Disconnect
        ))),
        "18/features/lifecycle/controller/ondisconnect"
    );
    let mut other = a_light();
    other.set_team_id(3);
    assert_eq!(other.team_id(), Ok(3));
    assert_eq!(client.address(other), "18/cycle/2/light/1");
    assert_eq!(other.to_string(), "3/cycle/2/light/1");
    assert_eq!(a_light().team_id(), Err(NoTeamIdSet));
    assert_eq!(a_light().to_string(), "None/cycle/2/light/1");
}

#[test]
fn a_client_refuses_before_it_is_started() {
    let mut client = Client::new(String::from("sub"), String::from("h"), 1, QoS::AtLeastOnce, 4);
    let refused = |error: ClientError| match error {
        ClientError::NotYetStarted { client_id } => assert_eq!(client_id, "sub"),
    };
    refused(client.subscribe(a_light()).err().unwrap());
    refused(client.unsubscribe(a_light()).err().unwrap());
    refused(client.publish(a_light(), vec![49]).err().unwrap());
    refused(client.listen().err().unwrap());
    client.start();
    assert!(client.started);
    assert!(client.listen().is_ok());
    let subscription = client.subscribe(a_light()).unwrap();
    assert_eq!(subscription.topic, "4/cycle/2/light/1");
    assert_eq!(subscription.qos, QoS::AtLeastOnce);
    assert_eq!(client.unsubscribe(a_light()).unwrap(), "4/cycle/2/light/1");
    let publication = client.publish(a_light(), vec![50]).unwrap();
    assert_eq!(publication.topic, "4/cycle/2/light/1");
    assert_eq!(publication.payload, vec![50]);
    assert_eq!(publication.qos, QoS::AtLeastOnce);
    assert!(!publication.retain);
}

#[test]
fn the_last_will_is_the_disconnect_of_the_controller() {
    let mut client = Client::new(String::from("pub"), String::from("h"), 1, QoS::ExactlyOnce, 4);
    client.set_last_will(
        AnyTopic::LifeCycle(LifeCycleTopic::new(Device::Controller, Handler::Disconnect)),
        vec![],
    );
    let will = client.last_will.as_ref().unwrap();
    assert_eq!(will.topic, "4/features/lifecycle/controller/ondisconnect");
    assert!(will.message.is_empty());
    assert_eq!(will.qos, QoS::ExactlyOnce);
    assert!(!will.retain);
    assert!(!client.started);
    assert_eq!(client.client_id, "pub");
}
