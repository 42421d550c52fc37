//! Publishes the state of actuators whenever it is set.
//!
//! Sensors are not published: their state comes from the simulator. Scores
//! are not published either.
use crate::control::message_publisher::Message;
use crate::intersections::component::{ComponentKind, ComponentState, ComponentUid};
use crate::intersections::intersection::{Intersection, IntersectionView, Notification};
use crate::io::client::AnyTopic;
use crate::io::topics::component_topic::ComponentTopic;
use crate::text::int_text;
use vstd::prelude::*;
use vstd::string::StringSliceAdditionalSpecFns;
use vstd::utf8::encode_utf8;

verus! {

/// The error for a component that no intersection holds.
#[derive(Clone, Copy, Debug, Eq, PartialEq, Structural)]
pub struct ComponentNotFound {
    pub id: ComponentUid,
}

/// The payload for the component `id`: the code of its state. Sensors are
/// looked for in both intersections first, then lights, then gates, then
/// decks; within each kind, `traffic_light` comes before `bridge`.
pub open spec fn payload_code(
    traffic_light: IntersectionView,
    bridge: IntersectionView,
    id: ComponentUid,
) -> Option<int> {
    if traffic_light.has_sensor(id) {
        Some(traffic_light.sensor(id).state.code())
    } else if bridge.has_sensor(id) {
        Some(bridge.sensor(id).state.code())
    } else if traffic_light.has_light(id) {
        Some(traffic_light.light(id).state.code())
    } else if bridge.has_light(id) {
        Some(bridge.light(id).state.code())
    } else if traffic_light.has_gate(id) {
        Some(traffic_light.gate(id).state.code())
    } else if bridge.has_gate(id) {
        Some(bridge.gate(id).state.code())
    } else if traffic_light.has_deck(id) {
        Some(traffic_light.deck(id).state.code())
    } else if bridge.has_deck(id) {
        Some(bridge.deck(id).state.code())
    } else {
        None
    }
}

/// What is published for `notification`: nothing for a score and for the
/// state of a sensor; for the state of another component, under its topic with
/// no team set, the code of its current state as decimal text; an error where
/// no intersection holds the component.
pub open spec fn publication(
    notification: Notification,
    traffic_light: IntersectionView,
    bridge: IntersectionView,
) -> Result<Option<(AnyTopic, Seq<u8>)>, ComponentNotFound> {
    match notification {
        Notification::ScoreUpdated(_) => Ok(None),
        Notification::StateUpdated(id) => if id.component_id.kind == ComponentKind::Sensor {
            Ok(None)
        } else {
            match payload_code(traffic_light, bridge, id) {
                Some(code) => Ok(
                    Some(
                        (
                            AnyTopic::Component(ComponentTopic { team_id: None, uid: id }),
                            encode_utf8(int_text(code)),
                        ),
                    ),
                ),
                None => Err(ComponentNotFound { id }),
            }
        },
    }
}

/// Turns notifications of an intersection into messages.
pub struct StatePublisher {}

impl StatePublisher {
    /// A publisher of states.
    pub fn new() -> Self {
        Self {  }
    }

    /// The message for `notification`, if it leads to one: under the topic of
    /// the component, with no team set, the code of its current state as
    /// decimal text. An error where no intersection holds the component.
    pub fn message(
        &self,
        notification: Notification,
        traffic_light: &Intersection,
        bridge: &Intersection,
    ) -> (result: Result<Option<Message>, ComponentNotFound>)
        ensures
            match publication(notification, traffic_light@, bridge@) {
                Ok(None) => result matches Ok(None),
                Ok(Some(m)) => result matches Ok(Some(message)) && message.topic == m.0
                    && message.payload@ == m.1,
                Err(e) => result matches Err(error) && error == e,
            },
    {
        match notification {
            Notification::StateUpdated(id) => {
                if id.component_id.kind == ComponentKind::Sensor {
                    return Ok(None);
                }
                let code = match self.get_payload(traffic_light, bridge, id) {
                    Ok(code) => code,
                    Err(e) => {
                        return Err(e);
                    },
                };
                let text = crate::text::i32_to_string(code);
                let payload = text.as_str().as_bytes_vec();
                Ok(Some(Message { topic: AnyTopic::Component(ComponentTopic::from(id)), payload }))
            },
            Notification::ScoreUpdated(_) => Ok(None),
        }
    }

    /// The code of the current state of the component `id`, or an error where
    /// no intersection holds it.
    pub fn get_payload(&self, traffic_light: &Intersection, bridge: &Intersection, id: ComponentUid) -> (result:
        Result<i32, ComponentNotFound>)
        ensures
            match result {
                Ok(code) => payload_code(traffic_light@, bridge@, id) == Some(code as int),
                Err(e) => payload_code(traffic_light@, bridge@, id).is_none() && e.id == id,
            },
    {
        if let Some(sensor) = traffic_light.find_sensor(id) {
            return Ok(sensor.state().to_int());
        }
        if let Some(sensor) = bridge.find_sensor(id) {
            return Ok(sensor.state().to_int());
        }
        if let Some(light) = traffic_light.find_light(id) {
            return Ok(light.state().to_int());
        }
        if let Some(light) = bridge.find_light(id) {
            return Ok(light.state().to_int());
        }
        if let Some(gate) = traffic_light.find_gate(id) {
            return Ok(gate.state().to_int());
        }
        if let Some(gate) = bridge.find_gate(id) {
            return Ok(gate.state().to_int());
        }
        if let Some(deck) = traffic_light.find_deck(id) {
            return Ok(deck.state().to_int());
        }
        if let Some(deck) = bridge.find_deck(id) {
            return Ok(deck.state().to_int());
        }
        Err(ComponentNotFound { id })
    }
}

} // verus!
