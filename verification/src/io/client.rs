//! What a broker client is asked to do, and under which address.
//!
//! A client belongs to a team; every topic that goes through it gets the
//! team's number. A client that has not been started refuses to subscribe,
//! unsubscribe, publish and listen.
use crate::io::topics::component_topic::ComponentTopic;
use crate::io::topics::lifecycle_topic::LifeCycleTopic;
use crate::io::topics::{NoTeamIdSet, Topic};
use vstd::prelude::*;

verus! {

/// Why a client refuses.
#[derive(Debug)]
pub enum ClientError {
    /// The client has not been started yet.
    NotYetStarted { client_id: String },
}

/// The quality of service of a subscription or a publication.
#[derive(Clone, Copy, Debug, Eq, PartialEq, Structural)]
pub enum QoS {
    AtMostOnce,
    AtLeastOnce,
    ExactlyOnce,
}

/// The quality of service with level `byte`: 0, 1 and 2 stand for at most
/// once, at least once and exactly once; no other level stands for one.
pub open spec fn qos_level(byte: u8) -> Option<QoS> {
    if byte == 0 {
        Some(QoS::AtMostOnce)
    } else if byte == 1 {
        Some(QoS::AtLeastOnce)
    } else if byte == 2 {
        Some(QoS::ExactlyOnce)
    } else {
        None
    }
}

/// Calls `mqtt311::QoS::from_u8`, which the broker client re-exports, and
/// hands its answer over variant by variant. Claimed, from its source: the
/// levels 0, 1 and 2 give the three qualities in that order, and every other
/// level gives an error.
#[verifier::external_body]
pub(crate) fn qos_from_u8(byte: u8) -> (qos: Option<QoS>)
    ensures
        qos == qos_level(byte),
{
    match mqtt311::QoS::from_u8(byte) {
        Ok(mqtt311::QoS::AtMostOnce) => Some(QoS::AtMostOnce),
        Ok(mqtt311::QoS::AtLeastOnce) => Some(QoS::AtLeastOnce),
        Ok(mqtt311::QoS::ExactlyOnce) => Some(QoS::ExactlyOnce),
        Err(_) => None,
    }
}

impl QoS {
    /// The quality of service with level `byte`, if there is one.
    pub fn from_u8(byte: u8) -> (qos: Option<QoS>)
        ensures
            qos == qos_level(byte),
    {
        qos_from_u8(byte)
    }

    /// The level of the quality of service.
    pub fn to_u8(&self) -> (byte: u8)
        ensures
            qos_level(byte) == Some(*self),
    {
        match self {
            QoS::AtMostOnce => 0,
            QoS::AtLeastOnce => 1,
            QoS::ExactlyOnce => 2,
        }
    }
}

/// A topic of either kind.
#[derive(Clone, Copy, Debug, Eq, PartialEq, Structural)]
pub enum AnyTopic {
    Component(ComponentTopic),
    LifeCycle(LifeCycleTopic),
}

impl AnyTopic {
    /// The text of the topic. A component topic without a team has `None` in
    /// the place of the team; a lifecycle topic has a text only with a team.
    pub open spec fn text(self) -> Seq<char>
        recommends
            self matches AnyTopic::LifeCycle(t) ==> t.team_id.is_some(),
    {
        match self {
            AnyTopic::Component(t) => t.text(),
            AnyTopic::LifeCycle(t) => t.text(),
        }
    }

    /// The topic for team `team_id`.
    pub open spec fn for_team(self, team_id: i32) -> AnyTopic {
        match self {
            AnyTopic::Component(t) => AnyTopic::Component(
                ComponentTopic { team_id: Some(team_id), ..t },
            ),
            AnyTopic::LifeCycle(t) => AnyTopic::LifeCycle(
                LifeCycleTopic { team_id: Some(team_id), ..t },
            ),
        }
    }

    /// The text of the topic. A lifecycle topic has to have a team.
    pub fn to_string(&self) -> (s: String)
        requires
            self matches AnyTopic::LifeCycle(t) ==> t.team_id.is_some(),
        ensures
            s@ == self.text(),
    {
        match self {
            AnyTopic::Component(t) => t.to_string(),
            AnyTopic::LifeCycle(t) => t.to_string(),
        }
    }
}

impl Topic for AnyTopic {
    open spec fn team(&self) -> Option<i32> {
        match self {
            AnyTopic::Component(t) => t.team_id,
            AnyTopic::LifeCycle(t) => t.team_id,
        }
    }

    fn team_id(&self) -> (team: Result<i32, NoTeamIdSet>) {
        match self {
            AnyTopic::Component(t) => t.team_id(),
            AnyTopic::LifeCycle(t) => t.team_id(),
        }
    }

    fn set_team_id(&mut self, team_id: i32)
        ensures
            *final(self) == old(self).for_team(team_id),
    {
        let next = match self {
            AnyTopic::Component(t) => AnyTopic::Component(
                ComponentTopic { team_id: Some(team_id), uid: t.uid },
            ),
            AnyTopic::LifeCycle(t) => AnyTopic::LifeCycle(
                LifeCycleTopic { team_id: Some(team_id), device: t.device, handler: t.handler },
            ),
        };
        *self = next;
    }
}

/// The message that the broker sends for a client that is gone.
pub struct LastWill {
    pub topic: String,
    pub message: Vec<u8>,
    pub qos: QoS,
    pub retain: bool,
}

/// A request to subscribe.
pub struct Subscription {
    pub topic: String,
    pub qos: QoS,
}

/// A request to publish.
pub struct Publication {
    pub topic: String,
    pub qos: QoS,
    pub retain: bool,
    pub payload: Vec<u8>,
}

/// The settings and the state of one broker client.
pub struct Client {
    pub client_id: String,
    pub host: String,
    pub port: u16,
    pub qos: QoS,
    pub team_id: i32,
    pub last_will: Option<LastWill>,
    pub started: bool,
}

impl Client {
    /// A client that has not been started and has no last will.
    pub fn new(client_id: String, host: String, port: u16, qos: QoS, team_id: i32) -> (client: Self)
        ensures
            client.client_id@ == client_id@,
            client.host@ == host@,
            client.port == port,
            client.qos == qos,
            client.team_id == team_id,
            client.last_will.is_none(),
            !client.started,
    {
        Self { client_id, host, port, qos, team_id, last_will: None, started: false }
    }

    /// The text under which `topic` goes through this client: that of the
    /// topic for the client's team.
    pub fn address(&self, topic: AnyTopic) -> (text: String)
        ensures
            text@ == topic.for_team(self.team_id).text(),
    {
        let mut topic = topic;
        topic.set_team_id(self.team_id);
        topic.to_string()
    }

    /// Sets the last will: `payload` under `topic`, with the client's quality
    /// of service, not retained.
    pub fn set_last_will(&mut self, topic: AnyTopic, payload: Vec<u8>)
        ensures
            match final(self).last_will {
                Some(will) => will.topic@ == topic.for_team(old(self).team_id).text()
                    && will.message@ == payload@ && will.qos == old(self).qos && !will.retain,
                None => false,
            },
            final(self).client_id == old(self).client_id,
            final(self).host == old(self).host,
            final(self).port == old(self).port,
            final(self).qos == old(self).qos,
            final(self).team_id == old(self).team_id,
            final(self).started == old(self).started,
    {
        let text = self.address(topic);
        self.last_will = Some(LastWill { topic: text, message: payload, qos: self.qos, retain: false });
    }

    /// Marks the client as started.
    pub fn start(&mut self)
        ensures
            final(self).started,
            final(self).client_id == old(self).client_id,
            final(self).host == old(self).host,
            final(self).port == old(self).port,
            final(self).qos == old(self).qos,
            final(self).team_id == old(self).team_id,
            final(self).last_will == old(self).last_will,
    {
        self.started = true;
    }

    /// The error of a client that has not been started.
    fn not_yet_started(&self) -> (error: ClientError)
        ensures
            match error {
                ClientError::NotYetStarted { client_id } => client_id@ == self.client_id@,
            },
    {
        ClientError::NotYetStarted { client_id: self.client_id.clone() }
    }

    /// The request to subscribe to `topic`: under the client's team, with the
    /// client's quality of service. Refused before the client is started.
    pub fn subscribe(&self, topic: AnyTopic) -> (request: Result<Subscription, ClientError>)
        ensures
            match request {
                Ok(s) => self.started && s.topic@ == topic.for_team(self.team_id).text() && s.qos
                    == self.qos,
                Err(ClientError::NotYetStarted { client_id }) => !self.started && client_id@
                    == self.client_id@,
            },
    {
        if self.started {
            Ok(Subscription { topic: self.address(topic), qos: self.qos })
        } else {
            Err(self.not_yet_started())
        }
    }

    /// The text of the topic to unsubscribe from. Refused before the client is
    /// started.
    pub fn unsubscribe(&self, topic: AnyTopic) -> (request: Result<String, ClientError>)
        ensures
            match request {
                Ok(text) => self.started && text@ == topic.for_team(self.team_id).text(),
                Err(ClientError::NotYetStarted { client_id }) => !self.started && client_id@
                    == self.client_id@,
            },
    {
        if self.started {
            Ok(self.address(topic))
        } else {
            Err(self.not_yet_started())
        }
    }

    /// The request to publish `payload` under `topic`: under the client's
    /// team, with the client's quality of service, not retained. Refused before
    /// the client is started.
    pub fn publish(&self, topic: AnyTopic, payload: Vec<u8>) -> (request: Result<
        Publication,
        ClientError,
    >)
        ensures
            match request {
                Ok(p) => self.started && p.topic@ == topic.for_team(self.team_id).text() && p.qos
                    == self.qos && !p.retain && p.payload@ == payload@,
                Err(ClientError::NotYetStarted { client_id }) => !self.started && client_id@
                    == self.client_id@,
            },
    {
        if self.started {
            Ok(
                Publication {
                    topic: self.address(topic),
                    qos: self.qos,
                    retain: false,
                    payload,
                },
            )
        } else {
            Err(self.not_yet_started())
        }
    }

    /// Whether the client may be listened to: refused before it is started.
    pub fn listen(&self) -> (allowed: Result<(), ClientError>)
        ensures
            match allowed {
                Ok(_) => self.started,
                Err(ClientError::NotYetStarted { client_id }) => !self.started && client_id@
                    == self.client_id@,
            },
    {
        if self.started {
            Ok(())
        } else {
            Err(self.not_yet_started())
        }
    }
}

} // verus!
