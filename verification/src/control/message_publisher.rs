//! Outbound messages and how they are handed to the broker client.
use crate::io::client::{AnyTopic, Client, ClientError, Publication};
use vstd::prelude::*;

verus! {

/// A message to publish: a payload under a topic.
pub struct Message {
    pub topic: AnyTopic,
    pub payload: Vec<u8>,
}

/// Hands messages to the client that publishes.
pub struct MessagePublisher {
    pub publisher: Client,
}

impl MessagePublisher {
    /// A publisher on top of the client `publisher`.
    pub fn new(publisher: Client) -> (made: Self)
        ensures
            made.publisher == publisher,
    {
        Self { publisher }
    }

    /// The request to publish `message`: one message, one request, with the
    /// payload as it is and the topic under the client's team. Refused while
    /// the client is not started.
    pub fn publication(&self, message: Message) -> (request: Result<Publication, ClientError>)
        ensures
            match request {
                Ok(p) => self.publisher.started && p.topic@ == message.topic.for_team(
                    self.publisher.team_id,
                ).text() && p.qos == self.publisher.qos && !p.retain && p.payload@
                    == message.payload@,
                Err(ClientError::NotYetStarted { client_id }) => !self.publisher.started
                    && client_id@ == self.publisher.client_id@,
            },
    {
        self.publisher.publish(message.topic, message.payload)
    }
}

} // verus!
