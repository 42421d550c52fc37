//! Connections to the broker.
use vstd::prelude::*;

verus! {

/// One connection: who connects, where to, over which protocol, and with
/// which quality of service.
pub struct MqConnection {
    pub client_id: String,
    pub host: String,
    pub protocol: String,
    pub qos: i32,
}

/// The connection that publishes and the one that subscribes.
pub struct Io {
    pub publisher: MqConnection,
    pub subscriber: MqConnection,
}

} // verus!
