//! What drives an installation: scoring, scheduling, the bridge sequence,
//! publishing and the routing of inbound messages.
pub mod bridge_runner;
pub mod controller;
pub mod message_publisher;
pub mod message_subscriber;
pub mod score_poller;
pub mod state_publisher;
pub mod traffic_lights_runner;
