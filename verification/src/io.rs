//! The broker's side: topics and client settings.
pub mod client;
pub mod client_builder;
pub mod topics;
