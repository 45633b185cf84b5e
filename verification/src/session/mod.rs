//! The session: what the application asks for, what the controller sends, and
//! what goes out to it.

pub mod channel_laws;
pub mod connection_laws;
pub mod events;
pub mod identity;
pub mod laws;
pub mod model;
pub mod service_laws;
pub mod startup;
pub mod startup_laws;
pub mod state;
pub mod traffic_laws;
pub mod wire_laws;
