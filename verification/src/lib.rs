//! A real-time publish/subscribe message bus: the wire codec, the routing
//! state and the decision logic of the hub that owns it.
//!
//! The socket work around this library — accepting connections, TLS,
//! signals — lives outside it; the library turns bytes into messages,
//! messages into hub events, and hub events into the deliveries owed.

pub mod authentication;
pub mod authorization;
pub mod clients;
pub mod codec;
pub mod events;
pub mod frame;
pub mod hub;
pub mod interactor;
pub mod keyed;
pub mod messages;
pub mod notifications;
pub mod options;
pub mod patterns;
pub mod publishing;
pub mod refcount;
pub mod subscriptions;
