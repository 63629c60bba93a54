//! In-memory presence relay: the session registry, the room and subscription
//! indices, the routing of inbound events to delivery sets, and the
//! connection lifecycle.

pub mod directory;
pub mod events;
pub mod lifecycle;
pub mod outside;
pub mod state;
pub mod ws;
