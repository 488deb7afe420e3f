//! Document synchronisation between peers of a private overlay: the wire
//! codec, the per-connection handler, the cross-connection coordinator and
//! the decisions of the actor that drives the overlay engine.

pub mod behaviour;
pub mod console;
pub mod database_manager;
pub mod frame;
pub mod handler;
pub mod identity;
pub mod local_config;
pub mod messages;
pub mod reader;
pub mod round_trip;
pub mod swarm_dispatch;
pub mod sync_laws;
pub mod wire;
