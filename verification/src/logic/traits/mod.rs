//! Cross-cutting traits shared by depots, managers and item instances.

pub mod id;
pub mod pending;
pub mod proto;
pub mod util;
pub mod classify;
pub mod container;
pub mod item;
pub mod lifecycle;
