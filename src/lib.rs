//! Replication of entity/component state from an authoritative world to
//! remote mirrors: snapshot assembly, snapshot reconciliation, the entity
//! mapping table, and the channel policy that carries the messages.

pub mod entity;
pub mod storage;
pub mod mapping;
pub mod network;
pub mod world;
pub mod laws;
pub mod time;
pub mod timer;
pub mod animation;
pub mod channel;
pub mod message;
pub mod projectile;
