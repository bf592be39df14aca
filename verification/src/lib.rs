//! Engine for driving a pool of chat bots on an IRC server: parsing bot
//! credentials, tracking per-bot state, planning multi-bot message dispatches,
//! running a recurring random-interval scheduler, and stepping the IRC
//! session protocol. All text is handled as raw bytes so that every rule of
//! the engine is stated and proved over plain values; the surrounding binary
//! performs the network I/O that the engine plans.

pub mod creds;
pub mod dispatch;
pub mod engine;
pub mod registry;
pub mod rng;
pub mod schedule;
pub mod session;
pub mod text;
