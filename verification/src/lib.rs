//! A queue engine over plain Redis lists.
//!
//! The engine keeps ready frames on a main list and in-flight frames on a
//! processing list, and builds visibility timeouts, delivery-attempt
//! accounting, dead-letter escalation, scheduled delivery and dead-letter
//! redrive on top of them. It never talks to the server itself: every
//! operation is split into the command to send and the handling of the reply,
//! so that each decision is a function with a contract.

pub mod acker;
pub mod codec;
pub mod command;
pub mod config;
pub mod consumer;
pub mod delivery;
pub mod error;
pub mod gcp_pubsub;
pub mod ident;
pub mod laws;
pub mod memory;
pub mod producer;
pub mod promoter;
pub mod queue;
pub mod reaper;
pub mod slots;
pub mod store;
