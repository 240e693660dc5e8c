//! Scheduling state and wire-level helpers for a small enclave inference
//! cluster: a scheduler hands idle worker ("slave") enclaves to users, and
//! clients exchange length-prefixed, sealed frames with those workers.

pub mod attestation;
pub mod text;
pub mod master;
pub mod clock;
pub mod frame;
pub mod message;
pub mod quote;
pub mod config;
