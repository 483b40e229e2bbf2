//! An in-memory account registry: registration with a one-time code,
//! activation, password login with bearer tokens, password reset, and the
//! periodic sweep that drops what has expired.

pub mod email;
pub mod error;
pub mod verify;
pub mod account;
pub mod manager;
pub mod laws;
