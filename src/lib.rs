//! Verified core of a small real-time renderer: the identity-indexed instance
//! registry that mirrors per-object transforms into a growable device buffer,
//! and the decisions the frame loop makes around it.

pub mod frame;
pub mod input;
pub mod mirror;
pub mod registry;
