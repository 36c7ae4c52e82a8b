//! Ordering of labelled work units: label identity tokens, schedule entries
//! and a resolver that linearises their `before` / `after` constraints.

pub mod label;
pub mod phase;
pub mod resolve;
pub mod schedule;
