//! Structural comparison of dynamically typed, nested values.
//!
//! Two values made of scalars, mappings and sequences are compared from
//! the root down, and every point where they diverge is reported as a
//! record that holds the path to it. `diff::quickdiff` is the entry
//! point; `model` states what it reports, and `laws` and `symmetry`
//! prove what follows from that.

pub mod diff;
pub mod equality;
pub mod laws;
pub mod mapping;
pub mod model;
pub mod record;
pub mod symmetry;
pub mod validity;
pub mod value;
