//! Lindenmayer systems: an axiom is rewritten by production rules, generation
//! by generation, and the resulting symbols steer a turtle that traces
//! polylines.

pub mod pattern;
pub mod system;
pub mod text;
pub mod turtle;
