//! A terminal temperature dashboard's core: a bounded history of readings,
//! the projection of that history onto chart points, the parsing of the
//! sampler's text, the platform check, and the per-tick state machine.
//!
//! Readings are carried as the IEEE-754 bit pattern of their `f64` value, so
//! the library stores and reorders them without ever doing float arithmetic.

pub mod dashboard;
pub mod history;
pub mod reading;
