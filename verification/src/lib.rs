//! Matching core of a multi-instrument exchange: a two-sided book of resting
//! orders per instrument, matched by price priority and then time priority.

pub mod core_engine;
