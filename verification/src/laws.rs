//! What the parts guarantee together.
//!
//! [`tunnel`] is about the connections between the two ends, [`end`] about what
//! one end holds and how it answers, [`steps`] about what a single event, chunk or
//! request comes to, [`agent`] about the framing of messages, the bridge to an
//! agent's pipe and the connectors.

pub mod agent;
pub mod end;
pub mod steps;
pub mod tunnel;
