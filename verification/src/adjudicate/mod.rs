//! Turning accumulated escalations into a verdict. Scrutiny only ever rises:
//! the accumulator's only mutator is `escalate`, and an advisory requirement
//! escalates a second, independent accumulator rather than a weakened one.

pub mod accumulator;
pub mod enforcement;

pub use accumulator::{Adjudication, Adjudicator, Escalation, ReplayError};
pub use enforcement::{Adjudicators, AdvisoryAdjudication, EnforcedAdjudication, Enforcement};
