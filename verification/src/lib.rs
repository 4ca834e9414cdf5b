//! The vocabulary and the decision rules of vibe-check: tiers, escalation
//! ledgers, capability resolutions, identifiers, scopes, digests and the
//! ports' plain data types.
//!
//! Scrutiny only rises: [`tier::Tier`] is a join-semilattice and an
//! [`adjudicate::Adjudicator`] has exactly one mutator, `escalate`.
#![allow(unused_imports)]

pub mod adjudicate;
pub mod bundle;
pub mod diff;
pub mod digest;
pub mod cli;
pub mod ids;
pub mod location;
pub mod path_order;
pub mod reason;
pub mod resolution;
pub mod text;
pub mod tier;
pub mod json;
pub mod key_order;
pub mod known;
pub mod schema;
pub mod scope;
pub mod evidence;
pub mod time;
pub mod host;
