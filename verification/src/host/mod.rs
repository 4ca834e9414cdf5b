//! The side-effect ports' plain data: what the forge, the version-control
//! system, a subprocess and the escape store hand back and are handed.
//!
//! The ports themselves are asynchronous and live with the program that
//! drives them; everything they exchange, and every decision made over it,
//! is here.

pub mod clock;
pub mod escape;
pub mod exec;
pub mod forge;
pub mod scheduler;
pub mod vcs;
