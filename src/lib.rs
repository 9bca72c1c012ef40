//! Protocol models expressed as explicit nondeterministic transition systems, and a
//! client/server harness that probes register-like actors.

pub mod actor;
pub mod register;
pub mod two_phase;
