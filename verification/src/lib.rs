//! Core of an interactive terminal form for configuring a directory monitor:
//! a cyclic ring of focus targets, character buffers edited one keystroke at
//! a time, and an ordered label-to-extensions registry mutated by the form's
//! add and remove actions.
//!
//! The terminal itself — raw-mode handling, key-event polling, drawing — is
//! an external collaborator: it normalizes raw events into input signals and
//! reads the form state back after every transition.

pub mod buffer;
pub mod controller;
pub mod focus;
pub mod registry;
