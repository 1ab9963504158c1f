//! Encoding of the line protocol that drives a controller-emulating device:
//! button and stick wire names, a full controller snapshot and its `STATE`
//! command, and the per-action commands (`PRESS`, `HOLD`, `RELEASE`, `STICK`,
//! `SLEEP`), each with its exact text.

pub mod button;
pub mod command;
pub mod decimal;
pub mod state;
