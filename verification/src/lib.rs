//! Core of a vocabulary notifier: vocabulary entries and their
//! notification rendering, tab-separated vocabulary parsing, a
//! coalescing "show now" signal, a one-way run flag, and the rotation
//! scheduler that cycles through the entries on a timed cadence.

pub mod entry;
pub mod parse;
pub mod sched;
pub mod signal;
