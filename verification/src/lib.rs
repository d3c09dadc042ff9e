//! An event flag group: a fixed-width bit register that concurrent tasks use
//! to signal and wait on sets of boolean conditions, together with a channel
//! adapter that lets the event object be polled alongside other kernel I/O
//! sources.

pub mod bits;
pub mod chan;
pub mod event;
pub mod laws;
