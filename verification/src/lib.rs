//! Redirection of a game controller's input to a handheld console's
//! input-redirection listener.
//!
//! The crate holds the way from input to wire: normalising analog samples,
//! keeping the packed button and stick snapshot, encoding it into the fixed
//! twenty-byte wire frame, deciding when a frame is transmitted, and the
//! per-iteration decisions of the polling worker.  Sockets, device polling
//! and threads belong to the program around it.
//!
//! Analog samples are IEEE 754 binary32 numbers.  They are carried as their
//! bit patterns (`u32`, as given by `to_bits`), and every operation on them is
//! defined in [`binary32`] over the exact values those patterns denote.

pub mod binary32;
pub mod config;
pub mod constants;
pub mod network;
pub mod pad_state;
pub mod poller_worker;
