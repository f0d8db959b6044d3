//! A multi-binding TCP-to-overlay forwarding proxy library.
//!
//! The library parses binding descriptions of the form
//! `remote_host:remote_port~local_host:local_port`, renders them back to
//! text, and drives the per-binding listener supervisor as a verified
//! state machine.  All network I/O is left to the surrounding
//! application, which feeds events into the state machine and performs
//! the actions it returns.

pub mod binding;
pub mod digits;
pub mod parse;
pub mod supervisor;
