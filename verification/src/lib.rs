//! Command-boundary detection for a terminal host.
//!
//! A shell that runs inside a pseudo-terminal announces the start and the end
//! of every command with a marker in its output. The marker carries a secret
//! that only the session's own start-up file knows, so that nothing the user
//! runs can forge one. This crate holds the parts of the host that decide
//! something:
//!
//! - [`osc`]: the marker protocol and the streaming parser, with what holds of
//!   them in [`osc_laws`];
//! - [`exit_code`]: the exit status in a command-end marker;
//! - [`zdotdir`] and [`template`]: the secret, the start-up directory and the
//!   start-up file of a session;
//! - [`pty`]: the rules of a session and of its reader worker;
//! - [`host`]: what the host does with the events;
//! - [`db`]: the records that the host keeps;
//! - [`bytes`]: searching and comparing bytes.
//!
//! Pseudo-terminals, threads, queues, files and the store belong to the host
//! program, which asks this crate at every step.

pub mod bytes;
pub mod db;
pub mod exit_code;
pub mod host;
pub mod osc;
pub mod osc_laws;
pub mod pty;
pub mod template;
pub mod zdotdir;
