//! The pre-commit and pre-push guard of a mailbox for agents, and the probes
//! that its server runs on startup.
//!
//! The guard keeps agents from changing files that others have reserved. It
//! collects the paths that a commit or a push changes ([`name_status`],
//! [`push_scan`]), reads the reservations ([`reservations`], [`expiry`]), and
//! finds the conflicts between the two ([`conflicts`], [`check`]). It is
//! installed as a plugin of a Git hook ([`hooks`], [`chain_runner`],
//! [`plugin`]).
//!
//! The probes look at the configuration and its surroundings ([`probes`]), at
//! the port ([`port`], [`listeners`], [`mcp_probe`]), and at the database
//! ([`integrity`], [`integrity_probe`]). Their results make a report
//! ([`report`], [`recovery_context`]).
//!
//! Everything here works on plain values. Files, processes, sockets and the
//! clock are the caller's.

pub mod chain_runner;
pub mod check;
pub mod conflicts;
pub mod expiry;
pub mod git_retry;
pub mod guard;
pub mod hint_writer;
pub mod hooks;
pub mod hosts;
pub mod integrity;
pub mod integrity_probe;
pub mod ip;
pub mod listeners;
pub mod mcp_probe;
pub mod name_status;
pub mod numbers;
pub mod order;
pub mod paths;
pub mod plugin;
pub mod plugin_template;
pub mod port;
pub mod probes;
pub mod processes;
pub mod push_scan;
pub mod real_paths;
pub mod recovery_context;
pub mod report;
pub mod reservations;
pub mod text;
