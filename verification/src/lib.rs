//! Username availability probing: the verified core.
//!
//! Given a set of per-platform probe descriptors and a username, the crate
//! resolves each platform's URL, schedules the probes under a fixed
//! concurrency window, classifies every response and frames the claims for
//! the output channel. Network and terminal I/O are left to the caller.
//!
//! A run goes through the modules in this order:
//!
//! - [`descriptor`]: the descriptor set, keyed by platform name, and the
//!   rule that selects the platforms a run probes;
//! - [`template`]: the substitution of the username into a URL template;
//! - [`scheduler`]: the scheduler that hands out requests, at most
//!   [`batch::WINDOW`] at a time, and takes the report of each one's end;
//! - [`probe`]: the classification of a response;
//! - [`sink`]: the lines and frames written for what was found;
//! - [`client`]: the fixed timeout and headers of the HTTP client.
//!
//! [`batch`] holds the mathematical model of a run and the proofs of what
//! holds of every run.

pub mod batch;
pub mod client;
pub mod descriptor;
pub mod probe;
pub mod scheduler;
pub mod sink;
pub mod template;
