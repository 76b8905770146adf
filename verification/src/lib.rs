//! A runtime supervisor for independently startable and stoppable units of
//! functionality ("services") inside a long-running process.
//!
//! The crate models the supervisor's decision logic as ordinary data and
//! verified functions: the service lifecycle state machine, the registry and
//! start/stop protocol, background-task crash supervision, health reporting,
//! and the pub/sub primitives (broadcast event, change-gated observable,
//! many-to-one event repeater) that expose status changes as a stream.
//! Asynchronous work — running a service's own `start` and `stop`, moving
//! values between threads, waiting on timeouts — happens outside the library;
//! its outcome is handed to the verified functions as a plain value.

pub mod config;
pub mod event;
pub mod service;
pub mod setlock;
