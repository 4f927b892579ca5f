//! Core of a container health-checking daemon: the filtering engine that
//! selects which containers are in scope, the per-container escalation state
//! machine with its counters, and the time-based eviction of stale entries.
//!
//! Everything that talks to the outside world (the container runtime, the
//! process spawner, logging, the status endpoint) lives in the surrounding
//! binary; this crate holds the decisions and proves them against their
//! contracts.

pub mod config;
pub mod container;
pub mod docker_checker;
pub mod pattern;
pub mod stats;
pub mod webserver;
