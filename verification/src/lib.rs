//! Core of a dynamic-DNS updater.
//!
//! The crate keeps DNS records pointed at the machine's current public
//! address.  It detects the address through a prioritized list of
//! strategies, fans the result out to any number of independently
//! configured DNS providers with bounded concurrency and per-provider
//! retry, and maintains a snapshot of system state for observers.
//!
//! Everything that decides — strategy ordering, retry and backoff,
//! status bookkeeping, cycle composition — is verified here.  The
//! asynchronous plumbing that performs network and process I/O lives
//! outside the crate and feeds outcomes back into the verified logic.

pub mod bus;
pub mod cfg;
pub mod detector;
pub mod error;
pub mod limiter;
pub mod netif;
pub mod provider;
pub mod retry;
pub mod schedule;
pub mod scheduler;
pub mod status;
