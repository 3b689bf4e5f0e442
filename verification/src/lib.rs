//! Verified core of an origin-discovery scanner.
//!
//! The library expands CIDR ranges into address sequences, builds the raw
//! HTTP request bytes once per scan, classifies probe responses, and models
//! the bounded-concurrency dispatch with early stop.  All network I/O and
//! async plumbing live outside the library; the logic here is verified.

pub mod config;
pub mod dispatch;
pub mod matching;
pub mod probe;
pub mod range;
pub mod rangefile;
pub mod scan;
pub mod settings;
pub mod signal;
pub mod text;
