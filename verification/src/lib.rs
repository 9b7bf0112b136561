//! Management of disposable, expiring encrypted disk volumes.
//!
//! The crate holds the decision logic of the tool: domain pattern matching
//! for the download auditor, the expiry policy and its on-disk marker
//! encoding, the schedule-file rewrite, the selection rules for ejecting
//! volumes, the parsers for the disk-image and archive tool outputs, and
//! the decisions of the create/mount/import sequence. All process
//! spawning and file I/O lives outside, in the accompanying
//! application crate.

pub mod archive;
pub mod audit;
pub mod cli;
pub mod cron;
pub mod domain;
pub mod expiry;
pub mod marker;
pub mod session;
pub mod strutil;
pub mod volumes;
