//! Scan scheduling and file browsing for a fleet of recording cameras.
//!
//! Each camera holds recorded files. The library keeps an index of them and
//! schedules the scans that fill it:
//!
//! - [`db`] is the store: cameras, queued, running and completed scans, and
//!   the file index, with the rules that every operation keeps.
//! - [`procs`] holds what an operator asks for: scans of one camera or all,
//!   retries, and pages of files.
//! - [`scan`], [`range`] and [`runner`] describe one scan: its actor, the
//!   chunks of its time range, and its run step by step.
//! - [`query`], [`filter`] and [`cursor`] describe a page of files: the
//!   window it is cut from, what it admits, and the tokens that lead on.
//! - [`laws`] states what holds over every history of operations.
//!
//! Times are Unix timestamps in milliseconds. Work on a camera itself is
//! left to the caller: the library decides what is to be scanned and records
//! what came of it.

mod clock;
pub mod cursor;
pub mod db;
pub mod error;
pub mod filter;
pub mod laws;
pub mod models;
pub mod page;
pub mod procs;
pub mod query;
pub mod range;
pub mod runner;
pub mod scan;
pub mod seqs;
pub mod text;
