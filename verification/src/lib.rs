//! Benchmark orchestration and comparison: the decisions of a benchmark run,
//! the statistics of its timings, and the comparison of two result sets.
//!
//! Timings are whole milliseconds. Derived statistics are fixed-point
//! integers counted in millionths of a millisecond, so that every quantity
//! the library reports has an exact mathematical definition.
//!
//! Running commands, reading and writing files and printing are left to the
//! caller: the library names the commands and paths, and builds the lines
//! and the table to print.

pub mod confidence;
pub mod config;
pub mod diff;
pub mod ids;
pub mod key;
pub mod keymap;
pub mod messages;
pub mod report;
pub mod results;
pub mod runner;
pub mod schedule;
pub mod stats;
pub mod store;
pub mod sums;
pub mod table;
pub mod text;
