//! Verified core of `bench`, an HTTP/REST benchmarking tool: scenario
//! configuration, statistics, work planning and report preparation.

pub mod text;
pub mod config;
pub mod cli;
pub mod stats;
pub mod runner;
pub mod report;
pub mod editor;
