//! A crash-consistent, resumable scheduler for running benchmarks one job per
//! process, with its progress kept in a small fixed-width manifest file.

pub mod benchmark;
pub mod codec;
pub mod config;
pub mod error;
pub mod experiment;
pub mod lang_impl;
pub mod limit;
pub mod manifest;
pub mod util;
