//! Verified core of a cross-language benchmark suite: the kernels that the
//! Rust benchmarks time, and the bookkeeping logic of the runner and monitor
//! tools (task tables, output parsing, statistics selection, navigation).

pub mod sorting;
pub mod radix;
pub mod hashing;
pub mod text;
pub mod cpu;
pub mod rng;
pub mod concurrency;
pub mod crypto;
pub mod matrix;
pub mod tasks;
pub mod screens;
pub mod strutil;
pub mod floattext;
pub mod parsing;
pub mod stats;
pub mod names;
