//! An in-memory engine that simulates pools, filesystems and block devices.

pub mod keys;
pub mod shared;
pub mod blockdev;
pub mod filesystem;
pub mod randomization;
pub mod cache;
pub mod pool;
pub mod engine;
pub mod laws;
pub mod report;
