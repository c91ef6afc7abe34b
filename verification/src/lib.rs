//! BWFS: a userspace filesystem whose blocks are two-tone raster images.
//!
//! Every logical block is a grid of pixels that hold one bit each. This
//! crate is the engine: it decides and computes, and leaves the disk, the
//! clock of the kernel bridge and the network to its caller.
//!
//! - [`codec`]: bytes to pixels and back.
//! - [`storage`]: block images, the block range, the fingerprint in block 0.
//! - [`bitmap`]: the free-space bitmaps.
//! - [`inode`]: inodes and directory entries.
//! - [`types`]: the plain values that operations take and give.
//! - [`model`]: the namespace as a state machine on maps and sequences.
//! - [`fs`]: the executable engine, proved to compute the model.
//! - [`laws`]: what holds of the model whatever operations run.
//! - [`config`]: the configuration and its file.
//! - [`network`]: the envelope of the block transport.

pub mod bitmap;
pub mod codec;
pub mod config;
pub mod fs;
pub mod inode;
pub mod laws;
pub mod model;
pub mod network;
pub mod storage;
pub mod types;

pub use config::Config;
pub use fs::BWFS;
