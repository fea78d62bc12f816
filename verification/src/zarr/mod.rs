//! Zarr arrays: how chunks are named, decoded, cached and read.

pub mod array;
pub mod blosc;
pub mod cache;
pub mod ome;
pub mod remote;
