//! The logic of a browser for the volumes of the Vesuvius Challenge.

use crate::outside::{zstd_decompressed, zstd_read};
use vstd::prelude::*;

pub mod c3d;
pub mod catalog;
pub mod downloader;
pub mod fibers;
pub mod grid;
pub mod gui;
pub mod layouts;
pub mod model;
pub mod outside;
pub mod render;
pub mod text;
pub mod volume;
pub mod zarr;

verus! {

/// What the Zstandard frame at the start of the input decompresses to.
pub fn zstd_decompress(input: &[u8]) -> (output: Vec<u8>)
    requires
        zstd_decompressed(input@) is Some,
    ensures
        zstd_decompressed(input@) == Some(output@),
{
    zstd_read(input).unwrap()
}

/// What the Zstandard frame at the start of the input decompresses to; `None` if it is damaged.
pub fn try_zstd_decompress(input: &[u8]) -> (output: Option<Vec<u8>>)
    ensures
        match output {
            Some(v) => zstd_decompressed(input@) == Some(v@),
            None => zstd_decompressed(input@) is None,
        },
{
    if zstd_read(input).is_some() {
        Some(zstd_decompress(input))
    } else {
        None
    }
}

} // verus!
