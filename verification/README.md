# Vesuvius Volume Browser

A browser for the volumes and surface segments of the Vesuvius Challenge, a renderer that writes the
layers of a segment to images, and a few tools around them. The library under `src/` is verified
with Verus: what each function returns or changes is stated in its contract and proved.

- `src/model.rs`, `src/catalog/`: the published volumes, what a name or a location stands for, and
  the catalog of segments.
- `src/downloader.rs`, `src/volume/tile.rs`, `src/volume/tile_cache.rs`: tiles of 64 by 64 by 64
  voxels, how they are asked for, kept and painted.
- `src/zarr/`: Zarr and OME-Zarr arrays, their chunks, and the cache of chunks.
- `src/volume/`: the other kinds of volumes, pictures, lines, and the surfaces that are given as
  meshes: which faces a region touches, which pixels a face covers, how layers are combined.
- `src/render/`: how a segment is cut into tiles, which chunks these need, and how they are put
  together to layers.
- `src/fibers/`: connected regions of a class, clouds of points, and where two of them meet.
- `src/gui/`: the state of the browser, and what keys, controls, the command line and the atlas of
  segments do to it.
- `src/c3d.rs`: the checks around the decoder of c3d chunks.
- `src/outside.rs`: the calls into other crates, with what is taken for granted of them.
- `src/layouts.rs`: what has to hold of TIFF files before they are handed on.
- `src/text.rs`, `src/grid.rs`: texts and numbers, and positions in grids.

Laws that go beyond a single function are public proof functions, beside what they speak of.

`app/` is the program around the library: windows, files, the network, threads, and what is computed
in floating point. `tests/` holds the tests of the library.
