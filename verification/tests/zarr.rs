use vesuvius_gui::zarr::array::{
    default_cache_dir, to_hex, Lookup, ZarrArrayDef, ZarrCompressionName, ZarrCompressor,
    ZarrContext, ZarrOrder,
};
use vesuvius_gui::zarr::blosc::{BloscChunk, BloscCompressor, BloscHeader, BloscShuffle};
use vesuvius_gui::zarr::cache::{ChunkContext, ChunkNo, ZarrContextCache};
use vesuvius_gui::zarr::ome::{
    scale_of, OmeAxis, OmeDataset, OmeLookup, OmeMultiScale, OmeStep, OmeZarr, OmeZarrAttrs,
};
use vesuvius_gui::zarr::remote::{
    fetched_step, temporary_file, ChunkDownloads, ChunkStep, ZarrAccess, ZarrArray,
};
use vesuvius_gui::{try_zstd_decompress, zstd_decompress};

const LZ4_HELLO: [u8; 6] = [0x50, 0x68, 0x65, 0x6c, 0x6c, 0x6f];
const ZSTD_HELLO: [u8; 14] =
    [0x28, 0xb5, 0x2f, 0xfd, 0x20, 0x05, 0x29, 0x00, 0x00, 0x68, 0x65, 0x6c, 0x6c, 0x6f];

fn number(data: &mut Vec<u8>, n: usize) {
    data.extend_from_slice(&(n as u32).to_le_bytes());
}

/// A Blosc chunk of blocks that are compressed already.
fn blosc(flags: u8, nbytes: usize, blocksize: usize, blocks: &[&[u8]]) -> Vec<u8> {
    let mut data = vec![2, 1, flags, 1];
    number(&mut data, nbytes);
    number(&mut data, blocksize);
    number(&mut data, 0);
    let mut at = 16 + 4 * blocks.len();
    for b in blocks {
        number(&mut data, at);
        at += 4 + b.len();
    }
    for b in blocks {
        number(&mut data, b.len());
        data.extend_from_slice(b);
    }
    data
}

fn def(compressor: Option<ZarrCompressor>, separator: Option<&str>) -> ZarrArrayDef {
    ZarrArrayDef {
        chunks: vec![2, 2, 2],
        compressor,
        dtype: "|u1".to_string(),
        fill_value: 0,
        order: ZarrOrder::ColumnMajor,
        shape: vec![3, 4, 5],
        zarr_format: 2,
        dimension_separator: separator.map(|s| s.to_string()),
    }
}

fn compressor(id: &str) -> Option<ZarrCompressor> {
    Some(ZarrCompressor {
        blocksize: 0,
        clevel: 5,
        compression_name: ZarrCompressionName::Lz4,
        id: id.to_string(),
        shuffle: 1,
    })
}

#[test]
fn zstandard_frames_are_decompressed() {
    assert_eq!(zstd_decompress(&ZSTD_HELLO), b"hello".to_vec());
    assert_eq!(try_zstd_decompress(&ZSTD_HELLO), Some(b"hello".to_vec()));
    assert_eq!(try_zstd_decompress(b"hello"), None);
    assert_eq!(try_zstd_decompress(&ZSTD_HELLO[..12]), None);
}

#[test]
fn blosc_headers() {
    let data = blosc(0x32, 10, 5, &[&LZ4_HELLO, &LZ4_HELLO]);
    let header = BloscHeader::from_bytes(&data);
    assert_eq!(header.version, 2);
    assert_eq!(header.version_lz, 1);
    assert_eq!(header.typesize, 1);
    assert_eq!(header.nbytes, 10);
    assert_eq!(header.blocksize, 5);
    assert!(header.shuffle == BloscShuffle::Byte);
    assert!(header.compressor == BloscCompressor::Lz4);
    assert_eq!(header.num_blocks(), 2);
    let odd = BloscHeader { nbytes: 11, ..header };
    assert_eq!(odd.num_blocks(), 3);
    let whole = BloscHeader { blocksize: 0, ..header };
    assert_eq!(whole.num_blocks(), 1);
    let bits = BloscHeader::from_bytes(&blosc(0x84, 5, 5, &[&ZSTD_HELLO]));
    assert!(bits.shuffle == BloscShuffle::Bit);
    assert!(bits.compressor == BloscCompressor::Zstd);
}

#[test]
fn blosc_headers_name_the_byte_shuffle() {
    let header = BloscHeader::from_bytes(&[
        0x02, 0x01, 0x21, 0x01, 0x40, 0x59, 0x73, 0x07, 0x00, 0x00, 0x02, 0x00, 0xb4, 0x02, 0x69, 0x00,
    ]);
    assert!(header.shuffle == BloscShuffle::Byte);
    assert!(header.compressor == BloscCompressor::Lz4);
    assert_eq!(header.nbytes, 125_000_000);
    assert_eq!(header.blocksize, 131_072);
    assert_eq!(header.cbytes, 6_881_972);
    let plain = BloscHeader::from_bytes(&blosc(0x20, 5, 5, &[&LZ4_HELLO]));
    assert!(plain.shuffle == BloscShuffle::NoShuffle);
}

/// A block of a Zstandard frame.
fn block(kind: u32, last: bool, content: &[u8]) -> Vec<u8> {
    let header = last as u32 + kind * 2 + content.len() as u32 * 8;
    let mut data = header.to_le_bytes()[..3].to_vec();
    data.extend_from_slice(content);
    data
}

/// Some raw bytes, and then a block without literals whose sequences are all of one kind.
fn repeating(count: u16, offset_code: u8, match_code: u8, bits: &[u8]) -> Vec<u8> {
    let mut frame = vec![0x28, 0xb5, 0x2f, 0xfd, 0x00, 0x38];
    frame.extend_from_slice(&block(0, false, b"abcdefgh"));
    let mut content = vec![0x00];
    if count < 0x7f00 {
        content.extend_from_slice(&[(count / 256) as u8 + 128, (count % 256) as u8]);
    } else {
        content.push(255);
        content.extend_from_slice(&(count - 0x7f00).to_le_bytes());
    }
    content.extend_from_slice(&[0x54, 0, offset_code, match_code]);
    content.extend_from_slice(bits);
    frame.extend_from_slice(&block(2, true, &content));
    frame
}

#[test]
fn sequences_repeat_earlier_bytes() {
    let frame = repeating(1, 3, 5, &[0x0b]);
    assert_eq!(try_zstd_decompress(&frame), Some(b"abcdefghabcdefgh".to_vec()));
}

#[test]
fn many_sequences_are_decompressed() {
    let frame = repeating(40_000, 0, 0, &[0x01]);
    let output = try_zstd_decompress(&frame).unwrap();
    assert_eq!(output.len(), 8 + 3 * 40_000);
    assert_eq!(&output[..11], b"abcdefghefg");
}

#[test]
fn blocks_with_huge_outputs_are_refused() {
    let mut bits = vec![0xff; 65_600];
    bits.push(0x01);
    let frame = repeating(32_800, 0, 52, &bits);
    assert_eq!(try_zstd_decompress(&frame), None);
    assert_eq!(BloscChunk::try_load_data("f".to_string(), blosc(0x81, 5, 5, &[&frame])), None);
    assert_eq!(try_zstd_decompress(&frame[..1000]), None);
}

#[test]
fn blosc_blocks_are_decompressed_with_lz4() {
    let data = blosc(0x21, 10, 5, &[&LZ4_HELLO, &LZ4_HELLO]);
    assert!(BloscChunk::can_load(&data));
    assert_eq!(BloscChunk::load_data("f".to_string(), data), b"hellohello".to_vec());
}

#[test]
fn blosc_blocks_are_decompressed_with_zstandard() {
    let data = blosc(0x81, 5, 5, &[&ZSTD_HELLO]);
    assert_eq!(BloscChunk::try_load_data("f".to_string(), data), Some(b"hello".to_vec()));
}

#[test]
fn damaged_lz4_blocks_are_zeros() {
    let data = blosc(0x21, 10, 5, &[&[0xf0, 0xff], &LZ4_HELLO]);
    assert_eq!(BloscChunk::load_data("f".to_string(), data), b"\0\0\0\0\0hello".to_vec());
}

#[test]
fn damaged_chunks_are_not_loaded() {
    assert!(!BloscChunk::can_load(&[]));
    assert!(!BloscChunk::can_load(&blosc(0x23, 5, 5, &[&LZ4_HELLO])));
    assert!(!BloscChunk::can_load(&blosc(0xa1, 5, 5, &[&LZ4_HELLO])));
    let load = |data: Vec<u8>| BloscChunk::try_load_data("f".to_string(), data);
    assert_eq!(load(blosc(0x81, 5, 5, &[&LZ4_HELLO])), None);
    assert_eq!(load(blosc(0x41, 5, 5, &[&LZ4_HELLO])), None);
    let mut cut = blosc(0x21, 5, 5, &[&LZ4_HELLO]);
    cut.pop();
    assert_eq!(load(cut), None);
    assert_eq!(load(vec![2, 1, 0x21]), None);
}

#[test]
fn hexadecimal_names() {
    assert_eq!(to_hex(&[0, 15, 16, 255]), "000f10ff");
    assert_eq!(
        default_cache_dir("abc"),
        "ba7816bf8f01cfea414140de5dae2223b00361a396177a9cb410ff61f20015ad"
    );
    assert_eq!(default_cache_dir("abc/"), default_cache_dir("abc"));
    assert_ne!(default_cache_dir("abd"), default_cache_dir("abc"));
    assert_eq!(
        default_cache_dir(""),
        "e3b0c44298fc1c149afbf4c8996fb92427ae41e4649b934ca495991b7852b855"
    );
}

#[test]
fn chunks_have_files() {
    assert_eq!(def(None, None).chunk_file_for("dir", &[1, 2, 3]), "dir/1.2.3");
    assert_eq!(def(None, Some("/")).chunk_file_for("dir", &[1, 2, 3]), "dir/1/2/3");
    assert_eq!(def(None, None).cached_chunk_file_for("dir", &[1, 2, 3]), "dir/1/2/3");
    assert_eq!(def(None, None).voxels_per_chunk(), 8);
}

#[test]
fn chunks_are_loaded_as_they_were_stored() {
    match def(None, None).load_chunk_context("f".to_string(), vec![1, 2, 3]) {
        Some(ChunkContext::Raw(data)) => assert_eq!(data, vec![1, 2, 3]),
        _ => panic!("nothing is compressed"),
    }
    let data = blosc(0x21, 5, 5, &[&LZ4_HELLO]);
    match def(compressor("blosc"), None).load_chunk_context("f".to_string(), data.clone()) {
        Some(ctx) => {
            assert_eq!(ctx.len(), 5);
            assert_eq!(ctx.get(1), b'e');
        }
        None => panic!("the chunk is in order"),
    }
    assert!(def(compressor("gzip"), None).load_chunk_context("f".to_string(), data).is_none());
    assert!(def(compressor("blosc"), None).load_chunk_context("f".to_string(), vec![1]).is_none());
}

fn chunk(start: u8) -> Option<ChunkContext> {
    Some(ChunkContext::Raw((start..start + 8).collect()))
}

#[test]
fn voxels_are_read_from_their_chunks() {
    let mut ctx = ZarrContext::new(def(None, None), true);
    let mut cache = ZarrContextCache::new(8);
    match ctx.get(&mut cache, [1, 2, 3]) {
        Lookup::Load(no, idx) => {
            assert!(no == ChunkNo { z: 0, y: 1, x: 1 });
            assert_eq!(idx, 5);
            assert_eq!(ctx.loaded(no, idx, chunk(100)), Some(105));
        }
        _ => panic!("the chunk has to be loaded"),
    }
    assert!(matches!(ctx.get(&mut cache, [0, 3, 2]), Lookup::Found(Some(102))));
    match ctx.get(&mut cache, [0, 0, 0]) {
        Lookup::Load(no, idx) => {
            assert!(no == ChunkNo { z: 0, y: 0, x: 0 });
            assert_eq!(ctx.loaded(no, idx, chunk(0)), Some(0));
        }
        _ => panic!("the chunk has to be loaded"),
    }
    assert!(matches!(ctx.get(&mut cache, [0, 3, 2]), Lookup::Found(Some(102))));
    assert!(matches!(ctx.get(&mut cache, [1, 1, 1]), Lookup::Found(Some(7))));
}

#[test]
fn voxels_outside_of_the_array() {
    let mut ctx = ZarrContext::new(def(None, None), true);
    let mut cache = ZarrContextCache::new(8);
    assert!(matches!(ctx.get(&mut cache, [4, 0, 0]), Lookup::Outside));
    assert!(matches!(ctx.get(&mut cache, [0, 5, 0]), Lookup::Outside));
    assert!(matches!(ctx.get(&mut cache, [0, 0, 6]), Lookup::Outside));
    assert!(matches!(ctx.get(&mut cache, [0, 0, 5]), Lookup::Load(_, _)));
}

#[test]
fn missing_chunks_stay_missing_if_wanted() {
    let mut ctx = ZarrContext::new(def(None, None), true);
    let mut cache = ZarrContextCache::new(8);
    if let Lookup::Load(no, idx) = ctx.get(&mut cache, [0, 0, 0]) {
        assert_eq!(ctx.loaded(no, idx, None), None);
    }
    assert!(matches!(ctx.get(&mut cache, [0, 0, 1]), Lookup::Found(None)));
    if let Lookup::Load(no, idx) = ctx.get(&mut cache, [2, 0, 0]) {
        ctx.loaded(no, idx, chunk(0));
    }
    assert!(matches!(ctx.get(&mut cache, [0, 0, 1]), Lookup::Found(None)));
}

#[test]
fn the_cache_forgets_what_was_not_used() {
    let mut cache = ZarrContextCache::new(1_000_000_000);
    assert_eq!(cache.max_entries, 6);
    let no = |x: usize| ChunkNo { z: 0, y: 0, x };
    for x in 0..8 {
        cache.access_counter += 1;
        let entry = cache.entry(chunk(0));
        cache.insert(no(x), entry);
    }
    cache.insert(no(100), None);
    cache.cleanup();
    assert!(!cache.contains(no(0)));
    assert!(cache.contains(no(7)));
    assert!(cache.take(no(7)).is_some());
    assert!(!cache.contains(no(7)));
    assert!(cache.take(no(7)).is_none());
    assert!(cache.contains(no(100)));
    cache.purge_missing();
    assert!(!cache.contains(no(100)));
    assert!(cache.contains(no(6)));
}

#[test]
fn small_caches_forget_nothing() {
    let mut cache = ZarrContextCache::new(8);
    assert_eq!(cache.max_entries, 750_000_000);
    assert_eq!((cache.access_counter, cache.non_empty_entries), (0, 0));
    let entry = cache.entry(chunk(0));
    cache.insert(ChunkNo { z: 1, y: 2, x: 3 }, entry);
    cache.cleanup();
    assert!(cache.contains(ChunkNo { z: 1, y: 2, x: 3 }));
}

#[test]
fn arrays_have_places() {
    let local = ZarrArray::from_path("dir", def(None, None));
    assert_eq!(local.access.array_def_file(), "dir/.zarray");
    assert_eq!(local.access.array_def_url(), None);
    assert!(local.access.cache_missing());
    let places = local.access.chunk_places(&local.def, &[0, 1, 2]);
    assert_eq!(places.file, "dir/0.1.2");
    assert_eq!(places.url, None);
    assert!(local.access.chunk_step(true) == ChunkStep::Use);
    assert!(local.access.chunk_step(false) == ChunkStep::Missing);

    let remote = ZarrArray::from_url("http://x", "cache", def(None, None));
    assert_eq!(remote.access.array_def_file(), "cache/.zarray");
    assert_eq!(remote.access.array_def_url(), Some("http://x/.zarray".to_string()));
    assert!(!remote.access.cache_missing());
    let places = remote.access.chunk_places(&remote.def, &[0, 1, 2]);
    assert_eq!(places.file, "cache/0/1/2");
    assert_eq!(places.url, Some("http://x/0.1.2".to_string()));
    assert!(remote.access.chunk_step(true) == ChunkStep::Use);
    assert!(remote.access.chunk_step(false) == ChunkStep::Queue);

    let blocking = ZarrArray::from_url_blocking("http://x", "cache", def(None, Some("/")));
    assert!(blocking.access.cache_missing());
    assert!(blocking.access.chunk_step(false) == ChunkStep::Fetch);
    assert_eq!(
        blocking.access.chunk_places(&blocking.def, &[7]).url,
        Some("http://x/7".to_string())
    );
}

#[test]
fn remote_arrays_have_a_default_directory() {
    let array = ZarrArray::from_url_to_default_cache_dir("abc/", "root", def(None, None));
    match &array.access {
        ZarrAccess::Remote { url, local_cache_dir } => {
            assert_eq!(url, "abc/");
            assert_eq!(
                local_cache_dir,
                "root/ba7816bf8f01cfea414140de5dae2223b00361a396177a9cb410ff61f20015ad"
            );
        }
        _ => panic!("the array is remote"),
    }
    let (ctx, cache) = array.into_ctx();
    assert!(!ctx.cache_missing);
    assert_eq!(cache.max_entries, 750_000_000);
}

#[test]
fn fetched_chunks() {
    assert!(fetched_step(200) == ChunkStep::Use);
    assert!(fetched_step(404) == ChunkStep::Missing);
    assert_eq!(temporary_file("a/b"), "a/b.tmp");
}

#[test]
fn chunks_are_fetched_once() {
    let mut downloads = ChunkDownloads::new();
    assert!(downloads.request("a"));
    assert!(!downloads.request("a"));
    assert!(downloads.request("b"));
    assert_eq!(downloads.downloading, 2);
    assert!(downloads.finished(200));
    assert!(!downloads.finished(404));
    assert_eq!(downloads.downloading, 0);
    assert!(!downloads.request("a"));
}

#[test]
fn too_many_chunks_are_not_fetched() {
    let mut downloads = ChunkDownloads::new();
    for i in 0..11 {
        assert!(downloads.request(&format!("{}", i)));
    }
    assert!(!downloads.request("one more"));
    assert_eq!(downloads.downloading, 11);
    downloads.finished(200);
    assert!(downloads.request("one more"));
}

fn ome(datasets: usize) -> OmeZarr {
    OmeZarr {
        url: "http://x".to_string(),
        cache_dir: "cache".to_string(),
        attrs: OmeZarrAttrs {
            multiscales: vec![OmeMultiScale {
                axes: vec![OmeAxis { name: "z".to_string(), axis_type: "space".to_string() }],
                datasets: (0..datasets).map(|i| OmeDataset { path: format!("{}", i) }).collect(),
                name: "n".to_string(),
                version: "0.4".to_string(),
            }],
        },
    }
}

#[test]
fn resolutions_are_arrays() {
    let arrays = ome(2).arrays();
    assert_eq!(arrays.len(), 2);
    assert_eq!(arrays[1].url, "http://x/1");
    assert_eq!(arrays[1].cache_dir, "cache/1");
    assert_eq!(ome(6).arrays().len(), 4);
}

#[test]
fn scale_factors_are_resolutions() {
    assert_eq!(scale_of(1), 0);
    assert_eq!(scale_of(2), 1);
    assert_eq!(scale_of(8), 3);
    assert_eq!(scale_of(12), 2);
}

#[test]
fn coarser_resolutions_are_read_if_the_finer_are_missing() {
    let mut lookup = OmeLookup::new([40, 30, 20], 1, 4);
    match lookup.step() {
        OmeStep::Read(level, index) => {
            assert_eq!(level, 1);
            assert_eq!(index, [20, 15, 10]);
        }
        OmeStep::Done(_) => panic!("nothing was read"),
    }
    lookup.answer(None);
    match lookup.step() {
        OmeStep::Read(level, index) => {
            assert_eq!(level, 2);
            assert_eq!(index, [10, 7, 5]);
        }
        OmeStep::Done(_) => panic!("nothing was found"),
    }
    lookup.answer(Some(7));
    assert!(matches!(lookup.step(), OmeStep::Done(7)));
}

#[test]
fn missing_voxels_are_black() {
    let mut lookup = OmeLookup::new([1, 2, 3], 9, 2);
    assert!(matches!(lookup.step(), OmeStep::Read(1, _)));
    lookup.answer(None);
    assert!(matches!(lookup.step(), OmeStep::Done(0)));
}
