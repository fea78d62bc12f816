//! Chunks that are compressed with Blosc.

use crate::outside::{lz4_decompress, lz4_decompressed, zstd_decompressed, zstd_read};
use crate::zstd_decompress;
use vstd::prelude::*;

verus! {

#[derive(Clone, Copy, PartialEq, Eq, Structural)]
pub enum BloscShuffle {
    NoShuffle,
    Bit,
    Byte,
}

#[derive(Clone, Copy, PartialEq, Eq, Structural)]
pub enum BloscCompressor {
    Blosclz,
    Lz4,
    Snappy,
    Zlib,
    Zstd,
}

/// What the first 16 bytes of a chunk say.
#[derive(Clone, Copy, PartialEq, Eq, Structural)]
pub struct BloscHeader {
    pub version: u8,
    pub version_lz: u8,
    pub flags: u8,
    pub typesize: usize,
    pub nbytes: usize,
    pub blocksize: usize,
    pub cbytes: usize,
    pub shuffle: BloscShuffle,
    pub compressor: BloscCompressor,
}

/// The little-endian number in the four bytes at `at`.
pub open spec fn le_u32(bytes: Seq<u8>, at: int) -> int {
    bytes[at] + bytes[at + 1] * 256 + bytes[at + 2] * 65536 + bytes[at + 3] * 16777216
}

fn read_le_u32(bytes: &[u8], at: usize) -> (r: u32)
    requires
        at + 4 <= bytes@.len(),
    ensures
        r == le_u32(bytes@, at as int),
{
    assert(at + 4 <= bytes.len());
    bytes[at] as u32 + bytes[at + 1] as u32 * 256 + bytes[at + 2] as u32 * 65536 + bytes[at + 3] as u32
        * 16777216
}

/// The shuffle that the flags name.
pub open spec fn shuffle_of(flags: u8) -> Option<BloscShuffle> {
    let s = flags % 8;
    if s == 0 {
        Some(BloscShuffle::NoShuffle)
    } else if s == 1 || s == 2 {
        Some(BloscShuffle::Byte)
    } else if s == 4 {
        Some(BloscShuffle::Bit)
    } else {
        None
    }
}

/// The compressor that the flags name.
pub open spec fn compressor_of(flags: u8) -> Option<BloscCompressor> {
    let c = flags / 32;
    if c == 0 {
        Some(BloscCompressor::Blosclz)
    } else if c == 1 {
        Some(BloscCompressor::Lz4)
    } else if c == 2 {
        Some(BloscCompressor::Snappy)
    } else if c == 3 {
        Some(BloscCompressor::Zlib)
    } else if c == 4 {
        Some(BloscCompressor::Zstd)
    } else {
        None
    }
}

/// The bytes start with a header whose flags have a meaning.
pub open spec fn has_header(bytes: Seq<u8>) -> bool {
    &&& bytes.len() >= 16
    &&& shuffle_of(bytes[2]) is Some
    &&& compressor_of(bytes[2]) is Some
}

impl BloscHeader {
    /// The header at the start of some bytes.
    pub open spec fn of(bytes: Seq<u8>) -> BloscHeader {
        BloscHeader {
            version: bytes[0],
            version_lz: bytes[1],
            flags: bytes[2],
            typesize: bytes[3] as usize,
            nbytes: le_u32(bytes, 4) as usize,
            blocksize: le_u32(bytes, 8) as usize,
            cbytes: le_u32(bytes, 12) as usize,
            shuffle: shuffle_of(bytes[2])->0,
            compressor: compressor_of(bytes[2])->0,
        }
    }

    /// How many blocks the data is cut into. Without a block size it is one.
    pub open spec fn blocks(&self) -> int {
        if self.blocksize == 0 {
            1
        } else {
            (self.nbytes + self.blocksize - 1) / (self.blocksize as int)
        }
    }

    fn read_flags(flags: u8) -> (r: Option<(BloscShuffle, BloscCompressor)>)
        ensures
            r is Some <==> shuffle_of(flags) is Some && compressor_of(flags) is Some,
            r matches Some((s, c)) ==> shuffle_of(flags) == Some(s) && compressor_of(flags) == Some(c),
    {
        proof {
            assert(flags & 7 == flags % 8) by (bit_vector);
            assert(flags >> 5 == flags / 32) by (bit_vector);
        }
        let shuffle = match flags & 7 {
            0 => BloscShuffle::NoShuffle,
            1 | 2 => BloscShuffle::Byte,
            4 => BloscShuffle::Bit,
            _ => return None,
        };
        let compressor = match flags >> 5 {
            0 => BloscCompressor::Blosclz,
            1 => BloscCompressor::Lz4,
            2 => BloscCompressor::Snappy,
            3 => BloscCompressor::Zlib,
            4 => BloscCompressor::Zstd,
            _ => return None,
        };
        Some((shuffle, compressor))
    }

    pub fn from_bytes(bytes: &[u8]) -> (header: BloscHeader)
        requires
            has_header(bytes@),
        ensures
            header == BloscHeader::of(bytes@),
    {
        let flags: u8 = bytes[2];
        let (shuffle, compressor) = BloscHeader::read_flags(flags).unwrap();
        BloscHeader {
            version: bytes[0],
            version_lz: bytes[1],
            flags,
            typesize: bytes[3] as usize,
            nbytes: read_le_u32(bytes, 4) as usize,
            blocksize: read_le_u32(bytes, 8) as usize,
            cbytes: read_le_u32(bytes, 12) as usize,
            shuffle,
            compressor,
        }
    }

    pub fn num_blocks(&self) -> (n: usize)
        ensures
            n == self.blocks(),
    {
        if self.blocksize == 0 {
            1
        } else {
            proof {
                let blocksize = self.blocksize as int;
                assert((self.nbytes + blocksize - 1) / blocksize <= self.nbytes) by (nonlinear_arith)
                    requires
                        blocksize >= 1,
                        self.nbytes >= 0,
                ;
            }
            ((self.nbytes as u128 + self.blocksize as u128 - 1) / self.blocksize as u128) as usize
        }
    }
}

/// A chunk: its header, where its blocks start, and all of its bytes.
pub struct BloscChunk {
    pub header: BloscHeader,
    pub offsets: Vec<u32>,
    pub data: Vec<u8>,
    pub file_name: String,
}

/// The bytes have a header, and the offset of every block is there.
pub open spec fn loadable(data: Seq<u8>) -> bool {
    has_header(data) && 16 + BloscHeader::of(data).blocks() * 4 <= data.len()
}

/// Where block `i` starts.
pub open spec fn block_offset(data: Seq<u8>, i: int) -> int {
    le_u32(data, 16 + i * 4)
}

/// The compressed bytes of block `i`, behind their length.
pub open spec fn block_bytes(data: Seq<u8>, i: int) -> Seq<u8> {
    let at = block_offset(data, i);
    data.subrange(at + 4, at + 4 + le_u32(data, at))
}

/// Block `i` lies in the data and can be decompressed.
pub open spec fn block_readable(data: Seq<u8>, i: int) -> bool {
    let at = block_offset(data, i);
    &&& at + 4 < data.len()
    &&& at + 4 + le_u32(data, at) <= data.len()
    &&& match BloscHeader::of(data).compressor {
        BloscCompressor::Lz4 => true,
        BloscCompressor::Zstd => zstd_decompressed(block_bytes(data, i)) is Some,
        _ => false,
    }
}

/// What block `i` holds. A block of LZ4 data that is damaged counts as zeros.
pub open spec fn block_content(data: Seq<u8>, i: int) -> Seq<u8> {
    let bytes = block_bytes(data, i);
    match BloscHeader::of(data).compressor {
        BloscCompressor::Lz4 => match lz4_decompressed(bytes) {
            Some(content) => content,
            None => Seq::new(BloscHeader::of(data).blocksize as nat, |k: int| 0u8),
        },
        _ => zstd_decompressed(bytes)->0,
    }
}

/// What the first `n` blocks hold, one after the other.
pub open spec fn blocks_content(data: Seq<u8>, n: int) -> Seq<u8>
    decreases n,
{
    if n <= 0 {
        Seq::empty()
    } else {
        blocks_content(data, n - 1) + block_content(data, n - 1)
    }
}

/// Every block can be decompressed.
pub open spec fn readable(data: Seq<u8>) -> bool {
    &&& loadable(data)
    &&& forall|i: int| 0 <= i < BloscHeader::of(data).blocks() ==> #[trigger] block_readable(data, i)
}

impl BloscChunk {
    /// The chunk is what its data says.
    pub open spec fn valid(&self) -> bool {
        &&& loadable(self.data@)
        &&& self.header == BloscHeader::of(self.data@)
        &&& self.offsets@.len() == self.header.blocks()
        &&& forall|i: int|
            0 <= i < self.offsets@.len() ==> #[trigger] self.offsets@[i] == block_offset(
                self.data@,
                i,
            )
    }

    /// Tells whether [`load`](Self::load) can be called.
    pub fn can_load(data: &[u8]) -> (r: bool)
        ensures
            r == loadable(data@),
    {
        if data.len() < 16 || BloscHeader::read_flags(data[2]).is_none() {
            return false;
        }
        let blocks: usize = BloscHeader::from_bytes(data).num_blocks();
        blocks <= (data.len() - 16) / 4
    }

    /// Reads the header and the offsets of a chunk.
    pub fn load(file_name: String, data: Vec<u8>) -> (chunk: BloscChunk)
        requires
            loadable(data@),
        ensures
            chunk.valid(),
            chunk.data == data,
            chunk.file_name == file_name,
    {
        let header = BloscHeader::from_bytes(&data);
        let blocks: usize = header.num_blocks();
        let mut offsets: Vec<u32> = Vec::new();
        let mut i: usize = 0;
        while i < blocks
            invariant
                loadable(data@),
                blocks == BloscHeader::of(data@).blocks(),
                i <= blocks,
                offsets@.len() == i,
                forall|k: int|
                    0 <= k < i ==> #[trigger] offsets@[k] == block_offset(data@, k),
            decreases blocks - i,
        {
            assert(16 + i * 4 + 4 <= data.len());
            offsets.push(read_le_u32(&data, 16 + i * 4));
            i += 1;
        }
        BloscChunk { header, offsets, data, file_name }
    }

    /// Tells whether block `block_idx` can be decompressed.
    fn can_decompress(&self, block_idx: usize) -> (r: bool)
        requires
            self.valid(),
            block_idx < self.header.blocks(),
        ensures
            r == block_readable(self.data@, block_idx as int),
    {
        let at: u64 = self.offsets[block_idx] as u64;
        if at + 4 >= self.data.len() as u64 {
            return false;
        }
        let length: u64 = read_le_u32(&self.data, at as usize) as u64;
        if at + 4 + length > self.data.len() as u64 {
            return false;
        }
        match self.header.compressor {
            BloscCompressor::Lz4 => true,
            BloscCompressor::Zstd => {
                let bytes = vstd::slice::slice_subrange(
                    self.data.as_slice(),
                    at as usize + 4,
                    at as usize + 4 + length as usize,
                );
                zstd_read(bytes).is_some()
            },
            _ => false,
        }
    }

    /// What block `block_idx` holds.
    fn decompress(&self, block_idx: usize) -> (content: Vec<u8>)
        requires
            self.valid(),
            block_idx < self.header.blocks(),
            block_readable(self.data@, block_idx as int),
        ensures
            content@ == block_content(self.data@, block_idx as int),
    {
        let at: usize = self.offsets[block_idx] as usize;
        assert(at + 4 < self.data.len());
        let length: usize = read_le_u32(&self.data, at) as usize;
        assert(at + 4 + length <= self.data.len());
        let bytes = vstd::slice::slice_subrange(self.data.as_slice(), at + 4, at + 4 + length);
        assert(bytes@ == block_bytes(self.data@, block_idx as int));
        match self.header.compressor {
            BloscCompressor::Lz4 => match lz4_decompress(bytes) {
                Some(content) => content,
                None => {
                    let zeros: Vec<u8> = vec![0u8; self.header.blocksize];
                    assert(zeros@ =~= Seq::new(self.header.blocksize as nat, |k: int| 0u8));
                    zeros
                },
            },
            _ => zstd_decompress(bytes),
        }
    }

    fn load_block(&self, block_idx: usize) -> (content: Vec<u8>)
        requires
            self.valid(),
            block_idx < self.header.blocks(),
            block_readable(self.data@, block_idx as int),
        ensures
            content@ == block_content(self.data@, block_idx as int),
    {
        self.decompress(block_idx)
    }

    /// Everything that a chunk holds.
    pub fn load_data(file_name: String, data: Vec<u8>) -> (content: Vec<u8>)
        requires
            readable(data@),
        ensures
            content@ == blocks_content(data@, BloscHeader::of(data@).blocks()),
    {
        let chunk = BloscChunk::load(file_name, data);
        let mut content: Vec<u8> = Vec::new();
        let blocks: usize = chunk.header.num_blocks();
        let mut i: usize = 0;
        while i < blocks
            invariant
                chunk.valid(),
                readable(chunk.data@),
                blocks == chunk.header.blocks(),
                i <= blocks,
                content@ == blocks_content(chunk.data@, i as int),
            decreases blocks - i,
        {
            assert(block_readable(chunk.data@, i as int));
            let mut block = chunk.load_block(i);
            content.append(&mut block);
            i += 1;
        }
        content
    }

    /// Everything that a chunk holds; `None` if some part of it cannot be read.
    pub fn try_load_data(file_name: String, data: Vec<u8>) -> (content: Option<Vec<u8>>)
        ensures
            content is Some <==> readable(data@),
            content matches Some(c) ==> c@ == blocks_content(
                data@,
                BloscHeader::of(data@).blocks(),
            ),
    {
        if !BloscChunk::can_load(&data) {
            return None;
        }
        let chunk = BloscChunk::load(file_name, data);
        let blocks: usize = chunk.header.num_blocks();
        let mut i: usize = 0;
        while i < blocks
            invariant
                chunk.valid(),
                chunk.data == data,
                blocks == chunk.header.blocks(),
                i <= blocks,
                forall|k: int| 0 <= k < i ==> #[trigger] block_readable(chunk.data@, k),
            decreases blocks - i,
        {
            if !chunk.can_decompress(i) {
                assert(!block_readable(data@, i as int));
                return None;
            }
            i += 1;
        }
        Some(BloscChunk::load_data(chunk.file_name, chunk.data))
    }
}

/// Numbers are read with their lowest byte first: shifting a byte out at the bottom leaves the number
/// of the next three.
pub proof fn numbers_have_their_lowest_byte_first(bytes: Seq<u8>, at: int)
    requires
        0 <= at,
        at + 4 <= bytes.len(),
    ensures
        le_u32(bytes, at) % 256 == bytes[at],
        le_u32(bytes, at) / 256 % 256 == bytes[at + 1],
        le_u32(bytes, at) / 65536 % 256 == bytes[at + 2],
        le_u32(bytes, at) / 16777216 == bytes[at + 3],
{
}

/// What the parts of a header are does not depend on each other: the size of the values is the fourth
/// byte, and the three lengths follow in the order data, block, compressed.
pub proof fn headers_have_sixteen_bytes(bytes: Seq<u8>, more: Seq<u8>)
    requires
        bytes.len() == 16,
    ensures
        has_header(bytes + more) <==> has_header(bytes),
        has_header(bytes) ==> {
            let h = BloscHeader::of(bytes + more);
            &&& h == BloscHeader::of(bytes)
            &&& h.typesize == bytes[3]
            &&& h.nbytes % 256 == bytes[4] && h.nbytes / 16777216 == bytes[7]
            &&& h.blocksize % 256 == bytes[8] && h.blocksize / 16777216 == bytes[11]
            &&& h.cbytes % 256 == bytes[12] && h.cbytes / 16777216 == bytes[15]
            &&& h.version == bytes[0]
            &&& h.version_lz == bytes[1]
            &&& h.flags == bytes[2]
        },
{
    let all = bytes + more;
    assert(forall|i: int| 0 <= i < 16 ==> all[i] == bytes[i]);
    numbers_have_their_lowest_byte_first(bytes, 4);
    numbers_have_their_lowest_byte_first(bytes, 8);
    numbers_have_their_lowest_byte_first(bytes, 12);
}

/// The lowest three bits of the flags name the shuffle and the highest three the compressor; the two
/// bits between do not matter.
pub proof fn flags_name_shuffle_and_compressor(shuffle: u8, between: u8, compressor: u8)
    requires
        shuffle < 8,
        between < 4,
        compressor < 8,
    ensures
        ({
            let flags = (compressor * 32 + between * 8 + shuffle) as u8;
            &&& shuffle_of(flags) == shuffle_of(shuffle)
            &&& compressor_of(flags) == compressor_of((compressor * 32) as u8)
            &&& compressor_of(flags) is Some <==> compressor <= 4
            &&& compressor_of(flags) == Some(BloscCompressor::Blosclz) <==> compressor == 0
            &&& compressor_of(flags) == Some(BloscCompressor::Lz4) <==> compressor == 1
            &&& compressor_of(flags) == Some(BloscCompressor::Snappy) <==> compressor == 2
            &&& compressor_of(flags) == Some(BloscCompressor::Zlib) <==> compressor == 3
            &&& compressor_of(flags) == Some(BloscCompressor::Zstd) <==> compressor == 4
            &&& shuffle_of(flags) == Some(BloscShuffle::NoShuffle) <==> shuffle == 0
            &&& shuffle_of(flags) == Some(BloscShuffle::Byte) <==> shuffle == 1 || shuffle == 2
            &&& shuffle_of(flags) == Some(BloscShuffle::Bit) <==> shuffle == 4
        }),
{
    let flags = (compressor * 32 + between * 8 + shuffle) as u8;
    assert(flags % 8 == shuffle && flags / 32 == compressor);
}

/// There are just enough blocks for the data: all but the last one are full, and the last one is not
/// empty.
pub proof fn blocks_hold_the_data(header: BloscHeader)
    ensures
        header.blocksize == 0 ==> header.blocks() == 1,
        header.blocksize > 0 ==> header.nbytes <= header.blocks() * header.blocksize < header.nbytes
            + header.blocksize,
{
    if header.blocksize > 0 {
        let (n, b) = (header.nbytes as int, header.blocksize as int);
        let q = (n + b - 1) / b;
        vstd::arithmetic::div_mod::lemma_fundamental_div_mod(n + b - 1, b);
        vstd::arithmetic::div_mod::lemma_mod_bound(n + b - 1, b);
        assert(b * q == q * b) by (nonlinear_arith);
    }
}

/// The places of the blocks stand behind the header, four bytes for each. A block starts with its
/// length, and what is decompressed are that many bytes behind it.
pub proof fn blocks_stand_where_their_offsets_say(data: Seq<u8>, i: int)
    requires
        readable(data),
        0 <= i < BloscHeader::of(data).blocks(),
    ensures
        ({
            let at = block_offset(data, i);
            &&& at % 256 == data[16 + 4 * i]
            &&& at / 16777216 == data[16 + 4 * i + 3]
            &&& at + 4 + block_bytes(data, i).len() <= data.len()
            &&& block_bytes(data, i).len() % 256 == data[at]
            &&& block_bytes(data, i).len() / 16777216 == data[at + 3]
            &&& data.subrange(at + 4, at + 4 + block_bytes(data, i).len()) == block_bytes(data, i)
        }),
{
    assert(block_readable(data, i));
    numbers_have_their_lowest_byte_first(data, 16 + i * 4);
    numbers_have_their_lowest_byte_first(data, block_offset(data, i));
}

/// The blocks stand one after the other: each begins where those before it end, and each is what its
/// compressed bytes hold.
pub proof fn blocks_follow_each_other(data: Seq<u8>, i: int, n: int)
    requires
        0 <= i < n,
    ensures
        ({
            let before = blocks_content(data, i).len() as int;
            let content = block_content(data, i);
            &&& before + content.len() <= blocks_content(data, n).len()
            &&& blocks_content(data, n).subrange(before, before + content.len()) == content
            &&& blocks_content(data, n).take(before) == blocks_content(data, i)
        }),
        blocks_content(data, 0).len() == 0,
        blocks_content(data, n).len() == blocks_content(data, n - 1).len() + block_content(
            data,
            n - 1,
        ).len(),
        BloscHeader::of(data).compressor is Lz4 && lz4_decompressed(block_bytes(data, i)) is Some
            ==> block_content(data, i) == lz4_decompressed(block_bytes(data, i))->0,
        BloscHeader::of(data).compressor is Lz4 && lz4_decompressed(block_bytes(data, i)) is None ==> {
            &&& block_content(data, i).len() == BloscHeader::of(data).blocksize
            &&& forall|k: int|
                0 <= k < block_content(data, i).len() ==> #[trigger] block_content(data, i)[k] == 0
        },
        BloscHeader::of(data).compressor is Zstd && zstd_decompressed(block_bytes(data, i)) is Some
            ==> block_content(data, i) == zstd_decompressed(block_bytes(data, i))->0,
    decreases n,
{
    let before = blocks_content(data, i).len() as int;
    let content = block_content(data, i);
    let all = blocks_content(data, n);
    if i == n - 1 {
        assert(all.subrange(before, before + content.len()) =~= content);
        assert(all.take(before) =~= blocks_content(data, i));
    } else {
        blocks_follow_each_other(data, i, n - 1);
        let rest = blocks_content(data, n - 1);
        assert(all.subrange(before, before + content.len()) =~= rest.subrange(
            before,
            before + content.len(),
        ));
        assert(all.take(before) =~= rest.take(before));
    }
}

} // verus!
