//! Decoding of C3D chunks: 256 by 256 by 256 voxels each.
//!
//! The bitstream itself is read by a native library. It stops the program on damaged input, so a
//! chunk is looked at first, and the library's own validation decides before anything is decoded.

use vstd::prelude::*;

verus! {

pub const C3D_CHUNK_SIDE: usize = 256;

pub const C3D_CHUNK_BYTES: usize = 16_777_216;

pub enum C3dError {
    /// The input does not begin with `C3DC`.
    NotC3d,
    /// The native library rejected the bitstream.
    ValidationFailed,
}

impl C3dError {
    /// What is wrong, in words.
    pub fn message(&self) -> (text: String)
        ensures
            text@ == (match self {
                C3dError::NotC3d => "input is not a c3d chunk (missing C3DC magic)"@,
                C3dError::ValidationFailed => "c3d_chunk_validate rejected the bitstream"@,
            }),
    {
        match self {
            C3dError::NotC3d => "input is not a c3d chunk (missing C3DC magic)".to_string(),
            C3dError::ValidationFailed => "c3d_chunk_validate rejected the bitstream".to_string(),
        }
    }
}

/// The four bytes `C3DC`.
pub open spec fn magic(buf: Seq<u8>) -> bool {
    &&& buf.len() >= 4
    &&& buf[0] == 0x43
    &&& buf[1] == 0x33
    &&& buf[2] == 0x44
    &&& buf[3] == 0x43
}

/// Looks at the first four bytes.
pub fn c3d_is_chunk_inline(buf: &[u8]) -> (r: bool)
    ensures
        r == magic(buf@),
{
    buf.len() >= 4 && buf[0] == 0x43 && buf[1] == 0x33 && buf[2] == 0x44 && buf[3] == 0x43
}

/// Whether the input begins with `C3DC`.
pub fn is_c3d(buf: &[u8]) -> (r: bool)
    ensures
        r == magic(buf@),
{
    c3d_is_chunk_inline(buf)
}

/// What the native library makes of a chunk.
pub enum Native {
    /// The validation rejected the bitstream.
    Rejected,
    /// The voxels of the chunk.
    Decoded(Vec<u8>),
}

impl Native {
    /// Decoded chunks are complete.
    pub open spec fn complete(&self) -> bool {
        self matches Native::Decoded(voxels) ==> voxels@.len() == C3D_CHUNK_BYTES
    }
}

/// What decoding gives when the native library, where it is asked, answers `n`.
pub open spec fn decoded(compressed: Seq<u8>, n: Native, r: Result<Vec<u8>, C3dError>) -> bool {
    if !magic(compressed) {
        r == Err::<Vec<u8>, C3dError>(C3dError::NotC3d)
    } else {
        match n {
            Native::Rejected => r == Err::<Vec<u8>, C3dError>(C3dError::ValidationFailed),
            Native::Decoded(voxels) => r == Ok::<Vec<u8>, C3dError>(voxels),
        }
    }
}

/// What decoding into a buffer gives, and leaves in it, when the native library, where it is
/// asked, answers `n`.
pub open spec fn decoded_into(
    compressed: Seq<u8>,
    n: Native,
    before: Seq<u8>,
    after: Seq<u8>,
    r: Result<(), C3dError>,
) -> bool {
    if !magic(compressed) {
        r == Err::<(), C3dError>(C3dError::NotC3d) && after == before
    } else {
        match n {
            Native::Rejected => r == Err::<(), C3dError>(C3dError::ValidationFailed) && after == before,
            Native::Decoded(voxels) => r == Ok::<(), C3dError>(()) && after == voxels@,
        }
    }
}

/// For the same answer of the native library, decoding into a buffer leaves there what decoding
/// returns, which fills the buffer, and fails with the same error.
pub proof fn both_ways_decode_alike(
    compressed: Seq<u8>,
    n: Native,
    returned: Result<Vec<u8>, C3dError>,
    before: Seq<u8>,
    after: Seq<u8>,
    r: Result<(), C3dError>,
)
    requires
        n.complete(),
        before.len() == C3D_CHUNK_BYTES,
        decoded(compressed, n, returned),
        decoded_into(compressed, n, before, after, r),
    ensures
        after.len() == C3D_CHUNK_BYTES,
        match returned {
            Ok(voxels) => r is Ok && after == voxels@,
            Err(e) => r == Err::<(), C3dError>(e) && after == before,
        },
{
}

/// A decoder that can be used for one chunk after the other. Until it is told whether to remove
/// noise, the native library does as it likes.
pub struct Decoder {
    pub denoise: Option<bool>,
}

impl Decoder {
    pub fn new() -> (r: Decoder)
        ensures
            r.denoise is None,
    {
        Decoder { denoise: None }
    }

    pub fn set_denoise(&mut self, enabled: bool)
        ensures
            final(self).denoise == Some(enabled),
    {
        self.denoise = Some(enabled);
    }

    /// Decodes a chunk. The native library, which gets the chunk and whether to remove noise, is
    /// asked only for input that begins as a chunk does.
    pub fn decode<N: FnOnce(&[u8], Option<bool>) -> Native>(&mut self, compressed: &[u8], native: N) -> (r: Result<
        Vec<u8>,
        C3dError,
    >)
        requires
            magic(compressed@) ==> native.requires((compressed, old(self).denoise)),
            forall|n: Native| #[trigger]
                native.ensures((compressed, old(self).denoise), n) ==> n.complete(),
        ensures
            *final(self) == *old(self),
            exists|n: Native|
                (magic(compressed@) ==> native.ensures((compressed, old(self).denoise), n))
                    && #[trigger] decoded(compressed@, n, r),
            r matches Ok(voxels) ==> voxels@.len() == C3D_CHUNK_BYTES,
    {
        if !is_c3d(compressed) {
            let r: Result<Vec<u8>, C3dError> = Err(C3dError::NotC3d);
            assert(decoded(compressed@, Native::Rejected, r));
            return r;
        }
        let answer = native(compressed, self.denoise);
        let ghost n = answer;
        let r: Result<Vec<u8>, C3dError> = match answer {
            Native::Rejected => Err(C3dError::ValidationFailed),
            Native::Decoded(voxels) => Ok(voxels),
        };
        assert(decoded(compressed@, n, r));
        r
    }

    /// Decodes a chunk into a buffer, which holds exactly one chunk. On an error the buffer keeps
    /// what it holds.
    pub fn decode_into<N: FnOnce(&[u8], Option<bool>) -> Native>(
        &mut self,
        compressed: &[u8],
        out: &mut [u8],
        native: N,
    ) -> (r: Result<(), C3dError>)
        requires
            old(out)@.len() == C3D_CHUNK_BYTES,
            magic(compressed@) ==> native.requires((compressed, old(self).denoise)),
            forall|n: Native| #[trigger]
                native.ensures((compressed, old(self).denoise), n) ==> n.complete(),
        ensures
            *final(self) == *old(self),
            exists|n: Native|
                (magic(compressed@) ==> native.ensures((compressed, old(self).denoise), n))
                    && #[trigger] decoded_into(compressed@, n, old(out)@, final(out)@, r),
    {
        let ghost before = out@;
        let returned = self.decode(compressed, native);
        let ghost n = choose|n: Native|
            (magic(compressed@) ==> native.ensures((compressed, self.denoise), n)) && #[trigger] decoded(
                compressed@,
                n,
                returned,
            );
        match returned {
            Ok(voxels) => {
                let mut i: usize = 0;
                while i < out.len()
                    invariant
                        i <= out@.len(),
                        out@.len() == voxels@.len(),
                        forall|k: int| 0 <= k < i ==> #[trigger] out@[k] == voxels@[k],
                    decreases out@.len() - i,
                {
                    out[i] = voxels[i];
                    i += 1;
                }
                assert(out@ =~= voxels@);
                let r: Result<(), C3dError> = Ok(());
                assert(decoded_into(compressed@, n, before, out@, r));
                r
            },
            Err(e) => {
                let r: Result<(), C3dError> = Err(e);
                assert(decoded_into(compressed@, n, before, out@, r));
                r
            },
        }
    }
}

/// Runs `f` with the decoder of a slot, which is made on first use and kept.
pub fn with_decoder<R, F: FnOnce(&mut Decoder) -> R>(slot: &mut Option<Decoder>, f: F) -> (r: R)
    requires
        forall|d: &mut Decoder|
            *d == (match *old(slot) {
                Some(kept) => kept,
                None => (Decoder { denoise: None }),
            }) ==> #[trigger] f.requires((d,)),
    ensures
        *final(slot) is Some,
        exists|d: &mut Decoder| #[trigger]
            f.ensures((d,), r) && *d == (match *old(slot) {
                Some(kept) => kept,
                None => (Decoder { denoise: None }),
            }) && *final(d) == final(slot)->0,
{
    let mut decoder: Decoder = match slot.take() {
        Some(kept) => kept,
        None => Decoder::new(),
    };
    let r: R = f(&mut decoder);
    *slot = Some(decoder);
    r
}

/// Whether an input is a chunk is decided by its first four bytes alone.
pub proof fn four_bytes_make_a_chunk(a: u8, b: u8, c: u8, d: u8, rest: Seq<u8>)
    ensures
        magic(seq![a, b, c, d] + rest) <==> a as char == 'C' && b as char == '3' && c as char == 'D' && d
            as char == 'C',
        rest.len() < 4 ==> !magic(rest),
{
    assert(a as char == 'C' <==> a == 67);
    assert(b as char == '3' <==> b == 51);
    assert(c as char == 'D' <==> c == 68);
    assert(d as char == 'C' <==> d == 67);
}

} // verus!
