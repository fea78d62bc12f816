//! The calls into other crates, and what is relied on of each.

use crate::layouts::tiff_single_plane;
use vstd::prelude::*;

verus! {

/// What an LZ4 block without frame decompresses to; `None` if it is no such block.
pub uninterp spec fn lz4_decompressed(input: Seq<u8>) -> Option<Seq<u8>>;

/// `lz4_compression::decompress::decompress`: whether there is a result, and which, follows from
/// the bytes alone.
#[verifier::external_body]
pub(crate) fn lz4_decompress(input: &[u8]) -> (r: Option<Vec<u8>>)
    ensures
        match r {
            Some(v) => lz4_decompressed(input@) == Some(v@),
            None => lz4_decompressed(input@) is None,
        },
{
    lz4_compression::decompress::decompress(input).ok()
}

/// What the Zstandard frame at the start of the bytes decompresses to; `None` if there is none.
pub uninterp spec fn zstd_decompressed(input: Seq<u8>) -> Option<Seq<u8>>;

/// `ruzstd::decoding::StreamingDecoder::new` and reading it to its end: whether that succeeds, and
/// what is read, follows from the bytes alone.
#[verifier::external_body]
pub(crate) fn zstd_read(input: &[u8]) -> (r: Option<Vec<u8>>)
    ensures
        match r {
            Some(v) => zstd_decompressed(input@) == Some(v@),
            None => zstd_decompressed(input@) is None,
        },
{
    let mut decoder = ruzstd::decoding::StreamingDecoder::new(std::io::Cursor::new(input)).ok()?;
    let mut output = Vec::new();
    std::io::Read::read_to_end(&mut decoder, &mut output).ok()?;
    Some(output)
}

/// The SHA-256 digest of some bytes.
pub uninterp spec fn sha256(input: Seq<u8>) -> Seq<u8>;

/// `sha2::Sha256::digest`: 32 bytes that follow from the input.
#[verifier::external_body]
pub(crate) fn sha256_digest(input: &[u8]) -> (r: Vec<u8>)
    ensures
        r@ == sha256(input@),
        r@.len() == 32,
{
    <sha2::Sha256 as sha2::Digest>::digest(input).to_vec()
}

/// The character of a base64 digit.
pub open spec fn base64_char(d: int) -> char {
    if d < 26 {
        (65 + d) as char
    } else if d < 52 {
        (97 + (d - 26)) as char
    } else if d < 62 {
        (48 + (d - 52)) as char
    } else if d == 62 {
        '+'
    } else {
        '/'
    }
}

/// Base64 with the standard alphabet and padding: three bytes make four characters.
pub open spec fn base64(input: Seq<u8>) -> Seq<char>
    decreases input.len(),
{
    if input.len() == 0 {
        Seq::empty()
    } else if input.len() == 1 {
        let n = input[0] * 65536;
        seq![base64_char(n / 262144), base64_char(n / 4096 % 64), '=', '=']
    } else if input.len() == 2 {
        let n = input[0] * 65536 + input[1] * 256;
        seq![
            base64_char(n / 262144),
            base64_char(n / 4096 % 64),
            base64_char(n / 64 % 64),
            '=',
        ]
    } else {
        let n = input[0] * 65536 + input[1] * 256 + input[2];
        seq![
            base64_char(n / 262144),
            base64_char(n / 4096 % 64),
            base64_char(n / 64 % 64),
            base64_char(n % 64),
        ] + base64(input.skip(3))
    }
}

/// `base64::Engine::encode` of `base64::prelude::BASE64_STANDARD`: the base64 text of the bytes.
#[verifier::external_body]
pub(crate) fn base64_encode(input: &[u8]) -> (r: String)
    ensures
        r@ == base64(input@),
{
    base64::Engine::encode(&base64::prelude::BASE64_STANDARD, input)
}

/// What the groups of a regular expression match in a text, the whole match first; `None` if the
/// expression is not valid or does not match.
pub uninterp spec fn regex_groups(pattern: Seq<char>, text: Seq<char>) -> Option<
    Seq<Option<Seq<char>>>,
>;

/// The matched text of the groups.
pub open spec fn group_texts(groups: Seq<Option<String>>) -> Seq<Option<Seq<char>>> {
    groups.map_values(
        |g: Option<String>|
            match g {
                Some(s) => Some(s@),
                None => None,
            },
    )
}

/// `regex::Regex::new` and `captures` of what it returns: whether there is a match, and what each
/// group matches, follows from the expression and the text.
#[verifier::external_body]
pub(crate) fn regex_captures(pattern: &str, text: &str) -> (r: Option<Vec<Option<String>>>)
    ensures
        match r {
            Some(v) => regex_groups(pattern@, text@) == Some(group_texts(v@)),
            None => regex_groups(pattern@, text@) is None,
        },
{
    let captures = regex::Regex::new(pattern).ok()?;
    let captures = captures.captures(text)?;
    Some(captures.iter().map(|g| g.map(|m| m.as_str().to_string())).collect())
}

/// The value of a numeric tag of the first directory of a TIFF file; `None` if the file is no TIFF
/// file that can be read or the tag is not there or not a number.
pub uninterp spec fn tiff_tag(file: Seq<u8>, tag: u16) -> Option<u32>;

/// `tiff::decoder::Decoder::new` and `get_tag_u32` of what it returns: the outcome follows from
/// the bytes of the file and the tag. The decoder multiplies the number of strips or tiles with
/// that of the planes, which can overflow, so there has to be one plane of strips.
#[verifier::external_body]
pub(crate) fn tiff_tag_u32(file: &[u8], tag: u16) -> (r: Option<u32>)
    requires
        tiff_single_plane(file@),
    ensures
        r == tiff_tag(file@, tag),
{
    let mut decoder = tiff::decoder::Decoder::new(std::io::Cursor::new(file)).ok()?;
    decoder.get_tag_u32(tiff::tags::Tag::from_u16_exhaustive(tag)).ok()
}

/// The values of a tag of the first directory of a TIFF file; `None` where there are none.
pub uninterp spec fn tiff_tag_values(file: Seq<u8>, tag: u16) -> Option<Seq<u32>>;

/// `tiff::decoder::Decoder::new` and `get_tag_u32_vec` of what it returns: the outcome follows
/// from the bytes of the file and the tag. There has to be one plane of strips, as for a single
/// value.
#[verifier::external_body]
pub(crate) fn tiff_tag_u32_vec(file: &[u8], tag: u16) -> (r: Option<Vec<u32>>)
    requires
        tiff_single_plane(file@),
    ensures
        match r {
            Some(v) => tiff_tag_values(file@, tag) == Some(v@),
            None => tiff_tag_values(file@, tag) is None,
        },
{
    let mut decoder = tiff::decoder::Decoder::new(std::io::Cursor::new(file)).ok()?;
    decoder.get_tag_u32_vec(tiff::tags::Tag::from_u16_exhaustive(tag)).ok()
}

} // verus!
