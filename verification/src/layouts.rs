//! How TIFF files are laid out, as far as has to be looked at before they are handed on to be read.

use vstd::prelude::*;

verus! {

/// The number in two bytes, of which the first is the upper one if `big_endian`.
pub open spec fn u16_at(file: Seq<u8>, at: int, big_endian: bool) -> int {
    if big_endian {
        file[at] * 256 + file[at + 1]
    } else {
        file[at] + file[at + 1] * 256
    }
}

/// The number in four bytes.
pub open spec fn u32_at(file: Seq<u8>, at: int, big_endian: bool) -> int {
    if big_endian {
        u16_at(file, at, true) * 65536 + u16_at(file, at + 2, true)
    } else {
        u16_at(file, at, false) + u16_at(file, at + 2, false) * 65536
    }
}

/// The number in eight bytes.
pub open spec fn u64_at(file: Seq<u8>, at: int, big_endian: bool) -> int {
    if big_endian {
        u32_at(file, at, true) * 4294967296 + u32_at(file, at + 4, true)
    } else {
        u32_at(file, at, false) + u32_at(file, at + 4, false) * 4294967296
    }
}

fn read_u16(file: &[u8], at: usize, big_endian: bool) -> (n: u16)
    requires
        at + 2 <= file@.len(),
    ensures
        n == u16_at(file@, at as int, big_endian),
{
    if big_endian {
        file[at] as u16 * 256 + file[at + 1] as u16
    } else {
        file[at] as u16 + file[at + 1] as u16 * 256
    }
}

fn read_u32(file: &[u8], at: usize, big_endian: bool) -> (n: u32)
    requires
        at + 4 <= file@.len(),
    ensures
        n == u32_at(file@, at as int, big_endian),
{
    assert(at + 4 <= file.len());
    let first: u32 = read_u16(file, at, big_endian) as u32;
    let second: u32 = read_u16(file, at + 2, big_endian) as u32;
    if big_endian {
        first * 65536 + second
    } else {
        first + second * 65536
    }
}

fn read_u64(file: &[u8], at: usize, big_endian: bool) -> (n: u64)
    requires
        at + 8 <= file@.len(),
    ensures
        n == u64_at(file@, at as int, big_endian),
{
    assert(at + 8 <= file.len());
    let first: u64 = read_u32(file, at, big_endian) as u64;
    let second: u64 = read_u32(file, at + 4, big_endian) as u64;
    if big_endian {
        first * 4294967296 + second
    } else {
        first + second * 4294967296
    }
}

/// The tag of the number of samples for a pixel.
pub const SAMPLES_TAG: u16 = 277;

/// The tag of the places of tiles.
pub const TILES_TAG: u16 = 324;

/// Entries of a type that is not known are skipped.
pub open spec fn known_type(entry_type: int) -> bool {
    1 <= entry_type <= 13 || 16 <= entry_type <= 18
}

/// The entry at `at` holds the number 1 and nothing else.
pub open spec fn holds_one(file: Seq<u8>, at: int, big_endian: bool, big_file: bool) -> bool {
    let entry_type = u16_at(file, at + 2, big_endian);
    let count = if big_file {
        u64_at(file, at + 4, big_endian)
    } else {
        u32_at(file, at + 4, big_endian)
    };
    let value = if big_file {
        at + 12
    } else {
        at + 8
    };
    if count != 1 {
        false
    } else if entry_type == 1 {
        file[value] == 1
    } else if entry_type == 3 {
        u16_at(file, value, big_endian) == 1
    } else if entry_type == 4 {
        u32_at(file, value, big_endian) == 1
    } else if entry_type == 16 {
        if big_file {
            u64_at(file, value, big_endian) == 1
        } else {
            let there = u32_at(file, value, big_endian);
            there + 8 <= file.len() && u64_at(file, there, big_endian) == 1
        }
    } else {
        false
    }
}

/// Of the `count` entries from the one at `at` on, none names tiles, and the last one that names a
/// number of samples names one; if there is none, it is as `one` says. A directory that the file
/// ends in counts too.
pub open spec fn entries_single(
    file: Seq<u8>,
    at: int,
    count: int,
    big_endian: bool,
    big_file: bool,
    one: bool,
) -> bool
    decreases file.len() - at,
{
    if count <= 0 {
        one
    } else if at < 0 || at + 12 > file.len() {
        true
    } else {
        let tag = u16_at(file, at, big_endian);
        let known = known_type(u16_at(file, at + 2, big_endian));
        let next = if big_file && known {
            at + 20
        } else {
            at + 12
        };
        if next > file.len() {
            true
        } else if known && tag == TILES_TAG {
            false
        } else {
            entries_single(
                file,
                next,
                count - 1,
                big_endian,
                big_file,
                if known && tag == SAMPLES_TAG {
                    holds_one(file, at, big_endian, big_file)
                } else {
                    one
                },
            )
        }
    }
}

/// The first image of a TIFF file is stored in strips, with one sample for each pixel. What is no
/// such file, or ends too early, counts too.
pub open spec fn tiff_single_plane(file: Seq<u8>) -> bool {
    let big_endian = file.len() >= 2 && file[0] == 0x4d && file[1] == 0x4d;
    let little_endian = file.len() >= 2 && file[0] == 0x49 && file[1] == 0x49;
    if file.len() < 8 || !(big_endian || little_endian) {
        true
    } else if u16_at(file, 2, big_endian) == 42 {
        let directory = u32_at(file, 4, big_endian);
        directory + 2 <= file.len() ==> entries_single(
            file,
            directory + 2,
            u16_at(file, directory, big_endian),
            big_endian,
            false,
            true,
        )
    } else if u16_at(file, 2, big_endian) == 43 && file.len() >= 16 {
        let directory = u64_at(file, 8, big_endian);
        directory + 8 <= file.len() ==> entries_single(
            file,
            directory + 8,
            u64_at(file, directory, big_endian),
            big_endian,
            true,
            true,
        )
    } else {
        true
    }
}

fn is_one(file: &[u8], at: usize, big_endian: bool, big_file: bool) -> (r: bool)
    requires
        at + 12 <= file@.len(),
        big_file ==> at + 20 <= file@.len(),
    ensures
        r == holds_one(file@, at as int, big_endian, big_file),
{
    assert(at + 12 <= file.len());
    let entry_type: u16 = read_u16(file, at + 2, big_endian);
    let count: u64 = if big_file {
        read_u64(file, at + 4, big_endian)
    } else {
        read_u32(file, at + 4, big_endian) as u64
    };
    let value: usize = if big_file {
        at + 12
    } else {
        at + 8
    };
    if count != 1 {
        return false;
    }
    match entry_type {
        1 => file[value] == 1,
        3 => read_u16(file, value, big_endian) == 1,
        4 => read_u32(file, value, big_endian) == 1,
        16 => {
            if big_file {
                read_u64(file, value, big_endian) == 1
            } else {
                let there: usize = read_u32(file, value, big_endian) as usize;
                file.len() >= 8 && there <= file.len() - 8 && read_u64(file, there, big_endian) == 1
            }
        },
        _ => false,
    }
}

fn are_entries_single(file: &[u8], first: usize, count: u64, big_endian: bool, big_file: bool) -> (r: bool)
    requires
        first <= file@.len(),
    ensures
        r == entries_single(file@, first as int, count as int, big_endian, big_file, true),
{
    let mut at: usize = first;
    let mut left: u64 = count;
    let mut one = true;
    while left > 0
        invariant
            at <= file@.len(),
            entries_single(file@, at as int, left as int, big_endian, big_file, one) == entries_single(
                file@,
                first as int,
                count as int,
                big_endian,
                big_file,
                true,
            ),
        decreases left,
    {
        if file.len() - at < 12 {
            return true;
        }
        let tag: u16 = read_u16(file, at, big_endian);
        let entry_type: u16 = read_u16(file, at + 2, big_endian);
        let known = (1 <= entry_type && entry_type <= 13) || (16 <= entry_type && entry_type <= 18);
        let length: usize = if big_file && known {
            20
        } else {
            12
        };
        if file.len() - at < length {
            return true;
        }
        if known && tag == TILES_TAG {
            return false;
        }
        if known && tag == SAMPLES_TAG {
            one = is_one(file, at, big_endian, big_file);
        }
        at = at + length;
        left = left - 1;
    }
    one
}

/// Whether the first image of a TIFF file is stored in strips, with one sample for each pixel.
pub fn is_tiff_single_plane(file: &[u8]) -> (r: bool)
    ensures
        r == tiff_single_plane(file@),
{
    if file.len() < 8 {
        return true;
    }
    let big_endian = file[0] == 0x4d && file[1] == 0x4d;
    let little_endian = file[0] == 0x49 && file[1] == 0x49;
    if !big_endian && !little_endian {
        return true;
    }
    let version: u16 = read_u16(file, 2, big_endian);
    if version == 42 {
        let directory: usize = read_u32(file, 4, big_endian) as usize;
        if directory > file.len() - 2 {
            return true;
        }
        let count: u64 = read_u16(file, directory, big_endian) as u64;
        are_entries_single(file, directory + 2, count, big_endian, false)
    } else if version == 43 && file.len() >= 16 {
        let directory: u64 = read_u64(file, 8, big_endian);
        if directory > (file.len() - 8) as u64 {
            return true;
        }
        let count: u64 = read_u64(file, directory as usize, big_endian);
        are_entries_single(file, directory as usize + 8, count, big_endian, true)
    } else {
        true
    }
}

/// Numbers are read with their first byte lowest, or highest if the file says so: the other way round
/// the same bytes are read in reverse. A byte counts 256 times as much as the one below it.
pub proof fn byte_orders_mirror_each_other(file: Seq<u8>, at: int)
    requires
        0 <= at,
        at + 8 <= file.len(),
    ensures
        ({
            let mirrored = file.subrange(at, at + 2).reverse();
            u16_at(mirrored, 0, true) == u16_at(file, at, false)
        }),
        ({
            let mirrored = file.subrange(at, at + 4).reverse();
            u32_at(mirrored, 0, true) == u32_at(file, at, false)
        }),
        ({
            let mirrored = file.subrange(at, at + 8).reverse();
            u64_at(mirrored, 0, true) == u64_at(file, at, false)
        }),
        u16_at(file, at, false) % 256 == file[at],
        u16_at(file, at, false) / 256 == file[at + 1],
        u32_at(file, at, false) % 65536 == u16_at(file, at, false),
        u32_at(file, at, false) / 65536 == u16_at(file, at + 2, false),
        u64_at(file, at, false) % 4294967296 == u32_at(file, at, false),
        u64_at(file, at, false) / 4294967296 == u32_at(file, at + 4, false),
{
    let two = file.subrange(at, at + 2).reverse();
    assert(two[0] == file[at + 1] && two[1] == file[at]);
    let four = file.subrange(at, at + 4).reverse();
    assert(four[0] == file[at + 3] && four[1] == file[at + 2] && four[2] == file[at + 1] && four[3]
        == file[at]);
    let eight = file.subrange(at, at + 8).reverse();
    assert(eight[0] == file[at + 7] && eight[1] == file[at + 6] && eight[2] == file[at + 5] && eight[3]
        == file[at + 4] && eight[4] == file[at + 3] && eight[5] == file[at + 2] && eight[6] == file[at
        + 1] && eight[7] == file[at]);
}

/// A directory is refused at an entry for tiles. An entry for the number of samples decides for those
/// behind it, as far as they do not decide anew, and any other entry is passed over. Entries have twelve
/// bytes, or twenty in a big file, where those of an unknown type have twelve too.
pub proof fn tiles_are_refused(file: Seq<u8>, at: int, count: int, big_endian: bool, big_file: bool, one: bool)
    requires
        0 <= at,
        at + 20 <= file.len(),
        count >= 1,
    ensures
        ({
            let tag = u16_at(file, at, big_endian);
            let kind = u16_at(file, at + 2, big_endian);
            let known = 1 <= kind <= 13 || 16 <= kind <= 18;
            let next = if big_file && known {
                at + 20
            } else {
                at + 12
            };
            &&& known && tag == 324 ==> !entries_single(file, at, count, big_endian, big_file, one)
            &&& known && tag == 277 ==> entries_single(file, at, count, big_endian, big_file, one)
                == entries_single(
                file,
                next,
                count - 1,
                big_endian,
                big_file,
                holds_one(file, at, big_endian, big_file),
            )
            &&& !known || (tag != 324 && tag != 277) ==> entries_single(
                file,
                at,
                count,
                big_endian,
                big_file,
                one,
            ) == entries_single(file, next, count - 1, big_endian, big_file, one)
            &&& entries_single(file, at, 0, big_endian, big_file, one) == one
        }),
{
}

/// An entry that holds one has that number as a byte, or in two or four bytes, and holds no second value.
pub proof fn entries_hold_one_in_their_type(file: Seq<u8>, at: int, big_endian: bool)
    requires
        0 <= at,
        at + 20 <= file.len(),
    ensures
        u32_at(file, at + 4, big_endian) != 1 ==> !holds_one(file, at, big_endian, false),
        u64_at(file, at + 4, big_endian) != 1 ==> !holds_one(file, at, big_endian, true),
        u32_at(file, at + 4, big_endian) == 1 && u16_at(file, at + 2, big_endian) == 1 ==> (holds_one(
            file,
            at,
            big_endian,
            false,
        ) <==> file[at + 8] == 1),
        u32_at(file, at + 4, big_endian) == 1 && u16_at(file, at + 2, big_endian) == 3 ==> (holds_one(
            file,
            at,
            big_endian,
            false,
        ) <==> u16_at(file, at + 8, big_endian) == 1),
        u32_at(file, at + 4, big_endian) == 1 && u16_at(file, at + 2, big_endian) == 4 ==> (holds_one(
            file,
            at,
            big_endian,
            false,
        ) <==> u32_at(file, at + 8, big_endian) == 1),
        u64_at(file, at + 4, big_endian) == 1 && u16_at(file, at + 2, big_endian) == 3 ==> (holds_one(
            file,
            at,
            big_endian,
            true,
        ) <==> u16_at(file, at + 12, big_endian) == 1),
{
}

/// A file that does not begin with one of the two marks of the byte order, or not with the number of one
/// of the two kinds of file, is no TIFF file and is let through.
pub proof fn other_files_are_let_through(file: Seq<u8>)
    ensures
        file.len() < 8 ==> tiff_single_plane(file),
        file.len() >= 8 && !(file[0] as char == 'M' && file[1] as char == 'M') && !(file[0] as char == 'I'
            && file[1] as char == 'I') ==> tiff_single_plane(file),
        file.len() >= 8 && u16_at(file, 2, false) != 42 && u16_at(file, 2, false) != 43 && file[0] as char
            == 'I' && file[1] as char == 'I' ==> tiff_single_plane(file),
        file.len() >= 8 && file[0] as char == 'I' && file[1] as char == 'I' && u16_at(file, 2, false) == 42
            && u32_at(file, 4, false) + 2 <= file.len() ==> tiff_single_plane(file) == entries_single(
            file,
            u32_at(file, 4, false) + 2,
            u16_at(file, u32_at(file, 4, false), false),
            false,
            false,
            true,
        ),
        file.len() >= 8 && file[0] as char == 'M' && file[1] as char == 'M' && u16_at(file, 2, true) == 42
            && u32_at(file, 4, true) + 2 <= file.len() ==> tiff_single_plane(file) == entries_single(
            file,
            u32_at(file, 4, true) + 2,
            u16_at(file, u32_at(file, 4, true), true),
            true,
            false,
            true,
        ),
{
    if file.len() >= 2 {
        assert(file[0] as char == 'M' <==> file[0] == 0x4d);
        assert(file[1] as char == 'M' <==> file[1] == 0x4d);
        assert(file[0] as char == 'I' <==> file[0] == 0x49);
        assert(file[1] as char == 'I' <==> file[1] == 0x49);
    }
}

} // verus!
