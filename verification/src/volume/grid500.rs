//! Volumes that are stored as TIFF files of 500 by 500 by 500 voxels.

use crate::outside::{group_texts, regex_captures, regex_groups};
use crate::text::{padded, parse_number, parsed, push_padded, written_numbers_are_read_back};
use crate::volume::generic::{AutoPaintVolume, VoxelVolume};
use vstd::prelude::*;
use vstd::string::*;

verus! {

/// How far apart the layers of a cell are in its file.
pub const STRIP_SPACING: usize = 500147;

/// Where the voxels of a cell begin in its file.
pub const CELL_HEADER: usize = 8;

/// The bytes of a cell's file behind the first eight.
pub struct Cell {
    pub data: Vec<u8>,
    pub strip_spacing: usize,
}

impl Cell {
    /// Where the higher byte of a voxel stands.
    pub open spec fn offset(&self, x: int, y: int, z: int) -> int {
        self.strip_spacing * z + (y * 500 + x) * 2 + 1
    }

    /// The higher byte of a voxel; 0 if the file ends before it.
    pub open spec fn voxel(&self, x: int, y: int, z: int) -> u8 {
        if self.offset(x, y, z) < self.data@.len() {
            self.data@[self.offset(x, y, z)]
        } else {
            0
        }
    }

    /// The cell in a file, if there is anything behind the file's header.
    pub fn from_file(file: Vec<u8>) -> (r: Option<Cell>)
        ensures
            match r {
                Some(cell) => {
                    &&& file@.len() > CELL_HEADER
                    &&& cell.data@ == file@.skip(CELL_HEADER as int)
                    &&& cell.strip_spacing == STRIP_SPACING
                },
                None => file@.len() <= CELL_HEADER,
            },
    {
        if file.len() <= CELL_HEADER {
            return None;
        }
        let mut file = file;
        let data = file.split_off(CELL_HEADER);
        Some(Cell { data, strip_spacing: STRIP_SPACING })
    }

    pub fn get(&self, x: usize, y: usize, z: usize) -> (v: u8)
        ensures
            v == self.voxel(x as int, y as int, z as int),
    {
        proof {
            let (a, b) = (self.strip_spacing as int, z as int);
            assert(0 <= a * b <= 0xffff_ffff_ffff_ffff * 0xffff_ffff_ffff_ffff) by (nonlinear_arith)
                requires
                    0 <= a <= 0xffff_ffff_ffff_ffff,
                    0 <= b <= 0xffff_ffff_ffff_ffff,
            ;
        }
        let limit: u128 = self.data.len() as u128;
        let layer: u128 = self.strip_spacing as u128 * z as u128;
        if layer >= limit {
            return 0;
        }
        let off: u128 = layer + (y as u128 * 500 + x as u128) * 2;
        if off + 1 >= limit {
            0
        } else {
            self.data[(off + 1) as usize]
        }
    }
}

/// The pattern of the names of cell files: row, column and layer of the cell.
pub open spec fn cell_pattern() -> Seq<char> {
    r"cell_yxz_(\d+)_(\d+)_(\d+)\.tif"@
}

/// The number that a group of a match stands for.
pub open spec fn group_number(groups: Seq<Option<Seq<char>>>, i: int) -> Option<nat> {
    if i < groups.len() && groups[i] is Some {
        parsed(groups[i]->0, usize::MAX as nat)
    } else {
        None
    }
}

/// Reads the number that a group of a match stands for.
pub fn number_of_group(groups: &Vec<Option<String>>, i: usize) -> (r: Option<usize>)
    ensures
        r is Some <==> group_number(group_texts(groups@), i as int) is Some,
        r matches Some(n) ==> group_number(group_texts(groups@), i as int) == Some(n as nat),
{
    if i < groups.len() {
        match &groups[i] {
            Some(text) => match parse_number(text.as_str(), usize::MAX as u64) {
                Some(n) => Some(n as usize),
                None => None,
            },
            None => None,
        }
    } else {
        None
    }
}

/// The column, row and layer of the cell that the groups name.
pub open spec fn cell_of_groups(groups: Option<Seq<Option<Seq<char>>>>) -> Option<(nat, nat, nat)> {
    match groups {
        Some(g) => match (group_number(g, 2), group_number(g, 1), group_number(g, 3)) {
            (Some(x), Some(y), Some(z)) => Some((x, y, z)),
            _ => None,
        },
        None => None,
    }
}

/// Reads the groups of a match of a file name.
pub fn read_cell_groups(groups: &Option<Vec<Option<String>>>) -> (r: Option<(usize, usize, usize)>)
    ensures
        ({
            let g = match *groups {
                Some(v) => Some(group_texts(v@)),
                None => None,
            };
            &&& r is Some <==> cell_of_groups(g) is Some
            &&& r matches Some((x, y, z)) ==> cell_of_groups(g) == Some((x as nat, y as nat, z as nat))
        }),
{
    match groups {
        Some(g) => {
            let x = number_of_group(g, 2);
            let y = number_of_group(g, 1);
            let z = number_of_group(g, 3);
            match (x, y, z) {
                (Some(x), Some(y), Some(z)) => Some((x, y, z)),
                _ => None,
            }
        },
        None => None,
    }
}

/// The column, row and layer of the cell in a file, which count from 1; `None` for other files.
pub fn cell_of_file(file_name: &str) -> (r: Option<(usize, usize, usize)>)
    ensures
        ({
            let cell = cell_of_groups(regex_groups(cell_pattern(), file_name@));
            &&& r is Some <==> cell is Some
            &&& r matches Some((x, y, z)) ==> cell == Some((x as nat, y as nat, z as nat))
        }),
{
    let groups = regex_captures(r"cell_yxz_(\d+)_(\d+)_(\d+)\.tif", file_name);
    read_cell_groups(&groups)
}

/// The file of a cell.
pub fn cell_file(data_dir: &str, x: usize, y: usize, z: usize) -> (r: String)
    ensures
        r@ == data_dir@ + "/cell_yxz_"@ + padded(y as nat, 3) + "_"@ + padded(x as nat, 3) + "_"@
            + padded(z as nat, 3) + ".tif"@,
{
    let mut r = data_dir.to_owned();
    r.append("/cell_yxz_");
    push_padded(&mut r, y as u64, 3);
    r.append("_");
    push_padded(&mut r, x as u64, 3);
    r.append("_");
    push_padded(&mut r, z as u64, 3);
    r.append(".tif");
    r
}

/// The largest column, row and layer among some cells; 0 if there is none.
pub open spec fn largest(cells: Seq<(usize, usize, usize)>) -> (int, int, int)
    decreases cells.len(),
{
    if cells.len() == 0 {
        (0, 0, 0)
    } else {
        let (x, y, z) = largest(cells.drop_last());
        let c = cells.last();
        (
            if c.0 > x {
                c.0 as int
            } else {
                x
            },
            if c.1 > y {
                c.1 as int
            } else {
                y
            },
            if c.2 > z {
                c.2 as int
            } else {
                z
            },
        )
    }
}

/// The largest column, row and layer among some cells.
pub fn extent_of(cells: &Vec<(usize, usize, usize)>) -> (r: (usize, usize, usize))
    ensures
        (r.0 as int, r.1 as int, r.2 as int) == largest(cells@),
{
    let mut max: (usize, usize, usize) = (0, 0, 0);
    let mut i: usize = 0;
    while i < cells.len()
        invariant
            i <= cells@.len(),
            (max.0 as int, max.1 as int, max.2 as int) == largest(cells@.take(i as int)),
        decreases cells@.len() - i,
    {
        let c: (usize, usize, usize) = cells[i];
        proof {
            assert(cells@.take(i + 1).drop_last() =~= cells@.take(i as int));
            assert(cells@.take(i + 1).last() == c);
        }
        if c.0 > max.0 {
            max.0 = c.0;
        }
        if c.1 > max.1 {
            max.1 = c.1;
        }
        if c.2 > max.2 {
            max.2 = c.2;
        }
        i += 1;
    }
    assert(cells@.take(i as int) =~= cells@);
    max
}

/// A volume of cells, by layer, row and column. `max_x`, `max_y` and `max_z` are the last column,
/// row and layer.
pub struct VolumeGrid500Mapped {
    pub max_x: usize,
    pub max_y: usize,
    pub max_z: usize,
    pub data: Vec<Vec<Vec<Option<Cell>>>>,
}

impl VolumeGrid500Mapped {
    /// A volume of `columns` by `rows` by `layers` cells, of which some may be missing.
    pub fn from_cells(
        columns: usize,
        rows: usize,
        layers: usize,
        cells: Vec<Vec<Vec<Option<Cell>>>>,
    ) -> (r: VolumeGrid500Mapped)
        requires
            columns >= 1 && rows >= 1 && layers >= 1,
        ensures
            r.max_x == columns - 1,
            r.max_y == rows - 1,
            r.max_z == layers - 1,
            r.data == cells,
    {
        VolumeGrid500Mapped { max_x: columns - 1, max_y: rows - 1, max_z: layers - 1, data: cells }
    }

    /// The cell at a column, row and layer, if it is there.
    pub open spec fn cell(&self, x: int, y: int, z: int) -> Option<Cell> {
        if z < self.data@.len() && y < self.data@[z]@.len() && x < self.data@[z]@[y]@.len() {
            self.data@[z]@[y]@[x]
        } else {
            None
        }
    }

    /// The voxel at a point of the full resolution; 0 where nothing is.
    pub open spec fn voxel(&self, x: int, y: int, z: int) -> u8 {
        if x < 0 || y < 0 || z < 0 || x / 500 > self.max_x || y / 500 > self.max_y || z / 500
            > self.max_z {
            0
        } else {
            match self.cell(x / 500, y / 500, z / 500) {
                Some(cell) => cell.voxel(x % 500, y % 500, z % 500),
                None => 0,
            }
        }
    }
}

/// A product that always fits.
pub fn wide_product(a: i32, b: i32) -> (r: i64)
    ensures
        r == a * b,
{
    proof {
        assert(-0x8000_0000 * 0x8000_0000 <= a * b <= 0x8000_0000 * 0x8000_0000) by (nonlinear_arith)
            requires
                -0x8000_0000 <= a <= 0x8000_0000,
                -0x8000_0000 <= b <= 0x8000_0000,
        ;
    }
    a as i64 * b as i64
}

impl VoxelVolume for VolumeGrid500Mapped {
    fn get(&self, xyz: [i32; 3], downsampling: i32) -> (v: u8)
        ensures
            v == self.voxel(
                xyz@[0] * downsampling,
                xyz@[1] * downsampling,
                xyz@[2] * downsampling,
            ),
    {
        let x: i64 = wide_product(xyz[0], downsampling);
        let y: i64 = wide_product(xyz[1], downsampling);
        let z: i64 = wide_product(xyz[2], downsampling);
        if x < 0 || y < 0 || z < 0 {
            return 0;
        }
        let x_tile: u64 = x as u64 / 500;
        let y_tile: u64 = y as u64 / 500;
        let z_tile: u64 = z as u64 / 500;
        if x_tile > self.max_x as u64 || y_tile > self.max_y as u64 || z_tile > self.max_z as u64 {
            return 0;
        }
        let (i, j, k) = (x_tile as usize, y_tile as usize, z_tile as usize);
        if k >= self.data.len() || j >= self.data[k].len() || i >= self.data[k][j].len() {
            return 0;
        }
        match &self.data[k][j][i] {
            Some(cell) => cell.get(
                (x as u64 % 500) as usize,
                (y as u64 % 500) as usize,
                (z as u64 % 500) as usize,
            ),
            None => 0,
        }
    }
}

impl AutoPaintVolume for VolumeGrid500Mapped {

}

/// A voxel is two bytes, of which the second is read. A row of a cell is 500 voxels, and the layers
/// stand 500147 bytes apart behind the eight bytes at the start of the file.
pub proof fn cells_are_read_from_their_files(cell: Cell, file: Seq<u8>, x: int, y: int, z: int)
    requires
        file.len() > 8,
        cell.data@ == file.skip(CELL_HEADER as int),
        cell.strip_spacing == STRIP_SPACING,
        0 <= x,
        0 <= y,
        0 <= z,
    ensures
        cell.voxel(x, y, z) == (if 500147 * z + 1000 * y + 2 * x + 9 < file.len() {
            file[500147 * z + 1000 * y + 2 * x + 9]
        } else {
            0
        }),
{
}

/// Every cell is a cube of 500 voxels along each side: the voxel that lies `x`, `y`, `z` voxels
/// inside of the cell of a column, row and layer is that voxel of the cell's file.
pub proof fn cells_lie_side_by_side(
    volume: VolumeGrid500Mapped,
    column: int,
    row: int,
    layer: int,
    x: int,
    y: int,
    z: int,
)
    requires
        0 <= column <= volume.max_x,
        0 <= row <= volume.max_y,
        0 <= layer <= volume.max_z,
        0 <= x < 500,
        0 <= y < 500,
        0 <= z < 500,
    ensures
        layer < volume.data@.len() && row < volume.data@[layer]@.len() && column
            < volume.data@[layer]@[row]@.len() && volume.data@[layer]@[row]@[column] is Some
            ==> volume.voxel(column * 500 + x, row * 500 + y, layer * 500 + z)
            == volume.data@[layer]@[row]@[column]->0.voxel(x, y, z),
        !(layer < volume.data@.len() && row < volume.data@[layer]@.len() && column
            < volume.data@[layer]@[row]@.len() && volume.data@[layer]@[row]@[column] is Some)
            ==> volume.voxel(column * 500 + x, row * 500 + y, layer * 500 + z) == 0,
{
}

/// Nothing lies outside of the cells.
pub proof fn voxels_end_with_the_cells(volume: VolumeGrid500Mapped, x: int, y: int, z: int)
    requires
        x < 0 || y < 0 || z < 0 || x >= 500 * (volume.max_x + 1) || y >= 500 * (volume.max_y + 1) || z
            >= 500 * (volume.max_z + 1),
    ensures
        volume.voxel(x, y, z) == 0,
{
}

/// A file name gives the row first, then the column, then the layer, with as many leading zeros as
/// there may be.
pub proof fn cell_names_are_read_back(
    text: Option<Seq<char>>,
    x: nat,
    y: nat,
    z: nat,
    width: int,
)
    requires
        x <= usize::MAX,
        y <= usize::MAX,
        z <= usize::MAX,
    ensures
        cell_of_groups(
            Some(seq![text, Some(padded(y, width)), Some(padded(x, width)), Some(padded(z, width))]),
        ) == Some((x, y, z)),
        cell_of_groups(
            Some(seq![text, None, Some(padded(x, width)), Some(padded(z, width))]),
        ) is None,
        cell_of_groups(None) is None,
{
    written_numbers_are_read_back(x, width, usize::MAX as nat);
    written_numbers_are_read_back(y, width, usize::MAX as nat);
    written_numbers_are_read_back(z, width, usize::MAX as nat);
}

/// No cell lies behind the largest column, row or layer, and each of them is that of a cell.
pub proof fn cells_reach_to_the_largest(cells: Seq<(usize, usize, usize)>)
    ensures
        forall|i: int|
            #![trigger cells[i]]
            0 <= i < cells.len() ==> cells[i].0 <= largest(cells).0 && cells[i].1 <= largest(cells).1
                && cells[i].2 <= largest(cells).2,
        cells.len() > 0 ==> {
            &&& exists|i: int| 0 <= i < cells.len() && (#[trigger] cells[i]).0 == largest(cells).0
            &&& exists|i: int| 0 <= i < cells.len() && (#[trigger] cells[i]).1 == largest(cells).1
            &&& exists|i: int| 0 <= i < cells.len() && (#[trigger] cells[i]).2 == largest(cells).2
        },
        cells.len() == 0 ==> largest(cells) == (0int, 0int, 0int),
    decreases cells.len(),
{
    if cells.len() > 0 {
        let rest = cells.drop_last();
        cells_reach_to_the_largest(rest);
        assert forall|i: int|
            #![trigger cells[i]]
            0 <= i < cells.len() implies cells[i].0 <= largest(cells).0 && cells[i].1
            <= largest(cells).1 && cells[i].2 <= largest(cells).2 by {
            if i < rest.len() {
                assert(rest[i] == cells[i]);
            }
        }
        let last = cells.len() - 1;
        assert(cells[last] == cells.last());
        if rest.len() > 0 {
            let a = choose|i: int| 0 <= i < rest.len() && (#[trigger] rest[i]).0 == largest(rest).0;
            let b = choose|i: int| 0 <= i < rest.len() && (#[trigger] rest[i]).1 == largest(rest).1;
            let c = choose|i: int| 0 <= i < rest.len() && (#[trigger] rest[i]).2 == largest(rest).2;
            assert(cells[a] == rest[a] && cells[b] == rest[b] && cells[c] == rest[c]);
        }
    }
}

} // verus!
