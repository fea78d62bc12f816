//! Finding the faces of a mesh that may lie in a region: space is cut into cells, and each cell
//! knows the faces whose bounding box touches it.

use crate::grid::{cells3, flat3, index3, lemma_flat3_bound, lemma_flat3_injective};
use vstd::prelude::*;

verus! {

/// A range of cells along each axis, both ends included. Ends behind the last cell stand for the
/// last cell.
#[derive(Clone, Copy, PartialEq, Eq, Structural)]
pub struct CellBox {
    pub min_layer: usize,
    pub max_layer: usize,
    pub min_row: usize,
    pub max_row: usize,
    pub min_col: usize,
    pub max_col: usize,
}

/// The cell, or the last one if there are not so many.
pub open spec fn limited(cell: int, n: int) -> int {
    if cell < n {
        cell
    } else {
        n - 1
    }
}

fn limit(cell: usize, n: usize) -> (r: usize)
    requires
        n >= 1,
    ensures
        r == limited(cell as int, n as int),
        r < n,
{
    if cell < n {
        cell
    } else {
        n - 1
    }
}

/// The cells of a region, and for each the numbers of the faces that touch it.
pub struct FaceGrid {
    pub layers: usize,
    pub rows: usize,
    pub cols: usize,
    pub grid: Vec<Vec<usize>>,
}

/// Some cell between `min` and `max` is cell `c` of `n`.
pub open spec fn spans(min: int, max: int, n: int, c: int) -> bool {
    limited(min, n) <= c <= limited(max, n)
}

impl FaceGrid {
    /// The box touches the cell.
    pub open spec fn touches(&self, b: CellBox, layer: int, row: int, col: int) -> bool {
        &&& spans(b.min_layer as int, b.max_layer as int, self.layers as int, layer)
        &&& spans(b.min_row as int, b.max_row as int, self.rows as int, row)
        &&& spans(b.min_col as int, b.max_col as int, self.cols as int, col)
    }

    pub open spec fn has_cell(&self, layer: int, row: int, col: int) -> bool {
        0 <= layer < self.layers && 0 <= row < self.rows && 0 <= col < self.cols
    }

    /// There is a list for each cell.
    pub open spec fn valid(&self) -> bool {
        &&& self.layers >= 1 && self.rows >= 1 && self.cols >= 1
        &&& self.grid@.len() == cells3(self.cols as int, self.rows as int, self.layers as int)
        &&& self.grid@.len() <= usize::MAX
    }

    /// The faces of a cell.
    pub open spec fn faces(&self, layer: int, row: int, col: int) -> Seq<usize> {
        self.grid@[flat3(self.cols as int, self.rows as int, col, row, layer)]@
    }

    /// The first `n` of the boxes are entered in every cell that they touch, in their order.
    pub open spec fn holds(&self, boxes: Seq<CellBox>, n: int) -> bool {
        forall|layer: int, row: int, col: int|
            self.has_cell(layer, row, col) ==> lists(
                #[trigger] self.faces(layer, row, col),
                boxes,
                n,
                *self,
                layer,
                row,
                col,
            )
    }
}

/// The numbers of those of the first `n` boxes that touch a cell, in increasing order.
pub open spec fn touching(boxes: Seq<CellBox>, n: int, grid: FaceGrid, layer: int, row: int, col: int) -> Seq<
    usize,
>
    decreases n,
{
    if n <= 0 {
        Seq::empty()
    } else if grid.touches(boxes[n - 1], layer, row, col) {
        touching(boxes, n - 1, grid, layer, row, col).push((n - 1) as usize)
    } else {
        touching(boxes, n - 1, grid, layer, row, col)
    }
}

/// A cell lists exactly the boxes that touch it.
pub open spec fn lists(
    faces: Seq<usize>,
    boxes: Seq<CellBox>,
    n: int,
    grid: FaceGrid,
    layer: int,
    row: int,
    col: int,
) -> bool {
    faces == touching(boxes, n, grid, layer, row, col)
}

/// Only the number of cells matters for what a box touches.
proof fn lemma_touching_same(
    boxes: Seq<CellBox>,
    n: int,
    a: FaceGrid,
    b: FaceGrid,
    layer: int,
    row: int,
    col: int,
)
    requires
        a.layers == b.layers && a.rows == b.rows && a.cols == b.cols,
    ensures
        touching(boxes, n, a, layer, row, col) == touching(boxes, n, b, layer, row, col),
    decreases n,
{
    if n > 0 {
        lemma_touching_same(boxes, n - 1, a, b, layer, row, col);
    }
}

proof fn lemma_touching_contains(
    boxes: Seq<CellBox>,
    n: int,
    grid: FaceGrid,
    layer: int,
    row: int,
    col: int,
    i: int,
)
    requires
        0 <= i < n,
        n <= usize::MAX,
        grid.touches(boxes[i], layer, row, col),
    ensures
        touching(boxes, n, grid, layer, row, col).contains(i as usize),
    decreases n,
{
    let all = touching(boxes, n, grid, layer, row, col);
    if i == n - 1 {
        assert(all.last() == i as usize);
        assert(all[all.len() - 1] == i as usize);
    } else {
        lemma_touching_contains(boxes, n - 1, grid, layer, row, col, i);
        let rest = touching(boxes, n - 1, grid, layer, row, col);
        let k = choose|k: int| 0 <= k < rest.len() && rest[k] == i as usize;
        assert(all[k] == i as usize);
    }
}

impl FaceGrid {
    /// A grid of cells with the faces whose boxes are given.
    pub fn new(layers: usize, rows: usize, cols: usize, boxes: &Vec<CellBox>) -> (r: FaceGrid)
        requires
            layers >= 1,
            rows >= 1,
            cols >= 1,
            cells3(cols as int, rows as int, layers as int) <= usize::MAX,
        ensures
            r.valid(),
            r.layers == layers && r.rows == rows && r.cols == cols,
            r.holds(boxes@, boxes@.len() as int),
    {
        proof {
            let (a, b, c) = (layers as int, rows as int, cols as int);
            assert(0 < a * b <= (a * b) * c) by (nonlinear_arith)
                requires
                    a >= 1,
                    b >= 1,
                    c >= 1,
            ;
        }
        let total: usize = layers * rows * cols;
        let mut grid: Vec<Vec<usize>> = Vec::new();
        let mut k: usize = 0;
        while k < total
            invariant
                k <= total,
                grid@.len() == k,
                forall|i: int| 0 <= i < k ==> (#[trigger] grid@[i])@ == Seq::<usize>::empty(),
            decreases total - k,
        {
            grid.push(Vec::new());
            k += 1;
        }
        let mut r = FaceGrid { layers, rows, cols, grid };
        proof {
            assert forall|layer: int, row: int, col: int| r.has_cell(layer, row, col) implies lists(
                #[trigger] r.faces(layer, row, col),
                boxes@,
                0,
                r,
                layer,
                row,
                col,
            ) by {
                lemma_flat3_bound(cols as int, rows as int, layers as int, col, row, layer);
            }
        }
        let mut i: usize = 0;
        while i < boxes.len()
            invariant
                i <= boxes@.len(),
                r.valid(),
                r.layers == layers && r.rows == rows && r.cols == cols,
                r.holds(boxes@, i as int),
            decreases boxes@.len() - i,
        {
            r.enter(boxes, i);
            i += 1;
        }
        r
    }

    /// Enters box `i` in the cells that it touches.
    fn enter(&mut self, boxes: &Vec<CellBox>, i: usize)
        requires
            old(self).valid(),
            i < boxes@.len(),
            old(self).holds(boxes@, i as int),
        ensures
            final(self).valid(),
            final(self).layers == old(self).layers,
            final(self).rows == old(self).rows,
            final(self).cols == old(self).cols,
            final(self).holds(boxes@, i + 1),
    {
        let b: CellBox = boxes[i];
        let ghost before = *self;
        let last_layer: usize = limit(b.max_layer, self.layers);
        let last_row: usize = limit(b.max_row, self.rows);
        let last_col: usize = limit(b.max_col, self.cols);
        let first_layer: usize = limit(b.min_layer, self.layers);
        let first_row: usize = limit(b.min_row, self.rows);
        let first_col: usize = limit(b.min_col, self.cols);
        let mut layer: usize = first_layer;
        while layer <= last_layer
            invariant
                before.valid(),
                self.valid(),
                self.layers == before.layers && self.rows == before.rows && self.cols == before.cols,
                first_layer <= layer <= last_layer + 1 || layer == first_layer,
                last_layer < self.layers && last_row < self.rows && last_col < self.cols,
                first_layer < self.layers && first_row < self.rows && first_col < self.cols,
                entered(before, *self, i, first_layer as int, layer as int, first_row as int, last_row
                    + 1, first_col as int, last_col + 1),
            decreases last_layer + 1 - layer,
        {
            let mut row: usize = first_row;
            let ghost layer_start = *self;
            while row <= last_row
                invariant
                    before.valid(),
                    self.valid(),
                    layer_start.valid(),
                    self.layers == before.layers && self.rows == before.rows && self.cols
                        == before.cols,
                    layer_start.layers == before.layers && layer_start.rows == before.rows
                        && layer_start.cols == before.cols,
                    layer <= last_layer,
                    first_row <= row <= last_row + 1 || row == first_row,
                    last_layer < self.layers && last_row < self.rows && last_col < self.cols,
                    first_row < self.rows && first_col < self.cols,
                    entered(layer_start, *self, i, layer as int, layer + 1, first_row as int, row as int,
                        first_col as int, last_col + 1),
                decreases last_row + 1 - row,
            {
                let mut col: usize = first_col;
                let ghost row_start = *self;
                while col <= last_col
                    invariant
                        before.valid(),
                        self.valid(),
                        row_start.valid(),
                        self.layers == before.layers && self.rows == before.rows && self.cols
                            == before.cols,
                        row_start.layers == before.layers && row_start.rows == before.rows
                            && row_start.cols == before.cols,
                        layer <= last_layer,
                        row <= last_row,
                        first_col <= col <= last_col + 1 || col == first_col,
                        last_layer < self.layers && last_row < self.rows && last_col < self.cols,
                        first_col < self.cols,
                        entered(row_start, *self, i, layer as int, layer + 1, row as int, row + 1,
                            first_col as int, col as int),
                    decreases last_col + 1 - col,
                {
                    let idx: usize = index3(self.cols, self.rows, self.layers, col, row, layer);
                    let ghost current = *self;
                    self.grid[idx].push(i);
                    proof {
                        lemma_pushed(current, *self, i, layer as int, row as int, col as int);
                        assert forall|l: int, rr: int, c: int| self.has_cell(l, rr, c) implies (
                        #[trigger] self.faces(l, rr, c)) == (if in_ranges(
                            l,
                            rr,
                            c,
                            layer as int,
                            layer + 1,
                            row as int,
                            row + 1,
                            first_col as int,
                            col + 1,
                        ) {
                            row_start.faces(l, rr, c).push(i)
                        } else {
                            row_start.faces(l, rr, c)
                        }) by {
                            assert(current.has_cell(l, rr, c));
                            let was = current.faces(l, rr, c);
                        }
                    }
                    col += 1;
                }
                proof {
                    assert forall|l: int, rr: int, c: int| self.has_cell(l, rr, c) implies (
                    #[trigger] self.faces(l, rr, c)) == (if in_ranges(
                        l,
                        rr,
                        c,
                        layer as int,
                        layer + 1,
                        first_row as int,
                        row + 1,
                        first_col as int,
                        last_col + 1,
                    ) {
                        layer_start.faces(l, rr, c).push(i)
                    } else {
                        layer_start.faces(l, rr, c)
                    }) by {
                        let was = row_start.faces(l, rr, c);
                    }
                }
                row += 1;
            }
            proof {
                assert forall|l: int, rr: int, c: int| self.has_cell(l, rr, c) implies (
                #[trigger] self.faces(l, rr, c)) == (if in_ranges(
                    l,
                    rr,
                    c,
                    first_layer as int,
                    layer + 1,
                    first_row as int,
                    last_row + 1,
                    first_col as int,
                    last_col + 1,
                ) {
                    before.faces(l, rr, c).push(i)
                } else {
                    before.faces(l, rr, c)
                }) by {
                    let was = layer_start.faces(l, rr, c);
                }
            }
            layer += 1;
        }
        proof {
            assert forall|l: int, rr: int, c: int| self.has_cell(l, rr, c) implies lists(
                #[trigger] self.faces(l, rr, c),
                boxes@,
                i + 1,
                *self,
                l,
                rr,
                c,
            ) by {
                let was = before.faces(l, rr, c);
                assert(lists(was, boxes@, i as int, before, l, rr, c));
                lemma_touching_same(boxes@, i as int, before, *self, l, rr, c);
                assert(self.touches(b, l, rr, c) <==> in_ranges(
                    l,
                    rr,
                    c,
                    first_layer as int,
                    layer as int,
                    first_row as int,
                    last_row + 1,
                    first_col as int,
                    last_col + 1,
                ));
            }
        }
    }
}

spec fn in_ranges(
    layer: int,
    row: int,
    col: int,
    l0: int,
    l1: int,
    r0: int,
    r1: int,
    c0: int,
    c1: int,
) -> bool {
    l0 <= layer < l1 && r0 <= row < r1 && c0 <= col < c1
}

/// `after` is `before` with `i` added to the cells in some ranges.
spec fn entered(
    before: FaceGrid,
    after: FaceGrid,
    i: usize,
    l0: int,
    l1: int,
    r0: int,
    r1: int,
    c0: int,
    c1: int,
) -> bool {
    forall|l: int, r: int, c: int|
        after.has_cell(l, r, c) ==> (#[trigger] after.faces(l, r, c)) == (if in_ranges(
            l,
            r,
            c,
            l0,
            l1,
            r0,
            r1,
            c0,
            c1,
        ) {
            before.faces(l, r, c).push(i)
        } else {
            before.faces(l, r, c)
        })
}

proof fn lemma_pushed(before: FaceGrid, after: FaceGrid, i: usize, layer: int, row: int, col: int)
    requires
        before.valid(),
        before.has_cell(layer, row, col),
        after.layers == before.layers && after.rows == before.rows && after.cols == before.cols,
        after.grid@.len() == before.grid@.len(),
        ({
            let idx = flat3(before.cols as int, before.rows as int, col, row, layer);
            &&& after.grid@[idx]@ == before.grid@[idx]@.push(i)
            &&& forall|k: int|
                0 <= k < before.grid@.len() && k != idx ==> #[trigger] after.grid@[k] == before.grid@[k]
        }),
    ensures
        after.valid(),
        forall|l: int, r: int, c: int|
            after.has_cell(l, r, c) ==> (#[trigger] after.faces(l, r, c)) == (if l == layer && r == row
                && c == col {
                before.faces(l, r, c).push(i)
            } else {
                before.faces(l, r, c)
            }),
{
    let (cols, rows, layers) = (before.cols as int, before.rows as int, before.layers as int);
    lemma_flat3_bound(cols, rows, layers, col, row, layer);
    assert forall|l: int, r: int, c: int| after.has_cell(l, r, c) implies (#[trigger] after.faces(l, r, c))
        == (if l == layer && r == row && c == col {
        before.faces(l, r, c).push(i)
    } else {
        before.faces(l, r, c)
    }) by {
        lemma_flat3_bound(cols, rows, layers, c, r, l);
        if flat3(cols, rows, c, r, l) == flat3(cols, rows, col, row, layer) {
            lemma_flat3_injective(cols, rows, c, r, l, col, row, layer);
        }
    }
}

/// The faces of the cells `c0` to before `c` of a row, one after the other.
pub open spec fn row_faces(grid: FaceGrid, layer: int, row: int, c0: int, c: int) -> Seq<usize>
    decreases c - c0,
{
    if c <= c0 {
        Seq::empty()
    } else {
        row_faces(grid, layer, row, c0, c - 1) + grid.faces(layer, row, c - 1)
    }
}

/// The faces of the rows `r0` to before `r` of a layer.
pub open spec fn layer_faces(grid: FaceGrid, layer: int, r0: int, r: int, c0: int, c1: int) -> Seq<usize>
    decreases r - r0,
{
    if r <= r0 {
        Seq::empty()
    } else {
        layer_faces(grid, layer, r0, r - 1, c0, c1) + row_faces(grid, layer, r - 1, c0, c1)
    }
}

/// The faces of the layers `l0` to before `l`.
pub open spec fn box_faces(grid: FaceGrid, l0: int, l: int, r0: int, r1: int, c0: int, c1: int) -> Seq<
    usize,
>
    decreases l - l0,
{
    if l <= l0 {
        Seq::empty()
    } else {
        box_faces(grid, l0, l - 1, r0, r1, c0, c1) + layer_faces(grid, l - 1, r0, r1, c0, c1)
    }
}

/// The faces of the cells that a box touches, cell by cell.
pub open spec fn faces_in(grid: FaceGrid, b: CellBox) -> Seq<usize> {
    box_faces(
        grid,
        limited(b.min_layer as int, grid.layers as int),
        limited(b.max_layer as int, grid.layers as int) + 1,
        limited(b.min_row as int, grid.rows as int),
        limited(b.max_row as int, grid.rows as int) + 1,
        limited(b.min_col as int, grid.cols as int),
        limited(b.max_col as int, grid.cols as int) + 1,
    )
}

impl FaceGrid {
    /// The faces of the cells that a box touches. A face is listed once for each such cell.
    pub fn in_bounds(&self, b: CellBox) -> (indices: Vec<usize>)
        requires
            self.valid(),
        ensures
            indices@ == faces_in(*self, b),
    {
        let last_layer: usize = limit(b.max_layer, self.layers);
        let last_row: usize = limit(b.max_row, self.rows);
        let last_col: usize = limit(b.max_col, self.cols);
        let first_layer: usize = limit(b.min_layer, self.layers);
        let first_row: usize = limit(b.min_row, self.rows);
        let first_col: usize = limit(b.min_col, self.cols);
        let mut indices: Vec<usize> = Vec::new();
        let mut layer: usize = first_layer;
        while layer <= last_layer
            invariant
                self.valid(),
                first_layer <= layer,
                layer <= last_layer + 1 || layer == first_layer,
                last_layer < self.layers && last_row < self.rows && last_col < self.cols,
                first_layer < self.layers && first_row < self.rows && first_col < self.cols,
                indices@ == box_faces(
                    *self,
                    first_layer as int,
                    layer as int,
                    first_row as int,
                    last_row + 1,
                    first_col as int,
                    last_col + 1,
                ),
            decreases last_layer + 1 - layer,
        {
            let ghost above = indices@;
            let mut row: usize = first_row;
            assert(above + layer_faces(
                *self,
                layer as int,
                first_row as int,
                row as int,
                first_col as int,
                last_col + 1,
            ) =~= above);
            while row <= last_row
                invariant
                    self.valid(),
                    layer <= last_layer,
                    first_row <= row,
                    row <= last_row + 1 || row == first_row,
                    last_layer < self.layers && last_row < self.rows && last_col < self.cols,
                    first_row < self.rows && first_col < self.cols,
                    indices@ == above + layer_faces(
                        *self,
                        layer as int,
                        first_row as int,
                        row as int,
                        first_col as int,
                        last_col + 1,
                    ),
                decreases last_row + 1 - row,
            {
                let ghost left = indices@;
                let mut col: usize = first_col;
                assert(left + row_faces(*self, layer as int, row as int, first_col as int, col as int)
                    =~= left);
                while col <= last_col
                    invariant
                        self.valid(),
                        layer <= last_layer,
                        row <= last_row,
                        first_col <= col,
                        col <= last_col + 1 || col == first_col,
                        last_layer < self.layers && last_row < self.rows && last_col < self.cols,
                        first_col < self.cols,
                        indices@ == left + row_faces(
                            *self,
                            layer as int,
                            row as int,
                            first_col as int,
                            col as int,
                        ),
                    decreases last_col + 1 - col,
                {
                    let idx: usize = index3(self.cols, self.rows, self.layers, col, row, layer);
                    let ghost before = indices@;
                    let cell: &Vec<usize> = &self.grid[idx];
                    let mut k: usize = 0;
                    while k < cell.len()
                        invariant
                            k <= cell@.len(),
                            indices@ == before + cell@.take(k as int),
                        decreases cell@.len() - k,
                    {
                        indices.push(cell[k]);
                        assert(before + cell@.take(k + 1) =~= (before + cell@.take(k as int)).push(
                            cell@[k as int],
                        ));
                        k += 1;
                    }
                    proof {
                        assert(cell@.take(k as int) =~= cell@);
                        assert(indices@ =~= left + row_faces(
                            *self,
                            layer as int,
                            row as int,
                            first_col as int,
                            col + 1,
                        ));
                    }
                    col += 1;
                }
                proof {
                    lemma_row_faces_empty(
                        *self,
                        layer as int,
                        row as int,
                        first_col as int,
                        col as int,
                        last_col + 1,
                    );
                    assert(indices@ =~= above + layer_faces(
                        *self,
                        layer as int,
                        first_row as int,
                        row + 1,
                        first_col as int,
                        last_col + 1,
                    ));
                }
                row += 1;
            }
            proof {
                lemma_layer_faces_empty(
                    *self,
                    layer as int,
                    first_row as int,
                    row as int,
                    last_row + 1,
                    first_col as int,
                    last_col + 1,
                );
                assert(indices@ =~= box_faces(
                    *self,
                    first_layer as int,
                    layer + 1,
                    first_row as int,
                    last_row + 1,
                    first_col as int,
                    last_col + 1,
                ));
            }
            layer += 1;
        }
        indices
    }
}

/// Ranges that end before they start are all the same.
proof fn lemma_row_faces_empty(grid: FaceGrid, layer: int, row: int, c0: int, c: int, c2: int)
    requires
        c == c2 || (c <= c0 && c2 <= c0),
    ensures
        row_faces(grid, layer, row, c0, c) == row_faces(grid, layer, row, c0, c2),
{
}

proof fn lemma_layer_faces_empty(grid: FaceGrid, layer: int, r0: int, r: int, r2: int, c0: int, c1: int)
    requires
        r == r2 || (r <= r0 && r2 <= r0),
    ensures
        layer_faces(grid, layer, r0, r, c0, c1) == layer_faces(grid, layer, r0, r2, c0, c1),
{
}

proof fn lemma_row_contains(grid: FaceGrid, layer: int, row: int, c0: int, c: int, col: int, i: usize)
    requires
        c0 <= col < c,
        grid.faces(layer, row, col).contains(i),
    ensures
        row_faces(grid, layer, row, c0, c).contains(i),
    decreases c - c0,
{
    let a = row_faces(grid, layer, row, c0, c - 1);
    let b = grid.faces(layer, row, c - 1);
    if col == c - 1 {
        let k = choose|k: int| 0 <= k < b.len() && b[k] == i;
        assert((a + b)[a.len() + k] == i);
    } else {
        lemma_row_contains(grid, layer, row, c0, c - 1, col, i);
        let k = choose|k: int| 0 <= k < a.len() && a[k] == i;
        assert((a + b)[k] == i);
    }
}

proof fn lemma_layer_contains(
    grid: FaceGrid,
    layer: int,
    r0: int,
    r: int,
    c0: int,
    c1: int,
    row: int,
    i: usize,
)
    requires
        r0 <= row < r,
        row_faces(grid, layer, row, c0, c1).contains(i),
    ensures
        layer_faces(grid, layer, r0, r, c0, c1).contains(i),
    decreases r - r0,
{
    let a = layer_faces(grid, layer, r0, r - 1, c0, c1);
    let b = row_faces(grid, layer, r - 1, c0, c1);
    if row == r - 1 {
        let k = choose|k: int| 0 <= k < b.len() && b[k] == i;
        assert((a + b)[a.len() + k] == i);
    } else {
        lemma_layer_contains(grid, layer, r0, r - 1, c0, c1, row, i);
        let k = choose|k: int| 0 <= k < a.len() && a[k] == i;
        assert((a + b)[k] == i);
    }
}

proof fn lemma_box_contains(
    grid: FaceGrid,
    l0: int,
    l: int,
    r0: int,
    r1: int,
    c0: int,
    c1: int,
    layer: int,
    i: usize,
)
    requires
        l0 <= layer < l,
        layer_faces(grid, layer, r0, r1, c0, c1).contains(i),
    ensures
        box_faces(grid, l0, l, r0, r1, c0, c1).contains(i),
    decreases l - l0,
{
    let a = box_faces(grid, l0, l - 1, r0, r1, c0, c1);
    let b = layer_faces(grid, l - 1, r0, r1, c0, c1);
    if layer == l - 1 {
        let k = choose|k: int| 0 <= k < b.len() && b[k] == i;
        assert((a + b)[a.len() + k] == i);
    } else {
        lemma_box_contains(grid, l0, l - 1, r0, r1, c0, c1, layer, i);
        let k = choose|k: int| 0 <= k < a.len() && a[k] == i;
        assert((a + b)[k] == i);
    }
}

/// A face is found in every region that shares a cell with the face's box.
pub proof fn touching_faces_are_found(
    grid: FaceGrid,
    boxes: Seq<CellBox>,
    i: int,
    region: CellBox,
    layer: int,
    row: int,
    col: int,
)
    requires
        grid.valid(),
        grid.holds(boxes, boxes.len() as int),
        0 <= i < boxes.len() <= usize::MAX,
        grid.has_cell(layer, row, col),
        grid.touches(boxes[i], layer, row, col),
        grid.touches(region, layer, row, col),
    ensures
        faces_in(grid, region).contains(i as usize),
{
    lemma_touching_contains(boxes, boxes.len() as int, grid, layer, row, col, i);
    assert(lists(
        grid.faces(layer, row, col),
        boxes,
        boxes.len() as int,
        grid,
        layer,
        row,
        col,
    ));
    let l0 = limited(region.min_layer as int, grid.layers as int);
    let l1 = limited(region.max_layer as int, grid.layers as int) + 1;
    let r0 = limited(region.min_row as int, grid.rows as int);
    let r1 = limited(region.max_row as int, grid.rows as int) + 1;
    let c0 = limited(region.min_col as int, grid.cols as int);
    let c1 = limited(region.max_col as int, grid.cols as int) + 1;
    lemma_row_contains(grid, layer, row, c0, c1, col, i as usize);
    lemma_layer_contains(grid, layer, r0, r1, c0, c1, row, i as usize);
    lemma_box_contains(grid, l0, l1, r0, r1, c0, c1, layer, i as usize);
}

/// The faces of a mesh by their place in the flattened image.
pub struct UVIndex {
    pub cells: FaceGrid,
}

impl UVIndex {
    /// An index of `rows` by `cols` cells. The boxes give the rows and columns of each face.
    pub fn new(rows: usize, cols: usize, boxes: &Vec<CellBox>) -> (r: UVIndex)
        requires
            rows >= 1,
            cols >= 1,
            cells3(cols as int, rows as int, 1) <= usize::MAX,
        ensures
            r.cells.valid(),
            r.cells.layers == 1 && r.cells.rows == rows && r.cells.cols == cols,
            r.cells.holds(boxes@, boxes@.len() as int),
    {
        UVIndex { cells: FaceGrid::new(1, rows, cols, boxes) }
    }

    pub fn in_bounds(&self, min_col: usize, max_col: usize, min_row: usize, max_row: usize) -> (indices: Vec<
        usize,
    >)
        requires
            self.cells.valid(),
        ensures
            indices@ == faces_in(
                self.cells,
                (CellBox { min_layer: 0, max_layer: 0, min_row, max_row, min_col, max_col }),
            ),
    {
        self.cells.in_bounds(
            CellBox { min_layer: 0, max_layer: 0, min_row, max_row, min_col, max_col },
        )
    }
}

/// The faces of a mesh by their place in the volume.
pub struct XYZIndex {
    pub cells: FaceGrid,
}

impl XYZIndex {
    /// An index of `n` cells in each direction. Layers, rows and columns of the boxes stand for x,
    /// y and z.
    pub fn new(n: usize, boxes: &Vec<CellBox>) -> (r: XYZIndex)
        requires
            n >= 1,
            cells3(n as int, n as int, n as int) <= usize::MAX,
        ensures
            r.cells.valid(),
            r.cells.layers == n && r.cells.rows == n && r.cells.cols == n,
            r.cells.holds(boxes@, boxes@.len() as int),
    {
        XYZIndex { cells: FaceGrid::new(n, n, n, boxes) }
    }

    pub fn in_bounds(&self, region: CellBox) -> (indices: Vec<usize>)
        requires
            self.cells.valid(),
        ensures
            indices@ == faces_in(self.cells, region),
    {
        self.cells.in_bounds(region)
    }
}

/// A box inside the grid touches exactly the cells between its ends; a box that ends behind the last
/// cell reaches as far as that cell.
pub proof fn boxes_touch_the_cells_between_their_ends(grid: FaceGrid, b: CellBox, layer: int, row: int, col: int)
    requires
        grid.valid(),
        grid.has_cell(layer, row, col),
    ensures
        b.min_layer < grid.layers && b.min_row < grid.rows && b.min_col < grid.cols ==> (grid.touches(
            b,
            layer,
            row,
            col,
        ) <==> b.min_layer <= layer <= b.max_layer && b.min_row <= row <= b.max_row && b.min_col <= col
            <= b.max_col),
        b.min_layer >= grid.layers && grid.touches(b, layer, row, col) ==> layer == grid.layers - 1,
        b.min_row >= grid.rows && grid.touches(b, layer, row, col) ==> row == grid.rows - 1,
        b.min_col >= grid.cols && grid.touches(b, layer, row, col) ==> col == grid.cols - 1,
{
}

/// A cell lists the faces whose boxes touch it, each once and in increasing order, and no others.
pub proof fn cells_list_their_faces(
    grid: FaceGrid,
    boxes: Seq<CellBox>,
    n: int,
    layer: int,
    row: int,
    col: int,
)
    requires
        grid.holds(boxes, n),
        grid.has_cell(layer, row, col),
        0 <= n <= boxes.len() <= usize::MAX,
    ensures
        forall|i: int|
            0 <= i < n ==> (grid.faces(layer, row, col).contains(i as usize) <==> #[trigger] grid.touches(
                boxes[i],
                layer,
                row,
                col,
            )),
        forall|i: int, j: int|
            0 <= i < j < grid.faces(layer, row, col).len() ==> #[trigger] grid.faces(layer, row, col)[i]
                < #[trigger] grid.faces(layer, row, col)[j] < n,
{
    assert(lists(grid.faces(layer, row, col), boxes, n, grid, layer, row, col));
    lemma_touching_listed(boxes, n, grid, layer, row, col);
}

proof fn lemma_touching_listed(
    boxes: Seq<CellBox>,
    n: int,
    grid: FaceGrid,
    layer: int,
    row: int,
    col: int,
)
    requires
        0 <= n <= boxes.len() <= usize::MAX,
    ensures
        ({
            let faces = touching(boxes, n, grid, layer, row, col);
            &&& forall|i: int|
                0 <= i < n ==> (faces.contains(i as usize) <==> #[trigger] grid.touches(
                    boxes[i],
                    layer,
                    row,
                    col,
                ))
            &&& forall|k: int| 0 <= k < faces.len() ==> #[trigger] faces[k] < n
            &&& forall|i: int, j: int|
                0 <= i < j < faces.len() ==> #[trigger] faces[i] < #[trigger] faces[j]
        }),
    decreases n,
{
    if n > 0 {
        lemma_touching_listed(boxes, n - 1, grid, layer, row, col);
        let rest = touching(boxes, n - 1, grid, layer, row, col);
        let faces = touching(boxes, n, grid, layer, row, col);
        assert forall|i: int|
            0 <= i < n implies (faces.contains(i as usize) <==> #[trigger] grid.touches(
            boxes[i],
            layer,
            row,
            col,
        )) by {
            if i < n - 1 {
                if rest.contains(i as usize) {
                    let k = choose|k: int| 0 <= k < rest.len() && rest[k] == i as usize;
                    assert(faces[k] == i as usize);
                }
                if faces.contains(i as usize) {
                    let k = choose|k: int| 0 <= k < faces.len() && faces[k] == i as usize;
                    if k < rest.len() {
                        assert(rest[k] == i as usize);
                    }
                }
            } else {
                if grid.touches(boxes[i], layer, row, col) {
                    assert(faces[faces.len() - 1] == i as usize);
                }
                if faces.contains(i as usize) && !grid.touches(boxes[i], layer, row, col) {
                    let k = choose|k: int| 0 <= k < faces.len() && faces[k] == i as usize;
                    assert(rest[k] < n - 1);
                }
            }
        }
    }
}

/// Every face that is found in a region is listed by a cell that the region touches.
pub proof fn found_faces_are_near(grid: FaceGrid, region: CellBox, i: usize)
    requires
        grid.valid(),
        faces_in(grid, region).contains(i),
    ensures
        exists|layer: int, row: int, col: int|
            #![trigger grid.faces(layer, row, col)]
            grid.has_cell(layer, row, col) && grid.touches(region, layer, row, col) && grid.faces(
                layer,
                row,
                col,
            ).contains(i),
{
    let l0 = limited(region.min_layer as int, grid.layers as int);
    let l1 = limited(region.max_layer as int, grid.layers as int) + 1;
    let r0 = limited(region.min_row as int, grid.rows as int);
    let r1 = limited(region.max_row as int, grid.rows as int) + 1;
    let c0 = limited(region.min_col as int, grid.cols as int);
    let c1 = limited(region.max_col as int, grid.cols as int) + 1;
    let layer = lemma_in_box(grid, l0, l1, r0, r1, c0, c1, i);
    let row = lemma_in_layer(grid, layer, r0, r1, c0, c1, i);
    let col = lemma_in_row(grid, layer, row, c0, c1, i);
    assert(grid.faces(layer, row, col).contains(i));
}

proof fn lemma_in_either(a: Seq<usize>, b: Seq<usize>, i: usize)
    requires
        (a + b).contains(i),
    ensures
        a.contains(i) || b.contains(i),
{
    let k = choose|k: int| 0 <= k < (a + b).len() && (a + b)[k] == i;
    if k < a.len() {
        assert(a[k] == i);
    } else {
        assert(b[k - a.len()] == i);
    }
}

proof fn lemma_in_row(grid: FaceGrid, layer: int, row: int, c0: int, c: int, i: usize) -> (col: int)
    requires
        row_faces(grid, layer, row, c0, c).contains(i),
    ensures
        c0 <= col < c,
        grid.faces(layer, row, col).contains(i),
    decreases c - c0,
{
    lemma_in_either(row_faces(grid, layer, row, c0, c - 1), grid.faces(layer, row, c - 1), i);
    if grid.faces(layer, row, c - 1).contains(i) {
        c - 1
    } else {
        lemma_in_row(grid, layer, row, c0, c - 1, i)
    }
}

proof fn lemma_in_layer(grid: FaceGrid, layer: int, r0: int, r: int, c0: int, c1: int, i: usize) -> (row: int)
    requires
        layer_faces(grid, layer, r0, r, c0, c1).contains(i),
    ensures
        r0 <= row < r,
        row_faces(grid, layer, row, c0, c1).contains(i),
    decreases r - r0,
{
    lemma_in_either(
        layer_faces(grid, layer, r0, r - 1, c0, c1),
        row_faces(grid, layer, r - 1, c0, c1),
        i,
    );
    if row_faces(grid, layer, r - 1, c0, c1).contains(i) {
        r - 1
    } else {
        lemma_in_layer(grid, layer, r0, r - 1, c0, c1, i)
    }
}

proof fn lemma_in_box(
    grid: FaceGrid,
    l0: int,
    l: int,
    r0: int,
    r1: int,
    c0: int,
    c1: int,
    i: usize,
) -> (layer: int)
    requires
        box_faces(grid, l0, l, r0, r1, c0, c1).contains(i),
    ensures
        l0 <= layer < l,
        layer_faces(grid, layer, r0, r1, c0, c1).contains(i),
    decreases l - l0,
{
    lemma_in_either(
        box_faces(grid, l0, l - 1, r0, r1, c0, c1),
        layer_faces(grid, l - 1, r0, r1, c0, c1),
        i,
    );
    if layer_faces(grid, l - 1, r0, r1, c0, c1).contains(i) {
        l - 1
    } else {
        lemma_in_box(grid, l0, l - 1, r0, r1, c0, c1, i)
    }
}

} // verus!
