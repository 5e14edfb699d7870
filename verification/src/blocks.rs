//! Cutting a grid into rectangular tiles.

use vstd::prelude::*;
use vstd::pervasive::cloned;

verus! {

/// The rows of a grid, each as a sequence.
pub open spec fn rows_of<T>(grid: &Vec<Vec<T>>) -> Seq<Seq<T>> {
    Seq::new(grid@.len(), |r: int| grid@[r]@)
}

/// The tiles of a partition: rows of tiles, each tile a sequence of cells.
pub open spec fn tiles_of<T>(blocks: &Vec<Vec<Vec<T>>>) -> Seq<Seq<Seq<T>>> {
    Seq::new(blocks@.len(), |br: int| Seq::new(blocks@[br]@.len(), |bc: int| blocks@[br]@[bc]@))
}

/// The width of a grid: the length of its first row, 0 where it has no row.
pub open spec fn grid_width<T>(grid: Seq<Seq<T>>) -> int {
    if grid.len() > 0 {
        grid[0].len() as int
    } else {
        0
    }
}

/// How many tiles of `size` cover `total` cells, the last one maybe in part.
pub open spec fn tile_count(total: int, size: int) -> int {
    (total + size - 1) / size
}

/// Where a tile that starts at `start` ends: `size` further on, or at the
/// grid's edge where that comes first.
pub open spec fn tile_end(start: int, size: int, total: int) -> int {
    if start + size < total {
        start + size
    } else {
        total
    }
}

/// The cells of the rows from `top` up to `bottom`, of each the columns from
/// `left` up to `right`, row after row.
pub open spec fn flatten_rows<T>(grid: Seq<Seq<T>>, top: int, bottom: int, left: int, right: int) -> Seq<T>
    decreases bottom - top,
{
    if bottom <= top {
        Seq::empty()
    } else {
        flatten_rows(grid, top, bottom - 1, left, right) + grid[bottom - 1].subrange(left, right)
    }
}

/// The tile in tile row `br` and tile column `bc`, flattened row by row. A
/// tile at the lower or right edge holds the cells that are there.
pub open spec fn tile<T>(grid: Seq<Seq<T>>, h: int, w: int, br: int, bc: int) -> Seq<T> {
    flatten_rows(
        grid,
        br * h,
        tile_end(br * h, h, grid.len() as int),
        bc * w,
        tile_end(bc * w, w, grid_width(grid)),
    )
}

/// One row of tiles, from left to right.
pub open spec fn tile_row<T>(grid: Seq<Seq<T>>, h: int, w: int, br: int) -> Seq<Seq<T>> {
    Seq::new(tile_count(grid_width(grid), w) as nat, |bc: int| tile(grid, h, w, br, bc))
}

/// The grid cut into tiles of `h` rows and `w` columns, from top to bottom
/// and from left to right. No tile is empty: a grid without columns gives
/// rows without tiles.
pub open spec fn partition<T>(grid: Seq<Seq<T>>, h: int, w: int) -> Seq<Seq<Seq<T>>> {
    Seq::new(tile_count(grid.len() as int, h) as nat, |br: int| tile_row(grid, h, w, br))
}

/// Each cell of `copy` is a clone of the cell of `source` in its place.
pub open spec fn cells_cloned<T: Clone>(source: Seq<T>, copy: Seq<T>) -> bool {
    &&& copy.len() == source.len()
    &&& forall|k: int| 0 <= k < source.len() ==> cloned(#[trigger] source[k], copy[k])
}

/// Each tile of `copy` holds clones of the tile of `source` in its place.
pub open spec fn row_cloned<T: Clone>(source: Seq<Seq<T>>, copy: Seq<Seq<T>>) -> bool {
    &&& copy.len() == source.len()
    &&& forall|bc: int| 0 <= bc < source.len() ==> cells_cloned(#[trigger] source[bc], copy[bc])
}

/// Each row of tiles of `copy` holds clones of the row of `source` in its place.
pub open spec fn tiles_cloned<T: Clone>(source: Seq<Seq<Seq<T>>>, copy: Seq<Seq<Seq<T>>>) -> bool {
    &&& copy.len() == source.len()
    &&& forall|br: int| 0 <= br < source.len() ==> row_cloned(#[trigger] source[br], copy[br])
}

/// A clone of a `bool` is that `bool`, so cloned cells are equal cells.
pub proof fn lemma_cloned_cells_equal(source: Seq<bool>, copy: Seq<bool>)
    requires
        cells_cloned(source, copy),
    ensures
        copy == source,
{
    assert forall|k: int| 0 <= k < source.len() implies copy[k] == source[k] by {
        assert(cloned(source[k], copy[k]));
    }
    assert(copy =~= source);
}

proof fn lemma_tile_steps(total: int, size: int, b: int)
    requires
        size > 0,
        total >= 0,
        b >= 0,
    ensures
        (b + 1) * size == b * size + size,
        b * size >= 0,
        b * size < total ==> b < tile_count(total, size),
        (b * size >= total && (b == 0 || (b - 1) * size < total)) ==> b == tile_count(total, size),
{
    let q = tile_count(total, size);
    assert((b + 1) * size == b * size + size) by (nonlinear_arith);
    assert((b - 1) * size == b * size - size) by (nonlinear_arith);
    assert(b * size >= 0) by (nonlinear_arith)
        requires
            b >= 0,
            size > 0,
    ;
    assert(q * size <= total + size - 1 < q * size + size) by (nonlinear_arith)
        requires
            q == (total + size - 1) / size,
            size > 0,
    ;
    if b * size < total {
        assert(b < q) by (nonlinear_arith)
            requires
                b * size < total,
                total + size - 1 < q * size + size,
                size > 0,
        ;
    }
    if b * size >= total && (b == 0 || (b - 1) * size < total) {
        assert(b == q) by (nonlinear_arith)
            requires
                b * size >= total,
                b == 0 || b * size - size < total,
                q * size <= total + size - 1 < q * size + size,
                size > 0,
                total >= 0,
                b >= 0,
        ;
    }
}

/// Clones the cells of a rectangle of the grid, row after row.
fn copy_tile<T: Clone>(array: &Vec<Vec<T>>, top: usize, bottom: usize, left: usize, right: usize) -> (part: Vec<T>)
    requires
        top <= bottom <= array@.len(),
        left <= right,
        forall|r: int| top <= r < bottom ==> right <= (#[trigger] array@[r])@.len(),
    ensures
        cells_cloned(flatten_rows(rows_of(array), top as int, bottom as int, left as int, right as int), part@),
{
    let ghost grid = rows_of(array);
    let mut part: Vec<T> = Vec::new();
    let mut r: usize = top;
    while r < bottom
        invariant
            top <= r <= bottom <= array@.len(),
            left <= right,
            grid == rows_of(array),
            forall|r: int| top <= r < bottom ==> right <= (#[trigger] array@[r])@.len(),
            cells_cloned(flatten_rows(grid, top as int, r as int, left as int, right as int), part@),
        decreases bottom - r,
    {
        let ghost above = flatten_rows(grid, top as int, r as int, left as int, right as int);
        let mut c: usize = left;
        assert(above + grid[r as int].subrange(left as int, left as int) =~= above);
        while c < right
            invariant
                top <= r < bottom <= array@.len(),
                left <= c <= right <= array@[r as int]@.len(),
                grid == rows_of(array),
                cells_cloned(above + grid[r as int].subrange(left as int, c as int), part@),
            decreases right - c,
        {
            let ghost before = above + grid[r as int].subrange(left as int, c as int);
            let ghost before_copy = part@;
            let cell = array[r][c].clone();
            part.push(cell);
            proof {
                let after = above + grid[r as int].subrange(left as int, c + 1);
                assert(after =~= before.push(array@[r as int]@[c as int]));
                assert forall|k: int| 0 <= k < after.len() implies cloned(#[trigger] after[k], part@[k]) by {
                    if k < before.len() {
                        assert(cloned(before[k], before_copy[k]));
                    }
                }
            }
            c += 1;
        }
        r += 1;
    }
    part
}

/// Cuts the rows from `top` up to `bottom` into tiles of `w` columns.
fn split_rows<T: Clone>(array: &Vec<Vec<T>>, h: usize, w: usize, top: usize, bottom: usize, Ghost(br): Ghost<int>) -> (row_of_blocks: Vec<Vec<T>>)
    requires
        h > 0,
        w > 0,
        br >= 0,
        top == br * h,
        top < array@.len(),
        bottom == tile_end(top as int, h as int, array@.len() as int),
        forall|r: int| 0 <= r < array@.len() ==> (#[trigger] array@[r])@.len() >= array@[0]@.len(),
    ensures
        row_cloned(
            tile_row(rows_of(array), h as int, w as int, br),
            Seq::new(row_of_blocks@.len(), |bc: int| row_of_blocks@[bc]@),
        ),
{
    let ghost grid = rows_of(array);
    let total_cols = array[0].len();
    let ghost count = tile_count(total_cols as int, w as int);
    let mut row_of_blocks: Vec<Vec<T>> = Vec::new();
    let mut col_start: usize = 0;
    let ghost mut bc: int = 0;
    proof {
        lemma_tile_steps(total_cols as int, w as int, 0);
    }
    while col_start < total_cols
        invariant
            w > 0,
            top < bottom <= array@.len(),
            grid == rows_of(array),
            total_cols == grid_width(grid),
            total_cols == array@[0]@.len(),
            count == tile_count(total_cols as int, w as int),
            top == br * h,
            bottom == tile_end(top as int, h as int, array@.len() as int),
            forall|r: int| 0 <= r < array@.len() ==> (#[trigger] array@[r])@.len() >= array@[0]@.len(),
            0 <= bc <= count,
            col_start <= total_cols,
            col_start == bc * w || (col_start == total_cols && bc == count),
            bc == 0 || (bc - 1) * w < total_cols,
            row_of_blocks@.len() == bc,
            forall|b: int| 0 <= b < bc ==> cells_cloned(tile(grid, h as int, w as int, br, b), (#[trigger] row_of_blocks@[b])@),
        decreases total_cols - col_start,
    {
        proof {
            lemma_tile_steps(total_cols as int, w as int, bc);
            lemma_tile_steps(total_cols as int, w as int, bc + 1);
        }
        let right: usize = if total_cols - col_start > w { col_start + w } else { total_cols };
        let part = copy_tile(array, top, bottom, col_start, right);
        row_of_blocks.push(part);
        col_start = right;
        proof {
            bc = bc + 1;
        }
    }
    proof {
        lemma_tile_steps(total_cols as int, w as int, bc);
        let copy = Seq::new(row_of_blocks@.len(), |b: int| row_of_blocks@[b]@);
        let source = tile_row(grid, h as int, w as int, br);
        assert forall|b: int| 0 <= b < source.len() implies cells_cloned(#[trigger] source[b], copy[b]) by {
            assert(cells_cloned(tile(grid, h as int, w as int, br, b), row_of_blocks@[b]@));
        }
    }
    row_of_blocks
}

/// Cuts a grid into tiles of `h` rows and `w` columns, from top to bottom and
/// from left to right, and hands each tile out flattened row by row. The
/// grid's width is that of its first row; tiles at the lower and right edge
/// hold the cells that are there.
pub fn split_into_parts<T: Clone>(array: Vec<Vec<T>>, h: usize, w: usize) -> (result: Vec<Vec<Vec<T>>>)
    requires
        h > 0,
        w > 0,
        forall|r: int| 0 <= r < array@.len() ==> (#[trigger] array@[r])@.len() >= array@[0]@.len(),
    ensures
        tiles_cloned(partition(rows_of(&array), h as int, w as int), tiles_of(&result)),
{
    let ghost grid = rows_of(&array);
    let total_rows = array.len();
    let ghost count = tile_count(total_rows as int, h as int);
    let mut result: Vec<Vec<Vec<T>>> = Vec::new();
    let mut row_start: usize = 0;
    let ghost mut br: int = 0;
    proof {
        lemma_tile_steps(total_rows as int, h as int, 0);
    }
    while row_start < total_rows
        invariant
            h > 0,
            w > 0,
            grid == rows_of(&array),
            total_rows == array@.len(),
            count == tile_count(total_rows as int, h as int),
            forall|r: int| 0 <= r < array@.len() ==> (#[trigger] array@[r])@.len() >= array@[0]@.len(),
            0 <= br <= count,
            row_start <= total_rows,
            row_start == br * h || (row_start == total_rows && br == count),
            br == 0 || (br - 1) * h < total_rows,
            result@.len() == br,
            forall|b: int| 0 <= b < br ==> row_cloned(
                tile_row(grid, h as int, w as int, b),
                #[trigger] tiles_of(&result)[b],
            ),
        decreases total_rows - row_start,
    {
        proof {
            lemma_tile_steps(total_rows as int, h as int, br);
            lemma_tile_steps(total_rows as int, h as int, br + 1);
        }
        let bottom: usize = if total_rows - row_start > h { row_start + h } else { total_rows };
        let ghost before = tiles_of(&result);
        let row_of_blocks = split_rows(&array, h, w, row_start, bottom, Ghost(br));
        result.push(row_of_blocks);
        row_start = bottom;
        proof {
            assert forall|b: int| 0 <= b < br + 1 implies row_cloned(
                tile_row(grid, h as int, w as int, b),
                #[trigger] tiles_of(&result)[b],
            ) by {
                if b < br {
                    assert(tiles_of(&result)[b] =~= before[b]);
                } else {
                    assert(tiles_of(&result)[b] =~= Seq::new(row_of_blocks@.len(), |bc: int| row_of_blocks@[bc]@));
                }
            }
            br = br + 1;
        }
    }
    proof {
        lemma_tile_steps(total_rows as int, h as int, br);
        let source = partition(grid, h as int, w as int);
        assert forall|b: int| 0 <= b < source.len() implies row_cloned(#[trigger] source[b], tiles_of(&result)[b]) by {
            assert(row_cloned(tile_row(grid, h as int, w as int, b), tiles_of(&result)[b]));
        }
    }
    result
}

} // verus!
