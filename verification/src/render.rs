//! A frame of the board as text, in one of three glyph encodings.

use vstd::prelude::*;
use crate::blocks::{
    flatten_rows, grid_width, lemma_cloned_cells_equal, partition, rows_of, split_into_parts, tile,
    tile_count, tile_end, tiles_cloned, tiles_of,
};
use crate::braille::{braille_mask, braillize, BRAILLE_BASE};
use crate::game::{alive_at, copy_board, has_shape, Color, Game};
use crate::CellType;

verus! {

/// A cell that is alive, or two live cells one above the other.
pub const FULL_BLOCK: char = '█';

/// A dead cell above a live one.
pub const LOWER_HALF_BLOCK: char = '▄';

/// A live cell above a dead one.
pub const UPPER_HALF_BLOCK: char = '▀';

/// The escape character.
pub const ESCAPE: char = '\x1B';

/// `String::push` of std: the character is appended to the text.
pub assume_specification[ String::push ](text: &mut String, ch: char)
    ensures
        final(text)@ == old(text)@.push(ch),
;

/// The lines with a line feed between each two of them, and none at the end.
pub open spec fn join_lines(lines: Seq<Seq<char>>) -> Seq<char>
    decreases lines.len(),
{
    if lines.len() == 0 {
        Seq::empty()
    } else if lines.len() == 1 {
        lines[0]
    } else {
        join_lines(lines.drop_last()) + seq!['\n'] + lines.last()
    }
}

/// The glyph of one cell where each cell has a glyph to itself.
pub open spec fn big_glyph(alive: bool) -> char {
    if alive {
        FULL_BLOCK
    } else {
        ' '
    }
}

/// A row of cells, each shown as its glyph twice.
pub open spec fn big_line(row: Seq<bool>) -> Seq<char> {
    Seq::new(2 * row.len(), |k: int| big_glyph(row[k / 2]))
}

/// The board with two characters to a cell and a line to a row.
pub open spec fn big_frame(grid: Seq<Seq<bool>>) -> Seq<char> {
    join_lines(Seq::new(grid.len(), |i: int| big_line(grid[i])))
}

/// The glyph of two cells, one above the other.
pub open spec fn small_glyph(top: bool, bottom: bool) -> char {
    if top && bottom {
        FULL_BLOCK
    } else if bottom {
        LOWER_HALF_BLOCK
    } else if top {
        UPPER_HALF_BLOCK
    } else {
        ' '
    }
}

/// Two rows of cells as one line, a character to a column.
pub open spec fn small_line(top: Seq<bool>, bottom: Seq<bool>) -> Seq<char> {
    Seq::new(top.len(), |j: int| small_glyph(top[j], bottom[j]))
}

/// The board with a line to each two rows.
pub open spec fn small_frame(grid: Seq<Seq<bool>>) -> Seq<char> {
    join_lines(Seq::new((grid.len() / 2) as nat, |k: int| small_line(grid[2 * k], grid[2 * k + 1])))
}

/// The braille glyph of a tile of eight cells.
pub open spec fn braille_glyph(block: Seq<bool>) -> char {
    (BRAILLE_BASE as nat + braille_mask(block)) as char
}

/// How many rows, or columns, the tile with this index has: the tile's size,
/// or what is left of the grid where that is less.
pub open spec fn tile_extent(index: int, size: int, total: int) -> int {
    tile_end(index * size, size, total) - index * size
}

/// A tile of `rows` rows and `cols` columns as a block of four rows and two
/// columns: the cells that the tile lacks at the grid's edge are dead.
pub open spec fn padded_block(cells: Seq<bool>, rows: int, cols: int) -> Seq<bool> {
    Seq::new(8, |k: int| k / 2 < rows && k % 2 < cols && cells[(k / 2) * cols + k % 2])
}

/// The glyph of the tile in tile row `br` and tile column `bc`.
pub open spec fn tile_glyph(grid: Seq<Seq<bool>>, br: int, bc: int) -> char {
    braille_glyph(
        padded_block(
            tile(grid, 4, 2, br, bc),
            tile_extent(br, 4, grid.len() as int),
            tile_extent(bc, 2, grid_width(grid)),
        ),
    )
}

/// A row of tiles as one line, a glyph to a tile.
pub open spec fn braille_line(grid: Seq<Seq<bool>>, br: int) -> Seq<char> {
    Seq::new(tile_count(grid_width(grid), 2) as nat, |bc: int| tile_glyph(grid, br, bc))
}

/// The board with a braille glyph to each tile of four rows and two columns.
pub open spec fn braille_frame(grid: Seq<Seq<bool>>) -> Seq<char> {
    join_lines(Seq::new(tile_count(grid.len() as int, 4) as nat, |br: int| braille_line(grid, br)))
}

/// The character of a decimal digit.
pub open spec fn digit_char(digit: nat) -> char {
    ('0' as nat + digit) as char
}

/// A number in decimal digits, without leading zeros.
pub open spec fn decimal(n: nat) -> Seq<char>
    decreases n,
{
    if n < 10 {
        seq![digit_char(n)]
    } else {
        decimal(n / 10).push(digit_char(n % 10))
    }
}

/// The escape sequence that sets a colour of 24 bits: `layer` is `'3'` for
/// the foreground and `'4'` for the background.
pub open spec fn color_escape(layer: char, rgb: (u8, u8, u8)) -> Seq<char> {
    seq![ESCAPE, '[', layer, '8', ';', '2', ';'] + decimal(rgb.0 as nat) + seq![';'] + decimal(
        rgb.1 as nat,
    ) + seq![';'] + decimal(rgb.2 as nat) + seq!['m']
}

/// The escape sequence for a colour that may be missing.
pub open spec fn optional_escape(layer: char, color: Color) -> Seq<char> {
    match color {
        Some(rgb) => color_escape(layer, rgb),
        None => Seq::empty(),
    }
}

/// The escape sequence that puts the terminal's colours back.
pub open spec fn reset_escape() -> Seq<char> {
    seq![ESCAPE, '[', '0', 'm']
}

/// The board in the encoding of a cell type.
pub open spec fn cells_text(cell_type: CellType, grid: Seq<Seq<bool>>) -> Seq<char> {
    match cell_type {
        CellType::Big => big_frame(grid),
        CellType::Small => small_frame(grid),
        CellType::Braille => braille_frame(grid),
    }
}

/// A whole frame: the colours that are set, the board, and the reset.
pub open spec fn frame_text(cell_type: CellType, alive: Color, dead: Color, grid: Seq<Seq<bool>>) -> Seq<char> {
    optional_escape('3', alive) + optional_escape('4', dead) + cells_text(cell_type, grid) + reset_escape()
}

/// Whether every row of the grid is as long as the first.
pub open spec fn is_rectangular(grid: Seq<Seq<bool>>) -> bool {
    has_shape(grid, grid_width(grid), grid.len() as int)
}

proof fn lemma_join_next(lines: Seq<Seq<char>>, i: int)
    requires
        0 <= i < lines.len(),
    ensures
        join_lines(lines.take(i + 1)) == if i == 0 {
            lines[0]
        } else {
            join_lines(lines.take(i)) + seq!['\n'] + lines[i]
        },
{
    assert(lines.take(i + 1).drop_last() =~= lines.take(i));
    assert(lines.take(i + 1).last() == lines[i]);
}

/// A tile of a rectangular grid has between one and four rows, one or two
/// columns, and a cell for each pair of them.
proof fn lemma_tile_len(grid: Seq<Seq<bool>>, br: int, bc: int)
    requires
        is_rectangular(grid),
        0 <= br < tile_count(grid.len() as int, 4),
        0 <= bc < tile_count(grid_width(grid), 2),
    ensures
        1 <= tile_extent(br, 4, grid.len() as int) <= 4,
        1 <= tile_extent(bc, 2, grid_width(grid)) <= 2,
        tile(grid, 4, 2, br, bc).len() == tile_extent(br, 4, grid.len() as int) * tile_extent(
            bc,
            2,
            grid_width(grid),
        ),
{
    let top = br * 4;
    let left = bc * 2;
    let rows = tile_extent(br, 4, grid.len() as int);
    let cols = tile_extent(bc, 2, grid_width(grid));
    let right = left + cols;
    reveal_with_fuel(flatten_rows, 5);
    assert(grid[top].len() == grid_width(grid));
    if rows >= 2 {
        assert(grid[top + 1].len() == grid_width(grid));
    }
    if rows >= 3 {
        assert(grid[top + 2].len() == grid_width(grid));
    }
    if rows >= 4 {
        assert(grid[top + 3].len() == grid_width(grid));
    }
    assert(flatten_rows(grid, top, top, left, right).len() == 0);
    assert(flatten_rows(grid, top, top + 1, left, right).len() == cols);
    if rows >= 2 {
        assert(flatten_rows(grid, top, top + 2, left, right).len() == 2 * cols);
    }
    if rows >= 3 {
        assert(flatten_rows(grid, top, top + 3, left, right).len() == 3 * cols);
    }
    if rows >= 4 {
        assert(flatten_rows(grid, top, top + 4, left, right).len() == 4 * cols);
    }
    assert(rows * cols == if rows == 1 {
        cols
    } else if rows == 2 {
        2 * cols
    } else if rows == 3 {
        3 * cols
    } else {
        4 * cols
    }) by (nonlinear_arith)
        requires
            1 <= rows <= 4,
    ;
}

/// The block that stands for a tile shows the board's cells in their places:
/// its cell `k` is the board's cell in row `k / 2`, column `k % 2` of the
/// tile, and dead where the board has no such cell.
pub proof fn lemma_block_shows_board(grid: Seq<Seq<bool>>, br: int, bc: int, k: int)
    requires
        is_rectangular(grid),
        0 <= br < tile_count(grid.len() as int, 4),
        0 <= bc < tile_count(grid_width(grid), 2),
        0 <= k < 8,
    ensures
        padded_block(
            tile(grid, 4, 2, br, bc),
            tile_extent(br, 4, grid.len() as int),
            tile_extent(bc, 2, grid_width(grid)),
        )[k] == alive_at(grid, 4 * br + k / 2, 2 * bc + k % 2),
{
    let top = br * 4;
    let left = bc * 2;
    let rows = tile_extent(br, 4, grid.len() as int);
    let cols = tile_extent(bc, 2, grid_width(grid));
    let right = left + cols;
    let r = k / 2;
    let c = k % 2;
    lemma_tile_len(grid, br, bc);
    reveal_with_fuel(flatten_rows, 5);
    assert(grid[top].len() == grid_width(grid));
    if top + r < grid.len() {
        assert(grid[top + r].len() == grid_width(grid));
    }
    if r < rows && c < cols {
        let flat = flatten_rows(grid, top, top + rows, left, right);
        assert(flatten_rows(grid, top, top, left, right).len() == 0);
        assert(flatten_rows(grid, top, top + 1, left, right).len() == cols);
        if rows >= 2 {
            assert(grid[top + 1].len() == grid_width(grid));
            assert(flatten_rows(grid, top, top + 2, left, right).len() == 2 * cols);
        }
        if rows >= 3 {
            assert(grid[top + 2].len() == grid_width(grid));
            assert(flatten_rows(grid, top, top + 3, left, right).len() == 3 * cols);
        }
        if rows >= 4 {
            assert(grid[top + 3].len() == grid_width(grid));
        }
        assert(r * cols == if r == 0 {
            0
        } else if r == 1 {
            cols
        } else if r == 2 {
            2 * cols
        } else {
            3 * cols
        }) by (nonlinear_arith)
            requires
                0 <= r <= 3,
        ;
        assert(flatten_rows(grid, top, top + r + 1, left, right)[r * cols + c] == grid[top + r][left + c]);
        assert(flat[r * cols + c] == grid[top + r][left + c]);
    }
}

/// The block of four rows and two columns that stands for a tile.
fn pad_block(cells: &Vec<bool>, rows: usize, cols: usize) -> (block: Vec<bool>)
    requires
        1 <= rows <= 4,
        1 <= cols <= 2,
        cells@.len() == rows * cols,
    ensures
        block@ == padded_block(cells@, rows as int, cols as int),
{
    let mut block: Vec<bool> = Vec::new();
    let mut k: usize = 0;
    while k < 8
        invariant
            k <= 8,
            1 <= rows <= 4,
            1 <= cols <= 2,
            cells@.len() == rows * cols,
            block@ == padded_block(cells@, rows as int, cols as int).take(k as int),
        decreases 8 - k,
    {
        let r = k / 2;
        let c = k % 2;
        assert(r < rows && c < cols ==> r * cols + c < rows * cols) by (nonlinear_arith)
            requires
                cols >= 1,
        ;
        assert(r * cols <= 8) by (nonlinear_arith)
            requires
                r <= 4,
                cols <= 2,
        ;
        let alive = r < rows && c < cols && cells[r * cols + c];
        block.push(alive);
        assert(block@ =~= padded_block(cells@, rows as int, cols as int).take(k + 1));
        k += 1;
    }
    assert(block@ =~= padded_block(cells@, rows as int, cols as int));
    block
}

/// Appends a number in decimal digits.
fn push_decimal(out: &mut String, n: u8)
    ensures
        final(out)@ == old(out)@ + decimal(n as nat),
{
    reveal_with_fuel(decimal, 3);
    let ghost start = out@;
    if n >= 100 {
        out.push((48u8 + n / 100) as char);
    }
    if n >= 10 {
        out.push((48u8 + (n / 10) % 10) as char);
    }
    out.push((48u8 + n % 10) as char);
    assert(out@ =~= start + decimal(n as nat));
}

/// Appends the escape sequence of a colour, if there is one.
fn push_color(out: &mut String, layer: char, color: Color)
    ensures
        final(out)@ == old(out)@ + optional_escape(layer, color),
{
    let ghost start = out@;
    match color {
        Some((r, g, b)) => {
            out.push(ESCAPE);
            out.push('[');
            out.push(layer);
            out.push('8');
            out.push(';');
            out.push('2');
            out.push(';');
            push_decimal(out, r);
            out.push(';');
            push_decimal(out, g);
            out.push(';');
            push_decimal(out, b);
            out.push('m');
            assert(out@ =~= start + color_escape(layer, (r, g, b)));
        },
        None => {
            assert(out@ =~= start + optional_escape(layer, color));
        },
    }
}

/// Appends a row with two characters to a cell.
fn push_big_line(out: &mut String, row: &Vec<bool>)
    ensures
        final(out)@ == old(out)@ + big_line(row@),
{
    let ghost start = out@;
    let mut j: usize = 0;
    while j < row.len()
        invariant
            j <= row@.len(),
            out@ == start + big_line(row@.take(j as int)),
        decreases row@.len() - j,
    {
        let glyph = if row[j] { FULL_BLOCK } else { ' ' };
        out.push(glyph);
        out.push(glyph);
        assert(out@ =~= start + big_line(row@.take(j + 1)));
        j += 1;
    }
    assert(row@.take(j as int) =~= row@);
}

/// Appends two rows as one line.
fn push_small_line(out: &mut String, top: &Vec<bool>, bottom: &Vec<bool>)
    requires
        top@.len() == bottom@.len(),
    ensures
        final(out)@ == old(out)@ + small_line(top@, bottom@),
{
    let ghost start = out@;
    let mut j: usize = 0;
    while j < top.len()
        invariant
            j <= top@.len() == bottom@.len(),
            out@ == start + small_line(top@.take(j as int), bottom@.take(j as int)),
        decreases top@.len() - j,
    {
        let glyph = if top[j] && bottom[j] {
            FULL_BLOCK
        } else if bottom[j] {
            LOWER_HALF_BLOCK
        } else if top[j] {
            UPPER_HALF_BLOCK
        } else {
            ' '
        };
        out.push(glyph);
        assert(out@ =~= start + small_line(top@.take(j + 1), bottom@.take(j + 1)));
        j += 1;
    }
    assert(top@.take(j as int) =~= top@);
    assert(bottom@.take(j as int) =~= bottom@);
}

/// Appends a row of tiles, a braille glyph to each.
fn push_braille_line(out: &mut String, tiles: &Vec<Vec<bool>>, rows: usize, width: usize, Ghost(line): Ghost<Seq<char>>)
    requires
        1 <= rows <= 4,
        tiles@.len() == tile_count(width as int, 2),
        line.len() == tiles@.len(),
        forall|b: int|
            0 <= b < tiles@.len() ==> (#[trigger] tiles@[b])@.len() == rows * tile_extent(b, 2, width as int),
        forall|b: int|
            0 <= b < tiles@.len() ==> #[trigger] line[b] == braille_glyph(
                padded_block(tiles@[b]@, rows as int, tile_extent(b, 2, width as int)),
            ),
    ensures
        final(out)@ == old(out)@ + line,
{
    let ghost start = out@;
    let mut b: usize = 0;
    assert(line.take(0) =~= Seq::<char>::empty());
    while b < tiles.len()
        invariant
            b <= tiles@.len(),
            1 <= rows <= 4,
            tiles@.len() == tile_count(width as int, 2),
            line.len() == tiles@.len(),
            forall|b: int|
                0 <= b < tiles@.len() ==> (#[trigger] tiles@[b])@.len() == rows * tile_extent(b, 2, width as int),
            forall|b: int|
                0 <= b < tiles@.len() ==> #[trigger] line[b] == braille_glyph(
                    padded_block(tiles@[b]@, rows as int, tile_extent(b, 2, width as int)),
                ),
            out@ == start + line.take(b as int),
        decreases tiles@.len() - b,
    {
        let left = 2 * b;
        let cols: usize = if width - left > 2 { 2 } else { width - left };
        assert(cols == tile_extent(b as int, 2, width as int));
        let block = pad_block(&tiles[b], rows, cols);
        let glyph = braillize(block.as_slice());
        out.push(glyph);
        assert(glyph == line[b as int]);
        assert(out@ =~= start + line.take(b + 1));
        b += 1;
    }
    assert(line.take(b as int) =~= line);
}

impl Game {
    /// The board with two characters to a cell: a line to each row, a line
    /// feed between the lines.
    pub fn print_big_cells(&self) -> (text: String)
        ensures
            text@ == big_frame(self.grid()),
    {
        let cells = self.cells();
        let ghost lines = Seq::new(self.grid().len(), |i: int| big_line(self.grid()[i]));
        let mut out = String::new();
        let mut i: usize = 0;
        assert(lines.take(0) =~= Seq::<Seq<char>>::empty());
        while i < cells.len()
            invariant
                i <= cells@.len(),
                rows_of(cells) == self.grid(),
                lines == Seq::new(self.grid().len(), |i: int| big_line(self.grid()[i])),
                out@ == join_lines(lines.take(i as int)),
            decreases cells@.len() - i,
        {
            if i != 0 {
                out.push('\n');
            }
            push_big_line(&mut out, &cells[i]);
            proof {
                lemma_join_next(lines, i as int);
                assert(lines[i as int] == big_line(cells@[i as int]@));
                assert(out@ =~= join_lines(lines.take(i + 1)));
            }
            i += 1;
        }
        assert(lines.take(i as int) =~= lines);
        out
    }

    /// The board with a character to each two cells that stand one above the
    /// other: a line to each two rows.
    pub fn print_small_cells(&self) -> (text: String)
        requires
            self.grid().len() % 2 == 0,
            is_rectangular(self.grid()),
        ensures
            text@ == small_frame(self.grid()),
    {
        let cells = self.cells();
        let ghost grid = self.grid();
        let ghost lines = Seq::new((grid.len() / 2) as nat, |k: int| small_line(grid[2 * k], grid[2 * k + 1]));
        let pairs = cells.len() / 2;
        let mut out = String::new();
        let mut k: usize = 0;
        assert(lines.take(0) =~= Seq::<Seq<char>>::empty());
        while k < pairs
            invariant
                k <= pairs,
                2 * pairs <= usize::MAX,
                pairs == cells@.len() / 2,
                cells@.len() % 2 == 0,
                rows_of(cells) == grid,
                has_shape(grid, grid_width(grid), grid.len() as int),
                lines == Seq::new((grid.len() / 2) as nat, |k: int| small_line(grid[2 * k], grid[2 * k + 1])),
                out@ == join_lines(lines.take(k as int)),
            decreases pairs - k,
        {
            if k != 0 {
                out.push('\n');
            }
            assert(grid[2 * k] == cells@[2 * k]@);
            assert(grid[2 * k + 1] == cells@[2 * k + 1]@);
            push_small_line(&mut out, &cells[2 * k], &cells[2 * k + 1]);
            proof {
                lemma_join_next(lines, k as int);
                assert(out@ =~= join_lines(lines.take(k + 1)));
            }
            k += 1;
        }
        assert(lines.take(k as int) =~= lines);
        out
    }

    /// The board with a braille glyph to each tile of four rows and two
    /// columns: a line to each row of tiles. Where the board ends within a
    /// tile, the cells that the tile lacks show as dead.
    pub fn print_braille_cells(&self) -> (text: String)
        requires
            is_rectangular(self.grid()),
        ensures
            text@ == braille_frame(self.grid()),
    {
        let ghost grid = self.grid();
        let ghost source = partition(grid, 4, 2);
        let board = copy_board(self.cells());
        let height = board.len();
        let width = if height > 0 { board[0].len() } else { 0 };
        proof {
            assert(height == grid.len());
            if height > 0 {
                assert(rows_of(&board)[0] == board@[0]@);
            }
            assert(width == grid_width(grid));
            assert forall|r: int| 0 <= r < board@.len() implies (#[trigger] board@[r])@.len() >= board@[0]@.len() by {
                assert(rows_of(&board)[r] == board@[r]@);
                assert(rows_of(&board)[0] == board@[0]@);
            }
        }
        let parts = split_into_parts(board, 4, 2);
        let ghost lines = Seq::new(source.len(), |br: int| braille_line(grid, br));
        proof {
            assert(tiles_cloned(source, tiles_of(&parts)));
            assert forall|br: int| 0 <= br < source.len() implies rows_of(&parts@[br]) == #[trigger] source[br] by {
                let copy = tiles_of(&parts)[br];
                assert(copy.len() == source[br].len());
                assert forall|bc: int| 0 <= bc < source[br].len() implies copy[bc] == source[br][bc] by {
                    lemma_cloned_cells_equal(source[br][bc], copy[bc]);
                }
                assert(rows_of(&parts@[br]) =~= source[br]);
            }
            assert(lines.take(0) =~= Seq::<Seq<char>>::empty());
        }
        let mut out = String::new();
        let mut i: usize = 0;
        while i < parts.len()
            invariant
                i <= parts@.len() == source.len(),
                is_rectangular(grid),
                height == grid.len(),
                width == grid_width(grid),
                source == partition(grid, 4, 2),
                forall|br: int| 0 <= br < source.len() ==> rows_of(&parts@[br]) == #[trigger] source[br],
                lines == Seq::new(source.len(), |br: int| braille_line(grid, br)),
                out@ == join_lines(lines.take(i as int)),
            decreases parts@.len() - i,
        {
            if i != 0 {
                out.push('\n');
            }
            let top = 4 * i;
            let rows: usize = if height - top > 4 { 4 } else { height - top };
            let ghost line = braille_line(grid, i as int);
            proof {
                assert(rows_of(&parts@[i as int]) == source[i as int]);
                assert(rows == tile_extent(i as int, 4, grid.len() as int));
                let tiles = parts@[i as int]@;
                assert(tiles.len() == source[i as int].len());
                assert forall|b: int| 0 <= b < tiles.len() implies (#[trigger] tiles[b])@.len() == rows
                    * tile_extent(b, 2, width as int) by {
                    assert(rows_of(&parts@[i as int])[b] == tiles[b]@);
                    assert(source[i as int][b] == tile(grid, 4, 2, i as int, b));
                    lemma_tile_len(grid, i as int, b);
                }
                assert forall|b: int| 0 <= b < tiles.len() implies #[trigger] line[b] == braille_glyph(
                    padded_block(tiles[b]@, rows as int, tile_extent(b, 2, width as int)),
                ) by {
                    assert(rows_of(&parts@[i as int])[b] == tiles[b]@);
                    assert(source[i as int][b] == tile(grid, 4, 2, i as int, b));
                }
            }
            push_braille_line(&mut out, &parts[i], rows, width, Ghost(line));
            proof {
                lemma_join_next(lines, i as int);
                assert(out@ =~= join_lines(lines.take(i + 1)));
            }
            i += 1;
        }
        assert(lines.take(i as int) =~= lines);
        out
    }

    /// A frame: the escape sequences of the colours that are set, the board
    /// in the encoding of the game's cell type, and the escape sequence that
    /// resets the colours.
    pub fn print(&self) -> (text: String)
        requires
            self.wf(),
        ensures
            text@ == frame_text(self.mode(), self.alive(), self.dead(), self.grid()),
    {
        let mut out = String::new();
        push_color(&mut out, '3', self.alive_color());
        push_color(&mut out, '4', self.dead_color());
        let ghost prefix = out@;
        let body = match self.cell_type() {
            CellType::Big => self.print_big_cells(),
            CellType::Small => self.print_small_cells(),
            CellType::Braille => self.print_braille_cells(),
        };
        out.append(body.as_str());
        out.push(ESCAPE);
        out.push('[');
        out.push('0');
        out.push('m');
        assert(out@ =~= frame_text(self.mode(), self.alive(), self.dead(), self.grid()));
        out
    }
}

} // verus!
