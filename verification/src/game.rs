//! The board: its size, its transition rule, and when it is seeded anew.

use vstd::prelude::*;
use rand::Rng;
use crate::blocks::rows_of;
use crate::CellType;

verus! {

/// An optional colour: red, green, blue.
pub type Color = Option<(u8, u8, u8)>;

/// The board's width and height in cells for a terminal of `resolution`
/// (width, height) characters.
pub open spec fn board_dimensions(cell_type: CellType, resolution: (usize, usize)) -> (int, int) {
    match cell_type {
        CellType::Big => (resolution.0 as int / 2, resolution.1 as int),
        CellType::Small => (resolution.0 as int, resolution.1 as int * 2),
        CellType::Braille => (resolution.0 as int * 2, resolution.1 as int * 4),
    }
}

/// Whether the board's width and height for this terminal are numbers that
/// the machine can hold.
pub open spec fn dimensions_fit(cell_type: CellType, resolution: (usize, usize)) -> bool {
    board_dimensions(cell_type, resolution).0 <= usize::MAX && board_dimensions(
        cell_type,
        resolution,
    ).1 <= usize::MAX
}

/// Whether the grid has `height` rows of `width` cells each.
pub open spec fn has_shape(grid: Seq<Seq<bool>>, width: int, height: int) -> bool {
    &&& grid.len() == height
    &&& forall|i: int| 0 <= i < grid.len() ==> (#[trigger] grid[i]).len() == width
}

/// Whether the grid has a live cell at row `i`, column `j`. Outside the grid
/// nothing lives.
pub open spec fn alive_at(grid: Seq<Seq<bool>>, i: int, j: int) -> bool {
    0 <= i < grid.len() && 0 <= j < grid[i].len() && grid[i][j]
}

/// 1 for a live cell, 0 for a dead one.
pub open spec fn one_if(alive: bool) -> nat {
    if alive {
        1
    } else {
        0
    }
}

/// How many of the eight cells around row `i`, column `j` are alive.
pub open spec fn live_neighbors(grid: Seq<Seq<bool>>, i: int, j: int) -> nat {
    one_if(alive_at(grid, i - 1, j - 1)) + one_if(alive_at(grid, i - 1, j)) + one_if(
        alive_at(grid, i - 1, j + 1),
    ) + one_if(alive_at(grid, i, j - 1)) + one_if(alive_at(grid, i, j + 1)) + one_if(
        alive_at(grid, i + 1, j - 1),
    ) + one_if(alive_at(grid, i + 1, j)) + one_if(alive_at(grid, i + 1, j + 1))
}

/// The rule: a live cell stays alive with two or three live neighbours, a
/// dead cell comes alive with exactly three.
pub open spec fn next_cell(alive: bool, neighbors: nat) -> bool {
    (alive && (neighbors == 2 || neighbors == 3)) || (!alive && neighbors == 3)
}

/// The next generation of a grid.
pub open spec fn next_grid(grid: Seq<Seq<bool>>) -> Seq<Seq<bool>> {
    Seq::new(
        grid.len(),
        |i: int| Seq::new(grid[i].len(), |j: int| next_cell(grid[i][j], live_neighbors(grid, i, j))),
    )
}

/// Whether no cell of the grid is alive.
pub open spec fn all_dead(grid: Seq<Seq<bool>>) -> bool {
    forall|i: int, j: int| 0 <= i < grid.len() && 0 <= j < grid[i].len() ==> !(#[trigger] grid[i][j])
}

/// Whether the live cells of the grid are exactly the block of two rows and
/// two columns whose upper left corner is row `top`, column `left`.
pub open spec fn is_lone_block(grid: Seq<Seq<bool>>, top: int, left: int) -> bool {
    &&& 0 <= top && top + 1 < grid.len()
    &&& 0 <= left && left + 1 < grid[top].len()
    &&& forall|i: int, j: int|
        0 <= i < grid.len() && 0 <= j < grid[i].len() ==> (#[trigger] grid[i][j] <==> (top <= i
            <= top + 1 && left <= j <= left + 1))
}

/// An empty board stays empty: no cell is born without three live neighbours.
pub proof fn lemma_dead_stays_dead(grid: Seq<Seq<bool>>)
    requires
        all_dead(grid),
    ensures
        all_dead(next_grid(grid)),
        next_grid(grid) == grid,
{
    let next = next_grid(grid);
    assert forall|i: int, j: int| 0 <= i < next.len() && 0 <= j < next[i].len() implies !(#[trigger] next[i][j]) by {
        assert(live_neighbors(grid, i, j) == 0);
    }
    assert forall|i: int| 0 <= i < grid.len() implies #[trigger] next[i] == grid[i] by {
        assert(next[i] =~= grid[i]);
    }
    assert(next =~= grid);
}

/// A block of two by two live cells, alone on a rectangular board, is a
/// still life: the next generation is the same board.
pub proof fn lemma_block_is_still(grid: Seq<Seq<bool>>, width: int, top: int, left: int)
    requires
        has_shape(grid, width, grid.len() as int),
        is_lone_block(grid, top, left),
    ensures
        next_grid(grid) == grid,
{
    let next = next_grid(grid);
    assert(grid[top].len() == width && grid[top + 1].len() == width);
    assert forall|a: int, b: int|
        #[trigger] alive_at(grid, a, b) == (top <= a <= top + 1 && left <= b <= left + 1) by {
        if 0 <= a < grid.len() {
            assert(grid[a].len() == width);
            if 0 <= b < width {
                assert(grid[a][b] <==> (top <= a <= top + 1 && left <= b <= left + 1));
            }
        }
    }
    assert forall|i: int| 0 <= i < grid.len() implies #[trigger] next[i] == grid[i] by {
        assert(grid[i].len() == width);
        assert(next[i] =~= grid[i]);
    }
    assert(next =~= grid);
}

/// `Rng::gen::<bool>` of rand, asked of the generator that `thread_rng`
/// hands out: a coin toss. Nothing is claimed of the outcome.
#[verifier::external_body]
fn random_cell() -> (alive: bool) {
    rand::thread_rng().gen::<bool>()
}

/// The board's width and height for a terminal, where the machine can hold
/// them.
pub fn grid_dimensions(cell_type: CellType, resolution: (usize, usize)) -> (r: Option<(usize, usize)>)
    ensures
        dimensions_fit(cell_type, resolution) ==> r == Some(
            (
                board_dimensions(cell_type, resolution).0 as usize,
                board_dimensions(cell_type, resolution).1 as usize,
            ),
        ),
        !dimensions_fit(cell_type, resolution) ==> r is None,
{
    let (w, h) = resolution;
    match cell_type {
        CellType::Big => Some((w / 2, h)),
        CellType::Small => {
            if h > usize::MAX / 2 {
                None
            } else {
                Some((w, h * 2))
            }
        },
        CellType::Braille => {
            if w > usize::MAX / 2 || h > usize::MAX / 4 {
                None
            } else {
                Some((w * 2, h * 4))
            }
        },
    }
}

/// The board's width and height for a terminal whose board the machine can
/// hold.
pub fn board_size(cell_type: CellType, resolution: (usize, usize)) -> (r: (usize, usize))
    requires
        dimensions_fit(cell_type, resolution),
    ensures
        r.0 == board_dimensions(cell_type, resolution).0,
        r.1 == board_dimensions(cell_type, resolution).1,
{
    let (w, h) = resolution;
    match cell_type {
        CellType::Big => (w / 2, h),
        CellType::Small => (w, h * 2),
        CellType::Braille => (w * 2, h * 4),
    }
}

/// A copy of a board.
pub fn copy_board(cells: &Vec<Vec<bool>>) -> (copy: Vec<Vec<bool>>)
    ensures
        rows_of(&copy) == rows_of(cells),
{
    let mut copy: Vec<Vec<bool>> = Vec::new();
    let mut i: usize = 0;
    while i < cells.len()
        invariant
            i <= cells@.len(),
            copy@.len() == i,
            forall|k: int| 0 <= k < i ==> (#[trigger] copy@[k])@ == cells@[k]@,
        decreases cells@.len() - i,
    {
        let mut row: Vec<bool> = Vec::new();
        let mut j: usize = 0;
        while j < cells[i].len()
            invariant
                i < cells@.len(),
                j <= cells@[i as int]@.len(),
                row@ == cells@[i as int]@.take(j as int),
            decreases cells@[i as int]@.len() - j,
        {
            row.push(cells[i][j]);
            assert(row@ =~= cells@[i as int]@.take(j + 1));
            j += 1;
        }
        assert(row@ =~= cells@[i as int]@);
        copy.push(row);
        i += 1;
    }
    assert(rows_of(&copy) =~= rows_of(cells));
    copy
}

/// A board of `height` rows and `width` columns, each cell a coin toss.
pub fn random_board(width: usize, height: usize) -> (cells: Vec<Vec<bool>>)
    ensures
        has_shape(rows_of(&cells), width as int, height as int),
{
    let mut cells: Vec<Vec<bool>> = Vec::new();
    let mut i: usize = 0;
    while i < height
        invariant
            i <= height,
            has_shape(rows_of(&cells), width as int, i as int),
        decreases height - i,
    {
        let mut row: Vec<bool> = Vec::new();
        let mut j: usize = 0;
        while j < width
            invariant
                j <= width,
                row@.len() == j,
            decreases width - j,
        {
            row.push(random_cell());
            j += 1;
        }
        let ghost above = rows_of(&cells);
        cells.push(row);
        proof {
            assert forall|k: int| 0 <= k < rows_of(&cells).len() implies (#[trigger] rows_of(&cells)[k]).len()
                == width by {
                if k < i {
                    assert(rows_of(&cells)[k] == above[k]);
                }
            }
        }
        i += 1;
    }
    cells
}

/// Whether two boards hold the same cells.
pub fn same_board(a: &Vec<Vec<bool>>, b: &Vec<Vec<bool>>) -> (same: bool)
    ensures
        same == (rows_of(a) == rows_of(b)),
{
    if a.len() != b.len() {
        assert(rows_of(a).len() != rows_of(b).len());
        return false;
    }
    let mut i: usize = 0;
    while i < a.len()
        invariant
            i <= a@.len(),
            a@.len() == b@.len(),
            forall|k: int| 0 <= k < i ==> (#[trigger] a@[k])@ == b@[k]@,
        decreases a@.len() - i,
    {
        if a[i].len() != b[i].len() {
            assert(rows_of(a)[i as int] != rows_of(b)[i as int]);
            return false;
        }
        let mut j: usize = 0;
        while j < a[i].len()
            invariant
                i < a@.len(),
                a@.len() == b@.len(),
                a@[i as int]@.len() == b@[i as int]@.len(),
                j <= a@[i as int]@.len(),
                forall|k: int| 0 <= k < j ==> a@[i as int]@[k] == b@[i as int]@[k],
            decreases a@[i as int]@.len() - j,
        {
            if a[i][j] != b[i][j] {
                assert(rows_of(a)[i as int][j as int] != rows_of(b)[i as int][j as int]);
                return false;
            }
            j += 1;
        }
        assert(a@[i as int]@ =~= b@[i as int]@);
        i += 1;
    }
    assert(rows_of(a) =~= rows_of(b));
    true
}

/// A game of life shown in a terminal.
#[derive(Debug)]
pub struct Game {
    cells: Vec<Vec<bool>>,
    cell_type: CellType,
    alive_color: Color,
    dead_color: Color,
    resolution: (usize, usize),
    last_board: Vec<Vec<bool>>,
    board_before_last: Vec<Vec<bool>>,
}

impl Game {
    /// The board, row by row.
    pub closed spec fn grid(&self) -> Seq<Seq<bool>> {
        rows_of(&self.cells)
    }

    /// How cells are packed into characters.
    pub closed spec fn mode(&self) -> CellType {
        self.cell_type
    }

    /// The colour of live cells.
    pub closed spec fn alive(&self) -> Color {
        self.alive_color
    }

    /// The colour of dead cells.
    pub closed spec fn dead(&self) -> Color {
        self.dead_color
    }

    /// The terminal's width and height in characters when the board was last
    /// laid out.
    pub closed spec fn terminal(&self) -> (usize, usize) {
        self.resolution
    }

    /// The two boards before this one, the more recent first. Before the
    /// first two ticks the missing boards are empty.
    pub closed spec fn history(&self) -> Seq<Seq<Seq<bool>>> {
        seq![rows_of(&self.last_board), rows_of(&self.board_before_last)]
    }

    /// The invariant: the board has the size that the terminal and the cell
    /// type give it.
    pub open spec fn wf(&self) -> bool {
        &&& dimensions_fit(self.mode(), self.terminal())
        &&& has_shape(
            self.grid(),
            board_dimensions(self.mode(), self.terminal()).0,
            board_dimensions(self.mode(), self.terminal()).1,
        )
        &&& self.history().len() == 2
    }

    /// Whether the next tick seeds the board anew: the terminal has another
    /// size now, or the board is the one of two ticks ago.
    pub open spec fn must_reseed(&self, current_resolution: (usize, usize)) -> bool {
        current_resolution != self.terminal() || self.grid() == self.history()[1]
    }

    /// A game on the given board, where the board has the size that the
    /// terminal and the cell type ask for.
    pub fn from_cells(
        cell_type: CellType,
        alive_color: Color,
        dead_color: Color,
        resolution: (usize, usize),
        cells: Vec<Vec<bool>>,
    ) -> (r: Option<Game>)
        ensures
            r is Some <==> dimensions_fit(cell_type, resolution) && has_shape(
                rows_of(&cells),
                board_dimensions(cell_type, resolution).0,
                board_dimensions(cell_type, resolution).1,
            ),
            r matches Some(game) ==> {
                &&& game.wf()
                &&& game.grid() == rows_of(&cells)
                &&& game.mode() == cell_type
                &&& game.alive() == alive_color
                &&& game.dead() == dead_color
                &&& game.terminal() == resolution
                &&& game.history() == seq![Seq::<Seq<bool>>::empty(), Seq::<Seq<bool>>::empty()]
            },
    {
        let (w, h) = match grid_dimensions(cell_type, resolution) {
            Some(dimensions) => dimensions,
            None => {
                return None;
            },
        };
        if cells.len() != h {
            assert(rows_of(&cells).len() != h);
            return None;
        }
        let mut i: usize = 0;
        while i < h
            invariant
                i <= h == cells@.len(),
                dimensions_fit(cell_type, resolution),
                w == board_dimensions(cell_type, resolution).0,
                h == board_dimensions(cell_type, resolution).1,
                forall|k: int| 0 <= k < i ==> (#[trigger] rows_of(&cells)[k]).len() == w,
            decreases h - i,
        {
            if cells[i].len() != w {
                assert(rows_of(&cells)[i as int].len() != w);
                return None;
            }
            i += 1;
        }
        let game = Game {
            cells,
            cell_type,
            alive_color,
            dead_color,
            resolution,
            last_board: Vec::new(),
            board_before_last: Vec::new(),
        };
        assert(rows_of(&game.last_board) =~= Seq::<Seq<bool>>::empty());
        assert(rows_of(&game.board_before_last) =~= Seq::<Seq<bool>>::empty());
        Some(game)
    }

    /// A game on a random board for a terminal of `resolution` (width,
    /// height) characters.
    pub fn new(cell_type: CellType, alive_color: Color, dead_color: Color, resolution: (usize, usize)) -> (game: Game)
        requires
            dimensions_fit(cell_type, resolution),
        ensures
            game.wf(),
            game.mode() == cell_type,
            game.alive() == alive_color,
            game.dead() == dead_color,
            game.terminal() == resolution,
            game.history() == seq![Seq::<Seq<bool>>::empty(), Seq::<Seq<bool>>::empty()],
    {
        let mut game = Game {
            cells: Vec::new(),
            cell_type,
            alive_color,
            dead_color,
            resolution,
            last_board: Vec::new(),
            board_before_last: Vec::new(),
        };
        assert(rows_of(&game.last_board) =~= Seq::<Seq<bool>>::empty());
        assert(rows_of(&game.board_before_last) =~= Seq::<Seq<bool>>::empty());
        game.setup();
        game
    }

    /// Lays the board out for the terminal's size and tosses a coin for each
    /// cell.
    pub fn setup(&mut self)
        requires
            dimensions_fit(old(self).mode(), old(self).terminal()),
        ensures
            final(self).wf(),
            final(self).mode() == old(self).mode(),
            final(self).alive() == old(self).alive(),
            final(self).dead() == old(self).dead(),
            final(self).terminal() == old(self).terminal(),
            final(self).history() == old(self).history(),
    {
        let (w, h) = self.calculate_board_dimensions();
        self.cells = random_board(w, h);
    }

    /// The board's width and height in cells.
    pub fn calculate_board_dimensions(&self) -> (r: (usize, usize))
        requires
            dimensions_fit(self.mode(), self.terminal()),
        ensures
            r.0 == board_dimensions(self.mode(), self.terminal()).0,
            r.1 == board_dimensions(self.mode(), self.terminal()).1,
    {
        board_size(self.cell_type, self.resolution)
    }

    /// The board, row by row.
    pub fn cells(&self) -> (cells: &Vec<Vec<bool>>)
        ensures
            rows_of(cells) == self.grid(),
    {
        &self.cells
    }

    /// The board of one tick ago.
    pub fn last_board(&self) -> (cells: &Vec<Vec<bool>>)
        ensures
            rows_of(cells) == self.history()[0],
    {
        &self.last_board
    }

    /// The board of two ticks ago.
    pub fn board_before_last(&self) -> (cells: &Vec<Vec<bool>>)
        ensures
            rows_of(cells) == self.history()[1],
    {
        &self.board_before_last
    }

    /// How cells are packed into characters.
    pub fn cell_type(&self) -> (cell_type: CellType)
        ensures
            cell_type == self.mode(),
    {
        self.cell_type
    }

    /// The colour of live cells.
    pub fn alive_color(&self) -> (color: Color)
        ensures
            color == self.alive(),
    {
        self.alive_color
    }

    /// The colour of dead cells.
    pub fn dead_color(&self) -> (color: Color)
        ensures
            color == self.dead(),
    {
        self.dead_color
    }

    /// The terminal's size that the board is laid out for.
    pub fn resolution(&self) -> (resolution: (usize, usize))
        ensures
            resolution == self.terminal(),
    {
        self.resolution
    }

    /// Whether the cell at row `i`, column `j` is on the board and alive.
    pub fn is_alive(&self, i: usize, j: usize) -> (alive: bool)
        ensures
            alive == alive_at(self.grid(), i as int, j as int),
    {
        i < self.cells.len() && j < self.cells[i].len() && self.cells[i][j]
    }

    /// How many of the eight cells around row `i`, column `j` are alive.
    /// Cells beyond the board's edge count as dead.
    pub fn count_neighbors(&self, i: usize, j: usize) -> (count: usize)
        ensures
            count == live_neighbors(self.grid(), i as int, j as int),
            count <= 8,
    {
        let up = i > 0;
        let down = i < usize::MAX;
        let left = j > 0;
        let right = j < usize::MAX;
        let mut count: usize = 0;
        proof {
            let grid = self.grid();
            assert(grid.len() == self.cells.len());
            assert forall|k: int| 0 <= k < grid.len() implies (#[trigger] grid[k]).len() <= usize::MAX by {
                assert(grid[k].len() == self.cells@[k].len());
            }
        }
        if up && left && self.is_alive(i - 1, j - 1) {
            count += 1;
        }
        if up && self.is_alive(i - 1, j) {
            count += 1;
        }
        if up && right && self.is_alive(i - 1, j + 1) {
            count += 1;
        }
        if left && self.is_alive(i, j - 1) {
            count += 1;
        }
        if right && self.is_alive(i, j + 1) {
            count += 1;
        }
        if down && left && self.is_alive(i + 1, j - 1) {
            count += 1;
        }
        if down && self.is_alive(i + 1, j) {
            count += 1;
        }
        if down && right && self.is_alive(i + 1, j + 1) {
            count += 1;
        }
        count
    }

    /// The next generation of the board.
    pub fn next_generation(&self) -> (next_gen: Vec<Vec<bool>>)
        ensures
            rows_of(&next_gen) == next_grid(self.grid()),
    {
        let mut next_gen: Vec<Vec<bool>> = Vec::new();
        let mut i: usize = 0;
        while i < self.cells.len()
            invariant
                i <= self.cells@.len(),
                next_gen@.len() == i,
                forall|k: int| 0 <= k < i ==> (#[trigger] next_gen@[k])@ == next_grid(self.grid())[k],
            decreases self.cells@.len() - i,
        {
            let mut row: Vec<bool> = Vec::new();
            let mut j: usize = 0;
            while j < self.cells[i].len()
                invariant
                    i < self.cells@.len(),
                    j <= self.cells@[i as int]@.len(),
                    row@.len() == j,
                    forall|k: int| 0 <= k < j ==> #[trigger] row@[k] == next_grid(self.grid())[i as int][k],
                decreases self.cells@[i as int]@.len() - j,
            {
                let neighbors = self.count_neighbors(i, j);
                let alive = self.cells[i][j];
                row.push((alive && (neighbors == 2 || neighbors == 3)) || (!alive && neighbors == 3));
                j += 1;
            }
            assert(row@ =~= next_grid(self.grid())[i as int]);
            next_gen.push(row);
            i += 1;
        }
        assert(rows_of(&next_gen) =~= next_grid(self.grid()));
        next_gen
    }

    /// Whether the next tick seeds the board anew.
    pub fn needs_reseed(&self, current_resolution: (usize, usize)) -> (reseed: bool)
        ensures
            reseed == self.must_reseed(current_resolution),
    {
        current_resolution.0 != self.resolution.0 || current_resolution.1 != self.resolution.1
            || same_board(&self.cells, &self.board_before_last)
    }

    /// Makes `next` the board, laid out for a terminal of `resolution`, and
    /// moves the board that was shown into the history, whose older entry
    /// leaves.
    pub fn replace_board(&mut self, resolution: (usize, usize), next: Vec<Vec<bool>>)
        requires
            dimensions_fit(old(self).mode(), resolution),
            has_shape(
                rows_of(&next),
                board_dimensions(old(self).mode(), resolution).0,
                board_dimensions(old(self).mode(), resolution).1,
            ),
        ensures
            final(self).wf(),
            final(self).grid() == rows_of(&next),
            final(self).terminal() == resolution,
            final(self).history() == seq![old(self).grid(), old(self).history()[0]],
            final(self).mode() == old(self).mode(),
            final(self).alive() == old(self).alive(),
            final(self).dead() == old(self).dead(),
    {
        std::mem::swap(&mut self.board_before_last, &mut self.last_board);
        std::mem::swap(&mut self.last_board, &mut self.cells);
        self.cells = next;
        self.resolution = resolution;
    }

    /// One tick. Where the terminal has another size than the board was laid
    /// out for, or the board is the one of two ticks ago, the board is laid
    /// out for the terminal as it is now and seeded at random; else the next
    /// generation takes its place. Either way the board that was shown moves
    /// into the history.
    pub fn update(&mut self, current_resolution: (usize, usize))
        requires
            old(self).wf(),
            dimensions_fit(old(self).mode(), current_resolution),
        ensures
            final(self).wf(),
            final(self).terminal() == current_resolution,
            final(self).history() == seq![old(self).grid(), old(self).history()[0]],
            final(self).mode() == old(self).mode(),
            final(self).alive() == old(self).alive(),
            final(self).dead() == old(self).dead(),
            !old(self).must_reseed(current_resolution) ==> final(self).grid() == next_grid(old(self).grid()),
    {
        if self.needs_reseed(current_resolution) {
            let (w, h) = board_size(self.cell_type, current_resolution);
            let fresh = random_board(w, h);
            self.replace_board(current_resolution, fresh);
        } else {
            let next_gen = self.next_generation();
            proof {
                lemma_next_keeps_shape(self.grid());
            }
            self.replace_board(current_resolution, next_gen);
        }
    }
}

/// The next generation has the shape of the grid it comes from.
pub proof fn lemma_next_keeps_shape(grid: Seq<Seq<bool>>)
    ensures
        next_grid(grid).len() == grid.len(),
        forall|i: int| 0 <= i < grid.len() ==> (#[trigger] next_grid(grid)[i]).len() == grid[i].len(),
{
}

} // verus!
