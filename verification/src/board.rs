//! The playfield: a fixed-size, row-major grid and the tiles it holds.

use vstd::prelude::*;

verus! {

/// `#`
pub const WALL_BYTE: u8 = 0x23;

/// `@`
pub const PLAYER_BYTE: u8 = 0x40;

/// `+`
pub const PLAYER_ON_GOAL_BYTE: u8 = 0x2b;

/// `$`
pub const BOX_BYTE: u8 = 0x24;

/// `*`
pub const BOX_ON_GOAL_BYTE: u8 = 0x2a;

/// `.`
pub const GOAL_BYTE: u8 = 0x2e;

/// A blank.
pub const FLOOR_BYTE: u8 = 0x20;

/// One tile of the playfield.
#[derive(Clone, Copy, Debug, PartialEq, Eq, Structural)]
pub enum Cell {
    Wall,
    Player,
    PlayerOnGoal,
    Box,
    BoxOnGoal,
    Goal,
    Floor,
}

impl Cell {
    /// The character that stands for this tile in a level's text.
    pub open spec fn byte(self) -> u8 {
        match self {
            Cell::Wall => WALL_BYTE,
            Cell::Player => PLAYER_BYTE,
            Cell::PlayerOnGoal => PLAYER_ON_GOAL_BYTE,
            Cell::Box => BOX_BYTE,
            Cell::BoxOnGoal => BOX_ON_GOAL_BYTE,
            Cell::Goal => GOAL_BYTE,
            Cell::Floor => FLOOR_BYTE,
        }
    }

    /// The tile that a character of a level's text stands for, if any.
    pub open spec fn of_byte(byte: u8) -> Option<Cell> {
        if byte == WALL_BYTE {
            Some(Cell::Wall)
        } else if byte == PLAYER_BYTE {
            Some(Cell::Player)
        } else if byte == PLAYER_ON_GOAL_BYTE {
            Some(Cell::PlayerOnGoal)
        } else if byte == BOX_BYTE {
            Some(Cell::Box)
        } else if byte == BOX_ON_GOAL_BYTE {
            Some(Cell::BoxOnGoal)
        } else if byte == GOAL_BYTE {
            Some(Cell::Goal)
        } else if byte == FLOOR_BYTE {
            Some(Cell::Floor)
        } else {
            None
        }
    }

    /// The character that stands for this tile.
    pub fn to_byte(self) -> (byte: u8)
        ensures
            byte == self.byte(),
    {
        match self {
            Cell::Wall => WALL_BYTE,
            Cell::Player => PLAYER_BYTE,
            Cell::PlayerOnGoal => PLAYER_ON_GOAL_BYTE,
            Cell::Box => BOX_BYTE,
            Cell::BoxOnGoal => BOX_ON_GOAL_BYTE,
            Cell::Goal => GOAL_BYTE,
            Cell::Floor => FLOOR_BYTE,
        }
    }

    /// The tile that `byte` stands for, or nothing where it stands for none.
    pub fn from_byte(byte: u8) -> (cell: Option<Cell>)
        ensures
            cell == Cell::of_byte(byte),
    {
        if byte == WALL_BYTE {
            Some(Cell::Wall)
        } else if byte == PLAYER_BYTE {
            Some(Cell::Player)
        } else if byte == PLAYER_ON_GOAL_BYTE {
            Some(Cell::PlayerOnGoal)
        } else if byte == BOX_BYTE {
            Some(Cell::Box)
        } else if byte == BOX_ON_GOAL_BYTE {
            Some(Cell::BoxOnGoal)
        } else if byte == GOAL_BYTE {
            Some(Cell::Goal)
        } else if byte == FLOOR_BYTE {
            Some(Cell::Floor)
        } else {
            None
        }
    }
}

impl Default for Cell {
    fn default() -> (cell: Cell)
        ensures
            cell == Cell::Floor,
    {
        Cell::Floor
    }
}

/// Every tile is recovered from its own character.
pub proof fn lemma_cell_byte_round_trip(cell: Cell)
    ensures
        Cell::of_byte(cell.byte()) == Some(cell),
{
}

/// A character stands for at most one tile, and that tile is written back as
/// the same character.
pub proof fn lemma_byte_cell_round_trip(byte: u8)
    ensures
        Cell::of_byte(byte) matches Some(cell) ==> cell.byte() == byte,
{
}

/// What a board holds: its dimensions and its cells, row after row.
pub struct Grid<T> {
    pub width: nat,
    pub height: nat,
    pub cells: Seq<T>,
}

impl<T> Grid<T> {
    /// There is exactly one cell for each position.
    pub open spec fn wf(self) -> bool {
        self.cells.len() == self.width * self.height
    }

    /// Whether `(row, col)` is a position of the grid.
    pub open spec fn contains(self, row: int, col: int) -> bool {
        0 <= row < self.height && 0 <= col < self.width
    }

    /// Where the cell at `(row, col)` lies among `cells`.
    pub open spec fn offset(self, row: int, col: int) -> int {
        row * self.width + col
    }

    /// The cell at `(row, col)`.
    pub open spec fn at(self, row: int, col: int) -> T {
        self.cells[self.offset(row, col)]
    }

    /// The cells of one row, left to right.
    pub open spec fn row(self, row: int) -> Seq<T> {
        self.cells.subrange(self.offset(row, 0), self.offset(row, 0) + self.width)
    }

    /// All rows, top to bottom.
    pub open spec fn rows(self) -> Seq<Seq<T>> {
        Seq::new(self.height, |row: int| self.row(row))
    }

    /// The grid with the cell at `(row, col)` replaced by `value`.
    pub open spec fn with_cell(self, row: int, col: int, value: T) -> Grid<T> {
        Grid { cells: self.cells.update(self.offset(row, col), value), ..self }
    }

    /// The grid of the given dimensions whose cell at `(row, col)` is
    /// `cell(row, col)`.
    pub open spec fn from_fn(width: nat, height: nat, cell: spec_fn(int, int) -> T) -> Grid<T> {
        Grid {
            width,
            height,
            cells: Seq::new(width * height, |i: int| cell(i / (width as int), i % (width as int))),
        }
    }

    /// The grid of the given dimensions that holds `value` everywhere.
    pub open spec fn filled(width: nat, height: nat, value: T) -> Grid<T> {
        Grid { width, height, cells: Seq::new(width * height, |i: int| value) }
    }
}

/// Whether `value` is one that `T::default()` may return.
pub open spec fn is_default<T: Default>(value: T) -> bool {
    call_ensures(T::default, (), value)
}

/// The rows of a grid lie inside its cells, one after the other.
pub proof fn lemma_row_bounds(width: nat, height: nat, row: int)
    requires
        0 <= row < height,
    ensures
        0 <= row * width,
        row * width + width <= width * height,
{
    assert(0 <= row * width && row * width + width <= width * height) by (nonlinear_arith)
        requires
            0 <= row < height,
            0 <= width,
    ;
}

/// Each position of a grid has a cell of its own.
pub proof fn lemma_offset_bounds(width: nat, height: nat, row: int, col: int)
    requires
        0 <= row < height,
        0 <= col < width,
    ensures
        0 <= row * width + col < width * height,
{
    lemma_row_bounds(width, height, row);
}

/// A cell's place among the stored cells tells its row and its column.
pub proof fn lemma_offset_split(width: nat, row: int, col: int)
    requires
        0 <= row,
        0 <= col < width,
    ensures
        (row * width + col) / (width as int) == row,
        (row * width + col) % (width as int) == col,
{
    vstd::arithmetic::div_mod::lemma_fundamental_div_mod_converse(
        row * width + col,
        width as int,
        row,
        col,
    );
}

/// The position that a stored cell belongs to.
pub proof fn lemma_offset_position(width: nat, height: nat, offset: int)
    requires
        0 <= offset < width * height,
    ensures
        width > 0,
        0 <= offset / (width as int) < height,
        0 <= offset % (width as int) < width,
        (offset / (width as int)) * width + offset % (width as int) == offset,
{
    assert(width > 0) by (nonlinear_arith)
        requires
            0 <= offset < width * height,
    ;
    let row = offset / (width as int);
    let col = offset % (width as int);
    vstd::arithmetic::div_mod::lemma_fundamental_div_mod(offset, width as int);
    assert(0 <= row < height) by (nonlinear_arith)
        requires
            0 <= offset < width * height,
            0 <= col < width,
            offset == width * row + col,
    ;
    assert(width * row == row * width) by (nonlinear_arith);
}

/// Two grids of the same dimensions that agree at every position are equal.
pub proof fn lemma_grid_equal<T>(a: Grid<T>, b: Grid<T>)
    requires
        a.wf(),
        b.wf(),
        a.width == b.width,
        a.height == b.height,
        forall|row: int, col: int| a.contains(row, col) ==> a.at(row, col) == b.at(row, col),
    ensures
        a == b,
{
    assert forall|i: int| 0 <= i < a.cells.len() implies a.cells[i] == b.cells[i] by {
        lemma_offset_position(a.width, a.height, i);
        let row = i / (a.width as int);
        let col = i % (a.width as int);
        assert(a.contains(row, col));
        assert(a.at(row, col) == b.at(row, col));
    }
    assert(a.cells =~= b.cells);
}

/// A grid built from a rule holds at each position what the rule gives there.
pub proof fn lemma_from_fn_at<T>(
    width: nat,
    height: nat,
    cell: spec_fn(int, int) -> T,
    row: int,
    col: int,
)
    requires
        0 <= row < height,
        0 <= col < width,
    ensures
        Grid::from_fn(width, height, cell).wf(),
        Grid::from_fn(width, height, cell).at(row, col) == cell(row, col),
{
    lemma_offset_bounds(width, height, row, col);
    lemma_offset_split(width, row, col);
}

/// Writing one cell changes that position and no other.
pub proof fn lemma_with_cell_at<T>(grid: Grid<T>, row: int, col: int, value: T, r: int, c: int)
    requires
        grid.wf(),
        grid.contains(row, col),
        grid.contains(r, c),
    ensures
        grid.with_cell(row, col, value).wf(),
        grid.with_cell(row, col, value).at(r, c) == if r == row && c == col {
            value
        } else {
            grid.at(r, c)
        },
{
    lemma_offset_bounds(grid.width, grid.height, row, col);
    lemma_offset_bounds(grid.width, grid.height, r, c);
    lemma_offset_split(grid.width, row, col);
    lemma_offset_split(grid.width, r, c);
}

/// A grid filled with one value holds that value at every position.
pub proof fn lemma_filled_at<T>(width: nat, height: nat, value: T, row: int, col: int)
    requires
        0 <= row < height,
        0 <= col < width,
    ensures
        Grid::filled(width, height, value).at(row, col) == value,
{
    lemma_offset_bounds(width, height, row, col);
}

/// A row is as long as the grid is wide, and its cells are the grid's cells at
/// the positions of that row.
pub proof fn lemma_row_cells<T>(grid: Grid<T>, row: int)
    requires
        grid.wf(),
        0 <= row < grid.height,
    ensures
        grid.row(row).len() == grid.width,
        forall|col: int| 0 <= col < grid.width ==> grid.row(row)[col] == grid.at(row, col),
{
    lemma_row_bounds(grid.width, grid.height, row);
}

/// The first `count` rows, one after the other, are the cells stored before
/// row `count`.
pub proof fn lemma_rows_prefix<T>(grid: Grid<T>, count: int)
    requires
        grid.wf(),
        0 <= count <= grid.height,
    ensures
        0 <= count * grid.width <= grid.cells.len(),
        grid.rows().take(count).flatten() == grid.cells.subrange(0, count * grid.width),
    decreases count,
{
    if count == 0 {
        assert(grid.rows().take(0) =~= Seq::<Seq<T>>::empty());
        assert(grid.cells.subrange(0, 0) =~= Seq::<T>::empty());
    } else {
        let before = count - 1;
        lemma_rows_prefix(grid, before);
        lemma_row_bounds(grid.width, grid.height, before);
        assert(count * grid.width == before * grid.width + grid.width) by (nonlinear_arith)
            requires
                before == count - 1,
        ;
        assert(grid.rows().take(count) =~= grid.rows().take(before).push(grid.row(before)));
        grid.rows().take(before).lemma_flatten_push(grid.row(before));
        assert(grid.cells.subrange(0, count * grid.width) =~= grid.cells.subrange(
            0,
            before * grid.width,
        ) + grid.row(before));
    }
}

/// Walking a grid row by row, and each row from left to right, visits the
/// cells in the order in which they are stored.
pub proof fn lemma_rows_flatten<T>(grid: Grid<T>)
    requires
        grid.wf(),
    ensures
        grid.rows().flatten() == grid.cells,
{
    lemma_rows_prefix(grid, grid.height as int);
    assert(grid.rows().take(grid.height as int) =~= grid.rows());
    assert(grid.height * grid.width == grid.width * grid.height) by (nonlinear_arith);
    assert(grid.cells.subrange(0, grid.cells.len() as int) =~= grid.cells);
}

/// A fixed-size grid of cells, stored row after row.
#[derive(Debug)]
pub struct Board<T> {
    cells: Vec<T>,
    width: usize,
    height: usize,
}

impl<T> View for Board<T> {
    type V = Grid<T>;

    closed spec fn view(&self) -> Grid<T> {
        Grid { width: self.width as nat, height: self.height as nat, cells: self.cells@ }
    }
}

impl<T: Clone> Clone for Board<T> {
    /// A board of the same dimensions whose cells are clones of this one's.
    fn clone(&self) -> (copy: Self)
        ensures
            copy.wf(),
            copy@.width == self@.width,
            copy@.height == self@.height,
            copy@.cells.len() == self@.cells.len(),
            forall|i: int|
                0 <= i < self@.cells.len() ==> cloned(#[trigger] self@.cells[i], copy@.cells[i]),
    {
        proof {
            use_type_invariant(self);
        }
        Board { cells: self.cells.clone(), width: self.width, height: self.height }
    }
}

/// The cells of a board can be counted by the machine.
pub proof fn lemma_board_fits<T>(board: Board<T>)
    requires
        board.wf(),
    ensures
        board@.width * board@.height <= usize::MAX,
{
    assert(board.cells@.len() == board.cells.len());
}

impl<T> Board<T> {
    /// There is exactly one stored cell for each position. This holds of every
    /// board that a program holds.
    #[verifier::type_invariant]
    spec fn one_cell_each(&self) -> bool {
        self.cells@.len() == self.width * self.height
    }

    /// The board holds one cell for each of its positions. Every function that
    /// gives out a board, or tells something of one, promises this of it.
    pub open spec fn wf(&self) -> bool {
        self@.wf()
    }

    /// A board of the given dimensions with the default value in every cell.
    pub fn new(width: usize, height: usize) -> (board: Self) where T: Copy + Default
        requires
            width * height <= usize::MAX,
        ensures
            board.wf(),
            board@.width == width,
            board@.height == height,
            forall|row: int, col: int|
                board@.contains(row, col) ==> is_default(#[trigger] board@.at(row, col)),
            exists|value: T| is_default(value) && board@ == Grid::filled(
                width as nat,
                height as nat,
                value,
            ),
    {
        let value = T::default();
        let board = Self::filled(width, height, value);
        assert(is_default(value) && board@ == Grid::filled(width as nat, height as nat, value));
        assert forall|row: int, col: int| board@.contains(row, col) implies is_default(
            #[trigger] board@.at(row, col),
        ) by {
            lemma_filled_at(width as nat, height as nat, value, row, col);
        }
        board
    }

    /// A board of the given dimensions with `value` in every cell.
    pub fn filled(width: usize, height: usize, value: T) -> (board: Self) where T: Copy
        requires
            width * height <= usize::MAX,
        ensures
            board.wf(),
            board@ == Grid::filled(width as nat, height as nat, value),
    {
        let count: usize = width * height;
        let mut cells: Vec<T> = Vec::new();
        let mut filled: usize = 0;
        while filled < count
            invariant
                filled <= count,
                cells@.len() == filled,
                forall|i: int| 0 <= i < filled ==> cells@[i] == value,
            decreases count - filled,
        {
            cells.push(value);
            filled += 1;
        }
        assert(cells@ =~= Seq::new((width * height) as nat, |i: int| value));
        Board { cells, width, height }
    }

    /// The number of rows.
    pub fn height(&self) -> (height: usize)
        ensures
            self.wf(),
            height == self@.height,
    {
        proof {
            use_type_invariant(self);
        }
        self.height
    }

    /// The number of columns.
    pub fn width(&self) -> (width: usize)
        ensures
            self.wf(),
            width == self@.width,
    {
        proof {
            use_type_invariant(self);
        }
        self.width
    }

    /// The cells of row `index`, left to right.
    pub fn row(&self, index: usize) -> (row: &[T])
        requires
            index < self@.height,
        ensures
            self.wf(),
            row@ == self@.row(index as int),
    {
        proof {
            use_type_invariant(self);
            lemma_row_bounds(self.width as nat, self.height as nat, index as int);
            assert(self.cells@.len() == self.cells.len());
        }
        let start: usize = index * self.width;
        vstd::slice::slice_subrange(self.cells.as_slice(), start, start + self.width)
    }

    /// The cell at `(row, col)`.
    pub fn get(&self, row: usize, col: usize) -> (cell: &T)
        requires
            self@.contains(row as int, col as int),
        ensures
            self.wf(),
            *cell == self@.at(row as int, col as int),
    {
        proof {
            use_type_invariant(self);
            lemma_row_bounds(self.width as nat, self.height as nat, row as int);
            assert(self.cells@.len() == self.cells.len());
        }
        &self.cells[row * self.width + col]
    }

    /// Writes `value` into the cell at `(row, col)`.
    pub fn set(&mut self, row: usize, col: usize, value: T)
        requires
            old(self)@.contains(row as int, col as int),
        ensures
            old(self).wf(),
            final(self).wf(),
            final(self)@ == old(self)@.with_cell(row as int, col as int, value),
    {
        proof {
            use_type_invariant(&*self);
            lemma_row_bounds(self.width as nat, self.height as nat, row as int);
            assert(self.cells@.len() == self.cells.len());
        }
        let offset: usize = row * self.width + col;
        self.cells[offset] = value;
    }

    /// All cells in the order in which they are stored: row after row.
    pub fn cells(&self) -> (cells: &[T])
        ensures
            self.wf(),
            cells@ == self@.cells,
    {
        proof {
            use_type_invariant(self);
        }
        self.cells.as_slice()
    }

    /// Gives up the board for its cells, in the order in which they are stored.
    pub fn into_cells(self) -> (cells: Vec<T>)
        ensures
            self.wf(),
            cells@ == self@.cells,
    {
        proof {
            use_type_invariant(&self);
        }
        self.cells
    }
}

impl Board<bool> {
    /// A small board for trying things out: two columns, three rows, the whole
    /// left column and the bottom right cell switched on.
    pub fn new_test_board() -> (board: Self)
        ensures
            board.wf(),
            board@ == (Grid {
                width: 2,
                height: 3,
                cells: seq![true, false, true, false, true, true],
            }),
    {
        let mut board: Board<bool> = Board::new(2, 3);
        board.set(2, 0, true);
        board.set(1, 0, true);
        board.set(0, 0, true);
        board.set(2, 1, true);
        assert(board@.cells =~= seq![true, false, true, false, true, true]);
        board
    }
}

} // verus!
