//! Levels as text: reading the declared dimensions and the rows of a level
//! into a board of tiles, and writing a board back out.

use crate::board::{lemma_board_fits, lemma_filled_at, lemma_from_fn_at};
use crate::board::{lemma_grid_equal, lemma_row_cells};
use crate::board::{Board, Cell, Grid};
use vstd::prelude::*;

verus! {

/// `+`, the sign that may stand before a dimension.
pub const SIGN_BYTE: u8 = 0x2b;

/// `0`
pub const ZERO_BYTE: u8 = 0x30;

/// `9`
pub const NINE_BYTE: u8 = 0x39;

/// The line feed that ends each row of a dump.
pub const NEWLINE_BYTE: u8 = 0x0a;

/// Why a level pack could not be loaded.
#[derive(Clone, Copy, Debug, PartialEq, Eq, Structural)]
pub enum LevelError {
    /// The file is not a well-formed document.
    MalformedDocument,
    /// The document has no `LevelCollection`.
    MissingCollection,
    /// An element stands where a `Level` or a row `L` was expected.
    UnexpectedElement,
    /// A level lacks its `Width` or its `Height`.
    MissingAttribute,
    /// A `Width` or `Height` is not a number that fits the machine.
    InvalidDimension,
    /// The declared dimensions give more cells than the machine can address.
    BoardTooLarge,
    /// A level has more rows than its `Height`.
    TooManyRows,
    /// A row has more characters than the level's `Width`.
    RowTooWide,
    /// A row element holds no text.
    MissingText,
    /// A row holds a character that stands for no tile.
    UnexpectedCharacter(u8),
}

impl LevelError {
    /// The words that `message` gives for each error.
    pub open spec fn message_text(self) -> Seq<char> {
        match self {
            LevelError::MalformedDocument => "level pack is not a well-formed document"@,
            LevelError::MissingCollection => "level pack has no LevelCollection element"@,
            LevelError::UnexpectedElement => "unexpected element in level pack"@,
            LevelError::MissingAttribute => "level lacks its Width or Height attribute"@,
            LevelError::InvalidDimension => "level has a Width or Height that is no number"@,
            LevelError::BoardTooLarge => "level is too large"@,
            LevelError::TooManyRows =>
                "level has more rows than specified by the Height attribute"@,
            LevelError::RowTooWide =>
                "level has more rows than specified by the Height attribute"@,
            LevelError::MissingText => "level has a row without text"@,
            LevelError::UnexpectedCharacter(_) => "unexpected character in level"@,
        }
    }

    /// A description for the user. A row that is too wide is reported in the
    /// same words as a level with too many rows.
    pub fn message(&self) -> (text: &'static str)
        ensures
            text@ == self.message_text(),
    {
        match self {
            LevelError::MalformedDocument => "level pack is not a well-formed document",
            LevelError::MissingCollection => "level pack has no LevelCollection element",
            LevelError::UnexpectedElement => "unexpected element in level pack",
            LevelError::MissingAttribute => "level lacks its Width or Height attribute",
            LevelError::InvalidDimension => "level has a Width or Height that is no number",
            LevelError::BoardTooLarge => "level is too large",
            LevelError::TooManyRows => "level has more rows than specified by the Height attribute",
            LevelError::RowTooWide => "level has more rows than specified by the Height attribute",
            LevelError::MissingText => "level has a row without text",
            LevelError::UnexpectedCharacter(_) => "unexpected character in level",
        }
    }
}

/// Whether `byte` is one of `0` to `9`.
pub open spec fn is_digit(byte: u8) -> bool {
    ZERO_BYTE <= byte <= NINE_BYTE
}

/// Whether `text` holds digits only.
pub open spec fn all_digits(text: Seq<u8>) -> bool {
    forall|i: int| 0 <= i < text.len() ==> is_digit(#[trigger] text[i])
}

/// The number that a string of digits denotes in base ten.
pub open spec fn decimal(digits: Seq<u8>) -> nat
    decreases digits.len(),
{
    if digits.len() == 0 {
        0
    } else {
        decimal(digits.drop_last()) * 10 + (digits.last() - ZERO_BYTE) as nat
    }
}

/// `text` without the sign that may stand before the digits.
pub open spec fn unsigned(text: Seq<u8>) -> Seq<u8> {
    if text.len() > 0 && text[0] == SIGN_BYTE {
        text.drop_first()
    } else {
        text
    }
}

/// The dimension that `text` declares: at least one digit, with nothing around
/// the digits but an optional `+` in front, and a value that fits a `usize`.
pub open spec fn dimension(text: Seq<u8>) -> Option<usize> {
    let digits = unsigned(text);
    if digits.len() > 0 && all_digits(digits) && decimal(digits) <= usize::MAX {
        Some(decimal(digits) as usize)
    } else {
        None
    }
}

/// The digits read so far never denote more than all the digits do.
pub proof fn lemma_decimal_prefix(digits: Seq<u8>, count: int)
    requires
        all_digits(digits),
        0 <= count <= digits.len(),
    ensures
        decimal(digits.take(count)) <= decimal(digits),
    decreases digits.len(),
{
    if count == digits.len() {
        assert(digits.take(count) =~= digits);
    } else {
        lemma_decimal_prefix(digits.drop_last(), count);
        assert(digits.drop_last().take(count) =~= digits.take(count));
        assert(is_digit(digits.last()));
    }
}

/// Reads a declared dimension.
pub fn parse_dimension(text: &[u8]) -> (value: Option<usize>)
    ensures
        value == dimension(text@),
{
    let start: usize = if text.len() > 0 && text[0] == SIGN_BYTE {
        1
    } else {
        0
    };
    let ghost digits = unsigned(text@);
    assert(digits =~= text@.skip(start as int));
    if start == text.len() {
        return None;
    }
    let mut value: usize = 0;
    let mut i: usize = start;
    assert(digits.take(0) =~= Seq::<u8>::empty());
    while i < text.len()
        invariant
            start <= i <= text.len(),
            digits == text@.skip(start as int),
            digits == unsigned(text@),
            all_digits(digits.take(i - start)),
            value == decimal(digits.take(i - start)),
        decreases text.len() - i,
    {
        let byte: u8 = text[i];
        let ghost read = digits.take(i - start + 1);
        assert(read.drop_last() =~= digits.take(i - start));
        assert(read.last() == byte);
        if byte < ZERO_BYTE || byte > NINE_BYTE {
            assert(!is_digit(digits[i - start]));
            return None;
        }
        assert(all_digits(read)) by {
            assert forall|k: int| 0 <= k < read.len() implies is_digit(#[trigger] read[k]) by {
                if k < i - start {
                    assert(read[k] == digits.take(i - start)[k]);
                }
            }
        }
        let digit: usize = (byte - ZERO_BYTE) as usize;
        let next: Option<usize> = match value.checked_mul(10) {
            Some(tens) => tens.checked_add(digit),
            None => None,
        };
        match next {
            Some(sum) => {
                value = sum;
            },
            None => {
                assert(decimal(read) > usize::MAX);
                proof {
                    if all_digits(digits) {
                        lemma_decimal_prefix(digits, i - start + 1);
                    }
                }
                return None;
            },
        }
        i += 1;
    }
    assert(digits.take(i - start) =~= digits);
    Some(value)
}

/// The tile that a character stands for, and a floor where it stands for none.
pub open spec fn tile(byte: u8) -> Cell {
    match Cell::of_byte(byte) {
        Some(cell) => cell,
        None => Cell::Floor,
    }
}

/// What is wrong with one character of a row, if anything.
pub open spec fn byte_fault(byte: u8) -> Option<LevelError> {
    if Cell::of_byte(byte) is None {
        Some(LevelError::UnexpectedCharacter(byte))
    } else {
        None
    }
}

/// The first fault in a sequence of findings, if there is one.
pub open spec fn first_fault(faults: Seq<Option<LevelError>>) -> Option<LevelError>
    decreases faults.len(),
{
    if faults.len() == 0 {
        None
    } else if faults[0] is Some {
        faults[0]
    } else {
        first_fault(faults.drop_first())
    }
}

/// Where nothing is at fault there is no first fault.
pub proof fn lemma_no_fault(faults: Seq<Option<LevelError>>)
    requires
        forall|i: int| 0 <= i < faults.len() ==> faults[i] is None,
    ensures
        first_fault(faults) is None,
    decreases faults.len(),
{
    if faults.len() > 0 {
        lemma_no_fault(faults.drop_first());
    }
}

/// A fault with nothing at fault before it is the first.
pub proof fn lemma_fault_at(faults: Seq<Option<LevelError>>, index: int)
    requires
        0 <= index < faults.len(),
        faults[index] is Some,
        forall|i: int| 0 <= i < index ==> faults[i] is None,
    ensures
        first_fault(faults) == faults[index],
    decreases index,
{
    if index > 0 {
        lemma_fault_at(faults.drop_first(), index - 1);
    }
}

/// What is wrong with the text of one row of a level `width` wide, if anything:
/// it is too long, or else the first of its characters that stands for no tile.
pub open spec fn row_fault(width: nat, text: Seq<u8>) -> Option<LevelError> {
    if text.len() > width {
        Some(LevelError::RowTooWide)
    } else {
        first_fault(text.map_values(|byte: u8| byte_fault(byte)))
    }
}

/// The tile at `(row, col)` of a level with the given rows of text: what the
/// text says there, and a floor where the text says nothing.
pub open spec fn level_cell(rows: Seq<Seq<u8>>, row: int, col: int) -> Cell {
    if 0 <= row < rows.len() && 0 <= col < rows[row].len() {
        tile(rows[row][col])
    } else {
        Cell::Floor
    }
}

/// The grid of a level with the given dimensions and rows of text.
pub open spec fn level_grid(width: nat, height: nat, rows: Seq<Seq<u8>>) -> Grid<Cell> {
    Grid::from_fn(width, height, |row: int, col: int| level_cell(rows, row, col))
}

/// What decoding a level gives: its grid, or the first thing wrong with it.
pub open spec fn decode_rows(width: nat, height: nat, rows: Seq<Seq<u8>>) -> Result<
    Grid<Cell>,
    LevelError,
> {
    if width * height > usize::MAX {
        Err(LevelError::BoardTooLarge)
    } else if rows.len() > height {
        Err(LevelError::TooManyRows)
    } else {
        match first_fault(rows.map_values(|text: Seq<u8>| row_fault(width, text))) {
            Some(fault) => Err(fault),
            None => Ok(level_grid(width, height, rows)),
        }
    }
}

/// The text of one row of tiles.
pub open spec fn encode_row(cells: Seq<Cell>) -> Seq<u8> {
    cells.map_values(|cell: Cell| cell.byte())
}

/// The rows of text that stand for a grid.
pub open spec fn encode_rows(grid: Grid<Cell>) -> Seq<Seq<u8>> {
    Seq::new(grid.height, |row: int| encode_row(grid.row(row)))
}

/// The first `count` rows of a grid as text, each followed by a line feed.
pub open spec fn dump_rows(grid: Grid<Cell>, count: nat) -> Seq<u8>
    decreases count,
{
    if count == 0 {
        Seq::empty()
    } else {
        dump_rows(grid, (count - 1) as nat) + encode_row(grid.row(count - 1)).push(NEWLINE_BYTE)
    }
}

/// A grid as text: its rows from top to bottom, each followed by a line feed.
pub open spec fn dump(grid: Grid<Cell>) -> Seq<u8> {
    dump_rows(grid, grid.height)
}

/// What each of the given buffers holds.
pub open spec fn texts(rows: Seq<Vec<u8>>) -> Seq<Seq<u8>> {
    rows.map_values(|row: Vec<u8>| row@)
}

/// A level's grid holds at each position the tile that the rows give there.
pub proof fn lemma_level_grid_at(
    width: nat,
    height: nat,
    rows: Seq<Seq<u8>>,
    row: int,
    col: int,
)
    requires
        0 <= row < height,
        0 <= col < width,
    ensures
        level_grid(width, height, rows).at(row, col) == level_cell(rows, row, col),
{
    lemma_from_fn_at(width, height, |r: int, c: int| level_cell(rows, r, c), row, col);
}

/// Writing a grid out as rows of text and decoding those rows gives the grid
/// back.
pub proof fn lemma_encode_decode(grid: Grid<Cell>)
    requires
        grid.wf(),
        grid.width * grid.height <= usize::MAX,
    ensures
        decode_rows(grid.width, grid.height, encode_rows(grid)) == Ok::<Grid<Cell>, LevelError>(
            grid,
        ),
{
    let rows = encode_rows(grid);
    let faults = rows.map_values(|text: Seq<u8>| row_fault(grid.width, text));
    assert forall|i: int| 0 <= i < faults.len() implies faults[i] is None by {
        lemma_row_cells(grid, i);
        lemma_no_fault(rows[i].map_values(|byte: u8| byte_fault(byte)));
    }
    lemma_no_fault(faults);
    let decoded = level_grid(grid.width, grid.height, rows);
    assert forall|row: int, col: int| decoded.contains(row, col) implies decoded.at(row, col)
        == grid.at(row, col) by {
        lemma_level_grid_at(grid.width, grid.height, rows, row, col);
        lemma_row_cells(grid, row);
    }
    lemma_grid_equal(decoded, grid);
}

/// Writing a board out as rows of text and decoding those rows, with the
/// board's own dimensions, gives a board that holds the same.
pub proof fn lemma_round_trip(board: Board<Cell>)
    requires
        board.wf(),
    ensures
        decode_rows(board@.width, board@.height, encode_rows(board@)) == Ok::<
            Grid<Cell>,
            LevelError,
        >(board@),
{
    lemma_board_fits(board);
    lemma_encode_decode(board@);
}

/// Writes the tiles that `text` stands for into the start of row `row`.
pub(crate) fn write_row(board: &mut Board<Cell>, row: usize, text: &[u8]) -> (result: Result<(), LevelError>)
    requires
        row < old(board)@.height,
    ensures
        final(board).wf(),
        final(board)@.width == old(board)@.width,
        final(board)@.height == old(board)@.height,
        result is Err ==> result == Err::<(), LevelError>(
            row_fault(old(board)@.width, text@).unwrap(),
        ),
        result is Err <==> row_fault(old(board)@.width, text@) is Some,
        result is Ok ==> forall|r: int, c: int|
            old(board)@.contains(r, c) ==> #[trigger] final(board)@.at(r, c) == if r == row && c
                < text@.len() {
                tile(text@[c])
            } else {
                old(board)@.at(r, c)
            },
{
    let width: usize = board.width();
    if text.len() > width {
        return Err(LevelError::RowTooWide);
    }
    let ghost before = board@;
    let ghost faults = text@.map_values(|byte: u8| byte_fault(byte));
    let mut col: usize = 0;
    while col < text.len()
        invariant
            col <= text.len() <= width,
            before == old(board)@,
            width == before.width,
            row < before.height,
            before.wf(),
            board.wf(),
            board@.width == before.width,
            board@.height == before.height,
            faults == text@.map_values(|byte: u8| byte_fault(byte)),
            forall|k: int| 0 <= k < col ==> faults[k] is None,
            forall|r: int, c: int|
                before.contains(r, c) ==> #[trigger] board@.at(r, c) == if r == row && c < col {
                    tile(text@[c])
                } else {
                    before.at(r, c)
                },
        decreases text.len() - col,
    {
        let byte: u8 = text[col];
        match Cell::from_byte(byte) {
            Some(cell) => {
                let ghost previous = board@;
                board.set(row, col, cell);
                proof {
                    assert forall|r: int, c: int| before.contains(r, c) implies #[trigger] board@.at(
                        r,
                        c,
                    ) == if r == row && c < col + 1 {
                        tile(text@[c])
                    } else {
                        before.at(r, c)
                    } by {
                        crate::board::lemma_with_cell_at(previous, row as int, col as int, cell, r, c);
                    }
                }
            },
            None => {
                proof {
                    lemma_fault_at(faults, col as int);
                }
                return Err(LevelError::UnexpectedCharacter(byte));
            },
        }
        col += 1;
    }
    proof {
        lemma_no_fault(faults);
    }
    Ok(())
}

/// The text that stands for the given tiles.
fn encode_cells(cells: &[Cell]) -> (text: Vec<u8>)
    ensures
        text@ == encode_row(cells@),
{
    let mut text: Vec<u8> = Vec::new();
    let mut i: usize = 0;
    while i < cells.len()
        invariant
            i <= cells.len(),
            text@.len() == i,
            forall|k: int| 0 <= k < i ==> text@[k] == cells@[k].byte(),
        decreases cells.len() - i,
    {
        text.push(cells[i].to_byte());
        i += 1;
    }
    assert(text@ =~= encode_row(cells@));
    text
}

impl Board<Cell> {
    /// Decodes a level of the declared dimensions from its rows of text. Rows
    /// and columns that the text does not reach are floor.
    pub fn from_rows(width: usize, height: usize, rows: &[Vec<u8>]) -> (result: Result<
        Board<Cell>,
        LevelError,
    >)
        ensures
            result matches Ok(board) ==> decode_rows(
                width as nat,
                height as nat,
                texts(rows@),
            ) == Ok::<Grid<Cell>, LevelError>(board@),
            result matches Err(fault) ==> decode_rows(width as nat, height as nat, texts(rows@))
                == Err::<Grid<Cell>, LevelError>(fault),
    {
        if width.checked_mul(height).is_none() {
            return Err(LevelError::BoardTooLarge);
        }
        if rows.len() > height {
            return Err(LevelError::TooManyRows);
        }
        let mut board: Board<Cell> = Board::new(width, height);
        let ghost lines = texts(rows@);
        let ghost faults = lines.map_values(|text: Seq<u8>| row_fault(width as nat, text));
        proof {
            assert forall|r: int, c: int| board@.contains(r, c) implies #[trigger] board@.at(r, c)
                == level_cell(lines.take(0), r, c) by {
                lemma_filled_at(width as nat, height as nat, Cell::Floor, r, c);
            }
        }
        let mut done: usize = 0;
        while done < rows.len()
            invariant
                done <= rows.len() <= height,
                width * height <= usize::MAX,
                board.wf(),
                board@.width == width,
                board@.height == height,
                lines == texts(rows@),
                faults == lines.map_values(|text: Seq<u8>| row_fault(width as nat, text)),
                forall|k: int| 0 <= k < done ==> faults[k] is None,
                forall|r: int, c: int|
                    board@.contains(r, c) ==> #[trigger] board@.at(r, c) == level_cell(
                        lines.take(done as int),
                        r,
                        c,
                    ),
            decreases rows.len() - done,
        {
            let ghost previous = board@;
            match write_row(&mut board, done, rows[done].as_slice()) {
                Ok(()) => {
                    proof {
                        assert forall|r: int, c: int| board@.contains(r, c) implies #[trigger] board@.at(
                            r,
                            c,
                        ) == level_cell(lines.take(done + 1), r, c) by {
                            assert(previous.contains(r, c));
                            assert(previous.at(r, c) == level_cell(lines.take(done as int), r, c));
                        }
                    }
                },
                Err(fault) => {
                    proof {
                        lemma_fault_at(faults, done as int);
                    }
                    return Err(fault);
                },
            }
            done += 1;
        }
        proof {
            lemma_no_fault(faults);
            assert(lines.take(done as int) =~= lines);
            let decoded = level_grid(width as nat, height as nat, lines);
            assert forall|r: int, c: int| decoded.contains(r, c) implies decoded.at(r, c)
                == board@.at(r, c) by {
                lemma_level_grid_at(width as nat, height as nat, lines, r, c);
            }
            lemma_grid_equal(decoded, board@);
        }
        Ok(board)
    }

    /// The rows of the board as text, top to bottom.
    pub fn to_rows(&self) -> (rows: Vec<Vec<u8>>)
        ensures
            texts(rows@) == encode_rows(self@),
    {
        let height: usize = self.height();
        let mut rows: Vec<Vec<u8>> = Vec::new();
        let mut done: usize = 0;
        while done < height
            invariant
                done <= height,
                height == self@.height,
                self.wf(),
                rows@.len() == done,
                forall|k: int| 0 <= k < done ==> (#[trigger] rows@[k])@ == encode_row(self@.row(k)),
            decreases height - done,
        {
            rows.push(encode_cells(self.row(done)));
            done += 1;
        }
        assert(texts(rows@) =~= encode_rows(self@));
        rows
    }

    /// The board as text: its rows from top to bottom, each followed by a line
    /// feed.
    pub fn dump_ascii(&self) -> (text: Vec<u8>)
        ensures
            text@ == dump(self@),
    {
        let height: usize = self.height();
        let mut text: Vec<u8> = Vec::new();
        let mut done: usize = 0;
        while done < height
            invariant
                done <= height,
                height == self@.height,
                self.wf(),
                text@ == dump_rows(self@, done as nat),
            decreases height - done,
        {
            let mut line: Vec<u8> = encode_cells(self.row(done));
            line.push(NEWLINE_BYTE);
            text.append(&mut line);
            done += 1;
        }
        text
    }
}

} // verus!
