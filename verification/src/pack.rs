//! Level packs: documents that hold a collection of levels, each with its
//! declared dimensions and its rows of text.

use crate::board::{lemma_filled_at, lemma_grid_equal};
use crate::board::{Board, Cell, Grid};
use crate::document::{first_child, lemma_node_view};
use crate::document::{str_equal, Markup, Node};
use crate::level::{first_fault, lemma_fault_at, lemma_level_grid_at, lemma_no_fault};
use crate::level::{decode_rows, dimension, level_cell, level_grid, row_fault};
use crate::level::{parse_dimension, write_row, LevelError};
use crate::xml::{parse_document, xml_document};
use vstd::prelude::*;
use vstd::utf8::encode_utf8;

verus! {

/// The dimension that a level declares under `name`.
pub open spec fn declared(level: Markup, name: Seq<char>) -> Result<usize, LevelError> {
    if !level.attributes.dom().contains(name) {
        Err(LevelError::MissingAttribute)
    } else {
        match dimension(encode_utf8(level.attributes[name])) {
            Some(value) => Ok(value),
            None => Err(LevelError::InvalidDimension),
        }
    }
}

/// The text of a row element, byte by byte.
pub open spec fn row_text(row: Markup) -> Seq<u8> {
    match row.text {
        Some(text) => encode_utf8(text),
        None => Seq::empty(),
    }
}

/// What is wrong with one row element of a level `width` wide, if anything.
pub open spec fn row_element_fault(width: nat, row: Markup) -> Option<LevelError> {
    if row.name != "L"@ {
        Some(LevelError::UnexpectedElement)
    } else if row.text is None {
        Some(LevelError::MissingText)
    } else {
        row_fault(width, row_text(row))
    }
}

/// What decoding a level element gives: its grid, or the first thing wrong
/// with it.
#[verifier::opaque]
pub open spec fn level_result(level: Markup) -> Result<Grid<Cell>, LevelError> {
    if level.name != "Level"@ {
        Err(LevelError::UnexpectedElement)
    } else {
        match declared(level, "Width"@) {
            Err(fault) => Err(fault),
            Ok(width) => match declared(level, "Height"@) {
                Err(fault) => Err(fault),
                Ok(height) => if width * height > usize::MAX {
                    Err(LevelError::BoardTooLarge)
                } else if level.children.len() > height {
                    Err(LevelError::TooManyRows)
                } else {
                    match first_fault(
                        level.children.map_values(
                            |row: Markup| row_element_fault(width as nat, row),
                        ),
                    ) {
                        Some(fault) => Err(fault),
                        None => Ok(
                            level_grid(
                                width as nat,
                                height as nat,
                                level.children.map_values(|row: Markup| row_text(row)),
                            ),
                        ),
                    }
                },
            },
        }
    }
}

/// What is wrong with a level element, if anything.
pub open spec fn level_fault(level: Markup) -> Option<LevelError> {
    match level_result(level) {
        Err(fault) => Some(fault),
        Ok(_) => None,
    }
}

/// The grid of a level element that nothing is wrong with.
pub open spec fn level_decoded(level: Markup) -> Grid<Cell> {
    match level_result(level) {
        Ok(grid) => grid,
        Err(_) => Grid::filled(0, 0, Cell::Floor),
    }
}

/// What decoding a level pack gives: the grids of its levels in their order,
/// or the first thing wrong with it.
pub open spec fn pack_result(root: Markup) -> Result<Seq<Grid<Cell>>, LevelError> {
    match first_child(root.children, "LevelCollection"@) {
        None => Err(LevelError::MissingCollection),
        Some(collection) => match first_fault(
            collection.children.map_values(|level: Markup| level_fault(level)),
        ) {
            Some(fault) => Err(fault),
            None => Ok(collection.children.map_values(|level: Markup| level_decoded(level))),
        },
    }
}

/// What loading a level pack from the bytes of a file gives.
pub open spec fn load_result(bytes: Seq<u8>) -> Result<Seq<Grid<Cell>>, LevelError> {
    match xml_document(bytes) {
        None => Err(LevelError::MalformedDocument),
        Some(root) => pack_result(root),
    }
}

/// What each of the given boards holds.
pub open spec fn grids(boards: Seq<Board<Cell>>) -> Seq<Grid<Cell>> {
    boards.map_values(|board: Board<Cell>| board@)
}

/// A level element whose rows are all row elements with text decodes as its
/// declared dimensions and the texts of its rows do.
pub proof fn lemma_level_of_rows(level: Markup, width: usize, height: usize)
    requires
        level.name == "Level"@,
        declared(level, "Width"@) == Ok::<usize, LevelError>(width),
        declared(level, "Height"@) == Ok::<usize, LevelError>(height),
        forall|i: int|
            0 <= i < level.children.len() ==> level.children[i].name == "L"@
                && level.children[i].text is Some,
    ensures
        level_result(level) == decode_rows(
            width as nat,
            height as nat,
            level.children.map_values(|row: Markup| row_text(row)),
        ),
{
    reveal(level_result);
    let lines = level.children.map_values(|row: Markup| row_text(row));
    assert(level.children.map_values(|row: Markup| row_element_fault(width as nat, row))
        =~= lines.map_values(|text: Seq<u8>| row_fault(width as nat, text)));
}

/// Reads the dimension that a level declares under `name`.
fn read_dimension(level: &Node, name: &str) -> (value: Result<usize, LevelError>)
    ensures
        value == declared(level@, name@),
{
    match level.attribute(name) {
        None => Err(LevelError::MissingAttribute),
        Some(text) => match parse_dimension(text.as_str().as_bytes()) {
            Some(value) => Ok(value),
            None => Err(LevelError::InvalidDimension),
        },
    }
}

/// Decodes one level element into a board. Rows and columns that the element
/// does not reach are floor.
pub fn decode_level(level: &Node) -> (result: Result<Board<Cell>, LevelError>)
    ensures
        result matches Ok(board) ==> level_result(level@) == Ok::<
            Grid<Cell>,
            LevelError,
        >(board@),
        result matches Err(fault) ==> level_result(level@) == Err::<Grid<Cell>, LevelError>(fault),
{
    proof {
        reveal(level_result);
        lemma_node_view(*level);
    }
    if !str_equal(level.name.as_str(), "Level") {
        return Err(LevelError::UnexpectedElement);
    }
    let width: usize = match read_dimension(level, "Width") {
        Ok(value) => value,
        Err(fault) => {
            return Err(fault);
        },
    };
    let height: usize = match read_dimension(level, "Height") {
        Ok(value) => value,
        Err(fault) => {
            return Err(fault);
        },
    };
    if width.checked_mul(height).is_none() {
        return Err(LevelError::BoardTooLarge);
    }
    if level.children.len() > height {
        return Err(LevelError::TooManyRows);
    }
    let mut board: Board<Cell> = Board::new(width, height);
    let ghost rows = level@.children;
    let ghost lines = rows.map_values(|row: Markup| row_text(row));
    let ghost faults = rows.map_values(|row: Markup| row_element_fault(width as nat, row));
    proof {
        assert forall|r: int, c: int| board@.contains(r, c) implies #[trigger] board@.at(r, c)
            == level_cell(lines.take(0), r, c) by {
            lemma_filled_at(width as nat, height as nat, Cell::Floor, r, c);
        }
    }
    let mut done: usize = 0;
    while done < level.children.len()
        invariant
            done <= level.children.len() <= height,
            width * height <= usize::MAX,
            level@.name == "Level"@,
            declared(level@, "Width"@) == Ok::<usize, LevelError>(width),
            declared(level@, "Height"@) == Ok::<usize, LevelError>(height),
            board.wf(),
            board@.width == width,
            board@.height == height,
            rows == level@.children,
            rows.len() == level.children@.len(),
            forall|k: int|
                0 <= k < level.children@.len() ==> rows[k] == (#[trigger] level.children@[k])@,
            lines == rows.map_values(|row: Markup| row_text(row)),
            faults == rows.map_values(|row: Markup| row_element_fault(width as nat, row)),
            forall|k: int| 0 <= k < done ==> faults[k] is None,
            forall|r: int, c: int|
                board@.contains(r, c) ==> #[trigger] board@.at(r, c) == level_cell(
                    lines.take(done as int),
                    r,
                    c,
                ),
        decreases level.children.len() - done,
    {
        let row: &Node = &level.children[done];
        proof {
            reveal(level_result);
            lemma_node_view(*row);
            assert(rows[done as int] == row@);
        }
        if !str_equal(row.name.as_str(), "L") {
            proof {
                lemma_fault_at(faults, done as int);
            }
            return Err(LevelError::UnexpectedElement);
        }
        match &row.text {
            None => {
                proof {
                    lemma_fault_at(faults, done as int);
                }
                return Err(LevelError::MissingText);
            },
            Some(text) => {
                let ghost previous = board@;
                match write_row(&mut board, done, text.as_str().as_bytes()) {
                    Ok(()) => {
                        proof {
                            assert forall|r: int, c: int| board@.contains(r, c) implies #[trigger] board@.at(
                                r,
                                c,
                            ) == level_cell(lines.take(done + 1), r, c) by {
                                assert(previous.contains(r, c));
                                assert(previous.at(r, c) == level_cell(
                                    lines.take(done as int),
                                    r,
                                    c,
                                ));
                            }
                        }
                    },
                    Err(fault) => {
                        proof {
                            lemma_fault_at(faults, done as int);
                        }
                        return Err(fault);
                    },
                }
            },
        }
        done += 1;
    }
    proof {
        lemma_no_fault(faults);
        assert(lines.take(done as int) =~= lines);
        let decoded = level_grid(width as nat, height as nat, lines);
        assert forall|r: int, c: int| decoded.contains(r, c) implies decoded.at(r, c) == board@.at(
            r,
            c,
        ) by {
            lemma_level_grid_at(width as nat, height as nat, lines, r, c);
        }
        lemma_grid_equal(decoded, board@);
    }
    Ok(board)
}

/// Decodes every level of a level pack, in the order of the document.
pub fn decode_pack(root: &Node) -> (result: Result<Vec<Board<Cell>>, LevelError>)
    ensures
        result matches Ok(boards) ==> pack_result(root@) == Ok::<Seq<Grid<Cell>>, LevelError>(
            grids(boards@),
        ),
        result matches Err(fault) ==> pack_result(root@) == Err::<Seq<Grid<Cell>>, LevelError>(
            fault,
        ),
{
    let collection: &Node = match root.child("LevelCollection") {
        Some(child) => child,
        None => {
            return Err(LevelError::MissingCollection);
        },
    };
    proof {
        lemma_node_view(*collection);
    }
    let ghost levels = collection@.children;
    let ghost faults = levels.map_values(|level: Markup| level_fault(level));
    let mut boards: Vec<Board<Cell>> = Vec::new();
    let mut done: usize = 0;
    while done < collection.children.len()
        invariant
            done <= collection.children.len(),
            first_child(root@.children, "LevelCollection"@) == Some(collection@),
            levels == collection@.children,
            levels.len() == collection.children@.len(),
            forall|k: int|
                0 <= k < collection.children@.len() ==> levels[k] == (
                #[trigger] collection.children@[k])@,
            faults == levels.map_values(|level: Markup| level_fault(level)),
            boards@.len() == done,
            forall|k: int| 0 <= k < done ==> faults[k] is None,
            forall|k: int|
                0 <= k < done ==> level_result(levels[k]) == Ok::<Grid<Cell>, LevelError>(
                    (#[trigger] boards@[k])@,
                ),
        decreases collection.children.len() - done,
    {
        match decode_level(&collection.children[done]) {
            Ok(board) => {
                boards.push(board);
            },
            Err(fault) => {
                proof {
                    lemma_fault_at(faults, done as int);
                }
                return Err(fault);
            },
        }
        done += 1;
    }
    proof {
        lemma_no_fault(faults);
        assert(grids(boards@) =~= levels.map_values(|level: Markup| level_decoded(level)));
    }
    Ok(boards)
}

/// Loads a level pack from the bytes of a file: one board for each level, in
/// the order of the document.
pub fn load_level_pack(bytes: &[u8]) -> (result: Result<Vec<Board<Cell>>, LevelError>)
    ensures
        result matches Ok(boards) ==> load_result(bytes@) == Ok::<Seq<Grid<Cell>>, LevelError>(
            grids(boards@),
        ),
        result matches Err(fault) ==> load_result(bytes@) == Err::<Seq<Grid<Cell>>, LevelError>(
            fault,
        ),
{
    match parse_document(bytes) {
        Some(root) => decode_pack(&root),
        None => Err(LevelError::MalformedDocument),
    }
}

} // verus!
