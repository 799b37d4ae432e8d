use rsokoban::board::{Board, Cell};
use rsokoban::board::{
    BOX_BYTE, BOX_ON_GOAL_BYTE, FLOOR_BYTE, GOAL_BYTE, PLAYER_BYTE, PLAYER_ON_GOAL_BYTE, WALL_BYTE,
};

const ALL_CELLS: [Cell; 7] = [
    Cell::Wall,
    Cell::Player,
    Cell::PlayerOnGoal,
    Cell::Box,
    Cell::BoxOnGoal,
    Cell::Goal,
    Cell::Floor,
];

#[test]
fn new_board_holds_the_default_everywhere() {
    let board: Board<Cell> = Board::new(4, 3);
    assert_eq!(board.width(), 4);
    assert_eq!(board.height(), 3);
    for row in 0..3 {
        assert_eq!(board.row(row).len(), 4);
        for col in 0..4 {
            assert_eq!(*board.get(row, col), Cell::Floor);
            assert_eq!(board.row(row)[col], Cell::default());
        }
    }
    let flags: Board<bool> = Board::new(5, 2);
    assert_eq!(flags.cells(), &[false; 10]);
}

#[test]
fn new_board_may_be_empty() {
    let no_columns: Board<Cell> = Board::new(0, 5);
    assert_eq!(no_columns.width(), 0);
    assert_eq!(no_columns.height(), 5);
    assert_eq!(no_columns.cells().len(), 0);
    assert_eq!(no_columns.row(4).len(), 0);
    let no_rows: Board<Cell> = Board::new(5, 0);
    assert_eq!(no_rows.width(), 5);
    assert_eq!(no_rows.height(), 0);
    assert_eq!(no_rows.cells().len(), 0);
}

#[test]
fn filled_board_holds_the_value_everywhere() {
    let board: Board<u8> = Board::filled(3, 2, 7);
    assert_eq!(board.into_cells(), vec![7, 7, 7, 7, 7, 7]);
}

#[test]
fn set_changes_one_cell() {
    let mut board: Board<u8> = Board::new(3, 2);
    board.set(1, 2, 9);
    board.set(0, 1, 4);
    assert_eq!(board.cells(), &[0, 4, 0, 0, 0, 9]);
    assert_eq!(*board.get(1, 2), 9);
    assert_eq!(*board.get(0, 1), 4);
    assert_eq!(*board.get(1, 1), 0);
    assert_eq!(board.row(0), &[0, 4, 0]);
    assert_eq!(board.row(1), &[0, 0, 9]);
}

#[test]
fn rows_follow_each_other_in_the_stored_cells() {
    let mut board: Board<usize> = Board::new(3, 4);
    for row in 0..4 {
        for col in 0..3 {
            board.set(row, col, 10 * row + col);
        }
    }
    let mut walked: Vec<usize> = Vec::new();
    for row in 0..board.height() {
        for cell in board.row(row) {
            walked.push(*cell);
        }
    }
    assert_eq!(walked, vec![0, 1, 2, 10, 11, 12, 20, 21, 22, 30, 31, 32]);
    assert_eq!(walked.as_slice(), board.cells());
    assert_eq!(walked, board.into_cells());
}

#[test]
fn test_board_has_its_four_cells_switched_on() {
    let board = Board::new_test_board();
    assert_eq!(board.width(), 2);
    assert_eq!(board.height(), 3);
    assert_eq!(board.row(0), &[true, false]);
    assert_eq!(board.row(1), &[true, false]);
    assert_eq!(board.row(2), &[true, true]);
    assert_eq!(board.cells(), &[true, false, true, false, true, true]);
}

#[test]
fn cloned_board_is_independent() {
    let mut board: Board<u8> = Board::new(2, 2);
    let copy = board.clone();
    board.set(0, 0, 1);
    assert_eq!(copy.cells(), &[0, 0, 0, 0]);
    assert_eq!(board.cells(), &[1, 0, 0, 0]);
}

#[test]
fn cells_have_their_characters() {
    assert_eq!(Cell::Wall.to_byte(), b'#');
    assert_eq!(Cell::Player.to_byte(), b'@');
    assert_eq!(Cell::PlayerOnGoal.to_byte(), b'+');
    assert_eq!(Cell::Box.to_byte(), b'$');
    assert_eq!(Cell::BoxOnGoal.to_byte(), b'*');
    assert_eq!(Cell::Goal.to_byte(), b'.');
    assert_eq!(Cell::Floor.to_byte(), b' ');
    assert_eq!(WALL_BYTE, b'#');
    assert_eq!(PLAYER_BYTE, b'@');
    assert_eq!(PLAYER_ON_GOAL_BYTE, b'+');
    assert_eq!(BOX_BYTE, b'$');
    assert_eq!(BOX_ON_GOAL_BYTE, b'*');
    assert_eq!(GOAL_BYTE, b'.');
    assert_eq!(FLOOR_BYTE, b' ');
}

#[test]
fn characters_have_their_cells() {
    assert_eq!(Cell::from_byte(b'#'), Some(Cell::Wall));
    assert_eq!(Cell::from_byte(b'@'), Some(Cell::Player));
    assert_eq!(Cell::from_byte(b'+'), Some(Cell::PlayerOnGoal));
    assert_eq!(Cell::from_byte(b'$'), Some(Cell::Box));
    assert_eq!(Cell::from_byte(b'*'), Some(Cell::BoxOnGoal));
    assert_eq!(Cell::from_byte(b'.'), Some(Cell::Goal));
    assert_eq!(Cell::from_byte(b' '), Some(Cell::Floor));
    assert_eq!(Cell::from_byte(b'x'), None);
    assert_eq!(Cell::from_byte(0), None);
    assert_eq!(Cell::from_byte(0xff), None);
}

#[test]
fn cell_mapping_is_one_to_one() {
    for cell in ALL_CELLS {
        assert_eq!(Cell::from_byte(cell.to_byte()), Some(cell));
    }
    let mut known = 0;
    for byte in 0..=255u8 {
        if let Some(cell) = Cell::from_byte(byte) {
            assert_eq!(cell.to_byte(), byte);
            known += 1;
        }
    }
    assert_eq!(known, 7);
}

#[test]
fn default_cell_is_floor() {
    assert_eq!(Cell::default(), Cell::Floor);
}
