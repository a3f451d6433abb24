use tetris_core::board::Board;
use tetris_core::piece::Color;

fn empty_board(width: usize, height: usize) -> Board {
    Board::new(width, height)
}

fn fill_row_except(board: &mut Board, y: usize, skip_x: usize, color: Color) {
    for x in 0..board.width {
        if x != skip_x {
            board.cells[y * board.width + x] = Some(color);
        }
    }
}

#[test]
fn clear_on_empty_board_is_identity() {
    let mut b = empty_board(10, 20);
    let cleared = b.clear_full_rows();
    assert_eq!(cleared, 0);
    assert_eq!(b.cells.len(), 200);
    assert!(b.cells.iter().all(|c| c.is_none()));
}

#[test]
fn clear_without_full_rows_changes_nothing() {
    let mut b = empty_board(6, 8);
    let color = Color(9, 9, 9);
    // A scattered pattern, no row complete.
    b.cells[7 * 6 + 0] = Some(color);
    b.cells[7 * 6 + 2] = Some(color);
    b.cells[6 * 6 + 5] = Some(color);
    b.cells[3 * 6 + 1] = Some(color);
    let before = b.cells.clone();
    let cleared = b.clear_full_rows();
    assert_eq!(cleared, 0);
    assert_eq!(b.cells, before);
}

#[test]
fn clearing_a_middle_row_shifts_rows_above_in_order() {
    let mut b = empty_board(4, 6);
    let red = Color(255, 0, 0);
    let green = Color(0, 255, 0);
    let blue = Color(0, 0, 255);
    // Row 3 full; markers in rows 1 and 2 in a fixed vertical order.
    for x in 0..4 {
        b.cells[3 * 4 + x] = Some(red);
    }
    b.cells[1 * 4 + 2] = Some(green);
    b.cells[2 * 4 + 2] = Some(blue);
    let cleared = b.clear_full_rows();
    assert_eq!(cleared, 1);
    // Rows above the cleared row moved down one row, order preserved.
    assert_eq!(b.cells[2 * 4 + 2], Some(green));
    assert_eq!(b.cells[3 * 4 + 2], Some(blue));
    // The vacated top row is empty.
    for x in 0..4 {
        assert!(b.cells[x].is_none());
    }
}

#[test]
fn clearing_two_separated_rows_compacts_downward() {
    let mut b = empty_board(3, 5);
    let c = Color(1, 2, 3);
    let marker = Color(7, 7, 7);
    for x in 0..3 {
        b.cells[4 * 3 + x] = Some(c);
        b.cells[2 * 3 + x] = Some(c);
    }
    b.cells[3 * 3 + 1] = Some(marker);
    b.cells[0 * 3 + 0] = Some(marker);
    let cleared = b.clear_full_rows();
    assert_eq!(cleared, 2);
    // The surviving rows (0, 1, 3) land in rows 2, 3, 4 in the same order.
    assert_eq!(b.cells[2 * 3 + 0], Some(marker));
    assert!(b.cells[3 * 3..3 * 3 + 3].iter().all(|x| x.is_none()));
    assert_eq!(b.cells[4 * 3 + 1], Some(marker));
}

#[test]
fn collides_outside_bounds_and_on_occupied_cells() {
    let mut b = empty_board(5, 5);
    b.cells[4 * 5 + 2] = Some(Color(1, 1, 1));
    assert!(b.collides(&vec![(-1, 0)]));
    assert!(b.collides(&vec![(5, 0)]));
    assert!(b.collides(&vec![(0, 5)]));
    assert!(b.collides(&vec![(2, 4)]));
    assert!(!b.collides(&vec![(0, 0), (4, 4)]));
    // Cells above the board are exempt from occupancy but not walls.
    assert!(!b.collides(&vec![(2, -1)]));
    assert!(b.collides(&vec![(-1, -1)]));
}

#[test]
fn lock_writes_only_nonnegative_rows() {
    let mut b = empty_board(5, 5);
    let c = Color(8, 8, 8);
    b.lock(&vec![(1, -1), (1, 0), (2, 4)], c);
    assert_eq!(b.cells[0 * 5 + 1], Some(c));
    assert_eq!(b.cells[4 * 5 + 2], Some(c));
    assert_eq!(b.cells.iter().filter(|x| x.is_some()).count(), 2);
}
