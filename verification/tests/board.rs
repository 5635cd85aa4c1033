use battleship::client::convert_to_bool_array;
use battleship::game::{FieldState, INITIAL_SHIPS_COUNT};
use battleship::session::{create_board, verify_board};

/// The layout the client submits when it starts.
const CLIENT_LAYOUT: [[i32; 10]; 10] = [
    [1, 0, 1, 0, 1, 1, 0, 0, 0, 0],
    [0, 0, 0, 0, 0, 0, 0, 0, 0, 0],
    [0, 0, 0, 0, 0, 1, 0, 0, 0, 1],
    [0, 0, 0, 0, 0, 1, 0, 0, 0, 1],
    [0, 0, 0, 0, 0, 0, 0, 0, 0, 1],
    [0, 0, 0, 1, 1, 1, 1, 0, 0, 0],
    [0, 0, 0, 0, 0, 0, 0, 0, 0, 0],
    [0, 0, 0, 0, 0, 0, 0, 0, 0, 0],
    [0, 0, 0, 1, 1, 1, 1, 1, 0, 0],
    [0, 0, 0, 0, 0, 0, 0, 0, 0, 0],
];

fn layout() -> [[bool; 10]; 10] {
    convert_to_bool_array(CLIENT_LAYOUT)
}

fn count_segments(b: &[[bool; 10]; 10]) -> usize {
    b.iter().flatten().filter(|f| **f).count()
}

#[test]
fn convert_marks_nonzero_fields() {
    let mut grid = [[0i32; 10]; 10];
    grid[0][0] = 1;
    grid[3][7] = -5;
    grid[9][9] = 42;
    let b = convert_to_bool_array(grid);
    assert!(b[0][0]);
    assert!(b[3][7]);
    assert!(b[9][9]);
    assert!(!b[0][1]);
    assert_eq!(count_segments(&b), 3);
}

#[test]
fn client_layout_is_valid() {
    let b = layout();
    assert_eq!(count_segments(&b), 18);
    assert!(verify_board(&b));
}

#[test]
fn empty_layout_is_refused() {
    assert!(!verify_board(&[[false; 10]; 10]));
}

#[test]
fn missing_ship_is_refused() {
    let mut b = layout();
    // remove the single-field ship in the corner
    b[0][0] = false;
    assert!(!verify_board(&b));
}

#[test]
fn extra_ship_is_refused() {
    let mut b = layout();
    b[9][0] = true;
    assert!(!verify_board(&b));
}

#[test]
fn ships_touching_end_to_end_form_one_longer_ship() {
    let mut b = layout();
    // move the single at (0,2) next to the pair at (0,4)-(0,5): a ship of three
    b[0][2] = false;
    b[0][3] = true;
    assert!(!verify_board(&b));
}

#[test]
fn bent_ship_is_refused() {
    let mut b = [[false; 10]; 10];
    // the required fleet, but the ship of three is bent into an L
    b[0][0] = true;
    b[0][2] = true;
    b[2][0] = true;
    b[2][1] = true;
    b[4][0] = true;
    b[4][1] = true;
    b[6][0] = true;
    b[6][1] = true;
    b[7][0] = true;
    b[9][0] = true;
    b[9][1] = true;
    b[9][2] = true;
    b[9][3] = true;
    b[0][5] = true;
    b[0][6] = true;
    b[0][7] = true;
    b[0][8] = true;
    b[0][9] = true;
    assert_eq!(count_segments(&b), 18);
    assert!(!verify_board(&b));
}

#[test]
fn side_by_side_ships_are_refused() {
    let mut b = layout();
    // shift the ship of four (row 5, columns 3..=6) up against the ship of two in column 5
    for x in 3..7 {
        b[5][x] = false;
        b[4][x] = true;
    }
    assert!(!verify_board(&b));
}

#[test]
fn diagonally_touching_ships_are_accepted() {
    let mut b = [[false; 10]; 10];
    // singles
    b[0][0] = true;
    b[1][1] = true;
    // pairs, the first touching the single at (1,1) diagonally
    b[2][2] = true;
    b[2][3] = true;
    b[4][0] = true;
    b[5][0] = true;
    // three, four, five
    b[7][0] = true;
    b[7][1] = true;
    b[7][2] = true;
    b[9][0] = true;
    b[9][1] = true;
    b[9][2] = true;
    b[9][3] = true;
    b[0][9] = true;
    b[1][9] = true;
    b[2][9] = true;
    b[3][9] = true;
    b[4][9] = true;
    assert!(verify_board(&b));
}

#[test]
fn vertical_ship_along_the_last_row_edge_is_measured() {
    let mut b = layout();
    // move the ship of five from row 8 to column 0, rows 5..=9
    for x in 3..8 {
        b[8][x] = false;
    }
    for y in 5..10 {
        b[y][0] = true;
    }
    assert!(verify_board(&b));
}

#[test]
fn create_board_occupies_exactly_the_segments() {
    let b = layout();
    let board = create_board(b);
    for y in 0..10 {
        for x in 0..10 {
            let expected = if b[y][x] { FieldState::Occupied } else { FieldState::Free };
            assert_eq!(board[y][x], expected);
        }
    }
}

#[test]
fn valid_layout_holds_the_initial_fleet() {
    // seven ships: two singles, two pairs, one each of three, four and five
    assert_eq!(INITIAL_SHIPS_COUNT, 7);
    let b = layout();
    assert!(verify_board(&b));
    let starts = (0..10)
        .flat_map(|y| (0..10).map(move |x| (y, x)))
        .filter(|&(y, x)| b[y][x] && !(x > 0 && b[y][x - 1]) && !(y > 0 && b[y - 1][x]))
        .count();
    assert_eq!(starts, INITIAL_SHIPS_COUNT as usize);
}

#[test]
fn flipping_any_single_field_of_a_valid_layout_breaks_it() {
    let b = layout();
    for y in 0..10 {
        for x in 0..10 {
            let mut b2 = b;
            b2[y][x] = !b2[y][x];
            assert!(!verify_board(&b2), "flipping ({}, {}) kept the layout valid", y, x);
        }
    }
}

fn transpose(b: &[[bool; 10]; 10]) -> [[bool; 10]; 10] {
    let mut t = [[false; 10]; 10];
    for y in 0..10 {
        for x in 0..10 {
            t[y][x] = b[x][y];
        }
    }
    t
}

fn mirror_across(b: &[[bool; 10]; 10]) -> [[bool; 10]; 10] {
    let mut h = [[false; 10]; 10];
    for y in 0..10 {
        for x in 0..10 {
            h[y][x] = b[y][9 - x];
        }
    }
    h
}

fn mirror_down(b: &[[bool; 10]; 10]) -> [[bool; 10]; 10] {
    let mut v = [[false; 10]; 10];
    for y in 0..10 {
        for x in 0..10 {
            v[y][x] = b[9 - y][x];
        }
    }
    v
}

#[test]
fn turned_valid_layouts_stay_valid() {
    let b = layout();
    assert!(verify_board(&transpose(&b)));
    assert!(verify_board(&mirror_across(&b)));
    assert!(verify_board(&mirror_down(&b)));
    assert!(verify_board(&mirror_down(&mirror_across(&transpose(&b)))));
}

#[test]
fn turned_invalid_layouts_stay_invalid() {
    let mut bent = layout();
    // bend the five-field ship upwards at its right end
    bent[8][3] = false;
    bent[7][7] = true;
    assert!(!verify_board(&bent));
    assert!(!verify_board(&transpose(&bent)));
    assert!(!verify_board(&mirror_across(&bent)));
    assert!(!verify_board(&mirror_down(&bent)));
}
