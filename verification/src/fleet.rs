//! The rules a submitted layout must meet, stated over the grid: where the
//! ships are, how long each is, how they are spaced, how many of each
//! length there must be; and the facts about the scan that measures them.
use vstd::prelude::*;
use crate::game::INITIAL_SHIPS_COUNT;
use crate::protocol::ClientBoard;

verus! {

// ---------------------------------------------------------------------
// The layout a client submits, read as ships
// ---------------------------------------------------------------------

/// Whether `(y, x)` lies on the board and holds a ship segment.
pub open spec fn occupied(b: ClientBoard, y: int, x: int) -> bool {
    0 <= y < 10 && 0 <= x < 10 && b@[y]@[x]
}

/// Number of consecutive occupied fields from `(y, x)` rightwards.
pub open spec fn run_right(b: ClientBoard, y: int, x: int) -> nat
    decreases 10 - x,
{
    if x < 10 && occupied(b, y, x) {
        1 + run_right(b, y, x + 1)
    } else {
        0
    }
}

/// Number of consecutive occupied fields from `(y, x)` downwards.
pub open spec fn run_down(b: ClientBoard, y: int, x: int) -> nat
    decreases 10 - y,
{
    if y < 10 && occupied(b, y, x) {
        1 + run_down(b, y + 1, x)
    } else {
        0
    }
}

/// `(y, x)` is the first field of a ship: occupied, with nothing occupied
/// to its left or above it.
pub open spec fn is_ship_start(b: ClientBoard, y: int, x: int) -> bool {
    occupied(b, y, x) && !occupied(b, y, x - 1) && !occupied(b, y - 1, x)
}

/// Length of the ship that starts at `(y, x)`: its horizontal extent when
/// that is more than one field, its vertical extent otherwise.
pub open spec fn ship_length(b: ClientBoard, y: int, x: int) -> nat {
    if run_right(b, y, x) > 1 {
        run_right(b, y, x)
    } else {
        run_down(b, y, x)
    }
}

/// The occupied field `(y, x)` does not touch other segments both
/// horizontally and vertically.
pub open spec fn spaced_at(b: ClientBoard, y: int, x: int) -> bool {
    occupied(b, y, x) ==> !((occupied(b, y, x + 1) || occupied(b, y, x - 1)) && (occupied(
        b,
        y + 1,
        x,
    ) || occupied(b, y - 1, x)))
}

/// Every ship is a straight line: no segment has neighbours both along its
/// row and along its column.
pub open spec fn ships_spaced(b: ClientBoard) -> bool {
    forall|y: int, x: int| 0 <= y < 10 && 0 <= x < 10 ==> #[trigger] spaced_at(b, y, x)
}

/// Whether a ship of length `len` starts at `(y, x)`.
pub open spec fn starts_ship_of(b: ClientBoard, len: nat, y: int, x: int) -> bool {
    is_ship_start(b, y, x) && ship_length(b, y, x) == len
}

/// Ships of length `len` that start in row `y` left of column `x`.
pub open spec fn row_ships(b: ClientBoard, len: nat, y: int, x: int) -> nat
    decreases x,
{
    if x <= 0 {
        0
    } else {
        row_ships(b, len, y, x - 1) + if starts_ship_of(b, len, y, x - 1) {
            1nat
        } else {
            0nat
        }
    }
}

/// Ships of length `len` that start in the rows above row `y`.
pub open spec fn rows_ships(b: ClientBoard, len: nat, y: int) -> nat
    decreases y,
{
    if y <= 0 {
        0
    } else {
        rows_ships(b, len, y - 1) + row_ships(b, len, y - 1, 10)
    }
}

/// Number of ships of length `len` on the board.
pub open spec fn ship_count(b: ClientBoard, len: nat) -> nat {
    rows_ships(b, len, 10)
}

/// How many ships of each length a player must place.
pub open spec fn required_ships(len: nat) -> nat {
    if len == 1 {
        2
    } else if len == 2 {
        2
    } else if 3 <= len <= 5 {
        1
    } else {
        0
    }
}

/// The board holds exactly the required ships of every length.
pub open spec fn fleet_complete(b: ClientBoard) -> bool {
    forall|len: nat| len <= 10 ==> #[trigger] ship_count(b, len) == required_ships(len)
}

/// A layout the server accepts.
pub open spec fn valid_board(b: ClientBoard) -> bool {
    ships_spaced(b) && fleet_complete(b)
}

pub(crate) proof fn lemma_run_right_bound(b: ClientBoard, y: int, x: int)
    requires
        0 <= x <= 10,
    ensures
        run_right(b, y, x) <= 10 - x,
    decreases 10 - x,
{
    if x < 10 {
        lemma_run_right_bound(b, y, x + 1);
    }
}

pub(crate) proof fn lemma_run_down_bound(b: ClientBoard, y: int, x: int)
    requires
        0 <= y <= 10,
    ensures
        run_down(b, y, x) <= 10 - y,
    decreases 10 - y,
{
    if y < 10 {
        lemma_run_down_bound(b, y + 1, x);
    }
}

// ---------------------------------------------------------------------
// The scan that measures each ship once
// ---------------------------------------------------------------------

/// Column where the horizontal run of segments through `(y, x)` begins.
pub open spec fn left_end(b: ClientBoard, y: int, x: int) -> int
    decreases x,
{
    if x > 0 && occupied(b, y, x - 1) {
        left_end(b, y, x - 1)
    } else {
        x
    }
}

/// Row where the vertical run of segments through `(y, x)` begins.
pub open spec fn top_of(b: ClientBoard, y: int, x: int) -> int
    decreases y,
{
    if y > 0 && occupied(b, y - 1, x) {
        top_of(b, y - 1, x)
    } else {
        y
    }
}

/// Whether the scan, arriving at `(y, x)`, has already measured the ship
/// that field `(yy, xx)` belongs to (from a first field it passed): the
/// field continues a horizontal run begun left of `x` in row `y`, or a
/// vertical run begun at a field before `(y, x)`.
pub open spec fn measured(b: ClientBoard, y: int, x: int, yy: int, xx: int) -> bool {
    ||| yy == y && xx >= x && occupied(b, yy, xx) && left_end(b, yy, xx) < x
    ||| occupied(b, yy, xx) && occupied(b, yy - 1, xx) && 10 * top_of(b, yy, xx) + xx < 10 * y + x
}

/// The field `(y, x)` of a marking grid.
pub open spec fn marked(checked: [[bool; 10]; 10], y: int, x: int) -> bool {
    checked@[y]@[x]
}

/// On a well spaced board, the fields the scan has still to visit are
/// marked exactly when their ship was already measured.
pub open spec fn marks_agree(b: ClientBoard, checked: [[bool; 10]; 10], y: int, x: int) -> bool {
    ships_spaced(b) ==> forall|yy: int, xx: int|
        0 <= yy < 10 && 0 <= xx < 10 && 10 * yy + xx >= 10 * y + x ==> #[trigger] marked(
            checked,
            yy,
            xx,
        ) == measured(b, y, x, yy, xx)
}

proof fn lemma_left_end_bounds(b: ClientBoard, y: int, x: int)
    requires
        0 <= x,
    ensures
        0 <= left_end(b, y, x) <= x,
    decreases x,
{
    if x > 0 && occupied(b, y, x - 1) {
        lemma_left_end_bounds(b, y, x - 1);
    }
}

proof fn lemma_top_of_bounds(b: ClientBoard, y: int, x: int)
    requires
        0 <= y,
    ensures
        0 <= top_of(b, y, x) <= y,
    decreases y,
{
    if y > 0 && occupied(b, y - 1, x) {
        lemma_top_of_bounds(b, y - 1, x);
    }
}

/// Every field between the start of a horizontal run and an occupied field
/// of it is occupied.
proof fn lemma_left_run_occupied(b: ClientBoard, y: int, x: int, j: int)
    requires
        occupied(b, y, x),
        left_end(b, y, x) <= j <= x,
    ensures
        occupied(b, y, j),
    decreases x,
{
    if j < x {
        lemma_left_run_occupied(b, y, x - 1, j);
    }
}

proof fn lemma_top_run_occupied(b: ClientBoard, y: int, x: int, i: int)
    requires
        occupied(b, y, x),
        top_of(b, y, x) <= i <= y,
    ensures
        occupied(b, i, x),
    decreases y,
{
    if i < y {
        lemma_top_run_occupied(b, y - 1, x, i);
    }
}

/// A run of occupied fields `x..=xx` with nothing left of `x` begins at `x`.
proof fn lemma_left_end_of_run(b: ClientBoard, y: int, x: int, xx: int)
    requires
        0 <= x <= xx,
        !occupied(b, y, x - 1),
        forall|j: int| x <= j <= xx ==> #[trigger] occupied(b, y, j),
    ensures
        left_end(b, y, xx) == x,
    decreases xx,
{
    if xx > x {
        lemma_left_end_of_run(b, y, x, xx - 1);
    }
}

/// A run of occupied fields `y..=yy` with nothing above `y` begins at `y`.
proof fn lemma_top_of_run(b: ClientBoard, y: int, x: int, yy: int)
    requires
        0 <= y <= yy,
        !occupied(b, y - 1, x),
        forall|i: int| y <= i <= yy ==> #[trigger] occupied(b, i, x),
    ensures
        top_of(b, yy, x) == y,
    decreases yy,
{
    if yy > y {
        lemma_top_of_run(b, y, x, yy - 1);
    }
}

/// Every field of a horizontal run has the same start.
proof fn lemma_left_end_chain(b: ClientBoard, y: int, x: int, j: int)
    requires
        occupied(b, y, x),
        left_end(b, y, x) <= j <= x,
    ensures
        left_end(b, y, j) == left_end(b, y, x),
    decreases x,
{
    if j < x {
        lemma_left_end_chain(b, y, x - 1, j);
    }
}

/// Nothing is occupied left of the start of a horizontal run.
proof fn lemma_left_end_is_start(b: ClientBoard, y: int, x: int)
    requires
        0 <= x,
    ensures
        !occupied(b, y, left_end(b, y, x) - 1),
    decreases x,
{
    if x > 0 && occupied(b, y, x - 1) {
        lemma_left_end_is_start(b, y, x - 1);
    }
}

/// Every field of a vertical run has the same start.
proof fn lemma_top_of_chain(b: ClientBoard, y: int, x: int, i: int)
    requires
        occupied(b, y, x),
        top_of(b, y, x) <= i <= y,
    ensures
        top_of(b, i, x) == top_of(b, y, x),
    decreases y,
{
    if i < y {
        lemma_top_of_chain(b, y - 1, x, i);
    }
}

/// Nothing is occupied above the start of a vertical run.
proof fn lemma_top_of_is_start(b: ClientBoard, y: int, x: int)
    requires
        0 <= y,
    ensures
        !occupied(b, top_of(b, y, x) - 1, x),
    decreases y,
{
    if y > 0 && occupied(b, y - 1, x) {
        lemma_top_of_is_start(b, y - 1, x);
    }
}

/// The fields of the horizontal run from `(y, x)` are occupied, and the
/// field after it is not.
proof fn lemma_run_right_cells(b: ClientBoard, y: int, x: int)
    requires
        0 <= x <= 10,
    ensures
        forall|j: int| x <= j < x + run_right(b, y, x) ==> #[trigger] occupied(b, y, j),
        !occupied(b, y, x + run_right(b, y, x)),
    decreases 10 - x,
{
    if x < 10 && occupied(b, y, x) {
        lemma_run_right_cells(b, y, x + 1);
    }
}

/// The fields of the vertical run from `(y, x)` are occupied, and the
/// field below it is not.
proof fn lemma_run_down_cells(b: ClientBoard, y: int, x: int)
    requires
        0 <= y <= 10,
    ensures
        forall|i: int| y <= i < y + run_down(b, y, x) ==> #[trigger] occupied(b, i, x),
        !occupied(b, y + run_down(b, y, x), x),
    decreases 10 - y,
{
    if y < 10 && occupied(b, y, x) {
        lemma_run_down_cells(b, y + 1, x);
    }
}

/// Before the scan starts, nothing is marked and nothing is measured.
pub(crate) proof fn lemma_scan_begins(b: ClientBoard, checked: [[bool; 10]; 10])
    requires
        forall|yy: int, xx: int| 0 <= yy < 10 && 0 <= xx < 10 ==> !#[trigger] marked(checked, yy, xx),
    ensures
        marks_agree(b, checked, 0, 0),
{
    if ships_spaced(b) {
        assert forall|yy: int, xx: int|
            0 <= yy < 10 && 0 <= xx < 10 && 10 * yy + xx >= 0 implies #[trigger] marked(
            checked,
            yy,
            xx,
        ) == measured(b, 0, 0, yy, xx) by {
            lemma_left_end_bounds(b, yy, xx);
            lemma_top_of_bounds(b, yy, xx);
        }
    }
}

/// The end of one row is the beginning of the next.
pub(crate) proof fn lemma_next_row(b: ClientBoard, checked: [[bool; 10]; 10], y: int)
    requires
        0 <= y < 10,
        marks_agree(b, checked, y, 10),
    ensures
        marks_agree(b, checked, y + 1, 0),
{
    if ships_spaced(b) {
        assert forall|yy: int, xx: int|
            0 <= yy < 10 && 0 <= xx < 10 && 10 * yy + xx >= 10 * (y + 1) implies #[trigger] marked(
            checked,
            yy,
            xx,
        ) == measured(b, y + 1, 0, yy, xx) by {
            assert(marked(checked, yy, xx) == measured(b, y, 10, yy, xx));
            lemma_left_end_bounds(b, yy, xx);
        }
    }
}

/// The fields of the ship whose first field is `(y, x)`, other than that
/// first field.
pub open spec fn rest_of_ship(b: ClientBoard, y: int, x: int, yy: int, xx: int) -> bool {
    &&& is_ship_start(b, y, x)
    &&& if run_right(b, y, x) > 1 {
        yy == y && x < xx < x + run_right(b, y, x)
    } else {
        xx == x && y < yy < y + run_down(b, y, x)
    }
}

/// On a well spaced board, an occupied field the scan reaches is already
/// measured exactly when it is not the first field of its ship.
pub(crate) proof fn lemma_measured_at_field(b: ClientBoard, y: int, x: int)
    requires
        ships_spaced(b),
        0 <= y < 10,
        0 <= x < 10,
        occupied(b, y, x),
    ensures
        measured(b, y, x, y, x) <==> !is_ship_start(b, y, x),
{
    lemma_left_end_bounds(b, y, x);
    lemma_top_of_bounds(b, y, x);
    if occupied(b, y - 1, x) {
        lemma_top_of_bounds(b, y - 1, x);
    }
    if occupied(b, y, x - 1) {
        lemma_left_end_bounds(b, y, x - 1);
    }
}

/// On a well spaced board, a field after `(y, x)` is measured once the scan
/// moves past `(y, x)` exactly when it was measured before, or belongs to
/// the ship that starts at `(y, x)`; never both.
pub(crate) proof fn lemma_measured_step(b: ClientBoard, y: int, x: int, yy: int, xx: int)
    requires
        ships_spaced(b),
        0 <= y < 10,
        0 <= x < 10,
        0 <= yy < 10,
        0 <= xx < 10,
        10 * yy + xx >= 10 * y + x + 1,
    ensures
        measured(b, y, x + 1, yy, xx) == (measured(b, y, x, yy, xx) || rest_of_ship(
            b,
            y,
            x,
            yy,
            xx,
        )),
        !(measured(b, y, x, yy, xx) && rest_of_ship(b, y, x, yy, xx)),
{
    assert(spaced_at(b, y, x));
    lemma_left_end_bounds(b, yy, xx);
    lemma_top_of_bounds(b, yy, xx);
    if !is_ship_start(b, y, x) {
        if occupied(b, y, x) {
            lemma_measured_at_field(b, y, x);
        }
        if yy == y && xx > x && occupied(b, yy, xx) && left_end(b, yy, xx) == x {
            lemma_left_run_occupied(b, y, xx, x);
            lemma_left_run_occupied(b, y, xx, x + 1);
            lemma_left_end_chain(b, y, xx, x);
            lemma_left_end_is_start(b, y, xx);
            assert(!spaced_at(b, y, x));
        }
        if occupied(b, yy, xx) && occupied(b, yy - 1, xx) && 10 * top_of(b, yy, xx) + xx == 10 * y
            + x {
            assert(xx == x && top_of(b, yy, xx) == y);
            lemma_top_run_occupied(b, yy, xx, y);
            lemma_top_run_occupied(b, yy, xx, y + 1);
            lemma_top_of_chain(b, yy, xx, y);
            lemma_top_of_is_start(b, yy, xx);
            assert(!spaced_at(b, y, x));
        }
    } else if run_right(b, y, x) > 1 {
        let rr = run_right(b, y, x);
        lemma_run_right_cells(b, y, x + 1);
        assert(occupied(b, y, x + 1));
        if yy == y && x < xx < x + rr {
            lemma_run_right_cells(b, y, x);
            assert forall|j: int| x <= j <= xx implies #[trigger] occupied(b, y, j) by {
                assert(x <= j < x + rr);
            }
            lemma_left_end_of_run(b, y, x, xx);
            if occupied(b, yy - 1, xx) {
                assert(spaced_at(b, yy, xx));
                assert(occupied(b, y, xx - 1));
            }
        } else {
            if yy == y && xx >= x + rr && occupied(b, yy, xx) && left_end(b, yy, xx) <= x {
                lemma_run_right_cells(b, y, x);
                lemma_left_run_occupied(b, y, xx, x + rr);
            }
            if occupied(b, yy, xx) && occupied(b, yy - 1, xx) && 10 * top_of(b, yy, xx) + xx == 10
                * y + x {
                assert(xx == x && top_of(b, yy, xx) == y);
                lemma_top_run_occupied(b, yy, xx, y + 1);
                assert(!spaced_at(b, y, x));
            }
        }
    } else {
        let rd = run_down(b, y, x);
        lemma_run_right_cells(b, y, x);
        assert(!occupied(b, y, x + 1));
        if xx == x && y < yy < y + rd {
            lemma_run_down_cells(b, y, x);
            assert forall|i: int| y <= i <= yy implies #[trigger] occupied(b, i, x) by {
                assert(y <= i < y + rd);
            }
            lemma_top_of_run(b, y, x, yy);
            assert(occupied(b, yy - 1, xx));
        } else {
            if yy == y && xx > x && occupied(b, yy, xx) && left_end(b, yy, xx) <= x {
                lemma_left_run_occupied(b, y, xx, x + 1);
            }
            if occupied(b, yy, xx) && occupied(b, yy - 1, xx) && 10 * top_of(b, yy, xx) + xx == 10
                * y + x {
                assert(xx == x && top_of(b, yy, xx) == y);
                lemma_run_down_cells(b, y, x);
                lemma_top_run_occupied(b, yy, xx, y + rd);
            }
        }
    }
}

/// On a well spaced board, an occupied field reached by the scan and not
/// marked is the first field of its ship; a marked one is not.
pub(crate) proof fn lemma_unmarked_is_start(b: ClientBoard, checked: [[bool; 10]; 10], y: int, x: int)
    requires
        ships_spaced(b),
        0 <= y < 10,
        0 <= x < 10,
        marks_agree(b, checked, y, x),
        occupied(b, y, x),
    ensures
        !marked(checked, y, x) <==> is_ship_start(b, y, x),
{
    assert(marked(checked, y, x) == measured(b, y, x, y, x));
    lemma_measured_at_field(b, y, x);
}

/// Passing over a free or already marked field keeps the marks in agreement.
pub(crate) proof fn lemma_pass_field(b: ClientBoard, checked: [[bool; 10]; 10], y: int, x: int)
    requires
        0 <= y < 10,
        0 <= x < 10,
        marks_agree(b, checked, y, x),
        !occupied(b, y, x) || marked(checked, y, x),
    ensures
        marks_agree(b, checked, y, x + 1),
{
    if ships_spaced(b) {
        if occupied(b, y, x) {
            lemma_unmarked_is_start(b, checked, y, x);
        }
        assert forall|yy: int, xx: int|
            0 <= yy < 10 && 0 <= xx < 10 && 10 * yy + xx >= 10 * y + x + 1 implies #[trigger] marked(
            checked,
            yy,
            xx,
        ) == measured(b, y, x + 1, yy, xx) by {
            assert(marked(checked, yy, xx) == measured(b, y, x, yy, xx));
            lemma_measured_step(b, y, x, yy, xx);
        }
    }
}

/// Measuring a horizontal ship from its first field `(y, x)` and marking
/// its other fields keeps the marks in agreement.
pub(crate) proof fn lemma_measure_across(
    b: ClientBoard,
    before: [[bool; 10]; 10],
    after: [[bool; 10]; 10],
    y: int,
    x: int,
)
    requires
        0 <= y < 10,
        0 <= x < 10,
        marks_agree(b, before, y, x),
        occupied(b, y, x),
        !marked(before, y, x),
        run_right(b, y, x) > 1,
        forall|yy: int, xx: int|
            0 <= yy < 10 && 0 <= xx < 10 ==> #[trigger] marked(after, yy, xx) == (marked(
                before,
                yy,
                xx,
            ) || (yy == y && x < xx < x + run_right(b, y, x))),
    ensures
        marks_agree(b, after, y, x + 1),
{
    if ships_spaced(b) {
        lemma_unmarked_is_start(b, before, y, x);
        assert forall|yy: int, xx: int|
            0 <= yy < 10 && 0 <= xx < 10 && 10 * yy + xx >= 10 * y + x + 1 implies #[trigger] marked(
            after,
            yy,
            xx,
        ) == measured(b, y, x + 1, yy, xx) by {
            assert(marked(before, yy, xx) == measured(b, y, x, yy, xx));
            lemma_measured_step(b, y, x, yy, xx);
        }
    }
}

/// Measuring a vertical ship (or a single field) from its first field
/// `(y, x)` and marking its other fields keeps the marks in agreement.
pub(crate) proof fn lemma_measure_down(
    b: ClientBoard,
    before: [[bool; 10]; 10],
    after: [[bool; 10]; 10],
    y: int,
    x: int,
)
    requires
        0 <= y < 10,
        0 <= x < 10,
        marks_agree(b, before, y, x),
        occupied(b, y, x),
        !marked(before, y, x),
        run_right(b, y, x) == 1,
        forall|yy: int, xx: int|
            0 <= yy < 10 && 0 <= xx < 10 ==> #[trigger] marked(after, yy, xx) == (marked(
                before,
                yy,
                xx,
            ) || (xx == x && y < yy < y + run_down(b, y, x))),
    ensures
        marks_agree(b, after, y, x + 1),
{
    if ships_spaced(b) {
        lemma_unmarked_is_start(b, before, y, x);
        assert forall|yy: int, xx: int|
            0 <= yy < 10 && 0 <= xx < 10 && 10 * yy + xx >= 10 * y + x + 1 implies #[trigger] marked(
            after,
            yy,
            xx,
        ) == measured(b, y, x + 1, yy, xx) by {
            assert(marked(before, yy, xx) == measured(b, y, x, yy, xx));
            lemma_measured_step(b, y, x, yy, xx);
        }
    }
}

/// Ships of any length that start in row `y` left of column `x`.
pub open spec fn row_starts(b: ClientBoard, y: int, x: int) -> nat
    decreases x,
{
    if x <= 0 {
        0
    } else {
        row_starts(b, y, x - 1) + if is_ship_start(b, y, x - 1) {
            1nat
        } else {
            0nat
        }
    }
}

/// Ships of any length that start in the rows above row `y`.
pub open spec fn rows_starts(b: ClientBoard, y: int) -> nat
    decreases y,
{
    if y <= 0 {
        0
    } else {
        rows_starts(b, y - 1) + row_starts(b, y - 1, 10)
    }
}

/// Number of ships on the board, whatever their length.
pub open spec fn fleet_size(b: ClientBoard) -> nat {
    rows_starts(b, 10)
}

/// `f(0) + f(1) + ... + f(k - 1)`.
pub open spec fn sum_below(f: spec_fn(nat) -> nat, k: nat) -> nat
    decreases k,
{
    if k == 0 {
        0
    } else {
        sum_below(f, (k - 1) as nat) + f((k - 1) as nat)
    }
}

proof fn lemma_sum_below_bump(f: spec_fn(nat) -> nat, g: spec_fn(nat) -> nat, at: nat, k: nat)
    requires
        forall|len: nat| #[trigger] g(len) == f(len) + if len == at {
            1nat
        } else {
            0nat
        },
    ensures
        sum_below(g, k) == sum_below(f, k) + if at < k {
            1nat
        } else {
            0nat
        },
    decreases k,
{
    if k > 0 {
        lemma_sum_below_bump(f, g, at, (k - 1) as nat);
    }
}

proof fn lemma_sum_below_same(f: spec_fn(nat) -> nat, g: spec_fn(nat) -> nat, k: nat)
    requires
        forall|len: nat| #[trigger] g(len) == f(len),
    ensures
        sum_below(g, k) == sum_below(f, k),
    decreases k,
{
    if k > 0 {
        lemma_sum_below_same(f, g, (k - 1) as nat);
    }
}

proof fn lemma_sum_below_add(f: spec_fn(nat) -> nat, g: spec_fn(nat) -> nat, h: spec_fn(nat) -> nat, k: nat)
    requires
        forall|len: nat| #[trigger] h(len) == f(len) + g(len),
    ensures
        sum_below(h, k) == sum_below(f, k) + sum_below(g, k),
    decreases k,
{
    if k > 0 {
        lemma_sum_below_add(f, g, h, (k - 1) as nat);
    }
}

proof fn lemma_sum_below_zero(f: spec_fn(nat) -> nat, k: nat)
    requires
        forall|len: nat| #[trigger] f(len) == 0,
    ensures
        sum_below(f, k) == 0,
    decreases k,
{
    if k > 0 {
        lemma_sum_below_zero(f, (k - 1) as nat);
    }
}

proof fn lemma_ship_length_bound(b: ClientBoard, y: int, x: int)
    requires
        is_ship_start(b, y, x),
    ensures
        ship_length(b, y, x) <= 10,
{
    lemma_run_right_bound(b, y, x);
    lemma_run_down_bound(b, y, x);
}

proof fn lemma_row_starts_by_length(b: ClientBoard, y: int, x: int)
    requires
        0 <= x <= 10,
    ensures
        row_starts(b, y, x) == sum_below(|len: nat| row_ships(b, len, y, x), 11),
    decreases x,
{
    if x == 0 {
        lemma_sum_below_zero(|len: nat| row_ships(b, len, y, x), 11);
    } else {
        lemma_row_starts_by_length(b, y, x - 1);
        let f = |len: nat| row_ships(b, len, y, x - 1);
        let g = |len: nat| row_ships(b, len, y, x);
        if is_ship_start(b, y, x - 1) {
            lemma_ship_length_bound(b, y, x - 1);
            lemma_sum_below_bump(f, g, ship_length(b, y, x - 1), 11);
        } else {
            lemma_sum_below_same(f, g, 11);
        }
    }
}

proof fn lemma_rows_starts_by_length(b: ClientBoard, y: int)
    requires
        0 <= y <= 10,
    ensures
        rows_starts(b, y) == sum_below(|len: nat| rows_ships(b, len, y), 11),
    decreases y,
{
    if y == 0 {
        lemma_sum_below_zero(|len: nat| rows_ships(b, len, y), 11);
    } else {
        lemma_rows_starts_by_length(b, y - 1);
        lemma_row_starts_by_length(b, y - 1, 10);
        lemma_sum_below_add(
            |len: nat| rows_ships(b, len, y - 1),
            |len: nat| row_ships(b, len, y - 1, 10),
            |len: nat| rows_ships(b, len, y),
            11,
        );
    }
}

/// A layout that passes verification holds exactly `INITIAL_SHIPS_COUNT`
/// ships, the number each player starts a game with.
pub proof fn lemma_valid_board_has_initial_fleet(b: ClientBoard)
    requires
        valid_board(b),
    ensures
        fleet_size(b) == INITIAL_SHIPS_COUNT,
{
    lemma_rows_starts_by_length(b, 10);
    let f = |len: nat| rows_ships(b, len, 10);
    assert(f(0) == ship_count(b, 0));
    assert(f(1) == ship_count(b, 1));
    assert(f(2) == ship_count(b, 2));
    assert(f(3) == ship_count(b, 3));
    assert(f(4) == ship_count(b, 4));
    assert(f(5) == ship_count(b, 5));
    assert(f(6) == ship_count(b, 6));
    assert(f(7) == ship_count(b, 7));
    assert(f(8) == ship_count(b, 8));
    assert(f(9) == ship_count(b, 9));
    assert(f(10) == ship_count(b, 10));
    reveal_with_fuel(sum_below, 12);
}

// ---------------------------------------------------------------------
// Counting fields
// ---------------------------------------------------------------------

/// Number of fields in columns `0..n` of row `y` that satisfy `f`.
pub open spec fn row_count(f: spec_fn(int, int) -> bool, y: int, n: int) -> nat
    decreases n,
{
    if n <= 0 {
        0
    } else {
        row_count(f, y, n - 1) + if f(y, n - 1) {
            1nat
        } else {
            0nat
        }
    }
}

/// Number of fields in rows `0..m` that satisfy `f`.
pub open spec fn rows_count(f: spec_fn(int, int) -> bool, m: int) -> nat
    decreases m,
{
    if m <= 0 {
        0
    } else {
        rows_count(f, m - 1) + row_count(f, m - 1, 10)
    }
}

/// Number of fields of the board that satisfy `f`.
pub open spec fn grid_count(f: spec_fn(int, int) -> bool) -> nat {
    rows_count(f, 10)
}

/// Number of occupied fields.
pub open spec fn occupied_fields(b: ClientBoard) -> nat {
    grid_count(|y: int, x: int| occupied(b, y, x))
}

proof fn lemma_row_count_split(
    f: spec_fn(int, int) -> bool,
    g: spec_fn(int, int) -> bool,
    h: spec_fn(int, int) -> bool,
    y: int,
    n: int,
)
    requires
        0 <= y < 10,
        n <= 10,
        forall|yy: int, xx: int|
            0 <= yy < 10 && 0 <= xx < 10 ==> #[trigger] f(yy, xx) == (g(yy, xx) || h(yy, xx)) && !(
            g(yy, xx) && h(yy, xx)),
    ensures
        row_count(f, y, n) == row_count(g, y, n) + row_count(h, y, n),
    decreases n,
{
    if n > 0 {
        lemma_row_count_split(f, g, h, y, n - 1);
        assert(f(y, n - 1) == (g(y, n - 1) || h(y, n - 1)) && !(g(y, n - 1) && h(y, n - 1)));
    }
}

proof fn lemma_rows_count_split(
    f: spec_fn(int, int) -> bool,
    g: spec_fn(int, int) -> bool,
    h: spec_fn(int, int) -> bool,
    m: int,
)
    requires
        m <= 10,
        forall|yy: int, xx: int|
            0 <= yy < 10 && 0 <= xx < 10 ==> #[trigger] f(yy, xx) == (g(yy, xx) || h(yy, xx)) && !(
            g(yy, xx) && h(yy, xx)),
    ensures
        rows_count(f, m) == rows_count(g, m) + rows_count(h, m),
    decreases m,
{
    if m > 0 {
        lemma_rows_count_split(f, g, h, m - 1);
        lemma_row_count_split(f, g, h, m - 1, 10);
    }
}

/// Counting the fields of two disjoint kinds together adds their counts.
pub proof fn lemma_count_split(
    f: spec_fn(int, int) -> bool,
    g: spec_fn(int, int) -> bool,
    h: spec_fn(int, int) -> bool,
)
    requires
        forall|yy: int, xx: int|
            0 <= yy < 10 && 0 <= xx < 10 ==> #[trigger] f(yy, xx) == (g(yy, xx) || h(yy, xx)) && !(
            g(yy, xx) && h(yy, xx)),
    ensures
        grid_count(f) == grid_count(g) + grid_count(h),
{
    lemma_rows_count_split(f, g, h, 10);
}

proof fn lemma_row_count_none(f: spec_fn(int, int) -> bool, y: int, n: int)
    requires
        0 <= y < 10,
        n <= 10,
        forall|xx: int| 0 <= xx < 10 ==> !#[trigger] f(y, xx),
    ensures
        row_count(f, y, n) == 0,
    decreases n,
{
    if n > 0 {
        lemma_row_count_none(f, y, n - 1);
    }
}

proof fn lemma_rows_count_none(f: spec_fn(int, int) -> bool, m: int)
    requires
        m <= 10,
        forall|yy: int, xx: int| 0 <= yy < 10 && 0 <= xx < 10 ==> !#[trigger] f(yy, xx),
    ensures
        rows_count(f, m) == 0,
    decreases m,
{
    if m > 0 {
        lemma_rows_count_none(f, m - 1);
        lemma_row_count_none(f, m - 1, 10);
    }
}

/// No field satisfies `f`: the count is zero.
pub(crate) proof fn lemma_count_none(f: spec_fn(int, int) -> bool)
    requires
        forall|yy: int, xx: int| 0 <= yy < 10 && 0 <= xx < 10 ==> !#[trigger] f(yy, xx),
    ensures
        grid_count(f) == 0,
{
    lemma_rows_count_none(f, 10);
}

/// Two descriptions of the same fields count the same.
pub(crate) proof fn lemma_count_same(f: spec_fn(int, int) -> bool, g: spec_fn(int, int) -> bool)
    requires
        forall|yy: int, xx: int| 0 <= yy < 10 && 0 <= xx < 10 ==> #[trigger] f(yy, xx) == g(yy, xx),
    ensures
        grid_count(f) == grid_count(g),
{
    let none = |yy: int, xx: int| false;
    lemma_count_none(none);
    lemma_count_split(f, g, none);
}

proof fn lemma_row_count_segment(f: spec_fn(int, int) -> bool, y: int, lo: int, hi: int, yy: int, n: int)
    requires
        0 <= y < 10,
        0 <= yy < 10,
        0 <= lo <= hi <= 10,
        0 <= n <= 10,
        forall|a: int, c: int| 0 <= a < 10 && 0 <= c < 10 ==> #[trigger] f(a, c) == (a == y && lo <= c < hi),
    ensures
        row_count(f, yy, n) == if yy != y || n <= lo {
            0
        } else if n >= hi {
            hi - lo
        } else {
            n - lo
        },
    decreases n,
{
    if n > 0 {
        lemma_row_count_segment(f, y, lo, hi, yy, n - 1);
        assert(f(yy, n - 1) == (yy == y && lo <= n - 1 < hi));
    }
}

proof fn lemma_rows_count_segment(f: spec_fn(int, int) -> bool, y: int, lo: int, hi: int, m: int)
    requires
        0 <= y < 10,
        0 <= lo <= hi <= 10,
        0 <= m <= 10,
        forall|a: int, c: int| 0 <= a < 10 && 0 <= c < 10 ==> #[trigger] f(a, c) == (a == y && lo <= c < hi),
    ensures
        rows_count(f, m) == if m > y {
            hi - lo
        } else {
            0
        },
    decreases m,
{
    if m > 0 {
        lemma_rows_count_segment(f, y, lo, hi, m - 1);
        lemma_row_count_segment(f, y, lo, hi, m - 1, 10);
    }
}

/// The fields `lo..hi` of row `y` number `hi - lo`.
proof fn lemma_count_row_segment(f: spec_fn(int, int) -> bool, y: int, lo: int, hi: int)
    requires
        0 <= y < 10,
        0 <= lo <= hi <= 10,
        forall|a: int, c: int| 0 <= a < 10 && 0 <= c < 10 ==> #[trigger] f(a, c) == (a == y && lo <= c < hi),
    ensures
        grid_count(f) == hi - lo,
{
    lemma_rows_count_segment(f, y, lo, hi, 10);
}

proof fn lemma_row_count_column(f: spec_fn(int, int) -> bool, x: int, lo: int, hi: int, yy: int, n: int)
    requires
        0 <= x < 10,
        0 <= yy < 10,
        0 <= n <= 10,
        forall|a: int, c: int| 0 <= a < 10 && 0 <= c < 10 ==> #[trigger] f(a, c) == (c == x && lo <= a < hi),
    ensures
        row_count(f, yy, n) == if lo <= yy < hi && n > x {
            1nat
        } else {
            0nat
        },
    decreases n,
{
    if n > 0 {
        lemma_row_count_column(f, x, lo, hi, yy, n - 1);
        assert(f(yy, n - 1) == (n - 1 == x && lo <= yy < hi));
    }
}

proof fn lemma_rows_count_column(f: spec_fn(int, int) -> bool, x: int, lo: int, hi: int, m: int)
    requires
        0 <= x < 10,
        0 <= lo <= hi <= 10,
        0 <= m <= 10,
        forall|a: int, c: int| 0 <= a < 10 && 0 <= c < 10 ==> #[trigger] f(a, c) == (c == x && lo <= a < hi),
    ensures
        rows_count(f, m) == if m <= lo {
            0
        } else if m >= hi {
            hi - lo
        } else {
            m - lo
        },
    decreases m,
{
    if m > 0 {
        lemma_rows_count_column(f, x, lo, hi, m - 1);
        lemma_row_count_column(f, x, lo, hi, m - 1, 10);
    }
}

/// The fields `lo..hi` of column `x` number `hi - lo`.
proof fn lemma_count_column_segment(f: spec_fn(int, int) -> bool, x: int, lo: int, hi: int)
    requires
        0 <= x < 10,
        0 <= lo <= hi <= 10,
        forall|a: int, c: int| 0 <= a < 10 && 0 <= c < 10 ==> #[trigger] f(a, c) == (c == x && lo <= a < hi),
    ensures
        grid_count(f) == hi - lo,
{
    lemma_rows_count_column(f, x, lo, hi, 10);
}

// ---------------------------------------------------------------------
// Every field of a ship, counted by the ship's length
// ---------------------------------------------------------------------

/// Number of consecutive occupied fields from `(y, x)` leftwards.
pub open spec fn run_left(b: ClientBoard, y: int, x: int) -> nat
    decreases x + 1,
{
    if x >= 0 && occupied(b, y, x) {
        1 + run_left(b, y, x - 1)
    } else {
        0
    }
}

/// Number of consecutive occupied fields from `(y, x)` upwards.
pub open spec fn run_up(b: ClientBoard, y: int, x: int) -> nat
    decreases y + 1,
{
    if y >= 0 && occupied(b, y, x) {
        1 + run_up(b, y - 1, x)
    } else {
        0
    }
}

/// Length of the ship an occupied field belongs to: the run of its row
/// through it when that is longer than one field, the run of its column
/// through it otherwise.
pub open spec fn field_ship_length(b: ClientBoard, y: int, x: int) -> int {
    let across = run_left(b, y, x) + run_right(b, y, x) - 1;
    if across > 1 {
        across
    } else {
        run_up(b, y, x) + run_down(b, y, x) - 1
    }
}

/// The fields that belong to ships of length `len`.
pub open spec fn fields_of_length(b: ClientBoard, len: nat) -> spec_fn(int, int) -> bool {
    |y: int, x: int| occupied(b, y, x) && field_ship_length(b, y, x) == len
}

proof fn lemma_run_left_of_run(b: ClientBoard, y: int, x: int, xx: int)
    requires
        0 <= x <= xx,
        !occupied(b, y, x - 1),
        forall|j: int| x <= j <= xx ==> #[trigger] occupied(b, y, j),
    ensures
        run_left(b, y, xx) == xx - x + 1,
    decreases xx,
{
    if xx > x {
        lemma_run_left_of_run(b, y, x, xx - 1);
    } else {
        assert(run_left(b, y, x - 1) == 0);
    }
}

proof fn lemma_run_up_of_run(b: ClientBoard, y: int, x: int, yy: int)
    requires
        0 <= y <= yy,
        !occupied(b, y - 1, x),
        forall|i: int| y <= i <= yy ==> #[trigger] occupied(b, i, x),
    ensures
        run_up(b, yy, x) == yy - y + 1,
    decreases yy,
{
    if yy > y {
        lemma_run_up_of_run(b, y, x, yy - 1);
    } else {
        assert(run_up(b, y - 1, x) == 0);
    }
}

proof fn lemma_run_right_within(b: ClientBoard, y: int, x: int, xx: int)
    requires
        0 <= x <= xx <= x + run_right(b, y, x),
        x <= 10,
    ensures
        run_right(b, y, xx) == x + run_right(b, y, x) - xx,
    decreases xx - x,
{
    if xx > x {
        assert(run_right(b, y, x) == 1 + run_right(b, y, x + 1));
        lemma_run_right_within(b, y, x + 1, xx);
    }
}

proof fn lemma_run_down_within(b: ClientBoard, y: int, x: int, yy: int)
    requires
        0 <= y <= yy <= y + run_down(b, y, x),
        y <= 10,
    ensures
        run_down(b, yy, x) == y + run_down(b, y, x) - yy,
    decreases yy - y,
{
    if yy > y {
        assert(run_down(b, y, x) == 1 + run_down(b, y + 1, x));
        lemma_run_down_within(b, y + 1, x, yy);
    }
}

/// On a well spaced board every field of the ship that starts at `(y, x)`
/// is occupied and belongs, by `field_ship_length`, to a ship of that length.
proof fn lemma_ship_fields_length(b: ClientBoard, y: int, x: int, yy: int, xx: int)
    requires
        ships_spaced(b),
        0 <= y < 10,
        0 <= x < 10,
        is_ship_start(b, y, x),
        (yy == y && xx == x) || rest_of_ship(b, y, x, yy, xx),
    ensures
        occupied(b, yy, xx),
        field_ship_length(b, yy, xx) == ship_length(b, y, x),
{
    let rr = run_right(b, y, x);
    let rd = run_down(b, y, x);
    lemma_run_right_bound(b, y, x);
    lemma_run_down_bound(b, y, x);
    lemma_run_right_cells(b, y, x);
    lemma_run_down_cells(b, y, x);
    assert(spaced_at(b, y, x));
    if rr > 1 {
        assert(yy == y && x <= xx < x + rr);
        assert(occupied(b, y, xx));
        assert forall|j: int| x <= j <= xx implies #[trigger] occupied(b, y, j) by {
            assert(x <= j < x + rr);
        }
        lemma_run_left_of_run(b, y, x, xx);
        lemma_run_right_within(b, y, x, xx);
    } else {
        assert(xx == x && y <= yy < y + rd);
        assert(occupied(b, yy, x));
        assert forall|i: int| y <= i <= yy implies #[trigger] occupied(b, i, x) by {
            assert(y <= i < y + rd);
        }
        lemma_run_up_of_run(b, y, x, yy);
        lemma_run_down_within(b, y, x, yy);
        if yy > y {
            assert(spaced_at(b, yy, x));
            assert(occupied(b, yy - 1, x));
        } else {
            assert(!occupied(b, y, x + 1));
        }
        assert(!occupied(b, yy, x - 1) && !occupied(b, yy, x + 1));
        assert(run_left(b, yy, x - 1) == 0);
        assert(run_right(b, yy, x + 1) == 0);
    }
}

/// The fields the scan has passed, of ships of length `len`.
pub open spec fn passed_fields(b: ClientBoard, len: nat, y: int, x: int) -> spec_fn(int, int) -> bool {
    |yy: int, xx: int| 10 * yy + xx < 10 * y + x && occupied(b, yy, xx) && field_ship_length(b, yy, xx) == len
}

/// The fields the scan has still to pass whose ship it already measured,
/// of ships of length `len`.
pub open spec fn pending_fields(b: ClientBoard, len: nat, y: int, x: int) -> spec_fn(int, int) -> bool {
    |yy: int, xx: int|
        10 * yy + xx >= 10 * y + x && measured(b, y, x, yy, xx) && field_ship_length(b, yy, xx) == len
}

/// The ships of length `len` that start before `(y, x)` have as many
/// fields as are passed or pending.
pub open spec fn scan_balance(b: ClientBoard, len: nat, y: int, x: int) -> bool {
    len * (rows_ships(b, len, y) + row_ships(b, len, y, x)) == grid_count(passed_fields(b, len, y, x))
        + grid_count(pending_fields(b, len, y, x))
}

proof fn lemma_balance_begins(b: ClientBoard, len: nat)
    ensures
        scan_balance(b, len, 0, 0),
{
    assert forall|yy: int, xx: int| 0 <= yy < 10 && 0 <= xx < 10 implies !#[trigger] pending_fields(
        b,
        len,
        0,
        0,
    )(yy, xx) by {
        lemma_left_end_bounds(b, yy, xx);
        lemma_top_of_bounds(b, yy, xx);
    }
    lemma_count_none(pending_fields(b, len, 0, 0));
    lemma_count_none(passed_fields(b, len, 0, 0));
    assert(rows_ships(b, len, 0) == 0 && row_ships(b, len, 0, 0) == 0);
    assert(len * 0 == 0) by (nonlinear_arith);
}

proof fn lemma_balance_next_row(b: ClientBoard, len: nat, y: int)
    requires
        0 <= y < 10,
        scan_balance(b, len, y, 10),
    ensures
        scan_balance(b, len, y + 1, 0),
{
    lemma_count_same(passed_fields(b, len, y, 10), passed_fields(b, len, y + 1, 0));
    assert forall|yy: int, xx: int| 0 <= yy < 10 && 0 <= xx < 10 implies #[trigger] pending_fields(
        b,
        len,
        y,
        10,
    )(yy, xx) == pending_fields(b, len, y + 1, 0)(yy, xx) by {
        lemma_left_end_bounds(b, yy, xx);
    }
    lemma_count_same(pending_fields(b, len, y, 10), pending_fields(b, len, y + 1, 0));
}

proof fn lemma_balance_step(b: ClientBoard, len: nat, y: int, x: int)
    requires
        ships_spaced(b),
        0 <= y < 10,
        0 <= x < 10,
        scan_balance(b, len, y, x),
    ensures
        scan_balance(b, len, y, x + 1),
{
    let here = |yy: int, xx: int| yy == y && xx == x;
    let a1 = |yy: int, xx: int|
        10 * yy + xx >= 10 * y + x + 1 && measured(b, y, x, yy, xx) && field_ship_length(b, yy, xx) == len;
    let c = |yy: int, xx: int| here(yy, xx) && measured(b, y, x, yy, xx) && field_ship_length(b, yy, xx) == len;
    let d = |yy: int, xx: int| here(yy, xx) && occupied(b, yy, xx) && field_ship_length(b, yy, xx) == len;
    let r = |yy: int, xx: int| rest_of_ship(b, y, x, yy, xx) && field_ship_length(b, yy, xx) == len;
    let start = is_ship_start(b, y, x);
    let lx = ship_length(b, y, x);
    lemma_run_right_bound(b, y, x);
    lemma_run_down_bound(b, y, x);
    // the pending fields before and after this field
    lemma_count_split(pending_fields(b, len, y, x), a1, c);
    assert forall|yy: int, xx: int| 0 <= yy < 10 && 0 <= xx < 10 implies #[trigger] pending_fields(
        b,
        len,
        y,
        x + 1,
    )(yy, xx) == (a1(yy, xx) || r(yy, xx)) && !(a1(yy, xx) && r(yy, xx)) by {
        if 10 * yy + xx >= 10 * y + x + 1 {
            lemma_measured_step(b, y, x, yy, xx);
        }
    }
    lemma_count_split(pending_fields(b, len, y, x + 1), a1, r);
    // the passed fields
    lemma_count_split(passed_fields(b, len, y, x + 1), passed_fields(b, len, y, x), d);
    // this field and the rest of its ship
    if occupied(b, y, x) {
        lemma_measured_at_field(b, y, x);
    }
    if start {
        lemma_ship_fields_length(b, y, x, y, x);
        assert forall|yy: int, xx: int| 0 <= yy < 10 && 0 <= xx < 10 implies #[trigger] r(yy, xx)
            == (rest_of_ship(b, y, x, yy, xx) && lx == len) by {
            if rest_of_ship(b, y, x, yy, xx) {
                lemma_ship_fields_length(b, y, x, yy, xx);
            }
        }
        if lx == len {
            if run_right(b, y, x) > 1 {
                lemma_count_row_segment(r, y, x + 1, x + run_right(b, y, x));
            } else {
                lemma_count_column_segment(r, x, y + 1, y + run_down(b, y, x));
            }
            lemma_count_row_segment(d, y, x, x + 1);
            assert(len * (rows_ships(b, len, y) + row_ships(b, len, y, x + 1)) == len * (rows_ships(
                b,
                len,
                y,
            ) + row_ships(b, len, y, x)) + len) by (nonlinear_arith)
                requires
                    row_ships(b, len, y, x + 1) == row_ships(b, len, y, x) + 1,
            ;
        } else {
            lemma_count_none(r);
            lemma_count_none(d);
        }
        lemma_count_none(c);
    } else {
        lemma_count_none(r);
        if occupied(b, y, x) && field_ship_length(b, y, x) == len {
            lemma_count_row_segment(c, y, x, x + 1);
            lemma_count_row_segment(d, y, x, x + 1);
        } else {
            lemma_count_none(c);
            lemma_count_none(d);
        }
    }
}

proof fn lemma_balance_row(b: ClientBoard, len: nat, y: int, x: int)
    requires
        ships_spaced(b),
        0 <= y < 10,
        0 <= x <= 10,
        scan_balance(b, len, y, 0),
    ensures
        scan_balance(b, len, y, x),
    decreases x,
{
    if x > 0 {
        lemma_balance_row(b, len, y, x - 1);
        lemma_balance_step(b, len, y, x - 1);
    }
}

proof fn lemma_balance_rows(b: ClientBoard, len: nat, y: int)
    requires
        ships_spaced(b),
        0 <= y <= 10,
    ensures
        scan_balance(b, len, y, 0),
    decreases y,
{
    if y == 0 {
        lemma_balance_begins(b, len);
    } else {
        lemma_balance_rows(b, len, y - 1);
        lemma_balance_row(b, len, y - 1, 10);
        lemma_balance_next_row(b, len, y - 1);
    }
}

/// On a well spaced board, the ships of length `len` have together
/// `len` times as many fields as there are such ships: every field belongs
/// to exactly one ship.
pub proof fn lemma_fields_of_ships(b: ClientBoard, len: nat)
    requires
        ships_spaced(b),
    ensures
        grid_count(fields_of_length(b, len)) == len * ship_count(b, len),
{
    lemma_balance_rows(b, len, 10);
    lemma_count_same(passed_fields(b, len, 10, 0), fields_of_length(b, len));
    lemma_count_none(pending_fields(b, len, 10, 0));
}

// ---------------------------------------------------------------------
// How many fields a valid layout occupies
// ---------------------------------------------------------------------

proof fn lemma_run_left_bound(b: ClientBoard, y: int, x: int)
    requires
        -1 <= x,
    ensures
        run_left(b, y, x) <= x + 1,
    decreases x + 1,
{
    if x >= 0 {
        lemma_run_left_bound(b, y, x - 1);
    }
}

proof fn lemma_run_up_bound(b: ClientBoard, y: int, x: int)
    requires
        -1 <= y,
    ensures
        run_up(b, y, x) <= y + 1,
    decreases y + 1,
{
    if y >= 0 {
        lemma_run_up_bound(b, y - 1, x);
    }
}

/// An occupied field belongs to a ship of one to ten fields.
proof fn lemma_field_ship_length_bounds(b: ClientBoard, y: int, x: int)
    requires
        occupied(b, y, x),
    ensures
        1 <= field_ship_length(b, y, x) <= 10,
{
    lemma_run_left_bound(b, y, x);
    lemma_run_right_bound(b, y, x);
    lemma_run_up_bound(b, y, x);
    lemma_run_down_bound(b, y, x);
    assert(run_left(b, y, x) >= 1 && run_right(b, y, x) >= 1);
    assert(run_up(b, y, x) >= 1 && run_down(b, y, x) >= 1);
}

/// The occupied fields whose ship is shorter than `k`.
pub open spec fn fields_below(b: ClientBoard, k: nat) -> spec_fn(int, int) -> bool {
    |y: int, x: int| occupied(b, y, x) && field_ship_length(b, y, x) < k
}

proof fn lemma_fields_below(b: ClientBoard, k: nat)
    requires
        ships_spaced(b),
    ensures
        grid_count(fields_below(b, k)) == sum_below(|len: nat| len * ship_count(b, len), k),
    decreases k,
{
    if k == 0 {
        assert forall|yy: int, xx: int| 0 <= yy < 10 && 0 <= xx < 10 implies !#[trigger] fields_below(
            b,
            k,
        )(yy, xx) by {
            if occupied(b, yy, xx) {
                lemma_field_ship_length_bounds(b, yy, xx);
            }
        }
        lemma_count_none(fields_below(b, k));
    } else {
        let l = (k - 1) as nat;
        lemma_fields_below(b, l);
        lemma_fields_of_ships(b, l);
        lemma_count_split(fields_below(b, k), fields_below(b, l), fields_of_length(b, l));
    }
}

/// A valid layout occupies exactly eighteen fields: two ships of one field,
/// two of two, and one each of three, four and five.
pub proof fn lemma_valid_board_has_eighteen_fields(b: ClientBoard)
    requires
        valid_board(b),
    ensures
        occupied_fields(b) == 18,
{
    lemma_fields_below(b, 11);
    assert forall|yy: int, xx: int| 0 <= yy < 10 && 0 <= xx < 10 implies #[trigger] fields_below(
        b,
        11,
    )(yy, xx) == (|y: int, x: int| occupied(b, y, x))(yy, xx) by {
        if occupied(b, yy, xx) {
            lemma_field_ship_length_bounds(b, yy, xx);
        }
    }
    lemma_count_same(fields_below(b, 11), |y: int, x: int| occupied(b, y, x));
    let f = |len: nat| len * ship_count(b, len);
    assert(f(0) == 0 * ship_count(b, 0));
    assert(f(1) == 1 * ship_count(b, 1));
    assert(f(2) == 2 * ship_count(b, 2));
    assert(f(3) == 3 * ship_count(b, 3));
    assert(f(4) == 4 * ship_count(b, 4));
    assert(f(5) == 5 * ship_count(b, 5));
    assert(f(6) == 6 * ship_count(b, 6));
    assert(f(7) == 7 * ship_count(b, 7));
    assert(f(8) == 8 * ship_count(b, 8));
    assert(f(9) == 9 * ship_count(b, 9));
    assert(f(10) == 10 * ship_count(b, 10));
    reveal_with_fuel(sum_below, 12);
}

/// `b2` is `b` with the one field `(y, x)` turned over.
pub open spec fn flipped_at(b: ClientBoard, b2: ClientBoard, y: int, x: int) -> bool {
    forall|i: int, j: int|
        0 <= i < 10 && 0 <= j < 10 ==> #[trigger] b2@[i]@[j] == if i == y && j == x {
            !b@[i]@[j]
        } else {
            b@[i]@[j]
        }
}

/// Adding a segment to a valid layout, or taking one away, never leaves a
/// valid layout.
pub proof fn lemma_flipping_a_field_breaks_a_valid_layout(b: ClientBoard, b2: ClientBoard, y: int, x: int)
    requires
        valid_board(b),
        0 <= y < 10,
        0 <= x < 10,
        flipped_at(b, b2, y, x),
    ensures
        !valid_board(b2),
{
    lemma_valid_board_has_eighteen_fields(b);
    let here = |i: int, j: int| i == y && j == x;
    let occ = |i: int, j: int| occupied(b, i, j);
    let occ2 = |i: int, j: int| occupied(b2, i, j);
    lemma_count_row_segment(here, y, x, x + 1);
    if b@[y]@[x] {
        lemma_count_split(occ, occ2, here);
    } else {
        lemma_count_split(occ2, occ, here);
    }
    if valid_board(b2) {
        lemma_valid_board_has_eighteen_fields(b2);
    }
}

} // verus!
