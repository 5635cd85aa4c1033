//! Whether a layout is valid does not depend on how the board is turned:
//! transposing it, or mirroring it left to right or top to bottom, keeps a
//! valid layout valid and an invalid one invalid.
use vstd::prelude::*;
use crate::fleet::{
    field_ship_length, fields_of_length, grid_count, lemma_count_none, lemma_count_same,
    lemma_count_split, lemma_fields_of_ships, occupied, row_count, rows_count, row_ships, rows_ships,
    run_down, run_left, run_right, run_up, ship_count, ships_spaced, spaced_at, valid_board,
    fleet_complete, is_ship_start, ship_length, starts_ship_of,
};
use crate::protocol::ClientBoard;

verus! {

// ---------------------------------------------------------------------
// Counting is blind to the order of the fields
// ---------------------------------------------------------------------

/// Number of fields in columns `lo..10` of row `y` that satisfy `f`.
pub open spec fn row_from(f: spec_fn(int, int) -> bool, y: int, lo: int) -> nat
    decreases 10 - lo,
{
    if lo >= 10 {
        0
    } else {
        (if f(y, lo) {
            1nat
        } else {
            0nat
        }) + row_from(f, y, lo + 1)
    }
}

proof fn lemma_row_prefix_suffix(f: spec_fn(int, int) -> bool, y: int, n: int)
    requires
        0 <= n <= 10,
    ensures
        row_count(f, y, n) + row_from(f, y, n) == row_count(f, y, 10),
    decreases 10 - n,
{
    if n < 10 {
        lemma_row_prefix_suffix(f, y, n + 1);
    }
}

proof fn lemma_row_reversed(f: spec_fn(int, int) -> bool, g: spec_fn(int, int) -> bool, y: int, n: int)
    requires
        0 <= n <= 10,
        forall|xx: int| 0 <= xx < 10 ==> #[trigger] g(y, xx) == f(y, 9 - xx),
    ensures
        row_count(g, y, n) == row_from(f, y, 10 - n),
    decreases n,
{
    if n > 0 {
        lemma_row_reversed(f, g, y, n - 1);
        assert(g(y, n - 1) == f(y, 10 - n));
    }
}

proof fn lemma_rows_mirrored_across(f: spec_fn(int, int) -> bool, g: spec_fn(int, int) -> bool, m: int)
    requires
        0 <= m <= 10,
        forall|yy: int, xx: int| 0 <= yy < 10 && 0 <= xx < 10 ==> #[trigger] g(yy, xx) == f(yy, 9 - xx),
    ensures
        rows_count(g, m) == rows_count(f, m),
    decreases m,
{
    if m > 0 {
        let y = m - 1;
        lemma_rows_mirrored_across(f, g, y);
        assert forall|xx: int| 0 <= xx < 10 implies #[trigger] g(y, xx) == f(y, 9 - xx) by {}
        lemma_row_reversed(f, g, y, 10);
        lemma_row_prefix_suffix(f, y, 0);
    }
}

/// Mirroring left to right keeps the count.
proof fn lemma_count_mirrored_across(f: spec_fn(int, int) -> bool, g: spec_fn(int, int) -> bool)
    requires
        forall|yy: int, xx: int| 0 <= yy < 10 && 0 <= xx < 10 ==> #[trigger] g(yy, xx) == f(yy, 9 - xx),
    ensures
        grid_count(g) == grid_count(f),
{
    lemma_rows_mirrored_across(f, g, 10);
}

/// Number of fields in rows `lo..10` that satisfy `f`.
pub open spec fn rows_from(f: spec_fn(int, int) -> bool, lo: int) -> nat
    decreases 10 - lo,
{
    if lo >= 10 {
        0
    } else {
        row_count(f, lo, 10) + rows_from(f, lo + 1)
    }
}

proof fn lemma_rows_prefix_suffix(f: spec_fn(int, int) -> bool, m: int)
    requires
        0 <= m <= 10,
    ensures
        rows_count(f, m) + rows_from(f, m) == rows_count(f, 10),
    decreases 10 - m,
{
    if m < 10 {
        lemma_rows_prefix_suffix(f, m + 1);
    }
}

proof fn lemma_row_moved(f: spec_fn(int, int) -> bool, g: spec_fn(int, int) -> bool, y: int, y2: int, n: int)
    requires
        0 <= n <= 10,
        forall|xx: int| 0 <= xx < 10 ==> #[trigger] g(y, xx) == f(y2, xx),
    ensures
        row_count(g, y, n) == row_count(f, y2, n),
    decreases n,
{
    if n > 0 {
        lemma_row_moved(f, g, y, y2, n - 1);
        assert(g(y, n - 1) == f(y2, n - 1));
    }
}

proof fn lemma_rows_reversed(f: spec_fn(int, int) -> bool, g: spec_fn(int, int) -> bool, m: int)
    requires
        0 <= m <= 10,
        forall|yy: int, xx: int| 0 <= yy < 10 && 0 <= xx < 10 ==> #[trigger] g(yy, xx) == f(9 - yy, xx),
    ensures
        rows_count(g, m) == rows_from(f, 10 - m),
    decreases m,
{
    if m > 0 {
        let y = m - 1;
        lemma_rows_reversed(f, g, y);
        assert forall|xx: int| 0 <= xx < 10 implies #[trigger] g(y, xx) == f(9 - y, xx) by {}
        lemma_row_moved(f, g, y, 9 - y, 10);
    }
}

/// Mirroring top to bottom keeps the count.
proof fn lemma_count_mirrored_down(f: spec_fn(int, int) -> bool, g: spec_fn(int, int) -> bool)
    requires
        forall|yy: int, xx: int| 0 <= yy < 10 && 0 <= xx < 10 ==> #[trigger] g(yy, xx) == f(9 - yy, xx),
    ensures
        grid_count(g) == grid_count(f),
{
    lemma_rows_reversed(f, g, 10);
    lemma_rows_prefix_suffix(f, 0);
}

/// Number of fields in rows `0..m` of column `x` that satisfy `f`.
pub open spec fn col_count(f: spec_fn(int, int) -> bool, x: int, m: int) -> nat
    decreases m,
{
    if m <= 0 {
        0
    } else {
        col_count(f, x, m - 1) + if f(m - 1, x) {
            1nat
        } else {
            0nat
        }
    }
}

/// Number of fields in columns `0..n` that satisfy `f`.
pub open spec fn cols_count(f: spec_fn(int, int) -> bool, n: int) -> nat
    decreases n,
{
    if n <= 0 {
        0
    } else {
        cols_count(f, n - 1) + col_count(f, n - 1, 10)
    }
}

/// The fields of column `c` that satisfy `f`.
pub open spec fn in_column(f: spec_fn(int, int) -> bool, c: int) -> spec_fn(int, int) -> bool {
    |yy: int, xx: int| xx == c && f(yy, xx)
}

/// The fields left of column `n` that satisfy `f`.
pub open spec fn left_of(f: spec_fn(int, int) -> bool, n: int) -> spec_fn(int, int) -> bool {
    |yy: int, xx: int| xx < n && f(yy, xx)
}

proof fn lemma_row_in_column(f: spec_fn(int, int) -> bool, c: int, y: int, n: int)
    requires
        0 <= c < 10,
        0 <= n <= 10,
    ensures
        row_count(in_column(f, c), y, n) == if n > c && f(y, c) {
            1nat
        } else {
            0nat
        },
    decreases n,
{
    if n > 0 {
        lemma_row_in_column(f, c, y, n - 1);
    }
}

proof fn lemma_rows_in_column(f: spec_fn(int, int) -> bool, c: int, m: int)
    requires
        0 <= c < 10,
        0 <= m <= 10,
    ensures
        rows_count(in_column(f, c), m) == col_count(f, c, m),
    decreases m,
{
    if m > 0 {
        lemma_rows_in_column(f, c, m - 1);
        lemma_row_in_column(f, c, m - 1, 10);
    }
}

proof fn lemma_left_of(f: spec_fn(int, int) -> bool, n: int)
    requires
        0 <= n <= 10,
    ensures
        grid_count(left_of(f, n)) == cols_count(f, n),
    decreases n,
{
    if n == 0 {
        lemma_count_none(left_of(f, n));
    } else {
        lemma_left_of(f, n - 1);
        lemma_count_split(left_of(f, n), left_of(f, n - 1), in_column(f, n - 1));
        lemma_rows_in_column(f, n - 1, 10);
    }
}

/// Counting column by column gives the same number as row by row.
proof fn lemma_count_by_columns(f: spec_fn(int, int) -> bool)
    ensures
        grid_count(f) == cols_count(f, 10),
{
    lemma_left_of(f, 10);
    lemma_count_same(left_of(f, 10), f);
}

proof fn lemma_row_transposed(f: spec_fn(int, int) -> bool, g: spec_fn(int, int) -> bool, y: int, n: int)
    requires
        0 <= y < 10,
        0 <= n <= 10,
        forall|yy: int, xx: int| 0 <= yy < 10 && 0 <= xx < 10 ==> #[trigger] g(yy, xx) == f(xx, yy),
    ensures
        row_count(g, y, n) == col_count(f, y, n),
    decreases n,
{
    if n > 0 {
        lemma_row_transposed(f, g, y, n - 1);
        assert(g(y, n - 1) == f(n - 1, y));
    }
}

proof fn lemma_rows_transposed(f: spec_fn(int, int) -> bool, g: spec_fn(int, int) -> bool, m: int)
    requires
        0 <= m <= 10,
        forall|yy: int, xx: int| 0 <= yy < 10 && 0 <= xx < 10 ==> #[trigger] g(yy, xx) == f(xx, yy),
    ensures
        rows_count(g, m) == cols_count(f, m),
    decreases m,
{
    if m > 0 {
        lemma_rows_transposed(f, g, m - 1);
        lemma_row_transposed(f, g, m - 1, 10);
    }
}

/// Transposing keeps the count.
proof fn lemma_count_transposed(f: spec_fn(int, int) -> bool, g: spec_fn(int, int) -> bool)
    requires
        forall|yy: int, xx: int| 0 <= yy < 10 && 0 <= xx < 10 ==> #[trigger] g(yy, xx) == f(xx, yy),
    ensures
        grid_count(g) == grid_count(f),
{
    lemma_rows_transposed(f, g, 10);
    lemma_count_by_columns(f);
}

// ---------------------------------------------------------------------
// Turned boards
// ---------------------------------------------------------------------

/// `t` is `b` transposed: rows become columns.
pub open spec fn transposed(b: ClientBoard, t: ClientBoard) -> bool {
    forall|y: int, x: int| 0 <= y < 10 && 0 <= x < 10 ==> #[trigger] t@[y]@[x] == b@[x]@[y]
}

/// `h` is `b` mirrored left to right.
pub open spec fn mirrored_across(b: ClientBoard, h: ClientBoard) -> bool {
    forall|y: int, x: int| 0 <= y < 10 && 0 <= x < 10 ==> #[trigger] h@[y]@[x] == b@[y]@[9 - x]
}

/// `v` is `b` mirrored top to bottom.
pub open spec fn mirrored_down(b: ClientBoard, v: ClientBoard) -> bool {
    forall|y: int, x: int| 0 <= y < 10 && 0 <= x < 10 ==> #[trigger] v@[y]@[x] == b@[9 - y]@[x]
}

spec fn occupied_transposed(b: ClientBoard, t: ClientBoard) -> bool {
    forall|y: int, x: int| #[trigger] occupied(t, y, x) == occupied(b, x, y)
}

spec fn occupied_mirrored_across(b: ClientBoard, h: ClientBoard) -> bool {
    forall|y: int, x: int| #[trigger] occupied(h, y, x) == occupied(b, y, 9 - x)
}

spec fn occupied_mirrored_down(b: ClientBoard, v: ClientBoard) -> bool {
    forall|y: int, x: int| #[trigger] occupied(v, y, x) == occupied(b, 9 - y, x)
}

proof fn lemma_occupied_transposed(b: ClientBoard, t: ClientBoard)
    requires
        transposed(b, t),
    ensures
        occupied_transposed(b, t),
        occupied_transposed(t, b),
{
    assert forall|y: int, x: int| #[trigger] occupied(t, y, x) == occupied(b, x, y) by {
        if 0 <= y < 10 && 0 <= x < 10 {
            assert(t@[y]@[x] == b@[x]@[y]);
        }
    }
    assert forall|y: int, x: int| #[trigger] occupied(b, y, x) == occupied(t, x, y) by {
        if 0 <= y < 10 && 0 <= x < 10 {
            assert(t@[x]@[y] == b@[y]@[x]);
        }
    }
}

proof fn lemma_occupied_mirrored_across(b: ClientBoard, h: ClientBoard)
    requires
        mirrored_across(b, h),
    ensures
        occupied_mirrored_across(b, h),
{
    assert forall|y: int, x: int| #[trigger] occupied(h, y, x) == occupied(b, y, 9 - x) by {
        if 0 <= y < 10 && 0 <= x < 10 {
            assert(h@[y]@[x] == b@[y]@[9 - x]);
        }
    }
}

proof fn lemma_occupied_mirrored_down(b: ClientBoard, v: ClientBoard)
    requires
        mirrored_down(b, v),
    ensures
        occupied_mirrored_down(b, v),
{
    assert forall|y: int, x: int| #[trigger] occupied(v, y, x) == occupied(b, 9 - y, x) by {
        if 0 <= y < 10 && 0 <= x < 10 {
            assert(v@[y]@[x] == b@[9 - y]@[x]);
        }
    }
}

proof fn lemma_run_right_transposed(b: ClientBoard, t: ClientBoard, y: int, x: int)
    requires
        occupied_transposed(b, t),
    ensures
        run_right(t, y, x) == run_down(b, x, y),
    decreases 10 - x,
{
    assert(occupied(t, y, x) == occupied(b, x, y));
    if x < 10 {
        lemma_run_right_transposed(b, t, y, x + 1);
    }
}

proof fn lemma_run_left_transposed(b: ClientBoard, t: ClientBoard, y: int, x: int)
    requires
        occupied_transposed(b, t),
    ensures
        run_left(t, y, x) == run_up(b, x, y),
    decreases x + 1,
{
    assert(occupied(t, y, x) == occupied(b, x, y));
    if x >= 0 {
        lemma_run_left_transposed(b, t, y, x - 1);
    }
}

proof fn lemma_runs_mirrored_across(b: ClientBoard, h: ClientBoard, y: int, x: int)
    requires
        occupied_mirrored_across(b, h),
    ensures
        run_left(h, y, x) == run_right(b, y, 9 - x),
    decreases x + 1,
{
    assert(occupied(h, y, x) == occupied(b, y, 9 - x));
    if x >= 0 {
        lemma_runs_mirrored_across(b, h, y, x - 1);
    }
}

proof fn lemma_runs_mirrored_across_back(b: ClientBoard, h: ClientBoard, y: int, x: int)
    requires
        occupied_mirrored_across(b, h),
    ensures
        run_right(h, y, x) == run_left(b, y, 9 - x),
    decreases 10 - x,
{
    assert(occupied(h, y, x) == occupied(b, y, 9 - x));
    if x < 10 {
        lemma_runs_mirrored_across_back(b, h, y, x + 1);
    }
}

proof fn lemma_columns_mirrored_across(b: ClientBoard, h: ClientBoard, y: int, x: int)
    requires
        occupied_mirrored_across(b, h),
    ensures
        run_up(h, y, x) == run_up(b, y, 9 - x),
        run_down(h, y, x) == run_down(b, y, 9 - x),
{
    lemma_up_mirrored_across(b, h, y, x);
    lemma_down_mirrored_across(b, h, y, x);
}

proof fn lemma_up_mirrored_across(b: ClientBoard, h: ClientBoard, y: int, x: int)
    requires
        occupied_mirrored_across(b, h),
    ensures
        run_up(h, y, x) == run_up(b, y, 9 - x),
    decreases y + 1,
{
    assert(occupied(h, y, x) == occupied(b, y, 9 - x));
    if y >= 0 {
        lemma_up_mirrored_across(b, h, y - 1, x);
    }
}

proof fn lemma_down_mirrored_across(b: ClientBoard, h: ClientBoard, y: int, x: int)
    requires
        occupied_mirrored_across(b, h),
    ensures
        run_down(h, y, x) == run_down(b, y, 9 - x),
    decreases 10 - y,
{
    assert(occupied(h, y, x) == occupied(b, y, 9 - x));
    if y < 10 {
        lemma_down_mirrored_across(b, h, y + 1, x);
    }
}

proof fn lemma_up_mirrored_down(b: ClientBoard, v: ClientBoard, y: int, x: int)
    requires
        occupied_mirrored_down(b, v),
    ensures
        run_up(v, y, x) == run_down(b, 9 - y, x),
    decreases y + 1,
{
    assert(occupied(v, y, x) == occupied(b, 9 - y, x));
    if y >= 0 {
        lemma_up_mirrored_down(b, v, y - 1, x);
    }
}

proof fn lemma_down_mirrored_down(b: ClientBoard, v: ClientBoard, y: int, x: int)
    requires
        occupied_mirrored_down(b, v),
    ensures
        run_down(v, y, x) == run_up(b, 9 - y, x),
    decreases 10 - y,
{
    assert(occupied(v, y, x) == occupied(b, 9 - y, x));
    if y < 10 {
        lemma_down_mirrored_down(b, v, y + 1, x);
    }
}

proof fn lemma_left_mirrored_down(b: ClientBoard, v: ClientBoard, y: int, x: int)
    requires
        occupied_mirrored_down(b, v),
    ensures
        run_left(v, y, x) == run_left(b, 9 - y, x),
    decreases x + 1,
{
    assert(occupied(v, y, x) == occupied(b, 9 - y, x));
    if x >= 0 {
        lemma_left_mirrored_down(b, v, y, x - 1);
    }
}

proof fn lemma_right_mirrored_down(b: ClientBoard, v: ClientBoard, y: int, x: int)
    requires
        occupied_mirrored_down(b, v),
    ensures
        run_right(v, y, x) == run_right(b, 9 - y, x),
    decreases 10 - x,
{
    assert(occupied(v, y, x) == occupied(b, 9 - y, x));
    if x < 10 {
        lemma_right_mirrored_down(b, v, y, x + 1);
    }
}

/// On a well spaced board a field's row run is longer than one field only
/// when its column run is not.
proof fn lemma_runs_one_way(b: ClientBoard, y: int, x: int)
    requires
        ships_spaced(b),
        occupied(b, y, x),
    ensures
        run_left(b, y, x) + run_right(b, y, x) - 1 > 1 ==> run_up(b, y, x) + run_down(b, y, x) - 1 == 1,
{
    assert(spaced_at(b, y, x));
    assert(run_left(b, y, x) == 1 + run_left(b, y, x - 1));
    assert(run_right(b, y, x) == 1 + run_right(b, y, x + 1));
    assert(run_up(b, y, x) == 1 + run_up(b, y - 1, x));
    assert(run_down(b, y, x) == 1 + run_down(b, y + 1, x));
    assert(run_left(b, y, x - 1) > 0 ==> occupied(b, y, x - 1));
    assert(run_right(b, y, x + 1) > 0 ==> occupied(b, y, x + 1));
    assert(!occupied(b, y - 1, x) ==> run_up(b, y - 1, x) == 0);
    assert(!occupied(b, y + 1, x) ==> run_down(b, y + 1, x) == 0);
}

proof fn lemma_ship_length_transposed(b: ClientBoard, t: ClientBoard, y: int, x: int)
    requires
        occupied_transposed(b, t),
        occupied_transposed(t, b),
        ships_spaced(b),
        occupied(b, x, y),
    ensures
        field_ship_length(t, y, x) == field_ship_length(b, x, y),
{
    lemma_run_left_transposed(b, t, y, x);
    lemma_run_right_transposed(b, t, y, x);
    lemma_run_left_transposed(t, b, x, y);
    lemma_run_right_transposed(t, b, x, y);
    lemma_runs_one_way(b, x, y);
}

proof fn lemma_spacing_transposed(b: ClientBoard, t: ClientBoard)
    requires
        occupied_transposed(b, t),
        occupied_transposed(t, b),
    ensures
        ships_spaced(t) == ships_spaced(b),
{
    if ships_spaced(b) {
        assert forall|y: int, x: int| 0 <= y < 10 && 0 <= x < 10 implies #[trigger] spaced_at(t, y, x) by {
            assert(spaced_at(b, x, y));
        }
    }
    if ships_spaced(t) {
        assert forall|y: int, x: int| 0 <= y < 10 && 0 <= x < 10 implies #[trigger] spaced_at(b, y, x) by {
            assert(spaced_at(t, x, y));
        }
    }
}

proof fn lemma_spacing_mirrored_across(b: ClientBoard, h: ClientBoard)
    requires
        occupied_mirrored_across(b, h),
    ensures
        ships_spaced(h) == ships_spaced(b),
{
    if ships_spaced(b) {
        assert forall|y: int, x: int| 0 <= y < 10 && 0 <= x < 10 implies #[trigger] spaced_at(h, y, x) by {
            assert(spaced_at(b, y, 9 - x));
            assert(occupied(h, y, x + 1) == occupied(b, y, 9 - x - 1));
            assert(occupied(h, y, x - 1) == occupied(b, y, 9 - x + 1));
        }
    }
    if ships_spaced(h) {
        assert forall|y: int, x: int| 0 <= y < 10 && 0 <= x < 10 implies #[trigger] spaced_at(b, y, x) by {
            assert(spaced_at(h, y, 9 - x));
            assert(occupied(h, y, 9 - x) == occupied(b, y, x));
            assert(occupied(h, y, 9 - x + 1) == occupied(b, y, x - 1));
            assert(occupied(h, y, 9 - x - 1) == occupied(b, y, x + 1));
            assert(occupied(h, y + 1, 9 - x) == occupied(b, y + 1, x));
            assert(occupied(h, y - 1, 9 - x) == occupied(b, y - 1, x));
        }
    }
}

proof fn lemma_spacing_mirrored_down(b: ClientBoard, v: ClientBoard)
    requires
        occupied_mirrored_down(b, v),
    ensures
        ships_spaced(v) == ships_spaced(b),
{
    if ships_spaced(b) {
        assert forall|y: int, x: int| 0 <= y < 10 && 0 <= x < 10 implies #[trigger] spaced_at(v, y, x) by {
            assert(spaced_at(b, 9 - y, x));
            assert(occupied(v, y + 1, x) == occupied(b, 9 - y - 1, x));
            assert(occupied(v, y - 1, x) == occupied(b, 9 - y + 1, x));
        }
    }
    if ships_spaced(v) {
        assert forall|y: int, x: int| 0 <= y < 10 && 0 <= x < 10 implies #[trigger] spaced_at(b, y, x) by {
            assert(spaced_at(v, 9 - y, x));
            assert(occupied(v, 9 - y, x) == occupied(b, y, x));
            assert(occupied(v, 9 - y + 1, x) == occupied(b, y - 1, x));
            assert(occupied(v, 9 - y - 1, x) == occupied(b, y + 1, x));
            assert(occupied(v, 9 - y, x + 1) == occupied(b, y, x + 1));
            assert(occupied(v, 9 - y, x - 1) == occupied(b, y, x - 1));
        }
    }
}

// ---------------------------------------------------------------------
// Validity of turned boards
// ---------------------------------------------------------------------

proof fn lemma_no_empty_ships_in_row(b: ClientBoard, y: int, x: int)
    ensures
        row_ships(b, 0, y, x) == 0,
    decreases x,
{
    if x > 0 {
        lemma_no_empty_ships_in_row(b, y, x - 1);
        if is_ship_start(b, y, x - 1) {
            assert(run_right(b, y, x - 1) >= 1);
            assert(run_down(b, y, x - 1) >= 1);
            assert(ship_length(b, y, x - 1) >= 1);
        }
        assert(!starts_ship_of(b, 0, y, x - 1));
    }
}

/// No ship has length zero.
proof fn lemma_no_empty_ships(b: ClientBoard, y: int)
    ensures
        rows_ships(b, 0, y) == 0,
    decreases y,
{
    if y > 0 {
        lemma_no_empty_ships(b, y - 1);
        lemma_no_empty_ships_in_row(b, y - 1, 10);
    }
}

/// Two well spaced boards whose ships of each length cover as many fields
/// hold the same fleet.
proof fn lemma_same_fleet(b: ClientBoard, c: ClientBoard)
    requires
        ships_spaced(b),
        ships_spaced(c),
        forall|len: nat|
            len >= 1 ==> #[trigger] grid_count(fields_of_length(b, len)) == grid_count(
                fields_of_length(c, len),
            ),
    ensures
        fleet_complete(b) == fleet_complete(c),
{
    lemma_no_empty_ships(b, 10);
    lemma_no_empty_ships(c, 10);
    assert forall|len: nat|
        #![trigger ship_count(b, len)]
        #![trigger ship_count(c, len)]
        ship_count(b, len) == ship_count(c, len) by {
        if len >= 1 {
            lemma_fields_of_ships(b, len);
            lemma_fields_of_ships(c, len);
            assert(grid_count(fields_of_length(b, len)) == grid_count(fields_of_length(c, len)));
            let p = ship_count(b, len);
            let q = ship_count(c, len);
            assert(p == q) by (nonlinear_arith)
                requires
                    len >= 1,
                    len * p == len * q,
            ;
        }
    }
}

/// Transposing a layout keeps it valid if it was, and invalid if it was.
pub proof fn lemma_transposing_keeps_validity(b: ClientBoard, t: ClientBoard)
    requires
        transposed(b, t),
    ensures
        valid_board(t) == valid_board(b),
{
    lemma_occupied_transposed(b, t);
    lemma_spacing_transposed(b, t);
    if ships_spaced(b) {
        assert forall|len: nat| len >= 1 implies #[trigger] grid_count(fields_of_length(t, len))
            == grid_count(fields_of_length(b, len)) by {
            assert forall|yy: int, xx: int| 0 <= yy < 10 && 0 <= xx < 10 implies #[trigger] fields_of_length(
                t,
                len,
            )(yy, xx) == fields_of_length(b, len)(xx, yy) by {
                assert(occupied(t, yy, xx) == occupied(b, xx, yy));
                if occupied(b, xx, yy) {
                    lemma_ship_length_transposed(b, t, yy, xx);
                }
            }
            lemma_count_transposed(fields_of_length(b, len), fields_of_length(t, len));
        }
        lemma_same_fleet(t, b);
    }
}

/// Mirroring a layout left to right keeps it valid if it was, and invalid
/// if it was.
pub proof fn lemma_mirroring_across_keeps_validity(b: ClientBoard, h: ClientBoard)
    requires
        mirrored_across(b, h),
    ensures
        valid_board(h) == valid_board(b),
{
    lemma_occupied_mirrored_across(b, h);
    lemma_spacing_mirrored_across(b, h);
    if ships_spaced(b) {
        assert forall|len: nat| len >= 1 implies #[trigger] grid_count(fields_of_length(h, len))
            == grid_count(fields_of_length(b, len)) by {
            assert forall|yy: int, xx: int| 0 <= yy < 10 && 0 <= xx < 10 implies #[trigger] fields_of_length(
                h,
                len,
            )(yy, xx) == fields_of_length(b, len)(yy, 9 - xx) by {
                assert(occupied(h, yy, xx) == occupied(b, yy, 9 - xx));
                lemma_runs_mirrored_across(b, h, yy, xx);
                lemma_runs_mirrored_across_back(b, h, yy, xx);
                lemma_columns_mirrored_across(b, h, yy, xx);
            }
            lemma_count_mirrored_across(fields_of_length(b, len), fields_of_length(h, len));
        }
        lemma_same_fleet(h, b);
    }
}

/// Mirroring a layout top to bottom keeps it valid if it was, and invalid
/// if it was.
pub proof fn lemma_mirroring_down_keeps_validity(b: ClientBoard, v: ClientBoard)
    requires
        mirrored_down(b, v),
    ensures
        valid_board(v) == valid_board(b),
{
    lemma_occupied_mirrored_down(b, v);
    lemma_spacing_mirrored_down(b, v);
    if ships_spaced(b) {
        assert forall|len: nat| len >= 1 implies #[trigger] grid_count(fields_of_length(v, len))
            == grid_count(fields_of_length(b, len)) by {
            assert forall|yy: int, xx: int| 0 <= yy < 10 && 0 <= xx < 10 implies #[trigger] fields_of_length(
                v,
                len,
            )(yy, xx) == fields_of_length(b, len)(9 - yy, xx) by {
                assert(occupied(v, yy, xx) == occupied(b, 9 - yy, xx));
                lemma_up_mirrored_down(b, v, yy, xx);
                lemma_down_mirrored_down(b, v, yy, xx);
                lemma_left_mirrored_down(b, v, yy, xx);
                lemma_right_mirrored_down(b, v, yy, xx);
            }
            lemma_count_mirrored_down(fields_of_length(b, len), fields_of_length(v, len));
        }
        lemma_same_fleet(v, b);
    }
}

} // verus!
