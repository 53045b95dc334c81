//! The board: a grid of fields, `board[x][y]`, with the bombs placed away
//! from the starting square.

use vstd::prelude::*;

use crate::field::Field;
use crate::random::{random_below, thread_rng};
use crate::text::{decimal, push_char, push_decimal};
use vstd::string::StringExecFns;

verus! {

// ---------------------------------------------------------------------------
// Specification of the grid
// ---------------------------------------------------------------------------

/// Two coordinates are at most one apart.
pub open spec fn near(a: int, b: int) -> bool {
    -1 <= a - b <= 1
}

/// `(x, y)` lies in the 3x3 square centred on the start `(sx, sy)`.
pub open spec fn in_start_zone(sx: int, sy: int, x: int, y: int) -> bool {
    near(sx, x) && near(sy, y)
}

/// `rows` holds `w` rows of `h` fields each.
pub open spec fn is_grid(rows: Seq<Vec<Field>>, w: nat, h: nat) -> bool {
    &&& rows.len() == w
    &&& forall|x: int| 0 <= x < w ==> (#[trigger] rows[x])@.len() == h
}

/// The number of bombs in one row.
pub open spec fn bombs_in_row(row: Seq<Field>) -> nat
    decreases row.len(),
{
    if row.len() == 0 {
        0
    } else {
        bombs_in_row(row.drop_last()) + if row.last().is_bomb { 1nat } else { 0nat }
    }
}

/// The number of bombs on the whole grid.
pub open spec fn bomb_total(rows: Seq<Vec<Field>>) -> nat
    decreases rows.len(),
{
    if rows.len() == 0 {
        0
    } else {
        bomb_total(rows.drop_last()) + bombs_in_row(rows.last()@)
    }
}

/// The squares of row `x` that may still receive a bomb: no bomb yet and
/// outside the start zone.
pub open spec fn free_in_row(row: Seq<Field>, x: int, sx: int, sy: int) -> nat
    decreases row.len(),
{
    if row.len() == 0 {
        0
    } else {
        let y = row.len() - 1;
        free_in_row(row.drop_last(), x, sx, sy) + if !row.last().is_bomb && !in_start_zone(
            sx,
            sy,
            x,
            y,
        ) {
            1nat
        } else {
            0nat
        }
    }
}

/// The squares of the grid that may still receive a bomb.
pub open spec fn free_squares(rows: Seq<Vec<Field>>, sx: int, sy: int) -> nat
    decreases rows.len(),
{
    if rows.len() == 0 {
        0
    } else {
        free_squares(rows.drop_last(), sx, sy) + free_in_row(
            rows.last()@,
            rows.len() - 1,
            sx,
            sy,
        )
    }
}

/// How many of the coordinates `0..n` are within one of `c`.
pub open spec fn band(c: int, n: nat) -> nat
    decreases n,
{
    if n == 0 {
        0
    } else {
        band(c, (n - 1) as nat) + if near(c, n - 1) { 1nat } else { 0nat }
    }
}

/// `x` is on the first or the last line of a dimension of length `size`.
pub open spec fn spec_is_edge(size: int, x: int) -> bool {
    x == 0 || x == size - 1
}

/// The largest bomb count that `Board::new` accepts.
pub open spec fn spec_max_bombs(width: int, height: int, x: int, y: int) -> int {
    let edges = match (spec_is_edge(width, x), spec_is_edge(height, y)) {
        (true, true) => 5int,
        (true, false) | (false, true) => 3int,
        _ => 0int,
    };
    width * height - 9 + edges
}

/// The number of bombs among the nine squares centred on `(x, y)`, the
/// square itself included (all nine must lie on the grid).
pub open spec fn bombs_around(rows: Seq<Vec<Field>>, x: int, y: int) -> nat {
    bombs_in_column(rows, x - 1, y) + bombs_in_column(rows, x, y) + bombs_in_column(rows, x + 1, y)
}

/// The bombs at `(x, y - 1)`, `(x, y)` and `(x, y + 1)`.
pub open spec fn bombs_in_column(rows: Seq<Vec<Field>>, x: int, y: int) -> nat {
    bomb_at(rows, x, y - 1) + bomb_at(rows, x, y) + bomb_at(rows, x, y + 1)
}

/// One if the square holds a bomb, zero otherwise.
pub open spec fn bomb_at(rows: Seq<Vec<Field>>, x: int, y: int) -> nat {
    if rows[x]@[y].is_bomb {
        1
    } else {
        0
    }
}

/// All nine squares centred on `(x, y)` lie on the rows.
pub open spec fn interior(rows: Seq<Vec<Field>>, x: int, y: int) -> bool {
    &&& 1 <= x
    &&& x + 1 < rows.len()
    &&& 1 <= y
    &&& forall|i: int| x - 1 <= i <= x + 1 ==> y + 1 < (#[trigger] rows[i])@.len()
}

/// What `get_field` reports for a square: `-3` flagged, `-1` closed, `-2`
/// an opened bomb, otherwise the bombs around it.
pub open spec fn field_code(rows: Seq<Vec<Field>>, x: int, y: int) -> int {
    let f = rows[x]@[y];
    if f.is_flag {
        -3
    } else if !f.is_opened {
        -1
    } else if f.is_bomb {
        -2
    } else {
        bombs_around(rows, x, y) as int
    }
}

/// `get_field` on this square reads only squares that exist.
pub open spec fn field_readable(rows: Seq<Vec<Field>>, x: int, y: int) -> bool {
    &&& 0 <= x < rows.len()
    &&& 0 <= y < rows[x]@.len()
    &&& {
        let f = rows[x]@[y];
        (!f.is_flag && f.is_opened && !f.is_bomb) ==> interior(rows, x, y)
    }
}

/// Some square without a bomb is still closed.
pub open spec fn some_safe_square_closed(rows: Seq<Vec<Field>>) -> bool {
    exists|x: int, y: int|
        0 <= x < rows.len() && 0 <= y < rows[x]@.len() && !(#[trigger] rows[x]@[y]).is_bomb
            && !rows[x]@[y].is_opened
}

/// `c` is a square of the grid that may still receive a bomb.
pub open spec fn free_square(rows: Seq<Vec<Field>>, c: (usize, usize), sx: int, sy: int) -> bool {
    &&& c.0 < rows.len()
    &&& c.1 < rows[c.0 as int]@.len()
    &&& !in_start_zone(sx, sy, c.0 as int, c.1 as int)
    &&& !rows[c.0 as int]@[c.1 as int].is_bomb
}

/// The squares of row `x` that may still receive a bomb, in order.
pub open spec fn free_in_row_list(row: Seq<Field>, x: int, sx: int, sy: int) -> Seq<(usize, usize)>
    decreases row.len(),
{
    if row.len() == 0 {
        seq![]
    } else {
        let y = row.len() - 1;
        free_in_row_list(row.drop_last(), x, sx, sy) + if !row.last().is_bomb && !in_start_zone(
            sx,
            sy,
            x,
            y,
        ) {
            seq![(x as usize, y as usize)]
        } else {
            seq![]
        }
    }
}

/// The squares of the grid that may still receive a bomb, row after row.
pub open spec fn free_square_list(rows: Seq<Vec<Field>>, sx: int, sy: int) -> Seq<(usize, usize)>
    decreases rows.len(),
{
    if rows.len() == 0 {
        seq![]
    } else {
        free_square_list(rows.drop_last(), sx, sy) + free_in_row_list(
            rows.last()@,
            rows.len() - 1,
            sx,
            sy,
        )
    }
}

/// The same square with a bomb on it.
pub open spec fn with_bomb(f: Field) -> Field {
    Field { is_bomb: true, is_opened: f.is_opened, is_flag: f.is_flag }
}

/// `after` differs from the `w` by `h` grid `before` only in bombs added
/// outside the start zone.
pub open spec fn bombs_added_outside_zone(
    before: Seq<Vec<Field>>,
    after: Seq<Vec<Field>>,
    w: nat,
    h: nat,
    sx: int,
    sy: int,
) -> bool {
    &&& is_grid(after, w, h)
    &&& forall|x: int, y: int|
        0 <= x < w && 0 <= y < h ==> {
            let b = #[trigger] before[x]@[y];
            let a = after[x]@[y];
            &&& a.is_opened == b.is_opened
            &&& a.is_flag == b.is_flag
            &&& b.is_bomb ==> a.is_bomb
            &&& (a.is_bomb && !b.is_bomb) ==> !in_start_zone(sx, sy, x, y)
        }
}

/// The error message of `Board::new` for these arguments, or `None` when
/// they are accepted.
pub open spec fn new_board_error(width: int, height: int, start_x: int, start_y: int, bomb_count: int) -> Option<Seq<char>> {
    if width < 10 || height < 10 {
        Some("x and y size must be >= 10"@)
    } else if start_x >= width || start_y >= height {
        Some("starting position must be on the field"@)
    } else if bomb_count == 0 || bomb_count > spec_max_bombs(width, height, start_x, start_y) {
        Some("bomb count must be between 1 and "@ + decimal(
            spec_max_bombs(width, height, start_x, start_y) as nat,
        ))
    } else {
        None
    }
}

/// `b` is a fresh board made from these arguments: all squares closed and
/// unflagged, exactly `bomb_count` bombs, none in the 3x3 square centred on
/// the start.
pub open spec fn is_fresh_board(b: Board, width: int, height: int, start_x: int, start_y: int, bomb_count: int) -> bool {
    &&& b.width == width
    &&& b.height == height
    &&& b.start_x == start_x
    &&& b.start_y == start_y
    &&& b.bomb_count == bomb_count
    &&& is_grid(b.board@, width as nat, height as nat)
    &&& forall|x: int, y: int|
        0 <= x < width && 0 <= y < height ==> {
            let f = #[trigger] b.board@[x]@[y];
            &&& !f.is_opened
            &&& !f.is_flag
            &&& f.is_bomb ==> !in_start_zone(start_x, start_y, x, y)
        }
    &&& bomb_total(b.board@) == bomb_count
}

/// The character that shows a square in the board's text form.
pub open spec fn field_glyph(f: Field) -> char {
    if f.is_flag {
        '\u{1F6A9}'
    } else if f.is_bomb && f.is_opened {
        '\u{1F4A3}'
    } else if !f.is_opened {
        '\u{25A0}'
    } else {
        '\u{00B7}'
    }
}

/// One row of the text form: each square's character followed by a space.
pub open spec fn row_text(row: Seq<Field>) -> Seq<char>
    decreases row.len(),
{
    if row.len() == 0 {
        seq![]
    } else {
        row_text(row.drop_last()) + seq![field_glyph(row.last()), ' ']
    }
}

/// The text form of the grid: one line per row of `board`.
pub open spec fn board_text(rows: Seq<Vec<Field>>) -> Seq<char>
    decreases rows.len(),
{
    if rows.len() == 0 {
        seq![]
    } else {
        board_text(rows.drop_last()) + row_text(rows.last()@) + seq!['\n']
    }
}

// ---------------------------------------------------------------------------
// Lemmas on counting
// ---------------------------------------------------------------------------

/// Setting one square of a row changes its bomb count by the difference of
/// the two squares.
pub proof fn lemma_bombs_in_row_update(row: Seq<Field>, y: int, f: Field)
    requires
        0 <= y < row.len(),
    ensures
        bombs_in_row(row.update(y, f)) + (if row[y].is_bomb { 1int } else { 0int }) == bombs_in_row(
            row,
        ) + (if f.is_bomb { 1int } else { 0int }),
    decreases row.len(),
{
    let r2 = row.update(y, f);
    if y == row.len() - 1 {
        assert(r2.drop_last() =~= row.drop_last());
    } else {
        assert(r2.drop_last() =~= row.drop_last().update(y, f));
        lemma_bombs_in_row_update(row.drop_last(), y, f);
    }
}

/// Setting one square of the grid changes the bomb total by the difference
/// of the two squares.
pub proof fn lemma_bomb_total_update(rows: Seq<Vec<Field>>, x: int, row: Vec<Field>, y: int, f: Field)
    requires
        0 <= x < rows.len(),
        0 <= y < rows[x]@.len(),
        row@ == rows[x]@.update(y, f),
    ensures
        bomb_total(rows.update(x, row)) + (if rows[x]@[y].is_bomb { 1int } else { 0int })
            == bomb_total(rows) + (if f.is_bomb { 1int } else { 0int }),
    decreases rows.len(),
{
    let r2 = rows.update(x, row);
    if x == rows.len() - 1 {
        assert(r2.drop_last() =~= rows.drop_last());
        lemma_bombs_in_row_update(rows[x]@, y, f);
    } else {
        assert(r2.drop_last() =~= rows.drop_last().update(x, row));
        lemma_bomb_total_update(rows.drop_last(), x, row, y, f);
    }
}

/// `band` in closed form.
pub proof fn lemma_band_value(c: int, n: nat)
    requires
        0 <= c,
    ensures
        band(c, n) == (if n < c - 1 {
            0int
        } else if n <= c + 2 {
            n - if c >= 1 { c - 1 } else { 0 }
        } else {
            (c + 2) - if c >= 1 { c - 1 } else { 0 }
        }),
    decreases n,
{
    if n > 0 {
        lemma_band_value(c, (n - 1) as nat);
    }
}

/// On a line of length at least two, a coordinate on it has three lines
/// within one of it, less one for each end it touches.
pub proof fn lemma_band_on_line(c: int, n: nat)
    requires
        0 <= c < n,
        2 <= n,
    ensures
        band(c, n) == 3 - (if c == 0 { 1int } else { 0int }) - (if c == n - 1 { 1int } else { 0int }),
{
    lemma_band_value(c, n);
}

/// A row without bombs counts none.
proof fn lemma_bombs_in_clear_row(row: Seq<Field>)
    requires
        forall|y: int| 0 <= y < row.len() ==> !(#[trigger] row[y]).is_bomb,
    ensures
        bombs_in_row(row) == 0,
    decreases row.len(),
{
    if row.len() > 0 {
        let r = row.drop_last();
        assert forall|y: int| 0 <= y < r.len() implies !(#[trigger] r[y]).is_bomb by {
            assert(r[y] == row[y]);
        }
        lemma_bombs_in_clear_row(r);
    }
}

/// A grid without bombs counts none.
proof fn lemma_bomb_total_clear_grid(rows: Seq<Vec<Field>>)
    requires
        forall|x: int, y: int| 0 <= x < rows.len() && 0 <= y < rows[x]@.len() ==> !(#[trigger] rows[x]@[y]).is_bomb,
    ensures
        bomb_total(rows) == 0,
    decreases rows.len(),
{
    if rows.len() > 0 {
        let r = rows.drop_last();
        assert forall|x: int, y: int| 0 <= x < r.len() && 0 <= y < r[x]@.len() implies !(#[trigger] r[x]@[y]).is_bomb by {
            assert(r[x] == rows[x]);
        }
        lemma_bomb_total_clear_grid(r);
        let last = rows.last()@;
        assert forall|y: int| 0 <= y < last.len() implies !(#[trigger] last[y]).is_bomb by {
            assert(rows[rows.len() - 1]@[y] == last[y]);
        }
        lemma_bombs_in_clear_row(last);
    }
}

/// A row without bombs: its free squares are those outside the start zone.
proof fn lemma_free_in_clear_row(row: Seq<Field>, x: int, sx: int, sy: int)
    requires
        forall|y: int| 0 <= y < row.len() ==> !(#[trigger] row[y]).is_bomb,
    ensures
        free_in_row(row, x, sx, sy) == row.len() - (if near(sx, x) { band(sy, row.len()) as int } else { 0int }),
    decreases row.len(),
{
    if row.len() > 0 {
        let r = row.drop_last();
        assert forall|y: int| 0 <= y < r.len() implies !(#[trigger] r[y]).is_bomb by {
            assert(r[y] == row[y]);
        }
        lemma_free_in_clear_row(r, x, sx, sy);
    }
}

/// A grid of `w` rows of `h` squares without bombs: the free squares are
/// all but those of the start zone.
pub proof fn lemma_free_squares_clear_grid(rows: Seq<Vec<Field>>, w: nat, h: nat, sx: int, sy: int)
    requires
        is_grid(rows, w, h),
        forall|x: int, y: int| 0 <= x < w && 0 <= y < h ==> !(#[trigger] rows[x]@[y]).is_bomb,
    ensures
        free_squares(rows, sx, sy) == w * h - band(sx, w) * band(sy, h),
    decreases w,
{
    if w > 0 {
        let r = rows.drop_last();
        let wm = (w - 1) as nat;
        assert(is_grid(r, wm, h)) by {
            assert forall|x: int| 0 <= x < wm implies (#[trigger] r[x])@.len() == h by {
                assert(r[x] == rows[x]);
            }
        }
        assert forall|x: int, y: int| 0 <= x < wm && 0 <= y < h implies !(#[trigger] r[x]@[y]).is_bomb by {
            assert(r[x] == rows[x]);
        }
        lemma_free_squares_clear_grid(r, wm, h, sx, sy);
        let last = rows[w - 1]@;
        assert forall|y: int| 0 <= y < last.len() implies !(#[trigger] last[y]).is_bomb by {
            assert(rows[w - 1]@[y] == last[y]);
        }
        lemma_free_in_clear_row(last, w - 1, sx, sy);
        let bw = band(sx, wm);
        let bh = band(sy, h);
        assert(w * h == wm * h + h) by (nonlinear_arith)
            requires
                w == wm + 1,
        ;
        assert((bw + 1) * bh == bw * bh + bh) by (nonlinear_arith);
        assert(band(sx, w) == bw + if near(sx, w - 1) { 1nat } else { 0nat });
        assert(free_squares(rows, sx, sy) == free_squares(r, sx, sy) + free_in_row(last, w - 1, sx, sy));
    } else {
        assert(w * h == 0) by (nonlinear_arith)
            requires
                w == 0,
        ;
        assert(band(sx, w) * band(sy, h) == 0) by (nonlinear_arith)
            requires
                band(sx, w) == 0,
        ;
    }
}

/// The largest bomb count that `Board::new` accepts is exactly the number of
/// squares outside the start zone.
pub proof fn lemma_max_bombs_is_free_area(width: int, height: int, x: int, y: int)
    requires
        2 <= width,
        2 <= height,
        0 <= x < width,
        0 <= y < height,
    ensures
        spec_max_bombs(width, height, x, y) == width * height - band(x, width as nat) * band(
            y,
            height as nat,
        ),
{
    lemma_band_on_line(x, width as nat);
    lemma_band_on_line(y, height as nat);
    let bx = band(x, width as nat);
    let by = band(y, height as nat);
    if bx == 2 {
        if by == 2 {
            assert(bx * by == 4);
        } else {
            assert(bx * by == 6);
        }
    } else {
        if by == 2 {
            assert(bx == 3);
            assert(bx * by == 6);
        } else {
            assert(bx == 3 && by == 3);
            assert(bx * by == 9);
        }
    }
}

/// A row full of bombs counts one per square.
proof fn lemma_bombs_in_full_row(row: Seq<Field>)
    requires
        forall|y: int| 0 <= y < row.len() ==> (#[trigger] row[y]).is_bomb,
    ensures
        bombs_in_row(row) == row.len(),
    decreases row.len(),
{
    if row.len() > 0 {
        let r = row.drop_last();
        assert forall|y: int| 0 <= y < r.len() implies (#[trigger] r[y]).is_bomb by {
            assert(r[y] == row[y]);
        }
        lemma_bombs_in_full_row(r);
    }
}

/// A grid full of bombs counts one per square.
proof fn lemma_bomb_total_full_grid(rows: Seq<Vec<Field>>, w: nat, h: nat)
    requires
        is_grid(rows, w, h),
        forall|x: int, y: int| 0 <= x < w && 0 <= y < h ==> (#[trigger] rows[x]@[y]).is_bomb,
    ensures
        bomb_total(rows) == w * h,
    decreases w,
{
    if w > 0 {
        let r = rows.drop_last();
        let wm = (w - 1) as nat;
        assert(is_grid(r, wm, h)) by {
            assert forall|x: int| 0 <= x < wm implies (#[trigger] r[x])@.len() == h by {
                assert(r[x] == rows[x]);
            }
        }
        assert forall|x: int, y: int| 0 <= x < wm && 0 <= y < h implies (#[trigger] r[x]@[y]).is_bomb by {
            assert(r[x] == rows[x]);
        }
        lemma_bomb_total_full_grid(r, wm, h);
        let last = rows[w - 1]@;
        assert forall|y: int| 0 <= y < last.len() implies (#[trigger] last[y]).is_bomb by {
            assert(rows[w - 1]@[y] == last[y]);
        }
        lemma_bombs_in_full_row(last);
        assert(w * h == wm * h + h) by (nonlinear_arith)
            requires
                w == wm + 1,
        ;
    } else {
        assert(w * h == 0) by (nonlinear_arith)
            requires
                w == 0,
        ;
    }
}

/// A grid with fewer bombs than squares has a square without a bomb.
proof fn lemma_some_square_free_of_bombs(rows: Seq<Vec<Field>>, w: nat, h: nat)
    requires
        is_grid(rows, w, h),
        bomb_total(rows) < w * h,
    ensures
        exists|x: int, y: int| 0 <= x < w && 0 <= y < h && !(#[trigger] rows[x]@[y]).is_bomb,
{
    if !exists|x: int, y: int| 0 <= x < w && 0 <= y < h && !(#[trigger] rows[x]@[y]).is_bomb {
        lemma_bomb_total_full_grid(rows, w, h);
    }
}

/// What a square shows, by its state: a flag shows -3 whatever else holds;
/// an unflagged closed square shows -1; an unflagged opened bomb shows -2;
/// an unflagged opened safe square shows the number of bombs in the 3x3
/// square around it, between 0 and 9.
pub proof fn law_field_code_by_state(rows: Seq<Vec<Field>>, x: int, y: int)
    ensures
        rows[x]@[y].is_flag ==> field_code(rows, x, y) == -3,
        !rows[x]@[y].is_flag && !rows[x]@[y].is_opened ==> field_code(rows, x, y) == -1,
        !rows[x]@[y].is_flag && rows[x]@[y].is_opened && rows[x]@[y].is_bomb ==> field_code(rows, x, y) == -2,
        !rows[x]@[y].is_flag && rows[x]@[y].is_opened && !rows[x]@[y].is_bomb ==> (field_code(rows, x, y)
            == bombs_around(rows, x, y) && 0 <= field_code(rows, x, y) <= 9),
{
}

/// On a fresh board the start square holds no bomb, and neither does any of
/// its neighbours, so where all nine squares lie on the board, opening the
/// start shows zero.
pub proof fn law_start_is_safe(b: Board, width: int, height: int, start_x: int, start_y: int, bomb_count: int)
    requires
        is_fresh_board(b, width, height, start_x, start_y, bomb_count),
        0 <= start_x < width,
        0 <= start_y < height,
    ensures
        !b.board@[start_x]@[start_y].is_bomb,
        interior(b.board@, start_x, start_y) ==> bombs_around(b.board@, start_x, start_y) == 0,
{
    let rows = b.board@;
    assert(!rows[start_x]@[start_y].is_bomb);
    if interior(rows, start_x, start_y) {
        assert forall|dx: int, dy: int| -1 <= dx <= 1 && -1 <= dy <= 1 implies !(#[trigger] rows[start_x + dx]@[start_y + dy]).is_bomb by {
            assert(rows[start_x + dx]@.len() == height);
        }
        assert(!rows[start_x - 1]@[start_y - 1].is_bomb);
        assert(!rows[start_x - 1]@[start_y].is_bomb);
        assert(!rows[start_x - 1]@[start_y + 1].is_bomb);
        assert(!rows[start_x]@[start_y - 1].is_bomb);
        assert(!rows[start_x]@[start_y + 1].is_bomb);
        assert(!rows[start_x + 1]@[start_y - 1].is_bomb);
        assert(!rows[start_x + 1]@[start_y].is_bomb);
        assert(!rows[start_x + 1]@[start_y + 1].is_bomb);
    }
}

/// Every square of a fresh board shows as closed.
pub proof fn law_fresh_board_is_closed(b: Board, width: int, height: int, start_x: int, start_y: int, bomb_count: int)
    requires
        is_fresh_board(b, width, height, start_x, start_y, bomb_count),
    ensures
        forall|x: int, y: int| 0 <= x < width && 0 <= y < height ==> #[trigger] field_code(b.board@, x, y) == -1,
        width > 0 && height > 0 && bomb_count < width * height ==> some_safe_square_closed(b.board@),
{
    assert forall|x: int, y: int| 0 <= x < width && 0 <= y < height implies #[trigger] field_code(b.board@, x, y) == -1 by {
        assert(!b.board@[x]@[y].is_opened && !b.board@[x]@[y].is_flag);
    }
    if width > 0 && height > 0 && bomb_count < width * height {
        lemma_some_square_free_of_bombs(b.board@, width as nat, height as nat);
        let (x, y) = choose|x: int, y: int| 0 <= x < width && 0 <= y < height && !(#[trigger] b.board@[x]@[y]).is_bomb;
        assert(!b.board@[x]@[y].is_opened);
    }
}

// ---------------------------------------------------------------------------
// The board
// ---------------------------------------------------------------------------

/// A game board. `board[x][y]` is the field in column `x` and line `y`.
#[derive(Debug, Default)]
pub struct Board {
    pub board: Vec<Vec<Field>>,
    pub width: usize,
    pub height: usize,
    pub start_x: usize,
    pub start_y: usize,
    pub bomb_count: usize,
}

impl Board {
    /// A `width` by `height` board whose player starts at
    /// `(start_x, start_y)`, with `bomb_count` bombs placed at random outside
    /// the 3x3 square centred on the start. Refused, with a message, when a
    /// side is shorter than ten, when the start is off the board, or when the
    /// bomb count is zero or above `max_bombs`.
    pub fn new(width: usize, height: usize, start_x: usize, start_y: usize, bomb_count: usize) -> (res: Result<Self, String>)
        requires
            (width >= 10 && height >= 10 && start_x < width && start_y < height) ==> width * height
                <= usize::MAX,
        ensures
            res is Err <==> new_board_error(width as int, height as int, start_x as int, start_y as int, bomb_count as int) is Some,
            res matches Err(msg) ==> msg@ == new_board_error(width as int, height as int, start_x as int, start_y as int, bomb_count as int).unwrap(),
            res matches Ok(b) ==> is_fresh_board(b, width as int, height as int, start_x as int, start_y as int, bomb_count as int),
    {
        if width < 10 || height < 10 {
            return Err(String::from_str("x and y size must be >= 10"));
        }
        if start_x >= width || start_y >= height {
            return Err(String::from_str("starting position must be on the field"));
        }
        proof {
            assert(100 <= width * height) by (nonlinear_arith)
                requires
                    width >= 10,
                    height >= 10,
            ;
        }
        let max_bombs = Self::max_bombs(width, height, start_x, start_y);
        if bomb_count == 0 || bomb_count > max_bombs {
            let mut msg = String::from_str("bomb count must be between 1 and ");
            push_decimal(&mut msg, max_bombs);
            return Err(msg);
        }

        let mut board: Vec<Vec<Field>> = Vec::new();
        let mut x: usize = 0;
        while x < width
            invariant
                x <= width,
                board@.len() == x,
                forall|i: int| 0 <= i < x ==> (#[trigger] board@[i])@.len() == height,
                forall|i: int, j: int| 0 <= i < x && 0 <= j < height ==> #[trigger] board@[i]@[j] == Field::closed_spec(),
            decreases width - x,
        {
            let mut row: Vec<Field> = Vec::new();
            let mut y: usize = 0;
            while y < height
                invariant
                    y <= height,
                    row@.len() == y,
                    forall|j: int| 0 <= j < y ==> #[trigger] row@[j] == Field::closed_spec(),
                decreases height - y,
            {
                row.push(Field::closed());
                y = y + 1;
            }
            board.push(row);
            x = x + 1;
        }
        proof {
            let rows = board@;
            assert(is_grid(rows, width as nat, height as nat));
            assert forall|i: int, j: int| 0 <= i < rows.len() && 0 <= j < rows[i]@.len() implies !(#[trigger] rows[i]@[j]).is_bomb by {
                assert(rows[i]@[j] == Field::closed_spec());
            }
            lemma_bomb_total_clear_grid(rows);
            lemma_free_squares_clear_grid(rows, width as nat, height as nat, start_x as int, start_y as int);
            lemma_max_bombs_is_free_area(width as int, height as int, start_x as int, start_y as int);
            assert(rows[0]@.len() == height);
        }
        let ghost fresh = board@;
        Self::place_bombs(&mut board, start_x, start_y, bomb_count);
        proof {
            assert forall|x: int, y: int| 0 <= x < width && 0 <= y < height implies {
                let f = #[trigger] board@[x]@[y];
                &&& !f.is_opened
                &&& !f.is_flag
                &&& f.is_bomb ==> !in_start_zone(start_x as int, start_y as int, x, y)
            } by {
                assert(fresh[x]@[y] == Field::closed_spec());
            }
        }
        Ok(Board { board, width, height, start_x, start_y, bomb_count })
    }

    /// Whether `x` is on the first or the last line of a dimension of
    /// length `size`.
    pub fn is_edge(size: usize, x: usize) -> (r: bool)
        requires
            size >= 1,
        ensures
            r == spec_is_edge(size as int, x as int),
    {
        x == 0 || x == size - 1
    }

    /// The largest number of bombs that fits outside the 3x3 square centred
    /// on `(x, y)`: `width * height - 9`, plus three on an edge and five in a
    /// corner.
    pub fn max_bombs(width: usize, height: usize, x: usize, y: usize) -> (r: usize)
        requires
            9 <= width * height <= usize::MAX,
        ensures
            r == spec_max_bombs(width as int, height as int, x as int, y as int),
    {
        proof {
            assert(width >= 1 && height >= 1) by (nonlinear_arith)
                requires
                    9 <= width * height,
                    width >= 0,
                    height >= 0,
            ;
        }
        let edges: usize = match (Self::is_edge(width, x), Self::is_edge(height, y)) {
            (true, true) => 5,
            (true, false) | (false, true) => 3,
            _ => 0,
        };
        (width * height) - 9 + edges
    }

    /// Whether two squares are at most one apart in each direction.
    pub fn is_neighbor(x0: usize, y0: usize, x1: usize, y1: usize) -> (r: bool)
        ensures
            r == in_start_zone(x0 as int, y0 as int, x1 as int, y1 as int),
    {
        let dx = if x0 >= x1 { x0 - x1 } else { x1 - x0 };
        let dy = if y0 >= y1 { y0 - y1 } else { y1 - y0 };
        dx <= 1 && dy <= 1
    }

    /// The number of bombs among the nine squares centred on `(x, y)`, the
    /// square itself included. All nine must lie on the board.
    pub fn get_bomb_neighbor(&self, x: isize, y: isize) -> (count: usize)
        requires
            interior(self.board@, x as int, y as int),
            x < isize::MAX,
            y < isize::MAX,
        ensures
            count == bombs_around(self.board@, x as int, y as int),
            count <= 9,
    {
        let ghost rows = self.board@;
        let mut count: usize = 0;
        let mut vx: isize = -1;
        while vx <= 1
            invariant
                rows == self.board@,
                interior(rows, x as int, y as int),
                x < isize::MAX,
                y < isize::MAX,
                -1 <= vx <= 2,
                count == (if vx >= 0 { bombs_in_column(rows, x - 1, y as int) } else { 0 })
                    + (if vx >= 1 { bombs_in_column(rows, x as int, y as int) } else { 0 })
                    + (if vx >= 2 { bombs_in_column(rows, x + 1, y as int) } else { 0 }),
                count <= 3 * (vx + 1),
            decreases 2 - vx,
        {
            let ghost before = count;
            let nx = x + vx;
            let mut vy: isize = -1;
            while vy <= 1
                invariant
                    rows == self.board@,
                    interior(rows, x as int, y as int),
                    x < isize::MAX,
                    y < isize::MAX,
                    -1 <= vx <= 1,
                    nx == x + vx,
                    -1 <= vy <= 2,
                    count == before + (if vy >= 0 { bomb_at(rows, nx as int, y - 1) } else { 0 })
                        + (if vy >= 1 { bomb_at(rows, nx as int, y as int) } else { 0 })
                        + (if vy >= 2 { bomb_at(rows, nx as int, y + 1) } else { 0 }),
                    before <= 3 * (vx + 1),
                    count <= before + vy + 1,
                decreases 2 - vy,
            {
                let ny = y + vy;
                assert(y + 1 < rows[nx as int]@.len());
                if self.board[nx as usize][ny as usize].is_bomb {
                    count = count + 1;
                }
                vy = vy + 1;
            }
            vx = vx + 1;
        }
        count
    }

    /// What the player sees on `(x, y)`: `-3` for a flag, `-1` for a closed
    /// square, `-2` for an opened bomb, and otherwise the number of bombs
    /// among the nine squares centred on it.
    pub fn get_field(&self, x: usize, y: usize) -> (code: i32)
        requires
            field_readable(self.board@, x as int, y as int),
            x < isize::MAX,
            y < isize::MAX,
        ensures
            code == field_code(self.board@, x as int, y as int),
    {
        let field = &self.board[x][y];
        if field.is_flag {
            -3
        } else if !field.is_opened {
            -1
        } else if field.is_bomb {
            -2
        } else {
            self.get_bomb_neighbor(x as isize, y as isize) as i32
        }
    }

    /// Whether some square without a bomb is still closed.
    pub fn is_victory(&self) -> (r: bool)
        ensures
            r == some_safe_square_closed(self.board@),
    {
        let ghost rows = self.board@;
        let mut x: usize = 0;
        while x < self.board.len()
            invariant
                rows == self.board@,
                x <= rows.len(),
                forall|i: int, j: int|
                    0 <= i < x && 0 <= j < rows[i]@.len() ==> (#[trigger] rows[i]@[j]).is_bomb
                        || rows[i]@[j].is_opened,
            decreases rows.len() - x,
        {
            let row = &self.board[x];
            let mut y: usize = 0;
            while y < row.len()
                invariant
                    rows == self.board@,
                    x < rows.len(),
                    row@ == rows[x as int]@,
                    y <= row@.len(),
                    forall|i: int, j: int|
                        0 <= i < x && 0 <= j < rows[i]@.len() ==> (#[trigger] rows[i]@[j]).is_bomb
                            || rows[i]@[j].is_opened,
                    forall|j: int| 0 <= j < y ==> (#[trigger] row@[j]).is_bomb || row@[j].is_opened,
                decreases row@.len() - y,
            {
                let f = row[y];
                if !f.is_bomb && !f.is_opened {
                    assert(rows[x as int]@[y as int] == f);
                    return true;
                }
                y = y + 1;
            }
            x = x + 1;
        }
        false
    }

    /// The board as text: one line per entry of `board`, each square shown as
    /// a flag, an opened bomb, a closed square or an opened square, followed
    /// by a space.
    pub fn to_display_string(&self) -> (text: String)
        ensures
            text@ == board_text(self.board@),
    {
        let ghost rows = self.board@;
        let mut text = String::new();
        let mut x: usize = 0;
        while x < self.board.len()
            invariant
                rows == self.board@,
                x <= rows.len(),
                text@ == board_text(rows.take(x as int)),
            decreases rows.len() - x,
        {
            let row = &self.board[x];
            let ghost start = text@;
            let mut y: usize = 0;
            while y < row.len()
                invariant
                    x < rows.len(),
                    row@ == rows[x as int]@,
                    y <= row@.len(),
                    text@ == start + row_text(row@.take(y as int)),
                decreases row@.len() - y,
            {
                let f = row[y];
                let glyph = if f.is_flag {
                    '\u{1F6A9}'
                } else if f.is_bomb && f.is_opened {
                    '\u{1F4A3}'
                } else if !f.is_opened {
                    '\u{25A0}'
                } else {
                    '\u{00B7}'
                };
                push_char(&mut text, glyph);
                push_char(&mut text, ' ');
                assert(row@.take(y + 1).drop_last() =~= row@.take(y as int));
                y = y + 1;
            }
            push_char(&mut text, '\n');
            assert(row@.take(y as int) =~= row@);
            assert(rows.take(x + 1).drop_last() =~= rows.take(x as int));
            x = x + 1;
        }
        assert(rows.take(x as int) =~= rows);
        text
    }

    /// The squares that may still receive a bomb: no bomb yet and outside the
    /// 3x3 square centred on the start, row after row, each row in order.
    pub fn free_squares_in_order(board: &Vec<Vec<Field>>, start_x: usize, start_y: usize) -> (candidates: Vec<
        (usize, usize),
    >)
        ensures
            candidates@ == free_square_list(board@, start_x as int, start_y as int),
            candidates@.len() == free_squares(board@, start_x as int, start_y as int),
            forall|i: int|
                0 <= i < candidates@.len() ==> free_square(
                    board@,
                    #[trigger] candidates@[i],
                    start_x as int,
                    start_y as int,
                ),
            forall|i: int, j: int|
                0 <= i < j < candidates@.len() ==> #[trigger] candidates@[i] != #[trigger] candidates@[j],
    {
        let ghost initial = board@;
        let ghost sx = start_x as int;
        let ghost sy = start_y as int;
        let width = board.len();
        let mut candidates: Vec<(usize, usize)> = Vec::new();
        let mut x: usize = 0;
        while x < width
            invariant
                board@ == initial,
                width == initial.len(),
                sx == start_x as int,
                sy == start_y as int,
                x <= width,
                candidates@ == free_square_list(initial.take(x as int), sx, sy),
                candidates@.len() == free_squares(initial.take(x as int), sx, sy),
                forall|i: int|
                    0 <= i < candidates@.len() ==> free_square(initial, #[trigger] candidates@[i], sx, sy)
                        && candidates@[i].0 < x,
                forall|i: int, j: int|
                    0 <= i < j < candidates@.len() ==> #[trigger] candidates@[i] != #[trigger] candidates@[j],
            decreases width - x,
        {
            let row = &board[x];
            let height = row.len();
            let mut y: usize = 0;
            while y < height
                invariant
                    board@ == initial,
                    width == initial.len(),
                    sx == start_x as int,
                    sy == start_y as int,
                    x < width,
                    row@ == initial[x as int]@,
                    height == row@.len(),
                    y <= height,
                    candidates@ == free_square_list(initial.take(x as int), sx, sy) + free_in_row_list(
                        initial[x as int]@.take(y as int),
                        x as int,
                        sx,
                        sy,
                    ),
                    candidates@.len() == free_squares(initial.take(x as int), sx, sy) + free_in_row(
                        initial[x as int]@.take(y as int),
                        x as int,
                        sx,
                        sy,
                    ),
                    forall|i: int|
                        0 <= i < candidates@.len() ==> free_square(initial, #[trigger] candidates@[i], sx, sy)
                            && (candidates@[i].0 < x || (candidates@[i].0 == x && candidates@[i].1 < y)),
                    forall|i: int, j: int|
                        0 <= i < j < candidates@.len() ==> #[trigger] candidates@[i] != #[trigger] candidates@[j],
                decreases height - y,
            {
                let ghost row_x = initial[x as int]@;
                let ghost t = row_x.take(y + 1);
                assert(t.len() == y + 1);
                assert(t.drop_last() =~= row_x.take(y as int));
                assert(t.last() == row_x[y as int]);
                assert(free_in_row(t, x as int, sx, sy) == free_in_row(row_x.take(y as int), x as int, sx, sy)
                    + if !row_x[y as int].is_bomb && !in_start_zone(sx, sy, x as int, y as int) { 1nat } else { 0nat });
                let ghost before = candidates@;
                let square = row[y];
                assert(square == row_x[y as int]);
                let near_start = Self::is_neighbor(start_x, start_y, x, y);
                if !near_start && !square.is_bomb {
                    candidates.push((x, y));
                    assert(free_square(initial, (x, y), sx, sy));
                    assert forall|i: int| 0 <= i < candidates@.len() implies free_square(initial, #[trigger] candidates@[i], sx, sy)
                            && (candidates@[i].0 < x || (candidates@[i].0 == x && candidates@[i].1 < y + 1)) by {
                        if i < before.len() {
                            assert(candidates@[i] == before[i]);
                        }
                    }
                    assert forall|i: int, j: int| 0 <= i < j < candidates@.len() implies #[trigger] candidates@[i] != #[trigger] candidates@[j] by {
                        if j < before.len() {
                            assert(candidates@[i] == before[i]);
                            assert(candidates@[j] == before[j]);
                        } else {
                            assert(candidates@[i] == before[i]);
                        }
                    }
                }
                assert(free_in_row_list(t, x as int, sx, sy) == free_in_row_list(row_x.take(y as int), x as int, sx, sy)
                    + if !row_x[y as int].is_bomb && !in_start_zone(sx, sy, x as int, y as int) { seq![(x, y)] } else { seq![] });
                assert(candidates@ =~= free_square_list(initial.take(x as int), sx, sy) + free_in_row_list(t, x as int, sx, sy));
                y = y + 1;
            }
            assert(initial[x as int]@.take(height as int) =~= initial[x as int]@);
            assert(initial.take(x + 1).drop_last() =~= initial.take(x as int));
            assert(initial.take(x + 1).last() == initial[x as int]);
            x = x + 1;
        }
        assert(initial.take(width as int) =~= initial);
        candidates
    }

    /// Puts a bomb on the square `candidates[k]`, removes that entry from the
    /// candidates, and returns the square. No other square changes.
    pub fn bomb_drawn_square(board: &mut Vec<Vec<Field>>, candidates: &mut Vec<(usize, usize)>, k: usize) -> (square: (
        usize,
        usize,
    ))
        requires
            k < old(candidates)@.len(),
            old(candidates)@[k as int].0 < old(board)@.len(),
            old(candidates)@[k as int].1 < old(board)@[old(candidates)@[k as int].0 as int]@.len(),
        ensures
            square == old(candidates)@[k as int],
            final(candidates)@ == old(candidates)@.remove(k as int),
            final(board)@.len() == old(board)@.len(),
            forall|x: int| 0 <= x < old(board)@.len() && x != square.0 ==> #[trigger] final(board)@[x] == old(board)@[x],
            final(board)@[square.0 as int]@ == old(board)@[square.0 as int]@.update(
                square.1 as int,
                with_bomb(old(board)@[square.0 as int]@[square.1 as int]),
            ),
    {
        let (x, y) = candidates.remove(k);
        board[x][y].is_bomb = true;
        proof {
            assert(final(board)@[x as int]@ =~= old(board)@[x as int]@.update(
                y as int,
                with_bomb(old(board)@[x as int]@[y as int]),
            ));
        }
        (x, y)
    }

    /// Places `bomb_count` more bombs, each on a square that holds none yet
    /// and lies outside the 3x3 square centred on the start. Each step draws
    /// one of the squares that may still take a bomb with `random_range`.
    fn place_bombs(board: &mut Vec<Vec<Field>>, start_x: usize, start_y: usize, bomb_count: usize)
        requires
            old(board)@.len() > 0,
            is_grid(old(board)@, old(board)@.len(), old(board)@[0]@.len()),
            bomb_count <= free_squares(old(board)@, start_x as int, start_y as int),
        ensures
            bombs_added_outside_zone(
                old(board)@,
                final(board)@,
                old(board)@.len(),
                old(board)@[0]@.len(),
                start_x as int,
                start_y as int,
            ),
            bomb_total(final(board)@) == bomb_total(old(board)@) + bomb_count,
    {
        let ghost initial = board@;
        let ghost sx = start_x as int;
        let ghost sy = start_y as int;
        let width = board.len();
        let height = board[0].len();
        let mut candidates = Self::free_squares_in_order(board, start_x, start_y);

        let mut rng = thread_rng();
        let mut remaining = bomb_count;
        while remaining > 0
            invariant
                width == initial.len(),
                height == initial[0]@.len(),
                sx == start_x as int,
                sy == start_y as int,
                is_grid(initial, width as nat, height as nat),
                bombs_added_outside_zone(initial, board@, width as nat, height as nat, sx, sy),
                bomb_total(board@) + remaining == bomb_total(initial) + bomb_count,
                remaining <= candidates@.len(),
                forall|i: int|
                    0 <= i < candidates@.len() ==> free_square(board@, #[trigger] candidates@[i], sx, sy),
                forall|i: int, j: int|
                    0 <= i < j < candidates@.len() ==> #[trigger] candidates@[i] != #[trigger] candidates@[j],
            decreases remaining,
        {
            let ghost before = board@;
            let ghost cands = candidates@;
            let k = random_below(&mut rng, candidates.len());
            assert(free_square(before, cands[k as int], sx, sy));
            let (cx, cy) = Self::bomb_drawn_square(board, &mut candidates, k);
            assert forall|i: int| 0 <= i < candidates@.len() implies candidates@[i] == (if i < k { cands[i] } else { cands[i + 1] }) && candidates@[i] != (cx, cy) by {
                if i < k {
                    assert(candidates@[i] == cands[i]);
                } else {
                    assert(candidates@[i] == cands[i + 1]);
                }
            }
            proof {
                let f = before[cx as int]@[cy as int];
                let g = Field { is_bomb: true, is_opened: f.is_opened, is_flag: f.is_flag };
                assert(board@[cx as int]@ =~= before[cx as int]@.update(cy as int, g));
                assert(board@ =~= before.update(cx as int, board@[cx as int]));
                assert(g == with_bomb(f));
                lemma_bomb_total_update(before, cx as int, board@[cx as int], cy as int, g);
                assert forall|i: int| 0 <= i < candidates@.len() implies free_square(board@, #[trigger] candidates@[i], sx, sy) by {
                    let c = candidates@[i];
                    if i < k {
                        assert(free_square(before, cands[i], sx, sy));
                    } else {
                        assert(free_square(before, cands[i + 1], sx, sy));
                    }
                    assert(c.0 != cx || c.1 != cy);
                    if c.0 == cx {
                        assert(board@[c.0 as int]@[c.1 as int] == before[c.0 as int]@[c.1 as int]);
                    }
                }
                assert forall|i: int, j: int| 0 <= i < j < candidates@.len() implies #[trigger] candidates@[i] != #[trigger] candidates@[j] by {
                    let ii = if i < k { i } else { i + 1 };
                    let jj = if j < k { j } else { j + 1 };
                    assert(cands[ii] != cands[jj]);
                }
                assert forall|x: int, y: int| 0 <= x < width && 0 <= y < height implies {
                    let b = #[trigger] initial[x]@[y];
                    let a = board@[x]@[y];
                    &&& a.is_opened == b.is_opened
                    &&& a.is_flag == b.is_flag
                    &&& b.is_bomb ==> a.is_bomb
                    &&& (a.is_bomb && !b.is_bomb) ==> !in_start_zone(sx, sy, x, y)
                } by {
                    if x == cx && y == cy {
                    } else {
                        assert(board@[x]@[y] == before[x]@[y]);
                    }
                }
            }
            remaining = remaining - 1;
        }
    }
}

} // verus!
