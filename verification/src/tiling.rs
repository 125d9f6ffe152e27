//! Tiling of windows over a grid of screens.
//!
//! The workspace is a grid of `GRID_COLS` by `GRID_ROWS` screens. Windows are
//! handed out to the grid's cells in order, an equal share per cell (the last
//! cell takes what is left), and inside a cell they are tiled in a near-square
//! grid of their own, with padding around each tile and room left for the
//! taskbar at the bottom of the screen.

use vstd::prelude::*;
use vstd::arithmetic::div_mod::{lemma_fundamental_div_mod, lemma_div_pos_is_pos, lemma_mod_bound};
use vstd::arithmetic::mul::{lemma_mul_inequality, lemma_mul_strict_inequality};

verus! {

/// Columns of screens in the workspace grid.
pub const GRID_COLS: i32 = 3;

/// Rows of screens in the workspace grid.
pub const GRID_ROWS: i32 = 3;

/// Padding around each tile, in pixels.
pub const TILE_PAD: i32 = 10;

/// Height kept free for the taskbar at the bottom of each screen, in pixels.
pub const TASKBAR_H: i32 = 48;

/// Largest screen extent, in either direction, for which the coordinates of
/// three screens side by side, with padding, still fit in an `i32`.
pub const MAX_SCREEN_EXTENT: i32 = 0x2000_0000;

/// A screen size for which every tile coordinate fits in an `i32`.
pub open spec fn screen_in_range(w: int, h: int) -> bool {
    &&& -MAX_SCREEN_EXTENT <= w <= MAX_SCREEN_EXTENT
    &&& -MAX_SCREEN_EXTENT <= h <= MAX_SCREEN_EXTENT
}

/// Whether a screen size keeps every tile coordinate within `i32`.
pub fn screen_fits(w: i32, h: i32) -> (b: bool)
    ensures
        b == screen_in_range(w as int, h as int),
{
    -MAX_SCREEN_EXTENT <= w && w <= MAX_SCREEN_EXTENT && -MAX_SCREEN_EXTENT <= h && h
        <= MAX_SCREEN_EXTENT
}

/// Integer division rounding toward zero, as `/` does on Rust's signed integers.
pub open spec fn trunc_div(a: int, b: int) -> int
    recommends
        b > 0,
{
    if a >= 0 {
        a / b
    } else {
        -((-a) / b)
    }
}

/// The number of cells in the grid of screens.
pub open spec fn total_cells() -> int {
    GRID_COLS * GRID_ROWS
}

/// How many windows each cell takes when `n` windows are distributed:
/// the count divided by the number of cells, rounded up, and at least one.
pub open spec fn per_cell(n: int) -> int {
    let q = (n + total_cells() - 1) / total_cells();
    if q >= 1 {
        q
    } else {
        1
    }
}

/// The cell of the `i`-th of `n` windows.
pub open spec fn cell_of(n: int, i: int) -> int {
    let k = i / per_cell(n);
    if k <= total_cells() - 1 {
        k
    } else {
        total_cells() - 1
    }
}

/// The index of the first window in the cell of the `i`-th of `n` windows.
pub open spec fn cell_start(n: int, i: int) -> int {
    cell_of(n, i) * per_cell(n)
}

/// One past the index of the last window in the cell of the `i`-th of `n` windows.
pub open spec fn cell_end(n: int, i: int) -> int {
    let e = (cell_of(n, i) + 1) * per_cell(n);
    if e <= n {
        e
    } else {
        n
    }
}

/// How many windows share the cell of the `i`-th of `n` windows.
pub open spec fn cell_count(n: int, i: int) -> int {
    cell_end(n, i) - cell_start(n, i)
}

/// `c` is the square root of `n`, rounded up.
pub open spec fn is_ceil_sqrt(n: int, c: int) -> bool {
    &&& 0 <= c
    &&& c * c >= n
    &&& (c == 0 || (c - 1) * (c - 1) < n)
}

/// The square root of `n`, rounded up.
pub open spec fn ceil_sqrt(n: int) -> int {
    choose|c: int| is_ceil_sqrt(n, c)
}

/// Columns of tiles in the cell of the `i`-th of `n` windows.
pub open spec fn tile_cols(n: int, i: int) -> int {
    ceil_sqrt(cell_count(n, i))
}

/// Rows of tiles in the cell of the `i`-th of `n` windows.
pub open spec fn tile_rows(n: int, i: int) -> int {
    (cell_count(n, i) + tile_cols(n, i) - 1) / tile_cols(n, i)
}

/// Width of a tile slot (tile and padding) in that cell.
pub open spec fn slot_w(n: int, i: int, sw: int) -> int {
    trunc_div(sw - 2 * TILE_PAD, tile_cols(n, i))
}

/// Height of a tile slot (tile and padding) in that cell.
pub open spec fn slot_h(n: int, i: int, sh: int) -> int {
    trunc_div(sh - TASKBAR_H - 2 * TILE_PAD, tile_rows(n, i))
}

/// A rectangle on the canvas: its left and top edges, width and height.
pub struct TileRect {
    pub x: int,
    pub y: int,
    pub w: int,
    pub h: int,
}

/// The tile of the `i`-th of `n` windows on a canvas of `sw` by `sh` screens.
pub open spec fn tile(n: int, i: int, sw: int, sh: int) -> TileRect {
    let k = cell_of(n, i);
    let in_cell = i - cell_start(n, i);
    let cols = tile_cols(n, i);
    let c = in_cell % cols;
    let r = in_cell / cols;
    let tw = slot_w(n, i, sw);
    let th = slot_h(n, i, sh);
    TileRect {
        x: (k % (GRID_COLS as int)) * sw + TILE_PAD + c * tw + TILE_PAD,
        y: (k / (GRID_COLS as int)) * sh + TILE_PAD + r * th + TILE_PAD,
        w: tw - 2 * TILE_PAD,
        h: th - 2 * TILE_PAD,
    }
}

/// A tile with positive width and height.
pub open spec fn has_area(t: TileRect) -> bool {
    t.w > 0 && t.h > 0
}

/// Two rectangles share a point.
pub open spec fn overlap(a: TileRect, b: TileRect) -> bool {
    &&& a.x < b.x + b.w
    &&& b.x < a.x + a.w
    &&& a.y < b.y + b.h
    &&& b.y < a.y + a.h
}

// ---------------------------------------------------------------------------
// Arithmetic facts
// ---------------------------------------------------------------------------

proof fn lemma_ceil_sqrt_unique(n: int, c1: int, c2: int)
    requires
        is_ceil_sqrt(n, c1),
        is_ceil_sqrt(n, c2),
    ensures
        c1 == c2,
{
    if c1 < c2 {
        assert(c1 <= c2 - 1);
        lemma_mul_inequality(c1, c2 - 1, c1);
        lemma_mul_inequality(c1, c2 - 1, c2 - 1);
    } else if c2 < c1 {
        assert(c2 <= c1 - 1);
        lemma_mul_inequality(c2, c1 - 1, c2);
        lemma_mul_inequality(c2, c1 - 1, c1 - 1);
    }
}

proof fn lemma_ceil_sqrt_is(n: int, c: int)
    requires
        is_ceil_sqrt(n, c),
    ensures
        ceil_sqrt(n) == c,
{
    assert(is_ceil_sqrt(n, ceil_sqrt(n)));
    lemma_ceil_sqrt_unique(n, c, ceil_sqrt(n));
}

/// The square root, rounded up, of a count that exists: it is at least one
/// and at most the count.
proof fn lemma_ceil_sqrt_bounds(n: int)
    requires
        n >= 1,
        exists|c: int| is_ceil_sqrt(n, c),
    ensures
        is_ceil_sqrt(n, ceil_sqrt(n)),
        1 <= ceil_sqrt(n) <= n,
{
    let c = ceil_sqrt(n);
    assert(is_ceil_sqrt(n, c));
    if c > n {
        assert((c - 1) * (c - 1) >= n * n) by (nonlinear_arith)
            requires
                c - 1 >= n,
                n >= 1,
        ;
        assert(n * n >= n) by (nonlinear_arith)
            requires
                n >= 1,
        ;
    }
    if c == 0 {
        assert(c * c == 0) by (nonlinear_arith)
            requires
                c == 0,
        ;
    }
}

proof fn lemma_trunc_div_bound(a: int, b: int)
    requires
        b > 0,
    ensures
        trunc_div(a, b) * b <= a || a < 0,
        a >= 0 ==> 0 <= trunc_div(a, b) && trunc_div(a, b) * b <= a,
        a < 0 ==> trunc_div(a, b) <= 0 && trunc_div(a, b) * b >= a,
        -a <= trunc_div(a, b) * b <= a || a <= trunc_div(a, b) * b <= -a,
{
    if a >= 0 {
        lemma_fundamental_div_mod(a, b);
        lemma_mod_bound(a, b);
        lemma_div_pos_is_pos(a, b);
        assert(b * (a / b) == (a / b) * b) by (nonlinear_arith);
    } else {
        lemma_fundamental_div_mod(-a, b);
        lemma_mod_bound(-a, b);
        lemma_div_pos_is_pos(-a, b);
        assert(b * ((-a) / b) == ((-a) / b) * b) by (nonlinear_arith);
        assert(trunc_div(a, b) * b == -(((-a) / b) * b)) by (nonlinear_arith)
            requires
                trunc_div(a, b) == -((-a) / b),
        ;
    }
}

/// A slot of positive width comes from a positive width to share, and all
/// slots of the cell fit in it.
proof fn lemma_slot_positive(a: int, b: int)
    requires
        b > 0,
        trunc_div(a, b) > 0,
    ensures
        a > 0,
        trunc_div(a, b) * b <= a,
{
    lemma_trunc_div_bound(a, b);
}

/// `0 <= c < cols` slots of width `tw`, where `cols` slots fit in `a`:
/// the offset of slot `c` and its far edge stay within `a`.
proof fn lemma_slot_offset(c: int, cols: int, tw: int, a: int)
    requires
        0 <= c < cols,
        0 <= tw,
        tw * cols <= a,
    ensures
        0 <= c * tw,
        (c + 1) * tw <= a,
{
    lemma_mul_inequality(0, c, tw);
    lemma_mul_inequality(c + 1, cols, tw);
    assert(cols * tw == tw * cols) by (nonlinear_arith);
}

/// Facts about the cell of the `i`-th of `n` windows.
pub proof fn lemma_cell_facts(n: int, i: int)
    requires
        0 <= i < n,
    ensures
        total_cells() == 9,
        per_cell(n) >= 1,
        per_cell(n) * total_cells() >= n,
        (per_cell(n) - 1) * total_cells() < n,
        0 <= cell_of(n, i) < total_cells(),
        cell_of(n, i) == i / per_cell(n),
        0 <= cell_start(n, i) <= i,
        i < cell_end(n, i) <= n,
        1 <= cell_count(n, i) <= n,
{
    let p = per_cell(n);
    let q = (n + total_cells() - 1) / total_cells();
    lemma_fundamental_div_mod(n + 8, 9);
    lemma_mod_bound(n + 8, 9);
    assert(q * 9 >= n);
    assert(p * 9 >= n);
    assert((p - 1) * 9 < n) by (nonlinear_arith)
        requires
            n + 8 == 9 * q + (n + 8) % 9,
            0 <= (n + 8) % 9 < 9,
            p == q || (p == 1 && q < 1),
            n >= 1,
    ;
    lemma_fundamental_div_mod(i, p);
    lemma_mod_bound(i, p);
    lemma_div_pos_is_pos(i, p);
    let k = i / p;
    assert(p * k == k * p) by (nonlinear_arith);
    // i < (k + 1) * p, so k < 9 because i < n <= 9 * p
    assert(i < (k + 1) * p) by (nonlinear_arith)
        requires
            i == p * k + i % p,
            i % p < p,
    ;
    if k >= 9 {
        lemma_mul_inequality(9, k, p);
        assert(false);
    }
    assert(cell_of(n, i) == k);
    assert(k * p <= i);
    assert(0 <= k * p) by (nonlinear_arith)
        requires
            k >= 0,
            p >= 1,
    ;
}

/// The rows of tiles hold every window of the cell.
proof fn lemma_rows_hold(cc: int, cols: int)
    requires
        1 <= cols,
        cc >= 1,
    ensures
        (cc + cols - 1) / cols >= 1,
        ((cc + cols - 1) / cols) * cols >= cc,
        (cc + cols - 1) / cols <= cc,
{
    let rows = (cc + cols - 1) / cols;
    lemma_fundamental_div_mod(cc + cols - 1, cols);
    lemma_mod_bound(cc + cols - 1, cols);
    assert(cols * rows == rows * cols) by (nonlinear_arith);
    assert(rows * cols >= cc);
    if rows < 1 {
        assert(rows <= 0);
        lemma_mul_inequality(rows, 0, cols);
        assert(false);
    }
    if rows > cc {
        lemma_mul_inequality(cc + 1, rows, cols);
        assert((cc + 1) * cols >= cc + cols) by (nonlinear_arith)
            requires
                cc >= 0,
                cols >= 1,
        ;
        assert(false);
    }
}


/// `0 <= c <= cols` slots of width `tw`, where `cols` of them span at most
/// `m` in either direction: the first `c` slots span at most `m` too.
proof fn lemma_partial_slots(c: int, cols: int, tw: int, m: int)
    requires
        0 <= c <= cols,
        -m <= tw * cols <= m,
    ensures
        -m <= c * tw <= m,
{
    assert(cols * tw == tw * cols) by (nonlinear_arith);
    if tw >= 0 {
        lemma_mul_inequality(0, c, tw);
        lemma_mul_inequality(c, cols, tw);
    } else {
        assert(c * tw >= cols * tw) by (nonlinear_arith)
            requires
                c <= cols,
                tw < 0,
        ;
        assert(c * tw <= 0) by (nonlinear_arith)
            requires
                c >= 0,
                tw < 0,
        ;
    }
}

/// The row of a window inside its cell is one of the cell's rows.
proof fn lemma_row_in_range(in_cell: int, cc: int, cols: int)
    requires
        1 <= cols,
        cc >= 1,
        0 <= in_cell < cc,
    ensures
        0 <= in_cell / cols < (cc + cols - 1) / cols,
        0 <= in_cell % cols < cols,
{
    lemma_rows_hold(cc, cols);
    let rows = (cc + cols - 1) / cols;
    lemma_fundamental_div_mod(in_cell, cols);
    lemma_mod_bound(in_cell, cols);
    lemma_div_pos_is_pos(in_cell, cols);
    let r = in_cell / cols;
    if r >= rows {
        lemma_mul_inequality(rows, r, cols);
        assert(cols * r == r * cols) by (nonlinear_arith);
        assert(false);
    }
}

/// The square root of `n`, rounded up, found by counting up.
pub fn ceil_sqrt_u64(n: u64) -> (c: u64)
    requires
        n <= 0x7fff_ffff,
    ensures
        is_ceil_sqrt(n as int, c as int),
        c as int == ceil_sqrt(n as int),
{
    let mut c: u64 = 0;
    while c * c < n
        invariant
            c <= 46341,
            c * c <= 46341 * 46341,
            n <= 0x7fff_ffff,
            c == 0 || (c - 1) * (c - 1) < n,
        decreases 46341 - c,
    {
        assert(c < 46341) by (nonlinear_arith)
            requires
                c * c < n,
                n <= 0x7fff_ffff,
        ;
        c = c + 1;
        assert(c * c <= 46341 * 46341) by (nonlinear_arith)
            requires
                c <= 46341,
        ;
    }
    assert(c * c <= 46341 * 46341) by (nonlinear_arith)
        requires
            c <= 46341,
    ;
    proof {
        lemma_ceil_sqrt_is(n as int, c as int);
    }
    c
}

/// Integer division rounding toward zero.
fn trunc_div_i64(a: i64, b: i64) -> (q: i64)
    requires
        b > 0,
        a > i64::MIN,
    ensures
        q == trunc_div(a as int, b as int),
{
    if a >= 0 {
        a / b
    } else {
        let m = -a;
        -(m / b)
    }
}

/// The tile of the `i`-th of `n` windows on a canvas of `sw` by `sh` screens:
/// its left and top edges, its width and its height. Window counts range up
/// to `i32::MAX`, the range in which positions inside a cell are counted.
pub fn tile_of(n: usize, i: usize, sw: i32, sh: i32) -> (t: (i32, i32, i32, i32))
    requires
        i < n <= 0x7fff_ffff,
        screen_in_range(sw as int, sh as int),
    ensures
        t.0 == tile(n as int, i as int, sw as int, sh as int).x,
        t.1 == tile(n as int, i as int, sw as int, sh as int).y,
        t.2 == tile(n as int, i as int, sw as int, sh as int).w,
        t.3 == tile(n as int, i as int, sw as int, sh as int).h,
{
    proof {
        lemma_cell_facts(n as int, i as int);
    }
    let total: usize = (GRID_COLS * GRID_ROWS) as usize;
    let q = (n + total - 1) / total;
    let per = if q >= 1 { q } else { 1 };
    let k0 = i / per;
    let k = if k0 <= total - 1 { k0 } else { total - 1 };
    assert(k as int == cell_of(n as int, i as int));
    assert(k * per <= i);
    let start = k * per;
    assert((k + 1) * per <= 9 * per) by (nonlinear_arith)
        requires
            k < 9,
            per >= 1,
    ;
    assert(9 * per <= n + 8) by {
        assert(9 * ((n + 8) / 9) <= n + 8) by (nonlinear_arith);
    }
    let e = (k + 1) * per;
    let end = if e <= n { e } else { n };
    let cc = end - start;
    assert(cc as int == cell_count(n as int, i as int));
    let cols = ceil_sqrt_u64(cc as u64);
    proof {
        lemma_ceil_sqrt_bounds(cc as int);
        lemma_rows_hold(cc as int, cols as int);
    }
    let rows = (cc as u64 + cols - 1) / cols;
    let in_cell = i - start;
    proof {
        lemma_row_in_range(in_cell as int, cc as int, cols as int);
    }
    let c = (in_cell as u64) % cols;
    let r = (in_cell as u64) / cols;
    let avail_w: i64 = sw as i64 - 2 * (TILE_PAD as i64);
    let avail_h: i64 = sh as i64 - TASKBAR_H as i64 - 2 * (TILE_PAD as i64);
    let tw = trunc_div_i64(avail_w, cols as i64);
    let th = trunc_div_i64(avail_h, rows as i64);
    proof {
        lemma_trunc_div_bound(avail_w as int, cols as int);
        lemma_trunc_div_bound(avail_h as int, rows as int);
        let mw: int = if avail_w >= 0 { avail_w as int } else { -avail_w };
        let mh: int = if avail_h >= 0 { avail_h as int } else { -avail_h };
        lemma_partial_slots(c as int, cols as int, tw as int, mw);
        lemma_partial_slots(r as int, rows as int, th as int, mh);
    }
    let kc = (k as i64) % (GRID_COLS as i64);
    let kr = (k as i64) / (GRID_COLS as i64);
    assert(-2 * (sw as int) <= kc * (sw as int) <= 2 * (sw as int) || 2 * (sw as int) <= kc * (
    sw as int) <= -2 * (sw as int)) by (nonlinear_arith)
        requires
            0 <= kc <= 2,
    ;
    assert(-2 * (sh as int) <= kr * (sh as int) <= 2 * (sh as int) || 2 * (sh as int) <= kr * (
    sh as int) <= -2 * (sh as int)) by (nonlinear_arith)
        requires
            0 <= kr <= 2,
    ;
    let x = kc * (sw as i64) + TILE_PAD as i64 + (c as i64) * tw + TILE_PAD as i64;
    let y = kr * (sh as i64) + TILE_PAD as i64 + (r as i64) * th + TILE_PAD as i64;
    let w = tw - 2 * (TILE_PAD as i64);
    let h = th - 2 * (TILE_PAD as i64);
    (x as i32, y as i32, w as i32, h as i32)
}


/// Every count has a square root rounded up.
pub proof fn lemma_ceil_sqrt_exists(n: int)
    requires
        n >= 0,
    ensures
        is_ceil_sqrt(n, ceil_sqrt(n)),
    decreases n,
{
    if n == 0 {
        assert(is_ceil_sqrt(0, 0)) by {
            assert(0 * 0 == 0) by (nonlinear_arith);
        }
        lemma_ceil_sqrt_is(0, 0);
    } else {
        lemma_ceil_sqrt_exists(n - 1);
        let c = ceil_sqrt(n - 1);
        if c * c >= n {
            if c == 0 {
                assert(c * c == 0) by (nonlinear_arith)
                    requires
                        c == 0,
                ;
            }
            assert(is_ceil_sqrt(n, c));
            lemma_ceil_sqrt_is(n, c);
        } else {
            assert((c + 1) * (c + 1) == c * c + 2 * c + 1) by (nonlinear_arith);
            assert(is_ceil_sqrt(n, c + 1));
            lemma_ceil_sqrt_is(n, c + 1);
        }
    }
}

/// The shape of the cell of the `i`-th of `n` windows: at least one column
/// and one row, and the window's column and row lie inside them.
proof fn lemma_tile_shape(n: int, i: int)
    requires
        0 <= i < n,
    ensures
        1 <= tile_cols(n, i) <= cell_count(n, i),
        1 <= tile_rows(n, i),
        0 <= (i - cell_start(n, i)) % tile_cols(n, i) < tile_cols(n, i),
        0 <= (i - cell_start(n, i)) / tile_cols(n, i) < tile_rows(n, i),
{
    lemma_cell_facts(n, i);
    let cc = cell_count(n, i);
    lemma_ceil_sqrt_exists(cc);
    lemma_ceil_sqrt_bounds(cc);
    lemma_rows_hold(cc, tile_cols(n, i));
    lemma_row_in_range(i - cell_start(n, i), cc, tile_cols(n, i));
}

/// A tile with area lies inside its own screen of the grid, inside the
/// padding, and clear of the taskbar at the bottom of the screen.
pub proof fn lemma_tile_within_cell(n: int, i: int, sw: int, sh: int)
    requires
        0 <= i < n,
        has_area(tile(n, i, sw, sh)),
    ensures
        sw > 2 * TILE_PAD,
        sh > TASKBAR_H + 2 * TILE_PAD,
        0 <= cell_of(n, i) < total_cells(),
        (cell_of(n, i) % (GRID_COLS as int)) * sw + 2 * TILE_PAD <= tile(n, i, sw, sh).x,
        tile(n, i, sw, sh).x + tile(n, i, sw, sh).w
            <= (cell_of(n, i) % (GRID_COLS as int)) * sw + sw - 2 * TILE_PAD,
        (cell_of(n, i) / (GRID_COLS as int)) * sh + 2 * TILE_PAD <= tile(n, i, sw, sh).y,
        tile(n, i, sw, sh).y + tile(n, i, sw, sh).h
            <= (cell_of(n, i) / (GRID_COLS as int)) * sh + sh - TASKBAR_H - 2 * TILE_PAD,
{
    lemma_cell_facts(n, i);
    lemma_tile_shape(n, i);
    let cols = tile_cols(n, i);
    let rows = tile_rows(n, i);
    let in_cell = i - cell_start(n, i);
    let c = in_cell % cols;
    let r = in_cell / cols;
    let tw = slot_w(n, i, sw);
    let th = slot_h(n, i, sh);
    let aw = sw - 2 * TILE_PAD;
    let ah = sh - TASKBAR_H - 2 * TILE_PAD;
    lemma_slot_positive(aw, cols);
    lemma_slot_positive(ah, rows);
    lemma_slot_offset(c, cols, tw, aw);
    lemma_slot_offset(r, rows, th, ah);
    assert((c + 1) * tw == c * tw + tw) by (nonlinear_arith);
    assert((r + 1) * th == r * th + th) by (nonlinear_arith);
}

/// Windows are handed to the cells in order, and a cell holds at most its
/// share of them.
pub proof fn lemma_cells_in_order(n: int, i: int, j: int)
    requires
        0 <= i <= j < n,
    ensures
        cell_of(n, i) <= cell_of(n, j),
        cell_count(n, i) <= per_cell(n),
        cell_of(n, i) == cell_of(n, j) ==> j - i < per_cell(n),
{
    lemma_cell_facts(n, i);
    lemma_cell_facts(n, j);
    let p = per_cell(n);
    vstd::arithmetic::div_mod::lemma_div_is_ordered(i, j, p);
    assert((cell_of(n, i) + 1) * p == cell_of(n, i) * p + p) by (nonlinear_arith);
}

/// No two windows' tiles share a point: the tiles that have an area are
/// pairwise disjoint.
pub proof fn lemma_tiles_disjoint(n: int, i: int, j: int, sw: int, sh: int)
    requires
        0 <= i < n,
        0 <= j < n,
        i != j,
        has_area(tile(n, i, sw, sh)),
        has_area(tile(n, j, sw, sh)),
    ensures
        !overlap(tile(n, i, sw, sh), tile(n, j, sw, sh)),
{
    lemma_tile_within_cell(n, i, sw, sh);
    lemma_tile_within_cell(n, j, sw, sh);
    lemma_tile_shape(n, i);
    lemma_tile_shape(n, j);
    let a = tile(n, i, sw, sh);
    let b = tile(n, j, sw, sh);
    let ki = cell_of(n, i);
    let kj = cell_of(n, j);
    if ki == kj {
        let cols = tile_cols(n, i);
        let ii = i - cell_start(n, i);
        let jj = j - cell_start(n, j);
        let tw = slot_w(n, i, sw);
        let th = slot_h(n, i, sh);
        lemma_fundamental_div_mod(ii, cols);
        lemma_fundamental_div_mod(jj, cols);
        let ci = ii % cols;
        let cj = jj % cols;
        let ri = ii / cols;
        let rj = jj / cols;
        assert((ci + 1) * tw == ci * tw + tw) by (nonlinear_arith);
        assert((cj + 1) * tw == cj * tw + tw) by (nonlinear_arith);
        assert((ri + 1) * th == ri * th + th) by (nonlinear_arith);
        assert((rj + 1) * th == rj * th + th) by (nonlinear_arith);
        if ci < cj {
            lemma_mul_inequality(ci + 1, cj, tw);
        } else if cj < ci {
            lemma_mul_inequality(cj + 1, ci, tw);
        } else if ri < rj {
            lemma_mul_inequality(ri + 1, rj, th);
        } else {
            assert(rj < ri);
            lemma_mul_inequality(rj + 1, ri, th);
        }
    } else {
        let gc = GRID_COLS as int;
        lemma_fundamental_div_mod(ki, gc);
        lemma_fundamental_div_mod(kj, gc);
        assert((ki % gc + 1) * sw == (ki % gc) * sw + sw) by (nonlinear_arith);
        assert((kj % gc + 1) * sw == (kj % gc) * sw + sw) by (nonlinear_arith);
        assert((ki / gc + 1) * sh == (ki / gc) * sh + sh) by (nonlinear_arith);
        assert((kj / gc + 1) * sh == (kj / gc) * sh + sh) by (nonlinear_arith);
        if ki % gc < kj % gc {
            lemma_mul_inequality(ki % gc + 1, kj % gc, sw);
        } else if kj % gc < ki % gc {
            lemma_mul_inequality(kj % gc + 1, ki % gc, sw);
        } else if ki / gc < kj / gc {
            lemma_mul_inequality(ki / gc + 1, kj / gc, sh);
        } else {
            assert(kj / gc < ki / gc);
            lemma_mul_inequality(kj / gc + 1, ki / gc, sh);
        }
    }
}


/// On a screen in range, every tile's width and height lie within twice the
/// largest screen extent.
pub proof fn lemma_tile_size_in_range(n: int, i: int, sw: int, sh: int)
    requires
        0 <= i < n,
        screen_in_range(sw, sh),
    ensures
        -2 * MAX_SCREEN_EXTENT <= tile(n, i, sw, sh).w <= 2 * MAX_SCREEN_EXTENT,
        -2 * MAX_SCREEN_EXTENT <= tile(n, i, sw, sh).h <= 2 * MAX_SCREEN_EXTENT,
{
    lemma_tile_shape(n, i);
    let aw = sw - 2 * TILE_PAD;
    let ah = sh - TASKBAR_H - 2 * TILE_PAD;
    let cols = tile_cols(n, i);
    let rows = tile_rows(n, i);
    lemma_trunc_div_bound(aw, cols);
    lemma_trunc_div_bound(ah, rows);
    let mw: int = if aw >= 0 { aw } else { -aw };
    let mh: int = if ah >= 0 { ah } else { -ah };
    lemma_partial_slots(1, cols, slot_w(n, i, sw), mw);
    lemma_partial_slots(1, rows, slot_h(n, i, sh), mh);
}


/// Integer division rounding toward zero leaves less than one divisor of
/// remainder, on the side of zero.
proof fn lemma_trunc_div_remainder(a: int, b: int)
    requires
        b > 0,
    ensures
        a >= 0 ==> trunc_div(a, b) * b <= a < trunc_div(a, b) * b + b,
        a < 0 ==> trunc_div(a, b) * b - b < a <= trunc_div(a, b) * b,
{
    if a >= 0 {
        lemma_fundamental_div_mod(a, b);
        lemma_mod_bound(a, b);
        assert(b * (a / b) == (a / b) * b) by (nonlinear_arith);
    } else {
        lemma_fundamental_div_mod(-a, b);
        lemma_mod_bound(-a, b);
        assert(b * ((-a) / b) == ((-a) / b) * b) by (nonlinear_arith);
        assert(trunc_div(a, b) * b == -(((-a) / b) * b)) by (nonlinear_arith)
            requires
                trunc_div(a, b) == -((-a) / b),
        ;
    }
}

/// A window's tile fills its share of the screen: the cell is tiled in
/// `cols` columns and `rows` rows, where `cols` is the square root of the
/// number of windows in the cell rounded up and `rows` the fewest rows that
/// hold them; `cols` slots, each a tile and its padding, span the screen's
/// width less the outer padding to within `cols - 1` pixels, and `rows` slots
/// span its height less the taskbar and the outer padding to within
/// `rows - 1` pixels (rounding toward zero); and the tile sits in its slot,
/// the slots of a row and of a column laid edge to edge from the screen's
/// padded corner.
pub proof fn lemma_tile_fills_cell(n: int, i: int, sw: int, sh: int)
    requires
        0 <= i < n,
    ensures
        ({
            let t = tile(n, i, sw, sh);
            let cc = cell_count(n, i);
            let cols = tile_cols(n, i);
            let rows = tile_rows(n, i);
            let in_cell = i - cell_start(n, i);
            let aw = sw - 2 * TILE_PAD;
            let ah = sh - TASKBAR_H - 2 * TILE_PAD;
            let k = cell_of(n, i);
            &&& 1 <= cols && cols * cols >= cc && (cols - 1) * (cols - 1) < cc
            &&& 1 <= rows && rows * cols >= cc && (rows - 1) * cols < cc
            &&& aw >= 0 ==> cols * (t.w + 2 * TILE_PAD) <= aw < cols * (t.w + 2 * TILE_PAD) + cols
            &&& aw < 0 ==> cols * (t.w + 2 * TILE_PAD) - cols < aw <= cols * (t.w + 2 * TILE_PAD)
            &&& ah >= 0 ==> rows * (t.h + 2 * TILE_PAD) <= ah < rows * (t.h + 2 * TILE_PAD) + rows
            &&& ah < 0 ==> rows * (t.h + 2 * TILE_PAD) - rows < ah <= rows * (t.h + 2 * TILE_PAD)
            &&& t.x == (k % (GRID_COLS as int)) * sw + 2 * TILE_PAD + (in_cell % cols) * (t.w + 2
                * TILE_PAD)
            &&& t.y == (k / (GRID_COLS as int)) * sh + 2 * TILE_PAD + (in_cell / cols) * (t.h + 2
                * TILE_PAD)
        }),
{
    lemma_tile_shape(n, i);
    let cc = cell_count(n, i);
    let cols = tile_cols(n, i);
    let rows = tile_rows(n, i);
    lemma_ceil_sqrt_exists(cc);
    lemma_rows_hold(cc, cols);
    let aw = sw - 2 * TILE_PAD;
    let ah = sh - TASKBAR_H - 2 * TILE_PAD;
    lemma_trunc_div_remainder(aw, cols);
    lemma_trunc_div_remainder(ah, rows);
    let tw = slot_w(n, i, sw);
    let th = slot_h(n, i, sh);
    assert(cols * tw == tw * cols) by (nonlinear_arith);
    assert(rows * th == th * rows) by (nonlinear_arith);
    let q = (cc + cols - 1) / cols;
    lemma_fundamental_div_mod(cc + cols - 1, cols);
    lemma_mod_bound(cc + cols - 1, cols);
    assert((q - 1) * cols < cc) by (nonlinear_arith)
        requires
            cc + cols - 1 == cols * q + (cc + cols - 1) % cols,
            0 <= (cc + cols - 1) % cols,
    ;
}


/// The windows that share the cell of the `i`-th window are exactly those from
/// the cell's first index up to, not including, its end: each cell holds a
/// run of consecutive windows.
pub proof fn lemma_cell_members(n: int, i: int, j: int)
    requires
        0 <= i < n,
        0 <= j < n,
    ensures
        (cell_of(n, j) == cell_of(n, i)) <==> (cell_start(n, i) <= j < cell_end(n, i)),
{
    lemma_cell_facts(n, i);
    lemma_cell_facts(n, j);
    let p = per_cell(n);
    let ki = cell_of(n, i);
    let kj = cell_of(n, j);
    lemma_fundamental_div_mod(j, p);
    lemma_mod_bound(j, p);
    assert(p * kj == kj * p) by (nonlinear_arith);
    assert((kj + 1) * p == kj * p + p) by (nonlinear_arith);
    assert((ki + 1) * p == ki * p + p) by (nonlinear_arith);
    if cell_start(n, i) <= j < cell_end(n, i) {
        if ki < kj {
            lemma_mul_inequality(ki + 1, kj, p);
        } else if kj < ki {
            lemma_mul_inequality(kj + 1, ki, p);
        }
    }
}

} // verus!
