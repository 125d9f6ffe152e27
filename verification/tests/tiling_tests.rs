use win_canvas::tiling::{ceil_sqrt_u64, tile_of, GRID_COLS, GRID_ROWS};

#[test]
fn ceil_sqrt_values() {
    let cases = [(0u64, 0u64), (1, 1), (2, 2), (3, 2), (4, 2), (5, 3), (9, 3), (10, 4), (16, 4), (17, 5)];
    for (n, c) in cases {
        assert_eq!(ceil_sqrt_u64(n), c, "ceil_sqrt({})", n);
    }
}

#[test]
fn ceil_sqrt_agrees_with_float_ceil_sqrt() {
    for n in 1u64..5000 {
        assert_eq!(ceil_sqrt_u64(n), (n as f64).sqrt().ceil() as u64, "n = {}", n);
    }
}

#[test]
fn single_window_fills_first_screen() {
    assert_eq!(tile_of(1, 0, 1920, 1080), (20, 20, 1880, 992));
}

#[test]
fn tenth_window_of_ten_lands_in_centre_screen() {
    // Two windows per cell; window 9 is the second of cell 4 (centre screen),
    // whose two tiles sit side by side.
    assert_eq!(tile_of(10, 9, 1920, 1080), (1920 + 10 + 950 + 10, 1080 + 20, 930, 992));
    assert_eq!(tile_of(10, 8, 1920, 1080), (1920 + 20, 1080 + 20, 930, 992));
}

#[test]
fn narrow_screen_divides_toward_zero() {
    // avail_w = 5 - 20 = -15; two columns give -7 (toward zero), not -8.
    assert_eq!(tile_of(10, 9, 5, 1080), (5 + 10 - 7 + 10, 1080 + 20, -27, 992));
}

fn float_tile(count: usize, i: usize, sw: i32, sh: i32) -> (i32, i32, i32, i32) {
    let total_cells = (GRID_COLS * GRID_ROWS) as usize;
    let per_cell = ((count + total_cells - 1) / total_cells).max(1);
    let cell_idx = (i / per_cell).min(total_cells - 1);
    let cell_col = cell_idx as i32 % GRID_COLS;
    let cell_row = cell_idx as i32 / GRID_COLS;
    let cell_start = cell_idx * per_cell;
    let cell_end = ((cell_idx + 1) * per_cell).min(count);
    let cell_count = cell_end - cell_start;
    let in_cell = i - cell_start;
    let cols = (cell_count as f64).sqrt().ceil() as i32;
    let rows = (cell_count as i32 + cols - 1) / cols;
    let tw = (sw - 20) / cols;
    let th = (sh - 48 - 20) / rows;
    let c = in_cell as i32 % cols;
    let r = in_cell as i32 / cols;
    (cell_col * sw + 10 + c * tw + 10, cell_row * sh + 10 + r * th + 10, tw - 20, th - 20)
}

#[test]
fn tiles_agree_with_float_layout() {
    for (sw, sh) in [(1920, 1080), (2560, 1440), (800, 600), (30, 70), (5, 5)] {
        for n in 1..60 {
            for i in 0..n {
                assert_eq!(tile_of(n, i, sw, sh), float_tile(n, i, sw, sh), "n={} i={} {}x{}", n, i, sw, sh);
            }
        }
    }
}

#[test]
fn tiles_do_not_overlap() {
    let (sw, sh) = (1920, 1080);
    for n in 1..40 {
        let tiles: Vec<_> = (0..n).map(|i| tile_of(n, i, sw, sh)).collect();
        for a in 0..n {
            for b in 0..n {
                if a == b {
                    continue;
                }
                let (x1, y1, w1, h1) = tiles[a];
                let (x2, y2, w2, h2) = tiles[b];
                assert!(w1 > 0 && h1 > 0 && w2 > 0 && h2 > 0);
                let overlap = x1 < x2 + w2 && x2 < x1 + w1 && y1 < y2 + h2 && y2 < y1 + h1;
                assert!(!overlap, "n={} tiles {} and {} overlap", n, a, b);
            }
        }
    }
}

#[test]
fn tiles_stay_inside_their_screen() {
    let (sw, sh) = (1920, 1080);
    for n in 1..40 {
        for i in 0..n {
            let (x, y, w, h) = tile_of(n, i, sw, sh);
            let col = x / sw;
            let row = y / sh;
            assert!(col < GRID_COLS && row < GRID_ROWS);
            assert!(x >= col * sw + 20 && x + w <= col * sw + sw - 20);
            assert!(y >= row * sh + 20 && y + h <= row * sh + sh - 48 - 20);
        }
    }
}
