use win_canvas::tiling::tile_of;
use win_canvas::workspace::{clamp_cell, Move, SavedPlacement, WindowInfo, Workspace};

fn placement(n: i32) -> SavedPlacement {
    SavedPlacement {
        flags: 0,
        show_cmd: 1,
        min_x: -1,
        min_y: -1,
        max_x: -1,
        max_y: -1,
        normal_left: n,
        normal_top: n,
        normal_right: n + 100,
        normal_bottom: n + 100,
    }
}

fn info(hwnd: usize, title: &str, class: &str) -> WindowInfo {
    WindowInfo {
        hwnd,
        title: title.to_string(),
        class_name: class.to_string(),
        placement: placement(hwnd as i32),
    }
}

fn sample_infos() -> Vec<WindowInfo> {
    vec![
        info(1, "Editor", "Notepad"),
        info(2, "", "Shell_TrayWnd"),
        info(99, "Win Canvas", "WinCanvasClass"),
        info(3, "Browser", "Chrome_WidgetWin_1"),
        info(4, "", "Progman"),
        info(5, "Terminal", "ConsoleWindowClass"),
        info(6, "", "WorkerW"),
        info(7, "", "Shell_SecondaryTrayWnd"),
    ]
}

#[test]
fn new_workspace_is_inactive_and_empty() {
    let ws = Workspace::new(1920, 1080);
    assert!(!ws.active);
    assert_eq!(ws.screen_w, 1920);
    assert_eq!(ws.screen_h, 1080);
    assert!(ws.windows.is_empty());
    assert_eq!(ws.last_update_ms, 0);
}

#[test]
fn activate_keeps_ordinary_windows_in_order_and_tiles_them() {
    let mut ws = Workspace::new(1920, 1080);
    assert!(ws.activate(&sample_infos(), 99, 5000));
    assert!(ws.active);
    assert_eq!(ws.last_update_ms, 5000);
    let hwnds: Vec<usize> = ws.windows.iter().map(|w| w.hwnd).collect();
    assert_eq!(hwnds, vec![1, 3, 5]);
    let titles: Vec<&str> = ws.windows.iter().map(|w| w.title.as_str()).collect();
    assert_eq!(titles, vec!["Editor", "Browser", "Terminal"]);
    for (k, w) in ws.windows.iter().enumerate() {
        assert_eq!((w.vx, w.vy, w.vw, w.vh), tile_of(3, k, 1920, 1080));
        assert_eq!(w.orig_placement, placement(w.hwnd as i32));
    }
    // One window per screen: the first three screens of the top row.
    assert_eq!((ws.windows[1].vx, ws.windows[1].vy), (1920 + 20, 20));
    assert_eq!((ws.windows[2].vx, ws.windows[2].vy), (2 * 1920 + 20, 20));
}

#[test]
fn activate_on_active_workspace_changes_nothing() {
    let mut ws = Workspace::new(1920, 1080);
    assert!(ws.activate(&sample_infos(), 99, 5000));
    assert!(!ws.activate(&vec![info(42, "Other", "Other")], 0, 9000));
    assert_eq!(ws.windows.len(), 3);
    assert_eq!(ws.last_update_ms, 5000);
}

#[test]
fn activate_with_only_shell_windows_is_empty() {
    let mut ws = Workspace::new(1920, 1080);
    assert!(ws.activate(&vec![info(2, "", "Progman"), info(8, "", "WorkerW")], 99, 1));
    assert!(ws.active);
    assert!(ws.windows.is_empty());
}

#[test]
fn deactivate_gives_back_what_activate_took() {
    let mut ws = Workspace::new(1920, 1080);
    ws.activate(&sample_infos(), 99, 5000);
    let restored = ws.deactivate();
    assert!(!ws.active);
    assert!(ws.windows.is_empty());
    let back: Vec<(usize, SavedPlacement)> =
        restored.iter().map(|w| (w.hwnd, w.orig_placement)).collect();
    assert_eq!(back, vec![(1, placement(1)), (3, placement(3)), (5, placement(5))]);
}

#[test]
fn deactivate_on_inactive_workspace_gives_back_nothing() {
    let mut ws = Workspace::new(1920, 1080);
    assert!(ws.deactivate().is_empty());
    assert!(!ws.active);
}

#[test]
fn apply_positions_moves_only_windows_in_reach() {
    let mut ws = Workspace::new(1920, 1080);
    let infos: Vec<WindowInfo> = (1..=9).map(|k| info(k, "w", "App")).collect();
    ws.activate(&infos, 0, 0);
    // Viewport on the top-left screen: the margin is 1920, so screens of the
    // first two columns of the first two rows are in reach, the third column
    // (x = 3840 + 20 > 1920 + 1920) and third row (y = 2160 + 20 > 1080 + 1920)
    // are only in reach when close enough.
    let moves = ws.apply_positions(0, 0);
    let idx: Vec<usize> = moves.iter().map(|m| m.index).collect();
    assert_eq!(idx, vec![0, 1, 3, 4, 6, 7]);
    assert_eq!(
        moves[1],
        Move { index: 1, hwnd: 2, x: 1920 + 20, y: 20, w: 1880, h: 992 }
    );
}

#[test]
fn apply_positions_shifts_by_the_viewport() {
    let mut ws = Workspace::new(1920, 1080);
    let infos: Vec<WindowInfo> = (1..=9).map(|k| info(k, "w", "App")).collect();
    ws.activate(&infos, 0, 0);
    let moves = ws.apply_positions(1920, 1080);
    assert_eq!(moves.len(), 9);
    let centre = moves.iter().find(|m| m.index == 4).unwrap();
    assert_eq!((centre.x, centre.y, centre.w, centre.h), (20, 20, 1880, 992));
    let first = moves.iter().find(|m| m.index == 0).unwrap();
    assert_eq!((first.x, first.y), (20 - 1920, 20 - 1080));
}

#[test]
fn apply_positions_on_empty_workspace_is_empty() {
    let ws = Workspace::new(1920, 1080);
    assert!(ws.apply_positions(0, 0).is_empty());
}

#[test]
fn tick_reports_elapsed_time_at_least_one() {
    let mut ws = Workspace::new(1920, 1080);
    ws.last_update_ms = 1000;
    assert_eq!(ws.tick(1016), 16);
    assert_eq!(ws.last_update_ms, 1016);
    assert_eq!(ws.tick(1016), 1);
    assert_eq!(ws.tick(900), 1);
    assert_eq!(ws.last_update_ms, 900);
}

#[test]
fn target_limits_are_last_row_and_column_origins() {
    let ws = Workspace::new(1920, 1080);
    assert_eq!(ws.target_limits(), (3840, 2160));
}

#[test]
fn clamp_cell_keeps_cells_in_the_grid() {
    assert_eq!(clamp_cell(1, 2), (1, 2));
    assert_eq!(clamp_cell(-1, 5), (0, 2));
    assert_eq!(clamp_cell(3, -7), (2, 0));
}
