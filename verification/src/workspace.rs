//! The workspace: the open windows of the desktop, spread over a grid of
//! screens and tiled there, with the clock that drives the viewport's glide.
//!
//! Window handles are carried as the integers that identify them; where a
//! window was before the workspace took it over is carried as plain values,
//! so that it can be put back.

use vstd::prelude::*;
use crate::text::{is_system_window, spec_is_system_window};
use crate::tiling::{
    GRID_COLS, GRID_ROWS, MAX_SCREEN_EXTENT, lemma_tile_size_in_range, lemma_tiles_disjoint, screen_fits, screen_in_range, tile, tile_of,
};

verus! {

/// Where a window stood before the workspace moved it: the placement record of
/// the window system, as plain values.
#[derive(Clone, Copy, Debug, PartialEq, Eq)]
pub struct SavedPlacement {
    pub flags: u32,
    pub show_cmd: u32,
    pub min_x: i32,
    pub min_y: i32,
    pub max_x: i32,
    pub max_y: i32,
    pub normal_left: i32,
    pub normal_top: i32,
    pub normal_right: i32,
    pub normal_bottom: i32,
}

/// A top-level window as the window system lists it.
#[derive(Clone, Debug)]
pub struct WindowInfo {
    pub hwnd: usize,
    pub title: String,
    pub class_name: String,
    pub placement: SavedPlacement,
}

/// A window of the workspace, with its tile on the canvas of screens.
#[derive(Clone, Debug)]
pub struct WsWindow {
    pub hwnd: usize,
    pub title: String,
    pub vx: i32,
    pub vy: i32,
    pub vw: i32,
    pub vh: i32,
    pub orig_placement: SavedPlacement,
}

/// The workspace. The viewport that glides over the canvas is kept by the
/// caller; the workspace keeps the windows and the clock of the glide.
#[derive(Debug)]
pub struct Workspace {
    pub active: bool,
    pub screen_w: i32,
    pub screen_h: i32,
    pub windows: Vec<WsWindow>,
    pub last_update_ms: i64,
}

/// A move of one workspace window to a place on the screen.
#[derive(Clone, Copy, Debug, PartialEq, Eq)]
pub struct Move {
    pub index: usize,
    pub hwnd: usize,
    pub x: i32,
    pub y: i32,
    pub w: i32,
    pub h: i32,
}

/// A window that the workspace takes over: not the canvas itself, and not a
/// window of the desktop shell.
pub open spec fn keeps(wi: WindowInfo, canvas_hwnd: usize) -> bool {
    wi.hwnd != canvas_hwnd && !spec_is_system_window(wi.class_name@)
}

/// The windows of `infos` that the workspace takes over, in their order.
pub open spec fn admitted(infos: Seq<WindowInfo>, canvas_hwnd: usize) -> Seq<WindowInfo>
    decreases infos.len(),
{
    if infos.len() == 0 {
        seq![]
    } else {
        let rest = admitted(infos.drop_last(), canvas_hwnd);
        if keeps(infos.last(), canvas_hwnd) {
            rest.push(infos.last())
        } else {
            rest
        }
    }
}

/// `w` holds the tile of the `k`-th of `n` windows.
pub open spec fn holds_tile(w: WsWindow, n: int, k: int, sw: int, sh: int) -> bool {
    &&& w.vx == tile(n, k, sw, sh).x
    &&& w.vy == tile(n, k, sw, sh).y
    &&& w.vw == tile(n, k, sw, sh).w
    &&& w.vh == tile(n, k, sw, sh).h
}

/// `w` is the workspace window made of `wi`.
pub open spec fn made_from(w: WsWindow, wi: WindowInfo) -> bool {
    &&& w.hwnd == wi.hwnd
    &&& w.title@ == wi.title@
    &&& w.orig_placement == wi.placement
}

/// `ws` are the windows of `infos`, in order, each on its tile of a canvas of
/// `sw` by `sh` screens.
pub open spec fn tiled(ws: Seq<WsWindow>, infos: Seq<WindowInfo>, sw: int, sh: int) -> bool {
    &&& ws.len() == infos.len()
    &&& forall|k: int|
        0 <= k < ws.len() ==> made_from(#[trigger] ws[k], infos[k]) && holds_tile(
            ws[k],
            ws.len() as int,
            k,
            sw,
            sh,
        )
}

/// A window whose size leaves its moves on the screen within `i32`.
pub open spec fn window_in_range(w: WsWindow) -> bool {
    &&& -2 * MAX_SCREEN_EXTENT <= w.vw <= 2 * MAX_SCREEN_EXTENT
    &&& -2 * MAX_SCREEN_EXTENT <= w.vh <= 2 * MAX_SCREEN_EXTENT
}

/// The larger of the screen's width and height: how far past the screen a
/// window may lie and still be moved along with the viewport.
pub open spec fn margin(sw: int, sh: int) -> int {
    if sw >= sh {
        sw
    } else {
        sh
    }
}

/// The window, seen from a viewport at `(view_x, view_y)`, lies on the screen
/// or within a margin of it.
pub open spec fn in_reach(w: WsWindow, sw: int, sh: int, view_x: int, view_y: int) -> bool {
    let m = margin(sw, sh);
    let x = w.vx - view_x;
    let y = w.vy - view_y;
    !(x + w.vw < -m || x > sw + m || y + w.vh < -m || y > sh + m)
}

/// The move that puts the `k`-th window where the viewport shows it.
pub open spec fn move_of(ws: Seq<WsWindow>, k: int, view_x: int, view_y: int) -> Move {
    Move {
        index: k as usize,
        hwnd: ws[k].hwnd,
        x: (ws[k].vx - view_x) as i32,
        y: (ws[k].vy - view_y) as i32,
        w: ws[k].vw,
        h: ws[k].vh,
    }
}

/// The moves for the windows in reach of the viewport, in window order.
pub open spec fn moves_of(ws: Seq<WsWindow>, sw: int, sh: int, view_x: int, view_y: int) -> Seq<
    Move,
>
    decreases ws.len(),
{
    if ws.len() == 0 {
        seq![]
    } else {
        let k = ws.len() - 1;
        let rest = moves_of(ws.drop_last(), sw, sh, view_x, view_y);
        if in_reach(ws[k], sw, sh, view_x, view_y) {
            rest.push(move_of(ws, k, view_x, view_y))
        } else {
            rest
        }
    }
}

impl Workspace {
    /// The workspace's screen size and windows keep every move within `i32`.
    pub open spec fn wf(&self) -> bool {
        &&& self.windows@.len() > 0 ==> screen_in_range(self.screen_w as int, self.screen_h as int)
        &&& forall|k: int| 0 <= k < self.windows@.len() ==> window_in_range(#[trigger] self.windows@[k])
    }

    /// Whether the workspace's screen size and windows keep every move within
    /// `i32`.
    pub fn in_range(&self) -> (b: bool)
        ensures
            b == self.wf(),
    {
        let mut i: usize = 0;
        while i < self.windows.len()
            invariant
                i <= self.windows@.len(),
                forall|k: int| 0 <= k < i ==> window_in_range(#[trigger] self.windows@[k]),
            decreases self.windows@.len() - i,
        {
            let w = &self.windows[i];
            if !(-2 * MAX_SCREEN_EXTENT <= w.vw && w.vw <= 2 * MAX_SCREEN_EXTENT && -2
                * MAX_SCREEN_EXTENT <= w.vh && w.vh <= 2 * MAX_SCREEN_EXTENT) {
                assert(!window_in_range(self.windows@[i as int]));
                return false;
            }
            i = i + 1;
        }
        self.windows.len() == 0 || screen_fits(self.screen_w, self.screen_h)
    }

    /// An inactive, empty workspace for screens of `screen_w` by `screen_h`.
    pub fn new(screen_w: i32, screen_h: i32) -> (ws: Self)
        ensures
            !ws.active,
            ws.screen_w == screen_w,
            ws.screen_h == screen_h,
            ws.windows@.len() == 0,
            ws.last_update_ms == 0,
    {
        Workspace { active: false, screen_w, screen_h, windows: Vec::new(), last_update_ms: 0 }
    }

    /// Puts every window on its tile: the windows are shared out over the
    /// grid of screens in order and tiled inside their screen.
    fn distribute_and_tile(&mut self)
        requires
            old(self).windows@.len() <= 0x7fff_ffff,
            old(self).windows@.len() > 0 ==> screen_in_range(
                old(self).screen_w as int,
                old(self).screen_h as int,
            ),
        ensures
            final(self).active == old(self).active,
            final(self).screen_w == old(self).screen_w,
            final(self).screen_h == old(self).screen_h,
            final(self).last_update_ms == old(self).last_update_ms,
            final(self).windows@.len() == old(self).windows@.len(),
            forall|k: int|
                0 <= k < final(self).windows@.len() ==> {
                    &&& (#[trigger] final(self).windows@[k]).hwnd == old(self).windows@[k].hwnd
                    &&& final(self).windows@[k].title == old(self).windows@[k].title
                    &&& final(self).windows@[k].orig_placement == old(self).windows@[k].orig_placement
                    &&& holds_tile(
                        final(self).windows@[k],
                        final(self).windows@.len() as int,
                        k,
                        final(self).screen_w as int,
                        final(self).screen_h as int,
                    )
                },
    {
        let count = self.windows.len();
        if count == 0 {
            return;
        }
        let mut i: usize = 0;
        while i < count
            invariant
                count == self.windows@.len(),
                count == old(self).windows@.len(),
                0 < count <= 0x7fff_ffff,
                i <= count,
                screen_in_range(self.screen_w as int, self.screen_h as int),
                self.active == old(self).active,
                self.screen_w == old(self).screen_w,
                self.screen_h == old(self).screen_h,
                self.last_update_ms == old(self).last_update_ms,
                forall|k: int|
                    0 <= k < count ==> {
                        &&& (#[trigger] self.windows@[k]).hwnd == old(self).windows@[k].hwnd
                        &&& self.windows@[k].title == old(self).windows@[k].title
                        &&& self.windows@[k].orig_placement == old(self).windows@[k].orig_placement
                    },
                forall|k: int|
                    0 <= k < i ==> holds_tile(
                        #[trigger] self.windows@[k],
                        count as int,
                        k,
                        self.screen_w as int,
                        self.screen_h as int,
                    ),
            decreases count - i,
        {
            let t = tile_of(count, i, self.screen_w, self.screen_h);
            self.windows[i].vx = t.0;
            self.windows[i].vy = t.1;
            self.windows[i].vw = t.2;
            self.windows[i].vh = t.3;
            i = i + 1;
        }
    }

    /// Takes over the listed windows: all but the canvas itself and the
    /// windows of the desktop shell, in their order, each on its tile. An
    /// active workspace is left as it is; the result says whether the call
    /// activated it.
    pub fn activate(&mut self, infos: &Vec<WindowInfo>, canvas_hwnd: usize, now_ms: i64) -> (activated:
        bool)
        requires
            infos@.len() <= 0x7fff_ffff,
            admitted(infos@, canvas_hwnd).len() > 0 ==> screen_in_range(
                old(self).screen_w as int,
                old(self).screen_h as int,
            ),
        ensures
            activated == !old(self).active,
            old(self).active ==> *final(self) == *old(self),
            !old(self).active ==> {
                &&& final(self).active
                &&& final(self).screen_w == old(self).screen_w
                &&& final(self).screen_h == old(self).screen_h
                &&& final(self).last_update_ms == now_ms
                &&& tiled(
                    final(self).windows@,
                    admitted(infos@, canvas_hwnd),
                    final(self).screen_w as int,
                    final(self).screen_h as int,
                )
                &&& final(self).wf()
            },
    {
        if self.active {
            return false;
        }
        self.active = true;
        self.last_update_ms = now_ms;
        self.windows = Vec::new();
        let mut i: usize = 0;
        while i < infos.len()
            invariant
                i <= infos@.len() <= 0x7fff_ffff,
                self.windows@.len() <= i,
                self.windows@.len() == admitted(infos@.take(i as int), canvas_hwnd).len(),
                forall|k: int|
                    0 <= k < self.windows@.len() ==> made_from(
                        #[trigger] self.windows@[k],
                        admitted(infos@.take(i as int), canvas_hwnd)[k],
                    ),
                self.active,
                self.screen_w == old(self).screen_w,
                self.screen_h == old(self).screen_h,
                self.last_update_ms == now_ms,
            decreases infos@.len() - i,
        {
            let wi = &infos[i];
            proof {
                assert(infos@.take(i + 1).drop_last() =~= infos@.take(i as int));
                assert(infos@.take(i + 1).last() == infos@[i as int]);
            }
            if wi.hwnd != canvas_hwnd && !is_system_window(wi.class_name.as_str()) {
                self.windows.push(
                    WsWindow {
                        hwnd: wi.hwnd,
                        title: wi.title.clone(),
                        vx: 0,
                        vy: 0,
                        vw: 0,
                        vh: 0,
                        orig_placement: wi.placement,
                    },
                );
            }
            i = i + 1;
        }
        assert(infos@.take(infos@.len() as int) =~= infos@);
        let ghost before = self.windows@;
        self.distribute_and_tile();
        proof {
            assert forall|k: int| 0 <= k < self.windows@.len() implies window_in_range(
                #[trigger] self.windows@[k],
            ) by {
                lemma_tile_size_in_range(
                    self.windows@.len() as int,
                    k,
                    self.screen_w as int,
                    self.screen_h as int,
                );
            }
            assert forall|k: int| 0 <= k < self.windows@.len() implies made_from(
                #[trigger] self.windows@[k],
                admitted(infos@, canvas_hwnd)[k],
            ) by {
                assert(made_from(before[k], admitted(infos@, canvas_hwnd)[k]));
            }
        }
        true
    }

    /// Gives the windows back: the workspace becomes inactive and empty, and
    /// the windows it held are returned so that each can be put back where it
    /// stood. An inactive workspace is left as it is and gives back nothing.
    pub fn deactivate(&mut self) -> (restored: Vec<WsWindow>)
        ensures
            old(self).active ==> {
                &&& !final(self).active
                &&& final(self).windows@.len() == 0
                &&& restored@ == old(self).windows@
                &&& final(self).screen_w == old(self).screen_w
                &&& final(self).screen_h == old(self).screen_h
                &&& final(self).last_update_ms == old(self).last_update_ms
            },
            !old(self).active ==> *final(self) == *old(self) && restored@.len() == 0,
    {
        if !self.active {
            return Vec::new();
        }
        self.active = false;
        let mut out: Vec<WsWindow> = Vec::new();
        std::mem::swap(&mut self.windows, &mut out);
        out
    }

    /// The moves that show the windows as seen from a viewport whose top-left
    /// corner is at `(view_x, view_y)` on the canvas: one for each window that
    /// lies on the screen or within a margin of it, in window order.
    pub fn apply_positions(&self, view_x: i32, view_y: i32) -> (moves: Vec<Move>)
        requires
            self.wf(),
        ensures
            moves@ == moves_of(
                self.windows@,
                self.screen_w as int,
                self.screen_h as int,
                view_x as int,
                view_y as int,
            ),
            forall|k: int|
                0 <= k < self.windows@.len() && meets_enlarged_screen(
                    #[trigger] self.windows@[k],
                    self.screen_w as int,
                    self.screen_h as int,
                    view_x as int,
                    view_y as int,
                ) ==> exists|t: int| 0 <= t < moves@.len() && (#[trigger] moves@[t]).index == k,
            forall|t: int|
                0 <= t < moves@.len() ==> {
                    let mv = #[trigger] moves@[t];
                    let w = self.windows@[mv.index as int];
                    &&& mv.index < self.windows@.len()
                    &&& meets_enlarged_screen(
                        w,
                        self.screen_w as int,
                        self.screen_h as int,
                        view_x as int,
                        view_y as int,
                    )
                    &&& mv.hwnd == w.hwnd
                    &&& mv.w == w.vw
                    &&& mv.h == w.vh
                    &&& mv.x == w.vx - view_x
                    &&& mv.y == w.vy - view_y
                },
    {
        let count = self.windows.len();
        proof {
            assert(self.windows@.len() == count);
            lemma_moves_reach_margin(
                self.windows@,
                self.screen_w,
                self.screen_h,
                view_x,
                view_y,
            );
        }
        let sw = self.screen_w as i64;
        let sh = self.screen_h as i64;
        let m: i64 = if self.screen_w >= self.screen_h {
            self.screen_w as i64
        } else {
            self.screen_h as i64
        };
        let mut moves: Vec<Move> = Vec::new();
        let mut i: usize = 0;
        while i < self.windows.len()
            invariant
                self.wf(),
                i <= self.windows@.len(),
                sw == self.screen_w,
                sh == self.screen_h,
                m == margin(sw as int, sh as int),
                moves@ == moves_of(
                    self.windows@.take(i as int),
                    self.screen_w as int,
                    self.screen_h as int,
                    view_x as int,
                    view_y as int,
                ),
            decreases self.windows@.len() - i,
        {
            let w = &self.windows[i];
            let ghost pre = self.windows@.take(i + 1);
            proof {
                assert(pre.drop_last() =~= self.windows@.take(i as int));
                assert(pre[i as int] == self.windows@[i as int]);
                assert(window_in_range(self.windows@[i as int]));
            }
            let x = w.vx as i64 - view_x as i64;
            let y = w.vy as i64 - view_y as i64;
            if !(x + (w.vw as i64) < -m || x > sw + m || y + (w.vh as i64) < -m || y > sh + m) {
                moves.push(
                    Move { index: i, hwnd: w.hwnd, x: x as i32, y: y as i32, w: w.vw, h: w.vh },
                );
            }
            i = i + 1;
        }
        assert(self.windows@.take(self.windows@.len() as int) =~= self.windows@);
        moves
    }

    /// Advances the glide's clock to `now_ms` and gives the time since the
    /// last advance, in milliseconds, at least one.
    pub fn tick(&mut self, now_ms: i64) -> (elapsed_ms: i64)
        requires
            i64::MIN <= now_ms - old(self).last_update_ms <= i64::MAX,
        ensures
            elapsed_ms == (if now_ms - old(self).last_update_ms >= 1 {
                now_ms - old(self).last_update_ms
            } else {
                1
            }),
            final(self).last_update_ms == now_ms,
            final(self).active == old(self).active,
            final(self).screen_w == old(self).screen_w,
            final(self).screen_h == old(self).screen_h,
            final(self).windows@ == old(self).windows@,
    {
        let d = now_ms - self.last_update_ms;
        self.last_update_ms = now_ms;
        if d >= 1 {
            d
        } else {
            1
        }
    }

    /// The farthest the viewport's top-left corner may go: the origin of the
    /// last column and of the last row of screens.
    pub fn target_limits(&self) -> (limits: (i32, i32))
        requires
            i32::MIN <= (GRID_COLS - 1) * self.screen_w <= i32::MAX,
            i32::MIN <= (GRID_ROWS - 1) * self.screen_h <= i32::MAX,
        ensures
            limits.0 == (GRID_COLS - 1) * self.screen_w,
            limits.1 == (GRID_ROWS - 1) * self.screen_h,
    {
        ((GRID_COLS - 1) * self.screen_w, (GRID_ROWS - 1) * self.screen_h)
    }
}

/// The cell of the grid of screens that holds the column `col` and row `row`,
/// the nearest one when they lie outside the grid.
pub fn clamp_cell(col: i32, row: i32) -> (cell: (i32, i32))
    ensures
        cell.0 == (if col < 0 {
            0
        } else if col > GRID_COLS - 1 {
            GRID_COLS - 1
        } else {
            col as int
        }),
        cell.1 == (if row < 0 {
            0
        } else if row > GRID_ROWS - 1 {
            GRID_ROWS - 1
        } else {
            row as int
        }),
{
    let c = if col < 0 {
        0
    } else if col > GRID_COLS - 1 {
        GRID_COLS - 1
    } else {
        col
    };
    let r = if row < 0 {
        0
    } else if row > GRID_ROWS - 1 {
        GRID_ROWS - 1
    } else {
        row
    };
    (c, r)
}


/// The workspace takes over exactly the windows it keeps: every window it
/// admits is one of the listed windows, neither the canvas nor a window of the
/// desktop shell, and every listed window that is neither is admitted.
pub proof fn lemma_admitted(infos: Seq<WindowInfo>, canvas_hwnd: usize)
    ensures
        admitted(infos, canvas_hwnd).len() <= infos.len(),
        forall|k: int|
            0 <= k < admitted(infos, canvas_hwnd).len() ==> keeps(
                #[trigger] admitted(infos, canvas_hwnd)[k],
                canvas_hwnd,
            ) && infos.contains(admitted(infos, canvas_hwnd)[k]),
        forall|j: int|
            0 <= j < infos.len() && keeps(#[trigger] infos[j], canvas_hwnd) ==> admitted(
                infos,
                canvas_hwnd,
            ).contains(infos[j]),
    decreases infos.len(),
{
    if infos.len() > 0 {
        let init = infos.drop_last();
        lemma_admitted(init, canvas_hwnd);
        let rest = admitted(init, canvas_hwnd);
        let a = admitted(infos, canvas_hwnd);
        assert forall|k: int| 0 <= k < a.len() implies keeps(#[trigger] a[k], canvas_hwnd)
            && infos.contains(a[k]) by {
            if k < rest.len() {
                assert(a[k] == rest[k]);
                let j = choose|j: int| 0 <= j < init.len() && init[j] == rest[k];
                assert(infos[j] == init[j]);
            } else {
                assert(a[k] == infos[infos.len() - 1]);
            }
        }
        assert forall|j: int| 0 <= j < infos.len() && keeps(#[trigger] infos[j], canvas_hwnd)
            implies a.contains(infos[j]) by {
            if j < init.len() {
                assert(init[j] == infos[j]);
                let k = choose|k: int| 0 <= k < rest.len() && rest[k] == init[j];
                assert(a[k] == rest[k]);
            } else {
                assert(a[a.len() - 1] == infos[j]);
            }
        }
    }
}

/// The moves are those of the windows in reach of the viewport, each keeping
/// its window's size and shifted by the viewport, in window order, and every
/// window in reach gets one.
pub proof fn lemma_moves(ws: Seq<WsWindow>, sw: int, sh: int, view_x: int, view_y: int)
    requires
        ws.len() <= usize::MAX,
    ensures
        moves_of(ws, sw, sh, view_x, view_y).len() <= ws.len(),
        forall|t: int|
            0 <= t < moves_of(ws, sw, sh, view_x, view_y).len() ==> {
                let mv = #[trigger] moves_of(ws, sw, sh, view_x, view_y)[t];
                &&& mv.index < ws.len()
                &&& in_reach(ws[mv.index as int], sw, sh, view_x, view_y)
                &&& mv == move_of(ws, mv.index as int, view_x, view_y)
            },
        forall|t1: int, t2: int|
            0 <= t1 < t2 < moves_of(ws, sw, sh, view_x, view_y).len() ==> (#[trigger] moves_of(
                ws,
                sw,
                sh,
                view_x,
                view_y,
            )[t1]).index < (#[trigger] moves_of(ws, sw, sh, view_x, view_y)[t2]).index,
        forall|k: int|
            0 <= k < ws.len() && in_reach(#[trigger] ws[k], sw, sh, view_x, view_y) ==> exists|
                t: int,
            |
                0 <= t < moves_of(ws, sw, sh, view_x, view_y).len() && (#[trigger] moves_of(
                    ws,
                    sw,
                    sh,
                    view_x,
                    view_y,
                )[t]).index == k,
    decreases ws.len(),
{
    if ws.len() > 0 {
        let init = ws.drop_last();
        let last = ws.len() - 1;
        lemma_moves(init, sw, sh, view_x, view_y);
        let rest = moves_of(init, sw, sh, view_x, view_y);
        let ms = moves_of(ws, sw, sh, view_x, view_y);
        assert forall|k: int| 0 <= k < init.len() implies move_of(init, k, view_x, view_y)
            == move_of(ws, k, view_x, view_y) && #[trigger] init[k] == ws[k] by {}
        assert forall|t: int| 0 <= t < ms.len() implies {
            let mv = #[trigger] ms[t];
            &&& mv.index < ws.len()
            &&& in_reach(ws[mv.index as int], sw, sh, view_x, view_y)
            &&& mv == move_of(ws, mv.index as int, view_x, view_y)
        } by {
            if t < rest.len() {
                assert(ms[t] == rest[t]);
                assert(init[rest[t].index as int] == ws[rest[t].index as int]);
            }
        }
        assert forall|t1: int, t2: int| 0 <= t1 < t2 < ms.len() implies (#[trigger] ms[t1]).index
            < (#[trigger] ms[t2]).index by {
            assert(ms[t1] == rest[t1]);
            if t2 < rest.len() {
                assert(ms[t2] == rest[t2]);
            }
        }
        assert forall|k: int| 0 <= k < ws.len() && in_reach(#[trigger] ws[k], sw, sh, view_x, view_y)
            implies exists|t: int| 0 <= t < ms.len() && (#[trigger] ms[t]).index == k by {
            if k < last {
                assert(init[k] == ws[k]);
                let t = choose|t: int| 0 <= t < rest.len() && (#[trigger] rest[t]).index == k;
                assert(ms[t] == rest[t]);
            } else {
                assert(ms[ms.len() - 1].index == k);
            }
        }
    }
}

/// The tiles of the workspace's windows do not overlap: two distinct windows
/// that have an area share no point of the canvas.
pub proof fn lemma_workspace_tiles_disjoint(
    ws: Seq<WsWindow>,
    infos: Seq<WindowInfo>,
    sw: int,
    sh: int,
    i: int,
    j: int,
)
    requires
        tiled(ws, infos, sw, sh),
        0 <= i < ws.len(),
        0 <= j < ws.len(),
        i != j,
        ws[i].vw > 0 && ws[i].vh > 0,
        ws[j].vw > 0 && ws[j].vh > 0,
    ensures
        !(ws[i].vx < ws[j].vx + ws[j].vw && ws[j].vx < ws[i].vx + ws[i].vw && ws[i].vy < ws[j].vy
            + ws[j].vh && ws[j].vy < ws[i].vy + ws[i].vh),
{
    assert(holds_tile(ws[i], ws.len() as int, i, sw, sh));
    assert(holds_tile(ws[j], ws.len() as int, j, sw, sh));
    lemma_tiles_disjoint(ws.len() as int, i, j, sw, sh);
}


/// What deactivation gives back is what activation took: after an activation
/// that tiled the admitted windows, the windows handed back on deactivation
/// are those windows, in order, each with the placement it had before.
pub proof fn lemma_restores_saved_placements(
    taken: Seq<WsWindow>,
    restored: Seq<WsWindow>,
    infos: Seq<WindowInfo>,
    canvas_hwnd: usize,
    sw: int,
    sh: int,
)
    requires
        tiled(taken, admitted(infos, canvas_hwnd), sw, sh),
        restored == taken,
    ensures
        restored.len() == admitted(infos, canvas_hwnd).len(),
        forall|k: int|
            0 <= k < restored.len() ==> (#[trigger] restored[k]).hwnd == admitted(
                infos,
                canvas_hwnd,
            )[k].hwnd && restored[k].orig_placement == admitted(infos, canvas_hwnd)[k].placement,
{
    assert forall|k: int| 0 <= k < restored.len() implies (#[trigger] restored[k]).hwnd
        == admitted(infos, canvas_hwnd)[k].hwnd && restored[k].orig_placement == admitted(
        infos,
        canvas_hwnd,
    )[k].placement by {
        assert(made_from(taken[k], admitted(infos, canvas_hwnd)[k]));
    }
}


/// The workspace takes over every listed window except the canvas and the
/// windows of the four desktop-shell classes (the taskbars, the program
/// manager and the desktop worker): a window of any other class whose handle
/// is not the canvas's is admitted, and nothing else is.
pub proof fn lemma_admits_all_but_canvas_and_shell(infos: Seq<WindowInfo>, canvas_hwnd: usize)
    ensures
        forall|j: int|
            0 <= j < infos.len() && (#[trigger] infos[j]).hwnd != canvas_hwnd
                && infos[j].class_name@ != "Shell_TrayWnd"@ && infos[j].class_name@
                != "Shell_SecondaryTrayWnd"@ && infos[j].class_name@ != "Progman"@
                && infos[j].class_name@ != "WorkerW"@ ==> admitted(infos, canvas_hwnd).contains(
                infos[j],
            ),
        forall|k: int|
            0 <= k < admitted(infos, canvas_hwnd).len() ==> {
                let a = #[trigger] admitted(infos, canvas_hwnd)[k];
                &&& infos.contains(a)
                &&& a.hwnd != canvas_hwnd
                &&& a.class_name@ != "Shell_TrayWnd"@
                &&& a.class_name@ != "Shell_SecondaryTrayWnd"@
                &&& a.class_name@ != "Progman"@
                &&& a.class_name@ != "WorkerW"@
            },
{
    lemma_admitted(infos, canvas_hwnd);
    assert forall|j: int|
        0 <= j < infos.len() && (#[trigger] infos[j]).hwnd != canvas_hwnd
            && infos[j].class_name@ != "Shell_TrayWnd"@ && infos[j].class_name@
            != "Shell_SecondaryTrayWnd"@ && infos[j].class_name@ != "Progman"@
            && infos[j].class_name@ != "WorkerW"@ implies admitted(infos, canvas_hwnd).contains(
        infos[j],
    ) by {
        assert(keeps(infos[j], canvas_hwnd));
    }
    assert forall|k: int| 0 <= k < admitted(infos, canvas_hwnd).len() implies {
        let a = #[trigger] admitted(infos, canvas_hwnd)[k];
        &&& infos.contains(a)
        &&& a.hwnd != canvas_hwnd
        &&& a.class_name@ != "Shell_TrayWnd"@
        &&& a.class_name@ != "Shell_SecondaryTrayWnd"@
        &&& a.class_name@ != "Progman"@
        &&& a.class_name@ != "WorkerW"@
    } by {
        assert(keeps(admitted(infos, canvas_hwnd)[k], canvas_hwnd));
    }
}

/// The window's rectangle, shifted by the viewport, meets the screen enlarged
/// by the larger of its width and height on every side.
pub open spec fn meets_enlarged_screen(
    w: WsWindow,
    sw: int,
    sh: int,
    view_x: int,
    view_y: int,
) -> bool {
    let m = if sw >= sh {
        sw
    } else {
        sh
    };
    let x = w.vx - view_x;
    let y = w.vy - view_y;
    &&& x + w.vw >= -m
    &&& x <= sw + m
    &&& y + w.vh >= -m
    &&& y <= sh + m
}

/// A window gets a move exactly when its rectangle, shifted by the viewport,
/// meets the screen enlarged by the margin `max(sw, sh)` on each side; the
/// move keeps the window's size and puts its corner at the window's place on
/// the canvas less the viewport's corner.
pub proof fn lemma_moves_reach_margin(
    ws: Seq<WsWindow>,
    sw: i32,
    sh: i32,
    view_x: i32,
    view_y: i32,
)
    requires
        ws.len() <= usize::MAX,
        ws.len() > 0 ==> screen_in_range(sw as int, sh as int),
        forall|k: int| 0 <= k < ws.len() ==> window_in_range(#[trigger] ws[k]),
    ensures
        forall|k: int|
            0 <= k < ws.len() && (#[trigger] ws[k]).vx - view_x + ws[k].vw >= -(if sw >= sh {
                sw as int
            } else {
                sh as int
            }) && ws[k].vx - view_x <= sw + (if sw >= sh {
                sw as int
            } else {
                sh as int
            }) && ws[k].vy - view_y + ws[k].vh >= -(if sw >= sh {
                sw as int
            } else {
                sh as int
            }) && ws[k].vy - view_y <= sh + (if sw >= sh {
                sw as int
            } else {
                sh as int
            }) ==> exists|t: int|
                0 <= t < moves_of(ws, sw as int, sh as int, view_x as int, view_y as int).len()
                    && (#[trigger] moves_of(
                    ws,
                    sw as int,
                    sh as int,
                    view_x as int,
                    view_y as int,
                )[t]).index == k,
        forall|t: int|
            0 <= t < moves_of(ws, sw as int, sh as int, view_x as int, view_y as int).len() ==> {
                let mv = #[trigger] moves_of(
                    ws,
                    sw as int,
                    sh as int,
                    view_x as int,
                    view_y as int,
                )[t];
                let w = ws[mv.index as int];
                &&& mv.index < ws.len()
                &&& meets_enlarged_screen(w, sw as int, sh as int, view_x as int, view_y as int)
                &&& mv.hwnd == w.hwnd
                &&& mv.w == w.vw
                &&& mv.h == w.vh
                &&& mv.x == w.vx - view_x
                &&& mv.y == w.vy - view_y
            },
{
    lemma_moves(ws, sw as int, sh as int, view_x as int, view_y as int);
    let ms = moves_of(ws, sw as int, sh as int, view_x as int, view_y as int);
    assert forall|k: int|
        0 <= k < ws.len() && meets_enlarged_screen(
            #[trigger] ws[k],
            sw as int,
            sh as int,
            view_x as int,
            view_y as int,
        ) implies in_reach(ws[k], sw as int, sh as int, view_x as int, view_y as int) by {}
    assert forall|t: int| 0 <= t < ms.len() implies {
        let mv = #[trigger] ms[t];
        let w = ws[mv.index as int];
        &&& mv.index < ws.len()
        &&& meets_enlarged_screen(w, sw as int, sh as int, view_x as int, view_y as int)
        &&& mv.hwnd == w.hwnd
        &&& mv.w == w.vw
        &&& mv.h == w.vh
        &&& mv.x == w.vx - view_x
        &&& mv.y == w.vy - view_y
    } by {
        let k = ms[t].index as int;
        assert(window_in_range(ws[k]));
        assert(in_reach(ws[k], sw as int, sh as int, view_x as int, view_y as int));
    }
}


/// The admitted windows are the listed windows, in their order, with the
/// canvas and the four desktop-shell classes filtered out.
pub proof fn lemma_admitted_is_filter(infos: Seq<WindowInfo>, canvas_hwnd: usize)
    ensures
        admitted(infos, canvas_hwnd) == infos.filter(
            |wi: WindowInfo|
                wi.hwnd != canvas_hwnd && wi.class_name@ != "Shell_TrayWnd"@ && wi.class_name@
                    != "Shell_SecondaryTrayWnd"@ && wi.class_name@ != "Progman"@
                    && wi.class_name@ != "WorkerW"@,
        ),
    decreases infos.len(),
{
    let pred = |wi: WindowInfo|
        wi.hwnd != canvas_hwnd && wi.class_name@ != "Shell_TrayWnd"@ && wi.class_name@
            != "Shell_SecondaryTrayWnd"@ && wi.class_name@ != "Progman"@ && wi.class_name@
            != "WorkerW"@;
    reveal_with_fuel(Seq::<WindowInfo>::filter, 1);
    if infos.len() > 0 {
        lemma_admitted_is_filter(infos.drop_last(), canvas_hwnd);
        assert(pred(infos.last()) == keeps(infos.last(), canvas_hwnd));
    }
}

} // verus!
