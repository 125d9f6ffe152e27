//! The decisions of the canvas overlay: whether it is shown, the steps of its
//! fade-in, which thumbnails to refresh, and which window a click switches to.

use vstd::prelude::*;

verus! {

/// Identifier of the timer that drives the fade-in.
pub const TIMER_FADE_IN: usize = 1;

/// Milliseconds between two steps of the fade-in.
pub const ANIM_INTERVAL_MS: u32 = 16;

/// Number of steps of the fade-in.
pub const ANIM_STEPS: u32 = 18;

/// Opacity the overlay fades in to.
pub const TARGET_ALPHA: u8 = 240;

/// Width and height of the heads-up display, in pixels.
pub const HUD_SIZE: i32 = 120;

/// Gap between the heads-up display and the right edge of the screen.
pub const HUD_RIGHT_GAP: i32 = 20;

/// Gap between the heads-up display and the bottom edge of the screen.
pub const HUD_BOTTOM_GAP: i32 = 60;

/// What the overlay's decisions depend on.
pub struct OverlayState {
    pub visible: bool,
    pub anim_step: nat,
    pub anim_active: bool,
}

/// The overlay: whether it is shown, and how far its fade-in has come.
pub struct Overlay {
    visible: bool,
    anim_step: u32,
    anim_active: bool,
}

/// The overlay after it is shown: visible, with its fade-in started afresh.
pub open spec fn spec_show(s: OverlayState) -> OverlayState {
    OverlayState { visible: true, anim_step: 0, anim_active: true }
}

/// The overlay after it is closed: not visible, with no fade-in running.
pub open spec fn spec_close(s: OverlayState) -> OverlayState {
    OverlayState { visible: false, anim_step: s.anim_step, anim_active: false }
}

/// The overlay after the toggle: hidden when it was shown, shown otherwise.
pub open spec fn spec_toggle(s: OverlayState) -> OverlayState {
    if s.visible {
        spec_close(s)
    } else {
        spec_show(s)
    }
}

/// The overlay after one step of the fade-in: the step advances, and the
/// fade-in ends when it reaches its last step.
pub open spec fn spec_tick(s: OverlayState) -> OverlayState {
    let next = s.anim_step + 1;
    if next >= ANIM_STEPS {
        OverlayState { visible: s.visible, anim_step: ANIM_STEPS as nat, anim_active: false }
    } else {
        OverlayState { visible: s.visible, anim_step: next, anim_active: s.anim_active }
    }
}

/// The overlay after `k` steps of the fade-in.
pub open spec fn spec_ticks(s: OverlayState, k: nat) -> OverlayState
    decreases k,
{
    if k == 0 {
        s
    } else {
        spec_tick(spec_ticks(s, (k - 1) as nat))
    }
}

impl View for Overlay {
    type V = OverlayState;

    closed spec fn view(&self) -> OverlayState {
        OverlayState {
            visible: self.visible,
            anim_step: self.anim_step as nat,
            anim_active: self.anim_active,
        }
    }
}

impl Overlay {
    #[verifier::type_invariant]
    spec fn step_in_range(&self) -> bool {
        self.anim_step <= ANIM_STEPS
    }

    /// A hidden overlay with no fade-in.
    pub fn new() -> (o: Self)
        ensures
            o@ == (OverlayState { visible: false, anim_step: 0, anim_active: false }),
    {
        Overlay { visible: false, anim_step: 0, anim_active: false }
    }

    /// Whether the overlay is shown.
    pub fn is_visible(&self) -> (b: bool)
        ensures
            b == self@.visible,
    {
        self.visible
    }

    /// How many steps of the fade-in have passed.
    pub fn anim_step(&self) -> (n: u32)
        ensures
            n == self@.anim_step,
            n <= ANIM_STEPS,
    {
        proof {
            use_type_invariant(self);
        }
        self.anim_step
    }

    /// Whether the fade-in is running.
    pub fn anim_active(&self) -> (b: bool)
        ensures
            b == self@.anim_active,
    {
        self.anim_active
    }

    /// Shows the overlay and starts its fade-in.
    pub fn show(&mut self)
        ensures
            final(self)@ == spec_show(old(self)@),
    {
        proof {
            use_type_invariant(&*self);
        }
        self.visible = true;
        self.anim_step = 0;
        self.anim_active = true;
    }

    /// Closes the overlay and stops its fade-in.
    pub fn close(&mut self)
        ensures
            final(self)@ == spec_close(old(self)@),
    {
        proof {
            use_type_invariant(&*self);
        }
        self.visible = false;
        self.anim_active = false;
    }

    /// Hides a shown overlay and shows a hidden one; says whether it is now
    /// shown.
    pub fn toggle(&mut self) -> (shown: bool)
        ensures
            final(self)@ == spec_toggle(old(self)@),
            shown == !old(self)@.visible,
            final(self)@.visible == !old(self)@.visible,
            old(self)@.visible ==> !final(self)@.anim_active,
            !old(self)@.visible ==> final(self)@.anim_active && final(self)@.anim_step == 0,
    {
        if self.visible {
            self.close();
            false
        } else {
            self.show();
            true
        }
    }

    /// One step of the fade-in; says whether the fade-in has just ended, so
    /// that its timer can be stopped.
    pub fn tick_animation(&mut self) -> (finished: bool)
        ensures
            final(self)@ == spec_tick(old(self)@),
            finished == (old(self)@.anim_step + 1 >= ANIM_STEPS),
    {
        proof {
            use_type_invariant(&*self);
        }
        let next = self.anim_step + 1;
        if next >= ANIM_STEPS {
            self.anim_step = ANIM_STEPS;
            self.anim_active = false;
            true
        } else {
            self.anim_step = next;
            false
        }
    }
}

/// Toggling flips whether the overlay is shown, whatever the state of its
/// fade-in: a shown overlay is hidden with its fade-in stopped, a hidden one
/// is shown with its fade-in started from the first step.
pub proof fn lemma_toggle_flips(s: OverlayState)
    ensures
        spec_toggle(s).visible == !s.visible,
        s.visible ==> !spec_toggle(s).anim_active,
        !s.visible ==> spec_toggle(s).anim_active && spec_toggle(s).anim_step == 0,
{
}

/// Closing hides the overlay and stops its fade-in, from any state; showing
/// makes it visible with its fade-in started afresh, from any state.
pub proof fn lemma_close_and_show(s: OverlayState)
    ensures
        !spec_close(s).visible && !spec_close(s).anim_active,
        spec_show(s).visible && spec_show(s).anim_active && spec_show(s).anim_step == 0,
{
}

/// The pixel at `(px, py)` lies both on the screen and in the rectangle.
pub open spec fn pixel_of_both(r: ScreenRect, px: int, py: int, screen_w: int, screen_h: int) -> bool {
    &&& 0 <= px < screen_w
    &&& 0 <= py < screen_h
    &&& r.left <= px < r.right
    &&& r.top <= py < r.bottom
}

/// A thumbnail rectangle, non-empty, is on the screen exactly when it shares
/// a pixel with the screen: rectangles partly past an edge count as on the
/// screen, and only those wholly outside it do not.
pub proof fn lemma_on_screen_shares_a_pixel(r: ScreenRect, screen_w: int, screen_h: int)
    requires
        r.left < r.right,
        r.top < r.bottom,
        screen_w > 0,
        screen_h > 0,
    ensures
        on_screen(r, screen_w, screen_h) <==> exists|px: int, py: int|
            #[trigger] pixel_of_both(r, px, py, screen_w, screen_h),
{
    if r.right > 0 && r.bottom > 0 && r.left < screen_w && r.top < screen_h {
        let px: int = if r.left >= 0 { r.left as int } else { 0 };
        let py: int = if r.top >= 0 { r.top as int } else { 0 };
        assert(pixel_of_both(r, px, py, screen_w, screen_h));
    }
}

/// Toggling twice leaves the overlay shown or hidden as it was.
pub proof fn lemma_toggle_twice(s: OverlayState)
    ensures
        spec_toggle(spec_toggle(s)).visible == s.visible,
{
}

/// Once shown, the overlay fades in for `ANIM_STEPS` steps: the fade-in runs
/// through every step before the last and has ended at the last, and the
/// overlay stays shown throughout.
pub proof fn lemma_fade_in_completes(s: OverlayState, k: nat)
    requires
        k <= ANIM_STEPS,
    ensures
        spec_ticks(spec_show(s), k).visible,
        spec_ticks(spec_show(s), k).anim_step == k,
        spec_ticks(spec_show(s), k).anim_active == (k < ANIM_STEPS),
    decreases k,
{
    if k > 0 {
        lemma_fade_in_completes(s, (k - 1) as nat);
    }
}

/// A rectangle on the screen, by its edges.
#[derive(Clone, Copy, Debug, PartialEq, Eq)]
pub struct ScreenRect {
    pub left: i32,
    pub top: i32,
    pub right: i32,
    pub bottom: i32,
}

/// What to do with a window's thumbnail when the canvas is redrawn.
#[derive(Clone, Copy, Debug, PartialEq, Eq)]
pub enum ThumbnailAction {
    /// The window has no thumbnail: nothing to do.
    Skip,
    /// The thumbnail is on the screen: show it at its place.
    Show,
    /// The thumbnail is off the screen: hide it.
    Hide,
}

/// The rectangle reaches into the screen of `screen_w` by `screen_h`.
pub open spec fn on_screen(r: ScreenRect, screen_w: int, screen_h: int) -> bool {
    r.right > 0 && r.bottom > 0 && r.left < screen_w && r.top < screen_h
}

/// What to do with the thumbnail `thumb_index`, of `thumb_count` registered
/// thumbnails, whose place on the screen is `rect`.
pub fn thumbnail_action(
    thumb_index: usize,
    thumb_count: usize,
    rect: ScreenRect,
    screen_w: i32,
    screen_h: i32,
) -> (action: ThumbnailAction)
    ensures
        thumb_index >= thumb_count ==> action == ThumbnailAction::Skip,
        thumb_index < thumb_count && on_screen(rect, screen_w as int, screen_h as int) ==> action
            == ThumbnailAction::Show,
        thumb_index < thumb_count && !on_screen(rect, screen_w as int, screen_h as int) ==> action
            == ThumbnailAction::Hide,
        thumb_index < thumb_count ==> (action == ThumbnailAction::Show <==> (rect.right > 0
            && rect.bottom > 0 && rect.left < screen_w && rect.top < screen_h)),
        thumb_index < thumb_count ==> (action == ThumbnailAction::Show || action
            == ThumbnailAction::Hide),
{
    if thumb_index >= thumb_count {
        ThumbnailAction::Skip
    } else if rect.right > 0 && rect.bottom > 0 && rect.left < screen_w && rect.top < screen_h {
        ThumbnailAction::Show
    } else {
        ThumbnailAction::Hide
    }
}

/// The thumbnail to switch to when the left button is released: the one of
/// the window that was clicked, when the press did not turn into a drag and
/// the clicked window and its thumbnail still exist.
pub fn release_target(
    drag_moved: bool,
    click_target: Option<usize>,
    thumb_of_window: &Vec<usize>,
    thumb_count: usize,
) -> (target: Option<usize>)
    ensures
        target == (match click_target {
            Some(idx) => if !drag_moved && idx < thumb_of_window@.len() && thumb_of_window@[idx as int]
                < thumb_count {
                Some(thumb_of_window@[idx as int])
            } else {
                None
            },
            None => None,
        }),
{
    if drag_moved {
        return None;
    }
    match click_target {
        Some(idx) => {
            if idx < thumb_of_window.len() {
                let ti = thumb_of_window[idx];
                if ti < thumb_count {
                    return Some(ti);
                }
            }
            None
        },
        None => None,
    }
}

/// The top-left corner of the heads-up display: in the bottom-right corner
/// of the screen, clear of the taskbar.
pub fn hud_origin(screen_w: i32, screen_h: i32) -> (origin: (i32, i32))
    requires
        screen_w - HUD_SIZE - HUD_RIGHT_GAP >= i32::MIN,
        screen_h - HUD_SIZE - HUD_BOTTOM_GAP >= i32::MIN,
    ensures
        origin.0 == screen_w - HUD_SIZE - HUD_RIGHT_GAP,
        origin.1 == screen_h - HUD_SIZE - HUD_BOTTOM_GAP,
{
    (screen_w - HUD_SIZE - HUD_RIGHT_GAP, screen_h - HUD_SIZE - HUD_BOTTOM_GAP)
}

} // verus!
