use win_canvas::overlay::{
    hud_origin, release_target, thumbnail_action, Overlay, ScreenRect, ThumbnailAction, ANIM_STEPS,
};

#[test]
fn new_overlay_is_hidden() {
    let o = Overlay::new();
    assert!(!o.is_visible());
    assert!(!o.anim_active());
    assert_eq!(o.anim_step(), 0);
}

#[test]
fn toggle_shows_then_closes() {
    let mut o = Overlay::new();
    assert!(o.toggle());
    assert!(o.is_visible());
    assert!(o.anim_active());
    assert!(!o.toggle());
    assert!(!o.is_visible());
    assert!(!o.anim_active());
}

#[test]
fn toggling_twice_restores_visibility() {
    let mut o = Overlay::new();
    o.show();
    o.toggle();
    o.toggle();
    assert!(o.is_visible());
}

#[test]
fn fade_in_runs_for_its_steps() {
    let mut o = Overlay::new();
    o.show();
    for k in 1..ANIM_STEPS {
        assert!(!o.tick_animation());
        assert_eq!(o.anim_step(), k);
        assert!(o.anim_active());
    }
    assert!(o.tick_animation());
    assert_eq!(o.anim_step(), ANIM_STEPS);
    assert!(!o.anim_active());
    assert!(o.is_visible());
}

#[test]
fn showing_again_restarts_the_fade() {
    let mut o = Overlay::new();
    o.show();
    o.tick_animation();
    o.tick_animation();
    o.close();
    o.show();
    assert_eq!(o.anim_step(), 0);
    assert!(o.anim_active());
}

#[test]
fn thumbnails_on_and_off_screen() {
    let on = ScreenRect { left: 10, top: 10, right: 200, bottom: 200 };
    let off = ScreenRect { left: 1920, top: 10, right: 2100, bottom: 200 };
    let above = ScreenRect { left: 10, top: -300, right: 200, bottom: 0 };
    assert_eq!(thumbnail_action(0, 1, on, 1920, 1080), ThumbnailAction::Show);
    assert_eq!(thumbnail_action(0, 1, off, 1920, 1080), ThumbnailAction::Hide);
    assert_eq!(thumbnail_action(0, 1, above, 1920, 1080), ThumbnailAction::Hide);
    assert_eq!(thumbnail_action(1, 1, on, 1920, 1080), ThumbnailAction::Skip);
}

#[test]
fn release_switches_only_on_a_plain_click() {
    let thumbs = vec![2usize, 0, 7];
    assert_eq!(release_target(false, Some(0), &thumbs, 3), Some(2));
    assert_eq!(release_target(false, Some(1), &thumbs, 3), Some(0));
    assert_eq!(release_target(true, Some(0), &thumbs, 3), None);
    assert_eq!(release_target(false, None, &thumbs, 3), None);
    assert_eq!(release_target(false, Some(3), &thumbs, 3), None);
    assert_eq!(release_target(false, Some(2), &thumbs, 3), None);
}

#[test]
fn hud_sits_in_bottom_right_corner() {
    assert_eq!(hud_origin(1920, 1080), (1920 - 120 - 20, 1080 - 120 - 60));
}
