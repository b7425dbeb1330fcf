//! Where the strip stands, how lengths scale, and when the strip is shown.

use bt_battery_bar::draw::overflow_text;
use bt_battery_bar::layout::{
    Foreground, GAP_TRAY, LEFT_INSET, MIN_STRIP_HEIGHT, MIN_STRIP_WIDTH, Metrics, Point, Rect,
    StripPlace, StripVisibility, Surroundings, TASKBAR_RESERVE, desired_placement,
    floating_placement, font_heights, is_fullscreen_app_active, max_strip_width, rect_offset_by,
    should_schedule_rebuild_after_destroy, strip_placement_in_taskbar, strip_visibility,
    taskbar_client_geometry,
};
use bt_battery_bar::menu::{font_presets, preset_for};
use bt_battery_bar::settings::{DEFAULT_TEXT_PCT, MAX_TEXT_PCT, MIN_TEXT_PCT};

fn m96() -> Metrics {
    Metrics::new(96)
}

fn rect(l: i32, t: i32, r: i32, b: i32) -> Rect {
    Rect { left: l, top: t, right: r, bottom: b }
}

#[test]
fn screen_rect_maps_into_taskbar_client_coords() {
    let origin = Point { x: 12, y: 2088 };
    let screen = rect(-12, 2088, 3852, 2160);
    let c = rect_offset_by(screen, origin);
    assert_eq!(c, rect(-24, 0, 3840, 72));
    assert_eq!(3600 - origin.x, 3588);
}

#[test]
fn negative_origin_secondary_monitor_left_of_primary() {
    let origin = Point { x: -1920, y: 0 };
    let screen = rect(-1920, -60, 0, 0);
    let c = rect_offset_by(screen, origin);
    assert_eq!(c, rect(0, -60, 1920, 0));
}

#[test]
fn taskbar_is_measured_in_its_own_coordinates() {
    let zero = Point { x: -12, y: -1008 };
    let window = rect(12, 1008, 3852, 1080);
    let tray = rect(3600, 1008, 3852, 1080);
    assert_eq!(
        taskbar_client_geometry(window, Some(tray), zero),
        Some((rect(0, 0, 3840, 72), Some(3588)))
    );
    assert_eq!(
        taskbar_client_geometry(window, Some(rect(5, 0, 5, 9)), zero),
        Some((rect(0, 0, 3840, 72), None))
    );
    assert_eq!(
        taskbar_client_geometry(window, None, zero),
        Some((rect(0, 0, 3840, 72), None))
    );
    assert_eq!(taskbar_client_geometry(rect(0, 0, 0, 40), Some(tray), zero), None);
    assert_eq!(taskbar_client_geometry(rect(0, 40, 9, 40), Some(tray), zero), None);
}

#[test]
fn overflow_pill_counts_what_is_left() {
    assert_eq!(overflow_text(3), "+3");
    assert_eq!(overflow_text(12), "+12");
}

#[test]
fn embedded_docks_right_next_to_tray() {
    let tb = rect(0, 0, 3840, 72);
    let (x, y, w, h) = strip_placement_in_taskbar(tb, Some(3600), false, 400, &m96());
    assert_eq!(y, 0);
    assert_eq!(h, 72);
    assert_eq!(w, 400);
    assert_eq!(x + w + GAP_TRAY, 3600);
}

#[test]
fn embedded_docks_left_with_inset() {
    let tb = rect(0, 0, 3840, 72);
    let (x, y, w, h) = strip_placement_in_taskbar(tb, Some(3600), true, 400, &m96());
    assert_eq!(x, LEFT_INSET);
    assert_eq!(y, 0);
    assert_eq!(w, 400);
    assert_eq!(h, 72);
}

#[test]
fn embedded_falls_back_to_reserve_when_tray_not_found() {
    let tb = rect(0, 0, 3840, 72);
    let (_, _, w, _) = strip_placement_in_taskbar(tb, None, false, 400, &m96());
    let (xr, _, _, _) = strip_placement_in_taskbar(tb, None, false, w, &m96());
    assert_eq!(xr + w, tb.right - TASKBAR_RESERVE);
}

#[test]
fn embedded_overwide_strip_stays_inside_taskbar() {
    let tb = rect(0, 0, 2000, 48);
    let tray_left = 1800;
    let (x, _, w, h) = strip_placement_in_taskbar(tb, Some(tray_left), false, 5000, &m96());
    assert_eq!(h, 48);
    assert_eq!(w, tb.right - tb.left - 4);
    assert!(x >= tb.left + 2);
    assert!(x + w <= tb.right);
}

#[test]
fn embedded_vertical_taskbar_clamps_width_and_height() {
    let tb = rect(0, 0, 80, 1080);
    let (x, y, w, h) = strip_placement_in_taskbar(tb, Some(80), true, 600, &m96());
    assert_eq!(y, 0);
    assert_eq!(h, 1080);
    assert_eq!(w, 76);
    assert!(x >= tb.left + 2);
    assert!(x + w <= tb.right);
}

#[test]
fn embedded_degenerate_height_gets_floor() {
    let tb = rect(0, 0, 1000, 10);
    let (_, _, _, h) = strip_placement_in_taskbar(tb, Some(900), false, 300, &m96());
    assert_eq!(h, MIN_STRIP_HEIGHT);
}

#[test]
fn min_width_respected_on_tiny_taskbars() {
    let tb = rect(0, 0, 20, 1080);
    let (_, _, w, _) = strip_placement_in_taskbar(tb, None, false, 600, &m96());
    assert_eq!(w, MIN_STRIP_WIDTH);
}

#[test]
fn metrics_scale_all_geometry_at_150_percent() {
    let m = Metrics::new(144);
    assert_eq!(m.sc(6), 9);
    assert_eq!(m.sc(8), 12);
    assert_eq!(m.sc(40), 60);
    assert_eq!(m.sc(80), 120);
    assert_eq!(m.sc(MIN_STRIP_HEIGHT), 36);
    let tb = rect(0, 0, 1000, 10);
    let (_, _, _, h) = strip_placement_in_taskbar(tb, Some(900), false, 300, &m);
    assert_eq!(h, 36);
    let tb2 = rect(0, 0, 2000, 72);
    let (x, _, w, _) = strip_placement_in_taskbar(tb2, Some(1200), false, 300, &m);
    assert_eq!(x + w, 1191);
}

#[test]
fn metrics_text_pct_scales_text_metrics() {
    let base = Metrics::with_text_pct(144, 100);
    assert_eq!(base.st(13), 20);
    assert_eq!(base.sc(13), 20);
    let small = Metrics::with_text_pct(144, 80);
    assert_eq!(small.st(13), 16);
    assert_eq!(small.st(8), 10);
    let big = Metrics::with_text_pct(144, 140);
    assert_eq!(big.st(13), 28);
    assert_eq!(base.sc(40), big.sc(40));
    assert_eq!(base.sc(40), 60);
    assert_eq!(
        Metrics::with_text_pct(96, 10).st(10),
        Metrics::with_text_pct(96, 70).st(10)
    );
    assert_eq!(
        Metrics::with_text_pct(96, 9999).st(10),
        Metrics::with_text_pct(96, 160).st(10)
    );
}

#[test]
fn font_presets_are_sane() {
    let presets = font_presets();
    let ids: Vec<usize> = presets.iter().map(|(id, _)| *id).collect();
    let mut uniq = ids.clone();
    uniq.sort_unstable();
    uniq.dedup();
    assert_eq!(uniq.len(), ids.len(), "菜单 id 必须唯一");
    for (_, pct) in &presets {
        assert!(
            (MIN_TEXT_PCT..=MAX_TEXT_PCT).contains(pct),
            "档位 {pct} 超出允许范围"
        );
    }
    assert!(
        presets.iter().any(|(_, p)| *p == DEFAULT_TEXT_PCT),
        "必须有默认档"
    );
}

#[test]
fn metrics_treat_invalid_dpi_as_96() {
    assert_eq!(Metrics::new(0).sc(10), 10);
    assert_eq!(Metrics::new(-5).sc(10), 10);
    assert_eq!(Metrics::new(192).sc(10), 20);
}

#[test]
fn max_strip_width_floor_is_never_zero() {
    let m = Metrics::new(144);
    let floored = 0i32.max(m.sc(MIN_STRIP_WIDTH));
    assert_eq!(floored, 60);
    assert!(floored > 0);
}

#[test]
fn hidden_preference_never_requests_show() {
    assert_eq!(strip_visibility(false, false), StripVisibility::Hidden);
    assert_eq!(strip_visibility(false, true), StripVisibility::Hidden);
}

#[test]
fn visible_preference_shows_unless_fullscreen_hidden() {
    assert_eq!(strip_visibility(true, false), StripVisibility::Shown);
    assert_eq!(strip_visibility(true, true), StripVisibility::Hidden);
}

#[test]
fn embedded_strip_destroyed_by_explorer_schedules_rebuild() {
    assert!(should_schedule_rebuild_after_destroy(false, true));
}

#[test]
fn explicit_quit_never_schedules_rebuild() {
    assert!(!should_schedule_rebuild_after_destroy(true, true));
    assert!(!should_schedule_rebuild_after_destroy(true, false));
    assert!(!should_schedule_rebuild_after_destroy(false, false));
}

#[test]
fn design_lengths_stay_at_96_dpi() {
    for v in [0, 1, 6, 40, 200] {
        assert_eq!(m96().sc(v), v);
        assert_eq!(m96().st(v), v);
    }
}

#[test]
fn negative_lengths_scale_towards_zero() {
    assert_eq!(Metrics::new(144).sc(-10), -14);
}

#[test]
fn fonts_follow_scale_and_text_size() {
    assert_eq!(font_heights(&m96()), (13, 12));
    assert_eq!(font_heights(&Metrics::with_text_pct(144, 140)), (28, 25));
}

#[test]
fn floating_strip_sits_at_the_work_area_edge() {
    let work = rect(0, 0, 1920, 1040);
    assert_eq!(
        floating_placement(work, false, 300, &m96()),
        StripPlace { x: 1614, y: 994, w: 300, h: 40 }
    );
    assert_eq!(
        floating_placement(work, true, 300, &m96()),
        StripPlace { x: 10, y: 994, w: 300, h: 40 }
    );
}

#[test]
fn embedded_strip_stays_put_without_geometry() {
    let last = StripPlace { x: 7, y: 8, w: 90, h: 48 };
    let work = rect(0, 0, 1920, 1040);
    let blind = Surroundings { embedded: true, taskbar: None, work };
    assert_eq!(desired_placement(&blind, last, false, 300, &m96()), last);
    let seen = Surroundings {
        embedded: true,
        taskbar: Some((rect(0, 0, 1920, 48), Some(1700))),
        work,
    };
    assert_eq!(
        desired_placement(&seen, last, false, 300, &m96()),
        StripPlace { x: 1394, y: 0, w: 300, h: 48 }
    );
    let floating = Surroundings { embedded: false, taskbar: None, work };
    assert_eq!(
        desired_placement(&floating, last, false, 300, &m96()),
        StripPlace { x: 1614, y: 994, w: 300, h: 40 }
    );
}

#[test]
fn strip_takes_at_most_seventy_percent() {
    assert_eq!(max_strip_width(rect(0, 0, 1920, 1040)), 1344);
    assert_eq!(max_strip_width(rect(0, 0, 0, 0)), 0);
    assert_eq!(max_strip_width(rect(10, 0, 5, 0)), -3);
}

#[test]
fn far_away_rectangles_are_told_apart() {
    assert!(rect(-1920, 0, 1920, 1080).near());
    assert!(!rect(i32::MIN, 0, 0, 0).near());
}

fn foreground(class: &str, window: Rect) -> Option<Foreground> {
    Some(Foreground {
        own: false,
        iconic: false,
        class: class.to_string(),
        cloaked: false,
        monitor: Some(rect(0, 0, 1920, 1080)),
        window,
    })
}

#[test]
fn fullscreen_windows_are_recognised() {
    let full = rect(0, 0, 1920, 1080);
    assert!(is_fullscreen_app_active(&foreground("Chrome", full)));
    assert!(is_fullscreen_app_active(&foreground("Chrome", rect(8, 8, 1912, 1072))));
    assert!(!is_fullscreen_app_active(&foreground("Chrome", rect(9, 0, 1920, 1080))));
    assert!(!is_fullscreen_app_active(&None));
    for shell in [
        "Progman",
        "WorkerW",
        "Shell_TrayWnd",
        "Shell_SecondaryTrayWnd",
        "XamlExplorerHostIslandWindow",
    ] {
        assert!(!is_fullscreen_app_active(&foreground(shell, full)));
    }
    let mut own = foreground("Chrome", full).unwrap();
    own.own = true;
    assert!(!is_fullscreen_app_active(&Some(own)));
    let mut small = foreground("Chrome", full).unwrap();
    small.iconic = true;
    assert!(!is_fullscreen_app_active(&Some(small)));
    let mut cloaked = foreground("Chrome", full).unwrap();
    cloaked.cloaked = true;
    assert!(!is_fullscreen_app_active(&Some(cloaked)));
    let mut nowhere = foreground("Chrome", full).unwrap();
    nowhere.monitor = None;
    assert!(!is_fullscreen_app_active(&Some(nowhere)));
}

#[test]
fn presets_have_their_percentages() {
    for (id, pct) in font_presets() {
        assert_eq!(preset_for(id), Some(pct));
    }
    assert_eq!(preset_for(0), None);
    assert_eq!(preset_for(1023), Some(140));
}
