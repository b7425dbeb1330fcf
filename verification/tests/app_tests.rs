//! The program's state: scans, alerts, menu entries, messages, embedding.

use bt_battery_bar::app::{App, Effect};
use bt_battery_bar::draw::ItemSize;
use bt_battery_bar::layout::{Rect, StripPlace};
use bt_battery_bar::links::{HidState, SECOND};
use bt_battery_bar::menu::{
    MID_AUTOSTART, MID_BT_ADD, MID_BT_DEVICES, MID_DEV_BASE, MID_EXIT, MID_FONT_L, MID_INT10,
    MID_INT30, MID_INT300, MID_INT60, MID_LOW10, MID_LOW20, MID_LOW30, MID_NOTIFY, MID_POS_LEFT,
    MID_POS_RIGHT, MID_REFRESH, MID_SHOW_OFFLINE, MID_TOGGLE, Menu, MenuOp,
};
use bt_battery_bar::messages::{
    DEVICE_TIMER, MSG_DATA_READY, MSG_RECREATE_STRIP, RECREATE_TIMER, Route, STRIP_TIMER, TRAY_MSG,
    WM_CLOSE, WM_COMMAND, WM_DESTROY, WM_DEVICECHANGE, WM_DISPLAYCHANGE, WM_DPICHANGED,
    WM_ENDSESSION, WM_ERASEBKGND, WM_INPUT, WM_KILLFOCUS, WM_LBUTTONUP, WM_PAINT,
    WM_QUERYENDSESSION, WM_RBUTTONUP, WM_SETTINGCHANGE, WM_TIMER,
};
use bt_battery_bar::model::Device;
use bt_battery_bar::settings::Settings;
use bt_battery_bar::window::{
    STRIP_EX_STYLE, WS_CHILD, WS_EX_TOPMOST, WS_POPUP, embedded_style, floating_style, not_topmost,
};

const T0: u64 = 10_000 * SECOND;

fn dev(name: &str, addr: &str, connected: bool, battery: Option<u8>) -> Device {
    Device {
        name: name.into(),
        address: addr.into(),
        is_le: !addr.starts_with("hid:"),
        connected,
        battery,
        status: if connected { "ok" } else { "offline" },
        kind: "Mouse",
    }
}

fn app() -> App {
    App::new(Settings::default())
}

fn running() -> App {
    let mut a = app();
    a.on_started(100, 144, 0xC0DE);
    a.on_helper(200);
    a
}

#[test]
fn a_new_program_is_dirty_and_visible() {
    let a = app();
    assert!(a.dirty && a.strip_visible && !a.embedded && !a.shutting_down);
    assert_eq!((a.dpi, a.text_pct), (96, 100));
    let mut odd = Settings::default();
    odd.text_pct = 9999;
    assert_eq!(App::new(odd).text_pct, 160);
}

#[test]
fn starting_wires_the_windows() {
    let mut a = app();
    assert_eq!(
        a.on_started(100, 144, 0xC0DE),
        vec![Effect::RecreateFonts, Effect::AddTrayIcon, Effect::WireStrip, Effect::CreateHelper]
    );
    assert_eq!((a.hwnd, a.dpi, a.wm_taskbar_created), (100, 144, 0xC0DE));
    a.settings.strip_visible = false;
    assert_eq!(
        a.on_helper(200),
        vec![Effect::RegisterRawKeyboard, Effect::Heal, Effect::Relayout, Effect::StartScans]
    );
    assert!(!a.strip_visible);
    let mut demo = app();
    demo.enable_demo_data();
    assert_eq!(
        demo.on_helper(0),
        vec![
            Effect::Heal,
            Effect::Relayout,
            Effect::Relayout,
            Effect::UpdateTray,
            Effect::Paint,
            Effect::CaptureStrip,
        ]
    );
}

#[test]
fn the_preview_has_four_devices() {
    let mut a = app();
    a.enable_demo_data();
    let devs = a.live_devices();
    assert_eq!(devs.len(), 4);
    assert_eq!(devs[2].name, "EDIFIER W820NB");
    assert_eq!(devs[2].battery, Some(5));
    assert!(!devs[3].connected);
    assert_eq!(a.update_tray().0, Some(5));
    assert!(a.demo_mode && a.dirty);
}

#[test]
fn scans_of_both_kinds_are_joined() {
    let mut a = app();
    a.settings.notify_low = false;
    let e = a.publish_bt(vec![dev("Pen", "AA", false, None)], T0);
    assert_eq!(e, vec![Effect::SaveSettings]);
    a.hwnd = 5;
    let e = a.publish_hid(vec![dev("Mouse", "hid:1:2:Mouse", true, Some(50))], T0);
    assert_eq!(e, vec![Effect::SaveSettings, Effect::PostDataReady]);
    let names: Vec<String> = a.live_devices().into_iter().map(|d| d.name).collect();
    assert_eq!(names, vec!["Mouse", "Pen"]);
    assert!(a.snapshot.has_connected);
    let quiet = a.publish_hid(vec![dev("Mouse", "hid:1:2:Mouse", true, Some(49))], T0);
    assert_eq!(quiet, vec![Effect::PostDataReady]);
    let tray = a.update_tray();
    assert_eq!(tray, (Some(49), "Mouse 49%  Pen --".to_string()));
    a.settings.set_shown("hid:1:2:mouse", false);
    assert_eq!(a.visible_devices().len(), 1);
    assert_eq!(a.update_tray(), (None, "Pen --".to_string()));
}

#[test]
fn low_devices_are_reported_once_in_a_while() {
    let mut a = app();
    let low = || vec![dev("Mouse", "hid:1:2:Mouse", true, Some(20))];
    a.publish_hid(low(), T0);
    assert_eq!(a.drain_alerts(), vec!["Mouse：20%".to_string()]);
    assert!(a.drain_alerts().is_empty());
    let gap = 30 * 60 * SECOND;
    a.publish_hid(low(), T0 + gap - 1);
    assert!(a.pending_alerts.is_empty());
    a.publish_hid(low(), T0 + gap);
    assert_eq!(a.drain_alerts().len(), 1);
    a.publish_hid(vec![dev("Mouse", "hid:1:2:Mouse", true, Some(21))], T0 + 3 * gap);
    assert!(a.pending_alerts.is_empty());
    a.settings.set_shown("hid:1:2:Mouse", false);
    a.publish_hid(low(), T0 + 4 * gap);
    assert!(a.pending_alerts.is_empty());
    a.settings.set_shown("hid:1:2:Mouse", true);
    a.settings.notify_low = false;
    a.publish_hid(low(), T0 + 5 * gap);
    assert!(a.pending_alerts.is_empty());
}

#[test]
fn pushed_batteries_show_at_once() {
    let mut a = app();
    a.publish_bt(
        vec![dev("Mouse", "AA", true, Some(50)), dev("Pen", "BB", false, None)],
        T0,
    );
    assert_eq!(a.apply_notify_battery("AA", 48, T0), vec![]);
    assert_eq!(a.bt_devs[0].battery, Some(48));
    assert_eq!(a.live_devices()[0].battery, Some(48));
    a.dirty = false;
    a.apply_notify_battery("BB", 10, T0);
    assert!(!a.dirty && a.bt_devs[1].battery.is_none());
}

#[test]
fn polls_slow_down_with_nothing_connected() {
    let mut a = app();
    a.settings.poll_seconds = 60;
    assert_eq!(a.poll_delay(), 15);
    a.publish_bt(vec![dev("Mouse", "AA", true, None)], T0);
    assert_eq!(a.poll_delay(), 60);
}

#[test]
fn key_presses_wake_the_watcher_once() {
    let mut a = app();
    let mut hid = HidState::new();
    let path = r"\\?\hid#vid_0c45&pid_fefe&mi_04";
    assert_eq!(a.on_raw_input(&mut hid, "", T0), (false, vec![]));
    assert_eq!(a.on_raw_input(&mut hid, path, T0), (true, vec![Effect::KickWatcher]));
    assert_eq!(a.on_raw_input(&mut hid, path, T0), (true, vec![]));
    assert_eq!(
        a.on_raw_input(&mut hid, r"\\?\hid#vid_1234&pid_0001", T0),
        (true, vec![])
    );
    for _ in 0..21 {
        a.on_raw_input(&mut hid, path, T0);
    }
    assert!(!a.on_raw_input(&mut hid, path, T0).0);
}

#[test]
fn dpi_changes_are_noticed() {
    let mut a = app();
    assert!(!a.refresh_dpi(0));
    assert!(a.refresh_dpi(144));
    assert!(!a.refresh_dpi(144));
    assert_eq!(a.metrics().dpi, 144);
}

#[test]
fn menu_entries_change_settings() {
    let mut a = running();
    a.dirty = false;
    assert_eq!(
        a.on_command(MID_TOGGLE),
        vec![Effect::SaveSettings, Effect::Heal, Effect::Relayout]
    );
    assert!(!a.settings.strip_visible && !a.strip_visible && !a.strip_should_show());
    a.on_command(MID_TOGGLE);
    assert!(a.strip_should_show() && !a.dirty);
    assert_eq!(a.on_command(MID_POS_LEFT), vec![Effect::SaveSettings]);
    assert!(a.settings.dock_left() && a.dirty);
    a.on_command(MID_POS_RIGHT);
    assert!(!a.settings.dock_left());
    assert_eq!(a.on_command(MID_REFRESH), vec![Effect::RequestRefresh]);
    assert_eq!(
        a.on_command(MID_FONT_L),
        vec![Effect::SaveSettings, Effect::RecreateFonts, Effect::Relayout]
    );
    assert_eq!((a.text_pct, a.settings.text_pct), (120, 120));
    for (id, seconds) in [(MID_INT10, 10), (MID_INT30, 30), (MID_INT60, 60), (MID_INT300, 300)] {
        assert_eq!(a.on_command(id), vec![Effect::SaveSettings, Effect::RequestRefresh]);
        assert_eq!(a.settings.poll_seconds, seconds);
    }
    for (id, level) in [(MID_LOW10, 10), (MID_LOW20, 20), (MID_LOW30, 30)] {
        assert_eq!(a.on_command(id), vec![Effect::SaveSettings]);
        assert_eq!(a.settings.low_battery_alert, level);
    }
    assert_eq!(
        a.on_command(MID_AUTOSTART),
        vec![Effect::SaveSettings, Effect::SetAutostart { on: true }]
    );
    assert!(a.settings.autostart);
    a.on_command(MID_NOTIFY);
    assert!(!a.settings.notify_low);
    a.on_command(MID_SHOW_OFFLINE);
    assert!(!a.settings.show_offline);
    assert_eq!(a.on_command(MID_BT_ADD), vec![Effect::OpenBluetoothSettings]);
    assert_eq!(a.on_command(MID_BT_DEVICES), vec![Effect::OpenConnectedDevices]);
    assert_eq!(a.on_command(4242), vec![]);
    assert_eq!(a.on_command(MID_EXIT), vec![Effect::DestroyWindow { hwnd: 100 }]);
    assert!(a.shutting_down);
}

#[test]
fn device_entries_show_and_hide() {
    let mut a = running();
    a.publish_hid(vec![dev("Mouse", "hid:1:2:Mouse", true, Some(50))], T0);
    let ops = a.open_menu();
    assert_eq!(a.settings_addrs, vec!["hid:1:2:Mouse".to_string()]);
    let listed = ops.iter().any(|op| match op {
        MenuOp::Item { menu, id, label, checked, .. } => {
            *menu == Menu::Devices
                && *id == MID_DEV_BASE
                && label == "Mouse    50%  已连接"
                && *checked
        }
        _ => false,
    });
    assert!(listed);
    assert_eq!(a.on_command(MID_DEV_BASE), vec![Effect::SaveSettings]);
    assert!(!a.settings.is_shown("hid:1:2:Mouse"));
    a.on_command(MID_DEV_BASE);
    assert!(a.settings.is_shown("hid:1:2:Mouse"));
    a.dirty = false;
    assert_eq!(a.on_command(MID_DEV_BASE + 1), vec![]);
    assert!(a.dirty);
    a.dirty = false;
    a.on_command(MID_DEV_BASE + 16);
    assert!(!a.dirty);
}

#[test]
fn full_screen_windows_hide_a_floating_strip_only() {
    let mut a = running();
    a.panel_hwnd = 300;
    assert_eq!(
        a.update_fullscreen_autohide(true),
        vec![Effect::HideStrip, Effect::HidePanel]
    );
    assert!(!a.strip_should_show());
    assert_eq!(a.update_fullscreen_autohide(true), vec![]);
    assert_eq!(a.update_fullscreen_autohide(false), vec![Effect::ShowStrip]);
    a.embedded = true;
    assert_eq!(a.update_fullscreen_autohide(true), vec![]);
    a.embedded = false;
    a.apply_strip_visible(false);
    assert_eq!(a.update_fullscreen_autohide(true), vec![]);
    assert!(!a.fs_hidden);
}

#[test]
fn showing_the_strip_again_brings_it_back() {
    let mut a = running();
    a.update_fullscreen_autohide(true);
    assert!(!a.strip_should_show());
    a.apply_strip_visible(false);
    assert!(!a.strip_should_show());
    assert_eq!(a.apply_strip_visible(true), vec![Effect::Heal, Effect::Relayout]);
    assert!(a.strip_should_show());
}

#[test]
fn the_strip_is_kept_in_the_taskbar() {
    let mut a = running();
    assert_eq!(a.heal_embedding(7, false), vec![Effect::Embed]);
    assert_eq!(a.on_embed(7, Some(5)), (true, vec![Effect::MakeFloating, Effect::ShowStrip]));
    assert_eq!(a.on_embed(7, Some(5)), (false, vec![Effect::MakeFloating, Effect::ShowStrip]));
    a.strip_visible = false;
    assert_eq!(a.on_embed(7, Some(6)), (true, vec![Effect::MakeFloating]));
    assert_eq!(a.apply_topmost(true), vec![Effect::ClearTopmost]);
    a.fs_hidden = true;
    assert_eq!(a.on_embed(7, None), (true, vec![Effect::Relayout]));
    assert!(a.embedded && !a.fs_hidden);
    assert_eq!(a.apply_topmost(true), vec![]);
    assert_eq!(a.heal_embedding(7, true), vec![]);
    assert_eq!(a.heal_embedding(8, false), vec![Effect::Unparent, Effect::Embed]);
    assert!(!a.embedded);
    a.on_embed(8, None);
    assert_eq!(
        a.heal_embedding(0, false),
        vec![Effect::Unparent, Effect::MakeFloating, Effect::Relayout]
    );
    assert_eq!((a.embedded, a.taskbar_hwnd), (false, 0));
    assert_eq!(a.heal_embedding(0, false), vec![]);
    a.hwnd = 0;
    assert_eq!(a.heal_embedding(7, false), vec![]);
}

#[test]
fn styles_never_keep_a_strip_on_top() {
    assert_eq!(STRIP_EX_STYLE & WS_EX_TOPMOST, 0);
    assert_eq!(not_topmost(0xFFFF_FFFF) & WS_EX_TOPMOST, 0);
    let e = embedded_style(WS_POPUP | 0x11);
    assert_eq!(e, WS_CHILD | 0x11);
    assert_eq!(floating_style(e), WS_POPUP | 0x11);
}

#[test]
fn a_strip_lost_with_the_taskbar_is_rebuilt() {
    let mut a = running();
    a.embedded = true;
    a.panel_hwnd = 300;
    let (answer, effects) = a.handle_message(WM_DESTROY, 0, 0);
    assert_eq!(answer, Some(0));
    assert_eq!(
        effects,
        vec![
            Effect::DropTrayIcon { hwnd: 100 },
            Effect::DestroyWindow { hwnd: 300 },
            Effect::PostRecreate,
        ]
    );
    assert!(a.pending_recreate && a.hwnd == 0 && !a.shutting_down);
    assert_eq!(a.after_message(), vec![Effect::TryRecreate]);
    assert_eq!(a.after_message(), vec![]);
    assert_eq!(a.try_recreate_strip(), vec![Effect::CreateStrip]);
    assert_eq!(a.try_recreate_strip(), vec![]);
    assert_eq!(a.on_strip_created(None), (true, vec![Effect::ArmRecreateTimer]));
    a.try_recreate_strip();
    assert_eq!(a.on_strip_created(None), (false, vec![Effect::ArmRecreateTimer]));
    a.try_recreate_strip();
    let (_, wired) = a.on_strip_created(Some(101));
    assert_eq!(
        wired,
        vec![Effect::WireStrip, Effect::AddTrayIcon, Effect::Relayout, Effect::Heal]
    );
    assert_eq!((a.hwnd, a.recreate_attempts), (101, 0));
    assert_eq!(a.try_recreate_strip(), vec![]);
}

#[test]
fn closing_quits_and_rebuilds_nothing() {
    let mut a = running();
    a.embedded = true;
    let (answer, effects) = a.handle_message(WM_CLOSE, 0, 0);
    assert_eq!((answer, effects), (Some(0), vec![Effect::DestroyWindow { hwnd: 100 }]));
    let (_, effects) = a.handle_message(WM_DESTROY, 0, 0);
    assert_eq!(
        effects,
        vec![
            Effect::UnregisterRawKeyboard,
            Effect::DestroyWindow { hwnd: 200 },
            Effect::StopScans,
            Effect::PostQuit,
        ]
    );
    assert_eq!(a.try_recreate_strip(), vec![]);
    assert_eq!(
        a.on_exit(),
        vec![
            Effect::KillStripTimers,
            Effect::UnregisterRawKeyboard,
            Effect::StopScans,
            Effect::RemoveTrayIcon,
            Effect::FreeIconAndFonts,
        ]
    );
}

#[test]
fn messages_to_the_strip() {
    let mut a = running();
    assert_eq!(
        a.handle_message(WM_TIMER, DEVICE_TIMER, 0),
        (Some(0), vec![Effect::KillDeviceTimer, Effect::RequestRefresh])
    );
    assert_eq!(
        a.handle_message(WM_TIMER, STRIP_TIMER, 0),
        (Some(0), vec![Effect::CheckFullscreen, Effect::Heal, Effect::ProcessDirty])
    );
    assert_eq!(a.handle_message(WM_DEVICECHANGE, 0, 0), (Some(1), vec![Effect::ArmDeviceTimer]));
    assert_eq!(a.handle_message(WM_QUERYENDSESSION, 0, 0), (Some(1), vec![]));
    assert_eq!(a.handle_message(WM_ENDSESSION, 0, 0), (Some(0), vec![]));
    assert!(!a.shutting_down);
    assert_eq!(
        a.handle_message(WM_ENDSESSION, 1, 0),
        (Some(0), vec![Effect::RemoveTrayIcon])
    );
    assert!(a.shutting_down);
    assert_eq!(a.handle_message(WM_PAINT, 0, 0), (Some(0), vec![Effect::Paint]));
    assert_eq!(a.handle_message(WM_ERASEBKGND, 0, 0), (Some(1), vec![]));
    assert_eq!(a.handle_message(WM_RBUTTONUP, 0, 0), (Some(0), vec![Effect::ShowMenu]));
    assert_eq!(
        a.handle_message(WM_COMMAND, 0x0001_0000 + 1002, 0),
        (Some(0), vec![Effect::RequestRefresh])
    );
    for msg in [0xC0DE, WM_DISPLAYCHANGE, WM_SETTINGCHANGE] {
        assert_eq!(
            a.handle_message(msg, 0, 0),
            (Some(0), vec![Effect::Heal, Effect::Relayout])
        );
    }
    assert_eq!(a.handle_message(0x0400, 0, 0), (None, vec![]));
    assert_eq!(a.handle_message(TRAY_MSG, 0, 0x0203), (Some(0), vec![]));
    assert_eq!(a.handle_message(TRAY_MSG, 0, 0x0205), (Some(0), vec![Effect::ShowMenu]));
    let (_, toggled) = a.handle_message(TRAY_MSG, 0, 0x0201);
    assert_eq!(toggled, vec![Effect::SaveSettings, Effect::Heal, Effect::Relayout]);
}

#[test]
fn clicks_open_the_panel_or_refresh() {
    let mut a = running();
    a.overflow_x = (50, 80);
    let at = |x: u64| 0x0007_0000 + x;
    assert_eq!(
        a.handle_message(WM_LBUTTONUP, 0, at(50)),
        (Some(0), vec![Effect::TogglePanel])
    );
    assert_eq!(
        a.handle_message(WM_LBUTTONUP, 0, at(80)),
        (Some(0), vec![Effect::RequestRefresh])
    );
    a.panel_hwnd = 300;
    assert_eq!(
        a.handle_message(WM_LBUTTONUP, 0, at(10)),
        (Some(0), vec![Effect::HidePanel, Effect::RequestRefresh])
    );
    assert_eq!(a.toggle_panel(true), vec![Effect::HidePanel]);
    assert_eq!(a.toggle_panel(false), vec![Effect::ShowPanel]);
    assert_eq!(a.panel_owner(), 100);
    a.embedded = true;
    assert_eq!(a.panel_owner(), 0);
}

#[test]
fn messages_to_the_helper() {
    let mut a = running();
    assert_eq!(
        a.handle_helper_message(MSG_RECREATE_STRIP, 0, 0),
        (Some(0), vec![Effect::KillRecreateTimer, Effect::TryRecreate])
    );
    assert_eq!(
        a.handle_helper_message(WM_TIMER, RECREATE_TIMER, 0),
        (Some(0), vec![Effect::KillRecreateTimer, Effect::TryRecreate])
    );
    assert_eq!(a.handle_helper_message(WM_TIMER, 9, 0), (None, vec![]));
    assert_eq!(
        a.handle_helper_message(WM_DEVICECHANGE, 0, 0),
        (Some(1), vec![Effect::ArmDeviceTimer])
    );
    assert_eq!(
        a.handle_helper_message(WM_SETTINGCHANGE, 0, 144),
        (Some(0), vec![Effect::Heal, Effect::Relayout])
    );
    assert_eq!(
        a.handle_helper_message(WM_SETTINGCHANGE, 0, 192),
        (Some(0), vec![Effect::RecreateFonts, Effect::Heal, Effect::Relayout])
    );
    assert_eq!(a.dpi, 192);
    assert_eq!(
        a.handle_helper_message(WM_DPICHANGED, 0, 96),
        (Some(0), vec![Effect::RecreateFonts, Effect::Relayout])
    );
    assert_eq!(a.handle_helper_message(WM_DPICHANGED, 0, 96), (Some(0), vec![]));
    a.hwnd = 0;
    assert_eq!(a.handle_helper_message(0xC0DE, 0, 0), (Some(0), vec![]));
    a.pending_recreate = true;
    assert_eq!(
        a.handle_helper_message(0xC0DE, 0, 0),
        (Some(0), vec![Effect::PostRecreate])
    );
    assert_eq!(a.handle_helper_message(WM_DEVICECHANGE, 0, 0), (Some(1), vec![]));
}

#[test]
fn messages_to_the_panel() {
    let mut a = running();
    a.panel_hwnd = 300;
    assert_eq!(a.handle_panel_message(WM_PAINT), (Some(0), vec![Effect::PaintPanel]));
    assert_eq!(a.handle_panel_message(WM_ERASEBKGND), (Some(1), vec![]));
    assert_eq!(a.handle_panel_message(WM_KILLFOCUS), (Some(0), vec![Effect::HidePanel]));
    assert_eq!(a.handle_panel_message(0x0400), (None, vec![]));
    assert_eq!(a.handle_panel_message(WM_DESTROY), (Some(0), vec![]));
    assert_eq!(a.panel_hwnd, 0);
}

#[test]
fn messages_find_their_window() {
    let mut a = running();
    assert_eq!(a.route(100, WM_PAINT), Route::Strip);
    assert_eq!(a.route(200, WM_PAINT), Route::Helper);
    assert_eq!(a.route(300, WM_PAINT), Route::Other);
    a.panel_hwnd = 300;
    assert_eq!(a.route(300, WM_PAINT), Route::Panel);
    assert_eq!(a.route(200, WM_INPUT), Route::RawInput);
}

fn work() -> Rect {
    Rect { left: 0, top: 0, right: 1920, bottom: 1040 }
}

#[test]
fn new_data_lays_the_strip_out() {
    let mut a = app();
    a.publish_bt(vec![dev("Mouse", "AA", true, Some(50))], T0);
    assert_eq!(
        a.handle_message(MSG_DATA_READY, 0, 0).1,
        vec![Effect::Relayout, Effect::UpdateTray, Effect::Repaint, Effect::DrainAlerts]
    );
    a.dirty = true;
    a.panel_hwnd = 300;
    assert_eq!(
        a.process_dirty_or_reanchor(),
        vec![
            Effect::Relayout,
            Effect::UpdateTray,
            Effect::Repaint,
            Effect::SizePanel,
            Effect::DrainAlerts,
        ]
    );
    assert_eq!(a.process_dirty_or_reanchor(), vec![Effect::Reanchor]);
    let sizes = vec![ItemSize { name_w: 60, name_h: 16, pill_w: 30, pill_h: 14 }];
    let (place, visible) = a.layout_and_resize(&sizes, None, work());
    assert!(visible);
    assert_eq!(a.layout.devices.len(), 1);
    assert_eq!(a.layout.width, 132);
    assert_eq!(place, StripPlace { x: 1782, y: 994, w: 132, h: 40 });
    assert_eq!(a.reanchor_if_needed(None, work()), vec![]);
    a.settings.strip_side = "left".to_string();
    assert_eq!(a.reanchor_if_needed(None, work()), vec![Effect::Relayout]);
    a.strip_visible = false;
    assert_eq!(a.reanchor_if_needed(None, work()), vec![]);
    assert!(!a.layout_and_resize(&sizes, None, work()).1);
}

#[test]
fn an_embedded_strip_comes_out_of_hiding() {
    let mut a = app();
    a.embedded = true;
    a.fs_hidden = true;
    assert_eq!(a.reanchor_if_needed(None, work()), vec![Effect::ShowStrip]);
    assert!(!a.fs_hidden);
}
