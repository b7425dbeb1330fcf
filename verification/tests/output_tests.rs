//! Drawing, icons, menus, files and the command line.

use bt_battery_bar::cli::{
    Command, collection_line, device_line, failure_lines, lower_is_notable, notable_failures,
    parse_args,
};
use bt_battery_bar::draw::{
    ClickTarget, DrawOp, ItemSize, click_target, compute_layout, measure_panel, paint, paint_panel,
    pill_text, place_panel, worst_battery,
};
use bt_battery_bar::icon::make_icon;
use bt_battery_bar::layout::{Metrics, Rect};
use bt_battery_bar::menu::{MID_FONT_M, MID_INT60, MID_LOW20, Menu, MenuOp, show_menu};
use bt_battery_bar::model::{Device, Snapshot};
use bt_battery_bar::outputs::{
    autostart_value, checks_size, fill_wchars, log_line, rotates, write_bmp,
};
use bt_battery_bar::probe::unasked;
use bt_battery_bar::settings::Settings;
use bt_battery_bar::theme::{CHROMA, detect, rgb};

fn dev(name: &str, connected: bool, battery: Option<u8>) -> Device {
    Device {
        name: name.into(),
        address: name.into(),
        is_le: true,
        connected,
        battery,
        status: "ok",
        kind: "Mouse",
    }
}

fn size() -> ItemSize {
    ItemSize { name_w: 60, name_h: 16, pill_w: 30, pill_h: 14 }
}

fn m96() -> Metrics {
    Metrics::new(96)
}

#[test]
fn layouts_cut_what_does_not_fit() {
    let all: Vec<Device> = (0..5).map(|i| dev(&format!("d{i}"), true, Some(50))).collect();
    let sizes: Vec<ItemSize> = (0..5).map(|_| size()).collect();
    let wide = compute_layout(&all, &sizes, 2000, &m96());
    assert_eq!((wide.devices.len(), wide.overflow), (5, 0));
    assert_eq!(wide.width, 5 * 120 + 4 * 16 + 12);
    let narrow = compute_layout(&all, &sizes, 330, &m96());
    assert_eq!((narrow.devices.len(), narrow.overflow), (2, 3));
    assert_eq!(narrow.width, 328);
    let none = compute_layout(&all, &sizes, 0, &m96());
    assert_eq!((none.devices.len(), none.overflow, none.width), (0, 5, 40));
    let empty = compute_layout(&vec![], &vec![], 500, &m96());
    assert_eq!((empty.devices.len(), empty.width), (0, 80));
}

#[test]
fn pills_say_percentages() {
    assert_eq!(pill_text(&dev("a", true, Some(7))), "7%");
    assert_eq!(pill_text(&dev("a", true, None)), "--");
    let snap = Snapshot {
        devices: vec![dev("a", true, Some(50)), dev("b", true, None), dev("c", false, Some(9))],
        scanned_at_ms: 0,
        has_connected: true,
    };
    assert_eq!(worst_battery(&snap), Some(9));
    assert_eq!(worst_battery(&Snapshot::default()), None);
}

fn pill_colour(battery: Option<u8>) -> u32 {
    let all = vec![dev("a", true, battery)];
    let sizes = vec![size()];
    let m = m96();
    let layout = compute_layout(&all, &sizes, 500, &m);
    let client = Rect { left: 0, top: 0, right: layout.width, bottom: 40 };
    let plan = paint(&layout, &sizes, 16, (20, 14), client, 20, &m);
    let fills: Vec<u32> = plan
        .ops
        .iter()
        .filter_map(|op| match op {
            DrawOp::Fill { color, .. } => Some(*color),
            _ => None,
        })
        .collect();
    assert_eq!(fills[0], CHROMA);
    *fills.last().unwrap()
}

#[test]
fn pills_are_red_orange_or_green() {
    let t = detect();
    assert_eq!(pill_colour(Some(19)), t.pill_low);
    assert_eq!(pill_colour(Some(20)), t.pill_mid);
    assert_eq!(pill_colour(Some(49)), t.pill_mid);
    assert_eq!(pill_colour(Some(50)), t.pill_ok);
    assert_eq!(pill_colour(None), t.pill_off_bg);
}

#[test]
fn the_rest_is_behind_a_pill() {
    let all: Vec<Device> = (0..5).map(|i| dev(&format!("d{i}"), true, Some(50))).collect();
    let sizes: Vec<ItemSize> = (0..5).map(|_| size()).collect();
    let m = m96();
    let layout = compute_layout(&all, &sizes, 330, &m);
    let shown: Vec<ItemSize> = (0..layout.devices.len()).map(|_| size()).collect();
    let client = Rect { left: 0, top: 0, right: layout.width, bottom: 40 };
    let plan = paint(&layout, &shown, 16, (20, 14), client, 20, &m);
    assert!(plan.overflow_x.1 > plan.overflow_x.0);
    let said = plan.ops.iter().any(|op| matches!(op, DrawOp::Text { text, .. } if text == "+3"));
    assert!(said);
    assert_eq!(click_target(plan.overflow_x.0, plan.overflow_x), ClickTarget::More);
    assert_eq!(click_target(plan.overflow_x.1, plan.overflow_x), ClickTarget::Strip);
    assert_eq!(click_target(0, (0, 0)), ClickTarget::Strip);
}

#[test]
fn a_device_too_wide_is_behind_a_pill() {
    let all = vec![dev("a device with a long name", true, Some(50))];
    let sizes = vec![ItemSize { name_w: 600, ..size() }];
    let m = m96();
    let layout = compute_layout(&all, &sizes, 200, &m);
    assert_eq!((layout.devices.len(), layout.overflow, layout.width), (0, 1, 80));
    let client = Rect { left: 0, top: 0, right: layout.width, bottom: 40 };
    let plan = paint(&layout, &vec![], 16, (20, 14), client, 20, &m);
    assert_eq!(plan.ops.len(), 3);
    assert!(matches!(
        &plan.ops[1],
        DrawOp::Fill { rect, .. } if *rect == Rect { left: 6, top: 11, right: 36, bottom: 29 }
    ));
    assert!(matches!(&plan.ops[2], DrawOp::Text { x: 11, text, .. } if text == "+1"));
    assert_eq!(plan.overflow_x, (6, 36));
    assert_eq!(click_target(6, plan.overflow_x), ClickTarget::More);
    assert_eq!(click_target(36, plan.overflow_x), ClickTarget::Strip);
}

#[test]
fn an_empty_strip_says_so() {
    let m = m96();
    let layout = compute_layout(&vec![], &vec![], 500, &m);
    let client = Rect { left: 0, top: 0, right: layout.width, bottom: 40 };
    let plan = paint(&layout, &vec![], 16, (20, 14), client, 20, &m);
    assert_eq!(plan.ops.len(), 2);
    assert!(matches!(&plan.ops[1], DrawOp::Text { x: 6, y: 12, text, .. } if text == "暂无设备"));
    assert_eq!(plan.overflow_x, (0, 0));
}

#[test]
fn layouts_and_snapshots_can_be_cloned() {
    let all = vec![dev("a", true, Some(50)), dev("b", false, None)];
    let snap = Snapshot { devices: all, scanned_at_ms: 7, has_connected: true };
    let copy = snap.clone();
    let names: Vec<&str> = copy.devices.iter().map(|d| d.name.as_str()).collect();
    assert_eq!(names, vec!["a", "b"]);
    assert_eq!((copy.scanned_at_ms, copy.has_connected), (7, true));
    let layout = compute_layout(&snap.devices, &vec![size(), size()], 500, &m96());
    let copy = layout.clone();
    assert_eq!(copy.devices.len(), layout.devices.len());
    assert_eq!((copy.overflow, copy.width), (layout.overflow, layout.width));
}

#[test]
fn panels_fit_the_screen() {
    let work = Rect { left: 0, top: 0, right: 1920, bottom: 1040 };
    let m = m96();
    assert_eq!(measure_panel(&vec![size(), size()], work, &m), (138, 72));
    assert_eq!(measure_panel(&vec![], work, &m), (138, 46));
    let many: Vec<ItemSize> = (0..100).map(|_| size()).collect();
    assert_eq!(measure_panel(&many, work, &m).1, 1024);
    let strip = Rect { left: 1500, top: 1000, right: 1800, bottom: 1040 };
    assert_eq!(place_panel(strip, work, 138, 72, &m), (1660, 922));
    let top = Rect { left: 0, top: 0, right: 100, bottom: 40 };
    assert_eq!(place_panel(top, work, 138, 72, &m), (4, 46));
    let client = Rect { left: 0, top: 0, right: 138, bottom: 72 };
    let ops = paint_panel(
        &vec![dev("a", true, Some(5)), dev("b", false, None)],
        &vec![size(), size()],
        client,
        20,
        &m,
    );
    let texts: Vec<&str> = ops
        .iter()
        .filter_map(|op| match op {
            DrawOp::Text { text, .. } => Some(text.as_str()),
            _ => None,
        })
        .collect();
    assert_eq!(texts, vec!["a", "5%", "b", "--"]);
    let card = ops.iter().any(|op| {
        matches!(op, DrawOp::Fill { rect, color } if *rect == client && *color == rgb(0x20, 0x22, 0x28))
    });
    assert!(card);
}

#[test]
fn icons_show_the_level() {
    let none = make_icon(None);
    assert_eq!(none.len(), 1024);
    assert_eq!(none[0], 0);
    assert_eq!(none[16 * 32 + 15], 0xFF2A_2A2E);
    assert_eq!(make_icon(Some(100))[16 * 32 + 15], 0xFF2F_A05C);
    assert_eq!(make_icon(Some(50))[21 * 32 + 15], 0xFF2F_A05C);
    assert_eq!(make_icon(Some(49))[21 * 32 + 15], 0xFFE8_930C);
    assert_eq!(make_icon(Some(20))[21 * 32 + 15], 0xFFE8_930C);
    assert_eq!(make_icon(Some(19))[21 * 32 + 15], 0xFFE5_484D);
    assert_eq!(make_icon(Some(0))[21 * 32 + 15], 0xFFE5_484D);
    assert_eq!(make_icon(Some(20))[12 * 32 + 15], 0xFF2A_2A2E);
}

#[test]
fn menus_mark_what_is_chosen() {
    let mut cfg = Settings::default();
    cfg.poll_seconds = 45;
    cfg.low_battery_alert = 25;
    let (ops, addrs) = show_menu(&cfg, &[], 77);
    assert!(addrs.is_empty());
    let radio = |menu: Menu| {
        ops.iter()
            .find_map(|op| match op {
                MenuOp::Radio { menu: m, id, .. } if *m == menu => Some(*id),
                _ => None,
            })
            .unwrap()
    };
    assert_eq!(radio(Menu::Font), MID_FONT_M);
    assert_eq!(radio(Menu::Low), MID_LOW20);
    assert_eq!(radio(Menu::Poll), MID_INT60);
    let grey = ops
        .iter()
        .any(|op| matches!(op, MenuOp::Item { label, grayed: true, .. } if label == "暂无设备"));
    assert!(grey);
    let many: Vec<Device> = (0..20).map(|i| dev(&format!("d{i}"), true, None)).collect();
    assert_eq!(show_menu(&cfg, &many, 100).1.len(), 16);
}

#[test]
fn texts_are_cut_to_their_buffer() {
    let mut buf = vec![9u16; 6];
    fill_wchars(&mut buf, "ab", 4);
    assert_eq!(buf, vec![97, 98, 9, 0, 9, 9]);
    fill_wchars(&mut buf, "abcdef", 4);
    assert_eq!(buf, vec![97, 98, 99, 0, 9, 9]);
    fill_wchars(&mut buf, "xyzxyz", 100);
    assert_eq!(buf[5], 0);
    let mut none: Vec<u16> = vec![];
    fill_wchars(&mut none, "a", 3);
    assert!(none.is_empty());
}

#[test]
fn autostart_entries_quote_the_path() {
    let bytes = autostart_value("C:/a b/键.exe");
    let want: Vec<u8> = "\"C:\\a b\\键.exe\"\0"
        .encode_utf16()
        .flat_map(|u| u.to_le_bytes())
        .collect();
    assert_eq!(bytes, want);
}

#[test]
fn pictures_are_written_from_the_bottom_up() {
    let px = [1u8, 2, 3, 4, 5, 6, 7, 8];
    let file = write_bmp(1, 2, &px).unwrap();
    assert_eq!(file.len(), 62);
    assert_eq!(&file[..6], &[b'B', b'M', 62, 0, 0, 0]);
    assert_eq!(&file[10..26], &[54, 0, 0, 0, 40, 0, 0, 0, 1, 0, 0, 0, 2, 0, 0, 0]);
    assert_eq!(&file[26..30], &[1, 0, 32, 0]);
    assert_eq!(&file[34..38], &[8, 0, 0, 0]);
    assert_eq!(&file[54..], &[5, 6, 7, 8, 1, 2, 3, 4]);
    assert_eq!(write_bmp(2, 2, &px), None);
    assert_eq!(write_bmp(0, 5, &px).unwrap().len(), 54);
}

#[test]
fn logs_stay_small() {
    assert!(checks_size(0) && checks_size(64) && !checks_size(63));
    assert!(!rotates(1 << 20) && rotates((1 << 20) + 1));
    assert_eq!(log_line(Some(170), "run: start"), "170 run: start");
    assert_eq!(log_line(None, "x"), " x");
}

fn args(list: &[&str]) -> Vec<String> {
    list.iter().map(|s| s.to_string()).collect()
}

#[test]
fn arguments_choose_a_command() {
    assert_eq!(parse_args(&args(&[])), Command::Run { demo: false });
    assert_eq!(parse_args(&args(&["--demo"])), Command::Run { demo: true });
    assert_eq!(parse_args(&args(&["-p"])), Command::Probe);
    assert_eq!(parse_args(&args(&["--probe", "demo"])), Command::Probe);
    assert_eq!(parse_args(&args(&["battprops"])), Command::BattProps);
    assert_eq!(parse_args(&args(&["hidlisten"])), Command::Listen(40));
    assert_eq!(parse_args(&args(&["hidlisten", "x", "7", "8"])), Command::Listen(7));
    assert_eq!(parse_args(&args(&["hidscan"])), Command::Scan);
    assert_eq!(parse_args(&args(&["--scan2"])), Command::Scan2);
    assert_eq!(parse_args(&args(&["feat"])), Command::Feat);
    assert_eq!(parse_args(&args(&["hidspy"])), Command::Spy);
    assert_eq!(parse_args(&args(&["via"])), Command::Via);
    assert_eq!(parse_args(&args(&["hidprobe", "nonsense"])), Command::HidProbe);
    assert_eq!(parse_args(&args(&["--p", "PROBE"])), Command::Run { demo: false });
}

#[test]
fn collections_and_devices_have_lines() {
    let mut d = unasked(
        "path",
        (0x0C45, 0xFEFE),
        (0xFF59, 0x61),
        (65, 64, 3),
        ("Prod".into(), "Maker".into()),
        "R/W",
    );
    d.battery = Some(9);
    d.feature_hex = "01".into();
    assert_eq!(
        collection_line(&d),
        "0C45:FEFE uP=FF59 u=0061 in=65 out=64 feat=3 acc=R/W prod=|Prod| mfg=|Maker| battery=Some(9) link=false bytes=[01] dbg=[] path=path"
    );
    assert_eq!(
        device_line(&dev("m", true, None)),
        "m connected=true battery=None status=ok kind=Mouse addr=m"
    );
}

#[test]
fn failures_of_known_receivers_are_notable() {
    let fails = args(&["hid#VID_373B: open failed", "hid#vid_1234: x", "hid#Vid_046d: y"]);
    assert_eq!(
        notable_failures(&fails),
        args(&["hid#VID_373B: open failed", "hid#Vid_046d: y"])
    );
    assert!(lower_is_notable("vid_046d"));
    assert!(!lower_is_notable("VID_046D"));
}

#[test]
fn failures_that_matter_are_listed() {
    let fails = vec!["x#VID_046D: no".to_string(), "other".to_string()];
    assert_eq!(
        failure_lines(&fails),
        vec!["--- 373B/046D 相关接口（被拒/无法打开） ---", "  x#VID_046D: no"]
    );
    let others = vec!["a".to_string(), "b".to_string()];
    assert_eq!(
        failure_lines(&others),
        vec!["--- 其他接口无法打开（系统独占，可忽略）: 2 个 ---"]
    );
    assert!(failure_lines(&Vec::new()).is_empty());
}
