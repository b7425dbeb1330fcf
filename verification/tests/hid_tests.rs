//! Receivers: their reports, their names, their links, and the rows they make up.

use bt_battery_bar::hid::{HidDevice, collections_to_devices};
use bt_battery_bar::links::{
    HidState, LiveLink, SECOND, apply_battery_cache, apply_x87_mode_transition,
    note_x87_key_activity, overlay_live, receiver_id, sonix_rf_alive,
};
use bt_battery_bar::model::Device;
use bt_battery_bar::receiver::{
    display_name, display_name_for, emit_kinds, hid_path_is_x87_24g, include_receiver,
    parse_hid_addr, receiver_kinds, vid_pid_from_hid_path,
};
use bt_battery_bar::reports::{
    build_compx_cmd, compx_checksum, hid_boolean_ok, hidp_success, looks_like_via_proto,
    parse_compx_battery, parse_eweadn_battery, parse_qmk_battery, parse_sonix_battery,
    sonix_status_request, voltage_to_percent,
};
use windows::Win32::Devices::HumanInterfaceDevice::HIDP_STATUS_SUCCESS;
use windows::Win32::Foundation::BOOLEAN;

const T0: u64 = 1_000 * SECOND;

#[test]
fn parse_eweadn_battery_accepts_live_frame() {
    let mut r = vec![0u8; 33];
    r[0] = 0x00;
    r[1] = 0x20;
    r[2] = 0x01;
    r[3] = 0x00;
    r[4] = 0x64;
    let sum: u8 = r[..32].iter().fold(0u8, |a, &b| a.wrapping_add(b));
    r[32] = sum;
    assert_eq!(parse_eweadn_battery(&r), Some(100));
    r[4] = 23;
    let sum2: u8 = r[..32].iter().fold(0u8, |a, &b| a.wrapping_add(b));
    r[32] = sum2;
    assert_eq!(parse_eweadn_battery(&r), Some(23));
}

#[test]
fn parse_eweadn_battery_rejects_other_commands_and_bad_checksum() {
    let mut r = vec![0u8; 33];
    r[1] = 0x0F;
    r[4] = 17;
    assert_eq!(parse_eweadn_battery(&r), None);
    let mut b = vec![0u8; 33];
    b[1] = 0x20;
    b[4] = 50;
    b[32] = 0xAA;
    assert_eq!(parse_eweadn_battery(&b), None);
    let mut c = vec![0u8; 33];
    c[1] = 0x20;
    c[4] = 101;
    c[32] = c[..32].iter().fold(0u8, |a, &x| a.wrapping_add(x));
    assert_eq!(parse_eweadn_battery(&c), None);
}

#[test]
fn boolean_ok_matches_win32_true_false() {
    assert!(hid_boolean_ok(BOOLEAN(1).0));
    assert!(hid_boolean_ok(BOOLEAN(0xFF).0));
    assert!(!hid_boolean_ok(BOOLEAN(0).0));
}

#[test]
fn boolean_old_operator_was_always_true() {
    let wrong = |v: u8| (!v) != 0;
    assert!(wrong(0));
    assert!(wrong(1));
    assert!(!hid_boolean_ok(BOOLEAN(0).0));
}

#[test]
fn hidp_success_is_not_zero() {
    assert!(!hidp_success(0));
    assert!(hidp_success(HIDP_STATUS_SUCCESS.0));
}

#[test]
fn compx_checksum_and_packet() {
    let cmd = build_compx_cmd(0x08, 17);
    assert_eq!(cmd.len(), 17);
    assert_eq!(cmd[0], 0x08);
    assert_eq!(cmd[1], 0x04);
    assert_eq!(cmd[16], compx_checksum(&cmd[..16]));
    assert_eq!(cmd[16], 0x55u8.wrapping_sub(0x08u8.wrapping_add(0x04)));
}

#[test]
fn parse_compx_battery_ok() {
    let mut r = vec![0u8; 17];
    r[0] = 0x08;
    r[1] = 0x04;
    r[6] = 67;
    r[7] = 0;
    assert_eq!(parse_compx_battery(&r), Some((67, false)));
    r[7] = 1;
    assert_eq!(parse_compx_battery(&r), Some((67, true)));
}

#[test]
fn parse_compx_battery_rejects_garbage() {
    assert_eq!(parse_compx_battery(&[0x08, 0x99, 0, 0, 0, 0, 10, 0]), None);
    assert_eq!(parse_compx_battery(&[0x01, 0x04, 0, 0, 0, 0, 10, 0]), None);
    let mut r = vec![0u8; 17];
    r[0] = 0x08;
    r[1] = 0x04;
    r[6] = 200;
    assert_eq!(parse_compx_battery(&r), None);
}

#[test]
fn include_compx_even_without_vendor_page_listed() {
    let members = [(0x0001, 0x0002), (0x0001, 0x0006)];
    assert!(include_receiver(
        0x373B,
        0x101B,
        "ATK Mouse 8K Dongle",
        r"\\?\hid#vid_373b",
        &members
    ));
}

#[test]
fn skip_virtual_and_i2c_noise() {
    let members = [(0x0001, 0x0006), (0x0001, 0x0002), (0xFF00, 0x0001)];
    assert!(!include_receiver(
        0x00FF,
        0x0001,
        "Virtual Multitouch Device",
        r"\\?\hid#gvinput",
        &members
    ));
    assert!(!include_receiver(
        0x2808,
        0x0001,
        "HIDI2C Device",
        r"\\?\hid#asuf1204",
        &members
    ));
}

#[test]
fn include_named_24g_dongle() {
    let members = [(0x0001, 0x0002), (0x0001, 0x0006), (0xFF59, 0x0061)];
    assert!(include_receiver(
        0x0C45,
        0xFEFE,
        "2.4G Dongle",
        r"\\?\hid#vid_0c45&pid_fefe",
        &members
    ));
    assert!(!include_receiver(
        0x0C45,
        0xFEFE,
        "USB Camera",
        r"\\?\hid#vid_0c45&pid_fefe",
        &members
    ));
}

#[test]
fn generic_receiver_needs_vendor_plus_mouse_or_keyboard() {
    assert!(include_receiver(
        0x1234,
        0x0001,
        "Widget",
        r"\\?\hid#vid_1234",
        &[(0x0001, 0x0002), (0xFF02, 0x0002)]
    ));
    assert!(!include_receiver(
        0x1234,
        0x0001,
        "Widget",
        r"\\?\hid#vid_1234",
        &[(0x0001, 0x0002)]
    ));
    assert!(!include_receiver(
        0x1234,
        0x0001,
        "Widget",
        r"\\?\hid#vid_1234",
        &[(0xFF02, 0x0002)]
    ));
}

#[test]
fn kinds_from_usages() {
    assert_eq!(
        receiver_kinds(&[(0x0001, 0x0002), (0x0001, 0x0006), (0xFF02, 0x0002)]),
        vec!["Mouse", "Keyboard"]
    );
    assert_eq!(receiver_kinds(&[(0xFF02, 0x0002)]), vec!["Unknown"]);
}

#[test]
fn display_name_appends_kind() {
    assert_eq!(display_name("2.4G Receiver", "Mouse"), "2.4G Receiver 鼠标");
    assert_eq!(display_name("", "Keyboard"), "2.4G 键盘");
    assert_eq!(display_name("HID Keyboard", "Keyboard"), "HID Keyboard");
    assert_eq!(
        display_name("ATK Mouse 8K Dongle", "Keyboard"),
        "ATK Mouse 8K Dongle 键盘"
    );
    assert_eq!(
        display_name("ATK Mouse 8K Dongle", "Mouse"),
        "ATK Mouse 8K Dongle"
    );
}

#[test]
fn parse_compx_live_atk_8k_packet() {
    let r = [
        0x08, 0x04, 0x00, 0x00, 0x00, 0x02, 0x32, 0x00, 0x0F, 0x2B, 0x00, 0x00, 0x00, 0x00, 0x00,
        0x00, 0xDB,
    ];
    assert_eq!(parse_compx_battery(&r), Some((50, false)));
}

#[test]
fn parse_compx_prefers_reported_percent_over_voltage_table() {
    let r = [
        0x08, 0x04, 0x00, 0x00, 0x00, 0x02, 0x5F, 0x00, 0x10, 0x1A, 0x00, 0x00, 0x00, 0x00, 0x00,
        0x00, 0xBE,
    ];
    assert_eq!(parse_compx_battery(&r), Some((95, false)));
}

#[test]
fn parse_compx_falls_back_to_voltage_when_percent_missing() {
    let mut r = vec![0u8; 17];
    r[0] = 0x08;
    r[1] = 0x04;
    r[6] = 0;
    r[7] = 1;
    r[8] = 0x0F;
    r[9] = 0x2B;
    assert_eq!(parse_compx_battery(&r), Some((50, true)));
}

#[test]
fn voltage_to_percent_table() {
    assert_eq!(voltage_to_percent(3049, false), 0);
    assert_eq!(voltage_to_percent(4110, false), 100);
    assert_eq!(voltage_to_percent(4110, true), 99);
    assert_eq!(voltage_to_percent(3883, false), 50);
}

#[test]
fn parse_sonix_x87_status() {
    let mut r = vec![0u8; 65];
    r[1] = 0x0F;
    r[2] = 0x01;
    r[3] = 0x01;
    r[4] = 0x11;
    assert_eq!(parse_sonix_battery(&r), None);
    r[1] = 0x99;
    r[4] = 50;
    assert_eq!(parse_sonix_battery(&r), None);
    let live = {
        let mut p = vec![0u8; 65];
        p[1] = 0x0F;
        p[2] = 0x01;
        p[3] = 0xFE;
        p[4] = 0x0E;
        p
    };
    assert_eq!(parse_sonix_battery(&live), Some(14));
    let rid_f = vec![0x0F, 0x01, 0xFE, 42, 0];
    assert_eq!(parse_sonix_battery(&rid_f), Some(42));
}

#[test]
fn sonix_status_request_asks_for_0f01() {
    let r = sonix_status_request(65);
    assert_eq!(r.len(), 65);
    assert_eq!(&r[..3], &[0x00, 0x0F, 0x01]);
    assert!(r[3..].iter().all(|&b| b == 0));
}

#[test]
fn parse_qmk_wireless_battery() {
    assert_eq!(parse_qmk_battery(&[0x00, 0xA4, 63]), Some(63));
    assert_eq!(parse_qmk_battery(&[0xA4, 8, 0]), Some(8));
    assert_eq!(parse_qmk_battery(&[0x00, 0xA4, 101]), None);
    assert_eq!(parse_qmk_battery(&[0x00, 0x01, 0x09]), None);
}

#[test]
fn emit_kinds_picks_real_device() {
    let both = [(0x0001, 0x0002), (0x0001, 0x0006), (0xFF02, 0x0002)];
    assert_eq!(emit_kinds(0x373B, &both), vec!["Mouse"]);
    assert_eq!(emit_kinds(0x0C45, &both), vec!["Keyboard"]);
    assert_eq!(emit_kinds(0x1234, &both), vec!["Mouse", "Keyboard"]);
}

#[test]
fn display_name_eweadn_x87() {
    assert_eq!(
        display_name_for(0x0C45, 0xFEFE, "2.4G Dongle", "Keyboard"),
        "前行者 X87 2.4G"
    );
    assert_eq!(
        display_name_for(0x0C45, 0x8006, "X87", "Keyboard"),
        "前行者 X87 有线"
    );
    assert_eq!(
        parse_hid_addr("hid:373B:101B:Mouse"),
        Some((0x373B, 0x101B))
    );
}

#[test]
fn vid_pid_from_hid_path_parses_x87_dongle() {
    let p = r"\\?\hid#vid_0c45&pid_fefe&mi_04#9&32b46102&0&0000#{4d1e55b2-f16f-11cf-88cb-001111000030}";
    assert_eq!(vid_pid_from_hid_path(p), Some((0x0C45, 0xFEFE)));
    assert!(hid_path_is_x87_24g(p));
    assert!(!hid_path_is_x87_24g(
        r"\\?\hid#vid_0c45&pid_8006&mi_00#9&1dc44599&0&0000#{4d1e55b2-f16f-11cf-88cb-001111000030}"
    ));
    assert_eq!(
        vid_pid_from_hid_path(r"\\?\hid#vid_373b&pid_101b&mi_01&col05#9&f987dd2&0&0004"),
        Some((0x373B, 0x101B))
    );
}

#[test]
fn key_activity_marks_24g_connected_without_battery() {
    let mut state = HidState::new();
    assert!(note_x87_key_activity(&mut state, T0));
    assert!(sonix_rf_alive(&mut state, 0x0C45, 0xFEFE, false, T0));
    assert!(!note_x87_key_activity(&mut state, T0));
}

#[test]
fn live_link_packet_connects_until_ttl() {
    let mut link = LiveLink::default();
    link.on_battery(17, T0);
    assert_eq!(link.battery, Some(17));
    assert!(link.connected(T0, 90 * SECOND));
    assert!(link.connected(T0 + 89 * SECOND, 90 * SECOND));
    assert!(!link.connected(T0 + 91 * SECOND, 90 * SECOND));
}

#[test]
fn live_link_optimistic_touch_connects_without_battery() {
    let mut link = LiveLink::default();
    link.touch_rf(T0);
    assert!(link.connected(T0, 90 * SECOND));
    assert_eq!(link.battery, None);
}

#[test]
fn live_link_wired_is_connected_without_rf() {
    let mut link = LiveLink::default();
    link.set_wired(true);
    assert!(link.connected(T0, SECOND));
    link.set_wired(false);
    assert!(!link.connected(T0, SECOND));
}

#[test]
fn overlay_live_applies_rf_battery_and_link() {
    let mut state = HidState::new();
    let mut link = LiveLink::default();
    link.on_battery(22, T0);
    state.links.insert(receiver_id(0x0C45, 0xFEFE), link);
    let mut raw = vec![
        dummy_hid(0x0C45, 0xFEFE, 0x0001, 0x0006, "2.4G Dongle", None),
        dummy_hid(0x0C45, 0xFEFE, 0xFF59, 0x0061, "2.4G Dongle", None),
    ];
    overlay_live(&state, &mut raw, T0);
    assert_eq!(raw[1].battery, Some(22));
    assert!(raw.iter().any(|d| d.link_up));
    let devs = collections_to_devices(&raw);
    assert_eq!(devs.len(), 1);
    assert!(devs[0].connected);
    assert_eq!(devs[0].battery, Some(22));
    assert_eq!(devs[0].name, "前行者 X87 2.4G");
}

fn dummy_hid(
    vid: u16,
    pid: u16,
    page: u16,
    usage: u16,
    product: &str,
    battery: Option<u8>,
) -> HidDevice {
    dummy_hid_ex(vid, pid, page, usage, product, battery, false)
}

fn dummy_hid_ex(
    vid: u16,
    pid: u16,
    page: u16,
    usage: u16,
    product: &str,
    battery: Option<u8>,
    link_up: bool,
) -> HidDevice {
    HidDevice {
        path: format!("\\\\?\\hid#vid_{vid:04x}&pid_{pid:04x}"),
        vid,
        pid,
        usage_page: page,
        usage,
        input_len: 0,
        output_len: 0,
        feature_len: 0,
        product: product.into(),
        manufacturer: String::new(),
        access: "R/W",
        battery,
        feature_hex: String::new(),
        debug: String::new(),
        link_up,
    }
}

#[test]
fn group_atk_mouse_and_x87_keyboard() {
    let raw = vec![
        dummy_hid(0x373B, 0x101B, 0x0001, 0x0002, "ATK Mouse 8K Dongle", None),
        dummy_hid(0x373B, 0x101B, 0x0001, 0x0006, "ATK Mouse 8K Dongle", None),
        dummy_hid(0x373B, 0x101B, 0xFF02, 0x0002, "ATK Mouse 8K Dongle", Some(50)),
        dummy_hid(0x0C45, 0xFEFE, 0x0001, 0x0006, "2.4G Dongle", None),
        dummy_hid(0x0C45, 0xFEFE, 0x0001, 0x0002, "2.4G Dongle", None),
        dummy_hid_ex(0x0C45, 0xFEFE, 0xFF59, 0x0061, "2.4G Dongle", Some(17), true),
    ];
    let mut devs = collections_to_devices(&raw);
    devs.sort_by(|a, b| a.address.cmp(&b.address));
    assert_eq!(devs.len(), 2);
    assert_eq!(devs[0].name, "前行者 X87 2.4G");
    assert_eq!(devs[0].kind, "Keyboard");
    assert_eq!(devs[0].battery, Some(17));
    assert!(devs[0].connected);
    assert_eq!(devs[1].name, "ATK Mouse 8K Dongle");
    assert_eq!(devs[1].kind, "Mouse");
    assert_eq!(devs[1].battery, Some(50));
}

#[test]
fn skip_unrelated_sonix_keeps_x87_dongle() {
    let members_kb = [(0x0001, 0x0006), (0xFF00, 0x0001)];
    assert!(!include_receiver(
        0x0C45,
        0x8001,
        "EWEADN X87",
        r"\\?\hid#vid_0c45&pid_8001",
        &members_kb
    ));
    assert!(include_receiver(
        0x0C45,
        0xFEFE,
        "USB Composite Device",
        r"\\?\hid#vid_0c45&pid_fefe",
        &members_kb
    ));
    assert!(include_receiver(
        0x0C45,
        0x8006,
        "X87",
        r"\\?\hid#vid_0c45&pid_8006",
        &members_kb
    ));
    let raw = vec![
        dummy_hid_ex(0x0C45, 0xFEFE, 0x0001, 0x0006, "2.4G Dongle", None, true),
        dummy_hid_ex(0x0C45, 0xFEFE, 0xFF59, 0x0061, "2.4G Dongle", Some(17), true),
        dummy_hid(0x0C45, 0x8001, 0x0001, 0x0006, "EWEADN X87", None),
        dummy_hid(0x0C45, 0x8001, 0xFF00, 0x0001, "EWEADN X87", None),
    ];
    let devs = collections_to_devices(&raw);
    assert_eq!(devs.len(), 1);
    assert_eq!(devs[0].name, "前行者 X87 2.4G");
    assert_eq!(devs[0].address, "hid:0C45:FEFE:Keyboard");
    assert!(devs[0].connected);
}

#[test]
fn leftover_sonix_battery_is_not_connected() {
    let raw = vec![
        dummy_hid(0x0C45, 0xFEFE, 0x0001, 0x0006, "2.4G Dongle", None),
        dummy_hid(0x0C45, 0xFEFE, 0xFF59, 0x0061, "2.4G Dongle", Some(17)),
    ];
    let devs = collections_to_devices(&raw);
    assert_eq!(devs.len(), 1);
    assert!(!devs[0].connected);
    assert_eq!(devs[0].battery, Some(17));
    assert_eq!(devs[0].status, "offline");
}

#[test]
fn rf_status_packet_marks_24g_connected() {
    let raw = vec![
        dummy_hid(0x0C45, 0xFEFE, 0x0001, 0x0006, "2.4G Dongle", None),
        dummy_hid_ex(0x0C45, 0xFEFE, 0xFF59, 0x0061, "2.4G Dongle", Some(17), true),
    ];
    let devs = collections_to_devices(&raw);
    assert_eq!(devs.len(), 1);
    assert!(devs[0].connected);
    assert_eq!(devs[0].status, "ok");
    assert_eq!(devs[0].battery, Some(17));
}

#[test]
fn sonix_rf_alive_remembers_last_packet() {
    let mut state = HidState::new();
    assert!(!sonix_rf_alive(&mut state, 0x0C45, 0xABCD, false, T0));
    assert!(sonix_rf_alive(&mut state, 0x0C45, 0xABCD, true, T0));
    assert!(sonix_rf_alive(&mut state, 0x0C45, 0xABCD, false, T0));
}

#[test]
fn wired_x87_is_connected_and_merges_with_dongle() {
    let raw = vec![
        dummy_hid(0x0C45, 0xFEFE, 0x0001, 0x0006, "2.4G Dongle", None),
        dummy_hid(0x0C45, 0xFEFE, 0xFF59, 0x0061, "2.4G Dongle", Some(17)),
        dummy_hid(0x0C45, 0x8006, 0x0001, 0x0006, "X87", None),
        dummy_hid(0x0C45, 0x8006, 0xFF13, 0x0001, "X87", None),
    ];
    let devs = collections_to_devices(&raw);
    assert_eq!(devs.len(), 1);
    assert_eq!(devs[0].name, "前行者 X87 有线");
    assert_eq!(devs[0].address, "hid:0C45:FEFE:Keyboard");
    assert!(devs[0].connected);
    assert_eq!(devs[0].status, "ok");
    assert_eq!(devs[0].battery, Some(17));
}

#[test]
fn wired_x87_alone_uses_dongle_address() {
    let raw = vec![
        dummy_hid(0x0C45, 0x8006, 0x0001, 0x0006, "X87", None),
        dummy_hid(0x0C45, 0x8006, 0xFF13, 0x0001, "X87", None),
    ];
    let devs = collections_to_devices(&raw);
    assert_eq!(devs.len(), 1);
    assert_eq!(devs[0].address, "hid:0C45:FEFE:Keyboard");
    assert_eq!(devs[0].name, "前行者 X87 有线");
    assert!(devs[0].connected);
    assert_eq!(devs[0].battery, None);
}

#[test]
fn via_proto_response_is_recognized() {
    assert!(looks_like_via_proto(&[0x00, 0x01, 0x09, 0x00]));
    assert!(!looks_like_via_proto(&[0x00, 0x0F, 0x01, 0x01, 0x11]));
    assert!(!looks_like_via_proto(&[0x00, 0x01, 0x00, 0x00]));
    assert!(!looks_like_via_proto(&[]));
}

fn x87(connected: bool) -> Device {
    Device {
        name: "前行者 X87".into(),
        address: "hid:0C45:FEFE:Keyboard".into(),
        is_le: false,
        connected,
        battery: None,
        status: if connected { "ok" } else { "offline" },
        kind: "Keyboard",
    }
}

#[test]
fn unplug_wired_x87_marks_dongle_connected() {
    let mut state = HidState::new();
    let mut wired = vec![x87(true)];
    apply_x87_mode_transition(&mut state, &mut wired, true, T0);
    let mut rf = vec![x87(false)];
    apply_x87_mode_transition(&mut state, &mut rf, false, T0);
    assert!(rf[0].connected);
    assert_eq!(rf[0].status, "ok");
}

#[test]
fn dongle_without_live_battery_is_offline() {
    let raw = vec![
        dummy_hid(0x0C45, 0xFEFE, 0x0001, 0x0006, "2.4G Dongle", None),
        dummy_hid(0x0C45, 0xFEFE, 0xFF59, 0x0061, "2.4G Dongle", None),
    ];
    let devs = collections_to_devices(&raw);
    assert_eq!(devs.len(), 1);
    assert!(!devs[0].connected);
    assert_eq!(devs[0].battery, None);
    assert_eq!(devs[0].status, "offline");
}

#[test]
fn stale_cache_does_not_mark_dongle_connected() {
    let mut state = HidState::new();
    state.cache.insert(receiver_id(0x0C45, 0xFEFE), (17, T0));
    let mut devs = vec![x87(false)];
    apply_battery_cache(&mut state, &mut devs, T0);
    assert!(!devs[0].connected);
    assert_eq!(devs[0].battery, None);
    assert_eq!(devs[0].status, "offline");
}

#[test]
fn cache_does_not_clear_wired_connection() {
    let mut state = HidState::new();
    state.cache.insert(receiver_id(0x0C45, 0xFEFE), (17, T0));
    let mut devs = vec![x87(true)];
    apply_battery_cache(&mut state, &mut devs, T0);
    assert!(devs[0].connected);
    assert_eq!(devs[0].battery, Some(17));
    assert_eq!(devs[0].status, "ok");
}
