//! Bluetooth addresses, work sharing, HID++ frames, device rows, colours, the log.

use bt_battery_bar::btreader::{bt_addr_from_instance_id, normalize_bt_addr, split_for_workers};
use bt_battery_bar::hidpp::{build_req, frame_is_short, parse_resp};
use bt_battery_bar::model::{Device, dedup_by_name};
use bt_battery_bar::outputs::rotated_name;
use bt_battery_bar::theme::{CHROMA, detect, rgb};

#[test]
fn parse_handsfree_and_dev_instance_ids() {
    let hfp = r"BTHENUM\{0000111E-0000-1000-8000-00805F9B34FB}_LOCALMFG&0002\8&129DF44A&0&0CAEBDBD05CF_C00000000";
    assert_eq!(
        bt_addr_from_instance_id(hfp).as_deref(),
        Some("0C:AE:BD:BD:05:CF")
    );
    let dev = r"BTHENUM\DEV_0CAEBDBD05CF\8&129DF44A&0&BLUETOOTHDEVICE_0CAEBDBD05CF";
    assert_eq!(
        bt_addr_from_instance_id(dev).as_deref(),
        Some("0C:AE:BD:BD:05:CF")
    );
    assert_eq!(normalize_bt_addr("0c:ae:bd:bd:05:cf"), "0CAEBDBD05CF");
}

#[test]
fn split_for_workers_distributes_all_items() {
    let items: Vec<u32> = (0..7).collect();
    let chunks = split_for_workers(&items, 3);
    let mut all: Vec<u32> = chunks.iter().flatten().copied().collect();
    all.sort();
    assert_eq!(all, items);
    assert_eq!(chunks.len(), 3);
}

#[test]
fn split_for_workers_empty_and_single() {
    let empty: Vec<u32> = Vec::new();
    assert!(split_for_workers(&empty, 3).is_empty());
    let one = split_for_workers(&[42u32], 4);
    assert_eq!(one.len(), 1);
    assert_eq!(one[0], vec![42]);
}

#[test]
fn rotation_target_sits_next_to_the_log() {
    let p = r"C:\x\BtBatteryBar\debug.log";
    let (parent, name) = p.rsplit_once('\\').unwrap();
    assert_eq!(rotated_name(name).as_deref(), Some("debug.log.1"));
    let rotated = format!(r"{parent}\{}", rotated_name(name).unwrap());
    assert_eq!(rotated, r"C:\x\BtBatteryBar\debug.log.1");
    assert_eq!(rotated.rsplit_once('\\').map(|(dir, _)| dir), Some(parent));
}

#[test]
fn rotation_takes_file_names_only() {
    assert_eq!(rotated_name("debug").as_deref(), Some("debug.log.1"));
    assert_eq!(rotated_name(".hidden").as_deref(), Some(".hidden.log.1"));
    assert_eq!(rotated_name("a.b.c").as_deref(), Some("a.b.log.1"));
    assert_eq!(rotated_name("..a").as_deref(), Some("..log.1"));
    for no_file in ["", ".", "..", "a/", r"a\", "a/b.log"] {
        assert_eq!(rotated_name(no_file), None);
    }
}

#[test]
fn short_request_frame_layout() {
    let req = build_req(true, 0xFF, 0x00, 0x00, &[0x10, 0x02]);
    assert_eq!(req.len(), 7);
    assert_eq!(req[0], 0x10);
    assert_eq!(req[1], 0xFF);
    assert_eq!(req[2], 0x00);
    assert_eq!(req[3], 0x00);
    assert_eq!(&req[4..6], &[0x10, 0x02]);
}

#[test]
fn long_request_frame_layout() {
    let req = build_req(false, 0x01, 0x07, 0x01, &[]);
    assert_eq!(req.len(), 20);
    assert_eq!(req[0], 0x11);
    assert_eq!(req[3], 0x10);
}

#[test]
fn parse_resp_matches_frame_identity() {
    let buf = [0x10u8, 0xFF, 0x07, 0x10, 0x55, 0x00, 0x00];
    let resp = parse_resp(&buf, 0xFF, 0x07, 0x01).unwrap();
    assert_eq!(resp[0], 0x55);
    assert!(parse_resp(&buf, 0x01, 0x07, 0x01).is_none());
    assert!(parse_resp(&buf, 0xFF, 0x07, 0x00).is_none());
    assert!(parse_resp(&[0x01, 2, 3, 4, 5], 0xFF, 0x07, 0x01).is_none());
}

#[test]
fn parse_resp_rejects_short_frames() {
    assert!(parse_resp(&[0x10, 0xFF, 0x00], 0xFF, 0x00, 0x00).is_none());
}

#[test]
fn frame_length_matches_collection_report_size() {
    assert_eq!(frame_is_short(7), Some(true));
    assert_eq!(frame_is_short(0), None);
    assert_eq!(frame_is_short(6), None);
    assert_eq!(frame_is_short(20), Some(false));
    assert_eq!(frame_is_short(33), Some(false));
    let long = build_req(frame_is_short(20).unwrap(), 0xFF, 0x00, 0x00, &[0x10, 0x02]);
    assert_eq!(long.len(), 20);
    assert_eq!(long[0], 0x11);
}

fn d(name: &str, addr: &str, connected: bool, battery: Option<u8>) -> Device {
    Device {
        name: name.into(),
        address: addr.into(),
        is_le: !addr.starts_with("hid:"),
        connected,
        battery,
        status: "ok",
        kind: "Keyboard",
    }
}

#[test]
fn dedup_keeps_live_hid_over_bluetooth_copy() {
    let out = dedup_by_name(vec![
        d("前行者 X87", "AA:BB:CC:DD:EE:FF", false, None),
        d("前行者 X87", "hid:0C45:FEFE:Keyboard", true, Some(17)),
    ]);
    assert_eq!(out.len(), 1);
    assert_eq!(out[0].address, "hid:0C45:FEFE:Keyboard");
    assert_eq!(out[0].battery, Some(17));
}

#[test]
fn dedup_strips_24g_and_wired_suffix() {
    let out = dedup_by_name(vec![
        d("前行者 X87", "AA:BB:CC:DD:EE:FF", false, None),
        d("前行者 X87 2.4G", "hid:0C45:FEFE:Keyboard", true, Some(17)),
    ]);
    assert_eq!(out.len(), 1);
    assert_eq!(out[0].address, "hid:0C45:FEFE:Keyboard");
    let out2 = dedup_by_name(vec![
        d("前行者 X87 有线", "hid:0C45:FEFE:Keyboard", true, None),
        d("前行者 X87 2.4G", "AA:BB:CC:DD:EE:FF", false, Some(10)),
    ]);
    assert_eq!(out2.len(), 1);
    assert_eq!(out2[0].address, "hid:0C45:FEFE:Keyboard");
}

#[test]
fn rgb_packs_colorref_bgr() {
    assert_eq!(rgb(0xE8, 0x3A, 0x3A), 0x003A_3A_E8);
    assert_eq!(rgb(0x1F, 0xB8, 0x54), 0x0054_B8_1F);
    assert_eq!(CHROMA, 0x00FF_00_FF);
}

#[test]
fn overlay_uses_bright_white_text() {
    let t = detect();
    assert_eq!(t.fg, rgb(0xFF, 0xFF, 0xFF));
    assert_ne!(t.fg, t.fg_outline);
}
