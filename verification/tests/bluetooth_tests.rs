//! What a Bluetooth scan makes of the devices it finds.

use bt_battery_bar::btreader::{
    ClassicInfo, HfpEntry, KICK_GAP, LeInfo, NOTIFY_TTL, OP_TIMEOUT, OpStatus, OpStep, RefreshGate,
    enumerate, format_addr, hfp_battery_map, may_subscribe, notify_cached, op_wait, pick_name,
    scan_chunk, visit_classic, visit_le,
};
use bt_battery_bar::textmap::TextMap;

const T0: u64 = 5_000_000_000_000;

fn le(address: u64, name: &str, connected: Option<bool>, battery: Option<u8>) -> LeInfo {
    LeInfo {
        address,
        info_name: Some(name.to_string()),
        dev_name: None,
        connected,
        battery,
    }
}

#[test]
fn addresses_have_six_pairs() {
    assert_eq!(format_addr(0x0CAE_BDBD_05CF), "0C:AE:BD:BD:05:CF");
    assert_eq!(format_addr(1), "00:00:00:00:00:01");
    assert_eq!(format_addr(0xFFFF_0CAE_BDBD_05CF), format_addr(0x0CAE_BDBD_05CF));
}

#[test]
fn connected_devices_show_what_was_read_or_pushed() {
    let mut notify: TextMap<(u8, u64)> = TextMap::new();
    notify.insert("00:00:00:00:00:02", (66, T0));
    let mut seen = Vec::new();
    let a = visit_le(&le(1, "Mouse", Some(true), Some(40)), &mut seen, &notify, T0).unwrap();
    assert_eq!((a.connected, a.battery, a.status, a.kind), (true, Some(40), "ok", "Mouse"));
    let b = visit_le(&le(2, "Pen", Some(true), None), &mut seen, &notify, T0).unwrap();
    assert_eq!(b.battery, Some(66));
    let c = visit_le(&le(3, "Pen", Some(true), None), &mut seen, &notify, T0).unwrap();
    assert_eq!((c.battery, c.status), (None, "no-battery"));
    let d = visit_le(&le(4, "Pen", Some(false), Some(9)), &mut seen, &notify, T0).unwrap();
    assert_eq!((d.connected, d.battery, d.status), (false, None, "offline"));
    assert!(visit_le(&le(1, "Again", Some(true), None), &mut seen, &notify, T0).is_none());
    assert!(visit_le(&le(5, "Gone", None, None), &mut seen, &notify, T0).is_none());
    assert_eq!(seen.len(), 5);
}

#[test]
fn pushed_batteries_expire() {
    let mut notify: TextMap<(u8, u64)> = TextMap::new();
    notify.insert("A", (66, T0));
    assert_eq!(notify_cached(&notify, "A", T0 + NOTIFY_TTL - 1), Some(66));
    assert_eq!(notify_cached(&notify, "A", T0 + NOTIFY_TTL), None);
    assert_eq!(notify_cached(&notify, "B", T0), None);
}

#[test]
fn names_come_from_the_listing_unless_it_has_none() {
    let info = Some("info".to_string());
    let device = Some("device".to_string());
    assert_eq!(pick_name(&info, &device), "info");
    assert_eq!(pick_name(&Some("  ".to_string()), &device), "device");
    assert_eq!(pick_name(&None, &device), "device");
    assert_eq!(pick_name(&None, &None), "");
}

#[test]
fn classic_devices_get_their_battery_from_the_handsfree_profile() {
    let id = r"BTHENUM\{0000111E-0000-1000-8000-00805F9B34FB}_LOCALMFG&0002\8&129DF44A&0&0CAEBDBD05CF_C00000000";
    let entry = |is_byte: bool, value: u8| HfpEntry {
        instance: id.encode_utf16().collect(),
        is_byte,
        value,
    };
    let map = hfp_battery_map(&vec![entry(true, 70)]);
    let none = hfp_battery_map(&vec![entry(false, 70)]);
    let classic = |connected: bool| ClassicInfo {
        address: 0x0CAE_BDBD_05CF,
        info_name: Some("Headset".to_string()),
        dev_name: None,
        connected: Some(connected),
    };
    let notify: TextMap<(u8, u64)> = TextMap::new();
    let no_le: Vec<Vec<LeInfo>> = vec![];
    let rows = enumerate(&no_le, &vec![classic(true)], &notify, &map, T0);
    assert_eq!(rows.len(), 1);
    assert_eq!((rows[0].battery, rows[0].status), (Some(70), "ok"));
    let blank = enumerate(&no_le, &vec![classic(true)], &notify, &none, T0);
    assert_eq!(blank[0].battery, None);
    let off = enumerate(&no_le, &vec![classic(false)], &notify, &map, T0);
    assert_eq!((off[0].connected, off[0].battery), (false, None));
    let mut seen = vec!["0C:AE:BD:BD:05:CF".to_string()];
    assert!(visit_classic(&classic(true), &mut seen).is_none());
}

#[test]
fn scans_list_each_device_once() {
    let notify: TextMap<(u8, u64)> = TextMap::new();
    let hfp: TextMap<u8> = TextMap::new();
    let chunk = vec![
        le(1, "Mouse", Some(true), Some(40)),
        le(1, "Mouse", Some(true), Some(41)),
    ];
    assert_eq!(scan_chunk(&chunk, &notify, T0).len(), 1);
    let other = vec![le(2, "Alpha", Some(true), None), le(3, "Zed", Some(false), None)];
    let rows = enumerate(&vec![chunk, other], &vec![], &notify, &hfp, T0);
    let names: Vec<&str> = rows.iter().map(|d| d.name.as_str()).collect();
    assert_eq!(names, vec!["Alpha", "Mouse", "Zed"]);
}

#[test]
fn operations_are_waited_for() {
    assert_eq!(op_wait(OpStatus::Completed, T0, T0, OP_TIMEOUT), OpStep::TakeResult);
    assert_eq!(op_wait(OpStatus::Failed, T0, T0, OP_TIMEOUT), OpStep::GiveUp);
    assert_eq!(op_wait(OpStatus::Started, T0, T0, OP_TIMEOUT), OpStep::Wait);
    assert_eq!(
        op_wait(OpStatus::Started, T0, T0 + OP_TIMEOUT, OP_TIMEOUT),
        OpStep::CancelAndGiveUp
    );
}

#[test]
fn refreshes_keep_a_distance() {
    let mut gate = RefreshGate::new();
    assert!(gate.kick_refresh(T0));
    assert!(!gate.kick_refresh(T0 + KICK_GAP - 1));
    assert!(gate.kick_refresh(T0 + KICK_GAP));
}

#[test]
fn subscriptions_need_a_notifying_characteristic() {
    assert!(may_subscribe(false, 1, 1, 0x12));
    assert!(!may_subscribe(true, 1, 1, 0x12));
    assert!(!may_subscribe(false, 0, 1, 0x12));
    assert!(!may_subscribe(false, 1, 0, 0x12));
    assert!(!may_subscribe(false, 1, 1, 0x02));
}
