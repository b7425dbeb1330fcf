//! Settings, and how they read back from a file.

use bt_battery_bar::model::Device;
use bt_battery_bar::settings::{
    DEFAULT_TEXT_PCT, KnownDevice, MAX_KNOWN_DEVICES, MAX_TEXT_PCT, MIN_TEXT_PCT, Settings,
};
use serde_json::Value;

fn dev(name: &str, addr: &str, connected: bool, battery: Option<u8>) -> Device {
    Device {
        name: name.into(),
        address: addr.into(),
        is_le: false,
        connected,
        battery,
        status: if connected { "ok" } else { "offline" },
        kind: "Mouse",
    }
}

#[test]
fn hidden_address_is_not_shown() {
    let mut s = Settings::default();
    assert!(s.is_shown("hid:373B:101B:Mouse"));
    s.set_shown("hid:373B:101B:Mouse", false);
    assert!(!s.is_shown("hid:373B:101B:Mouse"));
    assert!(!s.is_shown("HID:373B:101B:Mouse"));
    s.set_shown("hid:373B:101B:Mouse", true);
    assert!(s.is_shown("hid:373B:101B:Mouse"));
    assert!(s.hidden_addresses.is_empty());
}

#[test]
fn filter_respects_hidden_and_offline() {
    let live = vec![
        dev("Mouse", "hid:m", true, Some(50)),
        dev("Headset", "bt:h", false, None),
    ];
    let mut s = Settings::default();
    let all = s.filter_for_strip(&live);
    assert_eq!(all.len(), 2);

    s.show_offline = false;
    let online = s.filter_for_strip(&live);
    assert_eq!(online.len(), 1);
    assert_eq!(online[0].name, "Mouse");

    s.show_offline = true;
    s.set_shown("hid:m", false);
    let rest = s.filter_for_strip(&live);
    assert_eq!(rest.len(), 1);
    assert_eq!(rest[0].name, "Headset");
}

#[test]
fn remember_merges_and_settings_rows_keep_known() {
    let mut s = Settings::default();
    assert!(s.remember(&[dev("Mouse", "hid:m", true, Some(10))]));
    assert!(!s.remember(&[dev("Mouse", "hid:m", true, Some(10))]));
    let rows = s.rows_for_settings(&[]);
    assert_eq!(rows.len(), 1);
    assert_eq!(rows[0].name, "Mouse");
    assert!(!rows[0].connected);
}

#[test]
fn remember_keeps_newest_device_when_full() {
    let mut s = Settings::default();
    for i in 0..MAX_KNOWN_DEVICES {
        assert!(s.remember(&[dev(&format!("D{i}"), &format!("addr{i}"), true, None)]));
    }
    assert_eq!(s.known_devices.len(), MAX_KNOWN_DEVICES);
    assert!(s.remember(&[dev("Newest", "addr-new", true, None)]));
    assert_eq!(s.known_devices.len(), MAX_KNOWN_DEVICES);
    assert!(
        s.known_devices.iter().any(|k| k.address == "addr-new"),
        "新设备必须被记住"
    );
    assert!(
        !s.known_devices.iter().any(|k| k.address == "addr0"),
        "应淘汰最旧的"
    );
    assert!(!s.remember(&[dev("Newest", "addr-new", true, None)]));
}

#[test]
fn settings_hides_legacy_wired_x87_address() {
    let mut s = Settings::default();
    s.known_devices.push(KnownDevice {
        address: "hid:0C45:8006:Keyboard".into(),
        name: "前行者 X87".into(),
        kind: "Keyboard".into(),
    });
    let live = [dev("前行者 X87", "hid:0C45:FEFE:Keyboard", true, Some(17))];
    let rows = s.rows_for_settings(&live);
    assert_eq!(rows.len(), 1);
    assert_eq!(rows[0].address, "hid:0C45:FEFE:Keyboard");
}

/// The settings file of some settings.
fn to_json(s: &Settings) -> String {
    let mut m = serde_json::Map::new();
    m.insert("poll_seconds".into(), Value::from(s.poll_seconds));
    m.insert("strip_visible".into(), Value::from(s.strip_visible));
    m.insert("topmost".into(), Value::from(s.topmost));
    m.insert("autostart".into(), Value::from(s.autostart));
    m.insert("notify_low".into(), Value::from(s.notify_low));
    m.insert("low_battery_alert".into(), Value::from(s.low_battery_alert));
    m.insert("resend_minutes".into(), Value::from(s.resend_minutes));
    m.insert("opacity".into(), Value::from(s.opacity));
    m.insert("show_offline".into(), Value::from(s.show_offline));
    m.insert(
        "hidden_addresses".into(),
        Value::from(s.hidden_addresses.clone()),
    );
    let known: Vec<Value> = s.known_devices.iter().map(known_to_json).collect();
    m.insert("known_devices".into(), Value::from(known));
    m.insert("strip_side".into(), Value::from(s.strip_side.clone()));
    m.insert("text_pct".into(), Value::from(s.text_pct));
    serde_json::to_string(&Value::Object(m)).unwrap()
}

fn known_to_json(k: &KnownDevice) -> Value {
    let mut m = serde_json::Map::new();
    m.insert("address".into(), Value::from(k.address.clone()));
    m.insert("name".into(), Value::from(k.name.clone()));
    m.insert("kind".into(), Value::from(k.kind.clone()));
    Value::Object(m)
}

fn number(v: &Value, key: &str, default: u64) -> u64 {
    v.get(key).map_or(default, |n| n.as_u64().unwrap())
}

fn flag(v: &Value, key: &str, default: bool) -> bool {
    v.get(key).map_or(default, |b| b.as_bool().unwrap())
}

fn string(v: &Value, key: &str, default: &str) -> String {
    v.get(key).map_or(default, |t| t.as_str().unwrap()).to_string()
}

fn list<'a>(v: &'a Value, key: &str) -> &'a [Value] {
    v.get(key).map_or(&[], |l| l.as_array().unwrap().as_slice())
}

/// The settings of a file; what it does not say is as on a first start.
fn from_json(text: &str) -> Settings {
    let v: Value = serde_json::from_str(text).unwrap();
    let d = Settings::default();
    let k = KnownDevice::default();
    Settings {
        poll_seconds: number(&v, "poll_seconds", d.poll_seconds),
        strip_visible: flag(&v, "strip_visible", d.strip_visible),
        topmost: flag(&v, "topmost", d.topmost),
        autostart: flag(&v, "autostart", d.autostart),
        notify_low: flag(&v, "notify_low", d.notify_low),
        low_battery_alert: number(&v, "low_battery_alert", d.low_battery_alert.into())
            .try_into()
            .unwrap(),
        resend_minutes: number(&v, "resend_minutes", d.resend_minutes),
        opacity: number(&v, "opacity", d.opacity.into()).try_into().unwrap(),
        show_offline: flag(&v, "show_offline", d.show_offline),
        hidden_addresses: list(&v, "hidden_addresses")
            .iter()
            .map(|a| a.as_str().unwrap().to_string())
            .collect(),
        known_devices: list(&v, "known_devices")
            .iter()
            .map(|e| KnownDevice {
                address: string(e, "address", &k.address),
                name: string(e, "name", &k.name),
                kind: string(e, "kind", &k.kind),
            })
            .collect(),
        strip_side: string(&v, "strip_side", &d.strip_side),
        text_pct: number(&v, "text_pct", d.text_pct.into()).try_into().unwrap(),
    }
}

#[test]
fn every_setting_reads_back() {
    let mut s = Settings::default();
    s.poll_seconds = 300;
    s.strip_visible = false;
    s.autostart = true;
    s.notify_low = false;
    s.low_battery_alert = 30;
    s.resend_minutes = 5;
    s.opacity = 80;
    s.show_offline = false;
    s.strip_side = "left".into();
    s.text_pct = 120;
    s.set_shown("hid:x", false);
    s.remember(&[dev("Mouse", "hid:m", true, None)]);
    let back = from_json(&to_json(&s));
    assert_eq!(to_json(&back), to_json(&s));
    assert_eq!(back.known_devices[0].name, "Mouse");
    assert_eq!((back.low_battery_alert, back.resend_minutes, back.opacity), (30, 5, 80));
}

fn known(name: &str, addr: &str) -> KnownDevice {
    KnownDevice {
        address: addr.into(),
        name: name.into(),
        kind: "Mouse".into(),
    }
}

#[test]
fn known_devices_compare_by_their_texts() {
    assert_eq!(known("a", "1"), known("a", "1").clone());
    assert_ne!(known("a", "1"), known("b", "1"));
    assert_ne!(known("a", "1"), known("a", "2"));
}

#[test]
fn remembering_copes_with_addresses_known_twice() {
    let mut s = Settings::default();
    s.known_devices.push(known("Old", "hid:m"));
    s.known_devices.push(known("Older", "HID:M"));
    let devs = [dev("Mouse", "hid:m", true, None), dev("New", "hid:n", true, None)];
    assert!(s.remember(&devs));
    let names: Vec<&str> = s.known_devices.iter().map(|k| k.name.as_str()).collect();
    assert_eq!(names, ["Mouse", "Older", "New"]);
    assert!(!s.remember(&devs));
}

#[test]
fn more_devices_than_there_is_room_for() {
    let mut s = Settings::default();
    let devs: Vec<Device> = (0..45)
        .map(|i| dev(&format!("D{i}"), &format!("addr{i}"), true, None))
        .collect();
    assert!(s.remember(&devs));
    assert_eq!(s.known_devices.len(), MAX_KNOWN_DEVICES);
    assert_eq!(s.known_devices[0].address, "addr5");
    assert_eq!(s.known_devices[39].address, "addr44");
}

#[test]
fn serde_roundtrip_hidden_list() {
    let mut s = Settings::default();
    s.set_shown("hid:x", false);
    s.show_offline = false;
    s.poll_seconds = 30;
    let json = to_json(&s);
    let back = from_json(&json);
    assert!(!back.is_shown("hid:x"));
    assert!(!back.show_offline);
    assert_eq!(back.poll_seconds, 30);
}

#[test]
fn text_pct_defaults_and_clamps() {
    let mut s = Settings::default();
    assert_eq!(s.text_pct(), DEFAULT_TEXT_PCT);
    s.text_pct = 5;
    assert_eq!(s.text_pct(), MIN_TEXT_PCT);
    s.text_pct = 9999;
    assert_eq!(s.text_pct(), MAX_TEXT_PCT);
    let legacy = from_json(r#"{"poll_seconds":30}"#);
    assert_eq!(legacy.text_pct(), DEFAULT_TEXT_PCT);
    s.text_pct = 120;
    let back = from_json(&to_json(&s));
    assert_eq!(back.text_pct(), 120);
}

#[test]
fn strip_side_defaults_right_and_roundtrips() {
    let s = Settings::default();
    assert!(!s.dock_left());
    let mut left = Settings::default();
    left.strip_side = "left".into();
    assert!(left.dock_left());
    let json = to_json(&left);
    let back = from_json(&json);
    assert!(back.dock_left());
    let old = r#"{"poll_seconds":60}"#;
    let migrated = from_json(old);
    assert!(!migrated.dock_left());
}

#[test]
fn topmost_defaults_false_and_legacy_true_is_not_reactivated() {
    assert!(!Settings::default().topmost);
    let legacy = r#"{"poll_seconds":30,"topmost":true}"#;
    let migrated = from_json(legacy);
    assert_eq!(migrated.poll_seconds, 30);
    let normalized = Settings::load(Some(migrated));
    assert!(!normalized.topmost);
    assert_eq!(normalized.poll_seconds, 30);
}

#[test]
fn unreadable_settings_are_those_of_a_first_start() {
    let s = Settings::load(None);
    assert_eq!(s.poll_seconds, 10);
    assert!(s.strip_visible && s.notify_low && s.show_offline);
    assert!(!s.topmost && !s.autostart);
    assert_eq!(s.low_battery_alert, 20);
    assert_eq!(s.resend_minutes, 30);
    assert_eq!(s.opacity, 100);
    assert_eq!(s.strip_side, "right");
    assert_eq!(s.text_pct, 100);
    assert!(s.hidden_addresses.is_empty() && s.known_devices.is_empty());
}

#[test]
fn poll_interval_keeps_within_bounds() {
    let mut s = Settings::default();
    s.poll_seconds = 1;
    assert_eq!(s.poll_interval(), 10);
    s.poll_seconds = 77;
    assert_eq!(s.poll_interval(), 77);
    s.poll_seconds = 100_000;
    assert_eq!(s.poll_interval(), 3600);
}

#[test]
fn rows_say_what_is_known() {
    let mut s = Settings::default();
    s.remember(&[dev("Mouse", "hid:m", true, Some(10))]);
    s.set_shown("HID:M", false);
    let rows = s.rows_for_settings(&[dev("Mouse", "hid:m", true, Some(10))]);
    assert_eq!(rows.len(), 1);
    assert!(!rows[0].shown);
    assert_eq!(rows[0].label(), "Mouse    10%  已连接");
    let gone = s.rows_for_settings(&[]);
    assert_eq!(gone[0].label(), "Mouse    --  离线");
}

#[test]
fn renamed_devices_are_saved_once() {
    let mut s = Settings::default();
    assert!(s.remember(&[dev("Old", "hid:m", true, None)]));
    assert!(s.remember(&[dev("New", "HID:M", true, None)]));
    assert_eq!(s.known_devices.len(), 1);
    assert_eq!(s.known_devices[0].name, "New");
    assert!(!s.remember(&[dev("New", "hid:m", true, None)]));
}
