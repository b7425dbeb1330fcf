//! Texts, UTF-16, orders and names.

use bt_battery_bar::btreader::classify_kind;
use bt_battery_bar::model::{
    Device, Snapshot, dedup_by_keys, has_connected, name_key, short_name, sort_devices,
};
use bt_battery_bar::order::text_before;
use bt_battery_bar::receiver::{
    format_hid_addr, friendly_product, include_receiver, looks_like_24g_product, parse_hid_addr,
    skip_noise,
};
use bt_battery_bar::text::{
    begins, eq_ignore_case, has_text, hex_only, parse_number, remove_all, split_piece, to_ascii_lower,
    to_ascii_upper, to_hex, trim, white_space,
};
use bt_battery_bar::textmap::TextMap;
use bt_battery_bar::wide::{decode, decode_until_nul, encode, wide_path};

#[test]
fn white_space_is_that_of_std() {
    for n in 0..=0x10_FFFFu32 {
        if let Some(c) = char::from_u32(n) {
            assert_eq!(white_space(c), c.is_whitespace(), "{n:04X}");
        }
    }
}

#[test]
fn trimming_is_that_of_std() {
    for s in ["", "  ", " a b ", "\u{3000}前行者\t", "x", "\n\r\u{85}y\u{A0}"] {
        assert_eq!(trim(s), s.trim());
    }
}

#[test]
fn ascii_case_is_that_of_std() {
    let s = "aZ09_é键\u{130}";
    assert_eq!(to_ascii_lower(s), s.to_ascii_lowercase());
    assert_eq!(to_ascii_upper(s), s.to_ascii_uppercase());
    assert!(eq_ignore_case("HID:x", "hid:X"));
    assert!(!eq_ignore_case("é", "É"));
    assert!(!eq_ignore_case("a", "ab"));
}

#[test]
fn searching_and_cutting() {
    assert!(has_text("abcabd", "abd"));
    assert!(!has_text("abc", "abd"));
    assert!(has_text("", ""));
    assert!(begins("k380", "k3"));
    assert!(!begins("k", "k3"));
    assert_eq!(remove_all("a-b--c", "-"), "abc");
    assert_eq!(remove_all("aaa", "aa"), "a");
    assert_eq!(split_piece("a:b::c", ":", 0).as_deref(), Some("a"));
    assert_eq!(split_piece("a:b::c", ":", 2).as_deref(), Some(""));
    assert_eq!(split_piece("a:b::c", ":", 3).as_deref(), Some("c"));
    assert_eq!(split_piece("a:b::c", ":", 4), None);
}

#[test]
fn numbers_read_as_std_reads_them() {
    for s in ["", "+", "0", "007", "+40", "-1", "4 0", "18446744073709551615", "18446744073709551616"] {
        assert_eq!(parse_number(s, 10, u64::MAX), s.parse::<u64>().ok(), "{s}");
    }
    for s in ["FEFE", "fefe", "+1", "10000", "g", ""] {
        assert_eq!(
            parse_number(s, 16, 0xFFFF),
            u16::from_str_radix(s, 16).ok().map(u64::from),
            "{s}"
        );
    }
    assert!(hex_only("0123456789abcdefABCDEF"));
    assert!(!hex_only("12G"));
}

#[test]
fn bytes_are_dumped_in_hex() {
    assert_eq!(to_hex(&[]), "");
    assert_eq!(to_hex(&[0x0F]), "0F");
    assert_eq!(to_hex(&[0x00, 0xAB, 0x10]), "00 AB 10");
}

#[test]
fn utf16_is_that_of_std() {
    for s in ["", "abc", "前行者 X87", "a\u{1F600}b"] {
        let units: Vec<u16> = s.encode_utf16().collect();
        assert_eq!(encode(s), units);
        assert_eq!(decode(&units), s);
        let mut ended = units.clone();
        ended.push(0);
        assert_eq!(wide_path(s), ended);
        ended.push(0x41);
        assert_eq!(decode_until_nul(&ended), s);
    }
    for units in [vec![0xD800u16], vec![0x41, 0xDC00, 0x42], vec![0xD83D, 0xD83D, 0xDE00]] {
        assert_eq!(decode(&units), String::from_utf16_lossy(&units));
    }
}

#[test]
fn maps_keep_the_last_value() {
    let mut m: TextMap<u64> = TextMap::new();
    assert_eq!(m.get("a"), None);
    m.insert("a", 1);
    m.insert("b", 2);
    m.insert("a", 3);
    assert_eq!(m.get("a"), Some(3));
    assert_eq!(m.get("b"), Some(2));
    assert_eq!(m.get("A"), None);
}

fn row(name: &str, connected: bool) -> Device {
    Device {
        name: name.into(),
        address: name.into(),
        is_le: true,
        connected,
        battery: None,
        status: "ok",
        kind: "Unknown",
    }
}

#[test]
fn rows_are_listed_connected_first_then_by_lower_case_name() {
    let out = sort_devices(vec![
        row("beta", false),
        row("Beta", true),
        row("ÄPFEL", true),
        row("alpha", true),
        row("äpfel", true),
        row("Alpha", false),
    ]);
    let names: Vec<&str> = out.iter().map(|d| d.name.as_str()).collect();
    assert_eq!(names, vec!["alpha", "Beta", "ÄPFEL", "äpfel", "Alpha", "beta"]);
    assert!(has_connected(&out));
    assert!(!has_connected(&[row("x", false)]));
}

#[test]
fn texts_are_ordered_by_code_point() {
    let chars = |s: &str| s.chars().collect::<Vec<char>>();
    assert!(text_before(&chars("ab"), &chars("abc")));
    assert!(text_before(&chars("aZ"), &chars("aa")));
    assert!(!text_before(&chars("a"), &chars("a")));
    assert!(text_before(&chars("z"), &chars("键")));
}

#[test]
fn kinds_are_told_by_name_in_any_case() {
    assert_eq!(classify_kind("MX Master 3S"), "Mouse");
    assert_eq!(classify_kind("Keychron K3 KEYBOARD"), "Keyboard");
    assert_eq!(classify_kind("K380"), "Keyboard");
    assert_eq!(classify_kind("EDIFIER W820NB"), "Headset");
    assert_eq!(classify_kind("Xbox Wireless Controller"), "Gamepad");
    assert_eq!(classify_kind("Surface Pen"), "Pen");
    assert_eq!(classify_kind("Magic Trackpad"), "Trackpad");
    assert_eq!(classify_kind("Thing"), "Unknown");
}

#[test]
fn name_keys_ignore_case_and_link_suffixes() {
    assert_eq!(name_key("前行者 X87 2.4G"), name_key("前行者 x87 有线"));
    assert_ne!(name_key("Mouse A"), name_key("Mouse B"));
    assert_eq!(name_key("ÄPFEL"), name_key("äpfel"));
}

#[test]
fn long_names_are_cut_for_the_tooltip() {
    assert_eq!(short_name("Mouse"), "Mouse");
    let long = "An exceedingly long device name";
    assert!(short_name(long).chars().count() < long.chars().count());
}

#[test]
fn tooltips_list_devices() {
    let mut a = row("Mouse", true);
    a.battery = Some(50);
    let snap = Snapshot { devices: vec![a, row("Pen", false)], scanned_at_ms: 0, has_connected: true };
    assert_eq!(snap.status_summary(), "Mouse 50%  Pen --");
    assert!(snap.any_connected());
    assert!(!snap.is_empty());
    assert_eq!(Snapshot::default().status_summary(), "无设备");
    assert!(Snapshot::default().is_empty());
}

#[test]
fn dedup_by_given_keys_keeps_one_of_each() {
    let mut live = row("b", true);
    live.address = "hid:b".into();
    let devs = vec![row("a", false), live, row("c", true)];
    let keys = vec!["k".to_string(), "k".to_string(), "l".to_string()];
    let out = dedup_by_keys(&devs, &keys);
    let names: Vec<&str> = out.iter().map(|d| d.name.as_str()).collect();
    assert_eq!(names, vec!["b", "c"]);
    let twins = vec![row("AA:01", false), row("AA:02", true)];
    let both = dedup_by_keys(&twins, &vec!["k".to_string(), "k".to_string()]);
    assert_eq!(both.len(), 2);
}

#[test]
fn products_are_judged_in_any_case() {
    assert!(looks_like_24g_product("USB 2.4G RECEIVER"));
    assert!(skip_noise("VIRTUAL Mouse", r"\\?\hid#x", &[]));
    assert!(!include_receiver(
        0x373B,
        1,
        "WEBCAM",
        r"\\?\hid#vid_373b",
        &[(0x0001, 0x0002), (0xFF02, 0x0002)]
    ));
    assert_eq!(friendly_product(1, 2, "  Thing "), "Thing");
}

#[test]
fn hid_addresses_read_back() {
    let a = format_hid_addr(0x0C45, 0x00FE, "Keyboard");
    assert_eq!(a, "hid:0C45:00FE:Keyboard");
    assert_eq!(parse_hid_addr(&a), Some((0x0C45, 0x00FE)));
    assert_eq!(parse_hid_addr("bt:0C45:00FE"), None);
    assert_eq!(parse_hid_addr("hid:0C45"), None);
    assert_eq!(parse_hid_addr("hid:XYZ:1"), None);
}
