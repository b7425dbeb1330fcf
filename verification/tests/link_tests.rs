//! Links, caches, scans, HID++ queries, and what a collection is asked.

use bt_battery_bar::hid::{HidDevice, clone_collections};
use bt_battery_bar::hidpp::{
    DEAD_TTL, Exchange, HidppState, RESP_DEADLINE, Stage, first_stage, may_query, on_reply,
    query_battery, reply_len, stage_request,
};
use bt_battery_bar::links::{
    CACHE_TTL, HidState, Probe, SECOND, SONIX_LINK_TTL, apply_battery_cache, devices_from_raw,
    enumerate, enumerate_devices, has_x87_cable, needs_sonix_boost, note_live_battery, receiver_id,
    sonix_rf_alive, time_since,
};
use bt_battery_bar::model::Device;
use bt_battery_bar::probe::{
    Answer, Ask, first_ask, hid_wide_string, next_ask, on_answer, read_detail_path, unasked,
};
use bt_battery_bar::queries::{
    Channel, CompxAsk, CompxQuery, EweadnNext, StandardQuery, ViaQuery, battery_usages, eweadn_reply, eweadn_request,
    failure_text, feature_ids, is_io_pending, read_standard_battery, send_order, sonix_packet,
    sonix_read_len, sonix_status, via_alive, via_battery, via_battery_cmds, via_ping, wait_ms,
};
use bt_battery_bar::reports::{
    HIDP_STATUS_SUCCESS, battery_from_buffer, build_compx_cmd, has_data, pad_report, qmk_cmd,
    sum_bytes, usage_percent, voltage_to_percent,
};

const T0: u64 = 1_000 * SECOND;

fn collection(vid: u16, pid: u16, page: u16, lens: (u16, u16, u16)) -> HidDevice {
    unasked(
        r"\\?\hid#x",
        (vid, pid),
        (page, 1),
        lens,
        ("Product".to_string(), "Maker".to_string()),
        "R/W",
    )
}

fn sonix_live(pct: u8) -> Vec<u8> {
    let mut p = vec![0u8; 65];
    p[1] = 0x0F;
    p[2] = 0x01;
    p[3] = 0xFE;
    p[4] = pct;
    p
}

#[test]
fn clocks_that_run_back_make_no_time() {
    assert_eq!(time_since(5, 9), 4);
    assert_eq!(time_since(9, 5), 0);
}

#[test]
fn batteries_are_shared_between_dongle_and_cable() {
    let mut state = HidState::new();
    note_live_battery(&mut state, 0x0C45, 0x8006, 33, T0);
    for pid in [0xFEFE, 0x8006] {
        let l = state.links.get(&receiver_id(0x0C45, pid)).unwrap();
        assert_eq!(l.battery, Some(33));
        assert!(l.connected(T0, SONIX_LINK_TTL));
    }
    assert_eq!(
        state.cache.get(&receiver_id(0x0C45, 0xFEFE)),
        Some(&(33, T0))
    );
    assert!(sonix_rf_alive(&mut state, 0x0C45, 0xFEFE, false, T0 + SONIX_LINK_TTL - 1));
    assert!(!sonix_rf_alive(&mut state, 0x0C45, 0xFEFE, false, T0 + SONIX_LINK_TTL));
}

fn x87_row(connected: bool, battery: Option<u8>) -> Device {
    Device {
        name: "X87".into(),
        address: "hid:0C45:FEFE:Keyboard".into(),
        is_le: false,
        connected,
        battery,
        status: if connected { "ok" } else { "offline" },
        kind: "Keyboard",
    }
}

#[test]
fn cached_batteries_expire() {
    let mut state = HidState::new();
    state.cache.insert(receiver_id(0x0C45, 0xFEFE), (17, T0));
    let mut fresh = vec![x87_row(true, None)];
    apply_battery_cache(&mut state, &mut fresh, T0 + CACHE_TTL - 1);
    assert_eq!(fresh[0].battery, Some(17));
    let mut stale = vec![x87_row(true, None)];
    apply_battery_cache(&mut state, &mut stale, T0 + CACHE_TTL);
    assert_eq!(stale[0].battery, None);
}

#[test]
fn scans_wait_for_a_silent_dongle_only_without_a_cable() {
    let dongle = collection(0x0C45, 0xFEFE, 0xFF59, (65, 65, 0));
    assert!(needs_sonix_boost(&dongle, false));
    assert!(!needs_sonix_boost(&dongle, true));
    let mut up = clone_collections(&vec![dongle.clone()]);
    up[0].link_up = true;
    assert!(!needs_sonix_boost(&up[0], false));
    assert!(!has_x87_cable(&up));
    let cable = collection(0x0C45, 0x8006, 0xFF13, (65, 65, 0));
    assert!(has_x87_cable(&vec![cable]));
    let mut state = HidState::new();
    let rows = devices_from_raw(
        &mut state,
        vec![dongle.clone()],
        true,
        &vec![Some(sonix_live(44))],
        T0,
    );
    assert_eq!(rows.len(), 1);
    assert!(rows[0].connected);
    assert_eq!(rows[0].battery, Some(44));
    let mut other = HidState::new();
    let quiet = devices_from_raw(&mut other, vec![dongle], true, &vec![None], T0);
    assert!(!quiet[0].connected);
}

#[test]
fn opened_paths_are_sorted_from_failures() {
    let probes: Vec<(String, Probe)> = vec![
        ("p1".into(), Ok(Some(collection(0x0C45, 0x8006, 0xFF13, (65, 65, 0))))),
        ("p2".into(), Ok(None)),
        ("p3".into(), Err("open failed".into())),
    ];
    let (devs, fails) = enumerate(&probes);
    assert_eq!(devs.len(), 1);
    assert_eq!(fails, vec!["p3: open failed".to_string()]);
    let mut state = HidState::new();
    let rows = enumerate_devices(&mut state, &probes, &vec![None], T0);
    assert_eq!(rows.len(), 1);
    assert!(rows[0].connected);
    assert!(state.had_x87_wired);
}

#[test]
fn hidpp_queries_walk_devices_and_features() {
    let mut s = first_stage();
    let mut asked = 0;
    let mut first = Vec::new();
    while let Some(q) = stage_request(s) {
        if asked == 0 {
            assert_eq!((q.dev, q.feat, q.func), (0xFF, 0, 0));
            first = q.params.clone();
        }
        asked += 1;
        s = on_reply(s, &None);
    }
    assert_eq!(first, vec![0x10, 0x02]);
    assert_eq!(asked, 6);
    assert!(matches!(s, Stage::Done { battery: None }));
    let mut t = on_reply(first_stage(), &Some(vec![0x07, 0, 0]));
    let q = stage_request(t).unwrap();
    assert_eq!((q.dev, q.feat, q.func), (0xFF, 0x07, 0x01));
    t = on_reply(t, &Some(vec![55, 0]));
    assert!(matches!(t, Stage::Done { battery: Some(55) }));
}

#[test]
fn hidpp_exchanges_pass_over_other_reports() {
    let mut e = Exchange::new(0xFF, 0x07, 0x01, T0);
    assert!(e.wants_read(T0));
    assert_eq!(e.on_read(&[0x10, 0xFF, 0x08, 0x10, 1, 2, 3]), None);
    assert_eq!(e.on_read(&[0x10, 0xFF, 0x07, 0x10, 0x55, 0, 0]), Some(vec![0x55, 0, 0]));
    assert!(!e.wants_read(T0 + RESP_DEADLINE));
    e.on_read(&[]);
    assert!(!e.wants_read(T0));
    assert_eq!(reply_len(7), 8);
    assert_eq!(reply_len(20), 20);
}

#[test]
fn silent_hidpp_devices_are_left_alone_for_a_while() {
    let mut dead = HidppState::new();
    let mut hid = HidState::new();
    assert!(may_query(&dead, 0x046D, 0xC52B, T0));
    assert!(!may_query(&dead, 0x1234, 0xC52B, T0));
    assert_eq!(query_battery(&mut dead, &mut hid, 0x046D, 0xC52B, None, T0), None);
    assert!(!may_query(&dead, 0x046D, 0xC52B, T0 + DEAD_TTL - 1));
    assert!(may_query(&dead, 0x046D, 0xC52B, T0 + DEAD_TTL));
    assert_eq!(
        query_battery(&mut dead, &mut hid, 0x046D, 0xC52B, Some(66), T0 + DEAD_TTL),
        Some(66)
    );
    assert!(may_query(&dead, 0x046D, 0xC52B, T0 + DEAD_TTL));
    assert_eq!(
        hid.links.get(&receiver_id(0x046D, 0xC52B)).unwrap().battery,
        Some(66)
    );
}

#[test]
fn questions_come_in_turn() {
    assert_eq!(first_ask(true), Some(Ask::Standard));
    assert_eq!(first_ask(false), None);
    let dongle = collection(0x0C45, 0xFEFE, 0xFF60, (33, 33, 0));
    assert_eq!(next_ask(&dongle, Ask::Standard), Some(Ask::Eweadn));
    assert_eq!(next_ask(&dongle, Ask::Eweadn), Some(Ask::ViaAlive));
    assert_eq!(next_ask(&dongle, Ask::ViaAlive), None);
    let status = collection(0x0C45, 0xFEFE, 0xFF59, (65, 65, 0));
    assert_eq!(next_ask(&status, Ask::Standard), Some(Ask::Sonix));
    let mouse = collection(0x3554, 1, 0xFF02, (17, 17, 0));
    assert_eq!(next_ask(&mouse, Ask::Standard), Some(Ask::Compx));
    let logitech = collection(0x046D, 1, 0xFF00, (20, 20, 0));
    assert_eq!(next_ask(&logitech, Ask::Standard), Some(Ask::Hidpp));
    assert_eq!(next_ask(&logitech, Ask::Hidpp), None);
    let mut told = collection(0x0C45, 0xFEFE, 0xFF60, (33, 33, 0));
    told.battery = Some(5);
    assert_eq!(next_ask(&told, Ask::Standard), None);
    let mut locked = collection(0x0C45, 0xFEFE, 0xFF60, (33, 33, 0));
    locked.access = "ZERO";
    assert_eq!(next_ask(&locked, Ask::Standard), None);
}

#[test]
fn answers_settle_battery_link_and_diagnosis() {
    let mut hid = HidState::new();
    let mut d = collection(0x0C45, 0xFEFE, 0xFF59, (65, 65, 0));
    assert!(!d.link_up);
    on_answer(&mut d, &mut hid, Ask::Sonix, Answer::Sonix(Err("no".into())), T0);
    assert_eq!(d.debug, "no");
    assert!(!d.link_up);
    on_answer(
        &mut d,
        &mut hid,
        Ask::Sonix,
        Answer::Sonix(Ok((14, "00 0F".into(), true))),
        T0,
    );
    assert_eq!(d.battery, Some(14));
    assert_eq!(d.feature_hex, "00 0F");
    assert!(d.link_up);

    let mut e = collection(0x0C45, 0xFEFE, 0xFF60, (33, 33, 0));
    on_answer(&mut e, &mut hid, Ask::Eweadn, Answer::Battery(None), T0);
    assert!(e.battery.is_none() && !e.link_up);
    on_answer(&mut e, &mut hid, Ask::Eweadn, Answer::Battery(Some(80)), T0);
    assert!(e.battery == Some(80) && e.link_up);

    let mut v = collection(0x0C45, 0xFEFE, 0xFF60, (33, 33, 0));
    let mut fresh = HidState::new();
    on_answer(&mut v, &mut fresh, Ask::ViaAlive, Answer::Alive(false), T0);
    assert!(!v.link_up);
    on_answer(&mut v, &mut fresh, Ask::ViaAlive, Answer::Alive(true), T0);
    assert!(v.link_up);

    let mut c = collection(0x373B, 1, 0xFF02, (17, 17, 0));
    on_answer(&mut c, &mut hid, Ask::Compx, Answer::Compx(Err("why".into())), T0);
    assert_eq!(c.debug, "why");
    on_answer(&mut c, &mut hid, Ask::Compx, Answer::Compx(Ok((50, "08 04".into()))), T0);
    assert_eq!((c.battery, c.feature_hex.as_str(), c.link_up), (Some(50), "08 04", false));

    let mut l = collection(0x046D, 1, 0xFF00, (20, 20, 0));
    on_answer(&mut l, &mut hid, Ask::Standard, Answer::Standard(None, String::new()), T0);
    on_answer(&mut l, &mut hid, Ask::Hidpp, Answer::Battery(Some(9)), T0);
    assert_eq!((l.battery, l.feature_hex.as_str(), l.link_up), (Some(9), "hid++", true));

    let cable = collection(0x0C45, 0x8006, 0xFF13, (65, 65, 0));
    assert!(cable.link_up);
}

#[test]
fn texts_of_devices_are_read() {
    let mut units: Vec<u16> = " X87 ".encode_utf16().collect();
    units.push(0);
    units.push(0x41);
    assert_eq!(hid_wide_string(true, &units), "X87");
    assert_eq!(hid_wide_string(false, &units), "");
    let mut detail = vec![8u8, 0, 0, 0];
    for u in r"\\?\hid#键".encode_utf16() {
        detail.extend_from_slice(&u.to_le_bytes());
    }
    detail.extend_from_slice(&[0, 0, 0x41, 0]);
    assert_eq!(read_detail_path(&detail), r"\\?\hid#键");
    assert_eq!(read_detail_path(&[8, 0, 0, 0, 0x41, 0]), "");
}

#[test]
fn compx_queries_try_both_packets_twice_in_two_ways() {
    let mut q = CompxQuery::new(20, 20);
    let mut steps = Vec::new();
    loop {
        match q.ask() {
            CompxAsk::Over => break,
            CompxAsk::Wake => {
                steps.push('w');
                q.on_woken();
            }
            CompxAsk::WriteRead => {
                steps.push('r');
                q.on_reply(&Err("read timeout".to_string()));
            }
            CompxAsk::Transact => {
                steps.push('t');
                q.on_reply(&Ok(vec![1, 2]));
            }
        }
    }
    assert_eq!(steps.iter().collect::<String>(), "wrtrtwrtrt");
    assert_eq!(q.result(), Err("rid=13 try=2 transact:01 02".to_string()));
}

#[test]
fn compx_queries_end_at_the_first_battery() {
    let mut q = CompxQuery::new(17, 17);
    let (cmd, len) = q.command();
    assert_eq!(cmd, build_compx_cmd(0x08, 17));
    assert_eq!(len, 17);
    q.on_woken();
    q.on_reply(&Err("write failed".to_string()));
    assert_eq!(q.last, "rid=08 try=1 write failed");
    q.on_reply(&Err("read timeout".to_string()));
    assert_eq!(q.last, "rid=08 try=1 write failed");
    let mut r = vec![0u8; 17];
    r[0] = 0x08;
    r[1] = 0x04;
    r[6] = 67;
    q.on_reply(&Ok(r));
    assert_eq!(q.ask(), CompxAsk::Over);
    let (pct, hex) = q.result().unwrap();
    assert_eq!(pct, 67);
    assert!(hex.starts_with("08 04 00"));
}

#[test]
fn compx_queries_need_a_report_that_fits() {
    let q = CompxQuery::new(8, 9);
    assert_eq!(q.ask(), CompxAsk::Over);
    assert_eq!(q.result(), Err("no matching report size".to_string()));
    let (wide, _) = CompxQuery::new(17, 64).command();
    assert_eq!(wide.len(), 64);
    assert_eq!(&wide[..17], &build_compx_cmd(0x08, 17)[..]);
    assert_eq!(CompxQuery::new(0, 0).ask(), CompxAsk::Wake);
}

#[test]
fn sonix_replies_are_read() {
    let ok = Ok(sonix_live(14));
    assert_eq!(sonix_status(&ok).unwrap().0, 14);
    assert!(sonix_status(&ok).unwrap().2);
    assert_eq!(sonix_packet(&ok).unwrap().0, 14);
    assert_eq!(
        sonix_status(&Ok(vec![0x00, 0x0F, 0x01, 0x01, 0x11])),
        Err("unparsed 00 0F 01 01 11".to_string())
    );
    assert_eq!(
        sonix_status(&Err("read timeout".into())),
        Err("no sonix status (keyboard off?)".to_string())
    );
    assert_eq!(sonix_packet(&Err("x".into())), None);
    assert_eq!(sonix_read_len(0), 5);
    assert_eq!(sonix_read_len(65), 65);
}

#[test]
fn via_questions_and_answers() {
    let (ping, n) = via_ping(1, 2);
    assert_eq!((ping.len(), ping[1], n), (33, 0x01, 2));
    assert!(via_alive(&Ok(vec![0x00, 0x01, 0x09, 0x00])));
    assert!(!via_alive(&Err("x".into())));
    let (a, b, len) = via_battery_cmds(33, 4);
    assert_eq!(a, vec![0, 0xA4, 0, 0]);
    assert_eq!(b, vec![0xA4, 0, 0, 0]);
    assert_eq!(len, 33);
    assert_eq!(via_battery(&Ok(vec![0x00, 0xA4, 63])), Some(63));
    assert_eq!(via_battery(&Ok(sonix_live(9))), Some(9));
    assert_eq!(via_battery(&Ok(vec![1])), None);
    assert_eq!(via_battery(&Err("x".into())), None);
}

#[test]
fn eweadn_questions_and_answers() {
    assert_eq!(eweadn_request(33, 3), None);
    assert_eq!(eweadn_request(5, 33), None);
    let (cmd, n) = eweadn_request(33, 5).unwrap();
    assert_eq!(cmd, vec![0, 0x20, 0x01, 0, 0]);
    assert_eq!(n, 33);
    assert_eq!(eweadn_reply(&Ok(vec![0, 0x20, 1, 0, 77, 0])), EweadnNext::Found(77));
    assert_eq!(eweadn_reply(&Ok(vec![0, 0x0F, 1, 0, 77, 0])), EweadnNext::ReadOn);
    assert_eq!(eweadn_reply(&Err("x".into())), EweadnNext::GiveUp);
}

#[test]
fn waiting_stops_at_the_deadline() {
    assert_eq!(wait_ms(10, 10, 1, 800), None);
    assert_eq!(wait_ms(0, 500_000, 1, 800), Some(1));
    assert_eq!(wait_ms(0, 300_000_000, 1, 800), Some(300));
    assert_eq!(wait_ms(0, 3_000_000_000, 1, 800), Some(800));
}

#[test]
fn standard_batteries_are_read() {
    assert_eq!(feature_ids(0, &[1]), Vec::<u8>::new());
    assert_eq!(feature_ids(8, &[3, 6, 3, 0]), vec![0, 6, 3]);
    assert_eq!(battery_usages().len(), 4);
    let mut hex = String::new();
    let ok = HIDP_STATUS_SUCCESS;
    assert_eq!(read_standard_battery(&mut hex, &[6, 1], &[(0, 50), (ok, 101)]), None);
    assert_eq!(hex, "06 01");
    assert_eq!(
        read_standard_battery(&mut hex, &[7], &[(ok, 200), (ok, 42), (ok, 43)]),
        Some(42)
    );
    assert_eq!(hex, "06 01");
    assert_eq!(usage_percent(ok, 100), Some(100));
    assert_eq!(usage_percent(0, 100), None);
}

#[test]
fn failures_have_texts() {
    assert_eq!(failure_text("ReadFile", 0x8007_0005), "ReadFile 0x80070005");
    assert!(is_io_pending(0x8007_03E5));
    assert!(!is_io_pending(997));
    assert_eq!(send_order(true), (Channel::SetReport, Channel::Write));
    assert_eq!(send_order(false), (Channel::Write, Channel::SetReport));
}

#[test]
fn reports_are_built_and_summed() {
    assert_eq!(pad_report(vec![1, 2], 4), vec![1, 2, 0, 0]);
    assert_eq!(pad_report(vec![1, 2], 1), vec![1, 2]);
    assert_eq!(qmk_cmd(0, 9, &[7]), vec![0, 9]);
    assert_eq!(qmk_cmd(4, 9, &[7, 8, 6]), vec![0, 9, 7, 8]);
    assert_eq!(sum_bytes(&[200, 100]), 44);
    assert_eq!(build_compx_cmd(8, 3).len(), 8);
    assert_eq!(sum_bytes(&build_compx_cmd(0x13, 20)), 0x55);
    assert!(has_data(&[0, 0, 1]));
    assert!(!has_data(&[0, 0]));
    assert_eq!(battery_from_buffer(&[]), None);
    assert_eq!(battery_from_buffer(&[61]), Some(61));
}

#[test]
fn voltages_follow_the_float_formula() {
    let table: [u16; 21] = [
        3050, 3420, 3480, 3540, 3600, 3660, 3720, 3760, 3800, 3840, 3880, 3920, 3940, 3960, 3980,
        4000, 4020, 4040, 4060, 4080, 4110,
    ];
    for v in 0..=u16::MAX {
        for charging in [false, true] {
            let want = match table.iter().position(|&t| v < t) {
                None => {
                    if charging {
                        99
                    } else {
                        100
                    }
                }
                Some(0) => 0,
                Some(i) => {
                    let prev = f32::from(table[i - 1]);
                    let step = (f32::from(table[i]) - prev) / 5.0;
                    let base = ((i - 1) * 5) as f32;
                    let mut level = ((f32::from(v) - prev) / step + base).round() as i32;
                    if level == 0 || level == 15 {
                        level += 1;
                    }
                    level.clamp(0, 100)
                }
            };
            assert_eq!(i32::from(voltage_to_percent(v, charging)), want, "{v}");
        }
    }
}

#[test]
fn standard_query_stops_at_the_first_battery() {
    let ok = HIDP_STATUS_SUCCESS;
    let mut q = StandardQuery::new(4, &[6, 9]);
    assert_eq!(q.report(), Some(vec![0, 0, 0, 0]));
    q.on_failure();
    assert_eq!(q.report(), Some(vec![6, 0, 0, 0]));
    q.on_report(&[6, 1, 2, 3], &[(ok, 101), (ok + 1, 40)]);
    assert_eq!(q.report(), Some(vec![9, 0, 0, 0]));
    q.on_report(&[9, 8, 7, 6], &[(ok + 1, 5), (ok, 77)]);
    assert_eq!(q.report(), None);
    assert_eq!(q.result(), (Some(77), "06 01 02 03".to_string()));

    let mut q = StandardQuery::new(2, &[]);
    q.on_failure();
    q.on_report(&[6, 1], &[]);
    assert_eq!(q.report(), None);
    assert_eq!(q.result(), (None, "06 01".to_string()));
    assert_eq!(StandardQuery::new(0, &[6]).report(), None);
}

#[test]
fn via_query_tries_both_commands() {
    let (first, second, len) = via_battery_cmds(33, 33);
    let mut q = ViaQuery::new(33, 33);
    assert_eq!(q.command(), Some((first, len)));
    q.on_reply(&Err("read timeout".into()));
    assert_eq!(q.command(), Some((second, len)));
    q.on_reply(&Ok(sonix_live(42)));
    assert_eq!((q.command(), q.battery), (None, Some(42)));

    let mut q = ViaQuery::new(33, 33);
    q.on_reply(&Ok(sonix_live(42)));
    assert_eq!((q.command(), q.battery), (None, Some(42)));

    let mut q = ViaQuery::new(33, 33);
    q.on_reply(&Ok(vec![]));
    q.on_reply(&Ok(vec![]));
    assert_eq!((q.command(), q.battery), (None, None));
}
