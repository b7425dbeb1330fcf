//! The watcher of receivers, and experiments on them.

use bt_battery_bar::experiments::{
    How, Listener, Listening, feat_probe, is_feature_filled, is_feature_telling, is_interesting, scan, scan2,
    scans_status, spy, spy_heading, step_line, via_probe,
};
use bt_battery_bar::hid::HidDevice;
use bt_battery_bar::hidwatch::{
    Heard, POKE_PERIOD, SonixWatch, Supervisor, ViaAsk, ViaNext, WatchKind, Watcher, drops_waiting,
    listen_end, listen_line, listen_wait, logs_packet, logs_ping, on_compx_answer, on_listened, on_via_answer, watch_kind,
    watch_name,
};
use bt_battery_bar::links::{HidState, SECOND, SONIX_LINK_TTL, receiver_id};
use bt_battery_bar::probe::unasked;
use bt_battery_bar::reports::{build_compx_cmd, sonix_status_request, sum_bytes};

const T0: u64 = 1_000 * SECOND;

fn at(path: &str, vid: u16, pid: u16, page: u16, lens: (u16, u16, u16)) -> HidDevice {
    unasked(path, (vid, pid), (page, 1), lens, ("Prod".into(), "Maker".into()), "R/W")
}

fn dongle() -> HidDevice {
    at("p", 0x0C45, 0xFEFE, 0xFF59, (65, 65, 0))
}

#[test]
fn collections_are_watched_by_kind() {
    assert_eq!(watch_kind(&dongle()), Some(WatchKind::SonixStatus));
    assert_eq!(
        watch_kind(&at("p", 0x0C45, 0x8006, 0xFF13, (65, 65, 0))),
        Some(WatchKind::SonixStatus)
    );
    assert_eq!(
        watch_kind(&at("p", 0x0C45, 0xFEFE, 0xFF60, (33, 33, 0))),
        Some(WatchKind::SonixVia)
    );
    assert_eq!(
        watch_kind(&at("p", 0x391D, 1, 0xFF02, (0, 20, 0))),
        Some(WatchKind::CompxBattery)
    );
    assert_eq!(
        watch_kind(&at("p", 0x046D, 1, 0xFF00, (20, 20, 0))),
        Some(WatchKind::HidppBattery)
    );
    assert_eq!(watch_kind(&at("p", 0x046D, 1, 0x0001, (20, 20, 0))), None);
    let mut locked = dongle();
    locked.access = "ZERO";
    assert_eq!(watch_kind(&locked), None);
    assert_eq!(watch_name(WatchKind::SonixStatus), "hid-sonix");
    assert_eq!(watch_name(WatchKind::SonixVia), "hid-via");
    assert_eq!(watch_name(WatchKind::CompxBattery), "hid-compx");
    assert_eq!(watch_name(WatchKind::HidppBattery), "hid-hidpp");
    assert!(drops_waiting(&dongle()));
    assert!(!drops_waiting(&at("p", 0x0C45, 0x8006, 0xFF13, (65, 65, 0))));
}

#[test]
fn kicks_are_taken_once() {
    let mut w = Watcher::start();
    assert!(w.take_kick() && !w.take_kick());
    assert!(w.take_poke() && !w.take_poke());
    assert!(w.pauses(0) && w.pauses(19) && !w.pauses(20));
    w.kick();
    assert!(!w.pauses(0));
    assert!(w.pauses(0));
    assert!(w.take_poke());
    w.close();
    assert!(w.stop && !w.pauses(0) && w.kick);
}

#[test]
fn rounds_follow_the_paths() {
    let mut s = Supervisor::new();
    let a = at("a", 0x0C45, 0xFEFE, 0xFF59, (65, 65, 0));
    let b = at("b", 0x1234, 1, 0x0001, (8, 8, 0));
    assert!(s.needs_probe("a"));
    let paths = vec!["a".to_string(), "b".to_string(), "c".to_string()];
    let r = s.round(&paths, &vec![Some(a.clone()), Some(b), None], false);
    assert!(r.publish && r.retired.is_empty());
    assert_eq!(r.started.len(), 1);
    assert_eq!((r.started[0].0.path.as_str(), r.started[0].1), ("a", WatchKind::SonixStatus));
    assert_eq!(s.watched, vec!["a".to_string()]);
    assert!(!s.needs_probe("a") && s.needs_probe("c"));

    let again = s.round(&paths, &vec![None, None, None], false);
    assert!(!again.publish && again.started.is_empty());
    assert_eq!(s.collections().len(), 2);
    assert!(s.round(&paths, &vec![None, None, None], true).publish);

    let gone = s.round(&vec!["b".to_string()], &vec![None], false);
    assert!(gone.publish);
    assert_eq!(gone.retired, vec!["a".to_string()]);
    assert!(s.watched.is_empty());
    let back = s.round(&vec!["b".to_string(), "a".to_string()], &vec![None, Some(a)], false);
    assert_eq!(back.started.len(), 1);
    assert!(back.publish);
}

fn live(pct: u8) -> Vec<u8> {
    let mut p = vec![0u8; 65];
    p[1] = 0x0F;
    p[2] = 0x01;
    p[3] = 0xFE;
    p[4] = pct;
    p
}

#[test]
fn dongles_are_poked_now_and_then() {
    let mut hid = HidState::new();
    let mut w = SonixWatch::new(&mut hid, &dongle(), T0);
    assert!(!w.last_up);
    assert!(!w.before_wait(&mut hid, false, T0));
    assert!(w.before_wait(&mut hid, true, T0));
    w.on_packet(&mut hid, &live(40), T0);
    let period = POKE_PERIOD * SECOND;
    assert!(!w.before_wait(&mut hid, false, T0 + period - 1));
    assert!(w.before_wait(&mut hid, false, T0 + period));
    assert!(!w.before_wait(&mut hid, false, T0 + period + 1));
}

#[test]
fn only_news_of_a_dongle_are_shown() {
    let mut hid = HidState::new();
    let mut w = SonixWatch::new(&mut hid, &dongle(), T0);
    assert!(!w.on_packet(&mut hid, &[], T0));
    assert!(w.on_packet(&mut hid, &live(40), T0));
    assert!(!w.on_packet(&mut hid, &live(40), T0));
    assert!(w.on_packet(&mut hid, &live(39), T0));
    assert!(!w.on_packet(&mut hid, &[0, 0x0F, 1, 1, 0x11], T0));
    assert!(!w.on_timeout(&mut hid, T0 + SONIX_LINK_TTL - 1));
    assert!(w.on_timeout(&mut hid, T0 + SONIX_LINK_TTL));
    assert!(!w.on_timeout(&mut hid, T0 + SONIX_LINK_TTL));
    assert!(w.on_packet(&mut hid, &[0, 0x0F, 1, 1, 0x11], T0 + 2 * SONIX_LINK_TTL));
    assert!(w.last_up);
}

#[test]
fn via_rounds_ask_until_something_answers() {
    let mut hid = HidState::new();
    let d = at("p", 0x0C45, 0xFEFE, 0xFF60, (33, 33, 0));
    assert_eq!(
        on_via_answer(&mut hid, &d, ViaAsk::Eweadn, None, false, T0),
        ViaNext::Ask(ViaAsk::Qmk)
    );
    assert_eq!(
        on_via_answer(&mut hid, &d, ViaAsk::Qmk, None, false, T0),
        ViaNext::Ask(ViaAsk::Alive)
    );
    assert_eq!(
        on_via_answer(&mut hid, &d, ViaAsk::Alive, None, false, T0),
        ViaNext::Quiet
    );
    assert!(hid.links.is_empty());
    assert_eq!(
        on_via_answer(&mut hid, &d, ViaAsk::Alive, None, true, T0),
        ViaNext::Publish
    );
    assert_eq!(
        on_via_answer(&mut hid, &d, ViaAsk::Qmk, Some(8), false, T0),
        ViaNext::Publish
    );
    assert_eq!(
        hid.links.get(&receiver_id(0x0C45, 0xFEFE)).unwrap().battery,
        Some(8)
    );
}

#[test]
fn compx_answers_are_noted() {
    let mut hid = HidState::new();
    let d = at("p", 0x373B, 1, 0xFF02, (17, 17, 0));
    assert!(!on_compx_answer(&mut hid, &d, &Err("no".into()), T0));
    assert!(hid.links.is_empty());
    assert!(on_compx_answer(&mut hid, &d, &Ok((51, "08".into())), T0));
    assert_eq!(hid.cache.get(&receiver_id(0x373B, 1)), Some(&(51, T0)));
}

#[test]
fn listening_prints_reports() {
    let d = dongle();
    assert_eq!(listen_line(&d), "  0C45:FEFE uP=FF59 in=65 out=65 Prod");
    match on_listened(&d, &Ok(vec![0x0F, 0x01, 0xFE, 42])) {
        Heard::Packet(s) => assert_eq!(s, "  0C45:FEFE in4 battery=Some(42) 0F 01 FE 2A"),
        other => panic!("{other:?}"),
    }
    match on_listened(&d, &Ok(vec![1])) {
        Heard::Packet(s) => assert_eq!(s, "  0C45:FEFE in1 battery=None 01"),
        other => panic!("{other:?}"),
    }
    assert!(matches!(on_listened(&d, &Err("read timeout".into())), Heard::Nothing));
    match on_listened(&d, &Err("ReadFile 0x80070005".into())) {
        Heard::Failed(s) => assert_eq!(s, "  0C45:FEFE ReadFile 0x80070005"),
        other => panic!("{other:?}"),
    }
    assert_eq!(listen_end(5, 0), 5 + SECOND);
    assert_eq!(listen_end(5, 3), 5 + 3 * SECOND);
    assert_eq!(listen_end(5, u64::MAX), u64::MAX);
    assert_eq!(listen_wait(0, 999_999), None);
    assert_eq!(listen_wait(0, 1_000_000), Some(50));
    assert_eq!(listen_wait(0, 700_000_000), Some(700));
    assert_eq!(listen_wait(0, 9 * SECOND), Some(4000));
    assert_eq!(listen_wait(7, 5), None);
}

#[test]
fn spying_on_a_mouse() {
    let d = at("p", 0x373B, 0x101B, 0xFF02, (17, 17, 0));
    let steps = spy(&d).unwrap();
    let labels: Vec<&str> = steps.iter().map(|s| s.label.as_str()).collect();
    assert_eq!(
        labels,
        vec![
            "fresh-set-then-read",
            "compx-08-04",
            "set-then-read",
            "write-then-read",
            "eeprom-set-then-read",
        ]
    );
    assert_eq!(steps[0].how, How::FreshSetThenRead);
    assert_eq!(steps[1].cmd, build_compx_cmd(0x08, 17));
    assert_eq!((steps[1].read, steps[1].ms), (17, 1200));
    assert_eq!(sum_bytes(&steps[4].cmd), 0x55);
    assert_eq!(&steps[4].cmd[..6], &[8, 8, 0, 0, 0, 1]);
    assert_eq!(
        spy_heading(&d),
        "--- spy 373B:101B uP=FF02 u=0001 in=17 out=17 feat=0 prod=Prod ---"
    );
    assert!(spy(&at("p", 0x1234, 1, 0xFF02, (17, 17, 0))).is_none());
    assert!(spy(&at("p", 0x373B, 1, 0x0001, (17, 17, 0))).is_none());
    assert!(spy(&at("p", 0x373B, 1, 0xFF02, (0, 17, 0))).unwrap().is_empty());
}

#[test]
fn spying_on_a_keyboard() {
    let steps = spy(&dongle()).unwrap();
    let labels: Vec<&str> = steps.iter().map(|s| s.label.as_str()).collect();
    assert_eq!(
        labels,
        vec!["via65-proto", "qmk65-a4", "cmd-0f", "cmd-04", "unique-99", "long-unsolicited"]
    );
    assert_eq!(&steps[4].cmd[..5], &[0, 0x99, 0x88, 0x77, 0]);
    assert_eq!((steps[5].how, steps[5].ms), (How::ReadOnly, 2500));
    let small = spy(&at("p", 0x0C45, 0xFEFE, 0xFF60, (33, 33, 0))).unwrap();
    assert_eq!(small.len(), 6);
    assert_eq!(&small[4].cmd[..4], &[0, 8, 5, 1]);
    let odd = spy(&at("p", 0x373B, 1, 0xFF02, (49, 20, 0))).unwrap();
    let odd_labels: Vec<&str> = odd.iter().map(|s| s.label.as_str()).collect();
    assert_eq!(odd_labels, vec!["compx-13-04", "rid0-cmd04", "compx-49", "compx-49-set"]);
}

#[test]
fn scanning_a_dongle() {
    let steps = scan(&at("p", 0x0C45, 0xFEFE, 0xFF59, (65, 65, 9))).unwrap();
    assert_eq!(steps.len(), 1 + 7 + 17);
    assert_eq!((steps[0].label.as_str(), steps[0].ms), ("unsolicited", 800));
    assert_eq!(steps[1].how, How::SetOnly);
    assert_eq!(&steps[4].cmd[..4], &[0xAA, 0x55, 0x0F, 0]);
    assert_eq!(steps[24].cmd, vec![16, 0, 0, 0, 0, 0, 0, 0, 0]);
    let via = scan(&at("p", 0x0C45, 0xFEFE, 0xFF60, (33, 33, 0))).unwrap();
    assert_eq!(via.len(), 5);
    assert_eq!(via[0].ms, 200);
    let mute = scan(&at("p", 0x0C45, 0xFEFE, 0xFF59, (0, 0, 9))).unwrap();
    assert_eq!((mute.len(), mute[0].read), (1, 1));
    assert!(scan(&at("p", 0x0C45, 0x8006, 0xFF59, (65, 65, 9))).is_none());
}

#[test]
fn scanning_all_commands() {
    let d = dongle();
    assert!(scans_status(&d));
    assert!(!scans_status(&at("p", 0x0C45, 0xFEFE, 0xFF60, (65, 65, 0))));
    let a = scan2(&d, 0xAB);
    assert_eq!((a.label.as_str(), a.cmd[1], a.cmd[2]), ("cmd[1]=AB", 0xAB, 0));
    let b = scan2(&d, 256 + 1);
    assert_eq!(b.label, "cmd 0F 01");
    assert_eq!(b.cmd, sonix_status_request(65));
    assert!(is_interesting(&[0, 0x0F, 1, 2, 0x11]));
    assert!(!is_interesting(&[0, 0x0F, 1, 1, 0x11, 9]));
    assert!(!is_interesting(&[0, 0]));
}

#[test]
fn probing_via_commands() {
    let steps = via_probe(&at("p", 0x0C45, 1, 0xFF60, (33, 33, 0))).unwrap();
    assert_eq!(steps.len(), 44);
    assert_eq!(steps[1].label, "kbval-02-00");
    assert_eq!(steps[32].label, "custom-08-ch0F");
    assert_eq!(steps[40].label, "custom-08-ch07-v01");
    assert_eq!(&steps[40].cmd[..4], &[0, 8, 7, 1]);
    assert_eq!(steps[43].label, "q20b");
    assert!(via_probe(&dongle()).is_none());
}

#[test]
fn probing_features() {
    let d = at("p", 0x0C45, 0xFEFE, 0xFF60, (33, 33, 1));
    let steps = feat_probe(&d).unwrap();
    assert_eq!(steps.len(), 33 + 17);
    assert_eq!((steps[32].label.as_str(), steps[32].cmd.clone()), ("20", vec![0x20, 0]));
    assert_eq!(steps[49].how, How::SetThenGetFeature);
    assert!(feat_probe(&dongle()).is_none());
    assert!(is_feature_filled(&[1, 0, 5]) && !is_feature_filled(&[1, 0]));
    assert!(is_feature_telling(&[3, 0, 5], 3) && !is_feature_telling(&[3, 0, 3], 3));
}

#[test]
fn steps_have_lines() {
    assert_eq!(step_line("qmk-a4", " -> ", &Ok(vec![1, 2])), "  qmk-a4 -> 01 02");
    assert_eq!(step_line("after-0f", " ", &Err("read timeout".into())), "  after-0f read timeout");
}

#[test]
fn via_probe_listens_for_three_lines() {
    let mut l = Listening::new(Listener::ViaProbe, T0);
    assert_eq!(l.wants_read(T0), Some(800));
    assert_eq!(l.wants_read(T0 + 1_500_000_000), Some(100));
    assert_eq!(l.wants_read(T0 + 1_599_999_999), Some(1));
    assert_eq!(l.wants_read(T0 + 1_600_000_000), None);
    assert_eq!(l.ending("q20").as_deref(), Some("  q20 -> (no reply)"));
    assert_eq!(l.on_read("q20", &Ok(vec![0, 0])), None);
    for n in 1..=3 {
        assert!(l.wants_read(T0).is_some());
        assert_eq!(l.on_read("q20", &Ok(vec![0, 0xA4])).as_deref(), Some("  q20 -> 00 A4"));
        assert_eq!(l.printed, n);
    }
    assert_eq!(l.wants_read(T0), None);
    assert_eq!(l.ending("q20"), None);
}

#[test]
fn scan2_listens_until_a_read_fails() {
    let mut l = Listening::new(Listener::Scan2, T0);
    assert_eq!(l.wants_read(T0 + 259_999_999), Some(60));
    assert_eq!(l.wants_read(T0 + 260_000_000), None);
    assert_eq!(l.on_read("c", &Ok(vec![0, 0x0F, 1, 1, 0x11, 7])), None);
    for _ in 0..5 {
        assert!(l.on_read("c", &Ok(vec![1])).is_some());
    }
    assert_eq!((l.printed, l.wants_read(T0)), (5, Some(60)));
    assert_eq!(l.on_read("c", &Err("read timeout".into())), None);
    assert_eq!(l.wants_read(T0), None);
    assert_eq!(Listening::new(Listener::Scan2, T0).ending("c"), None);
}

#[test]
fn only_the_first_reports_are_logged() {
    assert!(logs_packet(15) && !logs_packet(16));
    assert!(logs_ping(7) && !logs_ping(8));
}
