//! The watcher of receivers: which collections are listened to, when they are asked,
//! and when what they tell is worth showing.

use vstd::prelude::*;

use crate::hid;
use crate::hid::{HidDevice, HidView, clone_collections};
use crate::links;
use crate::links::{HidState, SECOND, note_live_battery, sonix_rf_alive, time_since};
use crate::model;
use crate::probe;
use crate::receiver;
use crate::receiver::{is_compx_vid, is_hidpp_vid, is_sonix_vid, is_vendor_page};
use crate::reports;
use crate::reports::parse_sonix_battery;
use crate::text;
use crate::text::{has_text, owned, push_decimal, push_hex, push_text, same, to_hex};

verus! {

/// The seconds between two queries of a Compx receiver.
pub const COMPX_PERIOD: u64 = 8;

/// The seconds between two rounds with a VIA keyboard.
pub const VIA_PERIOD: u64 = 12;

/// The seconds between two HID++ queries.
pub const HIDPP_PERIOD: u64 = 30;

/// The milliseconds of one slice of the pause between two looks at the paths.
pub const SUPERVISOR_SLICE_MS: u64 = 100;

/// The slices of that pause.
pub const SUPERVISOR_ITERS: u32 = 20;

/// The milliseconds for which a status is waited for at a time.
pub const SONIX_WAIT_MS: u32 = 250;

/// The seconds after which a dongle whose link is up is poked again.
pub const POKE_PERIOD: u64 = 15;

/// The milliseconds after which a collection that could not be opened is tried again.
pub const REOPEN_MS: u64 = 800;

/// Whether a status report is logged, after `logged` of them: the first ones are.
pub fn logs_packet(logged: u32) -> (r: bool)
    ensures
        r == (logged < 16),
{
    logged < 16
}

/// Whether a VIA ping is logged, after `logged` of them: the first ones are.
pub fn logs_ping(logged: u32) -> (r: bool)
    ensures
        r == (logged < 8),
{
    logged < 8
}

// ----------------------------------------------------------------------- kinds

/// How a collection is watched.
#[derive(Clone, Copy, Debug, PartialEq, Eq, Structural)]
pub enum WatchKind {
    SonixStatus,
    SonixVia,
    CompxBattery,
    HidppBattery,
}

/// How a collection is watched, if it is.
pub open spec fn kind_of(d: HidView) -> Option<WatchKind> {
    if d.access != "R/W"@ || d.usage_page < 0xFF00 {
        None
    } else if d.vid == 0x0C45 && (d.pid == 0xFEFE || d.pid == 0x8006) && d.input_len == 65 {
        Some(WatchKind::SonixStatus)
    } else if d.vid == 0x0C45 && d.pid == 0xFEFE && d.input_len == 33 {
        Some(WatchKind::SonixVia)
    } else if receiver::compx_vid(d.vid) && (probe::has_len(d, 17) || probe::has_len(d, 20)) {
        Some(WatchKind::CompxBattery)
    } else if d.vid == 0x046D {
        Some(WatchKind::HidppBattery)
    } else {
        None
    }
}

pub fn watch_kind(d: &HidDevice) -> (r: Option<WatchKind>)
    ensures
        r == kind_of(d@),
{
    if !same(d.access, "R/W") || !is_vendor_page(d.usage_page) {
        return None;
    }
    if is_sonix_vid(d.vid) && (d.pid == 0xFEFE || d.pid == 0x8006) && d.input_len == 65 {
        return Some(WatchKind::SonixStatus);
    }
    if is_sonix_vid(d.vid) && d.pid == 0xFEFE && d.input_len == 33 {
        return Some(WatchKind::SonixVia);
    }
    if is_compx_vid(d.vid) && (d.input_len == 17 || d.input_len == 20 || d.output_len == 17
        || d.output_len == 20) {
        return Some(WatchKind::CompxBattery);
    }
    if is_hidpp_vid(d.vid) {
        return Some(WatchKind::HidppBattery);
    }
    None
}

/// The name of the thread that watches a collection.
pub fn watch_name(kind: WatchKind) -> (r: &'static str)
    ensures
        r@ == match kind {
            WatchKind::SonixStatus => "hid-sonix"@,
            WatchKind::SonixVia => "hid-via"@,
            WatchKind::CompxBattery => "hid-compx"@,
            WatchKind::HidppBattery => "hid-hidpp"@,
        },
{
    match kind {
        WatchKind::SonixStatus => "hid-sonix",
        WatchKind::SonixVia => "hid-via",
        WatchKind::CompxBattery => "hid-compx",
        WatchKind::HidppBattery => "hid-hidpp",
    }
}

// --------------------------------------------------------------------- watcher

/// What the watcher is told.
#[derive(Clone, Copy, Debug, PartialEq, Eq, Structural)]
pub struct Watcher {
    pub stop: bool,
    /// The paths are to be looked at now.
    pub kick: bool,
    /// A dongle is to be poked.
    pub poke: bool,
}

impl Watcher {
    /// A new watcher looks at the paths and pokes at once.
    pub fn start() -> (r: Self)
        ensures
            r == (Watcher { stop: false, kick: true, poke: true }),
    {
        Watcher { stop: false, kick: true, poke: true }
    }

    pub fn kick(&mut self)
        ensures
            *final(self) == (Watcher { kick: true, poke: true, ..*old(self) }),
    {
        self.poke = true;
        self.kick = true;
    }

    /// Lets all threads of the watcher end.
    pub fn close(&mut self)
        ensures
            *final(self) == (Watcher { stop: true, kick: true, poke: true }),
    {
        self.stop = true;
        self.kick();
    }

    /// Whether the paths are to be looked at now; the next call is told no.
    pub fn take_kick(&mut self) -> (r: bool)
        ensures
            r == old(self).kick,
            *final(self) == (Watcher { kick: false, ..*old(self) }),
    {
        let v = self.kick;
        self.kick = false;
        v
    }

    /// Whether a dongle is to be poked; the next call is told no.
    pub fn take_poke(&mut self) -> (r: bool)
        ensures
            r == old(self).poke,
            *final(self) == (Watcher { poke: false, ..*old(self) }),
    {
        let v = self.poke;
        self.poke = false;
        v
    }

    /// Whether the pause goes on for another slice, after `slices` of them. A kick
    /// ends it.
    pub fn pauses(&mut self, slices: u32) -> (r: bool)
        ensures
            r == (slices < SUPERVISOR_ITERS && !old(self).stop && !old(self).kick),
            *final(self) == (Watcher {
                kick: old(self).kick && (slices >= SUPERVISOR_ITERS || old(self).stop),
                ..*old(self)
            }),
    {
        if slices >= SUPERVISOR_ITERS || self.stop {
            return false;
        }
        !self.take_kick()
    }
}

// ------------------------------------------------------------------ supervisor

/// What is remembered between two looks at the paths.
#[derive(Debug)]
pub struct Supervisor {
    /// The collections of the last look.
    pub last_raw: Vec<HidDevice>,
    /// The paths that are watched.
    pub watched: Vec<String>,
}

/// What follows from a look at the paths.
#[derive(Debug)]
pub struct Round {
    /// Paths that are no longer there.
    pub retired: Vec<String>,
    /// Collections that are to be watched from now on.
    pub started: Vec<(HidDevice, WatchKind)>,
    /// The device rows are to be shown anew.
    pub publish: bool,
}

/// The collection at a path among those of the last look.
pub open spec fn seen_at(prev: Seq<HidDevice>, path: Seq<char>) -> Option<HidDevice>
    decreases prev.len(),
{
    if prev.len() == 0 {
        None
    } else if prev[0].path@ == path {
        Some(prev[0])
    } else {
        seen_at(prev.skip(1), path)
    }
}

/// The collections of a look at the paths: one that was there before is not opened
/// again. `probed` holds what came of opening each of the others.
pub open spec fn present_collections(
    prev: Seq<HidDevice>,
    paths: Seq<Seq<char>>,
    probed: Seq<Option<HidDevice>>,
) -> Seq<HidDevice>
    decreases paths.len(),
{
    if paths.len() == 0 {
        Seq::empty()
    } else {
        let before = present_collections(prev, paths.drop_last(), probed);
        match seen_at(prev, paths.last()) {
            Some(d) => before.push(d),
            None => match probed[paths.len() - 1] {
                Some(d) => before.push(d),
                None => before,
            },
        }
    }
}

/// The watched paths that are still there, or those that are not.
pub open spec fn still(watched: Seq<Seq<char>>, paths: Seq<Seq<char>>, there: bool) -> Seq<
    Seq<char>,
> {
    watched.filter(|p: Seq<char>| paths.contains(p) == there)
}

/// The collections that are to be watched from now on: those of a kind that is
/// watched, whose path is not watched yet.
pub open spec fn newcomers(watched: Seq<Seq<char>>, raw: Seq<HidDevice>) -> Seq<
    (HidDevice, WatchKind),
>
    decreases raw.len(),
{
    if raw.len() == 0 {
        Seq::empty()
    } else {
        let before = newcomers(watched, raw.drop_last());
        let d = raw.last();
        if watched_after(watched, raw.drop_last()).contains(d.path@) || kind_of(d@) is None {
            before
        } else {
            before.push((d, kind_of(d@)->0))
        }
    }
}

/// The watched paths after the newcomers joined them.
pub open spec fn watched_after(watched: Seq<Seq<char>>, raw: Seq<HidDevice>) -> Seq<Seq<char>>
    decreases raw.len(),
{
    if raw.len() == 0 {
        watched
    } else {
        let before = watched_after(watched, raw.drop_last());
        let d = raw.last();
        if before.contains(d.path@) || kind_of(d@) is None {
            before
        } else {
            before.push(d.path@)
        }
    }
}

/// The collections differ from those of the last look.
pub open spec fn is_new_set(
    prev: Seq<HidDevice>,
    paths: Seq<Seq<char>>,
    raw: Seq<HidDevice>,
) -> bool {
    ||| prev.len() != raw.len()
    ||| exists|i: int| 0 <= i < prev.len() && !paths.contains((#[trigger] prev[i]).path@)
    ||| exists|i: int|
        0 <= i < raw.len() && seen_at(prev, (#[trigger] raw[i]).path@) is None
}

fn in_texts(v: &Vec<String>, s: &str) -> (r: bool)
    ensures
        r == model::texts(v@).contains(s@),
{
    let ghost t = model::texts(v@);
    for i in 0..v.len()
        invariant
            t == model::texts(v@),
            forall|j: int| 0 <= j < i ==> t[j] != s@,
    {
        if same(v[i].as_str(), s) {
            assert(t[i as int] == s@);
            return true;
        }
    }
    false
}

fn find_seen(prev: &Vec<HidDevice>, path: &str) -> (r: Option<HidDevice>)
    ensures
        r == seen_at(prev@, path@),
{
    assert(prev@.skip(0) =~= prev@);
    for i in 0..prev.len()
        invariant
            seen_at(prev@, path@) == seen_at(prev@.skip(i as int), path@),
    {
        if same(prev[i].path.as_str(), path) {
            return Some(prev[i].clone());
        }
        assert(prev@.skip(i as int).skip(1) =~= prev@.skip(i + 1));
    }
    None
}

impl Supervisor {
    pub fn new() -> (r: Self)
        ensures
            r.last_raw@.len() == 0,
            r.watched@.len() == 0,
    {
        Supervisor { last_raw: Vec::new(), watched: Vec::new() }
    }

    /// Whether the collection at a path is to be opened.
    pub fn needs_probe(&self, path: &str) -> (r: bool)
        ensures
            r == (seen_at(self.last_raw@, path@) is None),
    {
        find_seen(&self.last_raw, path).is_none()
    }

    fn collect(&self, paths: &Vec<String>, probed: &Vec<Option<HidDevice>>) -> (r: Vec<HidDevice>)
        requires
            paths@.len() == probed@.len(),
        ensures
            r@ == present_collections(self.last_raw@, model::texts(paths@), probed@),
    {
        let ghost t = model::texts(paths@);
        let mut raw: Vec<HidDevice> = Vec::new();
        for i in 0..paths.len()
            invariant
                t == model::texts(paths@),
                paths@.len() == probed@.len(),
                raw@ == present_collections(self.last_raw@, t.take(i as int), probed@),
        {
            assert(t.take(i + 1).drop_last() =~= t.take(i as int));
            assert(t.take(i + 1).last() == paths@[i as int]@);
            match find_seen(&self.last_raw, paths[i].as_str()) {
                Some(d) => raw.push(d),
                None => match &probed[i] {
                    Some(d) => raw.push(d.clone()),
                    None => {},
                },
            }
        }
        assert(t.take(t.len() as int) =~= t);
        raw
    }

    fn retire(&mut self, paths: &Vec<String>) -> (r: Vec<String>)
        ensures
            model::texts(final(self).watched@) == still(
                model::texts(old(self).watched@),
                model::texts(paths@),
                true,
            ),
            model::texts(r@) == still(
                model::texts(old(self).watched@),
                model::texts(paths@),
                false,
            ),
            final(self).last_raw == old(self).last_raw,
    {
        let ghost w = model::texts(self.watched@);
        let ghost p = model::texts(paths@);
        let ghost stay = |s: Seq<char>| p.contains(s) == true;
        let ghost go = |s: Seq<char>| p.contains(s) == false;
        let mut kept: Vec<String> = Vec::new();
        let mut gone: Vec<String> = Vec::new();
        assert(w.take(0).filter(stay) =~= Seq::empty()) by {
            reveal(Seq::filter);
        }
        assert(w.take(0).filter(go) =~= Seq::empty()) by {
            reveal(Seq::filter);
        }
        for i in 0..self.watched.len()
            invariant
                w == model::texts(self.watched@),
                p == model::texts(paths@),
                stay == (|s: Seq<char>| p.contains(s) == true),
                go == (|s: Seq<char>| p.contains(s) == false),
                self.last_raw == old(self).last_raw,
                self.watched == old(self).watched,
                model::texts(kept@) == w.take(i as int).filter(stay),
                model::texts(gone@) == w.take(i as int).filter(go),
        {
            reveal(Seq::filter);
            assert(w.take(i + 1).drop_last() =~= w.take(i as int));
            assert(w.take(i + 1).last() == self.watched@[i as int]@);
            let s = self.watched[i].clone();
            if in_texts(paths, s.as_str()) {
                let ghost before = kept@;
                kept.push(s);
                assert(model::texts(kept@) =~= model::texts(before).push(s@));
            } else {
                let ghost before = gone@;
                gone.push(s);
                assert(model::texts(gone@) =~= model::texts(before).push(s@));
            }
        }
        assert(w.take(w.len() as int) =~= w);
        assert(w.filter(stay) =~= still(w, p, true));
        assert(w.filter(go) =~= still(w, p, false));
        self.watched = kept;
        gone
    }

    fn join(&mut self, raw: &Vec<HidDevice>) -> (r: Vec<(HidDevice, WatchKind)>)
        ensures
            r@ == newcomers(model::texts(old(self).watched@), raw@),
            model::texts(final(self).watched@) == watched_after(
                model::texts(old(self).watched@),
                raw@,
            ),
            final(self).last_raw == old(self).last_raw,
    {
        let ghost w = model::texts(self.watched@);
        let mut out: Vec<(HidDevice, WatchKind)> = Vec::new();
        for i in 0..raw.len()
            invariant
                self.last_raw == old(self).last_raw,
                out@ == newcomers(w, raw@.take(i as int)),
                model::texts(self.watched@) == watched_after(w, raw@.take(i as int)),
        {
            assert(raw@.take(i + 1).drop_last() =~= raw@.take(i as int));
            let d = &raw[i];
            if !in_texts(&self.watched, d.path.as_str()) {
                if let Some(kind) = watch_kind(d) {
                    out.push((d.clone(), kind));
                    let ghost before = self.watched@;
                    self.watched.push(d.path.clone());
                    assert(model::texts(self.watched@) =~= model::texts(before).push(d.path@));
                }
            }
        }
        assert(raw@.take(raw@.len() as int) =~= raw@);
        out
    }

    fn differs(&self, paths: &Vec<String>, raw: &Vec<HidDevice>) -> (r: bool)
        ensures
            r == is_new_set(self.last_raw@, model::texts(paths@), raw@),
    {
        if self.last_raw.len() != raw.len() {
            return true;
        }
        let ghost p = model::texts(paths@);
        for i in 0..self.last_raw.len()
            invariant
                p == model::texts(paths@),
                forall|j: int| 0 <= j < i ==> p.contains((#[trigger] self.last_raw@[j]).path@),
        {
            if !in_texts(paths, self.last_raw[i].path.as_str()) {
                assert(!p.contains(self.last_raw@[i as int].path@));
                return true;
            }
        }
        for i in 0..raw.len()
            invariant
                forall|j: int|
                    0 <= j < i ==> seen_at(self.last_raw@, (#[trigger] raw@[j]).path@) is Some,
        {
            if find_seen(&self.last_raw, raw[i].path.as_str()).is_none() {
                assert(seen_at(self.last_raw@, raw@[i as int].path@) is None);
                return true;
            }
        }
        false
    }

    /// Takes in a look at the paths: those that are there, and what came of opening
    /// each of those that were not there before. `kicked` asks for the rows in any
    /// case.
    pub fn round(
        &mut self,
        paths: &Vec<String>,
        probed: &Vec<Option<HidDevice>>,
        kicked: bool,
    ) -> (r: Round)
        requires
            paths@.len() == probed@.len(),
        ensures
            ({
                let p = model::texts(paths@);
                let w = model::texts(old(self).watched@);
                let raw = present_collections(old(self).last_raw@, p, probed@);
                &&& final(self).last_raw@ == raw
                &&& model::texts(r.retired@) == still(w, p, false)
                &&& r.started@ == newcomers(still(w, p, true), raw)
                &&& model::texts(final(self).watched@) == watched_after(still(w, p, true), raw)
                &&& r.publish == (kicked || is_new_set(old(self).last_raw@, p, raw))
            }),
    {
        let raw = self.collect(paths, probed);
        let retired = self.retire(paths);
        let started = self.join(&raw);
        let publish = self.differs(paths, &raw) || kicked;
        self.last_raw = raw;
        Round { retired, started, publish }
    }

    /// The collections of the last look.
    pub fn collections(&self) -> (r: Vec<HidDevice>)
        ensures
            r@ == self.last_raw@,
    {
        clone_collections(&self.last_raw)
    }
}

// ------------------------------------------------------------ watching a dongle

/// What is remembered while the status of a dongle is watched.
#[derive(Clone, Copy, Debug, PartialEq, Eq, Structural)]
pub struct SonixWatch {
    pub vid: u16,
    pub pid: u16,
    /// The link was up when it was last looked at.
    pub last_up: bool,
    /// When the dongle was last poked.
    pub last_poke: Option<u64>,
    /// The battery that it last told.
    pub last_pct: Option<u8>,
}

/// A dongle whose link is up is to be poked again.
pub open spec fn is_poke_due(last_poke: Option<u64>, now: u64) -> bool {
    last_poke matches Some(at) ==> links::elapsed(at, now) >= POKE_PERIOD * SECOND
}

impl SonixWatch {
    /// Begins to watch a dongle.
    pub fn new(hid: &mut HidState, d: &HidDevice, now: u64) -> (r: Self)
        ensures
            r == (SonixWatch {
                vid: d.vid,
                pid: d.pid,
                last_up: probe::is_alive(old(hid)@, d.vid, d.pid, false, now),
                last_poke: None,
                last_pct: None,
            }),
            final(hid)@ == probe::listened(old(hid)@, d.vid, d.pid, false, now),
    {
        let up = sonix_rf_alive(hid, d.vid, d.pid, false, now);
        SonixWatch { vid: d.vid, pid: d.pid, last_up: up, last_poke: None, last_pct: None }
    }

    /// Before a wait for a status: whether the dongle is to be poked. It is when
    /// that was asked for, and now and then while its link is up.
    pub fn before_wait(&mut self, hid: &mut HidState, asked: bool, now: u64) -> (r: bool)
        ensures
            r == (asked || (probe::is_alive(old(hid)@, old(self).vid, old(self).pid, false, now)
                && is_poke_due(old(self).last_poke, now))),
            *final(self) == (SonixWatch {
                last_poke: if r {
                    Some(now)
                } else {
                    old(self).last_poke
                },
                ..*old(self)
            }),
            final(hid)@ == if asked {
                old(hid)@
            } else {
                probe::listened(old(hid)@, old(self).vid, old(self).pid, false, now)
            },
    {
        let mut poke = asked;
        if !asked {
            let due = match self.last_poke {
                Some(at) => time_since(at, now) >= POKE_PERIOD * SECOND,
                None => true,
            };
            poke = sonix_rf_alive(hid, self.vid, self.pid, false, now) && due;
        }
        if poke {
            self.last_poke = Some(now);
        }
        poke
    }

    /// No status came for a while: whether the rows are to be shown anew, because
    /// the link went down or came up.
    pub fn on_timeout(&mut self, hid: &mut HidState, now: u64) -> (r: bool)
        ensures
            ({
                let up = probe::is_alive(old(hid)@, old(self).vid, old(self).pid, false, now);
                &&& r == (up != old(self).last_up)
                &&& *final(self) == (SonixWatch { last_up: up, ..*old(self) })
            }),
            final(hid)@ == probe::listened(
                old(hid)@,
                old(self).vid,
                old(self).pid,
                false,
                now,
            ),
    {
        let up = sonix_rf_alive(hid, self.vid, self.pid, false, now);
        let changed = up != self.last_up;
        self.last_up = up;
        changed
    }

    /// A report came: whether the rows are to be shown anew, because it tells
    /// another battery or shows that the link is up again. Any report of the dongle
    /// shows that its radio is heard.
    pub fn on_packet(&mut self, hid: &mut HidState, bytes: &[u8], now: u64) -> (r: bool)
        ensures
            match reports::sonix_battery(bytes@) {
                Some(pct) => {
                    &&& r == (old(self).last_pct != Some(pct))
                    &&& *final(self) == (SonixWatch {
                        last_up: true,
                        last_pct: Some(pct),
                        ..*old(self)
                    })
                    &&& final(hid)@ == probe::noted(
                        old(hid)@,
                        old(self).vid,
                        old(self).pid,
                        pct,
                        now,
                    )
                },
                None => if bytes@.len() > 0 {
                    let up = probe::is_alive(
                        old(hid)@,
                        old(self).vid,
                        old(self).pid,
                        true,
                        now,
                    );
                    &&& r == (up && !old(self).last_up)
                    &&& *final(self) == (SonixWatch {
                        last_up: old(self).last_up || up,
                        ..*old(self)
                    })
                    &&& final(hid)@ == probe::listened(
                        old(hid)@,
                        old(self).vid,
                        old(self).pid,
                        true,
                        now,
                    )
                } else {
                    !r && *final(self) == *old(self) && final(hid)@ == old(hid)@
                },
            },
    {
        if let Some(pct) = parse_sonix_battery(bytes) {
            let changed = match self.last_pct {
                Some(p) => p != pct,
                None => true,
            };
            note_live_battery(hid, self.vid, self.pid, pct, now);
            self.last_up = true;
            self.last_pct = Some(pct);
            return changed;
        }
        if bytes.len() > 0 {
            if sonix_rf_alive(hid, self.vid, self.pid, true, now) && !self.last_up {
                self.last_up = true;
                return true;
            }
        }
        false
    }
}

/// Whether the reports that wait are dropped when a dongle begins to be watched:
/// those of the wireless dongle may be stale.
pub fn drops_waiting(d: &HidDevice) -> (r: bool)
    ensures
        r == (d.pid == 0xFEFE),
{
    d.pid == 0xFEFE
}

// --------------------------------------------------------- asking now and then

/// The questions of a round with a VIA keyboard.
#[derive(Clone, Copy, Debug, PartialEq, Eq, Structural)]
pub enum ViaAsk {
    Eweadn,
    Qmk,
    Alive,
}

/// What follows from an answer of a VIA keyboard.
#[derive(Clone, Copy, Debug, PartialEq, Eq, Structural)]
pub enum ViaNext {
    Ask(ViaAsk),
    /// The round is over, and the rows are to be shown anew.
    Publish,
    /// The round is over.
    Quiet,
}

/// Takes in the answer to a question of a round with a VIA keyboard: its battery,
/// or whether it answered at all.
pub fn on_via_answer(
    hid: &mut HidState,
    d: &HidDevice,
    ask: ViaAsk,
    battery: Option<u8>,
    alive: bool,
    now: u64,
) -> (r: ViaNext)
    ensures
        match ask {
            ViaAsk::Alive => if alive {
                &&& r == if probe::is_alive(old(hid)@, d.vid, d.pid, true, now) {
                    ViaNext::Publish
                } else {
                    ViaNext::Quiet
                }
                &&& final(hid)@ == probe::listened(old(hid)@, d.vid, d.pid, true, now)
            } else {
                r == ViaNext::Quiet && final(hid)@ == old(hid)@
            },
            _ => match battery {
                Some(pct) => r == ViaNext::Publish && final(hid)@ == probe::noted(
                    old(hid)@,
                    d.vid,
                    d.pid,
                    pct,
                    now,
                ),
                None => r == ViaNext::Ask(
                    if ask == ViaAsk::Eweadn {
                        ViaAsk::Qmk
                    } else {
                        ViaAsk::Alive
                    },
                ) && final(hid)@ == old(hid)@,
            },
        },
{
    match ask {
        ViaAsk::Alive => {
            if alive && sonix_rf_alive(hid, d.vid, d.pid, true, now) {
                ViaNext::Publish
            } else {
                ViaNext::Quiet
            }
        },
        _ => match battery {
            Some(pct) => {
                note_live_battery(hid, d.vid, d.pid, pct, now);
                ViaNext::Publish
            },
            None => ViaNext::Ask(
                if ask == ViaAsk::Eweadn {
                    ViaAsk::Qmk
                } else {
                    ViaAsk::Alive
                },
            ),
        },
    }
}

/// Takes in what came of a Compx query: whether the rows are to be shown anew.
pub fn on_compx_answer(
    hid: &mut HidState,
    d: &HidDevice,
    answer: &Result<(u8, String), String>,
    now: u64,
) -> (r: bool)
    ensures
        r == (answer is Ok),
        final(hid)@ == match answer {
            Ok(f) => probe::noted(old(hid)@, d.vid, d.pid, f.0, now),
            Err(_) => old(hid)@,
        },
{
    match answer {
        Ok(f) => {
            note_live_battery(hid, d.vid, d.pid, f.0, now);
            true
        },
        Err(_) => false,
    }
}

// --------------------------------------------------------------------- listening

/// Two ids, as four digits each.
pub open spec fn ids_text(vid: u16, pid: u16) -> Seq<char> {
    text::hex(vid as nat, 4) + ":"@ + text::hex(pid as nat, 4)
}

/// A battery as it is printed for diagnosis.
pub open spec fn battery_text(b: Option<u8>) -> Seq<char> {
    match b {
        Some(pct) => "Some("@ + text::decimal(pct as nat) + ")"@,
        None => "None"@,
    }
}

pub(crate) fn push_ids(out: &mut String, vid: u16, pid: u16)
    ensures
        final(out)@ == old(out)@ + ids_text(vid, pid),
{
    push_hex(out, vid as u64, 4);
    push_text(out, ":");
    push_hex(out, pid as u64, 4);
    assert(out@ =~= old(out)@ + ids_text(vid, pid));
}

pub(crate) fn push_battery(out: &mut String, b: Option<u8>)
    ensures
        final(out)@ == old(out)@ + battery_text(b),
{
    match b {
        Some(pct) => {
            push_text(out, "Some(");
            push_decimal(out, pct as u64);
            push_text(out, ")");
        },
        None => push_text(out, "None"),
    }
    assert(out@ =~= old(out)@ + battery_text(b));
}

/// The line for a collection that is listened to.
pub fn listen_line(d: &HidDevice) -> (r: String)
    ensures
        r@ == "  "@ + ids_text(d.vid, d.pid) + " uP="@ + text::hex(d.usage_page as nat, 4) + " in="@
            + text::decimal(d.input_len as nat) + " out="@ + text::decimal(d.output_len as nat)
            + " "@ + d.product@,
{
    let mut s = owned("  ");
    push_ids(&mut s, d.vid, d.pid);
    push_text(&mut s, " uP=");
    push_hex(&mut s, d.usage_page as u64, 4);
    push_text(&mut s, " in=");
    push_decimal(&mut s, d.input_len as u64);
    push_text(&mut s, " out=");
    push_decimal(&mut s, d.output_len as u64);
    push_text(&mut s, " ");
    push_text(&mut s, d.product.as_str());
    assert(s@ =~= "  "@ + ids_text(d.vid, d.pid) + " uP="@ + text::hex(d.usage_page as nat, 4)
        + " in="@ + text::decimal(d.input_len as nat) + " out="@ + text::decimal(
        d.output_len as nat,
    ) + " "@ + d.product@);
    s
}

/// When listening for some seconds ends; one second is the least.
pub fn listen_end(now: u64, seconds: u64) -> (r: u64)
    ensures
        ({
            let end = now + (if seconds < 1 {
                1
            } else {
                seconds
            }) * SECOND;
            r == if end > u64::MAX {
                u64::MAX as int
            } else {
                end
            }
        }),
{
    let s: u64 = if seconds < 1 {
        1
    } else {
        seconds
    };
    match s.checked_mul(SECOND) {
        Some(ns) => match now.checked_add(ns) {
            Some(t) => t,
            None => u64::MAX,
        },
        None => u64::MAX,
    }
}

/// The milliseconds to wait for the next report, 4 seconds at most and 50
/// milliseconds at least; nothing once less than a millisecond is left.
pub fn listen_wait(now: u64, end: u64) -> (r: Option<u32>)
    ensures
        end - now < 1_000_000 ==> r is None,
        end - now >= 1_000_000 ==> {
            let ms = (end - now) / 1_000_000;
            r == Some(
                if ms > 4000 {
                    4000u32
                } else if ms < 50 {
                    50u32
                } else {
                    ms as u32
                },
            )
        },
{
    if now >= end {
        return None;
    }
    let ms: u64 = (end - now) / 1_000_000;
    if ms == 0 {
        None
    } else if ms > 4000 {
        Some(4000)
    } else if ms < 50 {
        Some(50)
    } else {
        Some(ms as u32)
    }
}

/// What follows from a read while listening.
#[derive(Debug)]
pub enum Heard {
    Packet(String),
    Nothing,
    /// The collection is given up.
    Failed(String),
}

/// Takes in a read while listening: a report with its battery, nothing in time, or
/// a failure.
pub fn on_listened(d: &HidDevice, reply: &Result<Vec<u8>, String>) -> (r: Heard)
    ensures
        match reply {
            Ok(b) => r matches Heard::Packet(s) && s@ == "  "@ + ids_text(d.vid, d.pid) + " in"@
                + text::decimal(b@.len()) + " battery="@ + battery_text(
                reports::sonix_battery(b@),
            ) + " "@ + text::hex_dump(b@),
            Err(e) => if text::contains(e@, "timeout"@) {
                r is Nothing
            } else {
                r matches Heard::Failed(s) && s@ == "  "@ + ids_text(d.vid, d.pid) + " "@ + e@
            },
        },
{
    let mut s = owned("  ");
    push_ids(&mut s, d.vid, d.pid);
    match reply {
        Ok(b) => {
            push_text(&mut s, " in");
            push_decimal(&mut s, b.len() as u64);
            push_text(&mut s, " battery=");
            push_battery(&mut s, parse_sonix_battery(b));
            push_text(&mut s, " ");
            let hex = to_hex(b);
            push_text(&mut s, hex.as_str());
            assert(s@ =~= "  "@ + ids_text(d.vid, d.pid) + " in"@ + text::decimal(b@.len())
                + " battery="@ + battery_text(reports::sonix_battery(b@)) + " "@
                + text::hex_dump(b@));
            Heard::Packet(s)
        },
        Err(e) => {
            if has_text(e.as_str(), "timeout") {
                return Heard::Nothing;
            }
            push_text(&mut s, " ");
            push_text(&mut s, e.as_str());
            assert(s@ =~= "  "@ + ids_text(d.vid, d.pid) + " "@ + e@);
            Heard::Failed(s)
        },
    }
}

// ------------------------------------------------------------------------ laws

/// The watched paths after a look.
pub open spec fn watched_next(
    watched: Seq<Seq<char>>,
    paths: Seq<Seq<char>>,
    raw: Seq<HidDevice>,
) -> Seq<Seq<char>> {
    watched_after(still(watched, paths, true), raw)
}

/// No path is ever watched twice.
pub proof fn law_paths_are_watched_once(
    watched: Seq<Seq<char>>,
    paths: Seq<Seq<char>>,
    raw: Seq<HidDevice>,
)
    requires
        watched.no_duplicates(),
    ensures
        watched_next(watched, paths, raw).no_duplicates(),
{
    lemma_filter_no_duplicates(watched, |p: Seq<char>| paths.contains(p) == true);
    lemma_joined_no_duplicates(still(watched, paths, true), raw);
}

proof fn lemma_filter_no_duplicates(s: Seq<Seq<char>>, f: spec_fn(Seq<char>) -> bool)
    requires
        s.no_duplicates(),
    ensures
        s.filter(f).no_duplicates(),
        forall|i: int| 0 <= i < s.filter(f).len() ==> s.contains(#[trigger] s.filter(f)[i]),
    decreases s.len(),
{
    reveal(Seq::filter);
    if s.len() > 0 {
        let t = s.drop_last();
        lemma_filter_no_duplicates(t, f);
        let ft = t.filter(f);
        let fs = s.filter(f);
        assert forall|i: int| 0 <= i < ft.len() implies s.contains(ft[i]) && ft[i] != s.last() by {
            assert(t.contains(ft[i]));
            let k = choose|k: int| 0 <= k < t.len() && t[k] == ft[i];
            assert(s[k] == ft[i]);
        }
        assert forall|i: int| 0 <= i < fs.len() implies s.contains(#[trigger] fs[i]) by {
            if i < ft.len() {
                assert(fs[i] == ft[i]);
            } else {
                assert(s[s.len() - 1] == fs[i]);
            }
        }
        assert forall|i: int, j: int| 0 <= i < j < fs.len() implies fs[i] != fs[j] by {
            assert(fs[i] == ft[i]);
            if j < ft.len() {
                assert(fs[j] == ft[j]);
            }
        }
    }
}

proof fn lemma_joined_no_duplicates(watched: Seq<Seq<char>>, raw: Seq<HidDevice>)
    requires
        watched.no_duplicates(),
    ensures
        watched_after(watched, raw).no_duplicates(),
    decreases raw.len(),
{
    if raw.len() > 0 {
        lemma_joined_no_duplicates(watched, raw.drop_last());
        let before = watched_after(watched, raw.drop_last());
        let after = watched_after(watched, raw);
        if after != before {
            let p = raw.last().path@;
            assert forall|i: int, j: int| 0 <= i < j < after.len() implies after[i] != after[j] by {
                if j == before.len() {
                    assert(after[j] == p);
                    assert(before[i] == after[i]);
                    assert(before.contains(before[i]));
                }
            }
        }
    }
}

/// Every present collection of a kind that is watched is watched after a look.
pub proof fn law_watchable_collections_are_watched(
    watched: Seq<Seq<char>>,
    raw: Seq<HidDevice>,
    i: int,
)
    requires
        0 <= i < raw.len(),
        kind_of(raw[i]@) is Some,
    ensures
        watched_after(watched, raw).contains(raw[i].path@),
    decreases raw.len(),
{
    let t = raw.drop_last();
    let before = watched_after(watched, t);
    let after = watched_after(watched, raw);
    if i < t.len() {
        law_watchable_collections_are_watched(watched, t, i);
        let k = choose|k: int| 0 <= k < before.len() && before[k] == t[i].path@;
        assert(after[k] == raw[i].path@);
    } else if !before.contains(raw[i].path@) {
        assert(after[after.len() - 1] == raw[i].path@);
    }
}

/// A dongle is poked no more often than every 15 seconds, unless that is asked for.
pub proof fn law_pokes_are_rare(at: u64, now: u64)
    requires
        links::elapsed(at, now) < POKE_PERIOD * SECOND,
    ensures
        !is_poke_due(Some(at), now),
{
}

/// A battery keeps a dongle's link up: the wait that follows finds no change.
pub proof fn law_battery_keeps_link_up(m: links::Memory, vid: u16, pid: u16, pct: u8, now: u64)
    ensures
        probe::is_alive(probe::noted(m, vid, pid, pct, now), vid, pid, false, now),
{
    links::law_battery_brings_link_up(m.links, vid, pid, pct, now);
}

/// A vendor's collection that can be written to is watched in its own way: the keyboard's
/// for its status, or as a VIA keyboard, a Compx receiver by queries, a Logitech one by
/// HID++. Any other collection is not watched.
pub proof fn law_collections_are_watched_their_way(d: HidView)
    ensures
        d.access != "R/W"@ || d.usage_page < 0xFF00 ==> kind_of(d) is None,
        d.access == "R/W"@ && d.usage_page >= 0xFF00 ==> {
            let compx = (d.vid == 0x373B || d.vid == 0x3554 || d.vid == 0x391D) && (d.input_len
                == 17 || d.output_len == 17 || d.input_len == 20 || d.output_len == 20);
            let status = d.vid == 0x0C45 && (d.pid == 0xFEFE || d.pid == 0x8006) && d.input_len
                == 65;
            let via = d.vid == 0x0C45 && d.pid == 0xFEFE && d.input_len == 33;
            &&& kind_of(d) == Some(WatchKind::SonixStatus) <==> status
            &&& kind_of(d) == Some(WatchKind::SonixVia) <==> via
            &&& kind_of(d) == Some(WatchKind::CompxBattery) <==> compx
            &&& kind_of(d) == Some(WatchKind::HidppBattery) <==> d.vid == 0x046D
        },
{
}

/// What was seen at a path is a collection of the last look with that path.
pub proof fn law_seen_is_by_path(prev: Seq<HidDevice>, path: Seq<char>)
    ensures
        match seen_at(prev, path) {
            Some(d) => prev.contains(d) && d.path@ == path,
            None => forall|i: int| 0 <= i < prev.len() ==> (#[trigger] prev[i]).path@ != path,
        },
    decreases prev.len(),
{
    if prev.len() > 0 && prev[0].path@ != path {
        let t = prev.skip(1);
        law_seen_is_by_path(t, path);
        if let Some(d) = seen_at(t, path) {
            let k = choose|k: int| 0 <= k < t.len() && t[k] == d;
            assert(prev[k + 1] == d);
        } else {
            assert forall|i: int| 0 <= i < prev.len() implies (#[trigger] prev[i]).path@ != path by {
                if i > 0 {
                    assert(t[i - 1] == prev[i]);
                }
            }
        }
    }
}

/// A look at the paths finds each collection that was there before, and each new one that
/// could be opened; and nothing else.
pub proof fn law_look_finds_what_is_there(
    prev: Seq<HidDevice>,
    paths: Seq<Seq<char>>,
    probed: Seq<Option<HidDevice>>,
    i: int,
)
    requires
        paths.len() <= probed.len(),
    ensures
        ({
            let raw = present_collections(prev, paths, probed);
            &&& 0 <= i < paths.len() ==> match seen_at(prev, paths[i]) {
                Some(d) => raw.contains(d),
                None => probed[i] matches Some(d) ==> raw.contains(d),
            }
            &&& 0 <= i < raw.len() ==> exists|k: int|
                0 <= k < paths.len() && (seen_at(prev, #[trigger] paths[k]) == Some(raw[i])
                    || probed[k] == Some(raw[i]))
            &&& raw.len() <= paths.len()
        }),
    decreases paths.len(),
{
    let raw = present_collections(prev, paths, probed);
    if paths.len() > 0 {
        let t = paths.drop_last();
        let before = present_collections(prev, t, probed);
        let last = paths.len() - 1;
        law_look_finds_what_is_there(prev, t, probed, i);
        assert(paths[last] == paths.last());
        if 0 <= i < t.len() {
            assert(t[i] == paths[i]);
            let want = match seen_at(prev, paths[i]) {
                Some(d) => Some(d),
                None => probed[i],
            };
            if let Some(d) = want {
                let k = choose|k: int| 0 <= k < before.len() && before[k] == d;
                assert(raw[k] == d);
            }
        } else if i == last {
            let want = match seen_at(prev, paths[i]) {
                Some(d) => Some(d),
                None => probed[i],
            };
            if let Some(d) = want {
                assert(raw[before.len() as int] == d);
            }
        }
        if 0 <= i < raw.len() {
            if i < before.len() {
                let k = choose|k: int|
                    0 <= k < t.len() && (seen_at(prev, #[trigger] t[k]) == Some(before[i])
                        || probed[k] == Some(before[i]));
                assert(paths[k] == t[k]);
            } else {
                assert(seen_at(prev, paths[last]) == Some(raw[i]) || probed[last] == Some(raw[i]));
            }
        }
    }
}

/// A watched path that is gone is retired, and one that is still there is not.
pub proof fn law_gone_paths_are_retired(
    watched: Seq<Seq<char>>,
    paths: Seq<Seq<char>>,
    p: Seq<char>,
)
    ensures
        still(watched, paths, false).contains(p) <==> watched.contains(p) && !paths.contains(p),
        still(watched, paths, true).contains(p) <==> watched.contains(p) && paths.contains(p),
{
    lemma_filter_member(watched, |q: Seq<char>| paths.contains(q) == false, p);
    lemma_filter_member(watched, |q: Seq<char>| paths.contains(q) == true, p);
}

proof fn lemma_filter_member(s: Seq<Seq<char>>, f: spec_fn(Seq<char>) -> bool, p: Seq<char>)
    ensures
        s.filter(f).contains(p) <==> s.contains(p) && f(p),
{
    if s.filter(f).contains(p) {
        s.lemma_filter_contains_rev(f, p);
        let k = choose|k: int| 0 <= k < s.filter(f).len() && s.filter(f)[k] == p;
        s.lemma_filter_pred(f, k);
    }
    if s.contains(p) && f(p) {
        let k = choose|k: int| 0 <= k < s.len() && s[k] == p;
        s.lemma_filter_contains(f, k);
    }
}

/// Each newcomer is a present collection of the kind that it is watched as, at a path that
/// was not watched; and each such collection is a newcomer, unless an earlier one with its
/// path is.
pub proof fn law_newcomers_are_the_unwatched(
    watched: Seq<Seq<char>>,
    raw: Seq<HidDevice>,
    i: int,
)
    ensures
        ({
            let n = newcomers(watched, raw);
            &&& 0 <= i < n.len() ==> raw.contains(n[i].0) && kind_of(n[i].0@) == Some(n[i].1)
                && !watched.contains(n[i].0.path@)
            &&& 0 <= i < raw.len() && kind_of(raw[i]@) is Some && !watched.contains(raw[i].path@)
                ==> exists|k: int| 0 <= k < n.len() && (#[trigger] n[k]).0.path@ == raw[i].path@
        }),
    decreases raw.len(),
{
    let n = newcomers(watched, raw);
    if raw.len() > 0 {
        let t = raw.drop_last();
        let before = newcomers(watched, t);
        let d = raw.last();
        assert(raw[raw.len() - 1] == d);
        law_newcomers_are_the_unwatched(watched, t, i);
        lemma_watched_after_has(watched, t);
        if 0 <= i < n.len() {
            if i < before.len() {
                assert(n[i] == before[i]);
                let k = choose|k: int| 0 <= k < t.len() && t[k] == before[i].0;
                assert(raw[k] == n[i].0);
            } else {
                assert(n[i].0 == d);
                if watched.contains(d.path@) {
                    let k = choose|k: int| 0 <= k < watched.len() && watched[k] == d.path@;
                    assert(watched_after(watched, t)[k] == d.path@);
                }
            }
        }
        if 0 <= i < raw.len() && kind_of(raw[i]@) is Some && !watched.contains(raw[i].path@) {
            if i < t.len() {
                assert(t[i] == raw[i]);
                let k = choose|k: int|
                    0 <= k < before.len() && (#[trigger] before[k]).0.path@ == raw[i].path@;
                assert(n[k] == before[k]);
            } else if watched_after(watched, t).contains(d.path@) {
                let j = lemma_watched_from(watched, t, d.path@);
                assert(t[j] == raw[j]);
                law_newcomers_are_the_unwatched(watched, t, j);
                let k = choose|k: int|
                    0 <= k < before.len() && (#[trigger] before[k]).0.path@ == t[j].path@;
                assert(n[k] == before[k]);
            } else {
                assert(n[before.len() as int].0 == d);
            }
        }
    }
}

/// Watched paths stay when newcomers join.
proof fn lemma_watched_after_has(watched: Seq<Seq<char>>, raw: Seq<HidDevice>)
    ensures
        watched_after(watched, raw).len() >= watched.len(),
        forall|k: int|
            0 <= k < watched.len() ==> #[trigger] watched_after(watched, raw)[k] == watched[k],
    decreases raw.len(),
{
    if raw.len() > 0 {
        lemma_watched_after_has(watched, raw.drop_last());
    }
}

/// A path that came to be watched is that of a collection of a kind that is watched.
proof fn lemma_watched_from(watched: Seq<Seq<char>>, raw: Seq<HidDevice>, p: Seq<char>) -> (j: int)
    requires
        watched_after(watched, raw).contains(p),
        !watched.contains(p),
    ensures
        0 <= j < raw.len(),
        raw[j].path@ == p,
        kind_of(raw[j]@) is Some,
    decreases raw.len(),
{
    let after = watched_after(watched, raw);
    let k = choose|k: int| 0 <= k < after.len() && after[k] == p;
    if raw.len() == 0 {
        assert(watched[k] == p);
        0
    } else {
        let t = raw.drop_last();
        let before = watched_after(watched, t);
        if before.contains(p) {
            let j = lemma_watched_from(watched, t, p);
            assert(t[j] == raw[j]);
            j
        } else {
            if k < before.len() {
                assert(before[k] == p);
            }
            raw.len() - 1
        }
    }
}

/// The rows are shown anew whenever a collection came or went, and not when the look
/// found the same as the last one.
pub proof fn law_changes_are_shown(
    prev: Seq<HidDevice>,
    paths: Seq<Seq<char>>,
    raw: Seq<HidDevice>,
    i: int,
)
    ensures
        0 <= i < prev.len() && !paths.contains(prev[i].path@) ==> is_new_set(prev, paths, raw),
        0 <= i < raw.len() && (forall|k: int|
            0 <= k < prev.len() ==> (#[trigger] prev[k]).path@ != raw[i].path@) ==> is_new_set(
            prev,
            paths,
            raw,
        ),
        prev == raw && (forall|k: int|
            0 <= k < prev.len() ==> paths.contains((#[trigger] prev[k]).path@)) ==> !is_new_set(
            prev,
            paths,
            raw,
        ),
{
    if 0 <= i < prev.len() && !paths.contains(prev[i].path@) {
        assert(!paths.contains(prev[i].path@));
    }
    if 0 <= i < raw.len() && (forall|k: int|
        0 <= k < prev.len() ==> (#[trigger] prev[k]).path@ != raw[i].path@) {
        law_seen_is_by_path(prev, raw[i].path@);
        if let Some(d) = seen_at(prev, raw[i].path@) {
            let k = choose|k: int| 0 <= k < prev.len() && prev[k] == d;
            assert(prev[k].path@ != raw[i].path@);
        }
        assert(seen_at(prev, raw[i].path@) is None);
    }
    if prev == raw && (forall|k: int|
        0 <= k < prev.len() ==> paths.contains((#[trigger] prev[k]).path@)) {
        assert forall|k: int| 0 <= k < raw.len() implies seen_at(
            prev,
            (#[trigger] raw[k]).path@,
        ) is Some by {
            law_seen_is_by_path(prev, raw[k].path@);
            assert(prev[k].path@ == raw[k].path@);
        }
    }
}

/// A dongle that was never poked, or last 15 seconds ago, is due.
pub proof fn law_pokes_come_due(last: Option<u64>, now: u64)
    ensures
        is_poke_due(last, now) <==> (last matches Some(at) ==> now >= at + 15_000_000_000),
{
}

} // verus!
