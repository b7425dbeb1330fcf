//! What is remembered of receivers between scans: when their radio was last
//! heard, the last battery value, and whether the keyboard's cable was plugged.
//!
//! Times are nanoseconds on a clock that never runs backwards.

use std::collections::HashMap;

use vstd::prelude::*;

use crate::hid;
use crate::hid::{HidDevice, HidView, collections_to_devices};
use crate::model;
use crate::model::{Device, DeviceView};
use crate::receiver;
use crate::receiver::{is_sonix_vid, parse_hid_addr};
use crate::reports;
use crate::reports::parse_sonix_battery;
use crate::text;
use crate::text::{has_text, push_text, to_ascii_upper, to_hex};

verus! {

/// One second, in the unit of time.
pub const SECOND: u64 = 1_000_000_000;

/// How long a battery value stands in for a query that failed.
pub const CACHE_TTL: u64 = 1_800_000_000_000;

/// How long a radio counts as up after it was heard. The dongle reports about
/// every 30 s.
pub const SONIX_LINK_TTL: u64 = 90_000_000_000;

/// How long ago `at` was: nothing when it lies ahead.
pub open spec fn elapsed(at: u64, now: u64) -> int {
    if now >= at {
        now - at
    } else {
        0
    }
}

/// How long ago `at` was: nothing when it lies ahead.
pub fn time_since(at: u64, now: u64) -> (r: u64)
    ensures
        r == elapsed(at, now),
{
    if now >= at {
        now - at
    } else {
        0
    }
}

// ------------------------------------------------------------------ one link

/// The link of a receiver to its peripheral, by radio or by cable.
#[derive(Clone, Copy, Debug)]
pub struct LiveLink {
    pub battery: Option<u8>,
    /// When the radio was last heard.
    pub last_rf: Option<u64>,
    pub wired: bool,
}

/// A link of which nothing is known.
pub open spec fn no_link() -> LiveLink {
    LiveLink { battery: None, last_rf: None, wired: false }
}

/// A link is up: the cable is there, or the radio was heard less than `ttl` ago.
pub open spec fn is_up(link: LiveLink, now: u64, ttl: u64) -> bool {
    link.wired || match link.last_rf {
        Some(at) => now >= at && now - at < ttl,
        None => false,
    }
}

impl Default for LiveLink {
    fn default() -> (r: Self)
        ensures
            r == no_link(),
    {
        LiveLink { battery: None, last_rf: None, wired: false }
    }
}

impl LiveLink {
    pub fn on_battery(&mut self, pct: u8, at: u64)
        ensures
            *final(self) == (LiveLink { battery: Some(pct), last_rf: Some(at), ..*old(self) }),
    {
        self.battery = Some(pct);
        self.last_rf = Some(at);
    }

    pub fn touch_rf(&mut self, at: u64)
        ensures
            *final(self) == (LiveLink { last_rf: Some(at), ..*old(self) }),
    {
        self.last_rf = Some(at);
    }

    pub fn set_wired(&mut self, present: bool)
        ensures
            *final(self) == (LiveLink { wired: present, ..*old(self) }),
    {
        self.wired = present;
    }

    pub fn connected(&self, now: u64, ttl: u64) -> (r: bool)
        ensures
            r == is_up(*self, now, ttl),
    {
        if self.wired {
            return true;
        }
        match self.last_rf {
            Some(at) => now >= at && now - at < ttl,
            None => false,
        }
    }
}

// ---------------------------------------------------------------- all links

/// The number that stands for a vendor and product id.
pub open spec fn id_of(vid: u16, pid: u16) -> u32 {
    (vid * 0x10000 + pid) as u32
}

pub fn receiver_id(vid: u16, pid: u16) -> (r: u32)
    ensures
        r == id_of(vid, pid),
{
    vid as u32 * 0x10000 + pid as u32
}

/// Different vendor and product ids have different numbers.
pub proof fn lemma_id_is_unique(v: u16, p: u16, w: u16, q: u16)
    ensures
        id_of(v, p) == id_of(w, q) ==> v == w && p == q,
{
}

/// What is remembered of receivers.
#[derive(Debug)]
pub struct HidState {
    /// The link of each receiver, by `receiver_id`.
    pub links: HashMap<u32, LiveLink>,
    /// The last battery value of each receiver and when it came.
    pub cache: HashMap<u32, (u8, u64)>,
    /// The keyboard's cable was there at the last scan.
    pub had_x87_wired: bool,
}

/// The link with number `id`.
pub open spec fn link_at(links: Map<u32, LiveLink>, id: u32) -> LiveLink {
    if links.contains_key(id) {
        links[id]
    } else {
        no_link()
    }
}

/// The dongle of the keyboard that has a cable too.
pub open spec fn x87_dongle() -> u32 {
    id_of(0x0C45, 0xFEFE)
}

/// The cable of that keyboard.
pub open spec fn x87_cable() -> u32 {
    id_of(0x0C45, 0x8006)
}

/// Ids are those of the keyboard that has a dongle and a cable.
pub open spec fn is_x87(vid: u16, pid: u16) -> bool {
    vid == 0x0C45 && (pid == 0xFEFE || pid == 0x8006)
}

/// Links after the one with number `id` told a battery value.
pub open spec fn charged(
    links: Map<u32, LiveLink>,
    id: u32,
    pct: u8,
    now: u64,
) -> Map<u32, LiveLink> {
    links.insert(
        id,
        LiveLink { battery: Some(pct), last_rf: Some(now), ..link_at(links, id) },
    )
}

/// Links after a battery value came from a receiver. The keyboard's dongle and
/// cable share it.
pub open spec fn links_with_battery(
    links: Map<u32, LiveLink>,
    vid: u16,
    pid: u16,
    pct: u8,
    now: u64,
) -> Map<u32, LiveLink> {
    let own = charged(links, id_of(vid, pid), pct, now);
    if is_x87(vid, pid) {
        charged(charged(own, x87_dongle(), pct, now), x87_cable(), pct, now)
    } else {
        own
    }
}

/// Cached values after one came from a receiver. The dongle gets what its
/// keyboard's cable told.
pub open spec fn cache_with_battery(
    cache: Map<u32, (u8, u64)>,
    vid: u16,
    pid: u16,
    pct: u8,
    now: u64,
) -> Map<u32, (u8, u64)> {
    let own = cache.insert(id_of(vid, pid), (pct, now));
    if is_x87(vid, pid) {
        own.insert(x87_dongle(), (pct, now))
    } else {
        own
    }
}

/// The link with number `id` after its radio was heard, where it was.
pub open spec fn heard(links: Map<u32, LiveLink>, id: u32, saw: bool, now: u64) -> LiveLink {
    if saw {
        LiveLink { last_rf: Some(now), ..link_at(links, id) }
    } else {
        link_at(links, id)
    }
}

impl HidState {
    pub fn new() -> (r: Self)
        ensures
            r.links@ == Map::<u32, LiveLink>::empty(),
            r.cache@ == Map::<u32, (u8, u64)>::empty(),
            !r.had_x87_wired,
    {
        HidState { links: HashMap::new(), cache: HashMap::new(), had_x87_wired: false }
    }

    fn link(&self, id: u32) -> (r: LiveLink)
        ensures
            r == link_at(self.links@, id),
    {
        match self.links.get(&id) {
            Some(l) => *l,
            None => LiveLink::default(),
        }
    }

    fn charge(&mut self, id: u32, pct: u8, now: u64)
        ensures
            final(self).links@ == charged(old(self).links@, id, pct, now),
            final(self).cache@ == old(self).cache@,
            final(self).had_x87_wired == old(self).had_x87_wired,
    {
        let mut l = self.link(id);
        l.on_battery(pct, now);
        self.links.insert(id, l);
    }
}

/// Takes in a battery value that a receiver told.
pub fn note_live_battery(state: &mut HidState, vid: u16, pid: u16, pct: u8, now: u64)
    ensures
        final(state).links@ == links_with_battery(old(state).links@, vid, pid, pct, now),
        final(state).cache@ == cache_with_battery(old(state).cache@, vid, pid, pct, now),
        final(state).had_x87_wired == old(state).had_x87_wired,
{
    let id: u32 = receiver_id(vid, pid);
    let dongle: u32 = receiver_id(0x0C45, 0xFEFE);
    let cable: u32 = receiver_id(0x0C45, 0x8006);
    let x87 = vid == 0x0C45 && (pid == 0xFEFE || pid == 0x8006);
    state.charge(id, pct, now);
    if x87 {
        state.charge(dongle, pct, now);
        state.charge(cable, pct, now);
    }
    state.cache.insert(id, (pct, now));
    if x87 {
        state.cache.insert(dongle, (pct, now));
    }
}

/// Whether a receiver's link is up, after taking in whether its radio was just
/// heard.
pub fn sonix_rf_alive(state: &mut HidState, vid: u16, pid: u16, saw_packet: bool, now: u64) -> (r:
    bool)
    ensures
        r == is_up(
            heard(old(state).links@, id_of(vid, pid), saw_packet, now),
            now,
            SONIX_LINK_TTL,
        ),
        final(state).links@ == old(state).links@.insert(
            id_of(vid, pid),
            heard(old(state).links@, id_of(vid, pid), saw_packet, now),
        ),
        final(state).cache@ == old(state).cache@,
        final(state).had_x87_wired == old(state).had_x87_wired,
{
    let id: u32 = receiver_id(vid, pid);
    let mut l = state.link(id);
    if saw_packet {
        l.touch_rf(now);
    }
    state.links.insert(id, l);
    l.connected(now, SONIX_LINK_TTL)
}

/// Takes in a key press on the keyboard's dongle. Returns whether that brought
/// the link up.
pub fn note_x87_key_activity(state: &mut HidState, now: u64) -> (r: bool)
    ensures
        r == !is_up(link_at(old(state).links@, x87_dongle()), now, SONIX_LINK_TTL),
        final(state).links@ == old(state).links@.insert(
            x87_dongle(),
            heard(old(state).links@, x87_dongle(), true, now),
        ),
        final(state).cache@ == old(state).cache@,
        final(state).had_x87_wired == old(state).had_x87_wired,
{
    let was = sonix_rf_alive(state, 0x0C45, 0xFEFE, false, now);
    let _ = sonix_rf_alive(state, 0x0C45, 0xFEFE, true, now);
    assert(state.links@ =~= old(state).links@.insert(
        x87_dongle(),
        heard(old(state).links@, x87_dongle(), true, now),
    ));
    !was
}

// ------------------------------------------------------------------- overlay

/// A collection with what its receiver's link adds to it.
pub open spec fn overlaid(d: HidView, links: Map<u32, LiveLink>, now: u64) -> HidView {
    let id = id_of(d.vid, d.pid);
    if links.contains_key(id) && is_up(links[id], now, SONIX_LINK_TTL) {
        HidView {
            link_up: true,
            battery: if d.battery is None {
                links[id].battery
            } else {
                d.battery
            },
            ..d
        }
    } else {
        d
    }
}

/// Collections with what their receivers' links add to them.
pub open spec fn all_overlaid(raw: Seq<HidView>, links: Map<u32, LiveLink>, now: u64) -> Seq<
    HidView,
> {
    raw.map_values(|d: HidView| overlaid(d, links, now))
}

/// Marks the collections whose receiver's link is up, and fills in the battery
/// that the link told.
pub fn overlay_live(state: &HidState, raw: &mut Vec<HidDevice>, now: u64)
    ensures
        hid::views(final(raw)@) == all_overlaid(hid::views(old(raw)@), state.links@, now),
{
    let ghost all = raw@;
    let n: usize = raw.len();
    for i in 0..n
        invariant
            n == all.len(),
            raw@.len() == n,
            forall|j: int| 0 <= j < i ==> (#[trigger] raw@[j])@ == overlaid(all[j]@, state.links@, now),
            forall|j: int| i <= j < n ==> raw@[j] == all[j],
    {
        let id: u32 = receiver_id(raw[i].vid, raw[i].pid);
        match state.links.get(&id) {
            Some(l) => {
                if l.connected(now, SONIX_LINK_TTL) {
                    let mut d = raw[i].clone();
                    d.link_up = true;
                    if d.battery.is_none() {
                        d.battery = l.battery;
                    }
                    raw.set(i, d);
                }
            },
            None => {},
        }
    }
    assert(hid::views(raw@) =~= all_overlaid(hid::views(all), state.links@, now));
}

// ----------------------------------------------- waiting for a status report

/// A collection is that of the keyboard's dongle, and the scan proved nothing of
/// its link.
pub open spec fn needs_boost(d: HidView) -> bool {
    d.vid == 0x0C45 && d.pid == 0xFEFE && d.input_len == 65 && !d.link_up && d.battery is None
}

/// The report at index `i` that was read after waiting for one.
pub open spec fn packet_at(packets: Seq<Option<Vec<u8>>>, i: int) -> Option<Seq<u8>> {
    if i < packets.len() {
        match packets[i] {
            Some(b) => Some(b@),
            None => None,
        }
    } else {
        None
    }
}

/// A report that was waited for brings a collection up.
pub open spec fn is_boosted(d: HidView, packet: Option<Seq<u8>>) -> bool {
    needs_boost(d) && match packet {
        Some(b) => reports::sonix_battery(b) is Some,
        None => false,
    }
}

/// A collection after a report was waited for.
pub open spec fn boosted(d: HidView, packet: Option<Seq<u8>>) -> HidView {
    if is_boosted(d, packet) {
        HidView {
            battery: reports::sonix_battery(packet->0),
            feature_hex: text::hex_dump(packet->0),
            debug: Seq::empty(),
            link_up: true,
            ..d
        }
    } else {
        d
    }
}

/// Collections after reports were waited for.
pub open spec fn all_boosted(raw: Seq<HidView>, packets: Seq<Option<Vec<u8>>>) -> Seq<HidView> {
    Seq::new(raw.len(), |i: int| boosted(raw[i], packet_at(packets, i)))
}

/// Some report that was waited for brought a collection up.
pub open spec fn some_boosted(raw: Seq<HidView>, packets: Seq<Option<Vec<u8>>>) -> bool {
    exists|i: int| 0 <= i < raw.len() && is_boosted(#[trigger] raw[i], packet_at(packets, i))
}

/// Links after reports were waited for.
pub open spec fn boosted_links(
    links: Map<u32, LiveLink>,
    raw: Seq<HidView>,
    packets: Seq<Option<Vec<u8>>>,
    now: u64,
) -> Map<u32, LiveLink> {
    if some_boosted(raw, packets) {
        links.insert(x87_dongle(), heard(links, x87_dongle(), true, now))
    } else {
        links
    }
}

/// Whether a report is worth waiting for: the cable is gone, and the scan proved
/// nothing of the dongle's link.
pub fn needs_sonix_boost(d: &HidDevice, has_wired: bool) -> (r: bool)
    ensures
        r == (!has_wired && needs_boost(d@)),
{
    !has_wired && d.vid == 0x0C45 && d.pid == 0xFEFE && d.input_len == 65 && !d.link_up
        && d.battery.is_none()
}

/// Takes in the reports that were waited for; `packets` holds one entry per
/// collection. The dongle pushes its status every few tens of seconds only.
pub fn boost_sonix_if_needed(
    state: &mut HidState,
    raw: &mut Vec<HidDevice>,
    has_wired: bool,
    packets: &Vec<Option<Vec<u8>>>,
    now: u64,
)
    ensures
        hid::views(final(raw)@) == if has_wired {
            hid::views(old(raw)@)
        } else {
            all_boosted(hid::views(old(raw)@), packets@)
        },
        final(state).links@ == if has_wired {
            old(state).links@
        } else {
            boosted_links(old(state).links@, hid::views(old(raw)@), packets@, now)
        },
        final(state).cache@ == old(state).cache@,
        final(state).had_x87_wired == old(state).had_x87_wired,
{
    if has_wired {
        return;
    }
    let ghost all = hid::views(raw@);
    let ghost links = state.links@;
    let n: usize = raw.len();
    let mut any = false;
    for i in 0..n
        invariant
            n == all.len(),
            raw@.len() == n,
            forall|j: int|
                0 <= j < i ==> (#[trigger] raw@[j])@ == boosted(all[j], packet_at(packets@, j)),
            forall|j: int| i <= j < n ==> (#[trigger] raw@[j])@ == all[j],
            any == exists|j: int|
                0 <= j < i && is_boosted(#[trigger] all[j], packet_at(packets@, j)),
    {
        assert(raw@[i as int]@ == all[i as int]);
        if needs_sonix_boost(&raw[i], false) && i < packets.len() {
            match &packets[i] {
                Some(b) => match parse_sonix_battery(b) {
                    Some(pct) => {
                        let mut d = raw[i].clone();
                        d.battery = Some(pct);
                        d.feature_hex = to_hex(b);
                        d.link_up = true;
                        d.debug = String::new();
                        assert(d@ =~= boosted(all[i as int], packet_at(packets@, i as int)));
                        raw.set(i, d);
                        assert(is_boosted(all[i as int], packet_at(packets@, i as int)));
                        any = true;
                    },
                    None => {},
                },
                None => {},
            }
        }
    }
    assert(any == some_boosted(all, packets@));
    if any {
        let _ = sonix_rf_alive(state, 0x0C45, 0xFEFE, true, now);
    }
    assert(hid::views(raw@) =~= all_boosted(all, packets@));
}

// ------------------------------------------------------- cable and dongle

/// Links after a scan found the keyboard's cable, or did not. Pulling the cable
/// counts as hearing the dongle.
pub open spec fn transition_links(
    links: Map<u32, LiveLink>,
    had_wired: bool,
    has_wired: bool,
    now: u64,
) -> Map<u32, LiveLink> {
    let l = links.insert(
        x87_cable(),
        LiveLink { wired: has_wired, ..link_at(links, x87_cable()) },
    );
    if has_wired {
        l
    } else {
        l.insert(x87_dongle(), heard(l, x87_dongle(), had_wired, now))
    }
}

/// The dongle's row is to be shown as connected: the cable is not there, and it
/// was just pulled or the dongle's link is up.
pub open spec fn dongle_revives(
    links: Map<u32, LiveLink>,
    had_wired: bool,
    has_wired: bool,
    now: u64,
) -> bool {
    !has_wired && (had_wired || is_up(link_at(links, x87_dongle()), now, SONIX_LINK_TTL))
}

/// A row, connected if it is that of the keyboard's dongle and `revive` holds.
pub open spec fn revived(d: DeviceView, revive: bool) -> DeviceView {
    if revive && text::contains(text::ascii_upper(d.address), "0C45:FEFE"@) {
        DeviceView { connected: true, status: "ok"@, ..d }
    } else {
        d
    }
}

/// Rows with that of the keyboard's dongle connected if `revive` holds.
pub open spec fn all_revived(devs: Seq<DeviceView>, revive: bool) -> Seq<DeviceView> {
    devs.map_values(|d: DeviceView| revived(d, revive))
}

/// After the USB cable is unplugged the dongle stays present with nothing to
/// report until its next status: the unplugging is taken as a switch to 2.4 GHz.
pub fn apply_x87_mode_transition(
    state: &mut HidState,
    devs: &mut Vec<Device>,
    has_wired: bool,
    now: u64,
)
    ensures
        final(state).links@ == transition_links(
            old(state).links@,
            old(state).had_x87_wired,
            has_wired,
            now,
        ),
        final(state).cache@ == old(state).cache@,
        final(state).had_x87_wired == has_wired,
        model::views(final(devs)@) == all_revived(
            model::views(old(devs)@),
            dongle_revives(old(state).links@, old(state).had_x87_wired, has_wired, now),
        ),
{
    let cable: u32 = receiver_id(0x0C45, 0x8006);
    let ghost links = state.links@;
    let mut l = state.link(cable);
    l.set_wired(has_wired);
    state.links.insert(cable, l);
    let had_wired = state.had_x87_wired;
    state.had_x87_wired = has_wired;
    let ghost all = model::views(devs@);
    if has_wired {
        assert(model::views(devs@) =~= all_revived(all, false));
        return;
    }
    let alive = sonix_rf_alive(state, 0x0C45, 0xFEFE, had_wired, now);
    proof {
        lemma_id_is_unique(0x0C45, 0xFEFE, 0x0C45, 0x8006);
    }
    let revive = had_wired || alive;
    assert(revive == dongle_revives(links, had_wired, has_wired, now));
    let n: usize = devs.len();
    for i in 0..n
        invariant
            n == all.len(),
            devs@.len() == n,
            forall|j: int| 0 <= j < i ==> (#[trigger] devs@[j])@ == revived(all[j], revive),
            forall|j: int| i <= j < n ==> (#[trigger] devs@[j])@ == all[j],
    {
        assert(devs@[i as int]@ == all[i as int]);
        if revive {
            let up = to_ascii_upper(devs[i].address.as_str());
            if has_text(up.as_str(), "0C45:FEFE") {
                let mut d = devs[i].clone();
                d.connected = true;
                d.status = "ok";
                assert(d@ =~= revived(all[i as int], revive));
                devs.set(i, d);
            }
        }
    }
    assert(model::views(devs@) =~= all_revived(all, revive));
}

// --------------------------------------------------------------- the cache

/// What one row does with the cache: a row that is not connected keeps no
/// battery; a connected one stores its battery, or takes the cached value if that
/// is not too old.
pub open spec fn cache_step(cache: Map<u32, (u8, u64)>, d: DeviceView, now: u64) -> (
    Map<u32, (u8, u64)>,
    DeviceView,
) {
    if !d.connected {
        (cache, DeviceView { battery: None, ..d })
    } else {
        match receiver::parsed_hid_addr(d.address) {
            None => (cache, d),
            Some((vid, pid)) => {
                let id = id_of(vid, pid);
                match d.battery {
                    Some(pct) => (cache.insert(id, (pct, now)), d),
                    None => if cache.contains_key(id) && elapsed(cache[id].1, now) < CACHE_TTL {
                        (cache, DeviceView { battery: Some(cache[id].0), ..d })
                    } else {
                        (cache, d)
                    },
                }
            },
        }
    }
}

/// What rows do with the cache, one after the other.
pub open spec fn with_cache(cache: Map<u32, (u8, u64)>, devs: Seq<DeviceView>, now: u64) -> (
    Map<u32, (u8, u64)>,
    Seq<DeviceView>,
)
    decreases devs.len(),
{
    if devs.len() == 0 {
        (cache, devs)
    } else {
        let (c, out) = with_cache(cache, devs.drop_last(), now);
        let (c2, d) = cache_step(c, devs.last(), now);
        (c2, out.push(d))
    }
}

/// Stores the battery of connected rows, and fills in the last known value where
/// a query failed.
pub fn apply_battery_cache(state: &mut HidState, devs: &mut Vec<Device>, now: u64)
    ensures
        (final(state).cache@, model::views(final(devs)@)) == with_cache(
            old(state).cache@,
            model::views(old(devs)@),
            now,
        ),
        final(state).links@ == old(state).links@,
        final(state).had_x87_wired == old(state).had_x87_wired,
{
    let ghost all = model::views(devs@);
    let ghost cache = state.cache@;
    let n: usize = devs.len();
    assert(model::views(devs@.take(0)) =~= all.take(0));
    for i in 0..n
        invariant
            n == all.len(),
            devs@.len() == n,
            forall|j: int| i <= j < n ==> (#[trigger] devs@[j])@ == all[j],
            state.links@ == old(state).links@,
            state.had_x87_wired == old(state).had_x87_wired,
            (state.cache@, model::views(devs@.take(i as int))) == with_cache(
                cache,
                all.take(i as int),
                now,
            ),
    {
        let ghost before = devs@;
        let ghost c = state.cache@;
        assert(all.take(i + 1).drop_last() =~= all.take(i as int));
        assert(devs@[i as int]@ == all[i as int]);
        if !devs[i].connected {
            let mut d = devs[i].clone();
            d.battery = None;
            devs.set(i, d);
        } else {
            match parse_hid_addr(devs[i].address.as_str()) {
                Some((vid, pid)) => {
                    let id: u32 = receiver_id(vid, pid);
                    match devs[i].battery {
                        Some(pct) => {
                            state.cache.insert(id, (pct, now));
                        },
                        None => match state.cache.get(&id) {
                            Some(v) => {
                                let kept: (u8, u64) = *v;
                                if time_since(kept.1, now) < CACHE_TTL {
                                    let mut d = devs[i].clone();
                                    d.battery = Some(kept.0);
                                    devs.set(i, d);
                                }
                            },
                            None => {},
                        },
                    }
                },
                None => {},
            }
        }
        assert((state.cache@, devs@[i as int]@) == cache_step(c, all[i as int], now));
        assert(model::views(devs@.take(i + 1)) =~= model::views(before.take(i as int)).push(
            devs@[i as int]@,
        ));
    }
    assert(devs@.take(n as int) =~= devs@);
    assert(all.take(n as int) =~= all);
}

// ------------------------------------------------------------- a whole scan

/// The keyboard's cable is among some collections.
pub open spec fn cable_present(raw: Seq<HidView>) -> bool {
    exists|i: int| 0 <= i < raw.len() && (#[trigger] raw[i]).vid == 0x0C45 && raw[i].pid == 0x8006
}

/// Whether the keyboard's cable is among some collections.
pub fn has_x87_cable(raw: &Vec<HidDevice>) -> (r: bool)
    ensures
        r == cable_present(hid::views(raw@)),
{
    let ghost v = hid::views(raw@);
    for i in 0..raw.len()
        invariant
            v == hid::views(raw@),
            forall|j: int|
                0 <= j < i ==> !((#[trigger] v[j]).vid == 0x0C45 && v[j].pid == 0x8006),
    {
        if is_sonix_vid(raw[i].vid) && raw[i].pid == 0x8006 {
            assert(v[i as int].vid == 0x0C45 && v[i as int].pid == 0x8006);
            return true;
        }
    }
    false
}

/// What is remembered of receivers, as plain maps.
#[verifier::ext_equal]
pub struct Memory {
    pub links: Map<u32, LiveLink>,
    pub cache: Map<u32, (u8, u64)>,
    pub had_x87_wired: bool,
}

impl View for HidState {
    type V = Memory;

    open spec fn view(&self) -> Memory {
        Memory { links: self.links@, cache: self.cache@, had_x87_wired: self.had_x87_wired }
    }
}

impl Memory {
    /// All batteries that are remembered are percentages.
    pub open spec fn is_sound(self) -> bool {
        &&& forall|id: u32| #[trigger]
            self.links.contains_key(id) ==> model::is_percent(self.links[id].battery)
        &&& forall|id: u32| #[trigger] self.cache.contains_key(id) ==> self.cache[id].0 <= 100
    }
}

/// What a scan makes of some collections: the memory after it, and what the rows
/// say. `packets` holds the reports that were waited for, where `boost` says so.
pub open spec fn scanned(
    m: Memory,
    raw: Seq<HidView>,
    boost: bool,
    packets: Seq<Option<Vec<u8>>>,
    now: u64,
) -> (Memory, Seq<DeviceView>) {
    let wired = cable_present(raw);
    let waited = boost && !wired;
    let raw1 = if waited {
        all_boosted(raw, packets)
    } else {
        raw
    };
    let links1 = if waited {
        boosted_links(m.links, raw, packets, now)
    } else {
        m.links
    };
    let rows = hid::device_rows(all_overlaid(raw1, links1, now));
    let shown = all_revived(rows, dongle_revives(links1, m.had_x87_wired, wired, now));
    let (cache, out) = with_cache(m.cache, shown, now);
    (
        Memory {
            links: transition_links(links1, m.had_x87_wired, wired, now),
            cache,
            had_x87_wired: wired,
        },
        out,
    )
}

/// Turns the collections of a scan into device rows.
pub fn devices_from_raw(
    state: &mut HidState,
    raw: Vec<HidDevice>,
    boost: bool,
    packets: &Vec<Option<Vec<u8>>>,
    now: u64,
) -> (r: Vec<Device>)
    ensures
        (final(state)@, model::views(r@)) == scanned(
            old(state)@,
            hid::views(raw@),
            boost,
            packets@,
            now,
        ),
{
    let has_wired = has_x87_cable(&raw);
    let mut raw1 = raw;
    if boost {
        boost_sonix_if_needed(state, &mut raw1, has_wired, packets, now);
    }
    overlay_live(state, &mut raw1, now);
    let mut devs = collections_to_devices(&raw1);
    apply_x87_mode_transition(state, &mut devs, has_wired, now);
    apply_battery_cache(state, &mut devs, now);
    devs
}

/// What came of opening a HID path: a collection, nothing to look at, or why it
/// could not be opened.
pub type Probe = Result<Option<HidDevice>, String>;

/// The collections among the outcomes.
pub open spec fn opened(probes: Seq<(String, Probe)>) -> Seq<HidDevice>
    decreases probes.len(),
{
    if probes.len() == 0 {
        Seq::empty()
    } else {
        match probes.last().1 {
            Ok(Some(d)) => opened(probes.drop_last()).push(d),
            _ => opened(probes.drop_last()),
        }
    }
}

/// The failures among the outcomes, each behind its path.
pub open spec fn failures(probes: Seq<(String, Probe)>) -> Seq<Seq<char>>
    decreases probes.len(),
{
    if probes.len() == 0 {
        Seq::empty()
    } else {
        match probes.last().1 {
            Err(e) => failures(probes.drop_last()).push(probes.last().0@ + ": "@ + e@),
            _ => failures(probes.drop_last()),
        }
    }
}

/// Sorts what came of opening each HID path into collections and failures.
pub fn enumerate(probes: &Vec<(String, Probe)>) -> (r: (Vec<HidDevice>, Vec<String>))
    ensures
        r.0@ == opened(probes@),
        model::texts(r.1@) == failures(probes@),
{
    let mut out: Vec<HidDevice> = Vec::new();
    let mut fails: Vec<String> = Vec::new();
    for i in 0..probes.len()
        invariant
            out@ == opened(probes@.take(i as int)),
            model::texts(fails@) == failures(probes@.take(i as int)),
    {
        assert(probes@.take(i + 1).drop_last() =~= probes@.take(i as int));
        match &probes[i].1 {
            Ok(Some(d)) => out.push(d.clone()),
            Ok(None) => {},
            Err(e) => {
                let mut line = String::new();
                push_text(&mut line, probes[i].0.as_str());
                push_text(&mut line, ": ");
                push_text(&mut line, e.as_str());
                assert(line@ =~= probes@[i as int].0@ + ": "@ + e@);
                let ghost before = fails@;
                fails.push(line);
                assert(model::texts(fails@) =~= model::texts(before).push(line@));
            },
        }
    }
    assert(probes@.take(probes@.len() as int) =~= probes@);
    (out, fails)
}

/// Turns the present peripherals into device rows, given what came of opening
/// each HID path and the reports that were waited for.
pub fn enumerate_devices(
    state: &mut HidState,
    probes: &Vec<(String, Probe)>,
    packets: &Vec<Option<Vec<u8>>>,
    now: u64,
) -> (r: Vec<Device>)
    ensures
        (final(state)@, model::views(r@)) == scanned(
            old(state)@,
            hid::views(opened(probes@)),
            true,
            packets@,
            now,
        ),
{
    let (raw, _) = enumerate(probes);
    devices_from_raw(state, raw, true, packets, now)
}

// --------------------------------------------------------------------- laws

/// A radio that was heard keeps its link up until `ttl` has passed, and no
/// longer; a cable keeps it up for good.
pub proof fn law_link_expires(link: LiveLink, at: u64, now: u64, ttl: u64)
    requires
        link.last_rf == Some(at),
    ensures
        is_up(link, now, ttl) <==> link.wired || at <= now < at + ttl,
{
}

/// The cache never changes whether a row is connected, nor its status, and a row
/// that is not connected keeps no battery.
pub proof fn law_cache_never_connects(cache: Map<u32, (u8, u64)>, devs: Seq<DeviceView>, now: u64, i: int)
    requires
        0 <= i < devs.len(),
    ensures
        with_cache(cache, devs, now).1.len() == devs.len(),
        with_cache(cache, devs, now).1[i].connected == devs[i].connected,
        with_cache(cache, devs, now).1[i].status == devs[i].status,
        with_cache(cache, devs, now).1[i].address == devs[i].address,
        with_cache(cache, devs, now).1[i].name == devs[i].name,
        with_cache(cache, devs, now).1[i].kind == devs[i].kind,
        with_cache(cache, devs, now).1[i].is_le == devs[i].is_le,
        !devs[i].connected ==> with_cache(cache, devs, now).1[i].battery is None,
        devs[i].connected && devs[i].battery is Some ==> with_cache(cache, devs, now).1[i].battery
            == devs[i].battery,
    decreases devs.len(),
{
    lemma_with_cache_len(cache, devs, now);
    lemma_with_cache_len(cache, devs.drop_last(), now);
    if i < devs.len() - 1 {
        law_cache_never_connects(cache, devs.drop_last(), now, i);
        assert(with_cache(cache, devs, now).1[i] == with_cache(cache, devs.drop_last(), now).1[i]);
        assert(devs[i] == devs.drop_last()[i]);
    }
}

proof fn lemma_with_cache_len(cache: Map<u32, (u8, u64)>, devs: Seq<DeviceView>, now: u64)
    ensures
        with_cache(cache, devs, now).1.len() == devs.len(),
    decreases devs.len(),
{
    if devs.len() > 0 {
        lemma_with_cache_len(cache, devs.drop_last(), now);
    }
}

/// No row of a scan that is not connected shows a battery.
pub proof fn law_offline_rows_show_no_battery(
    m: Memory,
    raw: Seq<HidView>,
    boost: bool,
    packets: Seq<Option<Vec<u8>>>,
    now: u64,
    i: int,
)
    requires
        0 <= i < scanned(m, raw, boost, packets, now).1.len(),
        !scanned(m, raw, boost, packets, now).1[i].connected,
    ensures
        scanned(m, raw, boost, packets, now).1[i].battery is None,
{
    let wired = cable_present(raw);
    let waited = boost && !wired;
    let raw1 = if waited {
        all_boosted(raw, packets)
    } else {
        raw
    };
    let links1 = if waited {
        boosted_links(m.links, raw, packets, now)
    } else {
        m.links
    };
    let rows = hid::device_rows(all_overlaid(raw1, links1, now));
    let shown = all_revived(rows, dongle_revives(links1, m.had_x87_wired, wired, now));
    lemma_with_cache_len(m.cache, shown, now);
    law_cache_never_connects(m.cache, shown, now, i);
}

/// After a key press on the dongle its link is up, so that a second one right
/// after it brings nothing up any more.
pub proof fn law_key_press_connects(links: Map<u32, LiveLink>, now: u64)
    ensures
        is_up(
            link_at(
                links.insert(x87_dongle(), heard(links, x87_dongle(), true, now)),
                x87_dongle(),
            ),
            now,
            SONIX_LINK_TTL,
        ),
{
}

/// Pulling the keyboard's cable shows its dongle's row as connected.
pub proof fn law_unplugging_revives_dongle(links: Map<u32, LiveLink>, d: DeviceView, now: u64)
    requires
        text::contains(text::ascii_upper(d.address), "0C45:FEFE"@),
    ensures
        revived(d, dongle_revives(links, true, false, now)).connected,
        is_up(
            link_at(transition_links(links, true, false, now), x87_dongle()),
            now,
            SONIX_LINK_TTL,
        ),
{
}

/// A battery value that a receiver told is what its link holds afterwards, and
/// the link is up.
pub proof fn law_battery_brings_link_up(
    links: Map<u32, LiveLink>,
    vid: u16,
    pid: u16,
    pct: u8,
    now: u64,
)
    ensures
        ({
            let l = link_at(links_with_battery(links, vid, pid, pct, now), id_of(vid, pid));
            l.battery == Some(pct) && is_up(l, now, SONIX_LINK_TTL)
        }),
{
    lemma_id_is_unique(vid, pid, 0x0C45, 0xFEFE);
    lemma_id_is_unique(vid, pid, 0x0C45, 0x8006);
}

proof fn lemma_with_cache_percent(cache: Map<u32, (u8, u64)>, devs: Seq<DeviceView>, now: u64)
    requires
        forall|id: u32| #[trigger] cache.contains_key(id) ==> cache[id].0 <= 100,
        model::all_percent(devs),
    ensures
        forall|id: u32| #[trigger]
            with_cache(cache, devs, now).0.contains_key(id) ==> with_cache(
                cache,
                devs,
                now,
            ).0[id].0 <= 100,
        model::all_percent(with_cache(cache, devs, now).1),
    decreases devs.len(),
{
    if devs.len() > 0 {
        let t = devs.drop_last();
        assert forall|i: int| 0 <= i < t.len() implies model::is_percent(
            (#[trigger] t[i]).battery,
        ) by {
            assert(t[i] == devs[i]);
        }
        lemma_with_cache_percent(cache, t, now);
        assert(model::is_percent(devs[devs.len() - 1].battery));
        let (c, before) = with_cache(cache, t, now);
        let d = cache_step(c, devs.last(), now).1;
        let out = with_cache(cache, devs, now).1;
        assert(model::is_percent(d.battery));
        assert forall|i: int| 0 <= i < out.len() implies model::is_percent(
            (#[trigger] out[i]).battery,
        ) by {
            if i < before.len() {
                assert(out[i] == before[i]);
            }
        }
    }
}

/// Where every battery that was read or is remembered is a percentage, so is every
/// battery that a scan shows or remembers.
pub proof fn law_scans_show_percentages(
    m: Memory,
    raw: Seq<HidView>,
    boost: bool,
    packets: Seq<Option<Vec<u8>>>,
    now: u64,
)
    requires
        m.is_sound(),
        hid::all_percent(raw),
    ensures
        scanned(m, raw, boost, packets, now).0.is_sound(),
        model::all_percent(scanned(m, raw, boost, packets, now).1),
{
    let wired = cable_present(raw);
    let waited = boost && !wired;
    let raw1 = if waited {
        all_boosted(raw, packets)
    } else {
        raw
    };
    let links1 = if waited {
        boosted_links(m.links, raw, packets, now)
    } else {
        m.links
    };
    let overlaid_raw = all_overlaid(raw1, links1, now);
    assert forall|i: int| 0 <= i < raw1.len() implies model::is_percent(
        (#[trigger] raw1[i]).battery,
    ) by {
        assert(model::is_percent(raw[i].battery));
        if let Some(b) = packet_at(packets, i) {
            reports::law_batteries_are_percentages(b);
        }
    }
    assert forall|i: int| 0 <= i < overlaid_raw.len() implies model::is_percent(
        (#[trigger] overlaid_raw[i]).battery,
    ) by {
        assert(model::is_percent(raw1[i].battery));
        assert(links1.contains_key(id_of(raw1[i].vid, raw1[i].pid)) ==> model::is_percent(
            links1[id_of(raw1[i].vid, raw1[i].pid)].battery,
        ));
    }
    hid::law_rows_show_percentages(overlaid_raw);
    let rows = hid::device_rows(overlaid_raw);
    let shown = all_revived(rows, dongle_revives(links1, m.had_x87_wired, wired, now));
    assert forall|i: int| 0 <= i < shown.len() implies model::is_percent(
        (#[trigger] shown[i]).battery,
    ) by {
        assert(model::is_percent(rows[i].battery));
    }
    lemma_with_cache_percent(m.cache, shown, now);
}

/// A live link adds what it knows to its receiver's collections: that the link is up, and
/// its battery where a collection has none. Any other collection stays as it was.
pub proof fn law_live_links_mark_collections(
    raw: Seq<HidView>,
    links: Map<u32, LiveLink>,
    now: u64,
    i: int,
)
    requires
        0 <= i < raw.len(),
    ensures
        ({
            let id = (raw[i].vid * 65536 + raw[i].pid) as u32;
            let r = all_overlaid(raw, links, now)[i];
            let live = links.contains_key(id) && (links[id].wired || (
            links[id].last_rf matches Some(at) && at <= now < at + 90_000_000_000));
            &&& r == (HidView { link_up: r.link_up, battery: r.battery, ..raw[i] })
            &&& r.link_up <==> raw[i].link_up || live
            &&& raw[i].battery is Some ==> r.battery == raw[i].battery
            &&& raw[i].battery is None && live ==> r.battery == links[id].battery
            &&& raw[i].battery is None && !live ==> r.battery is None
        }),
{
}

/// A battery value belongs to the receiver that told it; the keyboard's dongle and cable
/// share theirs, and no other receiver's memory changes.
pub proof fn law_battery_stays_with_its_receiver(
    links: Map<u32, LiveLink>,
    cache: Map<u32, (u8, u64)>,
    vid: u16,
    pid: u16,
    pct: u8,
    now: u64,
    v: u16,
    p: u16,
)
    ensures
        ({
            let l = links_with_battery(links, vid, pid, pct, now);
            let c = cache_with_battery(cache, vid, pid, pct, now);
            let id = id_of(v, p);
            let shared = vid == 0x0C45 && v == 0x0C45 && (pid == 0xFEFE || pid == 0x8006) && (p
                == 0xFEFE || p == 0x8006);
            &&& v == vid && p == pid || shared ==> l.contains_key(id) && l[id].battery == Some(pct)
                && l[id].last_rf == Some(now)
            &&& v == vid && p == pid || shared && p == 0xFEFE ==> c.contains_key(id) && c[id] == (
                pct,
                now,
            )
            &&& !(v == vid && p == pid) && !shared ==> l.contains_key(id) == links.contains_key(id)
                && l[id] == links[id]
            &&& !(v == vid && p == pid) && !(shared && p == 0xFEFE) ==> c.contains_key(id)
                == cache.contains_key(id) && c[id] == cache[id]
        }),
{
    lemma_id_is_unique(vid, pid, v, p);
    lemma_id_is_unique(0x0C45, 0xFEFE, v, p);
    lemma_id_is_unique(0x0C45, 0x8006, v, p);
    lemma_id_is_unique(0x0C45, 0xFEFE, 0x0C45, 0x8006);
}

/// The collections that a scan turns into rows, with what was waited for and what the
/// links add.
spec fn looked_at(
    m: Memory,
    raw: Seq<HidView>,
    boost: bool,
    packets: Seq<Option<Vec<u8>>>,
    now: u64,
) -> Seq<HidView> {
    if boost && !cable_present(raw) {
        all_overlaid(all_boosted(raw, packets), boosted_links(m.links, raw, packets, now), now)
    } else {
        all_overlaid(raw, m.links, now)
    }
}

/// A scan's collections keep what tells the receivers apart, and what is proven of them.
proof fn lemma_looked_at(
    m: Memory,
    raw: Seq<HidView>,
    boost: bool,
    packets: Seq<Option<Vec<u8>>>,
    now: u64,
)
    ensures
        ({
            let x = looked_at(m, raw, boost, packets, now);
            &&& x.len() == raw.len()
            &&& forall|i: int|
                0 <= i < raw.len() ==> (#[trigger] x[i]).vid == raw[i].vid && x[i].pid
                    == raw[i].pid && x[i].product == raw[i].product && x[i].path == raw[i].path
                    && x[i].usage_page == raw[i].usage_page && x[i].usage == raw[i].usage
            &&& forall|i: int|
                0 <= i < raw.len() && raw[i].battery is Some ==> (#[trigger] x[i]).battery
                    == raw[i].battery
            &&& forall|i: int| 0 <= i < raw.len() && raw[i].link_up ==> (#[trigger] x[i]).link_up
            &&& forall|i: int|
                0 <= i < raw.len() && raw[i].vid != 0x0C45 ==> #[trigger] x[i] == overlaid(
                    raw[i],
                    m.links,
                    now,
                )
        }),
{
    let x = looked_at(m, raw, boost, packets, now);
    assert forall|i: int| 0 <= i < raw.len() && raw[i].vid != 0x0C45 implies #[trigger] x[i]
        == overlaid(raw[i], m.links, now) by {
        lemma_id_is_unique(raw[i].vid, raw[i].pid, 0x0C45, 0xFEFE);
    }
}

/// A scan's rows are those of its collections, each in its place; the keyboard's may be
/// connected for its cable having been pulled, and a battery may be remembered.
proof fn lemma_scan_rows(
    m: Memory,
    raw: Seq<HidView>,
    boost: bool,
    packets: Seq<Option<Vec<u8>>>,
    now: u64,
    i: int,
)
    requires
        0 <= i < hid::device_rows(looked_at(m, raw, boost, packets, now)).len(),
    ensures
        ({
            let rows = hid::device_rows(looked_at(m, raw, boost, packets, now));
            let out = scanned(m, raw, boost, packets, now).1;
            let links1 = if boost && !cable_present(raw) {
                boosted_links(m.links, raw, packets, now)
            } else {
                m.links
            };
            let revive = dongle_revives(links1, m.had_x87_wired, cable_present(raw), now)
                && text::contains(text::ascii_upper(rows[i].address), "0C45:FEFE"@);
            &&& out.len() == rows.len()
            &&& out[i].address == rows[i].address && out[i].name == rows[i].name && out[i].kind
                == rows[i].kind
            &&& out[i].connected == (rows[i].connected || revive)
            &&& out[i].status == if revive {
                "ok"@
            } else {
                rows[i].status
            }
            &&& out[i].connected && rows[i].battery is Some ==> out[i].battery == rows[i].battery
            &&& !out[i].connected ==> out[i].battery is None
        }),
{
    let rows = hid::device_rows(looked_at(m, raw, boost, packets, now));
    let links1 = if boost && !cable_present(raw) {
        boosted_links(m.links, raw, packets, now)
    } else {
        m.links
    };
    let shown = all_revived(
        rows,
        dongle_revives(links1, m.had_x87_wired, cable_present(raw), now),
    );
    law_cache_never_connects(m.cache, shown, now, i);
    lemma_with_cache_len(m.cache, shown, now);
}

/// A receiver that told a percentage shows it: where a listed receiver of any vendor but
/// Sonix has a collection with a battery value, and none of its collections before that
/// one has a value or gets one from memory, the scan has a row for each kind of the
/// receiver that is connected, reads "ok" and shows the value.
pub proof fn law_scan_shows_what_receiver_told(
    m: Memory,
    raw: Seq<HidView>,
    boost: bool,
    packets: Seq<Option<Vec<u8>>>,
    now: u64,
    k: int,
    kind: Seq<char>,
)
    requires
        0 <= k < raw.len(),
        raw[k].vid != 0x0C45,
        raw[k].battery is Some,
        forall|j: int|
            0 <= j < k && (#[trigger] raw[j]).vid == raw[k].vid && raw[j].pid == raw[k].pid
                ==> raw[j].battery is None && !m.links.contains_key(
                id_of(raw[k].vid, raw[k].pid),
            ),
        ({
            let g = hid::members(raw, raw[k].vid, raw[k].pid);
            &&& receiver::is_receiver(
                raw[k].vid,
                raw[k].pid,
                text::lowercase(hid::product_of(g)),
                text::lowercase(g[0].path),
                hid::usages(g),
            )
            &&& receiver::shown_kinds(raw[k].vid, hid::usages(g)).contains(kind)
        }),
    ensures
        exists|i: int|
            #![trigger scanned(m, raw, boost, packets, now).1[i]]
            ({
                let out = scanned(m, raw, boost, packets, now).1;
                &&& 0 <= i < out.len()
                &&& out[i].address == receiver::hid_address(
                    raw[k].vid,
                    raw[k].pid,
                    kind,
                )
                &&& out[i].connected && out[i].status == "ok"@
                &&& out[i].battery == raw[k].battery
            }),
{
    let vid = raw[k].vid;
    let pid = raw[k].pid;
    let x = looked_at(m, raw, boost, packets, now);
    lemma_looked_at(m, raw, boost, packets, now);
    hid::lemma_members_alike(x, raw, vid, pid);
    hid::lemma_members_there(raw, k);
    assert(x[k].battery is Some);
    hid::law_listed_receivers_have_rows(x, k, kind);
    let rows = hid::device_rows(x);
    let i = choose|i: int|
        0 <= i < rows.len() && (#[trigger] rows[i]).address == receiver::hid_address(vid, pid, kind)
            && rows[i].kind == kind && (x[k].battery is Some ==> rows[i].connected
            && rows[i].battery is Some);
    hid::law_receivers_are_connected_by_battery(x, i, vid, pid, kind);
    let q = choose|q: int|
        0 <= q < x.len() && (#[trigger] x[q]).vid == vid && x[q].pid == pid && x[q].battery
            == rows[i].battery && forall|j: int|
            0 <= j < q && (#[trigger] x[j]).vid == vid && x[j].pid == pid ==> x[j].battery is None;
    if q < k {
        assert(x[q].vid == raw[q].vid && x[q].pid == raw[q].pid);
        assert(raw[q].battery is None);
        assert(x[q] == overlaid(raw[q], m.links, now));
    } else if k < q {
        assert(x[k].vid == vid && x[k].pid == pid);
    }
    lemma_scan_rows(m, raw, boost, packets, now, i);
    receiver::law_hid_address_reads_back(vid, pid, kind);
    lemma_not_keyboard(x, i, vid, pid, kind);
    assert(scanned(m, raw, boost, packets, now).1[i].battery == raw[k].battery);
}

/// A row of another vendor's receiver is not taken for the keyboard's.
proof fn lemma_not_keyboard(x: Seq<HidView>, i: int, vid: u16, pid: u16, kind: Seq<char>)
    requires
        0 <= i < hid::device_rows(x).len(),
        vid != 0x0C45,
        hid::device_rows(x)[i].address == receiver::hid_address(vid, pid, kind),
    ensures
        !text::contains(text::ascii_upper(hid::device_rows(x)[i].address), "0C45:FEFE"@),
{
    receiver::law_hid_address_reads_back(vid, pid, kind);
    if text::contains(text::ascii_upper(hid::device_rows(x)[i].address), "0C45:FEFE"@) {
        hid::lemma_keyboard_row_ids(x, i);
    }
}

/// A battery that a receiver told in passing is shown by scans for 90 seconds: where no
/// collection of a listed receiver of any vendor but Sonix holds a value, its rows are
/// connected and show the one that its link holds.
pub proof fn law_scan_shows_what_link_holds(
    m: Memory,
    raw: Seq<HidView>,
    boost: bool,
    packets: Seq<Option<Vec<u8>>>,
    now: u64,
    at: u64,
    k: int,
    kind: Seq<char>,
)
    requires
        0 <= k < raw.len(),
        raw[k].vid != 0x0C45,
        forall|j: int|
            0 <= j < raw.len() && (#[trigger] raw[j]).vid == raw[k].vid && raw[j].pid == raw[k].pid
                ==> raw[j].battery is None,
        m.links.contains_key(id_of(raw[k].vid, raw[k].pid)),
        m.links[id_of(raw[k].vid, raw[k].pid)].battery is Some,
        m.links[id_of(raw[k].vid, raw[k].pid)].last_rf == Some(at),
        at <= now < at + 90_000_000_000,
        ({
            let g = hid::members(raw, raw[k].vid, raw[k].pid);
            &&& receiver::is_receiver(
                raw[k].vid,
                raw[k].pid,
                text::lowercase(hid::product_of(g)),
                text::lowercase(g[0].path),
                hid::usages(g),
            )
            &&& receiver::shown_kinds(raw[k].vid, hid::usages(g)).contains(kind)
        }),
    ensures
        exists|i: int|
            #![trigger scanned(m, raw, boost, packets, now).1[i]]
            ({
                let out = scanned(m, raw, boost, packets, now).1;
                &&& 0 <= i < out.len()
                &&& out[i].address == receiver::hid_address(
                    raw[k].vid,
                    raw[k].pid,
                    kind,
                )
                &&& out[i].connected && out[i].status == "ok"@
                &&& out[i].battery == m.links[id_of(raw[k].vid, raw[k].pid)].battery
            }),
{
    let vid = raw[k].vid;
    let pid = raw[k].pid;
    let held = m.links[id_of(vid, pid)].battery;
    let x = looked_at(m, raw, boost, packets, now);
    lemma_looked_at(m, raw, boost, packets, now);
    hid::lemma_members_alike(x, raw, vid, pid);
    hid::lemma_members_there(raw, k);
    assert(x[k] == overlaid(raw[k], m.links, now));
    hid::law_listed_receivers_have_rows(x, k, kind);
    let rows = hid::device_rows(x);
    let i = choose|i: int|
        0 <= i < rows.len() && (#[trigger] rows[i]).address == receiver::hid_address(vid, pid, kind)
            && rows[i].kind == kind && (x[k].battery is Some ==> rows[i].connected
            && rows[i].battery is Some);
    hid::law_receivers_are_connected_by_battery(x, i, vid, pid, kind);
    let q = choose|q: int|
        0 <= q < x.len() && (#[trigger] x[q]).vid == vid && x[q].pid == pid && x[q].battery
            == rows[i].battery;
    assert(raw[q].battery is None);
    assert(x[q] == overlaid(raw[q], m.links, now));
    lemma_scan_rows(m, raw, boost, packets, now, i);
    lemma_not_keyboard(x, i, vid, pid, kind);
    assert(scanned(m, raw, boost, packets, now).1[i].battery == held);
}

/// The keyboard's dongle is among some collections, and is listed.
pub open spec fn dongle_listed(raw: Seq<HidView>) -> bool {
    let g = hid::members(raw, 0x0C45, 0xFEFE);
    &&& exists|k: int| 0 <= k < raw.len() && (#[trigger] raw[k]).vid == 0x0C45 && raw[k].pid == 0xFEFE
    &&& receiver::is_receiver(
        0x0C45,
        0xFEFE,
        text::lowercase(hid::product_of(g)),
        text::lowercase(g[0].path),
        hid::usages(g),
    )
}

/// The keyboard has a row.
proof fn lemma_keyboard_row(
    m: Memory,
    raw: Seq<HidView>,
    boost: bool,
    packets: Seq<Option<Vec<u8>>>,
    now: u64,
) -> (i: int)
    requires
        dongle_listed(raw),
    ensures
        ({
            let rows = hid::device_rows(looked_at(m, raw, boost, packets, now));
            &&& 0 <= i < rows.len()
            &&& receiver::parsed_hid_addr(rows[i].address) == Some((0x0C45u16, 0xFEFEu16))
            &&& text::contains(text::ascii_upper(rows[i].address), "0C45:FEFE"@)
        }),
{
    let k = choose|k: int|
        0 <= k < raw.len() && (#[trigger] raw[k]).vid == 0x0C45 && raw[k].pid == 0xFEFE;
    let x = looked_at(m, raw, boost, packets, now);
    lemma_looked_at(m, raw, boost, packets, now);
    hid::lemma_members_alike(x, raw, 0x0C45, 0xFEFE);
    hid::lemma_members_there(raw, k);
    assert(x[k].vid == 0x0C45);
    hid::law_keyboard_is_listed(x, k);
    let rows = hid::device_rows(x);
    let i = choose|i: int|
        0 <= i < rows.len() && receiver::parsed_hid_addr((#[trigger] rows[i]).address) == Some(
            (0x0C45u16, 0xFEFEu16),
        );
    hid::lemma_keyboard_address(x, i);
    i
}

/// For 90 seconds after the keyboard's dongle was heard, by a key press or a report, the
/// keyboard is connected.
pub proof fn law_heard_keyboard_is_connected(
    m: Memory,
    raw: Seq<HidView>,
    boost: bool,
    packets: Seq<Option<Vec<u8>>>,
    now: u64,
    at: u64,
)
    requires
        dongle_listed(raw),
        m.links.contains_key(id_of(0x0C45, 0xFEFE)),
        m.links[id_of(0x0C45, 0xFEFE)].last_rf == Some(at),
        at <= now < at + 90_000_000_000,
    ensures
        exists|i: int|
            #![trigger scanned(m, raw, boost, packets, now).1[i]]
            ({
                let out = scanned(m, raw, boost, packets, now).1;
                &&& 0 <= i < out.len()
                &&& receiver::parsed_hid_addr(out[i].address) == Some(
                    (0x0C45u16, 0xFEFEu16),
                )
                &&& out[i].connected && out[i].status == "ok"@
            }),
{
    let x = looked_at(m, raw, boost, packets, now);
    let i = lemma_keyboard_row(m, raw, boost, packets, now);
    lemma_looked_at(m, raw, boost, packets, now);
    hid::law_keyboard_is_connected_by_cable_or_link(x, i);
    let k = choose|k: int|
        0 <= k < raw.len() && (#[trigger] raw[k]).vid == 0x0C45 && raw[k].pid == 0xFEFE;
    assert(x[k].vid == 0x0C45 && x[k].pid == 0xFEFE && x[k].link_up);
    lemma_scan_rows(m, raw, boost, packets, now, i);
    assert(scanned(m, raw, boost, packets, now).1[i].connected);
}

/// Once the keyboard's cable is pulled, the scan that no longer finds it shows the
/// keyboard as connected, and so do later ones for 90 seconds.
pub proof fn law_unplugged_keyboard_stays_connected(
    m: Memory,
    raw: Seq<HidView>,
    boost: bool,
    packets: Seq<Option<Vec<u8>>>,
    now: u64,
)
    requires
        dongle_listed(raw),
        m.had_x87_wired,
        forall|k: int|
            0 <= k < raw.len() ==> !((#[trigger] raw[k]).vid == 0x0C45 && raw[k].pid == 0x8006),
    ensures
        exists|i: int|
            #![trigger scanned(m, raw, boost, packets, now).1[i]]
            ({
                let out = scanned(m, raw, boost, packets, now).1;
                &&& 0 <= i < out.len()
                &&& receiver::parsed_hid_addr(out[i].address) == Some(
                    (0x0C45u16, 0xFEFEu16),
                )
                &&& out[i].connected && out[i].status == "ok"@
            }),
        ({
            let after = scanned(m, raw, boost, packets, now).0;
            &&& after.links.contains_key(id_of(0x0C45, 0xFEFE))
            &&& after.links[id_of(0x0C45, 0xFEFE)].last_rf == Some(now)
            &&& !after.had_x87_wired
        }),
{
    let i = lemma_keyboard_row(m, raw, boost, packets, now);
    lemma_scan_rows(m, raw, boost, packets, now, i);
    assert(scanned(m, raw, boost, packets, now).1[i].connected);
}

/// A keyboard of which nothing was heard is offline: without its cable, without a link
/// that a collection or a report proves, and with its dongle last heard 90 seconds ago or
/// never, its row is not connected and shows no battery.
pub proof fn law_silent_keyboard_is_offline(
    m: Memory,
    raw: Seq<HidView>,
    now: u64,
    packets: Seq<Option<Vec<u8>>>,
    i: int,
)
    requires
        !m.had_x87_wired,
        forall|k: int|
            0 <= k < raw.len() ==> !((#[trigger] raw[k]).vid == 0x0C45 && raw[k].pid == 0x8006),
        forall|k: int|
            0 <= k < raw.len() && (#[trigger] raw[k]).vid == 0x0C45 && raw[k].pid == 0xFEFE
                ==> !raw[k].link_up,
        m.links.contains_key(id_of(0x0C45, 0xFEFE)) ==> {
            let l = m.links[id_of(0x0C45, 0xFEFE)];
            !l.wired && (l.last_rf matches Some(at) ==> now >= at + 90_000_000_000)
        },
        0 <= i < scanned(m, raw, false, packets, now).1.len(),
        receiver::parsed_hid_addr(scanned(m, raw, false, packets, now).1[i].address) == Some(
            (0x0C45u16, 0xFEFEu16),
        ),
    ensures
        !scanned(m, raw, false, packets, now).1[i].connected,
        scanned(m, raw, false, packets, now).1[i].status == "offline"@,
        scanned(m, raw, false, packets, now).1[i].battery is None,
{
    let x = looked_at(m, raw, false, packets, now);
    lemma_looked_at(m, raw, false, packets, now);
    let rows = hid::device_rows(x);
    let shown = all_revived(rows, dongle_revives(m.links, m.had_x87_wired, false, now));
    lemma_with_cache_len(m.cache, shown, now);
    lemma_scan_rows(m, raw, false, packets, now, i);
    hid::law_keyboard_is_connected_by_cable_or_link(x, i);
    assert forall|k: int|
        0 <= k < x.len() && (#[trigger] x[k]).vid == 0x0C45 implies x[k].pid != 0x8006 && (
    x[k].pid == 0xFEFE ==> !x[k].link_up) by {
        assert(raw[k].vid == 0x0C45 && raw[k].pid == x[k].pid);
    }
}

/// A battery that was cached less than half an hour ago stands in where a connected row
/// has none, unless an earlier row of the same receiver brought a newer one; without one
/// the row stays without.
pub proof fn law_cache_stands_in(
    cache: Map<u32, (u8, u64)>,
    devs: Seq<DeviceView>,
    now: u64,
    i: int,
)
    requires
        0 <= i < devs.len(),
        devs[i].connected,
        devs[i].battery is None,
        receiver::parsed_hid_addr(devs[i].address) is Some,
        forall|j: int|
            0 <= j < i && receiver::parsed_hid_addr((#[trigger] devs[j]).address)
                == receiver::parsed_hid_addr(devs[i].address) ==> !devs[j].connected
                || devs[j].battery is None,
    ensures
        ({
            let (vid, pid) = receiver::parsed_hid_addr(devs[i].address)->0;
            let id = id_of(vid, pid);
            let fresh = cache.contains_key(id) && now < cache[id].1 + 1_800_000_000_000;
            with_cache(cache, devs, now).1[i].battery == if fresh {
                Some(cache[id].0)
            } else {
                None
            }
        }),
    decreases devs.len(),
{
    lemma_with_cache_len(cache, devs, now);
    lemma_with_cache_len(cache, devs.drop_last(), now);
    let t = devs.drop_last();
    if i < devs.len() - 1 {
        assert(t[i] == devs[i]);
        assert forall|j: int|
            0 <= j < i && receiver::parsed_hid_addr((#[trigger] t[j]).address)
                == receiver::parsed_hid_addr(t[i].address) implies !t[j].connected
            || t[j].battery is None by {
            assert(t[j] == devs[j]);
        }
        law_cache_stands_in(cache, t, now, i);
        assert(with_cache(cache, devs, now).1[i] == with_cache(cache, t, now).1[i]);
    } else {
        let (vid, pid) = receiver::parsed_hid_addr(devs[i].address)->0;
        assert forall|j: int|
            0 <= j < t.len() && receiver::parsed_hid_addr((#[trigger] t[j]).address) == Some(
                (vid, pid),
            ) implies !t[j].connected || t[j].battery is None by {
            assert(t[j] == devs[j]);
        }
        lemma_cache_untouched(cache, t, now, vid, pid);
    }
}

/// Rows that tell no battery of a receiver leave what is cached of it.
proof fn lemma_cache_untouched(
    cache: Map<u32, (u8, u64)>,
    devs: Seq<DeviceView>,
    now: u64,
    vid: u16,
    pid: u16,
)
    requires
        forall|j: int|
            0 <= j < devs.len() && receiver::parsed_hid_addr((#[trigger] devs[j]).address) == Some(
                (vid, pid),
            ) ==> !devs[j].connected || devs[j].battery is None,
    ensures
        with_cache(cache, devs, now).0.contains_key(id_of(vid, pid)) == cache.contains_key(
            id_of(vid, pid),
        ),
        with_cache(cache, devs, now).0[id_of(vid, pid)] == cache[id_of(vid, pid)],
    decreases devs.len(),
{
    if devs.len() > 0 {
        let t = devs.drop_last();
        assert forall|j: int|
            0 <= j < t.len() && receiver::parsed_hid_addr((#[trigger] t[j]).address) == Some(
                (vid, pid),
            ) implies !t[j].connected || t[j].battery is None by {
            assert(t[j] == devs[j]);
        }
        lemma_cache_untouched(cache, t, now, vid, pid);
        assert(devs[devs.len() - 1] == devs.last());
        if let Some((v, p)) = receiver::parsed_hid_addr(devs.last().address) {
            lemma_id_is_unique(v, p, vid, pid);
        }
    }
}

/// What a connected row shows is cached: the last row of a receiver that tells a battery
/// leaves it in the cache, with the time.
pub proof fn law_cache_remembers(
    cache: Map<u32, (u8, u64)>,
    devs: Seq<DeviceView>,
    now: u64,
    i: int,
    vid: u16,
    pid: u16,
)
    requires
        0 <= i < devs.len(),
        devs[i].connected,
        devs[i].battery is Some,
        receiver::parsed_hid_addr(devs[i].address) == Some((vid, pid)),
        forall|j: int|
            i < j < devs.len() && receiver::parsed_hid_addr((#[trigger] devs[j]).address) == Some(
                (vid, pid),
            ) ==> !devs[j].connected || devs[j].battery is None,
    ensures
        with_cache(cache, devs, now).0.contains_key(id_of(vid, pid)),
        with_cache(cache, devs, now).0[id_of(vid, pid)] == (devs[i].battery->0, now),
    decreases devs.len(),
{
    let t = devs.drop_last();
    if i < devs.len() - 1 {
        assert(t[i] == devs[i]);
        assert forall|j: int|
            i < j < t.len() && receiver::parsed_hid_addr((#[trigger] t[j]).address) == Some(
                (vid, pid),
            ) implies !t[j].connected || t[j].battery is None by {
            assert(t[j] == devs[j]);
        }
        law_cache_remembers(cache, t, now, i, vid, pid);
        assert(devs[devs.len() - 1] == devs.last());
        if let Some((v, p)) = receiver::parsed_hid_addr(devs.last().address) {
            lemma_id_is_unique(v, p, vid, pid);
        }
    }
}

/// A status report of the keyboard's dongle that was waited for brings the keyboard up
/// and shows its battery, where the scan had proven nothing and the cable is gone.
pub proof fn law_awaited_report_brings_keyboard_up(
    raw: Seq<HidView>,
    packets: Seq<Option<Vec<u8>>>,
    links: Map<u32, LiveLink>,
    now: u64,
    i: int,
    b: Seq<u8>,
)
    requires
        0 <= i < raw.len(),
        raw[i].vid == 0x0C45 && raw[i].pid == 0xFEFE && raw[i].input_len == 65,
        !raw[i].link_up && raw[i].battery is None,
        i < packets.len(),
        packets[i] matches Some(v) && v@ == b,
        reports::sonix_battery(b) is Some,
    ensures
        all_boosted(raw, packets)[i].link_up,
        all_boosted(raw, packets)[i].battery == reports::sonix_battery(b),
        boosted_links(links, raw, packets, now).contains_key(id_of(0x0C45, 0xFEFE)),
        boosted_links(links, raw, packets, now)[id_of(0x0C45, 0xFEFE)].last_rf == Some(now),
{
    assert(packet_at(packets, i) == Some(b));
    assert(is_boosted(raw[i], packet_at(packets, i)));
}

/// Waiting for reports changes no other collection, and no other link.
pub proof fn law_waiting_changes_the_dongle_alone(
    raw: Seq<HidView>,
    packets: Seq<Option<Vec<u8>>>,
    links: Map<u32, LiveLink>,
    now: u64,
    i: int,
    id: u32,
)
    requires
        0 <= i < raw.len(),
    ensures
        raw[i].vid != 0x0C45 || raw[i].pid != 0xFEFE || raw[i].link_up || raw[i].battery is Some
            ==> all_boosted(raw, packets)[i] == raw[i],
        id != id_of(0x0C45, 0xFEFE) ==> boosted_links(links, raw, packets, now).contains_key(id)
            == links.contains_key(id) && boosted_links(links, raw, packets, now)[id] == links[id],
        (forall|k: int| 0 <= k < packets.len() ==> (#[trigger] packets[k]) is None) ==> all_boosted(
            raw,
            packets,
        )[i] == raw[i] && boosted_links(links, raw, packets, now) == links,
{
    if forall|k: int| 0 <= k < packets.len() ==> (#[trigger] packets[k]) is None {
        assert forall|j: int| 0 <= j < raw.len() implies !is_boosted(
            #[trigger] raw[j],
            packet_at(packets, j),
        ) by {
            if j < packets.len() {
                assert(packets[j] is None);
            }
        }
    }
}

/// A scan leaves what is known of any receiver but the keyboard's dongle and cable as it
/// was, and takes note of whether the cable is there.
pub proof fn law_scan_keeps_other_links(
    m: Memory,
    raw: Seq<HidView>,
    boost: bool,
    packets: Seq<Option<Vec<u8>>>,
    now: u64,
    id: u32,
)
    ensures
        ({
            let after = scanned(m, raw, boost, packets, now).0;
            &&& id != id_of(0x0C45, 0xFEFE) && id != id_of(0x0C45, 0x8006)
                ==> after.links.contains_key(id) == m.links.contains_key(id) && after.links[id]
                == m.links[id]
            &&& after.had_x87_wired <==> exists|k: int|
                0 <= k < raw.len() && (#[trigger] raw[k]).vid == 0x0C45 && raw[k].pid == 0x8006
            &&& after.links.contains_key(id_of(0x0C45, 0x8006))
            &&& after.links[id_of(0x0C45, 0x8006)].wired == after.had_x87_wired
        }),
{
    lemma_id_is_unique(0x0C45, 0xFEFE, 0x0C45, 0x8006);
}

/// What was opened is looked at, and every failure is told: the collections and failures
/// together are as many as the paths that gave one.
pub proof fn law_every_probe_counts(probes: Seq<(String, Probe)>, i: int)
    requires
        0 <= i < probes.len(),
    ensures
        probes[i].1 matches Ok(Some(d)) ==> opened(probes).contains(d),
        probes[i].1 matches Err(e) ==> failures(probes).contains(probes[i].0@ + ": "@ + e@),
        opened(probes).len() + failures(probes).len() <= probes.len(),
    decreases probes.len(),
{
    let t = probes.drop_last();
    let a = opened(t);
    let b = failures(t);
    lemma_probe_count(probes);
    if i < t.len() {
        law_every_probe_counts(t, i);
        assert(t[i] == probes[i]);
        if let Ok(Some(d)) = probes[i].1 {
            let k = choose|k: int| 0 <= k < a.len() && a[k] == d;
            assert(opened(probes)[k] == d);
        }
        if let Err(e) = probes[i].1 {
            let line = probes[i].0@ + ": "@ + e@;
            let k = choose|k: int| 0 <= k < b.len() && b[k] == line;
            assert(failures(probes)[k] == line);
        }
    } else {
        assert(probes[i] == probes.last());
        if let Ok(Some(d)) = probes[i].1 {
            assert(opened(probes)[a.len() as int] == d);
        }
        if let Err(e) = probes[i].1 {
            assert(failures(probes)[b.len() as int] == probes[i].0@ + ": "@ + e@);
        }
    }
}

proof fn lemma_probe_count(probes: Seq<(String, Probe)>)
    ensures
        opened(probes).len() + failures(probes).len() <= probes.len(),
    decreases probes.len(),
{
    if probes.len() > 0 {
        lemma_probe_count(probes.drop_last());
    }
}

/// The memory says what is held of links and batteries, and whether the cable was there.
pub proof fn law_memory_tells_all(s: HidState)
    ensures
        s@.links == s.links@,
        s@.cache == s.cache@,
        s@.had_x87_wired == s.had_x87_wired,
{
}

/// A report is waited for where the keyboard's dongle is there and nothing proves its
/// link, neither the link itself nor a battery.
pub proof fn law_dongle_is_waited_for(d: HidView)
    ensures
        needs_boost(d) ==> d.vid == 0x0C45 && d.pid == 0xFEFE && d.input_len == 65,
        d.link_up || d.battery is Some ==> !needs_boost(d),
        d.vid == 0x0C45 && d.pid == 0xFEFE && d.input_len == 65 && !d.link_up && d.battery is None
            ==> needs_boost(d),
{
}

} // verus!
