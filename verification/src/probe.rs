//! Looking at a HID collection: which of the battery queries it is asked, and what
//! the answers say of it.

use vstd::prelude::*;

use crate::hid::{HidDevice, HidView};
use crate::links;
use crate::links::{HidState, Memory, note_live_battery, sonix_rf_alive};
use crate::model;
use crate::receiver;
use crate::receiver::{is_compx_vid, is_sonix_vid, is_vendor_page};
use crate::text;
use crate::text::{owned, same, trim};
use crate::wide;
use crate::wide::decode_until_nul;

verus! {

/// A battery query.
#[derive(Clone, Copy, Debug, PartialEq, Eq, Structural)]
pub enum Ask {
    /// The standard battery usages.
    Standard,
    Eweadn,
    Hidpp,
    Compx,
    Sonix,
    /// Whether a VIA keyboard answers at all.
    ViaAlive,
}

/// What came of a battery query.
#[derive(Debug)]
pub enum Answer {
    /// The battery from a standard usage, and the bytes of the first report that
    /// could be read.
    Standard(Option<u8>, String),
    Battery(Option<u8>),
    /// The battery and the bytes of the report that told it, or why there is none.
    Compx(Result<(u8, String), String>),
    /// The same, and whether the radio was heard.
    Sonix(Result<(u8, String, bool), String>),
    Alive(bool),
}

/// The place of a query among those that are made one after the other.
pub open spec fn turn(ask: Ask) -> int {
    match ask {
        Ask::Standard => 0,
        Ask::Eweadn => 1,
        Ask::Hidpp => 2,
        _ => 3,
    }
}

/// A collection still has no battery and can be asked for it.
pub open spec fn can_ask(d: HidView) -> bool {
    d.battery is None && d.access == "R/W"@
}

/// One of a collection's report lengths is `n`.
pub open spec fn has_len(d: HidView, n: u16) -> bool {
    d.input_len == n || d.output_len == n
}

/// The query for a vendor's own collection.
pub open spec fn vendor_ask(d: HidView) -> Option<Ask> {
    if d.usage_page < 0xFF00 {
        None
    } else if receiver::compx_vid(d.vid) && (has_len(d, 17) || has_len(d, 20)) {
        Some(Ask::Compx)
    } else if d.vid == 0x0C45 && d.pid == 0xFEFE && has_len(d, 65) {
        Some(Ask::Sonix)
    } else if d.vid == 0x0C45 && d.pid == 0xFEFE && has_len(d, 33) {
        Some(Ask::ViaAlive)
    } else {
        None
    }
}

/// The next query of a collection, from a turn on.
pub open spec fn ask_from(d: HidView, from: int) -> Option<Ask> {
    if from <= 0 {
        Some(Ask::Standard)
    } else if from <= 1 && can_ask(d) && d.vid == 0x0C45 && d.usage_page != 0xFF59 {
        Some(Ask::Eweadn)
    } else if from <= 2 && can_ask(d) && d.vid == 0x046D {
        Some(Ask::Hidpp)
    } else if from <= 3 && can_ask(d) {
        vendor_ask(d)
    } else {
        None
    }
}

/// The first query of a collection. Without `query` nothing is asked.
pub fn first_ask(query: bool) -> (r: Option<Ask>)
    ensures
        r == if query {
            Some(Ask::Standard)
        } else {
            None
        },
{
    if query {
        Some(Ask::Standard)
    } else {
        None
    }
}

/// The query of a collection that follows one that was answered.
pub fn next_ask(d: &HidDevice, after: Ask) -> (r: Option<Ask>)
    ensures
        r == ask_from(d@, turn(after) + 1),
{
    let done: u8 = match after {
        Ask::Standard => 0,
        Ask::Eweadn => 1,
        Ask::Hidpp => 2,
        _ => 3,
    };
    if d.battery.is_some() || !same(d.access, "R/W") {
        return None;
    }
    if done < 1 && d.vid == 0x0C45 && d.usage_page != 0xFF59 {
        return Some(Ask::Eweadn);
    }
    if done < 2 && d.vid == 0x046D {
        return Some(Ask::Hidpp);
    }
    if done >= 3 || !is_vendor_page(d.usage_page) {
        return None;
    }
    let (i, o): (u16, u16) = (d.input_len, d.output_len);
    if is_compx_vid(d.vid) && (i == 17 || i == 20 || o == 17 || o == 20) {
        Some(Ask::Compx)
    } else if is_sonix_vid(d.vid) && d.pid == 0xFEFE && (i == 65 || o == 65) {
        Some(Ask::Sonix)
    } else if is_sonix_vid(d.vid) && d.pid == 0xFEFE && (i == 33 || o == 33) {
        Some(Ask::ViaAlive)
    } else {
        None
    }
}

/// A collection with a text kept for diagnosis, unless it has one.
pub open spec fn with_hex(d: HidView, hex: Seq<char>) -> HidView {
    if d.feature_hex.len() == 0 {
        HidView { feature_hex: hex, ..d }
    } else {
        d
    }
}

/// The memory after a battery value came from a receiver.
pub open spec fn noted(m: Memory, vid: u16, pid: u16, pct: u8, now: u64) -> Memory {
    Memory {
        links: links::links_with_battery(m.links, vid, pid, pct, now),
        cache: links::cache_with_battery(m.cache, vid, pid, pct, now),
        ..m
    }
}

/// The memory after a receiver's link was looked at.
pub open spec fn listened(m: Memory, vid: u16, pid: u16, saw: bool, now: u64) -> Memory {
    let id = links::id_of(vid, pid);
    Memory { links: m.links.insert(id, links::heard(m.links, id, saw, now)), ..m }
}

/// A receiver's link is up, after its radio was heard or not.
pub open spec fn is_alive(m: Memory, vid: u16, pid: u16, saw: bool, now: u64) -> bool {
    links::is_up(
        links::heard(m.links, links::id_of(vid, pid), saw, now),
        now,
        links::SONIX_LINK_TTL,
    )
}

/// A collection and the memory after an answer.
pub open spec fn answered(d: HidView, m: Memory, ask: Ask, a: Answer, now: u64) -> (
    HidView,
    Memory,
) {
    match (ask, a) {
        (Ask::Standard, Answer::Standard(battery, hex)) => (
            HidView { battery, feature_hex: hex@, ..d },
            m,
        ),
        (Ask::Eweadn, Answer::Battery(Some(pct))) => (
            HidView { battery: Some(pct), link_up: true, ..d },
            noted(m, d.vid, d.pid, pct, now),
        ),
        (Ask::Hidpp, Answer::Battery(Some(pct))) => (
            with_hex(HidView { battery: Some(pct), link_up: true, ..d }, "hid++"@),
            m,
        ),
        (Ask::Compx, Answer::Compx(Ok((pct, hex)))) => (
            with_hex(HidView { battery: Some(pct), ..d }, hex@),
            noted(m, d.vid, d.pid, pct, now),
        ),
        (Ask::Compx, Answer::Compx(Err(e))) => (HidView { debug: e@, ..d }, m),
        (Ask::Sonix, Answer::Sonix(Ok((pct, hex, live)))) => {
            let n = noted(m, d.vid, d.pid, pct, now);
            (
                with_hex(
                    HidView {
                        battery: Some(pct),
                        link_up: d.link_up || is_alive(n, d.vid, d.pid, live, now),
                        ..d
                    },
                    hex@,
                ),
                listened(n, d.vid, d.pid, live, now),
            )
        },
        (Ask::Sonix, Answer::Sonix(Err(e))) => (
            HidView {
                debug: e@,
                link_up: d.link_up || is_alive(m, d.vid, d.pid, false, now),
                ..d
            },
            listened(m, d.vid, d.pid, false, now),
        ),
        (Ask::ViaAlive, Answer::Alive(true)) => (
            HidView { link_up: d.link_up || is_alive(m, d.vid, d.pid, true, now), ..d },
            listened(m, d.vid, d.pid, true, now),
        ),
        _ => (d, m),
    }
}

/// A collection before it was asked for anything. A cable shows by itself that the
/// keyboard is there.
pub fn unasked(
    path: &str,
    ids: (u16, u16),
    usage: (u16, u16),
    lens: (u16, u16, u16),
    texts: (String, String),
    access: &'static str,
) -> (r: HidDevice)
    ensures
        r@ == (HidView {
            path: path@,
            vid: ids.0,
            pid: ids.1,
            usage_page: usage.0,
            usage: usage.1,
            input_len: lens.0,
            output_len: lens.1,
            feature_len: lens.2,
            product: texts.0@,
            manufacturer: texts.1@,
            access: access@,
            battery: None,
            feature_hex: Seq::empty(),
            debug: Seq::empty(),
            link_up: ids.1 == 0x8006,
        }),
{
    let r = HidDevice {
        path: owned(path),
        vid: ids.0,
        pid: ids.1,
        usage_page: usage.0,
        usage: usage.1,
        input_len: lens.0,
        output_len: lens.1,
        feature_len: lens.2,
        product: texts.0,
        manufacturer: texts.1,
        access,
        battery: None,
        feature_hex: String::new(),
        debug: String::new(),
        link_up: ids.1 == 0x8006,
    };
    assert(r.feature_hex@ =~= Seq::empty());
    assert(r.debug@ =~= Seq::empty());
    r
}

fn keep_hex(d: &mut HidDevice, hex: String)
    ensures
        final(d)@ == with_hex(old(d)@, hex@),
{
    if d.feature_hex.as_str().unicode_len() == 0 {
        d.feature_hex = hex;
    }
}

/// Takes in the answer to a battery query.
pub fn on_answer(d: &mut HidDevice, hid: &mut HidState, ask: Ask, a: Answer, now: u64)
    ensures
        (final(d)@, final(hid)@) == answered(old(d)@, old(hid)@, ask, a, now),
{
    let (vid, pid): (u16, u16) = (d.vid, d.pid);
    match (ask, a) {
        (Ask::Standard, Answer::Standard(battery, hex)) => {
            d.battery = battery;
            d.feature_hex = hex;
        },
        (Ask::Eweadn, Answer::Battery(Some(pct))) => {
            d.battery = Some(pct);
            note_live_battery(hid, vid, pid, pct, now);
            d.link_up = true;
        },
        (Ask::Hidpp, Answer::Battery(Some(pct))) => {
            d.battery = Some(pct);
            d.link_up = true;
            keep_hex(d, owned("hid++"));
        },
        (Ask::Compx, Answer::Compx(Ok((pct, hex)))) => {
            d.battery = Some(pct);
            note_live_battery(hid, vid, pid, pct, now);
            keep_hex(d, hex);
        },
        (Ask::Compx, Answer::Compx(Err(e))) => {
            d.debug = e;
        },
        (Ask::Sonix, Answer::Sonix(Ok((pct, hex, live)))) => {
            d.battery = Some(pct);
            note_live_battery(hid, vid, pid, pct, now);
            let up = sonix_rf_alive(hid, vid, pid, live, now);
            d.link_up = d.link_up || up;
            keep_hex(d, hex);
        },
        (Ask::Sonix, Answer::Sonix(Err(e))) => {
            d.debug = e;
            let up = sonix_rf_alive(hid, vid, pid, false, now);
            d.link_up = d.link_up || up;
        },
        (Ask::ViaAlive, Answer::Alive(true)) => {
            let up = sonix_rf_alive(hid, vid, pid, true, now);
            d.link_up = d.link_up || up;
        },
        _ => {},
    }
}

// ----------------------------------------------------------------------- texts

/// A text that a device told, in UTF-16 up to a zero, if it told one.
pub fn hid_wide_string(ok: bool, units: &[u16]) -> (r: String)
    ensures
        r@ == if ok {
            text::trimmed(wide::decoded(wide::until_nul(units@)))
        } else {
            Seq::<char>::empty()
        },
{
    if !ok {
        let none = String::new();
        assert(none@ =~= Seq::empty());
        return none;
    }
    let s = decode_until_nul(units);
    trim(s.as_str())
}

/// The UTF-16 units that lie in bytes, low byte first, from the fifth byte on.
pub open spec fn units_in(detail: Seq<u8>) -> Seq<u16> {
    Seq::new(
        ((detail.len() - 4) / 2) as nat,
        |k: int| (detail[4 + 2 * k] + 256 * detail[5 + 2 * k]) as u16,
    )
}

/// The path in the details of an interface: behind their size, up to a zero.
pub fn read_detail_path(detail: &[u8]) -> (r: String)
    ensures
        r@ == if detail@.len() <= 6 {
            Seq::<char>::empty()
        } else {
            wide::decoded(wide::until_nul(units_in(detail@)))
        },
{
    if detail.len() <= 6 {
        let none = String::new();
        assert(none@ =~= Seq::empty());
        return none;
    }
    let len: usize = detail.len();
    let n: usize = (len - 4) / 2;
    let mut units: Vec<u16> = Vec::new();
    for k in 0..n
        invariant
            n == (len - 4) / 2,
            len == detail@.len(),
            len > 6,
            units@ == units_in(detail@).take(k as int),
    {
        let lo: u16 = detail[4 + 2 * k] as u16;
        let hi: u16 = detail[5 + 2 * k] as u16;
        units.push(lo + 256 * hi);
        assert(units@ =~= units_in(detail@).take(k + 1));
    }
    assert(units@ =~= units_in(detail@));
    decode_until_nul(&units)
}

// ------------------------------------------------------------------------ laws

/// A collection that was found to have a battery is asked nothing more.
pub proof fn law_battery_ends_questions(d: HidView, from: int)
    requires
        d.battery is Some,
        from > 0,
    ensures
        ask_from(d, from) is None,
{
}

/// Each question comes later than the one before, so that a collection is asked at
/// most four.
pub proof fn law_questions_move_on(d: HidView, from: int)
    requires
        from >= 0,
    ensures
        ask_from(d, from) matches Some(a) ==> from <= turn(a) <= 3,
{
}

/// A collection that cannot be written to is asked for the standard usages only.
pub proof fn law_locked_collections_are_left_alone(d: HidView, from: int)
    requires
        d.access != "R/W"@,
        from > 0,
    ensures
        ask_from(d, from) is None,
{
}

/// An answer's battery is a percentage, if it has one.
pub open spec fn answer_is_percent(a: Answer) -> bool {
    match a {
        Answer::Standard(battery, _) => model::is_percent(battery),
        Answer::Battery(battery) => model::is_percent(battery),
        Answer::Compx(Ok((pct, _))) => pct <= 100,
        Answer::Sonix(Ok((pct, _, _))) => pct <= 100,
        _ => true,
    }
}

/// Where every answer's battery is a percentage, so is what a collection shows and what
/// is remembered of its receiver.
pub proof fn law_answers_keep_percentages(d: HidView, m: Memory, ask: Ask, a: Answer, now: u64)
    requires
        model::is_percent(d.battery),
        m.is_sound(),
        answer_is_percent(a),
    ensures
        model::is_percent(answered(d, m, ask, a, now).0.battery),
        answered(d, m, ask, a, now).1.is_sound(),
{
}

/// A battery that is a percentage, and a look at a link, leave all that is remembered
/// percentages.
pub proof fn law_memory_holds_percentages(
    m: Memory,
    vid: u16,
    pid: u16,
    pct: u8,
    saw: bool,
    now: u64,
)
    requires
        m.is_sound(),
        pct <= 100,
    ensures
        noted(m, vid, pid, pct, now).is_sound(),
        listened(m, vid, pid, saw, now).is_sound(),
{
}

/// A collection that can be written to and has no battery yet is asked in its vendor's own
/// way: a Sonix one by EWEADN, but for its status page; a Logitech one by HID++; a Compx
/// one with reports of its length; and the keyboard's dongle for its status, or whether it
/// answers at all.
pub proof fn law_vendors_are_asked_their_way(d: HidView, from: int)
    requires
        d.battery is None,
        d.access == "R/W"@,
    ensures
        ask_from(d, 0) == Some(Ask::Standard),
        d.vid == 0x0C45 && d.usage_page != 0xFF59 ==> ask_from(d, 1) == Some(Ask::Eweadn),
        d.vid == 0x046D ==> ask_from(d, 1) == Some(Ask::Hidpp),
        (d.vid == 0x373B || d.vid == 0x3554 || d.vid == 0x391D) && d.usage_page >= 0xFF00 && (
        d.input_len == 17 || d.output_len == 17 || d.input_len == 20 || d.output_len == 20)
            ==> ask_from(d, 1) == Some(Ask::Compx),
        d.vid == 0x0C45 && d.pid == 0xFEFE && d.usage_page >= 0xFF00 && (d.input_len == 65
            || d.output_len == 65) ==> ask_from(d, 2) == Some(Ask::Sonix),
        d.vid == 0x0C45 && d.pid == 0xFEFE && d.usage_page >= 0xFF00 && d.input_len != 65
            && d.output_len != 65 && (d.input_len == 33 || d.output_len == 33) ==> ask_from(d, 2)
            == Some(Ask::ViaAlive),
        d.vid != 0x0C45 && d.vid != 0x046D && (d.usage_page < 0xFF00 || !(d.vid == 0x373B || d.vid
            == 0x3554 || d.vid == 0x391D)) && from > 0 ==> ask_from(d, from) is None,
{
}

/// A battery that is told is what the collection shows; where none is told, it keeps what
/// it had, but for the standard usages, which come first. What the collection is does not
/// change, and a link that was proven stays so.
pub proof fn law_answers_are_shown(d: HidView, m: Memory, ask: Ask, a: Answer, now: u64)
    ensures
        ({
            let r = answered(d, m, ask, a, now).0;
            &&& r.path == d.path && r.vid == d.vid && r.pid == d.pid && r.product == d.product
            &&& r.usage_page == d.usage_page && r.usage == d.usage && r.input_len == d.input_len
                && r.output_len == d.output_len && r.access == d.access
            &&& d.link_up ==> r.link_up
            &&& (ask == Ask::Standard && a is Standard) ==> r.battery == a->Standard_0
            &&& (ask == Ask::Eweadn || ask == Ask::Hidpp) && (a matches Answer::Battery(Some(pct)))
                ==> r.battery == a->Battery_0 && r.link_up
            &&& ask == Ask::Compx && (a matches Answer::Compx(Ok(f))) ==> r.battery == Some(
                (a->Compx_0->Ok_0).0,
            )
            &&& ask == Ask::Sonix && (a matches Answer::Sonix(Ok(f))) ==> r.battery == Some(
                (a->Sonix_0->Ok_0).0,
            ) && r.link_up
            &&& ask == Ask::ViaAlive && (a matches Answer::Alive(true)) ==> r.link_up && r.battery
                == d.battery
            &&& (a matches Answer::Battery(None)) || a is Alive || (a matches Answer::Compx(Err(e)))
                || (a matches Answer::Sonix(Err(e))) ==> r.battery == d.battery
        }),
{
    if let Answer::Sonix(Ok((pct, hex, live))) = a {
        links::law_battery_brings_link_up(m.links, d.vid, d.pid, pct, now);
    }
}

/// A battery that a receiver told is remembered of it, with the time; an answer without
/// one leaves the batteries that are remembered.
pub proof fn law_answers_are_remembered(d: HidView, m: Memory, ask: Ask, a: Answer, now: u64)
    ensures
        ({
            let r = answered(d, m, ask, a, now).1;
            let id = links::id_of(d.vid, d.pid);
            let told = match (ask, a) {
                (Ask::Eweadn, Answer::Battery(b)) => b,
                (Ask::Compx, Answer::Compx(Ok(f))) => Some(f.0),
                (Ask::Sonix, Answer::Sonix(Ok(f))) => Some(f.0),
                _ => None,
            };
            &&& told matches Some(pct) ==> r.links.contains_key(id) && r.links[id].battery == told
                && r.links[id].last_rf == Some(now) && r.cache.contains_key(id) && r.cache[id] == (
                told->0,
                now,
            )
            &&& told is None ==> r.cache == m.cache && links::link_at(r.links, id).battery
                == links::link_at(m.links, id).battery
            &&& r.had_x87_wired == m.had_x87_wired
        }),
{
    links::lemma_id_is_unique(d.vid, d.pid, 0x0C45, 0xFEFE);
    links::lemma_id_is_unique(d.vid, d.pid, 0x0C45, 0x8006);
    match (ask, a) {
        (Ask::Eweadn, Answer::Battery(Some(pct))) => {
            links::law_battery_stays_with_its_receiver(
                m.links,
                m.cache,
                d.vid,
                d.pid,
                pct,
                now,
                d.vid,
                d.pid,
            );
        },
        (Ask::Compx, Answer::Compx(Ok(f))) => {
            links::law_battery_stays_with_its_receiver(
                m.links,
                m.cache,
                d.vid,
                d.pid,
                f.0,
                now,
                d.vid,
                d.pid,
            );
        },
        (Ask::Sonix, Answer::Sonix(Ok(f))) => {
            links::law_battery_stays_with_its_receiver(
                m.links,
                m.cache,
                d.vid,
                d.pid,
                f.0,
                now,
                d.vid,
                d.pid,
            );
        },
        _ => {},
    }
}

/// Hearing a receiver's radio keeps its link up for 90 seconds; a look without hearing it
/// changes nothing of when it was last heard.
pub proof fn law_hearing_keeps_link_up(m: Memory, vid: u16, pid: u16, now: u64, later: u64)
    ensures
        is_alive(m, vid, pid, true, now),
        now <= later < now + 90_000_000_000 ==> is_alive(
            listened(m, vid, pid, true, now),
            vid,
            pid,
            false,
            later,
        ),
        links::link_at(listened(m, vid, pid, false, now).links, links::id_of(vid, pid))
            == links::link_at(m.links, links::id_of(vid, pid)),
        is_alive(m, vid, pid, false, now) ==> {
            let l = links::link_at(m.links, links::id_of(vid, pid));
            l.wired || (l.last_rf is Some && l.last_rf->0 <= now < l.last_rf->0 + 90_000_000_000)
        },
{
}

/// The path of an interface is read behind the four bytes of its size, two bytes for
/// each unit, the low one first.
pub proof fn law_path_stands_behind_size(detail: Seq<u8>, k: int)
    requires
        detail.len() >= 4,
        0 <= k,
        4 + 2 * k + 1 < detail.len(),
    ensures
        units_in(detail).len() == (detail.len() - 4) / 2,
        k < units_in(detail).len(),
        units_in(detail)[k] == detail[4 + 2 * k] + 256 * detail[5 + 2 * k],
{
}

/// After the standard usages each vendor's collection is asked in its own way: a Sonix one
/// first by EWEADN, unless it is the status page; then the keyboard's dongle for its
/// status, or whether it is there. Nothing follows the last question.
pub proof fn law_questions_follow_each_other(d: HidView, after: Ask)
    requires
        d.battery is None,
        d.access == "R/W"@,
    ensures
        ({
            let next = ask_from(d, turn(after) + 1);
            let vendor = d.usage_page >= 0xFF00;
            let dongle = d.vid == 0x0C45 && d.pid == 0xFEFE && vendor;
            let of_65 = d.input_len == 65 || d.output_len == 65;
            let of_33 = d.input_len == 33 || d.output_len == 33;
            let compx = (d.vid == 0x373B || d.vid == 0x3554 || d.vid == 0x391D) && vendor && (
            d.input_len == 17 || d.output_len == 17 || d.input_len == 20 || d.output_len == 20);
            &&& after == Ask::Standard ==> {
                &&& d.vid == 0x0C45 && d.usage_page != 0xFF59 ==> next == Some(Ask::Eweadn)
                &&& d.vid == 0x046D ==> next == Some(Ask::Hidpp)
                &&& compx ==> next == Some(Ask::Compx)
                &&& dongle && d.usage_page == 0xFF59 && of_65 ==> next == Some(Ask::Sonix)
            }
            &&& after == Ask::Eweadn ==> {
                &&& dongle && of_65 ==> next == Some(Ask::Sonix)
                &&& dongle && !of_65 && of_33 ==> next == Some(Ask::ViaAlive)
                &&& next != Some(Ask::Eweadn)
            }
            &&& after == Ask::Hidpp && d.vid == 0x046D ==> next is None
            &&& after == Ask::Compx || after == Ask::Sonix || after == Ask::ViaAlive
                ==> next is None
        }),
{
}

/// A question that was not answered proves no link: the link of a collection is up after
/// it only if it was so before, or if the cable is there or the receiver was heard less than
/// 90 seconds ago. What went wrong is kept for diagnosis.
pub proof fn law_silence_proves_nothing(d: HidView, m: Memory, ask: Ask, a: Answer, now: u64)
    requires
        a matches Answer::Battery(None) || a matches Answer::Alive(false)
            || a matches Answer::Compx(Err(_)) || a matches Answer::Sonix(Err(_)),
    ensures
        ({
            let r = answered(d, m, ask, a, now);
            let id = links::id_of(d.vid, d.pid);
            let before = links::link_at(m.links, id);
            &&& r.0.link_up && !d.link_up ==> before.wired || (before.last_rf is Some && 0 <= now
                - before.last_rf->0 < 90_000_000_000)
            &&& links::link_at(r.1.links, id).last_rf == before.last_rf
            &&& ask == Ask::Compx && (a matches Answer::Compx(Err(e))) ==> r.0.debug
                == a->Compx_0->Err_0@
            &&& ask == Ask::Sonix && (a matches Answer::Sonix(Err(e))) ==> r.0.debug
                == a->Sonix_0->Err_0@
        }),
{
}

} // verus!
