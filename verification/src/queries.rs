//! The battery queries that vendors' receivers answer: what is sent, and what is
//! made of each reply.

use vstd::prelude::*;

use crate::reports;
use crate::reports::{
    build_compx_cmd, looks_like_via_proto, pad_report, parse_compx_battery, parse_eweadn_battery,
    parse_qmk_battery, parse_sonix_battery, qmk_cmd, usage_percent,
};
use crate::text;
use crate::text::{owned, push_decimal, push_hex, push_text, to_hex};

verus! {

/// A report that was read, or why none was.
pub type Reply = Result<Vec<u8>, String>;

/// How long a write or a transaction may take, in milliseconds.
pub const TRANSACT_MS: u32 = 1000;

/// The larger of two lengths.
fn at_least(n: usize, least: usize) -> (r: usize)
    ensures
        r == more_of(n as int, least as int),
{
    if n < least {
        least
    } else {
        n
    }
}

/// The larger of two numbers.
pub open spec fn more_of(a: int, b: int) -> int {
    if a < b {
        b
    } else {
        a
    }
}

// -------------------------------------------------------------------- Windows

/// The error code of an operation that goes on in the background.
pub const IO_PENDING: u32 = 0x8007_03E5;

pub fn is_io_pending(code: u32) -> (r: bool)
    ensures
        r == (code == IO_PENDING),
{
    code == IO_PENDING
}

/// The text for an operation that failed with a code.
pub fn failure_text(op: &str, code: u32) -> (r: String)
    ensures
        r@ == op@ + " 0x"@ + text::hex(code as nat, 8),
{
    let mut s = String::new();
    push_text(&mut s, op);
    push_text(&mut s, " 0x");
    push_hex(&mut s, code as u64, 8);
    assert(s@ =~= op@ + " 0x"@ + text::hex(code as nat, 8));
    s
}

/// The ways to send a report.
#[derive(Clone, Copy, Debug, PartialEq, Eq, Structural)]
pub enum Channel {
    /// Through the control pipe.
    SetReport,
    /// Through the output pipe.
    Write,
}

/// The ways to send a report, the preferred one first. The second is tried where
/// the first fails.
pub fn send_order(prefer_set_report: bool) -> (r: (Channel, Channel))
    ensures
        r == if prefer_set_report {
            (Channel::SetReport, Channel::Write)
        } else {
            (Channel::Write, Channel::SetReport)
        },
{
    if prefer_set_report {
        (Channel::SetReport, Channel::Write)
    } else {
        (Channel::Write, Channel::SetReport)
    }
}

/// The milliseconds until a deadline, between `least` and `most`; nothing once it has
/// passed.
pub open spec fn time_left(now: u64, deadline: u64, least: u32, most: u32) -> Option<u32> {
    let ms = (deadline - now) / 1_000_000;
    if now >= deadline {
        None
    } else if ms < least {
        Some(least)
    } else if ms > most {
        Some(most)
    } else {
        Some(ms as u32)
    }
}

/// The milliseconds to wait for a report, between `least` and `most`; nothing once
/// the deadline has passed.
pub fn wait_ms(now: u64, deadline: u64, least: u32, most: u32) -> (r: Option<u32>)
    requires
        least <= most,
    ensures
        r == time_left(now, deadline, least, most),
{
    if now >= deadline {
        return None;
    }
    let ms: u64 = (deadline - now) / 1_000_000;
    if ms < least as u64 {
        Some(least)
    } else if ms > most as u64 {
        Some(most)
    } else {
        Some(ms as u32)
    }
}

// ---------------------------------------------------------- standard HID usage

/// Report ids without repetition: `0`, `6`, and those of the collection.
pub open spec fn feature_id_set(caps: Seq<u8>) -> Seq<u8>
    decreases caps.len(),
{
    if caps.len() == 0 {
        seq![0u8, 6u8]
    } else {
        let ids = feature_id_set(caps.drop_last());
        if ids.contains(caps.last()) {
            ids
        } else {
            ids.push(caps.last())
        }
    }
}

/// The feature reports that are asked for a battery: none where the collection has
/// no feature report.
pub fn feature_ids(feature_len: u16, caps: &[u8]) -> (r: Vec<u8>)
    ensures
        r@ == if feature_len == 0 {
            Seq::<u8>::empty()
        } else {
            feature_id_set(caps@)
        },
{
    if feature_len == 0 {
        return Vec::new();
    }
    let mut ids: Vec<u8> = vec![0u8, 6u8];
    assert(ids@ =~= feature_id_set(caps@.take(0)));
    for i in 0..caps.len()
        invariant
            ids@ == feature_id_set(caps@.take(i as int)),
    {
        assert(caps@.take(i + 1).drop_last() =~= caps@.take(i as int));
        let id: u8 = caps[i];
        let mut known = false;
        for j in 0..ids.len()
            invariant
                known == exists|k: int| 0 <= k < j && ids@[k] == id,
        {
            if ids[j] == id {
                known = true;
                assert(ids@[j as int] == id);
            }
        }
        assert(known == ids@.contains(id));
        if !known {
            ids.push(id);
        }
    }
    assert(caps@.take(caps@.len() as int) =~= caps@);
    ids
}

/// The usages that hold a battery, as page and usage, in the order in which they
/// are tried.
pub fn battery_usages() -> (r: Vec<(u16, u16)>)
    ensures
        r@ == seq![
            (0x0006u16, 0x0020u16),
            (0x0084u16, 0x0045u16),
            (0x0084u16, 0x0040u16),
            (0x0084u16, 0x0066u16),
        ],
{
    vec![(0x0006, 0x0020), (0x0084, 0x0045), (0x0084, 0x0040), (0x0084, 0x0066)]
}

/// The first percentage among values that were read, each with its status.
pub open spec fn first_percent(values: Seq<(i32, u32)>) -> Option<u8>
    decreases values.len(),
{
    if values.len() == 0 {
        None
    } else if first_percent(values.drop_last()) is Some {
        first_percent(values.drop_last())
    } else if values.last().0 == reports::HIDP_STATUS_SUCCESS && values.last().1 <= 100 {
        Some(values.last().1 as u8)
    } else {
        None
    }
}

/// Takes in a feature report: the values of `battery_usages` in it, each with its
/// status. The first report that could be read is kept for diagnosis.
pub fn read_standard_battery(
    feature_hex: &mut String,
    report: &[u8],
    values: &[(i32, u32)],
) -> (r: Option<u8>)
    ensures
        final(feature_hex)@ == if old(feature_hex)@.len() == 0 {
            text::hex_dump(report@)
        } else {
            old(feature_hex)@
        },
        r == first_percent(values@),
{
    if feature_hex.as_str().unicode_len() == 0 {
        *feature_hex = to_hex(report);
    }
    let mut found: Option<u8> = None;
    for i in 0..values.len()
        invariant
            found == first_percent(values@.take(i as int)),
    {
        assert(values@.take(i + 1).drop_last() =~= values@.take(i as int));
        if found.is_none() {
            found = usage_percent(values[i].0, values[i].1);
        }
    }
    assert(values@.take(values@.len() as int) =~= values@);
    found
}

/// A query of a collection's feature reports for the standard battery usages: the
/// reports are read one after the other, until one tells a battery.
#[derive(Debug)]
pub struct StandardQuery {
    pub feature_len: u16,
    /// The reports to read.
    pub ids: Vec<u8>,
    /// How many of them were read, or could not be.
    pub asked: usize,
    /// The first report that could be read.
    pub hex: String,
    pub battery: Option<u8>,
}

/// What a `StandardQuery` says.
#[verifier::ext_equal]
pub struct StandardView {
    pub feature_len: u16,
    pub ids: Seq<u8>,
    pub asked: int,
    pub hex: Seq<char>,
    pub battery: Option<u8>,
}

impl View for StandardQuery {
    type V = StandardView;

    open spec fn view(&self) -> StandardView {
        StandardView {
            feature_len: self.feature_len,
            ids: self.ids@,
            asked: self.asked as int,
            hex: self.hex@,
            battery: self.battery,
        }
    }
}

impl StandardView {
    /// Reports are only asked of a collection that has some.
    pub open spec fn is_valid(self) -> bool {
        self.ids.len() > 0 ==> self.feature_len > 0
    }

    /// No report is left to read, or a battery was told.
    pub open spec fn is_over(self) -> bool {
        self.battery is Some || self.asked >= self.ids.len()
    }

    /// The query after a report was read, with the values of `battery_usages` in it, or
    /// after it could not be read.
    pub open spec fn after(self, got: Option<(Seq<u8>, Seq<(i32, u32)>)>) -> StandardView {
        match got {
            None => StandardView { asked: self.asked + 1, ..self },
            Some((report, values)) => StandardView {
                asked: self.asked + 1,
                hex: if self.hex.len() == 0 {
                    text::hex_dump(report)
                } else {
                    self.hex
                },
                battery: first_percent(values),
                ..self
            },
        }
    }
}

impl StandardQuery {
    /// Begins to ask a collection with feature reports of some length.
    pub fn new(feature_len: u16, caps: &[u8]) -> (r: Self)
        ensures
            r@ == (StandardView {
                feature_len,
                ids: if feature_len == 0 {
                    Seq::<u8>::empty()
                } else {
                    feature_id_set(caps@)
                },
                asked: 0,
                hex: Seq::empty(),
                battery: None,
            }),
            r@.is_valid(),
    {
        let hex = String::new();
        assert(hex@ =~= Seq::empty());
        StandardQuery {
            feature_len,
            ids: feature_ids(feature_len, caps),
            asked: 0,
            hex,
            battery: None,
        }
    }

    /// The report to read next, with its id in front; nothing once the query is over.
    pub fn report(&self) -> (r: Option<Vec<u8>>)
        requires
            self@.is_valid(),
        ensures
            match r {
                Some(b) => !self@.is_over() && b@ == opened_by(
                    self.feature_len as int,
                    self.ids@[self.asked as int],
                ),
                None => self@.is_over(),
            },
    {
        if self.battery.is_some() || self.asked >= self.ids.len() {
            return None;
        }
        let mut b: Vec<u8> = vec![0u8; self.feature_len as usize];
        assert(b@ =~= reports::zeros(self.feature_len as nat));
        b[0] = self.ids[self.asked];
        Some(b)
    }

    /// Takes in that report, with the values of `battery_usages` in it, each with its
    /// status.
    pub fn on_report(&mut self, report: &[u8], values: &[(i32, u32)])
        requires
            !old(self)@.is_over(),
        ensures
            final(self)@ == old(self)@.after(Some((report@, values@))),
    {
        let n: usize = self.ids.len();
        assert(self.asked < n);
        self.battery = read_standard_battery(&mut self.hex, report, values);
        self.asked = self.asked + 1;
    }

    /// That report could not be read.
    pub fn on_failure(&mut self)
        requires
            !old(self)@.is_over(),
        ensures
            final(self)@ == old(self)@.after(None),
    {
        let n: usize = self.ids.len();
        assert(self.asked < n);
        self.asked = self.asked + 1;
    }

    /// What the query found: the battery, and the first report that could be read.
    pub fn result(self) -> (r: (Option<u8>, String))
        ensures
            r.0 == self.battery,
            r.1@ == self.hex@,
    {
        (self.battery, self.hex)
    }
}

// ----------------------------------------------------------------------- Compx

/// The report id of the first or second attempt.
pub open spec fn compx_id(attempt: int) -> u8 {
    if attempt == 0 {
        0x08
    } else {
        0x13
    }
}

/// The length of the packets of the first or second attempt.
pub open spec fn compx_packet(attempt: int) -> int {
    if attempt == 0 {
        17
    } else {
        20
    }
}

/// The packets of an attempt fit the collection.
pub open spec fn compx_fits(input_len: u16, output_len: u16, attempt: int) -> bool {
    output_len == 0 || output_len >= compx_packet(attempt) || input_len >= compx_packet(attempt)
}

/// The first attempt from one on whose packets fit; 2 if there is none.
pub open spec fn compx_attempt_from(input_len: u16, output_len: u16, attempt: int) -> int
    decreases 2 - attempt,
{
    if attempt >= 2 {
        2
    } else if compx_fits(input_len, output_len, attempt) {
        attempt
    } else {
        compx_attempt_from(input_len, output_len, attempt + 1)
    }
}

/// A Compx battery query. Each attempt first wakes the receiver, then asks it twice,
/// each time in two ways, until a reply tells the battery.
#[derive(Debug)]
pub struct CompxQuery {
    pub input_len: u16,
    pub output_len: u16,
    /// 0 or 1; 2 when the query is over.
    pub attempt: u8,
    /// 0 when the receiver is to be woken, then 1 to 4.
    pub phase: u8,
    /// The last outcome, for diagnosis.
    pub last: String,
    /// The battery, and the bytes of the report that told it.
    pub found: Option<(u8, String)>,
}

/// What a `CompxQuery` says.
#[verifier::ext_equal]
pub struct CompxView {
    pub input_len: u16,
    pub output_len: u16,
    pub attempt: int,
    pub phase: int,
    pub last: Seq<char>,
    pub found: Option<(u8, Seq<char>)>,
}

impl View for CompxQuery {
    type V = CompxView;

    open spec fn view(&self) -> CompxView {
        CompxView {
            input_len: self.input_len,
            output_len: self.output_len,
            attempt: self.attempt as int,
            phase: self.phase as int,
            last: self.last@,
            found: match self.found {
                Some((pct, hex)) => Some((pct, hex@)),
                None => None,
            },
        }
    }
}

impl CompxView {
    pub open spec fn is_valid(self) -> bool {
        0 <= self.attempt <= 2 && 0 <= self.phase <= 4
    }

    /// The query is over.
    pub open spec fn is_over(self) -> bool {
        self.found is Some || self.attempt == 2
    }
}

/// How the outcome of an exchange begins.
pub open spec fn compx_label(v: CompxView) -> Seq<char> {
    "rid="@ + text::hex(compx_id(v.attempt) as nat, 2) + " try="@ + text::decimal(
        ((v.phase + 1) / 2) as nat,
    )
}

/// The first and third exchange write, then read. The second and fourth read while
/// they write.
pub open spec fn reads_after(phase: int) -> bool {
    phase % 2 == 1
}

/// The outcome of an exchange, for diagnosis. A failure to read while writing is
/// passed over.
pub open spec fn compx_outcome(v: CompxView, reply: Reply) -> Seq<char> {
    match reply {
        Ok(b) => compx_label(v) + (if reads_after(v.phase) {
            " read:"@
        } else {
            " transact:"@
        }) + text::hex_dump(b@),
        Err(e) => if reads_after(v.phase) {
            compx_label(v) + " "@ + e@
        } else {
            v.last
        },
    }
}

/// A query after a reply to an exchange.
pub open spec fn compx_step(v: CompxView, reply: Reply) -> CompxView {
    let seen = CompxView { last: compx_outcome(v, reply), ..v };
    match reply {
        Ok(b) if reports::compx_battery(b@) is Some => CompxView {
            found: Some(((reports::compx_battery(b@)->0).0, text::hex_dump(b@))),
            ..seen
        },
        _ => if v.phase < 4 {
            CompxView { phase: v.phase + 1, ..seen }
        } else {
            CompxView {
                attempt: compx_attempt_from(v.input_len, v.output_len, v.attempt + 1),
                phase: 0,
                ..seen
            }
        },
    }
}

/// What a Compx query asks for.
#[derive(Clone, Copy, Debug, PartialEq, Eq, Structural)]
pub enum CompxAsk {
    /// Send the command, and give the receiver 200 ms.
    Wake,
    /// Send the command, then read.
    WriteRead,
    /// Read while the command is sent.
    Transact,
    Over,
}

impl CompxQuery {
    /// Begins a query of a collection with reports of some lengths.
    pub fn new(input_len: u16, output_len: u16) -> (r: Self)
        ensures
            r@ == (CompxView {
                input_len,
                output_len,
                attempt: compx_attempt_from(input_len, output_len, 0),
                phase: 0,
                last: "no matching report size"@,
                found: None,
            }),
            r@.is_valid(),
    {
        proof {
            reveal_with_fuel(compx_attempt_from, 3);
        }
        let attempt: u8 = if output_len == 0 || output_len >= 17 || input_len >= 17 {
            0
        } else if output_len >= 20 || input_len >= 20 {
            1
        } else {
            2
        };
        CompxQuery {
            input_len,
            output_len,
            attempt,
            phase: 0,
            last: owned("no matching report size"),
            found: None,
        }
    }

    /// What is to be done next.
    pub fn ask(&self) -> (r: CompxAsk)
        ensures
            r == if self@.is_over() {
                CompxAsk::Over
            } else if self.phase == 0 {
                CompxAsk::Wake
            } else if reads_after(self.phase as int) {
                CompxAsk::WriteRead
            } else {
                CompxAsk::Transact
            },
    {
        if self.found.is_some() || self.attempt == 2 {
            CompxAsk::Over
        } else if self.phase == 0 {
            CompxAsk::Wake
        } else if self.phase % 2 == 1 {
            CompxAsk::WriteRead
        } else {
            CompxAsk::Transact
        }
    }

    /// The command to send, and how many bytes to read.
    pub fn command(&self) -> (r: (Vec<u8>, usize))
        ensures
            r.0@ == reports::padded(
                reports::compx_request(
                    compx_id(self.attempt as int),
                    compx_packet(self.attempt as int) as nat,
                ),
                more_of(self.output_len as int, compx_packet(self.attempt as int)) as nat,
            ),
            r.1 == more_of(self.input_len as int, compx_packet(self.attempt as int)),
    {
        let (id, packet): (u8, usize) = if self.attempt == 0 {
            (0x08, 17)
        } else {
            (0x13, 20)
        };
        let cmd = pad_report(
            build_compx_cmd(id, packet),
            at_least(self.output_len as usize, packet),
        );
        (cmd, at_least(self.input_len as usize, packet))
    }

    /// The receiver was woken.
    pub fn on_woken(&mut self)
        requires
            old(self)@.is_valid(),
            !old(self)@.is_over(),
            old(self)@.phase == 0,
        ensures
            final(self)@ == (CompxView { phase: 1, ..old(self)@ }),
            final(self)@.is_valid(),
    {
        self.phase = 1;
        assert(self@ =~= CompxView { phase: 1, ..old(self)@ });
    }

    /// Takes in the reply to an exchange.
    pub fn on_reply(&mut self, reply: &Reply)
        requires
            old(self)@.is_valid(),
            !old(self)@.is_over(),
            old(self)@.phase > 0,
        ensures
            final(self)@ == compx_step(old(self)@, *reply),
            final(self)@.is_valid(),
    {
        let ghost v = self@;
        proof {
            reveal_with_fuel(compx_attempt_from, 3);
        }
        let mut s = owned("rid=");
        push_hex(
            &mut s,
            if self.attempt == 0 {
                0x08
            } else {
                0x13
            },
            2,
        );
        push_text(&mut s, " try=");
        push_decimal(&mut s, (self.phase as u64 + 1) / 2);
        assert(s@ =~= compx_label(v));
        match reply {
            Ok(b) => {
                if self.phase % 2 == 1 {
                    push_text(&mut s, " read:");
                } else {
                    push_text(&mut s, " transact:");
                }
                let hex = to_hex(b);
                push_text(&mut s, hex.as_str());
                assert(s@ =~= compx_outcome(v, *reply));
                self.last = s;
                if let Some((pct, _)) = parse_compx_battery(b) {
                    self.found = Some((pct, hex));
                    assert(self@ =~= compx_step(v, *reply));
                    return;
                }
            },
            Err(e) => {
                if self.phase % 2 == 1 {
                    push_text(&mut s, " ");
                    push_text(&mut s, e.as_str());
                    self.last = s;
                }
                assert(self.last@ =~= compx_outcome(v, *reply));
            },
        }
        if self.phase < 4 {
            self.phase = self.phase + 1;
        } else {
            self.phase = 0;
            self.attempt = if self.attempt == 0 && (self.output_len == 0 || self.output_len >= 20
                || self.input_len >= 20) {
                1
            } else {
                2
            };
        }
        assert(self@ =~= compx_step(v, *reply));
    }

    /// What came of a query that is over: the battery and the bytes of the report
    /// that told it, or the last outcome.
    pub fn result(self) -> (r: Result<(u8, String), String>)
        ensures
            match self@.found {
                Some((pct, hex)) => r matches Ok(f) && f.0 == pct && f.1@ == hex,
                None => r matches Err(e) && e@ == self@.last,
            },
    {
        match self.found {
            Some(f) => Ok(f),
            None => Err(self.last),
        }
    }
}

/// How many steps a Compx query can still take.
pub open spec fn compx_steps_left(v: CompxView) -> int {
    if v.is_over() {
        0
    } else {
        (2 - v.attempt) * 5 - v.phase
    }
}

/// A Compx query ends after ten steps at most: each brings it nearer to its end.
pub proof fn law_compx_query_ends(v: CompxView, reply: Reply)
    requires
        v.is_valid(),
        !v.is_over(),
    ensures
        0 < compx_steps_left(v) <= 10,
        v.phase == 0 ==> compx_steps_left(CompxView { phase: 1, ..v }) < compx_steps_left(v),
        v.phase > 0 ==> compx_steps_left(compx_step(v, reply)) < compx_steps_left(v),
        v.phase > 0 ==> compx_step(v, reply).is_valid(),
{
    reveal_with_fuel(compx_attempt_from, 3);
}

/// A Compx query stops at the first reply that tells the battery, and at no other.
pub proof fn law_compx_query_stops_at_battery(v: CompxView, reply: Reply)
    requires
        v.is_valid(),
        !v.is_over(),
        v.phase > 0,
    ensures
        compx_step(v, reply).found is Some <==> (reply matches Ok(b) && reports::compx_battery(
            b@,
        ) is Some),
{
}

// ----------------------------------------------------------------------- Sonix

/// What came of a status request: the battery, the bytes of the report, and
/// whether the radio was heard.
pub fn sonix_status(reply: &Reply) -> (r: Result<(u8, String, bool), String>)
    ensures
        match reply {
            Ok(b) => match reports::sonix_battery(b@) {
                Some(pct) => r matches Ok(f) && f.0 == pct && f.1@ == text::hex_dump(b@) && f.2,
                None => r matches Err(e) && e@ == "unparsed "@ + text::hex_dump(b@),
            },
            Err(_) => r matches Err(e) && e@ == "no sonix status (keyboard off?)"@,
        },
{
    match reply {
        Ok(b) => {
            let hex = to_hex(b);
            if let Some(pct) = parse_sonix_battery(b) {
                return Ok((pct, hex, true));
            }
            let mut e = owned("unparsed ");
            push_text(&mut e, hex.as_str());
            Err(e)
        },
        Err(_) => Err(owned("no sonix status (keyboard off?)")),
    }
}

/// How many bytes of a status are read.
pub fn sonix_read_len(input_len: u16) -> (r: usize)
    ensures
        r == more_of(input_len as int, 5),
{
    at_least(input_len as usize, 5)
}

/// What came of waiting for a status that the dongle pushes by itself.
pub fn sonix_packet(reply: &Reply) -> (r: Option<(u8, String)>)
    ensures
        match reply {
            Ok(b) => match reports::sonix_battery(b@) {
                Some(pct) => r matches Some(f) && f.0 == pct && f.1@ == text::hex_dump(b@),
                None => r is None,
            },
            Err(_) => r is None,
        },
{
    match reply {
        Ok(b) => match parse_sonix_battery(b) {
            Some(pct) => Some((pct, to_hex(b))),
            None => None,
        },
        Err(_) => None,
    }
}

// ------------------------------------------------------------------------- VIA

/// The VIA protocol request, and how many bytes to read.
pub fn via_ping(input_len: u16, output_len: u16) -> (r: (Vec<u8>, usize))
    ensures
        r.0@ == reports::qmk_request(more_of(output_len as int, 33) as nat, 0x01, Seq::empty()),
        r.1 == more_of(input_len as int, 2),
{
    let none: [u8; 0] = [];
    assert(none@ =~= Seq::empty());
    (qmk_cmd(at_least(output_len as usize, 33), 0x01, &none), at_least(input_len as usize, 2))
}

/// Whether a reply to the VIA protocol request shows a keyboard.
pub fn via_alive(reply: &Reply) -> (r: bool)
    ensures
        r == (reply matches Ok(b) && reports::is_via_proto(b@)),
{
    match reply {
        Ok(b) => looks_like_via_proto(b),
        Err(_) => false,
    }
}

/// A report of `n` bytes that begins with one.
pub open spec fn opened_by(n: int, first: u8) -> Seq<u8> {
    reports::zeros(n as nat).update(0, first)
}

/// The battery commands of VIA keyboards in the order in which they are tried, and
/// how many bytes to read.
pub fn via_battery_cmds(input_len: u16, output_len: u16) -> (r: (Vec<u8>, Vec<u8>, usize))
    ensures
        r.0@ == reports::qmk_request(more_of(output_len as int, 2) as nat, 0xA4, Seq::empty()),
        r.1@ == opened_by(more_of(output_len as int, 2), 0xA4),
        r.2 == more_of(input_len as int, 2),
{
    let n: usize = at_least(output_len as usize, 2);
    let none: [u8; 0] = [];
    assert(none@ =~= Seq::empty());
    let mut p: Vec<u8> = vec![0u8; n];
    assert(p@ =~= reports::zeros(n as nat));
    p[0] = 0xA4;
    (qmk_cmd(n, 0xA4, &none), p, at_least(input_len as usize, 2))
}

/// The battery in a reply to a VIA battery command: in the form of QMK keyboards,
/// or in that of a status.
pub fn via_battery(reply: &Reply) -> (r: Option<u8>)
    ensures
        r == via_reply(*reply),
{
    match reply {
        Ok(b) => match parse_qmk_battery(b) {
            Some(pct) => Some(pct),
            None => parse_sonix_battery(b),
        },
        Err(_) => None,
    }
}

/// A battery query of a VIA keyboard: the second command is sent where the reply to the
/// first told nothing.
#[derive(Clone, Copy, Debug, PartialEq, Eq, Structural)]
pub struct ViaQuery {
    pub input_len: u16,
    pub output_len: u16,
    /// How many commands were sent.
    pub sent: u8,
    pub battery: Option<u8>,
}

/// The battery in a reply to a VIA battery command.
pub open spec fn via_reply(reply: Reply) -> Option<u8> {
    match reply {
        Ok(b) => if reports::qmk_battery(b@) is Some {
            reports::qmk_battery(b@)
        } else {
            reports::sonix_battery(b@)
        },
        Err(_) => None,
    }
}

impl ViaQuery {
    /// Both commands were sent, or a battery was told.
    pub open spec fn is_over(self) -> bool {
        self.battery is Some || self.sent >= 2
    }

    pub fn new(input_len: u16, output_len: u16) -> (r: Self)
        ensures
            r == (ViaQuery { input_len, output_len, sent: 0, battery: None }),
    {
        ViaQuery { input_len, output_len, sent: 0, battery: None }
    }

    /// The command to send next, and how many bytes to read; nothing once the query is
    /// over.
    pub fn command(&self) -> (r: Option<(Vec<u8>, usize)>)
        ensures
            match r {
                Some(q) => {
                    &&& !self.is_over()
                    &&& q.0@ == if self.sent == 0 {
                        reports::qmk_request(
                            more_of(self.output_len as int, 2) as nat,
                            0xA4,
                            Seq::empty(),
                        )
                    } else {
                        opened_by(more_of(self.output_len as int, 2), 0xA4)
                    }
                    &&& q.1 == more_of(self.input_len as int, 2)
                },
                None => self.is_over(),
            },
    {
        if self.battery.is_some() || self.sent >= 2 {
            return None;
        }
        let (first, second, len) = via_battery_cmds(self.input_len, self.output_len);
        if self.sent == 0 {
            Some((first, len))
        } else {
            Some((second, len))
        }
    }

    /// Takes in the reply to that command.
    pub fn on_reply(&mut self, reply: &Reply)
        requires
            !old(self).is_over(),
        ensures
            *final(self) == (ViaQuery {
                sent: (old(self).sent + 1) as u8,
                battery: via_reply(*reply),
                ..*old(self)
            }),
    {
        self.sent = self.sent + 1;
        self.battery = via_battery(reply);
    }
}

// ---------------------------------------------------------------------- EWEADN

/// How long the reply to an EWEADN query is waited for, in nanoseconds.
pub const EWEADN_WAIT: u64 = 1_500_000_000;

/// The EWEADN battery command, and how many bytes to read; nothing where the
/// collection's reports are too short.
pub fn eweadn_request(input_len: u16, output_len: u16) -> (r: Option<(Vec<u8>, usize)>)
    ensures
        if output_len < 4 || input_len < 6 {
            r is None
        } else {
            r matches Some(q) && q.0@ == reports::qmk_request(
                output_len as nat,
                0x20,
                seq![0x01u8, 0x00u8],
            ) && q.1 == input_len
        },
{
    if output_len < 4 || input_len < 6 {
        return None;
    }
    let extra: [u8; 2] = [0x01, 0x00];
    assert(extra@ =~= seq![0x01u8, 0x00u8]);
    Some((qmk_cmd(output_len as usize, 0x20, &extra), input_len as usize))
}

/// What follows from a reply to an EWEADN query.
#[derive(Clone, Copy, Debug, PartialEq, Eq, Structural)]
pub enum EweadnNext {
    Found(u8),
    /// Another report; the reply may still come.
    ReadOn,
    GiveUp,
}

pub fn eweadn_reply(reply: &Reply) -> (r: EweadnNext)
    ensures
        r == match reply {
            Ok(b) => match reports::eweadn_battery(b@) {
                Some(pct) => EweadnNext::Found(pct),
                None => EweadnNext::ReadOn,
            },
            Err(_) => EweadnNext::GiveUp,
        },
{
    match reply {
        Ok(b) => match parse_eweadn_battery(b) {
            Some(pct) => EweadnNext::Found(pct),
            None => EweadnNext::ReadOn,
        },
        Err(_) => EweadnNext::GiveUp,
    }
}

/// The feature reports that are asked differ from each other, and hold `0`, `6` and
/// all of the collection.
pub proof fn law_feature_ids_are_distinct(caps: Seq<u8>)
    ensures
        feature_id_set(caps).no_duplicates(),
        feature_id_set(caps).contains(0u8),
        feature_id_set(caps).contains(6u8),
        forall|i: int| 0 <= i < caps.len() ==> feature_id_set(caps).contains(#[trigger] caps[i]),
    decreases caps.len(),
{
    let ids = feature_id_set(caps);
    if caps.len() == 0 {
        assert(ids[0] == 0 && ids[1] == 6);
    } else {
        let t = caps.drop_last();
        let before = feature_id_set(t);
        law_feature_ids_are_distinct(t);
        assert forall|x: u8| before.contains(x) implies ids.contains(x) by {
            let k = choose|k: int| 0 <= k < before.len() && before[k] == x;
            assert(ids[k] == x);
        }
        if !before.contains(caps.last()) {
            assert(ids[ids.len() - 1] == caps.last());
        }
        assert forall|i: int| 0 <= i < caps.len() implies ids.contains(#[trigger] caps[i]) by {
            if i < t.len() {
                assert(t[i] == caps[i]);
            }
        }
    }
}

/// A query of the standard usages reads each report once at most, and stops at the first
/// that tells a battery; what it tells is a percentage.
pub proof fn law_standard_query_ends(v: StandardView, got: Option<(Seq<u8>, Seq<(i32, u32)>)>)
    requires
        !v.is_over(),
    ensures
        v.after(got).ids.len() - v.after(got).asked < v.ids.len() - v.asked,
        v.after(got).battery is Some ==> v.after(got).is_over() && v.after(got).battery->0 <= 100,
        v.after(got).battery is Some <==> (got matches Some((_, values)) && first_percent(values)
            is Some),
{
    if let Some((_, values)) = got {
        lemma_first_percent(values);
    }
}

proof fn lemma_first_percent(values: Seq<(i32, u32)>)
    ensures
        first_percent(values) matches Some(p) ==> p <= 100,
    decreases values.len(),
{
    if values.len() > 0 {
        lemma_first_percent(values.drop_last());
    }
}

/// The battery among values that were read is the first that was read with success and is
/// a percentage.
pub proof fn law_first_percentage_counts(values: Seq<(i32, u32)>)
    ensures
        match first_percent(values) {
            Some(p) => exists|i: int|
                0 <= i < values.len() && (#[trigger] values[i]).0 == 0x0011_0000 && values[i].1 == p
                    && p <= 100 && forall|j: int|
                    0 <= j < i ==> !((#[trigger] values[j]).0 == 0x0011_0000 && values[j].1 <= 100),
            None => forall|j: int|
                0 <= j < values.len() ==> !((#[trigger] values[j]).0 == 0x0011_0000 && values[j].1
                    <= 100),
        },
    decreases values.len(),
{
    if values.len() > 0 {
        let t = values.drop_last();
        law_first_percentage_counts(t);
        match first_percent(t) {
            Some(p) => {
                let i = choose|i: int|
                    0 <= i < t.len() && (#[trigger] t[i]).0 == 0x0011_0000 && t[i].1 == p && p
                        <= 100 && forall|j: int|
                        0 <= j < i ==> !((#[trigger] t[j]).0 == 0x0011_0000 && t[j].1 <= 100);
                assert(values[i] == t[i]);
                assert forall|j: int| 0 <= j < i implies !((#[trigger] values[j]).0 == 0x0011_0000
                    && values[j].1 <= 100) by {
                    assert(values[j] == t[j]);
                }
            },
            None => {
                assert forall|j: int| 0 <= j < t.len() implies !((#[trigger] values[j]).0
                    == 0x0011_0000 && values[j].1 <= 100) by {
                    assert(values[j] == t[j]);
                }
                assert(values[values.len() - 1] == values.last());
            },
        }
    }
}

/// A query of the standard usages goes on after a report without a battery, keeps the
/// first report that could be read, and tells the battery of the first that has one.
pub proof fn law_standard_query_keeps_first_report(
    v: StandardView,
    report: Seq<u8>,
    values: Seq<(i32, u32)>,
)
    requires
        !v.is_over(),
    ensures
        ({
            let n = v.after(Some((report, values)));
            &&& n.asked == v.asked + 1 && n.ids == v.ids
            &&& v.hex.len() == 0 ==> n.hex == text::hex_dump(report)
            &&& v.hex.len() > 0 ==> n.hex == v.hex
            &&& n.battery == first_percent(values)
            &&& n.battery is None && n.asked < n.ids.len() ==> !n.is_over()
        }),
        v.after(None).asked == v.asked + 1 && v.after(None).hex == v.hex && v.after(
            None,
        ).battery is None,
{
}

/// What a Compx query finds is what the reply says, with the bytes that said it.
pub proof fn law_compx_query_finds_what_reply_says(v: CompxView, reply: Reply)
    requires
        v.is_valid(),
        !v.is_over(),
        v.phase > 0,
    ensures
        reply matches Ok(b) && reports::compx_battery(b@) is Some ==> {
            &&& compx_step(v, reply).found is Some
            &&& (compx_step(v, reply).found->0).0 == (reports::compx_battery((reply->Ok_0)@)->0).0
            &&& (compx_step(v, reply).found->0).1 == text::hex_dump((reply->Ok_0)@)
        },
{
}

/// A Compx query tries the packets of 17 bytes first and those of 20 bytes next, each if
/// the collection has room for them, with four exchanges each; it gives up only then.
pub proof fn law_compx_query_tries_all(v: CompxView, reply: Reply)
    requires
        v.is_valid(),
        !v.is_over(),
        v.phase > 0,
        compx_step(v, reply).found is None,
    ensures
        ({
            let room17 = v.output_len == 0 || v.output_len >= 17 || v.input_len >= 17;
            let room20 = v.output_len == 0 || v.output_len >= 20 || v.input_len >= 20;
            let n = compx_step(v, reply);
            let start = compx_attempt_from(v.input_len, v.output_len, 0);
            &&& room17 ==> start == 0
            &&& !room17 && !room20 ==> start == 2
            &&& v.phase < 4 ==> n.attempt == v.attempt && n.phase == v.phase + 1
            &&& v.phase == 4 && v.attempt == 0 && room20 ==> n.attempt == 1 && n.phase == 0
            &&& v.phase == 4 && (v.attempt == 1 || !room20) ==> n.is_over()
        }),
        compx_id(0) == 0x08 && compx_id(1) == 0x13,
        compx_packet(0) == 17 && compx_packet(1) == 20,
{
    reveal_with_fuel(compx_attempt_from, 3);
}

/// A wait lasts until the deadline, but for no less than `least` and no more than `most`
/// milliseconds; once the deadline has passed there is none.
pub proof fn law_waits_end_at_deadline(now: u64, deadline: u64, least: u32, most: u32)
    requires
        least <= most,
    ensures
        time_left(now, deadline, least, most) is None <==> now >= deadline,
        time_left(now, deadline, least, most) matches Some(ms) ==> {
            &&& least <= ms <= most
            &&& least < ms ==> now + ms * 1_000_000 <= deadline
            &&& ms < most ==> deadline < now + (ms + 1) * 1_000_000
        },
{
    if now < deadline {
        let d = deadline - now;
        assert(d / 1_000_000 * 1_000_000 <= d < (d / 1_000_000 + 1) * 1_000_000) by (nonlinear_arith)
            requires
                d >= 0,
        ;
    }
}

/// A reply to a VIA battery command is read in the form of QMK keyboards first, and in
/// that of a status where that says nothing.
pub proof fn law_via_reply_is_read_both_ways(reply: Reply)
    ensures
        reply matches Ok(b) ==> {
            &&& reports::qmk_battery(b@) is Some ==> via_reply(reply) == reports::qmk_battery(b@)
            &&& reports::qmk_battery(b@) is None ==> via_reply(reply) == reports::sonix_battery(b@)
        },
        reply is Err ==> via_reply(reply) is None,
{
}

/// A report that asks for another begins with its number and holds nothing else.
pub proof fn law_asking_report_is_empty(n: int, first: u8, i: int)
    requires
        0 <= i < n,
    ensures
        opened_by(n, first).len() == n,
        opened_by(n, first)[0] == first,
        i > 0 ==> opened_by(n, first)[i] == 0,
{
}

/// Exchanges take turns: the first and third read after they wrote, the second and fourth
/// while they write. What is told of one says with which report id and at which try.
pub proof fn law_exchanges_take_turns(v: CompxView)
    ensures
        reads_after(1) && !reads_after(2) && reads_after(3) && !reads_after(4),
        text::starts_with(
            compx_label(v),
            "rid="@ + text::hex(
                (if v.attempt == 0 {
                    0x08nat
                } else {
                    0x13nat
                }),
                2,
            ),
        ),
        v.phase == 1 || v.phase == 2 ==> text::contains(compx_label(v), " try="@ + text::decimal(1)),
        v.phase == 3 || v.phase == 4 ==> text::contains(compx_label(v), " try="@ + text::decimal(2)),
{
    let id = "rid="@ + text::hex(compx_id(v.attempt) as nat, 2);
    let t = " try="@ + text::decimal(((v.phase + 1) / 2) as nat);
    let s = compx_label(v);
    assert(s =~= id + t);
    text::lemma_between(Seq::empty(), id, t);
    assert(s =~= id + t + Seq::empty());
    text::lemma_between(id, t, Seq::empty());
    assert((1 + 1) / 2 == 1int && (2 + 1) / 2 == 1int && (3 + 1) / 2 == 2int && (4 + 1) / 2 == 2int);
}

/// A VIA keyboard is sent two commands at most, and none once a battery was told; a
/// collection is asked for each of its reports, and for none after that or once one of
/// them told a battery.
pub proof fn law_queries_end(q: ViaQuery, s: StandardView)
    ensures
        q.battery is None && q.sent < 2 ==> !q.is_over(),
        q.battery is Some || q.sent >= 2 ==> q.is_over(),
        s.battery is None && s.asked < s.ids.len() ==> !s.is_over(),
        s.battery is Some || s.asked >= s.ids.len() ==> s.is_over(),
{
}

/// A Compx receiver is asked until it told a battery or both ways failed.
pub proof fn law_compx_query_has_two_ways(v: CompxView)
    requires
        v.is_valid(),
    ensures
        v.is_over() <==> v.found is Some || v.attempt >= 2,
{
}

} // verus!
