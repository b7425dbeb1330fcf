//! Logitech HID++ battery queries over vendor HID collections.
//!
//! HID++ 2.0 frames ride in short (0x10, 7-byte) or long (0x11, 20-byte)
//! reports: `[report_id, device_index, feature_index, function << 4, params...]`.
//! The Root feature (index 0x00, function 0) maps well-known battery features to
//! the index that the device gave them; then the status is read:
//!
//! - 0x1002 Unified Battery, function 1: byte 0 is the charge in percent
//! - 0x1000 Battery Status, function 1: byte 0 is the level
//! - 0x1001 Battery Level Status, function 0: byte 0 is the level
//!
//! A device behind a receiver answers on index 1, one on USB on 0xFF: 0xFF is
//! asked first. A device that never answers is left alone for a while.

use std::collections::HashMap;

use vstd::prelude::*;

use crate::links;
use crate::links::{HidState, note_live_battery, time_since};

verus! {

/// How long a device that did not answer is left alone.
pub const DEAD_TTL: u64 = 600_000_000_000;

/// How long one read waits for a reply, in milliseconds.
pub const RESP_TIMEOUT_MS: u32 = 350;

/// How long all reads for one request may take together.
pub const RESP_DEADLINE: u64 = 700_000_000;

/// How many reports are read for one request.
pub const RESP_MAX_READS: u32 = 3;

// ------------------------------------------------------------------- frames

/// A HID++ request.
pub open spec fn request_frame(short: bool, dev: u8, feat: u8, func: u8, params: Seq<u8>) -> Seq<
    u8,
> {
    Seq::new(
        if short {
            7
        } else {
            20
        },
        |i: int|
            if i == 0 {
                if short {
                    0x10u8
                } else {
                    0x11u8
                }
            } else if i == 1 {
                dev
            } else if i == 2 {
                feat
            } else if i == 3 {
                ((func % 16) * 16) as u8
            } else if i - 4 < params.len() {
                params[i - 4]
            } else {
                0u8
            },
    )
}

/// Builds one HID++ request. Its length is that of the short or long report, so
/// that it is a complete output report; parameters without room are left out.
pub fn build_req(short: bool, dev: u8, feat: u8, func: u8, params: &[u8]) -> (r: Vec<u8>)
    ensures
        r@ == request_frame(short, dev, feat, func, params@),
{
    let total: usize = if short {
        7
    } else {
        20
    };
    let mut v: Vec<u8> = vec![0u8; total];
    v[0] = if short {
        0x10
    } else {
        0x11
    };
    v[1] = dev;
    v[2] = feat;
    v[3] = (func % 16) * 16;
    let ghost want = request_frame(short, dev, feat, func, params@);
    let mut i: usize = 0;
    while i < params.len() && i < total - 4
        invariant
            total == want.len(),
            want == request_frame(short, dev, feat, func, params@),
            i <= params@.len(),
            i <= total - 4,
            v@.len() == total,
            forall|k: int| 0 <= k < 4 + i ==> v@[k] == want[k],
            forall|k: int| 4 + i <= k < total ==> v@[k] == 0,
        decreases params@.len() - i,
    {
        v[4 + i] = params[i];
        i = i + 1;
    }
    assert(v@ =~= want);
    v
}

/// A report is the reply to a request.
pub open spec fn is_reply(buf: Seq<u8>, dev: u8, feat: u8, func: u8) -> bool {
    buf.len() >= 5 && (buf[0] == 0x10 || buf[0] == 0x11) && buf[1] == dev && buf[2] == feat
        && buf[3] / 16 == func
}

/// The payload (bytes 4 on) of the report that replies to a request.
pub fn parse_resp<'a>(buf: &'a [u8], dev: u8, feat: u8, func: u8) -> (r: Option<&'a [u8]>)
    ensures
        match r {
            Some(p) => is_reply(buf@, dev, feat, func) && p@ == buf@.skip(4),
            None => !is_reply(buf@, dev, feat, func),
        },
{
    if buf.len() < 5 {
        return None;
    }
    let rid: u8 = buf[0];
    if rid != 0x10 && rid != 0x11 {
        return None;
    }
    if buf[1] != dev || buf[2] != feat || buf[3] / 16 != func {
        return None;
    }
    let payload: &'a [u8] = vstd::slice::slice_subrange(buf, 4, buf.len());
    assert(payload@ =~= buf@.skip(4));
    Some(payload)
}

/// Whether a collection with output reports of `out_len` bytes takes short
/// frames; `None` where it takes none. A frame must be as long as the report:
/// receivers take 7 bytes, devices of 20 bytes and more take long frames.
pub fn frame_is_short(out_len: u16) -> (r: Option<bool>)
    ensures
        r == if out_len < 7 {
            None
        } else {
            Some(out_len < 20)
        },
{
    if out_len < 7 {
        None
    } else {
        Some(out_len < 20)
    }
}

/// How many bytes to read for a reply.
pub fn reply_len(input_len: u16) -> (r: usize)
    ensures
        r == if input_len < 8 {
            8
        } else {
            input_len as int
        },
{
    if input_len < 8 {
        8
    } else {
        input_len as usize
    }
}

// ------------------------------------------------------------- one exchange

/// A request on its way.
pub struct Exchange {
    pub dev: u8,
    pub feat: u8,
    pub func: u8,
    pub started: u64,
    /// How many reports were read so far.
    pub reads: u32,
}

impl Exchange {
    pub fn new(dev: u8, feat: u8, func: u8, now: u64) -> (r: Self)
        ensures
            r == (Exchange { dev, feat, func, started: now, reads: 0 }),
    {
        Exchange { dev, feat, func, started: now, reads: 0 }
    }

    /// Whether another report is worth reading.
    pub fn wants_read(&self, now: u64) -> (r: bool)
        ensures
            r == (self.reads < RESP_MAX_READS && links::elapsed(self.started, now)
                < RESP_DEADLINE),
    {
        self.reads < RESP_MAX_READS && time_since(self.started, now) < RESP_DEADLINE
    }

    /// Takes in a report: the payload if it is the reply. Anything else, such as
    /// a media key, is passed over.
    pub fn on_read(&mut self, buf: &[u8]) -> (r: Option<Vec<u8>>)
        requires
            old(self).reads < RESP_MAX_READS,
        ensures
            *final(self) == (Exchange { reads: (old(self).reads + 1) as u32, ..*old(self) }),
            match r {
                Some(p) => is_reply(buf@, old(self).dev, old(self).feat, old(self).func) && p@
                    == buf@.skip(4),
                None => !is_reply(buf@, old(self).dev, old(self).feat, old(self).func),
            },
    {
        self.reads = self.reads + 1;
        match parse_resp(buf, self.dev, self.feat, self.func) {
            Some(p) => Some(vstd::slice::slice_to_vec(p)),
            None => None,
        }
    }
}

// --------------------------------------------------------------- the query

/// How far a battery query got. `dev` counts the device indexes 0xFF and 0x01,
/// `feat` the battery features.
#[derive(Clone, Copy, Debug)]
pub enum Stage {
    /// Asking for the index that a device gave a feature.
    Feature { dev: u8, feat: u8 },
    /// Reading the status behind that index.
    Status { dev: u8, feat: u8, index: u8 },
    /// The battery, or that none answered.
    Done { battery: Option<u8> },
}

/// A request: device index, feature index, function and parameters.
pub struct Request {
    pub dev: u8,
    pub feat: u8,
    pub func: u8,
    pub params: Vec<u8>,
}

/// The device index with number `dev`.
pub open spec fn device_index(dev: u8) -> u8 {
    if dev == 0 {
        0xFF
    } else {
        0x01
    }
}

/// The low byte of the id of feature `feat`; the high byte is 0x10.
pub open spec fn feature_low(feat: u8) -> u8 {
    if feat == 0 {
        0x02
    } else if feat == 1 {
        0x00
    } else {
        0x01
    }
}

/// The function of feature `feat` that reads the status.
pub open spec fn status_func(feat: u8) -> u8 {
    if feat == 2 {
        0x00
    } else {
        0x01
    }
}

/// The stage after feature `feat` of device `dev` gave no battery.
pub open spec fn next_feature(dev: u8, feat: u8) -> Stage {
    if feat < 2 {
        Stage::Feature { dev, feat: (feat + 1) as u8 }
    } else if dev < 1 {
        Stage::Feature { dev: (dev + 1) as u8, feat: 0 }
    } else {
        Stage::Done { battery: None }
    }
}

/// The stage after a reply; `None` stands for no reply.
pub open spec fn next_stage(s: Stage, reply: Option<Seq<u8>>) -> Stage {
    let first = match reply {
        Some(p) => if p.len() > 0 {
            Some(p[0])
        } else {
            None
        },
        None => None,
    };
    match (s, first) {
        (Stage::Feature { dev, feat }, Some(b)) => if b != 0 {
            Stage::Status { dev, feat, index: b }
        } else {
            next_feature(dev, feat)
        },
        (Stage::Status { dev, feat, index }, Some(b)) => if b <= 100 {
            Stage::Done { battery: Some(b) }
        } else {
            next_feature(dev, feat)
        },
        (Stage::Feature { dev, feat }, None) => next_feature(dev, feat),
        (Stage::Status { dev, feat, index }, None) => next_feature(dev, feat),
        (Stage::Done { battery }, _) => s,
    }
}

/// The first stage: Unified Battery on USB, which tells an explicit percentage.
pub fn first_stage() -> (r: Stage)
    ensures
        r == (Stage::Feature { dev: 0, feat: 0 }),
{
    Stage::Feature { dev: 0, feat: 0 }
}

fn advance(dev: u8, feat: u8) -> (r: Stage)
    ensures
        r == next_feature(dev, feat),
{
    if feat < 2 {
        Stage::Feature { dev, feat: feat + 1 }
    } else if dev < 1 {
        Stage::Feature { dev: dev + 1, feat: 0 }
    } else {
        Stage::Done { battery: None }
    }
}

/// The request of a stage; `None` when the query is over.
pub fn stage_request(s: Stage) -> (r: Option<Request>)
    ensures
        match (s, r) {
            (Stage::Feature { dev, feat }, Some(q)) => q.dev == device_index(dev) && q.feat == 0
                && q.func == 0 && q.params@ == seq![0x10u8, feature_low(feat)],
            (Stage::Status { dev, feat, index }, Some(q)) => q.dev == device_index(dev) && q.feat
                == index && q.func == status_func(feat) && q.params@ == Seq::<u8>::empty(),
            (Stage::Done { battery }, None) => true,
            _ => false,
        },
{
    match s {
        Stage::Feature { dev, feat } => {
            let low: u8 = if feat == 0 {
                0x02
            } else if feat == 1 {
                0x00
            } else {
                0x01
            };
            let params: Vec<u8> = vec![0x10, low];
            assert(params@ =~= seq![0x10u8, feature_low(feat)]);
            Some(
                Request {
                    dev: if dev == 0 {
                        0xFF
                    } else {
                        0x01
                    },
                    feat: 0,
                    func: 0,
                    params,
                },
            )
        },
        Stage::Status { dev, feat, index } => Some(
            Request {
                dev: if dev == 0 {
                    0xFF
                } else {
                    0x01
                },
                feat: index,
                func: if feat == 2 {
                    0x00
                } else {
                    0x01
                },
                params: Vec::new(),
            },
        ),
        Stage::Done { battery } => None,
    }
}

/// A payload, or that none came, as a sequence of bytes.
pub open spec fn payload(reply: Option<Vec<u8>>) -> Option<Seq<u8>> {
    match reply {
        Some(p) => Some(p@),
        None => None,
    }
}

/// Takes in the payload of the reply, or that none came.
pub fn on_reply(s: Stage, reply: &Option<Vec<u8>>) -> (r: Stage)
    ensures
        r == next_stage(s, payload(*reply)),
{
    let first: Option<u8> = match reply {
        Some(p) => if p.len() > 0 {
            Some(p[0])
        } else {
            None
        },
        None => None,
    };
    match s {
        Stage::Feature { dev, feat } => match first {
            Some(b) => if b != 0 {
                Stage::Status { dev, feat, index: b }
            } else {
                advance(dev, feat)
            },
            None => advance(dev, feat),
        },
        Stage::Status { dev, feat, index } => match first {
            Some(b) => if b <= 100 {
                Stage::Done { battery: Some(b) }
            } else {
                advance(dev, feat)
            },
            None => advance(dev, feat),
        },
        Stage::Done { battery } => s,
    }
}

// ----------------------------------------------------- devices left alone

/// When each product last failed to answer.
pub struct HidppState {
    pub dead: HashMap<u16, u64>,
}

/// A product failed to answer not long ago.
pub open spec fn is_dead(dead: Map<u16, u64>, pid: u16, now: u64) -> bool {
    dead.contains_key(pid) && links::elapsed(dead[pid], now) < DEAD_TTL
}

impl HidppState {
    pub fn new() -> (r: Self)
        ensures
            r.dead@ == Map::<u16, u64>::empty(),
    {
        HidppState { dead: HashMap::new() }
    }
}

/// Whether a device is to be asked at all.
pub fn may_query(state: &HidppState, vid: u16, pid: u16, now: u64) -> (r: bool)
    ensures
        r == (vid == 0x046D && !is_dead(state.dead@, pid, now)),
{
    if vid != 0x046D {
        return false;
    }
    match state.dead.get(&pid) {
        Some(at) => time_since(*at, now) >= DEAD_TTL,
        None => true,
    }
}

/// Takes in what a device answered: a battery value is remembered for its
/// receiver, silence leaves the device alone for a while. A device that was not
/// to be asked has no battery.
pub fn query_battery(
    state: &mut HidppState,
    hid: &mut HidState,
    vid: u16,
    pid: u16,
    answer: Option<u8>,
    now: u64,
) -> (r: Option<u8>)
    ensures
        ({
            let asked = vid == 0x046D && !is_dead(old(state).dead@, pid, now);
            &&& r == if asked {
                answer
            } else {
                None
            }
            &&& final(state).dead@ == if !asked {
                old(state).dead@
            } else if answer is Some {
                old(state).dead@.remove(pid)
            } else {
                old(state).dead@.insert(pid, now)
            }
            &&& final(hid)@ == if asked && answer is Some {
                links::Memory {
                    links: links::links_with_battery(old(hid)@.links, vid, pid, answer->0, now),
                    cache: links::cache_with_battery(old(hid)@.cache, vid, pid, answer->0, now),
                    had_x87_wired: old(hid)@.had_x87_wired,
                }
            } else {
                old(hid)@
            }
        }),
{
    if !may_query(state, vid, pid, now) {
        return None;
    }
    match answer {
        Some(pct) => {
            note_live_battery(hid, vid, pid, pct, now);
            state.dead.remove(&pid);
            Some(pct)
        },
        None => {
            state.dead.insert(pid, now);
            None
        },
    }
}

// --------------------------------------------------------------------- laws

/// How many requests a query can still make.
pub open spec fn requests_left(s: Stage) -> int {
    match s {
        Stage::Feature { dev, feat } => 12 - 6 * dev - 2 * feat,
        Stage::Status { dev, feat, index } => 11 - 6 * dev - 2 * feat,
        Stage::Done { battery } => 0,
    }
}

/// A stage that a query can be in.
pub open spec fn is_stage(s: Stage) -> bool {
    match s {
        Stage::Feature { dev, feat } => dev < 2 && feat < 3,
        Stage::Status { dev, feat, index } => dev < 2 && feat < 3 && index != 0,
        Stage::Done { battery } => battery is Some ==> battery->0 <= 100,
    }
}

/// Every reply brings a query closer to its end, so that it makes at most twelve
/// requests, and what it ends with is a percentage.
pub proof fn law_query_ends(s: Stage, reply: Option<Seq<u8>>)
    requires
        is_stage(s),
    ensures
        is_stage(next_stage(s, reply)),
        0 <= requests_left(s) <= 12,
        !(s is Done) ==> requests_left(next_stage(s, reply)) < requests_left(s),
{
}

/// The reply with which a device echoes a request is recognised as the reply to
/// it, and carries the parameters.
pub proof fn law_frames_match(short: bool, dev: u8, feat: u8, func: u8, params: Seq<u8>)
    requires
        func < 16,
    ensures
        ({
            let f = request_frame(short, dev, feat, func, params);
            &&& is_reply(f, dev, feat, func)
            &&& forall|i: int|
                0 <= i < f.skip(4).len() && i < params.len() ==> #[trigger] f.skip(4)[i]
                    == params[i]
            &&& forall|i: int|
                params.len() <= i < f.skip(4).len() ==> #[trigger] f.skip(4)[i] == 0
        }),
{
}

/// A report replies to at most one request.
pub proof fn law_reply_identifies_request(
    buf: Seq<u8>,
    dev: u8,
    feat: u8,
    func: u8,
    dev2: u8,
    feat2: u8,
    func2: u8,
)
    requires
        is_reply(buf, dev, feat, func),
        is_reply(buf, dev2, feat2, func2),
    ensures
        dev == dev2 && feat == feat2 && func == func2,
{
}

/// A feature that a device has is asked for its status, under the index that the device
/// gave it; a status that is a percentage is the battery, and ends the query.
pub proof fn law_status_is_the_battery(dev: u8, feat: u8, index: u8, p: Seq<u8>)
    requires
        p.len() > 0,
    ensures
        p[0] != 0 ==> next_stage(Stage::Feature { dev, feat }, Some(p)) == (Stage::Status {
            dev,
            feat,
            index: p[0],
        }),
        p[0] <= 100 ==> next_stage(Stage::Status { dev, feat, index }, Some(p)) == (Stage::Done {
            battery: Some(p[0]),
        }),
        p[0] > 100 ==> !(next_stage(Stage::Status { dev, feat, index }, Some(p)) matches Stage::Done {
            battery,
        } && battery is Some),
{
}

/// Silence, or a feature that a device does not have, moves on to the next feature, then
/// to the next device index; the query gives up only after the last feature of the last
/// one.
pub proof fn law_query_gives_up_last(s: Stage, reply: Option<Seq<u8>>)
    requires
        is_stage(s),
    ensures
        next_stage(s, reply) == (Stage::Done { battery: None }) && !(s is Done) ==> match s {
            Stage::Feature { dev, feat } => dev == 1 && feat == 2,
            Stage::Status { dev, feat, index } => dev == 1 && feat == 2,
            Stage::Done { battery } => true,
        },
        s matches Stage::Feature { dev, feat } && feat < 2 ==> next_stage(s, None) == (
        Stage::Feature { dev: s->Feature_dev, feat: (s->Feature_feat + 1) as u8 }),
        s matches Stage::Status { dev, feat, index } && feat < 2 ==> next_stage(s, None) == (
        Stage::Feature { dev: s->Status_dev, feat: (s->Status_feat + 1) as u8 }),
        next_stage(Stage::Feature { dev: 0, feat: 2 }, None) == (Stage::Feature { dev: 1, feat: 0 }),
{
}

/// A device on USB is asked before one behind a receiver; Unified Battery before the two
/// older features, each with its own function.
pub proof fn law_questions_are_those_of_the_protocol()
    ensures
        device_index(0) == 0xFF && device_index(1) == 0x01,
        feature_low(0) == 0x02 && status_func(0) == 0x01,
        feature_low(1) == 0x00 && status_func(1) == 0x01,
        feature_low(2) == 0x01 && status_func(2) == 0x00,
{
}

/// A report replies to a request if and only if it is a short or long one that names the
/// device, the feature and the function.
pub proof fn law_replies_name_their_request(buf: Seq<u8>, dev: u8, feat: u8, func: u8)
    ensures
        is_reply(buf, dev, feat, func) ==> buf.len() >= 5 && (buf[0] == 0x10 || buf[0] == 0x11)
            && buf[1] == dev && buf[2] == feat && func * 16 <= buf[3] < func * 16 + 16,
        buf.len() >= 5 && (buf[0] == 0x10 || buf[0] == 0x11) && buf[1] == dev && buf[2] == feat
            && func * 16 <= buf[3] < func * 16 + 16 ==> is_reply(buf, dev, feat, func),
{
}

/// A frame is a whole report: 7 bytes with id `10` or 20 bytes with id `11`.
pub proof fn law_frames_are_whole_reports(short: bool, dev: u8, feat: u8, func: u8, params: Seq<u8>)
    ensures
        ({
            let f = request_frame(short, dev, feat, func, params);
            &&& short ==> f.len() == 7 && f[0] == 0x10
            &&& !short ==> f.len() == 20 && f[0] == 0x11
            &&& f[1] == dev && f[2] == feat && f[3] / 16 == func % 16
        }),
{
}

/// A product that did not answer is left alone for ten minutes, and no longer.
pub proof fn law_silent_products_rest(dead: Map<u16, u64>, pid: u16, now: u64)
    ensures
        !dead.contains_key(pid) ==> !is_dead(dead, pid, now),
        dead.contains_key(pid) ==> (is_dead(dead, pid, now) <==> now < dead[pid]
            + 600_000_000_000),
        is_dead(dead.insert(pid, now), pid, now),
        !is_dead(dead.remove(pid), pid, now),
{
}

} // verus!
