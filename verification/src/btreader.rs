//! Bluetooth devices: their addresses, what they are, and what a scan of paired
//! devices makes of what each of them told.

use vstd::prelude::*;

use crate::links;
use crate::links::time_since;
use crate::model;
use crate::model::{Device, DeviceView, sort_devices};
use crate::order;
use crate::text;
use crate::text::{
    begins, chars_of, from_chars, has_text, hex_digit, hex_only, position_from, push_hex,
    remove_all, same, split_piece, to_ascii_upper, trim,
};
use crate::textmap::TextMap;
use crate::wide;
use crate::wide::decode_until_nul;

verus! {

/// How long one call into the Bluetooth stack may take.
pub const OP_TIMEOUT: u64 = 5_000_000_000;

/// How many workers scan devices side by side.
pub const SCAN_WORKERS: usize = 3;

/// How long a battery value that a device pushed is trusted.
pub const NOTIFY_TTL: u64 = 1_800_000_000_000;

/// The shortest time between two refreshes that connection events ask for.
pub const KICK_GAP: u64 = 2_000_000_000;

// ---------------------------------------------------------------- addresses

/// Hexadecimal digits with a colon after every second one.
pub open spec fn punctuated(s: Seq<char>) -> Seq<char>
    decreases s.len(),
{
    if s.len() <= 2 {
        s
    } else {
        s.take(2) + ":"@ + punctuated(s.skip(2))
    }
}

/// The address of a Bluetooth device: its low 48 bits.
pub open spec fn bt_address(addr: u64) -> Seq<char> {
    punctuated(text::hex((addr % 0x1_0000_0000_0000) as nat, 12))
}

/// The upper case hexadecimal digits of an address.
pub open spec fn normalized(addr: Seq<char>) -> Seq<char> {
    text::ascii_upper(addr.filter(|c: char| text::is_hex_digit(c)))
}

fn punctuate_bt_addr(hex12: &str) -> (r: String)
    ensures
        r@ == punctuated(hex12@),
{
    let v = chars_of(hex12);
    let mut out = String::new();
    let mut i: usize = 0;
    proof {
        reveal_strlit(":");
    }
    assert(v@.skip(0) =~= v@);
    while v.len() - i > 2
        invariant
            ":"@ == seq![':'],
            i <= v@.len(),
            out@ + punctuated(v@.skip(i as int)) == punctuated(v@),
        decreases v@.len() - i,
    {
        let ghost before = out@;
        let ghost rest = v@.skip(i as int);
        out.push(v[i]);
        out.push(v[i + 1]);
        out.push(':');
        assert(rest.skip(2) =~= v@.skip(i + 2));
        assert(out@ + punctuated(v@.skip(i + 2)) =~= before + (rest.take(2) + ":"@ + punctuated(
            rest.skip(2),
        )));
        i = i + 2;
    }
    let ghost head = out@;
    let ghost at = i as int;
    while i < v.len()
        invariant
            0 <= at <= i <= v@.len(),
            out@ == head + v@.subrange(at, i as int),
        decreases v@.len() - i,
    {
        out.push(v[i]);
        i = i + 1;
        assert(out@ =~= head + v@.subrange(at, i as int));
    }
    assert(v@.subrange(at, i as int) =~= v@.skip(at));
    out
}

pub fn format_addr(addr: u64) -> (r: String)
    ensures
        r@ == bt_address(addr),
{
    let v: u64 = addr % 0x1_0000_0000_0000;
    let mut hex = String::new();
    push_hex(&mut hex, v, 12);
    assert(hex@ =~= text::hex(v as nat, 12));
    punctuate_bt_addr(hex.as_str())
}

pub fn normalize_bt_addr(addr: &str) -> (r: String)
    ensures
        r@ == normalized(addr@),
{
    let v = chars_of(addr);
    let ghost keep = |c: char| text::is_hex_digit(c);
    let mut out = String::new();
    for i in 0..v.len()
        invariant
            keep == (|c: char| text::is_hex_digit(c)),
            out@ == v@.take(i as int).filter(keep),
    {
        assert(v@.take(i + 1).drop_last() =~= v@.take(i as int));
        reveal(Seq::filter);
        if hex_digit(v[i]) {
            out.push(v[i]);
        }
    }
    assert(v@.take(v@.len() as int) =~= v@);
    to_ascii_upper(out.as_str())
}

/// The twelve digits behind the first `DEV_` of an instance id.
pub open spec fn dev_digits(up: Seq<char>) -> Option<Seq<char>> {
    match text::piece(up, "DEV_"@, 1) {
        Some(rest) => if rest.len() >= 12 && text::all_hex(rest.take(12)) {
            Some(rest.take(12))
        } else {
            None
        },
        None => None,
    }
}

/// The twelve digits before the first `_C000` of an instance id.
pub open spec fn service_digits(up: Seq<char>) -> Option<Seq<char>> {
    match text::find(up, "_C000"@) {
        Some(i) => if i >= 12 && text::all_hex(up.subrange(i - 12, i)) {
            Some(up.subrange(i - 12, i))
        } else {
            None
        },
        None => None,
    }
}

/// The address in a Bluetooth instance id.
pub open spec fn instance_address(id: Seq<char>) -> Option<Seq<char>> {
    let up = text::without(text::ascii_upper(id), ":"@);
    match dev_digits(up) {
        Some(hex) => Some(punctuated(hex)),
        None => match service_digits(up) {
            Some(hex) => Some(punctuated(hex)),
            None => None,
        },
    }
}

/// Pulls the 12-digit address out of a `BTHENUM` instance id.
pub fn bt_addr_from_instance_id(id: &str) -> (r: Option<String>)
    ensures
        match r {
            Some(a) => instance_address(id@) == Some(a@),
            None => instance_address(id@) is None,
        },
{
    proof {
        reveal_strlit("DEV_");
        reveal_strlit("_C000");
    }
    let upper = to_ascii_upper(id);
    let up = remove_all(upper.as_str(), ":");
    match split_piece(up.as_str(), "DEV_", 1) {
        Some(rest) => {
            let v = chars_of(rest.as_str());
            if v.len() >= 12 {
                let hex = from_chars(vstd::slice::slice_subrange(v.as_slice(), 0, 12));
                assert(hex@ =~= rest@.take(12));
                if hex_only(hex.as_str()) {
                    return Some(punctuate_bt_addr(hex.as_str()));
                }
            }
        },
        None => {},
    }
    assert(dev_digits(up@) is None);
    let v = chars_of(up.as_str());
    let tag = chars_of("_C000");
    assert(v@.skip(0) =~= v@);
    match position_from(&v, &tag, 0) {
        Some(i) => {
            if i >= 12 {
                let hex = from_chars(vstd::slice::slice_subrange(v.as_slice(), i - 12, i));
                assert(hex@ =~= up@.subrange(i - 12, i as int));
                if hex_only(hex.as_str()) {
                    return Some(punctuate_bt_addr(hex.as_str()));
                }
            }
            None
        },
        None => None,
    }
}

// -------------------------------------------------------------------- kinds

/// Whether a text holds one of some words.
pub open spec fn holds_one(s: Seq<char>, words: Seq<Seq<char>>) -> bool {
    exists|i: int| 0 <= i < words.len() && text::contains(s, #[trigger] words[i])
}

/// What a device with a name in lower case is.
pub open spec fn kind_of(n: Seq<char>) -> Seq<char> {
    if text::contains(n, "keyboard"@) || text::starts_with(n, "k3"@) || text::starts_with(n, "k7"@)
        || text::starts_with(n, "k8"@) {
        "Keyboard"@
    } else if holds_one(
        n,
        seq!["mouse"@, "mx "@, "g502"@, "g102"@, "viper"@, "tail"@, "m720"@],
    ) {
        "Mouse"@
    } else if holds_one(
        n,
        seq![
            "headset"@,
            "headphone"@,
            "earbud"@,
            "buds"@,
            "airpods"@,
            "w820"@,
            "w800"@,
            "pilot"@,
            "wh-1000"@,
            "xm5"@,
            "xm4"@,
            "sony"@,
        ],
    ) {
        "Headset"@
    } else if holds_one(
        n,
        seq![
            "controller"@,
            "gamepad"@,
            "dualsense"@,
            "dualshock"@,
            "ps5"@,
            "xbox"@,
            "switch"@,
        ],
    ) {
        "Gamepad"@
    } else if holds_one(n, seq!["pen"@, "stylus"@, "surface"@]) {
        "Pen"@
    } else if holds_one(n, seq!["trackpad"@, "touchpad"@]) {
        "Trackpad"@
    } else {
        "Unknown"@
    }
}

fn has_one(s: &str, words: &Vec<&str>) -> (r: bool)
    ensures
        r == holds_one(s@, words@.map_values(|w: &str| w@)),
{
    let ghost w = words@.map_values(|w: &str| w@);
    for i in 0..words.len()
        invariant
            w == words@.map_values(|w: &str| w@),
            forall|j: int| 0 <= j < i ==> !text::contains(s@, #[trigger] w[j]),
    {
        assert(w[i as int] == words@[i as int]@);
        if has_text(s, words[i]) {
            return true;
        }
    }
    false
}

/// What a device is, told by its name in lower case.
pub fn classify_lower(n: &str) -> (r: &'static str)
    ensures
        r@ == kind_of(n@),
{
    if has_text(n, "keyboard") || begins(n, "k3") || begins(n, "k7") || begins(n, "k8") {
        return "Keyboard";
    }
    let mouse: Vec<&str> = vec!["mouse", "mx ", "g502", "g102", "viper", "tail", "m720"];
    assert(mouse@.map_values(|w: &str| w@) =~= seq![
        "mouse"@,
        "mx "@,
        "g502"@,
        "g102"@,
        "viper"@,
        "tail"@,
        "m720"@,
    ]);
    if has_one(n, &mouse) {
        return "Mouse";
    }
    let headset: Vec<&str> = vec![
        "headset",
        "headphone",
        "earbud",
        "buds",
        "airpods",
        "w820",
        "w800",
        "pilot",
        "wh-1000",
        "xm5",
        "xm4",
        "sony",
    ];
    assert(headset@.map_values(|w: &str| w@) =~= seq![
        "headset"@,
        "headphone"@,
        "earbud"@,
        "buds"@,
        "airpods"@,
        "w820"@,
        "w800"@,
        "pilot"@,
        "wh-1000"@,
        "xm5"@,
        "xm4"@,
        "sony"@,
    ]);
    if has_one(n, &headset) {
        return "Headset";
    }
    let gamepad: Vec<&str> = vec![
        "controller",
        "gamepad",
        "dualsense",
        "dualshock",
        "ps5",
        "xbox",
        "switch",
    ];
    assert(gamepad@.map_values(|w: &str| w@) =~= seq![
        "controller"@,
        "gamepad"@,
        "dualsense"@,
        "dualshock"@,
        "ps5"@,
        "xbox"@,
        "switch"@,
    ]);
    if has_one(n, &gamepad) {
        return "Gamepad";
    }
    let pen: Vec<&str> = vec!["pen", "stylus", "surface"];
    assert(pen@.map_values(|w: &str| w@) =~= seq!["pen"@, "stylus"@, "surface"@]);
    if has_one(n, &pen) {
        return "Pen";
    }
    let trackpad: Vec<&str> = vec!["trackpad", "touchpad"];
    assert(trackpad@.map_values(|w: &str| w@) =~= seq!["trackpad"@, "touchpad"@]);
    if has_one(n, &trackpad) {
        return "Trackpad";
    }
    "Unknown"
}

/// What a device is, told by its name.
pub fn classify_kind(name: &str) -> (r: &'static str)
    ensures
        r@ == kind_of(text::lowercase(name@)),
{
    let lower = name.to_lowercase();
    classify_lower(lower.as_str())
}

// ------------------------------------------------------------------ workers

/// The item at place `j` of worker `k`, of `n` workers.
pub open spec fn item_index(k: int, j: int, n: int) -> int {
    k + j * n
}

/// Place `j` of worker `k` holds a clone of an item that is there.
pub open spec fn holds_item<T: Clone>(items: Seq<T>, n: int, k: int, chunk: Seq<T>, j: int) -> bool {
    let i = item_index(k, j, n);
    0 <= i < items.len() && cloned(items[i], chunk[j])
}

/// Worker `k` of `n` has items `k`, `k + n`, `k + 2 n` and so on, all of them.
pub open spec fn is_share<T: Clone>(items: Seq<T>, n: int, k: int, chunk: Seq<T>) -> bool {
    &&& forall|j: int| 0 <= j < chunk.len() ==> #[trigger] holds_item(items, n, k, chunk, j)
    &&& item_index(k, chunk.len() as int, n) >= items.len()
}

/// Items dealt out to `n` workers in turn.
pub open spec fn dealt<T: Clone>(items: Seq<T>, n: int, chunks: Seq<Vec<T>>) -> bool {
    chunks.len() == n && forall|k: int| 0 <= k < n ==> is_share(items, n, k, #[trigger] chunks[k]@)
}

/// How many workers there is work for.
pub open spec fn worker_count(items: nat, workers: usize) -> int {
    let w = if workers < 1 {
        1
    } else {
        workers as int
    };
    if w < items {
        w
    } else {
        items as int
    }
}

/// Every item is dealt to exactly one worker: item `i` to worker `i % n`, at place
/// `i / n`.
pub proof fn law_every_item_is_dealt<T: Clone>(
    items: Seq<T>,
    n: int,
    chunks: Seq<Vec<T>>,
    i: int,
    k: int,
    j: int,
)
    requires
        n > 0,
        dealt(items, n, chunks),
        0 <= i < items.len(),
    ensures
        0 <= i / n < chunks[i % n]@.len(),
        cloned(items[i], chunks[i % n]@[i / n]),
        0 <= k < n && item_index(k, j, n) == i ==> k == i % n && j == i / n,
{
    let w = i % n;
    let at = i / n;
    vstd::arithmetic::div_mod::lemma_fundamental_div_mod(i, n);
    assert(n * at == at * n) by (nonlinear_arith);
    assert(at >= 0) by (nonlinear_arith)
        requires
            at == i / n,
            i >= 0,
            n > 0,
    ;
    let c = chunks[w]@;
    assert(is_share(items, n, w, c));
    if at >= c.len() {
        let m = c.len() as int;
        assert(at * n >= m * n) by (nonlinear_arith)
            requires
                at >= m,
                n > 0,
        ;
    }
    assert(holds_item(items, n, w, c, at));
    if 0 <= k < n && item_index(k, j, n) == i {
        vstd::arithmetic::div_mod::lemma_fundamental_div_mod_converse(i, n, j, k);
    }
}

/// Deals items out to workers in turn.
pub fn split_for_workers<T: Clone>(items: &[T], workers: usize) -> (r: Vec<Vec<T>>)
    ensures
        dealt(items@, worker_count(items@.len(), workers), r@),
{
    let len: usize = items.len();
    let w: usize = if workers < 1 {
        1
    } else {
        workers
    };
    let n: usize = if w < len {
        w
    } else {
        len
    };
    let mut chunks: Vec<Vec<T>> = Vec::new();
    for k in 0..n
        invariant
            len == items@.len(),
            n <= len,
            chunks@.len() == k,
            forall|a: int|
                0 <= a < k ==> is_share(items@, n as int, a, #[trigger] chunks@[a]@),
    {
        let mut chunk: Vec<T> = Vec::new();
        let mut i: usize = k;
        loop
            invariant_except_break
                i == item_index(k as int, chunk@.len() as int, n as int),
                i < len,
            invariant
                len == items@.len(),
                0 < n <= len,
                k < n,
                forall|j: int|
                    0 <= j < chunk@.len() ==> #[trigger] holds_item(
                        items@,
                        n as int,
                        k as int,
                        chunk@,
                        j,
                    ),
            ensures
                is_share(items@, n as int, k as int, chunk@),
            decreases len - i,
        {
            let ghost m = chunk@.len() as int;
            let ghost before = chunk@;
            chunk.push(items[i].clone());
            assert((m + 1) * n == m * n + n) by (nonlinear_arith);
            assert forall|j: int| 0 <= j < chunk@.len() implies #[trigger] holds_item(
                items@,
                n as int,
                k as int,
                chunk@,
                j,
            ) by {
                if j < m {
                    assert(holds_item(items@, n as int, k as int, before, j));
                }
            }
            if len - i <= n {
                break;
            }
            i = i + n;
        }
        chunks.push(chunk);
    }
    chunks
}

// ---------------------------------------------------------------- one device

/// What a paired LE device told. `connected` is `None` when that could not be
/// read.
pub struct LeInfo {
    pub address: u64,
    pub info_name: Option<String>,
    pub dev_name: Option<String>,
    pub connected: Option<bool>,
    /// The battery that was read from it.
    pub battery: Option<u8>,
}

/// What a paired classic device told.
pub struct ClassicInfo {
    pub address: u64,
    pub info_name: Option<String>,
    pub dev_name: Option<String>,
    pub connected: Option<bool>,
}

/// A text that may be missing, as a sequence of characters.
pub open spec fn text_of(s: Option<String>) -> Option<Seq<char>> {
    match s {
        Some(t) => Some(t@),
        None => None,
    }
}

/// The name of a device: the one that the system lists unless it is blank.
pub open spec fn picked_name(info: Option<Seq<char>>, dev: Option<Seq<char>>) -> Seq<char> {
    match info {
        Some(n) => if text::trimmed(n).len() > 0 {
            n
        } else {
            match dev {
                Some(d) => d,
                None => Seq::empty(),
            }
        },
        None => match dev {
            Some(d) => d,
            None => Seq::empty(),
        },
    }
}

pub fn pick_name(info_name: &Option<String>, dev_name: &Option<String>) -> (r: String)
    ensures
        r@ == picked_name(text_of(*info_name), text_of(*dev_name)),
{
    match info_name {
        Some(n) => {
            let t = trim(n.as_str());
            if !t.as_str().is_empty() {
                return n.clone();
            }
        },
        None => {},
    }
    match dev_name {
        Some(n) => n.clone(),
        None => String::new(),
    }
}

/// A battery value that a device pushed, if it is not too old.
pub open spec fn pushed_battery(
    notify: Map<Seq<char>, (u8, u64)>,
    address: Seq<char>,
    now: u64,
) -> Option<u8> {
    if notify.contains_key(address) && links::elapsed(notify[address].1, now) < NOTIFY_TTL {
        Some(notify[address].0)
    } else {
        None
    }
}

pub fn notify_cached(notify: &TextMap<(u8, u64)>, address: &str, now: u64) -> (r: Option<u8>)
    ensures
        r == pushed_battery(notify@, address@, now),
{
    match notify.get(address) {
        Some((pct, at)) => if time_since(at, now) < NOTIFY_TTL {
            Some(pct)
        } else {
            None
        },
        None => None,
    }
}

/// The row of an LE device.
pub open spec fn le_row(
    i: LeInfo,
    connected: bool,
    notify: Map<Seq<char>, (u8, u64)>,
    now: u64,
) -> DeviceView {
    let name = picked_name(text_of(i.info_name), text_of(i.dev_name));
    let battery = if !connected {
        None
    } else if i.battery is Some {
        i.battery
    } else {
        pushed_battery(notify, bt_address(i.address), now)
    };
    DeviceView {
        name,
        address: bt_address(i.address),
        is_le: true,
        connected,
        battery,
        status: if !connected {
            "offline"@
        } else if battery is Some {
            "ok"@
        } else {
            "no-battery"@
        },
        kind: kind_of(text::lowercase(name)),
    }
}

/// The row of a classic device.
pub open spec fn classic_row(i: ClassicInfo, connected: bool) -> DeviceView {
    let name = picked_name(text_of(i.info_name), text_of(i.dev_name));
    DeviceView {
        name,
        address: bt_address(i.address),
        is_le: false,
        connected,
        battery: None,
        status: if connected {
            "no-battery"@
        } else {
            "offline"@
        },
        kind: kind_of(text::lowercase(name)),
    }
}

/// Takes note of an address. Returns whether it is new.
fn note_address(seen: &mut Vec<String>, address: &String) -> (r: bool)
    ensures
        r == !model::texts(old(seen)@).contains(address@),
        model::texts(final(seen)@) == if r {
            model::texts(old(seen)@).push(address@)
        } else {
            model::texts(old(seen)@)
        },
{
    let ghost t = model::texts(seen@);
    for i in 0..seen.len()
        invariant
            t == model::texts(seen@),
            forall|j: int| 0 <= j < i ==> t[j] != address@,
    {
        assert(t[i as int] == seen@[i as int]@);
        if seen[i] == *address {
            assert(t.contains(address@));
            return false;
        }
    }
    let ghost before = seen@;
    seen.push(address.clone());
    assert(model::texts(seen@) =~= t.push(address@));
    true
}

/// The row of an LE device that the list does not have yet, unless its link
/// could not be read.
pub fn visit_le(
    info: &LeInfo,
    seen: &mut Vec<String>,
    notify: &TextMap<(u8, u64)>,
    now: u64,
) -> (r: Option<Device>)
    ensures
        ({
            let known = model::texts(old(seen)@);
            let new = !known.contains(bt_address(info.address));
            &&& model::texts(final(seen)@) == if new {
                known.push(bt_address(info.address))
            } else {
                known
            }
            &&& match r {
                Some(d) => new && info.connected is Some && d@ == le_row(
                    *info,
                    info.connected->0,
                    notify@,
                    now,
                ),
                None => !new || info.connected is None,
            }
        }),
{
    let address = format_addr(info.address);
    if !note_address(seen, &address) {
        return None;
    }
    let connected = match info.connected {
        Some(c) => c,
        None => {
            return None;
        },
    };
    let name = pick_name(&info.info_name, &info.dev_name);
    let battery: Option<u8> = if !connected {
        None
    } else if info.battery.is_some() {
        info.battery
    } else {
        notify_cached(notify, address.as_str(), now)
    };
    let status: &'static str = if !connected {
        "offline"
    } else if battery.is_some() {
        "ok"
    } else {
        "no-battery"
    };
    let kind = classify_kind(name.as_str());
    let d = Device { name, address, is_le: true, connected, battery, status, kind };
    assert(d@ =~= le_row(*info, connected, notify@, now));
    Some(d)
}

/// The row of a classic device that the list does not have yet, unless its link
/// could not be read.
pub fn visit_classic(info: &ClassicInfo, seen: &mut Vec<String>) -> (r: Option<Device>)
    ensures
        ({
            let known = model::texts(old(seen)@);
            let new = !known.contains(bt_address(info.address));
            &&& model::texts(final(seen)@) == if new {
                known.push(bt_address(info.address))
            } else {
                known
            }
            &&& match r {
                Some(d) => new && info.connected is Some && d@ == classic_row(
                    *info,
                    info.connected->0,
                ),
                None => !new || info.connected is None,
            }
        }),
{
    let address = format_addr(info.address);
    if !note_address(seen, &address) {
        return None;
    }
    let connected = match info.connected {
        Some(c) => c,
        None => {
            return None;
        },
    };
    let name = pick_name(&info.info_name, &info.dev_name);
    let kind = classify_kind(name.as_str());
    let d = Device {
        name,
        address,
        is_le: false,
        connected,
        battery: None,
        status: if connected {
            "no-battery"
        } else {
            "offline"
        },
        kind,
    };
    assert(d@ =~= classic_row(*info, connected));
    Some(d)
}

// ----------------------------------------------------------------- headsets

/// What the system holds of a Bluetooth device that is present: its instance id,
/// in a buffer that a zero unit ends, and its battery property.
pub struct HfpEntry {
    pub instance: Vec<u16>,
    /// The property holds a byte.
    pub is_byte: bool,
    pub value: u8,
}

/// The headset batteries that the system holds, by address.
pub open spec fn hfp_batteries(entries: Seq<HfpEntry>) -> Map<Seq<char>, u8>
    decreases entries.len(),
{
    if entries.len() == 0 {
        Map::empty()
    } else {
        let before = hfp_batteries(entries.drop_last());
        let e = entries.last();
        match instance_address(wide::decoded(wide::until_nul(e.instance@))) {
            Some(a) => if e.is_byte && e.value <= 100 {
                before.insert(normalized(a), e.value)
            } else {
                before
            },
            None => before,
        }
    }
}

pub fn hfp_battery_map(entries: &Vec<HfpEntry>) -> (r: TextMap<u8>)
    ensures
        r@ == hfp_batteries(entries@),
{
    let mut map: TextMap<u8> = TextMap::new();
    for i in 0..entries.len()
        invariant
            map@ == hfp_batteries(entries@.take(i as int)),
    {
        assert(entries@.take(i + 1).drop_last() =~= entries@.take(i as int));
        let e = &entries[i];
        let instance = decode_until_nul(&e.instance);
        match bt_addr_from_instance_id(instance.as_str()) {
            Some(a) => {
                if e.is_byte && e.value <= 100 {
                    let key = normalize_bt_addr(a.as_str());
                    map.insert(key.as_str(), e.value);
                }
            },
            None => {},
        }
    }
    assert(entries@.take(entries@.len() as int) =~= entries@);
    map
}

// -------------------------------------------------------------- a whole scan

/// The addresses of LE devices, each once.
pub open spec fn le_seen(infos: Seq<LeInfo>) -> Seq<Seq<char>>
    decreases infos.len(),
{
    if infos.len() == 0 {
        Seq::empty()
    } else {
        let before = le_seen(infos.drop_last());
        let a = bt_address(infos.last().address);
        if before.contains(a) {
            before
        } else {
            before.push(a)
        }
    }
}

/// The rows of one worker's LE devices, one per address.
pub open spec fn le_rows(
    infos: Seq<LeInfo>,
    notify: Map<Seq<char>, (u8, u64)>,
    now: u64,
) -> Seq<DeviceView>
    decreases infos.len(),
{
    if infos.len() == 0 {
        Seq::empty()
    } else {
        let before = le_rows(infos.drop_last(), notify, now);
        let i = infos.last();
        if !le_seen(infos.drop_last()).contains(bt_address(i.address)) && i.connected is Some {
            before.push(le_row(i, i.connected->0, notify, now))
        } else {
            before
        }
    }
}

/// The rows of all workers' LE devices, one worker after the other.
pub open spec fn all_le_rows(
    chunks: Seq<Vec<LeInfo>>,
    notify: Map<Seq<char>, (u8, u64)>,
    now: u64,
) -> Seq<DeviceView>
    decreases chunks.len(),
{
    if chunks.len() == 0 {
        Seq::empty()
    } else {
        all_le_rows(chunks.drop_last(), notify, now) + le_rows(chunks.last()@, notify, now)
    }
}

/// The addresses of rows.
pub open spec fn addresses(rows: Seq<DeviceView>) -> Seq<Seq<char>> {
    rows.map_values(|d: DeviceView| d.address)
}

/// The addresses of rows and of classic devices, each of the latter once.
pub open spec fn classic_seen(rows: Seq<DeviceView>, infos: Seq<ClassicInfo>) -> Seq<Seq<char>>
    decreases infos.len(),
{
    if infos.len() == 0 {
        addresses(rows)
    } else {
        let before = classic_seen(rows, infos.drop_last());
        let a = bt_address(infos.last().address);
        if before.contains(a) {
            before
        } else {
            before.push(a)
        }
    }
}

/// Rows with those of classic devices that they do not have yet.
pub open spec fn with_classic(rows: Seq<DeviceView>, infos: Seq<ClassicInfo>) -> Seq<DeviceView>
    decreases infos.len(),
{
    if infos.len() == 0 {
        rows
    } else {
        let before = with_classic(rows, infos.drop_last());
        let i = infos.last();
        if !classic_seen(rows, infos.drop_last()).contains(bt_address(i.address)) && i.connected
            is Some {
            before.push(classic_row(i, i.connected->0))
        } else {
            before
        }
    }
}

/// A row with the battery that the device pushed or that the system holds, where
/// it has none. A row that is not connected keeps no battery.
pub open spec fn finished(
    d: DeviceView,
    notify: Map<Seq<char>, (u8, u64)>,
    hfp: Map<Seq<char>, u8>,
    now: u64,
) -> DeviceView {
    let pushed = pushed_battery(notify, d.address, now);
    if !d.connected {
        DeviceView {
            battery: None,
            status: if d.status == "ok"@ {
                "offline"@
            } else {
                d.status
            },
            ..d
        }
    } else if d.battery is Some {
        d
    } else if pushed is Some {
        DeviceView { battery: pushed, status: "ok"@, ..d }
    } else if hfp.contains_key(normalized(d.address)) {
        DeviceView { battery: Some(hfp[normalized(d.address)]), status: "ok"@, ..d }
    } else {
        d
    }
}

/// Rows, each with the battery that is known of it.
pub open spec fn all_finished(
    rows: Seq<DeviceView>,
    notify: Map<Seq<char>, (u8, u64)>,
    hfp: Map<Seq<char>, u8>,
    now: u64,
) -> Seq<DeviceView> {
    rows.map_values(|d: DeviceView| finished(d, notify, hfp, now))
}

/// The rows of paired devices, in listing order.
pub open spec fn paired_rows(
    chunks: Seq<Vec<LeInfo>>,
    classic: Seq<ClassicInfo>,
    notify: Map<Seq<char>, (u8, u64)>,
    hfp: Map<Seq<char>, u8>,
    now: u64,
) -> Seq<DeviceView> {
    model::sorted_views(
        all_finished(
            with_classic(all_le_rows(chunks, notify, now), classic),
            notify,
            hfp,
            now,
        ),
    )
}

/// The rows of one worker's LE devices.
pub fn scan_chunk(infos: &Vec<LeInfo>, notify: &TextMap<(u8, u64)>, now: u64) -> (r: Vec<Device>)
    ensures
        model::views(r@) == le_rows(infos@, notify@, now),
{
    let mut seen: Vec<String> = Vec::new();
    let mut out: Vec<Device> = Vec::new();
    assert(model::texts(seen@) =~= le_seen(infos@.take(0)));
    assert(model::views(out@) =~= le_rows(infos@.take(0), notify@, now));
    for i in 0..infos.len()
        invariant
            model::texts(seen@) == le_seen(infos@.take(i as int)),
            model::views(out@) == le_rows(infos@.take(i as int), notify@, now),
    {
        assert(infos@.take(i + 1).drop_last() =~= infos@.take(i as int));
        match visit_le(&infos[i], &mut seen, notify, now) {
            Some(d) => {
                let ghost before = out@;
                out.push(d);
                assert(model::views(out@) =~= model::views(before).push(d@));
            },
            None => {},
        }
    }
    assert(infos@.take(infos@.len() as int) =~= infos@);
    out
}

/// Fills in the battery of each row.
fn finish_rows(
    rows: &mut Vec<Device>,
    notify: &TextMap<(u8, u64)>,
    hfp: &TextMap<u8>,
    now: u64,
)
    ensures
        model::views(final(rows)@) == all_finished(
            model::views(old(rows)@),
            notify@,
            hfp@,
            now,
        ),
{
    let ghost all = model::views(rows@);
    let n: usize = rows.len();
    for i in 0..n
        invariant
            n == all.len(),
            rows@.len() == n,
            forall|j: int|
                0 <= j < i ==> (#[trigger] rows@[j])@ == finished(all[j], notify@, hfp@, now),
            forall|j: int| i <= j < n ==> (#[trigger] rows@[j])@ == all[j],
    {
        assert(rows@[i as int]@ == all[i as int]);
        let mut d = rows[i].clone();
        if !d.connected {
            d.battery = None;
            if same(d.status, "ok") {
                d.status = "offline";
            }
        } else if d.battery.is_none() {
            match notify_cached(notify, d.address.as_str(), now) {
                Some(pct) => {
                    d.battery = Some(pct);
                    d.status = "ok";
                },
                None => {
                    let key = normalize_bt_addr(d.address.as_str());
                    match hfp.get(key.as_str()) {
                        Some(pct) => {
                            d.battery = Some(pct);
                            d.status = "ok";
                        },
                        None => {},
                    }
                },
            }
        }
        assert(d@ =~= finished(all[i as int], notify@, hfp@, now));
        rows.set(i, d);
    }
    assert(model::views(rows@) =~= all_finished(all, notify@, hfp@, now));
}

/// Turns what paired devices told into device rows: LE devices by worker, then
/// classic devices, each address once; with the batteries that devices pushed and
/// that the system holds filled in.
pub fn enumerate(
    chunks: &Vec<Vec<LeInfo>>,
    classic: &Vec<ClassicInfo>,
    notify: &TextMap<(u8, u64)>,
    hfp: &TextMap<u8>,
    now: u64,
) -> (r: Vec<Device>)
    ensures
        model::views(r@) == paired_rows(chunks@, classic@, notify@, hfp@, now),
{
    let mut out: Vec<Device> = Vec::new();
    assert(model::views(out@) =~= all_le_rows(chunks@.take(0), notify@, now));
    for i in 0..chunks.len()
        invariant
            model::views(out@) == all_le_rows(chunks@.take(i as int), notify@, now),
    {
        assert(chunks@.take(i + 1).drop_last() =~= chunks@.take(i as int));
        let ghost before = out@;
        let mut rows = scan_chunk(&chunks[i], notify, now);
        let ghost added = rows@;
        out.append(&mut rows);
        assert(model::views(out@) =~= model::views(before) + model::views(added));
    }
    assert(chunks@.take(chunks@.len() as int) =~= chunks@);
    let ghost le = model::views(out@);
    let mut seen: Vec<String> = Vec::new();
    for i in 0..out.len()
        invariant
            le == model::views(out@),
            model::texts(seen@) == addresses(le).take(i as int),
    {
        let ghost before = seen@;
        assert(le[i as int] == out@[i as int]@);
        seen.push(out[i].address.clone());
        assert(model::texts(seen@) =~= model::texts(before).push(le[i as int].address));
        assert(addresses(le).take(i + 1) =~= addresses(le).take(i as int).push(
            addresses(le)[i as int],
        ));
    }
    assert(addresses(le).take(le.len() as int) =~= addresses(le));
    for i in 0..classic.len()
        invariant
            model::texts(seen@) == classic_seen(le, classic@.take(i as int)),
            model::views(out@) == with_classic(le, classic@.take(i as int)),
    {
        assert(classic@.take(i + 1).drop_last() =~= classic@.take(i as int));
        match visit_classic(&classic[i], &mut seen) {
            Some(d) => {
                let ghost before = out@;
                out.push(d);
                assert(model::views(out@) =~= model::views(before).push(d@));
            },
            None => {},
        }
    }
    assert(classic@.take(classic@.len() as int) =~= classic@);
    finish_rows(&mut out, notify, hfp, now);
    sort_devices(out)
}

// ----------------------------------------------------------- waiting, events

/// How far a call into the Bluetooth stack got.
#[derive(Clone, Copy, Debug, PartialEq, Eq, Structural)]
pub enum OpStatus {
    Started,
    Completed,
    /// Cancelled, failed, or the status could not be read.
    Failed,
}

/// What to do about a call into the Bluetooth stack.
#[derive(Clone, Copy, Debug, PartialEq, Eq, Structural)]
pub enum OpStep {
    /// Its result is there.
    TakeResult,
    /// Give up on it.
    GiveUp,
    /// Cancel it, so that it takes no more radio time, and give up on it.
    CancelAndGiveUp,
    /// Look again in a moment.
    Wait,
}

/// Whether to go on waiting for a call that began at `start`.
pub fn op_wait(status: OpStatus, start: u64, now: u64, timeout: u64) -> (r: OpStep)
    ensures
        r == match status {
            OpStatus::Completed => OpStep::TakeResult,
            OpStatus::Failed => OpStep::GiveUp,
            OpStatus::Started => if links::elapsed(start, now) >= timeout {
                OpStep::CancelAndGiveUp
            } else {
                OpStep::Wait
            },
        },
{
    match status {
        OpStatus::Completed => OpStep::TakeResult,
        OpStatus::Failed => OpStep::GiveUp,
        OpStatus::Started => if time_since(start, now) >= timeout {
            OpStep::CancelAndGiveUp
        } else {
            OpStep::Wait
        },
    }
}

/// Lets connection events through as refreshes, at most one per `KICK_GAP`.
pub struct RefreshGate {
    /// When an event was last let through.
    pub last: Option<u64>,
}

impl RefreshGate {
    pub fn new() -> (r: Self)
        ensures
            r.last is None,
    {
        RefreshGate { last: None }
    }

    /// Whether a connection event asks for a refresh.
    pub fn kick_refresh(&mut self, now: u64) -> (r: bool)
        ensures
            r == match old(self).last {
                Some(at) => links::elapsed(at, now) >= KICK_GAP,
                None => true,
            },
            final(self).last == if r {
                Some(now)
            } else {
                old(self).last
            },
    {
        let allow = match self.last {
            Some(at) => time_since(at, now) >= KICK_GAP,
            None => true,
        };
        if allow {
            self.last = Some(now);
        }
        allow
    }
}

/// The property of a characteristic that can push its value.
pub const NOTIFY_PROPERTY: u32 = 16;

/// Whether to subscribe to a device's battery: not yet subscribed, the service
/// and the characteristic are there, and the characteristic can push its value.
pub fn may_subscribe(subscribed: bool, services: u32, characteristics: u32, props: u32) -> (r: bool)
    ensures
        r == (!subscribed && services > 0 && characteristics > 0 && props & NOTIFY_PROPERTY != 0),
{
    !subscribed && services > 0 && characteristics > 0 && props & NOTIFY_PROPERTY != 0
}

// --------------------------------------------------------------------- laws

/// The row in a list of paired devices comes from one that was finished.
proof fn lemma_paired_row(
    chunks: Seq<Vec<LeInfo>>,
    classic: Seq<ClassicInfo>,
    notify: Map<Seq<char>, (u8, u64)>,
    hfp: Map<Seq<char>, u8>,
    now: u64,
    i: int,
) -> (j: int)
    requires
        0 <= i < paired_rows(chunks, classic, notify, hfp, now).len(),
    ensures
        0 <= j < with_classic(all_le_rows(chunks, notify, now), classic).len(),
        paired_rows(chunks, classic, notify, hfp, now)[i] == finished(
            with_classic(all_le_rows(chunks, notify, now), classic)[j],
            notify,
            hfp,
            now,
        ),
{
    let all = all_finished(
        with_classic(all_le_rows(chunks, notify, now), classic),
        notify,
        hfp,
        now,
    );
    order::lemma_in_order_from(
        all,
        all.map_values(|d: DeviceView| (d.connected, text::lowercase(d.name))),
        i,
    )
}

/// A row of a paired device that is not connected shows no battery, and none of
/// them reads "ok".
pub proof fn law_offline_devices_show_no_battery(
    chunks: Seq<Vec<LeInfo>>,
    classic: Seq<ClassicInfo>,
    notify: Map<Seq<char>, (u8, u64)>,
    hfp: Map<Seq<char>, u8>,
    now: u64,
    i: int,
)
    requires
        0 <= i < paired_rows(chunks, classic, notify, hfp, now).len(),
        !paired_rows(chunks, classic, notify, hfp, now)[i].connected,
    ensures
        paired_rows(chunks, classic, notify, hfp, now)[i].battery is None,
        paired_rows(chunks, classic, notify, hfp, now)[i].status != "ok"@,
{
    let _ = lemma_paired_row(chunks, classic, notify, hfp, now, i);
    reveal_strlit("ok");
    reveal_strlit("offline");
    assert("ok"@.len() != "offline"@.len());
}

/// A battery that was read is kept; one that a device pushed goes before the one
/// that the system holds.
pub proof fn law_battery_sources_in_order(
    d: DeviceView,
    notify: Map<Seq<char>, (u8, u64)>,
    hfp: Map<Seq<char>, u8>,
    now: u64,
)
    requires
        d.connected,
    ensures
        ({
            let pushed = pushed_battery(notify, d.address, now);
            let held = normalized(d.address);
            let r = finished(d, notify, hfp, now);
            &&& d.battery is Some ==> r == d
            &&& d.battery is None && pushed is Some ==> r.battery == pushed
            &&& d.battery is None && pushed is None && hfp.contains_key(held) ==> r.battery
                == Some(hfp[held])
            &&& d.battery is None && pushed is None && !hfp.contains_key(held) ==> r == d
        }),
{
}

/// The batteries that some devices told are percentages.
pub open spec fn told_percent(infos: Seq<LeInfo>) -> bool {
    forall|i: int| 0 <= i < infos.len() ==> model::is_percent((#[trigger] infos[i]).battery)
}

/// The batteries that devices pushed are percentages.
pub open spec fn pushed_percent(notify: Map<Seq<char>, (u8, u64)>) -> bool {
    forall|a: Seq<char>| #[trigger] notify.contains_key(a) ==> notify[a].0 <= 100
}

/// The batteries that the system holds are percentages.
pub open spec fn held_percent(hfp: Map<Seq<char>, u8>) -> bool {
    forall|a: Seq<char>| #[trigger] hfp.contains_key(a) ==> hfp[a] <= 100
}

proof fn lemma_le_rows_percent(infos: Seq<LeInfo>, notify: Map<Seq<char>, (u8, u64)>, now: u64)
    requires
        told_percent(infos),
        pushed_percent(notify),
    ensures
        model::all_percent(le_rows(infos, notify, now)),
    decreases infos.len(),
{
    if infos.len() > 0 {
        let t = infos.drop_last();
        assert forall|i: int| 0 <= i < t.len() implies model::is_percent(
            (#[trigger] t[i]).battery,
        ) by {
            assert(t[i] == infos[i]);
        }
        lemma_le_rows_percent(t, notify, now);
        assert(model::is_percent(infos[infos.len() - 1].battery));
        let before = le_rows(t, notify, now);
        let r = le_rows(infos, notify, now);
        assert forall|i: int| 0 <= i < r.len() implies model::is_percent(
            (#[trigger] r[i]).battery,
        ) by {
            if i < before.len() {
                assert(r[i] == before[i]);
            }
        }
    }
}

proof fn lemma_all_le_rows_percent(
    chunks: Seq<Vec<LeInfo>>,
    notify: Map<Seq<char>, (u8, u64)>,
    now: u64,
)
    requires
        forall|i: int| 0 <= i < chunks.len() ==> told_percent((#[trigger] chunks[i])@),
        pushed_percent(notify),
    ensures
        model::all_percent(all_le_rows(chunks, notify, now)),
    decreases chunks.len(),
{
    if chunks.len() > 0 {
        let t = chunks.drop_last();
        assert forall|i: int| 0 <= i < t.len() implies told_percent((#[trigger] t[i])@) by {
            assert(t[i] == chunks[i]);
        }
        lemma_all_le_rows_percent(t, notify, now);
        assert(told_percent(chunks[chunks.len() - 1]@));
        lemma_le_rows_percent(chunks.last()@, notify, now);
        let before = all_le_rows(t, notify, now);
        let added = le_rows(chunks.last()@, notify, now);
        let r = all_le_rows(chunks, notify, now);
        assert forall|i: int| 0 <= i < r.len() implies model::is_percent(
            (#[trigger] r[i]).battery,
        ) by {
            if i < before.len() {
                assert(r[i] == before[i]);
            } else {
                assert(r[i] == added[i - before.len()]);
            }
        }
    }
}

proof fn lemma_with_classic_percent(rows: Seq<DeviceView>, infos: Seq<ClassicInfo>)
    requires
        model::all_percent(rows),
    ensures
        model::all_percent(with_classic(rows, infos)),
    decreases infos.len(),
{
    if infos.len() > 0 {
        lemma_with_classic_percent(rows, infos.drop_last());
        let before = with_classic(rows, infos.drop_last());
        let r = with_classic(rows, infos);
        assert forall|i: int| 0 <= i < r.len() implies model::is_percent(
            (#[trigger] r[i]).battery,
        ) by {
            if i < before.len() {
                assert(r[i] == before[i]);
            }
        }
    }
}

/// Where every battery that was read, pushed or held is a percentage, so is the battery
/// of every row.
pub proof fn law_paired_rows_show_percentages(
    chunks: Seq<Vec<LeInfo>>,
    classic: Seq<ClassicInfo>,
    notify: Map<Seq<char>, (u8, u64)>,
    hfp: Map<Seq<char>, u8>,
    now: u64,
)
    requires
        forall|i: int| 0 <= i < chunks.len() ==> told_percent((#[trigger] chunks[i])@),
        pushed_percent(notify),
        held_percent(hfp),
    ensures
        model::all_percent(paired_rows(chunks, classic, notify, hfp, now)),
{
    let le = all_le_rows(chunks, notify, now);
    lemma_all_le_rows_percent(chunks, notify, now);
    lemma_with_classic_percent(le, classic);
    let r = paired_rows(chunks, classic, notify, hfp, now);
    assert forall|i: int| 0 <= i < r.len() implies model::is_percent((#[trigger] r[i]).battery) by {
        let j = lemma_paired_row(chunks, classic, notify, hfp, now, i);
        assert(model::is_percent(with_classic(le, classic)[j].battery));
    }
}

/// The batteries that are taken over from the system are percentages.
pub proof fn law_held_batteries_are_percentages(entries: Seq<HfpEntry>)
    ensures
        held_percent(hfp_batteries(entries)),
    decreases entries.len(),
{
    if entries.len() > 0 {
        law_held_batteries_are_percentages(entries.drop_last());
    }
}

/// No two LE rows of one worker have the same address.
pub proof fn law_le_rows_are_distinct(
    infos: Seq<LeInfo>,
    notify: Map<Seq<char>, (u8, u64)>,
    now: u64,
    i: int,
    j: int,
)
    requires
        0 <= i < j < le_rows(infos, notify, now).len(),
    ensures
        le_rows(infos, notify, now)[i].address != le_rows(infos, notify, now)[j].address,
    decreases infos.len(),
{
    if infos.len() > 0 {
        let t = infos.drop_last();
        let before = le_rows(t, notify, now);
        if j < before.len() {
            law_le_rows_are_distinct(t, notify, now, i, j);
        } else {
            lemma_le_rows_seen(t, notify, now, i);
        }
    }
}

proof fn lemma_le_rows_seen(
    infos: Seq<LeInfo>,
    notify: Map<Seq<char>, (u8, u64)>,
    now: u64,
    i: int,
)
    requires
        0 <= i < le_rows(infos, notify, now).len(),
    ensures
        le_seen(infos).contains(le_rows(infos, notify, now)[i].address),
    decreases infos.len(),
{
    if infos.len() > 0 {
        let t = infos.drop_last();
        let before = le_rows(t, notify, now);
        let a = bt_address(infos.last().address);
        let seen = le_seen(t);
        if i < before.len() {
            lemma_le_rows_seen(t, notify, now, i);
            let k = choose|k: int| 0 <= k < seen.len() && seen[k] == before[i].address;
            assert(le_seen(infos)[k] == before[i].address);
        } else {
            assert(le_seen(infos)[seen.len() as int] == a);
        }
    }
}

/// `c` is a digit as numbers are written with.
spec fn is_written_digit(c: char) -> bool {
    exists|d: int| 0 <= d < 16 && #[trigger] text::digit_char(d) == c
}

proof fn lemma_hex_made_of_digits(n: nat, width: nat)
    ensures
        text::hex(n, width).len() == width,
        forall|i: int| 0 <= i < width ==> is_written_digit(#[trigger] text::hex(n, width)[i]),
    decreases width,
{
    if width > 0 {
        let w = (width - 1) as nat;
        lemma_hex_made_of_digits(n / 16, w);
        let s = text::hex(n, width);
        let t = text::hex(n / 16, w);
        assert forall|i: int| 0 <= i < width implies is_written_digit(#[trigger] s[i]) by {
            if i < w {
                assert(s[i] == t[i]);
            } else {
                assert(text::digit_char((n % 16) as int) == s[i]);
            }
        }
    }
}

proof fn lemma_written_digits(s: Seq<char>)
    requires
        forall|i: int| 0 <= i < s.len() ==> is_written_digit(#[trigger] s[i]),
    ensures
        text::all_hex(s),
        text::ascii_upper(s) == s,
{
    assert forall|i: int| 0 <= i < s.len() implies text::is_hex_digit(#[trigger] s[i])
        && text::upper_char(s[i]) == s[i] by {
        assert(is_written_digit(s[i]));
    }
    assert(text::ascii_upper(s) =~= s);
}

proof fn lemma_filter_punctuated(s: Seq<char>)
    requires
        text::all_hex(s),
    ensures
        punctuated(s).filter(|c: char| text::is_hex_digit(c)) == s,
    decreases s.len(),
{
    let f = |c: char| text::is_hex_digit(c);
    if s.len() <= 2 {
        lemma_filter_all_hex(s);
    } else {
        reveal_strlit(":");
        let a = s.take(2);
        let b = s.skip(2);
        assert forall|i: int| 0 <= i < a.len() implies text::is_hex_digit(#[trigger] a[i]) by {
            assert(text::is_hex_digit(s[i]));
        }
        assert forall|i: int| 0 <= i < b.len() implies text::is_hex_digit(#[trigger] b[i]) by {
            assert(text::is_hex_digit(s[i + 2]));
        }
        lemma_filter_all_hex(a);
        lemma_filter_punctuated(b);
        Seq::filter_distributes_over_add(a + ":"@, punctuated(b), f);
        Seq::filter_distributes_over_add(a, ":"@, f);
        assert(":"@.filter(f) =~= Seq::empty()) by {
            reveal_with_fuel(Seq::filter, 2);
            assert(":"@.drop_last() =~= Seq::empty());
        }
        assert(a + Seq::<char>::empty() + b =~= s);
    }
}

proof fn lemma_filter_all_hex(s: Seq<char>)
    requires
        text::all_hex(s),
    ensures
        s.filter(|c: char| text::is_hex_digit(c)) == s,
    decreases s.len(),
{
    reveal(Seq::filter);
    if s.len() > 0 {
        let t = s.drop_last();
        assert forall|i: int| 0 <= i < t.len() implies text::is_hex_digit(#[trigger] t[i]) by {
            assert(text::is_hex_digit(s[i]));
        }
        lemma_filter_all_hex(t);
        assert(text::is_hex_digit(s[s.len() - 1]));
        assert(t.push(s.last()) =~= s);
    }
}

/// The digits of a formatted address are those of the number it was made from.
pub proof fn law_address_keeps_its_digits(addr: u64)
    ensures
        normalized(bt_address(addr)) == text::hex((addr % 0x1_0000_0000_0000) as nat, 12),
{
    let s = text::hex((addr % 0x1_0000_0000_0000) as nat, 12);
    lemma_hex_made_of_digits((addr % 0x1_0000_0000_0000) as nat, 12);
    lemma_written_digits(s);
    lemma_filter_punctuated(s);
}

/// An address that was seen is that of some device.
proof fn lemma_le_seen_from(infos: Seq<LeInfo>, a: Seq<char>) -> (j: int)
    requires
        le_seen(infos).contains(a),
    ensures
        0 <= j < infos.len(),
        bt_address(infos[j].address) == a,
    decreases infos.len(),
{
    let t = infos.drop_last();
    if bt_address(infos.last().address) == a {
        infos.len() - 1
    } else {
        let before = le_seen(t);
        let k = choose|k: int| 0 <= k < le_seen(infos).len() && le_seen(infos)[k] == a;
        assert(before[k] == a);
        let j = lemma_le_seen_from(t, a);
        assert(t[j] == infos[j]);
        j
    }
}

/// An LE device whose link could be read has a row, unless the link of an earlier one
/// with its address could not be read.
proof fn lemma_le_row_there(
    infos: Seq<LeInfo>,
    notify: Map<Seq<char>, (u8, u64)>,
    now: u64,
    j: int,
) -> (i: int)
    requires
        0 <= j < infos.len(),
        infos[j].connected is Some,
        forall|k: int|
            0 <= k < j && bt_address((#[trigger] infos[k]).address) == bt_address(infos[j].address)
                ==> infos[k].connected is Some,
    ensures
        0 <= i < le_rows(infos, notify, now).len(),
        le_rows(infos, notify, now)[i].address == bt_address(infos[j].address),
    decreases infos.len(),
{
    let t = infos.drop_last();
    let before = le_rows(t, notify, now);
    if j < t.len() {
        assert(t[j] == infos[j]);
        assert forall|k: int|
            0 <= k < j && bt_address((#[trigger] t[k]).address) == bt_address(
                t[j].address,
            ) implies t[k].connected is Some by {
            assert(t[k] == infos[k]);
        }
        let i = lemma_le_row_there(t, notify, now, j);
        assert(le_rows(infos, notify, now)[i] == before[i]);
        i
    } else {
        let a = bt_address(infos[j].address);
        if le_seen(t).contains(a) {
            let k = lemma_le_seen_from(t, a);
            assert(t[k] == infos[k]);
            assert forall|q: int|
                0 <= q < k && bt_address((#[trigger] t[q]).address) == bt_address(
                    t[k].address,
                ) implies t[q].connected is Some by {
                assert(t[q] == infos[q]);
            }
            let i = lemma_le_row_there(t, notify, now, k);
            assert(le_rows(infos, notify, now) == before);
            i
        } else {
            before.len() as int
        }
    }
}

/// The rows of each worker's devices are among all rows.
proof fn lemma_all_le_rows_have(
    chunks: Seq<Vec<LeInfo>>,
    notify: Map<Seq<char>, (u8, u64)>,
    now: u64,
    c: int,
    q: int,
) -> (i: int)
    requires
        0 <= c < chunks.len(),
        0 <= q < le_rows(chunks[c]@, notify, now).len(),
    ensures
        0 <= i < all_le_rows(chunks, notify, now).len(),
        all_le_rows(chunks, notify, now)[i] == le_rows(chunks[c]@, notify, now)[q],
    decreases chunks.len(),
{
    let t = chunks.drop_last();
    let before = all_le_rows(t, notify, now);
    if c < t.len() {
        assert(t[c] == chunks[c]);
        let i = lemma_all_le_rows_have(t, notify, now, c, q);
        assert(all_le_rows(chunks, notify, now)[i] == before[i]);
        i
    } else {
        before.len() + q
    }
}

/// Rows stay in front of those of classic devices.
proof fn lemma_with_classic_keeps(rows: Seq<DeviceView>, infos: Seq<ClassicInfo>, i: int)
    requires
        0 <= i < rows.len(),
    ensures
        i < with_classic(rows, infos).len(),
        with_classic(rows, infos)[i] == rows[i],
    decreases infos.len(),
{
    if infos.len() > 0 {
        lemma_with_classic_keeps(rows, infos.drop_last(), i);
    }
}

/// An address that was seen is that of a row or of a classic device.
proof fn lemma_classic_seen_from(rows: Seq<DeviceView>, infos: Seq<ClassicInfo>, a: Seq<char>)
    requires
        classic_seen(rows, infos).contains(a),
    ensures
        (exists|i: int| 0 <= i < rows.len() && (#[trigger] rows[i]).address == a) || (exists|j: int|
            0 <= j < infos.len() && bt_address((#[trigger] infos[j]).address) == a),
    decreases infos.len(),
{
    let seen = classic_seen(rows, infos);
    let k = choose|k: int| 0 <= k < seen.len() && seen[k] == a;
    if infos.len() == 0 {
        assert(rows[k].address == a);
    } else {
        let t = infos.drop_last();
        if bt_address(infos.last().address) == a {
            assert(bt_address(infos[infos.len() - 1].address) == a);
        } else {
            assert(classic_seen(rows, t)[k] == a);
            lemma_classic_seen_from(rows, t, a);
            if exists|j: int| 0 <= j < t.len() && bt_address((#[trigger] t[j]).address) == a {
                let j = choose|j: int|
                    0 <= j < t.len() && bt_address((#[trigger] t[j]).address) == a;
                assert(bt_address(infos[j].address) == a);
            }
        }
    }
}

/// A classic device whose link could be read has a row, unless the link of an earlier one
/// with its address could not be read.
proof fn lemma_classic_row_there(rows: Seq<DeviceView>, infos: Seq<ClassicInfo>, j: int) -> (i: int)
    requires
        0 <= j < infos.len(),
        infos[j].connected is Some,
        forall|k: int|
            0 <= k < j && bt_address((#[trigger] infos[k]).address) == bt_address(infos[j].address)
                ==> infos[k].connected is Some,
    ensures
        0 <= i < with_classic(rows, infos).len(),
        with_classic(rows, infos)[i].address == bt_address(infos[j].address),
    decreases infos.len(),
{
    let t = infos.drop_last();
    let before = with_classic(rows, t);
    if j < t.len() {
        assert(t[j] == infos[j]);
        assert forall|k: int|
            0 <= k < j && bt_address((#[trigger] t[k]).address) == bt_address(
                t[j].address,
            ) implies t[k].connected is Some by {
            assert(t[k] == infos[k]);
        }
        let i = lemma_classic_row_there(rows, t, j);
        assert(with_classic(rows, infos)[i] == before[i]);
        i
    } else {
        let a = bt_address(infos[j].address);
        if classic_seen(rows, t).contains(a) {
            lemma_classic_seen_from(rows, t, a);
            assert(with_classic(rows, infos) == before);
            if exists|i: int| 0 <= i < rows.len() && (#[trigger] rows[i]).address == a {
                let i = choose|i: int| 0 <= i < rows.len() && (#[trigger] rows[i]).address == a;
                lemma_with_classic_keeps(rows, t, i);
                i
            } else {
                let k = choose|k: int|
                    0 <= k < t.len() && bt_address((#[trigger] t[k]).address) == a;
                assert(t[k] == infos[k]);
                assert forall|q: int|
                    0 <= q < k && bt_address((#[trigger] t[q]).address) == bt_address(
                        t[k].address,
                    ) implies t[q].connected is Some by {
                    assert(t[q] == infos[q]);
                }
                lemma_classic_row_there(rows, t, k)
            }
        } else {
            before.len() as int
        }
    }
}

/// A row that was finished is in the list.
proof fn lemma_paired_row_there(
    chunks: Seq<Vec<LeInfo>>,
    classic: Seq<ClassicInfo>,
    notify: Map<Seq<char>, (u8, u64)>,
    hfp: Map<Seq<char>, u8>,
    now: u64,
    j: int,
) -> (i: int)
    requires
        0 <= j < with_classic(all_le_rows(chunks, notify, now), classic).len(),
    ensures
        0 <= i < paired_rows(chunks, classic, notify, hfp, now).len(),
        paired_rows(chunks, classic, notify, hfp, now)[i] == finished(
            with_classic(all_le_rows(chunks, notify, now), classic)[j],
            notify,
            hfp,
            now,
        ),
{
    let all = all_finished(
        with_classic(all_le_rows(chunks, notify, now), classic),
        notify,
        hfp,
        now,
    );
    order::lemma_in_order_has(
        all,
        all.map_values(|d: DeviceView| (d.connected, text::lowercase(d.name))),
        j,
    )
}

/// No paired LE device is lost: each whose link could be read has a row with its address,
/// whatever else is paired. (Of devices with one address that one worker asks, the first
/// one counts, even if its link could not be read.)
pub proof fn law_every_le_device_has_a_row(
    chunks: Seq<Vec<LeInfo>>,
    classic: Seq<ClassicInfo>,
    notify: Map<Seq<char>, (u8, u64)>,
    hfp: Map<Seq<char>, u8>,
    now: u64,
    c: int,
    j: int,
)
    requires
        0 <= c < chunks.len(),
        0 <= j < chunks[c]@.len(),
        chunks[c]@[j].connected is Some,
        forall|k: int|
            0 <= k < j && bt_address((#[trigger] chunks[c]@[k]).address) == bt_address(
                chunks[c]@[j].address,
            ) ==> chunks[c]@[k].connected is Some,
    ensures
        exists|i: int|
            0 <= i < paired_rows(chunks, classic, notify, hfp, now).len() && (
            #[trigger] paired_rows(chunks, classic, notify, hfp, now)[i]).address == bt_address(
                chunks[c]@[j].address,
            ),
{
    let q = lemma_le_row_there(chunks[c]@, notify, now, j);
    let a = lemma_all_le_rows_have(chunks, notify, now, c, q);
    lemma_with_classic_keeps(all_le_rows(chunks, notify, now), classic, a);
    let i = lemma_paired_row_there(chunks, classic, notify, hfp, now, a);
    assert(paired_rows(chunks, classic, notify, hfp, now)[i].address == bt_address(
        chunks[c]@[j].address,
    ));
}

/// No paired classic device is lost: each whose link could be read has a row with its
/// address, whatever else is paired. (Of classic devices with one address the first one
/// counts, even if its link could not be read.)
pub proof fn law_every_classic_device_has_a_row(
    chunks: Seq<Vec<LeInfo>>,
    classic: Seq<ClassicInfo>,
    notify: Map<Seq<char>, (u8, u64)>,
    hfp: Map<Seq<char>, u8>,
    now: u64,
    j: int,
)
    requires
        0 <= j < classic.len(),
        classic[j].connected is Some,
        forall|k: int|
            0 <= k < j && bt_address((#[trigger] classic[k]).address) == bt_address(
                classic[j].address,
            ) ==> classic[k].connected is Some,
    ensures
        exists|i: int|
            0 <= i < paired_rows(chunks, classic, notify, hfp, now).len() && (
            #[trigger] paired_rows(chunks, classic, notify, hfp, now)[i]).address == bt_address(
                classic[j].address,
            ),
{
    let a = lemma_classic_row_there(all_le_rows(chunks, notify, now), classic, j);
    let i = lemma_paired_row_there(chunks, classic, notify, hfp, now, a);
    assert(paired_rows(chunks, classic, notify, hfp, now)[i].address == bt_address(
        classic[j].address,
    ));
}

proof fn lemma_le_row_from(
    infos: Seq<LeInfo>,
    notify: Map<Seq<char>, (u8, u64)>,
    now: u64,
    i: int,
) -> (j: int)
    requires
        0 <= i < le_rows(infos, notify, now).len(),
    ensures
        0 <= j < infos.len(),
        infos[j].connected is Some,
        le_rows(infos, notify, now)[i] == le_row(infos[j], infos[j].connected->0, notify, now),
    decreases infos.len(),
{
    let t = infos.drop_last();
    let before = le_rows(t, notify, now);
    if i < before.len() {
        let j = lemma_le_row_from(t, notify, now, i);
        assert(t[j] == infos[j]);
        j
    } else {
        infos.len() - 1
    }
}

proof fn lemma_all_le_rows_from(
    chunks: Seq<Vec<LeInfo>>,
    notify: Map<Seq<char>, (u8, u64)>,
    now: u64,
    i: int,
) -> (r: (int, int))
    requires
        0 <= i < all_le_rows(chunks, notify, now).len(),
    ensures
        0 <= r.0 < chunks.len(),
        0 <= r.1 < chunks[r.0]@.len(),
        chunks[r.0]@[r.1].connected is Some,
        all_le_rows(chunks, notify, now)[i] == le_row(
            chunks[r.0]@[r.1],
            chunks[r.0]@[r.1].connected->0,
            notify,
            now,
        ),
    decreases chunks.len(),
{
    let t = chunks.drop_last();
    let before = all_le_rows(t, notify, now);
    if i < before.len() {
        let r = lemma_all_le_rows_from(t, notify, now, i);
        assert(t[r.0] == chunks[r.0]);
        r
    } else {
        let j = lemma_le_row_from(chunks.last()@, notify, now, i - before.len());
        (chunks.len() - 1, j)
    }
}

proof fn lemma_with_classic_from(rows: Seq<DeviceView>, infos: Seq<ClassicInfo>, i: int) -> (j: int)
    requires
        rows.len() <= i < with_classic(rows, infos).len(),
    ensures
        0 <= j < infos.len(),
        infos[j].connected is Some,
        with_classic(rows, infos)[i] == classic_row(infos[j], infos[j].connected->0),
    decreases infos.len(),
{
    let t = infos.drop_last();
    let before = with_classic(rows, t);
    if i < before.len() {
        let j = lemma_with_classic_from(rows, t, i);
        assert(t[j] == infos[j]);
        j
    } else {
        infos.len() - 1
    }
}

/// The battery that is known of a device without asking it: the one that it pushed less
/// than half an hour ago, or else the one that the system holds of its address.
pub open spec fn known_battery(
    address: Seq<char>,
    notify: Map<Seq<char>, (u8, u64)>,
    hfp: Map<Seq<char>, u8>,
    now: u64,
) -> Option<u8> {
    if notify.contains_key(address) && now < notify[address].1 + 1_800_000_000_000 {
        Some(notify[address].0)
    } else if hfp.contains_key(normalized(address)) {
        Some(hfp[normalized(address)])
    } else {
        None
    }
}

/// A row says what an LE device told: where it is, whether it is connected, its name, and
/// its battery if it is.
pub open spec fn says_le(
    r: DeviceView,
    d: LeInfo,
    notify: Map<Seq<char>, (u8, u64)>,
    hfp: Map<Seq<char>, u8>,
    now: u64,
) -> bool {
    &&& r.is_le && r.address == bt_address(d.address)
    &&& d.connected == Some(r.connected)
    &&& r.name == picked_name(text_of(d.info_name), text_of(d.dev_name))
    &&& r.kind == kind_of(text::lowercase(r.name))
    &&& r.connected && d.battery is Some ==> r.battery == d.battery
    &&& r.connected && d.battery is None ==> r.battery == known_battery(r.address, notify, hfp, now)
}

/// A row says what a classic device told, and shows the battery that is known of it if
/// it is connected.
pub open spec fn says_classic(
    r: DeviceView,
    d: ClassicInfo,
    notify: Map<Seq<char>, (u8, u64)>,
    hfp: Map<Seq<char>, u8>,
    now: u64,
) -> bool {
    &&& !r.is_le && r.address == bt_address(d.address)
    &&& d.connected == Some(r.connected)
    &&& r.name == picked_name(text_of(d.info_name), text_of(d.dev_name))
    &&& r.kind == kind_of(text::lowercase(r.name))
    &&& r.connected ==> r.battery == known_battery(r.address, notify, hfp, now)
}

/// Every row says what some paired device told. A connected device shows the battery that
/// was read from it; without one, the battery that it pushed less than half an hour ago;
/// and without that, the one that the system holds of its address. Its row reads "ok" if
/// it shows a battery and "no-battery" if not. A device that is not connected shows none,
/// and reads "offline".
pub proof fn law_rows_say_what_devices_told(
    chunks: Seq<Vec<LeInfo>>,
    classic: Seq<ClassicInfo>,
    notify: Map<Seq<char>, (u8, u64)>,
    hfp: Map<Seq<char>, u8>,
    now: u64,
    i: int,
)
    requires
        0 <= i < paired_rows(chunks, classic, notify, hfp, now).len(),
    ensures
        ({
            let r = paired_rows(chunks, classic, notify, hfp, now)[i];
            &&& r.is_le ==> exists|c: int, j: int|
                0 <= c < chunks.len() && 0 <= j < chunks[c]@.len() && says_le(
                    r,
                    #[trigger] chunks[c]@[j],
                    notify,
                    hfp,
                    now,
                )
            &&& !r.is_le ==> exists|j: int|
                0 <= j < classic.len() && says_classic(r, #[trigger] classic[j], notify, hfp, now)
            &&& !r.connected ==> r.battery is None && r.status == "offline"@
            &&& r.connected && r.battery is Some ==> r.status == "ok"@
            &&& r.connected && r.battery is None ==> r.status == "no-battery"@
        }),
{
    reveal_strlit("ok");
    reveal_strlit("offline");
    reveal_strlit("no-battery");
    assert("ok"@.len() != "offline"@.len());
    let le = all_le_rows(chunks, notify, now);
    let k = lemma_paired_row(chunks, classic, notify, hfp, now, i);
    let r = paired_rows(chunks, classic, notify, hfp, now)[i];
    if k < le.len() {
        lemma_with_classic_keeps(le, classic, k);
        let (c, j) = lemma_all_le_rows_from(chunks, notify, now, k);
        assert(says_le(r, chunks[c]@[j], notify, hfp, now));
    } else {
        let j = lemma_with_classic_from(le, classic, k);
        assert(says_classic(r, classic[j], notify, hfp, now));
    }
}

/// A classic device gets no row where its address has one.
pub proof fn law_classic_rows_are_new(
    rows: Seq<DeviceView>,
    infos: Seq<ClassicInfo>,
    i: int,
    j: int,
)
    requires
        0 <= i < j < with_classic(rows, infos).len(),
        rows.len() <= j,
    ensures
        with_classic(rows, infos)[i].address != with_classic(rows, infos)[j].address,
    decreases infos.len(),
{
    if infos.len() > 0 {
        let t = infos.drop_last();
        let before = with_classic(rows, t);
        if j < before.len() {
            law_classic_rows_are_new(rows, t, i, j);
        } else {
            lemma_with_classic_seen(rows, t, i);
        }
    }
}

proof fn lemma_with_classic_seen(rows: Seq<DeviceView>, infos: Seq<ClassicInfo>, i: int)
    requires
        0 <= i < with_classic(rows, infos).len(),
    ensures
        classic_seen(rows, infos).contains(with_classic(rows, infos)[i].address),
    decreases infos.len(),
{
    let seen = classic_seen(rows, infos);
    if infos.len() == 0 {
        assert(seen[i] == rows[i].address);
    } else {
        let t = infos.drop_last();
        let before = with_classic(rows, t);
        let old_seen = classic_seen(rows, t);
        if i < before.len() {
            lemma_with_classic_seen(rows, t, i);
            let k = choose|k: int| 0 <= k < old_seen.len() && old_seen[k] == before[i].address;
            assert(seen[k] == before[i].address);
        } else {
            assert(seen[old_seen.len() as int] == bt_address(infos.last().address));
        }
    }
}

/// The list of paired devices has the connected ones first, and by name among those
/// alike in this.
pub proof fn law_connected_paired_devices_come_first(
    chunks: Seq<Vec<LeInfo>>,
    classic: Seq<ClassicInfo>,
    notify: Map<Seq<char>, (u8, u64)>,
    hfp: Map<Seq<char>, u8>,
    now: u64,
    i: int,
    j: int,
)
    requires
        0 <= i < j < paired_rows(chunks, classic, notify, hfp, now).len(),
    ensures
        ({
            let r = paired_rows(chunks, classic, notify, hfp, now);
            &&& r[j].connected ==> r[i].connected
            &&& r[i].connected == r[j].connected ==> !order::text_lt(
                text::lowercase(r[j].name),
                text::lowercase(r[i].name),
            )
        }),
{
    model::law_connected_rows_come_first(
        all_finished(with_classic(all_le_rows(chunks, notify, now), classic), notify, hfp, now),
        i,
        j,
    );
}

/// A device is called what the system lists it as, unless that is blank or missing; then
/// it is called what it calls itself.
pub proof fn law_names_prefer_the_list(info: Option<Seq<char>>, dev: Option<Seq<char>>)
    ensures
        info matches Some(n) && text::trimmed(n).len() > 0 ==> picked_name(info, dev) == info->0,
        !(info matches Some(n) && text::trimmed(n).len() > 0) && dev is Some ==> picked_name(
            info,
            dev,
        ) == dev->0,
{
}

/// What a name says of a device: a keyboard whatever else it says; otherwise a mouse,
/// and so on down to trackpads. A name that says nothing leaves it unknown.
pub proof fn law_names_tell_kinds(n: Seq<char>)
    ensures
        ({
            let keyboard = text::contains(n, "keyboard"@) || text::starts_with(n, "k3"@)
                || text::starts_with(n, "k7"@) || text::starts_with(n, "k8"@);
            let mouse = text::contains(n, "mouse"@) || text::contains(n, "mx "@)
                || text::contains(n, "g502"@) || text::contains(n, "g102"@) || text::contains(
                n,
                "viper"@,
            ) || text::contains(n, "tail"@) || text::contains(n, "m720"@);
            &&& keyboard <==> kind_of(n) == "Keyboard"@
            &&& !keyboard && mouse <==> kind_of(n) == "Mouse"@
            &&& !keyboard && !mouse && (text::contains(n, "headset"@) || text::contains(
                n,
                "headphone"@,
            ) || text::contains(n, "earbud"@) || text::contains(n, "airpods"@)) ==> kind_of(n)
                == "Headset"@
            &&& kind_of(n) == "Unknown"@ ==> !text::contains(n, "gamepad"@) && !text::contains(
                n,
                "xbox"@,
            ) && !text::contains(n, "controller"@) && !text::contains(n, "pen"@)
                && !text::contains(n, "trackpad"@) && !text::contains(n, "touchpad"@)
                && !text::contains(n, "headset"@) && !text::contains(n, "sony"@)
        }),
{
    reveal_strlit("Keyboard");
    reveal_strlit("Mouse");
    reveal_strlit("Headset");
    reveal_strlit("Gamepad");
    reveal_strlit("Pen");
    reveal_strlit("Trackpad");
    reveal_strlit("Unknown");
    assert("Headset"@[0] == 'H' && "Gamepad"@[0] == 'G' && "Unknown"@[0] == 'U');
    assert("Keyboard"@[0] == 'K' && "Mouse"@[0] == 'M' && "Pen"@[0] == 'P' && "Trackpad"@[0]
        == 'T');
    let mice = seq!["mouse"@, "mx "@, "g502"@, "g102"@, "viper"@, "tail"@, "m720"@];
    assert(mice[0] == "mouse"@ && mice[1] == "mx "@ && mice[2] == "g502"@ && mice[3] == "g102"@
        && mice[4] == "viper"@ && mice[5] == "tail"@ && mice[6] == "m720"@);
    if holds_one(n, mice) {
        let i = choose|i: int| 0 <= i < mice.len() && text::contains(n, #[trigger] mice[i]);
        assert(0 <= i < 7);
    }
    let ears = seq![
        "headset"@,
        "headphone"@,
        "earbud"@,
        "buds"@,
        "airpods"@,
        "w820"@,
        "w800"@,
        "pilot"@,
        "wh-1000"@,
        "xm5"@,
        "xm4"@,
        "sony"@,
    ];
    assert(ears[0] == "headset"@ && ears[1] == "headphone"@ && ears[2] == "earbud"@ && ears[4]
        == "airpods"@ && ears[11] == "sony"@);
    let pads = seq![
        "controller"@,
        "gamepad"@,
        "dualsense"@,
        "dualshock"@,
        "ps5"@,
        "xbox"@,
        "switch"@,
    ];
    assert(pads[0] == "controller"@ && pads[1] == "gamepad"@ && pads[5] == "xbox"@);
    let pens = seq!["pen"@, "stylus"@, "surface"@];
    assert(pens[0] == "pen"@);
    let tracks = seq!["trackpad"@, "touchpad"@];
    assert(tracks[0] == "trackpad"@ && tracks[1] == "touchpad"@);
}

/// What the system holds of a device is taken over: an entry whose property holds a
/// percentage and whose instance has an address gives the battery of that address, unless
/// a later entry gives it anew.
pub proof fn law_held_batteries_are_taken_over(entries: Seq<HfpEntry>, i: int, a: Seq<char>)
    requires
        0 <= i < entries.len(),
        entries[i].is_byte,
        entries[i].value <= 100,
        instance_address(wide::decoded(wide::until_nul(entries[i].instance@))) == Some(a),
        forall|j: int|
            i < j < entries.len() ==> {
                let e = #[trigger] entries[j];
                instance_address(wide::decoded(wide::until_nul(e.instance@))) matches Some(b)
                    ==> normalized(b) != normalized(a)
            },
    ensures
        hfp_batteries(entries).contains_key(normalized(a)),
        hfp_batteries(entries)[normalized(a)] == entries[i].value,
    decreases entries.len(),
{
    let t = entries.drop_last();
    if i < t.len() {
        assert(t[i] == entries[i]);
        assert forall|j: int| i < j < t.len() implies {
            let e = #[trigger] t[j];
            instance_address(wide::decoded(wide::until_nul(e.instance@))) matches Some(b)
                ==> normalized(b) != normalized(a)
        } by {
            assert(t[j] == entries[j]);
        }
        law_held_batteries_are_taken_over(t, i, a);
        assert(entries[entries.len() - 1] == entries.last());
    }
}

/// Twelve digits get a colon after every second one.
pub proof fn law_addresses_have_six_pairs(s: Seq<char>)
    requires
        s.len() == 12,
    ensures
        punctuated(s).len() == 17,
        punctuated(s)[2] == ':' && punctuated(s)[5] == ':' && punctuated(s)[8] == ':' && punctuated(
            s,
        )[11] == ':' && punctuated(s)[14] == ':',
        forall|k: int| 0 <= k < 6 ==> (#[trigger] punctuated(s).subrange(3 * k, 3 * k + 2))
            == s.subrange(2 * k, 2 * k + 2),
{
    reveal_strlit(":");
    reveal_with_fuel(punctuated, 6);
    let p = punctuated(s);
    let s1 = s.skip(2);
    let s2 = s1.skip(2);
    let s3 = s2.skip(2);
    let s4 = s3.skip(2);
    let s5 = s4.skip(2);
    assert(p =~= s.take(2) + ":"@ + (s1.take(2) + ":"@ + (s2.take(2) + ":"@ + (s3.take(2) + ":"@ + (
    s4.take(2) + ":"@ + s5)))));
    assert forall|k: int| 0 <= k < 6 implies (#[trigger] p.subrange(3 * k, 3 * k + 2))
        == s.subrange(2 * k, 2 * k + 2) by {
        assert(p.subrange(3 * k, 3 * k + 2) =~= s.subrange(2 * k, 2 * k + 2)) by {
            if k == 0 {
            } else if k == 1 {
            } else if k == 2 {
            } else if k == 3 {
            } else if k == 4 {
            } else {
            }
        }
    }
}

/// The address in an instance id stands there: its twelve digits follow the first `DEV_`,
/// or else stand before the first `_C000`, colons aside.
pub proof fn law_instance_address_stands_in_id(id: Seq<char>, i: int)
    ensures
        ({
            let up = text::without(text::ascii_upper(id), ":"@);
            &&& instance_address(id) matches Some(a) ==> exists|k: int|
                0 <= k && k + 12 <= up.len() && text::all_hex(#[trigger] up.subrange(k, k + 12))
                    && a == punctuated(up.subrange(k, k + 12))
            &&& text::find(up, "DEV_"@) == Some(i) && !text::contains(up.skip(i + 4), "DEV_"@)
                && up.len() >= i + 16 && text::all_hex(up.subrange(i + 4, i + 16))
                ==> instance_address(id) == Some(punctuated(up.subrange(i + 4, i + 16)))
            &&& text::find(up, "DEV_"@) is None && text::find(up, "_C000"@) == Some(i) && i >= 12
                && text::all_hex(up.subrange(i - 12, i)) ==> instance_address(id) == Some(
                punctuated(up.subrange(i - 12, i)),
            )
        }),
{
    reveal_strlit("DEV_");
    reveal_strlit("_C000");
    let up = text::without(text::ascii_upper(id), ":"@);
    reveal_with_fuel(text::piece, 2);
    if text::find(up, "DEV_"@) is Some {
        let j = text::find(up, "DEV_"@)->0;
        text::lemma_find_bounds(up, "DEV_"@);
        let rest = up.skip(j + 4);
        if text::find(rest, "DEV_"@) is Some {
            text::lemma_find_bounds(rest, "DEV_"@);
        }
        let p = text::piece(up, "DEV_"@, 1)->0;
        if p.len() >= 12 {
            let k = j + 4;
            assert(p.take(12) =~= up.subrange(k, k + 12));
            assert(up.subrange(k, k + 12) =~= up.subrange(j + 4, j + 16));
        }
    } else {
        assert(dev_digits(up) is None);
    }
    if text::find(up, "_C000"@) is Some {
        text::lemma_find_bounds(up, "_C000"@);
        let k = text::find(up, "_C000"@)->0;
        if k >= 12 {
            let q = k - 12;
            assert(up.subrange(q, q + 12) =~= up.subrange(k - 12, k));
        }
    }
}

/// There are never more workers than items, nor more than wished, but one at least while
/// there is work; and no fewer than both allow.
pub proof fn law_workers_have_work(items: nat, workers: usize)
    ensures
        worker_count(items, workers) <= items,
        items > 0 ==> worker_count(items, workers) >= 1,
        workers >= 1 ==> worker_count(items, workers) <= workers,
        worker_count(items, workers) == items || worker_count(items, workers) == workers || workers
            == 0,
        workers == 0 && items > 0 ==> worker_count(items, workers) == 1,
{
}

/// A name holds one of the words for a headset.
pub open spec fn says_headset(n: Seq<char>) -> bool {
    text::contains(n, "headset"@) ||
        text::contains(n, "headphone"@) ||
        text::contains(n, "earbud"@) ||
        text::contains(n, "buds"@) ||
        text::contains(n, "airpods"@) ||
        text::contains(n, "w820"@) ||
        text::contains(n, "w800"@) ||
        text::contains(n, "pilot"@) ||
        text::contains(n, "wh-1000"@) ||
        text::contains(n, "xm5"@) ||
        text::contains(n, "xm4"@) ||
        text::contains(n, "sony"@)
}

proof fn lemma_says_headset(n: Seq<char>)
    ensures
        says_headset(n) <==> holds_one(
            n,
            seq!["headset"@, "headphone"@, "earbud"@, "buds"@, "airpods"@, "w820"@, "w800"@, "pilot"@, "wh-1000"@, "xm5"@, "xm4"@, "sony"@],
        ),
{
    let w = seq!["headset"@, "headphone"@, "earbud"@, "buds"@, "airpods"@, "w820"@, "w800"@, "pilot"@, "wh-1000"@, "xm5"@, "xm4"@, "sony"@];
    assert(w[0] == "headset"@ && w[1] == "headphone"@ && w[2] == "earbud"@ && w[3] == "buds"@ && w[4] == "airpods"@ && w[5] == "w820"@ && w[6] == "w800"@ && w[7] == "pilot"@ && w[8] == "wh-1000"@ && w[9] == "xm5"@ && w[10] == "xm4"@ && w[11] == "sony"@);
    if holds_one(n, w) {
        let i = choose|i: int| 0 <= i < w.len() && text::contains(n, #[trigger] w[i]);
        assert(0 <= i < 12);
    }
}

/// A name holds one of the words for a gamepad.
pub open spec fn says_gamepad(n: Seq<char>) -> bool {
    text::contains(n, "controller"@) ||
        text::contains(n, "gamepad"@) ||
        text::contains(n, "dualsense"@) ||
        text::contains(n, "dualshock"@) ||
        text::contains(n, "ps5"@) ||
        text::contains(n, "xbox"@) ||
        text::contains(n, "switch"@)
}

proof fn lemma_says_gamepad(n: Seq<char>)
    ensures
        says_gamepad(n) <==> holds_one(
            n,
            seq!["controller"@, "gamepad"@, "dualsense"@, "dualshock"@, "ps5"@, "xbox"@, "switch"@],
        ),
{
    let w = seq!["controller"@, "gamepad"@, "dualsense"@, "dualshock"@, "ps5"@, "xbox"@, "switch"@];
    assert(w[0] == "controller"@ && w[1] == "gamepad"@ && w[2] == "dualsense"@ && w[3] == "dualshock"@ && w[4] == "ps5"@ && w[5] == "xbox"@ && w[6] == "switch"@);
    if holds_one(n, w) {
        let i = choose|i: int| 0 <= i < w.len() && text::contains(n, #[trigger] w[i]);
        assert(0 <= i < 7);
    }
}

/// A name holds one of the words for a pen.
pub open spec fn says_pen(n: Seq<char>) -> bool {
    text::contains(n, "pen"@) ||
        text::contains(n, "stylus"@) ||
        text::contains(n, "surface"@)
}

proof fn lemma_says_pen(n: Seq<char>)
    ensures
        says_pen(n) <==> holds_one(
            n,
            seq!["pen"@, "stylus"@, "surface"@],
        ),
{
    let w = seq!["pen"@, "stylus"@, "surface"@];
    assert(w[0] == "pen"@ && w[1] == "stylus"@ && w[2] == "surface"@);
    if holds_one(n, w) {
        let i = choose|i: int| 0 <= i < w.len() && text::contains(n, #[trigger] w[i]);
        assert(0 <= i < 3);
    }
}

/// A name holds one of the words for a trackpad.
pub open spec fn says_trackpad(n: Seq<char>) -> bool {
    text::contains(n, "trackpad"@) ||
        text::contains(n, "touchpad"@)
}

proof fn lemma_says_trackpad(n: Seq<char>)
    ensures
        says_trackpad(n) <==> holds_one(
            n,
            seq!["trackpad"@, "touchpad"@],
        ),
{
    let w = seq!["trackpad"@, "touchpad"@];
    assert(w[0] == "trackpad"@ && w[1] == "touchpad"@);
    if holds_one(n, w) {
        let i = choose|i: int| 0 <= i < w.len() && text::contains(n, #[trigger] w[i]);
        assert(0 <= i < 2);
    }
}

/// A name holds one of the words for a mouse.
pub open spec fn says_mouse(n: Seq<char>) -> bool {
    text::contains(n, "mouse"@) ||
        text::contains(n, "mx "@) ||
        text::contains(n, "g502"@) ||
        text::contains(n, "g102"@) ||
        text::contains(n, "viper"@) ||
        text::contains(n, "tail"@) ||
        text::contains(n, "m720"@)
}

proof fn lemma_says_mouse(n: Seq<char>)
    ensures
        says_mouse(n) <==> holds_one(
            n,
            seq!["mouse"@, "mx "@, "g502"@, "g102"@, "viper"@, "tail"@, "m720"@],
        ),
{
    let w = seq!["mouse"@, "mx "@, "g502"@, "g102"@, "viper"@, "tail"@, "m720"@];
    assert(w[0] == "mouse"@ && w[1] == "mx "@ && w[2] == "g502"@ && w[3] == "g102"@ && w[4] == "viper"@ && w[5] == "tail"@ && w[6] == "m720"@);
    if holds_one(n, w) {
        let i = choose|i: int| 0 <= i < w.len() && text::contains(n, #[trigger] w[i]);
        assert(0 <= i < 7);
    }
}

/// Each kind has its own words, and a kind earlier in the list of keyboards, mice,
/// headsets, gamepads, pens and trackpads goes before a later one. A name without any of
/// the words leaves the kind unknown.
pub proof fn law_words_tell_kinds(n: Seq<char>)
    ensures
        ({
            let keyboard = text::contains(n, "keyboard"@) || text::starts_with(n, "k3"@)
                || text::starts_with(n, "k7"@) || text::starts_with(n, "k8"@);
            let first = keyboard || says_mouse(n);
            let second = first || says_headset(n) || says_gamepad(n);
            &&& kind_of(n) == "Headset"@ <==> says_headset(n) && !first
            &&& kind_of(n) == "Gamepad"@ <==> says_gamepad(n) && !says_headset(n) && !first
            &&& kind_of(n) == "Pen"@ <==> says_pen(n) && !second
            &&& kind_of(n) == "Trackpad"@ <==> says_trackpad(n) && !says_pen(n) && !second
            &&& kind_of(n) == "Unknown"@ <==> !says_trackpad(n) && !says_pen(n) && !second
        }),
{
    reveal_strlit("Keyboard");
    reveal_strlit("Mouse");
    reveal_strlit("Headset");
    reveal_strlit("Gamepad");
    reveal_strlit("Pen");
    reveal_strlit("Trackpad");
    reveal_strlit("Unknown");
    assert("Headset"@[0] == 'H' && "Gamepad"@[0] == 'G' && "Unknown"@[0] == 'U');
    assert("Keyboard"@[0] == 'K' && "Mouse"@[0] == 'M' && "Pen"@[0] == 'P' && "Trackpad"@[0]
        == 'T');
    lemma_says_mouse(n);
    lemma_says_headset(n);
    lemma_says_gamepad(n);
    lemma_says_pen(n);
    lemma_says_trackpad(n);
}

} // verus!
