//! Devices as the reader, the strip and the tray see them.

use vstd::prelude::*;

use crate::grouping;
use crate::order;
use crate::order::{RowKey, sort_rows};
use crate::text;
use crate::text::{
    begins, chars_of, push_decimal, push_text, remove_all, to_ascii_lower, trim, white_space,
};

verus! {

/// A peripheral with what is known of its battery.
#[derive(Debug)]
pub struct Device {
    pub name: String,
    pub address: String,
    pub is_le: bool,
    pub connected: bool,
    /// Battery 0..=100 when the device tells it.
    pub battery: Option<u8>,
    /// "ok" | "no-battery" | "offline"
    pub status: &'static str,
    /// "Mouse" / "Keyboard" / "Headset" / "Gamepad" / "Pen" / "Trackpad" / "Unknown"
    pub kind: &'static str,
}

impl Clone for Device {
    fn clone(&self) -> (r: Self)
        ensures
            r == *self,
    {
        Device {
            name: self.name.clone(),
            address: self.address.clone(),
            is_le: self.is_le,
            connected: self.connected,
            battery: self.battery,
            status: self.status,
            kind: self.kind,
        }
    }
}

/// What a `Device` says, with its texts as sequences of characters.
#[verifier::ext_equal]
pub struct DeviceView {
    pub name: Seq<char>,
    pub address: Seq<char>,
    pub is_le: bool,
    pub connected: bool,
    pub battery: Option<u8>,
    pub status: Seq<char>,
    pub kind: Seq<char>,
}

impl View for Device {
    type V = DeviceView;

    open spec fn view(&self) -> DeviceView {
        DeviceView {
            name: self.name@,
            address: self.address@,
            is_le: self.is_le,
            connected: self.connected,
            battery: self.battery,
            status: self.status@,
            kind: self.kind@,
        }
    }
}

/// What each device of a list says.
pub open spec fn views(devs: Seq<Device>) -> Seq<DeviceView> {
    devs.map_values(|d: Device| d@)
}

/// A copy of a list of devices.
pub fn clone_devices(devs: &[Device]) -> (r: Vec<Device>)
    ensures
        r@ == devs@,
{
    let mut out: Vec<Device> = Vec::new();
    for i in 0..devs.len()
        invariant
            out@ == devs@.take(i as int),
    {
        out.push(devs[i].clone());
        assert(out@ =~= devs@.take(i + 1));
    }
    assert(devs@.take(devs@.len() as int) =~= devs@);
    out
}

/// Some device of the list is connected.
pub open spec fn some_connected(devs: Seq<Device>) -> bool {
    exists|i: int| 0 <= i < devs.len() && (#[trigger] devs[i]).connected
}

/// Whether some device of the list is connected.
pub fn has_connected(devs: &[Device]) -> (r: bool)
    ensures
        r == some_connected(devs@),
{
    for i in 0..devs.len()
        invariant
            forall|j: int| 0 <= j < i ==> !(#[trigger] devs@[j]).connected,
    {
        if devs[i].connected {
            assert(devs@[i as int].connected);
            return true;
        }
    }
    false
}

// ------------------------------------------------------------------- naming

/// The longest name that is shown whole.
pub const MAX_SHORT_NAME: usize = 22;

/// A name cut to what the tray has room for.
pub open spec fn shortened(n: Seq<char>) -> Seq<char> {
    if n.len() <= MAX_SHORT_NAME {
        n
    } else {
        n.take(MAX_SHORT_NAME as int).push('…')
    }
}

/// A name without outer white space, cut to what the tray has room for.
pub fn short_name(name: &str) -> (r: String)
    ensures
        r@ == shortened(text::trimmed(name@)),
{
    let n = trim(name);
    let v = chars_of(n.as_str());
    if v.len() <= MAX_SHORT_NAME {
        return n;
    }
    let mut s = String::new();
    for i in 0..MAX_SHORT_NAME
        invariant
            v@ == n@,
            v@.len() > MAX_SHORT_NAME,
            s@ == v@.take(i as int),
    {
        s.push(v[i]);
        assert(s@ =~= v@.take(i + 1));
    }
    s.push('…');
    s
}

/// A name in lower case without the words, blanks and dashes in which copies of
/// one peripheral differ.
pub open spec fn stripped(lower: Seq<char>) -> Seq<char> {
    let a = text::without(lower, "键盘"@);
    let b = text::without(a, "鼠标"@);
    let c = text::without(b, "keyboard"@);
    let d = text::without(c, "mouse"@);
    let e = text::without(d, "2.4g"@);
    let f = text::without(e, "有线"@);
    f.filter(|c: char| !text::is_space(c) && c != '-' && c != '_')
}

/// What is left of a name in lower case once the words, blanks and dashes are
/// gone in which copies of one peripheral differ.
pub fn strip_lower_name(lower: &str) -> (r: String)
    ensures
        r@ == stripped(lower@),
{
    let a = remove_all(lower, "键盘");
    let b = remove_all(a.as_str(), "鼠标");
    let c = remove_all(b.as_str(), "keyboard");
    let d = remove_all(c.as_str(), "mouse");
    let e = remove_all(d.as_str(), "2.4g");
    let f = remove_all(e.as_str(), "有线");
    let v = chars_of(f.as_str());
    let ghost keep = |c: char| !text::is_space(c) && c != '-' && c != '_';
    let mut out = String::new();
    for i in 0..v.len()
        invariant
            keep == (|c: char| !text::is_space(c) && c != '-' && c != '_'),
            out@ == v@.take(i as int).filter(keep),
    {
        assert(v@.take(i + 1).drop_last() =~= v@.take(i as int));
        reveal(Seq::filter);
        let c: char = v[i];
        if !white_space(c) && c != '-' && c != '_' {
            out.push(c);
        }
    }
    assert(v@.take(v@.len() as int) =~= v@);
    out
}

/// What a name is grouped by.
pub fn name_key(name: &str) -> (r: String)
    ensures
        r@ == stripped(text::lowercase(name@)),
{
    let lower = name.to_lowercase();
    strip_lower_name(lower.as_str())
}

// ------------------------------------------------------------------ summary

/// One device in the tray's tooltip.
pub open spec fn summary_entry(d: Device) -> Seq<char> {
    match d.battery {
        Some(b) => shortened(text::trimmed(d.name@)) + " "@ + text::decimal(b as nat) + "%"@,
        None => shortened(text::trimmed(d.name@)) + " --"@,
    }
}

/// The devices of the tray's tooltip, two blanks between them.
pub open spec fn summary_list(devs: Seq<Device>) -> Seq<char>
    decreases devs.len(),
{
    if devs.len() == 0 {
        Seq::empty()
    } else if devs.len() == 1 {
        summary_entry(devs[0])
    } else {
        summary_list(devs.drop_last()) + "  "@ + summary_entry(devs.last())
    }
}

/// The tray's tooltip.
pub open spec fn summary(devs: Seq<Device>) -> Seq<char> {
    if devs.len() == 0 {
        "无设备"@
    } else {
        summary_list(devs)
    }
}

/// What a scan found.
#[derive(Debug)]
pub struct Snapshot {
    pub devices: Vec<Device>,
    pub scanned_at_ms: u64,
    pub has_connected: bool,
}

impl Clone for Snapshot {
    fn clone(&self) -> (r: Self)
        ensures
            r.devices@ == self.devices@,
            r.scanned_at_ms == self.scanned_at_ms,
            r.has_connected == self.has_connected,
    {
        Snapshot {
            devices: clone_devices(&self.devices),
            scanned_at_ms: self.scanned_at_ms,
            has_connected: self.has_connected,
        }
    }
}

impl Default for Snapshot {
    fn default() -> (r: Self)
        ensures
            r.devices@ == Seq::<Device>::empty(),
            r.scanned_at_ms == 0,
            !r.has_connected,
    {
        Snapshot { devices: Vec::new(), scanned_at_ms: 0, has_connected: false }
    }
}

impl Snapshot {
    pub fn is_empty(&self) -> (r: bool)
        ensures
            r == (self.devices@.len() == 0),
    {
        self.devices.len() == 0
    }

    pub fn any_connected(&self) -> (r: bool)
        ensures
            r == some_connected(self.devices@),
    {
        has_connected(&self.devices)
    }

    pub fn status_summary(&self) -> (r: String)
        ensures
            r@ == summary(self.devices@),
    {
        let mut out = String::new();
        if self.devices.len() == 0 {
            push_text(&mut out, "无设备");
            assert(out@ =~= "无设备"@);
            return out;
        }
        for i in 0..self.devices.len()
            invariant
                out@ == summary_list(self.devices@.take(i as int)),
        {
            let ghost before = self.devices@.take(i as int);
            assert(self.devices@.take(i + 1).drop_last() =~= before);
            if i > 0 {
                push_text(&mut out, "  ");
            }
            let ghost head = out@;
            let d = &self.devices[i];
            let name = short_name(d.name.as_str());
            push_text(&mut out, name.as_str());
            match d.battery {
                Some(b) => {
                    push_text(&mut out, " ");
                    push_decimal(&mut out, b as u64);
                    push_text(&mut out, "%");
                },
                None => push_text(&mut out, " --"),
            }
            assert(out@ =~= head + summary_entry(*d));
            if i == 0 {
                assert(out@ =~= summary_entry(*d));
            }
        }
        assert(self.devices@.take(self.devices@.len() as int) =~= self.devices@);
        out
    }
}

// ------------------------------------------------------------------ listing

/// The key that a device is listed by, given its name in lower case.
pub open spec fn device_keys(devs: Seq<Device>) -> Seq<(bool, Seq<char>)> {
    devs.map_values(|d: Device| (d.connected, text::lowercase(d.name@)))
}

/// Devices in listing order: connected ones first, then by name in lower case.
pub open spec fn sorted_devices(devs: Seq<Device>) -> Seq<Device> {
    order::in_order(devs, device_keys(devs))
}

/// A battery is a percentage, where there is one.
pub open spec fn is_percent(battery: Option<u8>) -> bool {
    battery matches Some(p) ==> p <= 100
}

/// The batteries of all rows are percentages.
pub open spec fn all_percent(rows: Seq<DeviceView>) -> bool {
    forall|i: int| 0 <= i < rows.len() ==> is_percent((#[trigger] rows[i]).battery)
}

/// What devices in listing order say, given what the devices say.
pub open spec fn sorted_views(devs: Seq<DeviceView>) -> Seq<DeviceView> {
    order::in_order(devs, devs.map_values(|d: DeviceView| (d.connected, text::lowercase(d.name))))
}

proof fn lemma_sorted_views(devs: Seq<Device>)
    ensures
        views(sorted_devices(devs)) == sorted_views(views(devs)),
{
    order::law_listing_looks_at_keys_only(devs, device_keys(devs), |d: Device| d@);
    assert(views(devs).map_values(|d: DeviceView| (d.connected, text::lowercase(d.name)))
        =~= device_keys(devs));
}

/// Puts devices in listing order.
pub fn sort_devices(devs: Vec<Device>) -> (r: Vec<Device>)
    ensures
        r@ == sorted_devices(devs@),
        views(r@) == sorted_views(views(devs@)),
{
    proof {
        lemma_sorted_views(devs@);
    }
    let mut keys: Vec<RowKey> = Vec::new();
    for i in 0..devs.len()
        invariant
            order::key_views(keys@) == device_keys(devs@).take(i as int),
            keys@.len() == i,
    {
        keys.push(
            RowKey { connected: devs[i].connected, name: devs[i].name.as_str().to_lowercase() },
        );
        assert(order::key_views(keys@) =~= device_keys(devs@).take(i + 1));
    }
    assert(order::key_views(keys@) =~= device_keys(devs@));
    sort_rows(devs, keys)
}

// ------------------------------------------------- one row per peripheral

/// The address of a device is that of a HID receiver or cable.
pub open spec fn is_hid(d: Device) -> bool {
    text::starts_with(text::ascii_lower(d.address@), "hid:"@)
}

/// How much a row tells: a connected device beats one that is not, then a known
/// battery beats an unknown one, then a HID row beats a Bluetooth row.
pub open spec fn rank(d: Device) -> int {
    (if d.connected { 4int } else { 0 }) + (if d.battery is Some { 2int } else { 0 }) + (if is_hid(d) {
        1int
    } else {
        0
    })
}

/// What a device is grouped by, given what its name is reduced to.
pub open spec fn key_or_address(stripped_name: Seq<char>, d: Device) -> Seq<char> {
    if stripped_name.len() == 0 {
        text::ascii_lower(d.address@)
    } else {
        stripped_name
    }
}

/// What a device is grouped by.
pub open spec fn group_key(d: Device) -> Seq<char> {
    key_or_address(stripped(text::lowercase(d.name@)), d)
}

/// A list holds two Bluetooth devices with different addresses.
pub open spec fn two_macs(g: Seq<Device>) -> bool {
    exists|i: int, j: int|
        0 <= i < g.len() && 0 <= j < g.len() && !is_hid(#[trigger] g[i]) && !is_hid(#[trigger] g[j])
            && text::ascii_lower(g[i].address@) != text::ascii_lower(g[j].address@)
}

/// The row of a group that tells most; of rows that tell the same, the last.
pub open spec fn best(g: Seq<(Seq<char>, Device)>) -> (Seq<char>, Device)
    decreases g.len(),
{
    if g.len() <= 1 {
        g[0]
    } else {
        let b = best(g.drop_last());
        if rank(b.1) > rank(g.last().1) {
            b
        } else {
            g.last()
        }
    }
}

/// What stays of a group: every row when it holds several physical devices, the
/// best row otherwise.
pub open spec fn kept(g: Seq<(Seq<char>, Device)>) -> Seq<(Seq<char>, Device)> {
    if two_macs(grouping::rows(g)) {
        g
    } else if g.len() == 0 {
        g
    } else {
        seq![best(g)]
    }
}

/// What stays of the groups with keys `order`, one group after the other.
pub open spec fn kept_groups(s: Seq<(Seq<char>, Device)>, order: Seq<Seq<char>>) -> Seq<
    (Seq<char>, Device),
>
    decreases order.len(),
{
    if order.len() == 0 {
        Seq::empty()
    } else {
        kept_groups(s, order.drop_last()) + kept(grouping::group(s, order.last()))
    }
}

/// Grouped devices with one row per peripheral.
pub open spec fn deduped(s: Seq<(Seq<char>, Device)>) -> Seq<(Seq<char>, Device)> {
    kept_groups(s, grouping::first_keys(s))
}

/// The keys of devices that `group_key` gives.
pub open spec fn group_keys(devs: Seq<Device>) -> Seq<Seq<char>> {
    devs.map_values(|d: Device| group_key(d))
}

/// Texts as sequences of characters.
pub open spec fn texts(v: Seq<String>) -> Seq<Seq<char>> {
    v.map_values(|s: String| s@)
}

fn hid_row(d: &Device) -> (r: bool)
    ensures
        r == is_hid(*d),
{
    let a = to_ascii_lower(d.address.as_str());
    begins(a.as_str(), "hid:")
}

fn device_rank(d: &Device) -> (r: u8)
    ensures
        r == rank(*d),
{
    let a: u8 = if d.connected { 4 } else { 0 };
    let b: u8 = if d.battery.is_some() { 2 } else { 0 };
    let c: u8 = if hid_row(d) { 1 } else { 0 };
    a + b + c
}

/// The keys in the order in which they first occur.
fn keys_in_order(devs: &Vec<Device>, keys: &Vec<String>) -> (r: Vec<String>)
    requires
        devs@.len() == keys@.len(),
    ensures
        texts(r@) == grouping::first_keys(grouping::with_keys(devs@, texts(keys@))),
{
    let ghost s = grouping::with_keys(devs@, texts(keys@));
    let mut out: Vec<String> = Vec::new();
    for i in 0..keys.len()
        invariant
            devs@.len() == keys@.len(),
            s == grouping::with_keys(devs@, texts(keys@)),
            texts(out@) == grouping::first_keys(s.take(i as int)),
    {
        let ghost f = texts(out@);
        assert(s.take(i + 1).drop_last() =~= s.take(i as int));
        let mut seen = false;
        for j in 0..out.len()
            invariant
                i < keys@.len(),
                f == texts(out@),
                seen == exists|k: int| 0 <= k < j && f[k] == keys@[i as int]@,
        {
            if out[j] == keys[i] {
                seen = true;
                assert(f[j as int] == keys@[i as int]@);
            }
        }
        assert(seen == f.contains(keys@[i as int]@)) by {
            if seen {
                let k = choose|k: int| 0 <= k < out@.len() && f[k] == keys@[i as int]@;
                assert(f[k] == keys@[i as int]@);
            }
        }
        if !seen {
            out.push(keys[i].clone());
            assert(texts(out@) =~= f.push(keys@[i as int]@));
        }
    }
    assert(s.take(s.len() as int) =~= s);
    out
}

/// The devices of one group.
fn members(devs: &Vec<Device>, keys: &Vec<String>, key: &String) -> (r: Vec<Device>)
    requires
        devs@.len() == keys@.len(),
    ensures
        r@ == grouping::rows(grouping::group(grouping::with_keys(devs@, texts(keys@)), key@)),
{
    let ghost s = grouping::with_keys(devs@, texts(keys@));
    let mut out: Vec<Device> = Vec::new();
    for i in 0..devs.len()
        invariant
            devs@.len() == keys@.len(),
            s == grouping::with_keys(devs@, texts(keys@)),
            out@ == grouping::rows(grouping::group(s.take(i as int), key@)),
    {
        let ghost before = grouping::group(s.take(i as int), key@);
        assert(s.take(i + 1).drop_last() =~= s.take(i as int));
        reveal(Seq::filter);
        if keys[i] == *key {
            out.push(devs[i].clone());
            assert(out@ =~= grouping::rows(before.push(s[i as int])));
        }
    }
    assert(s.take(s.len() as int) =~= s);
    out
}

/// Whether a list holds two Bluetooth devices with different addresses.
fn holds_two_macs(g: &Vec<Device>) -> (r: bool)
    ensures
        r == two_macs(g@),
{
    let mut first: Option<String> = None;
    let ghost mut at: int = 0;
    for i in 0..g.len()
        invariant
            match first {
                Some(a) => 0 <= at < i && !is_hid(g@[at]) && a@ == text::ascii_lower(g@[at].address@)
                    && forall|j: int|
                    0 <= j < i && !is_hid(#[trigger] g@[j]) ==> text::ascii_lower(g@[j].address@)
                        == a@,
                None => forall|j: int| 0 <= j < i ==> is_hid(#[trigger] g@[j]),
            },
    {
        if !hid_row(&g[i]) {
            let a = to_ascii_lower(g[i].address.as_str());
            match &first {
                Some(f) => {
                    if *f != a {
                        assert(!is_hid(g@[at]) && !is_hid(g@[i as int]));
                        return true;
                    }
                },
                None => {
                    proof {
                        at = i as int;
                    }
                    first = Some(a);
                },
            }
        }
    }
    false
}

/// The place of the row of a group that tells most.
fn best_row(g: &Vec<Device>, Ghost(s): Ghost<Seq<(Seq<char>, Device)>>) -> (r: usize)
    requires
        g@.len() > 0,
        g@ == grouping::rows(s),
    ensures
        r < g@.len(),
        s[r as int] == best(s),
{
    let mut at: usize = 0;
    assert(s.take(1).len() == 1);
    for i in 1..g.len()
        invariant
            g@.len() > 0,
            g@ == grouping::rows(s),
            at < i,
            i <= g@.len(),
            s[at as int] == best(s.take(i as int)),
    {
        assert(s.take(i + 1).drop_last() =~= s.take(i as int));
        assert(g@[i as int] == s[i as int].1);
        assert(g@[at as int] == s[at as int].1);
        if device_rank(&g[at]) <= device_rank(&g[i]) {
            at = i;
        }
    }
    assert(s.take(s.len() as int) =~= s);
    at
}

/// Leaves one row per peripheral; `keys` gives what each device is grouped by.
pub fn dedup_by_keys(devs: &Vec<Device>, keys: &Vec<String>) -> (r: Vec<Device>)
    requires
        devs@.len() == keys@.len(),
    ensures
        r@ == grouping::rows(deduped(grouping::with_keys(devs@, texts(keys@)))),
{
    let ghost s = grouping::with_keys(devs@, texts(keys@));
    let order = keys_in_order(devs, keys);
    let mut out: Vec<Device> = Vec::new();
    for i in 0..order.len()
        invariant
            devs@.len() == keys@.len(),
            s == grouping::with_keys(devs@, texts(keys@)),
            texts(order@) == grouping::first_keys(s),
            out@ == grouping::rows(kept_groups(s, texts(order@).take(i as int))),
    {
        let ghost done = kept_groups(s, texts(order@).take(i as int));
        let ghost g = grouping::group(s, order@[i as int]@);
        assert(texts(order@).take(i + 1).drop_last() =~= texts(order@).take(i as int));
        assert(texts(order@).take(i + 1).last() == order@[i as int]@);
        let mut m = members(devs, keys, &order[i]);
        if holds_two_macs(&m) {
            out.append(&mut m);
            assert(out@ =~= grouping::rows(done + kept(g)));
        } else if m.len() > 0 {
            let b = best_row(&m, Ghost(g));
            assert(m@[b as int] == g[b as int].1);
            out.push(m[b].clone());
            assert(out@ =~= grouping::rows(done + kept(g)));
        } else {
            assert(out@ =~= grouping::rows(done + kept(g)));
        }
    }
    assert(texts(order@).take(order@.len() as int) =~= texts(order@));
    out
}

/// Collapses the USB and Bluetooth copies of one peripheral into one row. A
/// group of rows with two or more Bluetooth addresses is several physical
/// devices that share a name: those rows all stay.
pub fn dedup_by_name(devs: Vec<Device>) -> (r: Vec<Device>)
    ensures
        r@ == grouping::rows(deduped(grouping::with_keys(devs@, group_keys(devs@)))),
{
    let mut keys: Vec<String> = Vec::new();
    for i in 0..devs.len()
        invariant
            keys@.len() == i,
            texts(keys@) == group_keys(devs@).take(i as int),
    {
        let mut key = name_key(devs[i].name.as_str());
        if key.as_str().is_empty() {
            key = to_ascii_lower(devs[i].address.as_str());
        }
        keys.push(key);
        assert(texts(keys@) =~= group_keys(devs@).take(i + 1));
    }
    assert(texts(keys@) =~= group_keys(devs@));
    dedup_by_keys(&devs, &keys)
}

// --------------------------------------------------------------------- laws

proof fn lemma_best_in_group(g: Seq<(Seq<char>, Device)>)
    requires
        g.len() > 0,
    ensures
        g.contains(best(g)),
    decreases g.len(),
{
    if g.len() > 1 {
        lemma_best_in_group(g.drop_last());
        let b = best(g.drop_last());
        let i = choose|i: int| 0 <= i < g.drop_last().len() && g.drop_last()[i] == b;
        assert(g[i] == b);
        assert(g[g.len() - 1] == g.last());
    } else {
        assert(g[0] == best(g));
    }
}

/// What stays of a group is part of it.
proof fn lemma_kept_in_group(g: Seq<(Seq<char>, Device)>, k: Seq<char>)
    requires
        grouping::all_keyed(g, k),
    ensures
        grouping::all_keyed(kept(g), k),
        forall|i: int| 0 <= i < kept(g).len() ==> g.contains(#[trigger] kept(g)[i]),
        g.len() > 0 ==> kept(g).len() > 0,
        kept(kept(g)) == kept(g),
{
    if two_macs(grouping::rows(g)) {
    } else if g.len() > 0 {
        lemma_best_in_group(g);
        let i = choose|i: int| 0 <= i < g.len() && g[i] == best(g);
        assert(g[i].0 == k);
        assert(!two_macs(grouping::rows(seq![best(g)])));
    }
}

proof fn lemma_group_of_kept(
    s: Seq<(Seq<char>, Device)>,
    order: Seq<Seq<char>>,
    k: Seq<char>,
)
    requires
        order.no_duplicates(),
    ensures
        order.contains(k) ==> grouping::group(kept_groups(s, order), k) == kept(grouping::group(s, k)),
        !order.contains(k) ==> grouping::group(kept_groups(s, order), k).len() == 0,
    decreases order.len(),
{
    if order.len() == 0 {
        assert(grouping::group(kept_groups(s, order), k).len() == 0) by {
            reveal(Seq::filter);
        }
    } else {
        let last = order.last();
        let head = kept_groups(s, order.drop_last());
        let tail = kept(grouping::group(s, last));
        grouping::lemma_drop_last_contains(order, k);
        lemma_group_of_kept(s, order.drop_last(), k);
        assert(grouping::all_keyed(tail, last)) by {
            grouping::lemma_group_is_keyed(s, last);
            lemma_kept_in_group(grouping::group(s, last), last);
        }
        grouping::lemma_group_append(head, tail, last, k);
        if k == last {
            assert(grouping::group(head, k) + tail =~= tail);
        }
    }
}

/// One row stays of each group of names, the one that tells most, unless the
/// group holds two Bluetooth devices with different addresses: then all its rows
/// stay.
pub proof fn law_dedup_keeps_best_of_each_group(s: Seq<(Seq<char>, Device)>, k: Seq<char>)
    ensures
        grouping::group(deduped(s), k) == kept(grouping::group(s, k)),
{
    grouping::lemma_first_keys(s);
    lemma_group_of_kept(s, grouping::first_keys(s), k);
    if !grouping::first_keys(s).contains(k) {
        let g = grouping::group(s, k);
        grouping::lemma_group_is_keyed(s, k);
        if g.len() > 0 {
            assert(s.contains(g[0]));
            let i = choose|i: int| 0 <= i < s.len() && s[i] == g[0];
            assert(s[i].0 == k);
        }
        assert(g =~= Seq::empty());
    }
}

proof fn lemma_kept_groups_contained(
    s: Seq<(Seq<char>, Device)>,
    order: Seq<Seq<char>>,
    i: int,
)
    requires
        0 <= i < kept_groups(s, order).len(),
    ensures
        s.contains(kept_groups(s, order)[i]),
    decreases order.len(),
{
    if order.len() > 0 {
        let head = kept_groups(s, order.drop_last());
        if i < head.len() {
            lemma_kept_groups_contained(s, order.drop_last(), i);
        } else {
            let g = grouping::group(s, order.last());
            grouping::lemma_group_is_keyed(s, order.last());
            lemma_kept_in_group(g, order.last());
            let x = kept(g)[i - head.len()];
            assert(g.contains(x));
            let j = choose|j: int| 0 <= j < g.len() && g[j] == x;
            assert(s.contains(g[j]));
        }
    }
}

/// Every row that stays was there before.
pub proof fn law_dedup_invents_nothing(s: Seq<(Seq<char>, Device)>, i: int)
    requires
        0 <= i < deduped(s).len(),
    ensures
        s.contains(deduped(s)[i]),
{
    lemma_kept_groups_contained(s, grouping::first_keys(s), i);
}

proof fn lemma_first_keys_of_kept(s: Seq<(Seq<char>, Device)>, order: Seq<Seq<char>>)
    requires
        order.no_duplicates(),
        forall|k: Seq<char>| #[trigger] order.contains(k) ==> grouping::group(s, k).len() > 0,
    ensures
        grouping::first_keys(kept_groups(s, order)) == order,
    decreases order.len(),
{
    if order.len() == 0 {
        assert(grouping::first_keys(kept_groups(s, order)) =~= order);
    } else {
        let o = order.drop_last();
        let last = order.last();
        let tail = kept(grouping::group(s, last));
        assert(order[order.len() - 1] == last);
        assert(order.contains(last));
        assert forall|k: Seq<char>| #[trigger] o.contains(k) implies grouping::group(s, k).len() > 0 by {
            let i = choose|i: int| 0 <= i < o.len() && o[i] == k;
            assert(order[i] == k);
            assert(order.contains(k));
        }
        lemma_first_keys_of_kept(s, o);
        grouping::lemma_group_is_keyed(s, last);
        lemma_kept_in_group(grouping::group(s, last), last);
        assert(!o.contains(last)) by {
            if o.contains(last) {
                let i = choose|i: int| 0 <= i < o.len() && o[i] == last;
                assert(order[i] == order[order.len() - 1]);
            }
        }
        grouping::lemma_first_keys_add_uniform(kept_groups(s, o), tail, last);
        assert(o.push(last) =~= order);
    }
}

proof fn lemma_kept_groups_agree(
    s: Seq<(Seq<char>, Device)>,
    t: Seq<(Seq<char>, Device)>,
    order: Seq<Seq<char>>,
)
    requires
        forall|k: Seq<char>| kept(#[trigger] grouping::group(s, k)) == kept(grouping::group(t, k)),
    ensures
        kept_groups(s, order) == kept_groups(t, order),
    decreases order.len(),
{
    if order.len() > 0 {
        lemma_kept_groups_agree(s, t, order.drop_last());
        assert(kept(grouping::group(s, order.last())) == kept(grouping::group(t, order.last())));
    }
}

/// Deduplicating what was deduplicated changes nothing.
pub proof fn law_dedup_is_idempotent(s: Seq<(Seq<char>, Device)>)
    ensures
        deduped(deduped(s)) == deduped(s),
{
    let t = deduped(s);
    grouping::lemma_first_keys(s);
    assert forall|k: Seq<char>| #[trigger] grouping::first_keys(s).contains(k) implies grouping::group(s, k).len() > 0 by {
        let i = choose|i: int| 0 <= i < s.len() && (#[trigger] s[i]).0 == k;
        let f = grouping::in_group::<Seq<char>, Device>(k);
        s.lemma_filter_contains(f, i);
        assert(grouping::group(s, k).contains(s[i]));
    }
    lemma_first_keys_of_kept(s, grouping::first_keys(s));
    assert forall|k: Seq<char>| kept(#[trigger] grouping::group(t, k)) == kept(grouping::group(s, k)) by {
        law_dedup_keeps_best_of_each_group(s, k);
        grouping::lemma_group_is_keyed(s, k);
        lemma_kept_in_group(grouping::group(s, k), k);
    }
    lemma_kept_groups_agree(t, s, grouping::first_keys(s));
}

/// Rows of which none has key `k` have no group with it.
proof fn lemma_no_group(s: Seq<(Seq<char>, Device)>, k: Seq<char>)
    requires
        forall|i: int| 0 <= i < s.len() ==> (#[trigger] s[i]).0 != k,
    ensures
        grouping::group(s, k) == Seq::<(Seq<char>, Device)>::empty(),
{
    let g = grouping::group(s, k);
    grouping::lemma_group_is_keyed(s, k);
    if g.len() > 0 {
        assert(s.contains(g[0]));
        let i = choose|i: int| 0 <= i < s.len() && s[i] == g[0];
        assert(s[i].0 == k);
    }
    assert(g =~= Seq::empty());
}

/// A row that is alone with its key is its group.
proof fn lemma_alone(s: Seq<(Seq<char>, Device)>, i: int)
    requires
        0 <= i < s.len(),
        forall|k: int| 0 <= k < s.len() && (#[trigger] s[k]).0 == s[i].0 ==> k == i,
    ensures
        grouping::group(s, s[i].0) == seq![s[i]],
{
    let k = s[i].0;
    let a = s.take(i);
    let b = seq![s[i]];
    let c = s.skip(i + 1);
    assert(s =~= a + b + c);
    assert forall|j: int| 0 <= j < a.len() implies (#[trigger] a[j]).0 != k by {
        assert(a[j] == s[j]);
    }
    assert forall|j: int| 0 <= j < c.len() implies (#[trigger] c[j]).0 != k by {
        assert(c[j] == s[j + i + 1]);
    }
    lemma_no_group(a, k);
    lemma_no_group(c, k);
    grouping::lemma_group_add(a + b, c, k);
    grouping::lemma_group_add(a, b, k);
    grouping::lemma_group_of_uniform(b, k, k);
    assert(Seq::empty() + b + Seq::<(Seq<char>, Device)>::empty() =~= b);
}

/// A row is in the group of its key.
proof fn lemma_in_own_group(s: Seq<(Seq<char>, Device)>, j: int)
    requires
        0 <= j < s.len(),
    ensures
        grouping::group(s, s[j].0).contains(s[j]),
{
    s.lemma_filter_contains(grouping::in_group::<Seq<char>, Device>(s[j].0), j);
}

/// No row of a group outranks the one that is kept.
proof fn lemma_best_outranks(g: Seq<(Seq<char>, Device)>, j: int)
    requires
        0 <= j < g.len(),
    ensures
        rank(best(g).1) >= rank(g[j].1),
    decreases g.len(),
{
    if g.len() > 1 {
        if j < g.len() - 1 {
            lemma_best_outranks(g.drop_last(), j);
            assert(g.drop_last()[j] == g[j]);
        } else {
            assert(g.last() == g[j]);
        }
    }
}

/// Of the copies of a peripheral that become one row, the row that stays tells most: it
/// is connected if any copy is; among the copies that are as connected as it is, it has a
/// battery if any of them has one; and among those alike in both, it is a HID row if any
/// of them is.
pub proof fn law_kept_row_tells_most(s: Seq<(Seq<char>, Device)>, i: int, j: int)
    requires
        0 <= i < deduped(s).len(),
        0 <= j < s.len(),
        s[j].0 == deduped(s)[i].0,
        forall|k: int|
            0 <= k < deduped(s).len() && (#[trigger] deduped(s)[k]).0 == s[j].0 ==> k == i,
    ensures
        ({
            let d = s[j].1;
            let r = deduped(s)[i].1;
            &&& d.connected ==> r.connected
            &&& d.connected == r.connected && d.battery is Some ==> r.battery is Some
            &&& d.connected == r.connected && d.battery is Some == r.battery is Some
                && text::starts_with(text::ascii_lower(d.address@), "hid:"@) ==> text::starts_with(
                text::ascii_lower(r.address@),
                "hid:"@,
            )
        }),
{
    let k = s[j].0;
    let r = deduped(s);
    let g = grouping::group(s, k);
    law_dedup_keeps_best_of_each_group(s, k);
    lemma_alone(r, i);
    lemma_in_own_group(s, j);
    let q = choose|q: int| 0 <= q < g.len() && g[q] == s[j];
    if two_macs(grouping::rows(g)) {
        assert(g =~= seq![r[i]]);
        assert(false) by {
            let (a, b) = choose|a: int, b: int|
                0 <= a < grouping::rows(g).len() && 0 <= b < grouping::rows(g).len() && !is_hid(
                    #[trigger] grouping::rows(g)[a],
                ) && !is_hid(#[trigger] grouping::rows(g)[b]) && text::ascii_lower(
                    grouping::rows(g)[a].address@,
                ) != text::ascii_lower(grouping::rows(g)[b].address@);
            assert(a == b);
        }
    }
    assert(kept(g)[0] == best(g));
    assert(r[i] == seq![r[i]][0]);
    lemma_best_outranks(g, q);
}

/// No peripheral is lost: a row with the key of each row stays.
pub proof fn law_every_peripheral_keeps_a_row(s: Seq<(Seq<char>, Device)>, j: int)
    requires
        0 <= j < s.len(),
    ensures
        exists|i: int| 0 <= i < deduped(s).len() && (#[trigger] deduped(s)[i]).0 == s[j].0,
{
    let k = s[j].0;
    law_dedup_keeps_best_of_each_group(s, k);
    lemma_in_own_group(s, j);
    let g = grouping::group(s, k);
    let h = grouping::group(deduped(s), k);
    assert(g.len() > 0);
    assert(h.len() > 0);
    grouping::lemma_group_is_keyed(deduped(s), k);
    assert(deduped(s).contains(h[0]));
    let i = choose|i: int| 0 <= i < deduped(s).len() && deduped(s)[i] == h[0];
    assert(deduped(s)[i].0 == k);
}

/// Two Bluetooth rows with one key and different addresses are different devices: every
/// row with that key stays.
pub proof fn law_same_named_devices_stay(s: Seq<(Seq<char>, Device)>, a: int, b: int, j: int)
    requires
        0 <= a < s.len(),
        0 <= b < s.len(),
        0 <= j < s.len(),
        s[a].0 == s[j].0,
        s[b].0 == s[j].0,
        !text::starts_with(text::ascii_lower(s[a].1.address@), "hid:"@),
        !text::starts_with(text::ascii_lower(s[b].1.address@), "hid:"@),
        !text::same_ignoring_case(s[a].1.address@, s[b].1.address@),
    ensures
        deduped(s).contains(s[j]),
{
    let k = s[j].0;
    let g = grouping::group(s, k);
    law_dedup_keeps_best_of_each_group(s, k);
    lemma_in_own_group(s, a);
    lemma_in_own_group(s, b);
    lemma_in_own_group(s, j);
    let p = choose|p: int| 0 <= p < g.len() && g[p] == s[a];
    let q = choose|q: int| 0 <= q < g.len() && g[q] == s[b];
    assert(grouping::rows(g)[p] == s[a].1 && grouping::rows(g)[q] == s[b].1);
    assert(!is_hid(grouping::rows(g)[p]) && !is_hid(grouping::rows(g)[q]));
    assert(two_macs(grouping::rows(g)));
    let h = grouping::group(deduped(s), k);
    assert(h == g);
    let t = choose|t: int| 0 <= t < h.len() && h[t] == s[j];
    grouping::lemma_group_is_keyed(deduped(s), k);
    assert(deduped(s).contains(h[t]));
}

/// Copies of one peripheral become one row: unless two Bluetooth rows with a key have
/// different addresses, one row with that key stays at most.
pub proof fn law_copies_become_one_row(s: Seq<(Seq<char>, Device)>, i: int, j: int)
    requires
        0 <= i < deduped(s).len(),
        0 <= j < deduped(s).len(),
        deduped(s)[i].0 == deduped(s)[j].0,
        forall|a: int, b: int|
            0 <= a < s.len() && 0 <= b < s.len() && (#[trigger] s[a]).0 == deduped(s)[i].0 && (
            #[trigger] s[b]).0 == deduped(s)[i].0 && !text::starts_with(
                text::ascii_lower(s[a].1.address@),
                "hid:"@,
            ) && !text::starts_with(text::ascii_lower(s[b].1.address@), "hid:"@)
                ==> text::same_ignoring_case(s[a].1.address@, s[b].1.address@),
    ensures
        i == j,
{
    let r = deduped(s);
    let k = r[i].0;
    let g = grouping::group(s, k);
    let h = grouping::group(r, k);
    law_dedup_keeps_best_of_each_group(s, k);
    grouping::lemma_group_is_keyed(s, k);
    if two_macs(grouping::rows(g)) {
        let w = grouping::rows(g);
        let (a, b) = choose|a: int, b: int|
            0 <= a < w.len() && 0 <= b < w.len() && !is_hid(#[trigger] w[a]) && !is_hid(
                #[trigger] w[b],
            ) && text::ascii_lower(w[a].address@) != text::ascii_lower(w[b].address@);
        assert(s.contains(g[a]) && s.contains(g[b]));
        let x = choose|x: int| 0 <= x < s.len() && s[x] == g[a];
        let y = choose|y: int| 0 <= y < s.len() && s[y] == g[b];
        assert(s[x].0 == k && s[y].0 == k);
        assert(w[a] == s[x].1 && w[b] == s[y].1);
    }
    assert(h.len() <= 1);
    if i != j {
        let lo = if i < j { i } else { j };
        let hi = if i < j { j } else { i };
        let a = r.take(lo + 1);
        let b = r.skip(lo + 1);
        assert(r =~= a + b);
        grouping::lemma_group_add(a, b, k);
        assert(a[lo] == r[lo] && b[hi - lo - 1] == r[hi]);
        lemma_in_own_group(a, lo);
        lemma_in_own_group(b, hi - lo - 1);
        assert(grouping::group(a, k).len() > 0 && grouping::group(b, k).len() > 0);
    }
}

/// A further copy that tells as much as the row that is kept takes its place.
pub proof fn law_later_copy_takes_over(
    s: Seq<(Seq<char>, Device)>,
    x: (Seq<char>, Device),
    i: int,
)
    requires
        0 <= i < deduped(s).len(),
        deduped(s)[i].0 == x.0,
        forall|k: int|
            0 <= k < deduped(s).len() && (#[trigger] deduped(s)[k]).0 == x.0 ==> k == i,
        deduped(s)[i].1.connected == x.1.connected,
        deduped(s)[i].1.battery is Some == x.1.battery is Some,
        text::starts_with(text::ascii_lower(deduped(s)[i].1.address@), "hid:"@)
            == text::starts_with(text::ascii_lower(x.1.address@), "hid:"@),
    ensures
        deduped(s.push(x)).contains(x),
{
    let k = x.0;
    let r = deduped(s);
    let t = s.push(x);
    let g = grouping::group(s, k);
    let h = grouping::group(t, k);
    law_dedup_keeps_best_of_each_group(s, k);
    law_dedup_keeps_best_of_each_group(t, k);
    lemma_alone(r, i);
    assert(kept(g) == seq![r[i]]);
    assert(t.drop_last() =~= s);
    assert(h =~= g.push(x)) by {
        reveal(Seq::filter);
    }
    assert(kept(g).len() == 1 && kept(g)[0] == r[i]);
    assert(g.len() > 0);
    assert(best(g) == r[i]) by {
        if two_macs(grouping::rows(g)) {
            assert(g.len() == 1);
        }
    }
    assert(h.drop_last() =~= g);
    assert(best(h) == x);
    assert(kept(h).contains(x)) by {
        if two_macs(grouping::rows(h)) {
            assert(h[g.len() as int] == x);
        } else {
            assert(kept(h)[0] == x);
        }
    }
    let p = choose|p: int| 0 <= p < kept(h).len() && kept(h)[p] == x;
    grouping::lemma_group_is_keyed(deduped(t), k);
    assert(deduped(t).contains(grouping::group(deduped(t), k)[p]));
}

/// What is left of a name holds no blank and no dash.
pub proof fn law_names_are_compared_without_blanks(lower: Seq<char>, i: int)
    requires
        0 <= i < stripped(lower).len(),
    ensures
        !text::is_space(stripped(lower)[i]),
        stripped(lower)[i] != '-',
        stripped(lower)[i] != '_',
{
    let a = text::without(lower, "键盘"@);
    let b = text::without(a, "鼠标"@);
    let c = text::without(b, "keyboard"@);
    let d = text::without(c, "mouse"@);
    let e = text::without(d, "2.4g"@);
    let f = text::without(e, "有线"@);
    f.lemma_filter_pred(|c: char| !text::is_space(c) && c != '-' && c != '_', i);
}

/// Taking words out of a name with a suffix leaves what it leaves of the name and of the
/// suffix.
proof fn lemma_stripped_suffix(name: Seq<char>, word: Seq<char>)
    requires
        ({
            let a = text::without(word, "键盘"@);
            let b = text::without(a, "鼠标"@);
            let c = text::without(b, "keyboard"@);
            let d = text::without(c, "mouse"@);
            let e = text::without(d, "2.4g"@);
            text::without(e, "有线"@).len() == 0
        }),
    ensures
        stripped(name.push(' ') + word) == stripped(name),
{
    reveal_strlit("键盘");
    reveal_strlit("鼠标");
    reveal_strlit("keyboard");
    reveal_strlit("mouse");
    reveal_strlit("2.4g");
    reveal_strlit("有线");
    let keep = |c: char| !text::is_space(c) && c != '-' && c != '_';
    let a = text::without(name, "键盘"@);
    let b = text::without(a, "鼠标"@);
    let c = text::without(b, "keyboard"@);
    let d = text::without(c, "mouse"@);
    let e = text::without(d, "2.4g"@);
    let f = text::without(e, "有线"@);
    let wa = text::without(word, "键盘"@);
    let wb = text::without(wa, "鼠标"@);
    let wc = text::without(wb, "keyboard"@);
    let wd = text::without(wc, "mouse"@);
    let we = text::without(wd, "2.4g"@);
    let wf = text::without(we, "有线"@);
    text::lemma_without_apart(name, ' ', word, "键盘"@);
    text::lemma_without_apart(a, ' ', wa, "鼠标"@);
    text::lemma_without_apart(b, ' ', wb, "keyboard"@);
    text::lemma_without_apart(c, ' ', wc, "mouse"@);
    text::lemma_without_apart(d, ' ', wd, "2.4g"@);
    text::lemma_without_apart(e, ' ', we, "有线"@);
    assert(f.push(' ') + wf =~= f.push(' '));
    assert(f.push(' ').drop_last() =~= f);
    assert(f.push(' ').filter(keep) == f.filter(keep)) by {
        reveal(Seq::filter);
    }
}

/// The words in which copies of one peripheral differ do not count: a name that one of
/// them follows is grouped with the name alone.
pub proof fn law_suffixes_do_not_count(name: Seq<char>)
    ensures
        stripped(name + " 2.4g"@) == stripped(name),
        stripped(name + " 有线"@) == stripped(name),
        stripped(name + " keyboard"@) == stripped(name),
        stripped(name + " mouse"@) == stripped(name),
        stripped(name + " 键盘"@) == stripped(name),
        stripped(name + " 鼠标"@) == stripped(name),
{
    reveal_strlit("键盘");
    reveal_strlit("鼠标");
    reveal_strlit("keyboard");
    reveal_strlit("mouse");
    reveal_strlit("2.4g");
    reveal_strlit("有线");
    reveal_strlit(" 键盘");
    reveal_strlit(" 鼠标");
    reveal_strlit(" keyboard");
    reveal_strlit(" mouse");
    reveal_strlit(" 2.4g");
    reveal_strlit(" 有线");
    let w0 = "键盘"@;
    let w1 = "鼠标"@;
    let w2 = "keyboard"@;
    let w3 = "mouse"@;
    let w4 = "2.4g"@;
    let w5 = "有线"@;
    let none = Seq::<char>::empty();
    text::lemma_without_self(w0);
    text::lemma_without_self(w1);
    text::lemma_without_self(w2);
    text::lemma_without_self(w3);
    text::lemma_without_self(w4);
    text::lemma_without_self(w5);
    text::lemma_without_absent(w1, w0);
    text::lemma_without_absent(w2, w0);
    text::lemma_without_absent(w2, w1);
    text::lemma_without_absent(w3, w0);
    text::lemma_without_absent(w3, w1);
    text::lemma_without_absent(w3, w2);
    text::lemma_without_absent(w4, w0);
    text::lemma_without_absent(w4, w1);
    text::lemma_without_absent(w4, w2);
    text::lemma_without_absent(w4, w3);
    text::lemma_without_absent(w5, w0);
    text::lemma_without_absent(w5, w1);
    text::lemma_without_absent(w5, w2);
    text::lemma_without_absent(w5, w3);
    text::lemma_without_absent(w5, w4);
    text::lemma_without_absent(none, w1);
    text::lemma_without_absent(none, w2);
    text::lemma_without_absent(none, w3);
    text::lemma_without_absent(none, w4);
    text::lemma_without_absent(none, w5);
    assert(text::without(w0, w0) =~= none);
    assert(text::without(w1, w1) =~= none);
    assert(text::without(w2, w2) =~= none);
    assert(text::without(w3, w3) =~= none);
    assert(text::without(w4, w4) =~= none);
    assert(text::without(w5, w5) =~= none);
    assert(name + " 2.4g"@ =~= name.push(' ') + w4);
    assert(name + " 有线"@ =~= name.push(' ') + w5);
    assert(name + " keyboard"@ =~= name.push(' ') + w2);
    assert(name + " mouse"@ =~= name.push(' ') + w3);
    assert(name + " 键盘"@ =~= name.push(' ') + w0);
    assert(name + " 鼠标"@ =~= name.push(' ') + w1);
    lemma_stripped_suffix(name, w0);
    lemma_stripped_suffix(name, w1);
    lemma_stripped_suffix(name, w2);
    lemma_stripped_suffix(name, w3);
    lemma_stripped_suffix(name, w4);
    lemma_stripped_suffix(name, w5);
}

/// Devices are listed with the connected ones first, and by name in lower case among
/// those alike in this; each device that was there is in the list, and no other.
pub proof fn law_connected_devices_come_first(devs: Seq<Device>, i: int, j: int)
    ensures
        ({
            let r = sorted_devices(devs);
            &&& r.len() == devs.len() && r.to_multiset() =~= devs.to_multiset()
            &&& 0 <= i < devs.len() ==> r.contains(devs[i]) && devs.contains(r[i])
            &&& 0 <= i < j < r.len() ==> {
                &&& r[j].connected ==> r[i].connected
                &&& r[i].connected == r[j].connected ==> !order::text_lt(
                    text::lowercase(r[j].name@),
                    text::lowercase(r[i].name@),
                )
            }
        }),
{
    let keys = device_keys(devs);
    let r = sorted_devices(devs);
    order::law_listing_keeps_rows(devs, keys);
    if 0 <= i < devs.len() {
        let a = order::lemma_in_order_has(devs, keys, i);
        assert(r[a] == devs[i]);
        let b = order::lemma_in_order_from(devs, keys, i);
        assert(devs[b] == r[i]);
    }
    if 0 <= i < j < r.len() {
        let (a, b) = order::lemma_in_order_sorted(devs, keys, i, j);
        assert(keys[a] == (devs[a].connected, text::lowercase(devs[a].name@)));
        assert(keys[b] == (devs[b].connected, text::lowercase(devs[b].name@)));
    }
}

/// The same of what devices say.
pub proof fn law_connected_rows_come_first(devs: Seq<DeviceView>, i: int, j: int)
    ensures
        ({
            let r = sorted_views(devs);
            &&& r.len() == devs.len() && r.to_multiset() =~= devs.to_multiset()
            &&& 0 <= i < devs.len() ==> r.contains(devs[i]) && devs.contains(r[i])
            &&& 0 <= i < j < r.len() ==> {
                &&& r[j].connected ==> r[i].connected
                &&& r[i].connected == r[j].connected ==> !order::text_lt(
                    text::lowercase(r[j].name),
                    text::lowercase(r[i].name),
                )
            }
        }),
{
    let keys = devs.map_values(|d: DeviceView| (d.connected, text::lowercase(d.name)));
    let r = sorted_views(devs);
    order::law_listing_keeps_rows(devs, keys);
    if 0 <= i < devs.len() {
        let a = order::lemma_in_order_has(devs, keys, i);
        assert(r[a] == devs[i]);
        let b = order::lemma_in_order_from(devs, keys, i);
        assert(devs[b] == r[i]);
    }
    if 0 <= i < j < r.len() {
        let (a, b) = order::lemma_in_order_sorted(devs, keys, i, j);
        assert(keys[a] == (devs[a].connected, text::lowercase(devs[a].name)));
        assert(keys[b] == (devs[b].connected, text::lowercase(devs[b].name)));
    }
}

/// A short name is the name without outer white space, whole if it has 22 characters at
/// most, and otherwise its first 22 followed by an ellipsis.
pub proof fn law_short_names_keep_their_beginning(n: Seq<char>)
    ensures
        n.len() <= 22 ==> shortened(n) == n,
        n.len() > 22 ==> shortened(n).len() == 23 && shortened(n).take(22) == n.take(22)
            && shortened(n)[22] == '…',
{
    if n.len() > 22 {
        assert(shortened(n).take(22) =~= n.take(22));
    }
}

/// The tooltip tells every device: its short name stands there, followed by its battery
/// in percent, or by two dashes if it has none; and it tells them in order.
pub proof fn law_tooltip_tells_every_device(devs: Seq<Device>, d: Device, i: int)
    ensures
        0 <= i < devs.len() ==> {
            let name = shortened(text::trimmed(devs[i].name@));
            &&& devs[i].battery matches Some(b) ==> text::contains(
                summary(devs),
                name + " "@ + text::decimal(b as nat) + "%"@,
            )
            &&& devs[i].battery is None ==> text::contains(summary(devs), name + " --"@)
        },
        devs.len() > 0 ==> text::starts_with(summary(devs.push(d)), summary(devs) + "  "@),
    decreases devs.len(),
{
    if devs.len() > 0 {
        assert(devs.push(d).drop_last() =~= devs);
        text::law_contains_is_between(summary(devs.push(d)), summary(devs) + "  "@);
        assert(summary(devs.push(d)) == summary(devs) + "  "@ + summary_entry(d));
    }
    if 0 <= i < devs.len() {
        let e = summary_entry(devs[i]);
        text::law_contains_is_between(summary(devs), e);
        let t = devs.drop_last();
        let none = Seq::<char>::empty();
        if i == devs.len() - 1 {
            if t.len() == 0 {
                assert(summary(devs) =~= none + e + none);
            } else {
                assert(summary(devs) =~= (summary_list(t) + "  "@) + e + none);
            }
        } else {
            law_tooltip_tells_every_device(t, d, i);
            assert(t[i] == devs[i]);
            text::law_contains_is_between(summary(t), e);
            let (a, b) = choose|a: Seq<char>, b: Seq<char>| summary(t) == #[trigger] (a + e + b);
            assert(summary(devs) =~= a + e + (b + "  "@ + summary_entry(devs.last())));
        }
    }
}

/// A device's row says what it holds, and a list says it of each in turn.
pub proof fn law_rows_tell_all(devs: Seq<Device>, i: int)
    requires
        0 <= i < devs.len(),
    ensures
        ({
            let v = views(devs)[i];
            let d = devs[i];
            &&& views(devs).len() == devs.len()
            &&& v.name == d.name@ && v.address == d.address@ && v.is_le == d.is_le
            &&& v.connected == d.connected && v.battery == d.battery
            &&& v.status == d.status@ && v.kind == d.kind@
        }),
{
}

} // verus!
