//! HID collections and the device rows that they make up.

use vstd::prelude::*;

use crate::grouping;
use crate::model;
use crate::model::{Device, DeviceView, sort_devices};
use crate::order;
use crate::receiver;
use crate::receiver::{display_name_for, emit_kinds, format_hid_addr, include_receiver, is_sonix_vid};
use crate::text;
use crate::text::{has_text, owned, to_ascii_upper, trim};

verus! {

/// A HID top-level collection that could be opened.
#[derive(Debug)]
pub struct HidDevice {
    pub path: String,
    pub vid: u16,
    pub pid: u16,
    pub usage_page: u16,
    pub usage: u16,
    pub input_len: u16,
    pub output_len: u16,
    pub feature_len: u16,
    pub product: String,
    pub manufacturer: String,
    pub access: &'static str,
    /// Battery found via standard HID usage or vendor protocol, 0..=100.
    pub battery: Option<u8>,
    /// The bytes of the first report that was read (hex), for diagnosis.
    pub feature_hex: String,
    /// Why a vendor battery query failed (empty if unused).
    pub debug: String,
    /// The collection proves that the peripheral is on-link: the USB cable is
    /// there, or a fresh wireless reply came.
    pub link_up: bool,
}

impl Clone for HidDevice {
    fn clone(&self) -> (r: Self)
        ensures
            r == *self,
    {
        HidDevice {
            path: self.path.clone(),
            vid: self.vid,
            pid: self.pid,
            usage_page: self.usage_page,
            usage: self.usage,
            input_len: self.input_len,
            output_len: self.output_len,
            feature_len: self.feature_len,
            product: self.product.clone(),
            manufacturer: self.manufacturer.clone(),
            access: self.access,
            battery: self.battery,
            feature_hex: self.feature_hex.clone(),
            debug: self.debug.clone(),
            link_up: self.link_up,
        }
    }
}

/// What a `HidDevice` says, with its texts as sequences of characters.
#[verifier::ext_equal]
pub struct HidView {
    pub path: Seq<char>,
    pub vid: u16,
    pub pid: u16,
    pub usage_page: u16,
    pub usage: u16,
    pub input_len: u16,
    pub output_len: u16,
    pub feature_len: u16,
    pub product: Seq<char>,
    pub manufacturer: Seq<char>,
    pub access: Seq<char>,
    pub battery: Option<u8>,
    pub feature_hex: Seq<char>,
    pub debug: Seq<char>,
    pub link_up: bool,
}

impl View for HidDevice {
    type V = HidView;

    open spec fn view(&self) -> HidView {
        HidView {
            path: self.path@,
            vid: self.vid,
            pid: self.pid,
            usage_page: self.usage_page,
            usage: self.usage,
            input_len: self.input_len,
            output_len: self.output_len,
            feature_len: self.feature_len,
            product: self.product@,
            manufacturer: self.manufacturer@,
            access: self.access@,
            battery: self.battery,
            feature_hex: self.feature_hex@,
            debug: self.debug@,
            link_up: self.link_up,
        }
    }
}

/// The batteries of all collections are percentages.
pub open spec fn all_percent(raw: Seq<HidView>) -> bool {
    forall|i: int| 0 <= i < raw.len() ==> model::is_percent((#[trigger] raw[i]).battery)
}

/// What each collection of a list says.
pub open spec fn views(raw: Seq<HidDevice>) -> Seq<HidView> {
    raw.map_values(|d: HidDevice| d@)
}

/// A copy of a list of collections.
pub fn clone_collections(raw: &Vec<HidDevice>) -> (r: Vec<HidDevice>)
    ensures
        r@ == raw@,
{
    let mut out: Vec<HidDevice> = Vec::new();
    for i in 0..raw.len()
        invariant
            out@ == raw@.take(i as int),
    {
        out.push(raw[i].clone());
        assert(out@ =~= raw@.take(i + 1));
    }
    assert(raw@.take(raw@.len() as int) =~= raw@);
    out
}

// ------------------------------------------------------------ one receiver

/// The page and usage of each collection.
pub open spec fn usages(m: Seq<HidView>) -> Seq<(u16, u16)> {
    m.map_values(|d: HidView| (d.usage_page, d.usage))
}

/// The first product name that is not blank.
pub open spec fn product_of(m: Seq<HidView>) -> Seq<char>
    decreases m.len(),
{
    if m.len() == 0 {
        Seq::empty()
    } else if text::trimmed(m[0].product).len() > 0 {
        text::trimmed(m[0].product)
    } else {
        product_of(m.skip(1))
    }
}

/// The first battery value.
pub open spec fn battery_of(m: Seq<HidView>) -> Option<u8>
    decreases m.len(),
{
    if m.len() == 0 {
        None
    } else if m[0].battery is Some {
        m[0].battery
    } else {
        battery_of(m.skip(1))
    }
}

/// Some collection proves the peripheral on-link.
pub open spec fn some_link(m: Seq<HidView>) -> bool {
    exists|i: int| 0 <= i < m.len() && (#[trigger] m[i]).link_up
}

/// The row that a receiver's collections make for one kind. A Sonix keyboard is
/// connected when its link is proven or its cable is there; any other receiver
/// when it told a battery value.
pub open spec fn receiver_row(
    vid: u16,
    pid: u16,
    m: Seq<HidView>,
    kind: Seq<char>,
) -> DeviceView {
    let p = receiver::friendly(vid, pid, product_of(m));
    let battery = battery_of(m);
    let connected = if vid == 0x0C45 {
        pid == 0x8006 || some_link(m)
    } else {
        battery is Some
    };
    DeviceView {
        name: receiver::row_name(p, text::lowercase(p), kind),
        address: receiver::hid_address(vid, pid, kind),
        is_le: false,
        connected,
        battery,
        status: if connected {
            "ok"@
        } else {
            "offline"@
        },
        kind,
    }
}

/// The rows that a receiver's collections make.
pub open spec fn receiver_rows(vid: u16, pid: u16, m: Seq<HidView>) -> Seq<DeviceView> {
    if m.len() > 0 && receiver::is_receiver(
        vid,
        pid,
        text::lowercase(product_of(m)),
        text::lowercase(m[0].path),
        usages(m),
    ) {
        receiver::shown_kinds(vid, usages(m)).map_values(
            |k: Seq<char>| receiver_row(vid, pid, m, k),
        )
    } else {
        Seq::empty()
    }
}

fn first_product(m: &Vec<HidDevice>) -> (r: String)
    ensures
        r@ == product_of(views(m@)),
{
    let ghost v = views(m@);
    assert(v.skip(0) =~= v);
    for i in 0..m.len()
        invariant
            v == views(m@),
            product_of(v) == product_of(v.skip(i as int)),
    {
        let p = trim(m[i].product.as_str());
        if !p.as_str().is_empty() {
            return p;
        }
        assert(v.skip(i as int).skip(1) =~= v.skip(i + 1));
    }
    String::new()
}

fn first_battery(m: &Vec<HidDevice>) -> (r: Option<u8>)
    ensures
        r == battery_of(views(m@)),
{
    let ghost v = views(m@);
    assert(v.skip(0) =~= v);
    for i in 0..m.len()
        invariant
            v == views(m@),
            battery_of(v) == battery_of(v.skip(i as int)),
    {
        if m[i].battery.is_some() {
            return m[i].battery;
        }
        assert(v.skip(i as int).skip(1) =~= v.skip(i + 1));
    }
    None
}

fn any_link(m: &Vec<HidDevice>) -> (r: bool)
    ensures
        r == some_link(views(m@)),
{
    let ghost v = views(m@);
    for i in 0..m.len()
        invariant
            v == views(m@),
            forall|j: int| 0 <= j < i ==> !(#[trigger] v[j]).link_up,
    {
        if m[i].link_up {
            assert(v[i as int].link_up);
            return true;
        }
    }
    false
}

fn usage_pairs(m: &Vec<HidDevice>) -> (r: Vec<(u16, u16)>)
    ensures
        r@ == usages(views(m@)),
{
    let mut out: Vec<(u16, u16)> = Vec::new();
    for i in 0..m.len()
        invariant
            out@ == usages(views(m@)).take(i as int),
    {
        out.push((m[i].usage_page, m[i].usage));
        assert(out@ =~= usages(views(m@)).take(i + 1));
    }
    assert(out@ =~= usages(views(m@)));
    out
}

/// The rows that a receiver's collections make.
fn rows_of_receiver(vid: u16, pid: u16, m: &Vec<HidDevice>) -> (r: Vec<Device>)
    ensures
        model::views(r@) == receiver_rows(vid, pid, views(m@)),
{
    let mut out: Vec<Device> = Vec::new();
    if m.len() == 0 {
        assert(model::views(out@) =~= receiver_rows(vid, pid, views(m@)));
        return out;
    }
    let pairs = usage_pairs(m);
    let product = first_product(m);
    if !include_receiver(vid, pid, product.as_str(), m[0].path.as_str(), &pairs) {
        assert(model::views(out@) =~= receiver_rows(vid, pid, views(m@)));
        return out;
    }
    let battery = first_battery(m);
    let link = pid == 0x8006 || any_link(m);
    let connected = if is_sonix_vid(vid) {
        link
    } else {
        battery.is_some()
    };
    let kinds = emit_kinds(vid, &pairs);
    let ghost want = receiver::shown_kinds(vid, usages(views(m@))).map_values(
        |k: Seq<char>| receiver_row(vid, pid, views(m@), k),
    );
    for i in 0..kinds.len()
        invariant
            receiver::strs(kinds@) == receiver::shown_kinds(vid, usages(views(m@))),
            want == receiver::shown_kinds(vid, usages(views(m@))).map_values(
                |k: Seq<char>| receiver_row(vid, pid, views(m@), k),
            ),
            product@ == product_of(views(m@)),
            battery == battery_of(views(m@)),
            connected == if vid == 0x0C45 {
                pid == 0x8006 || some_link(views(m@))
            } else {
                battery is Some
            },
            model::views(out@) == want.take(i as int),
    {
        let kind: &'static str = kinds[i];
        assert(receiver::strs(kinds@)[i as int] == kind@);
        let d = Device {
            name: display_name_for(vid, pid, product.as_str(), kind),
            address: format_hid_addr(vid, pid, kind),
            is_le: false,
            connected,
            battery,
            status: if connected {
                "ok"
            } else {
                "offline"
            },
            kind,
        };
        assert(d@ =~= receiver_row(vid, pid, views(m@), kind@));
        assert(want.len() == receiver::strs(kinds@).len() && want[i as int] == d@);
        let ghost before = out@;
        out.push(d);
        assert(model::views(out@) =~= model::views(before).push(d@));
        assert(want.take(i + 1) =~= want.take(i as int).push(want[i as int]));
    }
    assert(receiver::strs(kinds@).len() == kinds@.len());
    assert(model::views(out@) =~= receiver_rows(vid, pid, views(m@)));
    out
}

// ---------------------------------------------------------------- all of them

/// Collections next to the vendor and product id that they are grouped by.
pub open spec fn by_ids(raw: Seq<HidView>) -> Seq<((u16, u16), HidView)> {
    raw.map_values(|d: HidView| ((d.vid, d.pid), d))
}

/// The rows of the receivers with ids `order`, one receiver after the other.
pub open spec fn rows_in_order(raw: Seq<HidView>, order: Seq<(u16, u16)>) -> Seq<DeviceView>
    decreases order.len(),
{
    if order.len() == 0 {
        Seq::empty()
    } else {
        let id = order.last();
        rows_in_order(raw, order.drop_last()) + receiver_rows(
            id.0,
            id.1,
            grouping::rows(grouping::group(by_ids(raw), id)),
        )
    }
}

/// The rows of all receivers.
pub open spec fn all_rows(raw: Seq<HidView>) -> Seq<DeviceView> {
    rows_in_order(raw, grouping::first_keys(by_ids(raw)))
}

fn ids_in_order(raw: &Vec<HidDevice>) -> (r: Vec<(u16, u16)>)
    ensures
        r@ == grouping::first_keys(by_ids(views(raw@))),
{
    let ghost s = by_ids(views(raw@));
    let mut out: Vec<(u16, u16)> = Vec::new();
    for i in 0..raw.len()
        invariant
            s == by_ids(views(raw@)),
            out@ == grouping::first_keys(s.take(i as int)),
    {
        assert(s.take(i + 1).drop_last() =~= s.take(i as int));
        let id: (u16, u16) = (raw[i].vid, raw[i].pid);
        let mut seen = false;
        for j in 0..out.len()
            invariant
                seen == exists|k: int| 0 <= k < j && out@[k] == id,
        {
            if out[j].0 == id.0 && out[j].1 == id.1 {
                seen = true;
                assert(out@[j as int] == id);
            }
        }
        if !seen {
            out.push(id);
        }
    }
    assert(s.take(s.len() as int) =~= s);
    out
}

fn collections_of(raw: &Vec<HidDevice>, id: (u16, u16)) -> (r: Vec<HidDevice>)
    ensures
        views(r@) == grouping::rows(grouping::group(by_ids(views(raw@)), id)),
{
    let ghost s = by_ids(views(raw@));
    let mut out: Vec<HidDevice> = Vec::new();
    for i in 0..raw.len()
        invariant
            s == by_ids(views(raw@)),
            views(out@) == grouping::rows(grouping::group(s.take(i as int), id)),
    {
        let ghost before = grouping::group(s.take(i as int), id);
        assert(s.take(i + 1).drop_last() =~= s.take(i as int));
        reveal(Seq::filter);
        if raw[i].vid == id.0 && raw[i].pid == id.1 {
            let ghost kept = out@;
            out.push(raw[i].clone());
            assert(views(out@) =~= views(kept).push(s[i as int].1));
            assert(grouping::rows(before.push(s[i as int])) =~= grouping::rows(before).push(
                s[i as int].1,
            ));
        }
    }
    assert(s.take(s.len() as int) =~= s);
    out
}

// -------------------------------------------- one row for cable and dongle

/// The address of the keyboard that has a dongle and a cable.
pub open spec fn x87_address() -> Seq<char> {
    "hid:0C45:FEFE:Keyboard"@
}

/// A row is that of the keyboard's cable.
pub open spec fn is_wired_row(d: DeviceView) -> bool {
    text::contains(text::ascii_upper(d.address), "0C45:8006"@)
}

/// A row is that of the keyboard's dongle.
pub open spec fn is_dongle_row(d: DeviceView) -> bool {
    !is_wired_row(d) && text::contains(text::ascii_upper(d.address), "0C45:FEFE"@)
}

/// The last row of the keyboard's cable.
pub open spec fn last_wired(s: Seq<DeviceView>) -> Option<DeviceView>
    decreases s.len(),
{
    if s.len() == 0 {
        None
    } else if is_wired_row(s.last()) {
        Some(s.last())
    } else {
        last_wired(s.drop_last())
    }
}

/// The last row of the keyboard's dongle.
pub open spec fn last_dongle(s: Seq<DeviceView>) -> Option<DeviceView>
    decreases s.len(),
{
    if s.len() == 0 {
        None
    } else if is_dongle_row(s.last()) {
        Some(s.last())
    } else {
        last_dongle(s.drop_last())
    }
}

/// The rows of other peripherals.
pub open spec fn other_rows(s: Seq<DeviceView>) -> Seq<DeviceView> {
    s.filter(|d: DeviceView| !is_wired_row(d) && !is_dongle_row(d))
}

/// The one row of the keyboard, given the rows of its cable and its dongle.
pub open spec fn x87_row(wired: Option<DeviceView>, dongle: Option<DeviceView>) -> Option<
    DeviceView,
> {
    match (wired, dongle) {
        (Some(w), Some(rf)) => {
            let connected = w.connected || rf.connected;
            Some(
                DeviceView {
                    name: "前行者 X87 有线"@,
                    address: x87_address(),
                    connected,
                    status: if connected {
                        "ok"@
                    } else {
                        "offline"@
                    },
                    battery: if rf.battery is None {
                        w.battery
                    } else {
                        rf.battery
                    },
                    ..rf
                },
            )
        },
        (Some(w), None) => Some(
            DeviceView {
                name: "前行者 X87 有线"@,
                address: x87_address(),
                connected: true,
                status: "ok"@,
                ..w
            },
        ),
        (None, Some(rf)) => Some(DeviceView { name: "前行者 X87 2.4G"@, ..rf }),
        (None, None) => None,
    }
}

/// Rows with one row for the keyboard's cable and dongle.
pub open spec fn merged(s: Seq<DeviceView>) -> Seq<DeviceView> {
    match x87_row(last_wired(s), last_dongle(s)) {
        Some(d) => other_rows(s).push(d),
        None => other_rows(s),
    }
}

/// The USB cable (`8006`) and the 2.4 GHz dongle (`FEFE`) are the same keyboard:
/// it gets one row, with the dongle's address whatever the link.
pub fn merge_x87_rows(devs: Vec<Device>) -> (r: Vec<Device>)
    ensures
        model::views(r@) == merged(model::views(devs@)),
{
    let ghost all = model::views(devs@);
    let mut wired: Option<Device> = None;
    let mut dongle: Option<Device> = None;
    let mut rest: Vec<Device> = Vec::new();
    for i in 0..devs.len()
        invariant
            all == model::views(devs@),
            match wired {
                Some(w) => last_wired(all.take(i as int)) == Some(w@),
                None => last_wired(all.take(i as int)) is None,
            },
            match dongle {
                Some(d) => last_dongle(all.take(i as int)) == Some(d@),
                None => last_dongle(all.take(i as int)) is None,
            },
            model::views(rest@) == other_rows(all.take(i as int)),
    {
        let ghost before = all.take(i as int);
        let ghost d = all[i as int];
        assert(all.take(i + 1).drop_last() =~= before);
        reveal(Seq::filter);
        let a = to_ascii_upper(devs[i].address.as_str());
        if has_text(a.as_str(), "0C45:8006") {
            wired = Some(devs[i].clone());
        } else if has_text(a.as_str(), "0C45:FEFE") {
            dongle = Some(devs[i].clone());
        } else {
            rest.push(devs[i].clone());
            assert(model::views(rest@) =~= other_rows(before).push(d));
        }
    }
    assert(all.take(all.len() as int) =~= all);
    let ghost others = rest@;
    let row: Option<Device> = match (wired, dongle) {
        (Some(w), Some(rf)) => {
            let connected = w.connected || rf.connected;
            Some(
                Device {
                    name: owned("前行者 X87 有线"),
                    address: owned("hid:0C45:FEFE:Keyboard"),
                    is_le: rf.is_le,
                    connected,
                    battery: if rf.battery.is_none() {
                        w.battery
                    } else {
                        rf.battery
                    },
                    status: if connected {
                        "ok"
                    } else {
                        "offline"
                    },
                    kind: rf.kind,
                },
            )
        },
        (Some(w), None) => Some(
            Device {
                name: owned("前行者 X87 有线"),
                address: owned("hid:0C45:FEFE:Keyboard"),
                is_le: w.is_le,
                connected: true,
                battery: w.battery,
                status: "ok",
                kind: w.kind,
            },
        ),
        (None, Some(rf)) => Some(
            Device {
                name: owned("前行者 X87 2.4G"),
                address: rf.address,
                is_le: rf.is_le,
                connected: rf.connected,
                battery: rf.battery,
                status: rf.status,
                kind: rf.kind,
            },
        ),
        (None, None) => None,
    };
    match row {
        Some(d) => {
            assert(Some(d@) == x87_row(last_wired(all), last_dongle(all)));
            rest.push(d);
            assert(model::views(rest@) =~= model::views(others).push(d@));
        },
        None => {},
    }
    rest
}

/// What the device rows of some collections say, in listing order.
pub open spec fn device_rows(raw: Seq<HidView>) -> Seq<DeviceView> {
    model::sorted_views(merged(all_rows(raw)))
}

/// Turns collections into device rows: one receiver per vendor and product id,
/// in the order in which they first occur, then in listing order.
pub fn collections_to_devices(raw: &Vec<HidDevice>) -> (r: Vec<Device>)
    ensures
        model::views(r@) == device_rows(views(raw@)),
{
    let order = ids_in_order(raw);
    let mut out: Vec<Device> = Vec::new();
    for i in 0..order.len()
        invariant
            order@ == grouping::first_keys(by_ids(views(raw@))),
            model::views(out@) == rows_in_order(views(raw@), order@.take(i as int)),
    {
        let id: (u16, u16) = order[i];
        assert(order@.take(i + 1).drop_last() =~= order@.take(i as int));
        let m = collections_of(raw, id);
        let mut rows = rows_of_receiver(id.0, id.1, &m);
        let ghost before = out@;
        let ghost added = rows@;
        out.append(&mut rows);
        assert(model::views(out@) =~= model::views(before) + model::views(added));
    }
    assert(order@.take(order@.len() as int) =~= order@);
    let one = merge_x87_rows(out);
    sort_devices(one)
}

// --------------------------------------------------------------------- laws

proof fn lemma_battery_of(m: Seq<HidView>)
    requires
        all_percent(m),
    ensures
        model::is_percent(battery_of(m)),
    decreases m.len(),
{
    if m.len() > 0 {
        let t = m.skip(1);
        assert forall|i: int| 0 <= i < t.len() implies model::is_percent(
            (#[trigger] t[i]).battery,
        ) by {
            assert(t[i] == m[i + 1]);
        }
        lemma_battery_of(t);
        assert(model::is_percent(m[0].battery));
    }
}

proof fn lemma_rows_in_order(raw: Seq<HidView>, order: Seq<(u16, u16)>)
    requires
        all_percent(raw),
    ensures
        model::all_percent(rows_in_order(raw, order)),
    decreases order.len(),
{
    if order.len() > 0 {
        lemma_rows_in_order(raw, order.drop_last());
        let id = order.last();
        let s = by_ids(raw);
        let f = grouping::in_group::<(u16, u16), HidView>(id);
        let g = grouping::group(s, id);
        let m = grouping::rows(g);
        assert forall|i: int| 0 <= i < m.len() implies model::is_percent(
            (#[trigger] m[i]).battery,
        ) by {
            assert(g.contains(g[i]));
            s.lemma_filter_contains_rev(f, g[i]);
            let j = choose|j: int| 0 <= j < s.len() && s[j] == g[i];
            assert(m[i] == raw[j]);
        }
        lemma_battery_of(m);
        let before = rows_in_order(raw, order.drop_last());
        let all = rows_in_order(raw, order);
        assert forall|i: int| 0 <= i < all.len() implies model::is_percent(
            (#[trigger] all[i]).battery,
        ) by {
            if i < before.len() {
                assert(all[i] == before[i]);
            }
        }
    }
}

proof fn lemma_last_rows(s: Seq<DeviceView>)
    requires
        model::all_percent(s),
    ensures
        last_wired(s) matches Some(d) ==> model::is_percent(d.battery),
        last_dongle(s) matches Some(d) ==> model::is_percent(d.battery),
    decreases s.len(),
{
    if s.len() > 0 {
        let t = s.drop_last();
        assert forall|i: int| 0 <= i < t.len() implies model::is_percent(
            (#[trigger] t[i]).battery,
        ) by {
            assert(t[i] == s[i]);
        }
        lemma_last_rows(t);
        assert(model::is_percent(s[s.len() - 1].battery));
    }
}

/// Where the batteries of all collections are percentages, those of the rows are.
pub proof fn law_rows_show_percentages(raw: Seq<HidView>)
    requires
        all_percent(raw),
    ensures
        model::all_percent(device_rows(raw)),
{
    let s = all_rows(raw);
    lemma_rows_in_order(raw, grouping::first_keys(by_ids(raw)));
    lemma_last_rows(s);
    let f = |d: DeviceView| !is_wired_row(d) && !is_dongle_row(d);
    let others = other_rows(s);
    let all = merged(s);
    assert forall|i: int| 0 <= i < all.len() implies model::is_percent(
        (#[trigger] all[i]).battery,
    ) by {
        if i < others.len() {
            assert(all[i] == others[i]);
            assert(others.contains(others[i]));
            s.lemma_filter_contains_rev(f, others[i]);
            let j = choose|j: int| 0 <= j < s.len() && s[j] == others[i];
            assert(model::is_percent(s[j].battery));
        }
    }
    let rows = device_rows(raw);
    assert forall|i: int| 0 <= i < rows.len() implies model::is_percent(
        (#[trigger] rows[i]).battery,
    ) by {
        let j = order::lemma_in_order_from(
            all,
            all.map_values(|d: DeviceView| (d.connected, text::lowercase(d.name))),
            i,
        );
        assert(model::is_percent(all[j].battery));
    }
}

/// The collections of the receiver with some ids.
pub open spec fn members(raw: Seq<HidView>, vid: u16, pid: u16) -> Seq<HidView> {
    grouping::rows(grouping::group(by_ids(raw), (vid, pid)))
}

/// One more collection is a member if it has the ids.
proof fn lemma_members_push(raw: Seq<HidView>, x: HidView, vid: u16, pid: u16)
    ensures
        members(raw.push(x), vid, pid) == if x.vid == vid && x.pid == pid {
            members(raw, vid, pid).push(x)
        } else {
            members(raw, vid, pid)
        },
{
    let s = by_ids(raw);
    let y = ((x.vid, x.pid), x);
    assert(by_ids(raw.push(x)) =~= s.push(y));
    assert(s.push(y).drop_last() =~= s);
    let g = grouping::group(s, (vid, pid));
    reveal(Seq::filter);
    assert(grouping::rows(g.push(y)) =~= grouping::rows(g).push(x));
}

/// The members are the collections with the ids.
proof fn lemma_members(raw: Seq<HidView>, vid: u16, pid: u16)
    ensures
        forall|k: int|
            0 <= k < raw.len() && (#[trigger] raw[k]).vid == vid && raw[k].pid == pid ==> members(
                raw,
                vid,
                pid,
            ).contains(raw[k]),
        forall|k: int|
            0 <= k < members(raw, vid, pid).len() ==> raw.contains(
                #[trigger] members(raw, vid, pid)[k],
            ) && members(raw, vid, pid)[k].vid == vid && members(raw, vid, pid)[k].pid == pid,
    decreases raw.len(),
{
    let m = members(raw, vid, pid);
    if raw.len() > 0 {
        let t = raw.drop_last();
        let x = raw.last();
        let n = members(t, vid, pid);
        lemma_members(t, vid, pid);
        assert(t.push(x) =~= raw);
        lemma_members_push(t, x, vid, pid);
        assert forall|k: int|
            0 <= k < raw.len() && (#[trigger] raw[k]).vid == vid && raw[k].pid
                == pid implies m.contains(raw[k]) by {
            if k < t.len() {
                assert(t[k] == raw[k]);
                let q = choose|q: int| 0 <= q < n.len() && n[q] == raw[k];
                assert(m[q] == raw[k]);
            } else {
                assert(m[n.len() as int] == raw[k]);
            }
        }
        assert forall|k: int| 0 <= k < m.len() implies raw.contains(#[trigger] m[k]) && m[k].vid
            == vid && m[k].pid == pid by {
            if k < n.len() {
                assert(m[k] == n[k]);
                assert(t.contains(n[k]));
                let q = choose|q: int| 0 <= q < t.len() && t[q] == n[k];
                assert(raw[q] == m[k]);
            } else {
                assert(raw[raw.len() - 1] == m[k]);
            }
        }
    } else {
        assert(by_ids(raw) =~= Seq::empty());
        reveal(Seq::filter);
    }
}

proof fn lemma_battery_push(m: Seq<HidView>, x: HidView)
    ensures
        battery_of(m.push(x)) == if battery_of(m) is Some {
            battery_of(m)
        } else {
            x.battery
        },
    decreases m.len(),
{
    let p = m.push(x);
    if m.len() == 0 {
        assert(p.skip(1) =~= Seq::empty());
        assert(battery_of(p.skip(1)) is None);
    } else {
        assert(p.skip(1) =~= m.skip(1).push(x));
        lemma_battery_push(m.skip(1), x);
    }
}

/// The battery that a receiver tells is that of the first of its collections that holds
/// one.
proof fn lemma_first_battery(raw: Seq<HidView>, vid: u16, pid: u16)
    ensures
        match battery_of(members(raw, vid, pid)) {
            Some(b) => exists|k: int|
                0 <= k < raw.len() && (#[trigger] raw[k]).vid == vid && raw[k].pid == pid
                    && raw[k].battery == Some(b) && forall|j: int|
                    0 <= j < k && (#[trigger] raw[j]).vid == vid && raw[j].pid == pid
                        ==> raw[j].battery is None,
            None => forall|k: int|
                0 <= k < raw.len() && (#[trigger] raw[k]).vid == vid && raw[k].pid == pid
                    ==> raw[k].battery is None,
        },
    decreases raw.len(),
{
    if raw.len() > 0 {
        let t = raw.drop_last();
        let x = raw.last();
        lemma_first_battery(t, vid, pid);
        assert(t.push(x) =~= raw);
        lemma_members_push(t, x, vid, pid);
        let m = members(t, vid, pid);
        lemma_battery_push(m, x);
        match battery_of(m) {
            Some(b) => {
                let k = choose|k: int|
                    0 <= k < t.len() && (#[trigger] t[k]).vid == vid && t[k].pid == pid
                        && t[k].battery == Some(b) && forall|j: int|
                        0 <= j < k && (#[trigger] t[j]).vid == vid && t[j].pid == pid
                            ==> t[j].battery is None;
                assert(raw[k] == t[k]);
                assert forall|j: int|
                    0 <= j < k && (#[trigger] raw[j]).vid == vid && raw[j].pid
                        == pid implies raw[j].battery is None by {
                    assert(raw[j] == t[j]);
                }
            },
            None => {
                assert forall|j: int|
                    0 <= j < t.len() && (#[trigger] raw[j]).vid == vid && raw[j].pid
                        == pid implies raw[j].battery is None by {
                    assert(raw[j] == t[j]);
                }
                assert(raw[raw.len() - 1] == x);
            },
        }
    } else {
        assert(by_ids(raw) =~= Seq::empty());
        reveal(Seq::filter);
    }
}

/// A row of the receivers with ids `order` is one of those of one of them.
proof fn lemma_row_from(raw: Seq<HidView>, order: Seq<(u16, u16)>, i: int) -> (r: (
    (u16, u16),
    Seq<char>,
))
    requires
        0 <= i < rows_in_order(raw, order).len(),
    ensures
        rows_in_order(raw, order)[i] == receiver_row(r.0.0, r.0.1, members(raw, r.0.0, r.0.1), r.1),
        receiver::is_row_kind(r.1),
        receiver::shown_kinds(r.0.0, usages(members(raw, r.0.0, r.0.1))).contains(r.1),
        receiver::is_receiver(
            r.0.0,
            r.0.1,
            text::lowercase(product_of(members(raw, r.0.0, r.0.1))),
            text::lowercase(members(raw, r.0.0, r.0.1)[0].path),
            usages(members(raw, r.0.0, r.0.1)),
        ),
        members(raw, r.0.0, r.0.1).len() > 0,
    decreases order.len(),
{
    let before = rows_in_order(raw, order.drop_last());
    if i < before.len() {
        lemma_row_from(raw, order.drop_last(), i)
    } else {
        let id = order.last();
        let m = members(raw, id.0, id.1);
        let k = receiver::shown_kinds(id.0, usages(m));
        receiver::law_kinds_follow_collections(id.0, usages(m));
        assert(k.contains(k[i - before.len()]));
        assert(receiver::is_row_kind(k[i - before.len()]));
        (id, k[i - before.len()])
    }
}

/// The rows of a receiver among `order` are there.
proof fn lemma_row_there(
    raw: Seq<HidView>,
    order: Seq<(u16, u16)>,
    id: (u16, u16),
    kind: Seq<char>,
) -> (i: int)
    requires
        order.contains(id),
        members(raw, id.0, id.1).len() > 0,
        receiver::is_receiver(
            id.0,
            id.1,
            text::lowercase(product_of(members(raw, id.0, id.1))),
            text::lowercase(members(raw, id.0, id.1)[0].path),
            usages(members(raw, id.0, id.1)),
        ),
        receiver::shown_kinds(id.0, usages(members(raw, id.0, id.1))).contains(kind),
    ensures
        0 <= i < rows_in_order(raw, order).len(),
        rows_in_order(raw, order)[i] == receiver_row(id.0, id.1, members(raw, id.0, id.1), kind),
    decreases order.len(),
{
    let before = rows_in_order(raw, order.drop_last());
    if order.last() == id {
        let m = members(raw, id.0, id.1);
        let k = receiver::shown_kinds(id.0, usages(m));
        let q = choose|q: int| 0 <= q < k.len() && k[q] == kind;
        let own = receiver_rows(id.0, id.1, m);
        assert(own[q] == receiver_row(id.0, id.1, m, kind));
        assert(rows_in_order(raw, order) =~= before + own);
        before.len() + q
    } else {
        let t = order.drop_last();
        let q = choose|q: int| 0 <= q < order.len() && order[q] == id;
        assert(t[q] == id);
        let i = lemma_row_there(raw, t, id, kind);
        assert(rows_in_order(raw, order)[i] == before[i]);
        i
    }
}

/// Receivers are looked at by the ids of some collection.
proof fn lemma_ids_looked_at(raw: Seq<HidView>, k: int)
    requires
        0 <= k < raw.len(),
    ensures
        grouping::first_keys(by_ids(raw)).contains((raw[k].vid, raw[k].pid)),
{
    grouping::lemma_first_keys(by_ids(raw));
    assert(by_ids(raw)[k].0 == (raw[k].vid, raw[k].pid));
}

/// The last row of the cable and the last row of the dongle are rows of theirs.
proof fn lemma_last_from(s: Seq<DeviceView>)
    ensures
        last_wired(s) matches Some(d) ==> s.contains(d) && is_wired_row(d),
        last_dongle(s) matches Some(d) ==> s.contains(d) && is_dongle_row(d),
        last_wired(s) is None ==> forall|i: int|
            0 <= i < s.len() ==> !is_wired_row(#[trigger] s[i]),
        last_dongle(s) is None ==> forall|i: int|
            0 <= i < s.len() ==> !is_dongle_row(#[trigger] s[i]),
    decreases s.len(),
{
    if s.len() > 0 {
        let t = s.drop_last();
        lemma_last_from(t);
        assert(s[s.len() - 1] == s.last());
        if let Some(d) = last_wired(t) {
            let k = choose|k: int| 0 <= k < t.len() && t[k] == d;
            assert(s[k] == d);
        }
        if let Some(d) = last_dongle(t) {
            let k = choose|k: int| 0 <= k < t.len() && t[k] == d;
            assert(s[k] == d);
        }
        if last_wired(s) is None {
            assert forall|i: int| 0 <= i < s.len() implies !is_wired_row(#[trigger] s[i]) by {
                if i < t.len() {
                    assert(t[i] == s[i]);
                }
            }
        }
        if last_dongle(s) is None {
            assert forall|i: int| 0 <= i < s.len() implies !is_dongle_row(#[trigger] s[i]) by {
                if i < t.len() {
                    assert(t[i] == s[i]);
                }
            }
        }
    }
}

/// What is told of the keyboard's address.
proof fn lemma_x87_address_is()
    ensures
        x87_address() == receiver::hid_address(0x0C45, 0xFEFE, "Keyboard"@),
        receiver::parsed_hid_addr(x87_address()) == Some((0x0C45u16, 0xFEFEu16)),
        text::contains(text::ascii_upper(x87_address()), "0C45:FEFE"@),
        !text::contains(text::ascii_upper(x87_address()), "0C45:8006"@),
{
    receiver::lemma_x87_digits();
    reveal_strlit("hid:");
    reveal_strlit("0C45");
    reveal_strlit("FEFE");
    reveal_strlit(":");
    reveal_strlit("Keyboard");
    reveal_strlit("hid:0C45:FEFE:Keyboard");
    assert(x87_address() =~= receiver::hid_address(0x0C45, 0xFEFE, "Keyboard"@));
    receiver::law_hid_address_reads_back(0x0C45, 0xFEFE, "Keyboard"@);
    receiver::lemma_x87_address(0x0C45, 0xFEFE, "Keyboard"@);
}

/// A row that does not belong to the keyboard is one of a receiver.
proof fn lemma_device_row_from(raw: Seq<HidView>, i: int) -> (r: ((u16, u16), Seq<char>))
    requires
        0 <= i < device_rows(raw).len(),
        !text::contains(text::ascii_upper(device_rows(raw)[i].address), "0C45:FEFE"@),
    ensures
        device_rows(raw)[i] == receiver_row(r.0.0, r.0.1, members(raw, r.0.0, r.0.1), r.1),
        receiver::is_row_kind(r.1),
        r.0 != (0x0C45u16, 0xFEFEu16),
        r.0 != (0x0C45u16, 0x8006u16),
        receiver::shown_kinds(r.0.0, usages(members(raw, r.0.0, r.0.1))).contains(r.1),
        receiver::is_receiver(
            r.0.0,
            r.0.1,
            text::lowercase(product_of(members(raw, r.0.0, r.0.1))),
            text::lowercase(members(raw, r.0.0, r.0.1)[0].path),
            usages(members(raw, r.0.0, r.0.1)),
        ),
        members(raw, r.0.0, r.0.1).len() > 0,
{
    let d = device_rows(raw)[i];
    let all = merged(all_rows(raw));
    let j = order::lemma_in_order_from(
        all,
        all.map_values(|d: DeviceView| (d.connected, text::lowercase(d.name))),
        i,
    );
    let s = all_rows(raw);
    let others = other_rows(s);
    let f = |d: DeviceView| !is_wired_row(d) && !is_dongle_row(d);
    lemma_x87_address_is();
    lemma_last_from(s);
    if j >= others.len() {
        assert(Some(d) == x87_row(last_wired(s), last_dongle(s)));
        assert(text::contains(text::ascii_upper(d.address), "0C45:FEFE"@));
    }
    assert(others[j] == d);
    assert(others.contains(d));
    s.lemma_filter_contains_rev(f, d);
    s.lemma_filter_pred(f, j);
    let k = choose|k: int| 0 <= k < s.len() && s[k] == d;
    let r = lemma_row_from(raw, grouping::first_keys(by_ids(raw)), k);
    receiver::lemma_x87_address(r.0.0, r.0.1, r.1);
    r
}

/// A receiver's rows are there, unless it is the keyboard that has a dongle and a cable.
proof fn lemma_device_row_there(raw: Seq<HidView>, k: int, kind: Seq<char>) -> (i: int)
    requires
        0 <= k < raw.len(),
        !(raw[k].vid == 0x0C45 && (raw[k].pid == 0xFEFE || raw[k].pid == 0x8006)),
        receiver::is_receiver(
            raw[k].vid,
            raw[k].pid,
            text::lowercase(product_of(members(raw, raw[k].vid, raw[k].pid))),
            text::lowercase(members(raw, raw[k].vid, raw[k].pid)[0].path),
            usages(members(raw, raw[k].vid, raw[k].pid)),
        ),
        receiver::shown_kinds(
            raw[k].vid,
            usages(members(raw, raw[k].vid, raw[k].pid)),
        ).contains(kind),
    ensures
        0 <= i < device_rows(raw).len(),
        device_rows(raw)[i] == receiver_row(
            raw[k].vid,
            raw[k].pid,
            members(raw, raw[k].vid, raw[k].pid),
            kind,
        ),
{
    let id = (raw[k].vid, raw[k].pid);
    let m = members(raw, id.0, id.1);
    lemma_members(raw, id.0, id.1);
    lemma_ids_looked_at(raw, k);
    assert(m.contains(raw[k]));
    let s = all_rows(raw);
    let q = lemma_row_there(raw, grouping::first_keys(by_ids(raw)), id, kind);
    let d = s[q];
    receiver::law_kinds_follow_collections(id.0, usages(m));
    let kinds = receiver::shown_kinds(id.0, usages(m));
    let w = choose|w: int| 0 <= w < kinds.len() && kinds[w] == kind;
    assert(receiver::is_row_kind(kinds[w]));
    receiver::lemma_x87_address(id.0, id.1, kind);
    let f = |d: DeviceView| !is_wired_row(d) && !is_dongle_row(d);
    assert(f(d));
    s.lemma_filter_contains(f, q);
    let others = other_rows(s);
    let a = choose|a: int| 0 <= a < others.len() && others[a] == d;
    let all = merged(s);
    assert(all[a] == d);
    order::lemma_in_order_has(
        all,
        all.map_values(|d: DeviceView| (d.connected, text::lowercase(d.name))),
        a,
    )
}

/// The row of a receiver of any vendor but Sonix is connected if and only if some of its
/// collections holds a battery value, whatever is proven of its link. It shows the first
/// such value, and reads "ok" if it is connected and "offline" if it is not.
pub proof fn law_receivers_are_connected_by_battery(
    raw: Seq<HidView>,
    i: int,
    vid: u16,
    pid: u16,
    kind: Seq<char>,
)
    requires
        0 <= i < device_rows(raw).len(),
        vid != 0x0C45,
        device_rows(raw)[i].address == receiver::hid_address(vid, pid, kind),
    ensures
        ({
            let r = device_rows(raw)[i];
            &&& r.connected <==> exists|k: int|
                0 <= k < raw.len() && (#[trigger] raw[k]).vid == vid && raw[k].pid == pid
                    && raw[k].battery is Some
            &&& match r.battery {
                Some(b) => exists|k: int|
                    0 <= k < raw.len() && (#[trigger] raw[k]).vid == vid && raw[k].pid == pid
                        && raw[k].battery == Some(b) && forall|j: int|
                        0 <= j < k && (#[trigger] raw[j]).vid == vid && raw[j].pid == pid
                            ==> raw[j].battery is None,
                None => !r.connected,
            }
            &&& r.connected ==> r.status == "ok"@
            &&& !r.connected ==> r.status == "offline"@
            &&& !r.is_le
        }),
{
    let r = device_rows(raw)[i];
    receiver::law_hid_address_reads_back(vid, pid, kind);
    receiver::lemma_x87_digits();
    if text::contains(text::ascii_upper(r.address), "0C45:FEFE"@) {
        lemma_keyboard_row_ids(raw, i);
    }
    let (id, k2) = lemma_device_row_from(raw, i);
    receiver::law_hid_address_reads_back(id.0, id.1, k2);
    assert(id == (vid, pid));
    lemma_first_battery(raw, vid, pid);
}

/// A row that holds the ids of the keyboard's dongle in its address has them.
pub proof fn lemma_keyboard_row_ids(raw: Seq<HidView>, i: int)
    requires
        0 <= i < device_rows(raw).len(),
        text::contains(text::ascii_upper(device_rows(raw)[i].address), "0C45:FEFE"@),
    ensures
        receiver::parsed_hid_addr(device_rows(raw)[i].address) == Some((0x0C45u16, 0xFEFEu16)),
        last_wired(all_rows(raw)) is Some || last_dongle(all_rows(raw)) is Some,
        Some(device_rows(raw)[i]) == x87_row(
            last_wired(all_rows(raw)),
            last_dongle(all_rows(raw)),
        ),
{
    let d = device_rows(raw)[i];
    let s = all_rows(raw);
    let all = merged(s);
    let j = order::lemma_in_order_from(
        all,
        all.map_values(|d: DeviceView| (d.connected, text::lowercase(d.name))),
        i,
    );
    let others = other_rows(s);
    let f = |d: DeviceView| !is_wired_row(d) && !is_dongle_row(d);
    lemma_x87_address_is();
    lemma_last_from(s);
    let ids = grouping::first_keys(by_ids(raw));
    if j < others.len() {
        assert(others[j] == d);
        s.lemma_filter_pred(f, j);
        assert(false) by {
            assert(others.contains(d));
            s.lemma_filter_contains_rev(f, d);
            let k = choose|k: int| 0 <= k < s.len() && s[k] == d;
            let r = lemma_row_from(raw, ids, k);
            receiver::lemma_x87_address(r.0.0, r.0.1, r.1);
        }
    }
    if last_wired(s) is None {
        let rf = last_dongle(s)->0;
        let k = choose|k: int| 0 <= k < s.len() && s[k] == rf;
        let r = lemma_row_from(raw, ids, k);
        receiver::lemma_x87_address(r.0.0, r.0.1, r.1);
        receiver::law_hid_address_reads_back(r.0.0, r.0.1, r.1);
    }
}

/// A receiver that is listed has a row for each kind that it is for, with an address
/// that gives back its ids; and its row is connected once it told a battery value.
pub proof fn law_listed_receivers_have_rows(raw: Seq<HidView>, k: int, kind: Seq<char>)
    requires
        0 <= k < raw.len(),
        raw[k].vid != 0x0C45,
        ({
            let m = members(raw, raw[k].vid, raw[k].pid);
            &&& receiver::is_receiver(
                raw[k].vid,
                raw[k].pid,
                text::lowercase(product_of(m)),
                text::lowercase(m[0].path),
                usages(m),
            )
            &&& receiver::shown_kinds(raw[k].vid, usages(m)).contains(kind)
        }),
    ensures
        exists|i: int|
            0 <= i < device_rows(raw).len() && (#[trigger] device_rows(raw)[i]).address
                == receiver::hid_address(raw[k].vid, raw[k].pid, kind) && device_rows(raw)[i].kind
                == kind && (raw[k].battery is Some ==> device_rows(raw)[i].connected
                && device_rows(raw)[i].battery is Some),
{
    let i = lemma_device_row_there(raw, k, kind);
    law_receivers_are_connected_by_battery(raw, i, raw[k].vid, raw[k].pid, kind);
}

/// Rows stand for receivers: each row has the ids of some collection, or is the
/// keyboard's, which has a dongle or a cable there.
pub proof fn law_rows_come_from_collections(raw: Seq<HidView>, i: int)
    requires
        0 <= i < device_rows(raw).len(),
    ensures
        ({
            let ids = receiver::parsed_hid_addr(device_rows(raw)[i].address);
            &&& ids is Some
            &&& ids->0 == (0x0C45u16, 0xFEFEu16) || exists|k: int|
                0 <= k < raw.len() && (#[trigger] raw[k]).vid == (ids->0).0 && raw[k].pid == (
                ids->0).1
            &&& ids->0 == (0x0C45u16, 0xFEFEu16) ==> exists|k: int|
                0 <= k < raw.len() && (#[trigger] raw[k]).vid == 0x0C45 && (raw[k].pid == 0xFEFE
                    || raw[k].pid == 0x8006)
            &&& ids->0 != (0x0C45u16, 0x8006u16)
        }),
{
    let d = device_rows(raw)[i];
    if text::contains(text::ascii_upper(d.address), "0C45:FEFE"@) {
        lemma_keyboard_row_ids(raw, i);
        let s = all_rows(raw);
        lemma_last_from(s);
        let x = match last_wired(s) {
            Some(w) => w,
            None => last_dongle(s)->0,
        };
        let k = choose|k: int| 0 <= k < s.len() && s[k] == x;
        let r = lemma_row_from(raw, grouping::first_keys(by_ids(raw)), k);
        receiver::lemma_x87_address(r.0.0, r.0.1, r.1);
        let m = members(raw, r.0.0, r.0.1);
        lemma_members(raw, r.0.0, r.0.1);
        assert(raw.contains(m[0]));
        let q = choose|q: int| 0 <= q < raw.len() && raw[q] == m[0];
        assert(raw[q].vid == 0x0C45);
    } else {
        let (id, kind) = lemma_device_row_from(raw, i);
        receiver::law_hid_address_reads_back(id.0, id.1, kind);
        let m = members(raw, id.0, id.1);
        lemma_members(raw, id.0, id.1);
        assert(raw.contains(m[0]));
        let q = choose|q: int| 0 <= q < raw.len() && raw[q] == m[0];
        assert(raw[q].vid == id.0);
    }
}

/// The keyboard that has a dongle and a cable has one row at most, whichever of them is
/// there.
pub proof fn law_keyboard_has_one_row(raw: Seq<HidView>, i: int, j: int)
    requires
        0 <= i < device_rows(raw).len(),
        0 <= j < device_rows(raw).len(),
        receiver::parsed_hid_addr(device_rows(raw)[i].address) == Some((0x0C45u16, 0xFEFEu16)),
        receiver::parsed_hid_addr(device_rows(raw)[j].address) == Some((0x0C45u16, 0xFEFEu16)),
    ensures
        i == j,
{
    let s = all_rows(raw);
    let all = merged(s);
    let keys = all.map_values(|d: DeviceView| (d.connected, text::lowercase(d.name)));
    let rows = device_rows(raw);
    if !text::contains(text::ascii_upper(rows[i].address), "0C45:FEFE"@) {
        let (id, kind) = lemma_device_row_from(raw, i);
        receiver::law_hid_address_reads_back(id.0, id.1, kind);
    }
    if !text::contains(text::ascii_upper(rows[j].address), "0C45:FEFE"@) {
        let (id, kind) = lemma_device_row_from(raw, j);
        receiver::law_hid_address_reads_back(id.0, id.1, kind);
    }
    lemma_keyboard_row_ids(raw, i);
    lemma_keyboard_row_ids(raw, j);
    let others = other_rows(s);
    let f = |d: DeviceView| !is_wired_row(d) && !is_dongle_row(d);
    let at = others.len() as int;
    assert(all[at] == rows[i] && rows[i] == rows[j]);
    assert forall|k: int| 0 <= k < all.len() && #[trigger] all[k] == all[at] implies k == at by {
        if k < at {
            assert(others[k] == all[k]);
            s.lemma_filter_pred(f, k);
        }
    }
    order::lemma_in_order_once(all, keys, at, i, j);
}

/// The rows of the keyboard's dongle or cable are all alike in what they say of the
/// link.
proof fn lemma_x87_rows_say(raw: Seq<HidView>, k: int)
    requires
        0 <= k < all_rows(raw).len(),
        is_wired_row(all_rows(raw)[k]) || is_dongle_row(all_rows(raw)[k]),
    ensures
        ({
            let d = all_rows(raw)[k];
            let pid = if is_wired_row(d) {
                0x8006u16
            } else {
                0xFEFEu16
            };
            let m = members(raw, 0x0C45, pid);
            &&& d.connected == (pid == 0x8006 || some_link(m))
            &&& d.battery == battery_of(m)
            &&& m.len() > 0
            &&& d.status == if d.connected {
                "ok"@
            } else {
                "offline"@
            }
        }),
{
    let r = lemma_row_from(raw, grouping::first_keys(by_ids(raw)), k);
    receiver::lemma_x87_address(r.0.0, r.0.1, r.1);
}

/// The keyboard is connected whenever its cable is listed; without the cable it is
/// connected if and only if some collection of its dongle proves the link. It shows the
/// battery that its dongle told, or else the one that its cable told, and its name says
/// which of them it is on.
pub proof fn law_keyboard_is_connected_by_cable_or_link(raw: Seq<HidView>, i: int)
    requires
        0 <= i < device_rows(raw).len(),
        receiver::parsed_hid_addr(device_rows(raw)[i].address) == Some((0x0C45u16, 0xFEFEu16)),
    ensures
        ({
            let r = device_rows(raw)[i];
            &&& r.connected ==> r.status == "ok"@
            &&& !r.connected ==> r.status == "offline"@
            &&& r.name == "前行者 X87 有线"@ || r.name == "前行者 X87 2.4G"@
            &&& r.name == "前行者 X87 有线"@ ==> r.connected && exists|k: int|
                0 <= k < raw.len() && (#[trigger] raw[k]).vid == 0x0C45 && raw[k].pid == 0x8006
            &&& r.name == "前行者 X87 2.4G"@ ==> (r.connected <==> exists|k: int|
                0 <= k < raw.len() && (#[trigger] raw[k]).vid == 0x0C45 && raw[k].pid == 0xFEFE
                    && raw[k].link_up)
            &&& r.battery matches Some(b) ==> exists|k: int|
                0 <= k < raw.len() && (#[trigger] raw[k]).vid == 0x0C45 && (raw[k].pid == 0xFEFE
                    || raw[k].pid == 0x8006) && raw[k].battery == Some(b)
            &&& r.name == "前行者 X87 2.4G"@ && r.battery is None ==> forall|k: int|
                0 <= k < raw.len() && (#[trigger] raw[k]).vid == 0x0C45 && raw[k].pid == 0xFEFE
                    ==> raw[k].battery is None
        }),
{
    let r = device_rows(raw)[i];
    let s = all_rows(raw);
    reveal_strlit("前行者 X87 有线");
    reveal_strlit("前行者 X87 2.4G");
    assert("前行者 X87 有线"@[8] != "前行者 X87 2.4G"@[8]);
    if !text::contains(text::ascii_upper(r.address), "0C45:FEFE"@) {
        let (id, kind) = lemma_device_row_from(raw, i);
        receiver::law_hid_address_reads_back(id.0, id.1, kind);
    }
    lemma_keyboard_row_ids(raw, i);
    lemma_last_from(s);
    let mw = members(raw, 0x0C45, 0x8006);
    let mf = members(raw, 0x0C45, 0xFEFE);
    lemma_members(raw, 0x0C45, 0x8006);
    lemma_members(raw, 0x0C45, 0xFEFE);
    lemma_first_battery(raw, 0x0C45, 0x8006);
    lemma_first_battery(raw, 0x0C45, 0xFEFE);
    if let Some(w) = last_wired(s) {
        let k = choose|k: int| 0 <= k < s.len() && s[k] == w;
        lemma_x87_rows_say(raw, k);
        assert(raw.contains(mw[0]));
        let q = choose|q: int| 0 <= q < raw.len() && raw[q] == mw[0];
        assert(raw[q].vid == 0x0C45);
    }
    if let Some(d) = last_dongle(s) {
        let k = choose|k: int| 0 <= k < s.len() && s[k] == d;
        lemma_x87_rows_say(raw, k);
        if some_link(mf) {
            let x = choose|x: int| 0 <= x < mf.len() && (#[trigger] mf[x]).link_up;
            assert(raw.contains(mf[x]));
            let q = choose|q: int| 0 <= q < raw.len() && raw[q] == mf[x];
            assert(raw[q].link_up);
        }
        if exists|k: int|
            0 <= k < raw.len() && (#[trigger] raw[k]).vid == 0x0C45 && raw[k].pid == 0xFEFE
                && raw[k].link_up {
            let k = choose|k: int|
                0 <= k < raw.len() && (#[trigger] raw[k]).vid == 0x0C45 && raw[k].pid == 0xFEFE
                    && raw[k].link_up;
            assert(mf.contains(raw[k]));
            let x = choose|x: int| 0 <= x < mf.len() && mf[x] == raw[k];
            assert(mf[x].link_up);
        }
    }
}

/// The keyboard has a row as soon as its cable or its dongle is listed; with the cable
/// the row says so.
pub proof fn law_keyboard_is_listed(raw: Seq<HidView>, k: int)
    requires
        0 <= k < raw.len(),
        raw[k].vid == 0x0C45,
        raw[k].pid == 0xFEFE || raw[k].pid == 0x8006,
        ({
            let m = members(raw, raw[k].vid, raw[k].pid);
            receiver::is_receiver(
                raw[k].vid,
                raw[k].pid,
                text::lowercase(product_of(m)),
                text::lowercase(m[0].path),
                usages(m),
            )
        }),
    ensures
        exists|i: int|
            0 <= i < device_rows(raw).len() && receiver::parsed_hid_addr(
                (#[trigger] device_rows(raw)[i]).address,
            ) == Some((0x0C45u16, 0xFEFEu16)) && (raw[k].pid == 0x8006 ==> device_rows(
                raw,
            )[i].name == "前行者 X87 有线"@ && device_rows(raw)[i].connected),
{
    let id = (raw[k].vid, raw[k].pid);
    let m = members(raw, id.0, id.1);
    lemma_members(raw, id.0, id.1);
    lemma_ids_looked_at(raw, k);
    assert(m.contains(raw[k]));
    receiver::law_kinds_follow_collections(id.0, usages(m));
    let kinds = receiver::shown_kinds(id.0, usages(m));
    let kind = kinds[0];
    assert(kinds.contains(kind) && receiver::is_row_kind(kind));
    let s = all_rows(raw);
    let q = lemma_row_there(raw, grouping::first_keys(by_ids(raw)), id, kind);
    receiver::lemma_x87_address(id.0, id.1, kind);
    assert(is_wired_row(s[q]) || is_dongle_row(s[q]));
    lemma_last_from(s);
    let all = merged(s);
    let at = other_rows(s).len() as int;
    assert(x87_row(last_wired(s), last_dongle(s)) is Some);
    let i = order::lemma_in_order_has(
        all,
        all.map_values(|d: DeviceView| (d.connected, text::lowercase(d.name))),
        at,
    );
    lemma_x87_address_is();
    let d = device_rows(raw)[i];
    if let Some(w) = last_wired(s) {
        let x = choose|x: int| 0 <= x < s.len() && s[x] == w;
        lemma_x87_rows_say(raw, x);
    }
    assert(text::contains(text::ascii_upper(d.address), "0C45:FEFE"@));
    lemma_keyboard_row_ids(raw, i);
}

proof fn lemma_product_push(m: Seq<HidView>, x: HidView)
    ensures
        product_of(m.push(x)) == if product_of(m).len() > 0 {
            product_of(m)
        } else {
            text::trimmed(x.product)
        },
    decreases m.len(),
{
    let p = m.push(x);
    if m.len() == 0 {
        assert(p.skip(1) =~= Seq::empty());
        assert(product_of(p.skip(1)) =~= Seq::empty());
        if text::trimmed(x.product).len() == 0 {
            assert(text::trimmed(x.product) =~= Seq::empty());
        }
    } else {
        assert(p.skip(1) =~= m.skip(1).push(x));
        lemma_product_push(m.skip(1), x);
    }
}

/// A receiver is called by the first of its collections that has a product name.
pub proof fn law_receiver_is_called_by_first_product(raw: Seq<HidView>, vid: u16, pid: u16)
    ensures
        ({
            let p = product_of(members(raw, vid, pid));
            &&& p.len() == 0 ==> forall|k: int|
                0 <= k < raw.len() && (#[trigger] raw[k]).vid == vid && raw[k].pid == pid
                    ==> text::trimmed(raw[k].product).len() == 0
            &&& p.len() > 0 ==> exists|k: int|
                0 <= k < raw.len() && (#[trigger] raw[k]).vid == vid && raw[k].pid == pid && p
                    == text::trimmed(raw[k].product) && forall|j: int|
                    0 <= j < k && (#[trigger] raw[j]).vid == vid && raw[j].pid == pid
                        ==> text::trimmed(raw[j].product).len() == 0
        }),
    decreases raw.len(),
{
    if raw.len() > 0 {
        let t = raw.drop_last();
        let x = raw.last();
        law_receiver_is_called_by_first_product(t, vid, pid);
        assert(t.push(x) =~= raw);
        lemma_members_push(t, x, vid, pid);
        let m = members(t, vid, pid);
        lemma_product_push(m, x);
        let p = product_of(m);
        assert(raw[raw.len() - 1] == x);
        if p.len() > 0 {
            let k = choose|k: int|
                0 <= k < t.len() && (#[trigger] t[k]).vid == vid && t[k].pid == pid && p
                    == text::trimmed(t[k].product) && forall|j: int|
                    0 <= j < k && (#[trigger] t[j]).vid == vid && t[j].pid == pid
                        ==> text::trimmed(t[j].product).len() == 0;
            assert(raw[k] == t[k]);
            assert forall|j: int|
                0 <= j < k && (#[trigger] raw[j]).vid == vid && raw[j].pid
                    == pid implies text::trimmed(raw[j].product).len() == 0 by {
                assert(raw[j] == t[j]);
            }
        } else {
            assert forall|j: int|
                0 <= j < t.len() && (#[trigger] raw[j]).vid == vid && raw[j].pid
                    == pid implies text::trimmed(raw[j].product).len() == 0 by {
                assert(raw[j] == t[j]);
            }
        }
    } else {
        assert(by_ids(raw) =~= Seq::empty());
        reveal(Seq::filter);
    }
}

/// Any row but the keyboard's is called by its receiver's product and by its kind, which
/// is the one in its address.
pub proof fn law_rows_are_called_by_product_and_kind(raw: Seq<HidView>, i: int)
    requires
        0 <= i < device_rows(raw).len(),
        receiver::parsed_hid_addr(device_rows(raw)[i].address) != Some((0x0C45u16, 0xFEFEu16)),
    ensures
        exists|vid: u16, pid: u16|
            ({
                let r = device_rows(raw)[i];
                let p = text::trimmed(#[trigger] product_of(members(raw, vid, pid)));
                &&& r.address == receiver::hid_address(vid, pid, r.kind)
                &&& r.name == receiver::row_name(p, text::lowercase(p), r.kind)
                &&& receiver::is_row_kind(r.kind)
            }),
{
    let r = device_rows(raw)[i];
    if text::contains(text::ascii_upper(r.address), "0C45:FEFE"@) {
        lemma_keyboard_row_ids(raw, i);
    }
    let (id, kind) = lemma_device_row_from(raw, i);
    let p = text::trimmed(product_of(members(raw, id.0, id.1)));
    assert(r.name == receiver::row_name(p, text::lowercase(p), r.kind));
}

/// The row of any other Sonix receiver is connected if and only if some of its
/// collections proves the link.
pub proof fn law_sonix_receivers_are_connected_by_link(
    raw: Seq<HidView>,
    i: int,
    pid: u16,
    kind: Seq<char>,
)
    requires
        0 <= i < device_rows(raw).len(),
        pid != 0xFEFE && pid != 0x8006,
        device_rows(raw)[i].address == receiver::hid_address(0x0C45, pid, kind),
    ensures
        device_rows(raw)[i].connected <==> exists|k: int|
            0 <= k < raw.len() && (#[trigger] raw[k]).vid == 0x0C45 && raw[k].pid == pid
                && raw[k].link_up,
{
    let r = device_rows(raw)[i];
    receiver::law_hid_address_reads_back(0x0C45, pid, kind);
    if text::contains(text::ascii_upper(r.address), "0C45:FEFE"@) {
        lemma_keyboard_row_ids(raw, i);
    }
    let (id, k2) = lemma_device_row_from(raw, i);
    receiver::law_hid_address_reads_back(id.0, id.1, k2);
    let m = members(raw, 0x0C45, pid);
    lemma_members(raw, 0x0C45, pid);
    if some_link(m) {
        let x = choose|x: int| 0 <= x < m.len() && (#[trigger] m[x]).link_up;
        assert(raw.contains(m[x]));
        let q = choose|q: int| 0 <= q < raw.len() && raw[q] == m[x];
        assert(raw[q].link_up);
    }
    if exists|k: int|
        0 <= k < raw.len() && (#[trigger] raw[k]).vid == 0x0C45 && raw[k].pid == pid
            && raw[k].link_up {
        let k = choose|k: int|
            0 <= k < raw.len() && (#[trigger] raw[k]).vid == 0x0C45 && raw[k].pid == pid
                && raw[k].link_up;
        assert(m.contains(raw[k]));
        let x = choose|x: int| 0 <= x < m.len() && m[x] == raw[k];
        assert(m[x].link_up);
    }
}

/// Whether a receiver is listed, and as what, depends on its collections' names, paths
/// and usages alone.
pub proof fn lemma_members_alike(a: Seq<HidView>, b: Seq<HidView>, vid: u16, pid: u16)
    requires
        a.len() == b.len(),
        forall|i: int|
            0 <= i < a.len() ==> (#[trigger] a[i]).vid == b[i].vid && a[i].pid == b[i].pid
                && a[i].product == b[i].product && a[i].path == b[i].path && a[i].usage_page
                == b[i].usage_page && a[i].usage == b[i].usage,
    ensures
        members(a, vid, pid).len() == members(b, vid, pid).len(),
        product_of(members(a, vid, pid)) == product_of(members(b, vid, pid)),
        usages(members(a, vid, pid)) == usages(members(b, vid, pid)),
        members(a, vid, pid).len() > 0 ==> members(a, vid, pid)[0].path == members(
            b,
            vid,
            pid,
        )[0].path,
    decreases a.len(),
{
    if a.len() > 0 {
        let s = a.drop_last();
        let t = b.drop_last();
        assert(a[a.len() - 1] == a.last());
        assert forall|i: int| 0 <= i < s.len() implies (#[trigger] s[i]).vid == t[i].vid
            && s[i].pid == t[i].pid && s[i].product == t[i].product && s[i].path == t[i].path
            && s[i].usage_page == t[i].usage_page && s[i].usage == t[i].usage by {
            assert(s[i] == a[i] && t[i] == b[i]);
        }
        lemma_members_alike(s, t, vid, pid);
        assert(s.push(a.last()) =~= a);
        assert(t.push(b.last()) =~= b);
        lemma_members_push(s, a.last(), vid, pid);
        lemma_members_push(t, b.last(), vid, pid);
        let m = members(s, vid, pid);
        let n = members(t, vid, pid);
        lemma_product_push(m, a.last());
        lemma_product_push(n, b.last());
        assert(usages(m.push(a.last())) =~= usages(m).push((a.last().usage_page, a.last().usage)));
        assert(usages(n.push(b.last())) =~= usages(n).push((b.last().usage_page, b.last().usage)));
    } else {
        assert(by_ids(a) =~= by_ids(b));
        assert(a =~= b);
    }
}

/// A collection is a member of its receiver.
pub proof fn lemma_members_there(raw: Seq<HidView>, k: int)
    requires
        0 <= k < raw.len(),
    ensures
        members(raw, raw[k].vid, raw[k].pid).len() > 0,
        members(raw, raw[k].vid, raw[k].pid).contains(raw[k]),
{
    lemma_members(raw, raw[k].vid, raw[k].pid);
}

/// The keyboard's row has the ids of its dongle in its address.
pub proof fn lemma_keyboard_address(raw: Seq<HidView>, i: int)
    requires
        0 <= i < device_rows(raw).len(),
        receiver::parsed_hid_addr(device_rows(raw)[i].address) == Some((0x0C45u16, 0xFEFEu16)),
    ensures
        text::contains(text::ascii_upper(device_rows(raw)[i].address), "0C45:FEFE"@),
{
    if !text::contains(text::ascii_upper(device_rows(raw)[i].address), "0C45:FEFE"@) {
        let (id, kind) = lemma_device_row_from(raw, i);
        receiver::law_hid_address_reads_back(id.0, id.1, kind);
    }
}

/// A collection's view says what it holds, and a list says it of each in turn.
pub proof fn law_collections_tell_all(raw: Seq<HidDevice>, i: int)
    requires
        0 <= i < raw.len(),
    ensures
        ({
            let v = views(raw)[i];
            let d = raw[i];
            &&& views(raw).len() == raw.len()
            &&& v.path == d.path@ && v.vid == d.vid && v.pid == d.pid
            &&& v.usage_page == d.usage_page && v.usage == d.usage
            &&& v.input_len == d.input_len && v.output_len == d.output_len
            &&& v.feature_len == d.feature_len && v.product == d.product@
            &&& v.manufacturer == d.manufacturer@ && v.access == d.access@
            &&& v.battery == d.battery && v.link_up == d.link_up
            &&& v.feature_hex == d.feature_hex@ && v.debug == d.debug@
        }),
{
}

} // verus!
