//! What the user chose, and which devices were seen before.

use vstd::prelude::*;

use crate::model;
use crate::model::Device;
use crate::order;
use crate::order::{RowKey, sort_rows};
use crate::text;
use crate::text::{eq_ignore_case, has_text, owned, push_decimal, push_text, same, to_ascii_upper};

verus! {

/// How many devices are remembered; the oldest ones are forgotten first.
pub const MAX_KNOWN_DEVICES: usize = 40;

/// The text size, in percent, that the layout was designed for.
pub const DEFAULT_TEXT_PCT: u32 = 100;

/// The smallest and largest text size.
pub const MIN_TEXT_PCT: u32 = 70;

pub const MAX_TEXT_PCT: u32 = 160;

/// A device that was seen before.
#[derive(Debug, PartialEq, Eq)]
pub struct KnownDevice {
    pub address: String,
    pub name: String,
    pub kind: String,
}

impl Clone for KnownDevice {
    fn clone(&self) -> (r: Self)
        ensures
            r == *self,
    {
        KnownDevice {
            address: self.address.clone(),
            name: self.name.clone(),
            kind: self.kind.clone(),
        }
    }
}

/// What a `KnownDevice` says.
#[verifier::ext_equal]
pub struct KnownView {
    pub address: Seq<char>,
    pub name: Seq<char>,
    pub kind: Seq<char>,
}

impl View for KnownDevice {
    type V = KnownView;

    open spec fn view(&self) -> KnownView {
        KnownView { address: self.address@, name: self.name@, kind: self.kind@ }
    }
}

impl Default for KnownDevice {
    fn default() -> (r: Self)
        ensures
            r@ == (KnownView { address: Seq::empty(), name: Seq::empty(), kind: "Unknown"@ }),
    {
        KnownDevice { address: String::new(), name: String::new(), kind: owned("Unknown") }
    }
}

/// What each known device says.
pub open spec fn known_views(k: Seq<KnownDevice>) -> Seq<KnownView> {
    k.map_values(|d: KnownDevice| d@)
}

#[derive(Debug)]
pub struct Settings {
    pub poll_seconds: u64,
    pub strip_visible: bool,
    /// Kept so that older settings files still parse. The strip is never
    /// topmost: the value is ignored and set to false on load.
    pub topmost: bool,
    pub autostart: bool,
    pub notify_low: bool,
    pub low_battery_alert: u8,
    pub resend_minutes: u64,
    pub opacity: u8,
    /// Show devices that are not connected on the strip.
    pub show_offline: bool,
    /// Addresses that the user chose not to show on the strip.
    pub hidden_addresses: Vec<String>,
    /// Devices seen before, so that the settings list stays stable when they
    /// sleep.
    pub known_devices: Vec<KnownDevice>,
    /// Taskbar dock: "left" or "right".
    pub strip_side: String,
    /// The size of text and gaps on the strip, in percent.
    pub text_pct: u32,
}

impl Clone for Settings {
    fn clone(&self) -> (r: Self)
        ensures
            r.hidden_addresses@ == self.hidden_addresses@,
            r.known_devices@ == self.known_devices@,
            r == (Settings {
                hidden_addresses: r.hidden_addresses,
                known_devices: r.known_devices,
                ..*self
            }),
    {
        let mut hidden: Vec<String> = Vec::new();
        for i in 0..self.hidden_addresses.len()
            invariant
                hidden@ == self.hidden_addresses@.take(i as int),
        {
            hidden.push(self.hidden_addresses[i].clone());
            assert(hidden@ =~= self.hidden_addresses@.take(i + 1));
        }
        assert(hidden@ =~= self.hidden_addresses@);
        let mut known: Vec<KnownDevice> = Vec::new();
        for i in 0..self.known_devices.len()
            invariant
                known@ == self.known_devices@.take(i as int),
        {
            known.push(self.known_devices[i].clone());
            assert(known@ =~= self.known_devices@.take(i + 1));
        }
        assert(known@ =~= self.known_devices@);
        Settings {
            poll_seconds: self.poll_seconds,
            strip_visible: self.strip_visible,
            topmost: self.topmost,
            autostart: self.autostart,
            notify_low: self.notify_low,
            low_battery_alert: self.low_battery_alert,
            resend_minutes: self.resend_minutes,
            opacity: self.opacity,
            show_offline: self.show_offline,
            hidden_addresses: hidden,
            known_devices: known,
            strip_side: self.strip_side.clone(),
            text_pct: self.text_pct,
        }
    }
}

/// What `Settings` say.
#[verifier::ext_equal]
pub struct SettingsView {
    pub poll_seconds: u64,
    pub strip_visible: bool,
    pub topmost: bool,
    pub autostart: bool,
    pub notify_low: bool,
    pub low_battery_alert: u8,
    pub resend_minutes: u64,
    pub opacity: u8,
    pub show_offline: bool,
    pub hidden: Seq<Seq<char>>,
    pub known: Seq<KnownView>,
    pub strip_side: Seq<char>,
    pub text_pct: u32,
}

impl View for Settings {
    type V = SettingsView;

    open spec fn view(&self) -> SettingsView {
        SettingsView {
            poll_seconds: self.poll_seconds,
            strip_visible: self.strip_visible,
            topmost: self.topmost,
            autostart: self.autostart,
            notify_low: self.notify_low,
            low_battery_alert: self.low_battery_alert,
            resend_minutes: self.resend_minutes,
            opacity: self.opacity,
            show_offline: self.show_offline,
            hidden: self.hidden(),
            known: self.known(),
            strip_side: self.strip_side@,
            text_pct: self.text_pct,
        }
    }
}

/// Settings are those that a first start has.
pub open spec fn is_default(s: Settings) -> bool {
    &&& s.poll_seconds == 10
    &&& s.strip_visible
    &&& !s.topmost
    &&& !s.autostart
    &&& s.notify_low
    &&& s.low_battery_alert == 20
    &&& s.resend_minutes == 30
    &&& s.opacity == 100
    &&& s.show_offline
    &&& s.hidden_addresses@.len() == 0
    &&& s.known_devices@.len() == 0
    &&& s.strip_side@ == "right"@
    &&& s.text_pct == DEFAULT_TEXT_PCT
}

impl Default for Settings {
    fn default() -> (r: Self)
        ensures
            is_default(r),
    {
        Settings {
            poll_seconds: 10,
            strip_visible: true,
            topmost: false,
            autostart: false,
            notify_low: true,
            low_battery_alert: 20,
            resend_minutes: 30,
            opacity: 100,
            show_offline: true,
            hidden_addresses: Vec::new(),
            known_devices: Vec::new(),
            strip_side: owned("right"),
            text_pct: DEFAULT_TEXT_PCT,
        }
    }
}

// ------------------------------------------------------------- hidden devices

/// An address is not among the hidden ones, whatever the case of its letters.
pub open spec fn shown(hidden: Seq<Seq<char>>, address: Seq<char>) -> bool {
    !exists|i: int| 0 <= i < hidden.len() && text::same_ignoring_case(#[trigger] hidden[i], address)
}

/// An entry is another address.
pub open spec fn other_address(address: Seq<char>) -> spec_fn(Seq<char>) -> bool {
    |a: Seq<char>| !text::same_ignoring_case(a, address)
}

/// The hidden addresses after one was set to be shown or not.
pub open spec fn hidden_after(hidden: Seq<Seq<char>>, address: Seq<char>, show: bool) -> Seq<
    Seq<char>,
> {
    let rest = hidden.filter(other_address(address));
    if show {
        rest
    } else {
        rest.push(address)
    }
}

// ------------------------------------------------------------- known devices

/// The index of the first known device with an address, whatever the case of its
/// letters, or the number of known devices.
pub open spec fn known_index(known: Seq<KnownView>, address: Seq<char>) -> int
    decreases known.len(),
{
    if known.len() == 0 {
        0
    } else if text::same_ignoring_case(known[0].address, address) {
        0
    } else {
        1 + known_index(known.skip(1), address)
    }
}

/// The known devices after one was seen.
pub open spec fn noted(known: Seq<KnownView>, d: Device) -> Seq<KnownView> {
    let i = known_index(known, d.address@);
    if i < known.len() {
        known.update(
            i,
            KnownView { address: known[i].address, name: d.name@, kind: d.kind@ },
        )
    } else {
        known.push(KnownView { address: d.address@, name: d.name@, kind: d.kind@ })
    }
}

/// Seeing a device changes the known devices.
pub open spec fn is_news(known: Seq<KnownView>, d: Device) -> bool {
    let i = known_index(known, d.address@);
    i >= known.len() || known[i].name != d.name@ || known[i].kind != d.kind@
}

/// The known devices after some were seen, one after the other.
pub open spec fn noted_all(known: Seq<KnownView>, devs: Seq<Device>) -> Seq<KnownView>
    decreases devs.len(),
{
    if devs.len() == 0 {
        known
    } else {
        noted(noted_all(known, devs.drop_last()), devs.last())
    }
}

/// Seeing some devices changes the known devices.
pub open spec fn some_news(known: Seq<KnownView>, devs: Seq<Device>) -> bool
    decreases devs.len(),
{
    if devs.len() == 0 {
        false
    } else {
        some_news(known, devs.drop_last()) || is_news(
            noted_all(known, devs.drop_last()),
            devs.last(),
        )
    }
}

/// The newest known devices, as many as are remembered.
pub open spec fn newest(known: Seq<KnownView>) -> Seq<KnownView> {
    if known.len() > MAX_KNOWN_DEVICES {
        known.skip(known.len() - MAX_KNOWN_DEVICES)
    } else {
        known
    }
}

/// The known devices after some were seen and the oldest ones forgotten.
pub open spec fn remembered(known: Seq<KnownView>, devs: Seq<Device>) -> Seq<KnownView> {
    newest(noted_all(known, devs))
}

/// The known devices differ after some were seen: the file should be saved.
pub open spec fn must_save(known: Seq<KnownView>, devs: Seq<Device>) -> bool {
    some_news(known, devs) || noted_all(known, devs).len() > MAX_KNOWN_DEVICES
}

// -------------------------------------------------------------- settings rows

/// A device in the settings list.
#[derive(Debug)]
pub struct DeviceRow {
    pub address: String,
    pub name: String,
    pub kind: String,
    pub connected: bool,
    pub battery: Option<u8>,
    pub shown: bool,
}

impl Clone for DeviceRow {
    fn clone(&self) -> (r: Self)
        ensures
            r == *self,
    {
        DeviceRow {
            address: self.address.clone(),
            name: self.name.clone(),
            kind: self.kind.clone(),
            connected: self.connected,
            battery: self.battery,
            shown: self.shown,
        }
    }
}

/// What a `DeviceRow` says.
#[verifier::ext_equal]
pub struct RowView {
    pub address: Seq<char>,
    pub name: Seq<char>,
    pub kind: Seq<char>,
    pub connected: bool,
    pub battery: Option<u8>,
    pub shown: bool,
}

impl View for DeviceRow {
    type V = RowView;

    open spec fn view(&self) -> RowView {
        RowView {
            address: self.address@,
            name: self.name@,
            kind: self.kind@,
            connected: self.connected,
            battery: self.battery,
            shown: self.shown,
        }
    }
}

/// What each row says.
pub open spec fn row_views(rows: Seq<DeviceRow>) -> Seq<RowView> {
    rows.map_values(|r: DeviceRow| r@)
}

/// The rows of present devices.
pub open spec fn live_rows(hidden: Seq<Seq<char>>, live: Seq<Device>) -> Seq<RowView> {
    live.map_values(
        |d: Device|
            RowView {
                address: d.address@,
                name: d.name@,
                kind: d.kind@,
                connected: d.connected,
                battery: d.battery,
                shown: shown(hidden, d.address@),
            },
    )
}

/// Some row has an address, whatever the case of its letters.
pub open spec fn has_row(rows: Seq<RowView>, address: Seq<char>) -> bool {
    exists|i: int|
        0 <= i < rows.len() && text::same_ignoring_case((#[trigger] rows[i]).address, address)
}

/// An address is that of the keyboard's cable, which its dongle's row covers.
pub open spec fn is_cable_address(address: Seq<char>) -> bool {
    text::contains(text::ascii_upper(address), "0C45:8006"@)
}

/// Rows with those of known devices that are not there, as far as they have none.
pub open spec fn with_known(
    rows: Seq<RowView>,
    hidden: Seq<Seq<char>>,
    known: Seq<KnownView>,
) -> Seq<RowView>
    decreases known.len(),
{
    if known.len() == 0 {
        rows
    } else {
        let before = with_known(rows, hidden, known.drop_last());
        let k = known.last();
        if is_cable_address(k.address) || has_row(before, k.address) {
            before
        } else {
            before.push(
                RowView {
                    address: k.address,
                    name: k.name,
                    kind: k.kind,
                    connected: false,
                    battery: None,
                    shown: shown(hidden, k.address),
                },
            )
        }
    }
}

/// The settings list: present devices, then known ones, in listing order.
pub open spec fn settings_rows(
    hidden: Seq<Seq<char>>,
    known: Seq<KnownView>,
    live: Seq<Device>,
) -> Seq<RowView> {
    let all = with_known(live_rows(hidden, live), hidden, known);
    order::in_order(all, all.map_values(|r: RowView| (r.connected, text::lowercase(r.name))))
}

/// Puts rows in listing order.
fn sort_device_rows(rows: Vec<DeviceRow>) -> (r: Vec<DeviceRow>)
    ensures
        row_views(r@) == order::in_order(
            row_views(rows@),
            row_views(rows@).map_values(|r: RowView| (r.connected, text::lowercase(r.name))),
        ),
{
    let ghost want = row_views(rows@).map_values(
        |r: RowView| (r.connected, text::lowercase(r.name)),
    );
    let mut keys: Vec<RowKey> = Vec::new();
    for i in 0..rows.len()
        invariant
            want == row_views(rows@).map_values(
                |r: RowView| (r.connected, text::lowercase(r.name)),
            ),
            keys@.len() == i,
            order::key_views(keys@) == want.take(i as int),
    {
        keys.push(
            RowKey { connected: rows[i].connected, name: rows[i].name.as_str().to_lowercase() },
        );
        assert(order::key_views(keys@) =~= want.take(i + 1));
    }
    assert(order::key_views(keys@) =~= want);
    proof {
        order::law_listing_looks_at_keys_only(rows@, want, |r: DeviceRow| r@);
    }
    sort_rows(rows, keys)
}

impl DeviceRow {
    /// The row's text in the menu.
    pub open spec fn label_text(v: RowView) -> Seq<char> {
        let batt = match v.battery {
            Some(b) => text::decimal(b as nat) + "%"@,
            None => "--"@,
        };
        let state = if v.connected {
            "已连接"@
        } else {
            "离线"@
        };
        v.name + "    "@ + batt + "  "@ + state
    }

    pub fn label(&self) -> (r: String)
        ensures
            r@ == Self::label_text(self@),
    {
        let mut out = String::new();
        push_text(&mut out, self.name.as_str());
        push_text(&mut out, "    ");
        match self.battery {
            Some(v) => {
                push_decimal(&mut out, v as u64);
                push_text(&mut out, "%");
            },
            None => push_text(&mut out, "--"),
        }
        push_text(&mut out, "  ");
        if self.connected {
            push_text(&mut out, "已连接");
        } else {
            push_text(&mut out, "离线");
        }
        assert(out@ =~= Self::label_text(self@));
        out
    }
}

impl Settings {
    /// The hidden addresses.
    pub open spec fn hidden(&self) -> Seq<Seq<char>> {
        model::texts(self.hidden_addresses@)
    }

    /// The known devices.
    pub open spec fn known(&self) -> Seq<KnownView> {
        known_views(self.known_devices@)
    }

    /// The settings to start with, given what the settings file held, if it could
    /// be read. The strip is never topmost, whatever the file says.
    pub fn load(parsed: Option<Settings>) -> (r: Self)
        ensures
            match parsed {
                Some(s) => r == (Settings { topmost: false, ..s }),
                None => is_default(r),
            },
    {
        let mut cfg = match parsed {
            Some(s) => s,
            None => Settings::default(),
        };
        cfg.topmost = false;
        cfg
    }

    /// The seconds between two scans.
    pub fn poll_interval(&self) -> (r: u64)
        ensures
            r == if self.poll_seconds < 10 {
                10
            } else if self.poll_seconds > 3600 {
                3600
            } else {
                self.poll_seconds
            },
    {
        if self.poll_seconds < 10 {
            10
        } else if self.poll_seconds > 3600 {
            3600
        } else {
            self.poll_seconds
        }
    }

    /// The text size in percent, within bounds whatever the file says.
    pub fn text_pct(&self) -> (r: u32)
        ensures
            r == if self.text_pct < MIN_TEXT_PCT {
                MIN_TEXT_PCT
            } else if self.text_pct > MAX_TEXT_PCT {
                MAX_TEXT_PCT
            } else {
                self.text_pct
            },
    {
        if self.text_pct < MIN_TEXT_PCT {
            MIN_TEXT_PCT
        } else if self.text_pct > MAX_TEXT_PCT {
            MAX_TEXT_PCT
        } else {
            self.text_pct
        }
    }

    pub fn dock_left(&self) -> (r: bool)
        ensures
            r == text::same_ignoring_case(self.strip_side@, "left"@),
    {
        eq_ignore_case(self.strip_side.as_str(), "left")
    }

    pub fn is_shown(&self, address: &str) -> (r: bool)
        ensures
            r == shown(self.hidden(), address@),
    {
        let ghost h = self.hidden();
        for i in 0..self.hidden_addresses.len()
            invariant
                h == self.hidden(),
                forall|j: int|
                    0 <= j < i ==> !text::same_ignoring_case(#[trigger] h[j], address@),
        {
            assert(h[i as int] == self.hidden_addresses@[i as int]@);
            if eq_ignore_case(self.hidden_addresses[i].as_str(), address) {
                return false;
            }
        }
        true
    }

    pub fn set_shown(&mut self, address: &str, show: bool)
        ensures
            final(self).hidden() == hidden_after(old(self).hidden(), address@, show),
            *final(self) == (Settings {
                hidden_addresses: final(self).hidden_addresses,
                ..*old(self)
            }),
    {
        let ghost h = self.hidden();
        let mut kept: Vec<String> = Vec::new();
        for i in 0..self.hidden_addresses.len()
            invariant
                h == self.hidden(),
                model::texts(kept@) == h.take(i as int).filter(other_address(address@)),
        {
            let ghost before = kept@;
            assert(h.take(i + 1).drop_last() =~= h.take(i as int));
            reveal(Seq::filter);
            if !eq_ignore_case(self.hidden_addresses[i].as_str(), address) {
                kept.push(self.hidden_addresses[i].clone());
                assert(model::texts(kept@) =~= model::texts(before).push(h[i as int]));
            }
        }
        assert(h.take(h.len() as int) =~= h);
        let ghost rest = kept@;
        if !show {
            kept.push(owned(address));
            assert(model::texts(kept@) =~= model::texts(rest).push(address@));
        }
        self.hidden_addresses = kept;
    }

    fn known_at(&self, address: &str) -> (r: usize)
        ensures
            r == known_index(self.known(), address@),
            r <= self.known_devices@.len(),
    {
        let ghost k = self.known();
        let mut i: usize = 0;
        assert(k.skip(0) =~= k);
        while i < self.known_devices.len()
            invariant
                k == self.known(),
                i <= k.len(),
                known_index(k, address@) == i + known_index(k.skip(i as int), address@),
            decreases k.len() - i,
        {
            if eq_ignore_case(self.known_devices[i].address.as_str(), address) {
                return i;
            }
            assert(k.skip(i as int).skip(1) =~= k.skip(i + 1));
            i = i + 1;
        }
        i
    }

    /// Updates the devices seen before. Returns whether the file should be saved.
    pub fn remember(&mut self, devices: &[Device]) -> (r: bool)
        ensures
            r == must_save(old(self).known(), devices@),
            final(self).known() == remembered(old(self).known(), devices@),
            *final(self) == (Settings { known_devices: final(self).known_devices, ..*old(self) }),
    {
        let ghost known = self.known();
        let ghost start = *self;
        let mut changed = false;
        for n in 0..devices.len()
            invariant
                known == start.known(),
                *self == (Settings { known_devices: self.known_devices, ..start }),
                self.known() == noted_all(known, devices@.take(n as int)),
                changed == some_news(known, devices@.take(n as int)),
        {
            let ghost k = self.known();
            assert(devices@.take(n + 1).drop_last() =~= devices@.take(n as int));
            let d = &devices[n];
            let i: usize = self.known_at(d.address.as_str());
            if i < self.known_devices.len() {
                if !same(self.known_devices[i].name.as_str(), d.name.as_str()) || !same(
                    self.known_devices[i].kind.as_str(),
                    d.kind,
                ) {
                    let entry = KnownDevice {
                        address: self.known_devices[i].address.clone(),
                        name: d.name.clone(),
                        kind: owned(d.kind),
                    };
                    self.known_devices.set(i, entry);
                    changed = true;
                }
            } else {
                self.known_devices.push(
                    KnownDevice {
                        address: d.address.clone(),
                        name: d.name.clone(),
                        kind: owned(d.kind),
                    },
                );
                changed = true;
            }
            assert(self.known() =~= noted(k, *d));
        }
        assert(devices@.take(devices@.len() as int) =~= devices@);
        if self.known_devices.len() > MAX_KNOWN_DEVICES {
            let ghost all = self.known();
            let drop: usize = self.known_devices.len() - MAX_KNOWN_DEVICES;
            let kept = self.known_devices.split_off(drop);
            self.known_devices = kept;
            changed = true;
            assert(self.known() =~= newest(all));
        }
        changed
    }

    /// The devices that the strip shows.
    pub open spec fn on_strip(&self, d: Device) -> bool {
        shown(self.hidden(), d.address@) && (d.connected || self.show_offline)
    }

    /// The devices that the strip shows.
    pub fn filter_for_strip(&self, devices: &[Device]) -> (r: Vec<Device>)
        ensures
            r@ == devices@.filter(|d: Device| self.on_strip(d)),
    {
        let ghost keep = |d: Device| self.on_strip(d);
        let mut out: Vec<Device> = Vec::new();
        for i in 0..devices.len()
            invariant
                keep == (|d: Device| self.on_strip(d)),
                out@ == devices@.take(i as int).filter(keep),
        {
            assert(devices@.take(i + 1).drop_last() =~= devices@.take(i as int));
            reveal(Seq::filter);
            let d = &devices[i];
            if self.is_shown(d.address.as_str()) && (d.connected || self.show_offline) {
                out.push(d.clone());
            }
        }
        assert(devices@.take(devices@.len() as int) =~= devices@);
        out
    }

    /// The settings list: present devices, then known ones, in listing order.
    pub fn rows_for_settings(&self, live: &[Device]) -> (r: Vec<DeviceRow>)
        ensures
            row_views(r@) == settings_rows(self.hidden(), self.known(), live@),
    {
        let ghost hidden = self.hidden();
        let ghost first = live_rows(hidden, live@);
        let mut rows: Vec<DeviceRow> = Vec::new();
        for i in 0..live.len()
            invariant
                hidden == self.hidden(),
                first == live_rows(hidden, live@),
                row_views(rows@) == first.take(i as int),
        {
            let d = &live[i];
            let row = DeviceRow {
                address: d.address.clone(),
                name: d.name.clone(),
                kind: owned(d.kind),
                connected: d.connected,
                battery: d.battery,
                shown: self.is_shown(d.address.as_str()),
            };
            assert(row@ =~= first[i as int]);
            let ghost before = rows@;
            rows.push(row);
            assert(row_views(rows@) =~= row_views(before).push(row@));
            assert(first.take(i + 1) =~= first.take(i as int).push(first[i as int]));
        }
        assert(first.take(first.len() as int) =~= first);
        let ghost known = self.known();
        for i in 0..self.known_devices.len()
            invariant
                hidden == self.hidden(),
                known == self.known(),
                row_views(rows@) == with_known(first, hidden, known.take(i as int)),
        {
            let ghost before = row_views(rows@);
            let k = &self.known_devices[i];
            assert(known.take(i + 1).drop_last() =~= known.take(i as int));
            assert(known.take(i + 1).last() == k@);
            let upper = to_ascii_upper(k.address.as_str());
            if !has_text(upper.as_str(), "0C45:8006") {
                let mut seen = false;
                for j in 0..rows.len()
                    invariant
                        before == row_views(rows@),
                        seen == exists|m: int|
                            0 <= m < j && text::same_ignoring_case(
                                (#[trigger] before[m]).address,
                                k.address@,
                            ),
                {
                    if eq_ignore_case(rows[j].address.as_str(), k.address.as_str()) {
                        seen = true;
                        assert(text::same_ignoring_case(before[j as int].address, k.address@));
                    }
                }
                assert(seen == has_row(before, k.address@));
                if !seen {
                    let ghost old_rows = rows@;
                    let row = DeviceRow {
                        address: k.address.clone(),
                        name: k.name.clone(),
                        kind: k.kind.clone(),
                        connected: false,
                        battery: None,
                        shown: self.is_shown(k.address.as_str()),
                    };
                    rows.push(row);
                    assert(row_views(rows@) =~= row_views(old_rows).push(row@));
                }
            }
        }
        assert(known.take(known.len() as int) =~= known);
        sort_device_rows(rows)
    }
}

// --------------------------------------------------------------------- laws

/// The case of an address's letters does not matter to whether it is shown.
pub proof fn law_shown_ignores_case(hidden: Seq<Seq<char>>, a: Seq<char>, b: Seq<char>)
    requires
        text::same_ignoring_case(a, b),
    ensures
        shown(hidden, a) == shown(hidden, b),
{
    if !shown(hidden, a) {
        let i = choose|i: int|
            0 <= i < hidden.len() && text::same_ignoring_case(#[trigger] hidden[i], a);
        assert(text::same_ignoring_case(hidden[i], b));
    }
    if !shown(hidden, b) {
        let i = choose|i: int|
            0 <= i < hidden.len() && text::same_ignoring_case(#[trigger] hidden[i], b);
        assert(text::same_ignoring_case(hidden[i], a));
    }
}

/// An address that is set to be shown is shown, one that is set not to be is not,
/// and every other address stays as it was.
pub proof fn law_set_shown(
    hidden: Seq<Seq<char>>,
    address: Seq<char>,
    show: bool,
    other: Seq<char>,
)
    ensures
        shown(hidden_after(hidden, address, show), address) == show,
        !text::same_ignoring_case(address, other) ==> shown(
            hidden_after(hidden, address, show),
            other,
        ) == shown(hidden, other),
{
    let f = other_address(address);
    let rest = hidden.filter(f);
    let after = hidden_after(hidden, address, show);
    assert forall|i: int| 0 <= i < rest.len() implies !text::same_ignoring_case(
        #[trigger] rest[i],
        address,
    ) by {
        hidden.lemma_filter_pred(f, i);
    }
    if !show {
        assert(text::same_ignoring_case(after[rest.len() as int], address));
    } else {
        assert(shown(after, address));
    }
    if !text::same_ignoring_case(address, other) {
        if !shown(hidden, other) {
            let i = choose|i: int|
                0 <= i < hidden.len() && text::same_ignoring_case(#[trigger] hidden[i], other);
            assert(f(hidden[i]));
            hidden.lemma_filter_contains(f, i);
            let j = choose|j: int| 0 <= j < rest.len() && rest[j] == hidden[i];
            assert(text::same_ignoring_case(after[j], other));
        }
        if !shown(after, other) {
            let j = choose|j: int|
                0 <= j < after.len() && text::same_ignoring_case(#[trigger] after[j], other);
            assert(j < rest.len());
            assert(rest.contains(rest[j]));
            hidden.lemma_filter_contains_rev(f, rest[j]);
            let i = choose|i: int| 0 <= i < hidden.len() && hidden[i] == rest[j];
            assert(text::same_ignoring_case(hidden[i], other));
        }
    }
}

/// Every device on the strip is one that the user did not hide, and is connected
/// unless devices that are not are to be shown; and every such device is there.
pub proof fn law_strip_shows_what_was_chosen(s: Settings, devices: Seq<Device>, i: int)
    ensures
        ({
            let r = devices.filter(|d: Device| s.on_strip(d));
            &&& 0 <= i < r.len() ==> shown(s.hidden(), r[i].address@) && (r[i].connected
                || s.show_offline) && devices.contains(r[i])
            &&& 0 <= i < devices.len() && s.on_strip(devices[i]) ==> r.contains(devices[i])
            &&& 0 <= i < devices.len() && shown(s.hidden(), devices[i].address@) && (
            devices[i].connected || s.show_offline) ==> r.contains(devices[i])
        }),
{
    let f = |d: Device| s.on_strip(d);
    let r = devices.filter(f);
    if 0 <= i < r.len() {
        devices.lemma_filter_pred(f, i);
        assert(r.contains(r[i]));
        devices.lemma_filter_contains_rev(f, r[i]);
    }
    if 0 <= i < devices.len() && s.on_strip(devices[i]) {
        devices.lemma_filter_contains(f, i);
    }
}

proof fn lemma_known_index(known: Seq<KnownView>, a: Seq<char>)
    ensures
        0 <= known_index(known, a) <= known.len(),
        forall|j: int|
            0 <= j < known_index(known, a) ==> !text::same_ignoring_case(
                (#[trigger] known[j]).address,
                a,
            ),
        known_index(known, a) < known.len() ==> text::same_ignoring_case(
            known[known_index(known, a)].address,
            a,
        ),
    decreases known.len(),
{
    if known.len() > 0 && !text::same_ignoring_case(known[0].address, a) {
        let t = known.skip(1);
        lemma_known_index(t, a);
        assert forall|j: int| 0 <= j < known_index(known, a) implies !text::same_ignoring_case(
            (#[trigger] known[j]).address,
            a,
        ) by {
            if j > 0 {
                assert(t[j - 1] == known[j]);
            }
        }
    }
}

/// No two known devices have the same address, whatever the case of its letters.
pub open spec fn distinct(known: Seq<KnownView>) -> bool {
    forall|i: int, j: int|
        0 <= i < j < known.len() ==> !text::same_ignoring_case(
            (#[trigger] known[i]).address,
            (#[trigger] known[j]).address,
        )
}

/// `known` holds a device under its present name and kind.
pub open spec fn holds(known: Seq<KnownView>, d: Device) -> bool {
    exists|j: int|
        0 <= j < known.len() && text::same_ignoring_case((#[trigger] known[j]).address, d.address@)
            && known[j].name == d.name@ && known[j].kind == d.kind@
}

/// Devices with the same address, whatever the case of its letters, have the same name
/// and kind.
pub open spec fn agreeing(devs: Seq<Device>) -> bool {
    forall|i: int, j: int|
        0 <= i < j < devs.len() && text::same_ignoring_case(
            (#[trigger] devs[i]).address@,
            (#[trigger] devs[j]).address@,
        ) ==> devs[i].name@ == devs[j].name@ && devs[i].kind@ == devs[j].kind@
}

/// The index of the first known device with an address is the only one of which this
/// holds.
proof fn lemma_index_is(known: Seq<KnownView>, a: Seq<char>, i: int)
    requires
        0 <= i <= known.len(),
        forall|j: int| 0 <= j < i ==> !text::same_ignoring_case((#[trigger] known[j]).address, a),
        i < known.len() ==> text::same_ignoring_case(known[i].address, a),
    ensures
        known_index(known, a) == i,
{
    lemma_known_index(known, a);
    let k = known_index(known, a);
    if k < i {
        assert(!text::same_ignoring_case(known[k].address, a));
    } else if i < k {
        assert(!text::same_ignoring_case(known[i].address, a));
    }
}

/// Seeing a device keeps the addresses and, at most, adds one at the end; the first
/// entry with its address is then up to date. It keeps the place of every other
/// address that was there.
proof fn lemma_noted(known: Seq<KnownView>, d: Device)
    ensures
        ({
            let r = noted(known, d);
            let i = known_index(known, d.address@);
            &&& known.len() <= r.len() <= known.len() + 1
            &&& forall|j: int| 0 <= j < known.len() ==> (#[trigger] r[j]).address
                == known[j].address
            &&& forall|j: int| 0 <= j < known.len() && j != i ==> #[trigger] r[j] == known[j]
            &&& 0 <= i < r.len() && !is_news(r, d) && known_index(r, d.address@) == i
            &&& distinct(known) ==> distinct(r)
        }),
        forall|a: Seq<char>|
            known_index(known, a) < known.len() ==> #[trigger] known_index(noted(known, d), a)
                == known_index(known, a),
        forall|a: Seq<char>|
            known_index(known, a) >= known.len() && !text::same_ignoring_case(a, d.address@)
                ==> #[trigger] known_index(noted(known, d), a) == noted(known, d).len(),
{
    lemma_known_index(known, d.address@);
    let i = known_index(known, d.address@);
    let r = noted(known, d);
    assert(text::same_ignoring_case(r[i].address, d.address@));
    lemma_index_is(r, d.address@, i);
    if distinct(known) {
        assert forall|a: int, b: int| 0 <= a < b < r.len() implies !text::same_ignoring_case(
            (#[trigger] r[a]).address,
            (#[trigger] r[b]).address,
        ) by {
            if b < known.len() {
                assert(!text::same_ignoring_case(known[a].address, known[b].address));
            } else {
                assert(!text::same_ignoring_case(known[a].address, d.address@));
            }
        }
    }
    assert forall|a: Seq<char>| known_index(known, a) < known.len() implies #[trigger] known_index(
        r,
        a,
    ) == known_index(known, a) by {
        lemma_known_index(known, a);
        lemma_index_is(r, a, known_index(known, a));
    }
    assert forall|a: Seq<char>|
        known_index(known, a) >= known.len() && !text::same_ignoring_case(
            a,
            d.address@,
        ) implies #[trigger] known_index(r, a) == r.len() by {
        lemma_known_index(known, a);
        assert forall|j: int| 0 <= j < r.len() implies !text::same_ignoring_case(
            (#[trigger] r[j]).address,
            a,
        ) by {
            if j < known.len() {
                assert(!text::same_ignoring_case(known[j].address, a));
            }
        }
        lemma_index_is(r, a, r.len() as int);
    }
}

/// Seeing devices adds at most one entry for each, and no second entry for an address.
proof fn lemma_noted_all(known: Seq<KnownView>, devs: Seq<Device>)
    ensures
        known.len() <= noted_all(known, devs).len() <= known.len() + devs.len(),
        distinct(known) ==> distinct(noted_all(known, devs)),
    decreases devs.len(),
{
    if devs.len() > 0 {
        lemma_noted_all(known, devs.drop_last());
        lemma_noted(noted_all(known, devs.drop_last()), devs.last());
    }
}

/// No more devices are remembered than there is room for, and an address that was there
/// once at most stays so.
pub proof fn law_remembered_is_bounded(known: Seq<KnownView>, devs: Seq<Device>)
    ensures
        remembered(known, devs).len() <= MAX_KNOWN_DEVICES,
        distinct(known) ==> distinct(remembered(known, devs)),
{
    lemma_noted_all(known, devs);
    let all = noted_all(known, devs);
    let r = remembered(known, devs);
    if distinct(known) {
        assert forall|i: int, j: int| 0 <= i < j < r.len() implies !text::same_ignoring_case(
            (#[trigger] r[i]).address,
            (#[trigger] r[j]).address,
        ) by {
            let cut = all.len() - r.len();
            assert(r[i] == all[i + cut] && r[j] == all[j + cut]);
        }
    }
}

/// Where a device that was not known ends up after the first `n` devices: nowhere as long
/// as it was not seen, then within the room of the devices seen since. It is up to date
/// from device `i` on, the last one with its address.
proof fn lemma_new_device(known: Seq<KnownView>, devs: Seq<Device>, i: int, n: int)
    requires
        0 <= n <= devs.len(),
        0 <= i < devs.len(),
        known_index(known, devs[i].address@) >= known.len(),
        forall|j: int|
            0 <= j < devs.len() - MAX_KNOWN_DEVICES ==> !text::same_ignoring_case(
                (#[trigger] devs[j]).address@,
                devs[i].address@,
            ),
        forall|j: int|
            i < j < devs.len() ==> !text::same_ignoring_case(
                (#[trigger] devs[j]).address@,
                devs[i].address@,
            ),
    ensures
        ({
            let k = noted_all(known, devs.take(n));
            let p = known_index(k, devs[i].address@);
            &&& 0 <= p <= k.len()
            &&& p < k.len() ==> k.len() - p <= n - devs.len() + MAX_KNOWN_DEVICES
            &&& n > i ==> !is_news(k, devs[i])
        }),
    decreases n,
{
    let a = devs[i].address@;
    if n == 0 {
        assert(devs.take(0) =~= Seq::empty());
        lemma_known_index(known, a);
    } else {
        lemma_new_device(known, devs, i, n - 1);
        let d = devs[n - 1];
        let before = noted_all(known, devs.take(n - 1));
        assert(devs.take(n).drop_last() =~= devs.take(n - 1));
        assert(devs.take(n).last() == d);
        lemma_noted(before, d);
        let k = noted_all(known, devs.take(n));
        assert(k == noted(before, d));
        lemma_known_index(k, a);
        lemma_known_index(before, a);
        if known_index(before, a) >= before.len() {
            if text::same_ignoring_case(a, d.address@) {
                assert(n - 1 >= devs.len() - MAX_KNOWN_DEVICES);
                assert forall|j: int| 0 <= j < before.len() implies !text::same_ignoring_case(
                    (#[trigger] before[j]).address,
                    d.address@,
                ) by {
                    assert(!text::same_ignoring_case(before[j].address, a));
                }
                lemma_index_is(before, d.address@, before.len() as int);
                assert forall|j: int| 0 <= j < before.len() implies !text::same_ignoring_case(
                    (#[trigger] k[j]).address,
                    a,
                ) by {
                    assert(k[j].address == before[j].address);
                }
                lemma_index_is(k, a, before.len() as int);
            }
        } else if n - 1 > i {
            lemma_known_index(before, d.address@);
        }
    }
}

/// A device that was not known is remembered, under its name and kind, however many were
/// known: the oldest ones make room. There is room for the last devices seen; where an
/// address comes twice, the later name and kind count.
pub proof fn law_new_device_is_remembered(known: Seq<KnownView>, devs: Seq<Device>, i: int)
    requires
        0 <= i < devs.len(),
        forall|j: int|
            0 <= j < known.len() ==> !text::same_ignoring_case(
                (#[trigger] known[j]).address,
                devs[i].address@,
            ),
        forall|j: int|
            0 <= j < devs.len() - MAX_KNOWN_DEVICES ==> !text::same_ignoring_case(
                (#[trigger] devs[j]).address@,
                devs[i].address@,
            ),
        forall|j: int|
            i < j < devs.len() ==> !text::same_ignoring_case(
                (#[trigger] devs[j]).address@,
                devs[i].address@,
            ),
    ensures
        holds(remembered(known, devs), devs[i]),
{
    let d = devs[i];
    lemma_index_is(known, d.address@, known.len() as int);
    lemma_new_device(known, devs, i, devs.len() as int);
    assert(devs.take(devs.len() as int) =~= devs);
    let all = noted_all(known, devs);
    let r = remembered(known, devs);
    let p = known_index(all, d.address@);
    let cut = all.len() - r.len();
    lemma_known_index(all, d.address@);
    assert(r[p - cut] == all[p]);
}

/// After some agreeing devices were seen, none of them is news.
proof fn lemma_all_current(known: Seq<KnownView>, devs: Seq<Device>)
    requires
        agreeing(devs),
    ensures
        forall|i: int| 0 <= i < devs.len() ==> !is_news(noted_all(known, devs), #[trigger] devs[i]),
    decreases devs.len(),
{
    if devs.len() > 0 {
        let t = devs.drop_last();
        let k = noted_all(known, t);
        let d = devs[devs.len() - 1];
        assert(d == devs.last());
        assert forall|i: int, j: int|
            0 <= i < j < t.len() && text::same_ignoring_case(
                (#[trigger] t[i]).address@,
                (#[trigger] t[j]).address@,
            ) implies t[i].name@ == t[j].name@ && t[i].kind@ == t[j].kind@ by {
            assert(t[i] == devs[i] && t[j] == devs[j]);
        }
        lemma_all_current(known, t);
        lemma_noted(k, d);
        assert forall|i: int| 0 <= i < devs.len() implies !is_news(
            noted_all(known, devs),
            #[trigger] devs[i],
        ) by {
            if i < t.len() {
                assert(t[i] == devs[i]);
                let e = devs[i];
                lemma_known_index(k, e.address@);
                lemma_known_index(k, d.address@);
                if known_index(k, e.address@) == known_index(k, d.address@) {
                    assert(text::same_ignoring_case(e.address@, d.address@));
                }
            }
        }
    }
}

/// Devices that are no news change nothing.
proof fn lemma_no_news(known: Seq<KnownView>, devs: Seq<Device>)
    requires
        forall|i: int| 0 <= i < devs.len() ==> !is_news(known, #[trigger] devs[i]),
    ensures
        noted_all(known, devs) == known,
        !some_news(known, devs),
    decreases devs.len(),
{
    if devs.len() > 0 {
        let t = devs.drop_last();
        assert forall|i: int| 0 <= i < t.len() implies !is_news(known, #[trigger] t[i]) by {
            assert(t[i] == devs[i]);
        }
        lemma_no_news(known, t);
        let d = devs[devs.len() - 1];
        lemma_known_index(known, d.address@);
        assert(noted(known, d) =~= known);
    }
}

/// Seeing the same devices again changes nothing and asks for no save, as long as the
/// first time forgot none of the entries that it found or made for them, and no two of
/// them contradict each other.
pub proof fn law_remembering_twice_is_quiet(known: Seq<KnownView>, devs: Seq<Device>)
    requires
        agreeing(devs),
        forall|i: int|
            0 <= i < devs.len() ==> known_index(
                noted_all(known, devs),
                (#[trigger] devs[i]).address@,
            ) >= noted_all(known, devs).len() - MAX_KNOWN_DEVICES,
    ensures
        remembered(remembered(known, devs), devs) == remembered(known, devs),
        !must_save(remembered(known, devs), devs),
{
    let all = noted_all(known, devs);
    let r = remembered(known, devs);
    lemma_all_current(known, devs);
    let cut = all.len() - r.len();
    assert forall|i: int| 0 <= i < devs.len() implies !is_news(r, #[trigger] devs[i]) by {
        let a = devs[i].address@;
        let k = known_index(all, a);
        assert(!is_news(all, devs[i]));
        lemma_known_index(all, a);
        assert forall|j: int| 0 <= j < k - cut implies !text::same_ignoring_case(
            (#[trigger] r[j]).address,
            a,
        ) by {
            assert(r[j] == all[j + cut]);
        }
        assert(r[k - cut] == all[k]);
        lemma_index_is(r, a, k - cut);
    }
    lemma_no_news(r, devs);
}

/// With room for all of them, or with no address known twice and none of the devices
/// forgotten, the first time forgets no entry that it found or made.
pub proof fn law_found_entries_stay(known: Seq<KnownView>, devs: Seq<Device>, i: int)
    requires
        0 <= i < devs.len(),
        known.len() + devs.len() <= MAX_KNOWN_DEVICES || (distinct(known) && known_index(
            remembered(known, devs),
            devs[i].address@,
        ) < remembered(known, devs).len()),
    ensures
        known_index(noted_all(known, devs), devs[i].address@) >= noted_all(known, devs).len()
            - MAX_KNOWN_DEVICES,
{
    let all = noted_all(known, devs);
    let r = remembered(known, devs);
    let a = devs[i].address@;
    lemma_noted_all(known, devs);
    lemma_known_index(all, a);
    lemma_known_index(r, a);
    if all.len() > MAX_KNOWN_DEVICES {
        let cut = all.len() - r.len();
        let j = known_index(r, a);
        let k = known_index(all, a);
        assert(r[j] == all[j + cut]);
        if k < cut {
            assert(!text::same_ignoring_case(all[k].address, all[j + cut].address));
        }
    }
}

/// No known device gets a second row, and the keyboard's cable gets none.
pub proof fn law_known_rows_are_new(
    rows: Seq<RowView>,
    hidden: Seq<Seq<char>>,
    known: Seq<KnownView>,
    i: int,
    j: int,
)
    requires
        0 <= i < j < with_known(rows, hidden, known).len(),
        rows.len() <= j,
    ensures
        ({
            let r = with_known(rows, hidden, known);
            &&& !text::same_ignoring_case(r[i].address, r[j].address)
            &&& !is_cable_address(r[j].address)
            &&& !r[j].connected && r[j].battery is None
        }),
    decreases known.len(),
{
    if known.len() > 0 {
        let before = with_known(rows, hidden, known.drop_last());
        lemma_with_known_len(rows, hidden, known.drop_last());
        if j < before.len() {
            law_known_rows_are_new(rows, hidden, known.drop_last(), i, j);
        } else {
            let k = known.last();
            if text::same_ignoring_case(before[i].address, k.address) {
                assert(has_row(before, k.address));
            }
        }
    }
}

proof fn lemma_with_known_len(
    rows: Seq<RowView>,
    hidden: Seq<Seq<char>>,
    known: Seq<KnownView>,
)
    ensures
        with_known(rows, hidden, known).len() >= rows.len(),
        with_known(rows, hidden, known).take(rows.len() as int) == rows,
    decreases known.len(),
{
    if known.len() > 0 {
        lemma_with_known_len(rows, hidden, known.drop_last());
        let before = with_known(rows, hidden, known.drop_last());
        let after = with_known(rows, hidden, known);
        assert(after.take(rows.len() as int) =~= before.take(rows.len() as int));
    } else {
        assert(rows.take(rows.len() as int) =~= rows);
    }
}

/// Every present device keeps its row, ahead of the rows of known devices.
pub proof fn law_present_devices_have_rows(
    hidden: Seq<Seq<char>>,
    known: Seq<KnownView>,
    live: Seq<Device>,
)
    ensures
        with_known(live_rows(hidden, live), hidden, known).take(live.len() as int) == live_rows(
            hidden,
            live,
        ),
{
    lemma_with_known_len(live_rows(hidden, live), hidden, known);
}

/// An address is shown if and only if no hidden address is the same, whatever the case of
/// its letters.
pub proof fn law_hidden_is_what_is_not_shown(hidden: Seq<Seq<char>>, a: Seq<char>)
    ensures
        shown(hidden, a) <==> forall|i: int|
            0 <= i < hidden.len() ==> !text::same_ignoring_case(#[trigger] hidden[i], a),
        hidden.contains(a) ==> !shown(hidden, a),
{
    if hidden.contains(a) {
        let i = choose|i: int| 0 <= i < hidden.len() && hidden[i] == a;
        assert(text::same_ignoring_case(hidden[i], a));
    }
}

/// Each known device has a row, unless it is the keyboard's cable.
proof fn lemma_known_row_there(
    rows: Seq<RowView>,
    hidden: Seq<Seq<char>>,
    known: Seq<KnownView>,
    k: int,
) -> (i: int)
    requires
        0 <= k < known.len(),
        !text::contains(text::ascii_upper(known[k].address), "0C45:8006"@),
    ensures
        0 <= i < with_known(rows, hidden, known).len(),
        text::same_ignoring_case(with_known(rows, hidden, known)[i].address, known[k].address),
    decreases known.len(),
{
    let t = known.drop_last();
    let before = with_known(rows, hidden, t);
    if k < t.len() {
        assert(t[k] == known[k]);
        let i = lemma_known_row_there(rows, hidden, t, k);
        assert(with_known(rows, hidden, known)[i] == before[i]);
        i
    } else {
        assert(known[k] == known.last());
        if has_row(before, known[k].address) {
            choose|i: int|
                0 <= i < before.len() && text::same_ignoring_case(
                    (#[trigger] before[i]).address,
                    known[k].address,
                )
        } else {
            before.len() as int
        }
    }
}

/// A row behind those of present devices is that of a known one.
proof fn lemma_known_row_from(
    rows: Seq<RowView>,
    hidden: Seq<Seq<char>>,
    known: Seq<KnownView>,
    i: int,
) -> (k: int)
    requires
        rows.len() <= i < with_known(rows, hidden, known).len(),
    ensures
        0 <= k < known.len(),
        with_known(rows, hidden, known)[i] == (RowView {
            address: known[k].address,
            name: known[k].name,
            kind: known[k].kind,
            connected: false,
            battery: None,
            shown: shown(hidden, known[k].address),
        }),
    decreases known.len(),
{
    let t = known.drop_last();
    let before = with_known(rows, hidden, t);
    if i < before.len() {
        let k = lemma_known_row_from(rows, hidden, t, i);
        assert(t[k] == known[k]);
        k
    } else {
        known.len() - 1
    }
}

/// Every remembered device has a row in the settings list with its address, whatever the
/// case of its letters and whatever else is listed, unless its address is that of the
/// keyboard's cable.
pub proof fn law_remembered_devices_are_listed(
    hidden: Seq<Seq<char>>,
    known: Seq<KnownView>,
    live: Seq<Device>,
    k: int,
)
    requires
        0 <= k < known.len(),
        !text::contains(text::ascii_upper(known[k].address), "0C45:8006"@),
    ensures
        exists|i: int|
            0 <= i < settings_rows(hidden, known, live).len() && text::same_ignoring_case(
                (#[trigger] settings_rows(hidden, known, live)[i]).address,
                known[k].address,
            ),
{
    let all = with_known(live_rows(hidden, live), hidden, known);
    let j = lemma_known_row_there(live_rows(hidden, live), hidden, known, k);
    let i = order::lemma_in_order_has(
        all,
        all.map_values(|r: RowView| (r.connected, text::lowercase(r.name))),
        j,
    );
    assert(settings_rows(hidden, known, live)[i] == all[j]);
}

/// Every present device has a row in the settings list, which says whether it is
/// connected, what its battery is and whether the user hid it.
pub proof fn law_present_devices_are_listed(
    hidden: Seq<Seq<char>>,
    known: Seq<KnownView>,
    live: Seq<Device>,
    j: int,
)
    requires
        0 <= j < live.len(),
    ensures
        exists|i: int|
            ({
                let d = live[j];
                let r = #[trigger] settings_rows(hidden, known, live)[i];
                &&& 0 <= i < settings_rows(hidden, known, live).len()
                &&& r.address == d.address@ && r.name == d.name@ && r.kind == d.kind@
                &&& r.connected == d.connected && r.battery == d.battery
                &&& r.shown <==> forall|h: int|
                    0 <= h < hidden.len() ==> !text::same_ignoring_case(
                        #[trigger] hidden[h],
                        d.address@,
                    )
            }),
{
    let rows = live_rows(hidden, live);
    let all = with_known(rows, hidden, known);
    lemma_with_known_len(rows, hidden, known);
    assert(all.take(rows.len() as int)[j] == rows[j]);
    let i = order::lemma_in_order_has(
        all,
        all.map_values(|r: RowView| (r.connected, text::lowercase(r.name))),
        j,
    );
    assert(settings_rows(hidden, known, live)[i] == rows[j]);
}

/// The settings list holds nothing else: each row is that of a present device, or of a
/// remembered one of which no device with its address is present; the latter is not
/// connected and shows no battery.
pub proof fn law_rows_are_present_or_remembered(
    hidden: Seq<Seq<char>>,
    known: Seq<KnownView>,
    live: Seq<Device>,
    i: int,
)
    requires
        0 <= i < settings_rows(hidden, known, live).len(),
    ensures
        ({
            let r = settings_rows(hidden, known, live)[i];
            ||| exists|j: int|
                0 <= j < live.len() && (#[trigger] live[j]).address@ == r.address && live[j].name@
                    == r.name && live[j].connected == r.connected && live[j].battery == r.battery
            ||| {
                &&& exists|k: int|
                    0 <= k < known.len() && (#[trigger] known[k]).address == r.address
                        && known[k].name == r.name && known[k].kind == r.kind
                &&& !r.connected && r.battery is None
                &&& forall|j: int|
                    0 <= j < live.len() ==> !text::same_ignoring_case(
                        (#[trigger] live[j]).address@,
                        r.address,
                    )
                &&& !text::contains(text::ascii_upper(r.address), "0C45:8006"@)
            }
        }),
        settings_rows(hidden, known, live)[i].shown <==> forall|h: int|
            0 <= h < hidden.len() ==> !text::same_ignoring_case(
                #[trigger] hidden[h],
                settings_rows(hidden, known, live)[i].address,
            ),
        settings_rows(hidden, known, live).len() <= live.len() + known.len(),
{
    let rows = live_rows(hidden, live);
    let all = with_known(rows, hidden, known);
    let keys = all.map_values(|r: RowView| (r.connected, text::lowercase(r.name)));
    lemma_with_known_len(rows, hidden, known);
    lemma_with_known_bound(rows, hidden, known);
    order::law_listing_keeps_rows(all, keys);
    let q = order::lemma_in_order_from(all, keys, i);
    let r = settings_rows(hidden, known, live)[i];
    assert(all[q] == r);
    if q < rows.len() {
        assert(all.take(rows.len() as int)[q] == rows[q]);
        assert(live[q].address@ == r.address);
    } else {
        let k = lemma_known_row_from(rows, hidden, known, q);
        assert(known[k].address == r.address);
        assert forall|j: int| 0 <= j < live.len() implies !text::same_ignoring_case(
            (#[trigger] live[j]).address@,
            r.address,
        ) by {
            law_known_rows_are_new(rows, hidden, known, j, q);
            assert(all.take(rows.len() as int)[j] == rows[j]);
        }
        if q == 0 {
            lemma_first_known_row(rows, hidden, known);
        } else {
            law_known_rows_are_new(rows, hidden, known, 0, q);
        }
    }
}

proof fn lemma_with_known_bound(
    rows: Seq<RowView>,
    hidden: Seq<Seq<char>>,
    known: Seq<KnownView>,
)
    ensures
        with_known(rows, hidden, known).len() <= rows.len() + known.len(),
    decreases known.len(),
{
    if known.len() > 0 {
        lemma_with_known_bound(rows, hidden, known.drop_last());
    }
}

/// The keyboard's cable gets no row, even as the first.
proof fn lemma_first_known_row(
    rows: Seq<RowView>,
    hidden: Seq<Seq<char>>,
    known: Seq<KnownView>,
)
    requires
        rows.len() == 0,
        with_known(rows, hidden, known).len() > 0,
    ensures
        !is_cable_address(with_known(rows, hidden, known)[0].address),
    decreases known.len(),
{
    let before = with_known(rows, hidden, known.drop_last());
    if known.len() > 0 && before.len() > 0 {
        lemma_first_known_row(rows, hidden, known.drop_last());
    }
}

/// The settings list has the connected devices first, and by name among those alike in
/// this.
pub proof fn law_connected_settings_rows_come_first(
    hidden: Seq<Seq<char>>,
    known: Seq<KnownView>,
    live: Seq<Device>,
    i: int,
    j: int,
)
    requires
        0 <= i < j < settings_rows(hidden, known, live).len(),
    ensures
        ({
            let r = settings_rows(hidden, known, live);
            &&& r[j].connected ==> r[i].connected
            &&& r[i].connected == r[j].connected ==> !order::text_lt(
                text::lowercase(r[j].name),
                text::lowercase(r[i].name),
            )
        }),
{
    let all = with_known(live_rows(hidden, live), hidden, known);
    let keys = all.map_values(|r: RowView| (r.connected, text::lowercase(r.name)));
    let (a, b) = order::lemma_in_order_sorted(all, keys, i, j);
    assert(keys[a] == (all[a].connected, text::lowercase(all[a].name)));
    assert(keys[b] == (all[b].connected, text::lowercase(all[b].name)));
}

/// A row's text in the menu begins with the name, tells the battery, and ends with
/// whether the device is connected.
pub proof fn law_labels_tell_all(v: RowView)
    ensures
        ({
            let l = DeviceRow::label_text(v);
            &&& text::starts_with(l, v.name)
            &&& v.battery matches Some(b) ==> text::contains(
                l,
                " "@ + text::decimal(b as nat) + "% "@,
            )
            &&& v.battery is None ==> text::contains(l, " -- "@)
            &&& v.connected ==> exists|h: Seq<char>| l == #[trigger] (h + "已连接"@)
            &&& !v.connected ==> exists|h: Seq<char>| l == #[trigger] (h + "离线"@)
        }),
{
    let l = DeviceRow::label_text(v);
    let state = if v.connected {
        "已连接"@
    } else {
        "离线"@
    };
    match v.battery {
        Some(b) => lemma_label(v.name, text::decimal(b as nat) + "%"@, state),
        None => lemma_label(v.name, "--"@, state),
    }
    match v.battery {
        Some(b) => {
            let n = text::decimal(b as nat);
            assert(" "@ + (n + "%"@) + " "@ =~= " "@ + n + "% "@) by {
                reveal_strlit(" ");
                reveal_strlit("%");
                reveal_strlit("% ");
            }
        },
        None => {
            assert(" "@ + "--"@ + " "@ =~= " -- "@) by {
                reveal_strlit(" ");
                reveal_strlit("--");
                reveal_strlit(" -- ");
            }
        },
    }
}

proof fn lemma_label(name: Seq<char>, batt: Seq<char>, state: Seq<char>)
    ensures
        ({
            let l = name + "    "@ + batt + "  "@ + state;
            &&& text::starts_with(l, name)
            &&& text::contains(l, " "@ + batt + " "@)
            &&& exists|h: Seq<char>| l == #[trigger] (h + state)
        }),
{
    let l = name + "    "@ + batt + "  "@ + state;
    let head = name + "    "@ + batt + "  "@;
    assert(l == head + state);
    text::lemma_between(Seq::empty(), name, "    "@ + batt + "  "@ + state);
    assert(l =~= name + ("    "@ + batt + "  "@ + state));
    let pad = seq![' ', ' ', ' '];
    assert("    "@ =~= pad + " "@ && "  "@ =~= " "@ + " "@) by {
        reveal_strlit(" ");
        reveal_strlit("  ");
        reveal_strlit("    ");
    }
    let w = " "@ + batt + " "@;
    text::lemma_between(name + pad, w, " "@ + state);
    assert(l =~= (name + pad) + w + (" "@ + state));
}

/// With room for all, a device that was seen is remembered under its present name and
/// kind; where an address comes twice, the later name and kind count.
pub proof fn law_seen_device_is_up_to_date(known: Seq<KnownView>, devs: Seq<Device>, i: int)
    requires
        0 <= i < devs.len(),
        known.len() + devs.len() <= 40,
        forall|j: int|
            i < j < devs.len() ==> !text::same_ignoring_case(
                (#[trigger] devs[j]).address@,
                devs[i].address@,
            ),
    ensures
        holds(remembered(known, devs), devs[i]),
    decreases devs.len(),
{
    let t = devs.drop_last();
    let k = noted_all(known, t);
    let d = devs.last();
    lemma_noted_all(known, devs);
    lemma_noted_all(known, t);
    lemma_noted(k, d);
    lemma_known_index(k, d.address@);
    let r = noted(k, d);
    let at = known_index(k, d.address@);
    lemma_known_index(r, d.address@);
    if i == devs.len() - 1 {
        assert(r[at].name == d.name@ && r[at].kind == d.kind@);
        assert(text::same_ignoring_case(r[at].address, d.address@));
    } else {
        assert(t[i] == devs[i]);
        assert forall|j: int| i < j < t.len() implies !text::same_ignoring_case(
            (#[trigger] t[j]).address@,
            t[i].address@,
        ) by {
            assert(t[j] == devs[j]);
        }
        law_seen_device_is_up_to_date(known, t, i);
        let e = devs[i];
        let j = choose|j: int|
            0 <= j < k.len() && text::same_ignoring_case((#[trigger] k[j]).address, e.address@)
                && k[j].name == e.name@ && k[j].kind == e.kind@;
        assert(devs[devs.len() - 1] == d);
        if j == at {
            assert(text::same_ignoring_case(k[at].address, d.address@));
            assert(text::same_ignoring_case(d.address@, e.address@));
        }
        assert(r[j] == k[j]);
    }
}

/// With room for all, what is remembered of other addresses stays, in its place.
pub proof fn law_other_entries_stay(known: Seq<KnownView>, devs: Seq<Device>, j: int)
    requires
        0 <= j < known.len(),
        known.len() + devs.len() <= 40,
        forall|i: int|
            0 <= i < devs.len() ==> !text::same_ignoring_case(
                (#[trigger] devs[i]).address@,
                known[j].address,
            ),
    ensures
        j < remembered(known, devs).len(),
        remembered(known, devs)[j] == known[j],
    decreases devs.len(),
{
    lemma_noted_all(known, devs);
    if devs.len() > 0 {
        let t = devs.drop_last();
        let k = noted_all(known, t);
        let d = devs.last();
        lemma_noted_all(known, t);
        assert forall|i: int| 0 <= i < t.len() implies !text::same_ignoring_case(
            (#[trigger] t[i]).address@,
            known[j].address,
        ) by {
            assert(t[i] == devs[i]);
        }
        law_other_entries_stay(known, t, j);
        lemma_noted(k, d);
        lemma_known_index(k, d.address@);
        assert(devs[devs.len() - 1] == d);
        assert(noted_all(known, devs)[j] == k[j]);
    }
}

proof fn lemma_no_news_no_change(known: Seq<KnownView>, devs: Seq<Device>)
    requires
        !some_news(known, devs),
    ensures
        noted_all(known, devs) == known,
    decreases devs.len(),
{
    if devs.len() > 0 {
        lemma_no_news_no_change(known, devs.drop_last());
        let d = devs.last();
        lemma_known_index(known, d.address@);
        assert(noted(known, d) =~= known);
    }
}

/// Whenever what is remembered changes, the file is to be saved.
pub proof fn law_changes_are_saved(known: Seq<KnownView>, devs: Seq<Device>)
    ensures
        remembered(known, devs) != known ==> must_save(known, devs),
{
    if !must_save(known, devs) {
        lemma_no_news_no_change(known, devs);
    }
}

/// The oldest entries are forgotten first: what is kept of more than 40 is the last 40.
pub proof fn law_oldest_are_forgotten(known: Seq<KnownView>, d: Device)
    requires
        known.len() == 40,
        forall|j: int|
            0 <= j < 40 ==> !text::same_ignoring_case((#[trigger] known[j]).address, d.address@),
    ensures
        ({
            let r = remembered(known, seq![d]);
            &&& r.len() == 40
            &&& forall|j: int| 0 <= j < 39 ==> #[trigger] r[j] == known[j + 1]
            &&& r[39] == (KnownView { address: d.address@, name: d.name@, kind: d.kind@ })
        }),
{
    lemma_index_is(known, d.address@, 40);
    assert(seq![d].drop_last() =~= Seq::empty());
    assert(noted_all(known, seq![d].drop_last()) == known);
    assert(noted_all(known, seq![d]) == noted(known, d));
    let r = remembered(known, seq![d]);
    assert(r =~= noted(known, d).skip(1));
}

/// At a first start the strip is shown on the right in the usual text size, devices are
/// scanned for every ten seconds, an alert comes at 20 % and again after half an hour,
/// no device is hidden, and the program does not start with the session.
pub proof fn law_first_start(s: Settings, a: Seq<char>)
    requires
        is_default(s),
    ensures
        s.poll_seconds == 10 && s.strip_visible && !s.autostart && !s.topmost,
        s.notify_low && s.low_battery_alert == 20 && s.resend_minutes == 30,
        s.opacity == 100 && s.show_offline && s.text_pct == 100,
        s.strip_side@ == "right"@,
        shown(s.hidden(), a),
        s.known().len() == 0,
{
}

/// Settings say what they hold.
pub proof fn law_settings_tell_all(s: Settings)
    ensures
        s@.poll_seconds == s.poll_seconds && s@.strip_visible == s.strip_visible,
        s@.topmost == s.topmost && s@.autostart == s.autostart && s@.notify_low == s.notify_low,
        s@.low_battery_alert == s.low_battery_alert && s@.resend_minutes == s.resend_minutes,
        s@.opacity == s.opacity && s@.show_offline == s.show_offline,
        s@.strip_side == s.strip_side@ && s@.text_pct == s.text_pct,
        s@.hidden.len() == s.hidden_addresses@.len(),
        s@.known.len() == s.known_devices@.len(),
        forall|i: int|
            0 <= i < s.hidden_addresses@.len() ==> #[trigger] s@.hidden[i]
                == s.hidden_addresses@[i]@,
        forall|i: int|
            0 <= i < s.known_devices@.len() ==> (#[trigger] s@.known[i]).address
                == s.known_devices@[i].address@ && s@.known[i].name == s.known_devices@[i].name@
                && s@.known[i].kind == s.known_devices@[i].kind@,
{
}

/// So does a row of the device list.
pub proof fn law_rows_tell_all(r: DeviceRow)
    ensures
        r@.address == r.address@ && r@.name == r.name@ && r@.kind == r.kind@,
        r@.connected == r.connected && r@.battery == r.battery && r@.shown == r.shown,
{
}

} // verus!
