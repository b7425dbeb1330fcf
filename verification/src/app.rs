//! The state of the program, and how it changes with what the scans find, what the
//! user chooses and what the windows are told. What is then to be done on screen
//! comes back as effects, in the order in which they are to be carried out.

use vstd::prelude::*;

use crate::draw;
use crate::draw::StripLayout;
use crate::grouping;
use crate::layout;
use crate::layout::{Metrics, StripPlace, StripVisibility, strip_visibility};
use crate::links;
use crate::links::{HidState, SECOND, note_x87_key_activity, time_since};
use crate::model;
use crate::model::{Device, Snapshot, clone_devices, dedup_by_name, has_connected, sort_devices};
use crate::order;
use crate::receiver;
use crate::receiver::hid_path_is_x87_24g;
use crate::settings;
use crate::settings::{Settings, SettingsView};
use crate::text;
use crate::text::{owned, push_decimal, push_text, same};
use crate::textmap::TextMap;

verus! {

/// Something to be done outside.
#[derive(Clone, Copy, Debug, PartialEq, Eq, Structural)]
pub enum Effect {
    /// Write the settings file.
    SaveSettings,
    SetAutostart { on: bool },
    OpenBluetoothSettings,
    OpenConnectedDevices,
    /// Wake the Bluetooth poll and the HID watcher.
    RequestRefresh,
    /// Wake the HID watcher.
    KickWatcher,
    /// Start the Bluetooth poll and the HID watcher.
    StartScans,
    /// Stop the Bluetooth poll and the HID watcher.
    StopScans,
    /// Tell the strip that new data is there.
    PostDataReady,
    /// Make the fonts anew.
    RecreateFonts,
    /// Lay the strip out, then place it and show or hide it.
    Relayout,
    /// Take in new data, or check that the strip stands where it should.
    ProcessDirty,
    /// Check that the strip stands where it should.
    Reanchor,
    /// Look whether a full-screen window is in the foreground.
    CheckFullscreen,
    ShowStrip,
    HideStrip,
    /// Take the strip out of the topmost windows.
    ClearTopmost,
    Repaint,
    Paint,
    /// Save a picture of the strip.
    CaptureStrip,
    ShowMenu,
    /// Show the alerts that are waiting.
    DrainAlerts,
    UpdateTray,
    AddTrayIcon,
    RemoveTrayIcon,
    /// Take the tray icon off a window that died, and free it.
    DropTrayIcon { hwnd: i64 },
    FreeIconAndFonts,
    HidePanel,
    /// Make the panel if there is none, and show it.
    ShowPanel,
    TogglePanel,
    /// Resize and repaint the panel.
    SizePanel,
    PaintPanel,
    DestroyWindow { hwnd: i64 },
    /// Check that the strip is in the taskbar.
    Heal,
    /// Make the strip a child of the taskbar.
    Embed,
    /// Take the strip out of its parent.
    Unparent,
    /// Give the strip the styles of a window that floats.
    MakeFloating,
    CreateHelper,
    RegisterRawKeyboard,
    UnregisterRawKeyboard,
    /// Set a new strip window up: its timer, its colour key.
    WireStrip,
    /// Ask the helper window to rebuild the strip.
    PostRecreate,
    /// Try to rebuild the strip.
    TryRecreate,
    CreateStrip,
    ArmRecreateTimer,
    KillRecreateTimer,
    ArmDeviceTimer,
    KillDeviceTimer,
    KillStripTimers,
    PostQuit,
}

/// The state of the program. Windows are numbers; 0 is none.
#[derive(Debug)]
pub struct App {
    pub hwnd: i64,
    /// The hidden helper window.
    pub raw_hwnd: i64,
    pub panel_hwnd: i64,
    /// The taskbar.
    pub taskbar_hwnd: i64,
    pub settings: Settings,
    pub snapshot: Snapshot,
    pub bt_devs: Vec<Device>,
    pub hid_devs: Vec<Device>,
    /// New data waits to be shown.
    pub dirty: bool,
    /// When each device was last reported as low.
    pub last_low: TextMap<u64>,
    pub pending_alerts: Vec<String>,
    /// The user wants the strip.
    pub strip_visible: bool,
    /// A full-screen window suppresses the strip.
    pub fs_hidden: bool,
    pub demo_mode: bool,
    /// The addresses of the devices that the menu lists.
    pub settings_addrs: Vec<String>,
    /// The edges of the "+n" pill.
    pub overflow_x: (i32, i32),
    pub layout: StripLayout,
    /// The strip is a child of the taskbar.
    pub embedded: bool,
    /// The message with which the taskbar announces itself; 0 until registered.
    pub wm_taskbar_created: u32,
    /// The strip went down with the taskbar and waits to be rebuilt.
    pub pending_recreate: bool,
    pub shutting_down: bool,
    /// The strip is just being rebuilt.
    pub recreating: bool,
    /// How many attempts to rebuild the strip failed in a row.
    pub recreate_attempts: u32,
    pub last_place: StripPlace,
    pub dpi: i32,
    /// The error of the last attempt to embed the strip; 0 for none.
    pub embed_fail_logged: u32,
    pub text_pct: i32,
    /// How many key presses were logged.
    pub raw_input_logs: u32,
}

// ------------------------------------------------------------------- devices

/// The devices to show: those of both scans, one row per peripheral, in listing
/// order.
pub open spec fn joined_devices(bt: Seq<Device>, hid: Seq<Device>) -> Seq<Device> {
    let all = bt + hid;
    model::sorted_devices(
        grouping::rows(model::deduped(grouping::with_keys(all, model::group_keys(all)))),
    )
}

/// An alert for a device.
pub open spec fn alert_line(d: Device, pct: u8) -> Seq<char> {
    d.name@ + "："@ + text::decimal(pct as nat) + "%"@
}

/// The seconds between two alerts for a device.
pub open spec fn alert_gap(resend_minutes: u64) -> int {
    if resend_minutes * 60 > u64::MAX {
        u64::MAX as int
    } else {
        resend_minutes * 60
    }
}

/// A device is to be reported as low: it is shown, its battery is at the alert
/// level or below, and the last report lies far enough back.
pub open spec fn alerts(s: SettingsView, low: Map<Seq<char>, u64>, d: Device, now: u64) -> bool {
    &&& settings::shown(s.hidden, d.address@)
    &&& d.battery matches Some(b) && b <= s.low_battery_alert
    &&& low.contains_key(d.address@) ==> links::elapsed(low[d.address@], now) / (SECOND as int)
        >= alert_gap(s.resend_minutes)
}

/// When devices were last reported, and the alerts, after looking at some devices.
pub open spec fn alerted(
    s: SettingsView,
    low: Map<Seq<char>, u64>,
    devs: Seq<Device>,
    now: u64,
) -> (Map<Seq<char>, u64>, Seq<Seq<char>>)
    decreases devs.len(),
{
    if devs.len() == 0 {
        (low, Seq::empty())
    } else {
        let (m, lines) = alerted(s, low, devs.drop_last(), now);
        let d = devs.last();
        if alerts(s, m, d, now) {
            (m.insert(d.address@, now), lines.push(alert_line(d, d.battery->0)))
        } else {
            (m, lines)
        }
    }
}

/// Bluetooth rows after a device pushed its battery.
pub open spec fn patched(devs: Seq<Device>, addr: Seq<char>, pct: u8) -> Seq<model::DeviceView> {
    devs.map_values(
        |d: Device|
            if d.address@ == addr && d.connected {
                model::DeviceView { battery: Some(pct), status: "ok"@, ..d@ }
            } else {
                d@
            },
    )
}

/// A connected device has an address.
pub open spec fn is_hit(devs: Seq<Device>, addr: Seq<char>) -> bool {
    exists|i: int|
        0 <= i < devs.len() && (#[trigger] devs[i]).address@ == addr && devs[i].connected
}

/// What a rebuilt snapshot asks for.
pub open spec fn rebuild_effects(save: bool, hwnd: i64) -> Seq<Effect> {
    (if save {
        seq![Effect::SaveSettings]
    } else {
        Seq::empty()
    }) + (if hwnd != 0 {
        seq![Effect::PostDataReady]
    } else {
        Seq::empty()
    })
}

/// A snapshot was rebuilt from the devices of both scans.
pub open spec fn is_rebuilt(before: App, after: App, effects: Seq<Effect>, now: u64) -> bool {
    let devs = joined_devices(after.bt_devs@, after.hid_devs@);
    let known = settings::remembered(before.settings.known(), devs);
    let report = alerted(before.settings@, before.last_low@, devs, now);
    &&& after.snapshot.devices@ == devs
    &&& after.snapshot.has_connected == model::some_connected(devs)
    &&& after.snapshot.scanned_at_ms == before.snapshot.scanned_at_ms
    &&& after.settings@ == (SettingsView { known, ..before.settings@ })
    &&& if before.settings.notify_low {
        &&& after.last_low@ == report.0
        &&& model::texts(after.pending_alerts@) == model::texts(before.pending_alerts@) + report.1
    } else {
        &&& after.last_low@ == before.last_low@
        &&& model::texts(after.pending_alerts@) == model::texts(before.pending_alerts@)
    }
    &&& after.dirty
    &&& effects == rebuild_effects(
        settings::must_save(before.settings.known(), devs),
        before.hwnd,
    )
    &&& after == (App {
        bt_devs: after.bt_devs,
        hid_devs: after.hid_devs,
        snapshot: after.snapshot,
        settings: after.settings,
        last_low: after.last_low,
        pending_alerts: after.pending_alerts,
        dirty: true,
        ..before
    })
}

/// Joins the devices of both scans.
fn join_devices(bt: &Vec<Device>, hid: &Vec<Device>) -> (r: Vec<Device>)
    ensures
        r@ == joined_devices(bt@, hid@),
{
    let mut all = clone_devices(bt);
    let mut rest = clone_devices(hid);
    all.append(&mut rest);
    assert(all@ =~= bt@ + hid@);
    let one = dedup_by_name(all);
    sort_devices(one)
}

impl App {
    /// The state at start.
    pub fn new(cfg: Settings) -> (r: Self)
        ensures
            r.settings == cfg,
            r.hwnd == 0 && r.raw_hwnd == 0 && r.panel_hwnd == 0 && r.taskbar_hwnd == 0,
            r.snapshot.devices@.len() == 0 && r.snapshot.scanned_at_ms == 0
                && !r.snapshot.has_connected,
            r.bt_devs@.len() == 0 && r.hid_devs@.len() == 0,
            r.dirty,
            r.last_low@ == Map::<Seq<char>, u64>::empty(),
            r.pending_alerts@.len() == 0 && r.settings_addrs@.len() == 0,
            r.strip_visible && !r.fs_hidden && !r.demo_mode && !r.embedded,
            r.overflow_x == (0i32, 0i32),
            r.layout.devices@.len() == 0 && r.layout.overflow == 0 && r.layout.width == 0,
            r.wm_taskbar_created == 0,
            !r.pending_recreate && !r.shutting_down && !r.recreating && r.recreate_attempts == 0,
            r.last_place == (StripPlace { x: 0, y: 0, w: 0, h: 0 }),
            r.dpi == 96,
            r.embed_fail_logged == 0 && r.raw_input_logs == 0,
            r.text_pct == if cfg.text_pct < settings::MIN_TEXT_PCT {
                settings::MIN_TEXT_PCT
            } else if cfg.text_pct > settings::MAX_TEXT_PCT {
                settings::MAX_TEXT_PCT
            } else {
                cfg.text_pct
            },
    {
        let pct: u32 = cfg.text_pct();
        App {
            hwnd: 0,
            raw_hwnd: 0,
            panel_hwnd: 0,
            taskbar_hwnd: 0,
            settings: cfg,
            snapshot: Snapshot::default(),
            bt_devs: Vec::new(),
            hid_devs: Vec::new(),
            dirty: true,
            last_low: TextMap::new(),
            pending_alerts: Vec::new(),
            strip_visible: true,
            fs_hidden: false,
            demo_mode: false,
            settings_addrs: Vec::new(),
            overflow_x: (0, 0),
            layout: StripLayout::default(),
            embedded: false,
            wm_taskbar_created: 0,
            pending_recreate: false,
            shutting_down: false,
            recreating: false,
            recreate_attempts: 0,
            last_place: StripPlace::default(),
            dpi: 96,
            embed_fail_logged: 0,
            text_pct: pct as i32,
            raw_input_logs: 0,
        }
    }

    /// The devices of the last scans.
    pub fn live_devices(&self) -> (r: Vec<Device>)
        ensures
            r@ == self.snapshot.devices@,
    {
        clone_devices(&self.snapshot.devices)
    }

    /// The devices that the strip shows.
    pub fn visible_devices(&self) -> (r: Vec<Device>)
        ensures
            r@ == self.snapshot.devices@.filter(|d: Device| self.settings.on_strip(d)),
    {
        self.settings.filter_for_strip(&self.snapshot.devices)
    }

    pub fn mark_dirty(&mut self)
        ensures
            *final(self) == (App { dirty: true, ..*old(self) }),
    {
        self.dirty = true;
    }

    /// Reports devices that are low.
    fn queue_low_alerts(&mut self, devs: &Vec<Device>, now: u64)
        ensures
            ({
                let report = alerted(old(self).settings@, old(self).last_low@, devs@, now);
                if old(self).settings.notify_low {
                    &&& final(self).last_low@ == report.0
                    &&& model::texts(final(self).pending_alerts@) == model::texts(
                        old(self).pending_alerts@,
                    ) + report.1
                } else {
                    &&& final(self).last_low@ == old(self).last_low@
                    &&& model::texts(final(self).pending_alerts@) == model::texts(
                        old(self).pending_alerts@,
                    )
                }
            }),
            *final(self) == (App {
                last_low: final(self).last_low,
                pending_alerts: final(self).pending_alerts,
                ..*old(self)
            }),
    {
        if !self.settings.notify_low {
            return;
        }
        let ghost start = *self;
        let ghost s = self.settings@;
        let gap: u64 = if self.settings.resend_minutes > u64::MAX / 60 {
            u64::MAX
        } else {
            self.settings.resend_minutes * 60
        };
        assert(gap == alert_gap(s.resend_minutes));
        let ghost none = Seq::<Seq<char>>::empty();
        assert(model::texts(start.pending_alerts@) + none =~= model::texts(start.pending_alerts@));
        for i in 0..devs.len()
            invariant
                s == start.settings@,
                gap == alert_gap(s.resend_minutes),
                *self == (App {
                    last_low: self.last_low,
                    pending_alerts: self.pending_alerts,
                    ..start
                }),
                self.last_low@ == alerted(s, start.last_low@, devs@.take(i as int), now).0,
                model::texts(self.pending_alerts@) == model::texts(start.pending_alerts@)
                    + alerted(s, start.last_low@, devs@.take(i as int), now).1,
        {
            assert(devs@.take(i + 1).drop_last() =~= devs@.take(i as int));
            let d = &devs[i];
            if self.settings.is_shown(d.address.as_str()) {
                match d.battery {
                    Some(b) => {
                        if b <= self.settings.low_battery_alert {
                            let allow = match self.last_low.get(d.address.as_str()) {
                                Some(at) => time_since(at, now) / SECOND >= gap,
                                None => true,
                            };
                            if allow {
                                let mut line = String::new();
                                push_text(&mut line, d.name.as_str());
                                push_text(&mut line, "：");
                                push_decimal(&mut line, b as u64);
                                push_text(&mut line, "%");
                                assert(line@ =~= alert_line(*d, b));
                                let ghost before = self.pending_alerts@;
                                self.pending_alerts.push(line);
                                self.last_low.insert(d.address.as_str(), now);
                                assert(model::texts(self.pending_alerts@) =~= model::texts(
                                    before,
                                ).push(line@));
                                assert(model::texts(self.pending_alerts@) =~= model::texts(
                                    start.pending_alerts@,
                                ) + alerted(s, start.last_low@, devs@.take(i + 1), now).1);
                            }
                        }
                    },
                    None => {},
                }
            }
        }
        assert(devs@.take(devs@.len() as int) =~= devs@);
    }

    /// Rebuilds the snapshot from the devices of both scans.
    fn rebuild_snapshot(&mut self, now: u64) -> (r: Vec<Effect>)
        ensures
            is_rebuilt(*old(self), *final(self), r@, now),
            final(self).bt_devs == old(self).bt_devs,
            final(self).hid_devs == old(self).hid_devs,
    {
        let ghost start = *self;
        let devs = join_devices(&self.bt_devs, &self.hid_devs);
        let any = has_connected(&devs);
        let mut out: Vec<Effect> = Vec::new();
        let save = self.settings.remember(&devs);
        assert(self.settings@ =~= SettingsView {
            known: settings::remembered(start.settings.known(), devs@),
            ..start.settings@
        });
        proof {
            lemma_alerts_ignore_known(
                start.settings@,
                self.settings@,
                start.last_low@,
                devs@,
                now,
            );
        }
        if save {
            out.push(Effect::SaveSettings);
        }
        self.queue_low_alerts(&devs, now);
        self.snapshot.devices = devs;
        self.snapshot.has_connected = any;
        self.dirty = true;
        if self.hwnd != 0 {
            out.push(Effect::PostDataReady);
        }
        assert(out@ =~= rebuild_effects(save, start.hwnd));
        out
    }

    /// Takes in what the Bluetooth scan found.
    pub fn publish_bt(&mut self, devs: Vec<Device>, now: u64) -> (r: Vec<Effect>)
        ensures
            is_rebuilt(*old(self), *final(self), r@, now),
            final(self).bt_devs == devs,
            final(self).hid_devs == old(self).hid_devs,
    {
        self.bt_devs = devs;
        self.rebuild_snapshot(now)
    }

    /// Takes in what the HID scan found.
    pub fn publish_hid(&mut self, devs: Vec<Device>, now: u64) -> (r: Vec<Effect>)
        ensures
            is_rebuilt(*old(self), *final(self), r@, now),
            final(self).hid_devs == devs,
            final(self).bt_devs == old(self).bt_devs,
    {
        self.hid_devs = devs;
        self.rebuild_snapshot(now)
    }

    /// Takes in a battery that a Bluetooth device pushed: its row shows it at
    /// once, without a scan.
    pub fn apply_notify_battery(&mut self, addr: &str, pct: u8, now: u64) -> (r: Vec<Effect>)
        ensures
            is_hit(old(self).bt_devs@, addr@) ==> is_rebuilt(*old(self), *final(self), r@, now)
                && model::views(final(self).bt_devs@) == patched(old(self).bt_devs@, addr@, pct)
                && final(self).hid_devs == old(self).hid_devs,
            !is_hit(old(self).bt_devs@, addr@) ==> *final(self) == *old(self) && r@.len() == 0,
    {
        let ghost start = *self;
        let mut hit = false;
        let mut rows: Vec<Device> = Vec::new();
        let ghost want = patched(self.bt_devs@, addr@, pct);
        for i in 0..self.bt_devs.len()
            invariant
                *self == start,
                want == patched(start.bt_devs@, addr@, pct),
                model::views(rows@) == want.take(i as int),
                hit == exists|j: int|
                    0 <= j < i && (#[trigger] start.bt_devs@[j]).address@ == addr@
                        && start.bt_devs@[j].connected,
        {
            let mut d = self.bt_devs[i].clone();
            if same(d.address.as_str(), addr) && d.connected {
                d.battery = Some(pct);
                d.status = "ok";
                hit = true;
                assert(start.bt_devs@[i as int].address@ == addr@);
            }
            assert(d@ =~= want[i as int]);
            let ghost before = rows@;
            rows.push(d);
            assert(model::views(rows@) =~= model::views(before).push(d@));
            assert(want.take(i + 1) =~= want.take(i as int).push(want[i as int]));
        }
        if hit {
            assert(want.take(want.len() as int) =~= want);
            self.bt_devs = rows;
            self.rebuild_snapshot(now)
        } else {
            Vec::new()
        }
    }
}

/// The devices of the preview.
pub open spec fn demo_rows() -> Seq<model::DeviceView> {
    seq![
        demo_row("Keychron K3 Pro"@, "AA:BB:CC:00:00:01"@, Some(44u8), "Keyboard"@),
        demo_row("Logitech MX Master 3S"@, "AA:BB:CC:00:00:02"@, Some(16u8), "Mouse"@),
        demo_row("EDIFIER W820NB"@, "AA:BB:CC:00:00:03"@, Some(5u8), "Headset"@),
        demo_row("Xbox 手柄"@, "AA:BB:CC:00:00:04"@, None, "Gamepad"@),
    ]
}

/// A device of the preview: without a battery it is not connected.
pub open spec fn demo_row(
    name: Seq<char>,
    address: Seq<char>,
    battery: Option<u8>,
    kind: Seq<char>,
) -> model::DeviceView {
    model::DeviceView {
        name,
        address,
        is_le: true,
        connected: battery is Some,
        battery,
        status: if battery is Some {
            "ok"@
        } else {
            "offline"@
        },
        kind,
    }
}

fn demo_device(
    name: &str,
    address: &str,
    battery: Option<u8>,
    kind: &'static str,
) -> (r: Device)
    ensures
        r@ == demo_row(name@, address@, battery, kind@),
{
    let on = battery.is_some();
    Device {
        name: owned(name),
        address: owned(address),
        is_le: true,
        connected: on,
        battery,
        status: if on {
            "ok"
        } else {
            "offline"
        },
        kind,
    }
}

/// What hiding the panel asks for.
pub open spec fn hide_panel_effects(panel: i64) -> Seq<Effect> {
    if panel != 0 {
        seq![Effect::HidePanel]
    } else {
        Seq::empty()
    }
}

/// The state after a look at the foreground.
pub open spec fn autohidden(app: App, fs: bool) -> App {
    App {
        fs_hidden: if !app.embedded && app.strip_visible {
            fs
        } else {
            app.fs_hidden
        },
        ..app
    }
}

/// The program after the user showed or hid the strip.
pub open spec fn preferred(app: App, show: bool) -> App {
    App { strip_visible: show, fs_hidden: show && app.fs_hidden, ..app }
}

/// What a look at the foreground asks for.
pub open spec fn autohide_effects(app: App, fs: bool) -> Seq<Effect> {
    if app.embedded || !app.strip_visible || fs == app.fs_hidden {
        Seq::empty()
    } else if fs {
        seq![Effect::HideStrip] + hide_panel_effects(app.panel_hwnd)
    } else {
        seq![Effect::ShowStrip]
    }
}

impl App {
    /// The scale of the strip.
    pub fn metrics(&self) -> (r: Metrics)
        ensures
            r.dpi == if self.dpi <= 0 {
                96
            } else {
                self.dpi
            },
            r.text_pct == if self.text_pct < settings::MIN_TEXT_PCT {
                settings::MIN_TEXT_PCT
            } else if self.text_pct > settings::MAX_TEXT_PCT {
                settings::MAX_TEXT_PCT
            } else {
                self.text_pct as u32
            },
    {
        let pct: u32 = if self.text_pct < 0 {
            0
        } else {
            self.text_pct as u32
        };
        Metrics::with_text_pct(self.dpi, pct)
    }

    /// Takes in the DPI of the strip window, where 0 is unknown. Returns whether
    /// it changed.
    pub fn refresh_dpi(&mut self, dpi: i32) -> (r: bool)
        ensures
            ({
                let new = if dpi <= 0 {
                    layout::BASE_DPI
                } else {
                    dpi
                };
                &&& *final(self) == (App { dpi: new, ..*old(self) })
                &&& r == (new != old(self).dpi)
            }),
    {
        let new: i32 = if dpi <= 0 {
            layout::BASE_DPI
        } else {
            dpi
        };
        let old_dpi: i32 = self.dpi;
        self.dpi = new;
        old_dpi != new
    }

    /// Fills the snapshot with the devices of the preview.
    pub fn enable_demo_data(&mut self)
        ensures
            model::views(final(self).snapshot.devices@) == demo_rows(),
            final(self).snapshot.has_connected,
            final(self).snapshot.scanned_at_ms == old(self).snapshot.scanned_at_ms,
            *final(self) == (App {
                snapshot: final(self).snapshot,
                demo_mode: true,
                dirty: true,
                ..*old(self)
            }),
    {
        self.demo_mode = true;
        let mut fake: Vec<Device> = Vec::new();
        fake.push(demo_device("Keychron K3 Pro", "AA:BB:CC:00:00:01", Some(44), "Keyboard"));
        fake.push(demo_device("Logitech MX Master 3S", "AA:BB:CC:00:00:02", Some(16), "Mouse"));
        fake.push(demo_device("EDIFIER W820NB", "AA:BB:CC:00:00:03", Some(5), "Headset"));
        fake.push(demo_device("Xbox 手柄", "AA:BB:CC:00:00:04", None, "Gamepad"));
        assert(model::views(fake@) =~= demo_rows());
        self.snapshot.devices = fake;
        self.snapshot.has_connected = true;
        self.dirty = true;
    }

    /// What the tray shows: the lowest battery of the devices on the strip, and
    /// its tooltip.
    pub fn update_tray(&self) -> (r: (Option<u8>, String))
        ensures
            ({
                let devs = self.snapshot.devices@.filter(|d: Device| self.settings.on_strip(d));
                r.0 == draw::lowest(devs) && r.1@ == model::summary(devs)
            }),
    {
        let devices = self.visible_devices();
        let any = has_connected(&devices);
        let snap = Snapshot { devices, scanned_at_ms: 0, has_connected: any };
        (draw::worst_battery(&snap), snap.status_summary())
    }

    /// Takes the alerts that are waiting.
    pub fn drain_alerts(&mut self) -> (r: Vec<String>)
        ensures
            r == old(self).pending_alerts,
            final(self).pending_alerts@.len() == 0,
            *final(self) == (App {
                pending_alerts: final(self).pending_alerts,
                ..*old(self)
            }),
    {
        let mut list: Vec<String> = Vec::new();
        std::mem::swap(&mut list, &mut self.pending_alerts);
        list
    }

    /// The seconds to the next Bluetooth scan.
    pub fn poll_delay(&self) -> (r: u64)
        ensures
            r == if !self.snapshot.has_connected {
                15
            } else if self.settings.poll_seconds < 10 {
                10
            } else if self.settings.poll_seconds > 3600 {
                3600
            } else {
                self.settings.poll_seconds
            },
    {
        if self.snapshot.has_connected {
            self.settings.poll_interval()
        } else {
            15
        }
    }

    /// Takes in a key press on the device at a HID path; an empty path is an
    /// unknown device. The first result says whether to log it.
    pub fn on_raw_input(&mut self, hid: &mut HidState, path: &str, now: u64) -> (r: (
        bool,
        Vec<Effect>,
    ))
        ensures
            path@.len() == 0 ==> *final(self) == *old(self) && final(hid)@ == old(hid)@ && !r.0
                && r.1@ == Seq::<Effect>::empty(),
            path@.len() > 0 ==> {
                let link = links::link_at(old(hid).links@, links::x87_dongle());
                let pressed = receiver::path_ids(path@) == Some((0x0C45u16, 0xFEFEu16));
                &&& *final(self) == (App {
                    raw_input_logs: ((old(self).raw_input_logs + 1) % 0x1_0000_0000) as u32,
                    ..*old(self)
                })
                &&& r.0 == (old(self).raw_input_logs < 24)
                &&& if pressed {
                    &&& final(hid).links@ == old(hid).links@.insert(
                        links::x87_dongle(),
                        links::heard(old(hid).links@, links::x87_dongle(), true, now),
                    )
                    &&& final(hid).cache@ == old(hid).cache@
                    &&& final(hid).had_x87_wired == old(hid).had_x87_wired
                    &&& r.1@ == if links::is_up(link, now, links::SONIX_LINK_TTL) {
                        Seq::<Effect>::empty()
                    } else {
                        seq![Effect::KickWatcher]
                    }
                } else {
                    final(hid)@ == old(hid)@ && r.1@ == Seq::<Effect>::empty()
                }
            },
    {
        let mut out: Vec<Effect> = Vec::new();
        if path.unicode_len() == 0 {
            return (false, out);
        }
        let n: u32 = self.raw_input_logs;
        self.raw_input_logs = n.wrapping_add(1);
        if hid_path_is_x87_24g(path) {
            if note_x87_key_activity(hid, now) {
                out.push(Effect::KickWatcher);
            }
        }
        (n < 24, out)
    }

    /// Whether the strip is to be seen.
    pub open spec fn is_shown(self) -> bool {
        self.strip_visible && !self.fs_hidden
    }

    pub fn strip_should_show(&self) -> (r: bool)
        ensures
            r == self.is_shown(),
    {
        strip_visibility(self.strip_visible, self.fs_hidden) == StripVisibility::Shown
    }

    /// The user shows or hides the strip. Hiding it forgets that a full-screen
    /// window suppressed it, so that showing it always brings it back.
    pub fn apply_strip_visible(&mut self, show: bool) -> (r: Vec<Effect>)
        ensures
            *final(self) == preferred(*old(self), show),
            r@ == seq![Effect::Heal, Effect::Relayout],
    {
        self.strip_visible = show;
        if !show {
            self.fs_hidden = false;
        }
        let mut out: Vec<Effect> = Vec::new();
        out.push(Effect::Heal);
        out.push(Effect::Relayout);
        out
    }

    /// Takes in whether a full-screen window is in the foreground. Only a floating
    /// strip that the user wants steps aside for it.
    pub fn update_fullscreen_autohide(&mut self, fs: bool) -> (r: Vec<Effect>)
        ensures
            *final(self) == autohidden(*old(self), fs),
            r@ == autohide_effects(*old(self), fs),
    {
        let mut out: Vec<Effect> = Vec::new();
        if self.embedded || !self.strip_visible {
            return out;
        }
        let prev = self.fs_hidden;
        self.fs_hidden = fs;
        if fs == prev {
            return out;
        }
        if fs {
            out.push(Effect::HideStrip);
            if self.panel_hwnd != 0 {
                out.push(Effect::HidePanel);
            }
        } else {
            out.push(Effect::ShowStrip);
        }
        assert(out@ =~= autohide_effects(*old(self), fs));
        out
    }

    /// Asks for a scan now.
    pub fn request_refresh(&self) -> (r: Vec<Effect>)
        ensures
            r@ == seq![Effect::RequestRefresh],
    {
        let mut out: Vec<Effect> = Vec::new();
        out.push(Effect::RequestRefresh);
        out
    }
}

/// Which devices are known does not matter to alerts.
proof fn lemma_alerts_ignore_known(
    a: SettingsView,
    b: SettingsView,
    low: Map<Seq<char>, u64>,
    devs: Seq<Device>,
    now: u64,
)
    requires
        b == (SettingsView { known: b.known, ..a }),
    ensures
        alerted(a, low, devs, now) == alerted(b, low, devs, now),
    decreases devs.len(),
{
    if devs.len() > 0 {
        lemma_alerts_ignore_known(a, b, low, devs.drop_last(), now);
    }
}

/// A device that was reported is not reported again, by any later scan, until the
/// time between two alerts has passed.
pub proof fn law_alert_is_not_repeated(
    s: SettingsView,
    low: Map<Seq<char>, u64>,
    devs: Seq<Device>,
    now: u64,
    a: Seq<char>,
)
    requires
        low.contains_key(a),
        links::elapsed(low[a], now) / (SECOND as int) < alert_gap(s.resend_minutes),
    ensures
        alerted(s, low, devs, now).0.contains_key(a),
        alerted(s, low, devs, now).0[a] == low[a],
        forall|i: int|
            0 <= i < devs.len() && (#[trigger] devs[i]).address@ == a ==> alerted(
                s,
                low,
                devs.take(i + 1),
                now,
            ) == alerted(s, low, devs.take(i), now),
    decreases devs.len(),
{
    if devs.len() > 0 {
        let t = devs.drop_last();
        law_alert_is_not_repeated(s, low, t, now, a);
        assert forall|i: int| 0 <= i < devs.len() && (#[trigger] devs[i]).address@
            == a implies alerted(s, low, devs.take(i + 1), now) == alerted(
            s,
            low,
            devs.take(i),
            now,
        ) by {
            if i < t.len() {
                assert(t[i] == devs[i]);
                assert(devs.take(i + 1) =~= t.take(i + 1));
                assert(devs.take(i) =~= t.take(i));
            } else {
                assert(devs.take(i + 1) =~= devs);
                assert(devs.take(i) =~= t);
            }
        }
    }
}

/// What is known of an address does not change while no device with that address
/// is reported.
proof fn lemma_unreported(
    s: SettingsView,
    low: Map<Seq<char>, u64>,
    devs: Seq<Device>,
    now: u64,
    a: Seq<char>,
)
    requires
        forall|j: int|
            0 <= j < devs.len() && (#[trigger] devs[j]).address@ == a ==> !alerts(
                s,
                low,
                devs[j],
                now,
            ),
    ensures
        alerted(s, low, devs, now).0.contains_key(a) == low.contains_key(a),
        low.contains_key(a) ==> alerted(s, low, devs, now).0[a] == low[a],
    decreases devs.len(),
{
    if devs.len() > 0 {
        let t = devs.drop_last();
        assert forall|j: int| 0 <= j < t.len() && (#[trigger] t[j]).address@ == a implies !alerts(
            s,
            low,
            t[j],
            now,
        ) by {
            assert(t[j] == devs[j]);
        }
        lemma_unreported(s, low, t, now, a);
        assert(devs[devs.len() - 1] == devs.last());
    }
}

/// A shown device whose battery is low, and that was not reported for a while, is
/// reported: there is an alert for its address, and it counts from now on.
pub proof fn law_low_device_is_reported(
    s: SettingsView,
    low: Map<Seq<char>, u64>,
    devs: Seq<Device>,
    now: u64,
    i: int,
)
    requires
        0 <= i < devs.len(),
        alerts(s, low, devs[i], now),
    ensures
        ({
            let a = devs[i].address@;
            let r = alerted(s, low, devs, now);
            &&& r.0.contains_key(a) && r.0[a] == now
            &&& exists|j: int, k: int|
                #![trigger devs[j], r.1[k]]
                0 <= j < devs.len() && 0 <= k < r.1.len() && devs[j].address@ == a
                    && devs[j].battery is Some && r.1[k] == alert_line(
                    devs[j],
                    devs[j].battery->0,
                )
        }),
    decreases devs.len(),
{
    let a = devs[i].address@;
    let t = devs.drop_last();
    let old_r = alerted(s, low, t, now);
    let r = alerted(s, low, devs, now);
    if exists|j: int|
        0 <= j < t.len() && (#[trigger] t[j]).address@ == a && alerts(s, low, t[j], now) {
        let j0 = choose|j: int|
            0 <= j < t.len() && (#[trigger] t[j]).address@ == a && alerts(s, low, t[j], now);
        law_low_device_is_reported(s, low, t, now, j0);
        let (j, k) = choose|j: int, k: int|
            #![trigger t[j], old_r.1[k]]
            0 <= j < t.len() && 0 <= k < old_r.1.len() && t[j].address@ == a
                && t[j].battery is Some && old_r.1[k] == alert_line(t[j], t[j].battery->0);
        assert(devs[j] == t[j]);
        assert(r.1[k] == old_r.1[k]);
    } else {
        if i < t.len() {
            assert(t[i] == devs[i]);
        }
        assert(devs[i] == devs.last());
        lemma_unreported(s, low, t, now, a);
        assert(alerts(s, old_r.0, devs.last(), now));
        assert(r.1[old_r.1.len() as int] == alert_line(devs[i], devs[i].battery->0));
    }
}

/// Devices that the user hid are never reported as low, nor are devices above the
/// alert level or without a battery.
pub proof fn law_alerts_name_shown_low_devices(
    s: SettingsView,
    low: Map<Seq<char>, u64>,
    devs: Seq<Device>,
    now: u64,
    k: int,
)
    requires
        0 <= k < alerted(s, low, devs, now).1.len(),
    ensures
        exists|i: int|
            0 <= i < devs.len() && settings::shown(s.hidden, (#[trigger] devs[i]).address@)
                && devs[i].battery is Some && devs[i].battery->0 <= s.low_battery_alert
                && alerted(s, low, devs, now).1[k] == alert_line(devs[i], devs[i].battery->0),
    decreases devs.len(),
{
    if devs.len() > 0 {
        let t = devs.drop_last();
        let lines = alerted(s, low, t, now).1;
        if k < lines.len() {
            law_alerts_name_shown_low_devices(s, low, t, now, k);
            let i = choose|i: int|
                0 <= i < t.len() && settings::shown(s.hidden, (#[trigger] t[i]).address@)
                    && t[i].battery is Some && t[i].battery->0 <= s.low_battery_alert && lines[k]
                    == alert_line(t[i], t[i].battery->0);
            assert(devs[i] == t[i]);
        } else {
            assert(devs[devs.len() - 1] == devs.last());
        }
    }
}

/// A floating strip gives way to a full-screen window, and comes back when the window
/// goes.
pub proof fn law_floating_strip_gives_way(app: App)
    requires
        !app.embedded,
    ensures
        !autohidden(app, true).is_shown(),
        app.is_shown() ==> autohide_effects(app, true).contains(Effect::HideStrip),
        app.strip_visible ==> autohidden(autohidden(app, true), false).is_shown()
            && autohide_effects(autohidden(app, true), false) == seq![Effect::ShowStrip],
{
    if app.is_shown() {
        assert(autohide_effects(app, true)[0] == Effect::HideStrip);
    }
}

/// Whatever suppressed the strip, hiding it and showing it again brings it back.
pub proof fn law_showing_brings_strip_back(app: App)
    ensures
        !preferred(app, false).is_shown(),
        preferred(preferred(app, false), true).is_shown(),
{
}

/// A new alert is about a device that was not reported lately.
proof fn lemma_alert_is_due(
    s: SettingsView,
    low: Map<Seq<char>, u64>,
    devs: Seq<Device>,
    now: u64,
    k: int,
) -> (i: int)
    requires
        0 <= k < alerted(s, low, devs, now).1.len(),
    ensures
        0 <= i < devs.len(),
        alerted(s, low, devs, now).1[k] == alert_line(devs[i], devs[i].battery->0),
        devs[i].battery is Some,
        devs[i].battery->0 <= s.low_battery_alert,
        settings::shown(s.hidden, devs[i].address@),
        low.contains_key(devs[i].address@) ==> links::elapsed(low[devs[i].address@], now) / (
        SECOND as int) >= alert_gap(s.resend_minutes),
    decreases devs.len(),
{
    let t = devs.drop_last();
    let (m, lines) = alerted(s, low, t, now);
    if k < lines.len() {
        let i = lemma_alert_is_due(s, low, t, now, k);
        assert(t[i] == devs[i]);
        i
    } else {
        let d = devs[devs.len() - 1];
        let a = d.address@;
        assert(d == devs.last());
        if low.contains_key(a) && links::elapsed(low[a], now) / (SECOND as int) < alert_gap(
            s.resend_minutes,
        ) {
            law_alert_is_not_repeated(s, low, t, now, a);
        }
        devs.len() - 1
    }
}

/// With alerts on, every device of the joined list that the user did not hide, whose
/// battery is at the alert level or below, and of which no report is known or the last one
/// lies at least the chosen minutes back, is reported: among the alerts that came is one
/// for a device with its address, which says its name and its battery; and the report is
/// known from then on.
pub proof fn law_low_devices_are_reported(
    before: App,
    after: App,
    effects: Seq<Effect>,
    now: u64,
    i: int,
)
    requires
        is_rebuilt(before, after, effects, now),
        before.settings.notify_low,
        0 <= i < after.snapshot.devices@.len(),
        forall|h: int|
            0 <= h < before.settings.hidden_addresses@.len() ==> !text::same_ignoring_case(
                (#[trigger] before.settings.hidden_addresses@[h])@,
                after.snapshot.devices@[i].address@,
            ),
        after.snapshot.devices@[i].battery is Some,
        after.snapshot.devices@[i].battery->0 <= before.settings.low_battery_alert,
        before.last_low@.contains_key(after.snapshot.devices@[i].address@) ==> now
            >= before.last_low@[after.snapshot.devices@[i].address@]
            + before.settings.resend_minutes * 60 * 1_000_000_000,
    ensures
        ({
            let devs = after.snapshot.devices@;
            let a = devs[i].address@;
            &&& after.last_low@.contains_key(a) && after.last_low@[a] == now
            &&& exists|j: int, k: int|
                #![trigger devs[j], after.pending_alerts@[k]]
                0 <= j < devs.len() && before.pending_alerts@.len() <= k
                    < after.pending_alerts@.len() && devs[j].address@ == a
                    && devs[j].battery is Some && after.pending_alerts@[k]@ == devs[j].name@
                    + "："@ + text::decimal(devs[j].battery->0 as nat) + "%"@
        }),
{
    let devs = after.snapshot.devices@;
    let s = before.settings@;
    let low = before.last_low@;
    let d = devs[i];
    let a = d.address@;
    let r = alerted(s, low, devs, now);
    assert forall|h: int| 0 <= h < s.hidden.len() implies !text::same_ignoring_case(
        #[trigger] s.hidden[h],
        a,
    ) by {
        assert(s.hidden[h] == before.settings.hidden_addresses@[h]@);
    }
    assert(settings::shown(s.hidden, a));
    if low.contains_key(a) {
        let gone = links::elapsed(low[a], now);
        let gap = before.settings.resend_minutes * 60;
        assert(gone / 1_000_000_000 >= gap) by (nonlinear_arith)
            requires
                gone >= gap * 1_000_000_000,
        ;
    }
    assert(alerts(s, low, d, now));
    law_low_device_is_reported(s, low, devs, now, i);
    let (j, k) = choose|j: int, k: int|
        #![trigger devs[j], r.1[k]]
        0 <= j < devs.len() && 0 <= k < r.1.len() && devs[j].address@ == a
            && devs[j].battery is Some && r.1[k] == alert_line(devs[j], devs[j].battery->0);
    let n = before.pending_alerts@.len();
    let lines = model::texts(after.pending_alerts@);
    assert(lines.len() == after.pending_alerts@.len());
    assert(model::texts(before.pending_alerts@).len() == n);
    assert(lines == model::texts(before.pending_alerts@) + r.1);
    assert(lines[n + k] == r.1[k]);
    assert(after.pending_alerts@[n + k]@ == lines[n + k]);
}

/// Alerts that are waiting stay, and each new one says the name and the battery of a
/// device of the joined list that the user did not hide, whose battery is at the alert
/// level or below, and that was not reported within the chosen minutes. With alerts off
/// there is no new one.
pub proof fn law_alerts_are_due(
    before: App,
    after: App,
    effects: Seq<Effect>,
    now: u64,
    k: int,
)
    requires
        is_rebuilt(before, after, effects, now),
        0 <= k < after.pending_alerts@.len(),
    ensures
        before.pending_alerts@.len() <= after.pending_alerts@.len(),
        k < before.pending_alerts@.len() ==> after.pending_alerts@[k]@
            == before.pending_alerts@[k]@,
        k >= before.pending_alerts@.len() ==> before.settings.notify_low && exists|i: int|
            ({
                let d = #[trigger] after.snapshot.devices@[i];
                let a = d.address@;
                &&& 0 <= i < after.snapshot.devices@.len()
                &&& d.battery is Some && d.battery->0 <= before.settings.low_battery_alert
                &&& after.pending_alerts@[k]@ == d.name@ + "："@ + text::decimal(
                    d.battery->0 as nat,
                ) + "%"@
                &&& forall|h: int|
                    0 <= h < before.settings.hidden_addresses@.len() ==> !text::same_ignoring_case(
                        (#[trigger] before.settings.hidden_addresses@[h])@,
                        a,
                    )
                &&& before.last_low@.contains_key(a) && before.last_low@[a] <= now
                    && before.settings.resend_minutes * 60 <= u64::MAX ==> now
                    >= before.last_low@[a] + before.settings.resend_minutes * 60 * 1_000_000_000
            }),
{
    let devs = after.snapshot.devices@;
    let s = before.settings@;
    let low = before.last_low@;
    let n = before.pending_alerts@.len();
    let lines = model::texts(after.pending_alerts@);
    let r = alerted(s, low, devs, now);
    let old_lines = model::texts(before.pending_alerts@);
    assert(lines.len() == after.pending_alerts@.len());
    assert(old_lines.len() == n);
    assert(lines == if before.settings.notify_low {
        old_lines + r.1
    } else {
        old_lines
    });
    assert(after.pending_alerts@[k]@ == lines[k]);
    if k < n {
        assert(model::texts(before.pending_alerts@)[k] == before.pending_alerts@[k]@);
    } else {
        assert(lines[k] == r.1[k - n]);
        let i = lemma_alert_is_due(s, low, devs, now, k - n);
        let d = devs[i];
        let a = d.address@;
        assert forall|h: int|
            0 <= h < before.settings.hidden_addresses@.len() implies !text::same_ignoring_case(
            (#[trigger] before.settings.hidden_addresses@[h])@,
            a,
        ) by {
            assert(s.hidden[h] == before.settings.hidden_addresses@[h]@);
        }
        if low.contains_key(a) && low[a] <= now && before.settings.resend_minutes * 60
            <= u64::MAX {
            let gone = now - low[a];
            let gap = before.settings.resend_minutes * 60;
            assert(gone >= gap * 1_000_000_000) by (nonlinear_arith)
                requires
                    gone / 1_000_000_000 >= gap,
                    gone >= 0,
            ;
        }
        assert(after.snapshot.devices@[i] == d);
    }
}

/// What scans found is joined: every row that either of them found stands in the joined
/// list, itself or as another copy of the same peripheral; and the list holds no row that
/// none of them found.
pub proof fn law_no_scanned_device_is_lost(bt: Seq<Device>, hid: Seq<Device>, i: int)
    ensures
        0 <= i < (bt + hid).len() ==> exists|j: int|
            0 <= j < joined_devices(bt, hid).len() && model::group_key(
                #[trigger] joined_devices(bt, hid)[j],
            ) == model::group_key((bt + hid)[i]),
        0 <= i < joined_devices(bt, hid).len() ==> bt.contains(joined_devices(bt, hid)[i])
            || hid.contains(joined_devices(bt, hid)[i]),
{
    let all = bt + hid;
    let s = grouping::with_keys(all, model::group_keys(all));
    let d = model::deduped(s);
    let rows = grouping::rows(d);
    let keys = model::device_keys(rows);
    let joined = joined_devices(bt, hid);
    if 0 <= i < all.len() {
        model::law_every_peripheral_keeps_a_row(s, i);
        let k = choose|k: int| 0 <= k < d.len() && (#[trigger] d[k]).0 == s[i].0;
        lemma_key_is_own(all, k);
        let j = order::lemma_in_order_has(rows, keys, k);
        assert(joined[j] == rows[k]);
        assert(rows[k] == d[k].1);
        assert(s[i].0 == model::group_keys(all)[i]);
    }
    if 0 <= i < joined.len() {
        let k = order::lemma_in_order_from(rows, keys, i);
        assert(rows[k] == d[k].1);
        model::law_dedup_invents_nothing(s, k);
        let q = choose|q: int| 0 <= q < s.len() && s[q] == d[k];
        assert(s[q].1 == all[q]);
        if q < bt.len() {
            assert(bt[q] == joined[i]);
        } else {
            assert(hid[q - bt.len()] == joined[i]);
        }
    }
}

/// A row that stays has the key that its name gives it.
proof fn lemma_key_is_own(all: Seq<Device>, k: int)
    requires
        0 <= k < model::deduped(grouping::with_keys(all, model::group_keys(all))).len(),
    ensures
        ({
            let d = model::deduped(grouping::with_keys(all, model::group_keys(all)))[k];
            d.0 == model::group_key(d.1)
        }),
{
    let s = grouping::with_keys(all, model::group_keys(all));
    model::law_dedup_invents_nothing(s, k);
    let d = model::deduped(s)[k];
    let q = choose|q: int| 0 <= q < s.len() && s[q] == d;
    assert(s[q].0 == model::group_keys(all)[q]);
}

/// Of the copies of a peripheral that both scans found, the one that tells most is in the
/// joined list: it is connected if any copy is; among those as connected as it is, it has a
/// battery if any has one; and among those alike in both, it is a HID row if any is.
pub proof fn law_joined_row_tells_most(bt: Seq<Device>, hid: Seq<Device>, i: int, j: int)
    requires
        0 <= i < (bt + hid).len(),
        0 <= j < joined_devices(bt, hid).len(),
        model::group_key(joined_devices(bt, hid)[j]) == model::group_key((bt + hid)[i]),
        forall|k: int|
            0 <= k < joined_devices(bt, hid).len() && model::group_key(
                #[trigger] joined_devices(bt, hid)[k],
            ) == model::group_key((bt + hid)[i]) ==> k == j,
    ensures
        ({
            let d = (bt + hid)[i];
            let r = joined_devices(bt, hid)[j];
            &&& d.connected ==> r.connected
            &&& d.connected == r.connected && d.battery is Some ==> r.battery is Some
            &&& d.connected == r.connected && d.battery is Some == r.battery is Some
                && text::starts_with(text::ascii_lower(d.address@), "hid:"@) ==> text::starts_with(
                text::ascii_lower(r.address@),
                "hid:"@,
            )
        }),
{
    let all = bt + hid;
    let s = grouping::with_keys(all, model::group_keys(all));
    let d = model::deduped(s);
    let rows = grouping::rows(d);
    let keys = model::device_keys(rows);
    let joined = joined_devices(bt, hid);
    let key = model::group_key(all[i]);
    let a = order::lemma_in_order_from(rows, keys, j);
    assert(rows[a] == d[a].1);
    lemma_key_is_own(all, a);
    assert(s[i].0 == model::group_keys(all)[i]);
    assert forall|k: int| 0 <= k < d.len() && (#[trigger] d[k]).0 == s[i].0 implies k == a by {
        lemma_key_is_own(all, k);
        if k != a {
            assert(rows[k] == d[k].1);
            lemma_two_rows(rows, keys, a, k, j, key);
        }
    }
    model::law_kept_row_tells_most(s, a, i);
}

/// Two rows with a key make two rows with it in the list.
proof fn lemma_two_rows(
    rows: Seq<Device>,
    keys: Seq<(bool, Seq<char>)>,
    a: int,
    b: int,
    j: int,
    key: Seq<char>,
)
    requires
        0 <= a < rows.len(),
        0 <= b < rows.len(),
        a != b,
        model::group_key(rows[a]) == key,
        model::group_key(rows[b]) == key,
        0 <= j < order::in_order(rows, keys).len(),
        order::in_order(rows, keys)[j] == rows[a],
    ensures
        exists|k: int|
            0 <= k < order::in_order(rows, keys).len() && k != j && model::group_key(
                #[trigger] order::in_order(rows, keys)[k],
            ) == key,
{
    broadcast use vstd::seq_lib::group_to_multiset_ensures;

    let l = order::in_order(rows, keys);
    order::law_listing_keeps_rows(rows, keys);
    let x = rows[a];
    if rows[b] != x {
        let q = order::lemma_in_order_has(rows, keys, b);
        assert(l[q] == rows[b]);
    } else {
        let rest = rows.remove(a);
        if b < a {
            assert(rest[b] == x);
        } else {
            assert(rest[b - 1] == x);
        }
        assert(rest.contains(x));
        assert(rest.to_multiset() =~= rows.to_multiset().remove(x));
        let short = l.remove(j);
        assert(short.to_multiset() =~= l.to_multiset().remove(x));
        assert(short.to_multiset().count(x) > 0);
        assert(short.contains(x));
        let q = choose|q: int| 0 <= q < short.len() && short[q] == x;
        if q < j {
            assert(l[q] == x);
        } else {
            assert(l[q + 1] == x);
        }
    }
}

/// A rebuilt snapshot lists connected devices first, says whether there is one, and asks
/// for the strip to be told, if there is a strip; the file is saved whenever what is
/// remembered changed. What the user chose stays.
pub proof fn law_snapshot_is_told(
    before: App,
    after: App,
    effects: Seq<Effect>,
    now: u64,
    i: int,
    j: int,
)
    requires
        is_rebuilt(before, after, effects, now),
    ensures
        ({
            let d = after.snapshot.devices@;
            &&& 0 <= i < j < d.len() && d[j].connected ==> d[i].connected
            &&& after.snapshot.has_connected <==> exists|k: int|
                0 <= k < d.len() && (#[trigger] d[k]).connected
            &&& after.dirty
            &&& effects.contains(Effect::PostDataReady) <==> before.hwnd != 0
            &&& after.settings.known() != before.settings.known() ==> effects.contains(
                Effect::SaveSettings,
            )
            &&& after.settings.hidden() == before.settings.hidden()
            &&& after.settings.show_offline == before.settings.show_offline
            &&& after.settings.notify_low == before.settings.notify_low
            &&& after.settings.low_battery_alert == before.settings.low_battery_alert
            &&& after.strip_visible == before.strip_visible
        }),
{
    let bt = after.bt_devs@;
    let hid = after.hid_devs@;
    let all = bt + hid;
    let rows = grouping::rows(model::deduped(grouping::with_keys(all, model::group_keys(all))));
    model::law_connected_devices_come_first(rows, i, j);
    let devs = joined_devices(bt, hid);
    settings::law_changes_are_saved(before.settings.known(), devs);
    let save = settings::must_save(before.settings.known(), devs);
    let e = rebuild_effects(save, before.hwnd);
    assert(after.settings@.known == after.settings.known());
    assert(after.settings@.hidden == after.settings.hidden());
    assert(before.settings@.hidden == before.settings.hidden());
    if save {
        assert(e[0] == Effect::SaveSettings);
    }
    if before.hwnd != 0 {
        assert(e[e.len() - 1] == Effect::PostDataReady);
    } else if e.contains(Effect::PostDataReady) {
        let k = choose|k: int| 0 <= k < e.len() && e[k] == Effect::PostDataReady;
        assert(k == 0);
    }
}

/// A battery that a device pushed shows on each connected row with its address, which
/// reads "ok"; any other row stays.
pub proof fn law_pushed_battery_shows(devs: Seq<Device>, addr: Seq<char>, pct: u8, i: int)
    requires
        0 <= i < devs.len(),
    ensures
        ({
            let r = patched(devs, addr, pct)[i];
            &&& patched(devs, addr, pct).len() == devs.len()
            &&& devs[i].address@ == addr && devs[i].connected ==> r.battery == Some(pct) && r.status
                == "ok"@ && r.connected && r.address == addr && r.name == devs[i].name@
            &&& devs[i].address@ != addr || !devs[i].connected ==> r == devs[i]@
        }),
{
}

/// An embedded strip, or one that the user hid, is left alone by full-screen windows, and
/// nothing is done where nothing changes.
pub proof fn law_fullscreen_leaves_others_alone(app: App, fs: bool)
    ensures
        app.embedded || !app.strip_visible ==> autohidden(app, fs) == app && autohide_effects(
            app,
            fs,
        ).len() == 0,
        app.fs_hidden == fs ==> autohide_effects(app, fs).len() == 0,
        autohide_effects(app, fs).contains(Effect::ShowStrip) ==> autohidden(app, fs).is_shown(),
        autohide_effects(app, fs).contains(Effect::HideStrip) ==> !autohidden(app, fs).is_shown(),
{
    let e = autohide_effects(app, fs);
    if e.contains(Effect::ShowStrip) {
        let k = choose|k: int| 0 <= k < e.len() && e[k] == Effect::ShowStrip;
        assert(e[k] == Effect::ShowStrip);
    }
    if e.contains(Effect::HideStrip) {
        let k = choose|k: int| 0 <= k < e.len() && e[k] == Effect::HideStrip;
        assert(e[k] == Effect::HideStrip);
    }
}

/// A pushed battery finds the device with its address only while that is connected.
pub proof fn law_push_finds_connected_device(devs: Seq<Device>, addr: Seq<char>, i: int)
    requires
        0 <= i < devs.len(),
    ensures
        devs[i].connected && devs[i].address@ == addr ==> is_hit(devs, addr),
        (forall|j: int|
            0 <= j < devs.len() ==> (#[trigger] devs[j]).address@ != addr || !devs[j].connected)
            ==> !is_hit(devs, addr),
{
}

/// The preview has devices of four kinds, of which one is not connected; one battery is
/// low at the usual level, and no two addresses are the same.
pub proof fn law_preview_shows_every_state(i: int, j: int)
    requires
        0 <= i < j < demo_rows().len(),
    ensures
        demo_rows().len() == 4,
        demo_rows()[i].address != demo_rows()[j].address,
        demo_rows()[i].kind != demo_rows()[j].kind,
        demo_rows()[i].connected,
        demo_rows()[j].connected <==> demo_rows()[j].battery is Some,
        demo_rows()[j].connected <==> j < 3,
        exists|k: int|
            0 <= k < 4 && (#[trigger] demo_rows()[k]).battery is Some && demo_rows()[k].battery->0
                < 20,
        demo_rows()[j].status == (if j < 3 {
            "ok"@
        } else {
            "offline"@
        }),
{
    reveal_strlit("AA:BB:CC:00:00:01");
    reveal_strlit("AA:BB:CC:00:00:02");
    reveal_strlit("AA:BB:CC:00:00:03");
    reveal_strlit("AA:BB:CC:00:00:04");
    reveal_strlit("Keyboard");
    reveal_strlit("Mouse");
    reveal_strlit("Headset");
    reveal_strlit("Gamepad");
    let d = demo_rows();
    assert(d[1].battery == Some(16u8));
    assert(d[i].address[16] != d[j].address[16]);
    assert(d[i].kind[0] != d[j].kind[0]);
}

} // verus!
