//! What the entries of the menu do.

use vstd::prelude::*;

use crate::app::{App, Effect};
use crate::menu;
use crate::menu::{
    MAX_MENU_DEVICES, MID_AUTOSTART, MID_BT_ADD, MID_BT_DEVICES, MID_DEV_BASE, MID_EXIT, MID_INT10,
    MID_INT30, MID_INT300, MID_INT60, MID_LOW10, MID_LOW20, MID_LOW30, MID_NOTIFY, MID_POS_LEFT,
    MID_POS_RIGHT, MID_REFRESH, MID_SHOW_OFFLINE, MID_TOGGLE, MenuOp, preset_for, show_menu,
};
use crate::model;
use crate::settings;
use crate::settings::{Settings, SettingsView};
use crate::text::owned;

verus! {

/// The seconds between scans that an entry stands for.
pub open spec fn interval_of(id: usize) -> Option<u64> {
    if id == MID_INT10 {
        Some(10)
    } else if id == MID_INT30 {
        Some(30)
    } else if id == MID_INT60 {
        Some(60)
    } else if id == MID_INT300 {
        Some(300)
    } else {
        None
    }
}

/// The alert level that an entry stands for.
pub open spec fn level_of(id: usize) -> Option<u8> {
    if id == MID_LOW10 {
        Some(10)
    } else if id == MID_LOW20 {
        Some(20)
    } else if id == MID_LOW30 {
        Some(30)
    } else {
        None
    }
}

/// The index of the device that an entry stands for.
pub open spec fn device_of(id: usize) -> Option<int> {
    if MID_DEV_BASE <= id < MID_DEV_BASE + MAX_MENU_DEVICES {
        Some(id - MID_DEV_BASE)
    } else {
        None
    }
}

/// The entry is that of a device that the menu listed.
pub open spec fn is_listed(id: usize, addrs: Seq<Seq<char>>) -> bool {
    device_of(id) matches Some(i) && i < addrs.len()
}

/// The settings after an entry was chosen.
pub open spec fn chosen(s: SettingsView, addrs: Seq<Seq<char>>, id: usize) -> SettingsView {
    if id == MID_TOGGLE {
        SettingsView { strip_visible: !s.strip_visible, ..s }
    } else if id == MID_POS_LEFT {
        SettingsView { strip_side: "left"@, ..s }
    } else if id == MID_POS_RIGHT {
        SettingsView { strip_side: "right"@, ..s }
    } else if menu::preset_pct(id) is Some {
        SettingsView { text_pct: menu::preset_pct(id)->0, ..s }
    } else if interval_of(id) is Some {
        SettingsView { poll_seconds: interval_of(id)->0, ..s }
    } else if id == MID_AUTOSTART {
        SettingsView { autostart: !s.autostart, ..s }
    } else if id == MID_NOTIFY {
        SettingsView { notify_low: !s.notify_low, ..s }
    } else if id == MID_SHOW_OFFLINE {
        SettingsView { show_offline: !s.show_offline, ..s }
    } else if level_of(id) is Some {
        SettingsView { low_battery_alert: level_of(id)->0, ..s }
    } else if is_listed(id, addrs) {
        let a = addrs[device_of(id)->0];
        SettingsView { hidden: settings::hidden_after(s.hidden, a, !settings::shown(s.hidden, a)), ..s }
    } else {
        s
    }
}

/// The strip is to be laid out anew after an entry was chosen.
pub open spec fn is_redrawn(id: usize) -> bool {
    id == MID_POS_LEFT || id == MID_POS_RIGHT || menu::preset_pct(id) is Some || id
        == MID_SHOW_OFFLINE || level_of(id) is Some || device_of(id) is Some
}

/// An entry was chosen.
pub open spec fn is_commanded(before: App, after: App, id: usize) -> bool {
    &&& after.settings@ == chosen(before.settings@, model::texts(before.settings_addrs@), id)
    &&& after == (App {
        settings: after.settings,
        dirty: before.dirty || is_redrawn(id),
        text_pct: match menu::preset_pct(id) {
            Some(p) => p as i32,
            None => before.text_pct,
        },
        strip_visible: if id == MID_TOGGLE {
            after.settings.strip_visible
        } else {
            before.strip_visible
        },
        fs_hidden: before.fs_hidden && !(id == MID_TOGGLE && before.settings.strip_visible),
        shutting_down: before.shutting_down || id == MID_EXIT,
        ..before
    })
}

/// What choosing an entry asks for.
pub open spec fn command_effects(app: App, id: usize) -> Seq<Effect> {
    if id == MID_TOGGLE {
        seq![Effect::SaveSettings, Effect::Heal, Effect::Relayout]
    } else if id == MID_REFRESH {
        seq![Effect::RequestRefresh]
    } else if menu::preset_pct(id) is Some {
        seq![Effect::SaveSettings, Effect::RecreateFonts, Effect::Relayout]
    } else if interval_of(id) is Some {
        seq![Effect::SaveSettings, Effect::RequestRefresh]
    } else if id == MID_AUTOSTART {
        seq![Effect::SaveSettings, Effect::SetAutostart { on: !app.settings.autostart }]
    } else if id == MID_BT_ADD {
        seq![Effect::OpenBluetoothSettings]
    } else if id == MID_BT_DEVICES {
        seq![Effect::OpenConnectedDevices]
    } else if id == MID_EXIT {
        seq![Effect::DestroyWindow { hwnd: app.hwnd }]
    } else if id == MID_POS_LEFT || id == MID_POS_RIGHT || id == MID_NOTIFY || id
        == MID_SHOW_OFFLINE || level_of(id) is Some || is_listed(
        id,
        model::texts(app.settings_addrs@),
    ) {
        seq![Effect::SaveSettings]
    } else {
        Seq::empty()
    }
}

/// Notes in the settings that an entry was chosen.
fn choose_entry(cfg: &mut Settings, addrs: &Vec<String>, id: usize)
    ensures
        final(cfg)@ == chosen(old(cfg)@, model::texts(addrs@), id),
{
    if id == MID_TOGGLE {
        cfg.strip_visible = !cfg.strip_visible;
    } else if id == MID_POS_LEFT {
        cfg.strip_side = owned("left");
    } else if id == MID_POS_RIGHT {
        cfg.strip_side = owned("right");
    } else if let Some(pct) = preset_for(id) {
        cfg.text_pct = pct;
    } else if id == MID_INT10 {
        cfg.poll_seconds = 10;
    } else if id == MID_INT30 {
        cfg.poll_seconds = 30;
    } else if id == MID_INT60 {
        cfg.poll_seconds = 60;
    } else if id == MID_INT300 {
        cfg.poll_seconds = 300;
    } else if id == MID_AUTOSTART {
        cfg.autostart = !cfg.autostart;
    } else if id == MID_NOTIFY {
        cfg.notify_low = !cfg.notify_low;
    } else if id == MID_SHOW_OFFLINE {
        cfg.show_offline = !cfg.show_offline;
    } else if id == MID_LOW10 {
        cfg.low_battery_alert = 10;
    } else if id == MID_LOW20 {
        cfg.low_battery_alert = 20;
    } else if id == MID_LOW30 {
        cfg.low_battery_alert = 30;
    } else if MID_DEV_BASE <= id && id < MID_DEV_BASE + MAX_MENU_DEVICES {
        let idx: usize = id - MID_DEV_BASE;
        if idx < addrs.len() {
            let addr: &str = addrs[idx].as_str();
            assert(addr@ == model::texts(addrs@)[idx as int]);
            let shown = cfg.is_shown(addr);
            cfg.set_shown(addr, !shown);
        }
    }
    assert(cfg@ =~= chosen(old(cfg)@, model::texts(addrs@), id));
}

/// What choosing an entry asks for.
fn effects_of(id: usize, autostart: bool, hwnd: i64, listed: bool) -> (r: Vec<Effect>)
    ensures
        forall|app: App|
            app.settings.autostart == autostart && app.hwnd == hwnd && is_listed(
                id,
                model::texts(app.settings_addrs@),
            ) == listed ==> r@ == #[trigger] command_effects(app, id),
{
    if id == MID_TOGGLE {
        vec![Effect::SaveSettings, Effect::Heal, Effect::Relayout]
    } else if id == MID_REFRESH {
        vec![Effect::RequestRefresh]
    } else if preset_for(id).is_some() {
        vec![Effect::SaveSettings, Effect::RecreateFonts, Effect::Relayout]
    } else if id == MID_INT10 || id == MID_INT30 || id == MID_INT60 || id == MID_INT300 {
        vec![Effect::SaveSettings, Effect::RequestRefresh]
    } else if id == MID_AUTOSTART {
        vec![Effect::SaveSettings, Effect::SetAutostart { on: !autostart }]
    } else if id == MID_BT_ADD {
        vec![Effect::OpenBluetoothSettings]
    } else if id == MID_BT_DEVICES {
        vec![Effect::OpenConnectedDevices]
    } else if id == MID_EXIT {
        vec![Effect::DestroyWindow { hwnd }]
    } else if id == MID_POS_LEFT || id == MID_POS_RIGHT || id == MID_NOTIFY || id
        == MID_SHOW_OFFLINE || id == MID_LOW10 || id == MID_LOW20 || id == MID_LOW30 || listed {
        vec![Effect::SaveSettings]
    } else {
        Vec::new()
    }
}

impl App {
    /// Carries out an entry of the menu.
    pub fn on_command(&mut self, id: usize) -> (r: Vec<Effect>)
        ensures
            is_commanded(*old(self), *final(self), id),
            r@ == command_effects(*old(self), id),
    {
        let is_device = MID_DEV_BASE <= id && id < MID_DEV_BASE + MAX_MENU_DEVICES;
        let listed = is_device && id - MID_DEV_BASE < self.settings_addrs.len();
        let out = effects_of(id, self.settings.autostart, self.hwnd, listed);
        choose_entry(&mut self.settings, &self.settings_addrs, id);
        if id == MID_TOGGLE {
            let show = self.settings.strip_visible;
            let _ = self.apply_strip_visible(show);
        } else if let Some(pct) = preset_for(id) {
            self.text_pct = pct as i32;
            self.mark_dirty();
        } else if id == MID_EXIT {
            self.shutting_down = true;
        } else if is_device || id == MID_POS_LEFT || id == MID_POS_RIGHT || id == MID_SHOW_OFFLINE
            || id == MID_LOW10 || id == MID_LOW20 || id == MID_LOW30 {
            self.mark_dirty();
        }
        out
    }

    /// Builds the menu, and notes which devices it lists.
    pub fn open_menu(&mut self) -> (r: Vec<MenuOp>)
        ensures
            ({
                let cfg = old(self).settings;
                let rows = settings::settings_rows(
                    cfg.hidden(),
                    cfg.known(),
                    old(self).snapshot.devices@,
                );
                &&& menu::menu_views(r@) == menu::menu_plan(
                    cfg,
                    rows,
                    if old(self).text_pct < 0 {
                        0
                    } else {
                        old(self).text_pct as u32
                    },
                    crate::text::same_ignoring_case(cfg.strip_side@, "left"@),
                )
                &&& model::texts(final(self).settings_addrs@) == Seq::new(
                    menu::listed_rows(rows.len()) as nat,
                    |i: int| rows[i].address,
                )
            }),
            *final(self) == (App { settings_addrs: final(self).settings_addrs, ..*old(self) }),
    {
        let pct: u32 = if self.text_pct < 0 {
            0
        } else {
            self.text_pct as u32
        };
        let live = self.live_devices();
        let (ops, addrs) = show_menu(&self.settings, live.as_slice(), pct);
        self.settings_addrs = addrs;
        ops
    }
}

/// Choosing a device's entry twice shows it again if it was shown, and hides it
/// again if it was hidden.
pub proof fn law_device_entry_toggles(s: SettingsView, addrs: Seq<Seq<char>>, id: usize)
    requires
        is_listed(id, addrs),
    ensures
        ({
            let a = addrs[device_of(id)->0];
            let once = chosen(s, addrs, id);
            let twice = chosen(once, addrs, id);
            &&& settings::shown(once.hidden, a) == !settings::shown(s.hidden, a)
            &&& settings::shown(twice.hidden, a) == settings::shown(s.hidden, a)
        }),
{
    let a = addrs[device_of(id)->0];
    let once = chosen(s, addrs, id);
    settings::law_set_shown(s.hidden, a, !settings::shown(s.hidden, a), a);
    settings::law_set_shown(once.hidden, a, !settings::shown(once.hidden, a), a);
}

/// No entry but the one for quitting lets the program quit, and none shows a strip
/// that the user hid, except the one that shows it.
pub proof fn law_commands_keep_to_themselves(before: App, after: App, id: usize)
    requires
        is_commanded(before, after, id),
    ensures
        id != MID_EXIT ==> after.shutting_down == before.shutting_down,
        id != MID_TOGGLE ==> after.strip_visible == before.strip_visible && after.fs_hidden
            == before.fs_hidden,
{
}

/// The entries with a fixed choice set what they name, whatever was set before, and
/// leave all other settings alone.
pub proof fn law_entries_set_what_they_name(s: SettingsView, addrs: Seq<Seq<char>>)
    ensures
        chosen(s, addrs, 1018) == (SettingsView { poll_seconds: 10, ..s }),
        chosen(s, addrs, 1003) == (SettingsView { poll_seconds: 30, ..s }),
        chosen(s, addrs, 1004) == (SettingsView { poll_seconds: 60, ..s }),
        chosen(s, addrs, 1005) == (SettingsView { poll_seconds: 300, ..s }),
        chosen(s, addrs, 1013) == (SettingsView { low_battery_alert: 10, ..s }),
        chosen(s, addrs, 1014) == (SettingsView { low_battery_alert: 20, ..s }),
        chosen(s, addrs, 1015) == (SettingsView { low_battery_alert: 30, ..s }),
        chosen(s, addrs, 1020) == (SettingsView { text_pct: 80, ..s }),
        chosen(s, addrs, 1021) == (SettingsView { text_pct: 100, ..s }),
        chosen(s, addrs, 1022) == (SettingsView { text_pct: 120, ..s }),
        chosen(s, addrs, 1023) == (SettingsView { text_pct: 140, ..s }),
        chosen(s, addrs, 1011) == (SettingsView { strip_side: "left"@, ..s }),
        chosen(s, addrs, 1012) == (SettingsView { strip_side: "right"@, ..s }),
{
}

/// The entries for the strip, for starting with the session, for alerts and for devices
/// that are offline turn one setting over, and a second choice turns it back.
pub proof fn law_switches_turn_over(s: SettingsView, addrs: Seq<Seq<char>>)
    ensures
        chosen(s, addrs, 1000) == (SettingsView { strip_visible: !s.strip_visible, ..s }),
        chosen(s, addrs, 1006) == (SettingsView { autostart: !s.autostart, ..s }),
        chosen(s, addrs, 1007) == (SettingsView { notify_low: !s.notify_low, ..s }),
        chosen(s, addrs, 1010) == (SettingsView { show_offline: !s.show_offline, ..s }),
        chosen(chosen(s, addrs, 1000), addrs, 1000) == s,
        chosen(chosen(s, addrs, 1006), addrs, 1006) == s,
        chosen(chosen(s, addrs, 1007), addrs, 1007) == s,
        chosen(chosen(s, addrs, 1010), addrs, 1010) == s,
{
}

/// The entry of the device at a place of the list hides that device if it was shown and
/// shows it if it was hidden. Other devices stay as they are, and so do all other
/// settings.
pub proof fn law_device_entry_is_for_its_device(
    s: SettingsView,
    addrs: Seq<Seq<char>>,
    i: int,
    other: Seq<char>,
)
    requires
        0 <= i < addrs.len(),
        i < 16,
    ensures
        ({
            let after = chosen(s, addrs, (3100 + i) as usize);
            &&& settings::shown(after.hidden, addrs[i]) == !settings::shown(s.hidden, addrs[i])
            &&& !crate::text::same_ignoring_case(addrs[i], other) ==> settings::shown(
                after.hidden,
                other,
            ) == settings::shown(s.hidden, other)
            &&& after == (SettingsView { hidden: after.hidden, ..s })
        }),
{
    let a = addrs[i];
    settings::law_set_shown(s.hidden, a, !settings::shown(s.hidden, a), other);
}

/// Entries that only ask for something, ids of devices that the menu did not list, and
/// ids that are none of the menu's change no setting.
pub proof fn law_other_entries_change_no_setting(
    s: SettingsView,
    addrs: Seq<Seq<char>>,
    id: usize,
)
    requires
        id < 1000 || id == 1001 || id == 1002 || id == 1008 || id == 1009 || id == 1016 || id
            == 1017 || id == 1019 || 1024 <= id < 3100 || id >= 3116 || (id >= 3100 && id - 3100
            >= addrs.len()),
    ensures
        chosen(s, addrs, id) == s,
{
}

/// Whatever changes a setting is saved, and what is saved was chosen by the user: an
/// entry that only asks for something saves nothing.
pub proof fn law_changed_settings_are_saved(app: App, id: usize)
    ensures
        ({
            let s = app.settings@;
            let addrs = model::texts(app.settings_addrs@);
            &&& chosen(s, addrs, id) != s ==> command_effects(app, id).contains(
                Effect::SaveSettings,
            )
            &&& id == 1002 || id == 1008 || id == 1016 || id == 1017 ==> !command_effects(
                app,
                id,
            ).contains(Effect::SaveSettings)
        }),
{
    let e = command_effects(app, id);
    if e.len() > 0 {
        let t = e[0];
    }
}

/// Choosing an entry asks for what makes it felt: a scan for a new interval and for the
/// entry that refreshes, fonts and a new layout for a text size, the session's entry for
/// starting with it, the system's pages, and the end of the window for quitting.
pub proof fn law_entries_ask_for_what_they_need(app: App, id: usize)
    ensures
        ({
            let e = command_effects(app, id);
            &&& e.contains(Effect::RequestRefresh) <==> id == 1002 || id == 1018 || id == 1003 || id
                == 1004 || id == 1005
            &&& e.contains(Effect::RecreateFonts) <==> id == 1020 || id == 1021 || id == 1022 || id
                == 1023
            &&& e.contains(Effect::Relayout) <==> id == 1000 || id == 1020 || id == 1021 || id
                == 1022 || id == 1023
            &&& e.contains(Effect::Heal) <==> id == 1000
            &&& e.contains(Effect::SetAutostart { on: !app.settings.autostart }) <==> id == 1006
            &&& !e.contains(Effect::SetAutostart { on: app.settings.autostart })
            &&& e.contains(Effect::OpenBluetoothSettings) <==> id == 1016
            &&& e.contains(Effect::OpenConnectedDevices) <==> id == 1017
            &&& e.contains(Effect::DestroyWindow { hwnd: app.hwnd }) <==> id == 1008
        }),
{
    let e = command_effects(app, id);
    if e.len() > 0 {
        let t = e[0];
    }
    if e.len() > 1 {
        let t = e[1];
    }
    if e.len() > 2 {
        let t = e[2];
    }
}

/// What changes the look of the strip lets it be laid out anew: its side, its text
/// size, which devices are on it, and from which level on a battery is low. Showing or
/// hiding the strip takes effect at once, and hiding it forgets that a full-screen
/// window covered it.
pub proof fn law_changes_are_seen(before: App, after: App, id: usize)
    requires
        is_commanded(before, after, id),
    ensures
        before.dirty ==> after.dirty,
        after.settings@.strip_side != before.settings@.strip_side ==> after.dirty,
        after.settings@.text_pct != before.settings@.text_pct ==> after.dirty,
        after.settings@.hidden != before.settings@.hidden ==> after.dirty,
        after.settings@.show_offline != before.settings@.show_offline ==> after.dirty,
        after.settings@.low_battery_alert != before.settings@.low_battery_alert ==> after.dirty,
        after.settings@.strip_visible != before.settings@.strip_visible ==> after.strip_visible
            == after.settings@.strip_visible,
        after.settings@.text_pct != before.settings@.text_pct ==> after.text_pct
            == after.settings@.text_pct,
        after.settings@.strip_visible == before.settings@.strip_visible ==> after.strip_visible
            == before.strip_visible && after.fs_hidden == before.fs_hidden,
        before.settings@.strip_visible && !after.settings@.strip_visible ==> !after.fs_hidden,
        after.snapshot == before.snapshot,
        id == 1008 ==> after.shutting_down,
        id != 1008 ==> after.shutting_down == before.shutting_down,
{
}

} // verus!
