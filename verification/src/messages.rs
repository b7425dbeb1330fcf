//! The messages that the windows get, and what they do to the state.

use vstd::prelude::*;

use crate::app;
use crate::app::{App, Effect};
use crate::commands;
use crate::draw::{ClickTarget, click_target};
use crate::layout;
use crate::menu::{MID_EXIT, MID_REFRESH, MID_TOGGLE};
use crate::window;

verus! {

/// A click on the tray icon.
pub const TRAY_MSG: u32 = 0x8014;

/// New data is there.
pub const MSG_DATA_READY: u32 = 0x8015;

/// The strip is to be rebuilt.
pub const MSG_RECREATE_STRIP: u32 = 0x8016;

/// The timer of the strip, once a second.
pub const STRIP_TIMER: u64 = 1;

/// The timer that lets changes of devices settle.
pub const DEVICE_TIMER: u64 = 2;

/// The timer after which the strip is tried to be rebuilt again.
pub const RECREATE_TIMER: u64 = 3;

pub const RECREATE_RETRY_MS: u32 = 500;

pub const WM_DESTROY: u32 = 0x0002;

pub const WM_KILLFOCUS: u32 = 0x0008;

pub const WM_PAINT: u32 = 0x000F;

pub const WM_CLOSE: u32 = 0x0010;

pub const WM_QUERYENDSESSION: u32 = 0x0011;

pub const WM_ERASEBKGND: u32 = 0x0014;

pub const WM_ENDSESSION: u32 = 0x0016;

pub const WM_SETTINGCHANGE: u32 = 0x001A;

pub const WM_DISPLAYCHANGE: u32 = 0x007E;

pub const WM_INPUT: u32 = 0x00FF;

pub const WM_COMMAND: u32 = 0x0111;

pub const WM_TIMER: u32 = 0x0113;

pub const WM_LBUTTONUP: u32 = 0x0202;

pub const WM_RBUTTONUP: u32 = 0x0205;

pub const WM_DEVICECHANGE: u32 = 0x0219;

pub const WM_DPICHANGED: u32 = 0x02E0;

/// The low word of a message parameter.
pub open spec fn low_word(v: u64) -> int {
    v as int % 0x1_0000
}

// ------------------------------------------------------------------- the strip

/// The "+n" pill was clicked.
pub open spec fn is_on_more(app: App, lparam: u64) -> bool {
    app.overflow_x.0 <= low_word(lparam) < app.overflow_x.1
}

/// The menu entry that a message to the strip stands for: its own, that of a left
/// click on the tray icon, or that of a click on the strip beside the "+n" pill.
pub open spec fn entry_of(app: App, msg: u32, wparam: u64, lparam: u64) -> Option<usize> {
    if msg == TRAY_MSG && low_word(lparam) == 0x0201 {
        Some(MID_TOGGLE)
    } else if msg == WM_LBUTTONUP && !is_on_more(app, lparam) {
        Some(MID_REFRESH)
    } else if msg == WM_COMMAND {
        Some(low_word(wparam) as usize)
    } else {
        None
    }
}

/// What a message to the strip asks for before the menu entry that it stands for.
pub open spec fn before_entry(app: App, msg: u32) -> Seq<Effect> {
    if msg == WM_LBUTTONUP {
        app::hide_panel_effects(app.panel_hwnd)
    } else {
        Seq::empty()
    }
}

/// The taskbar announces itself, or the displays or settings changed.
pub open spec fn is_broadcast(app: App, msg: u32) -> bool {
    (app.wm_taskbar_created != 0 && msg == app.wm_taskbar_created) || msg == WM_DISPLAYCHANGE || msg
        == WM_SETTINGCHANGE
}

/// The strip treats a message in its own way before it looks whether it is one of
/// the taskbar.
pub open spec fn is_plain(msg: u32) -> bool {
    msg == WM_TIMER || msg == WM_DEVICECHANGE || msg == MSG_DATA_READY || msg == WM_CLOSE || msg
        == WM_QUERYENDSESSION || msg == WM_ENDSESSION || msg == WM_PAINT || msg == WM_ERASEBKGND
        || msg == TRAY_MSG || msg == WM_LBUTTONUP || msg == WM_RBUTTONUP || msg == WM_COMMAND
}

/// What is answered to a message to the strip; nothing if it is left to the
/// system.
pub open spec fn strip_answer(app: App, msg: u32) -> Option<i64> {
    if msg == WM_DEVICECHANGE || msg == WM_QUERYENDSESSION || msg == WM_ERASEBKGND {
        Some(1)
    } else if is_plain(msg) || is_broadcast(app, msg) || msg == WM_DESTROY {
        Some(0)
    } else {
        None
    }
}

/// The state after a message to the strip that stands for no menu entry.
pub open spec fn strip_state(app: App, msg: u32, wparam: u64) -> App {
    if msg == MSG_DATA_READY {
        App { dirty: false, ..app }
    } else if msg == WM_CLOSE || (msg == WM_ENDSESSION && wparam != 0) {
        App { shutting_down: true, ..app }
    } else if is_plain(msg) || is_broadcast(app, msg) {
        app
    } else if msg == WM_DESTROY {
        window::destroyed(app)
    } else {
        app
    }
}

/// What a message to the strip asks for that stands for no menu entry.
pub open spec fn strip_effects(app: App, msg: u32, wparam: u64, lparam: u64) -> Seq<Effect> {
    if msg == WM_TIMER {
        if wparam == DEVICE_TIMER {
            seq![Effect::KillDeviceTimer, Effect::RequestRefresh]
        } else {
            seq![Effect::CheckFullscreen, Effect::Heal, Effect::ProcessDirty]
        }
    } else if msg == WM_DEVICECHANGE {
        seq![Effect::ArmDeviceTimer]
    } else if msg == MSG_DATA_READY {
        window::refresh_effects(app)
    } else if msg == WM_CLOSE {
        seq![Effect::DestroyWindow { hwnd: app.hwnd }]
    } else if msg == WM_ENDSESSION && wparam != 0 {
        seq![Effect::RemoveTrayIcon]
    } else if msg == WM_PAINT {
        seq![Effect::Paint]
    } else if (msg == TRAY_MSG && low_word(lparam) == 0x0205) || msg == WM_RBUTTONUP {
        seq![Effect::ShowMenu]
    } else if msg == WM_LBUTTONUP && is_on_more(app, lparam) {
        seq![Effect::TogglePanel]
    } else if is_plain(msg) {
        Seq::empty()
    } else if is_broadcast(app, msg) {
        seq![Effect::Heal, Effect::Relayout]
    } else if msg == WM_DESTROY {
        window::destroyed_effects(app)
    } else {
        Seq::empty()
    }
}

fn low_word_of(v: u64) -> (r: u64)
    ensures
        r == low_word(v),
{
    v % 0x1_0000
}

impl App {
    fn is_taskbar_message(&self, msg: u32) -> (r: bool)
        ensures
            r == is_broadcast(*self, msg),
    {
        (self.wm_taskbar_created != 0 && msg == self.wm_taskbar_created) || msg == WM_DISPLAYCHANGE
            || msg == WM_SETTINGCHANGE
    }

    /// Hides the panel, if there is one.
    pub fn hide_panel(&self) -> (r: Vec<Effect>)
        ensures
            r@ == app::hide_panel_effects(self.panel_hwnd),
    {
        if self.panel_hwnd != 0 {
            vec![Effect::HidePanel]
        } else {
            Vec::new()
        }
    }

    /// Hides the panel if it is to be seen, and shows it otherwise.
    pub fn toggle_panel(&self, visible: bool) -> (r: Vec<Effect>)
        ensures
            r@ == if self.panel_hwnd != 0 && visible {
                seq![Effect::HidePanel]
            } else {
                seq![Effect::ShowPanel]
            },
    {
        if self.panel_hwnd != 0 && visible {
            vec![Effect::HidePanel]
        } else {
            vec![Effect::ShowPanel]
        }
    }

    /// The window that owns a new panel: the strip, unless it is in the taskbar
    /// and cannot own one.
    pub fn panel_owner(&self) -> (r: i64)
        ensures
            r == if self.embedded {
                0
            } else {
                self.hwnd
            },
    {
        if self.embedded {
            0
        } else {
            self.hwnd
        }
    }

    /// Takes in a tick of the strip's timer. The strip is healed each time, even if
    /// nothing changed and even if it is hidden.
    fn on_timer(&self) -> (r: Vec<Effect>)
        ensures
            r@ == seq![Effect::CheckFullscreen, Effect::Heal, Effect::ProcessDirty],
    {
        vec![Effect::CheckFullscreen, Effect::Heal, Effect::ProcessDirty]
    }

    /// Takes in a message to the strip. The first result is the answer; nothing if
    /// the message is left to the system.
    pub fn handle_message(&mut self, msg: u32, wparam: u64, lparam: u64) -> (r: (
        Option<i64>,
        Vec<Effect>,
    ))
        ensures
            r.0 == strip_answer(*old(self), msg),
            match entry_of(*old(self), msg, wparam, lparam) {
                Some(id) => {
                    &&& commands::is_commanded(*old(self), *final(self), id)
                    &&& r.1@ == before_entry(*old(self), msg) + commands::command_effects(
                        *old(self),
                        id,
                    )
                },
                None => {
                    &&& *final(self) == strip_state(*old(self), msg, wparam)
                    &&& r.1@ == strip_effects(*old(self), msg, wparam, lparam)
                },
            },
    {
        if msg == WM_TIMER {
            if wparam == DEVICE_TIMER {
                return (Some(0), vec![Effect::KillDeviceTimer, Effect::RequestRefresh]);
            }
            return (Some(0), self.on_timer());
        }
        if msg == WM_DEVICECHANGE {
            return (Some(1), vec![Effect::ArmDeviceTimer]);
        }
        if msg == MSG_DATA_READY {
            return (Some(0), self.process_dirty_or_reanchor());
        }
        if msg == WM_CLOSE {
            self.shutting_down = true;
            return (Some(0), vec![Effect::DestroyWindow { hwnd: self.hwnd }]);
        }
        if msg == WM_QUERYENDSESSION {
            return (Some(1), Vec::new());
        }
        if msg == WM_ENDSESSION {
            if wparam != 0 {
                self.shutting_down = true;
                return (Some(0), vec![Effect::RemoveTrayIcon]);
            }
            return (Some(0), Vec::new());
        }
        if msg == WM_PAINT {
            return (Some(0), vec![Effect::Paint]);
        }
        if msg == WM_ERASEBKGND {
            return (Some(1), Vec::new());
        }
        if msg == TRAY_MSG {
            let code: u64 = low_word_of(lparam);
            if code == 0x0201 {
                let out = self.on_command(MID_TOGGLE);
                assert(out@ =~= before_entry(*old(self), msg) + out@);
                return (Some(0), out);
            }
            if code == 0x0205 {
                return (Some(0), vec![Effect::ShowMenu]);
            }
            return (Some(0), Vec::new());
        }
        if msg == WM_LBUTTONUP {
            let x: i32 = low_word_of(lparam) as i32;
            match click_target(x, self.overflow_x) {
                ClickTarget::More => {
                    return (Some(0), vec![Effect::TogglePanel]);
                },
                ClickTarget::Strip => {
                    let mut out = self.hide_panel();
                    let mut more = self.on_command(MID_REFRESH);
                    out.append(&mut more);
                    return (Some(0), out);
                },
            }
        }
        if msg == WM_RBUTTONUP {
            return (Some(0), vec![Effect::ShowMenu]);
        }
        if msg == WM_COMMAND {
            let out = self.on_command(low_word_of(wparam) as usize);
            assert(out@ =~= before_entry(*old(self), msg) + out@);
            return (Some(0), out);
        }
        if self.is_taskbar_message(msg) {
            return (Some(0), vec![Effect::Heal, Effect::Relayout]);
        }
        if msg == WM_DESTROY {
            return (Some(0), self.on_destroyed());
        }
        (None, Vec::new())
    }
}

// ------------------------------------------------------------------ the helper

/// What is answered to a message to the helper window.
pub open spec fn helper_answer(app: App, msg: u32, wparam: u64) -> Option<i64> {
    if msg == WM_DEVICECHANGE {
        Some(1)
    } else if msg == MSG_RECREATE_STRIP || (msg == WM_TIMER && wparam == RECREATE_TIMER)
        || is_broadcast(app, msg) || msg == WM_DPICHANGED {
        Some(0)
    } else {
        None
    }
}

/// The DPI is read anew: `dpi` is that of the strip, 0 if unknown.
pub open spec fn new_dpi(dpi: i32) -> i32 {
    if dpi <= 0 {
        layout::BASE_DPI
    } else {
        dpi
    }
}

/// A message to the helper window lets the DPI be read.
pub open spec fn reads_dpi(app: App, msg: u32, wparam: u64) -> bool {
    &&& app.hwnd != 0
    &&& msg != MSG_RECREATE_STRIP && msg != WM_DEVICECHANGE && !(msg == WM_TIMER && wparam
        == RECREATE_TIMER)
    &&& is_broadcast(app, msg) || msg == WM_DPICHANGED
}

/// What a message to the helper window asks for.
pub open spec fn helper_effects(app: App, msg: u32, wparam: u64, dpi: i32) -> Seq<Effect> {
    let changed = new_dpi(dpi) != app.dpi;
    if msg == MSG_RECREATE_STRIP || (msg == WM_TIMER && wparam == RECREATE_TIMER) {
        seq![Effect::KillRecreateTimer, Effect::TryRecreate]
    } else if msg == WM_DEVICECHANGE {
        if app.hwnd != 0 {
            seq![Effect::ArmDeviceTimer]
        } else {
            Seq::empty()
        }
    } else if is_broadcast(app, msg) {
        if app.hwnd == 0 {
            if app.pending_recreate {
                seq![Effect::PostRecreate]
            } else {
                Seq::empty()
            }
        } else if changed {
            seq![Effect::RecreateFonts, Effect::Heal, Effect::Relayout]
        } else {
            seq![Effect::Heal, Effect::Relayout]
        }
    } else if msg == WM_DPICHANGED && app.hwnd != 0 && changed {
        seq![Effect::RecreateFonts, Effect::Relayout]
    } else {
        Seq::empty()
    }
}

impl App {
    /// Takes in a message to the helper window, which gets what a strip in the
    /// taskbar does not: the taskbar's announcements, and changes of devices and
    /// displays. `dpi` is the DPI of the strip.
    pub fn handle_helper_message(&mut self, msg: u32, wparam: u64, dpi: i32) -> (r: (
        Option<i64>,
        Vec<Effect>,
    ))
        ensures
            r.0 == helper_answer(*old(self), msg, wparam),
            r.1@ == helper_effects(*old(self), msg, wparam, dpi),
            *final(self) == (App {
                dpi: if reads_dpi(*old(self), msg, wparam) {
                    new_dpi(dpi)
                } else {
                    old(self).dpi
                },
                ..*old(self)
            }),
    {
        if msg == MSG_RECREATE_STRIP {
            return (Some(0), vec![Effect::KillRecreateTimer, Effect::TryRecreate]);
        }
        if msg == WM_DEVICECHANGE {
            if self.hwnd != 0 {
                return (Some(1), vec![Effect::ArmDeviceTimer]);
            }
            return (Some(1), Vec::new());
        }
        if msg == WM_TIMER && wparam == RECREATE_TIMER {
            return (Some(0), vec![Effect::KillRecreateTimer, Effect::TryRecreate]);
        }
        if self.is_taskbar_message(msg) {
            if self.hwnd == 0 {
                if self.pending_recreate {
                    return (Some(0), vec![Effect::PostRecreate]);
                }
                return (Some(0), Vec::new());
            }
            if self.refresh_dpi(dpi) {
                return (Some(0), vec![Effect::RecreateFonts, Effect::Heal, Effect::Relayout]);
            }
            return (Some(0), vec![Effect::Heal, Effect::Relayout]);
        }
        if msg == WM_DPICHANGED {
            if self.hwnd != 0 {
                if self.refresh_dpi(dpi) {
                    return (Some(0), vec![Effect::RecreateFonts, Effect::Relayout]);
                }
            }
            return (Some(0), Vec::new());
        }
        (None, Vec::new())
    }

    /// Takes in a message to the panel: a click or the loss of the focus closes it.
    pub fn handle_panel_message(&mut self, msg: u32) -> (r: (Option<i64>, Vec<Effect>))
        ensures
            r.0 == if msg == WM_ERASEBKGND {
                Some(1i64)
            } else if msg == WM_PAINT || msg == WM_LBUTTONUP || msg == WM_RBUTTONUP || msg
                == WM_KILLFOCUS || msg == WM_DESTROY {
                Some(0i64)
            } else {
                None
            },
            r.1@ == if msg == WM_PAINT {
                seq![Effect::PaintPanel]
            } else if msg == WM_LBUTTONUP || msg == WM_RBUTTONUP || msg == WM_KILLFOCUS {
                app::hide_panel_effects(old(self).panel_hwnd)
            } else {
                Seq::<Effect>::empty()
            },
            *final(self) == (App {
                panel_hwnd: if msg == WM_DESTROY {
                    0
                } else {
                    old(self).panel_hwnd
                },
                ..*old(self)
            }),
    {
        if msg == WM_PAINT {
            (Some(0), vec![Effect::PaintPanel])
        } else if msg == WM_ERASEBKGND {
            (Some(1), Vec::new())
        } else if msg == WM_LBUTTONUP || msg == WM_RBUTTONUP || msg == WM_KILLFOCUS {
            (Some(0), self.hide_panel())
        } else if msg == WM_DESTROY {
            self.panel_hwnd = 0;
            (Some(0), Vec::new())
        } else {
            (None, Vec::new())
        }
    }
}

// ------------------------------------------------------------------------ routes

/// Who a message is for.
#[derive(Clone, Copy, Debug, PartialEq, Eq, Structural)]
pub enum Route {
    /// A key press anywhere.
    RawInput,
    Panel,
    Strip,
    Helper,
    /// The system.
    Other,
}

impl App {
    /// Who a message to a window is for.
    pub fn route(&self, hwnd: i64, msg: u32) -> (r: Route)
        ensures
            r == if msg == WM_INPUT {
                Route::RawInput
            } else if self.panel_hwnd != 0 && self.panel_hwnd == hwnd {
                Route::Panel
            } else if self.hwnd == hwnd {
                Route::Strip
            } else if self.raw_hwnd == hwnd {
                Route::Helper
            } else {
                Route::Other
            },
    {
        if msg == WM_INPUT {
            Route::RawInput
        } else if self.panel_hwnd != 0 && self.panel_hwnd == hwnd {
            Route::Panel
        } else if self.hwnd == hwnd {
            Route::Strip
        } else if self.raw_hwnd == hwnd {
            Route::Helper
        } else {
            Route::Other
        }
    }
}

// ------------------------------------------------------------------ start and end

impl App {
    /// Takes in the first strip window with its DPI, and the message with which
    /// the taskbar announces itself.
    pub fn on_started(&mut self, hwnd: i64, dpi: i32, taskbar_created: u32) -> (r: Vec<Effect>)
        ensures
            *final(self) == (App {
                hwnd,
                dpi: new_dpi(dpi),
                wm_taskbar_created: taskbar_created,
                ..*old(self)
            }),
            r@ == seq![
                Effect::RecreateFonts,
                Effect::AddTrayIcon,
                Effect::WireStrip,
                Effect::CreateHelper,
            ],
    {
        self.hwnd = hwnd;
        let _ = self.refresh_dpi(dpi);
        self.wm_taskbar_created = taskbar_created;
        vec![
            Effect::RecreateFonts,
            Effect::AddTrayIcon,
            Effect::WireStrip,
            Effect::CreateHelper,
        ]
    }

    /// Takes in the helper window, 0 if it could not be made. The user's wish to
    /// see the strip or not is known before it is first embedded and laid out.
    pub fn on_helper(&mut self, helper: i64) -> (r: Vec<Effect>)
        ensures
            *final(self) == (App {
                raw_hwnd: helper,
                strip_visible: old(self).settings.strip_visible,
                ..*old(self)
            }),
            r@ == (if helper != 0 {
                seq![Effect::RegisterRawKeyboard]
            } else {
                Seq::empty()
            }) + seq![Effect::Heal, Effect::Relayout] + (if old(self).demo_mode {
                seq![Effect::Relayout, Effect::UpdateTray, Effect::Paint, Effect::CaptureStrip]
            } else {
                seq![Effect::StartScans]
            }),
    {
        self.raw_hwnd = helper;
        self.strip_visible = self.settings.strip_visible;
        let mut out: Vec<Effect> = Vec::new();
        if helper != 0 {
            out.push(Effect::RegisterRawKeyboard);
        }
        out.push(Effect::Heal);
        out.push(Effect::Relayout);
        if self.demo_mode {
            out.push(Effect::Relayout);
            out.push(Effect::UpdateTray);
            out.push(Effect::Paint);
            out.push(Effect::CaptureStrip);
        } else {
            out.push(Effect::StartScans);
        }
        assert(out@ =~= (if helper != 0 {
            seq![Effect::RegisterRawKeyboard]
        } else {
            Seq::empty()
        }) + seq![Effect::Heal, Effect::Relayout] + (if self.demo_mode {
            seq![Effect::Relayout, Effect::UpdateTray, Effect::Paint, Effect::CaptureStrip]
        } else {
            seq![Effect::StartScans]
        }));
        out
    }

    /// After each message: a strip that waits to be rebuilt is rebuilt, even if the
    /// helper window is gone.
    pub fn after_message(&mut self) -> (r: Vec<Effect>)
        ensures
            *final(self) == (App { pending_recreate: false, ..*old(self) }),
            r@ == if old(self).pending_recreate {
                seq![Effect::TryRecreate]
            } else {
                Seq::<Effect>::empty()
            },
    {
        if self.pending_recreate {
            self.pending_recreate = false;
            vec![Effect::TryRecreate]
        } else {
            Vec::new()
        }
    }

    /// The last message was dealt with.
    pub fn on_exit(&mut self) -> (r: Vec<Effect>)
        ensures
            *final(self) == (App {
                shutting_down: true,
                raw_hwnd: 0,
                panel_hwnd: 0,
                ..*old(self)
            }),
            r@ == (if old(self).hwnd != 0 {
                seq![Effect::KillStripTimers]
            } else {
                Seq::empty()
            }) + window::teardown_effects(*old(self)) + seq![
                Effect::RemoveTrayIcon,
                Effect::FreeIconAndFonts,
            ],
    {
        let ghost start = *self;
        self.shutting_down = true;
        let mut out: Vec<Effect> = Vec::new();
        if self.hwnd != 0 {
            out.push(Effect::KillStripTimers);
        }
        let mut more = self.teardown_resources();
        out.append(&mut more);
        out.push(Effect::RemoveTrayIcon);
        out.push(Effect::FreeIconAndFonts);
        assert(out@ =~= (if start.hwnd != 0 {
            seq![Effect::KillStripTimers]
        } else {
            Seq::empty()
        }) + window::teardown_effects(start) + seq![
            Effect::RemoveTrayIcon,
            Effect::FreeIconAndFonts,
        ]);
        out
    }
}

// ------------------------------------------------------------------------ laws

/// Closing the strip quits the program, wherever the strip is: its destruction is
/// then taken for what it is.
pub proof fn law_closing_quits(app: App, wparam: u64, lparam: u64)
    ensures
        entry_of(app, WM_CLOSE, wparam, lparam) is None,
        ({
            let closed = strip_state(app, WM_CLOSE, wparam);
            &&& strip_effects(app, WM_CLOSE, wparam, lparam) == seq![
                Effect::DestroyWindow { hwnd: app.hwnd },
            ]
            &&& window::destroyed_effects(closed).last() == Effect::PostQuit
            &&& window::attempt_effects(window::destroyed(closed)).len() == 0
        }),
{
    window::law_quitting_rebuilds_nothing(strip_state(app, WM_CLOSE, wparam));
}

/// So does the menu's entry for quitting.
pub proof fn law_exit_entry_quits(before: App, after: App)
    requires
        commands::is_commanded(before, after, MID_EXIT),
    ensures
        window::destroyed_effects(after).last() == Effect::PostQuit,
        window::attempt_effects(window::destroyed(after)).len() == 0,
{
    window::law_quitting_rebuilds_nothing(after);
}

/// Messages that are left to the system change nothing and ask for nothing.
pub proof fn law_other_messages_do_nothing(app: App, msg: u32, wparam: u64, lparam: u64)
    requires
        strip_answer(app, msg) is None,
    ensures
        entry_of(app, msg, wparam, lparam) is None,
        strip_state(app, msg, wparam) == app,
        strip_effects(app, msg, wparam, lparam).len() == 0,
{
}

/// A left click on the tray icon shows or hides the strip, a right click opens the
/// menu, and what else happens to the icon is let be.
pub proof fn law_tray_clicks(app: App, wparam: u64, lparam: u64)
    ensures
        ({
            let code = lparam % 0x1_0000;
            let e = entry_of(app, 0x8014, wparam, lparam);
            let effects = strip_effects(app, 0x8014, wparam, lparam);
            &&& e == if code == 0x0201 {
                Some(MID_TOGGLE)
            } else {
                None
            }
            &&& code == 0x0205 ==> effects == seq![Effect::ShowMenu]
            &&& code != 0x0205 ==> effects.len() == 0
            &&& strip_state(app, 0x8014, wparam) == app
        }),
{
}

/// A click on the "+n" pill opens or closes the panel and does nothing else. A click
/// beside it asks for a scan, and closes the panel if there is one. A right click opens
/// the menu.
pub proof fn law_strip_clicks(app: App, wparam: u64, lparam: u64)
    ensures
        ({
            let x = lparam % 0x1_0000;
            let on_more = app.overflow_x.0 <= x && x < app.overflow_x.1;
            let e = entry_of(app, 0x0202, wparam, lparam);
            let front = before_entry(app, 0x0202);
            &&& on_more ==> e is None && strip_effects(app, 0x0202, wparam, lparam) == seq![
                Effect::TogglePanel,
            ] && strip_state(app, 0x0202, wparam) == app
            &&& !on_more ==> e == Some(MID_REFRESH)
            &&& app.panel_hwnd == 0 ==> front.len() == 0
            &&& app.panel_hwnd != 0 ==> front == seq![Effect::HidePanel]
            &&& entry_of(app, 0x0205, wparam, lparam) is None
            &&& strip_effects(app, 0x0205, wparam, lparam) == seq![Effect::ShowMenu]
        }),
{
}

/// The menu's own message carries out the entry in the low word of its parameter.
pub proof fn law_menu_message_names_entry(app: App, wparam: u64, lparam: u64)
    ensures
        entry_of(app, 0x0111, wparam, lparam) matches Some(id) && id == wparam % 0x1_0000,
        before_entry(app, 0x0111).len() == 0,
{
}

/// The timer of the strip looks at the foreground, heals the strip and takes in new
/// data; that of devices is stopped and asks for a scan.
pub proof fn law_timers(app: App, wparam: u64, lparam: u64)
    ensures
        ({
            let e = strip_effects(app, 0x0113, wparam, lparam);
            &&& wparam == 2 ==> e == seq![Effect::KillDeviceTimer, Effect::RequestRefresh]
            &&& wparam != 2 ==> e == seq![
                Effect::CheckFullscreen,
                Effect::Heal,
                Effect::ProcessDirty,
            ]
            &&& entry_of(app, 0x0113, wparam, lparam) is None
            &&& strip_state(app, 0x0113, wparam) == app
        }),
{
}

/// A change of devices lets a scan follow when it has settled, whether the strip or the
/// helper window hears of it.
pub proof fn law_device_changes_lead_to_scan(app: App, wparam: u64, lparam: u64, dpi: i32)
    ensures
        strip_answer(app, 0x0219) == Some(1i64),
        strip_effects(app, 0x0219, wparam, lparam) == seq![Effect::ArmDeviceTimer],
        helper_answer(app, 0x0219, wparam) == Some(1i64),
        app.hwnd != 0 ==> helper_effects(app, 0x0219, wparam, dpi) == seq![Effect::ArmDeviceTimer],
        app.hwnd == 0 ==> helper_effects(app, 0x0219, wparam, dpi).len() == 0,
{
}

/// New data is taken in once: after it was, it is no longer new.
pub proof fn law_new_data_is_taken_in(app: App, wparam: u64, lparam: u64)
    ensures
        ({
            let e = strip_effects(app, 0x8015, wparam, lparam);
            let after = strip_state(app, 0x8015, wparam);
            &&& !after.dirty
            &&& after == (App { dirty: false, ..app })
            &&& app.dirty ==> e.contains(Effect::Relayout) && e.contains(Effect::UpdateTray)
                && e.contains(Effect::Repaint) && e.last() == Effect::DrainAlerts
            &&& e.contains(Effect::SizePanel) <==> app.dirty && app.panel_hwnd != 0
            &&& !app.dirty ==> e == seq![Effect::Reanchor]
        }),
{
    let e = strip_effects(app, 0x8015, wparam, lparam);
    if app.dirty {
        assert(e[0] == Effect::Relayout && e[1] == Effect::UpdateTray && e[2] == Effect::Repaint);
        let t = e[3];
    } else {
        let t = e[0];
    }
}

/// When the session ends the program agrees, takes its icon off the tray and quits; when
/// the end is called off it goes on.
pub proof fn law_session_end_quits(app: App, wparam: u64, lparam: u64)
    ensures
        strip_answer(app, 0x0011) == Some(1i64),
        strip_effects(app, 0x0011, wparam, lparam).len() == 0,
        strip_state(app, 0x0011, wparam) == app,
        strip_answer(app, 0x0016) == Some(0i64),
        wparam != 0 ==> strip_state(app, 0x0016, wparam) == (App { shutting_down: true, ..app })
            && strip_effects(app, 0x0016, wparam, lparam) == seq![Effect::RemoveTrayIcon],
        wparam == 0 ==> strip_state(app, 0x0016, wparam) == app && strip_effects(
            app,
            0x0016,
            wparam,
            lparam,
        ).len() == 0,
{
}

/// When the taskbar announces itself, or displays or settings change, the strip is
/// healed and laid out. The number of the taskbar's announcement counts only once it is
/// known.
pub proof fn law_taskbar_and_displays_are_heeded(app: App, msg: u32, wparam: u64, lparam: u64)
    requires
        msg == 0x007E || msg == 0x001A || (msg == app.wm_taskbar_created && msg >= 0xC000),
    ensures
        strip_answer(app, msg) == Some(0i64),
        strip_effects(app, msg, wparam, lparam) == seq![Effect::Heal, Effect::Relayout],
        entry_of(app, msg, wparam, lparam) is None,
        strip_state(app, msg, wparam) == app,
        strip_answer(App { wm_taskbar_created: 0, ..app }, 0) is None,
{
}

/// Painting is done by the program, background and all.
pub proof fn law_painting_is_our_own(app: App, wparam: u64, lparam: u64)
    ensures
        strip_answer(app, 0x000F) == Some(0i64),
        strip_effects(app, 0x000F, wparam, lparam) == seq![Effect::Paint],
        strip_answer(app, 0x0014) == Some(1i64),
        strip_effects(app, 0x0014, wparam, lparam).len() == 0,
{
}

/// The helper window rebuilds a lost strip when it is asked to, when its timer runs out,
/// and when the taskbar is back; while a strip is there it keeps that one in place
/// instead.
pub proof fn law_helper_brings_strip_back(app: App, wparam: u64, dpi: i32)
    requires
        app.wm_taskbar_created >= 0xC000,
    ensures
        helper_effects(app, 0x8016, wparam, dpi).contains(Effect::TryRecreate),
        helper_effects(app, 0x0113, 3, dpi).contains(Effect::TryRecreate),
        helper_effects(app, 0x8016, wparam, dpi)[0] == Effect::KillRecreateTimer,
        ({
            let e = helper_effects(app, app.wm_taskbar_created, wparam, dpi);
            &&& app.hwnd == 0 && app.pending_recreate ==> e == seq![Effect::PostRecreate]
            &&& app.hwnd == 0 && !app.pending_recreate ==> e.len() == 0
            &&& app.hwnd != 0 ==> e.contains(Effect::Heal) && e.last() == Effect::Relayout
        }),
{
    assert(helper_effects(app, 0x8016, wparam, dpi)[1] == Effect::TryRecreate);
    assert(helper_effects(app, 0x0113, 3, dpi)[1] == Effect::TryRecreate);
    let e = helper_effects(app, app.wm_taskbar_created, wparam, dpi);
    if app.hwnd != 0 {
        assert(e[0] == Effect::Heal || e[1] == Effect::Heal);
    }
}

/// A change of the DPI makes the fonts anew, and lays the strip out; where the DPI is as
/// before, nothing is made anew. An unknown DPI counts as 96.
pub proof fn law_dpi_changes_are_taken_in(app: App, wparam: u64, dpi: i32)
    requires
        app.hwnd != 0,
        app.wm_taskbar_created != 0x02E0,
    ensures
        ({
            let now = if dpi <= 0 {
                96
            } else {
                dpi
            };
            let e = helper_effects(app, 0x02E0, wparam, dpi);
            &&& now != app.dpi ==> e == seq![Effect::RecreateFonts, Effect::Relayout]
            &&& now == app.dpi ==> e.len() == 0
            &&& new_dpi(dpi) == now
            &&& reads_dpi(app, 0x02E0, wparam)
            &&& reads_dpi(app, 0x007E, wparam)
            &&& !reads_dpi(app, 0x0219, wparam)
            &&& !reads_dpi(App { hwnd: 0, ..app }, 0x02E0, wparam)
            &&& helper_effects(app, 0x007E, wparam, dpi).contains(Effect::RecreateFonts) <==> now
                != app.dpi
        }),
{
    let e = helper_effects(app, 0x007E, wparam, dpi);
    let t = e[0];
    let u = e[1];
}

} // verus!
