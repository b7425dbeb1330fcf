//! The strip window: how it is kept in the taskbar, how it is rebuilt when the
//! taskbar takes it down, and where it stands.

use vstd::prelude::*;

use crate::app;
use crate::app::{App, Effect};
use crate::draw;
use crate::draw::{ItemSize, compute_layout};
use crate::layout;
use crate::layout::{
    Metrics, Rect, StripPlace, Surroundings, desired_placement, max_strip_width,
    should_schedule_rebuild_after_destroy,
};
use crate::model::Device;
use crate::settings;
use crate::text;

verus! {

// --------------------------------------------------------------------- styles

pub const WS_POPUP: u32 = 0x8000_0000;

pub const WS_CHILD: u32 = 0x4000_0000;

pub const WS_EX_TOPMOST: u32 = 0x0000_0008;

/// The extended style of a new strip window: no taskbar button, never active,
/// with a colour key.
pub const STRIP_EX_STYLE: u32 = 0x0808_0080;

/// The style of a strip in the taskbar.
pub fn embedded_style(style: u32) -> (r: u32)
    ensures
        r == (style & !WS_POPUP) | WS_CHILD,
{
    (style & !WS_POPUP) | WS_CHILD
}

/// The style of a strip that floats.
pub fn floating_style(style: u32) -> (r: u32)
    ensures
        r == (style & !WS_CHILD) | WS_POPUP,
{
    (style & !WS_CHILD) | WS_POPUP
}

/// An extended style without the bit that keeps a window above all others.
pub fn not_topmost(ex: u32) -> (r: u32)
    ensures
        r == ex & !WS_EX_TOPMOST,
{
    ex & !WS_EX_TOPMOST
}

/// The strip is never above all others: neither when it is made, nor after it was
/// embedded or detached.
pub proof fn law_strip_is_never_topmost(ex: u32)
    ensures
        STRIP_EX_STYLE & WS_EX_TOPMOST == 0,
        (ex & !WS_EX_TOPMOST) & WS_EX_TOPMOST == 0,
{
    assert(0x0808_0080u32 & 0x0000_0008u32 == 0) by (bit_vector);
    assert((ex & !0x0000_0008u32) & 0x0000_0008u32 == 0) by (bit_vector);
}

/// A strip is a child of the taskbar or floats, never both, and detaching it
/// undoes what embedding did to its style.
pub proof fn law_styles_exclude_each_other(style: u32)
    ensures
        ({
            let e = (style & !WS_POPUP) | WS_CHILD;
            let f = (style & !WS_CHILD) | WS_POPUP;
            &&& e & WS_CHILD == WS_CHILD && e & WS_POPUP == 0
            &&& f & WS_POPUP == WS_POPUP && f & WS_CHILD == 0
            &&& (e & !WS_CHILD) | WS_POPUP == f
        }),
{
    assert(((style & !0x8000_0000u32) | 0x4000_0000u32) & 0x4000_0000u32 == 0x4000_0000u32
        && ((style & !0x8000_0000u32) | 0x4000_0000u32) & 0x8000_0000u32 == 0
        && ((style & !0x4000_0000u32) | 0x8000_0000u32) & 0x8000_0000u32 == 0x8000_0000u32
        && ((style & !0x4000_0000u32) | 0x8000_0000u32) & 0x4000_0000u32 == 0
        && (((style & !0x8000_0000u32) | 0x4000_0000u32) & !0x4000_0000u32) | 0x8000_0000u32
        == (style & !0x4000_0000u32) | 0x8000_0000u32) by (bit_vector);
}

// ------------------------------------------------------------------- embedding

/// The state after looking for the taskbar: `shell` is its window, 0 if there is
/// none.
pub open spec fn healed(app: App, shell: i64, parent_is_shell: bool) -> App {
    if app.hwnd == 0 {
        app
    } else {
        App {
            taskbar_hwnd: shell,
            embedded: app.embedded && shell != 0 && parent_is_shell,
            ..app
        }
    }
}

/// What looking for the taskbar asks for.
pub open spec fn heal_effects(app: App, shell: i64, parent_is_shell: bool) -> Seq<Effect> {
    if app.hwnd == 0 {
        Seq::empty()
    } else if shell == 0 {
        if app.embedded {
            seq![Effect::Unparent, Effect::MakeFloating, Effect::Relayout]
        } else {
            Seq::empty()
        }
    } else if app.embedded && parent_is_shell {
        Seq::empty()
    } else if app.embedded {
        seq![Effect::Unparent, Effect::Embed]
    } else {
        seq![Effect::Embed]
    }
}

/// The state after an attempt to embed the strip, which failed with a code or not.
pub open spec fn embedded_or_not(app: App, shell: i64, failed: Option<u32>) -> App {
    match failed {
        None => App {
            embedded: true,
            taskbar_hwnd: shell,
            fs_hidden: false,
            embed_fail_logged: 0,
            ..app
        },
        Some(code) => App { embed_fail_logged: code, ..app },
    }
}

/// What an attempt to embed the strip asks for.
pub open spec fn embed_effects(app: App, failed: Option<u32>) -> Seq<Effect> {
    if failed is None {
        seq![Effect::Relayout]
    } else if app.is_shown() {
        seq![Effect::MakeFloating, Effect::ShowStrip]
    } else {
        seq![Effect::MakeFloating]
    }
}

impl App {
    /// Keeps the strip in the taskbar. Without a taskbar it floats; a strip with no
    /// parent, or with one that is not the taskbar, is embedded anew.
    pub fn heal_embedding(&mut self, shell: i64, parent_is_shell: bool) -> (r: Vec<Effect>)
        ensures
            *final(self) == healed(*old(self), shell, parent_is_shell),
            r@ == heal_effects(*old(self), shell, parent_is_shell),
    {
        if self.hwnd == 0 {
            return Vec::new();
        }
        let was = self.embedded;
        self.taskbar_hwnd = shell;
        if shell == 0 {
            self.embedded = false;
            if was {
                return vec![Effect::Unparent, Effect::MakeFloating, Effect::Relayout];
            }
            return Vec::new();
        }
        if was && parent_is_shell {
            return Vec::new();
        }
        self.embedded = false;
        if was {
            vec![Effect::Unparent, Effect::Embed]
        } else {
            vec![Effect::Embed]
        }
    }

    /// Takes in whether embedding the strip worked: `failed` is the error's code.
    /// The first result says whether to log it: attempts are many, and only a new
    /// outcome is worth a line.
    pub fn on_embed(&mut self, shell: i64, failed: Option<u32>) -> (r: (bool, Vec<Effect>))
        ensures
            *final(self) == embedded_or_not(*old(self), shell, failed),
            r.0 == (failed matches Some(code) ==> code != old(self).embed_fail_logged),
            r.1@ == embed_effects(*old(self), failed),
    {
        match failed {
            None => {
                self.embedded = true;
                self.taskbar_hwnd = shell;
                self.fs_hidden = false;
                self.embed_fail_logged = 0;
                (true, vec![Effect::Relayout])
            },
            Some(code) => {
                let log = self.embed_fail_logged != code;
                self.embed_fail_logged = code;
                if self.strip_should_show() {
                    (log, vec![Effect::MakeFloating, Effect::ShowStrip])
                } else {
                    (log, vec![Effect::MakeFloating])
                }
            },
        }
    }

    /// Takes the strip out of the topmost windows, if it floats. No window is ever
    /// raised.
    pub fn apply_topmost(&self, _top: bool) -> (r: Vec<Effect>)
        ensures
            r@ == if self.embedded {
                Seq::<Effect>::empty()
            } else {
                seq![Effect::ClearTopmost]
            },
    {
        if self.embedded {
            Vec::new()
        } else {
            vec![Effect::ClearTopmost]
        }
    }
}

// ------------------------------------------------------------------ rebuilding

/// The state after the strip went down with the taskbar.
pub open spec fn orphaned(app: App) -> App {
    App {
        embedded: false,
        taskbar_hwnd: 0,
        overflow_x: (0i32, 0i32),
        panel_hwnd: 0,
        hwnd: 0,
        pending_recreate: true,
        recreate_attempts: 0,
        ..app
    }
}

/// What destroying the panel asks for.
pub open spec fn destroy_panel_effects(panel: i64) -> Seq<Effect> {
    if panel != 0 {
        seq![Effect::DestroyWindow { hwnd: panel }]
    } else {
        Seq::empty()
    }
}

/// What scheduling a rebuilding asks for.
pub open spec fn schedule_effects(helper: i64) -> Seq<Effect> {
    if helper != 0 {
        seq![Effect::PostRecreate]
    } else {
        Seq::empty()
    }
}

/// The state after an attempt to rebuild the strip began.
pub open spec fn attempted(app: App) -> App {
    let needless = app.shutting_down || app.hwnd != 0;
    App {
        pending_recreate: app.pending_recreate && !needless,
        recreating: app.recreating || !needless,
        ..app
    }
}

/// What an attempt to rebuild the strip asks for.
pub open spec fn attempt_effects(app: App) -> Seq<Effect> {
    if app.shutting_down || app.hwnd != 0 || app.recreating {
        Seq::empty()
    } else {
        seq![Effect::CreateStrip]
    }
}

/// What releasing the program's resources asks for.
pub open spec fn teardown_effects(app: App) -> Seq<Effect> {
    seq![Effect::UnregisterRawKeyboard] + (if app.raw_hwnd != 0 {
        seq![Effect::DestroyWindow { hwnd: app.raw_hwnd }]
    } else {
        Seq::empty()
    }) + destroy_panel_effects(app.panel_hwnd) + seq![Effect::StopScans]
}

impl App {
    /// Lets the strip be rebuilt once the present message is done.
    fn schedule_recreate(&mut self) -> (r: Vec<Effect>)
        ensures
            *final(self) == (App { pending_recreate: true, recreate_attempts: 0, ..*old(self) }),
            r@ == schedule_effects(old(self).raw_hwnd),
    {
        self.pending_recreate = true;
        self.recreate_attempts = 0;
        if self.raw_hwnd != 0 {
            vec![Effect::PostRecreate]
        } else {
            Vec::new()
        }
    }

    /// Starts an attempt to rebuild the strip, unless the program quits, a strip is
    /// there or an attempt is under way.
    pub fn try_recreate_strip(&mut self) -> (r: Vec<Effect>)
        ensures
            *final(self) == attempted(*old(self)),
            r@ == attempt_effects(*old(self)),
    {
        if self.shutting_down || self.hwnd != 0 {
            self.pending_recreate = false;
            return Vec::new();
        }
        if self.recreating {
            return Vec::new();
        }
        self.recreating = true;
        vec![Effect::CreateStrip]
    }

    /// Takes in the new strip window, or that it could not be made. The first
    /// result says whether to log that: the first failure in a row, and each tenth.
    pub fn on_strip_created(&mut self, made: Option<i64>) -> (r: (bool, Vec<Effect>))
        ensures
            match made {
                Some(h) => {
                    &&& *final(self) == (App {
                        hwnd: h,
                        recreate_attempts: 0,
                        pending_recreate: false,
                        recreating: false,
                        overflow_x: (0i32, 0i32),
                        ..*old(self)
                    })
                    &&& r.0
                    &&& r.1@ == seq![
                        Effect::WireStrip,
                        Effect::AddTrayIcon,
                        Effect::Relayout,
                        Effect::Heal,
                    ]
                },
                None => {
                    let n = ((old(self).recreate_attempts + 1) % 0x1_0000_0000) as u32;
                    &&& *final(self) == (App {
                        recreate_attempts: n,
                        recreating: false,
                        ..*old(self)
                    })
                    &&& r.0 == (n == 1 || n % 10 == 0)
                    &&& r.1@ == if old(self).raw_hwnd != 0 {
                        seq![Effect::ArmRecreateTimer]
                    } else {
                        Seq::<Effect>::empty()
                    }
                },
            },
    {
        self.recreating = false;
        match made {
            Some(h) => {
                self.recreate_attempts = 0;
                self.pending_recreate = false;
                self.hwnd = h;
                self.overflow_x = (0, 0);
                (
                    true,
                    vec![
                        Effect::WireStrip,
                        Effect::AddTrayIcon,
                        Effect::Relayout,
                        Effect::Heal,
                    ],
                )
            },
            None => {
                let n: u32 = self.recreate_attempts.wrapping_add(1);
                self.recreate_attempts = n;
                let log = n == 1 || n % 10 == 0;
                if self.raw_hwnd != 0 {
                    (log, vec![Effect::ArmRecreateTimer])
                } else {
                    (log, Vec::new())
                }
            },
        }
    }

    /// Destroys the panel, if there is one.
    fn destroy_panel(&mut self) -> (r: Vec<Effect>)
        ensures
            *final(self) == (App { panel_hwnd: 0, ..*old(self) }),
            r@ == destroy_panel_effects(old(self).panel_hwnd),
    {
        let p: i64 = self.panel_hwnd;
        self.panel_hwnd = 0;
        if p != 0 {
            vec![Effect::DestroyWindow { hwnd: p }]
        } else {
            Vec::new()
        }
    }

    /// Releases the helper window, the panel, the poll and the watcher. A second
    /// call finds nothing more to destroy.
    pub fn teardown_resources(&mut self) -> (r: Vec<Effect>)
        ensures
            *final(self) == (App { raw_hwnd: 0, panel_hwnd: 0, ..*old(self) }),
            r@ == teardown_effects(*old(self)),
    {
        let mut out = vec![Effect::UnregisterRawKeyboard];
        let raw: i64 = self.raw_hwnd;
        self.raw_hwnd = 0;
        if raw != 0 {
            out.push(Effect::DestroyWindow { hwnd: raw });
        }
        let mut more = self.destroy_panel();
        out.append(&mut more);
        out.push(Effect::StopScans);
        assert(out@ =~= teardown_effects(*old(self)));
        out
    }

    /// The strip window was destroyed: with the taskbar, or because the program
    /// quits.
    pub fn on_destroyed(&mut self) -> (r: Vec<Effect>)
        ensures
            *final(self) == destroyed(*old(self)),
            r@ == destroyed_effects(*old(self)),
    {
        if should_schedule_rebuild_after_destroy(self.shutting_down, self.embedded) {
            let mut out = vec![Effect::DropTrayIcon { hwnd: self.hwnd }];
            self.embedded = false;
            self.taskbar_hwnd = 0;
            self.overflow_x = (0, 0);
            let mut panel = self.destroy_panel();
            out.append(&mut panel);
            self.hwnd = 0;
            let mut more = self.schedule_recreate();
            out.append(&mut more);
            assert(out@ =~= destroyed_effects(*old(self)));
            return out;
        }
        self.shutting_down = true;
        self.pending_recreate = false;
        let mut out = self.teardown_resources();
        out.push(Effect::PostQuit);
        assert(out@ =~= destroyed_effects(*old(self)));
        out
    }
}

/// The state after the strip window was destroyed.
pub open spec fn destroyed(app: App) -> App {
    if !app.shutting_down && app.embedded {
        orphaned(app)
    } else {
        App {
            shutting_down: true,
            pending_recreate: false,
            raw_hwnd: 0,
            panel_hwnd: 0,
            ..app
        }
    }
}

/// What the destruction of the strip window asks for.
pub open spec fn destroyed_effects(app: App) -> Seq<Effect> {
    if !app.shutting_down && app.embedded {
        seq![Effect::DropTrayIcon { hwnd: app.hwnd }] + destroy_panel_effects(app.panel_hwnd)
            + schedule_effects(app.raw_hwnd)
    } else {
        teardown_effects(app) + seq![Effect::PostQuit]
    }
}

// ------------------------------------------------------------------- placement

/// The devices on the strip.
pub open spec fn strip_devices(app: App) -> Seq<Device> {
    app.snapshot.devices@.filter(|d: Device| app.settings.on_strip(d))
}

/// The scale of the strip.
pub open spec fn scale(app: App) -> Metrics {
    Metrics {
        dpi: if app.dpi <= 0 {
            96
        } else {
            app.dpi
        },
        text_pct: if app.text_pct < settings::MIN_TEXT_PCT {
            settings::MIN_TEXT_PCT as i32
        } else if app.text_pct > settings::MAX_TEXT_PCT {
            settings::MAX_TEXT_PCT as i32
        } else {
            app.text_pct
        },
    }
}

/// Where a strip of some width should stand.
pub open spec fn wanted_place(
    app: App,
    taskbar: Option<(Rect, Option<i32>)>,
    work: Rect,
    width: i32,
) -> StripPlace {
    layout::desired(
        Surroundings { embedded: app.embedded, taskbar, work },
        app.last_place,
        text::same_ignoring_case(app.settings.strip_side@, "left"@),
        width,
        scale(app),
    )
}

/// The width at which an idle strip is checked.
pub open spec fn idle_width(app: App) -> i32 {
    if app.layout.width > 80 {
        app.layout.width
    } else {
        80
    }
}

/// The coordinates are ones that displays have, so that no length overflows.
pub open spec fn is_measurable(
    app: App,
    taskbar: Option<(Rect, Option<i32>)>,
    work: Rect,
) -> bool {
    &&& app.dpi <= 1_000_000
    &&& (Surroundings { embedded: app.embedded, taskbar, work }).is_near()
}

impl App {
    /// Lays the strip out anew: which devices fit, and where it stands. `sizes` are
    /// the measured texts of the devices on the strip. Returns the place, and
    /// whether the strip is to be seen.
    pub fn layout_and_resize(
        &mut self,
        sizes: &Vec<ItemSize>,
        taskbar: Option<(Rect, Option<i32>)>,
        work: Rect,
    ) -> (r: (StripPlace, bool))
        requires
            is_measurable(*old(self), taskbar, work),
            -30_000_000 <= work.right - work.left <= 30_000_000,
            draw::all_sane(sizes@),
            sizes@.len() == strip_devices(*old(self)).len(),
        ensures
            ({
                let m = scale(*old(self));
                let all = strip_devices(*old(self));
                let limit = layout::quotient((work.right - work.left) * 70, 100);
                let n = draw::strip_count(sizes@, limit, m);
                let width = draw::strip_width(sizes@, limit, m);
                &&& final(self).layout.devices@ == all.take(n)
                &&& final(self).layout.overflow == all.len() - n
                &&& final(self).layout.width == width
                &&& final(self).last_place == wanted_place(
                    *old(self),
                    taskbar,
                    work,
                    final(self).layout.width,
                )
                &&& r.0 == final(self).last_place
                &&& r.1 == old(self).is_shown()
            }),
            *final(self) == (App {
                layout: final(self).layout,
                last_place: final(self).last_place,
                ..*old(self)
            }),
    {
        let m = self.metrics();
        assert(m == scale(*self));
        let all = self.visible_devices();
        assert(all@ == strip_devices(*self));
        let limit: i32 = max_strip_width(work);
        let next = compute_layout(&all, sizes, limit, &m);
        let width: i32 = next.width;
        proof {
            layout::lemma_lengths(m, layout::MIN_STRIP_WIDTH as int);
            layout::lemma_lengths(m, 80);
        }
        let dock_left = self.settings.dock_left();
        let s = Surroundings { embedded: self.embedded, taskbar, work };
        let place = desired_placement(&s, self.last_place, dock_left, width, &m);
        self.layout = next;
        self.last_place = place;
        (place, self.strip_should_show())
    }

    /// Checks, with no new data, that the strip stands where it should. A strip in
    /// the taskbar is never covered, so it does not stay hidden for a full-screen
    /// window.
    pub fn reanchor_if_needed(
        &mut self,
        taskbar: Option<(Rect, Option<i32>)>,
        work: Rect,
    ) -> (r: Vec<Effect>)
        requires
            is_measurable(*old(self), taskbar, work),
            layout::is_near(old(self).layout.width),
        ensures
            *final(self) == reanchored(*old(self)),
            r@ == reanchor_effects(
                *old(self),
                wanted_place(*old(self), taskbar, work, idle_width(*old(self))),
            ),
    {
        let mut out: Vec<Effect> = Vec::new();
        if !self.strip_visible {
            return out;
        }
        if self.embedded && self.fs_hidden {
            self.fs_hidden = false;
            out.push(Effect::ShowStrip);
        }
        let width: i32 = if self.layout.width > 80 {
            self.layout.width
        } else {
            80
        };
        let m = self.metrics();
        assert(m == scale(*old(self)));
        let dock_left = self.settings.dock_left();
        let s = Surroundings { embedded: self.embedded, taskbar, work };
        let want = desired_placement(&s, self.last_place, dock_left, width, &m);
        if self.last_place != want {
            out.push(Effect::Relayout);
        }
        assert(out@ =~= reanchor_effects(*old(self), want));
        out
    }

    /// Takes in new data if there is some, or lets the strip be checked.
    pub fn process_dirty_or_reanchor(&mut self) -> (r: Vec<Effect>)
        ensures
            *final(self) == (App { dirty: false, ..*old(self) }),
            r@ == refresh_effects(*old(self)),
    {
        let dirty = self.dirty;
        self.dirty = false;
        if !dirty {
            vec![Effect::Reanchor]
        } else if self.panel_hwnd != 0 {
            vec![
                Effect::Relayout,
                Effect::UpdateTray,
                Effect::Repaint,
                Effect::SizePanel,
                Effect::DrainAlerts,
            ]
        } else {
            vec![Effect::Relayout, Effect::UpdateTray, Effect::Repaint, Effect::DrainAlerts]
        }
    }
}

/// What new data asks for; without any, an idle check.
pub open spec fn refresh_effects(app: App) -> Seq<Effect> {
    if !app.dirty {
        seq![Effect::Reanchor]
    } else if app.panel_hwnd != 0 {
        seq![
            Effect::Relayout,
            Effect::UpdateTray,
            Effect::Repaint,
            Effect::SizePanel,
            Effect::DrainAlerts,
        ]
    } else {
        seq![Effect::Relayout, Effect::UpdateTray, Effect::Repaint, Effect::DrainAlerts]
    }
}

/// The state after an idle check.
pub open spec fn reanchored(app: App) -> App {
    App {
        fs_hidden: app.fs_hidden && !(app.strip_visible && app.embedded),
        ..app
    }
}

/// What an idle check asks for, where the strip should stand at a place.
pub open spec fn reanchor_effects(app: App, want: StripPlace) -> Seq<Effect> {
    if !app.strip_visible {
        Seq::empty()
    } else {
        (if app.embedded && app.fs_hidden {
            seq![Effect::ShowStrip]
        } else {
            Seq::empty()
        }) + (if app.last_place != want {
            seq![Effect::Relayout]
        } else {
            Seq::empty()
        })
    }
}

// ------------------------------------------------------------------------ laws

/// Nothing that happens by itself shows a strip that the user hid, or forgets that
/// it was hidden: neither a look at the foreground, nor healing, nor embedding, nor
/// an idle check, nor the loss of the taskbar.
pub proof fn law_hidden_strip_stays_hidden(
    app: App,
    fs: bool,
    shell: i64,
    parent_is_shell: bool,
    failed: Option<u32>,
    want: StripPlace,
)
    requires
        !app.strip_visible,
    ensures
        !app::autohide_effects(app, fs).contains(Effect::ShowStrip),
        !heal_effects(app, shell, parent_is_shell).contains(Effect::ShowStrip),
        !embed_effects(app, failed).contains(Effect::ShowStrip),
        !reanchor_effects(app, want).contains(Effect::ShowStrip),
        !destroyed_effects(app).contains(Effect::ShowStrip),
        !app::autohidden(app, fs).strip_visible,
        !healed(app, shell, parent_is_shell).strip_visible,
        !embedded_or_not(app, shell, failed).strip_visible,
        !reanchored(app).strip_visible,
        !destroyed(app).strip_visible,
{
}

/// Where the strip is shown outright, it is to be seen.
pub proof fn law_shown_strip_is_wanted(
    app: App,
    fs: bool,
    failed: Option<u32>,
    want: StripPlace,
)
    ensures
        app::autohide_effects(app, fs).contains(Effect::ShowStrip) ==> app::autohidden(
            app,
            fs,
        ).is_shown(),
        embed_effects(app, failed).contains(Effect::ShowStrip) ==> app.is_shown(),
        reanchor_effects(app, want).contains(Effect::ShowStrip) ==> reanchored(app).is_shown(),
{
}

/// A strip in the taskbar is never hidden for a full-screen window: embedding
/// clears that state, and so does an idle check of a strip that the user wants.
pub proof fn law_embedded_strip_is_not_autohidden(app: App, fs: bool, shell: i64)
    ensures
        !embedded_or_not(app, shell, None).fs_hidden,
        app.embedded ==> app::autohidden(app, fs) == app && app::autohide_effects(
            app,
            fs,
        ).len() == 0,
        app.embedded && app.strip_visible ==> !reanchored(app).fs_hidden,
{
}

/// Once embedded, a strip whose taskbar lives is left alone.
pub proof fn law_healing_settles(app: App, shell: i64)
    requires
        shell != 0,
    ensures
        ({
            let e = embedded_or_not(app, shell, None);
            healed(e, shell, true) == e && heal_effects(e, shell, true).len() == 0
        }),
{
}

/// A strip that went down with the taskbar is rebuilt: the program does not quit,
/// and the next attempt makes a new strip window, unless one is just being made.
pub proof fn law_lost_strip_is_rebuilt(app: App)
    requires
        app.embedded,
        !app.shutting_down,
    ensures
        !destroyed(app).shutting_down,
        destroyed(app).pending_recreate,
        !destroyed_effects(app).contains(Effect::PostQuit),
        !app.recreating ==> attempt_effects(destroyed(app)) == seq![Effect::CreateStrip],
{
}

/// A strip that was destroyed because the program quits is not rebuilt.
pub proof fn law_quitting_rebuilds_nothing(app: App)
    requires
        app.shutting_down,
    ensures
        destroyed(app).shutting_down,
        !destroyed(app).pending_recreate,
        destroyed_effects(app).last() == Effect::PostQuit,
        !destroyed_effects(app).contains(Effect::PostRecreate),
        attempt_effects(destroyed(app)).len() == 0,
{
    let e = destroyed_effects(app);
    let t = teardown_effects(app);
    assert(e.last() == Effect::PostQuit);
    assert(!t.contains(Effect::PostRecreate));
    assert forall|i: int| 0 <= i < e.len() implies e[i] != Effect::PostRecreate by {
        if i < t.len() {
            assert(e[i] == t[i]);
        }
    }
}

/// A second release of the resources destroys no window.
pub proof fn law_teardown_is_idempotent(app: App)
    ensures
        teardown_effects(App { raw_hwnd: 0, panel_hwnd: 0, ..app }) =~= seq![
            Effect::UnregisterRawKeyboard,
            Effect::StopScans,
        ],
{
}

/// Without a taskbar the strip floats, and an embedded one is taken out of what it was
/// in; without a strip there is nothing to do.
pub proof fn law_strip_floats_without_taskbar(app: App, parent_is_shell: bool)
    ensures
        app.hwnd != 0 ==> !healed(app, 0, parent_is_shell).embedded && healed(
            app,
            0,
            parent_is_shell,
        ).taskbar_hwnd == 0,
        app.hwnd != 0 && app.embedded ==> heal_effects(app, 0, parent_is_shell) == seq![
            Effect::Unparent,
            Effect::MakeFloating,
            Effect::Relayout,
        ],
        app.hwnd == 0 || !app.embedded ==> heal_effects(app, 0, parent_is_shell).len() == 0,
        app.hwnd == 0 ==> healed(app, 0, parent_is_shell) == app,
{
}

/// A strip that floats, or whose parent is not the taskbar, is embedded as soon as
/// there is a taskbar; until that worked it does not count as embedded.
pub proof fn law_strip_returns_to_taskbar(app: App, shell: i64, parent_is_shell: bool)
    requires
        app.hwnd != 0,
        shell != 0,
    ensures
        ({
            let e = heal_effects(app, shell, parent_is_shell);
            let after = healed(app, shell, parent_is_shell);
            let there = app.embedded && parent_is_shell;
            &&& !there ==> e.len() > 0 && e.last() == Effect::Embed && !after.embedded
            &&& there ==> e.len() == 0 && after.embedded
            &&& e.contains(Effect::Unparent) <==> app.embedded && !parent_is_shell
            &&& after.taskbar_hwnd == shell
        }),
{
    let e = heal_effects(app, shell, parent_is_shell);
    if e.len() > 0 {
        let t = e[0];
    }
    if e.len() > 1 {
        let t = e[1];
    }
}

/// A strip that could not be embedded floats, and is shown if the user wants it and no
/// full-screen window covers it. One that was embedded is laid out.
pub proof fn law_failed_embedding_floats(app: App, shell: i64, code: u32)
    ensures
        embed_effects(app, Some(code))[0] == Effect::MakeFloating,
        embed_effects(app, Some(code)).contains(Effect::ShowStrip) <==> app.strip_visible
            && !app.fs_hidden,
        embed_effects(app, None) == seq![Effect::Relayout],
        embedded_or_not(app, shell, None).embedded,
        embedded_or_not(app, shell, None).taskbar_hwnd == shell,
        embedded_or_not(app, shell, None).embed_fail_logged == 0,
        embedded_or_not(app, shell, Some(code)).embedded == app.embedded,
        embedded_or_not(app, shell, Some(code)).embed_fail_logged == code,
{
    let e = embed_effects(app, Some(code));
    let t = e[0];
    if e.len() > 1 {
        let u = e[1];
    }
}

/// What went down with the strip is forgotten: its window, the panel's, and where the
/// "+n" pill was. The dead window's icon is taken off the tray, the panel is destroyed,
/// and the helper window, if there is one, is told to rebuild the strip. The devices,
/// the settings and what the user wants to see stay.
pub proof fn law_lost_strip_leaves_nothing_behind(app: App)
    requires
        app.embedded,
        !app.shutting_down,
    ensures
        ({
            let after = destroyed(app);
            let e = destroyed_effects(app);
            &&& after.hwnd == 0 && after.panel_hwnd == 0 && after.taskbar_hwnd == 0
            &&& !after.embedded && after.overflow_x == (0i32, 0i32)
            &&& after.recreate_attempts == 0
            &&& after.raw_hwnd == app.raw_hwnd
            &&& after.settings == app.settings && after.snapshot == app.snapshot
            &&& after.strip_visible == app.strip_visible && after.fs_hidden == app.fs_hidden
            &&& e[0] == (Effect::DropTrayIcon { hwnd: app.hwnd })
            &&& app.panel_hwnd != 0 ==> e.contains(Effect::DestroyWindow { hwnd: app.panel_hwnd })
            &&& e.contains(Effect::PostRecreate) <==> app.raw_hwnd != 0
            &&& !e.contains(Effect::StopScans)
        }),
{
    let e = destroyed_effects(app);
    assert(e[0] == (Effect::DropTrayIcon { hwnd: app.hwnd }));
    if e.len() > 1 {
        let t = e[1];
    }
    if e.len() > 2 {
        let t = e[2];
    }
    if app.panel_hwnd != 0 {
        assert(e[1] == (Effect::DestroyWindow { hwnd: app.panel_hwnd }));
    }
    if app.raw_hwnd != 0 {
        assert(e[e.len() - 1] == Effect::PostRecreate);
    }
}

/// A strip that floated, or that is destroyed while the program quits, takes the program
/// with it: scans stop, the helper window and the panel are destroyed.
pub proof fn law_destroyed_strip_quits(app: App)
    requires
        app.shutting_down || !app.embedded,
    ensures
        ({
            let after = destroyed(app);
            let e = destroyed_effects(app);
            &&& after.shutting_down && !after.pending_recreate
            &&& after.raw_hwnd == 0 && after.panel_hwnd == 0
            &&& e.contains(Effect::StopScans) && e.contains(Effect::UnregisterRawKeyboard)
            &&& e.last() == Effect::PostQuit
            &&& app.raw_hwnd != 0 ==> e.contains(Effect::DestroyWindow { hwnd: app.raw_hwnd })
            &&& app.panel_hwnd != 0 ==> e.contains(Effect::DestroyWindow { hwnd: app.panel_hwnd })
        }),
{
    let e = destroyed_effects(app);
    assert(e[0] == Effect::UnregisterRawKeyboard);
    assert(e[e.len() - 2] == Effect::StopScans);
    if app.raw_hwnd != 0 {
        assert(e[1] == (Effect::DestroyWindow { hwnd: app.raw_hwnd }));
    }
    if app.panel_hwnd != 0 {
        assert(e[e.len() - 3] == (Effect::DestroyWindow { hwnd: app.panel_hwnd }));
    }
}

/// A strip window is made only where none is there, none is being made and the program
/// does not quit; an attempt that is under way is noted, and one that is needless ends
/// the waiting.
pub proof fn law_one_strip_at_a_time(app: App)
    ensures
        attempt_effects(app).contains(Effect::CreateStrip) <==> app.hwnd == 0 && !app.recreating
            && !app.shutting_down,
        attempt_effects(app).len() <= 1,
        app.hwnd == 0 && !app.shutting_down ==> attempted(app).recreating,
        app.hwnd == 0 && !app.shutting_down ==> attempted(app).pending_recreate
            == app.pending_recreate,
        app.hwnd != 0 || app.shutting_down ==> !attempted(app).pending_recreate && attempted(
            app,
        ).recreating == app.recreating,
        attempt_effects(attempted(app)).len() == 0,
{
    let e = attempt_effects(app);
    if e.len() > 0 {
        let t = e[0];
    }
}

/// An idle check lays a visible strip out exactly where it does not stand as it should,
/// and shows one in the taskbar that a full-screen window had hidden. A strip that the
/// user hid is let be.
pub proof fn law_idle_check_moves_strip(app: App, want: StripPlace)
    ensures
        ({
            let e = reanchor_effects(app, want);
            &&& e.contains(Effect::Relayout) <==> app.strip_visible && app.last_place != want
            &&& e.contains(Effect::ShowStrip) <==> app.strip_visible && app.embedded
                && app.fs_hidden
            &&& !app.strip_visible ==> reanchored(app) == app
            &&& !app.embedded ==> reanchored(app) == app
        }),
{
    let e = reanchor_effects(app, want);
    if e.len() > 0 {
        let t = e[0];
    }
    if e.len() > 1 {
        let t = e[1];
    }
    if app.strip_visible && app.last_place != want {
        assert(e[e.len() - 1] == Effect::Relayout);
    }
    if app.strip_visible && app.embedded && app.fs_hidden {
        assert(e[0] == Effect::ShowStrip);
    }
}

/// The scale goes by the DPI, 96 where it is unknown, and by the user's text size,
/// brought into its bounds.
pub proof fn law_scale_is_sane(app: App)
    ensures
        scale(app).dpi > 0,
        app.dpi > 0 ==> scale(app).dpi == app.dpi,
        app.dpi <= 0 ==> scale(app).dpi == 96,
        settings::MIN_TEXT_PCT <= scale(app).text_pct <= settings::MAX_TEXT_PCT,
        settings::MIN_TEXT_PCT <= app.text_pct <= settings::MAX_TEXT_PCT ==> scale(app).text_pct
            == app.text_pct,
        app.text_pct < settings::MIN_TEXT_PCT ==> scale(app).text_pct == settings::MIN_TEXT_PCT,
        app.text_pct > settings::MAX_TEXT_PCT ==> scale(app).text_pct == settings::MAX_TEXT_PCT,
        idle_width(app) >= 80 && idle_width(app) >= app.layout.width,
        app.layout.width >= 80 ==> idle_width(app) == app.layout.width,
{
}

/// A device is on the strip exactly if it is one of the snapshot's and the settings put
/// it there, and the order is the snapshot's.
pub proof fn law_strip_has_chosen_devices(app: App, d: Device)
    ensures
        strip_devices(app).contains(d) <==> app.snapshot.devices@.contains(d)
            && app.settings.on_strip(d),
        (forall|i: int|
            0 <= i < app.snapshot.devices@.len() ==> app.settings.on_strip(
                #[trigger] app.snapshot.devices@[i],
            )) ==> strip_devices(app) == app.snapshot.devices@,
{
    let all = app.snapshot.devices@;
    let f = |d: Device| app.settings.on_strip(d);
    if strip_devices(app).contains(d) {
        all.lemma_filter_contains_rev(f, d);
        let i = choose|i: int| 0 <= i < strip_devices(app).len() && strip_devices(app)[i] == d;
        all.lemma_filter_pred(f, i);
    }
    if all.contains(d) && app.settings.on_strip(d) {
        let i = choose|i: int| 0 <= i < all.len() && all[i] == d;
        all.lemma_filter_contains(f, i);
    }
    if forall|i: int| 0 <= i < all.len() ==> app.settings.on_strip(#[trigger] all[i]) {
        lemma_filter_all(all, f);
    }
}

proof fn lemma_filter_all(s: Seq<Device>, f: spec_fn(Device) -> bool)
    requires
        forall|i: int| 0 <= i < s.len() ==> f(#[trigger] s[i]),
    ensures
        s.filter(f) == s,
    decreases s.len(),
{
    reveal(Seq::filter);
    if s.len() > 0 {
        assert forall|i: int| 0 <= i < s.drop_last().len() implies f(
            #[trigger] s.drop_last()[i],
        ) by {
            assert(s.drop_last()[i] == s[i]);
        }
        lemma_filter_all(s.drop_last(), f);
        assert(f(s[s.len() - 1]));
        assert(s.drop_last().push(s.last()) =~= s);
    }
}

/// The strip stands on the side that the settings name, whatever the case of the word:
/// on the left if they say so, and on the right otherwise.
pub proof fn law_strip_stands_on_chosen_side(
    app: App,
    taskbar: Option<(Rect, Option<i32>)>,
    work: Rect,
    width: i32,
)
    requires
        is_measurable(app, taskbar, work),
        layout::is_near(width),
        !app.embedded,
    ensures
        ({
            let p = wanted_place(app, taskbar, work, width);
            let m = scale(app);
            &&& p.w == width && p.y + p.h + m.scaled(6) == work.bottom
            &&& text::same_ignoring_case(app.settings.strip_side@, "left"@) ==> p.x == work.left
                + m.scaled(10)
            &&& !text::same_ignoring_case(app.settings.strip_side@, "left"@) ==> p.x + p.w
                + m.scaled(6) == work.right
        }),
{
    layout::law_strip_stands_where_it_belongs(
        Surroundings { embedded: app.embedded, taskbar, work },
        app.last_place,
        text::same_ignoring_case(app.settings.strip_side@, "left"@),
        width,
        scale(app),
    );
}

} // verus!
