//! Where the strip and its panel stand, what fits on the strip, and what is drawn.

use vstd::prelude::*;

use crate::settings::{MAX_TEXT_PCT, MIN_TEXT_PCT};
use crate::text::same;

verus! {

/// The height of the floating strip.
pub const STRIP_HEIGHT: i32 = 40;

/// The least height and width of the strip in a taskbar.
pub const MIN_STRIP_HEIGHT: i32 = 24;

pub const MIN_STRIP_WIDTH: i32 = 40;

pub const MARGIN_X: i32 = 6;

pub const DOT: i32 = 8;

pub const DOT_GAP: i32 = 6;

pub const NAME_PILL_GAP: i32 = 6;

pub const DEV_GAP: i32 = 16;

pub const PILL_PAD: i32 = 5;

/// The room left for the tray when it cannot be measured.
pub const TASKBAR_RESERVE: i32 = 200;

/// The gap between the strip and the tray.
pub const GAP_TRAY: i32 = 6;

pub const LEFT_INSET: i32 = 10;

/// The room for the "+n" pill.
pub const OVERFLOW_PILL_MIN: i32 = 44;

pub const PANEL_ROW_H: i32 = 26;

pub const PANEL_PAD: i32 = 10;

pub const PANEL_GAP_X: i32 = 12;

pub const BASE_DPI: i32 = 96;

/// The heights of the fonts for names and pills.
pub const NAME_FONT_PT: i32 = 13;

pub const PILL_FONT_PT: i32 = 12;

// ------------------------------------------------------------------- scaling

/// `a / b` rounded towards zero, for positive `b`.
pub open spec fn quotient(a: int, b: int) -> int {
    if a >= 0 {
        a / b
    } else {
        -((-a) / b)
    }
}

/// The scale of everything that is measured: the design is in pixels at 96 DPI.
#[derive(Clone, Copy, Debug, PartialEq, Eq, Structural)]
pub struct Metrics {
    pub dpi: i32,
    /// The user's text size in percent.
    pub text_pct: i32,
}

impl Metrics {
    /// A design length at this DPI, rounded to the nearest pixel.
    pub open spec fn scaled(self, v: int) -> int {
        quotient(v * self.dpi + 48, 96)
    }

    /// A design length at this DPI and text size.
    pub open spec fn text_scaled(self, v: int) -> int {
        quotient(self.scaled(v) * self.text_pct + 50, 100)
    }

    /// The scale is one that displays have, so that no length overflows.
    pub open spec fn is_sane(self) -> bool {
        0 < self.dpi <= 1_000_000 && MIN_TEXT_PCT <= self.text_pct <= MAX_TEXT_PCT
    }

    pub fn new(dpi: i32) -> (r: Self)
        ensures
            r.dpi == if dpi <= 0 {
                96
            } else {
                dpi
            },
            r.text_pct == 100,
    {
        Self::with_text_pct(dpi, 100)
    }

    pub fn with_text_pct(dpi: i32, text_pct: u32) -> (r: Self)
        ensures
            r.dpi == if dpi <= 0 {
                96
            } else {
                dpi
            },
            r.text_pct == if text_pct < MIN_TEXT_PCT {
                MIN_TEXT_PCT
            } else if text_pct > MAX_TEXT_PCT {
                MAX_TEXT_PCT
            } else {
                text_pct
            },
    {
        let pct: u32 = if text_pct < MIN_TEXT_PCT {
            MIN_TEXT_PCT
        } else if text_pct > MAX_TEXT_PCT {
            MAX_TEXT_PCT
        } else {
            text_pct
        };
        Metrics {
            dpi: if dpi <= 0 {
                96
            } else {
                dpi
            },
            text_pct: pct as i32,
        }
    }

    /// Scales a length that has nothing to do with the text size.
    pub fn sc(&self, v: i32) -> (r: i32)
        requires
            i32::MIN <= v * self.dpi,
            v * self.dpi + 48 <= i32::MAX,
        ensures
            r == self.scaled(v as int),
    {
        (v * self.dpi + 48) / 96
    }

    /// Scales a length that goes with the text size.
    pub fn st(&self, v: i32) -> (r: i32)
        requires
            i32::MIN <= v * self.dpi,
            v * self.dpi + 48 <= i32::MAX,
            i32::MIN <= self.scaled(v as int) * self.text_pct,
            self.scaled(v as int) * self.text_pct + 50 <= i32::MAX,
        ensures
            r == self.text_scaled(v as int),
    {
        let d: i32 = self.sc(v) * self.text_pct;
        (d + 50) / 100
    }
}

/// No length of the design overflows at a sane scale.
pub proof fn lemma_lengths(m: Metrics, v: int)
    requires
        m.is_sane(),
        0 <= v <= 200,
    ensures
        0 <= v * m.dpi <= 200_000_000,
        0 <= m.scaled(v) <= 2_100_000,
        0 <= m.scaled(v) * m.text_pct <= 336_000_000,
        0 <= m.text_scaled(v) <= 3_400_000,
{
    assert(0 <= v * m.dpi <= 200_000_000) by (nonlinear_arith)
        requires
            0 <= v <= 200,
            0 < m.dpi <= 1_000_000,
    ;
    let d = m.scaled(v);
    assert(0 <= d * m.text_pct <= 336_000_000) by (nonlinear_arith)
        requires
            0 <= d <= 2_100_000,
            70 <= m.text_pct <= 160,
    ;
}

/// `sc` for the lengths of the design.
pub(crate) fn sc_len(m: &Metrics, v: i32) -> (r: i32)
    requires
        m.is_sane(),
        0 <= v <= 200,
    ensures
        r == m.scaled(v as int),
        0 <= r <= 2_100_000,
{
    proof {
        lemma_lengths(*m, v as int);
    }
    m.sc(v)
}

/// `st` for the lengths of the design.
pub(crate) fn st_len(m: &Metrics, v: i32) -> (r: i32)
    requires
        m.is_sane(),
        0 <= v <= 200,
    ensures
        r == m.text_scaled(v as int),
        0 <= r <= 3_400_000,
{
    proof {
        lemma_lengths(*m, v as int);
    }
    m.st(v)
}

/// The heights of the fonts for names and pills.
pub fn font_heights(m: &Metrics) -> (r: (i32, i32))
    requires
        m.is_sane(),
    ensures
        r.0 == m.text_scaled(NAME_FONT_PT as int),
        r.1 == m.text_scaled(PILL_FONT_PT as int),
{
    (st_len(m, NAME_FONT_PT), st_len(m, PILL_FONT_PT))
}

// ---------------------------------------------------------------- rectangles

/// A rectangle in pixels.
#[derive(Clone, Copy, Debug, PartialEq, Eq, Structural)]
pub struct Rect {
    pub left: i32,
    pub top: i32,
    pub right: i32,
    pub bottom: i32,
}

/// A point in pixels.
#[derive(Clone, Copy, Debug, PartialEq, Eq, Structural)]
pub struct Point {
    pub x: i32,
    pub y: i32,
}

/// A coordinate that arithmetic on positions cannot overflow with.
pub open spec fn is_near(v: i32) -> bool {
    -500_000_000 <= v <= 500_000_000
}

impl Rect {
    /// All coordinates are near.
    pub open spec fn is_near(self) -> bool {
        is_near(self.left) && is_near(self.top) && is_near(self.right) && is_near(self.bottom)
    }

    /// Whether all coordinates are near.
    pub fn near(&self) -> (r: bool)
        ensures
            r == self.is_near(),
    {
        let lo: i32 = -500_000_000;
        let hi: i32 = 500_000_000;
        lo <= self.left && self.left <= hi && lo <= self.top && self.top <= hi && lo <= self.right
            && self.right <= hi && lo <= self.bottom && self.bottom <= hi
    }
}

/// Translates a rectangle on screen into coordinates with their origin at
/// `origin_screen`.
pub fn rect_offset_by(r: Rect, origin_screen: Point) -> (o: Rect)
    requires
        i32::MIN <= r.left - origin_screen.x <= i32::MAX,
        i32::MIN <= r.top - origin_screen.y <= i32::MAX,
        i32::MIN <= r.right - origin_screen.x <= i32::MAX,
        i32::MIN <= r.bottom - origin_screen.y <= i32::MAX,
    ensures
        o.left == r.left - origin_screen.x,
        o.top == r.top - origin_screen.y,
        o.right == r.right - origin_screen.x,
        o.bottom == r.bottom - origin_screen.y,
{
    Rect {
        left: r.left - origin_screen.x,
        top: r.top - origin_screen.y,
        right: r.right - origin_screen.x,
        bottom: r.bottom - origin_screen.y,
    }
}

/// The taskbar in its own coordinates, as a child window needs it: its rectangle and
/// the left edge of the tray. There is none if the taskbar is empty, and no edge if
/// the tray is. `screen_zero` is where the screen's origin lies in the taskbar's
/// coordinates.
pub fn taskbar_client_geometry(window: Rect, tray: Option<Rect>, screen_zero: Point) -> (r: Option<
    (Rect, Option<i32>),
>)
    requires
        window.is_near(),
        tray matches Some(t) ==> t.is_near(),
        is_near(screen_zero.x),
        is_near(screen_zero.y),
    ensures
        r is Some <==> window.left < window.right && window.top < window.bottom,
        r matches Some((tb, edge)) ==> {
            &&& tb.left == window.left + screen_zero.x
            &&& tb.top == window.top + screen_zero.y
            &&& tb.right == window.right + screen_zero.x
            &&& tb.bottom == window.bottom + screen_zero.y
            &&& edge is Some <==> (tray matches Some(t) && t.left < t.right)
            &&& edge matches Some(l) ==> l == tray->0.left + screen_zero.x
        },
{
    if window.right <= window.left || window.bottom <= window.top {
        return None;
    }
    let origin = Point { x: -screen_zero.x, y: -screen_zero.y };
    let edge: Option<i32> = match tray {
        Some(t) => if t.right > t.left {
            Some(t.left - origin.x)
        } else {
            None
        },
        None => None,
    };
    Some((rect_offset_by(window, origin), edge))
}

/// The larger and the smaller of two numbers.
pub open spec fn larger(a: int, b: int) -> int {
    if a >= b {
        a
    } else {
        b
    }
}

pub open spec fn smaller(a: int, b: int) -> int {
    if a <= b {
        a
    } else {
        b
    }
}

pub(crate) fn max(a: i32, b: i32) -> (r: i32)
    ensures
        r == larger(a as int, b as int),
{
    if a >= b {
        a
    } else {
        b
    }
}

pub(crate) fn min(a: i32, b: i32) -> (r: i32)
    ensures
        r == smaller(a as int, b as int),
{
    if a <= b {
        a
    } else {
        b
    }
}

// ----------------------------------------------------------------- placement

/// Where the strip window stands: in taskbar coordinates when it is embedded, on
/// screen when it floats.
#[derive(Clone, Copy, Debug, PartialEq, Eq, Structural)]
pub struct StripPlace {
    pub x: i32,
    pub y: i32,
    pub w: i32,
    pub h: i32,
}

impl Default for StripPlace {
    fn default() -> (r: Self)
        ensures
            r == (StripPlace { x: 0, y: 0, w: 0, h: 0 }),
    {
        StripPlace { x: 0, y: 0, w: 0, h: 0 }
    }
}

/// The width of the strip in a taskbar: as wished, but not below the least width
/// and, above that, not wider than the taskbar.
pub open spec fn placed_width(tb: Rect, width: int, m: Metrics) -> int {
    let least = m.text_scaled(MIN_STRIP_WIDTH as int);
    let room = larger(tb.right - tb.left, 0) - m.scaled(4);
    smaller(larger(width, least), larger(room, least))
}

/// Where the strip ends on the right when it docks there: at the tray, or where
/// the tray is taken to be.
pub open spec fn dock_edge(tb: Rect, tray_left: Option<i32>, m: Metrics) -> int {
    match tray_left {
        Some(l) => if l > tb.left {
            l - m.scaled(GAP_TRAY as int)
        } else {
            tb.right - m.scaled(TASKBAR_RESERVE as int)
        },
        None => tb.right - m.scaled(TASKBAR_RESERVE as int),
    }
}

/// Where the embedded strip stands.
pub open spec fn placed(
    tb: Rect,
    tray_left: Option<i32>,
    dock_left: bool,
    width: int,
    m: Metrics,
) -> (int, int, int, int) {
    let w = placed_width(tb, width, m);
    let max_x = larger(dock_edge(tb, tray_left, m) - w, tb.left + m.scaled(2));
    let x = if dock_left {
        smaller(tb.left + m.scaled(LEFT_INSET as int), max_x)
    } else {
        max_x
    };
    (x, tb.top as int, w, larger(tb.bottom - tb.top, m.scaled(MIN_STRIP_HEIGHT as int)))
}

/// Places the embedded strip: given the taskbar's own client rectangle, the left
/// edge of the tray in the same coordinates, the dock side and the wished width,
/// returns `(x, y, w, h)`. The strip docks next to the tray, clamped to stay
/// inside the taskbar however narrow that is.
pub fn strip_placement_in_taskbar(
    tb_client: Rect,
    tray_left_client: Option<i32>,
    dock_left: bool,
    width: i32,
    m: &Metrics,
) -> (r: (i32, i32, i32, i32))
    requires
        m.is_sane(),
        tb_client.is_near(),
        tray_left_client matches Some(l) ==> is_near(l),
    ensures
        (r.0 as int, r.1 as int, r.2 as int, r.3 as int) == placed(
            tb_client,
            tray_left_client,
            dock_left,
            width as int,
            *m,
        ),
{
    let tb_w: i32 = max(tb_client.right - tb_client.left, 0);
    let tb_h: i32 = max(tb_client.bottom - tb_client.top, sc_len(m, MIN_STRIP_HEIGHT));
    let least: i32 = st_len(m, MIN_STRIP_WIDTH);
    let avail: i32 = max(tb_w - sc_len(m, 4), least);
    let w: i32 = min(max(width, least), avail);
    let edge: i32 = match tray_left_client {
        Some(l) => if l > tb_client.left {
            l - sc_len(m, GAP_TRAY)
        } else {
            tb_client.right - sc_len(m, TASKBAR_RESERVE)
        },
        None => tb_client.right - sc_len(m, TASKBAR_RESERVE),
    };
    let max_x: i32 = max(edge - w, tb_client.left + sc_len(m, 2));
    let x: i32 = if dock_left {
        min(tb_client.left + sc_len(m, LEFT_INSET), max_x)
    } else {
        max_x
    };
    (x, tb_client.top, w, tb_h)
}

/// Places the floating strip at the bottom of the work area, where no taskbar
/// covers it.
pub fn floating_placement(work: Rect, dock_left: bool, width: i32, m: &Metrics) -> (r: StripPlace)
    requires
        m.is_sane(),
        work.is_near(),
        is_near(width),
    ensures
        r.x == if dock_left {
            work.left + m.scaled(LEFT_INSET as int)
        } else {
            work.right - width - m.scaled(6)
        },
        r.y == work.bottom - m.scaled(STRIP_HEIGHT as int) - m.scaled(6),
        r.w == width,
        r.h == m.scaled(STRIP_HEIGHT as int),
{
    let h: i32 = sc_len(m, STRIP_HEIGHT);
    let gap: i32 = sc_len(m, 6);
    let x: i32 = if dock_left {
        work.left + sc_len(m, LEFT_INSET)
    } else {
        work.right - width - gap
    };
    StripPlace { x, y: work.bottom - h - gap, w: width, h }
}

/// What is known when the strip is placed.
#[derive(Clone, Copy, Debug)]
pub struct Surroundings {
    /// The strip is a child of the taskbar.
    pub embedded: bool,
    /// The taskbar's client rectangle and the tray's left edge, if they could be
    /// measured.
    pub taskbar: Option<(Rect, Option<i32>)>,
    /// The work area.
    pub work: Rect,
}

impl Surroundings {
    /// All coordinates are near.
    pub open spec fn is_near(self) -> bool {
        self.work.is_near() && (self.taskbar matches Some(t) ==> t.0.is_near() && (t.1 matches Some(
            l,
        ) ==> is_near(l)))
    }
}

/// Where the strip should stand.
pub open spec fn desired(
    s: Surroundings,
    last: StripPlace,
    dock_left: bool,
    width: i32,
    m: Metrics,
) -> StripPlace {
    if s.embedded {
        match s.taskbar {
            Some((tb, tray)) => {
                let p = placed(tb, tray, dock_left, width as int, m);
                StripPlace { x: p.0 as i32, y: p.1 as i32, w: p.2 as i32, h: p.3 as i32 }
            },
            None => last,
        }
    } else {
        StripPlace {
            x: (if dock_left {
                s.work.left + m.scaled(LEFT_INSET as int)
            } else {
                s.work.right - width - m.scaled(6)
            }) as i32,
            y: (s.work.bottom - m.scaled(STRIP_HEIGHT as int) - m.scaled(6)) as i32,
            w: width,
            h: m.scaled(STRIP_HEIGHT as int) as i32,
        }
    }
}

/// Where the strip should stand: in the taskbar when it is embedded, and where it
/// was if the taskbar cannot be measured; at the edge of the work area otherwise.
pub fn desired_placement(
    s: &Surroundings,
    last: StripPlace,
    dock_left: bool,
    width: i32,
    m: &Metrics,
) -> (r: StripPlace)
    requires
        m.is_sane(),
        s.is_near(),
        is_near(width),
    ensures
        r == desired(*s, last, dock_left, width, *m),
{
    if s.embedded {
        match s.taskbar {
            Some((tb, tray)) => {
                let (x, y, w, h) = strip_placement_in_taskbar(tb, tray, dock_left, width, m);
                StripPlace { x, y, w, h }
            },
            None => last,
        }
    } else {
        floating_placement(s.work, dock_left, width, m)
    }
}

/// The widest strip: 70 % of the work area.
pub fn max_strip_width(work: Rect) -> (r: i32)
    requires
        -30_000_000 <= work.right - work.left <= 30_000_000,
    ensures
        r == quotient((work.right - work.left) * 70, 100),
{
    ((work.right - work.left) * 70) / 100
}

// ---------------------------------------------------------------- visibility

/// Whether the strip window is shown.
#[derive(Clone, Copy, Debug, PartialEq, Eq, Structural)]
pub enum StripVisibility {
    Shown,
    Hidden,
}

/// Decides whether the strip is shown: the user wants it, and no full-screen
/// window suppresses it. Nothing else may show the strip.
pub fn strip_visibility(user_pref_visible: bool, fs_autohidden: bool) -> (r: StripVisibility)
    ensures
        r == if user_pref_visible && !fs_autohidden {
            StripVisibility::Shown
        } else {
            StripVisibility::Hidden
        },
{
    if user_pref_visible && !fs_autohidden {
        StripVisibility::Shown
    } else {
        StripVisibility::Hidden
    }
}

/// Decides what a destroyed strip window means: an embedded strip that was
/// destroyed while the program was not quitting went down with the taskbar, and
/// is to be rebuilt.
pub fn should_schedule_rebuild_after_destroy(shutting_down: bool, was_embedded: bool) -> (r: bool)
    ensures
        r == (!shutting_down && was_embedded),
{
    !shutting_down && was_embedded
}

/// What is known of the window in the foreground.
pub struct Foreground {
    /// It is the strip itself.
    pub own: bool,
    pub iconic: bool,
    pub class: String,
    pub cloaked: bool,
    /// The monitor it is on, if that could be read.
    pub monitor: Option<Rect>,
    pub window: Rect,
}

/// A window class is that of the shell.
pub open spec fn is_shell_class(class: Seq<char>) -> bool {
    class == "Progman"@ || class == "WorkerW"@ || class == "Shell_TrayWnd"@ || class
        == "Shell_SecondaryTrayWnd"@ || class == "XamlExplorerHostIslandWindow"@
}

/// A window covers a monitor, give or take 8 pixels.
pub open spec fn covers(w: Rect, m: Rect) -> bool {
    w.left <= m.left + 8 && w.top <= m.top + 8 && w.right >= m.right - 8 && w.bottom >= m.bottom - 8
}

/// Whether a full-screen window is in the foreground: it covers a whole monitor
/// and is not the shell.
pub fn is_fullscreen_app_active(fg: &Option<Foreground>) -> (r: bool)
    requires
        fg matches Some(f) ==> (f.monitor matches Some(m) ==> m.is_near()),
    ensures
        r == match fg {
            Some(f) => !f.own && !f.iconic && !is_shell_class(f.class@) && !f.cloaked && (
            f.monitor matches Some(m) && covers(f.window, m)),
            None => false,
        },
{
    match fg {
        Some(f) => {
            if f.own || f.iconic {
                return false;
            }
            let c: &str = f.class.as_str();
            if same(c, "Progman") || same(c, "WorkerW") || same(c, "Shell_TrayWnd") || same(
                c,
                "Shell_SecondaryTrayWnd",
            ) || same(c, "XamlExplorerHostIslandWindow") {
                return false;
            }
            if f.cloaked {
                return false;
            }
            match f.monitor {
                Some(m) => {
                    let w: Rect = f.window;
                    w.left <= m.left + 8 && w.top <= m.top + 8 && w.right >= m.right - 8 && w.bottom
                        >= m.bottom - 8
                },
                None => false,
            }
        },
        None => false,
    }
}

// --------------------------------------------------------------------- laws

/// At 96 DPI lengths are as designed, and at 100 % text size they do not change.
pub proof fn law_design_scale_is_identity(v: int)
    requires
        0 <= v,
    ensures
        (Metrics { dpi: 96, text_pct: 100 }).scaled(v) == v,
        (Metrics { dpi: 96, text_pct: 100 }).text_scaled(v) == v,
{
}

/// The text size does not touch the lengths that have nothing to do with it.
pub proof fn law_text_size_leaves_geometry(v: int, dpi: i32, a: i32, b: i32)
    ensures
        (Metrics { dpi, text_pct: a }).scaled(v) == (Metrics { dpi, text_pct: b }).scaled(v),
{
}

/// A longer length stays longer when it is scaled.
pub proof fn law_scaling_is_monotone(m: Metrics, a: int, b: int)
    requires
        m.is_sane(),
        0 <= a <= b,
    ensures
        0 <= m.scaled(a) <= m.scaled(b),
        0 <= m.text_scaled(a) <= m.text_scaled(b),
{
    assert(0 <= a * m.dpi <= b * m.dpi) by (nonlinear_arith)
        requires
            0 <= a <= b,
            0 < m.dpi,
    ;
    let x = m.scaled(a);
    let y = m.scaled(b);
    assert(0 <= x * m.text_pct <= y * m.text_pct) by (nonlinear_arith)
        requires
            0 <= x <= y,
            0 < m.text_pct,
    ;
}

/// The embedded strip stays inside the taskbar, on whichever side it docks and
/// however wide it wants to be, as long as the taskbar has room for the least
/// width and the tray begins no further than one gap beyond its end.
pub proof fn law_strip_stays_in_taskbar(
    tb: Rect,
    tray_left: Option<i32>,
    dock_left: bool,
    width: int,
    m: Metrics,
)
    requires
        m.is_sane(),
        tb.right - tb.left >= m.scaled(2) + m.text_scaled(MIN_STRIP_WIDTH as int),
        tray_left matches Some(l) ==> l <= tb.right + m.scaled(GAP_TRAY as int),
    ensures
        ({
            let p = placed(tb, tray_left, dock_left, width, m);
            &&& tb.left + m.scaled(2) <= p.0
            &&& p.0 + p.2 <= tb.right
            &&& p.2 >= m.text_scaled(MIN_STRIP_WIDTH as int)
            &&& p.3 >= m.scaled(MIN_STRIP_HEIGHT as int)
            &&& p.3 >= tb.bottom - tb.top
        }),
{
    law_scaling_is_monotone(m, 2, 4);
    law_scaling_is_monotone(m, 2, LEFT_INSET as int);
    law_scaling_is_monotone(m, 0, GAP_TRAY as int);
    law_scaling_is_monotone(m, 0, TASKBAR_RESERVE as int);
    law_scaling_is_monotone(m, 0, MIN_STRIP_WIDTH as int);
}

/// A strip that docks on the right ends exactly one gap before the tray, where
/// there is room for it.
pub proof fn law_strip_docks_at_tray(tb: Rect, tray_left: i32, width: int, m: Metrics)
    requires
        m.is_sane(),
        tb.left < tray_left,
        dock_edge(tb, Some(tray_left), m) - placed_width(tb, width, m) >= tb.left + m.scaled(2),
    ensures
        ({
            let p = placed(tb, Some(tray_left), false, width, m);
            p.0 + p.2 + m.scaled(GAP_TRAY as int) == tray_left
        }),
{
}

/// Scaling rounds to the nearest pixel: a length differs from the exact one by half a
/// pixel at most, and by half a pixel more where the text size counts too.
pub proof fn law_scaling_rounds_to_nearest(m: Metrics, v: int)
    requires
        m.is_sane(),
        0 <= v,
    ensures
        -48 <= 96 * m.scaled(v) - v * m.dpi <= 48,
        -50 <= 100 * m.text_scaled(v) - m.scaled(v) * m.text_pct <= 50,
{
    law_scaling_is_monotone(m, 0, v);
    assert(0 <= v * m.dpi) by (nonlinear_arith)
        requires
            0 <= v,
            0 < m.dpi,
    ;
    let x = m.scaled(v);
    assert(0 <= x * m.text_pct) by (nonlinear_arith)
        requires
            0 <= x,
            0 < m.text_pct,
    ;
}

/// The embedded strip is as wide as wished where that is at least 40 design pixels and
/// fits into the taskbar, and as high as the taskbar where that is at least 24. It
/// stands at the top of the taskbar.
pub proof fn law_strip_fills_taskbar(
    tb: Rect,
    tray_left: Option<i32>,
    dock_left: bool,
    width: int,
    m: Metrics,
)
    requires
        m.is_sane(),
    ensures
        ({
            let p = placed(tb, tray_left, dock_left, width, m);
            &&& p.1 == tb.top
            &&& m.text_scaled(40) <= width <= tb.right - tb.left - m.scaled(4) ==> p.2 == width
            &&& p.2 >= m.text_scaled(40)
            &&& width >= m.text_scaled(40) ==> p.2 <= width
            &&& tb.bottom - tb.top >= m.scaled(24) ==> p.3 == tb.bottom - tb.top
            &&& tb.bottom - tb.top < m.scaled(24) ==> p.3 == m.scaled(24)
        }),
{
    law_scaling_is_monotone(m, 0, 4);
    law_scaling_is_monotone(m, 0, 40);
}

/// A strip that docks on the left stands ten design pixels from the edge where there is
/// room, and never further right than one that docks on the right. A tray whose edge is
/// unknown, or no further right than the taskbar's own, is taken to be 200 design pixels
/// wide.
pub proof fn law_strip_docks_on_its_side(
    tb: Rect,
    tray_left: Option<i32>,
    width: int,
    m: Metrics,
)
    requires
        m.is_sane(),
    ensures
        ({
            let l = placed(tb, tray_left, true, width, m);
            let r = placed(tb, tray_left, false, width, m);
            let edge = if tray_left is Some && tray_left->0 > tb.left {
                tray_left->0 - m.scaled(6)
            } else {
                tb.right - m.scaled(200)
            };
            &&& l.0 <= r.0
            &&& l.0 <= tb.left + m.scaled(10)
            &&& (l.1, l.2, l.3) == (r.1, r.2, r.3)
            &&& tb.left + m.scaled(10) + l.2 <= edge ==> l.0 == tb.left + m.scaled(10)
            &&& tb.left + m.scaled(2) + r.2 <= edge ==> r.0 + r.2 == edge
            &&& tb.left + m.scaled(2) + r.2 > edge ==> r.0 == tb.left + m.scaled(2)
        }),
{
    law_scaling_is_monotone(m, 2, 10);
}

/// A strip in a taskbar that cannot be measured stays where it is. One that floats
/// stands six design pixels above the bottom of the work area, 40 high and as wide as
/// wished: ten from its left edge, or six from its right one. The taskbar does not
/// count there, nor where the strip stood before.
pub proof fn law_strip_stands_where_it_belongs(
    s: Surroundings,
    last: StripPlace,
    dock_left: bool,
    width: i32,
    m: Metrics,
)
    requires
        m.is_sane(),
        s.is_near(),
        is_near(width),
    ensures
        ({
            let p = desired(s, last, dock_left, width, m);
            &&& s.embedded && s.taskbar is None ==> p == last
            &&& !s.embedded ==> {
                &&& p.w == width
                &&& p.h == m.scaled(40)
                &&& p.y + p.h + m.scaled(6) == s.work.bottom
                &&& dock_left ==> p.x == s.work.left + m.scaled(10)
                &&& !dock_left ==> p.x + p.w + m.scaled(6) == s.work.right
            }
            &&& s.embedded && s.taskbar is Some ==> {
                let t = s.taskbar->0;
                let q = placed(t.0, t.1, dock_left, width as int, m);
                q.1 == p.y && is_near(p.y) && (p.x == q.0 && p.w == q.2 && p.h == q.3)
            }
        }),
{
    lemma_lengths(m, 6);
    lemma_lengths(m, 10);
    lemma_lengths(m, 40);
    lemma_lengths(m, 2);
    lemma_lengths(m, 4);
    lemma_lengths(m, 24);
    lemma_lengths(m, 200);
}

/// A window that reaches every edge of a monitor covers it, and so does one that is
/// short by at most 8 pixels; one that is shorter on any side does not.
pub proof fn law_covering_allows_eight_pixels(w: Rect, m: Rect)
    ensures
        w.left - m.left <= 8 && w.top - m.top <= 8 && m.right - w.right <= 8 && m.bottom - w.bottom
            <= 8 ==> covers(w, m),
        w.left - m.left > 8 || w.top - m.top > 8 || m.right - w.right > 8 || m.bottom - w.bottom > 8
            ==> !covers(w, m),
{
}

/// The desktop and the taskbars are the shell, and no window of another class is.
pub proof fn law_shell_is_known_by_class(class: Seq<char>)
    ensures
        is_shell_class(class) <==> seq![
            "Progman"@,
            "WorkerW"@,
            "Shell_TrayWnd"@,
            "Shell_SecondaryTrayWnd"@,
            "XamlExplorerHostIslandWindow"@,
        ].contains(class),
{
    let s = seq![
        "Progman"@,
        "WorkerW"@,
        "Shell_TrayWnd"@,
        "Shell_SecondaryTrayWnd"@,
        "XamlExplorerHostIslandWindow"@,
    ];
    assert(s[0] == "Progman"@ && s[1] == "WorkerW"@ && s[2] == "Shell_TrayWnd"@ && s[3]
        == "Shell_SecondaryTrayWnd"@ && s[4] == "XamlExplorerHostIslandWindow"@);
}

} // verus!
