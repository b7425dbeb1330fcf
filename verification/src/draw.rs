//! What fits on the strip, and what is drawn on it and on the panel, given how
//! large the texts are.

use vstd::prelude::*;

use crate::layout;
use crate::layout::{
    DEV_GAP, DOT, DOT_GAP, MARGIN_X, MIN_STRIP_WIDTH, Metrics, NAME_PILL_GAP, OVERFLOW_PILL_MIN,
    PANEL_GAP_X, PANEL_PAD, PANEL_ROW_H, PILL_PAD, Rect, GAP_TRAY, max, min, sc_len, st_len,
};
use crate::model::{Device, Snapshot, clone_devices};
use crate::text;
use crate::text::{owned, push_decimal, push_text};
use crate::theme;
use crate::theme::{CHROMA, Rgb, detect, rgb};

verus! {

/// How large the texts of a device are: its name, and what its pill says.
#[derive(Clone, Copy, Debug)]
pub struct ItemSize {
    pub name_w: i32,
    pub name_h: i32,
    pub pill_w: i32,
    pub pill_h: i32,
}

/// A length that a text can have.
pub open spec fn is_length(v: i32) -> bool {
    0 <= v <= 100_000_000
}

impl ItemSize {
    pub open spec fn is_sane(self) -> bool {
        is_length(self.name_w) && is_length(self.name_h) && is_length(self.pill_w) && is_length(
            self.pill_h,
        )
    }
}

/// All texts have lengths that texts can have.
pub open spec fn all_sane(sizes: Seq<ItemSize>) -> bool {
    forall|i: int| 0 <= i < sizes.len() ==> (#[trigger] sizes[i]).is_sane()
}

// ------------------------------------------------------------ what pills say

/// What a device's pill says.
pub open spec fn pill_label(d: Device) -> Seq<char> {
    match d.battery {
        Some(v) => text::decimal(v as nat) + "%"@,
        None => "--"@,
    }
}

pub fn pill_text(d: &Device) -> (r: String)
    ensures
        r@ == pill_label(*d),
{
    let mut out = String::new();
    match d.battery {
        Some(v) => {
            push_decimal(&mut out, v as u64);
            push_text(&mut out, "%");
        },
        None => push_text(&mut out, "--"),
    }
    assert(out@ =~= pill_label(*d));
    out
}

/// The lowest battery of some devices.
pub open spec fn lowest(devs: Seq<Device>) -> Option<u8>
    decreases devs.len(),
{
    if devs.len() == 0 {
        None
    } else {
        match (lowest(devs.drop_last()), devs.last().battery) {
            (Some(a), Some(b)) => if b < a {
                Some(b)
            } else {
                Some(a)
            },
            (Some(a), None) => Some(a),
            (None, b) => b,
        }
    }
}

/// The lowest battery of a snapshot: what the tray icon shows.
pub fn worst_battery(snap: &Snapshot) -> (r: Option<u8>)
    ensures
        r == lowest(snap.devices@),
{
    let mut low: Option<u8> = None;
    for i in 0..snap.devices.len()
        invariant
            low == lowest(snap.devices@.take(i as int)),
    {
        assert(snap.devices@.take(i + 1).drop_last() =~= snap.devices@.take(i as int));
        low = match (low, snap.devices[i].battery) {
            (Some(a), Some(b)) => if b < a {
                Some(b)
            } else {
                Some(a)
            },
            (Some(a), None) => Some(a),
            (None, b) => b,
        };
    }
    assert(snap.devices@.take(snap.devices@.len() as int) =~= snap.devices@);
    low
}

/// The lowest battery is one of the batteries, and none of them is lower.
pub proof fn law_lowest_battery(devs: Seq<Device>, i: int)
    requires
        0 <= i < devs.len(),
        devs[i].battery is Some,
    ensures
        lowest(devs) is Some,
        lowest(devs)->0 <= devs[i].battery->0,
        exists|j: int| 0 <= j < devs.len() && (#[trigger] devs[j]).battery == lowest(devs),
    decreases devs.len(),
{
    let t = devs.drop_last();
    if i < t.len() {
        law_lowest_battery(t, i);
        let j = choose|j: int| 0 <= j < t.len() && (#[trigger] t[j]).battery == lowest(t);
        if lowest(devs) == lowest(t) {
            assert(devs[j].battery == lowest(devs));
        } else {
            assert(devs[devs.len() - 1].battery == lowest(devs));
        }
    } else {
        if lowest(t) is Some && lowest(devs) == lowest(t) {
            let k = lemma_lowest_is_there(t);
            assert(devs[k].battery == lowest(devs));
        } else {
            assert(devs[devs.len() - 1].battery == lowest(devs));
        }
    }
}

proof fn lemma_lowest_is_there(devs: Seq<Device>) -> (k: int)
    requires
        lowest(devs) is Some,
    ensures
        0 <= k < devs.len(),
        devs[k].battery == lowest(devs),
    decreases devs.len(),
{
    let t = devs.drop_last();
    if lowest(t) is Some && lowest(devs) == lowest(t) {
        lemma_lowest_is_there(t)
    } else {
        devs.len() - 1
    }
}

// ------------------------------------------------------------- what fits

/// How wide a device is on the strip, with the gap before it unless it is the
/// first.
pub open spec fn item_width(i: int, s: ItemSize, m: Metrics) -> int {
    (if i == 0 {
        0
    } else {
        m.text_scaled(DEV_GAP as int)
    }) + m.text_scaled(DOT as int) + m.text_scaled(DOT_GAP as int) + s.name_w + m.text_scaled(
        NAME_PILL_GAP as int,
    ) + s.pill_w + m.text_scaled(PILL_PAD as int) * 2
}

/// How wide the first `n` devices are together.
pub open spec fn row_width(sizes: Seq<ItemSize>, n: int, m: Metrics) -> int
    decreases n,
{
    if n <= 0 {
        0
    } else {
        row_width(sizes, n - 1, m) + item_width(n - 1, sizes[n - 1], m)
    }
}

/// Device `i` fits after the ones before it: with room for the "+n" pill kept
/// free unless it is the last.
pub open spec fn fits(sizes: Seq<ItemSize>, i: int, budget: int, m: Metrics) -> bool {
    row_width(sizes, i + 1, m) + (if i + 1 < sizes.len() {
        m.text_scaled(OVERFLOW_PILL_MIN as int)
    } else {
        0
    }) <= budget
}

/// How many devices are shown: those before the first that does not fit.
pub open spec fn shown_count(sizes: Seq<ItemSize>, from: int, budget: int, m: Metrics) -> int
    decreases sizes.len() - from,
{
    if from < 0 || from >= sizes.len() || !fits(sizes, from, budget, m) {
        from
    } else {
        shown_count(sizes, from + 1, budget, m)
    }
}

/// What the strip shows: the devices that fit, how many do not, and how wide it
/// is.
#[derive(Debug)]
pub struct StripLayout {
    pub devices: Vec<Device>,
    pub overflow: usize,
    pub width: i32,
}

impl Clone for StripLayout {
    fn clone(&self) -> (r: Self)
        ensures
            r.devices@ == self.devices@,
            r.overflow == self.overflow,
            r.width == self.width,
    {
        StripLayout {
            devices: clone_devices(&self.devices),
            overflow: self.overflow,
            width: self.width,
        }
    }
}

impl Default for StripLayout {
    fn default() -> (r: Self)
        ensures
            r.devices@ == Seq::<Device>::empty(),
            r.overflow == 0,
            r.width == 0,
    {
        StripLayout { devices: Vec::new(), overflow: 0, width: 0 }
    }
}

/// The widest that the strip may be.
pub open spec fn width_limit(max_width: int, m: Metrics) -> int {
    layout::larger(max_width, m.text_scaled(MIN_STRIP_WIDTH as int))
}

/// How many devices the strip shows.
pub open spec fn strip_count(sizes: Seq<ItemSize>, max_width: int, m: Metrics) -> int {
    shown_count(
        sizes,
        0,
        width_limit(max_width, m) - m.text_scaled(MARGIN_X as int) * 2,
        m,
    )
}

/// How wide the strip is.
pub open spec fn strip_width(sizes: Seq<ItemSize>, max_width: int, m: Metrics) -> int {
    let k = strip_count(sizes, max_width, m);
    let w = row_width(sizes, k, m) + if k < sizes.len() {
        m.text_scaled(DEV_GAP as int) + m.text_scaled(OVERFLOW_PILL_MIN as int)
    } else {
        0
    };
    layout::smaller(
        layout::larger(w + m.text_scaled(MARGIN_X as int) * 2, m.text_scaled(80)),
        width_limit(max_width, m),
    )
}

/// Lays devices out on the strip, as many as fit in `max_width`. The others are
/// counted, for a "+n" pill that opens the full list.
pub fn compute_layout(
    all: &Vec<Device>,
    sizes: &Vec<ItemSize>,
    max_width: i32,
    m: &Metrics,
) -> (r: StripLayout)
    requires
        all@.len() == sizes@.len(),
        all_sane(sizes@),
        m.is_sane(),
        layout::is_near(max_width),
    ensures
        r.devices@ == all@.take(strip_count(sizes@, max_width as int, *m)),
        r.overflow == all@.len() - strip_count(sizes@, max_width as int, *m),
        r.width == strip_width(sizes@, max_width as int, *m),
{
    let gap: i32 = st_len(m, DEV_GAP);
    let dot: i32 = st_len(m, DOT);
    let dot_gap: i32 = st_len(m, DOT_GAP);
    let pill_gap: i32 = st_len(m, NAME_PILL_GAP);
    let pad: i32 = st_len(m, PILL_PAD);
    let more: i32 = st_len(m, OVERFLOW_PILL_MIN);
    let margin: i32 = st_len(m, MARGIN_X);
    let max_w: i32 = max(max_width, st_len(m, MIN_STRIP_WIDTH));
    let budget: i32 = max_w - margin * 2;
    let mut chosen: Vec<Device> = Vec::new();
    let mut w: i32 = 0;
    let mut i: usize = 0;
    let mut full = false;
    while i < all.len() && !full
        invariant
            all@.len() == sizes@.len(),
            all_sane(sizes@),
            m.is_sane(),
            gap == m.text_scaled(DEV_GAP as int),
            dot == m.text_scaled(DOT as int),
            dot_gap == m.text_scaled(DOT_GAP as int),
            pill_gap == m.text_scaled(NAME_PILL_GAP as int),
            pad == m.text_scaled(PILL_PAD as int),
            more == m.text_scaled(OVERFLOW_PILL_MIN as int),
            0 <= gap <= 3_400_000,
            0 <= dot <= 3_400_000,
            0 <= dot_gap <= 3_400_000,
            0 <= pill_gap <= 3_400_000,
            0 <= pad <= 3_400_000,
            0 <= more <= 3_400_000,
            budget <= 600_000_000,
            i <= all@.len(),
            w == row_width(sizes@, i as int, *m),
            0 <= w <= 600_000_000,
            chosen@ == all@.take(i as int),
            shown_count(sizes@, 0, budget as int, *m) == shown_count(
                sizes@,
                i as int,
                budget as int,
                *m,
            ),
            full ==> i < all@.len() && !fits(sizes@, i as int, budget as int, *m),
        decreases
            all@.len() - i,
            (if full {
                0int
            } else {
                1int
            }),
    {
        let s: ItemSize = sizes[i];
        let before: i32 = if i == 0 {
            0
        } else {
            gap
        };
        let item: i32 = before + dot + dot_gap + s.name_w + pill_gap + s.pill_w + pad * 2;
        let reserve: i32 = if all.len() - i > 1 {
            more
        } else {
            0
        };
        assert(row_width(sizes@, i + 1, *m) == w + item);
        if w + item + reserve > budget {
            full = true;
        } else {
            w = w + item;
            chosen.push(all[i].clone());
            assert(chosen@ =~= all@.take(i + 1));
            i = i + 1;
        }
    }
    let overflow: usize = all.len() - i;
    let total: i32 = if overflow > 0 {
        w + gap + more
    } else {
        w
    };
    StripLayout {
        devices: chosen,
        overflow,
        width: min(max(total + margin * 2, st_len(m, 80)), max_w),
    }
}

/// The strip and its "+n" pill lose no device: the shown ones come first, and the
/// count covers the rest.
pub proof fn law_layout_loses_nothing(sizes: Seq<ItemSize>, max_width: int, m: Metrics)
    ensures
        0 <= strip_count(sizes, max_width, m) <= sizes.len(),
        strip_width(sizes, max_width, m) <= width_limit(max_width, m),
{
    lemma_shown_count(
        sizes,
        0,
        width_limit(max_width, m) - m.text_scaled(MARGIN_X as int) * 2,
        m,
    );
}

/// What is shown fits, with room for the "+n" pill where some device does not.
pub proof fn law_shown_devices_fit(sizes: Seq<ItemSize>, max_width: int, m: Metrics)
    ensures
        ({
            let k = strip_count(sizes, max_width, m);
            let budget = width_limit(max_width, m) - m.text_scaled(MARGIN_X as int) * 2;
            &&& k > 0 ==> fits(sizes, k - 1, budget, m)
            &&& k < sizes.len() ==> !fits(sizes, k, budget, m)
        }),
{
    lemma_shown_count(
        sizes,
        0,
        width_limit(max_width, m) - m.text_scaled(MARGIN_X as int) * 2,
        m,
    );
}

proof fn lemma_shown_count(sizes: Seq<ItemSize>, from: int, budget: int, m: Metrics)
    requires
        0 <= from <= sizes.len(),
    ensures
        from <= shown_count(sizes, from, budget, m) <= sizes.len(),
        shown_count(sizes, from, budget, m) > from ==> fits(
            sizes,
            shown_count(sizes, from, budget, m) - 1,
            budget,
            m,
        ),
        shown_count(sizes, from, budget, m) < sizes.len() ==> !fits(
            sizes,
            shown_count(sizes, from, budget, m),
            budget,
            m,
        ),
    decreases sizes.len() - from,
{
    if from < sizes.len() && fits(sizes, from, budget, m) {
        lemma_shown_count(sizes, from + 1, budget, m);
    }
}

// ------------------------------------------------------------ what is drawn

/// One thing to draw.
#[derive(Debug)]
pub enum DrawOp {
    /// A filled rectangle.
    Fill { rect: Rect, color: Rgb },
    /// A filled ellipse in a rectangle.
    Dot { rect: Rect, color: Rgb },
    /// A text with a halo, in the pill font or the name font.
    Text { x: i32, y: i32, text: String, fg: Rgb, outline: Rgb, pill_font: bool },
}

/// What a `DrawOp` says.
#[verifier::ext_equal]
pub enum OpView {
    Fill { left: int, top: int, right: int, bottom: int, color: Rgb },
    Dot { left: int, top: int, right: int, bottom: int, color: Rgb },
    Text { x: int, y: int, text: Seq<char>, fg: Rgb, outline: Rgb, pill_font: bool },
}

impl View for DrawOp {
    type V = OpView;

    open spec fn view(&self) -> OpView {
        match *self {
            DrawOp::Fill { rect, color } => OpView::Fill {
                left: rect.left as int,
                top: rect.top as int,
                right: rect.right as int,
                bottom: rect.bottom as int,
                color,
            },
            DrawOp::Dot { rect, color } => OpView::Dot {
                left: rect.left as int,
                top: rect.top as int,
                right: rect.right as int,
                bottom: rect.bottom as int,
                color,
            },
            DrawOp::Text { x, y, text, fg, outline, pill_font } => OpView::Text {
                x: x as int,
                y: y as int,
                text: text@,
                fg,
                outline,
                pill_font,
            },
        }
    }
}

/// What each thing to draw says.
pub open spec fn op_views(ops: Seq<DrawOp>) -> Seq<OpView> {
    ops.map_values(|o: DrawOp| o@)
}

/// The colour of a device's dot.
pub open spec fn dot_colour(d: Device, low: u8) -> Rgb {
    let t = theme::overlay_theme();
    if !d.connected {
        t.dot_off
    } else if d.battery matches Some(b) && b <= low {
        t.dot_low
    } else {
        t.dot_ok
    }
}

/// The colours of a pill and of its text: red below the alert level, orange below
/// 50 %, green from there on, grey where the battery is unknown.
pub open spec fn pill_colours(battery: Option<u8>, low: u8) -> (Rgb, Rgb) {
    let t = theme::overlay_theme();
    let white = theme::packed(255, 255, 255);
    match battery {
        Some(v) => if v < low {
            (t.pill_low, white)
        } else if v < 50 {
            (t.pill_mid, white)
        } else {
            (t.pill_ok, white)
        },
        None => (t.pill_off_bg, t.pill_off_fg),
    }
}

/// A pill tells the level by its colour: red below the alert level, orange from there
/// to 49 %, green above both.
pub proof fn law_pill_colour_tells_level(v: u8, low: u8)
    ensures
        ({
            let t = theme::overlay_theme();
            let c = pill_colours(Some(v), low).0;
            &&& c == t.pill_ok <==> v >= 50 && v >= low
            &&& c == t.pill_mid <==> low <= v < 50
            &&& c == t.pill_low <==> v < low
        }),
{
}

fn dot_color(d: &Device, low: u8) -> (r: Rgb)
    ensures
        r == dot_colour(*d, low),
{
    let t = detect();
    if !d.connected {
        return t.dot_off;
    }
    match d.battery {
        Some(b) => if b <= low {
            t.dot_low
        } else {
            t.dot_ok
        },
        None => t.dot_ok,
    }
}

fn pill_colors(battery: Option<u8>, low: u8) -> (r: (Rgb, Rgb))
    ensures
        r == pill_colours(battery, low),
{
    let t = detect();
    let white: Rgb = rgb(255, 255, 255);
    match battery {
        Some(v) => if v < low {
            (t.pill_low, white)
        } else if v < 50 {
            (t.pill_mid, white)
        } else {
            (t.pill_ok, white)
        },
        None => (t.pill_off_bg, t.pill_off_fg),
    }
}

/// A dot of a size, its left edge at `x` and its middle at height `cy`.
pub open spec fn dot_at(x: int, cy: int, size: int, color: Rgb) -> OpView {
    let s = layout::larger(size, 2);
    OpView::Dot { left: x, top: cy - s / 2, right: x + s, bottom: cy + s / 2 + 1, color }
}

/// The background of a pill, its left edge at `x` and its middle at height `cy`.
pub open spec fn pill_at(x: int, cy: int, w: int, h: int, color: Rgb, m: Metrics) -> OpView {
    OpView::Fill {
        left: x,
        top: cy - h / 2 - m.text_scaled(2),
        right: x + w + m.text_scaled(PILL_PAD as int) * 2,
        bottom: cy + h / 2 + m.text_scaled(2),
        color,
    }
}

/// What is drawn for a device: the dot at `x`, the name behind it, and the pill at
/// `pill_x`.
pub open spec fn device_ops(
    d: Device,
    s: ItemSize,
    x: int,
    pill_x: int,
    cy: int,
    low: u8,
    m: Metrics,
) -> Seq<OpView> {
    let t = theme::overlay_theme();
    let colours = pill_colours(d.battery, low);
    seq![
        dot_at(x, cy, m.text_scaled(DOT as int), dot_colour(d, low)),
        OpView::Text {
            x: x + m.text_scaled(DOT as int) + m.text_scaled(DOT_GAP as int),
            y: cy - s.name_h / 2,
            text: d.name@,
            fg: t.fg,
            outline: t.fg_outline,
            pill_font: false,
        },
        pill_at(pill_x, cy, s.pill_w as int, s.pill_h as int, colours.0, m),
        OpView::Text {
            x: pill_x + m.text_scaled(PILL_PAD as int),
            y: cy - s.pill_h / 2,
            text: pill_label(d),
            fg: colours.1,
            outline: t.fg_outline,
            pill_font: true,
        },
    ]
}

/// Where the dot of device `i` stands on the strip.
pub open spec fn strip_x(sizes: Seq<ItemSize>, i: int, m: Metrics) -> int {
    m.text_scaled(MARGIN_X as int) + row_width(sizes, i, m) + if i == 0 {
        0
    } else {
        m.text_scaled(DEV_GAP as int)
    }
}

/// Where the pill of a device with its dot at `x` stands on the strip.
pub open spec fn strip_pill_x(x: int, s: ItemSize, m: Metrics) -> int {
    x + m.text_scaled(DOT as int) + m.text_scaled(DOT_GAP as int) + s.name_w + m.text_scaled(
        NAME_PILL_GAP as int,
    )
}

/// What is drawn for the first `n` devices on the strip.
pub open spec fn strip_ops(
    devs: Seq<Device>,
    sizes: Seq<ItemSize>,
    n: int,
    cy: int,
    low: u8,
    m: Metrics,
) -> Seq<OpView>
    decreases n,
{
    if n <= 0 {
        Seq::empty()
    } else {
        let x = strip_x(sizes, n - 1, m);
        strip_ops(devs, sizes, n - 1, cy, low, m) + device_ops(
            devs[n - 1],
            sizes[n - 1],
            x,
            strip_pill_x(x, sizes[n - 1], m),
            cy,
            low,
            m,
        )
    }
}

/// The whole of a window filled with a colour.
pub open spec fn filled(r: Rect, color: Rgb) -> OpView {
    OpView::Fill {
        left: r.left as int,
        top: r.top as int,
        right: r.right as int,
        bottom: r.bottom as int,
        color,
    }
}

/// What the "+n" pill says.
pub open spec fn overflow_label(n: nat) -> Seq<char> {
    "+"@ + text::decimal(n)
}

/// What the "+n" pill says.
pub fn overflow_text(n: usize) -> (r: String)
    ensures
        r@ == overflow_label(n as nat),
{
    let mut out = String::new();
    push_text(&mut out, "+");
    push_decimal(&mut out, n as u64);
    assert(out@ =~= overflow_label(n as nat));
    out
}

/// What is drawn on the strip: the devices that fit, then a "+n" pill for those
/// that do not. Only without any device does it say so.
pub open spec fn strip_plan(
    devs: Seq<Device>,
    overflow: nat,
    sizes: Seq<ItemSize>,
    empty_h: i32,
    more: (i32, i32),
    client: Rect,
    low: u8,
    m: Metrics,
) -> Seq<OpView> {
    let t = theme::overlay_theme();
    let cy = (client.bottom - client.top) / 2;
    let base = seq![filled(client, CHROMA)];
    let more_x = strip_x(sizes, devs.len() as int, m);
    let rows = base + strip_ops(devs, sizes, devs.len() as int, cy, low, m);
    if overflow > 0 {
        rows.push(pill_at(more_x, cy, more.0 as int, more.1 as int, t.pill_off_bg, m)).push(
            OpView::Text {
                x: more_x + m.text_scaled(PILL_PAD as int),
                y: cy - more.1 / 2,
                text: overflow_label(overflow),
                fg: theme::packed(255, 255, 255),
                outline: t.fg_outline,
                pill_font: true,
            },
        )
    } else if devs.len() == 0 {
        base.push(
            OpView::Text {
                x: m.text_scaled(MARGIN_X as int),
                y: cy - empty_h / 2,
                text: "暂无设备"@,
                fg: t.fg,
                outline: t.fg_outline,
                pill_font: false,
            },
        )
    } else {
        rows
    }
}

/// The left and right edge of the "+n" pill; `(0, 0)` when there is none. It
/// stands where one more device would.
pub open spec fn overflow_zone(
    devs: Seq<Device>,
    overflow: nat,
    sizes: Seq<ItemSize>,
    more: (i32, i32),
    m: Metrics,
) -> (int, int) {
    let x = strip_x(sizes, devs.len() as int, m);
    if overflow == 0 {
        (0, 0)
    } else {
        (x, x + more.0 + m.text_scaled(PILL_PAD as int) * 2)
    }
}

/// What is drawn on the strip, and where its "+n" pill can be clicked.
#[derive(Debug)]
pub struct PaintPlan {
    pub ops: Vec<DrawOp>,
    pub overflow_x: (i32, i32),
}

/// Draws one device.
fn push_device(
    ops: &mut Vec<DrawOp>,
    d: &Device,
    s: ItemSize,
    x: i32,
    pill_x: i32,
    cy: i32,
    low: u8,
    m: &Metrics,
)
    requires
        m.is_sane(),
        s.is_sane(),
        -1_500_000_000 <= x <= 1_500_000_000,
        -1_500_000_000 <= pill_x <= 1_500_000_000,
        -1_500_000_000 <= cy <= 1_500_000_000,
    ensures
        op_views(final(ops)@) == op_views(old(ops)@) + device_ops(
            *d,
            s,
            x as int,
            pill_x as int,
            cy as int,
            low,
            *m,
        ),
{
    let ghost before = ops@;
    let t = detect();
    let dot: i32 = st_len(m, DOT);
    let dot_gap: i32 = st_len(m, DOT_GAP);
    let pad: i32 = st_len(m, PILL_PAD);
    let two: i32 = st_len(m, 2);
    let size: i32 = max(dot, 2);
    let o1 = DrawOp::Dot {
        rect: Rect { left: x, top: cy - size / 2, right: x + size, bottom: cy + size / 2 + 1 },
        color: dot_color(d, low),
    };
    let o2 = DrawOp::Text {
        x: x + dot + dot_gap,
        y: cy - s.name_h / 2,
        text: d.name.clone(),
        fg: t.fg,
        outline: t.fg_outline,
        pill_font: false,
    };
    let (bg, fg) = pill_colors(d.battery, low);
    let o3 = DrawOp::Fill {
        rect: Rect {
            left: pill_x,
            top: cy - s.pill_h / 2 - two,
            right: pill_x + s.pill_w + pad * 2,
            bottom: cy + s.pill_h / 2 + two,
        },
        color: bg,
    };
    let o4 = DrawOp::Text {
        x: pill_x + pad,
        y: cy - s.pill_h / 2,
        text: pill_text(d),
        fg,
        outline: t.fg_outline,
        pill_font: true,
    };
    let ghost want = device_ops(*d, s, x as int, pill_x as int, cy as int, low, *m);
    assert(o1@ =~= want[0] && o2@ =~= want[1] && o3@ =~= want[2] && o4@ =~= want[3]);
    ops.push(o1);
    ops.push(o2);
    ops.push(o3);
    ops.push(o4);
    assert(op_views(ops@) =~= op_views(before) + want);
}

proof fn lemma_row_width(sizes: Seq<ItemSize>, i: int, n: int, m: Metrics)
    requires
        m.is_sane(),
        all_sane(sizes),
        0 <= i <= n <= sizes.len(),
    ensures
        0 <= row_width(sizes, i, m) <= row_width(sizes, n, m),
    decreases n,
{
    layout::lemma_lengths(m, DEV_GAP as int);
    layout::lemma_lengths(m, DOT as int);
    layout::lemma_lengths(m, DOT_GAP as int);
    layout::lemma_lengths(m, NAME_PILL_GAP as int);
    layout::lemma_lengths(m, PILL_PAD as int);
    if i < n {
        lemma_row_width(sizes, i, n - 1, m);
        assert(sizes[n - 1].is_sane());
    } else if n > 0 {
        lemma_row_width(sizes, n - 1, n - 1, m);
        assert(sizes[n - 1].is_sane());
    }
}

/// Plans what is drawn on the strip. `sizes` are those of the laid out devices,
/// `empty_h` is the height of the text for no devices, and `more` the size of the
/// "+n" text.
pub fn paint(
    layout: &StripLayout,
    sizes: &Vec<ItemSize>,
    empty_h: i32,
    more: (i32, i32),
    client: Rect,
    low: u8,
    m: &Metrics,
) -> (r: PaintPlan)
    requires
        m.is_sane(),
        layout.devices@.len() == sizes@.len(),
        all_sane(sizes@),
        is_length(empty_h),
        is_length(more.0),
        is_length(more.1),
        client.is_near(),
        client.top <= client.bottom,
        row_width(sizes@, sizes@.len() as int, *m) <= 1_000_000_000,
    ensures
        op_views(r.ops@) == strip_plan(
            layout.devices@,
            layout.overflow as nat,
            sizes@,
            empty_h,
            more,
            client,
            low,
            *m,
        ),
        (r.overflow_x.0 as int, r.overflow_x.1 as int) == overflow_zone(
            layout.devices@,
            layout.overflow as nat,
            sizes@,
            more,
            *m,
        ),
{
    let t = detect();
    let cy: i32 = (client.bottom - client.top) / 2;
    let margin: i32 = st_len(m, MARGIN_X);
    let mut ops: Vec<DrawOp> = Vec::new();
    ops.push(DrawOp::Fill { rect: client, color: CHROMA });
    let ghost base = seq![filled(client, CHROMA)];
    assert(op_views(ops@) =~= base);
    let n: usize = layout.devices.len();
    if n == 0 && layout.overflow == 0 {
        ops.push(
            DrawOp::Text {
                x: margin,
                y: cy - empty_h / 2,
                text: owned("暂无设备"),
                fg: t.fg,
                outline: t.fg_outline,
                pill_font: false,
            },
        );
        assert(op_views(ops@) =~= strip_plan(
            layout.devices@,
            layout.overflow as nat,
            sizes@,
            empty_h,
            more,
            client,
            low,
            *m,
        ));
        return PaintPlan { ops, overflow_x: (0, 0) };
    }
    let gap: i32 = st_len(m, DEV_GAP);
    let dot: i32 = st_len(m, DOT);
    let dot_gap: i32 = st_len(m, DOT_GAP);
    let pill_gap: i32 = st_len(m, NAME_PILL_GAP);
    let pad: i32 = st_len(m, PILL_PAD);
    let two: i32 = st_len(m, 2);
    let mut w: i32 = 0;
    assert(base + strip_ops(layout.devices@, sizes@, 0, cy as int, low, *m) =~= base);
    for i in 0..n
        invariant
            m.is_sane(),
            n == layout.devices@.len(),
            layout.devices@.len() == sizes@.len(),
            all_sane(sizes@),
            row_width(sizes@, sizes@.len() as int, *m) <= 1_000_000_000,
            0 <= cy <= 1_000_000_000,
            margin == m.text_scaled(MARGIN_X as int),
            gap == m.text_scaled(DEV_GAP as int),
            dot == m.text_scaled(DOT as int),
            dot_gap == m.text_scaled(DOT_GAP as int),
            pill_gap == m.text_scaled(NAME_PILL_GAP as int),
            pad == m.text_scaled(PILL_PAD as int),
            0 <= margin <= 3_400_000,
            0 <= gap <= 3_400_000,
            0 <= dot <= 3_400_000,
            0 <= dot_gap <= 3_400_000,
            0 <= pill_gap <= 3_400_000,
            0 <= pad <= 3_400_000,
            w == row_width(sizes@, i as int, *m),
            0 <= w <= 1_000_000_000,
            op_views(ops@) == base + strip_ops(
                layout.devices@,
                sizes@,
                i as int,
                cy as int,
                low,
                *m,
            ),
    {
        let s: ItemSize = sizes[i];
        proof {
            lemma_row_width(sizes@, i + 1, sizes@.len() as int, *m);
        }
        let before: i32 = if i == 0 {
            0
        } else {
            gap
        };
        let x: i32 = margin + w + before;
        let pill_x: i32 = x + dot + dot_gap + s.name_w + pill_gap;
        let ghost head = op_views(ops@);
        push_device(&mut ops, &layout.devices[i], s, x, pill_x, cy, low, m);
        assert(op_views(ops@) =~= base + strip_ops(
            layout.devices@,
            sizes@,
            i + 1,
            cy as int,
            low,
            *m,
        ));
        w = w + before + dot + dot_gap + s.name_w + pill_gap + s.pill_w + pad * 2;
    }
    if layout.overflow == 0 {
        return PaintPlan { ops, overflow_x: (0, 0) };
    }
    let x: i32 = if n == 0 {
        margin
    } else {
        margin + w + gap
    };
    let label = overflow_text(layout.overflow);
    let right: i32 = x + more.0 + pad * 2;
    let ghost head = op_views(ops@);
    let o1 = DrawOp::Fill {
        rect: Rect {
            left: x,
            top: cy - more.1 / 2 - two,
            right,
            bottom: cy + more.1 / 2 + two,
        },
        color: t.pill_off_bg,
    };
    let o2 = DrawOp::Text {
        x: x + pad,
        y: cy - more.1 / 2,
        text: label,
        fg: rgb(255, 255, 255),
        outline: t.fg_outline,
        pill_font: true,
    };
    let ghost v1 = o1@;
    let ghost v2 = o2@;
    ops.push(o1);
    ops.push(o2);
    assert(op_views(ops@) =~= head.push(v1).push(v2));
    PaintPlan { ops, overflow_x: (x, right) }
}

/// A device begins on the strip where the pill of the one before it ends, one gap
/// further on; and so does the "+n" pill.
pub proof fn law_devices_do_not_overlap(sizes: Seq<ItemSize>, i: int, m: Metrics)
    requires
        0 <= i < sizes.len(),
    ensures
        ({
            let pill_end = strip_pill_x(strip_x(sizes, i, m), sizes[i], m) + sizes[i].pill_w
                + m.text_scaled(PILL_PAD as int) * 2;
            &&& strip_x(sizes, i + 1, m) == pill_end + m.text_scaled(DEV_GAP as int)
            &&& pill_end == m.text_scaled(MARGIN_X as int) + row_width(sizes, i + 1, m)
        }),
{
}

/// Devices that do not fit can always be reached: whenever there are any, even if
/// no device fits, the strip ends with a pill that says how many they are, and the
/// pill is what a click must hit to open the full list. (At the smallest scales its
/// padding rounds to nothing, and it has a width only if its text has one.)
pub proof fn law_overflow_can_be_opened(
    devs: Seq<Device>,
    overflow: nat,
    sizes: Seq<ItemSize>,
    empty_h: i32,
    more: (i32, i32),
    client: Rect,
    low: u8,
    m: Metrics,
)
    requires
        m.is_sane(),
        is_length(more.0),
        more.0 > 0 || m.text_scaled(PILL_PAD as int) > 0,
    ensures
        ({
            let zone = overflow_zone(devs, overflow, sizes, more, m);
            let plan = strip_plan(devs, overflow, sizes, empty_h, more, client, low, m);
            &&& overflow > 0 <==> zone.0 < zone.1
            &&& overflow > 0 ==> {
                &&& plan.len() >= 2
                &&& plan[plan.len() - 2] matches OpView::Fill { left, right, .. } && left == zone.0
                    && right == zone.1
                &&& plan.last() matches OpView::Text { x, text, .. } && zone.0 <= x <= zone.1
                    && text == overflow_label(overflow)
            }
        }),
{
    layout::lemma_lengths(m, PILL_PAD as int);
}

/// No device is cut off: each has its place on the strip, or there is a pill that
/// opens the list that has it.
pub proof fn law_no_device_is_cut_off(
    all: Seq<Device>,
    sizes: Seq<ItemSize>,
    max_width: int,
    more: (i32, i32),
    m: Metrics,
    i: int,
)
    requires
        all.len() == sizes.len(),
        0 <= i < all.len(),
        m.is_sane(),
        is_length(more.0),
        more.0 > 0 || m.text_scaled(PILL_PAD as int) > 0,
    ensures
        ({
            let n = strip_count(sizes, max_width, m);
            let zone = overflow_zone(
                all.take(n),
                (all.len() - n) as nat,
                sizes.take(n),
                more,
                m,
            );
            ||| i < all.take(n).len() && all.take(n)[i] == all[i]
            ||| zone.0 < zone.1
        }),
{
    law_layout_loses_nothing(sizes, max_width, m);
    layout::lemma_lengths(m, PILL_PAD as int);
}

/// What a click on the strip means.
#[derive(Clone, Copy, Debug, PartialEq, Eq, Structural)]
pub enum ClickTarget {
    /// The "+n" pill.
    More,
    /// Anything else.
    Strip,
}

/// What was clicked, given the edges of the "+n" pill.
pub fn click_target(x: i32, overflow_x: (i32, i32)) -> (r: ClickTarget)
    ensures
        r == if overflow_x.0 <= x && x < overflow_x.1 {
            ClickTarget::More
        } else {
            ClickTarget::Strip
        },
{
    if overflow_x.1 > overflow_x.0 && x >= overflow_x.0 && x < overflow_x.1 {
        ClickTarget::More
    } else {
        ClickTarget::Strip
    }
}

// ---------------------------------------------------------------- the panel

/// The widest name, and the widest pill with its padding, of the first `n`
/// devices.
pub open spec fn widest_name(sizes: Seq<ItemSize>, n: int, m: Metrics) -> int
    decreases n,
{
    if n <= 0 {
        m.text_scaled(60)
    } else {
        layout::larger(widest_name(sizes, n - 1, m), sizes[n - 1].name_w as int)
    }
}

pub open spec fn widest_pill(sizes: Seq<ItemSize>, n: int, m: Metrics) -> int
    decreases n,
{
    if n <= 0 {
        m.text_scaled(40)
    } else {
        layout::larger(
            widest_pill(sizes, n - 1, m),
            sizes[n - 1].pill_w + m.text_scaled(PILL_PAD as int) * 2,
        )
    }
}

/// How wide the panel is.
pub open spec fn panel_width(sizes: Seq<ItemSize>, m: Metrics) -> int {
    m.text_scaled(MARGIN_X as int) * 2 + m.text_scaled(DOT as int) + m.text_scaled(DOT_GAP as int)
        + widest_name(sizes, sizes.len() as int, m) + m.text_scaled(PANEL_GAP_X as int)
        + widest_pill(sizes, sizes.len() as int, m)
}

/// How high the panel is: room for one row at least, and no higher than the work
/// area, so that no row ends up off screen.
pub open spec fn panel_height(rows: nat, work: Rect, m: Metrics) -> int {
    let h = (if rows == 0 {
        1int
    } else {
        rows as int
    }) * m.text_scaled(PANEL_ROW_H as int) + m.text_scaled(PANEL_PAD as int) * 2;
    if work.bottom > work.top {
        layout::smaller(h, work.bottom - work.top - m.scaled(16))
    } else {
        h
    }
}

/// The rows of a panel fit in pixel arithmetic.
pub open spec fn rows_fit(rows: nat, m: Metrics) -> bool {
    rows <= 1_000_000 && rows * m.text_scaled(PANEL_ROW_H as int) <= 1_000_000_000
}

/// How large the panel is.
pub fn measure_panel(sizes: &Vec<ItemSize>, work: Rect, m: &Metrics) -> (r: (i32, i32))
    requires
        m.is_sane(),
        all_sane(sizes@),
        rows_fit(sizes@.len(), *m),
        work.is_near(),
    ensures
        r.0 == panel_width(sizes@, *m),
        r.1 == panel_height(sizes@.len(), work, *m),
{
    let pad: i32 = st_len(m, PILL_PAD);
    let mut name_w: i32 = st_len(m, 60);
    let mut pill_w: i32 = st_len(m, 40);
    for i in 0..sizes.len()
        invariant
            all_sane(sizes@),
            pad == m.text_scaled(PILL_PAD as int),
            0 <= pad <= 3_400_000,
            name_w == widest_name(sizes@, i as int, *m),
            pill_w == widest_pill(sizes@, i as int, *m),
            0 <= name_w <= 200_000_000,
            0 <= pill_w <= 200_000_000,
    {
        let s: ItemSize = sizes[i];
        name_w = max(name_w, s.name_w);
        pill_w = max(pill_w, s.pill_w + pad * 2);
    }
    let rows: i32 = if sizes.len() == 0 {
        1
    } else {
        sizes.len() as i32
    };
    let row_h: i32 = st_len(m, PANEL_ROW_H);
    assert(0 <= rows * row_h <= 1_000_000_000) by {
        assert(0 <= rows * row_h) by (nonlinear_arith)
            requires
                rows >= 0,
                row_h >= 0,
        ;
        if sizes@.len() == 0 {
            assert(rows * row_h == row_h);
        }
    }
    let mut h: i32 = rows * row_h + st_len(m, PANEL_PAD) * 2;
    if work.bottom > work.top {
        h = min(h, work.bottom - work.top - sc_len(m, 16));
    }
    (
        st_len(m, MARGIN_X) * 2 + st_len(m, DOT) + st_len(m, DOT_GAP) + name_w + st_len(
            m,
            PANEL_GAP_X,
        ) + pill_w,
        h,
    )
}

/// Where the panel stands: above the strip, its right edges lined up; below it
/// where there is no room above.
pub open spec fn panel_place(strip: Rect, work: Rect, w: int, h: int, m: Metrics) -> (int, int) {
    let gap = m.scaled(GAP_TRAY as int);
    let above = strip.top - h - gap;
    (
        layout::larger(strip.right - w - 2, work.left + 4),
        if above < work.top {
            layout::smaller(strip.bottom + gap, work.bottom - h - 4)
        } else {
            above
        },
    )
}

/// Places the panel, given the strip on screen and the work area.
pub fn place_panel(strip: Rect, work: Rect, w: i32, h: i32, m: &Metrics) -> (r: (i32, i32))
    requires
        m.is_sane(),
        strip.is_near(),
        work.is_near(),
        -1_100_000_000 <= w <= 1_100_000_000,
        -1_100_000_000 <= h <= 1_100_000_000,
    ensures
        (r.0 as int, r.1 as int) == panel_place(strip, work, w as int, h as int, *m),
{
    let gap: i32 = sc_len(m, GAP_TRAY);
    let x: i32 = max(strip.right - w - 2, work.left + 4);
    let above: i32 = strip.top - h - gap;
    let y: i32 = if above < work.top {
        min(strip.bottom + gap, work.bottom - h - 4)
    } else {
        above
    };
    (x, y)
}

/// What is drawn for the first `n` devices on the panel.
pub open spec fn panel_ops(
    devs: Seq<Device>,
    sizes: Seq<ItemSize>,
    n: int,
    right: int,
    low: u8,
    m: Metrics,
) -> Seq<OpView>
    decreases n,
{
    if n <= 0 {
        Seq::empty()
    } else {
        let s = sizes[n - 1];
        let cy = m.text_scaled(PANEL_PAD as int) + (n - 1) * m.text_scaled(PANEL_ROW_H as int)
            + m.text_scaled(PANEL_ROW_H as int) / 2;
        let pill_x = right - m.text_scaled(MARGIN_X as int) * 2 - s.pill_w - m.text_scaled(
            PILL_PAD as int,
        ) * 2;
        panel_ops(devs, sizes, n - 1, right, low, m) + device_ops(
            devs[n - 1],
            s,
            m.text_scaled(MARGIN_X as int),
            pill_x,
            cy,
            low,
            m,
        )
    }
}

/// What is drawn on the panel: a dark card, and a row for each device.
pub open spec fn panel_plan(
    devs: Seq<Device>,
    sizes: Seq<ItemSize>,
    client: Rect,
    low: u8,
    m: Metrics,
) -> Seq<OpView> {
    let card = OpView::Fill {
        left: 0,
        top: 0,
        right: client.right as int,
        bottom: client.bottom as int,
        color: theme::packed(0x20, 0x22, 0x28),
    };
    seq![filled(client, CHROMA), card] + panel_ops(
        devs,
        sizes,
        devs.len() as int,
        client.right as int,
        low,
        m,
    )
}

/// Plans what is drawn on the panel.
pub fn paint_panel(
    devs: &Vec<Device>,
    sizes: &Vec<ItemSize>,
    client: Rect,
    low: u8,
    m: &Metrics,
) -> (r: Vec<DrawOp>)
    requires
        m.is_sane(),
        devs@.len() == sizes@.len(),
        all_sane(sizes@),
        rows_fit(sizes@.len(), *m),
        client.is_near(),
    ensures
        op_views(r@) == panel_plan(devs@, sizes@, client, low, *m),
{
    let mut ops: Vec<DrawOp> = Vec::new();
    ops.push(DrawOp::Fill { rect: client, color: CHROMA });
    ops.push(
        DrawOp::Fill {
            rect: Rect { left: 0, top: 0, right: client.right, bottom: client.bottom },
            color: rgb(0x20, 0x22, 0x28),
        },
    );
    let ghost base = op_views(ops@);
    let margin: i32 = st_len(m, MARGIN_X);
    let pad: i32 = st_len(m, PILL_PAD);
    let top: i32 = st_len(m, PANEL_PAD);
    let row_h: i32 = st_len(m, PANEL_ROW_H);
    let n: usize = devs.len();
    let right: i32 = client.right;
    assert(base + panel_ops(devs@, sizes@, 0, right as int, low, *m) =~= base);
    for i in 0..n
        invariant
            m.is_sane(),
            n == devs@.len(),
            devs@.len() == sizes@.len(),
            all_sane(sizes@),
            rows_fit(sizes@.len(), *m),
            layout::is_near(right),
            margin == m.text_scaled(MARGIN_X as int),
            pad == m.text_scaled(PILL_PAD as int),
            top == m.text_scaled(PANEL_PAD as int),
            row_h == m.text_scaled(PANEL_ROW_H as int),
            0 <= margin <= 3_400_000,
            0 <= pad <= 3_400_000,
            0 <= top <= 3_400_000,
            0 <= row_h <= 3_400_000,
            op_views(ops@) == base + panel_ops(devs@, sizes@, i as int, right as int, low, *m),
    {
        let s: ItemSize = sizes[i];
        let k: i32 = i as i32;
        assert(0 <= k * row_h <= 1_000_000_000) by (nonlinear_arith)
            requires
                0 <= k < sizes@.len(),
                0 <= row_h,
                sizes@.len() * row_h <= 1_000_000_000,
        ;
        let cy: i32 = top + k * row_h + row_h / 2;
        let pill_x: i32 = right - margin * 2 - s.pill_w - pad * 2;
        let ghost head = op_views(ops@);
        push_device(&mut ops, &devs[i], s, margin, pill_x, cy, low, m);
        assert(op_views(ops@) =~= base + panel_ops(
            devs@,
            sizes@,
            i + 1,
            right as int,
            low,
            *m,
        ));
    }
    assert(op_views(ops@) =~= panel_plan(devs@, sizes@, client, low, *m));
    ops
}

/// The panel is no higher than the work area.
pub proof fn law_panel_stays_on_screen(rows: nat, work: Rect, m: Metrics)
    requires
        m.is_sane(),
        work.top < work.bottom,
    ensures
        panel_height(rows, work, m) <= work.bottom - work.top,
{
    layout::lemma_lengths(m, 16);
}

proof fn lemma_strip_ops(
    devs: Seq<Device>,
    sizes: Seq<ItemSize>,
    n: int,
    i: int,
    cy: int,
    low: u8,
    m: Metrics,
)
    requires
        0 <= i < n,
    ensures
        strip_ops(devs, sizes, n, cy, low, m).len() == 4 * n,
        ({
            let x = strip_x(sizes, i, m);
            strip_ops(devs, sizes, n, cy, low, m).subrange(4 * i, 4 * i + 4) == device_ops(
                devs[i],
                sizes[i],
                x,
                strip_pill_x(x, sizes[i], m),
                cy,
                low,
                m,
            )
        }),
    decreases n,
{
    let all = strip_ops(devs, sizes, n, cy, low, m);
    let front = strip_ops(devs, sizes, n - 1, cy, low, m);
    if i < n - 1 {
        lemma_strip_ops(devs, sizes, n - 1, i, cy, low, m);
        assert(all.subrange(4 * i, 4 * i + 4) =~= front.subrange(4 * i, 4 * i + 4));
    } else {
        if n > 1 {
            lemma_strip_ops(devs, sizes, n - 1, 0, cy, low, m);
        }
        assert(front.len() == 4 * (n - 1));
        let x = strip_x(sizes, i, m);
        assert(all.subrange(4 * i, 4 * i + 4) =~= device_ops(
            devs[i],
            sizes[i],
            x,
            strip_pill_x(x, sizes[i], m),
            cy,
            low,
            m,
        ));
    }
}

/// Four things are drawn one after the other for a device: a dot that tells whether it
/// is connected and whether its battery is at or below the alert level, its name behind
/// the dot, and a pill of the width of its text that says the percentage, or two dashes
/// where the battery is unknown. All of them stand at one height.
pub open spec fn shows_device(
    ops: Seq<OpView>,
    k: int,
    d: Device,
    s: ItemSize,
    cy: int,
    low: u8,
    m: Metrics,
) -> bool {
    let t = theme::overlay_theme();
    &&& 0 <= k && k + 4 <= ops.len()
    &&& ops[k] matches OpView::Dot { left: dot_left, right: dot_right, top, bottom, color }
    &&& color == t.dot_off <==> !d.connected
    &&& color == t.dot_low <==> d.connected && d.battery is Some && d.battery->0 <= low
    &&& color == t.dot_ok <==> d.connected && (d.battery is Some ==> d.battery->0 > low)
    &&& dot_left < dot_right
    &&& top <= cy < bottom
    &&& ops[k + 1] matches OpView::Text { x: name_x, y: name_y, text: name, pill_font: false, .. }
    &&& name == d.name@
    &&& name_y == cy - s.name_h as int / 2
    &&& name_x == dot_left + m.text_scaled(8) + m.text_scaled(6)
    &&& ops[k + 2] matches OpView::Fill { left, right, top: p_top, bottom: p_bottom, color: back }
    &&& right - left == s.pill_w + 2 * m.text_scaled(5)
    &&& p_top <= cy <= p_bottom
    &&& d.battery is None ==> back == t.pill_off_bg
    &&& d.battery matches Some(v) ==> back == (if v < low {
        t.pill_low
    } else if v < 50 {
        t.pill_mid
    } else {
        t.pill_ok
    })
    &&& ops[k + 3] matches OpView::Text { x: pill_x, y: pill_y, text: label, pill_font: true, .. }
    &&& pill_x == left + m.text_scaled(5)
    &&& pill_y == cy - s.pill_h as int / 2
    &&& d.battery is None ==> label == seq!['-', '-']
    &&& d.battery matches Some(v) ==> label == text::decimal(v as nat).push('%')
}

proof fn lemma_device_is_shown(
    ops: Seq<OpView>,
    k: int,
    d: Device,
    s: ItemSize,
    x: int,
    pill_x: int,
    cy: int,
    low: u8,
    m: Metrics,
)
    requires
        m.is_sane(),
        s.is_sane(),
        0 <= k,
        k + 4 <= ops.len(),
        ops.subrange(k, k + 4) == device_ops(d, s, x, pill_x, cy, low, m),
    ensures
        shows_device(ops, k, d, s, cy, low, m),
        ops[k]->Dot_left == x,
        ops[k + 2]->Fill_left == pill_x,
{
    reveal_strlit("--");
    reveal_strlit("%");
    layout::lemma_lengths(m, 2);
    let four = ops.subrange(k, k + 4);
    assert(four[0] == ops[k] && four[1] == ops[k + 1] && four[2] == ops[k + 2] && four[3] == ops[k
        + 3]);
    assert("--"@ =~= seq!['-', '-']);
    if let Some(v) = d.battery {
        assert(text::decimal(v as nat) + "%"@ =~= text::decimal(v as nat).push('%'));
    }
}

/// Each device on the strip is drawn there, in order, and nothing else is but the
/// background and, where devices are left out, the "+n" pill.
pub proof fn law_devices_on_strip_are_drawn(
    devs: Seq<Device>,
    overflow: nat,
    sizes: Seq<ItemSize>,
    empty_h: i32,
    more: (i32, i32),
    client: Rect,
    low: u8,
    m: Metrics,
    i: int,
)
    requires
        m.is_sane(),
        all_sane(sizes),
        sizes.len() == devs.len(),
        0 <= i < devs.len(),
    ensures
        ({
            let plan = strip_plan(devs, overflow, sizes, empty_h, more, client, low, m);
            let cy = (client.bottom - client.top) / 2;
            &&& shows_device(plan, 1 + 4 * i, devs[i], sizes[i], cy, low, m)
            &&& plan[1 + 4 * i + 2]->Fill_left == plan[1 + 4 * i + 1]->Text_x + sizes[i].name_w
                + m.text_scaled(6)
            &&& plan.len() == 1 + 4 * devs.len() + if overflow > 0 {
                2int
            } else {
                0
            }
            &&& i > 0 ==> plan[1 + 4 * i]->Dot_left == plan[4 * i - 1]->Fill_right
                + m.text_scaled(16)
        }),
{
    let n = devs.len() as int;
    let plan = strip_plan(devs, overflow, sizes, empty_h, more, client, low, m);
    let cy = (client.bottom - client.top) / 2;
    let ops = strip_ops(devs, sizes, n, cy, low, m);
    lemma_strip_ops(devs, sizes, n, i, cy, low, m);
    let k = 1 + 4 * i;
    let x = strip_x(sizes, i, m);
    assert(plan.subrange(k, k + 4) =~= ops.subrange(4 * i, 4 * i + 4));
    lemma_device_is_shown(
        plan,
        k,
        devs[i],
        sizes[i],
        x,
        strip_pill_x(x, sizes[i], m),
        cy,
        low,
        m,
    );
    if i > 0 {
        let j = i - 1;
        let y = strip_x(sizes, j, m);
        lemma_strip_ops(devs, sizes, n, j, cy, low, m);
        assert(plan.subrange(k - 4, k) =~= ops.subrange(4 * j, 4 * j + 4));
        lemma_device_is_shown(
            plan,
            k - 4,
            devs[j],
            sizes[j],
            y,
            strip_pill_x(y, sizes[j], m),
            cy,
            low,
            m,
        );
        law_devices_do_not_overlap(sizes, j, m);
    }
}

/// Only a strip without any device, shown or left out, says that there is none, and it
/// says nothing else.
pub proof fn law_empty_strip_says_so(
    devs: Seq<Device>,
    overflow: nat,
    sizes: Seq<ItemSize>,
    empty_h: i32,
    more: (i32, i32),
    client: Rect,
    low: u8,
    m: Metrics,
)
    requires
        devs.len() == 0,
    ensures
        ({
            let plan = strip_plan(devs, overflow, sizes, empty_h, more, client, low, m);
            let cy = (client.bottom - client.top) / 2;
            &&& overflow == 0 ==> plan.len() == 2 && (plan[1] matches OpView::Text { y, text, .. }
                && text == "暂无设备"@ && y == cy - empty_h as int / 2)
            &&& overflow > 0 ==> plan.len() == 3 && (plan[2] matches OpView::Text { text, .. }
                && text == seq!['+'] + text::decimal(overflow))
        }),
{
    reveal_strlit("+");
    assert("+"@ =~= seq!['+']);
}

/// Without any known battery there is no lowest one.
pub proof fn law_no_battery_no_lowest(devs: Seq<Device>)
    ensures
        lowest(devs) is None <==> forall|i: int|
            0 <= i < devs.len() ==> (#[trigger] devs[i]).battery is None,
{
    if lowest(devs) is Some {
        let k = lemma_lowest_is_there(devs);
        assert(devs[k].battery is Some);
    } else {
        assert forall|i: int| 0 <= i < devs.len() implies (#[trigger] devs[i]).battery is None by {
            if devs[i].battery is Some {
                law_lowest_battery(devs, i);
            }
        }
    }
}

proof fn lemma_row_grows(sizes: Seq<ItemSize>, a: int, b: int, m: Metrics)
    requires
        m.is_sane(),
        all_sane(sizes),
        0 <= a <= b <= sizes.len(),
    ensures
        0 <= row_width(sizes, a, m) <= row_width(sizes, b, m),
    decreases b,
{
    layout::lemma_lengths(m, DEV_GAP as int);
    layout::lemma_lengths(m, DOT as int);
    layout::lemma_lengths(m, DOT_GAP as int);
    layout::lemma_lengths(m, NAME_PILL_GAP as int);
    layout::lemma_lengths(m, PILL_PAD as int);
    if b > 0 {
        assert(sizes[b - 1].is_sane());
        if a == b {
            lemma_row_grows(sizes, a - 1, a - 1, m);
        } else {
            lemma_row_grows(sizes, a, b - 1, m);
        }
    }
}

proof fn lemma_all_fit(sizes: Seq<ItemSize>, from: int, budget: int, m: Metrics)
    requires
        m.is_sane(),
        all_sane(sizes),
        0 <= from <= sizes.len(),
        row_width(sizes, sizes.len() as int, m) + m.text_scaled(OVERFLOW_PILL_MIN as int) <= budget,
    ensures
        shown_count(sizes, from, budget, m) == sizes.len(),
    decreases sizes.len() - from,
{
    layout::lemma_lengths(m, OVERFLOW_PILL_MIN as int);
    if from < sizes.len() {
        lemma_row_grows(sizes, from + 1, sizes.len() as int, m);
        lemma_all_fit(sizes, from + 1, budget, m);
    }
}

/// As many devices are shown as there is room for: all of them where the strip is wide
/// enough for all and a "+n" pill, and otherwise one more would not fit. What is shown
/// stands between the margins, and so does the "+n" pill that follows it.
pub proof fn law_strip_shows_as_many_as_fit(sizes: Seq<ItemSize>, max_width: int, m: Metrics)
    requires
        m.is_sane(),
        all_sane(sizes),
        max_width >= m.text_scaled(40),
    ensures
        ({
            let k = strip_count(sizes, max_width, m);
            let n = sizes.len();
            let room = max_width - 2 * m.text_scaled(6);
            &&& 0 <= k <= n
            &&& row_width(sizes, n as int, m) + m.text_scaled(44) <= room ==> k == n
            &&& k == n && n > 0 ==> row_width(sizes, n as int, m) <= room
            &&& 0 < k < n ==> row_width(sizes, k, m) + m.text_scaled(44) <= room
            &&& k < n - 1 ==> row_width(sizes, k + 1, m) + m.text_scaled(44) > room
            &&& k == n - 1 ==> row_width(sizes, n as int, m) > room
        }),
{
    let budget = width_limit(max_width, m) - m.text_scaled(MARGIN_X as int) * 2;
    lemma_shown_count(sizes, 0, budget, m);
    if row_width(sizes, sizes.len() as int, m) + m.text_scaled(44) <= budget {
        lemma_all_fit(sizes, 0, budget, m);
    }
}

/// The strip is as wide as what it shows with its margins, within the limits: never
/// wider than the screen allows, and never narrower than 80 design pixels unless that
/// is all the room there is.
pub proof fn law_strip_is_as_wide_as_its_devices(
    sizes: Seq<ItemSize>,
    max_width: int,
    m: Metrics,
)
    requires
        m.is_sane(),
        all_sane(sizes),
        max_width >= m.text_scaled(80),
    ensures
        ({
            let k = strip_count(sizes, max_width, m);
            let w = strip_width(sizes, max_width, m);
            let content = row_width(sizes, k, m) + 2 * m.text_scaled(6);
            let more = m.text_scaled(16) + m.text_scaled(44);
            &&& m.text_scaled(80) <= w <= max_width
            &&& k == sizes.len() && m.text_scaled(80) <= content ==> w == content
            &&& k < sizes.len() && m.text_scaled(80) <= content + more <= max_width ==> w == content
                + more
            &&& k == sizes.len() && content <= m.text_scaled(80) ==> w == m.text_scaled(80)
        }),
{
    layout::law_scaling_is_monotone(m, MIN_STRIP_WIDTH as int, 80);
    law_strip_shows_as_many_as_fit(sizes, max_width, m);
    if sizes.len() == 0 {
        layout::law_scaling_is_monotone(m, 0, MARGIN_X as int);
        layout::lemma_lengths(m, 80);
        lemma_margins(m);
    }
}

proof fn lemma_margins(m: Metrics)
    requires
        m.is_sane(),
    ensures
        2 * m.text_scaled(6) <= m.text_scaled(80),
{
    let a = m.scaled(6);
    let b = m.scaled(80);
    assert(a == (6 * m.dpi + 48) / 96 && b == (80 * m.dpi + 48) / 96);
    layout::law_scaling_is_monotone(m, 6, 80);
    assert(b >= 3 * a);
    assert(b * m.text_pct >= 3 * (a * m.text_pct)) by (nonlinear_arith)
        requires
            b >= 3 * a,
            m.text_pct >= 0,
    ;
    assert(a * m.text_pct >= 0) by (nonlinear_arith)
        requires
            a >= 0,
            m.text_pct >= 0,
    ;
}

proof fn lemma_panel_ops(
    devs: Seq<Device>,
    sizes: Seq<ItemSize>,
    n: int,
    i: int,
    right: int,
    low: u8,
    m: Metrics,
)
    requires
        0 <= i < n,
    ensures
        panel_ops(devs, sizes, n, right, low, m).len() == 4 * n,
        panel_ops(devs, sizes, n, right, low, m).subrange(4 * i, 4 * i + 4) == device_ops(
            devs[i],
            sizes[i],
            m.text_scaled(MARGIN_X as int),
            right - m.text_scaled(MARGIN_X as int) * 2 - sizes[i].pill_w - m.text_scaled(
                PILL_PAD as int,
            ) * 2,
            m.text_scaled(PANEL_PAD as int) + i * m.text_scaled(PANEL_ROW_H as int)
                + m.text_scaled(PANEL_ROW_H as int) / 2,
            low,
            m,
        ),
    decreases n,
{
    let all = panel_ops(devs, sizes, n, right, low, m);
    let front = panel_ops(devs, sizes, n - 1, right, low, m);
    if i < n - 1 {
        lemma_panel_ops(devs, sizes, n - 1, i, right, low, m);
        assert(all.subrange(4 * i, 4 * i + 4) =~= front.subrange(4 * i, 4 * i + 4));
    } else {
        if n > 1 {
            lemma_panel_ops(devs, sizes, n - 1, 0, right, low, m);
        }
        assert(front.len() == 4 * (n - 1));
        assert(all.subrange(4 * i, 4 * i + 4) =~= all.skip(4 * i));
    }
}

/// The panel has a row for every device, each one row below the one before it, and the
/// pills end in one line, two margins before the right edge.
pub proof fn law_panel_shows_every_device(
    devs: Seq<Device>,
    sizes: Seq<ItemSize>,
    client: Rect,
    low: u8,
    m: Metrics,
    i: int,
)
    requires
        m.is_sane(),
        all_sane(sizes),
        sizes.len() == devs.len(),
        0 <= i < devs.len(),
    ensures
        ({
            let plan = panel_plan(devs, sizes, client, low, m);
            let row = m.text_scaled(26);
            let cy = m.text_scaled(10) + i * row + row / 2;
            let k = 2 + 4 * i;
            &&& plan.len() == 2 + 4 * devs.len()
            &&& shows_device(plan, k, devs[i], sizes[i], cy, low, m)
            &&& plan[k]->Dot_left == m.text_scaled(6)
            &&& plan[k + 2]->Fill_right == client.right - 2 * m.text_scaled(6)
        }),
{
    let n = devs.len() as int;
    let plan = panel_plan(devs, sizes, client, low, m);
    let ops = panel_ops(devs, sizes, n, client.right as int, low, m);
    lemma_panel_ops(devs, sizes, n, i, client.right as int, low, m);
    let k = 2 + 4 * i;
    assert(plan.subrange(k, k + 4) =~= ops.subrange(4 * i, 4 * i + 4));
    let row = m.text_scaled(PANEL_ROW_H as int);
    lemma_device_is_shown(
        plan,
        k,
        devs[i],
        sizes[i],
        m.text_scaled(MARGIN_X as int),
        client.right - m.text_scaled(MARGIN_X as int) * 2 - sizes[i].pill_w - m.text_scaled(
            PILL_PAD as int,
        ) * 2,
        m.text_scaled(PANEL_PAD as int) + i * row + row / 2,
        low,
        m,
    );
}

proof fn lemma_widest(sizes: Seq<ItemSize>, n: int, i: int, m: Metrics)
    requires
        0 <= i < n,
    ensures
        widest_name(sizes, n, m) >= sizes[i].name_w,
        widest_pill(sizes, n, m) >= sizes[i].pill_w + m.text_scaled(PILL_PAD as int) * 2,
    decreases n,
{
    if i < n - 1 {
        lemma_widest(sizes, n - 1, i, m);
    }
}

/// On a panel of the measured width no pill covers a name, and the rows have room for
/// all devices unless the screen is too low.
pub proof fn law_panel_has_room(sizes: Seq<ItemSize>, work: Rect, m: Metrics, i: int)
    requires
        m.is_sane(),
        0 <= i < sizes.len(),
    ensures
        ({
            let w = panel_width(sizes, m);
            let h = panel_height(sizes.len(), work, m);
            let rows = sizes.len() * m.text_scaled(26) + 2 * m.text_scaled(10);
            let name_end = m.text_scaled(6) + m.text_scaled(8) + m.text_scaled(6) + sizes[i].name_w;
            let pill_x = w - 2 * m.text_scaled(6) - sizes[i].pill_w - 2 * m.text_scaled(5);
            &&& name_end + m.text_scaled(12) <= pill_x + m.text_scaled(6)
            &&& h == rows || h == work.bottom - work.top - m.scaled(16)
            &&& h <= rows
            &&& work.bottom - work.top - m.scaled(16) >= rows || work.bottom <= work.top ==> h == rows
        }),
{
    lemma_widest(sizes, sizes.len() as int, i, m);
}

/// A panel without devices is as high as one with a single row.
pub proof fn law_empty_panel_has_one_row(work: Rect, m: Metrics)
    ensures
        panel_height(0, work, m) == panel_height(1, work, m),
{
}

/// The panel stands above the strip, one gap away, wherever there is room; else it
/// stands below the strip or as low as the screen allows. Its right edge is two pixels
/// before that of the strip, unless it would leave the screen on the left.
pub proof fn law_panel_stands_at_strip(strip: Rect, work: Rect, w: int, h: int, m: Metrics)
    ensures
        ({
            let p = panel_place(strip, work, w, h, m);
            let gap = m.scaled(6);
            &&& strip.top - h - gap >= work.top ==> p.1 + h + gap == strip.top
            &&& strip.top - h - gap < work.top ==> p.1 <= strip.bottom + gap && p.1 + h + 4
                <= work.bottom && (p.1 == strip.bottom + gap || p.1 + h + 4 == work.bottom)
            &&& p.0 >= work.left + 4
            &&& strip.right - w - 2 >= work.left + 4 ==> p.0 + w + 2 == strip.right
            &&& strip.right - w - 2 < work.left + 4 ==> p.0 == work.left + 4
        }),
{
}

/// What is drawn says where it stands, in which colour and with which text.
pub proof fn law_drawing_tells_all(ops: Seq<DrawOp>, i: int)
    requires
        0 <= i < ops.len(),
    ensures
        op_views(ops).len() == ops.len(),
        match ops[i] {
            DrawOp::Fill { rect, color } => op_views(ops)[i] == (OpView::Fill {
                left: rect.left as int,
                top: rect.top as int,
                right: rect.right as int,
                bottom: rect.bottom as int,
                color,
            }),
            DrawOp::Dot { rect, color } => op_views(ops)[i] == (OpView::Dot {
                left: rect.left as int,
                top: rect.top as int,
                right: rect.right as int,
                bottom: rect.bottom as int,
                color,
            }),
            DrawOp::Text { x, y, text, fg, outline, pill_font } => op_views(ops)[i]
                == (OpView::Text {
                x: x as int,
                y: y as int,
                text: text@,
                fg,
                outline,
                pill_font,
            }),
        },
{
}

/// The colours of texts: names are written in the colour of the foreground, and so is
/// what a pill says, in white or, where the battery is unknown, in the pale colour for
/// that.
pub proof fn law_pill_text_is_readable(battery: Option<u8>, low: u8)
    ensures
        battery is Some ==> pill_colours(battery, low).1 == 0xFF_FFFF,
        battery is None ==> pill_colours(battery, low) == (
            theme::overlay_theme().pill_off_bg,
            theme::overlay_theme().pill_off_fg,
        ),
        pill_colours(battery, low).0 != pill_colours(battery, low).1,
{
}

} // verus!
