//! The colours of the strip.

use vstd::prelude::*;

verus! {

/// A Windows `COLORREF`: `0x00BBGGRR`.
pub type Rgb = u32;

/// A colour as a `COLORREF`.
pub open spec fn packed(r: u8, g: u8, b: u8) -> Rgb {
    (b * 0x10000 + g * 0x100 + r) as u32
}

pub fn rgb(r: u8, g: u8, b: u8) -> (c: Rgb)
    ensures
        c == packed(r, g, b),
{
    b as u32 * 0x10000 + g as u32 * 0x100 + r as u32
}

/// The colour that is keyed out of the layered strip.
pub const CHROMA: Rgb = 0x00FF_00FF;

#[derive(Clone, Copy, Debug)]
pub struct Theme {
    pub fg: Rgb,
    pub fg_outline: Rgb,
    pub dot_ok: Rgb,
    pub dot_low: Rgb,
    pub dot_off: Rgb,
    pub pill_ok: Rgb,
    pub pill_mid: Rgb,
    pub pill_low: Rgb,
    pub pill_off_bg: Rgb,
    pub pill_off_fg: Rgb,
}

/// Bright glyphs with a dark halo: the strip sits on the taskbar without a panel
/// of its own.
pub open spec fn overlay_theme() -> Theme {
    Theme {
        fg: packed(0xFF, 0xFF, 0xFF),
        fg_outline: packed(0x14, 0x14, 0x18),
        dot_ok: packed(0x3D, 0xDC, 0x6A),
        dot_low: packed(0xFF, 0x4D, 0x4F),
        dot_off: packed(0xC8, 0xC8, 0xCE),
        pill_ok: packed(0x1F, 0xB8, 0x54),
        pill_mid: packed(0xF0, 0xA0, 0x10),
        pill_low: packed(0xE8, 0x3A, 0x3A),
        pill_off_bg: packed(0x4A, 0x4A, 0x50),
        pill_off_fg: packed(0xF2, 0xF2, 0xF5),
    }
}

pub fn detect() -> (r: Theme)
    ensures
        r == overlay_theme(),
{
    Theme {
        fg: rgb(0xFF, 0xFF, 0xFF),
        fg_outline: rgb(0x14, 0x14, 0x18),
        dot_ok: rgb(0x3D, 0xDC, 0x6A),
        dot_low: rgb(0xFF, 0x4D, 0x4F),
        dot_off: rgb(0xC8, 0xC8, 0xCE),
        pill_ok: rgb(0x1F, 0xB8, 0x54),
        pill_mid: rgb(0xF0, 0xA0, 0x10),
        pill_low: rgb(0xE8, 0x3A, 0x3A),
        pill_off_bg: rgb(0x4A, 0x4A, 0x50),
        pill_off_fg: rgb(0xF2, 0xF2, 0xF5),
    }
}

/// A packed colour gives back its parts, and nothing stands above them.
pub proof fn law_colour_unpacks(r: u8, g: u8, b: u8)
    ensures
        packed(r, g, b) % 0x100 == r,
        packed(r, g, b) / 0x100 % 0x100 == g,
        packed(r, g, b) / 0x10000 == b,
{
}

/// No colour that is drawn is the one that is keyed out.
pub proof fn law_theme_is_never_keyed_out()
    ensures
        ({
            let t = overlay_theme();
            &&& t.fg != CHROMA && t.fg_outline != CHROMA && t.fg != t.fg_outline
            &&& t.dot_ok != CHROMA && t.dot_low != CHROMA && t.dot_off != CHROMA
            &&& t.pill_ok != CHROMA && t.pill_mid != CHROMA && t.pill_low != CHROMA
            &&& t.pill_off_bg != CHROMA && t.pill_off_fg != CHROMA
        }),
{
}

/// Good levels are green and low ones red: the part that gives a colour its name is the
/// strongest in it. What is off is grey.
pub proof fn law_colours_mean_levels()
    ensures
        ({
            let t = overlay_theme();
            let red = |c: Rgb| c % 0x100;
            let green = |c: Rgb| c / 0x100 % 0x100;
            let blue = |c: Rgb| c / 0x10000;
            &&& green(t.dot_ok) > red(t.dot_ok) && green(t.dot_ok) > blue(t.dot_ok)
            &&& green(t.pill_ok) > red(t.pill_ok) && green(t.pill_ok) > blue(t.pill_ok)
            &&& red(t.dot_low) > 2 * green(t.dot_low) && red(t.dot_low) > 2 * blue(t.dot_low)
            &&& red(t.pill_low) > 2 * green(t.pill_low) && red(t.pill_low) > 2 * blue(t.pill_low)
            &&& red(t.pill_mid) > green(t.pill_mid) > blue(t.pill_mid)
            &&& red(t.dot_off) == green(t.dot_off) <= blue(t.dot_off) <= red(t.dot_off) + 6
            &&& red(t.pill_off_bg) == green(t.pill_off_bg) <= blue(t.pill_off_bg) <= red(
                t.pill_off_bg,
            ) + 6
        }),
{
}

} // verus!
