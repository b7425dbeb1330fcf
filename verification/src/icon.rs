//! The tray icon: a battery glyph drawn pixel by pixel.

use vstd::prelude::*;

verus! {

/// The width and height of the icon.
pub const SIZE: usize = 32;

/// The value between `lo` and `hi` that is nearest to `v`.
pub open spec fn nearest(v: int, lo: int, hi: int) -> int {
    if v < lo {
        lo
    } else if v > hi {
        hi
    } else {
        v
    }
}

/// A point lies in a rectangle with corners rounded by `r`: it is at most `r` away
/// from the rectangle that is smaller by `r` on every side.
pub open spec fn in_round(x: int, y: int, x0: int, y0: int, x1: int, y1: int, r: int) -> bool {
    let dx = x - nearest(x, x0 + r, x1 - r);
    let dy = y - nearest(y, y0 + r, y1 - r);
    x0 <= x <= x1 && y0 <= y <= y1 && dx * dx + dy * dy <= r * r
}

fn in_round_rect(x: i32, y: i32, x0: i32, y0: i32, x1: i32, y1: i32, r: i32) -> (res: bool)
    requires
        0 <= x < 1000,
        0 <= y < 1000,
        0 <= x0 < x1 < 1000,
        0 <= y0 < y1 < 1000,
        0 <= r,
        2 * r <= x1 - x0,
        2 * r <= y1 - y0,
    ensures
        res == in_round(x as int, y as int, x0 as int, y0 as int, x1 as int, y1 as int, r as int),
{
    if x < x0 || x > x1 || y < y0 || y > y1 {
        return false;
    }
    let cx: i32 = if x < x0 + r {
        x0 + r
    } else if x > x1 - r {
        x1 - r
    } else {
        x
    };
    let cy: i32 = if y < y0 + r {
        y0 + r
    } else if y > y1 - r {
        y1 - r
    } else {
        y
    };
    let dx: i32 = x - cx;
    let dy: i32 = y - cy;
    assert(dx * dx <= 1_000_000 && dy * dy <= 1_000_000 && r * r <= 1_000_000) by (nonlinear_arith)
        requires
            -1000 < dx < 1000,
            -1000 < dy < 1000,
            0 <= r < 1000,
    ;
    assert(0 <= dx * dx && 0 <= dy * dy && 0 <= r * r) by (nonlinear_arith);
    dx * dx + dy * dy <= r * r
}

/// The colour of a level: red below 20 %, orange below 50 %, green from there on.
pub open spec fn level_colour(v: u8) -> u32 {
    if v < 20 {
        0xE5484D
    } else if v < 50 {
        0xE8930C
    } else {
        0x2FA05C
    }
}

/// How high a level stands in the glyph.
pub open spec fn level_height(v: u8) -> int {
    let h = 4 + (13 * v) / 100;
    if h < 17 {
        h
    } else {
        17
    }
}

/// The pixel at `(x, y)` for a battery level: the body of the battery, its
/// terminal on the right, a border, and the level from the bottom up. Around the
/// glyph the icon is transparent.
pub open spec fn pixel(x: int, y: int, battery: Option<u8>) -> u32 {
    let body = in_round(x, y, 5, 9, 26, 24, 3);
    let terminal = 27 <= x <= 30 && 12 <= y <= 21;
    let border = !in_round(x, y, 7, 11, 24, 22, 2) && !in_round(x, y, 28, 13, 29, 20, 0);
    if !body && !terminal {
        0
    } else if border || !body {
        0xFF45454A
    } else {
        match battery {
            Some(v) => if y >= 22 - level_height(v) {
                (0xFF000000 + level_colour(v)) as u32
            } else {
                0xFF2A2A2E
            },
            None => 0xFF2A2A2E,
        }
    }
}

/// Draws the icon for a battery level, row by row from the top; `None` draws an
/// empty glyph.
pub fn make_icon(battery: Option<u8>) -> (r: Vec<u32>)
    ensures
        r@ == Seq::new(1024, |i: int| pixel(i % 32, i / 32, battery)),
{
    let mut px: Vec<u32> = Vec::new();
    let ghost want = Seq::new(1024, |i: int| pixel(i % 32, i / 32, battery));
    for y in 0..32i32
        invariant
            want == Seq::new(1024, |i: int| pixel(i % 32, i / 32, battery)),
            px@.len() == 32 * y,
            forall|k: int| 0 <= k < px@.len() ==> px@[k] == want[k],
    {
        for x in 0..32i32
            invariant
                0 <= y < 32,
                want == Seq::new(1024, |i: int| pixel(i % 32, i / 32, battery)),
                px@.len() == 32 * y + x,
                forall|k: int| 0 <= k < px@.len() ==> px@[k] == want[k],
        {
            let body = in_round_rect(x, y, 5, 9, 26, 24, 3);
            let terminal = x >= 27 && x <= 30 && y >= 12 && y <= 21;
            let p: u32 = if !body && !terminal {
                0
            } else {
                let border = !in_round_rect(x, y, 7, 11, 24, 22, 2) && !in_round_rect(
                    x,
                    y,
                    28,
                    13,
                    29,
                    20,
                    0,
                );
                if border || !body {
                    0xFF45454A
                } else {
                    match battery {
                        Some(v) => {
                            let raw: i32 = 4 + (13 * v as i32) / 100;
                            let h: i32 = if raw < 17 {
                                raw
                            } else {
                                17
                            };
                            let colour: u32 = if v < 20 {
                                0xE5484D
                            } else if v < 50 {
                                0xE8930C
                            } else {
                                0x2FA05C
                            };
                            if y >= 22 - h {
                                0xFF000000 + colour
                            } else {
                                0xFF2A2A2E
                            }
                        },
                        None => 0xFF2A2A2E,
                    }
                }
            };
            assert(p == pixel(x as int, y as int, battery));
            assert((32 * y + x) % 32 == x && (32 * y + x) / 32 == y);
            px.push(p);
        }
    }
    assert(px@ =~= want);
    px
}

/// A pixel is either fully transparent or fully opaque.
pub proof fn law_pixels_are_opaque_or_clear(x: int, y: int, battery: Option<u8>)
    ensures
        pixel(x, y, battery) == 0 || pixel(x, y, battery) >= 0xFF000000,
{
}

/// A level tells itself by its colour: green from 50 % on, orange from 20 % to 49 %,
/// red below.
pub proof fn law_icon_colour_tells_level(v: u8)
    ensures
        level_colour(v) == 0x2FA05C <==> v >= 50,
        level_colour(v) == 0xE8930C <==> 20 <= v <= 49,
        level_colour(v) == 0xE5484D <==> v < 20,
{
}

/// The level never stands above the inside of the battery, and never vanishes.
pub proof fn law_level_fits(v: u8)
    ensures
        4 <= level_height(v) <= 17,
{
}

/// A higher level never stands lower, a full battery fills the glyph, and a quarter
/// more of charge adds at least three pixels.
pub proof fn law_level_rises(v: u8, w: u8)
    requires
        v <= w,
    ensures
        level_height(v) <= level_height(w),
        v >= 100 ==> level_height(v) == 17,
        v + 25 <= w <= 100 ==> level_height(v) + 3 <= level_height(w),
        0 <= 100 * (level_height(v) - 4) <= 13 * v,
        v <= 100 ==> 13 * v < 100 * (level_height(v) - 4) + 100,
{
}

/// The level fills the glyph from the bottom: where a pixel shows it, so does each
/// pixel below it that is neither border nor outside, and so does the same pixel at a
/// higher level. A battery that is not known shows none.
pub proof fn law_level_fills_from_bottom(x: int, y: int, below: int, v: u8, w: u8)
    requires
        v <= w,
        y <= below,
        pixel(x, below, None) == 0xFF2A2A2E,
        pixel(x, y, None) == 0xFF2A2A2E,
    ensures
        pixel(x, y, Some(v)) != 0xFF2A2A2E ==> pixel(x, below, Some(v)) != 0xFF2A2A2E,
        pixel(x, y, Some(v)) != 0xFF2A2A2E ==> pixel(x, y, Some(w)) != 0xFF2A2A2E,
        pixel(x, y, Some(v)) != 0xFF2A2A2E ==> pixel(x, y, Some(v)) == 0xFF000000 + level_colour(
            v,
        ),
        pixel(x, y, Some(v)) != 0xFF2A2A2E <==> y + level_height(v) >= 22,
{
    law_level_rises(v, w);
}

proof fn lemma_inside(x: int, y: int, x0: int, y0: int, x1: int, y1: int, r: int)
    requires
        0 <= r,
        x0 + r <= x <= x1 - r,
        y0 + r <= y <= y1 - r,
    ensures
        in_round(x, y, x0, y0, x1, y1, r),
{
    let dx = x - nearest(x, x0 + r, x1 - r);
    let dy = y - nearest(y, y0 + r, y1 - r);
    assert(dx * dx == 0 && dy * dy == 0 && r * r >= 0) by (nonlinear_arith)
        requires
            dx == 0,
            dy == 0,
    ;
}

/// The outline of the glyph does not depend on the level, and it lies within the icon.
pub proof fn law_outline_stays(x: int, y: int, a: Option<u8>, b: Option<u8>)
    ensures
        pixel(x, y, a) == 0 <==> pixel(x, y, b) == 0,
        pixel(x, y, a) == 0xFF45454A <==> pixel(x, y, b) == 0xFF45454A,
        pixel(x, y, a) != 0 ==> 5 <= x <= 30 && 9 <= y <= 24,
        27 <= x <= 30 && 12 <= y <= 21 ==> pixel(x, y, a) == 0xFF45454A,
        9 <= x <= 22 && 13 <= y <= 20 ==> pixel(x, y, None) == 0xFF2A2A2E,
{
    if 9 <= x <= 22 && 13 <= y <= 20 {
        lemma_inside(x, y, 5, 9, 26, 24, 3);
        lemma_inside(x, y, 7, 11, 24, 22, 2);
    }
}

} // verus!
