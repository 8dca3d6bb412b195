//! Bounded color palettes and the color quantizer.
//!
//! A palette is a flat byte vector of at most 256 RGB triples, always padded
//! to full capacity by repeating the background color. The monochrome
//! palette interpolates between background and foreground; the colored
//! palette holds a curated primary set, a hue sweep at several
//! saturation/value levels, and a grayscale ramp. The quantizer maps a color
//! to the exact palette index when the color appears verbatim, and otherwise
//! to the nearest entry by squared RGB distance, ties broken by the lowest
//! index.

use vstd::prelude::*;
use std::collections::HashMap;
use crate::color::{spec_pack_rgb, spec_rgb, pack_rgb, Rgb};
use crate::error::MonochoraError;

verus! {

broadcast use vstd::std_specs::hash::group_hash_axioms;

/// Palettes hold at most this many colors.
pub const MAX_PALETTE_COLORS: usize = 256;

/// Entry `i` of a flat palette, as a color.
pub open spec fn spec_palette_entry(p: Seq<u8>, i: int) -> Rgb {
    spec_rgb(p[3 * i], p[3 * i + 1], p[3 * i + 2])
}

/// A well-shaped palette: 256 whole RGB triples.
pub open spec fn spec_palette_wf(p: Seq<u8>) -> bool {
    p.len() == 768
}

/// The squared RGB distance between a color and palette entry `i`.
pub open spec fn spec_dist(p: Seq<u8>, i: int, c: Rgb) -> int {
    let e = spec_palette_entry(p, i);
    let dr = c.r as int - e.r as int;
    let dg = c.g as int - e.g as int;
    let db = c.b as int - e.b as int;
    dr * dr + dg * dg + db * db
}

/// Index `j` is the quantizer's answer for color `c`: no entry is closer,
/// and every earlier entry is strictly farther.
pub open spec fn spec_is_quantized(p: Seq<u8>, c: Rgb, j: int) -> bool {
    &&& 0 <= j < p.len() / 3
    &&& (forall|i: int| 0 <= i < p.len() / 3 ==> spec_dist(p, j, c) <= #[trigger] spec_dist(p, i, c))
    &&& (forall|i: int| 0 <= i < j ==> #[trigger] spec_dist(p, i, c) > spec_dist(p, j, c))
}

/// A squared distance is never negative, and is zero exactly when the entry
/// equals the color.
pub proof fn lemma_dist_zero(p: Seq<u8>, i: int, c: Rgb)
    ensures
        spec_dist(p, i, c) >= 0,
        spec_dist(p, i, c) == 0 <==> spec_palette_entry(p, i) == c,
{
    let e = spec_palette_entry(p, i);
    let dr = c.r as int - e.r as int;
    let dg = c.g as int - e.g as int;
    let db = c.b as int - e.b as int;
    assert(dr * dr >= 0 && dg * dg >= 0 && db * db >= 0 && (dr * dr + dg * dg + db * db == 0 ==> dr
        == 0 && dg == 0 && db == 0) && (dr == 0 && dg == 0 && db == 0 ==> dr * dr + dg * dg + db
        * db == 0)) by (nonlinear_arith);
    assert(c == (Rgb { r: c.r, g: c.g, b: c.b }));
    assert(e == (Rgb { r: e.r, g: e.g, b: e.b }));
    if spec_dist(p, i, c) == 0 {
        assert(dr == 0 && dg == 0 && db == 0);
        assert(c.r == e.r && c.g == e.g && c.b == e.b);
        assert(e == c);
    }
    if e == c {
        assert(dr == 0 && dg == 0 && db == 0);
        assert(spec_dist(p, i, c) == dr * dr + dg * dg + db * db);
        assert(spec_dist(p, i, c) == 0);
    }
}

/// Appends one RGB triple to a flat palette.
fn push_rgb(p: &mut Vec<u8>, c: Rgb)
    ensures
        final(p)@ == old(p)@ + seq![c.r, c.g, c.b],
{
    p.push(c.r);
    p.push(c.g);
    p.push(c.b);
    proof {
        assert(p@ =~= old(p)@ + seq![c.r, c.g, c.b]);
    }
}

/// One linear interpolation step between background and foreground:
/// step `k` of 32 mixes `32 - k` parts background with `k` parts foreground.
pub open spec fn spec_mono_blend(bg: Rgb, fg: Rgb, k: int) -> Rgb {
    spec_rgb(
        ((bg.r as int * (32 - k) + fg.r as int * k) / 32) as u8,
        ((bg.g as int * (32 - k) + fg.g as int * k) / 32) as u8,
        ((bg.b as int * (32 - k) + fg.b as int * k) / 32) as u8,
    )
}

/// Entry `i` of the monochrome palette: background, foreground, thirty-one
/// interpolation steps, then background padding.
pub open spec fn spec_mono_entry(bg: Rgb, fg: Rgb, i: int) -> Rgb {
    if i == 0 {
        bg
    } else if i == 1 {
        fg
    } else if 2 <= i <= 32 {
        spec_mono_blend(bg, fg, i - 1)
    } else {
        bg
    }
}

/// The whole monochrome palette is pinned entry by entry.
pub open spec fn spec_is_mono_palette(p: Seq<u8>, bg: Rgb, fg: Rgb) -> bool {
    spec_palette_wf(p) && forall|i: int|
        0 <= i < 256 ==> #[trigger] spec_palette_entry(p, i) == spec_mono_entry(bg, fg, i)
}

/// Mixes one channel: `32 - k` parts of `a` with `k` parts of `b`.
fn blend_channel(a: u8, b: u8, k: u32) -> (o: u8)
    requires
        k <= 32,
    ensures
        o == (a as int * (32 - k as int) + b as int * k as int) / 32,
{
    proof {
        assert(0 <= a as int * (32 - k as int) <= 255 * (32 - k as int) && 0 <= b as int
            * k as int <= 255 * k as int) by (nonlinear_arith)
            requires
                k <= 32,
                a as int <= 255,
                b as int <= 255,
                a as int >= 0,
                b as int >= 0,
        ;
        crate::ratio::lemma_div_nonneg_le(
            a as int * (32 - k as int) + b as int * k as int,
            32,
        );
        vstd::arithmetic::div_mod::lemma_div_is_ordered(
            a as int * (32 - k as int) + b as int * k as int,
            (255 * 32) as int,
            32int,
        );
    }
    ((a as u32 * (32 - k) + b as u32 * k) / 32) as u8
}

/// Computes one interpolation step.
fn mono_blend(bg: Rgb, fg: Rgb, k: u32) -> (c: Rgb)
    requires
        1 <= k <= 31,
    ensures
        c == spec_mono_blend(bg, fg, k as int),
{
    let r = blend_channel(bg.r, fg.r, k);
    let g = blend_channel(bg.g, fg.g, k);
    let b = blend_channel(bg.b, fg.b, k);
    Rgb { r, g, b }
}

/// Builds the monochrome palette for a background/foreground pair. Entries
/// 0 and 1 are the background and foreground exactly, by construction.
pub fn create_optimized_palette(bg: Rgb, fg: Rgb) -> (p: Vec<u8>)
    ensures
        spec_is_mono_palette(p@, bg, fg),
        spec_palette_entry(p@, 0) == bg,
        spec_palette_entry(p@, 1) == fg,
{
    let mut p: Vec<u8> = Vec::new();
    push_rgb(&mut p, bg);
    push_rgb(&mut p, fg);
    let mut k: u32 = 1;
    while k < 32
        invariant
            1 <= k <= 32,
            p@.len() == 3 * (k + 1),
            forall|i: int|
                0 <= i < k + 1 ==> #[trigger] spec_palette_entry(p@, i) == spec_mono_entry(
                    bg,
                    fg,
                    i,
                ),
        decreases 32 - k,
    {
        let ghost p0 = p@;
        push_rgb(&mut p, mono_blend(bg, fg, k));
        proof {
            lemma_push_rgb_entries(p0, p@, spec_mono_blend(bg, fg, k as int));
        }
        k = k + 1;
    }
    while p.len() < 768
        invariant
            p@.len() % 3 == 0,
            99 <= p@.len() <= 768,
            forall|i: int|
                0 <= i < p@.len() / 3 ==> #[trigger] spec_palette_entry(p@, i) == spec_mono_entry(
                    bg,
                    fg,
                    i,
                ),
        decreases 768 - p.len(),
    {
        let ghost p0 = p@;
        push_rgb(&mut p, bg);
        proof {
            lemma_push_rgb_entries(p0, p@, bg);
        }
    }
    p
}

/// The absolute value of an integer.
pub open spec fn spec_abs(x: int) -> int {
    if x < 0 {
        -x
    } else {
        x
    }
}

/// HSV to RGB by the standard hexagonal-sector formula, with hue in degrees
/// and saturation/value in thousandths.
pub open spec fn spec_hsv_to_rgb(h: int, s: int, v: int) -> Rgb {
    let c = v * s / 1000;
    let x = c * (60 - spec_abs(h % 120 - 60)) / 60;
    let m = v - c;
    let sector = h / 60;
    let rp = if sector == 0 {
        c
    } else if sector == 1 {
        x
    } else if sector == 2 {
        0
    } else if sector == 3 {
        0
    } else if sector == 4 {
        x
    } else {
        c
    };
    let gp = if sector == 0 {
        x
    } else if sector == 1 {
        c
    } else if sector == 2 {
        c
    } else if sector == 3 {
        x
    } else {
        0
    };
    let bp = if sector == 0 {
        0
    } else if sector == 1 {
        0
    } else if sector == 2 {
        x
    } else if sector == 3 {
        c
    } else if sector == 4 {
        c
    } else {
        x
    };
    spec_rgb(
        ((rp + m) * 255 / 1000) as u8,
        ((gp + m) * 255 / 1000) as u8,
        ((bp + m) * 255 / 1000) as u8,
    )
}

/// Scales a channel plus the value floor back to the byte range.
fn hsv_channel(ch: u32, m: u32) -> (o: u8)
    requires
        ch + m <= 1000,
    ensures
        o == (ch as int + m as int) * 255 / 1000,
{
    proof {
        vstd::arithmetic::div_mod::lemma_div_is_ordered(
            (ch as int + m as int) * 255,
            (1000 * 255) as int,
            1000int,
        );
        crate::ratio::lemma_div_nonneg_le((ch as int + m as int) * 255, 1000);
    }
    (((ch + m) * 255) / 1000) as u8
}

/// Converts an HSV triple (hue in degrees, saturation and value in
/// thousandths) to RGB.
pub fn hsv_to_rgb(h: u32, s: u32, v: u32) -> (c: Rgb)
    requires
        h < 360,
        s <= 1000,
        v <= 1000,
    ensures
        c == spec_hsv_to_rgb(h as int, s as int, v as int),
{
    proof {
        assert(v as int * s as int <= 1000 * 1000 && v as int * s as int >= 0 && v as int
            * s as int <= v as int * 1000) by (nonlinear_arith)
            requires
                s <= 1000,
                v <= 1000,
        ;
        vstd::arithmetic::div_mod::lemma_div_is_ordered(
            v as int * s as int,
            v as int * 1000,
            1000int,
        );
        assert(v as int * 1000 / 1000 == v as int) by (nonlinear_arith);
    }
    let c: u32 = v * s / 1000;
    let hm: u32 = h % 120;
    let t: u32 = if hm >= 60 {
        hm - 60
    } else {
        60 - hm
    };
    proof {
        assert(t == spec_abs(h as int % 120 - 60));
        assert(c as int * (60 - t as int) <= c as int * 60 && c as int * (60 - t as int) >= 0)
            by (nonlinear_arith)
            requires
                t <= 60,
                c >= 0,
        ;
        vstd::arithmetic::div_mod::lemma_div_is_ordered(
            c as int * (60 - t as int),
            c as int * 60,
            60int,
        );
        assert(c as int * 60 / 60 == c as int) by (nonlinear_arith);
    }
    let x: u32 = c * (60 - t) / 60;
    let m: u32 = v - c;
    let sector: u32 = h / 60;
    let (rp, gp, bp): (u32, u32, u32) = if sector == 0 {
        (c, x, 0)
    } else if sector == 1 {
        (x, c, 0)
    } else if sector == 2 {
        (0, c, x)
    } else if sector == 3 {
        (0, x, c)
    } else if sector == 4 {
        (x, 0, c)
    } else {
        (c, 0, x)
    };
    Rgb { r: hsv_channel(rp, m), g: hsv_channel(gp, m), b: hsv_channel(bp, m) }
}

/// Appending one triple keeps every existing entry and adds the new color as
/// the next entry.
pub proof fn lemma_push_rgb_entries(p0: Seq<u8>, p1: Seq<u8>, c: Rgb)
    requires
        p0.len() % 3 == 0,
        p1 == p0 + seq![c.r, c.g, c.b],
    ensures
        p1.len() == p0.len() + 3,
        p1.len() % 3 == 0,
        forall|i: int|
            0 <= i < p0.len() / 3 ==> #[trigger] spec_palette_entry(p1, i) == spec_palette_entry(
                p0,
                i,
            ),
        spec_palette_entry(p1, p0.len() as int / 3) == c,
{
    let n = p0.len() as int / 3;
    assert forall|i: int| 0 <= i < n implies #[trigger] spec_palette_entry(p1, i)
        == spec_palette_entry(p0, i) by {
        assert(3 * i + 2 < p0.len()) by (nonlinear_arith)
            requires
                0 <= i < n,
                n == p0.len() / 3,
                p0.len() % 3 == 0,
        ;
        assert(p1[3 * i] == p0[3 * i]);
        assert(p1[3 * i + 1] == p0[3 * i + 1]);
        assert(p1[3 * i + 2] == p0[3 * i + 2]);
    }
    assert(3 * n == p0.len()) by (nonlinear_arith)
        requires
            n == p0.len() / 3,
            p0.len() % 3 == 0,
    ;
    assert(p1[3 * n] == c.r);
    assert(p1[3 * n + 1] == c.g);
    assert(p1[3 * n + 2] == c.b);
}


/// The curated primary and secondary colors that follow the background in
/// the colored palette.
pub open spec fn spec_primary(j: int) -> Rgb {
    if j == 0 {
        spec_rgb(255, 255, 255)
    } else if j == 1 {
        spec_rgb(255, 0, 0)
    } else if j == 2 {
        spec_rgb(0, 255, 0)
    } else if j == 3 {
        spec_rgb(0, 0, 255)
    } else if j == 4 {
        spec_rgb(255, 255, 0)
    } else if j == 5 {
        spec_rgb(255, 0, 255)
    } else if j == 6 {
        spec_rgb(0, 255, 255)
    } else if j == 7 {
        spec_rgb(0, 0, 0)
    } else if j == 8 {
        spec_rgb(128, 128, 128)
    } else if j == 9 {
        spec_rgb(192, 192, 192)
    } else if j == 10 {
        spec_rgb(64, 64, 64)
    } else if j == 11 {
        spec_rgb(160, 160, 160)
    } else if j == 12 {
        spec_rgb(255, 128, 0)
    } else if j == 13 {
        spec_rgb(128, 255, 0)
    } else if j == 14 {
        spec_rgb(0, 255, 128)
    } else if j == 15 {
        spec_rgb(128, 0, 255)
    } else if j == 16 {
        spec_rgb(255, 0, 128)
    } else if j == 17 {
        spec_rgb(0, 128, 255)
    } else if j == 18 {
        spec_rgb(255, 192, 192)
    } else if j == 19 {
        spec_rgb(192, 255, 192)
    } else if j == 20 {
        spec_rgb(192, 192, 255)
    } else if j == 21 {
        spec_rgb(255, 255, 192)
    } else if j == 22 {
        spec_rgb(255, 192, 255)
    } else {
        spec_rgb(192, 255, 255)
    }
}

/// The curated color at position `j`.
fn primary_color(j: u32) -> (c: Rgb)
    requires
        j < 24,
    ensures
        c == spec_primary(j as int),
{
    match j {
        0 => Rgb { r: 255, g: 255, b: 255 },
        1 => Rgb { r: 255, g: 0, b: 0 },
        2 => Rgb { r: 0, g: 255, b: 0 },
        3 => Rgb { r: 0, g: 0, b: 255 },
        4 => Rgb { r: 255, g: 255, b: 0 },
        5 => Rgb { r: 255, g: 0, b: 255 },
        6 => Rgb { r: 0, g: 255, b: 255 },
        7 => Rgb { r: 0, g: 0, b: 0 },
        8 => Rgb { r: 128, g: 128, b: 128 },
        9 => Rgb { r: 192, g: 192, b: 192 },
        10 => Rgb { r: 64, g: 64, b: 64 },
        11 => Rgb { r: 160, g: 160, b: 160 },
        12 => Rgb { r: 255, g: 128, b: 0 },
        13 => Rgb { r: 128, g: 255, b: 0 },
        14 => Rgb { r: 0, g: 255, b: 128 },
        15 => Rgb { r: 128, g: 0, b: 255 },
        16 => Rgb { r: 255, g: 0, b: 128 },
        17 => Rgb { r: 0, g: 128, b: 255 },
        18 => Rgb { r: 255, g: 192, b: 192 },
        19 => Rgb { r: 192, g: 255, b: 192 },
        20 => Rgb { r: 192, g: 192, b: 255 },
        21 => Rgb { r: 255, g: 255, b: 192 },
        22 => Rgb { r: 255, g: 192, b: 255 },
        _ => Rgb { r: 192, g: 255, b: 255 },
    }
}

/// The saturation of hue-sweep level `l`, in thousandths.
pub open spec fn spec_level_sat(l: int) -> int {
    if l == 0 {
        1000
    } else if l == 1 {
        800
    } else if l == 2 {
        600
    } else if l == 3 {
        400
    } else {
        200
    }
}

/// The value of hue-sweep level `l`, in thousandths.
pub open spec fn spec_level_val(l: int) -> int {
    if l == 0 {
        1000
    } else if l == 1 {
        900
    } else if l == 2 {
        800
    } else if l == 3 {
        700
    } else {
        600
    }
}

/// The saturation and value of a sweep level.
fn level_sat_val(l: u32) -> (sv: (u32, u32))
    requires
        l < 5,
    ensures
        sv.0 == spec_level_sat(l as int),
        sv.1 == spec_level_val(l as int),
{
    match l {
        0 => (1000, 1000),
        1 => (800, 900),
        2 => (600, 800),
        3 => (400, 700),
        _ => (200, 600),
    }
}

/// One step of the grayscale ramp: 64 evenly spaced gray levels.
pub open spec fn spec_gray(g: int) -> Rgb {
    spec_rgb((g * 255 / 63) as u8, (g * 255 / 63) as u8, (g * 255 / 63) as u8)
}

/// Entry `i` of the colored palette: the background, the curated primaries,
/// a 24-hue sweep at five saturation/value levels, a 64-step grayscale ramp,
/// then background padding.
pub open spec fn spec_enhanced_entry(bg: Rgb, i: int) -> Rgb {
    if i == 0 {
        bg
    } else if 1 <= i <= 24 {
        spec_primary(i - 1)
    } else if 25 <= i <= 144 {
        let t = i - 25;
        spec_hsv_to_rgb((t / 5) * 15, spec_level_sat(t % 5), spec_level_val(t % 5))
    } else if 145 <= i <= 208 {
        spec_gray(i - 145)
    } else {
        bg
    }
}

/// The whole colored palette is pinned entry by entry.
pub open spec fn spec_is_enhanced_palette(p: Seq<u8>, bg: Rgb) -> bool {
    spec_palette_wf(p) && forall|i: int|
        0 <= i < 256 ==> #[trigger] spec_palette_entry(p, i) == spec_enhanced_entry(bg, i)
}

/// Builds the colored palette for a background color. Entry 0 is the
/// background exactly, by construction.
pub fn create_enhanced_color_palette(bg: Rgb) -> (p: Vec<u8>)
    ensures
        spec_is_enhanced_palette(p@, bg),
        spec_palette_entry(p@, 0) == bg,
{
    let mut p: Vec<u8> = Vec::new();
    push_rgb(&mut p, bg);
    let mut j: u32 = 0;
    while j < 24
        invariant
            j <= 24,
            p@.len() == 3 * (j + 1),
            forall|i: int|
                0 <= i < j + 1 ==> #[trigger] spec_palette_entry(p@, i) == spec_enhanced_entry(
                    bg,
                    i,
                ),
        decreases 24 - j,
    {
        let ghost p0 = p@;
        push_rgb(&mut p, primary_color(j));
        proof {
            lemma_push_rgb_entries(p0, p@, spec_primary(j as int));
        }
        j = j + 1;
    }
    let mut t: u32 = 0;
    while t < 120
        invariant
            t <= 120,
            p@.len() == 3 * (t + 25),
            forall|i: int|
                0 <= i < t + 25 ==> #[trigger] spec_palette_entry(p@, i) == spec_enhanced_entry(
                    bg,
                    i,
                ),
        decreases 120 - t,
    {
        let ghost p0 = p@;
        let (s, v) = level_sat_val(t % 5);
        let hue = (t / 5) * 15;
        push_rgb(&mut p, hsv_to_rgb(hue, s, v));
        proof {
            lemma_push_rgb_entries(
                p0,
                p@,
                spec_hsv_to_rgb(
                    (t as int / 5) * 15,
                    spec_level_sat(t as int % 5),
                    spec_level_val(t as int % 5),
                ),
            );
        }
        t = t + 1;
    }
    let mut g: u32 = 0;
    while g < 64
        invariant
            g <= 64,
            p@.len() == 3 * (g + 145),
            forall|i: int|
                0 <= i < g + 145 ==> #[trigger] spec_palette_entry(p@, i) == spec_enhanced_entry(
                    bg,
                    i,
                ),
        decreases 64 - g,
    {
        let ghost p0 = p@;
        let gv = (g * 255 / 63) as u8;
        push_rgb(&mut p, Rgb { r: gv, g: gv, b: gv });
        proof {
            lemma_push_rgb_entries(p0, p@, spec_gray(g as int));
        }
        g = g + 1;
    }
    while p.len() < 768
        invariant
            p@.len() % 3 == 0,
            627 <= p@.len() <= 768,
            forall|i: int|
                0 <= i < p@.len() / 3 ==> #[trigger] spec_palette_entry(p@, i)
                    == spec_enhanced_entry(bg, i),
        decreases 768 - p.len(),
    {
        let ghost p0 = p@;
        push_rgb(&mut p, bg);
        proof {
            lemma_push_rgb_entries(p0, p@, bg);
        }
    }
    p
}


/// The exact-match cache is faithful to its palette: every cached key maps
/// to the first palette entry that packs to it, and every entry's key is
/// cached.
pub open spec fn spec_cache_wf(m: Map<u32, u8>, p: Seq<u8>) -> bool {
    &&& (forall|k: u32|
        m.contains_key(k) ==> {
            let j = #[trigger] m[k] as int;
            &&& 0 <= j < p.len() / 3
            &&& spec_pack_rgb(spec_palette_entry(p, j)) == k
            &&& forall|i: int| 0 <= i < j ==> spec_pack_rgb(#[trigger] spec_palette_entry(p, i)) != k
        })
    &&& (forall|i: int|
        0 <= i < p.len() / 3 ==> m.contains_key(
            spec_pack_rgb(#[trigger] spec_palette_entry(p, i)) as u32,
        ))
}

/// Reads palette entry `i`.
fn palette_entry(p: &Vec<u8>, i: usize) -> (c: Rgb)
    requires
        p@.len() % 3 == 0,
        i < p@.len() / 3,
    ensures
        c == spec_palette_entry(p@, i as int),
{
    let len = p.len();
    proof {
        assert(3 * i as int + 2 < p@.len()) by (nonlinear_arith)
            requires
                0 <= i < p@.len() / 3,
                p@.len() % 3 == 0,
        ;
        assert(3 * i as int + 2 < len as int);
    }
    let base = 3 * i;
    Rgb { r: p[base], g: p[base + 1], b: p[base + 2] }
}

/// Builds the exact-match lookup from a palette: each color maps to its
/// first (lowest) index.
pub fn create_color_cache(palette: &Vec<u8>) -> (m: HashMap<u32, u8>)
    requires
        palette@.len() % 3 == 0,
        palette@.len() <= 768,
    ensures
        spec_cache_wf(m@, palette@),
{
    let n = palette.len() / 3;
    let mut m: HashMap<u32, u8> = HashMap::new();
    let mut i: usize = 0;
    while i < n
        invariant
            n == palette@.len() / 3,
            palette@.len() % 3 == 0,
            palette@.len() <= 768,
            i <= n,
            forall|k: u32|
                m@.contains_key(k) ==> {
                    let j = #[trigger] m@[k] as int;
                    &&& 0 <= j < i
                    &&& spec_pack_rgb(spec_palette_entry(palette@, j)) == k
                    &&& forall|q: int|
                        0 <= q < j ==> spec_pack_rgb(
                            #[trigger] spec_palette_entry(palette@, q),
                        ) != k
                },
            forall|q: int|
                0 <= q < i ==> m@.contains_key(
                    spec_pack_rgb(#[trigger] spec_palette_entry(palette@, q)) as u32,
                ),
        decreases n - i,
    {
        let entry = palette_entry(palette, i);
        let key = pack_rgb(entry);
        if !m.contains_key(&key) {
            m.insert(key, i as u8);
        }
        i = i + 1;
    }
    m
}

/// Quantizes one color against a palette with its exact-match cache: the
/// exact lowest index on a verbatim hit, otherwise the nearest entry by
/// squared distance with ties broken toward the lowest index.
pub fn find_closest_color(c: Rgb, palette: &Vec<u8>, cache: &HashMap<u32, u8>) -> (r: u8)
    requires
        palette@.len() % 3 == 0,
        3 <= palette@.len() <= 768,
        spec_cache_wf(cache@, palette@),
    ensures
        spec_is_quantized(palette@, c, r as int),
{
    let key = pack_rgb(c);
    if let Some(idx) = cache.get(&key) {
        let r = *idx;
        proof {
            let j = r as int;
            lemma_dist_zero(palette@, j, c);
            crate::color::lemma_pack_rgb_injective(spec_palette_entry(palette@, j), c);
            assert forall|i: int| 0 <= i < palette@.len() / 3 implies spec_dist(palette@, j, c)
                <= #[trigger] spec_dist(palette@, i, c) by {
                lemma_dist_zero(palette@, i, c);
            }
            assert forall|i: int| 0 <= i < j implies #[trigger] spec_dist(palette@, i, c)
                > spec_dist(palette@, j, c) by {
                lemma_dist_zero(palette@, i, c);
                if spec_dist(palette@, i, c) == 0 {
                    crate::color::lemma_pack_rgb_injective(spec_palette_entry(palette@, i), c);
                }
            }
        }
        return r;
    }
    let n = palette.len() / 3;
    let mut best: usize = 0;
    let first = palette_entry(palette, 0);
    let mut best_dist: u32 = color_dist(first, c);
    let mut i: usize = 1;
    proof {
        lemma_dist_zero(palette@, 0, c);
    }
    while i < n
        invariant_except_break
            n == palette@.len() / 3,
            palette@.len() % 3 == 0,
            3 <= palette@.len() <= 768,
            1 <= i <= n,
            best < i,
            best_dist == spec_dist(palette@, best as int, c),
            forall|q: int|
                0 <= q < i ==> best_dist <= #[trigger] spec_dist(palette@, q, c),
            forall|q: int|
                0 <= q < best ==> #[trigger] spec_dist(palette@, q, c) > best_dist,
        ensures
            n == palette@.len() / 3,
            best < n,
            best_dist == spec_dist(palette@, best as int, c),
            forall|q: int|
                0 <= q < n ==> best_dist <= #[trigger] spec_dist(palette@, q, c),
            forall|q: int|
                0 <= q < best ==> #[trigger] spec_dist(palette@, q, c) > best_dist,
        decreases n - i,
    {
        let e = palette_entry(palette, i);
        let d = color_dist(e, c);
        if d < best_dist {
            best = i;
            best_dist = d;
            if d == 0 {
                proof {
                    assert forall|q: int| 0 <= q < n implies best_dist <= #[trigger] spec_dist(
                        palette@,
                        q,
                        c,
                    ) by {
                        lemma_dist_zero(palette@, q, c);
                    }
                }
                break;
            }
        }
        i = i + 1;
    }
    best as u8
}

/// The squared RGB distance between two colors, computed exactly.
fn color_dist(e: Rgb, c: Rgb) -> (d: u32)
    ensures
        d as int == {
            let dr = c.r as int - e.r as int;
            let dg = c.g as int - e.g as int;
            let db = c.b as int - e.b as int;
            dr * dr + dg * dg + db * db
        },
{
    let dr = c.r as i32 - e.r as i32;
    let dg = c.g as i32 - e.g as i32;
    let db = c.b as i32 - e.b as i32;
    proof {
        assert(dr * dr + dg * dg + db * db <= 3 * 255 * 255 && dr * dr >= 0 && dg * dg >= 0 && db
            * db >= 0 && dr * dr <= 255 * 255 && dg * dg <= 255 * 255 && db * db <= 255 * 255)
            by (nonlinear_arith)
            requires
                -255 <= dr <= 255,
                -255 <= dg <= 255,
                -255 <= db <= 255,
        ;
    }
    (dr * dr + dg * dg + db * db) as u32
}


/// The color of pixel `i` in a flat RGB buffer.
pub open spec fn spec_pixel_rgb(px: Seq<u8>, i: int) -> Rgb {
    spec_rgb(px[3 * i], px[3 * i + 1], px[3 * i + 2])
}

/// Quantizes a flat RGB pixel buffer to palette indices, one byte per
/// pixel. An empty palette is rejected.
pub fn quantize_image(pixels: &Vec<u8>, palette: &Vec<u8>, cache: &HashMap<u32, u8>) -> (r: Result<
    Vec<u8>,
    MonochoraError,
>)
    requires
        pixels@.len() % 3 == 0,
        palette@.len() % 3 == 0,
        palette@.len() <= 768,
        spec_cache_wf(cache@, palette@),
    ensures
        r is Ok <==> palette@.len() >= 3,
        r matches Ok(v) ==> v@.len() == pixels@.len() / 3 && (forall|i: int|
            0 <= i < v@.len() ==> spec_is_quantized(
                palette@,
                spec_pixel_rgb(pixels@, i),
                #[trigger] v@[i] as int,
            )),
        r matches Err(e) ==> (e matches MonochoraError::Config(m) && m@
            == "Empty color palette"@),
{
    if palette.len() < 3 {
        return Err(MonochoraError::Config("Empty color palette".to_owned()));
    }
    let n = pixels.len() / 3;
    let mut out: Vec<u8> = Vec::new();
    let mut i: usize = 0;
    while i < n
        invariant
            n == pixels@.len() / 3,
            pixels@.len() % 3 == 0,
            palette@.len() % 3 == 0,
            3 <= palette@.len() <= 768,
            spec_cache_wf(cache@, palette@),
            i <= n,
            out@.len() == i as int,
            forall|q: int|
                0 <= q < i as int ==> spec_is_quantized(
                    palette@,
                    spec_pixel_rgb(pixels@, q),
                    #[trigger] out@[q] as int,
                ),
        decreases n - i,
    {
        let len = pixels.len();
        proof {
            assert(3 * i as int + 2 < pixels@.len()) by (nonlinear_arith)
                requires
                    0 <= i < n,
                    n == pixels@.len() / 3,
                    pixels@.len() % 3 == 0,
            ;
            assert(3 * i as int + 2 < len as int);
        }
        let base = 3 * i;
        let c = Rgb { r: pixels[base], g: pixels[base + 1], b: pixels[base + 2] };
        let idx = find_closest_color(c, palette, cache);
        out.push(idx);
        i = i + 1;
    }
    Ok(out)
}

/// Quantizer idempotence: a color already present verbatim in the palette
/// always quantizes to its first index, never to a scan-derived
/// approximation.
pub proof fn lemma_quantize_exact(p: Seq<u8>, c: Rgb, j: int, r: int)
    requires
        0 <= j < p.len() / 3,
        spec_palette_entry(p, j) == c,
        forall|i: int| 0 <= i < j ==> #[trigger] spec_palette_entry(p, i) != c,
        spec_is_quantized(p, c, r),
    ensures
        r == j,
{
    lemma_dist_zero(p, j, c);
    lemma_dist_zero(p, r, c);
    assert(spec_dist(p, r, c) <= spec_dist(p, j, c));
    assert(spec_dist(p, r, c) == 0);
    assert(spec_palette_entry(p, r) == c);
    if r < j {
        assert(spec_palette_entry(p, r) != c);
    }
    if r > j {
        assert(spec_dist(p, j, c) > spec_dist(p, r, c));
    }
}

/// Palette round trip: quantizing the background and foreground of a
/// monochrome palette reproduces entries 0 and 1 exactly, by construction.
pub proof fn lemma_mono_palette_roundtrip(p: Seq<u8>, bg: Rgb, fg: Rgb, r0: int, r1: int)
    requires
        spec_is_mono_palette(p, bg, fg),
        spec_is_quantized(p, bg, r0),
        spec_is_quantized(p, fg, r1),
    ensures
        r0 == 0,
        fg != bg ==> r1 == 1,
{
    assert(spec_palette_entry(p, 0) == bg);
    lemma_quantize_exact(p, bg, 0, r0);
    if fg != bg {
        assert(spec_palette_entry(p, 1) == fg);
        assert(spec_palette_entry(p, 0) != fg);
        assert forall|i: int| 0 <= i < 1 implies #[trigger] spec_palette_entry(p, i) != fg by {
        }
        lemma_quantize_exact(p, fg, 1, r1);
    }
}

} // verus!
