//! Font glyph coverage: before any painting run, every distinct glyph that
//! will be painted is checked against the font; a glyph the font cannot
//! render is a fatal error naming the offending characters.

use vstd::prelude::*;
use crate::ansi::parse_cells;
use crate::color::Rgb;
use crate::error::MonochoraError;
use crate::painter::{has_escape, spec_has_escape};
use crate::strutil::{chars_to_string, str_chars};

verus! {

#[verifier::external_type_specification]
#[verifier::external_body]
pub struct ExFont<'a>(rusttype::Font<'a>);

/// Relies on rusttype's Font::try_from_bytes: parses font data, `None` for
/// invalid data. Nothing is assumed of the returned font.
#[verifier::external_body]
pub fn load_font(data: &[u8]) -> (r: Option<rusttype::Font<'_>>)
    ensures
        true,
{
    rusttype::Font::try_from_bytes(data)
}

/// Relies on rusttype's IntoGlyphId for char: it looks the code point up in
/// the font's index map and yields glyph id 0 (".notdef") when the font has
/// no glyph for it, without asserting anything about the id, so it cannot
/// panic even on a malformed font.
#[verifier::external_body]
pub fn font_glyph_id(font: &rusttype::Font<'_>, ch: char) -> (id: u16)
    ensures
        true,
{
    rusttype::IntoGlyphId::into_glyph_id(ch, font).0
}

/// Whether a character is a Unicode control character.
pub open spec fn spec_is_control(c: char) -> bool {
    (c as int) < 32 || (127 <= c as int <= 159)
}

/// Whether a character is a control character.
pub fn is_control_char(c: char) -> (r: bool)
    ensures
        r == spec_is_control(c),
{
    let u = c as u32;
    u < 32 || (127 <= u && u <= 160 - 1)
}

/// Whether a line, as displayed, paints glyph `c`: the parsed cells of a
/// line with escapes, every character of a plain line; control characters
/// never count.
pub open spec fn spec_line_has_glyph(line: Seq<char>, c: char) -> bool {
    &&& !spec_is_control(c)
    &&& if spec_has_escape(line) {
        exists|k: int|
            0 <= k < crate::ansi::spec_parse_line(line, crate::painter::spec_black()).len()
                && crate::ansi::spec_parse_line(line, crate::painter::spec_black())[k].character
                == c
    } else {
        line.contains(c)
    }
}

/// Whether any line of any frame paints glyph `c`.
pub open spec fn spec_frames_have_glyph(fs: Seq<Vec<String>>, c: char) -> bool {
    exists|i: int, j: int|
        0 <= i < fs.len() && 0 <= j < fs[i]@.len() && spec_line_has_glyph(#[trigger] fs[i]@[j]@, c)
}

/// A strictly increasing character sequence: sorted, without duplicates.
pub open spec fn spec_strictly_sorted(s: Seq<char>) -> bool {
    forall|a: int, b: int| 0 <= a < b < s.len() ==> (s[a] as int) < (s[b] as int)
}

/// Inserts a character into a strictly sorted vector, keeping it strictly
/// sorted; a character already present is left alone.
fn insert_sorted(out: &mut Vec<char>, c: char)
    requires
        spec_strictly_sorted(old(out)@),
    ensures
        spec_strictly_sorted(final(out)@),
        forall|d: char| final(out)@.contains(d) <==> (old(out)@.contains(d) || d == c),
{
    let mut pos: usize = 0;
    while pos < out.len() && char_lt(out[pos], c)
        invariant
            pos <= out@.len(),
            spec_strictly_sorted(out@),
            out@ == old(out)@,
            forall|q: int| 0 <= q < pos ==> (out@[q] as int) < (c as int),
        decreases out.len() - pos,
    {
        pos = pos + 1;
    }
    if pos < out.len() && out[pos] == c {
        proof {
            assert(out@.contains(c));
        }
        return ;
    }
    let ghost before = out@;
    proof {
        assert(pos < before.len() ==> (before[pos as int] as int) > (c as int));
    }
    out.insert(pos, c);
    proof {
        assert(out@ == before.insert(pos as int, c));
        assert forall|a: int, b: int| 0 <= a < b < out@.len() implies (out@[a] as int) < (
        out@[b] as int) by {
            if b < pos {
                assert(out@[a] == before[a] && out@[b] == before[b]);
            } else if b == pos {
                assert(out@[b] == c && out@[a] == before[a]);
            } else if a == pos {
                assert(out@[a] == c && out@[b] == before[b - 1]);
                assert(b - 1 >= pos && pos < before.len());
                if b - 1 > pos {
                    assert((before[pos as int] as int) < (before[b - 1] as int));
                }
            } else if a > pos {
                assert(out@[a] == before[a - 1] && out@[b] == before[b - 1]);
            } else {
                assert(out@[a] == before[a] && out@[b] == before[b - 1]);
                assert(a < pos && b - 1 >= pos);
                if a == b - 1 {
                    assert(false);
                } else {
                    assert((before[a] as int) < (before[b - 1] as int));
                }
            }
        }
        assert forall|d: char| out@.contains(d) <==> (before.contains(d) || d == c) by {
            if out@.contains(d) {
                let k = choose|k: int| 0 <= k < out@.len() && out@[k] == d;
                if k < pos {
                    assert(before[k] == d);
                } else if k == pos {
                } else {
                    assert(before[k - 1] == d);
                }
            }
            if before.contains(d) {
                let k = choose|k: int| 0 <= k < before.len() && before[k] == d;
                if k < pos {
                    assert(out@[k] == d);
                } else {
                    assert(out@[k + 1] == d);
                }
            }
            if d == c {
                assert(out@[pos as int] == c);
            }
        }
    }
}

/// Whether one character precedes another in code-point order.
fn char_lt(a: char, b: char) -> (r: bool)
    ensures
        r == ((a as int) < (b as int)),
{
    (a as u32) < (b as u32)
}

/// The visible, non-control glyphs of one line, with duplicates.
fn line_visible_glyphs(line: &str) -> (r: Vec<char>)
    ensures
        forall|c: char| r@.contains(c) <==> spec_line_has_glyph(line@, c),
{
    let cs = str_chars(line);
    let mut out: Vec<char> = Vec::new();
    if has_escape(&cs) {
        let cells = parse_cells(&cs, Rgb { r: 0, g: 0, b: 0 });
        let ghost parsed = crate::ansi::spec_parse_line(line@, crate::painter::spec_black());
        let mut k: usize = 0;
        while k < cells.len()
            invariant
                k <= cells@.len(),
                cells@ == parsed,
                forall|c: char|
                    #[trigger] out@.contains(c) <==> (!spec_is_control(c) && exists|q: int|
                        0 <= q < k && (#[trigger] parsed[q]).character == c),
            decreases cells.len() - k,
        {
            let ch = cells[k].character;
            if !is_control_char(ch) {
                let ghost before = out@;
                out.push(ch);
                proof {
                    assert(out@ == before.push(ch));
                    assert forall|c: char|
                        #[trigger] out@.contains(c) <==> (!spec_is_control(c) && exists|q: int|
                            0 <= q < k + 1 && (#[trigger] parsed[q]).character == c) by {
                        if out@.contains(c) {
                            let w = choose|w: int| 0 <= w < out@.len() && out@[w] == c;
                            if w < before.len() {
                                assert(before.contains(c));
                            } else {
                                assert(parsed[k as int].character == c);
                            }
                        }
                        if !spec_is_control(c) && exists|q: int|
                            0 <= q < k + 1 && (#[trigger] parsed[q]).character == c {
                            let q = choose|q: int|
                                0 <= q < k + 1 && (#[trigger] parsed[q]).character == c;
                            if q < k {
                                assert(before.contains(c));
                                let w = choose|w: int| 0 <= w < before.len() && before[w] == c;
                                assert(out@[w] == c);
                            } else {
                                assert(out@[out@.len() - 1] == c);
                            }
                        }
                    }
                }
            } else {
                proof {
                    assert forall|c: char|
                        #[trigger] out@.contains(c) <==> (!spec_is_control(c) && exists|q: int|
                            0 <= q < k + 1 && (#[trigger] parsed[q]).character == c) by {
                        if !spec_is_control(c) && exists|q: int|
                            0 <= q < k + 1 && (#[trigger] parsed[q]).character == c {
                            let q = choose|q: int|
                                0 <= q < k + 1 && (#[trigger] parsed[q]).character == c;
                            assert(q < k);
                        }
                    }
                }
            }
            k = k + 1;
        }
    } else {
        let mut k: usize = 0;
        while k < cs.len()
            invariant
                k <= cs@.len(),
                cs@ == line@,
                !spec_has_escape(line@),
                forall|c: char|
                    #[trigger] out@.contains(c) <==> (!spec_is_control(c) && exists|q: int|
                        0 <= q < k && #[trigger] line@[q] == c),
            decreases cs.len() - k,
        {
            let ch = cs[k];
            if !is_control_char(ch) {
                let ghost before = out@;
                out.push(ch);
                proof {
                    assert(out@ == before.push(ch));
                    assert forall|c: char|
                        #[trigger] out@.contains(c) <==> (!spec_is_control(c) && exists|q: int|
                            0 <= q < k + 1 && #[trigger] line@[q] == c) by {
                        if out@.contains(c) {
                            let w = choose|w: int| 0 <= w < out@.len() && out@[w] == c;
                            if w < before.len() {
                                assert(before.contains(c));
                            } else {
                                assert(line@[k as int] == c);
                            }
                        }
                        if !spec_is_control(c) && exists|q: int| 0 <= q < k + 1 && line@[q] == c {
                            let q = choose|q: int| 0 <= q < k + 1 && line@[q] == c;
                            if q < k {
                                assert(before.contains(c));
                                let w = choose|w: int| 0 <= w < before.len() && before[w] == c;
                                assert(out@[w] == c);
                            } else {
                                assert(out@[out@.len() - 1] == c);
                            }
                        }
                    }
                }
            } else {
                proof {
                    assert forall|c: char|
                        #[trigger] out@.contains(c) <==> (!spec_is_control(c) && exists|q: int|
                            0 <= q < k + 1 && #[trigger] line@[q] == c) by {
                        if !spec_is_control(c) && exists|q: int| 0 <= q < k + 1 && line@[q] == c {
                            let q = choose|q: int| 0 <= q < k + 1 && line@[q] == c;
                            assert(q < k);
                        }
                    }
                }
            }
            k = k + 1;
        }
        proof {
            assert forall|c: char| out@.contains(c) <==> spec_line_has_glyph(line@, c) by {
                if spec_line_has_glyph(line@, c) {
                    let q = choose|q: int| 0 <= q < line@.len() && line@[q] == c;
                }
            }
        }
    }
    out
}

/// Collects every distinct visible glyph painted by a grid of frames, in
/// strictly increasing character order.
pub fn collect_unique_glyphs(frames: &Vec<Vec<String>>) -> (r: Vec<char>)
    ensures
        spec_strictly_sorted(r@),
        forall|c: char| r@.contains(c) <==> spec_frames_have_glyph(frames@, c),
{
    let mut out: Vec<char> = Vec::new();
    let mut i: usize = 0;
    while i < frames.len()
        invariant
            i <= frames@.len(),
            spec_strictly_sorted(out@),
            forall|c: char|
                out@.contains(c) <==> exists|fi: int, j: int|
                    0 <= fi < i && 0 <= j < frames@[fi]@.len() && spec_line_has_glyph(
                        #[trigger] frames@[fi]@[j]@,
                        c,
                    ),
        decreases frames.len() - i,
    {
        let frame = &frames[i];
        let mut j: usize = 0;
        while j < frame.len()
            invariant
                j <= frame@.len(),
                i < frames@.len(),
                frame == &frames@[i as int],
                spec_strictly_sorted(out@),
                forall|c: char|
                    out@.contains(c) <==> ((exists|fi: int, jj: int|
                        0 <= fi < i && 0 <= jj < frames@[fi]@.len() && spec_line_has_glyph(
                            #[trigger] frames@[fi]@[jj]@,
                            c,
                        )) || (exists|jj: int|
                        0 <= jj < j && spec_line_has_glyph(#[trigger] frame@[jj]@, c))),
            decreases frame.len() - j,
        {
            let glyphs = line_visible_glyphs(frame[j].as_str());
            let mut k: usize = 0;
            while k < glyphs.len()
                invariant
                    k <= glyphs@.len(),
                    i < frames@.len(),
                    j < frame@.len(),
                    frame == &frames@[i as int],
                    spec_strictly_sorted(out@),
                    forall|c: char| glyphs@.contains(c) <==> spec_line_has_glyph(frame@[j as int]@, c),
                    forall|c: char|
                        out@.contains(c) <==> ((exists|fi: int, jj: int|
                            0 <= fi < i && 0 <= jj < frames@[fi]@.len() && spec_line_has_glyph(
                                #[trigger] frames@[fi]@[jj]@,
                                c,
                            )) || (exists|jj: int|
                            0 <= jj < j && spec_line_has_glyph(#[trigger] frame@[jj]@, c)) || (
                        exists|q: int| 0 <= q < k && glyphs@[q] == c)),
                decreases glyphs.len() - k,
            {
                let c = glyphs[k];
                let ghost out0 = out@;
                insert_sorted(&mut out, c);
                proof {
                    assert(glyphs@.contains(c));
                    assert forall|c2: char|
                        #[trigger] out@.contains(c2) <==> ((exists|fi: int, jj: int|
                            0 <= fi < i && 0 <= jj < frames@[fi]@.len() && spec_line_has_glyph(
                                #[trigger] frames@[fi]@[jj]@,
                                c2,
                            )) || (exists|jj: int|
                            0 <= jj < j && spec_line_has_glyph(#[trigger] frame@[jj]@, c2)) || (
                        exists|q: int| 0 <= q < k + 1 && glyphs@[q] == c2)) by {
                        if out@.contains(c2) {
                            if !out0.contains(c2) {
                                assert(c2 == c);
                                assert(glyphs@[k as int] == c2);
                            }
                        }
                        if exists|q: int| 0 <= q < k + 1 && glyphs@[q] == c2 {
                            let q = choose|q: int| 0 <= q < k + 1 && glyphs@[q] == c2;
                            if q < k {
                                assert(out0.contains(c2));
                            } else {
                                assert(c2 == c);
                            }
                        }
                    }
                }
                k = k + 1;
            }
            proof {
                assert forall|c: char|
                    out@.contains(c) <==> ((exists|fi: int, jj: int|
                        0 <= fi < i && 0 <= jj < frames@[fi]@.len() && spec_line_has_glyph(
                            #[trigger] frames@[fi]@[jj]@,
                            c,
                        )) || (exists|jj: int|
                        0 <= jj < j + 1 && spec_line_has_glyph(#[trigger] frame@[jj]@, c))) by {
                    if exists|jj: int|
                        0 <= jj < j + 1 && spec_line_has_glyph(#[trigger] frame@[jj]@, c) {
                        let jj = choose|jj: int|
                            0 <= jj < j + 1 && spec_line_has_glyph(#[trigger] frame@[jj]@, c);
                        if jj == j {
                            assert(glyphs@.contains(c));
                        }
                    }
                }
            }
            j = j + 1;
        }
        proof {
            assert forall|c: char|
                out@.contains(c) <==> exists|fi: int, j2: int|
                    0 <= fi < i + 1 && 0 <= j2 < frames@[fi]@.len() && spec_line_has_glyph(
                        #[trigger] frames@[fi]@[j2]@,
                        c,
                    ) by {
                if exists|fi: int, j2: int|
                    0 <= fi < i + 1 && 0 <= j2 < frames@[fi]@.len() && spec_line_has_glyph(
                        #[trigger] frames@[fi]@[j2]@,
                        c,
                    ) {
                    let (fi, j2): (int, int) = choose|fi: int, j2: int|
                        0 <= fi < i + 1 && 0 <= j2 < frames@[fi]@.len() && spec_line_has_glyph(
                            #[trigger] frames@[fi]@[j2]@,
                            c,
                        );
                }
            }
        }
        i = i + 1;
    }
    out
}

/// Filters the glyphs reported missing, keeping their order: entry `k` of
/// `missing` says whether glyph `k` has no glyph in the font.
pub fn unsupported_glyphs(glyphs: &Vec<char>, missing: &Vec<bool>) -> (r: Vec<char>)
    requires
        glyphs@.len() == missing@.len(),
        spec_strictly_sorted(glyphs@),
    ensures
        spec_strictly_sorted(r@),
        forall|c: char|
            r@.contains(c) <==> exists|k: int|
                0 <= k < glyphs@.len() && glyphs@[k] == c && #[trigger] missing@[k],
        r@.len() == 0 <==> (forall|k: int| 0 <= k < glyphs@.len() ==> !(#[trigger] missing@[k])),
{
    let mut out: Vec<char> = Vec::new();
    let mut k: usize = 0;
    while k < glyphs.len()
        invariant
            k <= glyphs@.len(),
            glyphs@.len() == missing@.len(),
            spec_strictly_sorted(glyphs@),
            spec_strictly_sorted(out@),
            out@.len() > 0 ==> exists|w: int|
                0 <= w < k && glyphs@[w] == out@[out@.len() - 1] && (forall|q: int|
                    0 <= q < out@.len() ==> (out@[q] as int) <= (glyphs@[w] as int)),
            forall|c: char|
                out@.contains(c) <==> exists|q: int|
                    0 <= q < k && glyphs@[q] == c && #[trigger] missing@[q],
            out@.len() == 0 <==> (forall|q: int| 0 <= q < k ==> !(#[trigger] missing@[q])),
        decreases glyphs.len() - k,
    {
        if missing[k] {
            let c = glyphs[k];
            let ghost before = out@;
            out.push(c);
            proof {
                assert(out@ == before.push(c));
                if before.len() > 0 {
                    let w = choose|w: int|
                        0 <= w < k && glyphs@[w] == before[before.len() - 1] && (forall|q: int|
                            0 <= q < before.len() ==> (before[q] as int) <= (glyphs@[w] as int));
                    assert((glyphs@[w] as int) < (glyphs@[k as int] as int));
                }
                assert forall|a: int, b: int| 0 <= a < b < out@.len() implies (out@[a] as int) < (
                out@[b] as int) by {
                    if b == out@.len() - 1 && before.len() > 0 {
                        let w = choose|w: int|
                            0 <= w < k && glyphs@[w] == before[before.len() - 1] && (forall|q: int|
                                0 <= q < before.len() ==> (before[q] as int) <= (
                                glyphs@[w] as int));
                        assert((out@[a] as int) <= (glyphs@[w] as int));
                    }
                }
                assert forall|c2: char|
                    out@.contains(c2) <==> exists|q: int|
                        0 <= q < k + 1 && glyphs@[q] == c2 && #[trigger] missing@[q] by {
                    if out@.contains(c2) {
                        let w = choose|w: int| 0 <= w < out@.len() && out@[w] == c2;
                        if w < out@.len() - 1 {
                            assert(before.contains(c2));
                        } else {
                            assert(glyphs@[k as int] == c2 && missing@[k as int]);
                        }
                    }
                    if exists|q: int| 0 <= q < k + 1 && glyphs@[q] == c2 && #[trigger] missing@[q] {
                        let q = choose|q: int|
                            0 <= q < k + 1 && glyphs@[q] == c2 && #[trigger] missing@[q];
                        if q < k {
                            assert(before.contains(c2));
                            let w = choose|w: int| 0 <= w < before.len() && before[w] == c2;
                            assert(out@[w] == c2);
                        } else {
                            assert(out@[out@.len() - 1] == c2);
                        }
                    }
                }
            }
        } else {
            proof {
                assert forall|c2: char|
                    out@.contains(c2) <==> exists|q: int|
                        0 <= q < k + 1 && glyphs@[q] == c2 && #[trigger] missing@[q] by {
                    if exists|q: int| 0 <= q < k + 1 && glyphs@[q] == c2 && #[trigger] missing@[q] {
                        let q = choose|q: int|
                            0 <= q < k + 1 && glyphs@[q] == c2 && #[trigger] missing@[q];
                        assert(q < k);
                    }
                }
            }
        }
        k = k + 1;
    }
    out
}

/// Checks every distinct glyph of the frames against the font's coverage:
/// any glyph without a font glyph is a fatal error naming the offending
/// characters, in sorted order. Whether a given glyph is covered is the
/// font's own answer, so success can be promised only where nothing is
/// checked; the error, when it comes, names a nonempty, strictly sorted set
/// of glyphs that the frames really paint.
pub fn validate_font_charset_support(frames: &Vec<Vec<String>>, font: &rusttype::Font<'_>) -> (r:
    Result<(), MonochoraError>)
    ensures
        (forall|c: char| !spec_frames_have_glyph(frames@, c)) ==> r is Ok,
        r matches Err(e) ==> (e matches MonochoraError::UnsupportedFontCharacters { characters }
            && characters@.len() > 0 && spec_strictly_sorted(characters@) && (forall|j: int|
            0 <= j < characters@.len() ==> spec_frames_have_glyph(
                frames@,
                #[trigger] characters@[j],
            ))),
{
    let glyphs = collect_unique_glyphs(frames);
    let mut missing: Vec<bool> = Vec::new();
    let mut k: usize = 0;
    while k < glyphs.len()
        invariant
            k <= glyphs@.len(),
            missing@.len() == k as int,
        decreases glyphs.len() - k,
    {
        missing.push(font_glyph_id(font, glyphs[k]) == 0);
        k = k + 1;
    }
    let bad = unsupported_glyphs(&glyphs, &missing);
    if bad.len() > 0 {
        let characters = chars_to_string(&bad);
        proof {
            assert forall|j: int| 0 <= j < characters@.len() implies spec_frames_have_glyph(
                frames@,
                #[trigger] characters@[j],
            ) by {
                assert(bad@.contains(bad@[j]));
                let q = choose|q: int|
                    0 <= q < glyphs@.len() && glyphs@[q] == bad@[j] && #[trigger] missing@[q];
                assert(glyphs@.contains(glyphs@[q]));
            }
            assert(characters@.len() > 0);
            assert(spec_frames_have_glyph(frames@, characters@[0]));
        }
        return Err(MonochoraError::UnsupportedFontCharacters { characters });
    }
    proof {
        if exists|c: char| spec_frames_have_glyph(frames@, c) {
        }
    }
    Ok(())
}

} // verus!
