//! Inline foreground-color escape runs: serializing colored cells to
//! character sequences for terminal display, and parsing such sequences back
//! into discrete colored spans.
//!
//! A colored cell is written as `ESC [ 3 8 ; 2 ; r ; g ; b m` followed by its
//! glyph; a line ends with the reset `ESC [ 0 m`. The parser accepts any
//! character sequence: a color escape sets the current color for the text
//! that follows, a reset is skipped, an unrecognized escape character is
//! dropped, and every other character becomes a cell carrying the current
//! color.

use vstd::prelude::*;
use crate::color::Rgb;

verus! {

/// One parsed cell: a glyph and the foreground color it carries.
#[derive(Debug, Clone, Copy, PartialEq, Eq, Structural)]
pub struct ColoredCharacter {
    pub character: char,
    pub color: Rgb,
}

/// The character for one decimal digit value.
pub open spec fn spec_digit_char(d: int) -> char {
    if d == 0 {
        '0'
    } else if d == 1 {
        '1'
    } else if d == 2 {
        '2'
    } else if d == 3 {
        '3'
    } else if d == 4 {
        '4'
    } else if d == 5 {
        '5'
    } else if d == 6 {
        '6'
    } else if d == 7 {
        '7'
    } else if d == 8 {
        '8'
    } else {
        '9'
    }
}

/// Whether a character is a decimal digit.
pub open spec fn spec_is_digit(c: char) -> bool {
    48 <= c as int <= 57
}

/// The numeric value of a digit character.
pub open spec fn spec_digit_val(c: char) -> int {
    c as int - 48
}

/// The shortest decimal rendering of a byte value, most significant digit
/// first.
pub open spec fn spec_dec_u8(n: int) -> Seq<char> {
    if n < 10 {
        seq![spec_digit_char(n)]
    } else if n < 100 {
        seq![spec_digit_char(n / 10), spec_digit_char(n % 10)]
    } else {
        seq![spec_digit_char(n / 100), spec_digit_char((n / 10) % 10), spec_digit_char(n % 10)]
    }
}

/// The escape prefix that selects a foreground color, up to and including
/// the final `m`.
pub open spec fn spec_color_prefix(c: Rgb) -> Seq<char> {
    seq!['\x1b', '[', '3', '8', ';', '2', ';'] + spec_dec_u8(c.r as int) + seq![';'] + spec_dec_u8(
        c.g as int,
    ) + seq![';'] + spec_dec_u8(c.b as int) + seq!['m']
}

/// A colored cell's full serialized form: its color prefix, then its glyph.
pub open spec fn spec_encode_cell(cc: ColoredCharacter) -> Seq<char> {
    spec_color_prefix(cc.color).push(cc.character)
}

/// The reset escape that ends a colored line.
pub open spec fn spec_reset_seq() -> Seq<char> {
    seq!['\x1b', '[', '0', 'm']
}

/// The digit character for a digit value.
pub fn digit_char(d: u8) -> (c: char)
    requires
        d < 10,
    ensures
        c == spec_digit_char(d as int),
{
    match d {
        0 => '0',
        1 => '1',
        2 => '2',
        3 => '3',
        4 => '4',
        5 => '5',
        6 => '6',
        7 => '7',
        8 => '8',
        _ => '9',
    }
}

/// Appends the shortest decimal rendering of a byte.
pub fn push_decimal_u8(out: &mut Vec<char>, n: u8)
    ensures
        final(out)@ == old(out)@ + spec_dec_u8(n as int),
{
    if n < 10 {
        out.push(digit_char(n));
        proof {
            assert(out@ =~= old(out)@ + spec_dec_u8(n as int));
        }
    } else if n < 100 {
        out.push(digit_char(n / 10));
        out.push(digit_char(n % 10));
        proof {
            assert(out@ =~= old(out)@ + spec_dec_u8(n as int));
        }
    } else {
        out.push(digit_char(n / 100));
        out.push(digit_char((n / 10) % 10));
        out.push(digit_char(n % 10));
        proof {
            assert(out@ =~= old(out)@ + spec_dec_u8(n as int));
        }
    }
}

/// Appends the color-selecting escape for a color.
pub fn push_color_prefix(out: &mut Vec<char>, c: Rgb)
    ensures
        final(out)@ == old(out)@ + spec_color_prefix(c),
{
    out.push('\x1b');
    out.push('[');
    out.push('3');
    out.push('8');
    out.push(';');
    out.push('2');
    out.push(';');
    push_decimal_u8(out, c.r);
    out.push(';');
    push_decimal_u8(out, c.g);
    out.push(';');
    push_decimal_u8(out, c.b);
    out.push('m');
    proof {
        assert(out@ =~= old(out)@ + spec_color_prefix(c));
    }
}

/// Appends one colored cell: its color prefix, then its glyph.
pub fn push_encoded_cell(out: &mut Vec<char>, cc: ColoredCharacter)
    ensures
        final(out)@ == old(out)@ + spec_encode_cell(cc),
{
    push_color_prefix(out, cc.color);
    out.push(cc.character);
    proof {
        assert(out@ =~= old(out)@ + spec_encode_cell(cc));
    }
}

/// The first index at or after `i` that does not hold a digit.
pub open spec fn spec_digit_run_end(s: Seq<char>, i: int) -> int
    decreases s.len() - i,
{
    if i < s.len() && spec_is_digit(s[i]) {
        spec_digit_run_end(s, i + 1)
    } else {
        i
    }
}

/// A digit run's end lies between its start and the end of the sequence,
/// everything inside the run is a digit, and the run is maximal.
pub proof fn lemma_digit_run_end_bounds(s: Seq<char>, i: int)
    requires
        0 <= i <= s.len(),
    ensures
        i <= spec_digit_run_end(s, i) <= s.len(),
        forall|k: int| i <= k < spec_digit_run_end(s, i) ==> spec_is_digit(s[k]),
        spec_digit_run_end(s, i) < s.len() ==> !spec_is_digit(s[spec_digit_run_end(s, i)]),
    decreases s.len() - i,
{
    if i < s.len() && spec_is_digit(s[i]) {
        lemma_digit_run_end_bounds(s, i + 1);
    }
}

/// The value of the digit run `s[i..j)`, read left to right and saturated at
/// 300 so that any component larger than a byte is recognizably out of range.
pub open spec fn spec_run_value(s: Seq<char>, i: int, j: int) -> int
    decreases j - i,
{
    if j <= i {
        0
    } else {
        let prev = spec_run_value(s, i, j - 1);
        let v = prev * 10 + spec_digit_val(s[j - 1]);
        if v > 300 {
            300
        } else {
            v
        }
    }
}

/// A saturated run value never leaves `[0, 300]`.
pub proof fn lemma_run_value_bounds(s: Seq<char>, i: int, j: int)
    requires
        i <= j,
        forall|k: int| i <= k < j ==> spec_is_digit(s[k]),
    ensures
        0 <= spec_run_value(s, i, j) <= 300,
    decreases j - i,
{
    if j > i {
        lemma_run_value_bounds(s, i, j - 1);
    }
}

/// Whether the reset escape `ESC [ 0 m` starts at `i`.
pub open spec fn spec_reset_at(s: Seq<char>, i: int) -> bool {
    &&& i + 4 <= s.len()
    &&& s[i] == '\x1b'
    &&& s[i + 1] == '['
    &&& s[i + 2] == '0'
    &&& s[i + 3] == 'm'
}

/// Tries to read a color-selecting escape starting at `i`: on success yields
/// the selected color and the index just past the final `m`. Each of the
/// three components must be a nonempty digit run with value at most 255.
pub open spec fn spec_color_escape_at(s: Seq<char>, i: int) -> Option<(Rgb, int)> {
    if !(0 <= i && i + 7 <= s.len() && s[i] == '\x1b' && s[i + 1] == '[' && s[i + 2] == '3' && s[i
        + 3] == '8' && s[i + 4] == ';' && s[i + 5] == '2' && s[i + 6] == ';') {
        None
    } else {
        let p1 = i + 7;
        let e1 = spec_digit_run_end(s, p1);
        if !(e1 > p1 && e1 < s.len() && s[e1] == ';') {
            None
        } else {
            let p2 = e1 + 1;
            let e2 = spec_digit_run_end(s, p2);
            if !(e2 > p2 && e2 < s.len() && s[e2] == ';') {
                None
            } else {
                let p3 = e2 + 1;
                let e3 = spec_digit_run_end(s, p3);
                if !(e3 > p3 && e3 < s.len() && s[e3] == 'm') {
                    None
                } else {
                    let v1 = spec_run_value(s, p1, e1);
                    let v2 = spec_run_value(s, p2, e2);
                    let v3 = spec_run_value(s, p3, e3);
                    if v1 <= 255 && v2 <= 255 && v3 <= 255 {
                        Some((Rgb { r: v1 as u8, g: v2 as u8, b: v3 as u8 }, e3 + 1))
                    } else {
                        None
                    }
                }
            }
        }
    }
}

/// A recognized color escape always makes progress and stays in bounds.
pub proof fn lemma_color_escape_bounds(s: Seq<char>, i: int)
    requires
        0 <= i <= s.len(),
    ensures
        spec_color_escape_at(s, i) matches Some(p) ==> i < p.1 <= s.len(),
{
    if spec_color_escape_at(s, i) is Some {
        lemma_digit_run_end_bounds(s, i + 7);
        let e1 = spec_digit_run_end(s, i + 7);
        lemma_digit_run_end_bounds(s, e1 + 1);
        let e2 = spec_digit_run_end(s, e1 + 1);
        lemma_digit_run_end_bounds(s, e2 + 1);
    }
}

/// A parsed cell.
pub open spec fn spec_cell(c: char, color: Rgb) -> ColoredCharacter {
    ColoredCharacter { character: c, color }
}

/// The whole parse, from position `i` with current color `cur`: ordinary
/// characters become cells with the current color, a color escape switches
/// the current color, a reset is skipped, and a lone escape character is
/// dropped.
pub open spec fn spec_parse_from(s: Seq<char>, i: int, cur: Rgb) -> Seq<ColoredCharacter>
    decreases s.len() - i,
{
    if i >= s.len() {
        Seq::empty()
    } else if s[i] != '\x1b' {
        seq![spec_cell(s[i], cur)] + spec_parse_from(s, i + 1, cur)
    } else if spec_reset_at(s, i) {
        spec_parse_from(s, i + 4, cur)
    } else {
        match spec_color_escape_at(s, i) {
            Some(p) => if i < p.1 <= s.len() {
                spec_parse_from(s, p.1, p.0)
            } else {
                Seq::empty()
            },
            None => spec_parse_from(s, i + 1, cur),
        }
    }
}

/// Unfolding the parser one step at an ordinary character.
pub proof fn lemma_parse_step_text(s: Seq<char>, i: int, cur: Rgb)
    requires
        0 <= i < s.len(),
        s[i] != '\x1b',
    ensures
        spec_parse_from(s, i, cur) == seq![spec_cell(s[i], cur)] + spec_parse_from(s, i + 1, cur),
{
}

/// Parsing a whole line, starting from the default foreground color.
pub open spec fn spec_parse_line(s: Seq<char>, default_color: Rgb) -> Seq<ColoredCharacter> {
    spec_parse_from(s, 0, default_color)
}

/// Whether a character is a decimal digit.
pub fn is_digit_char(c: char) -> (r: bool)
    ensures
        r == spec_is_digit(c),
{
    let u = c as u32;
    48 <= u && u <= 57
}

/// Finds the end of the digit run starting at `i`.
fn digit_run_end(s: &Vec<char>, i: usize) -> (e: usize)
    requires
        i <= s.len(),
    ensures
        e == spec_digit_run_end(s@, i as int),
        i <= e <= s.len(),
{
    let mut j = i;
    while j < s.len() && is_digit_char(s[j])
        invariant
            i <= j <= s.len(),
            spec_digit_run_end(s@, i as int) == spec_digit_run_end(s@, j as int),
        decreases s.len() - j,
    {
        j = j + 1;
    }
    j
}

/// Computes the saturated value of the digit run `s[i..j)`.
fn run_value(s: &Vec<char>, i: usize, j: usize) -> (v: u32)
    requires
        i <= j <= s.len(),
        forall|k: int| i <= k < j ==> spec_is_digit(s@[k]),
    ensures
        v == spec_run_value(s@, i as int, j as int),
        v <= 300,
{
    let mut v: u32 = 0;
    let mut k = i;
    while k < j
        invariant
            i <= k <= j <= s.len(),
            forall|q: int| i <= q < j ==> spec_is_digit(s@[q]),
            v == spec_run_value(s@, i as int, k as int),
            v <= 300,
        decreases j - k,
    {
        let d = s[k] as u32 - 48;
        let next = v * 10 + d;
        v = if next > 300 {
            300
        } else {
            next
        };
        k = k + 1;
    }
    v
}

/// Tries to read a color-selecting escape at `i`.
fn color_escape_at(s: &Vec<char>, i: usize) -> (r: Option<(Rgb, usize)>)
    requires
        i <= s.len(),
    ensures
        r is Some <==> spec_color_escape_at(s@, i as int) is Some,
        r matches Some(p) ==> spec_color_escape_at(s@, i as int) == Some((p.0, p.1 as int)),
{
    if !(i < s.len() && s.len() - i >= 7 && s[i] == '\x1b' && s[i + 1] == '[' && s[i + 2] == '3'
        && s[i + 3] == '8' && s[i + 4] == ';' && s[i + 5] == '2' && s[i + 6] == ';') {
        return None;
    }
    let p1 = i + 7;
    let e1 = digit_run_end(s, p1);
    if !(e1 > p1 && e1 < s.len() && s[e1] == ';') {
        return None;
    }
    let p2 = e1 + 1;
    let e2 = digit_run_end(s, p2);
    if !(e2 > p2 && e2 < s.len() && s[e2] == ';') {
        return None;
    }
    let p3 = e2 + 1;
    let e3 = digit_run_end(s, p3);
    if !(e3 > p3 && e3 < s.len() && s[e3] == 'm') {
        return None;
    }
    proof {
        lemma_digit_run_end_bounds(s@, p1 as int);
        lemma_digit_run_end_bounds(s@, p2 as int);
        lemma_digit_run_end_bounds(s@, p3 as int);
    }
    let v1 = run_value(s, p1, e1);
    let v2 = run_value(s, p2, e2);
    let v3 = run_value(s, p3, e3);
    if v1 <= 255 && v2 <= 255 && v3 <= 255 {
        Some((Rgb { r: v1 as u8, g: v2 as u8, b: v3 as u8 }, e3 + 1))
    } else {
        None
    }
}

/// Parses a character sequence into colored cells, starting from the given
/// default foreground color.
pub fn parse_cells(s: &Vec<char>, default_color: Rgb) -> (r: Vec<ColoredCharacter>)
    ensures
        r@ == spec_parse_line(s@, default_color),
{
    let mut out: Vec<ColoredCharacter> = Vec::new();
    let mut cur = default_color;
    let mut i: usize = 0;
    while i < s.len()
        invariant
            i <= s.len(),
            spec_parse_line(s@, default_color) == out@ + spec_parse_from(s@, i as int, cur),
        decreases s.len() - i,
    {
        let c = s[i];
        if c != '\x1b' {
            out.push(ColoredCharacter { character: c, color: cur });
            proof {
                lemma_parse_step_text(s@, i as int, cur);
                assert(spec_parse_line(s@, default_color) =~= out@ + spec_parse_from(
                    s@,
                    i + 1,
                    cur,
                ));
            }
            i = i + 1;
        } else if s.len() - i >= 4 && s[i + 1] == '[' && s[i + 2] == '0' && s[i + 3] == 'm' {
            proof {
                assert(spec_reset_at(s@, i as int));
                assert(spec_parse_from(s@, i as int, cur) == spec_parse_from(s@, i + 4, cur));
            }
            i = i + 4;
        } else {
            proof {
                assert(!spec_reset_at(s@, i as int));
            }
            match color_escape_at(s, i) {
                Some(p) => {
                    proof {
                        lemma_color_escape_bounds(s@, i as int);
                    }
                    cur = p.0;
                    i = p.1;
                },
                None => {
                    i = i + 1;
                },
            }
        }
    }
    proof {
        assert(spec_parse_line(s@, default_color) =~= out@);
    }
    out
}

/// Appends the reset escape.
pub fn push_reset(out: &mut Vec<char>)
    ensures
        final(out)@ == old(out)@ + spec_reset_seq(),
{
    out.push('\x1b');
    out.push('[');
    out.push('0');
    out.push('m');
    proof {
        assert(out@ =~= old(out)@ + spec_reset_seq());
    }
}


/// A digit's character reads back as its value.
pub proof fn lemma_digit_char_val(d: int)
    requires
        0 <= d < 10,
    ensures
        spec_is_digit(spec_digit_char(d)),
        spec_digit_val(spec_digit_char(d)) == d,
{
}

/// Every character of a decimal rendering is a digit.
pub proof fn lemma_dec_u8_digits(n: int)
    requires
        0 <= n <= 255,
    ensures
        1 <= spec_dec_u8(n).len() <= 3,
        forall|k: int| 0 <= k < spec_dec_u8(n).len() ==> spec_is_digit(#[trigger] spec_dec_u8(n)[k]),
{
    if n < 10 {
        lemma_digit_char_val(n);
    } else if n < 100 {
        lemma_digit_char_val(n / 10);
        lemma_digit_char_val(n % 10);
    } else {
        lemma_digit_char_val(n / 100);
        lemma_digit_char_val((n / 10) % 10);
        lemma_digit_char_val(n % 10);
    }
}

/// A digit run bounded by a non-digit ends exactly at that non-digit.
pub proof fn lemma_digit_run_end_exact(s: Seq<char>, p: int, e: int)
    requires
        0 <= p <= e < s.len(),
        forall|k: int| p <= k < e ==> spec_is_digit(#[trigger] s[k]),
        !spec_is_digit(s[e]),
    ensures
        spec_digit_run_end(s, p) == e,
    decreases e - p,
{
    if p < e {
        lemma_digit_run_end_exact(s, p + 1, e);
    }
}

/// A decimal rendering embedded in a sequence reads back as its value.
pub proof fn lemma_run_value_of_dec(s: Seq<char>, p: int, n: int)
    requires
        0 <= n <= 255,
        0 <= p,
        p + spec_dec_u8(n).len() <= s.len(),
        s.subrange(p, p + spec_dec_u8(n).len() as int) == spec_dec_u8(n),
    ensures
        spec_run_value(s, p, p + spec_dec_u8(n).len() as int) == n,
{
    reveal_with_fuel(spec_run_value, 5);
    let d = spec_dec_u8(n);
    assert(forall|k: int| 0 <= k < d.len() ==> s[p + k] == #[trigger] d[k]) by {
        assert(forall|k: int|
            0 <= k < d.len() ==> s.subrange(p, p + d.len() as int)[k] == #[trigger] d[k]);
    }
    if n < 10 {
        lemma_digit_char_val(n);
        assert(s[p + 0] == d[0]);
        assert(s[p] == spec_digit_char(n));
        assert(spec_digit_val(s[p]) == n);
        assert(spec_run_value(s, p, p) == 0);
        assert(0 * 10 + spec_digit_val(s[p]) == spec_digit_val(s[p])) by (nonlinear_arith);
        assert(spec_run_value(s, p, p + 1) == spec_digit_val(s[p]));
    } else if n < 100 {
        lemma_digit_char_val(n / 10);
        lemma_digit_char_val(n % 10);
        assert(s[p] == spec_digit_char(n / 10) && s[p + 1] == spec_digit_char(n % 10));
        assert(spec_run_value(s, p, p + 2) == (n / 10) * 10 + n % 10);
        assert((n / 10) * 10 + n % 10 == n) by (nonlinear_arith)
            requires
                0 <= n,
        ;
    } else {
        lemma_digit_char_val(n / 100);
        lemma_digit_char_val((n / 10) % 10);
        lemma_digit_char_val(n % 10);
        assert(s[p] == spec_digit_char(n / 100) && s[p + 1] == spec_digit_char((n / 10) % 10) && s[
            p + 2] == spec_digit_char(n % 10));
        assert(spec_run_value(s, p, p + 1) == n / 100);
        assert(spec_run_value(s, p, p + 2) == (n / 100) * 10 + (n / 10) % 10) by {
            assert(n / 100 <= 2);
        }
        assert(spec_run_value(s, p, p + 3) == ((n / 100) * 10 + (n / 10) % 10) * 10 + n % 10) by {
            assert((n / 100) * 10 + (n / 10) % 10 <= 29);
        }
        assert(((n / 100) * 10 + (n / 10) % 10) * 10 + n % 10 == n) by (nonlinear_arith)
            requires
                100 <= n <= 255,
        ;
    }
}



/// One serialized colored cell parses back to itself: at its position the
/// parser recognizes exactly its color escape, emits its glyph with its
/// color, and continues right after it with that color current.
pub proof fn lemma_parse_encoded_cell(s: Seq<char>, i: int, cc: ColoredCharacter, cur: Rgb)
    requires
        0 <= i,
        i + spec_encode_cell(cc).len() <= s.len(),
        s.subrange(i, i + spec_encode_cell(cc).len() as int) == spec_encode_cell(cc),
        cc.character != '\x1b',
    ensures
        spec_parse_from(s, i, cur) == seq![cc] + spec_parse_from(
            s,
            i + spec_encode_cell(cc).len() as int,
            cc.color,
        ),
{
    let enc = spec_encode_cell(cc);
    let dr = spec_dec_u8(cc.color.r as int);
    let dg = spec_dec_u8(cc.color.g as int);
    let db = spec_dec_u8(cc.color.b as int);
    lemma_dec_u8_digits(cc.color.r as int);
    lemma_dec_u8_digits(cc.color.g as int);
    lemma_dec_u8_digits(cc.color.b as int);
    let head = seq!['\x1b', '[', '3', '8', ';', '2', ';'];
    let p1 = i + 7;
    let e1 = p1 + dr.len() as int;
    let p2 = e1 + 1;
    let e2 = p2 + dg.len() as int;
    let p3 = e2 + 1;
    let e3 = p3 + db.len() as int;
    let l = enc.len() as int;
    assert(enc == spec_color_prefix(cc.color).push(cc.character));
    assert(l == e3 + 2 - i);
    assert(forall|k: int| 0 <= k < l ==> s[i + k] == #[trigger] enc[k]) by {
        assert(forall|k: int|
            0 <= k < l ==> s.subrange(i, i + l)[k] == #[trigger] enc[k]);
    }
    assert(forall|k: int| 0 <= k < 7 ==> enc[k] == #[trigger] head[k]);
    assert(s[i] == '\x1b' && s[i + 1] == '[' && s[i + 2] == '3' && s[i + 3] == '8' && s[i + 4]
        == ';' && s[i + 5] == '2' && s[i + 6] == ';');
    assert(forall|k: int| 0 <= k < dr.len() ==> enc[7 + k] == #[trigger] dr[k]);
    assert(forall|k: int| 0 <= k < dr.len() ==> s[p1 + k] == #[trigger] dr[k]);
    assert(enc[e1 - i] == ';');
    assert(s[e1] == ';');
    assert(forall|k: int| 0 <= k < dg.len() ==> enc[(p2 - i) + k] == #[trigger] dg[k]);
    assert(forall|k: int| 0 <= k < dg.len() ==> s[p2 + k] == #[trigger] dg[k]);
    assert(enc[e2 - i] == ';');
    assert(s[e2] == ';');
    assert(forall|k: int| 0 <= k < db.len() ==> enc[(p3 - i) + k] == #[trigger] db[k]);
    assert(forall|k: int| 0 <= k < db.len() ==> s[p3 + k] == #[trigger] db[k]);
    assert(enc[e3 - i] == 'm');
    assert(s[e3] == 'm');
    assert(enc[l - 1] == cc.character);
    assert(s[e3 + 1] == cc.character);
    assert(!spec_reset_at(s, i));
    assert forall|k: int| p1 <= k < e1 implies spec_is_digit(#[trigger] s[k]) by {
        assert(s[p1 + (k - p1)] == dr[k - p1]);
        assert(spec_is_digit(dr[k - p1]));
    }
    lemma_digit_run_end_exact(s, p1, e1);
    assert(s.subrange(p1, e1) =~= dr);
    lemma_run_value_of_dec(s, p1, cc.color.r as int);
    assert forall|k: int| p2 <= k < e2 implies spec_is_digit(#[trigger] s[k]) by {
        assert(s[p2 + (k - p2)] == dg[k - p2]);
        assert(spec_is_digit(dg[k - p2]));
    }
    lemma_digit_run_end_exact(s, p2, e2);
    assert(s.subrange(p2, e2) =~= dg);
    lemma_run_value_of_dec(s, p2, cc.color.g as int);
    assert forall|k: int| p3 <= k < e3 implies spec_is_digit(#[trigger] s[k]) by {
        assert(s[p3 + (k - p3)] == db[k - p3]);
        assert(spec_is_digit(db[k - p3]));
    }
    lemma_digit_run_end_exact(s, p3, e3);
    assert(s.subrange(p3, e3) =~= db);
    lemma_run_value_of_dec(s, p3, cc.color.b as int);
    assert(spec_color_escape_at(s, i) == Some((cc.color, e3 + 1))) by {
        assert(spec_run_value(s, p1, e1) == cc.color.r as int);
        assert(spec_run_value(s, p2, e2) == cc.color.g as int);
        assert(spec_run_value(s, p3, e3) == cc.color.b as int);
        assert(cc.color == (Rgb {
            r: (cc.color.r as int) as u8,
            g: (cc.color.g as int) as u8,
            b: (cc.color.b as int) as u8,
        }));
    }
    assert(spec_parse_from(s, i, cur) == spec_parse_from(s, e3 + 1, cc.color));
    lemma_parse_step_text(s, e3 + 1, cc.color);
    assert(spec_cell(s[e3 + 1], cc.color) == cc);
    assert(spec_parse_from(s, i, cur) =~= seq![cc] + spec_parse_from(s, i + l, cc.color));
}


} // verus!
