//! Input-source classification: whether an input names a network location,
//! and which downloaded file extensions are recognized.

use vstd::prelude::*;
use crate::strutil::{chars_to_string, str_chars};

verus! {

/// Whether a character sequence starts with an `http` or `https` scheme.
pub open spec fn spec_is_url(s: Seq<char>) -> bool {
    ||| (s.len() >= 7 && s.subrange(0, 7) == seq!['h', 't', 't', 'p', ':', '/', '/'])
    ||| (s.len() >= 8 && s.subrange(0, 8) == seq!['h', 't', 't', 'p', 's', ':', '/', '/'])
}

/// Whether an input names a network location rather than a local file.
pub fn is_url(input: &str) -> (r: bool)
    ensures
        r == spec_is_url(input@),
{
    let cs = str_chars(input);
    if cs.len() >= 7 && cs[0] == 'h' && cs[1] == 't' && cs[2] == 't' && cs[3] == 'p' && cs[4] == ':'
        && cs[5] == '/' && cs[6] == '/' {
        proof {
            assert(input@.subrange(0, 7) =~= seq!['h', 't', 't', 'p', ':', '/', '/']);
        }
        return true;
    }
    if cs.len() >= 8 && cs[0] == 'h' && cs[1] == 't' && cs[2] == 't' && cs[3] == 'p' && cs[4] == 's'
        && cs[5] == ':' && cs[6] == '/' && cs[7] == '/' {
        proof {
            assert(input@.subrange(0, 8) =~= seq!['h', 't', 't', 'p', 's', ':', '/', '/']);
        }
        return true;
    }
    proof {
        if spec_is_url(input@) {
            if input@.len() >= 7 && input@.subrange(0, 7) == seq![
                'h',
                't',
                't',
                'p',
                ':',
                '/',
                '/',
            ] {
                assert(input@[4] == input@.subrange(0, 7)[4]);
                assert(input@[0] == input@.subrange(0, 7)[0]);
                assert(input@[1] == input@.subrange(0, 7)[1]);
                assert(input@[2] == input@.subrange(0, 7)[2]);
                assert(input@[3] == input@.subrange(0, 7)[3]);
                assert(input@[5] == input@.subrange(0, 7)[5]);
                assert(input@[6] == input@.subrange(0, 7)[6]);
            } else {
                assert(input@[0] == input@.subrange(0, 8)[0]);
                assert(input@[1] == input@.subrange(0, 8)[1]);
                assert(input@[2] == input@.subrange(0, 8)[2]);
                assert(input@[3] == input@.subrange(0, 8)[3]);
                assert(input@[4] == input@.subrange(0, 8)[4]);
                assert(input@[5] == input@.subrange(0, 8)[5]);
                assert(input@[6] == input@.subrange(0, 8)[6]);
                assert(input@[7] == input@.subrange(0, 8)[7]);
            }
        }
    }
    false
}

/// An ASCII letter lowered; anything else unchanged.
pub open spec fn spec_lower_char(c: char) -> char {
    if 65 <= c as int <= 90 {
        ((c as u8 + 32) as u8) as char
    } else {
        c
    }
}

/// The sequence lowered character by character.
pub open spec fn spec_lower(s: Seq<char>) -> Seq<char> {
    s.map_values(|c: char| spec_lower_char(c))
}

/// Lowers one ASCII letter.
fn lower_char(c: char) -> (r: char)
    ensures
        r == spec_lower_char(c),
{
    let u = c as u32;
    if 65 <= u && u <= 90 {
        ((u as u8) + 32) as char
    } else {
        c
    }
}

/// The extensions a downloaded animation may carry.
pub open spec fn spec_approved_extension(lowered: Seq<char>) -> bool {
    ||| lowered == "gif"@
    ||| lowered == "png"@
    ||| lowered == "jpg"@
    ||| lowered == "jpeg"@
    ||| lowered == "webp"@
}

/// The last `.`-separated extension of a file name, lowered, when it is one
/// of the recognized image extensions: the name's part after its final dot.
pub open spec fn spec_extension_of(name: Seq<char>) -> Option<Seq<char>> {
    if exists|i: int| 0 <= i < name.len() && name[i] == '.' {
        let dot = choose|i: int|
            0 <= i < name.len() && name[i] == '.' && (forall|j: int|
                i < j < name.len() ==> name[j] != '.');
        Some(spec_lower(name.subrange(dot + 1, name.len() as int)))
    } else {
        None
    }
}

/// Extracts the recognized image extension from a file name's last segment,
/// lowered; `None` exactly when there is no dot or the lowered extension is
/// not recognized.
pub fn get_file_extension_from_name(last_segment: &str) -> (r: Option<String>)
    ensures
        r is Some <==> (spec_extension_of(last_segment@) matches Some(e)
            && spec_approved_extension(e)),
        r matches Some(ext) ==> spec_extension_of(last_segment@) == Some(ext@),
{
    let cs = str_chars(last_segment);
    let n = cs.len();
    let mut k = n;
    while k > 0
        invariant
            k <= n,
            n == cs@.len(),
            cs@ == last_segment@,
            forall|j: int| k <= j < n ==> cs@[j] != '.',
        decreases k,
    {
        if cs[k - 1] == '.' {
            let dot = k - 1;
            let mut lowered: Vec<char> = Vec::new();
            let mut q = dot + 1;
            while q < n
                invariant
                    dot + 1 <= q <= n,
                    n == cs@.len(),
                    cs@ == last_segment@,
                    lowered@ == spec_lower(cs@.subrange(dot + 1, q as int)),
                decreases n - q,
            {
                lowered.push(lower_char(cs[q]));
                proof {
                    assert(lowered@ =~= spec_lower(cs@.subrange(dot + 1, q + 1)));
                }
                q = q + 1;
            }
            proof {
                assert(cs@.subrange(dot + 1, q as int) =~= cs@.subrange(
                    dot + 1,
                    cs@.len() as int,
                ));
                lemma_last_dot_unique(last_segment@, dot as int);
            }
            let text = chars_to_string(&lowered);
            let approved = ext_eq(&lowered, "gif") || ext_eq(&lowered, "png") || ext_eq(
                &lowered,
                "jpg",
            ) || ext_eq(&lowered, "jpeg") || ext_eq(&lowered, "webp");
            if approved {
                return Some(text);
            }
            return None;
        }
        k = k - 1;
    }
    proof {
        if spec_extension_of(last_segment@) is Some {
            let i = choose|i: int|
                0 <= i < last_segment@.len() && last_segment@[i] == '.' && (forall|j: int|
                    i < j < last_segment@.len() ==> last_segment@[j] != '.');
        }
    }
    None
}

/// A dot with no dot after it is the only such dot, so it is the one the
/// extension is read from.
proof fn lemma_last_dot_unique(name: Seq<char>, dot: int)
    requires
        0 <= dot < name.len(),
        name[dot] == '.',
        forall|j: int| dot < j < name.len() ==> name[j] != '.',
    ensures
        spec_extension_of(name) == Some(spec_lower(name.subrange(dot + 1, name.len() as int))),
{
    assert(exists|i: int| 0 <= i < name.len() && name[i] == '.');
    let c = choose|i: int|
        0 <= i < name.len() && name[i] == '.' && (forall|j: int|
            i < j < name.len() ==> name[j] != '.');
    assert(0 <= c < name.len() && name[c] == '.' && (forall|j: int|
        c < j < name.len() ==> name[j] != '.'));
    if c < dot {
        assert(name[dot] != '.');
        assert(false);
    }
    if c > dot {
        assert(name[c] != '.');
        assert(false);
    }
}

/// Compares a character vector with a string literal's characters.
fn ext_eq(v: &Vec<char>, lit: &str) -> (r: bool)
    ensures
        r == (v@ == lit@),
{
    let ls = str_chars(lit);
    if v.len() != ls.len() {
        proof {
            assert(v@ != lit@);
        }
        return false;
    }
    let mut i: usize = 0;
    while i < v.len()
        invariant
            i <= v@.len(),
            v@.len() == ls@.len(),
            ls@ == lit@,
            forall|q: int| 0 <= q < i ==> v@[q] == ls@[q],
        decreases v.len() - i,
    {
        if v[i] != ls[i] {
            proof {
                assert(v@ != lit@);
            }
            return false;
        }
        i = i + 1;
    }
    proof {
        assert(v@ =~= lit@);
    }
    true
}

} // verus!
