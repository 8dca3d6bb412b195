//! Render configuration: target dimensions, aspect correction, inversion and
//! the character ramp, validated before any rendering work begins.

use vstd::prelude::*;
use crate::error::MonochoraError;
use crate::ratio::Ratio;
use crate::strutil::str_chars;

verus! {

/// The short built-in ramp, darkest glyph first.
pub open spec fn simple_ramp() -> Seq<char> {
    " .:-=+*#%@"@
}

/// The long built-in ramp, darkest glyph first.
pub open spec fn detailed_ramp() -> Seq<char> {
    " .'`^\",:;Il!i><~+_-?][}{1)(|\\/tfjrxnuvczXYUJCLQ0OZmwqpdbkhao*#MW&8%B@"@
}

/// The built-in ramps are real ramps: at least two glyphs, at most 256.
pub proof fn lemma_builtin_ramp_lens()
    ensures
        simple_ramp().len() == 10,
        detailed_ramp().len() == 69,
{
    reveal_strlit(" .:-=+*#%@");
    reveal_strlit(" .'`^\",:;Il!i><~+_-?][}{1)(|\\/tfjrxnuvczXYUJCLQ0OZmwqpdbkhao*#MW&8%B@");
}

/// Builds the short built-in ramp.
pub fn simple_charset() -> (r: Vec<char>)
    ensures
        r@ == simple_ramp(),
{
    str_chars(" .:-=+*#%@")
}

/// Builds the long built-in ramp.
pub fn detailed_charset() -> (r: Vec<char>)
    ensures
        r@ == detailed_ramp(),
{
    str_chars(" .'`^\",:;Il!i><~+_-?][}{1)(|\\/tfjrxnuvczXYUJCLQ0OZmwqpdbkhao*#MW&8%B@")
}

/// How an image is mapped to a character grid. Width and height are optional
/// targets in character cells; `char_aspect` corrects for cells being taller
/// than they are wide; `scale_factor` takes precedence over explicit targets.
#[derive(Debug, Clone)]
pub struct AsciiConverterConfig {
    pub width: Option<u32>,
    pub height: Option<u32>,
    pub char_aspect: Ratio,
    pub invert: bool,
    pub detailed: bool,
    pub preserve_aspect_ratio: bool,
    pub scale_factor: Option<Ratio>,
    pub custom_charset: Option<Vec<char>>,
}

impl AsciiConverterConfig {
    /// An explicit width, if any, is nonzero.
    pub open spec fn width_ok(self) -> bool {
        self.width != Some(0u32)
    }

    /// An explicit height, if any, is nonzero.
    pub open spec fn height_ok(self) -> bool {
        self.height != Some(0u32)
    }

    /// The aspect-correction factor is a positive fraction.
    pub open spec fn aspect_ok(self) -> bool {
        self.char_aspect.wf()
    }

    /// The scale factor, if any, is a positive fraction.
    pub open spec fn scale_ok(self) -> bool {
        match self.scale_factor {
            Some(s) => s.wf(),
            None => true,
        }
    }

    /// A custom ramp, if any, has between 2 and 256 glyphs, none repeated.
    pub open spec fn charset_ok(self) -> bool {
        match self.custom_charset {
            Some(cs) => 2 <= cs@.len() <= 256 && !spec_has_duplicates(cs@),
            None => true,
        }
    }

    /// A configuration is usable only when every rule above holds.
    pub open spec fn valid(self) -> bool {
        self.width_ok() && self.height_ok() && self.aspect_ok() && self.scale_ok()
            && self.charset_ok()
    }

    /// The ramp this configuration selects.
    pub open spec fn spec_charset(self) -> Seq<char> {
        match self.custom_charset {
            Some(cs) => cs@,
            None => if self.detailed {
                detailed_ramp()
            } else {
                simple_ramp()
            },
        }
    }

    /// A valid configuration always selects a ramp of 2 to 256 glyphs.
    pub proof fn lemma_valid_charset_len(self)
        requires
            self.valid(),
        ensures
            2 <= self.spec_charset().len() <= 256,
    {
        lemma_builtin_ramp_lens();
    }

    /// The exact rejection for an invalid configuration: which rule breaks
    /// first and what error reports it.
    pub open spec fn is_validate_error(self, e: MonochoraError) -> bool {
        if !self.width_ok() {
            e == (MonochoraError::InvalidDimensions {
                width: 0u32,
                height: spec_unwrap_or_zero(self.height),
            })
        } else if !self.height_ok() {
            e == (MonochoraError::InvalidDimensions {
                width: spec_unwrap_or_zero(self.width),
                height: 0u32,
            })
        } else if !self.aspect_ok() {
            e matches MonochoraError::Config(m) && m@
                == "Character aspect ratio must be positive"@
        } else if !self.scale_ok() {
            e matches MonochoraError::Config(m) && m@ == "Scale factor must be positive"@
        } else if !self.charset_ok() {
            e matches MonochoraError::Config(m) && (m@
                == "Custom character set must contain at least 2 characters"@ || m@
                == "Custom character set cannot exceed 256 characters"@ || m@
                == "Custom character set contains duplicate characters"@)
        } else {
            false
        }
    }

    /// Rejects invalid configurations, reporting the first broken rule.
    pub fn validate(&self) -> (r: Result<(), MonochoraError>)
        ensures
            r is Ok <==> self.valid(),
            r matches Err(e) ==> self.is_validate_error(e),
    {
        if let Some(width) = self.width {
            if width == 0 {
                let height = if let Some(h) = self.height {
                    h
                } else {
                    0
                };
                return Err(MonochoraError::InvalidDimensions { width: 0, height });
            }
        }
        if let Some(height) = self.height {
            if height == 0 {
                let width = if let Some(w) = self.width {
                    w
                } else {
                    0
                };
                return Err(MonochoraError::InvalidDimensions { width, height: 0 });
            }
        }
        if self.char_aspect.num == 0 || self.char_aspect.den == 0 {
            return Err(
                MonochoraError::Config("Character aspect ratio must be positive".to_owned()),
            );
        }
        if let Some(scale) = &self.scale_factor {
            if scale.num == 0 || scale.den == 0 {
                return Err(MonochoraError::Config("Scale factor must be positive".to_owned()));
            }
        }
        if let Some(charset) = &self.custom_charset {
            if charset.len() < 2 {
                return Err(
                    MonochoraError::Config(
                        "Custom character set must contain at least 2 characters".to_owned(),
                    ),
                );
            }
            if charset.len() > 256 {
                return Err(
                    MonochoraError::Config(
                        "Custom character set cannot exceed 256 characters".to_owned(),
                    ),
                );
            }
            let mut a: usize = 0;
            while a < charset.len()
                invariant
                    a <= charset@.len(),
                    self.width_ok() && self.height_ok() && self.aspect_ok() && self.scale_ok(),
                    self.custom_charset == Some(*charset),
                    2 <= charset@.len() <= 256,
                    forall|i2: int, j2: int|
                        0 <= i2 < j2 < charset@.len() && i2 < a ==> charset@[i2] != charset@[j2],
                decreases charset.len() - a,
            {
                let mut b: usize = a + 1;
                while b < charset.len()
                    invariant
                        a < b <= charset@.len(),
                        self.width_ok() && self.height_ok() && self.aspect_ok()
                            && self.scale_ok(),
                        self.custom_charset == Some(*charset),
                        2 <= charset@.len() <= 256,
                        forall|j2: int| a < j2 < b ==> charset@[a as int] != charset@[j2],
                    decreases charset.len() - b,
                {
                    if charset[a] == charset[b] {
                        proof {
                            assert(spec_has_duplicates(charset@)) by {
                                assert(0 <= a < b < charset@.len() && charset@[a as int]
                                    == charset@[b as int]);
                            }
                            assert(!self.charset_ok());
                        }
                        return Err(
                            MonochoraError::Config(
                                "Custom character set contains duplicate characters".to_owned(),
                            ),
                        );
                    }
                    b = b + 1;
                }
                a = a + 1;
            }
            proof {
                assert(!spec_has_duplicates(charset@));
            }
        }
        Ok(())
    }

    /// Returns the selected ramp as an owned vector.
    pub fn get_charset(&self) -> (r: Vec<char>)
        ensures
            r@ == self.spec_charset(),
    {
        match &self.custom_charset {
            Some(custom) => {
                let mut out: Vec<char> = Vec::new();
                let mut i: usize = 0;
                while i < custom.len()
                    invariant
                        i <= custom.len(),
                        out@ == custom@.subrange(0, i as int),
                    decreases custom.len() - i,
                {
                    out.push(custom[i]);
                    i = i + 1;
                }
                proof {
                    assert(out@ =~= custom@);
                }
                out
            },
            None => {
                if self.detailed {
                    detailed_charset()
                } else {
                    simple_charset()
                }
            },
        }
    }
}

/// Whether a sequence repeats any character.
pub open spec fn spec_has_duplicates(s: Seq<char>) -> bool {
    exists|i: int, j: int| 0 <= i < j < s.len() && s[i] == s[j]
}

/// The value of an optional dimension, zero when absent.
pub open spec fn spec_unwrap_or_zero(v: Option<u32>) -> u32 {
    match v {
        Some(x) => x,
        None => 0u32,
    }
}

impl Default for AsciiConverterConfig {
    /// The defaults: no explicit target, half-width cells, the detailed ramp,
    /// aspect preserved.
    fn default() -> (r: Self)
        ensures
            r.width is None,
            r.height is None,
            r.char_aspect == (Ratio { num: 1u32, den: 2u32 }),
            !r.invert,
            r.detailed,
            r.preserve_aspect_ratio,
            r.scale_factor is None,
            r.custom_charset is None,
    {
        AsciiConverterConfig {
            width: None,
            height: None,
            char_aspect: Ratio { num: 1, den: 2 },
            invert: false,
            detailed: true,
            preserve_aspect_ratio: true,
            scale_factor: None,
            custom_charset: None,
        }
    }
}

} // verus!
