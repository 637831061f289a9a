use vstd::prelude::*;
use vstd::utf8::{
    decode_first_scalar, is_leading_byte_width_1, is_leading_byte_width_2,
    is_leading_byte_width_3, is_leading_byte_width_4, is_scalar, length_of_first_scalar,
    valid_first_scalar,
};

use crate::context::{uint_value, Context, Endian};
use crate::error::H2Error;
use crate::text::{char_from_u32, digits, push_char, push_padded_digits, push_str, zero_padded};

verus! {

broadcast use Context::lemma_bytes_len;

/// Whether a byte outside printable ASCII is an error or is replaced.
#[derive(Debug, Clone, Copy, PartialEq, Eq, Structural)]
pub enum StrictASCII {
    Strict,
    Permissive,
}

/// The encoding of a single character.
#[derive(Debug, Clone, Copy, PartialEq, Eq, Structural)]
pub enum CharacterType {
    /// One byte; bytes from 0x7f up are an error or a replacement character.
    ASCII(StrictASCII),
    /// One to four bytes of UTF-8.
    UTF8,
    /// Two bytes, or four for a surrogate pair.
    UTF16(Endian),
    /// Four bytes.
    UTF32(Endian),
    /// Two bytes where they hold a character alone, otherwise four bytes
    /// decoded as a surrogate pair.
    Unicode(Endian),
}

/// The character that stands in for a byte that is not ASCII.
pub open spec fn replacement() -> char {
    '\u{FFFD}'
}

/// Whether a UTF-16 code unit is a surrogate.
pub open spec fn is_surrogate(u: nat) -> bool {
    0xD800 <= u <= 0xDFFF
}

pub open spec fn is_high_surrogate(u: nat) -> bool {
    0xD800 <= u <= 0xDBFF
}

pub open spec fn is_low_surrogate(u: nat) -> bool {
    0xDC00 <= u <= 0xDFFF
}

/// The scalar value encoded by a surrogate pair.
pub open spec fn pair_value(high: nat, low: nat) -> nat {
    (0x10000 + (high - 0xD800) * 0x400 + (low - 0xDC00)) as nat
}

/// The UTF-8 width announced by a leading byte, or 0 if it announces none.
pub open spec fn utf8_width(b: u8) -> int {
    if is_leading_byte_width_1(b) {
        1
    } else if is_leading_byte_width_2(b) {
        2
    } else if is_leading_byte_width_3(b) {
        3
    } else if is_leading_byte_width_4(b) {
        4
    } else {
        0
    }
}

/// The two-byte code unit at `p`.
pub open spec fn unit_at(c: Context, p: int, e: Endian) -> nat {
    uint_value(c.bytes_at(p, 2), e)
}

/// A surrogate pair at `p`: both units are read, then checked.
pub open spec fn decode_pair(c: Context, p: int, e: Endian) -> Result<(u64, char), H2Error> {
    if !c.has_bytes_at(p, 4) {
        Err(H2Error::OutOfBounds)
    } else if is_high_surrogate(unit_at(c, p, e)) && is_low_surrogate(unit_at(c, p + 2, e)) {
        Ok((4, (pair_value(unit_at(c, p, e), unit_at(c, p + 2, e)) as u32) as char))
    } else {
        Err(H2Error::InvalidEncoding)
    }
}

/// Decodes one character at the cursor of `c`: the bytes it takes and the
/// character.
pub open spec fn decode(t: CharacterType, c: Context) -> Result<(u64, char), H2Error> {
    let p = c.pos() as int;
    match t {
        CharacterType::ASCII(strict) => {
            if !c.has_bytes_at(p, 1) {
                Err(H2Error::OutOfBounds)
            } else if c.bytes()[p] < 0x7f {
                Ok((1, (c.bytes()[p] as u32) as char))
            } else if strict is Strict {
                Err(H2Error::InvalidEncoding)
            } else {
                Ok((1, replacement()))
            }
        },
        CharacterType::UTF8 => {
            if !c.has_bytes_at(p, 1) {
                Err(H2Error::OutOfBounds)
            } else if utf8_width(c.bytes()[p]) == 0 {
                Err(H2Error::InvalidEncoding)
            } else if !c.has_bytes_at(p, utf8_width(c.bytes()[p])) {
                Err(H2Error::OutOfBounds)
            } else if valid_first_scalar(c.bytes().subrange(p, c.bytes().len() as int)) {
                let rest = c.bytes().subrange(p, c.bytes().len() as int);
                Ok((length_of_first_scalar(rest) as u64, decode_first_scalar(rest) as char))
            } else {
                Err(H2Error::InvalidEncoding)
            }
        },
        CharacterType::UTF16(e) => {
            if !c.has_bytes_at(p, 2) {
                Err(H2Error::OutOfBounds)
            } else if !is_surrogate(unit_at(c, p, e)) {
                Ok((2, (unit_at(c, p, e) as u32) as char))
            } else if is_high_surrogate(unit_at(c, p, e)) {
                decode_pair(c, p, e)
            } else {
                Err(H2Error::InvalidEncoding)
            }
        },
        CharacterType::UTF32(e) => {
            if !c.has_bytes_at(p, 4) {
                Err(H2Error::OutOfBounds)
            } else if is_scalar(uint_value(c.bytes_at(p, 4), e) as u32) && uint_value(
                c.bytes_at(p, 4),
                e,
            ) <= u32::MAX {
                Ok((4, (uint_value(c.bytes_at(p, 4), e) as u32) as char))
            } else {
                Err(H2Error::InvalidEncoding)
            }
        },
        CharacterType::Unicode(e) => {
            if c.has_bytes_at(p, 2) && !is_surrogate(unit_at(c, p, e)) {
                Ok((2, (unit_at(c, p, e) as u32) as char))
            } else {
                decode_pair(c, p, e)
            }
        },
    }
}

/// How a decoded character is written: quoted, with control characters as
/// escapes.
pub open spec fn char_text(ch: char) -> Seq<char> {
    let v = ch as u32;
    if v == 0 {
        seq!['\'', '\\', '0', '\'']
    } else if v == 7 {
        seq!['\'', '\\', 'a', '\'']
    } else if v == 8 {
        seq!['\'', '\\', 'b', '\'']
    } else if v == 9 {
        seq!['\'', '\\', 't', '\'']
    } else if v == 0x0a {
        seq!['\'', '\\', 'n', '\'']
    } else if v == 0x0b {
        seq!['\'', '\\', 'v', '\'']
    } else if v == 0x0c {
        seq!['\'', '\\', 'f', '\'']
    } else if v == 0x0d {
        seq!['\'', '\\', 'r', '\'']
    } else if v < 0x20 {
        seq!['\'', '\\', 'x'] + zero_padded(digits(v as nat, 16), 2) + seq!['\'']
    } else {
        seq!['\'', ch, '\'']
    }
}

impl CharacterType {
    /// Whether the width is known without data: ASCII and UTF-32.
    pub open spec fn spec_is_static(self) -> bool {
        self is ASCII || self is UTF32
    }

    /// The fixed width of a static encoding.
    pub open spec fn static_width(self) -> u64 {
        if self is ASCII {
            1
        } else {
            4
        }
    }

    /// The name written for this encoding in the abstract.
    pub open spec fn name(self) -> Seq<char> {
        match self {
            CharacterType::ASCII(_) => "ASCII Character"@,
            CharacterType::UTF8 => "UTF-8 Character"@,
            CharacterType::UTF16(_) => "UTF-16 Character"@,
            CharacterType::UTF32(_) => "UTF-32 Character"@,
            CharacterType::Unicode(_) => "Unicode Character"@,
        }
    }

    pub fn is_static(&self) -> (r: bool)
        ensures
            r == self.spec_is_static(),
    {
        match self {
            CharacterType::ASCII(_) | CharacterType::UTF32(_) => true,
            _ => false,
        }
    }

    pub fn width(&self) -> (r: u64)
        ensures
            r == self.static_width(),
    {
        match self {
            CharacterType::ASCII(_) => 1,
            _ => 4,
        }
    }

    /// Writes the name of this encoding.
    pub fn name_string(&self) -> (r: String)
        ensures
            r@ == self.name(),
    {
        let mut s = String::new();
        match self {
            CharacterType::ASCII(_) => {
                push_str(&mut s, "ASCII Character");
            },
            CharacterType::UTF8 => {
                push_str(&mut s, "UTF-8 Character");
            },
            CharacterType::UTF16(_) => {
                push_str(&mut s, "UTF-16 Character");
            },
            CharacterType::UTF32(_) => {
                push_str(&mut s, "UTF-32 Character");
            },
            CharacterType::Unicode(_) => {
                push_str(&mut s, "Unicode Character");
            },
        }
        s
    }
}

fn scalar(v: u32) -> (r: Result<char, H2Error>)
    ensures
        is_scalar(v) ==> r == Ok::<char, H2Error>(v as char),
        !is_scalar(v) ==> r == Err::<char, H2Error>(H2Error::InvalidEncoding),
{
    match char_from_u32(v) {
        Some(c) => {
            proof {
                vstd::utf8::char_u32_cast(c, v);
            }
            Ok(c)
        },
        None => Err(H2Error::InvalidEncoding),
    }
}

fn decode_pair_at(c: Context, p: u64, e: Endian) -> (r: Result<(u64, char), H2Error>)
    ensures
        r == decode_pair(c, p as int, e),
{
    if p > u64::MAX - 2 {
        return Err(H2Error::OutOfBounds);
    }
    let high = c.uint_at(p, 2, e)?;
    let low = c.uint_at(p + 2, 2, e)?;
    proof {
        reveal_with_fuel(crate::context::pow256, 3);
    }
    assert(c.bytes_at(p as int, 2) =~= c.bytes_at(p as int, 4).subrange(0, 2));
    if 0xD800 <= high && high <= 0xDBFF && 0xDC00 <= low && low <= 0xDFFF {
        let v: u32 = (0x10000 + (high - 0xD800) * 0x400 + (low - 0xDC00)) as u32;
        let ch = scalar(v)?;
        Ok((4, ch))
    } else {
        Err(H2Error::InvalidEncoding)
    }
}

fn decode_utf8(c: Context) -> (r: Result<(u64, char), H2Error>)
    ensures
        r == decode(CharacterType::UTF8, c),
{
    let p = c.position();
    let b0 = c.byte_at(p)?;
    let width: u64 = if b0 <= 0x7f {
        1
    } else if 0xc0 <= b0 && b0 <= 0xdf {
        2
    } else if 0xe0 <= b0 && b0 <= 0xef {
        3
    } else if 0xf0 <= b0 && b0 <= 0xf7 {
        4
    } else {
        return Err(H2Error::InvalidEncoding);
    };
    if p > u64::MAX - width || c.uint_at(p, width, Endian::Big).is_err() {
        return Err(H2Error::OutOfBounds);
    }
    let ghost rest = c.bytes().subrange(p as int, c.bytes().len() as int);
    let v: u32 = if width == 1 {
        assert((b0 & 0x7f) as u32 <= 0x7f) by (bit_vector);
        (b0 & 0x7f) as u32
    } else {
        let b1 = c.byte_at(p + 1)?;
        if !(0x80 <= b1 && b1 <= 0xbf) {
            return Err(H2Error::InvalidEncoding);
        }
        if width == 2 {
            assert((((b0 & 0x1f) as u32) << 6) | ((b1 & 0x3f) as u32) <= 0x7ff) by (bit_vector);
            (((b0 & 0x1f) as u32) << 6) | ((b1 & 0x3f) as u32)
        } else {
            let b2 = c.byte_at(p + 2)?;
            if !(0x80 <= b2 && b2 <= 0xbf) {
                return Err(H2Error::InvalidEncoding);
            }
            if width == 3 {
                assert((((b0 & 0x0f) as u32) << 12) | (((b1 & 0x3f) as u32) << 6) | ((b2 & 0x3f)
                    as u32) <= 0xffff) by (bit_vector);
                (((b0 & 0x0f) as u32) << 12) | (((b1 & 0x3f) as u32) << 6) | ((b2 & 0x3f) as u32)
            } else {
                let b3 = c.byte_at(p + 3)?;
                if !(0x80 <= b3 && b3 <= 0xbf) {
                    return Err(H2Error::InvalidEncoding);
                }
                (((b0 & 0x07) as u32) << 18) | (((b1 & 0x3f) as u32) << 12) | (((b2 & 0x3f) as u32)
                    << 6) | ((b3 & 0x3f) as u32)
            }
        }
    };
    assert(v == vstd::utf8::decode_first_codepoint(rest));
    if (width == 2 && v < 0x80) || (width == 3 && v < 0x800) || (width == 4 && (v < 0x10000 || v
        > 0x10ffff)) || (0xD800 <= v && v <= 0xDFFF) {
        return Err(H2Error::InvalidEncoding);
    }
    let ch = scalar(v)?;
    Ok((width, ch))
}

/// Decodes one character of type `t` at the cursor of `c`.
pub fn decode_at(t: CharacterType, c: Context) -> (r: Result<(u64, char), H2Error>)
    ensures
        r == decode(t, c),
{
    let p = c.position();
    match t {
        CharacterType::ASCII(strict) => {
            let b = c.byte_at(p)?;
            if b < 0x7f {
                let ch = scalar(b as u32)?;
                Ok((1, ch))
            } else {
                match strict {
                    StrictASCII::Strict => Err(H2Error::InvalidEncoding),
                    StrictASCII::Permissive => Ok((1, '\u{FFFD}')),
                }
            }
        },
        CharacterType::UTF8 => decode_utf8(c),
        CharacterType::UTF16(e) => {
            let u = c.uint_at(p, 2, e)?;
            proof {
                reveal_with_fuel(crate::context::pow256, 3);
            }
            if u < 0xD800 || u > 0xDFFF {
                let ch = scalar(u as u32)?;
                Ok((2, ch))
            } else if u <= 0xDBFF {
                decode_pair_at(c, p, e)
            } else {
                Err(H2Error::InvalidEncoding)
            }
        },
        CharacterType::UTF32(e) => {
            let v = c.uint_at(p, 4, e)?;
            proof {
                crate::context::lemma_uint_be_bound(
                    crate::context::big_first(c.bytes_at(p as int, 4), e),
                );
                reveal_with_fuel(crate::context::pow256, 5);
            }
            let ch = scalar(v as u32)?;
            Ok((4, ch))
        },
        CharacterType::Unicode(e) => {
            // A lone code unit first; failing that, commit to a pair.
            proof {
                reveal_with_fuel(crate::context::pow256, 3);
            }
            match c.uint_at(p, 2, e) {
                Ok(u) => {
                    if u < 0xD800 || u > 0xDFFF {
                        let ch = scalar(u as u32)?;
                        return Ok((2, ch));
                    }
                },
                Err(_) => {},
            }
            decode_pair_at(c, p, e)
        },
    }
}

/// Writes a decoded character, quoted, with control characters escaped.
pub fn char_string(ch: char) -> (r: String)
    ensures
        r@ == char_text(ch),
{
    let v = ch as u32;
    let mut s = String::new();
    push_char(&mut s, '\'');
    if v < 0x20 && v != 0 && !(7 <= v && v <= 0x0d) {
        push_str(&mut s, "\\x");
        proof {
            reveal_strlit("\\x");
        }
        push_padded_digits(&mut s, v as u64, 16, 2);
    } else if v < 0x20 {
        push_char(&mut s, '\\');
        let e: char = if v == 0 {
            '0'
        } else if v == 7 {
            'a'
        } else if v == 8 {
            'b'
        } else if v == 9 {
            't'
        } else if v == 0x0a {
            'n'
        } else if v == 0x0b {
            'v'
        } else if v == 0x0c {
            'f'
        } else {
            'r'
        };
        push_char(&mut s, e);
    } else {
        push_char(&mut s, ch);
    }
    push_char(&mut s, '\'');
    assert(s@ =~= char_text(ch));
    s
}

} // verus!
