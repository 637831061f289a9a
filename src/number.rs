use vstd::prelude::*;

use crate::context::{pow256, uint_value, Context, Endian};
use crate::error::H2Error;
use crate::text::{digits, push_char, push_digits, push_padded_digits, push_str, zero_padded};

verus! {

/// The shape of a fixed-width integer.
#[derive(Debug, Clone, Copy, PartialEq, Eq, Structural)]
pub enum SizedDefinition {
    U8,
    U16(Endian),
    U32(Endian),
    U64(Endian),
    I8,
    I16(Endian),
    I32(Endian),
    I64(Endian),
}

/// How a fixed-width integer is written out.
#[derive(Debug, Clone, Copy, PartialEq, Eq, Structural)]
pub enum SizedDisplay {
    /// `0x`, then lowercase hex digits padded to the full width.
    Hex,
    /// `0o`, then octal digits.
    Octal,
    /// Decimal digits, signed for the signed definitions.
    Decimal,
}

/// Where a result carries a `String`, the same result over its characters.
pub open spec fn text_of(r: Result<String, H2Error>) -> Result<Seq<char>, H2Error> {
    match r {
        Ok(s) => Ok(s@),
        Err(e) => Err(e),
    }
}

/// `v` read as a two's-complement integer of `width` bytes.
pub open spec fn signed_of(v: nat, width: nat) -> int {
    if v >= pow256(width) / 2 {
        v - pow256(width)
    } else {
        v as int
    }
}

/// The decimal text of an integer, with a leading `-` for a negative one.
pub open spec fn signed_digits(v: int) -> Seq<char> {
    if v < 0 {
        seq!['-'] + digits((-v) as nat, 10)
    } else {
        digits(v as nat, 10)
    }
}

impl SizedDefinition {
    /// The width in bytes.
    pub open spec fn spec_size(self) -> u64 {
        match self {
            SizedDefinition::U8 | SizedDefinition::I8 => 1,
            SizedDefinition::U16(_) | SizedDefinition::I16(_) => 2,
            SizedDefinition::U32(_) | SizedDefinition::I32(_) => 4,
            SizedDefinition::U64(_) | SizedDefinition::I64(_) => 8,
        }
    }

    pub open spec fn endian(self) -> Endian {
        match self {
            SizedDefinition::U16(e) | SizedDefinition::U32(e) | SizedDefinition::U64(e) => e,
            SizedDefinition::I16(e) | SizedDefinition::I32(e) | SizedDefinition::I64(e) => e,
            _ => Endian::Big,
        }
    }

    pub open spec fn is_signed(self) -> bool {
        match self {
            SizedDefinition::I8 | SizedDefinition::I16(_) | SizedDefinition::I32(_)
            | SizedDefinition::I64(_) => true,
            _ => false,
        }
    }

    /// The unsigned value of `bytes` (of this width) in this byte order.
    pub open spec fn raw_value(self, bytes: Seq<u8>) -> nat {
        uint_value(bytes, self.endian())
    }

    /// The value of `bytes`, signed for the signed definitions.
    pub open spec fn value(self, bytes: Seq<u8>) -> int {
        if self.is_signed() {
            signed_of(self.raw_value(bytes), self.spec_size() as nat)
        } else {
            self.raw_value(bytes) as int
        }
    }

    /// The text of `bytes` in the given display.
    pub open spec fn text(self, display: SizedDisplay, bytes: Seq<u8>) -> Seq<char> {
        match display {
            SizedDisplay::Hex => seq!['0', 'x'] + zero_padded(
                digits(self.raw_value(bytes), 16),
                2 * self.spec_size() as nat,
            ),
            SizedDisplay::Octal => seq!['0', 'o'] + digits(self.raw_value(bytes), 8),
            SizedDisplay::Decimal => signed_digits(self.value(bytes)),
        }
    }

    pub fn size(&self) -> (r: u64)
        ensures
            r == self.spec_size(),
    {
        match self {
            SizedDefinition::U8 | SizedDefinition::I8 => 1,
            SizedDefinition::U16(_) | SizedDefinition::I16(_) => 2,
            SizedDefinition::U32(_) | SizedDefinition::I32(_) => 4,
            SizedDefinition::U64(_) | SizedDefinition::I64(_) => 8,
        }
    }

    /// Whether values of this shape convert to `u64`: the unsigned ones.
    pub fn can_be_u64(&self) -> (r: bool)
        ensures
            r == !self.is_signed(),
    {
        !self.signed()
    }

    /// Whether values of this shape convert to `i64`: the signed ones.
    pub fn can_be_i64(&self) -> (r: bool)
        ensures
            r == self.is_signed(),
    {
        self.signed()
    }

    fn signed(&self) -> (r: bool)
        ensures
            r == self.is_signed(),
    {
        match self {
            SizedDefinition::I8 | SizedDefinition::I16(_) | SizedDefinition::I32(_)
            | SizedDefinition::I64(_) => true,
            _ => false,
        }
    }

    fn byte_order(&self) -> (r: Endian)
        ensures
            r == self.endian(),
    {
        match self {
            SizedDefinition::U16(e) | SizedDefinition::U32(e) | SizedDefinition::U64(e) => *e,
            SizedDefinition::I16(e) | SizedDefinition::I32(e) | SizedDefinition::I64(e) => *e,
            _ => Endian::Big,
        }
    }

    /// The unsigned value at the cursor of `context`.
    pub fn read_raw(&self, context: Context) -> (r: Result<u64, H2Error>)
        ensures
            context.has_bytes_at(context.pos() as int, self.spec_size() as int) ==> r == Ok::<
                u64,
                H2Error,
            >(self.raw_value(context.bytes_at(context.pos() as int, self.spec_size() as int)) as u64),
            !context.has_bytes_at(context.pos() as int, self.spec_size() as int) ==> r == Err::<
                u64,
                H2Error,
            >(H2Error::OutOfBounds),
            context.has_bytes_at(context.pos() as int, self.spec_size() as int) ==> self.raw_value(
                context.bytes_at(context.pos() as int, self.spec_size() as int),
            ) < pow256(self.spec_size() as nat) <= 0x1_0000_0000_0000_0000,
    {
        let _ = self.limits();
        context.uint_at(context.position(), self.size(), self.byte_order())
    }

    /// The value at the cursor of `context` as a `u64`; fails for a signed
    /// shape.
    pub fn to_u64(&self, context: Context) -> (r: Result<u64, H2Error>)
        ensures
            self.is_signed() ==> r == Err::<u64, H2Error>(H2Error::NotALengthType),
            !self.is_signed() && context.has_bytes_at(context.pos() as int, self.spec_size() as int)
                ==> r == Ok::<u64, H2Error>(
                self.value(context.bytes_at(context.pos() as int, self.spec_size() as int)) as u64,
            ),
            !self.is_signed() && !context.has_bytes_at(
                context.pos() as int,
                self.spec_size() as int,
            ) ==> r == Err::<u64, H2Error>(H2Error::OutOfBounds),
    {
        if self.signed() {
            return Err(H2Error::NotALengthType);
        }
        self.read_raw(context)
    }

    /// The value at the cursor of `context` as an `i64`; fails for an
    /// unsigned shape.
    pub fn to_i64(&self, context: Context) -> (r: Result<i64, H2Error>)
        ensures
            !self.is_signed() ==> r == Err::<i64, H2Error>(H2Error::NotALengthType),
            self.is_signed() && context.has_bytes_at(context.pos() as int, self.spec_size() as int)
                ==> r == Ok::<i64, H2Error>(
                self.value(context.bytes_at(context.pos() as int, self.spec_size() as int)) as i64,
            ),
            self.is_signed() && !context.has_bytes_at(
                context.pos() as int,
                self.spec_size() as int,
            ) ==> r == Err::<i64, H2Error>(H2Error::OutOfBounds),
            r matches Ok(v) ==> v as int == self.value(
                context.bytes_at(context.pos() as int, self.spec_size() as int),
            ),
    {
        if !self.signed() {
            return Err(H2Error::NotALengthType);
        }
        let raw = self.read_raw(context)?;
        proof {
            crate::context::lemma_uint_be_bound(
                crate::context::big_first(
                    context.bytes_at(context.pos() as int, self.spec_size() as int),
                    self.endian(),
                ),
            );
        }
        let (half, mask) = self.limits();
        if raw >= half {
            let m: u64 = mask - raw;
            Ok(0i64 - m as i64 - 1)
        } else {
            Ok(raw as i64)
        }
    }

    /// Half of the value range, and the largest value, of this width.
    fn limits(&self) -> (r: (u64, u64))
        ensures
            r.0 == pow256(self.spec_size() as nat) / 2,
            r.1 == pow256(self.spec_size() as nat) - 1,
    {
        proof {
            reveal_with_fuel(pow256, 9);
        }
        match self.size() {
            1 => (0x80, 0xff),
            2 => (0x8000, 0xffff),
            4 => (0x8000_0000, 0xffff_ffff),
            _ => (0x8000_0000_0000_0000, 0xffff_ffff_ffff_ffff),
        }
    }

    /// The text of the value at the cursor of `context`.
    pub fn render(&self, display: SizedDisplay, context: Context) -> (r: Result<String, H2Error>)
        ensures
            context.has_bytes_at(context.pos() as int, self.spec_size() as int) ==> text_of(r)
                == Ok::<Seq<char>, H2Error>(
                self.text(display, context.bytes_at(context.pos() as int, self.spec_size() as int)),
            ),
            !context.has_bytes_at(context.pos() as int, self.spec_size() as int) ==> r
                == Err::<String, H2Error>(H2Error::OutOfBounds),
    {
        let raw = self.read_raw(context)?;
        let ghost bytes = context.bytes_at(context.pos() as int, self.spec_size() as int);
        proof {
            crate::context::lemma_uint_be_bound(crate::context::big_first(bytes, self.endian()));
        }
        let (half, mask) = self.limits();
        let mut s = String::new();
        match display {
            SizedDisplay::Hex => {
                push_str(&mut s, "0x");
                proof {
                    reveal_strlit("0x");
                }
                push_padded_digits(&mut s, raw, 16, 2 * self.size());
                assert(s@ =~= self.text(display, bytes));
            },
            SizedDisplay::Octal => {
                push_str(&mut s, "0o");
                proof {
                    reveal_strlit("0o");
                }
                push_digits(&mut s, raw, 8);
                assert(s@ =~= self.text(display, bytes));
            },
            SizedDisplay::Decimal => {
                if self.signed() && raw >= half {
                    push_char(&mut s, '-');
                    let m: u64 = mask - raw;
                    push_digits(&mut s, m + 1, 10);
                } else {
                    push_digits(&mut s, raw, 10);
                }
                assert(s@ =~= self.text(display, bytes));
            },
        }
        Ok(s)
    }
}

} // verus!
