use vstd::prelude::*;

use crate::error::H2Error;

verus! {

/// Byte order of a multi-byte value.
#[derive(Debug, Clone, Copy, PartialEq, Eq, Structural)]
pub enum Endian {
    Big,
    Little,
}

/// 256 to the power `n`.
pub open spec fn pow256(n: nat) -> nat
    decreases n,
{
    if n == 0 {
        1
    } else {
        256 * pow256((n - 1) as nat)
    }
}

/// The unsigned value of `s`, most significant byte first.
pub open spec fn uint_be(s: Seq<u8>) -> nat
    decreases s.len(),
{
    if s.len() == 0 {
        0
    } else {
        (uint_be(s.drop_last()) * 256 + s.last()) as nat
    }
}

/// `s` with its bytes in the opposite order.
pub open spec fn reversed(s: Seq<u8>) -> Seq<u8> {
    Seq::new(s.len(), |i: int| s[s.len() - 1 - i])
}

/// `s` with its most significant byte first.
pub open spec fn big_first(s: Seq<u8>, endian: Endian) -> Seq<u8> {
    match endian {
        Endian::Big => s,
        Endian::Little => reversed(s),
    }
}

/// The unsigned value of `s` in the given byte order.
pub open spec fn uint_value(s: Seq<u8>, endian: Endian) -> nat {
    uint_be(big_first(s, endian))
}

pub proof fn lemma_uint_be_bound(s: Seq<u8>)
    ensures
        uint_be(s) < pow256(s.len()),
    decreases s.len(),
{
    if s.len() > 0 {
        lemma_uint_be_bound(s.drop_last());
        let v = uint_be(s.drop_last());
        let p = pow256((s.len() - 1) as nat);
        assert(v * 256 + s.last() < 256 * p) by (nonlinear_arith)
            requires
                v < p,
                s.last() < 256,
        ;
    }
}

proof fn lemma_pow256_monotone(a: nat, b: nat)
    requires
        a <= b,
    ensures
        pow256(a) <= pow256(b),
    decreases b,
{
    if a < b {
        lemma_pow256_monotone(a, (b - 1) as nat);
    }
}

/// A read-only cursor over a byte buffer: the buffer and a position in it.
///
/// The position may lie past the end of the buffer; reads there fail.
#[derive(Debug, Clone, Copy)]
pub struct Context<'a> {
    data: &'a [u8],
    position: u64,
}

impl<'a> Context<'a> {
    /// The bytes of the buffer.
    pub closed spec fn bytes(self) -> Seq<u8> {
        self.data@
    }

    /// The position of the cursor.
    pub closed spec fn pos(self) -> u64 {
        self.position
    }

    /// The same buffer with the cursor at `position`.
    pub closed spec fn at_spec(self, position: u64) -> Self {
        Context { data: self.data, position }
    }

    pub broadcast proof fn lemma_at_spec(self, position: u64)
        ensures
            (#[trigger] self.at_spec(position)).bytes() == self.bytes(),
            self.at_spec(position).pos() == position,
    {
    }

    pub broadcast proof fn lemma_bytes_len(self)
        ensures
            #[trigger] self.bytes().len() <= u64::MAX,
    {
        assert(self.data@.len() == vstd::slice::spec_slice_len(self.data));
    }

    /// Two cursors over the same bytes at the same position are the same.
    pub proof fn lemma_same_cursor(self, other: Self)
        requires
            self.bytes() == other.bytes(),
            self.pos() == other.pos(),
        ensures
            self == other,
    {
        assert(self.data =~= other.data);
    }

    /// Whether `width` bytes can be read at `position`.
    pub open spec fn has_bytes_at(self, position: int, width: int) -> bool {
        0 <= position && position + width <= self.bytes().len()
    }

    /// The `width` bytes at `position`.
    pub open spec fn bytes_at(self, position: int, width: int) -> Seq<u8> {
        self.bytes().subrange(position, position + width)
    }

    /// A cursor at the start of `data`.
    pub fn new(data: &'a [u8]) -> (r: Self)
        ensures
            r.bytes() == data@,
            r.pos() == 0,
    {
        Context { data, position: 0 }
    }

    /// A cursor at `position` in `data`.
    pub fn new_at(data: &'a [u8], position: u64) -> (r: Self)
        ensures
            r.bytes() == data@,
            r.pos() == position,
    {
        Context { data, position }
    }

    /// The length of the buffer.
    pub fn len(&self) -> (r: u64)
        ensures
            r == self.bytes().len(),
    {
        proof {
            self.lemma_bytes_len();
        }
        self.data.len() as u64
    }

    pub fn position(&self) -> (r: u64)
        ensures
            r == self.pos(),
    {
        self.position
    }

    /// The same buffer, with the cursor moved to `position`.
    pub fn at(&self, position: u64) -> (r: Self)
        ensures
            r == self.at_spec(position),
            r.bytes() == self.bytes(),
            r.pos() == position,
    {
        Context { data: self.data, position }
    }

    /// The byte at `position`.
    pub fn byte_at(&self, position: u64) -> (r: Result<u8, H2Error>)
        ensures
            self.has_bytes_at(position as int, 1) ==> r == Ok::<u8, H2Error>(
                self.bytes()[position as int],
            ),
            !self.has_bytes_at(position as int, 1) ==> r == Err::<u8, H2Error>(H2Error::OutOfBounds),
    {
        if position >= self.data.len() as u64 {
            return Err(H2Error::OutOfBounds);
        }
        Ok(self.data[position as usize])
    }

    /// The unsigned integer of `width` bytes at `position`, in the given
    /// byte order.
    pub fn uint_at(&self, position: u64, width: u64, endian: Endian) -> (r: Result<u64, H2Error>)
        requires
            width <= 8,
        ensures
            self.has_bytes_at(position as int, width as int) ==> r == Ok::<u64, H2Error>(
                uint_value(self.bytes_at(position as int, width as int), endian) as u64,
            ),
            !self.has_bytes_at(position as int, width as int) ==> r == Err::<u64, H2Error>(
                H2Error::OutOfBounds,
            ),
            r matches Ok(v) ==> v < pow256(width as nat),
            self.has_bytes_at(position as int, width as int) ==> uint_value(
                self.bytes_at(position as int, width as int),
                endian,
            ) < pow256(width as nat),
    {
        let n: usize = self.data.len();
        if position > n as u64 || width > n as u64 - position {
            return Err(H2Error::OutOfBounds);
        }
        let ghost s = self.bytes_at(position as int, width as int);
        let ghost t = big_first(s, endian);
        let mut value: u64 = 0;
        let mut i: u64 = 0;
        while i < width
            invariant
                i <= width <= 8,
                position + width <= self.data@.len(),
                self.data@.len() == n,
                s == self.bytes_at(position as int, width as int),
                t == big_first(s, endian),
                t.len() == width,
                value == uint_be(t.take(i as int)),
                value < pow256(i as nat),
            decreases width - i,
        {
            let index: u64 = match endian {
                Endian::Big => position + i,
                Endian::Little => position + (width - 1 - i),
            };
            let b = self.data[index as usize];
            assert(b == t[i as int]);
            let ghost prev = value;
            proof {
                lemma_pow256_monotone((i + 1) as nat, 8);
                assert(pow256(8) == 0x1_0000_0000_0000_0000) by {
                    reveal_with_fuel(pow256, 9);
                }
                assert(prev * 256 + b < 256 * pow256(i as nat)) by (nonlinear_arith)
                    requires
                        prev < pow256(i as nat),
                        b < 256,
                ;
                assert(t.take(i + 1).drop_last() =~= t.take(i as int));
            }
            value = value * 256 + b as u64;
            i = i + 1;
        }
        assert(t.take(width as int) =~= t);
        proof {
            lemma_uint_be_bound(t);
        }
        Ok(value)
    }
}

/// Where a type is evaluated: either an abstract position with no data behind
/// it, or a position in a concrete buffer.
#[derive(Debug, Clone, Copy)]
pub enum Offset<'a> {
    Static(u64),
    Dynamic(Context<'a>),
}

impl<'a> Offset<'a> {
    /// The byte position of this offset.
    pub open spec fn spec_position(self) -> u64 {
        match self {
            Offset::Static(n) => n,
            Offset::Dynamic(c) => c.pos(),
        }
    }

    /// The same mode and buffer, at another position.
    pub open spec fn spec_at(self, position: u64) -> Offset<'a> {
        match self {
            Offset::Static(_) => Offset::Static(position),
            Offset::Dynamic(c) => Offset::Dynamic(c.at_spec(position)),
        }
    }

    pub fn position(&self) -> (r: u64)
        ensures
            r == self.spec_position(),
    {
        match self {
            Offset::Static(n) => *n,
            Offset::Dynamic(c) => c.position(),
        }
    }

    pub fn at(&self, position: u64) -> (r: Offset<'a>)
        ensures
            r == self.spec_at(position),
    {
        match self {
            Offset::Static(_) => Offset::Static(position),
            Offset::Dynamic(c) => Offset::Dynamic(c.at(position)),
        }
    }

    /// The buffer behind this offset; fails on an abstract offset.
    pub fn get_dynamic(&self) -> (r: Result<Context<'a>, H2Error>)
        ensures
            match self {
                Offset::Static(_) => r == Err::<Context<'a>, H2Error>(H2Error::WrongMode),
                Offset::Dynamic(c) => r == Ok::<Context<'a>, H2Error>(*c),
            },
    {
        match self {
            Offset::Static(_) => Err(H2Error::WrongMode),
            Offset::Dynamic(c) => Ok(*c),
        }
    }
}

impl<'a> From<u64> for Offset<'a> {
    /// An abstract offset at `o`.
    fn from(o: u64) -> (r: Offset<'a>) {
        Offset::Static(o)
    }
}

impl<'a> vstd::std_specs::convert::FromSpecImpl<u64> for Offset<'a> {
    open spec fn obeys_from_spec() -> bool {
        true
    }

    open spec fn from_spec(o: u64) -> Offset<'a> {
        Offset::Static(o)
    }
}

impl<'a> From<Context<'a>> for Offset<'a> {
    /// An offset bound to the buffer and position of `o`.
    fn from(o: Context<'a>) -> (r: Offset<'a>) {
        Offset::Dynamic(o)
    }
}

impl<'a> vstd::std_specs::convert::FromSpecImpl<Context<'a>> for Offset<'a> {
    open spec fn obeys_from_spec() -> bool {
        true
    }

    open spec fn from_spec(o: Context<'a>) -> Offset<'a> {
        Offset::Dynamic(o)
    }
}

} // verus!
