use std::ops::Range;
use vstd::prelude::*;

use crate::error::H2Error;

verus! {

/// How a span is padded at its end.
///
/// A multiple of 0 means that no rounding takes place.
#[derive(Debug, Clone, Copy, PartialEq, Eq, Structural)]
pub enum Alignment {
    /// No padding.
    Unaligned,
    /// The length is rounded up to the next multiple: `0..1` aligned to 4 is
    /// `0..4`, and `1..2` aligned to 4 is `1..5`.
    Loose(u64),
    /// Like `Loose`, but the span must already start on a multiple.
    Strict(u64),
}

/// `n` rounded up to the next multiple of `m`; `n` itself where `m` is 0 or
/// `n` is already a multiple.
pub open spec fn spec_round_up(n: nat, m: nat) -> nat {
    if m == 0 || n % m == 0 {
        n
    } else {
        (n - n % m + m) as nat
    }
}

/// The largest value a byte position can take.
pub open spec fn max_position() -> int {
    u64::MAX as int
}

impl Alignment {
    /// The multiple that this alignment rounds to (0 for none).
    pub open spec fn multiple(self) -> nat {
        match self {
            Alignment::Unaligned => 0,
            Alignment::Loose(m) => m as nat,
            Alignment::Strict(m) => m as nat,
        }
    }

    /// The result of aligning the span `start..end`.
    pub open spec fn spec_align(self, range: Range<u64>) -> Result<Range<u64>, H2Error> {
        if range.end < range.start {
            Err(H2Error::ReversedRange)
        } else if self is Strict && self.multiple() != 0 && range.start % (self.multiple() as u64)
            != 0 {
            Err(H2Error::Misaligned)
        } else {
            let new_len = spec_round_up((range.end - range.start) as nat, self.multiple());
            if range.start + new_len > max_position() {
                Err(H2Error::Overflow)
            } else {
                Ok(range.start..(range.start + new_len) as u64)
            }
        }
    }

    /// Rounds `number` up to the next multiple of `multiple`.
    pub fn round_up(number: u64, multiple: u64) -> (r: u64)
        requires
            spec_round_up(number as nat, multiple as nat) <= max_position(),
        ensures
            r == spec_round_up(number as nat, multiple as nat),
    {
        if multiple == 0 {
            return number;
        }
        let remainder = number % multiple;
        if remainder == 0 {
            return number;
        }
        assert(remainder <= number) by (nonlinear_arith)
            requires
                remainder == number % multiple,
                multiple > 0,
        ;
        number - remainder + multiple
    }

    /// Pads `range` at its end according to this alignment.
    ///
    /// Fails on a reversed span, on a strict alignment whose start is off a
    /// multiple, and where the padded end does not fit in 64 bits.
    pub fn align(self, range: Range<u64>) -> (r: Result<Range<u64>, H2Error>)
        ensures
            r == self.spec_align(range),
    {
        if range.end < range.start {
            return Err(H2Error::ReversedRange);
        }
        let m: u64 = match self {
            Alignment::Unaligned => 0,
            Alignment::Loose(m) => m,
            Alignment::Strict(m) => {
                if m != 0 && range.start % m != 0 {
                    return Err(H2Error::Misaligned);
                }
                m
            },
        };
        let len: u64 = range.end - range.start;
        if m != 0 {
            assert(len % m <= len) by (nonlinear_arith)
                requires
                    m > 0,
            ;
        }
        if m != 0 && len % m != 0 && len - len % m > u64::MAX - m {
            return Err(H2Error::Overflow);
        }
        let new_len = Self::round_up(len, m);
        if new_len > u64::MAX - range.start {
            return Err(H2Error::Overflow);
        }
        Ok(range.start..(range.start + new_len))
    }
}

/// Loose alignment pads a span to the least multiple of `m` that is no
/// shorter than the span, and leaves its length alone when `m` is 0. The only
/// other outcome is an overflow of the padded end.
pub proof fn lemma_loose_rounds_to_least_multiple(range: Range<u64>, m: u64)
    requires
        range.start <= range.end,
    ensures
        match Alignment::Loose(m).spec_align(range) {
            Ok(r) => {
                let len = range.end - range.start;
                let k = r.end - range.start;
                &&& r.start == range.start
                &&& m == 0 ==> k == len
                &&& m != 0 ==> {
                    &&& k >= len
                    &&& k % (m as int) == 0
                    &&& forall|j: int| j >= len && #[trigger] (j % (m as int)) == 0 ==> k <= j
                }
            },
            Err(e) => e == H2Error::Overflow,
        },
{
    let len = (range.end - range.start) as nat;
    if m != 0 {
        let mi = m as int;
        let q = len as int / mi;
        let rem = len as int % mi;
        assert(len == mi * q + rem && 0 <= rem < mi) by (nonlinear_arith)
            requires
                mi > 0,
                q == len as int / mi,
                rem == len as int % mi,
        ;
        let k = spec_round_up(len, m as nat) as int;
        let qk: int = if rem == 0 { q } else { q + 1 };
        assert(k == qk * mi) by (nonlinear_arith)
            requires
                (rem == 0 && k == len && qk == q) || (rem != 0 && k == len - rem + mi && qk == q + 1),
                len == mi * q + rem,
        ;
        vstd::arithmetic::div_mod::lemma_mod_multiples_basic(qk, mi);
        assert(k >= len) by (nonlinear_arith)
            requires
                mi > 0,
                k == qk * mi,
                (rem == 0 && qk == q) || (rem != 0 && qk == q + 1),
                len == mi * q + rem,
                0 <= rem < mi,
        ;
        assert forall|j: int| j >= len && #[trigger] (j % mi) == 0 implies k <= j by {
            let qj = j / mi;
            assert(j == mi * qj) by (nonlinear_arith)
                requires
                    mi > 0,
                    qj == j / mi,
                    j % mi == 0,
            ;
            assert(k <= j) by (nonlinear_arith)
                requires
                    mi > 0,
                    j == mi * qj,
                    j >= len,
                    len == mi * q + rem,
                    0 <= rem < mi,
                    k == qk * mi,
                    (rem == 0 && qk == q) || (rem != 0 && qk == q + 1),
            ;
        }
    }
}

/// Strict alignment fails on a misaligned start exactly when the multiple is
/// non-zero and does not divide the start; otherwise it gives what loose
/// alignment gives.
pub proof fn lemma_strict_is_checked_loose(range: Range<u64>, m: u64)
    requires
        range.start <= range.end,
    ensures
        (Alignment::Strict(m).spec_align(range) == Err::<Range<u64>, H2Error>(H2Error::Misaligned))
            <==> (m != 0 && range.start % m != 0),
        !(m != 0 && range.start % m != 0) ==> Alignment::Strict(m).spec_align(range)
            == Alignment::Loose(m).spec_align(range),
{
}

} // verus!
