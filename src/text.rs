use vstd::prelude::*;
use vstd::string::StringExecFns;
use vstd::utf8::is_scalar;

verus! {

/// Relies on `String::push`: the string gains `c` at its end.
#[verifier::external_body]
pub(crate) fn push_char(s: &mut String, c: char)
    ensures
        final(s)@ == old(s)@.push(c),
{
    s.push(c)
}

/// Relies on `char::from_u32`: `Some` exactly for Unicode scalar values,
/// holding the character with that value.
#[verifier::external_body]
pub(crate) fn char_from_u32(v: u32) -> (r: Option<char>)
    ensures
        r is Some <==> is_scalar(v),
        r matches Some(c) ==> c as u32 == v,
{
    char::from_u32(v)
}

/// Appends `t` to `s`.
pub(crate) fn push_str(s: &mut String, t: &str)
    ensures
        final(s)@ == old(s)@ + t@,
{
    s.append(t)
}

/// The digit character for `d` (`0`-`9`, then `a`-`f`).
pub open spec fn digit_char(d: nat) -> char {
    if d < 10 {
        ((0x30 + d) as u32) as char
    } else {
        ((0x57 + d) as u32) as char
    }
}

/// The digits of `n` in base `radix`, most significant first, with no
/// leading zeros (a single `0` for zero), for a `radix` of at least 2.
pub open spec fn digits(n: nat, radix: nat) -> Seq<char> {
    digits_within(n, radix, n)
}

/// `digits`, computed with at most `fuel` divisions; `fuel == n` always
/// suffices, since each division lowers `n` by at least one.
pub open spec fn digits_within(n: nat, radix: nat, fuel: nat) -> Seq<char>
    decreases fuel,
{
    if fuel == 0 || radix < 2 || n < radix {
        seq![digit_char(n)]
    } else {
        digits_within(n / radix, radix, (fuel - 1) as nat).push(digit_char(n % radix))
    }
}

proof fn lemma_digits_fuel(n: nat, radix: nat, fuel: nat)
    requires
        radix >= 2,
        fuel >= n,
    ensures
        digits_within(n, radix, fuel) == digits(n, radix),
    decreases n,
{
    if n >= radix {
        vstd::arithmetic::div_mod::lemma_div_decreases(n as int, radix as int);
        lemma_digits_fuel(n / radix, radix, (fuel - 1) as nat);
        lemma_digits_fuel(n / radix, radix, (n - 1) as nat);
    }
}

/// One step of `digits`: the digits of `n / radix`, then the last digit.
proof fn lemma_digits_step(n: nat, radix: nat)
    requires
        radix >= 2,
        n >= radix,
    ensures
        digits(n, radix) == digits(n / radix, radix).push(digit_char(n % radix)),
{
    vstd::arithmetic::div_mod::lemma_div_decreases(n as int, radix as int);
    lemma_digits_fuel(n / radix, radix, (n - 1) as nat);
}

/// `s` preceded by as many `0` characters as it takes to reach `width`.
pub open spec fn zero_padded(s: Seq<char>, width: nat) -> Seq<char> {
    if s.len() >= width {
        s
    } else {
        Seq::new((width - s.len()) as nat, |i: int| '0') + s
    }
}

fn digit(d: u64) -> (c: char)
    requires
        d < 16,
    ensures
        c == digit_char(d as nat),
{
    let v: u32 = if d < 10 {
        0x30 + d as u32
    } else {
        0x57 + d as u32
    };
    match char_from_u32(v) {
        Some(c) => {
            proof {
                vstd::utf8::char_u32_cast(c, v);
            }
            c
        },
        None => {
            proof {
                assert(is_scalar(v));
            }
            '0'
        },
    }
}

/// Appends the digits of `n` in base `radix`.
pub(crate) fn push_digits(s: &mut String, n: u64, radix: u64)
    requires
        2 <= radix <= 16,
    ensures
        final(s)@ == old(s)@ + digits(n as nat, radix as nat),
    decreases n,
{
    if n < radix {
        push_char(s, digit(n));
    } else {
        proof {
            vstd::arithmetic::div_mod::lemma_div_decreases(n as int, radix as int);
        }
        push_digits(s, n / radix, radix);
        push_char(s, digit(n % radix));
        proof {
            lemma_digits_step(n as nat, radix as nat);
        }
        assert(s@ =~= old(s)@ + digits(n as nat, radix as nat));
    }
}

/// How many digits `n` has in base `radix`.
pub(crate) fn digit_count(n: u64, radix: u64) -> (r: u64)
    requires
        2 <= radix <= 16,
    ensures
        r == digits(n as nat, radix as nat).len(),
        r <= n + 1,
    decreases n,
{
    if n < radix {
        1
    } else {
        proof {
            vstd::arithmetic::div_mod::lemma_div_decreases(n as int, radix as int);
            lemma_digits_step(n as nat, radix as nat);
        }
        let c = digit_count(n / radix, radix);
        proof {
            let q = n / radix;
            assert(q * 2 <= n) by (nonlinear_arith)
                requires
                    q == n / radix,
                    radix >= 2,
            ;
        }
        c + 1
    }
}

/// Appends the digits of `n` in base `radix`, padded with leading zeros to
/// `width` characters.
pub(crate) fn push_padded_digits(s: &mut String, n: u64, radix: u64, width: u64)
    requires
        2 <= radix <= 16,
    ensures
        final(s)@ == old(s)@ + zero_padded(digits(n as nat, radix as nat), width as nat),
{
    let count = digit_count(n, radix);
    let ghost start = s@;
    if count < width {
        let mut i: u64 = 0;
        while i < width - count
            invariant
                i <= width - count,
                count < width,
                s@ == start + Seq::new(i as nat, |j: int| '0'),
            decreases width - count - i,
        {
            push_char(s, '0');
            i = i + 1;
            assert(s@ =~= start + Seq::new(i as nat, |j: int| '0'));
        }
    }
    let ghost mid = s@;
    push_digits(s, n, radix);
    assert(s@ =~= start + zero_padded(digits(n as nat, radix as nat), width as nat));
}

} // verus!
