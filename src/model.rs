use std::ops::Range;
use vstd::prelude::*;

use crate::alignment::{max_position, Alignment};
use crate::character::{char_text, decode, CharacterType};
use crate::context::{Context, Endian, Offset};
use crate::error::H2Error;
use crate::number::{SizedDefinition, SizedDisplay};
use crate::text::digits;

verus! {

/// The mathematical shape of a type value: what it is, and how it is padded.
pub struct TypeModel {
    pub kind: Kind,
    pub alignment: Alignment,
}

/// The kinds of type value, with their parts.
pub enum Kind {
    Number(SizedDefinition, SizedDisplay),
    Character(CharacterType),
    IPv4(Endian),
    IPv6(Endian),
    /// An element repeated a fixed number of times.
    Array(Box<TypeModel>, nat),
    /// Named fields laid out one after the other.
    Struct(Seq<(Seq<char>, TypeModel)>),
    /// Named variants that all start at the same position.
    Enum(Seq<(Seq<char>, TypeModel)>),
    /// A fixed number of characters.
    FixedString(nat, Box<TypeModel>),
    /// Characters up to and including a null character.
    NullTerminated(Box<TypeModel>),
    /// A length field, then that many characters.
    LengthPrefixed(Box<TypeModel>, Box<TypeModel>),
}

/// The model of a resolved type: ranges, name, value and children.
pub struct ResolvedModel {
    pub actual_range: Range<u64>,
    pub aligned_range: Range<u64>,
    pub field_name: Option<Seq<char>>,
    pub value: Seq<char>,
    pub children: Seq<ResolvedModel>,
}

/// The byte buffer behind an offset, if any.
pub open spec fn data_len(o: Offset) -> int {
    match o {
        Offset::Static(_) => 0,
        Offset::Dynamic(c) => c.bytes().len() as int,
    }
}

/// The span of `n` bytes at `start`, padded by `a`.
pub open spec fn padded_span(a: Alignment, start: u64, n: u64) -> Result<Range<u64>, H2Error> {
    if start + n > max_position() {
        Err(H2Error::Overflow)
    } else {
        a.spec_align(start..(start + n) as u64)
    }
}

/// Whether every field of `fs` from `i` on is static.
pub open spec fn all_static(fs: Seq<(Seq<char>, TypeModel)>, i: nat) -> bool
    decreases fs, 1nat, fs.len() - i,
{
    if i >= fs.len() {
        true
    } else {
        is_static(fs[i as int].1) && all_static(fs, i + 1)
    }
}

/// Whether the size of `t` follows from its shape alone.
pub open spec fn is_static(t: TypeModel) -> bool
    decreases t, 0nat, 0nat,
{
    match t.kind {
        Kind::Number(_, _) | Kind::IPv4(_) | Kind::IPv6(_) => true,
        Kind::Character(ct) => ct.spec_is_static(),
        Kind::Array(e, _) => is_static(*e),
        Kind::Struct(fs) => all_static(fs, 0),
        Kind::Enum(fs) => all_static(fs, 0),
        _ => false,
    }
}

/// One character of a string at `pos`: where its padded span ends, and the
/// character.
pub open spec fn char_step(cm: TypeModel, o: Offset, pos: u64) -> Result<(u64, char), H2Error> {
    match cm.kind {
        Kind::Character(ct) => match o {
            Offset::Static(_) => Err(H2Error::WrongMode),
            Offset::Dynamic(c) => match decode(ct, c.at_spec(pos)) {
                Err(e) => Err(e),
                Ok((w, ch)) => match padded_span(cm.alignment, pos, w) {
                    Err(e) => Err(e),
                    Ok(r) => Ok((r.end, ch)),
                },
            },
        },
        _ => Err(H2Error::NotACharacterType),
    }
}

/// `n` characters from `pos` on, after those in `acc`: where they end, and
/// all characters.
pub open spec fn scan_fixed(cm: TypeModel, o: Offset, pos: u64, n: nat, acc: Seq<char>) -> Result<
    (u64, Seq<char>),
    H2Error,
>
    decreases n,
{
    if n == 0 {
        Ok((pos, acc))
    } else {
        match char_step(cm, o, pos) {
            Err(e) => Err(e),
            Ok((end, ch)) => scan_fixed(cm, o, end, (n - 1) as nat, acc.push(ch)),
        }
    }
}

/// Characters from `pos` on up to a null character: where the null
/// character ends, and the characters before it (after those in `acc`).
pub open spec fn scan_nt(cm: TypeModel, o: Offset, pos: u64, acc: Seq<char>) -> Result<
    (u64, Seq<char>),
    H2Error,
>
    decreases data_len(o) - pos,
{
    if o is Dynamic && pos >= data_len(o) {
        Err(H2Error::MissingTerminator)
    } else {
        match char_step(cm, o, pos) {
            Err(e) => Err(e),
            Ok((end, ch)) => if ch == '\0' {
                Ok((end, acc))
            } else if end >= data_len(o) {
                Err(H2Error::MissingTerminator)
            } else if end <= pos {
                // A character takes at least one byte, so this does not occur.
                Err(H2Error::InvalidEncoding)
            } else {
                scan_nt(cm, o, end, acc.push(ch))
            },
        }
    }
}

/// The length field of a length-prefixed string at `o`: its padded span
/// and the count it holds.
pub open spec fn length_field(lm: TypeModel, o: Offset) -> Result<(Range<u64>, nat), H2Error> {
    match lm.kind {
        Kind::Number(d, _) => if d.is_signed() {
            Err(H2Error::NotALengthType)
        } else {
            match o {
                Offset::Static(_) => Err(H2Error::WrongMode),
                Offset::Dynamic(c) => if !c.has_bytes_at(c.pos() as int, d.spec_size() as int) {
                    Err(H2Error::OutOfBounds)
                } else {
                    match padded_span(lm.alignment, c.pos(), d.spec_size()) {
                        Err(e) => Err(e),
                        Ok(r) => Ok(
                            (r, d.value(c.bytes_at(c.pos() as int, d.spec_size() as int)) as nat),
                        ),
                    }
                },
            }
        },
        _ => Err(H2Error::NotALengthType),
    }
}

/// The characters of a string type at `o`: where they end, and the
/// characters (without a terminator).
pub open spec fn string_scan(t: TypeModel, o: Offset) -> Result<(u64, Seq<char>), H2Error> {
    match t.kind {
        Kind::FixedString(n, cm) => scan_fixed(*cm, o, o.spec_position(), n, seq![]),
        Kind::NullTerminated(cm) => scan_nt(*cm, o, o.spec_position(), seq![]),
        Kind::LengthPrefixed(lm, cm) => match length_field(*lm, o) {
            Err(e) => Err(e),
            Ok((r, n)) => scan_fixed(*cm, o, r.end, n, seq![]),
        },
        _ => Err(H2Error::NotACharacterType),
    }
}

/// The extent from `start` to the end of the last of `rs`; fails with
/// `empty` when there is none.
pub open spec fn extent(rs: Result<Seq<Range<u64>>, H2Error>, start: u64, empty: H2Error) -> Result<
    u64,
    H2Error,
> {
    match rs {
        Err(e) => Err(e),
        Ok(rs) => if rs.len() == 0 {
            Err(empty)
        } else {
            Ok((rs.last().end - start) as u64)
        },
    }
}

/// The size of `t` at `o`, without its own padding.
pub open spec fn size_of(t: TypeModel, o: Offset) -> Result<u64, H2Error>
    decreases t, 0nat, 0nat,
{
    match t.kind {
        Kind::Number(d, _) => Ok(d.spec_size()),
        Kind::IPv4(_) => Ok(4),
        Kind::IPv6(_) => Ok(16),
        Kind::Character(ct) => if ct.spec_is_static() {
            Ok(ct.static_width())
        } else {
            match o {
                Offset::Static(_) => Err(H2Error::WrongMode),
                Offset::Dynamic(c) => match decode(ct, c) {
                    Err(e) => Err(e),
                    Ok((w, _)) => Ok(w),
                },
            }
        },
        Kind::Array(e, n) => extent(
            array_layout(*e, n, o, o.spec_position(), seq![]),
            o.spec_position(),
            H2Error::ZeroLengthArray,
        ),
        Kind::Struct(fs) => extent(
            fields_layout(fs, 0, o, o.spec_position(), seq![]),
            o.spec_position(),
            H2Error::EmptyStruct,
        ),
        Kind::Enum(fs) => enum_width(fs, 0, o, 0),
        _ => match string_scan(t, o) {
            Err(e) => Err(e),
            Ok((end, _)) => Ok((end - o.spec_position()) as u64),
        },
    }
}

/// The span of `t` at `o`, padded by its own alignment.
pub open spec fn aligned_of(t: TypeModel, o: Offset) -> Result<Range<u64>, H2Error>
    decreases t, 1nat, 0nat,
{
    match size_of(t, o) {
        Err(e) => Err(e),
        Ok(n) => padded_span(t.alignment, o.spec_position(), n),
    }
}

/// The span of `t` at `o`, without padding.
pub open spec fn actual_of(t: TypeModel, o: Offset) -> Result<Range<u64>, H2Error> {
    match size_of(t, o) {
        Err(e) => Err(e),
        Ok(n) => padded_span(Alignment::Unaligned, o.spec_position(), n),
    }
}

/// The padded spans of `n` more copies of `e`, the first at `cursor`, each
/// after the last, after those in `acc`.
pub open spec fn array_layout(
    e: TypeModel,
    n: nat,
    o: Offset,
    cursor: u64,
    acc: Seq<Range<u64>>,
) -> Result<Seq<Range<u64>>, H2Error>
    decreases e, 2nat, n,
{
    if n == 0 {
        Ok(acc)
    } else {
        match aligned_of(e, o.spec_at(cursor)) {
            Err(x) => Err(x),
            Ok(r) => array_layout(e, (n - 1) as nat, o, r.end, acc.push(r)),
        }
    }
}

/// The padded spans of the fields of `fs` from `i` on, the first at
/// `cursor`, each after the last, after those in `acc`.
pub open spec fn fields_layout(
    fs: Seq<(Seq<char>, TypeModel)>,
    i: nat,
    o: Offset,
    cursor: u64,
    acc: Seq<Range<u64>>,
) -> Result<Seq<Range<u64>>, H2Error>
    decreases fs, 2nat, fs.len() - i,
{
    if i >= fs.len() {
        Ok(acc)
    } else {
        match aligned_of(fs[i as int].1, o.spec_at(cursor)) {
            Err(x) => Err(x),
            Ok(r) => fields_layout(fs, i + 1, o, r.end, acc.push(r)),
        }
    }
}

/// The padded spans of the variants of `fs` from `i` on, all at `o`, after
/// those in `acc`.
pub open spec fn variants_layout(
    fs: Seq<(Seq<char>, TypeModel)>,
    i: nat,
    o: Offset,
    acc: Seq<Range<u64>>,
) -> Result<Seq<Range<u64>>, H2Error>
    decreases fs, 2nat, fs.len() - i,
{
    if i >= fs.len() {
        Ok(acc)
    } else {
        match aligned_of(fs[i as int].1, o) {
            Err(x) => Err(x),
            Ok(r) => variants_layout(fs, i + 1, o, acc.push(r)),
        }
    }
}

/// The largest padded size among the variants of `fs` from `i` on, and
/// `best`.
pub open spec fn enum_width(fs: Seq<(Seq<char>, TypeModel)>, i: nat, o: Offset, best: u64) -> Result<
    u64,
    H2Error,
>
    decreases fs, 2nat, fs.len() - i,
{
    if i >= fs.len() {
        Ok(best)
    } else {
        match aligned_of(fs[i as int].1, o) {
            Err(x) => Err(x),
            Ok(r) => {
                let n = (r.end - r.start) as u64;
                enum_width(fs, i + 1, o, if n > best { n } else { best })
            },
        }
    }
}

/// The spans of the children of `t` at `o`, in order.
pub open spec fn child_ranges(t: TypeModel, o: Offset) -> Result<Seq<Range<u64>>, H2Error> {
    match t.kind {
        Kind::Array(e, n) => array_layout(*e, n, o, o.spec_position(), seq![]),
        Kind::Struct(fs) => fields_layout(fs, 0, o, o.spec_position(), seq![]),
        Kind::Enum(fs) => variants_layout(fs, 0, o, seq![]),
        _ => Ok(seq![]),
    }
}

/// `parts` with `sep` between each two.
pub open spec fn join(parts: Seq<Seq<char>>, sep: Seq<char>) -> Seq<char>
    decreases parts.len(),
{
    if parts.len() == 0 {
        seq![]
    } else if parts.len() == 1 {
        parts[0]
    } else {
        join(parts.drop_last(), sep) + sep + parts.last()
    }
}

/// The name of a leaf kind in the abstract.
pub open spec fn leaf_name(k: Kind) -> Seq<char> {
    match k {
        Kind::Number(_, _) => "Number"@,
        Kind::Character(ct) => ct.name(),
        Kind::IPv4(_) => "IPv4 Address"@,
        _ => "IPv6 Address"@,
    }
}

/// The sixteen-bit groups of an IPv6 address, most significant first.
pub open spec fn ipv6_groups(bytes: Seq<u8>) -> Seq<nat> {
    Seq::new(8, |i: int| (bytes[2 * i] as nat) * 256 + bytes[2 * i + 1] as nat)
}

/// How many of `g` from `i` on are zero, in a row.
pub open spec fn zero_run(g: Seq<nat>, i: nat) -> nat
    decreases g.len() - i,
{
    if i >= g.len() || g[i as int] != 0 {
        0
    } else {
        1 + zero_run(g, i + 1)
    }
}

/// The first longest run of zero groups at or after `i`: its start and
/// length.
pub open spec fn longest_zero_run(g: Seq<nat>, i: nat) -> (nat, nat)
    decreases g.len() - i,
{
    if i >= g.len() {
        (g.len(), 0)
    } else {
        let rest = longest_zero_run(g, i + 1);
        if zero_run(g, i) >= rest.1 {
            (i, zero_run(g, i))
        } else {
            rest
        }
    }
}

/// Groups written in lowercase hex, separated by colons.
pub open spec fn hex_groups(g: Seq<nat>) -> Seq<char> {
    join(Seq::new(g.len(), |i: int| digits(g[i], 16)), seq![':'])
}

/// The text of an IPv6 address: its groups in hex, with the first longest
/// run of two or more zero groups written as `::`.
pub open spec fn ipv6_text(bytes: Seq<u8>) -> Seq<char> {
    let g = ipv6_groups(bytes);
    let (s, n) = longest_zero_run(g, 0);
    if n >= 2 {
        hex_groups(g.subrange(0, s as int)) + seq![':', ':'] + hex_groups(
            g.subrange((s + n) as int, 8),
        )
    } else {
        hex_groups(g)
    }
}

/// The text of an IPv4 address: its four bytes in decimal, separated by
/// dots.
pub open spec fn ipv4_text(bytes: Seq<u8>) -> Seq<char> {
    join(Seq::new(4, |i: int| digits(bytes[i] as nat, 10)), seq!['.'])
}

/// The text of a leaf at `o`.
pub open spec fn leaf_value(k: Kind, o: Offset) -> Result<Seq<char>, H2Error> {
    match o {
        Offset::Static(_) => Ok(leaf_name(k)),
        Offset::Dynamic(c) => {
            let p = c.pos() as int;
            match k {
                Kind::Number(d, display) => if c.has_bytes_at(p, d.spec_size() as int) {
                    Ok(d.text(display, c.bytes_at(p, d.spec_size() as int)))
                } else {
                    Err(H2Error::OutOfBounds)
                },
                Kind::Character(ct) => match decode(ct, c) {
                    Err(e) => Err(e),
                    Ok((_, ch)) => Ok(char_text(ch)),
                },
                Kind::IPv4(e) => if c.has_bytes_at(p, 4) {
                    Ok(ipv4_text(crate::context::big_first(c.bytes_at(p, 4), e)))
                } else {
                    Err(H2Error::OutOfBounds)
                },
                _ => if c.has_bytes_at(p, 16) {
                    Ok(ipv6_text(crate::context::big_first(c.bytes_at(p, 16), k->IPv6_0)))
                } else {
                    Err(H2Error::OutOfBounds)
                },
            }
        },
    }
}

/// Whether `k` is a leaf kind: one without children of its own.
pub open spec fn is_leaf(k: Kind) -> bool {
    k is Number || k is Character || k is IPv4 || k is IPv6
}

/// The text of `t` at `o`.
pub open spec fn value_of(t: TypeModel, o: Offset) -> Result<Seq<char>, H2Error>
    decreases t, 3nat, 0nat,
{
    match t.kind {
        Kind::Array(e, n) => match array_layout(*e, n, o, o.spec_position(), seq![]) {
            Err(x) => Err(x),
            Ok(rs) => match element_values(*e, rs, o, 0, seq![]) {
                Err(x) => Err(x),
                Ok(vs) => Ok(seq!['[', ' '] + join(vs, seq![',', ' ']) + seq![' ', ']']),
            },
        },
        Kind::Struct(fs) => match fields_layout(fs, 0, o, o.spec_position(), seq![]) {
            Err(x) => Err(x),
            Ok(rs) => match field_values(fs, rs, o, 0, seq![], false) {
                Err(x) => Err(x),
                Ok(vs) => Ok(seq!['['] + join(vs, seq![',', ' ']) + seq![']']),
            },
        },
        Kind::Enum(fs) => match variants_layout(fs, 0, o, seq![]) {
            Err(x) => Err(x),
            Ok(rs) => match field_values(fs, rs, o, 0, seq![], true) {
                Err(x) => Err(x),
                Ok(vs) => Ok(seq!['{', ' '] + join(vs, seq![' ', '|', ' ']) + seq![' ', '}']),
            },
        },
        _ => if is_leaf(t.kind) {
            leaf_value(t.kind, o)
        } else {
            match string_scan(t, o) {
                Err(x) => Err(x),
                Ok((_, chars)) => Ok(chars),
            }
        },
    }
}

/// The texts of copies of `e` at the starts of `rs` from `i` on, after
/// those in `acc`.
pub open spec fn element_values(
    e: TypeModel,
    rs: Seq<Range<u64>>,
    o: Offset,
    i: nat,
    acc: Seq<Seq<char>>,
) -> Result<Seq<Seq<char>>, H2Error>
    decreases e, 4nat, rs.len() - i,
{
    if i >= rs.len() {
        Ok(acc)
    } else {
        match value_of(e, o.spec_at(rs[i as int].start)) {
            Err(x) => Err(x),
            Ok(v) => element_values(e, rs, o, i + 1, acc.push(v)),
        }
    }
}

/// The texts of the fields of `fs` at the starts of `rs` from `i` on, after
/// those in `acc`; each preceded by its name and `: ` where `named`.
pub open spec fn field_values(
    fs: Seq<(Seq<char>, TypeModel)>,
    rs: Seq<Range<u64>>,
    o: Offset,
    i: nat,
    acc: Seq<Seq<char>>,
    named: bool,
) -> Result<Seq<Seq<char>>, H2Error>
    decreases fs, 4nat, fs.len() - i,
{
    if i >= fs.len() || i >= rs.len() {
        Ok(acc)
    } else {
        match value_of(fs[i as int].1, o.spec_at(rs[i as int].start)) {
            Err(x) => Err(x),
            Ok(v) => field_values(
                fs,
                rs,
                o,
                i + 1,
                acc.push(if named { fs[i as int].0 + seq![':', ' '] + v } else { v }),
                named,
            ),
        }
    }
}

/// A resolved leaf: its spans and text, with no children.
pub open spec fn resolve_leaf(t: TypeModel, o: Offset, name: Option<Seq<char>>) -> Result<
    ResolvedModel,
    H2Error,
> {
    if !is_leaf(t.kind) {
        Err(H2Error::NotACharacterType)
    } else {
        match actual_of(t, o) {
            Err(e) => Err(e),
            Ok(actual) => match aligned_of(t, o) {
                Err(e) => Err(e),
                Ok(aligned) => match leaf_value(t.kind, o) {
                    Err(e) => Err(e),
                    Ok(v) => Ok(
                        ResolvedModel {
                            actual_range: actual,
                            aligned_range: aligned,
                            field_name: name,
                            value: v,
                            children: seq![],
                        },
                    ),
                },
            },
        }
    }
}

/// Resolved leaves of type `t` at the starts of `rs` from `i` on, after
/// those in `acc`.
pub open spec fn resolve_leaves(
    t: TypeModel,
    rs: Seq<Range<u64>>,
    o: Offset,
    i: nat,
    acc: Seq<ResolvedModel>,
) -> Result<Seq<ResolvedModel>, H2Error>
    decreases rs.len() - i,
{
    if i >= rs.len() {
        Ok(acc)
    } else {
        match resolve_leaf(t, o.spec_at(rs[i as int].start), None) {
            Err(e) => Err(e),
            Ok(r) => resolve_leaves(t, rs, o, i + 1, acc.push(r)),
        }
    }
}

/// The texts of resolved models.
pub open spec fn values(ms: Seq<ResolvedModel>) -> Seq<Seq<char>> {
    Seq::new(ms.len(), |i: int| ms[i].value)
}

/// The text of an array whose elements have the texts `vs`.
pub open spec fn array_text(vs: Seq<Seq<char>>) -> Seq<char> {
    seq!['[', ' '] + join(vs, seq![',', ' ']) + seq![' ', ']']
}

/// The resolved array of `n` characters of type `cm` from `pos`: the
/// child through which a string shows its characters.
pub open spec fn char_array(cm: TypeModel, n: nat, o: Offset, pos: u64) -> Result<
    ResolvedModel,
    H2Error,
> {
    match array_layout(cm, n, o, pos, seq![]) {
        Err(e) => Err(e),
        Ok(rs) => if rs.len() == 0 {
            Err(H2Error::ZeroLengthArray)
        } else {
            match resolve_leaves(cm, rs, o, 0, seq![]) {
                Err(e) => Err(e),
                Ok(kids) => Ok(
                    ResolvedModel {
                        actual_range: pos..rs.last().end,
                        aligned_range: pos..rs.last().end,
                        field_name: None,
                        value: array_text(values(kids)),
                        children: kids,
                    },
                ),
            }
        },
    }
}

/// The resolved children of a string type at `o`.
pub open spec fn string_children(t: TypeModel, o: Offset) -> Result<Seq<ResolvedModel>, H2Error> {
    let pos = o.spec_position();
    match string_scan(t, o) {
        Err(e) => Err(e),
        Ok((end, chars)) => match t.kind {
            Kind::FixedString(n, cm) => match char_array(*cm, n, o, pos) {
                Err(e) => Err(e),
                Ok(a) => Ok(seq![a]),
            },
            Kind::NullTerminated(cm) => {
                let n = chars.len();
                let chars_node = if n == 0 {
                    Ok(seq![])
                } else {
                    match char_array(*cm, n, o, pos) {
                        Err(e) => Err(e),
                        Ok(a) => Ok(seq![a]),
                    }
                };
                match chars_node {
                    Err(e) => Err(e),
                    Ok(first) => {
                        let term_start = if n == 0 {
                            pos
                        } else {
                            first[0].aligned_range.end
                        };
                        match resolve_leaf(*cm, o.spec_at(term_start), Some("terminator"@)) {
                            Err(e) => Err(e),
                            Ok(term) => Ok(first.push(term)),
                        }
                    },
                }
            },
            Kind::LengthPrefixed(lm, cm) => match length_field(*lm, o) {
                Err(e) => Err(e),
                Ok((r, n)) => match resolve_leaf(*lm, o, Some("size"@)) {
                    Err(e) => Err(e),
                    Ok(size) => if n == 0 {
                        Ok(seq![size])
                    } else {
                        match char_array(*cm, n, o, r.end) {
                            Err(e) => Err(e),
                            Ok(a) => Ok(seq![size, a]),
                        }
                    },
                },
            },
            _ => Ok(seq![]),
        },
    }
}

/// `t` resolved at `o` under the field name `name`: spans, text, and the
/// children resolved each at the start of its own span.
pub open spec fn resolve_of(t: TypeModel, o: Offset, name: Option<Seq<char>>) -> Result<
    ResolvedModel,
    H2Error,
>
    decreases t, 6nat, 0nat,
{
    match actual_of(t, o) {
        Err(e) => Err(e),
        Ok(actual) => match aligned_of(t, o) {
            Err(e) => Err(e),
            Ok(aligned) => match value_of(t, o) {
                Err(e) => Err(e),
                Ok(v) => {
                    let kids = children_of(t, o);
                    match kids {
                        Err(x) => Err(x),
                        Ok(kids) => Ok(
                            ResolvedModel {
                                actual_range: actual,
                                aligned_range: aligned,
                                field_name: name,
                                value: v,
                                children: kids,
                            },
                        ),
                    }
                },
            },
        },
    }
}

/// The children of `t` resolved at `o`, each at the start of its own span.
pub open spec fn children_of(t: TypeModel, o: Offset) -> Result<Seq<ResolvedModel>, H2Error>
    decreases t, 5nat, 0nat,
{
    match t.kind {
        Kind::Array(e, n) => match array_layout(*e, n, o, o.spec_position(), seq![]) {
            Err(x) => Err(x),
            Ok(rs) => resolve_elements(*e, rs, o, 0, seq![]),
        },
        Kind::Struct(fs) => match fields_layout(fs, 0, o, o.spec_position(), seq![]) {
            Err(x) => Err(x),
            Ok(rs) => resolve_fields(fs, rs, o, 0, seq![]),
        },
        Kind::Enum(fs) => match variants_layout(fs, 0, o, seq![]) {
            Err(x) => Err(x),
            Ok(rs) => resolve_fields(fs, rs, o, 0, seq![]),
        },
        _ => if is_leaf(t.kind) {
            Ok(seq![])
        } else {
            string_children(t, o)
        },
    }
}

/// Copies of `e` resolved at the starts of `rs` from `i` on, after those in
/// `acc`.
pub open spec fn resolve_elements(
    e: TypeModel,
    rs: Seq<Range<u64>>,
    o: Offset,
    i: nat,
    acc: Seq<ResolvedModel>,
) -> Result<Seq<ResolvedModel>, H2Error>
    decreases e, 7nat, rs.len() - i,
{
    if i >= rs.len() {
        Ok(acc)
    } else {
        match resolve_of(e, o.spec_at(rs[i as int].start), None) {
            Err(x) => Err(x),
            Ok(r) => resolve_elements(e, rs, o, i + 1, acc.push(r)),
        }
    }
}

/// The fields of `fs` resolved under their names at the starts of `rs`
/// from `i` on, after those in `acc`.
pub open spec fn resolve_fields(
    fs: Seq<(Seq<char>, TypeModel)>,
    rs: Seq<Range<u64>>,
    o: Offset,
    i: nat,
    acc: Seq<ResolvedModel>,
) -> Result<Seq<ResolvedModel>, H2Error>
    decreases fs, 7nat, fs.len() - i,
{
    if i >= fs.len() || i >= rs.len() {
        Ok(acc)
    } else {
        match resolve_of(fs[i as int].1, o.spec_at(rs[i as int].start), Some(fs[i as int].0)) {
            Err(x) => Err(x),
            Ok(r) => resolve_fields(fs, rs, o, i + 1, acc.push(r)),
        }
    }
}

/// An array of `n` copies of `e` with no padding of its own.
pub open spec fn array_model(e: TypeModel, n: nat) -> TypeModel {
    TypeModel { kind: Kind::Array(Box::new(e), n), alignment: Alignment::Unaligned }
}

/// The children of `t` at `o` as named type values, in order.
pub open spec fn child_types(t: TypeModel, o: Offset) -> Result<
    Seq<(Option<Seq<char>>, TypeModel)>,
    H2Error,
> {
    match t.kind {
        Kind::Array(e, n) => Ok(Seq::new(n, |i: int| (None, *e))),
        Kind::Struct(fs) => Ok(Seq::new(fs.len(), |i: int| (Some(fs[i].0), fs[i].1))),
        Kind::Enum(fs) => Ok(Seq::new(fs.len(), |i: int| (Some(fs[i].0), fs[i].1))),
        Kind::FixedString(n, cm) => if n == 0 {
            Err(H2Error::ZeroLengthArray)
        } else {
            Ok(seq![(None, array_model(*cm, n))])
        },
        Kind::NullTerminated(cm) => match string_scan(t, o) {
            Err(e) => Err(e),
            Ok((_, chars)) => {
                let term = seq![(Some("terminator"@), *cm)];
                if chars.len() == 0 {
                    Ok(term)
                } else {
                    Ok(seq![(None, array_model(*cm, chars.len()))] + term)
                }
            },
        },
        Kind::LengthPrefixed(lm, cm) => match length_field(*lm, o) {
            Err(e) => Err(e),
            Ok((_, n)) => {
                let size = seq![(Some("size"@), *lm)];
                if n == 0 {
                    Ok(size)
                } else {
                    Ok(size + seq![(None, array_model(*cm, n))])
                }
            },
        },
        _ => Ok(seq![]),
    }
}

/// The character that `t` decodes to at `o`.
pub open spec fn char_of(t: TypeModel, o: Offset) -> Result<char, H2Error> {
    match t.kind {
        Kind::Character(ct) => match o {
            Offset::Static(_) => Err(H2Error::WrongMode),
            Offset::Dynamic(c) => match decode(ct, c) {
                Err(e) => Err(e),
                Ok((_, ch)) => Ok(ch),
            },
        },
        _ => Err(H2Error::NotACharacterType),
    }
}

/// The integer that `t` decodes to at `o`, where it is a number whose
/// signedness is `signed`.
pub open spec fn int_of(t: TypeModel, o: Offset, signed: bool) -> Result<int, H2Error> {
    match t.kind {
        Kind::Number(d, _) => if d.is_signed() != signed {
            Err(H2Error::NotALengthType)
        } else {
            match o {
                Offset::Static(_) => Err(H2Error::WrongMode),
                Offset::Dynamic(c) => if c.has_bytes_at(c.pos() as int, d.spec_size() as int) {
                    Ok(d.value(c.bytes_at(c.pos() as int, d.spec_size() as int)))
                } else {
                    Err(H2Error::OutOfBounds)
                },
            }
        },
        _ => Err(H2Error::NotALengthType),
    }
}

proof fn lemma_static_offsets(t: TypeModel, o1: Offset, o2: Offset)
    requires
        is_static(t),
        o1.spec_position() == o2.spec_position(),
    ensures
        size_of(t, o1) == size_of(t, o2),
        aligned_of(t, o1) == aligned_of(t, o2),
    decreases t, 3nat, 0nat,
{
    broadcast use Context::lemma_at_spec;

    match t.kind {
        Kind::Array(e, n) => {
            lemma_static_array(*e, n, o1, o2, o1.spec_position(), seq![]);
        },
        Kind::Struct(fs) => {
            lemma_static_fields(fs, 0, o1, o2, o1.spec_position(), seq![]);
        },
        Kind::Enum(fs) => {
            lemma_static_variants(fs, 0, o1, o2, 0);
        },
        _ => {},
    }
}

proof fn lemma_static_array(
    e: TypeModel,
    n: nat,
    o1: Offset,
    o2: Offset,
    cursor: u64,
    acc: Seq<Range<u64>>,
)
    requires
        is_static(e),
        o1.spec_position() == o2.spec_position(),
    ensures
        array_layout(e, n, o1, cursor, acc) == array_layout(e, n, o2, cursor, acc),
    decreases e, 4nat, n,
{
    broadcast use Context::lemma_at_spec;

    if n > 0 {
        lemma_static_offsets(e, o1.spec_at(cursor), o2.spec_at(cursor));
        match aligned_of(e, o1.spec_at(cursor)) {
            Ok(r) => lemma_static_array(e, (n - 1) as nat, o1, o2, r.end, acc.push(r)),
            Err(_) => {},
        }
    }
}

proof fn lemma_static_fields(
    fs: Seq<(Seq<char>, TypeModel)>,
    i: nat,
    o1: Offset,
    o2: Offset,
    cursor: u64,
    acc: Seq<Range<u64>>,
)
    requires
        all_static(fs, i),
        o1.spec_position() == o2.spec_position(),
    ensures
        fields_layout(fs, i, o1, cursor, acc) == fields_layout(fs, i, o2, cursor, acc),
    decreases fs, 4nat, fs.len() - i,
{
    broadcast use Context::lemma_at_spec;

    if i < fs.len() {
        assert(is_static(fs[i as int].1) && all_static(fs, i + 1));
        lemma_static_offsets(fs[i as int].1, o1.spec_at(cursor), o2.spec_at(cursor));
        match aligned_of(fs[i as int].1, o1.spec_at(cursor)) {
            Ok(r) => lemma_static_fields(fs, i + 1, o1, o2, r.end, acc.push(r)),
            Err(_) => {},
        }
    }
}

proof fn lemma_static_variants(
    fs: Seq<(Seq<char>, TypeModel)>,
    i: nat,
    o1: Offset,
    o2: Offset,
    best: u64,
)
    requires
        all_static(fs, i),
        o1.spec_position() == o2.spec_position(),
    ensures
        enum_width(fs, i, o1, best) == enum_width(fs, i, o2, best),
    decreases fs, 4nat, fs.len() - i,
{
    if i < fs.len() {
        assert(is_static(fs[i as int].1) && all_static(fs, i + 1));
        lemma_static_offsets(fs[i as int].1, o1, o2);
        match aligned_of(fs[i as int].1, o1) {
            Ok(r) => {
                let n = (r.end - r.start) as u64;
                lemma_static_variants(fs, i + 1, o1, o2, if n > best { n } else { best });
            },
            Err(_) => {},
        }
    }
}

/// The size of a static type does not depend on data: at any position, it
/// is the same in the abstract as over any buffer, and so is its padded
/// span.
pub proof fn lemma_static_size_ignores_data(t: TypeModel, position: u64, c: Context)
    requires
        is_static(t),
        c.pos() == position,
    ensures
        size_of(t, Offset::Static(position)) == size_of(t, Offset::Dynamic(c)),
        aligned_of(t, Offset::Static(position)) == aligned_of(t, Offset::Dynamic(c)),
{
    lemma_static_offsets(t, Offset::Static(position), Offset::Dynamic(c));
}

/// Resolving a type twice at the same position of the same bytes gives the
/// same tree: the same ranges, text and children. This holds of
/// null-terminated strings as of every other type.
pub proof fn lemma_resolution_repeats(
    t: TypeModel,
    c1: Context,
    c2: Context,
    name: Option<Seq<char>>,
)
    requires
        c1.bytes() == c2.bytes(),
        c1.pos() == c2.pos(),
    ensures
        resolve_of(t, Offset::Dynamic(c1), name) == resolve_of(t, Offset::Dynamic(c2), name),
{
    c1.lemma_same_cursor(c2);
}

/// Whether the spans `rs` lie in a row from `start`: the first starts at
/// `start`, and each of the others where the one before it ends.
pub open spec fn in_a_row(rs: Seq<Range<u64>>, start: u64) -> bool {
    &&& rs.len() > 0 ==> rs[0].start == start
    &&& forall|i: int| 0 < i < rs.len() ==> (#[trigger] rs[i]).start == rs[i - 1].end
}

proof fn lemma_padded_span_start(a: Alignment, start: u64, n: u64)
    ensures
        padded_span(a, start, n) matches Ok(r) ==> r.start == start && r.end >= start + n,
{
    let m = a.multiple();
    if m != 0 {
        assert(n as nat % m < m && n as nat % m <= n) by (nonlinear_arith)
            requires
                m > 0,
        ;
    }
}

proof fn lemma_aligned_start(t: TypeModel, o: Offset)
    ensures
        aligned_of(t, o) matches Ok(r) ==> r.start == o.spec_position(),
{
    if let Ok(n) = size_of(t, o) {
        lemma_padded_span_start(t.alignment, o.spec_position(), n);
    }
}

proof fn lemma_array_in_a_row(
    e: TypeModel,
    n: nat,
    o: Offset,
    start: u64,
    cursor: u64,
    acc: Seq<Range<u64>>,
)
    requires
        in_a_row(acc, start),
        acc.len() == 0 ==> cursor == start,
        acc.len() > 0 ==> cursor == acc.last().end,
    ensures
        array_layout(e, n, o, cursor, acc) matches Ok(rs) ==> in_a_row(rs, start),
    decreases n,
{
    broadcast use Context::lemma_at_spec;

    if n > 0 {
        lemma_aligned_start(e, o.spec_at(cursor));
        if let Ok(r) = aligned_of(e, o.spec_at(cursor)) {
            let next = acc.push(r);
            assert(in_a_row(next, start)) by {
                assert forall|i: int| 0 < i < next.len() implies (#[trigger] next[i]).start
                    == next[i - 1].end by {
                    if i < acc.len() {
                        assert(next[i] == acc[i] && next[i - 1] == acc[i - 1]);
                    }
                }
            }
            lemma_array_in_a_row(e, (n - 1) as nat, o, start, r.end, next);
        }
    }
}

proof fn lemma_fields_in_a_row(
    fs: Seq<(Seq<char>, TypeModel)>,
    i: nat,
    o: Offset,
    start: u64,
    cursor: u64,
    acc: Seq<Range<u64>>,
)
    requires
        in_a_row(acc, start),
        acc.len() == 0 ==> cursor == start,
        acc.len() > 0 ==> cursor == acc.last().end,
    ensures
        fields_layout(fs, i, o, cursor, acc) matches Ok(rs) ==> in_a_row(rs, start),
    decreases fs.len() - i,
{
    broadcast use Context::lemma_at_spec;

    if i < fs.len() {
        lemma_aligned_start(fs[i as int].1, o.spec_at(cursor));
        if let Ok(r) = aligned_of(fs[i as int].1, o.spec_at(cursor)) {
            let next = acc.push(r);
            assert(in_a_row(next, start)) by {
                assert forall|k: int| 0 < k < next.len() implies (#[trigger] next[k]).start
                    == next[k - 1].end by {
                    if k < acc.len() {
                        assert(next[k] == acc[k] && next[k - 1] == acc[k - 1]);
                    }
                }
            }
            lemma_fields_in_a_row(fs, i + 1, o, start, r.end, next);
        }
    }
}

proof fn lemma_variants_together(
    fs: Seq<(Seq<char>, TypeModel)>,
    i: nat,
    o: Offset,
    acc: Seq<Range<u64>>,
)
    requires
        forall|k: int| 0 <= k < acc.len() ==> (#[trigger] acc[k]).start == o.spec_position(),
    ensures
        variants_layout(fs, i, o, acc) matches Ok(rs) ==> forall|k: int|
            0 <= k < rs.len() ==> (#[trigger] rs[k]).start == o.spec_position(),
    decreases fs.len() - i,
{
    if i < fs.len() {
        lemma_aligned_start(fs[i as int].1, o);
        if let Ok(r) = aligned_of(fs[i as int].1, o) {
            let next = acc.push(r);
            assert forall|k: int| 0 <= k < next.len() implies (#[trigger] next[k]).start
                == o.spec_position() by {
                if k < acc.len() {
                    assert(next[k] == acc[k]);
                }
            }
            lemma_variants_together(fs, i + 1, o, next);
        }
    }
}

/// The children of an array or a struct lie in a row: the first at the
/// parent's position, each of the others where the one before it ends
/// (padding included). The variants of an enum all start at the parent's
/// position.
pub proof fn lemma_children_layout(t: TypeModel, o: Offset)
    ensures
        child_ranges(t, o) matches Ok(rs) ==> {
            &&& (t.kind is Array || t.kind is Struct) ==> in_a_row(rs, o.spec_position())
            &&& t.kind is Enum ==> forall|k: int|
                0 <= k < rs.len() ==> (#[trigger] rs[k]).start == o.spec_position()
        },
{
    match t.kind {
        Kind::Array(e, n) => lemma_array_in_a_row(
            *e,
            n,
            o,
            o.spec_position(),
            o.spec_position(),
            seq![],
        ),
        Kind::Struct(fs) => lemma_fields_in_a_row(
            fs,
            0,
            o,
            o.spec_position(),
            o.spec_position(),
            seq![],
        ),
        Kind::Enum(fs) => lemma_variants_together(fs, 0, o, seq![]),
        _ => {},
    }
}

/// Padding is only ever appended: a resolved type's padded span starts
/// where its content starts and ends no earlier.
pub proof fn lemma_padding_is_appended(t: TypeModel, o: Offset, name: Option<Seq<char>>)
    ensures
        resolve_of(t, o, name) matches Ok(r) ==> {
            &&& r.actual_range.start == r.aligned_range.start
            &&& r.actual_range.end <= r.aligned_range.end
        },
{
    if let Ok(n) = size_of(t, o) {
        lemma_padded_span_start(t.alignment, o.spec_position(), n);
        lemma_padded_span_start(Alignment::Unaligned, o.spec_position(), n);
    }
}

} // verus!
