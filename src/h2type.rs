use vstd::prelude::*;

use crate::alignment::Alignment;
use crate::character::{CharacterType, StrictASCII};
use crate::context::Endian;
use crate::error::H2Error;
use std::ops::Range;

use crate::character::decode_at;
use crate::context::Offset;
use crate::model::{
    aligned_of, actual_of, all_static, array_layout, array_text, char_array, char_step,
    children_of, data_len, element_values, resolve_elements, resolve_fields, resolve_leaf,
    resolve_leaves, resolve_of, string_children, values, array_model, char_of, child_types,
    int_of,
    enum_width, field_values, fields_layout, hex_groups, ipv4_text, ipv6_groups, ipv6_text,
    is_leaf, is_static, join, leaf_name, leaf_value, length_field, longest_zero_run, padded_span,
    scan_fixed, scan_nt, size_of, string_scan, value_of, variants_layout, zero_run, Kind,
    TypeModel,
};
use crate::number::text_of;
use crate::resolved::{
    kids_model, lemma_kids_rec, name_model, resolved_all, resolved_of, ResolvedType,
};
use crate::text::{digits, push_char, push_digits, push_str};
use crate::character::char_string;
use crate::context::{big_first, Context};
use crate::number::{SizedDefinition, SizedDisplay};

verus! {

broadcast use crate::context::Context::lemma_at_spec, crate::context::Context::lemma_bytes_len;

/// A type value: what a field is, and how it is padded.
#[derive(Debug)]
pub struct H2Type {
    pub field: H2Types,
    pub alignment: Alignment,
}

/// The kinds of type value.
#[derive(Debug)]
pub enum H2Types {
    H2Number(H2Number),
    Character(Character),
    IPv4(IPv4),
    IPv6(IPv6),
    H2Array(H2Array),
    H2Struct(H2Struct),
    H2Enum(H2Enum),
    H2String(H2String),
    NTString(NTString),
    LPString(LPString),
}

/// A fixed-width integer.
#[derive(Debug)]
pub struct H2Number {
    definition: SizedDefinition,
    display: SizedDisplay,
}

/// A single character of some encoding.
#[derive(Debug)]
pub struct Character {
    character_type: CharacterType,
}

/// A four-byte IPv4 address.
#[derive(Debug)]
pub struct IPv4 {
    endian: Endian,
}

/// A sixteen-byte IPv6 address.
#[derive(Debug)]
pub struct IPv6 {
    endian: Endian,
}

/// One element type repeated a fixed number of times, laid out in a row.
#[derive(Debug)]
pub struct H2Array {
    field_type: Box<H2Type>,
    length: u64,
}

/// Named fields of any type, laid out in a row.
#[derive(Debug)]
pub struct H2Struct {
    fields: Vec<(String, H2Type)>,
}

/// Named variants that all start at the same position.
#[derive(Debug)]
pub struct H2Enum {
    variants: Vec<(String, H2Type)>,
}

/// A fixed number of characters.
#[derive(Debug)]
pub struct H2String {
    length: u64,
    character: Box<H2Type>,
}

/// Characters up to and including a null character.
#[derive(Debug)]
pub struct NTString {
    character: Box<H2Type>,
}

/// A length field, then that many characters.
#[derive(Debug)]
pub struct LPString {
    length: Box<H2Type>,
    character: Box<H2Type>,
}

/// The models of named fields.
pub open spec fn fields_model(fs: Seq<(String, H2Type)>) -> Seq<(Seq<char>, TypeModel)> {
    Seq::new(fs.len(), |i: int| (fs[i].0@, fs[i].1.model()))
}

closed spec fn fields_rec(fs: Seq<(String, H2Type)>) -> Seq<(Seq<char>, TypeModel)>
    decreases fs, 1nat,
{
    if fs.len() == 0 {
        seq![]
    } else {
        fields_rec(fs.drop_last()).push((fs[fs.len() - 1].0@, fs[fs.len() - 1].1.model()))
    }
}

proof fn lemma_fields_rec(fs: Seq<(String, H2Type)>)
    ensures
        fields_rec(fs) == fields_model(fs),
    decreases fs.len(),
{
    if fs.len() > 0 {
        lemma_fields_rec(fs.drop_last());
        assert(fields_rec(fs) =~= fields_model(fs));
    } else {
        assert(fields_rec(fs) =~= fields_model(fs));
    }
}

impl H2Type {
    /// The model of this type value.
    pub closed spec fn model(&self) -> TypeModel
        decreases self, 0nat,
    {
        TypeModel {
            kind: match &self.field {
                H2Types::H2Number(n) => Kind::Number(n.definition, n.display),
                H2Types::Character(c) => Kind::Character(c.character_type),
                H2Types::IPv4(a) => Kind::IPv4(a.endian),
                H2Types::IPv6(a) => Kind::IPv6(a.endian),
                H2Types::H2Array(a) => Kind::Array(
                    Box::new(a.field_type.model()),
                    a.length as nat,
                ),
                H2Types::H2Struct(s) => Kind::Struct(fields_rec(s.fields@)),
                H2Types::H2Enum(s) => Kind::Enum(fields_rec(s.variants@)),
                H2Types::H2String(s) => Kind::FixedString(
                    s.length as nat,
                    Box::new(s.character.model()),
                ),
                H2Types::NTString(s) => Kind::NullTerminated(Box::new(s.character.model())),
                H2Types::LPString(s) => Kind::LengthPrefixed(
                    Box::new(s.length.model()),
                    Box::new(s.character.model()),
                ),
            },
            alignment: self.alignment,
        }
    }

    /// A type value of the given kind and padding.
    pub fn new(alignment: Alignment, field: H2Types) -> (r: H2Type)
        ensures
            r.field == field,
            r.alignment == alignment,
    {
        H2Type { field, alignment }
    }

    /// Whether the size of this type follows from its shape alone.
    pub fn is_static(&self) -> (r: bool)
        ensures
            r == is_static(self.model()),
        decreases self, 1nat, 0nat,
    {
        match &self.field {
            H2Types::H2Number(_) | H2Types::IPv4(_) | H2Types::IPv6(_) => true,
            H2Types::Character(c) => c.character_type.is_static(),
            H2Types::H2Array(a) => a.field_type.is_static(),
            H2Types::H2Struct(s) => {
                proof {
                    lemma_fields_rec(s.fields@);
                }
                all_fields_static(&s.fields)
            },
            H2Types::H2Enum(s) => {
                proof {
                    lemma_fields_rec(s.variants@);
                }
                all_fields_static(&s.variants)
            },
            _ => false,
        }
    }

    /// Whether this type decodes to a single character.
    pub fn can_be_char(&self) -> (r: bool)
        ensures
            r == (self.model().kind is Character),
    {
        match &self.field {
            H2Types::Character(_) => true,
            _ => false,
        }
    }

    /// Whether this type decodes to an unsigned integer.
    pub fn can_be_u64(&self) -> (r: bool)
        ensures
            r == (self.model().kind matches Kind::Number(d, _) && !d.is_signed()),
    {
        match &self.field {
            H2Types::H2Number(n) => n.definition.can_be_u64(),
            _ => false,
        }
    }

    /// Whether this type decodes to a signed integer.
    pub fn can_be_i64(&self) -> (r: bool)
        ensures
            r == (self.model().kind matches Kind::Number(d, _) && d.is_signed()),
    {
        match &self.field {
            H2Types::H2Number(n) => n.definition.can_be_i64(),
            _ => false,
        }
    }
}

fn all_fields_static(fs: &Vec<(String, H2Type)>) -> (r: bool)
    ensures
        r == all_static(fields_model(fs@), 0),
    decreases fs, 2nat, 0nat,
{
    proof {
        lemma_fields_rec(fs@);
    }
    let ghost m = fields_model(fs@);
    let mut i: usize = fs.len();
    let mut all = true;
    while i > 0
        invariant
            i <= fs@.len(),
            m == fields_model(fs@),
            all == all_static(m, i as nat),
        decreases i,
    {
        i = i - 1;
        proof {
            assert(decreases_to!(fs => fs@[i as int].1));
        }
        let s = fs[i].1.is_static();
        all = s && all;
    }
    all
}

/// A result over a `Vec`, seen as a result over its sequence.
pub open spec fn seq_of<T>(r: Result<Vec<T>, H2Error>) -> Result<Seq<T>, H2Error> {
    match r {
        Ok(v) => Ok(v@),
        Err(e) => Err(e),
    }
}

/// A scan result over a `Vec` of characters, seen over its sequence.
pub open spec fn scan_of(r: Result<(u64, Vec<char>), H2Error>) -> Result<(u64, Seq<char>), H2Error> {
    match r {
        Ok((end, v)) => Ok((end, v@)),
        Err(e) => Err(e),
    }
}

/// The span of `n` bytes at `start`, padded by `a`.
fn padded(a: Alignment, start: u64, n: u64) -> (r: Result<Range<u64>, H2Error>)
    ensures
        r == padded_span(a, start, n),
        r matches Ok(x) ==> x.start == start && x.end >= start + n,
{
    if n > u64::MAX - start {
        return Err(H2Error::Overflow);
    }
    a.align(start..(start + n))
}

/// One character of a string at `pos`.
fn char_step_at(cm: &H2Type, o: Offset, pos: u64) -> (r: Result<(u64, char), H2Error>)
    ensures
        r == char_step(cm.model(), o, pos),
        r matches Ok((end, _)) ==> end >= pos,
{
    match &cm.field {
        H2Types::Character(c) => match o {
            Offset::Static(_) => Err(H2Error::WrongMode),
            Offset::Dynamic(ctx) => {
                let (w, ch) = decode_at(c.character_type, ctx.at(pos))?;
                let r = padded(cm.alignment, pos, w)?;
                Ok((r.end, ch))
            },
        },
        _ => Err(H2Error::NotACharacterType),
    }
}

/// `n` characters from `pos` on.
fn scan_fixed_at(cm: &H2Type, o: Offset, pos: u64, n: u64) -> (r: Result<(u64, Vec<char>), H2Error>)
    ensures
        scan_of(r) == scan_fixed(cm.model(), o, pos, n as nat, seq![]),
        r matches Ok((end, _)) ==> end >= pos,
{
    let mut acc: Vec<char> = Vec::new();
    let mut cursor = pos;
    let mut i: u64 = 0;
    while i < n
        invariant
            i <= n,
            cursor >= pos,
            scan_fixed(cm.model(), o, pos, n as nat, seq![]) == scan_fixed(
                cm.model(),
                o,
                cursor,
                (n - i) as nat,
                acc@,
            ),
        decreases n - i,
    {
        let (end, ch) = char_step_at(cm, o, cursor)?;
        acc.push(ch);
        cursor = end;
        i = i + 1;
    }
    Ok((cursor, acc))
}

/// Characters from `pos` on up to a null character.
fn scan_nt_at(cm: &H2Type, o: Offset, pos: u64) -> (r: Result<(u64, Vec<char>), H2Error>)
    ensures
        scan_of(r) == scan_nt(cm.model(), o, pos, seq![]),
        r matches Ok((end, _)) ==> end >= pos,
{
    let (bound, len): (bool, u64) = match o {
        Offset::Static(_) => (false, 0),
        Offset::Dynamic(ctx) => (true, ctx.len()),
    };
    let mut acc: Vec<char> = Vec::new();
    let mut cursor = pos;
    loop
        invariant
            cursor >= pos,
            len == data_len(o),
            bound == (o is Dynamic),
            scan_nt(cm.model(), o, pos, seq![]) == scan_nt(cm.model(), o, cursor, acc@),
        decreases data_len(o) - cursor,
    {
        if bound && cursor >= len {
            return Err(H2Error::MissingTerminator);
        }
        let (end, ch) = char_step_at(cm, o, cursor)?;
        if ch == '\0' {
            return Ok((end, acc));
        } else if end >= len {
            return Err(H2Error::MissingTerminator);
        } else if end <= cursor {
            return Err(H2Error::InvalidEncoding);
        }
        acc.push(ch);
        cursor = end;
    }
}

/// The padded span of a length field, and the count it holds.
fn length_field_at(lm: &H2Type, o: Offset) -> (r: Result<(Range<u64>, u64), H2Error>)
    ensures
        r matches Ok((x, n)) ==> length_field(lm.model(), o) == Ok::<(Range<u64>, nat), H2Error>(
            (x, n as nat),
        ),
        r matches Err(e) ==> length_field(lm.model(), o) == Err::<(Range<u64>, nat), H2Error>(e),
        r matches Ok((x, _)) ==> x.start == o.spec_position(),
{
    match &lm.field {
        H2Types::H2Number(num) => {
            if !num.definition.can_be_u64() {
                return Err(H2Error::NotALengthType);
            }
            match o {
                Offset::Static(_) => Err(H2Error::WrongMode),
                Offset::Dynamic(ctx) => {
                    let n = num.definition.read_raw(ctx)?;
                    let x = padded(lm.alignment, ctx.position(), num.definition.size())?;
                    Ok((x, n))
                },
            }
        },
        _ => Err(H2Error::NotALengthType),
    }
}

impl H2Type {
    /// Where the characters of a string type end, and the characters.
    fn string_chars(&self, o: Offset) -> (r: Result<(u64, Vec<char>), H2Error>)
        ensures
            scan_of(r) == string_scan(self.model(), o),
            r matches Ok((end, _)) ==> end >= o.spec_position(),
    {
        let pos = o.position();
        match &self.field {
            H2Types::H2String(s) => scan_fixed_at(&s.character, o, pos, s.length),
            H2Types::NTString(s) => scan_nt_at(&s.character, o, pos),
            H2Types::LPString(s) => {
                let (x, n) = length_field_at(&s.length, o)?;
                scan_fixed_at(&s.character, o, x.end, n)
            },
            _ => Err(H2Error::NotACharacterType),
        }
    }

    /// The size of this type at `o`, without padding.
    pub fn actual_size(&self, o: Offset) -> (r: Result<u64, H2Error>)
        ensures
            r == size_of(self.model(), o),
        decreases self, 0nat, 0nat,
    {
        let pos = o.position();
        match &self.field {
            H2Types::H2Number(n) => Ok(n.definition.size()),
            H2Types::IPv4(_) => Ok(4),
            H2Types::IPv6(_) => Ok(16),
            H2Types::Character(c) => {
                if c.character_type.is_static() {
                    Ok(c.character_type.width())
                } else {
                    match o {
                        Offset::Static(_) => Err(H2Error::WrongMode),
                        Offset::Dynamic(ctx) => {
                            let (w, _) = decode_at(c.character_type, ctx)?;
                            Ok(w)
                        },
                    }
                }
            },
            H2Types::H2Array(a) => {
                let rs = array_ranges(&a.field_type, a.length, o, pos)?;
                if rs.len() == 0 {
                    return Err(H2Error::ZeroLengthArray);
                }
                Ok(rs[rs.len() - 1].end - pos)
            },
            H2Types::H2Struct(st) => {
                proof {
                    lemma_fields_rec(st.fields@);
                }
                let rs = fields_ranges(&st.fields, o, pos)?;
                if rs.len() == 0 {
                    return Err(H2Error::EmptyStruct);
                }
                Ok(rs[rs.len() - 1].end - pos)
            },
            H2Types::H2Enum(en) => {
                proof {
                    lemma_fields_rec(en.variants@);
                }
                widest_variant(&en.variants, o)
            },
            _ => {
                let (end, _) = self.string_chars(o)?;
                Ok(end - pos)
            },
        }
    }

    /// The span of this type at `o`, padded by its own alignment.
    pub fn aligned_range(&self, o: Offset) -> (r: Result<Range<u64>, H2Error>)
        ensures
            r == aligned_of(self.model(), o),
            r matches Ok(x) ==> x.start == o.spec_position() && x.end >= x.start,
        decreases self, 1nat, 0nat,
    {
        let n = self.actual_size(o)?;
        padded(self.alignment, o.position(), n)
    }

    /// The span of this type at `o`, without padding.
    pub fn actual_range(&self, o: Offset) -> (r: Result<Range<u64>, H2Error>)
        ensures
            r == actual_of(self.model(), o),
        decreases self, 1nat, 0nat,
    {
        let n = self.actual_size(o)?;
        padded(Alignment::Unaligned, o.position(), n)
    }

    /// The size of this type at `o`, with its padding.
    pub fn aligned_size(&self, o: Offset) -> (r: Result<u64, H2Error>)
        ensures
            r matches Ok(n) ==> (aligned_of(self.model(), o) matches Ok(x) && n == x.end - x.start),
            r matches Err(e) ==> aligned_of(self.model(), o) == Err::<Range<u64>, H2Error>(e),
        decreases self, 1nat, 0nat,
    {
        let x = self.aligned_range(o)?;
        Ok(x.end - x.start)
    }
}

/// The padded spans of `n` copies of `e`, in a row from `start`.
fn array_ranges(e: &H2Type, n: u64, o: Offset, start: u64) -> (r: Result<Vec<Range<u64>>, H2Error>)
    ensures
        seq_of(r) == array_layout(e.model(), n as nat, o, start, seq![]),
        r matches Ok(rs) ==> rs@.len() > 0 ==> rs@.last().end >= start,
    decreases e, 2nat, 0nat,
{
    let mut acc: Vec<Range<u64>> = Vec::new();
    let mut cursor = start;
    let mut i: u64 = 0;
    while i < n
        invariant
            i <= n,
            cursor >= start,
            acc@.len() > 0 ==> acc@.last().end == cursor,
            array_layout(e.model(), n as nat, o, start, seq![]) == array_layout(
                e.model(),
                (n - i) as nat,
                o,
                cursor,
                acc@,
            ),
        decreases n - i,
    {
        let x = e.aligned_range(o.at(cursor))?;
        cursor = x.end;
        acc.push(x);
        i = i + 1;
    }
    Ok(acc)
}

/// The padded spans of the fields of `fs`, in a row from `start`.
fn fields_ranges(fs: &Vec<(String, H2Type)>, o: Offset, start: u64) -> (r: Result<
    Vec<Range<u64>>,
    H2Error,
>)
    ensures
        seq_of(r) == fields_layout(fields_model(fs@), 0, o, start, seq![]),
        r matches Ok(rs) ==> rs@.len() > 0 ==> rs@.last().end >= start,
    decreases fs, 2nat, 0nat,
{
    let ghost m = fields_model(fs@);
    let mut acc: Vec<Range<u64>> = Vec::new();
    let mut cursor = start;
    let mut i: usize = 0;
    while i < fs.len()
        invariant
            i <= fs@.len(),
            m == fields_model(fs@),
            cursor >= start,
            acc@.len() > 0 ==> acc@.last().end == cursor,
            fields_layout(m, 0, o, start, seq![]) == fields_layout(m, i as nat, o, cursor, acc@),
        decreases fs@.len() - i,
    {
        proof {
            assert(decreases_to!(fs => fs@[i as int].1));
        }
        let x = fs[i].1.aligned_range(o.at(cursor))?;
        cursor = x.end;
        acc.push(x);
        i = i + 1;
    }
    Ok(acc)
}

/// The padded spans of the variants of `fs`, all at `o`.
fn variants_ranges(fs: &Vec<(String, H2Type)>, o: Offset) -> (r: Result<Vec<Range<u64>>, H2Error>)
    ensures
        seq_of(r) == variants_layout(fields_model(fs@), 0, o, seq![]),
    decreases fs, 2nat, 0nat,
{
    let ghost m = fields_model(fs@);
    let mut acc: Vec<Range<u64>> = Vec::new();
    let mut i: usize = 0;
    while i < fs.len()
        invariant
            i <= fs@.len(),
            m == fields_model(fs@),
            variants_layout(m, 0, o, seq![]) == variants_layout(m, i as nat, o, acc@),
        decreases fs@.len() - i,
    {
        proof {
            assert(decreases_to!(fs => fs@[i as int].1));
        }
        let x = fs[i].1.aligned_range(o)?;
        acc.push(x);
        i = i + 1;
    }
    Ok(acc)
}

/// The largest padded size among the variants of `fs` at `o`.
fn widest_variant(fs: &Vec<(String, H2Type)>, o: Offset) -> (r: Result<u64, H2Error>)
    ensures
        r == enum_width(fields_model(fs@), 0, o, 0),
    decreases fs, 2nat, 0nat,
{
    let ghost m = fields_model(fs@);
    let mut best: u64 = 0;
    let mut i: usize = 0;
    while i < fs.len()
        invariant
            i <= fs@.len(),
            m == fields_model(fs@),
            enum_width(m, 0, o, 0) == enum_width(m, i as nat, o, best),
        decreases fs@.len() - i,
    {
        proof {
            assert(decreases_to!(fs => fs@[i as int].1));
        }
        let x = fs[i].1.aligned_range(o)?;
        let n = x.end - x.start;
        if n > best {
            best = n;
        }
        i = i + 1;
    }
    Ok(best)
}

/// A result over a `Vec` of strings, seen over their characters.
pub open spec fn texts_of(r: Result<Vec<String>, H2Error>) -> Result<Seq<Seq<char>>, H2Error> {
    match r {
        Ok(v) => Ok(texts(v@)),
        Err(e) => Err(e),
    }
}

/// The characters of each string.
pub open spec fn texts(v: Seq<String>) -> Seq<Seq<char>> {
    Seq::new(v.len(), |i: int| v[i]@)
}

proof fn lemma_join_step(parts: Seq<Seq<char>>, sep: Seq<char>, i: int)
    requires
        0 <= i < parts.len(),
    ensures
        join(parts.take(i + 1), sep) == if i == 0 {
            parts[0]
        } else {
            join(parts.take(i), sep) + sep + parts[i]
        },
{
    if i > 0 {
        assert(parts.take(i + 1).drop_last() =~= parts.take(i));
    }
}

/// `vs` joined with `sep` between each two.
fn join_strings(vs: &Vec<String>, sep: &str) -> (r: String)
    ensures
        r@ == join(texts(vs@), sep@),
{
    let ghost parts = texts(vs@);
    let mut s = String::new();
    let mut i: usize = 0;
    while i < vs.len()
        invariant
            i <= vs@.len(),
            parts == texts(vs@),
            s@ == join(parts.take(i as int), sep@),
        decreases vs@.len() - i,
    {
        proof {
            lemma_join_step(parts, sep@, i as int);
        }
        if i > 0 {
            push_str(&mut s, sep);
        }
        push_str(&mut s, vs[i].as_str());
        i = i + 1;
    }
    assert(parts.take(vs@.len() as int) =~= parts);
    s
}

/// `vs` joined with `sep`, between `open` and `close`.
fn wrap(open: &str, vs: &Vec<String>, sep: &str, close: &str) -> (r: String)
    ensures
        r@ == open@ + join(texts(vs@), sep@) + close@,
{
    let mut s = String::new();
    push_str(&mut s, open);
    let body = join_strings(vs, sep);
    push_str(&mut s, body.as_str());
    push_str(&mut s, close);
    s
}

/// The characters of `v` as a string.
fn chars_string(v: &Vec<char>) -> (r: String)
    ensures
        r@ == v@,
{
    let mut s = String::new();
    let mut i: usize = 0;
    while i < v.len()
        invariant
            i <= v@.len(),
            s@ == v@.take(i as int),
        decreases v@.len() - i,
    {
        push_char(&mut s, v[i]);
        i = i + 1;
        assert(s@ =~= v@.take(i as int));
    }
    assert(v@.take(v@.len() as int) =~= v@);
    s
}

/// The bytes of `width` at `pos`, most significant first.
fn ordered_bytes(ctx: Context, pos: u64, width: u64, e: Endian) -> (r: Result<Vec<u8>, H2Error>)
    requires
        width <= 16,
    ensures
        ctx.has_bytes_at(pos as int, width as int) ==> (r matches Ok(v) && v@ == big_first(
            ctx.bytes_at(pos as int, width as int),
            e,
        )),
        !ctx.has_bytes_at(pos as int, width as int) ==> r == Err::<Vec<u8>, H2Error>(
            H2Error::OutOfBounds,
        ),
{
    if pos > ctx.len() || width > ctx.len() - pos {
        return Err(H2Error::OutOfBounds);
    }
    let ghost t = big_first(ctx.bytes_at(pos as int, width as int), e);
    let mut v: Vec<u8> = Vec::new();
    let mut i: u64 = 0;
    while i < width
        invariant
            i <= width,
            pos + width <= ctx.bytes().len(),
            t == big_first(ctx.bytes_at(pos as int, width as int), e),
            v@ == t.take(i as int),
        decreases width - i,
    {
        let index = match e {
            Endian::Big => pos + i,
            Endian::Little => pos + (width - 1 - i),
        };
        let b = ctx.byte_at(index)?;
        v.push(b);
        i = i + 1;
        assert(v@ =~= t.take(i as int));
    }
    assert(t.take(width as int) =~= t);
    Ok(v)
}

/// Writes an IPv4 address from its four bytes, most significant first.
fn ipv4_string(b: &Vec<u8>) -> (r: String)
    requires
        b@.len() == 4,
    ensures
        r@ == ipv4_text(b@),
{
    let mut s = String::new();
    let mut i: usize = 0;
    let ghost parts = Seq::new(4, |k: int| digits(b@[k] as nat, 10));
    while i < 4
        invariant
            i <= 4,
            b@.len() == 4,
            parts == Seq::new(4, |k: int| digits(b@[k] as nat, 10)),
            s@ == join(parts.take(i as int), seq!['.']),
        decreases 4 - i,
    {
        proof {
            lemma_join_step(parts, seq!['.'], i as int);
        }
        if i > 0 {
            push_char(&mut s, '.');
        }
        push_digits(&mut s, b[i] as u64, 10);
        i = i + 1;
    }
    assert(parts.take(4) =~= parts);
    s
}

/// Writes groups `lo..hi` of an IPv6 address in hex, separated by colons.
fn push_hex_groups(s: &mut String, g: &Vec<u64>, lo: usize, hi: usize)
    requires
        lo <= hi <= g@.len(),
        forall|k: int| 0 <= k < g@.len() ==> g@[k] <= 0xffff,
    ensures
        final(s)@ == old(s)@ + hex_groups(Seq::new(g@.len(), |k: int| g@[k] as nat).subrange(
            lo as int,
            hi as int,
        )),
{
    let ghost gs = Seq::new(g@.len(), |k: int| g@[k] as nat).subrange(lo as int, hi as int);
    let ghost parts = Seq::new(gs.len(), |k: int| digits(gs[k], 16));
    let ghost start = s@;
    let mut i: usize = lo;
    while i < hi
        invariant
            lo <= i <= hi <= g@.len(),
            gs == Seq::new(g@.len(), |k: int| g@[k] as nat).subrange(lo as int, hi as int),
            parts == Seq::new(gs.len(), |k: int| digits(gs[k], 16)),
            s@ == start + join(parts.take(i - lo), seq![':']),
        decreases hi - i,
    {
        proof {
            lemma_join_step(parts, seq![':'], (i - lo) as int);
        }
        if i > lo {
            push_char(s, ':');
        }
        push_digits(s, g[i], 16);
        i = i + 1;
        assert(s@ =~= start + join(parts.take(i - lo), seq![':']));
    }
    assert(parts.take(hi - lo) =~= parts);
}

/// Writes an IPv6 address from its sixteen bytes, most significant first.
fn ipv6_string(b: &Vec<u8>) -> (r: String)
    requires
        b@.len() == 16,
    ensures
        r@ == ipv6_text(b@),
{
    let ghost gm = ipv6_groups(b@);
    let mut g: Vec<u64> = Vec::new();
    let mut i: usize = 0;
    while i < 8
        invariant
            i <= 8,
            b@.len() == 16,
            gm == ipv6_groups(b@),
            g@.len() == i,
            forall|k: int| 0 <= k < i ==> g@[k] == gm[k] && g@[k] <= 0xffff,
        decreases 8 - i,
    {
        g.push(b[2 * i] as u64 * 256 + b[2 * i + 1] as u64);
        i = i + 1;
    }
    assert(Seq::new(g@.len(), |k: int| g@[k] as nat) =~= gm);
    // The first longest run of zero groups, found from the back.
    let mut run: u64 = 0;
    let mut best_start: usize = 8;
    let mut best_len: u64 = 0;
    let mut j: usize = 8;
    while j > 0
        invariant
            j <= 8,
            g@.len() == 8,
            gm == ipv6_groups(b@),
            forall|k: int| 0 <= k < 8 ==> g@[k] == gm[k] && g@[k] <= 0xffff,
            run == zero_run(gm, j as nat),
            (best_start as nat, best_len as nat) == longest_zero_run(gm, j as nat),
            run <= 8 - j,
        decreases j,
    {
        j = j - 1;
        if g[j] == 0 {
            run = run + 1;
        } else {
            run = 0;
        }
        if run >= best_len {
            best_start = j;
            best_len = run;
        }
    }
    proof {
        lemma_longest_run_fits(gm, 0);
        assert forall|k: int| 0 <= k < g@.len() implies g@[k] <= 0xffff by {
            assert(g@[k] == gm[k] && g@[k] <= 0xffff);
        }
    }
    let mut s = String::new();
    if best_len >= 2 {
        push_hex_groups(&mut s, &g, 0, best_start);
        push_char(&mut s, ':');
        push_char(&mut s, ':');
        push_hex_groups(&mut s, &g, best_start + best_len as usize, 8);
        assert(s@ =~= ipv6_text(b@));
    } else {
        push_hex_groups(&mut s, &g, 0, 8);
        assert(Seq::new(g@.len(), |k: int| g@[k] as nat).subrange(0, 8) =~= gm);
    }
    s
}

proof fn lemma_zero_run_fits(g: Seq<nat>, i: nat)
    requires
        i <= g.len(),
    ensures
        i + zero_run(g, i) <= g.len(),
    decreases g.len() - i,
{
    if i < g.len() && g[i as int] == 0 {
        lemma_zero_run_fits(g, i + 1);
    }
}

proof fn lemma_longest_run_fits(g: Seq<nat>, i: nat)
    requires
        i <= g.len(),
    ensures
        longest_zero_run(g, i).0 + longest_zero_run(g, i).1 <= g.len(),
    decreases g.len() - i,
{
    if i < g.len() {
        lemma_longest_run_fits(g, i + 1);
        lemma_zero_run_fits(g, i);
    }
}

impl H2Type {
    /// The text of a leaf at `o`.
    fn leaf_string(&self, o: Offset) -> (r: Result<String, H2Error>)
        requires
            is_leaf(self.model().kind),
        ensures
            text_of(r) == leaf_value(self.model().kind, o),
    {
        match o {
            Offset::Static(_) => {
                let mut s = String::new();
                match &self.field {
                    H2Types::H2Number(_) => push_str(&mut s, "Number"),
                    H2Types::Character(c) => {
                        s = c.character_type.name_string();
                    },
                    H2Types::IPv4(_) => push_str(&mut s, "IPv4 Address"),
                    _ => push_str(&mut s, "IPv6 Address"),
                }
                Ok(s)
            },
            Offset::Dynamic(ctx) => match &self.field {
                H2Types::H2Number(n) => n.definition.render(n.display, ctx),
                H2Types::Character(c) => {
                    let (_, ch) = decode_at(c.character_type, ctx)?;
                    Ok(char_string(ch))
                },
                H2Types::IPv4(a) => {
                    let b = ordered_bytes(ctx, ctx.position(), 4, a.endian)?;
                    Ok(ipv4_string(&b))
                },
                H2Types::IPv6(a) => {
                    let b = ordered_bytes(ctx, ctx.position(), 16, a.endian)?;
                    Ok(ipv6_string(&b))
                },
                _ => Err(H2Error::WrongMode),
            },
        }
    }

    /// The text of this type at `o`: its name in the abstract, its decoded
    /// value when bound to data.
    pub fn to_string(&self, o: Offset) -> (r: Result<String, H2Error>)
        ensures
            text_of(r) == value_of(self.model(), o),
        decreases self, 3nat, 0nat,
    {
        let pos = o.position();
        match &self.field {
            H2Types::H2Array(a) => {
                let rs = array_ranges(&a.field_type, a.length, o, pos)?;
                let vs = element_strings(&a.field_type, &rs, o)?;
                let s = wrap("[ ", &vs, ", ", " ]");
                proof {
                    reveal_strlit("[ ");
                    assert("[ "@ =~= seq!['[', ' ']);
                    reveal_strlit(", ");
                    assert(", "@ =~= seq![',', ' ']);
                    reveal_strlit(" ]");
                    assert(" ]"@ =~= seq![' ', ']']);
                    assert(s@ =~= value_of(self.model(), o)->Ok_0);
                }
                Ok(s)
            },
            H2Types::H2Struct(st) => {
                proof {
                    lemma_fields_rec(st.fields@);
                }
                fields_string(&st.fields, o, false, Ghost(self.model()))
            },
            H2Types::H2Enum(en) => {
                proof {
                    lemma_fields_rec(en.variants@);
                }
                fields_string(&en.variants, o, true, Ghost(self.model()))
            },
            H2Types::H2Number(_) | H2Types::Character(_) | H2Types::IPv4(_) | H2Types::IPv6(_) => {
                self.leaf_string(o)
            },
            _ => {
                let (_, chars) = self.string_chars(o)?;
                Ok(chars_string(&chars))
            },
        }
    }
}

/// The text of a struct or enum `t` whose fields are `fs`.
fn fields_string(fs: &Vec<(String, H2Type)>, o: Offset, named: bool, t: Ghost<TypeModel>) -> (r:
    Result<String, H2Error>)
    requires
        !named ==> t@.kind == Kind::Struct(fields_model(fs@)),
        named ==> t@.kind == Kind::Enum(fields_model(fs@)),
    ensures
        text_of(r) == value_of(t@, o),
    decreases fs, 5nat, 0nat,
{
    if !named {
        let rs = fields_ranges(fs, o, o.position())?;
        let vs = field_strings(fs, &rs, o, false)?;
        let s = wrap("[", &vs, ", ", "]");
        proof {
            reveal_strlit("[");
                    assert("["@ =~= seq!['[']);
            reveal_strlit(", ");
                    assert(", "@ =~= seq![',', ' ']);
            reveal_strlit("]");
                    assert("]"@ =~= seq![']']);
            assert(s@ =~= value_of(t@, o)->Ok_0);
        }
        Ok(s)
    } else {
        let rs = variants_ranges(fs, o)?;
        let vs = field_strings(fs, &rs, o, true)?;
        let s = wrap("{ ", &vs, " | ", " }");
        proof {
            reveal_strlit("{ ");
                    assert("{ "@ =~= seq!['{', ' ']);
            reveal_strlit(" | ");
                    assert(" | "@ =~= seq![' ', '|', ' ']);
            reveal_strlit(" }");
                    assert(" }"@ =~= seq![' ', '}']);
            assert(s@ =~= value_of(t@, o)->Ok_0);
        }
        Ok(s)
    }
}

/// The texts of copies of `e` at the starts of `rs`.
fn element_strings(e: &H2Type, rs: &Vec<Range<u64>>, o: Offset) -> (r: Result<Vec<String>, H2Error>)
    ensures
        texts_of(r) == element_values(e.model(), rs@, o, 0, seq![]),
    decreases e, 4nat, 0nat,
{
    let mut acc: Vec<String> = Vec::new();
    assert(texts(acc@) =~= seq![]);
    let mut i: usize = 0;
    while i < rs.len()
        invariant
            i <= rs@.len(),
            element_values(e.model(), rs@, o, 0, seq![]) == element_values(
                e.model(),
                rs@,
                o,
                i as nat,
                texts(acc@),
            ),
        decreases rs@.len() - i,
    {
        let v = e.to_string(o.at(rs[i].start))?;
        let ghost before = texts(acc@);
        acc.push(v);
        assert(texts(acc@) =~= before.push(v@));
        i = i + 1;
    }
    Ok(acc)
}

/// The texts of the fields of `fs` at the starts of `rs`, each preceded by
/// its name where `named`.
fn field_strings(fs: &Vec<(String, H2Type)>, rs: &Vec<Range<u64>>, o: Offset, named: bool) -> (r:
    Result<Vec<String>, H2Error>)
    ensures
        texts_of(r) == field_values(fields_model(fs@), rs@, o, 0, seq![], named),
    decreases fs, 4nat, 0nat,
{
    let ghost m = fields_model(fs@);
    let mut acc: Vec<String> = Vec::new();
    assert(texts(acc@) =~= seq![]);
    let mut i: usize = 0;
    while i < fs.len() && i < rs.len()
        invariant
            i <= fs@.len(),
            m == fields_model(fs@),
            field_values(m, rs@, o, 0, seq![], named) == field_values(
                m,
                rs@,
                o,
                i as nat,
                texts(acc@),
                named,
            ),
        decreases fs@.len() - i,
    {
        proof {
            assert(decreases_to!(fs => fs@[i as int].1));
        }
        let v = fs[i].1.to_string(o.at(rs[i].start))?;
        let mut item = String::new();
        if named {
            push_str(&mut item, fs[i].0.as_str());
            push_str(&mut item, ": ");
            proof {
                reveal_strlit(": ");
                assert(item@ =~= m[i as int].0 + seq![':', ' ']);
            }
        }
        push_str(&mut item, v.as_str());
        let ghost before = texts(acc@);
        acc.push(item);
        assert(texts(acc@) =~= before.push(
            if named { m[i as int].0 + seq![':', ' '] + v@ } else { v@ },
        ));
        i = i + 1;
    }
    Ok(acc)
}

impl H2Type {
    /// Whether this type is a leaf: a number, character or address.
    fn is_leaf_type(&self) -> (r: bool)
        ensures
            r == is_leaf(self.model().kind),
    {
        match &self.field {
            H2Types::H2Number(_) | H2Types::Character(_) | H2Types::IPv4(_) | H2Types::IPv6(_) => true,
            _ => false,
        }
    }

    /// Binds this type to `o` under the field name `name`: its spans, its
    /// text, and its children resolved each at the start of its own span.
    pub fn resolve(&self, o: Offset, name: Option<String>) -> (r: Result<ResolvedType, H2Error>)
        ensures
            resolved_of(r) == resolve_of(self.model(), o, name_model(name)),
            r matches Ok(x) ==> x.related@.len() == 0,
        decreases self, 6nat, 0nat,
    {
        let actual_range = self.actual_range(o)?;
        let aligned_range = self.aligned_range(o)?;
        let value = self.to_string(o)?;
        let children = self.resolve_children(o)?;
        proof {
            lemma_kids_rec(children@);
        }
        Ok(
            ResolvedType {
                actual_range,
                aligned_range,
                field_name: name,
                value,
                children,
                related: Vec::new(),
            },
        )
    }

    /// The children of this type resolved at `o`.
    #[verifier::rlimit(60)]
    fn resolve_children(&self, o: Offset) -> (r: Result<Vec<ResolvedType>, H2Error>)
        ensures
            resolved_all(r) == children_of(self.model(), o),
        decreases self, 5nat, 0nat,
    {
        let pos = o.position();
        match &self.field {
            H2Types::H2Array(a) => {
                let rs = array_ranges(&a.field_type, a.length, o, pos)?;
                resolve_elements_at(&a.field_type, &rs, o)
            },
            H2Types::H2Struct(st) => {
                proof {
                    lemma_fields_rec(st.fields@);
                }
                let rs = fields_ranges(&st.fields, o, pos)?;
                resolve_fields_at(&st.fields, &rs, o)
            },
            H2Types::H2Enum(en) => {
                proof {
                    lemma_fields_rec(en.variants@);
                }
                let rs = variants_ranges(&en.variants, o)?;
                resolve_fields_at(&en.variants, &rs, o)
            },
            H2Types::H2Number(_) | H2Types::Character(_) | H2Types::IPv4(_) | H2Types::IPv6(_) => {
                let v: Vec<ResolvedType> = Vec::new();
                assert(kids_model(v@) =~= seq![]);
                Ok(v)
            },
            _ => string_children_at(self, o),
        }
    }
}

/// Copies of `e` resolved at the starts of `rs`.
fn resolve_elements_at(e: &H2Type, rs: &Vec<Range<u64>>, o: Offset) -> (r: Result<
    Vec<ResolvedType>,
    H2Error,
>)
    ensures
        resolved_all(r) == resolve_elements(e.model(), rs@, o, 0, seq![]),
    decreases e, 7nat, 0nat,
{
    let mut acc: Vec<ResolvedType> = Vec::new();
    assert(kids_model(acc@) =~= seq![]);
    let mut i: usize = 0;
    while i < rs.len()
        invariant
            i <= rs@.len(),
            resolve_elements(e.model(), rs@, o, 0, seq![]) == resolve_elements(
                e.model(),
                rs@,
                o,
                i as nat,
                kids_model(acc@),
            ),
        decreases rs@.len() - i,
    {
        let x = e.resolve(o.at(rs[i].start), None)?;
        let ghost before = kids_model(acc@);
        acc.push(x);
        assert(kids_model(acc@) =~= before.push(x.model()));
        i = i + 1;
    }
    Ok(acc)
}

/// The fields of `fs` resolved under their names at the starts of `rs`.
fn resolve_fields_at(fs: &Vec<(String, H2Type)>, rs: &Vec<Range<u64>>, o: Offset) -> (r: Result<
    Vec<ResolvedType>,
    H2Error,
>)
    ensures
        resolved_all(r) == resolve_fields(fields_model(fs@), rs@, o, 0, seq![]),
    decreases fs, 7nat, 0nat,
{
    let ghost m = fields_model(fs@);
    let mut acc: Vec<ResolvedType> = Vec::new();
    assert(kids_model(acc@) =~= seq![]);
    let mut i: usize = 0;
    while i < fs.len() && i < rs.len()
        invariant
            i <= fs@.len(),
            m == fields_model(fs@),
            resolve_fields(m, rs@, o, 0, seq![]) == resolve_fields(
                m,
                rs@,
                o,
                i as nat,
                kids_model(acc@),
            ),
        decreases fs@.len() - i,
    {
        proof {
            assert(decreases_to!(fs => fs@[i as int].1));
        }
        let x = fs[i].1.resolve(o.at(rs[i].start), Some(fs[i].0.clone()))?;
        let ghost before = kids_model(acc@);
        acc.push(x);
        assert(kids_model(acc@) =~= before.push(x.model()));
        i = i + 1;
    }
    Ok(acc)
}

/// A leaf resolved at `o` under `name`.
fn resolve_leaf_at(t: &H2Type, o: Offset, name: Option<String>) -> (r: Result<ResolvedType, H2Error>)
    ensures
        resolved_of(r) == resolve_leaf(t.model(), o, name_model(name)),
{
    if !t.is_leaf_type() {
        return Err(H2Error::NotACharacterType);
    }
    let actual_range = t.actual_range(o)?;
    let aligned_range = t.aligned_range(o)?;
    let value = t.leaf_string(o)?;
    let children: Vec<ResolvedType> = Vec::new();
    assert(crate::resolved::kids_rec(children@) =~= seq![]);
    Ok(
        ResolvedType {
            actual_range,
            aligned_range,
            field_name: name,
            value,
            children,
            related: Vec::new(),
        },
    )
}

/// Leaves of type `t` resolved at the starts of `rs`.
fn resolve_leaves_at(t: &H2Type, rs: &Vec<Range<u64>>, o: Offset) -> (r: Result<
    Vec<ResolvedType>,
    H2Error,
>)
    ensures
        resolved_all(r) == resolve_leaves(t.model(), rs@, o, 0, seq![]),
{
    let mut acc: Vec<ResolvedType> = Vec::new();
    assert(kids_model(acc@) =~= seq![]);
    let mut i: usize = 0;
    while i < rs.len()
        invariant
            i <= rs@.len(),
            resolve_leaves(t.model(), rs@, o, 0, seq![]) == resolve_leaves(
                t.model(),
                rs@,
                o,
                i as nat,
                kids_model(acc@),
            ),
        decreases rs@.len() - i,
    {
        let x = resolve_leaf_at(t, o.at(rs[i].start), None)?;
        let ghost before = kids_model(acc@);
        acc.push(x);
        assert(kids_model(acc@) =~= before.push(x.model()));
        i = i + 1;
    }
    Ok(acc)
}

/// The resolved array of `n` characters of type `cm` from `pos`.
fn char_array_at(cm: &H2Type, n: u64, o: Offset, pos: u64) -> (r: Result<ResolvedType, H2Error>)
    ensures
        resolved_of(r) == char_array(cm.model(), n as nat, o, pos),
        r matches Ok(x) ==> x.aligned_range.end >= pos,
{
    let rs = array_ranges(cm, n, o, pos)?;
    if rs.len() == 0 {
        return Err(H2Error::ZeroLengthArray);
    }
    let end = rs[rs.len() - 1].end;
    let kids = resolve_leaves_at(cm, &rs, o)?;
    let mut vs: Vec<String> = Vec::new();
    let mut i: usize = 0;
    while i < kids.len()
        invariant
            i <= kids@.len(),
            vs@.len() == i,
            forall|k: int| 0 <= k < i ==> #[trigger] vs@[k]@ == kids@[k].value@,
        decreases kids@.len() - i,
    {
        vs.push(kids[i].value.clone());
        i = i + 1;
    }
    let value = wrap("[ ", &vs, ", ", " ]");
    proof {
        reveal_strlit("[ ");
        assert("[ "@ =~= seq!['[', ' ']);
        reveal_strlit(", ");
        assert(", "@ =~= seq![',', ' ']);
        reveal_strlit(" ]");
        assert(" ]"@ =~= seq![' ', ']']);
        assert(texts(vs@) =~= values(kids_model(kids@)));
        lemma_kids_rec(kids@);
        assert(value@ =~= array_text(values(kids_model(kids@))));
    }
    Ok(
        ResolvedType {
            actual_range: pos..end,
            aligned_range: pos..end,
            field_name: None,
            value,
            children: kids,
            related: Vec::new(),
        },
    )
}

/// The resolved children of a string type.
fn string_children_at(t: &H2Type, o: Offset) -> (r: Result<Vec<ResolvedType>, H2Error>)
    ensures
        resolved_all(r) == string_children(t.model(), o),
{
    let (_, chars) = t.string_chars(o)?;
    match &t.field {
        H2Types::H2String(s) => fixed_children(&s.character, s.length, o, Ghost(t.model())),
        H2Types::NTString(s) => nt_children(&s.character, chars.len() as u64, o, Ghost(t.model())),
        H2Types::LPString(s) => lp_children(&s.length, &s.character, o, Ghost(t.model())),
        _ => {
            let out: Vec<ResolvedType> = Vec::new();
            assert(kids_model(out@) =~= seq![]);
            Ok(out)
        },
    }
}

fn fixed_children(cm: &H2Type, n: u64, o: Offset, t: Ghost<TypeModel>) -> (r: Result<
    Vec<ResolvedType>,
    H2Error,
>)
    requires
        t@.kind == Kind::FixedString(n as nat, Box::new(cm.model())),
        string_scan(t@, o) is Ok,
    ensures
        resolved_all(r) == string_children(t@, o),
{
    let mut out: Vec<ResolvedType> = Vec::new();
    let a = char_array_at(cm, n, o, o.position())?;
    out.push(a);
    assert(kids_model(out@) =~= string_children(t@, o)->Ok_0);
    Ok(out)
}

fn nt_children(cm: &H2Type, n: u64, o: Offset, t: Ghost<TypeModel>) -> (r: Result<
    Vec<ResolvedType>,
    H2Error,
>)
    requires
        t@.kind == Kind::NullTerminated(Box::new(cm.model())),
        string_scan(t@, o) matches Ok((_, chars)) && chars.len() == n,
    ensures
        resolved_all(r) == string_children(t@, o),
{
    let pos = o.position();
    let mut out: Vec<ResolvedType> = Vec::new();
    let mut term_start = pos;
    if n > 0 {
        let a = char_array_at(cm, n, o, pos)?;
        term_start = a.aligned_range.end;
        out.push(a);
    }
    let mut name = String::new();
    push_str(&mut name, "terminator");
    let term = resolve_leaf_at(cm, o.at(term_start), Some(name))?;
    let ghost before = kids_model(out@);
    out.push(term);
    proof {
        reveal_strlit("terminator");
        assert(kids_model(out@) =~= before.push(term.model()));
        assert(kids_model(out@) =~= string_children(t@, o)->Ok_0);
    }
    Ok(out)
}

#[verifier::rlimit(80)]
fn lp_children(lm: &H2Type, cm: &H2Type, o: Offset, t: Ghost<TypeModel>) -> (r: Result<
    Vec<ResolvedType>,
    H2Error,
>)
    requires
        t@.kind == Kind::LengthPrefixed(Box::new(lm.model()), Box::new(cm.model())),
        string_scan(t@, o) is Ok,
    ensures
        resolved_all(r) == string_children(t@, o),
{
    let (x, n) = length_field_at(lm, o)?;
    let mut out: Vec<ResolvedType> = Vec::new();
    let mut name = String::new();
    push_str(&mut name, "size");
    let size = resolve_leaf_at(lm, o, Some(name))?;
    out.push(size);
    if n > 0 {
        let a = char_array_at(cm, n, o, x.end)?;
        out.push(a);
    }
    proof {
        reveal_strlit("size");
        assert(kids_model(out@) =~= string_children(t@, o)->Ok_0);
    }
    Ok(out)
}

/// Whether a construction failed with `e`.
pub open spec fn fails_with(r: Result<H2Type, H2Error>, e: H2Error) -> bool {
    r matches Err(x) && x == e
}

/// Whether a construction succeeded with a type value of model `m`.
pub open spec fn builds(r: Result<H2Type, H2Error>, m: TypeModel) -> bool {
    r matches Ok(t) && t.model() == m
}

/// The model of a type of the given kind and padding.
pub open spec fn typed(kind: Kind, alignment: Alignment) -> TypeModel {
    TypeModel { kind, alignment }
}

impl H2Number {
    /// A fixed-width integer, padded by `alignment`.
    pub fn new_aligned(alignment: Alignment, definition: SizedDefinition, display: SizedDisplay) -> (r:
        H2Type)
        ensures
            r.model() == typed(Kind::Number(definition, display), alignment),
    {
        H2Type::new(alignment, H2Types::H2Number(H2Number { definition, display }))
    }

    /// A fixed-width integer with no padding.
    pub fn new(definition: SizedDefinition, display: SizedDisplay) -> (r: H2Type)
        ensures
            r.model() == typed(Kind::Number(definition, display), Alignment::Unaligned),
    {
        Self::new_aligned(Alignment::Unaligned, definition, display)
    }
}

impl Character {
    /// A character of the given encoding, padded by `alignment`.
    pub fn new_aligned(alignment: Alignment, character_type: CharacterType) -> (r: H2Type)
        ensures
            r.model() == typed(Kind::Character(character_type), alignment),
    {
        H2Type::new(alignment, H2Types::Character(Character { character_type }))
    }

    /// A character of the given encoding with no padding.
    pub fn new(character_type: CharacterType) -> (r: H2Type)
        ensures
            r.model() == typed(Kind::Character(character_type), Alignment::Unaligned),
    {
        Self::new_aligned(Alignment::Unaligned, character_type)
    }
}

impl IPv4 {
    /// An IPv4 address in the given byte order, padded by `alignment`.
    pub fn new_aligned(alignment: Alignment, endian: Endian) -> (r: H2Type)
        ensures
            r.model() == typed(Kind::IPv4(endian), alignment),
    {
        H2Type::new(alignment, H2Types::IPv4(IPv4 { endian }))
    }

    pub fn new(endian: Endian) -> (r: H2Type)
        ensures
            r.model() == typed(Kind::IPv4(endian), Alignment::Unaligned),
    {
        Self::new_aligned(Alignment::Unaligned, endian)
    }
}

impl IPv6 {
    /// An IPv6 address in the given byte order, padded by `alignment`.
    pub fn new_aligned(alignment: Alignment, endian: Endian) -> (r: H2Type)
        ensures
            r.model() == typed(Kind::IPv6(endian), alignment),
    {
        H2Type::new(alignment, H2Types::IPv6(IPv6 { endian }))
    }

    pub fn new(endian: Endian) -> (r: H2Type)
        ensures
            r.model() == typed(Kind::IPv6(endian), Alignment::Unaligned),
    {
        Self::new_aligned(Alignment::Unaligned, endian)
    }
}

impl H2Array {
    /// `length` copies of `field_type` in a row, padded by `alignment`;
    /// fails on a length of zero.
    pub fn new_aligned(alignment: Alignment, length: u64, field_type: H2Type) -> (r: Result<
        H2Type,
        H2Error,
    >)
        ensures
            length == 0 ==> fails_with(r, H2Error::ZeroLengthArray),
            length != 0 ==> builds(r, typed(
                Kind::Array(Box::new(field_type.model()), length as nat),
                alignment,
            )),
    {
        if length == 0 {
            return Err(H2Error::ZeroLengthArray);
        }
        Ok(H2Type::new(alignment, H2Types::H2Array(H2Array { field_type: Box::new(field_type), length })))
    }

    pub fn new(length: u64, field_type: H2Type) -> (r: Result<H2Type, H2Error>)
        ensures
            length == 0 ==> fails_with(r, H2Error::ZeroLengthArray),
            length != 0 ==> builds(r, typed(
                Kind::Array(Box::new(field_type.model()), length as nat),
                Alignment::Unaligned,
            )),
    {
        Self::new_aligned(Alignment::Unaligned, length, field_type)
    }
}

impl H2Struct {
    /// Named fields in a row, padded by `alignment`; fails with no fields.
    pub fn new_aligned(alignment: Alignment, fields: Vec<(String, H2Type)>) -> (r: Result<
        H2Type,
        H2Error,
    >)
        ensures
            fields@.len() == 0 ==> fails_with(r, H2Error::EmptyStruct),
            fields@.len() != 0 ==> builds(r, typed(
                Kind::Struct(fields_model(fields@)),
                alignment,
            )),
    {
        if fields.len() == 0 {
            return Err(H2Error::EmptyStruct);
        }
        proof {
            lemma_fields_rec(fields@);
        }
        Ok(H2Type::new(alignment, H2Types::H2Struct(H2Struct { fields })))
    }

    pub fn new(fields: Vec<(String, H2Type)>) -> (r: Result<H2Type, H2Error>)
        ensures
            fields@.len() == 0 ==> fails_with(r, H2Error::EmptyStruct),
            fields@.len() != 0 ==> builds(r, typed(
                Kind::Struct(fields_model(fields@)),
                Alignment::Unaligned,
            )),
    {
        Self::new_aligned(Alignment::Unaligned, fields)
    }
}

impl H2Enum {
    /// Named variants sharing one start, padded by `alignment`; fails with
    /// no variants.
    pub fn new_aligned(alignment: Alignment, variants: Vec<(String, H2Type)>) -> (r: Result<
        H2Type,
        H2Error,
    >)
        ensures
            variants@.len() == 0 ==> fails_with(r, H2Error::EmptyEnum),
            variants@.len() != 0 ==> builds(r, typed(
                Kind::Enum(fields_model(variants@)),
                alignment,
            )),
    {
        if variants.len() == 0 {
            return Err(H2Error::EmptyEnum);
        }
        proof {
            lemma_fields_rec(variants@);
        }
        Ok(H2Type::new(alignment, H2Types::H2Enum(H2Enum { variants })))
    }

    pub fn new(variants: Vec<(String, H2Type)>) -> (r: Result<H2Type, H2Error>)
        ensures
            variants@.len() == 0 ==> fails_with(r, H2Error::EmptyEnum),
            variants@.len() != 0 ==> builds(r, typed(
                Kind::Enum(fields_model(variants@)),
                Alignment::Unaligned,
            )),
    {
        Self::new_aligned(Alignment::Unaligned, variants)
    }
}

impl H2String {
    /// `length_in_characters` characters of type `character`, padded by
    /// `alignment`; fails on a length of zero, or on a type that is not a
    /// character.
    pub fn new_aligned(alignment: Alignment, length_in_characters: u64, character: H2Type) -> (r:
        Result<H2Type, H2Error>)
        ensures
            length_in_characters == 0 ==> fails_with(r, H2Error::ZeroLengthString),
            length_in_characters != 0 && !(character.model().kind is Character) ==> fails_with(r, H2Error::NotACharacterType),
            length_in_characters != 0 && character.model().kind is Character ==> builds(r, typed(
                Kind::FixedString(length_in_characters as nat, Box::new(character.model())),
                alignment,
            )),
    {
        if length_in_characters == 0 {
            return Err(H2Error::ZeroLengthString);
        }
        if !character.can_be_char() {
            return Err(H2Error::NotACharacterType);
        }
        Ok(
            H2Type::new(
                alignment,
                H2Types::H2String(
                    H2String { length: length_in_characters, character: Box::new(character) },
                ),
            ),
        )
    }

    pub fn new(length_in_characters: u64, character: H2Type) -> (r: Result<H2Type, H2Error>)
        ensures
            length_in_characters == 0 ==> fails_with(r, H2Error::ZeroLengthString),
            length_in_characters != 0 && !(character.model().kind is Character) ==> fails_with(r, H2Error::NotACharacterType),
            length_in_characters != 0 && character.model().kind is Character ==> builds(r, typed(
                Kind::FixedString(length_in_characters as nat, Box::new(character.model())),
                Alignment::Unaligned,
            )),
    {
        Self::new_aligned(Alignment::Unaligned, length_in_characters, character)
    }
}

impl NTString {
    /// Characters of type `character` up to and including a null
    /// character, padded by `alignment`.
    pub fn new_aligned(alignment: Alignment, character: H2Type) -> (r: H2Type)
        ensures
            r.model() == typed(Kind::NullTerminated(Box::new(character.model())), alignment),
    {
        H2Type::new(alignment, H2Types::NTString(NTString { character: Box::new(character) }))
    }

    pub fn new(character: H2Type) -> (r: H2Type)
        ensures
            r.model() == typed(
                Kind::NullTerminated(Box::new(character.model())),
                Alignment::Unaligned,
            ),
    {
        Self::new_aligned(Alignment::Unaligned, character)
    }
}

impl LPString {
    /// A `length` field, then that many characters of type `character`,
    /// padded by `alignment`; fails where `length` is not an unsigned
    /// integer or `character` not a character.
    pub fn new_aligned(alignment: Alignment, length: H2Type, character: H2Type) -> (r: Result<
        H2Type,
        H2Error,
    >)
        ensures
            !(length.model().kind matches Kind::Number(d, _) && !d.is_signed()) ==> fails_with(r, H2Error::NotALengthType),
            (length.model().kind matches Kind::Number(d, _) && !d.is_signed()) && !(
            character.model().kind is Character) ==> fails_with(r, H2Error::NotACharacterType),
            (length.model().kind matches Kind::Number(d, _) && !d.is_signed())
                && character.model().kind is Character ==> builds(r, typed(
                Kind::LengthPrefixed(Box::new(length.model()), Box::new(character.model())),
                alignment,
            )),
    {
        if !length.can_be_u64() {
            return Err(H2Error::NotALengthType);
        }
        if !character.can_be_char() {
            return Err(H2Error::NotACharacterType);
        }
        Ok(
            H2Type::new(
                alignment,
                H2Types::LPString(
                    LPString { length: Box::new(length), character: Box::new(character) },
                ),
            ),
        )
    }

    pub fn new(length: H2Type, character: H2Type) -> (r: Result<H2Type, H2Error>)
        ensures
            !(length.model().kind matches Kind::Number(d, _) && !d.is_signed()) ==> fails_with(r, H2Error::NotALengthType),
            (length.model().kind matches Kind::Number(d, _) && !d.is_signed()) && !(
            character.model().kind is Character) ==> fails_with(r, H2Error::NotACharacterType),
            (length.model().kind matches Kind::Number(d, _) && !d.is_signed())
                && character.model().kind is Character ==> builds(r, typed(
                Kind::LengthPrefixed(Box::new(length.model()), Box::new(character.model())),
                Alignment::Unaligned,
            )),
    {
        Self::new_aligned(Alignment::Unaligned, length, character)
    }
}

/// Builds ASCII characters.
pub struct ASCII {}

/// Builds UTF-8 characters.
pub struct UTF8 {}

/// Builds UTF-16 characters.
pub struct UTF16 {}

/// Builds UTF-32 characters.
pub struct UTF32 {}

/// Builds characters that are UTF-16 code units alone where they can be,
/// and surrogate pairs otherwise.
pub struct Unicode {}

impl ASCII {
    pub fn new_aligned(alignment: Alignment, strict: StrictASCII) -> (r: H2Type)
        ensures
            r.model() == typed(Kind::Character(CharacterType::ASCII(strict)), alignment),
    {
        Character::new_aligned(alignment, CharacterType::ASCII(strict))
    }

    pub fn new(strict: StrictASCII) -> (r: H2Type)
        ensures
            r.model() == typed(
                Kind::Character(CharacterType::ASCII(strict)),
                Alignment::Unaligned,
            ),
    {
        Character::new(CharacterType::ASCII(strict))
    }
}

impl UTF8 {
    pub fn new_aligned(alignment: Alignment) -> (r: H2Type)
        ensures
            r.model() == typed(Kind::Character(CharacterType::UTF8), alignment),
    {
        Character::new_aligned(alignment, CharacterType::UTF8)
    }

    pub fn new() -> (r: H2Type)
        ensures
            r.model() == typed(Kind::Character(CharacterType::UTF8), Alignment::Unaligned),
    {
        Character::new(CharacterType::UTF8)
    }
}

impl UTF16 {
    pub fn new_aligned(alignment: Alignment, endian: Endian) -> (r: H2Type)
        ensures
            r.model() == typed(Kind::Character(CharacterType::UTF16(endian)), alignment),
    {
        Character::new_aligned(alignment, CharacterType::UTF16(endian))
    }

    pub fn new(endian: Endian) -> (r: H2Type)
        ensures
            r.model() == typed(
                Kind::Character(CharacterType::UTF16(endian)),
                Alignment::Unaligned,
            ),
    {
        Character::new(CharacterType::UTF16(endian))
    }
}

impl UTF32 {
    pub fn new_aligned(alignment: Alignment, endian: Endian) -> (r: H2Type)
        ensures
            r.model() == typed(Kind::Character(CharacterType::UTF32(endian)), alignment),
    {
        Character::new_aligned(alignment, CharacterType::UTF32(endian))
    }

    pub fn new(endian: Endian) -> (r: H2Type)
        ensures
            r.model() == typed(
                Kind::Character(CharacterType::UTF32(endian)),
                Alignment::Unaligned,
            ),
    {
        Character::new(CharacterType::UTF32(endian))
    }
}

impl Unicode {
    pub fn new_aligned(alignment: Alignment, endian: Endian) -> (r: H2Type)
        ensures
            r.model() == typed(Kind::Character(CharacterType::Unicode(endian)), alignment),
    {
        Character::new_aligned(alignment, CharacterType::Unicode(endian))
    }

    pub fn new(endian: Endian) -> (r: H2Type)
        ensures
            r.model() == typed(
                Kind::Character(CharacterType::Unicode(endian)),
                Alignment::Unaligned,
            ),
    {
        Character::new(CharacterType::Unicode(endian))
    }
}

/// A result over named type values, seen over their models.
pub open spec fn named_models(r: Result<Vec<(Option<String>, H2Type)>, H2Error>) -> Result<
    Seq<(Option<Seq<char>>, TypeModel)>,
    H2Error,
> {
    match r {
        Ok(v) => Ok(Seq::new(v@.len(), |i: int| (name_model(v@[i].0), v@[i].1.model()))),
        Err(e) => Err(e),
    }
}

impl H2Type {
    /// A deep copy of this type value.
    pub fn duplicate(&self) -> (r: H2Type)
        ensures
            r.model() == self.model(),
        decreases self,
    {
        let field = match &self.field {
            H2Types::H2Number(n) => H2Types::H2Number(
                H2Number { definition: n.definition, display: n.display },
            ),
            H2Types::Character(c) => H2Types::Character(
                Character { character_type: c.character_type },
            ),
            H2Types::IPv4(a) => H2Types::IPv4(IPv4 { endian: a.endian }),
            H2Types::IPv6(a) => H2Types::IPv6(IPv6 { endian: a.endian }),
            H2Types::H2Array(a) => H2Types::H2Array(
                H2Array { field_type: Box::new(a.field_type.duplicate()), length: a.length },
            ),
            H2Types::H2Struct(st) => {
                let fields = duplicate_fields(&st.fields);
                proof {
                    lemma_fields_rec(fields@);
                    lemma_fields_rec(st.fields@);
                }
                H2Types::H2Struct(H2Struct { fields })
            },
            H2Types::H2Enum(en) => {
                let variants = duplicate_fields(&en.variants);
                proof {
                    lemma_fields_rec(variants@);
                    lemma_fields_rec(en.variants@);
                }
                H2Types::H2Enum(H2Enum { variants })
            },
            H2Types::H2String(st) => H2Types::H2String(
                H2String { length: st.length, character: Box::new(st.character.duplicate()) },
            ),
            H2Types::NTString(st) => H2Types::NTString(
                NTString { character: Box::new(st.character.duplicate()) },
            ),
            H2Types::LPString(st) => H2Types::LPString(
                LPString {
                    length: Box::new(st.length.duplicate()),
                    character: Box::new(st.character.duplicate()),
                },
            ),
        };
        H2Type { field, alignment: self.alignment }
    }

    /// The children of this type at `o`, each with its name where it has
    /// one: the elements of an array, the fields of a struct, the variants
    /// of an enum, and for a string its characters as an array (with the
    /// length field or the terminator beside them).
    pub fn children(&self, o: Offset) -> (r: Result<Vec<(Option<String>, H2Type)>, H2Error>)
        ensures
            named_models(r) == child_types(self.model(), o),
    {
        let mut out: Vec<(Option<String>, H2Type)> = Vec::new();
        match &self.field {
            H2Types::H2Array(a) => {
                let mut i: u64 = 0;
                while i < a.length
                    invariant
                        i <= a.length,
                        out@.len() == i,
                        forall|k: int|
                            0 <= k < i ==> (#[trigger] out@[k]).0 is None && out@[k].1.model()
                                == a.field_type.model(),
                    decreases a.length - i,
                {
                    out.push((None, a.field_type.duplicate()));
                    i = i + 1;
                }
            },
            H2Types::H2Struct(st) => {
                proof {
                    lemma_fields_rec(st.fields@);
                }
                out = named_fields(&st.fields);
            },
            H2Types::H2Enum(en) => {
                proof {
                    lemma_fields_rec(en.variants@);
                }
                out = named_fields(&en.variants);
            },
            H2Types::H2String(st) => {
                if st.length == 0 {
                    return Err(H2Error::ZeroLengthArray);
                }
                out.push((None, char_array_type(&st.character, st.length)));
            },
            H2Types::NTString(st) => {
                let (_, chars) = self.string_chars(o)?;
                if chars.len() > 0 {
                    out.push((None, char_array_type(&st.character, chars.len() as u64)));
                }
                let mut name = String::new();
                push_str(&mut name, "terminator");
                proof {
                    reveal_strlit("terminator");
                }
                out.push((Some(name), st.character.duplicate()));
            },
            H2Types::LPString(st) => {
                let (_, n) = length_field_at(&st.length, o)?;
                let mut name = String::new();
                push_str(&mut name, "size");
                proof {
                    reveal_strlit("size");
                }
                out.push((Some(name), st.length.duplicate()));
                if n > 0 {
                    out.push((None, char_array_type(&st.character, n)));
                }
            },
            _ => {},
        }
        proof {
            assert(named_models(Ok::<Vec<(Option<String>, H2Type)>, H2Error>(out)).unwrap()
                =~= child_types(self.model(), o).unwrap());
        }
        Ok(out)
    }

    /// The positions and types that this type refers to at `o`: none, since
    /// no kind of type value here is a reference.
    pub fn related(&self, o: Offset) -> (r: Result<Vec<(u64, H2Type)>, H2Error>)
        ensures
            r matches Ok(v) && v@.len() == 0,
    {
        Ok(Vec::new())
    }

    /// The character this type decodes to at `o`.
    pub fn to_char(&self, o: Offset) -> (r: Result<char, H2Error>)
        ensures
            r == char_of(self.model(), o),
    {
        match &self.field {
            H2Types::Character(c) => {
                let ctx = o.get_dynamic()?;
                let (_, ch) = decode_at(c.character_type, ctx)?;
                Ok(ch)
            },
            _ => Err(H2Error::NotACharacterType),
        }
    }

    /// The unsigned integer this type decodes to at `o`.
    pub fn to_u64(&self, o: Offset) -> (r: Result<u64, H2Error>)
        ensures
            r matches Ok(v) ==> int_of(self.model(), o, false) == Ok::<int, H2Error>(v as int),
            r matches Err(e) ==> int_of(self.model(), o, false) == Err::<int, H2Error>(e),
    {
        match &self.field {
            H2Types::H2Number(n) => {
                if !n.definition.can_be_u64() {
                    return Err(H2Error::NotALengthType);
                }
                let ctx = o.get_dynamic()?;
                n.definition.read_raw(ctx)
            },
            _ => Err(H2Error::NotALengthType),
        }
    }

    /// The signed integer this type decodes to at `o`.
    pub fn to_i64(&self, o: Offset) -> (r: Result<i64, H2Error>)
        ensures
            r matches Ok(v) ==> int_of(self.model(), o, true) == Ok::<int, H2Error>(v as int),
            r matches Err(e) ==> int_of(self.model(), o, true) == Err::<int, H2Error>(e),
    {
        match &self.field {
            H2Types::H2Number(n) => {
                if !n.definition.can_be_i64() {
                    return Err(H2Error::NotALengthType);
                }
                let ctx = o.get_dynamic()?;
                n.definition.to_i64(ctx)
            },
            _ => Err(H2Error::NotALengthType),
        }
    }
}

/// An array of `n` copies of `cm` with no padding of its own.
fn char_array_type(cm: &H2Type, n: u64) -> (r: H2Type)
    ensures
        r.model() == array_model(cm.model(), n as nat),
{
    H2Type {
        field: H2Types::H2Array(H2Array { field_type: Box::new(cm.duplicate()), length: n }),
        alignment: Alignment::Unaligned,
    }
}

/// Deep copies of named fields.
fn duplicate_fields(fs: &Vec<(String, H2Type)>) -> (r: Vec<(String, H2Type)>)
    ensures
        fields_model(r@) == fields_model(fs@),
    decreases fs,
{
    let mut out: Vec<(String, H2Type)> = Vec::new();
    let mut i: usize = 0;
    while i < fs.len()
        invariant
            i <= fs@.len(),
            fields_model(out@) == fields_model(fs@).take(i as int),
        decreases fs@.len() - i,
    {
        proof {
            assert(decreases_to!(fs => fs@[i as int].1));
        }
        let name = fs[i].0.clone();
        let t = fs[i].1.duplicate();
        let ghost before = out@;
        out.push((name, t));
        proof {
            assert(out@ == before.push((name, t)));
            assert(fields_model(out@) =~= fields_model(before).push((name@, t.model())));
            assert(fields_model(fs@).take(i + 1) =~= fields_model(fs@).take(i as int).push(
                (fs@[i as int].0@, fs@[i as int].1.model()),
            ));
        }
        i = i + 1;
    }
    assert(fields_model(fs@).take(fs@.len() as int) =~= fields_model(fs@));
    out
}

/// Named deep copies of fields.
fn named_fields(fs: &Vec<(String, H2Type)>) -> (r: Vec<(Option<String>, H2Type)>)
    ensures
        r@.len() == fs@.len(),
        forall|k: int|
            0 <= k < fs@.len() ==> name_model((#[trigger] r@[k]).0) == Some(fs@[k].0@) && r@[k].1.model()
                == fs@[k].1.model(),
{
    let mut out: Vec<(Option<String>, H2Type)> = Vec::new();
    let mut i: usize = 0;
    while i < fs.len()
        invariant
            i <= fs@.len(),
            out@.len() == i,
            forall|k: int|
                0 <= k < i ==> name_model((#[trigger] out@[k]).0) == Some(fs@[k].0@)
                    && out@[k].1.model() == fs@[k].1.model(),
        decreases fs@.len() - i,
    {
        out.push((Some(fs[i].0.clone()), fs[i].1.duplicate()));
        i = i + 1;
    }
    out
}

} // verus!
