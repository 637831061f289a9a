use std::ops::Range;
use vstd::prelude::*;

use crate::h2type::H2Type;
use crate::model::ResolvedModel;
use crate::text::push_str;

verus! {

/// A type value bound to data at one position: everything in it is a plain
/// value, so reading it cannot fail.
#[derive(Debug)]
pub struct ResolvedType {
    /// The span of the content, without padding.
    pub actual_range: Range<u64>,
    /// The span with the trailing padding.
    pub aligned_range: Range<u64>,
    pub field_name: Option<String>,
    /// The decoded value as text.
    pub value: String,
    pub children: Vec<ResolvedType>,
    /// Positions and types that this value refers to.
    pub related: Vec<(u64, H2Type)>,
}

/// The characters of an optional name.
pub open spec fn name_model(n: Option<String>) -> Option<Seq<char>> {
    match n {
        Some(s) => Some(s@),
        None => None,
    }
}

/// The models of resolved types.
pub open spec fn kids_model(ks: Seq<ResolvedType>) -> Seq<ResolvedModel> {
    Seq::new(ks.len(), |i: int| ks[i].model())
}

pub open spec fn kids_rec(ks: Seq<ResolvedType>) -> Seq<ResolvedModel>
    decreases ks, 1nat,
{
    if ks.len() == 0 {
        seq![]
    } else {
        kids_rec(ks.drop_last()).push(ks[ks.len() - 1].model())
    }
}

pub proof fn lemma_kids_rec(ks: Seq<ResolvedType>)
    ensures
        kids_rec(ks) == kids_model(ks),
    decreases ks.len(),
{
    if ks.len() > 0 {
        lemma_kids_rec(ks.drop_last());
    }
    assert(kids_rec(ks) =~= kids_model(ks));
}

/// A result over a resolved type, seen over its model.
pub open spec fn resolved_of(r: Result<ResolvedType, crate::error::H2Error>) -> Result<
    ResolvedModel,
    crate::error::H2Error,
> {
    match r {
        Ok(x) => Ok(x.model()),
        Err(e) => Err(e),
    }
}

/// A result over resolved types, seen over their models.
pub open spec fn resolved_all(r: Result<Vec<ResolvedType>, crate::error::H2Error>) -> Result<
    Seq<ResolvedModel>,
    crate::error::H2Error,
> {
    match r {
        Ok(v) => Ok(kids_model(v@)),
        Err(e) => Err(e),
    }
}

impl ResolvedType {
    /// The model of this resolved type.
    pub open spec fn model(&self) -> ResolvedModel
        decreases self, 0nat,
    {
        ResolvedModel {
            actual_range: self.actual_range,
            aligned_range: self.aligned_range,
            field_name: name_model(self.field_name),
            value: self.value@,
            children: kids_rec(self.children@),
        }
    }

    /// The size of the content, without padding.
    pub fn actual_size(&self) -> (r: u64)
        requires
            self.actual_range.start <= self.actual_range.end,
        ensures
            r == self.actual_range.end - self.actual_range.start,
    {
        self.actual_range.end - self.actual_range.start
    }

    /// The size with the trailing padding.
    pub fn aligned_size(&self) -> (r: u64)
        requires
            self.aligned_range.start <= self.aligned_range.end,
        ensures
            r == self.aligned_range.end - self.aligned_range.start,
    {
        self.aligned_range.end - self.aligned_range.start
    }

    /// The value, preceded by the field name and `: ` where there is one.
    pub fn to_string(&self) -> (r: String)
        ensures
            r@ == match self.field_name {
                Some(n) => n@ + ": "@ + self.value@,
                None => self.value@,
            },
    {
        let mut s = String::new();
        match &self.field_name {
            Some(n) => {
                push_str(&mut s, n.as_str());
                push_str(&mut s, ": ");
            },
            None => {},
        }
        push_str(&mut s, self.value.as_str());
        s
    }
}

} // verus!
