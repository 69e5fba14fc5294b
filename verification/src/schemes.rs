//! Type schemes: types quantified over declared binders.

use vstd::prelude::*;

use crate::infer;
use crate::types::{Constraint, Name, Ty, TyV};

verus! {

/// A type with the binders it is quantified over.
#[derive(Debug, PartialEq, Eq)]
pub struct TypeScheme {
    pub binders: Vec<(Name, Constraint)>,
    pub body: Ty,
}

/// The model of a scheme.
pub struct SchemeV {
    pub binders: Seq<(Seq<char>, Constraint)>,
    pub body: TyV,
}

impl SchemeV {
    /// A scheme that quantifies nothing.
    pub open spec fn monomorphic(body: TyV) -> SchemeV {
        SchemeV { binders: Seq::empty(), body }
    }
}

impl TypeScheme {
    pub open spec fn view(&self) -> SchemeV {
        SchemeV { binders: infer::binders_view(self.binders@), body: self.body@ }
    }

    /// A scheme that quantifies nothing.
    pub fn monomorphic(body: Ty) -> (r: TypeScheme)
        ensures
            r@ == SchemeV::monomorphic(body@),
    {
        let r = TypeScheme { binders: Vec::new(), body };
        assert(r@.binders =~= Seq::empty());
        r
    }
}

impl Clone for TypeScheme {
    fn clone(&self) -> (r: Self)
        ensures
            r@ == self@,
    {
        TypeScheme { binders: clone_binders(&self.binders), body: self.body.clone() }
    }
}

pub fn clone_binders(binders: &Vec<(Name, Constraint)>) -> (r: Vec<(Name, Constraint)>)
    ensures
        infer::binders_view(r@) == infer::binders_view(binders@),
{
    let mut out: Vec<(Name, Constraint)> = Vec::new();
    let mut i: usize = 0;
    while i < binders.len()
        invariant
            i <= binders.len(),
            out@.len() == i,
            forall|j: int|
                #![trigger out@[j]]
                0 <= j < i ==> out@[j].0@ == binders@[j].0@ && out@[j].1 == binders@[j].1,
        decreases binders.len() - i,
    {
        out.push((binders[i].0.clone(), binders[i].1));
        i += 1;
    }
    assert(infer::binders_view(out@) =~= infer::binders_view(binders@));
    out
}

/// The models of a list of schemes.
pub open spec fn schemes_view(schemes: Seq<TypeScheme>) -> Seq<SchemeV> {
    Seq::new(schemes.len(), |i: int| schemes[i]@)
}

/// The model of an optional scheme.
pub open spec fn opt_scheme(scheme: Option<TypeScheme>) -> Option<SchemeV> {
    match scheme {
        Some(scheme) => Some(scheme@),
        None => None,
    }
}

} // verus!
