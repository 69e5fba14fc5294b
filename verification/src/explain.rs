//! Explanations of a compatibility refusal: the one position of a signature, or
//! the one field of a record, that is to blame.

use vstd::prelude::*;

use crate::compatible::find_field;
use crate::diagnostics::nearest_field_name;
use crate::infer::InferenceTable;
use crate::pairing;
use crate::pairing::pair_parameters;
use crate::table;
use crate::table::{FunctionMismatchV, RecordMismatchV};
use crate::types;
use crate::types::{Constraint, FunctionType, RecordField, Ty, TyKind};

verus! {

broadcast use {
    crate::types::group_type_views,
    crate::table::grown_from_itself,
    crate::table::grown_in_steps,
};

/// The one position that keeps a function value from serving an expected
/// function type. Each variant carries the constraint of its own side when that
/// side is a constrained variable.
#[derive(Debug, PartialEq, Eq)]
pub enum FunctionMismatch {
    /// A parameter: the interface passes a value the function will not take.
    Parameter {
        /// The function's own name for the parameter, when it has one.
        name: Option<String>,
        /// What the expected interface may pass into that position.
        passed: Ty,
        /// What the function's parameter accepts.
        accepts: Ty,
        constraint: Option<Constraint>,
    },
    /// The return: the function produces a value the interface will not take.
    Return {
        /// What the expected interface requires back.
        required: Ty,
        /// What the function produces.
        produces: Ty,
        constraint: Option<Constraint>,
    },
}

impl FunctionMismatch {
    pub open spec fn view(&self) -> FunctionMismatchV {
        match self {
            FunctionMismatch::Parameter { name, passed, accepts, constraint } => {
                FunctionMismatchV::Parameter {
                    name: types::opt_text(*name),
                    passed: passed@,
                    accepts: accepts@,
                    constraint: *constraint,
                }
            },
            FunctionMismatch::Return { required, produces, constraint } => {
                FunctionMismatchV::Return {
                    required: required@,
                    produces: produces@,
                    constraint: *constraint,
                }
            },
        }
    }
}

pub open spec fn opt_function_mismatch(mismatch: Option<FunctionMismatch>) -> Option<
    FunctionMismatchV,
> {
    match mismatch {
        Some(mismatch) => Some(mismatch@),
        None => None,
    }
}

/// The one field that keeps a record from serving an expected record type. The
/// path ends in the field the finding is about and names its enclosing fields
/// before it.
#[derive(Debug, PartialEq, Eq)]
pub enum RecordMismatch {
    /// A field both sides declare, whose types do not fit.
    Field { path: Vec<String>, expected: Ty, found: Ty },
    /// A field the expected type declares that the value does not have.
    Missing {
        path: Vec<String>,
        /// A field the value does have whose name is a near miss.
        near: Option<String>,
    },
    /// A field the value has that the expected type does not declare.
    Unexpected { path: Vec<String>, near: Option<String> },
}

impl RecordMismatch {
    pub open spec fn view(&self) -> RecordMismatchV {
        match self {
            RecordMismatch::Field { path, expected, found } => RecordMismatchV::Field {
                path: types::texts(path@),
                expected: expected@,
                found: found@,
            },
            RecordMismatch::Missing { path, near } => RecordMismatchV::Missing {
                path: types::texts(path@),
                near: types::opt_text(*near),
            },
            RecordMismatch::Unexpected { path, near } => RecordMismatchV::Unexpected {
                path: types::texts(path@),
                near: types::opt_text(*near),
            },
        }
    }
}

pub open spec fn opt_record_mismatch(mismatch: Option<RecordMismatch>) -> Option<RecordMismatchV> {
    match mismatch {
        Some(mismatch) => Some(mismatch@),
        None => None,
    }
}

/// The names of a list of fields.
pub fn field_names(fields: &Vec<RecordField>) -> (r: Vec<String>)
    ensures
        types::texts(r@) == table::field_names(types::fields_view(fields@)),
{
    let mut out: Vec<String> = Vec::new();
    let mut i: usize = 0;
    while i < fields.len()
        invariant
            i <= fields.len(),
            out@.len() == i,
            forall|j: int|
                0 <= j < i ==> (#[trigger] out@[j])@ == types::fields_view(fields@)[j].name,
        decreases fields.len() - i,
    {
        out.push(fields[i].name.text.clone());
        i += 1;
    }
    assert(types::texts(out@) =~= table::field_names(types::fields_view(fields@)));
    out
}

/// A path with one more field.
fn extended(path: &Vec<String>, name: &String) -> (r: Vec<String>)
    ensures
        types::texts(r@) == types::texts(path@).push(name@),
{
    let mut out: Vec<String> = Vec::new();
    let mut i: usize = 0;
    while i < path.len()
        invariant
            i <= path.len(),
            out@ =~= path@.subrange(0, i as int),
        decreases path.len() - i,
    {
        out.push(path[i].clone());
        i += 1;
    }
    assert(out@ =~= path@);
    out.push(name.clone());
    out
}

/// The first field that the expected type does not declare.
fn surplus_field(own: &Vec<RecordField>, wanted: &Vec<RecordField>, path: &Vec<String>) -> (r:
    Option<RecordMismatch>)
    ensures
        opt_record_mismatch(r) == table::surplus_field(
            types::fields_view(own@),
            types::fields_view(wanted@),
            0,
            types::texts(path@),
        ),
{
    let mut i: usize = 0;
    while i < own.len()
        invariant
            i <= own.len(),
            table::surplus_field(
                types::fields_view(own@),
                types::fields_view(wanted@),
                0,
                types::texts(path@),
            ) == table::surplus_field(
                types::fields_view(own@),
                types::fields_view(wanted@),
                i as int,
                types::texts(path@),
            ),
        decreases own.len() - i,
    {
        assert(types::fields_view(own@)[i as int] == own[i as int]@);
        let name = own[i].name.text();
        if find_field(wanted, name).is_none() {
            let near = nearest_field_name(name, &field_names(wanted));
            return Some(
                RecordMismatch::Unexpected { path: extended(path, &own[i].name.text), near },
            );
        }
        i += 1;
    }
    None
}

impl InferenceTable {
    /// Why `actual` does not serve `expected`, where one position is to blame.
    /// `None` when the shapes themselves disagree, which the whole signatures
    /// show.
    pub fn explain_function_mismatch(
        &mut self,
        actual: &FunctionType,
        expected: &FunctionType,
    ) -> (r: Option<FunctionMismatch>)
        requires
            old(self).wf(),
        ensures
            final(self).wf(),
            (final(self)@, opt_function_mismatch(r)) == old(self)@.explain_function(
                actual@,
                expected@,
            ),
            final(self)@.grown_from(old(self)@),
    {
        let pairing = match pair_parameters(actual, expected) {
            Some(pairing) => pairing,
            None => {
                return None;
            },
        };
        let ghost pairs = pairing@.parameters;
        let mut i: usize = 0;
        while i < pairing.parameters.len()
            invariant
                i <= pairing.parameters.len(),
                pairs == pairing::parameter_pairs_view(pairing.parameters@),
                self.wf(),
                self@.grown_from(old(self)@),
                self@.explain_parameters(pairs, i as int) == old(self)@.explain_parameters(
                    pairs,
                    0,
                ),
                table::pair_parameters(actual@, expected@) is Some,
                table::pair_parameters(actual@, expected@)->0.parameters == pairs,
            decreases pairing.parameters.len() - i,
        {
            let pair = &pairing.parameters[i];
            assert(pairs[i as int] == pair@);
            if !self.compatible(&pair.passed, &pair.accepts) {
                let accepts = self.resolve(&pair.accepts);
                let name = match &pair.name {
                    Some(name) => Some(name.text.clone()),
                    None => None,
                };
                let passed = self.resolve(&pair.passed);
                let constraint = self.variable_constraint(&accepts);
                return Some(FunctionMismatch::Parameter { name, passed, accepts, constraint });
            }
            i += 1;
        }
        if !self.compatible(&actual.ret, &expected.ret) {
            let produces = self.resolve(&actual.ret);
            let required = self.resolve(&expected.ret);
            let constraint = self.variable_constraint(&produces);
            return Some(FunctionMismatch::Return { required, produces, constraint });
        }
        None
    }

    /// Which field keeps `actual` from serving `expected`. Pairs fields by name
    /// and goes into nested records, so the path reads outermost first.
    /// Explaining a failure leaves the table as it was.
    pub fn explain_record_mismatch(&mut self, actual: &Ty, expected: &Ty) -> (r: Option<
        RecordMismatch,
    >)
        requires
            old(self).wf(),
        ensures
            final(self).wf(),
            final(self)@ == old(self)@,
            opt_record_mismatch(r) == old(self)@.explain_record(actual@, expected@),
    {
        let snapshot = self.snapshot();
        let path: Vec<String> = Vec::new();
        assert(types::texts(path@) =~= Seq::empty());
        let mismatch = self.walk_record_mismatch(actual, expected, &path, usize::MAX);
        self.rollback(snapshot);
        mismatch
    }

    fn walk_record_mismatch(
        &mut self,
        actual: &Ty,
        expected: &Ty,
        path: &Vec<String>,
        budget: usize,
    ) -> (r: Option<RecordMismatch>)
        requires
            old(self).wf(),
        ensures
            final(self).wf(),
            (final(self)@, opt_record_mismatch(r)) == old(self)@.walk_record(
                actual@,
                expected@,
                types::texts(path@),
                budget as nat,
            ),
            final(self)@.grown_from(old(self)@),
        decreases budget, 1int,
    {
        let actual = self.resolve(actual);
        let expected = self.resolve(expected);
        match (actual.kind(), expected.kind()) {
            (TyKind::Record(own), TyKind::Record(wanted)) => self.walk_fields(
                own,
                wanted,
                path,
                budget,
            ),
            _ => None,
        }
    }

    fn walk_fields(
        &mut self,
        own: &Vec<RecordField>,
        wanted: &Vec<RecordField>,
        path: &Vec<String>,
        budget: usize,
    ) -> (r: Option<RecordMismatch>)
        requires
            old(self).wf(),
        ensures
            final(self).wf(),
            (final(self)@, opt_record_mismatch(r)) == old(self)@.walk_fields(
                types::fields_view(own@),
                types::fields_view(wanted@),
                0,
                types::texts(path@),
                budget as nat,
            ),
            final(self)@.grown_from(old(self)@),
        decreases budget, 0int,
    {
        let mut i: usize = 0;
        while i < wanted.len()
            invariant
                i <= wanted.len(),
                self.wf(),
                self@.grown_from(old(self)@),
                self@.walk_fields(
                    types::fields_view(own@),
                    types::fields_view(wanted@),
                    i as int,
                    types::texts(path@),
                    budget as nat,
                ) == old(self)@.walk_fields(
                    types::fields_view(own@),
                    types::fields_view(wanted@),
                    0,
                    types::texts(path@),
                    budget as nat,
                ),
            decreases wanted.len() - i,
        {
            let field = &wanted[i];
            assert(types::fields_view(wanted@)[i as int] == field@);
            let name = field.name.text();
            match find_field(own, name) {
                None => {
                    let near = nearest_field_name(name, &field_names(own));
                    return Some(
                        RecordMismatch::Missing { path: extended(path, &field.name.text), near },
                    );
                },
                Some(found) => {
                    if !self.compatible(&found.ty, &field.ty) {
                        let below = extended(path, &field.name.text);
                        if budget > 0 {
                            let inner = self.walk_record_mismatch(
                                &found.ty,
                                &field.ty,
                                &below,
                                budget - 1,
                            );
                            if inner.is_some() {
                                return inner;
                            }
                        }
                        return Some(
                            RecordMismatch::Field {
                                expected: self.resolve(&field.ty),
                                found: self.resolve(&found.ty),
                                path: below,
                            },
                        );
                    }
                },
            }
            i += 1;
        }
        surplus_field(own, wanted, path)
    }
}

} // verus!
