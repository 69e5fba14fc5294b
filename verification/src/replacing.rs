//! Replacement writes: what a variable holds after `x$field <- v` and its like.

use vstd::prelude::*;

use crate::blame::blame_range;
use crate::checker::Checker;
use crate::checking;
use crate::checking::CheckV;
use crate::compatible::find_field;
use crate::diagnostics;
use crate::diagnostics::nearest_field_name;
use crate::explain::field_names;
use crate::findings::{TypeErrorKind, TypeErrorKindV};
use crate::globals::GlobalEnv;
use crate::hir;
use crate::hir::{Argument, ExprId, ExpressionKind, LiteralKind, Module};
use crate::steps::is_unknown;
use crate::table;
use crate::text::same_text;
use crate::type_ops::{clone_fields, union_of_two};
use crate::types;
use crate::types::{FieldV, Name, RecordField, Ty, TyKind, TyV};

verus! {

broadcast use crate::types::group_type_views;

/// Whether an access has one index, without a name.
pub open spec fn has_sole_index(arguments: Seq<Argument>) -> bool {
    arguments.len() == 1 && arguments[0].name is None
}

/// The text of a string literal.
pub open spec fn string_at(m: Module, id: Option<ExprId>) -> Option<Seq<char>> {
    match id {
        Some(id) => match m.kind_of(id) {
            ExpressionKind::Literal(LiteralKind::String(text)) => Some(text@),
            _ => None,
        },
        None => None,
    }
}

/// The field that a replacement writes: `x$name`, or `x[["name"]]`.
pub open spec fn written_field(m: Module, lhs: ExprId, base: ExprId) -> Option<Seq<char>> {
    match m.kind_of(lhs) {
        ExpressionKind::Field { at, target, name, .. } => if !at && target == base {
            types::opt_text(name)
        } else {
            None
        },
        ExpressionKind::Index { double, target, arguments } => if double && target == base
            && has_sole_index(arguments@) {
            string_at(m, arguments@[0].value)
        } else {
            None
        },
        _ => None,
    }
}

/// Whether a replacement writes one element of the base, `x[[key]]`.
pub open spec fn writes_element(m: Module, lhs: ExprId, base: ExprId) -> bool {
    match m.kind_of(lhs) {
        ExpressionKind::Index { double, target, arguments } => double && target == base
            && has_sole_index(arguments@),
        _ => false,
    }
}

pub open spec fn field_place(fields: Seq<FieldV>, name: Seq<char>, from: int) -> Option<int>
    decreases fields.len() - from,
{
    if 0 <= from < fields.len() {
        if fields[from].name == name {
            Some(from)
        } else {
            field_place(fields, name, from + 1)
        }
    } else {
        None
    }
}

/// Fields with one set to a type, added where it is absent.
pub open spec fn with_field(fields: Seq<FieldV>, name: Seq<char>, ty: TyV) -> Seq<FieldV> {
    match field_place(fields, name, 0) {
        Some(i) => fields.update(i, FieldV { ty, ..fields[i] }),
        None => fields.push(FieldV { name, ty, optional: false }),
    }
}

/// What an element write makes of a list.
pub open spec fn with_element(prior: TyV, value: TyV) -> TyV {
    match prior {
        TyV::Tuple(items) => if items.len() == 0 {
            TyV::NamedList(Box::new(value))
        } else {
            prior
        },
        TyV::NamedList(element) => TyV::NamedList(
            Box::new(TyV::union_of(seq![*element, value])),
        ),
        TyV::List(element) => TyV::List(Box::new(TyV::union_of(seq![*element, value]))),
        _ => prior,
    }
}

impl CheckV {
    /// A field write checked against a nominal's representation, which is fixed.
    pub open spec fn check_nominal_write(
        self,
        m: Module,
        nominal: TyV,
        name: Seq<char>,
        value_expression: ExprId,
        value: TyV,
    ) -> CheckV {
        let range = checking::blame_range(m, value_expression);
        match self.table.structural(nominal) {
            TyV::Record(fields) => match table::field_type(fields, name) {
                Some(expected) => if value is Unknown {
                    self
                } else {
                    let (next, fits) = self.compatible(value, expected);
                    if fits {
                        next
                    } else {
                        next.report(
                            checking::type_mismatch(next.table, m, range, expected, value, None),
                        )
                    }
                },
                None => self.fail(
                    range,
                    TypeErrorKindV::FieldDoesNotExist {
                        suggestion: diagnostics::nearest(name, table::field_names(fields)),
                        field: name,
                        container: nominal,
                    },
                ),
            },
            _ => self,
        }
    }

    /// What the base holds after a replacement: a field write on a record sets
    /// the field, an element write widens a list's element, and everything else
    /// keeps the prior type.
    pub open spec fn replaced(
        self,
        m: Module,
        lhs: ExprId,
        base: ExprId,
        value_expression: ExprId,
        prior: TyV,
        value: TyV,
    ) -> (CheckV, TyV) {
        match written_field(m, lhs, base) {
            Some(name) => match prior {
                TyV::Record(fields) => (self, TyV::Record(with_field(fields, name, value))),
                TyV::Tuple(items) => if items.len() == 0 {
                    (self, TyV::Record(seq![FieldV { name, ty: value, optional: false }]))
                } else {
                    (self, prior)
                },
                TyV::Named(_, _) => (
                    self.check_nominal_write(m, prior, name, value_expression, value),
                    prior,
                ),
                _ => (self, prior),
            },
            None => if writes_element(m, lhs, base) {
                (self, with_element(prior, value))
            } else {
                (self, prior)
            },
        }
    }
}

fn sole_index(arguments: &Vec<Argument>) -> (r: bool)
    ensures
        r == has_sole_index(arguments@),
{
    arguments.len() == 1 && arguments[0].name.is_none()
}

/// The text of a string literal.
pub fn string_literal(module: &Module, id: Option<ExprId>) -> (r: Option<String>)
    requires
        hir::opt_below(id, module.expressions@.len() as int),
    ensures
        types::opt_text(r) == string_at(*module, id),
{
    match id {
        Some(id) => match module.kind(id) {
            ExpressionKind::Literal(LiteralKind::String(text)) => Some(text.clone()),
            _ => None,
        },
        None => None,
    }
}

fn field_name(module: &Module, lhs: ExprId, base: ExprId) -> (r: Option<String>)
    requires
        module.wf(),
        module.holds(lhs),
    ensures
        types::opt_text(r) == written_field(*module, lhs, base),
{
    let kind = module.kind(lhs);
    assert(kind.built_below(lhs.0 as int));
    match kind {
        ExpressionKind::Field { at, target, name, .. } => {
            if !*at && *target == base {
                match name {
                    Some(name) => Some(name.clone()),
                    None => None,
                }
            } else {
                None
            }
        },
        ExpressionKind::Index { double, target, arguments } => {
            if *double && *target == base && sole_index(arguments) {
                assert(hir::opt_below(arguments@[0].value, lhs.0 as int));
                string_literal(module, arguments[0].value)
            } else {
                None
            }
        },
        _ => None,
    }
}

fn is_element_write(module: &Module, lhs: ExprId, base: ExprId) -> (r: bool)
    requires
        module.holds(lhs),
    ensures
        r == writes_element(*module, lhs, base),
{
    match module.kind(lhs) {
        ExpressionKind::Index { double, target, arguments } => *double && *target == base
            && sole_index(arguments),
        _ => false,
    }
}

fn set_field(fields: &Vec<RecordField>, name: &String, ty: &Ty) -> (r: Vec<RecordField>)
    ensures
        types::fields_view(r@) == with_field(types::fields_view(fields@), name@, ty@),
{
    let ghost before = types::fields_view(fields@);
    let mut all = clone_fields(fields);
    let mut i: usize = 0;
    while i < fields.len()
        invariant
            i <= fields.len(),
            all@ == fields@,
            before == types::fields_view(fields@),
            field_place(before, name@, 0) == field_place(before, name@, i as int),
        decreases fields.len() - i,
    {
        if same_text(fields[i].name.text(), name.as_str()) {
            all.set(
                i,
                RecordField {
                    name: fields[i].name.clone(),
                    ty: ty.clone(),
                    optional: fields[i].optional,
                },
            );
            assert(types::fields_view(all@) =~= before.update(
                i as int,
                FieldV { ty: ty@, ..before[i as int] },
            ));
            return all;
        }
        i += 1;
    }
    all.push(RecordField { name: Name::new(name.clone()), ty: ty.clone(), optional: false });
    all
}

fn widen_element(prior: &Ty, value: &Ty) -> (r: Ty)
    ensures
        r@ == with_element(prior@, value@),
{
    match prior.kind() {
        TyKind::Tuple(items) => {
            if items.len() == 0 {
                Ty::new(TyKind::NamedList(value.clone()))
            } else {
                prior.clone()
            }
        },
        TyKind::NamedList(element) => Ty::new(TyKind::NamedList(union_of_two(element, value))),
        TyKind::List(element) => Ty::new(TyKind::List(union_of_two(element, value))),
        _ => prior.clone(),
    }
}

impl<'a, G: GlobalEnv> Checker<'a, G> {
    fn check_nominal_field_write(
        &mut self,
        nominal: &Ty,
        name: &String,
        value_expression: ExprId,
        value: &Ty,
    )
        requires
            old(self).wf(),
            old(self).holds(value_expression),
        ensures
            final(self).follows(old(self)),
            final(self)@ == old(self)@.check_nominal_write(
                old(self).item().module,
                nominal@,
                name@,
                value_expression,
                value@,
            ),
    {
        let representation = self.structural(nominal);
        let fields = match representation.kind() {
            TyKind::Record(fields) => fields,
            _ => {
                return;
            },
        };
        let range = blame_range(self.module(), value_expression);
        match find_field(fields, name.as_str()) {
            Some(field) => {
                if !is_unknown(value) && !self.compatible(value, &field.ty) {
                    let error = self.type_mismatch(range, &field.ty, value, None);
                    self.report(error);
                }
            },
            None => {
                self.fail(
                    range,
                    TypeErrorKind::FieldDoesNotExist {
                        suggestion: nearest_field_name(name.as_str(), &field_names(fields)),
                        field: name.clone(),
                        container: nominal.clone(),
                    },
                );
            },
        }
    }

    /// What the base holds after a replacement.
    pub fn replacement_written_type(
        &mut self,
        lhs: ExprId,
        base: ExprId,
        value_expression: ExprId,
        prior: &Ty,
        value: &Ty,
    ) -> (r: Ty)
        requires
            old(self).wf(),
            old(self).holds(lhs),
            old(self).holds(value_expression),
        ensures
            final(self).follows(old(self)),
            (final(self)@, r@) == old(self)@.replaced(
                old(self).item().module,
                lhs,
                base,
                value_expression,
                prior@,
                value@,
            ),
    {
        let module = self.module();
        if let Some(name) = field_name(module, lhs, base) {
            return match prior.kind() {
                TyKind::Record(fields) => Ty::new(TyKind::Record(set_field(fields, &name, value))),
                TyKind::Tuple(items) => {
                    if items.len() == 0 {
                        let mut fields: Vec<RecordField> = Vec::new();
                        fields.push(
                            RecordField {
                                name: Name::new(name.clone()),
                                ty: value.clone(),
                                optional: false,
                            },
                        );
                        assert(types::fields_view(fields@) =~= seq![
                            FieldV { name: name@, ty: value@, optional: false },
                        ]);
                        Ty::new(TyKind::Record(fields))
                    } else {
                        prior.clone()
                    }
                },
                TyKind::Named(_, _) => {
                    self.check_nominal_field_write(prior, &name, value_expression, value);
                    prior.clone()
                },
                _ => prior.clone(),
            };
        }
        if is_element_write(module, lhs, base) {
            widen_element(prior, value)
        } else {
            prior.clone()
        }
    }
}

} // verus!
