//! What declarations demand: the laws of annotated definitions, their formals,
//! their results and what they export.

use vstd::prelude::*;

use crate::annotations::DemandV;
use crate::check;
use crate::checking::{self, CheckV};
use crate::compatible;
use crate::declared::{self, PairedV};
use crate::findings::TypeErrorKindV;
use crate::hir::{ExprId, Module, Parameter};
use crate::schemes::SchemeV;
use crate::syntax::TextRange;
use crate::table;
use crate::types::{Atomic, FunctionV, ParameterV, TyV};
use crate::walk::{BindingKind, BindingV};

verus! {

/// Without an annotation a value keeps its type, and nothing is reported.
pub proof fn an_unannotated_value_keeps_its_type(
    c: CheckV,
    m: Module,
    annotated: ExprId,
    value: ExprId,
    ty: TyV,
)
    requires
        !c.annotations.dom().contains(annotated.0),
    ensures
        c.apply_annotation(m, annotated, value, ty) == (c, ty),
        c.declared_function(annotated) is None,
{
}

/// An annotated value has the declared type. A trusted declaration is not
/// checked; one for unknown values applies to them alone, and is refused where
/// the type is known; any other is checked, and a single value that does not fit
/// is reported.
pub proof fn an_annotated_value_has_the_declared_type(
    c: CheckV,
    m: Module,
    annotated: ExprId,
    value: ExprId,
    found: Atomic,
    wanted: Atomic,
)
    requires
        c.annotations.dom().contains(annotated.0),
        c.annotations[annotated.0].introduced is None,
        c.annotations[annotated.0].declared is Some,
        (c.annotations[annotated.0].declared->0).body == TyV::Scalar(wanted),
    ensures
        ({
            let demand = c.annotations[annotated.0];
            let known = c.apply_annotation(m, annotated, value, TyV::Scalar(found));
            let unknown = c.apply_annotation(m, annotated, value, TyV::Unknown);
            &&& demand.trusted ==> known == (c, TyV::Scalar(wanted))
            &&& unknown.1 == TyV::Scalar(wanted)
            &&& demand.trusted || demand.if_unknown ==> unknown.0 == c
            &&& !demand.trusted && demand.if_unknown ==> {
                &&& known.1 == TyV::Scalar(found)
                &&& known.0.errors.len() == c.errors.len() + 1
                &&& known.0.errors.last().kind is KnownTypeUnderIfUnknown
            }
            &&& !demand.trusted && !demand.if_unknown ==> {
                &&& known.1 == TyV::Scalar(wanted)
                &&& known.0.errors.len() == c.errors.len() + if found == wanted || table::promotes(
                    found,
                    wanted,
                ) {
                    0int
                } else {
                    1int
                }
            }
        }),
{
    compatible::leaves_resolve_to_themselves(c.table, TyV::Scalar(found));
    compatible::leaves_resolve_to_themselves(c.table, TyV::Scalar(wanted));
    compatible::leaves_resolve_to_themselves(c.table, TyV::Unknown);
    compatible::scalars_widen_one_way(c.table, found, wanted);
    compatible::unknown_fits_everything(c.table, TyV::Scalar(wanted));
}

/// A definition exports what is declared for it, as declared; without a
/// declaration it exports what is inferred, generalized. A declaration for
/// unknown values counts only where nothing is inferred.
pub proof fn a_definition_exports_its_declaration(
    c: CheckV,
    m: Module,
    value: ExprId,
    ty: TyV,
    demand: DemandV,
)
    requires
        demand.introduced is None,
    ensures
        c.definition_scheme(m, value, ty, None) == (c, c.table.generalize(ty), false),
        demand.declared is None ==> c.definition_scheme(m, value, ty, Some(demand)) == (
            c,
            c.table.generalize(ty),
            false,
        ),
        demand.declared is Some && !demand.if_unknown ==> {
            let outcome = c.definition_scheme(m, value, ty, Some(demand));
            &&& outcome.1 == demand.declared->0
            &&& outcome.2
            &&& demand.trusted ==> outcome.0 == c
        },
        demand.declared is Some && demand.if_unknown ==> {
            let outcome = c.definition_scheme(m, value, ty, Some(demand));
            &&& c.table.resolve(ty) is Unknown ==> outcome.0 == c && outcome.1
                == demand.declared->0
            &&& c.table.resolve(ty) !is Unknown ==> outcome.1 == c.table.generalize(ty)
                && outcome.0.errors.len() == c.errors.len() + 1
            &&& !outcome.2
        },
{
}

/// A declared signature is one that is a function and is not merely trusted.
pub proof fn a_signature_is_a_checked_function(demand: DemandV)
    ensures
        check::declared_signature(None) is None,
        check::declared_signature(Some(demand)) is Some <==> !demand.trusted && demand.declared
            is Some && (demand.declared->0).body is Function,
        check::declared_signature(Some(demand)) is Some ==> check::declared_signature(Some(demand))
            == demand.declared,
{
}

/// What is exported after an error is the declaration, or nothing that is known;
/// without an error it is the scheme, closed.
pub proof fn errors_leave_only_declarations(c: CheckV, scheme: SchemeV, is_declared: bool)
    ensures
        c.errors.len() == 0 || is_declared ==> c.exported(Some((scheme, is_declared))) == Some(
            c.table.close_scheme(scheme),
        ),
        c.errors.len() > 0 && !is_declared ==> (c.exported(Some((scheme, is_declared)))->0).body
            == TyV::Unknown && (c.exported(Some((scheme, is_declared)))->0).binders.len() == 0,
        c.exported(None) is None,
{
}

/// The top-level names of an item that hold something are exported, in order,
/// and no others are.
pub proof fn the_written_top_level_names_are_exported(
    c: CheckV,
    bindings: Seq<BindingV>,
    upto: nat,
    name: Seq<char>,
)
    requires
        upto <= bindings.len() <= u32::MAX,
    ensures
        (exists|k: int|
            0 <= k < c.exported_slots(bindings, upto).len() && (#[trigger] c.exported_slots(
                bindings,
                upto,
            )[k]).0 == name) <==> exists|i: int|
            0 <= i < upto && (#[trigger] bindings[i]).kind == BindingKind::TopLevel
                && bindings[i].name == name && c.env.get(i as u32) is Some,
    decreases upto,
{
    if upto > 0 {
        the_written_top_level_names_are_exported(c, bindings, (upto - 1) as nat, name);
        let before = c.exported_slots(bindings, (upto - 1) as nat);
        let all = c.exported_slots(bindings, upto);
        let last = bindings[upto - 1];
        let own = last.kind == BindingKind::TopLevel && c.env.get((upto - 1) as u32) is Some;
        if exists|k: int| 0 <= k < all.len() && (#[trigger] all[k]).0 == name {
            let k = choose|k: int| 0 <= k < all.len() && (#[trigger] all[k]).0 == name;
            if k < before.len() {
                assert(before[k] == all[k]);
            } else {
                assert(bindings[upto - 1].name == name);
            }
        }
        if exists|k: int| 0 <= k < before.len() && (#[trigger] before[k]).0 == name {
            let k = choose|k: int| 0 <= k < before.len() && (#[trigger] before[k]).0 == name;
            assert(all[k] == before[k]);
        }
        if own && last.name == name {
            assert(all[before.len() as int].0 == name);
        }
    }
}

proof fn formal_is_first(named: Seq<ParameterV>, name: Seq<char>, from: int)
    requires
        0 <= from <= named.len(),
    ensures
        match crate::calls::formal_at(named, name, from) {
            Some(i) => from <= i < named.len() && named[i].name == name && forall|k: int|
                from <= k < i ==> (#[trigger] named[k]).name != name,
            None => forall|k: int| from <= k < named.len() ==> (#[trigger] named[k]).name != name,
        },
    decreases named.len() - from,
{
    if from < named.len() {
        formal_is_first(named, name, from + 1);
    }
}

/// A formal takes the type that is declared under its name, which is then used;
/// where none is, it takes the next type that is declared by position.
pub proof fn a_formal_takes_its_declared_type(
    paired: PairedV,
    signature: FunctionV,
    name: Seq<char>,
    i: int,
)
    requires
        paired.used.len() == signature.named.len(),
        0 <= paired.positional,
    ensures
        0 <= i < signature.named.len() && signature.named[i].name == name && (forall|k: int|
            0 <= k < i ==> (#[trigger] signature.named[k]).name != name) ==> {
            let (ty, after) = paired.claim(signature, name);
            &&& ty == Some(signature.named[i].ty)
            &&& after.used[i]
            &&& after.positional == paired.positional
        },
        (forall|k: int| 0 <= k < signature.named.len() ==> (#[trigger] signature.named[k]).name
            != name) ==> {
            let (ty, after) = paired.claim(signature, name);
            &&& after.used == paired.used
            &&& paired.positional < signature.positional.len() ==> ty == Some(
                signature.positional[paired.positional],
            ) && after.positional == paired.positional + 1
            &&& paired.positional >= signature.positional.len() ==> ty is None && after == paired
        },
{
    formal_is_first(signature.named, name, 0);
    if 0 <= i < signature.named.len() && signature.named[i].name == name {
        let found = crate::calls::formal_at(signature.named, name, 0);
        assert(found is Some);
    }
}

/// A declared formal that the definition does not have is reported, and no other
/// is.
pub proof fn every_unused_declaration_is_reported(
    range: TextRange,
    signature: FunctionV,
    used: Seq<bool>,
    upto: nat,
    name: Seq<char>,
)
    requires
        upto <= signature.named.len(),
        used.len() == signature.named.len(),
    ensures
        (exists|k: int|
            0 <= k < declared::unused_findings(range, signature, used, upto).len() && (
            #[trigger] declared::unused_findings(range, signature, used, upto)[k]).kind == (
            TypeErrorKindV::AnnotationParameterMismatch { name })) <==> exists|i: int|
            0 <= i < upto && !(#[trigger] used[i]) && signature.named[i].name == name,
    decreases upto,
{
    if upto > 0 {
        every_unused_declaration_is_reported(range, signature, used, (upto - 1) as nat, name);
        let before = declared::unused_findings(range, signature, used, (upto - 1) as nat);
        let all = declared::unused_findings(range, signature, used, upto);
        let wanted = TypeErrorKindV::AnnotationParameterMismatch { name };
        if exists|k: int| 0 <= k < all.len() && (#[trigger] all[k]).kind == wanted {
            let k = choose|k: int| 0 <= k < all.len() && (#[trigger] all[k]).kind == wanted;
            if k < before.len() {
                assert(before[k] == all[k]);
            } else {
                assert(!used[upto - 1]);
            }
        }
        if exists|k: int| 0 <= k < before.len() && (#[trigger] before[k]).kind == wanted {
            let k = choose|k: int| 0 <= k < before.len() && (#[trigger] before[k]).kind == wanted;
            assert(all[k] == before[k]);
        }
        if !used[upto - 1] && signature.named[upto - 1].name == name {
            assert(all[before.len() as int].kind == wanted);
        }
    }
}

/// A formal that is declared as one that must be given, and that the definition
/// lets callers leave out, is reported, and no other is.
pub proof fn every_required_default_is_reported(
    m: Module,
    body: ExprId,
    range: TextRange,
    signature: FunctionV,
    parameters: Seq<Parameter>,
    upto: nat,
    name: Seq<char>,
)
    requires
        upto <= signature.named.len(),
    ensures
        (exists|k: int|
            0 <= k < declared::required_findings(
                m,
                body,
                range,
                signature,
                parameters,
                upto,
            ).len() && (#[trigger] declared::required_findings(
                m,
                body,
                range,
                signature,
                parameters,
                upto,
            )[k]).kind == (TypeErrorKindV::AnnotationRequiredButDefaulted { name })) <==> exists|
            i: int,
        |
            0 <= i < upto && !(#[trigger] signature.named[i]).optional && signature.named[i].name
                == name && declared::may_omit(m, body, parameters, name),
    decreases upto,
{
    if upto > 0 {
        every_required_default_is_reported(
            m,
            body,
            range,
            signature,
            parameters,
            (upto - 1) as nat,
            name,
        );
        let before = declared::required_findings(
            m,
            body,
            range,
            signature,
            parameters,
            (upto - 1) as nat,
        );
        let all = declared::required_findings(m, body, range, signature, parameters, upto);
        let wanted = TypeErrorKindV::AnnotationRequiredButDefaulted { name };
        let last = signature.named[upto - 1];
        if exists|k: int| 0 <= k < all.len() && (#[trigger] all[k]).kind == wanted {
            let k = choose|k: int| 0 <= k < all.len() && (#[trigger] all[k]).kind == wanted;
            if k < before.len() {
                assert(before[k] == all[k]);
            } else {
                assert(!signature.named[upto - 1].optional);
            }
        }
        if exists|k: int| 0 <= k < before.len() && (#[trigger] before[k]).kind == wanted {
            let k = choose|k: int| 0 <= k < before.len() && (#[trigger] before[k]).kind == wanted;
            assert(all[k] == before[k]);
        }
        if !last.optional && last.name == name && declared::may_omit(m, body, parameters, name) {
            assert(all[before.len() as int].kind == wanted);
        }
    }
}

proof fn dots_are_first(parameters: Seq<Parameter>, from: int)
    requires
        0 <= from <= parameters.len(),
    ensures
        match declared::dots_at(parameters, from) {
            Some(i) => from <= i < parameters.len() && parameters[i].name@ == "..."@,
            None => forall|k: int|
                from <= k < parameters.len() ==> (#[trigger] parameters[k]).name@ != "..."@,
        },
    decreases parameters.len() - from,
{
    if from < parameters.len() {
        dots_are_first(parameters, from + 1);
    }
}

/// A definition with `...` that is declared without it disagrees, and so does one
/// without that is declared with it; two without agree.
pub proof fn a_rest_parameter_must_stand_on_both_sides(
    signature: FunctionV,
    parameters: Seq<Parameter>,
)
    ensures
        ({
            let written = exists|i: int|
                0 <= i < parameters.len() && (#[trigger] parameters[i]).name@ == "..."@;
            &&& (signature.variadic is Some) != written ==> declared::rest_differs(
                signature,
                parameters,
            )
            &&& signature.variadic is None && !written ==> !declared::rest_differs(
                signature,
                parameters,
            )
        }),
{
    dots_are_first(parameters, 0);
}

/// Every early return of a known single value that does not fit the declared
/// result is reported where it stands; those that fit are not.
pub proof fn early_returns_are_checked(
    c: CheckV,
    m: Module,
    wanted: Atomic,
    early: Seq<(TyV, TextRange)>,
    from: int,
    failed: bool,
)
    requires
        0 <= from <= early.len(),
        forall|i: int| 0 <= i < early.len() ==> (#[trigger] early[i]).0 is Scalar,
    ensures
        ({
            let (after, any) = c.check_returns(m, TyV::Scalar(wanted), early, from, failed);
            &&& after.table == c.table
            &&& after.errors.len() >= c.errors.len()
            &&& any <==> failed || exists|i: int|
                from <= i < early.len() && !fits((#[trigger] early[i]).0, wanted)
            &&& after.errors.len() > c.errors.len() <==> exists|i: int|
                from <= i < early.len() && !fits((#[trigger] early[i]).0, wanted)
        }),
    decreases early.len() - from,
{
    if from < early.len() {
        let (returned, range) = early[from];
        let found = returned->Scalar_0;
        assert(early[from].0 is Scalar);
        compatible::leaves_resolve_to_themselves(c.table, returned);
        compatible::leaves_resolve_to_themselves(c.table, TyV::Scalar(wanted));
        compatible::scalars_widen_one_way(c.table, found, wanted);
        let next = c.compatible(returned, TyV::Scalar(wanted)).0;
        assert(next == c);
        if fits(returned, wanted) {
            early_returns_are_checked(c, m, wanted, early, from + 1, failed);
        } else {
            let told = c.report(
                checking::type_mismatch(c.table, m, range, TyV::Scalar(wanted), returned, None),
            );
            early_returns_are_checked(told, m, wanted, early, from + 1, true);
            assert(!fits(early[from].0, wanted));
        }
    }
}

/// Whether a single value is of a mode or is promoted to it.
pub open spec fn fits(ty: TyV, wanted: Atomic) -> bool {
    ty is Scalar && (ty->Scalar_0 == wanted || table::promotes(ty->Scalar_0, wanted))
}

/// What a declared function returns is what is declared, whatever its body
/// gives; where nothing is declared of it, what its body gives.
pub proof fn a_declared_result_stands(
    c: CheckV,
    m: Module,
    ret: TyV,
    body: ExprId,
    early: Seq<(TyV, TextRange)>,
    trailing: TyV,
)
    ensures
        ret !is Unknown ==> c.settle_return(m, ret, body, early, trailing).1 == ret,
        ret is Unknown ==> c.settle_return(m, ret, body, early, trailing) == (
            c,
            declared::returned_type(c.table, early, trailing),
        ),
{
}

/// A default of `NULL` for a formal of one mode is refused under a finding of its
/// own.
pub proof fn a_null_default_is_refused(
    c: CheckV,
    m: Module,
    name: Seq<char>,
    wanted: Atomic,
    default: ExprId,
)
    requires
        c.table.binders.len() == 0,
    ensures
        ({
            let after = c.check_default(m, name, TyV::Scalar(wanted), default, TyV::Null);
            &&& after.errors.len() == c.errors.len() + 1
            &&& after.errors.last().kind == (TypeErrorKindV::NullDefaultNotAdmitted {
                name,
                declared: TyV::Scalar(wanted),
            })
        }),
{
    compatible::leaves_resolve_to_themselves(c.table, TyV::Null);
    compatible::leaves_resolve_to_themselves(c.table, TyV::Scalar(wanted));
    crate::fitting::null_is_no_value(c.table, wanted);
}

/// A declaration that disagrees with its definition in shape is reported; one that
/// agrees leaves no finding.
pub proof fn a_shape_that_differs_is_reported(
    c: CheckV,
    m: Module,
    body: ExprId,
    range: TextRange,
    signature: FunctionV,
    parameters: Seq<Parameter>,
    paired: PairedV,
)
    ensures
        ({
            let after = c.report_shape(m, body, range, signature, parameters, paired);
            let required = declared::required_findings(
                m,
                body,
                range,
                signature,
                parameters,
                signature.named.len(),
            );
            let unused = declared::unused_findings(
                range,
                signature,
                paired.used,
                signature.named.len(),
            );
            let differs = declared::rest_differs(signature, parameters)
                || declared::optional_differs(m, body, signature, parameters)
                || paired.positional < signature.positional.len();
            after.errors.len() == c.errors.len() + required.len() + unused.len() + if differs {
                1int
            } else {
                0int
            }
        }),
{
}

/// A formal of a declared function keeps its place, and the rest has the element
/// that is declared for it.
pub proof fn a_paired_formal_keeps_its_place(
    paired: PairedV,
    signature: FunctionV,
    formal: ParameterV,
    own: TyV,
)
    ensures
        paired.with_formal(formal, true).named == paired.named.push(formal),
        paired.with_formal(formal, true).types == paired.types.push((formal.ty, true)),
        signature.variadic is Some ==> (paired.with_rest(signature, own).variadic->0).element == (
        signature.variadic->0).element,
        signature.variadic is None ==> (paired.with_rest(signature, own).variadic->0).element
            is Any,
        paired.with_rest(signature, own).named == paired.named,
{
}

} // verus!
