//! Unification and compatibility over an inference table.

use std::rc::Rc;

use semantics::annotations::NamedDefinition;
use semantics::infer::{apply_definition, Entry, InferenceTable, UnifyError, Vocabulary};
use semantics::pairing::{parameter_variances, record_occurrences};
use semantics::table::Variance;
use semantics::type_ops::{null, scalar, union_of, unknown};
use semantics::types::{
    Atomic, Constraint, FunctionType, InferenceVar, Name, Parameter, RecordField, Ty, TyKind,
};

fn table() -> InferenceTable {
    InferenceTable::new(Rc::new(Vocabulary::empty()))
}

fn named(name: &str) -> Ty {
    Ty::new(TyKind::Named(Name::new(name.to_string()), Vec::new()))
}

fn declaring(definition: NamedDefinition) -> Vocabulary {
    let mut vocabulary = Vocabulary::empty();
    vocabulary
        .definitions
        .insert(definition.name.text().to_string(), definition);
    vocabulary
}

#[test]
fn unify_binds_and_resolves() {
    let mut table = table();
    let var = table.fresh_ty(Constraint::Unconstrained);
    let int = scalar(Atomic::Integer);
    table.unify(&var, &int).expect("binds");
    assert_eq!(table.resolve(&var), int);
}

#[test]
fn occurs_check_refuses_infinite_types() {
    let mut table = table();
    let var = table.fresh(Constraint::Unconstrained);
    let var_ty = Ty::new(TyKind::Var(var));
    let list = Ty::new(TyKind::List(var_ty.clone()));
    assert!(matches!(
        table.unify(&var_ty, &list),
        Err(UnifyError::Occurs(..))
    ));
}

#[test]
fn constraint_joins_through_redirects() {
    let mut table = table();
    let a = table.fresh(Constraint::Numeric);
    let b = table.fresh(Constraint::AtomicElement);
    let a_ty = Ty::new(TyKind::Var(a));
    let b_ty = Ty::new(TyKind::Var(b));
    table.unify(&a_ty, &b_ty).expect("redirects");
    let Entry::Unbound { constraint, .. } = *table.entry(a) else {
        panic!("representative stays unbound")
    };
    assert_eq!(constraint, Constraint::ScalarNumeric);
    // A character scalar now violates the joined constraint.
    let chr = scalar(Atomic::Character);
    assert!(table.unify(&a_ty, &chr).is_err());
}

#[test]
fn rollback_reverts_probes_completely() {
    let mut table = table();
    let outer = table.fresh_ty(Constraint::Unconstrained);
    let snapshot = table.snapshot();
    let probe = table.fresh_ty(Constraint::Unconstrained);
    table.unify(&outer, &probe).expect("unifies");
    table
        .unify(&probe, &scalar(Atomic::Double))
        .expect("binds");
    assert_eq!(table.resolve(&outer), scalar(Atomic::Double));
    table.rollback(snapshot);
    // The pre-probe variable is unbound again.
    assert!(matches!(
        table.entry(InferenceVar(0)),
        Entry::Unbound { .. }
    ));
    assert!(matches!(table.resolve(&outer).kind(), TyKind::Var(_)));
}

#[test]
fn unions_unify_by_set_equality_and_nullable_case() {
    let mut table = table();
    let int = scalar(Atomic::Integer);
    let chr = scalar(Atomic::Character);
    let null = null();
    let a = union_of(&vec![int.clone(), chr.clone()]);
    let b = union_of(&vec![chr.clone(), int.clone()]);
    assert!(table.unify(&a, &b).is_ok());

    // `T | NULL` vs `integer | NULL` binds T to integer.
    let var = table.fresh_ty(Constraint::Unconstrained);
    let left = union_of(&vec![var.clone(), null.clone()]);
    let right = union_of(&vec![int.clone(), null.clone()]);
    table
        .unify(&left, &right)
        .expect("nullable member-wise case");
    assert_eq!(table.resolve(&var), int);

    // Distinct non-nullable unions refuse.
    let c = union_of(&vec![int, null.clone()]);
    let d = union_of(&vec![chr, null]);
    assert!(table.unify(&c, &d).is_err());
}

#[test]
fn compatibility_widens_and_coerces_directionally() {
    let mut table = table();
    let int = scalar(Atomic::Integer);
    let dbl = scalar(Atomic::Double);
    let chr = scalar(Atomic::Character);
    // Directional widening: integer fits double, never the reverse.
    assert!(table.compatible(&int, &dbl));
    assert!(!table.compatible(&dbl, &int));
    // A scalar coerces into a vector position, with widening inside.
    let dbl_vec = Ty::new(TyKind::Vector(dbl.clone()));
    assert!(table.compatible(&int, &dbl_vec));
    assert!(!table.compatible(&chr, &dbl_vec));
    // Unification never widens.
    assert!(table.unify(&int, &dbl).is_err());
}

#[test]
fn compatibility_binds_generic_elements_and_prefers_concrete_members() {
    let mut table = table();
    let int = scalar(Atomic::Integer);
    let null = null();
    // `sort(c(1L))`-shape: a scalar into `T[]` binds `T := integer`.
    let element = table.fresh_ty(Constraint::Unconstrained);
    let generic_vector = Ty::new(TyKind::Vector(element.clone()));
    assert!(table.compatible(&int, &generic_vector));
    assert_eq!(table.resolve(&element), int);
    // `NULL` into an instantiated `T | NULL` must match the concrete
    // `NULL` member and bind nothing, leaving `T` for a later argument.
    let t = table.fresh_ty(Constraint::Unconstrained);
    let nullable = union_of(&vec![t.clone(), null.clone()]);
    assert!(table.compatible(&null, &nullable));
    assert!(matches!(table.resolve(&t).kind(), TyKind::Var(_)));
}

#[test]
fn compatibility_fails_pure_and_pairs_function_formals_by_name() {
    let mut table = table();
    let int = scalar(Atomic::Integer);
    let chr = scalar(Atomic::Character);
    // A failing check must leak no bindings.
    let var = table.fresh_ty(Constraint::Unconstrained);
    let tuple_with_var = Ty::new(TyKind::Tuple(vec![var.clone(), chr]));
    let tuple_expected = Ty::new(TyKind::Tuple(vec![int.clone(), int.clone()]));
    assert!(!table.compatible(&tuple_with_var, &tuple_expected));
    assert!(matches!(table.resolve(&var).kind(), TyKind::Var(_)));
    // A lambda carrying named formals fits a positional interface: the
    // unnamed expected parameter pairs positionally (contravariant).
    let named_lambda = Ty::new(TyKind::Function(FunctionType {
        positional: Vec::new(),
        named: vec![Parameter {
            name: Name::new("x".to_string()),
            ty: int.clone(),
            optional: false,
            default: None,
        }],
        variadic: None,
        ret: int.clone(),
    }));
    let positional_interface = Ty::new(TyKind::Function(FunctionType {
        positional: vec![int],
        named: Vec::new(),
        variadic: None,
        ret: scalar(Atomic::Double),
    }));
    assert!(table.compatible(&named_lambda, &positional_interface));
}

#[test]
fn any_and_unknown_are_compatible_with_everything() {
    let mut table = table();
    let int = scalar(Atomic::Integer);
    let any = Ty::new(TyKind::Any);
    for ty in vec![any, unknown()] {
        assert!(table.compatible(&ty, &int));
        assert!(table.compatible(&int, &ty));
        assert!(table.unify(&ty, &int).is_ok());
    }
}

#[test]
fn resolving_twice_changes_nothing() {
    let mut table = table();
    let a = table.fresh_ty(Constraint::Unconstrained);
    let b = table.fresh_ty(Constraint::Unconstrained);
    let list = Ty::new(TyKind::List(b.clone()));
    table.unify(&a, &list).expect("binds");
    table.unify(&b, &scalar(Atomic::Raw)).expect("binds");
    let once = table.resolve(&a);
    assert_eq!(once, Ty::new(TyKind::List(scalar(Atomic::Raw))));
    assert_eq!(table.resolve(&once), once);
}

#[test]
fn constraints_refuse_what_does_not_satisfy_them() {
    let mut table = table();
    let var = table.fresh_ty(Constraint::Numeric);
    let chr = scalar(Atomic::Character);
    match table.unify(&var, &chr) {
        Err(UnifyError::ConstraintRejected(constraint, found)) => {
            assert_eq!(constraint, Constraint::Numeric);
            assert_eq!(found, chr);
        }
        other => panic!("expected a rejected constraint, got {:?}", other),
    }
    assert!(matches!(
        table.unify(&scalar(Atomic::Logical), &chr),
        Err(UnifyError::Mismatch(..))
    ));
}

#[test]
fn applying_a_definition_fills_its_parameters() {
    let t = Name::new("T".to_string());
    let definition = NamedDefinition {
        alias: true,
        name: Name::new("Pair".to_string()),
        parameters: vec![t.clone()],
        body: Ty::new(TyKind::Tuple(vec![
            Ty::new(TyKind::Rigid(t.clone())),
            Ty::new(TyKind::Rigid(t)),
        ])),
    };
    let int = scalar(Atomic::Integer);
    assert_eq!(
        apply_definition(&definition, &vec![int.clone()]),
        Ty::new(TyKind::Tuple(vec![int.clone(), int]))
    );
}

#[test]
fn variances_follow_where_a_parameter_stands() {
    let names: Vec<Name> = ["In", "Out", "Both", "None"]
        .iter()
        .map(|name| Name::new(name.to_string()))
        .collect();
    let rigid = |i: usize| Ty::new(TyKind::Rigid(names[i].clone()));
    let definition = NamedDefinition {
        alias: false,
        name: Name::new("Mapper".to_string()),
        parameters: names.clone(),
        body: Ty::new(TyKind::Record(vec![
            RecordField {
                name: Name::new("run".to_string()),
                ty: Ty::new(TyKind::Function(FunctionType {
                    positional: vec![rigid(0), rigid(2)],
                    named: Vec::new(),
                    variadic: None,
                    ret: rigid(1),
                })),
                optional: false,
            },
            RecordField {
                name: Name::new("held".to_string()),
                ty: rigid(2),
                optional: false,
            },
        ])),
    };
    let variances = parameter_variances(&definition);
    assert_eq!(variances[0], Variance::Contravariant);
    assert_eq!(variances[1], Variance::Covariant);
    assert_eq!(variances[2], Variance::Invariant);
    assert_eq!(variances[3], Variance::Bivariant);
    assert_eq!(variances.len(), 4);
}

#[test]
fn a_nominal_projects_to_its_representation_and_not_back() {
    let int = scalar(Atomic::Integer);
    let vocabulary = declaring(NamedDefinition {
        alias: false,
        name: Name::new("Count".to_string()),
        parameters: Vec::new(),
        body: int.clone(),
    });
    let mut table = InferenceTable::new(Rc::new(vocabulary));
    assert!(table.compatible(&named("Count"), &int));
    assert!(!table.compatible(&int, &named("Count")));
}

#[test]
fn every_type_is_compatible_with_itself() {
    let mut table = table();
    let var = table.fresh_ty(Constraint::Numeric);
    for ty in vec![
        scalar(Atomic::Raw),
        null(),
        Ty::new(TyKind::List(var.clone())),
        union_of(&vec![var.clone(), null()]),
    ] {
        assert!(table.compatible(&ty, &ty));
        assert!(table.unify(&ty, &ty).is_ok());
    }
    assert!(matches!(table.resolve(&var).kind(), TyKind::Var(_)));
}

#[test]
fn joining_constraints_is_a_semilattice() {
    let all = [
        Constraint::Unconstrained,
        Constraint::Numeric,
        Constraint::AtomicElement,
        Constraint::ScalarNumeric,
    ];
    for a in all {
        assert_eq!(a.join(a), a);
        for b in all {
            assert_eq!(a.join(b), b.join(a));
        }
    }
    assert_eq!(
        Constraint::Numeric.join(Constraint::AtomicElement),
        Constraint::ScalarNumeric
    );
}

fn point(x: Ty, y: Ty) -> Ty {
    let field = |name: &str, ty: Ty| RecordField {
        name: Name::new(name.to_string()),
        ty,
        optional: false,
    };
    Ty::new(TyKind::Record(vec![field("x", x), field("y", y)]))
}

#[test]
fn unified_types_resolve_alike_whichever_comes_first() {
    let run = |exchanged: bool| {
        let mut table = table();
        let a = table.fresh_ty(Constraint::Unconstrained);
        let b = table.fresh_ty(Constraint::Numeric);
        let c = table.fresh_ty(Constraint::Unconstrained);
        let left = point(a.clone(), Ty::new(TyKind::List(b.clone())));
        let right = point(Ty::new(TyKind::Tuple(vec![b.clone(), c.clone()])), c.clone());
        let outcome = if exchanged {
            table.unify(&right, &left)
        } else {
            table.unify(&left, &right)
        };
        assert!(outcome.is_ok());
        assert_eq!(table.resolve(&left), table.resolve(&right));
        table.resolve(&left)
    };
    let list = Ty::new(TyKind::List(Ty::new(TyKind::Var(InferenceVar(1)))));
    let expected = point(
        Ty::new(TyKind::Tuple(vec![
            Ty::new(TyKind::Var(InferenceVar(1))),
            list.clone(),
        ])),
        list,
    );
    assert_eq!(run(false), expected);
    assert_eq!(run(true), expected);
    // Unions whose members have become the same are that member.
    let mut table = table();
    let int = scalar(Atomic::Integer);
    let v = table.fresh_ty(Constraint::Unconstrained);
    let w = table.fresh_ty(Constraint::Unconstrained);
    let left = Ty::new(TyKind::Union(vec![v.clone(), int.clone()]));
    let right = Ty::new(TyKind::Union(vec![w.clone(), w.clone()]));
    table.unify(&v, &int).expect("binds");
    table.unify(&left, &right).expect("unifies");
    assert_eq!(table.resolve(&left), int);
    assert_eq!(table.resolve(&right), int);
    // A refusal is one either way.
    let pair = Ty::new(TyKind::Tuple(vec![null(), null()]));
    let single = Ty::new(TyKind::Tuple(vec![null()]));
    assert!(table.unify(&pair, &single).is_err());
    assert!(table.unify(&single, &pair).is_err());
}

#[test]
fn a_parameter_position_flips_the_variance() {
    let parameter = Name::new("T".to_string());
    let rigid = Ty::new(TyKind::Rigid(parameter.clone()));
    let takes = |argument: Ty| {
        Ty::new(TyKind::Function(FunctionType {
            positional: vec![argument],
            named: Vec::new(),
            variadic: None,
            ret: null(),
        }))
    };
    let variance = |body: Ty| {
        parameter_variances(&NamedDefinition {
            alias: false,
            name: Name::new("D".to_string()),
            parameters: vec![parameter.clone(), Name::new("U".to_string())],
            body,
        })
    };
    let once = takes(rigid.clone());
    let twice = takes(once.clone());
    let both = Ty::new(TyKind::Tuple(vec![rigid.clone(), once.clone()]));
    assert_eq!(variance(rigid), [Variance::Covariant, Variance::Bivariant]);
    assert_eq!(variance(once), [Variance::Contravariant, Variance::Bivariant]);
    assert_eq!(variance(twice), [Variance::Covariant, Variance::Bivariant]);
    assert_eq!(variance(both.clone()), [Variance::Invariant, Variance::Bivariant]);
    assert_eq!(variance(takes(both)), [Variance::Invariant, Variance::Bivariant]);
}

#[test]
fn unbound_variables_are_sought_in_the_resolved_type() {
    // An alias that does not mention its parameter drops the argument.
    let vocabulary = declaring(NamedDefinition {
        alias: true,
        name: Name::new("Only".to_string()),
        parameters: vec![Name::new("T".to_string())],
        body: scalar(Atomic::Integer),
    });
    let mut table = InferenceTable::new(Rc::new(vocabulary));
    let var = table.fresh_ty(Constraint::Unconstrained);
    let list = Ty::new(TyKind::List(var.clone()));
    let only = Ty::new(TyKind::Named(
        Name::new("Only".to_string()),
        vec![var.clone()],
    ));
    assert!(table.contains_unbound_var(&list));
    assert!(!table.contains_unbound_var(&only));
    table.unify(&var, &null()).expect("binds");
    assert!(!table.contains_unbound_var(&list));
}

#[test]
fn occurrences_are_recorded_alike_with_positions_and_marks_exchanged() {
    let names: Vec<Name> = ["A", "B", "C", "D"]
        .iter()
        .map(|name| Name::new(name.to_string()))
        .collect();
    let rigid = |i: usize| Ty::new(TyKind::Rigid(names[i].clone()));
    // `A` is passed in, `B` comes back, `C` does both, `D` does not occur.
    let ty = Ty::new(TyKind::Function(FunctionType {
        positional: vec![rigid(0), rigid(2)],
        named: Vec::new(),
        variadic: None,
        ret: Ty::new(TyKind::Tuple(vec![rigid(1), rigid(2)])),
    }));
    let (mut p, mut n) = (vec![false, false, false, true], vec![false; 4]);
    record_occurrences(&ty, &names, true, &mut p, &mut n);
    assert_eq!(p, [false, true, true, true]);
    assert_eq!(n, [true, false, true, false]);
    let (mut q, mut m) = (vec![false, false, false, true], vec![false; 4]);
    record_occurrences(&ty, &names, false, &mut m, &mut q);
    assert_eq!((q, m), (p, n));
}
