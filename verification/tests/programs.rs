//! Whole programs: lowering, naming and checking of items.

use std::rc::Rc;

use rustc_hash::FxHashMap;

use semantics::annotations::{Annotation, NamedDefinition};
use semantics::blocks::{block_refusal, BlockRefusal};
use semantics::casing::{cases_of, naming_style_message, to_camel_case, to_snake_case, NameStyle};
use semantics::check::{check_item, check_item_with_annotation, ItemCheck};
use semantics::findings::{OperandExpectation, StrictOriginKind, TypeErrorKind};
use semantics::globals::{KnownName, KnownNames, NamespaceStub, StubCorpus};
use semantics::hir::{ExprId, ExpressionKind, LiteralKind, Module};
use semantics::infer::Vocabulary;
use semantics::lints::{lint_file, LintConfig, LintItem, LintLevel, Severity};
use semantics::lowering::lower_item;
use semantics::metadata::{
    attached_union, declared_dependency, file_attached_namespaces, imported_bare,
    imported_by_name, imports_every_name, is_own_package, namespace_active, normalized_imports,
    parse_namespace_exports, parse_namespace_imports, MetaPackage, PackageMetadata,
};
use semantics::naming::{resolve_item, resolve_item_with_masked_verbs, ItemNaming};
use semantics::numbers::{integer_literal_position, is_whole_number_double};
use semantics::reading::lower_annotation;
use semantics::schemes::TypeScheme;
use semantics::syntax::{SyntaxElement, SyntaxKind, SyntaxNode, SyntaxToken, TextRange};
use semantics::type_ops::{child_types, null, scalar, unknown};
use semantics::types::{
    Atomic, Constraint, FunctionType, Name, Parameter, RecordField, Ty, TyKind,
};
use semantics::walk::BindingKind;

fn check_source(source: &str) -> ItemCheck {
    let root = parse(source);
    let item = child(&root, |_| true).expect("one top-level item");
    let module = lower_item(item);
    let naming = resolve_item(&module);
    check_item(&module, &naming, &StubCorpus::absent())
}

fn check_annotated(source: &str) -> ItemCheck {
    let root = parse(source);
    let annotation =
        child(&root, |kind| kind == SyntaxKind::Annotation).map(|node| lower_annotation(node));
    let item = child(&root, |kind| kind.expression()).expect("one top-level item");
    let module = lower_item(item);
    let naming = resolve_item(&module);
    let none: Option<&KnownNames> = None;
    check_item_with_annotation(
        &module,
        &naming,
        annotation.as_ref(),
        &Vec::new(),
        none,
        &StubCorpus::absent(),
    )
}

fn naming_of(source: &str) -> ItemNaming {
    let root = parse(source);
    let item = child(&root, |_| true).expect("one top-level item");
    let module = lower_item(item);
    resolve_item(&module)
}

fn scheme_ret(check: &ItemCheck) -> &Ty {
    let scheme = check.scheme.as_ref().expect("scheme");
    let TyKind::Function(function) = scheme.body.kind() else {
        panic!("expected a function scheme");
    };
    &function.ret
}

#[test]
fn arithmetic_generalizes_with_numeric_constraint() {
    let check = check_source("add <- function(x) x + 1L");
    assert!(check.errors.is_empty(), "{:?}", check.errors);
    let scheme = check.scheme.expect("definition scheme");
    // `<T: numeric> fn(x: T) -> T`.
    assert_eq!(scheme.binders.len(), 1);
    assert_eq!(scheme.binders[0].1, Constraint::Numeric);
    let TyKind::Function(function) = scheme.body.kind() else {
        panic!("expected a function scheme");
    };
    // Formals carry their names (R matches by name and position).
    assert_eq!(function.named.len(), 1);
    assert_eq!(function.named[0].name.text(), "x");
    assert_eq!(function.named[0].ty, function.ret);
}

#[test]
fn call_mismatch_reports() {
    let check = check_source(
        "g <- function() {\n  f <- function(x) x + 1\n  f(\"txt\")\n}",
    );
    assert!(
        check.errors.iter().any(|error| matches!(
            error.kind,
            TypeErrorKind::ConstraintViolation {
                constraint: Constraint::Numeric,
                ..
            }
        )),
        "expected a numeric-constraint violation, got {:?}",
        check.errors
    );
}

#[test]
fn polymorphic_reuse_across_calls() {
    let check = check_source(
        "use <- function() {\n  id <- function(x) x\n  id(1L)\n  id(\"s\")\n}",
    );
    assert!(
        check.errors.is_empty(),
        "let-polymorphism failed: {:?}",
        check.errors
    );
}

#[test]
fn if_join_unifies_or_unions() {
    // NULL branch joins by union, never binding the variable.
    let check = check_source("pick <- function(f) if (f) 1L else NULL");
    assert!(check.errors.is_empty());
    let scheme = check.scheme.expect("scheme");
    let TyKind::Function(function) = scheme.body.kind() else {
        panic!()
    };
    let TyKind::Union(members) = function.ret.kind() else {
        panic!("expected integer | NULL, got {:?}", function.ret.kind());
    };
    assert_eq!(members.len(), 2);
}

#[test]
fn unknown_named_argument_reports() {
    let check = check_source(
        "g <- function() {\n  f <- function(x) x\n  f(z = 1)\n}",
    );
    assert!(
        check.errors.iter().any(|error| matches!(
            &error.kind,
            TypeErrorKind::NamedArgumentMismatch { argument, .. } if argument == "z"
        )),
        "expected a named-argument mismatch, got {:?}",
        check.errors
    );
}

#[test]
fn for_loops_bind_the_element_and_reach_a_fixed_point() {
    // The idiomatic accumulator is clean and stays integer.
    let accumulator = check_source(
        "f <- function() {\n  total <- 0L\n  for (i in 1:3) {\n    total <- total + i\n  }\n  total\n}",
    );
    assert!(accumulator.errors.is_empty(), "{:?}", accumulator.errors);
    assert_eq!(*scheme_ret(&accumulator), scalar(Atomic::Integer));
    // A heterogeneous fixed-shape list binds the union of item types.
    let heterogeneous = check_source(
        "f <- function() {\n  out <- 1L\n  for (item in list(2L, \"a\")) {\n    out <- item\n  }\n  out\n}",
    );
    assert!(
        heterogeneous.errors.is_empty(),
        "{:?}",
        heterogeneous.errors
    );
    assert!(matches!(
        scheme_ret(&heterogeneous).kind(),
        TyKind::Union(members) if members.len() == 2
    ));
    // A function is not iterable.
    let bad = check_source(
        "f <- function() {\n  g <- function() 1L\n  for (i in g) i\n}",
    );
    assert!(
        bad.errors
            .iter()
            .any(|error| matches!(error.kind, TypeErrorKind::NotIterable { .. })),
        "{:?}",
        bad.errors
    );
}

#[test]
fn while_condition_checks_inside_the_fixed_point() {
    let check = check_source(
        "f <- function() {\n  done <- FALSE\n  while (!done) {\n    done <- TRUE\n  }\n  done\n}",
    );
    assert!(check.errors.is_empty(), "{:?}", check.errors);
}

#[test]
fn repeat_applies_the_exit_state() {
    let check = check_source(
        "f <- function() {\n  repeat {\n    x <- 1L\n    break\n  }\n  x + 1L\n}",
    );
    assert!(check.errors.is_empty(), "{:?}", check.errors);
}

#[test]
fn replacement_writes_update_the_base_slot() {
    // A known-field write replaces the field's type.
    let replaced = check_source(
        "f <- function() {\n  p <- list(a = 1L)\n  p$a <- \"s\"\n  p$a\n}",
    );
    assert!(replaced.errors.is_empty(), "{:?}", replaced.errors);
    assert_eq!(*scheme_ret(&replaced), scalar(Atomic::Character));
    // A fresh field is added; an empty list() starts a record.
    let added = check_source(
        "f <- function() {\n  p <- list()\n  p$b <- TRUE\n  p$b\n}",
    );
    assert!(added.errors.is_empty(), "{:?}", added.errors);
    assert_eq!(*scheme_ret(&added), scalar(Atomic::Logical));
    // A computed-key write turns an empty list map-like.
    let computed = check_source(
        "f <- function(key) {\n  m <- list()\n  m[[key]] <- 1L\n  m[[key]]\n}",
    );
    assert!(computed.errors.is_empty(), "{:?}", computed.errors);
    assert_eq!(*scheme_ret(&computed), scalar(Atomic::Integer));
    // A replacement-function call keeps the base's type.
    let kept = check_source(
        "f <- function() {\n  v <- c(1L, 2L)\n  names(v) <- c(\"a\", \"b\")\n  v + 1L\n}",
    );
    assert!(kept.errors.is_empty(), "{:?}", kept.errors);
}

#[test]
fn early_returns_union_with_the_trailing_value() {
    let check = check_source("f <- function(c) {\n  if (c) return(\"foo\")\n  5\n}");
    assert!(check.errors.is_empty(), "{:?}", check.errors);
    let TyKind::Union(members) = scheme_ret(&check).kind() else {
        panic!(
            "expected character | double, got {:?}",
            scheme_ret(&check).kind()
        );
    };
    assert!(members.contains(&scalar(Atomic::Character)));
    assert!(members.contains(&scalar(Atomic::Double)));
}

#[test]
fn diverging_branch_contributes_neither_value_nor_state() {
    // The value: `if (c) return(NULL) else 5` is `double`, not
    // `NULL | double`.
    let value = check_source(
        "f <- function(c) {\n  x <- if (c) return(NULL) else 5\n  x + 1\n}",
    );
    assert!(value.errors.is_empty(), "{:?}", value.errors);
    // The state: a write inside a diverging branch does not join, so the
    // arithmetic below stays clean.
    let state = check_source(
        "f <- function(flag) {\n  x <- 1L\n  if (flag) {\n    x <- \"s\"\n    return(x)\n  }\n  x + 1L\n}",
    );
    assert!(state.errors.is_empty(), "{:?}", state.errors);
}

#[test]
fn null_guard_narrows_the_early_exit_idiom() {
    let check = check_annotated(
        "#: fn(x: integer | NULL) -> integer\nf <- function(x) {\n  if (is.null(x)) {\n    return(0L)\n  }\n  x + 1L\n}",
    );
    assert!(check.errors.is_empty(), "{:?}", check.errors);
}

#[test]
fn null_guard_shapes_the_unannotated_coalesce_idiom() {
    let check = check_source(
        "coalesce <- function(value, fallback) if (is.null(value)) fallback else value",
    );
    assert!(check.errors.is_empty(), "{:?}", check.errors);
    // `<T> fn(value: T | NULL, fallback: T) -> T`.
    let scheme = check.scheme.as_ref().expect("scheme");
    assert_eq!(scheme.binders.len(), 1, "{scheme:?}");
    let TyKind::Function(function) = scheme.body.kind() else {
        panic!()
    };
    assert!(matches!(function.ret.kind(), TyKind::Rigid(_)));
    assert_eq!(function.named[1].ty, function.ret, "fallback ties to T");
    let TyKind::Union(members) = function.named[0].ty.kind() else {
        panic!("value must be T | NULL, got {:?}", function.named[0].ty);
    };
    assert!(members.contains(&function.ret));
    assert!(members.contains(&null()));
}

#[test]
fn family_guard_filters_union_members() {
    let check = check_source(
        "f <- function(flag) {\n  y <- if (flag) 1L else \"a\"\n  if (is.character(y)) y else \"z\"\n}",
    );
    assert!(check.errors.is_empty(), "{:?}", check.errors);
    assert_eq!(
        *scheme_ret(&check),
        scalar(Atomic::Character),
        "the true edge must narrow y to character"
    );
}

#[test]
fn arithmetic_ties_two_flexible_operands() {
    // `<T: numeric> fn(a: T, b: T) -> T`: one binder shared by all three.
    let check = check_source("add <- function(a, b) a + b");
    assert!(check.errors.is_empty(), "{:?}", check.errors);
    let scheme = check.scheme.expect("scheme");
    assert_eq!(scheme.binders.len(), 1, "{scheme:?}");
    let TyKind::Function(function) = scheme.body.kind() else {
        panic!()
    };
    assert_eq!(function.named[0].ty, function.ret);
    assert_eq!(function.named[1].ty, function.ret);
}

#[test]
fn division_is_always_double_and_keeps_the_operand_generic() {
    let check = check_source("half <- function(x) x / 2");
    assert!(check.errors.is_empty(), "{:?}", check.errors);
    let scheme = check.scheme.as_ref().expect("scheme");
    assert_eq!(scheme.binders.len(), 1, "x stays generic: {scheme:?}");
    assert_eq!(*scheme_ret(&check), scalar(Atomic::Double));
}

#[test]
fn arithmetic_shape_rules_over_vectors() {
    // integer[] + integer stays integer[].
    let vector = check_source("f <- function() c(1L, 2L) + 1L");
    assert!(vector.errors.is_empty(), "{:?}", vector.errors);
    assert!(matches!(
        scheme_ret(&vector).kind(),
        TyKind::Vector(element) if *element == scalar(Atomic::Integer)
    ));
    // integer[] / integer promotes to double[].
    let divided = check_source("f <- function() c(1L, 2L) / 2L");
    assert!(divided.errors.is_empty(), "{:?}", divided.errors);
    assert!(matches!(
        scheme_ret(&divided).kind(),
        TyKind::Vector(element) if *element == scalar(Atomic::Double)
    ));
    // `%%` is arithmetic, not an opaque special.
    let modulo = check_source("f <- function() 7L %% 2L");
    assert!(modulo.errors.is_empty(), "{:?}", modulo.errors);
    assert_eq!(*scheme_ret(&modulo), scalar(Atomic::Integer));
    // A non-numeric operand reports the operand, not the whole range.
    let bad = check_source("f <- function() \"a\" + 1L");
    assert!(
        bad.errors.iter().any(|error| matches!(
            error.kind,
            TypeErrorKind::InvalidOperand {
                expected: OperandExpectation::Numeric,
                ..
            }
        )),
        "{:?}",
        bad.errors
    );
}

#[test]
fn colon_yields_integer_sequences_with_double_fallback() {
    let literal = check_source("f <- function() 1:10");
    assert!(literal.errors.is_empty(), "{:?}", literal.errors);
    assert!(matches!(
        scheme_ret(&literal).kind(),
        TyKind::Vector(element) if *element == scalar(Atomic::Integer)
    ));
    // A flexible endpoint may resolve to double, so the claim is double[].
    let flexible = check_source("f <- function(n) 1:n");
    assert!(flexible.errors.is_empty(), "{:?}", flexible.errors);
    assert!(matches!(
        scheme_ret(&flexible).kind(),
        TyKind::Vector(element) if *element == scalar(Atomic::Double)
    ));
}

#[test]
fn comparisons_share_a_family_and_shape_elementwise() {
    // A flexible operand against a numeric partner is constrained.
    let flexible = check_source("positive <- function(x) x > 0L");
    assert!(flexible.errors.is_empty(), "{:?}", flexible.errors);
    let scheme = flexible.scheme.as_ref().expect("scheme");
    assert_eq!(scheme.binders.len(), 1);
    assert_eq!(scheme.binders[0].1, Constraint::Numeric);
    assert_eq!(*scheme_ret(&flexible), scalar(Atomic::Logical));
    // A vector member compares element-wise.
    let vector = check_source("f <- function() c(1L, 2L) > 1L");
    assert!(vector.errors.is_empty(), "{:?}", vector.errors);
    assert!(matches!(
        scheme_ret(&vector).kind(),
        TyKind::Vector(element) if *element == scalar(Atomic::Logical)
    ));
    // Cross-family comparison is a mismatch.
    let mixed = check_source("f <- function() 1L > \"a\"");
    assert!(
        mixed
            .errors
            .iter()
            .any(|error| matches!(error.kind, TypeErrorKind::Mismatch { .. })),
        "{:?}",
        mixed.errors
    );
}

#[test]
fn conditions_coerce_numerics_and_refuse_everything_else() {
    // R coerces a numeric condition (zero false, anything else true), so
    // the `if (length(x))` idiom is not a mistake.
    for source in [
        "f <- function() if (1L) 2L",
        "f <- function() 1L && TRUE",
        "f <- function(x) if (length(x)) 1L else 2L",
        "f <- function() if (2.5) 1L else 2L",
    ] {
        let ok = check_source(source);
        assert!(ok.errors.is_empty(), "{source}: {:?}", ok.errors);
    }
    // A character condition is a runtime error in R for every string but
    // the spellings of TRUE and FALSE, so it stays a type error.
    let bad_condition = check_source("f <- function() if (\"yes\") 2L");
    assert!(
        bad_condition
            .errors
            .iter()
            .any(|error| matches!(error.kind, TypeErrorKind::Mismatch { .. })),
        "{:?}",
        bad_condition.errors
    );
    let ok = check_source("f <- function(a, b) a && b");
    assert!(ok.errors.is_empty(), "{:?}", ok.errors);
}

#[test]
fn unary_operators_preserve_shape() {
    let negated = check_source("f <- function() -c(1L, 2L)");
    assert!(negated.errors.is_empty(), "{:?}", negated.errors);
    assert!(matches!(
        scheme_ret(&negated).kind(),
        TyKind::Vector(element) if *element == scalar(Atomic::Integer)
    ));
    let notted = check_source("f <- function() !c(TRUE, FALSE)");
    assert!(notted.errors.is_empty(), "{:?}", notted.errors);
    assert!(matches!(
        scheme_ret(&notted).kind(),
        TyKind::Vector(element) if *element == scalar(Atomic::Logical)
    ));
    let bad = check_source("f <- function() -\"a\"");
    assert!(
        bad.errors.iter().any(|error| matches!(
            error.kind,
            TypeErrorKind::InvalidOperand {
                expected: OperandExpectation::Numeric,
                ..
            }
        )),
        "{:?}",
        bad.errors
    );
}

#[test]
fn arity_mismatch_reports_both_directions() {
    let surplus = check_source("g <- function() {\n  f <- function(x) x\n  f(1, 2)\n}");
    assert!(
        surplus
            .errors
            .iter()
            .any(|error| matches!(error.kind, TypeErrorKind::ArityMismatch { .. })),
        "expected a surplus-argument arity error, got {:?}",
        surplus.errors
    );
    let missing = check_source("g <- function() {\n  f <- function(x) x\n  f()\n}");
    assert!(
        missing
            .errors
            .iter()
            .any(|error| matches!(error.kind, TypeErrorKind::ArityMismatch { .. })),
        "expected a missing-argument arity error, got {:?}",
        missing.errors
    );
    // A defaulted formal may stay unfilled.
    let defaulted = check_source("g <- function() {\n  f <- function(x = 1) x\n  f()\n}");
    assert!(defaulted.errors.is_empty(), "{:?}", defaulted.errors);
}

#[test]
fn list_builds_fixed_shapes_and_extraction_is_precise() {
    // Literal position on a tuple-like list.
    let tuple = check_source(
        "f <- function() {\n  x <- list(1L, \"a\")\n  x[[1L]]\n}",
    );
    assert!(tuple.errors.is_empty(), "{:?}", tuple.errors);
    assert_eq!(*scheme_ret(&tuple), scalar(Atomic::Integer));
    // Literal field via `$` on a record-like list.
    let record = check_source(
        "f <- function() {\n  p <- list(a = 1L, b = \"s\")\n  p$b\n}",
    );
    assert!(record.errors.is_empty(), "{:?}", record.errors);
    assert_eq!(*scheme_ret(&record), scalar(Atomic::Character));
    // A computed index is the union of the item types.
    let computed = check_source(
        "f <- function(i) {\n  x <- list(1L, \"a\")\n  x[[i]]\n}",
    );
    assert!(computed.errors.is_empty(), "{:?}", computed.errors);
    assert!(matches!(
        scheme_ret(&computed).kind(),
        TyKind::Union(members) if members.len() == 2
    ));
    // `[` slices into a sub-list of the union.
    let slice = check_source("f <- function() {\n  x <- list(1L, \"a\")\n  x[1L]\n}");
    assert!(slice.errors.is_empty(), "{:?}", slice.errors);
    assert!(matches!(
        scheme_ret(&slice).kind(),
        TyKind::List(element) if matches!(element.kind(), TyKind::Union(_))
    ));
}

#[test]
fn index_errors_report_precisely() {
    let out_of_range = check_source(
        "f <- function() {\n  x <- list(1L, \"a\")\n  x[[3L]]\n}",
    );
    assert!(
        out_of_range.errors.iter().any(|error| matches!(
            error.kind,
            TypeErrorKind::PositionDoesNotExist { position: 3, .. }
        )),
        "{:?}",
        out_of_range.errors
    );
    let missing_field =
        check_source("f <- function() {\n  p <- list(a = 1L)\n  p$oops\n}");
    assert!(
        missing_field.errors.iter().any(|error| matches!(
            &error.kind,
            TypeErrorKind::FieldDoesNotExist { field, .. } if field == "oops"
        )),
        "{:?}",
        missing_field.errors
    );
    // R rejects `$` on atomic vectors, named ones included.
    let dollar_atomic = check_source("f <- function() {\n  v <- c(a = 1L)\n  v$a\n}");
    assert!(
        dollar_atomic
            .errors
            .iter()
            .any(|error| matches!(error.kind, TypeErrorKind::DollarOnAtomicVector { .. })),
        "{:?}",
        dollar_atomic.errors
    );
    // Multi-index forms are not modeled.
    let matrix = check_source("f <- function() {\n  x <- list(1L)\n  x[1L, 2L]\n}");
    assert!(
        matrix.errors.iter().any(|error| matches!(
            error.kind,
            TypeErrorKind::UnsupportedIndexShape { index_count: 2 }
        )),
        "{:?}",
        matrix.errors
    );
}

#[test]
fn named_vector_extraction_is_nullable_by_name() {
    let check = check_source("f <- function() {\n  v <- c(a = 1L)\n  v[[\"a\"]]\n}");
    assert!(check.errors.is_empty(), "{:?}", check.errors);
    let TyKind::Union(members) = scheme_ret(&check).kind() else {
        panic!("expected integer | NULL");
    };
    assert!(members.contains(&scalar(Atomic::Integer)));
    assert!(members.contains(&null()));
}

#[test]
fn combine_promotes_drops_null_and_keeps_names() {
    let promoted = check_source("f <- function() c(1L, 2.5)");
    assert!(promoted.errors.is_empty());
    assert!(matches!(
        scheme_ret(&promoted).kind(),
        TyKind::Vector(element) if *element == scalar(Atomic::Double)
    ));
    let character = check_source("f <- function() c(1L, \"a\")");
    assert!(character.errors.is_empty());
    assert!(matches!(
        scheme_ret(&character).kind(),
        TyKind::Vector(element) if *element == scalar(Atomic::Character)
    ));
    let named = check_source("f <- function() c(a = 1L, b = 2L)");
    assert!(named.errors.is_empty());
    assert!(matches!(
        scheme_ret(&named).kind(),
        TyKind::NamedVector(_)
    ));
    let null_dropped = check_source("f <- function() c(1L, NULL)");
    assert!(null_dropped.errors.is_empty());
    assert!(matches!(
        scheme_ret(&null_dropped).kind(),
        TyKind::Vector(_)
    ));
    let empty = check_source("f <- function() c()");
    assert!(matches!(scheme_ret(&empty).kind(), TyKind::Null));
}

#[test]
fn switch_unions_branches_with_null_unless_defaulted() {
    let no_default = check_source("f <- function(x) switch(x, a = 1L, b = \"s\")");
    assert!(no_default.errors.is_empty(), "{:?}", no_default.errors);
    let TyKind::Union(members) = scheme_ret(&no_default).kind() else {
        panic!("expected a union");
    };
    assert_eq!(members.len(), 3, "integer | character | NULL: {members:?}");
    let with_default = check_source("f <- function(x) switch(x, a = 1L, 2L)");
    assert!(with_default.errors.is_empty());
    assert_eq!(
        *scheme_ret(&with_default),
        scalar(Atomic::Integer),
        "both branches integer, no NULL member"
    );
}

#[test]
fn union_of_functions_calls_every_member() {
    // The dispatch-table idiom: the value could be either function, so
    // the call must be valid for both and types as the union of returns.
    let check = check_source(
        "f <- function(flag) {\n  h <- if (flag) function(x) 1L else function(x) \"a\"\n  h(2L)\n}",
    );
    assert!(check.errors.is_empty(), "{:?}", check.errors);
    let scheme = check.scheme.expect("scheme");
    let TyKind::Function(function) = scheme.body.kind() else {
        panic!()
    };
    let TyKind::Union(members) = function.ret.kind() else {
        panic!(
            "expected integer | character, got {:?}",
            function.ret.kind()
        );
    };
    assert_eq!(members.len(), 2);
}

#[test]
fn conditional_slot_write_joins_types() {
    // The beta-semantics soundness case: a branch write must be visible
    // after the construct as a union.
    let check = check_source(
        "f <- function(flag) {\n  x <- 1L\n  if (flag) x <- \"two\"\n  x\n}",
    );
    assert!(check.errors.is_empty());
    let scheme = check.scheme.expect("scheme");
    let TyKind::Function(function) = scheme.body.kind() else {
        panic!()
    };
    let TyKind::Union(members) = function.ret.kind() else {
        panic!(
            "expected integer | character return, got {:?}",
            function.ret.kind()
        );
    };
    assert_eq!(members.len(), 2);
}

#[test]
fn annotated_identity_keeps_declared_scheme() {
    let check = check_annotated("#: <T> fn(x: T) -> T\nid <- function(x) x");
    assert!(check.errors.is_empty(), "{:?}", check.errors);
    let scheme = check.scheme.expect("declared scheme");
    assert_eq!(scheme.binders.len(), 1);
    let TyKind::Function(function) = scheme.body.kind() else {
        panic!()
    };
    assert!(matches!(function.ret.kind(), TyKind::Rigid(_)));
}

#[test]
fn annotated_return_mismatch_reports() {
    let check = check_annotated("#: fn(x: integer) -> character\nf <- function(x) x");
    assert!(
        check
            .errors
            .iter()
            .any(|e| matches!(e.kind, TypeErrorKind::Mismatch { .. })),
        "expected return mismatch, got {:?}",
        check.errors
    );
}

#[test]
fn annotated_parameter_name_mismatch_reports() {
    let check = check_annotated("#: fn(x: integer) -> integer\nf <- function(y) 1L");
    assert!(
        check
            .errors
            .iter()
            .any(|e| matches!(&e.kind, TypeErrorKind::AnnotationParameterMismatch { .. })),
        "expected parameter mismatch, got {:?}",
        check.errors
    );
}

#[test]
fn rigid_binder_refuses_undeclared_bound() {
    // The body adds an arithmetic bound the annotation never declared.
    let bad = check_annotated("#: <T> fn(x: T) -> T\nbad <- function(x) x + 1L");
    assert!(
        !bad.errors.is_empty(),
        "plain <T> must refuse arithmetic, got no errors"
    );
    // With the declared numeric constraint the same body is fine.
    let ok = check_annotated(
        "#: <T: numeric> fn(x: T) -> T\nok <- function(x) x + 1L",
    );
    assert!(ok.errors.is_empty(), "{:?}", ok.errors);
}

#[test]
fn expanded_param_return_form_checks() {
    let check = check_annotated(
        "#: @forall T: numeric\n#: @param x {T}\n#: @return {T}\nround2 <- function(x) x + 1L",
    );
    assert!(check.errors.is_empty(), "{:?}", check.errors);
    let scheme = check.scheme.expect("declared scheme");
    assert_eq!(scheme.binders.len(), 1);
    assert_eq!(scheme.binders[0].1, Constraint::Numeric);
}

#[test]
fn trusted_annotation_skips_enforcement() {
    let check = check_annotated(
        "#: @trust fn(x: integer) -> character\nf <- function(x) x",
    );
    assert!(check.errors.is_empty(), "{:?}", check.errors);
    assert!(check.scheme.is_some());
}

#[test]
fn conditional_write_joins_and_read_resolves() {
    let naming = naming_of("f <- function(flag) {\n  x <- 1\n  if (flag) x <- 2\n  x\n}");
    // Both writes reach the final read: neither is a dead store.
    assert!(naming.unused_assignments.is_empty());
    assert!(naming.maybe_undefined.is_empty());
}

#[test]
fn dead_store_is_reported() {
    let naming = naming_of("f <- function() {\n  x <- 1\n  x <- 2\n  x\n}");
    assert_eq!(naming.unused_assignments.len(), 1);
}

#[test]
fn loop_accumulator_is_not_a_dead_store() {
    let naming = naming_of(
        "f <- function(n) {\n  total <- 0\n  for (i in 1:n) total <- total + i\n  total\n}",
    );
    assert!(
        naming.unused_assignments.is_empty(),
        "loop accumulator writes reach across iterations: {:?}",
        naming.unused_assignments
    );
}

#[test]
fn maybe_undefined_on_partial_paths() {
    let naming = naming_of("f <- function(flag) {\n  if (flag) y <- 1\n  y\n}");
    assert_eq!(naming.maybe_undefined.len(), 1);
}

#[test]
fn unresolved_reads_are_non_local() {
    let naming = naming_of("f <- function() unknown_helper(1)");
    assert!(
        naming
            .non_locals
            .values()
            .any(|name| name == "unknown_helper")
    );
}

// ---- every finding ----

fn function(named: Vec<(&str, Ty)>, ret: Ty) -> Ty {
    Ty::new(TyKind::Function(FunctionType {
        positional: Vec::new(),
        named: named
            .into_iter()
            .map(|(name, ty)| Parameter {
                name: Name::new(name.to_string()),
                ty,
                optional: false,
                default: None,
            })
            .collect(),
        variadic: None,
        ret,
    }))
}

fn plain(body: Ty) -> TypeScheme {
    TypeScheme {
        binders: Vec::new(),
        body,
    }
}

fn named(name: &str) -> Ty {
    Ty::new(TyKind::Named(Name::new(name.to_string()), Vec::new()))
}

fn known(name: &str, scheme: Option<TypeScheme>, overloads: Option<Vec<TypeScheme>>) -> KnownName {
    KnownName {
        name: name.to_string(),
        deferred: true,
        scheme,
        overloads,
        in_project: false,
    }
}

fn check_known(source: &str, names: Vec<KnownName>, vocabulary: Vocabulary) -> ItemCheck {
    let root = parse(source);
    let annotation =
        child(&root, |kind| kind == SyntaxKind::Annotation).map(|node| lower_annotation(node));
    let item = child(&root, |kind| kind.expression()).expect("one top-level item");
    let module = lower_item(item);
    let naming = resolve_item(&module);
    let globals = KnownNames {
        names,
        vocabulary: Rc::new(vocabulary),
    };
    check_item_with_annotation(
        &module,
        &naming,
        annotation.as_ref(),
        &Vec::new(),
        Some(&globals),
        &StubCorpus::absent(),
    )
}

/// The single finding of a source without annotations.
fn declaring(definition: NamedDefinition) -> Vocabulary {
    let mut vocabulary = Vocabulary::empty();
    vocabulary
        .definitions
        .insert(definition.name.text().to_string(), definition);
    vocabulary
}

fn only_finding(source: &str) -> TypeErrorKind {
    let mut check = check_source(source);
    assert_eq!(check.errors.len(), 1, "{source}: {:?}", check.errors);
    check.errors.remove(0).kind
}

/// The single finding of a source with annotations.
fn only_annotated_finding(source: &str) -> TypeErrorKind {
    let mut check = check_annotated(source);
    assert_eq!(check.errors.len(), 1, "{source}: {:?}", check.errors);
    check.errors.remove(0).kind
}

#[test]
fn calling_a_value_reports_the_callee() {
    let check = check_source("f <- function() {\n  x <- 1L\n  x(2L)\n}");
    assert_eq!(check.errors.len(), 1, "{:?}", check.errors);
    assert!(matches!(
        &check.errors[0].kind,
        TypeErrorKind::NotAFunction { found } if *found == scalar(Atomic::Integer)
    ));
    assert_eq!(check.errors[0].range, TextRange { start: 30, end: 31 });
}

#[test]
fn a_callee_that_may_be_null_is_reported_and_still_called() {
    let check = check_source(
        "f <- function(flag) {\n  g <- if (flag) function() 1L else NULL\n  g()\n}",
    );
    assert!(
        matches!(
            check.errors.as_slice(),
            [error] if matches!(error.kind, TypeErrorKind::MaybeNullCallee { .. })
        ),
        "{:?}",
        check.errors
    );
}

#[test]
fn a_missing_formal_cannot_be_read() {
    assert!(matches!(
        only_finding("f <- function(x) if (missing(x)) x else 1L"),
        TypeErrorKind::MissingFormalRead { name } if name == "x"
    ));
}

#[test]
fn repeated_and_misspelled_arguments_are_reported() {
    assert!(matches!(
        only_finding("f <- function() {\n  g <- function(value) value\n  g(value = 1L, value = 2L)\n}"),
        TypeErrorKind::NamedArgumentMismatch { argument, duplicate: true, .. } if argument == "value"
    ));
    assert!(matches!(
        only_finding("f <- function() {\n  g <- function(value) value\n  g(valye = 1L)\n}"),
        TypeErrorKind::NamedArgumentMismatch { suggestion: Some(name), duplicate: false, .. }
            if name == "value"
    ));
}

#[test]
fn a_name_no_formal_declares_is_reported_alone() {
    assert!(matches!(
        only_finding("g <- function() {\n  f <- function(x) x + 1\n  f(\"txt\", z = 1)\n}"),
        TypeErrorKind::NamedArgumentMismatch { argument, duplicate: false, .. } if argument == "z"
    ));
    let check = check_source(
        "g <- function() {\n  f <- function(x) x + 1\n  f(\"txt\", z = 1, y = 2)\n}",
    );
    let names: Vec<&str> = check
        .errors
        .iter()
        .map(|error| match &error.kind {
            TypeErrorKind::NamedArgumentMismatch { argument, .. } => argument.as_str(),
            other => panic!("{other:?}"),
        })
        .collect();
    assert_eq!(names, ["z", "y"]);
}

#[test]
fn a_missing_position_is_blamed_on_the_key() {
    let source = "f <- function() {\n  x <- list(1L, \"a\")\n  x[[3L]]\n}";
    let check = check_source(source);
    let error = check
        .errors
        .iter()
        .find(|error| matches!(error.kind, TypeErrorKind::PositionDoesNotExist { .. }))
        .expect("a finding");
    let text = &source[error.range.start as usize..error.range.end as usize];
    assert_eq!(text, "3L");
}

#[test]
fn captured_writes_past_the_ceiling_are_unknown() {
    let items = |item: &str, count: usize| vec![item; count].join(", ");
    let program = |count: usize| {
        format!(
            "f <- function() {{\n  n <- list({})\n  g <- function() n <<- list({})\n  g()\n  n\n}}",
            items("1L", count),
            items("\"a\"", count)
        )
    };
    let small = check_source(&program(2));
    assert!(matches!(
        scheme_ret(&small).kind(),
        TyKind::Union(members) if members.len() == 2
    ));
    assert_eq!(*scheme_ret(&check_source(&program(2100))), unknown());
}

#[test]
fn if_unknown_refuses_a_known_value() {
    assert!(matches!(
        only_annotated_finding("#: @if-unknown integer\nx <- 1L"),
        TypeErrorKind::KnownTypeUnderIfUnknown { found } if found == scalar(Atomic::Integer)
    ));
    let filled = check_annotated("#: @if-unknown integer\nx <- mystery");
    assert!(filled.errors.is_empty(), "{:?}", filled.errors);
    assert_eq!(
        filled.scheme.expect("scheme").body,
        scalar(Atomic::Integer)
    );
}

#[test]
fn a_default_makes_a_required_parameter_optional() {
    assert!(matches!(
        only_annotated_finding("#: fn(x: integer) -> integer\nf <- function(x = 1L) x"),
        TypeErrorKind::AnnotationRequiredButDefaulted { name } if name == "x"
    ));
}

#[test]
fn a_null_default_needs_a_nullable_type() {
    assert!(matches!(
        only_annotated_finding("#: fn([title]: character) -> integer\nf <- function(title = NULL) 1L"),
        TypeErrorKind::NullDefaultNotAdmitted { name, declared }
            if name == "title" && declared == scalar(Atomic::Character)
    ));
    let nullable = check_annotated(
        "#: fn([title]: character | NULL) -> integer\nf <- function(title = NULL) 1L",
    );
    assert!(nullable.errors.is_empty(), "{:?}", nullable.errors);
}

#[test]
fn a_cyclic_alias_is_reported_once() {
    let cyclic = declaring(NamedDefinition {
        alias: true,
        name: Name::new("Loop".to_string()),
        parameters: Vec::new(),
        body: Ty::new(TyKind::List(named("Loop"))),
    });
    let check = check_known("#: Loop\nx <- 1L", Vec::new(), cyclic);
    assert!(
        matches!(
            check.errors.as_slice(),
            [error] if matches!(&error.kind, TypeErrorKind::AliasCycle { name } if name == "Loop")
        ),
        "{:?}",
        check.errors
    );
}

#[test]
fn a_callback_of_the_wrong_shape_names_the_position() {
    let check = check_annotated(
        "#: fn([callback]: fn(integer) -> integer) -> integer\nf <- function(callback = function(a) \"word\") 1L",
    );
    assert!(
        check
            .errors
            .iter()
            .any(|error| matches!(error.kind, TypeErrorKind::CallbackShape { .. })),
        "{:?}",
        check.errors
    );
}

#[test]
fn overloads_are_selected_in_order_and_refused_together() {
    let pick = || {
        vec![known(
            "pick",
            None,
            Some(vec![
                plain(function(
                    vec![("x", scalar(Atomic::Integer))],
                    scalar(Atomic::Integer),
                )),
                plain(function(
                    vec![("x", scalar(Atomic::Double))],
                    scalar(Atomic::Double),
                )),
            ]),
        )]
    };
    let whole = check_known("f <- function() pick(1L)", pick(), Vocabulary::empty());
    assert!(whole.errors.is_empty(), "{:?}", whole.errors);
    assert_eq!(*scheme_ret(&whole), scalar(Atomic::Integer));
    assert_eq!(whole.selected_overloads.values().copied().collect::<Vec<usize>>(), [0]);

    let real = check_known("f <- function() pick(1.5)", pick(), Vocabulary::empty());
    assert!(real.errors.is_empty(), "{:?}", real.errors);
    assert_eq!(*scheme_ret(&real), scalar(Atomic::Double));
    assert_eq!(real.selected_overloads.values().copied().collect::<Vec<usize>>(), [1]);

    let word = check_known("f <- function() pick(\"word\")", pick(), Vocabulary::empty());
    assert!(
        matches!(
            word.errors.as_slice(),
            [error] if matches!(
                &error.kind,
                TypeErrorKind::NoMatchingOverload { name, candidates: 2, first: Some(_) }
                    if name == "pick"
            )
        ),
        "{:?}",
        word.errors
    );
    assert!(word.selected_overloads.is_empty());
}

#[test]
fn values_without_elements_cannot_be_indexed() {
    assert!(matches!(
        only_finding("f <- function() NULL[[1L]]"),
        TypeErrorKind::NotAList { found } if found == null()
    ));
    assert!(matches!(
        only_finding("f <- function() NULL[1L]"),
        TypeErrorKind::UnsupportedSubset { found } if found == null()
    ));
    assert!(matches!(
        only_finding("f <- function() c(1L, 2L)[list(1L)]"),
        TypeErrorKind::BadVectorIndex { .. }
    ));
    assert!(matches!(
        only_finding("f <- function() c(1L, 2L)[i = 1L]"),
        TypeErrorKind::UnsupportedIndexShape { index_count: 1 }
    ));
}

#[test]
fn a_self_application_has_no_finite_type() {
    assert!(matches!(
        only_finding("f <- function(x) x(x)"),
        TypeErrorKind::InfiniteType { .. }
    ));
}

#[test]
fn records_that_differ_in_one_field_name_it() {
    let check = check_annotated(
        "#: list{a: integer, b: character}\nx <- list(a = 1L, b = 2L)",
    );
    assert!(
        matches!(
            check.errors.as_slice(),
            [error] if matches!(error.kind, TypeErrorKind::RecordShape { .. })
        ),
        "{:?}",
        check.errors
    );
    // The blame falls on the field's value.
    assert_eq!(check.errors[0].range, TextRange { start: 56, end: 58 });
}

#[test]
fn a_class_that_declares_an_operator_refuses_other_pairs() {
    let methods = || {
        vec![
            KnownName {
                name: "+.Day".to_string(),
                deferred: false,
                scheme: Some(plain(function(
                    vec![("e1", named("Day")), ("e2", scalar(Atomic::Double))],
                    named("Day"),
                ))),
                overloads: None,
                in_project: false,
            },
            known("today", Some(plain(function(Vec::new(), named("Day")))), None),
        ]
    };
    let vocabulary = || {
        let mut vocabulary = Vocabulary::empty();
        vocabulary.nominals.push("Day".to_string());
        vocabulary.arithmetic_classes.insert("Day".to_string());
        vocabulary
    };
    let shifted = check_known("f <- function() today() + 1.5", methods(), vocabulary());
    assert!(shifted.errors.is_empty(), "{:?}", shifted.errors);
    assert_eq!(*scheme_ret(&shifted), named("Day"));
    let summed = check_known("f <- function() today() + today()", methods(), vocabulary());
    assert!(
        matches!(
            summed.errors.as_slice(),
            [error] if matches!(
                &error.kind,
                TypeErrorKind::UnsupportedOperandPair { operator, left, right }
                    if operator == "+" && *left == named("Day") && *right == named("Day")
            )
        ),
        "{:?}",
        summed.errors
    );
}

#[test]
fn an_item_with_findings_exports_unknown() {
    let failed = check_source("f <- function() \"a\" + 1L");
    assert!(!failed.errors.is_empty());
    assert_eq!(failed.scheme.expect("scheme").body, unknown());
    // A declared type survives the failure.
    let declared = check_annotated("#: fn(x: integer) -> character\nf <- function(x) x");
    assert!(!declared.errors.is_empty());
    assert_eq!(*scheme_ret(&declared), scalar(Atomic::Character));
}

#[test]
fn findings_come_in_the_order_of_their_ranges() {
    let check = check_source("f <- function() {\n  NULL[[1L]]\n  NULL[1L]\n  NULL[[2L]]\n}");
    let starts: Vec<u32> = check.errors.iter().map(|error| error.range.start).collect();
    assert_eq!(starts.len(), 3, "{:?}", check.errors);
    assert!(starts[0] < starts[1] && starts[1] < starts[2]);
}

#[test]
fn nominals_are_introduced_by_new_alone() {
    let point = || declaring(NamedDefinition {
        alias: false,
        name: Name::new("Point".to_string()),
        parameters: Vec::new(),
        body: Ty::new(TyKind::Record(vec![RecordField {
            name: Name::new("x".to_string()),
            ty: scalar(Atomic::Integer),
            optional: false,
        }])),
    });
    let made = check_known("#: @new Point\np <- list(x = 1L)", Vec::new(), point());
    assert!(made.errors.is_empty(), "{:?}", made.errors);
    assert_eq!(made.scheme.expect("scheme").body, named("Point"));
    let claimed = check_known("#: Point\np <- list(x = 1L)", Vec::new(), point());
    assert_eq!(claimed.errors.len(), 1, "{:?}", claimed.errors);
    let wrong = check_known("#: @new Point\np <- list(x = \"a\")", Vec::new(), point());
    assert_eq!(wrong.errors.len(), 1, "{:?}", wrong.errors);
}

#[test]
fn an_unknown_argument_is_accepted() {
    let check = check_source(
        "f <- function() {\n  g <- function(x) x + 1L\n  g(mystery)\n  g(NULL[[1L]])\n}",
    );
    // Only the extraction itself is wrong.
    assert!(
        matches!(
            check.errors.as_slice(),
            [error] if matches!(error.kind, TypeErrorKind::NotAList { .. })
        ),
        "{:?}",
        check.errors
    );
}

#[test]
fn known_names_give_their_schemes() {
    let read = check_known(
        "f <- function() limit",
        vec![known("limit", Some(plain(scalar(Atomic::Double))), None)],
        Vocabulary::empty(),
    );
    assert!(read.errors.is_empty(), "{:?}", read.errors);
    assert_eq!(*scheme_ret(&read), scalar(Atomic::Double));
    // A name without a known type, defined elsewhere, is a gap.
    let open = check_known(
        "f <- function() limit",
        vec![known("limit", Some(plain(unknown())), None)],
        Vocabulary::empty(),
    );
    assert!(
        matches!(
            open.strict_origins.as_slice(),
            [origin] if origin.kind == StrictOriginKind::UndeterminedReference("limit".to_string())
        ),
        "{:?}",
        open.strict_origins
    );
}

fn holds_variable(ty: &Ty) -> bool {
    matches!(ty.kind(), TyKind::Var(_)) || child_types(ty).iter().any(holds_variable)
}

#[test]
fn exported_schemes_hold_no_variable() {
    for source in [
        "f <- function(x) x",
        "f <- function(x, y) list(x, y = function(z) y(z))",
        "f <- function(x) mystery(x)",
    ] {
        let check = check_source(source);
        let scheme = check.scheme.expect("scheme");
        assert!(!holds_variable(&scheme.body), "{source}: {:?}", scheme);
    }
}

#[test]
fn combining_does_not_depend_on_the_order() {
    let ret = |source: &str| {
        let check = check_source(source);
        assert!(check.errors.is_empty(), "{source}: {:?}", check.errors);
        scheme_ret(&check).clone()
    };
    let character = Ty::new(TyKind::Vector(scalar(Atomic::Character)));
    assert_eq!(ret("f <- function() c(1L, \"a\", TRUE)"), character);
    assert_eq!(ret("f <- function() c(TRUE, 1L, \"a\")"), character);
    assert_eq!(ret("f <- function() c(\"a\", TRUE, 1L)"), character);
}

// ---- lowering ----

fn module_of(source: &str) -> Module {
    let root = parse(source);
    lower_item(child(&root, |_| true).expect("one top-level item"))
}

fn rendered_all(module: &Module, ids: &[ExprId]) -> String {
    ids.iter()
        .map(|id| format!(" {}", rendered(module, *id)))
        .collect()
}

fn rendered_arguments(module: &Module, arguments: &[semantics::hir::Argument]) -> String {
    arguments
        .iter()
        .map(|argument| {
            let name = match &argument.name {
                Some(name) => format!("{name}="),
                None => String::new(),
            };
            let value = match argument.value {
                Some(value) => rendered(module, value),
                None => String::new(),
            };
            format!(" {name}{value}")
        })
        .collect()
}

fn rendered(module: &Module, id: ExprId) -> String {
    match &module.expressions[id.0 as usize].kind {
        ExpressionKind::Literal(literal) => match literal {
            LiteralKind::Integer(text) | LiteralKind::Double(text) => text.clone(),
            LiteralKind::String(text) => format!("'{text}'"),
            other => format!("{other:?}"),
        },
        ExpressionKind::NameRef(name) => name.clone(),
        ExpressionKind::Assign {
            spelling,
            target,
            value,
        } => format!(
            "({spelling:?}{}{})",
            rendered_all(module, &[*target]),
            rendered_all(module, &[*value])
        ),
        ExpressionKind::Unary { operator, operand } => {
            format!("({operator:?}{})", rendered_all(module, &[*operand]))
        }
        ExpressionKind::Binary {
            operator,
            special_name,
            lhs,
            rhs,
        } => format!(
            "({}{})",
            special_name.clone().unwrap_or(format!("{operator:?}")),
            rendered_all(module, &[*lhs, *rhs])
        ),
        ExpressionKind::Call { callee, arguments } => format!(
            "(call {}{})",
            rendered(module, *callee),
            rendered_arguments(module, arguments)
        ),
        ExpressionKind::Index {
            double,
            target,
            arguments,
        } => format!(
            "({} {}{})",
            if *double { "[[" } else { "[" },
            rendered(module, *target),
            rendered_arguments(module, arguments)
        ),
        ExpressionKind::Field {
            at, target, name, ..
        } => format!(
            "({} {} {name:?})",
            if *at { "@" } else { "$" },
            rendered(module, *target)
        ),
        ExpressionKind::Local { body } => format!("(local{})", rendered_all(module, &[*body])),
        ExpressionKind::Block {
            statements,
            trailing_semicolon,
        } => format!(
            "(block{}{})",
            rendered_all(module, statements),
            if *trailing_semicolon { " ;" } else { "" }
        ),
        ExpressionKind::Paren(inner) => format!("(paren{})", rendered_all(module, &[*inner])),
        other => format!("{other:?}"),
    }
}

fn lowered(source: &str) -> String {
    let module = module_of(source);
    rendered(&module, module.root.expect("a root"))
}

#[test]
fn pipes_lower_to_the_call_they_stand_for() {
    assert_eq!(lowered("x |> f(1L)"), "(call f x 1L)");
    assert_eq!(lowered("x |> f(1L, data = _)"), "(call f 1L data=x)");
    // A positional placeholder and a bare name keep the operator.
    assert_eq!(lowered("x |> f(_)"), "(Pipe x (call f _))");
    assert_eq!(lowered("x |> f"), "(Pipe x f)");
}

#[test]
fn assignments_lower_alike_whatever_their_direction() {
    assert_eq!(lowered("x <- 1L"), "(Local x 1L)");
    assert_eq!(lowered("1L -> x"), "(Local x 1L)");
    assert_eq!(lowered("x = 1L"), "(Equals x 1L)");
    assert_eq!(lowered("x <<- 1L"), "(Super x 1L)");
    assert_eq!(lowered("1L ->> x"), "(Super x 1L)");
    assert_eq!(lowered("x := 1L"), "(call := x 1L)");
}

#[test]
fn operators_and_literals_lower_by_their_spelling() {
    assert_eq!(lowered("a %% b"), "(Modulo a b)");
    assert_eq!(lowered("a %/% b"), "(IntegerDivide a b)");
    assert_eq!(lowered("a %in% b"), "(%in% a b)");
    assert_eq!(lowered("-a"), "(Minus a)");
    assert_eq!(lowered("\"text\""), "'text'");
    assert_eq!(lowered("r\"(raw)\""), "'raw'");
    assert_eq!(lowered("r\"-[raw]-\""), "'raw'");
    assert_eq!(lowered("`odd name`"), "odd name");
    assert_eq!(lowered("x$\"field\""), "($ x Some(\"field\"))");
    assert_eq!(lowered("x@slot"), "(@ x Some(\"slot\"))");
}

#[test]
fn blocks_remember_a_closing_semicolon() {
    assert_eq!(lowered("{ a; b }"), "(block a b)");
    assert_eq!(lowered("{ a; b; }"), "(block a b ;)");
    assert_eq!(lowered("local({ a })"), "(local (block a))");
    assert_eq!(lowered("local(a, b)"), "(call local a b)");
}

#[test]
fn ranges_leave_out_trailing_trivia() {
    let module = module_of("f <- {\n  a # why\n}");
    let place = |wanted: &str| {
        module
            .expressions
            .iter()
            .find(|expression| {
                matches!(&expression.kind, ExpressionKind::NameRef(name) if name == wanted)
            })
            .expect("the name")
            .range
    };
    assert_eq!(place("a"), TextRange { start: 9, end: 10 });
    assert_eq!(place("f"), TextRange { start: 0, end: 1 });
}

#[test]
fn lowered_modules_are_trees() {
    let bare = |kind: SyntaxKind| {
        lower_item(&SyntaxNode {
            kind,
            range: TextRange { start: 0, end: 0 },
            children: Vec::new(),
        })
    };
    let mut modules: Vec<Module> = [
        SyntaxKind::IfExpr,
        SyntaxKind::ForExpr,
        SyntaxKind::UnaryExpr,
        SyntaxKind::BinaryExpr,
        SyntaxKind::CallExpr,
        SyntaxKind::FunctionDef,
    ]
    .into_iter()
    .map(bare)
    .collect();
    for source in [
        "f <- function(a, b = a + 1) {\n  if (a) b else x |> g(1L, data = _)\n  local({ b })\n}",
        "x |> f(y)[[1L, k = z]]",
        "while (TRUE) for (i in 1:10) -i",
        "a := b(c, , d = )",
    ] {
        modules.push(module_of(source));
    }
    for module in &modules {
        let count = module.expressions.len();
        assert_eq!(module.root, Some(ExprId(count as u32 - 1)));
        let mut seen = vec![false; count];
        for (place, expression) in module.expressions.iter().enumerate() {
            for id in expression.kind.child_ids() {
                assert!((id.0 as usize) < place);
                assert!(!seen[id.0 as usize]);
                seen[id.0 as usize] = true;
            }
        }
        assert!(!seen[count - 1]);
    }
}

#[test]
fn children_are_listed_in_source_order() {
    let module = module_of("f(a, k = b)");
    let root = module.root.expect("a root");
    let names: Vec<String> = module.expressions[root.0 as usize]
        .kind
        .child_ids()
        .iter()
        .map(|id| rendered(&module, *id))
        .collect();
    assert_eq!(names, ["f", "a", "b"]);
}

// ---- annotations ----

fn annotation_in(source: &str) -> Annotation {
    let root = parse(source);
    lower_annotation(child(&root, |kind| kind == SyntaxKind::Annotation).expect("an annotation"))
}

fn complaints(source: &str) -> Vec<String> {
    let annotation = annotation_in(source);
    assert!(annotation.declared.is_none());
    assert!(annotation.definitions.is_empty());
    annotation
        .errors
        .into_iter()
        .map(|(message, _)| message)
        .collect()
}

#[test]
fn type_annotations_lower_to_types() {
    let ty = |source: &str| annotation_in(source).declared.expect("a type").body;
    assert_eq!(ty("#: integer"), scalar(Atomic::Integer));
    assert_eq!(ty("#: NULL"), null());
    assert_eq!(ty("#: unknown"), unknown());
    assert_eq!(
        ty("#: integer | NULL"),
        Ty::new(TyKind::Union(vec![scalar(Atomic::Integer), null()]))
    );
    assert_eq!(
        ty("#: character[]"),
        Ty::new(TyKind::Vector(scalar(Atomic::Character)))
    );
    assert_eq!(
        ty("#: character[named]"),
        Ty::new(TyKind::NamedVector(scalar(Atomic::Character)))
    );
    assert_eq!(
        ty("#: [integer, double]"),
        Ty::new(TyKind::Tuple(vec![
            scalar(Atomic::Integer),
            scalar(Atomic::Double)
        ]))
    );
    assert_eq!(
        ty("#: Box<integer>"),
        Ty::new(TyKind::Named(
            Name::new("Box".to_string()),
            vec![scalar(Atomic::Integer)]
        ))
    );
}

#[test]
fn an_elided_return_is_inferred_only_for_the_definition_itself() {
    let outer = annotation_in("#: fn(x: integer)").declared.expect("a type");
    let TyKind::Function(outer) = outer.body.kind() else {
        panic!("a function")
    };
    assert_eq!(outer.ret, unknown());
    let nested = annotation_in("#: fn(f: fn(integer)) -> integer")
        .declared
        .expect("a type");
    let TyKind::Function(nested) = nested.body.kind() else {
        panic!("a function")
    };
    let TyKind::Function(inner) = nested.named[0].ty.kind() else {
        panic!("a function")
    };
    assert_eq!(inner.ret, null());
}

#[test]
fn parentheses_do_not_hide_the_outermost_function() {
    let outer = annotation_in("#: (fn(x: integer))").declared.expect("a type");
    let TyKind::Function(outer) = outer.body.kind() else {
        panic!("a function")
    };
    assert_eq!(outer.ret, unknown());
    let nested = annotation_in("#: ((fn(f: (fn(integer))) -> integer))")
        .declared
        .expect("a type");
    let TyKind::Function(nested) = nested.body.kind() else {
        panic!("a function")
    };
    assert_eq!(nested.ret, scalar(Atomic::Integer));
    let TyKind::Function(inner) = nested.named[0].ty.kind() else {
        panic!("a function")
    };
    assert_eq!(inner.ret, null());
}

#[test]
fn references_are_collected_with_their_ranges() {
    let annotation = annotation_in("#: fn(a: Point, b: Box<integer>) -> integer[]");
    assert_eq!(
        annotation.nominal_references,
        [
            ("Point".to_string(), TextRange { start: 9, end: 14 }),
            ("Box".to_string(), TextRange { start: 19, end: 22 }),
        ]
    );
    assert_eq!(
        annotation.applied_references,
        [("Box".to_string(), 1, TextRange { start: 19, end: 22 })]
    );
    assert_eq!(annotation.vector_elements.len(), 1);
    assert_eq!(annotation.parameter_names.len(), 2);
}

#[test]
fn definitions_carry_their_parameters_as_rigid_types() {
    let annotation = annotation_in("#: @type Pair<T> {list{first: T, second: T}}");
    assert_eq!(annotation.definitions.len(), 1);
    assert_eq!(annotation.definition_sites.len(), 1);
    let definition = &annotation.definitions[0];
    assert!(!definition.alias);
    assert_eq!(definition.name, Name::new("Pair".to_string()));
    let TyKind::Record(fields) = definition.body.kind() else {
        panic!("a record")
    };
    assert_eq!(
        fields[0].ty,
        Ty::new(TyKind::Rigid(Name::new("T".to_string())))
    );
    assert!(annotation_in("#: @alias Id {integer}").definitions[0].alias);
}

#[test]
fn switches_and_introductions_are_read() {
    assert_eq!(annotation_in("#: @strict\n").strict, Some(true));
    assert_eq!(annotation_in("#: @strict off").strict, Some(false));
    assert!(annotation_in("#: @trust integer").trusted);
    let (name, arguments, range) = annotation_in("#: @new Box<integer>")
        .new_nominal
        .expect("a nominal");
    assert_eq!(name, Name::new("Box".to_string()));
    assert_eq!(arguments, [scalar(Atomic::Integer)]);
    assert_eq!(range, TextRange { start: 8, end: 20 });
}

#[test]
fn violated_shapes_are_reported_and_declare_nothing() {
    assert_eq!(
        complaints("#: <T, T> fn(x: T) -> T"),
        ["duplicate type parameter name `T` in `<...>`."]
    );
    assert_eq!(
        complaints("#: @forall T, T\n#: @return {T}"),
        ["duplicate type parameter name `T` in expanded function annotation."]
    );
    assert_eq!(
        complaints("#: @type P<T, T> {T}"),
        ["duplicate type parameter name `T` in named type definition."]
    );
    assert_eq!(
        complaints("#: @return {integer}\n#: @return {integer}"),
        ["cannot use more than one `@return` or `@returns` directive in the same `#:` block."]
    );
    assert_eq!(
        complaints("#: @return {integer}\n#: @param x {integer}"),
        ["`@param` directives must appear before `@return` or `@returns` in the same `#:` block."]
    );
    assert_eq!(
        complaints("#: @param x {integer}\n#: @forall T"),
        ["`@forall` directives must appear before `@param`, `@return`, or `@returns` in the same `#:` block."]
    );
    assert_eq!(
        complaints("#: @new integer"),
        ["expected a nominal type reference after `@new`."]
    );
    assert_eq!(
        complaints("#: <T> T<integer>"),
        ["`T` is a type parameter here and takes no type arguments."]
    );
    assert_eq!(
        complaints("#: <T: tall> fn(x: T) -> T").len(),
        1
    );
}

#[test]
fn blocks_commit_to_one_form() {
    assert_eq!(
        complaints("#: integer\n#: double"),
        ["only one compact annotation fits in a `#:` block. Separate the annotations with a blank line so each gets its own block."]
    );
    assert_eq!(
        complaints("#: @type P {integer}\n#: integer"),
        ["`@type` and `@alias` declarations need their own `#:` block. Separate them from other annotations with a blank line."]
    );
    assert_eq!(
        complaints("#: @param x {integer}\n#: integer"),
        ["a `#:` block uses either one compact annotation or `@param`/`@return` lines, not both. Separate the two forms with a blank line."]
    );
    // Two items on one line: the line did not parse, and nothing more is said.
    assert!(complaints("#: integer double").is_empty());
    let root = parse("#: integer double");
    let node = child(&root, |kind| kind == SyntaxKind::Annotation).expect("an annotation");
    assert!(matches!(block_refusal(node), Some(BlockRefusal::Unparsed)));
}

#[test]
fn deep_types_are_refused() {
    let nested = |depth: usize| format!("#: {}integer{}", "(".repeat(depth), ")".repeat(depth));
    assert!(annotation_in(&nested(127)).declared.is_some());
    let unchecked = annotation_in(&nested(128));
    assert!(unchecked.errors.is_empty());
    assert_eq!(
        unchecked.typing_errors[0].0,
        "This type is nested too deeply to check (more than 128 levels)."
    );
    assert_eq!(
        complaints(&nested(160)),
        ["This type annotation is nested too deeply (more than 160 levels)."]
    );
}

// ---- naming ----

#[test]
fn assignments_bind_one_slot_per_frame() {
    let naming = naming_of("f <- function(n) {\n  x <- 1\n  x <- n\n  x\n}");
    let names: Vec<(&str, BindingKind)> = naming
        .bindings
        .iter()
        .map(|binding| (binding.name.as_str(), binding.kind))
        .collect();
    assert_eq!(
        names,
        [
            ("n", BindingKind::Parameter),
            ("x", BindingKind::Local),
            ("f", BindingKind::TopLevel),
        ]
    );
}

#[test]
fn a_loop_body_mints_each_slot_once() {
    let naming = naming_of(
        "f <- function(n) {\n  for (i in n) {\n    y <- i\n    print(y)\n  }\n}",
    );
    let minted: Vec<&str> = naming
        .bindings
        .iter()
        .map(|binding| binding.name.as_str())
        .filter(|name| *name == "y" || *name == "i")
        .collect();
    assert_eq!(minted.len(), 2, "{:?}", naming.bindings);
}

#[test]
fn a_function_leaves_the_state_around_it() {
    let naming = naming_of(
        "f <- function() {\n  x <- 1\n  g <- function() {\n    x <- 2\n    x\n  }\n  x + g()\n}",
    );
    assert!(naming.unused_assignments.is_empty(), "{:?}", naming.unused_assignments);
    assert!(naming.maybe_undefined.is_empty());
    assert_eq!(
        naming.bindings.iter().filter(|binding| binding.name == "x").count(),
        2
    );
}

#[test]
fn deferred_reads_are_reads() {
    let naming = naming_of("f <- function(d) {\n  g(h)\n  with(d, column)\n  if (d) y <- 1\n  y\n}");
    assert!(!naming.deferred_non_locals.is_empty());
    assert!(naming
        .deferred_non_locals
        .iter()
        .all(|read| naming.non_locals.contains_key(read)));
    assert!(!naming.deferred_quiet_reads.is_empty());
    assert!(naming
        .deferred_quiet_reads
        .iter()
        .all(|read| naming.quiet_reads.contains_key(read)));
    assert!(!naming.maybe_undefined.is_empty());
    assert!(naming
        .maybe_undefined
        .iter()
        .all(|read| naming.resolutions.contains_key(read)));
}

#[test]
fn slots_are_numbered_and_some_names_never_reported() {
    let naming = naming_of(
        "f <- function(a, ...) {\n  .hidden <- 1\n  _skip <- 2\n  dead <- 3\n  n <- 0\n  g <- function() n <<- a\n  g()\n  n\n}",
    );
    for (place, binding) in naming.bindings.iter().enumerate() {
        assert_eq!(binding.id.0 as usize, place);
    }
    assert!(!naming.resolutions.is_empty());
    assert!(naming
        .resolutions
        .values()
        .all(|slot| (slot.0 as usize) < naming.bindings.len()));
    assert!(!naming.captured_slots.is_empty());
    assert!(naming
        .captured_slots
        .iter()
        .all(|slot| (*slot as usize) < naming.bindings.len()));
    let unused: Vec<&str> = naming
        .unused_assignments
        .iter()
        .map(|unused| unused.name.as_str())
        .collect();
    assert!(unused.contains(&"dead"), "{unused:?}");
    assert!(unused.iter().all(|name| !name.starts_with('.') && !name.starts_with('_')));
    assert!(naming.unused_parameters.is_empty());
}

#[test]
fn quoted_assignments_mint_no_slot() {
    let names = |source: &str| {
        naming_of(source)
            .bindings
            .into_iter()
            .map(|binding| binding.name)
            .collect::<Vec<String>>()
    };
    assert_eq!(names("f <- function() quote(x <- 1)"), ["f"]);
    let naming = naming_of("f <- function() {\n  bquote(x <- 1)\n  function() x\n}");
    assert!(naming.non_locals.values().any(|name| name == "x"));
    // A function of the same name in the frame runs its argument.
    assert_eq!(
        names("f <- function(quote) quote(x <- 1)"),
        ["quote", "x", "f"]
    );
}

#[test]
fn a_quoting_name_that_the_item_binds_may_run_its_argument() {
    for later in [
        "quote <- identity",
        "\"quote\" <- identity",
        "quote$f <- identity",
        "for (quote in fs) 1",
    ] {
        let naming = naming_of(&format!(
            "f <- function(fs) {{\n  g <- function() x\n  for (i in 1:2) {{\n    quote(x <- 1)\n    {later}\n  }}\n  g()\n}}"
        ));
        assert!(naming.non_locals.values().all(|name| name != "x"), "{later}");
        let slot = naming
            .bindings
            .iter()
            .find(|binding| binding.name == "x")
            .expect("a slot");
        assert!(naming.captured_slots.contains(&slot.id.0), "{later}");
    }
}

#[test]
fn a_closure_sees_a_name_that_a_string_assigns_later() {
    for target in ["x", "\"x\""] {
        let naming = naming_of(&format!(
            "f <- function() {{\n  g <- function() x\n  {target} <- 1\n  g()\n}}"
        ));
        assert!(naming.non_locals.values().all(|name| name != "x"), "{target}");
        assert_eq!(naming.captured_slots.len(), 1, "{target}");
    }
}

#[test]
fn super_assignments_reach_outward() {
    let captured = naming_of("f <- function() {\n  n <- 0\n  g <- function() n <<- 1\n  g()\n  n\n}");
    assert!(captured.super_globals.is_empty());
    assert_eq!(captured.captured_slots.len(), 1);
    let global = naming_of("f <- function() total <<- 1");
    assert_eq!(global.super_globals, ["total"]);
}

#[test]
fn quoted_assignments_bind_nothing() {
    let naming = naming_of("f <- function() {\n  quote(x <- 1)\n  x\n}");
    assert!(naming.non_locals.values().any(|name| name == "x"));
    let run = naming_of("f <- function() {\n  x <- 1\n  x\n}");
    assert!(run.non_locals.is_empty());
}

#[test]
fn deferred_reads_keep_later_writes_alive() {
    let naming = naming_of(
        "f <- function() {\n  done <- FALSE\n  on.exit(if (!done) undo())\n  done <- TRUE\n}",
    );
    assert!(naming.unused_assignments.is_empty(), "{:?}", naming.unused_assignments);
}

#[test]
fn masked_reads_stay_quiet() {
    let naming = naming_of("f <- function(d) with(d, column + 1)");
    assert!(naming.quiet_reads.values().any(|name| name == "column"));
    assert!(!naming.non_locals.values().any(|name| name == "column"));
    let table = naming_of("f <- function(d) d[, .(total = sum(v)), by = g]");
    assert_eq!(table.masked_subsets.len(), 1);
    assert!(table.quiet_reads.values().any(|name| name == "v"));
}

#[test]
fn declared_verbs_mask_their_rest_arguments() {
    let module = module_of("f <- function(d) mutate(d, total = v)");
    let plain = resolve_item(&module);
    assert!(plain.non_locals.values().any(|name| name == "v"));
    let mut verbs: FxHashMap<String, Vec<String>> = FxHashMap::default();
    verbs.insert("mutate".to_string(), vec![".data".to_string()]);
    let masked = resolve_item_with_masked_verbs(&module, &verbs);
    assert!(!masked.non_locals.values().any(|name| name == "v"));
    assert!(masked.quiet_reads.values().any(|name| name == "v"));
    // The data argument is no column.
    assert!(masked.quiet_reads.values().all(|name| name != "d"));
}

#[test]
fn qualified_reads_and_operators_are_recorded() {
    let naming = naming_of("f <- function(a) stats::median(a) %+% utils:::head");
    assert_eq!(naming.quiet_operator_reads, ["%+%"]);
    let plain = naming_of("f <- function(a) stats::median(a)");
    let read = plain.namespace_reads.values().next().expect("a read");
    assert_eq!(read.package, "stats");
    assert_eq!(read.name.as_deref(), Some("median"));
    assert!(!read.internal);
}

#[test]
fn impossible_targets_are_refused() {
    let naming = naming_of("f <- function(a, b) a + b <- 1");
    assert_eq!(naming.invalid_assignment_targets.len(), 1);
    let target = &naming.invalid_assignment_targets[0];
    assert_eq!(target.range, TextRange { start: 20, end: 25 });
    assert_eq!(target.operand_gap, Some(TextRange { start: 21, end: 24 }));
}

#[test]
fn unread_parameters_are_listed() {
    let naming = naming_of("f <- function(a, b, ...) a");
    let names: Vec<&str> = naming
        .unused_parameters
        .iter()
        .map(|unused| unused.name.as_str())
        .collect();
    assert_eq!(names, ["b"]);
}

// ---- lints ----

fn quiet_config() -> LintConfig {
    LintConfig {
        naming_style: None,
        assignment_operator: LintLevel::Off,
        boolean_shorthand: LintLevel::Off,
        missing_comma: LintLevel::Default,
        trailing_comma: LintLevel::Off,
        unused_parameter: LintLevel::Default,
        unused_import: LintLevel::Default,
        shadows_builtin: LintLevel::Default,
        shadows_namespace: LintLevel::Default,
    }
}

fn lint_items(root: &SyntaxNode) -> Vec<LintItem> {
    root.children
        .iter()
        .filter_map(|element| match element {
            SyntaxElement::Node(node) if node.kind.expression() => {
                let module = lower_item(node);
                let naming = resolve_item(&module);
                let name = naming
                    .bindings
                    .iter()
                    .find(|binding| binding.kind == BindingKind::TopLevel)
                    .map(|binding| binding.name.clone());
                Some(LintItem {
                    range: TextRange { start: 0, end: node.range.end },
                    name,
                    is_method: false,
                    naming: Some(naming),
                })
            }
            _ => None,
        })
        .collect()
}

fn lints(source: &str, config: &LintConfig) -> Vec<(&'static str, String)> {
    let root = parse(source);
    let corpus = StubCorpus {
        own_package: None,
        namespaces: Some(vec![
            NamespaceStub {
                package: "base".to_string(),
                exports: vec!["print".to_string()],
            },
            NamespaceStub {
                package: "stats".to_string(),
                exports: vec!["filter".to_string()],
            },
        ]),
        schemes: Vec::new(),
    };
    let generics = vec!["draw".to_string()];
    lint_file(&root, &lint_items(&root), &generics, &corpus, config)
        .into_iter()
        .map(|diagnostic| (diagnostic.code, diagnostic.message))
        .collect()
}

#[test]
fn default_lints_report_style() {
    let config = LintConfig::default();
    assert_eq!(
        lints("x = f(T, 1,)", &config),
        [
            ("assignment-operator", "Use <-, not =, for assignment".to_string()),
            ("boolean-shorthand", "Use TRUE, not T, for Boolean values".to_string()),
            ("trailing-comma", "Unexpected comma after last argument".to_string()),
        ]
    );
    assert!(lints("x = f(T, 1,)", &quiet_config()).is_empty());
    // Type syntax is no shorthand.
    assert!(lints("#: <T> fn(x: T) -> T\nid <- function(x) x", &config).is_empty());
}

#[test]
fn levels_force_severities() {
    let root = parse("x = F");
    let mut config = LintConfig::default();
    config.assignment_operator = LintLevel::Error;
    let found = lint_file(&root, &Vec::new(), &Vec::new(), &StubCorpus::absent(), &config);
    assert_eq!(found.len(), 2);
    assert_eq!(found[0].severity, Severity::Error);
    assert_eq!(found[0].range, TextRange { start: 2, end: 3 });
    assert_eq!(found[1].severity, Severity::Warning);
    assert_eq!(found[1].message, "Use FALSE, not F, for Boolean values");
}

#[test]
fn names_are_held_to_the_configured_style() {
    let mut config = quiet_config();
    config.naming_style = Some(NameStyle::Snake);
    assert_eq!(
        lints("someName <- function(otherName) 1", &config),
        [
            (
                "naming-style",
                "Variable `someName` should have snake_case name, e.g. some_name".to_string()
            ),
            (
                "naming-style",
                "Parameter `otherName` should have snake_case name, e.g. other_name".to_string()
            ),
        ]
    );
    assert!(lints("MAX_SIZE_2 <- 1", &config).is_empty());
    config.naming_style = Some(NameStyle::Camel);
    assert_eq!(
        lints("some_name <- 1", &config),
        [(
            "naming-style",
            "Variable `some_name` should have camelCase name, e.g. someName".to_string()
        )]
    );
}

#[test]
fn cases_follow_unicode() {
    assert_eq!(
        naming_style_message("größeÄndern", NameStyle::Snake, "Variable"),
        Some("Variable `größeÄndern` should have snake_case name, e.g. größe_ändern".to_string())
    );
    assert_eq!(to_camel_case(&cases_of("a_ßb")), "aSSb");
    assert_eq!(to_snake_case(&cases_of("HTTPCode")), "h_t_t_p_code");
    assert_eq!(naming_style_message("A٣", NameStyle::Snake, "Variable"), None);
}

#[test]
fn taking_the_advice_ends_the_finding() {
    for name in ["someName", "HTTPCode", "_lead_ing_", "a__B", "x1Y2", "plain", "Up_And_down"] {
        for style in [NameStyle::Camel, NameStyle::Snake] {
            let advice = match style {
                NameStyle::Camel => to_camel_case(&cases_of(name)),
                NameStyle::Snake => to_snake_case(&cases_of(name)),
            };
            let word = match style {
                NameStyle::Camel => "camelCase",
                NameStyle::Snake => "snake_case",
            };
            match naming_style_message(name, style, "Variable") {
                Some(message) => {
                    assert_ne!(advice, name);
                    assert_eq!(
                        message,
                        format!("Variable `{name}` should have {word} name, e.g. {advice}")
                    );
                }
                None => assert_eq!(advice, name),
            }
            assert_eq!(naming_style_message(&advice, style, "Variable"), None);
        }
    }
    for constant in ["MAX", "MAX_SIZE_2", "_A", "9_Z"] {
        assert_eq!(naming_style_message(constant, NameStyle::Camel, "Variable"), None);
        assert_eq!(naming_style_message(constant, NameStyle::Snake, "Variable"), None);
    }
}

#[test]
fn the_missing_comma_setting_changes_nothing() {
    let source = "x = f(T, 1,)\nprint <- function(someName, a) 1\nfilter <- 1";
    let mut config = LintConfig::default();
    let found = lints(source, &config);
    assert!(!found.is_empty());
    for (code, _) in &found {
        assert!(
            !["naming-style", "unused-parameter", "shadows-builtin", "shadows-namespace"]
                .contains(code)
        );
    }
    for level in [LintLevel::Off, LintLevel::Warn, LintLevel::Error] {
        config.missing_comma = level;
        assert_eq!(lints(source, &config), found);
    }
}

#[test]
fn unused_parameters_are_an_opt_in_lint() {
    let mut config = quiet_config();
    assert!(lints("f <- function(a) 1", &config).is_empty());
    config.unused_parameter = LintLevel::Warn;
    assert_eq!(
        lints("f <- function(a) 1", &config),
        [("unused-parameter", "parameter `a` is never used.".to_string())]
    );
    // A generic declares what it dispatches on.
    assert!(lints("draw <- function(a) 1", &config).is_empty());
}

#[test]
fn shadowed_names_are_an_opt_in_lint() {
    let mut config = quiet_config();
    config.shadows_builtin = LintLevel::Warn;
    assert_eq!(
        lints("print <- 1", &config),
        [("shadows-builtin", "Top-level binding `print` shadows a builtin.".to_string())]
    );
    assert!(lints("filter <- 1", &config).is_empty());
    config.shadows_builtin = LintLevel::Off;
    config.shadows_namespace = LintLevel::Error;
    assert_eq!(
        lints("filter <- 1", &config),
        [(
            "shadows-namespace",
            "Top-level binding `filter` shadows `stats::filter`.".to_string()
        )]
    );
    assert!(lints("print <- 1", &config).is_empty());
}

// ---- package metadata ----

#[test]
fn namespace_directives_are_read_in_order() {
    let root = parse("import(stats, utils)\nimportFrom(\"dplyr\", mutate)\nexport(f, \"g\")\nexportPattern(\"x\")");
    let imports = parse_namespace_imports(&root);
    let facts: Vec<(&str, Option<&str>)> = imports
        .iter()
        .map(|import| (import.namespace.as_str(), import.name.as_deref()))
        .collect();
    assert_eq!(
        facts,
        [("stats", None), ("utils", None), ("dplyr", Some("mutate"))]
    );
    assert_eq!(imports[0].range, TextRange { start: 7, end: 12 });
    let exports: Vec<String> = parse_namespace_exports(&root)
        .into_iter()
        .map(|(name, _)| name)
        .collect();
    assert_eq!(exports, ["f", "g"]);
    assert_eq!(
        normalized_imports(&imports),
        [
            ("dplyr".to_string(), Some("mutate".to_string())),
            ("stats".to_string(), None),
            ("utils".to_string(), None),
        ]
    );
    // Directive order and repetition do not matter.
    let other = parse("importFrom(dplyr, mutate)\nimport(utils)\nimport(stats)\nimport(utils)");
    assert_eq!(
        normalized_imports(&parse_namespace_imports(&other)),
        normalized_imports(&imports)
    );
}

#[test]
fn exceptions_of_an_import_are_not_imported() {
    let facts = |source: &str| {
        parse_namespace_imports(&parse(source))
            .into_iter()
            .map(|import| (import.namespace, import.name))
            .collect::<Vec<_>>()
    };
    let whole = |name: &str| (name.to_string(), None);
    assert_eq!(facts("import(rlang, except = \"abort\")\n"), [whole("rlang")]);
    assert_eq!(
        facts("import(rlang, stats, except = c(abort, warn))\n"),
        [whole("rlang"), whole("stats")]
    );
}

#[test]
fn attached_packages_are_collected_in_order() {
    let first = parse("f <- function() requireNamespace(\"zoo\")\nlibrary(dplyr)");
    let second = parse("library(package = skipped, bits)\nlibrary(paste0(x))\nother(y)");
    assert_eq!(file_attached_namespaces(&first), ["dplyr", "zoo"]);
    assert_eq!(attached_union(&vec![first, second]), ["bits", "dplyr", "zoo"]);
}

#[test]
fn imports_decide_which_bare_names_are_known() {
    let corpus = StubCorpus {
        own_package: None,
        namespaces: Some(vec![NamespaceStub {
            package: "stats".to_string(),
            exports: vec!["median".to_string()],
        }]),
        schemes: Vec::new(),
    };
    let metadata = PackageMetadata {
        imports: vec![
            ("stats".to_string(), None),
            ("dplyr".to_string(), Some("mutate".to_string())),
        ],
        dependencies: vec!["rlang".to_string()],
        attached: Vec::new(),
        package: Some("mine".to_string()),
    };
    let some = Some(&metadata);
    assert!(imported_by_name(some, &corpus, "median"));
    assert!(imported_by_name(some, &corpus, "mutate"));
    assert!(!imported_bare(some, &corpus, "select"));
    assert!(!imports_every_name(some, &corpus));
    assert!(!imported_bare(None, &corpus, "mutate"));
    assert!(!imports_every_name(None, &corpus));
    assert!(!declared_dependency(None, "rlang"));
    assert!(!namespace_active(None, &Vec::new(), "rlang"));
    assert!(is_own_package(some, "mine"));
    assert!(!is_own_package(None, "mine"));
    assert!(declared_dependency(some, "rlang") && declared_dependency(some, "dplyr"));
    assert!(!declared_dependency(some, "mine"));
    let metas = vec![MetaPackage {
        name: "rlang".to_string(),
        members: vec!["vctrs".to_string()],
    }];
    assert!(namespace_active(some, &metas, "vctrs"));
    assert!(!namespace_active(some, &metas, "tibble"));
    // An attached package nothing describes hides every unknown name; the
    // project's own does not.
    let attaching = |name: &str| PackageMetadata {
        imports: Vec::new(),
        dependencies: Vec::new(),
        attached: vec![name.to_string()],
        package: Some("mine".to_string()),
    };
    assert!(imports_every_name(Some(&attaching("odd")), &corpus));
    assert!(imported_bare(Some(&attaching("odd")), &corpus, "anything"));
    assert!(!imports_every_name(Some(&attaching("mine")), &corpus));
    assert!(!imports_every_name(Some(&attaching("stats")), &corpus));
}

// ---- numbers ----

#[test]
fn whole_doubles_are_recognized() {
    for text in ["1", "2.0", "1e3", "12.5e1", "0", "1e308"] {
        assert!(is_whole_number_double(text), "{text}");
    }
    for text in ["1.5", "1e-1", "1e309", "x", "", "0x10"] {
        assert!(!is_whole_number_double(text), "{text}");
    }
}

#[test]
fn literals_round_to_the_nearest_double() {
    let limit = "179769313486231580793728971405303415079934132710037826936173778980444968292764750946649017977587207096330286416692887910946555547851940402630657488671505820681908902000708383676273854845817711531764475730270069855571366959622842914819860834936475292719074168444365510704342711559699508093042880177904174497792";
    let below = format!("{}1", &limit[..limit.len() - 1]);
    let texts = [
        "0.99999999999999999999",
        "1.0000000000000001",
        "1.0000000000000002",
        "1e-400",
        "4e-324",
        "2e-324",
        "9007199254740993",
        "9007199254740991.5",
        "4503599627370495.5",
        "4503599627370496.5",
        "2251799813685248.25",
        "1e22",
        "123456789.000000001",
        "18446744073709551615",
        "18446744073709551616",
        "-3",
        "-2.5",
        "+7.",
        ".5",
        "00000000000000000000000000000012",
        "0e999999999999999999999999",
        "1e999999999999999999999999",
        "1e-999999999999999999999999",
        "1.7976931348623157e308",
        "1.7976931348623159e308",
        limit,
        below.as_str(),
    ];
    for text in texts {
        let value: f64 = text.parse().expect("a number");
        let whole = value.fract() == 0.0 && value.is_finite();
        assert_eq!(is_whole_number_double(text), whole, "{text}");
        let position = if whole && value >= 1.0 {
            (value as usize).checked_sub(1)
        } else {
            None
        };
        let literal = ExpressionKind::Literal(LiteralKind::Double(text.to_string()));
        assert_eq!(integer_literal_position(&literal), position, "{text}");
    }
}

#[test]
fn literal_positions_count_from_zero() {
    let integer = |text: &str| ExpressionKind::Literal(LiteralKind::Integer(text.to_string()));
    let double = |text: &str| ExpressionKind::Literal(LiteralKind::Double(text.to_string()));
    assert_eq!(integer_literal_position(&integer("1L")), Some(0));
    assert_eq!(integer_literal_position(&integer("12L")), Some(11));
    assert_eq!(integer_literal_position(&integer("0L")), None);
    assert_eq!(integer_literal_position(&double("3")), Some(2));
    assert_eq!(integer_literal_position(&double("3.5")), None);
    assert_eq!(integer_literal_position(&double("0")), None);
    assert_eq!(integer_literal_position(&double("1e300")), Some(usize::MAX - 1));
    assert_eq!(integer_literal_position(&ExpressionKind::Break), None);
}

// ---- a small parser for the sources above ----

fn token(kind: SyntaxKind, text: &str, start: usize) -> SyntaxToken {
    SyntaxToken {
        kind,
        text: text.to_string(),
        range: TextRange {
            start: start as u32,
            end: (start + text.len()) as u32,
        },
    }
}

fn keyword(text: &str) -> SyntaxKind {
    match text {
        "TRUE" => SyntaxKind::TrueKw,
        "FALSE" => SyntaxKind::FalseKw,
        "NULL" => SyntaxKind::NullKw,
        "Inf" => SyntaxKind::InfKw,
        "NaN" => SyntaxKind::NanKw,
        "NA" => SyntaxKind::NaKw,
        "NA_integer_" => SyntaxKind::NaIntegerKw,
        "NA_real_" => SyntaxKind::NaRealKw,
        "NA_character_" => SyntaxKind::NaCharacterKw,
        "function" => SyntaxKind::FunctionKw,
        "if" => SyntaxKind::IfKw,
        "else" => SyntaxKind::ElseKw,
        "for" => SyntaxKind::ForKw,
        "in" => SyntaxKind::InKw,
        "while" => SyntaxKind::WhileKw,
        "repeat" => SyntaxKind::RepeatKw,
        "break" => SyntaxKind::BreakKw,
        "next" => SyntaxKind::NextKw,
        "..." => SyntaxKind::Dots,
        "_" => SyntaxKind::Underscore,
        _ => SyntaxKind::Ident,
    }
}

const OPERATORS: [(&str, SyntaxKind); 46] = [
    ("->>", SyntaxKind::MinusGreater2),
    ("<<-", SyntaxKind::Less2Minus),
    (":::", SyntaxKind::Colon3),
    ("->", SyntaxKind::MinusGreater),
    ("<-", SyntaxKind::LessMinus),
    ("<=", SyntaxKind::LessEq),
    (">=", SyntaxKind::GreaterEq),
    ("==", SyntaxKind::Eq2),
    ("!=", SyntaxKind::BangEq),
    ("&&", SyntaxKind::Amp2),
    ("||", SyntaxKind::Pipe2),
    ("|>", SyntaxKind::PipeGreater),
    (":=", SyntaxKind::ColonEq),
    ("::", SyntaxKind::Colon2),
    ("[[", SyntaxKind::LBracket2),
    ("#:", SyntaxKind::AnnotationMarker),
    ("=", SyntaxKind::Eq),
    ("<", SyntaxKind::Less),
    (">", SyntaxKind::Greater),
    ("&", SyntaxKind::Amp),
    ("|", SyntaxKind::Pipe),
    ("!", SyntaxKind::Bang),
    ("+", SyntaxKind::Plus),
    ("-", SyntaxKind::Minus),
    ("*", SyntaxKind::Star),
    ("/", SyntaxKind::Slash),
    ("^", SyntaxKind::Caret),
    (":", SyntaxKind::Colon),
    ("~", SyntaxKind::Tilde),
    ("?", SyntaxKind::Question),
    ("$", SyntaxKind::Dollar),
    ("@", SyntaxKind::At),
    ("(", SyntaxKind::LParen),
    (")", SyntaxKind::RParen),
    ("{", SyntaxKind::LBrace),
    ("}", SyntaxKind::RBrace),
    ("[", SyntaxKind::LBracket),
    ("]", SyntaxKind::RBracket),
    (",", SyntaxKind::Comma),
    (";", SyntaxKind::Semicolon),
    ("\\", SyntaxKind::Backslash),
    ("\n", SyntaxKind::Newline),
    ("\r", SyntaxKind::Whitespace),
    ("\t", SyntaxKind::Whitespace),
    (" ", SyntaxKind::Whitespace),
    ("`", SyntaxKind::Unrecognized),
];

fn word_end(bytes: &[u8], from: usize) -> usize {
    let mut end = from;
    while end < bytes.len()
        && (bytes[end].is_ascii_alphanumeric() || bytes[end] == b'.' || bytes[end] == b'_')
    {
        end += 1;
    }
    end
}

fn lex(source: &str) -> Vec<SyntaxToken> {
    let bytes = source.as_bytes();
    let mut tokens = Vec::new();
    let mut at = 0;
    while at < bytes.len() {
        let c = bytes[at];
        let mut end = at + 1;
        let kind;
        if c == b'#' && bytes.get(at + 1) != Some(&b':') {
            while end < bytes.len() && bytes[end] != b'\n' {
                end += 1;
            }
            kind = SyntaxKind::Comment;
        } else if (c == b'r' || c == b'R')
            && (bytes.get(at + 1) == Some(&b'"') || bytes.get(at + 1) == Some(&b'\''))
        {
            let quote = bytes[at + 1];
            end = at + 2;
            while bytes[end] != quote || bytes[end - 1] == b'(' {
                end += 1;
            }
            end += 1;
            kind = SyntaxKind::RawString;
        } else if c == b'"' || c == b'\'' {
            while bytes[end] != c {
                end += 1;
            }
            end += 1;
            kind = SyntaxKind::StringLiteral;
        } else if c == b'`' {
            while bytes[end] != c {
                end += 1;
            }
            end += 1;
            kind = SyntaxKind::Ident;
        } else if c == b'%' {
            while bytes[end] != c {
                end += 1;
            }
            end += 1;
            kind = SyntaxKind::Special;
        } else if c.is_ascii_digit() {
            end = word_end(bytes, at);
            kind = match bytes[end - 1] {
                b'L' => SyntaxKind::Integer,
                b'i' => SyntaxKind::Complex,
                _ => SyntaxKind::Double,
            };
        } else if c.is_ascii_alphabetic() || c == b'.' || c == b'_' {
            end = word_end(bytes, at);
            kind = keyword(&source[at..end]);
        } else {
            let (text, found) = OPERATORS
                .iter()
                .find(|(text, _)| source[at..].starts_with(text))
                .expect("a known token");
            end = at + text.len();
            kind = *found;
        }
        tokens.push(token(kind, &source[at..end], at));
        at = end;
    }
    tokens
}

struct Parser {
    tokens: Vec<SyntaxToken>,
    at: usize,
}

fn node(kind: SyntaxKind, children: Vec<SyntaxElement>) -> SyntaxNode {
    let range_of = |element: &SyntaxElement| match element {
        SyntaxElement::Node(node) => node.range,
        SyntaxElement::Token(token) => token.range,
    };
    let range = match (children.first(), children.last()) {
        (Some(first), Some(last)) => TextRange {
            start: range_of(first).start,
            end: range_of(last).end,
        },
        _ => TextRange { start: 0, end: 0 },
    };
    SyntaxNode {
        kind,
        range,
        children,
    }
}

/// How tightly a binary operator binds on its left and on its right.
fn powers(kind: SyntaxKind) -> Option<(u8, u8)> {
    Some(match kind {
        SyntaxKind::Question => (2, 3),
        SyntaxKind::Eq => (5, 4),
        SyntaxKind::LessMinus | SyntaxKind::Less2Minus | SyntaxKind::ColonEq => (7, 6),
        SyntaxKind::MinusGreater | SyntaxKind::MinusGreater2 => (8, 9),
        SyntaxKind::Tilde => (10, 11),
        SyntaxKind::Pipe | SyntaxKind::Pipe2 => (12, 13),
        SyntaxKind::Amp | SyntaxKind::Amp2 => (14, 15),
        SyntaxKind::Less
        | SyntaxKind::Greater
        | SyntaxKind::LessEq
        | SyntaxKind::GreaterEq
        | SyntaxKind::Eq2
        | SyntaxKind::BangEq => (18, 19),
        SyntaxKind::Plus | SyntaxKind::Minus => (20, 21),
        SyntaxKind::Star | SyntaxKind::Slash => (22, 23),
        SyntaxKind::Special | SyntaxKind::PipeGreater => (24, 25),
        SyntaxKind::Colon => (26, 27),
        SyntaxKind::Caret => (31, 30),
        _ => return None,
    })
}

impl Parser {
    fn peek(&self, lines: bool) -> Option<SyntaxKind> {
        self.tokens[self.at..]
            .iter()
            .map(|token| token.kind)
            .find(|kind| {
                !matches!(kind, SyntaxKind::Whitespace | SyntaxKind::Comment)
                    && !(lines && *kind == SyntaxKind::Newline)
            })
    }

    fn take(&mut self) -> SyntaxElement {
        let taken = &self.tokens[self.at];
        let copy = token(taken.kind, &taken.text, taken.range.start as usize);
        self.at += 1;
        SyntaxElement::Token(copy)
    }

    /// Takes trivia, and the token after it.
    fn bump(&mut self, into: &mut Vec<SyntaxElement>, lines: bool) {
        self.skip(into, lines);
        let taken = self.take();
        into.push(taken);
    }

    fn skip(&mut self, into: &mut Vec<SyntaxElement>, lines: bool) {
        while self.at < self.tokens.len() {
            let kind = self.tokens[self.at].kind;
            if matches!(kind, SyntaxKind::Whitespace | SyntaxKind::Comment)
                || (lines && kind == SyntaxKind::Newline)
            {
                let taken = self.take();
                into.push(taken);
            } else {
                break;
            }
        }
    }

    fn child(&mut self, into: &mut Vec<SyntaxElement>, power: u8, lines: bool) {
        self.skip(into, true);
        let parsed = self.expression(power, lines);
        into.push(SyntaxElement::Node(parsed));
    }

    fn wrapped(&mut self, kind: SyntaxKind) -> SyntaxNode {
        let taken = self.take();
        node(kind, vec![taken])
    }

    /// An expression. `lines` says that a line end does not end it.
    fn expression(&mut self, power: u8, lines: bool) -> SyntaxNode {
        let mut left = self.prefix(lines);
        loop {
            let Some(kind) = self.peek(lines) else {
                return left;
            };
            let postfix = match kind {
                SyntaxKind::LParen => Some(SyntaxKind::CallExpr),
                SyntaxKind::LBracket => Some(SyntaxKind::SubsetExpr),
                SyntaxKind::LBracket2 => Some(SyntaxKind::Subset2Expr),
                _ => None,
            };
            let member = match kind {
                SyntaxKind::Dollar => Some(SyntaxKind::DollarExpr),
                SyntaxKind::At => Some(SyntaxKind::AtExpr),
                SyntaxKind::Colon2 | SyntaxKind::Colon3 => Some(SyntaxKind::NamespaceExpr),
                _ => None,
            };
            let mut children = Vec::new();
            if let Some(postfix) = postfix {
                children.push(SyntaxElement::Node(left));
                self.skip(&mut children, lines);
                let list = self.arguments();
                children.push(SyntaxElement::Node(list));
                left = node(postfix, children);
            } else if let Some(member) = member {
                children.push(SyntaxElement::Node(left));
                self.bump(&mut children, lines);
                self.skip(&mut children, true);
                let name = self.prefix(lines);
                children.push(SyntaxElement::Node(name));
                left = node(member, children);
            } else {
                match powers(kind) {
                    Some((own, right)) if own >= power => {
                        children.push(SyntaxElement::Node(left));
                        self.bump(&mut children, lines);
                        self.child(&mut children, right, lines);
                        left = node(SyntaxKind::BinaryExpr, children);
                    }
                    _ => return left,
                }
            }
        }
    }

    fn prefix(&mut self, lines: bool) -> SyntaxNode {
        let mut children = Vec::new();
        match self.tokens[self.at].kind {
            SyntaxKind::Ident | SyntaxKind::Dots | SyntaxKind::Underscore => {
                self.wrapped(SyntaxKind::Name)
            }
            SyntaxKind::Minus | SyntaxKind::Plus => {
                self.bump(&mut children, false);
                self.child(&mut children, 28, lines);
                node(SyntaxKind::UnaryExpr, children)
            }
            SyntaxKind::Bang => {
                self.bump(&mut children, false);
                self.child(&mut children, 16, lines);
                node(SyntaxKind::UnaryExpr, children)
            }
            SyntaxKind::Tilde | SyntaxKind::Question => {
                self.bump(&mut children, false);
                self.child(&mut children, 11, lines);
                node(SyntaxKind::UnaryExpr, children)
            }
            SyntaxKind::LParen => {
                self.bump(&mut children, false);
                self.child(&mut children, 0, true);
                self.bump(&mut children, true);
                node(SyntaxKind::ParenExpr, children)
            }
            SyntaxKind::LBrace => {
                self.bump(&mut children, false);
                self.statements(&mut children);
                self.bump(&mut children, true);
                node(SyntaxKind::BraceExpr, children)
            }
            SyntaxKind::FunctionKw => {
                self.bump(&mut children, false);
                self.skip(&mut children, true);
                let list = self.parameters();
                children.push(SyntaxElement::Node(list));
                self.child(&mut children, 4, lines);
                node(SyntaxKind::FunctionDef, children)
            }
            SyntaxKind::IfKw => {
                self.bump(&mut children, false);
                self.bump(&mut children, true);
                self.child(&mut children, 0, true);
                self.bump(&mut children, true);
                self.child(&mut children, 4, lines);
                if self.peek(true) == Some(SyntaxKind::ElseKw) {
                    self.bump(&mut children, true);
                    self.child(&mut children, 4, lines);
                }
                node(SyntaxKind::IfExpr, children)
            }
            SyntaxKind::ForKw => {
                self.bump(&mut children, false);
                self.bump(&mut children, true);
                self.skip(&mut children, true);
                let variable = self.wrapped(SyntaxKind::Name);
                children.push(SyntaxElement::Node(variable));
                self.bump(&mut children, true);
                self.child(&mut children, 0, true);
                self.bump(&mut children, true);
                self.child(&mut children, 4, lines);
                node(SyntaxKind::ForExpr, children)
            }
            SyntaxKind::WhileKw => {
                self.bump(&mut children, false);
                self.bump(&mut children, true);
                self.child(&mut children, 0, true);
                self.bump(&mut children, true);
                self.child(&mut children, 4, lines);
                node(SyntaxKind::WhileExpr, children)
            }
            SyntaxKind::RepeatKw => {
                self.bump(&mut children, false);
                self.child(&mut children, 4, lines);
                node(SyntaxKind::RepeatExpr, children)
            }
            SyntaxKind::BreakKw => self.wrapped(SyntaxKind::BreakExpr),
            SyntaxKind::NextKw => self.wrapped(SyntaxKind::NextExpr),
            _ => self.wrapped(SyntaxKind::Literal),
        }
    }

    fn statements(&mut self, into: &mut Vec<SyntaxElement>) {
        loop {
            self.skip(into, true);
            match self.peek(true) {
                None | Some(SyntaxKind::RBrace) => return,
                Some(SyntaxKind::Semicolon) => self.bump(into, true),
                Some(_) => self.child(into, 0, false),
            }
        }
    }

    fn arguments(&mut self) -> SyntaxNode {
        let mut children = Vec::new();
        let double = self.tokens[self.at].kind == SyntaxKind::LBracket2;
        self.bump(&mut children, false);
        loop {
            self.skip(&mut children, true);
            match self.peek(true) {
                Some(SyntaxKind::Comma) => self.bump(&mut children, true),
                Some(SyntaxKind::RParen | SyntaxKind::RBracket) => {
                    self.bump(&mut children, true);
                    if double {
                        self.bump(&mut children, true);
                    }
                    return node(SyntaxKind::ArgumentList, children);
                }
                _ => {
                    let mut argument = Vec::new();
                    let tag = self.expression(6, true);
                    argument.push(SyntaxElement::Node(tag));
                    if self.peek(true) == Some(SyntaxKind::Eq) {
                        self.bump(&mut argument, true);
                        if !matches!(
                            self.peek(true),
                            Some(SyntaxKind::Comma | SyntaxKind::RParen)
                        ) {
                            self.child(&mut argument, 6, true);
                        }
                    }
                    let argument = node(SyntaxKind::Argument, argument);
                    children.push(SyntaxElement::Node(argument));
                }
            }
        }
    }

    fn parameters(&mut self) -> SyntaxNode {
        let mut children = Vec::new();
        self.bump(&mut children, false);
        loop {
            self.skip(&mut children, true);
            match self.peek(true) {
                Some(SyntaxKind::Comma) => self.bump(&mut children, true),
                Some(SyntaxKind::RParen) => {
                    self.bump(&mut children, true);
                    return node(SyntaxKind::ParameterList, children);
                }
                _ => {
                    let mut parameter = Vec::new();
                    self.bump(&mut parameter, false);
                    if self.peek(true) == Some(SyntaxKind::Eq) {
                        self.bump(&mut parameter, true);
                        self.child(&mut parameter, 6, true);
                    }
                    let parameter = node(SyntaxKind::Parameter, parameter);
                    children.push(SyntaxElement::Node(parameter));
                }
            }
        }
    }

    // ---- annotations ----

    fn name(&mut self, into: &mut Vec<SyntaxElement>) {
        self.skip(into, false);
        let name = self.wrapped(SyntaxKind::Name);
        into.push(SyntaxElement::Node(name));
    }

    fn typed(&mut self, into: &mut Vec<SyntaxElement>) {
        self.skip(into, false);
        let ty = self.union();
        into.push(SyntaxElement::Node(ty));
    }

    fn union(&mut self) -> SyntaxNode {
        let first = self.vector();
        if self.peek(false) != Some(SyntaxKind::Pipe) {
            return first;
        }
        let mut children = vec![SyntaxElement::Node(first)];
        while self.peek(false) == Some(SyntaxKind::Pipe) {
            self.bump(&mut children, false);
            self.skip(&mut children, false);
            let member = self.vector();
            children.push(SyntaxElement::Node(member));
        }
        node(SyntaxKind::TypeUnion, children)
    }

    fn vector(&mut self) -> SyntaxNode {
        let mut ty = self.primary();
        while self.peek(false) == Some(SyntaxKind::LBracket) {
            let mut children = vec![SyntaxElement::Node(ty)];
            self.bump(&mut children, false);
            if self.peek(false) == Some(SyntaxKind::Ident) {
                self.bump(&mut children, false);
            }
            self.bump(&mut children, false);
            ty = node(SyntaxKind::TypeVector, children);
        }
        ty
    }

    fn types_until(&mut self, close: SyntaxKind, into: &mut Vec<SyntaxElement>) {
        self.bump(into, false);
        while self.peek(false) != Some(close) {
            if self.peek(false) == Some(SyntaxKind::Comma) {
                self.bump(into, false);
            } else {
                self.typed(into);
            }
        }
        self.bump(into, false);
    }

    fn primary(&mut self) -> SyntaxNode {
        let mut children = Vec::new();
        if self.tokens[self.at].kind == SyntaxKind::LParen {
            self.bump(&mut children, false);
            self.typed(&mut children);
            self.bump(&mut children, false);
            return node(SyntaxKind::TypeParen, children);
        }
        if self.tokens[self.at].kind == SyntaxKind::LBracket {
            self.types_until(SyntaxKind::RBracket, &mut children);
            return node(SyntaxKind::TypeTuple, children);
        }
        if self.tokens[self.at].text == "fn" {
            self.bump(&mut children, false);
            let list = self.type_parameters();
            children.push(SyntaxElement::Node(list));
            if self.peek(false) == Some(SyntaxKind::MinusGreater) {
                self.bump(&mut children, false);
                self.typed(&mut children);
            }
            return node(SyntaxKind::TypeFunction, children);
        }
        if self.tokens[self.at].text == "list" {
            self.bump(&mut children, false);
            if self.peek(false) == Some(SyntaxKind::LBrace) {
                self.bump(&mut children, false);
                while self.peek(false) != Some(SyntaxKind::RBrace) {
                    if self.peek(false) == Some(SyntaxKind::Comma) {
                        self.bump(&mut children, false);
                    } else {
                        self.skip(&mut children, false);
                        let mut field = Vec::new();
                        self.name(&mut field);
                        self.bump(&mut field, false);
                        self.typed(&mut field);
                        let field = node(SyntaxKind::TypeField, field);
                        children.push(SyntaxElement::Node(field));
                    }
                }
                self.bump(&mut children, false);
                return node(SyntaxKind::TypeRecord, children);
            }
            self.types_until(SyntaxKind::Greater, &mut children);
            return node(SyntaxKind::TypeList, children);
        }
        let after = self.tokens.get(self.at + 1).map(|token| token.kind);
        if after == Some(SyntaxKind::Less) {
            self.name(&mut children);
            let mut list = Vec::new();
            self.types_until(SyntaxKind::Greater, &mut list);
            let list = node(SyntaxKind::TypeArgList, list);
            children.push(SyntaxElement::Node(list));
            return node(SyntaxKind::TypeApply, children);
        }
        self.wrapped(SyntaxKind::TypeRef)
    }

    fn type_parameters(&mut self) -> SyntaxNode {
        let mut children = Vec::new();
        self.bump(&mut children, false);
        while self.peek(false) != Some(SyntaxKind::RParen) {
            if self.peek(false) == Some(SyntaxKind::Comma) {
                self.bump(&mut children, false);
                continue;
            }
            self.skip(&mut children, false);
            let mut parameter = Vec::new();
            if self.tokens[self.at].kind == SyntaxKind::Dots {
                self.bump(&mut parameter, false);
                if self.peek(false) == Some(SyntaxKind::Colon) {
                    self.bump(&mut parameter, false);
                    self.typed(&mut parameter);
                }
            } else if self.tokens[self.at].kind == SyntaxKind::LBracket {
                self.bump(&mut parameter, false);
                self.name(&mut parameter);
                self.bump(&mut parameter, false);
                self.bump(&mut parameter, false);
                self.typed(&mut parameter);
            } else if self.tokens[self.at + 1].kind == SyntaxKind::Colon {
                self.name(&mut parameter);
                self.bump(&mut parameter, false);
                self.typed(&mut parameter);
            } else {
                self.typed(&mut parameter);
            }
            let parameter = node(SyntaxKind::TypeParameter, parameter);
            children.push(SyntaxElement::Node(parameter));
        }
        self.bump(&mut children, false);
        node(SyntaxKind::TypeParameterList, children)
    }

    fn binder(&mut self) -> SyntaxNode {
        let mut children = Vec::new();
        self.name(&mut children);
        if self.peek(false) == Some(SyntaxKind::Colon) {
            self.bump(&mut children, false);
            while self.peek(false) == Some(SyntaxKind::Ident) {
                self.name(&mut children);
            }
        }
        node(SyntaxKind::TypeBinder, children)
    }

    fn binders(&mut self) -> SyntaxNode {
        let mut children = Vec::new();
        self.bump(&mut children, false);
        while self.peek(false) != Some(SyntaxKind::Greater) {
            if self.peek(false) == Some(SyntaxKind::Comma) {
                self.bump(&mut children, false);
            } else {
                self.skip(&mut children, false);
                let binder = self.binder();
                children.push(SyntaxElement::Node(binder));
            }
        }
        self.bump(&mut children, false);
        node(SyntaxKind::TypeBinderList, children)
    }

    fn directive(&mut self) -> SyntaxNode {
        let mut children = Vec::new();
        self.bump(&mut children, false);
        let mut name = String::new();
        while matches!(
            self.tokens[self.at].kind,
            SyntaxKind::Ident | SyntaxKind::Minus | SyntaxKind::IfKw
        ) {
            name.push_str(&self.tokens[self.at].text);
            self.bump(&mut children, false);
        }
        match name.as_str() {
            "forall" => {
                while self.peek(false) == Some(SyntaxKind::Ident) {
                    self.skip(&mut children, false);
                    let binder = self.binder();
                    children.push(SyntaxElement::Node(binder));
                    if self.peek(false) == Some(SyntaxKind::Comma) {
                        self.bump(&mut children, false);
                    }
                }
            }
            "param" => {
                let optional = self.peek(false) == Some(SyntaxKind::LBracket);
                if optional {
                    self.bump(&mut children, false);
                }
                self.name(&mut children);
                if optional {
                    self.bump(&mut children, false);
                }
                self.bump(&mut children, false);
                self.typed(&mut children);
                self.bump(&mut children, false);
            }
            "return" | "returns" => {
                self.bump(&mut children, false);
                self.typed(&mut children);
                self.bump(&mut children, false);
            }
            "type" | "alias" => {
                self.name(&mut children);
                if self.peek(false) == Some(SyntaxKind::Less) {
                    let list = self.binders();
                    children.push(SyntaxElement::Node(list));
                }
                self.bump(&mut children, false);
                self.typed(&mut children);
                self.bump(&mut children, false);
            }
            "strict" => {
                if self.peek(false) == Some(SyntaxKind::Ident) {
                    self.bump(&mut children, false);
                }
            }
            _ => self.typed(&mut children),
        }
        node(SyntaxKind::AnnotationDirective, children)
    }

    fn annotation(&mut self) -> SyntaxNode {
        let mut children = Vec::new();
        loop {
            self.bump(&mut children, true);
            while !matches!(self.peek(false), None | Some(SyntaxKind::Newline)) {
                self.skip(&mut children, false);
                let item = match self.tokens[self.at].kind {
                    SyntaxKind::At => self.directive(),
                    SyntaxKind::Less => self.binders(),
                    _ => self.union(),
                };
                children.push(SyntaxElement::Node(item));
            }
            let rest = &self.tokens[self.at..];
            if rest.len() < 2 || rest[1].kind != SyntaxKind::AnnotationMarker {
                return node(SyntaxKind::Annotation, children);
            }
        }
    }
}

fn parse(source: &str) -> SyntaxNode {
    let mut parser = Parser {
        tokens: lex(source),
        at: 0,
    };
    let mut children = Vec::new();
    loop {
        parser.skip(&mut children, true);
        match parser.peek(true) {
            None => return node(SyntaxKind::SourceFile, children),
            Some(SyntaxKind::AnnotationMarker) => {
                let annotation = parser.annotation();
                children.push(SyntaxElement::Node(annotation));
            }
            Some(SyntaxKind::Semicolon) => parser.bump(&mut children, true),
            Some(_) => parser.child(&mut children, 0, false),
        }
    }
}

fn child<'a>(root: &'a SyntaxNode, wanted: impl Fn(SyntaxKind) -> bool) -> Option<&'a SyntaxNode> {
    root.children.iter().find_map(|element| match element {
        SyntaxElement::Node(node) if wanted(node.kind) => Some(node),
        _ => None,
    })
}
