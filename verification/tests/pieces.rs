//! The parts that stand on their own: branch environments, reaching writes, text
//! order, near misses and operator methods.

use semantics::diagnostics::{distance, nearest_field_name};
use semantics::environment::{EnvEntry, Environment};
use semantics::findings::{sort_report, TypeError, TypeErrorKind};
use semantics::flow::{join_flow, FlowState, Reaches};
use semantics::literals::string_value;
use semantics::naturals::Natural;
use semantics::operands::arithmetic_method_prefixes;
use semantics::order::{add_text, comes_before};
use semantics::syntax::TextRange;
use semantics::type_ops::scalar;
use semantics::types::Atomic;

fn mono(atomic: Atomic) -> EnvEntry {
    EnvEntry::Mono(scalar(atomic))
}

#[test]
fn rolling_back_a_branch_leaves_no_trace() {
    let mut environment = Environment::new();
    environment.set(0, mono(Atomic::Integer));
    let mark = environment.mark();
    environment.set(0, mono(Atomic::Double));
    environment.set(7, mono(Atomic::Character));
    environment.set(0, mono(Atomic::Raw));
    let writes = environment.writes_since(mark);
    assert_eq!(writes.len(), 2);
    environment.rollback(mark);
    let kept = environment.get(0).expect("the slot was written before");
    assert!(kept.same(&mono(Atomic::Integer)));
    assert!(environment.get(7).is_none());
    assert_eq!(environment.mark(), mark);
}

fn flow(entries: &[(u32, u32)]) -> FlowState {
    let mut state = FlowState::empty();
    for (slot, write) in entries {
        state.insert(*slot, Reaches::write(*write));
    }
    state
}

#[test]
fn paths_meet_in_any_order() {
    let left = flow(&[(0, 1), (1, 2)]);
    let right = flow(&[(0, 3)]);
    let mut one = left.duplicate();
    join_flow(&mut one, &right);
    let mut other = right.duplicate();
    join_flow(&mut other, &left);
    assert!(one.same(&other));
    // Meeting again changes nothing.
    let before = one.duplicate();
    join_flow(&mut one, &left);
    assert!(one.same(&before));
    let reaches = one.get(0).expect("both paths write");
    assert!(reaches.has_write(1) && reaches.has_write(3) && !reaches.unassigned);
    // Only one path writes the other slot.
    assert!(one.get(1).expect("one path writes").unassigned);
}

#[test]
fn texts_are_kept_in_order_without_repetition() {
    let mut texts = Vec::new();
    for text in ["b", "a", "ab", "b", "B"] {
        add_text(&mut texts, text.to_string());
    }
    assert_eq!(texts, ["B", "a", "ab", "b"]);
    assert!(comes_before("a", "ab") && !comes_before("ab", "a") && !comes_before("a", "a"));
}

#[test]
fn distances_count_edits() {
    let chars = |text: &str| text.chars().collect::<Vec<char>>();
    assert_eq!(distance(&chars("kitten"), &chars("sitting")), 3);
    assert_eq!(distance(&chars("sitting"), &chars("kitten")), 3);
    assert_eq!(distance(&chars("same"), &chars("same")), 0);
    assert_eq!(distance(&chars(""), &chars("abc")), 3);
}

#[test]
fn near_misses_are_suggested() {
    let names = vec!["height".to_string(), "width".to_string()];
    assert_eq!(
        nearest_field_name("widht", &vec!["width".to_string()]),
        None
    );
    assert_eq!(nearest_field_name("widt", &names), Some("width".to_string()));
    assert_eq!(nearest_field_name("colour", &names), None);
}

#[test]
fn every_arithmetic_operator_names_a_method() {
    assert_eq!(
        arithmetic_method_prefixes(),
        ["+.", "-.", "*.", "/.", "^.", "%%.", "%/%.", "Arith.", "Ops."]
    );
}

#[test]
fn naturals_count_past_a_word() {
    let big = Natural::small(3).doubled(100);
    assert!(Natural::small(u32::MAX).is_less(&big));
    assert!(!big.is_less(&big));
    let one_less = big.minus(&Natural::small(1));
    assert!(one_less.is_less(&big));
    let back = one_less.times_plus(1, 1);
    assert!(!back.is_less(&big) && !big.is_less(&back));
}

#[test]
fn a_string_loses_its_own_quotes_alone() {
    assert_eq!(string_value("\"'a'\""), "'a'");
    assert_eq!(string_value("'\"a\"'"), "\"a\"");
    assert_eq!(string_value("\"\""), "");
    assert_eq!(string_value("'it''"), "it'");
    assert_eq!(string_value("r\"(a)\""), "a");
}

#[test]
fn a_finding_is_reported_once() {
    let finding = |start: u32, name: &str| TypeError {
        range: TextRange { start, end: 9 },
        kind: TypeErrorKind::AliasCycle {
            name: name.to_string(),
        },
    };
    let report = sort_report(&vec![
        finding(4, "a"),
        finding(4, "b"),
        finding(1, "a"),
        finding(4, "a"),
        finding(1, "a"),
    ]);
    assert_eq!(report, [finding(1, "a"), finding(4, "a"), finding(4, "b")]);
}
