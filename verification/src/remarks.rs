//! What lints say: the laws of their levels, their places and their messages.

use vstd::prelude::*;

use crate::globals;
use crate::lints::{self, DiagnosticV, LintConfig, LintItem, LintLevel, Severity};
use crate::literals;
use crate::syntax::{SyntaxElement, SyntaxKind, SyntaxNode, SyntaxToken, TextRange};
use crate::walk::{BindingKind, BindingV, UnusedV};

verus! {

/// A forced level is the severity it names, whatever a lint's own is; `off` is
/// none; and the default is the lint's own.
pub proof fn a_level_forces_its_severity(level: LintLevel, own: Severity)
    ensures
        lints::severity_at(level, own) is None <==> level == LintLevel::Off,
        level == LintLevel::Default ==> lints::severity_at(level, own) == Some(own),
        level == LintLevel::Warn ==> lints::severity_at(level, own) == Some(Severity::Warning),
        level == LintLevel::Error ==> lints::severity_at(level, own) == Some(Severity::Error),
        level != LintLevel::Default ==> lints::opted_in(level) == lints::severity_at(level, own),
        lints::opted_in(LintLevel::Default) is None,
{
}

/// `=` is reported as an assignment exactly where the lint is on, at the
/// operator; no other operator is.
pub proof fn equals_is_reported_as_an_assignment(
    node: SyntaxNode,
    config: LintConfig,
    done: Seq<DiagnosticV>,
    token: SyntaxToken,
)
    requires
        config.naming_style is None,
        literals::operator_of(node) == Some(token),
    ensures
        ({
            let all = lints::binary_lints(node, config, done);
            if token.kind == SyntaxKind::Eq && config.assignment_operator != LintLevel::Off {
                &&& all.drop_last() == done
                &&& all.len() == done.len() + 1
                &&& all.last().range == token.range
                &&& all.last().code == "assignment-operator"@
                &&& config.assignment_operator != LintLevel::Error ==> all.last().severity
                    == Severity::Warning
                &&& config.assignment_operator == LintLevel::Error ==> all.last().severity
                    == Severity::Error
            } else {
                all == done
            }
        }),
{
    let all = lints::binary_lints(node, config, done);
    if all.len() > done.len() {
        assert(all.drop_last() =~= done);
    }
}

/// `T` and `F` are reported outside annotations, each with the word it stands
/// for; no other token is.
pub proof fn shorthands_are_reported_with_their_word(
    token: SyntaxToken,
    inside: bool,
    config: LintConfig,
    done: Seq<DiagnosticV>,
    word: Seq<char>,
)
    requires
        word == "TRUE"@ || word == "FALSE"@,
    ensures
        ({
            let all = lints::token_lints(token, inside, config, done);
            let short = token.kind == SyntaxKind::Ident && !inside && (token.text@ == "T"@
                || token.text@ == "F"@) && config.boolean_shorthand != LintLevel::Off;
            &&& !short ==> all == done
            &&& short ==> {
                &&& all.len() == done.len() + 1
                &&& all.drop_last() == done
                &&& all.last().range == token.range
                &&& all.last().code == "boolean-shorthand"@
                &&& token.text@ == word.subrange(0, 1) ==> all.last().message == "Use "@ + word
                    + ", not "@ + token.text@ + ", for Boolean values"@
            }
        }),
{
    reveal_strlit("T");
    reveal_strlit("F");
    reveal_strlit("TRUE");
    reveal_strlit("FALSE");
    reveal_strlit("Use ");
    reveal_strlit(", not ");
    reveal_strlit(", for Boolean values");
    reveal_strlit("Use TRUE, not T, for Boolean values");
    reveal_strlit("Use FALSE, not F, for Boolean values");
    let all = lints::token_lints(token, inside, config, done);
    assert("T"@ =~= "TRUE"@.subrange(0, 1));
    assert("F"@ =~= "FALSE"@.subrange(0, 1));
    assert("T"@[0] == 'T' && "F"@[0] == 'F');
    assert("Use TRUE, not T, for Boolean values"@ =~= "Use "@ + "TRUE"@ + ", not "@ + "T"@
        + ", for Boolean values"@);
    assert("Use FALSE, not F, for Boolean values"@ =~= "Use "@ + "FALSE"@ + ", not "@ + "F"@
        + ", for Boolean values"@);
    if all.len() > done.len() {
        assert(all.drop_last() =~= done);
    }
}

/// Whether an element of an argument list is a comma.
pub open spec fn is_comma(element: SyntaxElement) -> bool {
    element is Token && element->Token_0.kind == SyntaxKind::Comma
}

/// Whether an element of an argument list is an argument.
pub open spec fn is_argument(element: SyntaxElement) -> bool {
    element is Node && element->Node_0.kind == SyntaxKind::Argument
}

/// A comma is loose exactly where neither a comma nor an argument follows it.
pub proof fn a_loose_comma_comes_last(
    elements: Seq<SyntaxElement>,
    from: int,
    last: Option<TextRange>,
    i: int,
)
    requires
        0 <= from <= elements.len(),
    ensures
        from <= i < elements.len() && is_comma(elements[i]) && (forall|k: int|
            i < k < elements.len() ==> !is_comma(#[trigger] elements[k]) && !is_argument(
                elements[k],
            )) ==> lints::loose_comma(elements, from, last) == Some(elements[i]->Token_0.range),
        from <= i < elements.len() && is_argument(elements[i]) && (forall|k: int|
            i < k < elements.len() ==> !is_comma(#[trigger] elements[k])) ==> lints::loose_comma(
            elements,
            from,
            last,
        ) is None,
        (forall|k: int|
            from <= k < elements.len() ==> !is_comma(#[trigger] elements[k]) && !is_argument(
                elements[k],
            )) ==> lints::loose_comma(elements, from, last) == last,
        last is None && (forall|k: int|
            from <= k < elements.len() ==> !is_comma(#[trigger] elements[k]))
            ==> lints::loose_comma(elements, from, last) is None,
    decreases elements.len() - from,
{
    if from < elements.len() {
        let next = match elements[from] {
            SyntaxElement::Token(token) => if token.kind == SyntaxKind::Comma {
                Some(token.range)
            } else {
                last
            },
            SyntaxElement::Node(node) => if node.kind == SyntaxKind::Argument {
                None
            } else {
                last
            },
        };
        a_loose_comma_comes_last(elements, from + 1, next, i);
    }
}

/// A trailing comma of a call is an error of its own place; the commas of an
/// index are not looked at.
pub proof fn a_trailing_comma_is_an_error(
    list: SyntaxNode,
    config: LintConfig,
    done: Seq<DiagnosticV>,
    range: TextRange,
)
    requires
        list.kind == SyntaxKind::ArgumentList,
        lints::loose_comma(list.children@, 0, None) == Some(range),
    ensures
        lints::own_lints(list, false, config, done) == done,
        config.trailing_comma == LintLevel::Off ==> lints::own_lints(list, true, config, done)
            == done,
        config.trailing_comma != LintLevel::Off ==> {
            let all = lints::own_lints(list, true, config, done);
            &&& all.len() == done.len() + 1
            &&& all.last().range == range
            &&& all.last().code == "trailing-comma"@
            &&& config.trailing_comma == LintLevel::Default ==> all.last().severity
                == Severity::Error
        },
{
}

/// Moving a range keeps its length, and moving twice is moving by both.
pub proof fn ranges_move_as_a_whole(range: TextRange, a: u32, b: u32)
    requires
        range.start + a + b <= u32::MAX,
        range.end + a + b <= u32::MAX,
    ensures
        lints::moved(range, a).start == range.start + a,
        lints::moved(range, a).end - lints::moved(range, a).start == range.end - range.start,
        lints::moved(lints::moved(range, a), b) == lints::moved(range, (a + b) as u32),
        lints::moved(range, 0) == range,
{
}

/// Every unused parameter is reported once, by its name and where its item
/// stands in the file.
pub proof fn every_unused_parameter_is_reported(
    unused: Seq<UnusedV>,
    from: int,
    severity: Severity,
    offset: u32,
    done: Seq<DiagnosticV>,
)
    requires
        0 <= from <= unused.len(),
    ensures
        ({
            let all = lints::unused_lints(unused, from, severity, offset, done);
            &&& all.len() == done.len() + unused.len() - from
            &&& forall|i: int| 0 <= i < done.len() ==> #[trigger] all[i] == done[i]
            &&& forall|i: int|
                done.len() <= i < all.len() ==> {
                    let one = unused[i - done.len() + from];
                    &&& (#[trigger] all[i]).code == "unused-parameter"@
                    &&& all[i].severity == severity
                    &&& all[i].range == lints::moved(one.range, offset)
                    &&& all[i].message == "parameter `"@ + one.name + "` is never used."@
                }
        }),
    decreases unused.len() - from,
{
    if from < unused.len() {
        let one = DiagnosticV {
            range: lints::moved(unused[from].range, offset),
            severity,
            code: "unused-parameter"@,
            message: lints::unused_message(unused[from].name),
        };
        every_unused_parameter_is_reported(unused, from + 1, severity, offset, done.push(one));
        let all = lints::unused_lints(unused, from, severity, offset, done);
        assert(all[done.len() as int] == done.push(one)[done.len() as int]);
        assert forall|i: int| 0 <= i < done.len() implies #[trigger] all[i] == done[i] by {
            assert(all[i] == done.push(one)[i]);
        }
    }
}

/// The parameters of methods and of generics are not reported: an item is spared
/// exactly where it has a name and is a method, or its name is that of a generic.
pub proof fn methods_and_generics_are_spared(item: LintItem, generics: Seq<Seq<char>>)
    ensures
        item.name is None ==> !item.exempt(generics),
        item.name is Some && item.is_method ==> item.exempt(generics),
        item.name is Some && !item.is_method ==> (item.exempt(generics) <==> generics.contains(
            item.name->0@,
        )),
{
}

/// The namespace that a shadowed name is reported for exports it, and none
/// before it does.
pub proof fn a_shadowed_name_is_found_in_the_first_namespace(
    namespaces: Seq<(Seq<char>, Seq<Seq<char>>)>,
    name: Seq<char>,
    from: int,
)
    requires
        0 <= from <= namespaces.len(),
    ensures
        match lints::exporting_from(namespaces, name, from) {
            Some(namespace) => exists|i: int|
                from <= i < namespaces.len() && (#[trigger] namespaces[i]).0 == namespace
                    && namespaces[i].1.contains(name) && forall|k: int|
                    from <= k < i ==> !(#[trigger] namespaces[k]).1.contains(name),
            None => forall|k: int|
                from <= k < namespaces.len() ==> !(#[trigger] namespaces[k]).1.contains(name),
        },
    decreases namespaces.len() - from,
{
    if from < namespaces.len() {
        if namespaces[from].1.contains(name) {
            assert(namespaces[from].0 == lints::exporting_from(namespaces, name, from)->0);
        } else {
            a_shadowed_name_is_found_in_the_first_namespace(namespaces, name, from + 1);
            match lints::exporting_from(namespaces, name, from + 1) {
                Some(namespace) => {
                    let i = choose|i: int|
                        from + 1 <= i < namespaces.len() && (#[trigger] namespaces[i]).0
                            == namespace && namespaces[i].1.contains(name) && forall|k: int|
                            from + 1 <= k < i ==> !(#[trigger] namespaces[k]).1.contains(name);
                    assert forall|k: int| from <= k < i implies !(
                    #[trigger] namespaces[k]).1.contains(name) by {
                        if k > from {
                            assert(from + 1 <= k);
                        }
                    }
                    assert(namespaces[i].0 == namespace);
                },
                None => {},
            }
        }
    }
}

/// A name that `base` exports shadows a builtin and nothing else; any other name
/// shadows a namespace exactly where one exports it. Each is reported only where
/// its own lint is opted into.
pub proof fn a_name_shadows_a_builtin_or_a_namespace(
    namespaces: Seq<(Seq<char>, Seq<Seq<char>>)>,
    config: LintConfig,
    name: Seq<char>,
    range: TextRange,
    done: Seq<DiagnosticV>,
)
    ensures
        ({
            let all = lints::with_shadow(namespaces, config, name, range, done);
            let base = globals::exports_of(namespaces, "base"@, 0);
            let builtin = base is Some && base->0.contains(name);
            let elsewhere = lints::exporting_from(namespaces, name, 0) is Some;
            let reported = builtin && lints::opted_in(config.shadows_builtin) is Some || !builtin
                && elsewhere && lints::opted_in(config.shadows_namespace) is Some;
            &&& !reported ==> all == done
            &&& reported ==> {
                &&& all.len() == done.len() + 1
                &&& all.last().range == range
                &&& all.last().code == if builtin {
                    "shadows-builtin"@
                } else {
                    "shadows-namespace"@
                }
                &&& Some(all.last().severity) == if builtin {
                    lints::opted_in(config.shadows_builtin)
                } else {
                    lints::opted_in(config.shadows_namespace)
                }
            }
        }),
{
}

/// Only top-level names can shadow.
pub proof fn only_top_level_names_shadow(
    bindings: Seq<BindingV>,
    namespaces: Seq<(Seq<char>, Seq<Seq<char>>)>,
    config: LintConfig,
    offset: u32,
    from: int,
    done: Seq<DiagnosticV>,
)
    requires
        0 <= from <= bindings.len(),
        forall|i: int|
            from <= i < bindings.len() ==> (#[trigger] bindings[i]).kind != BindingKind::TopLevel,
    ensures
        lints::slot_shadow_lints(bindings, namespaces, config, offset, from, done) == done,
    decreases bindings.len() - from,
{
    if from < bindings.len() {
        only_top_level_names_shadow(bindings, namespaces, config, offset, from + 1, done);
    }
}

/// Only the arguments of a call are looked at for a loose comma, and nothing
/// inside an annotation is taken for a shorthand.
pub proof fn other_commas_and_annotations_are_spared(
    node: SyntaxNode,
    token: SyntaxToken,
    config: LintConfig,
    done: Seq<DiagnosticV>,
)
    ensures
        node.kind == SyntaxKind::ArgumentList ==> lints::own_lints(node, false, config, done)
            == done,
        node.kind == SyntaxKind::ArgumentList ==> lints::own_lints(node, true, config, done)
            == lints::comma_lints(node, config, done),
        lints::token_lints(token, true, config, done) == done,
{
}

} // verus!
