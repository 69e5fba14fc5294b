//! What type annotations stand for: the laws by which a written type and the
//! directives of a block are read.

use vstd::prelude::*;

use crate::blocks::{self, BlockForm};
use crate::declarations::{self, BlockV, FormalsV, ReaderV};
use crate::spellings;
use crate::syntax::{self, SyntaxElement, SyntaxKind, SyntaxNode, SyntaxToken};
use crate::types::{Atomic, Constraint, FieldV, TyV};

verus! {

/// A name of a mode reads as the scalar of that mode wherever it stands: no
/// binder hides it, and nothing is referred to.
pub proof fn a_mode_is_written_by_its_name(
    reader: ReaderV,
    node: SyntaxNode,
    token: SyntaxToken,
    mode: Atomic,
)
    requires
        node.kind == SyntaxKind::TypeRef,
        node.opening() == Some(token),
        token.text@ == spellings::mode_name(mode),
    ensures
        reader.typed_inner(node) == (reader, TyV::Scalar(mode)),
{
    spellings::a_mode_name_reads_as_its_mode(mode);
}

/// A name that is not reserved is a binder where one of that name is in scope,
/// and otherwise refers to a declared type at its own place.
pub proof fn other_names_are_binders_or_references(
    reader: ReaderV,
    node: SyntaxNode,
    token: SyntaxToken,
)
    requires
        node.kind == SyntaxKind::TypeRef,
        node.opening() == Some(token),
        declarations::reserved_type(token.text@) is None,
    ensures
        ({
            let (after, ty) = reader.typed_inner(node);
            if reader.binders.contains(token.text@) {
                after == reader && ty == TyV::Rigid(token.text@)
            } else {
                &&& ty == TyV::Named(token.text@, Seq::empty())
                &&& after.nominal_references == reader.nominal_references.push(
                    (token.text@, token.range),
                )
                &&& after.errors == reader.errors
            }
        }),
{
}

/// A written vector or list holds the type written in it, with names exactly
/// where it is written so.
pub proof fn a_written_container_holds_its_element(reader: ReaderV, node: SyntaxNode)
    requires
        node.kind == SyntaxKind::TypeVector || node.kind == SyntaxKind::TypeList,
    ensures
        ({
            let place = declarations::next_type(node.children@, 0);
            let element = declarations::or_unknown(reader.typed_at(node, place).1);
            let named = exists|i: int|
                0 <= i < node.children@.len() && match #[trigger] node.children@[i] {
                    SyntaxElement::Token(token) => token.kind == SyntaxKind::Ident && token.text@
                        == "named"@,
                    SyntaxElement::Node(_) => false,
                };
            let ty = reader.typed_inner(node).1;
            &&& ty.children() == seq![element]
            &&& ty is Vector <==> node.kind == SyntaxKind::TypeVector && !named
            &&& ty is NamedVector <==> node.kind == SyntaxKind::TypeVector && named
            &&& ty is List <==> node.kind == SyntaxKind::TypeList && !named
            &&& ty is NamedList <==> node.kind == SyntaxKind::TypeList && named
        }),
{
}

/// Parentheses around a type only group.
pub proof fn type_parentheses_only_group(reader: ReaderV, node: SyntaxNode)
    requires
        node.kind == SyntaxKind::TypeParen,
        reader.depth != reader.outer,
    ensures
        ({
            let place = declarations::next_type(node.children@, 0);
            let inner = reader.typed_at(node, place);
            &&& reader.typed_inner(node).1 == declarations::or_unknown(inner.1)
            &&& reader.typed_inner(node).0.errors == inner.0.errors
        }),
{
}

/// How many children of a node from one on are types.
pub open spec fn count_types(elements: Seq<SyntaxElement>, from: int) -> nat
    decreases elements.len() - from,
{
    if 0 <= from < elements.len() {
        count_types(elements, from + 1) + match elements[from] {
            SyntaxElement::Node(node) => if blocks::names_type(node.kind) {
                1nat
            } else {
                0nat
            },
            SyntaxElement::Token(_) => 0nat,
        }
    } else {
        0
    }
}

/// Every type of a list is read, in order.
pub proof fn every_type_is_read(
    reader: ReaderV,
    node: SyntaxNode,
    from: int,
    done: Seq<TyV>,
)
    requires
        0 <= from <= node.children@.len(),
    ensures
        ({
            let all = reader.typed_all(node, from, done).1;
            &&& all.len() == done.len() + count_types(node.children@, from)
            &&& forall|i: int| 0 <= i < done.len() ==> #[trigger] all[i] == done[i]
            &&& from < node.children@.len() && node.children@[from] is Node && blocks::names_type(
                node.children@[from]->Node_0.kind,
            ) ==> all[done.len() as int] == reader.typed(node.children@[from]->Node_0).1
        }),
    decreases node.children@.len() - from,
{
    if from < node.children@.len() {
        match node.children@[from] {
            SyntaxElement::Node(child) => if blocks::names_type(child.kind) {
                let (next, ty) = reader.typed(child);
                every_type_is_read(next, node, from + 1, done.push(ty));
                let all = reader.typed_all(node, from, done).1;
                assert(all[done.len() as int] == done.push(ty)[done.len() as int]);
                assert forall|i: int| 0 <= i < done.len() implies #[trigger] all[i] == done[i] by {
                    assert(all[i] == done.push(ty)[i]);
                }
            } else {
                every_type_is_read(reader, node, from + 1, done);
            },
            SyntaxElement::Token(_) => every_type_is_read(reader, node, from + 1, done),
        }
    }
}

/// A tuple has an item for each type written in it, and a union is the union of
/// the types written in it.
pub proof fn tuples_and_unions_keep_their_types(reader: ReaderV, node: SyntaxNode)
    requires
        node.kind == SyntaxKind::TypeTuple || node.kind == SyntaxKind::TypeUnion,
    ensures
        node.kind == SyntaxKind::TypeTuple ==> reader.typed_inner(node).1 is Tuple
            && reader.typed_inner(node).1->Tuple_0.len() == count_types(node.children@, 0),
        node.kind == SyntaxKind::TypeUnion ==> reader.typed_inner(node).1 == TyV::union_of(
            reader.typed_all(node, 0, Seq::empty()).1,
        ),
        reader.typed_all(node, 0, Seq::empty()).1.len() == count_types(node.children@, 0),
{
    every_type_is_read(reader, node, 0, Seq::empty());
}

/// A field that is written is a field that must be there, under its name and
/// with its type, behind those before it.
pub proof fn a_written_field_is_read(
    reader: ReaderV,
    node: SyntaxNode,
    from: int,
    done: Seq<FieldV>,
)
    requires
        0 <= from <= node.children@.len(),
    ensures
        ({
            let all = reader.typed_fields(node, from, done).1;
            &&& all.len() >= done.len()
            &&& forall|i: int| 0 <= i < done.len() ==> #[trigger] all[i] == done[i]
            &&& forall|i: int| done.len() <= i < all.len() ==> !(#[trigger] all[i]).optional
            &&& from < node.children@.len() && syntax::is_node_of(
                node.children@[from],
                SyntaxKind::TypeField,
            ) && declarations::first_name(node.children@[from]->Node_0.children@) is Some ==> {
                let field = node.children@[from]->Node_0;
                let own = reader.typed_at(field, declarations::next_type(field.children@, 0)).1;
                &&& all.len() > done.len()
                &&& Some(all[done.len() as int].name) == declarations::first_name(field.children@)
                &&& all[done.len() as int].ty == declarations::or_unknown(own)
            }
        }),
    decreases node.children@.len() - from,
{
    if from < node.children@.len() {
        match node.children@[from] {
            SyntaxElement::Node(field) => match (
                field.kind == SyntaxKind::TypeField,
                declarations::first_name(field.children@),
            ) {
                (true, Some(name)) => {
                    let (next, ty) = reader.typed_at(
                        field,
                        declarations::next_type(field.children@, 0),
                    );
                    let one = FieldV { name, ty: declarations::or_unknown(ty), optional: false };
                    a_written_field_is_read(next, node, from + 1, done.push(one));
                    let all = reader.typed_fields(node, from, done).1;
                    assert(all[done.len() as int] == done.push(one)[done.len() as int]);
                    assert forall|i: int| 0 <= i < done.len() implies #[trigger] all[i]
                        == done[i] by {
                        assert(all[i] == done.push(one)[i]);
                    }
                },
                _ => a_written_field_is_read(reader, node, from + 1, done),
            },
            SyntaxElement::Token(_) => a_written_field_is_read(reader, node, from + 1, done),
        }
    }
}

/// Whether a token of a kind stands among elements.
pub open spec fn holds_token(elements: Seq<SyntaxElement>, kind: SyntaxKind) -> bool {
    exists|i: int|
        0 <= i < elements.len() && (#[trigger] elements[i]) is Token && elements[i]->Token_0.kind
            == kind
}

proof fn token_is_held(elements: Seq<SyntaxElement>, kind: SyntaxKind, from: int)
    requires
        0 <= from <= elements.len(),
    ensures
        syntax::next_token(elements, kind, from) is Some <==> exists|i: int|
            from <= i < elements.len() && (#[trigger] elements[i]) is Token
                && elements[i]->Token_0.kind == kind,
    decreases elements.len() - from,
{
    if from < elements.len() {
        token_is_held(elements, kind, from + 1);
        if elements[from] is Token && elements[from]->Token_0.kind == kind {
            assert(syntax::next_token(elements, kind, from) == Some(from));
        }
    }
}

/// Every written formal adds one formal: `...` the rest parameter, behind as many
/// named formals as stand before it; a name a named one, which may be left out
/// exactly where it is written in brackets; and a bare type a positional one.
pub proof fn a_written_formal_is_read(
    reader: ReaderV,
    list: SyntaxNode,
    from: int,
    done: FormalsV,
)
    requires
        0 <= from < list.children@.len(),
        syntax::is_node_of(list.children@[from], SyntaxKind::TypeParameter),
    ensures
        ({
            let node = list.children@[from]->Node_0;
            let c = node.children@;
            let (next, ty) = reader.typed_at(node, declarations::next_type(c, 0));
            exists|one: FormalsV|
                #![trigger next.typed_formals(list, from + 1, one)]
                {
                    &&& reader.typed_formals(list, from, done) == next.typed_formals(
                        list,
                        from + 1,
                        one,
                    )
                    &&& holds_token(c, SyntaxKind::Dots) ==> {
                        &&& one.positional == done.positional
                        &&& one.named == done.named
                        &&& one.variadic is Some
                        &&& one.variadic->0.preceding_named == done.named.len() as usize
                        &&& ty is Some ==> one.variadic->0.element == ty->0
                        &&& ty is None ==> one.variadic->0.element == TyV::Any
                    }
                    &&& !holds_token(c, SyntaxKind::Dots) ==> one.variadic == done.variadic
                    &&& !holds_token(c, SyntaxKind::Dots) && declarations::first_name(c) is Some
                        ==> {
                        &&& one.positional == done.positional
                        &&& one.named.drop_last() == done.named
                        &&& one.named.len() == done.named.len() + 1
                        &&& one.named.last().name == declarations::first_name(c)->0
                        &&& one.named.last().ty == declarations::or_unknown(ty)
                        &&& one.named.last().optional <==> holds_token(c, SyntaxKind::LBracket)
                    }
                    &&& !holds_token(c, SyntaxKind::Dots) && declarations::first_name(c) is None
                        ==> {
                        &&& one.named == done.named
                        &&& one.positional == done.positional.push(declarations::or_unknown(ty))
                    }
                }
        }),
{
    let node = list.children@[from]->Node_0;
    let c = node.children@;
    let (next, ty) = reader.typed_at(node, declarations::next_type(c, 0));
    token_is_held(c, SyntaxKind::Dots, 0);
    token_is_held(c, SyntaxKind::LBracket, 0);
    let one = if syntax::has_token(c, SyntaxKind::Dots) {
        FormalsV {
            variadic: Some(
                crate::types::RestV {
                    element: match ty {
                        Some(ty) => ty,
                        None => TyV::Any,
                    },
                    preceding_named: done.named.len() as usize,
                },
            ),
            ..done
        }
    } else {
        match declarations::first_name(c) {
            Some(name) => FormalsV {
                named: done.named.push(
                    crate::types::ParameterV {
                        name,
                        ty: declarations::or_unknown(ty),
                        optional: syntax::has_token(c, SyntaxKind::LBracket),
                        default: None,
                    },
                ),
                ..done
            },
            None => FormalsV {
                positional: done.positional.push(declarations::or_unknown(ty)),
                ..done
            },
        }
    };
    assert(done.named.push(one.named.last()).drop_last() =~= done.named);
    assert(reader.typed_formals(list, from, done) == next.typed_formals(list, from + 1, one));
}

/// The result of a written function type is the type behind its arrow; without
/// an arrow it is `NULL`, but for a definition's own outermost type, whose result
/// is left to the body.
pub proof fn a_written_function_has_the_result_behind_its_arrow(
    reader: ReaderV,
    node: SyntaxNode,
)
    requires
        node.kind == SyntaxKind::TypeFunction,
    ensures
        ({
            let ty = reader.typed_inner(node).1;
            &&& ty is Function
            &&& !holds_token(node.children@, SyntaxKind::MinusGreater) ==> ty->Function_0.ret
                == TyV::Null || ty->Function_0.ret == TyV::Unknown
        }),
{
    token_is_held(node.children@, SyntaxKind::MinusGreater, 0);
}

/// Reading a type leaves the reader at the depth it was at.
pub proof fn reading_comes_back_up(reader: ReaderV, node: SyntaxNode)
    ensures
        reader.typed(node).0.depth == reader.depth,
        reader.depth + 1 > declarations::CHECK_DEPTH_LIMIT && reader.depth + 1
            > declarations::PARSE_DEPTH_LIMIT ==> reader.typed(node).1 == TyV::Unknown
            && reader.typed(node).0.beyond_parse_depth,
{
}

/// A list of binders is read in order, and each is in scope from then on; a name
/// that is bound twice is refused.
pub proof fn binders_come_into_scope(
    reader: ReaderV,
    elements: Seq<SyntaxElement>,
    from: int,
    bound: Seq<(Seq<char>, Constraint)>,
    place: Seq<char>,
)
    requires
        0 <= from <= elements.len(),
    ensures
        ({
            let (after, all) = reader.read_binders(elements, from, bound, place);
            &&& all.len() >= bound.len()
            &&& after.binders.len() == reader.binders.len() + all.len() - bound.len()
            &&& forall|i: int| 0 <= i < bound.len() ==> #[trigger] all[i] == bound[i]
            &&& forall|i: int|
                bound.len() <= i < all.len() ==> after.binders[reader.binders.len() + i
                    - bound.len()] == (#[trigger] all[i]).0
            &&& forall|i: int|
                0 <= i < reader.binders.len() ==> #[trigger] after.binders[i] == reader.binders[i]
            &&& after.errors.len() >= reader.errors.len()
            &&& forall|i: int, j: int|
                #![trigger all[i], all[j]]
                0 <= i < j < all.len() && bound.len() <= j && all[i].0 == all[j].0
                    ==> after.errors.len() > reader.errors.len()
        }),
    decreases elements.len() - from,
{
    if from < elements.len() {
        match elements[from] {
            SyntaxElement::Node(node) => if node.kind == SyntaxKind::TypeBinder {
                let (next, read) = reader.binder(node);
                match read {
                    Some((name, constraint)) => {
                        let told = if declarations::is_bound(bound, name) {
                            next.fail(declarations::duplicate_name(name, place), node.range)
                        } else {
                            next
                        };
                        let more = bound.push((name, constraint));
                        binders_come_into_scope(told.bind(name), elements, from + 1, more, place);
                        let (after, all) = reader.read_binders(elements, from, bound, place);
                        assert(all[bound.len() as int] == more[bound.len() as int]);
                        assert forall|i: int| 0 <= i < bound.len() implies #[trigger] all[i]
                            == bound[i] by {
                            assert(all[i] == more[i]);
                        }
                        assert forall|i: int|
                            0 <= i < reader.binders.len() implies #[trigger] after.binders[i]
                            == reader.binders[i] by {
                            assert(after.binders[i] == told.bind(name).binders[i]);
                        }
                        assert(after.binders[reader.binders.len() as int] == told.bind(
                            name,
                        ).binders[reader.binders.len() as int]);
                        assert forall|i: int, j: int|
                            #![trigger all[i], all[j]]
                            0 <= i < j < all.len() && bound.len() <= j && all[i].0
                                == all[j].0 implies after.errors.len() > reader.errors.len() by {
                            if j == bound.len() {
                                assert(all[i] == bound[i]);
                                assert(bound[i].0 == name);
                                assert(declarations::is_bound(bound, name));
                            }
                        }
                    },
                    None => binders_come_into_scope(next, elements, from + 1, bound, place),
                }
            } else {
                binders_come_into_scope(reader, elements, from + 1, bound, place);
            },
            SyntaxElement::Token(_) => binders_come_into_scope(
                reader,
                elements,
                from + 1,
                bound,
                place,
            ),
        }
    }
}

/// `@param` declares one formal more, under its name and with its type; `...`
/// declares the rest parameter. A formal written in brackets may be left out.
pub proof fn a_param_declares_a_formal(block: BlockV, node: SyntaxNode, name: Seq<char>)
    requires
        blocks::directive_of(node) == "param"@,
        declarations::first_name(node.children@) == Some(name),
    ensures
        ({
            let after = block.directive(node);
            let before = block.expanded;
            let params = after.expanded.params;
            &&& name != "..."@ ==> {
                &&& params.len() == before.params.len() + 1
                &&& params.last().0 == name
                &&& params.last().2 <==> holds_token(node.children@, SyntaxKind::LBracket)
                &&& params.drop_last() == before.params
                &&& after.expanded.rest == before.rest
            }
            &&& name == "..."@ ==> params == before.params && after.expanded.rest is Some
            &&& after.expanded.ret == before.ret
            &&& after.expanded.saw_param
            &&& before.saw_return ==> after.reader.errors.len() > 0
        }),
{
    reveal_directives();
    token_is_held(node.children@, SyntaxKind::LBracket, 0);
    let after = block.directive(node);
    if name != "..."@ {
        assert(after.expanded.params.drop_last() =~= block.expanded.params);
    }
    let place = declarations::next_type(node.children@, 0);
    let told = block.reader.fail(
        "`@param` directives must appear before `@return` or `@returns` in the same `#:` block."@,
        node.range,
    );
    errors_stay(told, node, place);
}

/// Reading a type forgets no error.
pub proof fn errors_stay(reader: ReaderV, node: SyntaxNode, place: Option<int>)
    ensures
        reader.typed_at(node, place).0.errors.len() >= reader.errors.len(),
    decreases node, 0int, 0int,
{
    if let Some(i) = place {
        if 0 <= i < node.children@.len() {
            if let SyntaxElement::Node(child) = node.children@[i] {
                errors_stay_typed(reader, child);
            }
        }
    }
}

proof fn errors_stay_typed(reader: ReaderV, node: SyntaxNode)
    ensures
        reader.typed(node).0.errors.len() >= reader.errors.len(),
    decreases node, 3int, 0int,
{
    let depth = reader.depth + 1;
    let seen = ReaderV {
        beyond_check_depth: reader.beyond_check_depth || depth > declarations::CHECK_DEPTH_LIMIT,
        beyond_parse_depth: reader.beyond_parse_depth || depth > declarations::PARSE_DEPTH_LIMIT,
        ..reader
    };
    errors_stay_inner(ReaderV { depth, ..seen }, node);
}

proof fn errors_stay_inner(reader: ReaderV, node: SyntaxNode)
    ensures
        reader.typed_inner(node).0.errors.len() >= reader.errors.len(),
    decreases node, 2int, 0int,
{
    let c = node.children@;
    match node.kind {
        SyntaxKind::TypeParen => {
            let within = if reader.depth == reader.outer {
                ReaderV { outer: reader.outer + 1, ..reader }
            } else {
                reader
            };
            errors_stay(within, node, declarations::next_type(c, 0));
        },
        SyntaxKind::TypeUnion => errors_stay_all(reader, node, 0, Seq::empty()),
        SyntaxKind::TypeTuple => errors_stay_all(reader, node, 0, Seq::empty()),
        SyntaxKind::TypeVector => errors_stay(reader, node, declarations::next_type(c, 0)),
        SyntaxKind::TypeList => errors_stay(reader, node, declarations::next_type(c, 0)),
        SyntaxKind::TypeRecord => errors_stay_fields(reader, node, 0, Seq::empty()),
        SyntaxKind::TypeApply => errors_stay_applied(reader, node),
        SyntaxKind::TypeFunction => errors_stay_function(reader, node),
        _ => {},
    }
}

proof fn errors_stay_all(reader: ReaderV, node: SyntaxNode, from: int, done: Seq<TyV>)
    ensures
        reader.typed_all(node, from, done).0.errors.len() >= reader.errors.len(),
    decreases node, 1int, node.children@.len() - from,
{
    if 0 <= from < node.children@.len() {
        match node.children@[from] {
            SyntaxElement::Node(child) => if blocks::names_type(child.kind) {
                let (next, ty) = reader.typed(child);
                errors_stay_typed(reader, child);
                errors_stay_all(next, node, from + 1, done.push(ty));
            } else {
                errors_stay_all(reader, node, from + 1, done);
            },
            SyntaxElement::Token(_) => errors_stay_all(reader, node, from + 1, done),
        }
    }
}

proof fn errors_stay_fields(reader: ReaderV, node: SyntaxNode, from: int, done: Seq<FieldV>)
    ensures
        reader.typed_fields(node, from, done).0.errors.len() >= reader.errors.len(),
    decreases node, 1int, node.children@.len() - from,
{
    if 0 <= from < node.children@.len() {
        match node.children@[from] {
            SyntaxElement::Node(field) => match (
                field.kind == SyntaxKind::TypeField,
                declarations::first_name(field.children@),
            ) {
                (true, Some(name)) => {
                    let place = declarations::next_type(field.children@, 0);
                    let (next, ty) = reader.typed_at(field, place);
                    errors_stay(reader, field, place);
                    errors_stay_fields(
                        next,
                        node,
                        from + 1,
                        done.push(
                            FieldV { name, ty: declarations::or_unknown(ty), optional: false },
                        ),
                    );
                },
                _ => errors_stay_fields(reader, node, from + 1, done),
            },
            SyntaxElement::Token(_) => errors_stay_fields(reader, node, from + 1, done),
        }
    }
}

proof fn errors_stay_applied(reader: ReaderV, node: SyntaxNode)
    ensures
        reader.applied(node).0.errors.len() >= reader.errors.len(),
    decreases node, 1int, 0int,
{
    let c = node.children@;
    let place = syntax::next_node(c, SyntaxKind::Name, 0);
    let name = match declarations::child_name(c, place) {
        Some(name) => name,
        None => Seq::empty(),
    };
    let range = c[place->0]->Node_0.range;
    let referenced = ReaderV {
        nominal_references: reader.nominal_references.push((name, range)),
        ..reader
    };
    if let Some(i) = syntax::next_node(c, SyntaxKind::TypeArgList, 0) {
        if 0 <= i < c.len() {
            if let SyntaxElement::Node(list) = node.children@[i] {
                errors_stay_all(referenced, list, 0, Seq::empty());
                errors_stay_all(reader, list, 0, Seq::empty());
            }
        }
    }
}

proof fn errors_stay_function(reader: ReaderV, node: SyntaxNode)
    ensures
        reader.function(node).0.errors.len() >= reader.errors.len(),
    decreases node, 1int, 0int,
{
    let c = node.children@;
    let empty = FormalsV { positional: Seq::empty(), named: Seq::empty(), variadic: None };
    let (next, formals) = match syntax::next_node(c, SyntaxKind::TypeParameterList, 0) {
        Some(i) => if 0 <= i < c.len() {
            match node.children@[i] {
                SyntaxElement::Node(list) => reader.typed_formals(list, 0, empty),
                SyntaxElement::Token(_) => (reader, empty),
            }
        } else {
            (reader, empty)
        },
        None => (reader, empty),
    };
    if let Some(i) = syntax::next_node(c, SyntaxKind::TypeParameterList, 0) {
        if 0 <= i < c.len() {
            if let SyntaxElement::Node(list) = node.children@[i] {
                errors_stay_formals(reader, list, 0, empty);
            }
        }
    }
    errors_stay(
        next,
        node,
        if syntax::has_token(c, SyntaxKind::MinusGreater) {
            declarations::last_type(c, c.len() as int)
        } else {
            None
        },
    );
}

proof fn errors_stay_formals(reader: ReaderV, list: SyntaxNode, from: int, done: FormalsV)
    ensures
        reader.typed_formals(list, from, done).0.errors.len() >= reader.errors.len(),
    decreases list, 1int, list.children@.len() - from,
{
    if 0 <= from < list.children@.len() {
        match list.children@[from] {
            SyntaxElement::Node(node) => if node.kind == SyntaxKind::TypeParameter {
                let place = declarations::next_type(node.children@, 0);
                errors_stay(reader, node, place);
                let (next, ty) = reader.typed_at(node, place);
                a_written_formal_is_read(reader, list, from, done);
                let one = choose|one: FormalsV|
                    reader.typed_formals(list, from, done) == #[trigger] next.typed_formals(
                        list,
                        from + 1,
                        one,
                    );
                errors_stay_formals(next, list, from + 1, one);
            } else {
                errors_stay_formals(reader, list, from + 1, done);
            },
            SyntaxElement::Token(_) => errors_stay_formals(reader, list, from + 1, done),
        }
    }
}

proof fn reveal_directives()
    ensures
        "type"@.len() == 4 && "type"@[0] == 't',
        "alias"@.len() == 5 && "alias"@[0] == 'a',
        "forall"@.len() == 6 && "forall"@[0] == 'f',
        "param"@.len() == 5 && "param"@[0] == 'p',
        "return"@.len() == 6 && "return"@[0] == 'r',
        "returns"@.len() == 7 && "returns"@[0] == 'r',
        "strict"@.len() == 6 && "strict"@[0] == 's',
        "trust"@.len() == 5 && "trust"@[0] == 't',
        "new"@.len() == 3 && "new"@[0] == 'n',
        "if-unknown"@.len() == 10 && "if-unknown"@[0] == 'i',
{
    reveal_strlit("type");
    reveal_strlit("alias");
    reveal_strlit("forall");
    reveal_strlit("param");
    reveal_strlit("return");
    reveal_strlit("returns");
    reveal_strlit("strict");
    reveal_strlit("trust");
    reveal_strlit("new");
    reveal_strlit("if-unknown");
}

/// `@return` and `@returns` are one directive: they declare the result and
/// nothing else, and a second one is refused.
pub proof fn a_return_declares_the_result(block: BlockV, node: SyntaxNode)
    requires
        blocks::directive_of(node) == "return"@ || blocks::directive_of(node) == "returns"@,
    ensures
        ({
            let after = block.directive(node);
            &&& after.expanded.params == block.expanded.params
            &&& after.expanded.rest == block.expanded.rest
            &&& after.expanded.forall_binders == block.expanded.forall_binders
            &&& after.expanded.saw_return
            &&& after.annotation == block.annotation
            &&& !block.expanded.saw_return ==> after.expanded.ret == block.reader.typed_at(
                node,
                declarations::next_type(node.children@, 0),
            ).1
            &&& block.expanded.saw_return ==> after.reader.errors.len() > 0
        }),
{
    reveal_directives();
    let told = block.reader.fail(
        "cannot use more than one `@return` or `@returns` directive in the same `#:` block."@,
        node.range,
    );
    errors_stay(told, node, declarations::next_type(node.children@, 0));
}

/// The other directives do what they are named for and leave the declared
/// signature alone: `@strict` and `@strict off` set strictness, `@trust` and
/// `@if-unknown` each their own mark, `@type` and `@alias` add one definition.
pub proof fn directives_do_what_they_are_named_for(block: BlockV, node: SyntaxNode)
    ensures
        ({
            let name = blocks::directive_of(node);
            let after = block.directive(node);
            let off = exists|i: int|
                0 <= i < node.children@.len() && match #[trigger] node.children@[i] {
                    SyntaxElement::Token(token) => token.kind == SyntaxKind::Ident && token.text@
                        == "off"@,
                    SyntaxElement::Node(_) => false,
                };
            let own = declarations::first_name(node.children@);
            &&& name == "strict"@ ==> after.annotation.strict == Some(!off)
            &&& name != "strict"@ ==> after.annotation.strict == block.annotation.strict
            &&& name == "trust"@ ==> after.annotation.trusted
            &&& name != "trust"@ ==> after.annotation.trusted == block.annotation.trusted
            &&& name == "if-unknown"@ ==> after.annotation.if_unknown
            &&& name != "if-unknown"@ ==> after.annotation.if_unknown == block.annotation.if_unknown
            &&& (name == "type"@ || name == "alias"@) && own is Some ==> {
                &&& after.annotation.definitions.len() == block.annotation.definitions.len() + 1
                &&& after.annotation.definitions.last().name == own->0
                &&& after.annotation.definitions.last().alias <==> name == "alias"@
                &&& after.annotation.definition_sites.last() == node.range
                &&& after.reader.binders == block.reader.binders
            }
            &&& name != "param"@ && name != "return"@ && name != "returns"@ && name != "forall"@
                ==> after.expanded == block.expanded
        }),
{
    reveal_directives();
}

/// The expanded form declares the function type it spells: the formals of its
/// `@param` directives in order, and the type of its `@return`.
pub proof fn the_expanded_form_declares_its_function(block: BlockV, i: int)
    requires
        0 <= i < block.expanded.params.len(),
    ensures
        ({
            let scheme = block.assembled();
            let function = scheme.body->Function_0;
            &&& scheme.body is Function
            &&& scheme.binders == block.expanded.forall_binders
            &&& function.positional.len() == 0
            &&& function.named.len() == block.expanded.params.len()
            &&& function.named[i].name == block.expanded.params[i].0
            &&& function.named[i].ty == block.expanded.params[i].1
            &&& function.named[i].optional == block.expanded.params[i].2
            &&& function.variadic is Some <==> block.expanded.rest is Some
            &&& block.expanded.rest is Some ==> function.variadic->0.element
                == block.expanded.rest->0
            &&& block.expanded.ret is Some ==> function.ret == block.expanded.ret->0
            &&& block.expanded.ret is None ==> function.ret == TyV::Unknown
        }),
{
}

/// A block holds one form of annotation: lines of the expanded form, or
/// definitions, stand together; two forms do not, nor do two compact annotations.
pub proof fn a_block_holds_one_form(previous: BlockForm, form: BlockForm)
    ensures
        blocks::mixing(None, form) is None,
        blocks::mixing(Some(previous), form) is None <==> previous == form && form
            != BlockForm::Compact,
{
}

} // verus!
