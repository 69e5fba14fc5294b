//! What an annotation block declares.

use vstd::prelude::*;

use crate::annotations::{AnnotationV, DefinitionV};
use crate::blocks;
use crate::blocks::RefusalV;
use crate::schemes::SchemeV;
use crate::syntax;
use crate::syntax::{SyntaxElement, SyntaxKind, SyntaxNode, TextRange};
use crate::types::{Atomic, Constraint, FieldV, FunctionV, ParameterV, RestV, TyV};

verus! {

/// The depth past which a declared type is not checked.
pub const CHECK_DEPTH_LIMIT: usize = 128;

/// The depth past which a declared type is refused.
pub const PARSE_DEPTH_LIMIT: usize = 160;

/// The constraint a spelling names.
pub open spec fn constraint_of(spelling: Seq<char>) -> Option<Constraint> {
    if spelling == "numeric"@ {
        Some(Constraint::Numeric)
    } else if spelling == "atomic"@ {
        Some(Constraint::AtomicElement)
    } else if spelling == "scalar numeric"@ {
        Some(Constraint::ScalarNumeric)
    } else {
        None
    }
}

pub open spec fn unknown_constraint(spelling: Seq<char>) -> Seq<char> {
    "unknown type-parameter constraint `"@ + spelling
        + "`; the available constraints are `numeric`, `atomic`, or `scalar numeric`."@
}

pub open spec fn duplicate_name(name: Seq<char>, place: Seq<char>) -> Seq<char> {
    "duplicate type parameter name `"@ + name + place
}

/// The name a child at a place spells.
pub open spec fn child_name(elements: Seq<SyntaxElement>, place: Option<int>) -> Option<Seq<char>> {
    match place {
        Some(i) => match elements[i] {
            SyntaxElement::Node(node) => node.name(),
            SyntaxElement::Token(_) => None,
        },
        None => None,
    }
}

/// The first name among the children of a node.
pub open spec fn first_name(elements: Seq<SyntaxElement>) -> Option<Seq<char>> {
    child_name(elements, syntax::next_node(elements, SyntaxKind::Name, 0))
}

/// The names from an element on, with a space between them.
pub open spec fn words_from(elements: Seq<SyntaxElement>, from: int, done: Option<Seq<char>>) -> Seq<
    char,
>
    decreases elements.len() - from,
{
    if 0 <= from < elements.len() {
        match elements[from] {
            SyntaxElement::Node(node) => match (node.kind == SyntaxKind::Name, node.name()) {
                (true, Some(word)) => words_from(
                    elements,
                    from + 1,
                    Some(
                        match done {
                            Some(done) => done + " "@ + word,
                            None => word,
                        },
                    ),
                ),
                _ => words_from(elements, from + 1, done),
            },
            SyntaxElement::Token(_) => words_from(elements, from + 1, done),
        }
    } else {
        match done {
            Some(done) => done,
            None => Seq::empty(),
        }
    }
}

/// The range that the names from an element on cover.
pub open spec fn names_range(elements: Seq<SyntaxElement>, from: int, done: Option<TextRange>) -> Option<
    TextRange,
>
    decreases elements.len() - from,
{
    if 0 <= from < elements.len() {
        match elements[from] {
            SyntaxElement::Node(node) => if node.kind == SyntaxKind::Name {
                names_range(
                    elements,
                    from + 1,
                    Some(
                        match done {
                            Some(range) => range.covering(node.range),
                            None => node.range,
                        },
                    ),
                )
            } else {
                names_range(elements, from + 1, done)
            },
            SyntaxElement::Token(_) => names_range(elements, from + 1, done),
        }
    } else {
        done
    }
}

/// The place of the first type from an element on.
pub open spec fn next_type(elements: Seq<SyntaxElement>, from: int) -> Option<int>
    decreases elements.len() - from,
{
    if 0 <= from < elements.len() {
        match elements[from] {
            SyntaxElement::Node(node) => if blocks::names_type(node.kind) {
                Some(from)
            } else {
                next_type(elements, from + 1)
            },
            SyntaxElement::Token(_) => next_type(elements, from + 1),
        }
    } else {
        None
    }
}

/// The place of the first type that is no list of binders.
pub open spec fn next_plain_type(elements: Seq<SyntaxElement>, from: int) -> Option<int>
    decreases elements.len() - from,
{
    if 0 <= from < elements.len() {
        match elements[from] {
            SyntaxElement::Node(node) => if blocks::names_type(node.kind) && node.kind
                != SyntaxKind::TypeBinderList {
                Some(from)
            } else {
                next_plain_type(elements, from + 1)
            },
            SyntaxElement::Token(_) => next_plain_type(elements, from + 1),
        }
    } else {
        None
    }
}

/// The place of the last type among the first elements.
pub open spec fn last_type(elements: Seq<SyntaxElement>, upto: int) -> Option<int>
    decreases upto,
{
    if 0 < upto <= elements.len() {
        match elements[upto - 1] {
            SyntaxElement::Node(node) => if blocks::names_type(node.kind) {
                Some(upto - 1)
            } else {
                last_type(elements, upto - 1)
            },
            SyntaxElement::Token(_) => last_type(elements, upto - 1),
        }
    } else {
        None
    }
}

/// The type a reserved type name stands for.
pub open spec fn reserved_type(text: Seq<char>) -> Option<TyV> {
    if text == "Any"@ || text == "any"@ {
        Some(TyV::Any)
    } else if text == "Unknown"@ || text == "unknown"@ {
        Some(TyV::Unknown)
    } else if text == "NULL"@ || text == "null"@ {
        Some(TyV::Null)
    } else if text == "logical"@ {
        Some(TyV::Scalar(Atomic::Logical))
    } else if text == "integer"@ {
        Some(TyV::Scalar(Atomic::Integer))
    } else if text == "double"@ {
        Some(TyV::Scalar(Atomic::Double))
    } else if text == "complex"@ {
        Some(TyV::Scalar(Atomic::Complex))
    } else if text == "character"@ {
        Some(TyV::Scalar(Atomic::Character))
    } else if text == "raw"@ {
        Some(TyV::Scalar(Atomic::Raw))
    } else {
        None
    }
}

/// What reading a block's types has gathered.
#[verifier::ext_equal]
pub struct ReaderV {
    /// The binders in scope.
    pub binders: Seq<Seq<char>>,
    pub nominal_references: Seq<(Seq<char>, TextRange)>,
    pub applied_references: Seq<(Seq<char>, usize, TextRange)>,
    pub errors: Seq<(Seq<char>, TextRange)>,
    pub vector_elements: Seq<(TyV, TextRange)>,
    pub depth: nat,
    /// The depth at which an outermost type stands: parentheses only group.
    pub outer: nat,
    pub beyond_check_depth: bool,
    pub beyond_parse_depth: bool,
    /// Whether the type read is the annotated definition's own: only there an
    /// outermost function type without `->` leaves its result to the body.
    pub definition_type: bool,
}

/// The formals of a function type that have been read.
#[verifier::ext_equal]
pub struct FormalsV {
    pub positional: Seq<TyV>,
    pub named: Seq<ParameterV>,
    pub variadic: Option<RestV>,
}

impl ReaderV {
    pub open spec fn start() -> ReaderV {
        ReaderV {
            binders: Seq::empty(),
            nominal_references: Seq::empty(),
            applied_references: Seq::empty(),
            errors: Seq::empty(),
            vector_elements: Seq::empty(),
            depth: 0,
            outer: 1,
            beyond_check_depth: false,
            beyond_parse_depth: false,
            definition_type: false,
        }
    }

    pub open spec fn fail(self, message: Seq<char>, range: TextRange) -> ReaderV {
        ReaderV { errors: self.errors.push((message, range)), ..self }
    }

    pub open spec fn bind(self, name: Seq<char>) -> ReaderV {
        ReaderV { binders: self.binders.push(name), ..self }
    }

    /// A binder and its constraint.
    pub open spec fn binder(self, node: SyntaxNode) -> (ReaderV, Option<(Seq<char>, Constraint)>) {
        let c = node.children@;
        match syntax::next_node(c, SyntaxKind::Name, 0) {
            None => (self, None),
            Some(first) => match child_name(c, Some(first)) {
                None => (self, None),
                Some(name) => match names_range(c, first + 1, None) {
                    None => (self, Some((name, Constraint::Unconstrained))),
                    Some(range) => {
                        let spelling = words_from(c, first + 1, None);
                        match constraint_of(spelling) {
                            Some(constraint) => (self, Some((name, constraint))),
                            None => (
                                self.fail(unknown_constraint(spelling), range),
                                Some((name, Constraint::Unconstrained)),
                            ),
                        }
                    },
                },
            },
        }
    }

    /// The binders of a list from an element on, in scope from then on.
    pub open spec fn read_binders(
        self,
        elements: Seq<SyntaxElement>,
        from: int,
        bound: Seq<(Seq<char>, Constraint)>,
        place: Seq<char>,
    ) -> (ReaderV, Seq<(Seq<char>, Constraint)>)
        decreases elements.len() - from,
    {
        if 0 <= from < elements.len() {
            match elements[from] {
                SyntaxElement::Node(node) => if node.kind == SyntaxKind::TypeBinder {
                    let (next, read) = self.binder(node);
                    match read {
                        Some((name, constraint)) => (if is_bound(bound, name) {
                            next.fail(duplicate_name(name, place), node.range)
                        } else {
                            next
                        }).bind(name).read_binders(
                            elements,
                            from + 1,
                            bound.push((name, constraint)),
                            place,
                        ),
                        None => next.read_binders(elements, from + 1, bound, place),
                    }
                } else {
                    self.read_binders(elements, from + 1, bound, place)
                },
                SyntaxElement::Token(_) => self.read_binders(elements, from + 1, bound, place),
            }
        } else {
            (self, bound)
        }
    }

    /// A `@type` or `@alias` declaration.
    pub open spec fn definition(self, node: SyntaxNode, alias: bool) -> (
        ReaderV,
        Option<DefinitionV>,
    ) {
        let c = node.children@;
        match first_name(c) {
            None => (self, None),
            Some(name) => {
                let (ready, bound) = match syntax::next_node(c, SyntaxKind::TypeBinderList, 0) {
                    Some(i) => match c[i] {
                        SyntaxElement::Node(list) => self.read_binders(
                            list.children@,
                            0,
                            Seq::empty(),
                            "` in named type definition."@,
                        ),
                        SyntaxElement::Token(_) => (self, Seq::empty()),
                    },
                    None => (self, Seq::empty()),
                };
                let (done, body) = ready.typed_at(node, next_plain_type(c, 0));
                (
                    ReaderV { binders: self.binders, ..done },
                    Some(
                        DefinitionV {
                            alias,
                            name,
                            parameters: bound_names(bound),
                            body: or_unknown(body),
                        },
                    ),
                )
            },
        }
    }

    /// A type, one level deeper.
    pub open spec fn typed(self, node: SyntaxNode) -> (ReaderV, TyV)
        decreases node, 3int, 0int,
    {
        let depth = self.depth + 1;
        let seen = ReaderV {
            beyond_check_depth: self.beyond_check_depth || depth > CHECK_DEPTH_LIMIT,
            beyond_parse_depth: self.beyond_parse_depth || depth > PARSE_DEPTH_LIMIT,
            ..self
        };
        if depth > PARSE_DEPTH_LIMIT {
            (seen, TyV::Unknown)
        } else {
            let (done, ty) = ReaderV { depth, ..seen }.typed_inner(node);
            (ReaderV { depth: self.depth, ..done }, ty)
        }
    }

    pub open spec fn typed_inner(self, node: SyntaxNode) -> (ReaderV, TyV)
        decreases node, 2int, 0int,
    {
        let c = node.children@;
        match node.kind {
            SyntaxKind::TypeRef => self.reference(node),
            SyntaxKind::TypeParen => {
                let within = if self.depth == self.outer {
                    ReaderV { outer: self.outer + 1, ..self }
                } else {
                    self
                };
                let (next, inner) = within.typed_at(node, next_type(c, 0));
                (ReaderV { outer: self.outer, ..next }, or_unknown(inner))
            },
            SyntaxKind::TypeUnion => {
                let (next, members) = self.typed_all(node, 0, Seq::empty());
                (next, TyV::union_of(members))
            },
            SyntaxKind::TypeVector => {
                let (next, inner) = self.typed_at(node, next_type(c, 0));
                let element = or_unknown(inner);
                (
                    ReaderV {
                        vector_elements: next.vector_elements.push((element, node.range)),
                        ..next
                    },
                    if syntax::has_word(c, SyntaxKind::Ident, "named"@) {
                        TyV::NamedVector(Box::new(element))
                    } else {
                        TyV::Vector(Box::new(element))
                    },
                )
            },
            SyntaxKind::TypeList => {
                let (next, inner) = self.typed_at(node, next_type(c, 0));
                let element = or_unknown(inner);
                (
                    next,
                    if syntax::has_word(c, SyntaxKind::Ident, "named"@) {
                        TyV::NamedList(Box::new(element))
                    } else {
                        TyV::List(Box::new(element))
                    },
                )
            },
            SyntaxKind::TypeTuple => {
                let (next, items) = self.typed_all(node, 0, Seq::empty());
                (next, TyV::Tuple(items))
            },
            SyntaxKind::TypeRecord => {
                let (next, fields) = self.typed_fields(node, 0, Seq::empty());
                (next, TyV::Record(fields))
            },
            SyntaxKind::TypeApply => self.applied(node),
            SyntaxKind::TypeFunction => self.function(node),
            _ => (self, TyV::Unknown),
        }
    }

    /// A type name: a reserved one, a binder in scope, or a reference.
    pub open spec fn reference(self, node: SyntaxNode) -> (ReaderV, TyV) {
        match node.opening() {
            None => (self, TyV::Unknown),
            Some(token) => match reserved_type(token.text@) {
                Some(ty) => (self, ty),
                None => if self.binders.contains(token.text@) {
                    (self, TyV::Rigid(token.text@))
                } else {
                    (
                        ReaderV {
                            nominal_references: self.nominal_references.push(
                                (token.text@, token.range),
                            ),
                            ..self
                        },
                        TyV::Named(token.text@, Seq::empty()),
                    )
                },
            },
        }
    }

    /// A generic type applied to arguments. A binder takes none.
    pub open spec fn applied(self, node: SyntaxNode) -> (ReaderV, TyV)
        decreases node, 1int, 0int,
    {
        let c = node.children@;
        let place = syntax::next_node(c, SyntaxKind::Name, 0);
        let name = match child_name(c, place) {
            Some(name) => name,
            None => Seq::empty(),
        };
        if name.len() > 0 && self.binders.contains(name) {
            (
                self.fail(
                    "`"@ + name + "` is a type parameter here and takes no type arguments."@,
                    node.range,
                ),
                TyV::Unknown,
            )
        } else if name.len() > 0 {
            let range = c[place->0]->Node_0.range;
            let referenced = ReaderV {
                nominal_references: self.nominal_references.push((name, range)),
                ..self
            };
            let (done, arguments) = referenced.typed_arguments(node);
            (
                ReaderV {
                    applied_references: done.applied_references.push(
                        (name, arguments.len() as usize, range),
                    ),
                    ..done
                },
                TyV::Named(name, arguments),
            )
        } else {
            let (done, arguments) = self.typed_arguments(node);
            (done, TyV::Named(name, arguments))
        }
    }

    pub open spec fn typed_arguments(self, node: SyntaxNode) -> (ReaderV, Seq<TyV>)
        decreases node, 0int, 0int,
    {
        match syntax::next_node(node.children@, SyntaxKind::TypeArgList, 0) {
            Some(i) => if 0 <= i < node.children@.len() {
                match node.children@[i] {
                    SyntaxElement::Node(list) => self.typed_all(list, 0, Seq::empty()),
                    SyntaxElement::Token(_) => (self, Seq::empty()),
                }
            } else {
                (self, Seq::empty())
            },
            None => (self, Seq::empty()),
        }
    }

    /// A function type. Without `->` the result is `NULL`, or the body's at the
    /// top of a definition's own type.
    pub open spec fn function(self, node: SyntaxNode) -> (ReaderV, TyV)
        decreases node, 1int, 0int,
    {
        let c = node.children@;
        let empty = FormalsV { positional: Seq::empty(), named: Seq::empty(), variadic: None };
        let (next, formals) = match syntax::next_node(c, SyntaxKind::TypeParameterList, 0) {
            Some(i) => if 0 <= i < c.len() {
                match node.children@[i] {
                    SyntaxElement::Node(list) => self.typed_formals(list, 0, empty),
                    SyntaxElement::Token(_) => (self, empty),
                }
            } else {
                (self, empty)
            },
            None => (self, empty),
        };
        let (done, given) = next.typed_at(
            node,
            if syntax::has_token(c, SyntaxKind::MinusGreater) {
                last_type(c, c.len() as int)
            } else {
                None
            },
        );
        let ret = match given {
            Some(ty) => ty,
            None => if done.definition_type && done.depth == done.outer {
                TyV::Unknown
            } else {
                TyV::Null
            },
        };
        (
            done,
            TyV::Function(
                Box::new(
                    FunctionV {
                        positional: formals.positional,
                        named: formals.named,
                        variadic: formals.variadic,
                        ret,
                    },
                ),
            ),
        )
    }

    /// The formals of a list from an element on.
    pub open spec fn typed_formals(self, list: SyntaxNode, from: int, done: FormalsV) -> (
        ReaderV,
        FormalsV,
    )
        decreases list, 1int, list.children@.len() - from,
    {
        if 0 <= from < list.children@.len() {
            match list.children@[from] {
                SyntaxElement::Node(node) => if node.kind == SyntaxKind::TypeParameter {
                    let c = node.children@;
                    let (next, ty) = self.typed_at(node, next_type(c, 0));
                    next.typed_formals(
                        list,
                        from + 1,
                        if syntax::has_token(c, SyntaxKind::Dots) {
                            FormalsV {
                                variadic: Some(
                                    RestV {
                                        element: match ty {
                                            Some(ty) => ty,
                                            None => TyV::Any,
                                        },
                                        preceding_named: done.named.len() as usize,
                                    },
                                ),
                                ..done
                            }
                        } else {
                            match first_name(c) {
                                Some(name) => FormalsV {
                                    named: done.named.push(
                                        ParameterV {
                                            name,
                                            ty: or_unknown(ty),
                                            optional: syntax::has_token(
                                                c,
                                                SyntaxKind::LBracket,
                                            ),
                                            default: None,
                                        },
                                    ),
                                    ..done
                                },
                                None => FormalsV {
                                    positional: done.positional.push(or_unknown(ty)),
                                    ..done
                                },
                            }
                        },
                    )
                } else {
                    self.typed_formals(list, from + 1, done)
                },
                SyntaxElement::Token(_) => self.typed_formals(list, from + 1, done),
            }
        } else {
            (self, done)
        }
    }

    /// The fields of a record from an element on; a field without a name is none.
    pub open spec fn typed_fields(self, node: SyntaxNode, from: int, done: Seq<FieldV>) -> (
        ReaderV,
        Seq<FieldV>,
    )
        decreases node, 1int, node.children@.len() - from,
    {
        if 0 <= from < node.children@.len() {
            match node.children@[from] {
                SyntaxElement::Node(field) => match (
                    field.kind == SyntaxKind::TypeField,
                    first_name(field.children@),
                ) {
                    (true, Some(name)) => {
                        let (next, ty) = self.typed_at(field, next_type(field.children@, 0));
                        next.typed_fields(
                            node,
                            from + 1,
                            done.push(FieldV { name, ty: or_unknown(ty), optional: false }),
                        )
                    },
                    _ => self.typed_fields(node, from + 1, done),
                },
                SyntaxElement::Token(_) => self.typed_fields(node, from + 1, done),
            }
        } else {
            (self, done)
        }
    }

    /// The types among a node's children from one on.
    pub open spec fn typed_all(self, node: SyntaxNode, from: int, done: Seq<TyV>) -> (
        ReaderV,
        Seq<TyV>,
    )
        decreases node, 1int, node.children@.len() - from,
    {
        if 0 <= from < node.children@.len() {
            match node.children@[from] {
                SyntaxElement::Node(child) => if blocks::names_type(child.kind) {
                    let (next, ty) = self.typed(child);
                    next.typed_all(node, from + 1, done.push(ty))
                } else {
                    self.typed_all(node, from + 1, done)
                },
                SyntaxElement::Token(_) => self.typed_all(node, from + 1, done),
            }
        } else {
            (self, done)
        }
    }

    /// The type of the child at a place.
    pub open spec fn typed_at(self, node: SyntaxNode, place: Option<int>) -> (ReaderV, Option<TyV>)
        decreases node, 0int, 0int,
    {
        match place {
            Some(i) => if 0 <= i < node.children@.len() {
                match node.children@[i] {
                    SyntaxElement::Node(child) => {
                        let (next, ty) = self.typed(child);
                        (next, Some(ty))
                    },
                    SyntaxElement::Token(_) => (self, None),
                }
            } else {
                (self, None)
            },
            None => (self, None),
        }
    }

    /// The type of the child at a place, read as the definition's own.
    pub open spec fn own_typed_at(self, node: SyntaxNode, place: Option<int>) -> (
        ReaderV,
        Option<TyV>,
    ) {
        let (done, ty) = ReaderV { definition_type: true, ..self }.typed_at(node, place);
        (
            if ty is Some {
                ReaderV { definition_type: false, ..done }
            } else {
                self
            },
            ty,
        )
    }
}

pub open spec fn or_unknown(ty: Option<TyV>) -> TyV {
    match ty {
        Some(ty) => ty,
        None => TyV::Unknown,
    }
}

pub open spec fn is_bound(bound: Seq<(Seq<char>, Constraint)>, name: Seq<char>) -> bool {
    exists|i: int| 0 <= i < bound.len() && (#[trigger] bound[i]).0 == name
}

pub open spec fn bound_names(bound: Seq<(Seq<char>, Constraint)>) -> Seq<Seq<char>> {
    Seq::new(bound.len(), |i: int| bound[i].0)
}

impl AnnotationV {
    /// An annotation that declares nothing.
    pub open spec fn empty(range: TextRange) -> AnnotationV {
        AnnotationV {
            declared: None,
            parameter_names: Seq::empty(),
            definitions: Seq::empty(),
            definition_sites: Seq::empty(),
            new_nominal: None,
            strict: None,
            trusted: false,
            if_unknown: false,
            errors: Seq::empty(),
            typing_errors: Seq::empty(),
            vector_elements: Seq::empty(),
            applied_references: Seq::empty(),
            nominal_references: Seq::empty(),
            range,
        }
    }
}

/// What the directives of the expanded form have declared.
#[verifier::ext_equal]
pub struct ExpandedV {
    pub forall_binders: Seq<(Seq<char>, Constraint)>,
    pub params: Seq<(Seq<char>, TyV, bool)>,
    pub rest: Option<TyV>,
    pub ret: Option<TyV>,
    pub saw_expanded: bool,
    pub saw_param: bool,
    pub saw_return: bool,
}

/// A block as far as it has been read.
#[verifier::ext_equal]
pub struct BlockV {
    pub annotation: AnnotationV,
    pub reader: ReaderV,
    pub expanded: ExpandedV,
}

/// The formals a declared function type names.
pub open spec fn named_formals(body: TyV) -> Option<Seq<(Seq<char>, TyV, bool)>> {
    match body {
        TyV::Function(function) => Some(
            Seq::new(
                function.named.len(),
                |i: int|
                    (function.named[i].name, function.named[i].ty, function.named[i].optional),
            ),
        ),
        _ => None,
    }
}

impl BlockV {
    pub open spec fn start(range: TextRange) -> BlockV {
        BlockV {
            annotation: AnnotationV::empty(range),
            reader: ReaderV::start(),
            expanded: ExpandedV {
                forall_binders: Seq::empty(),
                params: Seq::empty(),
                rest: None,
                ret: None,
                saw_expanded: false,
                saw_param: false,
                saw_return: false,
            },
        }
    }

    pub open spec fn define(self, node: SyntaxNode, alias: bool) -> BlockV {
        let (reader, definition) = self.reader.definition(node, alias);
        match definition {
            Some(definition) => BlockV {
                reader,
                annotation: AnnotationV {
                    definitions: self.annotation.definitions.push(definition),
                    definition_sites: self.annotation.definition_sites.push(node.range),
                    ..self.annotation
                },
                ..self
            },
            None => BlockV { reader, ..self },
        }
    }

    pub open spec fn quantify(self, node: SyntaxNode) -> BlockV {
        let reader = if self.expanded.saw_param || self.expanded.saw_return {
            self.reader.fail(
                "`@forall` directives must appear before `@param`, `@return`, or `@returns` in the same `#:` block."@,
                node.range,
            )
        } else {
            self.reader
        };
        let (done, bound) = reader.read_binders(
            node.children@,
            0,
            self.expanded.forall_binders,
            "` in expanded function annotation."@,
        );
        BlockV {
            reader: done,
            expanded: ExpandedV { saw_expanded: true, forall_binders: bound, ..self.expanded },
            ..self
        }
    }

    pub open spec fn parameter(self, node: SyntaxNode) -> BlockV {
        let c = node.children@;
        let reader = if self.expanded.saw_return {
            self.reader.fail(
                "`@param` directives must appear before `@return` or `@returns` in the same `#:` block."@,
                node.range,
            )
        } else {
            self.reader
        };
        let (done, given) = reader.typed_at(node, next_type(c, 0));
        let ty = or_unknown(given);
        let seen = ExpandedV { saw_expanded: true, saw_param: true, ..self.expanded };
        BlockV {
            reader: done,
            expanded: match first_name(c) {
                Some(name) => if name == "..."@ {
                    ExpandedV { rest: Some(ty), ..seen }
                } else {
                    ExpandedV {
                        params: seen.params.push(
                            (name, ty, syntax::has_token(c, SyntaxKind::LBracket)),
                        ),
                        ..seen
                    }
                },
                None => seen,
            },
            ..self
        }
    }

    pub open spec fn result(self, node: SyntaxNode) -> BlockV {
        let reader = if self.expanded.saw_return {
            self.reader.fail(
                "cannot use more than one `@return` or `@returns` directive in the same `#:` block."@,
                node.range,
            )
        } else {
            self.reader
        };
        let (done, ret) = reader.typed_at(node, next_type(node.children@, 0));
        BlockV {
            reader: done,
            expanded: ExpandedV {
                saw_expanded: true,
                saw_return: true,
                ret,
                ..self.expanded
            },
            ..self
        }
    }

    /// A `@trust` or `@if-unknown` type.
    pub open spec fn coerce(self, node: SyntaxNode, trusted: bool) -> BlockV {
        let (reader, ty) = self.reader.own_typed_at(node, next_type(node.children@, 0));
        let marked = if trusted {
            AnnotationV { trusted: true, ..self.annotation }
        } else {
            AnnotationV { if_unknown: true, ..self.annotation }
        };
        BlockV {
            reader,
            annotation: match ty {
                Some(ty) => AnnotationV {
                    declared: Some(SchemeV::monomorphic(ty)),
                    ..marked
                },
                None => marked,
            },
            ..self
        }
    }

    pub open spec fn introduce(self, node: SyntaxNode) -> BlockV {
        let place = next_type(node.children@, 0);
        let (reader, ty) = self.reader.typed_at(node, place);
        let message = "expected a nominal type reference after `@new`."@;
        match ty {
            Some(ty) => {
                let range = node.children@[place->0]->Node_0.range;
                match ty {
                    TyV::Named(name, arguments) => BlockV {
                        reader,
                        annotation: AnnotationV {
                            new_nominal: Some((name, arguments, range)),
                            ..self.annotation
                        },
                        ..self
                    },
                    _ => BlockV { reader: reader.fail(message, range), ..self },
                }
            },
            None => BlockV { reader: reader.fail(message, node.range), ..self },
        }
    }

    pub open spec fn directive(self, node: SyntaxNode) -> BlockV {
        let name = blocks::directive_of(node);
        if name == "type"@ {
            self.define(node, false)
        } else if name == "alias"@ {
            self.define(node, true)
        } else if name == "forall"@ {
            self.quantify(node)
        } else if name == "param"@ {
            self.parameter(node)
        } else if name == "return"@ || name == "returns"@ {
            self.result(node)
        } else if name == "strict"@ {
            BlockV {
                annotation: AnnotationV {
                    strict: Some(!syntax::has_word(node.children@, SyntaxKind::Ident, "off"@)),
                    ..self.annotation
                },
                ..self
            }
        } else if name == "trust"@ {
            self.coerce(node, true)
        } else if name == "new"@ {
            self.introduce(node)
        } else if name == "if-unknown"@ {
            self.coerce(node, false)
        } else {
            self
        }
    }

    /// A list of binders before a compact type.
    pub open spec fn prefix(self, node: SyntaxNode) -> BlockV {
        let (reader, bound) = self.reader.read_binders(
            node.children@,
            0,
            self.expanded.forall_binders,
            "` in `<...>`."@,
        );
        BlockV {
            reader,
            expanded: ExpandedV { forall_binders: bound, ..self.expanded },
            ..self
        }
    }

    /// A compact type: the annotation is the declared type.
    pub open spec fn compact(self, node: SyntaxNode) -> BlockV {
        let (done, body) = ReaderV { definition_type: true, ..self.reader }.typed(node);
        BlockV {
            reader: ReaderV { definition_type: false, ..done },
            annotation: AnnotationV {
                parameter_names: match named_formals(body) {
                    Some(names) => names,
                    None => self.annotation.parameter_names,
                },
                declared: Some(SchemeV { binders: self.expanded.forall_binders, body }),
                ..self.annotation
            },
            ..self
        }
    }

    /// The children of a block from one on.
    pub open spec fn read(self, elements: Seq<SyntaxElement>, from: int) -> BlockV
        decreases elements.len() - from,
    {
        if 0 <= from < elements.len() {
            (match elements[from] {
                SyntaxElement::Node(node) => if node.kind == SyntaxKind::AnnotationDirective {
                    self.directive(node)
                } else if node.kind == SyntaxKind::TypeBinderList {
                    self.prefix(node)
                } else if blocks::names_type(node.kind) {
                    self.compact(node)
                } else {
                    self
                },
                SyntaxElement::Token(_) => self,
            }).read(elements, from + 1)
        } else {
            self
        }
    }

    /// The errors of a block that has been read.
    pub open spec fn shape_errors(self) -> Seq<(Seq<char>, TextRange)> {
        if self.reader.beyond_parse_depth {
            self.reader.errors.push(
                (
                    "This type annotation is nested too deeply (more than 160 levels)."@,
                    self.annotation.range,
                ),
            )
        } else {
            self.reader.errors
        }
    }

    pub open spec fn depth_errors(self) -> Seq<(Seq<char>, TextRange)> {
        if !self.reader.beyond_parse_depth && self.reader.beyond_check_depth {
            seq![
                (
                    "This type is nested too deeply to check (more than 128 levels)."@,
                    self.annotation.range,
                ),
            ]
        } else {
            Seq::empty()
        }
    }

    /// The function type that the expanded form declares.
    pub open spec fn assembled(self) -> SchemeV {
        SchemeV {
            binders: self.expanded.forall_binders,
            body: TyV::Function(
                Box::new(
                    FunctionV {
                        positional: Seq::empty(),
                        named: Seq::new(
                            self.expanded.params.len(),
                            |i: int|
                                ParameterV {
                                    name: self.expanded.params[i].0,
                                    ty: self.expanded.params[i].1,
                                    optional: self.expanded.params[i].2,
                                    default: None,
                                },
                        ),
                        variadic: match self.expanded.rest {
                            Some(element) => Some(
                                RestV {
                                    element,
                                    preceding_named: self.expanded.params.len() as usize,
                                },
                            ),
                            None => None,
                        },
                        ret: or_unknown(self.expanded.ret),
                    },
                ),
            ),
        }
    }

    /// What a block that has been read declares. One with errors keeps nothing
    /// but them.
    pub open spec fn finished(self) -> AnnotationV {
        let errors = self.shape_errors();
        let typing_errors = self.depth_errors();
        if errors.len() > 0 || typing_errors.len() > 0 {
            AnnotationV { errors, typing_errors, ..AnnotationV::empty(self.annotation.range) }
        } else {
            let kept = AnnotationV {
                nominal_references: self.reader.nominal_references,
                applied_references: self.reader.applied_references,
                vector_elements: self.reader.vector_elements,
                ..self.annotation
            };
            if self.expanded.saw_expanded && kept.declared is None && (
            self.expanded.params.len() > 0 || self.expanded.ret is Some) {
                AnnotationV {
                    parameter_names: self.expanded.params,
                    declared: Some(self.assembled()),
                    ..kept
                }
            } else {
                kept
            }
        }
    }
}

/// What an annotation block declares. A refused block declares nothing.
pub open spec fn annotation_of(node: SyntaxNode) -> AnnotationV {
    match blocks::refusal_of(node) {
        Some(RefusalV::FormMixing(message)) => AnnotationV {
            errors: seq![(message, node.range)],
            ..AnnotationV::empty(node.range)
        },
        Some(RefusalV::Unparsed) => AnnotationV::empty(node.range),
        None => BlockV::start(node.range).read(node.children@, 0).finished(),
    }
}

/// An annotation with errors declares nothing, so that a broken block gives no
/// further findings.
pub proof fn broken_annotations_declare_nothing(node: SyntaxNode)
    requires
        annotation_of(node).errors.len() > 0 || annotation_of(node).typing_errors.len() > 0,
    ensures
        annotation_of(node) == (AnnotationV {
            errors: annotation_of(node).errors,
            typing_errors: annotation_of(node).typing_errors,
            ..AnnotationV::empty(annotation_of(node).range)
        }),
{
    let block = BlockV::start(node.range).read(node.children@, 0);
    reading_reports_apart(BlockV::start(node.range), node.children@, 0);
    assert(block.annotation.errors.len() == 0 && block.annotation.typing_errors.len() == 0);
}

/// Reading a block leaves the annotation's own errors alone.
proof fn reading_reports_apart(block: BlockV, elements: Seq<SyntaxElement>, from: int)
    ensures
        block.read(elements, from).annotation.errors == block.annotation.errors,
        block.read(elements, from).annotation.typing_errors == block.annotation.typing_errors,
    decreases elements.len() - from,
{
    if 0 <= from < elements.len() {
        let next = match elements[from] {
            SyntaxElement::Node(node) => if node.kind == SyntaxKind::AnnotationDirective {
                block.directive(node)
            } else if node.kind == SyntaxKind::TypeBinderList {
                block.prefix(node)
            } else if blocks::names_type(node.kind) {
                block.compact(node)
            } else {
                block
            },
            SyntaxElement::Token(_) => block,
        };
        reading_reports_apart(next, elements, from + 1);
    }
}

} // verus!
