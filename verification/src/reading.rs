//! Reading annotation blocks.

use vstd::prelude::*;

use crate::annotations;
use crate::annotations::{Annotation, AnnotationV, NamedDefinition};
use crate::blocks::{block_refusal, directive_name, is_type_kind, BlockRefusal};
use crate::declarations;
use crate::declarations::{
    BlockV, ExpandedV, FormalsV, ReaderV, CHECK_DEPTH_LIMIT, PARSE_DEPTH_LIMIT,
};
use crate::infer;
use crate::infer::contains_text;
use crate::schemes::{clone_binders, TypeScheme};
use crate::syntax::{
    find_node, holds_token, holds_word, opt_place, SyntaxElement, SyntaxKind, SyntaxNode, TextRange,
};
use crate::text::{around, same_text};
use crate::type_ops::{any, null, scalar, union_of, unknown};
use crate::types;
use crate::types::{
    Atomic, Constraint, FunctionType, Name, Parameter, RecordField, RestParameter, Ty, TyKind, TyV,
};

verus! {

broadcast use crate::types::group_type_views;

fn parse_constraint(spelling: &str) -> (r: Option<Constraint>)
    ensures
        r == declarations::constraint_of(spelling@),
{
    if same_text(spelling, "numeric") {
        Some(Constraint::Numeric)
    } else if same_text(spelling, "atomic") {
        Some(Constraint::AtomicElement)
    } else if same_text(spelling, "scalar numeric") {
        Some(Constraint::ScalarNumeric)
    } else {
        None
    }
}

fn name_of_child(elements: &Vec<SyntaxElement>, place: Option<usize>) -> (r: Option<String>)
    requires
        place matches Some(i) ==> i < elements@.len(),
    ensures
        types::opt_text(r) == declarations::child_name(elements@, opt_place(place)),
{
    match place {
        Some(i) => match &elements[i] {
            SyntaxElement::Node(node) => node.name_text(),
            SyntaxElement::Token(_) => None,
        },
        None => None,
    }
}

fn find_name(elements: &Vec<SyntaxElement>) -> (r: Option<String>)
    ensures
        types::opt_text(r) == declarations::first_name(elements@),
{
    name_of_child(elements, find_node(elements, SyntaxKind::Name, 0))
}

fn spell_words(elements: &Vec<SyntaxElement>, from: usize) -> (r: String)
    ensures
        r@ == declarations::words_from(elements@, from as int, None),
{
    let mut done: Option<String> = None;
    let mut i: usize = from;
    while i < elements.len()
        invariant
            declarations::words_from(elements@, i as int, types::opt_text(done))
                == declarations::words_from(elements@, from as int, None),
        decreases elements.len() - i,
    {
        if let SyntaxElement::Node(node) = &elements[i] {
            if node.kind == SyntaxKind::Name {
                if let Some(word) = node.name_text() {
                    done = Some(
                        match done {
                            Some(before) => around(before.as_str(), " ", word.as_str()),
                            None => word,
                        },
                    );
                }
            }
        }
        i += 1;
    }
    match done {
        Some(done) => done,
        None => {
            let none = String::new();
            assert(none@ =~= Seq::empty());
            none
        },
    }
}

fn range_of_names(elements: &Vec<SyntaxElement>, from: usize) -> (r: Option<TextRange>)
    ensures
        r == declarations::names_range(elements@, from as int, None),
{
    let mut done: Option<TextRange> = None;
    let mut i: usize = from;
    while i < elements.len()
        invariant
            declarations::names_range(elements@, i as int, done) == declarations::names_range(
                elements@,
                from as int,
                None,
            ),
        decreases elements.len() - i,
    {
        if let SyntaxElement::Node(node) = &elements[i] {
            if node.kind == SyntaxKind::Name {
                done = Some(
                    match done {
                        Some(range) => range.cover(node.range),
                        None => node.range,
                    },
                );
            }
        }
        i += 1;
    }
    done
}

fn find_type(elements: &Vec<SyntaxElement>) -> (r: Option<usize>)
    ensures
        opt_place(r) == declarations::next_type(elements@, 0),
        r matches Some(i) ==> i < elements@.len() && elements@[i as int] is Node,
{
    let mut i: usize = 0;
    while i < elements.len()
        invariant
            i <= elements@.len(),
            declarations::next_type(elements@, i as int) == declarations::next_type(elements@, 0),
        decreases elements.len() - i,
    {
        if let SyntaxElement::Node(node) = &elements[i] {
            if is_type_kind(node.kind) {
                return Some(i);
            }
        }
        i += 1;
    }
    None
}

fn find_plain_type(elements: &Vec<SyntaxElement>) -> (r: Option<usize>)
    ensures
        opt_place(r) == declarations::next_plain_type(elements@, 0),
        r matches Some(i) ==> i < elements@.len(),
{
    let mut i: usize = 0;
    while i < elements.len()
        invariant
            i <= elements@.len(),
            declarations::next_plain_type(elements@, i as int) == declarations::next_plain_type(
                elements@,
                0,
            ),
        decreases elements.len() - i,
    {
        if let SyntaxElement::Node(node) = &elements[i] {
            if is_type_kind(node.kind) && node.kind != SyntaxKind::TypeBinderList {
                return Some(i);
            }
        }
        i += 1;
    }
    None
}

fn find_last_type(elements: &Vec<SyntaxElement>) -> (r: Option<usize>)
    ensures
        opt_place(r) == declarations::last_type(elements@, elements@.len() as int),
        r matches Some(i) ==> i < elements@.len(),
{
    let mut i: usize = elements.len();
    while i > 0
        invariant
            i <= elements@.len(),
            declarations::last_type(elements@, i as int) == declarations::last_type(
                elements@,
                elements@.len() as int,
            ),
        decreases i,
    {
        if let SyntaxElement::Node(node) = &elements[i - 1] {
            if is_type_kind(node.kind) {
                return Some(i - 1);
            }
        }
        i -= 1;
    }
    None
}

fn reserved(text: &str) -> (r: Option<Ty>)
    ensures
        types::opt_ty(r) == declarations::reserved_type(text@),
{
    if same_text(text, "Any") || same_text(text, "any") {
        Some(any())
    } else if same_text(text, "Unknown") || same_text(text, "unknown") {
        Some(unknown())
    } else if same_text(text, "NULL") || same_text(text, "null") {
        Some(null())
    } else if same_text(text, "logical") {
        Some(scalar(Atomic::Logical))
    } else if same_text(text, "integer") {
        Some(scalar(Atomic::Integer))
    } else if same_text(text, "double") {
        Some(scalar(Atomic::Double))
    } else if same_text(text, "complex") {
        Some(scalar(Atomic::Complex))
    } else if same_text(text, "character") {
        Some(scalar(Atomic::Character))
    } else if same_text(text, "raw") {
        Some(scalar(Atomic::Raw))
    } else {
        None
    }
}

fn binds_name(bound: &Vec<(Name, Constraint)>, name: &Name) -> (r: bool)
    ensures
        r == declarations::is_bound(infer::binders_view(bound@), name@),
{
    let ghost all = infer::binders_view(bound@);
    let mut i: usize = 0;
    while i < bound.len()
        invariant
            i <= bound@.len(),
            all == infer::binders_view(bound@),
            forall|k: int| 0 <= k < i ==> (#[trigger] all[k]).0 != name@,
        decreases bound.len() - i,
    {
        assert(all[i as int].0 == bound@[i as int].0@);
        if bound[i].0.same(name) {
            return true;
        }
        i += 1;
    }
    false
}

fn names_of(bound: &Vec<(Name, Constraint)>) -> (r: Vec<Name>)
    ensures
        types::names(r@) == declarations::bound_names(infer::binders_view(bound@)),
{
    let ghost all = declarations::bound_names(infer::binders_view(bound@));
    let mut names: Vec<Name> = Vec::new();
    let mut i: usize = 0;
    while i < bound.len()
        invariant
            i <= bound@.len(),
            all == declarations::bound_names(infer::binders_view(bound@)),
            types::names(names@) =~= all.subrange(0, i as int),
        decreases bound.len() - i,
    {
        names.push(bound[i].0.clone());
        i += 1;
    }
    names
}

fn or_unknown(ty: Option<Ty>) -> (r: Ty)
    ensures
        r@ == declarations::or_unknown(types::opt_ty(ty)),
{
    match ty {
        Some(ty) => ty,
        None => unknown(),
    }
}

struct Reader {
    binders: Vec<String>,
    nominal_references: Vec<(String, TextRange)>,
    applied_references: Vec<(String, usize, TextRange)>,
    errors: Vec<(String, TextRange)>,
    vector_elements: Vec<(Ty, TextRange)>,
    depth: usize,
    outer: usize,
    beyond_check_depth: bool,
    beyond_parse_depth: bool,
    definition_type: bool,
}

impl Reader {
    spec fn view(&self) -> ReaderV {
        ReaderV {
            binders: types::texts(self.binders@),
            nominal_references: annotations::messages_view(self.nominal_references@),
            applied_references: annotations::applied_view(self.applied_references@),
            errors: annotations::messages_view(self.errors@),
            vector_elements: annotations::ranged_types_view(self.vector_elements@),
            depth: self.depth as nat,
            outer: self.outer as nat,
            beyond_check_depth: self.beyond_check_depth,
            beyond_parse_depth: self.beyond_parse_depth,
            definition_type: self.definition_type,
        }
    }

    fn new() -> (r: Reader)
        ensures
            r@ == ReaderV::start(),
    {
        let r = Reader {
            binders: Vec::new(),
            nominal_references: Vec::new(),
            applied_references: Vec::new(),
            errors: Vec::new(),
            vector_elements: Vec::new(),
            depth: 0,
            outer: 1,
            beyond_check_depth: false,
            beyond_parse_depth: false,
            definition_type: false,
        };
        assert(r@ =~= ReaderV::start());
        r
    }

    fn fail(&mut self, message: String, range: TextRange)
        ensures
            final(self)@ == old(self)@.fail(message@, range),
    {
        let ghost before = self@;
        let ghost text = message@;
        self.errors.push((message, range));
        assert(self@ =~= before.fail(text, range));
    }

    fn bind(&mut self, name: &Name)
        ensures
            final(self)@ == old(self)@.bind(name@),
    {
        self.binders.push(name.text().to_string());
    }

    fn lower_binder(&mut self, node: &SyntaxNode) -> (r: Option<(Name, Constraint)>)
        ensures
            (final(self)@, opt_binder(r)) == old(self)@.binder(*node),
    {
        let first = match find_node(&node.children, SyntaxKind::Name, 0) {
            Some(first) => first,
            None => {
                return None;
            },
        };
        let count: usize = node.children.len();
        assert(first < count);
        let name = match name_of_child(&node.children, Some(first)) {
            Some(name) => name,
            None => {
                return None;
            },
        };
        let range = match range_of_names(&node.children, first + 1) {
            Some(range) => range,
            None => {
                return Some((Name::new(name), Constraint::Unconstrained));
            },
        };
        let spelling = spell_words(&node.children, first + 1);
        match parse_constraint(spelling.as_str()) {
            Some(constraint) => Some((Name::new(name), constraint)),
            None => {
                let message = around(
                    "unknown type-parameter constraint `",
                    spelling.as_str(),
                    "`; the available constraints are `numeric`, `atomic`, or `scalar numeric`.",
                );
                self.fail(message, range);
                Some((Name::new(name), Constraint::Unconstrained))
            },
        }
    }

    fn read_binders(
        &mut self,
        elements: &Vec<SyntaxElement>,
        bound: &mut Vec<(Name, Constraint)>,
        place: &str,
    )
        ensures
            (final(self)@, infer::binders_view(final(bound)@)) == old(self)@.read_binders(
                elements@,
                0,
                infer::binders_view(old(bound)@),
                place@,
            ),
            final(self).depth == old(self).depth,
    {
        let ghost start = infer::binders_view(bound@);
        let mut i: usize = 0;
        while i < elements.len()
            invariant
                i <= elements@.len(),
                self.depth == old(self).depth,
                self@.read_binders(
                    elements@,
                    i as int,
                    infer::binders_view(bound@),
                    place@,
                ) == old(self)@.read_binders(elements@, 0, start, place@),
            decreases elements.len() - i,
        {
            if let SyntaxElement::Node(node) = &elements[i] {
                if node.kind == SyntaxKind::TypeBinder {
                    let ghost depth = self@.depth;
                    if let Some((name, constraint)) = self.lower_binder(node) {
                        if binds_name(bound, &name) {
                            let message = around(
                                "duplicate type parameter name `",
                                name.text(),
                                place,
                            );
                            self.fail(message, node.range);
                        }
                        self.bind(&name);
                        let ghost before = infer::binders_view(bound@);
                        let ghost one = (name@, constraint);
                        bound.push((name, constraint));
                        assert(infer::binders_view(bound@) =~= before.push(one));
                    }
                    assert(self@.depth == depth);
                }
            }
            i += 1;
        }
    }

    fn lower_named_definition(&mut self, node: &SyntaxNode, alias: bool) -> (r: Option<
        NamedDefinition,
    >)
        requires
            old(self).depth <= PARSE_DEPTH_LIMIT,
        ensures
            (final(self)@, opt_definition(r)) == old(self)@.definition(*node, alias),
            final(self).depth == old(self).depth,
    {
        let name = match find_name(&node.children) {
            Some(name) => name,
            None => {
                return None;
            },
        };
        let saved = clone_texts(&self.binders);
        let mut bound: Vec<(Name, Constraint)> = Vec::new();
        assert(infer::binders_view(bound@) =~= Seq::empty());
        if let Some(i) = find_node(&node.children, SyntaxKind::TypeBinderList, 0) {
            if let SyntaxElement::Node(list) = &node.children[i] {
                self.read_binders(&list.children, &mut bound, "` in named type definition.");
            }
        }
        let place = find_plain_type(&node.children);
        let body = or_unknown(self.lower_type_at(node, place));
        self.binders = saved;
        Some(
            NamedDefinition {
                alias,
                name: Name::new(name),
                parameters: names_of(&bound),
                body,
            },
        )
    }

    fn lower_type(&mut self, node: &SyntaxNode) -> (r: Ty)
        requires
            old(self).depth <= PARSE_DEPTH_LIMIT,
        ensures
            (final(self)@, r@) == old(self)@.typed(*node),
            final(self).depth == old(self).depth,
        decreases node, 3int, 0int,
    {
        let depth: usize = self.depth + 1;
        if depth > CHECK_DEPTH_LIMIT {
            self.beyond_check_depth = true;
        }
        if depth > PARSE_DEPTH_LIMIT {
            self.beyond_parse_depth = true;
            return unknown();
        }
        self.depth = depth;
        let ty = self.lower_type_inner(node);
        self.depth = depth - 1;
        ty
    }

    fn lower_type_inner(&mut self, node: &SyntaxNode) -> (r: Ty)
        requires
            old(self).depth <= PARSE_DEPTH_LIMIT,
        ensures
            (final(self)@, r@) == old(self)@.typed_inner(*node),
            final(self).depth == old(self).depth,
        decreases node, 2int, 0int,
    {
        match node.kind {
            SyntaxKind::TypeRef => self.lower_type_ref(node),
            SyntaxKind::TypeParen => {
                let place = find_type(&node.children);
                let outer: usize = self.outer;
                if self.depth == outer {
                    self.outer = outer + 1;
                }
                let inner = or_unknown(self.lower_type_at(node, place));
                self.outer = outer;
                inner
            },
            SyntaxKind::TypeUnion => {
                let members = self.lower_types(node);
                union_of(&members)
            },
            SyntaxKind::TypeVector => {
                let place = find_type(&node.children);
                let element = or_unknown(self.lower_type_at(node, place));
                let ghost before = self@;
                self.vector_elements.push((element.clone(), node.range));
                assert(self@ =~= (ReaderV {
                    vector_elements: before.vector_elements.push((element@, node.range)),
                    ..before
                }));
                if holds_word(&node.children, SyntaxKind::Ident, "named") {
                    Ty::new(TyKind::NamedVector(element))
                } else {
                    Ty::new(TyKind::Vector(element))
                }
            },
            SyntaxKind::TypeList => {
                let place = find_type(&node.children);
                let element = or_unknown(self.lower_type_at(node, place));
                if holds_word(&node.children, SyntaxKind::Ident, "named") {
                    Ty::new(TyKind::NamedList(element))
                } else {
                    Ty::new(TyKind::List(element))
                }
            },
            SyntaxKind::TypeTuple => Ty::new(TyKind::Tuple(self.lower_types(node))),
            SyntaxKind::TypeRecord => Ty::new(TyKind::Record(self.lower_fields(node))),
            SyntaxKind::TypeApply => self.lower_applied(node),
            SyntaxKind::TypeFunction => self.lower_function_type(node),
            _ => unknown(),
        }
    }

    fn refer(&mut self, name: &String, range: TextRange)
        ensures
            final(self)@ == (ReaderV {
                nominal_references: old(self)@.nominal_references.push((name@, range)),
                ..old(self)@
            }),
            final(self).depth == old(self).depth,
    {
        let ghost before = self@;
        self.nominal_references.push((name.clone(), range));
        assert(self@ =~= (ReaderV {
            nominal_references: before.nominal_references.push((name@, range)),
            ..before
        }));
    }

    fn lower_type_ref(&mut self, node: &SyntaxNode) -> (r: Ty)
        ensures
            (final(self)@, r@) == old(self)@.reference(*node),
            final(self).depth == old(self).depth,
    {
        let token = match node.first_token() {
            Some(token) => token,
            None => {
                return unknown();
            },
        };
        if let Some(ty) = reserved(token.text.as_str()) {
            return ty;
        }
        let name = Name::new(token.text.clone());
        if contains_text(&self.binders, token.text.as_str()) {
            return Ty::new(TyKind::Rigid(name));
        }
        self.refer(&token.text, token.range);
        let none: Vec<Ty> = Vec::new();
        assert(types::tys(none@) =~= Seq::empty());
        Ty::new(TyKind::Named(name, none))
    }

    fn lower_applied(&mut self, node: &SyntaxNode) -> (r: Ty)
        requires
            old(self).depth <= PARSE_DEPTH_LIMIT,
        ensures
            (final(self)@, r@) == old(self)@.applied(*node),
            final(self).depth == old(self).depth,
        decreases node, 1int, 0int,
    {
        let place = find_node(&node.children, SyntaxKind::Name, 0);
        let name = match name_of_child(&node.children, place) {
            Some(name) => name,
            None => {
                let none = String::new();
                assert(none@ =~= Seq::empty());
                none
            },
        };
        let empty = same_text(name.as_str(), "");
        proof {
            reveal_strlit("");
            assert(empty == (name@.len() == 0)) by {
                if name@.len() == 0 {
                    assert(name@ =~= ""@);
                }
            }
        }
        if empty {
            let arguments = self.lower_type_arguments(node);
            return Ty::new(TyKind::Named(Name::new(name), arguments));
        }
        if contains_text(&self.binders, name.as_str()) {
            let message = around(
                "`",
                name.as_str(),
                "` is a type parameter here and takes no type arguments.",
            );
            self.fail(message, node.range);
            return unknown();
        }
        if let Some(i) = place {
            if let SyntaxElement::Node(name_node) = &node.children[i] {
                let range = name_node.range;
                self.refer(&name, range);
                let arguments = self.lower_type_arguments(node);
                let ghost before = self@;
                let count: usize = arguments.len();
                self.applied_references.push((name.clone(), count, range));
                assert(self@ =~= (ReaderV {
                    applied_references: before.applied_references.push((name@, count, range)),
                    ..before
                }));
                return Ty::new(TyKind::Named(Name::new(name), arguments));
            }
        }
        unknown()
    }

    fn lower_type_arguments(&mut self, node: &SyntaxNode) -> (r: Vec<Ty>)
        requires
            old(self).depth <= PARSE_DEPTH_LIMIT,
        ensures
            (final(self)@, types::tys(r@)) == old(self)@.typed_arguments(*node),
            final(self).depth == old(self).depth,
        decreases node, 0int, 0int,
    {
        if let Some(i) = find_node(&node.children, SyntaxKind::TypeArgList, 0) {
            if let SyntaxElement::Node(list) = &node.children[i] {
                return self.lower_types(list);
            }
        }
        let none: Vec<Ty> = Vec::new();
        assert(types::tys(none@) =~= Seq::empty());
        none
    }

    fn lower_function_type(&mut self, node: &SyntaxNode) -> (r: Ty)
        requires
            old(self).depth <= PARSE_DEPTH_LIMIT,
        ensures
            (final(self)@, r@) == old(self)@.function(*node),
            final(self).depth == old(self).depth,
        decreases node, 1int, 0int,
    {
        let mut formals = Formals { positional: Vec::new(), named: Vec::new(), variadic: None };
        assert(formals@ =~= (FormalsV {
            positional: Seq::empty(),
            named: Seq::empty(),
            variadic: None,
        }));
        if let Some(i) = find_node(&node.children, SyntaxKind::TypeParameterList, 0) {
            if let SyntaxElement::Node(list) = &node.children[i] {
                self.lower_formals(list, &mut formals);
            }
        }
        let place = if holds_token(&node.children, SyntaxKind::MinusGreater) {
            find_last_type(&node.children)
        } else {
            None
        };
        let ret = match self.lower_type_at(node, place) {
            Some(ty) => ty,
            None => if self.definition_type && self.depth == self.outer {
                unknown()
            } else {
                null()
            },
        };
        let Formals { positional, named, variadic } = formals;
        Ty::new(TyKind::Function(FunctionType { positional, named, variadic, ret }))
    }

    fn lower_formals(&mut self, list: &SyntaxNode, formals: &mut Formals)
        requires
            old(self).depth <= PARSE_DEPTH_LIMIT,
        ensures
            (final(self)@, final(formals)@) == old(self)@.typed_formals(
                *list,
                0,
                old(formals)@,
            ),
            final(self).depth == old(self).depth,
        decreases list, 1int, 0int,
    {
        let ghost start = formals@;
        let mut i: usize = 0;
        while i < list.children.len()
            invariant
                i <= list.children@.len(),
                self.depth == old(self).depth,
                self.depth <= PARSE_DEPTH_LIMIT,
                self@.typed_formals(*list, i as int, formals@) == old(self)@.typed_formals(
                    *list,
                    0,
                    start,
                ),
            decreases list.children.len() - i,
        {
            if let SyntaxElement::Node(node) = &list.children[i] {
                if node.kind == SyntaxKind::TypeParameter {
                    let place = find_type(&node.children);
                    assert(decreases_to!(*list => *node));
                    let ty = self.lower_type_at(node, place);
                    if holds_token(&node.children, SyntaxKind::Dots) {
                        let element = match ty {
                            Some(ty) => ty,
                            None => any(),
                        };
                        let preceding_named: usize = formals.named.len();
                        formals.variadic = Some(RestParameter { element, preceding_named });
                    } else {
                        match find_name(&node.children) {
                            Some(name) => {
                                let optional = holds_token(&node.children, SyntaxKind::LBracket);
                                formals.named.push(
                                    Parameter {
                                        name: Name::new(name),
                                        ty: or_unknown(ty),
                                        optional,
                                        default: None,
                                    },
                                );
                            },
                            None => {
                                formals.positional.push(or_unknown(ty));
                            },
                        }
                    }
                }
            }
            i += 1;
        }
    }

    fn lower_fields(&mut self, node: &SyntaxNode) -> (r: Vec<RecordField>)
        requires
            old(self).depth <= PARSE_DEPTH_LIMIT,
        ensures
            (final(self)@, types::fields_view(r@)) == old(self)@.typed_fields(
                *node,
                0,
                Seq::empty(),
            ),
            final(self).depth == old(self).depth,
        decreases node, 1int, 0int,
    {
        let mut done: Vec<RecordField> = Vec::new();
        assert(types::fields_view(done@) =~= Seq::empty());
        let mut i: usize = 0;
        while i < node.children.len()
            invariant
                i <= node.children@.len(),
                self.depth == old(self).depth,
                self.depth <= PARSE_DEPTH_LIMIT,
                self@.typed_fields(*node, i as int, types::fields_view(done@)) == old(
                    self,
                )@.typed_fields(*node, 0, Seq::empty()),
            decreases node.children.len() - i,
        {
            if let SyntaxElement::Node(field) = &node.children[i] {
                if field.kind == SyntaxKind::TypeField {
                    if let Some(name) = find_name(&field.children) {
                        let place = find_type(&field.children);
                        assert(decreases_to!(*node => *field));
                        let ty = or_unknown(self.lower_type_at(field, place));
                        done.push(RecordField { name: Name::new(name), ty, optional: false });
                    }
                }
            }
            i += 1;
        }
        done
    }

    fn lower_types(&mut self, node: &SyntaxNode) -> (r: Vec<Ty>)
        requires
            old(self).depth <= PARSE_DEPTH_LIMIT,
        ensures
            (final(self)@, types::tys(r@)) == old(self)@.typed_all(*node, 0, Seq::empty()),
            final(self).depth == old(self).depth,
        decreases node, 1int, 0int,
    {
        let mut done: Vec<Ty> = Vec::new();
        assert(types::tys(done@) =~= Seq::empty());
        let mut i: usize = 0;
        while i < node.children.len()
            invariant
                i <= node.children@.len(),
                self.depth == old(self).depth,
                self.depth <= PARSE_DEPTH_LIMIT,
                self@.typed_all(*node, i as int, types::tys(done@)) == old(self)@.typed_all(
                    *node,
                    0,
                    Seq::empty(),
                ),
            decreases node.children.len() - i,
        {
            if let SyntaxElement::Node(child) = &node.children[i] {
                if is_type_kind(child.kind) {
                    assert(decreases_to!(*node => *child));
                    let ty = self.lower_type(child);
                    done.push(ty);
                }
            }
            i += 1;
        }
        done
    }

    fn lower_type_at(&mut self, node: &SyntaxNode, place: Option<usize>) -> (r: Option<Ty>)
        requires
            old(self).depth <= PARSE_DEPTH_LIMIT,
        ensures
            (final(self)@, types::opt_ty(r)) == old(self)@.typed_at(*node, opt_place(place)),
            final(self).depth == old(self).depth,
        decreases node, 0int, 0int,
    {
        match place {
            Some(i) => if i < node.children.len() {
                match &node.children[i] {
                    SyntaxElement::Node(child) => Some(self.lower_type(child)),
                    SyntaxElement::Token(_) => None,
                }
            } else {
                None
            },
            None => None,
        }
    }

    fn lower_own_type(&mut self, node: &SyntaxNode) -> (r: Option<Ty>)
        requires
            old(self).depth <= PARSE_DEPTH_LIMIT,
        ensures
            (final(self)@, types::opt_ty(r)) == old(self)@.own_typed_at(
                *node,
                declarations::next_type(node.children@, 0),
            ),
            final(self).depth == old(self).depth,
    {
        let place = find_type(&node.children);
        if place.is_none() {
            return None;
        }
        self.definition_type = true;
        let ty = self.lower_type_at(node, place);
        self.definition_type = false;
        ty
    }
}

struct Formals {
    positional: Vec<Ty>,
    named: Vec<Parameter>,
    variadic: Option<RestParameter>,
}

impl Formals {
    spec fn view(&self) -> FormalsV {
        FormalsV {
            positional: types::tys(self.positional@),
            named: types::params_view(self.named@),
            variadic: types::opt_rest(self.variadic),
        }
    }
}

pub open spec fn opt_binder(binder: Option<(Name, Constraint)>) -> Option<(Seq<char>, Constraint)> {
    match binder {
        Some((name, constraint)) => Some((name@, constraint)),
        None => None,
    }
}

pub open spec fn opt_definition(definition: Option<NamedDefinition>) -> Option<
    annotations::DefinitionV,
> {
    match definition {
        Some(definition) => Some(definition@),
        None => None,
    }
}

fn clone_texts(texts: &Vec<String>) -> (r: Vec<String>)
    ensures
        types::texts(r@) == types::texts(texts@),
{
    let mut out: Vec<String> = Vec::new();
    let mut i: usize = 0;
    while i < texts.len()
        invariant
            i <= texts@.len(),
            types::texts(out@) =~= types::texts(texts@).subrange(0, i as int),
        decreases texts.len() - i,
    {
        out.push(texts[i].clone());
        i += 1;
    }
    assert(types::texts(out@) =~= types::texts(texts@));
    out
}


fn empty_annotation(range: TextRange) -> (r: Annotation)
    ensures
        r@ == AnnotationV::empty(range),
{
    let r = Annotation {
        declared: None,
        parameter_names: Vec::new(),
        definitions: Vec::new(),
        definition_sites: Vec::new(),
        new_nominal: None,
        strict: None,
        trusted: false,
        if_unknown: false,
        errors: Vec::new(),
        typing_errors: Vec::new(),
        vector_elements: Vec::new(),
        applied_references: Vec::new(),
        nominal_references: Vec::new(),
        range,
    };
    assert(r@ =~= AnnotationV::empty(range));
    r
}

struct Block {
    annotation: Annotation,
    reader: Reader,
    forall_binders: Vec<(Name, Constraint)>,
    params: Vec<(String, Ty, bool)>,
    rest: Option<Ty>,
    ret: Option<Ty>,
    saw_expanded: bool,
    saw_param: bool,
    saw_return: bool,
}

fn function_formals(body: &Ty) -> (r: Option<Vec<(String, Ty, bool)>>)
    ensures
        (match r {
            Some(names) => Some(annotations::parameter_names_view(names@)),
            None => None,
        }) == declarations::named_formals(body@),
{
    match body.kind() {
        TyKind::Function(function) => {
            let ghost all = declarations::named_formals(body@)->0;
            let mut names: Vec<(String, Ty, bool)> = Vec::new();
            let mut i: usize = 0;
            while i < function.named.len()
                invariant
                    i <= function.named@.len(),
                    body@ == TyV::Function(Box::new(function@)),
                    all == declarations::named_formals(body@)->0,
                    annotations::parameter_names_view(names@) =~= all.subrange(0, i as int),
                decreases function.named.len() - i,
            {
                let formal = &function.named[i];
                assert(function@.named[i as int] == formal@);
                assert(all[i as int] == (formal.name@, formal.ty@, formal.optional));
                let ghost before = annotations::parameter_names_view(names@);
                names.push((formal.name.text().to_string(), formal.ty.clone(), formal.optional));
                assert(annotations::parameter_names_view(names@) =~= before.push(all[i as int]));
                assert(all.len() == function.named@.len());
                assert(all.subrange(0, i + 1) =~= all.subrange(0, i as int).push(all[i as int]));
                i += 1;
            }
            assert(annotations::parameter_names_view(names@) =~= all);
            Some(names)
        },
        _ => None,
    }
}

impl Block {
    spec fn view(&self) -> BlockV {
        BlockV {
            annotation: self.annotation@,
            reader: self.reader@,
            expanded: ExpandedV {
                forall_binders: infer::binders_view(self.forall_binders@),
                params: annotations::parameter_names_view(self.params@),
                rest: types::opt_ty(self.rest),
                ret: types::opt_ty(self.ret),
                saw_expanded: self.saw_expanded,
                saw_param: self.saw_param,
                saw_return: self.saw_return,
            },
        }
    }

    /// Whether no type is being read.
    spec fn at_rest(&self) -> bool {
        self.reader.depth == 0
    }

    fn new(range: TextRange) -> (r: Block)
        ensures
            r@ == BlockV::start(range),
            r.at_rest(),
    {
        let r = Block {
            annotation: empty_annotation(range),
            reader: Reader::new(),
            forall_binders: Vec::new(),
            params: Vec::new(),
            rest: None,
            ret: None,
            saw_expanded: false,
            saw_param: false,
            saw_return: false,
        };
        assert(r@ =~= BlockV::start(range));
        assert(r.reader@.depth == 0);
        r
    }

    fn define(&mut self, node: &SyntaxNode, alias: bool)
        requires
            old(self).at_rest(),
        ensures
            final(self)@ == old(self)@.define(*node, alias),
            final(self).at_rest(),
    {
        let ghost before = self@;
        if let Some(definition) = self.reader.lower_named_definition(node, alias) {
            let ghost one = definition@;
            self.annotation.definitions.push(definition);
            self.annotation.definition_sites.push(node.range);
            assert(self@.annotation =~= (AnnotationV {
                definitions: before.annotation.definitions.push(one),
                definition_sites: before.annotation.definition_sites.push(node.range),
                ..before.annotation
            }));
        }
    }

    fn quantify(&mut self, node: &SyntaxNode)
        requires
            old(self).at_rest(),
        ensures
            final(self)@ == old(self)@.quantify(*node),
            final(self).at_rest(),
    {
        let ghost before = self@;
        if self.saw_param || self.saw_return {
            self.reader.fail(
                "`@forall` directives must appear before `@param`, `@return`, or `@returns` in the same `#:` block.".to_string(),
                node.range,
            );
        }
        assert(self.reader@.depth == 0);
        self.saw_expanded = true;
        self.reader.read_binders(
            &node.children,
            &mut self.forall_binders,
            "` in expanded function annotation.",
        );
    }

    fn parameter(&mut self, node: &SyntaxNode)
        requires
            old(self).at_rest(),
        ensures
            final(self)@ == old(self)@.parameter(*node),
            final(self).at_rest(),
    {
        if self.saw_return {
            self.reader.fail(
                "`@param` directives must appear before `@return` or `@returns` in the same `#:` block.".to_string(),
                node.range,
            );
        }
        assert(self.reader@.depth == 0);
        let place = find_type(&node.children);
        let ty = or_unknown(self.reader.lower_type_at(node, place));
        self.saw_expanded = true;
        self.saw_param = true;
        if let Some(name) = find_name(&node.children) {
            if same_text(name.as_str(), "...") {
                self.rest = Some(ty);
            } else {
                let optional = holds_token(&node.children, SyntaxKind::LBracket);
                let ghost before = annotations::parameter_names_view(self.params@);
                let ghost one = (name@, ty@, optional);
                self.params.push((name, ty, optional));
                assert(annotations::parameter_names_view(self.params@) =~= before.push(one));
            }
        }
    }

    fn result(&mut self, node: &SyntaxNode)
        requires
            old(self).at_rest(),
        ensures
            final(self)@ == old(self)@.result(*node),
            final(self).at_rest(),
    {
        if self.saw_return {
            self.reader.fail(
                "cannot use more than one `@return` or `@returns` directive in the same `#:` block.".to_string(),
                node.range,
            );
        }
        assert(self.reader@.depth == 0);
        self.saw_expanded = true;
        self.saw_return = true;
        let place = find_type(&node.children);
        self.ret = self.reader.lower_type_at(node, place);
    }

    fn coerce(&mut self, node: &SyntaxNode, trusted: bool)
        requires
            old(self).at_rest(),
        ensures
            final(self)@ == old(self)@.coerce(*node, trusted),
            final(self).at_rest(),
    {
        if trusted {
            self.annotation.trusted = true;
        } else {
            self.annotation.if_unknown = true;
        }
        if let Some(ty) = self.reader.lower_own_type(node) {
            self.annotation.declared = Some(TypeScheme::monomorphic(ty));
        }
    }

    fn introduce(&mut self, node: &SyntaxNode)
        requires
            old(self).at_rest(),
        ensures
            final(self)@ == old(self)@.introduce(*node),
            final(self).at_rest(),
    {
        let place = find_type(&node.children);
        if let Some(i) = place {
            if let SyntaxElement::Node(child) = &node.children[i] {
                let range = child.range;
                let ty = self.reader.lower_type_at(node, place);
                if let Some(ty) = ty {
                    if let TyKind::Named(name, arguments) = ty.kind() {
                        self.annotation.new_nominal = Some(
                            (name.clone(), crate::type_ops::clone_types(arguments), range),
                        );
                    } else {
                        self.reader.fail(
                            "expected a nominal type reference after `@new`.".to_string(),
                            range,
                        );
                        assert(self.reader@.depth == 0);
                    }
                }
                return;
            }
        }
        self.reader.fail(
            "expected a nominal type reference after `@new`.".to_string(),
            node.range,
        );
        assert(self.reader@.depth == 0);
    }

    fn directive(&mut self, node: &SyntaxNode)
        requires
            old(self).at_rest(),
        ensures
            final(self)@ == old(self)@.directive(*node),
            final(self).at_rest(),
    {
        let directive = directive_name(node);
        let name = directive.as_str();
        if same_text(name, "type") {
            self.define(node, false);
        } else if same_text(name, "alias") {
            self.define(node, true);
        } else if same_text(name, "forall") {
            self.quantify(node);
        } else if same_text(name, "param") {
            self.parameter(node);
        } else if same_text(name, "return") || same_text(name, "returns") {
            self.result(node);
        } else if same_text(name, "strict") {
            self.annotation.strict = Some(!holds_word(&node.children, SyntaxKind::Ident, "off"));
        } else if same_text(name, "trust") {
            self.coerce(node, true);
        } else if same_text(name, "new") {
            self.introduce(node);
        } else if same_text(name, "if-unknown") {
            self.coerce(node, false);
        }
    }

    fn prefix(&mut self, node: &SyntaxNode)
        requires
            old(self).at_rest(),
        ensures
            final(self)@ == old(self)@.prefix(*node),
            final(self).at_rest(),
    {
        self.reader.read_binders(&node.children, &mut self.forall_binders, "` in `<...>`.");
    }

    fn compact(&mut self, node: &SyntaxNode)
        requires
            old(self).at_rest(),
        ensures
            final(self)@ == old(self)@.compact(*node),
            final(self).at_rest(),
    {
        self.reader.definition_type = true;
        let body = self.reader.lower_type(node);
        self.reader.definition_type = false;
        if let Some(names) = function_formals(&body) {
            self.annotation.parameter_names = names;
        }
        let binders = clone_binders(&self.forall_binders);
        self.annotation.declared = Some(TypeScheme { binders, body });
    }

    fn read(&mut self, elements: &Vec<SyntaxElement>)
        requires
            old(self).at_rest(),
        ensures
            final(self)@ == old(self)@.read(elements@, 0),
            final(self).at_rest(),
    {
        let mut i: usize = 0;
        while i < elements.len()
            invariant
                i <= elements@.len(),
                self.at_rest(),
                self@.read(elements@, i as int) == old(self)@.read(elements@, 0),
            decreases elements.len() - i,
        {
            if let SyntaxElement::Node(node) = &elements[i] {
                if node.kind == SyntaxKind::AnnotationDirective {
                    self.directive(node);
                } else if node.kind == SyntaxKind::TypeBinderList {
                    self.prefix(node);
                } else if is_type_kind(node.kind) {
                    self.compact(node);
                }
            }
            i += 1;
        }
    }

    fn assemble(&self) -> (r: TypeScheme)
        ensures
            r@ == self@.assembled(),
    {
        let ghost params = self@.expanded.params;
        let mut named: Vec<Parameter> = Vec::new();
        let mut i: usize = 0;
        while i < self.params.len()
            invariant
                i <= self.params@.len(),
                params == annotations::parameter_names_view(self.params@),
                named@.len() == i,
                forall|k: int|
                    0 <= k < i ==> (#[trigger] types::params_view(named@)[k]) == (
                    types::ParameterV {
                        name: params[k].0,
                        ty: params[k].1,
                        optional: params[k].2,
                        default: None,
                    }),
            decreases self.params.len() - i,
        {
            let param = &self.params[i];
            named.push(
                Parameter {
                    name: Name::new(param.0.clone()),
                    ty: param.1.clone(),
                    optional: param.2,
                    default: None,
                },
            );
            i += 1;
        }
        let variadic = match &self.rest {
            Some(element) => Some(
                RestParameter { element: element.clone(), preceding_named: self.params.len() },
            ),
            None => None,
        };
        let ret = match &self.ret {
            Some(ret) => ret.clone(),
            None => unknown(),
        };
        let positional: Vec<Ty> = Vec::new();
        let function = FunctionType { positional, named, variadic, ret };
        let ghost expected = match self@.assembled().body {
            TyV::Function(function) => *function,
            _ => arbitrary(),
        };
        assert(function@.named.len() == expected.named.len());
        assert forall|k: int| 0 <= k < expected.named.len() implies #[trigger] function@.named[k]
            == expected.named[k] by {
            assert(types::params_view(function.named@)[k] == (types::ParameterV {
                name: params[k].0,
                ty: params[k].1,
                optional: params[k].2,
                default: None,
            }));
        }
        assert(function@.named =~= expected.named);
        assert(function@.positional =~= Seq::empty());
        TypeScheme {
            binders: clone_binders(&self.forall_binders),
            body: Ty::new(TyKind::Function(function)),
        }
    }

    fn finish(self) -> (r: Annotation)
        ensures
            r@ == self@.finished(),
    {
        let range = self.annotation.range;
        let ghost whole = self@;
        let deep = !self.reader.beyond_parse_depth && self.reader.beyond_check_depth;
        let refused = self.reader.beyond_parse_depth;
        let expanded = self.saw_expanded && self.annotation.declared.is_none() && (
        self.params.len() > 0 || self.ret.is_some());
        let scheme = if expanded {
            Some(self.assemble())
        } else {
            None
        };
        let Block { annotation, reader, params, .. } = self;
        let mut errors = reader.errors;
        let mut typing_errors: Vec<(String, TextRange)> = Vec::new();
        if refused {
            errors.push(
                (
                    "This type annotation is nested too deeply (more than 160 levels).".to_string(),
                    range,
                ),
            );
            assert(annotations::messages_view(errors@) =~= whole.shape_errors());
        }
        if deep {
            typing_errors.push(
                (
                    "This type is nested too deeply to check (more than 128 levels).".to_string(),
                    range,
                ),
            );
        }
        assert(annotations::messages_view(errors@) =~= whole.shape_errors());
        assert(annotations::messages_view(typing_errors@) =~= whole.depth_errors());
        if errors.len() > 0 || typing_errors.len() > 0 {
            let mut broken = empty_annotation(range);
            broken.errors = errors;
            broken.typing_errors = typing_errors;
            return broken;
        }
        let mut kept = annotation;
        kept.nominal_references = reader.nominal_references;
        kept.applied_references = reader.applied_references;
        kept.vector_elements = reader.vector_elements;
        if let Some(scheme) = scheme {
            kept.parameter_names = params;
            kept.declared = Some(scheme);
        }
        kept
    }
}

/// Lowers one annotation block.
pub fn lower_annotation(node: &SyntaxNode) -> (r: Annotation)
    ensures
        r@ == declarations::annotation_of(*node),
{
    match block_refusal(node) {
        Some(BlockRefusal::FormMixing(message)) => {
            let mut refused = empty_annotation(node.range);
            refused.errors.push((message.to_string(), node.range));
            assert(refused@ =~= declarations::annotation_of(*node));
            refused
        },
        Some(BlockRefusal::Unparsed) => empty_annotation(node.range),
        None => {
            let mut block = Block::new(node.range);
            block.read(&node.children);
            block.finish()
        },
    }
}

} // verus!
