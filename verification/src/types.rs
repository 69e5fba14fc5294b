//! The type language: immutable type trees and the operations every layer
//! shares.
//!
//! A [`Ty`] is a cheap shared handle on its [`TyKind`]. Its model is the
//! mathematical tree [`TyV`]: every contract in this crate speaks of that tree.

use std::rc::Rc;
use vstd::prelude::*;

use crate::text::same_string;

verus! {

/// The atomic modes a scalar or a vector element can have.
#[derive(Debug, Clone, Copy, PartialEq, Eq, Hash, Structural)]
pub enum Atomic {
    Logical,
    Integer,
    Double,
    Complex,
    Character,
    Raw,
}

/// What an unbound variable, or a declared binder, is known to satisfy.
#[derive(Debug, Clone, Copy, PartialEq, Eq, Hash, Structural)]
pub enum Constraint {
    Unconstrained,
    /// Arithmetic: a numeric scalar or vector, or a class with arithmetic.
    Numeric,
    /// Usable as the element of a vector.
    AtomicElement,
    /// Both of the above: a single number.
    ScalarNumeric,
}

impl Constraint {
    /// Whether every type that satisfies `self` satisfies `other`.
    pub open spec fn implies(self, other: Constraint) -> bool {
        self == other || other == Constraint::Unconstrained || self == Constraint::ScalarNumeric
    }

    /// The weakest constraint that is at least as strong as both.
    pub open spec fn joined(self, other: Constraint) -> Constraint {
        if self.implies(other) {
            self
        } else if other.implies(self) {
            other
        } else {
            Constraint::ScalarNumeric
        }
    }

    /// Joins two constraints through the lattice.
    pub fn join(self, other: Constraint) -> (r: Constraint)
        ensures
            r == self.joined(other),
    {
        if self == other || other == Constraint::Unconstrained || self == Constraint::ScalarNumeric {
            self
        } else if self == Constraint::Unconstrained || other == Constraint::ScalarNumeric {
            other
        } else {
            Constraint::ScalarNumeric
        }
    }
}

/// The join is the least upper bound of the constraint order: it implies both
/// sides, and whatever implies both sides implies it.
pub proof fn constraint_join_is_least_upper_bound(a: Constraint, b: Constraint, c: Constraint)
    ensures
        a.joined(b).implies(a),
        a.joined(b).implies(b),
        c.implies(a) && c.implies(b) ==> c.implies(a.joined(b)),
{
}

/// Joining constraints is idempotent, commutative and associative, so the order
/// in which a body demands things of a variable does not matter.
pub proof fn constraint_join_is_a_semilattice(a: Constraint, b: Constraint, c: Constraint)
    ensures
        a.joined(a) == a,
        a.joined(b) == b.joined(a),
        a.joined(b).joined(c) == a.joined(b.joined(c)),
        a.joined(Constraint::Unconstrained) == a,
{
}

/// An inference variable: an index into the inference table.
#[derive(Debug, Clone, Copy, PartialEq, Eq, Hash, PartialOrd, Ord, Structural)]
pub struct InferenceVar(pub u32);

/// A declared name: a formal, a record field, a nominal or a binder.
#[derive(Debug, PartialEq, Eq, Hash)]
pub struct Name {
    pub text: String,
}

impl Name {
    pub open spec fn view(&self) -> Seq<char> {
        self.text@
    }

    pub fn new(text: String) -> (r: Name)
        ensures
            r@ == text@,
    {
        Name { text }
    }

    pub fn text(&self) -> (r: &str)
        ensures
            r@ == self@,
    {
        self.text.as_str()
    }

    pub fn same(&self, other: &Name) -> (r: bool)
        ensures
            r == (self@ == other@),
    {
        same_string(&self.text, &other.text)
    }
}

impl Clone for Name {
    fn clone(&self) -> (r: Self)
        ensures
            r == *self,
    {
        Name { text: self.text.clone() }
    }
}

/// A type: a shared handle on an immutable tree.
#[derive(Debug, PartialEq, Eq, Hash)]
pub struct Ty {
    pub repr: Rc<TyKind>,
}

/// What a type is.
#[derive(Debug, PartialEq, Eq, Hash)]
pub enum TyKind {
    /// The sanctioned escape hatch, compatible with everything.
    Any,
    /// An absent fact, compatible with everything.
    Unknown,
    Null,
    Scalar(Atomic),
    Vector(Ty),
    NamedVector(Ty),
    List(Ty),
    NamedList(Ty),
    Tuple(Vec<Ty>),
    Record(Vec<RecordField>),
    Function(FunctionType),
    Union(Vec<Ty>),
    /// An applied nominal or alias.
    Named(Name, Vec<Ty>),
    /// A declared binder, which refuses to bind.
    Rigid(Name),
    Var(InferenceVar),
}

/// A field of a record.
#[derive(Debug, PartialEq, Eq, Hash)]
pub struct RecordField {
    pub name: Name,
    pub ty: Ty,
    pub optional: bool,
}

/// A formal that can be filled by name.
#[derive(Debug, PartialEq, Eq, Hash)]
pub struct Parameter {
    pub name: Name,
    pub ty: Ty,
    pub optional: bool,
    /// The type of the value that fills the formal when a call leaves it out.
    pub default: Option<Ty>,
}

/// The `...` formal.
#[derive(Debug, PartialEq, Eq, Hash)]
pub struct RestParameter {
    pub element: Ty,
    /// How many named formals stand before it.
    pub preceding_named: usize,
}

/// A signature.
#[derive(Debug, PartialEq, Eq, Hash)]
pub struct FunctionType {
    pub positional: Vec<Ty>,
    pub named: Vec<Parameter>,
    pub variadic: Option<RestParameter>,
    pub ret: Ty,
}

/// The model of a type.
pub enum TyV {
    Any,
    Unknown,
    Null,
    Scalar(Atomic),
    Vector(Box<TyV>),
    NamedVector(Box<TyV>),
    List(Box<TyV>),
    NamedList(Box<TyV>),
    Tuple(Seq<TyV>),
    Record(Seq<FieldV>),
    Function(Box<FunctionV>),
    Union(Seq<TyV>),
    Named(Seq<char>, Seq<TyV>),
    Rigid(Seq<char>),
    Var(InferenceVar),
}

/// The model of a record field.
pub struct FieldV {
    pub name: Seq<char>,
    pub ty: TyV,
    pub optional: bool,
}

/// The model of a named formal.
pub struct ParameterV {
    pub name: Seq<char>,
    pub ty: TyV,
    pub optional: bool,
    pub default: Option<TyV>,
}

/// The model of a rest parameter.
pub struct RestV {
    pub element: TyV,
    pub preceding_named: usize,
}

/// The model of a function type.
pub struct FunctionV {
    pub positional: Seq<TyV>,
    pub named: Seq<ParameterV>,
    pub variadic: Option<RestV>,
    pub ret: TyV,
}

impl Ty {
    pub open spec fn view(&self) -> TyV
        decreases self,
    {
        self.repr.view()
    }
}

impl TyKind {
    pub open spec fn view(&self) -> TyV
        decreases self,
    {
        match self {
            TyKind::Any => TyV::Any,
            TyKind::Unknown => TyV::Unknown,
            TyKind::Null => TyV::Null,
            TyKind::Scalar(atomic) => TyV::Scalar(*atomic),
            TyKind::Vector(inner) => TyV::Vector(Box::new(inner.view())),
            TyKind::NamedVector(inner) => TyV::NamedVector(Box::new(inner.view())),
            TyKind::List(inner) => TyV::List(Box::new(inner.view())),
            TyKind::NamedList(inner) => TyV::NamedList(Box::new(inner.view())),
            TyKind::Tuple(items) => TyV::Tuple(tys(items@)),
            TyKind::Record(fields) => TyV::Record(fields_view(fields@)),
            TyKind::Function(function) => TyV::Function(Box::new(function.view())),
            TyKind::Union(members) => TyV::Union(tys(members@)),
            TyKind::Named(name, arguments) => TyV::Named(name@, tys(arguments@)),
            TyKind::Rigid(name) => TyV::Rigid(name@),
            TyKind::Var(var) => TyV::Var(*var),
        }
    }
}

impl RecordField {
    pub open spec fn view(&self) -> FieldV
        decreases self,
    {
        FieldV { name: self.name@, ty: self.ty.view(), optional: self.optional }
    }
}

impl Parameter {
    pub open spec fn view(&self) -> ParameterV
        decreases self,
    {
        ParameterV {
            name: self.name@,
            ty: self.ty.view(),
            optional: self.optional,
            default: opt_ty(self.default),
        }
    }
}

impl RestParameter {
    pub open spec fn view(&self) -> RestV
        decreases self,
    {
        RestV { element: self.element.view(), preceding_named: self.preceding_named }
    }
}

impl FunctionType {
    pub open spec fn view(&self) -> FunctionV
        decreases self,
    {
        FunctionV {
            positional: tys(self.positional@),
            named: params_view(self.named@),
            variadic: opt_rest(self.variadic),
            ret: self.ret.view(),
        }
    }
}

/// The models of a sequence of types.
pub open spec fn tys(types: Seq<Ty>) -> Seq<TyV>
    decreases types,
{
    Seq::new(
        types.len(),
        |i: int| if 0 <= i < types.len() { types[i].view() } else { TyV::Any },
    )
}

/// The models of a sequence of record fields.
pub open spec fn fields_view(fields: Seq<RecordField>) -> Seq<FieldV>
    decreases fields,
{
    Seq::new(
        fields.len(),
        |i: int| if 0 <= i < fields.len() { fields[i].view() } else { arbitrary() },
    )
}

/// The models of a sequence of formals.
pub open spec fn params_view(params: Seq<Parameter>) -> Seq<ParameterV>
    decreases params,
{
    Seq::new(
        params.len(),
        |i: int| if 0 <= i < params.len() { params[i].view() } else { arbitrary() },
    )
}

/// The model of an optional type.
pub open spec fn opt_ty(ty: Option<Ty>) -> Option<TyV>
    decreases ty,
{
    match ty {
        Some(ty) => Some(ty.view()),
        None => None,
    }
}

/// The model of an optional rest parameter.
pub open spec fn opt_rest(rest: Option<RestParameter>) -> Option<RestV>
    decreases rest,
{
    match rest {
        Some(rest) => Some(rest.view()),
        None => None,
    }
}

/// The models of a sequence of names.
pub open spec fn names(names: Seq<Name>) -> Seq<Seq<char>> {
    Seq::new(names.len(), |i: int| names[i]@)
}

/// The models of a sequence of strings.
pub open spec fn texts(strings: Seq<String>) -> Seq<Seq<char>> {
    Seq::new(strings.len(), |i: int| strings[i]@)
}

/// The model of an optional string.
pub open spec fn opt_text(string: Option<String>) -> Option<Seq<char>> {
    match string {
        Some(string) => Some(string@),
        None => None,
    }
}

pub broadcast proof fn names_push(all: Seq<Name>, name: Name)
    ensures
        #[trigger] names(all.push(name)) == names(all).push(name@),
{
    assert(names(all.push(name)) =~= names(all).push(name@));
}

pub broadcast proof fn texts_push(all: Seq<String>, string: String)
    ensures
        #[trigger] texts(all.push(string)) == texts(all).push(string@),
{
    assert(texts(all.push(string)) =~= texts(all).push(string@));
}

pub broadcast proof fn tys_len(types: Seq<Ty>)
    ensures
        (#[trigger] tys(types)).len() == types.len(),
{
}

pub broadcast proof fn tys_index(types: Seq<Ty>, i: int)
    requires
        0 <= i < types.len(),
    ensures
        #[trigger] tys(types)[i] == types[i]@,
{
}

pub broadcast proof fn fields_len(fields: Seq<RecordField>)
    ensures
        (#[trigger] fields_view(fields)).len() == fields.len(),
{
}

pub broadcast proof fn fields_index(fields: Seq<RecordField>, i: int)
    requires
        0 <= i < fields.len(),
    ensures
        #[trigger] fields_view(fields)[i] == fields[i]@,
{
}

pub broadcast proof fn params_len(params: Seq<Parameter>)
    ensures
        (#[trigger] params_view(params)).len() == params.len(),
{
}

pub broadcast proof fn params_index(params: Seq<Parameter>, i: int)
    requires
        0 <= i < params.len(),
    ensures
        #[trigger] params_view(params)[i] == params[i]@,
{
}

pub broadcast proof fn tys_push(types: Seq<Ty>, ty: Ty)
    ensures
        #[trigger] tys(types.push(ty)) == tys(types).push(ty@),
{
    assert(tys(types.push(ty)) =~= tys(types).push(ty@));
}

pub broadcast proof fn fields_push(fields: Seq<RecordField>, field: RecordField)
    ensures
        #[trigger] fields_view(fields.push(field)) == fields_view(fields).push(field@),
{
    assert(fields_view(fields.push(field)) =~= fields_view(fields).push(field@));
}

pub broadcast proof fn params_push(params: Seq<Parameter>, param: Parameter)
    ensures
        #[trigger] params_view(params.push(param)) == params_view(params).push(param@),
{
    assert(params_view(params.push(param)) =~= params_view(params).push(param@));
}

pub broadcast group group_type_views {
    tys_len,
    tys_index,
    tys_push,
    fields_len,
    fields_index,
    fields_push,
    params_len,
    params_index,
    params_push,
    names_push,
    texts_push,
}

impl Clone for Ty {
    fn clone(&self) -> (r: Self)
        ensures
            r == *self,
    {
        Ty { repr: self.repr.clone() }
    }
}

impl Ty {
    pub fn new(kind: TyKind) -> (r: Ty)
        ensures
            r@ == kind@,
    {
        Ty { repr: Rc::new(kind) }
    }

    pub fn kind(&self) -> (r: &TyKind)
        ensures
            *r == *self.repr,
            r@ == self@,
    {
        &*self.repr
    }
}

/// The types one formal mentions: its own, and its default's.
pub open spec fn own_types(param: ParameterV) -> Seq<TyV> {
    match param.default {
        Some(default) => seq![param.ty, default],
        None => seq![param.ty],
    }
}

/// The types a list of formals mentions, in order.
pub open spec fn param_types(params: Seq<ParameterV>) -> Seq<TyV>
    decreases params.len(),
{
    if params.len() == 0 {
        Seq::empty()
    } else {
        param_types(params.drop_last()) + own_types(params.last())
    }
}

/// A list of formals with the types it mentions replaced, in order, by those
/// that stand in `types` from position `from` on.
pub open spec fn with_param_types(
    params: Seq<ParameterV>,
    types: Seq<TyV>,
    from: int,
) -> Seq<ParameterV>
    decreases params.len(),
{
    if params.len() == 0 {
        Seq::empty()
    } else {
        let at = from + param_types(params.drop_last()).len();
        with_param_types(params.drop_last(), types, from).push(
            ParameterV {
                name: params.last().name,
                ty: types[at],
                optional: params.last().optional,
                default: if params.last().default is Some {
                    Some(types[at + 1])
                } else {
                    None
                },
            },
        )
    }
}

impl FunctionV {
    /// The types a signature mentions: positional formals, named formals with
    /// their defaults, the rest element, and the return type.
    pub open spec fn children(self) -> Seq<TyV> {
        self.positional + param_types(self.named) + (match self.variadic {
            Some(rest) => seq![rest.element],
            None => Seq::empty(),
        }) + seq![self.ret]
    }

    /// The signature with the types it mentions replaced, in order.
    pub open spec fn with_children(self, types: Seq<TyV>) -> FunctionV {
        let rest_at = self.positional.len() + param_types(self.named).len();
        FunctionV {
            positional: types.subrange(0, self.positional.len() as int),
            named: with_param_types(self.named, types, self.positional.len() as int),
            variadic: match self.variadic {
                Some(rest) => Some(
                    RestV { element: types[rest_at as int], preceding_named: rest.preceding_named },
                ),
                None => None,
            },
            ret: types.last(),
        }
    }
}

/// The members of a union, or the type itself.
pub open spec fn members_of(ty: TyV) -> Seq<TyV> {
    match ty {
        TyV::Union(members) => members,
        _ => seq![ty],
    }
}

/// Every member of every given type, in order.
pub open spec fn spliced(types: Seq<TyV>) -> Seq<TyV>
    decreases types.len(),
{
    if types.len() == 0 {
        Seq::empty()
    } else {
        spliced(types.drop_last()) + members_of(types.last())
    }
}

/// The given types without repetitions, first occurrences kept in order.
pub open spec fn distinct(types: Seq<TyV>) -> Seq<TyV>
    decreases types.len(),
{
    if types.len() == 0 {
        Seq::empty()
    } else {
        let before = distinct(types.drop_last());
        if before.contains(types.last()) {
            before
        } else {
            before.push(types.last())
        }
    }
}

impl TyV {
    /// The union of the given types: nested unions are spliced in, repetitions
    /// drop, an absent fact or the top type absorbs the rest, one member stands
    /// for itself, and no member at all is `NULL`.
    pub open spec fn union_of(types: Seq<TyV>) -> TyV {
        let members = distinct(spliced(types));
        if members.contains(TyV::Unknown) {
            TyV::Unknown
        } else if members.contains(TyV::Any) {
            TyV::Any
        } else if members.len() == 0 {
            TyV::Null
        } else if members.len() == 1 {
            members[0]
        } else {
            TyV::Union(members)
        }
    }

    /// The types a type is directly built from, in order.
    pub open spec fn children(self) -> Seq<TyV> {
        match self {
            TyV::Vector(inner) => seq![*inner],
            TyV::NamedVector(inner) => seq![*inner],
            TyV::List(inner) => seq![*inner],
            TyV::NamedList(inner) => seq![*inner],
            TyV::Tuple(items) => items,
            TyV::Record(fields) => Seq::new(fields.len(), |i: int| fields[i].ty),
            TyV::Function(function) => function.children(),
            TyV::Union(members) => members,
            TyV::Named(_, arguments) => arguments,
            _ => Seq::empty(),
        }
    }

    /// The type rebuilt from other types in the places of its children; a union
    /// is formed anew, so it may collapse.
    pub open spec fn with_children(self, types: Seq<TyV>) -> TyV {
        match self {
            TyV::Vector(_) => TyV::Vector(Box::new(types[0])),
            TyV::NamedVector(_) => TyV::NamedVector(Box::new(types[0])),
            TyV::List(_) => TyV::List(Box::new(types[0])),
            TyV::NamedList(_) => TyV::NamedList(Box::new(types[0])),
            TyV::Tuple(_) => TyV::Tuple(types),
            TyV::Record(fields) => TyV::Record(
                Seq::new(
                    fields.len(),
                    |i: int|
                        FieldV { name: fields[i].name, ty: types[i], optional: fields[i].optional },
                ),
            ),
            TyV::Function(function) => TyV::Function(Box::new(function.with_children(types))),
            TyV::Union(_) => TyV::union_of(types),
            TyV::Named(name, _) => TyV::Named(name, types),
            _ => self,
        }
    }
}

pub proof fn param_type_decreases(params: Seq<ParameterV>, i: int)
    requires
        0 <= i < param_types(params).len(),
    ensures
        decreases_to!(params => param_types(params)[i]),
    decreases params.len(),
{
    let before = params.drop_last();
    let n = param_types(before).len();
    assert(decreases_to!(params => params[params.len() - 1]));
    if i < n {
        param_type_decreases(before, i);
        assert(decreases_to!(params => params.subrange(0, params.len() - 1)));
        assert(param_types(params)[i] == param_types(before)[i]);
        assert(decreases_to!(params => before));
    } else {
        let last = params.last();
        assert(decreases_to!(last => last.ty));
        if i == n {
            assert(param_types(params)[i] == last.ty);
        } else {
            assert(decreases_to!(last => last.default));
            assert(decreases_to!(last.default => last.default->0));
            assert(param_types(params)[i] == last.default->0);
        }
    }
}

/// A type is built from smaller types.
pub proof fn child_decreases(ty: TyV, i: int)
    requires
        0 <= i < ty.children().len(),
    ensures
        decreases_to!(ty => ty.children()[i]),
{
    match ty {
        TyV::Record(fields) => {
            assert(decreases_to!(ty => fields));
            assert(decreases_to!(fields => fields[i]));
            assert(decreases_to!(fields[i] => fields[i].ty));
            assert(ty.children()[i] == fields[i].ty);
        },
        TyV::Function(function) => {
            assert(decreases_to!(ty => function));
            let f = *function;
            assert(decreases_to!(f => f.positional));
            assert(decreases_to!(f => f.named));
            assert(decreases_to!(f => f.ret));
            let p = f.positional.len();
            let n = param_types(f.named).len();
            if i < p {
                assert(ty.children()[i] == f.positional[i]);
                assert(decreases_to!(f.positional => f.positional[i]));
            } else if i < p + n {
                assert(ty.children()[i] == param_types(f.named)[i - p]);
                param_type_decreases(f.named, i - p);
            } else if i < ty.children().len() - 1 {
                assert(decreases_to!(f => f.variadic));
                assert(decreases_to!(f.variadic => f.variadic->0));
                assert(decreases_to!(f.variadic->0 => f.variadic->0.element));
                assert(ty.children()[i] == f.variadic->0.element);
            } else {
                assert(ty.children()[i] == f.ret);
            }
        },
        TyV::Tuple(items) => {
            assert(decreases_to!(ty => items));
            assert(decreases_to!(items => items[i]));
        },
        TyV::Union(items) => {
            assert(decreases_to!(ty => items));
            assert(decreases_to!(items => items[i]));
        },
        TyV::Named(name, items) => {
            assert(decreases_to!(ty => items));
            assert(decreases_to!(items => items[i]));
        },
        TyV::Vector(inner) => {
            assert(decreases_to!(ty => *inner));
        },
        TyV::NamedVector(inner) => {
            assert(decreases_to!(ty => *inner));
        },
        TyV::List(inner) => {
            assert(decreases_to!(ty => *inner));
        },
        TyV::NamedList(inner) => {
            assert(decreases_to!(ty => *inner));
        },
        _ => {},
    }
}

/// What a list of replacements puts in a binder's place: the last one given for
/// its name.
pub open spec fn replacement(substitution: Seq<(Seq<char>, TyV)>, name: Seq<char>) -> Option<TyV>
    decreases substitution.len(),
{
    if substitution.len() == 0 {
        None
    } else if substitution.last().0 == name {
        Some(substitution.last().1)
    } else {
        replacement(substitution.drop_last(), name)
    }
}

impl TyV {
    /// The type with every binder that has a replacement replaced.
    pub open spec fn substitute(self, substitution: Seq<(Seq<char>, TyV)>) -> TyV
        decreases self, 1int,
    {
        match self {
            TyV::Rigid(name) => match replacement(substitution, name) {
                Some(ty) => ty,
                None => self,
            },
            _ => self.with_children(self.substitute_children(substitution)),
        }
    }

    pub open spec fn substitute_children(self, substitution: Seq<(Seq<char>, TyV)>) -> Seq<TyV>
        decreases self, 0int,
    {
        proof {
            assert forall|i: int| 0 <= i < self.children().len() implies decreases_to!(
                self => self.children()[i]
            ) by {
                child_decreases(self, i);
            }
        }
        Seq::new(
            self.children().len(),
            |i: int|
                if 0 <= i < self.children().len() {
                    self.children()[i].substitute(substitution)
                } else {
                    TyV::Any
                },
        )
    }

    /// The type with every inference variable replaced by `Unknown`.
    pub open spec fn erased(self) -> TyV
        decreases self, 1int,
    {
        match self {
            TyV::Var(_) => TyV::Unknown,
            _ => self.with_children(self.erased_children()),
        }
    }

    pub open spec fn erased_children(self) -> Seq<TyV>
        decreases self, 0int,
    {
        proof {
            assert forall|i: int| 0 <= i < self.children().len() implies decreases_to!(
                self => self.children()[i]
            ) by {
                child_decreases(self, i);
            }
        }
        Seq::new(
            self.children().len(),
            |i: int|
                if 0 <= i < self.children().len() {
                    self.children()[i].erased()
                } else {
                    TyV::Any
                },
        )
    }

    /// Whether an inference variable stands anywhere in the type.
    pub open spec fn has_var(self) -> bool
        decreases self,
    {
        match self {
            TyV::Var(_) => true,
            _ => {
                proof {
                    assert forall|i: int| 0 <= i < self.children().len() implies decreases_to!(
                        self => self.children()[i]
                    ) by {
                        child_decreases(self, i);
                    }
                }
                exists|i: int| 0 <= i < self.children().len() && (#[trigger] self.children()[i]).has_var()
            },
        }
    }

    /// How many nodes the type has.
    pub open spec fn size(self) -> nat
        decreases self, 1int, 0int,
    {
        1 + self.size_of_children(0)
    }

    pub open spec fn size_of_children(self, from: int) -> nat
        decreases self, 0int, self.children().len() - from,
    {
        if 0 <= from < self.children().len() {
            proof {
                child_decreases(self, from);
            }
            self.children()[from].size() + self.size_of_children(from + 1)
        } else {
            0
        }
    }
}

} // verus!
