//! Operations on types: copies, equality, traversal, unions and substitution.

use vstd::prelude::*;

use crate::types;
use crate::types::{
    Atomic, FunctionType, Name, Parameter, RecordField, RestParameter, Ty, TyKind,
    TyV,
};

verus! {

broadcast use crate::types::group_type_views;

/// A copy of a list of types.
pub fn clone_types(types: &Vec<Ty>) -> (r: Vec<Ty>)
    ensures
        r@ == types@,
{
    let mut out: Vec<Ty> = Vec::new();
    let mut i: usize = 0;
    while i < types.len()
        invariant
            i <= types.len(),
            out@ =~= types@.subrange(0, i as int),
        decreases types.len() - i,
    {
        out.push(types[i].clone());
        i += 1;
    }
    out
}

impl Clone for RecordField {
    fn clone(&self) -> (r: Self)
        ensures
            r == *self,
    {
        RecordField { name: self.name.clone(), ty: self.ty.clone(), optional: self.optional }
    }
}

/// A copy of an optional type.
pub fn clone_opt_ty(ty: &Option<Ty>) -> (r: Option<Ty>)
    ensures
        r == *ty,
{
    match ty {
        Some(ty) => Some(ty.clone()),
        None => None,
    }
}

impl Clone for Parameter {
    fn clone(&self) -> (r: Self)
        ensures
            r == *self,
    {
        Parameter {
            name: self.name.clone(),
            ty: self.ty.clone(),
            optional: self.optional,
            default: clone_opt_ty(&self.default),
        }
    }
}

impl Clone for RestParameter {
    fn clone(&self) -> (r: Self)
        ensures
            r == *self,
    {
        RestParameter { element: self.element.clone(), preceding_named: self.preceding_named }
    }
}

/// A copy of a list of formals.
pub fn clone_params(params: &Vec<Parameter>) -> (r: Vec<Parameter>)
    ensures
        r@ == params@,
{
    let mut out: Vec<Parameter> = Vec::new();
    let mut i: usize = 0;
    while i < params.len()
        invariant
            i <= params.len(),
            out@ =~= params@.subrange(0, i as int),
        decreases params.len() - i,
    {
        out.push(params[i].clone());
        i += 1;
    }
    out
}

/// A copy of a list of record fields.
pub fn clone_fields(fields: &Vec<RecordField>) -> (r: Vec<RecordField>)
    ensures
        r@ == fields@,
{
    let mut out: Vec<RecordField> = Vec::new();
    let mut i: usize = 0;
    while i < fields.len()
        invariant
            i <= fields.len(),
            out@ =~= fields@.subrange(0, i as int),
        decreases fields.len() - i,
    {
        out.push(fields[i].clone());
        i += 1;
    }
    out
}

impl Clone for FunctionType {
    fn clone(&self) -> (r: Self)
        ensures
            r@ == self@,
    {
        FunctionType {
            positional: clone_types(&self.positional),
            named: clone_params(&self.named),
            variadic: match &self.variadic {
                Some(rest) => Some(rest.clone()),
                None => None,
            },
            ret: self.ret.clone(),
        }
    }
}

impl Ty {
    /// Whether two handles stand for the same type.
    pub fn same(&self, other: &Ty) -> (r: bool)
        ensures
            r == (self@ == other@),
        decreases self,
    {
        match (self.kind(), other.kind()) {
            (TyKind::Any, TyKind::Any) => true,
            (TyKind::Unknown, TyKind::Unknown) => true,
            (TyKind::Null, TyKind::Null) => true,
            (TyKind::Scalar(a), TyKind::Scalar(b)) => *a == *b,
            (TyKind::Vector(a), TyKind::Vector(b)) => a.same(b),
            (TyKind::NamedVector(a), TyKind::NamedVector(b)) => a.same(b),
            (TyKind::List(a), TyKind::List(b)) => a.same(b),
            (TyKind::NamedList(a), TyKind::NamedList(b)) => a.same(b),
            (TyKind::Tuple(a), TyKind::Tuple(b)) => same_types(a, b),
            (TyKind::Record(a), TyKind::Record(b)) => same_fields(a, b),
            (TyKind::Function(a), TyKind::Function(b)) => a.same(b),
            (TyKind::Union(a), TyKind::Union(b)) => same_types(a, b),
            (TyKind::Named(a, xs), TyKind::Named(b, ys)) => a.same(b) && same_types(xs, ys),
            (TyKind::Rigid(a), TyKind::Rigid(b)) => a.same(b),
            (TyKind::Var(a), TyKind::Var(b)) => *a == *b,
            _ => false,
        }
    }
}

/// Whether two lists hold the same types in the same order.
pub fn same_types(a: &Vec<Ty>, b: &Vec<Ty>) -> (r: bool)
    ensures
        r == (types::tys(a@) == types::tys(b@)),
    decreases a,
{
    if a.len() != b.len() {
        assert(types::tys(a@).len() != types::tys(b@).len());
        return false;
    }
    let mut i: usize = 0;
    while i < a.len()
        invariant
            i <= a.len(),
            a.len() == b.len(),
            forall|j: int| 0 <= j < i ==> types::tys(a@)[j] == types::tys(b@)[j],
        decreases a.len() - i,
    {
        if !a[i].same(&b[i]) {
            assert(types::tys(a@)[i as int] != types::tys(b@)[i as int]);
            return false;
        }
        i += 1;
    }
    assert(types::tys(a@) =~= types::tys(b@));
    true
}

impl RecordField {
    pub fn same(&self, other: &RecordField) -> (r: bool)
        ensures
            r == (self@ == other@),
        decreases self,
    {
        self.name.same(&other.name) && self.optional == other.optional && self.ty.same(&other.ty)
    }
}

/// Whether two lists hold the same fields in the same order.
pub fn same_fields(a: &Vec<RecordField>, b: &Vec<RecordField>) -> (r: bool)
    ensures
        r == (types::fields_view(a@) == types::fields_view(b@)),
    decreases a,
{
    if a.len() != b.len() {
        assert(types::fields_view(a@).len() != types::fields_view(b@).len());
        return false;
    }
    let mut i: usize = 0;
    while i < a.len()
        invariant
            i <= a.len(),
            a.len() == b.len(),
            forall|j: int| 0 <= j < i ==> types::fields_view(a@)[j] == types::fields_view(b@)[j],
        decreases a.len() - i,
    {
        if !a[i].same(&b[i]) {
            assert(types::fields_view(a@)[i as int] != types::fields_view(b@)[i as int]);
            return false;
        }
        i += 1;
    }
    assert(types::fields_view(a@) =~= types::fields_view(b@));
    true
}

impl Parameter {
    pub fn same(&self, other: &Parameter) -> (r: bool)
        ensures
            r == (self@ == other@),
        decreases self,
    {
        let defaults_agree = match (&self.default, &other.default) {
            (Some(a), Some(b)) => a.same(b),
            (None, None) => true,
            _ => false,
        };
        defaults_agree && self.name.same(&other.name) && self.optional == other.optional
            && self.ty.same(&other.ty)
    }
}

/// Whether two lists hold the same formals in the same order.
pub fn same_params(a: &Vec<Parameter>, b: &Vec<Parameter>) -> (r: bool)
    ensures
        r == (types::params_view(a@) == types::params_view(b@)),
    decreases a,
{
    if a.len() != b.len() {
        assert(types::params_view(a@).len() != types::params_view(b@).len());
        return false;
    }
    let mut i: usize = 0;
    while i < a.len()
        invariant
            i <= a.len(),
            a.len() == b.len(),
            forall|j: int| 0 <= j < i ==> types::params_view(a@)[j] == types::params_view(b@)[j],
        decreases a.len() - i,
    {
        if !a[i].same(&b[i]) {
            assert(types::params_view(a@)[i as int] != types::params_view(b@)[i as int]);
            return false;
        }
        i += 1;
    }
    assert(types::params_view(a@) =~= types::params_view(b@));
    true
}

impl FunctionType {
    pub fn same(&self, other: &FunctionType) -> (r: bool)
        ensures
            r == (self@ == other@),
        decreases self,
    {
        let rests_agree = match (&self.variadic, &other.variadic) {
            (Some(a), Some(b)) => a.preceding_named == b.preceding_named && a.element.same(
                &b.element,
            ),
            (None, None) => true,
            _ => false,
        };
        rests_agree && same_types(&self.positional, &other.positional) && same_params(
            &self.named,
            &other.named,
        ) && self.ret.same(&other.ret)
    }
}

pub fn any() -> (r: Ty)
    ensures
        r@ == TyV::Any,
{
    Ty::new(TyKind::Any)
}

pub fn unknown() -> (r: Ty)
    ensures
        r@ == TyV::Unknown,
{
    Ty::new(TyKind::Unknown)
}

pub fn null() -> (r: Ty)
    ensures
        r@ == TyV::Null,
{
    Ty::new(TyKind::Null)
}

pub fn scalar(atomic: Atomic) -> (r: Ty)
    ensures
        r@ == TyV::Scalar(atomic),
{
    Ty::new(TyKind::Scalar(atomic))
}

/// The types a signature mentions, in order.
fn function_child_types(function: &FunctionType) -> (r: Vec<Ty>)
    ensures
        types::tys(r@) == function@.children(),
{
    let mut out: Vec<Ty> = clone_types(&function.positional);
    let mut i: usize = 0;
    while i < function.named.len()
        invariant
            i <= function.named.len(),
            types::tys(out@) == function@.positional + types::param_types(
                function@.named.subrange(0, i as int),
            ),
        decreases function.named.len() - i,
    {
        let param = &function.named[i];
        let ghost before = types::tys(out@);
        out.push(param.ty.clone());
        if let Some(default) = &param.default {
            out.push(default.clone());
        }
        proof {
            let up_to = function@.named.subrange(0, i + 1);
            assert(up_to.drop_last() =~= function@.named.subrange(0, i as int));
            assert(up_to.last() == param@);
            assert(types::tys(out@) =~= before + types::own_types(param@));
            assert(types::tys(out@) =~= function@.positional + types::param_types(up_to));
        }
        i += 1;
    }
    assert(function@.named.subrange(0, function@.named.len() as int) =~= function@.named);
    let ghost before = types::tys(out@);
    if let Some(rest) = &function.variadic {
        out.push(rest.element.clone());
    }
    out.push(function.ret.clone());
    assert(types::tys(out@) =~= function@.children());
    out
}

/// The types a type is directly built from, in order.
pub fn child_types(ty: &Ty) -> (r: Vec<Ty>)
    ensures
        types::tys(r@) == ty@.children(),
{
    match ty.kind() {
        TyKind::Vector(inner) | TyKind::NamedVector(inner) | TyKind::List(inner) | TyKind::NamedList(
            inner,
        ) => {
            let mut out: Vec<Ty> = Vec::new();
            out.push(inner.clone());
            assert(types::tys(out@) =~= ty@.children());
            out
        },
        TyKind::Tuple(items) => clone_types(items),
        TyKind::Union(members) => clone_types(members),
        TyKind::Named(_, arguments) => clone_types(arguments),
        TyKind::Record(fields) => {
            let mut out: Vec<Ty> = Vec::new();
            let mut i: usize = 0;
            while i < fields.len()
                invariant
                    i <= fields.len(),
                    out@.len() == i,
                    forall|j: int| 0 <= j < i ==> out@[j]@ == types::fields_view(fields@)[j].ty,
                decreases fields.len() - i,
            {
                out.push(fields[i].ty.clone());
                i += 1;
            }
            assert(types::tys(out@) =~= ty@.children());
            out
        },
        TyKind::Function(function) => function_child_types(function),
        _ => {
            let out: Vec<Ty> = Vec::new();
            assert(types::tys(out@) =~= ty@.children());
            out
        },
    }
}

/// The number of types a list of formals mentions grows with the list.
proof fn param_types_monotone(params: Seq<types::ParameterV>, i: int, j: int)
    requires
        0 <= i <= j <= params.len(),
    ensures
        types::param_types(params.subrange(0, i)).len() <= types::param_types(
            params.subrange(0, j),
        ).len(),
    decreases j - i,
{
    if i < j {
        param_types_monotone(params, i, j - 1);
        assert(params.subrange(0, j).drop_last() =~= params.subrange(0, j - 1));
    }
}

/// A signature rebuilt from other types in the places of those it mentions.
fn function_with_child_types(function: &FunctionType, kids: &Vec<Ty>) -> (r: FunctionType)
    requires
        kids@.len() == function@.children().len(),
    ensures
        r@ == function@.with_children(types::tys(kids@)),
{
    let ghost all = types::tys(kids@);
    let mut positional: Vec<Ty> = Vec::new();
    let mut at: usize = 0;
    while at < function.positional.len()
        invariant
            at <= function.positional.len(),
            kids@.len() == function@.children().len(),
            function@.positional.len() == function.positional@.len(),
            positional@ =~= kids@.subrange(0, at as int),
        decreases function.positional.len() - at,
    {
        positional.push(kids[at].clone());
        at += 1;
    }
    assert(types::tys(positional@) =~= all.subrange(0, function@.positional.len() as int));
    let mut named: Vec<Parameter> = Vec::new();
    let mut i: usize = 0;
    while i < function.named.len()
        invariant
            i <= function.named.len(),
            all == types::tys(kids@),
            kids@.len() == function@.children().len(),
            function@.positional.len() == function.positional@.len(),
            at == function@.positional.len() + types::param_types(
                function@.named.subrange(0, i as int),
            ).len(),
            types::params_view(named@) == types::with_param_types(
                function@.named.subrange(0, i as int),
                all,
                function@.positional.len() as int,
            ),
        decreases function.named.len() - i,
    {
        let param = &function.named[i];
        proof {
            let up_to = function@.named.subrange(0, i + 1);
            assert(up_to.drop_last() =~= function@.named.subrange(0, i as int));
            assert(up_to.last() == param@);
            param_types_monotone(function@.named, i + 1, function@.named.len() as int);
            assert(function@.named.subrange(0, function@.named.len() as int) =~= function@.named);
        }
        assert(at < kids.len());
        let ty = kids[at].clone();
        at += 1;
        let default = match &param.default {
            Some(_) => {
                assert(at < kids.len());
                let default = kids[at].clone();
                at += 1;
                Some(default)
            },
            None => None,
        };
        named.push(Parameter { name: param.name.clone(), ty, optional: param.optional, default });
        i += 1;
    }
    assert(function@.named.subrange(0, function@.named.len() as int) =~= function@.named);
    let variadic = match &function.variadic {
        Some(rest) => {
            let element = kids[at].clone();
            Some(RestParameter { element, preceding_named: rest.preceding_named })
        },
        None => None,
    };
    let ret = kids[kids.len() - 1].clone();
    let r = FunctionType { positional, named, variadic, ret };
    r
}

/// A type rebuilt from other types in the places of its children.
pub fn with_child_types(ty: &Ty, kids: Vec<Ty>) -> (r: Ty)
    requires
        kids@.len() == ty@.children().len(),
    ensures
        r@ == ty@.with_children(types::tys(kids@)),
{
    match ty.kind() {
        TyKind::Vector(_) => Ty::new(TyKind::Vector(kids[0].clone())),
        TyKind::NamedVector(_) => Ty::new(TyKind::NamedVector(kids[0].clone())),
        TyKind::List(_) => Ty::new(TyKind::List(kids[0].clone())),
        TyKind::NamedList(_) => Ty::new(TyKind::NamedList(kids[0].clone())),
        TyKind::Tuple(_) => Ty::new(TyKind::Tuple(kids)),
        TyKind::Union(_) => union_of(&kids),
        TyKind::Named(name, _) => Ty::new(TyKind::Named(name.clone(), kids)),
        TyKind::Record(fields) => {
            let mut out: Vec<RecordField> = Vec::new();
            let mut i: usize = 0;
            while i < fields.len()
                invariant
                    i <= fields.len(),
                    kids@.len() == fields@.len(),
                    out@.len() == i,
                    forall|j: int|
                        0 <= j < i ==> (#[trigger] out@[j])@ == (types::FieldV {
                            name: types::fields_view(fields@)[j].name,
                            ty: types::tys(kids@)[j],
                            optional: types::fields_view(fields@)[j].optional,
                        }),
                decreases fields.len() - i,
            {
                let field = &fields[i];
                out.push(
                    RecordField {
                        name: field.name.clone(),
                        ty: kids[i].clone(),
                        optional: field.optional,
                    },
                );
                i += 1;
            }
            let r = Ty::new(TyKind::Record(out));
            assert(r@->Record_0 =~= ty@.with_children(types::tys(kids@))->Record_0);
            r
        },
        TyKind::Function(function) => Ty::new(
            TyKind::Function(function_with_child_types(function, &kids)),
        ),
        _ => ty.clone(),
    }
}

/// Whether a list holds a type.
pub fn contains_type(types: &Vec<Ty>, ty: &Ty) -> (r: bool)
    ensures
        r == types::tys(types@).contains(ty@),
{
    let mut i: usize = 0;
    while i < types.len()
        invariant
            i <= types.len(),
            forall|j: int| 0 <= j < i ==> types::tys(types@)[j] != ty@,
        decreases types.len() - i,
    {
        if types[i].same(ty) {
            assert(types::tys(types@)[i as int] == ty@);
            return true;
        }
        i += 1;
    }
    false
}

proof fn distinct_step(before: Seq<TyV>, ty: TyV)
    ensures
        types::distinct(before.push(ty)) == if types::distinct(before).contains(ty) {
            types::distinct(before)
        } else {
            types::distinct(before).push(ty)
        },
{
    assert(before.push(ty).drop_last() =~= before);
}

/// The union of the given types.
pub fn union_of(types: &Vec<Ty>) -> (r: Ty)
    ensures
        r@ == TyV::union_of(types::tys(types@)),
{
    let mut members: Vec<Ty> = Vec::new();
    let mut i: usize = 0;
    proof {
        assert(types::tys(members@) =~= types::distinct(
            types::spliced(types::tys(types@).subrange(0, 0)),
        ));
    }
    while i < types.len()
        invariant
            i <= types.len(),
            types::tys(members@) == types::distinct(
                types::spliced(types::tys(types@).subrange(0, i as int)),
            ),
        decreases types.len() - i,
    {
        let ghost done = types::spliced(types::tys(types@).subrange(0, i as int));
        let ghost up_to = types::tys(types@).subrange(0, i + 1);
        proof {
            assert(up_to.drop_last() =~= types::tys(types@).subrange(0, i as int));
            assert(up_to.last() == types[i as int]@);
        }
        match types[i].kind() {
            TyKind::Union(inner) => {
                let mut j: usize = 0;
                assert(done + types::tys(inner@).subrange(0, 0) =~= done);
                while j < inner.len()
                    invariant
                        j <= inner.len(),
                        types::tys(members@) == types::distinct(
                            done + types::tys(inner@).subrange(0, j as int),
                        ),
                    decreases inner.len() - j,
                {
                    proof {
                        assert(done + types::tys(inner@).subrange(0, j + 1) =~= (done + types::tys(
                            inner@,
                        ).subrange(0, j as int)).push(inner[j as int]@));
                        distinct_step(
                            done + types::tys(inner@).subrange(0, j as int),
                            inner[j as int]@,
                        );
                    }
                    if !contains_type(&members, &inner[j]) {
                        members.push(inner[j].clone());
                    }
                    j += 1;
                }
                assert(types::tys(inner@).subrange(0, inner@.len() as int) =~= types::tys(inner@));
            },
            _ => {
                proof {
                    assert(types::spliced(up_to) =~= done.push(types[i as int]@));
                    distinct_step(done, types[i as int]@);
                }
                if !contains_type(&members, &types[i]) {
                    members.push(types[i].clone());
                }
            },
        }
        i += 1;
    }
    assert(types::tys(types@).subrange(0, types@.len() as int) =~= types::tys(types@));
    if contains_type(&members, &unknown()) {
        unknown()
    } else if contains_type(&members, &any()) {
        any()
    } else if members.len() == 0 {
        null()
    } else if members.len() == 1 {
        members[0].clone()
    } else {
        Ty::new(TyKind::Union(members))
    }
}

/// The union of two types.
pub fn union_of_two(a: &Ty, b: &Ty) -> (r: Ty)
    ensures
        r@ == TyV::union_of(seq![a@, b@]),
{
    let mut both: Vec<Ty> = Vec::new();
    both.push(a.clone());
    both.push(b.clone());
    assert(types::tys(both@) =~= seq![a@, b@]);
    union_of(&both)
}

/// The model of a list of replacements.
pub open spec fn replacements(substitution: Seq<(Name, Ty)>) -> Seq<(Seq<char>, TyV)> {
    Seq::new(substitution.len(), |i: int| (substitution[i].0@, substitution[i].1@))
}

/// What a list of replacements puts in a binder's place, if anything.
fn replacement(substitution: &Vec<(Name, Ty)>, name: &Name) -> (r: Option<Ty>)
    ensures
        types::opt_ty(r) == types::replacement(replacements(substitution@), name@),
{
    let ghost all = replacements(substitution@);
    let mut i: usize = substitution.len();
    assert(all.subrange(0, all.len() as int) =~= all);
    while i > 0
        invariant
            i <= substitution.len(),
            all == replacements(substitution@),
            types::replacement(all, name@) == types::replacement(
                all.subrange(0, i as int),
                name@,
            ),
        decreases i,
    {
        assert(all.subrange(0, i as int).drop_last() =~= all.subrange(0, i - 1));
        if substitution[i - 1].0.same(name) {
            return Some(substitution[i - 1].1.clone());
        }
        i -= 1;
    }
    None
}

/// The type with every binder that has a replacement replaced.
pub fn substitute_rigid(ty: &Ty, substitution: &Vec<(Name, Ty)>) -> (r: Ty)
    ensures
        r@ == ty@.substitute(replacements(substitution@)),
    decreases ty@,
{
    match ty.kind() {
        TyKind::Rigid(name) => match replacement(substitution, name) {
            Some(replaced) => replaced,
            None => ty.clone(),
        },
        _ => {
            let kids = child_types(ty);
            let mut out: Vec<Ty> = Vec::new();
            let mut i: usize = 0;
            while i < kids.len()
                invariant
                    i <= kids.len(),
                    types::tys(kids@) == ty@.children(),
                    out@.len() == i,
                    forall|j: int|
                        0 <= j < i ==> (#[trigger] out@[j])@ == ty@.children()[j].substitute(
                            replacements(substitution@),
                        ),
                decreases kids.len() - i,
            {
                proof {
                    types::child_decreases(ty@, i as int);
                    assert(types::tys(kids@)[i as int] == kids[i as int]@);
                }
                out.push(substitute_rigid(&kids[i], substitution));
                i += 1;
            }
            proof {
                assert(types::tys(kids@).len() == kids@.len());
                assert(types::tys(out@) =~= ty@.substitute_children(replacements(substitution@)));
            }
            with_child_types(ty, out)
        },
    }
}

/// The type with every inference variable replaced by `Unknown`.
pub fn erase_vars(ty: &Ty) -> (r: Ty)
    ensures
        r@ == ty@.erased(),
    decreases ty@,
{
    match ty.kind() {
        TyKind::Var(_) => unknown(),
        _ => {
            let kids = child_types(ty);
            let mut out: Vec<Ty> = Vec::new();
            let mut i: usize = 0;
            while i < kids.len()
                invariant
                    i <= kids.len(),
                    types::tys(kids@) == ty@.children(),
                    out@.len() == i,
                    forall|j: int|
                        0 <= j < i ==> (#[trigger] out@[j])@ == ty@.children()[j].erased(),
                decreases kids.len() - i,
            {
                proof {
                    types::child_decreases(ty@, i as int);
                    assert(types::tys(kids@)[i as int] == kids[i as int]@);
                }
                out.push(erase_vars(&kids[i]));
                i += 1;
            }
            proof {
                assert(types::tys(kids@).len() == kids@.len());
                assert(types::tys(out@) =~= ty@.erased_children());
            }
            with_child_types(ty, out)
        },
    }
}

/// Whether the type has at least `limit` nodes.
pub fn has_size(ty: &Ty, limit: usize) -> (r: bool)
    ensures
        r == (ty@.size() >= limit),
{
    size_left(ty, limit) == 0
}

/// What is left of `limit` once every node of the type has been taken off it.
fn size_left(ty: &Ty, limit: usize) -> (r: usize)
    ensures
        r == if ty@.size() >= limit { 0 } else { limit - ty@.size() },
    decreases ty@,
{
    if limit == 0 {
        return 0;
    }
    let kids = child_types(ty);
    let mut left: usize = limit - 1;
    let mut i: usize = 0;
    while i < kids.len()
        invariant
            i <= kids.len(),
            types::tys(kids@) == ty@.children(),
            ({
                let rest = ty@.size_of_children(i as int);
                let all = ty@.size_of_children(0);
                (if rest >= left { 0int } else { left - rest }) == (if all >= limit - 1 {
                    0int
                } else {
                    limit - 1 - all
                })
            }),
        decreases kids.len() - i,
    {
        proof {
            types::child_decreases(ty@, i as int);
            assert(types::tys(kids@)[i as int] == kids[i as int]@);
            assert(types::tys(kids@).len() == kids@.len());
        }
        left = size_left(&kids[i], left);
        i += 1;
    }
    assert(types::tys(kids@).len() == kids@.len());
    left
}

} // verus!
