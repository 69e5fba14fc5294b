//! What `c(...)` builds from its arguments.

use vstd::prelude::*;

use crate::arithmetic;
use crate::arithmetic::method_text;
use crate::checker::Checker;
use crate::checking::{CheckV, ItemV};
use crate::closing::is_null;
use crate::findings::{TypeErrorKind, TypeErrorKindV};
use crate::globals::GlobalEnv;
use crate::hir::{ExprId, Module};
use crate::operands;
use crate::operands::{
    combine_operand_atomic, guard_members, list_element_type, promote_combine_atomic,
};
use crate::syntax::TextRange;
use crate::type_ops::{null, scalar, union_of, unknown};
use crate::types;
use crate::types::{Atomic, Ty, TyKind, TyV};

verus! {

broadcast use crate::types::group_type_views;

/// Whether a list of types has a list among them.
pub open spec fn any_list(types: Seq<TyV>) -> bool {
    exists|i: int| 0 <= i < types.len() && operands::list_element(#[trigger] types[i]) is Some
}

/// The elements a list of types contributes to a list.
pub open spec fn listed_elements(types: Seq<TyV>) -> Seq<TyV> {
    Seq::new(
        types.len(),
        |i: int|
            match operands::list_element(types[i]) {
                Some(element) => element,
                None => types[i],
            },
    )
}

/// The one nominal that all types from one on are, `NULL` left out.
pub open spec fn uniform_nominal(types: Seq<TyV>, from: int, seen: Option<TyV>) -> Option<TyV>
    decreases types.len() - from,
{
    if 0 <= from < types.len() {
        match types[from] {
            TyV::Null => uniform_nominal(types, from + 1, seen),
            TyV::Named(_, _) => match seen {
                Some(nominal) => if nominal == types[from] {
                    uniform_nominal(types, from + 1, seen)
                } else {
                    None
                },
                None => uniform_nominal(types, from + 1, Some(types[from])),
            },
            _ => None,
        }
    } else {
        seen
    }
}

impl ItemV {
    /// Whether a method is declared.
    pub open spec fn declares_method(self, method: Seq<char>) -> bool {
        self.scheme(method, false) is Some || match self.candidates(method, false) {
            Some(candidates) => candidates.len() > 0,
            None => false,
        }
    }

    /// The class that `c(...)` keeps: all arguments are one nominal whose class
    /// declares the method.
    pub open spec fn combined_class(self, types: Seq<TyV>) -> Option<TyV> {
        match uniform_nominal(types, 0, None) {
            Some(nominal) => match nominal {
                TyV::Named(name, _) => if self.declares_method(
                    arithmetic::method_name("c"@, name),
                ) {
                    Some(nominal)
                } else {
                    None
                },
                _ => None,
            },
            None => None,
        }
    }
}

/// What `c(...)` has gathered of its arguments.
pub struct CombineV {
    pub atomic: Option<Atomic>,
    pub all_named: bool,
    pub saw_value: bool,
    pub indeterminate: bool,
}

impl CombineV {
    pub open spec fn start() -> CombineV {
        CombineV { atomic: None, all_named: true, saw_value: false, indeterminate: false }
    }

    pub open spec fn undetermined(self) -> CombineV {
        CombineV { indeterminate: true, ..self }
    }

    /// The type of the whole.
    pub open spec fn result(self) -> TyV {
        if !self.saw_value {
            TyV::Null
        } else if self.indeterminate {
            TyV::Unknown
        } else {
            let element = TyV::Scalar(
                match self.atomic {
                    Some(atomic) => atomic,
                    None => Atomic::Integer,
                },
            );
            if self.all_named {
                TyV::NamedVector(Box::new(element))
            } else {
                TyV::Vector(Box::new(element))
            }
        }
    }
}

/// The modes of the members that are not `NULL`, where all are known.
pub open spec fn member_atomics(members: Seq<TyV>, upto: nat) -> Option<Seq<Atomic>>
    decreases upto,
{
    if upto == 0 {
        Some(Seq::empty())
    } else {
        match member_atomics(members, (upto - 1) as nat) {
            Some(before) => if members[upto - 1] is Null {
                Some(before)
            } else {
                match operands::element_atomic(members[upto - 1]) {
                    Some(atomic) => Some(before.push(atomic)),
                    None => None,
                }
            },
            None => None,
        }
    }
}

/// The modes an argument contributes.
pub open spec fn argument_atomics(resolved: TyV) -> Option<Seq<Atomic>> {
    match member_atomics(types::members_of(resolved), types::members_of(resolved).len()) {
        Some(atomics) => if atomics.len() == 0 {
            None
        } else {
            Some(atomics)
        },
        None => None,
    }
}

impl CheckV {
    /// Joins the modes of one argument from one on.
    pub open spec fn combine_atomics(
        self,
        range: TextRange,
        resolved: TyV,
        atomics: Seq<Atomic>,
        from: int,
        gathered: CombineV,
    ) -> (CheckV, CombineV)
        decreases atomics.len() - from,
    {
        if 0 <= from < atomics.len() {
            match gathered.atomic {
                None => self.combine_atomics(
                    range,
                    resolved,
                    atomics,
                    from + 1,
                    CombineV { atomic: Some(atomics[from]), ..gathered },
                ),
                Some(previous) => match operands::combined(previous, atomics[from]) {
                    Some(promoted) => self.combine_atomics(
                        range,
                        resolved,
                        atomics,
                        from + 1,
                        CombineV { atomic: Some(promoted), ..gathered },
                    ),
                    None => self.fail(
                        range,
                        TypeErrorKindV::Mismatch {
                            expected: TyV::Scalar(previous),
                            found: resolved,
                        },
                    ).combine_atomics(range, resolved, atomics, from + 1, gathered.undetermined()),
                },
            }
        } else {
            (self, gathered)
        }
    }

    /// One argument of the given structural type. `NULL` contributes nothing; an
    /// argument whose mode is not known makes the whole indeterminate.
    pub open spec fn combine_argument(
        self,
        m: Module,
        id: ExprId,
        range: TextRange,
        named: bool,
        resolved: TyV,
        gathered: CombineV,
    ) -> (CheckV, CombineV) {
        let seen = CombineV {
            saw_value: true,
            all_named: gathered.all_named && named,
            ..gathered
        };
        match resolved {
            TyV::Null => (self, gathered),
            TyV::Any | TyV::Unknown => (self, seen.undetermined()),
            TyV::Var(_) | TyV::Rigid(_) => (self.unsupported(m, id), seen.undetermined()),
            _ => match argument_atomics(resolved) {
                Some(atomics) => self.combine_atomics(range, resolved, atomics, 0, seen),
                None => if resolved is Named {
                    (self.unsupported(m, id), seen.undetermined())
                } else {
                    (
                        self.fail(
                            range,
                            TypeErrorKindV::Mismatch {
                                expected: TyV::Scalar(Atomic::Integer),
                                found: resolved,
                            },
                        ),
                        seen.undetermined(),
                    )
                },
            },
        }
    }
}

/// What `c(...)` has gathered of its arguments.
#[derive(Debug, Clone, Copy)]
pub struct Combine {
    pub atomic: Option<Atomic>,
    pub all_named: bool,
    pub saw_value: bool,
    pub indeterminate: bool,
}

impl Combine {
    pub open spec fn view(&self) -> CombineV {
        CombineV {
            atomic: self.atomic,
            all_named: self.all_named,
            saw_value: self.saw_value,
            indeterminate: self.indeterminate,
        }
    }

    pub fn start() -> (r: Combine)
        ensures
            r@ == CombineV::start(),
    {
        Combine { atomic: None, all_named: true, saw_value: false, indeterminate: false }
    }

    /// The type of the whole.
    pub fn result(self) -> (r: Ty)
        ensures
            r@ == self@.result(),
    {
        if !self.saw_value {
            return null();
        }
        if self.indeterminate {
            return unknown();
        }
        let element = scalar(
            match self.atomic {
                Some(atomic) => atomic,
                None => Atomic::Integer,
            },
        );
        if self.all_named {
            Ty::new(TyKind::NamedVector(element))
        } else {
            Ty::new(TyKind::Vector(element))
        }
    }
}

fn atomics_of(resolved: &Ty) -> (r: Option<Vec<Atomic>>)
    ensures
        (match r {
            Some(atomics) => Some(atomics@),
            None => None,
        }) == argument_atomics(resolved@),
{
    let members = guard_members(resolved);
    let mut atomics: Vec<Atomic> = Vec::new();
    let mut i: usize = 0;
    while i < members.len()
        invariant
            i <= members.len(),
            types::tys(members@) == types::members_of(resolved@),
            member_atomics(types::tys(members@), i as nat) == Some(atomics@),
        decreases members.len() - i,
    {
        assert(types::tys(members@)[i as int] == members@[i as int]@);
        if !is_null(&members[i]) {
            match combine_operand_atomic(&members[i]) {
                Some(atomic) => {
                    atomics.push(atomic);
                },
                None => {
                    proof {
                        assert(member_atomics(types::tys(members@), (i + 1) as nat) is None);
                        no_atomics_after(types::tys(members@), (i + 1) as nat, members@.len());
                    }
                    return None;
                },
            }
        }
        i += 1;
    }
    if atomics.len() == 0 {
        None
    } else {
        Some(atomics)
    }
}

proof fn no_atomics_after(members: Seq<TyV>, i: nat, j: nat)
    requires
        member_atomics(members, i) is None,
        i <= j,
    ensures
        member_atomics(members, j) is None,
    decreases j,
{
    if i < j {
        no_atomics_after(members, i, (j - 1) as nat);
    }
}

/// The list that `c(...)` builds where one of its arguments is a list.
pub fn combined_list(types: &Vec<Ty>) -> (r: Option<Ty>)
    ensures
        types::opt_ty(r) == if any_list(types::tys(types@)) {
            Some(TyV::List(Box::new(TyV::union_of(listed_elements(types::tys(types@))))))
        } else {
            None
        },
{
    let ghost all = types::tys(types@);
    let mut found = false;
    let mut elements: Vec<Ty> = Vec::new();
    let mut i: usize = 0;
    while i < types.len()
        invariant
            i <= types.len(),
            all == types::tys(types@),
            types::tys(elements@) =~= listed_elements(all).subrange(0, i as int),
            found == exists|j: int|
                0 <= j < i && operands::list_element(#[trigger] all[j]) is Some,
        decreases types.len() - i,
    {
        assert(all[i as int] == types@[i as int]@);
        match list_element_type(&types[i]) {
            Some(element) => {
                found = true;
                elements.push(element);
                assert(operands::list_element(all[i as int]) is Some);
            },
            None => {
                elements.push(types[i].clone());
            },
        }
        assert(types::tys(elements@) =~= listed_elements(all).subrange(0, i + 1));
        i += 1;
    }
    assert(types::tys(elements@) =~= listed_elements(all));
    if found {
        Some(Ty::new(TyKind::List(union_of(&elements))))
    } else {
        None
    }
}

fn sole_nominal(types: &Vec<Ty>) -> (r: Option<&Ty>)
    ensures
        (match r {
            Some(ty) => Some(ty@),
            None => None,
        }) == uniform_nominal(types::tys(types@), 0, None),
{
    let mut seen: Option<&Ty> = None;
    let mut i: usize = 0;
    while i < types.len()
        invariant
            i <= types.len(),
            uniform_nominal(
                types::tys(types@),
                i as int,
                match seen {
                    Some(ty) => Some(ty@),
                    None => None,
                },
            ) == uniform_nominal(types::tys(types@), 0, None),
        decreases types.len() - i,
    {
        assert(types::tys(types@)[i as int] == types@[i as int]@);
        match types[i].kind() {
            TyKind::Null => {},
            TyKind::Named(_, _) => match seen {
                Some(nominal) => {
                    if !nominal.same(&types[i]) {
                        return None;
                    }
                },
                None => {
                    seen = Some(&types[i]);
                },
            },
            _ => {
                return None;
            },
        }
        i += 1;
    }
    seen
}

impl<'a, G: GlobalEnv> Checker<'a, G> {
    fn declares_method(&self, method: &String) -> (r: bool)
        ensures
            r == self.item().declares_method(method@),
    {
        if self.global_scheme(method.as_str(), false).is_some() {
            return true;
        }
        match self.global_candidates(method.as_str(), false) {
            Some(candidates) => candidates.len() > 0,
            None => false,
        }
    }

    /// The class that `c(...)` keeps.
    pub fn combine_nominal(&self, types: &Vec<Ty>) -> (r: Option<Ty>)
        ensures
            types::opt_ty(r) == self.item().combined_class(types::tys(types@)),
    {
        let nominal = match sole_nominal(types) {
            Some(nominal) => nominal,
            None => {
                return None;
            },
        };
        match nominal.kind() {
            TyKind::Named(name, _) => {
                let method = method_text("c", name.text());
                if self.declares_method(&method) {
                    Some(nominal.clone())
                } else {
                    None
                }
            },
            _ => None,
        }
    }

    fn combine_atomics(
        &mut self,
        range: TextRange,
        resolved: &Ty,
        atomics: &Vec<Atomic>,
        gathered: &mut Combine,
    )
        requires
            old(self).wf(),
        ensures
            final(self).follows(old(self)),
            (final(self)@, final(gathered)@) == old(self)@.combine_atomics(
                range,
                resolved@,
                atomics@,
                0,
                old(gathered)@,
            ),
    {
        let mut i: usize = 0;
        while i < atomics.len()
            invariant
                i <= atomics.len(),
                self.follows(old(self)),
                self@.combine_atomics(range, resolved@, atomics@, i as int, gathered@) == old(
                    self,
                )@.combine_atomics(range, resolved@, atomics@, 0, old(gathered)@),
            decreases atomics.len() - i,
        {
            match gathered.atomic {
                None => {
                    gathered.atomic = Some(atomics[i]);
                },
                Some(previous) => match promote_combine_atomic(previous, atomics[i]) {
                    Some(promoted) => {
                        gathered.atomic = Some(promoted);
                    },
                    None => {
                        self.fail(
                            range,
                            TypeErrorKind::Mismatch {
                                expected: scalar(previous),
                                found: resolved.clone(),
                            },
                        );
                        gathered.indeterminate = true;
                    },
                },
            }
            i += 1;
        }
    }

    /// One argument of `c(...)`, of the given structural type.
    pub fn combine_argument(
        &mut self,
        id: ExprId,
        range: TextRange,
        named: bool,
        resolved: &Ty,
        gathered: &mut Combine,
    )
        requires
            old(self).wf(),
            old(self).holds(id),
        ensures
            final(self).follows(old(self)),
            (final(self)@, final(gathered)@) == old(self)@.combine_argument(
                old(self).item().module,
                id,
                range,
                named,
                resolved@,
                old(gathered)@,
            ),
    {
        if is_null(resolved) {
            return;
        }
        gathered.saw_value = true;
        gathered.all_named = gathered.all_named && named;
        match resolved.kind() {
            TyKind::Any | TyKind::Unknown => {
                gathered.indeterminate = true;
                return;
            },
            TyKind::Var(_) | TyKind::Rigid(_) => {
                self.unsupported(id);
                gathered.indeterminate = true;
                return;
            },
            _ => {},
        }
        match atomics_of(resolved) {
            Some(atomics) => {
                self.combine_atomics(range, resolved, &atomics, gathered);
            },
            None => {
                let nominal = match resolved.kind() {
                    TyKind::Named(_, _) => true,
                    _ => false,
                };
                if nominal {
                    self.unsupported(id);
                } else {
                    self.fail(
                        range,
                        TypeErrorKind::Mismatch {
                            expected: scalar(Atomic::Integer),
                            found: resolved.clone(),
                        },
                    );
                }
                gathered.indeterminate = true;
            },
        }
    }
}

} // verus!
