//! A function definition against the signature its annotation declares. The
//! annotation gives types to the formals; the definition decides which formals
//! there are.

use vstd::prelude::*;

use crate::annotations;
use crate::blame::blame_range;
use crate::calls;
use crate::checker::Checker;
use crate::checking;
use crate::checking::CheckV;
use crate::findings;
use crate::findings::{TypeError, TypeErrorKind, TypeErrorKindV, TypeErrorV};
use crate::globals::GlobalEnv;
use crate::hir;
use crate::hir::{ExprId, Module};
use crate::infer::InferenceTable;
use crate::operands;
use crate::operands::{collect_tail_expressions, tests_formal};
use crate::steps::is_unknown;
use crate::syntax::TextRange;
use crate::table::TableV;
use crate::text::same_text;
use crate::type_ops::{clone_params, union_of};
use crate::types;
use crate::types::{
    FunctionType, FunctionV, Parameter, ParameterV, RestParameter, RestV, Ty, TyKind, TyV,
};

verus! {

broadcast use crate::types::group_type_views;

/// Whether a formal may be left out: it has a default, or the body tests it with
/// `missing(name)`.
pub open spec fn is_optional(m: Module, body: ExprId, parameter: hir::Parameter) -> bool {
    parameter.default is Some || operands::missing_tested(m, body).contains(parameter.name@)
}

/// What has been paired of a definition's formals with a declared signature.
pub struct PairedV {
    /// How many declared positional types are used.
    pub positional: int,
    /// Which declared named types are used.
    pub used: Seq<bool>,
    /// The type of each formal, and whether it was declared.
    pub types: Seq<(TyV, bool)>,
    /// The signature so far.
    pub named: Seq<ParameterV>,
    pub variadic: Option<RestV>,
}

impl PairedV {
    pub open spec fn start(declared: FunctionV) -> PairedV {
        PairedV {
            positional: 0,
            used: Seq::new(declared.named.len(), |i: int| false),
            types: Seq::empty(),
            named: Seq::empty(),
            variadic: None,
        }
    }

    /// The type declared for a formal: by its name, or the next positional one.
    pub open spec fn claim(self, declared: FunctionV, name: Seq<char>) -> (Option<TyV>, PairedV) {
        match calls::formal_at(declared.named, name, 0) {
            Some(i) => (
                Some(declared.named[i].ty),
                PairedV { used: self.used.update(i, true), ..self },
            ),
            None => if self.positional < declared.positional.len() {
                (
                    Some(declared.positional[self.positional]),
                    PairedV { positional: self.positional + 1, ..self },
                )
            } else {
                (None, self)
            },
        }
    }

    /// The `...` formal.
    pub open spec fn with_rest(self, declared: FunctionV, own: TyV) -> PairedV {
        PairedV {
            variadic: Some(
                RestV {
                    element: match declared.variadic {
                        Some(rest) => rest.element,
                        None => TyV::Any,
                    },
                    preceding_named: self.named.len() as usize,
                },
            ),
            types: self.types.push((own, false)),
            ..self
        }
    }

    pub open spec fn with_formal(self, formal: ParameterV, is_declared: bool) -> PairedV {
        PairedV {
            types: self.types.push((formal.ty, is_declared)),
            named: self.named.push(formal),
            ..self
        }
    }

    pub open spec fn signature(self, ret: TyV) -> FunctionV {
        FunctionV { positional: Seq::empty(), named: self.named, variadic: self.variadic, ret }
    }
}

/// The place of the `...` formal.
pub open spec fn dots_at(parameters: Seq<hir::Parameter>, from: int) -> Option<int>
    decreases parameters.len() - from,
{
    if 0 <= from < parameters.len() {
        if parameters[from].name@ == "..."@ {
            Some(from)
        } else {
            dots_at(parameters, from + 1)
        }
    } else {
        None
    }
}

/// Whether the rest parameter stands elsewhere than declared, or on one side
/// only.
pub open spec fn rest_differs(declared: FunctionV, parameters: Seq<hir::Parameter>) -> bool {
    match (declared.variadic, dots_at(parameters, 0)) {
        (Some(rest), Some(place)) => place != declared.positional.len() + rest.preceding_named,
        (None, None) => false,
        _ => true,
    }
}

pub open spec fn declares_optional(declared: FunctionV, name: Seq<char>) -> bool {
    exists|i: int|
        0 <= i < declared.named.len() && (#[trigger] declared.named[i]).optional
            && declared.named[i].name == name
}

/// Whether a formal that must be given is declared optional.
pub open spec fn optional_differs(
    m: Module,
    body: ExprId,
    declared: FunctionV,
    parameters: Seq<hir::Parameter>,
) -> bool {
    exists|i: int|
        0 <= i < parameters.len() && !is_optional(m, body, #[trigger] parameters[i])
            && declares_optional(declared, parameters[i].name@)
}

/// Whether some formal of a name may be left out.
pub open spec fn may_omit(
    m: Module,
    body: ExprId,
    parameters: Seq<hir::Parameter>,
    name: Seq<char>,
) -> bool {
    exists|i: int|
        0 <= i < parameters.len() && (#[trigger] parameters[i]).name@ == name && is_optional(
            m,
            body,
            parameters[i],
        )
}

/// Declared formals that are required but may be left out.
pub open spec fn required_findings(
    m: Module,
    body: ExprId,
    range: TextRange,
    declared: FunctionV,
    parameters: Seq<hir::Parameter>,
    upto: nat,
) -> Seq<TypeErrorV>
    decreases upto,
{
    if upto == 0 {
        Seq::empty()
    } else {
        let before = required_findings(m, body, range, declared, parameters, (upto - 1) as nat);
        let formal = declared.named[upto - 1];
        if !formal.optional && may_omit(m, body, parameters, formal.name) {
            before.push(
                TypeErrorV {
                    range,
                    kind: TypeErrorKindV::AnnotationRequiredButDefaulted { name: formal.name },
                },
            )
        } else {
            before
        }
    }
}

/// Declared formals that the definition does not have.
pub open spec fn unused_findings(
    range: TextRange,
    declared: FunctionV,
    used: Seq<bool>,
    upto: nat,
) -> Seq<TypeErrorV>
    decreases upto,
{
    if upto == 0 {
        Seq::empty()
    } else {
        let before = unused_findings(range, declared, used, (upto - 1) as nat);
        if used[upto - 1] {
            before
        } else {
            before.push(
                TypeErrorV {
                    range,
                    kind: TypeErrorKindV::AnnotationParameterMismatch {
                        name: declared.named[upto - 1].name,
                    },
                },
            )
        }
    }
}

impl CheckV {
    /// Every way the declared shape and the definition's disagree.
    pub open spec fn report_shape(
        self,
        m: Module,
        body: ExprId,
        range: TextRange,
        declared: FunctionV,
        parameters: Seq<hir::Parameter>,
        paired: PairedV,
    ) -> CheckV {
        let whole = if rest_differs(declared, parameters) || optional_differs(
            m,
            body,
            declared,
            parameters,
        ) || paired.positional < declared.positional.len() {
            self.fail(
                range,
                TypeErrorKindV::Mismatch {
                    expected: TyV::Function(Box::new(declared)),
                    found: TyV::Function(Box::new(paired.signature(declared.ret))),
                },
            )
        } else {
            self
        };
        whole.report_all(
            required_findings(m, body, range, declared, parameters, declared.named.len()),
        ).report_all(unused_findings(range, declared, paired.used, declared.named.len()))
    }

    /// A default against the declared type of its formal, at one choice of the
    /// binders. A `NULL` that the type does not admit is its own finding.
    pub open spec fn check_default(
        self,
        m: Module,
        name: Seq<char>,
        declared: TyV,
        default: ExprId,
        default_ty: TyV,
    ) -> CheckV {
        let range = checking::blame_range(m, default);
        let resolved = self.table.resolve(default_ty);
        let (ready, admissible) = self.instantiate_rigids(declared);
        if resolved is Null {
            let (next, fits) = ready.compatible(resolved, admissible);
            if fits {
                next
            } else {
                next.fail(range, TypeErrorKindV::NullDefaultNotAdmitted { name, declared })
            }
        } else {
            let (next, error) = ready.check_argument(
                m,
                admissible,
                default_ty,
                range,
                operands::whole_double(m, default),
                Some(default),
            );
            match error {
                Some(error) => next.report(error),
                None => next,
            }
        }
    }

    /// Early returns against the declared return type, each at its own site; and
    /// whether one failed.
    pub open spec fn check_returns(
        self,
        m: Module,
        ret: TyV,
        early: Seq<(TyV, TextRange)>,
        from: int,
        failed: bool,
    ) -> (CheckV, bool)
        decreases early.len() - from,
    {
        if 0 <= from < early.len() {
            let (returned, range) = early[from];
            if returned is Unknown {
                self.check_returns(m, ret, early, from + 1, failed)
            } else {
                let (next, fits) = self.compatible(returned, ret);
                if fits {
                    next.check_returns(m, ret, early, from + 1, failed)
                } else {
                    next.report(
                        checking::type_mismatch(next.table, m, range, ret, returned, None),
                    ).check_returns(m, ret, early, from + 1, true)
                }
            }
        } else {
            (self, failed)
        }
    }

    /// The tail expressions that fail on their own.
    pub open spec fn culprits(
        self,
        ret: TyV,
        leaves: Seq<ExprId>,
        blamed: ExprId,
        from: int,
        found: Seq<(ExprId, TyV)>,
    ) -> (CheckV, Seq<(ExprId, TyV)>)
        decreases leaves.len() - from,
    {
        if 0 <= from < leaves.len() {
            let ty = self.table.resolve(self.recorded_ty(leaves[from]));
            if leaves[from] == blamed || ty is Unknown {
                self.culprits(ret, leaves, blamed, from + 1, found)
            } else {
                let (next, fits) = self.compatible(ty, ret);
                next.culprits(
                    ret,
                    leaves,
                    blamed,
                    from + 1,
                    if fits {
                        found
                    } else {
                        found.push((leaves[from], ty))
                    },
                )
            }
        } else {
            (self, found)
        }
    }

    pub open spec fn report_culprits(
        self,
        m: Module,
        ret: TyV,
        culprits: Seq<(ExprId, TyV)>,
        from: int,
    ) -> CheckV
        decreases culprits.len() - from,
    {
        if 0 <= from < culprits.len() {
            self.report(
                checking::type_mismatch(
                    self.table,
                    m,
                    checking::blame_range(m, culprits[from].0),
                    ret,
                    culprits[from].1,
                    None,
                ),
            ).report_culprits(m, ret, culprits, from + 1)
        } else {
            self
        }
    }

    /// The body's value against the declared return type. The whole value is the
    /// verdict; the tail expressions decide where to point.
    pub open spec fn check_body_value(
        self,
        m: Module,
        ret: TyV,
        body: ExprId,
        trailing: TyV,
    ) -> CheckV {
        let leaves = operands::tail_expressions(m, body);
        let blamed = if leaves.len() == 1 {
            leaves[0]
        } else {
            body
        };
        let resolved = self.table.resolve(trailing);
        if resolved is Unknown {
            self
        } else {
            let (next, fits) = self.compatible(resolved, ret);
            if fits {
                next
            } else {
                let (tried, culprits) = next.culprits(ret, leaves, blamed, 0, Seq::empty());
                if culprits.len() == 0 {
                    tried.report(
                        checking::type_mismatch(
                            tried.table,
                            m,
                            checking::blame_range(m, blamed),
                            ret,
                            resolved,
                            None,
                        ),
                    )
                } else {
                    tried.report_culprits(m, ret, culprits, 0)
                }
            }
        }
    }

    /// What a function returns against what is declared; the return type its
    /// callers see. An unknown declaration is inferred from the body.
    pub open spec fn settle_return(
        self,
        m: Module,
        ret: TyV,
        body: ExprId,
        early: Seq<(TyV, TextRange)>,
        trailing: TyV,
    ) -> (CheckV, TyV) {
        if ret is Unknown {
            (self, returned_type(self.table, early, trailing))
        } else {
            let (checked, failed) = self.check_returns(m, ret, early, 0, false);
            (
                if failed {
                    checked
                } else {
                    checked.check_body_value(m, ret, body, trailing)
                },
                ret,
            )
        }
    }
}

/// The types of a list of early returns.
pub open spec fn early_types(early: Seq<(TyV, TextRange)>) -> Seq<TyV> {
    Seq::new(early.len(), |i: int| early[i].0)
}

/// The union of every early return with the trailing value.
pub open spec fn returned_type(
    t: TableV,
    early: Seq<(TyV, TextRange)>,
    trailing: TyV,
) -> TyV {
    if early.len() == 0 {
        trailing
    } else {
        TyV::union_of(early_types(early).push(t.resolve(trailing)))
    }
}

/// The tail expressions of an expression stand no later than it.
pub proof fn tails_are_held(m: Module, id: ExprId)
    requires
        m.wf(),
        m.holds(id),
    ensures
        forall|i: int|
            0 <= i < operands::tail_expressions(m, id).len() ==> (
            #[trigger] operands::tail_expressions(m, id)[i]).0 <= id.0,
    decreases id.0,
{
    assert(m.kind_of(id).built_below(id.0 as int));
    let tails = operands::tail_expressions(m, id);
    match m.kind_of(id) {
        hir::ExpressionKind::Block { statements, trailing_semicolon } => {
            if !trailing_semicolon && statements@.len() > 0 {
                assert(statements@[statements@.len() - 1].0 < id.0);
                let last = statements@.last();
                tails_are_held(m, last);
                assert(tails == operands::tail_expressions(m, last));
                assert forall|i: int| 0 <= i < tails.len() implies (#[trigger] tails[i]).0
                    <= id.0 by {
                    assert(operands::tail_expressions(m, last)[i].0 <= last.0);
                }
            }
        },
        hir::ExpressionKind::If { then_branch, else_branch, .. } => {
            if let Some(else_branch) = else_branch {
                tails_are_held(m, then_branch);
                tails_are_held(m, else_branch);
                let a = operands::tail_expressions(m, then_branch);
                let b = operands::tail_expressions(m, else_branch);
                assert forall|i: int| 0 <= i < tails.len() implies (#[trigger] tails[i]).0
                    <= id.0 by {
                    if i < a.len() {
                        assert(tails[i] == a[i]);
                    } else {
                        assert(tails[i] == b[i - a.len()]);
                    }
                }
            }
        },
        _ => {},
    }
}

/// Whether a formal may be left out.
pub fn may_be_omitted(module: &Module, body: ExprId, parameter: &hir::Parameter) -> (r: bool)
    requires
        module.wf(),
        module.holds(body),
    ensures
        r == is_optional(*module, body, *parameter),
{
    parameter.default.is_some() || tests_formal(module, body, parameter.name.as_str())
}

/// What has been paired of a definition's formals with a declared signature.
pub struct Paired {
    pub positional: usize,
    pub used: Vec<bool>,
    pub types: Vec<(Ty, bool)>,
    pub named: Vec<Parameter>,
    pub variadic: Option<RestParameter>,
}

pub open spec fn formal_types_view(types: Seq<(Ty, bool)>) -> Seq<(TyV, bool)> {
    Seq::new(types.len(), |i: int| (types[i].0@, types[i].1))
}

impl Paired {
    pub open spec fn view(&self) -> PairedV {
        PairedV {
            positional: self.positional as int,
            used: self.used@,
            types: formal_types_view(self.types@),
            named: types::params_view(self.named@),
            variadic: types::opt_rest(self.variadic),
        }
    }

    pub open spec fn suits(&self, declared: FunctionV) -> bool {
        self.used@.len() == declared.named.len()
    }

    pub fn start(declared: &FunctionType) -> (r: Paired)
        ensures
            r@ == PairedV::start(declared@),
            r.suits(declared@),
    {
        let mut used: Vec<bool> = Vec::new();
        let mut i: usize = 0;
        while i < declared.named.len()
            invariant
                i <= declared.named.len(),
                used@ =~= Seq::new(i as nat, |k: int| false),
            decreases declared.named.len() - i,
        {
            used.push(false);
            i += 1;
        }
        let r = Paired {
            positional: 0,
            used,
            types: Vec::new(),
            named: Vec::new(),
            variadic: None,
        };
        assert(r@.types =~= Seq::empty());
        assert(r@.named =~= Seq::empty());
        assert(r@.used =~= PairedV::start(declared@).used);
        r
    }

    /// The type declared for a formal.
    pub fn claim(&mut self, declared: &FunctionType, name: &str) -> (r: Option<Ty>)
        requires
            old(self).suits(declared@),
        ensures
            final(self).suits(declared@),
            (types::opt_ty(r), final(self)@) == old(self)@.claim(declared@, name@),
    {
        if let Some(i) = formal_place(&declared.named, name) {
            self.used.set(i, true);
            assert(declared@.named[i as int].ty == declared.named@[i as int].ty@);
            return Some(declared.named[i].ty.clone());
        }
        if self.positional < declared.positional.len() {
            self.positional = self.positional + 1;
            return Some(declared.positional[self.positional - 1].clone());
        }
        None
    }

    pub fn add_rest(&mut self, declared: &FunctionType, own: Ty)
        ensures
            final(self)@ == old(self)@.with_rest(declared@, own@),
            final(self).used == old(self).used,
    {
        let element = match &declared.variadic {
            Some(rest) => rest.element.clone(),
            None => crate::type_ops::any(),
        };
        let preceding_named = self.named.len();
        self.variadic = Some(RestParameter { element, preceding_named });
        let ghost given = own@;
        self.types.push((own, false));
        assert(self@.types =~= old(self)@.types.push((given, false)));
    }

    pub fn add_formal(&mut self, formal: Parameter, is_declared: bool)
        ensures
            final(self)@ == old(self)@.with_formal(formal@, is_declared),
            final(self).used == old(self).used,
    {
        let ghost given = formal@;
        self.types.push((formal.ty.clone(), is_declared));
        self.named.push(formal);
        assert(self@.types =~= old(self)@.types.push((given.ty, is_declared)));
    }

    pub fn signature(&self, ret: &Ty) -> (r: FunctionType)
        ensures
            r@ == self@.signature(ret@),
    {
        let variadic = match &self.variadic {
            Some(rest) => Some(
                RestParameter {
                    element: rest.element.clone(),
                    preceding_named: rest.preceding_named,
                },
            ),
            None => None,
        };
        let r = FunctionType {
            positional: Vec::new(),
            named: clone_params(&self.named),
            variadic,
            ret: ret.clone(),
        };
        assert(r@.positional =~= Seq::empty());
        r
    }
}

fn formal_place(named: &Vec<Parameter>, name: &str) -> (r: Option<usize>)
    ensures
        match r {
            Some(i) => i < named@.len() && calls::formal_at(types::params_view(named@), name@, 0)
                == Some(i as int),
            None => calls::formal_at(types::params_view(named@), name@, 0) is None,
        },
{
    let mut i: usize = 0;
    while i < named.len()
        invariant
            i <= named.len(),
            calls::formal_at(types::params_view(named@), name@, 0) == calls::formal_at(
                types::params_view(named@),
                name@,
                i as int,
            ),
        decreases named.len() - i,
    {
        if same_text(named[i].name.text(), name) {
            return Some(i);
        }
        i += 1;
    }
    None
}

fn dots_place(parameters: &Vec<hir::Parameter>) -> (r: Option<usize>)
    ensures
        match r {
            Some(i) => dots_at(parameters@, 0) == Some(i as int),
            None => dots_at(parameters@, 0) is None,
        },
{
    let mut i: usize = 0;
    while i < parameters.len()
        invariant
            i <= parameters.len(),
            dots_at(parameters@, 0) == dots_at(parameters@, i as int),
        decreases parameters.len() - i,
    {
        if same_text(parameters[i].name.as_str(), "...") {
            return Some(i);
        }
        i += 1;
    }
    None
}

fn rest_mismatch(declared: &FunctionType, parameters: &Vec<hir::Parameter>) -> (r: bool)
    ensures
        r == rest_differs(declared@, parameters@),
{
    match (&declared.variadic, dots_place(parameters)) {
        (Some(rest), Some(place)) => place as u128 != declared.positional.len() as u128
            + rest.preceding_named as u128,
        (None, None) => false,
        _ => true,
    }
}

fn names_optional(declared: &FunctionType, name: &str) -> (r: bool)
    ensures
        r == declares_optional(declared@, name@),
{
    let mut i: usize = 0;
    while i < declared.named.len()
        invariant
            i <= declared.named.len(),
            forall|j: int|
                0 <= j < i ==> !((#[trigger] declared@.named[j]).optional
                    && declared@.named[j].name == name@),
        decreases declared.named.len() - i,
    {
        assert(declared@.named[i as int] == declared.named@[i as int]@);
        if declared.named[i].optional && same_text(declared.named[i].name.text(), name) {
            return true;
        }
        i += 1;
    }
    false
}

fn optional_mismatch(
    module: &Module,
    body: ExprId,
    declared: &FunctionType,
    parameters: &Vec<hir::Parameter>,
) -> (r: bool)
    requires
        module.wf(),
        module.holds(body),
    ensures
        r == optional_differs(*module, body, declared@, parameters@),
{
    let mut i: usize = 0;
    while i < parameters.len()
        invariant
            i <= parameters.len(),
            module.wf(),
            module.holds(body),
            forall|j: int|
                0 <= j < i ==> is_optional(*module, body, #[trigger] parameters@[j])
                    || !declares_optional(declared@, parameters@[j].name@),
        decreases parameters.len() - i,
    {
        if !may_be_omitted(module, body, &parameters[i]) && names_optional(
            declared,
            parameters[i].name.as_str(),
        ) {
            assert(!is_optional(*module, body, parameters@[i as int]));
            return true;
        }
        i += 1;
    }
    false
}

fn omits(module: &Module, body: ExprId, parameters: &Vec<hir::Parameter>, name: &str) -> (r: bool)
    requires
        module.wf(),
        module.holds(body),
    ensures
        r == may_omit(*module, body, parameters@, name@),
{
    let mut i: usize = 0;
    while i < parameters.len()
        invariant
            i <= parameters.len(),
            module.wf(),
            module.holds(body),
            forall|j: int|
                0 <= j < i ==> !((#[trigger] parameters@[j]).name@ == name@ && is_optional(
                    *module,
                    body,
                    parameters@[j],
                )),
        decreases parameters.len() - i,
    {
        if same_text(parameters[i].name.as_str(), name) && may_be_omitted(
            module,
            body,
            &parameters[i],
        ) {
            return true;
        }
        i += 1;
    }
    false
}

fn find_required(
    module: &Module,
    body: ExprId,
    range: TextRange,
    declared: &FunctionType,
    parameters: &Vec<hir::Parameter>,
) -> (r: Vec<TypeError>)
    requires
        module.wf(),
        module.holds(body),
    ensures
        findings::errors_view(r@) == required_findings(
            *module,
            body,
            range,
            declared@,
            parameters@,
            declared@.named.len(),
        ),
{
    let mut found: Vec<TypeError> = Vec::new();
    let mut i: usize = 0;
    assert(findings::errors_view(found@) =~= Seq::empty());
    while i < declared.named.len()
        invariant
            i <= declared.named.len(),
            module.wf(),
            module.holds(body),
            findings::errors_view(found@) == required_findings(
                *module,
                body,
                range,
                declared@,
                parameters@,
                i as nat,
            ),
        decreases declared.named.len() - i,
    {
        assert(declared@.named[i as int] == declared.named@[i as int]@);
        let name = declared.named[i].name.text();
        if !declared.named[i].optional && omits(module, body, parameters, name) {
            let ghost before = findings::errors_view(found@);
            let error = TypeError {
                range,
                kind: TypeErrorKind::AnnotationRequiredButDefaulted {
                    name: declared.named[i].name.text.clone(),
                },
            };
            let ghost one = error@;
            found.push(error);
            assert(findings::errors_view(found@) =~= before.push(one));
        }
        i += 1;
    }
    found
}

fn find_unused(range: TextRange, declared: &FunctionType, used: &Vec<bool>) -> (r: Vec<TypeError>)
    requires
        used@.len() == declared@.named.len(),
    ensures
        findings::errors_view(r@) == unused_findings(
            range,
            declared@,
            used@,
            declared@.named.len(),
        ),
{
    let mut found: Vec<TypeError> = Vec::new();
    let mut i: usize = 0;
    assert(findings::errors_view(found@) =~= Seq::empty());
    while i < declared.named.len()
        invariant
            i <= declared.named.len(),
            used@.len() == declared@.named.len(),
            findings::errors_view(found@) == unused_findings(range, declared@, used@, i as nat),
        decreases declared.named.len() - i,
    {
        assert(declared@.named[i as int] == declared.named@[i as int]@);
        if !used[i] {
            let ghost before = findings::errors_view(found@);
            let error = TypeError {
                range,
                kind: TypeErrorKind::AnnotationParameterMismatch {
                    name: declared.named[i].name.text.clone(),
                },
            };
            let ghost one = error@;
            found.push(error);
            assert(findings::errors_view(found@) =~= before.push(one));
        }
        i += 1;
    }
    found
}

/// The union of every early return with the trailing value.
pub fn join_early_returns(table: &InferenceTable, early: &Vec<(Ty, TextRange)>, trailing: &Ty) -> (r:
    Ty)
    requires
        table.wf(),
    ensures
        r@ == returned_type(table@, annotations::ranged_types_view(early@), trailing@),
{
    if early.len() == 0 {
        return trailing.clone();
    }
    let mut members: Vec<Ty> = Vec::new();
    let mut i: usize = 0;
    while i < early.len()
        invariant
            i <= early.len(),
            types::tys(members@) =~= early_types(
                annotations::ranged_types_view(early@),
            ).subrange(0, i as int),
        decreases early.len() - i,
    {
        members.push(early[i].0.clone());
        i += 1;
    }
    assert(types::tys(members@) =~= early_types(annotations::ranged_types_view(early@)));
    members.push(table.resolve(trailing));
    union_of(&members)
}

pub open spec fn culprits_view(culprits: Seq<(ExprId, Ty)>) -> Seq<(ExprId, TyV)> {
    Seq::new(culprits.len(), |i: int| (culprits[i].0, culprits[i].1@))
}

impl<'a, G: GlobalEnv> Checker<'a, G> {
    /// Reports every way the declared shape and the definition's disagree.
    pub fn report_shape(
        &mut self,
        body: ExprId,
        range: TextRange,
        declared: &FunctionType,
        parameters: &Vec<hir::Parameter>,
        paired: &Paired,
    )
        requires
            old(self).wf(),
            old(self).holds(body),
            paired.suits(declared@),
        ensures
            final(self).follows(old(self)),
            final(self)@ == old(self)@.report_shape(
                old(self).item().module,
                body,
                range,
                declared@,
                parameters@,
                paired@,
            ),
    {
        let module = self.module();
        if rest_mismatch(declared, parameters) || optional_mismatch(
            module,
            body,
            declared,
            parameters,
        ) || paired.positional < declared.positional.len() {
            self.fail(
                range,
                TypeErrorKind::Mismatch {
                    expected: Ty::new(TyKind::Function(declared.clone())),
                    found: Ty::new(TyKind::Function(paired.signature(&declared.ret))),
                },
            );
        }
        let required = find_required(module, body, range, declared, parameters);
        self.report_all(required);
        let unused = find_unused(range, declared, &paired.used);
        self.report_all(unused);
    }

    /// Checks a default against the declared type of its formal.
    pub fn check_default(&mut self, name: &String, declared: &Ty, default: ExprId, default_ty: &Ty)
        requires
            old(self).wf(),
            old(self).holds(default),
        ensures
            final(self).follows(old(self)),
            final(self)@ == old(self)@.check_default(
                old(self).item().module,
                name@,
                declared@,
                default,
                default_ty@,
            ),
    {
        let module = self.module();
        let range = blame_range(module, default);
        let resolved = self.resolve(default_ty);
        let admissible = self.instantiate_rigids(declared);
        if crate::closing::is_null(&resolved) {
            if !self.compatible(&resolved, &admissible) {
                self.fail(
                    range,
                    TypeErrorKind::NullDefaultNotAdmitted {
                        name: name.clone(),
                        declared: declared.clone(),
                    },
                );
            }
        } else {
            let whole = operands::is_whole_double(module, default);
            if let Some(error) = self.check_argument(
                &admissible,
                default_ty,
                range,
                whole,
                Some(default),
            ) {
                self.report(error);
            }
        }
    }

    fn check_returns(&mut self, ret: &Ty, early: &Vec<(Ty, TextRange)>) -> (r: bool)
        requires
            old(self).wf(),
        ensures
            final(self).follows(old(self)),
            (final(self)@, r) == old(self)@.check_returns(
                old(self).item().module,
                ret@,
                annotations::ranged_types_view(early@),
                0,
                false,
            ),
    {
        let mut failed = false;
        let mut i: usize = 0;
        while i < early.len()
            invariant
                i <= early.len(),
                self.follows(old(self)),
                self@.check_returns(
                    old(self).item().module,
                    ret@,
                    annotations::ranged_types_view(early@),
                    i as int,
                    failed,
                ) == old(self)@.check_returns(
                    old(self).item().module,
                    ret@,
                    annotations::ranged_types_view(early@),
                    0,
                    false,
                ),
            decreases early.len() - i,
        {
            assert(annotations::ranged_types_view(early@)[i as int] == (
                early@[i as int].0@,
                early@[i as int].1,
            ));
            if !is_unknown(&early[i].0) && !self.compatible(&early[i].0, ret) {
                let error = self.type_mismatch(early[i].1, ret, &early[i].0, None);
                self.report(error);
                failed = true;
            }
            i += 1;
        }
        failed
    }

    fn culprits(&mut self, ret: &Ty, leaves: &Vec<ExprId>, blamed: ExprId) -> (r: Vec<(ExprId, Ty)>)
        requires
            old(self).wf(),
            forall|i: int| 0 <= i < leaves@.len() ==> old(self).holds(#[trigger] leaves@[i]),
        ensures
            final(self).follows(old(self)),
            (final(self)@, culprits_view(r@)) == old(self)@.culprits(
                ret@,
                leaves@,
                blamed,
                0,
                Seq::empty(),
            ),
            forall|i: int| 0 <= i < r@.len() ==> old(self).holds((#[trigger] r@[i]).0),
    {
        let mut found: Vec<(ExprId, Ty)> = Vec::new();
        let mut i: usize = 0;
        assert(culprits_view(found@) =~= Seq::empty());
        while i < leaves.len()
            invariant
                i <= leaves.len(),
                self.follows(old(self)),
                forall|j: int| 0 <= j < leaves@.len() ==> old(self).holds(#[trigger] leaves@[j]),
                forall|j: int| 0 <= j < found@.len() ==> old(self).holds((#[trigger] found@[j]).0),
                self@.culprits(ret@, leaves@, blamed, i as int, culprits_view(found@)) == old(
                    self,
                )@.culprits(ret@, leaves@, blamed, 0, Seq::empty()),
            decreases leaves.len() - i,
        {
            let leaf = leaves[i];
            let ty = self.resolve(&self.recorded_ty(leaf));
            if leaf != blamed && !is_unknown(&ty) && !self.compatible(&ty, ret) {
                let ghost before = culprits_view(found@);
                let ghost one = ty@;
                found.push((leaf, ty));
                assert(culprits_view(found@) =~= before.push((leaf, one)));
            }
            i += 1;
        }
        found
    }

    fn report_culprits(&mut self, ret: &Ty, culprits: &Vec<(ExprId, Ty)>)
        requires
            old(self).wf(),
            forall|i: int| 0 <= i < culprits@.len() ==> old(self).holds((#[trigger] culprits@[i]).0),
        ensures
            final(self).follows(old(self)),
            final(self)@ == old(self)@.report_culprits(
                old(self).item().module,
                ret@,
                culprits_view(culprits@),
                0,
            ),
    {
        let mut i: usize = 0;
        while i < culprits.len()
            invariant
                i <= culprits.len(),
                self.follows(old(self)),
                forall|j: int|
                    0 <= j < culprits@.len() ==> old(self).holds((#[trigger] culprits@[j]).0),
                self@.report_culprits(
                    old(self).item().module,
                    ret@,
                    culprits_view(culprits@),
                    i as int,
                ) == old(self)@.report_culprits(
                    old(self).item().module,
                    ret@,
                    culprits_view(culprits@),
                    0,
                ),
            decreases culprits.len() - i,
        {
            let range = blame_range(self.module(), culprits[i].0);
            let error = self.type_mismatch(range, ret, &culprits[i].1, None);
            self.report(error);
            i += 1;
        }
    }

    fn check_body_value(&mut self, ret: &Ty, body: ExprId, trailing: &Ty)
        requires
            old(self).wf(),
            old(self).holds(body),
        ensures
            final(self).follows(old(self)),
            final(self)@ == old(self)@.check_body_value(
                old(self).item().module,
                ret@,
                body,
                trailing@,
            ),
    {
        let module = self.module();
        let mut leaves: Vec<ExprId> = Vec::new();
        collect_tail_expressions(module, body, &mut leaves);
        proof {
            tails_are_held(*module, body);
            assert(leaves@ =~= operands::tail_expressions(*module, body));
        }
        let blamed = if leaves.len() == 1 {
            leaves[0]
        } else {
            body
        };
        let resolved = self.resolve(trailing);
        if is_unknown(&resolved) || self.compatible(&resolved, ret) {
            return;
        }
        let culprits = self.culprits(ret, &leaves, blamed);
        if culprits.len() == 0 {
            let range = blame_range(module, blamed);
            let error = self.type_mismatch(range, ret, &resolved, None);
            self.report(error);
        } else {
            self.report_culprits(ret, &culprits);
        }
    }

    /// Checks what a function returns against what is declared; the return type
    /// its callers see.
    pub fn settle_return(
        &mut self,
        ret: &Ty,
        body: ExprId,
        early: &Vec<(Ty, TextRange)>,
        trailing: &Ty,
    ) -> (r: Ty)
        requires
            old(self).wf(),
            old(self).holds(body),
        ensures
            final(self).follows(old(self)),
            (final(self)@, r@) == old(self)@.settle_return(
                old(self).item().module,
                ret@,
                body,
                annotations::ranged_types_view(early@),
                trailing@,
            ),
    {
        if is_unknown(ret) {
            return join_early_returns(self.table(), early, trailing);
        }
        if !self.check_returns(ret, early) {
            self.check_body_value(ret, body, trailing);
        }
        ret.clone()
    }
}

} // verus!
