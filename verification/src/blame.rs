//! Where a finding points: the range of the expression that is at fault.

use vstd::prelude::*;

use crate::checking;
use crate::explain::RecordMismatch;
use crate::findings::{TypeError, TypeErrorKind};
use crate::hir;
use crate::hir::{Argument, ExprId, ExpressionKind, Module};
use crate::infer::{InferenceTable, UnifyError};
use crate::operands::find_named;
use crate::syntax::TextRange;
use crate::types;
use crate::types::{Ty, TyKind};

verus! {

broadcast use crate::types::group_type_views;

/// The expression inside any parentheses.
pub fn unparenthesized(module: &Module, id: ExprId) -> (r: ExprId)
    requires
        module.wf(),
        module.holds(id),
    ensures
        r == checking::unparenthesized(*module, id),
        module.holds(r),
    decreases id.0,
{
    let kind = module.kind(id);
    assert(kind.built_below(id.0 as int));
    match kind {
        ExpressionKind::Paren(inner) => unparenthesized(module, *inner),
        _ => id,
    }
}

/// The range to blame for the value an expression produces: parentheses only
/// group.
pub fn blame_range(module: &Module, id: ExprId) -> (r: TextRange)
    requires
        module.wf(),
        module.holds(id),
    ensures
        r == checking::blame_range(*module, id),
{
    module.range(unparenthesized(module, id))
}

/// The tagged argument of a call with a name.
pub fn tagged_argument<'a>(module: &'a Module, call: ExprId, name: &str) -> (r: Option<&'a Argument>)
    requires
        module.wf(),
        module.holds(call),
    ensures
        match r {
            Some(argument) => checking::tagged_argument(*module, call, name@) == Some(*argument)
                && hir::opt_below(argument.value, call.0 as int),
            None => checking::tagged_argument(*module, call, name@) is None,
        },
{
    let kind = module.kind(call);
    assert(kind.built_below(call.0 as int));
    match kind {
        ExpressionKind::Call { arguments, .. } => match find_named(arguments, name) {
            Some(i) => Some(&arguments[i]),
            None => None,
        },
        _ => None,
    }
}

/// The expression that the tags of a path lead to, the last one left out.
fn descend(module: &Module, value: ExprId, path: &Vec<String>) -> (r: Option<ExprId>)
    requires
        module.wf(),
        module.holds(value),
        path@.len() > 0,
    ensures
        r == checking::descend(*module, value, types::texts(path@), 0, path@.len() - 1),
        r matches Some(id) ==> module.holds(id),
{
    let mut current = value;
    let mut i: usize = 0;
    while i < path.len() - 1
        invariant
            module.wf(),
            module.holds(current),
            path@.len() > 0,
            i <= path@.len() - 1,
            checking::descend(*module, current, types::texts(path@), i as int, path@.len() - 1)
                == checking::descend(*module, value, types::texts(path@), 0, path@.len() - 1),
        decreases path@.len() - i,
    {
        match tagged_argument(module, current, path[i].as_str()) {
            Some(argument) => match argument.value {
                Some(inner) => {
                    current = inner;
                },
                None => {
                    return None;
                },
            },
            None => {
                return None;
            },
        }
        i += 1;
    }
    Some(current)
}

fn opt_blame(module: &Module, value: Option<ExprId>) -> (r: Option<TextRange>)
    requires
        module.wf(),
        hir::opt_below(value, module.expressions@.len() as int),
    ensures
        r == (match value {
            Some(value) => Some(checking::blame_range(*module, value)),
            None => None,
        }),
{
    match value {
        Some(value) => Some(blame_range(module, value)),
        None => None,
    }
}

/// Where the field a record mismatch names was written.
pub fn record_field_range(module: &Module, value: ExprId, mismatch: &RecordMismatch) -> (r: Option<
    TextRange,
>)
    requires
        module.wf(),
        module.holds(value),
    ensures
        r == checking::record_field_range(*module, value, mismatch@),
{
    let path = match mismatch {
        RecordMismatch::Field { path, .. } => path,
        RecordMismatch::Missing { path, .. } => path,
        RecordMismatch::Unexpected { path, .. } => path,
    };
    if path.len() == 0 {
        return None;
    }
    let current = match descend(module, value, path) {
        Some(current) => current,
        None => {
            return None;
        },
    };
    let last = path.len() - 1;
    assert(types::texts(path@).last() == path@[last as int]@);
    match mismatch {
        RecordMismatch::Missing { .. } => Some(blame_range(module, current)),
        RecordMismatch::Field { .. } => {
            match tagged_argument(module, current, path[last].as_str()) {
                Some(argument) => opt_blame(module, argument.value),
                None => None,
            }
        },
        RecordMismatch::Unexpected { .. } => {
            match tagged_argument(module, current, path[last].as_str()) {
                Some(argument) => match argument.name_range {
                    Some(range) => Some(range),
                    None => opt_blame(module, argument.value),
                },
                None => None,
            }
        },
    }
}

/// A mismatch of two types, narrowed to one field where both are records.
pub fn type_mismatch(
    table: &mut InferenceTable,
    module: &Module,
    range: TextRange,
    expected: &Ty,
    found: &Ty,
    value: Option<ExprId>,
) -> (r: TypeError)
    requires
        old(table).wf(),
        module.wf(),
        hir::opt_below(value, module.expressions@.len() as int),
    ensures
        final(table).wf(),
        final(table)@ == old(table)@,
        r@ == checking::type_mismatch(old(table)@, *module, range, expected@, found@, value),
{
    let expected_resolved = table.resolve(expected);
    let found_resolved = table.resolve(found);
    match table.explain_record_mismatch(&found_resolved, &expected_resolved) {
        None => TypeError {
            range,
            kind: TypeErrorKind::Mismatch { expected: expected_resolved, found: found_resolved },
        },
        Some(mismatch) => {
            let narrowed = match value {
                Some(value) => match record_field_range(module, value, &mismatch) {
                    Some(narrowed) => narrowed,
                    None => range,
                },
                None => range,
            };
            TypeError {
                range: narrowed,
                kind: TypeErrorKind::RecordShape { mismatch: Box::new(mismatch) },
            }
        },
    }
}

/// What is reported where two types do not unify.
pub fn unify_finding(
    table: &mut InferenceTable,
    module: &Module,
    range: TextRange,
    error: UnifyError,
) -> (r: TypeError)
    requires
        old(table).wf(),
        module.wf(),
    ensures
        final(table).wf(),
        final(table)@ == old(table)@,
        r@ == checking::unify_finding(old(table)@, *module, range, error@),
{
    match error {
        UnifyError::Mismatch(expected, found) => type_mismatch(
            table,
            module,
            range,
            &expected,
            &found,
            None,
        ),
        UnifyError::Occurs(variable, container) => TypeError {
            range,
            kind: TypeErrorKind::InfiniteType {
                variable: Ty::new(TyKind::Var(variable)),
                container: table.resolve(&container),
            },
        },
        UnifyError::ConstraintRejected(constraint, found) => TypeError {
            range,
            kind: TypeErrorKind::ConstraintViolation { constraint, found: table.resolve(&found) },
        },
    }
}

} // verus!
