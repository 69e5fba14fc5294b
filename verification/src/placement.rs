//! Where the arguments of a call go: what holds of the matching of arguments and
//! formals as a whole.

use vstd::prelude::*;

use crate::calls::{self, ArgumentTarget, CallArgumentV, TargetsV};
use crate::types::{FunctionV, ParameterV};

verus! {

/// How many of the first arguments have no name and forward nothing.
pub open spec fn unnamed_before(arguments: Seq<CallArgumentV>, i: nat) -> nat
    decreases i,
{
    if i == 0 {
        0
    } else {
        let before = unnamed_before(arguments, (i - 1) as nat);
        if arguments[i - 1].name is None && !arguments[i - 1].forwards_dots {
            before + 1
        } else {
            before
        }
    }
}

/// Whether a formal is taken from an argument's point of view: by an argument
/// with a name, or by an earlier one.
pub open spec fn is_taken(
    arguments: Seq<CallArgumentV>,
    targets: TargetsV,
    formal: int,
    i: int,
) -> bool {
    exists|j: int|
        0 <= j < targets.len() && #[trigger] targets[j] == Some(
            ArgumentTarget::Named(formal as usize),
        ) && (arguments[j].name is Some || j < i)
}

/// Whether every formal before one is taken from an argument's point of view.
pub open spec fn all_taken(
    arguments: Seq<CallArgumentV>,
    targets: TargetsV,
    upto: int,
    i: int,
) -> bool {
    forall|g: int| 0 <= g < upto ==> #[trigger] is_taken(arguments, targets, g, i)
}

/// Whether an argument went where it belongs. One that forwards `...` goes
/// nowhere. One with a name takes a formal of that name; where every formal of
/// its name is taken already, or there is none, the rest parameter takes it if
/// no formal has the name. One without a name takes the fixed formal of its
/// place; past those it takes the first named formal before the rest parameter
/// that no name and no earlier argument has taken, and after those the rest
/// parameter.
pub open spec fn went_right(
    function: FunctionV,
    arguments: Seq<CallArgumentV>,
    targets: TargetsV,
    i: int,
) -> bool {
    let place = unnamed_before(arguments, i as nat);
    let reachable = calls::reachable_formals(function);
    if arguments[i].forwards_dots {
        targets[i] is None
    } else {
        match (arguments[i].name, targets[i]) {
            (Some(name), Some(ArgumentTarget::Named(formal))) => formal < function.named.len()
                && function.named[formal as int].name == name,
            (Some(name), Some(ArgumentTarget::Rest)) => function.variadic is Some
                && !calls::is_formal_name(function.named, name),
            (Some(name), Some(ArgumentTarget::UnmatchedName)) => {
                &&& function.variadic is None || calls::is_formal_name(function.named, name)
                &&& forall|g: int|
                    0 <= g < function.named.len() && (#[trigger] function.named[g]).name == name
                        ==> is_taken(arguments, targets, g, i)
            },
            (None, Some(ArgumentTarget::Positional(formal))) => formal == place && place
                < function.positional.len(),
            (None, Some(ArgumentTarget::Named(formal))) => function.positional.len() <= place
                && formal < reachable && all_taken(arguments, targets, formal as int, i),
            (None, Some(ArgumentTarget::Rest)) => function.positional.len() <= place
                && function.variadic is Some && all_taken(arguments, targets, reachable, i),
            (None, Some(ArgumentTarget::Overflow)) => function.positional.len() <= place
                && function.variadic is None && all_taken(arguments, targets, reachable, i),
            _ => false,
        }
    }
}

/// Whether no two arguments of a call go to the same formal.
pub open spec fn is_injective(targets: TargetsV) -> bool {
    forall|i: int, j: int|
        0 <= i < j < targets.len() && #[trigger] targets[i] == #[trigger] targets[j] && targets[i]
            is Some ==> !(targets[i]->0 is Named) && !(targets[i]->0 is Positional)
}

/// Whether the number of formals of a function fits a machine word.
pub open spec fn is_countable(function: FunctionV) -> bool {
    function.named.len() <= usize::MAX && function.positional.len() <= usize::MAX
}

/// No two arguments of a call get the same formal.
pub proof fn a_formal_takes_one_argument(
    function: FunctionV,
    arguments: Seq<CallArgumentV>,
    i: int,
    j: int,
)
    requires
        is_countable(function),
        0 <= i < j < arguments.len(),
    ensures
        ({
            let targets = calls::targets_of(function, arguments);
            targets[i] == targets[j] && targets[i] is Some ==> !(targets[i]->0 is Named) && !(
            targets[i]->0 is Positional)
        }),
{
    matching(function, arguments);
}

/// Every argument of a call goes where it belongs.
pub proof fn every_argument_goes_where_it_belongs(
    function: FunctionV,
    arguments: Seq<CallArgumentV>,
    i: int,
)
    requires
        is_countable(function),
        0 <= i < arguments.len(),
    ensures
        calls::targets_of(function, arguments).len() == arguments.len(),
        went_right(function, arguments, calls::targets_of(function, arguments), i),
{
    matching(function, arguments);
}

/// A formal that is called by its name is supplied: the first formal of the name
/// of any argument that is no `...` has an argument.
pub proof fn a_called_formal_is_supplied(
    function: FunctionV,
    arguments: Seq<CallArgumentV>,
    i: int,
    formal: int,
)
    requires
        is_countable(function),
        0 <= i < arguments.len(),
        !arguments[i].forwards_dots,
        0 <= formal < function.named.len(),
        arguments[i].name == Some(function.named[formal].name),
        forall|g: int|
            0 <= g < function.named.len() && g != formal ==> (#[trigger] function.named[g]).name
                != function.named[formal].name,
    ensures
        calls::is_supplied(calls::targets_of(function, arguments), formal),
{
    matching(function, arguments);
    let targets = calls::targets_of(function, arguments);
    assert(went_right(function, arguments, targets, i));
    match targets[i] {
        Some(ArgumentTarget::Named(own)) => {
            assert(own as int == formal);
            assert(targets[i] == Some(ArgumentTarget::Named(formal as usize)));
        },
        Some(ArgumentTarget::UnmatchedName) => {
            assert(function.named[formal].name == arguments[i].name->0);
            assert(is_taken(arguments, targets, formal, i));
        },
        _ => {
            assert(calls::is_formal_name(function.named, arguments[i].name->0)) by {
                assert(function.named[formal].name == arguments[i].name->0);
            }
        },
    }
}

proof fn matching(function: FunctionV, arguments: Seq<CallArgumentV>)
    requires
        is_countable(function),
    ensures
        calls::targets_of(function, arguments).len() == arguments.len(),
        is_injective(calls::targets_of(function, arguments)),
        forall|i: int|
            0 <= i < arguments.len() ==> #[trigger] went_right(
                function,
                arguments,
                calls::targets_of(function, arguments),
                i,
            ),
{
    let none = Seq::new(function.named.len(), |i: int| false);
    let (claimed, targets) = calls::claim_by_name(function.named, arguments, 0, none, Seq::empty());
    claims(function.named, arguments, 0, none, Seq::empty());
    assert(named_so_far(function.named, arguments, arguments.len() as int, claimed, targets));
    assert(placed_so_far(function, arguments, 0, claimed, targets, 0, 0)) by {
        assert forall|g: int| 0 <= g < claimed.len() && claimed[g] implies #[trigger] is_taken(
            arguments,
            targets,
            g,
            0,
        ) by {
            let j = choose|j: int|
                0 <= j < targets.len() && #[trigger] targets[j] == Some(
                    ArgumentTarget::Named(g as usize),
                );
            assert(claim_holds(function.named, arguments, claimed, targets, j));
        }
        assert forall|i: int| 0 <= i < arguments.len() implies #[trigger] waits(
            function,
            arguments,
            claimed,
            targets,
            i,
        ) by {
            assert(claim_holds(function.named, arguments, claimed, targets, i));
        }
        assert forall|i: int|
            0 <= i < targets.len() && (#[trigger] targets[i]) is Some && targets[i]->0
                is Named implies targets[i]->0->Named_0 < claimed.len()
            && claimed[targets[i]->0->Named_0 as int] by {
            assert(claim_holds(function.named, arguments, claimed, targets, i));
        }
    }
    places(function, arguments, 0, claimed, targets, 0, 0);
}

/// What the first pass has found of one argument.
spec fn claim_holds(
    named: Seq<ParameterV>,
    arguments: Seq<CallArgumentV>,
    claimed: Seq<bool>,
    targets: TargetsV,
    i: int,
) -> bool {
    match targets[i] {
        None => !arguments[i].forwards_dots && arguments[i].name is Some ==> (forall|g: int|
            0 <= g < named.len() && (#[trigger] named[g]).name == arguments[i].name->0
                ==> claimed[g]),
        Some(ArgumentTarget::Named(formal)) => formal < named.len() && claimed[formal as int]
            && !arguments[i].forwards_dots && arguments[i].name == Some(
            named[formal as int].name,
        ),
        _ => false,
    }
}

spec fn named_so_far(
    named: Seq<ParameterV>,
    arguments: Seq<CallArgumentV>,
    from: int,
    claimed: Seq<bool>,
    targets: TargetsV,
) -> bool {
    &&& 0 <= from <= arguments.len()
    &&& targets.len() == from
    &&& claimed.len() == named.len()
    &&& forall|i: int|
        0 <= i < from ==> #[trigger] claim_holds(named, arguments, claimed, targets, i)
    &&& is_injective(targets)
    &&& forall|g: int| 0 <= g < claimed.len() && #[trigger] claimed[g] ==> calls::is_supplied(
        targets,
        g,
    )
}

proof fn unclaimed(named: Seq<ParameterV>, name: Seq<char>, claimed: Seq<bool>, from: int)
    requires
        0 <= from <= named.len(),
        claimed.len() == named.len(),
    ensures
        match calls::unclaimed_formal(named, name, claimed, from) {
            Some(formal) => from <= formal < named.len() && named[formal].name == name
                && !claimed[formal],
            None => forall|g: int|
                from <= g < named.len() && (#[trigger] named[g]).name == name ==> claimed[g],
        },
    decreases named.len() - from,
{
    if from < named.len() {
        unclaimed(named, name, claimed, from + 1);
    }
}

proof fn claims(
    named: Seq<ParameterV>,
    arguments: Seq<CallArgumentV>,
    from: int,
    claimed: Seq<bool>,
    targets: TargetsV,
)
    requires
        named.len() <= usize::MAX,
        named_so_far(named, arguments, from, claimed, targets),
    ensures
        ({
            let (done, all) = calls::claim_by_name(named, arguments, from, claimed, targets);
            named_so_far(named, arguments, arguments.len() as int, done, all)
        }),
    decreases arguments.len() - from,
{
    if from < arguments.len() {
        let claim = if arguments[from].forwards_dots {
            None
        } else {
            match arguments[from].name {
                Some(name) => calls::unclaimed_formal(named, name, claimed, 0),
                None => None,
            }
        };
        if arguments[from].name is Some {
            unclaimed(named, arguments[from].name->0, claimed, 0);
        }
        let (used, next) = match claim {
            Some(formal) => (
                claimed.update(formal, true),
                targets.push(Some(ArgumentTarget::Named(formal as usize))),
            ),
            None => (claimed, targets.push(None)),
        };
        assert forall|i: int| 0 <= i < from + 1 implies #[trigger] claim_holds(
            named,
            arguments,
            used,
            next,
            i,
        ) by {
            if i < from {
                assert(claim_holds(named, arguments, claimed, targets, i));
                assert(next[i] == targets[i]);
            }
        }
        assert(is_injective(next)) by {
            assert forall|i: int, j: int|
                0 <= i < j < next.len() && #[trigger] next[i] == #[trigger] next[j] && next[i]
                    is Some implies !(next[i]->0 is Named) && !(next[i]->0 is Positional) by {
                assert(next[i] == targets[i]);
                assert(claim_holds(named, arguments, claimed, targets, i));
                if j < from {
                    assert(next[j] == targets[j]);
                }
            }
        }
        assert forall|g: int| 0 <= g < used.len() && #[trigger] used[g] implies calls::is_supplied(
            next,
            g,
        ) by {
            if claim == Some(g) {
                assert(next[from] == Some(ArgumentTarget::Named(g as usize)));
            } else {
                assert(claimed[g]);
                let j = choose|j: int|
                    0 <= j < targets.len() && #[trigger] targets[j] == Some(
                        ArgumentTarget::Named(g as usize),
                    );
                assert(next[j] == targets[j]);
            }
        }
        claims(named, arguments, from + 1, used, next);
    }
}

proof fn opened(claimed: Seq<bool>, from: int, to: int)
    requires
        0 <= from <= to <= claimed.len(),
    ensures
        from <= calls::open_formal(claimed, from, to) <= to,
        forall|g: int|
            from <= g < calls::open_formal(claimed, from, to) ==> #[trigger] claimed[g],
        calls::open_formal(claimed, from, to) < to ==> !claimed[calls::open_formal(
            claimed,
            from,
            to,
        )],
    decreases to - from,
{
    if from < to && claimed[from] {
        opened(claimed, from + 1, to);
    }
}

/// What the first pass leaves of an argument for the second.
spec fn waits(
    function: FunctionV,
    arguments: Seq<CallArgumentV>,
    claimed: Seq<bool>,
    targets: TargetsV,
    i: int,
) -> bool {
    match targets[i] {
        None => !arguments[i].forwards_dots && arguments[i].name is Some ==> (forall|g: int|
            0 <= g < function.named.len() && (#[trigger] function.named[g]).name
                == arguments[i].name->0 ==> claimed[g]),
        Some(ArgumentTarget::Named(formal)) => formal < function.named.len()
            && !arguments[i].forwards_dots && arguments[i].name == Some(
            function.named[formal as int].name,
        ),
        _ => false,
    }
}

spec fn placed_so_far(
    function: FunctionV,
    arguments: Seq<CallArgumentV>,
    from: int,
    claimed: Seq<bool>,
    targets: TargetsV,
    next_positional: int,
    next_named: int,
) -> bool {
    let place = unnamed_before(arguments, from as nat);
    &&& 0 <= from <= arguments.len()
    &&& targets.len() == arguments.len()
    &&& claimed.len() == function.named.len()
    &&& next_positional == if place < function.positional.len() {
        place as int
    } else {
        function.positional.len() as int
    }
    &&& 0 <= next_named <= calls::reachable_formals(function)
    &&& forall|g: int| 0 <= g < next_named ==> #[trigger] claimed[g]
    &&& forall|i: int|
        from <= i < arguments.len() ==> #[trigger] waits(function, arguments, claimed, targets, i)
    &&& forall|i: int|
        0 <= i < from ==> #[trigger] went_right(function, arguments, targets, i)
    &&& forall|i: int|
        0 <= i < targets.len() && (#[trigger] targets[i]) is Some && targets[i]->0 is Named
            ==> targets[i]->0->Named_0 < claimed.len() && claimed[targets[i]->0->Named_0 as int]
    &&& is_injective(targets)
    &&& forall|g: int|
        0 <= g < claimed.len() && claimed[g] ==> #[trigger] is_taken(arguments, targets, g, from)
}

/// Placing one more argument leaves the others where they are.
proof fn still_right(
    function: FunctionV,
    arguments: Seq<CallArgumentV>,
    targets: TargetsV,
    next: TargetsV,
    from: int,
    i: int,
)
    requires
        0 <= i < from < targets.len(),
        targets.len() == arguments.len(),
        next.len() == targets.len(),
        targets[from] is None,
        forall|j: int| 0 <= j < targets.len() && j != from ==> next[j] == #[trigger] targets[j],
        went_right(function, arguments, targets, i),
    ensures
        went_right(function, arguments, next, i),
{
    assert(next[i] == targets[i]);
    assert forall|g: int| #[trigger] is_taken(arguments, targets, g, i) implies is_taken(
        arguments,
        next,
        g,
        i,
    ) by {
        let j = choose|j: int|
            0 <= j < targets.len() && #[trigger] targets[j] == Some(
                ArgumentTarget::Named(g as usize),
            ) && (arguments[j].name is Some || j < i);
        assert(next[j] == targets[j]);
    }
    let reachable = calls::reachable_formals(function);
    assert(all_taken(arguments, targets, reachable, i) ==> all_taken(
        arguments,
        next,
        reachable,
        i,
    )) by {
        if all_taken(arguments, targets, reachable, i) {
            assert forall|g: int| 0 <= g < reachable implies #[trigger] is_taken(
                arguments,
                next,
                g,
                i,
            ) by {
                assert(is_taken(arguments, targets, g, i));
            }
        }
    }
    match (arguments[i].name, targets[i]) {
        (None, Some(ArgumentTarget::Named(formal))) => {
            assert forall|g: int| 0 <= g < formal implies #[trigger] is_taken(
                arguments,
                next,
                g,
                i,
            ) by {
                assert(all_taken(arguments, targets, formal as int, i));
                assert(is_taken(arguments, targets, g, i));
            }
        },
        (Some(name), Some(ArgumentTarget::UnmatchedName)) => {
            assert forall|g: int|
                0 <= g < function.named.len() && (#[trigger] function.named[g]).name
                    == name implies is_taken(arguments, next, g, i) by {
                assert(is_taken(arguments, targets, g, i));
            }
        },
        _ => {},
    }
}

/// An argument that takes a fixed formal takes one that no other has.
proof fn earlier_places_differ(arguments: Seq<CallArgumentV>, i: int, j: int)
    requires
        0 <= i < j <= arguments.len(),
    ensures
        unnamed_before(arguments, i as nat) <= unnamed_before(arguments, j as nat),
        arguments[i].name is None && !arguments[i].forwards_dots ==> unnamed_before(
            arguments,
            i as nat,
        ) < unnamed_before(arguments, j as nat),
    decreases j,
{
    if i < j - 1 {
        earlier_places_differ(arguments, i, j - 1);
    }
}

proof fn places(
    function: FunctionV,
    arguments: Seq<CallArgumentV>,
    from: int,
    claimed: Seq<bool>,
    targets: TargetsV,
    next_positional: int,
    next_named: int,
)
    requires
        is_countable(function),
        placed_so_far(
            function,
            arguments,
            from,
            claimed,
            targets,
            next_positional,
            next_named,
        ),
    ensures
        ({
            let all = calls::place_rest(
                function,
                arguments,
                from,
                claimed,
                targets,
                next_positional,
                next_named,
            );
            &&& all.len() == arguments.len()
            &&& is_injective(all)
            &&& forall|i: int|
                0 <= i < arguments.len() ==> #[trigger] went_right(function, arguments, all, i)
        }),
    decreases arguments.len() - from,
{
    if from < arguments.len() {
        assert(waits(function, arguments, claimed, targets, from));
        assert(unnamed_before(arguments, (from + 1) as nat) == unnamed_before(
            arguments,
            from as nat,
        ) + if arguments[from].name is None && !arguments[from].forwards_dots {
            1int
        } else {
            0int
        });
        if arguments[from].forwards_dots || targets[from] is Some {
            assert forall|g: int| 0 <= g < claimed.len() && claimed[g] implies #[trigger] is_taken(
                arguments,
                targets,
                g,
                from + 1,
            ) by {
                assert(is_taken(arguments, targets, g, from));
            }
            places(
                function,
                arguments,
                from + 1,
                claimed,
                targets,
                next_positional,
                next_named,
            );
        } else {
            let (target, used, positional, named) = calls::place(
                function,
                arguments[from],
                claimed,
                next_positional,
                next_named,
            );
            let next = targets.update(from, Some(target));
            let reachable = calls::reachable_formals(function);
            opened(claimed, next_named, reachable);
            one_more(function, arguments, from, claimed, targets, next_positional, next_named);
            places(function, arguments, from + 1, used, next, positional, named);
        }
    }
}

proof fn one_more(
    function: FunctionV,
    arguments: Seq<CallArgumentV>,
    from: int,
    claimed: Seq<bool>,
    targets: TargetsV,
    next_positional: int,
    next_named: int,
)
    requires
        is_countable(function),
        placed_so_far(
            function,
            arguments,
            from,
            claimed,
            targets,
            next_positional,
            next_named,
        ),
        from < arguments.len(),
        !arguments[from].forwards_dots,
        targets[from] is None,
    ensures
        ({
            let (target, used, positional, named) = calls::place(
                function,
                arguments[from],
                claimed,
                next_positional,
                next_named,
            );
            placed_so_far(
                function,
                arguments,
                from + 1,
                used,
                targets.update(from, Some(target)),
                positional,
                named,
            )
        }),
{
    let (target, used, positional, named) = calls::place(
        function,
        arguments[from],
        claimed,
        next_positional,
        next_named,
    );
    let next = targets.update(from, Some(target));
    let reachable = calls::reachable_formals(function);
    let place = unnamed_before(arguments, from as nat);
    opened(claimed, next_named, reachable);
    assert(waits(function, arguments, claimed, targets, from));
    assert(unnamed_before(arguments, (from + 1) as nat) == place + if arguments[from].name is None {
        1int
    } else {
        0int
    });
    assert forall|g: int, k: int|
        #![trigger is_taken(arguments, targets, g, k)]
        k <= from + 1 && is_taken(arguments, targets, g, k) implies is_taken(
        arguments,
        next,
        g,
        from + 1,
    ) && (k <= from ==> is_taken(arguments, next, g, from)) by {
        let j = choose|j: int|
            0 <= j < targets.len() && #[trigger] targets[j] == Some(
                ArgumentTarget::Named(g as usize),
            ) && (arguments[j].name is Some || j < k);
        assert(next[j] == targets[j]);
    }
    assert forall|g: int| 0 <= g < used.len() && used[g] implies #[trigger] is_taken(
        arguments,
        next,
        g,
        from + 1,
    ) by {
        if claimed[g] {
            assert(is_taken(arguments, targets, g, from));
        } else {
            assert(next[from] == Some(ArgumentTarget::Named(g as usize)));
        }
    }
    assert forall|i: int| 0 <= i < from + 1 implies #[trigger] went_right(
        function,
        arguments,
        next,
        i,
    ) by {
        if i < from {
            assert(went_right(function, arguments, targets, i));
            still_right(function, arguments, targets, next, from, i);
        } else {
            assert forall|g: int| 0 <= g < claimed.len() && claimed[g] implies #[trigger] is_taken(
                arguments,
                next,
                g,
                from,
            ) by {
                assert(is_taken(arguments, targets, g, from));
            }
            assert(next[from] == Some(target));
            if arguments[from].name is None && place >= function.positional.len() {
                let formal = calls::open_formal(claimed, next_named, reachable);
                assert forall|g: int| 0 <= g < formal implies #[trigger] is_taken(
                    arguments,
                    next,
                    g,
                    from,
                ) by {
                    assert(claimed[g]);
                }
                assert(all_taken(arguments, next, formal, from));
            }
        }
    }
    assert forall|i: int| from + 1 <= i < arguments.len() implies #[trigger] waits(
        function,
        arguments,
        used,
        next,
        i,
    ) by {
        assert(waits(function, arguments, claimed, targets, i));
        assert(next[i] == targets[i]);
    }
    assert(is_injective(next)) by {
        assert forall|i: int, j: int|
            0 <= i < j < next.len() && #[trigger] next[i] == #[trigger] next[j] && next[i]
                is Some implies !(next[i]->0 is Named) && !(next[i]->0 is Positional) by {
            if i == from {
                assert(next[j] == targets[j]);
                assert(waits(function, arguments, claimed, targets, j));
            } else if j == from {
                assert(next[i] == targets[i]);
                if i < from {
                    assert(went_right(function, arguments, targets, i));
                    earlier_places_differ(arguments, i, from);
                }
            } else {
                assert(next[i] == targets[i] && next[j] == targets[j]);
            }
        }
    }
    assert forall|i: int|
        0 <= i < next.len() && (#[trigger] next[i]) is Some && next[i]->0 is Named implies
        next[i]->0->Named_0 < used.len() && used[next[i]->0->Named_0 as int] by {
        if i != from {
            assert(next[i] == targets[i]);
        }
    }
    assert forall|g: int| 0 <= g < named implies #[trigger] used[g] by {
        if g < next_named {
            assert(claimed[g]);
        }
    }
}

} // verus!
