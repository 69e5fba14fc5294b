//! How texts and names are written: the laws of raw strings and of naming styles.

use vstd::prelude::*;

use crate::casing::{self, CasedV};
use crate::literals;
use crate::text;

verus! {

proof fn dashes_are_counted(text: Seq<char>, from: int, upto: int)
    requires
        0 <= from <= upto < text.len(),
        forall|i: int| from <= i < upto ==> #[trigger] text[i] == '-',
        text[upto] != '-',
    ensures
        literals::dashes_from(text, from) == upto - from,
    decreases upto - from,
{
    if from < upto {
        dashes_are_counted(text, from + 1, upto);
    }
}

/// A raw string holds what stands between its brackets, as it is written: any
/// quote, any backslash, and any bracket that the closing one does not follow.
pub proof fn a_raw_string_holds_what_it_encloses(
    letter: char,
    quote: char,
    dashes: nat,
    open: char,
    body: Seq<char>,
)
    requires
        letter == 'r' || letter == 'R',
        open == '(' || open == '[' || open == '{',
    ensures
        ({
            let closes = if open == '(' {
                ')'
            } else if open == '[' {
                ']'
            } else {
                '}'
            };
            let fence = Seq::new(dashes, |i: int| '-');
            literals::literal_text(
                seq![letter, quote] + fence + seq![open] + body + seq![closes] + fence
                    + seq![quote],
            ) == body
        }),
{
    let closes = if open == '(' {
        ')'
    } else if open == '[' {
        ']'
    } else {
        '}'
    };
    let fence = Seq::new(dashes, |i: int| '-');
    let closer = seq![closes] + fence + seq![quote];
    let inner = fence + seq![open] + body + closer;
    let whole = seq![letter, quote] + fence + seq![open] + body + seq![closes] + fence
        + seq![quote];
    assert(whole.subrange(2, whole.len() as int) =~= inner);
    assert(inner[dashes as int] == open);
    dashes_are_counted(inner, 0, dashes as int);
    let rest = inner.subrange(dashes as int + 1, inner.len() as int);
    assert(rest =~= body + closer);
    assert(literals::raw_closer(open, dashes, quote) =~= closer);
    assert(rest.subrange(rest.len() - closer.len(), rest.len() as int) =~= closer);
    assert(text::ends_with(rest, closer));
    assert(rest.subrange(0, rest.len() - closer.len()) =~= body);
    assert(literals::raw_body(inner, quote) == Some(body));
    assert(whole[0] == letter && whole[1] == quote);
}

/// A plain string holds what stands between its quotes.
pub proof fn a_string_holds_what_it_quotes(quote: char, body: Seq<char>)
    requires
        quote == '"' || quote == '\'',
    ensures
        literals::literal_text(seq![quote] + body + seq![quote]) == body,
{
    let whole = seq![quote] + body + seq![quote];
    assert(whole[0] == quote && whole[whole.len() - 1] == quote);
    assert(whole.subrange(1, whole.len() - 1) =~= body);
}

proof fn camels_grow(name: Seq<CasedV>, from: int, raised: bool, done: Seq<char>, next: CasedV)
    requires
        0 <= from <= name.len(),
    ensures
        ({
            let before = casing::camel_from(name, from, raised, done);
            let after = casing::camel_from(name.push(next), from, raised, done);
            let up = if from < name.len() {
                name.last().character == '_'
            } else {
                raised
            };
            after == if next.character == '_' {
                before
            } else if up {
                before + next.upper
            } else {
                before.push(next.character)
            }
        }),
    decreases name.len() - from,
{
    let longer = name.push(next);
    if from < name.len() {
        assert(longer[from] == name[from]);
        if name[from].character == '_' {
            camels_grow(name, from + 1, true, done, next);
        } else if raised {
            camels_grow(name, from + 1, false, done + name[from].upper, next);
        } else {
            camels_grow(name, from + 1, false, done.push(name[from].character), next);
        }
    } else {
        assert(longer[from] == next);
        reveal_with_fuel(casing::camel_from, 3);
    }
}

/// The camel-case spelling of a name drops its underscores and raises the letter
/// behind each; every other character stays.
pub proof fn camel_case_raises_behind_an_underscore(name: Seq<CasedV>, next: CasedV)
    requires
        name.len() > 0,
    ensures
        next.character == '_' ==> casing::camel(name.push(next)) == casing::camel(name),
        next.character != '_' && name.len() > 1 && name.last().character == '_' ==> casing::camel(
            name.push(next),
        ) == casing::camel(name) + next.upper,
        next.character != '_' && (name.len() == 1 || name.last().character != '_')
            ==> casing::camel(name.push(next)) == casing::camel(name).push(next.character),
        name.len() == 1 ==> casing::camel(name) == seq![name[0].character],
{
    camels_grow(name, 1, false, seq![name[0].character], next);
    assert(name.push(next)[0] == name[0]);
}

proof fn snakes_agree(name: Seq<CasedV>, next: CasedV, upto: nat)
    requires
        upto <= name.len(),
    ensures
        casing::snake_upto(name.push(next), upto) == casing::snake_upto(name, upto),
    decreases upto,
{
    if upto > 0 {
        snakes_agree(name, next, (upto - 1) as nat);
        assert(name.push(next)[upto - 1] == name[upto - 1]);
        if upto > 1 {
            assert(name.push(next)[upto - 2] == name[upto - 2]);
        }
    }
}

/// The snake-case spelling of a name lowers every upper-case letter, and sets it
/// off by one underscore; every other character stays.
pub proof fn snake_case_lowers_behind_an_underscore(name: Seq<CasedV>, next: CasedV)
    ensures
        !next.uppercase ==> casing::snake(name.push(next)) == casing::snake(name).push(
            next.character,
        ),
        next.uppercase && name.len() > 0 && name.last().character != '_' ==> casing::snake(
            name.push(next),
        ) == casing::snake(name).push('_') + next.lower,
        next.uppercase && (name.len() == 0 || name.last().character == '_') ==> casing::snake(
            name.push(next),
        ) == casing::snake(name) + next.lower,
        casing::snake(Seq::empty()) == Seq::<char>::empty(),
{
    let longer = name.push(next);
    snakes_agree(name, next, name.len());
    assert(longer[longer.len() - 1] == next);
    if name.len() > 0 {
        assert(longer[longer.len() - 2] == name.last());
    }
}

} // verus!
