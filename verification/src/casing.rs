//! Name styles.

use vstd::prelude::*;

use crate::text::{around, chars_of, same_text, string_of};
use crate::types;

verus! {

/// Whether a character is uppercase, by Unicode's `Uppercase` property.
pub uninterp spec fn uppercase_char(c: char) -> bool;

/// Whether a character is numeric, by its Unicode category.
pub uninterp spec fn numeric_char(c: char) -> bool;

/// The uppercase of a character.
pub uninterp spec fn uppercased(c: char) -> Seq<char>;

/// The lowercase of a character.
pub uninterp spec fn lowercased(c: char) -> Seq<char>;

/// `char::is_uppercase`: whether the character is uppercase.
#[verifier::external_body]
fn is_uppercase(c: char) -> (r: bool)
    ensures
        r == uppercase_char(c),
{
    c.is_uppercase()
}

/// `char::is_numeric`: whether the character is numeric.
#[verifier::external_body]
fn is_numeric(c: char) -> (r: bool)
    ensures
        r == numeric_char(c),
{
    c.is_numeric()
}

/// `char::to_uppercase`: the characters of the uppercase.
#[verifier::external_body]
fn to_uppercase(c: char) -> (r: Vec<char>)
    ensures
        r@ == uppercased(c),
{
    c.to_uppercase().collect()
}

/// `char::to_lowercase`: the characters of the lowercase.
#[verifier::external_body]
fn to_lowercase(c: char) -> (r: Vec<char>)
    ensures
        r@ == lowercased(c),
{
    c.to_lowercase().collect()
}

/// A character and its cases.
#[derive(Debug, PartialEq, Eq)]
pub struct CasedChar {
    pub character: char,
    pub uppercase: bool,
    pub numeric: bool,
    pub upper: Vec<char>,
    pub lower: Vec<char>,
}

/// The model of a character and its cases.
pub struct CasedV {
    pub character: char,
    pub uppercase: bool,
    pub numeric: bool,
    pub upper: Seq<char>,
    pub lower: Seq<char>,
}

impl CasedChar {
    pub open spec fn view(&self) -> CasedV {
        CasedV {
            character: self.character,
            uppercase: self.uppercase,
            numeric: self.numeric,
            upper: self.upper@,
            lower: self.lower@,
        }
    }
}

pub open spec fn cased_view(cased: Seq<CasedChar>) -> Seq<CasedV> {
    Seq::new(cased.len(), |i: int| cased[i]@)
}

/// A character with the cases Unicode gives it.
pub open spec fn cased(c: char) -> CasedV {
    CasedV {
        character: c,
        uppercase: uppercase_char(c),
        numeric: numeric_char(c),
        upper: uppercased(c),
        lower: lowercased(c),
    }
}

/// A name with the cases of its characters.
pub open spec fn cased_name(name: Seq<char>) -> Seq<CasedV> {
    Seq::new(name.len(), |i: int| cased(name[i]))
}

/// The characters of a name.
pub open spec fn spelled(name: Seq<CasedV>) -> Seq<char> {
    Seq::new(name.len(), |i: int| name[i].character)
}

fn cases_of_char(c: char) -> (r: CasedChar)
    ensures
        r@ == cased(c),
{
    CasedChar {
        character: c,
        uppercase: is_uppercase(c),
        numeric: is_numeric(c),
        upper: to_uppercase(c),
        lower: to_lowercase(c),
    }
}

/// A name with the cases of its characters.
pub fn cases_of(name: &str) -> (r: Vec<CasedChar>)
    ensures
        cased_view(r@) == cased_name(name@),
{
    let chars = chars_of(name);
    let mut out: Vec<CasedChar> = Vec::new();
    let mut i: usize = 0;
    while i < chars.len()
        invariant
            i <= chars@.len(),
            chars@ == name@,
            cased_view(out@) =~= cased_name(name@).subrange(0, i as int),
        decreases chars.len() - i,
    {
        let c = chars[i];
        let one = cases_of_char(c);
        let ghost before = cased_view(out@);
        out.push(one);
        assert(cased_view(out@) =~= before.push(cased(c)));
        assert(cased_name(name@)[i as int] == cased(c));
        i += 1;
    }
    assert(cased_view(out@) =~= cased_name(name@));
    out
}

pub open spec fn is_ascii_upper(c: char) -> bool {
    'A' <= c <= 'Z'
}

/// Whether a name is written as a constant: capitals, digits and `_`, at least
/// one capital among them.
pub open spec fn is_constant_name(name: Seq<CasedV>) -> bool {
    &&& forall|i: int|
        0 <= i < name.len() ==> is_ascii_upper((#[trigger] name[i]).character)
            || name[i].character == '_' || name[i].numeric
    &&& exists|i: int| 0 <= i < name.len() && is_ascii_upper((#[trigger] name[i]).character)
}

fn written_as_constant(name: &Vec<CasedChar>) -> (r: bool)
    ensures
        r == is_constant_name(cased_view(name@)),
{
    let ghost model = cased_view(name@);
    let mut capital = false;
    let mut i: usize = 0;
    while i < name.len()
        invariant
            i <= name@.len(),
            model == cased_view(name@),
            forall|k: int|
                0 <= k < i ==> is_ascii_upper((#[trigger] model[k]).character)
                    || model[k].character == '_' || model[k].numeric,
            capital == exists|k: int|
                0 <= k < i && is_ascii_upper((#[trigger] model[k]).character),
        decreases name.len() - i,
    {
        let c = name[i].character;
        assert(model[i as int] == name@[i as int]@);
        let upper = 'A' <= c && c <= 'Z';
        if !upper && c != '_' && !name[i].numeric {
            return false;
        }
        if upper {
            assert(is_ascii_upper(model[i as int].character));
            capital = true;
        }
        i += 1;
    }
    capital
}

/// The camel case of a name from a character on: `_` goes, and the next
/// character is uppercase.
pub open spec fn camel_from(name: Seq<CasedV>, from: int, raised: bool, done: Seq<char>) -> Seq<char>
    decreases name.len() - from,
{
    if 0 <= from < name.len() {
        if name[from].character == '_' {
            camel_from(name, from + 1, true, done)
        } else if raised {
            camel_from(name, from + 1, false, done + name[from].upper)
        } else {
            camel_from(name, from + 1, false, done.push(name[from].character))
        }
    } else {
        done
    }
}

/// The camel case of a name. The first character stays as it is.
pub open spec fn camel(name: Seq<CasedV>) -> Seq<char> {
    if name.len() == 0 {
        Seq::empty()
    } else {
        camel_from(name, 1, false, seq![name[0].character])
    }
}

/// The camel case of a name.
pub fn to_camel_case(name: &Vec<CasedChar>) -> (r: String)
    ensures
        r@ == camel(cased_view(name@)),
{
    let ghost model = cased_view(name@);
    let mut out: Vec<char> = Vec::new();
    if name.len() == 0 {
        return string_of(&out);
    }
    out.push(name[0].character);
    assert(out@ =~= seq![model[0].character]);
    let mut raised = false;
    let mut i: usize = 1;
    while i < name.len()
        invariant
            1 <= i <= name@.len(),
            model == cased_view(name@),
            camel_from(model, i as int, raised, out@) == camel(model),
        decreases name.len() - i,
    {
        let c = name[i].character;
        assert(model[i as int] == name@[i as int]@);
        if c == '_' {
            raised = true;
        } else if raised {
            raised = false;
            push_all(&mut out, &name[i].upper);
        } else {
            out.push(c);
        }
        i += 1;
    }
    string_of(&out)
}

fn push_all(out: &mut Vec<char>, chars: &Vec<char>)
    ensures
        final(out)@ == old(out)@ + chars@,
{
    let ghost start = out@;
    let mut i: usize = 0;
    while i < chars.len()
        invariant
            i <= chars@.len(),
            out@ =~= start + chars@.subrange(0, i as int),
        decreases chars.len() - i,
    {
        out.push(chars[i]);
        i += 1;
    }
    assert(chars@.subrange(0, chars@.len() as int) =~= chars@);
}

/// The snake case of the first characters of a name: an uppercase character
/// becomes lowercase behind a `_`, unless it comes first or after a `_`.
pub open spec fn snake_upto(name: Seq<CasedV>, upto: nat) -> Seq<char>
    decreases upto,
{
    if upto == 0 || upto > name.len() {
        Seq::empty()
    } else {
        let before = snake_upto(name, (upto - 1) as nat);
        let own = name[upto - 1];
        if !own.uppercase {
            before.push(own.character)
        } else if upto > 1 && name[upto - 2].character != '_' {
            before.push('_') + own.lower
        } else {
            before + own.lower
        }
    }
}

pub open spec fn snake(name: Seq<CasedV>) -> Seq<char> {
    snake_upto(name, name.len())
}

/// The snake case of a name.
pub fn to_snake_case(name: &Vec<CasedChar>) -> (r: String)
    ensures
        r@ == snake(cased_view(name@)),
{
    let ghost model = cased_view(name@);
    let mut out: Vec<char> = Vec::new();
    assert(out@ =~= snake_upto(model, 0));
    let mut i: usize = 0;
    while i < name.len()
        invariant
            i <= name@.len(),
            model == cased_view(name@),
            out@ == snake_upto(model, i as nat),
        decreases name.len() - i,
    {
        assert(model[i as int] == name@[i as int]@);
        if name[i].uppercase {
            if i != 0 {
                assert(model[i - 1] == name@[i - 1]@);
                if name[i - 1].character != '_' {
                    out.push('_');
                }
            }
            push_all(&mut out, &name[i].lower);
        } else {
            out.push(name[i].character);
        }
        i += 1;
    }
    string_of(&out)
}

/// The configured spelling of names.
#[derive(Debug, Clone, Copy, PartialEq, Eq, Structural)]
pub enum NameStyle {
    Camel,
    Snake,
}

pub open spec fn styled(name: Seq<CasedV>, style: NameStyle) -> Seq<char> {
    match style {
        NameStyle::Camel => camel(name),
        NameStyle::Snake => snake(name),
    }
}

/// What is wrong with a name's style. A constant's spelling conforms to every
/// style.
pub open spec fn style_complaint(name: Seq<CasedV>, style: NameStyle, subject: Seq<char>) -> Option<
    Seq<char>,
> {
    if is_constant_name(name) || spelled(name) == styled(name, style) {
        None
    } else {
        Some(
            subject + " `"@ + (spelled(name) + "` should have "@ + (match style {
                NameStyle::Camel => "camelCase"@,
                NameStyle::Snake => "snake_case"@,
            } + " name, e.g. "@ + styled(name, style))),
        )
    }
}

/// What is wrong with the style of a name whose cases are known.
pub fn complain(name: &Vec<CasedChar>, style: NameStyle, subject: &str) -> (r: Option<String>)
    ensures
        types::opt_text(r) == style_complaint(cased_view(name@), style, subject@),
{
    if written_as_constant(name) {
        return None;
    }
    let mut chars: Vec<char> = Vec::new();
    let mut i: usize = 0;
    while i < name.len()
        invariant
            i <= name@.len(),
            chars@ =~= spelled(cased_view(name@)).subrange(0, i as int),
        decreases name.len() - i,
    {
        chars.push(name[i].character);
        i += 1;
    }
    let actual = string_of(&chars);
    assert(actual@ =~= spelled(cased_view(name@)));
    let expected = match style {
        NameStyle::Camel => to_camel_case(name),
        NameStyle::Snake => to_snake_case(name),
    };
    if same_text(actual.as_str(), expected.as_str()) {
        return None;
    }
    let spelling = match style {
        NameStyle::Camel => "camelCase",
        NameStyle::Snake => "snake_case",
    };
    let wanted = around(spelling, " name, e.g. ", expected.as_str());
    let about = around(actual.as_str(), "` should have ", wanted.as_str());
    Some(around(subject, " `", about.as_str()))
}

/// What is wrong with a name's style.
pub fn naming_style_message(actual: &str, style: NameStyle, subject: &str) -> (r: Option<String>)
    ensures
        types::opt_text(r) == style_complaint(cased_name(actual@), style, subject@),
{
    let name = cases_of(actual);
    complain(&name, style, subject)
}

pub open spec fn is_ascii_lower(c: char) -> bool {
    'a' <= c <= 'z'
}

/// Whether a character is an ASCII one with the cases that such a character has.
pub open spec fn is_ascii_cased(c: CasedV) -> bool {
    &&& c.character <= '\u{7f}'
    &&& c.uppercase == is_ascii_upper(c.character)
    &&& c.numeric == ('0' <= c.character <= '9')
    &&& c.upper.len() == 1
    &&& c.upper[0] as int == if is_ascii_lower(c.character) {
        c.character as int - 32
    } else {
        c.character as int
    }
    &&& c.lower.len() == 1
    &&& c.lower[0] as int == if is_ascii_upper(c.character) {
        c.character as int + 32
    } else {
        c.character as int
    }
}

/// Whether every character of a name is an ASCII one with its cases.
pub open spec fn is_ascii_name(name: Seq<CasedV>) -> bool {
    forall|i: int| 0 <= i < name.len() ==> is_ascii_cased(#[trigger] name[i])
}

/// A complaint ends with the advised name, which differs from the name.
pub proof fn a_complaint_ends_with_the_advice(
    name: Seq<CasedV>,
    style: NameStyle,
    subject: Seq<char>,
)
    requires
        style_complaint(name, style, subject) is Some,
    ensures
        crate::text::ends_with(style_complaint(name, style, subject)->0, styled(name, style)),
        styled(name, style) != spelled(name),
{
    let message = style_complaint(name, style, subject)->0;
    let advice = styled(name, style);
    assert(message.subrange(message.len() - advice.len(), message.len() as int) =~= advice);
}

/// A name of capitals, digits and `_` with a capital among them is left alone
/// under both styles.
pub proof fn constants_are_left_alone(name: Seq<CasedV>, style: NameStyle, subject: Seq<char>)
    requires
        is_ascii_name(name),
        forall|i: int|
            0 <= i < name.len() ==> is_ascii_upper((#[trigger] name[i]).character) || '0'
                <= name[i].character <= '9' || name[i].character == '_',
        exists|i: int| 0 <= i < name.len() && is_ascii_upper((#[trigger] name[i]).character),
    ensures
        style_complaint(name, style, subject) is None,
{
    assert forall|i: int| 0 <= i < name.len() implies is_ascii_upper((#[trigger] name[i]).character)
        || name[i].character == '_' || name[i].numeric by {
        assert(is_ascii_cased(name[i]));
    }
}

/// Snake case holds no capital.
proof fn snakes_hold_no_capital(name: Seq<CasedV>, upto: nat)
    requires
        is_ascii_name(name),
    ensures
        forall|i: int|
            0 <= i < snake_upto(name, upto).len() ==> !is_ascii_upper(
                #[trigger] snake_upto(name, upto)[i],
            ),
    decreases upto,
{
    if 0 < upto <= name.len() {
        snakes_hold_no_capital(name, (upto - 1) as nat);
        let before = snake_upto(name, (upto - 1) as nat);
        let all = snake_upto(name, upto);
        assert(is_ascii_cased(name[upto - 1]));
        assert forall|i: int| 0 <= i < all.len() implies !is_ascii_upper(#[trigger] all[i]) by {
            if i < before.len() {
                assert(all[i] == before[i]);
            }
        }
    }
}

/// A name without capitals is its own snake case.
proof fn snakes_stay(name: Seq<CasedV>, upto: nat)
    requires
        upto <= name.len(),
        forall|i: int| 0 <= i < name.len() ==> !(#[trigger] name[i]).uppercase,
    ensures
        snake_upto(name, upto) == spelled(name).subrange(0, upto as int),
    decreases upto,
{
    if upto > 0 {
        snakes_stay(name, (upto - 1) as nat);
        assert(spelled(name).subrange(0, upto as int) =~= spelled(name).subrange(
            0,
            upto - 1,
        ).push(name[upto - 1].character));
    } else {
        assert(spelled(name).subrange(0, 0) =~= Seq::empty());
    }
}

/// Camel case holds no `_` behind its first character.
proof fn camels_hold_no_underscore(name: Seq<CasedV>, from: int, raised: bool, done: Seq<char>)
    requires
        is_ascii_name(name),
        0 <= from,
        done.len() > 0,
        forall|i: int| 1 <= i < done.len() ==> #[trigger] done[i] != '_',
    ensures
        camel_from(name, from, raised, done).len() > 0,
        forall|i: int|
            1 <= i < camel_from(name, from, raised, done).len() ==> #[trigger] camel_from(
                name,
                from,
                raised,
                done,
            )[i] != '_',
    decreases name.len() - from,
{
    if from < name.len() {
        let own = name[from];
        assert(is_ascii_cased(own));
        if own.character == '_' {
            camels_hold_no_underscore(name, from + 1, true, done);
        } else if raised {
            camels_hold_no_underscore(name, from + 1, false, done + own.upper);
        } else {
            camels_hold_no_underscore(name, from + 1, false, done.push(own.character));
        }
    }
}

/// A name without `_` behind its first character is its own camel case.
proof fn camels_stay(name: Seq<CasedV>, from: int)
    requires
        1 <= from <= name.len(),
        forall|i: int| 1 <= i < name.len() ==> (#[trigger] name[i]).character != '_',
    ensures
        camel_from(name, from, false, spelled(name).subrange(0, from)) == spelled(name),
    decreases name.len() - from,
{
    if from < name.len() {
        assert(spelled(name).subrange(0, from).push(name[from].character) =~= spelled(
            name,
        ).subrange(0, from + 1));
        camels_stay(name, from + 1);
    } else {
        assert(spelled(name).subrange(0, from) =~= spelled(name));
    }
}

/// Taking the advice ends the finding: the advised spelling of an ASCII name is
/// not complained of.
pub proof fn taking_the_advice_ends_the_finding(
    name: Seq<CasedV>,
    advised: Seq<CasedV>,
    style: NameStyle,
    subject: Seq<char>,
)
    requires
        is_ascii_name(name),
        is_ascii_name(advised),
        spelled(advised) == styled(name, style),
    ensures
        style_complaint(advised, style, subject) is None,
{
    match style {
        NameStyle::Snake => {
            snakes_hold_no_capital(name, name.len());
            assert forall|i: int| 0 <= i < advised.len() implies !(#[trigger] advised[i]).uppercase by {
                assert(is_ascii_cased(advised[i]));
                assert(spelled(advised)[i] == snake_upto(name, name.len())[i]);
            }
            snakes_stay(advised, advised.len());
            assert(spelled(advised).subrange(0, advised.len() as int) =~= spelled(advised));
        },
        NameStyle::Camel => {
            if name.len() == 0 {
                assert(spelled(advised).len() == 0);
                assert(camel(advised) =~= spelled(advised));
            } else {
                camels_hold_no_underscore(name, 1, false, seq![name[0].character]);
                assert forall|i: int| 1 <= i < advised.len() implies (
                #[trigger] advised[i]).character != '_' by {
                    assert(spelled(advised)[i] == camel(name)[i]);
                }
                assert(spelled(advised).len() > 0);
                camels_stay(advised, 1);
                assert(spelled(advised).subrange(0, 1) =~= seq![advised[0].character]);
            }
        },
    }
}

} // verus!
