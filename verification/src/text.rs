//! Text as characters.

use vstd::prelude::*;

verus! {

/// Whether two texts hold the same characters.
pub fn same_text(a: &str, b: &str) -> (r: bool)
    ensures
        r == (a@ == b@),
{
    let left = chars_of(a);
    let right = chars_of(b);
    if left.len() != right.len() {
        return false;
    }
    let mut i: usize = 0;
    while i < left.len()
        invariant
            i <= left.len(),
            left.len() == right.len(),
            left@ == a@,
            right@ == b@,
            forall|j: int| 0 <= j < i ==> a@[j] == b@[j],
        decreases left.len() - i,
    {
        if left[i] != right[i] {
            assert(a@[i as int] != b@[i as int]);
            return false;
        }
        i += 1;
    }
    assert(a@ =~= b@);
    true
}

/// Whether two strings hold the same characters.
pub fn same_string(a: &String, b: &String) -> (r: bool)
    ensures
        r == (a@ == b@),
{
    *a == *b
}

/// The characters of a string slice.
pub fn chars_of(text: &str) -> (r: Vec<char>)
    ensures
        r@ == text@,
{
    let mut out: Vec<char> = Vec::new();
    for c in iter: text.chars()
        invariant
            iter.seq() == text@,
            out@ == text@.subrange(0, iter.index() as int),
    {
        out.push(c);
    }
    out
}

/// A string that holds the given characters.
pub fn string_of(chars: &Vec<char>) -> (r: String)
    ensures
        r@ == chars@,
{
    let mut out = String::new();
    let mut i: usize = 0;
    while i < chars.len()
        invariant
            i <= chars.len(),
            out@ =~= chars@.subrange(0, i as int),
        decreases chars.len() - i,
    {
        push_char(&mut out, chars[i]);
        i += 1;
    }
    out
}

/// The characters from one place up to another.
pub fn slice_of(chars: &Vec<char>, from: usize, to: usize) -> (r: Vec<char>)
    requires
        from <= to <= chars@.len(),
    ensures
        r@ == chars@.subrange(from as int, to as int),
{
    let mut out: Vec<char> = Vec::new();
    let mut i: usize = from;
    while i < to
        invariant
            from <= i <= to <= chars@.len(),
            out@ =~= chars@.subrange(from as int, i as int),
        decreases to - i,
    {
        out.push(chars[i]);
        i += 1;
    }
    out
}

/// A text with another between two more.
pub fn around(before: &str, middle: &str, after: &str) -> (r: String)
    ensures
        r@ == before@ + middle@ + after@,
{
    let mut chars = chars_of(before);
    let mut inner = chars_of(middle);
    let mut last = chars_of(after);
    chars.append(&mut inner);
    chars.append(&mut last);
    string_of(&chars)
}

/// Classes of characters that are trimmed off a text.
#[derive(Debug, Clone, Copy, PartialEq, Eq, Structural)]
pub enum CharClass {
    /// `"` and `'`.
    Quote,
    /// White space, line ends among it.
    Space,
}

/// The characters with Unicode's `White_Space` property.
pub open spec fn is_white_space(c: char) -> bool {
    ||| '\u{9}' <= c <= '\u{d}'
    ||| c == ' '
    ||| c == '\u{85}'
    ||| c == '\u{a0}'
    ||| c == '\u{1680}'
    ||| '\u{2000}' <= c <= '\u{200a}'
    ||| c == '\u{2028}'
    ||| c == '\u{2029}'
    ||| c == '\u{202f}'
    ||| c == '\u{205f}'
    ||| c == '\u{3000}'
}

impl CharClass {
    pub open spec fn has(self, c: char) -> bool {
        match self {
            CharClass::Quote => c == '"' || c == '\'',
            CharClass::Space => is_white_space(c),
        }
    }

    pub fn holds(self, c: char) -> (r: bool)
        ensures
            r == self.has(c),
    {
        match self {
            CharClass::Quote => c == '"' || c == '\'',
            CharClass::Space => ('\u{9}' <= c && c <= '\u{d}') || c == ' ' || c == '\u{85}' || c
                == '\u{a0}' || c == '\u{1680}' || ('\u{2000}' <= c && c <= '\u{200a}') || c
                == '\u{2028}' || c == '\u{2029}' || c == '\u{202f}' || c == '\u{205f}' || c
                == '\u{3000}',
        }
    }
}

/// The first place from one on whose character is outside a class.
pub open spec fn first_outside(text: Seq<char>, class: CharClass, from: int) -> int
    decreases text.len() - from,
{
    if 0 <= from < text.len() && class.has(text[from]) {
        first_outside(text, class, from + 1)
    } else {
        from
    }
}

/// The place after the last character before one that is outside a class.
pub open spec fn last_outside(text: Seq<char>, class: CharClass, upto: int) -> int
    decreases upto,
{
    if 0 < upto <= text.len() && class.has(text[upto - 1]) {
        last_outside(text, class, upto - 1)
    } else {
        upto
    }
}

/// A text without the characters of a class at its ends.
pub open spec fn trimmed(text: Seq<char>, class: CharClass) -> Seq<char> {
    let from = first_outside(text, class, 0);
    let to = last_outside(text, class, text.len() as int);
    if from < to {
        text.subrange(from, to)
    } else {
        Seq::empty()
    }
}

pub fn trim(chars: &Vec<char>, class: CharClass) -> (r: Vec<char>)
    ensures
        r@ == trimmed(chars@, class),
{
    let mut from: usize = 0;
    while from < chars.len() && class.holds(chars[from])
        invariant
            from <= chars@.len(),
            first_outside(chars@, class, from as int) == first_outside(chars@, class, 0),
        decreases chars.len() - from,
    {
        from += 1;
    }
    let mut to: usize = chars.len();
    while to > 0 && class.holds(chars[to - 1])
        invariant
            to <= chars@.len(),
            last_outside(chars@, class, to as int) == last_outside(
                chars@,
                class,
                chars@.len() as int,
            ),
        decreases to,
    {
        to -= 1;
    }
    if from < to {
        slice_of(chars, from, to)
    } else {
        Vec::new()
    }
}

/// Whether a text ends with another.
pub open spec fn ends_with(text: Seq<char>, end: Seq<char>) -> bool {
    text.len() >= end.len() && text.subrange(text.len() - end.len(), text.len() as int) == end
}

pub fn has_suffix(text: &Vec<char>, end: &Vec<char>) -> (r: bool)
    ensures
        r == ends_with(text@, end@),
{
    if text.len() < end.len() {
        return false;
    }
    let count: usize = text.len();
    let start: usize = count - end.len();
    let ghost tail = text@.subrange(start as int, text@.len() as int);
    let mut i: usize = 0;
    while i < end.len()
        invariant
            i <= end@.len(),
            start + end@.len() == count,
            count == text@.len(),
            tail == text@.subrange(start as int, text@.len() as int),
            forall|k: int| 0 <= k < i ==> tail[k] == #[trigger] end@[k],
        decreases end.len() - i,
    {
        assert(tail[i as int] == text@[start + i]);
        if text[start + i] != end[i] {
            return false;
        }
        i += 1;
    }
    assert(tail =~= end@);
    true
}

/// `String::push`: appends one character.
#[verifier::external_body]
fn push_char(text: &mut String, c: char)
    ensures
        final(text)@ == old(text)@.push(c),
{
    text.push(c);
}

} // verus!
