//! What tokens spell: literal values, names and ranges.

use vstd::prelude::*;

use crate::hir::{BinaryOperator, LiteralKind, NaAtom, UnaryOperator};
use crate::syntax;
use crate::syntax::{SyntaxElement, SyntaxKind, SyntaxNode, SyntaxToken, TextRange};
use crate::text;
use crate::text::{chars_of, has_suffix, slice_of, string_of, trim, CharClass};
use crate::types;

verus! {

/// The model of a literal.
pub enum LiteralV {
    Integer(Seq<char>),
    Double(Seq<char>),
    Complex,
    String(Seq<char>),
    Logical(bool),
    Null,
    Na(NaAtom),
    Inf,
    NaN,
}

impl LiteralKind {
    pub open spec fn view(&self) -> LiteralV {
        match self {
            LiteralKind::Integer(text) => LiteralV::Integer(text@),
            LiteralKind::Double(text) => LiteralV::Double(text@),
            LiteralKind::Complex => LiteralV::Complex,
            LiteralKind::String(text) => LiteralV::String(text@),
            LiteralKind::Logical(value) => LiteralV::Logical(*value),
            LiteralKind::Null => LiteralV::Null,
            LiteralKind::Na(atom) => LiteralV::Na(*atom),
            LiteralKind::Inf => LiteralV::Inf,
            LiteralKind::NaN => LiteralV::NaN,
        }
    }
}

/// How many dashes a text has from a place on.
pub open spec fn dashes_from(text: Seq<char>, from: int) -> nat
    decreases text.len() - from,
{
    if 0 <= from < text.len() && text[from] == '-' {
        1 + dashes_from(text, from + 1)
    } else {
        0
    }
}

/// What ends the body of a raw string.
pub open spec fn raw_closer(open: char, dashes: nat, quote: char) -> Seq<char> {
    seq![
        if open == '(' {
            ')'
        } else if open == '[' {
            ']'
        } else {
            '}'
        },
    ] + Seq::new(dashes, |i: int| '-') + seq![quote]
}

/// The content of a raw string after its quote: between its delimiters, where
/// it has any.
pub open spec fn raw_body(inner: Seq<char>, quote: char) -> Option<Seq<char>> {
    let dashes = dashes_from(inner, 0);
    if dashes < inner.len() {
        let body = inner.subrange(dashes as int + 1, inner.len() as int);
        let closer = raw_closer(inner[dashes as int], dashes, quote);
        if text::ends_with(body, closer) {
            Some(body.subrange(0, body.len() - closer.len()))
        } else {
            Some(body)
        }
    } else {
        None
    }
}

/// Whether a text begins and ends with the same quote.
pub open spec fn is_quoted(text: Seq<char>) -> bool {
    text.len() >= 2 && CharClass::Quote.has(text[0]) && text[text.len() - 1] == text[0]
}

/// The value of a string literal: the text between its quotes. Escapes stay as
/// they are written; a raw string loses its whole delimiters. Of a text that its
/// own quotes do not enclose, the quotes at its ends fall off.
pub open spec fn literal_text(text: Seq<char>) -> Seq<char> {
    if text.len() > 0 && (text[0] == 'r' || text[0] == 'R') {
        if text.len() == 1 {
            text
        } else {
            match raw_body(text.subrange(2, text.len() as int), text[1]) {
                Some(body) => body,
                None => text,
            }
        }
    } else if is_quoted(text) {
        text.subrange(1, text.len() - 1)
    } else {
        text::trimmed(text, CharClass::Quote)
    }
}

fn count_dashes(text: &Vec<char>) -> (r: usize)
    ensures
        r == dashes_from(text@, 0),
        r <= text@.len(),
{
    let mut n: usize = 0;
    while n < text.len() && text[n] == '-'
        invariant
            n <= text@.len(),
            n + dashes_from(text@, n as int) == dashes_from(text@, 0),
        decreases text.len() - n,
    {
        n += 1;
    }
    n
}

fn closer_of(open: char, dashes: usize, quote: char) -> (r: Vec<char>)
    ensures
        r@ == raw_closer(open, dashes as nat, quote),
{
    let mut closer: Vec<char> = Vec::new();
    closer.push(
        if open == '(' {
            ')'
        } else if open == '[' {
            ']'
        } else {
            '}'
        },
    );
    let ghost first = closer@;
    let mut i: usize = 0;
    while i < dashes
        invariant
            i <= dashes,
            closer@ =~= first + Seq::new(i as nat, |k: int| '-'),
        decreases dashes - i,
    {
        closer.push('-');
        i += 1;
    }
    closer.push(quote);
    assert(closer@ =~= raw_closer(open, dashes as nat, quote));
    closer
}

/// The value of a string literal.
pub fn string_value(text: &str) -> (r: String)
    ensures
        r@ == literal_text(text@),
{
    let chars = chars_of(text);
    let n: usize = chars.len();
    if n > 0 && (chars[0] == 'r' || chars[0] == 'R') {
        if n == 1 {
            return string_of(&chars);
        }
        let quote = chars[1];
        let inner = slice_of(&chars, 2, n);
        let dashes: usize = count_dashes(&inner);
        if dashes >= inner.len() {
            return string_of(&chars);
        }
        let body = slice_of(&inner, dashes + 1, inner.len());
        let closer = closer_of(inner[dashes], dashes, quote);
        if has_suffix(&body, &closer) {
            let content = slice_of(&body, 0, body.len() - closer.len());
            string_of(&content)
        } else {
            string_of(&body)
        }
    } else if n >= 2 && CharClass::Quote.holds(chars[0]) && chars[n - 1] == chars[0] {
        let content = slice_of(&chars, 1, n - 1);
        string_of(&content)
    } else {
        let content = trim(&chars, CharClass::Quote);
        string_of(&content)
    }
}

/// The literal a token spells.
pub open spec fn token_literal(token: SyntaxToken) -> LiteralV {
    match token.kind {
        SyntaxKind::Integer => LiteralV::Integer(token.text@),
        SyntaxKind::Double => LiteralV::Double(token.text@),
        SyntaxKind::Complex => LiteralV::Complex,
        SyntaxKind::StringLiteral => LiteralV::String(literal_text(token.text@)),
        SyntaxKind::RawString => LiteralV::String(literal_text(token.text@)),
        SyntaxKind::TrueKw => LiteralV::Logical(true),
        SyntaxKind::FalseKw => LiteralV::Logical(false),
        SyntaxKind::NullKw => LiteralV::Null,
        SyntaxKind::InfKw => LiteralV::Inf,
        SyntaxKind::NanKw => LiteralV::NaN,
        SyntaxKind::NaIntegerKw => LiteralV::Na(NaAtom::Integer),
        SyntaxKind::NaRealKw => LiteralV::Na(NaAtom::Double),
        SyntaxKind::NaComplexKw => LiteralV::Na(NaAtom::Complex),
        SyntaxKind::NaCharacterKw => LiteralV::Na(NaAtom::Character),
        _ => LiteralV::Na(NaAtom::Logical),
    }
}

/// The literal of a literal node.
pub open spec fn literal_of(node: SyntaxNode) -> LiteralV {
    match node.opening() {
        Some(token) => token_literal(token),
        None => LiteralV::Null,
    }
}

/// What a literal node denotes.
pub fn literal_kind(node: &SyntaxNode) -> (r: LiteralKind)
    ensures
        r@ == literal_of(*node),
{
    let token = match node.first_token() {
        Some(token) => token,
        None => {
            return LiteralKind::Null;
        },
    };
    match token.kind {
        SyntaxKind::Integer => LiteralKind::Integer(token.text.clone()),
        SyntaxKind::Double => LiteralKind::Double(token.text.clone()),
        SyntaxKind::Complex => LiteralKind::Complex,
        SyntaxKind::StringLiteral | SyntaxKind::RawString => LiteralKind::String(
            string_value(token.text.as_str()),
        ),
        SyntaxKind::TrueKw => LiteralKind::Logical(true),
        SyntaxKind::FalseKw => LiteralKind::Logical(false),
        SyntaxKind::NullKw => LiteralKind::Null,
        SyntaxKind::InfKw => LiteralKind::Inf,
        SyntaxKind::NanKw => LiteralKind::NaN,
        SyntaxKind::NaIntegerKw => LiteralKind::Na(NaAtom::Integer),
        SyntaxKind::NaRealKw => LiteralKind::Na(NaAtom::Double),
        SyntaxKind::NaComplexKw => LiteralKind::Na(NaAtom::Complex),
        SyntaxKind::NaCharacterKw => LiteralKind::Na(NaAtom::Character),
        _ => LiteralKind::Na(NaAtom::Logical),
    }
}

/// The name a node spells where a field, a namespace part or a tag stands: a
/// name, or a string.
pub open spec fn spelled_name(node: SyntaxNode) -> Option<Seq<char>> {
    match node.kind {
        SyntaxKind::Name => node.name(),
        SyntaxKind::Literal => match node.opening() {
            Some(token) => if token.kind == SyntaxKind::StringLiteral {
                Some(literal_text(token.text@))
            } else {
                None
            },
            None => None,
        },
        _ => None,
    }
}

/// The name that a node spells as a name or a string.
pub fn field_name_text(node: &SyntaxNode) -> (r: Option<String>)
    ensures
        types::opt_text(r) == spelled_name(*node),
{
    match node.kind {
        SyntaxKind::Name => node.name_text(),
        SyntaxKind::Literal => match node.first_token() {
            Some(token) => if token.kind == SyntaxKind::StringLiteral {
                Some(string_value(token.text.as_str()))
            } else {
                None
            },
            None => None,
        },
        _ => None,
    }
}

/// Walks back over the trivia that ends the first children of a node: where the
/// trivia starts, and whether something else stopped the walk. Everything inside
/// an annotation is trivia.
pub open spec fn trivia_start(node: SyntaxNode, inside: bool, upto: nat, end: u32) -> (u32, bool)
    decreases node, upto,
{
    if upto == 0 || upto > node.children@.len() {
        (end, false)
    } else {
        match node.children@[upto - 1] {
            SyntaxElement::Token(token) => if inside || token.kind.is_trivia() {
                trivia_start(node, inside, (upto - 1) as nat, token.range.start)
            } else {
                (end, true)
            },
            SyntaxElement::Node(inner) => if inner.closing() is None {
                (end, true)
            } else {
                let (start, stopped) = trivia_start(
                    inner,
                    inside || inner.kind == SyntaxKind::Annotation,
                    inner.children@.len(),
                    end,
                );
                if stopped {
                    (start, true)
                } else {
                    trivia_start(node, inside, (upto - 1) as nat, start)
                }
            },
        }
    }
}

/// A node's range without the trivia at its end.
pub open spec fn code_range(node: SyntaxNode) -> TextRange {
    let end = trivia_start(
        node,
        node.kind == SyntaxKind::Annotation,
        node.children@.len(),
        node.range.end,
    ).0;
    TextRange {
        start: node.range.start,
        end: if end >= node.range.start {
            end
        } else {
            node.range.start
        },
    }
}

fn walk_trivia(node: &SyntaxNode, inside: bool, end: u32) -> (r: (u32, bool))
    ensures
        r == trivia_start(*node, inside, node.children@.len(), end),
    decreases node,
{
    let mut start: u32 = end;
    let mut upto: usize = node.children.len();
    while upto > 0
        invariant
            upto <= node.children@.len(),
            trivia_start(*node, inside, upto as nat, start) == trivia_start(
                *node,
                inside,
                node.children@.len(),
                end,
            ),
        decreases upto,
    {
        match &node.children[upto - 1] {
            SyntaxElement::Token(token) => {
                if inside || token.kind.trivia() {
                    start = token.range.start;
                } else {
                    return (start, true);
                }
            },
            SyntaxElement::Node(inner) => {
                if inner.last_token().is_none() {
                    return (start, true);
                }
                let (before, stopped) = walk_trivia(
                    inner,
                    inside || inner.kind == SyntaxKind::Annotation,
                    start,
                );
                if stopped {
                    return (before, true);
                }
                start = before;
            },
        }
        upto -= 1;
    }
    (start, false)
}

/// A node's range without the trivia at its end.
pub fn significant_range(node: &SyntaxNode) -> (r: TextRange)
    ensures
        r == code_range(*node),
{
    let end = walk_trivia(node, node.kind == SyntaxKind::Annotation, node.range.end).0;
    TextRange {
        start: node.range.start,
        end: if end >= node.range.start {
            end
        } else {
            node.range.start
        },
    }
}

pub open spec fn unary_of(kind: SyntaxKind) -> Option<UnaryOperator> {
    match kind {
        SyntaxKind::Minus => Some(UnaryOperator::Minus),
        SyntaxKind::Plus => Some(UnaryOperator::Plus),
        SyntaxKind::Bang => Some(UnaryOperator::Not),
        SyntaxKind::Tilde => Some(UnaryOperator::Tilde),
        SyntaxKind::Question => Some(UnaryOperator::Help),
        _ => None,
    }
}

/// The unary operator of a token.
pub fn unary_operator(kind: SyntaxKind) -> (r: Option<UnaryOperator>)
    ensures
        r == unary_of(kind),
{
    match kind {
        SyntaxKind::Minus => Some(UnaryOperator::Minus),
        SyntaxKind::Plus => Some(UnaryOperator::Plus),
        SyntaxKind::Bang => Some(UnaryOperator::Not),
        SyntaxKind::Tilde => Some(UnaryOperator::Tilde),
        SyntaxKind::Question => Some(UnaryOperator::Help),
        _ => None,
    }
}

/// The operator of the first token from a place on that is one.
pub open spec fn unary_in(elements: Seq<SyntaxElement>, from: int) -> Option<UnaryOperator>
    decreases elements.len() - from,
{
    if 0 <= from < elements.len() {
        match elements[from] {
            SyntaxElement::Token(token) => match unary_of(token.kind) {
                Some(operator) => Some(operator),
                None => unary_in(elements, from + 1),
            },
            SyntaxElement::Node(_) => unary_in(elements, from + 1),
        }
    } else {
        None
    }
}

/// The first unary operator among the children of a node.
pub fn find_unary_operator(elements: &Vec<SyntaxElement>) -> (r: Option<UnaryOperator>)
    ensures
        r == unary_in(elements@, 0),
{
    let mut i: usize = 0;
    while i < elements.len()
        invariant
            i <= elements@.len(),
            unary_in(elements@, i as int) == unary_in(elements@, 0),
        decreases elements.len() - i,
    {
        if let SyntaxElement::Token(token) = &elements[i] {
            if let Some(operator) = unary_operator(token.kind) {
                return Some(operator);
            }
        }
        i += 1;
    }
    None
}

/// The place of the operator of a binary expression: the first token that is no
/// trivia.
pub open spec fn operator_place(elements: Seq<SyntaxElement>, from: int) -> Option<int>
    decreases elements.len() - from,
{
    if 0 <= from < elements.len() {
        match elements[from] {
            SyntaxElement::Token(token) => if token.kind.is_trivia() {
                operator_place(elements, from + 1)
            } else {
                Some(from)
            },
            SyntaxElement::Node(_) => operator_place(elements, from + 1),
        }
    } else {
        None
    }
}

/// The operator token of a binary expression.
pub open spec fn operator_of(node: SyntaxNode) -> Option<SyntaxToken> {
    match operator_place(node.children@, 0) {
        Some(i) => Some(node.children@[i]->Token_0),
        None => None,
    }
}

/// The operator token of a binary expression.
pub fn operator_token(node: &SyntaxNode) -> (r: Option<&SyntaxToken>)
    ensures
        match r {
            Some(token) => operator_of(*node) == Some(*token),
            None => operator_of(*node) is None,
        },
{
    let mut i: usize = 0;
    while i < node.children.len()
        invariant
            i <= node.children@.len(),
            operator_place(node.children@, i as int) == operator_place(node.children@, 0),
        decreases node.children.len() - i,
    {
        if let SyntaxElement::Token(token) = &node.children[i] {
            if !token.kind.trivia() {
                return Some(token);
            }
        }
        i += 1;
    }
    None
}

/// The operator a token of a kind spells. Only `%...%` operators differ by
/// their text.
pub open spec fn binary_of(token: SyntaxToken) -> Option<BinaryOperator> {
    match token.kind {
        SyntaxKind::Special => if token.text@ == "%%"@ {
            Some(BinaryOperator::Modulo)
        } else if token.text@ == "%/%"@ {
            Some(BinaryOperator::IntegerDivide)
        } else {
            Some(BinaryOperator::Special)
        },
        SyntaxKind::Plus => Some(BinaryOperator::Add),
        SyntaxKind::Minus => Some(BinaryOperator::Subtract),
        SyntaxKind::Star => Some(BinaryOperator::Multiply),
        SyntaxKind::Slash => Some(BinaryOperator::Divide),
        SyntaxKind::Caret => Some(BinaryOperator::Power),
        SyntaxKind::PipeGreater => Some(BinaryOperator::Pipe),
        SyntaxKind::Colon => Some(BinaryOperator::Sequence),
        SyntaxKind::Less => Some(BinaryOperator::Less),
        SyntaxKind::Greater => Some(BinaryOperator::Greater),
        SyntaxKind::LessEq => Some(BinaryOperator::LessEq),
        SyntaxKind::GreaterEq => Some(BinaryOperator::GreaterEq),
        SyntaxKind::Eq2 => Some(BinaryOperator::Equal),
        SyntaxKind::BangEq => Some(BinaryOperator::NotEqual),
        SyntaxKind::Amp => Some(BinaryOperator::And),
        SyntaxKind::Amp2 => Some(BinaryOperator::And2),
        SyntaxKind::Pipe => Some(BinaryOperator::Or),
        SyntaxKind::Pipe2 => Some(BinaryOperator::Or2),
        SyntaxKind::Tilde => Some(BinaryOperator::Tilde),
        SyntaxKind::Question => Some(BinaryOperator::Help),
        _ => None,
    }
}

/// The binary operator of a token.
pub fn binary_operator(token: &SyntaxToken) -> (r: Option<BinaryOperator>)
    ensures
        r == binary_of(*token),
{
    match token.kind {
        SyntaxKind::Special => if text::same_text(token.text.as_str(), "%%") {
            Some(BinaryOperator::Modulo)
        } else if text::same_text(token.text.as_str(), "%/%") {
            Some(BinaryOperator::IntegerDivide)
        } else {
            Some(BinaryOperator::Special)
        },
        SyntaxKind::Plus => Some(BinaryOperator::Add),
        SyntaxKind::Minus => Some(BinaryOperator::Subtract),
        SyntaxKind::Star => Some(BinaryOperator::Multiply),
        SyntaxKind::Slash => Some(BinaryOperator::Divide),
        SyntaxKind::Caret => Some(BinaryOperator::Power),
        SyntaxKind::PipeGreater => Some(BinaryOperator::Pipe),
        SyntaxKind::Colon => Some(BinaryOperator::Sequence),
        SyntaxKind::Less => Some(BinaryOperator::Less),
        SyntaxKind::Greater => Some(BinaryOperator::Greater),
        SyntaxKind::LessEq => Some(BinaryOperator::LessEq),
        SyntaxKind::GreaterEq => Some(BinaryOperator::GreaterEq),
        SyntaxKind::Eq2 => Some(BinaryOperator::Equal),
        SyntaxKind::BangEq => Some(BinaryOperator::NotEqual),
        SyntaxKind::Amp => Some(BinaryOperator::And),
        SyntaxKind::Amp2 => Some(BinaryOperator::And2),
        SyntaxKind::Pipe => Some(BinaryOperator::Or),
        SyntaxKind::Pipe2 => Some(BinaryOperator::Or2),
        SyntaxKind::Tilde => Some(BinaryOperator::Tilde),
        SyntaxKind::Question => Some(BinaryOperator::Help),
        _ => None,
    }
}

/// Whether the last statement of a block ends in `;`: walking back, a `;` comes
/// before anything but trivia and the closing brace.
pub open spec fn ends_in_semicolon(elements: Seq<SyntaxElement>, upto: nat) -> bool
    decreases upto,
{
    if upto == 0 || upto > elements.len() {
        false
    } else {
        match elements[upto - 1] {
            SyntaxElement::Token(token) => if token.kind.is_trivia() || token.kind
                == SyntaxKind::RBrace {
                ends_in_semicolon(elements, (upto - 1) as nat)
            } else {
                token.kind == SyntaxKind::Semicolon
            },
            SyntaxElement::Node(_) => false,
        }
    }
}

/// Whether the last statement of a block ends in a semicolon.
pub fn has_trailing_semicolon(elements: &Vec<SyntaxElement>) -> (r: bool)
    ensures
        r == ends_in_semicolon(elements@, elements@.len()),
{
    let mut upto: usize = elements.len();
    while upto > 0
        invariant
            upto <= elements@.len(),
            ends_in_semicolon(elements@, upto as nat) == ends_in_semicolon(
                elements@,
                elements@.len(),
            ),
        decreases upto,
    {
        match &elements[upto - 1] {
            SyntaxElement::Token(token) => {
                if !token.kind.trivia() && token.kind != SyntaxKind::RBrace {
                    return token.kind == SyntaxKind::Semicolon;
                }
            },
            SyntaxElement::Node(_) => {
                return false;
            },
        }
        upto -= 1;
    }
    false
}

/// How many tokens of a kind stand in the first children of a node, at any
/// depth.
pub open spec fn count_tokens(node: SyntaxNode, kind: SyntaxKind, upto: nat) -> nat
    decreases node, upto,
{
    if upto == 0 || upto > node.children@.len() {
        0
    } else {
        count_tokens(node, kind, (upto - 1) as nat) + match node.children@[upto - 1] {
            SyntaxElement::Token(token) => if token.kind == kind {
                1
            } else {
                0
            },
            SyntaxElement::Node(inner) => count_tokens(inner, kind, inner.children@.len()),
        }
    }
}

/// Where a pipe's value goes in the call on its right.
#[derive(Debug, Clone, Copy, PartialEq, Eq, Structural)]
pub enum PipeShape {
    FirstArgument,
    /// The place of the argument whose `_` the value replaces.
    NamedPlaceholder(usize),
}

/// Whether an argument is named and its value is a bare `_`.
pub open spec fn is_placeholder(argument: SyntaxNode) -> bool {
    let c = argument.children@;
    &&& syntax::has_token(c, SyntaxKind::Eq)
    &&& match syntax::expression_after(c, syntax::next_expression(c, 0)) {
        Some(i) => match c[i] {
            SyntaxElement::Node(value) => value.kind == SyntaxKind::Name && syntax::has_token(
                value.children@,
                SyntaxKind::Underscore,
            ),
            SyntaxElement::Token(_) => false,
        },
        None => false,
    }
}

/// The place of the first argument of a list from one on that is a placeholder.
pub open spec fn placeholder_from(list: Seq<SyntaxElement>, from: int, place: nat) -> Option<nat>
    decreases list.len() - from,
{
    if 0 <= from < list.len() {
        match list[from] {
            SyntaxElement::Node(argument) => if argument.kind != SyntaxKind::Argument {
                placeholder_from(list, from + 1, place)
            } else if is_placeholder(argument) {
                Some(place)
            } else {
                placeholder_from(list, from + 1, place + 1)
            },
            SyntaxElement::Token(_) => placeholder_from(list, from + 1, place),
        }
    } else {
        None
    }
}

/// The place of the placeholder in the argument lists of a call.
pub open spec fn placeholder_in(call: Seq<SyntaxElement>, from: int) -> Option<nat>
    decreases call.len() - from,
{
    if 0 <= from < call.len() {
        match call[from] {
            SyntaxElement::Node(list) => if list.kind == SyntaxKind::ArgumentList {
                match placeholder_from(list.children@, 0, 0) {
                    Some(place) => Some(place),
                    None => placeholder_in(call, from + 1),
                }
            } else {
                placeholder_in(call, from + 1)
            },
            SyntaxElement::Token(_) => placeholder_in(call, from + 1),
        }
    } else {
        None
    }
}

/// How a call takes a piped value: without any `_` as its first argument, with
/// one `_` that is the whole value of a named argument in that argument's place.
/// Every other use of `_` is refused.
pub open spec fn shape_of(call: SyntaxNode) -> Option<PipeShape> {
    let underscores = count_tokens(call, SyntaxKind::Underscore, call.children@.len());
    if underscores == 0 {
        Some(PipeShape::FirstArgument)
    } else if underscores == 1 {
        match placeholder_in(call.children@, 0) {
            Some(place) => Some(PipeShape::NamedPlaceholder(place as usize)),
            None => None,
        }
    } else {
        None
    }
}

/// The count of tokens of a kind, where it is at most one; two otherwise.
fn count_some(node: &SyntaxNode, kind: SyntaxKind) -> (r: usize)
    ensures
        r == if count_tokens(*node, kind, node.children@.len()) < 2 {
            count_tokens(*node, kind, node.children@.len()) as int
        } else {
            2
        },
    decreases node,
{
    let mut count: usize = 0;
    let mut i: usize = 0;
    while i < node.children.len()
        invariant
            i <= node.children@.len(),
            count <= 2,
            count == if count_tokens(*node, kind, i as nat) < 2 {
                count_tokens(*node, kind, i as nat) as int
            } else {
                2
            },
        decreases node.children.len() - i,
    {
        match &node.children[i] {
            SyntaxElement::Token(token) => {
                if token.kind == kind && count < 2 {
                    count += 1;
                }
            },
            SyntaxElement::Node(inner) => {
                let more: usize = count_some(inner, kind);
                count = if count + more < 2 {
                    count + more
                } else {
                    2
                };
            },
        }
        i += 1;
    }
    count
}

fn placeholder_argument(argument: &SyntaxNode) -> (r: bool)
    ensures
        r == is_placeholder(*argument),
{
    if !syntax::holds_token(&argument.children, SyntaxKind::Eq) {
        return false;
    }
    let tag = syntax::find_expression(&argument.children, 0);
    match syntax::find_expression_after(&argument.children, tag) {
        Some(i) => match &argument.children[i] {
            SyntaxElement::Node(value) => value.kind == SyntaxKind::Name && syntax::holds_token(
                &value.children,
                SyntaxKind::Underscore,
            ),
            SyntaxElement::Token(_) => false,
        },
        None => false,
    }
}

fn find_placeholder(list: &Vec<SyntaxElement>) -> (r: Option<usize>)
    ensures
        (match r {
            Some(place) => Some(place as nat),
            None => None,
        }) == placeholder_from(list@, 0, 0),
{
    let mut place: usize = 0;
    let mut i: usize = 0;
    while i < list.len()
        invariant
            i <= list@.len(),
            place <= i,
            placeholder_from(list@, i as int, place as nat) == placeholder_from(list@, 0, 0),
        decreases list.len() - i,
    {
        if let SyntaxElement::Node(argument) = &list[i] {
            if argument.kind == SyntaxKind::Argument {
                if placeholder_argument(argument) {
                    return Some(place);
                }
                place += 1;
            }
        }
        i += 1;
    }
    None
}

fn find_call_placeholder(call: &Vec<SyntaxElement>) -> (r: Option<usize>)
    ensures
        (match r {
            Some(place) => Some(place as nat),
            None => None,
        }) == placeholder_in(call@, 0),
{
    let mut i: usize = 0;
    while i < call.len()
        invariant
            i <= call@.len(),
            placeholder_in(call@, i as int) == placeholder_in(call@, 0),
        decreases call.len() - i,
    {
        if let SyntaxElement::Node(list) = &call[i] {
            if list.kind == SyntaxKind::ArgumentList {
                let found = find_placeholder(&list.children);
                if found.is_some() {
                    return found;
                }
            }
        }
        i += 1;
    }
    None
}

/// How a call takes a piped value.
pub fn pipe_shape(call: &SyntaxNode) -> (r: Option<PipeShape>)
    ensures
        r == shape_of(*call),
{
    let underscores = count_some(call, SyntaxKind::Underscore);
    if underscores == 0 {
        return Some(PipeShape::FirstArgument);
    }
    if underscores > 1 {
        return None;
    }
    match find_call_placeholder(&call.children) {
        Some(place) => Some(PipeShape::NamedPlaceholder(place)),
        None => None,
    }
}

} // verus!
