//! Syntax trees: what lowering, lints and package metadata read of a parse.

use vstd::prelude::*;

use crate::text;
use crate::text::{chars_of, string_of};

verus! {

/// A half-open range of source offsets.
#[derive(Debug, Clone, Copy, PartialEq, Eq, Hash, PartialOrd, Ord, Structural)]
pub struct TextRange {
    pub start: u32,
    pub end: u32,
}

impl TextRange {
    /// The smallest range that holds both.
    pub open spec fn covering(self, other: TextRange) -> TextRange {
        TextRange {
            start: if self.start <= other.start {
                self.start
            } else {
                other.start
            },
            end: if self.end >= other.end {
                self.end
            } else {
                other.end
            },
        }
    }

    pub fn cover(self, other: TextRange) -> (r: TextRange)
        ensures
            r == self.covering(other),
    {
        TextRange {
            start: if self.start <= other.start {
                self.start
            } else {
                other.start
            },
            end: if self.end >= other.end {
                self.end
            } else {
                other.end
            },
        }
    }
}

/// The kinds of tokens and nodes.
#[derive(Debug, Clone, Copy, PartialEq, Eq, Hash, PartialOrd, Ord, Structural)]
pub enum SyntaxKind {
    // Trivia.
    Whitespace,
    Newline,
    Comment,
    // Names and literals.
    Ident,
    Integer,
    Double,
    Complex,
    StringLiteral,
    RawString,
    Dots,
    Underscore,
    // Keywords.
    TrueKw,
    FalseKw,
    NullKw,
    InfKw,
    NanKw,
    NaKw,
    NaIntegerKw,
    NaRealKw,
    NaComplexKw,
    NaCharacterKw,
    FunctionKw,
    IfKw,
    ElseKw,
    ForKw,
    InKw,
    WhileKw,
    RepeatKw,
    BreakKw,
    NextKw,
    // Punctuation.
    LParen,
    RParen,
    LBrace,
    RBrace,
    LBracket,
    RBracket,
    LBracket2,
    RBracket2,
    Comma,
    Semicolon,
    Backslash,
    // Operators.
    LessMinus,
    Less2Minus,
    MinusGreater,
    MinusGreater2,
    Eq,
    ColonEq,
    Plus,
    Minus,
    Star,
    Slash,
    Caret,
    Special,
    PipeGreater,
    Colon,
    Colon2,
    Colon3,
    Less,
    Greater,
    LessEq,
    GreaterEq,
    Eq2,
    BangEq,
    Bang,
    Amp,
    Amp2,
    Pipe,
    Pipe2,
    Tilde,
    Question,
    Dollar,
    At,
    /// The `#:` that opens a line of an annotation.
    AnnotationMarker,
    /// A token of no other kind.
    Unrecognized,
    // Expressions.
    Name,
    Literal,
    ParenExpr,
    BraceExpr,
    UnaryExpr,
    BinaryExpr,
    CallExpr,
    SubsetExpr,
    Subset2Expr,
    DollarExpr,
    AtExpr,
    NamespaceExpr,
    FunctionDef,
    IfExpr,
    ForExpr,
    WhileExpr,
    RepeatExpr,
    BreakExpr,
    NextExpr,
    // Parts of expressions.
    SourceFile,
    ArgumentList,
    Argument,
    ParameterList,
    Parameter,
    // Annotations.
    Annotation,
    AnnotationDirective,
    TypeRef,
    TypeApply,
    TypeArgList,
    TypeVector,
    TypeUnion,
    TypeFunction,
    TypeParameterList,
    TypeParameter,
    TypeRecord,
    TypeField,
    TypeTuple,
    TypeList,
    TypeParen,
    TypeBinderList,
    TypeBinder,
    /// A region that did not parse.
    Error,
}

impl SyntaxKind {
    pub open spec fn is_trivia(self) -> bool {
        self == SyntaxKind::Whitespace || self == SyntaxKind::Newline || self
            == SyntaxKind::Comment
    }

    pub open spec fn is_keyword(self) -> bool {
        match self {
            SyntaxKind::TrueKw | SyntaxKind::FalseKw | SyntaxKind::NullKw | SyntaxKind::InfKw
            | SyntaxKind::NanKw | SyntaxKind::NaKw | SyntaxKind::NaIntegerKw
            | SyntaxKind::NaRealKw | SyntaxKind::NaComplexKw | SyntaxKind::NaCharacterKw
            | SyntaxKind::FunctionKw | SyntaxKind::IfKw | SyntaxKind::ElseKw | SyntaxKind::ForKw
            | SyntaxKind::InKw | SyntaxKind::WhileKw | SyntaxKind::RepeatKw
            | SyntaxKind::BreakKw | SyntaxKind::NextKw => true,
            _ => false,
        }
    }

    pub open spec fn is_expression(self) -> bool {
        match self {
            SyntaxKind::Name | SyntaxKind::Literal | SyntaxKind::ParenExpr | SyntaxKind::BraceExpr
            | SyntaxKind::UnaryExpr | SyntaxKind::BinaryExpr | SyntaxKind::CallExpr
            | SyntaxKind::SubsetExpr | SyntaxKind::Subset2Expr | SyntaxKind::DollarExpr
            | SyntaxKind::AtExpr | SyntaxKind::NamespaceExpr | SyntaxKind::FunctionDef
            | SyntaxKind::IfExpr | SyntaxKind::ForExpr | SyntaxKind::WhileExpr
            | SyntaxKind::RepeatExpr | SyntaxKind::BreakExpr | SyntaxKind::NextExpr => true,
            _ => false,
        }
    }

    /// Whether the kind is whitespace or a comment.
    pub fn trivia(self) -> (r: bool)
        ensures
            r == self.is_trivia(),
    {
        match self {
            SyntaxKind::Whitespace | SyntaxKind::Newline | SyntaxKind::Comment => true,
            _ => false,
        }
    }

    /// Whether the kind is a reserved word.
    pub fn keyword(self) -> (r: bool)
        ensures
            r == self.is_keyword(),
    {
        match self {
            SyntaxKind::TrueKw | SyntaxKind::FalseKw | SyntaxKind::NullKw | SyntaxKind::InfKw
            | SyntaxKind::NanKw | SyntaxKind::NaKw | SyntaxKind::NaIntegerKw
            | SyntaxKind::NaRealKw | SyntaxKind::NaComplexKw | SyntaxKind::NaCharacterKw
            | SyntaxKind::FunctionKw | SyntaxKind::IfKw | SyntaxKind::ElseKw | SyntaxKind::ForKw
            | SyntaxKind::InKw | SyntaxKind::WhileKw | SyntaxKind::RepeatKw
            | SyntaxKind::BreakKw | SyntaxKind::NextKw => true,
            _ => false,
        }
    }

    /// Whether a node of the kind is an expression.
    pub fn expression(self) -> (r: bool)
        ensures
            r == self.is_expression(),
    {
        match self {
            SyntaxKind::Name | SyntaxKind::Literal | SyntaxKind::ParenExpr | SyntaxKind::BraceExpr
            | SyntaxKind::UnaryExpr | SyntaxKind::BinaryExpr | SyntaxKind::CallExpr
            | SyntaxKind::SubsetExpr | SyntaxKind::Subset2Expr | SyntaxKind::DollarExpr
            | SyntaxKind::AtExpr | SyntaxKind::NamespaceExpr | SyntaxKind::FunctionDef
            | SyntaxKind::IfExpr | SyntaxKind::ForExpr | SyntaxKind::WhileExpr
            | SyntaxKind::RepeatExpr | SyntaxKind::BreakExpr | SyntaxKind::NextExpr => true,
            _ => false,
        }
    }
}

/// A token: its kind, its text, and where it stands.
#[derive(Debug, PartialEq, Eq)]
pub struct SyntaxToken {
    pub kind: SyntaxKind,
    pub text: String,
    pub range: TextRange,
}

/// A node and its children in source order.
#[derive(Debug, PartialEq, Eq)]
pub struct SyntaxNode {
    pub kind: SyntaxKind,
    pub range: TextRange,
    pub children: Vec<SyntaxElement>,
}

/// A child of a node.
#[derive(Debug, PartialEq, Eq)]
pub enum SyntaxElement {
    Node(SyntaxNode),
    Token(SyntaxToken),
}

/// Whether an element is a node of a kind.
pub open spec fn is_node_of(element: SyntaxElement, kind: SyntaxKind) -> bool {
    match element {
        SyntaxElement::Node(node) => node.kind == kind,
        SyntaxElement::Token(_) => false,
    }
}

pub open spec fn is_expression_node(element: SyntaxElement) -> bool {
    match element {
        SyntaxElement::Node(node) => node.kind.is_expression(),
        SyntaxElement::Token(_) => false,
    }
}

/// The place of the first expression from a place on.
pub open spec fn next_expression(elements: Seq<SyntaxElement>, from: int) -> Option<int>
    decreases elements.len() - from,
{
    if 0 <= from < elements.len() {
        if is_expression_node(elements[from]) {
            Some(from)
        } else {
            next_expression(elements, from + 1)
        }
    } else {
        None
    }
}

/// The place of the next expression after another.
pub open spec fn expression_after(elements: Seq<SyntaxElement>, place: Option<int>) -> Option<int> {
    match place {
        Some(place) => next_expression(elements, place + 1),
        None => None,
    }
}

/// The place of the last expression among the first elements.
pub open spec fn last_expression(elements: Seq<SyntaxElement>, upto: int) -> Option<int>
    decreases upto,
{
    if 0 < upto <= elements.len() {
        if is_expression_node(elements[upto - 1]) {
            Some(upto - 1)
        } else {
            last_expression(elements, upto - 1)
        }
    } else {
        None
    }
}

/// The place of the first node of a kind from a place on.
pub open spec fn next_node(elements: Seq<SyntaxElement>, kind: SyntaxKind, from: int) -> Option<int>
    decreases elements.len() - from,
{
    if 0 <= from < elements.len() {
        if is_node_of(elements[from], kind) {
            Some(from)
        } else {
            next_node(elements, kind, from + 1)
        }
    } else {
        None
    }
}

/// The place of the first node that is not of a kind.
pub open spec fn next_other_node(
    elements: Seq<SyntaxElement>,
    kind: SyntaxKind,
    from: int,
) -> Option<int>
    decreases elements.len() - from,
{
    if 0 <= from < elements.len() {
        if elements[from] is Node && !is_node_of(elements[from], kind) {
            Some(from)
        } else {
            next_other_node(elements, kind, from + 1)
        }
    } else {
        None
    }
}

/// The place of the first token of a kind from a place on.
pub open spec fn next_token(elements: Seq<SyntaxElement>, kind: SyntaxKind, from: int) -> Option<
    int,
>
    decreases elements.len() - from,
{
    if 0 <= from < elements.len() {
        match elements[from] {
            SyntaxElement::Token(token) => if token.kind == kind {
                Some(from)
            } else {
                next_token(elements, kind, from + 1)
            },
            SyntaxElement::Node(_) => next_token(elements, kind, from + 1),
        }
    } else {
        None
    }
}

pub open spec fn has_token(elements: Seq<SyntaxElement>, kind: SyntaxKind) -> bool {
    next_token(elements, kind, 0) is Some
}

/// Whether a token of a kind with the given text stands among elements.
pub open spec fn has_word(elements: Seq<SyntaxElement>, kind: SyntaxKind, word: Seq<char>) -> bool {
    exists|i: int|
        0 <= i < elements.len() && match #[trigger] elements[i] {
            SyntaxElement::Token(token) => token.kind == kind && token.text@ == word,
            SyntaxElement::Node(_) => false,
        }
}

impl SyntaxNode {
    /// The token the first child of the node starts with.
    pub open spec fn opening(self) -> Option<SyntaxToken>
        decreases self,
    {
        if self.children@.len() == 0 {
            None
        } else {
            match self.children@[0] {
                SyntaxElement::Token(token) => Some(token),
                SyntaxElement::Node(node) => node.opening(),
            }
        }
    }

    /// The token the last child of the node ends with.
    pub open spec fn closing(self) -> Option<SyntaxToken>
        decreases self,
    {
        if self.children@.len() == 0 {
            None
        } else {
            match self.children@[self.children@.len() - 1] {
                SyntaxElement::Token(token) => Some(token),
                SyntaxElement::Node(node) => node.closing(),
            }
        }
    }

    /// The text of all tokens of the node.
    pub open spec fn content(self) -> Seq<char>
        decreases self, self.children@.len() + 1,
    {
        self.content_upto(self.children@.len())
    }

    pub open spec fn content_upto(self, upto: nat) -> Seq<char>
        decreases self, upto,
    {
        if upto == 0 || upto > self.children@.len() {
            Seq::empty()
        } else {
            self.content_upto((upto - 1) as nat) + match self.children@[upto - 1] {
                SyntaxElement::Token(token) => token.text@,
                SyntaxElement::Node(node) => node.content(),
            }
        }
    }

    /// The name a name node spells, without backticks.
    pub open spec fn name(self) -> Option<Seq<char>> {
        match self.opening() {
            Some(token) => Some(unquoted(token.text@)),
            None => None,
        }
    }

    pub fn first_token(&self) -> (r: Option<&SyntaxToken>)
        ensures
            match r {
                Some(token) => self.opening() == Some(*token),
                None => self.opening() is None,
            },
        decreases self,
    {
        if self.children.len() == 0 {
            return None;
        }
        match &self.children[0] {
            SyntaxElement::Token(token) => Some(token),
            SyntaxElement::Node(node) => node.first_token(),
        }
    }

    pub fn last_token(&self) -> (r: Option<&SyntaxToken>)
        ensures
            match r {
                Some(token) => self.closing() == Some(*token),
                None => self.closing() is None,
            },
        decreases self,
    {
        if self.children.len() == 0 {
            return None;
        }
        match &self.children[self.children.len() - 1] {
            SyntaxElement::Token(token) => Some(token),
            SyntaxElement::Node(node) => node.last_token(),
        }
    }

    fn push_text(&self, into: &mut Vec<char>)
        ensures
            final(into)@ == old(into)@ + self.content(),
        decreases self,
    {
        let ghost start = into@;
        let mut i: usize = 0;
        assert(start + self.content_upto(0) =~= start);
        while i < self.children.len()
            invariant
                i <= self.children.len(),
                into@ == start + self.content_upto(i as nat),
            decreases self.children.len() - i,
        {
            let ghost before = self.content_upto(i as nat);
            match &self.children[i] {
                SyntaxElement::Token(token) => {
                    let mut chars = chars_of(token.text.as_str());
                    into.append(&mut chars);
                    assert(into@ =~= start + (before + token.text@));
                },
                SyntaxElement::Node(node) => {
                    node.push_text(into);
                    assert(into@ =~= start + (before + node.content()));
                },
            }
            i += 1;
        }
    }

    /// The text of the node.
    pub fn text(&self) -> (r: String)
        ensures
            r@ == self.content(),
    {
        let mut chars: Vec<char> = Vec::new();
        self.push_text(&mut chars);
        assert(chars@ =~= self.content());
        string_of(&chars)
    }

    /// The name a name node spells.
    pub fn name_text(&self) -> (r: Option<String>)
        ensures
            crate::types::opt_text(r) == self.name(),
    {
        match self.first_token() {
            Some(token) => Some(without_backticks(token.text.as_str())),
            None => None,
        }
    }
}

/// Text without a pair of backticks around it.
pub open spec fn unquoted(text: Seq<char>) -> Seq<char> {
    if text.len() >= 2 && text[0] == '`' && text.last() == '`' {
        text.subrange(1, text.len() - 1)
    } else {
        text
    }
}

pub fn without_backticks(text: &str) -> (r: String)
    ensures
        r@ == unquoted(text@),
{
    let chars = chars_of(text);
    let n: usize = chars.len();
    if n >= 2 && chars[0] == '`' && chars[n - 1] == '`' {
        let inner = crate::text::slice_of(&chars, 1, n - 1);
        string_of(&inner)
    } else {
        string_of(&chars)
    }
}

/// The place of the first expression from a place on.
pub fn find_expression(elements: &Vec<SyntaxElement>, from: usize) -> (r: Option<usize>)
    ensures
        opt_place(r) == next_expression(elements@, from as int),
        r matches Some(i) ==> from <= i < elements@.len() && is_expression_node(
            elements@[i as int],
        ),
{
    let mut i: usize = from;
    while i < elements.len()
        invariant
            from <= i,
            next_expression(elements@, i as int) == next_expression(elements@, from as int),
        decreases elements.len() - i,
    {
        if let SyntaxElement::Node(node) = &elements[i] {
            if node.kind.expression() {
                return Some(i);
            }
        }
        i += 1;
    }
    None
}

/// The place of the next expression after another.
pub fn find_expression_after(elements: &Vec<SyntaxElement>, place: Option<usize>) -> (r: Option<
    usize,
>)
    requires
        place matches Some(i) ==> i < elements@.len(),
    ensures
        opt_place(r) == expression_after(elements@, opt_place(place)),
        r matches Some(i) ==> i < elements@.len() && is_expression_node(elements@[i as int]),
{
    match place {
        Some(place) => {
            let count: usize = elements.len();
            assert(place < count);
            find_expression(elements, place + 1)
        },
        None => None,
    }
}

/// The place of the last expression.
pub fn find_last_expression(elements: &Vec<SyntaxElement>) -> (r: Option<usize>)
    ensures
        opt_place(r) == last_expression(elements@, elements@.len() as int),
        r matches Some(i) ==> i < elements@.len() && is_expression_node(elements@[i as int]),
{
    let mut i: usize = elements.len();
    while i > 0
        invariant
            i <= elements@.len(),
            last_expression(elements@, i as int) == last_expression(
                elements@,
                elements@.len() as int,
            ),
        decreases i,
    {
        if let SyntaxElement::Node(node) = &elements[i - 1] {
            if node.kind.expression() {
                return Some(i - 1);
            }
        }
        i -= 1;
    }
    None
}

/// The place of the first node of a kind from a place on.
pub fn find_node(elements: &Vec<SyntaxElement>, kind: SyntaxKind, from: usize) -> (r: Option<usize>)
    ensures
        opt_place(r) == next_node(elements@, kind, from as int),
        r matches Some(i) ==> from <= i < elements@.len() && is_node_of(
            elements@[i as int],
            kind,
        ),
{
    let mut i: usize = from;
    while i < elements.len()
        invariant
            from <= i,
            next_node(elements@, kind, i as int) == next_node(elements@, kind, from as int),
        decreases elements.len() - i,
    {
        if let SyntaxElement::Node(node) = &elements[i] {
            if node.kind == kind {
                return Some(i);
            }
        }
        i += 1;
    }
    None
}

/// The place of the first node that is not of a kind.
pub fn find_other_node(elements: &Vec<SyntaxElement>, kind: SyntaxKind) -> (r: Option<usize>)
    ensures
        opt_place(r) == next_other_node(elements@, kind, 0),
        r matches Some(i) ==> i < elements@.len() && elements@[i as int] is Node,
{
    let mut i: usize = 0;
    while i < elements.len()
        invariant
            i <= elements.len(),
            next_other_node(elements@, kind, i as int) == next_other_node(elements@, kind, 0),
        decreases elements.len() - i,
    {
        if let SyntaxElement::Node(node) = &elements[i] {
            if node.kind != kind {
                return Some(i);
            }
        }
        i += 1;
    }
    None
}

/// The place of the first token of a kind from a place on.
pub fn find_token(elements: &Vec<SyntaxElement>, kind: SyntaxKind, from: usize) -> (r: Option<usize>)
    ensures
        opt_place(r) == next_token(elements@, kind, from as int),
        r matches Some(i) ==> from <= i < elements@.len() && elements@[i as int] is Token,
{
    let mut i: usize = from;
    while i < elements.len()
        invariant
            from <= i,
            next_token(elements@, kind, i as int) == next_token(elements@, kind, from as int),
        decreases elements.len() - i,
    {
        if let SyntaxElement::Token(token) = &elements[i] {
            if token.kind == kind {
                return Some(i);
            }
        }
        i += 1;
    }
    None
}

/// Whether a token of a kind stands among elements.
pub fn holds_token(elements: &Vec<SyntaxElement>, kind: SyntaxKind) -> (r: bool)
    ensures
        r == has_token(elements@, kind),
{
    find_token(elements, kind, 0).is_some()
}

/// Whether a token of a kind with the given text stands among elements.
pub fn holds_word(elements: &Vec<SyntaxElement>, kind: SyntaxKind, word: &str) -> (r: bool)
    ensures
        r == has_word(elements@, kind, word@),
{
    let mut i: usize = 0;
    while i < elements.len()
        invariant
            i <= elements.len(),
            forall|k: int|
                0 <= k < i ==> match #[trigger] elements@[k] {
                    SyntaxElement::Token(token) => !(token.kind == kind && token.text@ == word@),
                    SyntaxElement::Node(_) => true,
                },
        decreases elements.len() - i,
    {
        if let SyntaxElement::Token(token) = &elements[i] {
            if token.kind == kind && text::same_text(token.text.as_str(), word) {
                assert(elements@[i as int] == SyntaxElement::Token(*token));
                return true;
            }
        }
        i += 1;
    }
    false
}

/// The model of an optional place.
pub open spec fn opt_place(place: Option<usize>) -> Option<int> {
    match place {
        Some(place) => Some(place as int),
        None => None,
    }
}

} // verus!
