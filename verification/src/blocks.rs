//! The forms of an annotation block, and the blocks that are refused.

use vstd::prelude::*;

use crate::syntax::{SyntaxElement, SyntaxKind, SyntaxNode};
use crate::text::{chars_of, same_text, string_of};

verus! {

/// The forms a line of a block commits to.
#[derive(Debug, Clone, Copy, PartialEq, Eq, Structural)]
pub enum BlockForm {
    Compact,
    Expanded,
    Definition,
}

/// Why a block carries no typing payload.
#[derive(Debug, Clone, Copy, PartialEq, Eq)]
pub enum BlockRefusal {
    /// Two lines of the block commit to different forms.
    FormMixing(&'static str),
    /// A line did not parse as the form it committed to.
    Unparsed,
}

/// The model of a refusal.
pub enum RefusalV {
    FormMixing(Seq<char>),
    Unparsed,
}

impl BlockRefusal {
    pub open spec fn view(&self) -> RefusalV {
        match self {
            BlockRefusal::FormMixing(message) => RefusalV::FormMixing(message@),
            BlockRefusal::Unparsed => RefusalV::Unparsed,
        }
    }
}

pub open spec fn opt_refusal(refusal: Option<BlockRefusal>) -> Option<RefusalV> {
    match refusal {
        Some(refusal) => Some(refusal@),
        None => None,
    }
}

/// Whether a node of a kind is a type.
pub open spec fn names_type(kind: SyntaxKind) -> bool {
    match kind {
        SyntaxKind::TypeRef | SyntaxKind::TypeApply | SyntaxKind::TypeVector
        | SyntaxKind::TypeUnion | SyntaxKind::TypeFunction | SyntaxKind::TypeRecord
        | SyntaxKind::TypeTuple | SyntaxKind::TypeList | SyntaxKind::TypeParen
        | SyntaxKind::TypeBinderList => true,
        _ => false,
    }
}

/// Whether a node is a type.
pub fn is_type_kind(kind: SyntaxKind) -> (r: bool)
    ensures
        r == names_type(kind),
{
    match kind {
        SyntaxKind::TypeRef | SyntaxKind::TypeApply | SyntaxKind::TypeVector
        | SyntaxKind::TypeUnion | SyntaxKind::TypeFunction | SyntaxKind::TypeRecord
        | SyntaxKind::TypeTuple | SyntaxKind::TypeList | SyntaxKind::TypeParen
        | SyntaxKind::TypeBinderList => true,
        _ => false,
    }
}

/// The name of a directive from an element on: the names, keywords and dashes
/// right after the `@`, without a gap.
pub open spec fn directive_from(
    elements: Seq<SyntaxElement>,
    from: int,
    cursor: Option<u32>,
    name: Seq<char>,
) -> Seq<char>
    decreases elements.len() - from,
{
    if 0 <= from < elements.len() {
        match elements[from] {
            SyntaxElement::Node(_) => name,
            SyntaxElement::Token(token) => if token.kind == SyntaxKind::At {
                directive_from(elements, from + 1, Some(token.range.end), name)
            } else if (token.kind == SyntaxKind::Ident || token.kind == SyntaxKind::Minus
                || token.kind.is_keyword()) && cursor == Some(token.range.start) {
                directive_from(
                    elements,
                    from + 1,
                    Some(token.range.end),
                    name + token.text@,
                )
            } else {
                name
            },
        }
    } else {
        name
    }
}

pub open spec fn directive_of(node: SyntaxNode) -> Seq<char> {
    directive_from(node.children@, 0, None, Seq::empty())
}

/// The name of a directive, which may hold hyphens.
pub fn directive_name(node: &SyntaxNode) -> (r: String)
    ensures
        r@ == directive_of(*node),
{
    let elements = &node.children;
    let mut name: Vec<char> = Vec::new();
    let mut cursor: Option<u32> = None;
    let mut i: usize = 0;
    while i < elements.len()
        invariant
            i <= elements@.len(),
            *elements == node.children,
            directive_from(elements@, i as int, cursor, name@) == directive_of(*node),
        decreases elements.len() - i,
    {
        let token = match &elements[i] {
            SyntaxElement::Node(_) => {
                return string_of(&name);
            },
            SyntaxElement::Token(token) => token,
        };
        if token.kind == SyntaxKind::At {
            cursor = Some(token.range.end);
        } else {
            let continues = match cursor {
                Some(end) => end == token.range.start,
                None => false,
            };
            if continues && (token.kind == SyntaxKind::Ident || token.kind == SyntaxKind::Minus
                || token.kind.keyword()) {
                let mut part = chars_of(token.text.as_str());
                name.append(&mut part);
                cursor = Some(token.range.end);
            } else {
                return string_of(&name);
            }
        }
        i += 1;
    }
    string_of(&name)
}

/// Whether a region of the first children of a node did not parse.
pub open spec fn error_within(node: SyntaxNode, upto: nat) -> bool
    decreases node, upto,
{
    if upto == 0 || upto > node.children@.len() {
        false
    } else {
        error_within(node, (upto - 1) as nat) || match node.children@[upto - 1] {
            SyntaxElement::Node(inner) => inner.kind == SyntaxKind::Error || error_within(
                inner,
                inner.children@.len(),
            ),
            SyntaxElement::Token(_) => false,
        }
    }
}

pub open spec fn has_error(node: SyntaxNode) -> bool {
    node.kind == SyntaxKind::Error || error_within(node, node.children@.len())
}

fn holds_error(node: &SyntaxNode) -> (r: bool)
    ensures
        r == has_error(*node),
    decreases node,
{
    if node.kind == SyntaxKind::Error {
        return true;
    }
    let mut found = false;
    let mut i: usize = 0;
    while i < node.children.len()
        invariant
            i <= node.children@.len(),
            found == error_within(*node, i as nat),
        decreases node.children.len() - i,
    {
        if let SyntaxElement::Node(inner) = &node.children[i] {
            if holds_error(inner) {
                found = true;
            }
        }
        i += 1;
    }
    found
}

/// Whether a line starts between two offsets: a marker stands from the first on,
/// before the second. A marker may stand at any depth, since a line can continue
/// a type that the line before left open.
pub open spec fn line_starts(node: SyntaxNode, from: u32, to: u32, upto: nat) -> bool
    decreases node, upto,
{
    if upto == 0 || upto > node.children@.len() {
        false
    } else {
        line_starts(node, from, to, (upto - 1) as nat) || match node.children@[upto - 1] {
            SyntaxElement::Node(inner) => line_starts(inner, from, to, inner.children@.len()),
            SyntaxElement::Token(token) => token.kind == SyntaxKind::AnnotationMarker && from
                <= token.range.start < to,
        }
    }
}

/// Whether two offsets of a block stand on one line.
pub open spec fn same_line(node: SyntaxNode, a: u32, b: u32) -> bool {
    !line_starts(
        node,
        if a <= b {
            a
        } else {
            b
        },
        if a <= b {
            b
        } else {
            a
        },
        node.children@.len(),
    )
}

fn starts_line(node: &SyntaxNode, from: u32, to: u32) -> (r: bool)
    ensures
        r == line_starts(*node, from, to, node.children@.len()),
    decreases node,
{
    let mut found = false;
    let mut i: usize = 0;
    while i < node.children.len()
        invariant
            i <= node.children@.len(),
            found == line_starts(*node, from, to, i as nat),
        decreases node.children.len() - i,
    {
        match &node.children[i] {
            SyntaxElement::Node(inner) => {
                if starts_line(inner, from, to) {
                    found = true;
                }
            },
            SyntaxElement::Token(token) => {
                if token.kind == SyntaxKind::AnnotationMarker && from <= token.range.start
                    && token.range.start < to {
                    found = true;
                }
            },
        }
        i += 1;
    }
    found
}

fn on_one_line(node: &SyntaxNode, a: u32, b: u32) -> (r: bool)
    ensures
        r == same_line(*node, a, b),
{
    if a <= b {
        !starts_line(node, a, b)
    } else {
        !starts_line(node, b, a)
    }
}

/// The form a directive commits to.
pub open spec fn directive_form(name: Seq<char>) -> BlockForm {
    if name == "type"@ || name == "alias"@ {
        BlockForm::Definition
    } else if name == "param"@ || name == "return"@ || name == "returns"@ || name == "forall"@ {
        BlockForm::Expanded
    } else {
        BlockForm::Compact
    }
}

fn form_of_directive(name: &str) -> (r: BlockForm)
    ensures
        r == directive_form(name@),
{
    if same_text(name, "type") || same_text(name, "alias") {
        BlockForm::Definition
    } else if same_text(name, "param") || same_text(name, "return") || same_text(name, "returns")
        || same_text(name, "forall") {
        BlockForm::Expanded
    } else {
        BlockForm::Compact
    }
}

/// The form a child of a block commits to.
pub open spec fn form_of(node: SyntaxNode) -> Option<BlockForm> {
    if node.kind == SyntaxKind::AnnotationDirective {
        Some(directive_form(directive_of(node)))
    } else if names_type(node.kind) {
        Some(BlockForm::Compact)
    } else {
        None
    }
}

fn block_form(node: &SyntaxNode) -> (r: Option<BlockForm>)
    ensures
        r == form_of(*node),
{
    if node.kind == SyntaxKind::AnnotationDirective {
        let name = directive_name(node);
        Some(form_of_directive(name.as_str()))
    } else if is_type_kind(node.kind) {
        Some(BlockForm::Compact)
    } else {
        None
    }
}

/// What is wrong with a form after another.
pub open spec fn mixing(previous: Option<BlockForm>, form: BlockForm) -> Option<Seq<char>> {
    match previous {
        None => None,
        Some(previous) => if previous == BlockForm::Compact && form == BlockForm::Compact {
            Some(
                "only one compact annotation fits in a `#:` block. Separate the annotations with a blank line so each gets its own block."@,
            )
        } else if previous == form {
            None
        } else if previous == BlockForm::Definition || form == BlockForm::Definition {
            Some(
                "`@type` and `@alias` declarations need their own `#:` block. Separate them from other annotations with a blank line."@,
            )
        } else {
            Some(
                "a `#:` block uses either one compact annotation or `@param`/`@return` lines, not both. Separate the two forms with a blank line."@,
            )
        },
    }
}

fn mixing_message(previous: Option<BlockForm>, form: BlockForm) -> (r: Option<&'static str>)
    ensures
        (match r {
            Some(message) => Some(message@),
            None => None,
        }) == mixing(previous, form),
{
    let previous = match previous {
        Some(previous) => previous,
        None => {
            return None;
        },
    };
    if previous == BlockForm::Compact && form == BlockForm::Compact {
        Some(
            "only one compact annotation fits in a `#:` block. Separate the annotations with a blank line so each gets its own block.",
        )
    } else if previous == form {
        None
    } else if previous == BlockForm::Definition || form == BlockForm::Definition {
        Some(
            "`@type` and `@alias` declarations need their own `#:` block. Separate them from other annotations with a blank line.",
        )
    } else {
        Some(
            "a `#:` block uses either one compact annotation or `@param`/`@return` lines, not both. Separate the two forms with a blank line.",
        )
    }
}

/// What has been read of a block: the form of the line before, where the form of
/// the current line stands, and whether a binder list waits for its type.
pub struct ReadV {
    pub previous: Option<BlockForm>,
    pub current: Option<u32>,
    pub awaiting: bool,
}

impl ReadV {
    /// The state on entering a child's line.
    pub open spec fn entering(self, block: SyntaxNode, start: u32) -> ReadV {
        match self.current {
            Some(at) => if same_line(block, at, start) {
                self
            } else {
                ReadV { previous: self.previous, current: None, awaiting: false }
            },
            None => self,
        }
    }
}

/// The refusal that the children of a block from one on give.
pub open spec fn refusal_from(block: SyntaxNode, from: int, read: ReadV) -> Option<RefusalV>
    decreases block.children@.len() - from,
{
    if 0 <= from < block.children@.len() {
        match block.children@[from] {
            SyntaxElement::Token(_) => refusal_from(block, from + 1, read),
            SyntaxElement::Node(child) => {
                let here = read.entering(block, child.range.start);
                if here.awaiting && names_type(child.kind) {
                    refusal_from(block, from + 1, ReadV { awaiting: false, ..here })
                } else {
                    match form_of(child) {
                        None => refusal_from(block, from + 1, here),
                        Some(form) => if here.current is Some {
                            Some(RefusalV::Unparsed)
                        } else {
                            match mixing(here.previous, form) {
                                Some(message) => Some(RefusalV::FormMixing(message)),
                                None => refusal_from(
                                    block,
                                    from + 1,
                                    ReadV {
                                        previous: Some(form),
                                        current: Some(child.range.start),
                                        awaiting: here.awaiting || child.kind
                                            == SyntaxKind::TypeBinderList,
                                    },
                                ),
                            }
                        },
                    }
                }
            },
        }
    } else {
        None
    }
}

/// Why a block is refused: a region of it did not parse, a line holds more than
/// one item, or its lines commit to different forms. A list of binders and the
/// type after it are one item.
pub open spec fn refusal_of(block: SyntaxNode) -> Option<RefusalV> {
    if has_error(block) {
        Some(RefusalV::Unparsed)
    } else {
        refusal_from(block, 0, ReadV { previous: None, current: None, awaiting: false })
    }
}

/// Checks a block's lines against the rules on forms.
pub fn block_refusal(node: &SyntaxNode) -> (r: Option<BlockRefusal>)
    ensures
        opt_refusal(r) == refusal_of(*node),
{
    if holds_error(node) {
        return Some(BlockRefusal::Unparsed);
    }
    let mut previous: Option<BlockForm> = None;
    let mut current: Option<u32> = None;
    let mut awaiting = false;
    let mut i: usize = 0;
    while i < node.children.len()
        invariant
            i <= node.children@.len(),
            !has_error(*node),
            refusal_from(*node, i as int, ReadV { previous, current, awaiting }) == refusal_of(
                *node,
            ),
        decreases node.children.len() - i,
    {
        if let SyntaxElement::Node(child) = &node.children[i] {
            let ghost before = ReadV { previous, current, awaiting };
            if let Some(at) = current {
                if !on_one_line(node, at, child.range.start) {
                    current = None;
                    awaiting = false;
                }
            }
            assert(before.entering(*node, child.range.start) == (ReadV {
                previous,
                current,
                awaiting,
            }));
            if awaiting && is_type_kind(child.kind) {
                awaiting = false;
            } else {
                if let Some(form) = block_form(child) {
                    if current.is_some() {
                        return Some(BlockRefusal::Unparsed);
                    }
                    if let Some(message) = mixing_message(previous, form) {
                        return Some(BlockRefusal::FormMixing(message));
                    }
                    if child.kind == SyntaxKind::TypeBinderList {
                        awaiting = true;
                    }
                    previous = Some(form);
                    current = Some(child.range.start);
                }
            }
        }
        i += 1;
    }
    None
}

} // verus!
