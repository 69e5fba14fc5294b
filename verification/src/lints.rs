//! Style lints over the parse tree, and the lints that naming drives.

use vstd::prelude::*;

use crate::casing;
use crate::casing::{naming_style_message, NameStyle};
use crate::findings;
use crate::globals;
use crate::globals::{CorpusV, NamespaceStub, StubCorpus};
use crate::infer::contains_text;
use crate::literals;
use crate::literals::operator_token;
use crate::naming::ItemNaming;
use crate::syntax;
use crate::syntax::{
    find_expression, find_token, SyntaxElement, SyntaxKind, SyntaxNode, SyntaxToken, TextRange,
};
use crate::text::{around, same_text};
use crate::types;
use crate::walk;
use crate::walk::BindingKind;

verus! {

/// A lint's configured level: its own severity, none, or a forced one.
#[derive(Debug, Clone, Copy, PartialEq, Eq, Structural)]
pub enum LintLevel {
    Default,
    Off,
    Warn,
    Error,
}

impl Default for LintLevel {
    fn default() -> (r: LintLevel)
        ensures
            r == LintLevel::Default,
    {
        LintLevel::Default
    }
}

/// The level of each lint, and the style of names.
#[derive(Debug, Clone, Copy, PartialEq, Eq, Structural)]
pub struct LintConfig {
    /// The style of names; `None` disables the lint.
    pub naming_style: Option<NameStyle>,
    pub assignment_operator: LintLevel,
    pub boolean_shorthand: LintLevel,
    /// Accepted and never read: a missing comma does not parse.
    pub missing_comma: LintLevel,
    pub trailing_comma: LintLevel,
    /// Off by default: a method must match its generic, used or not.
    pub unused_parameter: LintLevel,
    /// Off by default.
    pub unused_import: LintLevel,
    /// Off by default: masking a builtin is often meant.
    pub shadows_builtin: LintLevel,
    /// Off by default, for the names of other namespaces.
    pub shadows_namespace: LintLevel,
}

/// The settings where none are given.
pub open spec fn default_config() -> LintConfig {
    LintConfig {
        naming_style: None,
        assignment_operator: LintLevel::Default,
        boolean_shorthand: LintLevel::Default,
        missing_comma: LintLevel::Default,
        trailing_comma: LintLevel::Default,
        unused_parameter: LintLevel::Default,
        unused_import: LintLevel::Default,
        shadows_builtin: LintLevel::Default,
        shadows_namespace: LintLevel::Default,
    }
}

impl Default for LintConfig {
    fn default() -> (r: LintConfig)
        ensures
            r == default_config(),
    {
        LintConfig {
            naming_style: None,
            assignment_operator: LintLevel::Default,
            boolean_shorthand: LintLevel::Default,
            missing_comma: LintLevel::Default,
            trailing_comma: LintLevel::Default,
            unused_parameter: LintLevel::Default,
            unused_import: LintLevel::Default,
            shadows_builtin: LintLevel::Default,
            shadows_namespace: LintLevel::Default,
        }
    }
}

/// How serious a finding is.
#[derive(Debug, Clone, Copy, PartialEq, Eq, Structural)]
pub enum Severity {
    Warning,
    Error,
}

/// One lint finding.
#[derive(Debug, PartialEq, Eq)]
pub struct Diagnostic {
    pub range: TextRange,
    pub severity: Severity,
    pub code: &'static str,
    pub message: String,
}

/// The model of a lint finding.
pub struct DiagnosticV {
    pub range: TextRange,
    pub severity: Severity,
    pub code: Seq<char>,
    pub message: Seq<char>,
}

impl Diagnostic {
    pub open spec fn view(&self) -> DiagnosticV {
        DiagnosticV {
            range: self.range,
            severity: self.severity,
            code: self.code@,
            message: self.message@,
        }
    }
}

impl Clone for Diagnostic {
    fn clone(&self) -> (r: Self)
        ensures
            r@ == self@,
    {
        Diagnostic {
            range: self.range,
            severity: self.severity,
            code: self.code,
            message: self.message.clone(),
        }
    }
}

pub open spec fn diagnostics_view(diagnostics: Seq<Diagnostic>) -> Seq<DiagnosticV> {
    Seq::new(diagnostics.len(), |i: int| diagnostics[i]@)
}

/// The severity of a lint at a level.
pub open spec fn severity_at(level: LintLevel, own: Severity) -> Option<Severity> {
    match level {
        LintLevel::Off => None,
        LintLevel::Default => Some(own),
        LintLevel::Warn => Some(Severity::Warning),
        LintLevel::Error => Some(Severity::Error),
    }
}

/// The severity of a lint that is off by default.
pub open spec fn opted_in(level: LintLevel) -> Option<Severity> {
    match level {
        LintLevel::Default => None,
        LintLevel::Off => None,
        LintLevel::Warn => Some(Severity::Warning),
        LintLevel::Error => Some(Severity::Error),
    }
}

fn severity_of(level: LintLevel, own: Severity) -> (r: Option<Severity>)
    ensures
        r == severity_at(level, own),
{
    match level {
        LintLevel::Off => None,
        LintLevel::Default => Some(own),
        LintLevel::Warn => Some(Severity::Warning),
        LintLevel::Error => Some(Severity::Error),
    }
}

fn opt_in_severity(level: LintLevel) -> (r: Option<Severity>)
    ensures
        r == opted_in(level),
{
    match level {
        LintLevel::Default | LintLevel::Off => None,
        LintLevel::Warn => Some(Severity::Warning),
        LintLevel::Error => Some(Severity::Error),
    }
}

/// The findings with one more at a level.
pub open spec fn with_lint(
    done: Seq<DiagnosticV>,
    level: LintLevel,
    own: Severity,
    code: Seq<char>,
    range: TextRange,
    message: Seq<char>,
) -> Seq<DiagnosticV> {
    match severity_at(level, own) {
        Some(severity) => done.push(DiagnosticV { range, severity, code, message }),
        None => done,
    }
}

/// The findings with a complaint about a name's style.
pub open spec fn with_style(
    done: Seq<DiagnosticV>,
    style: Option<NameStyle>,
    name: Seq<char>,
    range: TextRange,
    subject: Seq<char>,
) -> Seq<DiagnosticV> {
    match style {
        Some(style) => match casing::style_complaint(casing::cased_name(name), style, subject) {
            Some(message) => done.push(
                DiagnosticV {
                    range,
                    severity: Severity::Warning,
                    code: "naming-style"@,
                    message,
                },
            ),
            None => done,
        },
        None => done,
    }
}

fn push(diagnostics: &mut Vec<Diagnostic>, diagnostic: Diagnostic)
    ensures
        diagnostics_view(final(diagnostics)@) == diagnostics_view(old(diagnostics)@).push(
            diagnostic@,
        ),
{
    let ghost before = diagnostics_view(diagnostics@);
    let ghost one = diagnostic@;
    diagnostics.push(diagnostic);
    assert(diagnostics_view(diagnostics@) =~= before.push(one));
}

fn push_lint(
    diagnostics: &mut Vec<Diagnostic>,
    level: LintLevel,
    own: Severity,
    code: &'static str,
    range: TextRange,
    message: &str,
)
    ensures
        diagnostics_view(final(diagnostics)@) == with_lint(
            diagnostics_view(old(diagnostics)@),
            level,
            own,
            code@,
            range,
            message@,
        ),
{
    if let Some(severity) = severity_of(level, own) {
        push(diagnostics, Diagnostic { range, severity, code, message: message.to_string() });
    }
}

fn push_style(
    diagnostics: &mut Vec<Diagnostic>,
    style: Option<NameStyle>,
    name: &str,
    range: TextRange,
    subject: &str,
)
    ensures
        diagnostics_view(final(diagnostics)@) == with_style(
            diagnostics_view(old(diagnostics)@),
            style,
            name@,
            range,
            subject@,
        ),
{
    if let Some(style) = style {
        if let Some(message) = naming_style_message(name, style, subject) {
            push(
                diagnostics,
                Diagnostic { range, severity: Severity::Warning, code: "naming-style", message },
            );
        }
    }
}

/// Where the trivia that ends the first children of a node starts, and whether
/// something else stopped the walk.
pub open spec fn blank_start(node: SyntaxNode, upto: nat, end: u32) -> (u32, bool)
    decreases node, upto,
{
    if upto == 0 || upto > node.children@.len() {
        (end, false)
    } else {
        match node.children@[upto - 1] {
            SyntaxElement::Token(token) => if token.kind.is_trivia() {
                blank_start(node, (upto - 1) as nat, token.range.start)
            } else {
                (end, true)
            },
            SyntaxElement::Node(inner) => if inner.closing() is None {
                (end, true)
            } else {
                let (start, stopped) = blank_start(inner, inner.children@.len(), end);
                if stopped {
                    (start, true)
                } else {
                    blank_start(node, (upto - 1) as nat, start)
                }
            },
        }
    }
}

/// A node's range without the trivia at its end.
pub open spec fn expression_span(node: SyntaxNode) -> TextRange {
    TextRange {
        start: node.range.start,
        end: blank_start(node, node.children@.len(), node.range.end).0,
    }
}

fn walk_blanks(node: &SyntaxNode, end: u32) -> (r: (u32, bool))
    ensures
        r == blank_start(*node, node.children@.len(), end),
    decreases node,
{
    let mut start: u32 = end;
    let mut upto: usize = node.children.len();
    while upto > 0
        invariant
            upto <= node.children@.len(),
            blank_start(*node, upto as nat, start) == blank_start(
                *node,
                node.children@.len(),
                end,
            ),
        decreases upto,
    {
        match &node.children[upto - 1] {
            SyntaxElement::Token(token) => {
                if token.kind.trivia() {
                    start = token.range.start;
                } else {
                    return (start, true);
                }
            },
            SyntaxElement::Node(inner) => {
                if inner.last_token().is_none() {
                    return (start, true);
                }
                let (before, stopped) = walk_blanks(inner, start);
                if stopped {
                    return (before, true);
                }
                start = before;
            },
        }
        upto -= 1;
    }
    (start, false)
}

fn expression_range(node: &SyntaxNode) -> (r: TextRange)
    ensures
        r == expression_span(*node),
{
    TextRange { start: node.range.start, end: walk_blanks(node, node.range.end).0 }
}

/// The name that a binary expression writes: the bare name on its left.
pub open spec fn written_name(node: SyntaxNode) -> Option<SyntaxNode> {
    match syntax::next_expression(node.children@, 0) {
        Some(i) => match node.children@[i] {
            SyntaxElement::Node(target) => if target.kind == SyntaxKind::Name {
                Some(target)
            } else {
                None
            },
            SyntaxElement::Token(_) => None,
        },
        None => None,
    }
}

/// The lints on a binary expression.
pub open spec fn binary_lints(node: SyntaxNode, config: LintConfig, done: Seq<DiagnosticV>) -> Seq<
    DiagnosticV,
> {
    match literals::operator_of(node) {
        None => done,
        Some(operator) => {
            let spelled = if operator.kind == SyntaxKind::Eq {
                with_lint(
                    done,
                    config.assignment_operator,
                    Severity::Warning,
                    "assignment-operator"@,
                    operator.range,
                    "Use <-, not =, for assignment"@,
                )
            } else {
                done
            };
            if operator.kind == SyntaxKind::LessMinus || operator.kind == SyntaxKind::Eq {
                match written_name(node) {
                    Some(target) => with_style(
                        spelled,
                        config.naming_style,
                        target.content(),
                        expression_span(target),
                        "Variable"@,
                    ),
                    None => spelled,
                }
            } else {
                spelled
            }
        },
    }
}

fn lint_binary(node: &SyntaxNode, config: &LintConfig, diagnostics: &mut Vec<Diagnostic>)
    ensures
        diagnostics_view(final(diagnostics)@) == binary_lints(
            *node,
            *config,
            diagnostics_view(old(diagnostics)@),
        ),
{
    let operator = match operator_token(node) {
        Some(operator) => operator,
        None => {
            return;
        },
    };
    if operator.kind == SyntaxKind::Eq {
        push_lint(
            diagnostics,
            config.assignment_operator,
            Severity::Warning,
            "assignment-operator",
            operator.range,
            "Use <-, not =, for assignment",
        );
    }
    if operator.kind == SyntaxKind::LessMinus || operator.kind == SyntaxKind::Eq {
        if let Some(i) = find_expression(&node.children, 0) {
            if let SyntaxElement::Node(target) = &node.children[i] {
                if target.kind == SyntaxKind::Name {
                    let name = target.text();
                    push_style(
                        diagnostics,
                        config.naming_style,
                        name.as_str(),
                        expression_range(target),
                        "Variable",
                    );
                }
            }
        }
    }
}

/// The last comma of an argument list that no argument follows.
pub open spec fn loose_comma(
    elements: Seq<SyntaxElement>,
    from: int,
    last: Option<TextRange>,
) -> Option<TextRange>
    decreases elements.len() - from,
{
    if 0 <= from < elements.len() {
        loose_comma(
            elements,
            from + 1,
            match elements[from] {
                SyntaxElement::Token(token) => if token.kind == SyntaxKind::Comma {
                    Some(token.range)
                } else {
                    last
                },
                SyntaxElement::Node(node) => if node.kind == SyntaxKind::Argument {
                    None
                } else {
                    last
                },
            },
        )
    } else {
        last
    }
}

pub open spec fn comma_lints(list: SyntaxNode, config: LintConfig, done: Seq<DiagnosticV>) -> Seq<
    DiagnosticV,
> {
    match loose_comma(list.children@, 0, None) {
        Some(range) => with_lint(
            done,
            config.trailing_comma,
            Severity::Error,
            "trailing-comma"@,
            range,
            "Unexpected comma after last argument"@,
        ),
        None => done,
    }
}

fn lint_trailing_comma(list: &SyntaxNode, config: &LintConfig, diagnostics: &mut Vec<Diagnostic>)
    ensures
        diagnostics_view(final(diagnostics)@) == comma_lints(
            *list,
            *config,
            diagnostics_view(old(diagnostics)@),
        ),
{
    let mut last: Option<TextRange> = None;
    let mut i: usize = 0;
    while i < list.children.len()
        invariant
            i <= list.children@.len(),
            loose_comma(list.children@, i as int, last) == loose_comma(list.children@, 0, None),
        decreases list.children.len() - i,
    {
        match &list.children[i] {
            SyntaxElement::Token(token) => {
                if token.kind == SyntaxKind::Comma {
                    last = Some(token.range);
                }
            },
            SyntaxElement::Node(node) => {
                if node.kind == SyntaxKind::Argument {
                    last = None;
                }
            },
        }
        i += 1;
    }
    if let Some(range) = last {
        push_lint(
            diagnostics,
            config.trailing_comma,
            Severity::Error,
            "trailing-comma",
            range,
            "Unexpected comma after last argument",
        );
    }
}

pub open spec fn parameter_lints(
    parameter: SyntaxNode,
    config: LintConfig,
    done: Seq<DiagnosticV>,
) -> Seq<DiagnosticV> {
    match syntax::next_token(parameter.children@, SyntaxKind::Ident, 0) {
        Some(i) => {
            let token = parameter.children@[i]->Token_0;
            with_style(done, config.naming_style, token.text@, token.range, "Parameter"@)
        },
        None => done,
    }
}

fn lint_parameter_name(
    parameter: &SyntaxNode,
    config: &LintConfig,
    diagnostics: &mut Vec<Diagnostic>,
)
    ensures
        diagnostics_view(final(diagnostics)@) == parameter_lints(
            *parameter,
            *config,
            diagnostics_view(old(diagnostics)@),
        ),
{
    if let Some(i) = find_token(&parameter.children, SyntaxKind::Ident, 0) {
        if let SyntaxElement::Token(token) = &parameter.children[i] {
            push_style(
                diagnostics,
                config.naming_style,
                token.text.as_str(),
                token.range,
                "Parameter",
            );
        }
    }
}

/// The lints on a token: `T` and `F` stand for no Boolean value.
pub open spec fn token_lints(
    token: SyntaxToken,
    inside: bool,
    config: LintConfig,
    done: Seq<DiagnosticV>,
) -> Seq<DiagnosticV> {
    if token.kind != SyntaxKind::Ident || inside {
        done
    } else if token.text@ == "T"@ {
        with_lint(
            done,
            config.boolean_shorthand,
            Severity::Warning,
            "boolean-shorthand"@,
            token.range,
            "Use TRUE, not T, for Boolean values"@,
        )
    } else if token.text@ == "F"@ {
        with_lint(
            done,
            config.boolean_shorthand,
            Severity::Warning,
            "boolean-shorthand"@,
            token.range,
            "Use FALSE, not F, for Boolean values"@,
        )
    } else {
        done
    }
}

fn lint_token(
    token: &SyntaxToken,
    inside: bool,
    config: &LintConfig,
    diagnostics: &mut Vec<Diagnostic>,
)
    ensures
        diagnostics_view(final(diagnostics)@) == token_lints(
            *token,
            inside,
            *config,
            diagnostics_view(old(diagnostics)@),
        ),
{
    if token.kind != SyntaxKind::Ident || inside {
        return;
    }
    let message = if same_text(token.text.as_str(), "T") {
        "Use TRUE, not T, for Boolean values"
    } else if same_text(token.text.as_str(), "F") {
        "Use FALSE, not F, for Boolean values"
    } else {
        return;
    };
    push_lint(
        diagnostics,
        config.boolean_shorthand,
        Severity::Warning,
        "boolean-shorthand",
        token.range,
        message,
    );
}

/// The lints on a node itself. The commas of a call are checked, not those of an
/// index.
pub open spec fn own_lints(
    node: SyntaxNode,
    of_call: bool,
    config: LintConfig,
    done: Seq<DiagnosticV>,
) -> Seq<DiagnosticV> {
    match node.kind {
        SyntaxKind::BinaryExpr => binary_lints(node, config, done),
        SyntaxKind::ArgumentList => if of_call {
            comma_lints(node, config, done)
        } else {
            done
        },
        SyntaxKind::Parameter => parameter_lints(node, config, done),
        _ => done,
    }
}

/// The lints on a node and everything below it, in source order. Inside an
/// annotation a name is no R identifier.
pub open spec fn node_lints(
    node: SyntaxNode,
    of_call: bool,
    inside: bool,
    config: LintConfig,
    done: Seq<DiagnosticV>,
) -> Seq<DiagnosticV>
    decreases node, 1int, 0int,
{
    child_lints(
        node,
        inside || node.kind == SyntaxKind::Annotation,
        config,
        0,
        own_lints(node, of_call, config, done),
    )
}

pub open spec fn child_lints(
    node: SyntaxNode,
    inside: bool,
    config: LintConfig,
    from: int,
    done: Seq<DiagnosticV>,
) -> Seq<DiagnosticV>
    decreases node, 0int, node.children@.len() - from,
{
    if 0 <= from < node.children@.len() {
        child_lints(
            node,
            inside,
            config,
            from + 1,
            match node.children@[from] {
                SyntaxElement::Node(child) => node_lints(
                    child,
                    node.kind == SyntaxKind::CallExpr,
                    inside,
                    config,
                    done,
                ),
                SyntaxElement::Token(token) => token_lints(token, inside, config, done),
            },
        )
    } else {
        done
    }
}

fn lint_node(
    node: &SyntaxNode,
    of_call: bool,
    inside: bool,
    config: &LintConfig,
    diagnostics: &mut Vec<Diagnostic>,
)
    ensures
        diagnostics_view(final(diagnostics)@) == node_lints(
            *node,
            of_call,
            inside,
            *config,
            diagnostics_view(old(diagnostics)@),
        ),
    decreases node,
{
    match node.kind {
        SyntaxKind::BinaryExpr => {
            lint_binary(node, config, diagnostics);
        },
        SyntaxKind::ArgumentList => {
            if of_call {
                lint_trailing_comma(node, config, diagnostics);
            }
        },
        SyntaxKind::Parameter => {
            lint_parameter_name(node, config, diagnostics);
        },
        _ => {},
    }
    let within = inside || node.kind == SyntaxKind::Annotation;
    let ghost start = diagnostics_view(diagnostics@);
    let mut i: usize = 0;
    while i < node.children.len()
        invariant
            i <= node.children@.len(),
            child_lints(
                *node,
                within,
                *config,
                i as int,
                diagnostics_view(diagnostics@),
            ) == child_lints(*node, within, *config, 0, start),
        decreases node.children.len() - i,
    {
        match &node.children[i] {
            SyntaxElement::Node(child) => {
                assert(decreases_to!(*node => *child));
                lint_node(
                    child,
                    node.kind == SyntaxKind::CallExpr,
                    within,
                    config,
                    diagnostics,
                );
            },
            SyntaxElement::Token(token) => {
                lint_token(token, within, config, diagnostics);
            },
        }
        i += 1;
    }
}

/// One item of a file, as the lints see it.
#[derive(Debug)]
pub struct LintItem {
    /// The item's place in the file.
    pub range: TextRange,
    pub name: Option<String>,
    /// Whether the item defines a method of a generic.
    pub is_method: bool,
    pub naming: Option<ItemNaming>,
}

/// Whether a range can be moved by an offset.
pub open spec fn movable(range: TextRange, by: u32) -> bool {
    range.start + by <= u32::MAX && range.end + by <= u32::MAX
}

/// A range moved by an offset.
pub open spec fn moved(range: TextRange, by: u32) -> TextRange {
    TextRange { start: (range.start + by) as u32, end: (range.end + by) as u32 }
}

fn move_range(range: TextRange, by: u32) -> (r: TextRange)
    requires
        movable(range, by),
    ensures
        r == moved(range, by),
{
    TextRange { start: range.start + by, end: range.end + by }
}

impl LintItem {
    /// Whether every range of the item has a place in the file.
    pub open spec fn fits(&self) -> bool {
        match self.naming {
            Some(naming) => {
                &&& forall|i: int|
                    #![trigger naming@.unused_parameters[i]]
                    0 <= i < naming@.unused_parameters.len() ==> movable(
                        naming@.unused_parameters[i].range,
                        self.range.start,
                    )
                &&& forall|i: int|
                    #![trigger naming@.bindings[i]]
                    0 <= i < naming@.bindings.len() ==> movable(
                        naming@.bindings[i].range,
                        self.range.start,
                    )
            },
            None => true,
        }
    }

    /// Whether the item's formals are not its author's choice: a generic hands
    /// its arguments on, and a method must match its generic.
    pub open spec fn exempt(&self, generics: Seq<Seq<char>>) -> bool {
        match self.name {
            Some(name) => self.is_method || generics.contains(name@),
            None => false,
        }
    }

    fn is_exempt(&self, generics: &Vec<String>) -> (r: bool)
        ensures
            r == self.exempt(types::texts(generics@)),
    {
        match &self.name {
            Some(name) => self.is_method || contains_text(generics, name.as_str()),
            None => false,
        }
    }
}

pub open spec fn unused_message(name: Seq<char>) -> Seq<char> {
    "parameter `"@ + name + "` is never used."@
}

/// The findings on the unused parameters from one on.
pub open spec fn unused_lints(
    unused: Seq<walk::UnusedV>,
    from: int,
    severity: Severity,
    offset: u32,
    done: Seq<DiagnosticV>,
) -> Seq<DiagnosticV>
    decreases unused.len() - from,
{
    if 0 <= from < unused.len() {
        unused_lints(
            unused,
            from + 1,
            severity,
            offset,
            done.push(
                DiagnosticV {
                    range: moved(unused[from].range, offset),
                    severity,
                    code: "unused-parameter"@,
                    message: unused_message(unused[from].name),
                },
            ),
        )
    } else {
        done
    }
}

/// The findings on the unused parameters of the items from one on.
pub open spec fn item_unused_lints(
    items: Seq<LintItem>,
    generics: Seq<Seq<char>>,
    severity: Severity,
    from: int,
    done: Seq<DiagnosticV>,
) -> Seq<DiagnosticV>
    decreases items.len() - from,
{
    if 0 <= from < items.len() {
        item_unused_lints(
            items,
            generics,
            severity,
            from + 1,
            match items[from].naming {
                Some(naming) => if items[from].exempt(generics) {
                    done
                } else {
                    unused_lints(
                        naming@.unused_parameters,
                        0,
                        severity,
                        items[from].range.start,
                        done,
                    )
                },
                None => done,
            },
        )
    } else {
        done
    }
}

fn lint_unused(
    naming: &ItemNaming,
    severity: Severity,
    offset: u32,
    diagnostics: &mut Vec<Diagnostic>,
)
    requires
        forall|i: int|
            #![trigger naming@.unused_parameters[i]]
            0 <= i < naming@.unused_parameters.len() ==> movable(
                naming@.unused_parameters[i].range,
                offset,
            ),
    ensures
        diagnostics_view(final(diagnostics)@) == unused_lints(
            naming@.unused_parameters,
            0,
            severity,
            offset,
            diagnostics_view(old(diagnostics)@),
        ),
{
    let ghost all = naming@.unused_parameters;
    let ghost start = diagnostics_view(diagnostics@);
    let mut i: usize = 0;
    while i < naming.unused_parameters.len()
        invariant
            i <= naming.unused_parameters@.len(),
            all == naming@.unused_parameters,
            forall|k: int|
                #![trigger all[k]]
                0 <= k < all.len() ==> movable(all[k].range, offset),
            unused_lints(all, i as int, severity, offset, diagnostics_view(diagnostics@))
                == unused_lints(all, 0, severity, offset, start),
        decreases naming.unused_parameters.len() - i,
    {
        let unused = &naming.unused_parameters[i];
        assert(all[i as int] == unused@);
        push(
            diagnostics,
            Diagnostic {
                range: move_range(unused.range, offset),
                severity,
                code: "unused-parameter",
                message: around("parameter `", unused.name.as_str(), "` is never used."),
            },
        );
        i += 1;
    }
}

fn lint_unused_parameters(
    items: &Vec<LintItem>,
    generics: &Vec<String>,
    severity: Severity,
    diagnostics: &mut Vec<Diagnostic>,
)
    requires
        forall|i: int| 0 <= i < items@.len() ==> (#[trigger] items@[i]).fits(),
    ensures
        diagnostics_view(final(diagnostics)@) == item_unused_lints(
            items@,
            types::texts(generics@),
            severity,
            0,
            diagnostics_view(old(diagnostics)@),
        ),
{
    let ghost names = types::texts(generics@);
    let ghost start = diagnostics_view(diagnostics@);
    let mut i: usize = 0;
    while i < items.len()
        invariant
            i <= items@.len(),
            names == types::texts(generics@),
            forall|k: int| 0 <= k < items@.len() ==> (#[trigger] items@[k]).fits(),
            item_unused_lints(
                items@,
                names,
                severity,
                i as int,
                diagnostics_view(diagnostics@),
            ) == item_unused_lints(items@, names, severity, 0, start),
        decreases items.len() - i,
    {
        let item = &items[i];
        assert(items@[i as int].fits());
        if let Some(naming) = &item.naming {
            if !item.is_exempt(generics) {
                lint_unused(naming, severity, item.range.start, diagnostics);
            }
        }
        i += 1;
    }
}

/// The first namespace from one on that exports a name.
pub open spec fn exporting_from(
    namespaces: Seq<(Seq<char>, Seq<Seq<char>>)>,
    name: Seq<char>,
    from: int,
) -> Option<Seq<char>>
    decreases namespaces.len() - from,
{
    if 0 <= from < namespaces.len() {
        if namespaces[from].1.contains(name) {
            Some(namespaces[from].0)
        } else {
            exporting_from(namespaces, name, from + 1)
        }
    } else {
        None
    }
}

/// Whether `base` exports a name.
pub open spec fn is_builtin(namespaces: Seq<(Seq<char>, Seq<Seq<char>>)>, name: Seq<char>) -> bool {
    match globals::exports_of(namespaces, "base"@, 0) {
        Some(exports) => exports.contains(name),
        None => false,
    }
}

pub open spec fn builtin_message(name: Seq<char>) -> Seq<char> {
    "Top-level binding `"@ + name + "` shadows a builtin."@
}

pub open spec fn namespace_message(name: Seq<char>, namespace: Seq<char>) -> Seq<char> {
    "Top-level binding `"@ + name + ("` shadows `"@ + namespace + ("::"@ + name + "`."@))
}

/// The findings with one on a top-level name that the corpus resolves.
pub open spec fn with_shadow(
    namespaces: Seq<(Seq<char>, Seq<Seq<char>>)>,
    config: LintConfig,
    name: Seq<char>,
    range: TextRange,
    done: Seq<DiagnosticV>,
) -> Seq<DiagnosticV> {
    if is_builtin(namespaces, name) {
        match opted_in(config.shadows_builtin) {
            Some(severity) => done.push(
                DiagnosticV {
                    range,
                    severity,
                    code: "shadows-builtin"@,
                    message: builtin_message(name),
                },
            ),
            None => done,
        }
    } else {
        match (opted_in(config.shadows_namespace), exporting_from(namespaces, name, 0)) {
            (Some(severity), Some(namespace)) => done.push(
                DiagnosticV {
                    range,
                    severity,
                    code: "shadows-namespace"@,
                    message: namespace_message(name, namespace),
                },
            ),
            _ => done,
        }
    }
}

/// The findings on the slots from one on.
pub open spec fn slot_shadow_lints(
    bindings: Seq<walk::BindingV>,
    namespaces: Seq<(Seq<char>, Seq<Seq<char>>)>,
    config: LintConfig,
    offset: u32,
    from: int,
    done: Seq<DiagnosticV>,
) -> Seq<DiagnosticV>
    decreases bindings.len() - from,
{
    if 0 <= from < bindings.len() {
        slot_shadow_lints(
            bindings,
            namespaces,
            config,
            offset,
            from + 1,
            if bindings[from].kind == BindingKind::TopLevel {
                with_shadow(
                    namespaces,
                    config,
                    bindings[from].name,
                    moved(bindings[from].range, offset),
                    done,
                )
            } else {
                done
            },
        )
    } else {
        done
    }
}

/// The findings on the top-level names of the items from one on.
pub open spec fn item_shadow_lints(
    items: Seq<LintItem>,
    namespaces: Seq<(Seq<char>, Seq<Seq<char>>)>,
    config: LintConfig,
    from: int,
    done: Seq<DiagnosticV>,
) -> Seq<DiagnosticV>
    decreases items.len() - from,
{
    if 0 <= from < items.len() {
        item_shadow_lints(
            items,
            namespaces,
            config,
            from + 1,
            match items[from].naming {
                Some(naming) => slot_shadow_lints(
                    naming@.bindings,
                    namespaces,
                    config,
                    items[from].range.start,
                    0,
                    done,
                ),
                None => done,
            },
        )
    } else {
        done
    }
}

fn find_exporting<'a>(stubs: &'a Vec<NamespaceStub>, name: &str) -> (r: Option<&'a String>)
    ensures
        (match r {
            Some(namespace) => Some(namespace@),
            None => None,
        }) == exporting_from(globals::namespaces_view(stubs@), name@, 0),
{
    let ghost all = globals::namespaces_view(stubs@);
    let mut i: usize = 0;
    while i < stubs.len()
        invariant
            i <= stubs@.len(),
            all == globals::namespaces_view(stubs@),
            exporting_from(all, name@, i as int) == exporting_from(all, name@, 0),
        decreases stubs.len() - i,
    {
        assert(all[i as int] == (
            stubs@[i as int].package@,
            types::texts(stubs@[i as int].exports@),
        ));
        if contains_text(&stubs[i].exports, name) {
            return Some(&stubs[i].package);
        }
        i += 1;
    }
    None
}

fn lint_shadow(
    stubs: &Vec<NamespaceStub>,
    config: &LintConfig,
    name: &String,
    range: TextRange,
    diagnostics: &mut Vec<Diagnostic>,
)
    ensures
        diagnostics_view(final(diagnostics)@) == with_shadow(
            globals::namespaces_view(stubs@),
            *config,
            name@,
            range,
            diagnostics_view(old(diagnostics)@),
        ),
{
    let builtin = match globals::namespace_exports(stubs, "base") {
        Some(exports) => contains_text(exports, name.as_str()),
        None => false,
    };
    if builtin {
        if let Some(severity) = opt_in_severity(config.shadows_builtin) {
            push(
                diagnostics,
                Diagnostic {
                    range,
                    severity,
                    code: "shadows-builtin",
                    message: around("Top-level binding `", name.as_str(), "` shadows a builtin."),
                },
            );
        }
        return;
    }
    if let Some(severity) = opt_in_severity(config.shadows_namespace) {
        if let Some(namespace) = find_exporting(stubs, name.as_str()) {
            let qualified = around("::", name.as_str(), "`.");
            let shadowed = around("` shadows `", namespace.as_str(), qualified.as_str());
            push(
                diagnostics,
                Diagnostic {
                    range,
                    severity,
                    code: "shadows-namespace",
                    message: around("Top-level binding `", name.as_str(), shadowed.as_str()),
                },
            );
        }
    }
}

fn lint_slots(
    naming: &ItemNaming,
    stubs: &Vec<NamespaceStub>,
    config: &LintConfig,
    offset: u32,
    diagnostics: &mut Vec<Diagnostic>,
)
    requires
        forall|i: int|
            #![trigger naming@.bindings[i]]
            0 <= i < naming@.bindings.len() ==> movable(naming@.bindings[i].range, offset),
    ensures
        diagnostics_view(final(diagnostics)@) == slot_shadow_lints(
            naming@.bindings,
            globals::namespaces_view(stubs@),
            *config,
            offset,
            0,
            diagnostics_view(old(diagnostics)@),
        ),
{
    let ghost all = naming@.bindings;
    let ghost known = globals::namespaces_view(stubs@);
    let ghost start = diagnostics_view(diagnostics@);
    let mut i: usize = 0;
    while i < naming.bindings.len()
        invariant
            i <= naming.bindings@.len(),
            all == naming@.bindings,
            known == globals::namespaces_view(stubs@),
            forall|k: int|
                #![trigger all[k]]
                0 <= k < all.len() ==> movable(all[k].range, offset),
            slot_shadow_lints(
                all,
                known,
                *config,
                offset,
                i as int,
                diagnostics_view(diagnostics@),
            ) == slot_shadow_lints(all, known, *config, offset, 0, start),
        decreases naming.bindings.len() - i,
    {
        let binding = &naming.bindings[i];
        assert(all[i as int] == binding@);
        if binding.kind == BindingKind::TopLevel {
            let range = move_range(binding.range, offset);
            lint_shadow(stubs, config, &binding.name, range, diagnostics);
        }
        i += 1;
    }
}

/// The findings on top-level names that the corpus resolves.
pub open spec fn shadow_lints(
    items: Seq<LintItem>,
    corpus: CorpusV,
    config: LintConfig,
    done: Seq<DiagnosticV>,
) -> Seq<DiagnosticV> {
    if opted_in(config.shadows_builtin) is None && opted_in(config.shadows_namespace) is None {
        done
    } else {
        match corpus.namespaces {
            Some(namespaces) => item_shadow_lints(items, namespaces, config, 0, done),
            None => done,
        }
    }
}

fn lint_shadows(
    items: &Vec<LintItem>,
    corpus: &StubCorpus,
    config: &LintConfig,
    diagnostics: &mut Vec<Diagnostic>,
)
    requires
        forall|i: int| 0 <= i < items@.len() ==> (#[trigger] items@[i]).fits(),
    ensures
        diagnostics_view(final(diagnostics)@) == shadow_lints(
            items@,
            corpus@,
            *config,
            diagnostics_view(old(diagnostics)@),
        ),
{
    if opt_in_severity(config.shadows_builtin).is_none() && opt_in_severity(
        config.shadows_namespace,
    ).is_none() {
        return;
    }
    let stubs = match &corpus.namespaces {
        Some(stubs) => stubs,
        None => {
            return;
        },
    };
    let ghost known = globals::namespaces_view(stubs@);
    let ghost start = diagnostics_view(diagnostics@);
    let mut i: usize = 0;
    while i < items.len()
        invariant
            i <= items@.len(),
            known == globals::namespaces_view(stubs@),
            forall|k: int| 0 <= k < items@.len() ==> (#[trigger] items@[k]).fits(),
            item_shadow_lints(
                items@,
                known,
                *config,
                i as int,
                diagnostics_view(diagnostics@),
            ) == item_shadow_lints(items@, known, *config, 0, start),
        decreases items.len() - i,
    {
        let item = &items[i];
        assert(items@[i as int].fits());
        if let Some(naming) = &item.naming {
            lint_slots(naming, stubs, config, item.range.start, diagnostics);
        }
        i += 1;
    }
}

/// A list with a finding put before the first that it comes before.
pub open spec fn inserted(sorted: Seq<DiagnosticV>, diagnostic: DiagnosticV) -> Seq<DiagnosticV>
    decreases sorted.len(),
{
    if sorted.len() == 0 || !findings::range_before(diagnostic.range, sorted.last().range) {
        sorted.push(diagnostic)
    } else {
        inserted(sorted.drop_last(), diagnostic).push(sorted.last())
    }
}

/// Findings in the order of their ranges; findings of one range keep their
/// order.
pub open spec fn by_range(diagnostics: Seq<DiagnosticV>) -> Seq<DiagnosticV>
    decreases diagnostics.len(),
{
    if diagnostics.len() == 0 {
        Seq::empty()
    } else {
        inserted(by_range(diagnostics.drop_last()), diagnostics.last())
    }
}

fn insert_by_range(sorted: &mut Vec<Diagnostic>, diagnostic: Diagnostic)
    ensures
        diagnostics_view(final(sorted)@) == inserted(
            diagnostics_view(old(sorted)@),
            diagnostic@,
        ),
    decreases old(sorted)@.len(),
{
    let ghost before = diagnostics_view(sorted@);
    let ghost one = diagnostic@;
    let count: usize = sorted.len();
    let belongs_last = count == 0 || !(diagnostic.range.start < sorted[count - 1].range.start || (
    diagnostic.range.start == sorted[count - 1].range.start && diagnostic.range.end
        < sorted[count - 1].range.end));
    if belongs_last {
        sorted.push(diagnostic);
        assert(diagnostics_view(sorted@) =~= before.push(one));
        return;
    }
    if let Some(last) = sorted.pop() {
        let ghost moved = last@;
        assert(diagnostics_view(sorted@) =~= before.drop_last());
        insert_by_range(sorted, diagnostic);
        let ghost shorter = diagnostics_view(sorted@);
        sorted.push(last);
        assert(diagnostics_view(sorted@) =~= shorter.push(moved));
    }
}

fn sort_by_range(diagnostics: &Vec<Diagnostic>) -> (r: Vec<Diagnostic>)
    ensures
        diagnostics_view(r@) == by_range(diagnostics_view(diagnostics@)),
{
    let ghost all = diagnostics_view(diagnostics@);
    let mut sorted: Vec<Diagnostic> = Vec::new();
    assert(diagnostics_view(sorted@) =~= by_range(all.subrange(0, 0)));
    let mut i: usize = 0;
    while i < diagnostics.len()
        invariant
            i <= diagnostics@.len(),
            all == diagnostics_view(diagnostics@),
            diagnostics_view(sorted@) == by_range(all.subrange(0, i as int)),
        decreases diagnostics.len() - i,
    {
        assert(all.subrange(0, i + 1).drop_last() =~= all.subrange(0, i as int));
        insert_by_range(&mut sorted, diagnostics[i].clone());
        i += 1;
    }
    assert(all.subrange(0, all.len() as int) =~= all);
    sorted
}

proof fn insertion_keeps_order(sorted: Seq<DiagnosticV>, diagnostic: DiagnosticV)
    requires
        is_ordered(sorted),
    ensures
        inserted(sorted, diagnostic).to_multiset() == sorted.push(diagnostic).to_multiset(),
        inserted(sorted, diagnostic).len() == sorted.len() + 1,
        is_ordered(inserted(sorted, diagnostic)),
    decreases sorted.len(),
{
    broadcast use vstd::seq_lib::group_to_multiset_ensures;

    if sorted.len() > 0 && findings::range_before(diagnostic.range, sorted.last().range) {
        let shorter = sorted.drop_last();
        let moved = inserted(shorter, diagnostic);
        insertion_keeps_order(shorter, diagnostic);
        assert(shorter.push(sorted.last()) =~= sorted);
        assert(moved.push(sorted.last()).to_multiset() =~= sorted.push(diagnostic).to_multiset());
        assert forall|i: int| 0 <= i < moved.len() implies !findings::range_before(
            sorted.last().range,
            #[trigger] moved[i].range,
        ) by {
            let x = moved[i];
            assert(moved.to_multiset().count(x) > 0);
            assert(shorter.push(diagnostic).to_multiset().count(x) > 0);
            assert(shorter.push(diagnostic).contains(x));
            let k = choose|k: int|
                0 <= k < shorter.push(diagnostic).len() && shorter.push(diagnostic)[k] == x;
            if k < shorter.len() {
                assert(sorted[k] == x);
            }
        }
    }
}

/// Whether no finding comes before one that stands earlier.
pub open spec fn is_ordered(diagnostics: Seq<DiagnosticV>) -> bool {
    forall|i: int, j: int|
        0 <= i < j < diagnostics.len() ==> !findings::range_before(
            #[trigger] diagnostics[j].range,
            #[trigger] diagnostics[i].range,
        )
}

/// Sorting loses no finding and invents none, and leaves the findings in the
/// order of their ranges.
pub proof fn lints_are_sorted(diagnostics: Seq<DiagnosticV>)
    ensures
        by_range(diagnostics).to_multiset() == diagnostics.to_multiset(),
        is_ordered(by_range(diagnostics)),
    decreases diagnostics.len(),
{
    broadcast use vstd::seq_lib::group_to_multiset_ensures;

    if diagnostics.len() > 0 {
        lints_are_sorted(diagnostics.drop_last());
        insertion_keeps_order(by_range(diagnostics.drop_last()), diagnostics.last());
        assert(diagnostics.drop_last().push(diagnostics.last()) =~= diagnostics);
    }
}

/// With every lint off there is no finding.
pub proof fn lints_can_be_silenced(
    root: SyntaxNode,
    items: Seq<LintItem>,
    generics: Seq<Seq<char>>,
    corpus: CorpusV,
    config: LintConfig,
)
    requires
        config.naming_style is None,
        config.assignment_operator == LintLevel::Off,
        config.boolean_shorthand == LintLevel::Off,
        config.trailing_comma == LintLevel::Off,
        opted_in(config.unused_parameter) is None,
        opted_in(config.shadows_builtin) is None,
        opted_in(config.shadows_namespace) is None,
    ensures
        findings_of(root, items, generics, corpus, config).len() == 0,
{
    silent_nodes_add_nothing(root, false, false, config, Seq::empty());
}

proof fn silent_nodes_add_nothing(
    node: SyntaxNode,
    of_call: bool,
    inside: bool,
    config: LintConfig,
    done: Seq<DiagnosticV>,
)
    requires
        config.naming_style is None,
        config.assignment_operator == LintLevel::Off,
        config.boolean_shorthand == LintLevel::Off,
        config.trailing_comma == LintLevel::Off,
    ensures
        node_lints(node, of_call, inside, config, done) == done,
    decreases node, 1int, 0int,
{
    assert(own_lints(node, of_call, config, done) == done);
    silent_children_add_nothing(
        node,
        inside || node.kind == SyntaxKind::Annotation,
        config,
        0,
        done,
    );
}

proof fn silent_children_add_nothing(
    node: SyntaxNode,
    inside: bool,
    config: LintConfig,
    from: int,
    done: Seq<DiagnosticV>,
)
    requires
        config.naming_style is None,
        config.assignment_operator == LintLevel::Off,
        config.boolean_shorthand == LintLevel::Off,
        config.trailing_comma == LintLevel::Off,
    ensures
        child_lints(node, inside, config, from, done) == done,
    decreases node, 0int, node.children@.len() - from,
{
    if 0 <= from < node.children@.len() {
        match node.children@[from] {
            SyntaxElement::Node(child) => {
                silent_nodes_add_nothing(
                    child,
                    node.kind == SyntaxKind::CallExpr,
                    inside,
                    config,
                    done,
                );
            },
            SyntaxElement::Token(_) => {},
        }
        silent_children_add_nothing(node, inside, config, from + 1, done);
    }
}

/// Every lint finding of a file, before they are sorted.
pub open spec fn findings_of(
    root: SyntaxNode,
    items: Seq<LintItem>,
    generics: Seq<Seq<char>>,
    corpus: CorpusV,
    config: LintConfig,
) -> Seq<DiagnosticV> {
    let syntactic = node_lints(root, false, false, config, Seq::empty());
    let unused = match opted_in(config.unused_parameter) {
        Some(severity) => item_unused_lints(items, generics, severity, 0, syntactic),
        None => syntactic,
    };
    shadow_lints(items, corpus, config, unused)
}

/// Whether settings differ at most in the level of the missing comma.
pub open spec fn same_but_comma(a: LintConfig, b: LintConfig) -> bool {
    b == (LintConfig { missing_comma: b.missing_comma, ..a })
}

proof fn nodes_ignore_the_comma(
    node: SyntaxNode,
    of_call: bool,
    inside: bool,
    a: LintConfig,
    b: LintConfig,
    done: Seq<DiagnosticV>,
)
    requires
        same_but_comma(a, b),
    ensures
        node_lints(node, of_call, inside, a, done) == node_lints(node, of_call, inside, b, done),
    decreases node, 1int, 0int,
{
    children_ignore_the_comma(
        node,
        inside || node.kind == SyntaxKind::Annotation,
        a,
        b,
        0,
        own_lints(node, of_call, a, done),
    );
}

proof fn children_ignore_the_comma(
    node: SyntaxNode,
    inside: bool,
    a: LintConfig,
    b: LintConfig,
    from: int,
    done: Seq<DiagnosticV>,
)
    requires
        same_but_comma(a, b),
    ensures
        child_lints(node, inside, a, from, done) == child_lints(node, inside, b, from, done),
    decreases node, 0int, node.children@.len() - from,
{
    if 0 <= from < node.children@.len() {
        let next = match node.children@[from] {
            SyntaxElement::Node(child) => {
                let of_call = node.kind == SyntaxKind::CallExpr;
                nodes_ignore_the_comma(child, of_call, inside, a, b, done);
                node_lints(child, of_call, inside, a, done)
            },
            SyntaxElement::Token(token) => token_lints(token, inside, a, done),
        };
        children_ignore_the_comma(node, inside, a, b, from + 1, next);
    }
}

proof fn slots_ignore_the_comma(
    bindings: Seq<walk::BindingV>,
    namespaces: Seq<(Seq<char>, Seq<Seq<char>>)>,
    a: LintConfig,
    b: LintConfig,
    offset: u32,
    from: int,
    done: Seq<DiagnosticV>,
)
    requires
        same_but_comma(a, b),
    ensures
        slot_shadow_lints(bindings, namespaces, a, offset, from, done) == slot_shadow_lints(
            bindings,
            namespaces,
            b,
            offset,
            from,
            done,
        ),
    decreases bindings.len() - from,
{
    if 0 <= from < bindings.len() {
        let next = if bindings[from].kind == BindingKind::TopLevel {
            with_shadow(
                namespaces,
                a,
                bindings[from].name,
                moved(bindings[from].range, offset),
                done,
            )
        } else {
            done
        };
        slots_ignore_the_comma(bindings, namespaces, a, b, offset, from + 1, next);
    }
}

proof fn items_ignore_the_comma(
    items: Seq<LintItem>,
    namespaces: Seq<(Seq<char>, Seq<Seq<char>>)>,
    a: LintConfig,
    b: LintConfig,
    from: int,
    done: Seq<DiagnosticV>,
)
    requires
        same_but_comma(a, b),
    ensures
        item_shadow_lints(items, namespaces, a, from, done) == item_shadow_lints(
            items,
            namespaces,
            b,
            from,
            done,
        ),
    decreases items.len() - from,
{
    if 0 <= from < items.len() {
        let next = match items[from].naming {
            Some(naming) => {
                let offset = items[from].range.start;
                slots_ignore_the_comma(naming@.bindings, namespaces, a, b, offset, 0, done);
                slot_shadow_lints(naming@.bindings, namespaces, a, offset, 0, done)
            },
            None => done,
        };
        items_ignore_the_comma(items, namespaces, a, b, from + 1, next);
    }
}

/// The level of the missing comma changes nothing: such a comma is refused by
/// the parser.
pub proof fn the_missing_comma_changes_nothing(
    root: SyntaxNode,
    items: Seq<LintItem>,
    generics: Seq<Seq<char>>,
    corpus: CorpusV,
    a: LintConfig,
    b: LintConfig,
)
    requires
        same_but_comma(a, b),
    ensures
        findings_of(root, items, generics, corpus, a) == findings_of(
            root,
            items,
            generics,
            corpus,
            b,
        ),
{
    nodes_ignore_the_comma(root, false, false, a, b, Seq::empty());
    match corpus.namespaces {
        Some(namespaces) => {
            let syntactic = node_lints(root, false, false, a, Seq::empty());
            let unused = match opted_in(a.unused_parameter) {
                Some(severity) => item_unused_lints(items, generics, severity, 0, syntactic),
                None => syntactic,
            };
            items_ignore_the_comma(items, namespaces, a, b, 0, unused);
        },
        None => {},
    }
}

/// Whether every finding has the code of a lint that is on by default.
pub open spec fn on_by_default(diagnostics: Seq<DiagnosticV>) -> bool {
    forall|i: int|
        0 <= i < diagnostics.len() ==> {
            let code = (#[trigger] diagnostics[i]).code;
            code == "assignment-operator"@ || code == "boolean-shorthand"@ || code
                == "trailing-comma"@
        }
}

proof fn default_nodes_stay_quiet(
    node: SyntaxNode,
    of_call: bool,
    inside: bool,
    config: LintConfig,
    done: Seq<DiagnosticV>,
)
    requires
        config.naming_style is None,
        on_by_default(done),
    ensures
        on_by_default(node_lints(node, of_call, inside, config, done)),
    decreases node, 1int, 0int,
{
    default_children_stay_quiet(
        node,
        inside || node.kind == SyntaxKind::Annotation,
        config,
        0,
        own_lints(node, of_call, config, done),
    );
}

proof fn default_children_stay_quiet(
    node: SyntaxNode,
    inside: bool,
    config: LintConfig,
    from: int,
    done: Seq<DiagnosticV>,
)
    requires
        config.naming_style is None,
        on_by_default(done),
    ensures
        on_by_default(child_lints(node, inside, config, from, done)),
    decreases node, 0int, node.children@.len() - from,
{
    if 0 <= from < node.children@.len() {
        let next = match node.children@[from] {
            SyntaxElement::Node(child) => {
                let of_call = node.kind == SyntaxKind::CallExpr;
                default_nodes_stay_quiet(child, of_call, inside, config, done);
                node_lints(child, of_call, inside, config, done)
            },
            SyntaxElement::Token(token) => token_lints(token, inside, config, done),
        };
        default_children_stay_quiet(node, inside, config, from + 1, next);
    }
}

/// Under the default settings no finding is about the style of a name, an unused
/// parameter, or a name that shadows another.
pub proof fn opt_in_lints_are_off_by_default(
    root: SyntaxNode,
    items: Seq<LintItem>,
    generics: Seq<Seq<char>>,
    corpus: CorpusV,
)
    ensures
        ({
            let found = by_range(findings_of(root, items, generics, corpus, default_config()));
            forall|i: int|
                0 <= i < found.len() ==> {
                    let code = (#[trigger] found[i]).code;
                    code != "naming-style"@ && code != "unused-parameter"@ && code
                        != "shadows-builtin"@ && code != "shadows-namespace"@
                }
        }),
{
    broadcast use vstd::seq_lib::group_to_multiset_ensures;

    let raw = findings_of(root, items, generics, corpus, default_config());
    let found = by_range(raw);
    default_nodes_stay_quiet(root, false, false, default_config(), Seq::empty());
    lints_are_sorted(raw);
    reveal_strlit("assignment-operator");
    reveal_strlit("boolean-shorthand");
    reveal_strlit("trailing-comma");
    reveal_strlit("naming-style");
    reveal_strlit("unused-parameter");
    reveal_strlit("shadows-builtin");
    reveal_strlit("shadows-namespace");
    assert forall|i: int| 0 <= i < found.len() implies {
        let code = (#[trigger] found[i]).code;
        code != "naming-style"@ && code != "unused-parameter"@ && code != "shadows-builtin"@ && code
            != "shadows-namespace"@
    } by {
        assert(found.to_multiset().count(found[i]) > 0);
        assert(raw.contains(found[i]));
        let k = choose|k: int| 0 <= k < raw.len() && raw[k] == found[i];
        let code = raw[k].code;
        assert(code[0] == 'a' || code[0] == 'b' || code[0] == 't');
    }
}

/// Every lint finding of a file, in the order of their ranges.
pub fn lint_file(
    root: &SyntaxNode,
    items: &Vec<LintItem>,
    generics: &Vec<String>,
    corpus: &StubCorpus,
    config: &LintConfig,
) -> (r: Vec<Diagnostic>)
    requires
        forall|i: int| 0 <= i < items@.len() ==> (#[trigger] items@[i]).fits(),
    ensures
        diagnostics_view(r@) == by_range(
            findings_of(*root, items@, types::texts(generics@), corpus@, *config),
        ),
{
    let mut diagnostics: Vec<Diagnostic> = Vec::new();
    assert(diagnostics_view(diagnostics@) =~= Seq::empty());
    lint_node(root, false, false, config, &mut diagnostics);
    if let Some(severity) = opt_in_severity(config.unused_parameter) {
        lint_unused_parameters(items, generics, severity, &mut diagnostics);
    }
    lint_shadows(items, corpus, config, &mut diagnostics);
    sort_by_range(&diagnostics)
}

} // verus!
