//! What the words and operators of R source stand for: the text of every token
//! with a text of its own, the names of the atomic modes, and the laws by which
//! reading a spelling gives back what it spells.

use vstd::prelude::*;

use crate::arena;
use crate::declarations;
use crate::hir::{AssignSpelling, BinaryOperator, LiteralKind, NaAtom, UnaryOperator};
use crate::literals::{self, LiteralV};
use crate::operands::{self, GuardKind};
use crate::syntax::{SyntaxKind, SyntaxToken};
use crate::types::{Atomic, Constraint, TyV};

verus! {

/// The R name of an atomic mode.
pub open spec fn mode_name(mode: Atomic) -> Seq<char> {
    match mode {
        Atomic::Logical => "logical"@,
        Atomic::Integer => "integer"@,
        Atomic::Double => "double"@,
        Atomic::Complex => "complex"@,
        Atomic::Character => "character"@,
        Atomic::Raw => "raw"@,
    }
}

/// The source text of an operator token of a kind that has only one.
pub open spec fn operator_text(kind: SyntaxKind) -> Option<Seq<char>> {
    match kind {
        SyntaxKind::Plus => Some("+"@),
        SyntaxKind::Minus => Some("-"@),
        SyntaxKind::Star => Some("*"@),
        SyntaxKind::Slash => Some("/"@),
        SyntaxKind::Caret => Some("^"@),
        SyntaxKind::PipeGreater => Some("|>"@),
        SyntaxKind::Colon => Some(":"@),
        SyntaxKind::Less => Some("<"@),
        SyntaxKind::Greater => Some(">"@),
        SyntaxKind::LessEq => Some("<="@),
        SyntaxKind::GreaterEq => Some(">="@),
        SyntaxKind::Eq2 => Some("=="@),
        SyntaxKind::BangEq => Some("!="@),
        SyntaxKind::Bang => Some("!"@),
        SyntaxKind::Amp => Some("&"@),
        SyntaxKind::Amp2 => Some("&&"@),
        SyntaxKind::Pipe => Some("|"@),
        SyntaxKind::Pipe2 => Some("||"@),
        SyntaxKind::Tilde => Some("~"@),
        SyntaxKind::Question => Some("?"@),
        SyntaxKind::LessMinus => Some("<-"@),
        SyntaxKind::Less2Minus => Some("<<-"@),
        SyntaxKind::MinusGreater => Some("->"@),
        SyntaxKind::MinusGreater2 => Some("->>"@),
        SyntaxKind::Eq => Some("="@),
        _ => None,
    }
}

/// Whether a token's text is one that a token of its kind can have.
pub open spec fn is_spelled(token: SyntaxToken) -> bool {
    match operator_text(token.kind) {
        Some(text) => token.text@ == text,
        None => true,
    }
}

/// How R writes a binary operator; a user's `%op%` has no one spelling.
pub open spec fn binary_text(operator: BinaryOperator) -> Option<Seq<char>> {
    match operator {
        BinaryOperator::Sequence => Some(":"@),
        BinaryOperator::And => Some("&"@),
        BinaryOperator::And2 => Some("&&"@),
        BinaryOperator::Or => Some("|"@),
        BinaryOperator::Or2 => Some("||"@),
        BinaryOperator::Pipe => Some("|>"@),
        BinaryOperator::Tilde => Some("~"@),
        BinaryOperator::Help => Some("?"@),
        BinaryOperator::Special => None,
        _ => operands::spelling_of(operator),
    }
}

/// How R writes a unary operator.
pub open spec fn unary_text(operator: UnaryOperator) -> Seq<char> {
    match operator {
        UnaryOperator::Minus => "-"@,
        UnaryOperator::Plus => "+"@,
        UnaryOperator::Not => "!"@,
        UnaryOperator::Tilde => "~"@,
        UnaryOperator::Help => "?"@,
    }
}

/// Every operator that has a spelling has one of its own.
pub proof fn operators_are_told_apart_by_their_spelling(a: BinaryOperator, b: BinaryOperator)
    requires
        binary_text(a) is Some,
        binary_text(a) == binary_text(b),
    ensures
        a == b,
{
    reveal_operators();
    let x = binary_text(a)->0;
    let y = binary_text(b)->0;
    assert(x.len() == y.len() && x[0] == y[0]);
    if x.len() > 1 {
        assert(x[1] == y[1]);
    }
}

/// The texts of the operators, letter by letter.
proof fn reveal_operators()
    ensures
        "+"@ =~= seq!['+'],
        "-"@ =~= seq!['-'],
        "*"@ =~= seq!['*'],
        "/"@ =~= seq!['/'],
        "^"@ =~= seq!['^'],
        ":"@ =~= seq![':'],
        "<"@ =~= seq!['<'],
        ">"@ =~= seq!['>'],
        "!"@ =~= seq!['!'],
        "&"@ =~= seq!['&'],
        "|"@ =~= seq!['|'],
        "~"@ =~= seq!['~'],
        "?"@ =~= seq!['?'],
        "="@ =~= seq!['='],
        "%%"@ =~= seq!['%', '%'],
        "|>"@ =~= seq!['|', '>'],
        "<="@ =~= seq!['<', '='],
        ">="@ =~= seq!['>', '='],
        "=="@ =~= seq!['=', '='],
        "!="@ =~= seq!['!', '='],
        "&&"@ =~= seq!['&', '&'],
        "||"@ =~= seq!['|', '|'],
        "<-"@ =~= seq!['<', '-'],
        "->"@ =~= seq!['-', '>'],
        "%/%"@ =~= seq!['%', '/', '%'],
        "<<-"@ =~= seq!['<', '<', '-'],
        "->>"@ =~= seq!['-', '>', '>'],
{
    reveal_strlit("+");
    reveal_strlit("-");
    reveal_strlit("*");
    reveal_strlit("/");
    reveal_strlit("^");
    reveal_strlit(":");
    reveal_strlit("<");
    reveal_strlit(">");
    reveal_strlit("!");
    reveal_strlit("&");
    reveal_strlit("|");
    reveal_strlit("~");
    reveal_strlit("?");
    reveal_strlit("=");
    reveal_strlit("%%");
    reveal_strlit("|>");
    reveal_strlit("<=");
    reveal_strlit(">=");
    reveal_strlit("==");
    reveal_strlit("!=");
    reveal_strlit("&&");
    reveal_strlit("||");
    reveal_strlit("<-");
    reveal_strlit("->");
    reveal_strlit("%/%");
    reveal_strlit("<<-");
    reveal_strlit("->>");
}

/// Lowering a binary operator keeps its spelling: an operator that R can spell
/// is written exactly as the token it was read from.
pub proof fn lowering_keeps_the_operator(token: SyntaxToken)
    requires
        is_spelled(token),
        literals::binary_of(token) is Some,
    ensures
        binary_text(literals::binary_of(token)->0) is Some ==> binary_text(
            literals::binary_of(token)->0,
        ) == Some(token.text@),
        operands::spelling_of(literals::binary_of(token)->0) is Some ==> operands::spelling_of(
            literals::binary_of(token)->0,
        ) == Some(token.text@),
        literals::binary_of(token)->0 == BinaryOperator::Special <==> token.kind
            == SyntaxKind::Special && token.text@ != "%%"@ && token.text@ != "%/%"@,
{
    reveal_operators();
}

/// Different operator tokens lower to different operators; only the `%op%`
/// operators of users share one.
pub proof fn different_tokens_are_different_operators(a: SyntaxToken, b: SyntaxToken)
    requires
        is_spelled(a),
        is_spelled(b),
        literals::binary_of(a) is Some,
        literals::binary_of(a) == literals::binary_of(b),
        literals::binary_of(a) != Some(BinaryOperator::Special),
    ensures
        a.text@ == b.text@,
        a.kind == b.kind,
{
    lowering_keeps_the_operator(a);
    lowering_keeps_the_operator(b);
}

/// Every token that R lets stand between two operands is an operator, and no
/// other token is.
pub proof fn every_infix_token_is_an_operator(token: SyntaxToken)
    ensures
        literals::binary_of(token) is Some <==> token.kind == SyntaxKind::Special || (operator_text(
            token.kind,
        ) is Some && token.kind != SyntaxKind::Bang && arena::assignment_of(token.kind) is None),
{
}

/// Lowering a unary operator keeps its spelling.
pub proof fn lowering_keeps_the_unary_operator(kind: SyntaxKind)
    requires
        literals::unary_of(kind) is Some,
    ensures
        operator_text(kind) == Some(unary_text(literals::unary_of(kind)->0)),
{
}

/// An assignment operator points to the right exactly where its text ends in
/// `>`, assigns to the enclosing scopes exactly where its text is three letters
/// long, and is `=` exactly where it is one letter long.
pub proof fn an_assignment_follows_its_arrow(kind: SyntaxKind)
    requires
        arena::assignment_of(kind) is Some,
    ensures
        operator_text(kind) is Some,
        (arena::assignment_of(kind)->0).1 <==> operator_text(kind)->0.last() == '>',
        (arena::assignment_of(kind)->0).0 == AssignSpelling::Super <==> operator_text(kind)->0.len()
            == 3,
        (arena::assignment_of(kind)->0).0 == AssignSpelling::Equals <==> operator_text(kind)->0.len()
            == 1,
{
    reveal_operators();
}

/// Every arrow is an assignment, and nothing else but `=` is.
pub proof fn every_arrow_assigns(kind: SyntaxKind)
    ensures
        arena::assignment_of(kind) is Some <==> (operator_text(kind) is Some && (operator_text(
            kind,
        )->0 == "="@ || operator_text(kind)->0 == "<-"@ || operator_text(kind)->0 == "<<-"@
            || operator_text(kind)->0 == "->"@ || operator_text(kind)->0 == "->>"@)),
{
    reveal_operators();
    if operator_text(kind) is Some {
        let text = operator_text(kind)->0;
        assert(text.len() == 1 ==> (text == "="@ <==> text[0] == '='));
        assert(text == "="@ ==> text.len() == 1 && text[0] == '=');
        assert(text == "<-"@ ==> text.len() == 2 && text[0] == '<' && text[1] == '-');
        assert(text == "<<-"@ ==> text.len() == 3 && text[0] == '<');
        assert(text == "->"@ ==> text.len() == 2 && text[0] == '-');
        assert(text == "->>"@ ==> text.len() == 3 && text[0] == '-');
    }
}

/// The names of the modes, letter by letter where they must be told apart.
proof fn reveal_modes()
    ensures
        "logical"@.len() == 7 && "logical"@[0] == 'l',
        "integer"@.len() == 7 && "integer"@[0] == 'i',
        "double"@.len() == 6 && "double"@[0] == 'd',
        "complex"@.len() == 7 && "complex"@[0] == 'c',
        "character"@.len() == 9 && "character"@[0] == 'c',
        "raw"@.len() == 3 && "raw"@[0] == 'r',
        "Any"@.len() == 3 && "Any"@[0] == 'A',
        "any"@.len() == 3 && "any"@[0] == 'a',
        "Unknown"@.len() == 7 && "Unknown"@[0] == 'U',
        "unknown"@.len() == 7 && "unknown"@[0] == 'u',
        "NULL"@.len() == 4 && "NULL"@[0] == 'N',
        "null"@.len() == 4 && "null"@[0] == 'n',
{
    reveal_strlit("logical");
    reveal_strlit("integer");
    reveal_strlit("double");
    reveal_strlit("complex");
    reveal_strlit("character");
    reveal_strlit("raw");
    reveal_strlit("Any");
    reveal_strlit("any");
    reveal_strlit("Unknown");
    reveal_strlit("unknown");
    reveal_strlit("NULL");
    reveal_strlit("null");
}

/// Different modes have different names.
pub proof fn modes_are_told_apart_by_their_name(a: Atomic, b: Atomic)
    requires
        mode_name(a) == mode_name(b),
    ensures
        a == b,
{
    reveal_modes();
    assert(mode_name(a).len() == mode_name(b).len() && mode_name(a)[0] == mode_name(b)[0]);
}

/// The name of a mode reads as the scalar of that very mode.
pub proof fn a_mode_name_reads_as_its_mode(mode: Atomic)
    ensures
        declarations::reserved_type(mode_name(mode)) == Some(TyV::Scalar(mode)),
{
    reveal_modes();
}

/// Only the name of a mode reads as the scalar of that mode.
pub proof fn a_scalar_is_read_from_its_mode_name(text: Seq<char>)
    requires
        declarations::reserved_type(text) is Some,
    ensures
        declarations::reserved_type(text)->0 is Scalar ==> text == mode_name(
            declarations::reserved_type(text)->0->Scalar_0,
        ),
        declarations::reserved_type(text)->0 is Null <==> text == "NULL"@ || text == "null"@,
        declarations::reserved_type(text)->0 is Any <==> text == "Any"@ || text == "any"@,
        declarations::reserved_type(text)->0 is Unknown <==> text == "Unknown"@ || text
            == "unknown"@,
{
    reveal_modes();
}

/// The text of a literal's keyword.
pub open spec fn keyword_text(kind: SyntaxKind) -> Option<Seq<char>> {
    match kind {
        SyntaxKind::TrueKw => Some("TRUE"@),
        SyntaxKind::FalseKw => Some("FALSE"@),
        SyntaxKind::NullKw => Some("NULL"@),
        SyntaxKind::InfKw => Some("Inf"@),
        SyntaxKind::NanKw => Some("NaN"@),
        SyntaxKind::NaKw => Some("NA"@),
        SyntaxKind::NaIntegerKw => Some("NA_integer_"@),
        SyntaxKind::NaRealKw => Some("NA_real_"@),
        SyntaxKind::NaComplexKw => Some("NA_complex_"@),
        SyntaxKind::NaCharacterKw => Some("NA_character_"@),
        _ => None,
    }
}

/// How R writes a literal: the numbers as they were written, the rest by its
/// keyword.
pub open spec fn literal_text(literal: LiteralV) -> Option<Seq<char>> {
    match literal {
        LiteralV::Integer(text) => Some(text),
        LiteralV::Double(text) => Some(text),
        LiteralV::Logical(true) => Some("TRUE"@),
        LiteralV::Logical(false) => Some("FALSE"@),
        LiteralV::Null => Some("NULL"@),
        LiteralV::Inf => Some("Inf"@),
        LiteralV::NaN => Some("NaN"@),
        LiteralV::Na(NaAtom::Logical) => Some("NA"@),
        LiteralV::Na(NaAtom::Integer) => Some("NA_integer_"@),
        LiteralV::Na(NaAtom::Double) => Some("NA_real_"@),
        LiteralV::Na(NaAtom::Complex) => Some("NA_complex_"@),
        LiteralV::Na(NaAtom::Character) => Some("NA_character_"@),
        LiteralV::Complex => None,
        LiteralV::String(_) => None,
    }
}

/// Reading a literal keeps what it spells: a keyword's literal is written as the
/// keyword, and a number as it stands in the source.
pub proof fn a_literal_keeps_its_spelling(token: SyntaxToken)
    ensures
        keyword_text(token.kind) is Some ==> literal_text(literals::token_literal(token))
            == keyword_text(token.kind),
        token.kind == SyntaxKind::Integer || token.kind == SyntaxKind::Double ==> literal_text(
            literals::token_literal(token),
        ) == Some(token.text@),
        token.kind == SyntaxKind::Integer ==> literals::token_literal(token) is Integer,
        token.kind == SyntaxKind::Double ==> literals::token_literal(token) is Double,
        token.kind == SyntaxKind::Complex ==> literals::token_literal(token) is Complex,
        token.kind == SyntaxKind::StringLiteral || token.kind == SyntaxKind::RawString
            ==> literals::token_literal(token) is String,
{
}

/// A missing value has the mode that its keyword names: `NA_`, the mode and `_`.
/// A double is called real there, and the bare `NA` is logical.
pub proof fn a_missing_value_has_the_mode_it_names(atom: NaAtom)
    ensures
        operands::literal_type(LiteralKind::Na(atom)) is Scalar,
        ({
            let mode = operands::literal_type(LiteralKind::Na(atom))->Scalar_0;
            let text = literal_text(LiteralV::Na(atom))->0;
            &&& mode != Atomic::Raw
            &&& mode == Atomic::Logical <==> text == "NA"@
            &&& mode == Atomic::Double <==> text == "NA_real_"@
            &&& mode != Atomic::Logical && mode != Atomic::Double ==> text == "NA_"@ + mode_name(
                mode,
            ) + "_"@
        }),
{
    reveal_strlit("NA");
    reveal_strlit("NA_");
    reveal_strlit("_");
    reveal_strlit("NA_integer_");
    reveal_strlit("NA_real_");
    reveal_strlit("NA_complex_");
    reveal_strlit("NA_character_");
    reveal_strlit("integer");
    reveal_strlit("complex");
    reveal_strlit("character");
    let text = literal_text(LiteralV::Na(atom))->0;
    assert("NA_integer_"@ =~= "NA_"@ + "integer"@ + "_"@);
    assert("NA_complex_"@ =~= "NA_"@ + "complex"@ + "_"@);
    assert("NA_character_"@ =~= "NA_"@ + "character"@ + "_"@);
    assert("NA"@.len() == 2 && "NA_real_"@.len() == 8 && "NA_integer_"@.len() == 11
        && "NA_complex_"@.len() == 11 && "NA_character_"@.len() == 13);
}

/// The mode of a literal is the mode in which R holds it: every kind of literal
/// that has a mode has another one than the others, but for the doubles that
/// have a name.
pub proof fn a_literal_has_the_mode_of_its_kind(literal: LiteralKind)
    ensures
        operands::literal_type(literal) is Null <==> literal is Null,
        operands::literal_type(literal) is Null || operands::literal_type(literal) is Scalar,
        literal is Integer ==> operands::literal_type(literal) == TyV::Scalar(Atomic::Integer),
        literal is Logical ==> operands::literal_type(literal) == TyV::Scalar(Atomic::Logical),
        literal is String ==> operands::literal_type(literal) == TyV::Scalar(Atomic::Character),
        literal is Complex ==> operands::literal_type(literal) == TyV::Scalar(Atomic::Complex),
        literal is Double || literal is Inf || literal is NaN ==> operands::literal_type(literal)
            == TyV::Scalar(Atomic::Double),
{
}

/// A guard tests the mode that its name names: `is.` and a mode is passed by the
/// values of that mode and by no others.
pub proof fn a_guard_tests_the_mode_it_names(mode: Atomic, other: Atomic)
    requires
        mode != Atomic::Complex && mode != Atomic::Raw,
    ensures
        ({
            let guard = operands::guard_of("is."@ + mode_name(mode));
            &&& guard is Some
            &&& guard->0 is Family
            &&& operands::decided(guard->0, TyV::Scalar(other)) == Some(other == mode)
            &&& operands::decided(guard->0, TyV::Vector(Box::new(TyV::Scalar(other)))) == Some(
                other == mode,
            )
            &&& operands::decided(guard->0, TyV::Null) == Some(false)
        }),
{
    reveal_guards();
    reveal_strlit("is.");
    reveal_strlit("logical");
    reveal_strlit("integer");
    reveal_strlit("double");
    reveal_strlit("character");
    assert("is."@ + "logical"@ =~= "is.logical"@);
    assert("is."@ + "integer"@ =~= "is.integer"@);
    assert("is."@ + "double"@ =~= "is.double"@);
    assert("is."@ + "character"@ =~= "is.character"@);
    assert("is.logical"@.len() == 10 && "is.logical"@[3] == 'l');
    assert("is.integer"@.len() == 10 && "is.integer"@[3] == 'i');
    assert("is.double"@.len() == 9 && "is.double"@[3] == 'd');
    assert("is.character"@.len() == 12);
}

proof fn reveal_guards()
    ensures
        "is.null"@.len() == 7 && "is.null"@[3] == 'n',
        "is.list"@.len() == 7 && "is.list"@[3] == 'l',
        "is.logical"@.len() == 10 && "is.logical"@[3] == 'l',
        "is.integer"@.len() == 10 && "is.integer"@[3] == 'i',
        "is.numeric"@.len() == 10 && "is.numeric"@[3] == 'n',
        "is.double"@.len() == 9 && "is.double"@[3] == 'd',
        "is.function"@.len() == 11 && "is.function"@[3] == 'f',
        "is.character"@.len() == 12 && "is.character"@[3] == 'c',
        "is.logical"@ == seq!['i', 's', '.', 'l', 'o', 'g', 'i', 'c', 'a', 'l'],
        "is.integer"@ == seq!['i', 's', '.', 'i', 'n', 't', 'e', 'g', 'e', 'r'],
        "is.double"@ == seq!['i', 's', '.', 'd', 'o', 'u', 'b', 'l', 'e'],
        "is.character"@ == seq!['i', 's', '.', 'c', 'h', 'a', 'r', 'a', 'c', 't', 'e', 'r'],
{
    reveal_strlit("is.null");
    reveal_strlit("is.list");
    reveal_strlit("is.logical");
    reveal_strlit("is.integer");
    reveal_strlit("is.numeric");
    reveal_strlit("is.double");
    reveal_strlit("is.function");
    reveal_strlit("is.character");
}

/// `is.numeric` is passed by what `is.integer` or `is.double` passes, `is.null`
/// by `NULL` alone among the types that hold nothing open, `is.list` by the
/// lists and `is.function` by the functions.
pub proof fn the_other_guards(member: TyV)
    ensures
        operands::guard_of("is.null"@) == Some(GuardKind::Null),
        operands::guard_of("is.numeric"@) is Some,
        operands::guard_of("is.list"@) is Some,
        operands::guard_of("is.function"@) is Some,
        operands::decided(GuardKind::Null, member) == Some(true) <==> member is Null,
        operands::decided(operands::guard_of("is.numeric"@)->0, member) == Some(true) <==> (
        operands::decided(operands::guard_of("is.integer"@)->0, member) == Some(true)
            || operands::decided(operands::guard_of("is.double"@)->0, member) == Some(true)),
        operands::decided(operands::guard_of("is.list"@)->0, member) == Some(true) <==> (member
            is List || member is NamedList || member is Tuple || member is Record),
        operands::decided(operands::guard_of("is.function"@)->0, member) == Some(true) <==> member
            is Function,
{
    reveal_guards();
}

/// Each constraint on a type parameter is read from its own spelling, and
/// `scalar numeric` asks for at least what `numeric` asks for.
pub proof fn constraints_are_told_apart_by_their_spelling(a: Seq<char>, b: Seq<char>)
    requires
        declarations::constraint_of(a) is Some,
        declarations::constraint_of(a) == declarations::constraint_of(b),
    ensures
        a == b,
        declarations::constraint_of(a) != Some(Constraint::Unconstrained),
        declarations::constraint_of("scalar "@ + "numeric"@) is Some,
        declarations::constraint_of("numeric"@) == Some(Constraint::Numeric),
        declarations::constraint_of("atomic"@) == Some(Constraint::AtomicElement),
        declarations::constraint_of("scalar "@ + "numeric"@)->0.implies(
            declarations::constraint_of("numeric"@)->0,
        ),
{
    reveal_strlit("scalar ");
    reveal_strlit("numeric");
    reveal_strlit("atomic");
    reveal_strlit("scalar numeric");
    assert("scalar "@ + "numeric"@ =~= "scalar numeric"@);
    assert("numeric"@.len() == 7 && "atomic"@.len() == 6 && "scalar numeric"@.len() == 14);
}

} // verus!
