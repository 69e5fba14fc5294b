//! Annotations: what a `#:` block declares.

use vstd::prelude::*;

use crate::schemes;
use crate::schemes::{SchemeV, TypeScheme};
use crate::syntax::TextRange;
use crate::types;
use crate::types::{Name, Ty, TyV};

verus! {

/// A `@type` or `@alias` declaration.
#[derive(Debug, PartialEq, Eq)]
pub struct NamedDefinition {
    /// Whether the name is a transparent shorthand for its body.
    pub alias: bool,
    pub name: Name,
    /// Type parameters; the body mentions them as rigid binders.
    pub parameters: Vec<Name>,
    pub body: Ty,
}

/// The model of a declaration.
pub struct DefinitionV {
    pub alias: bool,
    pub name: Seq<char>,
    pub parameters: Seq<Seq<char>>,
    pub body: TyV,
}

impl NamedDefinition {
    pub open spec fn view(&self) -> DefinitionV {
        DefinitionV {
            alias: self.alias,
            name: self.name@,
            parameters: types::names(self.parameters@),
            body: self.body@,
        }
    }
}

/// One lowered annotation block.
#[derive(Debug, PartialEq, Eq)]
pub struct Annotation {
    /// The declared type of the annotated definition.
    pub declared: Option<TypeScheme>,
    /// Named parameter types: the name, the type, and whether it is optional.
    pub parameter_names: Vec<(String, Ty, bool)>,
    /// `@type` and `@alias` declarations.
    pub definitions: Vec<NamedDefinition>,
    /// The range of each declaration's directive.
    pub definition_sites: Vec<TextRange>,
    /// `@new Name` or `@new Name<ARGS>`, with the range of the reference.
    pub new_nominal: Option<(Name, Vec<Ty>, TextRange)>,
    /// A `@strict` or `@strict off` toggle.
    pub strict: Option<bool>,
    /// `@trust TYPE`: the declared type applies unchecked.
    pub trusted: bool,
    /// `@if-unknown TYPE`: the declared type applies only to an unknown value.
    pub if_unknown: bool,
    /// Violations of the annotation's shape.
    pub errors: Vec<(String, TextRange)>,
    /// Violations that matter only to type checking.
    pub typing_errors: Vec<(String, TextRange)>,
    /// The element type and range of every vector type.
    pub vector_elements: Vec<(Ty, TextRange)>,
    /// The name, argument count and name range of every generic application.
    pub applied_references: Vec<(String, usize, TextRange)>,
    /// Every reference to a named type, with its range.
    pub nominal_references: Vec<(String, TextRange)>,
    pub range: TextRange,
}

/// The model of an annotation.
#[verifier::ext_equal]
pub struct AnnotationV {
    pub declared: Option<SchemeV>,
    pub parameter_names: Seq<(Seq<char>, TyV, bool)>,
    pub definitions: Seq<DefinitionV>,
    pub definition_sites: Seq<TextRange>,
    pub new_nominal: Option<(Seq<char>, Seq<TyV>, TextRange)>,
    pub strict: Option<bool>,
    pub trusted: bool,
    pub if_unknown: bool,
    pub errors: Seq<(Seq<char>, TextRange)>,
    pub typing_errors: Seq<(Seq<char>, TextRange)>,
    pub vector_elements: Seq<(TyV, TextRange)>,
    pub applied_references: Seq<(Seq<char>, usize, TextRange)>,
    pub nominal_references: Seq<(Seq<char>, TextRange)>,
    pub range: TextRange,
}

pub open spec fn messages_view(messages: Seq<(String, TextRange)>) -> Seq<(Seq<char>, TextRange)> {
    Seq::new(messages.len(), |i: int| (messages[i].0@, messages[i].1))
}

pub open spec fn parameter_names_view(names: Seq<(String, Ty, bool)>) -> Seq<
    (Seq<char>, TyV, bool),
> {
    Seq::new(names.len(), |i: int| (names[i].0@, names[i].1@, names[i].2))
}

pub open spec fn ranged_types_view(ranged: Seq<(Ty, TextRange)>) -> Seq<(TyV, TextRange)> {
    Seq::new(ranged.len(), |i: int| (ranged[i].0@, ranged[i].1))
}

pub open spec fn applied_view(applied: Seq<(String, usize, TextRange)>) -> Seq<
    (Seq<char>, usize, TextRange),
> {
    Seq::new(applied.len(), |i: int| (applied[i].0@, applied[i].1, applied[i].2))
}

pub open spec fn new_nominal_view(
    introduced: Option<(Name, Vec<Ty>, TextRange)>,
) -> Option<(Seq<char>, Seq<TyV>, TextRange)> {
    match introduced {
        Some((name, arguments, range)) => Some((name@, types::tys(arguments@), range)),
        None => None,
    }
}

impl Annotation {
    pub open spec fn view(&self) -> AnnotationV {
        AnnotationV {
            declared: schemes::opt_scheme(self.declared),
            parameter_names: parameter_names_view(self.parameter_names@),
            definitions: crate::infer::definitions_view(self.definitions@),
            definition_sites: self.definition_sites@,
            new_nominal: new_nominal_view(self.new_nominal),
            strict: self.strict,
            trusted: self.trusted,
            if_unknown: self.if_unknown,
            errors: messages_view(self.errors@),
            typing_errors: messages_view(self.typing_errors@),
            vector_elements: ranged_types_view(self.vector_elements@),
            applied_references: applied_view(self.applied_references@),
            nominal_references: messages_view(self.nominal_references@),
            range: self.range,
        }
    }
}

/// What a check uses of an annotation.
pub struct DemandV {
    pub declared: Option<SchemeV>,
    pub introduced: Option<(Seq<char>, Seq<TyV>)>,
    pub trusted: bool,
    pub if_unknown: bool,
}

impl AnnotationV {
    pub open spec fn demand(self) -> DemandV {
        DemandV {
            declared: self.declared,
            introduced: match self.new_nominal {
                Some((name, arguments, _)) => Some((name, arguments)),
                None => None,
            },
            trusted: self.trusted,
            if_unknown: self.if_unknown,
        }
    }
}

} // verus!
