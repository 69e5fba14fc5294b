//! What surrounds an item: the names that other items and the stub corpus
//! define.

use std::rc::Rc;

use vstd::prelude::*;

use crate::infer::{contains_text, Vocabulary};
use crate::schemes;
use crate::schemes::{SchemeV, TypeScheme};
use crate::table::VocabularyV;
use crate::text::same_text;
use crate::types;

verus! {

/// The model of a resolver for names that are not local to an item. Each
/// question is asked of a name and of whether the read is deferred: made from
/// inside a nested function, which runs once its document has settled.
pub struct GlobalsV {
    pub schemes: Map<(Seq<char>, bool), SchemeV>,
    pub overloads: Map<(Seq<char>, bool), Seq<SchemeV>>,
    pub in_project: Set<(Seq<char>, bool)>,
    pub vocabulary: VocabularyV,
}

impl GlobalsV {
    pub open spec fn scheme(self, name: Seq<char>, deferred: bool) -> Option<SchemeV> {
        if self.schemes.dom().contains((name, deferred)) {
            Some(self.schemes[(name, deferred)])
        } else {
            None
        }
    }

    pub open spec fn candidates(self, name: Seq<char>, deferred: bool) -> Option<Seq<SchemeV>> {
        if self.overloads.dom().contains((name, deferred)) {
            Some(self.overloads[(name, deferred)])
        } else {
            None
        }
    }

    pub open spec fn defines(self, name: Seq<char>, deferred: bool) -> bool {
        self.in_project.contains((name, deferred))
    }
}

/// The model of an optional list of schemes.
pub open spec fn opt_schemes(schemes: Option<Vec<TypeScheme>>) -> Option<Seq<SchemeV>> {
    match schemes {
        Some(schemes) => Some(schemes::schemes_view(schemes@)),
        None => None,
    }
}

/// Resolver for names that are not local to an item. Every implementor answers
/// every question.
pub trait GlobalEnv {
    /// Everything this resolver answers.
    spec fn model(&self) -> GlobalsV;

    /// The scheme a read of a name sees.
    fn scheme(&self, name: &str, deferred: bool) -> (r: Option<TypeScheme>)
        ensures
            schemes::opt_scheme(r) == self.model().scheme(name@, deferred),
    ;

    /// The ordered overload candidates of a name.
    fn overloads(&self, name: &str, deferred: bool) -> (r: Option<Vec<TypeScheme>>)
        ensures
            opt_schemes(r) == self.model().candidates(name@, deferred),
    ;

    /// Whether an item of this project defines the name.
    fn defined_in_project(&self, name: &str, deferred: bool) -> (r: bool)
        ensures
            r == self.model().defines(name@, deferred),
    ;

    /// The type declarations and arithmetic classes visible to the item.
    fn vocabulary(&self) -> (r: Rc<Vocabulary>)
        ensures
            r@ == self.model().vocabulary,
    ;
}

/// One known name.
#[derive(Debug)]
pub struct KnownName {
    pub name: String,
    pub deferred: bool,
    pub scheme: Option<TypeScheme>,
    pub overloads: Option<Vec<TypeScheme>>,
    pub in_project: bool,
}

/// A resolver that answers from a list: the first entry of a name and mode
/// counts.
#[derive(Debug)]
pub struct KnownNames {
    pub names: Vec<KnownName>,
    pub vocabulary: Rc<Vocabulary>,
}

/// The first entry for a name and mode.
pub open spec fn known_at(names: Seq<KnownName>, name: Seq<char>, deferred: bool, from: int) -> Option<
    int,
>
    decreases names.len() - from,
{
    if 0 <= from < names.len() {
        if names[from].name@ == name && names[from].deferred == deferred {
            Some(from)
        } else {
            known_at(names, name, deferred, from + 1)
        }
    } else {
        None
    }
}

impl KnownNames {
    pub open spec fn entry(&self, key: (Seq<char>, bool)) -> Option<KnownName> {
        match known_at(self.names@, key.0, key.1, 0) {
            Some(i) => Some(self.names@[i]),
            None => None,
        }
    }

    fn find(&self, name: &str, deferred: bool) -> (r: Option<usize>)
        ensures
            match r {
                Some(i) => i < self.names@.len() && known_at(self.names@, name@, deferred, 0)
                    == Some(i as int),
                None => known_at(self.names@, name@, deferred, 0) is None,
            },
    {
        let mut i: usize = 0;
        while i < self.names.len()
            invariant
                i <= self.names.len(),
                known_at(self.names@, name@, deferred, 0) == known_at(
                    self.names@,
                    name@,
                    deferred,
                    i as int,
                ),
            decreases self.names.len() - i,
        {
            if self.names[i].deferred == deferred && same_text(self.names[i].name.as_str(), name) {
                return Some(i);
            }
            i += 1;
        }
        None
    }
}

fn clone_schemes(list: &Vec<TypeScheme>) -> (r: Vec<TypeScheme>)
    ensures
        schemes::schemes_view(r@) == schemes::schemes_view(list@),
{
    let mut out: Vec<TypeScheme> = Vec::new();
    let mut i: usize = 0;
    while i < list.len()
        invariant
            i <= list.len(),
            out@.len() == i,
            forall|j: int| 0 <= j < i ==> (#[trigger] out@[j])@ == list@[j]@,
        decreases list.len() - i,
    {
        out.push(list[i].clone());
        i += 1;
    }
    assert(schemes::schemes_view(out@) =~= schemes::schemes_view(list@));
    out
}

impl GlobalEnv for KnownNames {
    open spec fn model(&self) -> GlobalsV {
        GlobalsV {
            schemes: Map::new(
                |key: (Seq<char>, bool)| self.entry(key) is Some && self.entry(key)->0.scheme is Some,
                |key: (Seq<char>, bool)| self.entry(key)->0.scheme->0@,
            ),
            overloads: Map::new(
                |key: (Seq<char>, bool)|
                    self.entry(key) is Some && self.entry(key)->0.overloads is Some,
                |key: (Seq<char>, bool)|
                    schemes::schemes_view(self.entry(key)->0.overloads->0@),
            ),
            in_project: Set::new(
                |key: (Seq<char>, bool)| self.entry(key) is Some && self.entry(key)->0.in_project,
            ),
            vocabulary: self.vocabulary@,
        }
    }

    fn scheme(&self, name: &str, deferred: bool) -> (r: Option<TypeScheme>) {
        match self.find(name, deferred) {
            Some(i) => match &self.names[i].scheme {
                Some(scheme) => Some(scheme.clone()),
                None => None,
            },
            None => None,
        }
    }

    fn overloads(&self, name: &str, deferred: bool) -> (r: Option<Vec<TypeScheme>>) {
        match self.find(name, deferred) {
            Some(i) => match &self.names[i].overloads {
                Some(list) => Some(clone_schemes(list)),
                None => None,
            },
            None => None,
        }
    }

    fn defined_in_project(&self, name: &str, deferred: bool) -> (r: bool) {
        match self.find(name, deferred) {
            Some(i) => self.names[i].in_project,
            None => false,
        }
    }

    fn vocabulary(&self) -> (r: Rc<Vocabulary>) {
        self.vocabulary.clone()
    }
}

/// One namespace of the stub corpus and the names it exports.
#[derive(Debug)]
pub struct NamespaceStub {
    pub package: String,
    pub exports: Vec<String>,
}

/// What a check needs to know of the stub corpus and the project's own package.
#[derive(Debug)]
pub struct StubCorpus {
    /// The project's own package.
    pub own_package: Option<String>,
    /// The namespaces the corpus knows; `None` where no corpus is installed.
    pub namespaces: Option<Vec<NamespaceStub>>,
    /// The names the corpus declares a scheme for.
    pub schemes: Vec<String>,
}

/// The model of the corpus.
pub struct CorpusV {
    pub own_package: Option<Seq<char>>,
    pub namespaces: Option<Seq<(Seq<char>, Seq<Seq<char>>)>>,
    pub schemes: Seq<Seq<char>>,
}

pub open spec fn namespaces_view(stubs: Seq<NamespaceStub>) -> Seq<(Seq<char>, Seq<Seq<char>>)> {
    Seq::new(stubs.len(), |i: int| (stubs[i].package@, types::texts(stubs[i].exports@)))
}

impl StubCorpus {
    pub open spec fn view(&self) -> CorpusV {
        CorpusV {
            own_package: types::opt_text(self.own_package),
            namespaces: match self.namespaces {
                Some(stubs) => Some(namespaces_view(stubs@)),
                None => None,
            },
            schemes: types::texts(self.schemes@),
        }
    }

    /// A corpus that is not installed.
    pub fn absent() -> (r: StubCorpus)
        ensures
            r@ == (CorpusV { own_package: None, namespaces: None, schemes: Seq::empty() }),
    {
        let r = StubCorpus { own_package: None, namespaces: None, schemes: Vec::new() };
        assert(r@.schemes =~= Seq::empty());
        r
    }
}

/// The names a namespace exports, where the corpus knows it.
pub open spec fn exports_of(
    namespaces: Seq<(Seq<char>, Seq<Seq<char>>)>,
    package: Seq<char>,
    from: int,
) -> Option<Seq<Seq<char>>>
    decreases namespaces.len() - from,
{
    if 0 <= from < namespaces.len() {
        if namespaces[from].0 == package {
            Some(namespaces[from].1)
        } else {
            exports_of(namespaces, package, from + 1)
        }
    } else {
        None
    }
}

impl CorpusV {
    /// The name a qualified read may resolve under: the corpus must know the
    /// namespace, and `::` asks for an exported name. The project's own package
    /// needs no corpus, and without one nothing can be refused.
    pub open spec fn validated(
        self,
        internal: bool,
        package: Option<Seq<char>>,
        name: Option<Seq<char>>,
    ) -> Option<Seq<char>> {
        match (package, name) {
            (_, None) => None,
            (None, Some(name)) => Some(name),
            (Some(package), Some(name)) => if self.own_package == Some(package) {
                Some(name)
            } else {
                match self.namespaces {
                    None => Some(name),
                    Some(namespaces) => match exports_of(namespaces, package, 0) {
                        None => None,
                        Some(exports) => if internal || exports.contains(name) {
                            Some(name)
                        } else {
                            None
                        },
                    },
                }
            },
        }
    }
}

/// The name a `pkg::name` or `pkg:::name` read may resolve under.
pub fn validated_namespace_name(
    corpus: &StubCorpus,
    internal: bool,
    package: &Option<String>,
    name: &Option<String>,
) -> (r: Option<String>)
    ensures
        types::opt_text(r) == corpus@.validated(
            internal,
            types::opt_text(*package),
            types::opt_text(*name),
        ),
{
    let name = match name {
        Some(name) => name,
        None => {
            return None;
        },
    };
    let package = match package {
        Some(package) => package,
        None => {
            return Some(name.clone());
        },
    };
    if let Some(own) = &corpus.own_package {
        if same_text(own.as_str(), package.as_str()) {
            return Some(name.clone());
        }
    }
    let stubs = match &corpus.namespaces {
        Some(stubs) => stubs,
        None => {
            return Some(name.clone());
        },
    };
    match namespace_exports(stubs, package.as_str()) {
        Some(exports) => {
            if internal || contains_text(exports, name.as_str()) {
                Some(name.clone())
            } else {
                None
            }
        },
        None => None,
    }
}

/// The names a namespace exports, where the corpus knows it.
pub fn namespace_exports<'a>(stubs: &'a Vec<NamespaceStub>, package: &str) -> (r: Option<
    &'a Vec<String>,
>)
    ensures
        (match r {
            Some(exports) => Some(types::texts(exports@)),
            None => None,
        }) == exports_of(namespaces_view(stubs@), package@, 0),
{
    let ghost model = namespaces_view(stubs@);
    let mut i: usize = 0;
    while i < stubs.len()
        invariant
            i <= stubs.len(),
            model == namespaces_view(stubs@),
            exports_of(model, package@, 0) == exports_of(model, package@, i as int),
        decreases stubs.len() - i,
    {
        assert(model[i as int] == (stubs@[i as int].package@, types::texts(
            stubs@[i as int].exports@,
        )));
        if same_text(stubs[i].package.as_str(), package) {
            return Some(&stubs[i].exports);
        }
        i += 1;
    }
    None
}

} // verus!
