//! Package metadata: the facts of the `NAMESPACE` and `DESCRIPTION` files and
//! of the packages that a project's files attach.

use vstd::prelude::*;

use crate::globals;
use crate::globals::{namespace_exports, CorpusV, StubCorpus};
use crate::infer::contains_text;
use crate::order;
use crate::order::{add_text, comes_before};
use crate::syntax;
use crate::syntax::{
    find_last_expression, find_node, find_other_node, find_token, holds_token, opt_place,
    SyntaxElement, SyntaxKind, SyntaxNode, TextRange,
};
use crate::text;
use crate::text::{chars_of, same_text, string_of, trim, CharClass};
use crate::types;

verus! {

broadcast use crate::types::group_type_views;

/// The imports, dependencies and attached packages of a project.
#[derive(Debug, PartialEq, Eq)]
pub struct PackageMetadata {
    /// The namespace of an `import(pkg)`, or the namespace and a name of an
    /// `importFrom(pkg, name)`.
    pub imports: Vec<(String, Option<String>)>,
    /// The packages `DESCRIPTION` names.
    pub dependencies: Vec<String>,
    /// The packages some file attaches or loads.
    pub attached: Vec<String>,
    /// The project's own package.
    pub package: Option<String>,
}

/// The model of a project's metadata.
pub struct MetadataV {
    pub imports: Seq<(Seq<char>, Option<Seq<char>>)>,
    pub dependencies: Seq<Seq<char>>,
    pub attached: Seq<Seq<char>>,
    pub package: Option<Seq<char>>,
}

pub open spec fn imports_view(imports: Seq<(String, Option<String>)>) -> Seq<
    (Seq<char>, Option<Seq<char>>),
> {
    Seq::new(imports.len(), |i: int| (imports[i].0@, types::opt_text(imports[i].1)))
}

impl PackageMetadata {
    pub open spec fn view(&self) -> MetadataV {
        MetadataV {
            imports: imports_view(self.imports@),
            dependencies: types::texts(self.dependencies@),
            attached: types::texts(self.attached@),
            package: types::opt_text(self.package),
        }
    }
}

pub open spec fn opt_metadata(metadata: Option<&PackageMetadata>) -> Option<MetadataV> {
    match metadata {
        Some(metadata) => Some(metadata@),
        None => None,
    }
}

impl CorpusV {
    /// The exports of a namespace the corpus describes.
    pub open spec fn described(self, namespace: Seq<char>) -> Option<Seq<Seq<char>>> {
        match self.namespaces {
            Some(namespaces) => globals::exports_of(namespaces, namespace, 0),
            None => None,
        }
    }
}

fn exports_described<'a>(corpus: &'a StubCorpus, namespace: &str) -> (r: Option<&'a Vec<String>>)
    ensures
        (match r {
            Some(exports) => Some(types::texts(exports@)),
            None => None,
        }) == corpus@.described(namespace@),
{
    match &corpus.namespaces {
        Some(stubs) => namespace_exports(stubs, namespace),
        None => None,
    }
}

impl MetadataV {
    /// Whether an import names a name: an `importFrom` of it, or an import of a
    /// whole namespace whose described exports hold it.
    pub open spec fn imports_name(self, corpus: CorpusV, name: Seq<char>) -> bool {
        exists|i: int|
            0 <= i < self.imports.len() && brings_name(#[trigger] self.imports[i], corpus, name)
    }

    /// Whether the exports of a namespace cannot be known. The project's own
    /// package is in view.
    pub open spec fn is_unknowable(self, corpus: CorpusV, namespace: Seq<char>) -> bool {
        self.package != Some(namespace) && corpus.described(namespace) is None
    }

    /// Whether a namespace with unknowable exports is imported as a whole or
    /// attached.
    pub open spec fn imports_all(self, corpus: CorpusV) -> bool {
        ||| exists|i: int|
            0 <= i < self.imports.len() && (#[trigger] self.imports[i]).1 is None
                && self.is_unknowable(corpus, self.imports[i].0)
        ||| exists|i: int|
            0 <= i < self.attached.len() && self.is_unknowable(
                corpus,
                #[trigger] self.attached[i],
            )
    }

    /// Whether a package is a dependency or the source of an import.
    pub open spec fn declares(self, package: Seq<char>) -> bool {
        self.dependencies.contains(package) || exists|i: int|
            0 <= i < self.imports.len() && (#[trigger] self.imports[i]).0 == package
    }
}

pub open spec fn brings_name(
    import: (Seq<char>, Option<Seq<char>>),
    corpus: CorpusV,
    name: Seq<char>,
) -> bool {
    match import.1 {
        Some(imported) => imported == name,
        None => match corpus.described(import.0) {
            Some(exports) => exports.contains(name),
            None => false,
        },
    }
}

pub open spec fn named_import(metadata: Option<MetadataV>, corpus: CorpusV, name: Seq<char>) -> bool {
    match metadata {
        Some(metadata) => metadata.imports_name(corpus, name),
        None => false,
    }
}

pub open spec fn whole_import(metadata: Option<MetadataV>, corpus: CorpusV) -> bool {
    match metadata {
        Some(metadata) => metadata.imports_all(corpus),
        None => false,
    }
}

pub open spec fn declared(metadata: Option<MetadataV>, package: Seq<char>) -> bool {
    match metadata {
        Some(metadata) => metadata.declares(package),
        None => false,
    }
}

/// Whether a package is declared or attached.
pub open spec fn is_named(metadata: Option<MetadataV>, package: Seq<char>) -> bool {
    declared(metadata, package) || match metadata {
        Some(metadata) => metadata.attached.contains(package),
        None => false,
    }
}

/// Whether a bare read of a name is satisfied by the imports.
pub fn imported_bare(metadata: Option<&PackageMetadata>, corpus: &StubCorpus, name: &str) -> (r: bool)
    ensures
        r == (named_import(opt_metadata(metadata), corpus@, name@) || whole_import(
            opt_metadata(metadata),
            corpus@,
        )),
{
    imported_by_name(metadata, corpus, name) || imports_every_name(metadata, corpus)
}

/// Whether an import names a name.
pub fn imported_by_name(metadata: Option<&PackageMetadata>, corpus: &StubCorpus, name: &str) -> (r:
    bool)
    ensures
        r == named_import(opt_metadata(metadata), corpus@, name@),
{
    let known = match metadata {
        Some(known) => known,
        None => {
            return false;
        },
    };
    let ghost all = known@.imports;
    let mut i: usize = 0;
    while i < known.imports.len()
        invariant
            metadata == Some(known),
            i <= known.imports@.len(),
            all == known@.imports,
            forall|k: int| 0 <= k < i ==> !brings_name(#[trigger] all[k], corpus@, name@),
        decreases known.imports.len() - i,
    {
        let import = &known.imports[i];
        assert(all[i as int] == (import.0@, types::opt_text(import.1)));
        let brought = match &import.1 {
            Some(imported) => same_text(imported.as_str(), name),
            None => match exports_described(corpus, import.0.as_str()) {
                Some(exports) => contains_text(exports, name),
                None => false,
            },
        };
        if brought {
            assert(brings_name(all[i as int], corpus@, name@));
            return true;
        }
        i += 1;
    }
    false
}

impl PackageMetadata {
    fn unknowable(&self, corpus: &StubCorpus, namespace: &String) -> (r: bool)
        ensures
            r == self@.is_unknowable(corpus@, namespace@),
    {
        if let Some(own) = &self.package {
            if same_text(own.as_str(), namespace.as_str()) {
                return false;
            }
        }
        exports_described(corpus, namespace.as_str()).is_none()
    }
}

/// Whether a namespace with unknowable exports is pulled in, so that no bare
/// read can be called unresolved.
pub fn imports_every_name(metadata: Option<&PackageMetadata>, corpus: &StubCorpus) -> (r: bool)
    ensures
        r == whole_import(opt_metadata(metadata), corpus@),
{
    let known = match metadata {
        Some(known) => known,
        None => {
            return false;
        },
    };
    let ghost all = known@.imports;
    let mut i: usize = 0;
    while i < known.imports.len()
        invariant
            metadata == Some(known),
            i <= known.imports@.len(),
            all == known@.imports,
            forall|k: int|
                0 <= k < i ==> !((#[trigger] all[k]).1 is None && known@.is_unknowable(
                    corpus@,
                    all[k].0,
                )),
        decreases known.imports.len() - i,
    {
        let import = &known.imports[i];
        assert(all[i as int] == (import.0@, types::opt_text(import.1)));
        if import.1.is_none() && known.unknowable(corpus, &import.0) {
            assert(known@.imports[i as int].1 is None);
            return true;
        }
        i += 1;
    }
    let ghost attached = known@.attached;
    let mut k: usize = 0;
    while k < known.attached.len()
        invariant
            metadata == Some(known),
            k <= known.attached@.len(),
            all == known@.imports,
            attached == known@.attached,
            forall|m: int|
                0 <= m < all.len() ==> !((#[trigger] all[m]).1 is None && known@.is_unknowable(
                    corpus@,
                    all[m].0,
                )),
            forall|m: int|
                0 <= m < k ==> !known@.is_unknowable(corpus@, #[trigger] attached[m]),
        decreases known.attached.len() - k,
    {
        assert(attached[k as int] == known.attached@[k as int]@);
        if known.unknowable(corpus, &known.attached[k]) {
            assert(known@.is_unknowable(corpus@, known@.attached[k as int]));
            return true;
        }
        k += 1;
    }
    false
}

/// Whether a package is the project's own.
pub fn is_own_package(metadata: Option<&PackageMetadata>, package: &str) -> (r: bool)
    ensures
        r == match metadata {
            Some(metadata) => metadata@.package == Some(package@),
            None => false,
        },
{
    match metadata {
        Some(metadata) => match &metadata.package {
            Some(own) => same_text(own.as_str(), package),
            None => false,
        },
        None => false,
    }
}

/// Whether a package is a dependency or the source of an import.
pub fn declared_dependency(metadata: Option<&PackageMetadata>, package: &str) -> (r: bool)
    ensures
        r == declared(opt_metadata(metadata), package@),
{
    let known = match metadata {
        Some(known) => known,
        None => {
            return false;
        },
    };
    if contains_text(&known.dependencies, package) {
        return true;
    }
    let ghost all = known@.imports;
    let mut i: usize = 0;
    while i < known.imports.len()
        invariant
            metadata == Some(known),
            i <= known.imports@.len(),
            all == known@.imports,
            !known@.dependencies.contains(package@),
            forall|k: int| 0 <= k < i ==> (#[trigger] all[k]).0 != package@,
        decreases known.imports.len() - i,
    {
        assert(all[i as int].0 == known.imports@[i as int].0@);
        if same_text(known.imports[i].0.as_str(), package) {
            assert(known@.imports[i as int].0 == package@);
            return true;
        }
        i += 1;
    }
    false
}

/// A package that attaches others instead of exporting names of its own.
#[derive(Debug, PartialEq, Eq)]
pub struct MetaPackage {
    pub name: String,
    pub members: Vec<String>,
}

/// Whether a meta-package that attaches a package is declared or attached.
pub open spec fn attached_through(
    metadata: Option<MetadataV>,
    metas: Seq<MetaPackage>,
    package: Seq<char>,
) -> bool {
    exists|i: int|
        0 <= i < metas.len() && types::texts((#[trigger] metas[i]).members@).contains(package)
            && is_named(metadata, metas[i].name@)
}

fn named(metadata: Option<&PackageMetadata>, package: &str) -> (r: bool)
    ensures
        r == is_named(opt_metadata(metadata), package@),
{
    if declared_dependency(metadata, package) {
        return true;
    }
    match metadata {
        Some(metadata) => contains_text(&metadata.attached, package),
        None => false,
    }
}

/// Whether the names of a package that is not attached by default apply to the
/// project: it is declared or attached, itself or through a meta-package.
pub fn namespace_active(
    metadata: Option<&PackageMetadata>,
    metas: &Vec<MetaPackage>,
    package: &str,
) -> (r: bool)
    ensures
        r == (is_named(opt_metadata(metadata), package@) || attached_through(
            opt_metadata(metadata),
            metas@,
            package@,
        )),
{
    if named(metadata, package) {
        return true;
    }
    let mut i: usize = 0;
    while i < metas.len()
        invariant
            i <= metas@.len(),
            forall|k: int|
                0 <= k < i ==> !(types::texts((#[trigger] metas@[k]).members@).contains(package@)
                    && is_named(opt_metadata(metadata), metas@[k].name@)),
        decreases metas.len() - i,
    {
        if contains_text(&metas[i].members, package) && named(metadata, metas[i].name.as_str()) {
            return true;
        }
        i += 1;
    }
    false
}

/// What a directive argument names: a bare name or a string.
pub open spec fn named_by(value: SyntaxNode) -> Option<Seq<char>> {
    match value.kind {
        SyntaxKind::Name => Some(value.content()),
        SyntaxKind::Literal => match syntax::next_token(
            value.children@,
            SyntaxKind::StringLiteral,
            0,
        ) {
            Some(i) => Some(
                text::trimmed(value.children@[i]->Token_0.text@, CharClass::Quote),
            ),
            None => None,
        },
        _ => None,
    }
}

fn name_argument(value: &SyntaxNode) -> (r: Option<String>)
    ensures
        types::opt_text(r) == named_by(*value),
{
    match value.kind {
        SyntaxKind::Name => Some(value.text()),
        SyntaxKind::Literal => match find_token(
            &value.children,
            SyntaxKind::StringLiteral,
            0,
        ) {
            Some(i) => match &value.children[i] {
                SyntaxElement::Token(token) => {
                    let chars = chars_of(token.text.as_str());
                    let content = trim(&chars, CharClass::Quote);
                    Some(string_of(&content))
                },
                SyntaxElement::Node(_) => None,
            },
            None => None,
        },
        _ => None,
    }
}

/// The name that a call calls, where it is a bare one.
pub open spec fn called_name(node: SyntaxNode) -> Option<Seq<char>> {
    if node.kind != SyntaxKind::CallExpr {
        None
    } else {
        match syntax::next_other_node(node.children@, SyntaxKind::ArgumentList, 0) {
            Some(i) => {
                let callee = node.children@[i]->Node_0;
                if callee.kind == SyntaxKind::Name {
                    Some(callee.content())
                } else {
                    None
                }
            },
            None => None,
        }
    }
}

fn callee_name(node: &SyntaxNode) -> (r: Option<String>)
    ensures
        types::opt_text(r) == called_name(*node),
{
    if node.kind != SyntaxKind::CallExpr {
        return None;
    }
    match find_other_node(&node.children, SyntaxKind::ArgumentList) {
        Some(i) => match &node.children[i] {
            SyntaxElement::Node(callee) => if callee.kind == SyntaxKind::Name {
                Some(callee.text())
            } else {
                None
            },
            SyntaxElement::Token(_) => None,
        },
        None => None,
    }
}

/// The elements of a call's argument list.
pub open spec fn listed(node: SyntaxNode) -> Seq<SyntaxElement> {
    match syntax::next_node(node.children@, SyntaxKind::ArgumentList, 0) {
        Some(i) => node.children@[i]->Node_0.children@,
        None => Seq::empty(),
    }
}

/// What an argument names, where its last expression names something.
pub open spec fn argument_name(argument: SyntaxNode) -> Option<(Option<Seq<char>>, TextRange)> {
    match syntax::last_expression(argument.children@, argument.children@.len() as int) {
        Some(i) => {
            let value = argument.children@[i]->Node_0;
            Some((named_by(value), value.range))
        },
        None => None,
    }
}

fn value_name(argument: &SyntaxNode) -> (r: Option<(Option<String>, TextRange)>)
    ensures
        (match r {
            Some((name, range)) => Some((types::opt_text(name), range)),
            None => None,
        }) == argument_name(*argument),
{
    match find_last_expression(&argument.children) {
        Some(i) => match &argument.children[i] {
            SyntaxElement::Node(value) => Some((name_argument(value), value.range)),
            SyntaxElement::Token(_) => None,
        },
        None => None,
    }
}

/// Whether a function attaches or loads the package its first argument names.
pub open spec fn attaches(name: Seq<char>) -> bool {
    name == "library"@ || name == "require"@ || name == "requireNamespace"@ || name
        == "loadNamespace"@
}

/// The place of the first argument without a name from an element on.
pub open spec fn first_positional(elements: Seq<SyntaxElement>, from: int) -> Option<int>
    decreases elements.len() - from,
{
    if 0 <= from < elements.len() {
        match elements[from] {
            SyntaxElement::Node(argument) => if argument.kind == SyntaxKind::Argument
                && !syntax::has_token(argument.children@, SyntaxKind::Eq) {
                Some(from)
            } else {
                first_positional(elements, from + 1)
            },
            SyntaxElement::Token(_) => first_positional(elements, from + 1),
        }
    } else {
        None
    }
}

/// The package a call attaches.
pub open spec fn attached_by(node: SyntaxNode) -> Option<Seq<char>> {
    match called_name(node) {
        Some(name) => if attaches(name) {
            match first_positional(listed(node), 0) {
                Some(i) => match argument_name(listed(node)[i]->Node_0) {
                    Some((package, _)) => package,
                    None => None,
                },
                None => None,
            }
        } else {
            None
        },
        None => None,
    }
}

/// The packages that the nodes below a node attach, among its first children.
pub open spec fn attached_within(node: SyntaxNode, upto: nat) -> Set<Seq<char>>
    decreases node, upto,
{
    if upto == 0 || upto > node.children@.len() {
        Set::empty()
    } else {
        let before = attached_within(node, (upto - 1) as nat);
        match node.children@[upto - 1] {
            SyntaxElement::Node(inner) => {
                let below = before.union(attached_within(inner, inner.children@.len()));
                match attached_by(inner) {
                    Some(package) => below.insert(package),
                    None => below,
                }
            },
            SyntaxElement::Token(_) => before,
        }
    }
}

/// The packages a file attaches or loads.
pub open spec fn attached_in(root: SyntaxNode) -> Set<Seq<char>> {
    let below = attached_within(root, root.children@.len());
    match attached_by(root) {
        Some(package) => below.insert(package),
        None => below,
    }
}

fn find_positional(elements: &Vec<SyntaxElement>) -> (r: Option<usize>)
    ensures
        opt_place(r) == first_positional(elements@, 0),
        r matches Some(i) ==> i < elements@.len() && elements@[i as int] is Node,
{
    let mut i: usize = 0;
    while i < elements.len()
        invariant
            i <= elements@.len(),
            first_positional(elements@, i as int) == first_positional(elements@, 0),
        decreases elements.len() - i,
    {
        if let SyntaxElement::Node(argument) = &elements[i] {
            if argument.kind == SyntaxKind::Argument && !holds_token(
                &argument.children,
                SyntaxKind::Eq,
            ) {
                return Some(i);
            }
        }
        i += 1;
    }
    None
}

fn attached_package(node: &SyntaxNode) -> (r: Option<String>)
    ensures
        types::opt_text(r) == attached_by(*node),
{
    let callee = match callee_name(node) {
        Some(callee) => callee,
        None => {
            return None;
        },
    };
    let name = callee.as_str();
    if !(same_text(name, "library") || same_text(name, "require") || same_text(
        name,
        "requireNamespace",
    ) || same_text(name, "loadNamespace")) {
        return None;
    }
    if let Some(i) = find_node(&node.children, SyntaxKind::ArgumentList, 0) {
        if let SyntaxElement::Node(list) = &node.children[i] {
            if let Some(k) = find_positional(&list.children) {
                if let SyntaxElement::Node(argument) = &list.children[k] {
                    return match value_name(argument) {
                        Some((package, _)) => package,
                        None => None,
                    };
                }
            }
        }
    }
    None
}

fn add_attached(node: &SyntaxNode, into: &mut Vec<String>)
    requires
        order::ascending(types::texts(old(into)@)),
    ensures
        order::ascending(types::texts(final(into)@)),
        types::texts(final(into)@).to_set() == types::texts(old(into)@).to_set().union(
            attached_in(*node),
        ),
    decreases node,
{
    let ghost start = types::texts(into@).to_set();
    let mut i: usize = 0;
    assert(start.union(attached_within(*node, 0)) =~= start);
    while i < node.children.len()
        invariant
            i <= node.children@.len(),
            order::ascending(types::texts(into@)),
            types::texts(into@).to_set() == start.union(attached_within(*node, i as nat)),
        decreases node.children.len() - i,
    {
        if let SyntaxElement::Node(inner) = &node.children[i] {
            assert(decreases_to!(*node => *inner));
            add_attached(inner, into);
            assert(types::texts(into@).to_set() =~= start.union(
                attached_within(*node, (i + 1) as nat),
            ));
        }
        i += 1;
    }
    if let Some(package) = attached_package(node) {
        add_text(into, package);
    }
    assert(types::texts(into@).to_set() =~= start.union(attached_in(*node)));
}

/// The packages a file attaches or loads, in ascending order.
pub fn file_attached_namespaces(root: &SyntaxNode) -> (r: Vec<String>)
    ensures
        order::ascending(types::texts(r@)),
        types::texts(r@).to_set() == attached_in(*root),
{
    let mut attached: Vec<String> = Vec::new();
    assert(types::texts(attached@).to_set() =~= Set::empty());
    add_attached(root, &mut attached);
    assert(types::texts(attached@).to_set() =~= attached_in(*root));
    attached
}

/// The packages that the first files attach.
pub open spec fn attached_by_files(files: Seq<SyntaxNode>, upto: nat) -> Set<Seq<char>>
    decreases upto,
{
    if upto == 0 || upto > files.len() {
        Set::empty()
    } else {
        attached_by_files(files, (upto - 1) as nat).union(attached_in(files[upto - 1]))
    }
}

/// The packages that some file of a list attaches or loads.
pub fn attached_union(files: &Vec<SyntaxNode>) -> (r: Vec<String>)
    ensures
        order::ascending(types::texts(r@)),
        types::texts(r@).to_set() == attached_by_files(files@, files@.len()),
{
    let mut attached: Vec<String> = Vec::new();
    assert(types::texts(attached@).to_set() =~= Set::empty());
    let mut i: usize = 0;
    while i < files.len()
        invariant
            i <= files@.len(),
            order::ascending(types::texts(attached@)),
            types::texts(attached@).to_set() == attached_by_files(files@, i as nat),
        decreases files.len() - i,
    {
        add_attached(&files[i], &mut attached);
        i += 1;
    }
    attached
}

/// One import of a `NAMESPACE` file with its range.
#[derive(Debug, PartialEq, Eq)]
pub struct NamespaceImport {
    pub namespace: String,
    /// The imported name; `None` for a whole namespace.
    pub name: Option<String>,
    pub range: TextRange,
}

/// The model of an import.
pub struct ImportV {
    pub namespace: Seq<char>,
    pub name: Option<Seq<char>>,
    pub range: TextRange,
}

impl NamespaceImport {
    pub open spec fn view(&self) -> ImportV {
        ImportV {
            namespace: self.namespace@,
            name: types::opt_text(self.name),
            range: self.range,
        }
    }
}

pub open spec fn directives_view(imports: Seq<NamespaceImport>) -> Seq<ImportV> {
    Seq::new(imports.len(), |i: int| imports[i]@)
}

pub open spec fn exports_view(exports: Seq<(String, TextRange)>) -> Seq<(Seq<char>, TextRange)> {
    Seq::new(exports.len(), |i: int| (exports[i].0@, exports[i].1))
}

/// Whether an element is an argument that counts: a keyword argument does not
/// where only positional ones do.
pub open spec fn counts(element: SyntaxElement, positional: bool) -> bool {
    match element {
        SyntaxElement::Node(argument) => argument.kind == SyntaxKind::Argument && !(positional
            && syntax::has_token(argument.children@, SyntaxKind::Eq)),
        SyntaxElement::Token(_) => false,
    }
}

/// What the arguments of a list from an element on name, a value that names
/// nothing included; every argument, or only the positional ones.
pub open spec fn values_from(
    elements: Seq<SyntaxElement>,
    positional: bool,
    from: int,
    done: Seq<(Option<Seq<char>>, TextRange)>,
) -> Seq<(Option<Seq<char>>, TextRange)>
    decreases elements.len() - from,
{
    if 0 <= from < elements.len() {
        let next = if counts(elements[from], positional) {
            match argument_name(elements[from]->Node_0) {
                Some(value) => done.push(value),
                None => done,
            }
        } else {
            done
        };
        values_from(elements, positional, from + 1, next)
    } else {
        done
    }
}

/// What the arguments of a call name.
pub open spec fn values_of(call: SyntaxNode, positional: bool) -> Seq<
    (Option<Seq<char>>, TextRange),
> {
    values_from(listed(call), positional, 0, Seq::empty())
}

pub open spec fn values_view(values: Seq<(Option<String>, TextRange)>) -> Seq<
    (Option<Seq<char>>, TextRange),
> {
    Seq::new(values.len(), |i: int| (types::opt_text(values[i].0), values[i].1))
}

fn argument_values(call: &SyntaxNode, positional: bool) -> (r: Vec<(Option<String>, TextRange)>)
    ensures
        values_view(r@) == values_of(*call, positional),
{
    let mut values: Vec<(Option<String>, TextRange)> = Vec::new();
    assert(values_view(values@) =~= Seq::empty());
    let list = match find_node(&call.children, SyntaxKind::ArgumentList, 0) {
        Some(i) => match &call.children[i] {
            SyntaxElement::Node(list) => list,
            SyntaxElement::Token(_) => {
                return values;
            },
        },
        None => {
            return values;
        },
    };
    let elements = &list.children;
    assert(elements@ == listed(*call));
    let mut i: usize = 0;
    while i < elements.len()
        invariant
            i <= elements@.len(),
            elements@ == listed(*call),
            values_from(elements@, positional, i as int, values_view(values@)) == values_of(
                *call,
                positional,
            ),
        decreases elements.len() - i,
    {
        if let SyntaxElement::Node(argument) = &elements[i] {
            if argument.kind == SyntaxKind::Argument && !(positional && holds_token(
                &argument.children,
                SyntaxKind::Eq,
            )) {
                if let Some((name, range)) = value_name(argument) {
                    let ghost before = values_view(values@);
                    let ghost one = (types::opt_text(name), range);
                    values.push((name, range));
                    assert(values_view(values@) =~= before.push(one));
                }
            }
        }
        i += 1;
    }
    values
}

/// The names from a value on, with their ranges.
pub open spec fn names_from(
    values: Seq<(Option<Seq<char>>, TextRange)>,
    from: int,
    done: Seq<(Seq<char>, TextRange)>,
) -> Seq<(Seq<char>, TextRange)>
    decreases values.len() - from,
{
    if 0 <= from < values.len() {
        names_from(
            values,
            from + 1,
            match values[from].0 {
                Some(name) => done.push((name, values[from].1)),
                None => done,
            },
        )
    } else {
        done
    }
}

fn named_values(values: &Vec<(Option<String>, TextRange)>, from: usize, into: &mut Vec<
    (String, TextRange),
>)
    ensures
        exports_view(final(into)@) == names_from(
            values_view(values@),
            from as int,
            exports_view(old(into)@),
        ),
{
    let ghost all = values_view(values@);
    let ghost start = exports_view(into@);
    let mut i: usize = from;
    while i < values.len()
        invariant
            all == values_view(values@),
            names_from(all, i as int, exports_view(into@)) == names_from(
                all,
                from as int,
                start,
            ),
        decreases values.len() - i,
    {
        assert(all[i as int] == (types::opt_text(values@[i as int].0), values@[i as int].1));
        if let Some(name) = &values[i].0 {
            let ghost before = exports_view(into@);
            into.push((name.clone(), values[i].1));
            assert(exports_view(into@) =~= before.push((name@, values@[i as int].1)));
        }
        i += 1;
    }
}

/// The imports that names stand for: each a whole namespace, or each a name of
/// one namespace.
pub open spec fn imports_of_names(
    namespace: Option<Seq<char>>,
    names: Seq<(Seq<char>, TextRange)>,
) -> Seq<ImportV> {
    Seq::new(
        names.len(),
        |i: int|
            match namespace {
                Some(namespace) => ImportV {
                    namespace,
                    name: Some(names[i].0),
                    range: names[i].1,
                },
                None => ImportV { namespace: names[i].0, name: None, range: names[i].1 },
            },
    )
}

/// The imports of one directive. A keyword argument of `import`, such as
/// `except`, names no namespace.
pub open spec fn imports_of(node: SyntaxNode) -> Seq<ImportV> {
    let values = values_of(node, false);
    match called_name(node) {
        Some(name) => if name == "import"@ {
            imports_of_names(None, names_from(values_of(node, true), 0, Seq::empty()))
        } else if name == "importFrom"@ && values.len() > 0 && values[0].0 is Some {
            imports_of_names(values[0].0, names_from(values, 1, Seq::empty()))
        } else {
            Seq::empty()
        },
        None => Seq::empty(),
    }
}

/// The imports of the first directives of a file.
pub open spec fn imports_within(root: SyntaxNode, upto: nat) -> Seq<ImportV>
    decreases upto,
{
    if upto == 0 || upto > root.children@.len() {
        Seq::empty()
    } else {
        imports_within(root, (upto - 1) as nat) + match root.children@[upto - 1] {
            SyntaxElement::Node(node) => imports_of(node),
            SyntaxElement::Token(_) => Seq::empty(),
        }
    }
}

fn push_imports(
    namespace: Option<&String>,
    names: &Vec<(String, TextRange)>,
    into: &mut Vec<NamespaceImport>,
)
    ensures
        directives_view(final(into)@) == directives_view(old(into)@) + imports_of_names(
            (match namespace {
                Some(namespace) => Some(namespace@),
                None => None,
            }),
            exports_view(names@),
        ),
{
    let ghost start = directives_view(into@);
    let ghost from = match namespace {
        Some(namespace) => Some(namespace@),
        None => None,
    };
    let ghost more = imports_of_names(from, exports_view(names@));
    let mut i: usize = 0;
    while i < names.len()
        invariant
            i <= names@.len(),
            from == match namespace {
                Some(namespace) => Some(namespace@),
                None => None,
            },
            more == imports_of_names(from, exports_view(names@)),
            directives_view(into@) =~= start + more.subrange(0, i as int),
        decreases names.len() - i,
    {
        let own = names[i].0.clone();
        let range = names[i].1;
        let import = match namespace {
            Some(namespace) => NamespaceImport {
                namespace: namespace.clone(),
                name: Some(own),
                range,
            },
            None => NamespaceImport { namespace: own, name: None, range },
        };
        let ghost before = directives_view(into@);
        assert(import@ == more[i as int]);
        into.push(import);
        assert(directives_view(into@) =~= before.push(more[i as int]));
        i += 1;
    }
    assert(more.subrange(0, names@.len() as int) =~= more);
}

fn push_directive(node: &SyntaxNode, into: &mut Vec<NamespaceImport>)
    ensures
        directives_view(final(into)@) == directives_view(old(into)@) + imports_of(*node),
{
    let ghost start = directives_view(into@);
    assert(start + Seq::<ImportV>::empty() =~= start);
    let callee = match callee_name(node) {
        Some(callee) => callee,
        None => {
            return;
        },
    };
    let mut names: Vec<(String, TextRange)> = Vec::new();
    assert(exports_view(names@) =~= Seq::empty());
    let is_import = same_text(callee.as_str(), "import");
    let is_import_from = same_text(callee.as_str(), "importFrom");
    let values = argument_values(node, is_import);
    if is_import {
        named_values(&values, 0, &mut names);
        push_imports(None, &names, into);
    } else if is_import_from && values.len() > 0 {
        assert(values_of(*node, false)[0] == (types::opt_text(values@[0].0), values@[0].1));
        if let Some(namespace) = &values[0].0 {
            named_values(&values, 1, &mut names);
            push_imports(Some(namespace), &names, into);
        }
    }
}

/// The imports of a `NAMESPACE` file, in its order. A directive that names
/// nothing gives none.
pub fn parse_namespace_imports(root: &SyntaxNode) -> (r: Vec<NamespaceImport>)
    ensures
        directives_view(r@) == imports_within(*root, root.children@.len()),
{
    let mut imports: Vec<NamespaceImport> = Vec::new();
    assert(directives_view(imports@) =~= Seq::empty());
    let mut i: usize = 0;
    while i < root.children.len()
        invariant
            i <= root.children@.len(),
            directives_view(imports@) == imports_within(*root, i as nat),
        decreases root.children.len() - i,
    {
        let ghost before = directives_view(imports@);
        if let SyntaxElement::Node(node) = &root.children[i] {
            push_directive(node, &mut imports);
        }
        assert(before + Seq::<ImportV>::empty() =~= before);
        i += 1;
    }
    imports
}

/// The exports of the first directives of a file.
pub open spec fn exports_within(root: SyntaxNode, upto: nat) -> Seq<(Seq<char>, TextRange)>
    decreases upto,
{
    if upto == 0 || upto > root.children@.len() {
        Seq::empty()
    } else {
        let before = exports_within(root, (upto - 1) as nat);
        match root.children@[upto - 1] {
            SyntaxElement::Node(node) => if called_name(node) == Some("export"@) {
                names_from(values_of(node, false), 0, before)
            } else {
                before
            },
            SyntaxElement::Token(_) => before,
        }
    }
}

/// The names that `export(...)` directives list, in the file's order.
pub fn parse_namespace_exports(root: &SyntaxNode) -> (r: Vec<(String, TextRange)>)
    ensures
        exports_view(r@) == exports_within(*root, root.children@.len()),
{
    let mut exports: Vec<(String, TextRange)> = Vec::new();
    assert(exports_view(exports@) =~= Seq::empty());
    let mut i: usize = 0;
    while i < root.children.len()
        invariant
            i <= root.children@.len(),
            exports_view(exports@) == exports_within(*root, i as nat),
        decreases root.children.len() - i,
    {
        if let SyntaxElement::Node(node) = &root.children[i] {
            if let Some(callee) = callee_name(node) {
                if same_text(callee.as_str(), "export") {
                    let values = argument_values(node, false);
                    named_values(&values, 0, &mut exports);
                }
            }
        }
        i += 1;
    }
    exports
}

/// The order of import facts: by namespace, a whole namespace first.
pub open spec fn import_before(
    a: (Seq<char>, Option<Seq<char>>),
    b: (Seq<char>, Option<Seq<char>>),
) -> bool {
    order::before(a.0, b.0) || (a.0 == b.0 && match (a.1, b.1) {
        (None, Some(_)) => true,
        (Some(left), Some(right)) => order::before(left, right),
        _ => false,
    })
}

pub open spec fn import_order() -> spec_fn(
    (Seq<char>, Option<Seq<char>>),
    (Seq<char>, Option<Seq<char>>),
) -> bool {
    |a: (Seq<char>, Option<Seq<char>>), b: (Seq<char>, Option<Seq<char>>)| import_before(a, b)
}

/// The order of import facts is a strict total order.
pub proof fn imports_are_ordered()
    ensures
        order::is_order(import_order()),
{
    let lt = import_order();
    assert forall|a: (Seq<char>, Option<Seq<char>>)| !#[trigger] lt(a, a) by {
        order::order_is_strict(a.0);
        match a.1 {
            Some(name) => order::order_is_strict(name),
            None => {},
        }
    }
    assert forall|a: (Seq<char>, Option<Seq<char>>), b: (Seq<char>, Option<Seq<char>>)|
        a == b || #[trigger] lt(a, b) || lt(b, a) by {
        order::order_is_total(a.0, b.0);
        match (a.1, b.1) {
            (Some(left), Some(right)) => order::order_is_total(left, right),
            _ => {},
        }
    }
    assert forall|
        a: (Seq<char>, Option<Seq<char>>),
        b: (Seq<char>, Option<Seq<char>>),
        c: (Seq<char>, Option<Seq<char>>),
    | #[trigger] lt(a, b) && #[trigger] lt(b, c) implies lt(a, c) by {
        if order::before(a.0, b.0) && order::before(b.0, c.0) {
            order::order_is_transitive(a.0, b.0, c.0);
        }
        match (a.1, b.1, c.1) {
            (Some(x), Some(y), Some(z)) => {
                if order::before(x, y) && order::before(y, z) {
                    order::order_is_transitive(x, y, z);
                }
            },
            _ => {},
        }
    }
}

/// What an import states, without its place.
pub open spec fn fact_of(import: ImportV) -> (Seq<char>, Option<Seq<char>>) {
    (import.namespace, import.name)
}

/// The facts of the first imports.
pub open spec fn facts_of(imports: Seq<ImportV>, upto: nat) -> Set<(Seq<char>, Option<Seq<char>>)>
    decreases upto,
{
    if upto == 0 || upto > imports.len() {
        Set::empty()
    } else {
        facts_of(imports, (upto - 1) as nat).insert(fact_of(imports[upto - 1]))
    }
}

fn import_comes_before(a: &(String, Option<String>), b: &(String, Option<String>)) -> (r: bool)
    ensures
        r == import_before((a.0@, types::opt_text(a.1)), (b.0@, types::opt_text(b.1))),
{
    if comes_before(a.0.as_str(), b.0.as_str()) {
        return true;
    }
    if !same_text(a.0.as_str(), b.0.as_str()) {
        return false;
    }
    match (&a.1, &b.1) {
        (None, Some(_)) => true,
        (Some(left), Some(right)) => comes_before(left.as_str(), right.as_str()),
        _ => false,
    }
}

fn same_fact(a: &(String, Option<String>), b: &(String, Option<String>)) -> (r: bool)
    ensures
        r == ((a.0@, types::opt_text(a.1)) == (b.0@, types::opt_text(b.1))),
{
    same_text(a.0.as_str(), b.0.as_str()) && match (&a.1, &b.1) {
        (None, None) => true,
        (Some(left), Some(right)) => same_text(left.as_str(), right.as_str()),
        _ => false,
    }
}

fn add_fact(facts: &mut Vec<(String, Option<String>)>, fact: (String, Option<String>))
    requires
        order::ascending_by(imports_view(old(facts)@), import_order()),
    ensures
        order::ascending_by(imports_view(final(facts)@), import_order()),
        imports_view(final(facts)@).to_set() == imports_view(old(facts)@).to_set().insert(
            (fact.0@, types::opt_text(fact.1)),
        ),
{
    let ghost all = imports_view(facts@);
    let ghost own = (fact.0@, types::opt_text(fact.1));
    let ghost lt = import_order();
    let mut i: usize = 0;
    while i < facts.len() && import_comes_before(&facts[i], &fact)
        invariant
            i <= facts@.len(),
            all == imports_view(facts@),
            own == (fact.0@, types::opt_text(fact.1)),
            lt == import_order(),
            forall|k: int| 0 <= k < i ==> lt(#[trigger] all[k], own),
        decreases facts.len() - i,
    {
        assert(all[i as int] == (facts@[i as int].0@, types::opt_text(facts@[i as int].1)));
        i += 1;
    }
    if i < facts.len() && same_fact(&facts[i], &fact) {
        assert(all[i as int] == own);
        assert(all.contains(own));
        assert(all.to_set().insert(own) =~= all.to_set());
        return;
    }
    facts.insert(i, fact);
    proof {
        imports_are_ordered();
        if i < all.len() {
            assert(all[i as int] != own);
            assert(lt(all[i as int], own) || lt(own, all[i as int]));
        }
        order::insertion_ascends(all, i as int, own, lt);
        assert(imports_view(facts@) =~= all.insert(i as int, own));
    }
}

/// The facts of a list of imports in ascending order, each once.
pub fn normalized_imports(imports: &Vec<NamespaceImport>) -> (r: Vec<(String, Option<String>)>)
    ensures
        order::ascending_by(imports_view(r@), import_order()),
        imports_view(r@).to_set() == facts_of(directives_view(imports@), imports@.len()),
{
    let ghost all = directives_view(imports@);
    let mut facts: Vec<(String, Option<String>)> = Vec::new();
    assert(imports_view(facts@).to_set() =~= Set::empty());
    let mut i: usize = 0;
    while i < imports.len()
        invariant
            i <= imports@.len(),
            all == directives_view(imports@),
            order::ascending_by(imports_view(facts@), import_order()),
            imports_view(facts@).to_set() == facts_of(all, i as nat),
        decreases imports.len() - i,
    {
        let import = &imports[i];
        assert(all[i as int] == import@);
        let name = match &import.name {
            Some(name) => Some(name.clone()),
            None => None,
        };
        add_fact(&mut facts, (import.namespace.clone(), name));
        i += 1;
    }
    facts
}

/// Normalizing depends on the facts alone: lists of imports that state the same
/// facts, in whatever order, normalize alike.
pub proof fn normalizing_ignores_order(
    a: Seq<(Seq<char>, Option<Seq<char>>)>,
    b: Seq<(Seq<char>, Option<Seq<char>>)>,
    left: Seq<ImportV>,
    right: Seq<ImportV>,
)
    requires
        order::ascending_by(a, import_order()),
        order::ascending_by(b, import_order()),
        a.to_set() == facts_of(left, left.len()),
        b.to_set() == facts_of(right, right.len()),
        facts_of(left, left.len()) == facts_of(right, right.len()),
    ensures
        a == b,
{
    imports_are_ordered();
    order::ascending_lists_are_unique(a, b, import_order());
}

/// Without metadata nothing is imported, declared or active.
pub proof fn without_metadata_nothing_is_known(
    corpus: CorpusV,
    metas: Seq<MetaPackage>,
    name: Seq<char>,
)
    ensures
        !named_import(None, corpus, name),
        !whole_import(None, corpus),
        !declared(None, name),
        !is_named(None, name) && !attached_through(None, metas, name),
{
}

/// Attaching or importing the project's own package, and nothing else, is no
/// reason to tolerate unresolved names.
pub proof fn the_own_package_tolerates_nothing(metadata: MetadataV, corpus: CorpusV)
    requires
        forall|i: int|
            0 <= i < metadata.imports.len() ==> Some((#[trigger] metadata.imports[i]).0)
                == metadata.package,
        forall|i: int|
            0 <= i < metadata.attached.len() ==> Some(#[trigger] metadata.attached[i])
                == metadata.package,
    ensures
        !whole_import(Some(metadata), corpus),
{
}

/// Attaching a package only ever activates: what was active stays active.
pub proof fn attaching_only_activates(
    metadata: MetadataV,
    attached: Seq<char>,
    metas: Seq<MetaPackage>,
    package: Seq<char>,
)
    ensures
        ({
            let more = MetadataV { attached: metadata.attached.push(attached), ..metadata };
            &&& is_named(Some(metadata), package) ==> is_named(Some(more), package)
            &&& attached_through(Some(metadata), metas, package) ==> attached_through(
                Some(more),
                metas,
                package,
            )
            &&& is_named(Some(more), attached)
        }),
{
    let more = MetadataV { attached: metadata.attached.push(attached), ..metadata };
    assert forall|name: Seq<char>| is_named(Some(metadata), name) implies is_named(
        Some(more),
        name,
    ) by {
        assert(more.declares(name) == metadata.declares(name));
        if metadata.attached.contains(name) {
            let i = choose|i: int|
                0 <= i < metadata.attached.len() && metadata.attached[i] == name;
            assert(more.attached[i] == name);
        }
    }
    assert(more.attached[metadata.attached.len() as int] == attached);
    if attached_through(Some(metadata), metas, package) {
        let i = choose|i: int|
            0 <= i < metas.len() && types::texts((#[trigger] metas[i]).members@).contains(package)
                && is_named(Some(metadata), metas[i].name@);
        assert(is_named(Some(more), metas[i].name@));
    }
}

} // verus!
