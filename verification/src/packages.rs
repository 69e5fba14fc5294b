//! What package metadata says: the laws of `DESCRIPTION`, `NAMESPACE` and of
//! attached packages.

use vstd::prelude::*;

use crate::description;
use crate::diagnostics;
use crate::globals::CorpusV;
use crate::metadata::{self, ImportV, MetadataV};
use crate::syntax::{SyntaxElement, SyntaxNode, TextRange};
use crate::text::{self, CharClass};

verus! {

/// A file attaches what any part of it attaches, and nothing else.
pub proof fn a_file_attaches_what_its_parts_attach(root: SyntaxNode, package: Seq<char>)
    ensures
        metadata::attached_in(root).contains(package) <==> metadata::attached_by(root) == Some(
            package,
        ) || exists|i: int|
            0 <= i < root.children@.len() && (#[trigger] root.children@[i]) is Node
                && metadata::attached_in(root.children@[i]->Node_0).contains(package),
{
    parts_attach(root, root.children@.len(), package);
}

proof fn parts_attach(root: SyntaxNode, upto: nat, package: Seq<char>)
    requires
        upto <= root.children@.len(),
    ensures
        metadata::attached_within(root, upto).contains(package) <==> exists|i: int|
            0 <= i < upto && (#[trigger] root.children@[i]) is Node && metadata::attached_in(
                root.children@[i]->Node_0,
            ).contains(package),
    decreases upto,
{
    if upto > 0 {
        parts_attach(root, (upto - 1) as nat, package);
        let last = root.children@[upto - 1];
        if last is Node && metadata::attached_in(last->Node_0).contains(package) {
            assert(root.children@[upto - 1] is Node);
        }
    }
}

/// The files of a project attach what any of them attaches.
pub proof fn files_attach_together(files: Seq<SyntaxNode>, upto: nat, package: Seq<char>)
    requires
        upto <= files.len(),
    ensures
        metadata::attached_by_files(files, upto).contains(package) <==> exists|i: int|
            0 <= i < upto && metadata::attached_in(#[trigger] files[i]).contains(package),
    decreases upto,
{
    if upto > 0 {
        files_attach_together(files, (upto - 1) as nat, package);
        if metadata::attached_in(files[upto - 1]).contains(package) {
            assert(metadata::attached_in(files[upto - 1]).contains(package));
        }
    }
}

/// An import brings exactly the name it lists, or, of a whole namespace, every
/// name that the namespace exports.
pub proof fn an_import_brings_what_it_lists(
    namespace: Seq<char>,
    listed: Option<Seq<char>>,
    corpus: CorpusV,
    name: Seq<char>,
)
    ensures
        listed is Some ==> (metadata::brings_name((namespace, listed), corpus, name) <==> name
            == listed->0),
        listed is None && corpus.described(namespace) is Some ==> (metadata::brings_name(
            (namespace, listed),
            corpus,
            name,
        ) <==> corpus.described(namespace)->0.contains(name)),
        listed is None && corpus.described(namespace) is None ==> !metadata::brings_name(
            (namespace, listed),
            corpus,
            name,
        ),
{
}

/// The imports that a list of names stands for are as many as the names, at their
/// places: of one namespace, each a name of it; otherwise each a whole namespace.
pub proof fn imports_stand_for_their_names(
    namespace: Option<Seq<char>>,
    names: Seq<(Seq<char>, TextRange)>,
    i: int,
)
    requires
        0 <= i < names.len(),
    ensures
        ({
            let all = metadata::imports_of_names(namespace, names);
            &&& all.len() == names.len()
            &&& all[i].range == names[i].1
            &&& namespace is Some ==> all[i].namespace == namespace->0 && all[i].name == Some(
                names[i].0,
            )
            &&& namespace is None ==> all[i].namespace == names[i].0 && all[i].name is None
        }),
{
}

/// The imports of a file are those of its directives, in order.
pub proof fn a_file_imports_what_its_directives_import(root: SyntaxNode, upto: nat, import: ImportV)
    requires
        upto <= root.children@.len(),
    ensures
        metadata::imports_within(root, upto).contains(import) <==> exists|i: int|
            0 <= i < upto && (#[trigger] root.children@[i]) is Node && metadata::imports_of(
                root.children@[i]->Node_0,
            ).contains(import),
    decreases upto,
{
    if upto > 0 {
        a_file_imports_what_its_directives_import(root, (upto - 1) as nat, import);
        let before = metadata::imports_within(root, (upto - 1) as nat);
        let own = match root.children@[upto - 1] {
            SyntaxElement::Node(node) => metadata::imports_of(node),
            SyntaxElement::Token(_) => Seq::empty(),
        };
        let all = metadata::imports_within(root, upto);
        assert(all == before + own);
        if all.contains(import) {
            let k = choose|k: int| 0 <= k < all.len() && all[k] == import;
            if k < before.len() {
                assert(before[k] == import);
                assert(before.contains(import));
            } else {
                assert(own[k - before.len()] == import);
                assert(own.contains(import));
                assert(root.children@[upto - 1] is Node);
            }
        }
        if before.contains(import) {
            let k = choose|k: int| 0 <= k < before.len() && before[k] == import;
            assert(all[k] == import);
        }
        if own.contains(import) {
            let k = choose|k: int| 0 <= k < own.len() && own[k] == import;
            assert(all[before.len() + k] == import);
        }
    }
}

/// Names are listed in order, each with its place; a value that names nothing is
/// left out.
pub proof fn names_are_listed_in_order(
    values: Seq<(Option<Seq<char>>, TextRange)>,
    from: int,
    done: Seq<(Seq<char>, TextRange)>,
    name: (Seq<char>, TextRange),
)
    requires
        0 <= from <= values.len(),
    ensures
        ({
            let all = metadata::names_from(values, from, done);
            &&& all.len() >= done.len()
            &&& forall|i: int| 0 <= i < done.len() ==> #[trigger] all[i] == done[i]
            &&& all.contains(name) <==> done.contains(name) || exists|i: int|
                from <= i < values.len() && #[trigger] values[i] == (Some(name.0), name.1)
        }),
    decreases values.len() - from,
{
    if from < values.len() {
        let next = match values[from].0 {
            Some(own) => done.push((own, values[from].1)),
            None => done,
        };
        names_are_listed_in_order(values, from + 1, next, name);
        let all = metadata::names_from(values, from, done);
        assert forall|i: int| 0 <= i < done.len() implies #[trigger] all[i] == done[i] by {
            assert(all[i] == next[i]);
        }
        if done.contains(name) {
            let k = choose|k: int| 0 <= k < done.len() && done[k] == name;
            assert(next[k] == name);
        }
        if next.contains(name) && !done.contains(name) {
            let k = choose|k: int| 0 <= k < next.len() && next[k] == name;
            if k < done.len() {
                assert(done[k] == name);
            }
            assert(values[from] == (Some(name.0), name.1));
        }
        if values[from] == (Some(name.0), name.1) {
            assert(next[done.len() as int] == name);
        }
    }
}

/// A package is declared by `DESCRIPTION` or by any import from it.
pub proof fn an_import_declares_its_package(known: MetadataV, i: int)
    requires
        0 <= i < known.imports.len(),
    ensures
        known.declares(known.imports[i].0),
        metadata::is_named(Some(known), known.imports[i].0),
        known.imports[i].1 is Some ==> forall|corpus: CorpusV| #[trigger]
            known.imports_name(corpus, known.imports[i].1->0),
{
    if known.imports[i].1 is Some {
        assert forall|corpus: CorpusV| #[trigger]
            known.imports_name(corpus, known.imports[i].1->0) by {
            assert(metadata::brings_name(known.imports[i], corpus, known.imports[i].1->0));
        }
    }
}

proof fn place_is_first(text: Seq<char>, c: char, from: int)
    requires
        0 <= from <= text.len(),
    ensures
        from <= description::next_place(text, c, from) <= text.len(),
        forall|i: int|
            from <= i < description::next_place(text, c, from) ==> #[trigger] text[i] != c,
        description::next_place(text, c, from) < text.len() ==> text[description::next_place(
            text,
            c,
            from,
        )] == c,
    decreases text.len() - from,
{
    if from < text.len() && text[from] != c {
        place_is_first(text, c, from + 1);
    }
}

/// A line of a `DESCRIPTION` with a colon that starts at its margin is a field:
/// its name is what stands before the first colon, its value what stands behind,
/// both without the white space around them. An indented line goes on with the
/// field before it.
pub proof fn a_line_is_a_field_or_goes_on(
    fields: Seq<(Seq<char>, Seq<char>)>,
    line: Seq<char>,
    colon: int,
)
    requires
        0 <= colon < line.len(),
        line[colon] == ':',
        forall|i: int| 0 <= i < colon ==> #[trigger] line[i] != ':',
    ensures
        line[0] != ' ' && line[0] != '\t' ==> description::with_line(fields, line) == fields.push(
            (
                text::trimmed(line.subrange(0, colon), CharClass::Space),
                text::trimmed(line.subrange(colon + 1, line.len() as int), CharClass::Space),
            ),
        ),
        (line[0] == ' ' || line[0] == '\t') && fields.len() > 0 ==> {
            let after = description::with_line(fields, line);
            &&& after.len() == fields.len()
            &&& after.last().0 == fields.last().0
            &&& after.last().1 == fields.last().1 + seq![' '] + text::trimmed(
                line,
                CharClass::Space,
            )
            &&& forall|i: int| 0 <= i < fields.len() - 1 ==> #[trigger] after[i] == fields[i]
        },
{
    place_is_first(line, ':', 0);
    let place = description::next_place(line, ':', 0);
    assert(place == colon) by {
        if place < colon {
            assert(line[place] != ':');
        } else if place > colon {
            assert(line[colon] != ':');
        }
    }
}

/// What trimming leaves is a part of the text that neither starts nor ends with
/// a character of the class, and only such characters are gone.
pub proof fn trimming_takes_the_ends_off(value: Seq<char>, class: CharClass)
    ensures
        ({
            let from = text::first_outside(value, class, 0);
            let kept = text::trimmed(value, class);
            &&& 0 <= from <= value.len()
            &&& kept.len() > 0 ==> !class.has(kept[0]) && !class.has(kept.last())
            &&& forall|i: int| 0 <= i < from ==> class.has(#[trigger] value[i])
        }),
{
    outside_from(value, class, 0);
    let from = text::first_outside(value, class, 0);
    outside_upto(value, class, value.len() as int);
}

proof fn outside_from(value: Seq<char>, class: CharClass, from: int)
    requires
        0 <= from <= value.len(),
    ensures
        from <= text::first_outside(value, class, from) <= value.len(),
        forall|i: int|
            from <= i < text::first_outside(value, class, from) ==> class.has(#[trigger] value[i]),
        text::first_outside(value, class, from) < value.len() ==> !class.has(
            value[text::first_outside(value, class, from)],
        ),
    decreases value.len() - from,
{
    if from < value.len() && class.has(value[from]) {
        outside_from(value, class, from + 1);
    }
}

proof fn outside_upto(value: Seq<char>, class: CharClass, upto: int)
    requires
        0 <= upto <= value.len(),
    ensures
        0 <= text::last_outside(value, class, upto) <= upto,
        forall|i: int|
            text::last_outside(value, class, upto) <= i < upto ==> class.has(#[trigger] value[i]),
        text::last_outside(value, class, upto) > 0 ==> !class.has(
            value[text::last_outside(value, class, upto) - 1],
        ),
    decreases upto,
{
    if upto > 0 && class.has(value[upto - 1]) {
        outside_upto(value, class, upto - 1);
    }
}

/// The dependencies of a package are what its dependency fields list; `R` itself
/// is none of them.
pub proof fn dependencies_are_what_the_fields_list(
    fields: Seq<(Seq<char>, Seq<char>)>,
    upto: nat,
    package: Seq<char>,
)
    requires
        upto <= fields.len(),
    ensures
        description::dependencies_in(fields, upto).contains(package) <==> exists|i: int|
            0 <= i < upto && description::lists_dependencies((#[trigger] fields[i]).0)
                && description::listed_packages(fields[i].1, 0).contains(package),
    decreases upto,
{
    if upto > 0 {
        dependencies_are_what_the_fields_list(fields, (upto - 1) as nat, package);
        if description::lists_dependencies(fields[upto - 1].0) && description::listed_packages(
            fields[upto - 1].1,
            0,
        ).contains(package) {
            assert(description::lists_dependencies(fields[upto - 1].0));
        }
    }
}

/// A listed package has a name, which is not `R`.
pub proof fn a_listed_package_has_a_name(value: Seq<char>, from: int, package: Seq<char>)
    requires
        0 <= from,
        description::listed_packages(value, from).contains(package),
    ensures
        package.len() > 0,
        package != "R"@,
    decreases value.len() - from,
{
    if from <= value.len() {
        place_is_first(value, ',', from);
        let end = description::next_place(value, ',', from);
        let name = description::entry_name(value.subrange(from, end));
        if !(description::names_package(name) && package == name) {
            a_listed_package_has_a_name(value, end + 1, package);
        }
    }
}

/// The value of a field is that of the first field of its name.
pub proof fn the_first_field_of_a_name_counts(
    fields: Seq<(Seq<char>, Seq<char>)>,
    name: Seq<char>,
    from: int,
    i: int,
)
    requires
        0 <= from <= i < fields.len(),
        fields[i].0 == name,
        forall|k: int| from <= k < i ==> (#[trigger] fields[k]).0 != name,
    ensures
        description::field_value(fields, name, from) == Some(fields[i].1),
    decreases fields.len() - from,
{
    if from < i {
        the_first_field_of_a_name_counts(fields, name, from + 1, i);
    }
}

/// The candidate that is suggested for a name is near enough, no other is
/// nearer, and none before it is as near; where none is suggested, none is near
/// enough.
pub proof fn the_suggestion_is_the_nearest(
    name: Seq<char>,
    candidates: Seq<Seq<char>>,
    upto: nat,
    i: int,
)
    requires
        0 <= i < upto <= candidates.len(),
    ensures
        match diagnostics::nearest_place(name, candidates, upto) {
            Some(best) => {
                &&& 0 <= best < upto
                &&& diagnostics::near_enough(name, candidates[best])
                &&& diagnostics::near_enough(name, candidates[i]) ==> diagnostics::edit_distance(
                    name,
                    candidates[best],
                ) <= diagnostics::edit_distance(name, candidates[i])
                &&& i < best && diagnostics::near_enough(name, candidates[i])
                    ==> diagnostics::edit_distance(name, candidates[best])
                    < diagnostics::edit_distance(name, candidates[i])
            },
            None => !diagnostics::near_enough(name, candidates[i]),
        },
    decreases upto,
{
    if i < upto - 1 {
        the_suggestion_is_the_nearest(name, candidates, (upto - 1) as nat, i);
    } else if upto > 1 {
        the_suggestion_is_the_nearest(name, candidates, (upto - 1) as nat, 0);
    }
}

/// A name is always near itself, and nothing is further from it than the two are
/// long.
pub proof fn one_letter_more_is_one_edit(name: Seq<char>, letter: char)
    ensures
        diagnostics::edit_distance(name, name.push(letter)) <= 1,
        diagnostics::near_enough(name, name),
        diagnostics::near_enough(name, name.push(letter)),
{
    diagnostics::distance_zero_is_equality(name, name);
    assert(name.push(letter).drop_last() =~= name);
}

/// A qualified name is one that the package exports; `:::` reaches all of a known
/// package, the own package is reached whole, and where no package is known every
/// name is taken at its word.
pub proof fn a_qualified_name_is_exported(
    corpus: CorpusV,
    internal: bool,
    package: Seq<char>,
    name: Seq<char>,
    namespaces: Seq<(Seq<char>, Seq<Seq<char>>)>,
    i: int,
)
    requires
        corpus.namespaces == Some(namespaces),
        0 <= i < namespaces.len(),
        namespaces[i].0 == package,
        forall|k: int| 0 <= k < i ==> (#[trigger] namespaces[k]).0 != package,
    ensures
        corpus.own_package == Some(package) ==> corpus.validated(
            internal,
            Some(package),
            Some(name),
        ) == Some(name),
        corpus.own_package != Some(package) ==> corpus.validated(
            internal,
            Some(package),
            Some(name),
        ) == if internal || namespaces[i].1.contains(name) {
            Some(name)
        } else {
            None
        },
        corpus.validated(internal, Some(package), None) is None,
{
    the_first_namespace(namespaces, package, 0, i);
}

proof fn the_first_namespace(
    namespaces: Seq<(Seq<char>, Seq<Seq<char>>)>,
    package: Seq<char>,
    from: int,
    i: int,
)
    requires
        0 <= from <= i < namespaces.len(),
        namespaces[i].0 == package,
        forall|k: int| from <= k < i ==> (#[trigger] namespaces[k]).0 != package,
    ensures
        crate::globals::exports_of(namespaces, package, from) == Some(namespaces[i].1),
    decreases i - from,
{
    if from < i {
        assert(namespaces[from].0 != package);
        the_first_namespace(namespaces, package, from + 1, i);
    }
}

/// A package that is not among the known ones exports nothing.
pub proof fn an_unknown_package_exports_nothing(
    corpus: CorpusV,
    internal: bool,
    package: Seq<char>,
    name: Seq<char>,
    namespaces: Seq<(Seq<char>, Seq<Seq<char>>)>,
)
    requires
        corpus.own_package != Some(package),
        forall|k: int| 0 <= k < namespaces.len() ==> (#[trigger] namespaces[k]).0 != package,
    ensures
        corpus.namespaces == Some(namespaces) ==> corpus.validated(
            internal,
            Some(package),
            Some(name),
        ) is None,
        corpus.namespaces is None ==> corpus.validated(internal, Some(package), Some(name))
            == Some(name),
{
    no_namespace(namespaces, package, 0);
}

proof fn no_namespace(
    namespaces: Seq<(Seq<char>, Seq<Seq<char>>)>,
    package: Seq<char>,
    from: int,
)
    requires
        0 <= from <= namespaces.len(),
        forall|k: int| 0 <= k < namespaces.len() ==> (#[trigger] namespaces[k]).0 != package,
    ensures
        crate::globals::exports_of(namespaces, package, from) is None,
    decreases namespaces.len() - from,
{
    if from < namespaces.len() {
        assert(namespaces[from].0 != package);
        no_namespace(namespaces, package, from + 1);
    }
}

/// The calls that attach a package are those that load one by its name.
pub proof fn packages_are_attached_by_name(name: Seq<char>)
    ensures
        metadata::attaches("library"@),
        metadata::attaches("require"@),
        metadata::attaches("requireNamespace"@),
        metadata::attaches("loadNamespace"@),
        metadata::attaches(name) ==> name == "library"@ || name == "require"@ || name
            == "requireNamespace"@ || name == "loadNamespace"@,
{
}

/// The fields that list what a package depends on.
pub proof fn four_fields_list_dependencies(field: Seq<char>)
    ensures
        description::lists_dependencies("Depends"@),
        description::lists_dependencies("Imports"@),
        description::lists_dependencies("Suggests"@),
        description::lists_dependencies("Enhances"@),
        description::lists_dependencies(field) ==> field == "Depends"@ || field == "Imports"@
            || field == "Suggests"@ || field == "Enhances"@,
{
}

/// The order of the files is the general one where it is given, whatever is given
/// for one system.
pub proof fn the_general_order_counts_first(source: Seq<char>, i: int)
    requires
        0 <= i < description::fields_of(source).len(),
    ensures
        ({
            let fields = description::fields_of(source);
            &&& fields[i].0 == "Collate"@ ==> description::collation_of(source)
                == description::words_in(fields, "Collate"@, fields.len())
            &&& (forall|k: int| 0 <= k < fields.len() ==> (#[trigger] fields[k]).0 != "Collate"@)
                ==> description::collation_of(source) == description::words_in(
                fields,
                "Collate.unix"@,
                fields.len(),
            )
        }),
{
}

/// Any name may come from a package that is imported whole or attached and that
/// nothing is known of; the own package and a known one bring no such name.
pub proof fn an_unknown_package_may_bring_anything(metadata: MetadataV, corpus: CorpusV)
    ensures
        metadata.imports_all(corpus) <==> {
            ||| exists|i: int|
                0 <= i < metadata.attached.len() && metadata.package != Some(
                    #[trigger] metadata.attached[i],
                ) && corpus.described(metadata.attached[i]) is None
            ||| exists|i: int|
                0 <= i < metadata.imports.len() && (#[trigger] metadata.imports[i]).1 is None
                    && metadata.package != Some(metadata.imports[i].0) && corpus.described(
                    metadata.imports[i].0,
                ) is None
        },
{
}

/// What a file exports is what its export directives name.
pub proof fn a_file_exports_what_it_names(root: SyntaxNode, upto: nat)
    requires
        0 < upto <= root.children@.len(),
    ensures
        ({
            let before = metadata::exports_within(root, (upto - 1) as nat);
            let after = metadata::exports_within(root, upto);
            match root.children@[upto - 1] {
                SyntaxElement::Node(node) => {
                    &&& metadata::called_name(node) == Some("export"@) ==> after
                        == metadata::names_from(metadata::values_of(node, false), 0, before)
                    &&& metadata::called_name(node) != Some("export"@) ==> after == before
                },
                SyntaxElement::Token(_) => after == before,
            }
        }),
{
}

/// A package that a collection attaches is attached wherever the collection is
/// declared or attached.
pub proof fn a_collection_attaches_its_members(
    metadata: Option<MetadataV>,
    metas: Seq<metadata::MetaPackage>,
    i: int,
    package: Seq<char>,
)
    requires
        0 <= i < metas.len(),
        crate::types::texts(metas[i].members@).contains(package),
        metadata is Some,
        (metadata->0).declares(metas[i].name@) || (metadata->0).attached.contains(metas[i].name@),
    ensures
        metadata::attached_through(metadata, metas, package),
{
}

} // verus!
