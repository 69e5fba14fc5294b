//! The `DESCRIPTION` file of a package: `Field: value` lines that continue over
//! indented lines.

use vstd::prelude::*;

use crate::order;
use crate::order::add_text;
use crate::text;
use crate::text::{chars_of, same_text, slice_of, string_of, trim, CharClass};
use crate::types;

verus! {

broadcast use crate::types::group_type_views;

/// The place of the next occurrence of a character, or the end.
pub open spec fn next_place(text: Seq<char>, c: char, from: int) -> int
    decreases text.len() - from,
{
    if 0 <= from < text.len() && text[from] != c {
        next_place(text, c, from + 1)
    } else {
        from
    }
}

/// A line that ends at a place, without the carriage return of a line end.
pub open spec fn line_at(text: Seq<char>, from: int, end: int) -> Seq<char> {
    if end < text.len() && from < end && text[end - 1] == '\r' {
        text.subrange(from, end - 1)
    } else {
        text.subrange(from, end)
    }
}

/// The fields after one more line.
pub open spec fn with_line(fields: Seq<(Seq<char>, Seq<char>)>, line: Seq<char>) -> Seq<
    (Seq<char>, Seq<char>),
> {
    if line.len() > 0 && (line[0] == ' ' || line[0] == '\t') {
        if fields.len() > 0 {
            fields.update(
                fields.len() - 1,
                (
                    fields.last().0,
                    fields.last().1 + seq![' '] + text::trimmed(line, CharClass::Space),
                ),
            )
        } else {
            fields
        }
    } else {
        let colon = next_place(line, ':', 0);
        if colon < line.len() {
            fields.push(
                (
                    text::trimmed(line.subrange(0, colon), CharClass::Space),
                    text::trimmed(line.subrange(colon + 1, line.len() as int), CharClass::Space),
                ),
            )
        } else {
            fields
        }
    }
}

/// The fields of the lines from a place on.
pub open spec fn fields_from(
    text: Seq<char>,
    from: int,
    fields: Seq<(Seq<char>, Seq<char>)>,
) -> Seq<(Seq<char>, Seq<char>)>
    decreases text.len() - from + 1,
    via fields_shrink
{
    if 0 <= from < text.len() {
        let end = next_place(text, '\n', from);
        fields_from(text, end + 1, with_line(fields, line_at(text, from, end)))
    } else {
        fields
    }
}

#[via_fn]
proof fn fields_shrink(text: Seq<char>, from: int, fields: Seq<(Seq<char>, Seq<char>)>) {
    if 0 <= from < text.len() {
        place_is_ahead(text, '\n', from);
    }
}

proof fn place_is_ahead(text: Seq<char>, c: char, from: int)
    requires
        0 <= from <= text.len(),
    ensures
        from <= next_place(text, c, from) <= text.len(),
    decreases text.len() - from,
{
    if from < text.len() && text[from] != c {
        place_is_ahead(text, c, from + 1);
    }
}

/// The fields of a source and their values.
pub open spec fn fields_of(source: Seq<char>) -> Seq<(Seq<char>, Seq<char>)> {
    fields_from(source, 0, Seq::empty())
}

pub open spec fn fields_view(fields: Seq<(String, String)>) -> Seq<(Seq<char>, Seq<char>)> {
    Seq::new(fields.len(), |i: int| (fields[i].0@, fields[i].1@))
}

fn find_place(chars: &Vec<char>, c: char, from: usize) -> (r: usize)
    requires
        from <= chars@.len(),
    ensures
        r == next_place(chars@, c, from as int),
        from <= r <= chars@.len(),
{
    let mut i: usize = from;
    while i < chars.len() && chars[i] != c
        invariant
            from <= i <= chars@.len(),
            next_place(chars@, c, i as int) == next_place(chars@, c, from as int),
        decreases chars.len() - i,
    {
        i += 1;
    }
    i
}

fn add_line(fields: &mut Vec<(String, String)>, line: &Vec<char>)
    ensures
        fields_view(final(fields)@) == with_line(fields_view(old(fields)@), line@),
{
    let ghost before = fields_view(fields@);
    if line.len() > 0 && (line[0] == ' ' || line[0] == '\t') {
        let last = fields.pop();
        if let Some((field, value)) = last {
            let ghost name = field@;
            let ghost own = value@;
            let mut chars = chars_of(value.as_str());
            chars.push(' ');
            let mut rest = trim(line, CharClass::Space);
            chars.append(&mut rest);
            fields.push((field, string_of(&chars)));
            assert(before.last() == (name, own));
            assert(chars@ =~= own + seq![' '] + text::trimmed(line@, CharClass::Space));
            assert(fields_view(fields@) =~= with_line(before, line@));
        }
        return;
    }
    let colon: usize = find_place(line, ':', 0);
    if colon < line.len() {
        let left = slice_of(line, 0, colon);
        let right = slice_of(line, colon + 1, line.len());
        let field = trim(&left, CharClass::Space);
        let value = trim(&right, CharClass::Space);
        fields.push((string_of(&field), string_of(&value)));
        assert(fields_view(fields@) =~= with_line(before, line@));
    }
}

fn dcf_fields(source: &str) -> (r: Vec<(String, String)>)
    ensures
        fields_view(r@) == fields_of(source@),
{
    let chars = chars_of(source);
    let mut fields: Vec<(String, String)> = Vec::new();
    assert(fields_view(fields@) =~= Seq::empty());
    let mut from: usize = 0;
    while from < chars.len()
        invariant
            chars@ == source@,
            fields_from(source@, from as int, fields_view(fields@)) == fields_of(source@),
        decreases chars.len() - from,
    {
        let end: usize = find_place(&chars, '\n', from);
        let line = if end < chars.len() && from < end && chars[end - 1] == '\r' {
            slice_of(&chars, from, end - 1)
        } else {
            slice_of(&chars, from, end)
        };
        add_line(&mut fields, &line);
        if end == chars.len() {
            assert(fields_from(source@, end + 1, fields_view(fields@)) == fields_view(fields@));
            return fields;
        }
        from = end + 1;
    }
    fields
}

/// Whether a field lists packages that the package depends on.
pub open spec fn lists_dependencies(field: Seq<char>) -> bool {
    field == "Depends"@ || field == "Imports"@ || field == "Suggests"@ || field == "Enhances"@
}

/// The package an entry names, before its version.
pub open spec fn entry_name(entry: Seq<char>) -> Seq<char> {
    text::trimmed(entry.subrange(0, next_place(entry, '(', 0)), CharClass::Space)
}

/// Whether an entry names a package. `R` itself is a version pin.
pub open spec fn names_package(name: Seq<char>) -> bool {
    name.len() > 0 && name != "R"@
}

/// The packages that the entries of a value from a place on name.
pub open spec fn listed_packages(value: Seq<char>, from: int) -> Set<Seq<char>>
    decreases value.len() - from,
    via packages_shrink
{
    if 0 <= from <= value.len() {
        let end = next_place(value, ',', from);
        let name = entry_name(value.subrange(from, end));
        let rest = if end < value.len() {
            listed_packages(value, end + 1)
        } else {
            Set::empty()
        };
        if names_package(name) {
            rest.insert(name)
        } else {
            rest
        }
    } else {
        Set::empty()
    }
}

#[via_fn]
proof fn packages_shrink(value: Seq<char>, from: int) {
    if 0 <= from <= value.len() {
        place_is_ahead(value, ',', from);
    }
}

/// The packages that the first fields depend on.
pub open spec fn dependencies_in(fields: Seq<(Seq<char>, Seq<char>)>, upto: nat) -> Set<Seq<char>>
    decreases upto,
{
    if upto == 0 || upto > fields.len() {
        Set::empty()
    } else {
        let before = dependencies_in(fields, (upto - 1) as nat);
        if lists_dependencies(fields[upto - 1].0) {
            before.union(listed_packages(fields[upto - 1].1, 0))
        } else {
            before
        }
    }
}

/// The packages a source depends on.
pub open spec fn dependencies_of(source: Seq<char>) -> Set<Seq<char>> {
    dependencies_in(fields_of(source), fields_of(source).len())
}

fn add_packages(value: &str, into: &mut Vec<String>)
    requires
        order::ascending(types::texts(old(into)@)),
    ensures
        order::ascending(types::texts(final(into)@)),
        types::texts(final(into)@).to_set() == types::texts(old(into)@).to_set().union(
            listed_packages(value@, 0),
        ),
{
    let chars = chars_of(value);
    let ghost goal = types::texts(into@).to_set().union(listed_packages(value@, 0));
    let mut from: usize = 0;
    loop
        invariant
            chars@ == value@,
            from <= chars@.len(),
            order::ascending(types::texts(into@)),
            types::texts(into@).to_set().union(listed_packages(value@, from as int)) =~= goal,
        ensures
            order::ascending(types::texts(into@)),
            types::texts(into@).to_set() =~= goal,
        decreases chars.len() - from,
    {
        let end: usize = find_place(&chars, ',', from);
        let entry = slice_of(&chars, from, end);
        let place: usize = find_place(&entry, '(', 0);
        let name = trim(&slice_of(&entry, 0, place), CharClass::Space);
        let text = string_of(&name);
        let pinned = same_text(text.as_str(), "R");
        if name.len() > 0 && !pinned {
            add_text(into, text);
        }
        if end == chars.len() {
            break;
        }
        from = end + 1;
    }
}

/// The packages a source depends on, in ascending order.
pub fn parse_description_dependencies(source: &str) -> (r: Vec<String>)
    ensures
        types::texts(r@).to_set() == dependencies_of(source@),
        order::ascending(types::texts(r@)),
{
    let fields = dcf_fields(source);
    let ghost all = fields_of(source@);
    let mut found: Vec<String> = Vec::new();
    assert(types::texts(found@) =~= Seq::empty());
    assert(types::texts(found@).to_set() =~= Set::empty());
    let mut i: usize = 0;
    while i < fields.len()
        invariant
            i <= fields@.len(),
            all == fields_of(source@),
            all == fields_view(fields@),
            order::ascending(types::texts(found@)),
            types::texts(found@).to_set() == dependencies_in(all, i as nat),
        decreases fields.len() - i,
    {
        let field = fields[i].0.as_str();
        assert(all[i as int] == (fields@[i as int].0@, fields@[i as int].1@));
        if same_text(field, "Depends") || same_text(field, "Imports") || same_text(
            field,
            "Suggests",
        ) || same_text(field, "Enhances") {
            add_packages(fields[i].1.as_str(), &mut found);
        }
        i += 1;
    }
    found
}

/// The value of the first field of a name.
pub open spec fn field_value(
    fields: Seq<(Seq<char>, Seq<char>)>,
    name: Seq<char>,
    from: int,
) -> Option<Seq<char>>
    decreases fields.len() - from,
{
    if 0 <= from < fields.len() {
        if fields[from].0 == name {
            Some(fields[from].1)
        } else {
            field_value(fields, name, from + 1)
        }
    } else {
        None
    }
}

/// The name of the package a source describes.
pub open spec fn package_of(source: Seq<char>) -> Option<Seq<char>> {
    match field_value(fields_of(source), "Package"@, 0) {
        Some(name) => if name.len() > 0 {
            Some(name)
        } else {
            None
        },
        None => None,
    }
}

/// The name of the package a source describes.
pub fn parse_description_package(source: &str) -> (r: Option<String>)
    ensures
        types::opt_text(r) == package_of(source@),
{
    let fields = dcf_fields(source);
    let ghost all = fields_of(source@);
    let mut i: usize = 0;
    while i < fields.len()
        invariant
            i <= fields@.len(),
            all == fields_of(source@),
            all == fields_view(fields@),
            field_value(all, "Package"@, i as int) == field_value(all, "Package"@, 0),
        decreases fields.len() - i,
    {
        assert(all[i as int] == (fields@[i as int].0@, fields@[i as int].1@));
        if same_text(fields[i].0.as_str(), "Package") {
            let name = fields[i].1.clone();
            let chars = chars_of(name.as_str());
            return if chars.len() > 0 {
                Some(name)
            } else {
                None
            };
        }
        i += 1;
    }
    None
}

/// The place of the next white space, or the end.
pub open spec fn word_end(text: Seq<char>, from: int) -> int
    decreases text.len() - from,
{
    if 0 <= from < text.len() && !text::is_white_space(text[from]) {
        word_end(text, from + 1)
    } else {
        from
    }
}

/// The words of a value from a place on, without quotes around them. A word
/// that is nothing but quotes is none.
pub open spec fn words_from(value: Seq<char>, from: int, done: Seq<Seq<char>>) -> Seq<Seq<char>>
    decreases value.len() - from,
    via words_shrink
{
    if 0 <= from < value.len() {
        if text::is_white_space(value[from]) {
            words_from(value, from + 1, done)
        } else {
            let end = word_end(value, from);
            let word = text::trimmed(value.subrange(from, end), CharClass::Quote);
            words_from(
                value,
                end,
                if word.len() > 0 {
                    done.push(word)
                } else {
                    done
                },
            )
        }
    } else {
        done
    }
}

#[via_fn]
proof fn words_shrink(value: Seq<char>, from: int, done: Seq<Seq<char>>) {
    if 0 <= from < value.len() && !text::is_white_space(value[from]) {
        word_end_is_ahead(value, from);
        assert(word_end(value, from) == word_end(value, from + 1));
        word_end_is_ahead(value, from + 1);
    }
}

proof fn word_end_is_ahead(text: Seq<char>, from: int)
    requires
        0 <= from <= text.len(),
    ensures
        from <= word_end(text, from) <= text.len(),
    decreases text.len() - from,
{
    if from < text.len() && !text::is_white_space(text[from]) {
        word_end_is_ahead(text, from + 1);
    }
}

/// The words of the fields of a name among the first ones.
pub open spec fn words_in(fields: Seq<(Seq<char>, Seq<char>)>, name: Seq<char>, upto: nat) -> Seq<
    Seq<char>,
>
    decreases upto,
{
    if upto == 0 || upto > fields.len() {
        Seq::empty()
    } else {
        let before = words_in(fields, name, (upto - 1) as nat);
        if fields[upto - 1].0 == name {
            words_from(fields[upto - 1].1, 0, before)
        } else {
            before
        }
    }
}

/// Whether one of the first fields has a name.
pub open spec fn has_field(fields: Seq<(Seq<char>, Seq<char>)>, name: Seq<char>, upto: nat) -> bool {
    exists|i: int| 0 <= i < upto && i < fields.len() && (#[trigger] fields[i]).0 == name
}

/// The files a source collates, in the declared order. `Collate.unix` counts
/// only where there is no `Collate`.
pub open spec fn collation_of(source: Seq<char>) -> Seq<Seq<char>> {
    let fields = fields_of(source);
    if has_field(fields, "Collate"@, fields.len()) {
        words_in(fields, "Collate"@, fields.len())
    } else {
        words_in(fields, "Collate.unix"@, fields.len())
    }
}

fn add_words(value: &str, into: &mut Vec<String>)
    ensures
        types::texts(final(into)@) == words_from(value@, 0, types::texts(old(into)@)),
{
    let chars = chars_of(value);
    let ghost start = types::texts(into@);
    let mut from: usize = 0;
    while from < chars.len()
        invariant
            chars@ == value@,
            from <= chars@.len(),
            words_from(value@, from as int, types::texts(into@)) == words_from(value@, 0, start),
        decreases chars.len() - from,
    {
        if CharClass::Space.holds(chars[from]) {
            from += 1;
        } else {
            let mut end: usize = from + 1;
            while end < chars.len() && !CharClass::Space.holds(chars[end])
                invariant
                    from < end <= chars@.len(),
                    word_end(chars@, end as int) == word_end(chars@, from as int),
                decreases chars.len() - end,
            {
                end += 1;
            }
            let word = trim(&slice_of(&chars, from, end), CharClass::Quote);
            if word.len() > 0 {
                into.push(string_of(&word));
            }
            from = end;
        }
    }
}

/// The files a source collates.
pub fn parse_description_collate(source: &str) -> (r: Vec<String>)
    ensures
        types::texts(r@) == collation_of(source@),
{
    let fields = dcf_fields(source);
    let ghost all = fields_of(source@);
    let mut collate: Vec<String> = Vec::new();
    let mut unix_collate: Vec<String> = Vec::new();
    assert(types::texts(collate@) =~= Seq::empty());
    assert(types::texts(unix_collate@) =~= Seq::empty());
    let mut plain = false;
    let mut i: usize = 0;
    while i < fields.len()
        invariant
            i <= fields@.len(),
            all == fields_of(source@),
            all == fields_view(fields@),
            plain == has_field(all, "Collate"@, i as nat),
            types::texts(collate@) == words_in(all, "Collate"@, i as nat),
            types::texts(unix_collate@) == words_in(all, "Collate.unix"@, i as nat),
        decreases fields.len() - i,
    {
        let field = fields[i].0.as_str();
        assert(all[i as int] == (fields@[i as int].0@, fields@[i as int].1@));
        proof {
            reveal_strlit("Collate");
            reveal_strlit("Collate.unix");
            assert("Collate"@.len() != "Collate.unix"@.len());
        }
        if same_text(field, "Collate") {
            plain = true;
            add_words(fields[i].1.as_str(), &mut collate);
        } else if same_text(field, "Collate.unix") {
            add_words(fields[i].1.as_str(), &mut unix_collate);
        }
        i += 1;
    }
    if plain {
        collate
    } else {
        unix_collate
    }
}

/// Whether a source opens with a line that starts a field.
pub open spec fn opens_a_field(source: Seq<char>) -> bool {
    &&& source.len() > 0
    &&& source[0] != ' '
    &&& source[0] != '\t'
    &&& next_place(source, ':', 0) < next_place(source, '\n', 0)
}

proof fn place_is_first(text: Seq<char>, c: char, from: int, at: int)
    requires
        0 <= from <= at < text.len(),
        text[at] == c,
    ensures
        from <= next_place(text, c, from) <= at,
        text[next_place(text, c, from)] == c,
    decreases at - from,
{
    if text[from] != c {
        place_is_first(text, c, from + 1, at);
    }
}

proof fn found_place(text: Seq<char>, c: char, from: int)
    requires
        0 <= from <= text.len(),
        next_place(text, c, from) < text.len(),
    ensures
        text[next_place(text, c, from)] == c,
    decreases text.len() - from,
{
    if from < text.len() && text[from] != c {
        found_place(text, c, from + 1);
    }
}

proof fn place_in_front(a: Seq<char>, b: Seq<char>, c: char, from: int)
    requires
        0 <= from < a.len(),
        next_place(a, c, from) < a.len(),
    ensures
        next_place(a + b, c, from) == next_place(a, c, from),
    decreases a.len() - from,
{
    assert((a + b)[from] == a[from]);
    if a[from] != c {
        place_is_ahead(a, c, from + 1);
        if from + 1 < a.len() {
            place_in_front(a, b, c, from + 1);
        }
    }
}

proof fn place_behind(a: Seq<char>, b: Seq<char>, c: char, from: int)
    requires
        0 <= from <= b.len(),
    ensures
        next_place(a + b, c, a.len() + from) == a.len() + next_place(b, c, from),
    decreases b.len() - from,
{
    if from < b.len() {
        assert((a + b)[a.len() + from] == b[from]);
        if b[from] != c {
            place_behind(a, b, c, from + 1);
        }
    }
}

proof fn fields_in_front(
    a: Seq<char>,
    b: Seq<char>,
    from: int,
    fields: Seq<(Seq<char>, Seq<char>)>,
)
    requires
        0 <= from <= a.len(),
        a.len() > 0 ==> a.last() == '\n',
    ensures
        fields_from(a + b, from, fields) == fields_from(
            a + b,
            a.len() as int,
            fields_from(a, from, fields),
        ),
    decreases a.len() - from,
{
    if from < a.len() {
        let end = next_place(a, '\n', from);
        place_is_first(a, '\n', from, a.len() - 1);
        place_in_front(a, b, '\n', from);
        assert(line_at(a + b, from, end) =~= line_at(a, from, end));
        fields_in_front(a, b, end + 1, with_line(fields, line_at(a, from, end)));
    }
}

proof fn fields_behind(
    a: Seq<char>,
    b: Seq<char>,
    from: int,
    fields: Seq<(Seq<char>, Seq<char>)>,
)
    requires
        0 <= from,
    ensures
        fields_from(a + b, a.len() + from, fields) == fields_from(b, from, fields),
    decreases b.len() - from + 1,
{
    if from < b.len() {
        let end = next_place(b, '\n', from);
        place_is_ahead(b, '\n', from);
        place_behind(a, b, '\n', from);
        assert(line_at(a + b, a.len() + from, a.len() + end) =~= line_at(b, from, end));
        fields_behind(a, b, end + 1, with_line(fields, line_at(b, from, end)));
    }
}

proof fn later_lines_leave_earlier_fields(
    source: Seq<char>,
    from: int,
    earlier: Seq<(Seq<char>, Seq<char>)>,
    own: Seq<(Seq<char>, Seq<char>)>,
)
    requires
        0 <= from,
        own.len() > 0,
    ensures
        fields_from(source, from, earlier + own) == earlier + fields_from(source, from, own),
    decreases source.len() - from + 1,
{
    if from < source.len() {
        let end = next_place(source, '\n', from);
        place_is_ahead(source, '\n', from);
        let line = line_at(source, from, end);
        assert((earlier + own).last() == own.last());
        assert(with_line(earlier + own, line) =~= earlier + with_line(own, line));
        later_lines_leave_earlier_fields(source, end + 1, earlier, with_line(own, line));
    }
}

/// The fields of two sources behind one another are those of the first and then
/// those of the second, where the first ends with a line end and the second
/// opens with a field.
pub proof fn fields_of_a_concatenation(a: Seq<char>, b: Seq<char>)
    requires
        a.len() > 0 ==> a.last() == '\n',
        opens_a_field(b),
    ensures
        fields_of(a + b) == fields_of(a) + fields_of(b),
{
    let none = Seq::<(Seq<char>, Seq<char>)>::empty();
    let earlier = fields_of(a);
    fields_in_front(a, b, 0, none);
    fields_behind(a, b, 0, earlier);
    let end = next_place(b, '\n', 0);
    let colon = next_place(b, ':', 0);
    place_is_ahead(b, '\n', 0);
    place_is_ahead(b, ':', 0);
    found_place(b, ':', 0);
    let line = line_at(b, 0, end);
    assert(line =~= b.subrange(0, line.len() as int));
    assert(colon < line.len());
    assert(line[colon] == b[colon]);
    place_is_first(line, ':', 0, colon);
    assert(line[0] == b[0]);
    assert(with_line(earlier, line) =~= earlier + with_line(none, line));
    later_lines_leave_earlier_fields(b, end + 1, earlier, with_line(none, line));
}

proof fn dependencies_of_fields_behind(
    a: Seq<(Seq<char>, Seq<char>)>,
    b: Seq<(Seq<char>, Seq<char>)>,
    upto: nat,
)
    requires
        upto <= a.len() + b.len(),
    ensures
        upto <= a.len() ==> dependencies_in(a + b, upto) == dependencies_in(a, upto),
        upto >= a.len() ==> dependencies_in(a + b, upto) == dependencies_in(a, a.len()).union(
            dependencies_in(b, (upto - a.len()) as nat),
        ),
    decreases upto,
{
    if upto > 0 {
        dependencies_of_fields_behind(a, b, (upto - 1) as nat);
        if upto <= a.len() {
            assert((a + b)[upto - 1] == a[upto - 1]);
        } else {
            assert((a + b)[upto - 1] == b[upto - a.len() - 1]);
        }
    }
    if upto >= a.len() {
        assert(dependencies_in(a + b, upto) =~= dependencies_in(a, a.len()).union(
            dependencies_in(b, (upto - a.len()) as nat),
        ));
    }
}

/// The packages that two sources behind one another depend on are those of the
/// one and of the other, where the first ends with a line end and the second
/// opens with a field.
pub proof fn dependencies_of_a_concatenation(a: Seq<char>, b: Seq<char>)
    requires
        a.len() > 0 ==> a.last() == '\n',
        opens_a_field(b),
    ensures
        dependencies_of(a + b) == dependencies_of(a).union(dependencies_of(b)),
{
    fields_of_a_concatenation(a, b);
    dependencies_of_fields_behind(
        fields_of(a),
        fields_of(b),
        fields_of(a).len() + fields_of(b).len(),
    );
}

} // verus!
