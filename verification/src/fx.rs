//! Maps and sets hashed with `rustc_hash`'s hasher.

use rustc_hash::{FxBuildHasher, FxHashMap, FxHashSet};
use vstd::prelude::*;

use crate::annotations::{DefinitionV, NamedDefinition};

verus! {

/// `rustc_hash`'s stateless hasher factory.
#[verifier::external_type_specification]
#[verifier::external_body]
pub struct ExFxBuildHasher(FxBuildHasher);

/// `FxHashMap::default`: an empty map.
#[verifier::external_body]
pub(crate) fn fx_map<V>() -> (r: FxHashMap<u32, V>)
    ensures
        r@.dom() == Set::<u32>::empty(),
{
    FxHashMap::default()
}

/// `FxHashMap::get`: the value a key has, if it has one.
#[verifier::external_body]
pub(crate) fn fx_get<V>(map: &FxHashMap<u32, V>, key: u32) -> (r: Option<&V>)
    ensures
        match r {
            Some(value) => map@.dom().contains(key) && *value == map@[key],
            None => !map@.dom().contains(key),
        },
{
    map.get(&key)
}

/// `FxHashMap::insert`: gives a key a value in place of the one it had.
#[verifier::external_body]
pub(crate) fn fx_insert<V>(map: &mut FxHashMap<u32, V>, key: u32, value: V) -> (r: Option<V>)
    ensures
        final(map)@ == old(map)@.insert(key, value),
        match r {
            Some(previous) => old(map)@.dom().contains(key) && previous == old(map)@[key],
            None => !old(map)@.dom().contains(key),
        },
{
    map.insert(key, value)
}

/// `FxHashMap::remove`: takes a key's value away.
#[verifier::external_body]
pub(crate) fn fx_remove<V>(map: &mut FxHashMap<u32, V>, key: u32)
    ensures
        final(map)@ == old(map)@.remove(key),
{
    map.remove(&key);
}

/// `FxHashMap::len`: how many keys have a value.
#[verifier::external_body]
pub(crate) fn fx_len<V>(map: &FxHashMap<u32, V>) -> (r: usize)
    ensures
        r == map@.dom().len(),
{
    map.len()
}

/// What a map from texts to lists of texts holds, by characters.
pub uninterp spec fn listed_texts(map: FxHashMap<String, Vec<String>>) -> Map<
    Seq<char>,
    Seq<Seq<char>>,
>;

/// `FxHashMap::default`: an empty map from texts to lists of texts.
#[verifier::external_body]
pub(crate) fn no_listed_texts() -> (r: FxHashMap<String, Vec<String>>)
    ensures
        listed_texts(r).dom() == Set::<Seq<char>>::empty(),
{
    FxHashMap::default()
}

/// `FxHashMap::get`: the list a text has, if it has one.
#[verifier::external_body]
pub(crate) fn get_listed_texts<'a>(
    map: &'a FxHashMap<String, Vec<String>>,
    key: &str,
) -> (r: Option<&'a Vec<String>>)
    ensures
        match r {
            Some(list) => listed_texts(*map).dom().contains(key@) && crate::types::texts(list@)
                == listed_texts(*map)[key@],
            None => !listed_texts(*map).dom().contains(key@),
        },
{
    map.get(key)
}

/// What a map from texts to numbers holds, by characters.
pub uninterp spec fn numbered_texts(map: FxHashMap<String, u32>) -> Map<Seq<char>, u32>;

/// `FxHashMap::default`: an empty map from texts to numbers.
#[verifier::external_body]
pub(crate) fn no_numbered_texts() -> (r: FxHashMap<String, u32>)
    ensures
        numbered_texts(r).dom() == Set::<Seq<char>>::empty(),
{
    FxHashMap::default()
}

/// `FxHashMap::get`: the number a text has, if it has one.
#[verifier::external_body]
pub(crate) fn get_numbered_text(map: &FxHashMap<String, u32>, key: &str) -> (r: Option<u32>)
    ensures
        match r {
            Some(number) => numbered_texts(*map).dom().contains(key@) && number
                == numbered_texts(*map)[key@],
            None => !numbered_texts(*map).dom().contains(key@),
        },
{
    map.get(key).copied()
}

/// `FxHashMap::insert`: gives a text a number in place of the one it had.
#[verifier::external_body]
pub(crate) fn insert_numbered_text(map: &mut FxHashMap<String, u32>, key: &str, number: u32)
    ensures
        numbered_texts(*final(map)) == numbered_texts(*old(map)).insert(key@, number),
{
    map.insert(key.to_owned(), number);
}

/// What a map from names to declarations holds, the names by characters.
pub uninterp spec fn declarations(map: FxHashMap<String, NamedDefinition>) -> Map<
    Seq<char>,
    DefinitionV,
>;

/// `FxHashMap::default`: an empty map of declarations.
#[verifier::external_body]
pub(crate) fn no_declarations() -> (r: FxHashMap<String, NamedDefinition>)
    ensures
        declarations(r).dom() == Set::<Seq<char>>::empty(),
{
    FxHashMap::default()
}

/// `FxHashMap::get`: the declaration a name has, if it has one.
#[verifier::external_body]
pub(crate) fn get_declaration<'a>(
    map: &'a FxHashMap<String, NamedDefinition>,
    name: &str,
) -> (r: Option<&'a NamedDefinition>)
    ensures
        match r {
            Some(definition) => declarations(*map).dom().contains(name@) && definition@
                == declarations(*map)[name@],
            None => !declarations(*map).dom().contains(name@),
        },
{
    map.get(name)
}

/// `FxHashMap::len`: how many names have a declaration.
#[verifier::external_body]
pub(crate) fn count_declarations(map: &FxHashMap<String, NamedDefinition>) -> (r: usize)
    ensures
        r == declarations(*map).dom().len(),
{
    map.len()
}

/// What a set of texts holds, by characters.
pub uninterp spec fn text_set(set: FxHashSet<String>) -> Set<Seq<char>>;

/// `FxHashSet::default`: an empty set of texts.
#[verifier::external_body]
pub(crate) fn no_texts() -> (r: FxHashSet<String>)
    ensures
        text_set(r) == Set::<Seq<char>>::empty(),
{
    FxHashSet::default()
}

/// `FxHashSet::contains`: whether a set holds a text.
#[verifier::external_body]
pub(crate) fn contains_listed(set: &FxHashSet<String>, text: &str) -> (r: bool)
    ensures
        r == text_set(*set).contains(text@),
{
    set.contains(text)
}

/// What a map from the start, the end and the name of a site to a number holds,
/// the name by characters.
pub uninterp spec fn sites(map: FxHashMap<(u32, u32, String), u32>) -> Map<
    (u32, u32, Seq<char>),
    u32,
>;

/// `FxHashMap::default`: an empty map of sites.
#[verifier::external_body]
pub(crate) fn no_sites() -> (r: FxHashMap<(u32, u32, String), u32>)
    ensures
        sites(r).dom() == Set::<(u32, u32, Seq<char>)>::empty(),
{
    FxHashMap::default()
}

/// `FxHashMap::get`: the number a site has, if it has one.
#[verifier::external_body]
pub(crate) fn get_site(
    map: &FxHashMap<(u32, u32, String), u32>,
    start: u32,
    end: u32,
    name: &str,
) -> (r: Option<u32>)
    ensures
        match r {
            Some(number) => sites(*map).dom().contains((start, end, name@)) && number
                == sites(*map)[(start, end, name@)],
            None => !sites(*map).dom().contains((start, end, name@)),
        },
{
    map.get(&(start, end, name.to_owned())).copied()
}

/// `FxHashMap::insert`: gives a site a number in place of the one it had.
#[verifier::external_body]
pub(crate) fn insert_site(
    map: &mut FxHashMap<(u32, u32, String), u32>,
    start: u32,
    end: u32,
    name: &str,
    number: u32,
)
    ensures
        sites(*final(map)) == sites(*old(map)).insert((start, end, name@), number),
{
    map.insert((start, end, name.to_owned()), number);
}

/// `FxHashSet::default`: an empty set.
#[verifier::external_body]
pub(crate) fn fx_set() -> (r: FxHashSet<u32>)
    ensures
        r@ == Set::<u32>::empty(),
{
    FxHashSet::default()
}

/// `FxHashSet::contains`: whether a set holds a key.
#[verifier::external_body]
pub(crate) fn fx_contains(set: &FxHashSet<u32>, key: u32) -> (r: bool)
    ensures
        r == set@.contains(key),
{
    set.contains(&key)
}

/// `FxHashSet::insert`: adds a key.
#[verifier::external_body]
pub(crate) fn fx_add(set: &mut FxHashSet<u32>, key: u32)
    ensures
        final(set)@ == old(set)@.insert(key),
{
    set.insert(key);
}

/// `FxHashSet::iter`: every key once, in no stated order.
#[verifier::external_body]
pub(crate) fn fx_keys(set: &FxHashSet<u32>) -> (r: Vec<u32>)
    ensures
        r@.to_set() == set@,
        r@.no_duplicates(),
{
    set.iter().copied().collect()
}

} // verus!
