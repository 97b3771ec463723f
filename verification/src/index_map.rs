use vstd::prelude::*;

use indexmap::IndexMap;

use crate::lazy::Setter;
use crate::types::{Type, TypeView};

verus! {

/// `indexmap::IndexMap`, an insertion-ordered hash map.
#[verifier::external_type_specification]
#[verifier::external_body]
#[verifier::reject_recursive_types(K)]
#[verifier::reject_recursive_types(V)]
#[verifier::reject_recursive_types(S)]
pub struct ExIndexMap<K, V, S>(IndexMap<K, V, S>);

/// The keys of an insertion-ordered map after `key` is inserted: a new key goes last,
/// a key that was `present` keeps its place.
pub open spec fn keys_after_insert(keys: Seq<Seq<char>>, present: bool, key: Seq<char>) -> Seq<
    Seq<char>,
> {
    if present {
        keys
    } else {
        keys.push(key)
    }
}

/// `keys` lists each key of `dom`, and nothing else, exactly once.
pub open spec fn lists_each_key_once(keys: Seq<Seq<char>>, dom: Set<Seq<char>>) -> bool {
    &&& keys.no_duplicates()
    &&& forall|k: Seq<char>| #[trigger] dom.contains(k) <==> keys.contains(k)
}

// ------------------------------------------------------------------
// Maps from names to counts.
// ------------------------------------------------------------------

/// What a map from names to counts holds.
pub uninterp spec fn counts(m: IndexMap<String, usize>) -> Map<Seq<char>, usize>;

/// The names in a map from names to counts, in the order they were first inserted.
pub uninterp spec fn count_keys(m: IndexMap<String, usize>) -> Seq<Seq<char>>;

/// `IndexMap::new`: a map that holds nothing.
#[verifier::external_body]
pub fn counts_new() -> (r: IndexMap<String, usize>)
    ensures
        counts(r).dom().is_empty(),
        count_keys(r).len() == 0,
        lists_each_key_once(count_keys(r), counts(r).dom()),
{
    IndexMap::new()
}

/// `IndexMap::get`: the count of `key`, if the map holds it.
#[verifier::external_body]
pub fn counts_get(m: &IndexMap<String, usize>, key: &str) -> (r: Option<usize>)
    ensures
        r == (if counts(*m).dom().contains(key@) {
            Some(counts(*m)[key@])
        } else {
            None
        }),
{
    m.get(key).copied()
}

/// `IndexMap::insert`: the map then holds `value` for `key`; a new key goes last in the
/// order, a key it held keeps its place. The count it held before is returned.
#[verifier::external_body]
pub fn counts_insert(m: &mut IndexMap<String, usize>, key: String, value: usize) -> (r: Option<
    usize,
>)
    ensures
        counts(*final(m)) == counts(*old(m)).insert(key@, value),
        count_keys(*final(m)) == keys_after_insert(
            count_keys(*old(m)),
            counts(*old(m)).dom().contains(key@),
            key@,
        ),
        lists_each_key_once(count_keys(*final(m)), counts(*final(m)).dom()),
        r == (if counts(*old(m)).dom().contains(key@) {
            Some(counts(*old(m))[key@])
        } else {
            None
        }),
{
    m.insert(key, value)
}


// ------------------------------------------------------------------
// Maps from names to setter lists.
// ------------------------------------------------------------------

/// What a map from names to setter lists holds.
pub uninterp spec fn setter_lists(m: IndexMap<String, Vec<Setter>>) -> Map<Seq<char>, Seq<Setter>>;

/// The names in a map from names to setter lists, in the order they were first inserted.
pub uninterp spec fn setter_names(m: IndexMap<String, Vec<Setter>>) -> Seq<Seq<char>>;

/// `IndexMap::new`: a map that holds nothing.
#[verifier::external_body]
pub fn setters_new() -> (r: IndexMap<String, Vec<Setter>>)
    ensures
        setter_lists(r).dom().is_empty(),
        setter_names(r).len() == 0,
        lists_each_key_once(setter_names(r), setter_lists(r).dom()),
{
    IndexMap::new()
}

/// `IndexMap::get`: the setter list of `key`, if the map holds it.
#[verifier::external_body]
pub fn setters_get<'a>(m: &'a IndexMap<String, Vec<Setter>>, key: &str) -> (r: Option<&'a Vec<Setter>>)
    ensures
        match r {
            Some(v) => setter_lists(*m).dom().contains(key@) && v@ == setter_lists(*m)[key@],
            None => !setter_lists(*m).dom().contains(key@),
        },
{
    m.get(key)
}

/// `IndexMap::insert`: the map then holds `value` for `key`; a new key goes last in the
/// order, a key it held keeps its place. The list it held before is returned.
#[verifier::external_body]
pub fn setters_insert(m: &mut IndexMap<String, Vec<Setter>>, key: String, value: Vec<Setter>) -> (r:
    Option<Vec<Setter>>)
    ensures
        setter_lists(*final(m)) == setter_lists(*old(m)).insert(key@, value@),
        setter_names(*final(m)) == keys_after_insert(
            setter_names(*old(m)),
            setter_lists(*old(m)).dom().contains(key@),
            key@,
        ),
        lists_each_key_once(setter_names(*final(m)), setter_lists(*final(m)).dom()),
        match r {
            Some(v) => setter_lists(*old(m)).dom().contains(key@) && v@ == setter_lists(*old(m))[key@],
            None => !setter_lists(*old(m)).dom().contains(key@),
        },
{
    m.insert(key, value)
}

/// `IndexMap::len`: how many names the map holds; the map holds exactly the names of
/// its order.
#[verifier::external_body]
pub fn setters_len(m: &IndexMap<String, Vec<Setter>>) -> (r: usize)
    ensures
        r == setter_names(*m).len(),
        setter_lists(*m).dom() == setter_names(*m).take(r as int).to_set(),
{
    m.len()
}

/// `IndexMap::get_index`: the `i`-th name in order and its setter list, if there are
/// more than `i` names; that name stands nowhere else in the order.
#[verifier::external_body]
pub fn setters_get_index<'a>(m: &'a IndexMap<String, Vec<Setter>>, i: usize) -> (r: Option<
    (&'a String, &'a Vec<Setter>),
>)
    ensures
        match r {
            Some((k, v)) => {
                &&& i < setter_names(*m).len()
                &&& k@ == setter_names(*m)[i as int]
                &&& forall|j: int|
                    0 <= j < setter_names(*m).len() && j != i ==> #[trigger] setter_names(*m)[j] != k@
                &&& setter_lists(*m).dom().contains(k@)
                &&& v@ == setter_lists(*m)[k@]
            },
            None => i >= setter_names(*m).len(),
        },
{
    m.get_index(i)
}

// ------------------------------------------------------------------
// Tables of strings: a key to (name to text), such as package path to (type name to
// alias) or file name to (import name to package path).
// ------------------------------------------------------------------

/// What a map from names to texts holds.
pub uninterp spec fn string_map(m: IndexMap<String, String>) -> Map<Seq<char>, Seq<char>>;

/// The names in a map from names to texts, in the order they were first inserted.
pub uninterp spec fn string_map_keys(m: IndexMap<String, String>) -> Seq<Seq<char>>;

/// What a map from keys to maps of names to texts holds, each inner map by its contents.
pub uninterp spec fn string_tables(m: IndexMap<String, IndexMap<String, String>>) -> Map<
    Seq<char>,
    Map<Seq<char>, Seq<char>>,
>;

/// The keys of a table of inner maps, in the order they were first inserted.
pub uninterp spec fn string_table_keys(m: IndexMap<String, IndexMap<String, String>>) -> Seq<
    Seq<char>,
>;

/// The order of the names of each inner map of a table, by the table's key.
pub uninterp spec fn string_table_orders(m: IndexMap<String, IndexMap<String, String>>) -> Map<
    Seq<char>,
    Seq<Seq<char>>,
>;

/// The table lists each of its keys once, and each inner map lists each of its names
/// once.
pub open spec fn tables_keep_orders(m: IndexMap<String, IndexMap<String, String>>) -> bool {
    &&& lists_each_key_once(string_table_keys(m), string_tables(m).dom())
    &&& string_table_orders(m).dom() == string_tables(m).dom()
    &&& forall|k: Seq<char>|
        #[trigger] string_tables(m).dom().contains(k) ==> lists_each_key_once(
            string_table_orders(m)[k],
            string_tables(m)[k].dom(),
        )
}

/// `IndexMap::new`: a map of names to texts that holds nothing.
#[verifier::external_body]
pub fn string_map_new() -> (r: IndexMap<String, String>)
    ensures
        string_map(r).dom().is_empty(),
        string_map_keys(r).len() == 0,
        lists_each_key_once(string_map_keys(r), string_map(r).dom()),
{
    IndexMap::new()
}

/// `IndexMap::insert`: the map then holds `value` for `key`; a new key goes last in the
/// order, a key it held keeps its place.
#[verifier::external_body]
pub fn string_map_insert(m: &mut IndexMap<String, String>, key: String, value: String) -> (r: Option<
    String,
>)
    ensures
        string_map(*final(m)) == string_map(*old(m)).insert(key@, value@),
        string_map_keys(*final(m)) == keys_after_insert(
            string_map_keys(*old(m)),
            string_map(*old(m)).dom().contains(key@),
            key@,
        ),
        lists_each_key_once(string_map_keys(*final(m)), string_map(*final(m)).dom()),
        match r {
            Some(v) => string_map(*old(m)).dom().contains(key@) && v@ == string_map(*old(m))[key@],
            None => !string_map(*old(m)).dom().contains(key@),
        },
{
    m.insert(key, value)
}

/// `IndexMap::get`: the text of `key`, if the map holds it.
#[verifier::external_body]
pub fn string_map_get<'a>(m: &'a IndexMap<String, String>, key: &str) -> (r: Option<&'a String>)
    ensures
        match r {
            Some(v) => string_map(*m).dom().contains(key@) && v@ == string_map(*m)[key@],
            None => !string_map(*m).dom().contains(key@),
        },
{
    m.get(key)
}

/// `IndexMap::get`: the inner map of `key`, if the table holds it.
#[verifier::external_body]
pub fn string_tables_get<'a>(m: &'a IndexMap<String, IndexMap<String, String>>, key: &str) -> (r:
    Option<&'a IndexMap<String, String>>)
    ensures
        match r {
            Some(t) => {
                &&& string_tables(*m).dom().contains(key@)
                &&& string_map(*t) == string_tables(*m)[key@]
                &&& string_table_orders(*m).dom().contains(key@)
                &&& string_map_keys(*t) == string_table_orders(*m)[key@]
                &&& lists_each_key_once(string_map_keys(*t), string_map(*t).dom())
            },
            None => !string_tables(*m).dom().contains(key@),
        },
{
    m.get(key)
}

/// `IndexMap::new`: a table that holds no key.
#[verifier::external_body]
pub fn string_tables_new() -> (r: IndexMap<String, IndexMap<String, String>>)
    ensures
        string_tables(r).dom().is_empty(),
        string_table_keys(r).len() == 0,
        string_table_orders(r).dom().is_empty(),
        tables_keep_orders(r),
{
    IndexMap::new()
}

/// `IndexMap::get_mut`: the inner map of `key`, if the table holds it; what is done to
/// it is what the table then holds for `key`, and the table's keys keep their order.
#[verifier::external_body]
pub fn string_tables_get_mut<'a>(m: &'a mut IndexMap<String, IndexMap<String, String>>, key: &str) -> (r:
    Option<&'a mut IndexMap<String, String>>)
    ensures
        match r {
            Some(t) => {
                &&& string_tables(*old(m)).dom().contains(key@)
                &&& string_map(*t) == string_tables(*old(m))[key@]
                &&& string_tables(*final(m)) == string_tables(*old(m)).insert(key@, string_map(*final(t)))
                &&& string_table_orders(*old(m)).dom().contains(key@)
                &&& string_map_keys(*t) == string_table_orders(*old(m))[key@]
                &&& string_table_orders(*final(m)) == string_table_orders(*old(m)).insert(
                    key@,
                    string_map_keys(*final(t)),
                )
                &&& string_table_keys(*final(m)) == string_table_keys(*old(m))
                &&& lists_each_key_once(string_map_keys(*t), string_map(*t).dom())
                &&& tables_keep_orders(*final(m))
            },
            None => {
                &&& !string_tables(*old(m)).dom().contains(key@)
                &&& string_tables(*final(m)) == string_tables(*old(m))
                &&& string_table_orders(*final(m)) == string_table_orders(*old(m))
                &&& string_table_keys(*final(m)) == string_table_keys(*old(m))
                &&& tables_keep_orders(*final(m))
            },
        },
{
    m.get_mut(key)
}

/// `IndexMap::insert`: the table then holds the inner map `value` for `key`; a new key
/// goes last in the order, a key it held keeps its place.
#[verifier::external_body]
pub fn string_tables_insert(
    m: &mut IndexMap<String, IndexMap<String, String>>,
    key: String,
    value: IndexMap<String, String>,
) -> (r: Option<IndexMap<String, String>>)
    ensures
        string_tables(*final(m)) == string_tables(*old(m)).insert(key@, string_map(value)),
        string_table_orders(*final(m)) == string_table_orders(*old(m)).insert(
            key@,
            string_map_keys(value),
        ),
        string_table_keys(*final(m)) == keys_after_insert(
            string_table_keys(*old(m)),
            string_tables(*old(m)).dom().contains(key@),
            key@,
        ),
        tables_keep_orders(*final(m)),
        match r {
            Some(v) => string_tables(*old(m)).dom().contains(key@) && string_map(v) == string_tables(
                *old(m),
            )[key@],
            None => !string_tables(*old(m)).dom().contains(key@),
        },
{
    m.insert(key, value)
}

// ------------------------------------------------------------------
// Maps from names to types.
// ------------------------------------------------------------------

/// What a map from names to types holds, each type by its value.
pub uninterp spec fn named_types(m: IndexMap<String, Type>) -> Map<Seq<char>, TypeView>;

/// The names in a map from names to types, in the order they were first inserted.
pub uninterp spec fn type_names(m: IndexMap<String, Type>) -> Seq<Seq<char>>;

/// `IndexMap::new`: a map that holds nothing.
#[verifier::external_body]
pub fn named_types_new() -> (r: IndexMap<String, Type>)
    ensures
        named_types(r).dom().is_empty(),
        type_names(r).len() == 0,
        lists_each_key_once(type_names(r), named_types(r).dom()),
{
    IndexMap::new()
}

/// `IndexMap::insert`: the map then holds `value` for `key`; a new key goes last in the
/// order, a key it held keeps its place.
#[verifier::external_body]
pub fn named_types_insert(m: &mut IndexMap<String, Type>, key: String, value: Type) -> (r: Option<
    Type,
>)
    ensures
        named_types(*final(m)) == named_types(*old(m)).insert(key@, value@),
        type_names(*final(m)) == keys_after_insert(
            type_names(*old(m)),
            named_types(*old(m)).dom().contains(key@),
            key@,
        ),
        lists_each_key_once(type_names(*final(m)), named_types(*final(m)).dom()),
        match r {
            Some(v) => named_types(*old(m)).dom().contains(key@) && v@ == named_types(*old(m))[key@],
            None => !named_types(*old(m)).dom().contains(key@),
        },
{
    m.insert(key, value)
}
} // verus!
