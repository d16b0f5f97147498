//! The JSON documents of the data files: an object of strings
//! (`{"key": "text"}`), and an object of such objects
//! (`{"ru": {"misheard": "meant"}}`).
use vstd::prelude::*;

verus! {

/// The strings of a JSON object whose values are all strings, by key; none
/// when `doc` is not such a document.
pub uninterp spec fn json_string_map(doc: Seq<char>) -> Option<Map<Seq<char>, Seq<char>>>;

/// The objects of strings of a JSON object whose values are all such
/// objects, by key; none when `doc` is not such a document.
pub uninterp spec fn json_nested_string_maps(doc: Seq<char>) -> Option<
    Map<Seq<char>, Map<Seq<char>, Seq<char>>>,
>;

/// The map of `(key, value)` pairs; a later pair with the same key wins.
pub open spec fn pair_map(v: Seq<(String, String)>) -> Map<Seq<char>, Seq<char>>
    decreases v.len(),
{
    if v.len() == 0 {
        Map::empty()
    } else {
        pair_map(v.drop_last()).insert(v.last().0@, v.last().1@)
    }
}

/// No key occurs twice.
pub open spec fn distinct_keys(v: Seq<(String, String)>) -> bool {
    forall|i: int, j: int| 0 <= i < j < v.len() ==> (#[trigger] v[i]).0@ != (#[trigger] v[j]).0@
}

/// The map of `(key, pairs)` entries, each entry's pairs taken as a map.
pub open spec fn nested_pair_map(v: Seq<(String, Vec<(String, String)>)>) -> Map<
    Seq<char>,
    Map<Seq<char>, Seq<char>>,
>
    decreases v.len(),
{
    if v.len() == 0 {
        Map::empty()
    } else {
        nested_pair_map(v.drop_last()).insert(v.last().0@, pair_map(v.last().1@))
    }
}

/// No outer key occurs twice, nor a key twice within one entry.
pub open spec fn nested_distinct_keys(v: Seq<(String, Vec<(String, String)>)>) -> bool {
    &&& forall|i: int, j: int| 0 <= i < j < v.len() ==> (#[trigger] v[i]).0@ != (#[trigger] v[j]).0@
    &&& forall|i: int| 0 <= i < v.len() ==> distinct_keys((#[trigger] v[i]).1@)
}

/// `serde_json::from_str::<HashMap<String, String>>` of `doc`; the pairs come
/// in the map's iteration order, which is left open.
#[verifier::external_body]
pub(crate) fn parse_string_map(doc: &str) -> (r: Option<Vec<(String, String)>>)
    ensures
        match r {
            Some(v) => json_string_map(doc@) == Some(pair_map(v@)) && distinct_keys(v@),
            None => json_string_map(doc@) is None,
        },
{
    match serde_json::from_str::<std::collections::HashMap<String, String>>(doc) {
        Ok(m) => Some(m.into_iter().collect()),
        Err(_) => None,
    }
}

/// `serde_json::from_str::<HashMap<String, HashMap<String, String>>>` of
/// `doc`; entries and pairs come in the maps' iteration order, which is left
/// open.
#[verifier::external_body]
pub(crate) fn parse_nested_string_maps(doc: &str) -> (r: Option<Vec<(String, Vec<(String, String)>)>>)
    ensures
        match r {
            Some(v) => json_nested_string_maps(doc@) == Some(nested_pair_map(v@)) && nested_distinct_keys(v@),
            None => json_nested_string_maps(doc@) is None,
        },
{
    match serde_json::from_str::<
        std::collections::HashMap<String, std::collections::HashMap<String, String>>,
    >(doc) {
        Ok(m) => Some(m.into_iter().map(|(k, inner)| (k, inner.into_iter().collect())).collect()),
        Err(_) => None,
    }
}

} // verus!
