//! Insertion-ordered maps keyed by strings, kept in `indexmap::IndexMap`.
//!
//! The contents of a map are modelled as the sequence of its key/value pairs in
//! the map's order. Lookup finds the first pair with the given key; insertion
//! updates that pair in place or appends a new one at the end; removal shifts
//! the later pairs down. A map built only by these operations never holds a key
//! twice (`distinct_keys`).

use indexmap::IndexMap;
use vstd::prelude::*;

verus! {

#[verifier::external_type_specification]
#[verifier::external_body]
#[verifier::reject_recursive_types(K)]
#[verifier::reject_recursive_types(V)]
#[verifier::reject_recursive_types(S)]
pub struct ExIndexMap<K, V, S>(IndexMap<K, V, S>);

/// Position of the first pair whose key is `k`.
pub open spec fn key_index<V>(s: Seq<(Seq<char>, V)>, k: Seq<char>) -> Option<int>
    decreases s.len(),
{
    if s.len() == 0 {
        None
    } else if s[0].0 == k {
        Some(0)
    } else {
        match key_index(s.drop_first(), k) {
            Some(i) => Some(i + 1),
            None => None,
        }
    }
}

/// Whether some pair has the key `k`.
pub open spec fn has_key<V>(s: Seq<(Seq<char>, V)>, k: Seq<char>) -> bool {
    key_index(s, k) is Some
}

/// The value stored under `k`, if any.
pub open spec fn lookup<V>(s: Seq<(Seq<char>, V)>, k: Seq<char>) -> Option<V> {
    match key_index(s, k) {
        Some(i) => Some(s[i].1),
        None => None,
    }
}

/// The pairs after inserting `v` under `k`: an existing key keeps its place and
/// takes the new value; a new key goes last.
pub open spec fn insert_entry<V>(s: Seq<(Seq<char>, V)>, k: Seq<char>, v: V) -> Seq<(Seq<char>, V)> {
    match key_index(s, k) {
        Some(i) => s.update(i, (k, v)),
        None => s.push((k, v)),
    }
}

/// The pairs after removing `k`: the later pairs keep their order.
pub open spec fn remove_entry<V>(s: Seq<(Seq<char>, V)>, k: Seq<char>) -> Seq<(Seq<char>, V)> {
    match key_index(s, k) {
        Some(i) => s.remove(i),
        None => s,
    }
}

/// The keys, in order.
pub open spec fn keys_of<V>(s: Seq<(Seq<char>, V)>) -> Seq<Seq<char>> {
    s.map_values(|p: (Seq<char>, V)| p.0)
}

/// No key occurs twice.
pub open spec fn distinct_keys<V>(s: Seq<(Seq<char>, V)>) -> bool {
    forall|i: int, j: int| 0 <= i < j < s.len() ==> s[i].0 != s[j].0
}

/// What `key_index` finds: the first position holding the key, or none at all.
pub broadcast proof fn lemma_key_index<V>(s: Seq<(Seq<char>, V)>, k: Seq<char>)
    ensures
        match #[trigger] key_index(s, k) {
            Some(i) => 0 <= i < s.len() && s[i].0 == k && forall|j: int|
                0 <= j < i ==> s[j].0 != k,
            None => forall|j: int| 0 <= j < s.len() ==> s[j].0 != k,
        },
    decreases s.len(),
{
    if s.len() > 0 && s[0].0 != k {
        lemma_key_index(s.drop_first(), k);
        match key_index(s.drop_first(), k) {
            Some(i) => {
                assert forall|j: int| 0 <= j < i + 1 implies s[j].0 != k by {
                    if j > 0 {
                        assert(s[j] == s.drop_first()[j - 1]);
                    }
                }
            },
            None => {
                assert forall|j: int| 0 <= j < s.len() implies s[j].0 != k by {
                    if j > 0 {
                        assert(s[j] == s.drop_first()[j - 1]);
                    }
                }
            },
        }
    }
}

/// Inserting keeps keys distinct, and the inserted key then maps to the inserted value.
pub proof fn lemma_insert_entry<V>(s: Seq<(Seq<char>, V)>, k: Seq<char>, v: V)
    ensures
        distinct_keys(s) ==> distinct_keys(insert_entry(s, k, v)),
        lookup(insert_entry(s, k, v), k) == Some(v),
        forall|k2: Seq<char>| k2 != k ==> lookup(#[trigger] insert_entry(s, k, v), k2) == lookup(s, k2),
        keys_of(insert_entry(s, k, v)) == (if has_key(s, k) { keys_of(s) } else { keys_of(s).push(k) }),
{
    let t = insert_entry(s, k, v);
    lemma_key_index(s, k);
    lemma_key_index(t, k);
    match key_index(s, k) {
        Some(i0) => {
            assert(t[i0].0 == k);
            let i = key_index(t, k)->0;
            if i < i0 {
                assert(t[i] == s[i]);
            }
            assert(i == i0);
        },
        None => {
            assert(t[s.len() as int].0 == k);
            let i = key_index(t, k)->0;
            if i < s.len() {
                assert(t[i] == s[i]);
            }
            assert(i == s.len());
        },
    }
    assert forall|k2: Seq<char>| k2 != k implies lookup(#[trigger] insert_entry(s, k, v), k2) == lookup(s, k2) by {
        lemma_key_index(s, k2);
        lemma_key_index(t, k2);
        match key_index(s, k2) {
            Some(i) => {
                assert(t[i] == s[i]);
            },
            None => {},
        }
        match key_index(t, k2) {
            Some(i) => {
                assert(t[i] == s[i]);
            },
            None => {},
        }
    }
    assert(keys_of(t) =~= (if has_key(s, k) { keys_of(s) } else { keys_of(s).push(k) }));
}

/// Removing a key from a map without repeated keys leaves no pair with that key,
/// keeps keys distinct, and leaves every other key's value unchanged.
pub proof fn lemma_remove_entry<V>(s: Seq<(Seq<char>, V)>, k: Seq<char>)
    requires
        distinct_keys(s),
    ensures
        distinct_keys(remove_entry(s, k)),
        lookup(remove_entry(s, k), k) is None,
        forall|k2: Seq<char>| k2 != k ==> lookup(#[trigger] remove_entry(s, k), k2) == lookup(s, k2),
{
    let t = remove_entry(s, k);
    lemma_key_index(s, k);
    lemma_key_index(t, k);
    match key_index(s, k) {
        Some(i) => {
            assert forall|a: int, b: int| 0 <= a < b < t.len() implies t[a].0 != t[b].0 by {
                if a >= i {
                    assert(t[a] == s[a + 1]);
                    assert(t[b] == s[b + 1]);
                } else if b >= i {
                    assert(t[a] == s[a]);
                    assert(t[b] == s[b + 1]);
                } else {
                    assert(t[a] == s[a]);
                    assert(t[b] == s[b]);
                }
            }
            assert forall|j: int| 0 <= j < t.len() implies t[j].0 != k by {
                if j >= i {
                    assert(t[j] == s[j + 1]);
                } else {
                    assert(t[j] == s[j]);
                }
            }
            assert forall|k2: Seq<char>| k2 != k implies lookup(#[trigger] remove_entry(s, k), k2) == lookup(s, k2) by {
                lemma_key_index(s, k2);
                lemma_key_index(t, k2);
                match key_index(s, k2) {
                    Some(a) => {
                        if a < i {
                            assert(t[a] == s[a]);
                        } else {
                            assert(t[a - 1] == s[a]);
                        }
                    },
                    None => {
                        assert forall|j: int| 0 <= j < t.len() implies t[j].0 != k2 by {
                            if j >= i {
                                assert(t[j] == s[j + 1]);
                            } else {
                                assert(t[j] == s[j]);
                            }
                        }
                    },
                }
                match key_index(t, k2) {
                    Some(a) => {
                        if a < i {
                            assert(t[a] == s[a]);
                        } else {
                            assert(t[a] == s[a + 1]);
                        }
                    },
                    None => {},
                }
            }
        },
        None => {},
    }
}

/// The pairs of a map from strings to strings, in the map's order, each string by its characters.
pub uninterp spec fn str_entries(m: IndexMap<String, String>) -> Seq<(Seq<char>, Seq<char>)>;

/// `IndexMap::new`: an empty map.
#[verifier::external_body]
pub(crate) fn string_map_new() -> (m: IndexMap<String, String>)
    ensures
        str_entries(m) == Seq::<(Seq<char>, Seq<char>)>::empty(),
        distinct_keys(str_entries(m)),
{
    IndexMap::new()
}

/// `IndexMap::len`: the number of pairs.
#[verifier::external_body]
pub(crate) fn string_map_len(m: &IndexMap<String, String>) -> (n: usize)
    ensures
        n == str_entries(*m).len(),
{
    m.len()
}

/// `IndexMap::get_index`: the pair at position `i`, present exactly when `i` is
/// below the length; a map holds each key once, so no other position has its key.
#[verifier::external_body]
pub(crate) fn string_map_get_index(m: &IndexMap<String, String>, i: usize) -> (r: Option<(&String, &String)>)
    ensures
        r is Some <==> i < str_entries(*m).len(),
        r matches Some(p) ==> p.0@ == str_entries(*m)[i as int].0 && p.1@ == str_entries(*m)[i as int].1,
        r matches Some(p) ==> forall|j: int| 0 <= j < str_entries(*m).len() && j != i ==> #[trigger] str_entries(*m)[j].0 != p.0@,
{
    m.get_index(i)
}

/// `IndexMap::get`: the value stored under the key.
#[verifier::external_body]
pub(crate) fn string_map_get<'a>(m: &'a IndexMap<String, String>, k: &str) -> (r: Option<&'a String>)
    ensures
        r is Some <==> lookup(str_entries(*m), k@) is Some,
        r matches Some(v) ==> v@ == lookup(str_entries(*m), k@)->0,
{
    m.get(k)
}

/// `IndexMap::insert`: an existing key keeps its place and takes the new value, a
/// new key goes last; the previous value is returned.
#[verifier::external_body]
pub(crate) fn string_map_insert(m: &mut IndexMap<String, String>, k: String, v: String) -> (r: Option<String>)
    ensures
        str_entries(*final(m)) == insert_entry(str_entries(*old(m)), k@, v@),
        distinct_keys(str_entries(*final(m))),
        r is Some <==> lookup(str_entries(*old(m)), k@) is Some,
        r matches Some(p) ==> p@ == lookup(str_entries(*old(m)), k@)->0,
{
    m.insert(k, v)
}

/// `IndexMap::shift_remove`: removes the key, the later pairs keep their order; the
/// removed value is returned.
#[verifier::external_body]
pub(crate) fn string_map_shift_remove(m: &mut IndexMap<String, String>, k: &str) -> (r: Option<String>)
    ensures
        str_entries(*final(m)) == remove_entry(str_entries(*old(m)), k@),
        distinct_keys(str_entries(*final(m))),
        r is Some <==> lookup(str_entries(*old(m)), k@) is Some,
        r matches Some(p) ==> p@ == lookup(str_entries(*old(m)), k@)->0,
{
    m.shift_remove(k)
}

/// `IndexMap::clone`: a map with the same pairs in the same order.
#[verifier::external_body]
pub(crate) fn string_map_clone(m: &IndexMap<String, String>) -> (c: IndexMap<String, String>)
    ensures
        str_entries(c) == str_entries(*m),
        distinct_keys(str_entries(c)),
{
    m.clone()
}

} // verus!
