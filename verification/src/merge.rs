//! Merging a shared registry into the local one.
//!
//! A site or global repository that is new, or any of them when overwriting,
//! is taken from the incoming registry as a whole. Without overwriting, a site
//! that already exists keeps its IP address and its repositories and only gains
//! the incoming repositories whose names it lacks.

use crate::ordered_map::{
    distinct_keys, has_key, insert_entry, lemma_insert_entry, lemma_key_index, lookup, str_entries,
    string_map_get, string_map_get_index, string_map_insert, string_map_len,
};
use crate::registry::{
    rs_entries, rs_map_get, rs_map_get_index, rs_map_insert, rs_map_len, Registry, RegistryView,
    RsEntryView,
};
use vstd::prelude::*;

verus! {

broadcast use lemma_key_index;

/// A site's repositories after taking in the incoming ones whose names it lacks,
/// and how many were taken.
pub open spec fn merge_site_repos(own: Seq<(Seq<char>, Seq<char>)>, inc: Seq<(Seq<char>, Seq<char>)>) -> (Seq<(Seq<char>, Seq<char>)>, nat)
    decreases inc.len(),
{
    if inc.len() == 0 {
        (own, 0)
    } else {
        let (a, c) = merge_site_repos(own, inc.drop_last());
        let (k, v) = inc.last();
        if has_key(a, k) {
            (a, c)
        } else {
            (insert_entry(a, k, v), c + 1)
        }
    }
}

/// The sites after merging the incoming ones, how many sites were taken whole,
/// and how many repositories existing sites gained.
pub open spec fn merge_sites(own: Seq<(Seq<char>, RsEntryView)>, inc: Seq<(Seq<char>, RsEntryView)>, overwrite: bool) -> (Seq<(Seq<char>, RsEntryView)>, nat, nat)
    decreases inc.len(),
{
    if inc.len() == 0 {
        (own, 0, 0)
    } else {
        let (a, r, p) = merge_sites(own, inc.drop_last(), overwrite);
        let (n, e) = inc.last();
        if !has_key(a, n) || overwrite {
            (insert_entry(a, n, e), r + 1, p)
        } else {
            let cur = lookup(a, n)->0;
            let (m, c) = merge_site_repos(cur.1, e.1);
            (insert_entry(a, n, (cur.0, m)), r, p + c)
        }
    }
}

/// The global repositories after merging the incoming ones, and how many were taken.
pub open spec fn merge_globals(own: Seq<(Seq<char>, Seq<char>)>, inc: Seq<(Seq<char>, Seq<char>)>, overwrite: bool) -> (Seq<(Seq<char>, Seq<char>)>, nat)
    decreases inc.len(),
{
    if inc.len() == 0 {
        (own, 0)
    } else {
        let (a, c) = merge_globals(own, inc.drop_last(), overwrite);
        let (k, v) = inc.last();
        if !has_key(a, k) || overwrite {
            (insert_entry(a, k, v), c + 1)
        } else {
            (a, c)
        }
    }
}

/// How many repositories the incoming registry holds, global and per site.
pub open spec fn repo_count(v: RegistryView) -> nat {
    v.repos.len() + site_repo_count(v.rs)
}

/// How many repositories the sites hold together.
pub open spec fn site_repo_count(s: Seq<(Seq<char>, RsEntryView)>) -> nat
    decreases s.len(),
{
    if s.len() == 0 {
        0
    } else {
        site_repo_count(s.drop_last()) + s.last().1.1.len()
    }
}

/// The registry after merging `inc` into `own`.
pub open spec fn merged(own: RegistryView, inc: RegistryView, overwrite: bool) -> RegistryView {
    RegistryView {
        repos: merge_globals(own.repos, inc.repos, overwrite).0,
        rs: merge_sites(own.rs, inc.rs, overwrite).0,
    }
}

/// What `merge_site_repos` counts is at most the number of incoming repositories.
proof fn lemma_merge_site_repos_count(own: Seq<(Seq<char>, Seq<char>)>, inc: Seq<(Seq<char>, Seq<char>)>)
    ensures
        merge_site_repos(own, inc).1 <= inc.len(),
    decreases inc.len(),
{
    if inc.len() > 0 {
        lemma_merge_site_repos_count(own, inc.drop_last());
    }
}

/// What `merge_sites` counts is bounded by the incoming sites and their repositories.
proof fn lemma_merge_sites_count(own: Seq<(Seq<char>, RsEntryView)>, inc: Seq<(Seq<char>, RsEntryView)>, overwrite: bool)
    ensures
        merge_sites(own, inc, overwrite).1 <= inc.len(),
        merge_sites(own, inc, overwrite).2 <= site_repo_count(inc),
    decreases inc.len(),
{
    if inc.len() > 0 {
        lemma_merge_sites_count(own, inc.drop_last(), overwrite);
        let a = merge_sites(own, inc.drop_last(), overwrite).0;
        let (n, e) = inc.last();
        if !(!has_key(a, n) || overwrite) {
            lemma_merge_site_repos_count((lookup(a, n)->0).1, e.1);
        }
    }
}

/// What `merge_globals` counts is at most the number of incoming repositories.
proof fn lemma_merge_globals_count(own: Seq<(Seq<char>, Seq<char>)>, inc: Seq<(Seq<char>, Seq<char>)>, overwrite: bool)
    ensures
        merge_globals(own, inc, overwrite).1 <= inc.len(),
    decreases inc.len(),
{
    if inc.len() > 0 {
        lemma_merge_globals_count(own, inc.drop_last(), overwrite);
    }
}

/// Merges another registry into this one and returns how many sites and how
/// many repositories were added or updated.
pub fn merge_registry(reg: &mut Registry, incoming: &Registry, overwrite: bool) -> (counts: (usize, usize))
    requires
        repo_count(incoming@) <= usize::MAX,
    ensures
        final(reg)@ == merged(old(reg)@, incoming@, overwrite),
        counts.0 == merge_sites(old(reg)@.rs, incoming@.rs, overwrite).1,
        counts.1 == merge_sites(old(reg)@.rs, incoming@.rs, overwrite).2 + merge_globals(old(reg)@.repos, incoming@.repos, overwrite).1,
        distinct_keys(incoming@.rs),
        distinct_keys(incoming@.repos),
        forall|i: int| 0 <= i < incoming@.rs.len() && (overwrite || !has_key(old(reg)@.rs, #[trigger] incoming@.rs[i].0)) ==>
            lookup(final(reg)@.rs, incoming@.rs[i].0) == Some(incoming@.rs[i].1),
        forall|i: int| 0 <= i < incoming@.repos.len() && (overwrite || !has_key(old(reg)@.repos, #[trigger] incoming@.repos[i].0)) ==>
            lookup(final(reg)@.repos, incoming@.repos[i].0) == Some(incoming@.repos[i].1),
{
    let ghost own = old(reg)@;
    let ghost inc = incoming@;
    let mut added_rs: usize = 0;
    let mut added_repos: usize = 0;
    let n = rs_map_len(&incoming.rs);
    let mut i: usize = 0;
    assert(inc.rs.take(0) =~= Seq::<(Seq<char>, RsEntryView)>::empty());
    while i < n
        invariant
            i <= n,
            n == inc.rs.len(),
            inc == incoming@,
            repo_count(inc) <= usize::MAX,
            reg@.repos == own.repos,
            reg@.rs == merge_sites(own.rs, inc.rs.take(i as int), overwrite).0,
            added_rs == merge_sites(own.rs, inc.rs.take(i as int), overwrite).1,
            added_repos == merge_sites(own.rs, inc.rs.take(i as int), overwrite).2,
            forall|a: int, b: int| 0 <= a < i && 0 <= b < n && b != a ==> #[trigger] inc.rs[b].0 != #[trigger] inc.rs[a].0,
        decreases n - i,
    {
        let (name, entry) = rs_map_get_index(&incoming.rs, i).unwrap();
        proof {
            assert(inc.rs.take(i + 1).drop_last() =~= inc.rs.take(i as int));
            assert(inc.rs.take(i + 1).last() == inc.rs[i as int]);
            lemma_merge_sites_count(own.rs, inc.rs.take(i + 1), overwrite);
            lemma_site_repo_count_prefix(inc.rs, i + 1);
        }
        let present = rs_map_get(&reg.rs, name.as_str()).is_some();
        if !present || overwrite {
            rs_map_insert(&mut reg.rs, name.clone(), entry.clone());
            added_rs = added_rs + 1;
        } else {
            let mut cur = rs_map_get(&reg.rs, name.as_str()).unwrap().clone();
            let ghost cur0 = cur@;
            let m = string_map_len(&entry.repos);
            let ghost er = str_entries(entry.repos);
            let mut j: usize = 0;
            let mut gained: usize = 0;
            assert(er.take(0) =~= Seq::<(Seq<char>, Seq<char>)>::empty());
            while j < m
                invariant
                    j <= m,
                    m == er.len(),
                    er == str_entries(entry.repos),
                    cur@.0 == cur0.0,
                    cur@.1 == merge_site_repos(cur0.1, er.take(j as int)).0,
                    gained == merge_site_repos(cur0.1, er.take(j as int)).1,
                    gained <= j,
                decreases m - j,
            {
                let (rn, rp) = string_map_get_index(&entry.repos, j).unwrap();
                proof {
                    assert(er.take(j + 1).drop_last() =~= er.take(j as int));
                    assert(er.take(j + 1).last() == er[j as int]);
                }
                if string_map_get(&cur.repos, rn.as_str()).is_none() {
                    string_map_insert(&mut cur.repos, rn.clone(), rp.clone());
                    gained = gained + 1;
                }
                j = j + 1;
            }
            assert(er.take(m as int) =~= er);
            rs_map_insert(&mut reg.rs, name.clone(), cur);
            added_repos = added_repos + gained;
        }
        i = i + 1;
    }
    assert(inc.rs.take(n as int) =~= inc.rs);
    let g = string_map_len(&incoming.repos);
    let mut k: usize = 0;
    let mut added_globals: usize = 0;
    assert(inc.repos.take(0) =~= Seq::<(Seq<char>, Seq<char>)>::empty());
    proof {
        lemma_merge_sites_count(own.rs, inc.rs, overwrite);
        assert forall|a: int, b: int| 0 <= a < b < inc.rs.len() implies inc.rs[a].0 != inc.rs[b].0 by {
            assert(inc.rs[b].0 != inc.rs[a].0);
        }
    }
    while k < g
        invariant
            k <= g,
            g == inc.repos.len(),
            inc == incoming@,
            repo_count(inc) <= usize::MAX,
            added_repos == merge_sites(own.rs, inc.rs, overwrite).2,
            added_repos <= site_repo_count(inc.rs),
            reg@.rs == merge_sites(own.rs, inc.rs, overwrite).0,
            reg@.repos == merge_globals(own.repos, inc.repos.take(k as int), overwrite).0,
            added_globals == merge_globals(own.repos, inc.repos.take(k as int), overwrite).1,
            added_globals <= k,
            distinct_keys(inc.rs),
            forall|a: int, b: int| 0 <= a < k && 0 <= b < g && b != a ==> #[trigger] inc.repos[b].0 != #[trigger] inc.repos[a].0,
        decreases g - k,
    {
        let (name, path) = string_map_get_index(&incoming.repos, k).unwrap();
        proof {
            assert(inc.repos.take(k + 1).drop_last() =~= inc.repos.take(k as int));
            assert(inc.repos.take(k + 1).last() == inc.repos[k as int]);
        }
        if string_map_get(&reg.repos, name.as_str()).is_none() || overwrite {
            string_map_insert(&mut reg.repos, name.clone(), path.clone());
            added_globals = added_globals + 1;
        }
        k = k + 1;
    }
    assert(inc.repos.take(g as int) =~= inc.repos);
    proof {
        assert forall|a: int, b: int| 0 <= a < b < inc.repos.len() implies inc.repos[a].0 != inc.repos[b].0 by {
            assert(inc.repos[b].0 != inc.repos[a].0);
        }
        lemma_merge_takes_new_sites(own.rs, inc.rs, overwrite);
        lemma_merge_takes_new_globals(own.repos, inc.repos, overwrite);
    }
    (added_rs, added_repos + added_globals)
}

/// The repositories of the first sites count no more than those of all of them.
proof fn lemma_site_repo_count_prefix(s: Seq<(Seq<char>, RsEntryView)>, i: int)
    requires
        0 <= i <= s.len(),
    ensures
        site_repo_count(s.take(i)) <= site_repo_count(s),
    decreases s.len() - i,
{
    if i < s.len() {
        lemma_site_repo_count_prefix(s, i + 1);
        assert(s.take(i + 1).drop_last() =~= s.take(i));
    } else {
        assert(s.take(i) =~= s);
    }
}


/// Every key of `base` is in `s` with the same value.
pub open spec fn keeps<V>(s: Seq<(Seq<char>, V)>, base: Seq<(Seq<char>, V)>) -> bool {
    forall|k: Seq<char>| #[trigger] lookup(base, k) is Some ==> lookup(s, k) == lookup(base, k)
}

/// Inserting a key that is not yet there keeps every existing key; inserting
/// keeps every key present.
proof fn lemma_insert_keeps<V>(a: Seq<(Seq<char>, V)>, k: Seq<char>, v: V)
    ensures
        !has_key(a, k) ==> keeps(insert_entry(a, k, v), a),
        forall|k2: Seq<char>| has_key(a, k2) ==> has_key(#[trigger] insert_entry(a, k, v), k2),
        has_key(insert_entry(a, k, v), k),
{
    lemma_insert_entry(a, k, v);
    assert forall|k2: Seq<char>| has_key(a, k2) implies has_key(#[trigger] insert_entry(a, k, v), k2) by {
        if k2 != k {
            assert(lookup(insert_entry(a, k, v), k2) == lookup(a, k2));
        }
    }
    if !has_key(a, k) {
        assert forall|k2: Seq<char>| #[trigger] lookup(a, k2) is Some implies lookup(insert_entry(a, k, v), k2) == lookup(a, k2) by {
            assert(k2 != k);
        }
    }
}

/// A site keeps every repository it had when incoming ones are added, and then
/// holds every incoming repository's name.
pub proof fn lemma_merge_site_repos(own: Seq<(Seq<char>, Seq<char>)>, inc: Seq<(Seq<char>, Seq<char>)>)
    ensures
        keeps(merge_site_repos(own, inc).0, own),
        forall|i: int| 0 <= i < inc.len() ==> has_key(merge_site_repos(own, inc).0, #[trigger] inc[i].0),
    decreases inc.len(),
{
    if inc.len() > 0 {
        let inc0 = inc.drop_last();
        lemma_merge_site_repos(own, inc0);
        let a = merge_site_repos(own, inc0).0;
        let (k, v) = inc.last();
        lemma_insert_keeps(a, k, v);
        let r = merge_site_repos(own, inc).0;
        assert forall|x: Seq<char>| #[trigger] lookup(own, x) is Some implies lookup(r, x) == lookup(own, x) by {
            assert(lookup(a, x) == lookup(own, x));
            if !has_key(a, k) {
                assert(lookup(insert_entry(a, k, v), x) == lookup(a, x));
            }
        }
        assert forall|i: int| 0 <= i < inc.len() implies has_key(r, #[trigger] inc[i].0) by {
            if i < inc.len() - 1 {
                assert(inc[i] == inc0[i]);
                assert(has_key(a, inc0[i].0));
            }
        }
    }
}

/// Global repositories after a merge: without overwriting, every existing one
/// keeps its path; every incoming name is there; when overwriting, an incoming
/// repository (names not repeating) has the incoming path.
pub proof fn lemma_merge_globals(own: Seq<(Seq<char>, Seq<char>)>, inc: Seq<(Seq<char>, Seq<char>)>, overwrite: bool)
    ensures
        !overwrite ==> keeps(merge_globals(own, inc, overwrite).0, own),
        forall|i: int| 0 <= i < inc.len() ==> has_key(merge_globals(own, inc, overwrite).0, #[trigger] inc[i].0),
        overwrite && distinct_keys(inc) ==> forall|i: int| 0 <= i < inc.len() ==> lookup(merge_globals(own, inc, overwrite).0, #[trigger] inc[i].0) == Some(inc[i].1),
    decreases inc.len(),
{
    if inc.len() > 0 {
        let inc0 = inc.drop_last();
        lemma_merge_globals(own, inc0, overwrite);
        let a = merge_globals(own, inc0, overwrite).0;
        let (k, v) = inc.last();
        lemma_insert_keeps(a, k, v);
        lemma_insert_entry(a, k, v);
        let r = merge_globals(own, inc, overwrite).0;
        if !overwrite {
            assert forall|x: Seq<char>| #[trigger] lookup(own, x) is Some implies lookup(r, x) == lookup(own, x) by {
                assert(lookup(a, x) == lookup(own, x));
                if !has_key(a, k) {
                    assert(lookup(insert_entry(a, k, v), x) == lookup(a, x));
                }
            }
        }
        assert forall|i: int| 0 <= i < inc.len() implies has_key(r, #[trigger] inc[i].0) by {
            if i < inc.len() - 1 {
                assert(inc[i] == inc0[i]);
                assert(has_key(a, inc0[i].0));
            }
        }
        if overwrite && distinct_keys(inc) {
            assert(distinct_keys(inc0));
            assert forall|i: int| 0 <= i < inc.len() implies lookup(r, #[trigger] inc[i].0) == Some(inc[i].1) by {
                if i < inc.len() - 1 {
                    assert(inc[i] == inc0[i]);
                    assert(lookup(a, inc0[i].0) == Some(inc0[i].1));
                    assert(inc[i].0 != k);
                }
            }
        }
    }
}

/// Sites after a merge: every incoming site is there; without overwriting,
/// every existing site keeps its IP address and every repository it had.
pub proof fn lemma_merge_sites(own: Seq<(Seq<char>, RsEntryView)>, inc: Seq<(Seq<char>, RsEntryView)>, overwrite: bool)
    ensures
        forall|i: int| 0 <= i < inc.len() ==> has_key(merge_sites(own, inc, overwrite).0, #[trigger] inc[i].0),
        !overwrite ==> forall|n: Seq<char>| #[trigger] lookup(own, n) is Some ==> {
            let e = lookup(own, n)->0;
            let f = lookup(merge_sites(own, inc, overwrite).0, n);
            &&& f is Some
            &&& (f->0).0 == e.0
            &&& keeps((f->0).1, e.1)
        },
    decreases inc.len(),
{
    if inc.len() > 0 {
        let inc0 = inc.drop_last();
        lemma_merge_sites(own, inc0, overwrite);
        let a = merge_sites(own, inc0, overwrite).0;
        let (n, e) = inc.last();
        let r = merge_sites(own, inc, overwrite).0;
        let cur = lookup(a, n)->0;
        let ne = if !has_key(a, n) || overwrite { e } else { (cur.0, merge_site_repos(cur.1, e.1).0) };
        assert(r == insert_entry(a, n, ne));
        lemma_insert_keeps(a, n, ne);
        lemma_insert_entry(a, n, ne);
        assert forall|i: int| 0 <= i < inc.len() implies has_key(r, #[trigger] inc[i].0) by {
            if i < inc.len() - 1 {
                assert(inc[i] == inc0[i]);
                assert(has_key(a, inc0[i].0));
            }
        }
        if !overwrite {
            assert forall|x: Seq<char>| #[trigger] lookup(own, x) is Some implies ({
                let ex = lookup(own, x)->0;
                let f = lookup(r, x);
                &&& f is Some
                &&& (f->0).0 == ex.0
                &&& keeps((f->0).1, ex.1)
            }) by {
                let ex = lookup(own, x)->0;
                let fa = lookup(a, x)->0;
                assert(lookup(a, x) is Some);
                if x == n {
                    assert(has_key(a, n));
                    lemma_merge_site_repos(cur.1, e.1);
                    let m = merge_site_repos(cur.1, e.1).0;
                    assert(lookup(r, x) == Some((cur.0, m)));
                    assert forall|k: Seq<char>| #[trigger] lookup(ex.1, k) is Some implies lookup(m, k) == lookup(ex.1, k) by {
                        assert(lookup(fa.1, k) == lookup(ex.1, k));
                        assert(lookup(cur.1, k) is Some);
                    }
                } else {
                    assert(lookup(r, x) == lookup(a, x));
                }
            }
        }
    }
}

/// The sites after a merge are the local ones and the incoming ones, no others.
proof fn lemma_merge_sites_names(own: Seq<(Seq<char>, RsEntryView)>, inc: Seq<(Seq<char>, RsEntryView)>, overwrite: bool, x: Seq<char>)
    ensures
        has_key(merge_sites(own, inc, overwrite).0, x) ==> has_key(own, x) || has_key(inc, x),
    decreases inc.len(),
{
    if inc.len() > 0 {
        let inc0 = inc.drop_last();
        lemma_merge_sites_names(own, inc0, overwrite, x);
        let a = merge_sites(own, inc0, overwrite).0;
        let (n, e) = inc.last();
        let cur = lookup(a, n)->0;
        let ne = if !has_key(a, n) || overwrite { e } else { (cur.0, merge_site_repos(cur.1, e.1).0) };
        lemma_insert_entry(a, n, ne);
        if has_key(merge_sites(own, inc, overwrite).0, x) && x != n {
            assert(has_key(a, x));
            if has_key(inc0, x) {
                let j = crate::ordered_map::key_index(inc0, x)->0;
                assert(inc[j] == inc0[j]);
            }
        }
        if x == n {
            assert(inc[inc.len() - 1].0 == x);
        }
    }
}

/// A site that was not there before a merge is taken whole from the incoming
/// registry (its IP address and all its repositories), and so is every incoming
/// site when overwriting; an incoming registry holds each site once.
pub proof fn lemma_merge_takes_new_sites(own: Seq<(Seq<char>, RsEntryView)>, inc: Seq<(Seq<char>, RsEntryView)>, overwrite: bool)
    requires
        distinct_keys(inc),
    ensures
        forall|i: int| 0 <= i < inc.len() && (overwrite || !has_key(own, #[trigger] inc[i].0)) ==>
            lookup(merge_sites(own, inc, overwrite).0, inc[i].0) == Some(inc[i].1),
    decreases inc.len(),
{
    if inc.len() > 0 {
        let inc0 = inc.drop_last();
        assert(distinct_keys(inc0));
        lemma_merge_takes_new_sites(own, inc0, overwrite);
        let a = merge_sites(own, inc0, overwrite).0;
        let (n, e) = inc.last();
        let cur = lookup(a, n)->0;
        let ne = if !has_key(a, n) || overwrite { e } else { (cur.0, merge_site_repos(cur.1, e.1).0) };
        let r = merge_sites(own, inc, overwrite).0;
        assert(r == insert_entry(a, n, ne));
        lemma_insert_entry(a, n, ne);
        lemma_merge_sites_names(own, inc0, overwrite, n);
        assert(!has_key(inc0, n)) by {
            if has_key(inc0, n) {
                let j = crate::ordered_map::key_index(inc0, n)->0;
                assert(inc[j] == inc0[j]);
                assert(inc[j].0 == inc[inc.len() - 1].0);
            }
        }
        assert forall|i: int| 0 <= i < inc.len() && (overwrite || !has_key(own, #[trigger] inc[i].0)) implies
            lookup(r, inc[i].0) == Some(inc[i].1) by {
            if i < inc.len() - 1 {
                assert(inc[i] == inc0[i]);
                assert(inc[i].0 != n);
            } else {
                assert(inc[i] == (n, e));
                if !overwrite {
                    assert(!has_key(a, n));
                }
            }
        }
    }
}

/// A global repository that was not there before a merge takes the incoming
/// path, and so does every incoming one when overwriting; an incoming registry
/// holds each global repository once.
pub proof fn lemma_merge_takes_new_globals(own: Seq<(Seq<char>, Seq<char>)>, inc: Seq<(Seq<char>, Seq<char>)>, overwrite: bool)
    requires
        distinct_keys(inc),
    ensures
        forall|i: int| 0 <= i < inc.len() && (overwrite || !has_key(own, #[trigger] inc[i].0)) ==>
            lookup(merge_globals(own, inc, overwrite).0, inc[i].0) == Some(inc[i].1),
    decreases inc.len(),
{
    if inc.len() > 0 {
        let inc0 = inc.drop_last();
        assert(distinct_keys(inc0));
        lemma_merge_takes_new_globals(own, inc0, overwrite);
        lemma_merge_globals_names(own, inc0, overwrite, inc.last().0);
        let a = merge_globals(own, inc0, overwrite).0;
        let (k, v) = inc.last();
        lemma_insert_entry(a, k, v);
        let r = merge_globals(own, inc, overwrite).0;
        assert(!has_key(inc0, k)) by {
            if has_key(inc0, k) {
                let j = crate::ordered_map::key_index(inc0, k)->0;
                assert(inc[j] == inc0[j]);
                assert(inc[j].0 == inc[inc.len() - 1].0);
            }
        }
        assert forall|i: int| 0 <= i < inc.len() && (overwrite || !has_key(own, #[trigger] inc[i].0)) implies
            lookup(r, inc[i].0) == Some(inc[i].1) by {
            if i < inc.len() - 1 {
                assert(inc[i] == inc0[i]);
                assert(inc[i].0 != k);
                if !has_key(a, k) || overwrite {
                } else {
                    assert(r == a);
                }
            } else {
                assert(inc[i] == (k, v));
            }
        }
    }
}

/// The global repositories after a merge are the local ones and the incoming ones, no others.
proof fn lemma_merge_globals_names(own: Seq<(Seq<char>, Seq<char>)>, inc: Seq<(Seq<char>, Seq<char>)>, overwrite: bool, x: Seq<char>)
    ensures
        has_key(merge_globals(own, inc, overwrite).0, x) ==> has_key(own, x) || has_key(inc, x),
    decreases inc.len(),
{
    if inc.len() > 0 {
        let inc0 = inc.drop_last();
        lemma_merge_globals_names(own, inc0, overwrite, x);
        let a = merge_globals(own, inc0, overwrite).0;
        let (k, v) = inc.last();
        lemma_insert_entry(a, k, v);
        if has_key(merge_globals(own, inc, overwrite).0, x) && x != k {
            assert(has_key(a, x));
            if has_key(inc0, x) {
                let j = crate::ordered_map::key_index(inc0, x)->0;
                assert(inc[j] == inc0[j]);
            }
        }
        if x == k {
            assert(inc[inc.len() - 1].0 == x);
        }
    }
}

} // verus!
