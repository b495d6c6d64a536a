//! The registry of sites ("RS") and repositories.
//!
//! A site has an IP address and repositories of its own; global repositories
//! are shared by every site. Each repository is registered under a name with
//! the path of its working copy.

use crate::ordered_map::{
    distinct_keys, has_key, insert_entry, key_index, keys_of, lemma_insert_entry, lemma_key_index,
    lemma_remove_entry, lookup, remove_entry, str_entries, string_map_clone, string_map_get,
    string_map_get_index, string_map_insert, string_map_len, string_map_new, string_map_shift_remove,
};
use crate::text::same_text;
use indexmap::IndexMap;
use vstd::prelude::*;

verus! {

broadcast use lemma_key_index;

/// A site's entry as plain values: its IP address and its repositories.
pub type RsEntryView = (Seq<char>, Seq<(Seq<char>, Seq<char>)>);

/// A site: its IP address and the repositories registered under it, by name, with their paths.
pub struct RsEntry {
    pub ip: String,
    pub repos: IndexMap<String, String>,
}

impl View for RsEntry {
    type V = RsEntryView;

    open spec fn view(&self) -> RsEntryView {
        (self.ip@, str_entries(self.repos))
    }
}

impl Clone for RsEntry {
    fn clone(&self) -> (c: Self)
        ensures
            c@ == self@,
    {
        RsEntry { ip: self.ip.clone(), repos: string_map_clone(&self.repos) }
    }
}

/// The sites of a map of sites, in the map's order: each name by its characters, each entry by its view.
pub uninterp spec fn rs_entries(m: IndexMap<String, RsEntry>) -> Seq<(Seq<char>, RsEntryView)>;

/// `IndexMap::new`: an empty map of sites.
#[verifier::external_body]
pub(crate) fn rs_map_new() -> (m: IndexMap<String, RsEntry>)
    ensures
        rs_entries(m) == Seq::<(Seq<char>, RsEntryView)>::empty(),
        distinct_keys(rs_entries(m)),
{
    IndexMap::new()
}

/// `IndexMap::len`: the number of sites.
#[verifier::external_body]
pub(crate) fn rs_map_len(m: &IndexMap<String, RsEntry>) -> (n: usize)
    ensures
        n == rs_entries(*m).len(),
{
    m.len()
}

/// `IndexMap::get_index`: the site at position `i`, present exactly when `i` is
/// below the length; a map holds each name once, so no other position has its name.
#[verifier::external_body]
pub(crate) fn rs_map_get_index(m: &IndexMap<String, RsEntry>, i: usize) -> (r: Option<(&String, &RsEntry)>)
    ensures
        r is Some <==> i < rs_entries(*m).len(),
        r matches Some(p) ==> p.0@ == rs_entries(*m)[i as int].0 && p.1@ == rs_entries(*m)[i as int].1,
        r matches Some(p) ==> forall|j: int| 0 <= j < rs_entries(*m).len() && j != i ==> #[trigger] rs_entries(*m)[j].0 != p.0@,
{
    m.get_index(i)
}

/// `IndexMap::get`: the site stored under the name.
#[verifier::external_body]
pub(crate) fn rs_map_get<'a>(m: &'a IndexMap<String, RsEntry>, k: &str) -> (r: Option<&'a RsEntry>)
    ensures
        r is Some <==> lookup(rs_entries(*m), k@) is Some,
        r matches Some(v) ==> v@ == lookup(rs_entries(*m), k@)->0,
{
    m.get(k)
}

/// `IndexMap::insert`: an existing name keeps its place and takes the new entry, a
/// new name goes last; whether the name was there is returned.
#[verifier::external_body]
pub(crate) fn rs_map_insert(m: &mut IndexMap<String, RsEntry>, k: String, v: RsEntry) -> (r: bool)
    ensures
        rs_entries(*final(m)) == insert_entry(rs_entries(*old(m)), k@, v@),
        distinct_keys(rs_entries(*final(m))),
        r == has_key(rs_entries(*old(m)), k@),
{
    m.insert(k, v).is_some()
}

/// `IndexMap::shift_remove`: removes the site, the later ones keep their order;
/// whether the name was there is returned.
#[verifier::external_body]
pub(crate) fn rs_map_shift_remove(m: &mut IndexMap<String, RsEntry>, k: &str) -> (r: bool)
    ensures
        rs_entries(*final(m)) == remove_entry(rs_entries(*old(m)), k@),
        distinct_keys(rs_entries(*final(m))),
        r == has_key(rs_entries(*old(m)), k@),
{
    m.shift_remove(k).is_some()
}

/// The registry as plain values.
pub struct RegistryView {
    pub repos: Seq<(Seq<char>, Seq<char>)>,
    pub rs: Seq<(Seq<char>, RsEntryView)>,
}

/// The global repositories and the sites.
pub struct Registry {
    pub repos: IndexMap<String, String>,
    pub rs: IndexMap<String, RsEntry>,
}

impl View for Registry {
    type V = RegistryView;

    open spec fn view(&self) -> RegistryView {
        RegistryView { repos: str_entries(self.repos), rs: rs_entries(self.rs) }
    }
}

impl RegistryView {
    /// No name occurs twice among the global repositories, the sites, or any
    /// site's repositories.
    pub open spec fn wf(self) -> bool {
        &&& distinct_keys(self.repos)
        &&& distinct_keys(self.rs)
        &&& forall|i: int| 0 <= i < self.rs.len() ==> distinct_keys(#[trigger] self.rs[i].1.1)
    }

    /// The path under which `repo` is found for site `rs`: a global repository
    /// first, else one of the site's own.
    pub open spec fn repo_path(self, rs: Seq<char>, repo: Seq<char>) -> Option<Seq<char>> {
        match lookup(self.repos, repo) {
            Some(p) => Some(p),
            None => match lookup(self.rs, rs) {
                Some(e) => lookup(e.1, repo),
                None => None,
            },
        }
    }

    /// The registry after `add_rs`: a new site goes last with no repositories;
    /// an existing one is left as it is.
    pub open spec fn add_rs(self, name: Seq<char>, ip: Seq<char>) -> RegistryView {
        if has_key(self.rs, name) {
            self
        } else {
            RegistryView { repos: self.repos, rs: self.rs.push((name, (ip, Seq::empty()))) }
        }
    }

    /// The registry after `register_repo`: the repository is set in the site's own list.
    pub open spec fn register_repo(self, rs: Seq<char>, name: Seq<char>, path: Seq<char>) -> RegistryView {
        match lookup(self.rs, rs) {
            Some(e) => RegistryView {
                repos: self.repos,
                rs: insert_entry(self.rs, rs, (e.0, insert_entry(e.1, name, path))),
            },
            None => self,
        }
    }

    /// Position of the first site with this IP address.
    pub open spec fn ip_index(self, ip: Seq<char>) -> Option<int> {
        if exists|i: int| 0 <= i < self.rs.len() && #[trigger] self.rs[i].1.0 == ip {
            Some(choose|i: int| 0 <= i < self.rs.len() && #[trigger] self.rs[i].1.0 == ip && forall|j: int|
                0 <= j < i ==> self.rs[j].1.0 != ip)
        } else {
            None
        }
    }
}

/// Why the registry refused a change.
pub enum RegistryError {
    /// No global repository has this name.
    RepoNotFound(String),
}

impl Registry {
    /// An empty registry.
    pub fn new() -> (r: Registry)
        ensures
            r@.repos == Seq::<(Seq<char>, Seq<char>)>::empty(),
            r@.rs == Seq::<(Seq<char>, RsEntryView)>::empty(),
    {
        Registry { repos: string_map_new(), rs: rs_map_new() }
    }

    /// Adds a site with this IP address and no repositories, unless a site of
    /// this name is already there.
    pub fn add_rs(&mut self, name: String, ip: String)
        ensures
            final(self)@ == old(self)@.add_rs(name@, ip@),
    {
        if rs_map_get(&self.rs, name.as_str()).is_none() {
            let entry = RsEntry { ip, repos: string_map_new() };
            let ghost e = entry@;
            rs_map_insert(&mut self.rs, name, entry);
            proof {
                assert(e == (ip@, Seq::<(Seq<char>, Seq<char>)>::empty()));
            }
        }
    }

    /// Registers a repository with its path under a site; `false`, and no change,
    /// when there is no such site.
    pub fn register_repo(&mut self, rs: &str, repo_name: String, path: String) -> (found: bool)
        ensures
            found == has_key(old(self)@.rs, rs@),
            final(self)@ == old(self)@.register_repo(rs@, repo_name@, path@),
    {
        match rs_map_get(&self.rs, rs) {
            Some(entry) => {
                let mut updated = entry.clone();
                string_map_insert(&mut updated.repos, repo_name, path);
                let key = rs.to_owned();
                rs_map_insert(&mut self.rs, key, updated);
                true
            },
            None => false,
        }
    }

    /// The path of a repository for a site: a global repository of that name
    /// takes priority over one of the site's own.
    pub fn get_repo_path(&self, rs: &str, repo: &str) -> (r: Option<String>)
        ensures
            r is Some <==> self@.repo_path(rs@, repo@) is Some,
            r matches Some(p) ==> p@ == self@.repo_path(rs@, repo@)->0,
    {
        match string_map_get(&self.repos, repo) {
            Some(p) => Some(p.clone()),
            None => match rs_map_get(&self.rs, rs) {
                Some(entry) => match string_map_get(&entry.repos, repo) {
                    Some(p) => Some(p.clone()),
                    None => None,
                },
                None => None,
            },
        }
    }

    /// Adds or replaces a global repository.
    pub fn add_repo(&mut self, name: String, path: String)
        ensures
            final(self)@ == (RegistryView { repos: insert_entry(old(self)@.repos, name@, path@), rs: old(self)@.rs }),
    {
        string_map_insert(&mut self.repos, name, path);
    }

    /// Removes a global repository; whether it was there.
    pub fn remove_repo(&mut self, name: &str) -> (removed: bool)
        ensures
            removed == has_key(old(self)@.repos, name@),
            final(self)@ == (RegistryView { repos: remove_entry(old(self)@.repos, name@), rs: old(self)@.rs }),
    {
        string_map_shift_remove(&mut self.repos, name).is_some()
    }

    /// Changes the path of a global repository; an error, and no change, when
    /// there is none of that name.
    pub fn update_repo(&mut self, name: &str, path: String) -> (r: Result<(), RegistryError>)
        ensures
            r is Ok <==> has_key(old(self)@.repos, name@),
            r is Ok ==> final(self)@ == (RegistryView { repos: insert_entry(old(self)@.repos, name@, path@), rs: old(self)@.rs }),
            r matches Err(RegistryError::RepoNotFound(n)) ==> n@ == name@ && final(self)@ == old(self)@,
    {
        if string_map_get(&self.repos, name).is_none() {
            return Err(RegistryError::RepoNotFound(name.to_owned()));
        }
        string_map_insert(&mut self.repos, name.to_owned(), path);
        Ok(())
    }

    /// The name of the first site with this IP address.
    pub fn find_by_ip(&self, ip: &str) -> (r: Option<&str>)
        ensures
            r is Some <==> self@.ip_index(ip@) is Some,
            r matches Some(n) ==> n@ == self@.rs[self@.ip_index(ip@)->0].0,
    {
        let n = rs_map_len(&self.rs);
        let mut i: usize = 0;
        while i < n
            invariant
                i <= n,
                n == self@.rs.len(),
                forall|j: int| 0 <= j < i ==> self@.rs[j].1.0 != ip@,
            decreases n - i,
        {
            let (name, entry) = rs_map_get_index(&self.rs, i).unwrap();
            if same_text(entry.ip.as_str(), ip) {
                proof {
                    let v = self@;
                    assert(v.rs[i as int].1.0 == ip@);
                    let k = v.ip_index(ip@)->0;
                    assert(0 <= k < v.rs.len() && v.rs[k].1.0 == ip@ && forall|j: int|
                        0 <= j < k ==> v.rs[j].1.0 != ip@);
                    assert(k == i);
                }
                return Some(name.as_str());
            }
            i = i + 1;
        }
        None
    }
}


/// Every site's own repositories, site by site in order: the site's name, the
/// repository's name and its path.
pub open spec fn site_repo_triples(rs: Seq<(Seq<char>, RsEntryView)>) -> Seq<(Seq<char>, Seq<char>, Seq<char>)>
    decreases rs.len(),
{
    if rs.len() == 0 {
        Seq::empty()
    } else {
        let (name, e) = rs.last();
        site_repo_triples(rs.drop_last()) + e.1.map_values(|p: (Seq<char>, Seq<char>)| (name, p.0, p.1))
    }
}

/// The triples as plain values.
pub open spec fn triple_views(v: Seq<(String, String, String)>) -> Seq<(Seq<char>, Seq<char>, Seq<char>)> {
    v.map_values(|t: (String, String, String)| (t.0@, t.1@, t.2@))
}

/// Every site's own repositories with their sites and paths, in order.
pub fn site_repos(reg: &Registry) -> (r: Vec<(String, String, String)>)
    ensures
        triple_views(r@) == site_repo_triples(reg@.rs),
{
    let ghost s = reg@.rs;
    let n = rs_map_len(&reg.rs);
    let mut out: Vec<(String, String, String)> = Vec::new();
    let mut i: usize = 0;
    assert(triple_views(out@) =~= site_repo_triples(s.take(0)));
    while i < n
        invariant
            i <= n,
            n == s.len(),
            s == reg@.rs,
            triple_views(out@) == site_repo_triples(s.take(i as int)),
        decreases n - i,
    {
        let (name, entry) = rs_map_get_index(&reg.rs, i).unwrap();
        let m = string_map_len(&entry.repos);
        let ghost er = str_entries(entry.repos);
        let ghost base = triple_views(out@);
        let ghost f = |p: (Seq<char>, Seq<char>)| (name@, p.0, p.1);
        let mut j: usize = 0;
        assert(er.take(0).map_values(f) =~= Seq::<(Seq<char>, Seq<char>, Seq<char>)>::empty());
        assert(base + er.take(0).map_values(f) =~= base);
        while j < m
            invariant
                j <= m,
                m == er.len(),
                er == str_entries(entry.repos),
                f == (|p: (Seq<char>, Seq<char>)| (name@, p.0, p.1)),
                triple_views(out@) == base + er.take(j as int).map_values(f),
            decreases m - j,
        {
            let (rn, rp) = string_map_get_index(&entry.repos, j).unwrap();
            let ghost prev = triple_views(out@);
            out.push((name.clone(), rn.clone(), rp.clone()));
            proof {
                assert(triple_views(out@) =~= prev.push((name@, rn@, rp@)));
                assert(er.take(j + 1) =~= er.take(j as int).push(er[j as int]));
                assert(er.take(j + 1).map_values(f) =~= er.take(j as int).map_values(f).push(f(er[j as int])));
            }
            j = j + 1;
        }
        proof {
            assert(er.take(m as int) =~= er);
            assert(s.take(i + 1).drop_last() =~= s.take(i as int));
            assert(s.take(i + 1).last() == s[i as int]);
            assert(s[i as int].0 == name@);
            assert(s[i as int].1.1 == er);
        }
        i = i + 1;
    }
    assert(s.take(n as int) =~= s);
    out
}

/// The sites' names, in the registry's order.
pub fn site_names(reg: &Registry) -> (r: Vec<String>)
    ensures
        r@.map_values(|s: String| s@) == keys_of(reg@.rs),
{
    let n = rs_map_len(&reg.rs);
    let mut out: Vec<String> = Vec::new();
    let mut i: usize = 0;
    while i < n
        invariant
            i <= n,
            n == reg@.rs.len(),
            out@.map_values(|s: String| s@) == keys_of(reg@.rs).take(i as int),
        decreases n - i,
    {
        let (name, _) = rs_map_get_index(&reg.rs, i).unwrap();
        let ghost prev = out@;
        out.push(name.clone());
        proof {
            assert(out@.map_values(|s: String| s@) =~= prev.map_values(|s: String| s@).push(name@));
            assert(keys_of(reg@.rs).take(i + 1) =~= keys_of(reg@.rs).take(i as int).push(keys_of(reg@.rs)[i as int]));
        }
        i = i + 1;
    }
    assert(keys_of(reg@.rs).take(n as int) =~= keys_of(reg@.rs));
    out
}

/// Every change the registry offers keeps names unique: among global
/// repositories, among sites, and within each site's repositories.
pub proof fn lemma_changes_keep_wf(v: RegistryView, a: Seq<char>, b: Seq<char>, c: Seq<char>)
    requires
        v.wf(),
    ensures
        v.add_rs(a, b).wf(),
        v.register_repo(a, b, c).wf(),
        (RegistryView { repos: insert_entry(v.repos, a, b), rs: v.rs }).wf(),
        (RegistryView { repos: remove_entry(v.repos, a), rs: v.rs }).wf(),
{
    lemma_insert_entry(v.repos, a, b);
    lemma_remove_entry(v.repos, a);
    // add_rs
    if !has_key(v.rs, a) {
        let e: RsEntryView = (b, Seq::empty());
        lemma_insert_entry(v.rs, a, e);
        assert(insert_entry(v.rs, a, e) == v.rs.push((a, e)));
        let w = v.add_rs(a, b);
        assert forall|i: int| 0 <= i < w.rs.len() implies distinct_keys(#[trigger] w.rs[i].1.1) by {
            if i < v.rs.len() {
                assert(w.rs[i] == v.rs[i]);
            }
        }
    }
    // register_repo
    match lookup(v.rs, a) {
        Some(e) => {
            let i0 = key_index(v.rs, a)->0;
            let ne: RsEntryView = (e.0, insert_entry(e.1, b, c));
            lemma_insert_entry(v.rs, a, ne);
            assert(distinct_keys(v.rs[i0].1.1));
            lemma_insert_entry(e.1, b, c);
            let w = v.register_repo(a, b, c);
            assert(w.rs == v.rs.update(i0, (a, ne)));
            assert forall|i: int| 0 <= i < w.rs.len() implies distinct_keys(#[trigger] w.rs[i].1.1) by {
                if i != i0 {
                    assert(w.rs[i] == v.rs[i]);
                }
            }
        },
        None => {},
    }
}

/// A global repository is found for every site under the path it was last
/// added with, whatever the site has of its own.
pub proof fn lemma_global_repo_found(v: RegistryView, name: Seq<char>, path: Seq<char>, rs: Seq<char>)
    ensures
        (RegistryView { repos: insert_entry(v.repos, name, path), rs: v.rs }).repo_path(rs, name) == Some(path),
{
    lemma_insert_entry(v.repos, name, path);
}

/// A repository registered under an existing site is found for that site under
/// its path, unless a global repository of the same name takes priority.
pub proof fn lemma_registered_repo_found(v: RegistryView, rs: Seq<char>, name: Seq<char>, path: Seq<char>)
    requires
        has_key(v.rs, rs),
        !has_key(v.repos, name),
    ensures
        v.register_repo(rs, name, path).repo_path(rs, name) == Some(path),
{
    let e = lookup(v.rs, rs)->0;
    let ne: RsEntryView = (e.0, insert_entry(e.1, name, path));
    lemma_insert_entry(v.rs, rs, ne);
    lemma_insert_entry(e.1, name, path);
}

/// Removing a global repository from a registry with unique names leaves no
/// global repository of that name and every other one as it was.
pub proof fn lemma_removed_repo_gone(v: RegistryView, name: Seq<char>)
    requires
        v.wf(),
    ensures
        lookup(remove_entry(v.repos, name), name) is None,
        forall|other: Seq<char>| other != name ==> lookup(#[trigger] remove_entry(v.repos, name), other) == lookup(v.repos, other),
{
    lemma_remove_entry(v.repos, name);
}

/// A site added under a new name, with an IP address that no other site has,
/// is the one found by that address.
pub proof fn lemma_added_rs_found_by_ip(v: RegistryView, name: Seq<char>, ip: Seq<char>)
    requires
        !has_key(v.rs, name),
        v.ip_index(ip) is None,
    ensures
        v.add_rs(name, ip).ip_index(ip) == Some(v.rs.len() as int),
        v.add_rs(name, ip).rs[v.rs.len() as int].0 == name,
{
    let w = v.add_rs(name, ip);
    let n = v.rs.len() as int;
    assert(w.rs[n].1.0 == ip);
    assert forall|j: int| 0 <= j < n implies w.rs[j].1.0 != ip by {
        assert(w.rs[j] == v.rs[j]);
        if v.rs[j].1.0 == ip {
            assert(exists|i: int| 0 <= i < v.rs.len() && #[trigger] v.rs[i].1.0 == ip);
        }
    }
    let k = w.ip_index(ip)->0;
    assert(0 <= k < w.rs.len() && w.rs[k].1.0 == ip && forall|j: int| 0 <= j < k ==> w.rs[j].1.0 != ip);
    assert(k == n);
}

} // verus!
