//! What the command-line commands compute: the lines of each listing, the
//! search over sites, and the changes they make to the registry and to a
//! repository's variables. Reading and writing the files, and printing, is
//! left to the caller.

use crate::format::{decimal, decimal_string, is_maskable, mask, maskable, masked, pad, push_padded, push_repeat, push_str, repeat};
use crate::ordered_map::{
    has_key, insert_entry, key_index, keys_of, lemma_insert_entry, lemma_key_index, lookup, remove_entry, str_entries,
    string_map_get, string_map_get_index, string_map_insert, string_map_len, string_map_shift_remove,
};
use crate::registry::{rs_map_get, rs_map_get_index, rs_map_len, rs_map_shift_remove, Registry, RegistryView};
use crate::text::{
    chars_of, contains_chars, contains_seq, find_char, first_index, lemma_first_index, same_text,
    string_of, trim, trim_chars, trim_matches, trim_matches_chars,
};
use indexmap::IndexMap;
use vstd::prelude::*;

verus! {

broadcast use lemma_key_index, lemma_first_index;

/// The characters of each line.
pub open spec fn views(lines: Seq<String>) -> Seq<Seq<char>> {
    lines.map_values(|s: String| s@)
}

/// `n` box-drawing horizontal lines: the rule under a table's header.
pub open spec fn rule(n: nat) -> Seq<char> {
    repeat('\u{2500}', n)
}

/// A line of the site table: name, IP address and number of repositories.
pub open spec fn rs_row(name: Seq<char>, ip: Seq<char>, count: Seq<char>) -> Seq<char> {
    pad(name, 30) + seq![' '] + pad(ip, 20) + seq![' '] + count
}

/// The header, the rule and one row per site, for the given sites.
pub open spec fn rs_table(rows: Seq<(Seq<char>, (Seq<char>, Seq<(Seq<char>, Seq<char>)>))>) -> Seq<Seq<char>> {
    seq![rs_row("NAME"@, "IP"@, "REPOS"@), rule(60)] + rows.map_values(
        |p: (Seq<char>, (Seq<char>, Seq<(Seq<char>, Seq<char>)>))| rs_row(p.0, p.1.0, decimal(p.1.1.len())),
    )
}

/// What `rs list` prints.
pub open spec fn rs_list_lines(v: RegistryView) -> Seq<Seq<char>> {
    if v.rs.len() == 0 {
        seq!["no RS registered \u{2014} use `envctl rs add <name> --ip <ip>`"@]
    } else {
        rs_table(v.rs)
    }
}

/// Builds a row of the site table.
fn rs_row_line(name: &str, ip: &str, count: usize) -> (s: String)
    ensures
        s@ == rs_row(name@, ip@, decimal(count as nat)),
{
    let mut s = String::new();
    push_padded(&mut s, name, 30);
    push_str(&mut s, " ");
    push_padded(&mut s, ip, 20);
    push_str(&mut s, " ");
    let c = decimal_string(count);
    push_str(&mut s, c.as_str());
    proof {
        reveal_strlit(" ");
        assert(s@ =~= rs_row(name@, ip@, decimal(count as nat)));
    }
    s
}

/// The header and rule of the site table.
fn rs_table_head() -> (v: Vec<String>)
    ensures
        views(v@) == seq![rs_row("NAME"@, "IP"@, "REPOS"@), rule(60)],
{
    let mut h = String::new();
    push_padded(&mut h, "NAME", 30);
    push_str(&mut h, " ");
    push_padded(&mut h, "IP", 20);
    push_str(&mut h, " ");
    push_str(&mut h, "REPOS");
    let mut r = String::new();
    push_repeat(&mut r, '\u{2500}', 60);
    proof {
        reveal_strlit(" ");
        assert(h@ =~= rs_row("NAME"@, "IP"@, "REPOS"@));
        assert(r@ =~= rule(60));
    }
    let v = vec![h, r];
    assert(views(v@) =~= seq![rs_row("NAME"@, "IP"@, "REPOS"@), rule(60)]);
    v
}

/// What `rs list` prints: a table of the sites, or a hint when there are none.
pub fn cmd_rs_list(reg: &Registry) -> (lines: Vec<String>)
    ensures
        views(lines@) == rs_list_lines(reg@),
{
    let n = rs_map_len(&reg.rs);
    if n == 0 {
        let m = "no RS registered \u{2014} use `envctl rs add <name> --ip <ip>`".to_owned();
        let v = vec![m];
        assert(v@[0]@ == "no RS registered \u{2014} use `envctl rs add <name> --ip <ip>`"@);
        assert(views(v@) =~= rs_list_lines(reg@));
        return v;
    }
    let mut lines = rs_table_head();
    let ghost s = reg@.rs;
    let mut i: usize = 0;
    while i < n
        invariant
            i <= n,
            n == s.len(),
            s == reg@.rs,
            views(lines@) == rs_table(s.take(i as int)),
        decreases n - i,
    {
        let (name, entry) = rs_map_get_index(&reg.rs, i).unwrap();
        let count = string_map_len(&entry.repos);
        let row = rs_row_line(name.as_str(), entry.ip.as_str(), count);
        let ghost prev = lines@;
        lines.push(row);
        proof {
            assert(views(lines@) =~= views(prev).push(row@));
            assert(s.take(i + 1) =~= s.take(i as int).push(s[i as int]));
            assert(rs_table(s.take(i + 1)) =~= rs_table(s.take(i as int)).push(
                rs_row(s[i as int].0, s[i as int].1.0, decimal(s[i as int].1.1.len())),
            ));
        }
        i = i + 1;
    }
    assert(s.take(n as int) =~= s);
    lines
}

/// What `list rs` prints: the same as `rs list`.
pub fn cmd_list_rs(reg: &Registry) -> (lines: Vec<String>)
    ensures
        views(lines@) == rs_list_lines(reg@),
{
    cmd_rs_list(reg)
}


/// The lowercase form of a text, as `str::to_lowercase` gives it.
pub uninterp spec fn lowercase(s: Seq<char>) -> Seq<char>;

/// `str::to_lowercase`; the empty text stays empty.
#[verifier::external_body]
pub(crate) fn lowercase_text(s: &str) -> (r: String)
    ensures
        r@ == lowercase(s@),
        s@.len() == 0 ==> r@.len() == 0,
{
    s.to_lowercase()
}

/// Whether a site matches a search: the lowercase query occurs in the lowercase
/// name or the lowercase IP address.
pub open spec fn site_matches(query: Seq<char>, name: Seq<char>, ip: Seq<char>) -> bool {
    contains_seq(lowercase(name), lowercase(query)) || contains_seq(lowercase(ip), lowercase(query))
}

/// The sites that match a search, in order.
pub open spec fn matching_sites(s: Seq<(Seq<char>, (Seq<char>, Seq<(Seq<char>, Seq<char>)>))>, query: Seq<char>) -> Seq<(Seq<char>, (Seq<char>, Seq<(Seq<char>, Seq<char>)>))>
    decreases s.len(),
{
    if s.len() == 0 {
        s
    } else {
        let pre = matching_sites(s.drop_last(), query);
        if site_matches(query, s.last().0, s.last().1.0) {
            pre.push(s.last())
        } else {
            pre
        }
    }
}

/// What `rs search` prints.
pub open spec fn rs_search_lines(v: RegistryView, query: Seq<char>) -> Seq<Seq<char>> {
    let m = matching_sites(v.rs, query);
    if m.len() == 0 {
        seq!["no RS matching: "@ + query]
    } else {
        rs_table(m)
    }
}

/// Whether a site matches a search, case-insensitively, by name or IP address.
pub fn rs_matches(query: &str, name: &str, ip: &str) -> (b: bool)
    ensures
        b == site_matches(query@, name@, ip@),
{
    let q = chars_of(lowercase_text(query).as_str());
    let n = chars_of(lowercase_text(name).as_str());
    if contains_chars(n.as_slice(), q.as_slice()) {
        return true;
    }
    let i = chars_of(lowercase_text(ip).as_str());
    contains_chars(i.as_slice(), q.as_slice())
}

/// What `rs search` prints: a table of the sites whose name or IP address
/// contains the query, ignoring case, or a note that none does.
pub fn cmd_rs_search(reg: &Registry, query: &str) -> (lines: Vec<String>)
    ensures
        views(lines@) == rs_search_lines(reg@, query@),
{
    let n = rs_map_len(&reg.rs);
    let ghost s = reg@.rs;
    let mut lines = rs_table_head();
    let mut found: usize = 0;
    let mut i: usize = 0;
    assert(s.take(0) =~= Seq::<(Seq<char>, (Seq<char>, Seq<(Seq<char>, Seq<char>)>))>::empty());
    while i < n
        invariant
            i <= n,
            n == s.len(),
            s == reg@.rs,
            found == matching_sites(s.take(i as int), query@).len(),
            found <= i,
            views(lines@) == rs_table(matching_sites(s.take(i as int), query@)),
        decreases n - i,
    {
        let (name, entry) = rs_map_get_index(&reg.rs, i).unwrap();
        proof {
            assert(s.take(i + 1).drop_last() =~= s.take(i as int));
            assert(s.take(i + 1).last() == s[i as int]);
        }
        if rs_matches(query, name.as_str(), entry.ip.as_str()) {
            let count = string_map_len(&entry.repos);
            let row = rs_row_line(name.as_str(), entry.ip.as_str(), count);
            let ghost prev = lines@;
            lines.push(row);
            found = found + 1;
            proof {
                let m = matching_sites(s.take(i as int), query@);
                assert(views(lines@) =~= views(prev).push(row@));
                assert(rs_table(m.push(s[i as int])) =~= rs_table(m).push(
                    rs_row(s[i as int].0, s[i as int].1.0, decimal(s[i as int].1.1.len())),
                ));
            }
        }
        i = i + 1;
    }
    assert(s.take(n as int) =~= s);
    if found == 0 {
        let mut m = String::new();
        push_str(&mut m, "no RS matching: ");
        push_str(&mut m, query);
        let v = vec![m];
        assert(views(v@) =~= rs_search_lines(reg@, query@));
        return v;
    }
    lines
}

/// A line of the repository listing: site, repository and path.
pub open spec fn repo_row(rs: Seq<char>, repo: Seq<char>, path: Seq<char>) -> Seq<char> {
    pad(rs, 20) + seq![' '] + pad(repo, 30) + seq![' '] + path
}

/// The rows for one site's repositories.
pub open spec fn site_repo_rows(rs: Seq<char>, repos: Seq<(Seq<char>, Seq<char>)>) -> Seq<Seq<char>> {
    repos.map_values(|p: (Seq<char>, Seq<char>)| repo_row(rs, p.0, p.1))
}

/// The rows for the sites' repositories, skipping sites other than the filter's.
pub open spec fn repo_rows(s: Seq<(Seq<char>, (Seq<char>, Seq<(Seq<char>, Seq<char>)>))>, filter: Option<Seq<char>>) -> Seq<Seq<char>>
    decreases s.len(),
{
    if s.len() == 0 {
        Seq::empty()
    } else {
        let pre = repo_rows(s.drop_last(), filter);
        match filter {
            Some(f) if f != s.last().0 => pre,
            _ => pre + site_repo_rows(s.last().0, s.last().1.1),
        }
    }
}

/// The rows of the repositories of the site named `f`, none when there is no such site.
pub open spec fn one_site_rows(s: Seq<(Seq<char>, (Seq<char>, Seq<(Seq<char>, Seq<char>)>))>, f: Seq<char>) -> Seq<Seq<char>> {
    match lookup(s, f) {
        Some(e) => site_repo_rows(f, e.1),
        None => Seq::empty(),
    }
}

/// With a site filter, the repository rows are exactly the rows of the site of
/// that name (none when there is no such site); the sites' names do not repeat.
pub proof fn lemma_repo_rows_one_site(s: Seq<(Seq<char>, (Seq<char>, Seq<(Seq<char>, Seq<char>)>))>, f: Seq<char>)
    requires
        crate::ordered_map::distinct_keys(s),
    ensures
        repo_rows(s, Some(f)) == one_site_rows(s, f),
    decreases s.len(),
{
    if s.len() > 0 {
        let s0 = s.drop_last();
        assert(crate::ordered_map::distinct_keys(s0));
        lemma_repo_rows_one_site(s0, f);
        crate::ordered_map::lemma_key_index(s, f);
        crate::ordered_map::lemma_key_index(s0, f);
        if s.last().0 == f {
            assert forall|j: int| 0 <= j < s0.len() implies s0[j].0 != f by {
                assert(s0[j] == s[j]);
                assert(s[j].0 != s[s.len() - 1].0);
            }
            assert(lookup(s0, f) is None);
            assert(key_index(s, f) == Some(s.len() - 1)) by {
                let k = key_index(s, f)->0;
                if k < s.len() - 1 {
                    assert(s[k] == s0[k]);
                }
            }
            assert(Seq::<Seq<char>>::empty() + site_repo_rows(f, s.last().1.1) =~= site_repo_rows(f, s.last().1.1));
        } else {
            match key_index(s0, f) {
                Some(k) => {
                    assert(s[k] == s0[k]);
                    assert(key_index(s, f) == Some(k)) by {
                        let k2 = key_index(s, f)->0;
                        if k2 < k {
                            assert(s[k2] == s0[k2]);
                        }
                        if k2 > k {
                            assert(s[k].0 == f);
                        }
                    }
                },
                None => {
                    assert(key_index(s, f) is None) by {
                        if key_index(s, f) is Some {
                            let k2 = key_index(s, f)->0;
                            if k2 < s0.len() {
                                assert(s[k2] == s0[k2]);
                            }
                        }
                    }
                },
            }
        }
    }
}

/// What `list repos` prints.
pub open spec fn list_repos_lines(v: RegistryView, filter: Option<Seq<char>>) -> Seq<Seq<char>> {
    if v.rs.len() == 0 {
        seq!["no RS registered"@]
    } else {
        seq![repo_row("RS"@, "REPO"@, "PATH"@), rule(80)] + repo_rows(v.rs, filter)
    }
}

/// Builds a row of the repository listing.
fn repo_row_line(rs: &str, repo: &str, path: &str) -> (s: String)
    ensures
        s@ == repo_row(rs@, repo@, path@),
{
    let mut s = String::new();
    push_padded(&mut s, rs, 20);
    push_str(&mut s, " ");
    push_padded(&mut s, repo, 30);
    push_str(&mut s, " ");
    push_str(&mut s, path);
    proof {
        reveal_strlit(" ");
        assert(s@ =~= repo_row(rs@, repo@, path@));
    }
    s
}

/// What `list repos` prints: every site's own repositories, or only those of
/// the site given, or a note that there are no sites.
pub fn cmd_list_repos(reg: &Registry, rs_filter: Option<&str>) -> (lines: Vec<String>)
    ensures
        views(lines@) == list_repos_lines(reg@, match rs_filter {
            Some(f) => Some(f@),
            None => None,
        }),
        crate::ordered_map::distinct_keys(reg@.rs),
        (match rs_filter {
            Some(f) => reg@.rs.len() > 0 ==> views(lines@) == seq![repo_row("RS"@, "REPO"@, "PATH"@), rule(80)]
                + one_site_rows(reg@.rs, f@),
            None => true,
        }),
{
    let ghost filter = match rs_filter {
        Some(f) => Some(f@),
        None => None,
    };
    let n = rs_map_len(&reg.rs);
    if n == 0 {
        let v = vec!["no RS registered".to_owned()];
        assert(views(v@) =~= list_repos_lines(reg@, filter));
        return v;
    }
    let head = repo_row_line("RS", "REPO", "PATH");
    let mut r = String::new();
    push_repeat(&mut r, '\u{2500}', 80);
    let mut lines = vec![head, r];
    let ghost s = reg@.rs;
    assert(views(lines@) =~= seq![repo_row("RS"@, "REPO"@, "PATH"@), rule(80)] + repo_rows(s.take(0), filter));
    let mut i: usize = 0;
    while i < n
        invariant
            i <= n,
            n == s.len(),
            s == reg@.rs,
            filter == match rs_filter {
                Some(f) => Some(f@),
                None => None::<Seq<char>>,
            },
            views(lines@) == seq![repo_row("RS"@, "REPO"@, "PATH"@), rule(80)] + repo_rows(s.take(i as int), filter),
            forall|a: int, b: int| 0 <= a < i && 0 <= b < n && b != a ==> #[trigger] s[b].0 != #[trigger] s[a].0,
        decreases n - i,
    {
        let (name, entry) = rs_map_get_index(&reg.rs, i).unwrap();
        proof {
            assert(s.take(i + 1).drop_last() =~= s.take(i as int));
            assert(s.take(i + 1).last() == s[i as int]);
        }
        let skip = match rs_filter {
            Some(f) => !same_text(name.as_str(), f),
            None => false,
        };
        if !skip {
            let m = string_map_len(&entry.repos);
            let ghost er = str_entries(entry.repos);
            let ghost base = lines@;
            let mut j: usize = 0;
            assert(views(base) + site_repo_rows(s[i as int].0, er.take(0)) =~= views(base));
            while j < m
                invariant
                    j <= m,
                    m == er.len(),
                    er == str_entries(entry.repos),
                    name@ == s[i as int].0,
                    views(lines@) == views(base) + site_repo_rows(s[i as int].0, er.take(j as int)),
                decreases m - j,
            {
                let (rn, rp) = string_map_get_index(&entry.repos, j).unwrap();
                let row = repo_row_line(name.as_str(), rn.as_str(), rp.as_str());
                let ghost prev = lines@;
                lines.push(row);
                proof {
                    assert(views(lines@) =~= views(prev).push(row@));
                    assert(er.take(j + 1) =~= er.take(j as int).push(er[j as int]));
                    assert(site_repo_rows(s[i as int].0, er.take(j + 1)) =~= site_repo_rows(s[i as int].0, er.take(j as int)).push(row@));
                }
                j = j + 1;
            }
            assert(er.take(m as int) =~= er);
        }
        i = i + 1;
    }
    assert(s.take(n as int) =~= s);
    proof {
        assert forall|a: int, b: int| 0 <= a < b < s.len() implies s[a].0 != s[b].0 by {
            assert(s[b].0 != s[a].0);
        }
        if let Some(f) = rs_filter {
            lemma_repo_rows_one_site(s, f@);
        }
    }
    lines
}


/// A line of the global repository listing: name and path.
pub open spec fn global_row(name: Seq<char>, path: Seq<char>) -> Seq<char> {
    pad(name, 30) + seq![' '] + path
}

/// What `repo list` prints.
pub open spec fn repo_list_lines(v: RegistryView) -> Seq<Seq<char>> {
    if v.repos.len() == 0 {
        seq!["no global repos \u{2014} use `envctl repo add <name> --path <path>`"@]
    } else {
        seq![global_row("NAME"@, "PATH"@), rule(70)] + v.repos.map_values(|p: (Seq<char>, Seq<char>)| global_row(p.0, p.1))
    }
}

/// Builds a line of two columns, the first `w` characters wide.
fn two_columns(a: &str, w: usize, b: &str) -> (s: String)
    ensures
        s@ == pad(a@, w as nat) + seq![' '] + b@,
{
    let mut s = String::new();
    push_padded(&mut s, a, w);
    push_str(&mut s, " ");
    push_str(&mut s, b);
    proof {
        reveal_strlit(" ");
        assert(s@ =~= pad(a@, w as nat) + seq![' '] + b@);
    }
    s
}

/// What `repo list` prints: the global repositories with their paths, or a hint
/// when there are none.
pub fn cmd_repo_list(reg: &Registry) -> (lines: Vec<String>)
    ensures
        views(lines@) == repo_list_lines(reg@),
{
    let n = string_map_len(&reg.repos);
    if n == 0 {
        let m = "no global repos \u{2014} use `envctl repo add <name> --path <path>`".to_owned();
        let v = vec![m];
        assert(v@[0]@ == "no global repos \u{2014} use `envctl repo add <name> --path <path>`"@);
        assert(views(v@) =~= repo_list_lines(reg@));
        return v;
    }
    let head = two_columns("NAME", 30, "PATH");
    let mut r = String::new();
    push_repeat(&mut r, '\u{2500}', 70);
    let mut lines = vec![head, r];
    let ghost s = reg@.repos;
    let ghost f = |p: (Seq<char>, Seq<char>)| global_row(p.0, p.1);
    assert(views(lines@) =~= seq![global_row("NAME"@, "PATH"@), rule(70)] + s.take(0).map_values(f));
    let mut i: usize = 0;
    while i < n
        invariant
            i <= n,
            n == s.len(),
            s == reg@.repos,
            f == (|p: (Seq<char>, Seq<char>)| global_row(p.0, p.1)),
            views(lines@) == seq![global_row("NAME"@, "PATH"@), rule(70)] + s.take(i as int).map_values(f),
        decreases n - i,
    {
        let (name, path) = string_map_get_index(&reg.repos, i).unwrap();
        let row = two_columns(name.as_str(), 30, path.as_str());
        let ghost prev = lines@;
        lines.push(row);
        proof {
            assert(views(lines@) =~= views(prev).push(row@));
            assert(s.take(i + 1).map_values(f) =~= s.take(i as int).map_values(f).push(f(s[i as int])));
        }
        i = i + 1;
    }
    assert(s.take(n as int) =~= s);
    lines
}

/// A value as listed: as it stands when revealed, masked otherwise.
pub open spec fn shown(v: Seq<char>, reveal: bool) -> Seq<char> {
    if reveal {
        v
    } else {
        masked(v)
    }
}

/// What `list vars` prints.
pub open spec fn list_vars_lines(vars: Seq<(Seq<char>, Seq<char>)>, rs: Seq<char>, repo: Seq<char>, reveal: bool) -> Seq<Seq<char>> {
    if vars.len() == 0 {
        seq!["no vars for "@ + rs + "/"@ + repo]
    } else {
        seq![pad("KEY"@, 40) + seq![' '] + "VALUE"@, rule(70)] + vars.map_values(
            |p: (Seq<char>, Seq<char>)| pad(p.0, 40) + seq![' '] + shown(p.1, reveal),
        )
    }
}

/// Whether every value can be listed: revealed, or masked without splitting a character.
pub open spec fn listable(vars: Seq<(Seq<char>, Seq<char>)>, reveal: bool) -> bool {
    ||| reveal
    ||| forall|i: int| 0 <= i < vars.len() ==> maskable(#[trigger] vars[i].1)
}

/// What `list vars` prints: each variable with its value revealed or masked, or
/// a note that the repository has none.
pub fn cmd_list_vars(vars: &IndexMap<String, String>, rs: &str, repo: &str, reveal: bool) -> (lines: Vec<String>)
    requires
        listable(str_entries(*vars), reveal),
    ensures
        views(lines@) == list_vars_lines(str_entries(*vars), rs@, repo@, reveal),
{
    let n = string_map_len(vars);
    let ghost s = str_entries(*vars);
    if n == 0 {
        let mut m = String::new();
        push_str(&mut m, "no vars for ");
        push_str(&mut m, rs);
        push_str(&mut m, "/");
        push_str(&mut m, repo);
        let v = vec![m];
        assert(views(v@) =~= list_vars_lines(s, rs@, repo@, reveal));
        return v;
    }
    let head = two_columns("KEY", 40, "VALUE");
    let mut r = String::new();
    push_repeat(&mut r, '\u{2500}', 70);
    let mut lines = vec![head, r];
    let ghost f = |p: (Seq<char>, Seq<char>)| pad(p.0, 40) + seq![' '] + shown(p.1, reveal);
    assert(views(lines@) =~= seq![pad("KEY"@, 40) + seq![' '] + "VALUE"@, rule(70)] + s.take(0).map_values(f));
    let mut i: usize = 0;
    while i < n
        invariant
            i <= n,
            n == s.len(),
            s == str_entries(*vars),
            listable(s, reveal),
            f == (|p: (Seq<char>, Seq<char>)| pad(p.0, 40) + seq![' '] + shown(p.1, reveal)),
            views(lines@) == seq![pad("KEY"@, 40) + seq![' '] + "VALUE"@, rule(70)] + s.take(i as int).map_values(f),
        decreases n - i,
    {
        let (k, v) = string_map_get_index(vars, i).unwrap();
        let display = if reveal { v.clone() } else { mask(v.as_str()) };
        let row = two_columns(k.as_str(), 40, display.as_str());
        let ghost prev = lines@;
        lines.push(row);
        proof {
            assert(views(lines@) =~= views(prev).push(row@));
            assert(s.take(i + 1).map_values(f) =~= s.take(i as int).map_values(f).push(f(s[i as int])));
        }
        i = i + 1;
    }
    assert(s.take(n as int) =~= s);
    lines
}


/// Whether every value can be listed.
pub fn vars_listable(vars: &IndexMap<String, String>, reveal: bool) -> (b: bool)
    ensures
        b == listable(str_entries(*vars), reveal),
{
    if reveal {
        return true;
    }
    let n = string_map_len(vars);
    let mut i: usize = 0;
    while i < n
        invariant
            i <= n,
            n == str_entries(*vars).len(),
            !reveal,
            forall|j: int| 0 <= j < i ==> maskable(#[trigger] str_entries(*vars)[j].1),
        decreases n - i,
    {
        let (_, v) = string_map_get_index(vars, i).unwrap();
        if !is_maskable(v.as_str()) {
            assert(!maskable(str_entries(*vars)[i as int].1));
            return false;
        }
        i = i + 1;
    }
    true
}

/// `list vars` where it can be shown: none when a value to be masked cannot be
/// (its first two bytes end inside a character), otherwise the lines.
pub fn try_list_vars(vars: &IndexMap<String, String>, rs: &str, repo: &str, reveal: bool) -> (r: Option<Vec<String>>)
    ensures
        r is None <==> !listable(str_entries(*vars), reveal),
        r matches Some(lines) ==> views(lines@) == list_vars_lines(str_entries(*vars), rs@, repo@, reveal),
{
    if vars_listable(vars, reveal) {
        Some(cmd_list_vars(vars, rs, repo, reveal))
    } else {
        None
    }
}

/// Why a command refused to act.
pub enum CmdError {
    /// No site has this name.
    RsNotFound(String),
    /// The repository has no variable of this name.
    KeyNotFound(String),
    /// The argument is not of the form `KEY=VALUE`.
    BadPair(String),
    /// A bundle's key is not of the form `<site>/<repo>`.
    BadBundleKey(String),
}

/// The key and value that `set` reads from `KEY=VALUE`: the key trimmed of
/// white space, the value with surrounding double quotes and then single quotes
/// removed.
pub open spec fn assignment_of(pair: Seq<char>) -> Option<(Seq<char>, Seq<char>)> {
    match first_index(pair, '=') {
        Some(i) => Some((trim(pair.take(i)), trim_matches(trim_matches(pair.skip(i + 1), '"'), '\''))),
        None => None,
    }
}

/// Reads `KEY=VALUE`.
pub fn parse_assignment(pair: &str) -> (r: Option<(String, String)>)
    ensures
        r is Some <==> assignment_of(pair@) is Some,
        r matches Some(kv) ==> kv.0@ == (assignment_of(pair@)->0).0 && kv.1@ == (assignment_of(pair@)->0).1,
{
    let c = chars_of(pair);
    let n = c.len();
    match find_char(c.as_slice(), '=') {
        Some(i) => {
            let k = trim_chars(vstd::slice::slice_subrange(c.as_slice(), 0, i));
            let v0 = vstd::slice::slice_subrange(c.as_slice(), i + 1, n);
            let v1 = trim_matches_chars(v0, '"');
            let v2 = trim_matches_chars(v1.as_slice(), '\'');
            proof {
                assert(c@.subrange(0, i as int) =~= c@.take(i as int));
                assert(c@.subrange(i + 1, c@.len() as int) =~= c@.skip(i + 1));
            }
            Some((string_of(k.as_slice()), string_of(v2.as_slice())))
        },
        None => None,
    }
}

/// `set`: stores the variable given as `KEY=VALUE` and returns its key; an error
/// when there is no `=`.
pub fn cmd_set(vars: &mut IndexMap<String, String>, pair: &str) -> (r: Result<String, CmdError>)
    ensures
        r is Ok <==> assignment_of(pair@) is Some,
        r matches Ok(k) ==> k@ == (assignment_of(pair@)->0).0 && str_entries(*final(vars)) == insert_entry(
            str_entries(*old(vars)),
            (assignment_of(pair@)->0).0,
            (assignment_of(pair@)->0).1,
        ),
        r matches Err(e) ==> e matches CmdError::BadPair(p) && p@ == pair@ && *final(vars) == *old(vars),
{
    match parse_assignment(pair) {
        Some((key, value)) => {
            string_map_insert(vars, key.clone(), value);
            Ok(key)
        },
        None => Err(CmdError::BadPair(pair.to_owned())),
    }
}

/// What `set` stores, `get` finds: after `set` with `KEY=VALUE`, the key holds
/// the value, and every other variable keeps its value.
pub proof fn lemma_get_after_set(vars: Seq<(Seq<char>, Seq<char>)>, pair: Seq<char>, other: Seq<char>)
    requires
        assignment_of(pair) is Some,
    ensures
        ({
            let (k, v) = assignment_of(pair)->0;
            &&& lookup(insert_entry(vars, k, v), k) == Some(v)
            &&& other != k ==> lookup(insert_entry(vars, k, v), other) == lookup(vars, other)
        }),
{
    let (k, v) = assignment_of(pair)->0;
    lemma_insert_entry(vars, k, v);
}

/// After `delete`, `get` finds no such variable, and every other variable keeps
/// its value.
pub proof fn lemma_get_after_delete(vars: Seq<(Seq<char>, Seq<char>)>, key: Seq<char>, other: Seq<char>)
    requires
        crate::ordered_map::distinct_keys(vars),
    ensures
        !has_key(remove_entry(vars, key), key),
        other != key ==> lookup(remove_entry(vars, key), other) == lookup(vars, other),
{
    crate::ordered_map::lemma_remove_entry(vars, key);
}

/// `get`: the variable's value, revealed or masked; none when there is no such variable.
pub fn cmd_get(vars: &IndexMap<String, String>, key: &str, reveal: bool) -> (r: Option<String>)
    requires
        reveal || lookup(str_entries(*vars), key@) is None || maskable(lookup(str_entries(*vars), key@)->0),
    ensures
        r is Some <==> has_key(str_entries(*vars), key@),
        r matches Some(v) ==> v@ == shown(lookup(str_entries(*vars), key@)->0, reveal),
{
    match string_map_get(vars, key) {
        Some(v) => if reveal {
            Some(v.clone())
        } else {
            Some(mask(v.as_str()))
        },
        None => None,
    }
}

/// `get` where it can be shown: none when the value is to be masked and cannot
/// be (its first two bytes end inside a character), otherwise what `get` gives.
pub fn try_get(vars: &IndexMap<String, String>, key: &str, reveal: bool) -> (r: Option<Option<String>>)
    ensures
        r is None <==> (!reveal && lookup(str_entries(*vars), key@) is Some && !maskable(lookup(str_entries(*vars), key@)->0)),
        r matches Some(g) ==> (g is Some <==> has_key(str_entries(*vars), key@)),
        r matches Some(g) ==> (g matches Some(v) ==> v@ == shown(lookup(str_entries(*vars), key@)->0, reveal)),
{
    match string_map_get(vars, key) {
        Some(v) => if !reveal && !is_maskable(v.as_str()) {
            return None;
        },
        None => {},
    }
    Some(cmd_get(vars, key, reveal))
}

/// Adds a variable, or gives an existing one its new value in place.
pub fn add_var(vars: &mut IndexMap<String, String>, key: String, value: String)
    ensures
        str_entries(*final(vars)) == insert_entry(str_entries(*old(vars)), key@, value@),
{
    string_map_insert(vars, key, value);
}

/// `delete`: removes the variable; an error, and no change, when there is none.
pub fn cmd_delete(vars: &mut IndexMap<String, String>, key: &str) -> (r: Result<(), CmdError>)
    ensures
        r is Ok <==> has_key(str_entries(*old(vars)), key@),
        str_entries(*final(vars)) == remove_entry(str_entries(*old(vars)), key@),
        r matches Err(e) ==> e matches CmdError::KeyNotFound(k) && k@ == key@,
{
    match string_map_shift_remove(vars, key) {
        Some(_) => Ok(()),
        None => Err(CmdError::KeyNotFound(key.to_owned())),
    }
}

/// The variables after taking in others one by one, as `IndexMap::extend` does:
/// each replaces the value of an existing key in place or goes last.
pub open spec fn extended(base: Seq<(Seq<char>, Seq<char>)>, new: Seq<(Seq<char>, Seq<char>)>) -> Seq<(Seq<char>, Seq<char>)>
    decreases new.len(),
{
    if new.len() == 0 {
        base
    } else {
        let pre = extended(base, new.drop_last());
        insert_entry(pre, new.last().0, new.last().1)
    }
}

/// `import`: takes in the variables read from a file and returns how many there were.
pub fn cmd_import(vars: &mut IndexMap<String, String>, new_vars: &IndexMap<String, String>) -> (count: usize)
    ensures
        count == str_entries(*new_vars).len(),
        str_entries(*final(vars)) == extended(str_entries(*old(vars)), str_entries(*new_vars)),
        keys_of(str_entries(*final(vars))) == keys_of(str_entries(*old(vars)))
            + keys_of(str_entries(*new_vars)).filter(|k: Seq<char>| !has_key(str_entries(*old(vars)), k)),
        forall|i: int| 0 <= i < str_entries(*new_vars).len() ==>
            lookup(str_entries(*final(vars)), #[trigger] str_entries(*new_vars)[i].0) == Some(str_entries(*new_vars)[i].1),
{
    let n = string_map_len(new_vars);
    let ghost s = str_entries(*new_vars);
    let mut i: usize = 0;
    assert(s.take(0) =~= Seq::<(Seq<char>, Seq<char>)>::empty());
    while i < n
        invariant
            i <= n,
            n == s.len(),
            s == str_entries(*new_vars),
            str_entries(*vars) == extended(str_entries(*old(vars)), s.take(i as int)),
            forall|a: int, b: int| 0 <= a < i && 0 <= b < n && b != a ==> #[trigger] s[b].0 != #[trigger] s[a].0,
        decreases n - i,
    {
        let (k, v) = string_map_get_index(new_vars, i).unwrap();
        string_map_insert(vars, k.clone(), v.clone());
        proof {
            assert(s.take(i + 1).drop_last() =~= s.take(i as int));
            assert(s.take(i + 1).last() == s[i as int]);
        }
        i = i + 1;
    }
    assert(s.take(n as int) =~= s);
    proof {
        assert forall|a: int, b: int| 0 <= a < b < s.len() implies s[a].0 != s[b].0 by {
            assert(s[b].0 != s[a].0);
        }
        lemma_import_order(str_entries(*old(vars)), s);
        lemma_import_takes_new_values(str_entries(*old(vars)), s);
    }
    n
}

/// After taking in variables whose keys do not repeat, each of them has its new
/// value; every other variable keeps its value.
pub proof fn lemma_import_takes_new_values(base: Seq<(Seq<char>, Seq<char>)>, new: Seq<(Seq<char>, Seq<char>)>)
    requires
        crate::ordered_map::distinct_keys(new),
    ensures
        forall|i: int| 0 <= i < new.len() ==> lookup(extended(base, new), #[trigger] new[i].0) == Some(new[i].1),
        forall|k: Seq<char>| !has_key(new, k) ==> lookup(#[trigger] extended(base, new), k) == lookup(base, k),
    decreases new.len(),
{
    if new.len() > 0 {
        let n0 = new.drop_last();
        lemma_import_takes_new_values(base, n0);
        let pre = extended(base, n0);
        let (k, v) = new.last();
        lemma_insert_entry(pre, k, v);
        assert forall|i: int| 0 <= i < new.len() implies lookup(extended(base, new), #[trigger] new[i].0) == Some(new[i].1) by {
            if i < new.len() - 1 {
                assert(new[i] == n0[i]);
                assert(new[i].0 != k);
            }
        }
        assert forall|x: Seq<char>| !has_key(new, x) implies lookup(#[trigger] extended(base, new), x) == lookup(base, x) by {
            assert(x != new[new.len() - 1].0);
            assert(!has_key(n0, x)) by {
                if has_key(n0, x) {
                    let j = crate::ordered_map::key_index(n0, x)->0;
                    assert(new[j] == n0[j]);
                }
            }
        }
    }
}

/// Importing keeps every variable where it was and appends the new keys after
/// them, in the order the imported variables give them; the imported variables
/// do not repeat a key.
pub proof fn lemma_import_order(base: Seq<(Seq<char>, Seq<char>)>, new: Seq<(Seq<char>, Seq<char>)>)
    requires
        crate::ordered_map::distinct_keys(new),
    ensures
        keys_of(extended(base, new)) == keys_of(base) + keys_of(new).filter(|k: Seq<char>| !has_key(base, k)),
    decreases new.len(),
{
    let pred = |k: Seq<char>| !has_key(base, k);
    if new.len() == 0 {
        assert(keys_of(new) =~= Seq::<Seq<char>>::empty());
        reveal_with_fuel(Seq::filter, 1);
        assert(keys_of(base) + keys_of(new).filter(pred) =~= keys_of(base));
    } else {
        let n0 = new.drop_last();
        assert(crate::ordered_map::distinct_keys(n0));
        lemma_import_order(base, n0);
        lemma_import_takes_new_values(base, n0);
        let e0 = extended(base, n0);
        let (k, v) = new.last();
        lemma_insert_entry(e0, k, v);
        assert(!has_key(n0, k)) by {
            if has_key(n0, k) {
                let j = key_index(n0, k)->0;
                assert(new[j] == n0[j]);
                assert(new[j].0 == new[new.len() - 1].0);
            }
        }
        assert(has_key(e0, k) == has_key(base, k)) by {
            assert(lookup(e0, k) == lookup(base, k));
        }
        assert(keys_of(new).drop_last() =~= keys_of(n0));
        assert(keys_of(new).last() == k);
        reveal_with_fuel(Seq::filter, 1);
        if has_key(base, k) {
            assert(keys_of(new).filter(pred) == keys_of(n0).filter(pred));
        } else {
            assert(keys_of(new).filter(pred) == keys_of(n0).filter(pred).push(k));
            assert(keys_of(base) + keys_of(n0).filter(pred).push(k) =~= (keys_of(base) + keys_of(n0).filter(pred)).push(k));
        }
    }
}

/// `rs add`: adds the site unless one of that name exists; whether it was added.
pub fn cmd_rs_add(reg: &mut Registry, name: String, ip: String) -> (added: bool)
    ensures
        added == !has_key(old(reg)@.rs, name@),
        final(reg)@ == old(reg)@.add_rs(name@, ip@),
{
    let exists = rs_map_get(&reg.rs, name.as_str()).is_some();
    reg.add_rs(name, ip);
    !exists
}

/// `rs remove`: removes the site; an error, and no change, when there is none.
pub fn cmd_rs_remove(reg: &mut Registry, name: &str) -> (r: Result<(), CmdError>)
    ensures
        r is Ok <==> has_key(old(reg)@.rs, name@),
        final(reg)@ == (RegistryView { repos: old(reg)@.repos, rs: remove_entry(old(reg)@.rs, name@) }),
        r matches Err(e) ==> e matches CmdError::RsNotFound(n) && n@ == name@,
{
    if rs_map_shift_remove(&mut reg.rs, name) {
        Ok(())
    } else {
        Err(CmdError::RsNotFound(name.to_owned()))
    }
}

/// `repo add`: adds the global repository unless one of that name exists;
/// whether it was added.
pub fn cmd_repo_add(reg: &mut Registry, name: String, path: String) -> (added: bool)
    ensures
        added == !has_key(old(reg)@.repos, name@),
        final(reg)@ == (if added {
            RegistryView { repos: insert_entry(old(reg)@.repos, name@, path@), rs: old(reg)@.rs }
        } else {
            old(reg)@
        }),
{
    if string_map_get(&reg.repos, name.as_str()).is_some() {
        return false;
    }
    reg.add_repo(name, path);
    true
}

/// The global repositories after saving the repository form: an edited
/// repository is taken out under its old name and put back (last) under the
/// form's name; a new one is added unless its name is taken.
pub open spec fn saved_repos(repos: Seq<(Seq<char>, Seq<char>)>, editing: Option<Seq<char>>, name: Seq<char>, path: Seq<char>) -> Option<Seq<(Seq<char>, Seq<char>)>> {
    match editing {
        Some(old_name) => Some(insert_entry(remove_entry(repos, old_name), name, path)),
        None => if has_key(repos, name) { None } else { Some(insert_entry(repos, name, path)) },
    }
}

/// Saves the repository form into the global repositories; `false`, and no
/// change, when a new repository's name is already taken.
pub fn save_global_repo(reg: &mut Registry, editing: Option<&str>, name: String, path: String) -> (saved: bool)
    ensures
        saved == saved_repos(old(reg)@.repos, match editing {
            Some(e) => Some(e@),
            None => None,
        }, name@, path@) is Some,
        final(reg)@ == (match saved_repos(old(reg)@.repos, match editing {
            Some(e) => Some(e@),
            None => None,
        }, name@, path@) {
            Some(r) => RegistryView { repos: r, rs: old(reg)@.rs },
            None => old(reg)@,
        }),
{
    match editing {
        Some(old_name) => {
            reg.remove_repo(old_name);
            reg.add_repo(name, path);
            true
        },
        None => cmd_repo_add(reg, name, path),
    }
}

/// Editing a repository under another name leaves no repository under the old
/// name, and the new name holds the new path.
pub proof fn lemma_edited_repo_renamed(repos: Seq<(Seq<char>, Seq<char>)>, old_name: Seq<char>, name: Seq<char>, path: Seq<char>)
    requires
        crate::ordered_map::distinct_keys(repos),
        old_name != name,
    ensures
        ({
            let r = saved_repos(repos, Some(old_name), name, path)->0;
            &&& lookup(r, name) == Some(path)
            &&& !has_key(r, old_name)
        }),
{
    let t = remove_entry(repos, old_name);
    crate::ordered_map::lemma_remove_entry(repos, old_name);
    lemma_insert_entry(t, name, path);
}

/// Whether the site has a repository of this name of its own.
pub open spec fn site_has_repo(v: RegistryView, rs: Seq<char>, repo: Seq<char>) -> bool {
    match lookup(v.rs, rs) {
        Some(e) => has_key(e.1, repo),
        None => false,
    }
}

/// Whether the site has a repository of this name of its own.
fn site_has(reg: &Registry, rs: &str, repo: &str) -> (b: bool)
    ensures
        b == site_has_repo(reg@, rs@, repo@),
{
    match rs_map_get(&reg.rs, rs) {
        Some(e) => string_map_get(&e.repos, repo).is_some(),
        None => false,
    }
}

/// `register`: registers a repository under a site; `false`, and no change, when
/// the site already has one of that name; an error when there is no such site.
pub fn cmd_register(reg: &mut Registry, rs: &str, repo_name: String, path: String) -> (r: Result<bool, CmdError>)
    ensures
        r is Err <==> !has_key(old(reg)@.rs, rs@),
        r matches Ok(added) ==> added == !site_has_repo(old(reg)@, rs@, repo_name@) && final(reg)@ == (if added {
            old(reg)@.register_repo(rs@, repo_name@, path@)
        } else {
            old(reg)@
        }),
        r matches Err(e) ==> e matches CmdError::RsNotFound(n) && n@ == rs@ && final(reg)@ == old(reg)@,
{
    if rs_map_get(&reg.rs, rs).is_none() {
        return Err(CmdError::RsNotFound(rs.to_owned()));
    }
    if site_has(reg, rs, repo_name.as_str()) {
        return Ok(false);
    }
    reg.register_repo(rs, repo_name, path);
    Ok(true)
}

/// The registry after registering found repositories one by one, each only if
/// the site does not have one of its name yet.
pub open spec fn scan_registered(v: RegistryView, rs: Seq<char>, found: Seq<(Seq<char>, Seq<char>)>) -> RegistryView
    decreases found.len(),
{
    if found.len() == 0 {
        v
    } else {
        let pre = scan_registered(v, rs, found.drop_last());
        if site_has_repo(pre, rs, found.last().0) {
            pre
        } else {
            pre.register_repo(rs, found.last().0, found.last().1)
        }
    }
}

/// Which found repositories were registered.
pub open spec fn scan_added(v: RegistryView, rs: Seq<char>, found: Seq<(Seq<char>, Seq<char>)>) -> Seq<bool> {
    Seq::new(found.len(), |i: int| !site_has_repo(scan_registered(v, rs, found.take(i)), rs, found[i].0))
}

/// `scan`: registers the repositories found under a site, skipping names the
/// site already has; for each, whether it was registered. An error when there
/// is no such site.
pub fn cmd_scan_register(reg: &mut Registry, rs: &str, found: &Vec<(String, String)>) -> (r: Result<Vec<bool>, CmdError>)
    ensures
        r is Err <==> !has_key(old(reg)@.rs, rs@),
        r matches Ok(added) ==> added@ == scan_added(old(reg)@, rs@, found@.map_values(|p: (String, String)| (p.0@, p.1@)))
            && final(reg)@ == scan_registered(old(reg)@, rs@, found@.map_values(|p: (String, String)| (p.0@, p.1@))),
        r is Err ==> final(reg)@ == old(reg)@,
{
    if rs_map_get(&reg.rs, rs).is_none() {
        return Err(CmdError::RsNotFound(rs.to_owned()));
    }
    let ghost f = found@.map_values(|p: (String, String)| (p.0@, p.1@));
    let ghost start = reg@;
    let mut added: Vec<bool> = Vec::new();
    let mut i: usize = 0;
    assert(f.take(0) =~= Seq::<(Seq<char>, Seq<char>)>::empty());
    while i < found.len()
        invariant
            i <= found@.len(),
            f == found@.map_values(|p: (String, String)| (p.0@, p.1@)),
            start == old(reg)@,
            reg@ == scan_registered(start, rs@, f.take(i as int)),
            added@.len() == i,
            forall|j: int| 0 <= j < i ==> added@[j] == #[trigger] scan_added(start, rs@, f)[j],
        decreases found@.len() - i,
    {
        let (name, path) = &found[i];
        proof {
            assert(f.take(i + 1).drop_last() =~= f.take(i as int));
            assert(f.take(i + 1).last() == f[i as int]);
            assert(f[i as int] == (name@, path@));
        }
        if site_has(reg, rs, name.as_str()) {
            added.push(false);
        } else {
            reg.register_repo(rs, name.clone(), path.clone());
            added.push(true);
        }
        i = i + 1;
    }
    assert(f.take(found@.len() as int) =~= f);
    assert(added@ =~= scan_added(start, rs@, f));
    Ok(added)
}

/// Whether the answer to `scan`'s question agrees: `y` or `Y`, with any white
/// space around it.
pub fn scan_confirmed(answer: &str) -> (b: bool)
    ensures
        b == (trim(answer@) == seq!['y'] || trim(answer@) == seq!['Y']),
{
    let t = trim_chars(chars_of(answer).as_slice());
    let b = t.len() == 1 && (t[0] == 'y' || t[0] == 'Y');
    proof {
        if t@.len() == 1 {
            assert(t@ == seq![t@[0]]);
        }
    }
    b
}

/// The key under which a bundle keeps a repository's variables: `<site>/<repo>`.
pub open spec fn bundle_key_of(rs: Seq<char>, repo: Seq<char>) -> Seq<char> {
    rs + seq!['/'] + repo
}

/// The site and repository a bundle key names: split at its first `/`.
pub open spec fn bundle_parts(key: Seq<char>) -> Option<(Seq<char>, Seq<char>)> {
    match first_index(key, '/') {
        Some(i) => Some((key.take(i), key.skip(i + 1))),
        None => None,
    }
}

/// The bundle key for a site's repository.
pub fn bundle_key(rs: &str, repo: &str) -> (k: String)
    ensures
        k@ == bundle_key_of(rs@, repo@),
{
    let mut k = String::new();
    push_str(&mut k, rs);
    push_str(&mut k, "/");
    push_str(&mut k, repo);
    proof {
        reveal_strlit("/");
        assert(k@ =~= bundle_key_of(rs@, repo@));
    }
    k
}

/// The site and repository a bundle key names; an error when it has no `/`.
pub fn split_bundle_key(key: &str) -> (r: Result<(String, String), CmdError>)
    ensures
        r is Ok <==> bundle_parts(key@) is Some,
        r matches Ok(p) ==> p.0@ == (bundle_parts(key@)->0).0 && p.1@ == (bundle_parts(key@)->0).1,
        r matches Err(e) ==> e matches CmdError::BadBundleKey(k) && k@ == key@,
{
    let c = chars_of(key);
    let n = c.len();
    match find_char(c.as_slice(), '/') {
        Some(i) => {
            proof {
                assert(c@.subrange(0, i as int) =~= c@.take(i as int));
                assert(c@.subrange(i + 1, c@.len() as int) =~= c@.skip(i + 1));
            }
            let a = string_of(vstd::slice::slice_subrange(c.as_slice(), 0, i));
            let b = string_of(vstd::slice::slice_subrange(c.as_slice(), i + 1, n));
            Ok((a, b))
        },
        None => Err(CmdError::BadBundleKey(key.to_owned())),
    }
}

/// A bundle key gives back the site and repository it was made from, when the
/// site's name has no `/`.
pub proof fn lemma_bundle_key_round_trip(rs: Seq<char>, repo: Seq<char>)
    requires
        !rs.contains('/'),
    ensures
        bundle_parts(bundle_key_of(rs, repo)) == Some((rs, repo)),
{
    let k = bundle_key_of(rs, repo);
    lemma_first_index(k, '/');
    assert(k[rs.len() as int] == '/');
    assert forall|j: int| 0 <= j < rs.len() implies k[j] != '/' by {
        assert(k[j] == rs[j]);
    }
    assert(first_index(k, '/') == Some(rs.len() as int));
    assert(k.take(rs.len() as int) =~= rs);
    assert(k.skip(rs.len() + 1int) =~= repo);
}

} // verus!
