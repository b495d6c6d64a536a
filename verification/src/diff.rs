//! Comparing the stored variables with the `.env` file on disk, line by line.

use crate::format::push_str;
use similar::{ChangeTag, TextDiff};
use vstd::prelude::*;

verus! {

/// What a line of a diff is.
#[derive(Clone, Copy, PartialEq, Eq, Structural, Debug)]
pub enum ChangeKind {
    /// In both texts.
    Equal,
    /// Only in the old text.
    Delete,
    /// Only in the new text.
    Insert,
}

/// The line diff that `similar::TextDiff::from_lines` computes from `old` to
/// `new`: each line with its kind, as `Change`'s `Display` writes it (with a line
/// break added where the text had none).
pub uninterp spec fn line_diff(old: Seq<char>, new: Seq<char>) -> Seq<(ChangeKind, Seq<char>)>;

/// The changes as kinds and texts.
pub open spec fn change_views(v: Seq<(ChangeKind, String)>) -> Seq<(ChangeKind, Seq<char>)> {
    v.map_values(|p: (ChangeKind, String)| (p.0, p.1@))
}

/// `TextDiff::from_lines` and `iter_all_changes`: every line of the diff with its kind.
#[verifier::external_body]
fn text_diff(old: &str, new: &str) -> (r: Vec<(ChangeKind, String)>)
    ensures
        change_views(r@) == line_diff(old@, new@),
{
    TextDiff::from_lines(old, new).iter_all_changes().map(|c| {
        let kind = match c.tag() {
            ChangeTag::Equal => ChangeKind::Equal,
            ChangeTag::Delete => ChangeKind::Delete,
            ChangeTag::Insert => ChangeKind::Insert,
        };
        (kind, c.to_string())
    }).collect()
}

/// The line diff from the text on disk to the stored text.
pub fn diff_changes(disk: &str, stored: &str) -> (r: Vec<(ChangeKind, String)>)
    ensures
        change_views(r@) == line_diff(disk@, stored@),
{
    text_diff(disk, stored)
}

/// The colour and sign printed before a line of the diff.
pub open spec fn prefix_of(k: ChangeKind) -> Seq<char> {
    match k {
        ChangeKind::Delete => "\x1b[31m-"@,
        ChangeKind::Insert => "\x1b[32m+"@,
        ChangeKind::Equal => " "@,
    }
}

/// The colour and sign printed before a line of the diff.
pub fn change_prefix(k: ChangeKind) -> (p: &'static str)
    ensures
        p@ == prefix_of(k),
{
    match k {
        ChangeKind::Delete => "\x1b[31m-",
        ChangeKind::Insert => "\x1b[32m+",
        ChangeKind::Equal => " ",
    }
}

/// A line of the diff as printed: its sign and colour, its text, and the colour reset.
pub open spec fn change_piece(c: (ChangeKind, Seq<char>)) -> Seq<char> {
    prefix_of(c.0) + c.1 + "\x1b[0m"@
}

/// The heading of a diff that is not empty.
pub open spec fn diff_heading(rs: Seq<char>, repo: Seq<char>) -> Seq<char> {
    "diff "@ + rs + "/"@ + repo + " (disk \u{2192} store):\n"@
}

/// What `diff` prints, piece by piece (each piece ends its own line): that the
/// repository is in sync, or a heading and each line of the diff from disk to
/// store with its sign and colour.
pub open spec fn diff_report(rs: Seq<char>, repo: Seq<char>, stored: Seq<char>, disk: Seq<char>) -> Seq<Seq<char>> {
    if stored == disk {
        seq![rs + "/"@ + repo + ": in sync \u{25cf}\n"@]
    } else {
        seq![diff_heading(rs, repo)] + line_diff(disk, stored).map_values(|c: (ChangeKind, Seq<char>)| change_piece(c))
    }
}

/// What `diff` prints for the given lines of a diff: the heading, then each
/// line with its sign and colour.
pub fn diff_pieces(rs: &str, repo: &str, changes: &Vec<(ChangeKind, String)>) -> (pieces: Vec<String>)
    ensures
        pieces@.map_values(|s: String| s@) == seq![diff_heading(rs@, repo@)] + change_views(changes@).map_values(
            |c: (ChangeKind, Seq<char>)| change_piece(c),
        ),
{
    let mut h = String::new();
    push_str(&mut h, "diff ");
    push_str(&mut h, rs);
    push_str(&mut h, "/");
    push_str(&mut h, repo);
    push_str(&mut h, " (disk \u{2192} store):\n");
    let mut pieces = vec![h];
    let ghost d = change_views(changes@);
    let ghost f = |c: (ChangeKind, Seq<char>)| change_piece(c);
    let ghost head = pieces@.map_values(|s: String| s@);
    assert(head =~= seq![diff_heading(rs@, repo@)]);
    assert(pieces@.map_values(|s: String| s@) =~= head + d.take(0).map_values(f));
    let mut i: usize = 0;
    while i < changes.len()
        invariant
            i <= changes@.len(),
            change_views(changes@) == d,
            f == (|c: (ChangeKind, Seq<char>)| change_piece(c)),
            pieces@.map_values(|s: String| s@) == head + d.take(i as int).map_values(f),
        decreases changes@.len() - i,
    {
        let (kind, text) = &changes[i];
        let mut s = String::new();
        push_str(&mut s, change_prefix(*kind));
        push_str(&mut s, text.as_str());
        push_str(&mut s, "\x1b[0m");
        let ghost prev = pieces@;
        pieces.push(s);
        proof {
            assert(d[i as int] == (*kind, text@));
            assert(pieces@.map_values(|s: String| s@) =~= prev.map_values(|s: String| s@).push(s@));
            assert(d.take(i + 1).map_values(f) =~= d.take(i as int).map_values(f).push(f(d[i as int])));
        }
        i = i + 1;
    }
    assert(d.take(changes@.len() as int) =~= d);
    pieces
}

/// What `diff` prints for a repository, given the stored text and the text on disk.
pub fn cmd_diff_report(rs: &str, repo: &str, stored: &str, disk: &str) -> (pieces: Vec<String>)
    ensures
        pieces@.map_values(|s: String| s@) == diff_report(rs@, repo@, stored@, disk@),
{
    if crate::text::same_text(stored, disk) {
        let mut s = String::new();
        push_str(&mut s, rs);
        push_str(&mut s, "/");
        push_str(&mut s, repo);
        push_str(&mut s, ": in sync \u{25cf}\n");
        let v = vec![s];
        assert(v@.map_values(|s: String| s@) =~= diff_report(rs@, repo@, stored@, disk@));
        return v;
    }
    let changes = text_diff(disk, stored);
    diff_pieces(rs, repo, &changes)
}

/// Whether a repository's `.env` on disk is what the store would write.
#[derive(Clone, Copy, PartialEq, Eq, Structural, Debug)]
pub enum Sync {
    Synced,
    Unsynced,
}

/// A repository is in sync when it has stored variables and the file on disk
/// holds exactly their text.
pub fn sync_of(has_vars: bool, stored: &str, disk: &str) -> (s: Sync)
    ensures
        s == (if has_vars && stored@ == disk@ { Sync::Synced } else { Sync::Unsynced }),
{
    if !has_vars {
        return Sync::Unsynced;
    }
    if crate::text::same_text(stored, disk) {
        Sync::Synced
    } else {
        Sync::Unsynced
    }
}

/// A global repository shares one `.env` among all sites, so at most one site
/// is active for it: the first whose stored text matches the file.
pub open spec fn active_site(matches: Seq<bool>, i: int) -> bool {
    matches[i] && forall|j: int| 0 <= j < i ==> !matches[j]
}

/// The sync state of each site for a global repository, given which sites'
/// stored text matches the file on disk: the first match is in sync, every
/// other site is not.
pub fn shared_repo_sync(matches: &Vec<bool>) -> (r: Vec<Sync>)
    ensures
        r@.len() == matches@.len(),
        forall|i: int| 0 <= i < r@.len() ==> (#[trigger] r@[i] == Sync::Synced) == active_site(matches@, i),
{
    let mut r: Vec<Sync> = Vec::new();
    let mut taken = false;
    let mut i: usize = 0;
    while i < matches.len()
        invariant
            i <= matches@.len(),
            r@.len() == i,
            taken == exists|j: int| 0 <= j < i && matches@[j],
            forall|k: int| 0 <= k < i ==> (#[trigger] r@[k] == Sync::Synced) == active_site(matches@, k),
        decreases matches@.len() - i,
    {
        if !taken && matches[i] {
            taken = true;
            r.push(Sync::Synced);
        } else {
            proof {
                if taken {
                    let j = choose|j: int| 0 <= j < i && matches@[j];
                    assert(!active_site(matches@, i as int));
                }
            }
            r.push(Sync::Unsynced);
        }
        i = i + 1;
    }
    r
}

/// At most one site is in sync for a shared repository.
pub proof fn lemma_one_active_site(matches: Seq<bool>, i: int, j: int)
    requires
        0 <= i < matches.len(),
        0 <= j < matches.len(),
        active_site(matches, i),
        active_site(matches, j),
    ensures
        i == j,
{
}

/// A sync table's entries as plain values: site, repository, state.
pub open spec fn sync_entry_views(t: Seq<(String, String, Sync)>) -> Seq<(Seq<char>, Seq<char>, Sync)> {
    t.map_values(|e: (String, String, Sync)| (e.0@, e.1@, e.2))
}

/// A global repository with, for each site in order, whether the site's stored
/// text matches the repository's `.env`.
pub open spec fn pass_views(p: Seq<(String, Vec<bool>)>) -> Seq<(Seq<char>, Seq<bool>)> {
    p.map_values(|e: (String, Vec<bool>)| (e.0@, e.1@))
}

/// Whether site `k` is the active one among the matches (a missing match counts as none).
pub open spec fn active_at(matches: Seq<bool>, k: int) -> bool {
    k < matches.len() && active_site(matches, k)
}

/// The states that one global repository's pass writes: every site in order,
/// the active one in sync, every other not.
pub open spec fn global_pass(all: Seq<Seq<char>>, g: Seq<char>, matches: Seq<bool>) -> Seq<(Seq<char>, Seq<char>, Sync)> {
    Seq::new(all.len(), |k: int| (all[k], g, if active_at(matches, k) { Sync::Synced } else { Sync::Unsynced }))
}

/// The states that the passes over the global repositories write, in order.
pub open spec fn global_updates(all: Seq<Seq<char>>, passes: Seq<(Seq<char>, Seq<bool>)>) -> Seq<(Seq<char>, Seq<char>, Sync)>
    decreases passes.len(),
{
    if passes.len() == 0 {
        Seq::empty()
    } else {
        global_updates(all, passes.drop_last()) + global_pass(all, passes.last().0, passes.last().1)
    }
}

/// The state a table of writes leaves for a site and repository: the last one written.
pub open spec fn sync_at(t: Seq<(Seq<char>, Seq<char>, Sync)>, rs: Seq<char>, repo: Seq<char>) -> Option<Sync>
    decreases t.len(),
{
    if t.len() == 0 {
        None
    } else if t.last().0 == rs && t.last().1 == repo {
        Some(t.last().2)
    } else {
        sync_at(t.drop_last(), rs, repo)
    }
}

/// Whether a repository name is one of the global repositories'.
pub open spec fn is_global(passes: Seq<(Seq<char>, Seq<bool>)>, name: Seq<char>) -> bool {
    exists|p: int| 0 <= p < passes.len() && #[trigger] passes[p].0 == name
}

/// The sites' own repositories that no global repository shadows, in order: a
/// global repository of the same name takes priority, as it does for the path
/// and the repository list, so only its pass decides whether a site is in sync.
pub open spec fn unshadowed(site: Seq<(Seq<char>, Seq<char>, Sync)>, passes: Seq<(Seq<char>, Seq<bool>)>) -> Seq<(Seq<char>, Seq<char>, Sync)>
    decreases site.len(),
{
    if site.len() == 0 {
        site
    } else {
        let pre = unshadowed(site.drop_last(), passes);
        if is_global(passes, site.last().1) {
            pre
        } else {
            pre.push(site.last())
        }
    }
}

/// Whether a name is one of the global repositories'.
fn is_global_name(passes: &Vec<(String, Vec<bool>)>, name: &str) -> (b: bool)
    ensures
        b == is_global(pass_views(passes@), name@),
{
    let mut p: usize = 0;
    while p < passes.len()
        invariant
            p <= passes@.len(),
            forall|q: int| 0 <= q < p ==> (#[trigger] pass_views(passes@)[q]).0 != name@,
        decreases passes@.len() - p,
    {
        if crate::text::same_text(passes[p].0.as_str(), name) {
            assert(pass_views(passes@)[p as int].0 == name@);
            return true;
        }
        p = p + 1;
    }
    false
}

/// The sync table, as the writes that build it in order: first each global
/// repository's pass over all sites, then each site's own repositories that no
/// global repository shadows.
pub fn sync_table(all_rs: &Vec<String>, passes: &Vec<(String, Vec<bool>)>, site: &Vec<(String, String, Sync)>) -> (t: Vec<(String, String, Sync)>)
    ensures
        sync_entry_views(t@) == global_updates(all_rs@.map_values(|s: String| s@), pass_views(passes@))
            + unshadowed(sync_entry_views(site@), pass_views(passes@)),
{
    let ghost all = all_rs@.map_values(|s: String| s@);
    let ghost pv = pass_views(passes@);
    let mut t: Vec<(String, String, Sync)> = Vec::new();
    let mut p: usize = 0;
    assert(sync_entry_views(t@) =~= global_updates(all, pv.take(0)));
    while p < passes.len()
        invariant
            p <= passes@.len(),
            all == all_rs@.map_values(|s: String| s@),
            pv == pass_views(passes@),
            sync_entry_views(t@) == global_updates(all, pv.take(p as int)),
        decreases passes@.len() - p,
    {
        let (g, row) = &passes[p];
        let states = shared_repo_sync(row);
        let ghost base = sync_entry_views(t@);
        let ghost gp = global_pass(all, g@, row@);
        let mut k: usize = 0;
        assert(base + gp.take(0) =~= base);
        while k < all_rs.len()
            invariant
                k <= all_rs@.len(),
                all == all_rs@.map_values(|s: String| s@),
                gp == global_pass(all, g@, row@),
                states@.len() == row@.len(),
                forall|i: int| 0 <= i < states@.len() ==> (#[trigger] states@[i] == Sync::Synced) == active_site(row@, i),
                sync_entry_views(t@) == base + gp.take(k as int),
            decreases all_rs@.len() - k,
        {
            let st = if k < states.len() { states[k] } else { Sync::Unsynced };
            let ghost prev = sync_entry_views(t@);
            t.push((all_rs[k].clone(), g.clone(), st));
            proof {
                assert(st == gp[k as int].2);
                assert(sync_entry_views(t@) =~= prev.push((all_rs@[k as int]@, g@, st)));
                assert(gp.take(k + 1) =~= gp.take(k as int).push(gp[k as int]));
            }
            k = k + 1;
        }
        proof {
            assert(gp.take(all_rs@.len() as int) =~= gp);
            assert(pv.take(p + 1).drop_last() =~= pv.take(p as int));
            assert(pv.take(p + 1).last() == (g@, row@));
        }
        p = p + 1;
    }
    assert(pv.take(passes@.len() as int) =~= pv);
    let ghost gu = sync_entry_views(t@);
    let ghost sv = sync_entry_views(site@);
    let mut i: usize = 0;
    assert(gu + unshadowed(sv.take(0), pv) =~= gu);
    while i < site.len()
        invariant
            i <= site@.len(),
            sv == sync_entry_views(site@),
            pv == pass_views(passes@),
            sync_entry_views(t@) == gu + unshadowed(sv.take(i as int), pv),
        decreases site@.len() - i,
    {
        let (r, n, st) = &site[i];
        proof {
            assert(sv.take(i + 1).drop_last() =~= sv.take(i as int));
            assert(sv.take(i + 1).last() == (r@, n@, *st));
        }
        if !is_global_name(passes, n.as_str()) {
            let ghost prev = sync_entry_views(t@);
            t.push((r.clone(), n.clone(), *st));
            proof {
                assert(sync_entry_views(t@) =~= prev.push((r@, n@, *st)));
                assert(gu + unshadowed(sv.take(i + 1), pv) =~= (gu + unshadowed(sv.take(i as int), pv)).push((r@, n@, *st)));
            }
        }
        i = i + 1;
    }
    assert(sv.take(site@.len() as int) =~= sv);
    t
}

/// The state left for a key is one that some write gave it; a key that some
/// write has is left with a state.
proof fn lemma_sync_at_written(t: Seq<(Seq<char>, Seq<char>, Sync)>, rs: Seq<char>, repo: Seq<char>)
    ensures
        sync_at(t, rs, repo) matches Some(st) ==> exists|i: int| 0 <= i < t.len() && #[trigger] t[i] == (rs, repo, st),
        (exists|i: int| 0 <= i < t.len() && (#[trigger] t[i]).0 == rs && t[i].1 == repo) ==> sync_at(t, rs, repo) is Some,
    decreases t.len(),
{
    if t.len() > 0 {
        let u = t.drop_last();
        lemma_sync_at_written(u, rs, repo);
        if !(t.last().0 == rs && t.last().1 == repo) {
            if let Some(st) = sync_at(t, rs, repo) {
                let i = choose|i: int| 0 <= i < u.len() && #[trigger] u[i] == (rs, repo, st);
                assert(t[i] == u[i]);
            }
            if exists|i: int| 0 <= i < t.len() && (#[trigger] t[i]).0 == rs && t[i].1 == repo {
                let i = choose|i: int| 0 <= i < t.len() && (#[trigger] t[i]).0 == rs && t[i].1 == repo;
                assert(i < u.len());
                assert(u[i] == t[i]);
            }
        } else {
            assert(t[t.len() - 1] == t.last());
        }
    }
}

/// Writes after others override them where they write the same key.
proof fn lemma_sync_at_append(a: Seq<(Seq<char>, Seq<char>, Sync)>, b: Seq<(Seq<char>, Seq<char>, Sync)>, rs: Seq<char>, repo: Seq<char>)
    ensures
        sync_at(a + b, rs, repo) == (if sync_at(b, rs, repo) is Some { sync_at(b, rs, repo) } else { sync_at(a, rs, repo) }),
    decreases b.len(),
{
    if b.len() == 0 {
        assert(a + b =~= a);
    } else {
        assert((a + b).drop_last() =~= a + b.drop_last());
        assert((a + b).last() == b.last());
        lemma_sync_at_append(a, b.drop_last(), rs, repo);
    }
}

/// Every write of the global passes is for one of the sites.
proof fn lemma_global_updates_sites(all: Seq<Seq<char>>, passes: Seq<(Seq<char>, Seq<bool>)>)
    ensures
        forall|i: int| 0 <= i < global_updates(all, passes).len() ==> all.contains((#[trigger] global_updates(all, passes)[i]).0),
    decreases passes.len(),
{
    if passes.len() > 0 {
        let pre = global_updates(all, passes.drop_last());
        let gp = global_pass(all, passes.last().0, passes.last().1);
        lemma_global_updates_sites(all, passes.drop_last());
        assert forall|i: int| 0 <= i < global_updates(all, passes).len() implies all.contains((#[trigger] global_updates(all, passes)[i]).0) by {
            let t = global_updates(all, passes);
            assert(t == pre + gp);
            if i < pre.len() {
                assert(t[i] == pre[i]);
            } else {
                assert(t[i] == gp[i - pre.len()]);
                assert(all[i - pre.len()] == t[i].0);
            }
        }
    }
}

/// The global passes leave at most one site in sync for a global repository.
proof fn lemma_global_updates_one_active(all: Seq<Seq<char>>, passes: Seq<(Seq<char>, Seq<bool>)>, g: Seq<char>, rs1: Seq<char>, rs2: Seq<char>)
    requires
        sync_at(global_updates(all, passes), rs1, g) == Some(Sync::Synced),
        sync_at(global_updates(all, passes), rs2, g) == Some(Sync::Synced),
    ensures
        rs1 == rs2,
    decreases passes.len(),
{
    let pre = global_updates(all, passes.drop_last());
    let (n, m) = passes.last();
    let gp = global_pass(all, n, m);
    assert(global_updates(all, passes) == pre + gp);
    lemma_sync_at_append(pre, gp, rs1, g);
    lemma_sync_at_append(pre, gp, rs2, g);
    lemma_sync_at_written(gp, rs1, g);
    lemma_sync_at_written(gp, rs2, g);
    if n != g {
        assert(sync_at(gp, rs1, g) is None) by {
            if sync_at(gp, rs1, g) is Some {
                let st = sync_at(gp, rs1, g)->0;
                let i = choose|i: int| 0 <= i < gp.len() && #[trigger] gp[i] == (rs1, g, st);
                assert(gp[i].1 == n);
            }
        }
        assert(sync_at(gp, rs2, g) is None) by {
            if sync_at(gp, rs2, g) is Some {
                let st = sync_at(gp, rs2, g)->0;
                let i = choose|i: int| 0 <= i < gp.len() && #[trigger] gp[i] == (rs2, g, st);
                assert(gp[i].1 == n);
            }
        }
        lemma_global_updates_one_active(all, passes.drop_last(), g, rs1, rs2);
    } else {
        lemma_global_updates_sites(all, passes.drop_last());
        lemma_sync_at_written(pre, rs1, g);
        lemma_sync_at_written(pre, rs2, g);
        // each site in sync was written in sync by this pass
        assert forall|r: Seq<char>| sync_at(pre + gp, r, g) == Some(Sync::Synced) implies
            exists|k: int| 0 <= k < all.len() && all[k] == r && active_at(m, k) by {
            lemma_sync_at_append(pre, gp, r, g);
            lemma_sync_at_written(gp, r, g);
            lemma_sync_at_written(pre, r, g);
            if sync_at(gp, r, g) is Some {
                let i = choose|i: int| 0 <= i < gp.len() && #[trigger] gp[i] == (r, g, Sync::Synced);
                assert(all[i] == r && active_at(m, i));
            } else {
                let i = choose|i: int| 0 <= i < pre.len() && #[trigger] pre[i] == (r, g, Sync::Synced);
                assert(all.contains(pre[i].0));
                let k = choose|k: int| 0 <= k < all.len() && all[k] == r;
                assert(gp[k].0 == r && gp[k].1 == g);
                assert(false);
            }
        }
        let k1 = choose|k: int| 0 <= k < all.len() && all[k] == rs1 && active_at(m, k);
        let k2 = choose|k: int| 0 <= k < all.len() && all[k] == rs2 && active_at(m, k);
        lemma_one_active_site(m, k1, k2);
    }
}

/// No site's own repository left in the table has a global repository's name.
proof fn lemma_unshadowed_not_global(site: Seq<(Seq<char>, Seq<char>, Sync)>, passes: Seq<(Seq<char>, Seq<bool>)>)
    ensures
        forall|i: int| 0 <= i < unshadowed(site, passes).len() ==> !is_global(passes, (#[trigger] unshadowed(site, passes)[i]).1),
    decreases site.len(),
{
    if site.len() > 0 {
        lemma_unshadowed_not_global(site.drop_last(), passes);
        let pre = unshadowed(site.drop_last(), passes);
        assert forall|i: int| 0 <= i < unshadowed(site, passes).len() implies !is_global(passes, (#[trigger] unshadowed(site, passes)[i]).1) by {
            if i < pre.len() {
                assert(unshadowed(site, passes)[i] == pre[i]);
            }
        }
    }
}

/// A sync table leaves at most one site in sync for each global repository.
pub proof fn lemma_sync_table_one_active(
    all: Seq<Seq<char>>,
    passes: Seq<(Seq<char>, Seq<bool>)>,
    site: Seq<(Seq<char>, Seq<char>, Sync)>,
    p: int,
    rs1: Seq<char>,
    rs2: Seq<char>,
)
    requires
        0 <= p < passes.len(),
        sync_at(global_updates(all, passes) + unshadowed(site, passes), rs1, passes[p].0) == Some(Sync::Synced),
        sync_at(global_updates(all, passes) + unshadowed(site, passes), rs2, passes[p].0) == Some(Sync::Synced),
    ensures
        rs1 == rs2,
{
    let g = passes[p].0;
    let gu = global_updates(all, passes);
    let us = unshadowed(site, passes);
    assert(is_global(passes, g));
    lemma_unshadowed_not_global(site, passes);
    lemma_sync_at_append(gu, us, rs1, g);
    lemma_sync_at_append(gu, us, rs2, g);
    lemma_sync_at_written(us, rs1, g);
    lemma_sync_at_written(us, rs2, g);
    lemma_global_updates_one_active(all, passes, g, rs1, rs2);
}

} // verus!
