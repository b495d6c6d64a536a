//! The decisions of the interactive screens: the entry forms, list selection
//! and navigation, the search over sites and repositories, and which sites a
//! deployment marks as active. Drawing and input are left to the caller.

use crate::commands::lowercase;
use crate::diff::Sync;
use crate::ordered_map::{has_key, keys_of, lemma_key_index, lookup, str_entries, string_map_get_index, string_map_len};
use crate::registry::{rs_map_get, Registry, RegistryView};
use crate::text::{chars_of, contains_chars, contains_seq, push_char, same_text};
use vstd::prelude::*;

verus! {

broadcast use lemma_key_index;

/// `str::to_lowercase`, through the commands' search.
fn lower_chars(s: &str) -> (r: Vec<char>)
    ensures
        r@ == lowercase(s@),
        s@.len() == 0 ==> r@.len() == 0,
{
    chars_of(crate::commands::lowercase_text(s).as_str())
}

/// The field of the site form that takes typing.
#[derive(PartialEq, Eq, Structural, Clone, Copy, Debug)]
pub enum RsFormField {
    Name,
    Ip,
}

/// The field of the repository form that takes typing.
#[derive(PartialEq, Eq, Structural, Clone, Copy, Debug)]
pub enum RepoFormField {
    Name,
    Path,
}

/// The field of the variable form that takes typing.
#[derive(PartialEq, Eq, Structural, Clone, Copy, Debug)]
pub enum VarFormField {
    Key,
    Value,
}

/// The form for adding a site.
pub struct RsForm {
    pub name: String,
    pub ip: String,
    pub focus: RsFormField,
}

impl RsForm {
    /// An empty form with the name focused.
    pub fn new() -> (f: RsForm)
        ensures
            f.name@ == Seq::<char>::empty(),
            f.ip@ == Seq::<char>::empty(),
            f.focus == RsFormField::Name,
    {
        RsForm { name: String::new(), ip: String::new(), focus: RsFormField::Name }
    }

    /// Tab: moves the focus to the other field.
    pub fn tab(&mut self)
        ensures
            final(self).focus == (if old(self).focus == RsFormField::Name { RsFormField::Ip } else { RsFormField::Name }),
            final(self).name == old(self).name,
            final(self).ip == old(self).ip,
    {
        self.focus = match self.focus {
            RsFormField::Name => RsFormField::Ip,
            RsFormField::Ip => RsFormField::Name,
        };
    }

    /// A typed character goes to the focused field.
    pub fn type_char(&mut self, c: char)
        ensures
            final(self).focus == old(self).focus,
            old(self).focus == RsFormField::Name ==> final(self).name@ == old(self).name@.push(c) && final(self).ip == old(self).ip,
            old(self).focus == RsFormField::Ip ==> final(self).ip@ == old(self).ip@.push(c) && final(self).name == old(self).name,
    {
        match self.focus {
            RsFormField::Name => push_char(&mut self.name, c),
            RsFormField::Ip => push_char(&mut self.ip, c),
        }
    }

    /// Backspace removes the focused field's last character.
    pub fn backspace(&mut self)
        ensures
            final(self).focus == old(self).focus,
            old(self).focus == RsFormField::Name ==> final(self).name@ == drop_last_char(old(self).name@) && final(self).ip == old(self).ip,
            old(self).focus == RsFormField::Ip ==> final(self).ip@ == drop_last_char(old(self).ip@) && final(self).name == old(self).name,
    {
        match self.focus {
            RsFormField::Name => pop_char(&mut self.name),
            RsFormField::Ip => pop_char(&mut self.ip),
        }
    }

    /// Enter moves from a filled-in name to the IP address; otherwise it submits.
    pub fn enter_advances(&self) -> (b: bool)
        ensures
            b == (self.focus == RsFormField::Name && self.name@.len() > 0),
    {
        self.focus == RsFormField::Name && !self.name.as_str().is_empty()
    }
}

/// The form for adding a variable.
pub struct VarForm {
    pub key: String,
    pub value: String,
    pub focus: VarFormField,
}

impl VarForm {
    /// An empty form with the key focused.
    pub fn new() -> (f: VarForm)
        ensures
            f.key@ == Seq::<char>::empty(),
            f.value@ == Seq::<char>::empty(),
            f.focus == VarFormField::Key,
    {
        VarForm { key: String::new(), value: String::new(), focus: VarFormField::Key }
    }

    /// Tab: moves the focus to the other field.
    pub fn tab(&mut self)
        ensures
            final(self).focus == (if old(self).focus == VarFormField::Key { VarFormField::Value } else { VarFormField::Key }),
            final(self).key == old(self).key,
            final(self).value == old(self).value,
    {
        self.focus = match self.focus {
            VarFormField::Key => VarFormField::Value,
            VarFormField::Value => VarFormField::Key,
        };
    }

    /// A typed character goes to the focused field.
    pub fn type_char(&mut self, c: char)
        ensures
            final(self).focus == old(self).focus,
            old(self).focus == VarFormField::Key ==> final(self).key@ == old(self).key@.push(c) && final(self).value == old(self).value,
            old(self).focus == VarFormField::Value ==> final(self).value@ == old(self).value@.push(c) && final(self).key == old(self).key,
    {
        match self.focus {
            VarFormField::Key => push_char(&mut self.key, c),
            VarFormField::Value => push_char(&mut self.value, c),
        }
    }

    /// Backspace removes the focused field's last character.
    pub fn backspace(&mut self)
        ensures
            final(self).focus == old(self).focus,
            old(self).focus == VarFormField::Key ==> final(self).key@ == drop_last_char(old(self).key@) && final(self).value == old(self).value,
            old(self).focus == VarFormField::Value ==> final(self).value@ == drop_last_char(old(self).value@) && final(self).key == old(self).key,
    {
        match self.focus {
            VarFormField::Key => pop_char(&mut self.key),
            VarFormField::Value => pop_char(&mut self.value),
        }
    }

    /// Enter moves from a filled-in key to the value; otherwise it submits.
    pub fn enter_advances(&self) -> (b: bool)
        ensures
            b == (self.focus == VarFormField::Key && self.key@.len() > 0),
    {
        self.focus == VarFormField::Key && !self.key.as_str().is_empty()
    }
}

/// The form for adding or editing a global repository.
pub struct RepoForm {
    pub name: String,
    pub path: String,
    pub focus: RepoFormField,
    /// The name of the repository being edited, if any.
    pub editing: Option<String>,
}

impl RepoForm {
    /// An empty form for a new repository, with the name focused.
    pub fn new() -> (f: RepoForm)
        ensures
            f.name@ == Seq::<char>::empty(),
            f.path@ == Seq::<char>::empty(),
            f.focus == RepoFormField::Name,
            f.editing is None,
    {
        RepoForm { name: String::new(), path: String::new(), focus: RepoFormField::Name, editing: None }
    }

    /// A form for editing a repository's path, filled in, with the path focused.
    pub fn edit(name: &str, path: &str) -> (f: RepoForm)
        ensures
            f.name@ == name@,
            f.path@ == path@,
            f.focus == RepoFormField::Path,
            f.editing matches Some(n) && n@ == name@,
    {
        RepoForm { name: name.to_owned(), path: path.to_owned(), focus: RepoFormField::Path, editing: Some(name.to_owned()) }
    }

    /// Tab: moves the focus to the other field.
    pub fn tab(&mut self)
        ensures
            final(self).focus == (if old(self).focus == RepoFormField::Name { RepoFormField::Path } else { RepoFormField::Name }),
            final(self).name == old(self).name,
            final(self).path == old(self).path,
            final(self).editing == old(self).editing,
    {
        self.focus = match self.focus {
            RepoFormField::Name => RepoFormField::Path,
            RepoFormField::Path => RepoFormField::Name,
        };
    }

    /// A typed character goes to the focused field.
    pub fn type_char(&mut self, c: char)
        ensures
            final(self).focus == old(self).focus,
            final(self).editing == old(self).editing,
            old(self).focus == RepoFormField::Name ==> final(self).name@ == old(self).name@.push(c) && final(self).path == old(self).path,
            old(self).focus == RepoFormField::Path ==> final(self).path@ == old(self).path@.push(c) && final(self).name == old(self).name,
    {
        match self.focus {
            RepoFormField::Name => push_char(&mut self.name, c),
            RepoFormField::Path => push_char(&mut self.path, c),
        }
    }

    /// Backspace removes the focused field's last character.
    pub fn backspace(&mut self)
        ensures
            final(self).focus == old(self).focus,
            final(self).editing == old(self).editing,
            old(self).focus == RepoFormField::Name ==> final(self).name@ == drop_last_char(old(self).name@) && final(self).path == old(self).path,
            old(self).focus == RepoFormField::Path ==> final(self).path@ == drop_last_char(old(self).path@) && final(self).name == old(self).name,
    {
        match self.focus {
            RepoFormField::Name => pop_char(&mut self.name),
            RepoFormField::Path => pop_char(&mut self.path),
        }
    }

    /// Enter moves from a filled-in name to the path; otherwise it submits.
    pub fn enter_advances(&self) -> (b: bool)
        ensures
            b == (self.focus == RepoFormField::Name && self.name@.len() > 0),
    {
        self.focus == RepoFormField::Name && !self.name.as_str().is_empty()
    }
}

/// A form as its contents: its two fields, whether the first one takes typing,
/// and the name of the repository being edited, if any.
pub struct FormView {
    pub first: Seq<char>,
    pub second: Seq<char>,
    pub on_first: bool,
    pub editing: Option<Seq<char>>,
}

/// A new form: both fields empty, the first one focused.
pub open spec fn blank_form() -> FormView {
    FormView { first: Seq::empty(), second: Seq::empty(), on_first: true, editing: None }
}

/// The form after Tab: the other field is focused.
pub open spec fn form_tab(f: FormView) -> FormView {
    FormView { first: f.first, second: f.second, on_first: !f.on_first, editing: f.editing }
}

/// The form after typing a character into the focused field.
pub open spec fn form_typed(f: FormView, c: char) -> FormView {
    if f.on_first {
        FormView { first: f.first.push(c), second: f.second, on_first: f.on_first, editing: f.editing }
    } else {
        FormView { first: f.first, second: f.second.push(c), on_first: f.on_first, editing: f.editing }
    }
}

/// The form after Backspace in the focused field.
pub open spec fn form_erased(f: FormView) -> FormView {
    if f.on_first {
        FormView { first: drop_last_char(f.first), second: f.second, on_first: f.on_first, editing: f.editing }
    } else {
        FormView { first: f.first, second: drop_last_char(f.second), on_first: f.on_first, editing: f.editing }
    }
}

/// Whether Enter moves on to the second field rather than submitting.
pub open spec fn form_advances(f: FormView) -> bool {
    f.on_first && f.first.len() > 0
}

impl View for RsForm {
    type V = FormView;

    open spec fn view(&self) -> FormView {
        FormView { first: self.name@, second: self.ip@, on_first: self.focus == RsFormField::Name, editing: None }
    }
}

impl View for VarForm {
    type V = FormView;

    open spec fn view(&self) -> FormView {
        FormView { first: self.key@, second: self.value@, on_first: self.focus == VarFormField::Key, editing: None }
    }
}

impl View for RepoForm {
    type V = FormView;

    open spec fn view(&self) -> FormView {
        FormView {
            first: self.name@,
            second: self.path@,
            on_first: self.focus == RepoFormField::Name,
            editing: match self.editing {
                Some(n) => Some(n@),
                None => None,
            },
        }
    }
}

/// A text without its last character, as `String::pop` leaves it.
pub open spec fn drop_last_char(s: Seq<char>) -> Seq<char> {
    if s.len() == 0 {
        s
    } else {
        s.drop_last()
    }
}

/// `String::pop`: removes the last character, if any.
#[verifier::external_body]
pub(crate) fn pop_char(s: &mut String)
    ensures
        final(s)@ == drop_last_char(old(s)@),
{
    s.pop();
}

/// The selection in a list of `len` items after it changed: none in an empty
/// list, otherwise the current one (or the first) moved into range.
pub fn clamp_selection(len: usize, cur: Option<usize>) -> (r: Option<usize>)
    ensures
        len == 0 ==> r is None,
        len > 0 ==> r == Some(min_usize(match cur {
            Some(c) => c,
            None => 0,
        }, (len - 1) as usize)),
{
    if len == 0 {
        None
    } else {
        let c = match cur {
            Some(c) => c,
            None => 0,
        };
        Some(if c < len - 1 { c } else { len - 1 })
    }
}

/// The smaller of two numbers.
pub open spec fn min_usize(a: usize, b: usize) -> usize {
    if a < b { a } else { b }
}

/// Whether a site is shown for a search: its lowercase name contains the
/// lowercase query, or its IP address does.
pub open spec fn rs_shown(v: RegistryView, name: Seq<char>, q: Seq<char>) -> bool {
    contains_seq(lowercase(name), q) || match lookup(v.rs, name) {
        Some(e) => contains_seq(lowercase(e.0), q),
        None => false,
    }
}

/// The sites shown for a search, in order.
pub open spec fn shown_sites(v: RegistryView, all: Seq<Seq<char>>, q: Seq<char>) -> Seq<Seq<char>>
    decreases all.len(),
{
    if all.len() == 0 {
        all
    } else {
        let pre = shown_sites(v, all.drop_last(), q);
        if rs_shown(v, all.last(), q) {
            pre.push(all.last())
        } else {
            pre
        }
    }
}

/// Whether `a` is `b` with some items left out, the rest in order.
pub open spec fn is_subseq(a: Seq<Seq<char>>, b: Seq<Seq<char>>) -> bool
    decreases b.len(),
{
    if a.len() == 0 {
        true
    } else if b.len() == 0 {
        false
    } else if a.last() == b.last() {
        is_subseq(a.drop_last(), b.drop_last())
    } else {
        is_subseq(a, b.drop_last())
    }
}

/// Every list is one of its own subsequences.
pub proof fn lemma_subseq_refl(a: Seq<Seq<char>>)
    ensures
        is_subseq(a, a),
    decreases a.len(),
{
    if a.len() > 0 {
        lemma_subseq_refl(a.drop_last());
    }
}

/// A subsequence is no longer than the list.
pub proof fn lemma_subseq_len(a: Seq<Seq<char>>, b: Seq<Seq<char>>)
    requires
        is_subseq(a, b),
    ensures
        a.len() <= b.len(),
    decreases b.len(),
{
    if a.len() > 0 {
        if a.last() == b.last() {
            lemma_subseq_len(a.drop_last(), b.drop_last());
        } else {
            lemma_subseq_len(a, b.drop_last());
        }
    }
}

/// The sites shown for a search are all sites with some left out, in their order.
pub proof fn lemma_shown_sites_subseq(v: RegistryView, all: Seq<Seq<char>>, q: Seq<char>)
    ensures
        is_subseq(shown_sites(v, all, q), all),
    decreases all.len(),
{
    if all.len() > 0 {
        lemma_shown_sites_subseq(v, all.drop_last(), q);
        let pre = shown_sites(v, all.drop_last(), q);
        if rs_shown(v, all.last(), q) {
            assert(pre.push(all.last()).drop_last() =~= pre);
        } else {
            lemma_subseq_extend(pre, all.drop_last(), all.last());
            assert(all.drop_last().push(all.last()) =~= all);
        }
    }
}

/// Leaving out a subsequence's last item keeps it a subsequence.
proof fn lemma_subseq_drop_one(a: Seq<Seq<char>>, b: Seq<Seq<char>>)
    requires
        is_subseq(a, b),
        a.len() > 0,
    ensures
        is_subseq(a.drop_last(), b),
    decreases b.len(),
{
    let a1 = a.drop_last();
    let b1 = b.drop_last();
    if a.last() == b.last() {
        assert(is_subseq(a1, b1));
    } else {
        lemma_subseq_drop_one(a, b1);
    }
    // now is_subseq(a1, b1); lift it to b
    if a1.len() > 0 {
        if a1.last() == b.last() {
            lemma_subseq_drop_one(a1, b1);
        }
    }
}

/// A subsequence stays one when the list grows at the end.
proof fn lemma_subseq_extend(a: Seq<Seq<char>>, b: Seq<Seq<char>>, x: Seq<char>)
    requires
        is_subseq(a, b),
    ensures
        is_subseq(a, b.push(x)),
{
    assert(b.push(x).drop_last() =~= b);
    if a.len() > 0 && a.last() == x {
        lemma_subseq_drop_one(a, b);
    }
}

/// The site lists that the screens hold: all sites are the registry's names in
/// its order, and the sites shown are some of them in that order, all of them
/// when there is no site search.
pub open spec fn site_lists_hold(v: RegistryView, all: Seq<Seq<char>>, shown: Seq<Seq<char>>, search: Seq<char>) -> bool {
    &&& all == keys_of(v.rs)
    &&& is_subseq(shown, all)
    &&& search.len() == 0 ==> shown == all
}

/// Site lists that hold give the facts on their lengths that the screens'
/// consistency needs: no more sites shown than there are, all of them when
/// there is no site search.
pub proof fn lemma_site_lists_lengths(v: RegistryView, all: Seq<Seq<char>>, shown: Seq<Seq<char>>, search: Seq<char>)
    requires
        site_lists_hold(v, all, shown, search),
    ensures
        shown.len() <= all.len(),
        search.len() == 0 ==> shown.len() == all.len(),
        all.len() == v.rs.len(),
{
    lemma_subseq_len(shown, all);
}

/// The sites of the list that match the search, by name or IP address, ignoring
/// case; all of them for an empty search.
pub fn filter_rs(reg: &Registry, all_rs: &Vec<String>, search: &str) -> (r: Vec<String>)
    ensures
        lowercase(search@).len() == 0 ==> r@.map_values(|s: String| s@) == all_rs@.map_values(|s: String| s@),
        lowercase(search@).len() > 0 ==> r@.map_values(|s: String| s@) == shown_sites(reg@, all_rs@.map_values(|s: String| s@), lowercase(search@)),
        search@.len() == 0 ==> r@.map_values(|s: String| s@) == all_rs@.map_values(|s: String| s@),
        is_subseq(r@.map_values(|s: String| s@), all_rs@.map_values(|s: String| s@)),
        all_rs@.map_values(|s: String| s@) == keys_of(reg@.rs) ==> site_lists_hold(
            reg@,
            all_rs@.map_values(|s: String| s@),
            r@.map_values(|s: String| s@),
            search@,
        ),
{
    proof {
        lemma_shown_sites_subseq(reg@, all_rs@.map_values(|s: String| s@), lowercase(search@));
        lemma_subseq_refl(all_rs@.map_values(|s: String| s@));
    }
    let q = lower_chars(search);
    if q.len() == 0 {
        let mut r: Vec<String> = Vec::new();
        let mut i: usize = 0;
        while i < all_rs.len()
            invariant
                i <= all_rs@.len(),
                r@.map_values(|s: String| s@) == all_rs@.take(i as int).map_values(|s: String| s@),
            decreases all_rs@.len() - i,
        {
            let ghost prev = r@;
            r.push(all_rs[i].clone());
            assert(r@ == prev.push(all_rs@[i as int]));
            assert(all_rs@.take(i + 1) =~= all_rs@.take(i as int).push(all_rs@[i as int]));
            assert(r@.map_values(|s: String| s@) =~= prev.map_values(|s: String| s@).push(all_rs@[i as int]@));
            assert(all_rs@.take(i + 1).map_values(|s: String| s@) =~= all_rs@.take(i as int).map_values(|s: String| s@).push(all_rs@[i as int]@));
            i = i + 1;
        }
        assert(all_rs@.take(all_rs@.len() as int) =~= all_rs@);
        return r;
    }
    let ghost all = all_rs@.map_values(|s: String| s@);
    let mut r: Vec<String> = Vec::new();
    let mut i: usize = 0;
    assert(all.take(0) =~= Seq::<Seq<char>>::empty());
    while i < all_rs.len()
        invariant
            i <= all_rs@.len(),
            all == all_rs@.map_values(|s: String| s@),
            q@ == lowercase(search@),
            r@.map_values(|s: String| s@) == shown_sites(reg@, all.take(i as int), q@),
        decreases all_rs@.len() - i,
    {
        let name = &all_rs[i];
        proof {
            assert(all.take(i + 1).drop_last() =~= all.take(i as int));
            assert(all.take(i + 1).last() == name@);
        }
        let ln = lower_chars(name.as_str());
        let mut shown = contains_chars(ln.as_slice(), q.as_slice());
        if !shown {
            match rs_map_get(&reg.rs, name.as_str()) {
                Some(e) => {
                    let li = lower_chars(e.ip.as_str());
                    shown = contains_chars(li.as_slice(), q.as_slice());
                },
                None => {},
            }
        }
        if shown {
            let ghost prev = r@;
            r.push(name.clone());
            assert(r@.map_values(|s: String| s@) =~= prev.map_values(|s: String| s@).push(name@));
        }
        i = i + 1;
    }
    assert(all.take(all_rs@.len() as int) =~= all);
    r
}

/// The names in a list of repositories.
pub open spec fn names_of(s: Seq<(Seq<char>, Seq<char>)>) -> Seq<Seq<char>> {
    s.map_values(|p: (Seq<char>, Seq<char>)| p.0)
}

/// Whether a repository is listed for a search: an empty search lists all, else
/// its lowercase name contains the lowercase query.
pub open spec fn repo_listed(name: Seq<char>, q: Seq<char>) -> bool {
    q.len() == 0 || contains_seq(lowercase(name), q)
}

/// A list of repositories after taking in others that are listed for the search
/// and whose names it does not hold yet.
pub open spec fn take_repos(acc: Seq<(Seq<char>, Seq<char>)>, more: Seq<(Seq<char>, Seq<char>)>, q: Seq<char>) -> Seq<(Seq<char>, Seq<char>)>
    decreases more.len(),
{
    if more.len() == 0 {
        acc
    } else {
        let pre = take_repos(acc, more.drop_last(), q);
        let p = more.last();
        if repo_listed(p.0, q) && !names_of(pre).contains(p.0) {
            pre.push(p)
        } else {
            pre
        }
    }
}

/// The repositories listed for a site: the global ones first, then the site's
/// own, each once by name, filtered by the search.
pub open spec fn site_repo_list(v: RegistryView, rs: Seq<char>, q: Seq<char>) -> Seq<(Seq<char>, Seq<char>)> {
    let globals = take_repos(Seq::empty(), v.repos, q);
    match lookup(v.rs, rs) {
        Some(e) => take_repos(globals, e.1, q),
        None => globals,
    }
}

/// What taking in repositories adds: it keeps what was there, and each
/// repository it adds is one of those offered whose lowercase name contains the
/// query (any, for an empty query).
pub proof fn lemma_take_repos_sound(acc: Seq<(Seq<char>, Seq<char>)>, more: Seq<(Seq<char>, Seq<char>)>, q: Seq<char>)
    ensures
        take_repos(acc, more, q).len() >= acc.len(),
        take_repos(acc, more, q).take(acc.len() as int) == acc,
        forall|i: int| acc.len() <= i < take_repos(acc, more, q).len() ==>
            (q.len() == 0 || contains_seq(lowercase((#[trigger] take_repos(acc, more, q)[i]).0), q))
            && more.contains(take_repos(acc, more, q)[i]),
    decreases more.len(),
{
    if more.len() > 0 {
        let m0 = more.drop_last();
        lemma_take_repos_sound(acc, m0, q);
        let pre = take_repos(acc, m0, q);
        let r = take_repos(acc, more, q);
        assert(r.take(acc.len() as int) =~= pre.take(acc.len() as int));
        assert forall|i: int| acc.len() <= i < r.len() implies
            (q.len() == 0 || contains_seq(lowercase((#[trigger] r[i]).0), q)) && more.contains(r[i]) by {
            if i < pre.len() {
                assert(r[i] == pre[i]);
                let j = choose|j: int| 0 <= j < m0.len() && m0[j] == pre[i];
                assert(more[j] == m0[j]);
            } else {
                assert(r[i] == more.last());
                assert(more[more.len() - 1] == more.last());
            }
        }
    }
}

/// Taking in repositories whose names do not repeat adds every one whose
/// lowercase name contains the query (any, for an empty query) and whose name
/// was not there yet.
pub proof fn lemma_take_repos_complete(acc: Seq<(Seq<char>, Seq<char>)>, more: Seq<(Seq<char>, Seq<char>)>, q: Seq<char>)
    requires
        crate::ordered_map::distinct_keys(more),
    ensures
        forall|j: int| 0 <= j < more.len() && (q.len() == 0 || contains_seq(lowercase((#[trigger] more[j]).0), q))
            && !names_of(acc).contains(more[j].0) ==> take_repos(acc, more, q).contains(more[j]),
    decreases more.len(),
{
    if more.len() > 0 {
        let m0 = more.drop_last();
        assert(crate::ordered_map::distinct_keys(m0));
        lemma_take_repos_complete(acc, m0, q);
        lemma_take_repos_sound(acc, m0, q);
        let pre = take_repos(acc, m0, q);
        let r = take_repos(acc, more, q);
        let p = more.last();
        assert forall|j: int| 0 <= j < more.len() && (q.len() == 0 || contains_seq(lowercase((#[trigger] more[j]).0), q))
            && !names_of(acc).contains(more[j].0) implies r.contains(more[j]) by {
            if j < more.len() - 1 {
                assert(more[j] == m0[j]);
                let k = choose|k: int| 0 <= k < pre.len() && pre[k] == m0[j];
                if r != pre {
                    assert(r[k] == pre[k]);
                }
            } else {
                assert(more[j] == p);
                if names_of(pre).contains(p.0) {
                    let k = choose|k: int| 0 <= k < names_of(pre).len() && names_of(pre)[k] == p.0;
                    if k < acc.len() {
                        assert(pre.take(acc.len() as int)[k] == pre[k]);
                        assert(names_of(acc)[k] == p.0);
                    } else {
                        assert(m0.contains(pre[k]));
                        let i = choose|i: int| 0 <= i < m0.len() && m0[i] == pre[k];
                        assert(more[i] == m0[i]);
                        assert(more[i].0 == more[more.len() - 1].0);
                    }
                }
                assert(r == pre.push(p));
                assert(r[pre.len() as int] == p);
            }
        }
    }
}

/// The repositories listed for a site are exactly filtered by the search,
/// ignoring case: each listed one has a lowercase name containing the query
/// (any, for an empty query); and every global repository whose lowercase name
/// contains it is listed, global repositories not repeating a name.
pub proof fn lemma_site_repo_list_search(v: RegistryView, rs: Seq<char>, q: Seq<char>)
    ensures
        forall|i: int| 0 <= i < site_repo_list(v, rs, q).len() ==>
            q.len() == 0 || contains_seq(lowercase((#[trigger] site_repo_list(v, rs, q)[i]).0), q),
        crate::ordered_map::distinct_keys(v.repos) ==> forall|j: int| 0 <= j < v.repos.len()
            && (q.len() == 0 || contains_seq(lowercase((#[trigger] v.repos[j]).0), q))
            ==> site_repo_list(v, rs, q).contains(v.repos[j]),
{
    let e: Seq<(Seq<char>, Seq<char>)> = Seq::empty();
    let globals = take_repos(e, v.repos, q);
    lemma_take_repos_sound(e, v.repos, q);
    if crate::ordered_map::distinct_keys(v.repos) {
        lemma_take_repos_complete(e, v.repos, q);
    }
    assert(names_of(e) =~= Seq::<Seq<char>>::empty());
    match lookup(v.rs, rs) {
        Some(ent) => {
            lemma_take_repos_sound(globals, ent.1, q);
            let r = take_repos(globals, ent.1, q);
            assert forall|i: int| 0 <= i < r.len() implies q.len() == 0 || contains_seq(lowercase((#[trigger] r[i]).0), q) by {
                if i < globals.len() {
                    assert(r.take(globals.len() as int)[i] == r[i]);
                }
            }
            assert forall|j: int| crate::ordered_map::distinct_keys(v.repos) && 0 <= j < v.repos.len()
                && (q.len() == 0 || contains_seq(lowercase((#[trigger] v.repos[j]).0), q))
                implies r.contains(v.repos[j]) by {
                let k = choose|k: int| 0 <= k < globals.len() && globals[k] == v.repos[j];
                assert(r.take(globals.len() as int)[k] == r[k]);
            }
        },
        None => {},
    }
}

/// Takes in the listed repositories of a map whose names are not there yet.
fn take_listed(out: &mut Vec<(String, String)>, more: &indexmap::IndexMap<String, String>, q: &Vec<char>)
    ensures
        final(out)@.map_values(|p: (String, String)| (p.0@, p.1@)) == take_repos(
            old(out)@.map_values(|p: (String, String)| (p.0@, p.1@)),
            str_entries(*more),
            q@,
        ),
{
    let ghost acc = out@.map_values(|p: (String, String)| (p.0@, p.1@));
    let ghost s = str_entries(*more);
    let n = string_map_len(more);
    let mut i: usize = 0;
    assert(s.take(0) =~= Seq::<(Seq<char>, Seq<char>)>::empty());
    while i < n
        invariant
            i <= n,
            n == s.len(),
            s == str_entries(*more),
            out@.map_values(|p: (String, String)| (p.0@, p.1@)) == take_repos(acc, s.take(i as int), q@),
        decreases n - i,
    {
        let (name, path) = string_map_get_index(more, i).unwrap();
        proof {
            assert(s.take(i + 1).drop_last() =~= s.take(i as int));
            assert(s.take(i + 1).last() == s[i as int]);
        }
        let mut listed = q.len() == 0;
        if !listed {
            let ln = lower_chars(name.as_str());
            listed = contains_chars(ln.as_slice(), q.as_slice());
        }
        if listed {
            let ghost cur = out@.map_values(|p: (String, String)| (p.0@, p.1@));
            let mut seen = false;
            let mut j: usize = 0;
            while j < out.len()
                invariant
                    j <= out@.len(),
                    cur == out@.map_values(|p: (String, String)| (p.0@, p.1@)),
                    seen == exists|k: int| 0 <= k < j && #[trigger] names_of(cur)[k] == name@,
                decreases out@.len() - j,
            {
                if same_text(out[j].0.as_str(), name.as_str()) {
                    assert(names_of(cur)[j as int] == name@);
                    seen = true;
                }
                j = j + 1;
            }
            proof {
                if names_of(cur).contains(name@) {
                    let k = choose|k: int| 0 <= k < names_of(cur).len() && names_of(cur)[k] == name@;
                    assert(names_of(cur)[k] == name@);
                }
            }
            if !seen {
                out.push((name.clone(), path.clone()));
                assert(out@.map_values(|p: (String, String)| (p.0@, p.1@)) =~= cur.push(s[i as int]));
            }
        }
        i = i + 1;
    }
    assert(s.take(n as int) =~= s);
}

/// The repositories listed for a site, global ones first, and how many of them
/// are global.
pub fn reload_repos(reg: &Registry, rs: &str, search: &str) -> (r: (Vec<(String, String)>, usize))
    ensures
        r.0@.map_values(|p: (String, String)| (p.0@, p.1@)) == site_repo_list(reg@, rs@, lowercase(search@)),
        r.1 == take_repos(Seq::empty(), reg@.repos, lowercase(search@)).len(),
        forall|i: int| 0 <= i < r.0@.len() ==> lowercase(search@).len() == 0
            || contains_seq(lowercase((#[trigger] r.0@[i]).0@), lowercase(search@)),
        crate::ordered_map::distinct_keys(reg@.repos) ==> forall|j: int| 0 <= j < reg@.repos.len()
            && (lowercase(search@).len() == 0 || contains_seq(lowercase((#[trigger] reg@.repos[j]).0), lowercase(search@)))
            ==> r.0@.map_values(|p: (String, String)| (p.0@, p.1@)).contains(reg@.repos[j]),
{
    proof {
        lemma_site_repo_list_search(reg@, rs@, lowercase(search@));
    }
    let q = lower_chars(search);
    let mut repos: Vec<(String, String)> = Vec::new();
    assert(repos@.map_values(|p: (String, String)| (p.0@, p.1@)) =~= Seq::<(Seq<char>, Seq<char>)>::empty());
    take_listed(&mut repos, &reg.repos, &q);
    let global_count = repos.len();
    match rs_map_get(&reg.rs, rs) {
        Some(e) => take_listed(&mut repos, &e.repos, &q),
        None => {},
    }
    proof {
        let l = site_repo_list(reg@, rs@, lowercase(search@));
        assert forall|i: int| 0 <= i < repos@.len() implies lowercase(search@).len() == 0
            || contains_seq(lowercase((#[trigger] repos@[i]).0@), lowercase(search@)) by {
            assert(repos@.map_values(|p: (String, String)| (p.0@, p.1@))[i] == l[i]);
        }
    }
    (repos, global_count)
}

/// Every site of the list other than `rs`, in order, each no longer in sync.
pub open spec fn others_unsynced(all: Seq<Seq<char>>, rs: Seq<char>) -> Seq<(Seq<char>, Sync)>
    decreases all.len(),
{
    if all.len() == 0 {
        Seq::empty()
    } else {
        let pre = others_unsynced(all.drop_last(), rs);
        if all.last() == rs {
            pre
        } else {
            pre.push((all.last(), Sync::Unsynced))
        }
    }
}

/// The sync states as plain values.
pub open spec fn sync_updates(v: Seq<(String, Sync)>) -> Seq<(Seq<char>, Sync)> {
    v.map_values(|p: (String, Sync)| (p.0@, p.1))
}

/// The sync states that deploying a site's variables to a repository sets: the
/// site becomes in sync; for a global repository, whose `.env` all sites share,
/// every other site, in order, is no longer.
pub fn mark_active(all_rs: &Vec<String>, rs: &str, repo_is_global: bool) -> (updates: Vec<(String, Sync)>)
    ensures
        sync_updates(updates@) == seq![(rs@, Sync::Synced)] + (if repo_is_global {
            others_unsynced(all_rs@.map_values(|s: String| s@), rs@)
        } else {
            Seq::empty()
        }),
{
    let mut updates: Vec<(String, Sync)> = Vec::new();
    updates.push((rs.to_owned(), Sync::Synced));
    let ghost first = seq![(rs@, Sync::Synced)];
    assert(sync_updates(updates@) =~= first);
    if repo_is_global {
        let ghost all = all_rs@.map_values(|s: String| s@);
        let mut i: usize = 0;
        assert(first + others_unsynced(all.take(0), rs@) =~= first);
        while i < all_rs.len()
            invariant
                i <= all_rs@.len(),
                all == all_rs@.map_values(|s: String| s@),
                first == seq![(rs@, Sync::Synced)],
                sync_updates(updates@) == first + others_unsynced(all.take(i as int), rs@),
            decreases all_rs@.len() - i,
        {
            let other = &all_rs[i];
            proof {
                assert(all.take(i + 1).drop_last() =~= all.take(i as int));
                assert(all.take(i + 1).last() == other@);
            }
            if !same_text(other.as_str(), rs) {
                let ghost prev = updates@;
                updates.push((other.clone(), Sync::Unsynced));
                assert(sync_updates(updates@) =~= sync_updates(prev).push((other@, Sync::Unsynced)));
            }
            i = i + 1;
        }
        assert(all.take(all_rs@.len() as int) =~= all);
    } else {
        assert(first + Seq::<(Seq<char>, Sync)>::empty() =~= first);
    }
    updates
}

/// The sync states to record after a site's variables for a repository were
/// saved and its state recomputed: a site now in sync is the active one, as a
/// deployment makes it (for a global repository, every other site is no longer
/// in sync); otherwise only that site's state changes.
pub fn edited_sync(all_rs: &Vec<String>, rs: &str, repo_is_global: bool, state: Sync) -> (updates: Vec<(String, Sync)>)
    ensures
        sync_updates(updates@) == (if state == Sync::Synced {
            seq![(rs@, Sync::Synced)] + (if repo_is_global {
                others_unsynced(all_rs@.map_values(|s: String| s@), rs@)
            } else {
                Seq::empty()
            })
        } else {
            seq![(rs@, Sync::Unsynced)]
        }),
{
    if state == Sync::Synced {
        mark_active(all_rs, rs, repo_is_global)
    } else {
        let mut v: Vec<(String, Sync)> = Vec::new();
        v.push((rs.to_owned(), Sync::Unsynced));
        assert(sync_updates(v@) =~= seq![(rs@, Sync::Unsynced)]);
        v
    }
}

/// Deploying to a global repository leaves one site in sync for it: every state
/// set after the deployed site's own is "not in sync", for another site, and
/// every other site of the list gets one.
pub proof fn lemma_deploy_leaves_one_active(all: Seq<Seq<char>>, rs: Seq<char>)
    ensures
        forall|i: int| 0 <= i < others_unsynced(all, rs).len() ==>
            (#[trigger] others_unsynced(all, rs)[i]).1 == Sync::Unsynced && others_unsynced(all, rs)[i].0 != rs,
        forall|j: int| 0 <= j < all.len() && all[j] != rs ==> exists|i: int|
            0 <= i < others_unsynced(all, rs).len() && (#[trigger] others_unsynced(all, rs)[i]).0 == #[trigger] all[j],
    decreases all.len(),
{
    if all.len() > 0 {
        let pre_all = all.drop_last();
        lemma_deploy_leaves_one_active(pre_all, rs);
        let pre = others_unsynced(pre_all, rs);
        let cur = others_unsynced(all, rs);
        assert forall|i: int| 0 <= i < cur.len() implies (#[trigger] cur[i]).1 == Sync::Unsynced && cur[i].0 != rs by {
            if i < pre.len() {
                assert(cur[i] == pre[i]);
            }
        }
        assert forall|j: int| 0 <= j < all.len() && all[j] != rs implies exists|i: int|
            0 <= i < cur.len() && (#[trigger] cur[i]).0 == #[trigger] all[j] by {
            if j < pre_all.len() {
                assert(all[j] == pre_all[j]);
                let i = choose|i: int| 0 <= i < pre.len() && (#[trigger] pre[i]).0 == #[trigger] pre_all[j];
                assert(cur[i] == pre[i]);
            } else {
                assert(cur[pre.len() as int].0 == all[j]);
            }
        }
    }
}

} // verus!
