//! The texts that the interactive screens show: pane titles, key hints and the
//! status line. Colours and layout are left to the caller.

use crate::format::{decimal, decimal_string, push_str};
use crate::screen::{Mode, Pane};
use vstd::prelude::*;

verus! {

/// A title with a count: ` <label> [<n>] `.
pub open spec fn counted(label: Seq<char>, n: nat) -> Seq<char> {
    " "@ + label + " ["@ + decimal(n) + "] "@
}

/// A title with a count.
pub fn counted_title(label: &str, n: usize) -> (s: String)
    ensures
        s@ == counted(label@, n as nat),
{
    let mut s = String::new();
    push_str(&mut s, " ");
    push_str(&mut s, label);
    push_str(&mut s, " [");
    push_str(&mut s, decimal_string(n).as_str());
    push_str(&mut s, "] ");
    assert(s@ =~= counted(label@, n as nat));
    s
}

/// The site pane's title: the search while it is typed; the number shown out
/// of all, with the search, while one is set; otherwise the number of sites.
pub open spec fn rs_pane_title_of(mode: Mode, search: Seq<char>, shown: nat, all: nat) -> Seq<char> {
    if mode == Mode::SearchRs {
        " ◈ RS / "@ + search + " "@
    } else if search.len() > 0 {
        " ◈ RS ["@ + decimal(shown) + "/"@ + decimal(all) + "] / "@ + search + " "@
    } else {
        counted("◈ RS"@, all)
    }
}

/// The site pane's title.
pub fn rs_pane_title(mode: Mode, search: &str, shown: usize, all: usize) -> (s: String)
    ensures
        s@ == rs_pane_title_of(mode, search@, shown as nat, all as nat),
{
    if mode == Mode::SearchRs {
        let mut s = String::new();
        push_str(&mut s, " ◈ RS / ");
        push_str(&mut s, search);
        push_str(&mut s, " ");
        assert(s@ =~= rs_pane_title_of(mode, search@, shown as nat, all as nat));
        s
    } else if !search.is_empty() {
        let mut s = String::new();
        push_str(&mut s, " ◈ RS [");
        push_str(&mut s, decimal_string(shown).as_str());
        push_str(&mut s, "/");
        push_str(&mut s, decimal_string(all).as_str());
        push_str(&mut s, "] / ");
        push_str(&mut s, search);
        push_str(&mut s, " ");
        assert(s@ =~= rs_pane_title_of(mode, search@, shown as nat, all as nat));
        s
    } else {
        counted_title("◈ RS", all)
    }
}

/// The repository pane's title: the search while it is typed; otherwise the
/// site, how many repositories are listed out of the global ones, and the
/// search if one is set.
pub open spec fn repos_title_of(mode: Mode, rs: Seq<char>, listed: nat, total: nat, search: Seq<char>) -> Seq<char> {
    if mode == Mode::Search {
        " REPOS / "@ + search + " "@
    } else if search.len() > 0 {
        " REPOS ["@ + rs + "] "@ + decimal(listed) + "/"@ + decimal(total) + " / "@ + search + " "@
    } else {
        " REPOS ["@ + rs + "] "@ + decimal(listed) + "/"@ + decimal(total) + " "@
    }
}

/// The repository pane's title.
pub fn repos_title(mode: Mode, rs: &str, listed: usize, total: usize, search: &str) -> (s: String)
    ensures
        s@ == repos_title_of(mode, rs@, listed as nat, total as nat, search@),
{
    let mut s = String::new();
    if mode == Mode::Search {
        push_str(&mut s, " REPOS / ");
        push_str(&mut s, search);
        push_str(&mut s, " ");
    } else {
        push_str(&mut s, " REPOS [");
        push_str(&mut s, rs);
        push_str(&mut s, "] ");
        push_str(&mut s, decimal_string(listed).as_str());
        push_str(&mut s, "/");
        push_str(&mut s, decimal_string(total).as_str());
        if !search.is_empty() {
            push_str(&mut s, " / ");
            push_str(&mut s, search);
        }
        push_str(&mut s, " ");
    }
    assert(s@ =~= repos_title_of(mode, rs@, listed as nat, total as nat, search@));
    s
}

/// The variable pane's title: ` VARS — <site>/<repo> [<n>] `.
pub open spec fn vars_title_of(rs: Seq<char>, repo: Seq<char>, n: nat) -> Seq<char> {
    " VARS — "@ + rs + "/"@ + repo + " ["@ + decimal(n) + "] "@
}

/// The variable pane's title.
pub fn vars_title(rs: &str, repo: &str, n: usize) -> (s: String)
    ensures
        s@ == vars_title_of(rs@, repo@, n as nat),
{
    let mut s = String::new();
    push_str(&mut s, " VARS — ");
    push_str(&mut s, rs);
    push_str(&mut s, "/");
    push_str(&mut s, repo);
    push_str(&mut s, " [");
    push_str(&mut s, decimal_string(n).as_str());
    push_str(&mut s, "] ");
    assert(s@ =~= vars_title_of(rs@, repo@, n as nat));
    s
}

/// The diff screen's title: ` DIFF — <site>/<repo> (disk → store) `.
pub open spec fn diff_title_of(rs: Seq<char>, repo: Seq<char>) -> Seq<char> {
    " DIFF — "@ + rs + "/"@ + repo + " (disk → store) "@
}

/// The diff screen's title.
pub fn diff_title(rs: &str, repo: &str) -> (s: String)
    ensures
        s@ == diff_title_of(rs@, repo@),
{
    let mut s = String::new();
    push_str(&mut s, " DIFF — ");
    push_str(&mut s, rs);
    push_str(&mut s, "/");
    push_str(&mut s, repo);
    push_str(&mut s, " (disk → store) ");
    assert(s@ =~= diff_title_of(rs@, repo@));
    s
}

/// The key hints of the environment manager, for the search or pane in use.
pub open spec fn env_hint_of(mode: Mode, focus: Pane) -> Seq<char> {
    match mode {
        Mode::SearchRs => " [enter/esc] done  type to filter RS by name or IP"@,
        Mode::Search => " [enter/esc] done searching"@,
        Mode::Normal => match focus {
            Pane::Rs => " [j/k] nav  [/]search RS  [tab/→] repos  [r]efresh  [esc] menu  [q]uit"@,
            Pane::Repos => " [j/k] nav  [a]pply  [A]ll  [e]dit  [d]iff  [v]alues  [/]search  [r]efresh  [tab/→] vars  [esc/←] rs"@,
            Pane::Vars => " [j/k] scroll  [n]ew var  [e]dit bulk  [v]alues  [tab/esc/←] back"@,
        },
    }
}

/// The key hints of the environment manager.
pub fn env_hint(mode: Mode, focus: Pane) -> (s: &'static str)
    ensures
        s@ == env_hint_of(mode, focus),
{
    match mode {
        Mode::SearchRs => " [enter/esc] done  type to filter RS by name or IP",
        Mode::Search => " [enter/esc] done searching",
        Mode::Normal => match focus {
            Pane::Rs => " [j/k] nav  [/]search RS  [tab/→] repos  [r]efresh  [esc] menu  [q]uit",
            Pane::Repos => " [j/k] nav  [a]pply  [A]ll  [e]dit  [d]iff  [v]alues  [/]search  [r]efresh  [tab/→] vars  [esc/←] rs",
            Pane::Vars => " [j/k] scroll  [n]ew var  [e]dit bulk  [v]alues  [tab/esc/←] back",
        },
    }
}

/// The key hints of an open form.
pub open spec fn form_hint_of() -> Seq<char> {
    " [tab] next field  [enter] confirm  [esc] cancel"@
}

/// The key hints of the site manager, with or without its form open.
pub fn rs_mgr_hint(form_open: bool) -> (s: &'static str)
    ensures
        s@ == (if form_open { form_hint_of() } else { " [j/k] nav  [a]dd RS  [d]elete  [enter] open in Env Manager  [esc/q] menu"@ }),
{
    if form_open {
        " [tab] next field  [enter] confirm  [esc] cancel"
    } else {
        " [j/k] nav  [a]dd RS  [d]elete  [enter] open in Env Manager  [esc/q] menu"
    }
}

/// The key hints of the repository manager, with or without its form open.
pub fn repo_mgr_hint(form_open: bool) -> (s: &'static str)
    ensures
        s@ == (if form_open { form_hint_of() } else { " [j/k] nav  [a]dd  [e]dit  [d]elete  [esc/q] menu"@ }),
{
    if form_open {
        " [tab] next field  [enter] confirm  [esc] cancel"
    } else {
        " [j/k] nav  [a]dd  [e]dit  [d]elete  [esc/q] menu"
    }
}

/// The bottom line of a manager: the hints, after the status message if there is one.
pub open spec fn status_line_of(status: Seq<char>, hint: Seq<char>) -> Seq<char> {
    if status.len() == 0 {
        hint
    } else {
        "  "@ + status + "  │"@ + hint
    }
}

/// The bottom line of a manager.
pub fn status_line(status: &str, hint: &str) -> (s: String)
    ensures
        s@ == status_line_of(status@, hint@),
{
    let mut s = String::new();
    if !status.is_empty() {
        push_str(&mut s, "  ");
        push_str(&mut s, status);
        push_str(&mut s, "  │");
    }
    push_str(&mut s, hint);
    assert(s@ =~= status_line_of(status@, hint@));
    s
}

} // verus!
