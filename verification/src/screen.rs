//! The interactive screens as a state machine: a key and the current state give
//! the next state and the work that the caller then does (reading and writing
//! files, reloading lists, showing a message), in order.

use crate::ordered_map::{key_index, lemma_key_index, str_entries, string_map_get_index, string_map_len};
use crate::tui::{
    blank_form, clamp_selection, drop_last_char, form_advances, form_erased, form_tab, form_typed, min_usize, pop_char,
    FormView, RepoForm, RsForm, VarForm,
};
use crate::text::{chars_of, push_char, string_of, trim, trim_chars};
use indexmap::IndexMap;
use vstd::prelude::*;

verus! {

broadcast use lemma_key_index;

/// The screen on show.
#[derive(PartialEq, Eq, Structural, Clone, Copy, Debug)]
pub enum Page {
    Menu,
    EnvManager,
    RsManager,
    RepoManager,
}

/// The pane of the environment manager that takes the keys.
#[derive(PartialEq, Eq, Structural, Clone, Copy, Debug)]
pub enum Pane {
    Rs,
    Repos,
    Vars,
}

/// Whether typing goes to a search.
#[derive(PartialEq, Eq, Structural, Clone, Copy, Debug)]
pub enum Mode {
    Normal,
    /// Typing filters the repositories.
    Search,
    /// Typing filters the sites.
    SearchRs,
}

/// A key press, as the screens tell keys apart.
#[derive(PartialEq, Eq, Structural, Clone, Copy, Debug)]
pub enum Key {
    Char(char),
    Enter,
    Esc,
    Tab,
    Backspace,
    Up,
    Down,
    Left,
    Right,
    /// Control and `c` together.
    CtrlC,
    Other,
}

/// A message for the status line.
#[derive(PartialEq, Eq, Structural, Clone, Copy, Debug)]
pub enum Note {
    Cancelled,
    Refreshed,
    Revealed,
    Masked,
}

/// Work that a key asks of the caller, done in the order given.
pub enum Effect {
    /// Recompute the sites shown for the site search, and keep the selection in range.
    ReloadRsList,
    /// Recompute the repositories listed for the selected site.
    ReloadRepos,
    /// Read the selected repository's variables.
    LoadVars,
    /// Recompute every sync state.
    RefreshSync,
    /// Write the selected repository's `.env`.
    ApplySelected,
    /// Write the `.env` of every repository listed.
    ApplyAll,
    /// Edit the selected repository's variables in an editor.
    OpenEditor,
    /// Compute the diff of the selected repository for the diff screen.
    ShowDiff,
    /// Save the variable that the form holds.
    SubmitVarForm(VarForm),
    /// Add the site that the form holds.
    SubmitRsForm(RsForm),
    /// Add or change the repository that the form holds.
    SubmitRepoForm(RepoForm),
    /// Remove the site selected in the site manager.
    DeleteRs,
    /// Remove the repository selected in the repository manager.
    DeleteRepo,
    /// Show a message.
    Notify(Note),
    /// Clear the status line.
    ClearStatus,
}

/// An effect with its form as contents.
pub enum EffectView {
    ReloadRsList,
    ReloadRepos,
    LoadVars,
    RefreshSync,
    ApplySelected,
    ApplyAll,
    OpenEditor,
    ShowDiff,
    SubmitVarForm(FormView),
    SubmitRsForm(FormView),
    SubmitRepoForm(FormView),
    DeleteRs,
    DeleteRepo,
    Notify(Note),
    ClearStatus,
}

impl View for Effect {
    type V = EffectView;

    open spec fn view(&self) -> EffectView {
        match self {
            Effect::ReloadRsList => EffectView::ReloadRsList,
            Effect::ReloadRepos => EffectView::ReloadRepos,
            Effect::LoadVars => EffectView::LoadVars,
            Effect::RefreshSync => EffectView::RefreshSync,
            Effect::ApplySelected => EffectView::ApplySelected,
            Effect::ApplyAll => EffectView::ApplyAll,
            Effect::OpenEditor => EffectView::OpenEditor,
            Effect::ShowDiff => EffectView::ShowDiff,
            Effect::SubmitVarForm(f) => EffectView::SubmitVarForm(f@),
            Effect::SubmitRsForm(f) => EffectView::SubmitRsForm(f@),
            Effect::SubmitRepoForm(f) => EffectView::SubmitRepoForm(f@),
            Effect::DeleteRs => EffectView::DeleteRs,
            Effect::DeleteRepo => EffectView::DeleteRepo,
            Effect::Notify(n) => EffectView::Notify(*n),
            Effect::ClearStatus => EffectView::ClearStatus,
        }
    }
}

/// The effects as contents.
pub open spec fn effect_views(v: Seq<Effect>) -> Seq<EffectView> {
    v.map_values(|e: Effect| e@)
}

/// How many entries the main menu has.
pub const MENU_LEN: usize = 3;

/// The state of the screens that keys change.
pub struct UiState {
    pub page: Page,
    pub focus: Pane,
    pub mode: Mode,
    /// Whether the diff screen covers the environment manager.
    pub diff_open: bool,
    /// Whether values are shown unmasked.
    pub reveal: bool,
    pub quit: bool,
    /// The site search.
    pub rs_search: String,
    /// The repository search.
    pub search: String,
    pub menu_sel: Option<usize>,
    /// The selection among the sites shown.
    pub rs_sel: Option<usize>,
    /// The selection among the repositories listed.
    pub repo_sel: Option<usize>,
    /// The selection in the site manager, among all sites.
    pub rs_mgr_sel: Option<usize>,
    /// The selection in the repository manager, among the global repositories.
    pub repo_mgr_sel: Option<usize>,
    /// The first variable shown.
    pub vars_scroll: usize,
    pub var_form: Option<VarForm>,
    pub rs_form: Option<RsForm>,
    pub repo_form: Option<RepoForm>,
}

/// The state of the screens as values.
pub struct UiView {
    pub page: Page,
    pub focus: Pane,
    pub mode: Mode,
    pub diff_open: bool,
    pub reveal: bool,
    pub quit: bool,
    pub rs_search: Seq<char>,
    pub search: Seq<char>,
    pub menu_sel: Option<usize>,
    pub rs_sel: Option<usize>,
    pub repo_sel: Option<usize>,
    pub rs_mgr_sel: Option<usize>,
    pub repo_mgr_sel: Option<usize>,
    pub vars_scroll: usize,
    pub var_form: Option<FormView>,
    pub rs_form: Option<FormView>,
    pub repo_form: Option<FormView>,
}

/// A form, if any, as its contents.
pub open spec fn var_form_view(f: Option<VarForm>) -> Option<FormView> {
    match f {
        Some(f) => Some(f@),
        None => None,
    }
}

/// A form, if any, as its contents.
pub open spec fn rs_form_view(f: Option<RsForm>) -> Option<FormView> {
    match f {
        Some(f) => Some(f@),
        None => None,
    }
}

/// A form, if any, as its contents.
pub open spec fn repo_form_view(f: Option<RepoForm>) -> Option<FormView> {
    match f {
        Some(f) => Some(f@),
        None => None,
    }
}

impl View for UiState {
    type V = UiView;

    open spec fn view(&self) -> UiView {
        UiView {
            page: self.page,
            focus: self.focus,
            mode: self.mode,
            diff_open: self.diff_open,
            reveal: self.reveal,
            quit: self.quit,
            rs_search: self.rs_search@,
            search: self.search@,
            menu_sel: self.menu_sel,
            rs_sel: self.rs_sel,
            repo_sel: self.repo_sel,
            rs_mgr_sel: self.rs_mgr_sel,
            repo_mgr_sel: self.repo_mgr_sel,
            vars_scroll: self.vars_scroll,
            var_form: var_form_view(self.var_form),
            rs_form: rs_form_view(self.rs_form),
            repo_form: repo_form_view(self.repo_form),
        }
    }
}

/// The sizes of the lists on show, as the keys need them.
#[derive(PartialEq, Eq, Structural, Clone, Copy, Debug)]
pub struct Shown {
    /// The sites shown for the site search.
    pub rs: usize,
    /// The repositories listed for the selected site.
    pub repos: usize,
    /// The selected repository's variables.
    pub vars: usize,
    /// All sites.
    pub all_rs: usize,
}

/// The position after one step down a list of `len` items from `cur` (or the first).
pub open spec fn step_down(cur: Option<usize>, len: nat) -> usize {
    let c: int = match cur {
        Some(c) => c as int,
        None => 0,
    };
    if c + 1 < len { (c + 1) as usize } else { (len - 1) as usize }
}

/// The position after one step up from `cur` (or the first).
pub open spec fn step_up(cur: Option<usize>) -> usize {
    match cur {
        Some(c) => if c > 0 { (c - 1) as usize } else { 0 },
        None => 0,
    }
}

/// One step down, within a list of `len > 0` items.
fn down_from(cur: Option<usize>, len: usize) -> (r: usize)
    requires
        len > 0,
    ensures
        r == step_down(cur, len as nat),
{
    let c: usize = match cur {
        Some(c) => c,
        None => 0,
    };
    if c < len - 1 { c + 1 } else { len - 1 }
}

/// One step up.
fn up_from(cur: Option<usize>) -> (r: usize)
    ensures
        r == step_up(cur),
{
    match cur {
        Some(c) => if c > 0 { c - 1 } else { 0 },
        None => 0,
    }
}

impl UiState {
    /// The state when the interface starts: the menu, with its first entry, the
    /// first site and the first global repository selected.
    pub fn start(all_rs: usize, global_repos: usize) -> (u: UiState)
        ensures
            u@ == start_view(all_rs, global_repos),
    {
        UiState {
            page: Page::Menu,
            focus: Pane::Rs,
            mode: Mode::Normal,
            diff_open: false,
            reveal: false,
            quit: false,
            rs_search: String::new(),
            search: String::new(),
            menu_sel: Some(0),
            rs_sel: if all_rs > 0 { Some(0) } else { None },
            repo_sel: None,
            rs_mgr_sel: if all_rs > 0 { Some(0) } else { None },
            repo_mgr_sel: if global_repos > 0 { Some(0) } else { None },
            vars_scroll: 0,
            var_form: None,
            rs_form: None,
            repo_form: None,
        }
    }
}

/// The state when the interface starts.
pub open spec fn start_view(all_rs: usize, global_repos: usize) -> UiView {
    UiView {
        page: Page::Menu,
        focus: Pane::Rs,
        mode: Mode::Normal,
        diff_open: false,
        reveal: false,
        quit: false,
        rs_search: Seq::empty(),
        search: Seq::empty(),
        menu_sel: Some(0),
        rs_sel: if all_rs > 0 { Some(0) } else { None },
        repo_sel: None,
        rs_mgr_sel: if all_rs > 0 { Some(0) } else { None },
        repo_mgr_sel: if global_repos > 0 { Some(0) } else { None },
        vars_scroll: 0,
        var_form: None,
        rs_form: None,
        repo_form: None,
    }
}

/// The main menu: `j`/`k` move, Enter or space opens the entry, `1`–`3` open
/// one directly, `q` or Esc quits.
pub open spec fn menu_step(u: UiView, key: Key) -> UiView {
    match key {
        Key::Char('q') | Key::Esc => UiView { quit: true, ..u },
        Key::Char('j') | Key::Down => UiView { menu_sel: Some(step_down(u.menu_sel, MENU_LEN as nat)), ..u },
        Key::Char('k') | Key::Up => UiView { menu_sel: Some(step_up(u.menu_sel)), ..u },
        Key::Enter | Key::Char(' ') => match u.menu_sel {
            Some(0) => UiView { page: Page::EnvManager, ..u },
            Some(1) => UiView { page: Page::RsManager, ..u },
            Some(2) => UiView { page: Page::RepoManager, ..u },
            _ => u,
        },
        Key::Char('1') => UiView { page: Page::EnvManager, ..u },
        Key::Char('2') => UiView { page: Page::RsManager, ..u },
        Key::Char('3') => UiView { page: Page::RepoManager, ..u },
        _ => u,
    }
}

impl UiState {
    /// A key on the main menu.
    pub fn handle_key_menu(&mut self, key: Key)
        ensures
            final(self)@ == menu_step(old(self)@, key),
    {
        match key {
            Key::Char('q') | Key::Esc => self.quit = true,
            Key::Char('j') | Key::Down => self.menu_sel = Some(down_from(self.menu_sel, MENU_LEN)),
            Key::Char('k') | Key::Up => self.menu_sel = Some(up_from(self.menu_sel)),
            Key::Enter | Key::Char(' ') => match self.menu_sel {
                Some(0) => self.page = Page::EnvManager,
                Some(1) => self.page = Page::RsManager,
                Some(2) => self.page = Page::RepoManager,
                _ => {},
            },
            Key::Char('1') => self.page = Page::EnvManager,
            Key::Char('2') => self.page = Page::RsManager,
            Key::Char('3') => self.page = Page::RepoManager,
            _ => {},
        }
    }
}


/// What a key does to an open form.
pub enum FormOutcome {
    /// The form stays open, as given.
    Open(FormView),
    /// Enter on the last field, or on an empty first one: the form closes and is handed on.
    Submitted(FormView),
    /// Esc: the form closes.
    Cancelled,
}

/// A key on an open form: Esc cancels; Enter moves from a filled-in first field
/// to the second and otherwise submits; Tab switches fields; Backspace and
/// characters edit the focused field.
pub open spec fn form_key(f: FormView, key: Key) -> FormOutcome {
    match key {
        Key::Esc => FormOutcome::Cancelled,
        Key::Enter => if form_advances(f) { FormOutcome::Open(form_tab(f)) } else { FormOutcome::Submitted(f) },
        Key::Tab => FormOutcome::Open(form_tab(f)),
        Key::Backspace => FormOutcome::Open(form_erased(f)),
        Key::Char(c) => FormOutcome::Open(form_typed(f, c)),
        _ => FormOutcome::Open(f),
    }
}

/// The form still open after a key, if any.
pub open spec fn open_form(o: FormOutcome) -> Option<FormView> {
    match o {
        FormOutcome::Open(g) => Some(g),
        _ => None,
    }
}

/// The work a key on a form asks for, with the effect that hands a submitted form on.
pub open spec fn form_effects(o: FormOutcome, submit: spec_fn(FormView) -> EffectView) -> Seq<EffectView> {
    match o {
        FormOutcome::Open(_) => Seq::empty(),
        FormOutcome::Submitted(g) => seq![submit(g)],
        FormOutcome::Cancelled => seq![EffectView::Notify(Note::Cancelled)],
    }
}

/// Whether a position selects an item of a list of `len` items.
pub open spec fn selects(sel: Option<usize>, len: nat) -> bool {
    match sel {
        Some(i) => i < len,
        None => false,
    }
}

/// One step up from `cur`, kept within a list of `len > 0` items.
pub open spec fn step_up_within(cur: Option<usize>, len: nat) -> usize {
    let up = step_up(cur);
    if up < len { up } else { (len - 1) as usize }
}

/// The site search: typing and Backspace change it and reload the sites shown,
/// the repositories and the variables; Enter or Esc ends it.
pub open spec fn rs_search_step(u: UiView, key: Key) -> (UiView, Seq<EffectView>) {
    match key {
        Key::Esc | Key::Enter => (
            UiView { mode: Mode::Normal, ..u },
            seq![EffectView::ReloadRepos, EffectView::LoadVars],
        ),
        Key::Backspace => (
            UiView { rs_search: drop_last_char(u.rs_search), ..u },
            seq![EffectView::ReloadRsList, EffectView::ReloadRepos, EffectView::LoadVars],
        ),
        Key::Char(c) => (
            UiView { rs_search: u.rs_search.push(c), ..u },
            seq![EffectView::ReloadRsList, EffectView::ReloadRepos, EffectView::LoadVars],
        ),
        _ => (u, Seq::empty()),
    }
}

/// The repository search: typing and Backspace change it and reload the
/// repositories and the variables; Enter or Esc ends it.
pub open spec fn search_step(u: UiView, key: Key) -> (UiView, Seq<EffectView>) {
    match key {
        Key::Esc | Key::Enter => (UiView { mode: Mode::Normal, ..u }, Seq::empty()),
        Key::Backspace => (
            UiView { search: drop_last_char(u.search), ..u },
            seq![EffectView::ReloadRepos, EffectView::LoadVars],
        ),
        Key::Char(c) => (
            UiView { search: u.search.push(c), ..u },
            seq![EffectView::ReloadRepos, EffectView::LoadVars],
        ),
        _ => (u, Seq::empty()),
    }
}

/// The site pane.
pub open spec fn rs_pane_step(u: UiView, key: Key, s: Shown) -> (UiView, Seq<EffectView>) {
    match key {
        Key::Char('q') => (UiView { quit: true, ..u }, Seq::empty()),
        Key::Esc => if u.rs_search.len() == 0 {
            (UiView { page: Page::Menu, ..u }, seq![EffectView::ClearStatus])
        } else {
            (
                UiView { rs_search: Seq::empty(), ..u },
                seq![EffectView::ReloadRsList, EffectView::ReloadRepos, EffectView::LoadVars],
            )
        },
        Key::Char('j') | Key::Down => if s.rs == 0 {
            (u, Seq::empty())
        } else {
            (UiView { rs_sel: Some(step_down(u.rs_sel, s.rs as nat)), ..u }, seq![EffectView::ReloadRepos, EffectView::LoadVars])
        },
        Key::Char('k') | Key::Up => if s.rs == 0 {
            (u, Seq::empty())
        } else {
            (UiView { rs_sel: Some(step_up_within(u.rs_sel, s.rs as nat)), ..u }, seq![EffectView::ReloadRepos, EffectView::LoadVars])
        },
        Key::Tab | Key::Right => if s.repos > 0 { (UiView { focus: Pane::Repos, ..u }, Seq::empty()) } else { (u, Seq::empty()) },
        Key::Char('/') => (UiView { mode: Mode::SearchRs, rs_search: Seq::empty(), ..u }, seq![EffectView::ReloadRsList]),
        Key::Char('r') => (u, seq![EffectView::RefreshSync, EffectView::Notify(Note::Refreshed)]),
        _ => (u, Seq::empty()),
    }
}

/// The repository pane.
pub open spec fn repos_pane_step(u: UiView, key: Key, s: Shown) -> (UiView, Seq<EffectView>) {
    let both = selects(u.rs_sel, s.rs as nat) && selects(u.repo_sel, s.repos as nat);
    match key {
        Key::Char('q') | Key::Left => (UiView { focus: Pane::Rs, ..u }, Seq::empty()),
        Key::Esc => if u.search.len() == 0 {
            (UiView { focus: Pane::Rs, ..u }, Seq::empty())
        } else {
            (UiView { search: Seq::empty(), ..u }, seq![EffectView::ReloadRepos, EffectView::LoadVars])
        },
        Key::Char('j') | Key::Down => if s.repos == 0 {
            (u, Seq::empty())
        } else {
            (UiView { repo_sel: Some(step_down(u.repo_sel, s.repos as nat)), ..u }, seq![EffectView::LoadVars])
        },
        Key::Char('k') | Key::Up => if s.repos == 0 {
            (u, Seq::empty())
        } else {
            (UiView { repo_sel: Some(step_up_within(u.repo_sel, s.repos as nat)), ..u }, seq![EffectView::LoadVars])
        },
        Key::Tab | Key::Right => if selects(u.repo_sel, s.repos as nat) {
            (UiView { focus: Pane::Vars, ..u }, Seq::empty())
        } else {
            (u, Seq::empty())
        },
        Key::Char('/') => (
            UiView { mode: Mode::Search, search: Seq::empty(), ..u },
            seq![EffectView::ReloadRepos, EffectView::LoadVars],
        ),
        Key::Char('a') => if both { (u, seq![EffectView::ApplySelected]) } else { (u, Seq::empty()) },
        Key::Char('A') => if selects(u.rs_sel, s.rs as nat) { (u, seq![EffectView::ApplyAll]) } else { (u, Seq::empty()) },
        Key::Char('e') => if both { (u, seq![EffectView::OpenEditor]) } else { (u, Seq::empty()) },
        Key::Char('d') => if both { (UiView { diff_open: true, ..u }, seq![EffectView::ShowDiff]) } else { (u, Seq::empty()) },
        Key::Char('v') => (
            UiView { reveal: !u.reveal, ..u },
            seq![EffectView::Notify(if u.reveal { Note::Masked } else { Note::Revealed })],
        ),
        Key::Char('r') => (u, seq![EffectView::RefreshSync, EffectView::Notify(Note::Refreshed)]),
        _ => (u, Seq::empty()),
    }
}

/// The variable pane.
pub open spec fn vars_pane_step(u: UiView, key: Key, s: Shown) -> (UiView, Seq<EffectView>) {
    match key {
        Key::Char('q') | Key::Esc | Key::Left | Key::Tab => (UiView { focus: Pane::Repos, ..u }, Seq::empty()),
        Key::Char('j') | Key::Down => if u.vars_scroll + 1 < s.vars {
            (UiView { vars_scroll: (u.vars_scroll + 1) as usize, ..u }, Seq::empty())
        } else {
            (u, Seq::empty())
        },
        Key::Char('k') | Key::Up => (UiView { vars_scroll: step_up(Some(u.vars_scroll)), ..u }, Seq::empty()),
        Key::Char('e') => if selects(u.rs_sel, s.rs as nat) && selects(u.repo_sel, s.repos as nat) {
            (u, seq![EffectView::OpenEditor])
        } else {
            (u, Seq::empty())
        },
        Key::Char('v') => (UiView { reveal: !u.reveal, ..u }, Seq::empty()),
        Key::Char('n') => if selects(u.repo_sel, s.repos as nat) {
            (UiView { var_form: Some(blank_form()), ..u }, seq![EffectView::ClearStatus])
        } else {
            (u, Seq::empty())
        },
        _ => (u, Seq::empty()),
    }
}

/// The environment manager: the diff screen closes on any key; an open form
/// takes the keys; then a search; then the focused pane.
pub open spec fn env_step(u: UiView, key: Key, s: Shown) -> (UiView, Seq<EffectView>) {
    if u.diff_open {
        (UiView { diff_open: false, ..u }, Seq::empty())
    } else if u.var_form is Some {
        let o = form_key(u.var_form->0, key);
        (UiView { var_form: open_form(o), ..u }, form_effects(o, |g: FormView| EffectView::SubmitVarForm(g)))
    } else if u.mode == Mode::SearchRs {
        rs_search_step(u, key)
    } else if u.mode == Mode::Search {
        search_step(u, key)
    } else {
        match u.focus {
            Pane::Rs => rs_pane_step(u, key, s),
            Pane::Repos => repos_pane_step(u, key, s),
            Pane::Vars => vars_pane_step(u, key, s),
        }
    }
}

/// The site manager: an open form takes the keys; otherwise `j`/`k` move, `a`
/// opens the form, `d` removes the selected site, Enter opens it in the
/// environment manager, `q` or Esc goes back to the menu.
pub open spec fn rs_mgr_step(u: UiView, key: Key, s: Shown) -> (UiView, Seq<EffectView>) {
    if u.rs_form is Some {
        let o = form_key(u.rs_form->0, key);
        (UiView { rs_form: open_form(o), ..u }, form_effects(o, |g: FormView| EffectView::SubmitRsForm(g)))
    } else {
        match key {
            Key::Char('q') | Key::Esc => (UiView { page: Page::Menu, ..u }, seq![EffectView::ClearStatus]),
            Key::Char('j') | Key::Down => if s.all_rs > 0 {
                (UiView { rs_mgr_sel: Some(step_down(u.rs_mgr_sel, s.all_rs as nat)), ..u }, Seq::empty())
            } else {
                (u, Seq::empty())
            },
            Key::Char('k') | Key::Up => if s.all_rs > 0 {
                (UiView { rs_mgr_sel: Some(step_up(u.rs_mgr_sel)), ..u }, Seq::empty())
            } else {
                (u, Seq::empty())
            },
            Key::Char('a') => (UiView { rs_form: Some(blank_form()), ..u }, seq![EffectView::ClearStatus]),
            Key::Char('d') => if selects(u.rs_mgr_sel, s.all_rs as nat) { (u, seq![EffectView::DeleteRs]) } else { (u, Seq::empty()) },
            Key::Enter => if selects(u.rs_mgr_sel, s.all_rs as nat) {
                (
                    UiView { rs_sel: u.rs_mgr_sel, focus: Pane::Rs, page: Page::EnvManager, ..u },
                    seq![EffectView::ReloadRepos, EffectView::LoadVars],
                )
            } else {
                (u, Seq::empty())
            },
            _ => (u, Seq::empty()),
        }
    }
}

/// The form for editing the global repository at `i`: filled in, the path focused.
pub open spec fn edit_form(repos: Seq<(Seq<char>, Seq<char>)>, i: int) -> FormView {
    FormView { first: repos[i].0, second: repos[i].1, on_first: false, editing: Some(repos[i].0) }
}

/// The repository manager over the global repositories: an open form takes the
/// keys; otherwise `j`/`k` move, `a` opens an empty form, `e` one for the
/// selected repository, `d` removes it, `q` or Esc goes back to the menu.
pub open spec fn repo_mgr_step(u: UiView, key: Key, repos: Seq<(Seq<char>, Seq<char>)>) -> (UiView, Seq<EffectView>) {
    if u.repo_form is Some {
        let o = form_key(u.repo_form->0, key);
        (UiView { repo_form: open_form(o), ..u }, form_effects(o, |g: FormView| EffectView::SubmitRepoForm(g)))
    } else {
        match key {
            Key::Char('q') | Key::Esc => (UiView { page: Page::Menu, ..u }, seq![EffectView::ClearStatus]),
            Key::Char('j') | Key::Down => if repos.len() > 0 {
                (UiView { repo_mgr_sel: Some(step_down(u.repo_mgr_sel, repos.len())), ..u }, Seq::empty())
            } else {
                (u, Seq::empty())
            },
            Key::Char('k') | Key::Up => if repos.len() > 0 {
                (UiView { repo_mgr_sel: Some(step_up(u.repo_mgr_sel)), ..u }, Seq::empty())
            } else {
                (u, Seq::empty())
            },
            Key::Char('a') => (UiView { repo_form: Some(blank_form()), ..u }, seq![EffectView::ClearStatus]),
            Key::Char('e') => match u.repo_mgr_sel {
                Some(i) => if i < repos.len() {
                    (UiView { repo_form: Some(edit_form(repos, i as int)), ..u }, seq![EffectView::ClearStatus])
                } else {
                    (u, Seq::empty())
                },
                None => (u, Seq::empty()),
            },
            Key::Char('d') => if selects(u.repo_mgr_sel, repos.len()) { (u, seq![EffectView::DeleteRepo]) } else { (u, Seq::empty()) },
            _ => (u, Seq::empty()),
        }
    }
}

/// A key anywhere: Control-C quits; otherwise the page on show takes it.
pub open spec fn key_step(u: UiView, key: Key, s: Shown, repos: Seq<(Seq<char>, Seq<char>)>) -> (UiView, Seq<EffectView>) {
    if key == Key::CtrlC {
        (UiView { quit: true, ..u }, Seq::empty())
    } else {
        match u.page {
            Page::Menu => (menu_step(u, key), Seq::empty()),
            Page::EnvManager => env_step(u, key, s),
            Page::RsManager => rs_mgr_step(u, key, s),
            Page::RepoManager => repo_mgr_step(u, key, repos),
        }
    }
}


/// No work.
fn no_effects() -> (r: Vec<Effect>)
    ensures
        effect_views(r@) == Seq::<EffectView>::empty(),
{
    let r: Vec<Effect> = Vec::new();
    assert(effect_views(r@) =~= Seq::<EffectView>::empty());
    r
}

/// One piece of work.
fn one_effect(a: Effect) -> (r: Vec<Effect>)
    ensures
        effect_views(r@) == seq![a@],
{
    let mut r: Vec<Effect> = Vec::new();
    r.push(a);
    assert(effect_views(r@) =~= seq![a@]);
    r
}

/// Two pieces of work, in order.
fn two_effects(a: Effect, b: Effect) -> (r: Vec<Effect>)
    ensures
        effect_views(r@) == seq![a@, b@],
{
    let mut r: Vec<Effect> = Vec::new();
    r.push(a);
    r.push(b);
    assert(effect_views(r@) =~= seq![a@, b@]);
    r
}

/// Three pieces of work, in order.
fn three_effects(a: Effect, b: Effect, c: Effect) -> (r: Vec<Effect>)
    ensures
        effect_views(r@) == seq![a@, b@, c@],
{
    let mut r: Vec<Effect> = Vec::new();
    r.push(a);
    r.push(b);
    r.push(c);
    assert(effect_views(r@) =~= seq![a@, b@, c@]);
    r
}

/// A key on the open variable form: the form after it, if still open, and the work it asks for.
fn var_form_key(f: VarForm, key: Key) -> (r: (Option<VarForm>, Vec<Effect>))
    ensures
        var_form_view(r.0) == open_form(form_key(f@, key)),
        effect_views(r.1@) == form_effects(form_key(f@, key), |g: FormView| EffectView::SubmitVarForm(g)),
{
    let mut f = f;
    match key {
        Key::Esc => (None, one_effect(Effect::Notify(Note::Cancelled))),
        Key::Enter => if f.enter_advances() {
            f.tab();
            (Some(f), no_effects())
        } else {
            let ghost g = f@;
            let r = one_effect(Effect::SubmitVarForm(f));
            assert(effect_views(r@) == seq![EffectView::SubmitVarForm(g)]);
            (None, r)
        },
        Key::Tab => {
            f.tab();
            (Some(f), no_effects())
        },
        Key::Backspace => {
            f.backspace();
            (Some(f), no_effects())
        },
        Key::Char(c) => {
            f.type_char(c);
            (Some(f), no_effects())
        },
        _ => (Some(f), no_effects()),
    }
}

/// A key on the open site form.
fn rs_form_key(f: RsForm, key: Key) -> (r: (Option<RsForm>, Vec<Effect>))
    ensures
        rs_form_view(r.0) == open_form(form_key(f@, key)),
        effect_views(r.1@) == form_effects(form_key(f@, key), |g: FormView| EffectView::SubmitRsForm(g)),
{
    let mut f = f;
    match key {
        Key::Esc => (None, one_effect(Effect::Notify(Note::Cancelled))),
        Key::Enter => if f.enter_advances() {
            f.tab();
            (Some(f), no_effects())
        } else {
            let ghost g = f@;
            let r = one_effect(Effect::SubmitRsForm(f));
            assert(effect_views(r@) == seq![EffectView::SubmitRsForm(g)]);
            (None, r)
        },
        Key::Tab => {
            f.tab();
            (Some(f), no_effects())
        },
        Key::Backspace => {
            f.backspace();
            (Some(f), no_effects())
        },
        Key::Char(c) => {
            f.type_char(c);
            (Some(f), no_effects())
        },
        _ => (Some(f), no_effects()),
    }
}

/// A key on the open repository form.
fn repo_form_key(f: RepoForm, key: Key) -> (r: (Option<RepoForm>, Vec<Effect>))
    ensures
        repo_form_view(r.0) == open_form(form_key(f@, key)),
        effect_views(r.1@) == form_effects(form_key(f@, key), |g: FormView| EffectView::SubmitRepoForm(g)),
{
    let mut f = f;
    match key {
        Key::Esc => (None, one_effect(Effect::Notify(Note::Cancelled))),
        Key::Enter => if f.enter_advances() {
            f.tab();
            (Some(f), no_effects())
        } else {
            let ghost g = f@;
            let r = one_effect(Effect::SubmitRepoForm(f));
            assert(effect_views(r@) == seq![EffectView::SubmitRepoForm(g)]);
            (None, r)
        },
        Key::Tab => {
            f.tab();
            (Some(f), no_effects())
        },
        Key::Backspace => {
            f.backspace();
            (Some(f), no_effects())
        },
        Key::Char(c) => {
            f.type_char(c);
            (Some(f), no_effects())
        },
        _ => (Some(f), no_effects()),
    }
}

/// One step up, within a list of `len > 0` items.
fn up_within(cur: Option<usize>, len: usize) -> (r: usize)
    requires
        len > 0,
    ensures
        r == step_up_within(cur, len as nat),
{
    let up = up_from(cur);
    if up < len { up } else { len - 1 }
}

/// Whether a position selects an item of a list of `len` items.
fn in_list(sel: Option<usize>, len: usize) -> (b: bool)
    ensures
        b == selects(sel, len as nat),
{
    match sel {
        Some(i) => i < len,
        None => false,
    }
}


impl UiState {
    /// A key during the site search.
    fn key_rs_search(&mut self, key: Key) -> (r: Vec<Effect>)
        ensures
            final(self)@ == rs_search_step(old(self)@, key).0,
            effect_views(r@) == rs_search_step(old(self)@, key).1,
    {
        match key {
            Key::Esc | Key::Enter => {
                self.mode = Mode::Normal;
                two_effects(Effect::ReloadRepos, Effect::LoadVars)
            },
            Key::Backspace => {
                pop_char(&mut self.rs_search);
                three_effects(Effect::ReloadRsList, Effect::ReloadRepos, Effect::LoadVars)
            },
            Key::Char(c) => {
                push_char(&mut self.rs_search, c);
                three_effects(Effect::ReloadRsList, Effect::ReloadRepos, Effect::LoadVars)
            },
            _ => no_effects(),
        }
    }

    /// A key during the repository search.
    fn key_search(&mut self, key: Key) -> (r: Vec<Effect>)
        ensures
            final(self)@ == search_step(old(self)@, key).0,
            effect_views(r@) == search_step(old(self)@, key).1,
    {
        match key {
            Key::Esc | Key::Enter => {
                self.mode = Mode::Normal;
                no_effects()
            },
            Key::Backspace => {
                pop_char(&mut self.search);
                two_effects(Effect::ReloadRepos, Effect::LoadVars)
            },
            Key::Char(c) => {
                push_char(&mut self.search, c);
                two_effects(Effect::ReloadRepos, Effect::LoadVars)
            },
            _ => no_effects(),
        }
    }

    /// A key on the site pane.
    fn key_rs_pane(&mut self, key: Key, s: Shown) -> (r: Vec<Effect>)
        ensures
            final(self)@ == rs_pane_step(old(self)@, key, s).0,
            effect_views(r@) == rs_pane_step(old(self)@, key, s).1,
    {
        match key {
            Key::Char('q') => {
                self.quit = true;
                no_effects()
            },
            Key::Esc => {
                if self.rs_search.as_str().is_empty() {
                    self.page = Page::Menu;
                    one_effect(Effect::ClearStatus)
                } else {
                    self.rs_search = String::new();
                    three_effects(Effect::ReloadRsList, Effect::ReloadRepos, Effect::LoadVars)
                }
            },
            Key::Char('j') | Key::Down => {
                if s.rs == 0 {
                    no_effects()
                } else {
                    self.rs_sel = Some(down_from(self.rs_sel, s.rs));
                    two_effects(Effect::ReloadRepos, Effect::LoadVars)
                }
            },
            Key::Char('k') | Key::Up => {
                if s.rs == 0 {
                    no_effects()
                } else {
                    self.rs_sel = Some(up_within(self.rs_sel, s.rs));
                    two_effects(Effect::ReloadRepos, Effect::LoadVars)
                }
            },
            Key::Tab | Key::Right => {
                if s.repos > 0 {
                    self.focus = Pane::Repos;
                }
                no_effects()
            },
            Key::Char('/') => {
                self.mode = Mode::SearchRs;
                self.rs_search = String::new();
                one_effect(Effect::ReloadRsList)
            },
            Key::Char('r') => two_effects(Effect::RefreshSync, Effect::Notify(Note::Refreshed)),
            _ => no_effects(),
        }
    }

    /// A key on the repository pane.
    fn key_repos_pane(&mut self, key: Key, s: Shown) -> (r: Vec<Effect>)
        ensures
            final(self)@ == repos_pane_step(old(self)@, key, s).0,
            effect_views(r@) == repos_pane_step(old(self)@, key, s).1,
    {
        let both = in_list(self.rs_sel, s.rs) && in_list(self.repo_sel, s.repos);
        match key {
            Key::Char('q') | Key::Left => {
                self.focus = Pane::Rs;
                no_effects()
            },
            Key::Esc => {
                if self.search.as_str().is_empty() {
                    self.focus = Pane::Rs;
                    no_effects()
                } else {
                    self.search = String::new();
                    two_effects(Effect::ReloadRepos, Effect::LoadVars)
                }
            },
            Key::Char('j') | Key::Down => {
                if s.repos == 0 {
                    no_effects()
                } else {
                    self.repo_sel = Some(down_from(self.repo_sel, s.repos));
                    one_effect(Effect::LoadVars)
                }
            },
            Key::Char('k') | Key::Up => {
                if s.repos == 0 {
                    no_effects()
                } else {
                    self.repo_sel = Some(up_within(self.repo_sel, s.repos));
                    one_effect(Effect::LoadVars)
                }
            },
            Key::Tab | Key::Right => {
                if in_list(self.repo_sel, s.repos) {
                    self.focus = Pane::Vars;
                }
                no_effects()
            },
            Key::Char('/') => {
                self.mode = Mode::Search;
                self.search = String::new();
                two_effects(Effect::ReloadRepos, Effect::LoadVars)
            },
            Key::Char('a') => if both { one_effect(Effect::ApplySelected) } else { no_effects() },
            Key::Char('A') => if in_list(self.rs_sel, s.rs) { one_effect(Effect::ApplyAll) } else { no_effects() },
            Key::Char('e') => if both { one_effect(Effect::OpenEditor) } else { no_effects() },
            Key::Char('d') => {
                if both {
                    self.diff_open = true;
                    one_effect(Effect::ShowDiff)
                } else {
                    no_effects()
                }
            },
            Key::Char('v') => {
                let note = if self.reveal { Note::Masked } else { Note::Revealed };
                self.reveal = !self.reveal;
                one_effect(Effect::Notify(note))
            },
            Key::Char('r') => two_effects(Effect::RefreshSync, Effect::Notify(Note::Refreshed)),
            _ => no_effects(),
        }
    }

    /// A key on the variable pane.
    fn key_vars_pane(&mut self, key: Key, s: Shown) -> (r: Vec<Effect>)
        ensures
            final(self)@ == vars_pane_step(old(self)@, key, s).0,
            effect_views(r@) == vars_pane_step(old(self)@, key, s).1,
    {
        match key {
            Key::Char('q') | Key::Esc | Key::Left | Key::Tab => {
                self.focus = Pane::Repos;
                no_effects()
            },
            Key::Char('j') | Key::Down => {
                if s.vars > 0 && self.vars_scroll < s.vars - 1 {
                    self.vars_scroll = self.vars_scroll + 1;
                }
                no_effects()
            },
            Key::Char('k') | Key::Up => {
                self.vars_scroll = up_from(Some(self.vars_scroll));
                no_effects()
            },
            Key::Char('e') => {
                if in_list(self.rs_sel, s.rs) && in_list(self.repo_sel, s.repos) {
                    one_effect(Effect::OpenEditor)
                } else {
                    no_effects()
                }
            },
            Key::Char('v') => {
                self.reveal = !self.reveal;
                no_effects()
            },
            Key::Char('n') => {
                if in_list(self.repo_sel, s.repos) {
                    self.var_form = Some(VarForm::new());
                    one_effect(Effect::ClearStatus)
                } else {
                    no_effects()
                }
            },
            _ => no_effects(),
        }
    }

    /// A key on the environment manager.
    pub fn handle_key_env(&mut self, key: Key, s: Shown) -> (r: Vec<Effect>)
        ensures
            final(self)@ == env_step(old(self)@, key, s).0,
            effect_views(r@) == env_step(old(self)@, key, s).1,
    {
        if self.diff_open {
            self.diff_open = false;
            return no_effects();
        }
        match self.var_form.take() {
            Some(f) => {
                let (g, r) = var_form_key(f, key);
                self.var_form = g;
                return r;
            },
            None => {},
        }
        match self.mode {
            Mode::SearchRs => self.key_rs_search(key),
            Mode::Search => self.key_search(key),
            Mode::Normal => match self.focus {
                Pane::Rs => self.key_rs_pane(key, s),
                Pane::Repos => self.key_repos_pane(key, s),
                Pane::Vars => self.key_vars_pane(key, s),
            },
        }
    }

    /// A key on the site manager.
    pub fn handle_key_rs_mgr(&mut self, key: Key, s: Shown) -> (r: Vec<Effect>)
        ensures
            final(self)@ == rs_mgr_step(old(self)@, key, s).0,
            effect_views(r@) == rs_mgr_step(old(self)@, key, s).1,
    {
        match self.rs_form.take() {
            Some(f) => {
                let (g, r) = rs_form_key(f, key);
                self.rs_form = g;
                return r;
            },
            None => {},
        }
        match key {
            Key::Char('q') | Key::Esc => {
                self.page = Page::Menu;
                one_effect(Effect::ClearStatus)
            },
            Key::Char('j') | Key::Down => {
                if s.all_rs > 0 {
                    self.rs_mgr_sel = Some(down_from(self.rs_mgr_sel, s.all_rs));
                }
                no_effects()
            },
            Key::Char('k') | Key::Up => {
                if s.all_rs > 0 {
                    self.rs_mgr_sel = Some(up_from(self.rs_mgr_sel));
                }
                no_effects()
            },
            Key::Char('a') => {
                self.rs_form = Some(RsForm::new());
                one_effect(Effect::ClearStatus)
            },
            Key::Char('d') => if in_list(self.rs_mgr_sel, s.all_rs) { one_effect(Effect::DeleteRs) } else { no_effects() },
            Key::Enter => {
                if in_list(self.rs_mgr_sel, s.all_rs) {
                    self.rs_sel = self.rs_mgr_sel;
                    self.focus = Pane::Rs;
                    self.page = Page::EnvManager;
                    two_effects(Effect::ReloadRepos, Effect::LoadVars)
                } else {
                    no_effects()
                }
            },
            _ => no_effects(),
        }
    }

    /// A key on the repository manager, over the global repositories.
    pub fn handle_key_repo_mgr(&mut self, key: Key, repos: &IndexMap<String, String>) -> (r: Vec<Effect>)
        ensures
            final(self)@ == repo_mgr_step(old(self)@, key, str_entries(*repos)).0,
            effect_views(r@) == repo_mgr_step(old(self)@, key, str_entries(*repos)).1,
    {
        match self.repo_form.take() {
            Some(f) => {
                let (g, r) = repo_form_key(f, key);
                self.repo_form = g;
                return r;
            },
            None => {},
        }
        let n = string_map_len(repos);
        match key {
            Key::Char('q') | Key::Esc => {
                self.page = Page::Menu;
                one_effect(Effect::ClearStatus)
            },
            Key::Char('j') | Key::Down => {
                if n > 0 {
                    self.repo_mgr_sel = Some(down_from(self.repo_mgr_sel, n));
                }
                no_effects()
            },
            Key::Char('k') | Key::Up => {
                if n > 0 {
                    self.repo_mgr_sel = Some(up_from(self.repo_mgr_sel));
                }
                no_effects()
            },
            Key::Char('a') => {
                self.repo_form = Some(RepoForm::new());
                one_effect(Effect::ClearStatus)
            },
            Key::Char('e') => match self.repo_mgr_sel {
                Some(i) => match string_map_get_index(repos, i) {
                    Some((name, path)) => {
                        self.repo_form = Some(RepoForm::edit(name.as_str(), path.as_str()));
                        one_effect(Effect::ClearStatus)
                    },
                    None => no_effects(),
                },
                None => no_effects(),
            },
            Key::Char('d') => if in_list(self.repo_mgr_sel, n) { one_effect(Effect::DeleteRepo) } else { no_effects() },
            _ => no_effects(),
        }
    }

    /// A key, on whatever page is on show; `s` gives the sizes of the lists on
    /// show and `repos` the global repositories.
    pub fn handle_key(&mut self, key: Key, s: Shown, repos: &IndexMap<String, String>) -> (r: Vec<Effect>)
        ensures
            final(self)@ == key_step(old(self)@, key, s, str_entries(*repos)).0,
            effect_views(r@) == key_step(old(self)@, key, s, str_entries(*repos)).1,
    {
        if key == Key::CtrlC {
            self.quit = true;
            return no_effects();
        }
        match self.page {
            Page::Menu => {
                self.handle_key_menu(key);
                no_effects()
            },
            Page::EnvManager => self.handle_key_env(key, s),
            Page::RsManager => self.handle_key_rs_mgr(key, s),
            Page::RepoManager => self.handle_key_repo_mgr(key, repos),
        }
    }
}


/// Moving along a list never leaves it: a step down or up in a list of
/// `len > 0` items ends on one of its items.
pub proof fn lemma_steps_stay_in_list(cur: Option<usize>, len: nat)
    requires
        len > 0,
    ensures
        step_down(cur, len) < len,
        step_up_within(cur, len) < len,
{
}

/// Where `name` first occurs among `names`.
pub fn position_of(names: &Vec<String>, name: &str) -> (r: Option<usize>)
    ensures
        match r {
            Some(i) => i < names@.len() && names@[i as int]@ == name@
                && forall|j: int| 0 <= j < i ==> #[trigger] names@[j]@ != name@,
            None => forall|j: int| 0 <= j < names@.len() ==> #[trigger] names@[j]@ != name@,
        },
{
    let n = names.len();
    let mut i: usize = 0;
    while i < n
        invariant
            i <= n,
            n == names@.len(),
            forall|j: int| 0 <= j < i ==> #[trigger] names@[j]@ != name@,
        decreases n - i,
    {
        if crate::text::same_text(names[i].as_str(), name) {
            return Some(i);
        }
        i = i + 1;
    }
    None
}


/// A text without surrounding white space.
fn trimmed(s: &str) -> (r: String)
    ensures
        r@ == trim(s@),
{
    let v = trim_chars(chars_of(s).as_slice());
    string_of(v.as_slice())
}

/// The fields of a submitted form without surrounding white space; none when
/// the first is then empty, or the second is required and then empty.
pub fn submitted_fields(first: &str, second: &str, second_required: bool) -> (r: Option<(String, String)>)
    ensures
        r is None <==> (trim(first@).len() == 0 || (second_required && trim(second@).len() == 0)),
        r matches Some(p) ==> p.0@ == trim(first@) && p.1@ == trim(second@),
{
    let a = trimmed(first);
    let b = trimmed(second);
    if a.as_str().is_empty() || (second_required && b.as_str().is_empty()) {
        None
    } else {
        Some((a, b))
    }
}

/// A selection kept in step with a list that changed: none for an empty list,
/// otherwise the current one (or the first) moved into range.
pub open spec fn clamped(cur: Option<usize>, len: usize) -> Option<usize> {
    if len == 0 {
        None
    } else {
        Some(min_usize(match cur {
            Some(c) => c,
            None => 0,
        }, (len - 1) as usize))
    }
}

/// The first position of `name` among `names`, or the first position when it is not there.
pub open spec fn position_or_first(names: Seq<Seq<char>>, name: Seq<char>) -> usize {
    if exists|i: int| 0 <= i < names.len() && names[i] == name {
        (choose|i: int| 0 <= i < names.len() && names[i] == name && forall|j: int| 0 <= j < i ==> names[j] != name) as usize
    } else {
        0
    }
}

/// Where `name` first occurs among `names`, or 0.
fn position_or_zero(names: &Vec<String>, name: &str) -> (r: usize)
    ensures
        r == position_or_first(names@.map_values(|s: String| s@), name@),
{
    let ghost v = names@.map_values(|s: String| s@);
    match position_of(names, name) {
        Some(i) => {
            proof {
                assert(v[i as int] == name@);
                let k = choose|k: int| 0 <= k < v.len() && v[k] == name@ && forall|j: int| 0 <= j < k ==> v[j] != name@;
                if k < i {
                    assert(names@[k]@ == v[k]);
                }
                if i < k {
                    assert(v[i as int] != name@);
                }
            }
            i
        },
        None => {
            proof {
                assert forall|i: int| 0 <= i < v.len() implies v[i] != name@ by {
                    assert(v[i] == names@[i]@);
                }
            }
            0
        },
    }
}

impl UiState {
    /// The sites shown were recomputed: the site selection follows.
    pub fn rs_list_reloaded(&mut self, shown: usize)
        ensures
            final(self)@ == (UiView { rs_sel: clamped(old(self)@.rs_sel, shown), ..old(self)@ }),
    {
        self.rs_sel = clamp_selection(shown, self.rs_sel);
    }

    /// The repositories listed were recomputed (none when no site is selected):
    /// the repository selection follows.
    pub fn repos_reloaded(&mut self, listed: usize)
        ensures
            final(self)@ == (UiView { repo_sel: clamped(old(self)@.repo_sel, listed), ..old(self)@ }),
    {
        self.repo_sel = clamp_selection(listed, self.repo_sel);
    }

    /// The selected repository's variables were read: they are shown from the first.
    pub fn vars_loaded(&mut self)
        ensures
            final(self)@ == (UiView { vars_scroll: 0, ..old(self)@ }),
    {
        self.vars_scroll = 0;
    }

    /// A site was added: both site lists select it (or their first entry).
    pub fn rs_added(&mut self, all_rs: &Vec<String>, shown: &Vec<String>, name: &str)
        ensures
            final(self)@ == (UiView {
                rs_mgr_sel: Some(position_or_first(all_rs@.map_values(|s: String| s@), name@)),
                rs_sel: Some(position_or_first(shown@.map_values(|s: String| s@), name@)),
                ..old(self)@
            }),
    {
        self.rs_mgr_sel = Some(position_or_zero(all_rs, name));
        self.rs_sel = Some(position_or_zero(shown, name));
    }

    /// A site was removed: both site selections follow their lists.
    pub fn rs_deleted(&mut self, all_rs: usize, shown: usize)
        ensures
            final(self)@ == (UiView {
                rs_mgr_sel: clamped(old(self)@.rs_mgr_sel, all_rs),
                rs_sel: clamped(old(self)@.rs_sel, shown),
                ..old(self)@
            }),
    {
        self.rs_mgr_sel = clamp_selection(all_rs, self.rs_mgr_sel);
        self.rs_sel = clamp_selection(shown, self.rs_sel);
    }

    /// A global repository was saved: the repository manager selects it (or the first).
    pub fn repo_saved(&mut self, repos: &IndexMap<String, String>, name: &str)
        ensures
            final(self)@ == (UiView {
                repo_mgr_sel: Some(match key_index(str_entries(*repos), name@) {
                    Some(i) => i as usize,
                    None => 0,
                }),
                ..old(self)@
            }),
    {
        let n = string_map_len(repos);
        let mut i: usize = 0;
        let mut found: usize = 0;
        let mut done = false;
        while i < n
            invariant
                i <= n,
                n == str_entries(*repos).len(),
                !done ==> forall|j: int| 0 <= j < i ==> str_entries(*repos)[j].0 != name@,
                !done ==> found == 0,
                done ==> found < n && str_entries(*repos)[found as int].0 == name@
                    && forall|j: int| 0 <= j < found ==> str_entries(*repos)[j].0 != name@,
            decreases n - i,
        {
            if !done {
                let (k, _) = string_map_get_index(repos, i).unwrap();
                if crate::text::same_text(k.as_str(), name) {
                    found = i;
                    done = true;
                }
            }
            i = i + 1;
        }
        proof {
            lemma_key_index(str_entries(*repos), name@);
        }
        self.repo_mgr_sel = Some(found);
    }

    /// A global repository was removed: the repository manager's selection follows.
    pub fn repo_deleted(&mut self, repos: usize)
        ensures
            final(self)@ == (UiView { repo_mgr_sel: clamped(old(self)@.repo_mgr_sel, repos), ..old(self)@ }),
    {
        self.repo_mgr_sel = clamp_selection(repos, self.repo_mgr_sel);
    }
}

/// A selection that fits a list of `len` items: none exactly when the list is
/// empty, and one of its items otherwise.
pub open spec fn fits(sel: Option<usize>, len: nat) -> bool {
    &&& (sel is None <==> len == 0)
    &&& (sel matches Some(i) ==> i < len)
}

/// What the screens keep true between keys: the menu has an entry selected; the
/// sites shown are among all sites, and are all of them when there is no site
/// search; there is no site search outside the environment manager; and every
/// selection fits its list.
pub open spec fn ui_consistent(u: UiView, s: Shown, global_repos: nat) -> bool {
    &&& u.menu_sel matches Some(i) && i < MENU_LEN
    &&& s.rs <= s.all_rs
    &&& u.rs_search.len() == 0 ==> s.rs == s.all_rs
    &&& u.page != Page::EnvManager ==> u.rs_search.len() == 0
    &&& fits(u.rs_sel, s.rs as nat)
    &&& fits(u.repo_sel, s.repos as nat)
    &&& fits(u.rs_mgr_sel, s.all_rs as nat)
    &&& fits(u.repo_mgr_sel, global_repos)
}

/// Whether the work includes `x`.
pub open spec fn has_work(e: Seq<EffectView>, x: EffectView) -> bool
    decreases e.len(),
{
    e.len() > 0 && (e.last() == x || has_work(e.drop_last(), x))
}

/// Whether the work changes sites or repositories in the registry.
pub open spec fn edits_registry(e: Seq<EffectView>) -> bool
    decreases e.len(),
{
    e.len() > 0 && (e.last() is SubmitRsForm || e.last() is SubmitRepoForm || e.last() is DeleteRs
        || e.last() is DeleteRepo || edits_registry(e.drop_last()))
}

/// The state after a key and the list reloads that its work asks for: the sites
/// shown, then the repositories listed, are recomputed (to `rs` and `repos`
/// entries) and their selections follow.
pub open spec fn settled(k: UiView, e: Seq<EffectView>, rs: usize, repos: usize) -> UiView {
    UiView {
        rs_sel: if has_work(e, EffectView::ReloadRsList) { clamped(k.rs_sel, rs) } else { k.rs_sel },
        repo_sel: if has_work(e, EffectView::ReloadRepos) { clamped(k.repo_sel, repos) } else { k.repo_sel },
        ..k
    }
}

/// A step from `u` to `k` with work `e` keeps the screens consistent, once the
/// lists that `e` reloads are recomputed to `rs2` sites shown and `repos2`
/// repositories listed: the sites shown are among all sites (all of them when
/// there is no site search), and a list that is not reloaded keeps its length.
/// Work that adds or removes sites or repositories is left to the updates that
/// follow those edits.
pub open spec fn keeps_consistent(
    u: UiView,
    k: UiView,
    e: Seq<EffectView>,
    s: Shown,
    n: nat,
    rs2: usize,
    repos2: usize,
    vars2: usize,
) -> bool {
    (ui_consistent(u, s, n) && !edits_registry(e) && rs2 <= s.all_rs
        && (k.rs_search.len() == 0 ==> rs2 == s.all_rs)
        && (!has_work(e, EffectView::ReloadRsList) ==> rs2 == s.rs)
        && (!has_work(e, EffectView::ReloadRepos) ==> repos2 == s.repos))
    ==> ui_consistent(settled(k, e, rs2, repos2), Shown { rs: rs2, repos: repos2, vars: vars2, all_rs: s.all_rs }, n)
}

/// The interface starts consistent, with all sites shown and no repository listed yet.
pub proof fn lemma_start_consistent(all_rs: usize, global_repos: usize)
    ensures
        ui_consistent(start_view(all_rs, global_repos), Shown { rs: all_rs, repos: 0, vars: 0, all_rs }, global_repos as nat),
{
}

/// A clamped selection fits its list.
pub proof fn lemma_clamped_fits(cur: Option<usize>, len: usize)
    ensures
        fits(clamped(cur, len), len as nat),
{
}

proof fn lemma_rs_pane_consistent(u: UiView, key: Key, s: Shown, n: nat, rs2: usize, repos2: usize, vars2: usize)
    requires
        u.page == Page::EnvManager,
    ensures
        keeps_consistent(u, rs_pane_step(u, key, s).0, rs_pane_step(u, key, s).1, s, n, rs2, repos2, vars2),
{
    reveal_with_fuel(has_work, 4);
    reveal_with_fuel(edits_registry, 4);
}

proof fn lemma_repos_pane_consistent(u: UiView, key: Key, s: Shown, n: nat, rs2: usize, repos2: usize, vars2: usize)
    requires
        u.page == Page::EnvManager,
    ensures
        keeps_consistent(u, repos_pane_step(u, key, s).0, repos_pane_step(u, key, s).1, s, n, rs2, repos2, vars2),
{
    reveal_with_fuel(has_work, 4);
    reveal_with_fuel(edits_registry, 4);
}

proof fn lemma_vars_pane_consistent(u: UiView, key: Key, s: Shown, n: nat, rs2: usize, repos2: usize, vars2: usize)
    requires
        u.page == Page::EnvManager,
    ensures
        keeps_consistent(u, vars_pane_step(u, key, s).0, vars_pane_step(u, key, s).1, s, n, rs2, repos2, vars2),
{
    reveal_with_fuel(has_work, 4);
    reveal_with_fuel(edits_registry, 4);
}

proof fn lemma_searches_consistent(u: UiView, key: Key, s: Shown, n: nat, rs2: usize, repos2: usize, vars2: usize)
    requires
        u.page == Page::EnvManager,
    ensures
        keeps_consistent(u, rs_search_step(u, key).0, rs_search_step(u, key).1, s, n, rs2, repos2, vars2),
        keeps_consistent(u, search_step(u, key).0, search_step(u, key).1, s, n, rs2, repos2, vars2),
{
    reveal_with_fuel(has_work, 4);
    reveal_with_fuel(edits_registry, 4);
}

proof fn lemma_env_consistent(u: UiView, key: Key, s: Shown, n: nat, rs2: usize, repos2: usize, vars2: usize)
    requires
        u.page == Page::EnvManager,
    ensures
        keeps_consistent(u, env_step(u, key, s).0, env_step(u, key, s).1, s, n, rs2, repos2, vars2),
{
    reveal_with_fuel(has_work, 4);
    reveal_with_fuel(edits_registry, 4);
    if u.diff_open {
    } else if u.var_form is Some {
    } else if u.mode == Mode::SearchRs {
        lemma_searches_consistent(u, key, s, n, rs2, repos2, vars2);
    } else if u.mode == Mode::Search {
        lemma_searches_consistent(u, key, s, n, rs2, repos2, vars2);
    } else {
        match u.focus {
            Pane::Rs => lemma_rs_pane_consistent(u, key, s, n, rs2, repos2, vars2),
            Pane::Repos => lemma_repos_pane_consistent(u, key, s, n, rs2, repos2, vars2),
            Pane::Vars => lemma_vars_pane_consistent(u, key, s, n, rs2, repos2, vars2),
        }
    }
}

proof fn lemma_menu_consistent(u: UiView, key: Key, s: Shown, n: nat, rs2: usize, repos2: usize, vars2: usize)
    requires
        u.page == Page::Menu,
    ensures
        keeps_consistent(u, menu_step(u, key), Seq::empty(), s, n, rs2, repos2, vars2),
{
    reveal_with_fuel(has_work, 1);
    reveal_with_fuel(edits_registry, 1);
}

proof fn lemma_rs_mgr_consistent(u: UiView, key: Key, s: Shown, n: nat, rs2: usize, repos2: usize, vars2: usize)
    requires
        u.page == Page::RsManager,
    ensures
        keeps_consistent(u, rs_mgr_step(u, key, s).0, rs_mgr_step(u, key, s).1, s, n, rs2, repos2, vars2),
{
    reveal_with_fuel(has_work, 3);
    reveal_with_fuel(edits_registry, 3);
    if u.rs_form is Some {
        let o = form_key(u.rs_form->0, key);
        assert(edits_registry(form_effects(o, |g: FormView| EffectView::SubmitRsForm(g))) <==> o is Submitted);
    }
}

proof fn lemma_repo_mgr_consistent(u: UiView, key: Key, s: Shown, repos: Seq<(Seq<char>, Seq<char>)>, rs2: usize, repos2: usize, vars2: usize)
    requires
        u.page == Page::RepoManager,
    ensures
        keeps_consistent(u, repo_mgr_step(u, key, repos).0, repo_mgr_step(u, key, repos).1, s, repos.len(), rs2, repos2, vars2),
{
    reveal_with_fuel(has_work, 3);
    reveal_with_fuel(edits_registry, 3);
    if u.repo_form is Some {
        let o = form_key(u.repo_form->0, key);
        assert(edits_registry(form_effects(o, |g: FormView| EffectView::SubmitRepoForm(g))) <==> o is Submitted);
    }
}

/// Every key keeps the screens consistent, once the lists that its work reloads
/// are recomputed (see `keeps_consistent`).
pub proof fn lemma_key_keeps_consistent(
    u: UiView,
    key: Key,
    s: Shown,
    repos: Seq<(Seq<char>, Seq<char>)>,
    rs2: usize,
    repos2: usize,
    vars2: usize,
)
    ensures
        keeps_consistent(u, key_step(u, key, s, repos).0, key_step(u, key, s, repos).1, s, repos.len(), rs2, repos2, vars2),
{
    reveal_with_fuel(has_work, 2);
    reveal_with_fuel(edits_registry, 2);
    if key != Key::CtrlC {
        match u.page {
            Page::EnvManager => lemma_env_consistent(u, key, s, repos.len(), rs2, repos2, vars2),
            Page::Menu => lemma_menu_consistent(u, key, s, repos.len(), rs2, repos2, vars2),
            Page::RsManager => lemma_rs_mgr_consistent(u, key, s, repos.len(), rs2, repos2, vars2),
            Page::RepoManager => lemma_repo_mgr_consistent(u, key, s, repos, rs2, repos2, vars2),
        }
    }
}

/// A name that is in a list has its first position within the list.
pub proof fn lemma_position_in_list(names: Seq<Seq<char>>, name: Seq<char>)
    requires
        names.contains(name),
        names.len() <= usize::MAX,
    ensures
        position_or_first(names, name) < names.len(),
        names[position_or_first(names, name) as int] == name,
{
    let i = choose|i: int| 0 <= i < names.len() && names[i] == name;
    lemma_first_exists(names, name, i);
    let f = choose|k: int| 0 <= k < names.len() && names[k] == name && forall|j: int| 0 <= j < k ==> names[j] != name;
    assert(position_or_first(names, name) == f as usize);
    assert(f as usize as int == f);
}

proof fn lemma_first_exists(names: Seq<Seq<char>>, name: Seq<char>, i: int)
    requires
        0 <= i < names.len(),
        names[i] == name,
    ensures
        exists|k: int| 0 <= k < names.len() && names[k] == name && forall|j: int| 0 <= j < k ==> names[j] != name,
    decreases i,
{
    if exists|j: int| 0 <= j < i && names[j] == name {
        let j = choose|j: int| 0 <= j < i && names[j] == name;
        lemma_first_exists(names, name, j);
    } else {
        assert(forall|j: int| 0 <= j < i ==> names[j] != name);
    }
}

/// The state after a site was added: both site lists select it, and the
/// repositories listed for the selected site are recomputed.
pub open spec fn after_rs_added(k: UiView, pos_all: usize, pos_shown: usize, repos: usize) -> UiView {
    UiView { rs_mgr_sel: Some(pos_all), rs_sel: Some(pos_shown), repo_sel: clamped(k.repo_sel, repos), ..k }
}

/// The state after a site was removed: the site lists, then the repositories,
/// are recomputed and their selections follow.
pub open spec fn after_rs_deleted(k: UiView, all_rs: usize, rs: usize, repos: usize) -> UiView {
    UiView {
        rs_mgr_sel: clamped(k.rs_mgr_sel, all_rs),
        rs_sel: clamped(clamped(k.rs_sel, rs), rs),
        repo_sel: clamped(k.repo_sel, repos),
        ..k
    }
}

/// The state after a global repository was saved: the repository manager
/// selects it, and the repositories listed are recomputed.
pub open spec fn after_repo_saved(k: UiView, pos: usize, repos: usize) -> UiView {
    UiView { repo_mgr_sel: Some(pos), repo_sel: clamped(k.repo_sel, repos), ..k }
}

/// The state after a global repository was removed: the repository manager's
/// selection follows, and the repositories listed are recomputed.
pub open spec fn after_repo_deleted(k: UiView, global_repos: usize, repos: usize) -> UiView {
    UiView { repo_mgr_sel: clamped(k.repo_mgr_sel, global_repos), repo_sel: clamped(k.repo_sel, repos), ..k }
}

/// The facts of the recomputed lists: the sites shown are among all sites, and
/// all of them when there is no site search.
pub open spec fn lists_hold(k: UiView, rs: usize, all_rs: usize) -> bool {
    rs <= all_rs && (k.rs_search.len() == 0 ==> rs == all_rs)
}

/// Every edit of the registry leaves the screens consistent once its updates
/// are made: a site added is selected in both site lists (where it is listed),
/// a site removed, a repository saved (and selected) or removed, each with the
/// lists recomputed to their new lengths. A refused edit changes nothing.
pub proof fn lemma_edits_keep_consistent(
    k: UiView,
    s: Shown,
    n: nat,
    all2: usize,
    rs2: usize,
    repos2: usize,
    vars2: usize,
    n2: usize,
    pos_all: usize,
    pos_shown: usize,
    pos_repo: usize,
)
    requires
        ui_consistent(k, s, n),
        lists_hold(k, rs2, all2),
    ensures
        pos_all < all2 && pos_shown < rs2 ==> ui_consistent(
            after_rs_added(k, pos_all, pos_shown, repos2),
            Shown { rs: rs2, repos: repos2, vars: vars2, all_rs: all2 },
            n,
        ),
        ui_consistent(after_rs_deleted(k, all2, rs2, repos2), Shown { rs: rs2, repos: repos2, vars: vars2, all_rs: all2 }, n),
        pos_repo < n2 ==> ui_consistent(
            after_repo_saved(k, pos_repo, repos2),
            Shown { rs: s.rs, repos: repos2, vars: vars2, all_rs: s.all_rs },
            n2 as nat,
        ),
        ui_consistent(
            after_repo_deleted(k, n2, repos2),
            Shown { rs: s.rs, repos: repos2, vars: vars2, all_rs: s.all_rs },
            n2 as nat,
        ),
{
}

proof fn lemma_env_edits_nothing(u: UiView, key: Key, s: Shown)
    ensures
        !edits_registry(rs_pane_step(u, key, s).1),
        !edits_registry(repos_pane_step(u, key, s).1),
        !edits_registry(vars_pane_step(u, key, s).1),
        !edits_registry(rs_search_step(u, key).1),
        !edits_registry(search_step(u, key).1),
{
    reveal_with_fuel(edits_registry, 4);
}

/// A key whose work edits the registry (submitting the site or repository form,
/// or removing a site or repository) changes nothing else that the screens keep
/// consistent: the edit's own updates follow it.
pub proof fn lemma_edit_key_consistent(u: UiView, key: Key, s: Shown, repos: Seq<(Seq<char>, Seq<char>)>)
    requires
        ui_consistent(u, s, repos.len()),
        edits_registry(key_step(u, key, s, repos).1),
    ensures
        ui_consistent(key_step(u, key, s, repos).0, s, repos.len()),
        key_step(u, key, s, repos).0.page != Page::EnvManager,
{
    reveal_with_fuel(edits_registry, 2);
    if key != Key::CtrlC {
        match u.page {
            Page::EnvManager => {
                lemma_env_edits_nothing(u, key, s);
                if !u.diff_open && u.var_form is Some {
                    let o = form_key(u.var_form->0, key);
                    assert(!edits_registry(form_effects(o, |g: FormView| EffectView::SubmitVarForm(g))));
                }
            },
            Page::RsManager => {
                reveal_with_fuel(edits_registry, 3);
            },
            Page::RepoManager => {
                reveal_with_fuel(edits_registry, 3);
            },
            Page::Menu => {},
        }
    }
}

proof fn lemma_env_searches_reload(u: UiView, key: Key, s: Shown)
    ensures
        ({
            let (k, e) = rs_pane_step(u, key, s);
            &&& k.search != u.search ==> has_work(e, EffectView::ReloadRepos) && has_work(e, EffectView::LoadVars)
            &&& k.rs_search != u.rs_search ==> has_work(e, EffectView::ReloadRsList)
        }),
        ({
            let (k, e) = repos_pane_step(u, key, s);
            &&& k.search != u.search ==> has_work(e, EffectView::ReloadRepos) && has_work(e, EffectView::LoadVars)
            &&& k.rs_search != u.rs_search ==> has_work(e, EffectView::ReloadRsList)
        }),
        ({
            let (k, e) = vars_pane_step(u, key, s);
            &&& k.search != u.search ==> has_work(e, EffectView::ReloadRepos) && has_work(e, EffectView::LoadVars)
            &&& k.rs_search != u.rs_search ==> has_work(e, EffectView::ReloadRsList)
        }),
        ({
            let (k, e) = rs_search_step(u, key);
            &&& k.search != u.search ==> has_work(e, EffectView::ReloadRepos) && has_work(e, EffectView::LoadVars)
            &&& k.rs_search != u.rs_search ==> has_work(e, EffectView::ReloadRsList)
        }),
        ({
            let (k, e) = search_step(u, key);
            &&& k.search != u.search ==> has_work(e, EffectView::ReloadRepos) && has_work(e, EffectView::LoadVars)
            &&& k.rs_search != u.rs_search ==> has_work(e, EffectView::ReloadRsList)
        }),
{
    reveal_with_fuel(has_work, 4);
}

/// Searches filter as they are typed: a key that changes the repository search
/// asks for the repositories to be listed again (and the variables read again),
/// and a key that changes the site search asks for the sites shown to be
/// recomputed.
pub proof fn lemma_search_change_reloads(u: UiView, key: Key, s: Shown, repos: Seq<(Seq<char>, Seq<char>)>)
    ensures
        ({
            let (k, e) = key_step(u, key, s, repos);
            &&& k.search != u.search ==> has_work(e, EffectView::ReloadRepos) && has_work(e, EffectView::LoadVars)
            &&& k.rs_search != u.rs_search ==> has_work(e, EffectView::ReloadRsList)
        }),
{
    lemma_env_searches_reload(u, key, s);
}

} // verus!
