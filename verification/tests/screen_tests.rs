use envctl::commands::scan_confirmed;
use envctl::screen::{position_of, submitted_fields, Effect, Key, Mode, Note, Page, Pane, Shown, UiState};
use indexmap::IndexMap;

fn shown(rs: usize, repos: usize, vars: usize, all_rs: usize) -> Shown {
    Shown { rs, repos, vars, all_rs }
}

fn no_repos() -> IndexMap<String, String> {
    IndexMap::new()
}

fn env_state() -> UiState {
    let mut u = UiState::start(3, 0);
    u.page = Page::EnvManager;
    u.repo_sel = Some(0);
    u
}

#[test]
fn start_state_selects_first_items() {
    let u = UiState::start(2, 0);
    assert_eq!(u.page, Page::Menu);
    assert_eq!(u.menu_sel, Some(0));
    assert_eq!(u.rs_sel, Some(0));
    assert_eq!(u.rs_mgr_sel, Some(0));
    assert_eq!(u.repo_mgr_sel, None);
    assert_eq!(u.repo_sel, None);
    assert!(!u.quit);
    let empty = UiState::start(0, 4);
    assert_eq!(empty.rs_sel, None);
    assert_eq!(empty.repo_mgr_sel, Some(0));
}

#[test]
fn menu_moves_within_its_entries() {
    let mut u = UiState::start(1, 1);
    let s = shown(1, 0, 0, 1);
    let repos = no_repos();
    for _ in 0..5 {
        u.handle_key(Key::Char('j'), s, &repos);
    }
    assert_eq!(u.menu_sel, Some(2));
    u.handle_key(Key::Up, s, &repos);
    assert_eq!(u.menu_sel, Some(1));
    u.handle_key(Key::Enter, s, &repos);
    assert_eq!(u.page, Page::RsManager);
    u.page = Page::Menu;
    u.handle_key(Key::Char('3'), s, &repos);
    assert_eq!(u.page, Page::RepoManager);
    u.page = Page::Menu;
    for _ in 0..4 {
        u.handle_key(Key::Char('k'), s, &repos);
    }
    assert_eq!(u.menu_sel, Some(0));
    u.handle_key(Key::Char(' '), s, &repos);
    assert_eq!(u.page, Page::EnvManager);
}

#[test]
fn control_c_quits_everywhere() {
    let repos = no_repos();
    for page in [Page::Menu, Page::EnvManager, Page::RsManager, Page::RepoManager] {
        let mut u = UiState::start(1, 0);
        u.page = page;
        let r = u.handle_key(Key::CtrlC, shown(1, 0, 0, 1), &repos);
        assert!(u.quit);
        assert!(r.is_empty());
    }
}

#[test]
fn menu_q_and_esc_quit() {
    let repos = no_repos();
    let mut u = UiState::start(0, 0);
    u.handle_key(Key::Char('q'), shown(0, 0, 0, 0), &repos);
    assert!(u.quit);
    let mut u = UiState::start(0, 0);
    u.handle_key(Key::Esc, shown(0, 0, 0, 0), &repos);
    assert!(u.quit);
}

#[test]
fn site_pane_moves_and_reloads() {
    let repos = no_repos();
    let mut u = env_state();
    let s = shown(3, 2, 0, 3);
    let r = u.handle_key(Key::Down, s, &repos);
    assert_eq!(u.rs_sel, Some(1));
    assert_eq!(r.len(), 2);
    assert!(matches!(r[0], Effect::ReloadRepos));
    assert!(matches!(r[1], Effect::LoadVars));
    u.handle_key(Key::Char('j'), s, &repos);
    u.handle_key(Key::Char('j'), s, &repos);
    assert_eq!(u.rs_sel, Some(2));
    u.rs_sel = Some(7);
    u.handle_key(Key::Char('k'), s, &repos);
    assert_eq!(u.rs_sel, Some(2));
    u.rs_sel = Some(0);
    u.handle_key(Key::Up, s, &repos);
    assert_eq!(u.rs_sel, Some(0));
    let r = u.handle_key(Key::Down, shown(0, 0, 0, 3), &repos);
    assert_eq!(u.rs_sel, Some(0));
    assert!(r.is_empty());
}

#[test]
fn site_search_types_and_reloads() {
    let repos = no_repos();
    let mut u = env_state();
    let s = shown(3, 2, 0, 3);
    let r = u.handle_key(Key::Char('/'), s, &repos);
    assert_eq!(u.mode, Mode::SearchRs);
    assert!(matches!(r[..], [Effect::ReloadRsList]));
    let r = u.handle_key(Key::Char('w'), s, &repos);
    u.handle_key(Key::Char('e'), s, &repos);
    assert_eq!(u.rs_search, "we");
    assert!(matches!(r[..], [Effect::ReloadRsList, Effect::ReloadRepos, Effect::LoadVars]));
    u.handle_key(Key::Backspace, s, &repos);
    assert_eq!(u.rs_search, "w");
    let r = u.handle_key(Key::Enter, s, &repos);
    assert_eq!(u.mode, Mode::Normal);
    assert_eq!(u.rs_search, "w");
    assert!(matches!(r[..], [Effect::ReloadRepos, Effect::LoadVars]));
    let r = u.handle_key(Key::Esc, s, &repos);
    assert_eq!(u.rs_search, "");
    assert_eq!(u.page, Page::EnvManager);
    assert!(matches!(r[..], [Effect::ReloadRsList, Effect::ReloadRepos, Effect::LoadVars]));
    let r = u.handle_key(Key::Esc, s, &repos);
    assert_eq!(u.page, Page::Menu);
    assert!(matches!(r[..], [Effect::ClearStatus]));
}

#[test]
fn repo_pane_actions_need_a_selection() {
    let repos = no_repos();
    let mut u = env_state();
    u.focus = Pane::Repos;
    let s = shown(3, 2, 0, 3);
    assert!(matches!(u.handle_key(Key::Char('a'), s, &repos)[..], [Effect::ApplySelected]));
    assert!(matches!(u.handle_key(Key::Char('A'), s, &repos)[..], [Effect::ApplyAll]));
    assert!(matches!(u.handle_key(Key::Char('e'), s, &repos)[..], [Effect::OpenEditor]));
    let none = shown(3, 0, 0, 3);
    assert!(u.handle_key(Key::Char('a'), none, &repos).is_empty());
    assert!(u.handle_key(Key::Char('e'), none, &repos).is_empty());
    assert!(u.handle_key(Key::Char('d'), none, &repos).is_empty());
    assert!(!u.diff_open);
    let r = u.handle_key(Key::Char('v'), s, &repos);
    assert!(u.reveal);
    assert!(matches!(r[..], [Effect::Notify(Note::Revealed)]));
    let r = u.handle_key(Key::Char('v'), s, &repos);
    assert!(!u.reveal);
    assert!(matches!(r[..], [Effect::Notify(Note::Masked)]));
    let r = u.handle_key(Key::Char('r'), s, &repos);
    assert!(matches!(r[..], [Effect::RefreshSync, Effect::Notify(Note::Refreshed)]));
}

#[test]
fn diff_opens_and_any_key_closes_it() {
    let repos = no_repos();
    let mut u = env_state();
    u.focus = Pane::Repos;
    let s = shown(3, 2, 0, 3);
    let r = u.handle_key(Key::Char('d'), s, &repos);
    assert!(u.diff_open);
    assert!(matches!(r[..], [Effect::ShowDiff]));
    let r = u.handle_key(Key::Char('q'), s, &repos);
    assert!(!u.diff_open);
    assert!(!u.quit);
    assert!(r.is_empty());
    assert_eq!(u.focus, Pane::Repos);
}

#[test]
fn variable_form_fills_and_submits() {
    let repos = no_repos();
    let mut u = env_state();
    u.focus = Pane::Vars;
    let s = shown(3, 2, 0, 3);
    let r = u.handle_key(Key::Char('n'), s, &repos);
    assert!(matches!(r[..], [Effect::ClearStatus]));
    assert!(u.var_form.is_some());
    for c in "API".chars() {
        u.handle_key(Key::Char(c), s, &repos);
    }
    let r = u.handle_key(Key::Enter, s, &repos);
    assert!(r.is_empty());
    for c in "x1".chars() {
        u.handle_key(Key::Char(c), s, &repos);
    }
    u.handle_key(Key::Backspace, s, &repos);
    let form = u.var_form.as_ref().unwrap();
    assert_eq!(form.key, "API");
    assert_eq!(form.value, "x");
    let r = u.handle_key(Key::Enter, s, &repos);
    assert!(u.var_form.is_none());
    match &r[..] {
        [Effect::SubmitVarForm(f)] => {
            assert_eq!(f.key, "API");
            assert_eq!(f.value, "x");
        }
        _ => panic!("expected a submitted form"),
    }
}

#[test]
fn variable_form_cancels_on_esc() {
    let repos = no_repos();
    let mut u = env_state();
    u.focus = Pane::Vars;
    let s = shown(3, 2, 0, 3);
    u.handle_key(Key::Char('n'), s, &repos);
    u.handle_key(Key::Char('k'), s, &repos);
    let r = u.handle_key(Key::Esc, s, &repos);
    assert!(u.var_form.is_none());
    assert_eq!(u.focus, Pane::Vars);
    assert!(matches!(r[..], [Effect::Notify(Note::Cancelled)]));
}

#[test]
fn new_variable_needs_a_repository() {
    let repos = no_repos();
    let mut u = env_state();
    u.focus = Pane::Vars;
    let r = u.handle_key(Key::Char('n'), shown(3, 0, 0, 3), &repos);
    assert!(r.is_empty());
    assert!(u.var_form.is_none());
}

#[test]
fn variable_pane_scrolls_within_the_variables() {
    let repos = no_repos();
    let mut u = env_state();
    u.focus = Pane::Vars;
    let s = shown(3, 2, 3, 3);
    for _ in 0..5 {
        u.handle_key(Key::Down, s, &repos);
    }
    assert_eq!(u.vars_scroll, 2);
    for _ in 0..5 {
        u.handle_key(Key::Char('k'), s, &repos);
    }
    assert_eq!(u.vars_scroll, 0);
    u.handle_key(Key::Tab, s, &repos);
    assert_eq!(u.focus, Pane::Repos);
}

#[test]
fn site_manager_form_and_actions() {
    let repos = no_repos();
    let mut u = UiState::start(2, 0);
    u.page = Page::RsManager;
    let s = shown(2, 0, 0, 2);
    u.handle_key(Key::Char('j'), s, &repos);
    u.handle_key(Key::Char('j'), s, &repos);
    assert_eq!(u.rs_mgr_sel, Some(1));
    assert!(matches!(u.handle_key(Key::Char('d'), s, &repos)[..], [Effect::DeleteRs]));
    let r = u.handle_key(Key::Enter, s, &repos);
    assert_eq!(u.page, Page::EnvManager);
    assert_eq!(u.rs_sel, Some(1));
    assert_eq!(u.focus, Pane::Rs);
    assert!(matches!(r[..], [Effect::ReloadRepos, Effect::LoadVars]));
    u.page = Page::RsManager;
    u.handle_key(Key::Char('a'), s, &repos);
    for c in "web".chars() {
        u.handle_key(Key::Char(c), s, &repos);
    }
    u.handle_key(Key::Tab, s, &repos);
    for c in "10.0.0.1".chars() {
        u.handle_key(Key::Char(c), s, &repos);
    }
    let r = u.handle_key(Key::Enter, s, &repos);
    match &r[..] {
        [Effect::SubmitRsForm(f)] => {
            assert_eq!(f.name, "web");
            assert_eq!(f.ip, "10.0.0.1");
        }
        _ => panic!("expected a submitted form"),
    }
    let r = u.handle_key(Key::Esc, s, &repos);
    assert_eq!(u.page, Page::Menu);
    assert!(matches!(r[..], [Effect::ClearStatus]));
}

#[test]
fn site_manager_without_sites_does_nothing() {
    let repos = no_repos();
    let mut u = UiState::start(0, 0);
    u.page = Page::RsManager;
    let s = shown(0, 0, 0, 0);
    assert!(u.handle_key(Key::Char('d'), s, &repos).is_empty());
    assert!(u.handle_key(Key::Enter, s, &repos).is_empty());
    assert_eq!(u.page, Page::RsManager);
}

#[test]
fn repository_manager_edits_the_selected_repository() {
    let mut repos = IndexMap::new();
    repos.insert("api".to_string(), "/srv/api".to_string());
    repos.insert("web".to_string(), "/srv/web".to_string());
    let mut u = UiState::start(0, 2);
    u.page = Page::RepoManager;
    let s = shown(0, 0, 0, 0);
    u.handle_key(Key::Down, s, &repos);
    u.handle_key(Key::Down, s, &repos);
    assert_eq!(u.repo_mgr_sel, Some(1));
    let r = u.handle_key(Key::Char('e'), s, &repos);
    assert!(matches!(r[..], [Effect::ClearStatus]));
    let form = u.repo_form.as_ref().unwrap();
    assert_eq!(form.name, "web");
    assert_eq!(form.path, "/srv/web");
    assert_eq!(form.editing.as_deref(), Some("web"));
    u.handle_key(Key::Char('2'), s, &repos);
    let r = u.handle_key(Key::Enter, s, &repos);
    match &r[..] {
        [Effect::SubmitRepoForm(f)] => {
            assert_eq!(f.path, "/srv/web2");
            assert_eq!(f.editing.as_deref(), Some("web"));
        }
        _ => panic!("expected a submitted form"),
    }
    assert!(matches!(u.handle_key(Key::Char('d'), s, &repos)[..], [Effect::DeleteRepo]));
}

#[test]
fn submitted_fields_are_trimmed() {
    assert_eq!(
        submitted_fields("  web ", "\t10.0.0.1\n", true),
        Some(("web".to_string(), "10.0.0.1".to_string()))
    );
    assert_eq!(submitted_fields("web", "  ", true), None);
    assert_eq!(submitted_fields("   ", "x", true), None);
    assert_eq!(submitted_fields("KEY", "  ", false), Some(("KEY".to_string(), String::new())));
    assert_eq!(submitted_fields("", "v", false), None);
}

#[test]
fn position_of_finds_the_first() {
    let names = vec!["a".to_string(), "b".to_string(), "b".to_string()];
    assert_eq!(position_of(&names, "b"), Some(1));
    assert_eq!(position_of(&names, "a"), Some(0));
    assert_eq!(position_of(&names, "c"), None);
}

#[test]
fn scan_answer_must_be_yes() {
    assert!(scan_confirmed("y\n"));
    assert!(scan_confirmed("  Y  "));
    assert!(!scan_confirmed("yes\n"));
    assert!(!scan_confirmed("\n"));
    assert!(!scan_confirmed("n"));
}

#[test]
fn list_updates_keep_selections_in_range() {
    let mut u = UiState::start(3, 2);
    u.rs_sel = Some(2);
    u.rs_list_reloaded(1);
    assert_eq!(u.rs_sel, Some(0));
    u.rs_list_reloaded(0);
    assert_eq!(u.rs_sel, None);
    u.rs_list_reloaded(4);
    assert_eq!(u.rs_sel, Some(0));
    u.repo_sel = Some(5);
    u.repos_reloaded(3);
    assert_eq!(u.repo_sel, Some(2));
    u.repos_reloaded(0);
    assert_eq!(u.repo_sel, None);
    u.vars_scroll = 4;
    u.vars_loaded();
    assert_eq!(u.vars_scroll, 0);
    u.rs_mgr_sel = Some(2);
    u.rs_sel = Some(2);
    u.rs_deleted(2, 1);
    assert_eq!(u.rs_mgr_sel, Some(1));
    assert_eq!(u.rs_sel, Some(0));
    u.repo_mgr_sel = Some(1);
    u.repo_deleted(1);
    assert_eq!(u.repo_mgr_sel, Some(0));
    u.repo_deleted(0);
    assert_eq!(u.repo_mgr_sel, None);
}

#[test]
fn added_entries_are_selected() {
    let mut u = UiState::start(2, 0);
    let all = vec!["a".to_string(), "b".to_string(), "new".to_string()];
    let shown = vec!["new".to_string()];
    u.rs_added(&all, &shown, "new");
    assert_eq!(u.rs_mgr_sel, Some(2));
    u.rs_sel = Some(3);
    assert_eq!(u.rs_sel, Some(3));
    u.rs_added(&all, &shown, "new");
    assert_eq!(u.rs_sel, Some(0));
    u.rs_added(&all, &Vec::new(), "b");
    assert_eq!(u.rs_mgr_sel, Some(1));
    assert_eq!(u.rs_sel, Some(0));
    let mut repos = IndexMap::new();
    repos.insert("api".to_string(), "/a".to_string());
    repos.insert("web".to_string(), "/w".to_string());
    u.repo_saved(&repos, "web");
    assert_eq!(u.repo_mgr_sel, Some(1));
    u.repo_saved(&repos, "gone");
    assert_eq!(u.repo_mgr_sel, Some(0));
}

#[test]
fn a_session_keeps_selections_within_their_lists() {
    let repos = no_repos();
    let mut u = UiState::start(3, 0);
    let mut s = shown(3, 0, 0, 3);
    let keys = [Key::Char('1'), Key::Char('/'), Key::Char('x'), Key::Enter, Key::Down, Key::Esc, Key::Down, Key::Down, Key::Down];
    for k in keys {
        let effects = u.handle_key(k, s, &repos);
        for e in effects {
            match e {
                Effect::ReloadRsList => {
                    s.rs = if u.rs_search.is_empty() { 3 } else { 1 };
                    u.rs_list_reloaded(s.rs);
                }
                Effect::ReloadRepos => {
                    s.repos = if u.rs_sel.is_some() { 2 } else { 0 };
                    u.repos_reloaded(s.repos);
                }
                _ => {}
            }
        }
        assert!(u.rs_sel.map_or(s.rs == 0, |i| i < s.rs));
        assert!(u.repo_sel.map_or(s.repos == 0, |i| i < s.repos));
    }
    assert_eq!(u.rs_search, "");
    assert_eq!(u.rs_sel, Some(2));
}
