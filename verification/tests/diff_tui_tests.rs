use envctl::diff::{cmd_diff_report, diff_changes, diff_pieces, shared_repo_sync, sync_of, sync_table, ChangeKind, Sync};
use envctl::registry::Registry;
use envctl::tui::{
    clamp_selection, edited_sync, filter_rs, mark_active, reload_repos, RepoForm, RepoFormField,
    RsForm, RsFormField, VarForm, VarFormField,
};

#[test]
fn diff_report_in_sync() {
    assert_eq!(cmd_diff_report("rs", "repo", "A=\"1\"\n", "A=\"1\"\n"), vec!["rs/repo: in sync ●\n".to_string()]);
}

#[test]
fn diff_report_lists_changes_from_disk_to_store() {
    let pieces = cmd_diff_report("rs", "repo", "A=\"1\"\nB=\"2\"\n", "A=\"1\"\nB=\"3\"\n");
    assert_eq!(pieces, vec![
        "diff rs/repo (disk → store):\n".to_string(),
        " A=\"1\"\n\x1b[0m".to_string(),
        "\x1b[31m-B=\"3\"\n\x1b[0m".to_string(),
        "\x1b[32m+B=\"2\"\n\x1b[0m".to_string(),
    ]);
}

#[test]
fn diff_pieces_sign_and_colour_each_line() {
    let changes = vec![
        (ChangeKind::Equal, "K=\"v\"\n".to_string()),
        (ChangeKind::Insert, "N=\"1\"\n".to_string()),
        (ChangeKind::Delete, "O=\"2\"\n".to_string()),
    ];
    assert_eq!(diff_pieces("a", "b", &changes), vec![
        "diff a/b (disk → store):\n".to_string(),
        " K=\"v\"\n\x1b[0m".to_string(),
        "\x1b[32m+N=\"1\"\n\x1b[0m".to_string(),
        "\x1b[31m-O=\"2\"\n\x1b[0m".to_string(),
    ]);
    assert_eq!(diff_pieces("a", "b", &Vec::new()), vec!["diff a/b (disk → store):\n".to_string()]);
}

#[test]
fn diff_changes_adds_missing_line_break() {
    let c = diff_changes("a", "b");
    assert_eq!(c, vec![(ChangeKind::Delete, "a\n".to_string()), (ChangeKind::Insert, "b\n".to_string())]);
}

#[test]
fn sync_needs_vars_and_equal_text() {
    assert_eq!(sync_of(true, "x", "x"), Sync::Synced);
    assert_eq!(sync_of(true, "x", "y"), Sync::Unsynced);
    assert_eq!(sync_of(false, "", ""), Sync::Unsynced);
}

#[test]
fn only_first_matching_site_is_active() {
    assert_eq!(shared_repo_sync(&vec![false, true, true]), vec![Sync::Unsynced, Sync::Synced, Sync::Unsynced]);
    assert_eq!(shared_repo_sync(&vec![false, false]), vec![Sync::Unsynced, Sync::Unsynced]);
    assert!(shared_repo_sync(&vec![]).is_empty());
}

#[test]
fn forms_start_empty_and_edit() {
    let mut f = RsForm::new();
    assert_eq!(f.focus, RsFormField::Name);
    assert!(!f.enter_advances());
    f.type_char('a');
    f.type_char('b');
    f.backspace();
    assert!(f.enter_advances());
    f.tab();
    f.type_char('1');
    assert_eq!((f.name.as_str(), f.ip.as_str(), f.focus), ("a", "1", RsFormField::Ip));
    assert!(!f.enter_advances());

    let mut v = VarForm::new();
    v.backspace();
    v.type_char('K');
    v.tab();
    v.type_char('v');
    assert_eq!((v.key.as_str(), v.value.as_str(), v.focus), ("K", "v", VarFormField::Value));

    let mut r = RepoForm::edit("web", "/srv/web");
    assert_eq!(r.focus, RepoFormField::Path);
    assert_eq!(r.editing.as_deref(), Some("web"));
    r.backspace();
    assert_eq!(r.path, "/srv/we");
    let n = RepoForm::new();
    assert!(n.editing.is_none() && n.name.is_empty() && n.focus == RepoFormField::Name);
}

#[test]
fn selection_is_clamped() {
    assert_eq!(clamp_selection(0, Some(3)), None);
    assert_eq!(clamp_selection(3, None), Some(0));
    assert_eq!(clamp_selection(3, Some(7)), Some(2));
    assert_eq!(clamp_selection(3, Some(1)), Some(1));
}

fn sample() -> Registry {
    let mut r = Registry::new();
    r.add_rs("Alpha".to_string(), "10.0.0.1".to_string());
    r.add_rs("beta".to_string(), "192.168.0.2".to_string());
    r.register_repo("Alpha", "api".to_string(), "/a/api".to_string());
    r.register_repo("Alpha", "web".to_string(), "/a/web".to_string());
    r.add_repo("web".to_string(), "/global/web".to_string());
    r.add_repo("docs".to_string(), "/global/docs".to_string());
    r
}

#[test]
fn filter_rs_by_name_or_ip() {
    let r = sample();
    let all = vec!["Alpha".to_string(), "beta".to_string()];
    assert_eq!(filter_rs(&r, &all, ""), all);
    assert_eq!(filter_rs(&r, &all, "ALP"), vec!["Alpha".to_string()]);
    assert_eq!(filter_rs(&r, &all, "192"), vec!["beta".to_string()]);
    assert!(filter_rs(&r, &all, "zzz").is_empty());
}

#[test]
fn repos_for_site_list_globals_first_once() {
    let r = sample();
    let (repos, globals) = reload_repos(&r, "Alpha", "");
    assert_eq!(globals, 2);
    assert_eq!(repos, vec![
        ("web".to_string(), "/global/web".to_string()),
        ("docs".to_string(), "/global/docs".to_string()),
        ("api".to_string(), "/a/api".to_string()),
    ]);
    let (found, g) = reload_repos(&r, "Alpha", "A");
    assert_eq!(g, 0);
    assert_eq!(found, vec![("api".to_string(), "/a/api".to_string())]);
    let (none_site, g2) = reload_repos(&r, "missing", "");
    assert_eq!(g2, 2);
    assert_eq!(none_site.len(), 2);
}

#[test]
fn deploying_to_a_shared_repo_deactivates_other_sites() {
    let all = vec!["a".to_string(), "b".to_string(), "c".to_string()];
    assert_eq!(mark_active(&all, "b", true), vec![
        ("b".to_string(), Sync::Synced),
        ("a".to_string(), Sync::Unsynced),
        ("c".to_string(), Sync::Unsynced),
    ]);
    assert_eq!(mark_active(&all, "b", false), vec![("b".to_string(), Sync::Synced)]);
}

fn final_state(t: &[(String, String, Sync)], rs: &str, repo: &str) -> Option<Sync> {
    t.iter().rev().find(|(r, p, _)| r == rs && p == repo).map(|(_, _, s)| *s)
}

#[test]
fn sync_table_writes_global_passes_then_site_repositories() {
    let all = vec!["alpha".to_string(), "beta".to_string(), "gamma".to_string()];
    let passes = vec![("web".to_string(), vec![false, true, true])];
    let site = vec![("alpha".to_string(), "api".to_string(), Sync::Synced)];
    let t = sync_table(&all, &passes, &site);
    assert_eq!(t.len(), 4);
    assert_eq!(t[0], ("alpha".to_string(), "web".to_string(), Sync::Unsynced));
    assert_eq!(t[1], ("beta".to_string(), "web".to_string(), Sync::Synced));
    assert_eq!(t[2], ("gamma".to_string(), "web".to_string(), Sync::Unsynced));
    assert_eq!(t[3], ("alpha".to_string(), "api".to_string(), Sync::Synced));
    let active = all.iter().filter(|r| final_state(&t, r, "web") == Some(Sync::Synced)).count();
    assert_eq!(active, 1);
}

#[test]
fn sync_table_skips_site_repositories_shadowed_by_a_global_one() {
    let all = vec!["alpha".to_string(), "beta".to_string()];
    let passes = vec![("web".to_string(), vec![true, false])];
    let site = vec![
        ("beta".to_string(), "web".to_string(), Sync::Synced),
        ("beta".to_string(), "db".to_string(), Sync::Synced),
    ];
    let t = sync_table(&all, &passes, &site);
    assert_eq!(t.len(), 3);
    assert_eq!(final_state(&t, "alpha", "web"), Some(Sync::Synced));
    assert_eq!(final_state(&t, "beta", "web"), Some(Sync::Unsynced));
    assert_eq!(final_state(&t, "beta", "db"), Some(Sync::Synced));
}

#[test]
fn an_edit_that_brings_a_site_in_sync_makes_it_the_active_one() {
    let all = vec!["a".to_string(), "b".to_string(), "c".to_string()];
    assert_eq!(
        edited_sync(&all, "b", true, Sync::Synced),
        vec![("b".to_string(), Sync::Synced), ("a".to_string(), Sync::Unsynced), ("c".to_string(), Sync::Unsynced)]
    );
    assert_eq!(edited_sync(&all, "b", false, Sync::Synced), vec![("b".to_string(), Sync::Synced)]);
    assert_eq!(edited_sync(&all, "b", true, Sync::Unsynced), vec![("b".to_string(), Sync::Unsynced)]);
}

#[test]
fn filter_with_empty_search_shows_every_site_in_order() {
    let reg = sample();
    let all = envctl::registry::site_names(&reg);
    assert_eq!(filter_rs(&reg, &all, ""), all);
}
