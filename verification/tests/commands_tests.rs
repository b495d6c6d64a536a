use envctl::commands::{
    bundle_key, cmd_delete, cmd_get, cmd_import, cmd_list_repos, cmd_list_rs, cmd_list_vars,
    cmd_register, cmd_repo_add, cmd_repo_list, cmd_rs_add, cmd_rs_list, cmd_rs_remove,
    cmd_rs_search, cmd_scan_register, cmd_set, parse_assignment, rs_matches, save_global_repo, split_bundle_key, try_get, try_list_vars, vars_listable, add_var,
    CmdError,
};
use envctl::registry::Registry;
use indexmap::IndexMap;

fn sample() -> Registry {
    let mut r = Registry::new();
    r.add_rs("RS-Alpha".to_string(), "10.0.0.1".to_string());
    r.add_rs("beta".to_string(), "192.168.1.7".to_string());
    r.register_repo("RS-Alpha", "api".to_string(), "/srv/api".to_string());
    r.register_repo("RS-Alpha", "worker".to_string(), "/srv/worker".to_string());
    r.register_repo("beta", "shop".to_string(), "/srv/shop".to_string());
    r
}

fn vars(items: &[(&str, &str)]) -> IndexMap<String, String> {
    let mut m = IndexMap::new();
    for (k, v) in items {
        m.insert(k.to_string(), v.to_string());
    }
    m
}

#[test]
fn rs_list_prints_a_table() {
    let lines = cmd_rs_list(&sample());
    assert_eq!(lines.len(), 4);
    assert_eq!(lines[0], format!("{:<30} {:<20} REPOS", "NAME", "IP"));
    assert_eq!(lines[1], "─".repeat(60));
    assert_eq!(lines[2], format!("{:<30} {:<20} {}", "RS-Alpha", "10.0.0.1", 2));
    assert_eq!(lines[3], format!("{:<30} {:<20} {}", "beta", "192.168.1.7", 1));
}

#[test]
fn rs_list_hints_when_empty() {
    let lines = cmd_list_rs(&Registry::new());
    assert_eq!(lines, vec!["no RS registered — use `envctl rs add <name> --ip <ip>`".to_string()]);
}

#[test]
fn rs_list_keeps_long_names_whole() {
    let mut r = Registry::new();
    let long = "x".repeat(35);
    r.add_rs(long.clone(), "1.1.1.1".to_string());
    assert_eq!(cmd_rs_list(&r)[2], format!("{:<30} {:<20} {}", long, "1.1.1.1", 0));
}

#[test]
fn rs_search_ignores_case_and_matches_ip() {
    let r = sample();
    let lines = cmd_rs_search(&r, "ALPHA");
    assert_eq!(lines.len(), 3);
    assert_eq!(lines[2], format!("{:<30} {:<20} {}", "RS-Alpha", "10.0.0.1", 2));
    let by_ip = cmd_rs_search(&r, "168.1");
    assert_eq!(by_ip.len(), 3);
    assert!(by_ip[2].starts_with("beta"));
    assert_eq!(cmd_rs_search(&r, "zzz"), vec!["no RS matching: zzz".to_string()]);
    assert_eq!(cmd_rs_search(&r, "").len(), 4);
}

#[test]
fn rs_matches_is_case_insensitive() {
    assert!(rs_matches("RS", "rs-one", "1.2.3.4"));
    assert!(rs_matches("ß", "STRASSE-ß", "x"));
    assert!(!rs_matches("q", "abc", "1.2.3.4"));
    assert!(rs_matches("1.2", "abc", "1.2.3.4"));
}

#[test]
fn list_repos_all_and_filtered() {
    let r = sample();
    let all = cmd_list_repos(&r, None);
    assert_eq!(all[0], format!("{:<20} {:<30} {}", "RS", "REPO", "PATH"));
    assert_eq!(all[1], "─".repeat(80));
    assert_eq!(all.len(), 5);
    assert_eq!(all[4], format!("{:<20} {:<30} {}", "beta", "shop", "/srv/shop"));
    let only = cmd_list_repos(&r, Some("beta"));
    assert_eq!(only.len(), 3);
    assert_eq!(cmd_list_repos(&Registry::new(), None), vec!["no RS registered".to_string()]);
}

#[test]
fn repo_list_shows_global_repos() {
    let mut r = sample();
    assert_eq!(cmd_repo_list(&r), vec!["no global repos — use `envctl repo add <name> --path <path>`".to_string()]);
    r.add_repo("web".to_string(), "/srv/web".to_string());
    let lines = cmd_repo_list(&r);
    assert_eq!(lines, vec![
        format!("{:<30} {}", "NAME", "PATH"),
        "─".repeat(70),
        format!("{:<30} {}", "web", "/srv/web"),
    ]);
}

#[test]
fn list_vars_masks_unless_revealed() {
    let v = vars(&[("TOKEN", "abcdef"), ("PIN", "1234")]);
    let masked = cmd_list_vars(&v, "rs", "repo", false);
    assert_eq!(masked[0], format!("{:<40} {}", "KEY", "VALUE"));
    assert_eq!(masked[1], "─".repeat(70));
    assert_eq!(masked[2], format!("{:<40} {}", "TOKEN", "ab••••"));
    assert_eq!(masked[3], format!("{:<40} {}", "PIN", "••••"));
    let shown = cmd_list_vars(&v, "rs", "repo", true);
    assert_eq!(shown[2], format!("{:<40} {}", "TOKEN", "abcdef"));
    assert_eq!(cmd_list_vars(&IndexMap::new(), "rs", "repo", false), vec!["no vars for rs/repo".to_string()]);
}

#[test]
fn parse_assignment_cases() {
    assert_eq!(parse_assignment(" KEY = \"value\" "), Some(("KEY".to_string(), " \"value\" ".to_string())));
    assert_eq!(parse_assignment("KEY=\"value\""), Some(("KEY".to_string(), "value".to_string())));
    assert_eq!(parse_assignment("KEY='\"both\"'"), Some(("KEY".to_string(), "\"both\"".to_string())));
    assert_eq!(parse_assignment("KEY=a=b"), Some(("KEY".to_string(), "a=b".to_string())));
    assert_eq!(parse_assignment("KEY="), Some(("KEY".to_string(), "".to_string())));
    assert_eq!(parse_assignment("novalue"), None);
}

#[test]
fn set_get_delete_variables() {
    let mut v = vars(&[("A", "1")]);
    assert_eq!(cmd_set(&mut v, "B=secret-value").ok(), Some("B".to_string()));
    assert_eq!(cmd_set(&mut v, "A=\"2\"").ok(), Some("A".to_string()));
    let keys: Vec<&String> = v.keys().collect();
    assert_eq!(keys, vec!["A", "B"]);
    assert_eq!(cmd_get(&v, "A", true), Some("2".to_string()));
    assert_eq!(cmd_get(&v, "B", false), Some("se••••".to_string()));
    assert_eq!(cmd_get(&v, "C", true), None);
    match cmd_set(&mut v, "broken") {
        Err(CmdError::BadPair(p)) => assert_eq!(p, "broken"),
        _ => panic!("expected BadPair"),
    }
    assert!(cmd_delete(&mut v, "A").is_ok());
    match cmd_delete(&mut v, "A") {
        Err(CmdError::KeyNotFound(k)) => assert_eq!(k, "A"),
        _ => panic!("expected KeyNotFound"),
    }
    let keys: Vec<&String> = v.keys().collect();
    assert_eq!(keys, vec!["B"]);
}

#[test]
fn import_overrides_and_appends() {
    let mut v = vars(&[("A", "1"), ("B", "2")]);
    let new = vars(&[("B", "20"), ("C", "30")]);
    assert_eq!(cmd_import(&mut v, &new), 2);
    let got: Vec<(String, String)> = v.iter().map(|(k, x)| (k.clone(), x.clone())).collect();
    assert_eq!(got, vec![
        ("A".to_string(), "1".to_string()),
        ("B".to_string(), "20".to_string()),
        ("C".to_string(), "30".to_string()),
    ]);
}

#[test]
fn rs_add_and_remove() {
    let mut r = sample();
    assert!(!cmd_rs_add(&mut r, "beta".to_string(), "1.1.1.1".to_string()));
    assert_eq!(r.rs["beta"].ip, "192.168.1.7");
    assert!(cmd_rs_add(&mut r, "gamma".to_string(), "1.1.1.1".to_string()));
    assert!(cmd_rs_remove(&mut r, "gamma").is_ok());
    match cmd_rs_remove(&mut r, "gamma") {
        Err(CmdError::RsNotFound(n)) => assert_eq!(n, "gamma"),
        _ => panic!("expected RsNotFound"),
    }
}

#[test]
fn repo_add_does_not_replace() {
    let mut r = sample();
    assert!(cmd_repo_add(&mut r, "web".to_string(), "/a".to_string()));
    assert!(!cmd_repo_add(&mut r, "web".to_string(), "/b".to_string()));
    assert_eq!(r.repos.get("web").map(String::as_str), Some("/a"));
}

#[test]
fn register_checks_site_and_existing_name() {
    let mut r = sample();
    assert!(matches!(cmd_register(&mut r, "none", "x".to_string(), "/x".to_string()), Err(CmdError::RsNotFound(_))));
    assert_eq!(cmd_register(&mut r, "beta", "shop".to_string(), "/other".to_string()).ok(), Some(false));
    assert_eq!(r.rs["beta"].repos.get("shop").map(String::as_str), Some("/srv/shop"));
    assert_eq!(cmd_register(&mut r, "beta", "new".to_string(), "/new".to_string()).ok(), Some(true));
    assert_eq!(r.rs["beta"].repos.get("new").map(String::as_str), Some("/new"));
}

#[test]
fn scan_registers_new_names_once() {
    let mut r = sample();
    let found = vec![
        ("api".to_string(), "/scan/api".to_string()),
        ("one".to_string(), "/scan/one".to_string()),
        ("one".to_string(), "/scan/one-again".to_string()),
    ];
    assert_eq!(cmd_scan_register(&mut r, "RS-Alpha", &found).ok(), Some(vec![false, true, false]));
    assert_eq!(r.rs["RS-Alpha"].repos.get("api").map(String::as_str), Some("/srv/api"));
    assert_eq!(r.rs["RS-Alpha"].repos.get("one").map(String::as_str), Some("/scan/one"));
    assert!(matches!(cmd_scan_register(&mut r, "none", &found), Err(CmdError::RsNotFound(_))));
}

#[test]
fn bundle_keys_split_back() {
    let k = bundle_key("site", "repo/with/slash");
    assert_eq!(k, "site/repo/with/slash");
    assert_eq!(split_bundle_key(&k).ok(), Some(("site".to_string(), "repo/with/slash".to_string())));
    match split_bundle_key("noslash") {
        Err(CmdError::BadBundleKey(k)) => assert_eq!(k, "noslash"),
        _ => panic!("expected BadBundleKey"),
    }
}

#[test]
fn repository_form_saves_new_and_edited_repositories() {
    let mut reg = Registry::new();
    assert!(save_global_repo(&mut reg, None, "api".to_string(), "/a".to_string()));
    assert!(save_global_repo(&mut reg, None, "web".to_string(), "/w".to_string()));
    assert!(!save_global_repo(&mut reg, None, "api".to_string(), "/other".to_string()));
    assert_eq!(reg.repos.get("api").map(String::as_str), Some("/a"));
    assert!(save_global_repo(&mut reg, Some("api"), "core".to_string(), "/c".to_string()));
    let names: Vec<&str> = reg.repos.keys().map(String::as_str).collect();
    assert_eq!(names, vec!["web", "core"]);
    assert_eq!(reg.repos.get("core").map(String::as_str), Some("/c"));
    assert!(save_global_repo(&mut reg, Some("web"), "web".to_string(), "/w2".to_string()));
    let names: Vec<&str> = reg.repos.keys().map(String::as_str).collect();
    assert_eq!(names, vec!["core", "web"]);
}

#[test]
fn try_get_and_try_list_refuse_values_that_cannot_be_masked() {
    let v = vars(&[("A", "secret"), ("B", "aéxyz")]);
    assert_eq!(try_get(&v, "A", false), Some(Some("se••••".to_string())));
    assert_eq!(try_get(&v, "B", false), None);
    assert_eq!(try_get(&v, "B", true), Some(Some("aéxyz".to_string())));
    assert_eq!(try_get(&v, "C", false), Some(None));
    assert!(!vars_listable(&v, false));
    assert!(vars_listable(&v, true));
    assert_eq!(try_list_vars(&v, "rs", "repo", false), None);
    assert_eq!(try_list_vars(&v, "rs", "repo", true).map(|l| l.len()), Some(4));
    let ok = vars(&[("A", "secret")]);
    assert_eq!(try_list_vars(&ok, "rs", "repo", false), Some(cmd_list_vars(&ok, "rs", "repo", false)));
}

#[test]
fn add_var_replaces_in_place_or_appends() {
    let mut v = vars(&[("A", "1"), ("B", "2")]);
    add_var(&mut v, "A".to_string(), "9".to_string());
    add_var(&mut v, "C".to_string(), "3".to_string());
    let pairs: Vec<(&str, &str)> = v.iter().map(|(k, x)| (k.as_str(), x.as_str())).collect();
    assert_eq!(pairs, vec![("A", "9"), ("B", "2"), ("C", "3")]);
}
