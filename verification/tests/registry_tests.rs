use envctl::merge::merge_registry;
use envctl::registry::{site_repos, Registry, RegistryError, RsEntry};
use indexmap::IndexMap;

fn site(ip: &str, repos: &[(&str, &str)]) -> RsEntry {
    let mut m = IndexMap::new();
    for (k, v) in repos {
        m.insert(k.to_string(), v.to_string());
    }
    RsEntry { ip: ip.to_string(), repos: m }
}

fn sample() -> Registry {
    let mut r = Registry::new();
    r.add_rs("alpha".to_string(), "10.0.0.1".to_string());
    r.add_rs("beta".to_string(), "10.0.0.2".to_string());
    r.register_repo("alpha", "api".to_string(), "/srv/alpha/api".to_string());
    r.add_repo("web".to_string(), "/srv/web".to_string());
    r
}

#[test]
fn add_rs_keeps_an_existing_site() {
    let mut r = sample();
    r.add_rs("alpha".to_string(), "9.9.9.9".to_string());
    assert_eq!(r.rs.len(), 2);
    assert_eq!(r.rs["alpha"].ip, "10.0.0.1");
    assert_eq!(r.rs["alpha"].repos.len(), 1);
}

#[test]
fn add_rs_appends_a_new_site_without_repos() {
    let mut r = sample();
    r.add_rs("gamma".to_string(), "10.0.0.3".to_string());
    let names: Vec<&String> = r.rs.keys().collect();
    assert_eq!(names, vec!["alpha", "beta", "gamma"]);
    assert!(r.rs["gamma"].repos.is_empty());
}

#[test]
fn register_repo_needs_an_existing_site() {
    let mut r = sample();
    assert!(!r.register_repo("nowhere", "x".to_string(), "/x".to_string()));
    assert!(r.register_repo("beta", "x".to_string(), "/x".to_string()));
    assert_eq!(r.rs["beta"].repos.get("x").map(String::as_str), Some("/x"));
    let names: Vec<&String> = r.rs.keys().collect();
    assert_eq!(names, vec!["alpha", "beta"]);
}

#[test]
fn get_repo_path_prefers_global_repos() {
    let mut r = sample();
    assert_eq!(r.get_repo_path("alpha", "api").as_deref(), Some("/srv/alpha/api"));
    assert_eq!(r.get_repo_path("beta", "api"), None);
    assert_eq!(r.get_repo_path("beta", "web").as_deref(), Some("/srv/web"));
    r.register_repo("alpha", "web".to_string(), "/srv/alpha/web".to_string());
    assert_eq!(r.get_repo_path("alpha", "web").as_deref(), Some("/srv/web"));
    assert_eq!(r.get_repo_path("nowhere", "web").as_deref(), Some("/srv/web"));
    assert_eq!(r.get_repo_path("nowhere", "api"), None);
}

#[test]
fn remove_repo_reports_whether_it_was_there() {
    let mut r = sample();
    assert!(r.remove_repo("web"));
    assert!(!r.remove_repo("web"));
    assert_eq!(r.get_repo_path("alpha", "web"), None);
}

#[test]
fn update_repo_refuses_an_unknown_repo() {
    let mut r = sample();
    match r.update_repo("nope", "/x".to_string()) {
        Err(RegistryError::RepoNotFound(n)) => assert_eq!(n, "nope"),
        Ok(()) => panic!("expected an error"),
    }
    assert!(r.update_repo("web", "/srv/web2".to_string()).is_ok());
    assert_eq!(r.repos.get("web").map(String::as_str), Some("/srv/web2"));
}

#[test]
fn find_by_ip_gives_the_first_site_with_the_address() {
    let mut r = sample();
    r.add_rs("delta".to_string(), "10.0.0.2".to_string());
    assert_eq!(r.find_by_ip("10.0.0.2"), Some("beta"));
    assert_eq!(r.find_by_ip("10.0.0.9"), None);
}

#[test]
fn rs_entry_clone_is_equal() {
    let e = site("1.2.3.4", &[("a", "/a"), ("b", "/b")]);
    let c = e.clone();
    assert_eq!(c.ip, e.ip);
    assert_eq!(c.repos, e.repos);
}

fn incoming() -> Registry {
    let mut r = Registry::new();
    r.rs.insert("alpha".to_string(), site("1.1.1.1", &[("api", "/new/api"), ("worker", "/new/worker")]));
    r.rs.insert("gamma".to_string(), site("10.0.0.3", &[("x", "/x")]));
    r.repos.insert("web".to_string(), "/new/web".to_string());
    r.repos.insert("docs".to_string(), "/docs".to_string());
    r
}

#[test]
fn merge_without_overwrite_keeps_existing_entries() {
    let mut r = sample();
    let (sites, repos) = merge_registry(&mut r, &incoming(), false);
    assert_eq!(sites, 1);
    assert_eq!(repos, 2);
    assert_eq!(r.rs["alpha"].ip, "10.0.0.1");
    assert_eq!(r.rs["alpha"].repos.get("api").map(String::as_str), Some("/srv/alpha/api"));
    assert_eq!(r.rs["alpha"].repos.get("worker").map(String::as_str), Some("/new/worker"));
    assert_eq!(r.rs["gamma"].ip, "10.0.0.3");
    assert_eq!(r.repos.get("web").map(String::as_str), Some("/srv/web"));
    assert_eq!(r.repos.get("docs").map(String::as_str), Some("/docs"));
}

#[test]
fn merge_with_overwrite_takes_incoming_entries() {
    let mut r = sample();
    let (sites, repos) = merge_registry(&mut r, &incoming(), true);
    assert_eq!(sites, 2);
    assert_eq!(repos, 2);
    assert_eq!(r.rs["alpha"].ip, "1.1.1.1");
    assert_eq!(r.rs["alpha"].repos.get("api").map(String::as_str), Some("/new/api"));
    assert_eq!(r.repos.get("web").map(String::as_str), Some("/new/web"));
    let names: Vec<&String> = r.rs.keys().collect();
    assert_eq!(names, vec!["alpha", "beta", "gamma"]);
}

#[test]
fn site_repos_lists_each_sites_own_repositories_in_order() {
    let mut r = sample();
    r.register_repo("beta", "db".to_string(), "/srv/beta/db".to_string());
    r.register_repo("alpha", "ui".to_string(), "/srv/alpha/ui".to_string());
    let t = site_repos(&r);
    let expected = vec![
        ("alpha".to_string(), "api".to_string(), "/srv/alpha/api".to_string()),
        ("alpha".to_string(), "ui".to_string(), "/srv/alpha/ui".to_string()),
        ("beta".to_string(), "db".to_string(), "/srv/beta/db".to_string()),
    ];
    assert_eq!(t, expected);
    assert!(site_repos(&Registry::new()).is_empty());
}

#[test]
fn site_names_in_registry_order() {
    let r = sample();
    assert_eq!(envctl::registry::site_names(&r), vec!["alpha".to_string(), "beta".to_string()]);
}
