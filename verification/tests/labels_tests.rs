use envctl::labels::{
    counted_title, diff_title, env_hint, repo_mgr_hint, repos_title, rs_mgr_hint, rs_pane_title, status_line, vars_title,
};
use envctl::screen::{Mode, Pane};

#[test]
fn site_pane_titles() {
    assert_eq!(rs_pane_title(Mode::SearchRs, "we", 1, 3), " ◈ RS / we ");
    assert_eq!(rs_pane_title(Mode::Normal, "we", 1, 3), " ◈ RS [1/3] / we ");
    assert_eq!(rs_pane_title(Mode::Normal, "", 3, 3), " ◈ RS [3] ");
    assert_eq!(rs_pane_title(Mode::Search, "", 0, 12), " ◈ RS [12] ");
}

#[test]
fn repository_pane_titles() {
    assert_eq!(repos_title(Mode::Search, "alpha", 2, 5, "ap"), " REPOS / ap ");
    assert_eq!(repos_title(Mode::Normal, "alpha", 2, 5, "ap"), " REPOS [alpha] 2/5 / ap ");
    assert_eq!(repos_title(Mode::Normal, "—", 0, 0, ""), " REPOS [—] 0/0 ");
}

#[test]
fn other_titles() {
    assert_eq!(vars_title("alpha", "api", 7), " VARS — alpha/api [7] ");
    assert_eq!(diff_title("alpha", "api"), " DIFF — alpha/api (disk → store) ");
    assert_eq!(counted_title("RS Manager", 10), " RS Manager [10] ");
    assert_eq!(counted_title("Repo Manager", 0), " Repo Manager [0] ");
}

#[test]
fn hints_follow_mode_and_pane() {
    assert_eq!(env_hint(Mode::Search, Pane::Vars), " [enter/esc] done searching");
    assert_eq!(env_hint(Mode::SearchRs, Pane::Rs), " [enter/esc] done  type to filter RS by name or IP");
    assert_eq!(
        env_hint(Mode::Normal, Pane::Vars),
        " [j/k] scroll  [n]ew var  [e]dit bulk  [v]alues  [tab/esc/←] back"
    );
    assert_eq!(rs_mgr_hint(true), " [tab] next field  [enter] confirm  [esc] cancel");
    assert_eq!(repo_mgr_hint(false), " [j/k] nav  [a]dd  [e]dit  [d]elete  [esc/q] menu");
}

#[test]
fn status_line_puts_the_message_first() {
    assert_eq!(status_line("", " [q] quit"), " [q] quit");
    assert_eq!(status_line("saved", " [q] quit"), "  saved  │ [q] quit");
}
