//! The command line: the commands and their arguments as plain values.

use vstd::prelude::*;

verus! {

/// The parsed command line; no command opens the interactive screens.
pub struct Cli {
    pub command: Option<Command>,
}

/// The commands.
pub enum Command {
    /// Generate age keypair and initialize config dir
    Init,
    /// Manage rumah sakit (RS) entries
    Rs { cmd: RsCommand },
    /// Manage global repositories (shared path, per-RS env)
    Repo { cmd: RepoCommand },
    /// Register a repo under an RS
    Register { path: String, rs: String, name: Option<String> },
    /// Scan a directory for git repos and register under an RS
    Scan { dir: String, rs: String },
    /// List RS, repos, or vars
    List { target: ListTarget },
    /// Set a var: KEY=VALUE
    SetVar { rs: String, repo: String, pair: String },
    /// Get a var value
    Get { rs: String, repo: String, key: String, reveal: bool },
    /// Delete a var
    Delete { rs: String, repo: String, key: String },
    /// Import a .env file into the store
    Import { rs: String, repo: String, env_file: String },
    /// Open $EDITOR to edit all vars for a repo
    Edit { rs: String, repo: String },
    /// Write .env to repo path(s)
    Apply { rs: Option<String>, repo: Option<String>, all: bool },
    /// Show diff between store and disk .env
    Diff { rs: String, repo: String },
    /// Export registry (RS + repo structure) for sharing
    Export { target: ExportTarget },
    /// Merge a shared registry file into local registry
    MergeRegistry { file: String, overwrite: bool },
    /// Import a bundle file (registry + all vars)
    ImportBundle { file: String, overwrite: bool },
    /// Dump vars as plaintext .env to stdout (for sharing)
    Dump { rs: String, repo: String },
}

/// The `repo` subcommands.
pub enum RepoCommand {
    /// Add a global repo: NAME --path PATH
    Add { name: String, path: String },
    /// List all global repos
    List,
    /// Remove a global repo
    Remove { name: String },
    /// Update path for a global repo
    Update { name: String, path: String },
}

/// The `rs` subcommands.
pub enum RsCommand {
    /// Add an RS: NAME --ip IP
    Add { name: String, ip: String },
    /// List all RS entries
    List,
    /// Remove an RS entry
    Remove { name: String },
    /// Search RS by name or IP
    Search { query: String },
}

/// The `export` subcommands.
pub enum ExportTarget {
    /// Export RS + repo structure only (no secrets)
    Registry { output: Option<String> },
    /// Export everything: registry + all vars plaintext (for sharing)
    Bundle { output: Option<String> },
}

/// The `list` subcommands.
pub enum ListTarget {
    /// List all RS entries
    Rs,
    /// List repos (all RS, or filter by --rs)
    Repos { rs: Option<String> },
    /// List vars for a repo
    Vars { rs: String, repo: String, reveal: bool },
}

/// What `apply` does.
pub enum ApplyPlan {
    /// Write the `.env` of one site's repository.
    One { rs: String, repo: String },
    /// Write the `.env` of every registered repository.
    All,
    /// Neither was asked for.
    Missing,
}

/// `apply` with a site and a repository writes that one, even with `--all`;
/// otherwise `--all` writes every one; otherwise it is an error.
pub fn apply_plan(rs: Option<String>, repo: Option<String>, all: bool) -> (p: ApplyPlan)
    ensures
        (rs is Some && repo is Some) ==> (p matches ApplyPlan::One { rs: r, repo: o } && r == rs->0 && o == repo->0),
        !(rs is Some && repo is Some) && all ==> p is All,
        !(rs is Some && repo is Some) && !all ==> p is Missing,
{
    match (rs, repo) {
        (Some(rs), Some(repo)) => ApplyPlan::One { rs, repo },
        _ => if all {
            ApplyPlan::All
        } else {
            ApplyPlan::Missing
        },
    }
}

} // verus!
