use vstd::prelude::*;

use crate::error::{quoted, DigError, ErrorKind};
use crate::git::RepoContext;
use crate::model::{DigConfig, DigState};
use crate::text::{push_str, to_owned_string};

verus! {

/// A path with a relative component appended: a separator goes between them unless the path
/// is empty or already ends in one.
pub open spec fn path_join(base: Seq<char>, name: Seq<char>) -> Seq<char> {
    if base.len() == 0 {
        name
    } else if base.last() == '/' {
        base + name
    } else {
        base + "/"@ + name
    }
}

/// Appends a relative component to a path.
pub fn join_path(base: &str, name: &str) -> (r: String)
    ensures
        r@ == path_join(base@, name@),
{
    let cs = crate::text::chars_of(base);
    let mut r = to_owned_string(base);
    if cs.len() > 0 && cs[cs.len() - 1] != '/' {
        push_str(&mut r, "/");
    }
    push_str(&mut r, name);
    r
}

/// Where the store keeps its files, under the git directory.
#[derive(Debug, Clone, PartialEq, Eq)]
pub struct DaggerPaths {
    pub root: String,
    pub config_file: String,
    pub operation_file: String,
    pub state_file: String,
    pub events_file: String,
}

/// The store directory of a repository.
pub open spec fn store_root(git_dir: Seq<char>) -> Seq<char> {
    path_join(git_dir, ".dagger"@)
}

/// The paths of the store under the given git directory: the `.dagger` directory and its
/// config, operation, state and event files.
pub fn dagger_paths(git_dir: &str) -> (p: DaggerPaths)
    ensures
        p.root@ == store_root(git_dir@),
        p.config_file@ == path_join(store_root(git_dir@), "config.json"@),
        p.operation_file@ == path_join(store_root(git_dir@), "operation.json"@),
        p.state_file@ == path_join(store_root(git_dir@), "state.json"@),
        p.events_file@ == path_join(store_root(git_dir@), "events.ndjson"@),
{
    let root = join_path(git_dir, ".dagger");
    DaggerPaths {
        config_file: join_path(root.as_str(), "config.json"),
        operation_file: join_path(root.as_str(), "operation.json"),
        state_file: join_path(root.as_str(), "state.json"),
        events_file: join_path(root.as_str(), "events.ndjson"),
        root,
    }
}

/// The lock file that keeps two commands from changing the store at once.
#[derive(Debug, PartialEq, Eq)]
pub struct StoreLock {
    pub lock_path: String,
}

/// The path of the lock file in a store directory.
pub fn lock_path_for(store_root: &str) -> (r: String)
    ensures
        r@ == path_join(store_root@, "lock"@),
{
    join_path(store_root, "lock")
}

/// The refusal when the lock file is already there.
pub open spec fn lock_held_message(lock_path: Seq<char>) -> Seq<char> {
    "another dgr process appears to be running; if this is incorrect, delete "@ + quoted(lock_path)
}

/// The failure of a command that found the store locked.
pub fn lock_held_error(lock_path: &str) -> (e: DigError)
    ensures
        e.kind == ErrorKind::Other,
        e.message@ == lock_held_message(lock_path@),
{
    let mut message = to_owned_string("another dgr process appears to be running; if this is incorrect, delete ");
    crate::error::push_quoted(&mut message, lock_path);
    DigError::other(message)
}

/// What bootstrapping the store creates: each of its files that does not exist yet.
pub fn initialize_store(config_exists: bool, state_exists: bool, events_exists: bool) -> (r:
    crate::model::StoreInitialization)
    ensures
        r.created_config == !config_exists,
        r.created_state == !state_exists,
        r.created_events == !events_exists,
{
    crate::model::StoreInitialization {
        created_config: !config_exists,
        created_state: !state_exists,
        created_events: !events_exists,
    }
}

/// An open store: the repository, the paths, the loaded config and state, and the lock held
/// while they are used.
#[derive(Debug)]
pub struct StoreSession {
    pub repo: RepoContext,
    pub paths: DaggerPaths,
    pub config: DigConfig,
    pub state: DigState,
    pub lock: StoreLock,
}

impl StoreSession {
    /// A session from parts already loaded and the lock already taken.
    pub fn from_parts(repo: RepoContext, paths: DaggerPaths, config: DigConfig, state: DigState, lock: StoreLock) -> (s:
        StoreSession)
        ensures
            s.repo == repo,
            s.paths == paths,
            s.config == config,
            s.state == state,
            s.lock == lock,
    {
        StoreSession { repo, paths, config, state, lock }
    }
}

/// The loaded config, or the given refusal when the store was never initialized.
pub fn require_config(config: Option<DigConfig>, missing_message: &str) -> (r: Result<DigConfig, DigError>)
    ensures
        match config {
            Some(c) => r == Ok::<DigConfig, DigError>(c),
            None => r matches Err(e) && e.kind == ErrorKind::Other && e.message@ == missing_message@,
        },
{
    match config {
        Some(c) => Ok(c),
        None => Err(DigError::other(to_owned_string(missing_message))),
    }
}

} // verus!
