use vstd::prelude::*;

verus! {

/// What the adopt command adopts: a branch (the current one when absent) under a parent.
#[derive(Debug, Clone, PartialEq, Eq)]
pub struct AdoptOptions {
    pub branch_name: Option<String>,
    pub parent_branch_name: String,
}

/// What the branch command creates: a branch, with an optional parent override.
#[derive(Debug, Clone, PartialEq, Eq)]
pub struct BranchOptions {
    pub name: String,
    pub parent_branch_name: Option<String>,
}

/// What the orphan command stops tracking: a branch, or the current one.
#[derive(Debug, Clone, Default, PartialEq, Eq)]
pub struct OrphanOptions {
    pub branch_name: Option<String>,
}

/// What the reparent command moves: a branch (or the current one) onto a new parent.
#[derive(Debug, Clone, PartialEq, Eq)]
pub struct ReparentOptions {
    pub branch_name: Option<String>,
    pub parent_branch_name: String,
}

/// The init command takes no options.
#[derive(Debug, Clone, Default, PartialEq, Eq)]
pub struct InitOptions {}

/// What the sync command does: a fresh sync, or the continuation of a paused one.
#[derive(Debug, Clone, Copy, Default, PartialEq, Eq)]
pub struct SyncOptions {
    pub continue_operation: bool,
}

} // verus!
