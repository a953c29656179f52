use vstd::prelude::*;

use crate::clean_types::CleanOptions;
use crate::commit::CommitOptions;
use crate::merge::{MergeMode, MergeOptions};
use crate::options::{
    AdoptOptions, BranchOptions, InitOptions, OrphanOptions, ReparentOptions, SyncOptions,
};
use crate::pr::PrOptions;
use crate::tree_view::TreeOptions;
use vstd::std_specs::convert::FromSpecImpl;

verus! {

/// Arguments of the adopt command.
#[derive(Debug, Clone)]
pub struct AdoptArgs {
    pub branch_name: Option<String>,
    pub parent_branch_name: String,
}

impl From<AdoptArgs> for AdoptOptions {
    fn from(args: AdoptArgs) -> (r: Self) {
        AdoptOptions { branch_name: args.branch_name, parent_branch_name: args.parent_branch_name }
    }
}

impl FromSpecImpl<AdoptArgs> for AdoptOptions {
    open spec fn obeys_from_spec() -> bool {
        true
    }

    open spec fn from_spec(args: AdoptArgs) -> Self {
        AdoptOptions { branch_name: args.branch_name, parent_branch_name: args.parent_branch_name }
    }
}

/// Arguments of the branch command.
#[derive(Debug, Clone)]
pub struct BranchArgs {
    pub name: String,
    pub parent_branch_name: Option<String>,
}

impl From<BranchArgs> for BranchOptions {
    fn from(args: BranchArgs) -> (r: Self) {
        BranchOptions { name: args.name, parent_branch_name: args.parent_branch_name }
    }
}

impl FromSpecImpl<BranchArgs> for BranchOptions {
    open spec fn obeys_from_spec() -> bool {
        true
    }

    open spec fn from_spec(args: BranchArgs) -> Self {
        BranchOptions { name: args.name, parent_branch_name: args.parent_branch_name }
    }
}

/// Arguments of the clean command.
#[derive(Debug, Clone, Default)]
pub struct CleanArgs {
    pub branch_name: Option<String>,
}

impl From<CleanArgs> for CleanOptions {
    fn from(args: CleanArgs) -> (r: Self) {
        CleanOptions { branch_name: args.branch_name }
    }
}

impl FromSpecImpl<CleanArgs> for CleanOptions {
    open spec fn obeys_from_spec() -> bool {
        true
    }

    open spec fn from_spec(args: CleanArgs) -> Self {
        CleanOptions { branch_name: args.branch_name }
    }
}

/// Arguments of the commit command, passed through to `git commit`.
#[derive(Debug, Clone)]
pub struct CommitArgs {
    pub all: bool,
    pub messages: Vec<String>,
    pub no_edit: bool,
    pub amend: bool,
}

impl From<CommitArgs> for CommitOptions {
    fn from(args: CommitArgs) -> (r: Self) {
        CommitOptions { all: args.all, messages: args.messages, no_edit: args.no_edit, amend: args.amend }
    }
}

impl FromSpecImpl<CommitArgs> for CommitOptions {
    open spec fn obeys_from_spec() -> bool {
        true
    }

    open spec fn from_spec(args: CommitArgs) -> Self {
        CommitOptions { all: args.all, messages: args.messages, no_edit: args.no_edit, amend: args.amend }
    }
}

/// Arguments of the init command (there are none).
#[derive(Debug, Clone, Default)]
pub struct InitArgs {}

impl From<InitArgs> for InitOptions {
    fn from(args: InitArgs) -> (r: Self) {
        InitOptions {  }
    }
}

impl FromSpecImpl<InitArgs> for InitOptions {
    open spec fn obeys_from_spec() -> bool {
        true
    }

    open spec fn from_spec(args: InitArgs) -> Self {
        InitOptions {  }
    }
}

/// Arguments of the merge command.
#[derive(Debug, Clone)]
pub struct MergeArgs {
    pub squash: bool,
    pub messages: Vec<String>,
    pub branch_name: String,
}

impl From<MergeArgs> for MergeOptions {
    fn from(args: MergeArgs) -> (r: Self) {
        MergeOptions {
            branch_name: args.branch_name,
            mode: if args.squash {
                MergeMode::Squash
            } else {
                MergeMode::Normal
            },
            messages: args.messages,
        }
    }
}

impl FromSpecImpl<MergeArgs> for MergeOptions {
    open spec fn obeys_from_spec() -> bool {
        true
    }

    open spec fn from_spec(args: MergeArgs) -> Self {
        MergeOptions {
            branch_name: args.branch_name,
            mode: if args.squash {
                MergeMode::Squash
            } else {
                MergeMode::Normal
            },
            messages: args.messages,
        }
    }
}

/// Arguments of the orphan command.
#[derive(Debug, Clone, Default)]
pub struct OrphanArgs {
    pub branch_name: Option<String>,
}

impl From<OrphanArgs> for OrphanOptions {
    fn from(args: OrphanArgs) -> (r: Self) {
        OrphanOptions { branch_name: args.branch_name }
    }
}

impl FromSpecImpl<OrphanArgs> for OrphanOptions {
    open spec fn obeys_from_spec() -> bool {
        true
    }

    open spec fn from_spec(args: OrphanArgs) -> Self {
        OrphanOptions { branch_name: args.branch_name }
    }
}

/// Arguments of the pr command: a subcommand, or what creating a pull request takes.
#[derive(Debug, Clone)]
pub struct PrArgs {
    pub command: Option<PrCommand>,
    pub title: Option<String>,
    pub body: Option<String>,
    pub draft: bool,
    pub view: bool,
}

/// The subcommands of the pr command.
#[derive(Debug, Clone)]
pub enum PrCommand {
    List(PrListArgs),
}

/// Arguments of `pr list`.
#[derive(Debug, Clone, Default)]
pub struct PrListArgs {
    pub view: bool,
}

impl From<PrArgs> for PrOptions {
    fn from(args: PrArgs) -> (r: Self) {
        PrOptions { title: args.title, body: args.body, draft: args.draft, push_if_needed: false }
    }
}

impl FromSpecImpl<PrArgs> for PrOptions {
    open spec fn obeys_from_spec() -> bool {
        true
    }

    open spec fn from_spec(args: PrArgs) -> Self {
        PrOptions { title: args.title, body: args.body, draft: args.draft, push_if_needed: false }
    }
}

/// Arguments of the reparent command.
#[derive(Debug, Clone, Default)]
pub struct ReparentArgs {
    pub branch_name: Option<String>,
    pub parent_branch_name: String,
}

impl From<ReparentArgs> for ReparentOptions {
    fn from(args: ReparentArgs) -> (r: Self) {
        ReparentOptions { branch_name: args.branch_name, parent_branch_name: args.parent_branch_name }
    }
}

impl FromSpecImpl<ReparentArgs> for ReparentOptions {
    open spec fn obeys_from_spec() -> bool {
        true
    }

    open spec fn from_spec(args: ReparentArgs) -> Self {
        ReparentOptions { branch_name: args.branch_name, parent_branch_name: args.parent_branch_name }
    }
}

/// Arguments of the switch command.
#[derive(Debug, Clone, Default)]
pub struct SwitchArgs {
    pub branch_name: Option<String>,
}

/// Arguments of the sync command.
#[derive(Debug, Clone, Copy, Default)]
pub struct SyncArgs {
    pub continue_operation: bool,
}

impl From<SyncArgs> for SyncOptions {
    fn from(args: SyncArgs) -> (r: Self) {
        SyncOptions { continue_operation: args.continue_operation }
    }
}

impl FromSpecImpl<SyncArgs> for SyncOptions {
    open spec fn obeys_from_spec() -> bool {
        true
    }

    open spec fn from_spec(args: SyncArgs) -> Self {
        SyncOptions { continue_operation: args.continue_operation }
    }
}

/// Arguments of the tree command.
#[derive(Debug, Clone, Default)]
pub struct TreeArgs {
    pub branch_name: Option<String>,
}

impl From<TreeArgs> for TreeOptions {
    fn from(args: TreeArgs) -> (r: Self) {
        TreeOptions { branch_name: args.branch_name }
    }
}

impl FromSpecImpl<TreeArgs> for TreeOptions {
    open spec fn obeys_from_spec() -> bool {
        true
    }

    open spec fn from_spec(args: TreeArgs) -> Self {
        TreeOptions { branch_name: args.branch_name }
    }
}

} // verus!
