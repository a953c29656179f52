use vstd::prelude::*;

use crate::error::{DigError, ErrorKind};
use crate::gh::combined_spec;
use crate::text::{
    chars_of, decimal_value, digit_value, is_digit, lemma_decimal_value_prefix, lines, lines_spec,
    occurs_at, matches_at, push_str, split_at_whitespace, split_char, split_spec, str_equal,
    string_from_range, to_owned_string, trim, trim_spec, views, ws_split_spec,
};

verus! {

/// How `git cherry` marks a commit of a branch against its upstream.
#[derive(Debug, Clone, Copy, PartialEq, Eq, Structural)]
pub enum CherryMarker {
    Equivalent,
    Missing,
}

/// How far a rebase got: the commit it is at, of how many.
#[derive(Debug, Clone, Copy, PartialEq, Eq, Structural)]
pub struct RebaseProgress {
    pub current: usize,
    pub total: usize,
}

/// What a run of git gave back.
#[derive(Debug, Clone, PartialEq, Eq)]
pub struct GitCommandOutput {
    pub success: bool,
    pub stdout: String,
    pub stderr: String,
}

impl GitCommandOutput {
    /// Standard output and error of the command, each trimmed, on two lines when both have
    /// text.
    pub fn combined_output(&self) -> (r: String)
        ensures
            r@ == combined_spec(self.stdout@, self.stderr@),
    {
        crate::gh::combine_command_output(self.stdout.as_str(), self.stderr.as_str())
    }
}

/// A commit with its hash, subject and message.
#[derive(Debug, Clone, PartialEq, Eq)]
pub struct CommitMetadata {
    pub sha: String,
    pub subject: String,
    pub body: String,
}

/// The remote a branch is pushed to, and the branch.
#[derive(Debug, Clone, PartialEq, Eq)]
pub struct BranchPushTarget {
    pub remote_name: String,
    pub branch_name: String,
}

/// The git directory of a repository.
#[derive(Debug, Clone, PartialEq, Eq)]
pub struct RepoContext {
    pub git_dir: String,
}

/// Which marks of an unfinished git operation the git directory holds.
#[derive(Debug, Clone, Copy, PartialEq, Eq, Structural)]
pub struct InProgressMarkers {
    pub merge_head: bool,
    pub cherry_pick_head: bool,
    pub rebase_head: bool,
    pub rebase_merge: bool,
    pub rebase_apply: bool,
}

/// The message of a failed git command: its trimmed standard error, or a plain note when that
/// is empty.
pub open spec fn git_failure_message(stderr: Seq<char>) -> Seq<char> {
    if trim_spec(stderr).len() == 0 {
        "git command failed"@
    } else {
        trim_spec(stderr)
    }
}

/// The failure of a git command.
pub fn git_command_failed(stderr: &str) -> (e: DigError)
    ensures
        e.kind == ErrorKind::Other,
        e.message@ == git_failure_message(stderr@),
{
    let message = trim(stderr);
    if message.as_str().unicode_len() == 0 {
        DigError::other(to_owned_string("git command failed"))
    } else {
        DigError::other(message)
    }
}

/// What a git command that is read for its output gives: its trimmed output, or its failure.
pub open spec fn read_stdout_spec(output: GitCommandOutput) -> Result<Seq<char>, (ErrorKind, Seq<char>)> {
    if output.success {
        Ok(trim_spec(output.stdout@))
    } else {
        Err((ErrorKind::Other, git_failure_message(output.stderr@)))
    }
}

/// The trimmed output of a git command, or its failure.
pub fn read_git_stdout(output: &GitCommandOutput) -> (r: Result<String, DigError>)
    ensures
        match r {
            Ok(s) => read_stdout_spec(*output) == Ok::<Seq<char>, (ErrorKind, Seq<char>)>(s@),
            Err(e) => read_stdout_spec(*output) == Err::<Seq<char>, (ErrorKind, Seq<char>)>((e.kind, e.message@)),
        },
{
    if output.success {
        Ok(trim(output.stdout.as_str()))
    } else {
        Err(git_command_failed(output.stderr.as_str()))
    }
}

/// The commit a ref points at, from the output of `git rev-parse`.
pub fn ref_oid(output: &GitCommandOutput) -> (r: Result<String, DigError>)
    ensures
        match r {
            Ok(s) => read_stdout_spec(*output) == Ok::<Seq<char>, (ErrorKind, Seq<char>)>(s@),
            Err(e) => read_stdout_spec(*output) == Err::<Seq<char>, (ErrorKind, Seq<char>)>((e.kind, e.message@)),
        },
{
    read_git_stdout(output)
}

/// The merge base of two refs, from the output of `git merge-base`.
pub fn merge_base(output: &GitCommandOutput) -> (r: Result<String, DigError>)
    ensures
        match r {
            Ok(s) => read_stdout_spec(*output) == Ok::<Seq<char>, (ErrorKind, Seq<char>)>(s@),
            Err(e) => read_stdout_spec(*output) == Err::<Seq<char>, (ErrorKind, Seq<char>)>((e.kind, e.message@)),
        },
{
    read_git_stdout(output)
}

/// The checked out branch, from the output of `git branch --show-current`; none on a detached
/// HEAD.
pub fn current_branch_name_if_any(output: &GitCommandOutput) -> (r: Result<Option<String>, DigError>)
    ensures
        match r {
            Ok(Some(s)) => read_stdout_spec(*output) == Ok::<Seq<char>, (ErrorKind, Seq<char>)>(s@) && s@.len() > 0,
            Ok(None) => read_stdout_spec(*output) == Ok::<Seq<char>, (ErrorKind, Seq<char>)>(Seq::<char>::empty()),
            Err(e) => read_stdout_spec(*output) == Err::<Seq<char>, (ErrorKind, Seq<char>)>((e.kind, e.message@)),
        },
{
    let branch_name = match read_git_stdout(output) {
        Ok(s) => s,
        Err(e) => return Err(e),
    };
    if branch_name.as_str().unicode_len() == 0 {
        proof {
            assert(branch_name@ =~= Seq::<char>::empty());
        }
        Ok(None)
    } else {
        Ok(Some(branch_name))
    }
}

/// The failure message on a detached HEAD.
pub open spec fn detached_head_message() -> Seq<char> {
    "dig branch requires a named branch; detached HEAD is not supported"@
}

/// The checked out branch; a detached HEAD is refused.
pub fn current_branch_name(output: &GitCommandOutput) -> (r: Result<String, DigError>)
    ensures
        match r {
            Ok(s) => read_stdout_spec(*output) == Ok::<Seq<char>, (ErrorKind, Seq<char>)>(s@) && s@.len() > 0,
            Err(e) => match read_stdout_spec(*output) {
                Ok(s) => s.len() == 0 && e.kind == ErrorKind::Other && e.message@ == detached_head_message(),
                Err(f) => f == (e.kind, e.message@),
            },
        },
{
    match current_branch_name_if_any(output) {
        Ok(Some(name)) => Ok(name),
        Ok(None) => Err(
            DigError::other(
                to_owned_string("dig branch requires a named branch; detached HEAD is not supported"),
            ),
        ),
        Err(e) => Err(e),
    }
}

/// The checked out branch, or `default` when there is none or git fails.
pub fn current_branch_name_or(output: &GitCommandOutput, default: &str) -> (r: String)
    ensures
        r@ == match read_stdout_spec(*output) {
            Ok(s) => if s.len() > 0 {
                s
            } else {
                default@
            },
            Err(_) => default@,
        },
{
    match current_branch_name(output) {
        Ok(name) => name,
        Err(_) => to_owned_string(default),
    }
}

/// The message when a command needs a clean working tree.
pub open spec fn dirty_worktree_message(command_name: Seq<char>) -> Seq<char> {
    command_name + " requires a clean working tree"@
}

/// Success when `git status --porcelain` reports nothing; else the command is refused.
pub fn ensure_clean_worktree(command_name: &str, output: &GitCommandOutput) -> (r: Result<(), DigError>)
    ensures
        match read_stdout_spec(*output) {
            Ok(s) => if s.len() == 0 {
                r is Ok
            } else {
                r matches Err(e) && e.kind == ErrorKind::Other && e.message@ == dirty_worktree_message(command_name@)
            },
            Err(f) => r matches Err(e) && (e.kind, e.message@) == f,
        },
{
    let status = match read_git_stdout(output) {
        Ok(s) => s,
        Err(e) => return Err(e),
    };
    if status.as_str().unicode_len() == 0 {
        Ok(())
    } else {
        let mut message = to_owned_string(command_name);
        push_str(&mut message, " requires a clean working tree");
        Err(DigError::other(message))
    }
}

/// The unfinished operation a command refuses to run during, if any.
pub open spec fn in_progress_operation(m: InProgressMarkers) -> Option<Seq<char>> {
    if m.merge_head {
        Some("merge"@)
    } else if m.cherry_pick_head {
        Some("cherry-pick"@)
    } else if m.rebase_head || m.rebase_merge || m.rebase_apply {
        Some("rebase"@)
    } else {
        None
    }
}

/// Success unless git is in the middle of a merge, cherry-pick or rebase.
pub fn ensure_no_in_progress_operations(markers: &InProgressMarkers, command_name: &str) -> (r: Result<(), DigError>)
    ensures
        match in_progress_operation(*markers) {
            None => r is Ok,
            Some(op) => r matches Err(e) && e.kind == ErrorKind::Other && e.message@ == "dig "@
                + command_name@ + " cannot run while a git "@ + op + " is in progress"@,
        },
{
    let op = if markers.merge_head {
        "merge"
    } else if markers.cherry_pick_head {
        "cherry-pick"
    } else if markers.rebase_head || markers.rebase_merge || markers.rebase_apply {
        "rebase"
    } else {
        return Ok(());
    };
    let mut message = to_owned_string("dig ");
    push_str(&mut message, command_name);
    push_str(&mut message, " cannot run while a git ");
    push_str(&mut message, op);
    push_str(&mut message, " is in progress");
    Err(DigError::other(message))
}

/// Whether git is in the middle of a rebase.
pub fn is_rebase_in_progress(markers: &InProgressMarkers) -> (r: bool)
    ensures
        r == (markers.rebase_head || markers.rebase_merge || markers.rebase_apply),
{
    markers.rebase_head || markers.rebase_merge || markers.rebase_apply
}

/// `refs/remotes/<remote>/<branch>`.
pub fn remote_tracking_ref_name(remote_name: &str, branch_name: &str) -> (r: String)
    ensures
        r@ == "refs/remotes/"@ + remote_name@ + "/"@ + branch_name@,
{
    let mut r = to_owned_string("refs/remotes/");
    push_str(&mut r, remote_name);
    push_str(&mut r, "/");
    push_str(&mut r, branch_name);
    r
}

/// `<remote>/<branch>`.
pub fn remote_tracking_branch_ref(remote_name: &str, branch_name: &str) -> (r: String)
    ensures
        r@ == remote_name@ + "/"@ + branch_name@,
{
    let mut r = to_owned_string(remote_name);
    push_str(&mut r, "/");
    push_str(&mut r, branch_name);
    r
}

/// The commit a remote tracking branch points at, from the output of `git rev-parse --verify`;
/// none when it does not exist.
pub fn remote_tracking_branch_oid(output: &GitCommandOutput) -> (r: Option<String>)
    ensures
        match r {
            Some(s) => output.success && s@ == trim_spec(output.stdout@),
            None => !output.success,
        },
{
    if output.success {
        Some(trim(output.stdout.as_str()))
    } else {
        None
    }
}

/// The remote configured for a branch, from the output of `git config --get`.
pub fn configured_branch_remote_name(output: &GitCommandOutput) -> (r: Option<String>)
    ensures
        match r {
            Some(s) => output.success && s@ == trim_spec(output.stdout@) && s@.len() > 0,
            None => !output.success || trim_spec(output.stdout@).len() == 0,
        },
{
    if !output.success {
        return None;
    }
    let remote_name = trim(output.stdout.as_str());
    if remote_name.as_str().unicode_len() == 0 {
        None
    } else {
        Some(remote_name)
    }
}

/// The non-blank lines of `ls[i..]`, trimmed.
pub open spec fn trimmed_nonblank_from(ls: Seq<Seq<char>>, i: int) -> Seq<Seq<char>>
    decreases ls.len() - i,
{
    if i < 0 || i >= ls.len() {
        Seq::<Seq<char>>::empty()
    } else if trim_spec(ls[i]).len() == 0 {
        trimmed_nonblank_from(ls, i + 1)
    } else {
        seq![trim_spec(ls[i])] + trimmed_nonblank_from(ls, i + 1)
    }
}

/// The names of the remotes, from the output of `git remote`.
pub fn git_remote_names(stdout: &str) -> (r: Vec<String>)
    ensures
        views(r@) == trimmed_nonblank_from(lines_spec(stdout@), 0),
{
    let ls = lines(stdout);
    let ghost lv = views(ls@);
    let mut r: Vec<String> = Vec::new();
    let mut i: usize = 0;
    while i < ls.len()
        invariant
            i <= ls.len(),
            lv == views(ls@),
            lv.len() == ls@.len(),
            views(r@) + trimmed_nonblank_from(lv, i as int) == trimmed_nonblank_from(lv, 0),
        decreases ls.len() - i,
    {
        proof {
            assert(lv[i as int] == ls@[i as int]@);
        }
        let t = trim(ls[i].as_str());
        if t.as_str().unicode_len() > 0 {
            let ghost before = views(r@);
            r.push(t);
            proof {
                assert(views(r@) =~= before.push(trim_spec(lv[i as int])));
                assert(views(r@) + trimmed_nonblank_from(lv, i as int + 1) =~= before + trimmed_nonblank_from(
                    lv,
                    i as int,
                ));
            }
        }
        i = i + 1;
    }
    proof {
        assert(views(r@) =~= trimmed_nonblank_from(lv, 0));
    }
    r
}

/// The remote to push a branch to: the configured one, else the only remote, else `origin`
/// when there is one.
pub open spec fn push_remote_spec(configured: Option<Seq<char>>, remotes: Seq<Seq<char>>) -> Option<Seq<char>> {
    match configured {
        Some(c) => Some(c),
        None => if remotes.len() == 0 {
            None
        } else if remotes.len() == 1 {
            Some(remotes[0])
        } else if remotes.contains("origin"@) {
            Some("origin"@)
        } else {
            None
        },
    }
}

/// The remote to push a branch to.
pub fn resolve_push_remote_name(configured: Option<String>, remote_names: &Vec<String>) -> (r: Option<String>)
    ensures
        match r {
            Some(s) => push_remote_spec(
                match configured {
                    Some(c) => Some(c@),
                    None => None,
                },
                views(remote_names@),
            ) == Some(s@),
            None => push_remote_spec(
                match configured {
                    Some(c) => Some(c@),
                    None => None,
                },
                views(remote_names@),
            ) is None,
        },
{
    match configured {
        Some(c) => Some(c),
        None => {
            if remote_names.len() == 0 {
                return None;
            }
            if remote_names.len() == 1 {
                return Some(remote_names[0].clone());
            }
            let mut i: usize = 0;
            while i < remote_names.len()
                invariant
                    i <= remote_names.len(),
                    remote_names.len() > 1,
                    configured is None,
                    forall|j: int| 0 <= j < i ==> remote_names@[j]@ != "origin"@,
                decreases remote_names.len() - i,
            {
                if str_equal(remote_names[i].as_str(), "origin") {
                    proof {
                        assert(views(remote_names@)[i as int] == "origin"@);
                        assert(views(remote_names@).contains("origin"@));
                        assert(views(remote_names@).len() == remote_names@.len());
                    }
                    return Some(to_owned_string("origin"));
                }
                i = i + 1;
            }
            proof {
                assert forall|j: int| 0 <= j < views(remote_names@).len() implies views(remote_names@)[j]
                    != "origin"@ by {
                    assert(views(remote_names@)[j] == remote_names@[j]@);
                }
            }
            None
        },
    }
}

/// Where to push a branch, if it has a remote.
pub fn branch_push_target(remote_name: Option<String>, branch_name: &str) -> (r: Option<BranchPushTarget>)
    ensures
        match r {
            Some(t) => remote_name == Some(t.remote_name) && t.branch_name@ == branch_name@,
            None => remote_name is None,
        },
{
    match remote_name {
        Some(remote_name) => Some(BranchPushTarget { remote_name, branch_name: to_owned_string(branch_name) }),
        None => None,
    }
}

/// Where to push a branch, unless its head is already on the remote.
pub fn branch_push_target_if_needed(target: Option<BranchPushTarget>, head_is_pushed: bool) -> (r: Option<BranchPushTarget>)
    ensures
        r == if head_is_pushed {
            None
        } else {
            target
        },
{
    if head_is_pushed {
        None
    } else {
        target
    }
}

/// Whether the remote head reported by `git ls-remote --heads` is the local head: its first
/// token must equal the local commit.
pub fn branch_head_is_pushed_to_remote(ls_remote_stdout: &str, local_oid: &str) -> (r: bool)
    ensures
        r == (exists|i: int| first_token_at(ws_split_spec(ls_remote_stdout@), i) && ws_split_spec(ls_remote_stdout@)[i] == local_oid@),
{
    let tokens = split_at_whitespace(ls_remote_stdout);
    let ghost tv = views(tokens@);
    let mut i: usize = 0;
    while i < tokens.len()
        invariant
            i <= tokens.len(),
            tv == views(tokens@),
            tv.len() == tokens@.len(),
            tv == ws_split_spec(ls_remote_stdout@),
            forall|j: int| 0 <= j < i ==> #[trigger] tv[j].len() == 0,
        decreases tokens.len() - i,
    {
        proof {
            assert(tv[i as int] == tokens@[i as int]@);
        }
        if tokens[i].as_str().unicode_len() > 0 {
            proof {
                assert(first_token_at(tv, i as int));
                assert forall|k: int| first_token_at(tv, k) implies k == i by {
                    if k < i {
                        assert(tv[k].len() == 0);
                    } else if k > i {
                        assert(tv[i as int].len() > 0);
                    }
                }
            }
            return str_equal(tokens[i].as_str(), local_oid);
        }
        i = i + 1;
    }
    proof {
        assert forall|k: int| !first_token_at(tv, k) by {
            if 0 <= k < tv.len() {
                assert(tv[k].len() == 0);
            }
        }
    }
    false
}

/// Whether entry `i` of `ts` is the first non-empty one.
pub open spec fn first_token_at(ts: Seq<Seq<char>>, i: int) -> bool {
    &&& 0 <= i < ts.len()
    &&& ts[i].len() > 0
    &&& forall|j: int| 0 <= j < i ==> #[trigger] ts[j].len() == 0
}

/// The cherry marks of the non-blank lines of `ls[i..]`, or the first line that carries none.
pub open spec fn cherry_from(ls: Seq<Seq<char>>, i: int) -> Result<Seq<CherryMarker>, Seq<char>>
    decreases ls.len() - i,
{
    if i < 0 || i >= ls.len() {
        Ok(Seq::<CherryMarker>::empty())
    } else if trim_spec(ls[i]).len() == 0 {
        cherry_from(ls, i + 1)
    } else {
        let m = if ls[i][0] == '-' {
            Some(CherryMarker::Equivalent)
        } else if ls[i][0] == '+' {
            Some(CherryMarker::Missing)
        } else {
            None
        };
        match m {
            None => Err(ls[i]),
            Some(mk) => match cherry_from(ls, i + 1) {
                Ok(rest) => Ok(seq![mk] + rest),
                Err(l) => Err(l),
            },
        }
    }
}

/// What `git cherry` reports, given its run.
pub open spec fn cherry_spec(output: GitCommandOutput) -> Result<Seq<CherryMarker>, (ErrorKind, Seq<char>)> {
    match read_stdout_spec(output) {
        Err(f) => Err(f),
        Ok(s) => match cherry_from(lines_spec(s), 0) {
            Ok(ms) => Ok(ms),
            Err(l) => Err((ErrorKind::InvalidData, "unexpected git cherry output: "@ + l)),
        },
    }
}

fn cherry_lines_from(ls: &Vec<String>, i: usize) -> (r: Result<Vec<CherryMarker>, DigError>)
    requires
        i <= ls.len(),
    ensures
        match r {
            Ok(v) => cherry_from(views(ls@), i as int) == Ok::<Seq<CherryMarker>, Seq<char>>(v@),
            Err(e) => cherry_from(views(ls@), i as int) matches Err(l) && e.kind == ErrorKind::InvalidData
                && e.message@ == "unexpected git cherry output: "@ + l,
        },
    decreases ls.len() - i,
{
    if i >= ls.len() {
        return Ok(Vec::new());
    }
    proof {
        assert(views(ls@)[i as int] == ls@[i as int]@);
    }
    let line = &ls[i];
    if trim(line.as_str()).as_str().unicode_len() == 0 {
        return cherry_lines_from(ls, i + 1);
    }
    let first = line.as_str().get_char(0);
    let marker = if first == '-' {
        CherryMarker::Equivalent
    } else if first == '+' {
        CherryMarker::Missing
    } else {
        let mut message = to_owned_string("unexpected git cherry output: ");
        push_str(&mut message, line.as_str());
        return Err(DigError::new(ErrorKind::InvalidData, message));
    };
    match cherry_lines_from(ls, i + 1) {
        Ok(mut rest) => {
            let mut v: Vec<CherryMarker> = Vec::new();
            v.push(marker);
            v.append(&mut rest);
            Ok(v)
        },
        Err(e) => Err(e),
    }
}

/// The cherry marks of a branch against its upstream, from the run of `git cherry`: `-` for a
/// commit with an equivalent upstream, `+` for one without.
pub fn cherry_markers(output: &GitCommandOutput) -> (r: Result<Vec<CherryMarker>, DigError>)
    ensures
        match r {
            Ok(v) => cherry_spec(*output) == Ok::<Seq<CherryMarker>, (ErrorKind, Seq<char>)>(v@),
            Err(e) => cherry_spec(*output) == Err::<Seq<CherryMarker>, (ErrorKind, Seq<char>)>((e.kind, e.message@)),
        },
{
    let stdout = match read_git_stdout(output) {
        Ok(s) => s,
        Err(e) => return Err(e),
    };
    let ls = lines(stdout.as_str());
    cherry_lines_from(&ls, 0)
}

/// The first position at or after `i` where `s` holds `c`.
pub open spec fn first_index_of(s: Seq<char>, c: char, i: int) -> Option<int>
    decreases s.len() - i,
{
    if i < 0 || i >= s.len() {
        None
    } else if s[i] == c {
        Some(i)
    } else {
        first_index_of(s, c, i + 1)
    }
}

fn find_char(cs: &Vec<char>, c: char, from: usize) -> (r: Option<usize>)
    requires
        from <= cs.len(),
    ensures
        match r {
            Some(i) => first_index_of(cs@, c, from as int) == Some(i as int) && from <= i < cs.len(),
            None => first_index_of(cs@, c, from as int) is None,
        },
{
    let mut i = from;
    while i < cs.len()
        invariant
            from <= i <= cs.len(),
            first_index_of(cs@, c, from as int) == first_index_of(cs@, c, i as int),
        decreases cs.len() - i,
    {
        if cs[i] == c {
            return Some(i);
        }
        i = i + 1;
    }
    None
}

/// The digits of a number text: the text without a leading plus sign.
pub open spec fn usize_digits(s: Seq<char>) -> Seq<char> {
    if s.len() > 0 && s[0] == '+' {
        s.drop_first()
    } else {
        s
    }
}

/// The number a text denotes as `usize::from_str` reads it: decimal digits, an optional plus
/// sign in front, no more than fits in a `usize`.
pub open spec fn parse_usize_spec(s: Seq<char>) -> Option<usize> {
    let digits = usize_digits(s);
    if digits.len() > 0 && (forall|j: int| 0 <= j < digits.len() ==> is_digit(#[trigger] digits[j]))
        && decimal_value(digits) <= usize::MAX {
        Some(decimal_value(digits) as usize)
    } else {
        None
    }
}

/// The number a text denotes, as `usize::from_str` reads it.
pub fn parse_usize(s: &str) -> (r: Option<usize>)
    ensures
        r == parse_usize_spec(s@),
{
    let cs = chars_of(s);
    let start: usize = if cs.len() > 0 && cs[0] == '+' {
        1
    } else {
        0
    };
    let ghost digits = usize_digits(s@);
    proof {
        assert(digits =~= s@.subrange(start as int, s@.len() as int));
    }
    if start >= cs.len() {
        return None;
    }
    let mut value: usize = 0;
    let mut j = start;
    while j < cs.len()
        invariant
            cs@ == s@,
            start <= j <= cs.len(),
            digits == s@.subrange(start as int, s@.len() as int),
            digits == usize_digits(s@),
            forall|k: int| start <= k < j ==> is_digit(#[trigger] s@[k]),
            value as nat == decimal_value(s@.subrange(start as int, j as int)),
        decreases cs.len() - j,
    {
        let c = cs[j];
        if !('0' <= c && c <= '9') {
            proof {
                assert(digits[j - start] == c);
                assert(!is_digit(digits[j - start]));
                assert(!(forall|k: int| 0 <= k < digits.len() ==> is_digit(#[trigger] digits[k])));
            }
            return None;
        }
        let d: usize = (c as u32 - '0' as u32) as usize;
        proof {
            assert(s@.subrange(start as int, j as int + 1).drop_last() =~= s@.subrange(start as int, j as int));
            assert(s@.subrange(start as int, j as int + 1).last() == c);
        }
        let next = match value.checked_mul(10) {
            Some(m) => m.checked_add(d),
            None => None,
        };
        match next {
            Some(v) => {
                value = v;
            },
            None => {
                proof {
                    let sub1 = s@.subrange(start as int, j as int + 1);
                    assert(value * 10 + d > usize::MAX);
                    assert(decimal_value(sub1) == value * 10 + d);
                    assert(digits.take(j - start + 1) =~= sub1);
                    lemma_decimal_value_prefix(digits, j - start + 1);
                }
                return None;
            },
        }
        j = j + 1;
    }
    proof {
        assert(s@.subrange(start as int, cs.len() as int) =~= digits);
        assert forall|k: int| 0 <= k < digits.len() implies is_digit(#[trigger] digits[k]) by {
            assert(digits[k] == s@[start + k]);
        }
    }
    Some(value)
}

/// The last rebase progress in the error output of a rebase: the last `Rebasing (i/n)`.
pub open spec fn rebase_progress_spec(out: Seq<char>) -> Option<RebaseProgress> {
    match crate::gh::last_occurrence_from(out, "Rebasing ("@, out.len() - 10) {
        None => None,
        Some(at) => {
            let rem = out.subrange(at + 10, out.len() as int);
            match first_index_of(rem, ')', 0) {
                None => None,
                Some(end) => {
                    let inner = rem.take(end);
                    match first_index_of(inner, '/', 0) {
                        None => None,
                        Some(slash) => match (
                            parse_usize_spec(trim_spec(inner.take(slash))),
                            parse_usize_spec(trim_spec(inner.subrange(slash + 1, inner.len() as int))),
                        ) {
                            (Some(c), Some(t)) => Some(RebaseProgress { current: c, total: t }),
                            _ => None,
                        },
                    }
                },
            }
        },
    }
}

/// The last rebase progress in the error output of a rebase.
pub fn parse_latest_rebase_progress(output: &str) -> (r: Option<RebaseProgress>)
    ensures
        r == rebase_progress_spec(output@),
{
    let cs = chars_of(output);
    let marker = chars_of("Rebasing (");
    proof {
        reveal_strlit("Rebasing (");
    }
    if cs.len() < 10 {
        proof {
            assert(crate::gh::last_occurrence_from(output@, "Rebasing ("@, output@.len() - 10) is None);
        }
        return None;
    }
    let mut k: usize = cs.len() - 10;
    loop
        invariant
            cs@ == output@,
            marker@ == "Rebasing ("@,
            cs@.len() >= 10,
            k <= cs@.len() - 10,
            crate::gh::last_occurrence_from(output@, "Rebasing ("@, output@.len() - 10)
                == crate::gh::last_occurrence_from(output@, "Rebasing ("@, k as int),
        ensures
            occurs_at(output@, "Rebasing ("@, k as int),
            k <= cs@.len() - 10,
            crate::gh::last_occurrence_from(output@, "Rebasing ("@, output@.len() - 10)
                == crate::gh::last_occurrence_from(output@, "Rebasing ("@, k as int),
        decreases k,
    {
        if matches_at(cs.as_slice(), marker.as_slice(), k) {
            break;
        }
        if k == 0 {
            proof {
                assert(crate::gh::last_occurrence_from(output@, "Rebasing ("@, -1) is None);
            }
            return None;
        }
        k = k - 1;
    }
    let start = k + 10;
    let rem: Vec<char> = {
        let mut v: Vec<char> = Vec::new();
        let mut i = start;
        while i < cs.len()
            invariant
                start <= i <= cs.len(),
                v@ == cs@.subrange(start as int, i as int),
            decreases cs.len() - i,
        {
            v.push(cs[i]);
            proof {
                assert(cs@.subrange(start as int, i as int + 1) =~= cs@.subrange(start as int, i as int).push(cs@[i as int]));
            }
            i = i + 1;
        }
        v
    };
    proof {
        assert(crate::gh::last_occurrence_from(output@, "Rebasing ("@, output@.len() - 10) == Some(k as int));
    }
    let end = match find_char(&rem, ')', 0) {
        Some(e) => e,
        None => return None,
    };
    let slash = match find_char(&rem, '/', 0) {
        Some(sl) => sl,
        None => {
            proof {
                let inner = rem@.take(end as int);
                assert forall|j: int| 0 <= j < inner.len() implies inner[j] != '/' by {
                    assert(inner[j] == rem@[j]);
                    lemma_first_index_none(rem@, '/', 0, j);
                }
                lemma_first_index_absent(inner, '/', 0);
            }
            return None;
        },
    };
    if slash >= end {
        proof {
            let inner = rem@.take(end as int);
            assert forall|j: int| 0 <= j < inner.len() implies inner[j] != '/' by {
                assert(inner[j] == rem@[j]);
                lemma_first_index_before(rem@, '/', 0, j, slash as int);
            }
            lemma_first_index_absent(inner, '/', 0);
        }
        return None;
    }
    proof {
        let inner = rem@.take(end as int);
        lemma_first_index_prefix(rem@, '/', 0, slash as int, end as int);
        assert(first_index_of(inner, '/', 0) == Some(slash as int));
    }
    let current_text = string_from_range(rem.as_slice(), 0, slash);
    let total_text = string_from_range(rem.as_slice(), slash + 1, end);
    let current = parse_usize(trim(current_text.as_str()).as_str());
    let total = parse_usize(trim(total_text.as_str()).as_str());
    proof {
        let inner = rem@.take(end as int);
        assert(inner.take(slash as int) =~= rem@.subrange(0, slash as int));
        assert(inner.subrange(slash + 1, inner.len() as int) =~= rem@.subrange(slash + 1, end as int));
    }
    match (current, total) {
        (Some(c), Some(t)) => Some(RebaseProgress { current: c, total: t }),
        _ => None,
    }
}

proof fn lemma_first_index_none(s: Seq<char>, c: char, i: int, j: int)
    requires
        0 <= i <= j < s.len(),
        first_index_of(s, c, i) is None,
    ensures
        s[j] != c,
    decreases j - i,
{
    if i < j {
        lemma_first_index_none(s, c, i + 1, j);
    }
}

proof fn lemma_first_index_before(s: Seq<char>, c: char, i: int, j: int, f: int)
    requires
        0 <= i <= j < f,
        first_index_of(s, c, i) == Some(f),
    ensures
        s[j] != c,
    decreases j - i,
{
    if i < j {
        lemma_first_index_before(s, c, i + 1, j, f);
    }
}

proof fn lemma_first_index_absent(s: Seq<char>, c: char, i: int)
    requires
        0 <= i,
        forall|j: int| 0 <= j < s.len() ==> s[j] != c,
    ensures
        first_index_of(s, c, i) is None,
    decreases s.len() - i,
{
    if i < s.len() {
        lemma_first_index_absent(s, c, i + 1);
    }
}

proof fn lemma_first_index_found(s: Seq<char>, c: char, i: int)
    requires
        0 <= i,
    ensures
        first_index_of(s, c, i) matches Some(x) ==> i <= x < s.len() && s[x] == c,
    decreases s.len() - i,
{
    if i < s.len() {
        lemma_first_index_found(s, c, i + 1);
    }
}

proof fn lemma_first_index_prefix(s: Seq<char>, c: char, i: int, f: int, n: int)
    requires
        0 <= i <= f < n <= s.len(),
        first_index_of(s, c, i) == Some(f),
    ensures
        first_index_of(s.take(n), c, i) == Some(f),
    decreases f - i,
{
    assert(s.take(n)[i] == s[i]);
    lemma_first_index_found(s, c, i);
    lemma_first_index_found(s, c, i + 1);
    if i < f {
        lemma_first_index_prefix(s, c, i + 1, f, n);
    }
}

/// The fields of a commit record: hash, subject and message, each trimmed, when the record has
/// at least two field separators; the message keeps any further separators.
pub open spec fn record_fields(rec: Seq<char>) -> Option<(Seq<char>, Seq<char>, Seq<char>)> {
    match first_index_of(rec, '\u{1f}', 0) {
        None => None,
        Some(i) => match first_index_of(rec, '\u{1f}', i + 1) {
            None => None,
            Some(j) => Some(
                (
                    trim_spec(rec.take(i)),
                    trim_spec(rec.subrange(i + 1, j)),
                    trim_spec(rec.subrange(j + 1, rec.len() as int)),
                ),
            ),
        },
    }
}

/// The commits of the records `parts[i..]`, blank and incomplete records skipped.
pub open spec fn metadata_from(parts: Seq<Seq<char>>, i: int) -> Seq<(Seq<char>, Seq<char>, Seq<char>)>
    decreases parts.len() - i,
{
    if i < 0 || i >= parts.len() {
        Seq::empty()
    } else {
        let rec = trim_spec(parts[i]);
        if rec.len() == 0 {
            metadata_from(parts, i + 1)
        } else {
            match record_fields(rec) {
                None => metadata_from(parts, i + 1),
                Some(f) => seq![f] + metadata_from(parts, i + 1),
            }
        }
    }
}

/// A commit as plain values.
pub open spec fn metadata_view(m: CommitMetadata) -> (Seq<char>, Seq<char>, Seq<char>) {
    (m.sha@, m.subject@, m.body@)
}

/// The commits of the output of `git log --format=%H%x1f%s%x1f%B%x1e`: one record per commit,
/// ended by a record separator, its fields split by unit separators.
pub fn parse_commit_metadata_records(output: &str) -> (r: Vec<CommitMetadata>)
    ensures
        r@.map_values(|m: CommitMetadata| metadata_view(m)) == metadata_from(split_spec(output@, '\u{1e}'), 0),
{
    let parts = split_char(output, '\u{1e}');
    let ghost pv = views(parts@);
    let mut r: Vec<CommitMetadata> = Vec::new();
    let mut i: usize = 0;
    while i < parts.len()
        invariant
            i <= parts.len(),
            pv == views(parts@),
            pv.len() == parts@.len(),
            pv == split_spec(output@, '\u{1e}'),
            r@.map_values(|m: CommitMetadata| metadata_view(m)) + metadata_from(pv, i as int) == metadata_from(pv, 0),
        decreases parts.len() - i,
    {
        proof {
            assert(pv[i as int] == parts@[i as int]@);
        }
        let rec = trim(parts[i].as_str());
        let cs = chars_of(rec.as_str());
        if cs.len() > 0 {
            match find_char(&cs, '\u{1f}', 0) {
                Some(a) => {
                    match find_char(&cs, '\u{1f}', a + 1) {
                        Some(b) => {
                            let sha = trim(string_from_range(cs.as_slice(), 0, a).as_str());
                            let subject = trim(string_from_range(cs.as_slice(), a + 1, b).as_str());
                            let body = trim(string_from_range(cs.as_slice(), b + 1, cs.len()).as_str());
                            let m = CommitMetadata { sha, subject, body };
                            let ghost before = r@.map_values(|m: CommitMetadata| metadata_view(m));
                            r.push(m);
                            proof {
                                assert(cs@.subrange(0, a as int) =~= cs@.take(a as int));
                                assert(r@.map_values(|m: CommitMetadata| metadata_view(m)) =~= before.push(metadata_view(m)));
                                assert(r@.map_values(|m: CommitMetadata| metadata_view(m)) + metadata_from(pv, i as int + 1)
                                    =~= before + metadata_from(pv, i as int));
                            }
                        },
                        None => {},
                    }
                },
                None => {},
            }
        }
        i = i + 1;
    }
    proof {
        assert(r@.map_values(|m: CommitMetadata| metadata_view(m)) =~= metadata_from(pv, 0));
    }
    r
}

/// The commits of a range, from the run of `git log` over it; a failed run is its failure.
pub fn commit_metadata_in_range(output: &GitCommandOutput) -> (r: Result<Vec<CommitMetadata>, DigError>)
    ensures
        match r {
            Ok(v) => output.success && v@.map_values(|m: CommitMetadata| metadata_view(m)) == metadata_from(
                split_spec(output.stdout@, '\u{1e}'),
                0,
            ),
            Err(e) => !output.success && e.kind == ErrorKind::Other && e.message@ == git_failure_message(output.stderr@),
        },
{
    if !output.success {
        return Err(git_command_failed(output.stderr.as_str()));
    }
    Ok(parse_commit_metadata_records(output.stdout.as_str()))
}

} // verus!
