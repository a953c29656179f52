use vstd::prelude::*;

use crate::git::first_index_of;
use crate::model::{node_named, BranchNode, DigState};
use crate::restack::{RestackAction, RestackPreview};
use crate::text::{
    join, join_spec, push_str, push_string, chars_of, lines, lines_spec, matches_at, occurs_at, split_char, split_spec, starts_with_spec,
    str_equal, string_from_range, to_owned_string, trim, trim_spec, trim_start, trim_start_spec,
    views,
};

verus! {

/// How many commits the commit command lists after a commit.
pub const RECENT_COMMITS_LIMIT: usize = 5;

/// What the commit command passes on to `git commit`.
#[derive(Debug, Clone, Default, PartialEq, Eq)]
pub struct CommitOptions {
    pub all: bool,
    pub messages: Vec<String>,
    pub no_edit: bool,
    pub amend: bool,
}

/// A commit as the one-line log shows it: hash, refs, whether HEAD points at it, and title.
#[derive(Debug, Clone, PartialEq, Eq)]
pub struct CommitEntry {
    pub hash: String,
    pub refs: Vec<String>,
    pub is_head: bool,
    pub title: String,
}

/// `-m` before each message.
pub open spec fn message_args(ms: Seq<Seq<char>>) -> Seq<Seq<char>>
    decreases ms.len(),
{
    if ms.len() == 0 {
        Seq::<Seq<char>>::empty()
    } else {
        message_args(ms.drop_last()) + seq!["-m"@, ms.last()]
    }
}

/// The arguments of `git commit`.
pub open spec fn commit_args_spec(o: CommitOptions) -> Seq<Seq<char>> {
    let base = seq!["commit"@, "--quiet"@];
    let a = if o.all {
        base.push("-a"@)
    } else {
        base
    };
    let m = a + message_args(views(o.messages@));
    let e = if o.no_edit {
        m.push("--no-edit"@)
    } else {
        m
    };
    if o.amend {
        e.push("--amend"@)
    } else {
        e
    }
}

fn push_arg(v: &mut Vec<String>, part: String)
    ensures
        views(final(v)@) == views(old(v)@).push(part@),
{
    let ghost before = views(v@);
    let ghost p = part@;
    v.push(part);
    proof {
        assert(views(v@) =~= before.push(p));
    }
}

/// The arguments of `git commit` for the given options.
pub fn build_git_commit_args(options: &CommitOptions) -> (r: Vec<String>)
    ensures
        views(r@) == commit_args_spec(*options),
{
    let mut args: Vec<String> = Vec::new();
    proof {
        assert(views(args@) =~= Seq::<Seq<char>>::empty());
    }
    push_arg(&mut args, to_owned_string("commit"));
    push_arg(&mut args, to_owned_string("--quiet"));
    if options.all {
        push_arg(&mut args, to_owned_string("-a"));
    }
    let ghost head = views(args@);
    let mut i: usize = 0;
    while i < options.messages.len()
        invariant
            i <= options.messages.len(),
            views(args@) == head + message_args(views(options.messages@).take(i as int)),
        decreases options.messages.len() - i,
    {
        push_arg(&mut args, to_owned_string("-m"));
        push_arg(&mut args, options.messages[i].clone());
        proof {
            let ms = views(options.messages@);
            assert(ms.take(i as int + 1).drop_last() =~= ms.take(i as int));
            assert(ms[i as int] == options.messages@[i as int]@);
            assert(views(args@) =~= head + message_args(ms.take(i as int + 1)));
        }
        i = i + 1;
    }
    proof {
        assert(views(options.messages@).take(options.messages@.len() as int) =~= views(options.messages@));
    }
    if options.no_edit {
        push_arg(&mut args, to_owned_string("--no-edit"));
    }
    if options.amend {
        push_arg(&mut args, to_owned_string("--amend"));
    }
    args
}

/// The refs of the decorations `ds[i..]`, each trimmed, and whether HEAD is among them:
/// `HEAD -> b` gives `b` and HEAD, `HEAD` alone gives HEAD, blank ones nothing.
pub open spec fn decorations_from(ds: Seq<Seq<char>>, i: int) -> (bool, Seq<Seq<char>>)
    decreases ds.len() - i,
{
    if i < 0 || i >= ds.len() {
        (false, Seq::<Seq<char>>::empty())
    } else {
        let t = trim_spec(ds[i]);
        let (h, rest) = decorations_from(ds, i + 1);
        if starts_with_spec(t, "HEAD -> "@) {
            (true, seq![t.subrange(8, t.len() as int)] + rest)
        } else if t == "HEAD"@ {
            (true, rest)
        } else if t.len() > 0 {
            (h, seq![t] + rest)
        } else {
            (h, rest)
        }
    }
}

/// The refs of a decoration list and whether HEAD is among them.
pub open spec fn decorations_spec(d: Seq<char>) -> (bool, Seq<Seq<char>>) {
    decorations_from(split_spec(d, ','), 0)
}

fn decorations_from_exec(ds: &Vec<String>, i: usize) -> (r: (bool, Vec<String>))
    requires
        i <= ds.len(),
    ensures
        (r.0, views(r.1@)) == decorations_from(views(ds@), i as int),
    decreases ds.len() - i,
{
    if i >= ds.len() {
        let v: Vec<String> = Vec::new();
        proof {
            assert(views(v@) =~= Seq::<Seq<char>>::empty());
        }
        return (false, v);
    }
    proof {
        assert(views(ds@)[i as int] == ds@[i as int]@);
    }
    let t = trim(ds[i].as_str());
    let (h, rest) = decorations_from_exec(ds, i + 1);
    let tc = chars_of(t.as_str());
    let head_arrow = chars_of("HEAD -> ");
    proof {
        reveal_strlit("HEAD -> ");
    }
    if matches_at(tc.as_slice(), head_arrow.as_slice(), 0) {
        let branch = string_from_range(tc.as_slice(), 8, tc.len());
        let mut v: Vec<String> = Vec::new();
        v.push(branch);
        let mut rest = rest;
        let ghost rv = views(rest@);
        v.append(&mut rest);
        proof {
            assert(t@.subrange(0, 8) == "HEAD -> "@);
            assert(views(v@) =~= seq![t@.subrange(8, t@.len() as int)] + rv);
        }
        (true, v)
    } else {
        proof {
            assert(!starts_with_spec(t@, "HEAD -> "@));
        }
        if str_equal(t.as_str(), "HEAD") {
            (true, rest)
        } else if t.as_str().unicode_len() > 0 {
            let mut v: Vec<String> = Vec::new();
            v.push(t);
            let mut rest = rest;
            let ghost rv = views(rest@);
            let ghost tv = v@[0]@;
            v.append(&mut rest);
            proof {
                assert(views(v@) =~= seq![tv] + rv);
            }
            (h, v)
        } else {
            (h, rest)
        }
    }
}

/// The refs of a decoration list and whether HEAD is among them.
pub fn parse_decorations(decorations: &str) -> (r: (bool, Vec<String>))
    ensures
        (r.0, views(r.1@)) == decorations_spec(decorations@),
{
    let parts = split_char(decorations, ',');
    decorations_from_exec(&parts, 0)
}

/// The first position at or after `i` where `needle` occurs in `hay`.
pub open spec fn first_occurrence_from(hay: Seq<char>, needle: Seq<char>, i: int) -> Option<int>
    decreases hay.len() + 1 - i,
{
    if i < 0 || i > hay.len() {
        None
    } else if occurs_at(hay, needle, i) {
        Some(i)
    } else {
        first_occurrence_from(hay, needle, i + 1)
    }
}

/// What follows the hash in a one-line log entry: HEAD, the refs and the title when the entry
/// opens with a decoration list closed by `) `, else the title alone.
pub open spec fn commit_metadata_spec(remainder: Seq<char>) -> (bool, Seq<Seq<char>>, Seq<char>) {
    let t = trim_start_spec(remainder);
    if t.len() > 0 && t[0] == '(' {
        let decorated = t.subrange(1, t.len() as int);
        match first_occurrence_from(decorated, ") "@, 0) {
            Some(k) => {
                let (h, refs) = decorations_spec(decorated.take(k));
                (h, refs, decorated.subrange(k + 2, decorated.len() as int))
            },
            None => (false, Seq::<Seq<char>>::empty(), t),
        }
    } else {
        (false, Seq::<Seq<char>>::empty(), t)
    }
}

/// What follows the hash in a one-line log entry.
pub fn parse_commit_metadata(remainder: &str) -> (r: (bool, Vec<String>, String))
    ensures
        (r.0, views(r.1@), r.2@) == commit_metadata_spec(remainder@),
{
    let t = trim_start(remainder);
    let tc = chars_of(t.as_str());
    if tc.len() > 0 && tc[0] == '(' {
        let decorated = string_from_range(tc.as_slice(), 1, tc.len());
        let dc = chars_of(decorated.as_str());
        let needle = chars_of(") ");
        proof {
            reveal_strlit(") ");
        }
        let mut k: usize = 0;
        while k < dc.len()
            invariant
                k <= dc.len(),
                dc@ == decorated@,
                needle@ == ") "@,
                needle@.len() == 2,
                tc@ == t@,
                t@ == trim_start_spec(remainder@),
                t@.len() > 0 && t@[0] == '(',
                decorated@ == t@.subrange(1, t@.len() as int),
                first_occurrence_from(decorated@, ") "@, 0) == first_occurrence_from(decorated@, ") "@, k as int),
            decreases dc.len() - k,
        {
            if matches_at(dc.as_slice(), needle.as_slice(), k) {
                let decorations = string_from_range(dc.as_slice(), 0, k);
                let title = string_from_range(dc.as_slice(), k + 2, dc.len());
                let (h, refs) = parse_decorations(decorations.as_str());
                proof {
                    assert(decorated@.take(k as int) =~= decorations@);
                }
                return (h, refs, title);
            }
            k = k + 1;
        }
        proof {
            assert(!occurs_at(decorated@, ") "@, k as int));
            assert(first_occurrence_from(decorated@, ") "@, k as int + 1) is None);
            assert(first_occurrence_from(decorated@, ") "@, k as int) is None);
        }
        let v: Vec<String> = Vec::new();
        proof {
            assert(views(v@) =~= Seq::<Seq<char>>::empty());
        }
        (false, v, t)
    } else {
        let v: Vec<String> = Vec::new();
        proof {
            assert(views(v@) =~= Seq::<Seq<char>>::empty());
        }
        (false, v, t)
    }
}

/// A log entry as plain values.
pub open spec fn entry_view(e: CommitEntry) -> (Seq<char>, Seq<Seq<char>>, bool, Seq<char>) {
    (e.hash@, views(e.refs@), e.is_head, e.title@)
}

/// The entry of a trimmed, non-blank log line: the hash up to the first space, then what
/// follows it.
pub open spec fn log_line_entry(t: Seq<char>) -> (Seq<char>, Seq<Seq<char>>, bool, Seq<char>) {
    let (hash, rest) = match first_index_of(t, ' ', 0) {
        Some(i) => (t.take(i), t.subrange(i + 1, t.len() as int)),
        None => (t, Seq::<char>::empty()),
    };
    let (h, refs, title) = commit_metadata_spec(rest);
    (hash, refs, h, title)
}

/// The entries of the non-blank log lines `ls[i..]`.
pub open spec fn log_entries_from(ls: Seq<Seq<char>>, i: int) -> Seq<(Seq<char>, Seq<Seq<char>>, bool, Seq<char>)>
    decreases ls.len() - i,
{
    if i < 0 || i >= ls.len() {
        Seq::empty()
    } else if trim_spec(ls[i]).len() == 0 {
        log_entries_from(ls, i + 1)
    } else {
        seq![log_line_entry(trim_spec(ls[i]))] + log_entries_from(ls, i + 1)
    }
}

/// The entries of the output of `git log --decorate=short --oneline`.
pub fn parse_git_log_output(stdout: &str) -> (r: Vec<CommitEntry>)
    ensures
        r@.map_values(|e: CommitEntry| entry_view(e)) == log_entries_from(lines_spec(stdout@), 0),
{
    let ls = lines(stdout);
    let ghost lv = views(ls@);
    let mut r: Vec<CommitEntry> = Vec::new();
    let mut i: usize = 0;
    while i < ls.len()
        invariant
            i <= ls.len(),
            lv == views(ls@),
            lv.len() == ls@.len(),
            lv == lines_spec(stdout@),
            r@.map_values(|e: CommitEntry| entry_view(e)) + log_entries_from(lv, i as int) == log_entries_from(lv, 0),
        decreases ls.len() - i,
    {
        proof {
            assert(lv[i as int] == ls@[i as int]@);
        }
        let t = trim(ls[i].as_str());
        let tc = chars_of(t.as_str());
        if tc.len() > 0 {
            let mut sp: usize = 0;
            while sp < tc.len() && tc[sp] != ' '
                invariant
                    sp <= tc.len(),
                    tc@ == t@,
                    first_index_of(t@, ' ', 0) == first_index_of(t@, ' ', sp as int),
                decreases tc.len() - sp,
            {
                sp = sp + 1;
            }
            let (hash, rest) = if sp < tc.len() {
                proof {
                    assert(first_index_of(t@, ' ', 0) == Some(sp as int));
                }
                (string_from_range(tc.as_slice(), 0, sp), string_from_range(tc.as_slice(), sp + 1, tc.len()))
            } else {
                proof {
                    assert(first_index_of(t@, ' ', 0) is None);
                    assert(tc@.subrange(0, tc.len() as int) =~= t@);
                }
                (string_from_range(tc.as_slice(), 0, tc.len()), String::new())
            };
            let (is_head, refs, title) = parse_commit_metadata(rest.as_str());
            let entry = CommitEntry { hash, refs, is_head, title };
            let ghost before = r@.map_values(|e: CommitEntry| entry_view(e));
            r.push(entry);
            proof {
                if sp < tc.len() {
                    assert(t@.take(sp as int) =~= entry.hash@);
                }
                assert(entry_view(entry) == log_line_entry(trim_spec(lv[i as int])));
                assert(r@.map_values(|e: CommitEntry| entry_view(e)) =~= before.push(entry_view(entry)));
                assert(r@.map_values(|e: CommitEntry| entry_view(e)) + log_entries_from(lv, i as int + 1)
                    =~= before + log_entries_from(lv, i as int));
            }
        }
        i = i + 1;
    }
    proof {
        assert(r@.map_values(|e: CommitEntry| entry_view(e)) =~= log_entries_from(lv, 0));
    }
    r
}

/// The first non-blank line of `ls[i..]`, trimmed.
pub open spec fn first_nonblank_from(ls: Seq<Seq<char>>, i: int) -> Option<Seq<char>>
    decreases ls.len() - i,
{
    if i < 0 || i >= ls.len() {
        None
    } else if trim_spec(ls[i]).len() > 0 {
        Some(trim_spec(ls[i]))
    } else {
        first_nonblank_from(ls, i + 1)
    }
}

/// The summary of a commit: the first non-blank line of `git diff-tree --shortstat`, trimmed.
pub fn commit_summary_line(stdout: &str) -> (r: Option<String>)
    ensures
        match r {
            Some(s) => first_nonblank_from(lines_spec(stdout@), 0) == Some(s@),
            None => first_nonblank_from(lines_spec(stdout@), 0) is None,
        },
{
    let ls = lines(stdout);
    let ghost lv = views(ls@);
    let mut i: usize = 0;
    while i < ls.len()
        invariant
            i <= ls.len(),
            lv == views(ls@),
            lv.len() == ls@.len(),
            lv == lines_spec(stdout@),
            first_nonblank_from(lv, 0) == first_nonblank_from(lv, i as int),
        decreases ls.len() - i,
    {
        proof {
            assert(lv[i as int] == ls@[i as int]@);
        }
        let t = trim(ls[i].as_str());
        if t.as_str().unicode_len() > 0 {
            return Some(t);
        }
        i = i + 1;
    }
    None
}

/// The line of a listed commit: a green check mark for the newest (`index` 0), a star for
/// the others, then the hash in yellow and the title.
pub open spec fn recent_commit_line(index: int, c: CommitEntry) -> Seq<char> {
    (if index == 0 {
        "\x1b[32m✓\x1b[0m"@
    } else {
        "*"@
    }) + " \x1b[33m"@ + c.hash@ + "\x1b[0m: "@ + c.title@
}

/// The lines of the listed commits, newest first.
pub open spec fn recent_commit_lines(cs: Seq<CommitEntry>) -> Seq<Seq<char>> {
    Seq::new(cs.len(), |i: int| recent_commit_line(i, cs[i]))
}

/// The recent commits as the commit command lists them, one per line.
pub fn format_recent_commits(commits: &[CommitEntry]) -> (r: String)
    ensures
        r@ == join_spec(recent_commit_lines(commits@), "\n"@),
{
    let mut ls: Vec<String> = Vec::new();
    let mut i: usize = 0;
    while i < commits.len()
        invariant
            i <= commits.len(),
            views(ls@) == recent_commit_lines(commits@.take(i as int)),
        decreases commits.len() - i,
    {
        let mut line = if i == 0 {
            to_owned_string("\x1b[32m✓\x1b[0m")
        } else {
            to_owned_string("*")
        };
        push_str(&mut line, " \x1b[33m");
        push_str(&mut line, commits[i].hash.as_str());
        push_str(&mut line, "\x1b[0m: ");
        push_str(&mut line, commits[i].title.as_str());
        let ghost before = views(ls@);
        push_string(&mut ls, line);
        proof {
            assert(views(ls@) =~= recent_commit_lines(commits@.take(i + 1)));
        }
        i = i + 1;
    }
    assert(commits@.take(commits@.len() as int) =~= commits@);
    join(&ls, "\n")
}

/// What the commit command prints after a commit: the summary line of git, then the recent
/// commits, a blank line between them.
pub open spec fn commit_output_text(summary: Option<Seq<char>>, commits: Seq<CommitEntry>) -> Seq<char> {
    let parts = (match summary {
        Some(s) => seq![s],
        None => Seq::empty(),
    }) + (if commits.len() > 0 {
        seq![join_spec(recent_commit_lines(commits), "\n"@)]
    } else {
        Seq::empty()
    });
    join_spec(parts, "\n\n"@)
}

/// The text the commit command prints after a commit.
pub fn format_commit_success_output(summary_line: Option<&str>, recent_commits: &[CommitEntry]) -> (r: String)
    ensures
        r@ == commit_output_text(crate::branch::opt_str_view(summary_line), recent_commits@),
{
    let mut parts: Vec<String> = Vec::new();
    if let Some(s) = summary_line {
        push_string(&mut parts, to_owned_string(s));
    }
    if recent_commits.len() > 0 {
        let listed = format_recent_commits(recent_commits);
        push_string(&mut parts, listed);
    }
    proof {
        assert(views(parts@) =~= (match crate::branch::opt_str_view(summary_line) {
            Some(s) => seq![s],
            None => Seq::<Seq<char>>::empty(),
        }) + (if recent_commits@.len() > 0 {
            seq![join_spec(recent_commit_lines(recent_commits@), "\n"@)]
        } else {
            Seq::<Seq<char>>::empty()
        }));
    }
    join(&parts, "\n\n")
}

/// The tracked branch a commit moved, with its head before the commit, when the branches on it
/// follow it: the commit was made on a named branch of an initialized repository, that branch
/// is not trunk and it is tracked.
pub open spec fn post_commit_target_spec(
    current: Option<Seq<char>>,
    old_head: Option<Seq<char>>,
    trunk: Option<Seq<char>>,
    nodes: Seq<BranchNode>,
) -> Option<(u128, Seq<char>, Seq<char>)> {
    match (current, old_head, trunk) {
        (Some(b), Some(h), Some(t)) => if b == t {
            None
        } else {
            match node_named(nodes, b) {
                None => None,
                Some(n) => Some((n.id, n.branch_name@, h)),
            }
        },
        _ => None,
    }
}

/// The tracked branch a commit moved and its head before the commit, if the branches on it
/// are to follow it.
pub fn post_commit_restack_target(
    current_branch: Option<&str>,
    old_head_oid: Option<&str>,
    trunk_branch: Option<&str>,
    state: &DigState,
) -> (r: Option<(u128, String, String)>)
    ensures
        match r {
            Some((id, b, h)) => post_commit_target_spec(
                crate::branch::opt_str_view(current_branch),
                crate::branch::opt_str_view(old_head_oid),
                crate::branch::opt_str_view(trunk_branch),
                state.nodes@,
            ) == Some((id, b@, h@)),
            None => post_commit_target_spec(
                crate::branch::opt_str_view(current_branch),
                crate::branch::opt_str_view(old_head_oid),
                crate::branch::opt_str_view(trunk_branch),
                state.nodes@,
            ) is None,
        },
{
    let (branch, head, trunk) = match (current_branch, old_head_oid, trunk_branch) {
        (Some(b), Some(h), Some(t)) => (b, h, t),
        _ => {
            return None;
        },
    };
    if str_equal(branch, trunk) {
        return None;
    }
    match state.find_branch_by_name(branch) {
        None => None,
        Some(n) => Some((n.id, n.branch_name.clone(), to_owned_string(head))),
    }
}

/// The preview of a rebase that follows a commit: the branch and its base, its parent unchanged.
pub fn post_commit_preview(action: &RestackAction) -> (p: RestackPreview)
    ensures
        p.branch_name@ == action.branch_name@,
        p.onto_branch@ == action.new_base.branch_name@,
        !p.parent_changed,
{
    RestackPreview {
        branch_name: action.branch_name.clone(),
        onto_branch: action.new_base.branch_name.clone(),
        parent_changed: false,
    }
}

/// Whether, after rebases that followed a commit, the committed branch must be checked out
/// again: some branch was rebased and another branch is checked out.
pub fn needs_return_after_restack(restacked_count: usize, checked_out: Option<&str>, branch_name: &str) -> (r: bool)
    ensures
        r == (restacked_count > 0 && crate::branch::opt_str_view(checked_out) != Some(branch_name@)),
{
    if restacked_count == 0 {
        return false;
    }
    match checked_out {
        Some(c) => !str_equal(c, branch_name),
        None => true,
    }
}

/// The failure when the committed branch could not be checked out again after the rebases.
pub fn return_failure_message(branch_name: &str) -> (r: String)
    ensures
        r@ == "commit succeeded, but failed to return to "@ + crate::error::quoted(branch_name@) + " after restack"@,
{
    crate::error::message_with_name("commit succeeded, but failed to return to ", branch_name, " after restack")
}

} // verus!
