use vstd::prelude::*;

use crate::git::{CherryMarker, CommitMetadata};
use crate::text::{
    contains_spec, contains_str, decimal_digits, is_digit, lines, lines_spec, push_decimal, push_str,
    str_equal, to_owned_string, trim, trim_spec, views,
};

verus! {

/// Whether a line of `ls` reads, trimmed and not blank, exactly `subject`.
pub open spec fn has_trimmed_line(ls: Seq<Seq<char>>, subject: Seq<char>) -> bool {
    exists|i: int| 0 <= i < ls.len() && trim_spec(#[trigger] ls[i]).len() > 0 && trim_spec(ls[i]) == subject
}

/// Whether a commit on the parent mentions every branch commit: by hash in its message, or
/// else by subject as a line of its message.
pub open spec fn mentions_all_spec(parent: CommitMetadata, branch: Seq<CommitMetadata>) -> bool {
    (forall|i: int| 0 <= i < branch.len() ==> contains_spec(parent.body@, #[trigger] branch[i].sha@))
        || (forall|i: int| 0 <= i < branch.len() ==> has_trimmed_line(lines_spec(parent.body@), #[trigger] branch[i].subject@))
}

/// Whether a commit on the parent mentions every branch commit, by hash or by subject line.
pub fn parent_commit_mentions_all_branch_commits(parent_commit: &CommitMetadata, branch_commits: &[CommitMetadata]) -> (r: bool)
    ensures
        r == mentions_all_spec(*parent_commit, branch_commits@),
{
    let mut all_shas = true;
    let mut i: usize = 0;
    while i < branch_commits.len()
        invariant
            i <= branch_commits.len(),
            all_shas == (forall|j: int| 0 <= j < i ==> contains_spec(parent_commit.body@, #[trigger] branch_commits@[j].sha@)),
        decreases branch_commits.len() - i,
    {
        if !contains_str(parent_commit.body.as_str(), branch_commits[i].sha.as_str()) {
            all_shas = false;
        }
        i = i + 1;
    }
    if all_shas {
        return true;
    }
    let ls = lines(parent_commit.body.as_str());
    let mut trimmed: Vec<String> = Vec::new();
    let mut k: usize = 0;
    while k < ls.len()
        invariant
            k <= ls.len(),
            views(ls@) == lines_spec(parent_commit.body@),
            trimmed@.len() == k,
            forall|j: int| 0 <= j < k ==> #[trigger] trimmed@[j]@ == trim_spec(ls@[j]@),
        decreases ls.len() - k,
    {
        trimmed.push(trim(ls[k].as_str()));
        k = k + 1;
    }
    let mut all_subjects = true;
    let mut b: usize = 0;
    while b < branch_commits.len()
        invariant
            b <= branch_commits.len(),
            views(ls@) == lines_spec(parent_commit.body@),
            trimmed@.len() == ls@.len(),
            forall|j: int| 0 <= j < ls@.len() ==> #[trigger] trimmed@[j]@ == trim_spec(ls@[j]@),
            all_subjects == (forall|j: int| 0 <= j < b ==> has_trimmed_line(lines_spec(parent_commit.body@), #[trigger] branch_commits@[j].subject@)),
        decreases branch_commits.len() - b,
    {
        let subject = branch_commits[b].subject.as_str();
        let mut found = false;
        let mut m: usize = 0;
        while m < trimmed.len()
            invariant
                m <= trimmed.len(),
                trimmed@.len() == ls@.len(),
                views(ls@) == lines_spec(parent_commit.body@),
                forall|j: int| 0 <= j < ls@.len() ==> #[trigger] trimmed@[j]@ == trim_spec(ls@[j]@),
                found == (exists|j: int| 0 <= j < m && trimmed@[j]@.len() > 0 && #[trigger] trimmed@[j]@ == subject@),
            decreases trimmed.len() - m,
        {
            if trimmed[m].as_str().unicode_len() > 0 && str_equal(trimmed[m].as_str(), subject) {
                found = true;
            }
            m = m + 1;
        }
        proof {
            let lv = lines_spec(parent_commit.body@);
            if found {
                let j = choose|j: int| 0 <= j < m && trimmed@[j]@.len() > 0 && #[trigger] trimmed@[j]@ == subject@;
                assert(lv[j] == ls@[j]@);
                assert(trim_spec(lv[j]) == trimmed@[j]@);
            } else {
                assert forall|j: int| 0 <= j < lv.len() implies !(trim_spec(#[trigger] lv[j]).len() > 0 && trim_spec(lv[j]) == subject@) by {
                    assert(lv[j] == ls@[j]@);
                    assert(trimmed@[j]@ == trim_spec(lv[j]));
                }
            }
        }
        if !found {
            all_subjects = false;
        }
        b = b + 1;
    }
    all_subjects
}

/// Whether `needle` occurs in `text` at `at` and is not followed by a decimal digit.
pub open spec fn occurs_unextended_at(text: Seq<char>, needle: Seq<char>, at: int) -> bool {
    crate::text::occurs_at(text, needle, at) && (at + needle.len() == text.len() || !is_digit(
        text[at + needle.len()],
    ))
}

/// Whether `text` mentions pull request `n`: as `(#n)`, or as `/pull/n` not followed by
/// another digit.
pub open spec fn mentions_pr_spec(text: Seq<char>, n: u64) -> bool {
    let digits = decimal_digits(n as nat);
    contains_spec(text, "(#"@ + digits + ")"@) || exists|at: int|
        #[trigger] occurs_unextended_at(text, "/pull/"@ + digits, at)
}

/// Whether a commit on the parent mentions the tracked pull request `number` in its subject or
/// message.
pub fn parent_commit_mentions_tracked_pull_request(parent_commit: &CommitMetadata, number: u64) -> (r: bool)
    ensures
        r == (mentions_pr_spec(parent_commit.subject@, number) || mentions_pr_spec(parent_commit.body@, number)),
{
    text_mentions_pull_request(parent_commit.subject.as_str(), number) || text_mentions_pull_request(
        parent_commit.body.as_str(),
        number,
    )
}

fn text_mentions_pull_request(text: &str, number: u64) -> (r: bool)
    ensures
        r == mentions_pr_spec(text@, number),
{
    let mut paren = to_owned_string("(#");
    push_decimal(&mut paren, number);
    push_str(&mut paren, ")");
    if contains_str(text, paren.as_str()) {
        return true;
    }
    let mut url = to_owned_string("/pull/");
    push_decimal(&mut url, number);
    let hay = crate::text::chars_of(text);
    let needle = crate::text::chars_of(url.as_str());
    let ghost digits = decimal_digits(number as nat);
    assert(needle@ == "/pull/"@ + digits);
    let mut at: usize = 0;
    while at < hay.len()
        invariant
            at <= hay.len(),
            hay@ == text@,
            needle@ == "/pull/"@ + digits,
            digits == decimal_digits(number as nat),
            forall|k: int| 0 <= k < at ==> !#[trigger] occurs_unextended_at(text@, needle@, k),
        decreases hay.len() - at,
    {
        if crate::text::matches_at(hay.as_slice(), needle.as_slice(), at) {
            let end = at + needle.len();
            if end == hay.len() || !('0' <= hay[end] && hay[end] <= '9') {
                assert(occurs_unextended_at(text@, "/pull/"@ + digits, at as int));
                return true;
            }
        }
        at = at + 1;
    }
    assert forall|k: int| !#[trigger] occurs_unextended_at(text@, needle@, k) by {
        if k >= at {
            assert(!crate::text::occurs_at(text@, needle@, k));
        }
    }
    false
}

/// Whether the cherry marks show every branch commit already on the parent.
pub open spec fn integrated_by_cherry_spec(markers: Seq<CherryMarker>) -> bool {
    forall|i: int| 0 <= i < markers.len() ==> #[trigger] markers[i] == CherryMarker::Equivalent
}

/// Whether a branch is integrated into its parent: every cherry mark shows an equivalent
/// commit; or else the branch has no commits of its own, or a parent commit mentions them all.
pub open spec fn integrated_spec(markers: Seq<CherryMarker>, branch: Seq<CommitMetadata>, parent: Seq<CommitMetadata>) -> bool {
    integrated_by_cherry_spec(markers) || branch.len() == 0 || exists|j: int| 0 <= j < parent.len()
        && mentions_all_spec(#[trigger] parent[j], branch)
}

/// Whether a branch is integrated into its parent, from its cherry marks and the commits of
/// both since their merge base.
pub fn branch_is_integrated(
    markers: &[CherryMarker],
    branch_commits: &[CommitMetadata],
    parent_commits: &[CommitMetadata],
) -> (r: bool)
    ensures
        r == integrated_spec(markers@, branch_commits@, parent_commits@),
{
    let mut i: usize = 0;
    let mut all_equivalent = true;
    while i < markers.len()
        invariant
            i <= markers.len(),
            all_equivalent == (forall|j: int| 0 <= j < i ==> #[trigger] markers@[j] == CherryMarker::Equivalent),
        decreases markers.len() - i,
    {
        match markers[i] {
            CherryMarker::Equivalent => {},
            CherryMarker::Missing => {
                all_equivalent = false;
            },
        }
        i = i + 1;
    }
    if all_equivalent {
        return true;
    }
    if branch_commits.len() == 0 {
        return true;
    }
    let mut j: usize = 0;
    while j < parent_commits.len()
        invariant
            j <= parent_commits.len(),
            forall|k: int| 0 <= k < j ==> !mentions_all_spec(#[trigger] parent_commits@[k], branch_commits@),
        decreases parent_commits.len() - j,
    {
        if parent_commit_mentions_all_branch_commits(&parent_commits[j], branch_commits) {
            return true;
        }
        j = j + 1;
    }
    false
}

} // verus!
