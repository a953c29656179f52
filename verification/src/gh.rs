use vstd::prelude::*;

use crate::error::{DigError, ErrorKind};
use crate::text::{
    ascii_lower, chars_of, contains_spec, contains_str, decimal_digits, decimal_value, digit_value,
    is_digit, join, join_spec, lines, lines_spec, occurs_at, matches_at, push_decimal, push_str,
    split_at_whitespace, starts_with_spec, starts_with_str, string_from_range, to_ascii_lowercase, lemma_decimal_value_prefix,
    to_owned_string, trim, trim_spec, trim_start, trim_start_spec, views, ws_split_spec,
};

verus! {

/// An open pull request of a branch.
#[derive(Debug, Clone, PartialEq, Eq)]
pub struct PullRequestSummary {
    pub number: u64,
    pub base_ref_name: String,
    pub url: String,
}

/// An open pull request with its title.
#[derive(Debug, Clone, PartialEq, Eq)]
pub struct PullRequestDetails {
    pub number: u64,
    pub title: String,
    pub url: String,
}

/// An open pull request as plain values.
pub open spec fn details_view(d: PullRequestDetails) -> (u64, Seq<char>, Seq<char>) {
    (d.number, d.title@, d.url@)
}

impl PullRequestDetails {
    /// A copy of these details.
    pub fn duplicate(&self) -> (d: PullRequestDetails)
        ensures
            details_view(d) == details_view(*self),
    {
        PullRequestDetails { number: self.number, title: self.title.clone(), url: self.url.clone() }
    }
}

/// The state of a pull request on GitHub.
#[derive(Debug, Clone, Copy, PartialEq, Eq, Structural)]
pub enum PullRequestState {
    Open,
    Closed,
    Merged,
}

/// What GitHub reports of a pull request.
#[derive(Debug, Clone, PartialEq, Eq)]
pub struct PullRequestStatus {
    pub number: u64,
    pub state: PullRequestState,
    pub merged_at: Option<String>,
    pub base_ref_name: String,
    pub head_ref_name: String,
    pub head_ref_oid: Option<String>,
    pub is_draft: bool,
    pub url: String,
}

/// What a new pull request is opened with.
#[derive(Debug, Clone, PartialEq, Eq)]
pub struct CreatePullRequestOptions {
    pub base_branch_name: String,
    pub title: Option<String>,
    pub body: Option<String>,
    pub draft: bool,
}

/// A pull request that was opened, and whether its URL is for the library to show.
#[derive(Debug, Clone, PartialEq, Eq)]
pub struct CreatedPullRequest {
    pub number: u64,
    pub url: String,
    pub display_url_in_dagger: bool,
}

/// What a run of the GitHub command line gave back.
#[derive(Debug, Clone, PartialEq, Eq)]
pub struct GhCommandOutput {
    pub success: bool,
    pub stdout: String,
    pub stderr: String,
}

/// The output of a command: standard output and error, each trimmed, on two lines when both
/// have text.
pub open spec fn combined_spec(stdout: Seq<char>, stderr: Seq<char>) -> Seq<char> {
    let o = trim_spec(stdout);
    let e = trim_spec(stderr);
    if o.len() == 0 {
        e
    } else if e.len() == 0 {
        o
    } else {
        o + "\n"@ + e
    }
}

/// The output of a command: standard output and error, each trimmed, on two lines when both
/// have text.
pub fn combine_command_output(stdout: &str, stderr: &str) -> (r: String)
    ensures
        r@ == combined_spec(stdout@, stderr@),
{
    let o = trim(stdout);
    let e = trim(stderr);
    if o.as_str().unicode_len() == 0 {
        e
    } else if e.as_str().unicode_len() == 0 {
        o
    } else {
        let mut r = o;
        push_str(&mut r, "\n");
        push_str(&mut r, e.as_str());
        r
    }
}

impl GhCommandOutput {
    /// Standard output and error of the command, combined.
    pub fn combined_output(&self) -> (r: String)
        ensures
            r@ == combined_spec(self.stdout@, self.stderr@),
    {
        combine_command_output(self.stdout.as_str(), self.stderr.as_str())
    }
}

/// The lines of `ls[i..]` before the first one that opens a usage block.
pub open spec fn lines_before_usage(ls: Seq<Seq<char>>, i: int) -> Seq<Seq<char>>
    decreases ls.len() - i,
{
    if i < 0 || i >= ls.len() || starts_with_spec(trim_start_spec(ls[i]), "Usage:"@) {
        Seq::<Seq<char>>::empty()
    } else {
        seq![ls[i]] + lines_before_usage(ls, i + 1)
    }
}

/// The failure output of the GitHub command line without its usage block, trimmed.
pub open spec fn sanitized_spec(output: Seq<char>) -> Seq<char> {
    trim_spec(join_spec(lines_before_usage(lines_spec(output), 0), "\n"@))
}

/// The failure output of the GitHub command line without its usage block, trimmed.
pub fn sanitize_gh_failure_output(output: &str) -> (r: String)
    ensures
        r@ == sanitized_spec(output@),
{
    let ls = lines(output);
    let ghost lv = views(ls@);
    let mut kept: Vec<String> = Vec::new();
    let mut i: usize = 0;
    while i < ls.len()
        invariant
            i <= ls.len(),
            lv == views(ls@),
            lv.len() == ls@.len(),
            views(kept@) + lines_before_usage(lv, i as int) == lines_before_usage(lv, 0),
        ensures
            lines_before_usage(lv, i as int) =~= Seq::<Seq<char>>::empty(),
        decreases ls.len() - i,
    {
        proof {
            assert(lv[i as int] == ls@[i as int]@);
        }
        if starts_with_str(trim_start(ls[i].as_str()).as_str(), "Usage:") {
            break;
        }
        let ghost before = views(kept@);
        kept.push(ls[i].clone());
        proof {
            assert(views(kept@) =~= before.push(lv[i as int]));
            assert(views(kept@) + lines_before_usage(lv, i as int + 1) =~= before + lines_before_usage(
                lv,
                i as int,
            ));
        }
        i = i + 1;
    }
    proof {
        assert(views(kept@) =~= lines_before_usage(lv, 0));
    }
    let joined = join(&kept, "\n");
    trim(joined.as_str())
}

/// Whether a failure reads as an authentication problem.
pub open spec fn auth_error_spec(message: Seq<char>) -> bool {
    let m = ascii_lower(message);
    contains_spec(m, "gh auth login"@) || contains_spec(m, "not logged into any github hosts"@)
        || contains_spec(m, "authentication"@)
}

/// Whether a failure reads as an authentication problem.
pub fn looks_like_auth_error(message: &str) -> (r: bool)
    ensures
        r == auth_error_spec(message@),
{
    let normalized = to_ascii_lowercase(message);
    contains_str(normalized.as_str(), "gh auth login") || contains_str(
        normalized.as_str(),
        "not logged into any github hosts",
    ) || contains_str(normalized.as_str(), "authentication")
}

/// The message of a failed run of the GitHub command line.
pub open spec fn gh_failure_message(command_name: Seq<char>, stdout: Seq<char>, stderr: Seq<char>) -> Seq<
    char,
> {
    let combined = combined_spec(stdout, stderr);
    if auth_error_spec(combined) {
        "gh authentication failed; run 'gh auth login'"@
    } else if sanitized_spec(combined).len() == 0 {
        command_name + " failed"@
    } else {
        command_name + " failed: "@ + sanitized_spec(combined)
    }
}

/// The failure of a run of the GitHub command line.
pub fn gh_command_failed(command_name: &str, stdout: &str, stderr: &str) -> (e: DigError)
    ensures
        e.kind == ErrorKind::Other,
        e.message@ == gh_failure_message(command_name@, stdout@, stderr@),
{
    let combined = combine_command_output(stdout, stderr);
    if looks_like_auth_error(combined.as_str()) {
        return DigError::other(to_owned_string("gh authentication failed; run 'gh auth login'"));
    }
    let sanitized = sanitize_gh_failure_output(combined.as_str());
    let mut message = to_owned_string(command_name);
    if sanitized.as_str().unicode_len() == 0 {
        push_str(&mut message, " failed");
    } else {
        push_str(&mut message, " failed: ");
        push_str(&mut message, sanitized.as_str());
    }
    DigError::other(message)
}

/// Success when the command succeeded, else its failure.
pub fn run_gh_command_result(command_name: &str, output: &GhCommandOutput) -> (r: Result<(), DigError>)
    ensures
        match r {
            Ok(_) => output.success,
            Err(e) => !output.success && e.kind == ErrorKind::Other && e.message@ == gh_failure_message(
                command_name@,
                output.stdout@,
                output.stderr@,
            ),
        },
{
    if output.success {
        Ok(())
    } else {
        Err(gh_command_failed(command_name, output.stdout.as_str(), output.stderr.as_str()))
    }
}

/// The outcome of `gh pr reopen`.
pub fn reopen_pull_request(output: &GhCommandOutput) -> (r: Result<(), DigError>)
    ensures
        match r {
            Ok(_) => output.success,
            Err(e) => !output.success && e.kind == ErrorKind::Other && e.message@ == gh_failure_message(
                "gh pr reopen"@,
                output.stdout@,
                output.stderr@,
            ),
        },
{
    run_gh_command_result("gh pr reopen", output)
}

/// The outcome of `gh pr ready --undo`.
pub fn mark_pull_request_as_draft(output: &GhCommandOutput) -> (r: Result<(), DigError>)
    ensures
        match r {
            Ok(_) => output.success,
            Err(e) => !output.success && e.kind == ErrorKind::Other && e.message@ == gh_failure_message(
                "gh pr ready --undo"@,
                output.stdout@,
                output.stderr@,
            ),
        },
{
    run_gh_command_result("gh pr ready --undo", output)
}

/// The outcome of `gh pr edit --base`.
pub fn retarget_pull_request_base(output: &GhCommandOutput) -> (r: Result<(), DigError>)
    ensures
        match r {
            Ok(_) => output.success,
            Err(e) => !output.success && e.kind == ErrorKind::Other && e.message@ == gh_failure_message(
                "gh pr edit --base"@,
                output.stdout@,
                output.stderr@,
            ),
        },
{
    run_gh_command_result("gh pr edit --base", output)
}

/// The outcome of changing the base of a pull request.
pub fn edit_pull_request_base(output: &GhCommandOutput) -> (r: Result<(), DigError>)
    ensures
        match r {
            Ok(_) => output.success,
            Err(e) => !output.success && e.kind == ErrorKind::Other && e.message@ == gh_failure_message(
                "gh pr edit --base"@,
                output.stdout@,
                output.stderr@,
            ),
        },
{
    retarget_pull_request_base(output)
}

/// The outcome of `gh pr merge`.
pub fn merge_pull_request(output: &GhCommandOutput) -> (r: Result<(), DigError>)
    ensures
        match r {
            Ok(_) => output.success,
            Err(e) => !output.success && e.kind == ErrorKind::Other && e.message@ == gh_failure_message(
                "gh pr merge"@,
                output.stdout@,
                output.stderr@,
            ),
        },
{
    run_gh_command_result("gh pr merge", output)
}

/// The outcome of `gh pr view --web` for the current branch.
pub fn open_current_pull_request_in_browser(output: &GhCommandOutput) -> (r: Result<(), DigError>)
    ensures
        match r {
            Ok(_) => output.success,
            Err(e) => !output.success && e.kind == ErrorKind::Other && e.message@ == gh_failure_message(
                "gh pr view --web"@,
                output.stdout@,
                output.stderr@,
            ),
        },
{
    run_gh_command_result("gh pr view --web", output)
}

/// The outcome of `gh pr view --web` for a pull request.
pub fn open_pull_request_in_browser(output: &GhCommandOutput) -> (r: Result<(), DigError>)
    ensures
        match r {
            Ok(_) => output.success,
            Err(e) => !output.success && e.kind == ErrorKind::Other && e.message@ == gh_failure_message(
                "gh pr view --web"@,
                output.stdout@,
                output.stderr@,
            ),
        },
{
    run_gh_command_result("gh pr view --web", output)
}

/// Whether a character is one that may wrap a URL in the command output.
pub open spec fn is_wrap_char(c: char) -> bool {
    c == '"' || c == '\'' || c == '(' || c == ')' || c == '[' || c == ']'
}

/// The text without wrapping characters at its start.
pub open spec fn strip_wrap_start(s: Seq<char>) -> Seq<char>
    decreases s.len(),
{
    if s.len() > 0 && is_wrap_char(s[0]) {
        strip_wrap_start(s.drop_first())
    } else {
        s
    }
}

/// The text without wrapping characters at its end.
pub open spec fn strip_wrap_end(s: Seq<char>) -> Seq<char>
    decreases s.len(),
{
    if s.len() > 0 && is_wrap_char(s.last()) {
        strip_wrap_end(s.drop_last())
    } else {
        s
    }
}

/// The text without wrapping characters at either end.
pub open spec fn strip_wrap(s: Seq<char>) -> Seq<char> {
    strip_wrap_end(strip_wrap_start(s))
}

proof fn lemma_strip_wrap_start_skip(s: Seq<char>, i: int)
    requires
        0 <= i <= s.len(),
        forall|j: int| 0 <= j < i ==> is_wrap_char(#[trigger] s[j]),
    ensures
        strip_wrap_start(s) == strip_wrap_start(s.subrange(i, s.len() as int)),
    decreases i,
{
    if i > 0 {
        let t = s.drop_first();
        assert forall|j: int| 0 <= j < i - 1 implies is_wrap_char(#[trigger] t[j]) by {
            assert(t[j] == s[j + 1]);
        }
        lemma_strip_wrap_start_skip(t, i - 1);
        assert(t.subrange(i - 1, t.len() as int) =~= s.subrange(i, s.len() as int));
    } else {
        assert(s.subrange(0, s.len() as int) =~= s);
    }
}

proof fn lemma_strip_wrap_end_skip(s: Seq<char>, k: int)
    requires
        0 <= k <= s.len(),
        forall|j: int| k <= j < s.len() ==> is_wrap_char(#[trigger] s[j]),
    ensures
        strip_wrap_end(s) == strip_wrap_end(s.subrange(0, k)),
    decreases s.len() - k,
{
    if k < s.len() {
        let t = s.drop_last();
        assert forall|j: int| k <= j < t.len() implies is_wrap_char(#[trigger] t[j]) by {
            assert(t[j] == s[j]);
        }
        lemma_strip_wrap_end_skip(t, k);
        assert(t.subrange(0, k) =~= s.subrange(0, k));
    } else {
        assert(s.subrange(0, k) =~= s);
    }
}

fn wrap_char(c: char) -> (r: bool)
    ensures
        r == is_wrap_char(c),
{
    c == '"' || c == '\'' || c == '(' || c == ')' || c == '[' || c == ']'
}

/// The text without wrapping characters at either end.
pub fn strip_wrapping(s: &str) -> (r: String)
    ensures
        r@ == strip_wrap(s@),
{
    let cs = chars_of(s);
    let mut a: usize = 0;
    while a < cs.len() && wrap_char(cs[a])
        invariant
            a <= cs@.len(),
            cs@ == s@,
            forall|j: int| 0 <= j < a ==> is_wrap_char(#[trigger] cs@[j]),
        decreases cs.len() - a,
    {
        a = a + 1;
    }
    let ghost t = s@.subrange(a as int, s@.len() as int);
    proof {
        lemma_strip_wrap_start_skip(s@, a as int);
        if a < cs.len() {
            assert(t[0] == cs@[a as int]);
        }
        assert(strip_wrap_start(t) == t);
    }
    let mut b = cs.len();
    while b > a && wrap_char(cs[b - 1])
        invariant
            a <= b <= cs@.len(),
            cs@ == s@,
            forall|j: int| b <= j < cs@.len() ==> is_wrap_char(#[trigger] cs@[j]),
        decreases b - a,
    {
        b = b - 1;
    }
    proof {
        assert forall|j: int| b - a <= j < t.len() implies is_wrap_char(#[trigger] t[j]) by {
            assert(t[j] == cs@[a + j]);
        }
        lemma_strip_wrap_end_skip(t, b - a);
        let u = t.subrange(0, b - a);
        assert(u =~= cs@.subrange(a as int, b as int));
        if b > a {
            assert(u.last() == cs@[b - 1]);
        }
        assert(strip_wrap_end(u) == u);
    }
    string_from_range(cs.as_slice(), a, b)
}

/// The first token of `ts[i..]` that holds `/pull/`, without wrapping characters.
pub open spec fn first_pull_url(ts: Seq<Seq<char>>, i: int) -> Option<Seq<char>>
    decreases ts.len() - i,
{
    if i < 0 || i >= ts.len() {
        None
    } else if contains_spec(ts[i], "/pull/"@) {
        Some(strip_wrap(ts[i]))
    } else {
        first_pull_url(ts, i + 1)
    }
}

/// The pull request URL in the output of `gh pr create`: the first white-space separated token
/// that holds `/pull/`, without quotes, parentheses or brackets around it.
pub open spec fn find_url_spec(output: Seq<char>) -> Option<Seq<char>> {
    first_pull_url(ws_split_spec(output), 0)
}

/// The pull request URL in the output of `gh pr create`.
pub fn find_pull_request_url(output: &str) -> (r: Option<String>)
    ensures
        match r {
            Some(u) => find_url_spec(output@) == Some(u@),
            None => find_url_spec(output@) is None,
        },
{
    let tokens = split_at_whitespace(output);
    let ghost tv = views(tokens@);
    let mut i: usize = 0;
    while i < tokens.len()
        invariant
            i <= tokens.len(),
            tv == views(tokens@),
            tv.len() == tokens@.len(),
            tv == ws_split_spec(output@),
            first_pull_url(tv, 0) == first_pull_url(tv, i as int),
        decreases tokens.len() - i,
    {
        proof {
            assert(tv[i as int] == tokens@[i as int]@);
        }
        if contains_str(tokens[i].as_str(), "/pull/") {
            return Some(strip_wrapping(tokens[i].as_str()));
        }
        i = i + 1;
    }
    None
}

/// The last position at or before `k` where `needle` occurs in `hay`.
pub open spec fn last_occurrence_from(hay: Seq<char>, needle: Seq<char>, k: int) -> Option<int>
    decreases k + 1,
{
    if k < 0 {
        None
    } else if occurs_at(hay, needle, k) {
        Some(k)
    } else {
        last_occurrence_from(hay, needle, k - 1)
    }
}

/// The length of the run of decimal digits that starts at `i`.
pub open spec fn digit_run_end(s: Seq<char>, i: int) -> int
    decreases s.len() - i,
{
    if 0 <= i < s.len() && is_digit(s[i]) {
        digit_run_end(s, i + 1)
    } else {
        i
    }
}

/// The pull request number in a URL: the digits right after its last `/pull/`, if there are
/// any and they fit in 64 bits.
pub open spec fn url_number_spec(url: Seq<char>) -> Option<u64> {
    match last_occurrence_from(url, "/pull/"@, url.len() - 6) {
        None => None,
        Some(at) => {
            let start = at + 6;
            let digits = url.subrange(start, digit_run_end(url, start));
            if digits.len() == 0 || decimal_value(digits) > u64::MAX {
                None
            } else {
                Some(decimal_value(digits) as u64)
            }
        },
    }
}

proof fn lemma_digit_run_end_bounds(s: Seq<char>, i: int)
    requires
        0 <= i <= s.len(),
    ensures
        i <= digit_run_end(s, i) <= s.len(),
        forall|j: int| i <= j < digit_run_end(s, i) ==> is_digit(#[trigger] s[j]),
    decreases s.len() - i,
{
    if i < s.len() && is_digit(s[i]) {
        lemma_digit_run_end_bounds(s, i + 1);
    }
}

/// The pull request number in a URL.
pub fn pull_request_number_from_url(url: &str) -> (r: Option<u64>)
    ensures
        r == url_number_spec(url@),
{
    let cs = chars_of(url);
    let needle = chars_of("/pull/");
    proof {
        reveal_strlit("/pull/");
    }
    if cs.len() < 6 {
        proof {
            assert(last_occurrence_from(url@, "/pull/"@, url@.len() - 6) is None);
        }
        return None;
    }
    let mut k: usize = cs.len() - 6;
    loop
        invariant
            cs@ == url@,
            needle@ == "/pull/"@,
            cs@.len() >= 6,
            k <= cs@.len() - 6,
            last_occurrence_from(url@, "/pull/"@, url@.len() - 6) == last_occurrence_from(
                url@,
                "/pull/"@,
                k as int,
            ),
        ensures
            occurs_at(url@, "/pull/"@, k as int),
            k <= cs@.len() - 6,
            last_occurrence_from(url@, "/pull/"@, url@.len() - 6) == last_occurrence_from(
                url@,
                "/pull/"@,
                k as int,
            ),
        decreases k,
    {
        if matches_at(cs.as_slice(), needle.as_slice(), k) {
            break;
        }
        if k == 0 {
            proof {
                assert(last_occurrence_from(url@, "/pull/"@, -1) is None);
            }
            return None;
        }
        k = k - 1;
    }
    let start = k + 6;
    proof {
        assert(last_occurrence_from(url@, "/pull/"@, url@.len() - 6) == Some(k as int));
        lemma_digit_run_end_bounds(url@, start as int);
    }
    let ghost end = digit_run_end(url@, start as int);
    let mut j = start;
    let mut value: u64 = 0;
    while j < cs.len() && '0' <= cs[j] && cs[j] <= '9'
        invariant
            cs@ == url@,
            start == k + 6,
            last_occurrence_from(url@, "/pull/"@, url@.len() - 6) == Some(k as int),
            start <= j <= end <= cs@.len(),
            end == digit_run_end(url@, start as int),
            digit_run_end(url@, j as int) == end,
            value as nat == decimal_value(url@.subrange(start as int, j as int)),
        decreases cs.len() - j,
    {
        let d: u64 = (cs[j] as u32 - '0' as u32) as u64;
        proof {
            lemma_digit_run_end_bounds(url@, j as int + 1);
            assert(url@.subrange(start as int, j as int + 1).drop_last() =~= url@.subrange(
                start as int,
                j as int,
            ));
            assert(d == digit_value(url@[j as int]));
        }
        let next = match value.checked_mul(10) {
            Some(m) => m.checked_add(d),
            None => None,
        };
        match next {
            Some(v) => {
                value = v;
            },
            None => {
                proof {
                    lemma_digit_run_end_bounds(url@, j as int);
                    let full = url@.subrange(start as int, end);
                    let sub1 = url@.subrange(start as int, j as int + 1);
                    assert(sub1.last() == url@[j as int]);
                    assert(decimal_value(sub1) == value * 10 + d);
                    assert(decimal_value(sub1) > u64::MAX);
                    assert(full.take(j - start + 1) =~= sub1);
                    lemma_decimal_value_prefix(full, j - start + 1);
                    assert(last_occurrence_from(url@, "/pull/"@, url@.len() - 6) == Some(k as int));
                }
                return None;
            },
        }
        j = j + 1;
    }
    proof {
        assert(j == end);
    }
    if j == start {
        return None;
    }
    Some(value)
}

/// What `gh pr create` left to do: nothing, or a lookup of the new pull request by its URL.
#[derive(Debug, Clone, PartialEq, Eq)]
pub enum CreatePullRequestStep {
    Created(CreatedPullRequest),
    LookUp { url: String, display_url_in_dagger: bool },
}

/// Whether the library shows the URL of a new pull request itself: when the title or the body
/// was given, so that the command ran without a terminal.
pub open spec fn displays_url(options: CreatePullRequestOptions) -> bool {
    options.title is Some || options.body is Some
}

/// Whether the library shows the URL of a new pull request itself.
pub fn display_url_in_dagger(options: &CreatePullRequestOptions) -> (r: bool)
    ensures
        r == displays_url(*options),
{
    options.title.is_some() || options.body.is_some()
}

/// The arguments of `gh pr create`.
pub open spec fn create_args_spec(options: CreatePullRequestOptions) -> Seq<Seq<char>> {
    let base = seq!["pr"@, "create"@, "--base"@, options.base_branch_name@];
    let with_title = match options.title {
        Some(t) => base + seq!["--title"@, t@],
        None => base,
    };
    let with_body = match options.body {
        Some(b) => with_title + seq!["--body"@, b@],
        None => with_title,
    };
    if options.draft {
        with_body.push("--draft"@)
    } else {
        with_body
    }
}

/// The arguments of `gh pr create`.
pub fn build_create_pull_request_args(options: &CreatePullRequestOptions) -> (r: Vec<String>)
    ensures
        views(r@) == create_args_spec(*options),
{
    let mut args = new_args();
    push_owned(&mut args, "pr");
    push_owned(&mut args, "create");
    push_owned(&mut args, "--base");
    push_owned(&mut args, options.base_branch_name.as_str());
    let ghost base = views(args@);
    match &options.title {
        Some(title) => {
            push_owned(&mut args, "--title");
            push_owned(&mut args, title.as_str());
            proof {
                assert(views(args@) =~= base + seq!["--title"@, title@]);
            }
        },
        None => {},
    }
    let ghost with_title = views(args@);
    match &options.body {
        Some(body) => {
            push_owned(&mut args, "--body");
            push_owned(&mut args, body.as_str());
            proof {
                assert(views(args@) =~= with_title + seq!["--body"@, body@]);
            }
        },
        None => {},
    }
    if options.draft {
        push_owned(&mut args, "--draft");
    }
    args
}

/// What comes of `gh pr create` given its output.
pub open spec fn create_step_spec(options: CreatePullRequestOptions, output: GhCommandOutput) -> Result<
    (u64, Seq<char>, bool, bool),
    (ErrorKind, Seq<char>),
> {
    if !output.success {
        Err((ErrorKind::Other, gh_failure_message("gh pr create"@, output.stdout@, output.stderr@)))
    } else {
        match find_url_spec(combined_spec(output.stdout@, output.stderr@)) {
            None => Err((ErrorKind::Other, "gh pr create succeeded but did not report a pull request URL"@)),
            Some(url) => match url_number_spec(url) {
                Some(n) => Ok((n, url, displays_url(options), true)),
                None => Ok((0, url, displays_url(options), false)),
            },
        }
    }
}

/// What comes of `gh pr create` given its output: the new pull request when its URL carries
/// the number, else the URL to look it up by.
pub fn create_pull_request(options: &CreatePullRequestOptions, output: &GhCommandOutput) -> (r: Result<
    CreatePullRequestStep,
    DigError,
>)
    ensures
        match r {
            Ok(CreatePullRequestStep::Created(c)) => create_step_spec(*options, *output) == Ok::<
                (u64, Seq<char>, bool, bool),
                (ErrorKind, Seq<char>),
            >((c.number, c.url@, c.display_url_in_dagger, true)),
            Ok(CreatePullRequestStep::LookUp { url, display_url_in_dagger }) => create_step_spec(
                *options,
                *output,
            ) == Ok::<(u64, Seq<char>, bool, bool), (ErrorKind, Seq<char>)>(
                (0, url@, display_url_in_dagger, false),
            ),
            Err(e) => create_step_spec(*options, *output) == Err::<
                (u64, Seq<char>, bool, bool),
                (ErrorKind, Seq<char>),
            >((e.kind, e.message@)),
        },
{
    let display = display_url_in_dagger(options);
    if !output.success {
        return Err(gh_command_failed("gh pr create", output.stdout.as_str(), output.stderr.as_str()));
    }
    let combined = output.combined_output();
    let url = match find_pull_request_url(combined.as_str()) {
        Some(u) => u,
        None => {
            return Err(
                DigError::other(
                    to_owned_string("gh pr create succeeded but did not report a pull request URL"),
                ),
            );
        },
    };
    match pull_request_number_from_url(url.as_str()) {
        Some(number) => Ok(
            CreatePullRequestStep::Created(
                CreatedPullRequest { number, url, display_url_in_dagger: display },
            ),
        ),
        None => Ok(CreatePullRequestStep::LookUp { url, display_url_in_dagger: display }),
    }
}

fn push_owned(v: &mut Vec<String>, part: &str)
    ensures
        views(final(v)@) == views(old(v)@).push(part@),
{
    let ghost before = views(v@);
    v.push(to_owned_string(part));
    proof {
        assert(views(v@) =~= before.push(part@));
    }
}

fn push_number(v: &mut Vec<String>, n: u64)
    ensures
        views(final(v)@) == views(old(v)@).push(decimal_digits(n as nat)),
{
    let ghost before = views(v@);
    v.push(crate::text::decimal_string(n));
    proof {
        assert(views(v@) =~= before.push(decimal_digits(n as nat)));
    }
}

fn new_args() -> (v: Vec<String>)
    ensures
        views(v@) == Seq::<Seq<char>>::empty(),
{
    let v: Vec<String> = Vec::new();
    proof {
        assert(views(v@) =~= Seq::<Seq<char>>::empty());
    }
    v
}

/// The arguments of `gh pr list` for the open pull requests of a branch.
pub fn list_open_pull_requests_for_head_args(branch_name: &str) -> (r: Vec<String>)
    ensures
        views(r@) == seq![
            "pr"@,
            "list"@,
            "--head"@,
            branch_name@,
            "--state"@,
            "open"@,
            "--json"@,
            "number,baseRefName,url"@,
        ],
{
    let mut v = new_args();
    push_owned(&mut v, "pr");
    push_owned(&mut v, "list");
    push_owned(&mut v, "--head");
    push_owned(&mut v, branch_name);
    push_owned(&mut v, "--state");
    push_owned(&mut v, "open");
    push_owned(&mut v, "--json");
    push_owned(&mut v, "number,baseRefName,url");
    v
}

/// The arguments of `gh pr view` for the status of a pull request.
pub fn view_pull_request_args(number: u64) -> (r: Vec<String>)
    ensures
        views(r@) == seq![
            "pr"@,
            "view"@,
            decimal_digits(number as nat),
            "--json"@,
            "number,state,mergedAt,baseRefName,headRefName,headRefOid,isDraft,url"@,
        ],
{
    let mut v = new_args();
    push_owned(&mut v, "pr");
    push_owned(&mut v, "view");
    push_number(&mut v, number);
    push_owned(&mut v, "--json");
    push_owned(&mut v, "number,state,mergedAt,baseRefName,headRefName,headRefOid,isDraft,url");
    v
}

/// The arguments of `gh pr view` for a pull request given by URL.
pub fn view_pull_request_by_url_args(url: &str) -> (r: Vec<String>)
    ensures
        views(r@) == seq!["pr"@, "view"@, url@, "--json"@, "number,url"@],
{
    let mut v = new_args();
    push_owned(&mut v, "pr");
    push_owned(&mut v, "view");
    push_owned(&mut v, url);
    push_owned(&mut v, "--json");
    push_owned(&mut v, "number,url");
    v
}

/// The arguments of `gh pr list` for every open pull request.
pub fn list_open_pull_requests_args() -> (r: Vec<String>)
    ensures
        views(r@) == seq!["pr"@, "list"@, "--state"@, "open"@, "--json"@, "number,title,url"@],
{
    let mut v = new_args();
    push_owned(&mut v, "pr");
    push_owned(&mut v, "list");
    push_owned(&mut v, "--state");
    push_owned(&mut v, "open");
    push_owned(&mut v, "--json");
    push_owned(&mut v, "number,title,url");
    v
}

/// The arguments of `gh pr reopen`.
pub fn reopen_pull_request_args(number: u64) -> (r: Vec<String>)
    ensures
        views(r@) == seq!["pr"@, "reopen"@, decimal_digits(number as nat)],
{
    let mut v = new_args();
    push_owned(&mut v, "pr");
    push_owned(&mut v, "reopen");
    push_number(&mut v, number);
    v
}

/// The arguments of `gh pr ready --undo`.
pub fn mark_pull_request_as_draft_args(number: u64) -> (r: Vec<String>)
    ensures
        views(r@) == seq!["pr"@, "ready"@, decimal_digits(number as nat), "--undo"@],
{
    let mut v = new_args();
    push_owned(&mut v, "pr");
    push_owned(&mut v, "ready");
    push_number(&mut v, number);
    push_owned(&mut v, "--undo");
    v
}

/// The arguments of `gh pr edit --base`.
pub fn retarget_pull_request_base_args(number: u64, base_branch_name: &str) -> (r: Vec<String>)
    ensures
        views(r@) == seq!["pr"@, "edit"@, decimal_digits(number as nat), "--base"@, base_branch_name@],
{
    let mut v = new_args();
    push_owned(&mut v, "pr");
    push_owned(&mut v, "edit");
    push_number(&mut v, number);
    push_owned(&mut v, "--base");
    push_owned(&mut v, base_branch_name);
    v
}

/// The arguments of `gh pr merge`: squash, and delete the branch.
pub fn merge_pull_request_args(number: u64) -> (r: Vec<String>)
    ensures
        views(r@) == seq!["pr"@, "merge"@, decimal_digits(number as nat), "--squash"@, "--delete-branch"@],
{
    let mut v = new_args();
    push_owned(&mut v, "pr");
    push_owned(&mut v, "merge");
    push_number(&mut v, number);
    push_owned(&mut v, "--squash");
    push_owned(&mut v, "--delete-branch");
    v
}

/// The arguments of `gh pr view --web` for the current branch.
pub fn open_current_pull_request_in_browser_args() -> (r: Vec<String>)
    ensures
        views(r@) == seq!["pr"@, "view"@, "--web"@],
{
    let mut v = new_args();
    push_owned(&mut v, "pr");
    push_owned(&mut v, "view");
    push_owned(&mut v, "--web");
    v
}

/// The arguments of `gh pr view --web` for a pull request.
pub fn open_pull_request_in_browser_args(number: u64) -> (r: Vec<String>)
    ensures
        views(r@) == seq!["pr"@, "view"@, decimal_digits(number as nat), "--web"@],
{
    let mut v = new_args();
    push_owned(&mut v, "pr");
    push_owned(&mut v, "view");
    push_number(&mut v, number);
    push_owned(&mut v, "--web");
    v
}

} // verus!
