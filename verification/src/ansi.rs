use vstd::prelude::*;

use crate::text::{push_str, to_owned_string};

verus! {

/// The colours the command line uses for its output.
#[derive(Debug, Clone, Copy, PartialEq, Eq, Structural)]
pub enum Accent {
    BranchRef,
    Success,
    SyncInFlight,
    TagRef,
    HeadMarker,
    Danger,
}

/// The escape sequence that switches to an accent colour.
pub open spec fn accent_code(a: Accent) -> Seq<char> {
    match a {
        Accent::BranchRef => "\u{1b}[32m"@,
        Accent::Success => "\u{1b}[32m"@,
        Accent::SyncInFlight => "\u{1b}[38;5;208m"@,
        Accent::TagRef => "\u{1b}[33m"@,
        Accent::HeadMarker => "\u{1b}[36m"@,
        Accent::Danger => "\u{1b}[31m"@,
    }
}

/// The escape sequence that resets all attributes.
pub open spec fn reset_code() -> Seq<char> {
    "\u{1b}[0m"@
}

/// The escape sequence that switches strike-through on.
pub open spec fn strike_code() -> Seq<char> {
    "\u{1b}[9m"@
}

/// `text` drawn in the accent colour.
pub open spec fn paint(a: Accent, text: Seq<char>) -> Seq<char> {
    accent_code(a) + text + reset_code()
}

/// `text` drawn struck through in the accent colour.
pub open spec fn paint_struck(a: Accent, text: Seq<char>) -> Seq<char> {
    accent_code(a) + strike_code() + text + reset_code()
}

impl Accent {
    /// The escape sequence of this accent.
    pub fn ansi(&self) -> (r: String)
        ensures
            r@ == accent_code(*self),
    {
        match self {
            Accent::BranchRef => to_owned_string("\u{1b}[32m"),
            Accent::Success => to_owned_string("\u{1b}[32m"),
            Accent::SyncInFlight => to_owned_string("\u{1b}[38;5;208m"),
            Accent::TagRef => to_owned_string("\u{1b}[33m"),
            Accent::HeadMarker => to_owned_string("\u{1b}[36m"),
            Accent::Danger => to_owned_string("\u{1b}[31m"),
        }
    }

    /// `text` drawn in this accent.
    pub fn paint_ansi(&self, text: &str) -> (r: String)
        ensures
            r@ == paint(*self, text@),
    {
        let mut r = self.ansi();
        push_str(&mut r, text);
        push_str(&mut r, "\u{1b}[0m");
        r
    }

    /// `text` drawn struck through in this accent.
    pub fn paint_struck_ansi(&self, text: &str) -> (r: String)
        ensures
            r@ == paint_struck(*self, text@),
    {
        let mut r = self.ansi();
        push_str(&mut r, "\u{1b}[9m");
        push_str(&mut r, text);
        push_str(&mut r, "\u{1b}[0m");
        r
    }
}

/// The marker of the checked out branch.
pub open spec fn current_branch_marker() -> Seq<char> {
    "✓"@
}

/// The marker of a branch that is not checked out.
pub open spec fn non_current_branch_marker() -> Seq<char> {
    "*"@
}

/// The connector between two entries of a lineage.
pub open spec fn lineage_pipe() -> Seq<char> {
    "│"@
}

/// The marker of a completed step.
pub open spec fn success_marker() -> Seq<char> {
    "✓"@
}

/// The marker of an archived branch.
pub open spec fn archived_marker() -> Seq<char> {
    "~"@
}

/// The marker of a deleted branch.
pub open spec fn deleted_marker() -> Seq<char> {
    "✕"@
}

/// The marker of the selected row.
pub open spec fn head_marker() -> Seq<char> {
    ">"@
}

/// The number of frames of the throbber.
pub const THROBBER_FRAME_COUNT: usize = 4;

/// One frame of the throbber.
pub open spec fn throbber_frame(i: nat) -> Seq<char> {
    if i % 4 == 0 {
        "|"@
    } else if i % 4 == 1 {
        "/"@
    } else if i % 4 == 2 {
        "-"@
    } else {
        "\\"@
    }
}

/// The marker of the checked out branch.
pub fn current_branch_text() -> (r: String)
    ensures
        r@ == current_branch_marker(),
{
    to_owned_string("✓")
}

/// The marker of a branch that is not checked out.
pub fn non_current_branch_text() -> (r: String)
    ensures
        r@ == non_current_branch_marker(),
{
    to_owned_string("*")
}

/// The connector between two entries of a lineage.
pub fn lineage_pipe_text() -> (r: String)
    ensures
        r@ == lineage_pipe(),
{
    to_owned_string("│")
}

/// The marker of a completed step.
pub fn success_text() -> (r: String)
    ensures
        r@ == success_marker(),
{
    to_owned_string("✓")
}

/// The marker of an archived branch.
pub fn archived_text() -> (r: String)
    ensures
        r@ == archived_marker(),
{
    to_owned_string("~")
}

/// The marker of a deleted branch.
pub fn deleted_text() -> (r: String)
    ensures
        r@ == deleted_marker(),
{
    to_owned_string("✕")
}

/// The marker of the selected row.
pub fn head_text() -> (r: String)
    ensures
        r@ == head_marker(),
{
    to_owned_string(">")
}

/// The frame of the throbber shown at tick `i`.
pub fn throbber_text(i: usize) -> (r: String)
    ensures
        r@ == throbber_frame(i as nat),
{
    let k = i % 4;
    if k == 0 {
        to_owned_string("|")
    } else if k == 1 {
        to_owned_string("/")
    } else if k == 2 {
        to_owned_string("-")
    } else {
        to_owned_string("\\")
    }
}

} // verus!
