use vstd::prelude::*;

use crate::ansi::{head_marker, head_text, paint, Accent};
use crate::error::{message_with_name, quoted, DigError, ErrorKind};
use crate::text::{
    chars_of, join, join_spec, lines, lines_spec, push_char, push_str, str_equal, to_owned_string,
    trim, trim_spec, split_char, split_spec, views,
};
use crate::tree_view::{rows_view, stack_tree_rows, view_rows, StackTreeRow, TreeView};

verus! {

/// The most rows the interactive picker shows at once.
pub const MAX_VISIBLE_ROWS: usize = 12;

/// How an interactive pick ended.
#[derive(Debug, Clone, PartialEq, Eq)]
pub enum InteractiveOutcome {
    Selected(String),
    Cancelled,
}

/// A key press of the interactive picker.
#[derive(Debug, Clone, Copy, PartialEq, Eq, Structural)]
pub enum InputEvent {
    Up,
    Down,
    Confirm,
    Cancel,
}

/// The interactive branch picker: the rows of the tree, the selected one, and the checked out
/// branch when the tree does not hold it.
#[derive(Debug, Clone, PartialEq, Eq)]
pub struct InteractiveState {
    pub rows: Vec<StackTreeRow>,
    pub selected_index: usize,
    pub untracked_current_branch: Option<String>,
}

/// The first row at or after `i` for the branch named `name`.
pub open spec fn row_position(
    rows: Seq<(Seq<char>, bool, Option<u64>, Seq<char>)>,
    name: Seq<char>,
    i: int,
) -> Option<int>
    decreases rows.len() - i,
{
    if i < 0 || i >= rows.len() {
        None
    } else if rows[i].0 == name {
        Some(i)
    } else {
        row_position(rows, name, i + 1)
    }
}

proof fn lemma_row_position_bounds(rows: Seq<(Seq<char>, bool, Option<u64>, Seq<char>)>, name: Seq<char>, i: int)
    requires
        0 <= i,
    ensures
        row_position(rows, name, i) matches Some(p) ==> i <= p < rows.len(),
    decreases rows.len() - i,
{
    if i < rows.len() {
        lemma_row_position_bounds(rows, name, i + 1);
    }
}

/// Where the picker starts: on the row of the checked out branch, else on the first row.
pub open spec fn initial_selection(rows: Seq<(Seq<char>, bool, Option<u64>, Seq<char>)>, current: Option<Seq<char>>) -> int {
    match current {
        Some(name) => match row_position(rows, name, 0) {
            Some(i) => i,
            None => 0,
        },
        None => 0,
    }
}

fn find_row(rows: &Vec<StackTreeRow>, name: &str) -> (r: Option<usize>)
    ensures
        match r {
            Some(i) => row_position(rows_view(rows@), name@, 0) == Some(i as int) && i < rows@.len(),
            None => row_position(rows_view(rows@), name@, 0) is None,
        },
{
    let ghost rv = rows_view(rows@);
    let mut i: usize = 0;
    while i < rows.len()
        invariant
            i <= rows.len(),
            rv == rows_view(rows@),
            rv.len() == rows@.len(),
            row_position(rv, name@, 0) == row_position(rv, name@, i as int),
        decreases rows.len() - i,
    {
        proof {
            assert(rv[i as int].0 == rows@[i as int].branch_name@);
        }
        if str_equal(rows[i].branch_name.as_str(), name) {
            return Some(i);
        }
        i = i + 1;
    }
    None
}

impl InteractiveState {
    /// Whether the selection points at a row, or at the start of an empty picker.
    pub open spec fn wf(&self) -> bool {
        if self.rows@.len() == 0 {
            self.selected_index == 0
        } else {
            self.selected_index < self.rows@.len()
        }
    }

    /// The picker over the rows of a tree, on the checked out branch if the tree holds it.
    pub fn new(view: &TreeView) -> (s: InteractiveState)
        ensures
            s.wf(),
            rows_view(s.rows@) == view_rows(*view),
            s.selected_index == initial_selection(
                view_rows(*view),
                match view.current_branch_name {
                    Some(n) => Some(n@),
                    None => None,
                },
            ),
            match view.current_branch_name {
                Some(n) => match row_position(view_rows(*view), n@, 0) {
                    Some(_) => s.untracked_current_branch is None,
                    None => s.untracked_current_branch == Some(n),
                },
                None => s.untracked_current_branch is None,
            },
    {
        let rows = stack_tree_rows(view);
        let mut selected_index: usize = 0;
        let mut untracked_current_branch: Option<String> = None;
        match &view.current_branch_name {
            Some(name) => match find_row(&rows, name.as_str()) {
                Some(i) => {
                    selected_index = i;
                },
                None => {
                    untracked_current_branch = Some(name.clone());
                },
            },
            None => {},
        }
        InteractiveState { rows, selected_index, untracked_current_branch }
    }

    /// The branch of the selected row.
    pub fn selected_branch_name(&self) -> (r: &str)
        requires
            self.wf(),
            self.rows@.len() > 0,
        ensures
            r@ == self.rows@[self.selected_index as int].branch_name@,
    {
        self.rows[self.selected_index].branch_name.as_str()
    }

    /// Applies a key press: up and down move the selection within the rows, confirm picks the
    /// selected branch, cancel ends the pick.
    pub fn apply_event(&mut self, event: InputEvent) -> (r: Option<InteractiveOutcome>)
        requires
            old(self).wf(),
            event == InputEvent::Confirm ==> old(self).rows@.len() > 0,
        ensures
            final(self).wf(),
            final(self).rows == old(self).rows,
            final(self).untracked_current_branch == old(self).untracked_current_branch,
            match event {
                InputEvent::Up => {
                    &&& r is None
                    &&& final(self).selected_index == if old(self).selected_index > 0 {
                        old(self).selected_index - 1
                    } else {
                        0
                    }
                },
                InputEvent::Down => {
                    &&& r is None
                    &&& final(self).selected_index == if old(self).selected_index + 1 < old(
                        self,
                    ).rows@.len() {
                        old(self).selected_index + 1
                    } else if old(self).rows@.len() == 0 {
                        0
                    } else {
                        old(self).rows@.len() - 1
                    }
                },
                InputEvent::Confirm => {
                    &&& r matches Some(InteractiveOutcome::Selected(name)) && name@ == old(
                        self,
                    ).rows@[old(self).selected_index as int].branch_name@
                    &&& final(self).selected_index == old(self).selected_index
                },
                InputEvent::Cancel => {
                    &&& r == Some(InteractiveOutcome::Cancelled)
                    &&& final(self).selected_index == old(self).selected_index
                },
            },
    {
        match event {
            InputEvent::Up => {
                if self.selected_index > 0 {
                    self.selected_index = self.selected_index - 1;
                }
                None
            },
            InputEvent::Down => {
                let last_index = if self.rows.len() > 0 {
                    self.rows.len() - 1
                } else {
                    0
                };
                let next = self.selected_index + 1;
                self.selected_index = if next < last_index {
                    next
                } else {
                    last_index
                };
                None
            },
            InputEvent::Confirm => Some(
                InteractiveOutcome::Selected(to_owned_string(self.selected_branch_name())),
            ),
            InputEvent::Cancel => Some(InteractiveOutcome::Cancelled),
        }
    }
}

/// The rows the picker shows: as many as fit, the selected one centred where possible.
pub open spec fn visible_bounds(row_count: int, selected_index: int, limit: int) -> (int, int) {
    let count = if row_count < limit {
        row_count
    } else {
        limit
    };
    let half = count / 2;
    let start0 = if selected_index >= half {
        selected_index - half
    } else {
        0
    };
    let start = if start0 + count > row_count {
        row_count - count
    } else {
        start0
    };
    (start, start + count)
}

/// The rows the picker shows, as a range of row indices.
pub fn visible_range(row_count: usize, selected_index: usize, limit: usize) -> (r: std::ops::Range<usize>)
    ensures
        (r.start as int, r.end as int) == visible_bounds(row_count as int, selected_index as int, limit as int),
{
    let visible_count = if row_count < limit {
        row_count
    } else {
        limit
    };
    let half = visible_count / 2;
    let start0 = if selected_index >= half {
        selected_index - half
    } else {
        0
    };
    let start = if start0 > row_count - visible_count {
        row_count - visible_count
    } else {
        start0
    };
    start..start + visible_count
}

/// The help line of the picker.
pub open spec fn picker_help() -> Seq<char> {
    "↑/↓ or j/k move • Enter switch • Esc/q cancel"@
}

/// The line of row `idx` in the picker: the selected one marked and coloured.
pub open spec fn picker_line(rows: Seq<(Seq<char>, bool, Option<u64>, Seq<char>)>, sel: int, idx: int) -> Seq<char> {
    if idx == sel {
        paint(Accent::HeadMarker, head_marker()) + " "@ + paint(Accent::HeadMarker, rows[idx].3)
    } else {
        " "@ + " "@ + rows[idx].3
    }
}

/// The lines of `k` rows of the picker from row `start` on.
pub open spec fn picker_row_lines(
    rows: Seq<(Seq<char>, bool, Option<u64>, Seq<char>)>,
    sel: int,
    start: int,
    k: int,
) -> Seq<Seq<char>>
    decreases k,
{
    if k <= 0 {
        Seq::<Seq<char>>::empty()
    } else {
        picker_row_lines(rows, sel, start, k - 1).push(picker_line(rows, sel, start + k - 1))
    }
}

/// The lines of the picker: the visible rows, a blank line, the help line, and a note when the
/// checked out branch is not in the tree.
pub open spec fn picker_lines(
    rows: Seq<(Seq<char>, bool, Option<u64>, Seq<char>)>,
    sel: int,
    untracked: Option<Seq<char>>,
) -> Seq<Seq<char>> {
    let (start, end) = visible_bounds(rows.len() as int, sel, MAX_VISIBLE_ROWS as int);
    let body = picker_row_lines(rows, sel, start, end - start).push(Seq::<char>::empty()).push(
        picker_help(),
    );
    match untracked {
        Some(b) => body.push(
            "Current branch "@ + quoted(b) + " is untracked; starting on "@ + quoted(rows[0].0) + "."@,
        ),
        None => body,
    }
}

impl InteractiveState {
    /// Draws the picker.
    pub fn render(&self) -> (r: String)
        requires
            self.wf(),
            self.untracked_current_branch is Some ==> self.rows@.len() > 0,
        ensures
            r@ == join_spec(
                picker_lines(
                    rows_view(self.rows@),
                    self.selected_index as int,
                    match self.untracked_current_branch {
                        Some(b) => Some(b@),
                        None => None,
                    },
                ),
                "\n"@,
            ),
    {
        let ghost rv = rows_view(self.rows@);
        let range = visible_range(self.rows.len(), self.selected_index, MAX_VISIBLE_ROWS);
        let start = range.start;
        let end = range.end;
        let mut lines: Vec<String> = Vec::new();
        let mut idx: usize = start;
        while idx < end
            invariant
                start <= idx <= end <= self.rows@.len(),
                rv == rows_view(self.rows@),
                views(lines@) == picker_row_lines(rv, self.selected_index as int, start as int, idx - start),
            decreases end - idx,
        {
            let row = &self.rows[idx];
            let line = if idx == self.selected_index {
                let mut l = Accent::HeadMarker.paint_ansi(head_text().as_str());
                push_str(&mut l, " ");
                push_str(&mut l, Accent::HeadMarker.paint_ansi(row.line.as_str()).as_str());
                l
            } else {
                let mut l = to_owned_string(" ");
                push_str(&mut l, " ");
                push_str(&mut l, row.line.as_str());
                l
            };
            let ghost before = views(lines@);
            lines.push(line);
            proof {
                assert(rv[idx as int].3 == row.line@);
                assert(views(lines@) =~= before.push(line@));
            }
            idx = idx + 1;
        }
        lines.push(String::new());
        lines.push(to_owned_string("↑/↓ or j/k move • Enter switch • Esc/q cancel"));
        match &self.untracked_current_branch {
            Some(branch_name) => {
                let mut l = message_with_name("Current branch ", branch_name.as_str(), " is untracked; starting on ");
                crate::error::push_quoted(&mut l, self.rows[0].branch_name.as_str());
                push_str(&mut l, ".");
                lines.push(l);
                proof {
                    assert(rv[0].0 == self.rows@[0].branch_name@);
                }
            },
            None => {},
        }
        proof {
            assert(views(lines@) =~= picker_lines(
                rv,
                self.selected_index as int,
                match self.untracked_current_branch {
                    Some(b) => Some(b@),
                    None => None,
                },
            ));
        }
        join(&lines, "\n")
    }
}

/// A frame with every line break written as carriage return and line feed.
pub open spec fn crlf(s: Seq<char>) -> Seq<char>
    decreases s.len(),
{
    if s.len() == 0 {
        Seq::<char>::empty()
    } else if s.last() == '\n' {
        crlf(s.drop_last()) + seq!['\r', '\n']
    } else {
        crlf(s.drop_last()).push(s.last())
    }
}

/// A frame as the terminal in raw mode needs it: carriage return before every line feed.
pub fn terminal_frame_text(frame: &str) -> (r: String)
    ensures
        r@ == crlf(frame@),
{
    let cs = chars_of(frame);
    let mut r = String::new();
    let mut i: usize = 0;
    while i < cs.len()
        invariant
            i <= cs.len(),
            cs@ == frame@,
            r@ == crlf(frame@.take(i as int)),
        decreases cs.len() - i,
    {
        proof {
            assert(frame@.take(i as int + 1).drop_last() =~= frame@.take(i as int));
        }
        if cs[i] == '\n' {
            push_char(&mut r, '\r');
            push_char(&mut r, '\n');
            proof {
                assert(r@ =~= crlf(frame@.take(i as int)) + seq!['\r', '\n']);
            }
        } else {
            push_char(&mut r, cs[i]);
        }
        i = i + 1;
    }
    proof {
        assert(frame@.take(cs.len() as int) =~= frame@);
    }
    r
}

/// The number of terminal lines a frame takes: its lines, at least one.
pub fn frame_line_count(frame: &str) -> (r: usize)
    ensures
        r as int == if lines_spec(frame@).len() > 1 {
            lines_spec(frame@).len() as int
        } else {
            1
        },
{
    let n = lines(frame).len();
    if n > 1 {
        n
    } else {
        1
    }
}

/// The key press a scripted token stands for.
pub open spec fn scripted_event(t: Seq<char>) -> Option<InputEvent> {
    if t == "up"@ || t == "k"@ {
        Some(InputEvent::Up)
    } else if t == "down"@ || t == "j"@ {
        Some(InputEvent::Down)
    } else if t == "enter"@ {
        Some(InputEvent::Confirm)
    } else if t == "esc"@ || t == "q"@ || t == "cancel"@ {
        Some(InputEvent::Cancel)
    } else {
        None
    }
}

/// The failure for a token that stands for no key press.
pub open spec fn unsupported_event_message(t: Seq<char>) -> Seq<char> {
    "unsupported scripted switch event "@ + quoted(t) + " in DGR_SWITCH_TEST_EVENTS"@
}

/// The key press a scripted token stands for.
pub fn parse_scripted_event(token: &str) -> (r: Result<InputEvent, DigError>)
    ensures
        match r {
            Ok(e) => scripted_event(token@) == Some(e),
            Err(err) => scripted_event(token@) is None && err.kind == ErrorKind::InvalidInput
                && err.message@ == unsupported_event_message(token@),
        },
{
    if str_equal(token, "up") || str_equal(token, "k") {
        Ok(InputEvent::Up)
    } else if str_equal(token, "down") || str_equal(token, "j") {
        Ok(InputEvent::Down)
    } else if str_equal(token, "enter") {
        Ok(InputEvent::Confirm)
    } else if str_equal(token, "esc") || str_equal(token, "q") || str_equal(token, "cancel") {
        Ok(InputEvent::Cancel)
    } else {
        Err(
            DigError::new(
                ErrorKind::InvalidInput,
                message_with_name("unsupported scripted switch event ", token, " in DGR_SWITCH_TEST_EVENTS"),
            ),
        )
    }
}

/// The key presses of the trimmed tokens `ts[i..]`, blank ones skipped, or the first token that
/// stands for none.
pub open spec fn scripted_events_from(ts: Seq<Seq<char>>, i: int) -> Result<Seq<InputEvent>, Seq<char>>
    decreases ts.len() - i,
{
    if i < 0 || i >= ts.len() {
        Ok(Seq::<InputEvent>::empty())
    } else if ts[i].len() == 0 {
        scripted_events_from(ts, i + 1)
    } else {
        match scripted_event(ts[i]) {
            None => Err(ts[i]),
            Some(e) => match scripted_events_from(ts, i + 1) {
                Ok(rest) => Ok(seq![e] + rest),
                Err(t) => Err(t),
            },
        }
    }
}

/// The tokens of a comma-separated script, trimmed.
pub open spec fn script_tokens(value: Seq<char>) -> Seq<Seq<char>> {
    split_spec(value, ',').map_values(|t: Seq<char>| trim_spec(t))
}

fn parse_tokens_from(tokens: &Vec<String>, i: usize) -> (r: Result<Vec<InputEvent>, DigError>)
    requires
        i <= tokens.len(),
    ensures
        match r {
            Ok(v) => scripted_events_from(views(tokens@), i as int) == Ok::<Seq<InputEvent>, Seq<char>>(v@),
            Err(e) => scripted_events_from(views(tokens@), i as int) matches Err(t) && e.kind
                == ErrorKind::InvalidInput && e.message@ == unsupported_event_message(t),
        },
    decreases tokens.len() - i,
{
    if i >= tokens.len() {
        return Ok(Vec::new());
    }
    proof {
        assert(views(tokens@)[i as int] == tokens@[i as int]@);
    }
    if tokens[i].as_str().unicode_len() == 0 {
        return parse_tokens_from(tokens, i + 1);
    }
    let e = match parse_scripted_event(tokens[i].as_str()) {
        Ok(e) => e,
        Err(err) => return Err(err),
    };
    match parse_tokens_from(tokens, i + 1) {
        Ok(rest) => {
            let mut v: Vec<InputEvent> = Vec::new();
            v.push(e);
            let mut rest = rest;
            v.append(&mut rest);
            Ok(v)
        },
        Err(err) => Err(err),
    }
}

/// The key presses of a comma-separated script; blank tokens are skipped.
pub fn parse_scripted_events(value: &str) -> (r: Result<Vec<InputEvent>, DigError>)
    ensures
        match r {
            Ok(v) => scripted_events_from(script_tokens(value@), 0) == Ok::<Seq<InputEvent>, Seq<char>>(v@),
            Err(e) => scripted_events_from(script_tokens(value@), 0) matches Err(t) && e.kind
                == ErrorKind::InvalidInput && e.message@ == unsupported_event_message(t),
        },
{
    let parts = split_char(value, ',');
    let mut tokens: Vec<String> = Vec::new();
    let mut i: usize = 0;
    while i < parts.len()
        invariant
            i <= parts.len(),
            views(parts@) == split_spec(value@, ','),
            parts@.len() == split_spec(value@, ',').len(),
            tokens@.len() == i,
            views(tokens@) == split_spec(value@, ',').take(i as int).map_values(|t: Seq<char>| trim_spec(t)),
        decreases parts.len() - i,
    {
        let t = trim(parts[i].as_str());
        let ghost before = views(tokens@);
        let ghost old_tokens = tokens@;
        let ghost tv = t@;
        tokens.push(t);
        proof {
            assert(tokens@.len() == i + 1);
            assert forall|j: int| 0 <= j < i implies tokens@[j] == old_tokens[j] by {}
            assert(tokens@[i as int]@ == tv);
        }
        proof {
            assert(views(parts@)[i as int] == parts@[i as int]@);
            let sp = split_spec(value@, ',');
            assert forall|j: int| 0 <= j < i + 1 implies #[trigger] views(tokens@)[j] == sp.take(
                i as int + 1,
            ).map_values(|t: Seq<char>| trim_spec(t))[j] by {
                if j < i {
                    assert(views(tokens@)[j] == before[j]);
                    assert(before[j] == sp.take(i as int).map_values(|t: Seq<char>| trim_spec(t))[j]);
                } else {
                    assert(views(tokens@)[j] == tv);
                }
            }
            assert(views(tokens@) =~= sp.take(i as int + 1).map_values(|t: Seq<char>| trim_spec(t)));
        }
        i = i + 1;
    }
    proof {
        assert(split_spec(value@, ',').take(parts.len() as int) =~= split_spec(value@, ','));
    }
    parse_tokens_from(&tokens, 0)
}

/// How a scripted pick ends from selection `sel` with the key presses `events[i..]`: the
/// selected branch, `Some(None)` when cancelled, `None` when the script ends first.
pub open spec fn scripted_run(names: Seq<Seq<char>>, sel: int, events: Seq<InputEvent>, i: int) -> Option<
    Option<Seq<char>>,
>
    decreases events.len() - i,
{
    if i < 0 || i >= events.len() {
        None
    } else {
        match events[i] {
            InputEvent::Up => scripted_run(names, if sel > 0 { sel - 1 } else { 0 }, events, i + 1),
            InputEvent::Down => scripted_run(
                names,
                if sel + 1 < names.len() {
                    sel + 1
                } else if names.len() == 0 {
                    0
                } else {
                    names.len() - 1
                },
                events,
                i + 1,
            ),
            InputEvent::Confirm => Some(Some(names[sel])),
            InputEvent::Cancel => Some(None),
        }
    }
}

/// Whether the first key press of `events[i..]` that ends a pick is a confirmation.
pub open spec fn ends_in_confirm(events: Seq<InputEvent>, i: int) -> bool
    decreases events.len() - i,
{
    if i < 0 || i >= events.len() {
        false
    } else {
        match events[i] {
            InputEvent::Confirm => true,
            InputEvent::Cancel => false,
            _ => ends_in_confirm(events, i + 1),
        }
    }
}

/// The names of the rows.
pub open spec fn row_names(rows: Seq<(Seq<char>, bool, Option<u64>, Seq<char>)>) -> Seq<Seq<char>> {
    rows.map_values(|r: (Seq<char>, bool, Option<u64>, Seq<char>)| r.0)
}

/// Runs the picker over a tree with scripted key presses.
pub fn run_scripted(view: &TreeView, events: &[InputEvent]) -> (r: Result<InteractiveOutcome, DigError>)
    requires
        view_rows(*view).len() > 0 || !ends_in_confirm(events@, 0),
    ensures
        match scripted_run(
            row_names(view_rows(*view)),
            initial_selection(
                view_rows(*view),
                match view.current_branch_name {
                    Some(n) => Some(n@),
                    None => None,
                },
            ),
            events@,
            0,
        ) {
            None => r matches Err(e) && e.kind == ErrorKind::InvalidInput && e.message@
                == "scripted switch session ended without Enter, Esc, or q"@,
            Some(None) => r == Ok::<InteractiveOutcome, DigError>(InteractiveOutcome::Cancelled),
            Some(Some(name)) => r matches Ok(InteractiveOutcome::Selected(s)) && s@ == name,
        },
{
    let mut state = InteractiveState::new(view);
    let ghost names = row_names(view_rows(*view));
    let ghost start = scripted_run(names, state.selected_index as int, events@, 0);
    proof {
        assert(rows_view(state.rows@) == view_rows(*view));
        assert(start == scripted_run(
            row_names(view_rows(*view)),
            initial_selection(
                view_rows(*view),
                match view.current_branch_name {
                    Some(n) => Some(n@),
                    None => None,
                },
            ),
            events@,
            0,
        ));
    }
    let mut i: usize = 0;
    while i < events.len()
        invariant
            i <= events.len(),
            state.wf(),
            names == row_names(rows_view(state.rows@)),
            names.len() == state.rows@.len(),
            forall|j: int| 0 <= j < names.len() ==> #[trigger] names[j] == state.rows@[j].branch_name@,
            start == scripted_run(names, state.selected_index as int, events@, i as int),
            start == scripted_run(
                row_names(view_rows(*view)),
                initial_selection(
                    view_rows(*view),
                    match view.current_branch_name {
                        Some(n) => Some(n@),
                        None => None,
                    },
                ),
                events@,
                0,
            ),
            state.rows@.len() > 0 || !ends_in_confirm(events@, i as int),
        decreases events.len() - i,
    {
        let ghost sel = state.selected_index as int;
        let ev = events[i];
        match state.apply_event(ev) {
            Some(outcome) => {
                proof {
                    assert(start == scripted_run(names, sel, events@, i as int));
                    assert(ev == events@[i as int]);
                    match ev {
                        InputEvent::Confirm => {
                            assert(names[sel] == state.rows@[sel].branch_name@);
                        },
                        _ => {},
                    }
                }
                return Ok(outcome);
            },
            None => {},
        }
        i = i + 1;
    }
    Err(
        DigError::new(
            ErrorKind::InvalidInput,
            to_owned_string("scripted switch session ended without Enter, Esc, or q"),
        ),
    )
}

} // verus!
