//! Questions that the picker asks, and the lines that describe what it is doing.

use vstd::prelude::*;
use vstd::string::*;

use crate::groups::{GroupState, GroupView, UNGROUPED_NAME};
use crate::help;
use crate::names;
use crate::names::NameSet;
use crate::sessions::{Session, SessionView};
use crate::text;

verus! {

/// How many actions there are on marked sessions.
pub const ACTION_COUNT: usize = 4;

/// What a typed name is for.
#[derive(Debug)]
pub enum NameAction {
    Create,
    Rename(usize),
    CreateAndMove(Vec<String>),
}

#[verifier::ext_equal]
pub enum NameActionView {
    Create,
    Rename(int),
    CreateAndMove(Seq<Seq<char>>),
}

impl View for NameAction {
    type V = NameActionView;

    open spec fn view(&self) -> NameActionView {
        match self {
            NameAction::Create => NameActionView::Create,
            NameAction::Rename(i) => NameActionView::Rename(*i as int),
            NameAction::CreateAndMove(names) => NameActionView::CreateAndMove(text::views(names@)),
        }
    }
}

impl Clone for NameAction {
    fn clone(&self) -> (r: NameAction)
        ensures
            r@ == self@,
    {
        match self {
            NameAction::Create => NameAction::Create,
            NameAction::Rename(i) => NameAction::Rename(*i),
            NameAction::CreateAndMove(list) => NameAction::CreateAndMove(names::copy(list)),
        }
    }
}

/// A question, and the answer as far as it is given.
#[derive(Debug)]
pub enum Prompt {
    Name { label: &'static str, value: String, action: NameAction },
    Move { session_names: Vec<String>, choice: usize },
    ConfirmKill { session_names: Vec<String>, skipped_current: usize },
    Action { choice: usize },
    Help { index: usize },
}

#[verifier::ext_equal]
pub enum PromptView {
    Name { label: Seq<char>, value: Seq<char>, action: NameActionView },
    Move { session_names: Seq<Seq<char>>, choice: int },
    ConfirmKill { session_names: Seq<Seq<char>>, skipped_current: int },
    Action { choice: int },
    Help { index: int },
}

impl View for Prompt {
    type V = PromptView;

    open spec fn view(&self) -> PromptView {
        match self {
            Prompt::Name { label, value, action } => PromptView::Name {
                label: label@,
                value: value@,
                action: action@,
            },
            Prompt::Move { session_names, choice } => PromptView::Move {
                session_names: text::views(session_names@),
                choice: *choice as int,
            },
            Prompt::ConfirmKill { session_names, skipped_current } => PromptView::ConfirmKill {
                session_names: text::views(session_names@),
                skipped_current: *skipped_current as int,
            },
            Prompt::Action { choice } => PromptView::Action { choice: *choice as int },
            Prompt::Help { index } => PromptView::Help { index: *index as int },
        }
    }
}

pub open spec fn prompt_view(prompt: Option<Prompt>) -> Option<PromptView> {
    match prompt {
        Some(p) => Some(p@),
        None => None,
    }
}

/// The last place that sessions can be moved to where there are `group_count`
/// groups: behind the groups and the place outside of them, a new group.
pub open spec fn last_option(group_count: int) -> int {
    if group_count < usize::MAX {
        group_count + 1
    } else {
        usize::MAX as int
    }
}

/// The lines of the popup that asks where sessions are to be moved.
pub open spec fn move_lines(groups: Seq<GroupView>, choice: int, session_count: int) -> Seq<Seq<char>> {
    let count = groups.len() as int;
    seq!["Move "@ + text::digits(session_count as nat) + " sessions to"@] + Seq::new(
        groups.len(),
        |i: int| help::marker(i == choice) + " "@ + groups[i].name,
    ) + seq![
        help::marker(choice == count) + " "@ + UNGROUPED_NAME@,
        help::marker(choice == count + 1) + " New group..."@,
        "j/k choose  Enter confirm  Esc cancel"@,
    ]
}

/// The lines of the popup that asks where sessions are to be moved.
pub fn move_popup_lines(groups: &GroupState, choice: usize, session_count: usize) -> (r: Vec<String>)
    ensures
        text::views(r@) == move_lines(groups@.groups, choice as int, session_count as int),
{
    let ghost g = groups@.groups;
    let count: usize = groups.groups.len();
    let mut title = "Move ".to_owned();
    title.append(&text::count(session_count));
    title.append(" sessions to");
    let ghost first = title@;
    let mut lines: Vec<String> = Vec::new();
    lines.push(title);
    let ghost entry = |i: int| help::marker(i == choice) + " "@ + g[i].name;
    let mut i: usize = 0;
    assert(text::views(lines@) =~= seq![first] + Seq::new(0, entry));
    while i < count
        invariant
            i <= count == groups.groups.len(),
            g == groups@.groups,
            entry == (|i: int| help::marker(i == choice) + " "@ + g[i].name),
            text::views(lines@) == seq![first] + Seq::new(i as nat, entry),
        decreases count - i,
    {
        let ghost had = text::views(lines@);
        let mut line = help::marker_text(i == choice).to_owned();
        line.append(" ");
        line.append(&groups.groups[i].name);
        assert(line@ == entry(i as int));
        lines.push(line);
        assert(text::views(lines@) =~= had.push(entry(i as int)));
        assert(text::views(lines@) =~= seq![first] + Seq::new((i + 1) as nat, entry));
        i += 1;
    }
    let ghost had = text::views(lines@);
    let mut ungrouped = help::marker_text(choice == count).to_owned();
    ungrouped.append(" ");
    ungrouped.append(UNGROUPED_NAME);
    lines.push(ungrouped);
    let mut fresh = help::marker_text(choice > 0 && choice - 1 == count).to_owned();
    fresh.append(" New group...");
    lines.push(fresh);
    lines.push("j/k choose  Enter confirm  Esc cancel".to_owned());
    assert(text::views(lines@) =~= had + seq![
        help::marker(choice == count) + " "@ + UNGROUPED_NAME@,
        help::marker(choice == count + 1) + " New group..."@,
        "j/k choose  Enter confirm  Esc cancel"@,
    ]);
    assert(Seq::new(count as nat, entry) =~= Seq::new(
        g.len(),
        |i: int| help::marker(i == choice) + " "@ + g[i].name,
    ));
    lines
}

/// The line that says what the picker is doing.
pub open spec fn mode_text(
    prompt: Option<PromptView>,
    searching: bool,
    query: Seq<char>,
    has_matches: bool,
    selected_count: int,
) -> Seq<char> {
    match prompt {
        Some(PromptView::Name { label, value, .. }) => "MODE input: "@ + label + ": "@ + value + "_"@,
        Some(PromptView::Move { session_names, .. }) => "MODE move: "@ + text::digits(session_names.len())
            + " sessions  j/k choose  Enter confirm"@,
        Some(PromptView::ConfirmKill { session_names, .. }) => "MODE confirm kill: "@ + text::digits(
            session_names.len(),
        ) + " sessions  y/N"@,
        Some(PromptView::Action { .. }) => "MODE selected actions: "@ + text::digits(selected_count as nat)
            + " sessions"@,
        Some(PromptView::Help { .. }) => "MODE help: j/k scroll  Esc close"@,
        None => if searching && has_matches {
            "MODE search: /"@ + query
        } else if searching {
            "MODE search: /"@ + query + "  no matches"@
        } else if selected_count > 0 {
            "MODE selection: "@ + text::digits(selected_count as nat)
                + " sessions  m move  p pin  x kill  v clear"@
        } else {
            "MODE normal: j/k move  Space select  / search  ? help"@
        },
    }
}

/// The line that says what the picker is doing.
pub fn mode_line(
    prompt: Option<&Prompt>,
    searching: bool,
    query: &str,
    has_matches: bool,
    selected_count: usize,
) -> (r: String)
    ensures
        r@ == mode_text(
            match prompt {
                Some(p) => Some(p@),
                None => None,
            },
            searching,
            query@,
            has_matches,
            selected_count as int,
        ),
{
    match prompt {
        Some(Prompt::Name { label, value, .. }) => {
            let mut line = "MODE input: ".to_owned();
            line.append(label);
            line.append(": ");
            line.append(value);
            line.append("_");
            line
        },
        Some(Prompt::Move { session_names, .. }) => {
            let mut line = "MODE move: ".to_owned();
            line.append(&text::count(session_names.len()));
            line.append(" sessions  j/k choose  Enter confirm");
            line
        },
        Some(Prompt::ConfirmKill { session_names, .. }) => {
            let mut line = "MODE confirm kill: ".to_owned();
            line.append(&text::count(session_names.len()));
            line.append(" sessions  y/N");
            line
        },
        Some(Prompt::Action { .. }) => {
            let mut line = "MODE selected actions: ".to_owned();
            line.append(&text::count(selected_count));
            line.append(" sessions");
            line
        },
        Some(Prompt::Help { .. }) => "MODE help: j/k scroll  Esc close".to_owned(),
        None => {
            if searching {
                let mut line = "MODE search: /".to_owned();
                line.append(query);
                if !has_matches {
                    line.append("  no matches");
                }
                line
            } else if selected_count > 0 {
                let mut line = "MODE selection: ".to_owned();
                line.append(&text::count(selected_count));
                line.append(" sessions  m move  p pin  x kill  v clear");
                line
            } else {
                "MODE normal: j/k move  Space select  / search  ? help".to_owned()
            }
        },
    }
}

/// How long ago `timestamp` was, in few characters. No timestamp is a dash, and the future is now.
pub open spec fn activity_text(timestamp: u64, now: u64) -> Seq<char> {
    let delta: int = now - timestamp;
    if timestamp == 0 {
        "-"@
    } else if delta < 5 {
        "now"@
    } else if delta < 60 {
        text::digits(delta as nat) + "s"@
    } else if delta < 3600 {
        text::digits((delta / 60) as nat) + "m"@
    } else if delta < 86400 {
        text::digits((delta / 3600) as nat) + "h"@
    } else if delta < 604800 {
        text::digits((delta / 86400) as nat) + "d"@
    } else {
        text::digits((delta / 604800) as nat) + "w"@
    }
}

/// How long before `now` the time `timestamp` was. Both are in seconds since the same instant.
pub fn format_relative_activity(timestamp: u64, now: u64) -> (r: String)
    ensures
        r@ == activity_text(timestamp, now),
{
    if timestamp == 0 {
        return "-".to_owned();
    }
    if now <= timestamp || now - timestamp < 5 {
        return "now".to_owned();
    }
    let delta: u64 = now - timestamp;
    let (count, unit): (u64, &str) = if delta < 60 {
        (delta, "s")
    } else if delta < 3600 {
        (delta / 60, "m")
    } else if delta < 86400 {
        (delta / 3600, "h")
    } else if delta < 604800 {
        (delta / 86400, "d")
    } else {
        (delta / 604800, "w")
    };
    let mut out = text::decimal(count);
    out.append(unit);
    out
}

/// The row of a session. While sessions are marked it has a checkbox.
pub open spec fn session_text(
    pointer: Seq<char>,
    session: SessionView,
    marked: Set<Seq<char>>,
    name_width: int,
    activity_width: int,
    now: u64,
) -> Seq<char> {
    let checkbox = if marked == Set::<Seq<char>>::empty() {
        "   "@
    } else if marked.contains(session.name) {
        " [x] "@
    } else {
        " [ ] "@
    };
    pointer + checkbox + text::padded_right(session.name, name_width) + "  "@ + text::padded_left(
        activity_text(session.last_activity, now),
        activity_width,
    ) + "  "@ + text::centered(if session.is_current { "*"@ } else { ""@ }, 3) + " "@ + (if session.pinned {
        "!"@
    } else {
        " "@
    })
}

/// The row of a session. While sessions are marked it has a checkbox.
pub fn session_row_line(
    pointer: &str,
    session: &Session,
    selected_sessions: &NameSet,
    name_width: usize,
    activity_width: usize,
    now: u64,
) -> (r: String)
    ensures
        r@ == session_text(
            pointer@,
            session@,
            selected_sessions@,
            name_width as int,
            activity_width as int,
            now,
        ),
{
    let mut line = pointer.to_owned();
    if selected_sessions.is_empty() {
        line.append("   ");
    } else if selected_sessions.contains(&session.name) {
        line.append(" [x] ");
    } else {
        line.append(" [ ] ");
    }
    line.append(&text::pad_right(&session.name, name_width));
    line.append("  ");
    line.append(&text::pad_left(&format_relative_activity(session.last_activity, now), activity_width));
    line.append("  ");
    line.append(&text::center(if session.is_current { "*" } else { "" }, 3));
    line.append(" ");
    line.append(if session.pinned { "!" } else { " " });
    line
}

} // verus!
