//! What every step of the picker keeps.

use vstd::prelude::*;

use crate::effects::{EffectView, SubmissionView};
use crate::group_file;
use crate::group_file::FileRead;
use crate::groups;
use crate::groups::GroupView;
use crate::mouse::{InputEvent, MouseEvent};
use crate::organize;
use crate::picker;
use crate::picker::Model;
use crate::prompts::{NameActionView, PromptView};
use crate::rows;
use crate::rows::VisibleRow;
use crate::sessions;
use crate::sessions::SessionView;

verus! {

/// Whether sessions stand as they are listed, and groups have sound names and list no session twice.
#[verifier::opaque]
pub open spec fn is_sound(s: Seq<SessionView>, groups: Seq<GroupView>) -> bool {
    sessions::is_arranged(s) && groups::names_are_sound(groups) && groups::members_are_sound(groups)
}

impl Model {
    /// Whether what the picker holds is sound.
    pub open spec fn sound(self) -> bool {
        is_sound(self.sessions, self.groups.groups)
    }
}

proof fn lemma_selected_exists(m: Model)
    requires
        m.is_countable(),
    ensures
        m.selected_row() matches Some(VisibleRow::Session(i)) ==> i < m.sessions.len(),
        m.selected_row() matches Some(VisibleRow::Group(header)) ==> header <= m.groups.groups.len(),
{
    let l = m.listing(m.focus);
    rows::rows_are_listed_once(l);
    if let Some(row) = m.selected_row() {
        assert(m.list().contains(m.list()[m.selected]));
        assert(l.lists(row));
    }
}

proof fn lemma_reordered(m: Model, up: bool)
    requires
        m.is_countable(),
        m.sound(),
    ensures
        m.reordered(up).0.sound(),
        m.reordered(up).0.is_countable(),
{
    reveal(is_sound);
    lemma_selected_exists(m);
    match m.selected_row() {
        Some(VisibleRow::Group(header)) => {
            let h = header as int;
            let target = if up { h - 1 } else { h + 1 };
            if 0 <= target < m.groups.groups.len() && h < m.groups.groups.len() {
                groups::exchanging_keeps_groups_sound(m.groups.groups, h, target);
            }
        },
        Some(VisibleRow::Session(i)) => {
            lemma_session_reordered(m, i as int, up);
        },
        None => {},
    }
}

proof fn lemma_session_reordered(m: Model, i: int, up: bool)
    requires
        m.sound(),
        0 <= i < m.sessions.len(),
    ensures
        m.session_reordered(i, up).0.sound(),
        m.session_reordered(i, up).0.sessions.len() == m.sessions.len(),
        m.session_reordered(i, up).0.groups == m.groups,
{
    reveal(is_sound);
    if m.sessions[i].pinned && m.peer(i, up) is Some {
        organize::reordering_back_undoes(m, i, up);
        organize::peer_is_pinned(m, i, up);
        sessions::exchanging_pinned_keeps_order(m.sessions, i, m.peer(i, up)->0);
    }
}

proof fn lemma_rearranged(m: Model, changed: Seq<SessionView>)
    requires
        m.sound(),
        changed.len() == m.sessions.len(),
    ensures
        m.rearranged(changed).sound(),
        m.rearranged(changed).sessions.len() == m.sessions.len(),
{
    reveal(is_sound);
    let names = sessions::pinned_names(changed);
    sessions::arranging_arranges(changed, names);
    sessions::arranging_puts_pinned_first(changed, names);
    broadcast use vstd::seq_lib::group_to_multiset_ensures;

    assert(sessions::arranged(changed, names).to_multiset().len() == changed.to_multiset().len());
}

proof fn lemma_session_pin(m: Model, i: int)
    requires
        m.is_countable(),
        m.sound(),
        0 <= i < m.sessions.len(),
    ensures
        m.session_pin_toggled(i).0.sound(),
        m.session_pin_toggled(i).0.is_countable(),
{
    let session = m.sessions[i];
    lemma_rearranged(m, m.sessions.update(i, SessionView { pinned: !session.pinned, ..session }));
}

proof fn lemma_pin(m: Model)
    requires
        m.is_countable(),
        m.sound(),
    ensures
        m.pin_toggled().0.sound(),
        m.pin_toggled().0.is_countable(),
{
    lemma_selected_exists(m);
    if m.marked != Set::<Seq<char>>::empty() {
        let pinned = crate::marks::some_marked_unpinned(m.sessions, m.marked);
        lemma_rearranged(m, organize::with_pins(m.sessions, m.marked, pinned));
    } else if let Some(i) = m.selected_session() {
        lemma_session_pin(m, i);
    }
}

proof fn lemma_collapsed(m: Model, header: int, collapsed: bool)
    requires
        m.is_countable(),
        m.sound(),
        0 <= header,
    ensures
        m.group_collapsed(header, collapsed).0.sound(),
        m.group_collapsed(header, collapsed).0.is_countable(),
{
    reveal(is_sound);
    if header < m.groups.groups.len() {
        groups::collapsing_keeps_groups_sound(m.groups.groups, header, collapsed);
    }
}

proof fn lemma_activated(m: Model)
    requires
        m.is_countable(),
        m.sound(),
    ensures
        m.activated().0.sound(),
        m.activated().0.is_countable(),
{
    if let Some(VisibleRow::Group(header)) = m.selected_row() {
        lemma_collapsed(m, header as int, !m.listing(m.focus).collapsed(header as int));
    }
}

proof fn lemma_deleted(m: Model)
    requires
        m.is_countable(),
        m.sound(),
    ensures
        m.group_deleted().0.sound(),
        m.group_deleted().0.is_countable(),
{
    reveal(is_sound);
    if let Some(header) = m.selected_header() {
        if header < m.groups.groups.len() {
            groups::deleting_keeps_groups_sound(m.groups.groups, header);
        }
    }
}

proof fn lemma_moved(m: Model, names: Seq<Seq<char>>, target: Option<int>)
    requires
        m.is_countable(),
        m.sound(),
        target matches Some(t) ==> 0 <= t,
    ensures
        m.sessions_moved(names, target).0.sound(),
        m.sessions_moved(names, target).0.is_countable(),
{
    reveal(is_sound);
    let groups = organize::all_moved(m.groups.groups, names, target, 0);
    organize::lemma_all_moved_sound(m.groups.groups, names, target, 0);
    organize::lemma_all_moved_len(m.groups.groups, names, target, 0);
    if let Some(t) = target {
        if t < groups.len() {
            groups::collapsing_keeps_groups_sound(groups, t, false);
        }
    }
}

proof fn lemma_submitted(m: Model, value: Seq<char>, action: NameActionView)
    requires
        m.is_countable(),
        m.sound(),
        action matches NameActionView::Rename(i) ==> 0 <= i,
    ensures
        m.submitted(value, action) matches Ok((done, _)) ==> done.sound() && done.sessions == m.sessions
            && done.groups.groups.len() <= m.groups.groups.len() + 1,
{
    reveal(is_sound);
    let groups = m.groups.groups;
    match action {
        NameActionView::Rename(i) => {
            if i < groups.len() && groups::checked_name(groups, value, Some(i)) is Ok {
                groups::naming_keeps_groups_sound(groups, value, Some(i));
            }
        },
        _ => {
            if let Ok(name) = groups::checked_name(groups, value, None) {
                groups::naming_keeps_groups_sound(groups, value, None);
                if let NameActionView::CreateAndMove(names) = action {
                    let more = groups.push(GroupView { name, collapsed: false, sessions: Seq::empty() });
                    organize::lemma_all_moved_sound(more, names, Some(groups.len() as int), 0);
                    organize::lemma_all_moved_len(more, names, Some(groups.len() as int), 0);
                }
            }
        },
    }
}

proof fn lemma_answered(m: Model, key: u8)
    requires
        m.is_countable(),
        m.sound(),
        m.wf(),
    ensures
        m.answered(key).0.sound(),
{
    let closed = Model { prompt: None, ..m };
    match m.prompt {
        Some(PromptView::Name { label, value, action }) => {
            lemma_submitted(closed, value, action);
        },
        Some(PromptView::Move { session_names, choice }) => {
            lemma_moved(closed, session_names, Some(choice));
            lemma_moved(closed, session_names, None);
        },
        Some(PromptView::Action { choice }) => {
            lemma_pin(closed);
        },
        _ => {},
    }
}

proof fn lemma_normal_key(m: Model, key: u8)
    requires
        m.is_countable(),
        m.sound(),
    ensures
        m.normal_key(key).0.sound(),
{
    lemma_selected_exists(m);
    lemma_reordered(m, true);
    lemma_reordered(m, false);
    lemma_pin(m);
    lemma_deleted(m);
    lemma_activated(m);
    if let Some(header) = m.current_header() {
        if let Some(VisibleRow::Session(i)) = m.selected_row() {
            groups::lemma_group_from(m.groups.groups, m.sessions[i as int].name, 0);
        }
        lemma_collapsed(m, header, true);
        lemma_collapsed(m, header, false);
    }
}

proof fn lemma_dragged(m: Model, up: bool, target: int, steps: nat, effect: EffectView)
    requires
        m.is_countable(),
        m.sound(),
    ensures
        m.dragged(up, target, steps, effect).0.sound(),
        m.dragged(up, target, steps, effect).0.is_countable(),
    decreases steps,
{
    let away = if up { m.selected > target } else { m.selected < target };
    if away && steps > 0 {
        lemma_reordered(m, up);
        let (n, e) = m.reordered(up);
        if n.selected != m.selected {
            lemma_dragged(n, up, target, (steps - 1) as nat, crate::pointer::later(effect, e));
        }
    }
}

proof fn lemma_moused(m: Model, event: MouseEvent, now: u64)
    requires
        m.is_countable(),
        m.sound(),
        0 <= m.top,
        0 <= m.parked_top,
    ensures
        m.moused(event, now).0.sound(),
{
    let quiet = m.click_forgotten();
    let there = m.focused(m.pane_at(event.col as int));
    if let Some((i, row)) = there.row_under(event.row as int) {
        let on = Model { selected: i, ..there };
        lemma_activated(on.click_forgotten());
        if let VisibleRow::Session(k) = row {
            lemma_listed_exists(there, i);
            if k < m.sessions.len() {
                lemma_session_pin(on.click_forgotten(), k as int);
            }
        }
    }
    if let Some((target, _)) = quiet.row_under(event.row as int) {
        lemma_dragged(quiet, true, target, quiet.list().len(), EffectView::Continue);
        let (n, e, left) = quiet.dragged(true, target, quiet.list().len(), EffectView::Continue);
        lemma_dragged(n, false, target, left, e);
    }
}

proof fn lemma_listed_exists(m: Model, i: int)
    requires
        m.is_countable(),
    ensures
        0 <= i < m.list().len() ==> (m.list()[i] matches VisibleRow::Session(k) ==> k < m.sessions.len()),
{
    let l = m.listing(m.focus);
    rows::rows_are_listed_once(l);
    if 0 <= i < m.list().len() {
        assert(m.list().contains(m.list()[i]));
        assert(l.lists(m.list()[i]));
    }
}

/// Every input leaves the sessions as they are listed and the groups sound, where they were.
pub proof fn steps_keep_soundness(m: Model, input: InputEvent, now: u64)
    requires
        m.is_countable(),
        m.wf(),
        m.sound(),
        0 <= m.top,
        0 <= m.parked_top,
    ensures
        m.stepped(input, now).0.sound(),
{
    match input {
        InputEvent::Key(key) => {
            if m.prompt is Some {
                lemma_answered(m, key);
            } else if m.searching {
                lemma_activated(m);
            } else {
                lemma_normal_key(m, key);
            }
        },
        InputEvent::Mouse(event) => {
            lemma_moused(m, event, now);
        },
        InputEvent::Ignore => {},
    }
}

/// What is handed back after a step keeps soundness too: the end of giving a name
/// changes neither sessions nor groups, and sessions that were loaded again stand
/// as they are listed.
pub proof fn finishing_keeps_soundness(
    m: Model,
    submission: SubmissionView,
    saved: Result<(), Seq<char>>,
    raw: Seq<char>,
    current: Seq<char>,
    pinned: Seq<Seq<char>>,
    name: Seq<char>,
    next: Option<Seq<char>>,
    names: Seq<Seq<char>>,
    skipped: int,
)
    requires
        m.sound(),
    ensures
        m.name_finished(submission, saved).sound(),
        sessions::listed(raw, current, pinned) matches Ok(s) ==> m.kill_finished(s, name, next).sound()
            && m.kill_all_finished(s, names, skipped).sound(),
{
    reveal(is_sound);
    sessions::loaded_sessions_are_arranged(raw, current, pinned);
}

/// The picker starts sound where sessions stand as they are listed and the groups'
/// names are sound: a group file never makes a session be listed twice.
/// [`picker::App::start`] says when the names are.
pub proof fn starting_is_sound(s: Seq<SessionView>, read: FileRead, rows: int, cols: int)
    requires
        sessions::is_arranged(s),
    ensures
        group_file::state_from(read) matches Ok(state) ==> (groups::names_are_sound(state.groups) ==> picker::started(
            s,
            state,
            rows,
            cols,
        ).sound()),
{
    reveal(is_sound);
    group_file::read_state_is_tidy(read);
    if let Ok(state) = group_file::state_from(read) {
        group_file::tidy_members_are_sound(state);
    }
}

} // verus!
