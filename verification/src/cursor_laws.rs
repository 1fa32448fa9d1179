//! Laws of the cursor, the focus, the search, and of reordering what is under the cursor.

use vstd::prelude::*;

use crate::effects::EffectView;
use crate::groups;
use crate::list_laws;
use crate::names;
use crate::organize;
use crate::picker;
use crate::picker::{Model, Pane};
use crate::rows;
use crate::rows::VisibleRow;
use crate::sessions;
use crate::sessions::SessionView;

verus! {

/// Whether `k` is the first row of a session behind `from`.
pub open spec fn is_next_session(list: Seq<VisibleRow>, from: int, k: int) -> bool {
    from < k < list.len() && list[k] is Session && forall|j: int| from < j < k ==> (#[trigger] list[j]) is Group
}

/// Whether `k` is the last row of a session before `end`.
pub open spec fn is_last_session(list: Seq<VisibleRow>, end: int, k: int) -> bool {
    0 <= k < end && list[k] is Session && forall|j: int| k < j < end ==> (#[trigger] list[j]) is Group
}

/// Whether `k` is the first row of a header behind `from`.
pub open spec fn is_next_header(list: Seq<VisibleRow>, from: int, k: int) -> bool {
    from < k < list.len() && list[k] is Group && forall|j: int| from < j < k ==> (#[trigger] list[j]) is Session
}

/// Whether `k` is the last row of a header before `end`.
pub open spec fn is_last_header(list: Seq<VisibleRow>, end: int, k: int) -> bool {
    0 <= k < end && list[k] is Group && forall|j: int| k < j < end ==> (#[trigger] list[j]) is Session
}

/// `j` and `k` move the cursor to the next session below and above, `Ctrl+j` and
/// `Ctrl+k` to the next header below and above. Where there is none nothing happens.
pub proof fn keys_move_the_cursor(m: Model)
    requires
        m.prompt is None,
        !m.searching,
        0 <= m.selected < m.list().len(),
    ensures
        ({
            let to = |k: int| ((Model { selected: k, ..m }), EffectView::Continue);
            let list = m.list();
            &&& forall|k: int| #[trigger] is_next_session(list, m.selected, k) ==> m.keyed(0x6a) == to(k)
            &&& forall|k: int| #[trigger] is_last_session(list, m.selected, k) ==> m.keyed(0x6b) == to(k)
            &&& forall|k: int| #[trigger] is_next_header(list, m.selected, k) ==> m.keyed(0x0a) == to(k)
            &&& forall|k: int| #[trigger] is_last_header(list, m.selected, k) ==> m.keyed(0x0b) == to(k)
            &&& (forall|k: int| m.selected < k < list.len() ==> (#[trigger] list[k]) is Group) ==> m.keyed(0x6a) == to(
                m.selected,
            )
            &&& (forall|k: int| 0 <= k < m.selected ==> (#[trigger] list[k]) is Group) ==> m.keyed(0x6b) == to(
                m.selected,
            )
            &&& (forall|k: int| m.selected < k < list.len() ==> (#[trigger] list[k]) is Session) ==> m.keyed(0x0a)
                == to(m.selected)
            &&& (forall|k: int| 0 <= k < m.selected ==> (#[trigger] list[k]) is Session) ==> m.keyed(0x0b) == to(
                m.selected,
            )
        }),
{
    let list = m.list();
    rows::lemma_nearest_session(list, m.selected);
    rows::lemma_nearest_session(list, m.selected + 1);
    rows::lemma_nearest_group(list, m.selected);
    rows::lemma_nearest_group(list, m.selected + 1);
    assert((Model { selected: m.selected, ..m }) == m);
    assert forall|k: int| #[trigger] is_next_session(list, m.selected, k) implies rows::session_row_from(
        list,
        m.selected + 1,
    ) == Some(k) by {
        let found = rows::session_row_from(list, m.selected + 1);
        assert(list[k] is Session);
        if found is Some && found->0 != k {
            assert(list[found->0] is Session);
        }
    }
    assert forall|k: int| #[trigger] is_last_session(list, m.selected, k) implies rows::session_row_before(
        list,
        m.selected,
    ) == Some(k) by {
        let found = rows::session_row_before(list, m.selected);
        assert(list[k] is Session);
        if found is Some && found->0 != k {
            assert(list[found->0] is Session);
        }
    }
    assert forall|k: int| #[trigger] is_next_header(list, m.selected, k) implies rows::group_row_from(
        list,
        m.selected + 1,
    ) == Some(k) by {
        let found = rows::group_row_from(list, m.selected + 1);
        assert(list[k] is Group);
        if found is Some && found->0 != k {
            assert(list[found->0] is Group);
        }
    }
    assert forall|k: int| #[trigger] is_last_header(list, m.selected, k) implies rows::group_row_before(
        list,
        m.selected,
    ) == Some(k) by {
        let found = rows::group_row_before(list, m.selected);
        assert(list[k] is Group);
        if found is Some && found->0 != k {
            assert(list[found->0] is Group);
        }
    }
}

/// `g` moves the cursor to the first session of the list and `G` to the last one.
pub proof fn keys_jump(m: Model)
    requires
        m.prompt is None,
        !m.searching,
    ensures
        ({
            let to = |k: int| ((Model { selected: k, ..m }), EffectView::Continue);
            let list = m.list();
            &&& forall|k: int| #[trigger] is_next_session(list, -1, k) ==> m.keyed(0x67) == to(k)
            &&& forall|k: int| #[trigger] is_last_session(list, list.len() as int, k) ==> m.keyed(0x47) == to(k)
        }),
{
    let list = m.list();
    rows::lemma_nearest_session(list, 0);
    rows::lemma_nearest_session(list, list.len() as int);
    assert forall|k: int| #[trigger] is_next_session(list, -1, k) implies rows::session_row_from(list, 0) == Some(
        k,
    ) by {
        assert(list[k] is Session);
        let found = rows::session_row_from(list, 0);
        if found is Some && found->0 != k {
            assert(list[found->0] is Session);
        }
    }
    assert forall|k: int| #[trigger] is_last_session(list, list.len() as int, k) implies rows::session_row_before(
        list,
        list.len() as int,
    ) == Some(k) by {
        assert(list[k] is Session);
        let found = rows::session_row_before(list, list.len() as int);
        if found is Some && found->0 != k {
            assert(list[found->0] is Session);
        }
    }
}

/// `Ctrl+h` gives `Active` the focus and `Ctrl+l` gives it to `All`. Each list gets
/// back the cursor that it had, and the other's is kept; nothing else changes, but
/// that the last click is forgotten.
pub proof fn keys_move_the_focus(m: Model)
    requires
        m.prompt is None,
        !m.searching,
    ensures
        ({
            let other = Model {
                focus: if m.focus == Pane::Active { Pane::All } else { Pane::Active },
                selected: m.parked_selected,
                top: m.parked_top,
                parked_selected: m.selected,
                parked_top: m.top,
                last_click: None,
                ..m
            };
            &&& m.keyed(0x08) == (if m.focus == Pane::Active { m } else { other }, EffectView::Continue)
            &&& m.keyed(0x0c) == (if m.focus == Pane::All { m } else { other }, EffectView::Continue)
        }),
{
}

/// Whether a step searches for `query` with the cursor on the first session that it
/// leaves, in the list that had the focus, or in `All` where it leaves nothing
/// there, and does nothing else.
pub open spec fn searches_for(m: Model, step: (Model, EffectView), query: Seq<char>) -> bool {
    let (after, effect) = step;
    let found = Model { query, ..m };
    &&& effect == EffectView::Continue
    &&& after == (Model {
        query,
        focus: after.focus,
        selected: after.selected,
        top: 0,
        parked_selected: after.parked_selected,
        parked_top: after.parked_top,
        last_click: after.last_click,
        ..m
    })
    &&& after.focus == (if found.rows_of(m.focus).len() > 0 { m.focus } else { Pane::All })
    &&& after.focus == m.focus ==> after.parked_selected == m.parked_selected && after.parked_top == m.parked_top
    &&& after.focus != m.focus ==> after.parked_selected == m.selected && after.parked_top == m.top
    &&& forall|k: int| #[trigger] is_next_session(after.list(), -1, k) ==> after.selected == k
    &&& (forall|k: int| 0 <= k < after.list().len() ==> (#[trigger] after.list()[k]) is Group) ==> after.selected == 0
}

proof fn lemma_searches(m: Model, query: Seq<char>)
    ensures
        searches_for(
            m,
            ((Model { query, ..m }).first_match_selected(), EffectView::Continue),
            query,
        ),
{
    let found = Model { query, ..m };
    let after = found.first_match_selected();
    let there = if found.list().len() == 0 { found.focused(Pane::All) } else { found };
    assert(after.listing(after.focus) == there.listing(there.focus));
    let list = after.list();
    rows::lemma_nearest_session(list, 0);
    assert(after.selected == rows::first_session_row(list));
    assert forall|k: int| #[trigger] is_next_session(list, -1, k) implies after.selected == k by {
        assert(list[k] is Session);
        let at = rows::session_row_from(list, 0);
        if at is Some && at->0 != k {
            assert(list[at->0] is Session);
        }
    }
}

/// While the user is searching, a character that is typed is appended to what is
/// searched for, and backspace takes the last one away. The cursor then is on the
/// first session that is found.
pub proof fn typing_searches(m: Model, key: u8)
    requires
        m.prompt is None,
        m.searching,
    ensures
        0x21 <= key <= 0x7e ==> searches_for(m, m.keyed(key), m.query.push(key as char)),
        key == 0x7f || key == 0x08 ==> searches_for(
            m,
            m.keyed(key),
            if m.query.len() > 0 { m.query.drop_last() } else { m.query },
        ),
{
    lemma_searches(m, m.query.push(key as char));
    lemma_searches(m, if m.query.len() > 0 { m.query.drop_last() } else { m.query });
}

/// `/` starts a search, and changes nothing else but that the status is cleared.
/// Escape ends it: nothing is searched for then, and nothing else changes but that
/// the cursor stays on its row where that is still listed.
pub proof fn searching_starts_and_ends(m: Model)
    requires
        m.prompt is None,
    ensures
        !m.searching ==> m.keyed(0x2f) == ((Model { searching: true, status: Seq::empty(), ..m }), EffectView::Continue),
        m.searching ==> {
            let (after, effect) = m.keyed(0x1b);
            &&& effect == EffectView::Continue
            &&& after == (Model { query: Seq::empty(), searching: false, selected: after.selected, ..m })
            &&& m.selected_row() matches Some(row) ==> (after.list().contains(row) ==> after.selected_row() == Some(row))
        },
{
    if m.searching {
        crate::keys::ending_search_keeps_row(m);
    }
}

/// Where no name repeats, putting the cursor on a session by its name puts it on
/// the session's row, if there is one.
pub proof fn named_session_can_be_selected(m: Model, j: int)
    requires
        sessions::names_of(m.sessions).no_duplicates(),
        0 <= j < m.sessions.len() <= usize::MAX,
        m.list().contains(VisibleRow::Session(j as usize)),
    ensures
        m.name_selected(m.sessions[j].name).selected_row() == Some(VisibleRow::Session(j as usize)),
        m.name_selected(m.sessions[j].name) == (Model {
            selected: m.name_selected(m.sessions[j].name).selected,
            ..m
        }),
{
    let all = sessions::names_of(m.sessions);
    let name = m.sessions[j].name;
    assert(all[j] == name);
    names::lemma_index_from(all, name, 0);
    let k = names::index_from(all, name, 0)->0;
    assert(all[k] == all[j]);
    picker::listed_row_can_be_selected(m, VisibleRow::Session(j as usize));
}

/// Whether the session at `k` is the nearest pinned one of the same group as the
/// one at `i`, before it or behind it.
pub open spec fn is_neighbour(m: Model, i: int, k: int, up: bool) -> bool {
    let alike = |j: int|
        m.sessions[j].pinned && groups::group_of(m.groups.groups, m.sessions[j].name) == groups::group_of(
            m.groups.groups,
            m.sessions[i].name,
        );
    &&& if up { 0 <= k < i } else { i < k < m.sessions.len() }
    &&& alike(k)
    &&& forall|j: int|
        (if up { k < j < i } else { i < j < k }) ==> !(#[trigger] m.sessions[j].pinned && groups::group_of(
            m.groups.groups,
            m.sessions[j].name,
        ) == groups::group_of(m.groups.groups, m.sessions[i].name))
}

proof fn lemma_neighbour(m: Model, i: int, k: int, up: bool)
    requires
        0 <= i < m.sessions.len(),
    ensures
        is_neighbour(m, i, k, up) ==> m.peer(i, up) == Some(k),
        m.peer(i, up) == Some(k) ==> is_neighbour(m, i, k, up),
{
    let group = groups::group_of(m.groups.groups, m.sessions[i].name);
    organize::lemma_peer_before(m.sessions, m.groups.groups, group, i);
    organize::lemma_peer_from(m.sessions, m.groups.groups, group, i + 1);
    let found = m.peer(i, up);
    if is_neighbour(m, i, k, up) {
        assert(organize::is_peer(m.sessions, m.groups.groups, group, k));
        assert(found is Some);
        let f = found->0;
        assert(organize::is_peer(m.sessions, m.groups.groups, group, f));
        if f != k {
            assert(m.sessions[f].pinned);
        }
    }
    if found == Some(k) {
        assert forall|j: int| (if up { k < j < i } else { i < j < k }) implies !(#[trigger] m.sessions[j].pinned
            && groups::group_of(m.groups.groups, m.sessions[j].name) == group) by {
            assert(!organize::is_peer(m.sessions, m.groups.groups, group, j));
        }
    }
}

/// `K` and `J` exchange the pinned session under the cursor with the nearest pinned
/// one of its group before or behind it. No other session moves, none changes, and
/// the cursor stays on the session. A session that is not pinned, or that has no
/// such neighbour, stays where it is.
pub proof fn keys_reorder_sessions(m: Model, i: int, up: bool, key: u8)
    requires
        key == 0x4b && up || key == 0x4a && !up,
        m.is_countable(),
        m.prompt is None,
        !m.searching,
        sessions::names_of(m.sessions).no_duplicates(),
        m.selected_row() == Some(VisibleRow::Session(i as usize)),
        0 <= i < m.sessions.len(),
    ensures
        ({
            let (after, effect) = m.keyed(key);
            &&& forall|k: int| m.sessions[i].pinned && #[trigger] is_neighbour(m, i, k, up) ==> {
                &&& effect == EffectView::SavePins
                &&& after.sessions.len() == m.sessions.len()
                &&& after.sessions[k] == m.sessions[i]
                &&& after.sessions[i] == m.sessions[k]
                &&& forall|j: int|
                    0 <= j < m.sessions.len() && j != i && j != k ==> #[trigger] after.sessions[j] == m.sessions[j]
                &&& after.selected_row() == Some(VisibleRow::Session(k as usize))
                &&& after == (Model {
                    sessions: after.sessions,
                    selected: after.selected,
                    status: after.status,
                    ..m
                })
            }
            &&& !m.sessions[i].pinned || (forall|k: int| !#[trigger] is_neighbour(m, i, k, up)) ==> effect
                == EffectView::Continue && after == m.with_status(after.status)
        }),
{
    assert(m.keyed(key) == m.session_reordered(i, up));
    let (after, effect) = m.keyed(key);
    assert forall|k: int| m.sessions[i].pinned && #[trigger] is_neighbour(m, i, k, up) implies m.peer(i, up) == Some(
        k,
    ) && after.selected_row() == Some(VisibleRow::Session(k as usize)) by {
        lemma_neighbour(m, i, k, up);
        lemma_reordered_cursor(m, i, k, up);
    }
    if m.peer(i, up) is Some {
        lemma_neighbour(m, i, m.peer(i, up)->0, up);
    }
}

proof fn lemma_reordered_cursor(m: Model, i: int, k: int, up: bool)
    requires
        m.is_countable(),
        sessions::names_of(m.sessions).no_duplicates(),
        m.selected_row() == Some(VisibleRow::Session(i as usize)),
        0 <= i < m.sessions.len(),
        0 <= k < m.sessions.len(),
        m.sessions[i].pinned,
        m.peer(i, up) == Some(k),
    ensures
        m.session_reordered(i, up).0.selected_row() == Some(VisibleRow::Session(k as usize)),
{
    let s = m.sessions;
    let moved = Model { sessions: crate::lists::exchanged(s, i, k), ..m };
    let t = moved.sessions;
    assert(t[k] == s[i]);
    assert(m.list().contains(m.list()[m.selected]));
    list_laws::panes_list_sessions(m, m.focus, i);
    list_laws::panes_list_sessions(moved, m.focus, k);
    assert(sessions::names_of(t).no_duplicates()) by {
        assert forall|a: int, b: int| 0 <= a < t.len() && 0 <= b < t.len() && a != b implies sessions::names_of(t)[a]
            != sessions::names_of(t)[b] by {
            let a0 = if a == i { k } else if a == k { i } else { a };
            let b0 = if b == i { k } else if b == k { i } else { b };
            assert(sessions::names_of(s)[a0] != sessions::names_of(s)[b0]);
        }
    }
    named_session_can_be_selected(moved, k);
    let there = moved.name_selected(s[i].name);
    let after = m.session_reordered(i, up).0;
    assert(after.listing(after.focus) == there.listing(there.focus));
}

/// `K` and `J` exchange the group under the cursor with the one before or behind
/// it, and no other group moves or changes. The first and the last stay where there
/// is no place to go to, and so does the header for sessions without a group.
pub proof fn keys_reorder_groups(m: Model, header: usize, up: bool, key: u8)
    requires
        key == 0x4b && up || key == 0x4a && !up,
        m.is_countable(),
        m.prompt is None,
        !m.searching,
        m.selected_row() == Some(VisibleRow::Group(header)),
    ensures
        ({
            let (after, effect) = m.keyed(key);
            let count = m.groups.groups.len() as int;
            let other = if up { header - 1 } else { header + 1 };
            if header < count && 0 <= other < count {
                &&& effect == EffectView::SaveGroups
                &&& after.groups.groups.len() == count
                &&& after.groups.groups[other] == m.groups.groups[header as int]
                &&& after.groups.groups[header as int] == m.groups.groups[other]
                &&& forall|k: int|
                    0 <= k < count && k != header && k != other ==> #[trigger] after.groups.groups[k]
                        == m.groups.groups[k]
                &&& after == (Model { groups: after.groups, selected: after.selected, status: after.status, ..m })
                &&& after.groups.version == m.groups.version
                &&& after.list().contains(VisibleRow::Group(other as usize)) ==> after.selected_row() == Some(
                    VisibleRow::Group(other as usize),
                )
            } else {
                effect == EffectView::Continue && after == m.with_status(after.status)
            }
        }),
{
    let count = m.groups.groups.len() as int;
    let other = if up { header - 1 } else { header + 1 };
    if header < count && 0 <= other < count {
        let moved = m.with_groups(crate::lists::exchanged(m.groups.groups, header as int, other));
        picker::listed_row_can_be_selected(moved, VisibleRow::Group(other as usize));
        let there = moved.row_selected(VisibleRow::Group(other as usize));
        let after = m.keyed(key).0;
        assert(after.listing(after.focus) == there.listing(there.focus));
        assert(there.listing(there.focus) == moved.listing(moved.focus));
    }
}

/// Toggling the pin of a session leaves the cursor on it, where it is still listed.
pub proof fn pinned_session_keeps_the_cursor(m: Model, i: int, j: int)
    requires
        m.is_countable(),
        0 <= i < m.sessions.len(),
        sessions::names_of(m.session_pin_toggled(i).0.sessions).no_duplicates(),
        0 <= j < m.session_pin_toggled(i).0.sessions.len() <= usize::MAX,
        m.session_pin_toggled(i).0.sessions[j].name == m.sessions[i].name,
        m.session_pin_toggled(i).0.list().contains(VisibleRow::Session(j as usize)),
    ensures
        m.session_pin_toggled(i).0.selected_row() == Some(VisibleRow::Session(j as usize)),
{
    let after = m.session_pin_toggled(i).0;
    let placed = Model { sessions: after.sessions, ..m };
    assert(placed.listing(placed.focus) == after.listing(after.focus));
    named_session_can_be_selected(placed, j);
    let there = placed.name_selected(m.sessions[i].name);
    assert(there.listing(there.focus) == after.listing(after.focus));
}

/// Sessions that were moved have the cursor on the first of them, where it is listed.
pub proof fn moved_session_has_the_cursor(m: Model, session_names: Seq<Seq<char>>, target: Option<int>, j: int)
    requires
        m.is_countable(),
        session_names.len() > 0,
        sessions::names_of(m.sessions).no_duplicates(),
        0 <= j < m.sessions.len(),
        m.sessions[j].name == session_names[0],
        m.sessions_moved(session_names, target).0.list().contains(VisibleRow::Session(j as usize)),
    ensures
        m.sessions_moved(session_names, target).0.selected_row() == Some(VisibleRow::Session(j as usize)),
{
    let after = m.sessions_moved(session_names, target).0;
    let placed = Model { selected: m.selected, status: m.status, ..after };
    assert(placed.listing(placed.focus) == after.listing(after.focus));
    named_session_can_be_selected(placed, j);
    let there = placed.name_selected(session_names[0]);
    assert(there.listing(there.focus) == after.listing(after.focus));
    assert(after == there.with_status(after.status));
}

/// The picker starts with the focus on `Active` and the cursor of each list on the
/// current session, where it is listed. Nothing is marked, asked or searched for.
pub proof fn picker_starts_on_the_current(s: Seq<SessionView>, groups: groups::StateView, rows: int, cols: int, c: int)
    requires
        0 <= c < s.len() <= usize::MAX,
        s[c].is_current,
        forall|j: int| 0 <= j < c ==> !(#[trigger] s[j]).is_current,
    ensures
        ({
            let m = picker::started(s, groups, rows, cols);
            let row = VisibleRow::Session(c as usize);
            &&& m.sessions == s && m.groups == groups && m.rows == rows && m.cols == cols
            &&& m.focus == Pane::Active
            &&& m.marked == Set::<Seq<char>>::empty()
            &&& m.query.len() == 0 && !m.searching && m.prompt is None && m.status.len() == 0
            &&& !m.ungrouped_collapsed && m.last_click is None && m.top == 0 && m.parked_top == 0
            &&& m.rows_of(Pane::Active).contains(row) ==> m.selected_row() == Some(row)
            &&& !m.rows_of(Pane::Active).contains(row) ==> m.selected == 0
            &&& m.rows_of(Pane::All).contains(row) ==> 0 <= m.parked_selected < m.rows_of(Pane::All).len()
                && m.rows_of(Pane::All)[m.parked_selected] == row
        }),
{
    let m = picker::started(s, groups, rows, cols);
    let b = picker::blank(s, groups, rows, cols);
    assert(m.listing(Pane::Active) == b.listing(Pane::Active));
    assert(m.listing(Pane::All) == b.listing(Pane::All));
    lemma_current(s, 0, c);
    let row = VisibleRow::Session(c as usize);
    rows::lemma_row_index(m.rows_of(Pane::Active), row, 0);
    rows::lemma_row_index(m.rows_of(Pane::All), row, 0);
    if m.rows_of(Pane::Active).contains(row) {
        assert(m.rows_of(Pane::Active)[m.rows_of(Pane::Active).index_of(row)] == row);
    }
    if m.rows_of(Pane::All).contains(row) {
        assert(m.rows_of(Pane::All)[m.rows_of(Pane::All).index_of(row)] == row);
    }
}

pub(crate) proof fn lemma_current(s: Seq<SessionView>, i: int, c: int)
    requires
        0 <= i <= c < s.len(),
        s[c].is_current,
        forall|j: int| 0 <= j < c ==> !(#[trigger] s[j]).is_current,
    ensures
        picker::current_from(s, i) == c,
        organize::current_name_from(s, i) == Some(s[c].name),
    decreases c - i,
{
    if i < c {
        lemma_current(s, i + 1, c);
    }
}

/// Making the cursor visible moves it only where it is behind the last row, and
/// scrolls only where it is not on the screen, and then as little as is needed.
pub proof fn visible_cursor_stays(m: Model)
    requires
        0 <= m.selected,
        0 <= m.top,
        m.rows >= 6,
    ensures
        ({
            let v = m.made_visible();
            let height = m.rows - 4;
            &&& m.selected < m.list().len() ==> v.selected == m.selected
            &&& m.selected >= m.list().len() > 0 ==> v.selected == m.list().len() - 1
            &&& m.list().len() > 0 ==> v.top == (if v.selected < m.top {
                v.selected
            } else if v.selected >= m.top + height {
                v.selected - height + 1
            } else {
                m.top
            })
            &&& v == (Model {
                selected: v.selected,
                top: v.top,
                parked_selected: v.parked_selected,
                parked_top: v.parked_top,
                ..m
            })
        }),
{
}

} // verus!
