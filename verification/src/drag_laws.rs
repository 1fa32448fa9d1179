//! Laws of dragging sessions with the mouse.

use vstd::prelude::*;

use crate::cursor_laws;
use crate::effects::EffectView;
use crate::groups;
use crate::list_laws;
use crate::lists;
use crate::mouse::MouseEvent;
use crate::mouse_laws;
use crate::picker::{Model, Pane};
use crate::pointer;
use crate::rows;
use crate::rows::{Listing, VisibleRow};
use crate::sessions;
use crate::sessions::SessionView;

verus! {

proof fn lemma_same_members(a: Listing, b: Listing, header: int, i: int)
    requires
        a.sessions.len() == b.sessions.len(),
        forall|k: int| 0 <= k < a.sessions.len() ==> a.is_member(header, k) == #[trigger] b.is_member(header, k),
        0 <= i,
    ensures
        a.members_from(header, i) == b.members_from(header, i),
    decreases a.sessions.len() - i,
{
    if i < a.sessions.len() {
        lemma_same_members(a, b, header, i + 1);
        assert(a.is_member(header, i) == b.is_member(header, i));
    }
}

proof fn lemma_same_rows(a: Listing, b: Listing, header: int)
    requires
        a.sessions.len() == b.sessions.len(),
        a.groups == b.groups,
        a.rules == b.rules,
        a.hits.searching == b.hits.searching,
        a.hits.titles == b.hits.titles,
        a.ungrouped_collapsed == b.ungrouped_collapsed,
        0 <= header,
        forall|h: int, k: int|
            0 <= h <= a.groups.len() && 0 <= k < a.sessions.len() ==> a.is_member(h, k) == #[trigger] b.is_member(h, k),
    ensures
        a.rows_from(header) == b.rows_from(header),
    decreases a.groups.len() + 1 - header,
{
    if header <= a.groups.len() {
        lemma_same_members(a, b, header, 0);
        lemma_same_rows(a, b, header + 1);
    }
}

/// Whether the rows from `first` to `last` of the list with the focus are those of
/// pinned sessions that stand under one header.
pub open spec fn is_run(m: Model, first: int, last: int) -> bool {
    &&& 0 <= first <= last < m.list().len()
    &&& forall|t: int|
        first <= t <= last ==> (#[trigger] m.list()[t] matches VisibleRow::Session(i) && m.sessions[i as int].pinned
            && groups::group_of(m.groups.groups, m.sessions[i as int].name) == groups::group_of(
            m.groups.groups,
            m.sessions[m.list()[first]->Session_0 as int].name,
        ))
}

/// The session in a row.
pub open spec fn session_in(list: Seq<VisibleRow>, t: int) -> int {
    list[t]->Session_0 as int
}

proof fn lemma_run_row(m: Model, first: int, last: int, t: int)
    requires
        m.is_countable(),
        is_run(m, first, last),
        first <= t <= last,
    ensures
        m.list()[t] == VisibleRow::Session(session_in(m.list(), t) as usize),
        0 <= session_in(m.list(), t) < m.sessions.len(),
        m.sessions[session_in(m.list(), t)].pinned,
        groups::group_of(m.groups.groups, m.sessions[session_in(m.list(), t)].name) == groups::group_of(
            m.groups.groups,
            m.sessions[session_in(m.list(), first)].name,
        ),
        m.list().contains(m.list()[t]),
{
    assert(m.list().contains(m.list()[t]));
    list_laws::panes_list_nothing_else(m, m.focus, m.list()[t]);
}

/// Neighbours in a run of rows are neighbours among the pinned sessions of the group.
proof fn lemma_run_neighbours(m: Model, first: int, last: int, t: int)
    requires
        m.is_countable(),
        m.query.len() == 0,
        is_run(m, first, last),
        first < t <= last,
    ensures
        session_in(m.list(), t - 1) < session_in(m.list(), t),
        cursor_laws::is_neighbour(m, session_in(m.list(), t), session_in(m.list(), t - 1), true),
        cursor_laws::is_neighbour(m, session_in(m.list(), t - 1), session_in(m.list(), t), false),
{
    lemma_run_row(m, first, last, t);
    lemma_run_row(m, first, last, t - 1);
    let k = session_in(m.list(), t - 1);
    let i = session_in(m.list(), t);
    let g = m.groups.groups;
    list_laws::panes_are_in_order(m, m.focus, t - 1, t);
    assert(k < i);
    let group = groups::group_of(g, m.sessions[i].name);
    list_laws::panes_list_sessions(m, m.focus, i);
    assert forall|j: int| k < j < i implies !(#[trigger] m.sessions[j].pinned && groups::group_of(
        g,
        m.sessions[j].name,
    ) == group) by {
        if m.sessions[j].pinned && groups::group_of(g, m.sessions[j].name) == group {
            list_laws::panes_list_sessions(m, m.focus, j);
            let row = VisibleRow::Session(j as usize);
            assert(m.list().contains(row));
            let r = m.list().index_of(row);
            if r < t - 1 {
                list_laws::panes_are_in_order(m, m.focus, r, t - 1);
            } else if r > t {
                list_laws::panes_are_in_order(m, m.focus, t, r);
            }
        }
    }
}

/// Exchanging two pinned sessions of a group leaves the lists as they were, while nothing is searched for.
proof fn lemma_exchange_keeps_rows(m: Model, i: int, k: int, pane: Pane)
    requires
        m.is_countable(),
        m.query.len() == 0,
        0 <= i < m.sessions.len(),
        0 <= k < m.sessions.len(),
        m.sessions[i].pinned,
        m.sessions[k].pinned,
        groups::group_of(m.groups.groups, m.sessions[i].name) == groups::group_of(
            m.groups.groups,
            m.sessions[k].name,
        ),
    ensures
        (Model { sessions: lists::exchanged(m.sessions, i, k), ..m }).rows_of(pane) == m.rows_of(pane),
{
    let moved = Model { sessions: lists::exchanged(m.sessions, i, k), ..m };
    let a = m.listing(pane);
    let b = moved.listing(pane);
    assert(a.hits.titles =~= b.hits.titles);
    assert forall|h: int, j: int| 0 <= h <= a.groups.len() && 0 <= j < a.sessions.len() implies a.is_member(h, j)
        == #[trigger] b.is_member(h, j) by {
        assert(a.hits.titles[h] && b.hits.titles[h]);
        assert(groups::group_of(a.groups, a.sessions[j].name) == groups::group_of(b.groups, b.sessions[j].name));
        assert(a.sessions[j].pinned == b.sessions[j].pinned);
    }
    lemma_same_rows(a, b, 0);
}

proof fn lemma_exchange_names(s: Seq<SessionView>, i: int, k: int)
    requires
        sessions::names_of(s).no_duplicates(),
        0 <= i < s.len(),
        0 <= k < s.len(),
    ensures
        sessions::names_of(lists::exchanged(s, i, k)).no_duplicates(),
{
    let t = lists::exchanged(s, i, k);
    assert forall|a: int, b: int| 0 <= a < t.len() && 0 <= b < t.len() && a != b implies sessions::names_of(t)[a]
        != sessions::names_of(t)[b] by {
        let a0 = if a == i { k } else if a == k { i } else { a };
        let b0 = if b == i { k } else if b == k { i } else { b };
        assert(sessions::names_of(s)[a0] != sessions::names_of(s)[b0]);
    }
}

/// One step of a drag within a run of rows.
proof fn lemma_drag_step(m: Model, first: int, last: int, up: bool)
    requires
        m.is_countable(),
        m.query.len() == 0,
        sessions::names_of(m.sessions).no_duplicates(),
        is_run(m, first, last),
        first <= m.selected <= last,
        up ==> first < m.selected,
        !up ==> m.selected < last,
    ensures
        ({
            let next = if up { m.selected - 1 } else { m.selected + 1 };
            let (after, effect) = m.reordered(up);
            &&& effect == EffectView::SavePins
            &&& after == (Model {
                sessions: lists::exchanged(m.sessions, session_in(m.list(), m.selected), session_in(m.list(), next)),
                selected: next,
                status: after.status,
                ..m
            })
            &&& after.list() == m.list()
            &&& sessions::names_of(after.sessions).no_duplicates()
            &&& is_run(after, first, last)
            &&& after.is_countable()
        }),
{
    let at = m.selected;
    let next = if up { at - 1 } else { at + 1 };
    lemma_run_row(m, first, last, at);
    lemma_run_row(m, first, last, next);
    lemma_run_neighbours(m, first, last, if up { at } else { next });
    let i = session_in(m.list(), at);
    let k = session_in(m.list(), next);
    let (after, effect) = m.reordered(up);
    assert(m.selected_row() == Some(VisibleRow::Session(i as usize)));
    let plain = Model { prompt: None, searching: false, ..m };
    assert(plain.listing(m.focus) == m.listing(m.focus));
    assert(cursor_laws::is_neighbour(plain, i, k, up));
    let key: u8 = if up { 0x4bu8 } else { 0x4au8 };
    cursor_laws::keys_reorder_sessions(plain, i, up, key);
    let there = plain.keyed(key).0;
    assert(plain.keyed(key) == plain.session_reordered(i, up));
    lemma_plain(m, i, up);
    let s = lists::exchanged(m.sessions, i, k);
    assert(there.sessions =~= s);
    lemma_exchange_names(m.sessions, i, k);
    lemma_exchange_keeps_rows(m, i, k, m.focus);
    assert(after.listing(m.focus) == (Model { sessions: s, ..m }).listing(m.focus));
    assert(there.listing(m.focus) == after.listing(m.focus));
    rows::rows_are_listed_once(m.listing(m.focus));
    assert(after.selected == next) by {
        assert(after.list()[after.selected] == VisibleRow::Session(k as usize));
        assert(m.list()[next] == VisibleRow::Session(k as usize));
    }
    assert forall|t: int| first <= t <= last implies (#[trigger] after.list()[t] matches VisibleRow::Session(n)
        && after.sessions[n as int].pinned && groups::group_of(m.groups.groups, after.sessions[n as int].name)
        == groups::group_of(m.groups.groups, after.sessions[after.list()[first]->Session_0 as int].name)) by {
        lemma_run_row(m, first, last, t);
        lemma_run_row(m, first, last, first);
    }
}

/// Reordering a session does not depend on a question or on whether the user is typing a search.
proof fn lemma_plain(m: Model, i: int, up: bool)
    ensures
        ({
            let plain = Model { prompt: None, searching: false, ..m };
            let (a, e) = m.session_reordered(i, up);
            let (b, f) = plain.session_reordered(i, up);
            &&& e == f
            &&& b == (Model { prompt: None, searching: false, ..a })
        }),
{
    let plain = Model { prompt: None, searching: false, ..m };
    assert(m.peer(i, up) == plain.peer(i, up));
    if let Some(k) = m.peer(i, up) {
        let a = Model { sessions: lists::exchanged(m.sessions, i, k), ..m };
        let b = Model { sessions: lists::exchanged(m.sessions, i, k), ..plain };
        assert(a.listing(m.focus) == b.listing(m.focus));
    }
}

/// Whether `after` has the sessions of `before`, with that in the row `from` moved
/// to the row `to` and each between them moved one row the other way.
pub open spec fn is_dragged(
    list: Seq<VisibleRow>,
    before: Seq<SessionView>,
    after: Seq<SessionView>,
    from: int,
    to: int,
) -> bool {
    &&& after.len() == before.len()
    &&& after[session_in(list, to)] == before[session_in(list, from)]
    &&& forall|t: int| to <= t < from ==> after[#[trigger] session_in(list, t + 1)] == before[session_in(list, t)]
    &&& forall|t: int| from < t <= to ==> after[#[trigger] session_in(list, t - 1)] == before[session_in(list, t)]
    &&& forall|j: int|
        0 <= j < before.len() && (forall|t: int|
            (from <= t <= to || to <= t <= from) ==> j != #[trigger] session_in(list, t)) ==> #[trigger] after[j]
            == before[j]
}

proof fn lemma_rows_differ(m: Model, first: int, last: int, t: int, u: int)
    requires
        m.is_countable(),
        is_run(m, first, last),
        first <= t < u <= last,
    ensures
        session_in(m.list(), t) < session_in(m.list(), u),
        0 <= session_in(m.list(), t),
        session_in(m.list(), u) < m.sessions.len(),
{
    lemma_run_row(m, first, last, t);
    lemma_run_row(m, first, last, u);
    list_laws::panes_are_in_order(m, m.focus, t, u);
}

proof fn lemma_dragged_up(m: Model, target: int, last: int, steps: nat, effect: EffectView)
    requires
        m.is_countable(),
        m.query.len() == 0,
        sessions::names_of(m.sessions).no_duplicates(),
        is_run(m, target, last),
        target <= m.selected <= last,
        steps >= m.selected - target,
        effect == EffectView::Continue || effect == EffectView::SavePins,
    ensures
        ({
            let (after, e, left) = m.dragged(true, target, steps, effect);
            &&& is_dragged(m.list(), m.sessions, after.sessions, m.selected, target)
            &&& after == (Model { sessions: after.sessions, selected: target, status: after.status, ..m })
            &&& after.list() == m.list()
            &&& e == (if m.selected > target { EffectView::SavePins } else { effect })
        }),
    decreases m.selected - target,
{
    if m.selected > target {
        lemma_drag_step(m, target, last, true);
        let (next, e) = m.reordered(true);
        lemma_dragged_up(next, target, last, (steps - 1) as nat, pointer::later(effect, e));
        let (after, f, left) = next.dragged(true, target, (steps - 1) as nat, pointer::later(effect, e));
        assert(m.dragged(true, target, steps, effect) == (after, f, left));
        let from = m.selected;
        lemma_rows_differ(m, target, last, from - 1, from);
        assert forall|t: int| target <= t < from implies after.sessions[#[trigger] session_in(m.list(), t + 1)]
            == m.sessions[session_in(m.list(), t)] by {
            lemma_rows_differ(m, target, last, t, t + 1);
            if t + 1 < from {
                lemma_rows_differ(m, target, last, t + 1, from);
                if t < from - 1 {
                    lemma_rows_differ(m, target, last, t, from - 1);
                }
                assert(after.sessions[session_in(m.list(), t + 1)] == next.sessions[session_in(m.list(), t)]);
                assert(next.sessions[session_in(m.list(), t)] == m.sessions[session_in(m.list(), t)]);
            } else {
                let j = session_in(m.list(), from);
                assert forall|u: int| (from - 1 <= u <= target || target <= u <= from - 1) implies j != #[trigger] session_in(
                    m.list(),
                    u,
                ) by {
                    lemma_rows_differ(m, target, last, u, from);
                }
                assert(after.sessions[j] == next.sessions[j]);
            }
        }
        assert forall|j: int|
            0 <= j < m.sessions.len() && (forall|t: int|
                (from <= t <= target || target <= t <= from) ==> j != #[trigger] session_in(m.list(), t)) implies #[trigger] after.sessions[j]
            == m.sessions[j] by {
            assert(j != session_in(m.list(), from) && j != session_in(m.list(), from - 1));
            assert forall|t: int| (from - 1 <= t <= target || target <= t <= from - 1) implies j != #[trigger] session_in(
                    m.list(),
                t,
            ) by {
                assert(j != session_in(m.list(), t));
            }
            assert(next.sessions[j] == m.sessions[j]);
        }
    } else {
        lemma_run_row(m, target, last, target);
        assert((Model { sessions: m.sessions, selected: target, status: m.status, ..m }) == m);
    }
}

proof fn lemma_dragged_down(m: Model, first: int, target: int, steps: nat, effect: EffectView)
    requires
        m.is_countable(),
        m.query.len() == 0,
        sessions::names_of(m.sessions).no_duplicates(),
        is_run(m, first, target),
        first <= m.selected <= target,
        steps >= target - m.selected,
        effect == EffectView::Continue || effect == EffectView::SavePins,
    ensures
        ({
            let (after, e, left) = m.dragged(false, target, steps, effect);
            &&& is_dragged(m.list(), m.sessions, after.sessions, m.selected, target)
            &&& after == (Model { sessions: after.sessions, selected: target, status: after.status, ..m })
            &&& after.list() == m.list()
            &&& e == (if m.selected < target { EffectView::SavePins } else { effect })
        }),
    decreases target - m.selected,
{
    if m.selected < target {
        lemma_drag_step(m, first, target, false);
        let (next, e) = m.reordered(false);
        lemma_dragged_down(next, first, target, (steps - 1) as nat, pointer::later(effect, e));
        let (after, f, left) = next.dragged(false, target, (steps - 1) as nat, pointer::later(effect, e));
        assert(m.dragged(false, target, steps, effect) == (after, f, left));
        let from = m.selected;
        lemma_rows_differ(m, first, target, from, from + 1);
        assert forall|t: int| from < t <= target implies after.sessions[#[trigger] session_in(m.list(), t - 1)]
            == m.sessions[session_in(m.list(), t)] by {
            lemma_rows_differ(m, first, target, t - 1, t);
            if from < t - 1 {
                lemma_rows_differ(m, first, target, from, t - 1);
                if from + 1 < t {
                    lemma_rows_differ(m, first, target, from + 1, t);
                }
                assert(after.sessions[session_in(m.list(), t - 1)] == next.sessions[session_in(m.list(), t)]);
                assert(next.sessions[session_in(m.list(), t)] == m.sessions[session_in(m.list(), t)]);
            } else {
                let j = session_in(m.list(), from);
                assert forall|u: int| (from + 1 <= u <= target || target <= u <= from + 1) implies j != #[trigger] session_in(
                    m.list(),
                    u,
                ) by {
                    lemma_rows_differ(m, first, target, from, u);
                }
                assert(after.sessions[j] == next.sessions[j]);
            }
        }
        assert forall|j: int|
            0 <= j < m.sessions.len() && (forall|t: int|
                (from <= t <= target || target <= t <= from) ==> j != #[trigger] session_in(m.list(), t)) implies #[trigger] after.sessions[j]
            == m.sessions[j] by {
            assert(j != session_in(m.list(), from) && j != session_in(m.list(), from + 1));
            assert forall|t: int| (from + 1 <= t <= target || target <= t <= from + 1) implies j != #[trigger] session_in(
                    m.list(),
                t,
            ) by {
                assert(j != session_in(m.list(), t));
            }
            assert(next.sessions[j] == m.sessions[j]);
        }
    } else {
        lemma_run_row(m, first, target, target);
        assert((Model { sessions: m.sessions, selected: target, status: m.status, ..m }) == m);
    }
}

/// A drag with the left button: a move of the mouse while the button is held.
pub open spec fn is_drag(event: MouseEvent) -> bool {
    event.pressed && event.button & 32 != 0 && event.button & 64 == 0 && event.button & 3 == 0
}

/// A pinned session that is dragged to another row of its group, over pinned
/// sessions only, ends in that row, with the cursor on it; each session between
/// moves one row the other way. No other session moves, and nothing changes about
/// any. The lists show the same rows, and the pins are to be saved.
pub proof fn drag_moves_to_the_row(m: Model, event: MouseEvent, now: u64, target: int)
    requires
        m.is_countable(),
        m.prompt is None,
        m.query.len() == 0,
        sessions::names_of(m.sessions).no_duplicates(),
        is_drag(event),
        m.pane_at(event.col as int) == m.focus,
        mouse_laws::index_shown(m, m.focus, event.row as int) == Some(target),
        is_run(m, target, m.selected) || is_run(m, m.selected, target),
        target != m.selected,
    ensures
        ({
            let (after, effect) = m.moused(event, now);
            &&& effect == EffectView::SavePins
            &&& is_dragged(m.list(), m.sessions, after.sessions, m.selected, target)
            &&& after == (Model {
                sessions: after.sessions,
                selected: target,
                status: after.status,
                last_click: None,
                ..m
            })
            &&& after.list() == m.list()
        }),
{
    let held = m.click_forgotten();
    assert(held.listing(Pane::Active) == m.listing(Pane::Active));
    assert(held.listing(Pane::All) == m.listing(Pane::All));
    if is_run(m, target, m.selected) {
        lemma_run_row(m, target, m.selected, target);
        lemma_run_row(m, target, m.selected, m.selected);
        assert(is_run(held, target, m.selected));
        lemma_dragged_up(held, target, m.selected, held.list().len(), EffectView::Continue);
        let (up, e, left) = held.dragged(true, target, held.list().len(), EffectView::Continue);
        assert(up.dragged(false, target, left, e) == (up, e, left));
    } else {
        lemma_run_row(m, m.selected, target, target);
        lemma_run_row(m, m.selected, target, m.selected);
        assert(is_run(held, m.selected, target));
        lemma_dragged_down(held, m.selected, target, held.list().len(), EffectView::Continue);
        assert(held.dragged(true, target, held.list().len(), EffectView::Continue) == (
            held,
            EffectView::Continue,
            held.list().len(),
        ));
    }
    assert(held.row_under(event.row as int) == Some((target, m.list()[target])));
    assert(m.moused(event, now) == held.dragged_to(event));
}

} // verus!
