//! Laws of what is listed after sessions were killed.

use vstd::prelude::*;

use crate::cursor_laws;
use crate::effects::EffectView;
use crate::organize;
use crate::picker::Model;
use crate::rows;
use crate::rows::VisibleRow;
use crate::sessions;
use crate::sessions::SessionView;

verus! {

proof fn lemma_other_from(list: Seq<VisibleRow>, except: usize, k: int)
    requires
        0 <= k <= list.len(),
        forall|j: int| k <= j < list.len() ==> #[trigger] list[j] != VisibleRow::Session(except),
    ensures
        match organize::other_from(list, except, k) {
            Some(i) => exists|j: int|
                #[trigger] cursor_laws::is_next_session(list, k - 1, j) && list[j] == VisibleRow::Session(i),
            None => forall|j: int| k <= j < list.len() ==> (#[trigger] list[j]) is Group,
        },
    decreases list.len() - k,
{
    if k < list.len() {
        match list[k] {
            VisibleRow::Session(i) => {
                assert(cursor_laws::is_next_session(list, k - 1, k));
            },
            VisibleRow::Group(_) => {
                lemma_other_from(list, except, k + 1);
                if let Some(i) = organize::other_from(list, except, k) {
                    let j = choose|j: int|
                        #[trigger] cursor_laws::is_next_session(list, k, j) && list[j] == VisibleRow::Session(i);
                    assert(cursor_laws::is_next_session(list, k - 1, j));
                }
            },
        }
    }
}

proof fn lemma_other_before(list: Seq<VisibleRow>, except: usize, end: int)
    requires
        0 <= end <= list.len(),
        forall|j: int| 0 <= j < end ==> #[trigger] list[j] != VisibleRow::Session(except),
    ensures
        match organize::other_before(list, except, end) {
            Some(i) => exists|j: int|
                #[trigger] cursor_laws::is_last_session(list, end, j) && list[j] == VisibleRow::Session(i),
            None => forall|j: int| 0 <= j < end ==> (#[trigger] list[j]) is Group,
        },
    decreases end,
{
    if end > 0 {
        match list[end - 1] {
            VisibleRow::Session(i) => {
                assert(cursor_laws::is_last_session(list, end, end - 1));
            },
            VisibleRow::Group(_) => {
                lemma_other_before(list, except, end - 1);
                if let Some(i) = organize::other_before(list, except, end) {
                    let j = choose|j: int|
                        #[trigger] cursor_laws::is_last_session(list, end - 1, j) && list[j] == VisibleRow::Session(i);
                    assert(cursor_laws::is_last_session(list, end, j));
                }
            },
        }
    }
}

/// Killing the session under the cursor says where the cursor goes then: to the
/// next session below, or where there is none to the next above, or nowhere.
pub proof fn killing_says_where_to_go(m: Model, i: usize)
    requires
        m.is_countable(),
        m.prompt is None,
        !m.searching,
        m.marked == Set::<Seq<char>>::empty(),
        m.selected_row() == Some(VisibleRow::Session(i)),
        !m.sessions[i as int].is_current,
    ensures
        ({
            let list = m.list();
            let name_at = |k: int| m.sessions[list[k]->Session_0 as int].name;
            let killed = |next: Option<Seq<char>>|
                (m, EffectView::Kill { session_name: m.sessions[i as int].name, next_selected_name: next });
            let none_below = forall|j: int| m.selected < j < list.len() ==> (#[trigger] list[j]) is Group;
            let none_above = forall|j: int| 0 <= j < m.selected ==> (#[trigger] list[j]) is Group;
            &&& forall|k: int| #[trigger] cursor_laws::is_next_session(list, m.selected, k) ==> m.keyed(0x78) == killed(
                Some(name_at(k)),
            )
            &&& none_below ==> forall|k: int| #[trigger]
                cursor_laws::is_last_session(list, m.selected, k) ==> m.keyed(0x78) == killed(Some(name_at(k)))
            &&& none_below && none_above ==> m.keyed(0x78) == killed(None)
        }),
{
    let list = m.list();
    rows::rows_are_listed_once(m.listing(m.focus));
    assert forall|j: int| 0 <= j < list.len() && j != m.selected implies #[trigger] list[j] != VisibleRow::Session(
        i,
    ) by {
        assert(list[m.selected] == VisibleRow::Session(i));
    }
    lemma_other_from(list, i, m.selected + 1);
    lemma_other_before(list, i, m.selected);
    let below = organize::other_from(list, i, m.selected + 1);
    let above = organize::other_before(list, i, m.selected);
    if below is Some {
        let j = choose|j: int|
            #[trigger] cursor_laws::is_next_session(list, m.selected, j) && list[j] == VisibleRow::Session(below->0);
        assert(list[j] is Session);
        assert forall|k: int| #[trigger] cursor_laws::is_next_session(list, m.selected, k) implies k == j by {
            assert(list[k] is Session);
        }
    } else {
        assert forall|k: int| !#[trigger] cursor_laws::is_next_session(list, m.selected, k) by {
            if cursor_laws::is_next_session(list, m.selected, k) {
                assert(list[k] is Group);
            }
        }
        if above is Some {
            let j = choose|j: int|
                #[trigger] cursor_laws::is_last_session(list, m.selected, j) && list[j] == VisibleRow::Session(
                    above->0,
                );
            assert(list[j] is Session);
            assert forall|k: int| #[trigger] cursor_laws::is_last_session(list, m.selected, k) implies k == j by {
                assert(list[k] is Session);
            }
        } else {
            assert forall|k: int| !#[trigger] cursor_laws::is_last_session(list, m.selected, k) by {
                if cursor_laws::is_last_session(list, m.selected, k) {
                    assert(list[k] is Group);
                }
            }
        }
    }
}

/// Whether `after` has the sessions that are left, and of `marked` the marks of
/// those that are still there. Groups, the search and the focus are as they were.
pub open spec fn is_reloaded(m: Model, after: Model, left: Seq<SessionView>, marked: Set<Seq<char>>) -> bool {
    &&& after == (Model {
        sessions: left,
        marked: after.marked,
        selected: after.selected,
        top: after.top,
        status: after.status,
        ..m
    })
    &&& forall|n: Seq<char>| #[trigger]
        after.marked.contains(n) <==> marked.contains(n) && exists|i: int|
            0 <= i < left.len() && (#[trigger] left[i]).name == n
    &&& after.top <= after.selected
}

proof fn lemma_reloaded(m: Model, left: Seq<SessionView>, preferred: Option<Seq<char>>)
    ensures
        is_reloaded(m, m.reloaded(left, preferred), left, m.marked),
{
    let after = m.reloaded(left, preferred);
    let all = sessions::names_of(left);
    assert forall|n: Seq<char>| #[trigger] after.marked.contains(n) <==> m.marked.contains(n) && exists|i: int|
        0 <= i < left.len() && (#[trigger] left[i]).name == n by {
        if all.contains(n) {
            let i = all.index_of(n);
            assert(left[i].name == n);
        }
        if exists|i: int| 0 <= i < left.len() && (#[trigger] left[i]).name == n {
            let i = choose|i: int| 0 <= i < left.len() && (#[trigger] left[i]).name == n;
            assert(all[i] == n);
        }
    }
}

proof fn lemma_preferred(m: Model, left: Seq<SessionView>, preferred: Option<Seq<char>>, j: int)
    requires
        sessions::names_of(left).no_duplicates(),
        0 <= j < left.len() <= usize::MAX,
        organize::preferred_name(left, preferred) == Some(left[j].name),
        m.reloaded(left, preferred).list().contains(VisibleRow::Session(j as usize)),
    ensures
        m.reloaded(left, preferred).selected_row() == Some(VisibleRow::Session(j as usize)),
{
    let after = m.reloaded(left, preferred);
    let placed = Model { selected: m.selected, top: m.top, ..after };
    assert(placed.listing(placed.focus) == after.listing(after.focus));
    cursor_laws::named_session_can_be_selected(placed, j);
    let there = placed.name_selected(left[j].name);
    assert(there.listing(there.focus) == after.listing(after.focus));
    assert(after.selected == there.selected);
}

/// After the session under the cursor was killed the sessions that are left are
/// listed, with the cursor on the one that was to have it next. Marks of sessions
/// that are gone are gone too, and nothing else changes but the status.
pub proof fn killed_session_is_gone(
    m: Model,
    left: Seq<SessionView>,
    name: Seq<char>,
    next: Option<Seq<char>>,
)
    ensures
        is_reloaded(m, m.kill_finished(left, name, next), left, m.marked),
        forall|j: int|
            sessions::names_of(left).no_duplicates() && 0 <= j < left.len() <= usize::MAX && next == Some(
                (#[trigger] left[j]).name,
            ) && m.kill_finished(left, name, next).list().contains(VisibleRow::Session(j as usize))
                ==> m.kill_finished(left, name, next).selected_row() == Some(VisibleRow::Session(j as usize)),
{
    lemma_reloaded(m, left, next);
    let after = m.kill_finished(left, name, next);
    let there = m.reloaded(left, next);
    assert(after.listing(after.focus) == there.listing(there.focus));
    assert forall|j: int|
        sessions::names_of(left).no_duplicates() && 0 <= j < left.len() <= usize::MAX && next == Some(
            (#[trigger] left[j]).name,
        ) && after.list().contains(VisibleRow::Session(j as usize)) implies after.selected_row() == Some(
        VisibleRow::Session(j as usize),
    ) by {
        lemma_preferred(m, left, next, j);
    }
}

/// After marked sessions were killed the sessions that are left are listed, with
/// the cursor on the current one. The killed sessions are no longer marked, and
/// neither are others that are gone; nothing else changes but the status.
pub proof fn killed_sessions_are_gone(m: Model, left: Seq<SessionView>, killed: Seq<Seq<char>>, skipped: int, c: int)
    ensures
        is_reloaded(m, m.kill_all_finished(left, killed, skipped), left, m.marked.difference(killed.to_set())),
        sessions::names_of(left).no_duplicates() && 0 <= c < left.len() <= usize::MAX && left[c].is_current && (forall|
            j: int,
        |
            0 <= j < c ==> !(#[trigger] left[j]).is_current) && m.kill_all_finished(left, killed, skipped).list().contains(
            VisibleRow::Session(c as usize),
        ) ==> m.kill_all_finished(left, killed, skipped).selected_row() == Some(VisibleRow::Session(c as usize)),
{
    let unmarked = Model { marked: m.marked.difference(killed.to_set()), ..m };
    lemma_reloaded(unmarked, left, None);
    let after = m.kill_all_finished(left, killed, skipped);
    let there = unmarked.reloaded(left, None);
    assert(after.listing(after.focus) == there.listing(there.focus));
    if sessions::names_of(left).no_duplicates() && 0 <= c < left.len() <= usize::MAX && left[c].is_current && (forall|
        j: int,
    |
        0 <= j < c ==> !(#[trigger] left[j]).is_current) && after.list().contains(VisibleRow::Session(c as usize)) {
        cursor_laws::lemma_current(left, 0, c);
        lemma_preferred(unmarked, left, None, c);
    }
}

} // verus!
