//! Marked sessions: the ones that the next action applies to.

use vstd::prelude::*;
use vstd::string::*;

use crate::groups::GroupState;
use crate::names::NameSet;
use crate::rows;
use crate::rows::VisibleRow;
use crate::sessions;
use crate::sessions::{Session, SessionView};
use crate::text;

verus! {

/// The names of the sessions at the given indices.
pub open spec fn names_at(s: Seq<SessionView>, indices: Seq<usize>) -> Set<Seq<char>> {
    indices.map_values(|i: usize| s[i as int].name).to_set()
}

/// How many of the sessions at the given indices, from the `k`th on, are marked.
pub open spec fn marked_from(s: Seq<SessionView>, indices: Seq<usize>, marked: Set<Seq<char>>, k: int) -> nat
    decreases indices.len() - k,
{
    if k >= indices.len() {
        0
    } else {
        marked_from(s, indices, marked, k + 1) + (if marked.contains(s[indices[k] as int].name) {
            1nat
        } else {
            0nat
        })
    }
}

/// `marked` without `names` where all of them are marked, else with all of them.
pub open spec fn toggled(marked: Set<Seq<char>>, names: Set<Seq<char>>) -> Set<Seq<char>> {
    if names.subset_of(marked) {
        marked.difference(names)
    } else {
        marked.union(names)
    }
}

/// `marked` with the one name put in or taken out.
pub open spec fn toggled_one(marked: Set<Seq<char>>, name: Seq<char>) -> Set<Seq<char>> {
    if marked.contains(name) {
        marked.remove(name)
    } else {
        marked.insert(name)
    }
}

/// The sessions that rows list, from the `k`th row on.
pub open spec fn listed_from(rows: Seq<VisibleRow>, k: int) -> Seq<usize>
    decreases rows.len() - k,
{
    if k >= rows.len() {
        Seq::empty()
    } else {
        match rows[k] {
            VisibleRow::Session(i) => seq![i] + listed_from(rows, k + 1),
            VisibleRow::Group(_) => listed_from(rows, k + 1),
        }
    }
}

/// How many sessions of the group that a header stands for are marked, and how many there are.
pub fn selected_count_for_group(
    sessions: &Vec<Session>,
    groups: &GroupState,
    selected_sessions: &NameSet,
    group_index: usize,
) -> (r: (usize, usize))
    ensures
        ({
            let s = sessions::session_views(sessions@);
            let members = rows::group_members(s, groups@.groups, group_index as int);
            r.0 == marked_from(s, members, selected_sessions@, 0) && r.1 == members.len()
        }),
        r.0 <= r.1,
{
    let indices = rows::session_indices_for_group(sessions, groups, group_index);
    let ghost s = sessions::session_views(sessions@);
    let mut selected: usize = 0;
    let mut k: usize = 0;
    while k < indices.len()
        invariant
            k <= indices.len(),
            s == sessions::session_views(sessions@),
            forall|j: int| 0 <= j < indices.len() ==> #[trigger] indices@[j] < sessions.len(),
            selected <= k,
            marked_from(s, indices@, selected_sessions@, 0) == selected + marked_from(
                s,
                indices@,
                selected_sessions@,
                k as int,
            ),
        decreases indices.len() - k,
    {
        assert(indices@[k as int] < sessions.len());
        if selected_sessions.contains(&sessions[indices[k]].name) {
            selected += 1;
        }
        k += 1;
    }
    (selected, indices.len())
}

/// Marks the session, or takes its mark away.
pub fn toggle_selection_for_session(selected_sessions: &mut NameSet, session_name: &str)
    ensures
        final(selected_sessions)@ == toggled_one(old(selected_sessions)@, session_name@),
{
    if !selected_sessions.remove(session_name) {
        selected_sessions.insert(session_name.to_owned());
        assert(selected_sessions@ =~= toggled_one(old(selected_sessions)@, session_name@));
    }
}

/// Takes the marks of all the sessions at `indices` away where all of them are marked, else marks all of them.
fn toggle_all(selected_sessions: &mut NameSet, sessions: &Vec<Session>, indices: &Vec<usize>)
    requires
        forall|k: int| 0 <= k < indices.len() ==> #[trigger] indices@[k] < sessions.len(),
    ensures
        final(selected_sessions)@ == toggled(
            old(selected_sessions)@,
            names_at(sessions::session_views(sessions@), indices@),
        ),
{
    let ghost s = sessions::session_views(sessions@);
    let ghost list = indices@.map_values(|i: usize| s[i as int].name);
    let ghost names = names_at(s, indices@);
    let ghost marked = selected_sessions@;
    let mut all_selected = true;
    let mut k: usize = 0;
    while k < indices.len() && all_selected
        invariant
            k <= indices.len(),
            s == sessions::session_views(sessions@),
            list == indices@.map_values(|i: usize| s[i as int].name),
            names == list.to_set(),
            forall|j: int| 0 <= j < indices.len() ==> #[trigger] indices@[j] < sessions.len(),
            all_selected ==> forall|j: int| 0 <= j < k ==> selected_sessions@.contains(#[trigger] list[j]),
            !all_selected ==> !names.subset_of(selected_sessions@),
        decreases indices.len() - k,
    {
        assert(indices@[k as int] < sessions.len());
        assert(list[k as int] == sessions@[indices@[k as int] as int].name@);
        if !selected_sessions.contains(&sessions[indices[k]].name) {
            all_selected = false;
            assert(names.contains(list[k as int]));
        }
        k += 1;
    }
    proof {
        if all_selected {
            assert forall|n: Seq<char>| names.contains(n) implies marked.contains(n) by {
                let j = list.index_of(n);
                assert(list[j] == n);
            }
            assert(names.subset_of(marked));
        }
    }
    let mut i: usize = 0;
    proof {
        assert(list.take(0).to_set() =~= Set::empty());
        assert(marked.difference(Set::empty()) =~= marked);
        assert(marked.union(Set::empty()) =~= marked);
    }
    while i < indices.len()
        invariant
            i <= indices.len(),
            s == sessions::session_views(sessions@),
            list == indices@.map_values(|i: usize| s[i as int].name),
            forall|j: int| 0 <= j < indices.len() ==> #[trigger] indices@[j] < sessions.len(),
            all_selected ==> selected_sessions@ == marked.difference(list.take(i as int).to_set()),
            !all_selected ==> selected_sessions@ == marked.union(list.take(i as int).to_set()),
        decreases indices.len() - i,
    {
        assert(indices@[i as int] < sessions.len());
        let session = &sessions[indices[i]];
        assert(session.name@ == list[i as int]);
        proof {
            assert(list.take(i + 1) =~= list.take(i as int).push(list[i as int]));
            crate::names::lemma_push_to_set(list.take(i as int), list[i as int]);
        }
        if all_selected {
            selected_sessions.remove(&session.name);
            assert(selected_sessions@ =~= marked.difference(list.take(i + 1).to_set()));
        } else {
            selected_sessions.insert(session.name.clone());
            assert(selected_sessions@ =~= marked.union(list.take(i + 1).to_set()));
        }
        i += 1;
    }
    assert(list.take(i as int) =~= list);
}

/// Takes the marks of all sessions of a group away where all of them are marked, else marks all of them.
pub fn toggle_selection_for_group(
    selected_sessions: &mut NameSet,
    sessions: &Vec<Session>,
    groups: &GroupState,
    group_index: usize,
)
    ensures
        final(selected_sessions)@ == toggled(
            old(selected_sessions)@,
            names_at(
                sessions::session_views(sessions@),
                rows::group_members(sessions::session_views(sessions@), groups@.groups, group_index as int),
            ),
        ),
{
    let indices = rows::session_indices_for_group(sessions, groups, group_index);
    toggle_all(selected_sessions, sessions, &indices);
}

/// Whether every row that lists a session lists one of `count` sessions.
pub open spec fn rows_exist(rows: Seq<VisibleRow>, count: int) -> bool {
    forall|k: int| 0 <= k < rows.len() ==> (#[trigger] rows[k] matches VisibleRow::Session(i) ==> i < count)
}

/// Takes the marks of all listed sessions away where all of them are marked, else marks all of them.
pub fn toggle_selection_for_rows(selected_sessions: &mut NameSet, sessions: &Vec<Session>, rows: &Vec<VisibleRow>)
    requires
        rows_exist(rows@, sessions.len() as int),
    ensures
        final(selected_sessions)@ == toggled(
            old(selected_sessions)@,
            names_at(sessions::session_views(sessions@), listed_from(rows@, 0)),
        ),
{
    let mut indices: Vec<usize> = Vec::new();
    let mut k: usize = 0;
    assert(indices@ + listed_from(rows@, 0) =~= listed_from(rows@, 0));
    while k < rows.len()
        invariant
            k <= rows.len(),
            rows_exist(rows@, sessions.len() as int),
            forall|j: int| 0 <= j < indices.len() ==> #[trigger] indices@[j] < sessions.len(),
            listed_from(rows@, 0) == indices@ + listed_from(rows@, k as int),
        decreases rows.len() - k,
    {
        let ghost had = indices@;
        match rows[k] {
            VisibleRow::Session(i) => {
                assert(rows@[k as int] matches VisibleRow::Session(j) ==> j < sessions.len());
                indices.push(i);
                assert(had + (seq![i] + listed_from(rows@, k + 1)) =~= indices@ + listed_from(rows@, k + 1));
            },
            VisibleRow::Group(_) => {},
        }
        k += 1;
    }
    assert(indices@ + Seq::<usize>::empty() =~= indices@);
    toggle_all(selected_sessions, sessions, &indices);
}

/// The names of all sessions, in their order.
pub(crate) fn session_names(sessions: &Vec<Session>) -> (r: Vec<String>)
    ensures
        text::views(r@) == sessions::names_of(sessions::session_views(sessions@)),
{
    let mut out: Vec<String> = Vec::new();
    let mut i: usize = 0;
    while i < sessions.len()
        invariant
            i <= sessions.len(),
            out.len() == i,
            forall|j: int| 0 <= j < i ==> out@[j]@ == sessions@[j].name@,
        decreases sessions.len() - i,
    {
        out.push(sessions[i].name.clone());
        i += 1;
    }
    assert(text::views(out@) =~= sessions::names_of(sessions::session_views(sessions@)));
    out
}

/// Takes the marks of sessions away that are no longer there.
pub fn prune_selected_sessions(selected_sessions: &mut NameSet, sessions: &Vec<Session>)
    ensures
        final(selected_sessions)@ == old(selected_sessions)@.intersect(
            sessions::names_of(sessions::session_views(sessions@)).to_set(),
        ),
{
    let live = session_names(sessions);
    selected_sessions.retain_in(&live);
}

/// Whether some marked session is not pinned.
pub open spec fn some_marked_unpinned(s: Seq<SessionView>, marked: Set<Seq<char>>) -> bool {
    exists|i: int| 0 <= i < s.len() && marked.contains((#[trigger] s[i]).name) && !s[i].pinned
}

/// Whether the marked sessions are to be pinned: where one of them is not, all are, else none.
pub fn bulk_pin_target_state(sessions: &Vec<Session>, selected_sessions: &NameSet) -> (r: bool)
    ensures
        r == some_marked_unpinned(sessions::session_views(sessions@), selected_sessions@),
{
    let ghost s = sessions::session_views(sessions@);
    let mut i: usize = 0;
    while i < sessions.len()
        invariant
            i <= sessions.len(),
            s == sessions::session_views(sessions@),
            forall|j: int| 0 <= j < i ==> !(selected_sessions@.contains((#[trigger] s[j]).name) && !s[j].pinned),
        decreases sessions.len() - i,
    {
        assert(s[i as int] == sessions@[i as int]@);
        if selected_sessions.contains(&sessions[i].name) && !sessions[i].pinned {
            return true;
        }
        i += 1;
    }
    false
}

/// The names of the marked sessions from index `i` on, in their order.
pub open spec fn marked_names_from(s: Seq<SessionView>, marked: Set<Seq<char>>, i: int) -> Seq<Seq<char>>
    decreases s.len() - i,
{
    if i >= s.len() {
        Seq::empty()
    } else if marked.contains(s[i].name) {
        seq![s[i].name] + marked_names_from(s, marked, i + 1)
    } else {
        marked_names_from(s, marked, i + 1)
    }
}

/// The marked sessions from index `i` on that may be killed: all but the current one.
pub open spec fn killable_names_from(s: Seq<SessionView>, marked: Set<Seq<char>>, i: int) -> Seq<Seq<char>>
    decreases s.len() - i,
{
    if i >= s.len() {
        Seq::empty()
    } else if marked.contains(s[i].name) && !s[i].is_current {
        seq![s[i].name] + killable_names_from(s, marked, i + 1)
    } else {
        killable_names_from(s, marked, i + 1)
    }
}

/// How many marked sessions from index `i` on may not be killed.
pub open spec fn marked_current_from(s: Seq<SessionView>, marked: Set<Seq<char>>, i: int) -> nat
    decreases s.len() - i,
{
    if i >= s.len() {
        0
    } else {
        marked_current_from(s, marked, i + 1) + (if marked.contains(s[i].name) && s[i].is_current {
            1nat
        } else {
            0nat
        })
    }
}

/// The names of the marked sessions, in their order.
pub fn marked_names(sessions: &Vec<Session>, selected_sessions: &NameSet) -> (r: Vec<String>)
    ensures
        text::views(r@) == marked_names_from(sessions::session_views(sessions@), selected_sessions@, 0),
{
    let ghost s = sessions::session_views(sessions@);
    let ghost marked = selected_sessions@;
    let mut out: Vec<String> = Vec::new();
    let mut i: usize = 0;
    assert(text::views(out@) + marked_names_from(s, marked, 0) =~= marked_names_from(s, marked, 0));
    while i < sessions.len()
        invariant
            i <= sessions.len(),
            s == sessions::session_views(sessions@),
            marked == selected_sessions@,
            marked_names_from(s, marked, 0) == text::views(out@) + marked_names_from(s, marked, i as int),
        decreases sessions.len() - i,
    {
        assert(s[i as int] == sessions@[i as int]@);
        let ghost had = text::views(out@);
        let ghost rest = marked_names_from(s, marked, i + 1);
        if selected_sessions.contains(&sessions[i].name) {
            out.push(sessions[i].name.clone());
            assert(text::views(out@) =~= had.push(s[i as int].name));
            assert(had + (seq![s[i as int].name] + rest) =~= text::views(out@) + rest);
        }
        i += 1;
    }
    assert(text::views(out@) + Seq::<Seq<char>>::empty() =~= text::views(out@));
    out
}

/// The names of the marked sessions that may be killed, and how many marked ones may not.
pub fn killable_names(sessions: &Vec<Session>, selected_sessions: &NameSet) -> (r: (Vec<String>, usize))
    ensures
        text::views(r.0@) == killable_names_from(sessions::session_views(sessions@), selected_sessions@, 0),
        r.1 == marked_current_from(sessions::session_views(sessions@), selected_sessions@, 0),
{
    let ghost s = sessions::session_views(sessions@);
    let ghost marked = selected_sessions@;
    let mut out: Vec<String> = Vec::new();
    let mut skipped: usize = 0;
    let mut i: usize = 0;
    assert(text::views(out@) + killable_names_from(s, marked, 0) =~= killable_names_from(s, marked, 0));
    while i < sessions.len()
        invariant
            i <= sessions.len(),
            skipped <= i,
            s == sessions::session_views(sessions@),
            marked == selected_sessions@,
            killable_names_from(s, marked, 0) == text::views(out@) + killable_names_from(s, marked, i as int),
            marked_current_from(s, marked, 0) == skipped + marked_current_from(s, marked, i as int),
        decreases sessions.len() - i,
    {
        assert(s[i as int] == sessions@[i as int]@);
        let ghost had = text::views(out@);
        let ghost rest = killable_names_from(s, marked, i + 1);
        if selected_sessions.contains(&sessions[i].name) {
            if sessions[i].is_current {
                skipped += 1;
            } else {
                out.push(sessions[i].name.clone());
                assert(text::views(out@) =~= had.push(s[i as int].name));
                assert(had + (seq![s[i as int].name] + rest) =~= text::views(out@) + rest);
            }
        }
        i += 1;
    }
    assert(text::views(out@) + Seq::<Seq<char>>::empty() =~= text::views(out@));
    (out, skipped)
}

/// Marking a session twice changes nothing.
pub proof fn marking_twice_undoes(marked: Set<Seq<char>>, name: Seq<char>)
    ensures
        toggled_one(toggled_one(marked, name), name) == marked,
{
    assert(toggled_one(toggled_one(marked, name), name) =~= marked);
}

/// Toggling sessions of which not all are marked marks all of them; toggling
/// once more then clears all of them, and no other mark changes.
pub proof fn toggling_marks_all_then_none(marked: Set<Seq<char>>, names: Set<Seq<char>>)
    requires
        !names.subset_of(marked),
    ensures
        names.subset_of(toggled(marked, names)),
        toggled(toggled(marked, names), names).disjoint(names),
        forall|n: Seq<char>|
            !names.contains(n) ==> (#[trigger] toggled(marked, names).contains(n) <==> marked.contains(n)) && (toggled(
                toggled(marked, names),
                names,
            ).contains(n) <==> marked.contains(n)),
{
    assert(names.subset_of(marked.union(names)));
}

} // verus!
