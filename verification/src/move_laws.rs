//! Laws of moving sessions between groups, and of naming groups.

use vstd::prelude::*;

use crate::effects::{EffectView, SubmissionView};
use crate::groups;
use crate::groups::{GroupView, UNGROUPED_NAME};
use crate::organize;
use crate::picker::Model;
use crate::prompts::{NameActionView, PromptView};
use crate::rows::VisibleRow;
use crate::text;

verus! {

proof fn lemma_moved_contains(g: Seq<GroupView>, name: Seq<char>, target: Option<int>, k: int, n: Seq<char>)
    requires
        0 <= k < g.len(),
    ensures
        groups::with_session_moved(g, name, target)[k].sessions.contains(n) <==> (if n == name {
            target == Some(k)
        } else {
            g[k].sessions.contains(n)
        }),
{
    groups::lemma_without(g[k].sessions, name);
    let kept = groups::without(g[k].sessions, name);
    if target == Some(k) {
        let more = kept.push(name);
        assert(more[kept.len() as int] == name);
        if kept.contains(n) {
            assert(more[kept.index_of(n)] == n);
        }
        if more.contains(n) && n != name {
            assert(kept[more.index_of(n)] == n);
        }
    }
}

proof fn lemma_all_moved_contains(
    g: Seq<GroupView>,
    names: Seq<Seq<char>>,
    target: Option<int>,
    i: int,
    k: int,
    n: Seq<char>,
)
    requires
        0 <= i <= names.len(),
        0 <= k < g.len(),
    ensures
        ({
            let after = organize::all_moved(g, names, target, i);
            &&& after.len() == g.len()
            &&& after[k].name == g[k].name
            &&& after[k].collapsed == g[k].collapsed
            &&& after[k].sessions.contains(n) <==> (if names.skip(i).contains(n) {
                target == Some(k)
            } else {
                g[k].sessions.contains(n)
            })
        }),
    decreases names.len() - i,
{
    if i < names.len() {
        let once = groups::with_session_moved(g, names[i], target);
        lemma_moved_contains(g, names[i], target, k, n);
        lemma_all_moved_contains(once, names, target, i + 1, k, n);
        let here = names.skip(i);
        let rest = names.skip(i + 1);
        assert(here[0] == names[i]);
        if rest.contains(n) {
            assert(here[rest.index_of(n) + 1] == n);
        }
        if here.contains(n) && n != names[i] {
            assert(rest[here.index_of(n) - 1] == n);
        }
    }
}

/// Whether `after` has the groups of `before`, where the sessions called `names`
/// are in the group at `target`, or in none, and every other is where it was.
pub open spec fn sessions_are_moved(
    before: Seq<GroupView>,
    after: Seq<GroupView>,
    names: Seq<Seq<char>>,
    target: Option<int>,
) -> bool {
    &&& after.len() == before.len()
    &&& forall|k: int| 0 <= k < before.len() ==> (#[trigger] after[k]).name == before[k].name
    &&& forall|k: int, n: Seq<char>|
        0 <= k < before.len() ==> (#[trigger] after[k].sessions.contains(n) <==> (if names.contains(n) {
            target == Some(k)
        } else {
            before[k].sessions.contains(n)
        }))
    &&& forall|n: Seq<char>| #[trigger]
        groups::group_of(after, n) == (if names.contains(n) {
            target
        } else {
            groups::group_of(before, n)
        })
}

proof fn lemma_sessions_are_moved(
    before: Seq<GroupView>,
    after: Seq<GroupView>,
    names: Seq<Seq<char>>,
    target: Option<int>,
)
    requires
        after.len() == before.len(),
        target matches Some(t) ==> 0 <= t < before.len(),
        forall|k: int|
            0 <= k < before.len() ==> (#[trigger] after[k]).name == organize::all_moved(before, names, target, 0)[k].name
                && after[k].sessions == organize::all_moved(before, names, target, 0)[k].sessions,
    ensures
        sessions_are_moved(before, after, names, target),
{
    let moved = organize::all_moved(before, names, target, 0);
    assert(names.skip(0) =~= names);
    assert forall|k: int, n: Seq<char>| 0 <= k < before.len() implies (#[trigger] after[k].sessions.contains(n)
        <==> (if names.contains(n) {
        target == Some(k)
    } else {
        before[k].sessions.contains(n)
    })) by {
        lemma_all_moved_contains(before, names, target, 0, k, n);
    }
    assert forall|k: int| 0 <= k < before.len() implies (#[trigger] after[k]).name == before[k].name by {
        lemma_all_moved_contains(before, names, target, 0, k, Seq::empty());
    }
    assert forall|n: Seq<char>| #[trigger]
        groups::group_of(after, n) == (if names.contains(n) {
            target
        } else {
            groups::group_of(before, n)
        }) by {
        groups::lemma_group_from(after, n, 0);
        groups::lemma_group_from(before, n, 0);
        if let Some(t) = target {
            assert(after[t].sessions.contains(n) <==> (names.contains(n) || before[t].sessions.contains(n)));
        }
        if let Some(k) = groups::group_of(after, n) {
            assert(after[k].sessions.contains(n));
        }
        if let Some(k) = groups::group_of(before, n) {
            assert(names.contains(n) || after[k].sessions.contains(n));
        }
    }
}

/// Enter on the question where to move sessions, with the place `choice` chosen,
/// leaves every session in question in the group at `choice`, or in none where
/// that is the place behind the groups. Every other session keeps its group. What
/// they were moved to is open, and no other group opens or closes.
pub proof fn sessions_move_to_the_choice(m: Model, session_names: Seq<Seq<char>>, choice: int)
    requires
        m.prompt == Some(PromptView::Move { session_names, choice }),
        0 <= choice <= m.groups.groups.len(),
    ensures
        ({
            let (after, effect) = m.answered(0x0d);
            let count = m.groups.groups.len() as int;
            &&& sessions_are_moved(
                m.groups.groups,
                after.groups.groups,
                session_names,
                if choice < count { Some(choice) } else { None },
            )
            &&& forall|k: int|
                0 <= k < count ==> (#[trigger] after.groups.groups[k]).collapsed == (m.groups.groups[k].collapsed && k
                    != choice)
            &&& after.ungrouped_collapsed == (m.ungrouped_collapsed && choice != count)
            &&& effect == EffectView::SaveGroups
            &&& after.prompt is None
            &&& after.sessions == m.sessions
            &&& after.marked == m.marked
            &&& after.groups.version == m.groups.version
            &&& m.answered(0x0a) == m.answered(0x0d)
        }),
{
    let before = m.groups.groups;
    let count = before.len() as int;
    let target = if choice < count { Some(choice) } else { None };
    let after = m.answered(0x0d).0.groups.groups;
    let moved = organize::all_moved(before, session_names, target, 0);
    organize::lemma_all_moved_len(before, session_names, target, 0);
    let closed = Model { prompt: None, ..m };
    assert(m.answered(0x0d) == closed.sessions_moved(session_names, target));
    assert forall|k: int| 0 <= k < count implies (#[trigger] after[k]).name == moved[k].name && after[k].sessions
        == moved[k].sessions && after[k].collapsed == (before[k].collapsed && k != choice) by {
        lemma_all_moved_contains(before, session_names, target, 0, k, Seq::empty());
    }
    lemma_sessions_are_moved(before, after, session_names, target);
}

/// The choice on the question where to move sessions goes down and up by one, to
/// the first and to the last place; the last is the one for a new group.
pub proof fn move_choice_is_moved(m: Model, session_names: Seq<Seq<char>>, choice: int)
    requires
        m.prompt == Some(PromptView::Move { session_names, choice }),
        0 <= choice <= m.groups.groups.len() + 1 < usize::MAX,
    ensures
        ({
            let count = m.groups.groups.len() as int;
            let chosen = |c: int| (m.with_prompt(PromptView::Move { session_names, choice: c }), EffectView::Continue);
            &&& m.answered(0x6a) == chosen(if choice <= count { choice + 1 } else { choice })
            &&& m.answered(0x6b) == chosen(if choice > 0 { choice - 1 } else { choice })
            &&& m.answered(0x67) == chosen(0)
            &&& m.answered(0x47) == chosen(count + 1)
        }),
        choice == m.groups.groups.len() + 1 ==> {
            let (after, effect) = m.answered(0x0d);
            &&& effect == EffectView::Continue
            &&& after.prompt matches Some(PromptView::Name { value, action, .. }) && value == Seq::<char>::empty()
                && action == NameActionView::CreateAndMove(session_names)
            &&& after == (Model { prompt: after.prompt, ..m })
        },
{
}

/// Whether `typed` cannot be the name of a group, the one at `except` aside: trimmed
/// it is empty, or it is the name for sessions without a group or that of another
/// group, but for the case of ASCII letters.
pub open spec fn cannot_be_named(g: Seq<GroupView>, except: Option<int>, typed: Seq<char>) -> bool {
    let name = text::trimmed(typed);
    ||| name.len() == 0
    ||| text::ascii_folded(name) == text::ascii_folded(UNGROUPED_NAME@)
    ||| exists|k: int|
        0 <= k < g.len() && except != Some(k) && text::ascii_folded((#[trigger] g[k]).name) == text::ascii_folded(name)
}

/// Enter on the question for the name of a new group adds a group with that name,
/// trimmed, behind the others. It is open and has no sessions, or those that were
/// to be moved to it. A name that cannot be given leaves all as it was, with the
/// question still open, but for the status.
pub proof fn group_is_created(m: Model, label: Seq<char>, value: Seq<char>, action: NameActionView)
    requires
        m.prompt == Some(PromptView::Name { label, value, action }),
        !(action is Rename),
    ensures
        ({
            let (after, effect) = m.answered(0x0d);
            let before = m.groups.groups;
            let count = before.len() as int;
            let fresh = GroupView { name: text::trimmed(value), collapsed: false, sessions: Seq::empty() };
            if cannot_be_named(before, None, value) {
                effect == EffectView::Continue && after == m.with_status(after.status)
            } else {
                &&& effect == EffectView::SaveName(SubmissionView { label, value, action, group_index: count })
                &&& after == (Model { prompt: None, groups: after.groups, ..m })
                &&& after.groups.version == m.groups.version
                &&& action is Create ==> after.groups.groups == before.push(fresh)
                &&& action matches NameActionView::CreateAndMove(names) ==> sessions_are_moved(
                    before.push(fresh),
                    after.groups.groups,
                    names,
                    Some(count),
                ) && forall|k: int|
                    0 <= k <= count ==> (#[trigger] after.groups.groups[k]).collapsed == before.push(fresh)[k].collapsed
            }
        }),
{
    let before = m.groups.groups;
    let count = before.len() as int;
    let fresh = GroupView { name: text::trimmed(value), collapsed: false, sessions: Seq::empty() };
    let more = before.push(fresh);
    if !cannot_be_named(before, None, value) {
        assert(groups::checked_name(before, value, None) == Ok::<Seq<char>, Seq<char>>(text::trimmed(value)));
        if let NameActionView::CreateAndMove(names) = action {
            let after = m.answered(0x0d).0.groups.groups;
            organize::lemma_all_moved_len(more, names, Some(count), 0);
            assert(after == organize::all_moved(more, names, Some(count), 0));
            lemma_sessions_are_moved(more, after, names, Some(count));
            assert forall|k: int| 0 <= k <= count implies (#[trigger] after[k]).collapsed == more[k].collapsed by {
                lemma_all_moved_contains(more, names, Some(count), 0, k, Seq::empty());
            }
        }
    }
}

/// Enter on the question for another name of a group gives the group that name,
/// trimmed, and changes nothing else. A name that cannot be given leaves all as it
/// was, with the question still open, but for the status. The group's own name can be given.
pub proof fn group_is_renamed(m: Model, label: Seq<char>, value: Seq<char>, index: int)
    requires
        m.prompt == Some(PromptView::Name { label, value, action: NameActionView::Rename(index) }),
        0 <= index < m.groups.groups.len(),
    ensures
        ({
            let (after, effect) = m.answered(0x0d);
            let before = m.groups.groups;
            if cannot_be_named(before, Some(index), value) {
                effect == EffectView::Continue && after == m.with_status(after.status)
            } else {
                &&& effect == EffectView::SaveName(
                    SubmissionView { label, value, action: NameActionView::Rename(index), group_index: index },
                )
                &&& after == (Model { prompt: None, groups: after.groups, ..m })
                &&& after.groups.version == m.groups.version
                &&& after.groups.groups.len() == before.len()
                &&& forall|k: int| 0 <= k < before.len() && k != index ==> #[trigger] after.groups.groups[k] == before[k]
                &&& after.groups.groups[index].name == text::trimmed(value)
                &&& after.groups.groups[index].collapsed == before[index].collapsed
                &&& after.groups.groups[index].sessions == before[index].sessions
            }
        }),
{
}

/// While a name is asked for, a key that types a character appends it, backspace
/// takes the last one away, and nothing but the question changes.
pub proof fn name_is_typed(m: Model, label: Seq<char>, value: Seq<char>, action: NameActionView, key: u8)
    requires
        m.prompt == Some(PromptView::Name { label, value, action }),
    ensures
        ({
            let asked = |v: Seq<char>|
                (m.with_prompt(PromptView::Name { label, value: v, action }), EffectView::Continue);
            &&& 0x20 <= key <= 0x7e ==> m.answered(key) == asked(value.push(key as char))
            &&& value.len() > 0 && (key == 0x7f || key == 0x08) ==> m.answered(key) == asked(value.drop_last())
        }),
{
}

/// What the keys that ask for a name ask: for a new group with nothing typed yet,
/// or for the group under the cursor, starting with its name.
pub proof fn names_are_asked_for(m: Model)
    requires
        m.is_countable(),
        m.prompt is None,
        !m.searching,
    ensures
        ({
            let (after, effect) = m.keyed(0x6e);
            &&& effect == EffectView::Continue
            &&& after == (Model { prompt: after.prompt, ..m })
            &&& after.prompt matches Some(PromptView::Name { value, action, .. }) && value == Seq::<char>::empty()
                && action is Create
        }),
        ({
            let (after, effect) = m.keyed(0x72);
            &&& effect == EffectView::Continue
            &&& match m.selected_row() {
                Some(VisibleRow::Group(header)) if header < m.groups.groups.len() => {
                    &&& after == (Model { prompt: after.prompt, ..m })
                    &&& after.prompt matches Some(PromptView::Name { value, action, .. }) && value
                        == m.groups.groups[header as int].name && action == NameActionView::Rename(header as int)
                },
                _ => after == m.with_status(after.status),
            }
        }),
{
}

/// The delete key takes the group under the cursor away and leaves the others as
/// they were. Without a group under the cursor nothing changes but the status.
pub proof fn group_is_deleted(m: Model)
    requires
        m.is_countable(),
        m.prompt is None,
        !m.searching,
    ensures
        ({
            let (after, effect) = m.keyed(0x64);
            match m.selected_row() {
                Some(VisibleRow::Group(header)) if header < m.groups.groups.len() => {
                    &&& effect == EffectView::SaveGroups
                    &&& after.groups.groups.len() == m.groups.groups.len() - 1
                    &&& forall|k: int|
                        0 <= k < after.groups.groups.len() ==> #[trigger] after.groups.groups[k]
                            == m.groups.groups[if k < header { k } else { k + 1 }]
                    &&& after == (Model {
                        groups: after.groups,
                        selected: after.selected,
                        status: after.status,
                        ..m
                    })
                    &&& after.groups.version == m.groups.version
                },
                _ => effect == EffectView::Continue && after == m.with_status(after.status),
            }
        }),
{
}

/// The collapse key closes the group under the cursor, or that of the session under
/// it, and the expand key opens it. Enter on a header, while nothing is marked, does
/// whichever changes it. No other group changes, and no session does.
pub proof fn groups_open_and_close(m: Model, header: int)
    requires
        m.is_countable(),
        m.prompt is None,
        !m.searching,
        m.selected_row() matches Some(row) && header == crate::list_laws::row_place(
            m.sessions,
            m.groups.groups,
            row,
        ).0,
    ensures
        is_collapsed(m, m.keyed(0x68), header, true),
        is_collapsed(m, m.keyed(0x6c), header, false),
        m.marked == Set::<Seq<char>>::empty() && m.selected_row()->0 is Group ==> is_collapsed(
            m,
            m.keyed(0x0d),
            header,
            !(if header < m.groups.groups.len() { m.groups.groups[header].collapsed } else { m.ungrouped_collapsed }),
        ),
{
    assert(m.list().contains(m.list()[m.selected]));
    crate::list_laws::panes_list_nothing_else(m, m.focus, m.list()[m.selected]);
    if let Some(VisibleRow::Session(i)) = m.selected_row() {
        groups::lemma_group_from(m.groups.groups, m.sessions[i as int].name, 0);
    }
}

/// Whether a step closed or opened the header and did nothing else, but that the
/// cursor may have moved. What a group is, is to be saved.
pub open spec fn is_collapsed(m: Model, step: (Model, EffectView), header: int, collapsed: bool) -> bool {
    let (after, effect) = step;
    let before = m.groups.groups;
    &&& after == (Model {
        groups: after.groups,
        ungrouped_collapsed: after.ungrouped_collapsed,
        selected: after.selected,
        ..m
    })
    &&& after.groups.version == m.groups.version
    &&& after.groups.groups.len() == before.len()
    &&& forall|k: int|
        0 <= k < before.len() ==> (#[trigger] after.groups.groups[k]).name == before[k].name
            && after.groups.groups[k].sessions == before[k].sessions && after.groups.groups[k].collapsed == (if k
            == header {
            collapsed
        } else {
            before[k].collapsed
        })
    &&& after.ungrouped_collapsed == (if header == before.len() { collapsed } else { m.ungrouped_collapsed })
    &&& effect == (if header < before.len() { EffectView::SaveGroups } else { EffectView::Continue })
}

/// Where the groups could not be saved under a name that was given, the question
/// for it is open again with what was typed, and the status says why.
pub proof fn unsaved_name_is_asked_again(m: Model, submission: SubmissionView, why: Seq<char>)
    ensures
        m.name_finished(submission, Err(why)) == (Model {
            status: why,
            prompt: Some(
                PromptView::Name {
                    label: submission.label,
                    value: submission.value,
                    action: submission.action,
                },
            ),
            ..m
        }),
{
}

/// Where the groups were saved nothing changes about them. A search ends for a new
/// group, and the cursor is on the group, where it is listed then. Else nothing
/// changes but the status, and the cursor where sessions were moved to a new group.
pub proof fn saved_name_changes_no_group(m: Model, submission: SubmissionView)
    requires
        0 <= submission.group_index <= usize::MAX,
    ensures
        ({
            let after = m.name_finished(submission, Ok(()));
            let row = VisibleRow::Group(submission.group_index as usize);
            match submission.action {
                NameActionView::Create => {
                    &&& after == (Model {
                        query: Seq::empty(),
                        selected: after.selected,
                        status: after.status,
                        ..m
                    })
                    &&& after.list().contains(row) ==> after.selected_row() == Some(row)
                },
                NameActionView::Rename(_) => after == m.with_status(after.status),
                NameActionView::CreateAndMove(_) => after == (Model {
                    selected: after.selected,
                    status: after.status,
                    ..m
                }),
            }
        }),
{
    let after = m.name_finished(submission, Ok(()));
    if submission.action is Create {
        let row = VisibleRow::Group(submission.group_index as usize);
        let cleared = Model { query: Seq::empty(), ..m };
        crate::picker::listed_row_can_be_selected(cleared, row);
        let there = cleared.row_selected(row);
        assert(after.listing(after.focus) == there.listing(there.focus));
        assert(there.listing(there.focus) == cleared.listing(cleared.focus));
    }
}

/// Enter on a header opens it or closes it while searching too, where nothing is marked.
pub proof fn enter_toggles_the_header(m: Model, header: usize)
    requires
        m.is_countable(),
        m.prompt is None,
        m.marked == Set::<Seq<char>>::empty(),
        m.selected_row() == Some(VisibleRow::Group(header)),
    ensures
        is_collapsed(
            m,
            m.keyed(0x0d),
            header as int,
            !(if header < m.groups.groups.len() {
                m.groups.groups[header as int].collapsed
            } else {
                m.ungrouped_collapsed
            }),
        ),
{
    assert(m.list().contains(m.list()[m.selected]));
    crate::list_laws::panes_list_nothing_else(m, m.focus, m.list()[m.selected]);
}

} // verus!
