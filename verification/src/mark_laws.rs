//! Laws of marking sessions, and of what the actions on marked sessions apply to.

use vstd::prelude::*;

use crate::effects::EffectView;
use crate::groups;
use crate::list_laws;
use crate::marks;
use crate::picker::Model;
use crate::prompts::PromptView;
use crate::rows;
use crate::rows::VisibleRow;
use crate::sessions;
use crate::sessions::SessionView;

verus! {

pub(crate) proof fn lemma_filter_first(s: Seq<SessionView>, i: int, p: spec_fn(SessionView) -> bool)
    requires
        0 <= i < s.len(),
    ensures
        s.skip(i).filter(p) == (if p(s[i]) {
            seq![s[i]] + s.skip(i + 1).filter(p)
        } else {
            s.skip(i + 1).filter(p)
        }),
{
    let one = seq![s[i]];
    assert(s.skip(i) =~= one + s.skip(i + 1));
    Seq::filter_distributes_over_add(one, s.skip(i + 1), p);
    reveal_with_fuel(Seq::filter, 2);
    assert(one.drop_last() =~= Seq::empty());
    assert(one.filter(p) =~= (if p(s[i]) { one } else { Seq::empty() }));
    assert(Seq::<SessionView>::empty() + s.skip(i + 1).filter(p) =~= s.skip(i + 1).filter(p));
}

pub(crate) proof fn lemma_filter_none(s: Seq<SessionView>, i: int, p: spec_fn(SessionView) -> bool)
    requires
        i >= s.len(),
    ensures
        s.skip(s.len() as int).filter(p) == Seq::<SessionView>::empty(),
{
    reveal_with_fuel(Seq::filter, 1);
    assert(s.skip(s.len() as int) =~= Seq::empty());
}

proof fn lemma_names_prepend(x: SessionView, rest: Seq<SessionView>)
    ensures
        sessions::names_of(seq![x] + rest) == seq![x.name] + sessions::names_of(rest),
{
    assert(sessions::names_of(seq![x] + rest) =~= seq![x.name] + sessions::names_of(rest));
}

proof fn lemma_marked_names(s: Seq<SessionView>, marked: Set<Seq<char>>, i: int)
    requires
        0 <= i <= s.len(),
    ensures
        marks::marked_names_from(s, marked, i) == sessions::names_of(
            s.skip(i).filter(|x: SessionView| marked.contains(x.name)),
        ),
    decreases s.len() - i,
{
    let p = |x: SessionView| marked.contains(x.name);
    if i < s.len() {
        lemma_marked_names(s, marked, i + 1);
        lemma_filter_first(s, i, p);
        lemma_names_prepend(s[i], s.skip(i + 1).filter(p));
    } else {
        lemma_filter_none(s, i, p);
        assert(sessions::names_of(Seq::empty()) =~= Seq::empty());
    }
}

proof fn lemma_killable_names(s: Seq<SessionView>, marked: Set<Seq<char>>, i: int)
    requires
        0 <= i <= s.len(),
    ensures
        marks::killable_names_from(s, marked, i) == sessions::names_of(
            s.skip(i).filter(|x: SessionView| marked.contains(x.name) && !x.is_current),
        ),
        marks::marked_current_from(s, marked, i) == s.skip(i).filter(
            |x: SessionView| marked.contains(x.name) && x.is_current,
        ).len(),
    decreases s.len() - i,
{
    let p = |x: SessionView| marked.contains(x.name) && !x.is_current;
    let q = |x: SessionView| marked.contains(x.name) && x.is_current;
    if i < s.len() {
        lemma_killable_names(s, marked, i + 1);
        lemma_filter_first(s, i, p);
        lemma_filter_first(s, i, q);
        lemma_names_prepend(s[i], s.skip(i + 1).filter(p));
    } else {
        lemma_filter_none(s, i, p);
        lemma_filter_none(s, i, q);
        assert(sessions::names_of(Seq::empty()) =~= Seq::empty());
    }
}

/// The names of the sessions that are marked, in the order of the sessions.
pub open spec fn names_marked(m: Model) -> Seq<Seq<char>> {
    sessions::names_of(m.sessions.filter(|x: SessionView| m.marked.contains(x.name)))
}

/// The kill key asks whether the marked sessions are to be killed: just those that
/// are not the current one, in their order. Where there are none it asks nothing.
/// Nothing is killed before the answer. The menu for marked sessions does the same.
pub proof fn killing_asks_about_the_marked(m: Model)
    requires
        m.marked != Set::<Seq<char>>::empty(),
        m.prompt is None,
        !m.searching,
    ensures
        ({
            let (after, effect) = m.keyed(0x78);
            let names = sessions::names_of(
                m.sessions.filter(|x: SessionView| m.marked.contains(x.name) && !x.is_current),
            );
            let skipped = m.sessions.filter(|x: SessionView| m.marked.contains(x.name) && x.is_current).len() as int;
            &&& effect == EffectView::Continue
            &&& names.len() > 0 ==> after == m.with_prompt(
                PromptView::ConfirmKill { session_names: names, skipped_current: skipped },
            )
            &&& names.len() == 0 ==> after == m.with_status(after.status)
            &&& m.with_prompt(PromptView::Action { choice: 2 }).keyed(0x0d) == m.keyed(0x78)
        }),
{
    lemma_killable_names(m.sessions, m.marked, 0);
    assert(m.sessions.skip(0) =~= m.sessions);
    assert((Model { prompt: None, ..m.with_prompt(PromptView::Action { choice: 2 }) }) == m);
}

/// The move key asks where the marked sessions are to be moved, in their order, or
/// where none is marked the one under the cursor. The question starts at the group
/// of a single session, and else at no group. The menu for marked sessions does the same.
pub proof fn moving_asks_about_the_targets(m: Model)
    requires
        m.is_countable(),
        m.prompt is None,
        !m.searching,
    ensures
        ({
            let (after, effect) = m.keyed(0x6d);
            let count = m.groups.groups.len() as int;
            let place = |name: Seq<char>|
                match groups::group_of(m.groups.groups, name) {
                    Some(g) => g,
                    None => count,
                };
            &&& effect == EffectView::Continue
            &&& if names_marked(m).len() > 1 {
                after == m.with_prompt(PromptView::Move { session_names: names_marked(m), choice: count })
            } else if names_marked(m).len() == 1 {
                after == m.with_prompt(
                    PromptView::Move { session_names: names_marked(m), choice: place(names_marked(m)[0]) },
                )
            } else {
                match m.selected_row() {
                    Some(VisibleRow::Session(i)) => after == m.with_prompt(
                        PromptView::Move {
                            session_names: seq![m.sessions[i as int].name],
                            choice: place(m.sessions[i as int].name),
                        },
                    ),
                    _ => after == m.with_status(after.status),
                }
            }
            &&& m.with_prompt(PromptView::Action { choice: 0 }).keyed(0x0d) == m.keyed(0x6d)
        }),
{
    lemma_marked_names(m.sessions, m.marked, 0);
    assert(m.sessions.skip(0) =~= m.sessions);
    assert((Model { prompt: None, ..m.with_prompt(PromptView::Action { choice: 0 }) }) == m);
}

/// Enter, while sessions are marked, opens the menu for them at its first action.
/// The choice goes down and up by one within the four actions.
pub proof fn marked_sessions_have_a_menu(m: Model, choice: int)
    requires
        m.prompt is None,
        0 <= choice < 4,
    ensures
        m.marked != Set::<Seq<char>>::empty() ==> m.keyed(0x0d) == (
            m.with_prompt(PromptView::Action { choice: 0 }),
            EffectView::Continue,
        ),
        ({
            let open = |c: int| m.with_prompt(PromptView::Action { choice: c });
            &&& open(choice).keyed(0x6a) == (open(if choice < 3 { choice + 1 } else { 3 }), EffectView::Continue)
            &&& open(choice).keyed(0x6b) == (open(if choice > 0 { choice - 1 } else { 0 }), EffectView::Continue)
            &&& open(3).keyed(0x0d).0.marked == Set::<Seq<char>>::empty()
            &&& open(3).keyed(0x0d).0 == (Model {
                marked: Set::empty(),
                status: open(3).keyed(0x0d).0.status,
                ..m
            })
        }),
{
}

/// Whether a step marked the sessions whose names `those` has, or took all of their
/// marks away where all had one, and did nothing else but say so.
pub open spec fn marks_are_toggled(m: Model, after: Model, those: spec_fn(Seq<char>) -> bool) -> bool {
    let all = forall|n: Seq<char>| #[trigger] those(n) ==> m.marked.contains(n);
    &&& forall|n: Seq<char>| #[trigger]
        after.marked.contains(n) <==> (if those(n) {
            !all
        } else {
            m.marked.contains(n)
        })
    &&& after == (Model { marked: after.marked, status: after.status, ..m })
}

proof fn lemma_toggled(m: Model, after: Model, names: Set<Seq<char>>, those: spec_fn(Seq<char>) -> bool)
    requires
        forall|n: Seq<char>| #[trigger] names.contains(n) <==> those(n),
        after.marked == marks::toggled(m.marked, names),
        after == (Model { marked: after.marked, status: after.status, ..m }),
    ensures
        marks_are_toggled(m, after, those),
{
    if names.subset_of(m.marked) {
        assert forall|n: Seq<char>| #[trigger] those(n) implies m.marked.contains(n) by {
            assert(names.contains(n));
        }
    } else {
        let n = choose|n: Seq<char>| names.contains(n) && !m.marked.contains(n);
        assert(those(n));
    }
}

/// Whether a session called `n` stands under the header.
pub open spec fn is_under(m: Model, header: int, n: Seq<char>) -> bool {
    exists|i: int|
        0 <= i < m.sessions.len() && (#[trigger] m.sessions[i]).name == n && list_laws::header_above(
            m.groups.groups,
            n,
        ) == header
}

proof fn lemma_group_names(m: Model, header: int, n: Seq<char>)
    requires
        m.is_countable(),
        0 <= header <= m.groups.groups.len(),
    ensures
        marks::names_at(m.sessions, rows::group_members(m.sessions, m.groups.groups, header)).contains(n)
            <==> is_under(m, header, n),
{
    let l = rows::full_listing(m.sessions, m.groups.groups);
    rows::lemma_members(l, header, 0);
    let members = l.members_from(header, 0);
    let list = members.map_values(|i: usize| m.sessions[i as int].name);
    groups::lemma_group_from(m.groups.groups, n, 0);
    if list.contains(n) {
        let k = list.index_of(n);
        let i = members[k] as int;
        assert(l.is_member(header, i));
        assert(m.sessions[i].name == n);
    }
    if is_under(m, header, n) {
        let i = choose|i: int|
            0 <= i < m.sessions.len() && (#[trigger] m.sessions[i]).name == n && list_laws::header_above(
                m.groups.groups,
                n,
            ) == header;
        assert(l.is_member(header, i));
        assert(members.contains(i as usize));
        let k = members.index_of(i as usize);
        assert(list[k] == n);
    }
}

proof fn lemma_group_toggled(m: Model, header: int)
    requires
        m.is_countable(),
        0 <= header <= m.groups.groups.len(),
    ensures
        marks_are_toggled(m, m.group_marks_toggled(header).marks_reported(), |n: Seq<char>| is_under(m, header, n)),
{
    let names = marks::names_at(m.sessions, rows::group_members(m.sessions, m.groups.groups, header));
    let those = |n: Seq<char>| is_under(m, header, n);
    assert forall|n: Seq<char>| #[trigger] names.contains(n) <==> those(n) by {
        lemma_group_names(m, header, n);
    }
    lemma_toggled(m, m.group_marks_toggled(header).marks_reported(), names, those);
}

/// The space key marks the session under the cursor, or takes its mark away, and no
/// other's. On a header it marks all sessions that stand under it, or takes the
/// marks of all of them away where all are marked. It does so while searching too.
pub proof fn space_marks_the_selected(m: Model)
    requires
        m.is_countable(),
        m.prompt is None,
    ensures
        m.keyed(0x20).1 == EffectView::Continue,
        match m.selected_row() {
            Some(VisibleRow::Session(i)) => marks_are_toggled(
                m,
                m.keyed(0x20).0,
                |n: Seq<char>| n == m.sessions[i as int].name,
            ),
            Some(VisibleRow::Group(header)) => marks_are_toggled(
                m,
                m.keyed(0x20).0,
                |n: Seq<char>| is_under(m, header as int, n),
            ),
            None => m.keyed(0x20).0 == m.with_status(m.keyed(0x20).0.status),
        },
{
    let after = m.keyed(0x20).0;
    assert(after == m.row_mark_toggled());
    match m.selected_row() {
        Some(VisibleRow::Session(i)) => {
            let name = m.sessions[i as int].name;
            let those = |n: Seq<char>| n == name;
            let names = set![name];
            assert(after.marked =~= marks::toggled(m.marked, names)) by {
                if m.marked.contains(name) {
                    assert(names.subset_of(m.marked));
                } else {
                    assert(names.contains(name));
                }
            }
            lemma_toggled(m, after, names, those);
        },
        Some(VisibleRow::Group(header)) => {
            assert(m.list().contains(m.list()[m.selected]));
            list_laws::panes_list_nothing_else(m, m.focus, VisibleRow::Group(header));
            lemma_group_toggled(m, header as int);
        },
        None => {},
    }
}

/// `a` marks all sessions under the header that the cursor is on or under, or takes
/// all of their marks away where all are marked.
pub proof fn group_key_marks_the_group(m: Model, header: int)
    requires
        m.is_countable(),
        m.prompt is None,
        !m.searching,
        m.selected_row() matches Some(row) && header == list_laws::row_place(m.sessions, m.groups.groups, row).0,
    ensures
        m.keyed(0x61).1 == EffectView::Continue,
        marks_are_toggled(m, m.keyed(0x61).0, |n: Seq<char>| is_under(m, header, n)),
{
    assert(m.list().contains(m.list()[m.selected]));
    list_laws::panes_list_nothing_else(m, m.focus, m.list()[m.selected]);
    if let Some(VisibleRow::Session(i)) = m.selected_row() {
        groups::lemma_group_from(m.groups.groups, m.sessions[i as int].name, 0);
    }
    lemma_group_toggled(m, header);
}

proof fn lemma_listed(list: Seq<VisibleRow>, k: int, i: usize)
    requires
        0 <= k <= list.len(),
    ensures
        marks::listed_from(list, k).contains(i) <==> list.skip(k).contains(VisibleRow::Session(i)),
    decreases list.len() - k,
{
    let here = list.skip(k);
    let found = marks::listed_from(list, k);
    let row = VisibleRow::Session(i);
    if k < list.len() {
        lemma_listed(list, k + 1, i);
        let rest = list.skip(k + 1);
        let more = marks::listed_from(list, k + 1);
        assert(here[0] == list[k]);
        if rest.contains(row) {
            assert(here[rest.index_of(row) + 1] == row);
        }
        if here.contains(row) && here[0] != row {
            assert(rest[here.index_of(row) - 1] == row);
        }
        if let VisibleRow::Session(j) = list[k] {
            assert(found[0] == j);
            if more.contains(i) {
                assert(found[more.index_of(i) + 1] == i);
            }
            if found.contains(i) && j != i {
                assert(more[found.index_of(i) - 1] == i);
            }
        }
    }
}

/// Whether the list that has the focus has a row for a session called `n`.
pub open spec fn is_visible(m: Model, n: Seq<char>) -> bool {
    exists|i: usize| #[trigger] m.list().contains(VisibleRow::Session(i)) && m.sessions[i as int].name == n
}

/// `A` marks all sessions that the list with the focus shows, or takes all of their
/// marks away where all are marked. What a search leaves out is not touched.
pub proof fn visible_sessions_are_marked(m: Model)
    requires
        m.prompt is None,
        !m.searching,
    ensures
        m.keyed(0x41).1 == EffectView::Continue,
        marks_are_toggled(m, m.keyed(0x41).0, |n: Seq<char>| is_visible(m, n)),
        m.keyed(0x76) == (
            (Model { marked: Set::empty(), status: m.keyed(0x76).0.status, ..m }),
            EffectView::Continue,
        ),
{
    let indices = marks::listed_from(m.list(), 0);
    let list = indices.map_values(|i: usize| m.sessions[i as int].name);
    let names = marks::names_at(m.sessions, indices);
    let those = |n: Seq<char>| is_visible(m, n);
    assert(m.list().skip(0) =~= m.list());
    assert forall|n: Seq<char>| #[trigger] names.contains(n) <==> those(n) by {
        if list.contains(n) {
            let k = list.index_of(n);
            lemma_listed(m.list(), 0, indices[k]);
            assert(indices.contains(indices[k]));
        }
        if is_visible(m, n) {
            let i = choose|i: usize| #[trigger]
                m.list().contains(VisibleRow::Session(i)) && m.sessions[i as int].name == n;
            lemma_listed(m.list(), 0, i);
            let k = indices.index_of(i);
            assert(list[k] == n);
        }
    }
    lemma_toggled(m, m.keyed(0x41).0, names, those);
}

} // verus!
