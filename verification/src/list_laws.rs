//! Laws of what the lists show.

use vstd::prelude::*;

use crate::groups;
use crate::groups::{GroupView, UNGROUPED_NAME};
use crate::picker::{Model, Pane};
use crate::rows;
use crate::rows::{Listing, VisibleRow};
use crate::sessions::SessionView;
use crate::text;

verus! {

/// Whether a search for `query` is for part of `name`, case aside.
pub open spec fn finds(query: Seq<char>, name: Seq<char>) -> bool {
    text::occurs_in(text::lowercase(query), text::lowercase(name))
}

/// The title above the session called `name`: the name of its group, or that for sessions without one.
pub open spec fn title_above(g: Seq<GroupView>, name: Seq<char>) -> Seq<char> {
    match groups::group_of(g, name) {
        Some(k) => g[k].name,
        None => UNGROUPED_NAME@,
    }
}

/// Whether what the session called `name` stands under is collapsed.
pub open spec fn collapsed_above(g: Seq<GroupView>, ungrouped_collapsed: bool, name: Seq<char>) -> bool {
    match groups::group_of(g, name) {
        Some(k) => g[k].collapsed,
        None => ungrouped_collapsed,
    }
}

/// Whether a search for `query` leaves the session called `name`: for nothing it
/// leaves all, else those whose name or whose title is found.
pub open spec fn is_left(g: Seq<GroupView>, name: Seq<char>, query: Seq<char>) -> bool {
    query.len() == 0 || finds(query, name) || finds(query, title_above(g, name))
}

/// A list shows the sessions that the search leaves, of which it may be that only
/// the pinned ones are shown. While nothing is searched for collapsed groups hide
/// theirs; a search shows what it finds in collapsed groups too.
pub proof fn sessions_are_listed(l: Listing, query: Seq<char>, i: int)
    requires
        l.groups.len() <= usize::MAX,
        l.sessions.len() <= usize::MAX,
        l.hits == rows::hits_of(l.sessions, l.groups, query),
        0 <= i < l.sessions.len(),
    ensures
        l.rows().contains(VisibleRow::Session(i as usize)) <==> {
            &&& l.rules.pinned_only ==> l.sessions[i].pinned
            &&& is_left(l.groups, l.sessions[i].name, query)
            &&& query.len() > 0 || !collapsed_above(l.groups, l.ungrouped_collapsed, l.sessions[i].name)
        },
{
    rows::rows_are_listed_once(l);
    groups::lemma_group_from(l.groups, l.sessions[i].name, 0);
    let row = VisibleRow::Session(i as usize);
    assert(l.rows().contains(row) <==> l.lists(row));
    assert(l.hits.titles[l.header_of(i)] == rows::name_matches(title_above(l.groups, l.sessions[i].name), query));
}

/// The place of the header that the session called `name` stands under: that of
/// its group, or that behind the last group.
pub open spec fn header_above(g: Seq<GroupView>, name: Seq<char>) -> int {
    match groups::group_of(g, name) {
        Some(k) => k,
        None => g.len() as int,
    }
}

proof fn lemma_header_has_members(l: Listing, query: Seq<char>, header: int)
    requires
        l.groups.len() <= usize::MAX,
        l.sessions.len() <= usize::MAX,
        l.hits == rows::hits_of(l.sessions, l.groups, query),
        0 <= header <= l.groups.len(),
    ensures
        l.members_from(header, 0).len() > 0 <==> exists|i: int|
            0 <= i < l.sessions.len() && header_above(l.groups, (#[trigger] l.sessions[i]).name) == header && is_left(
                l.groups,
                l.sessions[i].name,
                query,
            ) && (l.rules.pinned_only ==> l.sessions[i].pinned),
{
    rows::lemma_members(l, header, 0);
    let members = l.members_from(header, 0);
    assert forall|i: int| 0 <= i < l.sessions.len() implies (l.is_member(header, i) <==> header_above(
        l.groups,
        (#[trigger] l.sessions[i]).name,
    ) == header && is_left(l.groups, l.sessions[i].name, query) && (l.rules.pinned_only ==> l.sessions[i].pinned)) by {
        groups::lemma_group_from(l.groups, l.sessions[i].name, 0);
        assert(l.hits.sessions[i] == rows::name_matches(l.sessions[i].name, query));
        assert(l.hits.titles[header] == rows::name_matches(rows::header_title(l.groups, header), query));
    }
    if members.len() > 0 {
        let i = members[0] as int;
        assert(l.is_member(header, i));
        assert(l.sessions[i] == l.sessions[i]);
    }
    if exists|i: int|
        0 <= i < l.sessions.len() && header_above(l.groups, (#[trigger] l.sessions[i]).name) == header && is_left(
            l.groups,
            l.sessions[i].name,
            query,
        ) && (l.rules.pinned_only ==> l.sessions[i].pinned) {
        let i = choose|i: int|
            0 <= i < l.sessions.len() && header_above(l.groups, (#[trigger] l.sessions[i]).name) == header && is_left(
                l.groups,
                l.sessions[i].name,
                query,
            ) && (l.rules.pinned_only ==> l.sessions[i].pinned);
        assert(l.is_member(header, i));
        assert(members.contains(i as usize));
    }
}

/// A list has a header where it has a session for it. Where it does not hide empty
/// headers it has one without sessions too, if its title is found or nothing is searched for.
pub proof fn headers_are_listed(l: Listing, query: Seq<char>, header: int)
    requires
        l.groups.len() <= usize::MAX,
        l.sessions.len() <= usize::MAX,
        l.hits == rows::hits_of(l.sessions, l.groups, query),
        0 <= header <= l.groups.len(),
    ensures
        l.rows().contains(VisibleRow::Group(header as usize)) <==> {
            ||| exists|i: int|
                0 <= i < l.sessions.len() && header_above(l.groups, (#[trigger] l.sessions[i]).name) == header
                    && is_left(l.groups, l.sessions[i].name, query) && (l.rules.pinned_only ==> l.sessions[i].pinned)
            ||| header < l.groups.len() && !l.rules.hide_empty_groups && (query.len() == 0 || finds(
                query,
                l.groups[header].name,
            ))
            ||| header == l.groups.len() && !l.rules.hide_empty_ungrouped && (query.len() == 0 || finds(
                query,
                UNGROUPED_NAME@,
            ))
        },
{
    rows::rows_are_listed_once(l);
    lemma_header_has_members(l, query, header);
    let row = VisibleRow::Group(header as usize);
    assert(l.rows().contains(row) <==> l.lists(row));
    assert(l.hits.titles[header] == rows::name_matches(rows::header_title(l.groups, header), query));
}

/// Where a row belongs: below which header, and there in front or at which session.
pub open spec fn row_place(s: Seq<SessionView>, g: Seq<GroupView>, row: VisibleRow) -> (int, int) {
    match row {
        VisibleRow::Group(header) => (header as int, -1),
        VisibleRow::Session(i) => (header_above(g, s[i as int].name), i as int),
    }
}

pub open spec fn comes_first(a: (int, int), b: (int, int)) -> bool {
    a.0 < b.0 || a.0 == b.0 && a.1 < b.1
}

proof fn lemma_block_places(l: Listing, header: int)
    requires
        0 <= header <= l.groups.len() <= usize::MAX,
        l.sessions.len() <= usize::MAX,
    ensures
        forall|a: int|
            0 <= a < l.block(header).len() ==> row_place(l.sessions, l.groups, #[trigger] l.block(header)[a]).0
                == header,
        forall|a: int, b: int|
            0 <= a < b < l.block(header).len() ==> comes_first(
                row_place(l.sessions, l.groups, #[trigger] l.block(header)[a]),
                row_place(l.sessions, l.groups, #[trigger] l.block(header)[b]),
            ),
{
    rows::lemma_members(l, header, 0);
    let m = l.members_from(header, 0);
    let block = l.block(header);
    assert forall|a: int| 0 <= a < block.len() implies row_place(l.sessions, l.groups, #[trigger] block[a]).0 == header
        && (a > 0 ==> block[a] == VisibleRow::Session(m[a - 1])) && (a == 0 ==> block[a] == VisibleRow::Group(
        header as usize,
    )) by {
        if a > 0 {
            let i = m[a - 1] as int;
            assert(l.is_member(header, i));
            groups::lemma_group_from(l.groups, l.sessions[i].name, 0);
        }
    }
    assert forall|a: int, b: int| 0 <= a < b < block.len() implies comes_first(
        row_place(l.sessions, l.groups, #[trigger] block[a]),
        row_place(l.sessions, l.groups, #[trigger] block[b]),
    ) by {
        if a > 0 {
            assert(m[a - 1] < m[b - 1]);
        }
    }
}

proof fn lemma_rows_places(l: Listing, header: int)
    requires
        0 <= header <= l.groups.len() + 1,
        l.groups.len() <= usize::MAX,
        l.sessions.len() <= usize::MAX,
    ensures
        forall|a: int|
            0 <= a < l.rows_from(header).len() ==> row_place(
                l.sessions,
                l.groups,
                #[trigger] l.rows_from(header)[a],
            ).0 >= header,
        forall|a: int, b: int|
            0 <= a < b < l.rows_from(header).len() ==> comes_first(
                row_place(l.sessions, l.groups, #[trigger] l.rows_from(header)[a]),
                row_place(l.sessions, l.groups, #[trigger] l.rows_from(header)[b]),
            ),
    decreases l.groups.len() + 1 - header,
{
    if header <= l.groups.len() {
        lemma_block_places(l, header);
        lemma_rows_places(l, header + 1);
        let block = l.block(header);
        let rest = l.rows_from(header + 1);
        let all = l.rows_from(header);
        assert forall|a: int| 0 <= a < all.len() implies #[trigger] all[a] == (if a < block.len() {
            block[a]
        } else {
            rest[a - block.len()]
        }) by {}
    }
}

/// Rows stand in the order of their headers. Below a header its sessions stand in
/// the order of the sessions.
pub proof fn rows_are_in_order(l: Listing, a: int, b: int)
    requires
        l.groups.len() <= usize::MAX,
        l.sessions.len() <= usize::MAX,
        0 <= a < b < l.rows().len(),
    ensures
        comes_first(
            row_place(l.sessions, l.groups, l.rows()[a]),
            row_place(l.sessions, l.groups, l.rows()[b]),
        ),
{
    lemma_rows_places(l, 0);
}

/// `Active` lists a session if and only if it is pinned, the search leaves it, and
/// no collapsed group hides it; `All` lists it whether or not it is pinned. A
/// search is not stopped by collapsed groups, in either list.
pub proof fn panes_list_sessions(m: Model, pane: Pane, i: int)
    requires
        m.is_countable(),
        0 <= i < m.sessions.len(),
    ensures
        m.rows_of(pane).contains(VisibleRow::Session(i as usize)) <==> {
            &&& pane == Pane::Active ==> m.sessions[i].pinned
            &&& is_left(m.groups.groups, m.sessions[i].name, m.query)
            &&& m.query.len() > 0 || !collapsed_above(m.groups.groups, m.ungrouped_collapsed, m.sessions[i].name)
        },
        m.rows_of(pane).no_duplicates(),
{
    sessions_are_listed(m.listing(pane), m.query, i);
    rows::rows_are_listed_once(m.listing(pane));
}

/// While something is searched for, every session whose name or whose group's name
/// has it has a row in `All`, and in `Active` too if it is pinned, whether or not
/// its group is collapsed.
pub proof fn search_reveals_matches(m: Model, pane: Pane, i: int)
    requires
        m.is_countable(),
        0 <= i < m.sessions.len(),
        m.query.len() > 0,
        pane == Pane::All || m.sessions[i].pinned,
        ({
            let name = m.sessions[i].name;
            let found = |t: Seq<char>| text::occurs_in(text::lowercase(m.query), text::lowercase(t));
            ||| found(name)
            ||| exists|g: int|
                0 <= g < m.groups.groups.len() && (#[trigger] m.groups.groups[g]).sessions.contains(name) && found(
                    m.groups.groups[g].name,
                ) && forall|h: int| 0 <= h < g ==> !(#[trigger] m.groups.groups[h]).sessions.contains(name)
            ||| found(UNGROUPED_NAME@) && forall|g: int|
                0 <= g < m.groups.groups.len() ==> !(#[trigger] m.groups.groups[g]).sessions.contains(name)
        }),
    ensures
        m.rows_of(pane).contains(VisibleRow::Session(i as usize)),
{
    panes_list_sessions(m, pane, i);
    groups::lemma_group_from(m.groups.groups, m.sessions[i].name, 0);
}

/// `All` has a header for every group, while something is searched for for those
/// whose name or one of whose sessions is found. `Active` has one for each group
/// with a pinned session that the search leaves. Both have one for sessions
/// without a group where they have such a session to show.
pub proof fn panes_list_headers(m: Model, pane: Pane, header: int)
    requires
        m.is_countable(),
        0 <= header <= m.groups.groups.len(),
    ensures
        m.rows_of(pane).contains(VisibleRow::Group(header as usize)) <==> {
            ||| exists|i: int|
                0 <= i < m.sessions.len() && header_above(m.groups.groups, (#[trigger] m.sessions[i]).name) == header
                    && is_left(m.groups.groups, m.sessions[i].name, m.query) && (pane == Pane::Active
                    ==> m.sessions[i].pinned)
            ||| pane == Pane::All && header < m.groups.groups.len() && (m.query.len() == 0 || finds(
                m.query,
                m.groups.groups[header].name,
            ))
        },
{
    let l = m.listing(pane);
    headers_are_listed(l, m.query, header);
    assert(forall|i: int| #![trigger l.sessions[i]] l.sessions[i] == m.sessions[i]);
}

/// The rows of both lists stand in the order of the groups, with each group's
/// sessions behind its header in the order of the sessions.
pub proof fn panes_are_in_order(m: Model, pane: Pane, a: int, b: int)
    requires
        m.is_countable(),
        0 <= a < b < m.rows_of(pane).len(),
    ensures
        comes_first(
            row_place(m.sessions, m.groups.groups, m.rows_of(pane)[a]),
            row_place(m.sessions, m.groups.groups, m.rows_of(pane)[b]),
        ),
{
    rows_are_in_order(m.listing(pane), a, b);
}

/// Every row of a list is that of a session or of a header that there is.
pub proof fn panes_list_nothing_else(m: Model, pane: Pane, row: VisibleRow)
    requires
        m.is_countable(),
        m.rows_of(pane).contains(row),
    ensures
        match row {
            VisibleRow::Session(i) => i < m.sessions.len(),
            VisibleRow::Group(header) => header <= m.groups.groups.len(),
        },
{
    rows::rows_are_listed_once(m.listing(pane));
    assert(m.listing(pane).lists(row));
}

/// A list of everything has every group, and every session that is not in a
/// collapsed one, while nothing is searched for. A search leaves the sessions whose
/// name or whose title is found, in collapsed groups too, the headers above them, and the
/// groups whose name is found.
pub proof fn everything_is_listed(l: Listing, query: Seq<char>, i: int, header: int)
    requires
        l.groups.len() <= usize::MAX,
        l.sessions.len() <= usize::MAX,
        l.hits == rows::hits_of(l.sessions, l.groups, query),
        l.rules == rows::every_row(query.len() > 0),
        0 <= i < l.sessions.len(),
        0 <= header < l.groups.len(),
    ensures
        l.rows().contains(VisibleRow::Session(i as usize)) <==> if query.len() > 0 {
            is_left(l.groups, l.sessions[i].name, query)
        } else {
            !collapsed_above(l.groups, l.ungrouped_collapsed, l.sessions[i].name)
        },
        query.len() == 0 ==> l.rows().contains(VisibleRow::Group(header as usize)) && l.rows().contains(
            VisibleRow::Group(l.groups.len() as usize),
        ),
        query.len() > 0 && finds(query, l.groups[header].name) ==> l.rows().contains(
            VisibleRow::Group(header as usize),
        ),
        l.rows().contains(VisibleRow::Session(i as usize)) ==> l.rows().contains(
            VisibleRow::Group(header_above(l.groups, l.sessions[i].name) as usize),
        ),
{
    sessions_are_listed(l, query, i);
    headers_are_listed(l, query, header);
    headers_are_listed(l, query, l.groups.len() as int);
    groups::lemma_group_from(l.groups, l.sessions[i].name, 0);
    let above = header_above(l.groups, l.sessions[i].name);
    headers_are_listed(l, query, above);
    if l.rows().contains(VisibleRow::Session(i as usize)) {
        assert(header_above(l.groups, l.sessions[i].name) == above);
    }
}

/// A name is found by itself, and everything is found by nothing.
pub proof fn names_find_themselves(name: Seq<char>)
    ensures
        rows::name_matches(name, name),
        rows::name_matches(name, Seq::empty()),
{
    let low = text::lowercase(name);
    assert(Seq::<char>::empty() + low + Seq::<char>::empty() =~= low);
    text::parts_occur(Seq::empty(), low, Seq::empty());
}

} // verus!
