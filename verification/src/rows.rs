//! The rows of a list: group headers with the sessions below them.

use vstd::prelude::*;
use vstd::string::*;

use crate::groups;
use crate::groups::{GroupState, GroupView, StateView, UNGROUPED_NAME};
use crate::sessions;
use crate::sessions::{Session, SessionView};
use crate::text;

verus! {

/// A row of the list. The header behind the last group stands for the sessions without a group.
#[derive(Clone, Copy, Debug, PartialEq, Eq, Structural)]
pub enum VisibleRow {
    Group(usize),
    Session(usize),
}

/// Which rows a list shows beyond what a search and collapsed groups leave.
#[derive(Clone, Copy, Debug, PartialEq, Eq, Structural)]
pub struct RowRules {
    /// Only pinned sessions are listed.
    pub pinned_only: bool,
    /// Groups of which no session is listed have no header.
    pub hide_empty_groups: bool,
    /// There is no header for sessions without a group where none is listed.
    pub hide_empty_ungrouped: bool,
}

/// Whether `query` stands in `name`, case aside. An empty query stands in every name.
pub open spec fn name_matches(name: Seq<char>, query: Seq<char>) -> bool {
    query.len() == 0 || text::occurs_in(text::lowercase(query), text::lowercase(name))
}

/// Whether `query` stands in `name`, case aside.
pub fn session_name_matches(name: &str, query: &str) -> (r: bool)
    ensures
        r == name_matches(name@, query@),
        text::is_ascii_text(name@) && text::is_ascii_text(query@) ==> r == text::occurs_in(
            text::ascii_folded(query@),
            text::ascii_folded(name@),
        ),
{
    let whole = text::to_lowercase(name);
    let part = text::to_lowercase(query);
    proof {
        if query@.len() == 0 {
            assert(part@ =~= Seq::empty());
            assert(whole@.subrange(0, 0) =~= Seq::empty());
            assert(text::occurs_at(part@, whole@, 0));
        }
    }
    text::contains(&whole, &part)
}

/// What a search finds: for each header and for each session whether it is found.
#[derive(Debug)]
pub struct Hits {
    pub searching: bool,
    pub titles: Vec<bool>,
    pub sessions: Vec<bool>,
}

#[verifier::ext_equal]
pub struct HitsView {
    pub searching: bool,
    pub titles: Seq<bool>,
    pub sessions: Seq<bool>,
}

impl View for Hits {
    type V = HitsView;

    open spec fn view(&self) -> HitsView {
        HitsView { searching: self.searching, titles: self.titles@, sessions: self.sessions@ }
    }
}

/// What a header is called: the one behind the last group stands for no group.
pub open spec fn header_title(groups: Seq<GroupView>, header: int) -> Seq<char> {
    if header < groups.len() {
        groups[header].name
    } else {
        UNGROUPED_NAME@
    }
}

/// What a search for `query` finds. An empty query searches for nothing and finds everything.
pub open spec fn hits_of(s: Seq<SessionView>, groups: Seq<GroupView>, query: Seq<char>) -> HitsView {
    HitsView {
        searching: query.len() > 0,
        titles: Seq::new(groups.len() + 1, |header: int| name_matches(header_title(groups, header), query)),
        sessions: Seq::new(s.len(), |i: int| name_matches(s[i].name, query)),
    }
}

/// Whether a search goes over ASCII texts only.
pub open spec fn is_ascii_search(s: Seq<SessionView>, groups: Seq<GroupView>, query: Seq<char>) -> bool {
    &&& text::is_ascii_text(query)
    &&& forall|i: int| 0 <= i < s.len() ==> text::is_ascii_text((#[trigger] s[i]).name)
    &&& forall|g: int| 0 <= g < groups.len() ==> text::is_ascii_text((#[trigger] groups[g]).name)
}

/// Whether `query` stands in `name`, the case of ASCII letters aside.
pub open spec fn ascii_matches(name: Seq<char>, query: Seq<char>) -> bool {
    text::occurs_in(text::ascii_folded(query), text::ascii_folded(name))
}

/// What a search over ASCII texts finds.
pub open spec fn ascii_hits_of(s: Seq<SessionView>, groups: Seq<GroupView>, query: Seq<char>) -> HitsView {
    HitsView {
        searching: query.len() > 0,
        titles: Seq::new(groups.len() + 1, |header: int| ascii_matches(header_title(groups, header), query)),
        sessions: Seq::new(s.len(), |i: int| ascii_matches(s[i].name, query)),
    }
}

/// Searches for `query` in the names of the groups and of the sessions.
pub fn find_hits(sessions: &Vec<Session>, groups: &GroupState, query: &str) -> (r: Hits)
    ensures
        r@ == hits_of(sessions::session_views(sessions@), groups@.groups, query@),
        is_ascii_search(sessions::session_views(sessions@), groups@.groups, query@) ==> r@ == ascii_hits_of(
            sessions::session_views(sessions@),
            groups@.groups,
            query@,
        ),
{
    let ghost s = sessions::session_views(sessions@);
    let ghost g = groups@.groups;
    let mut titles: Vec<bool> = Vec::new();
    let mut header: usize = 0;
    while header < groups.groups.len()
        invariant
            header <= groups.groups.len(),
            g == groups@.groups,
            titles.len() == header,
            forall|h: int| 0 <= h < header ==> #[trigger] titles@[h] == name_matches(g[h].name, query@),
            forall|h: int|
                0 <= h < header && text::is_ascii_text(query@) && text::is_ascii_text(g[h].name)
                    ==> #[trigger] titles@[h] == ascii_matches(g[h].name, query@),
        decreases groups.groups.len() - header,
    {
        assert(g[header as int] == groups.groups@[header as int]@);
        titles.push(session_name_matches(&groups.groups[header].name, query));
        header += 1;
    }
    titles.push(session_name_matches(UNGROUPED_NAME, query));
    let mut hits: Vec<bool> = Vec::new();
    let mut i: usize = 0;
    while i < sessions.len()
        invariant
            i <= sessions.len(),
            s == sessions::session_views(sessions@),
            hits.len() == i,
            forall|k: int| 0 <= k < i ==> #[trigger] hits@[k] == name_matches(s[k].name, query@),
            forall|k: int|
                0 <= k < i && text::is_ascii_text(query@) && text::is_ascii_text(s[k].name) ==> #[trigger] hits@[k]
                    == ascii_matches(s[k].name, query@),
        decreases sessions.len() - i,
    {
        assert(s[i as int] == sessions@[i as int]@);
        hits.push(session_name_matches(&sessions[i].name, query));
        i += 1;
    }
    proof {
        reveal_strlit("Ungrouped");
        assert(text::is_ascii_text(UNGROUPED_NAME@));
    }
    Hits { searching: !query.is_empty(), titles, sessions: hits }
}

/// What the rows of a list depend on.
pub struct Listing {
    pub sessions: Seq<SessionView>,
    pub groups: Seq<GroupView>,
    pub hits: HitsView,
    pub ungrouped_collapsed: bool,
    pub rules: RowRules,
}

impl Listing {
    /// The group that a header stands for: the one behind the last stands for none.
    pub open spec fn group(self, header: int) -> Option<int> {
        if header < self.groups.len() {
            Some(header)
        } else {
            None
        }
    }

    pub open spec fn collapsed(self, header: int) -> bool {
        if header < self.groups.len() {
            self.groups[header].collapsed
        } else {
            self.ungrouped_collapsed
        }
    }

    pub open spec fn hides_empty(self, header: int) -> bool {
        if header < self.groups.len() {
            self.rules.hide_empty_groups
        } else {
            self.rules.hide_empty_ungrouped
        }
    }

    /// Whether the session at `i` belongs below a header. A header that is found has
    /// all of its sessions, any other those that are found.
    pub open spec fn is_member(self, header: int, i: int) -> bool {
        &&& groups::group_of(self.groups, self.sessions[i].name) == self.group(header)
        &&& self.hits.titles[header] || self.hits.sessions[i]
        &&& self.rules.pinned_only ==> self.sessions[i].pinned
    }

    /// The sessions from index `i` on that belong below a header, in their order.
    pub open spec fn members_from(self, header: int, i: int) -> Seq<usize>
        decreases self.sessions.len() - i,
    {
        if i >= self.sessions.len() {
            Seq::empty()
        } else if self.is_member(header, i) {
            seq![i as usize] + self.members_from(header, i + 1)
        } else {
            self.members_from(header, i + 1)
        }
    }

    /// Whether a header has a row of its own. One that a search does not find has
    /// one only for the sessions below it.
    pub open spec fn shows(self, header: int) -> bool {
        ||| self.members_from(header, 0).len() > 0
        ||| !self.hides_empty(header) && (!self.hits.searching || self.hits.titles[header])
    }

    /// Whether the sessions below a header have rows. A search opens collapsed groups.
    pub open spec fn opens(self, header: int) -> bool {
        self.hits.searching || !self.collapsed(header)
    }

    /// The rows of one header.
    pub open spec fn block(self, header: int) -> Seq<VisibleRow> {
        if !self.shows(header) {
            Seq::empty()
        } else if self.opens(header) {
            seq![VisibleRow::Group(header as usize)] + session_rows(self.members_from(header, 0))
        } else {
            seq![VisibleRow::Group(header as usize)]
        }
    }

    /// The rows of the headers from `header` on.
    pub open spec fn rows_from(self, header: int) -> Seq<VisibleRow>
        decreases self.groups.len() + 1 - header,
    {
        if header > self.groups.len() {
            Seq::empty()
        } else {
            self.block(header) + self.rows_from(header + 1)
        }
    }

    /// All rows.
    pub open spec fn rows(self) -> Seq<VisibleRow> {
        self.rows_from(0)
    }
}

pub open spec fn session_rows(members: Seq<usize>) -> Seq<VisibleRow> {
    members.map_values(|i: usize| VisibleRow::Session(i))
}

/// The listing of sessions and groups of which a search finds `hits`.
pub open spec fn listing(
    sessions: Seq<Session>,
    groups: StateView,
    hits: HitsView,
    ungrouped_collapsed: bool,
    rules: RowRules,
) -> Listing {
    Listing {
        sessions: sessions::session_views(sessions),
        groups: groups.groups,
        hits,
        ungrouped_collapsed,
        rules,
    }
}

/// The sessions that belong below a header, in their order.
fn members(
    sessions: &Vec<Session>,
    groups: &GroupState,
    hits: &Vec<bool>,
    pinned_only: bool,
    header: usize,
    title_hit: bool,
    Ghost(l): Ghost<Listing>,
) -> (r: Vec<usize>)
    requires
        l.sessions == sessions::session_views(sessions@),
        l.groups == groups@.groups,
        title_hit == l.hits.titles[header as int],
        !title_hit ==> l.hits.sessions == hits@ && hits.len() == sessions.len(),
        l.rules.pinned_only == pinned_only,
    ensures
        r@ == l.members_from(header as int, 0),
{
    let group: Option<usize> = if header < groups.groups.len() { Some(header) } else { None };
    let mut out: Vec<usize> = Vec::new();
    let mut i: usize = 0;
    assert(out@ + l.members_from(header as int, 0) =~= l.members_from(header as int, 0));
    while i < sessions.len()
        invariant
            i <= sessions.len(),
            l.sessions == sessions::session_views(sessions@),
            l.groups == groups@.groups,
            title_hit == l.hits.titles[header as int],
            !title_hit ==> l.hits.sessions == hits@ && hits.len() == sessions.len(),
            l.rules.pinned_only == pinned_only,
            groups::index_view(group) == l.group(header as int),
            l.members_from(header as int, 0) == out@ + l.members_from(header as int, i as int),
        decreases sessions.len() - i,
    {
        assert(l.sessions[i as int] == sessions@[i as int]@);
        let ghost before = out@;
        let ghost rest = l.members_from(header as int, i + 1);
        if groups.group_for_session(&sessions[i].name) == group && (title_hit || hits[i]) && (!pinned_only
            || sessions[i].pinned) {
            out.push(i);
            assert(before + (seq![i] + rest) =~= out@ + rest);
        }
        i += 1;
    }
    assert(out@ + Seq::<usize>::empty() =~= out@);
    out
}

/// Appends the rows of one header.
fn push_block(
    rows: &mut Vec<VisibleRow>,
    sessions: &Vec<Session>,
    groups: &GroupState,
    hits: &Hits,
    ungrouped_collapsed: bool,
    rules: RowRules,
    header: usize,
)
    requires
        header <= groups@.groups.len(),
        hits.titles.len() == groups@.groups.len() + 1,
        hits.sessions.len() == sessions.len(),
    ensures
        final(rows)@ == old(rows)@ + listing(sessions@, groups@, hits@, ungrouped_collapsed, rules).block(
            header as int,
        ),
{
    let ghost l = listing(sessions@, groups@, hits@, ungrouped_collapsed, rules);
    let ghost before = rows@;
    let grouped = header < groups.groups.len();
    let title_hit = hits.titles[header];
    let collapsed = if grouped { groups.groups[header].collapsed } else { ungrouped_collapsed };
    let hide_empty = if grouped { rules.hide_empty_groups } else { rules.hide_empty_ungrouped };
    let listed = members(sessions, groups, &hits.sessions, rules.pinned_only, header, title_hit, Ghost(l));
    if listed.len() == 0 && (hide_empty || (hits.searching && !title_hit)) {
        assert(rows@ + Seq::<VisibleRow>::empty() =~= before);
        return;
    }
    rows.push(VisibleRow::Group(header));
    if hits.searching || !collapsed {
        let mut i: usize = 0;
        assert(rows@ =~= before + (seq![VisibleRow::Group(header)] + session_rows(listed@.take(0))));
        while i < listed.len()
            invariant
                i <= listed.len(),
                rows@ == before + (seq![VisibleRow::Group(header)] + session_rows(listed@.take(i as int))),
            decreases listed.len() - i,
        {
            rows.push(VisibleRow::Session(listed[i]));
            i += 1;
            assert(rows@ =~= before + (seq![VisibleRow::Group(header)] + session_rows(listed@.take(i as int))));
        }
        assert(listed@.take(i as int) =~= listed@);
    } else {
        assert(rows@ =~= before + seq![VisibleRow::Group(header)]);
    }
}

/// The rows that `rules` leave of sessions and groups of which a search finds `hits`.
pub fn list_rows(
    sessions: &Vec<Session>,
    groups: &GroupState,
    hits: &Hits,
    ungrouped_collapsed: bool,
    rules: RowRules,
) -> (r: Vec<VisibleRow>)
    requires
        hits.titles.len() == groups@.groups.len() + 1,
        hits.sessions.len() == sessions.len(),
    ensures
        r@ == listing(sessions@, groups@, hits@, ungrouped_collapsed, rules).rows(),
        forall|k: int|
            0 <= k < r.len() ==> row_exists(#[trigger] r@[k], sessions.len() as int, groups@.groups.len() as int),
{
    let ghost l = listing(sessions@, groups@, hits@, ungrouped_collapsed, rules);
    let mut rows: Vec<VisibleRow> = Vec::new();
    let mut header: usize = 0;
    let count: usize = groups.groups.len();
    let session_count: usize = sessions.len();
    assert(rows@ + l.rows_from(0) =~= l.rows_from(0));
    while header < count
        invariant
            header <= count == groups@.groups.len(),
            hits.titles.len() == groups@.groups.len() + 1,
            hits.sessions.len() == sessions.len(),
            l == listing(sessions@, groups@, hits@, ungrouped_collapsed, rules),
            l.rows_from(0) == rows@ + l.rows_from(header as int),
        decreases count - header,
    {
        let ghost before = rows@;
        push_block(&mut rows, sessions, groups, hits, ungrouped_collapsed, rules, header);
        assert(before + (l.block(header as int) + l.rows_from(header + 1)) =~= rows@ + l.rows_from(header + 1));
        header += 1;
    }
    let ghost before = rows@;
    push_block(&mut rows, sessions, groups, hits, ungrouped_collapsed, rules, count);
    proof {
        assert(l.rows_from(count + 1) =~= Seq::empty());
        assert(before + (l.block(count as int) + l.rows_from(count + 1)) =~= rows@);
        assert(l.sessions.len() == session_count);
        rows_are_listed_once(l);
        assert forall|k: int| 0 <= k < rows.len() implies row_exists(
            #[trigger] rows@[k],
            sessions.len() as int,
            groups@.groups.len() as int,
        ) by {
            assert(rows@.contains(rows@[k]));
            assert(l.lists(rows@[k]));
        }
    }
    rows
}

/// The rows that `rules` leave of what a search for `query` finds.
pub fn build_rows(
    sessions: &Vec<Session>,
    groups: &GroupState,
    query: &str,
    ungrouped_collapsed: bool,
    rules: RowRules,
) -> (r: Vec<VisibleRow>)
    ensures
        ({
            let s = sessions::session_views(sessions@);
            let hits = hits_of(s, groups@.groups, query@);
            let ascii_hits = ascii_hits_of(s, groups@.groups, query@);
            &&& r@ == listing(sessions@, groups@, hits, ungrouped_collapsed, rules).rows()
            &&& is_ascii_search(s, groups@.groups, query@) ==> r@ == listing(
                sessions@,
                groups@,
                ascii_hits,
                ungrouped_collapsed,
                rules,
            ).rows()
        }),
        forall|k: int|
            0 <= k < r.len() ==> row_exists(#[trigger] r@[k], sessions.len() as int, groups@.groups.len() as int),
{
    let hits = find_hits(sessions, groups, query);
    list_rows(sessions, groups, &hits, ungrouped_collapsed, rules)
}

/// Whether a row stands for something: one of the groups, all sessions without a group, or one of the sessions.
pub open spec fn row_exists(row: VisibleRow, session_count: int, group_count: int) -> bool {
    match row {
        VisibleRow::Group(header) => header <= group_count,
        VisibleRow::Session(i) => i < session_count,
    }
}

/// The rules of a list that shows every session and every header. While something
/// is searched for, sessions without a group have no header where there are none.
pub open spec fn every_row(searching: bool) -> RowRules {
    RowRules { pinned_only: false, hide_empty_groups: false, hide_empty_ungrouped: searching }
}

/// The rows of a list that shows every session and every header, but for what a
/// search leaves out. A search leaves out the header for sessions without a group
/// where there are none.
pub fn build_visible_rows(
    sessions: &Vec<Session>,
    groups: &GroupState,
    query: &str,
    ungrouped_collapsed: bool,
) -> (r: Vec<VisibleRow>)
    ensures
        ({
            let s = sessions::session_views(sessions@);
            let hits = hits_of(s, groups@.groups, query@);
            let ascii_hits = ascii_hits_of(s, groups@.groups, query@);
            &&& r@ == listing(sessions@, groups@, hits, ungrouped_collapsed, every_row(query@.len() > 0)).rows()
            &&& is_ascii_search(s, groups@.groups, query@) ==> r@ == listing(
                sessions@,
                groups@,
                ascii_hits,
                ungrouped_collapsed,
                every_row(query@.len() > 0),
            ).rows()
        }),
        forall|k: int|
            0 <= k < r.len() ==> row_exists(#[trigger] r@[k], sessions.len() as int, groups@.groups.len() as int),
{
    let rules = RowRules { pinned_only: false, hide_empty_groups: false, hide_empty_ungrouped: !query.is_empty() };
    build_rows(sessions, groups, query, ungrouped_collapsed, rules)
}

/// The first row at or after `i` that lists a session.
pub open spec fn session_row_from(rows: Seq<VisibleRow>, i: int) -> Option<int>
    decreases rows.len() - i,
{
    if i >= rows.len() {
        None
    } else if rows[i] is Session {
        Some(i)
    } else {
        session_row_from(rows, i + 1)
    }
}

/// The last row before `end` that lists a session.
pub open spec fn session_row_before(rows: Seq<VisibleRow>, end: int) -> Option<int>
    decreases end,
{
    if end <= 0 {
        None
    } else if rows[end - 1] is Session {
        Some(end - 1)
    } else {
        session_row_before(rows, end - 1)
    }
}

/// The first header at or after `i`.
pub open spec fn group_row_from(rows: Seq<VisibleRow>, i: int) -> Option<int>
    decreases rows.len() - i,
{
    if i >= rows.len() {
        None
    } else if rows[i] is Group {
        Some(i)
    } else {
        group_row_from(rows, i + 1)
    }
}

/// The last header before `end`.
pub open spec fn group_row_before(rows: Seq<VisibleRow>, end: int) -> Option<int>
    decreases end,
{
    if end <= 0 {
        None
    } else if rows[end - 1] is Group {
        Some(end - 1)
    } else {
        group_row_before(rows, end - 1)
    }
}

/// The first index at or after `i` of the row.
pub open spec fn row_index_from(rows: Seq<VisibleRow>, row: VisibleRow, i: int) -> Option<int>
    decreases rows.len() - i,
{
    if i >= rows.len() {
        None
    } else if rows[i] == row {
        Some(i)
    } else {
        row_index_from(rows, row, i + 1)
    }
}

fn is_session_row(row: VisibleRow) -> (r: bool)
    ensures
        r == (row is Session),
{
    match row {
        VisibleRow::Session(_) => true,
        VisibleRow::Group(_) => false,
    }
}

/// The first row at or after `from` that lists a session.
pub fn next_session_row(rows: &Vec<VisibleRow>, from: usize) -> (r: Option<usize>)
    ensures
        groups::index_view(r) == session_row_from(rows@, from as int),
        r matches Some(k) ==> from <= k < rows.len(),
{
    let mut i: usize = from;
    while i < rows.len()
        invariant
            from <= i,
            session_row_from(rows@, from as int) == session_row_from(rows@, i as int),
        decreases rows.len() - i,
    {
        if is_session_row(rows[i]) {
            return Some(i);
        }
        i += 1;
    }
    None
}

/// The last row before `end` that lists a session.
pub fn previous_session_row(rows: &Vec<VisibleRow>, end: usize) -> (r: Option<usize>)
    requires
        end <= rows.len(),
    ensures
        groups::index_view(r) == session_row_before(rows@, end as int),
        r matches Some(k) ==> k < end,
{
    let mut i: usize = end;
    while i > 0
        invariant
            i <= end <= rows.len(),
            session_row_before(rows@, end as int) == session_row_before(rows@, i as int),
        decreases i,
    {
        if is_session_row(rows[i - 1]) {
            return Some(i - 1);
        }
        i -= 1;
    }
    None
}

/// The first header at or after `from`.
pub fn next_group_row(rows: &Vec<VisibleRow>, from: usize) -> (r: Option<usize>)
    ensures
        groups::index_view(r) == group_row_from(rows@, from as int),
        r matches Some(k) ==> from <= k < rows.len(),
{
    let mut i: usize = from;
    while i < rows.len()
        invariant
            from <= i,
            group_row_from(rows@, from as int) == group_row_from(rows@, i as int),
        decreases rows.len() - i,
    {
        if !is_session_row(rows[i]) {
            return Some(i);
        }
        i += 1;
    }
    None
}

/// The last header before `end`.
pub fn previous_group_row(rows: &Vec<VisibleRow>, end: usize) -> (r: Option<usize>)
    requires
        end <= rows.len(),
    ensures
        groups::index_view(r) == group_row_before(rows@, end as int),
        r matches Some(k) ==> k < end,
{
    let mut i: usize = end;
    while i > 0
        invariant
            i <= end <= rows.len(),
            group_row_before(rows@, end as int) == group_row_before(rows@, i as int),
        decreases i,
    {
        if !is_session_row(rows[i - 1]) {
            return Some(i - 1);
        }
        i -= 1;
    }
    None
}

/// The index of the first row that equals `row`.
pub fn row_position(rows: &Vec<VisibleRow>, row: VisibleRow) -> (r: Option<usize>)
    ensures
        groups::index_view(r) == row_index_from(rows@, row, 0),
        r matches Some(k) ==> k < rows.len(),
{
    let mut i: usize = 0;
    while i < rows.len()
        invariant
            i <= rows.len(),
            row_index_from(rows@, row, 0) == row_index_from(rows@, row, i as int),
        decreases rows.len() - i,
    {
        if rows[i] == row {
            return Some(i);
        }
        i += 1;
    }
    None
}

/// Where the first session is listed, or the first row where none is.
pub open spec fn first_session_row(rows: Seq<VisibleRow>) -> int {
    match session_row_from(rows, 0) {
        Some(i) => i,
        None => 0,
    }
}

/// Where the first session is listed, or 0 where none is.
pub fn first_session_row_position(rows: &Vec<VisibleRow>) -> (r: usize)
    ensures
        r == first_session_row(rows@),
        rows.len() > 0 ==> r < rows.len(),
{
    match next_session_row(rows, 0) {
        Some(i) => i,
        None => 0,
    }
}

/// The listing of everything, where nothing is searched for and nothing collapsed.
pub open spec fn full_listing(s: Seq<SessionView>, groups: Seq<GroupView>) -> Listing {
    Listing {
        sessions: s,
        groups,
        hits: HitsView {
            searching: false,
            titles: Seq::new(groups.len() + 1, |header: int| true),
            sessions: Seq::new(s.len(), |i: int| true),
        },
        ungrouped_collapsed: false,
        rules: every_row(false),
    }
}

/// The sessions of the group that a header stands for, in their order. Every
/// header behind the last group stands for no group.
pub open spec fn group_members(s: Seq<SessionView>, groups: Seq<GroupView>, header: int) -> Seq<usize> {
    full_listing(s, groups).members_from(
        if header < groups.len() {
            header
        } else {
            groups.len() as int
        },
        0,
    )
}

/// The sessions of the group that a header stands for, in their order.
pub fn session_indices_for_group(sessions: &Vec<Session>, groups: &GroupState, group_index: usize) -> (r: Vec<usize>)
    ensures
        r@ == group_members(sessions::session_views(sessions@), groups@.groups, group_index as int),
        forall|k: int| 0 <= k < r.len() ==> #[trigger] r@[k] < sessions.len(),
{
    let count: usize = sessions.len();
    let header: usize = if group_index < groups.groups.len() { group_index } else { groups.groups.len() };
    let none: Vec<bool> = Vec::new();
    let ghost l = full_listing(sessions::session_views(sessions@), groups@.groups);
    proof {
        assert(l.sessions.len() == count);
        lemma_members(l, header as int, 0);
    }
    members(sessions, groups, &none, false, header, true, Ghost(l))
}

/// The list of members holds each member once, and nothing else.
pub(crate) proof fn lemma_members(l: Listing, header: int, i: int)
    requires
        0 <= i,
        l.sessions.len() <= usize::MAX,
    ensures
        ({
            let m = l.members_from(header, i);
            &&& forall|k: int|
                0 <= k < m.len() ==> i <= #[trigger] m[k] < l.sessions.len() && l.is_member(header, m[k] as int)
            &&& forall|a: int, b: int| 0 <= a < b < m.len() ==> #[trigger] m[a] < #[trigger] m[b]
            &&& forall|j: int| i <= j < l.sessions.len() && l.is_member(header, j) ==> #[trigger] m.contains(j as usize)
        }),
    decreases l.sessions.len() - i,
{
    if i < l.sessions.len() {
        lemma_members(l, header, i + 1);
        let rest = l.members_from(header, i + 1);
        let m = l.members_from(header, i);
        if l.is_member(header, i) {
            assert forall|k: int| 0 <= k < m.len() implies i <= #[trigger] m[k] < l.sessions.len() && l.is_member(
                header,
                m[k] as int,
            ) by {
                if k > 0 {
                    assert(m[k] == rest[k - 1]);
                }
            }
            assert forall|a: int, b: int| 0 <= a < b < m.len() implies #[trigger] m[a] < #[trigger] m[b] by {
                assert(m[b] == rest[b - 1]);
                if a > 0 {
                    assert(m[a] == rest[a - 1]);
                }
            }
            assert forall|j: int| i <= j < l.sessions.len() && l.is_member(header, j) implies #[trigger] m.contains(
                j as usize,
            ) by {
                if j == i {
                    assert(m[0] == j as usize);
                } else {
                    assert(rest.contains(j as usize));
                    let k = rest.index_of(j as usize);
                    assert(m[k + 1] == j as usize);
                }
            }
        }
    }
}

impl Listing {
    /// The header below which the session at `i` belongs.
    pub open spec fn header_of(self, i: int) -> int {
        match groups::group_of(self.groups, self.sessions[i].name) {
            Some(g) => g,
            None => self.groups.len() as int,
        }
    }

    /// Whether a row is listed: a header that shows, or a session below a header that is open.
    pub open spec fn lists(self, row: VisibleRow) -> bool {
        match row {
            VisibleRow::Group(header) => header <= self.groups.len() && self.shows(header as int),
            VisibleRow::Session(i) => {
                &&& i < self.sessions.len()
                &&& self.opens(self.header_of(i as int))
                &&& self.is_member(self.header_of(i as int), i as int)
            },
        }
    }

    /// The header that a row belongs to.
    pub open spec fn row_header(self, row: VisibleRow) -> int {
        match row {
            VisibleRow::Group(header) => header as int,
            VisibleRow::Session(i) => self.header_of(i as int),
        }
    }
}

proof fn lemma_block(l: Listing, header: int)
    requires
        0 <= header <= l.groups.len() <= usize::MAX,
        l.sessions.len() <= usize::MAX,
    ensures
        forall|row: VisibleRow|
            #[trigger] l.block(header).contains(row) <==> l.lists(row) && l.row_header(row) == header,
        l.block(header).no_duplicates(),
{
    lemma_members(l, header, 0);
    let m = l.members_from(header, 0);
    let rows = l.block(header);
    assert forall|row: VisibleRow|
        #[trigger] rows.contains(row) <==> l.lists(row) && l.row_header(row) == header by {
        if rows.contains(row) {
            let k = rows.index_of(row);
            if k > 0 {
                assert(row == VisibleRow::Session(m[k - 1]));
                let i = m[k - 1] as int;
                groups::lemma_group_from(l.groups, l.sessions[i].name, 0);
                assert(l.is_member(header, i));
            }
        }
        if l.lists(row) && l.row_header(row) == header {
            match row {
                VisibleRow::Group(h) => {
                    assert(rows[0] == row);
                },
                VisibleRow::Session(i) => {
                    assert(m.contains(i as int as usize));
                    let k = m.index_of(i);
                    assert(rows[k + 1] == row);
                },
            }
        }
    }
    assert forall|a: int, b: int| 0 <= a < b < rows.len() implies rows[a] != rows[b] by {
        if a > 0 {
            assert(m[a - 1] < m[b - 1]);
        }
    }
}

proof fn lemma_rows_from(l: Listing, header: int)
    requires
        0 <= header <= l.groups.len() + 1,
        l.groups.len() <= usize::MAX,
        l.sessions.len() <= usize::MAX,
    ensures
        forall|row: VisibleRow|
            #[trigger] l.rows_from(header).contains(row) <==> l.lists(row) && l.row_header(row) >= header,
        l.rows_from(header).no_duplicates(),
    decreases l.groups.len() + 1 - header,
{
    let rows = l.rows_from(header);
    if header <= l.groups.len() {
        lemma_block(l, header);
        lemma_rows_from(l, header + 1);
        let one = l.block(header);
        let rest = l.rows_from(header + 1);
        assert forall|row: VisibleRow|
            #[trigger] rows.contains(row) <==> l.lists(row) && l.row_header(row) >= header by {
            if rows.contains(row) {
                let k = rows.index_of(row);
                if k < one.len() {
                    assert(one[k] == row);
                    assert(one.contains(row));
                } else {
                    assert(rest[k - one.len()] == row);
                    assert(rest.contains(row));
                }
            }
            if l.lists(row) && l.row_header(row) == header {
                assert(one.contains(row));
                let k = one.index_of(row);
                assert(rows[k] == row);
            }
            if l.lists(row) && l.row_header(row) > header {
                assert(rest.contains(row));
                let k = rest.index_of(row);
                assert(rows[k + one.len()] == row);
            }
        }
        assert forall|a: int, b: int| 0 <= a < b < rows.len() implies rows[a] != rows[b] by {
            if a < one.len() && b >= one.len() {
                assert(one[a] == rows[a]);
                assert(one.contains(rows[a]));
                assert(rest[b - one.len()] == rows[b]);
                assert(rest.contains(rows[b]));
            } else if a >= one.len() {
                assert(rest[a - one.len()] == rows[a]);
                assert(rest[b - one.len()] == rows[b]);
            }
        }
    } else {
        assert forall|row: VisibleRow| !(l.lists(row) && l.row_header(row) >= header) by {
            if l.lists(row) {
                if let VisibleRow::Session(i) = row {
                    groups::lemma_group_from(l.groups, l.sessions[i as int].name, 0);
                }
            }
        }
    }
}

/// A list has a row for each header and each session that it is to show, has each
/// of them once, and has no other row.
pub proof fn rows_are_listed_once(l: Listing)
    requires
        l.groups.len() <= usize::MAX,
        l.sessions.len() <= usize::MAX,
    ensures
        forall|row: VisibleRow| #[trigger] l.rows().contains(row) <==> l.lists(row),
        l.rows().no_duplicates(),
{
    lemma_rows_from(l, 0);
    assert forall|row: VisibleRow| #[trigger] l.rows().contains(row) <==> l.lists(row) by {
        if l.lists(row) {
            if let VisibleRow::Session(i) = row {
                groups::lemma_group_from(l.groups, l.sessions[i as int].name, 0);
            }
        }
    }
}

/// A list of all sessions shows every one of them that is found, or whose header
/// is, below a header that is open.
pub proof fn every_session_is_listed(l: Listing, i: int)
    requires
        l.groups.len() <= usize::MAX,
        l.sessions.len() <= usize::MAX,
        0 <= i < l.sessions.len(),
        l.hits.titles[l.header_of(i)] || l.hits.sessions[i],
        !l.rules.pinned_only,
        l.opens(l.header_of(i)),
    ensures
        l.rows().contains(VisibleRow::Session(i as usize)),
{
    rows_are_listed_once(l);
    groups::lemma_group_from(l.groups, l.sessions[i].name, 0);
    assert(l.lists(VisibleRow::Session(i as usize)));
}

/// Where every session has a group, a list that hides the empty header for
/// sessions without one has no row for it.
pub proof fn empty_ungrouped_has_no_row(l: Listing)
    requires
        l.groups.len() <= usize::MAX,
        l.sessions.len() <= usize::MAX,
        l.rules.hide_empty_ungrouped,
        forall|i: int|
            0 <= i < l.sessions.len() ==> groups::group_of(l.groups, (#[trigger] l.sessions[i]).name) is Some,
    ensures
        !l.rows().contains(VisibleRow::Group(l.groups.len() as usize)),
{
    rows_are_listed_once(l);
    no_members(l, l.groups.len() as int);
}

/// A list of the pinned sessions shows only pinned sessions, and each of its
/// headers has one of them.
pub proof fn only_pinned_are_listed(l: Listing)
    requires
        l.groups.len() <= usize::MAX,
        l.sessions.len() <= usize::MAX,
        l.rules.pinned_only,
        l.rules.hide_empty_groups,
        l.rules.hide_empty_ungrouped,
    ensures
        forall|i: usize| #[trigger] l.rows().contains(VisibleRow::Session(i)) ==> l.sessions[i as int].pinned,
        forall|header: usize| #[trigger]
            l.rows().contains(VisibleRow::Group(header)) ==> exists|i: int|
                0 <= i < l.sessions.len() && l.header_of(i) == header && (#[trigger] l.sessions[i]).pinned,
{
    rows_are_listed_once(l);
    assert forall|header: usize| #[trigger] l.rows().contains(VisibleRow::Group(header)) implies exists|i: int|
        0 <= i < l.sessions.len() && l.header_of(i) == header && (#[trigger] l.sessions[i]).pinned by {
        lemma_members(l, header as int, 0);
        assert(l.lists(VisibleRow::Group(header)));
        let m = l.members_from(header as int, 0);
        let i = m[0] as int;
        groups::lemma_group_from(l.groups, l.sessions[i].name, 0);
        assert(l.is_member(header as int, i));
        assert(l.header_of(i) == header && l.sessions[i].pinned);
    }
}

/// Where a header has a session in one list, it has one in a list of the same that leaves out no more.
pub(crate) proof fn fewer_members(few: Listing, many: Listing, header: int)
    requires
        few.sessions.len() <= usize::MAX,
        few.sessions == many.sessions,
        few.groups == many.groups,
        few.hits == many.hits,
        !many.rules.pinned_only,
    ensures
        few.members_from(header, 0).len() > 0 ==> many.members_from(header, 0).len() > 0,
{
    lemma_members(few, header, 0);
    lemma_members(many, header, 0);
    let m = few.members_from(header, 0);
    if m.len() > 0 {
        assert(few.is_member(header, m[0] as int));
        assert(many.is_member(header, m[0] as int));
        assert(many.members_from(header, 0).contains(m[0] as int as usize));
    }
}

/// A header that no session belongs to, and that is hidden where it is empty, does not show.
proof fn no_members(l: Listing, header: int)
    requires
        l.sessions.len() <= usize::MAX,
        l.hides_empty(header),
        forall|i: int|
            0 <= i < l.sessions.len() ==> groups::group_of(l.groups, (#[trigger] l.sessions[i]).name) != l.group(
                header,
            ),
    ensures
        !l.shows(header),
{
    lemma_members(l, header, 0);
    let m = l.members_from(header, 0);
    if m.len() > 0 {
        assert(l.is_member(header, m[0] as int));
        assert(groups::group_of(l.groups, l.sessions[m[0] as int].name) != l.group(header));
    }
}

/// What `row_index_from` finds: the first such row.
pub proof fn lemma_row_index(rows: Seq<VisibleRow>, row: VisibleRow, i: int)
    requires
        0 <= i <= rows.len(),
    ensures
        match row_index_from(rows, row, i) {
            Some(k) => i <= k < rows.len() && rows[k] == row,
            None => forall|k: int| i <= k < rows.len() ==> rows[k] != row,
        },
    decreases rows.len() - i,
{
    if i < rows.len() && rows[i] != row {
        lemma_row_index(rows, row, i + 1);
    }
}

/// What `session_row_from` and `session_row_before` find: the nearest session.
pub proof fn lemma_nearest_session(rows: Seq<VisibleRow>, i: int)
    requires
        0 <= i <= rows.len(),
    ensures
        match session_row_from(rows, i) {
            Some(k) => i <= k < rows.len() && rows[k] is Session && forall|j: int|
                i <= j < k ==> (#[trigger] rows[j]) is Group,
            None => forall|j: int| i <= j < rows.len() ==> (#[trigger] rows[j]) is Group,
        },
        match session_row_before(rows, i) {
            Some(k) => 0 <= k < i && rows[k] is Session && forall|j: int| k < j < i ==> (#[trigger] rows[j]) is Group,
            None => forall|j: int| 0 <= j < i ==> (#[trigger] rows[j]) is Group,
        },
{
    lemma_session_from(rows, i);
    lemma_session_before(rows, i);
}

proof fn lemma_session_from(rows: Seq<VisibleRow>, i: int)
    requires
        0 <= i <= rows.len(),
    ensures
        match session_row_from(rows, i) {
            Some(k) => i <= k < rows.len() && rows[k] is Session && forall|j: int|
                i <= j < k ==> (#[trigger] rows[j]) is Group,
            None => forall|j: int| i <= j < rows.len() ==> (#[trigger] rows[j]) is Group,
        },
    decreases rows.len() - i,
{
    if i < rows.len() && !(rows[i] is Session) {
        lemma_session_from(rows, i + 1);
    }
}

proof fn lemma_session_before(rows: Seq<VisibleRow>, end: int)
    requires
        0 <= end <= rows.len(),
    ensures
        match session_row_before(rows, end) {
            Some(k) => 0 <= k < end && rows[k] is Session && forall|j: int|
                k < j < end ==> (#[trigger] rows[j]) is Group,
            None => forall|j: int| 0 <= j < end ==> (#[trigger] rows[j]) is Group,
        },
    decreases end,
{
    if end > 0 && !(rows[end - 1] is Session) {
        lemma_session_before(rows, end - 1);
    }
}

/// What `group_row_from` and `group_row_before` find: the nearest header.
pub proof fn lemma_nearest_group(rows: Seq<VisibleRow>, i: int)
    requires
        0 <= i <= rows.len(),
    ensures
        match group_row_from(rows, i) {
            Some(k) => i <= k < rows.len() && rows[k] is Group && forall|j: int|
                i <= j < k ==> (#[trigger] rows[j]) is Session,
            None => forall|j: int| i <= j < rows.len() ==> (#[trigger] rows[j]) is Session,
        },
        match group_row_before(rows, i) {
            Some(k) => 0 <= k < i && rows[k] is Group && forall|j: int| k < j < i ==> (#[trigger] rows[j]) is Session,
            None => forall|j: int| 0 <= j < i ==> (#[trigger] rows[j]) is Session,
        },
{
    lemma_group_row_from(rows, i);
    lemma_group_row_before(rows, i);
}

proof fn lemma_group_row_from(rows: Seq<VisibleRow>, i: int)
    requires
        0 <= i <= rows.len(),
    ensures
        match group_row_from(rows, i) {
            Some(k) => i <= k < rows.len() && rows[k] is Group && forall|j: int|
                i <= j < k ==> (#[trigger] rows[j]) is Session,
            None => forall|j: int| i <= j < rows.len() ==> (#[trigger] rows[j]) is Session,
        },
    decreases rows.len() - i,
{
    if i < rows.len() && !(rows[i] is Group) {
        lemma_group_row_from(rows, i + 1);
    }
}

proof fn lemma_group_row_before(rows: Seq<VisibleRow>, end: int)
    requires
        0 <= end <= rows.len(),
    ensures
        match group_row_before(rows, end) {
            Some(k) => 0 <= k < end && rows[k] is Group && forall|j: int|
                k < j < end ==> (#[trigger] rows[j]) is Session,
            None => forall|j: int| 0 <= j < end ==> (#[trigger] rows[j]) is Session,
        },
    decreases end,
{
    if end > 0 && !(rows[end - 1] is Group) {
        lemma_group_row_before(rows, end - 1);
    }
}

} // verus!
