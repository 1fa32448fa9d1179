//! The state of the picker, and what it lists.

use vstd::prelude::*;
use vstd::string::*;

use crate::group_file;
use crate::group_file::FileRead;
use crate::groups;
use crate::groups::{GroupState, StateView};
use crate::help;
use crate::marks;
use crate::names;
use crate::names::NameSet;
use crate::prompts;
use crate::prompts::{NameActionView, Prompt, PromptView};
use crate::rows;
use crate::rows::{Listing, RowRules, VisibleRow};
use crate::sessions;
use crate::sessions::{Session, SessionView};
use crate::soundness;
use crate::text;

verus! {

/// The two lists: `Active` has the pinned sessions, `All` has every session.
#[derive(Clone, Copy, Debug, PartialEq, Eq, Structural)]
pub enum Pane {
    Active,
    All,
}

/// The picker. `selected` and `top` are the cursor and the first visible row of
/// the list that has the focus; the other list's are parked.
#[derive(Debug)]
pub struct App {
    pub sessions: Vec<Session>,
    pub groups: GroupState,
    pub selected_sessions: NameSet,
    pub focus: Pane,
    pub selected: usize,
    pub top: usize,
    pub parked_selected: usize,
    pub parked_top: usize,
    pub rows: usize,
    pub cols: usize,
    pub status: String,
    pub query: String,
    pub searching: bool,
    pub ungrouped_collapsed: bool,
    pub prompt: Option<Prompt>,
    /// The row that was clicked last, and when, in nanoseconds.
    pub last_click: Option<(VisibleRow, u64)>,
}

#[verifier::ext_equal]
pub struct Model {
    pub sessions: Seq<SessionView>,
    pub groups: StateView,
    pub marked: Set<Seq<char>>,
    pub focus: Pane,
    pub selected: int,
    pub top: int,
    pub parked_selected: int,
    pub parked_top: int,
    pub rows: int,
    pub cols: int,
    pub status: Seq<char>,
    pub query: Seq<char>,
    pub searching: bool,
    pub ungrouped_collapsed: bool,
    pub prompt: Option<PromptView>,
    pub last_click: Option<(VisibleRow, u64)>,
}

impl View for App {
    type V = Model;

    open spec fn view(&self) -> Model {
        Model {
            sessions: sessions::session_views(self.sessions@),
            groups: self.groups@,
            marked: self.selected_sessions@,
            focus: self.focus,
            selected: self.selected as int,
            top: self.top as int,
            parked_selected: self.parked_selected as int,
            parked_top: self.parked_top as int,
            rows: self.rows as int,
            cols: self.cols as int,
            status: self.status@,
            query: self.query@,
            searching: self.searching,
            ungrouped_collapsed: self.ungrouped_collapsed,
            prompt: prompts::prompt_view(self.prompt),
            last_click: self.last_click,
        }
    }
}

/// Which rows a list shows. `All` has every session and every group; `Active` has
/// the pinned sessions and the groups that have some. Neither has an empty list
/// of sessions without a group.
pub open spec fn pane_rules(pane: Pane) -> RowRules {
    RowRules {
        pinned_only: pane == Pane::Active,
        hide_empty_groups: pane == Pane::Active,
        hide_empty_ungrouped: true,
    }
}

impl Model {
    pub open spec fn listing(self, pane: Pane) -> Listing {
        Listing {
            sessions: self.sessions,
            groups: self.groups.groups,
            hits: rows::hits_of(self.sessions, self.groups.groups, self.query),
            ungrouped_collapsed: self.ungrouped_collapsed,
            rules: pane_rules(pane),
        }
    }

    /// The rows of a list.
    pub open spec fn rows_of(self, pane: Pane) -> Seq<VisibleRow> {
        self.listing(pane).rows()
    }

    /// The rows of the list that has the focus.
    pub open spec fn list(self) -> Seq<VisibleRow> {
        self.rows_of(self.focus)
    }

    /// The row under the cursor.
    pub open spec fn selected_row(self) -> Option<VisibleRow> {
        if 0 <= self.selected < self.list().len() {
            Some(self.list()[self.selected])
        } else {
            None
        }
    }

    pub open spec fn selected_session(self) -> Option<int> {
        match self.selected_row() {
            Some(VisibleRow::Session(i)) => Some(i as int),
            _ => None,
        }
    }

    pub open spec fn selected_header(self) -> Option<int> {
        match self.selected_row() {
            Some(VisibleRow::Group(header)) => Some(header as int),
            _ => None,
        }
    }

    /// The header of the session at `i`.
    pub open spec fn header_of(self, i: int) -> int {
        match groups::group_of(self.groups.groups, self.sessions[i].name) {
            Some(g) => g,
            None => self.groups.groups.len() as int,
        }
    }

    /// The header under the cursor, or that of the session under the cursor.
    pub open spec fn current_header(self) -> Option<int> {
        match self.selected_row() {
            Some(VisibleRow::Group(header)) => Some(header as int),
            Some(VisibleRow::Session(i)) => Some(self.header_of(i as int)),
            None => None,
        }
    }

    /// Whether the search leaves anything to list.
    pub open spec fn has_matches(self) -> bool {
        self.rows_of(Pane::All).len() > 0
    }

    /// The names of the marked sessions, in their order.
    pub open spec fn marked_names(self) -> Seq<Seq<char>> {
        marks::marked_names_from(self.sessions, self.marked, 0)
    }

    /// The sessions that an action applies to: the marked ones, or the one under the cursor.
    pub open spec fn target_names(self) -> Option<Seq<Seq<char>>> {
        if self.marked_names().len() > 0 {
            Some(self.marked_names())
        } else {
            match self.selected_session() {
                Some(i) => Some(seq![self.sessions[i].name]),
                None => None,
            }
        }
    }

    pub open spec fn with_status(self, status: Seq<char>) -> Model {
        Model { status, ..self }
    }

    pub open spec fn with_prompt(self, prompt: PromptView) -> Model {
        Model { prompt: Some(prompt), ..self }
    }

    /// The cursor on `row`, where it is listed.
    pub open spec fn row_selected(self, row: VisibleRow) -> Model {
        match rows::row_index_from(self.list(), row, 0) {
            Some(i) => Model { selected: i, ..self },
            None => self,
        }
    }

    /// The cursor on the session, where it is listed.
    pub open spec fn name_selected(self, name: Seq<char>) -> Model {
        match names::index_from(sessions::names_of(self.sessions), name, 0) {
            Some(i) => self.row_selected(VisibleRow::Session(i as usize)),
            None => self,
        }
    }

    /// Whether the answer to a question is one of those that can be chosen.
    pub open spec fn prompt_fits(self) -> bool {
        match self.prompt {
            Some(PromptView::Move { choice, .. }) => 0 <= choice <= prompts::last_option(
                self.groups.groups.len() as int,
            ),
            Some(PromptView::Action { choice }) => 0 <= choice < prompts::ACTION_COUNT,
            Some(PromptView::Help { index }) => 0 <= index < help::SHORTCUT_COUNT,
            Some(PromptView::Name { action: NameActionView::Rename(i), .. }) => 0 <= i,
            _ => true,
        }
    }

    /// What holds of the picker at all times: its question has an answer, and the screen leaves room to count.
    pub open spec fn wf(self) -> bool {
        self.prompt_fits() && self.rows < usize::MAX
    }
}

/// The index of the current session, or 0.
pub open spec fn current_from(s: Seq<SessionView>, i: int) -> int
    decreases s.len() - i,
{
    if i >= s.len() {
        0
    } else if s[i].is_current {
        i
    } else {
        current_from(s, i + 1)
    }
}

/// Where the cursor of a list starts: on the current session, or else on the first row.
pub open spec fn start_row(m: Model, pane: Pane) -> int {
    let row = VisibleRow::Session(current_from(m.sessions, 0) as usize);
    match rows::row_index_from(m.rows_of(pane), row, 0) {
        Some(i) => i,
        None => 0,
    }
}

/// The picker as it starts, without the places of its cursors.
pub open spec fn blank(sessions: Seq<SessionView>, groups: StateView, rows: int, cols: int) -> Model {
    Model {
        sessions,
        groups,
        marked: Set::empty(),
        focus: Pane::Active,
        selected: 0,
        top: 0,
        parked_selected: 0,
        parked_top: 0,
        rows,
        cols,
        status: Seq::empty(),
        query: Seq::empty(),
        searching: false,
        ungrouped_collapsed: false,
        prompt: None,
        last_click: None,
    }
}

/// The picker as it starts: with the focus on `Active`.
pub open spec fn started(sessions: Seq<SessionView>, groups: StateView, rows: int, cols: int) -> Model {
    let m = blank(sessions, groups, rows, cols);
    Model { selected: start_row(m, Pane::Active), parked_selected: start_row(m, Pane::All), ..m }
}

fn current_index(sessions: &Vec<Session>) -> (r: usize)
    ensures
        r == current_from(sessions::session_views(sessions@), 0),
{
    let ghost s = sessions::session_views(sessions@);
    let mut i: usize = 0;
    while i < sessions.len()
        invariant
            i <= sessions.len(),
            s == sessions::session_views(sessions@),
            current_from(s, 0) == current_from(s, i as int),
        decreases sessions.len() - i,
    {
        assert(s[i as int] == sessions@[i as int]@);
        if sessions[i].is_current {
            return i;
        }
        i += 1;
    }
    0
}

impl App {
    /// The picker as it starts, for these sessions and for what came of reading the
    /// group file. Where the sessions stand as they are listed and the groups'
    /// names are ASCII texts, it starts sound. No groups are made up where the file
    /// could not be read or is refused.
    pub fn start(sessions: Vec<Session>, read: FileRead, rows: usize, cols: usize) -> (r: Result<App, String>)
        requires
            rows < usize::MAX,
        ensures
            match group_file::state_from(read) {
                Ok(state) => r matches Ok(app) && {
                    &&& app@ == started(sessions::session_views(sessions@), state, rows as int, cols as int)
                    &&& app@.wf()
                    &&& group_file::file_names_are_sound(state.groups)
                    &&& sessions::is_arranged(sessions::session_views(sessions@)) && group_file::names_are_ascii(
                        state.groups,
                    ) ==> app@.sound()
                },
                Err(why) => r matches Err(e) && e@ == "failed to load groups: "@ + why,
            },
    {
        proof {
            if sessions::is_arranged(sessions::session_views(sessions@)) {
                soundness::starting_is_sound(
                    sessions::session_views(sessions@),
                    read,
                    rows as int,
                    cols as int,
                );
            }
        }
        match GroupState::load(read) {
            Err(why) => {
                let mut words = "failed to load groups: ".to_owned();
                words.append(&why);
                Err(words)
            },
            Ok(groups) => Ok(App::new(sessions, groups, rows, cols)),
        }
    }

    /// The picker as it starts, for these sessions and groups on a screen of this size.
    pub fn new(sessions: Vec<Session>, groups: GroupState, rows: usize, cols: usize) -> (r: App)
        requires
            rows < usize::MAX,
        ensures
            r@ == started(sessions::session_views(sessions@), groups@, rows as int, cols as int),
            r@.wf(),
    {
        let current: usize = current_index(&sessions);
        let mut app = App {
            sessions,
            groups,
            selected_sessions: NameSet::new(),
            focus: Pane::Active,
            selected: 0,
            top: 0,
            parked_selected: 0,
            parked_top: 0,
            rows,
            cols,
            status: String::new(),
            query: String::new(),
            searching: false,
            ungrouped_collapsed: false,
            prompt: None,
            last_click: None,
        };
        let ghost m = app@;
        assert(m == blank(sessions::session_views(sessions@), groups@, rows as int, cols as int));
        let row = VisibleRow::Session(current);
        let active = app.rows_in(Pane::Active);
        let all = app.rows_in(Pane::All);
        app.selected = match rows::row_position(&active, row) {
            Some(i) => i,
            None => 0,
        };
        app.parked_selected = match rows::row_position(&all, row) {
            Some(i) => i,
            None => 0,
        };
        app
    }

    /// The rows of a list.
    pub fn rows_in(&self, pane: Pane) -> (r: Vec<VisibleRow>)
        ensures
            r@ == self@.rows_of(pane),
            forall|k: int|
                0 <= k < r.len() ==> rows::row_exists(
                    #[trigger] r@[k],
                    self.sessions.len() as int,
                    self@.groups.groups.len() as int,
                ),
    {
        let rules = RowRules {
            pinned_only: pane == Pane::Active,
            hide_empty_groups: pane == Pane::Active,
            hide_empty_ungrouped: true,
        };
        rows::build_rows(&self.sessions, &self.groups, &self.query, self.ungrouped_collapsed, rules)
    }

    /// The rows of the list that has the focus.
    pub fn visible_rows(&self) -> (r: Vec<VisibleRow>)
        ensures
            r@ == self@.list(),
            forall|k: int|
                0 <= k < r.len() ==> rows::row_exists(
                    #[trigger] r@[k],
                    self.sessions.len() as int,
                    self@.groups.groups.len() as int,
                ),
    {
        self.rows_in(self.focus)
    }

    /// The row under the cursor.
    pub fn selected_row(&self) -> (r: Option<VisibleRow>)
        ensures
            r == self@.selected_row(),
            r matches Some(row) ==> rows::row_exists(
                row,
                self.sessions.len() as int,
                self@.groups.groups.len() as int,
            ),
    {
        let rows = self.visible_rows();
        if self.selected < rows.len() {
            Some(rows[self.selected])
        } else {
            None
        }
    }

    /// The session under the cursor.
    pub fn selected_session_index(&self) -> (r: Option<usize>)
        ensures
            groups::index_view(r) == self@.selected_session(),
            r matches Some(i) ==> i < self.sessions.len() && self@.selected_row() == Some(VisibleRow::Session(i)),
    {
        match self.selected_row() {
            Some(VisibleRow::Session(index)) => Some(index),
            _ => None,
        }
    }

    /// The header under the cursor.
    pub fn selected_group_index(&self) -> (r: Option<usize>)
        ensures
            groups::index_view(r) == self@.selected_header(),
            r matches Some(header) ==> header <= self@.groups.groups.len(),
    {
        match self.selected_row() {
            Some(VisibleRow::Group(index)) => Some(index),
            _ => None,
        }
    }

    /// The header under the cursor, or that of the session under the cursor.
    pub(crate) fn current_group_index(&self) -> (r: Option<usize>)
        ensures
            groups::index_view(r) == self@.current_header(),
            r matches Some(header) ==> header <= self@.groups.groups.len(),
    {
        match self.selected_row() {
            Some(VisibleRow::Group(index)) => Some(index),
            Some(VisibleRow::Session(index)) => {
                assert(self@.sessions[index as int] == self.sessions@[index as int]@);
                match self.groups.group_for_session(&self.sessions[index].name) {
                    Some(group) => Some(group),
                    None => Some(self.groups.groups.len()),
                }
            },
            None => None,
        }
    }

    /// Puts the cursor on `target`, where it is listed.
    pub fn select_row(&mut self, target: VisibleRow)
        ensures
            final(self)@ == old(self)@.row_selected(target),
    {
        let rows = self.visible_rows();
        if let Some(index) = rows::row_position(&rows, target) {
            self.selected = index;
        }
    }

    /// Puts the cursor on the session, where it is listed.
    pub fn select_session_by_name(&mut self, name: &str)
        ensures
            final(self)@ == old(self)@.name_selected(name@),
    {
        let all = marks::session_names(&self.sessions);
        if let Some(index) = names::position(&all, name) {
            self.select_row(VisibleRow::Session(index));
        }
    }

    /// Whether the search leaves anything to list.
    pub fn has_matches(&self) -> (r: bool)
        ensures
            r == self@.has_matches(),
    {
        self.rows_in(Pane::All).len() > 0
    }

    /// The names of the marked sessions, in their order.
    pub fn selected_live_session_names(&self) -> (r: Vec<String>)
        ensures
            text::views(r@) == self@.marked_names(),
    {
        marks::marked_names(&self.sessions, &self.selected_sessions)
    }

    /// The sessions that an action applies to: the marked ones, or the one under the cursor.
    pub fn target_session_names(&self) -> (r: Option<Vec<String>>)
        ensures
            match self@.target_names() {
                Some(names) => r matches Some(v) && text::views(v@) == names,
                None => r is None,
            },
    {
        let marked = self.selected_live_session_names();
        if marked.len() > 0 {
            return Some(marked);
        }
        match self.selected_session_index() {
            Some(index) => {
                let mut one: Vec<String> = Vec::new();
                one.push(self.sessions[index].name.clone());
                assert(text::views(one@) =~= seq![self@.sessions[index as int].name]);
                Some(one)
            },
            None => None,
        }
    }

    /// The marked sessions that may be killed, and how many marked ones may not.
    pub fn killable_selected_session_names(&self) -> (r: (Vec<String>, usize))
        ensures
            text::views(r.0@) == marks::killable_names_from(self@.sessions, self@.marked, 0),
            r.1 == marks::marked_current_from(self@.sessions, self@.marked, 0),
    {
        marks::killable_names(&self.sessions, &self.selected_sessions)
    }
}

impl Model {
    /// Whether what is listed can be counted.
    pub open spec fn is_countable(self) -> bool {
        self.sessions.len() <= usize::MAX && self.groups.groups.len() <= usize::MAX
    }
}

/// `All` shows every session: where nothing is searched for and no group is
/// collapsed, each session has a row, and just one.
pub proof fn all_shows_every_session(m: Model, i: int)
    requires
        m.is_countable(),
        m.query.len() == 0,
        !m.ungrouped_collapsed,
        forall|g: int| 0 <= g < m.groups.groups.len() ==> !(#[trigger] m.groups.groups[g]).collapsed,
        0 <= i < m.sessions.len(),
    ensures
        m.rows_of(Pane::All).contains(VisibleRow::Session(i as usize)),
        m.rows_of(Pane::All).no_duplicates(),
{
    let l = m.listing(Pane::All);
    groups::lemma_group_from(l.groups, l.sessions[i].name, 0);
    rows::every_session_is_listed(l, i);
    rows::rows_are_listed_once(l);
}

/// `Active` shows the pinned sessions and no others: where nothing is searched for
/// and no group is collapsed, just the pinned sessions have rows.
pub proof fn active_shows_pinned_sessions(m: Model, i: int)
    requires
        m.is_countable(),
        m.query.len() == 0,
        !m.ungrouped_collapsed,
        forall|g: int| 0 <= g < m.groups.groups.len() ==> !(#[trigger] m.groups.groups[g]).collapsed,
        0 <= i < m.sessions.len(),
    ensures
        m.rows_of(Pane::Active).contains(VisibleRow::Session(i as usize)) <==> m.sessions[i].pinned,
        m.rows_of(Pane::Active).no_duplicates(),
{
    let l = m.listing(Pane::Active);
    groups::lemma_group_from(l.groups, l.sessions[i].name, 0);
    rows::rows_are_listed_once(l);
    assert(l.lists(VisibleRow::Session(i as usize)) <==> m.sessions[i].pinned);
}

/// Whatever is searched for and collapsed, `Active` has no session that is not
/// pinned and no group without a pinned session, and every row of `Active` is a
/// row of `All`.
pub proof fn active_is_part_of_all(m: Model)
    requires
        m.is_countable(),
    ensures
        forall|i: usize| #[trigger]
            m.rows_of(Pane::Active).contains(VisibleRow::Session(i)) ==> m.sessions[i as int].pinned,
        forall|header: usize| #[trigger]
            m.rows_of(Pane::Active).contains(VisibleRow::Group(header)) ==> exists|i: int|
                0 <= i < m.sessions.len() && m.header_of(i) == header && (#[trigger] m.sessions[i]).pinned,
        forall|row: VisibleRow| #[trigger]
            m.rows_of(Pane::Active).contains(row) ==> m.rows_of(Pane::All).contains(row),
{
    let active = m.listing(Pane::Active);
    let all = m.listing(Pane::All);
    rows::only_pinned_are_listed(active);
    assert forall|header: usize| #[trigger] m.rows_of(Pane::Active).contains(VisibleRow::Group(header)) implies exists|
        i: int,
    |
        0 <= i < m.sessions.len() && m.header_of(i) == header && (#[trigger] m.sessions[i]).pinned by {
        let i = choose|i: int|
            0 <= i < active.sessions.len() && active.header_of(i) == header && (#[trigger] active.sessions[i]).pinned;
        assert(m.header_of(i) == header && m.sessions[i].pinned);
    }
    rows::rows_are_listed_once(active);
    rows::rows_are_listed_once(all);
    assert forall|row: VisibleRow| #[trigger] m.rows_of(Pane::Active).contains(row) implies m.rows_of(
        Pane::All,
    ).contains(row) by {
        assert(active.lists(row));
        if let VisibleRow::Group(header) = row {
            rows::fewer_members(active, all, header as int);
        }
        assert(all.lists(row));
    }
}

/// No list has a header for sessions without a group where there are none.
pub proof fn empty_ungrouped_is_hidden(m: Model, pane: Pane)
    requires
        m.is_countable(),
        forall|i: int|
            0 <= i < m.sessions.len() ==> groups::group_of(m.groups.groups, (#[trigger] m.sessions[i]).name) is Some,
    ensures
        !m.rows_of(pane).contains(VisibleRow::Group(m.groups.groups.len() as usize)),
{
    rows::empty_ungrouped_has_no_row(m.listing(pane));
}

/// Putting the cursor on a row puts it there just where the row is listed.
pub proof fn listed_row_can_be_selected(m: Model, row: VisibleRow)
    ensures
        m.list().contains(row) ==> m.row_selected(row).selected_row() == Some(row),
        !m.list().contains(row) ==> m.row_selected(row) == m,
{
    rows::lemma_row_index(m.list(), row, 0);
    assert(m.row_selected(row).listing(m.focus) == m.listing(m.focus));
    if m.list().contains(row) {
        let k = m.list().index_of(row);
        assert(m.list()[k] == row);
    }
}

} // verus!
