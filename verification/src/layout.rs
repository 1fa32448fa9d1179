//! Where things are on the screen.

use vstd::prelude::*;
use vstd::string::*;

use crate::groups::{Group, GroupView};
use crate::navigation;
use crate::picker::{App, Model, Pane};
use crate::sessions::{Session, SessionView};

verus! {

pub const MIN_NAME_WIDTH: usize = 16;

pub const ACTIVITY_WIDTH: usize = 4;

/// What a row needs beyond a name that is longer than the shortest.
pub const FIXED_WIDTH: usize = 34;

/// Where the parts of a list are. Columns and rows count from 1.
#[derive(Clone, Copy, Debug, PartialEq, Eq, Structural)]
pub struct Layout {
    pub table_col: usize,
    pub name_width: usize,
    pub activity_width: usize,
    pub list_row_start: usize,
    pub blank_row: usize,
    pub status_row: usize,
}

pub struct LayoutView {
    pub table_col: int,
    pub name_width: int,
    pub activity_width: int,
    pub list_row_start: int,
    pub blank_row: int,
    pub status_row: int,
}

impl View for Layout {
    type V = LayoutView;

    open spec fn view(&self) -> LayoutView {
        LayoutView {
            table_col: self.table_col as int,
            name_width: self.name_width as int,
            activity_width: self.activity_width as int,
            list_row_start: self.list_row_start as int,
            blank_row: self.blank_row as int,
            status_row: self.status_row as int,
        }
    }
}

/// The longest name of a session from index `i` on.
pub open spec fn longest_session(s: Seq<SessionView>, i: int) -> int
    decreases s.len() - i,
{
    if i >= s.len() {
        0
    } else {
        at_least(s[i].name.len() as int, longest_session(s, i + 1))
    }
}

/// The longest name of a group from index `i` on.
pub open spec fn longest_group(g: Seq<GroupView>, i: int) -> int
    decreases g.len() - i,
{
    if i >= g.len() {
        0
    } else {
        at_least(g[i].name.len() as int, longest_group(g, i + 1))
    }
}

pub open spec fn at_least(n: int, limit: int) -> int {
    if n > limit {
        n
    } else {
        limit
    }
}

impl Model {
    /// How many columns belong to `Active`: half of them, or none where it has no rows.
    pub open spec fn active_cols(self) -> int {
        if self.rows_of(Pane::Active).len() == 0 {
            0
        } else {
            self.cols / 2
        }
    }

    /// The list in a column.
    pub open spec fn pane_at(self, col: int) -> Pane {
        if col <= self.active_cols() {
            Pane::Active
        } else {
            Pane::All
        }
    }

    /// The first column of a list.
    pub open spec fn pane_col(self, pane: Pane) -> int {
        match pane {
            Pane::Active => 1,
            Pane::All => self.active_cols() + 1,
        }
    }

    /// How wide the rows of a list can be. `Active` keeps a column free beside it.
    pub open spec fn pane_width(self, pane: Pane) -> int {
        match pane {
            Pane::Active => at_least(self.active_cols() - 1, 0),
            Pane::All => self.cols - self.active_cols(),
        }
    }

    /// How many rows the lists have on the screen: as many as the longer one, if they fit.
    pub open spec fn list_height(self) -> int {
        let longer = at_least(self.rows_of(Pane::Active).len() as int, self.rows_of(Pane::All).len() as int);
        navigation::at_most(self.viewport(), at_least(longer, 1))
    }

    /// The column of names: as wide as the longest name, if that fits, and never very narrow.
    pub open spec fn name_width(self, pane: Pane) -> int {
        let longest = at_least(longest_session(self.sessions, 0), longest_group(self.groups.groups, 0));
        let room = at_least(self.pane_width(pane) - FIXED_WIDTH, MIN_NAME_WIDTH as int);
        navigation::at_most(room, at_least(longest, MIN_NAME_WIDTH as int))
    }

    /// Where the first row of the lists is. The rows end two rows above the end of the screen.
    pub open spec fn list_row_start(self) -> int {
        at_least(self.rows - (self.list_height() + 2), 0) + 1
    }

    /// Where the parts of a list are.
    pub open spec fn layout_of(self, pane: Pane) -> LayoutView {
        LayoutView {
            table_col: self.pane_col(pane),
            name_width: self.name_width(pane),
            activity_width: ACTIVITY_WIDTH as int,
            list_row_start: self.list_row_start(),
            blank_row: self.list_row_start() + self.list_height(),
            status_row: self.list_row_start() + self.list_height() + 1,
        }
    }
}

fn longest_session_name(sessions: &Vec<Session>) -> (r: usize)
    ensures
        r == longest_session(crate::sessions::session_views(sessions@), 0),
{
    let ghost s = crate::sessions::session_views(sessions@);
    let mut longest: usize = 0;
    let mut i: usize = sessions.len();
    while i > 0
        invariant
            i <= sessions.len(),
            s == crate::sessions::session_views(sessions@),
            longest == longest_session(s, i as int),
        decreases i,
    {
        i -= 1;
        assert(s[i as int] == sessions@[i as int]@);
        let width: usize = sessions[i].name.as_str().unicode_len();
        if width > longest {
            longest = width;
        }
    }
    longest
}

fn longest_group_name(groups: &Vec<Group>) -> (r: usize)
    ensures
        r == longest_group(crate::groups::group_views(groups@), 0),
{
    let ghost g = crate::groups::group_views(groups@);
    let mut longest: usize = 0;
    let mut i: usize = groups.len();
    while i > 0
        invariant
            i <= groups.len(),
            g == crate::groups::group_views(groups@),
            longest == longest_group(g, i as int),
        decreases i,
    {
        i -= 1;
        assert(g[i as int] == groups@[i as int]@);
        let width: usize = groups[i].name.as_str().unicode_len();
        if width > longest {
            longest = width;
        }
    }
    longest
}

impl App {
    /// How many columns belong to `Active`.
    pub(crate) fn active_cols(&self) -> (r: usize)
        ensures
            r == self@.active_cols(),
            r <= self.cols / 2,
    {
        if self.rows_in(Pane::Active).len() == 0 {
            0
        } else {
            self.cols / 2
        }
    }

    /// The list in a column of the screen.
    pub fn pane_at(&self, col: usize) -> (r: Pane)
        ensures
            r == self@.pane_at(col as int),
    {
        if col <= self.active_cols() {
            Pane::Active
        } else {
            Pane::All
        }
    }

    /// How wide the rows of a list can be.
    pub(crate) fn pane_width(&self, pane: Pane) -> (r: usize)
        ensures
            r == self@.pane_width(pane),
    {
        match pane {
            Pane::Active => self.active_cols().saturating_sub(1),
            Pane::All => self.cols - self.active_cols(),
        }
    }

    /// How many rows the lists have on the screen.
    pub fn visible_list_height(&self) -> (r: usize)
        ensures
            r == self@.list_height(),
            1 <= r <= self@.viewport(),
    {
        let height: usize = self.viewport_height();
        let active: usize = self.rows_in(Pane::Active).len();
        let all: usize = self.rows_in(Pane::All).len();
        let longer: usize = if active > all { active } else { all };
        let wanted: usize = if longer > 1 { longer } else { 1 };
        if height < wanted {
            height
        } else {
            wanted
        }
    }

    /// Where the parts of a list are.
    pub fn layout_of(&self, pane: Pane) -> (r: Layout)
        requires
            self.rows < usize::MAX,
        ensures
            r@ == self@.layout_of(pane),
            r.status_row < usize::MAX,
            1 <= r.table_col <= self.cols / 2 + 1,
            1 <= r.list_row_start,
    {
        let table_col: usize = match pane {
            Pane::Active => 1,
            Pane::All => self.active_cols() + 1,
        };
        let sessions: usize = longest_session_name(&self.sessions);
        let groups: usize = longest_group_name(&self.groups.groups);
        let longest: usize = if sessions > groups { sessions } else { groups };
        let limit: usize = if longest > MIN_NAME_WIDTH { longest } else { MIN_NAME_WIDTH };
        let room: usize = self.pane_width(pane).saturating_sub(FIXED_WIDTH);
        let room: usize = if room > MIN_NAME_WIDTH { room } else { MIN_NAME_WIDTH };
        let name_width: usize = if room < limit { room } else { limit };
        let list_height: usize = self.visible_list_height();
        let list_row_start: usize = self.rows.saturating_sub(list_height + 2) + 1;
        Layout {
            table_col,
            name_width,
            activity_width: ACTIVITY_WIDTH,
            list_row_start,
            blank_row: list_row_start + list_height,
            status_row: list_row_start + list_height + 1,
        }
    }

    /// Where the parts of the list that has the focus are.
    pub fn layout(&self) -> (r: Layout)
        requires
            self.rows < usize::MAX,
        ensures
            r@ == self@.layout_of(self@.focus),
            r.status_row < usize::MAX,
            1 <= r.table_col <= self.cols / 2 + 1,
            1 <= r.list_row_start,
    {
        self.layout_of(self.focus)
    }
}

/// The two lists are beside each other: they have every column of the screen
/// between them and none in common, and each starts in a column of its own where
/// it has any.
pub proof fn lists_share_the_screen(m: Model, col: int)
    requires
        m.cols >= 1,
        1 <= col <= m.cols,
    ensures
        m.pane_at(col) == Pane::Active <==> col < m.pane_col(Pane::All),
        m.pane_at(m.pane_col(Pane::All)) == Pane::All,
        m.active_cols() > 0 ==> m.pane_at(m.pane_col(Pane::Active)) == Pane::Active,
        m.pane_col(Pane::All) + m.pane_width(Pane::All) == m.cols + 1,
        m.pane_col(Pane::Active) + m.pane_width(Pane::Active) <= m.pane_col(Pane::All) || m.active_cols() == 0,
{
}

/// The lists, a blank row and the status row fit on a screen with at least three rows.
pub proof fn lists_fit_the_screen(m: Model)
    requires
        m.rows >= 3,
    ensures
        1 <= m.list_row_start(),
        m.list_height() >= 1,
        m.layout_of(m.focus).status_row <= m.rows,
{
}

/// The lists are equally wide, but for one column. The status is in the last row of
/// the screen, with a blank row between it and the lists. Where a list has no more
/// rows than the screen leaves it, all of them are shown.
pub proof fn lists_use_the_screen(m: Model, pane: Pane)
    requires
        m.rows >= 6,
        m.cols >= 2,
    ensures
        m.rows_of(Pane::Active).len() > 0 ==> 0 <= m.pane_width(Pane::All) - (m.pane_width(Pane::Active) + 1) <= 1,
        m.rows_of(Pane::Active).len() == 0 ==> m.pane_col(Pane::All) == 1 && m.pane_width(Pane::All) == m.cols,
        m.layout_of(pane).status_row == m.rows,
        m.layout_of(pane).blank_row == m.rows - 1,
        m.layout_of(pane).list_row_start + m.list_height() == m.rows - 1,
        m.rows_of(pane).len() <= m.rows - 4 ==> m.rows_of(pane).len() <= m.list_height(),
        m.list_height() <= m.rows - 4,
{
}

} // verus!
