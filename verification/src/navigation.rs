//! Moving the cursor, the focus, and the visible part of a list.

use vstd::prelude::*;

use crate::picker::{App, Model, Pane};
use crate::rows;

verus! {

/// How many rows a list can have on a screen with `rows` rows.
pub open spec fn viewport(rows: int) -> int {
    if rows > 5 {
        rows - 4
    } else {
        1
    }
}

pub open spec fn at_most(n: int, limit: int) -> int {
    if n < limit {
        n
    } else {
        limit
    }
}

/// The cursor and the first visible row of a list with `count` rows, after the
/// cursor was put on a row and the list was scrolled as little as this needs.
pub open spec fn kept_visible(selected: int, top: int, count: int, height: int) -> (int, int) {
    let cursor = at_most(selected, count - 1);
    if count == 0 {
        (0, 0)
    } else if cursor < top {
        (cursor, cursor)
    } else if cursor >= top + height {
        (cursor, cursor + 1 - height)
    } else {
        (cursor, top)
    }
}

/// The cursor and the first visible row of a list with `count` rows, of which
/// `height` are visible, after it was scrolled by `delta`.
pub open spec fn scrolled(selected: int, top: int, count: int, height: int, delta: int) -> (int, int) {
    let shown = at_most(height, count);
    let wanted = if top + delta > 0 { top + delta } else { 0 };
    let start = at_most(wanted, count - shown);
    let cursor = at_most(selected, count - 1);
    if count == 0 {
        (0, 0)
    } else if cursor < start {
        (start, start)
    } else {
        (at_most(cursor, start + shown - 1), start)
    }
}

impl Model {
    pub open spec fn viewport(self) -> int {
        viewport(self.rows)
    }

    /// The cursor on `row`, where there is one.
    pub open spec fn cursor_on(self, row: Option<int>) -> Model {
        match row {
            Some(i) => Model { selected: i, ..self },
            None => self,
        }
    }

    /// The cursor on the session above.
    pub open spec fn moved_up(self) -> Model {
        self.cursor_on(rows::session_row_before(self.list(), at_most(self.selected, self.list().len() as int)))
    }

    /// The cursor on the session below.
    pub open spec fn moved_down(self) -> Model {
        self.cursor_on(rows::session_row_from(self.list(), self.selected + 1))
    }

    /// The cursor on the header above.
    pub open spec fn moved_to_group_above(self) -> Model {
        self.cursor_on(rows::group_row_before(self.list(), at_most(self.selected, self.list().len() as int)))
    }

    /// The cursor on the header below.
    pub open spec fn moved_to_group_below(self) -> Model {
        self.cursor_on(rows::group_row_from(self.list(), self.selected + 1))
    }

    /// The cursor on the first session.
    pub open spec fn jumped_first(self) -> Model {
        Model { selected: rows::first_session_row(self.list()), ..self }
    }

    /// The cursor on the last session, or else on the last row.
    pub open spec fn jumped_last(self) -> Model {
        let count = self.list().len() as int;
        match rows::session_row_before(self.list(), count) {
            Some(i) => Model { selected: i, ..self },
            None => Model { selected: if count > 0 { count - 1 } else { 0 }, ..self },
        }
    }

    /// The cursor on the first session that the search leaves, with the list at its
    /// start. Where the search leaves nothing in the list that has the focus it goes on in `All`.
    pub open spec fn first_match_selected(self) -> Model {
        let m = if self.list().len() == 0 { self.focused(Pane::All) } else { self };
        Model { selected: rows::first_session_row(m.list()), top: 0, ..m }
    }

    /// The focus on a list. Each list keeps its own cursor.
    pub open spec fn focused(self, pane: Pane) -> Model {
        if pane == self.focus {
            self
        } else {
            Model {
                focus: pane,
                selected: self.parked_selected,
                top: self.parked_top,
                parked_selected: self.selected,
                parked_top: self.top,
                last_click: None,
                ..self
            }
        }
    }

    /// Both cursors on rows that are visible.
    pub open spec fn made_visible(self) -> Model {
        let other = if self.focus == Pane::Active { Pane::All } else { Pane::Active };
        let here = kept_visible(self.selected, self.top, self.list().len() as int, self.viewport());
        let there = kept_visible(
            self.parked_selected,
            self.parked_top,
            self.rows_of(other).len() as int,
            self.viewport(),
        );
        Model { selected: here.0, top: here.1, parked_selected: there.0, parked_top: there.1, ..self }
    }

    /// The list scrolled by `delta` rows.
    pub open spec fn scrolled_by(self, delta: int) -> Model {
        let place = scrolled(self.selected, self.top, self.list().len() as int, self.viewport(), delta);
        Model { selected: place.0, top: place.1, ..self }
    }
}

fn keep_visible(selected: usize, top: usize, count: usize, height: usize) -> (r: (usize, usize))
    requires
        height > 0,
    ensures
        (r.0 as int, r.1 as int) == kept_visible(selected as int, top as int, count as int, height as int),
{
    if count == 0 {
        return (0, 0);
    }
    let cursor: usize = if selected < count - 1 { selected } else { count - 1 };
    if cursor < top {
        (cursor, cursor)
    } else if cursor - top >= height {
        (cursor, cursor - (height - 1))
    } else {
        (cursor, top)
    }
}

impl App {
    /// How many rows a list can have on the screen.
    pub fn viewport_height(&self) -> (r: usize)
        ensures
            r == self@.viewport(),
            r > 0,
    {
        if self.rows > 5 {
            self.rows - 4
        } else {
            1
        }
    }

    /// Puts the cursor on the session above.
    pub fn move_up(&mut self)
        ensures
            final(self)@ == old(self)@.moved_up(),
    {
        let rows = self.visible_rows();
        let end: usize = if self.selected < rows.len() { self.selected } else { rows.len() };
        if let Some(index) = rows::previous_session_row(&rows, end) {
            self.selected = index;
        }
    }

    /// Puts the cursor on the session below.
    pub fn move_down(&mut self)
        ensures
            final(self)@ == old(self)@.moved_down(),
    {
        let rows = self.visible_rows();
        if self.selected < rows.len() {
            if let Some(index) = rows::next_session_row(&rows, self.selected + 1) {
                self.selected = index;
            }
        }
    }

    /// Puts the cursor on the header above.
    pub fn move_to_previous_group(&mut self)
        ensures
            final(self)@ == old(self)@.moved_to_group_above(),
    {
        let rows = self.visible_rows();
        let end: usize = if self.selected < rows.len() { self.selected } else { rows.len() };
        if let Some(index) = rows::previous_group_row(&rows, end) {
            self.selected = index;
        }
    }

    /// Puts the cursor on the header below.
    pub fn move_to_next_group(&mut self)
        ensures
            final(self)@ == old(self)@.moved_to_group_below(),
    {
        let rows = self.visible_rows();
        if self.selected < rows.len() {
            if let Some(index) = rows::next_group_row(&rows, self.selected + 1) {
                self.selected = index;
            }
        }
    }

    /// Puts the cursor on the first session.
    pub fn jump_first(&mut self)
        ensures
            final(self)@ == old(self)@.jumped_first(),
    {
        let rows = self.visible_rows();
        self.selected = rows::first_session_row_position(&rows);
    }

    /// Puts the cursor on the last session, or else on the last row.
    pub fn jump_last(&mut self)
        ensures
            final(self)@ == old(self)@.jumped_last(),
    {
        let rows = self.visible_rows();
        self.selected = match rows::previous_session_row(&rows, rows.len()) {
            Some(index) => index,
            None => if rows.len() > 0 {
                rows.len() - 1
            } else {
                0
            },
        };
    }

    /// Puts the cursor on the first session that the search leaves, with the list at its start.
    pub fn select_first_match(&mut self)
        ensures
            final(self)@ == old(self)@.first_match_selected(),
    {
        if self.visible_rows().len() == 0 {
            self.focus_on(Pane::All);
        }
        let rows = self.visible_rows();
        self.selected = rows::first_session_row_position(&rows);
        self.top = 0;
    }

    /// Gives a list the focus.
    pub fn focus_on(&mut self, pane: Pane)
        ensures
            final(self)@ == old(self)@.focused(pane),
    {
        if pane != self.focus {
            let selected: usize = self.selected;
            let top: usize = self.top;
            self.focus = pane;
            self.selected = self.parked_selected;
            self.top = self.parked_top;
            self.parked_selected = selected;
            self.parked_top = top;
            self.last_click = None;
        }
    }

    /// Puts both cursors on rows that are visible.
    pub fn ensure_visible(&mut self)
        ensures
            final(self)@ == old(self)@.made_visible(),
    {
        let other = match self.focus {
            Pane::Active => Pane::All,
            Pane::All => Pane::Active,
        };
        let height: usize = self.viewport_height();
        let here = keep_visible(self.selected, self.top, self.visible_rows().len(), height);
        let there = keep_visible(self.parked_selected, self.parked_top, self.rows_in(other).len(), height);
        self.selected = here.0;
        self.top = here.1;
        self.parked_selected = there.0;
        self.parked_top = there.1;
    }

    /// Scrolls the list that has the focus by `delta` rows.
    pub fn scroll_visible_rows(&mut self, delta: isize)
        ensures
            final(self)@ == old(self)@.scrolled_by(delta as int),
    {
        let count: usize = self.visible_rows().len();
        if count == 0 {
            self.selected = 0;
            self.top = 0;
            return;
        }
        let height: usize = self.viewport_height();
        let shown: usize = if height < count { height } else { count };
        let last: usize = count - shown;
        let wanted: usize = if delta < 0 {
            self.top.saturating_sub((-(delta + 1)) as usize + 1)
        } else {
            self.top.saturating_add(delta as usize)
        };
        let start: usize = if wanted < last { wanted } else { last };
        let cursor: usize = if self.selected < count - 1 { self.selected } else { count - 1 };
        self.top = start;
        self.selected = if cursor < start {
            start
        } else if cursor < start + (shown - 1) {
            cursor
        } else {
            start + (shown - 1)
        };
    }
}

/// Switching the focus to the other list and back changes nothing but that the last click is forgotten.
pub proof fn focus_returns(m: Model, pane: Pane)
    ensures
        m.focused(pane).focused(m.focus) == (Model {
            last_click: if pane == m.focus { m.last_click } else { None },
            ..m
        }),
{
}

/// Whether a cursor stands on a visible row, or at the start of a list without rows.
pub open spec fn is_visible(selected: int, top: int, count: int, height: int) -> bool {
    if count == 0 {
        selected == 0 && top == 0
    } else {
        0 <= top <= selected < count && selected < top + height
    }
}

/// After `made_visible` both cursors stand on visible rows, and doing it again changes nothing.
pub proof fn cursors_are_visible(m: Model)
    requires
        0 <= m.selected,
        0 <= m.top,
        0 <= m.parked_selected,
        0 <= m.parked_top,
    ensures
        ({
            let v = m.made_visible();
            let other = if m.focus == Pane::Active { Pane::All } else { Pane::Active };
            &&& is_visible(v.selected, v.top, v.list().len() as int, v.viewport())
            &&& is_visible(v.parked_selected, v.parked_top, v.rows_of(other).len() as int, v.viewport())
            &&& v.made_visible() == v
        }),
{
    let v = m.made_visible();
    assert(v.listing(Pane::Active) == m.listing(Pane::Active));
    assert(v.listing(Pane::All) == m.listing(Pane::All));
}

/// Scrolling leaves the cursor on a visible row, and the list without an empty rest on the screen.
pub proof fn scrolling_keeps_cursor_visible(m: Model, delta: int)
    requires
        0 <= m.selected,
        0 <= m.top,
    ensures
        ({
            let v = m.scrolled_by(delta);
            let count = v.list().len() as int;
            &&& is_visible(v.selected, v.top, count, v.viewport())
            &&& v.top == 0 || v.top + v.viewport() <= count
        }),
{
    assert(m.scrolled_by(delta).listing(m.focus) == m.listing(m.focus));
}

/// The keys that move the cursor skip headers: it goes to the nearest session
/// above or below, over headers only, or stays where there is none.
pub proof fn moving_skips_headers(m: Model)
    requires
        0 <= m.selected < m.list().len(),
    ensures
        ({
            let up = m.moved_up();
            let list = m.list();
            &&& up == m || 0 <= up.selected < m.selected && list[up.selected] is Session
            &&& forall|j: int|
                (if up == m { -1 } else { up.selected }) < j < m.selected ==> (#[trigger] list[j]) is Group
        }),
        ({
            let down = m.moved_down();
            let list = m.list();
            &&& down == m || m.selected < down.selected < list.len() && list[down.selected] is Session
            &&& forall|j: int|
                m.selected < j < (if down == m { list.len() as int } else { down.selected }) ==> (#[trigger] list[j])
                    is Group
        }),
{
    rows::lemma_nearest_session(m.list(), m.selected);
    rows::lemma_nearest_session(m.list(), m.selected + 1);
}

/// The keys that move between headers go to the nearest header above or below,
/// over sessions only, or nowhere where there is none.
pub proof fn group_keys_find_headers(m: Model)
    requires
        0 <= m.selected < m.list().len(),
    ensures
        ({
            let up = m.moved_to_group_above();
            let list = m.list();
            &&& up == m || 0 <= up.selected < m.selected && list[up.selected] is Group
            &&& forall|j: int|
                (if up == m { -1 } else { up.selected }) < j < m.selected ==> (#[trigger] list[j]) is Session
        }),
        ({
            let down = m.moved_to_group_below();
            let list = m.list();
            &&& down == m || m.selected < down.selected < list.len() && list[down.selected] is Group
            &&& forall|j: int|
                m.selected < j < (if down == m { list.len() as int } else { down.selected }) ==> (#[trigger] list[j])
                    is Session
        }),
{
    rows::lemma_nearest_group(m.list(), m.selected);
    rows::lemma_nearest_group(m.list(), m.selected + 1);
}

/// Jumping goes to the first and to the last session, where any is listed.
pub proof fn jumping_finds_sessions(m: Model)
    requires
        exists|j: int| 0 <= j < m.list().len() && (#[trigger] m.list()[j]) is Session,
    ensures
        m.list()[m.jumped_first().selected] is Session,
        m.list()[m.jumped_last().selected] is Session,
        forall|j: int|
            0 <= j < m.list().len() && (#[trigger] m.list()[j]) is Session ==> m.jumped_first().selected <= j
                <= m.jumped_last().selected,
{
    rows::lemma_nearest_session(m.list(), 0);
    rows::lemma_nearest_session(m.list(), m.list().len() as int);
}

} // verus!
