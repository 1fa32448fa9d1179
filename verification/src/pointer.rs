//! What the mouse does.

use vstd::prelude::*;
use vstd::string::*;

use crate::effects::{Effect, EffectView};
use crate::mouse;
use crate::mouse::MouseEvent;
use crate::picker::{App, Model, Pane};
use crate::rows::VisibleRow;

verus! {

/// The longest time between the two clicks of a double click, in nanoseconds.
pub const DOUBLE_CLICK_TIME: u64 = 400_000_000;

/// What a second effect adds to a first.
pub open spec fn later(first: EffectView, second: EffectView) -> EffectView {
    if second is Continue {
        first
    } else {
        second
    }
}

impl Model {
    /// The row of the list that has the focus under a row of the screen.
    pub open spec fn row_under(self, row: int) -> Option<(int, VisibleRow)> {
        match mouse::index_under(
            row,
            self.list_row_start(),
            self.list_height(),
            self.top,
            self.list().len() as int,
        ) {
            Some(i) => Some((i, self.list()[i])),
            None => None,
        }
    }

    pub open spec fn click_forgotten(self) -> Model {
        Model { last_click: None, ..self }
    }

    /// Whether a column is that of the checkboxes.
    pub open spec fn is_checkbox(self, col: int) -> bool {
        self.pane_col(self.focus) + 2 <= col <= self.pane_col(self.focus) + 4
    }

    /// Whether a click on `row` at the time `now` is the second of a double click.
    pub open spec fn is_repeated(self, row: VisibleRow, now: u64) -> bool {
        self.last_click matches Some((previous, at)) && previous == row && now - at <= DOUBLE_CLICK_TIME
    }

    /// A click with the left button: the cursor moves to the row; a checkbox is
    /// toggled; a second click opens or closes a group, or switches to a session.
    pub open spec fn left_clicked(self, event: MouseEvent, now: u64) -> (Model, EffectView) {
        let there = self.focused(self.pane_at(event.col as int));
        match there.row_under(event.row as int) {
            None => (self.click_forgotten(), EffectView::Continue),
            Some((i, row)) => {
                let m = Model { selected: i, ..there };
                let marking = m.marked != Set::<Seq<char>>::empty();
                if marking && row is Session && m.is_checkbox(event.col as int) {
                    (m.row_mark_toggled().click_forgotten(), EffectView::Continue)
                } else if m.is_repeated(row, now) && !marking {
                    m.click_forgotten().activated()
                } else {
                    (Model { last_click: Some((row, now)), ..m }, EffectView::Continue)
                }
            },
        }
    }

    /// A click with the right button: the session under it is pinned, or no longer.
    pub open spec fn right_clicked(self, event: MouseEvent) -> (Model, EffectView) {
        let there = self.focused(self.pane_at(event.col as int));
        match there.row_under(event.row as int) {
            None => (self.click_forgotten(), EffectView::Continue),
            Some((i, row)) => {
                let m = Model { selected: i, ..there }.click_forgotten();
                match row {
                    VisibleRow::Group(_) => (
                        m.with_status("Right-click a session to pin it"@),
                        EffectView::Continue,
                    ),
                    VisibleRow::Session(k) => m.session_pin_toggled(k as int),
                }
            },
        }
    }

    /// The session under the cursor moved up, or down, step by step until it is at
    /// `target`, it does not move, or `steps` steps are done; with what is to be
    /// done after that, and the steps that are left.
    pub open spec fn dragged(
        self,
        up: bool,
        target: int,
        steps: nat,
        effect: EffectView,
    ) -> (Model, EffectView, nat)
        decreases steps,
    {
        let away = if up { self.selected > target } else { self.selected < target };
        if away && steps > 0 {
            let (m, e) = self.reordered(up);
            if m.selected == self.selected {
                (m, later(effect, e), steps)
            } else {
                m.dragged(up, target, (steps - 1) as nat, later(effect, e))
            }
        } else {
            (self, effect, steps)
        }
    }

    /// A drag with the left button: the session under the cursor is moved to the
    /// row under the mouse, where that is one of a session in the same list.
    pub open spec fn dragged_to(self, event: MouseEvent) -> (Model, EffectView) {
        let under = self.row_under(event.row as int);
        if self.pane_at(event.col as int) != self.focus || self.selected_session() is None {
            (self, EffectView::Continue)
        } else {
            match under {
                Some((target, VisibleRow::Session(_))) => {
                    let (m, e, left) = self.dragged(true, target, self.list().len(), EffectView::Continue);
                    let (n, f, _) = m.dragged(false, target, left, e);
                    (n, f)
                },
                _ => (self, EffectView::Continue),
            }
        }
    }

    /// A mouse event at the time `now`, in nanoseconds.
    pub open spec fn moused(self, event: MouseEvent, now: u64) -> (Model, EffectView) {
        if let Some(delta) = mouse::wheel_delta(event.button) {
            let m = if event.pressed && self.prompt is None {
                self.focused(self.pane_at(event.col as int)).scrolled_by(delta as int)
            } else {
                self
            };
            (m.click_forgotten(), EffectView::Continue)
        } else if !event.pressed || self.prompt is Some {
            (self, EffectView::Continue)
        } else if mouse::plain_button(event.button) == Some(2u16) {
            self.right_clicked(event)
        } else if mouse::drag_button(event.button) == Some(0u16) {
            self.click_forgotten().dragged_to(event)
        } else if mouse::plain_button(event.button) == Some(0u16) {
            self.left_clicked(event, now)
        } else {
            (self, EffectView::Continue)
        }
    }
}

impl App {
    /// The row of a list under a row of the screen, where the first visible row of the list is `top`.
    fn row_in(&self, pane: Pane, top: usize, row: usize) -> (r: Option<(usize, VisibleRow)>)
        requires
            self.rows < usize::MAX,
        ensures
            ({
                let list = self@.rows_of(pane);
                match mouse::index_under(
                    row as int,
                    self@.list_row_start(),
                    self@.list_height(),
                    top as int,
                    list.len() as int,
                ) {
                    Some(i) => r matches Some((k, found)) && k == i && found == list[i],
                    None => r is None,
                }
            }),
            r matches Some((_, VisibleRow::Session(k))) ==> k < self.sessions.len(),
    {
        let layout = self.layout();
        let rows = self.rows_in(pane);
        match mouse::visible_index_for_mouse_row(
            row,
            layout.list_row_start,
            self.visible_list_height(),
            top,
            rows.len(),
        ) {
            Some(index) => Some((index, rows[index])),
            None => None,
        }
    }

    /// The row under the mouse, in the list that has the focus.
    pub fn visible_mouse_row(&self, event: MouseEvent) -> (r: Option<(usize, VisibleRow)>)
        requires
            self.rows < usize::MAX,
        ensures
            match self@.row_under(event.row as int) {
                Some((i, row)) => r matches Some((k, found)) && k == i && found == row,
                None => r is None,
            },
            r matches Some((_, VisibleRow::Session(k))) ==> k < self.sessions.len(),
    {
        self.row_in(self.focus, self.top, event.row)
    }

    /// The row under the mouse, in the list that it is on.
    fn row_at(&self, event: MouseEvent) -> (r: Option<(usize, VisibleRow)>)
        requires
            self.rows < usize::MAX,
        ensures
            match self@.focused(self@.pane_at(event.col as int)).row_under(event.row as int) {
                Some((i, row)) => r matches Some((k, found)) && k == i && found == row,
                None => r is None,
            },
            r matches Some((_, VisibleRow::Session(k))) ==> k < self.sessions.len(),
    {
        let pane = self.pane_at(event.col);
        let top: usize = if pane == self.focus { self.top } else { self.parked_top };
        proof {
            lemma_focus_keeps_screen(self@, pane);
        }
        self.row_in(pane, top, event.row)
    }

    fn left_click(&mut self, event: MouseEvent, now: u64) -> (r: Effect)
        requires
            old(self)@.wf(),
        ensures
            (final(self)@, r@) == old(self)@.left_clicked(event, now),
            final(self)@.wf(),
            !(r@ is SaveName),
    {
        let (index, row) = match self.row_at(event) {
            Some(found) => found,
            None => {
                self.last_click = None;
                return Effect::Continue;
            },
        };
        let pane = self.pane_at(event.col);
        self.focus_on(pane);
        self.selected = index;
        let marking = !self.selected_sessions.is_empty();
        let table_col: usize = self.layout().table_col;
        let on_session = match row {
            VisibleRow::Session(_) => true,
            VisibleRow::Group(_) => false,
        };
        if marking && on_session && table_col + 2 <= event.col && event.col <= table_col + 4 {
            self.toggle_selected_row_selection();
            self.last_click = None;
            return Effect::Continue;
        }
        let repeated = match self.last_click {
            Some((previous, at)) => previous == row && now.saturating_sub(at) <= DOUBLE_CLICK_TIME,
            None => false,
        };
        if repeated && !marking {
            self.last_click = None;
            return self.activate_selected();
        }
        self.last_click = Some((row, now));
        Effect::Continue
    }

    /// Pins the session under the mouse, or no longer.
    pub fn handle_right_click(&mut self, event: MouseEvent) -> (r: Effect)
        requires
            old(self)@.wf(),
        ensures
            (final(self)@, r@) == old(self)@.right_clicked(event),
            final(self)@.wf(),
            !(r@ is SaveName),
    {
        let (index, row) = match self.row_at(event) {
            Some(found) => found,
            None => {
                self.last_click = None;
                return Effect::Continue;
            },
        };
        let pane = self.pane_at(event.col);
        self.focus_on(pane);
        self.selected = index;
        self.last_click = None;
        match row {
            VisibleRow::Group(_) => {
                self.status = "Right-click a session to pin it".to_owned();
                Effect::Continue
            },
            VisibleRow::Session(session_index) => self.toggle_session_pin(session_index),
        }
    }

    /// Moves the session under the cursor step by step towards a row.
    fn drag(&mut self, up: bool, target: usize, steps: usize, before: Effect) -> (r: (Effect, usize))
        ensures
            ({
                let d = old(self)@.dragged(up, target as int, steps as nat, before@);
                final(self)@ == d.0 && r.0@ == d.1 && r.1 == d.2
            }),
            !(before@ is SaveName) ==> !(r.0@ is SaveName),
            final(self)@.prompt == old(self)@.prompt,
            final(self)@.rows == old(self)@.rows,
    {
        let ghost goal = self@.dragged(up, target as int, steps as nat, before@);
        let mut effect = before;
        let mut left: usize = steps;
        while ((up && self.selected > target) || (!up && self.selected < target)) && left > 0
            invariant
                goal == old(self)@.dragged(up, target as int, steps as nat, before@),
                goal == self@.dragged(up, target as int, left as nat, effect@),
                !(before@ is SaveName) ==> !(effect@ is SaveName),
                self@.prompt == old(self)@.prompt,
                self@.rows == old(self)@.rows,
            decreases left,
        {
            let previous: usize = self.selected;
            let step = self.reorder(up);
            match step {
                Effect::Continue => {},
                other => {
                    effect = other;
                },
            }
            if self.selected == previous {
                return (effect, left);
            }
            left -= 1;
        }
        (effect, left)
    }

    /// Moves the session under the cursor to the row under the mouse.
    pub fn drag_selected_session_to_mouse_row(&mut self, event: MouseEvent) -> (r: Effect)
        requires
            old(self)@.rows < usize::MAX,
        ensures
            (final(self)@, r@) == old(self)@.dragged_to(event),
            !(r@ is SaveName),
            final(self)@.prompt == old(self)@.prompt,
            final(self)@.rows == old(self)@.rows,
    {
        if self.pane_at(event.col) != self.focus || self.selected_session_index().is_none() {
            return Effect::Continue;
        }
        match self.visible_mouse_row(event) {
            Some((target, VisibleRow::Session(_))) => {
                let count: usize = self.visible_rows().len();
                let (effect, left) = self.drag(true, target, count, Effect::Continue);
                let (effect, left) = self.drag(false, target, left, effect);
                effect
            },
            _ => Effect::Continue,
        }
    }

    /// Takes a mouse event at the time `now`, in nanoseconds.
    pub fn handle_mouse(&mut self, event: MouseEvent, now: u64) -> (r: Effect)
        requires
            old(self)@.wf(),
        ensures
            (final(self)@, r@) == old(self)@.moused(event, now),
            final(self)@.wf(),
            !(r@ is SaveName),
    {
        if let Some(delta) = mouse::mouse_wheel_delta(event.button) {
            if event.pressed && self.prompt.is_none() {
                let pane = self.pane_at(event.col);
                self.focus_on(pane);
                self.scroll_visible_rows(delta);
            }
            self.last_click = None;
            return Effect::Continue;
        }
        if !event.pressed || self.prompt.is_some() {
            return Effect::Continue;
        }
        let plain = mouse::mouse_plain_button(event.button);
        if plain == Some(2u16) {
            self.handle_right_click(event)
        } else if mouse::mouse_drag_button(event.button) == Some(0u16) {
            self.last_click = None;
            self.drag_selected_session_to_mouse_row(event)
        } else if plain == Some(0u16) {
            self.left_click(event, now)
        } else {
            Effect::Continue
        }
    }
}

/// Which list has the focus does not change what the lists are and where they are.
proof fn lemma_focus_keeps_screen(m: Model, pane: Pane)
    ensures
        m.focused(pane).rows_of(Pane::Active) == m.rows_of(Pane::Active),
        m.focused(pane).rows_of(Pane::All) == m.rows_of(Pane::All),
        m.focused(pane).list_row_start() == m.list_row_start(),
        m.focused(pane).list_height() == m.list_height(),
{
    assert(m.focused(pane).listing(Pane::Active) == m.listing(Pane::Active));
    assert(m.focused(pane).listing(Pane::All) == m.listing(Pane::All));
}

/// While a question is open the mouse does nothing but that a turn of the wheel forgets the last click.
pub proof fn mouse_is_ignored_by_prompts(m: Model, event: MouseEvent, now: u64)
    requires
        m.prompt is Some,
    ensures
        m.moused(event, now).0 == m || m.moused(event, now).0 == m.click_forgotten(),
        m.moused(event, now).1 is Continue,
{
}

/// A first click with the left button on a row moves the cursor there and does
/// nothing else; a second one on the same row, soon enough and while nothing is
/// marked, does what the enter key does.
pub proof fn double_click_activates(m: Model, event: MouseEvent, first: u64, second: u64)
    requires
        m.marked == Set::<Seq<char>>::empty(),
        m.last_click is None,
        0 <= m.top,
        0 <= m.parked_top,
        m.focused(m.pane_at(event.col as int)).row_under(event.row as int) is Some,
        second - first <= DOUBLE_CLICK_TIME,
    ensures
        ({
            let pane = m.pane_at(event.col as int);
            let (i, row) = m.focused(pane).row_under(event.row as int)->0;
            let there = Model { selected: i, ..m.focused(pane) };
            let (once, e) = m.left_clicked(event, first);
            &&& once == (Model { last_click: Some((row, first)), ..there })
            &&& e is Continue
            &&& once.selected_row() == Some(row)
            &&& once.left_clicked(event, second) == there.activated()
        }),
{
    let pane = m.pane_at(event.col as int);
    lemma_focus_keeps_screen(m, pane);
    let (i, row) = m.focused(pane).row_under(event.row as int)->0;
    let there = Model { selected: i, ..m.focused(pane) };
    let (once, e) = m.left_clicked(event, first);
    assert(once.listing(Pane::Active) == m.listing(Pane::Active));
    assert(once.listing(Pane::All) == m.listing(Pane::All));
    assert(once.pane_at(event.col as int) == pane);
    assert(once.focused(pane) == once);
    assert(once.row_under(event.row as int) == Some((i, row)));
    assert((Model { selected: i, ..once }).click_forgotten() == there);
}

} // verus!
