//! What the keys do.

use vstd::prelude::*;
use vstd::string::*;

use crate::answers;
use crate::effects::{Effect, EffectView};
use crate::mouse::InputEvent;
use crate::picker::{App, Model, Pane};

verus! {

/// A step after which the picker goes on.
pub open spec fn goes_on(m: Model) -> (Model, EffectView) {
    (m, EffectView::Continue)
}

impl Model {
    /// The search ended, with the cursor still on the same row.
    pub open spec fn search_ended(self) -> Model {
        let m = Model { query: Seq::empty(), searching: false, ..self };
        match self.selected_row() {
            Some(row) => m.row_selected(row),
            None => m,
        }
    }

    /// A key while the user is searching.
    pub open spec fn search_key(self, key: u8) -> (Model, EffectView) {
        match key as char {
            '\r' | '\n' => self.activated(),
            '\u{1b}' => goes_on(self.search_ended()),
            '\u{3}' => (self, EffectView::Quit),
            '\u{7f}' | '\u{8}' => goes_on(
                Model {
                    query: if self.query.len() > 0 { self.query.drop_last() } else { self.query },
                    ..self
                }.first_match_selected(),
            ),
            ' ' => goes_on(self.row_mark_toggled()),
            c => if answers::is_typed(key) {
                goes_on(Model { query: self.query.push(c), ..self }.first_match_selected())
            } else {
                goes_on(self)
            },
        }
    }

    /// A key while the user is neither searching nor asked anything. The line feed
    /// is what `Ctrl+j` sends, the carriage return what the enter key sends.
    pub open spec fn normal_key(self, key: u8) -> (Model, EffectView) {
        match key as char {
            'j' => goes_on(self.moved_down()),
            'k' => goes_on(self.moved_up()),
            '\n' => goes_on(self.moved_to_group_below()),
            '\u{b}' => goes_on(self.moved_to_group_above()),
            '\u{8}' => goes_on(self.focused(Pane::Active)),
            '\u{c}' => goes_on(self.focused(Pane::All)),
            'g' => goes_on(self.jumped_first()),
            'G' => goes_on(self.jumped_last()),
            '/' => goes_on(Model { searching: true, status: Seq::empty(), ..self }),
            'n' => goes_on(self.create_asked()),
            'm' => goes_on(self.move_asked()),
            'r' => goes_on(self.rename_asked()),
            'd' => self.group_deleted(),
            'h' => self.selected_collapsed(true),
            'l' => self.selected_collapsed(false),
            ' ' => goes_on(self.row_mark_toggled()),
            'a' => goes_on(self.current_group_marks_toggled()),
            'A' => goes_on(self.visible_marks_toggled()),
            'v' => goes_on(self.marks_cleared()),
            'p' => self.pin_toggled(),
            'x' => self.killed(),
            '?' => goes_on(self.help_shown()),
            'J' => self.reordered(false),
            'K' => self.reordered(true),
            '\r' => self.activated(),
            'q' | '\u{1b}' | '\u{3}' => (self, EffectView::Quit),
            _ => goes_on(self),
        }
    }

    /// A key.
    pub open spec fn keyed(self, key: u8) -> (Model, EffectView) {
        if self.prompt is Some {
            self.answered(key)
        } else if self.searching {
            self.search_key(key)
        } else {
            self.normal_key(key)
        }
    }

    /// What the user did at the time `now`, in nanoseconds.
    pub open spec fn stepped(self, input: InputEvent, now: u64) -> (Model, EffectView) {
        match input {
            InputEvent::Key(key) => self.keyed(key),
            InputEvent::Mouse(event) => self.moused(event, now),
            InputEvent::Ignore => goes_on(self),
        }
    }
}

impl App {
    fn end_search(&mut self)
        ensures
            final(self)@ == old(self)@.search_ended(),
    {
        let row = self.selected_row();
        self.query = String::new();
        self.searching = false;
        if let Some(row) = row {
            self.select_row(row);
        }
    }

    /// Takes a key while the user is searching.
    fn handle_search_key(&mut self, key: u8) -> (r: Effect)
        requires
            old(self)@.wf(),
            old(self)@.prompt is None,
        ensures
            (final(self)@, r@) == old(self)@.search_key(key),
            final(self)@.wf(),
            !(r@ is SaveName),
    {
        match key as char {
            '\r' | '\n' => {
                return self.activate_selected();
            },
            '\u{1b}' => self.end_search(),
            '\u{3}' => {
                return Effect::Quit;
            },
            '\u{7f}' | '\u{8}' => {
                let _ = self.query.pop();
                self.select_first_match();
            },
            ' ' => self.toggle_selected_row_selection(),
            c => {
                if answers::types(key) {
                    self.query.push(c);
                    self.select_first_match();
                }
            },
        }
        Effect::Continue
    }

    /// Takes a key while the user is neither searching nor asked anything.
    fn handle_normal_key(&mut self, key: u8) -> (r: Effect)
        requires
            old(self)@.wf(),
            old(self)@.prompt is None,
        ensures
            (final(self)@, r@) == old(self)@.normal_key(key),
            final(self)@.wf(),
            !(r@ is SaveName),
    {
        match key as char {
            'j' => self.move_down(),
            'k' => self.move_up(),
            '\n' => self.move_to_next_group(),
            '\u{b}' => self.move_to_previous_group(),
            '\u{8}' => self.focus_on(Pane::Active),
            '\u{c}' => self.focus_on(Pane::All),
            'g' => self.jump_first(),
            'G' => self.jump_last(),
            '/' => {
                self.searching = true;
                self.status = String::new();
            },
            'n' => self.begin_create_group(),
            'm' => self.begin_move_session(),
            'r' => self.begin_rename_group(),
            'd' => {
                return self.delete_selected_group();
            },
            'h' => {
                return self.collapse_selected();
            },
            'l' => {
                return self.expand_selected();
            },
            ' ' => self.toggle_selected_row_selection(),
            'a' => self.toggle_current_group_selection(),
            'A' => self.toggle_visible_selection(),
            'v' => self.clear_selection(),
            'p' => {
                return self.toggle_pin();
            },
            'x' => {
                return self.kill_selected();
            },
            '?' => self.show_help(),
            'J' => {
                return self.reorder_down();
            },
            'K' => {
                return self.reorder_up();
            },
            '\r' => {
                return self.activate_selected();
            },
            'q' | '\u{1b}' | '\u{3}' => {
                return Effect::Quit;
            },
            _ => {},
        }
        Effect::Continue
    }

    /// Takes a key.
    pub fn handle_key(&mut self, key: u8) -> (r: Effect)
        requires
            old(self)@.wf(),
        ensures
            (final(self)@, r@) == old(self)@.keyed(key),
            final(self)@.wf(),
            r@ matches EffectView::SaveName(submission) ==> 0 <= submission.group_index
                < final(self)@.groups.groups.len(),
    {
        if self.prompt.is_some() {
            self.handle_prompt(key)
        } else if self.searching {
            self.handle_search_key(key)
        } else {
            self.handle_normal_key(key)
        }
    }

    /// Takes what the user did at the time `now`, in nanoseconds. What cannot be
    /// done here is handed back.
    pub fn step(&mut self, input: InputEvent, now: u64) -> (r: Effect)
        requires
            old(self)@.wf(),
        ensures
            (final(self)@, r@) == old(self)@.stepped(input, now),
            final(self)@.wf(),
            r@ matches EffectView::SaveName(submission) ==> 0 <= submission.group_index
                < final(self)@.groups.groups.len(),
    {
        match input {
            InputEvent::Key(key) => self.handle_key(key),
            InputEvent::Mouse(event) => self.handle_mouse(event, now),
            InputEvent::Ignore => Effect::Continue,
        }
    }
}

/// Ending a search keeps the cursor on its row, where that is listed without the search.
pub proof fn ending_search_keeps_row(m: Model)
    ensures
        ({
            let after = m.search_ended();
            m.selected_row() matches Some(row) ==> (after.list().contains(row) ==> after.selected_row() == Some(row))
        }),
        m.search_ended().query.len() == 0,
        !m.search_ended().searching,
{
    let cleared = Model { query: Seq::empty(), searching: false, ..m };
    if let Some(row) = m.selected_row() {
        crate::picker::listed_row_can_be_selected(cleared, row);
        assert(m.search_ended().listing(m.focus) == cleared.listing(m.focus));
    }
}

} // verus!
