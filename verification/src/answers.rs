//! Marking sessions, asking questions, and taking the answers to them.

use vstd::prelude::*;
use vstd::string::*;

use crate::effects::{Effect, EffectView, Submission, SubmissionView};
use crate::groups;
use crate::groups::GroupView;
use crate::help;
use crate::marks;
use crate::organize;
use crate::picker::{App, Model};
use crate::prompts;
use crate::prompts::{NameAction, NameActionView, Prompt, PromptView};
use crate::rows;
use crate::rows::VisibleRow;
use crate::text;

verus! {

/// Whether a key types a character: a visible one of ASCII, or a space.
pub open spec fn is_typed(key: u8) -> bool {
    0x20 <= key <= 0x7e
}

impl Model {
    /// The status that says how many sessions are marked.
    pub open spec fn marks_reported(self) -> Model {
        let count = self.marked_names().len();
        if count == 0 {
            self.with_status("Selection cleared"@)
        } else {
            self.with_status("Selected "@ + text::digits(count) + " sessions"@)
        }
    }

    /// The sessions of a header all marked, or none of them.
    pub open spec fn group_marks_toggled(self, header: int) -> Model {
        let members = rows::group_members(self.sessions, self.groups.groups, header);
        Model { marked: marks::toggled(self.marked, marks::names_at(self.sessions, members)), ..self }
    }

    /// The session or the group under the cursor marked, or no longer.
    pub open spec fn row_mark_toggled(self) -> Model {
        let m = match self.selected_row() {
            Some(VisibleRow::Session(i)) => Model {
                marked: marks::toggled_one(self.marked, self.sessions[i as int].name),
                ..self
            },
            Some(VisibleRow::Group(header)) => self.group_marks_toggled(header as int),
            None => self,
        };
        m.marks_reported()
    }

    /// All sessions of the current header marked, or none of them.
    pub open spec fn current_group_marks_toggled(self) -> Model {
        match self.current_header() {
            Some(header) => self.group_marks_toggled(header).marks_reported(),
            None => self,
        }
    }

    /// All sessions in the list that has the focus marked, or none of them.
    pub open spec fn visible_marks_toggled(self) -> Model {
        let listed = marks::listed_from(self.list(), 0);
        Model {
            marked: marks::toggled(self.marked, marks::names_at(self.sessions, listed)),
            ..self
        }.marks_reported()
    }

    pub open spec fn marks_cleared(self) -> Model {
        Model { marked: Set::empty(), ..self }.with_status("Selection cleared"@)
    }

    pub open spec fn help_shown(self) -> Model {
        self.with_prompt(PromptView::Help { index: 0 })
    }

    pub open spec fn create_asked(self) -> Model {
        self.with_prompt(
            PromptView::Name {
                label: "NEW GROUP"@,
                value: Seq::empty(),
                action: NameActionView::Create,
            },
        )
    }

    pub open spec fn rename_asked(self) -> Model {
        match self.selected_header() {
            None => self.with_status("Select a group to rename it"@),
            Some(header) => if header < self.groups.groups.len() {
                self.with_prompt(
                    PromptView::Name {
                        label: "RENAME GROUP"@,
                        value: self.groups.groups[header].name,
                        action: NameActionView::Rename(header),
                    },
                )
            } else {
                self.with_status("Ungrouped cannot be renamed"@)
            },
        }
    }

    /// The question where the marked sessions, or the one under the cursor, are to
    /// be moved. A single session's own group is offered first, else no group.
    pub open spec fn move_asked(self) -> Model {
        let count = self.groups.groups.len() as int;
        match self.target_names() {
            None => self.with_status("Select a session to move it"@),
            Some(session_names) => self.with_prompt(
                PromptView::Move {
                    session_names,
                    choice: if session_names.len() == 1 {
                        match groups::group_of(self.groups.groups, session_names[0]) {
                            Some(g) => g,
                            None => count,
                        }
                    } else {
                        count
                    },
                },
            ),
        }
    }

    /// The groups after a name was accepted, with the index of the group that has it; or why it is refused.
    pub open spec fn submitted(self, value: Seq<char>, action: NameActionView) -> Result<(Model, int), Seq<char>> {
        let groups = self.groups.groups;
        match action {
            NameActionView::Rename(i) => if i >= groups.len() {
                Err("group does not exist"@)
            } else {
                match groups::checked_name(groups, value, Some(i)) {
                    Err(why) => Err(why),
                    Ok(name) => Ok((self.with_groups(groups.update(i, GroupView { name, ..groups[i] })), i)),
                }
            },
            _ => match groups::checked_name(groups, value, None) {
                Err(why) => Err(why),
                Ok(name) => {
                    let more = groups.push(GroupView { name, collapsed: false, sessions: Seq::empty() });
                    let added = match action {
                        NameActionView::CreateAndMove(session_names) => organize::all_moved(
                            more,
                            session_names,
                            Some(groups.len() as int),
                            0,
                        ),
                        _ => more,
                    };
                    Ok((self.with_groups(added), groups.len() as int))
                },
            },
        }
    }

    /// The end of giving a group a name, after the groups were saved or could not be.
    pub open spec fn name_finished(self, submission: SubmissionView, saved: Result<(), Seq<char>>) -> Model {
        let name = self.groups.groups[submission.group_index].name;
        match saved {
            Err(why) => self.with_status(why).with_prompt(
                PromptView::Name {
                    label: submission.label,
                    value: submission.value,
                    action: submission.action,
                },
            ),
            Ok(_) => match submission.action {
                NameActionView::Create => Model { query: Seq::empty(), ..self }.row_selected(
                    VisibleRow::Group(submission.group_index as usize),
                ).with_status("Created "@ + name),
                NameActionView::Rename(_) => self.with_status("Renamed group to "@ + name),
                NameActionView::CreateAndMove(session_names) => {
                    let m = if session_names.len() > 0 {
                        self.name_selected(session_names[0])
                    } else {
                        self
                    };
                    m.with_status("Moved "@ + text::digits(session_names.len()) + " sessions to "@ + name)
                },
            },
        }
    }

    pub open spec fn cancelled(self) -> (Model, EffectView) {
        (Model { prompt: None, ..self }.with_status("Cancelled"@), EffectView::Continue)
    }

    /// A key while a name is asked for.
    pub open spec fn name_answered(
        self,
        label: Seq<char>,
        value: Seq<char>,
        action: NameActionView,
        key: u8,
    ) -> (Model, EffectView) {
        let m = Model { prompt: None, ..self };
        match key as char {
            '\r' | '\n' => match m.submitted(value, action) {
                Err(why) => (self.with_status(why), EffectView::Continue),
                Ok((done, group_index)) => (
                    done,
                    EffectView::SaveName(SubmissionView { label, value, action, group_index }),
                ),
            },
            '\u{1b}' | '\u{3}' => self.cancelled(),
            '\u{7f}' | '\u{8}' => if value.len() == 0 {
                self.cancelled()
            } else {
                (
                    self.with_prompt(PromptView::Name { label, value: value.drop_last(), action }),
                    EffectView::Continue,
                )
            },
            c => if is_typed(key) {
                (
                    self.with_prompt(PromptView::Name { label, value: value.push(c), action }),
                    EffectView::Continue,
                )
            } else {
                (self, EffectView::Continue)
            },
        }
    }

    /// A key while it is asked where sessions are to be moved.
    pub open spec fn move_answered(self, session_names: Seq<Seq<char>>, choice: int, key: u8) -> (Model, EffectView) {
        let m = Model { prompt: None, ..self };
        let count = self.groups.groups.len() as int;
        let last = prompts::last_option(count);
        let chosen = |choice: int|
            (self.with_prompt(PromptView::Move { session_names, choice }), EffectView::Continue);
        match key as char {
            'j' => chosen(if choice < last { choice + 1 } else { last }),
            'k' => chosen(if choice > 0 { choice - 1 } else { 0 }),
            'g' => chosen(0),
            'G' => chosen(last),
            '\r' | '\n' => if choice < count {
                m.sessions_moved(session_names, Some(choice))
            } else if choice == count {
                m.sessions_moved(session_names, None)
            } else {
                (
                    self.with_prompt(
                        PromptView::Name {
                            label: "NEW GROUP"@,
                            value: Seq::empty(),
                            action: NameActionView::CreateAndMove(session_names),
                        },
                    ),
                    EffectView::Continue,
                )
            },
            '\u{1b}' | '\u{3}' => self.cancelled(),
            _ => (self, EffectView::Continue),
        }
    }

    /// A key while it is asked whether sessions are to be killed.
    pub open spec fn kill_answered(
        self,
        session_names: Seq<Seq<char>>,
        skipped_current: int,
        key: u8,
    ) -> (Model, EffectView) {
        match key as char {
            'y' | 'Y' => (
                Model { prompt: None, ..self },
                EffectView::KillAll { session_names, skipped_current },
            ),
            'n' | 'N' | '\u{1b}' | '\u{3}' => self.cancelled(),
            _ => (self, EffectView::Continue),
        }
    }

    /// A key while it is asked what to do with the marked sessions.
    pub open spec fn action_answered(self, choice: int, key: u8) -> (Model, EffectView) {
        let m = Model { prompt: None, ..self };
        let last = prompts::ACTION_COUNT - 1;
        let chosen = |choice: int| (self.with_prompt(PromptView::Action { choice }), EffectView::Continue);
        match key as char {
            'j' => chosen(if choice < last { choice + 1 } else { last }),
            'k' => chosen(if choice > 0 { choice - 1 } else { 0 }),
            '\r' | '\n' => if choice == 0 {
                (m.move_asked(), EffectView::Continue)
            } else if choice == 1 {
                m.pin_toggled()
            } else if choice == 2 {
                (m.kill_asked(), EffectView::Continue)
            } else {
                (m.marks_cleared(), EffectView::Continue)
            },
            '\u{1b}' | '\u{3}' => self.cancelled(),
            _ => (self, EffectView::Continue),
        }
    }

    /// A key while the shortcuts are shown.
    pub open spec fn help_answered(self, index: int, key: u8) -> (Model, EffectView) {
        let chosen = |index: int| (self.with_prompt(PromptView::Help { index }), EffectView::Continue);
        match key as char {
            'j' | 'l' | ' ' => chosen(help::help_index(index, 1)),
            'k' | 'h' | '\u{7f}' | '\u{8}' => chosen(help::help_index(index, -1)),
            'g' => chosen(0),
            'G' => chosen(help::SHORTCUT_COUNT - 1),
            'q' | '?' | '\u{1b}' | '\u{3}' | '\r' | '\n' => (
                Model { prompt: None, ..self }.with_status("Closed help"@),
                EffectView::Continue,
            ),
            _ => (self, EffectView::Continue),
        }
    }

    /// A key while a question is open.
    pub open spec fn answered(self, key: u8) -> (Model, EffectView) {
        match self.prompt {
            None => (self, EffectView::Continue),
            Some(PromptView::Name { label, value, action }) => self.name_answered(label, value, action, key),
            Some(PromptView::Move { session_names, choice }) => self.move_answered(session_names, choice, key),
            Some(PromptView::ConfirmKill { session_names, skipped_current }) => self.kill_answered(
                session_names,
                skipped_current,
                key,
            ),
            Some(PromptView::Action { choice }) => self.action_answered(choice, key),
            Some(PromptView::Help { index }) => self.help_answered(index, key),
        }
    }
}

/// Whether a key types a character.
pub(crate) fn types(key: u8) -> (r: bool)
    ensures
        r == is_typed(key),
{
    0x20 <= key && key <= 0x7e
}

/// Whether saving went as `saved` says.
pub open spec fn saved_view(saved: Result<(), String>) -> Result<(), Seq<char>> {
    match saved {
        Ok(_) => Ok(()),
        Err(why) => Err(why@),
    }
}

impl App {
    /// Says how many sessions are marked.
    fn update_selection_status(&mut self)
        ensures
            final(self)@ == old(self)@.marks_reported(),
    {
        let names = self.selected_live_session_names();
        assert(names.len() == text::views(names@).len());
        if names.len() == 0 {
            self.status = "Selection cleared".to_owned();
        } else {
            let mut status = "Selected ".to_owned();
            status.append(&text::count(names.len()));
            status.append(" sessions");
            self.status = status;
        }
    }

    /// Marks the session or the group under the cursor, or takes the marks away.
    pub fn toggle_selected_row_selection(&mut self)
        ensures
            final(self)@ == old(self)@.row_mark_toggled(),
    {
        match self.selected_row() {
            Some(VisibleRow::Session(index)) => {
                assert(self@.sessions[index as int] == self.sessions@[index as int]@);
                marks::toggle_selection_for_session(&mut self.selected_sessions, &self.sessions[index].name);
            },
            Some(VisibleRow::Group(index)) => {
                marks::toggle_selection_for_group(
                    &mut self.selected_sessions,
                    &self.sessions,
                    &self.groups,
                    index,
                );
            },
            None => {},
        }
        self.update_selection_status();
    }

    /// Marks all sessions of the current header, or takes the marks away.
    pub fn toggle_current_group_selection(&mut self)
        ensures
            final(self)@ == old(self)@.current_group_marks_toggled(),
    {
        if let Some(index) = self.current_group_index() {
            marks::toggle_selection_for_group(&mut self.selected_sessions, &self.sessions, &self.groups, index);
            self.update_selection_status();
        }
    }

    /// Marks all sessions in the list that has the focus, or takes the marks away.
    pub fn toggle_visible_selection(&mut self)
        ensures
            final(self)@ == old(self)@.visible_marks_toggled(),
    {
        let rows = self.visible_rows();
        assert(marks::rows_exist(rows@, self.sessions.len() as int)) by {
            assert forall|k: int| 0 <= k < rows.len() implies (#[trigger] rows@[k] matches VisibleRow::Session(i)
                ==> i < self.sessions.len()) by {
                assert(rows::row_exists(
                    rows@[k],
                    self.sessions.len() as int,
                    self@.groups.groups.len() as int,
                ));
            }
        }
        marks::toggle_selection_for_rows(&mut self.selected_sessions, &self.sessions, &rows);
        self.update_selection_status();
    }

    /// Takes all marks away.
    pub fn clear_selection(&mut self)
        ensures
            final(self)@ == old(self)@.marks_cleared(),
    {
        self.selected_sessions.clear();
        self.status = "Selection cleared".to_owned();
    }

    /// Shows the shortcuts.
    pub fn show_help(&mut self)
        ensures
            final(self)@ == old(self)@.help_shown(),
    {
        self.prompt = Some(Prompt::Help { index: 0 });
    }

    /// Asks for the name of a new group.
    pub fn begin_create_group(&mut self)
        ensures
            final(self)@ == old(self)@.create_asked(),
    {
        self.prompt = Some(
            Prompt::Name { label: "NEW GROUP", value: String::new(), action: NameAction::Create },
        );
    }

    /// Asks for another name of the group under the cursor.
    pub fn begin_rename_group(&mut self)
        ensures
            final(self)@ == old(self)@.rename_asked(),
    {
        let index: usize = match self.selected_group_index() {
            Some(index) => index,
            None => {
                self.status = "Select a group to rename it".to_owned();
                return;
            },
        };
        if index >= self.groups.groups.len() {
            self.status = "Ungrouped cannot be renamed".to_owned();
            return;
        }
        assert(self@.groups.groups[index as int] == self.groups.groups@[index as int]@);
        self.prompt = Some(
            Prompt::Name {
                label: "RENAME GROUP",
                value: self.groups.groups[index].name.clone(),
                action: NameAction::Rename(index),
            },
        );
    }

    /// Asks where the marked sessions, or the one under the cursor, are to be moved.
    pub fn begin_move_session(&mut self)
        ensures
            final(self)@ == old(self)@.move_asked(),
            old(self)@.wf() ==> final(self)@.wf(),
    {
        let session_names = match self.target_session_names() {
            Some(session_names) => session_names,
            None => {
                self.status = "Select a session to move it".to_owned();
                return;
            },
        };
        let ghost names = text::views(session_names@);
        assert(session_names.len() == names.len());
        let count: usize = self.groups.groups.len();
        let choice: usize = if session_names.len() == 1 {
            assert(names[0] == session_names@[0]@);
            match self.groups.group_for_session(&session_names[0]) {
                Some(group) => group,
                None => count,
            }
        } else {
            count
        };
        self.prompt = Some(Prompt::Move { session_names, choice });
    }

    /// Gives a group the name that was typed, and hands back its index; or says why the name is refused.
    fn submit_group_name(&mut self, value: &str, action: &NameAction) -> (r: Result<usize, String>)
        ensures
            match old(self)@.submitted(value@, action@) {
                Ok((m, i)) => r matches Ok(index) && index == i && final(self)@ == m,
                Err(why) => r matches Err(e) && e@ == why && final(self)@ == old(self)@,
            },
    {
        match action {
            NameAction::Create => self.groups.add_group(value),
            NameAction::Rename(index) => {
                match self.groups.rename_group(*index, value) {
                    Ok(_) => Ok(*index),
                    Err(why) => Err(why),
                }
            },
            NameAction::CreateAndMove(session_names) => {
                match self.groups.add_group(value) {
                    Ok(index) => {
                        self.regroup(session_names, Some(index));
                        Ok(index)
                    },
                    Err(why) => Err(why),
                }
            },
        }
    }

    /// Ends giving a group a name, after the groups were saved or could not be.
    pub fn finish_name(&mut self, submission: Submission, saved: Result<(), String>)
        requires
            submission.group_index < old(self)@.groups.groups.len(),
        ensures
            final(self)@ == old(self)@.name_finished(submission@, saved_view(saved)),
            old(self)@.wf() ==> final(self)@.wf(),
    {
        let index: usize = submission.group_index;
        assert(self@.groups.groups[index as int] == self.groups.groups@[index as int]@);
        if let Err(why) = saved {
            self.status = why;
            self.prompt = Some(
                Prompt::Name { label: submission.label, value: submission.value, action: submission.action },
            );
            return;
        }
        let name = self.groups.groups[index].name.clone();
        match submission.action {
            NameAction::Create => {
                self.query = String::new();
                self.select_row(VisibleRow::Group(index));
                let mut status = "Created ".to_owned();
                status.append(&name);
                self.status = status;
            },
            NameAction::Rename(_) => {
                let mut status = "Renamed group to ".to_owned();
                status.append(&name);
                self.status = status;
            },
            NameAction::CreateAndMove(session_names) => {
                let ghost names = text::views(session_names@);
                assert(session_names.len() == names.len());
                if session_names.len() > 0 {
                    assert(names[0] == session_names@[0]@);
                    self.select_session_by_name(&session_names[0]);
                }
                let mut status = "Moved ".to_owned();
                status.append(&text::count(session_names.len()));
                status.append(" sessions to ");
                status.append(&name);
                self.status = status;
            },
        }
    }

    fn cancel(&mut self) -> (r: Effect)
        ensures
            (final(self)@, r@) == old(self)@.cancelled(),
    {
        self.prompt = None;
        self.status = "Cancelled".to_owned();
        Effect::Continue
    }

    /// Takes a key while a name is asked for. The question is not open while this decides.
    fn answer_name(&mut self, label: &'static str, value: String, action: NameAction, key: u8) -> (r: Effect)
        requires
            old(self)@.prompt is None,
        ensures
            (final(self)@, r@) == old(self)@.with_prompt(
                PromptView::Name { label: label@, value: value@, action: action@ },
            ).name_answered(label@, value@, action@, key),
            r@ matches EffectView::SaveName(submission) ==> 0 <= submission.group_index
                < final(self)@.groups.groups.len(),
    {
        let mut value = value;
        match key as char {
            '\r' | '\n' => {
                match self.submit_group_name(&value, &action) {
                    Ok(group_index) => {
                        proof {
                            lemma_submitted_exists(old(self)@, value@, action@);
                        }
                        Effect::SaveName(Submission { label, value, action, group_index })
                    },
                    Err(why) => {
                        self.status = why;
                        self.prompt = Some(Prompt::Name { label, value, action });
                        Effect::Continue
                    },
                }
            },
            '\u{1b}' | '\u{3}' => self.cancel(),
            '\u{7f}' | '\u{8}' => {
                if value.as_str().is_empty() {
                    self.cancel()
                } else {
                    let _ = value.pop();
                    self.prompt = Some(Prompt::Name { label, value, action });
                    Effect::Continue
                }
            },
            c => {
                if types(key) {
                    value.push(c);
                }
                self.prompt = Some(Prompt::Name { label, value, action });
                Effect::Continue
            },
        }
    }

    /// Takes a key while it is asked where sessions are to be moved. The question is not open while this decides.
    fn answer_move(&mut self, session_names: Vec<String>, choice: usize, key: u8) -> (r: Effect)
        requires
            old(self)@.prompt is None,
            choice <= prompts::last_option(old(self)@.groups.groups.len() as int),
            old(self)@.rows < usize::MAX,
        ensures
            (final(self)@, r@) == old(self)@.with_prompt(
                PromptView::Move { session_names: text::views(session_names@), choice: choice as int },
            ).move_answered(text::views(session_names@), choice as int, key),
            final(self)@.wf(),
    {
        let count: usize = self.groups.groups.len();
        let last: usize = count.saturating_add(1);
        match key as char {
            'j' => {
                let choice: usize = if choice < last { choice + 1 } else { last };
                self.prompt = Some(Prompt::Move { session_names, choice });
                Effect::Continue
            },
            'k' => {
                let choice: usize = if choice > 0 { choice - 1 } else { 0 };
                self.prompt = Some(Prompt::Move { session_names, choice });
                Effect::Continue
            },
            'g' => {
                self.prompt = Some(Prompt::Move { session_names, choice: 0 });
                Effect::Continue
            },
            'G' => {
                self.prompt = Some(Prompt::Move { session_names, choice: last });
                Effect::Continue
            },
            '\r' | '\n' => {
                if choice < count {
                    self.move_sessions_to(&session_names, Some(choice))
                } else if choice == count {
                    self.move_sessions_to(&session_names, None)
                } else {
                    self.prompt = Some(
                        Prompt::Name {
                            label: "NEW GROUP",
                            value: String::new(),
                            action: NameAction::CreateAndMove(session_names),
                        },
                    );
                    Effect::Continue
                }
            },
            '\u{1b}' | '\u{3}' => self.cancel(),
            _ => {
                self.prompt = Some(Prompt::Move { session_names, choice });
                Effect::Continue
            },
        }
    }

    /// Takes a key while it is asked what to do with the marked sessions. The question is not open while this decides.
    fn answer_action(&mut self, choice: usize, key: u8) -> (r: Effect)
        requires
            old(self)@.prompt is None,
            choice < prompts::ACTION_COUNT,
            old(self)@.rows < usize::MAX,
        ensures
            (final(self)@, r@) == old(self)@.with_prompt(
                PromptView::Action { choice: choice as int },
            ).action_answered(choice as int, key),
            final(self)@.wf(),
    {
        let last: usize = prompts::ACTION_COUNT - 1;
        match key as char {
            'j' => {
                self.prompt = Some(Prompt::Action { choice: if choice < last { choice + 1 } else { last } });
                Effect::Continue
            },
            'k' => {
                self.prompt = Some(Prompt::Action { choice: if choice > 0 { choice - 1 } else { 0 } });
                Effect::Continue
            },
            '\r' | '\n' => {
                match choice {
                    0 => {
                        self.begin_move_session();
                        Effect::Continue
                    },
                    1 => self.toggle_pin(),
                    2 => {
                        self.begin_kill_selected_sessions();
                        Effect::Continue
                    },
                    _ => {
                        self.clear_selection();
                        Effect::Continue
                    },
                }
            },
            '\u{1b}' | '\u{3}' => self.cancel(),
            _ => {
                self.prompt = Some(Prompt::Action { choice });
                Effect::Continue
            },
        }
    }

    /// Takes a key while the shortcuts are shown. The question is not open while this decides.
    fn answer_help(&mut self, index: usize, key: u8) -> (r: Effect)
        requires
            old(self)@.prompt is None,
            index < help::SHORTCUT_COUNT,
            old(self)@.rows < usize::MAX,
        ensures
            (final(self)@, r@) == old(self)@.with_prompt(PromptView::Help { index: index as int }).help_answered(
                index as int,
                key,
            ),
            final(self)@.wf(),
    {
        let index: usize = match key as char {
            'j' | 'l' | ' ' => help::next_help_index(index, 1),
            'k' | 'h' | '\u{7f}' | '\u{8}' => help::next_help_index(index, -1),
            'g' => 0,
            'G' => help::SHORTCUT_COUNT - 1,
            'q' | '?' | '\u{1b}' | '\u{3}' | '\r' | '\n' => {
                self.status = "Closed help".to_owned();
                return Effect::Continue;
            },
            _ => index,
        };
        self.prompt = Some(Prompt::Help { index });
        Effect::Continue
    }

    /// Takes a key while a question is open.
    pub fn handle_prompt(&mut self, key: u8) -> (r: Effect)
        requires
            old(self)@.wf(),
        ensures
            (final(self)@, r@) == old(self)@.answered(key),
            final(self)@.wf(),
            r@ matches EffectView::SaveName(submission) ==> 0 <= submission.group_index
                < final(self)@.groups.groups.len(),
    {
        let ghost m = self@;
        let mut open: Option<Prompt> = None;
        core::mem::swap(&mut open, &mut self.prompt);
        assert(self@ == (Model { prompt: None, ..m }));
        match open {
            None => Effect::Continue,
            Some(Prompt::Name { label, value, action }) => {
                assert(self@.with_prompt(m.prompt->0) == m);
                self.answer_name(label, value, action, key)
            },
            Some(Prompt::Move { session_names, choice }) => {
                assert(self@.with_prompt(m.prompt->0) == m);
                self.answer_move(session_names, choice, key)
            },
            Some(Prompt::ConfirmKill { session_names, skipped_current }) => {
                match key as char {
                    'y' | 'Y' => Effect::KillAll { session_names, skipped_current },
                    'n' | 'N' | '\u{1b}' | '\u{3}' => self.cancel(),
                    _ => {
                        self.prompt = Some(Prompt::ConfirmKill { session_names, skipped_current });
                        Effect::Continue
                    },
                }
            },
            Some(Prompt::Action { choice }) => {
                assert(self@.with_prompt(m.prompt->0) == m);
                self.answer_action(choice, key)
            },
            Some(Prompt::Help { index }) => {
                assert(self@.with_prompt(m.prompt->0) == m);
                self.answer_help(index, key)
            },
        }
    }
}

/// A name that is accepted belongs to a group that is there.
proof fn lemma_submitted_exists(m: Model, value: Seq<char>, action: NameActionView)
    requires
        action matches NameActionView::Rename(i) ==> i >= 0,
    ensures
        m.submitted(value, action) matches Ok((done, i)) ==> 0 <= i < done.groups.groups.len(),
{
    let groups = m.groups.groups;
    if let Ok(name) = groups::checked_name(groups, value, None) {
        let more = groups.push(GroupView { name, collapsed: false, sessions: Seq::empty() });
        if let NameActionView::CreateAndMove(session_names) = action {
            organize::lemma_all_moved_len(more, session_names, Some(groups.len() as int), 0);
        }
    }
}

/// The escape key closes any question and changes nothing but the status.
pub proof fn escape_closes_prompts(m: Model)
    requires
        m.prompt is Some,
    ensures
        m.answered(0x1b).0 == (Model { prompt: None, status: m.answered(0x1b).0.status, ..m }),
        m.answered(0x1b).1 is Continue,
{
}

/// A name that is refused leaves the question open and the groups as they were, and the status says why.
pub proof fn refused_name_is_asked_again(m: Model, label: Seq<char>, value: Seq<char>, why: Seq<char>)
    requires
        m.prompt == Some(PromptView::Name { label, value, action: NameActionView::Create }),
        groups::checked_name(m.groups.groups, value, None) == Err::<Seq<char>, Seq<char>>(why),
    ensures
        m.answered(0x0d).0 == m.with_status(why),
        m.answered(0x0d).1 is Continue,
{
}

/// Typing a character and deleting it leaves the question as it was.
pub proof fn deleting_undoes_typing(m: Model, label: Seq<char>, value: Seq<char>, action: NameActionView, key: u8)
    requires
        m.prompt == Some(PromptView::Name { label, value, action }),
        is_typed(key),
    ensures
        m.answered(key).0.answered(0x7f).0 == m,
{
    assert(value.push(key as char).drop_last() =~= value);
}

} // verus!
