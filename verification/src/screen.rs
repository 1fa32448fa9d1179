//! What the picker shows, as text with the control sequences of a terminal.

use vstd::prelude::*;
use vstd::string::*;

use crate::groups::UNGROUPED_NAME;
use crate::help;
use crate::layout;
use crate::marks;
use crate::navigation;
use crate::picker::{App, Model, Pane};
use crate::prompts;
use crate::prompts::{Prompt, PromptView};
use crate::rows;
use crate::rows::VisibleRow;
use crate::text;

verus! {

/// Moves to a place on the screen.
pub open spec fn position(row: int, col: int) -> Seq<char> {
    "\x1b["@ + text::digits(row as nat) + ";"@ + text::digits(col as nat) + "H"@
}

/// Moves to the start of a row, and clears it.
pub open spec fn cleared(row: int) -> Seq<char> {
    "\x1b["@ + text::digits(row as nat) + ";1H\x1b[2K"@
}

/// A text, in reverse video where it is selected.
pub open spec fn highlighted(line: Seq<char>, selected: bool) -> Seq<char> {
    if selected {
        "\x1b[7m"@ + line + "\x1b[0m"@
    } else {
        line
    }
}

/// A row of the screen with a text at its start.
pub open spec fn row_with(row: int, line: Seq<char>, selected: bool) -> Seq<char> {
    cleared(row) + highlighted(line, selected)
}

/// A row of the screen with a text from a column on.
pub open spec fn row_with_at(row: int, col: int, line: Seq<char>, selected: bool) -> Seq<char> {
    cleared(row) + position(row, col) + highlighted(line, selected)
}

/// A text from a column of a row on; nothing where there is no text.
pub open spec fn placed(row: int, col: int, line: Seq<char>, selected: bool) -> Seq<char> {
    if line.len() == 0 {
        Seq::empty()
    } else {
        position(row, col) + highlighted(line, selected)
    }
}

pub fn move_to(row: usize, col: usize) -> (r: String)
    ensures
        r@ == position(row as int, col as int),
{
    let mut out = "\x1b[".to_owned();
    out.append(&text::count(row));
    out.append(";");
    out.append(&text::count(col));
    out.append("H");
    out
}

pub fn clear_row(row: usize) -> (r: String)
    ensures
        r@ == cleared(row as int),
{
    let mut out = "\x1b[".to_owned();
    out.append(&text::count(row));
    out.append(";1H\x1b[2K");
    out
}

fn highlight(line: &str, selected: bool) -> (r: String)
    ensures
        r@ == highlighted(line@, selected),
{
    if selected {
        let mut out = "\x1b[7m".to_owned();
        out.append(line);
        out.append("\x1b[0m");
        out
    } else {
        line.to_owned()
    }
}

/// A row of the screen with a text at its start.
pub fn write_row(row: usize, line: &str, selected: bool) -> (r: String)
    ensures
        r@ == row_with(row as int, line@, selected),
{
    let mut out = clear_row(row);
    out.append(&highlight(line, selected));
    out
}

/// A row of the screen with a text from a column on.
pub fn write_at(row: usize, col: usize, line: &str, selected: bool) -> (r: String)
    ensures
        r@ == row_with_at(row as int, col as int, line@, selected),
{
    let mut out = clear_row(row);
    out.append(&move_to(row, col));
    out.append(&highlight(line, selected));
    out
}

fn place(row: usize, col: usize, line: &str, selected: bool) -> (r: String)
    ensures
        r@ == placed(row as int, col as int, line@, selected),
{
    if line.is_empty() {
        return String::new();
    }
    let mut out = move_to(row, col);
    out.append(&highlight(line, selected));
    out
}

/// The longest of the lines from index `i` on.
pub open spec fn widest_from(lines: Seq<Seq<char>>, i: int) -> int
    decreases lines.len() - i,
{
    if i >= lines.len() {
        0
    } else {
        layout::at_least(lines[i].len() as int, widest_from(lines, i + 1))
    }
}

/// A box in the middle of the screen.
pub struct Popup {
    pub row: int,
    pub col: int,
    pub width: int,
    pub height: int,
}

/// The box of a height for lines, as wide as the longest of them if that fits.
pub open spec fn popup_for(lines: Seq<Seq<char>>, height: int, rows: int, cols: int) -> Popup {
    let content = navigation::at_most(widest_from(lines, 0), layout::at_least(cols - 4, 1));
    let width = navigation::at_most(content + 4, layout::at_least(cols, 1));
    Popup {
        row: layout::at_least(rows - height, 0) / 2 + 1,
        col: layout::at_least(cols - width, 0) / 2 + 1,
        width,
        height,
    }
}

impl Popup {
    pub open spec fn border(self) -> Seq<char> {
        "+"@ + text::repeated('-', layout::at_least(self.width - 2, 0)) + "+"@
    }

    /// A line within the borders.
    pub open spec fn inner(self, line: Seq<char>) -> Seq<char> {
        let room = layout::at_least(self.width - 4, 0);
        "| "@ + text::padded_right(text::truncated(line, room), room) + " |"@
    }

    /// The rows between the borders, from the `i`th on. Behind the last line they are empty.
    pub open spec fn body_from(self, lines: Seq<Seq<char>>, i: int) -> Seq<char>
        decreases self.height - 2 - i,
    {
        if i >= self.height - 2 {
            Seq::empty()
        } else {
            let line = if i < lines.len() { lines[i] } else { Seq::empty() };
            row_with_at(self.row + i + 1, self.col, self.inner(line), false) + self.body_from(lines, i + 1)
        }
    }

    /// The whole box.
    pub open spec fn drawn(self, lines: Seq<Seq<char>>) -> Seq<char> {
        row_with_at(self.row, self.col, self.border(), false) + self.body_from(lines, 0) + row_with_at(
            self.row + self.height - 1,
            self.col,
            self.border(),
            false,
        )
    }
}

fn widest(lines: &Vec<String>) -> (r: usize)
    ensures
        r == widest_from(text::views(lines@), 0),
{
    let ghost all = text::views(lines@);
    let mut found: usize = 0;
    let mut i: usize = lines.len();
    while i > 0
        invariant
            i <= lines.len(),
            all == text::views(lines@),
            found == widest_from(all, i as int),
        decreases i,
    {
        i -= 1;
        assert(all[i as int] == lines@[i as int]@);
        let width: usize = lines[i].as_str().unicode_len();
        if width > found {
            found = width;
        }
    }
    found
}

/// A box of a height in the middle of the screen, with lines in it.
fn draw_popup(lines: &Vec<String>, height: usize, rows: usize, cols: usize) -> (r: String)
    requires
        1 <= height,
        height <= rows || height == 1,
    ensures
        r@ == popup_for(text::views(lines@), height as int, rows as int, cols as int).drawn(text::views(lines@)),
{
    let ghost all = text::views(lines@);
    let ghost popup = popup_for(all, height as int, rows as int, cols as int);
    let longest: usize = widest(lines);
    let limit: usize = if cols > 5 { cols - 4 } else { 1 };
    let content: usize = if longest < limit { longest } else { limit };
    let screen: usize = if cols > 1 { cols } else { 1 };
    let width: usize = if content + 4 < screen { content + 4 } else { screen };
    let row: usize = rows.saturating_sub(height) / 2 + 1;
    let col: usize = cols.saturating_sub(width) / 2 + 1;
    let room: usize = width.saturating_sub(4);
    assert(popup == (Popup { row: row as int, col: col as int, width: width as int, height: height as int }));
    let mut border = "+".to_owned();
    border.append(&text::repeat('-', width.saturating_sub(2)));
    border.append("+");
    assert(border@ == popup.border());
    let mut out = write_at(row, col, &border, false);
    let ghost top = out@;
    let body: usize = height.saturating_sub(2);
    let mut i: usize = 0;
    assert(out@ + popup.body_from(all, 0) =~= top + popup.body_from(all, 0));
    while i < body
        invariant
            i <= body,
            body == height.saturating_sub(2),
            1 <= height,
            height <= rows || height == 1,
            row == (if rows >= height { rows - height } else { 0 }) / 2 + 1,
            all == text::views(lines@),
            popup == (Popup { row: row as int, col: col as int, width: width as int, height: height as int }),
            room == layout::at_least(width - 4, 0),
            top + popup.body_from(all, 0) == out@ + popup.body_from(all, i as int),
        decreases body - i,
    {
        let ghost before = out@;
        let mut line = "| ".to_owned();
        if i < lines.len() {
            assert(all[i as int] == lines@[i as int]@);
            line.append(&text::pad_right(&text::truncate(&lines[i], room), room));
        } else {
            proof {
                reveal_strlit("");
                assert(""@ =~= Seq::empty());
            }
            line.append(&text::pad_right(&text::truncate("", room), room));
        }
        line.append(" |");
        let shown = write_at(row + i + 1, col, &line, false);
        out.append(&shown);
        assert(before + (shown@ + popup.body_from(all, i + 1)) =~= out@ + popup.body_from(all, i + 1));
        i += 1;
    }
    assert(out@ + Seq::<char>::empty() =~= out@);
    out.append(&write_at(row + (height - 1), col, &border, false));
    out
}

impl Model {
    /// The name and the number of sessions of a header. While some of them are marked it says how many.
    pub open spec fn header_text(self, pointer: Seq<char>, header: int) -> Seq<char> {
        let members = rows::group_members(self.sessions, self.groups.groups, header);
        let marked = marks::marked_from(self.sessions, members, self.marked, 0);
        let count = if marked > 0 {
            text::digits(marked) + "/"@ + text::digits(members.len())
        } else {
            text::digits(members.len())
        };
        let listing = self.listing(self.focus);
        pointer + " "@ + (if listing.collapsed(header) { "▸"@ } else { "▼"@ }) + " "@ + rows::header_title(self.groups.groups, header) + " ("@
            + count + ")"@
    }

    /// The first visible row of a list.
    pub open spec fn top_of(self, pane: Pane) -> int {
        if pane == self.focus {
            self.top
        } else {
            self.parked_top
        }
    }

    /// Whether the `k`th visible row of a list is under the cursor.
    pub open spec fn is_pointed(self, pane: Pane, k: int) -> bool {
        pane == self.focus && self.top + k == self.selected
    }

    /// The `k`th visible row of a list, as wide as the list can be.
    pub open spec fn line(self, pane: Pane, k: int, now: u64) -> Seq<char> {
        let list = self.rows_of(pane);
        let i = self.top_of(pane) + k;
        let pointer = help::marker(self.is_pointed(pane, k));
        if i >= list.len() {
            Seq::empty()
        } else {
            text::truncated(
                match list[i] {
                    VisibleRow::Group(header) => self.header_text(pointer, header as int),
                    VisibleRow::Session(n) => prompts::session_text(
                        pointer,
                        self.sessions[n as int],
                        self.marked,
                        self.name_width(pane),
                        layout::ACTIVITY_WIDTH as int,
                        now,
                    ),
                },
                self.pane_width(pane),
            )
        }
    }

    /// The `k`th visible row of a list on the screen. A list without columns is not shown.
    pub open spec fn segment(self, pane: Pane, k: int, now: u64) -> Seq<char> {
        if pane == Pane::Active && self.active_cols() == 0 {
            Seq::empty()
        } else {
            placed(
                self.list_row_start() + k,
                self.pane_col(pane),
                self.line(pane, k, now),
                self.is_pointed(pane, k),
            )
        }
    }

    /// The `k`th visible row of both lists on the screen.
    pub open spec fn list_row(self, k: int, now: u64) -> Seq<char> {
        cleared(self.list_row_start() + k) + self.segment(Pane::Active, k, now) + self.segment(Pane::All, k, now)
    }

    /// The visible rows of both lists from the `k`th on.
    pub open spec fn list_area_from(self, k: int, now: u64) -> Seq<char>
        decreases self.list_height() - k,
    {
        if k >= self.list_height() {
            Seq::empty()
        } else {
            self.list_row(k, now) + self.list_area_from(k + 1, now)
        }
    }

    /// The line above the lists, where there is room for it: what the picker is doing.
    pub open spec fn mode_area(self) -> Seq<char> {
        if self.list_row_start() > 1 {
            row_with_at(
                self.list_row_start() - 1,
                1,
                text::truncated(
                    prompts::mode_text(
                        self.prompt,
                        self.searching,
                        self.query,
                        self.has_matches(),
                        self.marked_names().len() as int,
                    ),
                    self.cols,
                ),
                false,
            )
        } else {
            Seq::empty()
        }
    }

    /// What the status row says while a question is open.
    pub open spec fn prompt_text(self, prompt: PromptView) -> Seq<char> {
        let groups = self.groups.groups;
        match prompt {
            PromptView::Name { label, value, .. } => label + ": "@ + value,
            PromptView::Move { session_names, choice } => "MOVE "@ + text::digits(session_names.len())
                + " sessions -> ["@ + (if choice < groups.len() {
                groups[choice].name
            } else if choice == groups.len() {
                UNGROUPED_NAME@
            } else {
                "New group..."@
            }) + "]  j/k choose  Enter confirm  Esc cancel"@,
            PromptView::ConfirmKill { session_names, skipped_current } => "KILL "@ + text::digits(
                session_names.len(),
            ) + " sessions"@ + (if skipped_current > 0 { " (current skipped)"@ } else { ""@ }) + "? y/N"@,
            PromptView::Action { choice } => "SELECTED "@ + text::digits(self.marked_names().len())
                + " sessions: ["@ + action_name(choice) + "]  j/k choose  Enter confirm  Esc cancel"@,
            PromptView::Help { .. } => "Shortcut help open"@,
        }
    }

    /// What the status row says.
    pub open spec fn status_text(self) -> Seq<char> {
        match self.prompt {
            Some(prompt) => self.prompt_text(prompt),
            None => if self.searching && self.has_matches() {
                "SEARCH /"@ + self.query
            } else if self.searching {
                "SEARCH /"@ + self.query + "  No matching sessions"@
            } else {
                self.status
            },
        }
    }

    /// The rows below the lists: a blank one, the status, and nothing behind it.
    pub open spec fn footer(self) -> Seq<char> {
        let layout = self.layout_of(self.focus);
        let quiet = self.prompt is None && !self.searching && self.status.len() == 0;
        let status = if quiet {
            row_with(layout.status_row, ""@, false)
        } else {
            row_with_at(layout.status_row, 1, text::truncated(self.status_text(), self.cols), false)
        };
        row_with(layout.blank_row, ""@, false) + status + ("\x1b["@ + text::digits((layout.status_row + 1) as nat)
            + ";1H\x1b[J"@)
    }

    /// The box that asks where sessions are to be moved.
    pub open spec fn move_popup(self) -> Seq<char> {
        match self.prompt {
            Some(PromptView::Move { session_names, choice }) => {
                let lines = prompts::move_lines(self.groups.groups, choice, session_names.len() as int);
                let height = navigation::at_most((lines.len() + 2) as int, layout::at_least(self.rows, 1));
                popup_for(lines, height, self.rows, self.cols).drawn(lines)
            },
            _ => Seq::empty(),
        }
    }

    /// The box that shows the shortcuts.
    pub open spec fn help_popup(self) -> Seq<char> {
        match self.prompt {
            Some(PromptView::Help { index }) => {
                let height = navigation::at_most(help::help_height(self.rows), layout::at_least(self.rows, 1));
                let lines = help::help_lines(index, layout::at_least(height - 4, 1));
                popup_for(lines, height, self.rows, self.cols).drawn(lines)
            },
            _ => Seq::empty(),
        }
    }

    /// The whole screen at the time `now`, in seconds.
    pub open spec fn frame(self, now: u64) -> Seq<char> {
        "\x1b[H\x1b[2J"@ + self.mode_area() + self.list_area_from(0, now) + self.footer() + self.move_popup()
            + self.help_popup()
    }
}

/// The actions on marked sessions.
pub open spec fn action_name(choice: int) -> Seq<char> {
    if choice == 0 {
        "move"@
    } else if choice == 1 {
        "pin/unpin"@
    } else if choice == 2 {
        "kill"@
    } else {
        "clear"@
    }
}

fn action_text(choice: usize) -> (r: &'static str)
    ensures
        r@ == action_name(choice as int),
{
    match choice {
        0 => "move",
        1 => "pin/unpin",
        2 => "kill",
        _ => "clear",
    }
}

impl App {
    /// The name and the number of sessions of a header.
    fn header_line(&self, pointer: &str, header: usize) -> (r: String)
        ensures
            r@ == self@.header_text(pointer@, header as int),
    {
        let (marked, total) = marks::selected_count_for_group(
            &self.sessions,
            &self.groups,
            &self.selected_sessions,
            header,
        );
        let grouped = header < self.groups.groups.len();
        let collapsed = if grouped { self.groups.groups[header].collapsed } else { self.ungrouped_collapsed };
        let title = if grouped { self.groups.groups[header].name.clone() } else { UNGROUPED_NAME.to_owned() };
        let mut count = text::count(if marked > 0 { marked } else { total });
        if marked > 0 {
            count.append("/");
            count.append(&text::count(total));
        }
        let mut line = pointer.to_owned();
        line.append(" ");
        line.append(if collapsed { "▸" } else { "▼" });
        line.append(" ");
        line.append(&title);
        line.append(" (");
        line.append(&count);
        line.append(")");
        line
    }

    /// The visible row of a list at an offset, of which `list` has the rows.
    fn line_of(&self, pane: Pane, list: &Vec<VisibleRow>, offset: usize, now: u64) -> (r: String)
        requires
            self.rows < usize::MAX,
            list@ == self@.rows_of(pane),
            forall|k: int|
                0 <= k < list.len() ==> rows::row_exists(
                    #[trigger] list@[k],
                    self.sessions.len() as int,
                    self@.groups.groups.len() as int,
                ),
        ensures
            r@ == self@.line(pane, offset as int, now),
    {
        let top: usize = if pane == self.focus { self.top } else { self.parked_top };
        if top >= list.len() || offset >= list.len() - top {
            return String::new();
        }
        let pointer = help::marker_text(pane == self.focus && top + offset == self.selected);
        let line = match list[top + offset] {
            VisibleRow::Group(header) => self.header_line(pointer, header),
            VisibleRow::Session(index) => {
                assert(rows::row_exists(
                    list@[top + offset],
                    self.sessions.len() as int,
                    self@.groups.groups.len() as int,
                ));
                assert(self@.sessions[index as int] == self.sessions@[index as int]@);
                let layout = self.layout_of(pane);
                prompts::session_row_line(
                    pointer,
                    &self.sessions[index],
                    &self.selected_sessions,
                    layout.name_width,
                    layout.activity_width,
                    now,
                )
            },
        };
        text::truncate(&line, self.pane_width(pane))
    }

    /// The visible row of a list at an offset, on the screen.
    fn render_segment(&self, pane: Pane, list: &Vec<VisibleRow>, offset: usize, now: u64) -> (r: String)
        requires
            self.rows < usize::MAX,
            offset < self@.list_height(),
            list@ == self@.rows_of(pane),
            forall|k: int|
                0 <= k < list.len() ==> rows::row_exists(
                    #[trigger] list@[k],
                    self.sessions.len() as int,
                    self@.groups.groups.len() as int,
                ),
        ensures
            r@ == self@.segment(pane, offset as int, now),
    {
        if pane == Pane::Active && self.active_cols() == 0 {
            return String::new();
        }
        let layout = self.layout_of(pane);
        let line = self.line_of(pane, list, offset, now);
        let pointed = pane == self.focus && self.selected >= self.top && self.selected - self.top == offset;
        place(layout.list_row_start + offset, layout.table_col, &line, pointed)
    }

    /// The visible row of both lists at an offset, on the screen.
    fn render_row_at(
        &self,
        active: &Vec<VisibleRow>,
        all: &Vec<VisibleRow>,
        offset: usize,
        now: u64,
    ) -> (r: String)
        requires
            self.rows < usize::MAX,
            offset < self@.list_height(),
            active@ == self@.rows_of(Pane::Active),
            all@ == self@.rows_of(Pane::All),
            forall|k: int|
                0 <= k < active.len() ==> rows::row_exists(
                    #[trigger] active@[k],
                    self.sessions.len() as int,
                    self@.groups.groups.len() as int,
                ),
            forall|k: int|
                0 <= k < all.len() ==> rows::row_exists(
                    #[trigger] all@[k],
                    self.sessions.len() as int,
                    self@.groups.groups.len() as int,
                ),
        ensures
            r@ == self@.list_row(offset as int, now),
    {
        let mut out = clear_row(self.layout().list_row_start + offset);
        out.append(&self.render_segment(Pane::Active, active, offset, now));
        out.append(&self.render_segment(Pane::All, all, offset, now));
        out
    }

    /// The visible rows of both lists.
    pub fn render_list_area(&self, now: u64) -> (r: String)
        requires
            self.rows < usize::MAX,
        ensures
            r@ == self@.list_area_from(0, now),
    {
        let active = self.rows_in(Pane::Active);
        let all = self.rows_in(Pane::All);
        let height: usize = self.visible_list_height();
        let mut out = String::new();
        let mut k: usize = 0;
        assert(out@ + self@.list_area_from(0, now) =~= self@.list_area_from(0, now));
        while k < height
            invariant
                k <= height == self@.list_height(),
                self.rows < usize::MAX,
                active@ == self@.rows_of(Pane::Active),
                all@ == self@.rows_of(Pane::All),
                forall|k: int|
                    0 <= k < active.len() ==> rows::row_exists(
                        #[trigger] active@[k],
                        self.sessions.len() as int,
                        self@.groups.groups.len() as int,
                    ),
                forall|k: int|
                    0 <= k < all.len() ==> rows::row_exists(
                        #[trigger] all@[k],
                        self.sessions.len() as int,
                        self@.groups.groups.len() as int,
                    ),
                self@.list_area_from(0, now) == out@ + self@.list_area_from(k as int, now),
            decreases height - k,
        {
            let ghost before = out@;
            let row = self.render_row_at(&active, &all, k, now);
            out.append(&row);
            assert(before + (row@ + self@.list_area_from(k + 1, now)) =~= out@ + self@.list_area_from(k + 1, now));
            k += 1;
        }
        assert(out@ + Seq::<char>::empty() =~= out@);
        out
    }

    /// The line above the lists.
    pub fn render_static(&self) -> (r: String)
        requires
            self.rows < usize::MAX,
        ensures
            r@ == self@.mode_area(),
    {
        let layout = self.layout();
        if layout.list_row_start <= 1 {
            return String::new();
        }
        let names = self.selected_live_session_names();
        assert(names.len() == text::views(names@).len());
        let label = prompts::mode_line(
            self.prompt.as_ref(),
            self.searching,
            &self.query,
            self.has_matches(),
            names.len(),
        );
        write_at(layout.list_row_start - 1, 1, &text::truncate(&label, self.cols), false)
    }

    /// What the status row says while a question is open.
    fn prompt_line(&self, prompt: &Prompt) -> (r: String)
        ensures
            r@ == self@.prompt_text(prompt@),
    {
        match prompt {
            Prompt::Name { label, value, .. } => {
                let mut line = (*label).to_owned();
                line.append(": ");
                line.append(value);
                line
            },
            Prompt::Move { session_names, choice } => {
                assert(session_names.len() == text::views(session_names@).len());
                let count: usize = self.groups.groups.len();
                let mut line = "MOVE ".to_owned();
                line.append(&text::count(session_names.len()));
                line.append(" sessions -> [");
                if *choice < count {
                    assert(self@.groups.groups[*choice as int] == self.groups.groups@[*choice as int]@);
                    line.append(&self.groups.groups[*choice].name);
                } else if *choice == count {
                    line.append(UNGROUPED_NAME);
                } else {
                    line.append("New group...");
                }
                line.append("]  j/k choose  Enter confirm  Esc cancel");
                line
            },
            Prompt::ConfirmKill { session_names, skipped_current } => {
                assert(session_names.len() == text::views(session_names@).len());
                let mut line = "KILL ".to_owned();
                line.append(&text::count(session_names.len()));
                line.append(" sessions");
                line.append(if *skipped_current > 0 { " (current skipped)" } else { "" });
                line.append("? y/N");
                line
            },
            Prompt::Action { choice } => {
                let names = self.selected_live_session_names();
                assert(names.len() == text::views(names@).len());
                let mut line = "SELECTED ".to_owned();
                line.append(&text::count(names.len()));
                line.append(" sessions: [");
                line.append(action_text(*choice));
                line.append("]  j/k choose  Enter confirm  Esc cancel");
                line
            },
            Prompt::Help { .. } => "Shortcut help open".to_owned(),
        }
    }

    /// What the status row says.
    fn status_line(&self) -> (r: String)
        ensures
            r@ == self@.status_text(),
    {
        match &self.prompt {
            Some(prompt) => self.prompt_line(prompt),
            None => {
                if self.searching {
                    let mut line = "SEARCH /".to_owned();
                    line.append(&self.query);
                    if !self.has_matches() {
                        line.append("  No matching sessions");
                    }
                    line
                } else {
                    self.status.clone()
                }
            },
        }
    }

    /// The rows below the lists.
    pub fn render_footer(&self) -> (r: String)
        requires
            self.rows < usize::MAX,
        ensures
            r@ == self@.footer(),
    {
        let layout = self.layout();
        let mut out = write_row(layout.blank_row, "", false);
        if self.prompt.is_none() && !self.searching && self.status.as_str().is_empty() {
            out.append(&write_row(layout.status_row, "", false));
        } else {
            let line = text::truncate(&self.status_line(), self.cols);
            out.append(&write_at(layout.status_row, 1, &line, false));
        }
        let mut end = "\x1b[".to_owned();
        end.append(&text::count(layout.status_row + 1));
        end.append(";1H\x1b[J");
        out.append(&end);
        out
    }

    /// The box that asks where sessions are to be moved, while it is asked.
    pub fn render_move_popup(&self) -> (r: String)
        ensures
            r@ == self@.move_popup(),
    {
        match &self.prompt {
            Some(Prompt::Move { session_names, choice }) => {
                assert(session_names.len() == text::views(session_names@).len());
                let lines = prompts::move_popup_lines(&self.groups, *choice, session_names.len());
                assert(lines.len() == text::views(lines@).len());
                let screen: usize = if self.rows > 1 { self.rows } else { 1 };
                let wanted: usize = lines.len().saturating_add(2);
                let height: usize = if wanted < screen { wanted } else { screen };
                draw_popup(&lines, height, self.rows, self.cols)
            },
            _ => String::new(),
        }
    }

    /// The box that shows the shortcuts, while it is open.
    pub fn render_help_popup(&self) -> (r: String)
        requires
            self@.prompt_fits(),
        ensures
            r@ == self@.help_popup(),
    {
        match &self.prompt {
            Some(Prompt::Help { index }) => {
                let screen: usize = if self.rows > 1 { self.rows } else { 1 };
                let wanted: usize = help::help_popup_height(self.rows);
                let height: usize = if wanted < screen { wanted } else { screen };
                let entries: usize = if height > 5 { height - 4 } else { 1 };
                let lines = help::help_popup_lines(*index, entries);
                draw_popup(&lines, height, self.rows, self.cols)
            },
            _ => String::new(),
        }
    }

    /// The whole screen at the time `now`, in seconds.
    pub fn render_full(&self, now: u64) -> (r: String)
        requires
            self@.wf(),
        ensures
            r@ == self@.frame(now),
    {
        let mut out = "\x1b[H\x1b[2J".to_owned();
        out.append(&self.render_static());
        out.append(&self.render_list_area(now));
        out.append(&self.render_footer());
        out.append(&self.render_move_popup());
        out.append(&self.render_help_popup());
        out
    }
}

/// No row of a list is wider than the list, whose width is taken as 1 at least:
/// the rows of one list do not run into the other.
pub proof fn lines_fit_their_list(m: Model, pane: Pane, k: int, now: u64)
    ensures
        m.line(pane, k, now).len() <= layout::at_least(m.pane_width(pane), 1),
{
    let list = m.rows_of(pane);
    let i = m.top_of(pane) + k;
    let pointer = help::marker(m.is_pointed(pane, k));
    if i < list.len() {
        match list[i] {
            VisibleRow::Group(header) => {
                text::truncation_fits(m.header_text(pointer, header as int), m.pane_width(pane));
            },
            VisibleRow::Session(n) => {
                text::truncation_fits(
                    prompts::session_text(
                        pointer,
                        m.sessions[n as int],
                        m.marked,
                        m.name_width(pane),
                        layout::ACTIVITY_WIDTH as int,
                        now,
                    ),
                    m.pane_width(pane),
                );
            },
        }
    }
}

/// A popup is on the screen, where the screen has five columns and the popup has
/// no more rows than the screen; its borders and its lines are all as wide as it is.
pub proof fn popups_fit_the_screen(lines: Seq<Seq<char>>, height: int, rows: int, cols: int, line: Seq<char>)
    requires
        cols >= 5,
        1 <= height <= rows,
    ensures
        ({
            let popup = popup_for(lines, height, rows, cols);
            &&& 1 <= popup.row && popup.row + height - 1 <= rows
            &&& 1 <= popup.col && popup.col + popup.width - 1 <= cols
            &&& popup.border().len() == popup.width
            &&& popup.width >= 5 ==> popup.inner(line).len() == popup.width
        }),
{
    lemma_widest(lines, 0);
    let popup = popup_for(lines, height, rows, cols);
    reveal_strlit("+");
    reveal_strlit("| ");
    reveal_strlit(" |");
    text::truncation_fits(line, popup.width - 4);
}

proof fn lemma_widest(lines: Seq<Seq<char>>, i: int)
    ensures
        widest_from(lines, i) >= 0,
    decreases lines.len() - i,
{
    if i < lines.len() {
        lemma_widest(lines, i + 1);
    }
}

} // verus!
