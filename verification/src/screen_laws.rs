//! Laws of what is shown on the screen.

use vstd::prelude::*;
use vstd::string::*;

use crate::groups::UNGROUPED_NAME;
use crate::layout;
use crate::list_laws;
use crate::marks;
use crate::picker::{Model, Pane};
use crate::prompts;
use crate::prompts::PromptView;
use crate::rows;
use crate::rows::VisibleRow;
use crate::screen;
use crate::sessions::SessionView;
use crate::text;

verus! {

/// The row of a session starts with the pointer and then has its name, behind a
/// checkbox where sessions are marked, which is ticked if and only if the session
/// is. It ends with an exclamation mark if and only if the session is pinned, and
/// before that has an asterisk if and only if it is the current one.
pub proof fn session_row_shows_the_session(
    pointer: Seq<char>,
    x: SessionView,
    marked: Set<Seq<char>>,
    name_width: int,
    activity_width: int,
    now: u64,
)
    requires
        pointer.len() == 1,
    ensures
        ({
            let line = prompts::session_text(pointer, x, marked, name_width, activity_width, now);
            let at = if marked == Set::<Seq<char>>::empty() { 4int } else { 6int };
            let count = line.len() as int;
            &&& count >= at + x.name.len() + 9
            &&& line[0] == pointer[0]
            &&& line.subrange(at, at + x.name.len()) == x.name
            &&& marked != Set::<Seq<char>>::empty() ==> line[2] == '[' && line[4] == ']' && line[3] == (
            if marked.contains(x.name) {
                'x'
            } else {
                ' '
            })
            &&& line[count - 1] == (if x.pinned { '!' } else { ' ' })
            &&& line[count - 4] == (if x.is_current { '*' } else { ' ' })
        }),
{
    reveal_strlit("   ");
    reveal_strlit(" [x] ");
    reveal_strlit(" [ ] ");
    reveal_strlit("  ");
    reveal_strlit(" ");
    reveal_strlit("!");
    reveal_strlit("*");
    reveal_strlit("");
    let line = prompts::session_text(pointer, x, marked, name_width, activity_width, now);
    let box_text = if marked == Set::<Seq<char>>::empty() {
        "   "@
    } else if marked.contains(x.name) {
        " [x] "@
    } else {
        " [ ] "@
    };
    let at = if marked == Set::<Seq<char>>::empty() { 4int } else { 6int };
    let name = text::padded_right(x.name, name_width);
    let activity = text::padded_left(prompts::activity_text(x.last_activity, now), activity_width);
    let star = text::centered(if x.is_current { "*"@ } else { ""@ }, 3);
    let pin = if x.pinned { "!"@ } else { " "@ };
    assert(star.len() == 3 && star[1] == (if x.is_current { '*' } else { ' ' }));
    let front = pointer + box_text + name + "  "@ + activity + "  "@;
    assert(line =~= front + star + " "@ + pin);
    assert(front.len() >= at + x.name.len() + 4);
    assert(line.subrange(at, at + x.name.len()) =~= x.name) by {
        assert forall|j: int| 0 <= j < x.name.len() implies line[at + j] == x.name[j] by {
            assert(name[j] == x.name[j]);
        }
    }
}

proof fn lemma_area(m: Model, k: int, j: int, now: u64) -> (r: (Seq<char>, Seq<char>))
    requires
        0 <= k <= j < m.list_height(),
    ensures
        m.list_area_from(k, now) == r.0 + m.list_row(j, now) + r.1,
    decreases j - k,
{
    if k < j {
        let (a, b) = lemma_area(m, k + 1, j, now);
        let front = m.list_row(k, now) + a;
        assert(m.list_area_from(k, now) =~= front + m.list_row(j, now) + b);
        (front, b)
    } else {
        let rest = m.list_area_from(k + 1, now);
        assert(m.list_area_from(k, now) =~= Seq::empty() + m.list_row(j, now) + rest);
        (Seq::empty(), rest)
    }
}

/// What is drawn in a row of the screen from a column on, in reverse video where the cursor is on it.
pub open spec fn drawn_at(row: int, col: int, line: Seq<char>, selected: bool) -> Seq<char> {
    "\x1b["@ + text::digits(row as nat) + ";"@ + text::digits(col as nat) + "H"@ + (if selected {
        "\x1b[7m"@ + line + "\x1b[0m"@
    } else {
        line
    })
}

/// The row of a list that is at `index`, as text.
pub open spec fn row_text(m: Model, pane: Pane, index: int, now: u64) -> Seq<char> {
    let selected = pane == m.focus && index == m.selected;
    let pointer = if selected { ">"@ } else { " "@ };
    match m.rows_of(pane)[index] {
        VisibleRow::Group(header) => m.header_text(pointer, header as int),
        VisibleRow::Session(i) => prompts::session_text(
            pointer,
            m.sessions[i as int],
            m.marked,
            m.name_width(pane),
            4,
            now,
        ),
    }
}

proof fn lemma_within(a: Seq<char>, b: Seq<char>, c: Seq<char>, part: Seq<char>, d: Seq<char>, e: Seq<char>)
    ensures
        text::occurs_in(part, a + (b + (c + part + d)) + e),
{
    let before = a + b + c;
    let behind = d + e;
    assert(a + (b + (c + part + d)) + e =~= before + part + behind);
    text::parts_occur(before, part, behind);
}

proof fn lemma_frame_row(m: Model, k: int, now: u64, c: Seq<char>, part: Seq<char>, d: Seq<char>)
    requires
        0 <= k < m.list_height(),
        m.list_row(k, now) == c + part + d,
    ensures
        text::occurs_in(part, m.frame(now)),
{
    let (a, b) = lemma_area(m, 0, k, now);
    let start = "\x1b[H\x1b[2J"@ + m.mode_area();
    let end = b + m.footer() + m.move_popup() + m.help_popup();
    let row = c + part + d;
    lemma_sides(start, a, row, b, m.footer(), m.move_popup(), m.help_popup());
    lemma_within(start, a, c, part, d, end);
}

proof fn lemma_sides(
    start: Seq<char>,
    a: Seq<char>,
    row: Seq<char>,
    b: Seq<char>,
    f: Seq<char>,
    g: Seq<char>,
    h: Seq<char>,
)
    ensures
        start + (a + row + b) + f + g + h == start + (a + row) + (b + f + g + h),
{
    assert(start + (a + row + b) + f + g + h =~= start + (a + row) + (b + f + g + h));
}

proof fn lemma_drawn(row: int, col: int, line: Seq<char>, selected: bool)
    ensures
        drawn_at(row, col, line, selected) == screen::position(row, col) + screen::highlighted(line, selected),
{
}

/// The screen has every row that a list shows: from its first visible row on, one
/// below the other in the columns of the list, cut to its width. The row under the
/// cursor has a pointer and is in reverse video, and no other is.
pub proof fn screen_has_the_rows(m: Model, pane: Pane, k: int, now: u64)
    requires
        0 <= k < m.list_height(),
        0 <= (if pane == m.focus { m.top } else { m.parked_top }),
        (if pane == m.focus { m.top } else { m.parked_top }) + k < m.rows_of(pane).len(),
        pane == Pane::Active ==> m.cols >= 2,
    ensures
        ({
            let index = (if pane == m.focus { m.top } else { m.parked_top }) + k;
            text::occurs_in(
                drawn_at(
                    m.list_row_start() + k,
                    m.pane_col(pane),
                    text::truncated(row_text(m, pane, index, now), m.pane_width(pane)),
                    pane == m.focus && index == m.selected,
                ),
                m.frame(now),
            )
        }),
{
    let index = (if pane == m.focus { m.top } else { m.parked_top }) + k;
    let line = m.line(pane, k, now);
    reveal_strlit(">");
    reveal_strlit(" ");
    reveal_strlit("…");
    assert(line == text::truncated(row_text(m, pane, index, now), m.pane_width(pane)));
    lemma_row_text_filled(m, pane, index, now);
    assert(line.len() > 0);
    let drawn = drawn_at(m.list_row_start() + k, m.pane_col(pane), line, pane == m.focus && index == m.selected);
    lemma_drawn(m.list_row_start() + k, m.pane_col(pane), line, pane == m.focus && index == m.selected);
    assert(m.segment(pane, k, now) == drawn);
    let clear = screen::cleared(m.list_row_start() + k);
    let row = m.list_row(k, now);
    if pane == Pane::Active {
        lemma_frame_row(m, k, now, clear, drawn, m.segment(Pane::All, k, now));
    } else {
        assert(row + Seq::<char>::empty() =~= row);
        lemma_frame_row(m, k, now, clear + m.segment(Pane::Active, k, now), drawn, Seq::empty());
    }
}

proof fn lemma_row_text_filled(m: Model, pane: Pane, index: int, now: u64)
    ensures
        row_text(m, pane, index, now).len() > 0,
{
    reveal_strlit(">");
    reveal_strlit(" ");
    let pointer = if pane == m.focus && index == m.selected { ">"@ } else { " "@ };
    assert(pointer.len() == 1);
    if let VisibleRow::Session(i) = m.rows_of(pane)[index] {
        session_row_shows_the_session(pointer, m.sessions[i as int], m.marked, m.name_width(pane), 4, now);
    }
}

proof fn lemma_member_count(m: Model, header: int, i: int)
    requires
        m.is_countable(),
        0 <= header <= m.groups.groups.len(),
        0 <= i <= m.sessions.len(),
    ensures
        ({
            let l = rows::full_listing(m.sessions, m.groups.groups);
            let under = |x: SessionView| list_laws::header_above(m.groups.groups, x.name) == header;
            l.members_from(header, i).len() == m.sessions.skip(i).filter(under).len()
        }),
    decreases m.sessions.len() - i,
{
    let l = rows::full_listing(m.sessions, m.groups.groups);
    let under = |x: SessionView| list_laws::header_above(m.groups.groups, x.name) == header;
    let s = m.sessions;
    if i < s.len() {
        lemma_member_count(m, header, i + 1);
        crate::mark_laws::lemma_filter_first(s, i, under);
        crate::groups::lemma_group_from(m.groups.groups, s[i].name, 0);
        assert(l.is_member(header, i) <==> under(s[i]));
    } else {
        crate::mark_laws::lemma_filter_none(s, i, under);
    }
}

/// A header has its title, and how many sessions stand under it, whatever the
/// search leaves of them. It says whether it is collapsed.
pub proof fn header_row_shows_the_group(m: Model, pointer: Seq<char>, header: int)
    requires
        m.is_countable(),
        0 <= header <= m.groups.groups.len(),
    ensures
        ({
            let line = m.header_text(pointer, header);
            let g = m.groups.groups;
            let collapsed = if header < g.len() { g[header].collapsed } else { m.ungrouped_collapsed };
            let title = if header < g.len() { g[header].name } else { UNGROUPED_NAME@ };
            let count = m.sessions.filter(|x: SessionView| list_laws::header_above(g, x.name) == header).len();
            let start = pointer + " "@ + (if collapsed { "▸"@ } else { "▼"@ }) + " "@ + title + " ("@;
            &&& start.is_prefix_of(line)
            &&& (text::digits(count) + ")"@).is_suffix_of(line)
        }),
{
    let g = m.groups.groups;
    let line = m.header_text(pointer, header);
    let collapsed = if header < g.len() { g[header].collapsed } else { m.ungrouped_collapsed };
    let title = if header < g.len() { g[header].name } else { UNGROUPED_NAME@ };
    let start = pointer + " "@ + (if collapsed { "▸"@ } else { "▼"@ }) + " "@ + title + " ("@;
    lemma_member_count(m, header, 0);
    assert(m.sessions.skip(0) =~= m.sessions);
    let members = rows::group_members(m.sessions, g, header);
    let marked = marks::marked_from(m.sessions, members, m.marked, 0);
    let end = text::digits(members.len()) + ")"@;
    let middle = if marked > 0 { text::digits(marked) + "/"@ } else { Seq::empty() };
    assert(line =~= start + middle + end);
    assert(line.subrange(0, start.len() as int) =~= start);
    assert(line.subrange(line.len() - end.len(), line.len() as int) =~= end);
}

/// The question where sessions are to be moved names the place that is chosen, and
/// the question whether sessions are to be killed says how many. Without a question
/// and a search the status is shown.
pub proof fn status_row_says_what_is_asked(m: Model)
    ensures
        m.prompt matches Some(PromptView::Move { session_names, choice }) ==> (0 <= choice <= m.groups.groups.len()
            ==> text::occurs_in(
            "["@ + (if choice < m.groups.groups.len() { m.groups.groups[choice].name } else { UNGROUPED_NAME@ }) + "]"@,
            m.status_text(),
        )),
        m.prompt matches Some(PromptView::ConfirmKill { session_names, .. }) ==> text::occurs_in(
            "KILL "@ + text::digits(session_names.len()) + " sessions"@,
            m.status_text(),
        ),
        m.prompt is None && !m.searching ==> m.status_text() == m.status,
        m.prompt is None && m.searching ==> text::occurs_in("/"@ + m.query, m.status_text()),
{
    match m.prompt {
        Some(PromptView::Move { session_names, choice }) => {
            if 0 <= choice <= m.groups.groups.len() {
                let name = if choice < m.groups.groups.len() { m.groups.groups[choice].name } else { UNGROUPED_NAME@ };
                reveal_strlit("[");
                reveal_strlit("]");
                reveal_strlit(" sessions -> [");
                reveal_strlit(" sessions -> ");
                reveal_strlit("]  j/k choose  Enter confirm  Esc cancel");
                reveal_strlit("  j/k choose  Enter confirm  Esc cancel");
                let before = "MOVE "@ + text::digits(session_names.len()) + " sessions -> "@;
                let part = "["@ + name + "]"@;
                let behind = "  j/k choose  Enter confirm  Esc cancel"@;
                assert(" sessions -> ["@ =~= " sessions -> "@ + "["@);
                assert("]  j/k choose  Enter confirm  Esc cancel"@ =~= "]"@ + behind);
                assert(m.status_text() =~= before + part + behind);
                text::parts_occur(before, part, behind);
            }
        },
        Some(PromptView::ConfirmKill { session_names, skipped_current }) => {
            let part = "KILL "@ + text::digits(session_names.len()) + " sessions"@;
            let behind = (if skipped_current > 0 { " (current skipped)"@ } else { ""@ }) + "? y/N"@;
            assert(m.status_text() =~= Seq::empty() + part + behind);
            text::parts_occur(Seq::empty(), part, behind);
        },
        None => {
            if m.searching {
                reveal_strlit("SEARCH /");
                reveal_strlit("SEARCH ");
                reveal_strlit("/");
                assert("SEARCH /"@ =~= "SEARCH "@ + "/"@);
                let part = "/"@ + m.query;
                let behind = if m.has_matches() { Seq::empty() } else { "  No matching sessions"@ };
                assert(m.status_text() =~= "SEARCH "@ + part + behind);
                text::parts_occur("SEARCH "@, part, behind);
            }
        },
        _ => {},
    }
}

/// The screen has the status row, cut to its width, below the lists.
pub proof fn screen_has_the_status(m: Model, now: u64)
    requires
        m.prompt is Some || m.searching || m.status.len() > 0,
    ensures
        text::occurs_in(
            drawn_at(
                m.list_row_start() + m.list_height() + 1,
                1,
                text::truncated(m.status_text(), m.cols),
                false,
            ),
            m.frame(now),
        ),
{
    let l = m.layout_of(m.focus);
    let line = text::truncated(m.status_text(), m.cols);
    let drawn = drawn_at(l.status_row, 1, line, false);
    lemma_drawn(l.status_row, 1, line, false);
    let start = "\x1b[H\x1b[2J"@ + m.mode_area() + m.list_area_from(0, now);
    let blank = screen::row_with(l.blank_row, ""@, false);
    let clear = screen::cleared(l.status_row);
    let end = "\x1b["@ + text::digits((l.status_row + 1) as nat) + ";1H\x1b[J"@;
    lemma_footer(blank, clear, screen::position(l.status_row, 1), line, end);
    assert(m.footer() == blank + (clear + drawn + end));
    lemma_within(start, blank, clear, drawn, end, m.move_popup() + m.help_popup());
    assert(m.frame(now) =~= start + m.footer() + (m.move_popup() + m.help_popup()));
}

proof fn lemma_footer(blank: Seq<char>, clear: Seq<char>, place: Seq<char>, line: Seq<char>, end: Seq<char>)
    ensures
        blank + (clear + place + line) + end == blank + (clear + (place + line) + end),
{
    assert(blank + (clear + place + line) + end =~= blank + (clear + (place + line) + end));
}

/// How long ago a session was active is a number of seconds, minutes, hours, days
/// or weeks: as many whole ones as have passed, of the largest that has.
pub proof fn activity_is_told(timestamp: u64, now: u64)
    requires
        timestamp > 0,
        now - timestamp >= 5,
    ensures
        ({
            let passed = now - timestamp;
            let told = |unit: int, letter: Seq<char>, n: int|
                n * unit <= passed < (n + 1) * unit && n >= 1 && prompts::activity_text(timestamp, now) == text::digits(
                    n as nat,
                ) + letter;
            ||| passed < 60 && told(1, "s"@, passed)
            ||| 60 <= passed < 3600 && told(60, "m"@, passed / 60)
            ||| 3600 <= passed < 86400 && told(3600, "h"@, passed / 3600)
            ||| 86400 <= passed < 604800 && told(86400, "d"@, passed / 86400)
            ||| 604800 <= passed && told(604800, "w"@, passed / 604800)
        }),
{
}

proof fn lemma_marked_shift(s: Seq<SessionView>, first: usize, rest: Seq<usize>, marked: Set<Seq<char>>, k: int)
    requires
        0 <= k <= rest.len(),
    ensures
        marks::marked_from(s, seq![first] + rest, marked, k + 1) == marks::marked_from(s, rest, marked, k),
    decreases rest.len() - k,
{
    let all = seq![first] + rest;
    if k < rest.len() {
        lemma_marked_shift(s, first, rest, marked, k + 1);
        assert(all[k + 1] == rest[k]);
    }
}

proof fn lemma_marked_count(m: Model, header: int, i: int)
    requires
        m.is_countable(),
        0 <= header <= m.groups.groups.len(),
        0 <= i <= m.sessions.len(),
    ensures
        ({
            let l = rows::full_listing(m.sessions, m.groups.groups);
            let counted = |x: SessionView|
                list_laws::header_above(m.groups.groups, x.name) == header && m.marked.contains(x.name);
            marks::marked_from(m.sessions, l.members_from(header, i), m.marked, 0) == m.sessions.skip(i).filter(
                counted,
            ).len()
        }),
    decreases m.sessions.len() - i,
{
    let l = rows::full_listing(m.sessions, m.groups.groups);
    let counted = |x: SessionView|
        list_laws::header_above(m.groups.groups, x.name) == header && m.marked.contains(x.name);
    let s = m.sessions;
    if i < s.len() {
        lemma_marked_count(m, header, i + 1);
        crate::mark_laws::lemma_filter_first(s, i, counted);
        crate::groups::lemma_group_from(m.groups.groups, s[i].name, 0);
        let rest = l.members_from(header, i + 1);
        if l.is_member(header, i) {
            lemma_marked_shift(s, i as usize, rest, m.marked, 0);
            assert((seq![i as usize] + rest)[0] == i as usize);
        }
    } else {
        crate::mark_laws::lemma_filter_none(s, i, counted);
    }
}

/// A header says how many of the sessions under it are marked, where some are.
pub proof fn header_row_counts_marks(m: Model, pointer: Seq<char>, header: int)
    requires
        m.is_countable(),
        0 <= header <= m.groups.groups.len(),
    ensures
        ({
            let g = m.groups.groups;
            let count = m.sessions.filter(|x: SessionView| list_laws::header_above(g, x.name) == header).len();
            let marked = m.sessions.filter(
                |x: SessionView| list_laws::header_above(g, x.name) == header && m.marked.contains(x.name),
            ).len();
            marked > 0 ==> (" ("@ + text::digits(marked) + "/"@ + text::digits(count) + ")"@).is_suffix_of(
                m.header_text(pointer, header),
            )
        }),
{
    lemma_member_count(m, header, 0);
    lemma_marked_count(m, header, 0);
    assert(m.sessions.skip(0) =~= m.sessions);
    let g = m.groups.groups;
    let line = m.header_text(pointer, header);
    let members = rows::group_members(m.sessions, g, header);
    let marked = marks::marked_from(m.sessions, members, m.marked, 0);
    let end = " ("@ + text::digits(marked) + "/"@ + text::digits(members.len()) + ")"@;
    if marked > 0 {
        assert(line.subrange(line.len() - end.len(), line.len() as int) =~= end);
    }
}

proof fn lemma_longest(m: Model, i: int, k: int)
    requires
        0 <= i <= k,
    ensures
        k < m.sessions.len() ==> m.sessions[k].name.len() <= layout::longest_session(m.sessions, i),
        k < m.groups.groups.len() ==> m.groups.groups[k].name.len() <= layout::longest_group(m.groups.groups, i),
    decreases k - i,
{
    if i < k {
        lemma_longest(m, i + 1, k);
    }
}

/// The column of names has room for every name, or as much as the list leaves for it.
pub proof fn names_have_room(m: Model, pane: Pane, k: int)
    requires
        0 <= k < m.sessions.len(),
    ensures
        m.sessions[k].name.len() <= m.name_width(pane) || m.name_width(pane) == (if m.pane_width(pane) - 34 > 16 {
            m.pane_width(pane) - 34
        } else {
            16
        }),
        m.name_width(pane) >= 16,
{
    lemma_longest(m, 0, k);
}

/// The box that asks where sessions are to be moved has a line for each group, one
/// for no group and one for a new one, in this order, with an arrow before the chosen one only.
pub proof fn move_box_marks_the_choice(m: Model, choice: int, count: int, k: int)
    requires
        0 <= k < m.groups.groups.len() + 2,
    ensures
        ({
            let lines = prompts::move_lines(m.groups.groups, choice, count);
            let g = m.groups.groups;
            &&& lines.len() == g.len() + 4
            &&& lines[k + 1][0] == (if k == choice { '>' } else { ' ' })
            &&& lines[k + 1].skip(2) == (if k < g.len() {
                g[k].name
            } else if k == g.len() {
                UNGROUPED_NAME@
            } else {
                "New group..."@
            })
        }),
{
    reveal_strlit(">");
    reveal_strlit(" ");
    reveal_strlit(" New group...");
    reveal_strlit("New group...");
    let lines = prompts::move_lines(m.groups.groups, choice, count);
    let g = m.groups.groups;
    let line = lines[k + 1];
    if k < g.len() {
        assert(line =~= crate::help::marker(k == choice) + " "@ + g[k].name);
        assert(line.skip(2) =~= g[k].name);
    } else if k == g.len() {
        assert(line =~= crate::help::marker(choice == g.len()) + " "@ + UNGROUPED_NAME@);
        assert(line.skip(2) =~= UNGROUPED_NAME@);
    } else {
        assert(line =~= crate::help::marker(choice == g.len() + 1) + " New group..."@);
        assert(line.skip(2) =~= "New group..."@);
    }
}

proof fn lemma_body(popup: screen::Popup, lines: Seq<Seq<char>>, i: int, k: int) -> (r: (Seq<char>, Seq<char>))
    requires
        0 <= i <= k < popup.height - 2,
    ensures
        popup.body_from(lines, i) == r.0 + screen::row_with_at(
            popup.row + k + 1,
            popup.col,
            popup.inner(if k < lines.len() { lines[k] } else { Seq::empty() }),
            false,
        ) + r.1,
    decreases k - i,
{
    let line = if k < lines.len() { lines[k] } else { Seq::empty() };
    let row = screen::row_with_at(popup.row + k + 1, popup.col, popup.inner(line), false);
    if i < k {
        let (a, b) = lemma_body(popup, lines, i + 1, k);
        let here = if i < lines.len() { lines[i] } else { Seq::empty() };
        let front = screen::row_with_at(popup.row + i + 1, popup.col, popup.inner(here), false) + a;
        assert(popup.body_from(lines, i) =~= front + row + b);
        (front, b)
    } else {
        let rest = popup.body_from(lines, i + 1);
        assert(popup.body_from(lines, i) =~= Seq::empty() + row + rest);
        (Seq::empty(), rest)
    }
}

/// A box has its lines one below the other, each between the borders.
pub proof fn boxes_have_their_lines(popup: screen::Popup, lines: Seq<Seq<char>>, k: int)
    requires
        0 <= k < lines.len(),
        k < popup.height - 2,
        lines[k].len() <= popup.width - 4,
    ensures
        text::occurs_in(
            drawn_at(
                popup.row + k + 1,
                popup.col,
                "| "@ + text::padded_right(lines[k], popup.width - 4) + " |"@,
                false,
            ),
            popup.drawn(lines),
        ),
{
    let line = popup.inner(lines[k]);
    text::truncation_fits(lines[k], popup.width - 4);
    assert(line == "| "@ + text::padded_right(lines[k], popup.width - 4) + " |"@);
    lemma_drawn(popup.row + k + 1, popup.col, line, false);
    let drawn = drawn_at(popup.row + k + 1, popup.col, line, false);
    let clear = screen::cleared(popup.row + k + 1);
    let (a, b) = lemma_body(popup, lines, 0, k);
    let top = screen::row_with_at(popup.row, popup.col, popup.border(), false);
    let bottom = screen::row_with_at(popup.row + popup.height - 1, popup.col, popup.border(), false);
    assert(clear + drawn + Seq::<char>::empty() =~= screen::row_with_at(popup.row + k + 1, popup.col, line, false));
    lemma_box(top, a, clear + drawn, b, bottom);
    assert(clear + drawn + Seq::<char>::empty() =~= clear + drawn);
    lemma_within(top, a, clear, drawn, Seq::empty(), b + bottom);
}

proof fn lemma_box(top: Seq<char>, a: Seq<char>, row: Seq<char>, b: Seq<char>, bottom: Seq<char>)
    ensures
        top + (a + row + b) + bottom == top + (a + row) + (b + bottom),
{
    assert(top + (a + row + b) + bottom =~= top + (a + row) + (b + bottom));
}

/// The box with the places to move sessions to, and the box with the shortcuts, are
/// on the screen while they are asked for and shown.
pub proof fn screen_has_the_boxes(m: Model, now: u64)
    ensures
        text::occurs_in(m.move_popup(), m.frame(now)),
        text::occurs_in(m.help_popup(), m.frame(now)),
        m.prompt matches Some(PromptView::Move { session_names, choice }) ==> exists|popup: screen::Popup|
            m.move_popup() == #[trigger] popup.drawn(
                prompts::move_lines(m.groups.groups, choice, session_names.len() as int),
            ),
{
    let front = "\x1b[H\x1b[2J"@ + m.mode_area() + m.list_area_from(0, now) + m.footer();
    text::parts_occur(front, m.move_popup(), m.help_popup());
    assert(m.frame(now) + Seq::<char>::empty() =~= m.frame(now));
    text::parts_occur(front + m.move_popup(), m.help_popup(), Seq::empty());
}

/// The line above the lists has the name that is typed, what is searched for, or
/// how many sessions are marked.
pub proof fn mode_line_says_what_goes_on(
    prompt: Option<PromptView>,
    searching: bool,
    query: Seq<char>,
    has_matches: bool,
    marked: int,
)
    requires
        marked >= 0,
    ensures
        ({
            let line = prompts::mode_text(prompt, searching, query, has_matches, marked);
            &&& prompt matches Some(PromptView::Name { label, value, .. }) ==> text::occurs_in(
                label + ": "@ + value,
                line,
            )
            &&& prompt is None && searching ==> text::occurs_in("/"@ + query, line)
            &&& prompt is None && !searching && marked > 0 ==> text::occurs_in(
                text::digits(marked as nat) + " sessions"@,
                line,
            )
        }),
{
    let line = prompts::mode_text(prompt, searching, query, has_matches, marked);
    match prompt {
        Some(PromptView::Name { label, value, .. }) => {
            let part = label + ": "@ + value;
            assert(line =~= "MODE input: "@ + part + "_"@);
            text::parts_occur("MODE input: "@, part, "_"@);
        },
        None => {
            if searching {
                reveal_strlit("MODE search: /");
                reveal_strlit("MODE search: ");
                reveal_strlit("/");
                assert("MODE search: /"@ =~= "MODE search: "@ + "/"@);
                let part = "/"@ + query;
                let behind = if has_matches { Seq::empty() } else { "  no matches"@ };
                assert(line =~= "MODE search: "@ + part + behind);
                text::parts_occur("MODE search: "@, part, behind);
            } else if marked > 0 {
                reveal_strlit(" sessions  m move  p pin  x kill  v clear");
                reveal_strlit(" sessions");
                reveal_strlit("  m move  p pin  x kill  v clear");
                let part = text::digits(marked as nat) + " sessions"@;
                let behind = "  m move  p pin  x kill  v clear"@;
                assert(" sessions  m move  p pin  x kill  v clear"@ =~= " sessions"@ + behind);
                assert(line =~= "MODE selection: "@ + part + behind);
                text::parts_occur("MODE selection: "@, part, behind);
            }
        },
        _ => {},
    }
}

} // verus!
