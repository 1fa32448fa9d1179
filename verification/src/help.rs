//! The list of keyboard shortcuts, and the popup that shows it.

use vstd::prelude::*;
use vstd::string::*;

use crate::text;

verus! {

pub const SHORTCUT_COUNT: usize = 24;

/// The shortcuts: what to press, and what it does.
pub open spec fn shortcut_texts() -> Seq<(Seq<char>, Seq<char>)> {
    seq![
        ("j/k"@, "move cursor"@),
        ("g/G"@, "jump first/last"@),
        ("/"@, "search sessions and groups"@),
        ("Backspace"@, "delete search character"@),
        ("Esc"@, "clear search, cancel prompt, or quit"@),
        ("Enter"@, "switch session, toggle group, or act on selection"@),
        ("h/l"@, "collapse or expand group"@),
        ("n"@, "create group"@),
        ("Space"@, "toggle selected session or group"@),
        ("a"@, "toggle current group selection"@),
        ("A"@, "toggle visible session selection"@),
        ("v"@, "clear selected sessions"@),
        ("m"@, "move selected or highlighted sessions"@),
        ("r"@, "rename group"@),
        ("d"@, "delete group"@),
        ("p"@, "pin or unpin selected sessions"@),
        ("J/K"@, "reorder group or pinned session"@),
        ("x"@, "kill selected sessions"@),
        ("?"@, "show shortcuts"@),
        ("Mouse"@, "click select; double-click activate"@),
        ("Right click"@, "pin or unpin session"@),
        ("Drag"@, "move pinned session up or down"@),
        ("Wheel"@, "scroll sessions"@),
        ("q"@, "quit"@),
    ]
}

/// The shortcuts: what to press, and what it does.
pub fn shortcuts() -> (r: Vec<(&'static str, &'static str)>)
    ensures
        r.len() == SHORTCUT_COUNT,
        r@.map_values(|p: (&'static str, &'static str)| (p.0@, p.1@)) == shortcut_texts(),
        shortcut_texts().len() == SHORTCUT_COUNT,
{
    let r: Vec<(&'static str, &'static str)> = vec![
        ("j/k", "move cursor"),
        ("g/G", "jump first/last"),
        ("/", "search sessions and groups"),
        ("Backspace", "delete search character"),
        ("Esc", "clear search, cancel prompt, or quit"),
        ("Enter", "switch session, toggle group, or act on selection"),
        ("h/l", "collapse or expand group"),
        ("n", "create group"),
        ("Space", "toggle selected session or group"),
        ("a", "toggle current group selection"),
        ("A", "toggle visible session selection"),
        ("v", "clear selected sessions"),
        ("m", "move selected or highlighted sessions"),
        ("r", "rename group"),
        ("d", "delete group"),
        ("p", "pin or unpin selected sessions"),
        ("J/K", "reorder group or pinned session"),
        ("x", "kill selected sessions"),
        ("?", "show shortcuts"),
        ("Mouse", "click select; double-click activate"),
        ("Right click", "pin or unpin session"),
        ("Drag", "move pinned session up or down"),
        ("Wheel", "scroll sessions"),
        ("q", "quit"),
    ];
    assert(r@.map_values(|p: (&'static str, &'static str)| (p.0@, p.1@)) =~= shortcut_texts());
    r
}

/// The first shortcut that is shown where `max_entries` fit: `index` is about in the middle.
pub open spec fn help_start(index: int, max_entries: int) -> int {
    let fitting = if max_entries > 1 { max_entries } else { 1 };
    let wanted = if index > fitting / 2 { index - fitting / 2 } else { 0 };
    if wanted + fitting <= SHORTCUT_COUNT {
        wanted
    } else if fitting < SHORTCUT_COUNT {
        SHORTCUT_COUNT - fitting
    } else {
        0
    }
}

/// The end of the shortcuts that are shown.
pub open spec fn help_end(index: int, max_entries: int) -> int {
    let fitting = if max_entries > 1 { max_entries } else { 1 };
    let end = help_start(index, max_entries) + fitting;
    if end < SHORTCUT_COUNT {
        end
    } else {
        SHORTCUT_COUNT as int
    }
}

/// The mark before an entry of a list: an arrow where it is the chosen one.
pub open spec fn marker(chosen: bool) -> Seq<char> {
    if chosen {
        ">"@
    } else {
        " "@
    }
}

pub open spec fn help_entry(k: int, index: int) -> Seq<char> {
    marker(k == index) + " "@ + text::padded_right(shortcut_texts()[k].0, 10) + " "@ + shortcut_texts()[k].1
}

pub open spec fn help_footer(index: int) -> Seq<char> {
    text::digits((index + 1) as nat) + "/"@ + text::digits(SHORTCUT_COUNT as nat)
        + "  j/k scroll  g/G first/last  Esc close"@
}

/// The lines of the help popup with `index` chosen.
pub open spec fn help_lines(index: int, max_entries: int) -> Seq<Seq<char>> {
    let start = help_start(index, max_entries);
    let end = help_end(index, max_entries);
    seq!["Shortcuts"@] + Seq::new((end - start) as nat, |k: int| help_entry(start + k, index)) + seq![
        help_footer(index),
    ]
}

pub(crate) fn marker_text(chosen: bool) -> (r: &'static str)
    ensures
        r@ == marker(chosen),
{
    if chosen {
        ">"
    } else {
        " "
    }
}

/// The lines of the help popup with `index` chosen, of which `max_entries` are shortcuts.
pub fn help_popup_lines(index: usize, max_entries: usize) -> (r: Vec<String>)
    requires
        index < usize::MAX,
    ensures
        text::views(r@) == help_lines(index as int, max_entries as int),
{
    let fitting: usize = if max_entries > 1 { max_entries } else { 1 };
    let wanted: usize = if index > fitting / 2 { index - fitting / 2 } else { 0 };
    let start: usize = if fitting >= SHORTCUT_COUNT {
        0
    } else if wanted <= SHORTCUT_COUNT - fitting {
        wanted
    } else {
        SHORTCUT_COUNT - fitting
    };
    let end: usize = if fitting >= SHORTCUT_COUNT - start { SHORTCUT_COUNT } else { start + fitting };
    assert(start == help_start(index as int, max_entries as int));
    assert(end == help_end(index as int, max_entries as int));
    let entries = shortcuts();
    let mut lines: Vec<String> = Vec::new();
    lines.push("Shortcuts".to_owned());
    let mut k: usize = start;
    let ghost shown = |n: int| Seq::new(n as nat, |j: int| help_entry(start + j, index as int));
    assert(text::views(lines@) =~= seq!["Shortcuts"@] + shown(0));
    while k < end
        invariant
            start <= k <= end <= SHORTCUT_COUNT,
            entries.len() == SHORTCUT_COUNT,
            entries@.map_values(|p: (&'static str, &'static str)| (p.0@, p.1@)) == shortcut_texts(),
            shown == (|n: int| Seq::new(n as nat, |j: int| help_entry(start + j, index as int))),
            text::views(lines@) == seq!["Shortcuts"@] + shown(k - start),
        decreases end - k,
    {
        let (key, action) = entries[k];
        assert(shortcut_texts()[k as int] == (key@, action@));
        let ghost had = text::views(lines@);
        let mut line = marker_text(k == index).to_owned();
        line.append(" ");
        line.append(&text::pad_right(key, 10));
        line.append(" ");
        line.append(action);
        lines.push(line);
        assert(text::views(lines@) =~= had.push(help_entry(k as int, index as int)));
        assert(text::views(lines@) =~= seq!["Shortcuts"@] + shown(k + 1 - start));
        k += 1;
    }
    let ghost had = text::views(lines@);
    let mut footer = text::count(index + 1);
    footer.append("/");
    footer.append(&text::count(SHORTCUT_COUNT));
    footer.append("  j/k scroll  g/G first/last  Esc close");
    lines.push(footer);
    assert(text::views(lines@) =~= had + seq![help_footer(index as int)]);
    lines
}

/// How high the help popup is on a screen with `rows` rows.
pub open spec fn help_height(rows: int) -> int {
    if rows > 7 {
        rows - 2
    } else {
        5
    }
}

/// How high the help popup is on a screen with `rows` rows: nearly full, and 5 at least.
pub fn help_popup_height(rows: usize) -> (r: usize)
    ensures
        r == help_height(rows as int),
{
    if rows > 7 {
        rows - 2
    } else {
        5
    }
}

/// The shortcut `offset` places from `current`, within the list. What is before the first is the first.
pub open spec fn help_index(current: int, offset: int) -> int {
    let target = current + offset;
    if target < 0 || target > usize::MAX {
        0
    } else if target < SHORTCUT_COUNT {
        target
    } else {
        SHORTCUT_COUNT - 1
    }
}

/// The shortcut `offset` places from `current`, within the list.
pub fn next_help_index(current: usize, offset: isize) -> (r: usize)
    ensures
        r == help_index(current as int, offset as int),
        r < SHORTCUT_COUNT,
{
    match current.checked_add_signed(offset) {
        Some(target) => if target < SHORTCUT_COUNT {
            target
        } else {
            SHORTCUT_COUNT - 1
        },
        None => 0,
    }
}

/// The chosen shortcut is among those that the popup shows, and the popup shows as many as fit.
pub proof fn chosen_shortcut_is_shown(index: int, max_entries: int)
    requires
        0 <= index < SHORTCUT_COUNT,
        max_entries >= 1,
    ensures
        help_start(index, max_entries) <= index < help_end(index, max_entries),
        0 <= help_start(index, max_entries),
        help_end(index, max_entries) <= SHORTCUT_COUNT,
        help_end(index, max_entries) - help_start(index, max_entries) == (if max_entries < SHORTCUT_COUNT {
            max_entries
        } else {
            SHORTCUT_COUNT as int
        }),
{
}

} // verus!
