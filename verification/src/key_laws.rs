//! Laws of what the keys do: switching, killing, quitting, and what no key touches.

use vstd::prelude::*;

use crate::effects::EffectView;
use crate::mouse::{InputEvent, MouseEvent};
use crate::picker::Model;
use crate::prompts::{NameActionView, PromptView};
use crate::rows::VisibleRow;

verus! {

/// Enter, where nothing is marked and the cursor is on a session, switches to that
/// session and leaves the picker as it was.
pub proof fn enter_switches_to_the_selected(m: Model, i: usize)
    requires
        m.prompt is None,
        m.marked == Set::<Seq<char>>::empty(),
        m.selected_row() == Some(VisibleRow::Session(i)),
    ensures
        m.keyed(0x0d) == (m, EffectView::Switch(m.sessions[i as int].name)),
{
}

/// No key switches but enter, while nothing is marked and no question is open, and
/// to no other session than the one under the cursor. While searching a line feed
/// is taken for enter.
pub proof fn nothing_else_switches(m: Model, key: u8)
    ensures
        m.keyed(key).1 matches EffectView::Switch(name) ==> {
            &&& m.prompt is None
            &&& m.marked == Set::<Seq<char>>::empty()
            &&& m.selected_row() matches Some(VisibleRow::Session(i)) && name == m.sessions[i as int].name
            &&& key == 0x0d || m.searching && key == 0x0a
            &&& m.keyed(key).0 == m
        },
{
}

/// While it is asked whether sessions are to be killed, `y` and `Y` close the
/// question and kill just the sessions that were asked about. `n`, `N`, escape and
/// `Ctrl+c` close the question and kill nothing, and any other key does nothing.
pub proof fn killing_is_confirmed(m: Model, session_names: Seq<Seq<char>>, skipped_current: int, key: u8)
    requires
        m.prompt == Some(PromptView::ConfirmKill { session_names, skipped_current }),
    ensures
        ({
            let (after, effect) = m.keyed(key);
            if key == 0x79 || key == 0x59 {
                &&& effect == EffectView::KillAll { session_names, skipped_current }
                &&& after == (Model { prompt: None, ..m })
            } else if key == 0x6e || key == 0x4e || key == 0x1b || key == 0x03 {
                &&& effect == EffectView::Continue
                &&& after == (Model { prompt: None, status: "Cancelled"@, ..m })
            } else {
                effect == EffectView::Continue && after == m
            }
        }),
{
}

/// No key kills many sessions but `y` and `Y`, while just that is asked.
pub proof fn nothing_else_kills_many(m: Model, key: u8)
    ensures
        m.keyed(key).1 matches EffectView::KillAll { session_names, skipped_current } ==> {
            &&& m.prompt == Some(PromptView::ConfirmKill { session_names, skipped_current })
            &&& key == 0x79 || key == 0x59
        },
{
}

/// No key kills a session but the kill key, while nothing is marked and nothing is
/// asked or searched for: the one under the cursor, if it is not the current one.
pub proof fn nothing_else_kills_one(m: Model, key: u8)
    ensures
        m.keyed(key).1 matches EffectView::Kill { session_name, .. } ==> {
            &&& m.prompt is None && !m.searching && key == 0x78
            &&& m.marked == Set::<Seq<char>>::empty()
            &&& m.selected_row() matches Some(VisibleRow::Session(i)) && session_name == m.sessions[i as int].name
                && !m.sessions[i as int].is_current
            &&& m.keyed(key).0 == m
        },
        m.prompt is None && !m.searching && m.marked == Set::<Seq<char>>::empty() ==> (m.selected_row() matches Some(
            VisibleRow::Session(i),
        ) ==> (!m.sessions[i as int].is_current ==> m.keyed(0x78).1 is Kill)),
{
}

/// The picker ends with `q`, escape and `Ctrl+c`, while searching with `Ctrl+c`
/// only, and with no key while a question is open.
pub proof fn quitting_keys(m: Model, key: u8)
    ensures
        m.keyed(key).1 == EffectView::Quit <==> m.prompt is None && (key == 0x03 || !m.searching && (key == 0x71 || key
            == 0x1b)),
        m.keyed(key).1 == EffectView::Quit ==> m.keyed(key).0 == m,
{
}

/// Whether a step changed sessions only where the pins are then saved, groups only
/// where the groups are then saved, and never the size of the screen.
pub open spec fn changes_are_to_be_saved(m: Model, step: (Model, EffectView)) -> bool {
    let (after, effect) = step;
    &&& effect == EffectView::SavePins || after.sessions == m.sessions
    &&& effect is SaveGroups || effect is SaveName || after.groups == m.groups
    &&& after.rows == m.rows && after.cols == m.cols
    &&& after.groups.version == m.groups.version
}

proof fn lemma_moves_save(m: Model, names: Seq<Seq<char>>, target: Option<int>)
    ensures
        changes_are_to_be_saved(m, (Model { prompt: None, ..m }).sessions_moved(names, target)),
{
}

proof fn lemma_naming_saves(m: Model, label: Seq<char>, value: Seq<char>, action: NameActionView, key: u8)
    ensures
        changes_are_to_be_saved(m, m.name_answered(label, value, action, key)),
{
}

proof fn lemma_pinning_saves(m: Model)
    ensures
        changes_are_to_be_saved(m, m.pin_toggled()),
{
}

proof fn lemma_answers_save(m: Model, key: u8)
    ensures
        changes_are_to_be_saved(m, m.answered(key)),
{
    match m.prompt {
        Some(PromptView::Name { label, value, action }) => {
            lemma_naming_saves(m, label, value, action, key);
        },
        Some(PromptView::Move { session_names, choice }) => {
            lemma_moves_save(m, session_names, Some(choice));
            lemma_moves_save(m, session_names, None);
        },
        Some(PromptView::Action { choice }) => {
            lemma_pinning_saves(Model { prompt: None, ..m });
        },
        _ => {},
    }
}

proof fn lemma_actions_save(m: Model)
    ensures
        changes_are_to_be_saved(m, m.activated()),
        changes_are_to_be_saved(m, m.killed()),
        changes_are_to_be_saved(m, m.group_deleted()),
        changes_are_to_be_saved(m, m.selected_collapsed(true)),
        changes_are_to_be_saved(m, m.selected_collapsed(false)),
{
}

proof fn lemma_reordering_saves(m: Model, up: bool)
    ensures
        changes_are_to_be_saved(m, m.reordered(up)),
{
}

proof fn lemma_cursor_keeps(m: Model)
    ensures
        changes_are_to_be_saved(m, (m.moved_up(), EffectView::Continue)),
        changes_are_to_be_saved(m, (m.moved_down(), EffectView::Continue)),
        changes_are_to_be_saved(m, (m.moved_to_group_above(), EffectView::Continue)),
        changes_are_to_be_saved(m, (m.moved_to_group_below(), EffectView::Continue)),
        changes_are_to_be_saved(m, (m.jumped_last(), EffectView::Continue)),
        changes_are_to_be_saved(m, (m.row_mark_toggled(), EffectView::Continue)),
        changes_are_to_be_saved(m, (m.search_ended(), EffectView::Continue)),
        changes_are_to_be_saved(m, (m.first_match_selected(), EffectView::Continue)),
{
}

/// A key changes sessions only where the pins are then saved, groups only where
/// the groups are then saved, and never the size of the screen.
pub proof fn changes_are_saved(m: Model, key: u8)
    ensures
        changes_are_to_be_saved(m, m.keyed(key)),
{
    if m.prompt is Some {
        lemma_answers_save(m, key);
    } else {
        lemma_actions_save(m);
        lemma_cursor_keeps(m);
        if m.searching {
            lemma_cursor_keeps(Model { query: m.query.push(key as char), ..m });
            lemma_cursor_keeps(
                Model { query: if m.query.len() > 0 { m.query.drop_last() } else { m.query }, ..m },
            );
        } else {
            lemma_pinning_saves(m);
            lemma_reordering_saves(m, true);
            lemma_reordering_saves(m, false);
        }
    }
}

/// Keys that stand for nothing do nothing.
pub proof fn other_keys_do_nothing(m: Model, key: u8)
    requires
        m.prompt is None,
        !m.searching,
        !seq![
            0x6au8, 0x6bu8, 0x0au8, 0x0bu8, 0x08u8, 0x0cu8, 0x67u8, 0x47u8, 0x2fu8, 0x6eu8, 0x6du8, 0x72u8, 0x64u8,
            0x68u8, 0x6cu8, 0x20u8, 0x61u8, 0x41u8, 0x76u8, 0x70u8, 0x78u8, 0x3fu8, 0x4au8, 0x4bu8, 0x0du8, 0x71u8,
            0x1bu8, 0x03u8,
        ].contains(key),
    ensures
        m.keyed(key) == (m, EffectView::Continue),
{
    let known = seq![
        0x6au8, 0x6bu8, 0x0au8, 0x0bu8, 0x08u8, 0x0cu8, 0x67u8, 0x47u8, 0x2fu8, 0x6eu8, 0x6du8, 0x72u8, 0x64u8,
        0x68u8, 0x6cu8, 0x20u8, 0x61u8, 0x41u8, 0x76u8, 0x70u8, 0x78u8, 0x3fu8, 0x4au8, 0x4bu8, 0x0du8, 0x71u8,
        0x1bu8, 0x03u8,
    ];
    assert(forall|i: int| 0 <= i < 28 ==> known[i] != key);
    assert(known[0] != key && known[1] != key && known[2] != key && known[3] != key && known[4] != key);
    assert(known[5] != key && known[6] != key && known[7] != key && known[8] != key && known[9] != key);
    assert(known[10] != key && known[11] != key && known[12] != key && known[13] != key && known[14] != key);
    assert(known[15] != key && known[16] != key && known[17] != key && known[18] != key && known[19] != key);
    assert(known[20] != key && known[21] != key && known[22] != key && known[23] != key && known[24] != key);
    assert(known[25] != key && known[26] != key && known[27] != key);
}

/// `Ctrl+c` closes a question as escape does. While the shortcuts are shown `q`,
/// `?` and enter do so too; `j` and `k` go to the next and to the one before, `g`
/// and `G` to the first and to the last.
pub proof fn shortcuts_are_browsed(m: Model, index: int)
    requires
        0 <= index < 24,
    ensures
        m.prompt is Some ==> m.keyed(0x03) == m.keyed(0x1b),
        m.prompt is None && !m.searching ==> m.keyed(0x3f) == (
            m.with_prompt(PromptView::Help { index: 0 }),
            EffectView::Continue,
        ),
        m.prompt == Some(PromptView::Help { index }) ==> {
            let at = |i: int| (m.with_prompt(PromptView::Help { index: i }), EffectView::Continue);
            &&& m.keyed(0x6a) == at(if index < 23 { index + 1 } else { 23 })
            &&& m.keyed(0x6b) == at(if index > 0 { index - 1 } else { 0 })
            &&& m.keyed(0x67) == at(0)
            &&& m.keyed(0x47) == at(23)
            &&& m.keyed(0x71) == m.keyed(0x1b) && m.keyed(0x3f) == m.keyed(0x1b) && m.keyed(0x0d) == m.keyed(0x1b)
        },
{
}

/// A step takes a key as a key and a mouse event as one, and what is to be ignored changes nothing.
pub proof fn steps_take_what_was_done(m: Model, key: u8, event: MouseEvent, now: u64)
    ensures
        m.stepped(InputEvent::Key(key), now) == m.keyed(key),
        m.stepped(InputEvent::Mouse(event), now) == m.moused(event, now),
        m.stepped(InputEvent::Ignore, now) == (m, EffectView::Continue),
        m.prompt is Some ==> m.keyed(key) == m.answered(key),
{
}

} // verus!
