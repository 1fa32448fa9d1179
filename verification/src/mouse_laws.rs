//! Laws of what the mouse does.

use vstd::prelude::*;

use crate::effects::EffectView;
use crate::mark_laws;
use crate::mouse::MouseEvent;
use crate::picker::{Model, Pane};
use crate::pin_laws;
use crate::rows::VisibleRow;
use crate::sessions;
use crate::sessions::SessionView;
use crate::text;

verus! {

/// The index of the row of a list that is shown in a row of the screen, if there is one.
pub open spec fn index_shown(m: Model, pane: Pane, screen_row: int) -> Option<int> {
    let top = if pane == m.focus { m.top } else { m.parked_top };
    let k = screen_row - m.list_row_start();
    if 0 <= k < m.list_height() && top + k < m.rows_of(pane).len() {
        Some(top + k)
    } else {
        None
    }
}

/// The picker with the focus on a list and its cursor on a row, and the last click forgotten.
pub open spec fn cursor_at(m: Model, pane: Pane, index: int) -> Model {
    if pane == m.focus {
        Model { selected: index, last_click: None, ..m }
    } else {
        Model {
            focus: pane,
            selected: index,
            top: m.parked_top,
            parked_selected: m.selected,
            parked_top: m.top,
            last_click: None,
            ..m
        }
    }
}

proof fn lemma_there(m: Model, pane: Pane, row: int)
    ensures
        ({
            let there = m.focused(pane);
            &&& there.rows_of(Pane::Active) == m.rows_of(Pane::Active)
            &&& there.rows_of(Pane::All) == m.rows_of(Pane::All)
            &&& match index_shown(m, pane, row) {
                Some(i) => there.row_under(row) == Some((i, m.rows_of(pane)[i])),
                None => there.row_under(row) is None,
            }
            &&& forall|i: int| (#[trigger] cursor_at(m, pane, i)) == (Model { selected: i, ..there }).click_forgotten()
            &&& forall|i: int| (#[trigger] cursor_at(m, pane, i)).rows_of(pane) == m.rows_of(pane)
        }),
{
    let there = m.focused(pane);
    assert(there.listing(Pane::Active) == m.listing(Pane::Active));
    assert(there.listing(Pane::All) == m.listing(Pane::All));
    assert forall|i: int| (#[trigger] cursor_at(m, pane, i)).rows_of(pane) == m.rows_of(pane) by {
        assert(cursor_at(m, pane, i).listing(pane) == m.listing(pane));
    }
}

/// A press of a button that is no turn of the wheel and no drag.
pub open spec fn is_press(event: MouseEvent, button: u16) -> bool {
    event.pressed && event.button & 96 == 0 && event.button & 3 == button
}

proof fn lemma_press(event: MouseEvent, button: u16)
    requires
        is_press(event, button),
        button <= 2,
    ensures
        crate::mouse::wheel_delta(event.button) is None,
        crate::mouse::drag_button(event.button) is None,
        crate::mouse::plain_button(event.button) == Some(button),
{
    let b = event.button;
    assert(b & 96 == 0 ==> b & 32 == 0 && b & 64 == 0) by (bit_vector);
}

/// A click with the right button changes the pin of the session that is shown under
/// it, and of no other; nothing else changes about any session, and the pins are to
/// be saved. On a header it changes no session, and beside the rows nothing.
pub proof fn right_click_pins_what_is_shown(m: Model, event: MouseEvent, now: u64)
    requires
        m.is_countable(),
        m.prompt is None,
        is_press(event, 2),
        sessions::names_of(m.sessions).no_duplicates(),
        0 <= m.top,
        0 <= m.parked_top,
    ensures
        ({
            let (after, effect) = m.moused(event, now);
            let pane = m.pane_at(event.col as int);
            match index_shown(m, pane, event.row as int) {
                Some(k) => match m.rows_of(pane)[k] {
                    VisibleRow::Session(i) => {
                        &&& pin_laws::only_pins_changed(
                            m.sessions,
                            after.sessions,
                            |x: SessionView| if x.name == m.sessions[i as int].name { !x.pinned } else { x.pinned },
                        )
                        &&& effect == EffectView::SavePins
                        &&& after.groups == m.groups && after.marked == m.marked && after.focus == pane
                    },
                    VisibleRow::Group(_) => effect == EffectView::Continue && after == (Model {
                        status: after.status,
                        ..cursor_at(m, pane, k)
                    }),
                },
                None => effect == EffectView::Continue && after == (Model { last_click: None, ..m }),
            }
        }),
{
    let pane = m.pane_at(event.col as int);
    lemma_press(event, 2);
    lemma_there(m, pane, event.row as int);
    if let Some(k) = index_shown(m, pane, event.row as int) {
        let at = cursor_at(m, pane, k);
        if let VisibleRow::Session(i) = m.rows_of(pane)[k] {
            assert(m.rows_of(pane).contains(m.rows_of(pane)[k]));
            crate::list_laws::panes_list_nothing_else(m, pane, VisibleRow::Session(i));
            pin_laws::toggling_changes_one(at, i as int);
        }
    }
}

/// A click with the left button puts the cursor on the row that is shown under it,
/// in its list. It does no more, unless it is the second of a double click while
/// nothing is marked, or on the checkbox of a session while something is marked:
/// then that session's mark is put or taken away. Beside the rows it does nothing.
pub proof fn left_click_selects_what_is_shown(m: Model, event: MouseEvent, now: u64)
    requires
        m.is_countable(),
        m.prompt is None,
        is_press(event, 0),
        0 <= m.top,
        0 <= m.parked_top,
    ensures
        ({
            let (after, effect) = m.moused(event, now);
            let pane = m.pane_at(event.col as int);
            let col = event.col - m.pane_col(pane);
            match index_shown(m, pane, event.row as int) {
                Some(k) => {
                    let row = m.rows_of(pane)[k];
                    let at = cursor_at(m, pane, k);
                    let marking = m.marked != Set::<Seq<char>>::empty();
                    let repeated = pane == m.focus && (m.last_click matches Some((r, t)) && r == row && now - t
                        <= 400_000_000);
                    if marking && row is Session && 2 <= col <= 4 {
                        &&& effect == EffectView::Continue
                        &&& mark_laws::marks_are_toggled(
                            at,
                            after,
                            |n: Seq<char>| n == m.sessions[row->Session_0 as int].name,
                        )
                    } else if repeated && !marking {
                        row matches VisibleRow::Session(i) ==> after == at && effect == EffectView::Switch(
                            m.sessions[i as int].name,
                        )
                    } else {
                        effect == EffectView::Continue && after == (Model { last_click: Some((row, now)), ..at })
                    }
                },
                None => effect == EffectView::Continue && after == (Model { last_click: None, ..m }),
            }
        }),
{
    let pane = m.pane_at(event.col as int);
    lemma_press(event, 0);
    lemma_there(m, pane, event.row as int);
    if let Some(k) = index_shown(m, pane, event.row as int) {
        let at = cursor_at(m, pane, k);
        let row = m.rows_of(pane)[k];
        let placed = Model { selected: k, ..m.focused(pane) };
        assert(placed.listing(Pane::Active) == m.listing(Pane::Active));
        assert(at.listing(Pane::Active) == m.listing(Pane::Active));
        assert(placed.selected_row() == Some(row)) by {
            assert(placed.listing(pane) == m.listing(pane));
        }
        assert(at.selected_row() == Some(row));
        if m.marked != Set::<Seq<char>>::empty() && row is Session {
            assert(at.marked == m.marked);
            lemma_row_marked(at, row->Session_0);
            lemma_row_marked(placed, row->Session_0);
        }
    }
}

proof fn lemma_row_marked(m: Model, i: usize)
    requires
        m.selected_row() == Some(VisibleRow::Session(i)),
    ensures
        mark_laws::marks_are_toggled(m, m.row_mark_toggled(), |n: Seq<char>| n == m.sessions[i as int].name),
{
    let name = m.sessions[i as int].name;
    let those = |n: Seq<char>| n == name;
    let after = m.row_mark_toggled();
    assert(those(name));
    assert forall|n: Seq<char>| #[trigger] after.marked.contains(n) <==> (if those(n) {
        !m.marked.contains(name)
    } else {
        m.marked.contains(n)
    }) by {}
}

proof fn lemma_reorder_effect(m: Model, up: bool)
    ensures
        ({
            let e = m.reordered(up).1;
            e == EffectView::Continue || e == EffectView::SavePins || e == EffectView::SaveGroups
        }),
        m.reordered(up).0.marked == m.marked,
        m.reordered(up).0.prompt == m.prompt,
        m.reordered(up).0.query == m.query,
        m.reordered(up).0.focus == m.focus,
        m.reordered(up).0.sessions.to_multiset() == m.sessions.to_multiset() || !m.is_countable(),
        m.is_countable() ==> m.reordered(up).0.is_countable(),
{
    if m.is_countable() {
        if let Some(VisibleRow::Session(i)) = m.selected_row() {
            assert(m.list().contains(m.list()[m.selected]));
            crate::list_laws::panes_list_nothing_else(m, m.focus, VisibleRow::Session(i));
            crate::organize::peer_is_pinned(m, i as int, up);
            if let Some(k) = m.peer(i as int, up) {
                lemma_exchange_multiset(m.sessions, i as int, k);
            }
        }
    }
}

proof fn lemma_exchange_multiset(s: Seq<SessionView>, i: int, k: int)
    requires
        0 <= i < s.len(),
        0 <= k < s.len(),
    ensures
        crate::lists::exchanged(s, i, k).to_multiset() == s.to_multiset(),
{
    broadcast use vstd::seq_lib::group_to_multiset_ensures;

    let t = s.update(i, s[k]);
    assert(t.to_multiset() =~= s.to_multiset().insert(s[k]).remove(s[i]));
    assert(t.update(k, s[i]).to_multiset() =~= t.to_multiset().insert(s[i]).remove(t[k]));
    assert(s.contains(s[i]) && s.contains(s[k]));
    assert(s.to_multiset().count(s[i]) > 0);
    assert(s.to_multiset().count(s[k]) > 0);
    assert(crate::lists::exchanged(s, i, k).to_multiset() =~= s.to_multiset());
}

proof fn lemma_drag_keeps(m: Model, up: bool, target: int, steps: nat, effect: EffectView)
    requires
        m.is_countable(),
        effect == EffectView::Continue || effect == EffectView::SavePins || effect == EffectView::SaveGroups,
    ensures
        ({
            let (after, e, left) = m.dragged(up, target, steps, effect);
            &&& e == EffectView::Continue || e == EffectView::SavePins || e == EffectView::SaveGroups
            &&& after.marked == m.marked && after.prompt == m.prompt && after.query == m.query && after.focus == m.focus
            &&& after.sessions.to_multiset() == m.sessions.to_multiset()
            &&& after.is_countable()
        }),
    decreases steps,
{
    let away = if up { m.selected > target } else { m.selected < target };
    if away && steps > 0 {
        let (next, e) = m.reordered(up);
        lemma_reorder_effect(m, up);
        if next.selected != m.selected {
            lemma_drag_keeps(next, up, target, (steps - 1) as nat, crate::pointer::later(effect, e));
        }
    }
}

/// A drag moves sessions, and drops, adds, pins and marks none.
pub proof fn drag_only_moves(m: Model, event: MouseEvent, now: u64)
    requires
        m.is_countable(),
        crate::drag_laws::is_drag(event),
    ensures
        ({
            let (after, effect) = m.moused(event, now);
            &&& after.sessions.to_multiset() == m.sessions.to_multiset()
            &&& after.marked == m.marked && after.prompt == m.prompt && after.query == m.query && after.focus == m.focus
            &&& effect == EffectView::Continue || effect == EffectView::SavePins || effect == EffectView::SaveGroups
        }),
{
    if m.prompt is None {
        let held = m.click_forgotten();
        if let Some((target, VisibleRow::Session(_))) = held.row_under(event.row as int) {
            lemma_drag_keeps(held, true, target, held.list().len(), EffectView::Continue);
            let (up, e, left) = held.dragged(true, target, held.list().len(), EffectView::Continue);
            lemma_drag_keeps(up, false, target, left, e);
        }
    }
}

/// The mouse kills no session and does not end the picker. It switches only to the
/// session that is shown under it, with the left button and while nothing is marked.
pub proof fn mouse_switches_to_what_is_shown(m: Model, event: MouseEvent, now: u64)
    requires
        m.is_countable(),
        0 <= m.top,
        0 <= m.parked_top,
    ensures
        ({
            let effect = m.moused(event, now).1;
            let pane = m.pane_at(event.col as int);
            &&& !(effect is Kill) && !(effect is KillAll) && !(effect is Quit) && !(effect is SaveName)
            &&& effect matches EffectView::Switch(name) ==> {
                &&& m.prompt is None
                &&& m.marked == Set::<Seq<char>>::empty()
                &&& event.pressed && event.button & 3 == 0
                &&& index_shown(m, pane, event.row as int) matches Some(k) && m.rows_of(pane)[k] matches VisibleRow::Session(
                    i,
                ) && name == m.sessions[i as int].name
            }
        }),
{
    let pane = m.pane_at(event.col as int);
    if crate::mouse::wheel_delta(event.button) is None && event.pressed && m.prompt is None {
        if crate::mouse::plain_button(event.button) == Some(2u16) {
            lemma_there(m, pane, event.row as int);
        } else if crate::mouse::drag_button(event.button) == Some(0u16) {
            drag_only_moves(m, event, now);
        } else if crate::mouse::plain_button(event.button) == Some(0u16) {
            let b = event.button;
            assert(b & 32 == 0 && b & 64 == 0 ==> b & 96 == 0) by (bit_vector);
            left_click_selects_what_is_shown(m, event, now);
            lemma_there(m, pane, event.row as int);
            if let Some(k) = index_shown(m, pane, event.row as int) {
                let placed = Model { selected: k, ..m.focused(pane) };
                assert(placed.click_forgotten().listing(pane) == m.listing(pane));
            }
        }
    }
}

/// A turn of the wheel moves the rows of the list under the mouse by three, as far
/// as there are rows, and takes the cursor along where it would leave the screen.
/// It changes nothing else.
pub proof fn wheel_moves_rows(m: Model, event: MouseEvent, now: u64)
    requires
        m.prompt is None,
        event.pressed,
        event.button & 64 != 0,
        event.button & 3 <= 1,
        m.rows >= 6,
    ensures
        ({
            let (after, effect) = m.moused(event, now);
            let pane = m.pane_at(event.col as int);
            let at = cursor_at(m, pane, if pane == m.focus { m.selected } else { m.parked_selected });
            let count = m.rows_of(pane).len() as int;
            let height = m.rows - 4;
            let wanted = at.top + (if event.button & 3 == 0 { -3int } else { 3int });
            let most = if count > height { count - height } else { 0 };
            &&& effect == EffectView::Continue
            &&& after == (Model { selected: after.selected, top: after.top, ..at })
            &&& count > 0 ==> after.top == (if wanted < 0 {
                0
            } else if wanted < most {
                wanted
            } else {
                most
            })
            &&& count > 0 && after.top <= at.selected < after.top + height && at.selected < count ==> after.selected
                == at.selected
            &&& count > 0 && at.selected < after.top ==> after.selected == after.top
            &&& count > after.top + height && at.selected >= after.top + height ==> after.selected == after.top + height - 1
        }),
{
    let pane = m.pane_at(event.col as int);
    lemma_there(m, pane, event.row as int);
    let there = m.focused(pane);
    assert(there.list() == m.rows_of(pane));
}

/// What a terminal sends for a mouse event, behind the escape byte, as characters.
pub open spec fn sent_for(event: MouseEvent) -> Seq<char> {
    seq!['[', '<'] + text::digits(event.button as nat) + seq![';'] + text::digits(event.col as nat) + seq![';']
        + text::digits(event.row as nat) + seq![if event.pressed { 'M' } else { 'm' }]
}

proof fn lemma_fields(a: Seq<char>, b: Seq<char>, c: Seq<char>)
    requires
        forall|i: int| 0 <= i < a.len() ==> text::is_digit(#[trigger] a[i]),
        forall|i: int| 0 <= i < b.len() ==> text::is_digit(#[trigger] b[i]),
        forall|i: int| 0 <= i < c.len() ==> text::is_digit(#[trigger] c[i]),
    ensures
        text::split_from(a + seq![';'] + b + seq![';'] + c, ';', 0) == seq![a, b, c],
{
    let s = a + seq![';'] + b + seq![';'] + c;
    let first = a.len() as int;
    let second = (a.len() + 1 + b.len()) as int;
    assert forall|i: int| 0 <= i < s.len() && i != first && i != second implies s[i] != ';' by {
        let x = if i < first {
            a[i]
        } else if i < second {
            b[i - first - 1]
        } else {
            c[i - second - 1]
        };
        assert(s[i] == x);
        assert(text::is_digit(x));
    }
    sessions::lemma_find_skips(s, ';', 0, first);
    sessions::lemma_find_skips(s, ';', first + 1, second);
    text::lemma_find_from(s, ';', second + 1);
    assert(text::find_from(s, ';', second + 1) == s.len());
    reveal_with_fuel(text::split_from, 4);
    assert(s.subrange(0, first) =~= a);
    assert(s.subrange(first + 1, second) =~= b);
    assert(s.subrange(second + 1, s.len() as int) =~= c);
    assert(text::split_from(s, ';', 0) =~= seq![a, b, c]);
}

/// A mouse event that a terminal sends is read as it was: with its button, its place
/// and whether the button was pressed.
pub proof fn mouse_event_is_read_back(event: MouseEvent, input: Seq<u8>)
    requires
        event.col >= 1,
        event.row >= 1,
        input.len() > 0,
        input[0] == 0x1b,
        crate::mouse::as_chars(input.skip(1)) == sent_for(event),
    ensures
        crate::mouse::mouse_event(input) == Some(event),
        crate::mouse::input_event(input) == crate::mouse::InputEvent::Mouse(event),
{
    let body = input.skip(1);
    let chars = crate::mouse::as_chars(body);
    let a = text::digits(event.button as nat);
    let b = text::digits(event.col as nat);
    let c = text::digits(event.row as nat);
    text::lemma_digits(event.button as nat);
    text::lemma_digits(event.col as nat);
    text::lemma_digits(event.row as nat);
    assert(chars.len() == body.len());
    assert(chars[0] == body[0] as char && chars[1] == body[1] as char);
    assert(chars[body.len() - 1] == body[body.len() - 1] as char);
    assert(chars[0] == '[' && chars[1] == '<');
    assert(chars.last() == (if event.pressed { 'M' } else { 'm' }));
    assert(body.take(2) =~= seq![0x5bu8, 0x3cu8]);
    let inner = body.subrange(2, body.len() - 1);
    assert(crate::mouse::as_chars(inner) =~= a + seq![';'] + b + seq![';'] + c) by {
        assert forall|i: int| 0 <= i < inner.len() implies crate::mouse::as_chars(inner)[i] == chars[i + 2] by {}
    }
    lemma_fields(a, b, c);
    text::number_round_trip(event.button as nat, u16::MAX as nat);
    text::number_round_trip(event.col as nat, usize::MAX as nat);
    text::number_round_trip(event.row as nat, usize::MAX as nat);
}

/// A byte that stands alone is the key that it is.
pub proof fn single_byte_is_a_key(key: u8)
    ensures
        crate::mouse::input_event(seq![key]) == crate::mouse::InputEvent::Key(key),
{
    let body = seq![key].skip(1);
    assert(body.len() == 0);
}

/// The bytes of a mouse event belong together: any number of the first of them is
/// no whole input yet, as long as it is short enough, and all of them are.
pub proof fn mouse_bytes_belong_together(event: MouseEvent, input: Seq<u8>, n: int)
    requires
        input.len() > 0,
        input[0] == 0x1b,
        crate::mouse::as_chars(input.skip(1)) == sent_for(event),
        1 <= n < input.len(),
        n < 32,
    ensures
        crate::mouse::is_open(input.take(n)),
        !crate::mouse::is_open(input),
{
    let chars = crate::mouse::as_chars(input.skip(1));
    let a = text::digits(event.button as nat);
    let b = text::digits(event.col as nat);
    let c = text::digits(event.row as nat);
    text::lemma_digits(event.button as nat);
    text::lemma_digits(event.col as nat);
    text::lemma_digits(event.row as nat);
    assert(chars.len() == input.len() - 1);
    assert forall|i: int| 0 <= i < chars.len() implies chars[i] == #[trigger] input[i + 1] as char by {}
    assert(chars[0] == '[' && chars[1] == '<');
    assert(input[1] == 0x5b && input[2] == 0x3c) by {
        assert(chars[0] == input[0int + 1] as char);
        assert(chars[1] == input[1int + 1] as char);
    }
    let part = input.take(n);
    if n > 3 {
        let i = n - 2;
        let x = chars[i];
        assert(2 <= i < chars.len() - 1);
        assert(x == ';' || text::is_digit(x)) by {
            let inner = a + seq![';'] + b + seq![';'] + c;
            assert(chars.subrange(2, chars.len() - 1) =~= inner);
            assert(x == inner[i - 2]);
            let k = i - 2;
            if k < a.len() {
                assert(inner[k] == a[k]);
            } else if k == a.len() {
            } else if k < a.len() + 1 + b.len() {
                assert(inner[k] == b[k - a.len() - 1]);
            } else if k == a.len() + 1 + b.len() {
            } else {
                assert(inner[k] == c[k - a.len() - b.len() - 2]);
            }
        }
        assert(x == input[i + 1] as char);
        assert(part.last() == input[n - 1]);
    }
    if n >= 3 {
        assert(part.take(3)[2] == 0x3c);
        assert(seq![0x1bu8, 0x5bu8, 0x4du8][2] == 0x4d);
    }
    assert(input.take(3) =~= seq![0x1bu8, 0x5bu8, 0x3cu8]);
    assert(chars[chars.len() - 1] == input[(chars.len() - 1) + 1] as char);
}

} // verus!
