//! Mouse events and other input, as terminals send it.

use vstd::prelude::*;
use vstd::slice::slice_subrange;

use crate::text;

verus! {

pub const MOUSE_BUTTON_MASK: u16 = 3;

pub const MOUSE_DRAG_FLAG: u16 = 32;

pub const MOUSE_WHEEL_FLAG: u16 = 64;

pub const MOUSE_WHEEL_ROWS: isize = 3;

/// The longest escape sequence that is read.
pub const LONGEST_SEQUENCE: usize = 32;

/// The byte that starts an escape sequence, and that the escape key sends.
pub const ESCAPE: u8 = 0x1b;

/// What happened to a mouse button, and where. Columns and rows count from 1.
#[derive(Clone, Copy, Debug, PartialEq, Eq, Structural)]
pub struct MouseEvent {
    pub button: u16,
    pub col: usize,
    pub row: usize,
    pub pressed: bool,
}

/// What the user did.
#[derive(Clone, Copy, Debug, PartialEq, Eq, Structural)]
pub enum InputEvent {
    Key(u8),
    Mouse(MouseEvent),
    Ignore,
}

/// Each byte as the character with its number.
pub open spec fn as_chars(bytes: Seq<u8>) -> Seq<char> {
    bytes.map_values(|b: u8| b as char)
}

pub open spec fn starts_with(bytes: Seq<u8>, start: Seq<u8>) -> bool {
    bytes.len() >= start.len() && bytes.take(start.len() as int) == start
}

/// The event in `[<button;col;row` followed by `M` for a press or `m` for a release.
pub open spec fn sgr_event(input: Seq<u8>) -> Option<MouseEvent> {
    let fields = text::split_from(as_chars(input.subrange(2, input.len() - 1)), ';', 0);
    let button = text::number(fields[0], u16::MAX as nat);
    let col = text::number(fields[1], usize::MAX as nat);
    let row = text::number(fields[2], usize::MAX as nat);
    if !starts_with(input, seq![0x5bu8, 0x3cu8]) || input.len() < 3 {
        None
    } else if input.last() != 0x4d && input.last() != 0x6d {
        None
    } else if fields.len() != 3 || button is Err || col is Err || row is Err {
        None
    } else if col->Ok_0 == 0 || row->Ok_0 == 0 {
        None
    } else {
        Some(
            MouseEvent {
                button: button->Ok_0 as u16,
                col: col->Ok_0 as usize,
                row: row->Ok_0 as usize,
                pressed: input.last() == 0x4d,
            },
        )
    }
}

/// The event in `[M` followed by the button, the column and the row, each as a byte that is 32 higher.
pub open spec fn x10_event(input: Seq<u8>) -> Option<MouseEvent> {
    if input.len() != 5 || !starts_with(input, seq![0x5bu8, 0x4du8]) {
        None
    } else if input[2] < 32 || input[3] <= 32 || input[4] <= 32 {
        None
    } else {
        Some(
            MouseEvent {
                button: (input[2] - 32) as u16,
                col: (input[3] - 32) as usize,
                row: (input[4] - 32) as usize,
                pressed: ((input[2] - 32) as u16) & MOUSE_BUTTON_MASK != MOUSE_BUTTON_MASK,
            },
        )
    }
}

/// The event in an escape sequence, in either form.
pub open spec fn mouse_event(input: Seq<u8>) -> Option<MouseEvent> {
    if input.len() == 0 || input[0] != ESCAPE {
        None
    } else if sgr_event(input.skip(1)) is Some {
        sgr_event(input.skip(1))
    } else {
        x10_event(input.skip(1))
    }
}

/// Whether an escape sequence has all the bytes of a mouse event.
pub open spec fn is_complete(sequence: Seq<u8>) -> bool {
    ||| starts_with(sequence, seq![ESCAPE, 0x5bu8, 0x4du8]) && sequence.len() == 6
    ||| starts_with(sequence, seq![ESCAPE, 0x5bu8, 0x3cu8]) && (sequence.last() == 0x4d || sequence.last() == 0x6d)
}

/// Whether bytes that follow at once belong to the same input.
pub open spec fn is_open(sequence: Seq<u8>) -> bool {
    sequence.len() > 0 && sequence[0] == ESCAPE && sequence.len() < LONGEST_SEQUENCE && !is_complete(sequence)
}

/// What the bytes of one input mean. Escape sequences that are no mouse events mean nothing.
pub open spec fn input_event(sequence: Seq<u8>) -> InputEvent {
    match mouse_event(sequence) {
        Some(event) => InputEvent::Mouse(event),
        None => if sequence[0] == ESCAPE && sequence.len() > 1 {
            InputEvent::Ignore
        } else {
            InputEvent::Key(sequence[0])
        },
    }
}

fn has_start(input: &[u8], a: u8, b: u8) -> (r: bool)
    ensures
        r == starts_with(input@, seq![a, b]),
{
    if input.len() < 2 {
        return false;
    }
    let r = input[0] == a && input[1] == b;
    proof {
        let front = input@.take(2);
        if r {
            assert(front =~= seq![a, b]);
        } else {
            assert(front[0] == input@[0] && front[1] == input@[1]);
        }
    }
    r
}

/// The bytes from `from` up to `to` as characters.
fn chars_of(input: &[u8], from: usize, to: usize) -> (r: Vec<char>)
    requires
        from <= to <= input@.len(),
    ensures
        r@ == as_chars(input@.subrange(from as int, to as int)),
{
    let mut out: Vec<char> = Vec::new();
    let mut i: usize = from;
    while i < to
        invariant
            from <= i <= to <= input@.len(),
            out@.len() == i - from,
            forall|j: int| 0 <= j < i - from ==> #[trigger] out@[j] == input@[from + j] as char,
        decreases to - i,
    {
        out.push(input[i] as char);
        i += 1;
    }
    assert(out@ =~= as_chars(input@.subrange(from as int, to as int)));
    out
}

/// The event in `[<button;col;row` followed by `M` for a press or `m` for a release.
pub fn parse_sgr_mouse_body(input: &[u8]) -> (r: Option<MouseEvent>)
    ensures
        r == sgr_event(input@),
{
    let count: usize = input.len();
    if !has_start(input, 0x5b, 0x3c) || count < 3 {
        return None;
    }
    let terminator: u8 = input[count - 1];
    if terminator != 0x4d && terminator != 0x6d {
        return None;
    }
    let body = chars_of(input, 2, count - 1);
    let ghost s = body@;
    let ghost fields = text::split_from(s, ';', 0);
    let end: usize = body.len();
    let first: usize = text::find(&body, ';', 0);
    proof {
        reveal_with_fuel(text::split_from, 4);
    }
    if first == end {
        assert(fields.len() == 1);
        return None;
    }
    let second: usize = text::find(&body, ';', first + 1);
    if second == end {
        assert(fields.len() == 2);
        return None;
    }
    let third: usize = text::find(&body, ';', second + 1);
    if third != end {
        assert(fields.len() > 3);
        return None;
    }
    proof {
        assert(fields.len() == 3);
        assert(fields[0] == s.subrange(0, first as int));
        assert(fields[1] == s.subrange(first + 1, second as int));
        assert(fields[2] == s.subrange(second + 1, end as int));
    }
    let button: u64 = match text::parse_number(&body, 0, first, u16::MAX as u64) {
        Ok(n) => n,
        Err(_) => {
            return None;
        },
    };
    let col: u64 = match text::parse_number(&body, first + 1, second, usize::MAX as u64) {
        Ok(n) => n,
        Err(_) => {
            return None;
        },
    };
    let row: u64 = match text::parse_number(&body, second + 1, end, usize::MAX as u64) {
        Ok(n) => n,
        Err(_) => {
            return None;
        },
    };
    if col == 0 || row == 0 {
        return None;
    }
    Some(MouseEvent { button: button as u16, col: col as usize, row: row as usize, pressed: terminator == 0x4d })
}

/// The event in `[M` followed by the button, the column and the row, each as a byte that is 32 higher.
pub fn parse_x10_mouse_body(input: &[u8]) -> (r: Option<MouseEvent>)
    ensures
        r == x10_event(input@),
{
    if input.len() != 5 || !has_start(input, 0x5b, 0x4d) {
        return None;
    }
    if input[2] < 32 || input[3] <= 32 || input[4] <= 32 {
        return None;
    }
    let button: u16 = (input[2] - 32) as u16;
    Some(
        MouseEvent {
            button,
            col: (input[3] - 32) as usize,
            row: (input[4] - 32) as usize,
            pressed: button & MOUSE_BUTTON_MASK != MOUSE_BUTTON_MASK,
        },
    )
}

/// The event in an escape sequence, in either form.
pub fn parse_mouse_escape(input: &[u8]) -> (r: Option<MouseEvent>)
    ensures
        r == mouse_event(input@),
{
    if input.len() == 0 || input[0] != ESCAPE {
        return None;
    }
    let body = slice_subrange(input, 1, input.len());
    assert(body@ =~= input@.skip(1));
    match parse_sgr_mouse_body(body) {
        Some(event) => Some(event),
        None => parse_x10_mouse_body(body),
    }
}

/// Whether bytes that follow at once belong to the same input as `sequence`.
pub fn wants_more(sequence: &Vec<u8>) -> (r: bool)
    ensures
        r == is_open(sequence@),
{
    let count: usize = sequence.len();
    if count == 0 || sequence[0] != ESCAPE || count >= LONGEST_SEQUENCE {
        return false;
    }
    let ghost front = sequence@.take(3);
    if count < 3 || sequence[1] != 0x5b {
        proof {
            if count >= 3 {
                assert(front[1] == sequence@[1]);
            }
        }
        return true;
    }
    let last: u8 = sequence[count - 1];
    proof {
        assert(front[2] == sequence@[2]);
        if sequence@[2] == 0x4d {
            assert(front =~= seq![ESCAPE, 0x5bu8, 0x4du8]);
        }
        if sequence@[2] == 0x3c {
            assert(front =~= seq![ESCAPE, 0x5bu8, 0x3cu8]);
        }
    }
    !(sequence[2] == 0x4d && count == 6) && !(sequence[2] == 0x3c && (last == 0x4d || last == 0x6d))
}

/// What the bytes of one input mean.
pub fn decode_input(sequence: &Vec<u8>) -> (r: InputEvent)
    requires
        sequence.len() > 0,
    ensures
        r == input_event(sequence@),
{
    match parse_mouse_escape(sequence.as_slice()) {
        Some(event) => InputEvent::Mouse(event),
        None => {
            if sequence[0] == ESCAPE && sequence.len() > 1 {
                InputEvent::Ignore
            } else {
                InputEvent::Key(sequence[0])
            }
        },
    }
}

/// By how many rows a turn of the wheel moves the list.
pub open spec fn wheel_delta(button: u16) -> Option<isize> {
    if button & MOUSE_WHEEL_FLAG == 0 {
        None
    } else if button & MOUSE_BUTTON_MASK == 0 {
        Some(-3isize)
    } else if button & MOUSE_BUTTON_MASK == 1 {
        Some(3isize)
    } else {
        None
    }
}

/// The number of a button that was pressed without a drag or the wheel.
pub open spec fn plain_button(button: u16) -> Option<u16> {
    if button & MOUSE_DRAG_FLAG == 0 && button & MOUSE_WHEEL_FLAG == 0 {
        Some(button & MOUSE_BUTTON_MASK)
    } else {
        None
    }
}

/// The number of a button that the mouse was dragged with.
pub open spec fn drag_button(button: u16) -> Option<u16> {
    if button & MOUSE_DRAG_FLAG != 0 && button & MOUSE_WHEEL_FLAG == 0 {
        Some(button & MOUSE_BUTTON_MASK)
    } else {
        None
    }
}

/// By how many rows a turn of the wheel moves the list.
pub fn mouse_wheel_delta(button: u16) -> (r: Option<isize>)
    ensures
        r == wheel_delta(button),
{
    if button & MOUSE_WHEEL_FLAG == 0 {
        return None;
    }
    match button & MOUSE_BUTTON_MASK {
        0 => Some(-MOUSE_WHEEL_ROWS),
        1 => Some(MOUSE_WHEEL_ROWS),
        _ => None,
    }
}

/// The number of a button that was pressed without a drag or the wheel.
pub fn mouse_plain_button(button: u16) -> (r: Option<u16>)
    ensures
        r == plain_button(button),
{
    if button & MOUSE_DRAG_FLAG == 0 && button & MOUSE_WHEEL_FLAG == 0 {
        Some(button & MOUSE_BUTTON_MASK)
    } else {
        None
    }
}

/// The number of a button that the mouse was dragged with.
pub fn mouse_drag_button(button: u16) -> (r: Option<u16>)
    ensures
        r == drag_button(button),
{
    if button & MOUSE_DRAG_FLAG != 0 && button & MOUSE_WHEEL_FLAG == 0 {
        Some(button & MOUSE_BUTTON_MASK)
    } else {
        None
    }
}

/// The index of the row under a row of the screen, in a list that starts at
/// `list_row_start`, is `list_height` rows high and shows its rows from `top` on.
pub open spec fn index_under(
    mouse_row: int,
    list_row_start: int,
    list_height: int,
    top: int,
    row_count: int,
) -> Option<int> {
    let offset = mouse_row - list_row_start;
    if 0 <= offset < list_height && top + offset < row_count {
        Some(top + offset)
    } else {
        None
    }
}

/// The index of the row under a row of the screen.
pub fn visible_index_for_mouse_row(
    mouse_row: usize,
    list_row_start: usize,
    list_height: usize,
    top: usize,
    row_count: usize,
) -> (r: Option<usize>)
    ensures
        crate::groups::index_view(r) == index_under(
            mouse_row as int,
            list_row_start as int,
            list_height as int,
            top as int,
            row_count as int,
        ),
        r matches Some(index) ==> index < row_count,
{
    if mouse_row < list_row_start {
        return None;
    }
    let offset: usize = mouse_row - list_row_start;
    if offset >= list_height {
        return None;
    }
    if top >= row_count || offset >= row_count - top {
        return None;
    }
    Some(top + offset)
}

/// Mouse events are on the screen: their columns and rows count from 1.
pub proof fn events_are_on_screen(input: Seq<u8>)
    ensures
        mouse_event(input) matches Some(event) ==> event.col >= 1 && event.row >= 1,
{
    if input.len() > 0 {
        let body = input.skip(1);
        let fields = text::split_from(as_chars(body.subrange(2, body.len() - 1)), ';', 0);
        assert(text::number(fields[1], usize::MAX as nat) matches Ok(n) ==> n <= usize::MAX);
        assert(text::number(fields[2], usize::MAX as nat) matches Ok(n) ==> n <= usize::MAX);
    }
}

/// A button code is a turn of the wheel, a drag or a plain button, and never two of them.
pub proof fn button_codes_are_exclusive(button: u16)
    ensures
        wheel_delta(button) is Some ==> plain_button(button) is None && drag_button(button) is None,
        plain_button(button) is Some ==> drag_button(button) is None,
{
}

} // verus!
