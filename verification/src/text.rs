//! Strings as sequences of characters: building, padding, cutting, searching,
//! splitting, and reading and writing decimal numbers.

use vstd::prelude::*;
use vstd::string::*;

verus! {

/// `String::push` appends one character.
pub assume_specification[ String::push ](s: &mut String, c: char)
    ensures
        final(s)@ == old(s)@.push(c),
;

/// `String::pop` removes and returns the last character, if there is one.
pub assume_specification[ String::pop ](s: &mut String) -> (c: Option<char>)
    ensures
        old(s)@.len() == 0 ==> c is None && final(s)@ == old(s)@,
        old(s)@.len() > 0 ==> c == Some(old(s)@.last()) && final(s)@ == old(s)@.drop_last(),
;

/// The lowercase equivalent of a text, by Unicode's case mapping.
pub uninterp spec fn lowercase(s: Seq<char>) -> Seq<char>;

/// `str::to_lowercase`, whose result is named [`lowercase`]. Of the Unicode
/// mapping only its ASCII part is spelled out: on ASCII text it turns `A` to
/// `Z` into `a` to `z` and keeps everything else. How the mappings of two other
/// texts that differ in the case of ASCII letters alone are related is not said.
#[verifier::external_body]
pub(crate) fn to_lowercase(s: &str) -> (r: String)
    ensures
        r@ == lowercase(s@),
        is_ascii_text(s@) ==> r@ == ascii_folded(s@),
{
    s.to_lowercase()
}

pub open spec fn is_ascii_text(s: Seq<char>) -> bool {
    forall|i: int| 0 <= i < s.len() ==> (#[trigger] s[i] as u32) < 128
}

/// `c`, or its lowercase letter where `c` is one of `A` to `Z`.
pub open spec fn ascii_lower(c: char) -> char {
    if 'A' <= c && c <= 'Z' {
        (c as u32 + 32) as u32 as char
    } else {
        c
    }
}

/// `s` with `A` to `Z` turned into `a` to `z`.
pub open spec fn ascii_folded(s: Seq<char>) -> Seq<char> {
    s.map_values(|c: char| ascii_lower(c))
}

/// The characters that have Unicode's White_Space property.
pub open spec fn is_white_space(c: char) -> bool {
    ||| '\u{9}' <= c && c <= '\u{d}'
    ||| c == ' '
    ||| c == '\u{85}'
    ||| c == '\u{a0}'
    ||| c == '\u{1680}'
    ||| '\u{2000}' <= c && c <= '\u{200a}'
    ||| c == '\u{2028}'
    ||| c == '\u{2029}'
    ||| c == '\u{202f}'
    ||| c == '\u{205f}'
    ||| c == '\u{3000}'
}

/// The first index at or after `i` whose character is not white space, or the length.
pub open spec fn trim_start(s: Seq<char>, i: int) -> int
    decreases s.len() - i,
{
    if i < s.len() && is_white_space(s[i]) {
        trim_start(s, i + 1)
    } else {
        i
    }
}

/// The least end at or after `start` such that only white space stands between it and `end`.
pub open spec fn trim_end(s: Seq<char>, start: int, end: int) -> int
    decreases end - start,
{
    if start < end && is_white_space(s[end - 1]) {
        trim_end(s, start, end - 1)
    } else {
        end
    }
}

/// `s` without the white space at its two ends.
pub open spec fn trimmed(s: Seq<char>) -> Seq<char> {
    let start = trim_start(s, 0);
    s.subrange(start, trim_end(s, start, s.len() as int))
}

/// Whether `part` stands in `s` at index `i`.
pub open spec fn occurs_at(part: Seq<char>, s: Seq<char>, i: int) -> bool {
    0 <= i && i + part.len() <= s.len() && s.subrange(i, i + part.len()) == part
}

/// Whether `part` stands anywhere in `s`.
pub open spec fn occurs_in(part: Seq<char>, s: Seq<char>) -> bool {
    exists|i: int| occurs_at(part, s, i)
}

/// The first index at or after `i` that holds `c`, or the length.
pub open spec fn find_from(s: Seq<char>, c: char, i: int) -> int
    decreases s.len() - i,
{
    if i >= s.len() {
        s.len() as int
    } else if s[i] == c {
        i
    } else {
        find_from(s, c, i + 1)
    }
}

/// The pieces between the separators, from index `i` on.
pub open spec fn split_from(s: Seq<char>, sep: char, i: int) -> Seq<Seq<char>>
    decreases s.len() - i,
    when 0 <= i <= s.len()
    via split_from_decreases
{
    let k = find_from(s, sep, i);
    if k >= s.len() {
        seq![s.subrange(i, s.len() as int)]
    } else {
        seq![s.subrange(i, k)] + split_from(s, sep, k + 1)
    }
}

#[via_fn]
proof fn split_from_decreases(s: Seq<char>, sep: char, i: int) {
    lemma_find_from(s, sep, i);
}

/// `line` without a carriage return at its end.
pub open spec fn without_carriage_return(line: Seq<char>) -> Seq<char> {
    if line.len() > 0 && line.last() == '\r' {
        line.drop_last()
    } else {
        line
    }
}

/// The lines from index `i` on: each ends in `\n` or `\r\n`, the last may end with the text.
pub open spec fn lines_from(s: Seq<char>, i: int) -> Seq<Seq<char>>
    decreases s.len() - i,
    when 0 <= i
    via lines_from_decreases
{
    let k = find_from(s, '\n', i);
    if i >= s.len() {
        Seq::empty()
    } else if k >= s.len() {
        seq![s.subrange(i, s.len() as int)]
    } else {
        seq![without_carriage_return(s.subrange(i, k))] + lines_from(s, k + 1)
    }
}

#[via_fn]
proof fn lines_from_decreases(s: Seq<char>, i: int) {
    if i <= s.len() {
        lemma_find_from(s, '\n', i);
    }
}

/// What `find_from` finds: the first occurrence, with none before it.
pub proof fn lemma_find_from(s: Seq<char>, c: char, i: int)
    requires
        0 <= i <= s.len(),
    ensures
        i <= find_from(s, c, i) <= s.len(),
        find_from(s, c, i) < s.len() ==> s[find_from(s, c, i)] == c,
        forall|j: int| i <= j < find_from(s, c, i) ==> s[j] != c,
    decreases s.len() - i,
{
    if i < s.len() && s[i] != c {
        lemma_find_from(s, c, i + 1);
    }
}

pub open spec fn digit(d: nat) -> char {
    ('0' as u32 + d) as u32 as char
}

/// The decimal digits of `n`.
pub open spec fn digits(n: nat) -> Seq<char>
    decreases n,
{
    if n < 10 {
        seq![digit(n)]
    } else {
        digits(n / 10).push(digit(n % 10))
    }
}

pub open spec fn is_digit(c: char) -> bool {
    '0' <= c && c <= '9'
}

pub open spec fn digit_value(c: char) -> nat {
    (c as u32 - '0' as u32) as nat
}

/// The number that a sequence of decimal digits stands for.
pub open spec fn value_of(s: Seq<char>) -> nat
    decreases s.len(),
{
    if s.len() == 0 {
        0
    } else {
        value_of(s.drop_last()) * 10 + digit_value(s.last())
    }
}

/// The first index at or after `i` whose character is not a digit, or the length.
pub open spec fn digits_end(s: Seq<char>, i: int) -> int
    decreases s.len() - i,
{
    if i < s.len() && is_digit(s[i]) {
        digits_end(s, i + 1)
    } else {
        i
    }
}

/// Why a text is no number.
#[derive(Clone, Copy, Debug, PartialEq, Eq, Structural)]
pub enum NumberError {
    Empty,
    InvalidDigit,
    TooLarge,
}

/// The number that `s` stands for, `max` at most: digits only, after one optional `+`.
///
/// Reading goes from the left, so digits that already exceed `max` count
/// before a character behind them that is no digit.
pub open spec fn number(s: Seq<char>, max: nat) -> Result<nat, NumberError> {
    let start: int = if s.len() > 1 && s[0] == '+' { 1 } else { 0 };
    let end = digits_end(s, start);
    let value = value_of(s.subrange(start, end));
    if s.len() == 0 {
        Err(NumberError::Empty)
    } else if value > max {
        Err(NumberError::TooLarge)
    } else if end < s.len() {
        Err(NumberError::InvalidDigit)
    } else {
        Ok(value)
    }
}

/// The words for a [`NumberError`].
pub open spec fn number_error_words(e: NumberError) -> Seq<char> {
    match e {
        NumberError::Empty => "cannot parse integer from empty string"@,
        NumberError::InvalidDigit => "invalid digit found in string"@,
        NumberError::TooLarge => "number too large to fit in target type"@,
    }
}

pub open spec fn repeated(c: char, n: int) -> Seq<char> {
    Seq::new(if n > 0 { n as nat } else { 0 }, |i: int| c)
}

/// `s`, filled up with spaces behind it to `width`.
pub open spec fn padded_right(s: Seq<char>, width: int) -> Seq<char> {
    s + repeated(' ', width - s.len())
}

/// `s`, filled up with spaces before it to `width`.
pub open spec fn padded_left(s: Seq<char>, width: int) -> Seq<char> {
    repeated(' ', width - s.len()) + s
}

/// `s` in the middle of `width`; an odd space goes behind it.
pub open spec fn centered(s: Seq<char>, width: int) -> Seq<char> {
    let gap = if width > s.len() { width - s.len() } else { 0 };
    repeated(' ', gap / 2) + s + repeated(' ', gap - gap / 2)
}

/// `s`, or where it is longer than `max_width` its start and an ellipsis.
pub open spec fn truncated(s: Seq<char>, max_width: int) -> Seq<char> {
    if s.len() <= max_width {
        s
    } else if max_width <= 1 {
        "…"@
    } else {
        s.subrange(0, max_width - 1) + "…"@
    }
}

/// The characters of `s`.
pub fn char_vec(s: &str) -> (r: Vec<char>)
    ensures
        r@ == s@,
{
    let mut out: Vec<char> = Vec::new();
    for c in it: s.chars()
        invariant
            out@ == it.seq().take(it.index()),
            it.seq() == s@,
    {
        out.push(c);
    }
    out
}

pub fn same(a: &str, b: &str) -> (r: bool)
    ensures
        r == (a@ == b@),
{
    a.to_owned() == b.to_owned()
}

fn white_space(c: char) -> (r: bool)
    ensures
        r == is_white_space(c),
{
    ('\u{9}' <= c && c <= '\u{d}') || c == ' ' || c == '\u{85}' || c == '\u{a0}' || c == '\u{1680}'
        || ('\u{2000}' <= c && c <= '\u{200a}') || c == '\u{2028}' || c == '\u{2029}' || c
        == '\u{202f}' || c == '\u{205f}' || c == '\u{3000}'
}

/// `s` without the white space at its two ends.
pub fn trim(s: &str) -> (r: String)
    ensures
        r@ == trimmed(s@),
{
    let chars = char_vec(s);
    let mut start: usize = 0;
    while start < chars.len() && white_space(chars[start])
        invariant
            0 <= start <= chars.len(),
            chars@ == s@,
            trim_start(s@, 0) == trim_start(s@, start as int),
        decreases chars.len() - start,
    {
        start += 1;
    }
    let mut end: usize = chars.len();
    while start < end && white_space(chars[end - 1])
        invariant
            start <= end <= chars.len(),
            chars@ == s@,
            trim_end(s@, start as int, s@.len() as int) == trim_end(s@, start as int, end as int),
        decreases end,
    {
        end -= 1;
    }
    s.substring_char(start, end).to_owned()
}

fn lower(c: char) -> (r: char)
    ensures
        r == ascii_lower(c),
{
    if 'A' <= c && c <= 'Z' {
        (c as u8 + 32) as char
    } else {
        c
    }
}

/// Whether two texts agree but for the case of the letters `A` to `Z`.
pub fn same_ignoring_ascii_case(a: &str, b: &str) -> (r: bool)
    ensures
        r == (ascii_folded(a@) == ascii_folded(b@)),
{
    let left = char_vec(a);
    let right = char_vec(b);
    if left.len() != right.len() {
        assert(ascii_folded(a@).len() != ascii_folded(b@).len());
        return false;
    }
    let mut i: usize = 0;
    while i < left.len()
        invariant
            i <= left.len() == right.len(),
            left@ == a@,
            right@ == b@,
            forall|j: int| 0 <= j < i ==> ascii_folded(a@)[j] == ascii_folded(b@)[j],
        decreases left.len() - i,
    {
        if lower(left[i]) != lower(right[i]) {
            assert(ascii_folded(a@)[i as int] != ascii_folded(b@)[i as int]);
            return false;
        }
        i += 1;
    }
    assert(ascii_folded(a@) =~= ascii_folded(b@));
    true
}

/// Whether `part` stands anywhere in `s`.
pub fn contains(s: &str, part: &str) -> (r: bool)
    ensures
        r == occurs_in(part@, s@),
{
    let whole_len: usize = s.unicode_len();
    let part_len: usize = part.unicode_len();
    if part_len > whole_len {
        return false;
    }
    let mut i: usize = 0;
    while i <= whole_len - part_len
        invariant
            whole_len == s@.len(),
            part_len == part@.len(),
            part_len <= whole_len,
            i <= whole_len - part_len + 1,
            forall|j: int| 0 <= j < i ==> !occurs_at(part@, s@, j),
        decreases whole_len - part_len + 1 - i,
    {
        if same(s.substring_char(i, i + part_len), part) {
            assert(occurs_at(part@, s@, i as int));
            return true;
        }
        if i == whole_len - part_len {
            return false;
        }
        i += 1;
    }
    false
}

/// The first index at or after `from` that holds `c`, or the length.
pub fn find(chars: &Vec<char>, c: char, from: usize) -> (r: usize)
    requires
        from <= chars.len(),
    ensures
        r == find_from(chars@, c, from as int),
        from <= r <= chars.len(),
{
    let mut i: usize = from;
    while i < chars.len() && chars[i] != c
        invariant
            from <= i <= chars.len(),
            find_from(chars@, c, from as int) == find_from(chars@, c, i as int),
        decreases chars.len() - i,
    {
        i += 1;
    }
    i
}

/// The texts that a vector of strings holds.
pub open spec fn views(v: Seq<String>) -> Seq<Seq<char>> {
    v.map_values(|s: String| s@)
}

/// The pieces of `s` between the separators.
pub fn split(s: &str, sep: char) -> (r: Vec<String>)
    ensures
        views(r@) == split_from(s@, sep, 0),
{
    let chars = char_vec(s);
    let mut out: Vec<String> = Vec::new();
    let mut start: usize = 0;
    loop
        invariant
            chars@ == s@,
            start <= chars.len(),
            views(out@) + split_from(s@, sep, start as int) == split_from(s@, sep, 0),
        decreases chars.len() - start,
    {
        let end: usize = find(&chars, sep, start);
        let ghost before = views(out@);
        out.push(s.substring_char(start, end).to_owned());
        assert(views(out@) =~= before.push(s@.subrange(start as int, end as int)));
        if end == chars.len() {
            return out;
        }
        assert(views(out@) + split_from(s@, sep, end + 1) =~= before + (seq![
            s@.subrange(start as int, end as int),
        ] + split_from(s@, sep, end + 1)));
        start = end + 1;
    }
}

/// The lines of `s`, without their line endings.
pub fn lines(s: &str) -> (r: Vec<String>)
    ensures
        views(r@) == lines_from(s@, 0),
{
    let chars = char_vec(s);
    let mut out: Vec<String> = Vec::new();
    let mut start: usize = 0;
    while start < chars.len()
        invariant
            chars@ == s@,
            start <= chars.len(),
            views(out@) + lines_from(s@, start as int) == lines_from(s@, 0),
        decreases chars.len() - start,
    {
        let end: usize = find(&chars, '\n', start);
        let ghost before = views(out@);
        if end == chars.len() {
            out.push(s.substring_char(start, end).to_owned());
            assert(views(out@) =~= before + lines_from(s@, start as int));
            return out;
        }
        let stop: usize = if start < end && chars[end - 1] == '\r' { end - 1 } else { end };
        out.push(s.substring_char(start, stop).to_owned());
        proof {
            let line = s@.subrange(start as int, end as int);
            assert(without_carriage_return(line) =~= s@.subrange(start as int, stop as int));
            assert(views(out@) + lines_from(s@, end + 1) =~= before + (seq![
                without_carriage_return(line),
            ] + lines_from(s@, end + 1)));
        }
        start = end + 1;
    }
    assert(views(out@) =~= lines_from(s@, 0));
    out
}

/// More digits never make a smaller number.
proof fn lemma_value_grows(s: Seq<char>, start: int, i: int, end: int)
    requires
        0 <= start <= i <= end <= s.len(),
    ensures
        value_of(s.subrange(start, i)) <= value_of(s.subrange(start, end)),
    decreases end - i,
{
    if i < end {
        lemma_value_grows(s, start, i, end - 1);
        assert(s.subrange(start, end).drop_last() =~= s.subrange(start, end - 1));
    }
}

proof fn lemma_digits_end(s: Seq<char>, i: int)
    requires
        0 <= i <= s.len(),
    ensures
        i <= digits_end(s, i) <= s.len(),
    decreases s.len() - i,
{
    if i < s.len() && is_digit(s[i]) {
        lemma_digits_end(s, i + 1);
    }
}

/// Reads the characters from `from` up to `to` as a number, `max` at most.
pub fn parse_number(chars: &Vec<char>, from: usize, to: usize, max: u64) -> (r: Result<u64, NumberError>)
    requires
        from <= to <= chars.len(),
    ensures
        match r {
            Ok(n) => number(chars@.subrange(from as int, to as int), max as nat) == Ok::<nat, NumberError>(n as nat),
            Err(e) => number(chars@.subrange(from as int, to as int), max as nat) == Err::<nat, NumberError>(e),
        },
{
    let ghost s = chars@.subrange(from as int, to as int);
    if from == to {
        return Err(NumberError::Empty);
    }
    let start: usize = if to - from > 1 && chars[from] == '+' { 1 } else { 0 };
    let mut i: usize = start;
    let mut value: u64 = 0;
    while i < to - from
        invariant
            from <= to <= chars.len(),
            s == chars@.subrange(from as int, to as int),
            s.len() == to - from,
            s.len() > 0,
            start <= i <= s.len(),
            start == (if s.len() > 1 && s[0] == '+' { 1int } else { 0int }),
            digits_end(s, start as int) == digits_end(s, i as int),
            value == value_of(s.subrange(start as int, i as int)),
            value <= max,
        decreases to - from - i,
    {
        let c = chars[from + i];
        assert(c == s[i as int]);
        if !('0' <= c && c <= '9') {
            return Err(NumberError::InvalidDigit);
        }
        let d: u64 = c as u64 - 48;
        proof {
            assert(s.subrange(start as int, i + 1).drop_last() =~= s.subrange(start as int, i as int));
            lemma_digits_end(s, i + 1);
            lemma_value_grows(s, start as int, i + 1, digits_end(s, i + 1));
        }
        if value > max / 10 || d > max - value * 10 {
            return Err(NumberError::TooLarge);
        }
        value = value * 10 + d;
        i += 1;
    }
    Ok(value)
}

/// The words for a [`NumberError`].
pub fn number_error(e: NumberError) -> (r: String)
    ensures
        r@ == number_error_words(e),
{
    match e {
        NumberError::Empty => "cannot parse integer from empty string".to_owned(),
        NumberError::InvalidDigit => "invalid digit found in string".to_owned(),
        NumberError::TooLarge => "number too large to fit in target type".to_owned(),
    }
}

/// The decimal digits of `n`.
pub fn decimal(n: u64) -> (r: String)
    ensures
        r@ == digits(n as nat),
    decreases n,
{
    let mut out = if n < 10 { String::new() } else { decimal(n / 10) };
    out.push((48 + (n % 10) as u8) as char);
    out
}

/// The decimal digits of a count.
pub fn count(n: usize) -> (r: String)
    ensures
        r@ == digits(n as nat),
{
    decimal(n as u64)
}

/// `c`, `n` times.
pub fn repeat(c: char, n: usize) -> (r: String)
    ensures
        r@ == repeated(c, n as int),
{
    let mut out = String::new();
    let mut i: usize = 0;
    while i < n
        invariant
            i <= n,
            out@ == repeated(c, i as int),
        decreases n - i,
    {
        out.push(c);
        assert(out@ =~= repeated(c, i + 1));
        i += 1;
    }
    out
}

pub fn pad_right(s: &str, width: usize) -> (r: String)
    ensures
        r@ == padded_right(s@, width as int),
{
    let mut out = s.to_owned();
    out.append(&repeat(' ', width.saturating_sub(s.unicode_len())));
    assert(out@ =~= padded_right(s@, width as int));
    out
}

pub fn pad_left(s: &str, width: usize) -> (r: String)
    ensures
        r@ == padded_left(s@, width as int),
{
    let mut out = repeat(' ', width.saturating_sub(s.unicode_len()));
    out.append(s);
    assert(out@ =~= padded_left(s@, width as int));
    out
}

pub fn center(s: &str, width: usize) -> (r: String)
    ensures
        r@ == centered(s@, width as int),
{
    let gap: usize = width.saturating_sub(s.unicode_len());
    let mut out = repeat(' ', gap / 2);
    out.append(s);
    out.append(&repeat(' ', gap - gap / 2));
    out
}

/// `text`, or where it is longer than `max_width` its start and an ellipsis.
pub fn truncate(text: &str, max_width: usize) -> (r: String)
    ensures
        r@ == truncated(text@, max_width as int),
{
    if text.unicode_len() <= max_width {
        return text.to_owned();
    }
    if max_width <= 1 {
        return "…".to_owned();
    }
    let mut out = text.substring_char(0, max_width - 1).to_owned();
    out.append("…");
    out
}

/// A truncated text fits its width, which is taken as 1 at least.
pub proof fn truncation_fits(s: Seq<char>, max_width: int)
    ensures
        truncated(s, max_width).len() <= (if max_width > 1 { max_width } else { 1 }),
        s.len() <= max_width ==> truncated(s, max_width) == s,
{
    reveal_strlit("…");
}

pub(crate) proof fn lemma_digits(n: nat)
    ensures
        digits(n).len() > 0,
        forall|i: int| 0 <= i < digits(n).len() ==> is_digit(#[trigger] digits(n)[i]),
        value_of(digits(n)) == n,
    decreases n,
{
    if n >= 10 {
        lemma_digits(n / 10);
        let front = digits(n / 10);
        assert(digits(n).drop_last() =~= front);
        assert forall|i: int| 0 <= i < digits(n).len() implies is_digit(#[trigger] digits(n)[i]) by {
            if i < front.len() {
                assert(is_digit(front[i]));
            }
        }
    } else {
        reveal_with_fuel(value_of, 2);
        assert(digits(n).drop_last() =~= Seq::empty());
    }
}

proof fn lemma_all_digits(s: Seq<char>, i: int)
    requires
        0 <= i <= s.len(),
        forall|j: int| 0 <= j < s.len() ==> is_digit(#[trigger] s[j]),
    ensures
        digits_end(s, i) == s.len(),
    decreases s.len() - i,
{
    if i < s.len() {
        lemma_all_digits(s, i + 1);
    }
}

/// Reading the digits of a number gives the number back.
pub proof fn number_round_trip(n: nat, max: nat)
    requires
        n <= max,
    ensures
        number(digits(n), max) == Ok::<nat, NumberError>(n),
{
    lemma_digits(n);
    let s = digits(n);
    assert(is_digit(s[0]));
    lemma_all_digits(s, 0);
    assert(s.subrange(0, s.len() as int) =~= s);
}

proof fn lemma_trim_start(s: Seq<char>, i: int)
    requires
        0 <= i <= s.len(),
    ensures
        i <= trim_start(s, i) <= s.len(),
        trim_start(s, i) < s.len() ==> !is_white_space(s[trim_start(s, i)]),
    decreases s.len() - i,
{
    if i < s.len() && is_white_space(s[i]) {
        lemma_trim_start(s, i + 1);
    }
}

proof fn lemma_trim_end(s: Seq<char>, start: int, end: int)
    requires
        0 <= start <= end <= s.len(),
    ensures
        start <= trim_end(s, start, end) <= end,
        trim_end(s, start, end) > start ==> !is_white_space(s[trim_end(s, start, end) - 1]),
        start < end && !is_white_space(s[start]) ==> trim_end(s, start, end) > start,
    decreases end - start,
{
    if start < end && is_white_space(s[end - 1]) {
        lemma_trim_end(s, start, end - 1);
    }
}

/// A trimmed text neither starts nor ends with white space, so trimming it again changes nothing.
pub proof fn trimming_is_done_once(s: Seq<char>)
    ensures
        trimmed(s).len() > 0 ==> !is_white_space(trimmed(s)[0]) && !is_white_space(trimmed(s).last()),
        trimmed(trimmed(s)) == trimmed(s),
{
    let start = trim_start(s, 0);
    lemma_trim_start(s, 0);
    lemma_trim_end(s, start, s.len() as int);
    let t = trimmed(s);
    assert(t.subrange(0, t.len() as int) =~= t);
}

proof fn lemma_trimmed_ends(s: Seq<char>, start: int, end: int)
    requires
        0 <= start <= end <= s.len(),
    ensures
        forall|i: int| trim_end(s, start, end) <= i < end ==> is_white_space(#[trigger] s[i]),
    decreases end - start,
{
    if start < end && is_white_space(s[end - 1]) {
        lemma_trimmed_ends(s, start, end - 1);
    }
}

proof fn lemma_trimmed_start(s: Seq<char>, i: int)
    requires
        0 <= i <= s.len(),
    ensures
        forall|k: int| i <= k < trim_start(s, i) ==> is_white_space(#[trigger] s[k]),
    decreases s.len() - i,
{
    if i < s.len() && is_white_space(s[i]) {
        lemma_trimmed_start(s, i + 1);
    }
}

/// Trimming takes nothing but white space from the two ends of a text, so a text
/// without white space at its ends comes out of white space as it went in.
pub proof fn trimming_takes_white_space(before: Seq<char>, s: Seq<char>, behind: Seq<char>)
    requires
        forall|i: int| 0 <= i < before.len() ==> is_white_space(#[trigger] before[i]),
        forall|i: int| 0 <= i < behind.len() ==> is_white_space(#[trigger] behind[i]),
        s.len() > 0 ==> !is_white_space(s[0]) && !is_white_space(s.last()),
    ensures
        trimmed(before + s + behind) == s,
{
    let all = before + s + behind;
    let start = trim_start(all, 0);
    let end = trim_end(all, start, all.len() as int);
    lemma_trim_start(all, 0);
    lemma_trimmed_start(all, 0);
    lemma_trim_end(all, start, all.len() as int);
    lemma_trimmed_ends(all, start, all.len() as int);
    assert forall|i: int| 0 <= i < all.len() implies #[trigger] all[i] == (if i < before.len() {
        before[i]
    } else if i < before.len() + s.len() {
        s[i - before.len()]
    } else {
        behind[i - before.len() - s.len()]
    }) by {}
    if s.len() > 0 {
        let first = before.len() as int;
        let last = before.len() + s.len() - 1;
        assert(!is_white_space(all[first]));
        assert(!is_white_space(all[last]));
        assert(start == first) by {
            if start < first {
                assert(is_white_space(all[start]));
            }
        }
        assert(end == last + 1) by {
            if end > last + 1 {
                assert(is_white_space(all[end - 1]));
            }
            if end <= last {
                assert(is_white_space(all[last]));
            }
        }
        assert(all.subrange(start, end) =~= s);
    } else {
        if start < all.len() {
            assert(is_white_space(all[start]));
        }
        assert(trimmed(all) =~= s);
    }
}

/// A text occurs between any two others.
pub proof fn parts_occur(before: Seq<char>, part: Seq<char>, behind: Seq<char>)
    ensures
        occurs_in(part, before + part + behind),
{
    let all = before + part + behind;
    assert(all.subrange(before.len() as int, (before.len() + part.len()) as int) =~= part);
    assert(occurs_at(part, all, before.len() as int));
}

} // verus!
