//! Sessions: reading them from tmux, and the order in which they are listed.

use vstd::prelude::*;
use vstd::string::*;

use crate::names;
use crate::names::NameSet;
use crate::text;

verus! {

/// A tmux session. Pinned sessions are the ones in use: they stand in front, in an order of their own.
#[derive(Debug, Eq, PartialEq)]
pub struct Session {
    pub name: String,
    pub last_activity: u64,
    pub pinned: bool,
    pub is_current: bool,
}

#[verifier::ext_equal]
pub struct SessionView {
    pub name: Seq<char>,
    pub last_activity: u64,
    pub pinned: bool,
    pub is_current: bool,
}

impl View for Session {
    type V = SessionView;

    open spec fn view(&self) -> SessionView {
        SessionView {
            name: self.name@,
            last_activity: self.last_activity,
            pinned: self.pinned,
            is_current: self.is_current,
        }
    }
}

impl Clone for Session {
    fn clone(&self) -> (r: Session)
        ensures
            r@ == self@,
    {
        Session {
            name: self.name.clone(),
            last_activity: self.last_activity,
            pinned: self.pinned,
            is_current: self.is_current,
        }
    }
}

pub open spec fn session_views(sessions: Seq<Session>) -> Seq<SessionView> {
    sessions.map_values(|s: Session| s@)
}

/// The session that a line of tmux's listing describes: its name, a tab, and the
/// time of its last activity. A line without a name describes none.
pub open spec fn parsed_line(line: Seq<char>, current: Seq<char>, pinned: Seq<Seq<char>>) -> Option<
    Result<SessionView, Seq<char>>,
> {
    let fields = text::split_from(line, '\t', 0);
    let name = fields[0];
    let activity = if fields.len() > 1 { fields[1] } else { "0"@ };
    if name.len() == 0 {
        None
    } else {
        match text::number(activity, u64::MAX as nat) {
            Err(e) => Some(
                Err("invalid last activity for "@ + name + ": "@ + text::number_error_words(e)),
            ),
            Ok(n) => Some(
                Ok(
                    SessionView {
                        name,
                        last_activity: n as u64,
                        pinned: pinned.contains(name),
                        is_current: name == current,
                    },
                ),
            ),
        }
    }
}

/// The sessions that the lines from index `i` on describe, or what is wrong with the first that is wrong.
pub open spec fn parsed_from(
    lines: Seq<Seq<char>>,
    current: Seq<char>,
    pinned: Seq<Seq<char>>,
    i: int,
) -> Result<Seq<SessionView>, Seq<char>>
    decreases lines.len() - i,
{
    if i >= lines.len() {
        Ok(Seq::empty())
    } else {
        match parsed_line(lines[i], current, pinned) {
            None => parsed_from(lines, current, pinned, i + 1),
            Some(Err(why)) => Err(why),
            Some(Ok(session)) => match parsed_from(lines, current, pinned, i + 1) {
                Err(why) => Err(why),
                Ok(rest) => Ok(seq![session] + rest),
            },
        }
    }
}

/// The sessions in tmux's listing, of which there has to be one at least.
pub open spec fn parsed(raw: Seq<char>, current: Seq<char>, pinned: Seq<Seq<char>>) -> Result<
    Seq<SessionView>,
    Seq<char>,
> {
    match parsed_from(text::lines_from(raw, 0), current, pinned, 0) {
        Err(why) => Err(why),
        Ok(sessions) => if sessions.len() == 0 {
            Err("no tmux sessions found"@)
        } else {
            Ok(sessions)
        },
    }
}

pub open spec fn is_sessions_result(
    r: Result<Vec<Session>, String>,
    expected: Result<Seq<SessionView>, Seq<char>>,
) -> bool {
    match expected {
        Ok(sessions) => r matches Ok(v) && session_views(v@) == sessions,
        Err(why) => r matches Err(e) && e@ == why,
    }
}

/// Reads the line of tmux's listing for one session.
fn parse_line(line: &str, current_session: &str, pinned_names: &Vec<String>) -> (r: Option<Result<Session, String>>)
    ensures
        match parsed_line(line@, current_session@, text::views(pinned_names@)) {
            None => r is None,
            Some(Ok(session)) => r matches Some(Ok(s)) && s@ == session,
            Some(Err(why)) => r matches Some(Err(e)) && e@ == why,
        },
{
    let fields = text::split(line, '\t');
    let ghost all = text::split_from(line@, '\t', 0);
    assert(all == text::views(fields@));
    assert(all.len() > 0);
    let name = fields[0].clone();
    assert(name@ == all[0]);
    if name.as_str().is_empty() {
        return None;
    }
    let activity = if fields.len() > 1 { fields[1].clone() } else { "0".to_owned() };
    assert(all.len() > 1 ==> activity@ == all[1]);
    let digits = text::char_vec(&activity);
    assert(digits@.subrange(0, digits@.len() as int) =~= digits@);
    match text::parse_number(&digits, 0, digits.len(), u64::MAX) {
        Err(e) => {
            let mut why = "invalid last activity for ".to_owned();
            why.append(&name);
            why.append(": ");
            why.append(&text::number_error(e));
            Some(Err(why))
        },
        Ok(last_activity) => {
            let pinned = names::contains(pinned_names, &name);
            let is_current = text::same(&name, current_session);
            Some(Ok(Session { name, last_activity, pinned, is_current }))
        },
    }
}

/// The sessions in tmux's listing, in the order of the listing.
pub fn parse_sessions(raw: &str, current_session: &str, pinned_names: &Vec<String>) -> (r: Result<
    Vec<Session>,
    String,
>)
    ensures
        is_sessions_result(r, parsed(raw@, current_session@, text::views(pinned_names@))),
{
    let lines = text::lines(raw);
    let ghost all = text::lines_from(raw@, 0);
    let ghost current = current_session@;
    let ghost pinned = text::views(pinned_names@);
    let mut sessions: Vec<Session> = Vec::new();
    let mut i: usize = 0;
    proof {
        assert(session_views(sessions@) =~= Seq::empty());
        if parsed_from(all, current, pinned, 0) is Ok {
            let rest = parsed_from(all, current, pinned, 0)->Ok_0;
            assert(Seq::empty() + rest =~= rest);
        }
    }
    while i < lines.len()
        invariant
            i <= lines.len(),
            all == text::lines_from(raw@, 0),
            all == text::views(lines@),
            current == current_session@,
            pinned == text::views(pinned_names@),
            match parsed_from(all, current, pinned, i as int) {
                Ok(rest) => parsed_from(all, current, pinned, 0) == Ok::<Seq<SessionView>, Seq<char>>(
                    session_views(sessions@) + rest,
                ),
                Err(why) => parsed_from(all, current, pinned, 0) == Err::<Seq<SessionView>, Seq<char>>(why),
            },
        decreases lines.len() - i,
    {
        assert(all[i as int] == lines@[i as int]@);
        let ghost before = session_views(sessions@);
        match parse_line(&lines[i], current_session, pinned_names) {
            None => {},
            Some(Err(why)) => {
                return Err(why);
            },
            Some(Ok(session)) => {
                sessions.push(session);
                proof {
                    assert(session_views(sessions@) =~= before.push(session@));
                    if parsed_from(all, current, pinned, i + 1) is Ok {
                        let rest = parsed_from(all, current, pinned, i + 1)->Ok_0;
                        assert(before + (seq![session@] + rest) =~= session_views(sessions@) + rest);
                    }
                }
            },
        }
        i += 1;
    }
    assert(session_views(sessions@) + Seq::<SessionView>::empty() =~= session_views(sessions@));
    if sessions.len() == 0 {
        return Err("no tmux sessions found".to_owned());
    }
    Ok(sessions)
}

/// The pinned sessions, in their order.
pub open spec fn pinned_part(sessions: Seq<SessionView>) -> Seq<SessionView> {
    sessions.filter(|s: SessionView| s.pinned)
}

/// The sessions that are not pinned, in their order.
pub open spec fn unpinned_part(sessions: Seq<SessionView>) -> Seq<SessionView> {
    sessions.filter(|s: SessionView| !s.pinned)
}

/// The names of sessions.
pub open spec fn names_of(sessions: Seq<SessionView>) -> Seq<Seq<char>> {
    sessions.map_values(|s: SessionView| s.name)
}

/// The names of the pinned sessions, in their order.
pub open spec fn pinned_names(sessions: Seq<SessionView>) -> Seq<Seq<char>> {
    names_of(pinned_part(sessions))
}

proof fn lemma_parts_push(s: Seq<SessionView>, x: SessionView)
    ensures
        pinned_part(s.push(x)) == (if x.pinned { pinned_part(s).push(x) } else { pinned_part(s) }),
        unpinned_part(s.push(x)) == (if x.pinned { unpinned_part(s) } else { unpinned_part(s).push(x) }),
{
    reveal_with_fuel(Seq::filter, 1);
    assert(s.push(x).drop_last() =~= s);
}

proof fn lemma_parts_empty()
    ensures
        pinned_part(Seq::empty()) == Seq::<SessionView>::empty(),
        unpinned_part(Seq::empty()) == Seq::<SessionView>::empty(),
{
    reveal_with_fuel(Seq::filter, 1);
}

/// The names of the pinned sessions, in their order.
pub fn pinned_names_from_sessions(sessions: &Vec<Session>) -> (r: Vec<String>)
    ensures
        text::views(r@) == pinned_names(session_views(sessions@)),
{
    let ghost all = session_views(sessions@);
    let mut out: Vec<String> = Vec::new();
    let mut i: usize = 0;
    proof {
        lemma_parts_empty();
        assert(all.take(0) =~= Seq::empty());
        assert(text::views(out@) =~= pinned_names(all.take(0)));
    }
    while i < sessions.len()
        invariant
            i <= sessions.len(),
            all == session_views(sessions@),
            text::views(out@) == pinned_names(all.take(i as int)),
        decreases sessions.len() - i,
    {
        proof {
            assert(all.take(i + 1) =~= all.take(i as int).push(all[i as int]));
            lemma_parts_push(all.take(i as int), all[i as int]);
        }
        let ghost before = text::views(out@);
        if sessions[i].pinned {
            out.push(sessions[i].name.clone());
            assert(text::views(out@) =~= before.push(all[i as int].name));
        }
        assert(text::views(out@) =~= pinned_names(all.take(i + 1)));
        i += 1;
    }
    assert(all.take(i as int) =~= all);
    out
}

/// Whether `a` stands before `b` in the order of texts: at the first index at or
/// after `i` where they differ `a` has the lower character, or it has ended.
pub open spec fn text_before(a: Seq<char>, b: Seq<char>, i: int) -> bool
    decreases b.len() - i,
{
    if i >= b.len() {
        false
    } else if i >= a.len() {
        true
    } else if a[i] != b[i] {
        a[i] < b[i]
    } else {
        text_before(a, b, i + 1)
    }
}

/// Whether `a` has to stand before `b`: it was active later, or at the same time and its name comes first.
#[verifier::opaque]
pub open spec fn before(a: SessionView, b: SessionView) -> bool {
    a.last_activity > b.last_activity || a.last_activity == b.last_activity && text_before(a.name, b.name, 0)
}

/// The first index at or after `i` of a session before which `x` has to stand, or the length.
pub open spec fn place_from(s: Seq<SessionView>, x: SessionView, i: int) -> int
    decreases s.len() - i,
{
    if i >= s.len() {
        s.len() as int
    } else if before(x, s[i]) {
        i
    } else {
        place_from(s, x, i + 1)
    }
}

/// The sessions in the order of `before`; those of which neither comes first keep their order.
pub open spec fn sorted(s: Seq<SessionView>) -> Seq<SessionView>
    decreases s.len(),
{
    if s.len() == 0 {
        Seq::empty()
    } else {
        let front = sorted(s.drop_last());
        front.insert(place_from(front, s.last(), 0), s.last())
    }
}

/// The first pinned session at or after `i` that has the name.
pub open spec fn pinned_from(s: Seq<SessionView>, name: Seq<char>, i: int) -> Option<int>
    decreases s.len() - i,
{
    if i >= s.len() {
        None
    } else if s[i].pinned && s[i].name == name {
        Some(i)
    } else {
        pinned_from(s, name, i + 1)
    }
}

/// The pinned sessions in the order of `names` from index `i` on, and what is left without them.
pub open spec fn drawn(s: Seq<SessionView>, names: Seq<Seq<char>>, i: int) -> (Seq<SessionView>, Seq<SessionView>)
    decreases names.len() - i,
{
    if i >= names.len() {
        (Seq::empty(), s)
    } else {
        match pinned_from(s, names[i], 0) {
            None => drawn(s, names, i + 1),
            Some(k) => {
                let rest = drawn(s.remove(k), names, i + 1);
                (seq![s[k]] + rest.0, rest.1)
            },
        }
    }
}

/// The order in which sessions are listed: the pinned ones as `names` has them,
/// then the pinned ones that it has not, then the others by their activity.
pub open spec fn arranged(s: Seq<SessionView>, names: Seq<Seq<char>>) -> Seq<SessionView> {
    let (first, left) = drawn(s, names, 0);
    first + pinned_part(left) + sorted(unpinned_part(left))
}

/// Whether `a` stands before `b` in the order of texts.
fn text_is_before(a: &str, b: &str) -> (r: bool)
    ensures
        r == text_before(a@, b@, 0),
{
    let left = text::char_vec(a);
    let right = text::char_vec(b);
    let mut i: usize = 0;
    while i < right.len()
        invariant
            i <= right.len(),
            i <= left.len(),
            left@ == a@,
            right@ == b@,
            text_before(a@, b@, 0) == text_before(a@, b@, i as int),
        decreases right.len() - i,
    {
        if i >= left.len() {
            return true;
        }
        if left[i] != right[i] {
            return left[i] < right[i];
        }
        i += 1;
    }
    false
}

fn is_before(a: &Session, b: &Session) -> (r: bool)
    ensures
        r == before(a@, b@),
{
    proof {
        reveal(before);
    }
    if a.last_activity != b.last_activity {
        a.last_activity > b.last_activity
    } else {
        text_is_before(&a.name, &b.name)
    }
}

/// The sessions in the order of their activity.
fn sort(sessions: Vec<Session>) -> (r: Vec<Session>)
    ensures
        session_views(r@) == sorted(session_views(sessions@)),
{
    let ghost all = session_views(sessions@);
    let mut out: Vec<Session> = Vec::new();
    let mut i: usize = 0;
    assert(session_views(out@) =~= sorted(all.take(0)));
    while i < sessions.len()
        invariant
            i <= sessions.len(),
            all == session_views(sessions@),
            session_views(out@) == sorted(all.take(i as int)),
        decreases sessions.len() - i,
    {
        let ghost front = session_views(out@);
        let mut k: usize = 0;
        while k < out.len() && !is_before(&sessions[i], &out[k])
            invariant
                i < sessions.len(),
                k <= out.len(),
                all == session_views(sessions@),
                front == session_views(out@),
                place_from(front, all[i as int], 0) == place_from(front, all[i as int], k as int),
            decreases out.len() - k,
        {
            k += 1;
        }
        out.insert(k, sessions[i].clone());
        proof {
            assert(all.take(i + 1).drop_last() =~= all.take(i as int));
            assert(session_views(out@) =~= front.insert(k as int, all[i as int]));
        }
        i += 1;
    }
    assert(all.take(i as int) =~= all);
    out
}

/// The first pinned session with the name.
fn find_pinned(sessions: &Vec<Session>, name: &str) -> (r: Option<usize>)
    ensures
        match r {
            Some(k) => k < sessions.len() && pinned_from(session_views(sessions@), name@, 0) == Some(k as int),
            None => pinned_from(session_views(sessions@), name@, 0) is None,
        },
{
    let ghost all = session_views(sessions@);
    let mut i: usize = 0;
    while i < sessions.len()
        invariant
            i <= sessions.len(),
            all == session_views(sessions@),
            pinned_from(all, name@, 0) == pinned_from(all, name@, i as int),
        decreases sessions.len() - i,
    {
        if sessions[i].pinned && text::same(&sessions[i].name, name) {
            return Some(i);
        }
        i += 1;
    }
    None
}

/// Puts the sessions in the order in which they are listed.
pub fn arrange_sessions(sessions: &mut Vec<Session>, pinned_names: &Vec<String>)
    ensures
        session_views(final(sessions)@) == arranged(session_views(old(sessions)@), text::views(pinned_names@)),
{
    let ghost names = text::views(pinned_names@);
    let ghost start = session_views(sessions@);
    let mut remaining: Vec<Session> = Vec::new();
    core::mem::swap(&mut remaining, sessions);
    let mut pinned: Vec<Session> = Vec::new();
    let mut i: usize = 0;
    assert(session_views(pinned@) =~= Seq::empty());
    assert(Seq::empty() + drawn(start, names, 0).0 =~= drawn(start, names, 0).0);
    while i < pinned_names.len()
        invariant
            i <= pinned_names.len(),
            names == text::views(pinned_names@),
            drawn(start, names, 0).0 == session_views(pinned@) + drawn(
                session_views(remaining@),
                names,
                i as int,
            ).0,
            drawn(start, names, 0).1 == drawn(session_views(remaining@), names, i as int).1,
        decreases pinned_names.len() - i,
    {
        let ghost left = session_views(remaining@);
        let ghost taken = session_views(pinned@);
        assert(names[i as int] == pinned_names@[i as int]@);
        if let Some(k) = find_pinned(&remaining, &pinned_names[i]) {
            let session = remaining.remove(k);
            pinned.push(session);
            proof {
                assert(session_views(remaining@) =~= left.remove(k as int));
                assert(session_views(pinned@) =~= taken.push(left[k as int]));
                let rest = drawn(left.remove(k as int), names, i + 1).0;
                assert(taken + (seq![left[k as int]] + rest) =~= session_views(pinned@) + rest);
            }
        }
        i += 1;
    }
    let ghost first = session_views(pinned@);
    let ghost left = session_views(remaining@);
    assert(first + Seq::<SessionView>::empty() =~= first);
    let mut unpinned: Vec<Session> = Vec::new();
    let mut j: usize = 0;
    proof {
        lemma_parts_empty();
        assert(left.take(0) =~= Seq::empty());
        assert(session_views(pinned@) =~= first + pinned_part(left.take(0)));
        assert(session_views(unpinned@) =~= unpinned_part(left.take(0)));
    }
    while j < remaining.len()
        invariant
            j <= remaining.len(),
            left == session_views(remaining@),
            session_views(pinned@) == first + pinned_part(left.take(j as int)),
            session_views(unpinned@) == unpinned_part(left.take(j as int)),
        decreases remaining.len() - j,
    {
        let ghost p = session_views(pinned@);
        let ghost u = session_views(unpinned@);
        let session = remaining[j].clone();
        proof {
            assert(session@ == left[j as int]);
            assert(left.take(j + 1) =~= left.take(j as int).push(left[j as int]));
            lemma_parts_push(left.take(j as int), left[j as int]);
        }
        if session.pinned {
            pinned.push(session);
            assert(session_views(pinned@) =~= p.push(left[j as int]));
            assert(session_views(pinned@) =~= first + pinned_part(left.take(j + 1)));
        } else {
            unpinned.push(session);
            assert(session_views(unpinned@) =~= u.push(left[j as int]));
        }
        j += 1;
    }
    assert(left.take(j as int) =~= left);
    let mut others = sort(unpinned);
    let ghost p = pinned@;
    let ghost o = others@;
    pinned.append(&mut others);
    assert(session_views(pinned@) =~= session_views(p) + session_views(o));
    *sessions = pinned;
}

/// The names in the text of a pin file: one on each line, of which repetitions and empty lines do not count.
pub open spec fn pin_file_names(contents: Seq<char>) -> Seq<Seq<char>> {
    names::fresh(text::lines_from(contents, 0).filter(|line: Seq<char>| line.len() > 0), Set::empty())
}

/// The names from index `i` on, each followed by the end of its line.
pub open spec fn name_lines(names: Seq<Seq<char>>, i: int) -> Seq<char>
    decreases names.len() - i,
{
    if i >= names.len() {
        Seq::empty()
    } else {
        names[i] + "\n"@ + name_lines(names, i + 1)
    }
}

/// The text of the pin file that keeps `names`. Without names it is an empty line.
pub open spec fn pin_file_text(names: Seq<Seq<char>>) -> Seq<char> {
    if names.len() == 0 {
        "\n"@
    } else {
        name_lines(names, 0)
    }
}

/// The names in the text of a pin file.
pub fn parse_pinned_names(contents: &str) -> (r: Vec<String>)
    ensures
        text::views(r@) == pin_file_names(contents@),
{
    let lines = text::lines(contents);
    let ghost all = text::lines_from(contents@, 0);
    let ghost filled = |line: Seq<char>| line.len() > 0;
    let mut kept: Vec<String> = Vec::new();
    let mut i: usize = 0;
    assert(text::views(kept@) =~= all.take(0).filter(filled)) by {
        reveal_with_fuel(Seq::filter, 1);
    }
    while i < lines.len()
        invariant
            i <= lines.len(),
            all == text::views(lines@),
            filled == (|line: Seq<char>| line.len() > 0),
            text::views(kept@) == all.take(i as int).filter(filled),
        decreases lines.len() - i,
    {
        assert(all.take(i + 1).filter(filled) == (if all[i as int].len() > 0 {
            all.take(i as int).filter(filled).push(all[i as int])
        } else {
            all.take(i as int).filter(filled)
        })) by {
            reveal_with_fuel(Seq::filter, 1);
            assert(all.take(i + 1).drop_last() =~= all.take(i as int));
        }
        let ghost had = text::views(kept@);
        if !lines[i].as_str().is_empty() {
            kept.push(lines[i].clone());
            assert(text::views(kept@) =~= had.push(all[i as int]));
        }
        i += 1;
    }
    assert(all.take(i as int) =~= all);
    let mut seen = NameSet::new();
    names::keep_fresh(&kept, &mut seen)
}

/// The text of the pin file that keeps `pinned_names`.
pub fn pin_file_contents(pinned_names: &Vec<String>) -> (r: String)
    ensures
        r@ == pin_file_text(text::views(pinned_names@)),
{
    if pinned_names.len() == 0 {
        return "\n".to_owned();
    }
    let ghost names = text::views(pinned_names@);
    let mut out = String::new();
    let mut i: usize = 0;
    assert(out@ + name_lines(names, 0) =~= name_lines(names, 0));
    while i < pinned_names.len()
        invariant
            i <= pinned_names.len(),
            names == text::views(pinned_names@),
            name_lines(names, 0) == out@ + name_lines(names, i as int),
        decreases pinned_names.len() - i,
    {
        let ghost had = out@;
        out.append(&pinned_names[i]);
        out.append("\n");
        assert(out@ + name_lines(names, i + 1) =~= had + (names[i as int] + "\n"@ + name_lines(names, i + 1)));
        i += 1;
    }
    assert(out@ + name_lines(names, i as int) =~= out@);
    out
}

/// What the picker lists: the sessions of tmux's listing, in their order.
pub open spec fn listed(raw: Seq<char>, current: Seq<char>, pinned: Seq<Seq<char>>) -> Result<
    Seq<SessionView>,
    Seq<char>,
> {
    match parsed(raw, text::trimmed(current), pinned) {
        Err(why) => Err(why),
        Ok(sessions) => Ok(arranged(sessions, pinned)),
    }
}

/// The sessions to list, from tmux's listing, from its answer to which session is
/// the current one, and from the names in the pin file.
pub fn load_sessions(raw_sessions: &str, current_session: &str, pinned_names: &Vec<String>) -> (r: Result<
    Vec<Session>,
    String,
>)
    ensures
        is_sessions_result(r, listed(raw_sessions@, current_session@, text::views(pinned_names@))),
{
    let current = text::trim(current_session);
    match parse_sessions(raw_sessions, &current, pinned_names) {
        Err(why) => Err(why),
        Ok(mut sessions) => {
            arrange_sessions(&mut sessions, pinned_names);
            Ok(sessions)
        },
    }
}

proof fn lemma_text_before_strict(a: Seq<char>, b: Seq<char>, i: int)
    requires
        0 <= i,
        text_before(a, b, i),
    ensures
        !text_before(b, a, i),
    decreases b.len() - i,
{
    if i < b.len() && i < a.len() && a[i] == b[i] {
        lemma_text_before_strict(a, b, i + 1);
    }
}

proof fn lemma_text_before_chain(a: Seq<char>, b: Seq<char>, c: Seq<char>, i: int)
    requires
        0 <= i,
        text_before(a, b, i),
        text_before(b, c, i),
    ensures
        text_before(a, c, i),
    decreases c.len() - i,
{
    if i < a.len() && i < b.len() && i < c.len() && a[i] == b[i] && b[i] == c[i] {
        lemma_text_before_chain(a, b, c, i + 1);
    }
}

/// The order of sessions is strict: no two have to stand before each other, and
/// what has to stand before a second has to stand before all that this one has to.
pub proof fn order_is_strict(a: SessionView, b: SessionView, c: SessionView)
    ensures
        before(a, b) ==> !before(b, a),
        before(a, b) && before(b, c) ==> before(a, c),
{
    reveal(before);
    if text_before(a.name, b.name, 0) {
        lemma_text_before_strict(a.name, b.name, 0);
        if text_before(b.name, c.name, 0) {
            lemma_text_before_chain(a.name, b.name, c.name, 0);
        }
    }
}

/// Whether no session has to stand before one further in front.
pub open spec fn in_order(s: Seq<SessionView>) -> bool {
    forall|i: int, j: int| 0 <= i < j < s.len() ==> !before(#[trigger] s[j], #[trigger] s[i])
}

proof fn lemma_place(s: Seq<SessionView>, x: SessionView, i: int)
    requires
        0 <= i <= s.len(),
    ensures
        i <= place_from(s, x, i) <= s.len(),
        place_from(s, x, i) < s.len() ==> before(x, s[place_from(s, x, i)]),
        forall|k: int| i <= k < place_from(s, x, i) ==> !before(x, #[trigger] s[k]),
    decreases s.len() - i,
{
    if i < s.len() && !before(x, s[i]) {
        lemma_place(s, x, i + 1);
    }
}

/// Sorting leaves no session that has to stand before one further in front, and
/// neither drops a session nor makes one up.
pub proof fn sorting_orders(s: Seq<SessionView>)
    ensures
        in_order(sorted(s)),
        sorted(s).to_multiset() == s.to_multiset(),
    decreases s.len(),
{
    broadcast use vstd::seq_lib::group_to_multiset_ensures;

    if s.len() == 0 {
        assert(sorted(s) =~= s);
    } else {
        let x = s.last();
        let front = sorted(s.drop_last());
        let p = place_from(front, x, 0);
        sorting_orders(s.drop_last());
        lemma_place(front, x, 0);
        let out = front.insert(p, x);
        assert forall|i: int, j: int| 0 <= i < j < out.len() implies !before(#[trigger] out[j], #[trigger] out[i]) by {
            if i == p {
                assert(out[j] == front[j - 1]);
                order_is_strict(x, front[p], front[p]);
                order_is_strict(front[j - 1], x, front[p]);
                if p < j - 1 {
                    assert(!before(front[j - 1], front[p]));
                }
            } else if j == p {
                assert(out[i] == front[i]);
            } else {
                let i0 = if i < p { i } else { i - 1 };
                let j0 = if j < p { j } else { j - 1 };
                assert(!before(front[j0], front[i0]));
            }
        }
        assert(s =~= s.drop_last().push(x));
        assert(out.to_multiset() =~= front.to_multiset().insert(x));
    }
}

proof fn lemma_place_at_end(s: Seq<SessionView>, x: SessionView, i: int)
    requires
        0 <= i <= s.len(),
        forall|k: int| 0 <= k < s.len() ==> !before(x, #[trigger] s[k]),
    ensures
        place_from(s, x, i) == s.len(),
    decreases s.len() - i,
{
    if i < s.len() {
        lemma_place_at_end(s, x, i + 1);
    }
}

/// Sorting what is in order changes nothing.
pub proof fn sorting_keeps_order(s: Seq<SessionView>)
    requires
        in_order(s),
    ensures
        sorted(s) == s,
    decreases s.len(),
{
    if s.len() > 0 {
        let front = s.drop_last();
        assert forall|i: int, j: int| 0 <= i < j < front.len() implies !before(#[trigger] front[j], #[trigger] front[i]) by {
            assert(!before(s[j], s[i]));
        }
        sorting_keeps_order(front);
        assert forall|k: int| 0 <= k < front.len() implies !before(s.last(), #[trigger] front[k]) by {
            assert(!before(s[s.len() - 1], s[k]));
        }
        lemma_place_at_end(front, s.last(), 0);
        assert(front.insert(front.len() as int, s.last()) =~= s);
    } else {
        assert(sorted(s) =~= s);
    }
}

pub(crate) proof fn lemma_pinned_from(s: Seq<SessionView>, name: Seq<char>, i: int)
    requires
        0 <= i <= s.len(),
    ensures
        match pinned_from(s, name, i) {
            Some(k) => i <= k < s.len() && s[k].pinned && s[k].name == name,
            None => forall|k: int| i <= k < s.len() ==> !((#[trigger] s[k]).pinned && s[k].name == name),
        },
    decreases s.len() - i,
{
    if i < s.len() && !(s[i].pinned && s[i].name == name) {
        lemma_pinned_from(s, name, i + 1);
    }
}

pub(crate) proof fn lemma_drawn(s: Seq<SessionView>, names: Seq<Seq<char>>, i: int)
    requires
        0 <= i <= names.len(),
    ensures
        forall|k: int| 0 <= k < drawn(s, names, i).0.len() ==> (#[trigger] drawn(s, names, i).0[k]).pinned,
        drawn(s, names, i).0.to_multiset().add(drawn(s, names, i).1.to_multiset()) == s.to_multiset(),
    decreases names.len() - i,
{
    broadcast use vstd::seq_lib::group_to_multiset_ensures;

    if i >= names.len() {
        assert(Seq::<SessionView>::empty().to_multiset().add(s.to_multiset()) =~= s.to_multiset());
    } else {
        lemma_pinned_from(s, names[i], 0);
        match pinned_from(s, names[i], 0) {
            None => {
                lemma_drawn(s, names, i + 1);
            },
            Some(k) => {
                lemma_drawn(s.remove(k), names, i + 1);
                let (d, l) = drawn(s.remove(k), names, i + 1);
                vstd::seq_lib::lemma_multiset_commutative(seq![s[k]], d);
                assert(seq![s[k]] =~= Seq::empty().push(s[k]));
                assert(s.remove(k).insert(k, s[k]) =~= s);
                assert(s.to_multiset() =~= s.remove(k).to_multiset().insert(s[k]));
                assert((seq![s[k]] + d).to_multiset().add(l.to_multiset()) =~= s.to_multiset());
            },
        }
    }
}

pub(crate) proof fn lemma_parts(s: Seq<SessionView>)
    ensures
        pinned_part(s).to_multiset().add(unpinned_part(s).to_multiset()) == s.to_multiset(),
        forall|k: int| 0 <= k < pinned_part(s).len() ==> (#[trigger] pinned_part(s)[k]).pinned,
        forall|k: int| 0 <= k < unpinned_part(s).len() ==> !(#[trigger] unpinned_part(s)[k]).pinned,
    decreases s.len(),
{
    broadcast use vstd::seq_lib::group_to_multiset_ensures;

    if s.len() == 0 {
        lemma_parts_empty();
        assert(s =~= Seq::empty());
        assert(Seq::<SessionView>::empty().to_multiset().add(Seq::<SessionView>::empty().to_multiset())
            =~= Seq::<SessionView>::empty().to_multiset());
    } else {
        lemma_parts(s.drop_last());
        lemma_parts_push(s.drop_last(), s.last());
        assert(s.drop_last().push(s.last()) =~= s);
        assert(pinned_part(s).to_multiset().add(unpinned_part(s).to_multiset()) =~= s.to_multiset());
    }
}

/// Arranging neither drops a session nor makes one up; the pinned sessions come
/// first, and the others follow in the order of their activity.
pub proof fn arranging_puts_pinned_first(s: Seq<SessionView>, names: Seq<Seq<char>>)
    ensures
        arranged(s, names).to_multiset() == s.to_multiset(),
        exists|n: int|
            0 <= n <= arranged(s, names).len() && in_order(arranged(s, names).skip(n)) && forall|k: int|
                0 <= k < arranged(s, names).len() ==> ((#[trigger] arranged(s, names)[k]).pinned <==> k < n),
{
    let (first, left) = drawn(s, names, 0);
    let front = first + pinned_part(left);
    let back = sorted(unpinned_part(left));
    lemma_drawn(s, names, 0);
    lemma_parts(left);
    sorting_orders(unpinned_part(left));
    vstd::seq_lib::lemma_multiset_commutative(first, pinned_part(left));
    vstd::seq_lib::lemma_multiset_commutative(front, back);
    assert((front + back).to_multiset() =~= s.to_multiset());
    assert((front + back).skip(front.len() as int) =~= back);
    assert forall|k: int| 0 <= k < back.len() implies !(#[trigger] back[k]).pinned by {
        broadcast use vstd::seq_lib::group_to_multiset_ensures;

        assert(back.contains(back[k]));
        assert(back.to_multiset().count(back[k]) > 0);
        assert(unpinned_part(left).contains(back[k]));
    }
    let all = arranged(s, names);
    assert forall|k: int| 0 <= k < all.len() implies ((#[trigger] all[k]).pinned <==> k < front.len()) by {
        if k < first.len() {
            assert(all[k] == first[k]);
        } else if k < front.len() {
            assert(all[k] == pinned_part(left)[k - first.len()]);
        } else {
            assert(all[k] == back[k - front.len()]);
        }
    }
}

proof fn lemma_first_pinned(s: Seq<SessionView>, i: int)
    requires
        0 <= i <= s.len(),
        forall|j: int| 0 <= j < i ==> !(#[trigger] s[j]).pinned,
        pinned_part(s).len() > 0,
    ensures
        ({
            let x = pinned_part(s)[0];
            pinned_from(s, x.name, i) matches Some(k) && s[k] == x && pinned_part(s.remove(k)) == pinned_part(
                s,
            ).skip(1) && unpinned_part(s.remove(k)) == unpinned_part(s)
        }),
    decreases s.len() - i,
{
    lemma_split(s, i);
    if i >= s.len() {
        assert(s.take(i) =~= s);
        assert(s.skip(i) =~= Seq::empty());
        lemma_parts_empty();
        lemma_none_pinned(s.take(i));
    } else {
        lemma_none_pinned(s.take(i));
        let tail = s.skip(i + 1);
        assert(s.skip(i) =~= seq![s[i]] + tail);
        lemma_join(seq![s[i]], tail);
        assert(seq![s[i]] =~= Seq::empty().push(s[i]));
        lemma_parts_empty();
        lemma_parts_push(Seq::empty(), s[i]);
        if s[i].pinned {
            assert(pinned_part(s) =~= seq![s[i]] + pinned_part(tail));
            assert(s.remove(i) =~= s.take(i) + tail);
            lemma_join(s.take(i), tail);
            assert(pinned_part(s.remove(i)) =~= pinned_part(s).skip(1));
            assert(unpinned_part(s.remove(i)) =~= unpinned_part(s));
        } else {
            lemma_first_pinned(s, i + 1);
        }
    }
}

pub(crate) proof fn lemma_join(a: Seq<SessionView>, b: Seq<SessionView>)
    ensures
        pinned_part(a + b) == pinned_part(a) + pinned_part(b),
        unpinned_part(a + b) == unpinned_part(a) + unpinned_part(b),
    decreases b.len(),
{
    if b.len() == 0 {
        lemma_parts_empty();
        assert(b =~= Seq::empty());
        assert(a + b =~= a);
        assert(pinned_part(a) + Seq::empty() =~= pinned_part(a));
        assert(unpinned_part(a) + Seq::empty() =~= unpinned_part(a));
    } else {
        let x = b.last();
        lemma_join(a, b.drop_last());
        assert(a + b =~= (a + b.drop_last()).push(x));
        assert(b =~= b.drop_last().push(x));
        lemma_parts_push(a + b.drop_last(), x);
        lemma_parts_push(b.drop_last(), x);
        assert(pinned_part(a + b) =~= pinned_part(a) + pinned_part(b));
        assert(unpinned_part(a + b) =~= unpinned_part(a) + unpinned_part(b));
    }
}

proof fn lemma_split(s: Seq<SessionView>, i: int)
    requires
        0 <= i <= s.len(),
    ensures
        pinned_part(s) == pinned_part(s.take(i)) + pinned_part(s.skip(i)),
        unpinned_part(s) == unpinned_part(s.take(i)) + unpinned_part(s.skip(i)),
{
    lemma_join(s.take(i), s.skip(i));
    assert(s.take(i) + s.skip(i) =~= s);
}

pub(crate) proof fn lemma_none_pinned(s: Seq<SessionView>)
    requires
        forall|j: int| 0 <= j < s.len() ==> !(#[trigger] s[j]).pinned,
    ensures
        pinned_part(s) == Seq::<SessionView>::empty(),
        unpinned_part(s) == s,
    decreases s.len(),
{
    if s.len() == 0 {
        lemma_parts_empty();
        assert(s =~= Seq::empty());
    } else {
        lemma_none_pinned(s.drop_last());
        lemma_parts_push(s.drop_last(), s.last());
        assert(s.drop_last().push(s.last()) =~= s);
    }
}

proof fn lemma_draw_all(s: Seq<SessionView>, names: Seq<Seq<char>>, i: int)
    requires
        0 <= i <= names.len(),
        names.skip(i) == pinned_names(s),
    ensures
        drawn(s, names, i).0 == pinned_part(s),
        pinned_part(drawn(s, names, i).1) == Seq::<SessionView>::empty(),
        unpinned_part(drawn(s, names, i).1) == unpinned_part(s),
    decreases names.len() - i,
{
    assert(names.skip(i).len() == pinned_part(s).len());
    if i < names.len() {
        lemma_first_pinned(s, 0);
        assert(names.skip(i)[0] == names[i]);
        let k = pinned_from(s, names[i], 0)->0;
        assert(names.skip(i + 1) =~= names.skip(i).skip(1));
        assert(pinned_names(s.remove(k)) =~= pinned_names(s).skip(1));
        lemma_draw_all(s.remove(k), names, i + 1);
        assert(seq![s[k]] + pinned_part(s).skip(1) =~= pinned_part(s));
    } else {
        assert(pinned_part(s) =~= Seq::empty());
    }
}

/// Arranged by the names of its own pinned sessions, a list keeps the order of
/// these; arranged so once more it does not change.
pub proof fn arranging_keeps_pin_order(s: Seq<SessionView>)
    ensures
        arranged(s, pinned_names(s)) == pinned_part(s) + sorted(unpinned_part(s)),
        pinned_names(arranged(s, pinned_names(s))) == pinned_names(s),
        arranged(arranged(s, pinned_names(s)), pinned_names(s)) == arranged(s, pinned_names(s)),
{
    let once = pinned_part(s) + sorted(unpinned_part(s));
    let pins = pinned_part(s);
    let others = sorted(unpinned_part(s));
    assert(pinned_names(s).skip(0) =~= pinned_names(s));
    lemma_draw_all(s, pinned_names(s), 0);
    assert(pins + Seq::<SessionView>::empty() =~= pins);
    lemma_parts(s);
    sorting_orders(unpinned_part(s));
    assert forall|k: int| 0 <= k < others.len() implies !(#[trigger] others[k]).pinned by {
        broadcast use vstd::seq_lib::group_to_multiset_ensures;

        assert(others.contains(others[k]));
        assert(others.to_multiset().count(others[k]) > 0);
        assert(unpinned_part(s).contains(others[k]));
    }
    lemma_none_pinned(others);
    lemma_all_pinned(pins);
    lemma_join(pins, others);
    assert(pinned_part(once) =~= pins);
    assert(unpinned_part(once) =~= others);
    lemma_draw_all(once, pinned_names(s), 0);
    sorting_keeps_order(others);
}

pub(crate) proof fn lemma_all_pinned(s: Seq<SessionView>)
    requires
        forall|j: int| 0 <= j < s.len() ==> (#[trigger] s[j]).pinned,
    ensures
        pinned_part(s) == s,
        unpinned_part(s) == Seq::<SessionView>::empty(),
    decreases s.len(),
{
    if s.len() == 0 {
        lemma_parts_empty();
        assert(s =~= Seq::empty());
    } else {
        lemma_all_pinned(s.drop_last());
        lemma_parts_push(s.drop_last(), s.last());
        assert(s.drop_last().push(s.last()) =~= s);
    }
}

/// Whether a name can stand on a line of its own: it is not empty, and neither
/// breaks the line nor ends in what belongs to the end of a line.
pub open spec fn fits_line(name: Seq<char>) -> bool {
    name.len() > 0 && !name.contains('\n') && name.last() != '\r'
}

pub(crate) proof fn lemma_find_skips(s: Seq<char>, c: char, i: int, k: int)
    requires
        0 <= i <= k < s.len(),
        s[k] == c,
        forall|j: int| i <= j < k ==> s[j] != c,
    ensures
        text::find_from(s, c, i) == k,
    decreases k - i,
{
    if i < k {
        lemma_find_skips(s, c, i + 1, k);
    }
}

pub(crate) proof fn lemma_name_lines(names: Seq<Seq<char>>, i: int, s: Seq<char>, from: int)
    requires
        0 <= i <= names.len(),
        0 <= from <= s.len(),
        s.skip(from) == name_lines(names, i),
        forall|j: int| 0 <= j < names.len() ==> fits_line(#[trigger] names[j]),
    ensures
        text::lines_from(s, from) == names.skip(i),
    decreases names.len() - i,
{
    reveal_strlit("\n");
    if i >= names.len() {
        assert(s.skip(from).len() == 0);
        assert(names.skip(i) =~= Seq::empty());
    } else {
        let name = names[i];
        let rest = name_lines(names, i + 1);
        let k = from + name.len();
        assert(fits_line(name));
        assert(s.skip(from).len() == name.len() + 1 + rest.len());
        assert(s[k] == s.skip(from)[name.len() as int]);
        assert(s[k] == '\n');
        assert forall|j: int| from <= j < k implies s[j] != '\n' by {
            assert(s[j] == s.skip(from)[j - from]);
            assert(s[j] == name[j - from]);
            assert(name.contains(name[j - from]));
        }
        lemma_find_skips(s, '\n', from, k);
        assert(s.subrange(from, k) =~= name) by {
            assert forall|j: int| 0 <= j < name.len() implies s.subrange(from, k)[j] == name[j] by {
                assert(s[from + j] == s.skip(from)[j]);
            }
        }
        assert(s.skip(k + 1) =~= rest) by {
            assert forall|j: int| 0 <= j < rest.len() implies s.skip(k + 1)[j] == rest[j] by {
                assert(s[k + 1 + j] == s.skip(from)[name.len() + 1 + j]);
            }
        }
        lemma_name_lines(names, i + 1, s, k + 1);
        assert(seq![name] + names.skip(i + 1) =~= names.skip(i));
    }
}

proof fn lemma_filter_keeps(s: Seq<Seq<char>>)
    requires
        forall|j: int| 0 <= j < s.len() ==> (#[trigger] s[j]).len() > 0,
    ensures
        s.filter(|line: Seq<char>| line.len() > 0) == s,
    decreases s.len(),
{
    reveal_with_fuel(Seq::filter, 1);
    if s.len() > 0 {
        lemma_filter_keeps(s.drop_last());
        assert(s.drop_last().push(s.last()) =~= s);
    } else {
        assert(s =~= Seq::empty());
    }
}

/// A pin file gives back the names that were written to it, if none repeats and each fits a line.
pub proof fn pin_file_round_trip(names: Seq<Seq<char>>)
    requires
        names.no_duplicates(),
        forall|j: int| 0 <= j < names.len() ==> fits_line(#[trigger] names[j]),
    ensures
        pin_file_names(pin_file_text(names)) == names,
{
    reveal_strlit("\n");
    let contents = pin_file_text(names);
    if names.len() == 0 {
        assert(contents =~= seq!['\n']);
        reveal_with_fuel(text::lines_from, 2);
        lemma_find_skips(contents, '\n', 0, 0);
        let lines = text::lines_from(contents, 0);
        assert(contents.subrange(0, 0).len() == 0);
        assert(lines =~= seq![contents.subrange(0, 0)]);
        reveal_with_fuel(Seq::filter, 2);
        assert(lines.drop_last() =~= Seq::empty());
        assert(lines.filter(|line: Seq<char>| line.len() > 0) =~= Seq::empty());
        assert(names =~= Seq::empty());
    } else {
        assert(contents.skip(0) =~= contents);
        lemma_name_lines(names, 0, contents, 0);
        assert(names.skip(0) =~= names);
        lemma_filter_keeps(names);
        names::lemma_fresh_keeps(names, Set::empty());
    }
}

/// Whether sessions stand as they are listed: no pinned one behind one that is
/// not, and of those that are not, none that has to stand before one further in front.
pub open spec fn is_arranged(s: Seq<SessionView>) -> bool {
    forall|i: int, j: int|
        #![trigger s[i], s[j]]
        0 <= i < j < s.len() ==> (s[j].pinned ==> s[i].pinned) && (!s[i].pinned ==> !before(s[j], s[i]))
}

/// Arranging always leaves the sessions as they are listed, whatever the names.
pub proof fn arranging_arranges(s: Seq<SessionView>, names: Seq<Seq<char>>)
    ensures
        is_arranged(arranged(s, names)),
{
    arranging_puts_pinned_first(s, names);
    let all = arranged(s, names);
    let n = choose|n: int|
        0 <= n <= all.len() && in_order(all.skip(n)) && forall|k: int|
            0 <= k < all.len() ==> ((#[trigger] all[k]).pinned <==> k < n);
    let back = all.skip(n);
    assert forall|i: int, j: int|
        #![trigger all[i], all[j]]
        0 <= i < j < all.len() implies (all[j].pinned ==> all[i].pinned) && (!all[i].pinned ==> !before(
        all[j],
        all[i],
    )) by {
        if i >= n {
            assert(back[i - n] == all[i] && back[j - n] == all[j]);
            assert(!before(back[j - n], back[i - n]));
        }
    }
}

pub(crate) proof fn lemma_arranged_end(s: Seq<SessionView>, i: int) -> (n: int)
    requires
        is_arranged(s),
        0 <= i <= s.len(),
        forall|k: int| 0 <= k < i ==> (#[trigger] s[k]).pinned,
    ensures
        i <= n <= s.len(),
        forall|k: int| 0 <= k < s.len() ==> ((#[trigger] s[k]).pinned <==> k < n),
    decreases s.len() - i,
{
    if i < s.len() && s[i].pinned {
        lemma_arranged_end(s, i + 1)
    } else {
        i
    }
}

/// Sessions that stand as they are listed do not change when they are arranged by their own pins.
pub proof fn arranged_sessions_stay(s: Seq<SessionView>)
    requires
        is_arranged(s),
    ensures
        arranged(s, pinned_names(s)) == s,
{
    let n = lemma_arranged_end(s, 0);
    let front = s.take(n);
    let back = s.skip(n);
    assert forall|k: int| 0 <= k < front.len() implies (#[trigger] front[k]).pinned by {
        assert(front[k] == s[k]);
    }
    assert forall|k: int| 0 <= k < back.len() implies !(#[trigger] back[k]).pinned by {
        assert(back[k] == s[n + k]);
    }
    assert(in_order(back)) by {
        assert forall|i: int, j: int| 0 <= i < j < back.len() implies !before(#[trigger] back[j], #[trigger] back[i]) by {
            assert(back[i] == s[n + i] && back[j] == s[n + j]);
        }
    }
    lemma_arranged_parts(front, back);
    assert(front + back =~= s);
}

proof fn lemma_arranged_parts(front: Seq<SessionView>, back: Seq<SessionView>)
    requires
        forall|k: int| 0 <= k < front.len() ==> (#[trigger] front[k]).pinned,
        forall|k: int| 0 <= k < back.len() ==> !(#[trigger] back[k]).pinned,
        in_order(back),
    ensures
        arranged(front + back, pinned_names(front + back)) == front + back,
{
    lemma_all_pinned(front);
    lemma_none_pinned(back);
    lemma_join(front, back);
    assert(front + Seq::<SessionView>::empty() =~= front);
    assert(Seq::<SessionView>::empty() + back =~= back);
    sorting_keeps_order(back);
    arranging_keeps_pin_order(front + back);
}

/// Exchanging two pinned sessions leaves the sessions as they are listed.
pub proof fn exchanging_pinned_keeps_order(s: Seq<SessionView>, i: int, k: int)
    requires
        is_arranged(s),
        0 <= i < s.len(),
        0 <= k < s.len(),
        s[i].pinned,
        s[k].pinned,
    ensures
        is_arranged(crate::lists::exchanged(s, i, k)),
{
    let t = crate::lists::exchanged(s, i, k);
    assert forall|a: int, b: int|
        #![trigger t[a], t[b]]
        0 <= a < b < t.len() implies (t[b].pinned ==> t[a].pinned) && (!t[a].pinned ==> !before(t[b], t[a])) by {
        assert(t[a].pinned == s[a].pinned && t[b].pinned == s[b].pinned);
        assert((s[b].pinned ==> s[a].pinned) && (!s[a].pinned ==> !before(s[b], s[a])));
        if !t[a].pinned {
            assert(t[a] == s[a] && t[b] == s[b]);
        }
    }
}

/// Sessions that stand as they are listed stand so again after their pins were
/// written to the pin file, read from it, and used to arrange them.
pub proof fn saved_pins_restore_order(s: Seq<SessionView>)
    requires
        is_arranged(s),
        pinned_names(s).no_duplicates(),
        forall|j: int| 0 <= j < pinned_names(s).len() ==> fits_line(#[trigger] pinned_names(s)[j]),
    ensures
        arranged(s, pin_file_names(pin_file_text(pinned_names(s)))) == s,
{
    pin_file_round_trip(pinned_names(s));
    arranged_sessions_stay(s);
}

/// Sessions that were loaded stand as they are listed.
pub proof fn loaded_sessions_are_arranged(raw: Seq<char>, current: Seq<char>, pinned: Seq<Seq<char>>)
    ensures
        listed(raw, current, pinned) matches Ok(s) ==> is_arranged(s) && s.len() > 0,
{
    if let Ok(s) = parsed(raw, text::trimmed(current), pinned) {
        arranging_arranges(s, pinned);
        arranging_puts_pinned_first(s, pinned);
        broadcast use vstd::seq_lib::group_to_multiset_ensures;

        assert(arranged(s, pinned).to_multiset().len() == s.to_multiset().len());
    }
}

} // verus!
