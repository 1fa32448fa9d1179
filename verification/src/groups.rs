//! Named, collapsible groups of sessions.

use vstd::prelude::*;
use vstd::string::*;

use crate::lists;
use crate::names;
use crate::text;

verus! {

/// The name under which sessions without a group are listed.
pub const UNGROUPED_NAME: &'static str = "Ungrouped";

/// A group: its name, whether it is collapsed, and its sessions by name.
#[derive(Debug, Eq, PartialEq)]
pub struct Group {
    pub name: String,
    pub collapsed: bool,
    pub sessions: Vec<String>,
}

/// All groups, in their order on the screen, with the version of their file format.
#[derive(Debug, Eq, PartialEq)]
pub struct GroupState {
    pub version: u8,
    pub groups: Vec<Group>,
}

#[verifier::ext_equal]
pub struct GroupView {
    pub name: Seq<char>,
    pub collapsed: bool,
    pub sessions: Seq<Seq<char>>,
}

#[verifier::ext_equal]
pub struct StateView {
    pub version: u8,
    pub groups: Seq<GroupView>,
}

impl View for Group {
    type V = GroupView;

    open spec fn view(&self) -> GroupView {
        GroupView { name: self.name@, collapsed: self.collapsed, sessions: text::views(self.sessions@) }
    }
}

impl View for GroupState {
    type V = StateView;

    open spec fn view(&self) -> StateView {
        StateView { version: self.version, groups: group_views(self.groups@) }
    }
}

impl Clone for Group {
    fn clone(&self) -> (r: Group)
        ensures
            r@ == self@,
    {
        Group { name: self.name.clone(), collapsed: self.collapsed, sessions: names::copy(&self.sessions) }
    }
}

impl Clone for GroupState {
    fn clone(&self) -> (r: GroupState)
        ensures
            r@ == self@,
    {
        let mut groups: Vec<Group> = Vec::new();
        let mut i: usize = 0;
        while i < self.groups.len()
            invariant
                i <= self.groups.len(),
                groups.len() == i,
                forall|j: int| 0 <= j < i ==> (#[trigger] groups@[j])@ == self.groups@[j]@,
            decreases self.groups.len() - i,
        {
            groups.push(self.groups[i].clone());
            i += 1;
        }
        let r = GroupState { version: self.version, groups };
        assert(r@.groups =~= self@.groups);
        r
    }
}

pub open spec fn group_views(groups: Seq<Group>) -> Seq<GroupView> {
    groups.map_values(|g: Group| g@)
}

/// The version of the file format that is read and written.
pub const CURRENT_VERSION: u8 = 1;

/// The first group at or after `i` that lists the session `name`.
pub open spec fn group_from(groups: Seq<GroupView>, name: Seq<char>, i: int) -> Option<int>
    decreases groups.len() - i,
{
    if i >= groups.len() {
        None
    } else if groups[i].sessions.contains(name) {
        Some(i)
    } else {
        group_from(groups, name, i + 1)
    }
}

/// The group of the session `name`: the first that lists it.
pub open spec fn group_of(groups: Seq<GroupView>, name: Seq<char>) -> Option<int> {
    group_from(groups, name, 0)
}

/// What `group_from` finds: the first group that lists the session.
pub proof fn lemma_group_from(groups: Seq<GroupView>, name: Seq<char>, i: int)
    requires
        0 <= i <= groups.len(),
    ensures
        match group_from(groups, name, i) {
            Some(g) => i <= g < groups.len() && groups[g].sessions.contains(name) && forall|j: int|
                i <= j < g ==> !(#[trigger] groups[j]).sessions.contains(name),
            None => forall|j: int| i <= j < groups.len() ==> !(#[trigger] groups[j]).sessions.contains(name),
        },
    decreases groups.len() - i,
{
    if i < groups.len() && !groups[i].sessions.contains(name) {
        lemma_group_from(groups, name, i + 1);
    }
}

/// `sessions` without `name`.
pub open spec fn without(sessions: Seq<Seq<char>>, name: Seq<char>) -> Seq<Seq<char>> {
    sessions.filter(|n: Seq<char>| n != name)
}

proof fn lemma_without_push(sessions: Seq<Seq<char>>, last: Seq<char>, name: Seq<char>)
    ensures
        without(sessions.push(last), name) == (if last != name {
            without(sessions, name).push(last)
        } else {
            without(sessions, name)
        }),
{
    reveal_with_fuel(Seq::filter, 1);
    assert(sessions.push(last).drop_last() =~= sessions);
}

/// The groups after the session `name` has left all of them and joined `target`.
pub open spec fn with_session_moved(groups: Seq<GroupView>, name: Seq<char>, target: Option<int>) -> Seq<GroupView> {
    Seq::new(
        groups.len(),
        |i: int|
            GroupView {
                sessions: if target == Some(i) {
                    without(groups[i].sessions, name).push(name)
                } else {
                    without(groups[i].sessions, name)
                },
                ..groups[i]
            },
    )
}

/// Whether a group other than `except` has `name`, but for the case of ASCII letters.
pub open spec fn name_taken(groups: Seq<GroupView>, name: Seq<char>, except: Option<int>) -> bool {
    exists|i: int|
        0 <= i < groups.len() && except != Some(i) && text::ascii_folded((#[trigger] groups[i]).name)
            == text::ascii_folded(name)
}

/// The name that a group gets from what was typed, or why it is refused.
pub open spec fn checked_name(groups: Seq<GroupView>, typed: Seq<char>, except: Option<int>) -> Result<
    Seq<char>,
    Seq<char>,
> {
    let name = text::trimmed(typed);
    if name.len() == 0 {
        Err("group name cannot be empty"@)
    } else if text::ascii_folded(name) == text::ascii_folded(UNGROUPED_NAME@) {
        Err(UNGROUPED_NAME@ + " is reserved"@)
    } else if name_taken(groups, name, except) {
        Err("group already exists: "@ + name)
    } else {
        Ok(name)
    }
}

/// The name that a group gets from `typed`, or why it is refused.
fn valid_name(typed: &str, groups: &Vec<Group>, except: Option<usize>) -> (r: Result<String, String>)
    ensures
        match checked_name(group_views(groups@), typed@, index_view(except)) {
            Ok(name) => r matches Ok(n) && n@ == name,
            Err(why) => r matches Err(e) && e@ == why,
        },
{
    let name = text::trim(typed);
    if name.as_str().is_empty() {
        return Err("group name cannot be empty".to_owned());
    }
    if text::same_ignoring_ascii_case(&name, UNGROUPED_NAME) {
        let mut why = UNGROUPED_NAME.to_owned();
        why.append(" is reserved");
        return Err(why);
    }
    let ghost all = group_views(groups@);
    let mut i: usize = 0;
    while i < groups.len()
        invariant
            i <= groups.len(),
            all == group_views(groups@),
            name@ == text::trimmed(typed@),
            name@.len() > 0,
            text::ascii_folded(name@) != text::ascii_folded(UNGROUPED_NAME@),
            forall|j: int| 0 <= j < i ==> except == Some(j as usize) || text::ascii_folded((#[trigger] all[j]).name)
                != text::ascii_folded(name@),
        decreases groups.len() - i,
    {
        if except != Some(i) && text::same_ignoring_ascii_case(&groups[i].name, &name) {
            assert(all[i as int].name == groups@[i as int].name@);
            let mut why = "group already exists: ".to_owned();
            why.append(&name);
            return Err(why);
        }
        i += 1;
    }
    Ok(name)
}

pub open spec fn index_view(i: Option<usize>) -> Option<int> {
    match i {
        Some(k) => Some(k as int),
        None => None,
    }
}

impl Default for GroupState {
    fn default() -> (r: GroupState)
        ensures
            r@ == no_groups(),
    {
        let r = GroupState { version: CURRENT_VERSION, groups: Vec::new() };
        assert(r@.groups =~= Seq::empty());
        r
    }
}

/// The state without any group.
pub open spec fn no_groups() -> StateView {
    StateView { version: CURRENT_VERSION, groups: Seq::empty() }
}

impl GroupState {
    /// Adds a group at the end, and returns its index.
    pub fn add_group(&mut self, name: &str) -> (r: Result<usize, String>)
        ensures
            match checked_name(old(self)@.groups, name@, None) {
                Ok(clean) => {
                    &&& r matches Ok(i) && i == old(self)@.groups.len()
                    &&& final(self)@ == (StateView {
                        groups: old(self)@.groups.push(
                            GroupView { name: clean, collapsed: false, sessions: Seq::empty() },
                        ),
                        ..old(self)@
                    })
                },
                Err(why) => {
                    &&& r matches Err(e) && e@ == why
                    &&& final(self)@ == old(self)@
                },
            },
    {
        match valid_name(name, &self.groups, None) {
            Err(why) => Err(why),
            Ok(clean) => {
                let index: usize = self.groups.len();
                let group = Group { name: clean, collapsed: false, sessions: Vec::new() };
                assert(group@.sessions =~= Seq::empty());
                self.groups.push(group);
                assert(self@.groups =~= old(self)@.groups.push(group@));
                Ok(index)
            },
        }
    }

    /// Gives the group at `index` another name.
    pub fn rename_group(&mut self, index: usize, name: &str) -> (r: Result<(), String>)
        ensures
            if index >= old(self)@.groups.len() {
                &&& r matches Err(e) && e@ == "group does not exist"@
                &&& final(self)@ == old(self)@
            } else {
                match checked_name(old(self)@.groups, name@, Some(index as int)) {
                    Ok(clean) => {
                        &&& r is Ok
                        &&& final(self)@ == (StateView {
                            groups: old(self)@.groups.update(
                                index as int,
                                GroupView { name: clean, ..old(self)@.groups[index as int] },
                            ),
                            ..old(self)@
                        })
                    },
                    Err(why) => {
                        &&& r matches Err(e) && e@ == why
                        &&& final(self)@ == old(self)@
                    },
                }
            },
    {
        if index >= self.groups.len() {
            return Err("group does not exist".to_owned());
        }
        match valid_name(name, &self.groups, Some(index)) {
            Err(why) => Err(why),
            Ok(clean) => {
                self.groups[index].name = clean;
                assert(self@.groups =~= old(self)@.groups.update(
                    index as int,
                    GroupView { name: clean@, ..old(self)@.groups[index as int] },
                ));
                Ok(())
            },
        }
    }

    /// Removes the group at `index`; its sessions are then in no group.
    pub fn delete_group(&mut self, index: usize) -> (r: Result<(), String>)
        ensures
            if index >= old(self)@.groups.len() {
                &&& r matches Err(e) && e@ == "group does not exist"@
                &&& final(self)@ == old(self)@
            } else {
                &&& r is Ok
                &&& final(self)@ == (StateView { groups: old(self)@.groups.remove(index as int), ..old(self)@ })
            },
    {
        if index >= self.groups.len() {
            return Err("group does not exist".to_owned());
        }
        let _ = self.groups.remove(index);
        assert(self@.groups =~= old(self)@.groups.remove(index as int));
        Ok(())
    }

    /// Exchanges the group at `index` with the one `offset` places further, and returns where it is then.
    pub fn move_group(&mut self, index: usize, offset: isize) -> (r: Option<usize>)
        ensures
            if index < old(self)@.groups.len() && 0 <= index + offset < old(self)@.groups.len() {
                &&& r matches Some(t) && t == index + offset
                &&& final(self)@ == (StateView {
                    groups: lists::exchanged(old(self)@.groups, index as int, index + offset),
                    ..old(self)@
                })
            } else {
                &&& r is None
                &&& final(self)@ == old(self)@
            },
    {
        let count: usize = self.groups.len();
        let target: usize = match index.checked_add_signed(offset) {
            Some(t) => t,
            None => {
                return None;
            },
        };
        if index >= count || target >= count {
            return None;
        }
        lists::exchange(&mut self.groups, index, target);
        assert(self@.groups =~= lists::exchanged(old(self)@.groups, index as int, index + offset));
        Some(target)
    }

    /// Takes the session out of every group, and puts it at the end of the group at `group_index`, if there is one.
    pub fn move_session(&mut self, session_name: &str, group_index: Option<usize>)
        ensures
            final(self)@ == (StateView {
                groups: with_session_moved(old(self)@.groups, session_name@, index_view(group_index)),
                ..old(self)@
            }),
    {
        let mut i: usize = 0;
        while i < self.groups.len()
            invariant
                i <= self.groups.len(),
                self.version == old(self).version,
                self.groups.len() == old(self).groups.len(),
                forall|j: int| 0 <= j < i ==> (#[trigger] self.groups@[j])@ == with_session_moved(
                    old(self)@.groups,
                    session_name@,
                    index_view(group_index),
                )[j],
                forall|j: int| i <= j < self.groups.len() ==> #[trigger] self.groups@[j] == old(self).groups@[j],
            decreases self.groups.len() - i,
        {
            let mut kept = all_but(&self.groups[i].sessions, session_name);
            if group_index == Some(i) {
                kept.push(session_name.to_owned());
                assert(text::views(kept@) =~= without(old(self)@.groups[i as int].sessions, session_name@).push(
                    session_name@,
                ));
            }
            self.groups[i].sessions = kept;
            i += 1;
        }
        assert(self@.groups =~= with_session_moved(old(self)@.groups, session_name@, index_view(group_index)));
    }

    /// The group of a session: the first that lists it.
    pub fn group_for_session(&self, session_name: &str) -> (r: Option<usize>)
        ensures
            index_view(r) == group_of(self@.groups, session_name@),
            r matches Some(g) ==> g < self.groups.len(),
    {
        let mut i: usize = 0;
        while i < self.groups.len()
            invariant
                i <= self.groups.len(),
                group_of(self@.groups, session_name@) == group_from(self@.groups, session_name@, i as int),
            decreases self.groups.len() - i,
        {
            if names::contains(&self.groups[i].sessions, session_name) {
                return Some(i);
            }
            i += 1;
        }
        None
    }
}

/// The names in `sessions` that are not `name`, in their order.
fn all_but(sessions: &Vec<String>, name: &str) -> (r: Vec<String>)
    ensures
        text::views(r@) == without(text::views(sessions@), name@),
{
    let unwanted = name.to_owned();
    let ghost all = text::views(sessions@);
    let mut out: Vec<String> = Vec::new();
    let mut i: usize = 0;
    assert(all.take(0) =~= Seq::empty());
    assert(text::views(out@) =~= without(all.take(0), name@)) by {
        reveal_with_fuel(Seq::filter, 1);
    }
    while i < sessions.len()
        invariant
            i <= sessions.len(),
            unwanted@ == name@,
            all == text::views(sessions@),
            text::views(out@) == without(all.take(i as int), name@),
        decreases sessions.len() - i,
    {
        proof {
            assert(all.take(i + 1) =~= all.take(i as int).push(all[i as int]));
            lemma_without_push(all.take(i as int), all[i as int], name@);
        }
        if sessions[i] != unwanted {
            let ghost before = text::views(out@);
            out.push(sessions[i].clone());
            assert(text::views(out@) =~= before.push(all[i as int]));
        }
        i += 1;
    }
    assert(all.take(i as int) =~= all);
    out
}

/// Whether the groups' names are as they are typed at best: trimmed, not empty,
/// not reserved, and no two the same but for the case of ASCII letters.
pub open spec fn names_are_sound(groups: Seq<GroupView>) -> bool {
    &&& forall|i: int|
        0 <= i < groups.len() ==> (#[trigger] groups[i]).name.len() > 0 && text::trimmed(groups[i].name)
            == groups[i].name && text::ascii_folded(groups[i].name) != text::ascii_folded(UNGROUPED_NAME@)
    &&& forall|i: int, j: int|
        0 <= i < j < groups.len() ==> text::ascii_folded((#[trigger] groups[i]).name) != text::ascii_folded(
            (#[trigger] groups[j]).name,
        )
}

/// Whether no session is listed twice, neither in one group nor in two.
pub open spec fn members_are_sound(groups: Seq<GroupView>) -> bool {
    &&& forall|i: int| 0 <= i < groups.len() ==> (#[trigger] groups[i]).sessions.no_duplicates()
    &&& forall|i: int, j: int, name: Seq<char>|
        0 <= i < groups.len() && 0 <= j < groups.len() && #[trigger] groups[i].sessions.contains(name)
            && #[trigger] groups[j].sessions.contains(name) ==> i == j
}

pub(crate) proof fn lemma_without(sessions: Seq<Seq<char>>, name: Seq<char>)
    ensures
        forall|n: Seq<char>| #[trigger] without(sessions, name).contains(n) <==> sessions.contains(n) && n != name,
        sessions.no_duplicates() ==> without(sessions, name).no_duplicates(),
    decreases sessions.len(),
{
    let kept = without(sessions, name);
    if sessions.len() == 0 {
        assert(kept =~= Seq::empty()) by {
            reveal_with_fuel(Seq::filter, 1);
        }
    } else {
        let front = sessions.drop_last();
        let last = sessions.last();
        assert(front.push(last) =~= sessions);
        lemma_without(front, name);
        lemma_without_push(front, last, name);
        let before = without(front, name);
        assert forall|n: Seq<char>| #[trigger] kept.contains(n) <==> sessions.contains(n) && n != name by {
            if kept.contains(n) {
                let k = kept.index_of(n);
                if k < before.len() {
                    assert(before[k] == n);
                    assert(before.contains(n));
                    let j = front.index_of(n);
                    assert(sessions[j] == n);
                } else {
                    assert(sessions[sessions.len() - 1] == n);
                }
            }
            if sessions.contains(n) && n != name {
                let j = sessions.index_of(n);
                if j < front.len() {
                    assert(front[j] == n);
                    assert(front.contains(n));
                    assert(before.contains(n));
                    let k = before.index_of(n);
                    assert(kept[k] == n);
                } else {
                    assert(kept[before.len() as int] == n);
                }
            }
        }
        if sessions.no_duplicates() {
            assert(front.no_duplicates());
            if last != name {
                assert forall|a: int, b: int| 0 <= a < b < kept.len() implies kept[a] != kept[b] by {
                    assert(kept[a] == before[a]);
                    assert(before.contains(before[a]));
                    if b < before.len() {
                        assert(kept[b] == before[b]);
                    } else {
                        let j = front.index_of(before[a]);
                        assert(sessions[j] == before[a]);
                        assert(sessions[sessions.len() - 1] == last);
                    }
                }
            }
        }
    }
}

/// After a session was moved it is in the group that it was moved to, or in none;
/// every other session is where it was, and no group changes its name or closes.
pub proof fn moved_session_is_there(groups: Seq<GroupView>, name: Seq<char>, target: Option<int>, other: Seq<char>)
    requires
        target matches Some(t) ==> 0 <= t < groups.len(),
        other != name,
    ensures
        ({
            let moved = with_session_moved(groups, name, target);
            &&& group_of(moved, name) == target
            &&& group_of(moved, other) == group_of(groups, other)
            &&& moved.len() == groups.len()
            &&& forall|i: int|
                0 <= i < groups.len() ==> (#[trigger] moved[i]).name == groups[i].name && moved[i].collapsed
                    == groups[i].collapsed
        }),
{
    let moved = with_session_moved(groups, name, target);
    assert forall|i: int, n: Seq<char>| 0 <= i < groups.len() implies #[trigger] moved[i].sessions.contains(n) == (if n
        == name {
        target == Some(i)
    } else {
        groups[i].sessions.contains(n)
    }) by {
        lemma_without(groups[i].sessions, name);
        let kept = without(groups[i].sessions, name);
        if target == Some(i) {
            let more = kept.push(name);
            assert(more[kept.len() as int] == name);
            if kept.contains(n) {
                let k = kept.index_of(n);
                assert(more[k] == n);
            }
            if more.contains(n) && n != name {
                let k = more.index_of(n);
                assert(kept[k] == n);
            }
        }
    }
    lemma_group_from(moved, name, 0);
    lemma_group_from(moved, other, 0);
    lemma_group_from(groups, other, 0);
    match target {
        Some(t) => {
            assert(moved[t].sessions.contains(name));
        },
        None => {},
    }
    if let Some(g) = group_of(moved, name) {
        assert(moved[g].sessions.contains(name));
    }
    if let Some(g) = group_of(moved, other) {
        assert(moved[g].sessions.contains(other));
    }
    if let Some(g) = group_of(groups, other) {
        assert(moved[g].sessions.contains(other));
    }
}

/// Moving a session leaves no session listed twice where none was, and keeps sound names.
pub proof fn moving_keeps_groups_sound(groups: Seq<GroupView>, name: Seq<char>, target: Option<int>)
    requires
        names_are_sound(groups),
        members_are_sound(groups),
    ensures
        names_are_sound(with_session_moved(groups, name, target)),
        members_are_sound(with_session_moved(groups, name, target)),
{
    let moved = with_session_moved(groups, name, target);
    assert forall|i: int| 0 <= i < moved.len() implies (#[trigger] moved[i]).sessions.no_duplicates() by {
        lemma_without(groups[i].sessions, name);
        assert(groups[i].sessions.no_duplicates());
        let kept = without(groups[i].sessions, name);
        if target == Some(i) {
            assert forall|a: int, b: int| 0 <= a < b < moved[i].sessions.len() implies moved[i].sessions[a]
                != moved[i].sessions[b] by {
                assert(kept.contains(kept[a]));
            }
        }
    }
    assert forall|i: int, j: int, n: Seq<char>|
        0 <= i < moved.len() && 0 <= j < moved.len() && #[trigger] moved[i].sessions.contains(n)
            && #[trigger] moved[j].sessions.contains(n) implies i == j by {
        lemma_moved_member(groups, name, target, i, n);
        lemma_moved_member(groups, name, target, j, n);
    }
    assert forall|i: int| 0 <= i < moved.len() implies (#[trigger] moved[i]).name.len() > 0 && text::trimmed(
        moved[i].name,
    ) == moved[i].name && text::ascii_folded(moved[i].name) != text::ascii_folded(UNGROUPED_NAME@) by {
        assert(groups[i].name.len() > 0);
    }
    assert forall|i: int, j: int| 0 <= i < j < moved.len() implies text::ascii_folded((#[trigger] moved[i]).name)
        != text::ascii_folded((#[trigger] moved[j]).name) by {
        assert(text::ascii_folded(groups[i].name) != text::ascii_folded(groups[j].name));
    }
}

proof fn lemma_moved_member(groups: Seq<GroupView>, name: Seq<char>, target: Option<int>, i: int, n: Seq<char>)
    requires
        0 <= i < groups.len(),
        with_session_moved(groups, name, target)[i].sessions.contains(n),
    ensures
        if n == name {
            target == Some(i)
        } else {
            groups[i].sessions.contains(n)
        },
{
    lemma_without(groups[i].sessions, name);
    let kept = without(groups[i].sessions, name);
    let list = with_session_moved(groups, name, target)[i].sessions;
    let k = list.index_of(n);
    if k < kept.len() {
        assert(kept[k] == n);
        assert(kept.contains(n));
    }
}

/// A group with an accepted name, added or renamed, leaves the names sound, and no session listed twice.
pub proof fn naming_keeps_groups_sound(groups: Seq<GroupView>, typed: Seq<char>, except: Option<int>)
    requires
        names_are_sound(groups),
        members_are_sound(groups),
        except matches Some(i) ==> 0 <= i < groups.len(),
        checked_name(groups, typed, except) is Ok,
    ensures
        ({
            let name = checked_name(groups, typed, except)->Ok_0;
            let named = match except {
                Some(i) => groups.update(i, GroupView { name, ..groups[i] }),
                None => groups.push(GroupView { name, collapsed: false, sessions: Seq::empty() }),
            };
            names_are_sound(named) && members_are_sound(named)
        }),
{
    text::trimming_is_done_once(typed);
    let name = checked_name(groups, typed, except)->Ok_0;
    let named = match except {
        Some(i) => groups.update(i, GroupView { name, ..groups[i] }),
        None => groups.push(GroupView { name, collapsed: false, sessions: Seq::empty() }),
    };
    let at = match except {
        Some(i) => i,
        None => groups.len() as int,
    };
    assert forall|i: int| 0 <= i < named.len() && i != at implies #[trigger] named[i] == groups[i] && text::ascii_folded(
        groups[i].name,
    ) != text::ascii_folded(name) by {}
    assert(named[at].name == name);
    assert forall|i: int, j: int| 0 <= i < j < named.len() implies text::ascii_folded((#[trigger] named[i]).name)
        != text::ascii_folded((#[trigger] named[j]).name) by {
        if i != at && j != at {
            assert(text::ascii_folded(groups[i].name) != text::ascii_folded(groups[j].name));
        }
    }
    assert forall|i: int, n: Seq<char>| 0 <= i < named.len() && #[trigger] named[i].sessions.contains(n) implies i
        < groups.len() && groups[i].sessions.contains(n) by {
        if i != at {
            assert(named[i] == groups[i]);
        }
    }
}

/// Deleting a group leaves its sessions in no group, and every other session in
/// the group that it was in, where no session is listed twice.
pub proof fn deleting_ungroups(groups: Seq<GroupView>, index: int, name: Seq<char>)
    requires
        members_are_sound(groups),
        0 <= index < groups.len(),
    ensures
        ({
            let left = groups.remove(index);
            match group_of(groups, name) {
                Some(g) => if g == index {
                    group_of(left, name) is None
                } else {
                    group_of(left, name) matches Some(h) && left[h] == groups[g]
                },
                None => group_of(left, name) is None,
            }
        }),
{
    let left = groups.remove(index);
    lemma_group_from(groups, name, 0);
    lemma_group_from(left, name, 0);
    if let Some(h) = group_of(left, name) {
        let g = if h < index { h } else { h + 1 };
        assert(left[h] == groups[g]);
        assert(groups[g].sessions.contains(name));
    }
    if let Some(g) = group_of(groups, name) {
        assert(groups[g].sessions.contains(name));
        if g != index {
            let h = if g < index { g } else { g - 1 };
            assert(left[h] == groups[g]);
            assert(left[h].sessions.contains(name));
        }
    }
}

/// Deleting a group leaves the groups sound.
pub proof fn deleting_keeps_groups_sound(groups: Seq<GroupView>, index: int)
    requires
        names_are_sound(groups),
        members_are_sound(groups),
        0 <= index < groups.len(),
    ensures
        names_are_sound(groups.remove(index)),
        members_are_sound(groups.remove(index)),
{
    let left = groups.remove(index);
    assert forall|i: int| 0 <= i < left.len() implies #[trigger] left[i] == groups[if i < index { i } else { i + 1 }] by {}
    assert forall|i: int, j: int, n: Seq<char>|
        0 <= i < left.len() && 0 <= j < left.len() && #[trigger] left[i].sessions.contains(n)
            && #[trigger] left[j].sessions.contains(n) implies i == j by {
        let a = if i < index { i } else { i + 1 };
        let b = if j < index { j } else { j + 1 };
        assert(groups[a].sessions.contains(n) && groups[b].sessions.contains(n));
    }
    assert forall|i: int, j: int| 0 <= i < j < left.len() implies text::ascii_folded((#[trigger] left[i]).name)
        != text::ascii_folded((#[trigger] left[j]).name) by {
        let a = if i < index { i } else { i + 1 };
        let b = if j < index { j } else { j + 1 };
        assert(text::ascii_folded(groups[a].name) != text::ascii_folded(groups[b].name));
    }
}

/// Exchanging two groups leaves the groups sound.
pub proof fn exchanging_keeps_groups_sound(groups: Seq<GroupView>, i: int, j: int)
    requires
        names_are_sound(groups),
        members_are_sound(groups),
        0 <= i < groups.len(),
        0 <= j < groups.len(),
    ensures
        names_are_sound(lists::exchanged(groups, i, j)),
        members_are_sound(lists::exchanged(groups, i, j)),
{
    let swapped = lists::exchanged(groups, i, j);
    let from = |k: int|
        if k == i {
            j
        } else if k == j {
            i
        } else {
            k
        };
    assert forall|k: int| 0 <= k < swapped.len() implies #[trigger] swapped[k] == groups[from(k)] by {}
    assert forall|a: int, b: int, n: Seq<char>|
        0 <= a < swapped.len() && 0 <= b < swapped.len() && #[trigger] swapped[a].sessions.contains(n)
            && #[trigger] swapped[b].sessions.contains(n) implies a == b by {
        assert(groups[from(a)].sessions.contains(n) && groups[from(b)].sessions.contains(n));
    }
    assert forall|a: int, b: int| 0 <= a < b < swapped.len() implies text::ascii_folded((#[trigger] swapped[a]).name)
        != text::ascii_folded((#[trigger] swapped[b]).name) by {
        let c = from(a);
        let d = from(b);
        if c < d {
            assert(text::ascii_folded(groups[c].name) != text::ascii_folded(groups[d].name));
        } else {
            assert(text::ascii_folded(groups[d].name) != text::ascii_folded(groups[c].name));
        }
    }
}

/// Opening or closing a group leaves the groups sound.
pub proof fn collapsing_keeps_groups_sound(groups: Seq<GroupView>, index: int, collapsed: bool)
    requires
        names_are_sound(groups),
        members_are_sound(groups),
        0 <= index < groups.len(),
    ensures
        names_are_sound(groups.update(index, GroupView { collapsed, ..groups[index] })),
        members_are_sound(groups.update(index, GroupView { collapsed, ..groups[index] })),
{
    let changed = groups.update(index, GroupView { collapsed, ..groups[index] });
    assert forall|k: int| 0 <= k < changed.len() implies (#[trigger] changed[k]).name == groups[k].name
        && changed[k].sessions == groups[k].sessions by {}
    assert forall|a: int, b: int, n: Seq<char>|
        0 <= a < changed.len() && 0 <= b < changed.len() && #[trigger] changed[a].sessions.contains(n)
            && #[trigger] changed[b].sessions.contains(n) implies a == b by {
        assert(groups[a].sessions.contains(n) && groups[b].sessions.contains(n));
    }
    assert forall|a: int, b: int| 0 <= a < b < changed.len() implies text::ascii_folded((#[trigger] changed[a]).name)
        != text::ascii_folded((#[trigger] changed[b]).name) by {
        assert(text::ascii_folded(groups[a].name) != text::ascii_folded(groups[b].name));
    }
}

} // verus!
