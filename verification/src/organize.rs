//! Actions on sessions and groups: reordering, pinning, killing, moving, collapsing and deleting.

use vstd::prelude::*;
use vstd::string::*;

use crate::effects;
use crate::effects::{Effect, EffectView};
use crate::groups;
use crate::groups::{GroupView, StateView, UNGROUPED_NAME};
use crate::lists;
use crate::marks;
use crate::names;
use crate::navigation;
use crate::picker::{App, Model};
use crate::pins;
use crate::prompts::{Prompt, PromptView};
use crate::rows::VisibleRow;
use crate::sessions;
use crate::sessions::{Session, SessionView};
use crate::text;

verus! {

/// Whether the session at `k` is pinned and in `group`.
pub open spec fn is_peer(s: Seq<SessionView>, groups: Seq<GroupView>, group: Option<int>, k: int) -> bool {
    s[k].pinned && groups::group_of(groups, s[k].name) == group
}

/// The last pinned session of a group before `end`.
pub open spec fn peer_before(s: Seq<SessionView>, groups: Seq<GroupView>, group: Option<int>, end: int) -> Option<int>
    decreases end,
{
    if end <= 0 {
        None
    } else if is_peer(s, groups, group, end - 1) {
        Some(end - 1)
    } else {
        peer_before(s, groups, group, end - 1)
    }
}

/// The first pinned session of a group at or after `k`.
pub open spec fn peer_from(s: Seq<SessionView>, groups: Seq<GroupView>, group: Option<int>, k: int) -> Option<int>
    decreases s.len() - k,
{
    if k >= s.len() {
        None
    } else if is_peer(s, groups, group, k) {
        Some(k)
    } else {
        peer_from(s, groups, group, k + 1)
    }
}

/// The sessions with all marked ones pinned or not.
pub open spec fn with_pins(s: Seq<SessionView>, marked: Set<Seq<char>>, pinned: bool) -> Seq<SessionView> {
    s.map_values(
        |x: SessionView|
            if marked.contains(x.name) {
                SessionView { pinned, ..x }
            } else {
                x
            },
    )
}

/// The first session at or after row `k` that is not `except`.
pub open spec fn other_from(rows: Seq<VisibleRow>, except: usize, k: int) -> Option<usize>
    decreases rows.len() - k,
{
    if k >= rows.len() {
        None
    } else {
        match rows[k] {
            VisibleRow::Session(i) => if i != except {
                Some(i)
            } else {
                other_from(rows, except, k + 1)
            },
            VisibleRow::Group(_) => other_from(rows, except, k + 1),
        }
    }
}

/// The last session before row `end` that is not `except`.
pub open spec fn other_before(rows: Seq<VisibleRow>, except: usize, end: int) -> Option<usize>
    decreases end,
{
    if end <= 0 {
        None
    } else {
        match rows[end - 1] {
            VisibleRow::Session(i) => if i != except {
                Some(i)
            } else {
                other_before(rows, except, end - 1)
            },
            VisibleRow::Group(_) => other_before(rows, except, end - 1),
        }
    }
}

/// The groups after all sessions in `names` from index `i` on have joined `target`.
pub open spec fn all_moved(
    groups: Seq<GroupView>,
    names: Seq<Seq<char>>,
    target: Option<int>,
    i: int,
) -> Seq<GroupView>
    decreases names.len() - i,
{
    if i >= names.len() {
        groups
    } else {
        all_moved(groups::with_session_moved(groups, names[i], target), names, target, i + 1)
    }
}

impl Model {
    pub open spec fn with_groups(self, groups: Seq<GroupView>) -> Model {
        Model { groups: StateView { groups, ..self.groups }, ..self }
    }

    /// The sessions in the order that their pins ask for.
    pub open spec fn rearranged(self, sessions: Seq<SessionView>) -> Model {
        Model { sessions: sessions::arranged(sessions, sessions::pinned_names(sessions)), ..self }
    }

    /// The pinned session of the same group next to the session at `i`.
    pub open spec fn peer(self, i: int, up: bool) -> Option<int> {
        let group = groups::group_of(self.groups.groups, self.sessions[i].name);
        if up {
            peer_before(self.sessions, self.groups.groups, group, i)
        } else {
            peer_from(self.sessions, self.groups.groups, group, i + 1)
        }
    }

    /// The group under the cursor one place up or down.
    pub open spec fn group_reordered(self, header: int, up: bool) -> (Model, EffectView) {
        let count = self.groups.groups.len() as int;
        let target = if up { header - 1 } else { header + 1 };
        if header >= count {
            (self.with_status("Ungrouped cannot be reordered"@), EffectView::Continue)
        } else if 0 <= target < count {
            (
                self.with_groups(lists::exchanged(self.groups.groups, header, target)).row_selected(
                    VisibleRow::Group(target as usize),
                ).with_status(if up { "Moved group up"@ } else { "Moved group down"@ }),
                EffectView::SaveGroups,
            )
        } else {
            (
                self.with_status(if up { "Group is already first"@ } else { "Group is already last"@ }),
                EffectView::Continue,
            )
        }
    }

    /// The pinned session at `i` in the place of the one before or behind it in its group.
    pub open spec fn session_reordered(self, i: int, up: bool) -> (Model, EffectView) {
        let name = self.sessions[i].name;
        if !self.sessions[i].pinned {
            (self.with_status("Pin session first"@), EffectView::Continue)
        } else {
            match self.peer(i, up) {
                None => (
                    self.with_status(
                        if up {
                            "Pinned session is already first"@
                        } else {
                            "Pinned session is already last"@
                        },
                    ),
                    EffectView::Continue,
                ),
                Some(k) => (
                    Model { sessions: lists::exchanged(self.sessions, i, k), ..self }.name_selected(
                        name,
                    ).with_status("Moved "@ + name + (if up { " up"@ } else { " down"@ })),
                    EffectView::SavePins,
                ),
            }
        }
    }

    /// What is under the cursor one place up or down: a group, or a pinned session.
    pub open spec fn reordered(self, up: bool) -> (Model, EffectView) {
        match self.selected_row() {
            Some(VisibleRow::Group(header)) => self.group_reordered(header as int, up),
            Some(VisibleRow::Session(i)) => self.session_reordered(i as int, up),
            None => (self, EffectView::Continue),
        }
    }

    /// The session at `i` pinned, or no longer pinned.
    pub open spec fn session_pin_toggled(self, i: int) -> (Model, EffectView) {
        let session = self.sessions[i];
        let changed = self.sessions.update(i, SessionView { pinned: !session.pinned, ..session });
        (
            self.rearranged(changed).name_selected(session.name).with_status(
                (if session.pinned { "Unpinned "@ } else { "Pinned "@ }) + session.name,
            ),
            EffectView::SavePins,
        )
    }

    /// The marked sessions, or the one under the cursor, pinned or no longer pinned.
    pub open spec fn pin_toggled(self) -> (Model, EffectView) {
        if self.marked != Set::<Seq<char>>::empty() {
            let pinned = marks::some_marked_unpinned(self.sessions, self.marked);
            let count = self.marked_names().len();
            (
                self.rearranged(with_pins(self.sessions, self.marked, pinned)).with_status(
                    (if pinned { "Pinned "@ } else { "Unpinned "@ }) + text::digits(count) + " sessions"@,
                ),
                EffectView::SavePins,
            )
        } else {
            match self.selected_session() {
                Some(i) => self.session_pin_toggled(i),
                None => (self.with_status("Select a session to pin it"@), EffectView::Continue),
            }
        }
    }

    /// The question whether the marked sessions are to be killed.
    pub open spec fn kill_asked(self) -> Model {
        let session_names = marks::killable_names_from(self.sessions, self.marked, 0);
        let skipped = marks::marked_current_from(self.sessions, self.marked, 0);
        if session_names.len() > 0 {
            self.with_prompt(PromptView::ConfirmKill { session_names, skipped_current: skipped as int })
        } else if skipped > 0 {
            self.with_status("Cannot kill current session"@)
        } else {
            self.with_status("No selected sessions to kill"@)
        }
    }

    /// The session that the cursor goes to when the one at `i`, which it is on, is
    /// killed: the next in the list, or else the one before.
    pub open spec fn next_name(self, i: int) -> Option<Seq<char>> {
        let after = other_from(self.list(), i as usize, self.selected + 1);
        let before = other_before(self.list(), i as usize, self.selected);
        if after is Some {
            Some(self.sessions[after->0 as int].name)
        } else if before is Some {
            Some(self.sessions[before->0 as int].name)
        } else {
            None
        }
    }

    /// The session under the cursor killed, or the question whether the marked ones are to be.
    pub open spec fn killed(self) -> (Model, EffectView) {
        if self.marked != Set::<Seq<char>>::empty() {
            (self.kill_asked(), EffectView::Continue)
        } else {
            match self.selected_session() {
                None => (self.with_status("Select a session to kill it"@), EffectView::Continue),
                Some(i) => if self.sessions[i].is_current {
                    (self.with_status("Cannot kill current session"@), EffectView::Continue)
                } else {
                    (
                        self,
                        EffectView::Kill {
                            session_name: self.sessions[i].name,
                            next_selected_name: self.next_name(i),
                        },
                    )
                },
            }
        }
    }

    /// A header collapsed or not, with the cursor on it.
    pub open spec fn group_collapsed(self, header: int, collapsed: bool) -> (Model, EffectView) {
        let row = VisibleRow::Group(header as usize);
        if header < self.groups.groups.len() {
            let group = GroupView { collapsed, ..self.groups.groups[header] };
            (
                self.with_groups(self.groups.groups.update(header, group)).row_selected(row),
                EffectView::SaveGroups,
            )
        } else {
            (Model { ungrouped_collapsed: collapsed, ..self }.row_selected(row), EffectView::Continue)
        }
    }

    /// The current header collapsed or not.
    pub open spec fn selected_collapsed(self, collapsed: bool) -> (Model, EffectView) {
        match self.current_header() {
            Some(header) => self.group_collapsed(header, collapsed),
            None => (self, EffectView::Continue),
        }
    }

    /// A header collapsed where it is not, and the other way round.
    pub open spec fn group_toggled(self, header: int) -> (Model, EffectView) {
        self.group_collapsed(header, !self.listing(self.focus).collapsed(header))
    }

    /// What the enter key does: ask what to do with the marked sessions, open or close a group, or switch.
    pub open spec fn activated(self) -> (Model, EffectView) {
        if self.marked != Set::<Seq<char>>::empty() {
            (self.with_prompt(PromptView::Action { choice: 0 }), EffectView::Continue)
        } else {
            match self.selected_row() {
                None => (self, EffectView::Continue),
                Some(VisibleRow::Group(header)) => self.group_toggled(header as int),
                Some(VisibleRow::Session(i)) => (self, EffectView::Switch(self.sessions[i as int].name)),
            }
        }
    }

    /// The group under the cursor deleted.
    pub open spec fn group_deleted(self) -> (Model, EffectView) {
        match self.selected_header() {
            None => (self.with_status("Select a group to delete it"@), EffectView::Continue),
            Some(header) => if header >= self.groups.groups.len() {
                (self.with_status("Ungrouped cannot be deleted"@), EffectView::Continue)
            } else {
                let m = self.with_groups(self.groups.groups.remove(header));
                let count = m.list().len() as int;
                (
                    Model {
                        selected: navigation::at_most(m.selected, if count > 0 { count - 1 } else { 0 }),
                        ..m
                    }.with_status(
                        "Deleted "@ + self.groups.groups[header].name + "; sessions are ungrouped"@,
                    ),
                    EffectView::SaveGroups,
                )
            },
        }
    }

    /// The sessions in another group, or in none, which is then open.
    pub open spec fn sessions_moved(self, session_names: Seq<Seq<char>>, target: Option<int>) -> (Model, EffectView) {
        let groups = all_moved(self.groups.groups, session_names, target, 0);
        let grouped = target matches Some(t) && t < groups.len();
        let destination = if grouped { groups[target->0].name } else { UNGROUPED_NAME@ };
        let m = if grouped {
            self.with_groups(groups.update(target->0, GroupView { collapsed: false, ..groups[target->0] }))
        } else {
            Model { ungrouped_collapsed: false, ..self.with_groups(groups) }
        };
        let selected = if session_names.len() > 0 { m.name_selected(session_names[0]) } else { m };
        let status = if session_names.len() == 1 {
            "Moved "@ + session_names[0] + " to "@ + destination
        } else {
            "Moved "@ + text::digits(session_names.len()) + " sessions to "@ + destination
        };
        (selected.with_status(status), EffectView::SaveGroups)
    }

    /// Other sessions in the place of the ones listed.
    pub open spec fn reloaded(self, sessions: Seq<SessionView>, preferred: Option<Seq<char>>) -> Model {
        let m = Model {
            sessions,
            marked: self.marked.intersect(sessions::names_of(sessions).to_set()),
            ..self
        };
        let count = m.list().len() as int;
        let placed = match preferred_name(sessions, preferred) {
            Some(name) => m.name_selected(name),
            None => Model {
                selected: navigation::at_most(m.selected, if count > 0 { count - 1 } else { 0 }),
                ..m
            },
        };
        Model { top: navigation::at_most(placed.top, placed.selected), ..placed }
    }

    /// What is listed after the session under the cursor was killed.
    pub open spec fn kill_finished(
        self,
        sessions: Seq<SessionView>,
        session_name: Seq<char>,
        next_selected_name: Option<Seq<char>>,
    ) -> Model {
        self.reloaded(sessions, next_selected_name).with_status("Killed "@ + session_name)
    }

    /// What is listed after sessions were killed.
    pub open spec fn kill_all_finished(
        self,
        sessions: Seq<SessionView>,
        session_names: Seq<Seq<char>>,
        skipped_current: int,
    ) -> Model {
        let count = text::digits(session_names.len());
        Model { marked: self.marked.difference(session_names.to_set()), ..self }.reloaded(
            sessions,
            None,
        ).with_status(
            if skipped_current > 0 {
                "Killed "@ + count + "; skipped current"@
            } else {
                "Killed "@ + count + " sessions"@
            },
        )
    }
}

/// The name of the current session from index `i` on.
pub open spec fn current_name_from(s: Seq<SessionView>, i: int) -> Option<Seq<char>>
    decreases s.len() - i,
{
    if i >= s.len() {
        None
    } else if s[i].is_current {
        Some(s[i].name)
    } else {
        current_name_from(s, i + 1)
    }
}

/// The session to put the cursor on: the preferred one, or the current one.
pub open spec fn preferred_name(s: Seq<SessionView>, preferred: Option<Seq<char>>) -> Option<Seq<char>> {
    match preferred {
        Some(name) => Some(name),
        None => current_name_from(s, 0),
    }
}

/// The name of the current session.
fn current_name(sessions: &Vec<Session>) -> (r: Option<String>)
    ensures
        effects::text_view(r) == current_name_from(sessions::session_views(sessions@), 0),
{
    let ghost s = sessions::session_views(sessions@);
    let mut i: usize = 0;
    while i < sessions.len()
        invariant
            i <= sessions.len(),
            s == sessions::session_views(sessions@),
            current_name_from(s, 0) == current_name_from(s, i as int),
        decreases sessions.len() - i,
    {
        assert(s[i as int] == sessions@[i as int]@);
        if sessions[i].is_current {
            return Some(sessions[i].name.clone());
        }
        i += 1;
    }
    None
}

/// The first session at or after row `from` that is not `except`.
fn next_other(rows: &Vec<VisibleRow>, except: usize, from: usize) -> (r: Option<usize>)
    ensures
        r == other_from(rows@, except, from as int),
{
    let mut k: usize = from;
    while k < rows.len()
        invariant
            from <= k,
            other_from(rows@, except, from as int) == other_from(rows@, except, k as int),
        decreases rows.len() - k,
    {
        if let VisibleRow::Session(i) = rows[k] {
            if i != except {
                return Some(i);
            }
        }
        k += 1;
    }
    None
}

/// The last session before row `end` that is not `except`.
fn previous_other(rows: &Vec<VisibleRow>, except: usize, end: usize) -> (r: Option<usize>)
    requires
        end <= rows.len(),
    ensures
        r == other_before(rows@, except, end as int),
{
    let mut k: usize = end;
    while k > 0
        invariant
            k <= end <= rows.len(),
            other_before(rows@, except, end as int) == other_before(rows@, except, k as int),
        decreases k,
    {
        if let VisibleRow::Session(i) = rows[k - 1] {
            if i != except {
                return Some(i);
            }
        }
        k -= 1;
    }
    None
}

proof fn lemma_others_listed(rows: Seq<VisibleRow>, except: usize, k: int)
    ensures
        0 <= k ==> (other_from(rows, except, k) matches Some(i) ==> rows.contains(VisibleRow::Session(i))),
    decreases rows.len() - k,
{
    if 0 <= k < rows.len() {
        lemma_others_listed(rows, except, k + 1);
        assert(rows.contains(rows[k]));
    }
}

proof fn lemma_earlier_listed(rows: Seq<VisibleRow>, except: usize, end: int)
    requires
        end <= rows.len(),
    ensures
        other_before(rows, except, end) matches Some(i) ==> rows.contains(VisibleRow::Session(i)),
    decreases end,
{
    if end > 0 {
        lemma_earlier_listed(rows, except, end - 1);
        assert(rows.contains(rows[end - 1]));
    }
}

/// Moving sessions keeps how many groups there are.
pub(crate) proof fn lemma_all_moved_len(groups: Seq<GroupView>, names: Seq<Seq<char>>, target: Option<int>, i: int)
    ensures
        all_moved(groups, names, target, i).len() == groups.len(),
    decreases names.len() - i,
{
    if i < names.len() {
        lemma_all_moved_len(groups::with_session_moved(groups, names[i], target), names, target, i + 1);
    }
}

impl App {
    /// The pinned session of the same group next to the session at `index`.
    fn find_peer(&self, index: usize, up: bool) -> (r: Option<usize>)
        requires
            index < self.sessions.len(),
        ensures
            groups::index_view(r) == self@.peer(index as int, up),
            r matches Some(k) ==> k < self.sessions.len(),
    {
        let ghost s = self@.sessions;
        let ghost g = self@.groups.groups;
        assert(s[index as int] == self.sessions@[index as int]@);
        let group = self.groups.group_for_session(&self.sessions[index].name);
        let ghost wanted = groups::index_view(group);
        if up {
            let mut end: usize = index;
            while end > 0
                invariant
                    end <= index < self.sessions.len(),
                    s == self@.sessions,
                    g == self@.groups.groups,
                    up,
                    wanted == groups::index_view(group),
                    wanted == groups::group_of(g, s[index as int].name),
                    peer_before(s, g, wanted, index as int) == peer_before(s, g, wanted, end as int),
                decreases end,
            {
                assert(s[end - 1] == self.sessions@[end - 1]@);
                if self.sessions[end - 1].pinned && self.groups.group_for_session(&self.sessions[end - 1].name)
                    == group {
                    return Some(end - 1);
                }
                end -= 1;
            }
            None
        } else {
            let mut k: usize = index + 1;
            while k < self.sessions.len()
                invariant
                    index < k <= self.sessions.len(),
                    s == self@.sessions,
                    g == self@.groups.groups,
                    !up,
                    wanted == groups::index_view(group),
                    wanted == groups::group_of(g, s[index as int].name),
                    peer_from(s, g, wanted, index + 1) == peer_from(s, g, wanted, k as int),
                decreases self.sessions.len() - k,
            {
                assert(s[k as int] == self.sessions@[k as int]@);
                if self.sessions[k].pinned && self.groups.group_for_session(&self.sessions[k].name) == group {
                    return Some(k);
                }
                k += 1;
            }
            None
        }
    }

    /// Moves the group one place up or down.
    fn reorder_group(&mut self, header: usize, up: bool) -> (r: Effect)
        requires
            header <= old(self)@.groups.groups.len(),
        ensures
            (final(self)@, r@) == old(self)@.group_reordered(header as int, up),
    {
        if header >= self.groups.groups.len() {
            self.status = "Ungrouped cannot be reordered".to_owned();
            return Effect::Continue;
        }
        match self.groups.move_group(header, if up { -1 } else { 1 }) {
            Some(target) => {
                self.select_row(VisibleRow::Group(target));
                self.status = if up { "Moved group up".to_owned() } else { "Moved group down".to_owned() };
                Effect::SaveGroups
            },
            None => {
                self.status = if up {
                    "Group is already first".to_owned()
                } else {
                    "Group is already last".to_owned()
                };
                Effect::Continue
            },
        }
    }

    /// Exchanges the pinned session with the one before or behind it in its group.
    fn reorder_session(&mut self, index: usize, up: bool) -> (r: Effect)
        requires
            index < old(self).sessions.len(),
        ensures
            (final(self)@, r@) == old(self)@.session_reordered(index as int, up),
    {
        assert(self@.sessions[index as int] == self.sessions@[index as int]@);
        if !self.sessions[index].pinned {
            self.status = "Pin session first".to_owned();
            return Effect::Continue;
        }
        match self.find_peer(index, up) {
            None => {
                self.status = if up {
                    "Pinned session is already first".to_owned()
                } else {
                    "Pinned session is already last".to_owned()
                };
                Effect::Continue
            },
            Some(peer) => {
                let name = self.sessions[index].name.clone();
                lists::exchange(&mut self.sessions, index, peer);
                assert(self@ == (Model {
                    sessions: lists::exchanged(old(self)@.sessions, index as int, peer as int),
                    ..old(self)@
                }));
                self.select_session_by_name(&name);
                let mut status = "Moved ".to_owned();
                status.append(&name);
                status.append(if up { " up" } else { " down" });
                self.status = status;
                Effect::SavePins
            },
        }
    }

    pub(crate) fn reorder(&mut self, up: bool) -> (r: Effect)
        ensures
            (final(self)@, r@) == old(self)@.reordered(up),
    {
        match self.selected_row() {
            Some(VisibleRow::Group(header)) => self.reorder_group(header, up),
            Some(VisibleRow::Session(index)) => self.reorder_session(index, up),
            None => Effect::Continue,
        }
    }

    /// Moves what is under the cursor one place up: a group, or a pinned session within its group.
    pub fn reorder_up(&mut self) -> (r: Effect)
        ensures
            (final(self)@, r@) == old(self)@.reordered(true),
    {
        self.reorder(true)
    }

    /// Moves what is under the cursor one place down: a group, or a pinned session within its group.
    pub fn reorder_down(&mut self) -> (r: Effect)
        ensures
            (final(self)@, r@) == old(self)@.reordered(false),
    {
        self.reorder(false)
    }

    /// Puts the sessions in the order that their pins ask for.
    fn rearrange(&mut self)
        ensures
            final(self)@ == old(self)@.rearranged(old(self)@.sessions),
    {
        let pinned_names = sessions::pinned_names_from_sessions(&self.sessions);
        sessions::arrange_sessions(&mut self.sessions, &pinned_names);
    }

    /// Pins the marked sessions, or the one under the cursor; where all of them are pinned, no longer.
    pub fn toggle_pin(&mut self) -> (r: Effect)
        ensures
            (final(self)@, r@) == old(self)@.pin_toggled(),
    {
        if !self.selected_sessions.is_empty() {
            let ghost m = self@;
            let target_state = marks::bulk_pin_target_state(&self.sessions, &self.selected_sessions);
            let count: usize = self.selected_live_session_names().len();
            let mut i: usize = 0;
            while i < self.sessions.len()
                invariant
                    i <= self.sessions.len(),
                    self.sessions.len() == m.sessions.len(),
                    self@ == (Model { sessions: self@.sessions, ..m }),
                    forall|j: int|
                        0 <= j < i ==> #[trigger] self@.sessions[j] == with_pins(
                            m.sessions,
                            m.marked,
                            target_state,
                        )[j],
                    forall|j: int| i <= j < m.sessions.len() ==> #[trigger] self@.sessions[j] == m.sessions[j],
                decreases self.sessions.len() - i,
            {
                assert(self@.sessions[i as int] == self.sessions@[i as int]@);
                let ghost before = self@.sessions;
                if self.selected_sessions.contains(&self.sessions[i].name) {
                    self.sessions[i].pinned = target_state;
                    assert(self@.sessions =~= before.update(
                        i as int,
                        SessionView { pinned: target_state, ..before[i as int] },
                    ));
                }
                i += 1;
            }
            assert(self@.sessions =~= with_pins(m.sessions, m.marked, target_state));
            self.rearrange();
            let mut status = if target_state { "Pinned ".to_owned() } else { "Unpinned ".to_owned() };
            status.append(&text::count(count));
            status.append(" sessions");
            self.status = status;
            return Effect::SavePins;
        }
        match self.selected_session_index() {
            Some(index) => self.toggle_session_pin(index),
            None => {
                self.status = "Select a session to pin it".to_owned();
                Effect::Continue
            },
        }
    }

    /// Pins the session, or no longer.
    pub fn toggle_session_pin(&mut self, session_index: usize) -> (r: Effect)
        requires
            session_index < old(self).sessions.len(),
        ensures
            (final(self)@, r@) == old(self)@.session_pin_toggled(session_index as int),
    {
        let ghost m = self@;
        let ghost i = session_index as int;
        assert(m.sessions[i] == self.sessions@[i]@);
        let name = self.sessions[session_index].name.clone();
        let was_pinned = self.sessions[session_index].pinned;
        self.sessions[session_index].pinned = !was_pinned;
        assert(self@.sessions =~= m.sessions.update(i, SessionView { pinned: !was_pinned, ..m.sessions[i] }));
        self.rearrange();
        self.select_session_by_name(&name);
        let mut status = if was_pinned { "Unpinned ".to_owned() } else { "Pinned ".to_owned() };
        status.append(&name);
        self.status = status;
        Effect::SavePins
    }

    /// Asks whether the marked sessions are to be killed.
    pub fn begin_kill_selected_sessions(&mut self)
        ensures
            final(self)@ == old(self)@.kill_asked(),
    {
        let (session_names, skipped_current) = self.killable_selected_session_names();
        assert(session_names.len() == text::views(session_names@).len());
        if session_names.len() == 0 {
            self.status = if skipped_current > 0 {
                "Cannot kill current session".to_owned()
            } else {
                "No selected sessions to kill".to_owned()
            };
            return;
        }
        self.prompt = Some(Prompt::ConfirmKill { session_names, skipped_current });
    }

    /// Kills the session under the cursor, or asks whether the marked ones are to be killed.
    pub fn kill_selected(&mut self) -> (r: Effect)
        ensures
            (final(self)@, r@) == old(self)@.killed(),
    {
        if !self.selected_sessions.is_empty() {
            self.begin_kill_selected_sessions();
            return Effect::Continue;
        }
        let index: usize = match self.selected_session_index() {
            Some(index) => index,
            None => {
                self.status = "Select a session to kill it".to_owned();
                return Effect::Continue;
            },
        };
        assert(self@.sessions[index as int] == self.sessions@[index as int]@);
        if self.sessions[index].is_current {
            self.status = "Cannot kill current session".to_owned();
            return Effect::Continue;
        }
        let rows = self.visible_rows();
        proof {
            lemma_others_listed(rows@, index, self.selected + 1);
            lemma_earlier_listed(rows@, index, self.selected as int);
        }
        let next: Option<usize> = match next_other(&rows, index, self.selected + 1) {
            Some(i) => Some(i),
            None => previous_other(&rows, index, self.selected),
        };
        let next_selected_name: Option<String> = match next {
            Some(i) => {
                proof {
                    let k = rows@.index_of(VisibleRow::Session(i));
                    assert(rows@[k] == VisibleRow::Session(i));
                    assert(self@.sessions[i as int] == self.sessions@[i as int]@);
                }
                Some(self.sessions[i].name.clone())
            },
            None => None,
        };
        Effect::Kill { session_name: self.sessions[index].name.clone(), next_selected_name }
    }

    /// Collapses or opens a header, and puts the cursor on it.
    pub fn set_group_collapsed(&mut self, group_index: usize, collapsed: bool) -> (r: Effect)
        ensures
            (final(self)@, r@) == old(self)@.group_collapsed(group_index as int, collapsed),
    {
        let ghost m = self@;
        if group_index < self.groups.groups.len() {
            let ghost i = group_index as int;
            assert(m.groups.groups[i] == self.groups.groups@[i]@);
            self.groups.groups[group_index].collapsed = collapsed;
            assert(self@.groups.groups =~= m.groups.groups.update(i, GroupView { collapsed, ..m.groups.groups[i] }));
            self.select_row(VisibleRow::Group(group_index));
            Effect::SaveGroups
        } else {
            self.ungrouped_collapsed = collapsed;
            self.select_row(VisibleRow::Group(group_index));
            Effect::Continue
        }
    }

    /// Collapses the current header.
    pub fn collapse_selected(&mut self) -> (r: Effect)
        ensures
            (final(self)@, r@) == old(self)@.selected_collapsed(true),
    {
        match self.current_group_index() {
            Some(index) => self.set_group_collapsed(index, true),
            None => Effect::Continue,
        }
    }

    /// Opens the current header.
    pub fn expand_selected(&mut self) -> (r: Effect)
        ensures
            (final(self)@, r@) == old(self)@.selected_collapsed(false),
    {
        match self.current_group_index() {
            Some(index) => self.set_group_collapsed(index, false),
            None => Effect::Continue,
        }
    }

    /// Collapses a header where it is open, and opens it where it is collapsed.
    pub fn toggle_group(&mut self, group_index: usize) -> (r: Effect)
        ensures
            (final(self)@, r@) == old(self)@.group_toggled(group_index as int),
    {
        let collapsed = if group_index < self.groups.groups.len() {
            self.groups.groups[group_index].collapsed
        } else {
            self.ungrouped_collapsed
        };
        self.set_group_collapsed(group_index, !collapsed)
    }

    /// Asks what to do with the marked sessions, opens or closes a group, or switches to a session.
    pub fn activate_selected(&mut self) -> (r: Effect)
        ensures
            (final(self)@, r@) == old(self)@.activated(),
    {
        if !self.selected_sessions.is_empty() {
            self.prompt = Some(Prompt::Action { choice: 0 });
            return Effect::Continue;
        }
        match self.selected_row() {
            None => Effect::Continue,
            Some(VisibleRow::Group(header)) => self.toggle_group(header),
            Some(VisibleRow::Session(index)) => {
                assert(self@.sessions[index as int] == self.sessions@[index as int]@);
                Effect::Switch(self.sessions[index].name.clone())
            },
        }
    }

    /// Deletes the group under the cursor; its sessions are then in no group.
    pub fn delete_selected_group(&mut self) -> (r: Effect)
        ensures
            (final(self)@, r@) == old(self)@.group_deleted(),
    {
        let ghost m = self@;
        let index: usize = match self.selected_group_index() {
            Some(index) => index,
            None => {
                self.status = "Select a group to delete it".to_owned();
                return Effect::Continue;
            },
        };
        if index >= self.groups.groups.len() {
            self.status = "Ungrouped cannot be deleted".to_owned();
            return Effect::Continue;
        }
        assert(m.groups.groups[index as int] == self.groups.groups@[index as int]@);
        let name = self.groups.groups[index].name.clone();
        let _ = self.groups.delete_group(index);
        let count: usize = self.visible_rows().len();
        assert(self@ == m.with_groups(m.groups.groups.remove(index as int)));
        let last: usize = if count > 0 { count - 1 } else { 0 };
        if self.selected >= last {
            self.selected = last;
        }
        let mut status = "Deleted ".to_owned();
        status.append(&name);
        status.append("; sessions are ungrouped");
        self.status = status;
        Effect::SaveGroups
    }

    /// Moves every one of the sessions to a group, or out of all groups.
    pub(crate) fn regroup(&mut self, session_names: &Vec<String>, group_index: Option<usize>)
        ensures
            final(self)@ == old(self)@.with_groups(
                all_moved(
                    old(self)@.groups.groups,
                    text::views(session_names@),
                    groups::index_view(group_index),
                    0,
                ),
            ),
    {
        let ghost m = self@;
        let ghost list = text::views(session_names@);
        let ghost target = groups::index_view(group_index);
        let mut i: usize = 0;
        while i < session_names.len()
            invariant
                i <= session_names.len(),
                list == text::views(session_names@),
                target == groups::index_view(group_index),
                self@ == m.with_groups(self@.groups.groups),
                all_moved(m.groups.groups, list, target, 0) == all_moved(
                    self@.groups.groups,
                    list,
                    target,
                    i as int,
                ),
            decreases session_names.len() - i,
        {
            assert(list[i as int] == session_names@[i as int]@);
            self.groups.move_session(&session_names[i], group_index);
            i += 1;
        }
    }

    /// Moves the sessions to a group, which is then open, or out of all groups.
    pub fn move_sessions_to(&mut self, session_names: &Vec<String>, group_index: Option<usize>) -> (r: Effect)
        ensures
            (final(self)@, r@) == old(self)@.sessions_moved(
                text::views(session_names@),
                groups::index_view(group_index),
            ),
    {
        let ghost m = self@;
        let ghost list = text::views(session_names@);
        let ghost target = groups::index_view(group_index);
        let ghost moved = all_moved(m.groups.groups, list, target, 0);
        self.regroup(session_names, group_index);
        let mut destination = UNGROUPED_NAME.to_owned();
        let mut grouped = false;
        if let Some(index) = group_index {
            if index < self.groups.groups.len() {
                assert(moved[index as int] == self.groups.groups@[index as int]@);
                destination = self.groups.groups[index].name.clone();
                grouped = true;
                self.groups.groups[index].collapsed = false;
                assert(self@.groups.groups =~= moved.update(
                    index as int,
                    GroupView { collapsed: false, ..moved[index as int] },
                ));
            }
        }
        if !grouped {
            self.ungrouped_collapsed = false;
        }
        if session_names.len() > 0 {
            assert(list[0] == session_names@[0]@);
            self.select_session_by_name(&session_names[0]);
        }
        let mut status = "Moved ".to_owned();
        if session_names.len() == 1 {
            status.append(&session_names[0]);
            status.append(" to ");
        } else {
            status.append(&text::count(session_names.len()));
            status.append(" sessions to ");
        }
        status.append(&destination);
        self.status = status;
        Effect::SaveGroups
    }

    /// Lists other sessions, with the cursor on the preferred one or else on the current one.
    pub fn reload_sessions(&mut self, sessions: Vec<Session>, preferred_name: Option<String>)
        ensures
            final(self)@ == old(self)@.reloaded(
                sessions::session_views(sessions@),
                effects::text_view(preferred_name),
            ),
    {
        self.sessions = sessions;
        marks::prune_selected_sessions(&mut self.selected_sessions, &self.sessions);
        let name = match preferred_name {
            Some(name) => Some(name),
            None => current_name(&self.sessions),
        };
        match name {
            Some(name) => {
                self.select_session_by_name(&name);
            },
            None => {
                let count: usize = self.visible_rows().len();
                let last: usize = if count > 0 { count - 1 } else { 0 };
                if self.selected >= last {
                    self.selected = last;
                }
            },
        }
        if self.top >= self.selected {
            self.top = self.selected;
        }
    }

    /// Lists the sessions that are left after one was killed.
    pub fn finish_kill(&mut self, sessions: Vec<Session>, session_name: &str, next_selected_name: Option<String>)
        ensures
            final(self)@ == old(self)@.kill_finished(
                sessions::session_views(sessions@),
                session_name@,
                effects::text_view(next_selected_name),
            ),
    {
        self.reload_sessions(sessions, next_selected_name);
        let mut status = "Killed ".to_owned();
        status.append(session_name);
        self.status = status;
    }

    /// Lists the sessions that are left after the marked ones were killed.
    pub fn finish_kill_all(&mut self, sessions: Vec<Session>, session_names: &Vec<String>, skipped_current: usize)
        ensures
            final(self)@ == old(self)@.kill_all_finished(
                sessions::session_views(sessions@),
                text::views(session_names@),
                skipped_current as int,
            ),
    {
        let ghost m = self@;
        let ghost list = text::views(session_names@);
        let mut i: usize = 0;
        assert(list.take(0).to_set() =~= Set::empty());
        assert(m.marked.difference(Set::empty()) =~= m.marked);
        while i < session_names.len()
            invariant
                i <= session_names.len(),
                list == text::views(session_names@),
                self@ == (Model { marked: m.marked.difference(list.take(i as int).to_set()), ..m }),
            decreases session_names.len() - i,
        {
            self.selected_sessions.remove(&session_names[i]);
            proof {
                assert(list.take(i + 1) =~= list.take(i as int).push(list[i as int]));
                names::lemma_push_to_set(list.take(i as int), list[i as int]);
                assert(self.selected_sessions@ =~= m.marked.difference(list.take(i + 1).to_set()));
            }
            i += 1;
        }
        assert(list.take(i as int) =~= list);
        self.reload_sessions(sessions, None);
        let mut status = "Killed ".to_owned();
        status.append(&text::count(session_names.len()));
        if skipped_current > 0 {
            status.append("; skipped current");
        } else {
            status.append(" sessions");
        }
        self.status = status;
    }
}

pub(crate) proof fn lemma_peer_before(s: Seq<SessionView>, groups: Seq<GroupView>, group: Option<int>, end: int)
    requires
        0 <= end <= s.len(),
    ensures
        match peer_before(s, groups, group, end) {
            Some(k) => 0 <= k < end && is_peer(s, groups, group, k) && forall|j: int|
                k < j < end ==> !#[trigger] is_peer(s, groups, group, j),
            None => forall|j: int| 0 <= j < end ==> !#[trigger] is_peer(s, groups, group, j),
        },
    decreases end,
{
    if end > 0 && !is_peer(s, groups, group, end - 1) {
        lemma_peer_before(s, groups, group, end - 1);
    }
}

pub(crate) proof fn lemma_peer_from(s: Seq<SessionView>, groups: Seq<GroupView>, group: Option<int>, i: int)
    requires
        0 <= i <= s.len(),
    ensures
        match peer_from(s, groups, group, i) {
            Some(k) => i <= k < s.len() && is_peer(s, groups, group, k) && forall|j: int|
                i <= j < k ==> !#[trigger] is_peer(s, groups, group, j),
            None => forall|j: int| i <= j < s.len() ==> !#[trigger] is_peer(s, groups, group, j),
        },
    decreases s.len() - i,
{
    if i < s.len() && !is_peer(s, groups, group, i) {
        lemma_peer_from(s, groups, group, i + 1);
    }
}

/// The neighbour that a session is exchanged with is pinned, and of the same group.
pub proof fn peer_is_pinned(m: Model, i: int, up: bool)
    requires
        0 <= i < m.sessions.len(),
    ensures
        m.peer(i, up) matches Some(k) ==> 0 <= k < m.sessions.len() && k != i && m.sessions[k].pinned
            && groups::group_of(m.groups.groups, m.sessions[k].name) == groups::group_of(
            m.groups.groups,
            m.sessions[i].name,
        ),
{
    let group = groups::group_of(m.groups.groups, m.sessions[i].name);
    lemma_peer_before(m.sessions, m.groups.groups, group, i);
    lemma_peer_from(m.sessions, m.groups.groups, group, i + 1);
}

/// A pinned session that was moved past a neighbour of its group and then back
/// the other way leaves the sessions as they were.
pub proof fn reordering_back_undoes(m: Model, i: int, up: bool)
    requires
        0 <= i < m.sessions.len(),
        m.sessions[i].pinned,
        m.peer(i, up) is Some,
    ensures
        ({
            let k = m.peer(i, up)->0;
            let there = m.session_reordered(i, up).0;
            &&& there.sessions == lists::exchanged(m.sessions, i, k)
            &&& there.peer(k, !up) == Some(i)
            &&& there.session_reordered(k, !up).0.sessions == m.sessions
        }),
{
    let s = m.sessions;
    let g = m.groups.groups;
    let group = groups::group_of(g, s[i].name);
    let k = m.peer(i, up)->0;
    lemma_peer_before(s, g, group, i);
    lemma_peer_from(s, g, group, i + 1);
    let there = m.session_reordered(i, up).0;
    let t = there.sessions;
    assert(t == lists::exchanged(s, i, k));
    assert(there.groups == m.groups);
    assert(is_peer(s, g, group, k));
    assert(is_peer(t, g, group, i));
    assert(groups::group_of(g, t[k].name) == group);
    assert forall|j: int| 0 <= j < s.len() && j != i && j != k implies #[trigger] is_peer(t, g, group, j) == is_peer(
        s,
        g,
        group,
        j,
    ) by {}
    if up {
        lemma_peer_from(t, g, group, k + 1);
        assert(there.peer(k, false) == Some(i)) by {
            assert forall|j: int| k + 1 <= j < i implies !#[trigger] is_peer(t, g, group, j) by {
                assert(!is_peer(s, g, group, j));
            }
        }
    } else {
        lemma_peer_before(t, g, group, k);
        assert(there.peer(k, true) == Some(i)) by {
            assert forall|j: int| i < j < k implies !#[trigger] is_peer(t, g, group, j) by {
                assert(!is_peer(s, g, group, j));
            }
        }
    }
    lists::exchange_undoes_itself(s, i, k);
}

/// A group that was moved one place and then back leaves the groups as they were.
pub proof fn reordering_group_back_undoes(m: Model, header: int, up: bool)
    requires
        0 <= header < m.groups.groups.len(),
        up ==> header > 0,
        !up ==> header + 1 < m.groups.groups.len(),
    ensures
        ({
            let target = if up { header - 1 } else { header + 1 };
            m.group_reordered(header, up).0.group_reordered(target, !up).0.groups == m.groups
        }),
{
    let target = if up { header - 1 } else { header + 1 };
    lists::exchange_undoes_itself(m.groups.groups, header, target);
    let there = m.group_reordered(header, up).0;
    assert(there.groups.groups == lists::exchanged(m.groups.groups, header, target));
    let back = there.group_reordered(target, !up).0;
    assert(back.groups.groups == m.groups.groups);
}

proof fn lemma_killable(s: Seq<SessionView>, marked: Set<Seq<char>>, i: int, name: Seq<char>)
    requires
        0 <= i,
        marks::killable_names_from(s, marked, i).contains(name),
    ensures
        exists|k: int|
            i <= k < s.len() && (#[trigger] s[k]).name == name && !s[k].is_current && marked.contains(name),
    decreases s.len() - i,
{
    if i < s.len() {
        let list = marks::killable_names_from(s, marked, i);
        let rest = marks::killable_names_from(s, marked, i + 1);
        let j = list.index_of(name);
        if marked.contains(s[i].name) && !s[i].is_current {
            if j > 0 {
                assert(rest[j - 1] == name);
                assert(rest.contains(name));
                lemma_killable(s, marked, i + 1, name);
            } else {
                assert(s[i].name == name);
            }
        } else {
            lemma_killable(s, marked, i + 1, name);
        }
    }
}

/// Killing asks for nothing but marked sessions that are not the current one, and
/// kills the session under the cursor only where it is not the current one.
pub proof fn current_session_is_not_killed(m: Model)
    ensures
        m.killed().1 matches EffectView::Kill { session_name, .. } ==> m.selected_session() matches Some(i)
            && m.sessions[i].name == session_name && !m.sessions[i].is_current,
        !(m.killed().1 is KillAll),
        m.prompt is None ==> (m.kill_asked().prompt matches Some(PromptView::ConfirmKill { session_names, .. })
            ==> forall|name: Seq<char>| #[trigger]
            session_names.contains(name) ==> exists|k: int|
                0 <= k < m.sessions.len() && (#[trigger] m.sessions[k]).name == name && !m.sessions[k].is_current
                    && m.marked.contains(name)),
{
    if m.prompt is None {
        if let Some(PromptView::ConfirmKill { session_names, .. }) = m.kill_asked().prompt {
            assert forall|name: Seq<char>| #[trigger] session_names.contains(name) implies exists|k: int|
                0 <= k < m.sessions.len() && (#[trigger] m.sessions[k]).name == name && !m.sessions[k].is_current
                    && m.marked.contains(name) by {
                lemma_killable(m.sessions, m.marked, 0, name);
            }
        }
    }
}

/// Pinning or unpinning a session changes whether it is pinned, and nothing else
/// about any session; the sessions then stand as they are listed.
pub proof fn pinning_changes_one_session(m: Model, i: int)
    requires
        0 <= i < m.sessions.len(),
    ensures
        ({
            let after = m.session_pin_toggled(i).0.sessions;
            let changed = m.sessions.update(i, SessionView { pinned: !m.sessions[i].pinned, ..m.sessions[i] });
            &&& after.to_multiset() == changed.to_multiset()
            &&& sessions::is_arranged(after)
        }),
{
    let changed = m.sessions.update(i, SessionView { pinned: !m.sessions[i].pinned, ..m.sessions[i] });
    let names = sessions::pinned_names(changed);
    sessions::arranging_puts_pinned_first(changed, names);
    sessions::arranging_arranges(changed, names);
}

/// Where the sessions stand as they are listed and no name repeats, pinning a
/// session makes it the last of the pinned ones and leaves the others and their
/// order as they were. Taking the pin away again restores the sessions and the pins.
pub proof fn pinning_twice_restores(m: Model, i: int)
    requires
        sessions::is_arranged(m.sessions),
        sessions::names_of(m.sessions).no_duplicates(),
        0 <= i < m.sessions.len(),
        !m.sessions[i].pinned,
    ensures
        ({
            let n = sessions::pinned_names(m.sessions).len() as int;
            let once = m.session_pin_toggled(i).0;
            let twice = once.session_pin_toggled(n).0;
            &&& n <= i
            &&& once.sessions == m.sessions.remove(i).insert(n, (SessionView { pinned: true, ..m.sessions[i] }))
            &&& sessions::pinned_names(once.sessions) == sessions::pinned_names(m.sessions).push(m.sessions[i].name)
            &&& twice.sessions == m.sessions
        }),
{
    pins::pinning_can_be_undone(m.sessions, i);
    let once = m.session_pin_toggled(i).0;
    assert(once.sessions == pins::repinned(m.sessions, i));
    let n = sessions::pinned_names(m.sessions).len() as int;
    assert(once.session_pin_toggled(n).0.sessions == pins::repinned(once.sessions, n));
}

/// Sessions that were moved to a group are all in it; moved out of the groups they are in none.
pub proof fn moved_sessions_are_there(
    groups: Seq<GroupView>,
    names: Seq<Seq<char>>,
    target: Option<int>,
    name: Seq<char>,
)
    requires
        target matches Some(t) ==> 0 <= t < groups.len(),
    ensures
        names.contains(name) ==> groups::group_of(all_moved(groups, names, target, 0), name) == target,
        !names.contains(name) ==> groups::group_of(all_moved(groups, names, target, 0), name) == groups::group_of(
            groups,
            name,
        ),
{
    lemma_all_moved(groups, names, target, name, 0);
    if names.contains(name) {
        let j = names.index_of(name);
        assert(names[j] == name);
    }
}

proof fn lemma_all_moved(
    groups: Seq<GroupView>,
    names: Seq<Seq<char>>,
    target: Option<int>,
    name: Seq<char>,
    i: int,
)
    requires
        target matches Some(t) ==> 0 <= t < groups.len(),
        0 <= i <= names.len(),
    ensures
        groups::group_of(all_moved(groups, names, target, i), name) == (if exists|j: int|
            i <= j < names.len() && names[j] == name {
            target
        } else {
            groups::group_of(groups, name)
        }),
    decreases names.len() - i,
{
    if i < names.len() {
        let moved = groups::with_session_moved(groups, names[i], target);
        lemma_all_moved(moved, names, target, name, i + 1);
        let other = if name == names[i] { names[i].push('x') } else { name };
        if name == names[i] {
            assert(other.len() != name.len());
        }
        groups::moved_session_is_there(groups, names[i], target, other);
        if exists|j: int| i + 1 <= j < names.len() && names[j] == name {
            let j = choose|j: int| i + 1 <= j < names.len() && names[j] == name;
            assert(i <= j < names.len() && names[j] == name);
        }
    }
}

pub(crate) proof fn lemma_all_moved_sound(
    groups: Seq<GroupView>,
    names: Seq<Seq<char>>,
    target: Option<int>,
    i: int,
)
    requires
        groups::names_are_sound(groups),
        groups::members_are_sound(groups),
    ensures
        groups::names_are_sound(all_moved(groups, names, target, i)),
        groups::members_are_sound(all_moved(groups, names, target, i)),
    decreases names.len() - i,
{
    if i < names.len() {
        groups::moving_keeps_groups_sound(groups, names[i], target);
        lemma_all_moved_sound(groups::with_session_moved(groups, names[i], target), names, target, i + 1);
    }
}

} // verus!
