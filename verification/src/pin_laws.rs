//! Laws of pinning and unpinning sessions.

use vstd::prelude::*;

use crate::effects::EffectView;
use crate::organize;
use crate::picker::Model;
use crate::prompts::PromptView;
use crate::rows::VisibleRow;
use crate::sessions;
use crate::sessions::SessionView;

verus! {

/// The session with another pin state.
pub open spec fn pinned_as(x: SessionView, pinned: bool) -> SessionView {
    SessionView { name: x.name, last_activity: x.last_activity, pinned, is_current: x.is_current }
}

/// The sessions with pins as `pin` says.
pub open spec fn pinned_by(s: Seq<SessionView>, pin: spec_fn(SessionView) -> bool) -> Seq<SessionView> {
    Seq::new(s.len(), |i: int| pinned_as(s[i], pin(s[i])))
}

/// Whether `after` has the sessions of `before` in some order, each as it was but
/// for its pin, which is as `pin` says.
pub open spec fn only_pins_changed(
    before: Seq<SessionView>,
    after: Seq<SessionView>,
    pin: spec_fn(SessionView) -> bool,
) -> bool {
    &&& after.len() == before.len()
    &&& after.to_multiset() == pinned_by(before, pin).to_multiset()
    &&& forall|i: int| 0 <= i < before.len() ==> after.contains(pinned_as(#[trigger] before[i], pin(before[i])))
    &&& forall|j: int| 0 <= j < after.len() ==> pinned_by(before, pin).contains(#[trigger] after[j])
}

proof fn lemma_only_pins_changed(
    before: Seq<SessionView>,
    after: Seq<SessionView>,
    pin: spec_fn(SessionView) -> bool,
)
    requires
        after.to_multiset() == pinned_by(before, pin).to_multiset(),
    ensures
        only_pins_changed(before, after, pin),
{
    broadcast use vstd::seq_lib::group_to_multiset_ensures;

    let expected = pinned_by(before, pin);
    assert(after.len() == after.to_multiset().len());
    assert(expected.len() == expected.to_multiset().len());
    assert forall|i: int| 0 <= i < before.len() implies after.contains(
        pinned_as(#[trigger] before[i], pin(before[i])),
    ) by {
        assert(expected.contains(expected[i]));
        assert(expected.to_multiset().count(expected[i]) > 0);
    }
    assert forall|j: int| 0 <= j < after.len() implies expected.contains(#[trigger] after[j]) by {
        assert(after.contains(after[j]));
        assert(after.to_multiset().count(after[j]) > 0);
    }
}

/// The pin action on marked sessions pins all of them where one of them is not
/// pinned, and else takes the pins of all of them away. Every session that is not
/// marked keeps its pin as it was, and nothing else changes about any session. The
/// pinned sessions keep the order in which the sessions stood. The pins are to be saved.
pub proof fn pinning_marked_changes_the_marked(m: Model)
    requires
        m.marked != Set::<Seq<char>>::empty(),
    ensures
        ({
            let after = m.pin_toggled().0;
            let target = exists|i: int|
                0 <= i < m.sessions.len() && m.marked.contains((#[trigger] m.sessions[i]).name)
                    && !m.sessions[i].pinned;
            &&& only_pins_changed(
                m.sessions,
                after.sessions,
                |x: SessionView| if m.marked.contains(x.name) { target } else { x.pinned },
            )
            &&& sessions::is_arranged(after.sessions)
            &&& sessions::pinned_names(after.sessions) == sessions::pinned_names(
                pinned_by(m.sessions, |x: SessionView| if m.marked.contains(x.name) { target } else { x.pinned }),
            )
            &&& m.pin_toggled().1 == EffectView::SavePins
            &&& after == (Model { sessions: after.sessions, status: after.status, ..m })
        }),
{
    let after = m.pin_toggled().0;
    let target = exists|i: int|
        0 <= i < m.sessions.len() && m.marked.contains((#[trigger] m.sessions[i]).name) && !m.sessions[i].pinned;
    let pin = |x: SessionView| if m.marked.contains(x.name) { target } else { x.pinned };
    let changed = organize::with_pins(m.sessions, m.marked, target);
    assert(changed =~= pinned_by(m.sessions, pin));
    let names = sessions::pinned_names(changed);
    sessions::arranging_puts_pinned_first(changed, names);
    sessions::arranging_arranges(changed, names);
    sessions::arranging_keeps_pin_order(changed);
    assert(after.sessions == sessions::arranged(changed, names));
    lemma_only_pins_changed(m.sessions, after.sessions, pin);
}

/// The pin action without marks changes the pin of the session under the cursor,
/// and of no other; nothing else changes about any session. The pins are to be
/// saved. Without a session under the cursor it changes nothing but the status.
pub proof fn pinning_changes_the_selected(m: Model)
    requires
        m.is_countable(),
        m.marked == Set::<Seq<char>>::empty(),
        sessions::names_of(m.sessions).no_duplicates(),
    ensures
        match m.selected_row() {
            Some(VisibleRow::Session(i)) => {
                let after = m.pin_toggled().0;
                &&& only_pins_changed(
                    m.sessions,
                    after.sessions,
                    |x: SessionView| if x.name == m.sessions[i as int].name { !x.pinned } else { x.pinned },
                )
                &&& sessions::is_arranged(after.sessions)
                &&& m.pin_toggled().1 == EffectView::SavePins
                &&& after == (Model {
                    sessions: after.sessions,
                    status: after.status,
                    selected: after.selected,
                    ..m
                })
            },
            _ => m.pin_toggled().1 == EffectView::Continue && m.pin_toggled().0 == (Model {
                status: m.pin_toggled().0.status,
                ..m
            }),
        },
{
    if let Some(VisibleRow::Session(i)) = m.selected_row() {
        assert(m.list().contains(m.list()[m.selected]));
        crate::list_laws::panes_list_nothing_else(m, m.focus, VisibleRow::Session(i));
        let name = m.sessions[i as int].name;
        toggling_changes_one(m, i as int);
        assert(m.pin_toggled() == m.session_pin_toggled(i as int));
    }
}

/// Toggling the pin of a session changes its pin and that of no other, and nothing
/// else about any session.
pub proof fn toggling_changes_one(m: Model, i: int)
    requires
        0 <= i < m.sessions.len(),
        sessions::names_of(m.sessions).no_duplicates(),
    ensures
        ({
            let after = m.session_pin_toggled(i).0;
            &&& only_pins_changed(
                m.sessions,
                after.sessions,
                |x: SessionView| if x.name == m.sessions[i].name { !x.pinned } else { x.pinned },
            )
            &&& sessions::is_arranged(after.sessions)
            &&& m.session_pin_toggled(i).1 == EffectView::SavePins
            &&& after == (Model { sessions: after.sessions, status: after.status, selected: after.selected, ..m })
        }),
{
    let name = m.sessions[i].name;
    let after = m.session_pin_toggled(i).0;
    let pin = |x: SessionView| if x.name == name { !x.pinned } else { x.pinned };
    let changed = m.sessions.update(i, SessionView { pinned: !m.sessions[i].pinned, ..m.sessions[i] });
    assert forall|k: int| 0 <= k < m.sessions.len() implies #[trigger] changed[k] == pinned_by(m.sessions, pin)[k] by {
        if k != i {
            assert(sessions::names_of(m.sessions)[k] != sessions::names_of(m.sessions)[i]);
        }
    }
    assert(changed =~= pinned_by(m.sessions, pin));
    let names = sessions::pinned_names(changed);
    sessions::arranging_puts_pinned_first(changed, names);
    sessions::arranging_arranges(changed, names);
    sessions::arranging_keeps_pin_order(changed);
    assert(after.sessions == sessions::arranged(changed, names));
    lemma_only_pins_changed(m.sessions, after.sessions, pin);
}

/// Where no name repeats, the pin action on marked sessions leaves a session of
/// each name that there was, pinned as bulk pinning asks for if it is marked, and
/// else as it was.
pub proof fn marked_sessions_are_pinned_by_name(m: Model, i: int, j: int)
    requires
        m.marked != Set::<Seq<char>>::empty(),
        sessions::names_of(m.sessions).no_duplicates(),
        0 <= i < m.sessions.len(),
        0 <= j < m.pin_toggled().0.sessions.len(),
        m.pin_toggled().0.sessions[j].name == m.sessions[i].name,
    ensures
        ({
            let was = m.sessions[i];
            let is = m.pin_toggled().0.sessions[j];
            &&& !m.marked.contains(was.name) ==> is == was
            &&& m.marked.contains(was.name) ==> (is.pinned <==> exists|k: int|
                0 <= k < m.sessions.len() && m.marked.contains((#[trigger] m.sessions[k]).name)
                    && !m.sessions[k].pinned)
            &&& is.last_activity == was.last_activity
            &&& is.is_current == was.is_current
        }),
{
    pinning_marked_changes_the_marked(m);
    let target = exists|k: int|
        0 <= k < m.sessions.len() && m.marked.contains((#[trigger] m.sessions[k]).name) && !m.sessions[k].pinned;
    let pin = |x: SessionView| if m.marked.contains(x.name) { target } else { x.pinned };
    let after = m.pin_toggled().0.sessions;
    assert(pinned_by(m.sessions, pin).contains(after[j]));
    let k = pinned_by(m.sessions, pin).index_of(after[j]);
    assert(sessions::names_of(m.sessions)[k] == sessions::names_of(m.sessions)[i]);
    assert(k == i);
}

/// The pin key, and the pin action of the menu for marked sessions, do the pin action.
pub proof fn keys_pin(m: Model)
    ensures
        m.prompt is None && !m.searching ==> m.keyed(0x70) == m.pin_toggled(),
        m.prompt == Some(PromptView::Action { choice: 1 }) ==> m.keyed(0x0d) == (Model { prompt: None, ..m }).pin_toggled(),
{
}

} // verus!
