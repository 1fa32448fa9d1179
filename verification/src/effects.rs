//! What is to be done outside of the picker after a step.

use vstd::prelude::*;
use vstd::string::*;

use crate::prompts::{NameAction, NameActionView};
use crate::text;

verus! {

/// A name that was accepted, and that takes effect once the groups are saved.
#[derive(Debug)]
pub struct Submission {
    pub label: &'static str,
    pub value: String,
    pub action: NameAction,
    pub group_index: usize,
}

#[verifier::ext_equal]
pub struct SubmissionView {
    pub label: Seq<char>,
    pub value: Seq<char>,
    pub action: NameActionView,
    pub group_index: int,
}

impl View for Submission {
    type V = SubmissionView;

    open spec fn view(&self) -> SubmissionView {
        SubmissionView {
            label: self.label@,
            value: self.value@,
            action: self.action@,
            group_index: self.group_index as int,
        }
    }
}

/// What is to be done after a step.
#[derive(Debug)]
pub enum Effect {
    /// Nothing: wait for the next input.
    Continue,
    /// Write the names of the pinned sessions to the pin file.
    SavePins,
    /// Write the groups to the group file.
    SaveGroups,
    /// Write the groups to the group file, and hand back how it went with `finish_name`.
    SaveName(Submission),
    /// Switch to the session, and quit.
    Switch(String),
    /// Kill the session, and hand back the sessions that are left with `finish_kill`.
    Kill { session_name: String, next_selected_name: Option<String> },
    /// Kill the sessions, and hand back the sessions that are left with `finish_kill_all`.
    KillAll { session_names: Vec<String>, skipped_current: usize },
    /// Quit.
    Quit,
}

#[verifier::ext_equal]
pub enum EffectView {
    Continue,
    SavePins,
    SaveGroups,
    SaveName(SubmissionView),
    Switch(Seq<char>),
    Kill { session_name: Seq<char>, next_selected_name: Option<Seq<char>> },
    KillAll { session_names: Seq<Seq<char>>, skipped_current: int },
    Quit,
}

pub open spec fn text_view(t: Option<String>) -> Option<Seq<char>> {
    match t {
        Some(s) => Some(s@),
        None => None,
    }
}

impl View for Effect {
    type V = EffectView;

    open spec fn view(&self) -> EffectView {
        match self {
            Effect::Continue => EffectView::Continue,
            Effect::SavePins => EffectView::SavePins,
            Effect::SaveGroups => EffectView::SaveGroups,
            Effect::SaveName(submission) => EffectView::SaveName(submission@),
            Effect::Switch(name) => EffectView::Switch(name@),
            Effect::Kill { session_name, next_selected_name } => EffectView::Kill {
                session_name: session_name@,
                next_selected_name: text_view(*next_selected_name),
            },
            Effect::KillAll { session_names, skipped_current } => EffectView::KillAll {
                session_names: text::views(session_names@),
                skipped_current: *skipped_current as int,
            },
            Effect::Quit => EffectView::Quit,
        }
    }
}

} // verus!
