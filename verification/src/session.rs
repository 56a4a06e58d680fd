//! Stateful, human-in-the-loop session bookkeeping.
//!
//! A session holds the accepted configuration, its derived output, a
//! history of conversation and state changes, and at most one staged
//! change awaiting review. The network-bound turns (chatting, asking for
//! a change) live with the application; the state transitions here are
//! exact.

use vstd::prelude::*;

use crate::error::StructuredError;
use crate::models::{RefinementOutcome, Role};
use crate::patch::Patch;

verus! {

/// Classification of a history entry.
#[derive(Debug)]
pub enum EntryKind {
    /// Plain conversation.
    Conversation,
    /// A change of the configuration, with a short summary and an
    /// optional description of its observed effect.
    StateChange { patch_summary: String, effect_summary: Option<String> },
    /// A note the system itself added.
    SystemNote,
}

/// A history entry: its kind, the message it carries, and free-form
/// metadata.
#[derive(Debug)]
pub struct SessionEntry {
    pub kind: EntryKind,
    pub role: Role,
    pub text: String,
    pub metadata: Vec<(String, String)>,
}

impl SessionEntry {
    /// A conversation entry.
    pub fn new_chat(role: Role, text: String) -> (r: Self)
        ensures
            r.kind is Conversation,
            r.role == role,
            r.text == text,
            r.metadata@.len() == 0,
    {
        SessionEntry { kind: EntryKind::Conversation, role, text, metadata: Vec::new() }
    }

    /// A state-change entry.
    pub fn new_state_change(
        patch_summary: String,
        effect_summary: Option<String>,
        role: Role,
        text: String,
    ) -> (r: Self)
        ensures
            r.kind == (EntryKind::StateChange { patch_summary, effect_summary }),
            r.role == role,
            r.text == text,
            r.metadata@.len() == 0,
    {
        SessionEntry {
            kind: EntryKind::StateChange { patch_summary, effect_summary },
            role,
            text,
            metadata: Vec::new(),
        }
    }

    /// A system note.
    pub fn new_system_note(text: String) -> (r: Self)
        ensures
            r.kind is SystemNote,
            r.role == Role::User,
            r.text == text,
            r.metadata@.len() == 0,
    {
        SessionEntry { kind: EntryKind::SystemNote, role: Role::User, text, metadata: Vec::new() }
    }

    /// The entry with one more metadata pair.
    pub fn with_meta(self, key: String, value: String) -> (r: Self)
        ensures
            r.metadata@ == self.metadata@.push((key, value)),
            r.kind == self.kind,
            r.role == self.role,
            r.text == self.text,
    {
        let mut metadata = self.metadata;
        metadata.push((key, value));
        SessionEntry { metadata, kind: self.kind, role: self.role, text: self.text }
    }
}

/// The observed impact of a change, to help the model reason about
/// downstream effects.
#[derive(Debug)]
pub struct ChangeEffect {
    pub description: String,
    pub is_positive: Option<bool>,
}

/// A staged change awaiting user approval.
#[derive(Debug)]
pub struct PendingChange<C> {
    pub proposed_config: C,
    pub patch: Patch,
    pub reasoning: Option<String>,
}

/// A stateful, human-in-the-loop session.
#[derive(Debug)]
pub struct InteractiveSession<C, O> {
    /// The currently accepted configuration.
    pub config: C,
    /// Derived output computed from the configuration.
    pub output: Option<O>,
    /// Conversation and state-change history.
    pub history: Vec<SessionEntry>,
    /// A proposed change awaiting review.
    pub pending_change: Option<PendingChange<C>>,
}

impl<C, O> InteractiveSession<C, O> {
    /// A fresh session over a configuration and optional initial output.
    pub fn new(initial_config: C, initial_output: Option<O>) -> (r: Self)
        ensures
            r.config == initial_config,
            r.output == initial_output,
            r.history@.len() == 0,
            r.pending_change is None,
    {
        InteractiveSession {
            config: initial_config,
            output: initial_output,
            history: Vec::new(),
            pending_change: None,
        }
    }

    /// Replace the derived output after recomputing it externally.
    pub fn update_output(&mut self, output: Option<O>)
        ensures
            final(self).output == output,
            final(self).config == old(self).config,
            final(self).history == old(self).history,
            final(self).pending_change == old(self).pending_change,
    {
        self.output = output;
    }

    /// Stage a proposed change for review.
    pub fn stage_change(&mut self, change: PendingChange<C>)
        ensures
            final(self).pending_change == Some(change),
            final(self).config == old(self).config,
            final(self).history == old(self).history,
    {
        self.pending_change = Some(change);
    }

    /// Accept the staged change and promote it to the active
    /// configuration. An error comes back exactly when nothing is
    /// staged.
    pub fn accept_change(&mut self) -> (r: Result<(), StructuredError>)
        ensures
            (r is Ok) == (old(self).pending_change is Some),
            r is Ok ==> {
                &&& final(self).config == old(self).pending_change->Some_0.proposed_config
                &&& final(self).pending_change is None
                &&& final(self).history@.len() == old(self).history@.len() + 1
            },
            r is Err ==> *final(self) == *old(self),
    {
        proof {
            reveal_strlit("Change accepted.");
        }
        let mut taken: Option<PendingChange<C>> = None;
        core::mem::swap(&mut taken, &mut self.pending_change);
        match taken {
            Some(pending) => {
                self.config = pending.proposed_config;
                self.history.push(
                    SessionEntry::new_system_note(String::from_str("Change accepted.")),
                );
                Ok(())
            }
            None => Err(
                StructuredError::Context(String::from_str("No pending change to accept")),
            ),
        }
    }

    /// Decline the staged change. An error comes back exactly when
    /// nothing is staged.
    pub fn decline_change(&mut self) -> (r: Result<(), StructuredError>)
        ensures
            (r is Ok) == (old(self).pending_change is Some),
            r is Ok ==> {
                &&& final(self).config == old(self).config
                &&& final(self).pending_change is None
                &&& final(self).history@.len() == old(self).history@.len() + 1
            },
            r is Err ==> *final(self) == *old(self),
    {
        proof {
            reveal_strlit("Change declined.");
        }
        match &self.pending_change {
            Some(_) => {
                self.pending_change = None;
                self.history.push(
                    SessionEntry::new_system_note(String::from_str("Change declined.")),
                );
                Ok(())
            }
            None => Err(
                StructuredError::Context(String::from_str("No pending change to decline")),
            ),
        }
    }

    /// Squash a refinement outcome into a single history entry: a state
    /// change on success, a system note on failure, and on success the
    /// refined value becomes the configuration.
    pub fn record_refinement_outcome(&mut self, instruction: &str, outcome: RefinementOutcome<C>)
        ensures
            outcome.patch is Some ==> {
                &&& final(self).config == outcome.value
                &&& final(self).history@.len() == old(self).history@.len() + 1
                &&& final(self).history@.last().kind is StateChange
            },
            outcome.patch is None ==> {
                &&& final(self).config == old(self).config
                &&& final(self).history@.len() == old(self).history@.len() + 1
                &&& final(self).history@.last().kind is SystemNote
            },
    {
        match outcome.patch {
            Some(_) => {
                let mut summary = String::from_str("Applied changes based on: '");
                summary.append(instruction);
                summary.append("'");
                let mut text = String::from_str("I have updated the configuration.");
                self.history.push(
                    SessionEntry::new_state_change(summary, None, Role::Model, text),
                );
                self.config = outcome.value;
            }
            None => {
                let mut text = String::from_str("Failed to apply change: '");
                text.append(instruction);
                text.append("'.");
                match outcome.attempts.len() {
                    0 => {}
                    n => {
                        match &outcome.attempts[n - 1].error {
                            Some(e) => {
                                text.append(" Last error: ");
                                text.append(e.as_str());
                            }
                            None => {}
                        }
                    }
                }
                self.history.push(SessionEntry::new_system_note(text));
            }
        }
    }
}

} // verus!
