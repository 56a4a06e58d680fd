//! Records the refinement loop produces and the conversation it keeps.

use vstd::prelude::*;

use crate::patch::Patch;

verus! {

/// Who a conversation message came from.
#[derive(Clone, Copy, Debug, PartialEq, Eq)]
pub enum Role {
    User,
    Model,
}

/// One role-tagged message of the conversation kept within a single
/// refinement call.
#[derive(Debug)]
pub struct Message {
    pub role: Role,
    pub text: String,
}

impl Message {
    /// A user-role message.
    pub fn user(text: String) -> (r: Message)
        ensures
            r.role == Role::User,
            r.text == text,
    {
        Message { role: Role::User, text }
    }

    /// A model-role message.
    pub fn model(text: String) -> (r: Message)
        ensures
            r.role == Role::Model,
            r.text == text,
    {
        Message { role: Role::Model, text }
    }
}

/// Information about an individual refinement attempt.
#[derive(Debug)]
pub struct RefinementAttempt {
    pub patch: String,
    pub success: bool,
    pub error: Option<String>,
}

impl RefinementAttempt {
    /// Record a successful attempt.
    pub fn success(patch: String) -> (r: Self)
        ensures
            r.patch == patch,
            r.success,
            r.error is None,
    {
        Self { patch, success: true, error: None }
    }

    /// Record a failed attempt with its error message.
    pub fn failure(patch: String, error: String) -> (r: Self)
        ensures
            r.patch == patch,
            !r.success,
            r.error == Some(error),
    {
        Self { patch, success: false, error: Some(error) }
    }
}

/// Outcome of the refinement loop: the refined value, the full attempt
/// trail, and the patch that finally applied.
#[derive(Debug)]
pub struct RefinementOutcome<T> {
    pub value: T,
    pub attempts: Vec<RefinementAttempt>,
    pub patch: Option<Patch>,
}

impl<T> RefinementOutcome<T> {
    /// An outcome without a recorded patch.
    pub fn new(value: T, attempts: Vec<RefinementAttempt>) -> (r: Self)
        ensures
            r.value == value,
            r.attempts == attempts,
            r.patch is None,
    {
        Self { value, attempts, patch: None }
    }

    /// An outcome carrying the patch that produced it.
    pub fn with_patch(value: T, attempts: Vec<RefinementAttempt>, patch: Option<Patch>) -> (r:
        Self)
        ensures
            r.value == value,
            r.attempts == attempts,
            r.patch == patch,
    {
        Self { value, attempts, patch }
    }
}

} // verus!
