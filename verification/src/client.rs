//! Backend selection strategy and the test-double request view.

use vstd::prelude::*;

verus! {

/// Strategy for escalating to a more capable fallback backend during
/// refinement.
///
/// Escalation is one-way within a call: once the attempt index passes
/// `after_attempts` and a fallback exists, every later attempt uses the
/// fallback.
#[derive(Clone, Copy, Debug, Default, PartialEq, Eq)]
pub enum FallbackStrategy {
    /// Use only the primary backend.
    #[default]
    Disabled,
    /// Switch to the fallback backend after this many attempts.
    Escalate { after_attempts: usize },
}

/// Whether an attempt is served by the fallback backend.
pub open spec fn uses_fallback(
    strategy: FallbackStrategy,
    attempt_idx: int,
    has_fallback: bool,
) -> bool {
    match strategy {
        FallbackStrategy::Disabled => false,
        FallbackStrategy::Escalate { after_attempts } => attempt_idx > after_attempts
            && has_fallback,
    }
}

/// The escalation switch: before the threshold the primary serves; past
/// it, with a fallback present, the fallback serves, and the switch never
/// reverts as attempts grow.
pub proof fn lemma_escalation_switch(after_attempts: usize, i: int, j: int, has_fallback: bool)
    ensures
        i <= after_attempts ==> !uses_fallback(
            FallbackStrategy::Escalate { after_attempts },
            i,
            has_fallback,
        ),
        i > after_attempts && has_fallback ==> uses_fallback(
            FallbackStrategy::Escalate { after_attempts },
            i,
            has_fallback,
        ),
        uses_fallback(FallbackStrategy::Escalate { after_attempts }, i, has_fallback) && j >= i
            ==> uses_fallback(FallbackStrategy::Escalate { after_attempts }, j, has_fallback),
{
}

/// Minimal view of a request handed to a mock handler: the target type
/// name, the system instruction, and a preview of the prompt.
#[derive(Clone, Debug)]
pub struct MockRequest {
    /// The target Rust type name, for logging only.
    pub target: String,
    /// The system instruction, if any.
    pub system_instruction: Option<String>,
    /// A preview of the prompt messages.
    pub prompt_preview: String,
}

} // verus!
