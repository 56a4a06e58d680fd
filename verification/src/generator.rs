//! The capabilities a refinable type and a text backend must offer.

use vstd::prelude::*;

use crate::error::StructuredError;
use crate::json::JsonValue;

verus! {

/// Abstract interface for text generation.
///
/// This decouples the engine from any one model connection: a live
/// backend sends the prompt over the network, a test double replays a
/// script. `pause` is where an implementation sleeps between network
/// retries; a test double may simply count the calls.
pub trait TextGenerator {
    /// Generate a response for a prompt under a system instruction.
    fn generate_text(&mut self, system: &str, prompt: &str) -> Result<String, StructuredError>;

    /// Give the backend time before the next try, for the given number of
    /// milliseconds.
    fn pause(&mut self, delay_ms: u64);
}

/// A type with a JSON Schema document for the engine to enforce.
pub trait GeminiStructured {
    /// The schema the refined documents must satisfy.
    fn gemini_schema() -> JsonValue;
}

/// A type with a domain validation hook.
pub trait StructuredValidator {
    /// Domain logic check: a message describes why the value is invalid,
    /// or nothing when it is sound.
    fn validate(&self) -> Option<String>;
}

/// A type that converts to and from the document model.
pub trait DocumentCodec: Sized {
    /// Serialize the value as a document.
    fn to_document(&self) -> JsonValue;

    /// Parse a document into a value, when it has the right shape.
    fn from_document(doc: &JsonValue) -> Option<Self>;
}

/// Caller-supplied hooks a refinement call may carry: per-iteration
/// dynamic context and the custom validators.
///
/// `validate_deferred` is the slot for a slow, second-stage check that an
/// application would await: it runs after `validate_custom`, and only
/// once schema and domain validation have passed.
pub trait RefinementHooks<T> {
    /// Extra prompt context built from the current value.
    fn dynamic_context(&mut self, current: &T) -> Option<String>;

    /// The synchronous context-aware validator.
    fn validate_custom(&mut self, value: &T) -> Option<String>;

    /// The deferred (slow) context-aware validator.
    fn validate_deferred(&mut self, value: &T) -> Option<String>;
}

/// The hooks of a plain `refine` call: no context, no custom validators.
pub struct NoHooks;

impl<T> RefinementHooks<T> for NoHooks {
    fn dynamic_context(&mut self, _current: &T) -> Option<String> {
        None
    }

    fn validate_custom(&mut self, _value: &T) -> Option<String> {
        None
    }

    fn validate_deferred(&mut self, _value: &T) -> Option<String> {
        None
    }
}

} // verus!
