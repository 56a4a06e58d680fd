//! The error taxonomy of the library.

use vstd::prelude::*;

verus! {

/// What can go wrong in a structured-output operation.
///
/// The retryable variants are the network-level ones: rate limits,
/// unavailability, and backend responses with the matching status codes.
/// Everything else is either fed back to the model within the refinement
/// loop or surfaced to the caller at once.
#[derive(Debug)]
pub enum StructuredError {
    /// A document or response was not valid JSON.
    Json(String),
    /// A patch payload that cannot be used.
    InvalidPatch(String),
    /// Schema handling failed.
    Schema(String),
    /// Validation failed.
    Validation(String),
    /// The refinement loop ran out of attempts.
    RefinementExhausted { retries: usize, last_error: String },
    /// A contextual failure outside the other kinds.
    Context(String),
    /// The engine or client is misconfigured.
    Config(String),
    /// The backend asked for a pause before the next request.
    RateLimited { retry_after_secs: u64 },
    /// The backend is temporarily unavailable.
    ServiceUnavailable { message: String, attempts: usize },
    /// A backend response with an HTTP status code.
    Backend { code: u32, message: String },
}

impl StructuredError {
    /// Whether a retry may succeed: rate limits, unavailability, and
    /// backend status 429 or 503.
    pub fn is_retryable(&self) -> (r: bool)
        ensures
            r == match self {
                StructuredError::RateLimited { .. } => true,
                StructuredError::ServiceUnavailable { .. } => true,
                StructuredError::Backend { code, .. } => *code == 503 || *code == 429,
                _ => false,
            },
    {
        match self {
            StructuredError::RateLimited { .. } => true,
            StructuredError::ServiceUnavailable { .. } => true,
            StructuredError::Backend { code, .. } => *code == 503 || *code == 429,
            _ => false,
        }
    }

    /// The delay in seconds the error itself suggests, when it does.
    pub fn retry_delay(&self) -> (r: Option<u64>)
        ensures
            r == match self {
                StructuredError::RateLimited { retry_after_secs } => Some(*retry_after_secs),
                StructuredError::ServiceUnavailable { .. } => Some(5u64),
                _ => None::<u64>,
            },
    {
        match self {
            StructuredError::RateLimited { retry_after_secs } => Some(*retry_after_secs),
            StructuredError::ServiceUnavailable { .. } => Some(5),
            _ => None,
        }
    }

    /// A short human-readable description.
    pub fn message(&self) -> String {
        let mut out = String::new();
        match self {
            StructuredError::Json(m) => {
                out.append("JSON error: ");
                out.append(m.as_str());
            }
            StructuredError::InvalidPatch(m) => {
                out.append("invalid patch payload: ");
                out.append(m.as_str());
            }
            StructuredError::Schema(m) => {
                out.append("schema generation failed: ");
                out.append(m.as_str());
            }
            StructuredError::Validation(m) => {
                out.append("validation failed: ");
                out.append(m.as_str());
            }
            StructuredError::RefinementExhausted { last_error, .. } => {
                out.append("refinement exhausted; last error: ");
                out.append(last_error.as_str());
            }
            StructuredError::Context(m) => {
                out.append("context error: ");
                out.append(m.as_str());
            }
            StructuredError::Config(m) => {
                out.append("configuration error: ");
                out.append(m.as_str());
            }
            StructuredError::RateLimited { .. } => {
                out.append("rate limited");
            }
            StructuredError::ServiceUnavailable { message, .. } => {
                out.append("service unavailable: ");
                out.append(message.as_str());
            }
            StructuredError::Backend { message, .. } => {
                out.append("backend error: ");
                out.append(message.as_str());
            }
        }
        out
    }
}

/// What display truncation keeps: the whole text when it fits, else the
/// first `max_len` characters with a truncation notice naming the full
/// length.
pub open spec fn truncated_display_spec(s: Seq<char>, max_len: int) -> Seq<char> {
    if s.len() <= max_len {
        s
    } else {
        s.subrange(0, max_len) + "... [truncated, "@ + crate::render::nat_text(s.len() as int)
            + " total chars]"@
    }
}

/// Truncate a long text for display, keeping a notice with the full
/// length.
pub fn truncate_for_display(text: &str, max_len: usize) -> (r: String)
    ensures
        r@ == truncated_display_spec(text@, max_len as int),
{
    let n = text.unicode_len();
    if n <= max_len {
        proof {
            assert(text@.subrange(0, n as int) =~= text@);
        }
        String::from_str(text.substring_char(0, n))
    } else {
        let mut out = String::from_str(text.substring_char(0, max_len));
        out.append("... [truncated, ");
        crate::render::append_nat(&mut out, n as u64);
        out.append(" total chars]");
        proof {
            assert(out@ =~= truncated_display_spec(text@, max_len as int));
        }
        out
    }
}

/// Extension trait for adding context to errors.
pub trait ResultExt<T>: Sized {
    /// Wrap the error, when there is one, under a context line.
    fn with_context(self, context: String) -> Result<T, StructuredError>;
}

impl<T> ResultExt<T> for Result<T, StructuredError> {
    /// The value passes through; an error becomes a `Context` error whose
    /// text leads with the given context.
    fn with_context(self, context: String) -> (r: Result<T, StructuredError>)
        ensures
            (r is Ok) == (self is Ok),
            r matches Ok(v) ==> self matches Ok(w) && v == w,
            r is Err ==> r->Err_0 is Context,
    {
        match self {
            Ok(v) => Ok(v),
            Err(e) => {
                let mut text = context;
                text.append(": ");
                text.append(e.message().as_str());
                Err(StructuredError::Context(text))
            }
        }
    }
}

} // verus!
