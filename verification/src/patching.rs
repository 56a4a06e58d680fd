//! The refinement engine: propose a patch, apply it, validate it, react
//! to failure, within a bounded number of attempts.

use vstd::prelude::*;

use crate::client::{uses_fallback, FallbackStrategy};
use crate::error::StructuredError;
use crate::generator::{
    DocumentCodec, GeminiStructured, NoHooks, RefinementHooks, StructuredValidator, TextGenerator,
};
use crate::json::JsonValue;
use crate::helpers::str_views;
use crate::models::{Message, RefinementAttempt, RefinementOutcome, Role};
use crate::normalize::normalize_candidate;
use crate::parse::{clean_patch_text, parse_patch_text};
use crate::patch::{apply, reorder_removals, Patch, PatchStrategy};
use crate::validate::validation_errors;

verus! {

/// Strategy for handling validation failures during refinement.
#[derive(Clone, Copy, Debug, Default, PartialEq, Eq)]
pub enum ValidationFailureStrategy {
    /// Keep the invalid state and ask the model to fix it.
    #[default]
    IterateForward,
    /// Revert to the last valid state and ask for a different approach.
    Rollback,
}

/// Strategy for handling array modifications in patches.
#[derive(Clone, Copy, Debug, Default, PartialEq, Eq)]
pub enum ArrayPatchStrategy {
    /// Ask the model to replace a whole array rather than edit elements.
    #[default]
    ReplaceWhole,
    /// Apply patches as they come, index shifts and all.
    Direct,
    /// Reorder patches so removals run highest index first.
    ReorderRemovals,
}

/// Configuration for the refinement engine.
#[derive(Clone, Copy, Debug, PartialEq, Eq)]
pub struct RefinementConfig {
    /// Maximum number of patch attempts.
    pub max_retries: usize,
    /// Strategy for applying a patch to the working document.
    pub patch_strategy: PatchStrategy,
    /// Strategy for array edits.
    pub array_strategy: ArrayPatchStrategy,
    /// Network retries for transient generation failures.
    pub network_retries: usize,
    /// Strategy for backend escalation after repeated failures.
    pub fallback_strategy: FallbackStrategy,
    /// Strategy for handling validation failures.
    pub validation_failure_strategy: ValidationFailureStrategy,
}

/// The configuration a fresh engine starts from.
pub open spec fn default_config() -> RefinementConfig {
    RefinementConfig {
        max_retries: 3,
        patch_strategy: PatchStrategy::PartialApply,
        array_strategy: ArrayPatchStrategy::ReplaceWhole,
        network_retries: 3,
        fallback_strategy: FallbackStrategy::Disabled,
        validation_failure_strategy: ValidationFailureStrategy::IterateForward,
    }
}

impl Default for RefinementConfig {
    fn default() -> (r: Self)
        ensures
            r == default_config(),
    {
        RefinementConfig {
            max_retries: 3,
            patch_strategy: PatchStrategy::PartialApply,
            array_strategy: ArrayPatchStrategy::ReplaceWhole,
            network_retries: 3,
            fallback_strategy: FallbackStrategy::Disabled,
            validation_failure_strategy: ValidationFailureStrategy::IterateForward,
        }
    }
}

/// What one refinement call ends in.
pub enum RefinementResult<T> {
    /// The instruction was satisfied: the refined value, the attempt
    /// trail, and the patch that produced it.
    Refined(RefinementOutcome<T>),
    /// Every attempt failed.
    Exhausted { retries: usize, last_error: String, attempts: Vec<RefinementAttempt> },
    /// The call could not go on: a fatal network failure, or a working
    /// document the target type no longer reads.
    Aborted { error: StructuredError, attempts: Vec<RefinementAttempt> },
}

/// Powers of two, for the exponential backoff.
pub open spec fn pow2(n: int) -> int
    decreases n,
{
    if n <= 0 {
        1
    } else {
        2 * pow2(n - 1)
    }
}

/// The backoff delay before network retry `net_try`: 200ms doubled each
/// try, capped at 200 * 2^20.
pub open spec fn backoff_spec(net_try: int) -> int {
    if net_try >= 20 {
        200 * pow2(20)
    } else {
        200 * pow2(net_try)
    }
}

/// Compute the exponential backoff delay in milliseconds.
#[verifier::loop_isolation(false)]
pub fn backoff_delay_ms(net_try: usize) -> (r: u64)
    ensures
        r as int == backoff_spec(net_try as int),
{
    let steps: usize = if net_try >= 20 {
        20
    } else {
        net_try
    };
    let mut d: u64 = 200;
    let mut i: usize = 0;
    while i < steps
        invariant
            i <= steps <= 20,
            d as int == 200 * pow2(i as int),
            d <= 200 * 0x100000,
        decreases steps - i,
    {
        proof {
            lemma_pow2_bound(i as int + 1);
        }
        d = d * 2;
        i = i + 1;
    }
    d
}

proof fn lemma_pow2_pos(n: int)
    ensures
        pow2(n) >= 1,
    decreases n,
{
    if n > 0 {
        lemma_pow2_pos(n - 1);
    }
}

proof fn lemma_pow2_bound(n: int)
    requires
        n <= 20,
    ensures
        pow2(n) <= 0x100000,
        pow2(n) >= 1,
    decreases 20 - n,
{
    lemma_pow2_pos(n);
    if n <= 0 {
    } else if n == 20 {
        reveal_with_fuel(pow2, 21);
        assert(pow2(20) == 0x100000);
    } else {
        lemma_pow2_bound(n + 1);
        lemma_pow2_pos(n - 1);
        assert(pow2(n + 1) == 2 * pow2(n));
    }
}

/// The delay before the next network retry: the server's own suggestion
/// in seconds when the error carries one, else the exponential backoff.
pub fn network_retry_delay_ms(err: &StructuredError, net_try: usize) -> (r: u64)
    ensures
        match err {
            StructuredError::RateLimited { retry_after_secs } => (*retry_after_secs as int)
                * 1000 <= u64::MAX ==> r as int == (*retry_after_secs as int) * 1000,
            StructuredError::ServiceUnavailable { .. } => r == 5000u64,
            _ => r as int == backoff_spec(net_try as int),
        },
{
    match err.retry_delay() {
        Some(secs) => {
            if secs > u64::MAX / 1000 {
                u64::MAX
            } else {
                secs * 1000
            }
        }
        None => backoff_delay_ms(net_try),
    }
}

/// Runs an instruction-driven JSON Patch refinement loop against a text
/// generation backend, with an optional fallback backend to escalate to.
pub struct RefinementEngine<G> {
    pub primary: G,
    pub fallback: Option<G>,
    pub config: RefinementConfig,
}

impl<G: TextGenerator> RefinementEngine<G> {
    /// A new engine over a primary backend and an optional fallback,
    /// stored as given, under the default configuration.
    pub fn new(primary: G, fallback: Option<G>) -> (r: Self)
        ensures
            r.config == default_config(),
            r.primary == primary,
            r.fallback == fallback,
    {
        RefinementEngine { primary, fallback, config: RefinementConfig::default() }
    }

    /// Replace the whole configuration; the backends are untouched.
    pub fn with_config(self, config: RefinementConfig) -> (r: Self)
        ensures
            r.config == config,
            r.primary == self.primary,
            r.fallback == self.fallback,
    {
        RefinementEngine { config, ..self }
    }

    /// Set the maximum number of attempts, at least one; everything else
    /// is untouched.
    pub fn with_max_retries(self, max_retries: usize) -> (r: Self)
        ensures
            r.config.max_retries == if max_retries >= 1 {
                max_retries
            } else {
                1usize
            },
            r.config == (RefinementConfig { max_retries: r.config.max_retries, ..self.config }),
            r.primary == self.primary,
            r.fallback == self.fallback,
    {
        let m = if max_retries >= 1 {
            max_retries
        } else {
            1
        };
        RefinementEngine {
            config: RefinementConfig { max_retries: m, ..self.config },
            ..self
        }
    }

    /// Set the array patch strategy; everything else is untouched.
    pub fn with_array_strategy(self, strategy: ArrayPatchStrategy) -> (r: Self)
        ensures
            r.config.array_strategy == strategy,
            r.config == (RefinementConfig { array_strategy: strategy, ..self.config }),
            r.primary == self.primary,
            r.fallback == self.fallback,
    {
        RefinementEngine {
            config: RefinementConfig { array_strategy: strategy, ..self.config },
            ..self
        }
    }

    /// Whether the given attempt is served by the fallback backend.
    pub fn fallback_active(&self, attempt_idx: usize) -> (r: bool)
        ensures
            r == uses_fallback(
                self.config.fallback_strategy,
                attempt_idx as int,
                self.fallback is Some,
            ),
    {
        match self.config.fallback_strategy {
            FallbackStrategy::Disabled => false,
            FallbackStrategy::Escalate { after_attempts } => attempt_idx > after_attempts
                && self.fallback.is_some(),
        }
    }

    /// The fixed system instruction, with array guidance per strategy.
    fn build_system_prompt(&self) -> (r: String)
        ensures
            r@ == system_prompt_spec(self.config.array_strategy),
    {
        let mut out = String::from_str(
            "You are a JSON Patch generator. Given the current JSON value and the target schema, return ONLY a valid RFC6902 JSON Patch array that transforms the current value to satisfy the instruction and schema. Do not wrap in code fences or prose.",
        );
        match self.config.array_strategy {
            ArrayPatchStrategy::ReplaceWhole => {
                out.append(
                    "\n\nIMPORTANT: When modifying arrays, prefer a single replace of the entire array rather than individual add or remove operations on array indices. This prevents index shift issues when patches are applied sequentially.",
                );
            }
            ArrayPatchStrategy::ReorderRemovals => {
                out.append(
                    "\n\nWhen removing multiple array elements, list removals in reverse index order (highest index first) to prevent index shift issues.",
                );
            }
            ArrayPatchStrategy::Direct => {}
        }
        proof {
            assert(out@ =~= system_prompt_spec(self.config.array_strategy));
        }
        out
    }
}

/// The system instruction handed to the backend: the fixed patch-writing
/// brief, then the array guidance the strategy asks for, and nothing
/// else.
pub open spec fn system_prompt_spec(strategy: ArrayPatchStrategy) -> Seq<char> {
    "You are a JSON Patch generator. Given the current JSON value and the target schema, return ONLY a valid RFC6902 JSON Patch array that transforms the current value to satisfy the instruction and schema. Do not wrap in code fences or prose."@
        + match strategy {
        ArrayPatchStrategy::ReplaceWhole => "\n\nIMPORTANT: When modifying arrays, prefer a single replace of the entire array rather than individual add or remove operations on array indices. This prevents index shift issues when patches are applied sequentially."@,
        ArrayPatchStrategy::ReorderRemovals => "\n\nWhen removing multiple array elements, list removals in reverse index order (highest index first) to prevent index shift issues."@,
        ArrayPatchStrategy::Direct => Seq::<char>::empty(),
    }
}

/// Error lines joined with `; `.
pub open spec fn joined_errors(lines: Seq<Seq<char>>) -> Seq<char>
    decreases lines.len(),
{
    if lines.len() == 0 {
        Seq::empty()
    } else if lines.len() == 1 {
        lines[0]
    } else {
        joined_errors(lines.drop_last()) + "; "@ + lines.last()
    }
}

/// A corrective conversation message: the failure lead and detail, then
/// the reminder of the original instruction.
pub open spec fn corrective_spec(
    lead: Seq<char>,
    detail: Seq<char>,
    instruction: Seq<char>,
) -> Seq<char> {
    lead + detail + ".\n\nREMINDER - Original Instruction: "@ + instruction
        + "\nFix the errors while ensuring the original instruction is still met."@
}

/// The prefix a conversation line carries for its role.
pub open spec fn role_prefix(role: Role) -> Seq<char> {
    match role {
        Role::User => "user: "@,
        Role::Model => "model: "@,
    }
}

/// The conversation rendered into the prompt, one line per message.
pub open spec fn conversation_text(msgs: Seq<Message>) -> Seq<char>
    decreases msgs.len(),
{
    if msgs.len() == 0 {
        Seq::empty()
    } else {
        conversation_text(msgs.drop_last()) + role_prefix(msgs.last().role) + msgs.last().text@
            + "\n"@
    }
}

/// The per-iteration prompt handed to the backend: the working document,
/// the target schema, the optional dynamic context, the conversation so
/// far, and the instruction.
pub open spec fn prompt_spec(
    working_text: Seq<char>,
    schema_text: Seq<char>,
    context: Option<Seq<char>>,
    conversation: Seq<Message>,
    instruction: Seq<char>,
) -> Seq<char> {
    "Current JSON:\n"@ + working_text + "\n\nTarget schema:\n"@ + schema_text + "\n\n"@
        + (match context {
        Some(c) => "Additional context:\n"@ + c + "\n\n"@,
        None => Seq::<char>::empty(),
    }) + conversation_text(conversation) + "Instruction:\n"@ + instruction
        + "\n\nReturn a JSON Patch array:"@
}

/// Join error lines into one `; `-separated message.
#[verifier::loop_isolation(false)]
fn join_errors(errors: &Vec<String>) -> (r: String)
    ensures
        r@ == joined_errors(str_views(errors@)),
{
    let ghost lines = str_views(errors@);
    let mut out = String::new();
    let mut i: usize = 0;
    proof {
        assert(lines.subrange(0, 0) =~= Seq::<Seq<char>>::empty());
        assert(out@ =~= joined_errors(lines.subrange(0, 0)));
    }
    while i < errors.len()
        invariant
            i <= errors.len(),
            out@ =~= joined_errors(lines.subrange(0, i as int)),
        decreases errors.len() - i,
    {
        if i > 0 {
            out.append("; ");
        }
        out.append(errors[i].as_str());
        proof {
            let pre1 = lines.subrange(0, i + 1 as int);
            assert(pre1.drop_last() =~= lines.subrange(0, i as int));
            assert(pre1.last() == lines[i as int]);
            assert(out@ =~= joined_errors(pre1));
        }
        i = i + 1;
    }
    proof {
        assert(lines.subrange(0, errors@.len() as int) =~= lines);
    }
    out
}

/// A corrective conversation message: the failure, then a reminder of the
/// original instruction.
fn corrective_message(lead: &str, detail: &str, instruction: &str) -> (r: String)
    ensures
        r@ == corrective_spec(lead@, detail@, instruction@),
{
    let mut out = String::from_str(lead);
    out.append(detail);
    out.append(".\n\nREMINDER - Original Instruction: ");
    out.append(instruction);
    out.append("\nFix the errors while ensuring the original instruction is still met.");
    proof {
        assert(out@ =~= corrective_spec(lead@, detail@, instruction@));
    }
    out
}

/// Assemble the per-iteration prompt.
#[verifier::loop_isolation(false)]
fn build_prompt(
    working_text: &String,
    schema_text: &String,
    dynamic_context: &Option<String>,
    conversation: &Vec<Message>,
    instruction: &str,
) -> (r: String)
    ensures
        r@ == prompt_spec(
            working_text@,
            schema_text@,
            (match dynamic_context {
                Some(c) => Some(c@),
                None => None,
            }),
            conversation@,
            instruction@,
        ),
{
    let mut prompt = String::from_str("Current JSON:\n");
    prompt.append(working_text.as_str());
    prompt.append("\n\nTarget schema:\n");
    prompt.append(schema_text.as_str());
    prompt.append("\n\n");
    match dynamic_context {
        Some(ctx) => {
            prompt.append("Additional context:\n");
            prompt.append(ctx.as_str());
            prompt.append("\n\n");
        }
        None => {}
    }
    let ghost head = prompt@;
    let mut ci: usize = 0;
    proof {
        assert(conversation@.subrange(0, 0) =~= Seq::<Message>::empty());
        assert(prompt@ =~= head + conversation_text(conversation@.subrange(0, 0)));
    }
    while ci < conversation.len()
        invariant
            ci <= conversation.len(),
            prompt@ =~= head + conversation_text(conversation@.subrange(0, ci as int)),
        decreases conversation.len() - ci,
    {
        match conversation[ci].role {
            Role::User => {
                prompt.append("user: ");
            }
            Role::Model => {
                prompt.append("model: ");
            }
        }
        prompt.append(conversation[ci].text.as_str());
        prompt.append("\n");
        proof {
            let pre1 = conversation@.subrange(0, ci + 1 as int);
            assert(pre1.drop_last() =~= conversation@.subrange(0, ci as int));
            assert(pre1.last() == conversation@[ci as int]);
            assert(prompt@ =~= head + conversation_text(pre1));
        }
        ci = ci + 1;
    }
    proof {
        assert(conversation@.subrange(0, conversation@.len() as int) =~= conversation@);
    }
    prompt.append("Instruction:\n");
    prompt.append(instruction);
    prompt.append("\n\nReturn a JSON Patch array:");
    proof {
        assert(prompt@ =~= prompt_spec(
            working_text@,
            schema_text@,
            (match dynamic_context {
                Some(c) => Some(c@),
                None => None,
            }),
            conversation@,
            instruction@,
        ));
    }
    prompt
}

impl<G: TextGenerator> RefinementEngine<G> {
    /// Run the refinement loop: up to `max_retries` attempts of propose,
    /// parse, reorder, apply, normalize, schema-validate, domain-validate
    /// and custom-validate, with corrective feedback recorded between
    /// attempts.
    ///
    /// Whatever the backend returns, the attempt trail is consistent: a
    /// refined outcome ends in one successful attempt after only failed
    /// ones; exhaustion records exactly `max_retries` failed attempts and
    /// carries the last error; an abort (fatal network failure, or a
    /// working document the target type no longer reads) keeps the failed
    /// attempts made so far.
    #[verifier::loop_isolation(false)]
    pub fn execute_refinement<T, H>(
        &mut self,
        current: &T,
        instruction: &str,
        initial_history: Vec<Message>,
        hooks: &mut H,
    ) -> (r: RefinementResult<T>) where
        T: GeminiStructured + StructuredValidator + DocumentCodec,
        H: RefinementHooks<T>,

        ensures
            final(self).config == old(self).config,
            match r {
                RefinementResult::Refined(outcome) => {
                    &&& 1 <= outcome.attempts@.len() <= old(self).config.max_retries
                    &&& outcome.attempts@.last().success
                    &&& forall|i: int|
                        0 <= i < outcome.attempts@.len() - 1 ==> !(
                        #[trigger] outcome.attempts@[i]).success
                    &&& outcome.patch is Some
                    &&& crate::parse::patch_text_ok(
                        crate::parse::clean_patch_spec(outcome.attempts@.last().patch@),
                    )
                },
                RefinementResult::Exhausted { retries, last_error, attempts } => {
                    &&& retries == old(self).config.max_retries
                    &&& attempts@.len() == old(self).config.max_retries
                    &&& forall|i: int|
                        0 <= i < attempts@.len() ==> !(#[trigger] attempts@[i]).success
                    &&& attempts@.len() > 0 ==> attempts@.last().error is Some
                        && attempts@.last().error->Some_0@ == last_error@
                },
                RefinementResult::Aborted { attempts, .. } => {
                    &&& attempts@.len() <= old(self).config.max_retries
                    &&& forall|i: int|
                        0 <= i < attempts@.len() ==> !(#[trigger] attempts@[i]).success
                },
            },
    {
        let cfg = self.config;
        let max = cfg.max_retries;
        let schema = T::gemini_schema();
        let system_prompt = self.build_system_prompt();
        let mut working: JsonValue = current.to_document();
        let mut attempts: Vec<RefinementAttempt> = Vec::new();
        let mut conversation: Vec<Message> = initial_history;
        let mut attempt_count: usize = 0;
        while attempt_count < max
            invariant
                attempt_count <= max,
                attempts@.len() == attempt_count as int,
                forall|i: int|
                    0 <= i < attempts@.len() ==> !(#[trigger] attempts@[i]).success
                        && attempts@[i].error is Some,
                self.config == cfg,
            decreases max - attempt_count,
        {
            let attempt_idx = attempt_count + 1;
            let previous_valid = working.clone();
            let current_struct: T = match T::from_document(&working) {
                Some(t) => t,
                None => {
                    return RefinementResult::Aborted {
                        error: StructuredError::Json(
                            String::from_str(
                                "the working document no longer reads as the target type",
                            ),
                        ),
                        attempts,
                    };
                }
            };
            let dynamic_context = hooks.dynamic_context(&current_struct);
            let working_text = working.to_text();
            let schema_text = schema.to_text();
            let prompt = build_prompt(
                &working_text,
                &schema_text,
                &dynamic_context,
                &conversation,
                instruction,
            );

            let use_fb = self.fallback_active(attempt_idx);
            let net_retries: usize = if cfg.network_retries > 1000000 {
                1000000
            } else {
                cfg.network_retries
            };
            let mut response: Option<String> = None;
            let mut fatal: Option<StructuredError> = None;
            let mut net_try: usize = 0;
            while net_try <= net_retries && response.is_none() && fatal.is_none()
                invariant
                    net_try <= net_retries + 1,
                    self.config == cfg,
                decreases net_retries + 1 - net_try,
            {
                let res = if use_fb {
                    match &mut self.fallback {
                        Some(fb) => fb.generate_text(system_prompt.as_str(), prompt.as_str()),
                        None => self.primary.generate_text(
                            system_prompt.as_str(),
                            prompt.as_str(),
                        ),
                    }
                } else {
                    self.primary.generate_text(system_prompt.as_str(), prompt.as_str())
                };
                match res {
                    Ok(text) => {
                        if crate::helpers::is_blank_str(text.as_str()) {
                            if net_try < net_retries {
                                let delay = backoff_delay_ms(net_try);
                                if use_fb {
                                    match &mut self.fallback {
                                        Some(fb) => fb.pause(delay),
                                        None => self.primary.pause(delay),
                                    }
                                } else {
                                    self.primary.pause(delay);
                                }
                            } else {
                                fatal = Some(
                                    StructuredError::Context(
                                        String::from_str(
                                            "the backend returned an empty response",
                                        ),
                                    ),
                                );
                            }
                        } else {
                            response = Some(text);
                        }
                    }
                    Err(e) => {
                        if e.is_retryable() && net_try < net_retries {
                            let delay = network_retry_delay_ms(&e, net_try);
                            if use_fb {
                                match &mut self.fallback {
                                    Some(fb) => fb.pause(delay),
                                    None => self.primary.pause(delay),
                                }
                            } else {
                                self.primary.pause(delay);
                            }
                        } else {
                            fatal = Some(e);
                        }
                    }
                }
                net_try = net_try + 1;
            }
            match fatal {
                Some(e) => {
                    return RefinementResult::Aborted { error: e, attempts };
                }
                None => {}
            }
            let patch_text: String = match response {
                Some(t) => t,
                None => {
                    return RefinementResult::Aborted {
                        error: StructuredError::Context(
                            String::from_str("refinement request failed"),
                        ),
                        attempts,
                    };
                }
            };
            conversation.push(Message::model(patch_text.clone()));

            let cleaned = clean_patch_text(patch_text.as_str());
            let mut patch: Patch = match parse_patch_text(cleaned) {
                Ok(p) => p,
                Err(msg) => {
                    let mut detail = String::from_str(
                        "Model response was not valid JSON Patch: ",
                    );
                    detail.append(msg.as_str());
                    attempts.push(RefinementAttempt::failure(patch_text.clone(), detail.clone()));
                    conversation.push(
                        Message::user(
                            corrective_message(
                                "The patch could not be parsed: ",
                                detail.as_str(),
                                instruction,
                            ),
                        ),
                    );
                    attempt_count = attempt_count + 1;
                    continue ;
                }
            };
            match cfg.array_strategy {
                ArrayPatchStrategy::ReorderRemovals => {
                    patch = reorder_removals(patch);
                }
                _ => {}
            }

            let applied = apply(&working, &patch, &cfg.patch_strategy);
            let next_value = applied.0;
            let patch_errors = applied.1;
            if patch_errors.len() > 0 {
                let msg = join_errors(&patch_errors);
                attempts.push(RefinementAttempt::failure(patch_text.clone(), msg.clone()));
                conversation.push(
                    Message::user(
                        corrective_message(
                            "Some patch operations failed: ",
                            msg.as_str(),
                            instruction,
                        ),
                    ),
                );
                match cfg.patch_strategy {
                    PatchStrategy::PartialApply => {
                        working = next_value;
                    }
                    PatchStrategy::Atomic => {}
                }
                attempt_count = attempt_count + 1;
                continue ;
            }

            let candidate = normalize_candidate(next_value, &schema);

            let schema_errors = validation_errors(&schema, &candidate);
            if schema_errors.len() > 0 {
                let msg = join_errors(&schema_errors);
                attempts.push(RefinementAttempt::failure(patch_text.clone(), msg.clone()));
                conversation.push(
                    Message::user(
                        corrective_message(
                            "Patch failed validation: ",
                            msg.as_str(),
                            instruction,
                        ),
                    ),
                );
                match cfg.validation_failure_strategy {
                    ValidationFailureStrategy::IterateForward => {
                        working = candidate;
                    }
                    ValidationFailureStrategy::Rollback => {
                        working = previous_valid;
                        conversation.push(
                            Message::user(
                                String::from_str(
                                    "The previous patch resulted in invalid data. Changes were reverted; try a different approach while honoring the original instruction.",
                                ),
                            ),
                        );
                    }
                }
                attempt_count = attempt_count + 1;
                continue ;
            }

            let value: T = match T::from_document(&candidate) {
                Some(v) => v,
                None => {
                    return RefinementResult::Aborted {
                        error: StructuredError::Json(
                            String::from_str(
                                "the candidate passed the schema but does not read as the target type",
                            ),
                        ),
                        attempts,
                    };
                }
            };
            match value.validate() {
                Some(logic_err) => {
                    attempts.push(
                        RefinementAttempt::failure(patch_text.clone(), logic_err.clone()),
                    );
                    conversation.push(
                        Message::user(
                            corrective_message(
                                "JSON is valid, but logic failed: ",
                                logic_err.as_str(),
                                instruction,
                            ),
                        ),
                    );
                    match cfg.validation_failure_strategy {
                        ValidationFailureStrategy::IterateForward => {
                            working = value.to_document();
                        }
                        ValidationFailureStrategy::Rollback => {
                            working = previous_valid;
                            conversation.push(
                                Message::user(
                                    String::from_str(
                                        "Logic validation failed. Reverted to last valid state; try a different patch that still meets the original instruction.",
                                    ),
                                ),
                            );
                        }
                    }
                    attempt_count = attempt_count + 1;
                    continue ;
                }
                None => {}
            }
            match hooks.validate_custom(&value) {
                Some(ctx_err) => {
                    attempts.push(
                        RefinementAttempt::failure(patch_text.clone(), ctx_err.clone()),
                    );
                    conversation.push(
                        Message::user(
                            corrective_message(
                                "The data structure is valid, but it violates external constraints: ",
                                ctx_err.as_str(),
                                instruction,
                            ),
                        ),
                    );
                    match cfg.validation_failure_strategy {
                        ValidationFailureStrategy::IterateForward => {
                            working = value.to_document();
                        }
                        ValidationFailureStrategy::Rollback => {
                            working = previous_valid;
                            conversation.push(
                                Message::user(
                                    String::from_str(
                                        "Context validation failed. Reverted to last valid state; try a different approach that still satisfies the instruction.",
                                    ),
                                ),
                            );
                        }
                    }
                    attempt_count = attempt_count + 1;
                    continue ;
                }
                None => {}
            }
            match hooks.validate_deferred(&value) {
                Some(async_err) => {
                    attempts.push(
                        RefinementAttempt::failure(patch_text.clone(), async_err.clone()),
                    );
                    conversation.push(
                        Message::user(
                            corrective_message(
                                "The configuration structure is valid, but the deferred check failed: ",
                                async_err.as_str(),
                                instruction,
                            ),
                        ),
                    );
                    match cfg.validation_failure_strategy {
                        ValidationFailureStrategy::IterateForward => {
                            working = value.to_document();
                        }
                        ValidationFailureStrategy::Rollback => {
                            working = previous_valid;
                            conversation.push(
                                Message::user(
                                    String::from_str(
                                        "Deferred validation failed. Reverted to last valid state; try a different approach that still satisfies the instruction.",
                                    ),
                                ),
                            );
                        }
                    }
                    attempt_count = attempt_count + 1;
                    continue ;
                }
                None => {}
            }

            attempts.push(RefinementAttempt::success(patch_text));
            return RefinementResult::Refined(
                RefinementOutcome::with_patch(value, attempts, Some(patch)),
            );
        }
        let last_error: String = if attempts.len() > 0 {
            match &attempts[attempts.len() - 1].error {
                Some(e) => e.clone(),
                None => String::from_str("unknown error"),
            }
        } else {
            String::from_str("unknown error")
        };
        RefinementResult::Exhausted { retries: max, last_error, attempts }
    }

    /// Refine an existing value into a new one using JSON Patch.
    ///
    /// On exhaustion the error carries the configured retry count and the
    /// last recorded attempt error.
    pub fn refine<T>(&mut self, current: &T, instruction: &str) -> (r: Result<
        RefinementOutcome<T>,
        StructuredError,
    >) where T: GeminiStructured + StructuredValidator + DocumentCodec
        ensures
            final(self).config == old(self).config,
            r matches Ok(outcome) ==> {
                &&& 1 <= outcome.attempts@.len() <= old(self).config.max_retries
                &&& outcome.attempts@.last().success
                &&& forall|i: int|
                    0 <= i < outcome.attempts@.len() - 1 ==> !(
                    #[trigger] outcome.attempts@[i]).success
                &&& outcome.patch is Some
                &&& crate::parse::patch_text_ok(
                    crate::parse::clean_patch_spec(outcome.attempts@.last().patch@),
                )
            },
            r matches Err(StructuredError::RefinementExhausted { retries, .. }) ==> retries
                == old(self).config.max_retries,
    {
        let mut hooks = NoHooks;
        match self.execute_refinement(current, instruction, Vec::new(), &mut hooks) {
            RefinementResult::Refined(outcome) => Ok(outcome),
            RefinementResult::Exhausted { retries, last_error, .. } => Err(
                StructuredError::RefinementExhausted { retries, last_error },
            ),
            RefinementResult::Aborted { error, .. } => {
                match error {
                    StructuredError::RefinementExhausted { last_error, .. } => Err(
                        StructuredError::Context(last_error),
                    ),
                    other => Err(other),
                }
            }
        }
    }
}

/// Builder for one refinement call: the value, the instruction, optional
/// reference documents, and the caller's hooks.
pub struct RefinementRequest<'a, T, G, H> {
    pub engine: &'a mut RefinementEngine<G>,
    pub current: T,
    pub instruction: String,
    pub documents: Vec<String>,
    pub hooks: H,
}

impl<'a, T, G: TextGenerator> RefinementRequest<'a, T, G, NoHooks> {
    /// A request with no documents and no hooks.
    pub fn new(engine: &'a mut RefinementEngine<G>, current: T, instruction: String) -> (r:
        Self)
        ensures
            r.current == current,
            r.instruction == instruction,
            r.documents@.len() == 0,
    {
        RefinementRequest { engine, current, instruction, documents: Vec::new(), hooks: NoHooks }
    }
}

impl<'a, T, G: TextGenerator, H> RefinementRequest<'a, T, G, H> {
    /// Attach reference document texts to the refinement context.
    pub fn with_documents(self, documents: Vec<String>) -> (r: Self)
        ensures
            r.documents == documents,
            r.current == self.current,
            r.instruction == self.instruction,
    {
        RefinementRequest { documents, ..self }
    }

    /// Replace the hooks: the dynamic-context generator and the custom
    /// validators travel together as one capability.
    pub fn with_hooks<H2>(self, hooks: H2) -> (r: RefinementRequest<'a, T, G, H2>)
        ensures
            r.current == self.current,
            r.instruction == self.instruction,
            r.documents == self.documents,
            r.hooks == hooks,
    {
        RefinementRequest {
            engine: self.engine,
            current: self.current,
            instruction: self.instruction,
            documents: self.documents,
            hooks,
        }
    }
}

impl<'a, T, G: TextGenerator, H> RefinementRequest<'a, T, G, H> where
    T: GeminiStructured + StructuredValidator + DocumentCodec,
    H: RefinementHooks<T>,
 {
    /// Run the refinement loop, seeding the conversation through
    /// `document_history` with the attached documents.
    pub fn execute(self) -> (r: RefinementResult<T>)
        ensures
            match r {
                RefinementResult::Refined(outcome) => {
                    &&& 1 <= outcome.attempts@.len() <= old(self.engine).config.max_retries
                    &&& outcome.attempts@.last().success
                    &&& forall|i: int|
                        0 <= i < outcome.attempts@.len() - 1 ==> !(
                        #[trigger] outcome.attempts@[i]).success
                    &&& outcome.patch is Some
                    &&& crate::parse::patch_text_ok(
                        crate::parse::clean_patch_spec(outcome.attempts@.last().patch@),
                    )
                },
                RefinementResult::Exhausted { retries, last_error, attempts } => {
                    &&& retries == old(self.engine).config.max_retries
                    &&& attempts@.len() == retries
                    &&& forall|i: int|
                        0 <= i < attempts@.len() ==> !(#[trigger] attempts@[i]).success
                    &&& attempts@.len() > 0 ==> attempts@.last().error is Some
                        && attempts@.last().error->Some_0@ == last_error@
                },
                RefinementResult::Aborted { attempts, .. } => {
                    &&& attempts@.len() <= old(self.engine).config.max_retries
                    &&& forall|i: int|
                        0 <= i < attempts@.len() ==> !(#[trigger] attempts@[i]).success
                },
            },
    {
        let RefinementRequest { engine, current, instruction, documents, mut hooks } = self;
        let history = document_history(&documents);
        engine.execute_refinement(&current, instruction.as_str(), history, &mut hooks)
    }
}

/// The conversation seed the attached documents make: nothing when there
/// are none; otherwise one banner message followed by one user message
/// per document, in order.
pub fn document_history(documents: &Vec<String>) -> (r: Vec<Message>)
    ensures
        documents@.len() == 0 ==> r@.len() == 0,
        documents@.len() > 0 ==> {
            &&& r@.len() == documents@.len() + 1
            &&& r@[0].role == Role::User
            &&& r@[0].text@ == "Reference documents for this refinement task:"@
            &&& forall|i: int|
                0 <= i < documents@.len() ==> (#[trigger] r@[i + 1]).role == Role::User
                    && r@[i + 1].text@ == documents@[i]@
        },
{
    let mut history: Vec<Message> = Vec::new();
    if documents.len() > 0 {
        history.push(
            Message::user(String::from_str("Reference documents for this refinement task:")),
        );
        let mut i: usize = 0;
        while i < documents.len()
            invariant
                i <= documents@.len(),
                history@.len() == i + 1,
                history@[0].role == Role::User,
                history@[0].text@ == "Reference documents for this refinement task:"@,
                forall|j: int|
                    0 <= j < i as int ==> (#[trigger] history@[j + 1]).role == Role::User
                        && history@[j + 1].text@ == documents@[j]@,
            decreases documents.len() - i,
        {
            history.push(Message::user(documents[i].clone()));
            i = i + 1;
        }
    }
    history
}

} // verus!
