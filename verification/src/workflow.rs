//! Workflow building blocks: steps, metrics and tracing.
//!
//! These are the composition primitives around the engine. The stateful
//! runner here is synchronous; the application's async plumbing drives
//! network-bound steps.

use vstd::prelude::*;

use crate::error::StructuredError;
use crate::json::JsonValue;

verus! {

/// A structured trace event of a workflow run.
#[derive(Debug)]
pub enum WorkflowEvent {
    /// A step began.
    StepStart { step_name: String, input_type: String },
    /// A step finished, with its duration.
    StepEnd { step_name: String, duration_ms: u64 },
    /// A step failed.
    Error { step_name: String, message: String },
    /// An intermediate artifact a step recorded.
    Artifact { step_name: String, key: String, data: JsonValue },
}

/// One entry of the trace log.
#[derive(Debug)]
pub struct TraceEntry {
    pub event: WorkflowEvent,
}

impl TraceEntry {
    /// Wrap an event as a trace entry.
    pub fn new(event: WorkflowEvent) -> (r: Self)
        ensures
            r.event == event,
    {
        TraceEntry { event }
    }
}

/// Aggregated metrics for a workflow execution. The counters saturate
/// instead of wrapping.
#[derive(Debug, Default)]
pub struct WorkflowMetrics {
    /// Total prompt tokens consumed across all steps.
    pub prompt_token_count: usize,
    /// Total response tokens generated across all steps.
    pub candidates_token_count: usize,
    /// Total tokens across all steps.
    pub total_token_count: usize,
    /// Total network attempts, retries included.
    pub network_attempts: usize,
    /// Total parse correction attempts.
    pub parse_attempts: usize,
    /// Steps completed successfully.
    pub steps_completed: usize,
    /// Collected failure messages.
    pub failures: Vec<String>,
}

/// A saturating counter step.
pub open spec fn sat_add(a: int, b: int) -> int {
    if a + b > usize::MAX {
        usize::MAX as int
    } else {
        a + b
    }
}

fn saturating_add(a: usize, b: usize) -> (r: usize)
    ensures
        r as int == sat_add(a as int, b as int),
{
    if usize::MAX - a < b {
        usize::MAX
    } else {
        a + b
    }
}

impl WorkflowMetrics {
    /// Record network and parse attempt counts; everything else is
    /// untouched.
    pub fn record_attempts(&mut self, network: usize, parse: usize)
        ensures
            final(self).network_attempts as int == sat_add(
                old(self).network_attempts as int,
                network as int,
            ),
            final(self).parse_attempts as int == sat_add(
                old(self).parse_attempts as int,
                parse as int,
            ),
            final(self).prompt_token_count == old(self).prompt_token_count,
            final(self).candidates_token_count == old(self).candidates_token_count,
            final(self).total_token_count == old(self).total_token_count,
            final(self).steps_completed == old(self).steps_completed,
            final(self).failures == old(self).failures,
    {
        self.network_attempts = saturating_add(self.network_attempts, network);
        self.parse_attempts = saturating_add(self.parse_attempts, parse);
    }

    /// Record a failure message; everything else is untouched.
    pub fn record_failure(&mut self, error: String)
        ensures
            final(self).failures@ == old(self).failures@.push(error),
            final(self).steps_completed == old(self).steps_completed,
            final(self).network_attempts == old(self).network_attempts,
            final(self).parse_attempts == old(self).parse_attempts,
            final(self).prompt_token_count == old(self).prompt_token_count,
            final(self).candidates_token_count == old(self).candidates_token_count,
            final(self).total_token_count == old(self).total_token_count,
    {
        self.failures.push(error);
    }

    /// Count one more completed step; everything else is untouched.
    pub fn record_step(&mut self)
        ensures
            final(self).steps_completed as int == sat_add(old(self).steps_completed as int, 1),
            final(self).failures == old(self).failures,
            final(self).network_attempts == old(self).network_attempts,
            final(self).parse_attempts == old(self).parse_attempts,
            final(self).prompt_token_count == old(self).prompt_token_count,
            final(self).candidates_token_count == old(self).candidates_token_count,
            final(self).total_token_count == old(self).total_token_count,
    {
        self.steps_completed = saturating_add(self.steps_completed, 1);
    }
}

/// Context passed to every step: the metrics accumulator and the trace
/// log, written by one runner at a time.
#[derive(Debug, Default)]
pub struct ExecutionContext {
    /// The metrics accumulator.
    pub metrics: WorkflowMetrics,
    /// The structured trace log.
    pub traces: Vec<TraceEntry>,
}

impl ExecutionContext {
    /// A fresh context with empty metrics and traces.
    pub fn new() -> (r: Self)
        ensures
            r.metrics.steps_completed == 0,
            r.metrics.failures@.len() == 0,
            r.traces@.len() == 0,
    {
        ExecutionContext {
            metrics: WorkflowMetrics {
                prompt_token_count: 0,
                candidates_token_count: 0,
                total_token_count: 0,
                network_attempts: 0,
                parse_attempts: 0,
                steps_completed: 0,
                failures: Vec::new(),
            },
            traces: Vec::new(),
        }
    }

    /// Count one more completed step; the other counters and the traces
    /// are untouched.
    pub fn record_step(&mut self)
        ensures
            final(self).metrics.steps_completed as int == sat_add(
                old(self).metrics.steps_completed as int,
                1,
            ),
            final(self).metrics.failures == old(self).metrics.failures,
            final(self).metrics.network_attempts == old(self).metrics.network_attempts,
            final(self).metrics.parse_attempts == old(self).metrics.parse_attempts,
            final(self).metrics.prompt_token_count == old(self).metrics.prompt_token_count,
            final(self).metrics.candidates_token_count == old(
                self,
            ).metrics.candidates_token_count,
            final(self).metrics.total_token_count == old(self).metrics.total_token_count,
            final(self).traces == old(self).traces,
    {
        self.metrics.record_step();
    }

    /// Record a failure message; the counters and the traces are
    /// untouched.
    pub fn record_failure(&mut self, error: String)
        ensures
            final(self).metrics.failures@ == old(self).metrics.failures@.push(error),
            final(self).metrics.steps_completed == old(self).metrics.steps_completed,
            final(self).metrics.network_attempts == old(self).metrics.network_attempts,
            final(self).metrics.parse_attempts == old(self).metrics.parse_attempts,
            final(self).metrics.prompt_token_count == old(self).metrics.prompt_token_count,
            final(self).metrics.candidates_token_count == old(
                self,
            ).metrics.candidates_token_count,
            final(self).metrics.total_token_count == old(self).metrics.total_token_count,
            final(self).traces == old(self).traces,
    {
        self.metrics.record_failure(error);
    }

    /// A copy of the current metrics.
    pub fn snapshot(&self) -> (r: WorkflowMetrics)
        ensures
            r.prompt_token_count == self.metrics.prompt_token_count,
            r.candidates_token_count == self.metrics.candidates_token_count,
            r.total_token_count == self.metrics.total_token_count,
            r.network_attempts == self.metrics.network_attempts,
            r.parse_attempts == self.metrics.parse_attempts,
            r.steps_completed == self.metrics.steps_completed,
            r.failures@.len() == self.metrics.failures@.len(),
            forall|i: int| 0 <= i < r.failures@.len() ==> r.failures@[i]@
                == self.metrics.failures@[i]@,
    {
        let mut failures: Vec<String> = Vec::new();
        let mut i: usize = 0;
        while i < self.metrics.failures.len()
            invariant
                i <= self.metrics.failures@.len(),
                failures@.len() == i as int,
                forall|j: int| 0 <= j < i as int ==> failures@[j]@
                    == self.metrics.failures@[j]@,
            decreases self.metrics.failures@.len() - i,
        {
            failures.push(self.metrics.failures[i].clone());
            i = i + 1;
        }
        WorkflowMetrics {
            prompt_token_count: self.metrics.prompt_token_count,
            candidates_token_count: self.metrics.candidates_token_count,
            total_token_count: self.metrics.total_token_count,
            network_attempts: self.metrics.network_attempts,
            parse_attempts: self.metrics.parse_attempts,
            steps_completed: self.metrics.steps_completed,
            failures,
        }
    }

    /// Append a structured event to the trace log.
    pub fn emit(&mut self, event: WorkflowEvent)
        ensures
            final(self).traces@.len() == old(self).traces@.len() + 1,
            final(self).metrics == old(self).metrics,
    {
        self.traces.push(TraceEntry::new(event));
    }

    /// The trace entries recorded so far.
    pub fn trace_snapshot(&self) -> (r: &Vec<TraceEntry>)
        ensures
            r == &self.traces,
    {
        &self.traces
    }

    /// Drop all trace entries.
    pub fn clear_traces(&mut self)
        ensures
            final(self).traces@.len() == 0,
            final(self).metrics == old(self).metrics,
    {
        self.traces.clear();
    }
}

/// State shared between workflow steps.
pub trait WorkflowState {

}

impl<T: Clone> WorkflowState for T {

}

/// A unit of work over a shared mutable state.
pub trait StateStep<S> {
    /// Run the step against the state, recording into the context.
    fn run(&mut self, state: &mut S, ctx: &mut ExecutionContext) -> Result<(), StructuredError>;
}

/// A step that intentionally halts execution for human review.
///
/// The runner that encounters it serializes the state and returns it to
/// the caller instead of going on.
#[derive(Debug)]
pub struct CheckpointStep<T> {
    pub name: String,
    pub marker: core::marker::PhantomData<T>,
}

impl<T> CheckpointStep<T> {
    /// A checkpoint with the given name.
    pub fn new(name: String) -> (r: Self)
        ensures
            r.name == name,
    {
        CheckpointStep { name, marker: core::marker::PhantomData }
    }

    /// The checkpoint name.
    pub fn name(&self) -> (r: &str)
        ensures
            r@ == self.name@,
    {
        self.name.as_str()
    }
}

/// A checkpoint that only triggers when a predicate holds of the data.
#[derive(Debug)]
pub struct ConditionalCheckpointStep<T, F> {
    pub name: String,
    pub predicate: F,
    pub marker: core::marker::PhantomData<T>,
}

impl<T, F> ConditionalCheckpointStep<T, F> {
    /// A conditional checkpoint with the given name and predicate.
    pub fn new(name: String, predicate: F) -> (r: Self)
        ensures
            r.name == name,
            r.predicate == predicate,
    {
        ConditionalCheckpointStep { name, predicate, marker: core::marker::PhantomData }
    }
}

/// A wrapper that instruments a step with start and end trace events.
#[derive(Debug)]
pub struct InstrumentedStep<S> {
    /// The wrapped step.
    pub inner: S,
    /// The name used for tracing events.
    pub name: String,
}

impl<S> InstrumentedStep<S> {
    /// Instrument a step under the given name.
    pub fn new(inner: S, name: String) -> (r: Self)
        ensures
            r.inner == inner,
            r.name == name,
    {
        InstrumentedStep { inner, name }
    }

    /// The name used for tracing.
    pub fn name(&self) -> (r: &str)
        ensures
            r@ == self.name@,
    {
        self.name.as_str()
    }

    /// The wrapped step.
    pub fn inner(&self) -> (r: &S)
        ensures
            r == &self.inner,
    {
        &self.inner
    }

    /// Unwrap the step.
    pub fn into_inner(self) -> (r: S)
        ensures
            r == self.inner,
    {
        self.inner
    }
}

/// A named step built from a function.
#[derive(Debug)]
pub struct WorkflowStep<F> {
    pub name: String,
    pub func: F,
}

impl<F> WorkflowStep<F> {
    /// A named step over the given function.
    pub fn new(name: String, func: F) -> (r: Self)
        ensures
            r.name == name,
            r.func == func,
    {
        WorkflowStep { name, func }
    }
}

/// A pass-through step that runs a side-effect function on the output.
#[derive(Debug)]
pub struct TapStep<S, F> {
    pub inner: S,
    pub func: F,
}

impl<S, F> TapStep<S, F> {
    /// Wrap a step with an inspection function.
    pub fn new(inner: S, func: F) -> (r: Self)
        ensures
            r.inner == inner,
            r.func == func,
    {
        TapStep { inner, func }
    }
}

/// An inline transformation between steps.
#[derive(Debug)]
pub struct MapStep<S, F> {
    pub inner: S,
    pub func: F,
}

impl<S, F> MapStep<S, F> {
    /// Map a step's output through a function.
    pub fn new(inner: S, func: F) -> (r: Self)
        ensures
            r.inner == inner,
            r.func == func,
    {
        MapStep { inner, func }
    }
}

/// A step built directly from a function.
#[derive(Debug)]
pub struct LambdaStep<F>(pub F);

/// A state step built from a function.
#[derive(Debug)]
pub struct LambdaStateStep<F> {
    pub func: F,
}

impl<F> LambdaStateStep<F> {
    /// A state step over the given function.
    pub fn new(func: F) -> (r: Self)
        ensures
            r.func == func,
    {
        LambdaStateStep { func }
    }
}

/// An extraction step: reads state, generates a typed output through a
/// request factory, and folds the output back into the state.
#[derive(Debug)]
pub struct ExtractionStep<S, Output, F, U> {
    pub instruction: String,
    pub prompt_factory: F,
    pub state_updater: U,
    pub marker: core::marker::PhantomData<(S, Output)>,
}

impl<S, Output, F, U> ExtractionStep<S, Output, F, U> {
    /// An extraction step with its instruction, prompt factory and state
    /// updater.
    pub fn new(instruction: String, prompt_factory: F, state_updater: U) -> (r: Self)
        ensures
            r.instruction == instruction,
            r.prompt_factory == prompt_factory,
            r.state_updater == state_updater,
    {
        ExtractionStep {
            instruction,
            prompt_factory,
            state_updater,
            marker: core::marker::PhantomData,
        }
    }
}

/// A workflow runner that carries a mutable state across its steps.
#[derive(Debug)]
pub struct StateWorkflow<S, St> {
    pub state: S,
    pub steps: Vec<St>,
    pub name: Option<String>,
}

impl<S, St> StateWorkflow<S, St> {
    /// A new workflow over the initial state.
    pub fn new(state: S) -> (r: Self)
        ensures
            r.state == state,
            r.steps@.len() == 0,
            r.name is None,
    {
        StateWorkflow { state, steps: Vec::new(), name: None }
    }

    /// Name the workflow for reporting.
    pub fn with_name(self, name: String) -> (r: Self)
        ensures
            r.name == Some(name),
            r.state == self.state,
            r.steps == self.steps,
    {
        StateWorkflow { name: Some(name), ..self }
    }

    /// Append a step.
    pub fn step(self, step: St) -> (r: Self)
        ensures
            r.steps@ == self.steps@.push(step),
            r.state == self.state,
            r.name == self.name,
    {
        let mut steps = self.steps;
        steps.push(step);
        StateWorkflow { steps, state: self.state, name: self.name }
    }
}

impl<S, F> StateWorkflow<S, LambdaStateStep<F>> {
    /// Append a function as a step.
    pub fn step_fn(self, func: F) -> (r: Self)
        ensures
            r.steps@.len() == self.steps@.len() + 1,
            r.state == self.state,
            r.name == self.name,
    {
        self.step(LambdaStateStep::new(func))
    }
}

impl<S, St: StateStep<S>> StateWorkflow<S, St> {
    /// Run every step in order against the state.
    ///
    /// The first failure is recorded and returned; each success counts a
    /// completed step. On success the final state and the collected
    /// metrics come back.
    pub fn run(self) -> (r: Result<(S, WorkflowMetrics), StructuredError>)
    {
        let mut state = self.state;
        let mut steps = self.steps;
        let mut ctx = ExecutionContext::new();
        let n = steps.len();
        let mut i: usize = 0;
        while i < n
            invariant
                i <= n,
                n == steps@.len(),
            decreases n - i,
        {
            let step = &mut steps[i];
            match step.run(&mut state, &mut ctx) {
                Ok(_) => {
                    ctx.record_step();
                }
                Err(e) => {
                    ctx.record_failure(e.message());
                    return Err(e);
                }
            }
            i = i + 1;
        }
        let metrics = ctx.snapshot();
        Ok((state, metrics))
    }
}

} // verus!
