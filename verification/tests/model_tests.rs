use gemini_structured_output::caching::{CachePolicy, CacheSettings};
use gemini_structured_output::error::{truncate_for_display, ResultExt, StructuredError};
use gemini_structured_output::evals::EvalSuite;
use gemini_structured_output::json::{json_eq, JsonValue};
use gemini_structured_output::models::{RefinementAttempt, RefinementOutcome, Role};
use gemini_structured_output::parse::{clean_json_text, parse_json};
use gemini_structured_output::session::{InteractiveSession, PendingChange, SessionEntry};
use gemini_structured_output::workflow::{
    CheckpointStep, ExecutionContext, InstrumentedStep, StateStep, StateWorkflow, WorkflowEvent,
    WorkflowMetrics,
};

#[test]
fn test_refinement_attempt_constructors() {
    let ok = RefinementAttempt::success("patch-text".to_string());
    assert!(ok.success);
    assert!(ok.error.is_none());
    assert_eq!(ok.patch, "patch-text");

    let bad = RefinementAttempt::failure("p".to_string(), "broken".to_string());
    assert!(!bad.success);
    assert_eq!(bad.error.as_deref(), Some("broken"));
}

#[test]
fn test_refinement_outcome_constructors() {
    let outcome = RefinementOutcome::new(7i64, vec![]);
    assert_eq!(outcome.value, 7);
    assert!(outcome.patch.is_none());
}

#[test]
fn test_render_roundtrip() {
    let doc = parse_json(r#"{"a": 1, "b": [true, null, "x\ny"], "c": 2.5}"#).unwrap();
    let text = doc.to_text();
    assert_eq!(text, "{\"a\":1,\"b\":[true,null,\"x\\u000ay\"],\"c\":2.5}");
    let back = parse_json(&text).unwrap();
    assert!(json_eq(&doc, &back));
}

#[test]
fn test_render_negative_and_large_numbers() {
    let doc = parse_json(r#"[-5, 0, 1234567890123]"#).unwrap();
    assert_eq!(doc.to_text(), "[-5,0,1234567890123]");
}

#[test]
fn test_clean_json_text_variants() {
    assert_eq!(
        clean_json_text("```json\n{\"a\": 1}\n```"),
        "{\"a\": 1}"
    );
    assert_eq!(clean_json_text("noise {\"a\": 1} trailing"), "{\"a\": 1}");
    assert_eq!(clean_json_text("  bare words  "), "bare words");
}

#[test]
fn test_cache_settings() {
    let s = CacheSettings::with_key("k".to_string());
    assert_eq!(s.key.as_deref(), Some("k"));
    assert!(s.ttl_override.is_none());

    let s = CacheSettings::with_ttl(60);
    assert_eq!(s.ttl_override, Some(60));

    let s = CacheSettings::with_key_and_ttl("k2".to_string(), 90);
    assert_eq!(s.key.as_deref(), Some("k2"));
    assert_eq!(s.ttl_override, Some(90));

    let p = CachePolicy::Enabled { ttl_secs: 30 };
    assert!(matches!(p, CachePolicy::Enabled { ttl_secs: 30 }));
}

#[test]
fn test_eval_suite_configuration() {
    let suite = EvalSuite::new("forecasts".to_string());
    assert_eq!(suite.concurrency, 5);
    let suite = suite.with_concurrency(0);
    assert_eq!(suite.concurrency, 1);
    let suite = suite.with_concurrency(9);
    assert_eq!(suite.concurrency, 9);
}

#[test]
fn test_workflow_metrics() {
    let mut m = WorkflowMetrics::default();
    m.record_attempts(2, 1);
    m.record_attempts(3, 0);
    m.record_step();
    m.record_failure("boom".to_string());
    assert_eq!(m.network_attempts, 5);
    assert_eq!(m.parse_attempts, 1);
    assert_eq!(m.steps_completed, 1);
    assert_eq!(m.failures, vec!["boom".to_string()]);
}

#[test]
fn test_execution_context_traces() {
    let mut ctx = ExecutionContext::new();
    ctx.emit(WorkflowEvent::StepStart {
        step_name: "Summarize".to_string(),
        input_type: "String".to_string(),
    });
    ctx.emit(WorkflowEvent::StepEnd {
        step_name: "Summarize".to_string(),
        duration_ms: 3,
    });
    assert_eq!(ctx.trace_snapshot().len(), 2);
    assert!(matches!(
        &ctx.trace_snapshot()[0].event,
        WorkflowEvent::StepStart { step_name, .. } if step_name == "Summarize"
    ));
    ctx.clear_traces();
    assert!(ctx.trace_snapshot().is_empty());

    ctx.record_step();
    ctx.record_failure("err".to_string());
    let snap = ctx.snapshot();
    assert_eq!(snap.steps_completed, 1);
    assert_eq!(snap.failures.len(), 1);
}

#[test]
fn test_checkpoint_and_instrumented_steps() {
    let cp: CheckpointStep<i64> = CheckpointStep::new("Review".to_string());
    assert_eq!(cp.name(), "Review");

    let inst = InstrumentedStep::new(41i64, "Double".to_string());
    assert_eq!(inst.name(), "Double");
    assert_eq!(*inst.inner(), 41);
    assert_eq!(inst.into_inner(), 41);
}

struct AddStep {
    amount: i64,
}

impl StateStep<i64> for AddStep {
    fn run(
        &mut self,
        state: &mut i64,
        _ctx: &mut ExecutionContext,
    ) -> Result<(), gemini_structured_output::error::StructuredError> {
        *state += self.amount;
        Ok(())
    }
}

#[test]
fn test_state_workflow_runs_steps_in_order() {
    let wf = StateWorkflow::new(0i64)
        .with_name("sum".to_string())
        .step(AddStep { amount: 2 })
        .step(AddStep { amount: 3 });
    let (state, metrics) = wf.run().unwrap();
    assert_eq!(state, 5);
    assert_eq!(metrics.steps_completed, 2);
}

#[test]
fn test_session_accept_and_decline() {
    let mut session: InteractiveSession<i64, i64> = InteractiveSession::new(1, None);
    assert!(session.accept_change().is_err());
    assert!(session.decline_change().is_err());

    session.stage_change(PendingChange {
        proposed_config: 10,
        patch: gemini_structured_output::patch::Patch { ops: vec![] },
        reasoning: None,
    });
    session.accept_change().unwrap();
    assert_eq!(session.config, 10);
    assert!(session.pending_change.is_none());
    assert_eq!(session.history.len(), 1);

    session.stage_change(PendingChange {
        proposed_config: 99,
        patch: gemini_structured_output::patch::Patch { ops: vec![] },
        reasoning: Some("why".to_string()),
    });
    session.decline_change().unwrap();
    assert_eq!(session.config, 10);
}

#[test]
fn test_session_entries() {
    let e = SessionEntry::new_chat(Role::Model, "hello".to_string());
    assert_eq!(e.text, "hello");
    let e = e.with_meta("kind".to_string(), "greeting".to_string());
    assert_eq!(e.metadata.len(), 1);
    let n = SessionEntry::new_system_note("done".to_string());
    assert_eq!(n.role, Role::User);
}

#[test]
fn test_truncate_for_display() {
    assert_eq!(truncate_for_display("short", 10), "short");
    assert_eq!(
        truncate_for_display("abcdefghij", 4),
        "abcd... [truncated, 10 total chars]"
    );
}

#[test]
fn test_result_ext_with_context() {
    let ok: Result<i64, StructuredError> = Ok(5);
    assert_eq!(ok.with_context("loading".to_string()).unwrap(), 5);

    let err: Result<i64, StructuredError> = Err(StructuredError::Config("bad".to_string()));
    match err.with_context("loading".to_string()) {
        Err(StructuredError::Context(m)) => {
            assert_eq!(m, "loading: configuration error: bad");
        }
        other => panic!("expected a context error, got {:?}", other),
    }
}
