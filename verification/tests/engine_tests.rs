use std::cell::RefCell;
use std::rc::Rc;

use gemini_structured_output::client::FallbackStrategy;
use gemini_structured_output::error::StructuredError;
use gemini_structured_output::generator::{
    DocumentCodec, GeminiStructured, NoHooks, StructuredValidator, TextGenerator,
};
use gemini_structured_output::json::{JsonMember, JsonValue};
use gemini_structured_output::generator::RefinementHooks;
use gemini_structured_output::patching::{
    backoff_delay_ms, network_retry_delay_ms, RefinementConfig, RefinementEngine,
    RefinementRequest, RefinementResult,
};

#[derive(Debug, Clone, PartialEq)]
struct Counter {
    a: i64,
}

impl GeminiStructured for Counter {
    fn gemini_schema() -> JsonValue {
        JsonValue::Obj(vec![
            JsonMember {
                key: "type".to_string(),
                value: JsonValue::Text("object".to_string()),
            },
            JsonMember {
                key: "properties".to_string(),
                value: JsonValue::Obj(vec![JsonMember {
                    key: "a".to_string(),
                    value: JsonValue::Obj(vec![JsonMember {
                        key: "type".to_string(),
                        value: JsonValue::Text("integer".to_string()),
                    }]),
                }]),
            },
            JsonMember {
                key: "required".to_string(),
                value: JsonValue::Arr(vec![JsonValue::Text("a".to_string())]),
            },
        ])
    }
}

impl StructuredValidator for Counter {
    fn validate(&self) -> Option<String> {
        None
    }
}

impl DocumentCodec for Counter {
    fn to_document(&self) -> JsonValue {
        JsonValue::Obj(vec![JsonMember {
            key: "a".to_string(),
            value: JsonValue::Int(self.a),
        }])
    }

    fn from_document(doc: &JsonValue) -> Option<Self> {
        match doc {
            JsonValue::Obj(members) => members.iter().find(|m| m.key == "a").and_then(|m| {
                match &m.value {
                    JsonValue::Int(i) => Some(Counter { a: *i }),
                    _ => None,
                }
            }),
            _ => None,
        }
    }
}

/// Replays a fixed script of responses, one per call, repeating the last.
struct ScriptedGen {
    tag: String,
    script: Vec<String>,
    cursor: usize,
    calls: Rc<RefCell<Vec<String>>>,
    pauses: usize,
}

impl ScriptedGen {
    fn new(tag: &str, script: Vec<&str>, calls: Rc<RefCell<Vec<String>>>) -> Self {
        ScriptedGen {
            tag: tag.to_string(),
            script: script.into_iter().map(|s| s.to_string()).collect(),
            cursor: 0,
            calls,
            pauses: 0,
        }
    }
}

impl TextGenerator for ScriptedGen {
    fn generate_text(&mut self, _system: &str, _prompt: &str) -> Result<String, StructuredError> {
        self.calls.borrow_mut().push(self.tag.clone());
        let i = if self.cursor < self.script.len() {
            self.cursor
        } else {
            self.script.len() - 1
        };
        self.cursor += 1;
        Ok(self.script[i].clone())
    }

    fn pause(&mut self, _delay_ms: u64) {
        self.pauses += 1;
    }
}

fn engine_with(
    primary: ScriptedGen,
    fallback: Option<ScriptedGen>,
    config: RefinementConfig,
) -> RefinementEngine<ScriptedGen> {
    RefinementEngine::new(primary, fallback).with_config(config)
}

#[test]
fn test_exhaustion_records_every_failed_attempt() {
    let calls = Rc::new(RefCell::new(Vec::new()));
    let primary = ScriptedGen::new("primary", vec!["this is not json"], calls.clone());
    let config = RefinementConfig {
        max_retries: 3,
        ..Default::default()
    };
    let mut engine = engine_with(primary, None, config);
    let current = Counter { a: 1 };
    let mut hooks = NoHooks;
    match engine.execute_refinement(&current, "increase a by one", Vec::new(), &mut hooks) {
        RefinementResult::Exhausted {
            retries,
            last_error,
            attempts,
        } => {
            assert_eq!(retries, 3);
            assert_eq!(attempts.len(), 3);
            assert!(attempts.iter().all(|a| !a.success));
            assert!(attempts.iter().all(|a| a.error.is_some()));
            assert!(!last_error.is_empty());
        }
        _ => panic!("expected exhaustion"),
    }
}

#[test]
fn test_refine_exhaustion_error_carries_retry_count() {
    let calls = Rc::new(RefCell::new(Vec::new()));
    let primary = ScriptedGen::new("primary", vec!["nope"], calls.clone());
    let config = RefinementConfig {
        max_retries: 2,
        ..Default::default()
    };
    let mut engine = engine_with(primary, None, config);
    match engine.refine(&Counter { a: 1 }, "increase a by one") {
        Err(StructuredError::RefinementExhausted { retries, .. }) => assert_eq!(retries, 2),
        other => panic!("expected exhaustion, got {:?}", other),
    }
}

#[test]
fn test_escalation_switches_to_fallback_after_threshold() {
    let calls = Rc::new(RefCell::new(Vec::new()));
    let primary = ScriptedGen::new("primary", vec!["not json"], calls.clone());
    let fallback = ScriptedGen::new("fallback", vec!["not json"], calls.clone());
    let config = RefinementConfig {
        max_retries: 4,
        fallback_strategy: FallbackStrategy::Escalate { after_attempts: 2 },
        ..Default::default()
    };
    let mut engine = engine_with(primary, Some(fallback), config);
    let mut hooks = NoHooks;
    let _ = engine.execute_refinement(&Counter { a: 1 }, "anything", Vec::new(), &mut hooks);
    let log = calls.borrow();
    assert_eq!(
        log.as_slice(),
        &[
            "primary".to_string(),
            "primary".to_string(),
            "fallback".to_string(),
            "fallback".to_string()
        ]
    );
}

#[test]
fn test_end_to_end_single_attempt() {
    let calls = Rc::new(RefCell::new(Vec::new()));
    let primary = ScriptedGen::new(
        "primary",
        vec![r#"[{"op":"replace","path":"/a","value":2}]"#],
        calls.clone(),
    );
    let mut engine = engine_with(primary, None, RefinementConfig::default());
    let outcome = engine.refine(&Counter { a: 1 }, "increase a by one").unwrap();
    assert_eq!(outcome.value, Counter { a: 2 });
    assert_eq!(outcome.attempts.len(), 1);
    assert!(outcome.attempts[0].success);
    assert!(outcome.patch.is_some());
}

#[test]
fn test_end_to_end_recovery_on_second_attempt() {
    let calls = Rc::new(RefCell::new(Vec::new()));
    let primary = ScriptedGen::new(
        "primary",
        vec!["not json", r#"[{"op":"replace","path":"/a","value":5}]"#],
        calls.clone(),
    );
    let mut engine = engine_with(primary, None, RefinementConfig::default());
    let outcome = engine.refine(&Counter { a: 1 }, "set a to five").unwrap();
    assert_eq!(outcome.attempts.len(), 2);
    assert!(!outcome.attempts[0].success);
    assert!(outcome.attempts[1].success);
    assert_eq!(outcome.value, Counter { a: 5 });
}

#[test]
fn test_markdown_fenced_patch_is_accepted() {
    let calls = Rc::new(RefCell::new(Vec::new()));
    let primary = ScriptedGen::new(
        "primary",
        vec!["```json\n[{\"op\":\"replace\",\"path\":\"/a\",\"value\":3}]\n```"],
        calls.clone(),
    );
    let mut engine = engine_with(primary, None, RefinementConfig::default());
    let outcome = engine.refine(&Counter { a: 1 }, "set a to three").unwrap();
    assert_eq!(outcome.value, Counter { a: 3 });
}

#[test]
fn test_backoff_delays() {
    assert_eq!(backoff_delay_ms(0), 200);
    assert_eq!(backoff_delay_ms(1), 400);
    assert_eq!(backoff_delay_ms(2), 800);
    let rate = StructuredError::RateLimited { retry_after_secs: 7 };
    assert_eq!(network_retry_delay_ms(&rate, 0), 7000);
    let unavailable = StructuredError::ServiceUnavailable {
        message: "down".to_string(),
        attempts: 1,
    };
    assert_eq!(network_retry_delay_ms(&unavailable, 0), 5000);
    let other = StructuredError::Config("x".to_string());
    assert_eq!(network_retry_delay_ms(&other, 3), 1600);
}

#[test]
fn test_error_classification() {
    assert!(StructuredError::RateLimited { retry_after_secs: 1 }.is_retryable());
    assert!(StructuredError::ServiceUnavailable {
        message: "m".to_string(),
        attempts: 0
    }
    .is_retryable());
    assert!(StructuredError::Backend {
        code: 503,
        message: "m".to_string()
    }
    .is_retryable());
    assert!(StructuredError::Backend {
        code: 429,
        message: "m".to_string()
    }
    .is_retryable());
    assert!(!StructuredError::Backend {
        code: 400,
        message: "m".to_string()
    }
    .is_retryable());
    assert!(!StructuredError::Config("m".to_string()).is_retryable());
    assert_eq!(
        StructuredError::RateLimited { retry_after_secs: 9 }.retry_delay(),
        Some(9)
    );
    assert_eq!(
        StructuredError::ServiceUnavailable {
            message: "m".to_string(),
            attempts: 0
        }
        .retry_delay(),
        Some(5)
    );
    assert_eq!(StructuredError::Config("m".to_string()).retry_delay(), None);
}

/// A generator whose first answers are retryable failures.
struct FlakyGen {
    failures_left: usize,
    pauses: Rc<RefCell<usize>>,
}

impl TextGenerator for FlakyGen {
    fn generate_text(&mut self, _system: &str, _prompt: &str) -> Result<String, StructuredError> {
        if self.failures_left > 0 {
            self.failures_left -= 1;
            Err(StructuredError::Backend {
                code: 503,
                message: "unavailable".to_string(),
            })
        } else {
            Ok(r#"[{"op":"replace","path":"/a","value":2}]"#.to_string())
        }
    }

    fn pause(&mut self, _delay_ms: u64) {
        *self.pauses.borrow_mut() += 1;
    }
}

#[test]
fn test_network_retry_then_success() {
    let pauses = Rc::new(RefCell::new(0));
    let gen = FlakyGen {
        failures_left: 2,
        pauses: pauses.clone(),
    };
    let mut engine = RefinementEngine::new(gen, None);
    let outcome = engine.refine(&Counter { a: 1 }, "increase a").unwrap();
    assert_eq!(outcome.value, Counter { a: 2 });
    assert_eq!(*pauses.borrow(), 2);
}

#[test]
fn test_fatal_network_error_aborts() {
    let gen = FlakyGen {
        failures_left: 99,
        pauses: Rc::new(RefCell::new(0)),
    };
    let mut engine = RefinementEngine::new(gen, None);
    match engine.refine(&Counter { a: 1 }, "increase a") {
        Err(StructuredError::Backend { code, .. }) => assert_eq!(code, 503),
        other => panic!("expected backend error, got {:?}", other),
    }
}

/// A minimal generator with one canned response.
struct MockGenerator {
    response: String,
}

impl TextGenerator for MockGenerator {
    fn generate_text(&mut self, _system: &str, _prompt: &str) -> Result<String, StructuredError> {
        Ok(self.response.clone())
    }

    fn pause(&mut self, _delay_ms: u64) {}
}

#[test]
fn test_mock_generator() {
    let mut generator = MockGenerator {
        response: "Hello, world!".to_string(),
    };
    let result = generator.generate_text("", "Say hello").unwrap();
    assert_eq!(result, "Hello, world!");
}

#[test]
fn test_generator_as_trait_object() {
    let mut generator: Box<dyn TextGenerator> = Box::new(MockGenerator {
        response: "Test response".to_string(),
    });
    let result = generator.generate_text("System", "Prompt").unwrap();
    assert_eq!(result, "Test response");
}

/// Hooks that reject the first candidate and record what they saw.
struct PickyHooks {
    rejected_once: bool,
    contexts: usize,
}

impl RefinementHooks<Counter> for PickyHooks {
    fn dynamic_context(&mut self, _current: &Counter) -> Option<String> {
        self.contexts += 1;
        Some("the counter tracks a strictly positive quantity".to_string())
    }

    fn validate_custom(&mut self, value: &Counter) -> Option<String> {
        if !self.rejected_once && value.a < 10 {
            self.rejected_once = true;
            Some("a must reach at least ten".to_string())
        } else {
            None
        }
    }

    fn validate_deferred(&mut self, _value: &Counter) -> Option<String> {
        None
    }
}

#[test]
fn test_request_builder_with_documents_and_hooks() {
    let calls = Rc::new(RefCell::new(Vec::new()));
    let primary = ScriptedGen::new(
        "primary",
        vec![
            r#"[{"op":"replace","path":"/a","value":5}]"#,
            r#"[{"op":"replace","path":"/a","value":12}]"#,
        ],
        calls.clone(),
    );
    let mut engine = RefinementEngine::new(primary, None);
    let request = RefinementRequest::new(&mut engine, Counter { a: 1 }, "raise a".to_string())
        .with_documents(vec!["ledger context".to_string()])
        .with_hooks(PickyHooks {
            rejected_once: false,
            contexts: 0,
        });
    match request.execute() {
        RefinementResult::Refined(outcome) => {
            assert_eq!(outcome.value, Counter { a: 12 });
            assert_eq!(outcome.attempts.len(), 2);
            assert!(!outcome.attempts[0].success);
            assert!(outcome.attempts[1].success);
        }
        _ => panic!("expected a refined outcome"),
    }
}

#[test]
fn test_empty_response_is_a_network_failure() {
    let calls = Rc::new(RefCell::new(Vec::new()));
    let primary = ScriptedGen::new("primary", vec!["   "], calls.clone());
    let config = RefinementConfig {
        network_retries: 1,
        ..Default::default()
    };
    let mut engine = engine_with(primary, None, config);
    match engine.refine(&Counter { a: 1 }, "anything") {
        Err(StructuredError::Context(m)) => assert!(m.contains("empty response")),
        other => panic!("expected an abort on empty responses, got {:?}", other),
    }
}
