//! What the witness saw, counted from traces.

use rigcoder_bench::digest::{facts, Event};
use rigcoder_bench::observe::{
    host_payload, is_nothing, observed, unobserved, Action, AdapterAnalysis, AdapterEnding,
    AdapterErrorEnvelope, AdapterEvent, AdapterObservation, AdapterUsage, AdapterVerdict,
    ClockSource, Emitter, ExecutionMode, FailedAttempt, FailureDetail, MeasurementContext,
    Observation, ObservationArtifact, RecordingProvenance, Stage, Subject,
};

fn subject(run: u64, effect: Option<u64>) -> Subject {
    Subject { scope: Some(format!("rigcoder/run/{run}")), order: Some(run * 10), effect }
}

fn seen(subject: Subject, action: Action) -> Observation {
    Observation {
        subject,
        emitter: Emitter { name: "rig-ecs".to_owned() },
        stage: Stage::Other,
        action,
        handler_timing: None,
        run_timing: None,
    }
}

fn fact(operation: &str, attempt: u64, event: AdapterEvent) -> AdapterObservation {
    AdapterObservation {
        operation: operation.to_owned(),
        attempt: Some(attempt),
        host_attempt: None,
        event,
        analysis: None,
    }
}

fn adapter(run: u64, attempt: u64, event: AdapterEvent) -> Observation {
    seen(subject(run, Some(run)), Action::Adapter { fact: fact("op/1", attempt, event) })
}

fn ended(run: u64, code: &str) -> Observation {
    seen(subject(run, None), Action::Ended { code: code.to_owned() })
}

fn hosted(kind: &str, payload: &str, failure: Option<FailureDetail>) -> Observation {
    seen(
        subject(1, None),
        Action::Host { kind: kind.to_owned(), payload: host_payload(payload, failure) },
    )
}

fn hold(owner: &str, order: u64, acquired: bool) -> Observation {
    let mut o = seen(
        Subject { scope: Some("rigcoder/run/1".to_owned()), order: Some(order), effect: None },
        if acquired { Action::Held } else { Action::Released },
    );
    o.emitter = Emitter { name: owner.to_owned() };
    o
}

fn trace(observations: Vec<Observation>, finalized: bool) -> ObservationArtifact {
    ObservationArtifact {
        measurement_context: None,
        recording_provenance: None,
        observations,
        finalized,
        dropped: 0,
    }
}

fn tokens(total: u64) -> AdapterEvent {
    AdapterEvent::Usage {
        usage: AdapterUsage { input_tokens: None, output_tokens: None, total_tokens: Some(total) },
    }
}

fn verdict(finish: Option<&str>, block: Option<&str>, model: Option<&str>) -> AdapterEvent {
    AdapterEvent::Provider {
        verdict: AdapterVerdict {
            finish_reason: finish.map(str::to_owned),
            block_reason: block.map(str::to_owned),
            detail: None,
            model: model.map(str::to_owned),
        },
    }
}

fn error(kind: &str, status: Option<u16>, retryable: bool) -> AdapterEnding {
    AdapterEnding::Error {
        boundary: "provider_response".to_owned(),
        kind: kind.to_owned(),
        status,
        retryable,
    }
}

fn finished(ending: AdapterEnding) -> AdapterEvent {
    AdapterEvent::Finished { ending }
}

fn failure(kind: &str, boundary: &str, adapter: Option<FailedAttempt>) -> FailureDetail {
    FailureDetail {
        kind: kind.to_owned(),
        boundary: boundary.to_owned(),
        http_status: None,
        adapter,
        shown: kind.to_owned(),
    }
}

fn codes(trace: &ObservationArtifact) -> Vec<String> {
    observed(Some(trace)).endings.iter().map(|run| run.ending.clone()).collect()
}

#[test]
fn digest_consumes_direct_provider_attempts_without_bus_records() {
    for (status, provenance) in [
        (200, RecordingProvenance::Live),
        (200, RecordingProvenance::Live),
        (401, RecordingProvenance::Derived),
    ] {
        let direct = || Subject { scope: Some("direct".to_owned()), order: None, effect: None };
        let mut artifact = trace(
            vec![
                seen(direct(), Action::Adapter {
                    fact: fact("direct/1", 1, AdapterEvent::Response { status }),
                }),
                seen(direct(), Action::Adapter {
                    fact: fact("direct/1", 1, finished(AdapterEnding::Decoded)),
                }),
            ],
            true,
        );
        artifact.recording_provenance = Some(provenance);
        let digest = observed(Some(&artifact));
        assert!(digest.complete);
        assert_eq!(digest.recording_provenance, Some(provenance));
        assert_eq!(digest.attempts.len(), 1);
        let attempt = &digest.attempts[0];
        assert_eq!(attempt.operation, "direct/1");
        assert_eq!(attempt.status, Some(status));
        assert_eq!(attempt.subject.scope.as_deref(), Some("direct"));
        assert!(attempt.subject.effect.is_none());
        assert!(attempt.ending.is_some());
        assert!(digest.endings.is_empty());
        assert!(digest.last_failure.is_none());
    }
}

#[test]
fn digest_preserves_named_holds_without_inventing_cleanup_releases() {
    for released in [true, false] {
        let mut observations = vec![
            hosted("rigcoder/approval", "{\"decision\":\"held\"}", None),
            hold("rigcoder/approval", 1, true),
        ];
        if released {
            observations.push(hold("rigcoder/approval", 1, false));
        }
        let mut artifact = trace(observations, false);
        let digest = observed(Some(&artifact));
        assert!(digest.trace_present);
        assert_eq!(digest.dropped, Some(0));
        assert_eq!(digest.finalized, Some(false));
        assert!(!digest.complete);
        assert_eq!(digest.holds, 1);
        let acquired = digest.hold_transitions.iter().filter(|hold| hold.acquired).count();
        assert_eq!(acquired, 1);
        assert_eq!(digest.hold_transitions.len() - acquired, if released { 1 } else { 0 });
        for hold in &digest.hold_transitions {
            assert_eq!(hold.owner.name, "rigcoder/approval");
            assert_eq!(hold.subject.order, Some(1));
            assert_eq!(hold.subject.scope.as_deref(), Some("rigcoder/run/1"));
        }
        artifact.dropped = 1;
        let incomplete = observed(Some(&artifact));
        assert!(!incomplete.complete);
        assert_eq!(incomplete.dropped, Some(1));
        assert_eq!(
            format!("{:?}", incomplete.hold_transitions),
            format!("{:?}", digest.hold_transitions)
        );
    }
}

#[test]
fn digest_joins_batch_and_approval_owners_to_each_tool() {
    let mut observations = Vec::new();
    for order in 1..=4 {
        observations.push(hold("rigcoder/approval", order, true));
        if order > 1 {
            observations.push(hold("rig-ecs/batch", order, true));
        }
    }
    for order in 1..=4 {
        observations.push(hold("rigcoder/approval", order, false));
        if order > 1 {
            observations.push(hold("rig-ecs/batch", order, false));
        }
    }
    let digest = observed(Some(&trace(observations, false)));
    assert!(digest.trace_present);
    assert_eq!(digest.dropped, Some(0));
    assert_eq!(digest.finalized, Some(false));
    assert!(!digest.complete);
    let mut active = std::collections::BTreeSet::new();
    let mut acquisitions = std::collections::BTreeMap::new();
    for hold in &digest.hold_transitions {
        assert!(hold.subject.scope.is_some());
        let key = (
            hold.subject.scope.as_deref(),
            hold.subject.order.unwrap(),
            hold.owner.name.as_str(),
        );
        if hold.acquired {
            assert!(active.insert(key));
            *acquisitions.entry(hold.owner.name.as_str()).or_insert(0) += 1;
        } else {
            assert!(active.remove(&key));
        }
    }
    assert!(active.is_empty());
    assert_eq!(
        acquisitions,
        std::collections::BTreeMap::from([("rig-ecs/batch", 3), ("rigcoder/approval", 4)])
    );
    assert_eq!(digest.holds, 0);
}

#[test]
fn digest_retains_recording_origin_independently_of_replay_execution() {
    for (mode, provenance) in [
        (ExecutionMode::CassetteReplay, RecordingProvenance::Live),
        (ExecutionMode::CassetteReplay, RecordingProvenance::Derived),
        (ExecutionMode::PacedReplay, RecordingProvenance::Live),
        (ExecutionMode::LocalOnly, RecordingProvenance::NotApplicable),
    ] {
        let mut artifact = trace(Vec::new(), true);
        artifact.measurement_context =
            Some(MeasurementContext { execution_mode: mode, clock_source: ClockSource::Scripted });
        artifact.recording_provenance = Some(provenance);
        let digest = observed(Some(&artifact));
        assert_eq!(digest.measurement_context.unwrap().execution_mode, mode);
        assert_eq!(digest.recording_provenance, Some(provenance));
        artifact.recording_provenance = None;
        let legacy = observed(Some(&artifact));
        assert_eq!(legacy.measurement_context.unwrap().execution_mode, mode);
        assert_eq!(legacy.recording_provenance, None);
    }
}

#[test]
fn digest_preserves_execution_and_clock_labels_without_changing_task_facts() {
    let mut artifact = trace(
        vec![adapter(1, 1, AdapterEvent::Started), adapter(1, 1, tokens(9)), ended(1, "settled")],
        true,
    );
    let mut baseline = None;
    for mode in [
        ExecutionMode::Live,
        ExecutionMode::CassetteReplay,
        ExecutionMode::PacedReplay,
        ExecutionMode::LocalOnly,
        ExecutionMode::EffectLogReplay,
    ] {
        let context =
            MeasurementContext { execution_mode: mode, clock_source: ClockSource::Scripted };
        artifact.measurement_context = Some(context);
        let mut digest = observed(Some(&artifact));
        assert_eq!(digest.measurement_context, Some(context));
        digest.measurement_context = None;
        let facts_only = format!("{digest:?}");
        if let Some(baseline) = &baseline {
            assert_eq!(baseline, &facts_only);
        } else {
            baseline = Some(facts_only);
        }
    }
    artifact.measurement_context = None;
    assert!(observed(Some(&artifact)).measurement_context.is_none());
}

#[test]
fn digest_retains_recording_context_and_provider_endings() {
    let mut artifact = trace(
        vec![adapter(1, 1, finished(AdapterEnding::Decoded)), ended(1, "settled")],
        true,
    );
    let context = MeasurementContext {
        execution_mode: ExecutionMode::CassetteReplay,
        clock_source: ClockSource::Scripted,
    };
    artifact.measurement_context = Some(context);
    let timed = observed(Some(&artifact));
    assert_eq!(timed.attempts.len(), 1);
    assert_eq!(timed.measurement_context, Some(context));
    assert_eq!(timed.endings.len(), 1);
    assert_eq!(timed.endings[0].subject.scope.as_deref(), Some("rigcoder/run/1"));
    assert_eq!(timed.endings[0].ending, "settled");
    artifact.measurement_context =
        Some(MeasurementContext { clock_source: ClockSource::Absent, ..context });
    let untimed = observed(Some(&artifact));
    assert_eq!(
        format!("{:?}", untimed.attempts[0].ending),
        format!("{:?}", timed.attempts[0].ending)
    );
    assert_eq!(
        untimed.measurement_context.as_ref().unwrap().clock_source,
        ClockSource::Absent
    );
    let mut before_dispatch = trace(vec![ended(1, "cancelled")], true);
    before_dispatch.measurement_context =
        Some(MeasurementContext { execution_mode: ExecutionMode::LocalOnly, ..context });
    let cancelled = observed(Some(&before_dispatch));
    assert_eq!(cancelled.endings.len(), 1);
    assert_eq!(
        cancelled.measurement_context.as_ref().unwrap().execution_mode,
        ExecutionMode::LocalOnly
    );
    assert_eq!(cancelled.endings[0].ending, "cancelled");
    assert!(cancelled.attempts.is_empty());
    let unary = observed(Some(&trace(
        vec![
            adapter(1, 1, AdapterEvent::Response { status: 200 }),
            adapter(1, 1, finished(AdapterEnding::Decoded)),
        ],
        true,
    )));
    assert_eq!(unary.attempts.len(), 1);
}

#[test]
fn digest_retains_provider_outcomes_across_retry() {
    let digest = observed(Some(&trace(
        vec![
            adapter(1, 1, finished(error("http", Some(429), true))),
            adapter(2, 2, finished(AdapterEnding::Decoded)),
        ],
        true,
    )));
    assert_eq!(digest.attempts.len(), 2);
    assert!(matches!(digest.attempts[0].ending, Some(AdapterEnding::Error { .. })));
    assert!(matches!(digest.attempts[1].ending, Some(AdapterEnding::Decoded)));
}

#[test]
fn digest_keeps_host_rejection_separate_from_provider_success() {
    let replaced = observed(Some(&trace(
        vec![
            adapter(1, 1, AdapterEvent::Response { status: 200 }),
            hosted("rigcoder/failure", "{}", Some(failure("replaced", "host", None))),
        ],
        true,
    )));
    let found = replaced.last_failure.as_ref().unwrap();
    assert_eq!(found.boundary, "host");
    assert!(found.adapter.is_none());
    assert_eq!(replaced.attempts.len(), 1);
    assert_eq!(replaced.attempts[0].status, Some(200));
    assert_eq!(replaced.provider_retries, 0);
    let denied = observed(Some(&trace(
        vec![hosted("rigcoder/failure", "{}", Some(failure("denied", "host", None)))],
        true,
    )));
    assert!(denied.attempts.is_empty());
    assert_eq!(denied.last_failure.as_ref().unwrap().boundary, "host");
    let cancelled = observed(Some(&trace(
        vec![
            adapter(1, 1, AdapterEvent::Response { status: 200 }),
            hosted("rigcoder/failure", "{}", Some(failure("cancelled", "host", None))),
        ],
        true,
    )));
    assert_eq!(cancelled.last_failure.as_ref().unwrap().kind, "cancelled");
    assert!(cancelled.last_failure.as_ref().unwrap().adapter.is_none());
    assert_eq!(cancelled.attempts.len(), 1);
    assert_eq!(cancelled.attempts[0].status, Some(200));
}

#[test]
fn digest_retains_content_type_failure_boundary_and_actual_http_status() {
    let ending = error("content_type", None, false);
    let digest = observed(Some(&trace(
        vec![
            adapter(1, 1, AdapterEvent::Response { status: 200 }),
            adapter(1, 1, finished(ending.copy())),
            hosted(
                "rigcoder/failure",
                "{}",
                Some(failure(
                    "provider",
                    "decode",
                    Some(FailedAttempt { operation: "op/1".to_owned(), ending: Some(ending) }),
                )),
            ),
        ],
        true,
    )));
    assert!(digest.complete);
    assert_eq!(digest.attempts.len(), 1);
    assert_eq!(digest.attempts[0].status, Some(200));
    let found = digest.last_failure.as_ref().unwrap();
    assert_eq!(found.kind, "provider");
    assert_eq!(found.http_status, None);
    assert_eq!(found.boundary, "decode");
    assert_eq!(
        format!("{:?}", found.adapter.as_ref().unwrap().ending),
        format!("{:?}", digest.attempts[0].ending)
    );
    assert_eq!(digest.provider_retries, 0);
}

#[test]
fn digest_consumes_a_rejected_submission_without_provider_facts() {
    let rejected = || failure("invalid_configuration", "host", None);
    let digest = observed(Some(&trace(
        vec![hosted("rigcoder/failure", "{}", Some(rejected()))],
        true,
    )));
    assert!(digest.complete);
    assert!(digest.attempts.is_empty());
    assert!(digest.endings.is_empty());
    let found = digest.last_failure.as_ref().unwrap();
    assert_eq!(found.kind, "invalid_configuration");
    assert!(found.adapter.is_none());
    assert!(found.http_status.is_none());
    let trial = facts(&[Some(line("failed", Some(rejected())))]);
    assert_eq!(format!("{:?}", trial.failure.as_ref()), format!("{:?}", Some(found)));
    assert_eq!(trial.ending, "invalid_configuration");
    assert!(trial.no_settle);
}

fn line(kind: &str, failure: Option<FailureDetail>) -> Event {
    Event {
        kind: kind.to_owned(),
        name: String::new(),
        args: String::new(),
        output: String::new(),
        ok: false,
        text: String::new(),
        input_tokens: 0,
        output_tokens: 0,
        failure,
    }
}

#[test]
fn structured_failures_support_trial_investigation_without_text_classification() {
    let found = || FailureDetail {
        http_status: Some(429),
        ..failure(
            "http",
            "provider_response",
            Some(FailedAttempt {
                operation: "op/1".to_owned(),
                ending: Some(error("http", Some(429), true)),
            }),
        )
    };
    let digest = observed(Some(&trace(
        vec![
            adapter(1, 1, AdapterEvent::Response { status: 429 }),
            hosted(
                "rigcoder/provider_retry",
                "{\"operation\":\"op/1\",\"attempt\":1,\"wait_secs\":0}",
                None,
            ),
            adapter(2, 2, AdapterEvent::Response { status: 200 }),
            ended(2, "settled"),
            hosted("rigcoder/failure", "{}", Some(found())),
        ],
        true,
    )));
    assert_eq!(format!("{:?}", digest.last_failure), format!("{:?}", Some(found())));
    let operation: Vec<_> =
        digest.attempts.iter().filter(|a| a.operation == "op/1").collect();
    assert_eq!(operation.len(), 2);
    assert_eq!(operation[0].status, Some(429));
    assert_eq!(operation[1].status, Some(200));
    assert_eq!(digest.retry_decisions[0].operation.as_deref(), Some("op/1"));
    assert_eq!(digest.endings.last().map(|run| run.ending.as_str()), Some("settled"));
    let trial = facts(&[Some(line("failed", Some(found())))]);
    assert_eq!(trial.ending, "http");
    assert_eq!(format!("{:?}", trial.failure), format!("{:?}", Some(found())));
    assert!(trial.no_settle);
    let unstructured = facts(&[Some(line("failed", None))]);
    assert_eq!(unstructured.ending, "unknown");
    assert!(unstructured.failure.is_none());
    assert!(unstructured.no_settle);
}

#[test]
fn exhausted_retries_keep_one_operation_and_separate_failed_usage() {
    let numbered = |run: u64, host: u64, event: AdapterEvent| {
        let mut f = fact("op/1", run, event);
        f.host_attempt = Some(host);
        seen(subject(run, Some(run)), Action::Adapter { fact: f })
    };
    let artifact = trace(
        vec![
            numbered(1, 1, tokens(11)),
            numbered(1, 1, finished(error("http", Some(503), true))),
            ended(1, "provider"),
            hosted("rigcoder/provider_retry", "{\"operation\":\"op/1\",\"attempt\":1}", None),
            numbered(2, 2, tokens(13)),
            numbered(2, 2, finished(error("http", Some(503), true))),
            ended(2, "provider"),
        ],
        true,
    );
    let digest = observed(Some(&artifact));
    assert!(digest.complete);
    assert_eq!(digest.attempts.len(), 2);
    assert_eq!(digest.provider_retries, 1);
    assert_eq!(digest.retry_decisions.len(), 1);
    assert_eq!(codes(&artifact), ["provider", "provider"]);
    let first = &digest.attempts[0];
    let second = &digest.attempts[1];
    assert_eq!(first.operation, second.operation);
    assert_ne!(first.subject.scope, second.subject.scope);
    assert_ne!(first.subject.effect, second.subject.effect);
    assert_eq!((first.attempt, second.attempt), (1, 2));
    assert_eq!(first.host_attempt, Some(1));
    assert_eq!(second.host_attempt, Some(2));
    assert_eq!(first.usage.as_ref().unwrap().total_tokens, Some(11));
    assert_eq!(second.usage.as_ref().unwrap().total_tokens, Some(13));
    assert!(digest
        .attempts
        .iter()
        .all(|a| matches!(a.ending, Some(AdapterEnding::Error { retryable: true, .. }))));
    assert_eq!(digest.retry_decisions[0].operation.as_deref(), Some("op/1"));
    assert_eq!(digest.retry_decisions[0].retry, Some(1));
    assert_eq!(digest.retry_decisions[0].wait_secs, None);
}

#[test]
fn terminal_after_corruption_does_not_turn_product_failure_into_success() {
    let artifact = trace(
        vec![
            adapter(1, 1, AdapterEvent::Corrupt { frame: 1 }),
            adapter(1, 1, verdict(Some("STOP"), None, None)),
            adapter(1, 1, finished(AdapterEnding::Terminal)),
            ended(1, "provider"),
        ],
        true,
    );
    let digest = observed(Some(&artifact));
    assert_eq!(codes(&artifact), ["provider"]);
    assert_eq!(digest.provider_retries, 0);
    assert_eq!(digest.attempts.len(), 1);
    assert_eq!(digest.attempts[0].verdict.finish_reason.as_deref(), Some("STOP"));
    assert!(matches!(digest.attempts[0].ending, Some(AdapterEnding::Terminal)));
    assert!(digest
        .adapter
        .iter()
        .any(|a| matches!(a.fact.event, AdapterEvent::Corrupt { frame: 1 })));
}

#[test]
fn response_id_only_metadata_reaches_digest_without_inventing_a_verdict() {
    let with = |id: Option<&str>| {
        let mut f = fact("op/1", 1, finished(error("response", Some(200), false)));
        f.analysis = Some(AdapterAnalysis {
            response_id: id.map(str::to_owned),
            headers: None,
            timing: None,
        });
        observed(Some(&trace(vec![seen(subject(1, Some(1)), Action::Adapter { fact: f })], true)))
    };
    let absent = with(None);
    let identified = with(Some("id_REDACTED_1"));
    assert!(absent.complete && identified.complete);
    assert_eq!(absent.attempts.len(), 1);
    assert_eq!(identified.attempts.len(), 1);
    let left = &absent.attempts[0];
    let right = &identified.attempts[0];
    assert_eq!(left.analysis.response_id, None);
    assert_eq!(right.analysis.response_id.as_deref(), Some("id_REDACTED_1"));
    let empty =
        AdapterVerdict { finish_reason: None, block_reason: None, detail: None, model: None };
    assert_eq!(format!("{:?}", right.verdict), format!("{empty:?}"));
    assert_eq!(format!("{:?}", left.ending), format!("{:?}", right.ending));
    assert!(matches!(right.ending, Some(AdapterEnding::Error { .. })));
    assert_eq!(format!("{:?}", absent.endings), format!("{:?}", identified.endings));
}

#[test]
fn missing_unfinalized_and_dropped_evidence_are_not_complete() {
    let invalid = observed(None);
    assert!(!invalid.complete);
    assert!(!invalid.trace_present);
    assert_eq!(invalid.dropped, None);
    assert_eq!(invalid.finalized, None);

    for (finalized, dropped, complete) in [(false, 0, false), (true, 2, false), (true, 0, true)] {
        let mut artifact = trace(Vec::new(), finalized);
        artifact.dropped = dropped;
        let facts = observed(Some(&artifact));
        assert!(facts.trace_present);
        assert_eq!(facts.complete, complete);
        assert_eq!(facts.finalized, Some(finalized));
        assert_eq!(facts.dropped, Some(dropped));
    }
}

#[test]
fn digest_consumes_the_product_unary_adapter_packet_with_its_effect_link() {
    let mut last = fact("op/1", 1, finished(AdapterEnding::Decoded));
    last.analysis = Some(AdapterAnalysis {
        response_id: Some("id_REDACTED_1".to_owned()),
        headers: None,
        timing: None,
    });
    let digest = observed(Some(&trace(
        vec![
            adapter(1, 1, AdapterEvent::Started),
            adapter(1, 1, AdapterEvent::Response { status: 200 }),
            adapter(1, 1, verdict(Some("STOP"), None, Some("gemini-3.8-flash"))),
            adapter(1, 1, tokens(888)),
            seen(subject(1, Some(1)), Action::Adapter { fact: last }),
        ],
        true,
    )));
    assert!(digest.complete);
    assert_eq!(digest.adapter.len(), 5);
    let first = &digest.adapter[0];
    assert!(first.subject.effect.is_some());
    assert_eq!(first.subject.scope.as_deref(), Some("rigcoder/run/1"));
    assert_eq!(first.fact.attempt, Some(1));
    assert!(matches!(digest.adapter[1].fact.event, AdapterEvent::Response { status: 200 }));
    assert!(digest.adapter.iter().all(|f| {
        format!("{:?}", f.subject) == format!("{:?}", first.subject)
            && f.fact.operation == first.fact.operation
    }));
    let attempt = &digest.attempts[0];
    assert!(attempt.started);
    assert_eq!(attempt.usage.as_ref().unwrap().total_tokens, Some(888));
    assert_eq!(attempt.verdict.finish_reason.as_deref(), Some("STOP"));
    assert_eq!(attempt.verdict.model.as_deref(), Some("gemini-3.8-flash"));
    assert_eq!(attempt.analysis.response_id.as_deref(), Some("id_REDACTED_1"));
}

#[test]
fn digest_distinguishes_stream_terminal_from_partial_frame_in_product_packets() {
    for partial in [false, true] {
        let ending = if partial {
            AdapterEnding::PartialFrame { byte_count: 204, after: 1 }
        } else {
            AdapterEnding::Terminal
        };
        let digest = observed(Some(&trace(
            vec![adapter(1, 1, tokens(856)), adapter(1, 1, finished(ending.copy()))],
            true,
        )));
        assert!(digest.complete);
        assert_eq!(digest.attempts.len(), 1);
        assert_eq!(
            format!("{:?}", digest.adapter.last().unwrap().fact.event),
            format!("{:?}", finished(ending.copy()))
        );
        assert_eq!(format!("{:?}", digest.attempts[0].ending), format!("{:?}", Some(ending)));
        assert_eq!(digest.attempts[0].usage.as_ref().unwrap().total_tokens, Some(856));
        let first = &digest.adapter[0];
        assert!(digest.adapter.iter().all(|f| {
            f.fact.operation == first.fact.operation
                && format!("{:?}", f.subject) == format!("{:?}", first.subject)
                && f.fact.attempt == Some(1)
        }));
    }
}

#[test]
fn rejected_product_response_keeps_usage_without_claiming_success() {
    let artifact = trace(
        vec![
            adapter(1, 1, AdapterEvent::Response { status: 200 }),
            adapter(1, 1, tokens(804)),
            adapter(1, 1, verdict(Some("MAX_TOKENS"), None, None)),
            adapter(1, 1, finished(error("response", None, false))),
            ended(1, "provider"),
        ],
        false,
    );
    let digest = observed(Some(&artifact));
    assert_eq!(digest.attempts.len(), 1);
    let attempt = &digest.attempts[0];
    assert_eq!(attempt.status, Some(200));
    assert_eq!(attempt.usage.as_ref().unwrap().total_tokens, Some(804));
    assert_eq!(attempt.verdict.finish_reason.as_deref(), Some("MAX_TOKENS"));
    assert!(
        matches!(&attempt.ending, Some(AdapterEnding::Error { kind, retryable: false, .. }) if kind == "response")
    );
    assert_eq!(codes(&artifact), ["provider"]);
    assert!(!digest.complete);
}

#[test]
fn digest_consumes_block_and_retry_diagnostics_from_product_packets() {
    let blocked = observed(Some(&trace(
        vec![adapter(1, 1, verdict(None, Some("SAFETY"), None)), adapter(1, 1, tokens(795))],
        true,
    )));
    assert!(blocked.complete);
    assert_eq!(blocked.attempts.len(), 1);
    assert_eq!(blocked.attempts[0].verdict.block_reason.as_deref(), Some("SAFETY"));
    assert_eq!(blocked.attempts[0].usage.as_ref().unwrap().total_tokens, Some(795));
    let mut response = fact("op/1", 1, AdapterEvent::Response { status: 429 });
    response.analysis = Some(AdapterAnalysis {
        response_id: None,
        headers: Some("{\"retry-after\":\"0\"}".to_owned()),
        timing: None,
    });
    let retried = observed(Some(&trace(
        vec![
            seen(subject(1, Some(1)), Action::Adapter { fact: response }),
            adapter(1, 1, AdapterEvent::ErrorEnvelope {
                error: AdapterErrorEnvelope { code: Some("429".to_owned()), message: None },
            }),
            hosted("rigcoder/provider_retry", "{\"operation\":\"op/1\"}", None),
            adapter(2, 2, AdapterEvent::Response { status: 200 }),
            adapter(2, 2, verdict(Some("STOP"), None, None)),
        ],
        true,
    )));
    assert!(retried.complete);
    assert_eq!(retried.provider_retries, 1);
    assert_eq!(retried.attempts.len(), 2);
    assert_eq!(retried.attempts[0].status, Some(429));
    assert_eq!(
        retried.attempts[0].error_envelope.as_ref().unwrap().code.as_deref(),
        Some("429")
    );
    assert_eq!(
        retried.attempts[0].analysis.headers.as_deref(),
        Some("{\"retry-after\":\"0\"}")
    );
    assert_eq!(retried.attempts[1].status, Some(200));
    assert_eq!(retried.attempts[1].verdict.finish_reason.as_deref(), Some("STOP"));
    assert!(retried.attempts[0].usage.is_none());
}

#[test]
fn digest_keeps_partial_transport_eof_even_when_the_product_settled() {
    let artifact = trace(
        vec![
            adapter(1, 1, tokens(856)),
            adapter(1, 1, finished(AdapterEnding::Terminal)),
            adapter(1, 1, AdapterEvent::TransportEof { after: 2, partial_bytes: 7 }),
            ended(1, "settled"),
        ],
        true,
    );
    let digest = observed(Some(&artifact));
    assert!(digest.complete);
    assert_eq!(codes(&artifact), ["settled"]);
    assert_eq!(digest.attempts.len(), 1);
    let attempt = &digest.attempts[0];
    assert!(matches!(attempt.ending, Some(AdapterEnding::Terminal)));
    let eof = attempt.transport_eof.as_ref().unwrap();
    assert_eq!((eof.after, eof.partial_bytes), (2, 7));
    assert_eq!(attempt.usage.as_ref().unwrap().total_tokens, Some(856));
}

#[test]
fn cumulative_usage_is_replaced_and_attempts_remain_separate() {
    let digest = observed(Some(&trace(
        vec![
            adapter(1, 1, tokens(400)),
            adapter(1, 1, tokens(856)),
            adapter(1, 1, finished(error("http", Some(503), true))),
            adapter(1, 2, AdapterEvent::Response { status: 200 }),
            adapter(1, 2, finished(AdapterEnding::Terminal)),
        ],
        true,
    )));
    assert_eq!(digest.attempts.len(), 2);
    assert_eq!(digest.attempts[0].usage.as_ref().unwrap().total_tokens, Some(856));
    assert!(matches!(digest.attempts[0].ending, Some(AdapterEnding::Error { .. })));
    assert!(digest.attempts[1].usage.is_none());
    assert!(matches!(digest.attempts[1].ending, Some(AdapterEnding::Terminal)));

    let digest = observed(Some(&trace(
        vec![
            adapter(1, 1, tokens(856)),
            adapter(1, 1, AdapterEvent::Usage {
                usage: AdapterUsage {
                    input_tokens: None,
                    output_tokens: Some(0),
                    total_tokens: None,
                },
            }),
        ],
        true,
    )));
    let latest = digest.attempts[0].usage.as_ref().unwrap();
    assert_eq!(latest.total_tokens, None);
    assert_eq!(latest.output_tokens, Some(0));
}

#[test]
fn every_kind_of_fact_is_counted() {
    let mut cancelled = seen(subject(1, None), Action::Cancelled);
    cancelled.stage = Stage::Collect;
    let mut timed = seen(subject(1, None), Action::Other { name: "landed".to_owned() });
    timed.handler_timing = Some("{\"ms\":3}".to_owned());
    let digest = observed(Some(&trace(
        vec![
            seen(subject(1, None), Action::StreamTruncated),
            seen(subject(1, None), Action::Denied),
            seen(subject(1, None), Action::Denied),
            seen(subject(1, None), Action::Refused),
            seen(subject(1, None), Action::Cancelled),
            cancelled,
            timed,
            hosted("rigcoder/approval", "{\"decision\":\"denied\"}", None),
            hosted("rigcoder/approval", "{\"decision\":\"approved\"}", None),
            hosted("rigcoder/approval", "broken", None),
            hosted("other", "{\"decision\":\"held\"}", None),
        ],
        true,
    )));
    assert_eq!(digest.stream_truncations, 1);
    assert_eq!(digest.denials, 2);
    assert_eq!(digest.refusals, 1);
    assert_eq!(digest.cancelled_in_flight, 1);
    assert_eq!(digest.handler_timings.len(), 1);
    assert_eq!(digest.handler_timings[0].timing, "{\"ms\":3}");
    assert_eq!(digest.held_denied, 1);
    assert_eq!(digest.holds, 0);
    assert!(!is_nothing(&digest));
    assert!(is_nothing(&unobserved()));
    assert!(is_nothing(&observed(None)));
}

#[test]
fn payload_members_are_read_by_name_and_kind() {
    let payload = host_payload(
        "{\"operation\":\"a\\u0062\",\"attempt\":18446744073709551615,\"wait_secs\":-1,\"decision\":7}",
        None,
    );
    assert_eq!(payload.operation.as_deref(), Some("ab"));
    assert_eq!(payload.attempt, Some(u64::MAX));
    assert_eq!(payload.wait_secs, None);
    assert_eq!(payload.decision, None);
    let broken = host_payload("not json", None);
    assert_eq!(broken.operation, None);
    assert_eq!(broken.attempt, None);
}
