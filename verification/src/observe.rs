//! The decision trace of a run, counted: the facts a failure classification
//! needs that no transcript line carries.

use vstd::prelude::*;
use crate::json;
use crate::text;

verus! {

// ---------------------------------------------------------------------------
// The trace

/// What an observation is about: the run, the place in it, and the effect once
/// one was issued.
#[derive(Debug)]
pub struct Subject {
    pub scope: Option<String>,
    pub order: Option<u64>,
    pub effect: Option<u64>,
}

/// Who made an observation.
#[derive(Debug)]
pub struct Emitter {
    pub name: String,
}

/// Where in the schedule an observation was made.
#[derive(Clone, Copy, Debug, PartialEq, Eq, Structural)]
pub enum Stage {
    Collect,
    Other,
}

/// How a provider attempt ended.
#[derive(Debug)]
pub enum AdapterEnding {
    Decoded,
    Terminal,
    PartialFrame { byte_count: u64, after: u64 },
    Error { boundary: String, kind: String, status: Option<u16>, retryable: bool },
    Other { name: String },
}

/// What a provider said about its answer.
#[derive(Debug)]
pub struct AdapterVerdict {
    pub finish_reason: Option<String>,
    pub block_reason: Option<String>,
    pub detail: Option<String>,
    pub model: Option<String>,
}

/// A provider's own error.
#[derive(Debug)]
pub struct AdapterErrorEnvelope {
    pub code: Option<String>,
    pub message: Option<String>,
}

/// Volatile diagnostics of a provider attempt.
#[derive(Debug)]
pub struct AdapterAnalysis {
    pub response_id: Option<String>,
    pub headers: Option<String>,
    pub timing: Option<String>,
}

/// A usage report; it may be partial.
#[derive(Clone, Copy, Debug, PartialEq, Eq, Structural)]
pub struct AdapterUsage {
    pub input_tokens: Option<u64>,
    pub output_tokens: Option<u64>,
    pub total_tokens: Option<u64>,
}

/// One event at the provider boundary.
#[derive(Debug)]
pub enum AdapterEvent {
    Started,
    Response { status: u16 },
    Provider { verdict: AdapterVerdict },
    ErrorEnvelope { error: AdapterErrorEnvelope },
    Usage { usage: AdapterUsage },
    TransportEof { after: usize, partial_bytes: usize },
    Finished { ending: AdapterEnding },
    Corrupt { frame: u64 },
    Other { name: String },
}

/// A fact about one provider operation.
#[derive(Debug)]
pub struct AdapterObservation {
    pub operation: String,
    pub attempt: Option<u64>,
    pub host_attempt: Option<u64>,
    pub event: AdapterEvent,
    pub analysis: Option<AdapterAnalysis>,
}

/// The provider attempt that a failure came of.
#[derive(Debug)]
pub struct FailedAttempt {
    pub operation: String,
    pub ending: Option<AdapterEnding>,
}

/// A failure, as the host describes it.
#[derive(Debug)]
pub struct FailureDetail {
    pub kind: String,
    /// Where it was found to have failed.
    pub boundary: String,
    pub http_status: Option<u16>,
    /// The attempt that failed, where one did.
    pub adapter: Option<FailedAttempt>,
    /// How the failure is shown.
    pub shown: String,
}

/// What a host observation carries, as far as it is counted.
#[derive(Debug)]
pub struct HostPayload {
    pub failure: Option<FailureDetail>,
    pub operation: Option<String>,
    pub attempt: Option<u64>,
    pub wait_secs: Option<u64>,
    pub decision: Option<String>,
}

/// What was observed.
#[derive(Debug)]
pub enum Action {
    Held,
    Released,
    Adapter { fact: AdapterObservation },
    StreamTruncated,
    Denied,
    Refused,
    Cancelled,
    Ended { code: String },
    Host { kind: String, payload: HostPayload },
    Other { name: String },
}

/// One observation.
#[derive(Debug)]
pub struct Observation {
    pub subject: Subject,
    pub emitter: Emitter,
    pub stage: Stage,
    pub action: Action,
    pub handler_timing: Option<String>,
    pub run_timing: Option<String>,
}

/// How a run was executed.
#[derive(Clone, Copy, Debug, PartialEq, Eq, Structural)]
pub enum ExecutionMode {
    Live,
    CassetteReplay,
    PacedReplay,
    LocalOnly,
    EffectLogReplay,
}

/// What a run's timestamps were taken from.
#[derive(Clone, Copy, Debug, PartialEq, Eq, Structural)]
pub enum ClockSource {
    HostMonotonic,
    Scripted,
    Absent,
}

/// How a run was executed, and what its timestamps were taken from.
#[derive(Clone, Copy, Debug, PartialEq, Eq, Structural)]
pub struct MeasurementContext {
    pub execution_mode: ExecutionMode,
    pub clock_source: ClockSource,
}

/// Where the provider's content came from.
#[derive(Clone, Copy, Debug, PartialEq, Eq, Structural)]
pub enum RecordingProvenance {
    Live,
    Derived,
    NotApplicable,
}

/// A decision trace with its labels.
#[derive(Debug)]
pub struct ObservationArtifact {
    pub measurement_context: Option<MeasurementContext>,
    pub recording_provenance: Option<RecordingProvenance>,
    pub observations: Vec<Observation>,
    pub finalized: bool,
    pub dropped: u64,
}

// ---------------------------------------------------------------------------
// Copies

fn same_text(part: &Option<String>) -> (out: Option<String>)
    ensures
        out == *part,
{
    match part {
        Some(s) => Some(s.clone()),
        None => None,
    }
}

impl Subject {
    pub fn copy(&self) -> (out: Subject)
        ensures
            out == *self,
    {
        Subject { scope: same_text(&self.scope), order: self.order, effect: self.effect }
    }
}

impl Emitter {
    pub fn copy(&self) -> (out: Emitter)
        ensures
            out == *self,
    {
        Emitter { name: self.name.clone() }
    }
}

impl AdapterEnding {
    pub fn copy(&self) -> (out: AdapterEnding)
        ensures
            out == *self,
    {
        match self {
            AdapterEnding::Decoded => AdapterEnding::Decoded,
            AdapterEnding::Terminal => AdapterEnding::Terminal,
            AdapterEnding::PartialFrame { byte_count, after } => AdapterEnding::PartialFrame {
                byte_count: *byte_count,
                after: *after,
            },
            AdapterEnding::Error { boundary, kind, status, retryable } => AdapterEnding::Error {
                boundary: boundary.clone(),
                kind: kind.clone(),
                status: *status,
                retryable: *retryable,
            },
            AdapterEnding::Other { name } => AdapterEnding::Other { name: name.clone() },
        }
    }
}

impl AdapterVerdict {
    pub fn copy(&self) -> (out: AdapterVerdict)
        ensures
            out == *self,
    {
        AdapterVerdict {
            finish_reason: same_text(&self.finish_reason),
            block_reason: same_text(&self.block_reason),
            detail: same_text(&self.detail),
            model: same_text(&self.model),
        }
    }
}

impl AdapterErrorEnvelope {
    pub fn copy(&self) -> (out: AdapterErrorEnvelope)
        ensures
            out == *self,
    {
        AdapterErrorEnvelope { code: same_text(&self.code), message: same_text(&self.message) }
    }
}

impl AdapterAnalysis {
    pub fn copy(&self) -> (out: AdapterAnalysis)
        ensures
            out == *self,
    {
        AdapterAnalysis {
            response_id: same_text(&self.response_id),
            headers: same_text(&self.headers),
            timing: same_text(&self.timing),
        }
    }
}

impl AdapterEvent {
    pub fn copy(&self) -> (out: AdapterEvent)
        ensures
            out == *self,
    {
        match self {
            AdapterEvent::Started => AdapterEvent::Started,
            AdapterEvent::Response { status } => AdapterEvent::Response { status: *status },
            AdapterEvent::Provider { verdict } => AdapterEvent::Provider {
                verdict: verdict.copy(),
            },
            AdapterEvent::ErrorEnvelope { error } => AdapterEvent::ErrorEnvelope {
                error: error.copy(),
            },
            AdapterEvent::Usage { usage } => AdapterEvent::Usage { usage: *usage },
            AdapterEvent::TransportEof { after, partial_bytes } => AdapterEvent::TransportEof {
                after: *after,
                partial_bytes: *partial_bytes,
            },
            AdapterEvent::Finished { ending } => AdapterEvent::Finished { ending: ending.copy() },
            AdapterEvent::Corrupt { frame } => AdapterEvent::Corrupt { frame: *frame },
            AdapterEvent::Other { name } => AdapterEvent::Other { name: name.clone() },
        }
    }
}

impl AdapterObservation {
    pub fn copy(&self) -> (out: AdapterObservation)
        ensures
            out == *self,
    {
        AdapterObservation {
            operation: self.operation.clone(),
            attempt: self.attempt,
            host_attempt: self.host_attempt,
            event: self.event.copy(),
            analysis: match &self.analysis {
                Some(analysis) => Some(analysis.copy()),
                None => None,
            },
        }
    }
}

impl FailureDetail {
    pub fn copy(&self) -> (out: FailureDetail)
        ensures
            out == *self,
    {
        FailureDetail {
            kind: self.kind.clone(),
            boundary: self.boundary.clone(),
            http_status: self.http_status,
            adapter: match &self.adapter {
                Some(attempt) => Some(
                    FailedAttempt {
                        operation: attempt.operation.clone(),
                        ending: match &attempt.ending {
                            Some(ending) => Some(ending.copy()),
                            None => None,
                        },
                    },
                ),
                None => None,
            },
            shown: self.shown.clone(),
        }
    }
}

fn same_failure(part: &Option<FailureDetail>) -> (out: Option<FailureDetail>)
    ensures
        out == *part,
{
    match part {
        Some(failure) => Some(failure.copy()),
        None => None,
    }
}

impl HostPayload {
    pub fn copy(&self) -> (out: HostPayload)
        ensures
            out == *self,
    {
        HostPayload {
            failure: same_failure(&self.failure),
            operation: same_text(&self.operation),
            attempt: self.attempt,
            wait_secs: self.wait_secs,
            decision: same_text(&self.decision),
        }
    }
}

impl Action {
    pub fn copy(&self) -> (out: Action)
        ensures
            out == *self,
    {
        match self {
            Action::Held => Action::Held,
            Action::Released => Action::Released,
            Action::Adapter { fact } => Action::Adapter { fact: fact.copy() },
            Action::StreamTruncated => Action::StreamTruncated,
            Action::Denied => Action::Denied,
            Action::Refused => Action::Refused,
            Action::Cancelled => Action::Cancelled,
            Action::Ended { code } => Action::Ended { code: code.clone() },
            Action::Host { kind, payload } => Action::Host {
                kind: kind.clone(),
                payload: payload.copy(),
            },
            Action::Other { name } => Action::Other { name: name.clone() },
        }
    }
}

/// What a host observation carries, from the JSON text of its payload and the
/// failure that the payload decodes as.
pub fn host_payload(payload: &str, failure: Option<FailureDetail>) -> (out: HostPayload)
    ensures
        out.failure == failure,
        ({
            let members = match json::json_object(payload@) {
                Some(members) => members,
                None => Map::empty(),
            };
            &&& text::opt(out.operation) == json::text_member(members, "operation"@)
            &&& out.attempt == json::count_member(members, "attempt"@)
            &&& out.wait_secs == json::count_member(members, "wait_secs"@)
            &&& text::opt(out.decision) == json::text_member(members, "decision"@)
        }),
{
    match json::parse(payload) {
        Some(value) => HostPayload {
            failure,
            operation: json::text_at(&value, "operation"),
            attempt: json::count_at(&value, "attempt"),
            wait_secs: json::count_at(&value, "wait_secs"),
            decision: json::text_at(&value, "decision"),
        },
        None => HostPayload {
            failure,
            operation: None,
            attempt: None,
            wait_secs: None,
            decision: None,
        },
    }
}

// ---------------------------------------------------------------------------
// What was observed

/// An adapter fact with its original effect/run correlation.
#[derive(Debug)]
pub struct ObservedAdapter {
    pub subject: Subject,
    pub fact: AdapterObservation,
}

/// Body completeness is independent of the provider verdict and task score.
#[derive(Clone, Copy, Debug, PartialEq, Eq, Structural)]
pub struct ObservedEof {
    pub after: usize,
    pub partial_bytes: usize,
}

/// One send's latest usage and closure, without summing cumulative snapshots.
/// A closure describes the provider boundary, never independent task success.
#[derive(Debug)]
pub struct ObservedAttempt {
    pub subject: Subject,
    pub operation: String,
    pub attempt: u64,
    pub host_attempt: Option<u64>,
    pub started: bool,
    pub status: Option<u16>,
    pub ending: Option<AdapterEnding>,
    /// Observed body EOF, even when the adapter also produced a terminal.
    pub transport_eof: Option<ObservedEof>,
    /// Last reported value of each provider metadata field.
    pub verdict: AdapterVerdict,
    pub error_envelope: Option<AdapterErrorEnvelope>,
    /// Volatile diagnostics remain separate from semantic provider facts.
    pub analysis: AdapterAnalysis,
    /// Last reported snapshot, potentially partial even when the send closed.
    /// None means no usage report was observed, not zero consumption.
    pub usage: Option<AdapterUsage>,
}

/// An actual host retry decision, independent of provider retryability.
#[derive(Debug)]
pub struct ObservedRetry {
    pub subject: Subject,
    pub operation: Option<String>,
    /// One-based retry decision ordinal (retry 1 follows host attempt 1).
    pub retry: Option<u64>,
    pub wait_secs: Option<u64>,
}

/// One owner's acquisition or release, in trace order. These are transitions,
/// not an active-owner snapshot: denial, cancellation or missing facts can end
/// a hold without an ordinary release.
/// Pre-dispatch subjects join by scope and order; effect IDs may be absent.
#[derive(Debug)]
pub struct ObservedHold {
    pub subject: Subject,
    pub owner: Emitter,
    pub acquired: bool,
}

/// A run ending and its optional injected-clock interval, joined by scope.
#[derive(Debug)]
pub struct ObservedRunEnding {
    pub subject: Subject,
    pub ending: String,
    pub timing: Option<String>,
}

/// One measured handler boundary with its execution-local subject and outcome.
#[derive(Debug)]
pub struct ObservedHandlerTiming {
    pub subject: Subject,
    pub timing: String,
    pub ending: Action,
}

/// The decision trace, counted.
#[derive(Debug)]
pub struct Observed {
    /// Execution and clock provenance; absent in legacy/unlabelled artifacts.
    pub measurement_context: Option<MeasurementContext>,
    /// Provider content origin, independent of measurement execution mode.
    pub recording_provenance: Option<RecordingProvenance>,
    /// Handler intervals attached to their landing/cancellation facts.
    pub handler_timings: Vec<ObservedHandlerTiming>,
    /// Typed provider boundary facts; no reconstruction from cassette bodies.
    pub adapter: Vec<ObservedAdapter>,
    /// Attempt summaries in first-observed order; failures keep their own usage.
    pub attempts: Vec<ObservedAttempt>,
    /// A valid trace was present, finalized, and had no dropped facts.
    pub complete: bool,
    /// Whether a trace could be decoded; missing/malformed is not empty success.
    pub trace_present: bool,
    /// Whether the producer explicitly finalized the trace, when available.
    pub finalized: Option<bool>,
    /// Facts the sink dropped; unknown when no valid trace was available.
    pub dropped: Option<u64>,
    /// Provider streams that ended before their terminal record.
    pub stream_truncations: u64,
    /// Tool calls a gate or steering rule denied.
    pub denials: u64,
    /// Whole-prompt provider retries the session made.
    pub provider_retries: u64,
    pub retry_decisions: Vec<ObservedRetry>,
    /// Intents the driver refused (no handler, re-entrant, ids exhausted).
    pub refusals: u64,
    /// Approval holds, and how many of them were denied.
    pub holds: u64,
    pub held_denied: u64,
    /// Named batch/policy transitions, separate from approval decision counts.
    pub hold_transitions: Vec<ObservedHold>,
    /// Dispatches cancelled while a handler served them (a tool still
    /// running when the run was cancelled).
    pub cancelled_in_flight: u64,
    /// Every run ending the witness saw, in order, with its scope and optional
    /// interval (`settled`, `provider`, `cancelled`, `max_turns`, …).
    pub endings: Vec<ObservedRunEnding>,
    /// Latest structured failure, retained even when a later retry settles.
    pub last_failure: Option<FailureDetail>,
}

/// What was observed, its lists as sequences.
pub struct Seen {
    pub measurement_context: Option<MeasurementContext>,
    pub recording_provenance: Option<RecordingProvenance>,
    pub handler_timings: Seq<ObservedHandlerTiming>,
    pub adapter: Seq<ObservedAdapter>,
    pub attempts: Seq<ObservedAttempt>,
    pub complete: bool,
    pub trace_present: bool,
    pub finalized: Option<bool>,
    pub dropped: Option<u64>,
    pub stream_truncations: nat,
    pub denials: nat,
    pub provider_retries: nat,
    pub retry_decisions: Seq<ObservedRetry>,
    pub refusals: nat,
    pub holds: nat,
    pub held_denied: nat,
    pub hold_transitions: Seq<ObservedHold>,
    pub cancelled_in_flight: nat,
    pub endings: Seq<ObservedRunEnding>,
    pub last_failure: Option<FailureDetail>,
}

impl View for Observed {
    type V = Seen;

    open spec fn view(&self) -> Seen {
        Seen {
            measurement_context: self.measurement_context,
            recording_provenance: self.recording_provenance,
            handler_timings: self.handler_timings@,
            adapter: self.adapter@,
            attempts: self.attempts@,
            complete: self.complete,
            trace_present: self.trace_present,
            finalized: self.finalized,
            dropped: self.dropped,
            stream_truncations: self.stream_truncations as nat,
            denials: self.denials as nat,
            provider_retries: self.provider_retries as nat,
            retry_decisions: self.retry_decisions@,
            refusals: self.refusals as nat,
            holds: self.holds as nat,
            held_denied: self.held_denied as nat,
            hold_transitions: self.hold_transitions@,
            cancelled_in_flight: self.cancelled_in_flight as nat,
            endings: self.endings@,
            last_failure: self.last_failure,
        }
    }
}

/// Nothing observed: no trace could be read.
pub open spec fn nothing() -> Seen {
    Seen {
        measurement_context: None,
        recording_provenance: None,
        handler_timings: Seq::empty(),
        adapter: Seq::empty(),
        attempts: Seq::empty(),
        complete: false,
        trace_present: false,
        finalized: None,
        dropped: None,
        stream_truncations: 0,
        denials: 0,
        provider_retries: 0,
        retry_decisions: Seq::empty(),
        refusals: 0,
        holds: 0,
        held_denied: 0,
        hold_transitions: Seq::empty(),
        cancelled_in_flight: 0,
        endings: Seq::empty(),
        last_failure: None,
    }
}

/// What a trace says before its first observation.
pub open spec fn labelled(artifact: ObservationArtifact) -> Seen {
    Seen {
        measurement_context: artifact.measurement_context,
        recording_provenance: artifact.recording_provenance,
        complete: artifact.finalized && artifact.dropped == 0,
        trace_present: true,
        finalized: Some(artifact.finalized),
        dropped: Some(artifact.dropped),
        ..nothing()
    }
}

// ---------------------------------------------------------------------------
// Attempts

/// Whether a summary is of the attempt: the same run, operation and ordinal.
pub open spec fn is_attempt(
    a: ObservedAttempt,
    scope: Option<Seq<char>>,
    operation: Seq<char>,
    attempt: u64,
) -> bool {
    text::opt(a.subject.scope) == scope && a.operation@ == operation && a.attempt == attempt
}

/// Where the attempt's summary stands; past the end where it has none.
pub open spec fn place_of(
    attempts: Seq<ObservedAttempt>,
    scope: Option<Seq<char>>,
    operation: Seq<char>,
    attempt: u64,
) -> int
    decreases attempts.len(),
{
    if attempts.len() == 0 || is_attempt(attempts[0], scope, operation, attempt) {
        0
    } else {
        1 + place_of(attempts.skip(1), scope, operation, attempt)
    }
}

/// The summary of an attempt of which nothing more is known.
pub open spec fn fresh(subject: Subject, fact: AdapterObservation, attempt: u64) -> ObservedAttempt {
    ObservedAttempt {
        subject,
        operation: fact.operation,
        attempt,
        host_attempt: fact.host_attempt,
        started: false,
        status: None,
        ending: None,
        transport_eof: None,
        verdict: AdapterVerdict {
            finish_reason: None,
            block_reason: None,
            detail: None,
            model: None,
        },
        error_envelope: None,
        analysis: AdapterAnalysis { response_id: None, headers: None, timing: None },
        usage: None,
    }
}

/// The later text where there is one, else the earlier.
pub open spec fn latest(earlier: Option<String>, later: Option<String>) -> Option<String> {
    match later {
        Some(_) => later,
        None => earlier,
    }
}

/// A summary with the diagnostics of one more fact.
pub open spec fn with_analysis(
    earlier: AdapterAnalysis,
    later: Option<AdapterAnalysis>,
) -> AdapterAnalysis {
    match later {
        Some(found) => AdapterAnalysis {
            response_id: latest(earlier.response_id, found.response_id),
            headers: latest(earlier.headers, found.headers),
            timing: latest(earlier.timing, found.timing),
        },
        None => earlier,
    }
}

/// A summary with one more fact of its attempt.
pub open spec fn with_fact(a: ObservedAttempt, fact: AdapterObservation) -> ObservedAttempt {
    let b = ObservedAttempt { analysis: with_analysis(a.analysis, fact.analysis), ..a };
    match fact.event {
        AdapterEvent::Provider { verdict } => ObservedAttempt {
            verdict: AdapterVerdict {
                finish_reason: latest(b.verdict.finish_reason, verdict.finish_reason),
                block_reason: latest(b.verdict.block_reason, verdict.block_reason),
                detail: latest(b.verdict.detail, verdict.detail),
                model: latest(b.verdict.model, verdict.model),
            },
            ..b
        },
        AdapterEvent::ErrorEnvelope { error } => ObservedAttempt {
            error_envelope: Some(error),
            ..b
        },
        AdapterEvent::Started => ObservedAttempt { started: true, ..b },
        AdapterEvent::Response { status } => ObservedAttempt { status: Some(status), ..b },
        AdapterEvent::Finished { ending } => ObservedAttempt { ending: Some(ending), ..b },
        AdapterEvent::Usage { usage } => ObservedAttempt { usage: Some(usage), ..b },
        AdapterEvent::TransportEof { after, partial_bytes } => ObservedAttempt {
            transport_eof: Some(ObservedEof { after, partial_bytes }),
            ..b
        },
        _ => b,
    }
}

/// The summaries with one more fact of the attempt `n` of its operation.
pub open spec fn attempts_with(
    attempts: Seq<ObservedAttempt>,
    subject: Subject,
    fact: AdapterObservation,
    n: u64,
) -> Seq<ObservedAttempt> {
    let at = place_of(attempts, text::opt(subject.scope), fact.operation@, n);
    let known = if at < attempts.len() {
        attempts
    } else {
        attempts.push(fresh(subject, fact, n))
    };
    known.update(at, with_fact(known[at], fact))
}

// ---------------------------------------------------------------------------
// The count

/// What is seen once an observation's interval is noted.
pub open spec fn timed(s: Seen, o: Observation) -> Seen {
    match o.handler_timing {
        Some(timing) => Seen {
            handler_timings: s.handler_timings.push(
                ObservedHandlerTiming { subject: o.subject, timing, ending: o.action },
            ),
            ..s
        },
        None => s,
    }
}

/// What is seen once a host observation is noted.
pub open spec fn hosted(s: Seen, o: Observation, kind: Seq<char>, payload: HostPayload) -> Seen {
    if kind == "rigcoder/failure"@ {
        Seen {
            last_failure: if payload.failure is Some {
                payload.failure
            } else {
                s.last_failure
            },
            ..s
        }
    } else if kind == "rigcoder/provider_retry"@ {
        Seen {
            provider_retries: s.provider_retries + 1,
            retry_decisions: s.retry_decisions.push(
                ObservedRetry {
                    subject: o.subject,
                    operation: payload.operation,
                    retry: payload.attempt,
                    wait_secs: payload.wait_secs,
                },
            ),
            ..s
        }
    } else if kind == "rigcoder/approval"@ {
        if text::opt(payload.decision) == Some("held"@) {
            Seen { holds: s.holds + 1, ..s }
        } else if text::opt(payload.decision) == Some("denied"@) {
            Seen { held_denied: s.held_denied + 1, ..s }
        } else {
            s
        }
    } else {
        s
    }
}

/// What is seen once an observation is noted.
pub open spec fn noted(before: Seen, o: Observation) -> Seen {
    let s = timed(before, o);
    match o.action {
        Action::Held => Seen {
            hold_transitions: s.hold_transitions.push(
                ObservedHold { subject: o.subject, owner: o.emitter, acquired: true },
            ),
            ..s
        },
        Action::Released => Seen {
            hold_transitions: s.hold_transitions.push(
                ObservedHold { subject: o.subject, owner: o.emitter, acquired: false },
            ),
            ..s
        },
        Action::Adapter { fact } => Seen {
            adapter: s.adapter.push(ObservedAdapter { subject: o.subject, fact }),
            attempts: match fact.attempt {
                Some(n) => attempts_with(s.attempts, o.subject, fact, n),
                None => s.attempts,
            },
            ..s
        },
        Action::StreamTruncated => Seen { stream_truncations: s.stream_truncations + 1, ..s },
        Action::Denied => Seen { denials: s.denials + 1, ..s },
        Action::Refused => Seen { refusals: s.refusals + 1, ..s },
        Action::Cancelled => if o.stage == Stage::Collect {
            Seen { cancelled_in_flight: s.cancelled_in_flight + 1, ..s }
        } else {
            s
        },
        Action::Ended { code } => Seen {
            endings: s.endings.push(
                ObservedRunEnding { subject: o.subject, ending: code, timing: o.run_timing },
            ),
            ..s
        },
        Action::Host { kind, payload } => hosted(s, o, kind@, payload),
        Action::Other { .. } => s,
    }
}

/// What is seen after the observations, from `start` on.
pub open spec fn after_all(start: Seen, observations: Seq<Observation>) -> Seen
    decreases observations.len(),
{
    if observations.len() == 0 {
        start
    } else {
        noted(after_all(start, observations.drop_last()), observations.last())
    }
}

/// What a trace says. No trace is nothing observed, never a claim that nothing
/// happened.
pub open spec fn seen(artifact: Option<ObservationArtifact>) -> Seen {
    match artifact {
        Some(found) => after_all(labelled(found), found.observations@),
        None => nothing(),
    }
}

// ---------------------------------------------------------------------------
// What every count keeps to

proof fn lemma_place(
    attempts: Seq<ObservedAttempt>,
    scope: Option<Seq<char>>,
    operation: Seq<char>,
    n: u64,
)
    ensures
        0 <= place_of(attempts, scope, operation, n) <= attempts.len(),
        place_of(attempts, scope, operation, n) < attempts.len() ==> is_attempt(
            attempts[place_of(attempts, scope, operation, n)],
            scope,
            operation,
            n,
        ),
        forall|i: int|
            0 <= i < place_of(attempts, scope, operation, n) ==> !is_attempt(
                #[trigger] attempts[i],
                scope,
                operation,
                n,
            ),
    decreases attempts.len(),
{
    if attempts.len() > 0 && !is_attempt(attempts[0], scope, operation, n) {
        let rest = attempts.skip(1);
        lemma_place(rest, scope, operation, n);
        assert forall|i: int| 0 <= i < place_of(attempts, scope, operation, n) implies !is_attempt(
            #[trigger] attempts[i],
            scope,
            operation,
            n,
        ) by {
            if i > 0 {
                assert(attempts[i] == rest[i - 1]);
            }
        }
    }
}

/// Whether two summaries are of one attempt.
pub open spec fn same_attempt(a: ObservedAttempt, b: ObservedAttempt) -> bool {
    is_attempt(a, text::opt(b.subject.scope), b.operation@, b.attempt)
}

/// Each attempt has one summary.
pub open spec fn separate(attempts: Seq<ObservedAttempt>) -> bool {
    forall|i: int, j: int|
        0 <= i < j < attempts.len() ==> !same_attempt(#[trigger] attempts[i], #[trigger] attempts[j])
}

/// A fact changes the summary of its own attempt alone, which stays the summary
/// of that attempt, and adds one at the end where there was none.
pub proof fn attempts_remain_separate(
    attempts: Seq<ObservedAttempt>,
    subject: Subject,
    fact: AdapterObservation,
    n: u64,
)
    requires
        separate(attempts),
    ensures
        separate(attempts_with(attempts, subject, fact, n)),
        attempts.len() <= attempts_with(attempts, subject, fact, n).len() <= attempts.len() + 1,
        forall|i: int|
            0 <= i < attempts.len() ==> {
                &&& same_attempt(
                    #[trigger] attempts_with(attempts, subject, fact, n)[i],
                    attempts[i],
                )
                &&& !is_attempt(attempts[i], text::opt(subject.scope), fact.operation@, n)
                    ==> attempts_with(attempts, subject, fact, n)[i] == attempts[i]
            },
{
    let scope = text::opt(subject.scope);
    lemma_place(attempts, scope, fact.operation@, n);
    let at = place_of(attempts, scope, fact.operation@, n);
    let known = if at < attempts.len() {
        attempts
    } else {
        attempts.push(fresh(subject, fact, n))
    };
    let after = attempts_with(attempts, subject, fact, n);
    assert(same_attempt(after[at], known[at]));
    assert forall|i: int, j: int| 0 <= i < j < after.len() implies !same_attempt(
        #[trigger] after[i],
        #[trigger] after[j],
    ) by {
        assert(same_attempt(after[i], known[i]));
        assert(same_attempt(after[j], known[j]));
        if j < attempts.len() {
            assert(!same_attempt(attempts[i], attempts[j]));
        } else {
            assert(!is_attempt(attempts[i], scope, fact.operation@, n));
        }
    }
}

/// The usage of an attempt is what was reported last, never a sum and never
/// that of another attempt.
pub proof fn usage_is_replaced(a: ObservedAttempt, fact: AdapterObservation)
    ensures
        with_fact(a, fact).usage == match fact.event {
            AdapterEvent::Usage { usage } => Some(usage),
            _ => a.usage,
        },
{
}

proof fn lemma_separate(start: Seen, observations: Seq<Observation>)
    requires
        separate(start.attempts),
    ensures
        separate(after_all(start, observations).attempts),
    decreases observations.len(),
{
    if observations.len() > 0 {
        lemma_separate(start, observations.drop_last());
        let o = observations.last();
        if let Action::Adapter { fact } = o.action {
            if let Some(n) = fact.attempt {
                attempts_remain_separate(
                    timed(after_all(start, observations.drop_last()), o).attempts,
                    o.subject,
                    fact,
                    n,
                );
            }
        }
    }
}

/// In what a trace says, each attempt has one summary.
pub proof fn each_attempt_is_summarized_once(artifact: Option<ObservationArtifact>)
    ensures
        separate(seen(artifact).attempts),
{
    if let Some(found) = artifact {
        lemma_separate(labelled(found), found.observations@);
    }
}

proof fn lemma_labels(start: Seen, observations: Seq<Observation>)
    ensures
        after_all(start, observations).complete == start.complete,
        after_all(start, observations).trace_present == start.trace_present,
        after_all(start, observations).finalized == start.finalized,
        after_all(start, observations).dropped == start.dropped,
        after_all(start, observations).measurement_context == start.measurement_context,
        after_all(start, observations).recording_provenance == start.recording_provenance,
    decreases observations.len(),
{
    if observations.len() > 0 {
        lemma_labels(start, observations.drop_last());
    }
}

/// Evidence is complete exactly when a trace was read that was finalized and
/// dropped nothing; the labels are the trace's own.
pub proof fn only_a_whole_trace_is_complete(artifact: Option<ObservationArtifact>)
    ensures
        seen(artifact).complete <==> (artifact matches Some(found) && found.finalized
            && found.dropped == 0),
        seen(artifact).trace_present <==> artifact is Some,
        artifact is None ==> seen(artifact).finalized is None && seen(artifact).dropped is None,
        artifact matches Some(found) ==> seen(artifact).finalized == Some(found.finalized) && seen(
            artifact,
        ).dropped == Some(found.dropped) && seen(artifact).measurement_context
            == found.measurement_context && seen(artifact).recording_provenance
            == found.recording_provenance,
{
    if let Some(found) = artifact {
        lemma_labels(labelled(found), found.observations@);
    }
}

/// The transitions of named holds that the observations tell, in order.
pub open spec fn holds_told(observations: Seq<Observation>) -> Seq<ObservedHold>
    decreases observations.len(),
{
    if observations.len() == 0 {
        Seq::empty()
    } else {
        let before = holds_told(observations.drop_last());
        let o = observations.last();
        match o.action {
            Action::Held => before.push(
                ObservedHold { subject: o.subject, owner: o.emitter, acquired: true },
            ),
            Action::Released => before.push(
                ObservedHold { subject: o.subject, owner: o.emitter, acquired: false },
            ),
            _ => before,
        }
    }
}

proof fn lemma_holds(start: Seen, observations: Seq<Observation>)
    ensures
        after_all(start, observations).hold_transitions == start.hold_transitions + holds_told(
            observations,
        ),
    decreases observations.len(),
{
    if observations.len() == 0 {
        assert(start.hold_transitions + holds_told(observations) =~= start.hold_transitions);
    } else {
        lemma_holds(start, observations.drop_last());
        assert(after_all(start, observations).hold_transitions =~= start.hold_transitions
            + holds_told(observations));
    }
}

/// A hold is acquired or released only where an observation says so: denial and
/// cancellation make up no release, and approval decisions are counted apart.
pub proof fn holds_are_only_what_was_told(artifact: ObservationArtifact)
    ensures
        seen(Some(artifact)).hold_transitions == holds_told(artifact.observations@),
{
    lemma_holds(labelled(artifact), artifact.observations@);
    assert(Seq::<ObservedHold>::empty() + holds_told(artifact.observations@) =~= holds_told(
        artifact.observations@,
    ));
}

proof fn lemma_facts_only(
    a: Seen,
    b: Seen,
    context: Option<MeasurementContext>,
    provenance: Option<RecordingProvenance>,
    observations: Seq<Observation>,
)
    requires
        b == (Seen { measurement_context: context, recording_provenance: provenance, ..a }),
    ensures
        after_all(b, observations) == (Seen {
            measurement_context: context,
            recording_provenance: provenance,
            ..after_all(a, observations)
        }),
    decreases observations.len(),
{
    if observations.len() > 0 {
        lemma_facts_only(a, b, context, provenance, observations.drop_last());
    }
}

/// How a run was executed and where its content came from change no fact that
/// is counted.
pub proof fn labels_change_no_fact(
    artifact: ObservationArtifact,
    context: Option<MeasurementContext>,
    provenance: Option<RecordingProvenance>,
)
    ensures
        seen(
            Some(
                ObservationArtifact {
                    measurement_context: context,
                    recording_provenance: provenance,
                    ..artifact
                },
            ),
        ) == (Seen {
            measurement_context: context,
            recording_provenance: provenance,
            ..seen(Some(artifact))
        }),
{
    let other = ObservationArtifact {
        measurement_context: context,
        recording_provenance: provenance,
        ..artifact
    };
    lemma_facts_only(
        labelled(artifact),
        labelled(other),
        context,
        provenance,
        artifact.observations@,
    );
}

/// The failure that the last decoded failure record of the observations holds.
pub open spec fn last_told(observations: Seq<Observation>) -> Option<FailureDetail>
    decreases observations.len(),
{
    if observations.len() == 0 {
        None
    } else {
        match observations.last().action {
            Action::Host { kind, payload } => if kind@ == "rigcoder/failure"@ && payload.failure
                is Some {
                payload.failure
            } else {
                last_told(observations.drop_last())
            },
            _ => last_told(observations.drop_last()),
        }
    }
}

proof fn lemma_last_told(start: Seen, observations: Seq<Observation>)
    ensures
        after_all(start, observations).last_failure == match last_told(observations) {
            Some(failure) => Some(failure),
            None => start.last_failure,
        },
    decreases observations.len(),
{
    if observations.len() > 0 {
        lemma_last_told(start, observations.drop_last());
    }
}

/// The latest failure that decodes is kept, whatever comes after it: neither a run
/// that settles nor a record that does not decode takes it back.
pub proof fn the_latest_failure_is_retained(artifact: ObservationArtifact)
    ensures
        seen(Some(artifact)).last_failure == last_told(artifact.observations@),
{
    lemma_last_told(labelled(artifact), artifact.observations@);
}

// ---------------------------------------------------------------------------
// Counting

fn same_scope(a: &Option<String>, b: &Option<String>) -> (r: bool)
    ensures
        r == (text::opt(*a) == text::opt(*b)),
{
    match (a, b) {
        (Some(x), Some(y)) => text::same(x.as_str(), y.as_str()),
        (None, None) => true,
        _ => false,
    }
}

fn find_attempt(attempts: &[ObservedAttempt], subject: &Subject, operation: &str, n: u64) -> (at:
    usize)
    ensures
        at == place_of(attempts@, text::opt(subject.scope), operation@, n),
{
    let total: usize = attempts.len();
    let mut at: usize = 0;
    let ghost scope = text::opt(subject.scope);
    assert(attempts@.skip(0) =~= attempts@);
    while at < total && !(same_scope(&attempts[at].subject.scope, &subject.scope) && text::same(
        attempts[at].operation.as_str(),
        operation,
    ) && attempts[at].attempt == n)
        invariant
            total == attempts@.len(),
            at <= total,
            scope == text::opt(subject.scope),
            place_of(attempts@, scope, operation@, n) == at + place_of(
                attempts@.skip(at as int),
                scope,
                operation@,
                n,
            ),
        decreases total - at,
    {
        assert(attempts@.skip(at as int)[0] == attempts@[at as int]);
        assert(attempts@.skip(at as int).skip(1) =~= attempts@.skip(at + 1));
        at += 1;
    }
    if at < total {
        assert(attempts@.skip(at as int)[0] == attempts@[at as int]);
    }
    at
}

fn later_text(earlier: &Option<String>, later: &Option<String>) -> (out: Option<String>)
    ensures
        out == latest(*earlier, *later),
{
    match later {
        Some(_) => same_text(later),
        None => same_text(earlier),
    }
}

fn merge_analysis(earlier: &AdapterAnalysis, later: &Option<AdapterAnalysis>) -> (out:
    AdapterAnalysis)
    ensures
        out == with_analysis(*earlier, *later),
{
    match later {
        Some(found) => AdapterAnalysis {
            response_id: later_text(&earlier.response_id, &found.response_id),
            headers: later_text(&earlier.headers, &found.headers),
            timing: later_text(&earlier.timing, &found.timing),
        },
        None => earlier.copy(),
    }
}

fn merge_fact(a: &ObservedAttempt, fact: &AdapterObservation) -> (out: ObservedAttempt)
    ensures
        out == with_fact(*a, *fact),
{
    let mut out: ObservedAttempt = ObservedAttempt {
        subject: a.subject.copy(),
        operation: a.operation.clone(),
        attempt: a.attempt,
        host_attempt: a.host_attempt,
        started: a.started,
        status: a.status,
        ending: match &a.ending {
            Some(ending) => Some(ending.copy()),
            None => None,
        },
        transport_eof: a.transport_eof,
        verdict: a.verdict.copy(),
        error_envelope: match &a.error_envelope {
            Some(error) => Some(error.copy()),
            None => None,
        },
        analysis: merge_analysis(&a.analysis, &fact.analysis),
        usage: a.usage,
    };
    match &fact.event {
        AdapterEvent::Provider { verdict } => {
            out.verdict =
            AdapterVerdict {
                finish_reason: later_text(&a.verdict.finish_reason, &verdict.finish_reason),
                block_reason: later_text(&a.verdict.block_reason, &verdict.block_reason),
                detail: later_text(&a.verdict.detail, &verdict.detail),
                model: later_text(&a.verdict.model, &verdict.model),
            };
        },
        AdapterEvent::ErrorEnvelope { error } => {
            out.error_envelope = Some(error.copy());
        },
        AdapterEvent::Started => {
            out.started = true;
        },
        AdapterEvent::Response { status } => {
            out.status = Some(*status);
        },
        AdapterEvent::Finished { ending } => {
            out.ending = Some(ending.copy());
        },
        AdapterEvent::Usage { usage } => {
            out.usage = Some(*usage);
        },
        AdapterEvent::TransportEof { after, partial_bytes } => {
            out.transport_eof = Some(ObservedEof { after: *after, partial_bytes: *partial_bytes });
        },
        _ => {},
    }
    out
}

fn note_fact(
    attempts: &mut Vec<ObservedAttempt>,
    subject: &Subject,
    fact: &AdapterObservation,
    n: u64,
)
    ensures
        final(attempts)@ == attempts_with(old(attempts)@, *subject, *fact, n),
{
    let at: usize = find_attempt(attempts, subject, fact.operation.as_str(), n);
    proof {
        lemma_place(attempts@, text::opt(subject.scope), fact.operation@, n);
    }
    if at == attempts.len() {
        attempts.push(
            ObservedAttempt {
                subject: subject.copy(),
                operation: fact.operation.clone(),
                attempt: n,
                host_attempt: fact.host_attempt,
                started: false,
                status: None,
                ending: None,
                transport_eof: None,
                verdict: AdapterVerdict {
                    finish_reason: None,
                    block_reason: None,
                    detail: None,
                    model: None,
                },
                error_envelope: None,
                analysis: AdapterAnalysis { response_id: None, headers: None, timing: None },
                usage: None,
            },
        );
    }
    let merged: ObservedAttempt = merge_fact(&attempts[at], fact);
    attempts.set(at, merged);
}

/// Nothing observed.
pub fn unobserved() -> (out: Observed)
    ensures
        out@ == nothing(),
{
    let out: Observed = Observed {
        measurement_context: None,
        recording_provenance: None,
        handler_timings: Vec::new(),
        adapter: Vec::new(),
        attempts: Vec::new(),
        complete: false,
        trace_present: false,
        finalized: None,
        dropped: None,
        stream_truncations: 0,
        denials: 0,
        provider_retries: 0,
        retry_decisions: Vec::new(),
        refusals: 0,
        holds: 0,
        held_denied: 0,
        hold_transitions: Vec::new(),
        cancelled_in_flight: 0,
        endings: Vec::new(),
        last_failure: None,
    };
    assert(out.handler_timings@ =~= Seq::empty());
    assert(out.adapter@ =~= Seq::empty());
    assert(out.attempts@ =~= Seq::empty());
    assert(out.retry_decisions@ =~= Seq::empty());
    assert(out.hold_transitions@ =~= Seq::empty());
    assert(out.endings@ =~= Seq::empty());
    out
}

/// No count is above `n`.
pub open spec fn counts_within(s: Seen, n: nat) -> bool {
    &&& s.stream_truncations <= n
    &&& s.denials <= n
    &&& s.provider_retries <= n
    &&& s.refusals <= n
    &&& s.holds <= n
    &&& s.held_denied <= n
    &&& s.cancelled_in_flight <= n
}

fn decides(payload: &HostPayload, word: &str) -> (r: bool)
    ensures
        r == (text::opt(payload.decision) == Some(word@)),
{
    match &payload.decision {
        Some(found) => text::same(found.as_str(), word),
        None => false,
    }
}

fn note(out: &mut Observed, o: &Observation, n: u64)
    requires
        counts_within(old(out)@, n as nat),
        n < u64::MAX,
    ensures
        final(out)@ == noted(old(out)@, *o),
        counts_within(final(out)@, n as nat + 1),
{
    if let Some(timing) = &o.handler_timing {
        out.handler_timings.push(
            ObservedHandlerTiming {
                subject: o.subject.copy(),
                timing: timing.clone(),
                ending: o.action.copy(),
            },
        );
    }
    match &o.action {
        Action::Held => {
            out.hold_transitions.push(
                ObservedHold { subject: o.subject.copy(), owner: o.emitter.copy(), acquired: true },
            );
        },
        Action::Released => {
            out.hold_transitions.push(
                ObservedHold { subject: o.subject.copy(), owner: o.emitter.copy(), acquired: false },
            );
        },
        Action::Adapter { fact } => {
            out.adapter.push(ObservedAdapter { subject: o.subject.copy(), fact: fact.copy() });
            if let Some(ordinal) = fact.attempt {
                note_fact(&mut out.attempts, &o.subject, fact, ordinal);
            }
        },
        Action::StreamTruncated => {
            out.stream_truncations = out.stream_truncations + 1;
        },
        Action::Denied => {
            out.denials = out.denials + 1;
        },
        Action::Refused => {
            out.refusals = out.refusals + 1;
        },
        Action::Cancelled => {
            if o.stage == Stage::Collect {
                out.cancelled_in_flight = out.cancelled_in_flight + 1;
            }
        },
        Action::Ended { code } => {
            out.endings.push(
                ObservedRunEnding {
                    subject: o.subject.copy(),
                    ending: code.clone(),
                    timing: same_text(&o.run_timing),
                },
            );
        },
        Action::Host { kind, payload } => {
            if text::same(kind.as_str(), "rigcoder/failure") {
                if payload.failure.is_some() {
                    out.last_failure = same_failure(&payload.failure);
                }
            } else if text::same(kind.as_str(), "rigcoder/provider_retry") {
                out.provider_retries = out.provider_retries + 1;
                out.retry_decisions.push(
                    ObservedRetry {
                        subject: o.subject.copy(),
                        operation: same_text(&payload.operation),
                        retry: payload.attempt,
                        wait_secs: payload.wait_secs,
                    },
                );
            } else if text::same(kind.as_str(), "rigcoder/approval") {
                if decides(payload, "held") {
                    out.holds = out.holds + 1;
                } else if decides(payload, "denied") {
                    out.held_denied = out.held_denied + 1;
                }
            }
        },
        Action::Other { .. } => {},
    }
}

/// Count what an observation trace says. A missing or unparsable trace is
/// an incomplete, empty `Observed`, never a claim that nothing happened.
pub fn observed(artifact: Option<&ObservationArtifact>) -> (out: Observed)
    ensures
        out@ == seen(
            match artifact {
                Some(found) => Some(*found),
                None => None,
            },
        ),
{
    let mut out: Observed = unobserved();
    if let Some(found) = artifact {
        out.measurement_context = found.measurement_context;
        out.recording_provenance = found.recording_provenance;
        out.complete = found.finalized && found.dropped == 0;
        out.trace_present = true;
        out.finalized = Some(found.finalized);
        out.dropped = Some(found.dropped);
        let n: usize = found.observations.len();
        for i in 0..n
            invariant
                n == found.observations@.len(),
                counts_within(out@, i as nat),
                out@ == after_all(labelled(*found), found.observations@.take(i as int)),
        {
            assert(found.observations@.take(i + 1).drop_last() =~= found.observations@.take(
                i as int,
            ));
            note(&mut out, &found.observations[i], i as u64);
        }
        assert(found.observations@.take(n as int) =~= found.observations@);
    }
    out
}

/// Whether nothing was observed.
pub fn is_nothing(o: &Observed) -> (r: bool)
    ensures
        r == (o@ == nothing()),
{
    let r: bool = o.measurement_context.is_none() && o.recording_provenance.is_none()
        && o.handler_timings.len() == 0 && o.adapter.len() == 0 && o.attempts.len() == 0
        && !o.complete && !o.trace_present && o.finalized.is_none() && o.dropped.is_none()
        && o.stream_truncations == 0 && o.denials == 0 && o.provider_retries == 0
        && o.retry_decisions.len() == 0 && o.refusals == 0 && o.holds == 0 && o.held_denied == 0
        && o.hold_transitions.len() == 0 && o.cancelled_in_flight == 0 && o.endings.len() == 0
        && o.last_failure.is_none();
    proof {
        if r {
            assert(o.handler_timings@ =~= Seq::empty());
            assert(o.adapter@ =~= Seq::empty());
            assert(o.attempts@ =~= Seq::empty());
            assert(o.retry_decisions@ =~= Seq::empty());
            assert(o.hold_transitions@ =~= Seq::empty());
            assert(o.endings@ =~= Seq::empty());
        }
    }
    r
}

// ---------------------------------------------------------------------------
// What a count says of the trace

/// Whether an observation is the host's, of that kind.
pub open spec fn is_host(o: Observation, kind: Seq<char>) -> bool {
    o.action is Host && o.action->kind@ == kind
}

/// Whether an observation is an approval that was decided so.
pub open spec fn is_approval(o: Observation, decision: Seq<char>) -> bool {
    is_host(o, "rigcoder/approval"@) && o.action->payload.decision is Some
        && o.action->payload.decision->0@ == decision
}

proof fn lemma_counts(start: Seen, all: Seq<Observation>)
    ensures
        ({
            let s = after_all(start, all);
            &&& s.stream_truncations == start.stream_truncations + all.filter(
                |o: Observation| o.action is StreamTruncated,
            ).len()
            &&& s.denials == start.denials + all.filter(
                |o: Observation| o.action is Denied,
            ).len()
            &&& s.refusals == start.refusals + all.filter(
                |o: Observation| o.action is Refused,
            ).len()
            &&& s.cancelled_in_flight == start.cancelled_in_flight + all.filter(
                |o: Observation| o.action is Cancelled && o.stage == Stage::Collect,
            ).len()
        }),
    decreases all.len(),
{
    reveal(Seq::filter);
    if all.len() > 0 {
        lemma_counts(start, all.drop_last());
    }
}

proof fn lemma_host_counts(start: Seen, all: Seq<Observation>)
    ensures
        ({
            let s = after_all(start, all);
            &&& s.provider_retries == start.provider_retries + all.filter(
                |o: Observation| is_host(o, "rigcoder/provider_retry"@),
            ).len()
            &&& s.holds == start.holds + all.filter(
                |o: Observation| is_approval(o, "held"@),
            ).len()
            &&& s.held_denied == start.held_denied + all.filter(
                |o: Observation| is_approval(o, "denied"@),
            ).len()
        }),
    decreases all.len(),
{
    reveal(Seq::filter);
    reveal_strlit("rigcoder/failure");
    reveal_strlit("rigcoder/provider_retry");
    reveal_strlit("rigcoder/approval");
    reveal_strlit("held");
    reveal_strlit("denied");
    assert("rigcoder/failure"@.len() == 16 && "rigcoder/provider_retry"@.len() == 23);
    assert("rigcoder/approval"@.len() == 17 && "held"@.len() != "denied"@.len());
    if all.len() > 0 {
        lemma_host_counts(start, all.drop_last());
    }
}

/// Every truncated stream, denial and refusal is counted; a cancellation is counted in
/// flight only where a handler served it; and a retry or a decided approval only where
/// the host says so.
pub proof fn every_observation_is_counted(artifact: ObservationArtifact)
    ensures
        ({
            let s = seen(Some(artifact));
            let all = artifact.observations@;
            &&& s.stream_truncations == all.filter(
                |o: Observation| o.action is StreamTruncated,
            ).len()
            &&& s.denials == all.filter(|o: Observation| o.action is Denied).len()
            &&& s.refusals == all.filter(|o: Observation| o.action is Refused).len()
            &&& s.cancelled_in_flight == all.filter(
                |o: Observation| o.action is Cancelled && o.stage == Stage::Collect,
            ).len()
            &&& s.provider_retries == all.filter(
                |o: Observation| is_host(o, "rigcoder/provider_retry"@),
            ).len()
            &&& s.holds == all.filter(|o: Observation| is_approval(o, "held"@)).len()
            &&& s.held_denied == all.filter(|o: Observation| is_approval(o, "denied"@)).len()
        }),
{
    lemma_counts(labelled(artifact), artifact.observations@);
    lemma_host_counts(labelled(artifact), artifact.observations@);
}

proof fn lemma_lists(start: Seen, all: Seq<Observation>)
    ensures
        ({
            let s = after_all(start, all);
            &&& s.handler_timings == start.handler_timings + all.filter(
                |o: Observation| o.handler_timing is Some,
            ).map_values(
                |o: Observation|
                    ObservedHandlerTiming {
                        subject: o.subject,
                        timing: o.handler_timing->0,
                        ending: o.action,
                    },
            )
            &&& s.adapter == start.adapter + all.filter(
                |o: Observation| o.action is Adapter,
            ).map_values(
                |o: Observation| ObservedAdapter { subject: o.subject, fact: o.action->fact },
            )
            &&& s.endings == start.endings + all.filter(
                |o: Observation| o.action is Ended,
            ).map_values(
                |o: Observation|
                    ObservedRunEnding {
                        subject: o.subject,
                        ending: o.action->code,
                        timing: o.run_timing,
                    },
            )
        }),
    decreases all.len(),
{
    reveal(Seq::filter);
    let s = after_all(start, all);
    if all.len() > 0 {
        lemma_lists(start, all.drop_last());
    }
    assert(s.handler_timings =~= start.handler_timings + all.filter(
        |o: Observation| o.handler_timing is Some,
    ).map_values(
        |o: Observation|
            ObservedHandlerTiming {
                subject: o.subject,
                timing: o.handler_timing->0,
                ending: o.action,
            },
    ));
    assert(s.adapter =~= start.adapter + all.filter(
        |o: Observation| o.action is Adapter,
    ).map_values(|o: Observation| ObservedAdapter { subject: o.subject, fact: o.action->fact }));
    assert(s.endings =~= start.endings + all.filter(
        |o: Observation| o.action is Ended,
    ).map_values(
        |o: Observation|
            ObservedRunEnding {
                subject: o.subject,
                ending: o.action->code,
                timing: o.run_timing,
            },
    ));
}

proof fn lemma_more_lists(start: Seen, all: Seq<Observation>)
    ensures
        ({
            let s = after_all(start, all);
            &&& s.retry_decisions == start.retry_decisions + all.filter(
                |o: Observation| is_host(o, "rigcoder/provider_retry"@),
            ).map_values(
                |o: Observation|
                    ObservedRetry {
                        subject: o.subject,
                        operation: o.action->payload.operation,
                        retry: o.action->payload.attempt,
                        wait_secs: o.action->payload.wait_secs,
                    },
            )
            &&& s.hold_transitions == start.hold_transitions + all.filter(
                |o: Observation| o.action is Held || o.action is Released,
            ).map_values(
                |o: Observation|
                    ObservedHold {
                        subject: o.subject,
                        owner: o.emitter,
                        acquired: o.action is Held,
                    },
            )
        }),
    decreases all.len(),
{
    reveal(Seq::filter);
    reveal_strlit("rigcoder/failure");
    reveal_strlit("rigcoder/provider_retry");
    assert("rigcoder/failure"@.len() != "rigcoder/provider_retry"@.len());
    let s = after_all(start, all);
    if all.len() > 0 {
        lemma_more_lists(start, all.drop_last());
    }
    assert(s.retry_decisions =~= start.retry_decisions + all.filter(
        |o: Observation| is_host(o, "rigcoder/provider_retry"@),
    ).map_values(
        |o: Observation|
            ObservedRetry {
                subject: o.subject,
                operation: o.action->payload.operation,
                retry: o.action->payload.attempt,
                wait_secs: o.action->payload.wait_secs,
            },
    ));
    assert(s.hold_transitions =~= start.hold_transitions + all.filter(
        |o: Observation| o.action is Held || o.action is Released,
    ).map_values(
        |o: Observation|
            ObservedHold { subject: o.subject, owner: o.emitter, acquired: o.action is Held },
    ));
}

/// Every interval, provider fact, run ending, retry decision and hold transition that a
/// trace tells is kept, in the order of the trace, with the subject it is about, and
/// nothing else is.
pub proof fn what_is_told_is_kept_in_order(artifact: ObservationArtifact)
    ensures
        ({
            let s = seen(Some(artifact));
            let all = artifact.observations@;
            &&& s.handler_timings == all.filter(
                |o: Observation| o.handler_timing is Some,
            ).map_values(
                |o: Observation|
                    ObservedHandlerTiming {
                        subject: o.subject,
                        timing: o.handler_timing->0,
                        ending: o.action,
                    },
            )
            &&& s.adapter == all.filter(|o: Observation| o.action is Adapter).map_values(
                |o: Observation| ObservedAdapter { subject: o.subject, fact: o.action->fact },
            )
            &&& s.endings == all.filter(|o: Observation| o.action is Ended).map_values(
                |o: Observation|
                    ObservedRunEnding {
                        subject: o.subject,
                        ending: o.action->code,
                        timing: o.run_timing,
                    },
            )
            &&& s.retry_decisions == all.filter(
                |o: Observation| is_host(o, "rigcoder/provider_retry"@),
            ).map_values(
                |o: Observation|
                    ObservedRetry {
                        subject: o.subject,
                        operation: o.action->payload.operation,
                        retry: o.action->payload.attempt,
                        wait_secs: o.action->payload.wait_secs,
                    },
            )
            &&& s.hold_transitions == all.filter(
                |o: Observation| o.action is Held || o.action is Released,
            ).map_values(
                |o: Observation|
                    ObservedHold {
                        subject: o.subject,
                        owner: o.emitter,
                        acquired: o.action is Held,
                    },
            )
        }),
{
    let start = labelled(artifact);
    let all = artifact.observations@;
    lemma_lists(start, all);
    lemma_more_lists(start, all);
    assert forall|s: Seq<ObservedHandlerTiming>| #[trigger] (start.handler_timings + s) == s by {
        assert(start.handler_timings + s =~= s);
    }
    assert forall|s: Seq<ObservedAdapter>| #[trigger] (start.adapter + s) == s by {
        assert(start.adapter + s =~= s);
    }
    assert forall|s: Seq<ObservedRunEnding>| #[trigger] (start.endings + s) == s by {
        assert(start.endings + s =~= s);
    }
    assert forall|s: Seq<ObservedRetry>| #[trigger] (start.retry_decisions + s) == s by {
        assert(start.retry_decisions + s =~= s);
    }
    assert forall|s: Seq<ObservedHold>| #[trigger] (start.hold_transitions + s) == s by {
        assert(start.hold_transitions + s =~= s);
    }
}

/// A fact of an attempt changes what it tells of that attempt, and nothing else: a start,
/// a status, an ending, an end of the body, an error and a usage replace what was known,
/// a provider's words and diagnostics replace it field by field where they say anything,
/// and the attempt stays the attempt that it is.
pub proof fn a_fact_changes_what_it_tells(a: ObservedAttempt, fact: AdapterObservation)
    ensures
        ({
            let b = with_fact(a, fact);
            &&& b.subject == a.subject && b.operation == a.operation && b.attempt == a.attempt
            &&& b.host_attempt == a.host_attempt
            &&& b.started == (a.started || fact.event is Started)
            &&& b.status == if fact.event is Response {
                Some(fact.event->status)
            } else {
                a.status
            }
            &&& b.ending == if fact.event is Finished {
                Some(fact.event->ending)
            } else {
                a.ending
            }
            &&& b.error_envelope == if fact.event is ErrorEnvelope {
                Some(fact.event->error)
            } else {
                a.error_envelope
            }
            &&& b.usage == if fact.event is Usage {
                Some(fact.event->usage)
            } else {
                a.usage
            }
            &&& b.transport_eof == if fact.event is TransportEof {
                Some(
                    ObservedEof {
                        after: fact.event->after,
                        partial_bytes: fact.event->partial_bytes,
                    },
                )
            } else {
                a.transport_eof
            }
            &&& !(fact.event is Provider) ==> b.verdict == a.verdict
            &&& fact.event is Provider ==> {
                let said = fact.event->verdict;
                &&& b.verdict.finish_reason == if said.finish_reason is Some {
                    said.finish_reason
                } else {
                    a.verdict.finish_reason
                }
                &&& b.verdict.block_reason == if said.block_reason is Some {
                    said.block_reason
                } else {
                    a.verdict.block_reason
                }
                &&& b.verdict.detail == if said.detail is Some {
                    said.detail
                } else {
                    a.verdict.detail
                }
                &&& b.verdict.model == if said.model is Some {
                    said.model
                } else {
                    a.verdict.model
                }
            }
            &&& fact.analysis is None ==> b.analysis == a.analysis
            &&& fact.analysis matches Some(found) ==> {
                &&& b.analysis.response_id == if found.response_id is Some {
                    found.response_id
                } else {
                    a.analysis.response_id
                }
                &&& b.analysis.headers == if found.headers is Some {
                    found.headers
                } else {
                    a.analysis.headers
                }
                &&& b.analysis.timing == if found.timing is Some {
                    found.timing
                } else {
                    a.analysis.timing
                }
            }
        }),
{
}

/// A provider fact that names its attempt reaches the summary of that attempt, of the
/// same scope, operation and ordinal, and begins one at the end where there is none.
pub proof fn a_fact_reaches_its_attempt(s: Seen, o: Observation, n: u64)
    requires
        o.action is Adapter,
        o.action->fact.attempt == Some(n),
    ensures
        ({
            let fact = o.action->fact;
            let after = noted(s, o).attempts;
            exists|i: int|
                0 <= i < after.len() && i <= s.attempts.len() && text::opt(
                    (#[trigger] after[i]).subject.scope,
                ) == text::opt(o.subject.scope) && after[i].operation@ == fact.operation@
                    && after[i].attempt == n && (if i < s.attempts.len() {
                    after[i] == with_fact(s.attempts[i], fact)
                } else {
                    after[i].subject == o.subject && after[i].host_attempt == fact.host_attempt
                        && after[i].started == (fact.event is Started) && after[i].usage
                        == if fact.event is Usage {
                        Some(fact.event->usage)
                    } else {
                        None
                    }
                })
        }),
{
    let fact = o.action->fact;
    let scope = text::opt(o.subject.scope);
    lemma_place(s.attempts, scope, fact.operation@, n);
    let at = place_of(s.attempts, scope, fact.operation@, n);
    let after = noted(s, o).attempts;
    assert(after[at].attempt == n);
}

} // verus!
