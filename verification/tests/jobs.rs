//! Jobs: what their trials are known by, which bucket they fall into, and what the
//! ledger says of them.

use rigcoder_bench::digest::{aggregate, facts, job, reward_of, score, Bucket, Event, TrialFacts};
use rigcoder_bench::double::Double;
use rigcoder_bench::evolve::{covered, Lane, RunArgs};
use rigcoder_bench::iteration;
use rigcoder_bench::ledger::{self, Entry};
use rigcoder_bench::metadata::{self, EvaluationMetadata, Identity, Row, TaskSource};
use rigcoder_bench::observe::{
    host_payload, observed, Action, AdapterEnding, AdapterEvent, AdapterObservation, Emitter,
    FailedAttempt, FailureDetail, Observation, ObservationArtifact, Stage, Subject,
};
use rigcoder_bench::one_run;
use rigcoder_bench::place;
use rigcoder_bench::stats::{Cost, Decision, Summary};

fn double(x: f64) -> Double {
    Double { bits: x.to_bits() }
}

fn number(d: Double) -> f64 {
    f64::from_bits(d.bits)
}

fn settled() -> Option<Event> {
    Some(Event {
        kind: "settled".to_owned(),
        name: String::new(),
        args: String::new(),
        output: String::new(),
        ok: false,
        text: String::new(),
        input_tokens: 0,
        output_tokens: 0,
        failure: None,
    })
}

fn seen(run: u64, action: Action) -> Observation {
    Observation {
        subject: Subject {
            scope: Some(format!("rigcoder/run/{run}")),
            order: None,
            effect: Some(run),
        },
        emitter: Emitter { name: "rig".to_owned() },
        stage: Stage::Other,
        action,
        handler_timing: None,
        run_timing: None,
    }
}

fn adapter(run: u64, event: AdapterEvent) -> Observation {
    seen(
        run,
        Action::Adapter {
            fact: AdapterObservation {
                operation: "op/1".to_owned(),
                attempt: Some(run),
                host_attempt: None,
                event,
                analysis: None,
            },
        },
    )
}

fn host(kind: &str, payload: &str, failure: Option<FailureDetail>) -> Observation {
    seen(1, Action::Host { kind: kind.to_owned(), payload: host_payload(payload, failure) })
}

fn ended(run: u64, code: &str) -> Observation {
    seen(run, Action::Ended { code: code.to_owned() })
}

fn trace(observations: Vec<Observation>) -> ObservationArtifact {
    ObservationArtifact {
        measurement_context: None,
        recording_provenance: None,
        observations,
        finalized: true,
        dropped: 0,
    }
}

/// One answered request, and a run that settled.
fn clean() -> ObservationArtifact {
    trace(vec![
        adapter(1, AdapterEvent::Response { status: 200 }),
        adapter(1, AdapterEvent::Finished { ending: AdapterEnding::Decoded }),
        ended(1, "settled"),
    ])
}

fn http_failure() -> FailureDetail {
    FailureDetail {
        kind: "http".to_owned(),
        boundary: "provider_response".to_owned(),
        http_status: Some(429),
        adapter: Some(FailedAttempt { operation: "op/1".to_owned(), ending: None }),
        shown: "quota".to_owned(),
    }
}

/// A request that was turned away and tried again; the run settled.
fn retried() -> ObservationArtifact {
    trace(vec![
        adapter(1, AdapterEvent::Response { status: 429 }),
        host("rigcoder/failure", "{}", Some(http_failure())),
        host(
            "rigcoder/provider_retry",
            "{\"operation\":\"op/1\",\"attempt\":1,\"wait_secs\":0}",
            None,
        ),
        adapter(2, AdapterEvent::Response { status: 200 }),
        ended(2, "settled"),
    ])
}

fn identity(result: Option<&str>) -> Option<Identity> {
    let value: serde_json::Value = serde_json::from_str(result?).ok()?;
    Some(Identity {
        task: value["task"].as_str().map(str::to_owned),
        attempt: value["attempt"].as_u64().map(|n| n as usize),
    })
}

/// A trial's facts from what its directory holds.
fn trial(name: &str, reward: &str, result: Option<&str>, seen: &ObservationArtifact) -> TrialFacts {
    let mut f = facts(&[settled()]);
    f.observed = observed(Some(seen));
    f.trial = name.to_owned();
    (f.task, f.task_source, f.attempt) = metadata::trial(&identity(result), name);
    let verifier = reward.trim().parse::<f64>().ok().map(double);
    let recorded = result
        .and_then(|text| serde_json::from_str::<serde_json::Value>(text).ok())
        .and_then(|value| value["reward"].as_f64())
        .map(double);
    (f.reward, f.unavailable_selection_reward) = score(reward_of(verifier, recorded, None));
    f
}

#[test]
fn diagnostic_selection_keeps_the_original_trial_and_scoring_population() {
    let trials = job(vec![
        trial("retried__1", "0", None, &retried()),
        trial("clean__1", "1", None, &clean()),
    ]);
    let selected: Vec<_> = trials
        .iter()
        .filter(|trial| {
            trial.observed.last_failure.as_ref().is_some_and(|failure| failure.kind == "http")
        })
        .collect();
    assert_eq!(selected.len(), 1);
    let trial = selected[0];
    assert_eq!(trial.trial, "retried__1");
    assert_eq!(trial.reward.map(number), Some(0.0));
    assert_eq!(trial.ending, "settled");
    let operation =
        &trial.observed.last_failure.as_ref().unwrap().adapter.as_ref().unwrap().operation;
    let attempts: Vec<_> = trial
        .observed
        .attempts
        .iter()
        .filter(|attempt| &attempt.operation == operation)
        .collect();
    assert_eq!(attempts.len(), 2);
    assert_eq!((attempts[0].status, attempts[1].status), (Some(429), Some(200)));
    assert_eq!(trials.len(), 2, "attempts are not independent task trials");
    assert_eq!(
        (
            aggregate(&trials, Bucket::Failed).trials,
            aggregate(&trials, Bucket::Passed).trials,
        ),
        (1, 1)
    );
}

#[test]
fn job_keeps_failed_task_score_when_provider_run_settled_with_complete_evidence() {
    let trials = job(vec![trial("task__trial", "0", None, &clean())]);
    assert_eq!(trials.len(), 1);
    assert_eq!(trials[0].trial, "task__trial");
    assert_eq!(trials[0].task.as_deref(), Some("task"));
    assert_eq!(trials[0].task_source, Some(TaskSource::DirectoryName));
    assert_eq!(trials[0].attempt, None);
    assert!(metadata::evaluation(&[]).is_none());
    assert!(trials[0].observed.complete);
    assert_eq!(trials[0].observed.attempts.len(), 1);
    assert_eq!(trials[0].observed.attempts[0].status, Some(200));
    assert!(matches!(
        trials[0].observed.attempts[0].ending,
        Some(AdapterEnding::Decoded)
    ));
    assert_eq!(trials[0].ending, "settled");
    assert!(!trials[0].no_settle);
    assert_eq!(trials[0].reward.map(number), Some(0.0));
    assert_eq!(aggregate(&trials, Bucket::Failed).trials, 1);
    assert_eq!(aggregate(&trials, Bucket::Passed).trials, 0);
}

fn summary() -> Summary {
    Summary {
        score: double(0.0),
        pass1: double(0.0),
        passk: double(0.0),
        ci_low: double(0.0),
        ci_high: double(0.0),
        trials: 0,
        tasks: 0,
        rewards: Vec::new(),
        cost: Cost {
            input_tokens: None,
            output_tokens: None,
            cache_tokens: None,
            tool_calls: 0,
            wall_seconds: double(0.0),
        },
    }
}

fn entry(job_dir: &str) -> Entry {
    Entry {
        generation: Some(3),
        slice: "dev".to_owned(),
        commit: "recorded-base-before-rejected-edits".to_owned(),
        decision: Some(Decision::Reverted),
        best_score: double(1.0),
        best_ci_low: double(0.5),
        model: "recorded-model".to_owned(),
        attempts: 8,
        lane: Some(Lane::Prompt),
        meta_commit: Some("editor-revision".to_owned()),
        job_dir: job_dir.to_owned(),
        time: 1,
        summary: summary(),
    }
}

/// What a ledger says of the job at `/root/jobs/evaluation`.
fn linked(text: &str) -> Option<EvaluationMetadata> {
    let target = place::split_names("/root/jobs/evaluation");
    let rows: Vec<Option<Row>> = ledger::read(text)
        .into_iter()
        .map(|(_, line)| {
            let value: serde_json::Value = serde_json::from_str(&line).ok()?;
            let entry = entry(value["job_dir"].as_str()?);
            let same_job =
                place::split_names(&place::join("/root", &entry.job_dir)) == target;
            Some(Row { entry, same_job })
        })
        .collect();
    metadata::evaluation(&rows)
}

#[test]
fn job_links_recorded_identity_without_claiming_candidate_revision_or_changing_scores() {
    let result = "{\"task\":\"actual__task\",\"attempt\":7,\"reward\":1}";
    let read = |result: Option<&str>| {
        job(vec![trial("directory_guess__2", "0", result, &clean())])
    };
    let trials = read(Some(result));
    let found = &trials[0];
    assert_eq!(found.trial, "directory_guess__2");
    assert_eq!(found.task.as_deref(), Some("actual__task"));
    assert_eq!(found.task_source, Some(TaskSource::ResultFile));
    assert_eq!(found.attempt, Some(7));
    assert_eq!(found.reward.map(number), Some(0.0), "verifier reward still takes precedence");
    assert_eq!(found.ending, "settled");
    assert!(found.observed.complete);
    assert_eq!(aggregate(&trials, Bucket::Failed).trials, 1);
    assert_eq!(aggregate(&trials, Bucket::Passed).trials, 0);
    let row = "{\"job_dir\":\"jobs/evaluation\"}";
    let evaluation = linked(row).unwrap();
    let recorded = entry("jobs/evaluation");
    assert_eq!(evaluation.job_dir, "jobs/evaluation");
    assert_eq!(evaluation.recorded_commit, recorded.commit);
    assert_eq!(evaluation.meta_commit, recorded.meta_commit);
    assert_eq!(evaluation.generation, Some(3));
    assert_eq!(evaluation.slice, "dev");
    assert_eq!(evaluation.model, "recorded-model");
    assert_eq!(evaluation.attempts, 8);
    assert_eq!(evaluation.lane, Some(Lane::Prompt));
    assert!(evaluation.candidate_revision.is_none());
    assert!(evaluation.configuration_id.is_none());

    // Relative and absolute aliases of one directory are one job.
    let absolute = "{\"job_dir\":\"/root/jobs/evaluation\"}";
    assert!(linked(absolute).is_some());
    let alias = "{\"job_dir\":\"jobs/./evaluation\"}";
    assert!(linked(alias).is_some());

    // Missing, malformed and ambiguous provenance cannot change trial facts.
    for text in [
        String::new(),
        "malformed".to_owned(),
        format!("{row}\n{row}"),
        format!("{row}\nmalformed"),
        format!("{absolute}\n{alias}"),
    ] {
        assert!(linked(&text).is_none(), "{text}");
        assert_eq!(format!("{:?}", read(Some(result))), format!("{trials:?}"));
    }
    // A different job with the same basename is not an identity match.
    assert!(linked("{\"job_dir\":\"other/evaluation\"}").is_none());

    let partial = read(Some("{\"task\":\"partial__task\"}"));
    assert_eq!(partial[0].task.as_deref(), Some("partial__task"));
    assert_eq!(partial[0].task_source, Some(TaskSource::ResultFile));
    assert_eq!(partial[0].attempt, None);
    let partial = read(Some("{\"attempt\":7}"));
    assert_eq!(partial[0].task.as_deref(), Some("directory_guess"));
    assert_eq!(partial[0].task_source, Some(TaskSource::DirectoryName));
    assert_eq!(partial[0].attempt, Some(7));

    // Without recorded identity, keep a labelled directory fallback and no
    // invented attempt ordinal. Names without a delimiter remain unknown.
    let legacy = read(Some("malformed"));
    assert_eq!(legacy[0].task.as_deref(), Some("directory_guess"));
    assert_eq!(legacy[0].task_source, Some(TaskSource::DirectoryName));
    assert_eq!(legacy[0].attempt, None);
    let anonymous = job(vec![trial("anonymous", "0", Some("malformed"), &clean())]);
    assert_eq!(anonymous[0].task, None);
    assert_eq!(anonymous[0].task_source, None);
    assert_eq!(anonymous[0].attempt, None);
}

#[test]
fn the_latest_decoded_failure_outlives_what_follows() {
    let mut late = http_failure();
    late.kind = "late".to_owned();
    let kept = observed(Some(&trace(vec![
        host("rigcoder/failure", "{}", Some(http_failure())),
        ended(1, "settled"),
        host("rigcoder/failure", "\"no failure\"", None),
    ])));
    assert_eq!(kept.last_failure.unwrap().kind, "http");
    let replaced = observed(Some(&trace(vec![
        host("rigcoder/failure", "{}", Some(http_failure())),
        host("rigcoder/failure", "{}", Some(late)),
    ])));
    assert_eq!(replaced.last_failure.unwrap().kind, "late");
}

fn arguments(tasks: &[&str]) -> RunArgs {
    RunArgs {
        slice: "dev".to_owned(),
        tasks: tasks.iter().map(|task| (*task).to_owned()).collect(),
        attempts: 3,
        concurrency: 4,
        model: "gemini/gemini-3.8-flash".to_owned(),
        gemini_budget: None,
        max_turns: 100,
        job_name: None,
        checkpoint: false,
        no_build: false,
        tasks_dir: "harness/tasks".to_owned(),
        binary: "harness/bin/rigcoder-linux-x86_64".to_owned(),
    }
}

#[test]
fn a_runs_row_has_no_generation_decision_or_best() {
    let row = ledger::run_entry(
        &arguments(&[]),
        "abc".to_owned(),
        "jobs/x".to_owned(),
        9,
        summary(),
    );
    assert_eq!((row.generation, row.decision), (None, None));
    assert_eq!((number(row.best_score), number(row.best_ci_low)), (-1.0, -1.0));
    assert_eq!((row.slice.as_str(), row.commit.as_str()), ("dev", "abc"));
    assert_eq!((row.model.as_str(), row.attempts), ("gemini/gemini-3.8-flash", 3));
    assert_eq!((row.job_dir.as_str(), row.time), ("jobs/x", 9));
    assert_eq!((row.lane, row.meta_commit), (None, None));
    let own =
        ledger::run_entry(&arguments(&["x"]), String::new(), String::new(), 0, summary());
    assert_eq!(own.slice, "custom");
    assert_eq!(ledger::appended("{}"), "{}\n");
}

#[test]
fn a_generations_row_has_the_best_it_was_held_against() {
    let plan = iteration::Plan { generations: 2, improve: true, build: true, holdout: false };
    let mut l = iteration::begin(plan);
    l = iteration::follow(l, iteration::Event::Done);
    let score = iteration::Event::Scored { score: double(0.75), ci_low: double(0.5) };
    l = iteration::follow(l, score);
    let row = iteration::generation_entry(
        &l,
        &arguments(&[]),
        Some(Lane::Tools),
        Some("editor".to_owned()),
        "abc".to_owned(),
        "jobs/g".to_owned(),
        2,
        summary(),
    );
    assert_eq!((row.generation, row.decision), (Some(0), Some(Decision::Kept)));
    assert_eq!((number(row.best_score), number(row.best_ci_low)), (-1.0, -1.0));
    assert_eq!((row.lane, row.meta_commit.as_deref()), (Some(Lane::Tools), Some("editor")));
    assert_eq!(row.slice, "dev");
    let last = iteration::holdout_entry(
        &l,
        &arguments(&[]),
        "abc".to_owned(),
        "jobs/h".to_owned(),
        3,
        summary(),
    );
    assert_eq!((last.generation, last.decision), (None, None));
    assert_eq!((last.slice.as_str(), last.job_dir.as_str()), ("holdout", "jobs/h"));
    assert_eq!((number(last.best_score), number(last.best_ci_low)), (0.75, 0.5));
    assert_eq!((last.lane, last.meta_commit), (None, None));
}

fn ran(build: bool, events: &[one_run::Event]) -> (Vec<one_run::Step>, one_run::Position) {
    let mut at = one_run::begin();
    let mut steps = Vec::new();
    for event in events {
        if let one_run::Position::Doing(step) = at {
            steps.push(step);
        }
        at = one_run::follow(build, at, *event);
    }
    (steps, at)
}

#[test]
fn a_run_is_blocked_by_a_marker_and_ends_with_one_row() {
    let clear = one_run::Event::Marked(false);
    let fine = one_run::Event::Checked(None);
    let done = one_run::Event::Done;
    let (steps, at) = ran(true, &[one_run::Event::Marked(true), fine, done, done]);
    assert_eq!(steps, [one_run::Step::Marker]);
    assert_eq!(at, one_run::Position::Blocked);
    assert!(one_run::blocked_message(".git/m").starts_with(
        "unfinished self-improvement recorded at .git/m; inspect and recover"
    ));
    let (steps, at) = ran(true, &[clear, fine, done, done, done]);
    assert_eq!(
        steps,
        [
            one_run::Step::Marker,
            one_run::Step::Tasks,
            one_run::Step::Build,
            one_run::Step::Evaluate,
            one_run::Step::Append,
        ]
    );
    assert_eq!(at, one_run::Position::Finished);
    let (steps, at) = ran(false, &[clear, fine, one_run::Event::Broke, done]);
    assert_eq!(
        steps,
        [one_run::Step::Marker, one_run::Step::Tasks, one_run::Step::Evaluate]
    );
    assert_eq!(at, one_run::Position::Stopped(one_run::Step::Evaluate));
}

#[test]
fn trials_of_one_name_stay_in_their_order() {
    let numbered = |name: &str, attempt: usize| {
        let mut f = trial(name, "0", None, &clean());
        f.attempt = Some(attempt);
        f
    };
    let sorted = job(vec![numbered("b", 1), numbered("a", 2), numbered("b", 3), numbered("a", 4)]);
    let attempts: Vec<_> = sorted.iter().map(|f| (f.trial.as_str(), f.attempt)).collect();
    assert_eq!(attempts, [("a", Some(2)), ("a", Some(4)), ("b", Some(1)), ("b", Some(3))]);
}

#[test]
fn lines_that_were_not_read_change_no_fact() {
    let read = facts(&[settled()]);
    let with_others = facts(&[None, settled(), None]);
    assert_eq!(format!("{read:?}"), format!("{with_others:?}"));
}

#[test]
fn every_lanes_files_are_its_own() {
    let lanes = [Lane::Prompt, Lane::Tools, Lane::Settings, Lane::Shaping, Lane::Systems];
    for lane in lanes {
        for file in lane.files() {
            let path = if file.ends_with('/') { format!("{file}x.rs") } else { (*file).to_owned() };
            let owners: Vec<Lane> =
                lanes.into_iter().filter(|other| covered(other.files(), &path)).collect();
            assert_eq!(owners, [lane], "{path}");
        }
    }
}

#[test]
fn results_are_added_up_per_tool() {
    let result = |name: &str, ok: bool| {
        let mut e = settled();
        if let Some(e) = &mut e {
            e.kind = "tool_result".to_owned();
            e.name = name.to_owned();
            e.ok = ok;
        }
        e
    };
    let mut a = facts(&[result("bash", true), result("bash", false), result("grep", true), None]);
    a.reward = Some(double(0.0));
    let mut b = facts(&[result("bash", true)]);
    b.reward = Some(double(0.5));
    let mut c = facts(&[result("edit_file", true)]);
    c.reward = Some(double(1.0));
    let trials = vec![a, b, c];
    let failed = aggregate(&trials, Bucket::Failed);
    assert_eq!(failed.by_tool.get("bash"), Some(3));
    assert_eq!(failed.by_tool.get("grep"), Some(1));
    assert_eq!(failed.by_tool.get("edit_file"), None);
    assert_eq!(aggregate(&trials, Bucket::Passed).by_tool.get("edit_file"), Some(1));
}
