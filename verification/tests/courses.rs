//! The machines: trials, evaluations, self-edits and the loop around them.

use rigcoder_bench::double::Double;
use rigcoder_bench::evaluation::{self, Receipt, Stop};
use rigcoder_bench::evolve::{IterateArgs, Lane, RunArgs, RunRefusal};
use rigcoder_bench::execution::{
    self, agent_command, agent_environment, agent_seconds, branch_total, exec_checked, exit_message,
    resume_command, setup_command, step_seconds, Problem, ISOLATED_SETUP, OPEN_SETUP, RESUME_SETUP,
};
use rigcoder_bench::improvement;
use rigcoder_bench::iteration::{
    self, check_arguments, check_tasks, ends_on_holdout, needs_holdout, Refusal,
};
use rigcoder_bench::stats::Decision;
use rigcoder_bench::task::{OutputLine, Task};
use rigcoder_bench::trial::{RewardError, TrialRecord};

fn double(x: f64) -> Double {
    Double { bits: x.to_bits() }
}

// ---------------------------------------------------------------------------
// Trials

fn plan() -> execution::Plan {
    execution::Plan { resumed: false, budgeted: false, keyed: true, host_scored: false }
}

#[test]
fn refused_arguments_never_reach_docker() {
    let run = arguments().run;
    let tasks = vec!["a".to_owned()];
    let start = evaluation::Position::Doing(evaluation::Step::Docker);
    assert_eq!(evaluation::begin(&run, &tasks), Ok(start));
    assert_eq!(evaluation::begin(&run, &[]), Err(RunRefusal::Nothing));
    let twice = vec!["a".to_owned(), "a".to_owned()];
    assert_eq!(evaluation::begin(&run, &twice), Err(RunRefusal::Duplicate));
    assert_eq!(evaluation::begin(&run, &["../a".to_owned()]), Err(RunRefusal::TaskName));
}

#[test]
fn commands_have_their_own_deadlines() {
    let resumed = execution::Plan { resumed: true, ..plan() };
    let budgeted = execution::Plan { budgeted: true, ..plan() };
    assert_eq!(setup_command(plan()), OPEN_SETUP);
    assert_eq!(setup_command(budgeted), ISOLATED_SETUP);
    assert_eq!(setup_command(resumed), RESUME_SETUP);
    let seconds = |plan, step| step_seconds(plan, step, 900, 600);
    assert_eq!(seconds(plan(), execution::Step::Setup), Some(300));
    assert_eq!(seconds(resumed, execution::Step::Setup), Some(60));
    assert_eq!(seconds(resumed, execution::Step::Restore), Some(120));
    assert_eq!(seconds(plan(), execution::Step::Executable), Some(30));
    assert_eq!(seconds(plan(), execution::Step::Agent), Some(900));
    assert_eq!(seconds(plan(), execution::Step::ClearVerifier), Some(30));
    assert_eq!(seconds(plan(), execution::Step::RunTests), Some(600));
    assert_eq!(seconds(plan(), execution::Step::Binary), None);
}

/// The steps that a trial takes where every one goes well but those that
/// `different` says otherwise of, and where it ends.
fn trial(
    plan: execution::Plan,
    different: &[(execution::Step, execution::Event)],
) -> (Vec<execution::Step>, execution::Position) {
    let mut course = execution::begin(plan);
    let mut steps = Vec::new();
    while let execution::Position::Doing(step) = course.at {
        steps.push(step);
        let usual = match step {
            execution::Step::ReadReward | execution::Step::Score => {
                execution::Event::Reward(Some(double(1.0)))
            }
            _ => execution::Event::Exit(0),
        };
        let event =
            different.iter().find(|(at, _)| *at == step).map_or(usual, |(_, event)| *event);
        course = execution::follow(course, event);
    }
    (steps, course.at)
}

#[test]
fn an_ordinary_trial_installs_its_tests_last() {
    let (steps, end) = trial(plan(), &[]);
    assert_eq!(
        steps,
        [
            execution::Step::Start,
            execution::Step::Setup,
            execution::Step::Binary,
            execution::Step::Executable,
            execution::Step::Brief,
            execution::Step::Agent,
            execution::Step::CollectLogs,
            execution::Step::ClearVerifier,
            execution::Step::InstallTests,
            execution::Step::RunTests,
            execution::Step::CollectVerifier,
            execution::Step::ReadReward,
        ]
    );
    assert_eq!(end, execution::Position::Finished(double(1.0)));
}

#[test]
fn a_resumed_trial_restores_before_it_installs() {
    let resumed = execution::Plan { resumed: true, ..plan() };
    let (steps, _) = trial(resumed, &[]);
    assert_eq!(
        steps[..5],
        [
            execution::Step::Start,
            execution::Step::Setup,
            execution::Step::CopyWorkspace,
            execution::Step::Restore,
            execution::Step::Binary,
        ]
    );
    let (steps, end) = trial(resumed, &[(execution::Step::Restore, execution::Event::Exit(7))]);
    assert!(!steps.contains(&execution::Step::Agent));
    assert_eq!(
        end,
        execution::Position::Failed(Problem::Exit(execution::Step::Restore, 7))
    );
    let (steps, _) = trial(resumed, &[(execution::Step::Agent, execution::Event::Broke)]);
    assert!(!steps.contains(&execution::Step::CollectLogs));
}

#[test]
fn a_budgeted_trial_needs_its_key_and_stops_its_relay() {
    let budgeted = execution::Plan { budgeted: true, ..plan() };
    let (steps, _) = trial(budgeted, &[]);
    assert!(steps.contains(&execution::Step::StartRelay));
    let (steps, end) = trial(
        budgeted,
        &[
            (execution::Step::Agent, execution::Event::Broke),
            (execution::Step::StopRelay, execution::Event::Exit(1)),
        ],
    );
    assert_eq!(steps.last(), Some(&execution::Step::CollectLogs));
    assert_eq!(
        end,
        execution::Position::Failed(Problem::Exit(execution::Step::StopRelay, 1))
    );
    let unkeyed = execution::Plan { keyed: false, ..budgeted };
    assert_eq!(trial(unkeyed, &[]).1, execution::Position::Failed(Problem::NoKey));
}

#[test]
fn a_reported_inner_timeout_is_verified_and_a_stopped_client_is_not() {
    let (steps, end) = trial(plan(), &[(execution::Step::Agent, execution::Event::Exit(137))]);
    assert!(steps.contains(&execution::Step::RunTests));
    assert_eq!(end, execution::Position::Finished(double(1.0)));
    let (steps, end) = trial(plan(), &[(execution::Step::Agent, execution::Event::Broke)]);
    assert!(steps.contains(&execution::Step::CollectLogs));
    assert!(!steps.contains(&execution::Step::RunTests));
    assert_eq!(end, execution::Position::Failed(Problem::Broke(execution::Step::Agent)));
    let (_, end) = trial(plan(), &[(execution::Step::Agent, execution::Event::Exit(2))]);
    assert_eq!(end, execution::Position::Failed(Problem::Exit(execution::Step::Agent, 2)));
}

#[test]
fn scores_need_a_verifier_that_succeeds_and_a_number() {
    let failed = |step, event| trial(plan(), &[(step, event)]).1;
    assert_eq!(
        failed(execution::Step::RunTests, execution::Event::Exit(1)),
        execution::Position::Failed(Problem::Exit(execution::Step::RunTests, 1))
    );
    assert_eq!(
        failed(execution::Step::ReadReward, execution::Event::Reward(Some(double(f64::NAN)))),
        execution::Position::Failed(Problem::BadReward(RewardError::OutOfRange))
    );
    assert_eq!(
        failed(execution::Step::ReadReward, execution::Event::Reward(None)),
        execution::Position::Failed(Problem::BadReward(RewardError::NotANumber))
    );
    assert_eq!(
        failed(execution::Step::ReadReward, execution::Event::Exit(1)),
        execution::Position::Failed(Problem::NoReward)
    );
    let hosted = execution::Plan { host_scored: true, ..plan() };
    let (steps, end) = trial(hosted, &[]);
    assert!(!steps.contains(&execution::Step::InstallTests));
    assert_eq!(end, execution::Position::Finished(double(1.0)));
    let (_, end) = trial(hosted, &[(execution::Step::Score, execution::Event::Exit(1))]);
    assert_eq!(end, execution::Position::Failed(Problem::Exit(execution::Step::Score, 1)));
}

#[test]
fn agents_are_told_where_they_are_and_how_long_they_have() {
    assert_eq!(agent_seconds(900), 840);
    assert_eq!(agent_seconds(100), 60);
    assert_eq!(agent_seconds(1), 60);
    assert_eq!(
        agent_command("/app", 200, 840, true),
        "/usr/local/bin/rigcoder --cwd '/app' --max-turns 200 --timeout-secs 840 --transcript /logs/agent/transcript.jsonl --effect-log /logs/agent/effects.json --observations /logs/agent/observations.json --task-file /logs/agent/instruction.md --checkpoint /logs/agent/scenes --checkpoint-tar > /logs/agent/rigcoder.txt 2>&1; status=$?; echo $status > /logs/agent/exit_code.txt; exit $status"
    );
    assert!(!agent_command("/app", 200, 840, false).contains("--checkpoint"));
    assert!(resume_command("/app", 1, 60)
        .contains("observations.json --resume /logs/agent/resume.scene.json > /logs"));
    let names = |budgeted: bool| -> Vec<String> {
        agent_environment("gemini", "flash", budgeted, Some(("GEMINI_API_KEY", "SECRET-REDACTED")))
            .iter()
            .map(|(name, value)| format!("{name}={value}"))
            .collect()
    };
    assert_eq!(
        names(false),
        [
            "RIGCODER_PROVIDER=gemini",
            "RIGCODER_MODEL=flash",
            "RUST_LOG=warn",
            "GEMINI_API_KEY=SECRET-REDACTED",
        ]
    );
    assert_eq!(
        names(true)[3..],
        ["RIGCODER_GEMINI_GATEWAY=http://127.0.0.1:18080", "RIGCODER_GATEWAY_TOKEN=task-relay"]
    );
}

#[test]
fn failed_steps_say_what_they_said() {
    let said = "1\n2\n3\n4\n5\n6\n7\n8\n9\n10\n11";
    assert_eq!(
        exit_message(false, execution::Step::Setup, 1, said),
        "container setup failed: 2\n3\n4\n5\n6\n7\n8\n9\n10\n11"
    );
    assert_eq!(
        exit_message(true, execution::Step::Setup, -1, "no"),
        "container command failed (exit -1): no"
    );
    assert_eq!(
        exit_message(true, execution::Step::Agent, 2, "no"),
        "resumed agent launcher failed (exit 2): no"
    );
    assert_eq!(
        exit_message(false, execution::Step::RunTests, 2, "no"),
        "verifier failed (exit 2): no"
    );
    assert_eq!(
        exit_message(false, execution::Step::Executable, 2, "no"),
        "making agent executable failed: no"
    );
    assert_eq!(exec_checked(0, "x"), Ok(()));
    assert_eq!(exec_checked(3, "x"), Err("container command failed (exit 3): x".to_owned()));
}

#[test]
fn branches_pass_only_with_a_full_reward_and_fail_together() {
    let passed = branch_total(4, &[Ok(double(1.0)), Ok(double(0.5)), Ok(double(1.0))]);
    assert_eq!(passed, Ok(2));
    let failed = branch_total(
        4,
        &[Ok(double(1.0)), Err("a".to_owned()), Err("b".to_owned())],
    );
    assert_eq!(
        failed,
        Err("incomplete branch evaluation: branch from turn 4, attempt 2: a; branch from turn 4, attempt 3: b"
            .to_owned())
    );
}

// ---------------------------------------------------------------------------
// Evaluations

fn evaluated(
    plan: evaluation::Plan,
    different: &[(evaluation::Step, evaluation::Event)],
) -> (Vec<evaluation::Step>, evaluation::Position) {
    let mut at = evaluation::Position::Doing(evaluation::Step::Docker);
    let mut steps = Vec::new();
    while let evaluation::Position::Doing(step) = at {
        steps.push(step);
        let usual = match step {
            evaluation::Step::Budget => evaluation::Event::Fits(true),
            evaluation::Step::InspectReceipt => evaluation::Event::Receipt(Receipt::Present),
            evaluation::Step::Images | evaluation::Step::Trials => evaluation::Event::Failures(0),
            _ => evaluation::Event::Done,
        };
        let event =
            different.iter().find(|(at, _)| *at == step).map_or(usual, |(_, event)| *event);
        at = evaluation::follow(plan, at, event);
    }
    (steps, at)
}

#[test]
fn evaluations_check_everything_before_they_build() {
    let plan = evaluation::Plan { keyed: true, budgeted: true, no_build: false };
    let (steps, end) = evaluated(plan, &[]);
    assert_eq!(end, evaluation::Position::Scored);
    assert_eq!(steps.len(), 13);
    let stopped = |plan, step, event| {
        let (steps, end) = evaluated(plan, &[(step, event)]);
        assert!(!steps.contains(&evaluation::Step::Trials));
        end
    };
    assert_eq!(
        stopped(
            evaluation::Plan { keyed: false, ..plan },
            evaluation::Step::JobDir,
            evaluation::Event::Done
        ),
        evaluation::Position::Stopped(Stop::NoKey)
    );
    assert_eq!(
        stopped(plan, evaluation::Step::Budget, evaluation::Event::Fits(false)),
        evaluation::Position::Stopped(Stop::Budget)
    );
    let receipt = evaluation::Step::InspectReceipt;
    assert_eq!(
        stopped(plan, receipt, evaluation::Event::Receipt(Receipt::Irregular)),
        evaluation::Position::Stopped(Stop::IrregularReceipt)
    );
    assert_eq!(
        stopped(plan, receipt, evaluation::Event::Receipt(Receipt::Missing)),
        evaluation::Position::Stopped(Stop::NoReceipt)
    );
    assert_eq!(
        stopped(plan, evaluation::Step::VerifyReceipt, evaluation::Event::Broke),
        evaluation::Position::Stopped(Stop::Broke(evaluation::Step::VerifyReceipt))
    );
    assert_eq!(
        stopped(plan, evaluation::Step::Images, evaluation::Event::Failures(2)),
        evaluation::Position::Stopped(Stop::Images(2))
    );
    let unbuilt = evaluation::Plan { no_build: true, ..plan };
    let (steps, end) =
        evaluated(unbuilt, &[(receipt, evaluation::Event::Receipt(Receipt::Missing))]);
    assert!(!steps.contains(&evaluation::Step::VerifyReceipt));
    assert_eq!(end, evaluation::Position::Scored);
    let (steps, end) =
        evaluated(plan, &[(evaluation::Step::Trials, evaluation::Event::Failures(1))]);
    assert!(!steps.contains(&evaluation::Step::Summary));
    assert_eq!(end, evaluation::Position::Stopped(Stop::Trials(1)));
}

fn task() -> Task {
    Task {
        name: "a".to_owned(),
        dir: "/t/a".to_owned(),
        instruction: String::new(),
        workdir: "/app".to_owned(),
        agent_timeout_secs: 7200,
        verifier_timeout_secs: 900,
        build_timeout_secs: 600,
        cpus: double(1.0),
        memory: "2G".to_owned(),
        difficulty: String::new(),
        output_line: None,
        polyglot: true,
    }
}

#[test]
fn budgets_need_host_scoring_and_short_trials() {
    assert!(evaluation::budget_fits(&[task()]));
    assert!(!evaluation::budget_fits(&[task(), Task { polyglot: false, ..task() }]));
    assert!(!evaluation::budget_fits(&[Task { agent_timeout_secs: 7201, ..task() }]));
    let line = OutputLine { artifact: "/a".to_owned(), expected: "x".to_owned() };
    assert!(evaluation::budget_fits(&[Task {
        polyglot: false,
        output_line: Some(line),
        ..task()
    }]));
}

#[test]
fn every_task_is_tried_before_any_is_tried_again() {
    assert_eq!(
        evaluation::schedule(2, 3),
        [(1, 0), (1, 1), (1, 2), (2, 0), (2, 1), (2, 2)]
    );
    assert!(evaluation::schedule(0, 3).is_empty());
}

#[test]
fn failed_trials_are_listed() {
    let record = |task: &str, error: Option<&str>| TrialRecord {
        task: task.to_owned(),
        attempt: 2,
        reward: double(0.0),
        input_tokens: None,
        output_tokens: None,
        cache_tokens: None,
        tool_calls: 0,
        wall_seconds: double(0.0),
        settled: false,
        error: error.map(str::to_owned),
    };
    let errors = evaluation::trial_failures(&[
        record("a", Some("x")),
        record("b", None),
        record("c", Some("y")),
    ]);
    assert_eq!(errors, ["a#2: x", "c#2: y"]);
    assert_eq!(
        evaluation::incomplete_message(true, &errors),
        "evaluation incomplete: trial infrastructure failed:\na#2: x\nc#2: y"
    );
    assert_eq!(
        evaluation::incomplete_message(false, &errors),
        "evaluation incomplete: image builds failed:\na#2: x\nc#2: y"
    );
    assert_eq!(
        Stop::NoKey.message(Some("GEMINI_API_KEY"), &errors),
        Some("GEMINI_API_KEY is not set".to_owned())
    );
    assert_eq!(
        Stop::NoKey.message(None, &errors),
        Some("the provider key is not set".to_owned())
    );
    assert_eq!(
        Stop::Images(1).message(None, &errors),
        Some(evaluation::incomplete_message(false, &errors))
    );
    assert_eq!(Stop::Broke(evaluation::Step::Docker).message(None, &errors), None);
}

// ---------------------------------------------------------------------------
// Self-edits

fn edited(
    isolated: bool,
    different: &[(improvement::Step, improvement::Event)],
) -> (Vec<improvement::Step>, improvement::Edit) {
    let mut edit = improvement::begin(isolated);
    let mut steps = Vec::new();
    while let improvement::Position::Doing(step) = edit.at {
        steps.push(step);
        let usual = if step == improvement::Step::Compare {
            improvement::Event::Same(true)
        } else {
            improvement::Event::Done
        };
        let event =
            different.iter().find(|(at, _)| *at == step).map_or(usual, |(_, event)| *event);
        edit = improvement::follow(edit, event);
    }
    (steps, edit)
}

#[test]
fn a_candidate_keeps_its_marker() {
    for isolated in [false, true] {
        let (steps, edit) = edited(isolated, &[]);
        assert_eq!(edit.at, improvement::Position::Candidate);
        assert!(edit.marked);
        assert_eq!(steps.contains(&improvement::Step::Apply), isolated);
        assert_eq!(steps.contains(&improvement::Step::Check), !isolated);
    }
}

#[test]
fn a_failed_edit_is_taken_back_and_unmarked() {
    for step in [improvement::Step::Edit, improvement::Step::Check, improvement::Step::Clean] {
        let (steps, edit) = edited(false, &[(step, improvement::Event::Broke)]);
        assert!(steps.contains(&improvement::Step::RollBack));
        assert_eq!(edit.at, improvement::Position::Failed(step));
        assert!(!edit.marked);
    }
    let (steps, edit) =
        edited(true, &[(improvement::Step::Edit, improvement::Event::Broke)]);
    assert!(!steps.contains(&improvement::Step::RollBack));
    assert!(!edit.marked);
}

#[test]
fn a_moved_repository_keeps_the_marker() {
    let (steps, edit) =
        edited(false, &[(improvement::Step::Compare, improvement::Event::Same(false))]);
    assert_eq!(edit.at, improvement::Position::Moved);
    assert!(edit.marked);
    assert!(!steps.contains(&improvement::Step::Clean));
    let (_, edit) = edited(
        false,
        &[
            (improvement::Step::Check, improvement::Event::Broke),
            (improvement::Step::RollBack, improvement::Event::Broke),
        ],
    );
    assert_eq!(edit.at, improvement::Position::Failed(improvement::Step::RollBack));
    assert!(edit.marked);
}

#[test]
fn cleanup_reports_every_failure() {
    assert_eq!(improvement::rollback_unscored(&[None, None, None]), Ok(()));
    assert_eq!(
        improvement::rollback_unscored(&[Some("a".to_owned()), None, Some("b".to_owned())]),
        Err("unscored candidate cleanup failed: a; b".to_owned())
    );
}

// ---------------------------------------------------------------------------
// The loop

fn arguments() -> IterateArgs {
    IterateArgs {
        run: RunArgs {
            slice: "dev".to_owned(),
            tasks: Vec::new(),
            attempts: 1,
            concurrency: 1,
            model: "mock/model".to_owned(),
            gemini_budget: None,
            max_turns: 200,
            tasks_dir: "harness/tasks".to_owned(),
            binary: "harness/bin/rigcoder-linux-x86_64".to_owned(),
            no_build: false,
            job_name: None,
            checkpoint: false,
        },
        generations: 2,
        meta_provider: "gemini".to_owned(),
        meta_model: None,
        meta_gateway_port: None,
        no_improve: false,
        holdout: true,
        lane: None,
    }
}

fn names(parts: &[&str]) -> Vec<String> {
    parts.iter().map(|part| (*part).to_owned()).collect()
}

#[test]
fn loops_are_refused_for_each_reason() {
    assert_eq!(check_arguments(&arguments(), false, false), Ok(()));
    let gateway = IterateArgs {
        meta_gateway_port: Some(9),
        lane: Some(Lane::Prompt),
        ..arguments()
    };
    assert_eq!(check_arguments(&gateway, true, true), Ok(()));
    assert_eq!(check_arguments(&gateway, false, true), Err(Refusal::GatewayNeedsMac));
    assert_eq!(check_arguments(&gateway, true, false), Err(Refusal::GatewayNeedsToken));
    let tools = IterateArgs { lane: Some(Lane::Tools), ..gateway };
    assert_eq!(check_arguments(&tools, true, true), Err(Refusal::GatewayNeedsPromptLane));
    let held = IterateArgs {
        run: RunArgs { slice: "holdout".to_owned(), ..arguments().run },
        ..arguments()
    };
    assert_eq!(check_arguments(&held, false, false), Err(Refusal::HoldoutIsForEvaluation));

    let tasks = names(&["a", "b"]);
    let holdout = names(&["heldout"]);
    assert_eq!(check_tasks(&arguments(), &tasks, &holdout), Ok(()));
    assert_eq!(
        check_tasks(&arguments(), &names(&["a", "heldout"]), &holdout),
        Err(Refusal::OverlapsHoldout)
    );
    assert_eq!(
        check_tasks(&arguments(), &[], &holdout),
        Err(Refusal::Run(RunRefusal::Nothing))
    );
    let none = IterateArgs { generations: 0, ..arguments() };
    assert_eq!(check_tasks(&none, &tasks, &holdout), Err(Refusal::NoGenerations));
    let unbuilt =
        IterateArgs { run: RunArgs { no_build: true, ..arguments().run }, ..arguments() };
    assert_eq!(check_tasks(&unbuilt, &tasks, &holdout), Err(Refusal::EditsNeedBuilds));
    assert_eq!(
        Refusal::EditsNeedBuilds.message(),
        "--no-build requires --no-improve: self-edits must rebuild the benchmarked binary"
    );
    assert_eq!(
        Refusal::Run(RunRefusal::Nothing).message(),
        "evaluation needs at least one task, attempt, and worker"
    );
    let only = IterateArgs { no_improve: true, ..unbuilt };
    assert_eq!(check_tasks(&only, &names(&["heldout"]), &holdout), Ok(()));
}

#[test]
fn the_holdout_is_read_where_it_is_needed() {
    assert!(needs_holdout(&arguments()) && ends_on_holdout(&arguments()));
    let plain = IterateArgs { holdout: false, ..arguments() };
    assert!(needs_holdout(&plain) && !ends_on_holdout(&plain));
    let only = IterateArgs { no_improve: true, ..plain };
    assert!(!needs_holdout(&only));
    let own = IterateArgs {
        run: RunArgs { tasks: names(&["x"]), ..arguments().run },
        no_improve: true,
        ..arguments()
    };
    assert!(!needs_holdout(&own));
}

/// The steps of a loop whose generations score as given, and how it ends; the
/// steps in `broken` fail when they come for the first time.
fn looped(
    plan: iteration::Plan,
    scores: &[f64],
    broken: &[iteration::Step],
) -> (Vec<iteration::Step>, iteration::Loop) {
    let mut l = iteration::begin(plan);
    let mut steps: Vec<iteration::Step> = Vec::new();
    let mut next = 0;
    while let iteration::Position::Doing(step) = l.at {
        let event = if broken.contains(&step) && !steps.contains(&step) {
            iteration::Event::Broke
        } else {
            match step {
                iteration::Step::Evaluate | iteration::Step::EvaluateHoldout => {
                    let score = scores.get(next).copied().unwrap_or(1.0);
                    next += 1;
                    iteration::Event::Scored { score: double(score), ci_low: double(score) }
                }
                iteration::Step::CollectChanges => iteration::Event::Changed(l.generation > 0),
                _ => iteration::Event::Done,
            }
        };
        steps.push(step);
        l = iteration::follow(l, event);
    }
    (steps, l)
}

fn editing(generations: usize, holdout: bool) -> iteration::Plan {
    iteration::Plan { generations, improve: true, build: true, holdout }
}

#[test]
fn a_rejected_candidate_is_restored_and_rebuilt_before_the_holdout() {
    let (steps, l) = looped(editing(2, true), &[1.0, 0.0], &[]);
    assert_eq!(
        steps,
        [
            iteration::Step::Build,
            iteration::Step::Evaluate,
            iteration::Step::Entry,
            iteration::Step::CollectChanges,
            iteration::Step::Append,
            iteration::Step::Report,
            iteration::Step::Improve,
            iteration::Step::Build,
            iteration::Step::Evaluate,
            iteration::Step::Entry,
            iteration::Step::Revert,
            iteration::Step::RemoveBinary,
            iteration::Step::ArchiveNote,
            iteration::Step::Append,
            iteration::Step::ClearMarker,
            iteration::Step::RebuildBinary,
            iteration::Step::BuildHoldout,
            iteration::Step::EvaluateHoldout,
            iteration::Step::AppendHoldout,
        ]
    );
    assert_eq!(l.at, iteration::Position::Finished);
    assert_eq!(l.decision, Some(Decision::Reverted));
    assert_eq!(f64::from_bits(l.best_score.bits), 1.0);
}

#[test]
fn a_kept_candidate_is_committed_and_its_marker_removed() {
    let (steps, l) = looped(editing(2, false), &[0.5, 0.75], &[]);
    assert!(steps.contains(&iteration::Step::Commit));
    assert!(steps.contains(&iteration::Step::RebuildHost));
    assert!(steps.contains(&iteration::Step::ClearMarker));
    assert_eq!(l.decision, Some(Decision::Kept));
    assert!(!l.pending);
    let (_, l) = looped(editing(2, false), &[0.5, 0.5], &[]);
    assert_eq!(l.decision, Some(Decision::Tie));
}

#[test]
fn an_unscored_candidate_is_taken_back() {
    let plan = editing(2, false);
    // The first evaluation is broken: there is no candidate yet to take back.
    let (steps, l) = looped(plan, &[], &[iteration::Step::Evaluate]);
    assert!(!steps.contains(&iteration::Step::RollBack));
    assert_eq!(l.at, iteration::Position::Stopped(iteration::Step::Evaluate));
    // A candidate's evaluation is broken.
    let mut l = iteration::begin(plan);
    let score = iteration::Event::Scored { score: double(1.0), ci_low: double(0.5) };
    for event in [
        iteration::Event::Done,
        score,
        iteration::Event::Done,
        iteration::Event::Changed(false),
        iteration::Event::Done,
        iteration::Event::Done,
        iteration::Event::Done,
        iteration::Event::Done,
        iteration::Event::Broke,
    ] {
        l = iteration::follow(l, event);
    }
    assert_eq!(l.at, iteration::Position::Doing(iteration::Step::RollBack));
    l = iteration::follow(l, iteration::Event::Done);
    l = iteration::follow(l, iteration::Event::Done);
    assert_eq!(l.at, iteration::Position::TakenBack);
    assert!(!l.pending);
}

#[test]
fn evaluation_only_decides_nothing() {
    let plan = iteration::Plan { generations: 2, improve: false, build: false, holdout: false };
    let (steps, l) = looped(plan, &[0.5, 0.25], &[]);
    assert_eq!(
        steps,
        [
            iteration::Step::Evaluate,
            iteration::Step::Entry,
            iteration::Step::Append,
            iteration::Step::Evaluate,
            iteration::Step::Entry,
            iteration::Step::Append,
        ]
    );
    assert_eq!(l.decision, None);
    assert_eq!(f64::from_bits(l.best_score.bits), 0.25);
}

#[test]
fn a_failed_rebuild_stops_the_loop_after_the_decision_is_recorded() {
    let (steps, l) = looped(editing(2, false), &[1.0, 0.0], &[iteration::Step::RebuildBinary]);
    assert_eq!(l.at, iteration::Position::Stopped(iteration::Step::RebuildBinary));
    assert_eq!(steps.iter().filter(|s| **s == iteration::Step::Append).count(), 2);
    assert!(!l.pending);
}
