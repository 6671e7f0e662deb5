//! Lanes, arguments, paths and what a self-edit may touch.

use rigcoder_bench::digest::{Aggregate, Digest};
use rigcoder_bench::double::Double;
use rigcoder_bench::evolve::{
    binary_arch, branch_from, branch_key, budget_phase, build_linux, changed_paths, clean_outside,
    covered, generation_label, git, improver_arguments, meta_task, new_job_dir, note_name, paths,
    pending_improvement, plain_name, prepare_evolve, proposal_baseline, provider_key, replay,
    replay_arguments, restore_paths, revert_mutable, run, scope_arguments, slice_name, split_model,
    tasks_for, to_commit, trial_task, validate_run, BranchRefusal, BuildRefusal, JobRefusal, Lane,
    Limits, Preparation, Replay, RunArgs, RunRefusal, MUTABLE,
};
use rigcoder_bench::table::Table;

fn double(x: f64) -> Double {
    Double { bits: x.to_bits() }
}

fn number(d: Double) -> f64 {
    f64::from_bits(d.bits)
}

fn nothing(trials: usize) -> Aggregate {
    Aggregate {
        trials,
        tool_calls: double(0.0),
        timeouts: double(0.0),
        truncations: double(0.0),
        repeated_calls: double(0.0),
        missing_paths: double(0.0),
        ended_deliberating: double(0.0),
        no_settle: double(0.0),
        calls_before_first_edit: double(0.0),
        input_tokens: None,
        by_tool: Vec::new(),
        last_tool: Table::new(),
    }
}

fn limits(p: &Aggregate) -> Limits {
    Limits {
        timeouts: double(number(p.timeouts) + 0.25),
        truncations: double(number(p.truncations) + 0.25),
        ended_deliberating: double(number(p.ended_deliberating) + 0.25),
        repeated_calls: double(number(p.repeated_calls) + 1.0),
        calls_before_first_edit: double(number(p.calls_before_first_edit) * 1.5 + 5.0),
        input_tokens: p.input_tokens.map(|n| double(number(n) * 1.5)),
        no_settle: double(number(p.no_settle) + 0.25),
    }
}

fn lane(failed: Aggregate, passed: Aggregate, previous: Option<Lane>) -> Lane {
    let found = limits(&passed);
    let digest = Digest { evaluation: None, failed, passed, trials: Vec::new() };
    Lane::pick(Some((&digest, found)), previous)
}

fn strings(parts: &[&str]) -> Vec<String> {
    parts.iter().map(|part| (*part).to_owned()).collect()
}

fn arguments() -> RunArgs {
    RunArgs {
        slice: "dev".to_owned(),
        tasks: Vec::new(),
        attempts: 3,
        concurrency: 4,
        model: "gemini/gemini-3.8-flash".to_owned(),
        gemini_budget: None,
        max_turns: 200,
        tasks_dir: "harness/tasks".to_owned(),
        binary: "harness/bin/rigcoder-linux-x86_64".to_owned(),
        no_build: false,
        job_name: None,
        checkpoint: false,
    }
}

#[test]
fn unknown_usage_cannot_supply_a_shaping_signal() {
    let with = |tokens: Option<f64>| Aggregate { input_tokens: tokens.map(double), ..nothing(2) };
    assert_eq!(lane(with(Some(200.0)), with(Some(100.0)), None), Lane::Shaping);
    assert_eq!(lane(with(None), with(Some(100.0)), None), Lane::Prompt);
    assert_eq!(lane(with(Some(200.0)), with(None), None), Lane::Prompt);
}

#[test]
fn timeouts_point_at_tools_and_deliberation_at_prompt() {
    let f = Aggregate { timeouts: double(1.0), ..nothing(2) };
    assert_eq!(lane(f, nothing(4), None), Lane::Tools);
    let f = Aggregate { ended_deliberating: double(1.0), ..nothing(2) };
    let p = Aggregate { ended_deliberating: double(0.2), ..nothing(4) };
    assert_eq!(lane(f, p, None), Lane::Prompt);
}

#[test]
fn no_signal_round_robins_and_no_failures_too() {
    assert_eq!(Lane::pick(None, None), Lane::Prompt);
    assert_eq!(Lane::pick(None, Some(Lane::Prompt)), Lane::Tools);
    assert_eq!(Lane::pick(None, Some(Lane::Systems)), Lane::Prompt);
    assert_eq!(lane(nothing(0), nothing(3), Some(Lane::Tools)), Lane::Settings);
}

#[test]
fn coverage_handles_files_and_directories() {
    assert!(covered(Lane::Tools.files(), "crates/rigcoder/src/tools.rs"));
    assert!(covered(Lane::Tools.files(), "crates/rigcoder/src/tools/bash.rs"));
    assert!(!covered(Lane::Tools.files(), "crates/rigcoder/src/lib.rs"));
    assert!(!covered(Lane::Prompt.files(), "harness/ledger.jsonl"));
}

#[test]
fn each_signal_has_its_lane() {
    let settle = Aggregate { no_settle: double(0.5), ..nothing(2) };
    assert_eq!(lane(settle, nothing(1), None), Lane::Systems);
    let slow = Aggregate { calls_before_first_edit: double(5.5), ..nothing(2) };
    assert_eq!(lane(slow, nothing(1), Some(Lane::Tools)), Lane::Prompt);
    let cut = Aggregate { truncations: double(0.5), ..nothing(2) };
    assert_eq!(lane(cut, nothing(1), None), Lane::Tools);
    let again = Aggregate { repeated_calls: double(1.5), ..nothing(2) };
    assert_eq!(lane(again, nothing(1), Some(Lane::Tools)), Lane::Prompt);
    // A signal that only reaches its limit is none.
    let level = Aggregate { no_settle: double(0.25), ..nothing(2) };
    assert_eq!(lane(level, nothing(1), Some(Lane::Shaping)), Lane::Systems);
    assert_eq!(
        lane(
            Aggregate { no_settle: double(0.25), ..nothing(2) },
            nothing(1),
            Some(Lane::Settings)
        ),
        Lane::Shaping
    );
}

#[test]
fn every_lane_has_a_name_files_and_levers() {
    let all = [Lane::Prompt, Lane::Tools, Lane::Settings, Lane::Shaping, Lane::Systems];
    let names: Vec<&str> = all.iter().map(|lane| lane.name()).collect();
    assert_eq!(names, ["prompt", "tools", "settings", "shaping", "systems"]);
    for lane in all {
        assert!(!lane.levers().is_empty());
        for file in lane.files() {
            assert!(MUTABLE.contains(file), "{file}");
        }
    }
}

#[test]
fn round_robin_comes_back_after_five_generations() {
    let mut lane = Lane::Settings;
    let mut seen = vec![lane.name()];
    for _ in 0..4 {
        lane = Lane::pick(None, Some(lane));
        seen.push(lane.name());
    }
    assert_eq!(seen, ["settings", "shaping", "systems", "prompt", "tools"]);
    assert_eq!(Lane::pick(None, Some(lane)), Lane::Settings);
}

#[test]
fn providers_have_their_keys() {
    assert_eq!(provider_key("anthropic"), Some("ANTHROPIC_API_KEY"));
    assert_eq!(provider_key("openai"), Some("OPENAI_API_KEY"));
    assert_eq!(provider_key("gemini"), Some("GEMINI_API_KEY"));
    assert_eq!(provider_key("mock"), None);
    assert_eq!(split_model("mock/model/x"), ("mock".to_owned(), "model/x".to_owned()));
    assert_eq!(split_model("flash"), ("gemini".to_owned(), "flash".to_owned()));
}

#[test]
fn runs_are_refused_for_each_reason() {
    let tasks = strings(&["a", "b"]);
    assert_eq!(validate_run(&arguments(), &tasks), Ok(()));
    assert_eq!(validate_run(&arguments(), &[]), Err(RunRefusal::Nothing));
    let none = RunArgs { attempts: 0, ..arguments() };
    assert_eq!(validate_run(&none, &tasks), Err(RunRefusal::Nothing));
    let none = RunArgs { concurrency: 0, ..arguments() };
    assert_eq!(validate_run(&none, &tasks), Err(RunRefusal::Nothing));
    for bad in ["", ".", "..", "a/b", "a\\b"] {
        assert_eq!(validate_run(&arguments(), &strings(&[bad])), Err(RunRefusal::TaskName));
        assert!(!plain_name(bad));
    }
    assert_eq!(
        validate_run(&arguments(), &strings(&["a", "b", "a"])),
        Err(RunRefusal::Duplicate)
    );
    let budget = RunArgs { gemini_budget: Some("ledger".to_owned()), ..arguments() };
    assert_eq!(validate_run(&budget, &tasks), Ok(()));
    let scenes = RunArgs { checkpoint: true, ..budget };
    assert_eq!(validate_run(&scenes, &tasks), Err(RunRefusal::Budget));
    let other = RunArgs {
        gemini_budget: Some("ledger".to_owned()),
        model: "openai/gpt".to_owned(),
        ..arguments()
    };
    assert_eq!(validate_run(&other, &[]), Err(RunRefusal::Budget));
    assert_eq!(RunRefusal::Duplicate.message(), "task names must be unique");
}

#[test]
fn explicit_tasks_take_the_place_of_the_slice() {
    let dev = arguments();
    assert_eq!(slice_name(&dev), "dev");
    assert_eq!(tasks_for(&dev, Ok(strings(&["a"]))), Ok(strings(&["a"])));
    assert_eq!(tasks_for(&dev, Err("gone".to_owned())), Err("gone".to_owned()));
    let own = RunArgs { tasks: strings(&["x"]), ..arguments() };
    assert_eq!(slice_name(&own), "custom");
    assert_eq!(tasks_for(&own, Err("gone".to_owned())), Ok(strings(&["x"])));
    assert_eq!(run(&own), ("run-custom".to_owned(), "development"));
    let held = RunArgs { slice: "holdout".to_owned(), ..arguments() };
    assert_eq!(run(&held), ("run-holdout".to_owned(), "holdout"));
    assert_eq!(budget_phase("dev"), "development");
}

#[test]
fn job_names_are_single_directories() {
    assert_eq!(
        new_job_dir(Some("same-prefix"), "gen-000", 12, 34),
        Ok("same-prefix-gen-000-12-34".to_owned())
    );
    assert_eq!(new_job_dir(None, "run-dev", 12, 34), Ok("run-dev-12-34".to_owned()));
    assert_eq!(new_job_dir(None, "a/b", 1, 1), Err(JobRefusal::Label));
    for bad in ["", ".", "..", "a/b", "a\\b"] {
        assert_eq!(new_job_dir(Some(bad), "x", 1, 1), Err(JobRefusal::Name));
    }
    assert_eq!(
        JobRefusal::Label.message(),
        "job labels must not contain directory separators"
    );
    assert_eq!(JobRefusal::Name.message(), "job name must be a single directory name");
    assert_eq!(generation_label(3), "gen-003");
    assert_eq!(generation_label(1234), "gen-1234");
    assert_eq!(note_name(2, Lane::Tools, "job"), "gen-002-tools-job.md");
}

#[test]
fn the_build_script_makes_only_its_own_binary() {
    assert_eq!(build_linux("/r", "harness/bin/rigcoder-linux-x86_64"), Ok("x86_64"));
    assert_eq!(build_linux("/r", "harness/bin//rigcoder-linux-aarch64"), Ok("aarch64"));
    assert_eq!(build_linux("/r", "/r/harness/bin/rigcoder-linux-x86_64"), Ok("x86_64"));
    assert_eq!(build_linux("/r", "./harness/bin/rigcoder-linux-x86_64"), Ok("x86_64"));
    assert_eq!(
        build_linux("/r", "harness/../harness/bin/rigcoder-linux-x86_64"),
        Err(BuildRefusal::Place)
    );
    assert_eq!(
        BuildRefusal::Place.message("a/b"),
        "the build script does not produce a/b; use its harness/bin output"
    );
    assert_eq!(
        BuildRefusal::Name.message("a/b"),
        "building requires a harness/bin/rigcoder-linux-<architecture> binary; use --no-build for custom binaries"
    );
    assert_eq!(build_linux("/r", "target/rigcoder"), Err(BuildRefusal::Name));
    assert_eq!(build_linux("/r", "target/rigcoder-linux-x86_64"), Err(BuildRefusal::Place));
    assert_eq!(binary_arch("x/rigcoder-linux-aarch64"), Some("aarch64"));
    assert_eq!(binary_arch("x/rigcoder"), None);
}

#[test]
fn branches_need_attempts_and_no_budget() {
    assert_eq!(branch_from(&arguments(), 2), Ok(()));
    assert_eq!(branch_from(&arguments(), 0), Err(BranchRefusal::NoAttempts));
    let budget = RunArgs { gemini_budget: Some("ledger".to_owned()), ..arguments() };
    assert_eq!(branch_from(&budget, 0), Err(BranchRefusal::Budgeted));
    assert_eq!(branch_key("gemini/gemini-3.8-flash", true), Ok(()));
    assert_eq!(branch_key("gemini-3.8-flash", false), Err(BranchRefusal::NoKey));
    assert_eq!(branch_key("openai/gpt", false), Err(BranchRefusal::NoKey));
    assert_eq!(branch_key("local/llama", false), Ok(()));
    assert_eq!(
        BranchRefusal::Budgeted.message(),
        "budgeted branching is not supported; use fresh trials"
    );
    assert_eq!(
        BranchRefusal::NoAttempts.message(),
        "branch-from requires at least one attempt"
    );
    assert_eq!(BranchRefusal::NoKey.message(), "provider API key is not set");
}

#[test]
fn agents_are_run_with_their_files_and_scope() {
    let all = improver_arguments("/r", "/r/runs/j", Lane::Prompt, "n.md", "do it");
    assert_eq!(
        all[..12],
        [
            "--cwd", "/r", "--max-turns", "80", "--timeout-secs", "1800", "--transcript",
            "/r/runs/j/improve-transcript.jsonl", "--effect-log", "/r/runs/j/improve-effects.json",
            "--checkpoint", "/r/runs/j/improve-scenes",
        ]
    );
    assert_eq!(all[12..all.len() - 1], scope_arguments(Lane::Prompt, "n.md"));
    assert_eq!(all[all.len() - 1], "do it");
    assert_eq!(
        replay_arguments("/app", "t/effects.json", None),
        ["--cwd", "/app", "--replay", "t/effects.json", "--provider", "gemini"]
    );
    assert_eq!(
        replay_arguments("/app", "e", Some("p.md"))[6..],
        ["--prompt-file", "p.md"]
    );
}

#[test]
fn trials_name_their_task() {
    assert_eq!(trial_task("runs/job/fix-it__3").as_deref(), Some("fix-it"));
    assert_eq!(trial_task("runs/job/plain").as_deref(), Some("plain"));
    assert_eq!(trial_task("/"), None);
}

#[test]
fn git_output_loses_its_line_ends_and_lists_their_paths() {
    assert_eq!(git("abc\r\n\n"), "abc");
    assert_eq!(git(" abc "), " abc ");
    assert_eq!(paths("a\0b c\0\0"), ["a", "b c"]);
    assert!(paths("").is_empty());
    assert_eq!(
        changed_paths(&strings(&["b", "a"]), &strings(&["a", "c"]), &strings(&["b"])),
        ["a", "b", "c"]
    );
}

#[test]
fn only_the_lane_and_its_note_survive_an_edit() {
    let changed = strings(&[
        "README.md",
        "crates/rigcoder/src/prompt.md",
        "harness/notes/gen-001-prompt-j.md",
        "unexpected.txt",
    ]);
    let allowed = ["crates/rigcoder/src/prompt.md", "harness/notes/gen-001-prompt-j.md"];
    assert_eq!(clean_outside(&changed, &allowed), ["README.md", "unexpected.txt"]);
    assert_eq!(revert_mutable(&changed), ["crates/rigcoder/src/prompt.md"]);
    assert_eq!(
        to_commit(&changed, Some("harness/notes/gen-001-prompt-j.md")),
        ["crates/rigcoder/src/prompt.md", "harness/notes/gen-001-prompt-j.md"]
    );
    assert_eq!(to_commit(&changed, None), ["crates/rigcoder/src/prompt.md"]);
    let plan = restore_paths(&strings(&["new.txt", "README.md"]), &strings(&["README.md"]));
    assert_eq!(plan.len(), 2);
    assert_eq!((plan[0].path.as_str(), plan[0].in_head), ("new.txt", false));
    assert_eq!((plan[1].path.as_str(), plan[1].in_head), ("README.md", true));
}

#[test]
fn self_edits_start_from_a_clean_branch() {
    let ledger = strings(&["harness/ledger.jsonl"]);
    assert!(matches!(prepare_evolve(&ledger, "", "main", false), Preparation::CreateBranch));
    assert!(matches!(prepare_evolve(&ledger, "", "main", true), Preparation::BranchExists));
    assert!(matches!(prepare_evolve(&[], "", "evolve", true), Preparation::Ready));
    match prepare_evolve(&strings(&["harness/ledger.jsonl", "x"]), "", "evolve", true) {
        Preparation::Dirty { paths } => assert_eq!(paths, ["x"]),
        other => panic!("{other:?}"),
    }
    match prepare_evolve(&ledger, "harness/ledger.jsonl", "evolve", true) {
        Preparation::Dirty { paths } => assert!(paths.is_empty()),
        other => panic!("{other:?}"),
    }
}

#[test]
fn the_meta_task_is_filled_in() {
    let task = meta_task("/r/report.md", Lane::Tools, "/r/note.md");
    assert!(task.contains("Read /r/report.md first"));
    assert!(task.contains("works in the tools lane: tool descriptions"));
    assert!(task.contains(
        "these files: crates/rigcoder/src/tools.rs, crates/rigcoder/src/tools/. Nothing else."
    ));
    assert!(task.contains(
        "Do not read harness/slices/holdout.txt, harness/ledger.jsonl, crates/rigcoder-bench/, harness/notes/."
    ));
    assert!(task.ends_with("Write that note to /r/note.md.\n"));
    assert!(!task.contains('{'));
    assert_eq!(
        scope_arguments(Lane::Prompt, "n.md"),
        [
            "--allow", "crates/rigcoder/src/prompt.md", "--allow", "n.md", "--deny-path",
            "harness/", "--deny-path", "Cargo.toml", "--deny-path", "Cargo.lock", "--deny-path",
            "crates/rigcoder-bench/", "--deny-path", ".github/",
        ]
    );
}

#[test]
fn git_is_asked_for_the_whole_state() {
    let asked = proposal_baseline();
    assert_eq!(asked.len(), 5);
    assert_eq!(asked[0], ["rev-parse", "HEAD"]);
    assert_eq!(asked[4], ["diff", "--cached", "--no-ext-diff", "--binary"]);
    assert_eq!(
        pending_improvement(),
        ["rev-parse", "--git-path", "rigcoder-pending-improvement.json"]
    );
}

#[test]
fn a_replay_ends_in_one_of_three_ways() {
    assert!(matches!(replay(Some(0)), Replay::Reproduced));
    assert!(matches!(replay(Some(3)), Replay::Diverged));
    assert!(matches!(replay(Some(1)), Replay::Failed(Some(1))));
    assert!(matches!(replay(None), Replay::Failed(None)));
}
