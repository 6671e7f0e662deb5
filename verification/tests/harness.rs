//! Tasks, ledger, metadata, slices, scripts, the relay and docker's commands.

use rigcoder_bench::docker;
use rigcoder_bench::double::Double;
use rigcoder_bench::evolve::Lane;
use rigcoder_bench::ledger::{self, Entry, Shown};
use rigcoder_bench::metadata::{self, Identity, Row, TaskSource};
use rigcoder_bench::prompt_proposal::{self, Proposal, Refusal};
use rigcoder_bench::script;
use rigcoder_bench::slices;
use rigcoder_bench::stats::{Cost, Decision, Summary};
use rigcoder_bench::task::{
    self, Contents, LoadError, MarkerFile, OracleFile, OutputLine, Task, Timeout,
};
use rigcoder_bench::trial_relay::{self, Stopping};

fn double(x: f64) -> Double {
    Double { bits: x.to_bits() }
}

// ---------------------------------------------------------------------------
// Tasks

fn contents() -> Contents {
    Contents {
        name: "a".to_owned(),
        dir: "/t/a".to_owned(),
        instruction: "solve it".to_owned(),
        dockerfile: "FROM scratch\nWORKDIR /first\n  WORKDIR   /app  \nRUN true\n".to_owned(),
        oracle: None,
        marker: None,
        agent_timeout: Some(900),
        verifier_timeout: Some(900),
        build_timeout: Some(600),
        cpus: double(1.0),
        memory: task::default_memory(),
        difficulty: String::new(),
    }
}

fn oracle(artifact: &str, expected: &str) -> Option<OracleFile> {
    Some(OracleFile {
        regular: true,
        bytes: 60,
        oracle: Some(OutputLine {
            artifact: artifact.to_owned(),
            expected: expected.to_owned(),
        }),
    })
}

fn marker(text: &str) -> Option<MarkerFile> {
    Some(MarkerFile { regular: true, bytes: text.len() as u64, text: text.to_owned() })
}

#[test]
fn a_task_is_loaded_from_its_files() {
    let task = Task::load(contents()).unwrap();
    assert_eq!(task.workdir, "/app");
    assert_eq!((task.agent_timeout_secs, task.build_timeout_secs), (900, 600));
    assert_eq!(task.memory, "2G");
    assert!(task.output_line.is_none() && !task.polyglot);
    assert_eq!(task.image_tag(), "rigcoder-bench/a:local");
    assert_eq!(task::workdir("FROM scratch\n"), "/app");
    assert_eq!(task::workdir("WORKDIR\n"), "");
}

#[test]
fn limits_must_be_whole_seconds() {
    let refused = |c: Contents| Task::load(c).unwrap_err();
    assert_eq!(
        refused(Contents { agent_timeout: None, ..contents() }),
        LoadError::NoTimeout(Timeout::Agent)
    );
    assert_eq!(
        refused(Contents { verifier_timeout: Some(0), ..contents() }),
        LoadError::ShortTimeout(Timeout::Verifier)
    );
    assert_eq!(
        refused(Contents { build_timeout: Some(0), ..contents() }).message(),
        "environment.build_timeout_sec must be at least one second"
    );
    assert_eq!(
        LoadError::NoTimeout(Timeout::Agent).message(),
        "agent.timeout_sec must be a finite positive timeout"
    );
}

#[test]
fn oracles_are_held_to_their_form() {
    let load = |file: Option<OracleFile>| Task::load(Contents { oracle: file, ..contents() });
    let found = load(oracle("/app/answer.txt", "SYNTHETIC")).unwrap().output_line.unwrap();
    assert_eq!(found.expected, "SYNTHETIC");
    for (artifact, expected) in
        [("app", "x"), ("/a", ""), ("/a", "x\n"), ("/a", "x\r"), ("/a\0b", "x")]
    {
        assert_eq!(load(oracle(artifact, expected)).unwrap_err(), LoadError::Oracle);
    }
    assert!(load(oracle("/a", &"x".repeat(65_536))).is_ok());
    assert_eq!(load(oracle("/a", &"x".repeat(65_537))).unwrap_err(), LoadError::Oracle);
    // The limit on the path counts bytes.
    assert!(load(oracle(&format!("/{}", "é".repeat(2047)), "x")).is_ok());
    assert_eq!(
        load(oracle(&format!("/{}", "é".repeat(2048)), "x")).unwrap_err(),
        LoadError::Oracle
    );
    let file = |regular: bool, bytes: u64, oracle: Option<OutputLine>| {
        load(Some(OracleFile { regular, bytes, oracle })).unwrap_err()
    };
    assert_eq!(file(false, 1, None), LoadError::OracleFile);
    assert_eq!(file(true, 70_001, None), LoadError::OracleFile);
    assert_eq!(file(true, 70_000, None), LoadError::OracleUnreadable);
}

#[test]
fn polyglot_markers_say_exactly_one_thing() {
    let load = |file: Option<MarkerFile>| Task::load(Contents { marker: file, ..contents() });
    assert!(load(marker("{\"version\": 1}")).unwrap().polyglot);
    for bad in ["{\"version\": 2}", "{\"version\": 1, \"x\": 0}", "[1]", "{}", "{\"version\": \"1\"}"]
    {
        assert_eq!(load(marker(bad)).unwrap_err(), LoadError::Marker, "{bad}");
    }
    assert_eq!(load(marker("{broken")).unwrap_err(), LoadError::MarkerUnreadable);
    let long = Some(MarkerFile { regular: true, bytes: 129, text: "{\"version\": 1}".to_owned() });
    assert_eq!(load(long).unwrap_err(), LoadError::MarkerFile);
    let both = Contents {
        oracle: oracle("/a", "x"),
        marker: marker("{\"version\": 1}"),
        ..contents()
    };
    assert_eq!(Task::load(both).unwrap_err(), LoadError::Marker);
    assert!(task::is_marker(&["version".to_owned()], Some(1)));
    assert!(!task::is_marker(&["version".to_owned()], None));
}

// ---------------------------------------------------------------------------
// The ledger and what is linked to it

fn summary(low: f64) -> Summary {
    Summary {
        score: double(0.5),
        pass1: double(0.5),
        passk: double(0.5),
        ci_low: double(low),
        ci_high: double(1.0),
        trials: 9,
        tasks: 3,
        rewards: Vec::new(),
        cost: Cost {
            input_tokens: None,
            output_tokens: None,
            cache_tokens: None,
            tool_calls: 0,
            wall_seconds: double(0.0),
        },
    }
}

fn entry(slice: &str, decision: Option<Decision>, low: f64) -> Entry {
    Entry {
        generation: Some(3),
        slice: slice.to_owned(),
        commit: "recorded".to_owned(),
        decision,
        best_score: double(1.0),
        best_ci_low: double(0.5),
        model: "recorded-model".to_owned(),
        attempts: 8,
        lane: Some(Lane::Prompt),
        meta_commit: Some("editor-revision".to_owned()),
        job_dir: "jobs/evaluation".to_owned(),
        time: 1,
        summary: summary(low),
    }
}

#[test]
fn the_best_kept_entry_has_the_highest_lower_bound() {
    let all = [
        entry("dev", Some(Decision::Kept), 0.2),
        entry("dev", Some(Decision::Reverted), 0.9),
        entry("dev", Some(Decision::Tie), 0.4),
        entry("holdout", Some(Decision::Kept), 0.8),
        entry("dev", Some(Decision::Kept), 0.4),
        entry("dev", None, 0.7),
    ];
    assert_eq!(ledger::best_kept(&all), Some(4));
    assert_eq!(ledger::best_kept(&all[5..]), None);
}

#[test]
fn ledger_lines_keep_their_numbers_and_blank_ones_are_left_out() {
    assert_eq!(ledger::path("/r"), "/r/harness/ledger.jsonl");
    assert_eq!(
        ledger::read("{}\n  \n\n[]\n"),
        [(1, "{}".to_owned()), (4, "[]".to_owned())]
    );
}

#[test]
fn entries_are_printed_as_a_row() {
    let shown = Shown {
        score: " 0.500".to_owned(),
        pass1: " 0.500".to_owned(),
        passk: " 0.500".to_owned(),
        ci_low: " 0.100".to_owned(),
        ci_high: "0.900 ".to_owned(),
    };
    let mut e = entry("dev", Some(Decision::Reverted), 0.1);
    assert_eq!(
        ledger::print(&e, &shown),
        "3    dev      recorded  reverted  prompt    0.500  0.500  0.500  0.100–0.900        9"
    );
    e.generation = None;
    e.decision = None;
    e.lane = None;
    assert_eq!(
        ledger::print(&e, &shown),
        "-    dev      recorded  -         -         0.500  0.500  0.500  0.100–0.900        9"
    );
    assert_eq!(
        ledger::HEADER,
        format!(
            "{:<4} {:<8} {:<9} {:<9} {:<8} {:>6} {:>6} {:>6} {:>13} {:>7}",
            "gen", "slice", "commit", "decision", "lane", "score", "pass1", "passk", "95% CI",
            "trials"
        )
    );
}

fn row(same_job: bool) -> Option<Row> {
    Some(Row { entry: entry("dev", Some(Decision::Reverted), 0.1), same_job })
}

#[test]
fn only_a_unique_row_of_a_whole_ledger_links_an_evaluation() {
    let found = metadata::evaluation(&[row(false), row(true)]).unwrap();
    assert_eq!(found.recorded_commit, "recorded");
    assert_eq!(found.meta_commit.as_deref(), Some("editor-revision"));
    assert_eq!((found.generation, found.attempts), (Some(3), 8));
    assert_eq!(found.lane, Some(Lane::Prompt));
    assert!(found.candidate_revision.is_none() && found.configuration_id.is_none());
    assert!(metadata::evaluation(&[]).is_none());
    assert!(metadata::evaluation(&[row(false)]).is_none());
    assert!(metadata::evaluation(&[row(true), row(true)]).is_none());
    assert!(metadata::evaluation(&[row(true), None]).is_none());
    assert!(metadata::evaluation(&[None, row(true)]).is_none());
}

#[test]
fn trials_are_identified_by_record_before_name() {
    let known = |task: Option<&str>, attempt: Option<usize>| {
        Some(Identity { task: task.map(str::to_owned), attempt })
    };
    assert_eq!(
        metadata::trial(&known(Some("actual__task"), Some(7)), "directory_guess__2"),
        (Some("actual__task".to_owned()), Some(TaskSource::ResultFile), Some(7))
    );
    assert_eq!(
        metadata::trial(&known(None, Some(7)), "directory_guess__2"),
        (Some("directory_guess".to_owned()), Some(TaskSource::DirectoryName), Some(7))
    );
    assert_eq!(
        metadata::trial(&known(Some(""), None), "a__b__2"),
        (Some("a__b".to_owned()), Some(TaskSource::DirectoryName), None)
    );
    assert_eq!(metadata::trial(&None, "anonymous"), (None, None, None));
    assert_eq!(metadata::trial(&None, "__2"), (None, None, None));
}

#[test]
fn slices_name_tasks_line_by_line() {
    assert_eq!(slices::path("/r", "dev"), "/r/harness/slices/dev.txt");
    assert_eq!(
        slices::read("p", "# all\na\n  b # second\n\n#\n").unwrap(),
        ["a", "b"]
    );
    assert_eq!(slices::read("p", "# none\n"), Err("p names no tasks".to_owned()));
}

// ---------------------------------------------------------------------------
// Scripts and the processes that run them

#[test]
fn sources_become_literals() {
    assert_eq!(script::quote("a\"\n\u{1}é"), "\"a\\\"\\n\\u0001é\"");
    let sources = ["x".to_owned(), "y\n".to_owned()];
    assert_eq!(script::literals(&sources), ["\"x\"", "\"y\\n\""]);
    assert_eq!(
        script::scorer_script(&sources, "main()\n"),
        "import sys, types\n\
         m = types.ModuleType(\"artifact_score\"); sys.modules[\"artifact_score\"] = m\nexec(\"x\", m.__dict__)\n\
         m = types.ModuleType(\"artifact_capture\"); sys.modules[\"artifact_capture\"] = m\nexec(\"y\\n\", m.__dict__)\n\
         main()\n"
    );
    assert_eq!(
        script::oracle("/a", "q\"q"),
        "{\"artifact\":\"/a\",\"expected\":\"q\\\"q\"}"
    );
    let eight: Vec<String> = (0..8).map(|i| format!("{i}")).collect();
    let relay = script::relay_script(&eight);
    assert!(relay.starts_with(
        "import sys, types\nsources = {}\nsources[\"artifact_score\"] = \"0\"\nm = types.ModuleType(\"artifact_score\"); sys.modules[\"artifact_score\"] = m\nexec(sources[\"artifact_score\"], m.__dict__)\n"
    ));
    assert!(relay
        .ends_with("raise SystemExit(sys.modules['gemini_trial_relay'].entry(sources))\n"));
    let launcher = script::launcher_script(&eight[..5]);
    assert!(launcher.starts_with("import sys, types, json, os\nm = types.ModuleType(\"artifact_score\")"));
    assert!(launcher.ends_with("    sys.exit(1)\n"));
}

#[test]
fn proposals_keep_to_their_limits() {
    assert_eq!(
        prompt_proposal::request("p\n", "r").unwrap(),
        "{\"prompt\":\"p\\n\",\"report\":\"r\"}"
    );
    assert_eq!(
        prompt_proposal::request(&"x".repeat(131_073), ""),
        Err(Refusal::InputsExceedLimits)
    );
    assert_eq!(
        prompt_proposal::request("", &"\u{1}".repeat(1_000_000)),
        Err(Refusal::RequestExceedsLimits)
    );
    assert_eq!(
        prompt_proposal::request_text("\"p\"", "\"r\"").unwrap(),
        "{\"prompt\":\"p\",\"report\":\"r\"}"
    );
    assert_eq!(prompt_proposal::response(true, 1_200_000), Ok(()));
    assert_eq!(prompt_proposal::response(false, 0), Err(Refusal::LauncherFailed));
    assert_eq!(
        prompt_proposal::response(true, 1_200_001),
        Err(Refusal::ResponseExceedsLimit)
    );
    let long = Proposal { prompt: "p".to_owned(), note: Some("n".repeat(65_537)) };
    assert!(matches!(prompt_proposal::accept(long), Err(Refusal::ProposalExceedsLimits)));
    let good = Proposal { prompt: "p".to_owned(), note: None };
    assert_eq!(prompt_proposal::accept(good).unwrap().prompt, "p");
    assert_eq!(prompt_proposal::note_text(&None), "No rationale supplied.\n");
    assert_eq!(prompt_proposal::note_text(&Some("why".to_owned())), "why");
}

#[test]
fn the_relay_is_awaited_and_stopped() {
    assert_eq!(trial_relay::ready_limit(7200), Some(35));
    assert_eq!(trial_relay::ready_limit(10), Some(10));
    assert_eq!(trial_relay::ready_limit(0), None);
    assert_eq!(trial_relay::ready_limit(7201), None);
    assert!(trial_relay::await_ready(b"ready\n"));
    assert!(!trial_relay::await_ready(b"ready "));
    assert!(!trial_relay::await_ready(b"ready\n\n"));
    assert_eq!(trial_relay::stop(None, false), Stopping::Wait);
    assert_eq!(trial_relay::stop(None, true), Stopping::Kill);
    assert_eq!(trial_relay::stop(Some(true), true), Stopping::Stopped);
    assert_eq!(trial_relay::stop(Some(false), false), Stopping::Failed);
}

#[test]
fn docker_is_called_with_these_words() {
    assert_eq!(docker::available(), ["version", "--format", "{{.Server.Version}}"]);
    assert_eq!(
        docker::build("gtimeout", "/t/environment", "a:local", "/j/a.id", 600),
        [
            "gtimeout", "--signal=KILL", "600", "docker", "build", "--iidfile", "/j/a.id", "-t",
            "a:local", "/t/environment",
        ]
    );
    assert_eq!(
        docker::start("c", "sha256:0", "/app", "1", "2G"),
        [
            "run", "-d", "--name", "c", "--cpus", "1", "--memory", "2G", "-w", "/app",
            "--entrypoint", "sh", "sha256:0", "-c", "while true; do sleep 3600; done",
        ]
    );
    assert_eq!(
        docker::start_isolated("c", "sha256:0", "/app", "1", "2G"),
        [
            "run", "-d", "--network", "none", "--cap-drop", "ALL", "--name", "c", "--cpus", "1",
            "--memory", "2G", "-w", "/app", "--entrypoint", "sh", "sha256:0", "-c",
            "while true; do sleep 3600; done",
        ]
    );
    let env = [("A".to_owned(), "1".to_owned()), ("B".to_owned(), "x=y".to_owned())];
    assert_eq!(
        docker::exec("timeout", "c", "/app", &env, "true", 1),
        [
            "timeout", "--signal=KILL", "2", "docker", "exec", "--user", "root", "-w", "/app",
            "-e", "A=1", "-e", "B=x=y", "c", "timeout", "--signal=KILL", "1", "bash", "-c", "true",
        ]
    );
    assert_eq!(docker::remove("c"), ["rm", "-f", "c"]);
    assert_eq!(docker::copy_in("c", "/h", "/x"), ["cp", "/h", "c:/x"]);
    assert_eq!(docker::copy_out("c", "/x/.", "/h"), ["cp", "c:/x/.", "/h"]);
    assert_eq!(
        docker::read_file("c", "/x"),
        [
            "exec", "--user", "root", "c", "sh", "-c", "[ -e \"$2\" ] || exit 66; exec \"$@\"", "sh",
            "cat", "/x",
        ]
    );
}

#[test]
fn docker_results_are_read_strictly() {
    let output = |code: i32| docker::Output {
        code,
        stdout: "out".to_owned(),
        stderr: " no such \n".to_owned(),
    };
    assert_eq!(docker::checked(&output(0), "x"), Ok(()));
    assert_eq!(
        docker::checked(&output(1), &docker::copy_label("/a", "/b")),
        Err("docker cp /a -> /b: no such".to_owned())
    );
    assert_eq!(docker::file_contents(output(0)), Ok(Some("out".to_owned())));
    let empty = docker::Output { code: 0, stdout: String::new(), stderr: String::new() };
    assert_eq!(docker::file_contents(empty), Ok(Some(String::new())));
    assert_eq!(docker::file_contents(output(docker::ABSENT)), Ok(None));
    for code in [1, 125, 126, 127, 137, -1] {
        assert_eq!(
            docker::file_contents(output(code)),
            Err("docker exec cat: no such".to_owned())
        );
    }
    assert_eq!(
        docker::exec_result(Some(137), String::new(), String::new()).unwrap().code,
        137
    );
    assert_eq!(
        docker::exec_result(None, String::new(), String::new()).unwrap_err(),
        "docker client terminated by signal"
    );
    let gnu = Some("timeout (GNU coreutils) 9.1".to_owned());
    let found = [gnu.clone(), None];
    assert!(matches!(docker::readiness(&found, &None), docker::Readiness::Ask));
    assert!(matches!(docker::readiness(&found, &Some(output(0))), docker::Readiness::Ready));
    match docker::readiness(&found, &Some(output(1))) {
        docker::Readiness::NotReady { message } => {
            assert_eq!(message, "docker daemon unreachable: no such");
        }
        other => panic!("{other:?}"),
    }
    // Without GNU timeout the daemon is never asked, whatever it would say.
    for answer in [None, Some(output(0)), Some(output(1))] {
        match docker::readiness(&[None, None], &answer) {
            docker::Readiness::NotReady { message } => {
                assert!(message.starts_with("GNU timeout is required"));
            }
            other => panic!("{other:?}"),
        }
    }
    assert_eq!(docker::host_timeout(&[gnu.clone(), None]), Ok("timeout"));
    assert_eq!(docker::host_timeout(&[Some("busybox".to_owned()), gnu]), Ok("gtimeout"));
    assert!(docker::host_timeout(&[None, None])
        .unwrap_err()
        .starts_with("GNU timeout is required"));
}
