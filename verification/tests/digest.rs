//! The failure digest: counted facts, scores, buckets and the rendered tables.

use rigcoder_bench::digest::{
    aggregate, deliberating, facts, job, render, render_observed, reward_of, score, short, sum,
    thinking, tool_names, Bucket, Cell, Event, Fact, Sum, ToolRow, TrialFacts, FACTS,
};
use rigcoder_bench::double::Double;
use rigcoder_bench::observe::{
    observed, AdapterEvent, AdapterObservation, Action, Emitter, FailureDetail, Observation,
    ObservationArtifact, Stage, Subject,
};

fn double(x: f64) -> Double {
    Double { bits: x.to_bits() }
}

fn number(d: Double) -> f64 {
    f64::from_bits(d.bits)
}

fn event(kind: &str) -> Event {
    Event {
        kind: kind.to_owned(),
        name: String::new(),
        args: String::new(),
        output: String::new(),
        ok: false,
        text: String::new(),
        input_tokens: 0,
        output_tokens: 0,
        failure: None,
    }
}

fn call(name: &str, args: &str) -> Option<Event> {
    Some(Event { name: name.to_owned(), args: args.to_owned(), ..event("tool_call") })
}

fn result(name: &str, output: &str, ok: bool) -> Option<Event> {
    Some(Event { name: name.to_owned(), output: output.to_owned(), ok, ..event("tool_result") })
}

fn says(text: &str) -> Option<Event> {
    Some(Event { text: text.to_owned(), ..event("assistant") })
}

fn plain(kind: &str) -> Option<Event> {
    Some(event(kind))
}

fn mean(s: &Sum) -> f64 {
    if s.over == 0 {
        0.0
    } else {
        s.total as f64 / s.over as f64
    }
}

fn cell(failed: f64, passed: f64) -> Cell {
    Cell {
        failed: double(failed),
        passed: double(passed),
        quotient: double(failed / passed),
        failed_shown: format!("{failed:.2}"),
        passed_shown: format!("{passed:.2}"),
    }
}

fn cells(trials: &[TrialFacts]) -> Vec<Cell> {
    let failed = aggregate(trials, Bucket::Failed);
    let passed = aggregate(trials, Bucket::Passed);
    vec![
        cell(mean(&failed.tool_calls), mean(&passed.tool_calls)),
        cell(mean(&failed.timeouts), mean(&passed.timeouts)),
        cell(mean(&failed.truncations), mean(&passed.truncations)),
        cell(mean(&failed.repeated_calls), mean(&passed.repeated_calls)),
        cell(mean(&failed.missing_paths), mean(&passed.missing_paths)),
        cell(mean(&failed.ended_deliberating), mean(&passed.ended_deliberating)),
        cell(mean(&failed.no_settle), mean(&passed.no_settle)),
        cell(mean(&failed.calls_before_first_edit), mean(&passed.calls_before_first_edit)),
        cell(mean(&failed.input_tokens), mean(&passed.input_tokens)),
    ]
}

fn rendered(trials: &[TrialFacts]) -> String {
    render(
        aggregate(trials, Bucket::Failed).trials,
        aggregate(trials, Bucket::Passed).trials,
        &cells(trials),
        &[],
        trials,
    )
}

#[test]
fn counts_every_fact() {
    let t = vec![
        Some(Event { text: "do it".to_owned(), ..event("user") }),
        call("bash", "{\"command\":\"find /\"}"),
        result("bash", "...\n[killed after 120s timeout]\n[exit code: signal]", true),
        call("read_file", "{\"path\":\"x\"}"),
        result("read_file", "error: cannot read /app/x: No such file", true),
        call("read_file", "{\"path\":\"x\"}"),
        result("read_file", "error: cannot read /app/x: No such file", true),
        call("bash", "{\"command\":\"cat big\"}"),
        result("bash", "head\n\n[... output truncated in the middle ...]\n\ntail", true),
        call("edit_file", "{\"path\":\"a\"}"),
        result("edit_file", "1 replacement(s)", true),
        says("Should I use cwe-93 or CWE-93? Let me think."),
        Some(Event { input_tokens: 100, output_tokens: 7, ..event("usage") }),
        plain("settled"),
    ];
    let f = facts(&t);
    assert_eq!(f.tool_calls, 5);
    assert_eq!(f.timeouts, 1);
    assert_eq!(f.truncations, 1);
    assert_eq!(f.repeated_calls, 1);
    assert_eq!(f.missing_paths, 2);
    assert_eq!(f.calls_before_first_edit, 4);
    assert!(f.ended_deliberating);
    assert!(!f.no_settle);
    assert_eq!(f.by_tool.get("bash"), Some((2, 0)));
    assert_eq!(f.input_tokens, 100);
    assert_eq!(f.last_tool.as_deref(), Some("edit_file"));
    assert_eq!(f.output_tokens, 7);
    assert_eq!(f.final_text_chars, 44);
    assert_eq!(f.ending, "settled");
}

#[test]
fn a_summary_ending_is_not_deliberation_and_a_failed_run_did_not_settle() {
    let ok = vec![
        call("bash", "{}"),
        result("bash", "ok", true),
        says("Fixed add() and ran the test; it passes."),
        plain("settled"),
    ];
    let f = facts(&ok);
    assert!(!f.ended_deliberating);
    assert!(!f.no_settle);
    let failed = vec![call("bash", "{}"), result("bash", "ok", true), plain("failed")];
    let f = facts(&failed);
    assert!(f.no_settle);
    assert_eq!(f.calls_before_first_edit, u64::MAX);
    assert_eq!(f.ending, "unknown");
}

#[test]
fn aggregate_means_and_render_order() {
    let mut a = facts(&[
        call("bash", "{}"),
        result("bash", "[killed after 1s timeout]", true),
        plain("settled"),
    ]);
    a.reward = Some(double(0.0));
    let mut b =
        facts(&[call("bash", "{}"), result("bash", "fine", true), plain("settled")]);
    b.reward = Some(double(1.0));
    let trials = vec![a, b];
    assert_eq!(mean(&aggregate(&trials, Bucket::Failed).timeouts), 1.0);
    assert_eq!(mean(&aggregate(&trials, Bucket::Passed).timeouts), 0.0);
    let text = rendered(&trials);
    let first_row =
        text.lines().find(|l| l.starts_with("| ") && !l.starts_with("| fact")).unwrap();
    assert!(first_row.starts_with("| bash timeouts"), "{first_row}");
}

#[test]
fn the_real_gen1_ending_is_deliberation() {
    let text = "_cwe) == 2 != 1`, which FAILS!\nSo having 2 elements is definitely risky if strict equality is used.\nWe should have exactly 1 element in `cwe_id`.\n\nNow, which 1 element: `\"cwe-93\"` or `\"CWE-93\"`?\nLet's compare:\nArgument for `\"cwe-93\"`:\n- The instruction says:\n  `- demonstration of format of vulnerable item: {\"file_path\": \"/app/example.cpp\", \"cwe_id\": [\"cwe-123\"]}`\n  It literally gives you the format of the vulnerable item!\n  Format: `\"cwe-123\"` -> lowercase!\n  If you give an instruction with an example of format, and an agent follows the demonstration and writes `{\"file_path\": \"/app/bottle.py\", \"cwe_id\": [\"cwe-93\"]}`,\n  that is 100";
    assert!(deliberating(text));
}

#[test]
fn a_summary_is_not() {
    assert!(!deliberating(
        "Fixed the header validation in bottle.py and wrote /app/report.jsonl; all 367 tests pass."
    ));
    assert!(!deliberating("Done. The test suite passes (`pytest -q`: 12 passed)."));
    assert!(!deliberating(""));
}

#[test]
fn bounded_shell_capture_is_counted_as_truncated() {
    let t = [result("bash", "head\n[... 19976000 bytes omitted ...]\ntail", true)];
    assert_eq!(facts(&t).truncations, 1);
}

#[test]
fn deliberation_is_found_in_any_case_and_in_long_endings() {
    // The phrase is written in capitals: the text is lowered before it is searched.
    assert!(deliberating("LET ME see."));
    assert!(deliberating("One? Two?"));
    assert!(!deliberating("One? Done."));
    // An ending without terminal punctuation is cut off, however short the text.
    assert!(deliberating("Wrote the report and then"));
    assert!(deliberating("x"));
    assert!(deliberating(&"x".repeat(201)));
    assert!(!deliberating("x. \n"));
    assert!(!deliberating(" \n"));
    assert!(!deliberating(&format!("{})", "x".repeat(300))));
    // A phrase farther back than the last 1500 characters does not count.
    assert!(!deliberating(&format!("hmm{}.", "x".repeat(1500))));
    assert!(deliberating(&format!("hmm{}.", "x".repeat(1490))));
    assert!(thinking(&['D', 'o', 'n', 'e', '.'], "wait"));
    assert!(!thinking(&['D', 'o', 'n', 'e', '.'], "done."));
}

#[test]
fn only_the_last_five_calls_count_as_repeated() {
    let near = vec![
        call("a", "1"), call("b", ""), call("c", ""), call("d", ""), call("e", ""), call("a", "1"),
    ];
    assert_eq!(facts(&near).repeated_calls, 1);
    let far = vec![
        call("a", "1"), call("b", ""), call("c", ""), call("d", ""), call("e", ""), call("f", ""),
        call("a", "1"),
    ];
    assert_eq!(facts(&far).repeated_calls, 0);
    assert_eq!(facts(&[call("a", "1"), call("a", "2")]).repeated_calls, 0);
}

#[test]
fn missing_paths_are_found_whatever_the_case() {
    let t = [
        result("bash", "ls: NO SUCH FILE or directory", false),
        result("edit_file", "old_string not found", false),
        result("bash", "fine", true),
    ];
    let f = facts(&t);
    assert_eq!(f.missing_paths, 2);
    assert_eq!(f.by_tool.get("bash"), Some((1, 1)));
    assert_eq!(f.by_tool.get("edit_file"), Some((0, 1)));
    assert_eq!(f.by_tool.get("grep"), None);
}

#[test]
fn an_unread_line_is_skipped_and_a_later_call_clears_the_final_text() {
    let t = vec![None, says("Let me look."), call("bash", "{}"), None];
    let f = facts(&t);
    assert_eq!(f.tool_calls, 1);
    assert_eq!(f.final_text_chars, 0);
    assert!(!f.ended_deliberating);
    assert!(f.no_settle);
    assert_eq!(f.ending, "unknown");
}

#[test]
fn a_structured_failure_names_the_ending() {
    let failure = FailureDetail {
        kind: "http".to_owned(),
        boundary: "provider_response".to_owned(),
        http_status: Some(429),
        adapter: None,
        shown: "quota".to_owned(),
    };
    let f = facts(&[Some(Event { failure: Some(failure), ..event("failed") })]);
    assert_eq!(f.ending, "http");
    assert_eq!(f.failure.unwrap().http_status, Some(429));
    assert!(f.no_settle);
}

fn text_score(verifier: Option<&str>, result: Option<&str>) -> (Option<Double>, Double) {
    let first = verifier.and_then(|t| t.trim().parse::<f64>().ok()).map(double);
    let value = result.and_then(|t| serde_json::from_str::<serde_json::Value>(t).ok());
    let second = value.as_ref().and_then(|v| v["reward"].as_f64()).map(double);
    let third = value
        .as_ref()
        .and_then(|v| v["verifier_result"]["rewards"]["reward"].as_f64())
        .map(double);
    score(reward_of(first, second, third))
}

fn one_attempt() -> ObservationArtifact {
    ObservationArtifact {
        measurement_context: None,
        recording_provenance: None,
        observations: vec![Observation {
            subject: Subject { scope: Some("rigcoder/run/1".to_owned()), order: None, effect: Some(1) },
            emitter: Emitter { name: "rig".to_owned() },
            stage: Stage::Other,
            action: Action::Adapter {
                fact: AdapterObservation {
                    operation: "op".to_owned(),
                    attempt: Some(1),
                    host_attempt: None,
                    event: AdapterEvent::Response { status: 200 },
                    analysis: None,
                },
            },
            handler_timing: None,
            run_timing: None,
        }],
        finalized: true,
        dropped: 0,
    }
}

#[test]
fn job_preserves_missing_scores_and_existing_selection_precedence() {
    let cases = [
        ("missing", None, None, None),
        ("malformed", Some("invalid"), Some("{broken"), None),
        ("no_reward", None, Some("{}"), None),
        ("zero", None, Some("{\"reward\":0}"), Some(0.0)),
        ("verifier_wins", Some("0"), Some("{\"reward\":1}"), Some(0.0)),
        ("result_fallback", Some("invalid"), Some("{\"reward\":1}"), Some(1.0)),
        (
            "nested",
            None,
            Some("{\"verifier_result\":{\"rewards\":{\"reward\":0.5}}}"),
            Some(0.5),
        ),
        ("nonfinite", Some("NaN"), None, None),
        ("infinite", Some("inf"), Some("{\"reward\":0}"), None),
    ];
    let mut trials = Vec::new();
    for (name, verifier, result, _) in &cases {
        let mut f = facts(&[plain("settled")]);
        f.trial = (*name).to_owned();
        let artifact = one_attempt();
        f.observed = observed(Some(&artifact));
        (f.reward, f.unavailable_selection_reward) = text_score(*verifier, *result);
        trials.push(f);
    }
    let trials = job(trials);
    for (name, _, _, expected) in cases {
        let trial = trials.iter().find(|trial| trial.trial == name).unwrap();
        assert_eq!(trial.reward.map(number), expected, "{name}");
        assert_eq!(trial.observed.attempts.len(), 1);
        assert_eq!(trial.observed.attempts[0].status, Some(200));
        if name == "nonfinite" {
            assert!(number(trial.selection_reward()).is_nan());
            assert!(!trial.failed() && !trial.passed());
        } else if name == "infinite" {
            assert_eq!(number(trial.selection_reward()), f64::INFINITY);
        } else {
            assert_eq!(number(trial.selection_reward()), expected.unwrap_or(0.0));
        }
    }
    assert_eq!(aggregate(&trials, Bucket::Passed).trials, 2);
    assert_eq!(aggregate(&trials, Bucket::Failed).trials, 6);
    assert!(rendered(&trials).contains("unavailable evidence"));
    let names: Vec<&str> = trials.iter().map(|t| t.trial.as_str()).collect();
    let mut sorted = names.clone();
    sorted.sort();
    assert_eq!(names, sorted);
}

#[test]
fn sums_leave_out_trials_that_never_edited() {
    let mut a = facts(&[call("bash", "{}"), call("edit_file", "{}")]);
    a.reward = Some(double(0.0));
    let mut b = facts(&[call("bash", "{}")]);
    b.reward = Some(double(0.5));
    let mut c = facts(&[call("edit_file", "{}")]);
    c.reward = Some(double(1.0));
    let trials = vec![a, b, c];
    let edits = sum(&trials, Bucket::Failed, Fact::CallsBeforeFirstEdit);
    assert_eq!((edits.total, edits.over), (1, 1));
    let calls = sum(&trials, Bucket::Failed, Fact::ToolCalls);
    assert_eq!((calls.total, calls.over), (3, 2));
    let totals = aggregate(&trials, Bucket::Failed);
    assert_eq!(totals.no_settle.total, 2);
    assert_eq!(totals.last_tool.get("bash"), Some(1));
    assert_eq!(totals.last_tool.get("edit_file"), Some(1));
    assert_eq!(aggregate(&trials, Bucket::Passed).trials, 1);
}

#[test]
fn the_rendered_digest_in_full() {
    let mut a = facts(&[
        call("bash", "{}"),
        result("bash", "ok", true),
        says("Fixed."),
        plain("settled"),
    ]);
    a.trial = "a__1".to_owned();
    a.reward = Some(double(0.0));
    let trials = vec![a];
    let tools = [ToolRow {
        tool: "bash".to_owned(),
        failed: "1.00".to_owned(),
        passed: "0.00".to_owned(),
    }];
    let text = render(1, 0, &cells(&trials), &tools, &trials);
    assert_eq!(
        text,
        "## Digest: 1 failed trial(s) vs 0 passed\n\n\
         ### What failed trials did more of\n\n\
         | fact (mean per trial) | failed | passed |\n|---|---|---|\n\
         | tool calls | 1.00 | 0.00 |\n\
         | bash timeouts | 0.00 | 0.00 |\n\
         | truncated results | 0.00 | 0.00 |\n\
         | repeated identical calls | 0.00 | 0.00 |\n\
         | results naming a missing path | 0.00 | 0.00 |\n\
         | ended in deliberation, not a summary | 0.00 | 0.00 |\n\
         | ended without settling | 0.00 | 0.00 |\n\
         | calls before the first edit | 0.00 | 0.00 |\n\
         | input tokens | 0.00 | 0.00 |\n\
         \n### Calls per tool (mean per trial)\n\n| tool | failed | passed |\n|---|---|---|\n\
         | bash | 1.00 | 0.00 |\n\
         \n### Failed trials\n\n| trial | calls | timeouts | truncated | repeats | missing paths | ending | last tool |\n|---|---|---|---|---|---|---|---|\n\
         | a__1 | 1 | 0 | 0 | 0 | 0 | summary | bash |\n\n"
    );
    assert_eq!(FACTS.len(), 9);
}

#[test]
fn the_witness_section_appears_only_where_something_was_seen() {
    let mut a = facts(&[plain("failed")]);
    a.trial = "a__1".to_owned();
    a.reward = Some(double(0.0));
    assert_eq!(render_observed(&[a]), "");
    let mut b = facts(&[plain("failed")]);
    b.trial = "b__1".to_owned();
    b.reward = Some(double(0.0));
    let artifact = one_attempt();
    b.observed = observed(Some(&artifact));
    let text = render_observed(&[b]);
    assert!(text.starts_with("\n### What the witness saw in failed trials\n\n| trial | trace |"));
    assert!(text.ends_with("| b__1 | complete | 0 | 0 | 0 | 0 | 0 (0) | 0 |  |  |\n"), "{text}");
}

#[test]
fn tools_are_named_once_and_in_order() {
    let failed = [("grep".to_owned(), double(1.0)), ("bash".to_owned(), double(1.0))];
    let passed = [("bash".to_owned(), double(2.0)), ("edit_file".to_owned(), double(1.0))];
    let names = tool_names(&failed, &passed);
    let list: Vec<&str> = names.entries.iter().map(|(name, _)| name.as_str()).collect();
    assert_eq!(list, ["bash", "edit_file", "grep"]);
}

#[test]
fn short_texts_are_cut_by_characters() {
    assert_eq!(short("abc", 3), "abc");
    assert_eq!(short("界界界", 2), "界界…");
}
