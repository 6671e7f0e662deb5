//! The failure report.

use rigcoder_bench::report::{
    bounded_excerpt, collapse, compose, failed_trials, fenced, indented_prefix, indented_suffix,
    publish, render_transcript, Event, Failure, Headline, TaskRow, REPORT_CAP,
};
use rigcoder_bench::double::Double;
use rigcoder_bench::trial::TrialRecord;

fn rewarded(reward: f64) -> TrialRecord {
    TrialRecord {
        task: "t".to_owned(),
        attempt: 1,
        reward: Double { bits: reward.to_bits() },
        input_tokens: None,
        output_tokens: None,
        cache_tokens: None,
        tool_calls: 0,
        wall_seconds: Double { bits: 0 },
        settled: true,
        error: None,
    }
}

#[test]
fn failures_fall_short_of_one() {
    let trials = [rewarded(0.0), rewarded(1.0), rewarded(0.5), rewarded(1.0), rewarded(0.9)];
    assert_eq!(failed_trials(&trials), [0, 2, 4]);
    assert!(failed_trials(&trials[1..2]).is_empty());
}

fn event(kind: &str) -> Event {
    Event {
        kind: kind.to_owned(),
        name: String::new(),
        args: String::new(),
        output: String::new(),
        ok: false,
        text: String::new(),
        answer: String::new(),
    }
}

#[test]
fn long_results_collapse_to_head_and_tail() {
    let text: String = (1..=40).map(|i| format!("line {i}")).collect::<Vec<_>>().join("\n");
    let c = collapse(&text);
    assert!(c.starts_with("line 1\n"));
    assert!(c.ends_with("line 40"));
    assert!(c.contains("[... 20 lines ...]"));
    assert_eq!(collapse("short"), "short");
}

#[test]
fn oversized_unicode_evidence_is_bounded_and_has_no_open_fence() {
    let text = format!(
        "```\n{}\n```\n{}",
        "界\n".repeat(REPORT_CAP),
        "verifier".repeat(REPORT_CAP)
    );
    let report = bounded_excerpt(&text, REPORT_CAP);
    assert!(report.len() <= REPORT_CAP);
    assert!(report.contains("report.full.md"));
    assert!(!report.lines().any(|line| line.starts_with("```")));
    assert!(report.contains("verifier"));
}

#[test]
fn embedded_backticks_cannot_close_evidence_fence() {
    let rendered = fenced("```\nmodel output\n```");
    assert!(rendered.starts_with("````\n"));
    assert!(rendered.ends_with("\n````\n\n"));
}

#[test]
fn twenty_lines_are_kept_and_twenty_one_are_not() {
    let lines = |n: usize| (1..=n).map(|i| format!("{i}")).collect::<Vec<_>>().join("\n");
    assert_eq!(collapse(&lines(20)), lines(20));
    assert_eq!(
        collapse(&lines(21)),
        "1\n2\n3\n4\n5\n6\n7\n8\n9\n10\n[... 1 lines ...]\n12\n13\n14\n15\n16\n17\n18\n19\n20\n21"
    );
}

#[test]
fn a_fence_is_at_least_three_long() {
    assert_eq!(fenced("x"), "```\nx\n```\n\n");
    assert_eq!(fenced("a``b"), "```\na``b\n```\n\n");
    assert_eq!(fenced(""), "```\n\n```\n\n");
    assert_eq!(fenced("`````"), "``````\n`````\n``````\n\n");
}

#[test]
fn excerpts_keep_whole_characters_within_their_budget() {
    assert_eq!(indented_prefix("ab\ncd\n", 100), "    ab\n    cd\n");
    assert_eq!(indented_prefix("abcdef", 8), "    abc\n");
    assert_eq!(indented_prefix("界界", 8), "    界\n");
    assert_eq!(indented_prefix("ab", 5), "");
    assert_eq!(indented_suffix("ab\ncd", 100), "    ab\n    cd\n");
    assert_eq!(indented_suffix("abcdef", 8), "    def\n");
    assert_eq!(indented_suffix("界界", 9), "    界\n");
    assert_eq!(indented_suffix("ab", 5), "");
}

#[test]
fn transcripts_show_every_event_in_order() {
    let events = vec![
        Some(Event { text: "do it".to_owned(), ..event("user") }),
        Some(Event { name: "bash".to_owned(), args: "{}".to_owned(), ..event("tool_call") }),
        Some(Event {
            name: "bash".to_owned(),
            output: "out".to_owned(),
            ok: true,
            ..event("tool_result")
        }),
        Some(Event { name: "bash".to_owned(), output: "bad".to_owned(), ..event("tool_result") }),
        None,
        Some(Event { text: "done".to_owned(), ..event("assistant") }),
        Some(event("usage")),
        Some(event("failed")),
        Some(Event { answer: "yes".to_owned(), ..event("settled") }),
    ];
    assert_eq!(
        render_transcript(&events),
        "> do it\n\n[tool] bash {}\n[result] bash\nout\n\n[error] bash\nbad\n\ndone\n\n[usage]\n[failed]\n[settled] yes\n"
    );
}

fn headline() -> Headline {
    Headline {
        generation: 2,
        score: "0.500".to_owned(),
        ci_low: "0.100".to_owned(),
        ci_high: "0.900".to_owned(),
        pass1: "0.400".to_owned(),
        passk: "0.600".to_owned(),
        trials: 4,
        tasks: 2,
        best_score: "-1.000".to_owned(),
        best_low: "-1.000".to_owned(),
    }
}

#[test]
fn a_report_holds_the_scores_the_digest_and_the_failures() {
    let rows = [TaskRow {
        task: "a".to_owned(),
        attempts: vec!["1.0".to_owned(), "0.0".to_owned()],
    }];
    let failures = [Failure {
        task: "a".to_owned(),
        attempt: 2,
        error: Some("no container".to_owned()),
        instruction: Some("fix".to_owned()),
        transcript_path: "/job/a__2/agent/transcript.jsonl".to_owned(),
        transcript: Vec::new(),
        verifier: None,
    }];
    assert_eq!(
        compose(&headline(), &rows, "## Digest\n", &failures),
        "# Generation 2\n\nScore 0.500 (95% CI 0.100–0.900), pass@1 0.400, pass@k 0.600 over 4 trial(s) of 2 task(s). Best kept so far: -1.000 (lower bound -1.000).\n\n\
         | task | attempts |\n|---|---|\n| a | 1.0 0.0 |\n\n## Digest\n\
         ## Failed: a (attempt 2)\n\nHarness error: no container\n\n### Instruction\n\n```\nfix\n```\n\n\
         ### Agent transcript (long results collapsed; JSON at /job/a__2/agent/transcript.jsonl)\n\n```\n\n```\n\n\
         ### Verifier output\n\n```\n(missing)\n```\n\n"
    );
}

#[test]
fn a_large_report_is_kept_whole_beside_its_excerpt() {
    let verifier = format!("{}END-OF-VERIFIER", "界\nx\n".repeat(REPORT_CAP));
    let failures = [Failure {
        task: "case".to_owned(),
        attempt: 1,
        error: None,
        instruction: Some("repair the task".to_owned()),
        transcript_path: "t".to_owned(),
        transcript: Vec::new(),
        verifier: Some(verifier.clone()),
    }];
    let published = publish(compose(&headline(), &[], "", &failures));
    assert!(published.report.len() <= REPORT_CAP);
    assert!(published.report.contains("report.full.md"));
    assert!(published.report.contains("END-OF-VERIFIER"));
    assert!(published.full.unwrap().contains(&verifier));
    let small = publish("small".to_owned());
    assert_eq!(small.report, "small");
    assert!(small.full.is_none());
}
