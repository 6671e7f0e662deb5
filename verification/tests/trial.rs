//! One trial: names, quoting, rewards, usage, restoration and its record.

use rigcoder_bench::double::Double;
use rigcoder_bench::trial::{
    add_usage, branch_container, branch_name, checkpoint_files, conclude, container_name, image_id,
    last_lines, parse_reward, read_agent_output, read_job, shell_quote, tally, trial_dir,
    workspace_restore_script, RewardError, TrialRecord, UsageLine, REMOTE_BIN, RESERVED,
};

fn double(x: f64) -> Double {
    Double { bits: x.to_bits() }
}

fn number(d: Double) -> f64 {
    f64::from_bits(d.bits)
}

fn reward(text: &str) -> Result<f64, RewardError> {
    parse_reward(text.trim().parse::<f64>().ok().map(double)).map(number)
}

#[test]
fn restoration_refuses_system_roots_and_traversal() {
    for path in ["/", "/app/../", "/usr", "/logs", "/restore", "/tests", "app", "/var"] {
        assert!(workspace_restore_script(path).is_err(), "{path}");
    }
    assert!(workspace_restore_script("/app").is_ok());
}

#[test]
fn workspace_shell_arguments_are_quoted() {
    assert_eq!(shell_quote("/app/a b'c"), "'/app/a b'\"'\"'c'");
}

#[test]
fn usage_parsing_preserves_zero_but_not_missing_or_corrupt_measurements() {
    let zero = r#"{"kind":"usage","input_tokens":0,"output_tokens":0,"cached_input_tokens":0}"#;
    let partial = r#"{"kind":"usage","input_tokens":3,"output_tokens":2}"#;
    for (text, expected) in [
        (zero.to_owned(), (Some(0), Some(0), Some(0))),
        (format!("{partial}\n{zero}"), (Some(3), Some(2), None)),
        (format!("broken\n{zero}"), (None, None, None)),
        (format!("{zero}\nbroken"), (None, None, None)),
        (r#"{"kind":"settled"}"#.to_owned(), (None, None, None)),
    ] {
        let record = read_agent_output(Some(&text), "task", 1);
        assert_eq!(
            (record.input_tokens, record.output_tokens, record.cache_tokens),
            expected,
            "{text}"
        );
    }
}

#[test]
fn rewards_are_finite_probabilities() {
    for text in ["NaN", "inf", "-inf", "1.1", "-0.1", "invalid"] {
        assert!(reward(text).is_err(), "accepted {text}");
    }
    assert_eq!(reward(" 0.5\n").unwrap(), 0.5);
    assert_eq!(reward("0").unwrap(), 0.0);
    assert_eq!(reward("1").unwrap(), 1.0);
}

#[test]
fn refused_rewards_say_why() {
    assert_eq!(reward("invalid"), Err(RewardError::NotANumber));
    assert_eq!(reward("NaN"), Err(RewardError::OutOfRange));
    assert_eq!(reward("1.0000000000000002"), Err(RewardError::OutOfRange));
    assert_eq!(reward("-0").unwrap(), 0.0);
}

#[test]
fn quoted_words_hold_nothing_that_a_shell_reads() {
    assert_eq!(shell_quote("/app/a b'c;$(touch nope)"), "'/app/a b'\"'\"'c;$(touch nope)'");
    assert_eq!(shell_quote(""), "''");
}

#[test]
fn a_transcript_counts_calls_and_the_ending() {
    let text = "{\"kind\":\"tool_call\"}\n{\"kind\":\"tool_call\"}\n{\"kind\":\"settled\"}\n{\"kind\":7}\n";
    let record = read_agent_output(Some(text), "a", 2);
    assert_eq!((record.tool_calls, record.settled), (2, true));
    assert_eq!((record.task.as_str(), record.attempt), ("a", 2));
    assert_eq!(number(record.reward), 0.0);
    let missing = read_agent_output(None, "a", 2);
    assert_eq!((missing.tool_calls, missing.settled), (0, false));
    assert_eq!(missing.input_tokens, None);
}

#[test]
fn sums_that_do_not_fit_are_unknown() {
    assert_eq!(add_usage(Some(1), Some(2)), Some(3));
    assert_eq!(add_usage(Some(u64::MAX), Some(1)), None);
    assert_eq!(add_usage(None, Some(1)), None);
    assert_eq!(add_usage(Some(1), None), None);
    let line = |input: Option<u64>| {
        Some(UsageLine {
            kind: Some("usage".to_owned()),
            input_tokens: input,
            output_tokens: Some(1),
            cached_input_tokens: Some(1),
        })
    };
    let found = tally(&[line(Some(4)), line(Some(5))]);
    assert_eq!((found.input, found.output, found.saw_usage), (Some(9), Some(2), true));
    assert_eq!(tally(&[line(Some(4)), None]).output, None);
}

#[test]
fn places_and_containers_are_named() {
    assert_eq!(trial_dir("/jobs/j", "fix", 3), "/jobs/j/fix__3");
    assert_eq!(trial_dir("/jobs/j/", "fix", 3), "/jobs/j/fix__3");
    assert_eq!(container_name("fix", 3, 77), "rigcoder-fix-3-77");
    assert_eq!(branch_name("fix", 4, 1), "fix__branch4-1");
    assert_eq!(branch_container("fix", 4, 1, 77), "rigcoder-branch-fix-4-1-77");
    assert_eq!(
        checkpoint_files(7),
        ("turn-007.scene.json".to_owned(), "turn-007.tar".to_owned())
    );
    assert_eq!(REMOTE_BIN, "/usr/local/bin/rigcoder");
}

#[test]
fn image_identities_are_full_digests() {
    let good = "sha256:0123456789abcdef0123456789abcdef0123456789ABCDEF0123456789abcdef";
    assert_eq!(image_id(&format!("{good}\n")).as_deref(), Some(good));
    for bad in ["latest", "", "sha256:0123", &good[..good.len() - 1], &format!("{good}0")] {
        assert_eq!(image_id(bad), None, "{bad}");
    }
    assert_eq!(image_id(&good.replace('0', "g")), None);
}

#[test]
fn only_the_last_lines_are_shown() {
    assert_eq!(last_lines("a\nb\nc\n", 2), "b\nc");
    assert_eq!(last_lines("a\r\nb", 5), "a\nb");
    assert_eq!(last_lines("a", 0), "");
}

#[test]
fn every_reserved_place_is_refused_by_name() {
    for place in RESERVED {
        let refused = workspace_restore_script(&format!("/{place}/x")).unwrap_err();
        assert_eq!(refused, format!("cannot restore a checkpoint over /{place}"));
    }
    assert!(workspace_restore_script("/usrlocal").is_ok());
    assert!(workspace_restore_script("/var/app").is_ok());
    for var in ["/var", "/var/", "//var", "/./var", "/var/."] {
        assert_eq!(
            workspace_restore_script(var),
            Err("cannot restore a checkpoint over /var".to_owned()),
            "{var}"
        );
    }
    assert_eq!(
        workspace_restore_script("/app").unwrap(),
        "set -eu; w='/app'; [ \"$(cd -- \"$w\" && pwd -P)\" = \"$w\" ]; find \"$w\" -mindepth 1 -delete; tar -xf /restore/workspace.tar -C \"$w\""
    );
    assert!(workspace_restore_script("/app//").unwrap().contains("w='/app';"));
}

fn record(task: &str, attempt: usize) -> TrialRecord {
    TrialRecord {
        task: task.to_owned(),
        attempt,
        reward: double(0.5),
        input_tokens: None,
        output_tokens: None,
        cache_tokens: None,
        tool_calls: 0,
        wall_seconds: double(0.0),
        settled: false,
        error: None,
    }
}

#[test]
fn a_failed_trial_has_no_reward() {
    let good = conclude(record("a", 1), double(3.0), Ok(double(1.0)));
    assert_eq!((number(good.reward), number(good.wall_seconds)), (1.0, 3.0));
    assert_eq!(good.error, None);
    let bad = conclude(record("a", 1), double(3.0), Err("broke".to_owned()));
    assert_eq!(number(bad.reward), 0.0);
    assert_eq!(bad.error.as_deref(), Some("broke"));
}

#[test]
fn jobs_are_read_in_order_of_task_and_attempt() {
    let sorted = read_job(vec![record("b", 1), record("a", 10), record("a", 2)]);
    let order: Vec<(&str, usize)> =
        sorted.iter().map(|r| (r.task.as_str(), r.attempt)).collect();
    assert_eq!(order, [("a", 2), ("a", 10), ("b", 1)]);
}
