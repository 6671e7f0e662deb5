//! The keep rule and the counted half of a summary.

use rigcoder_bench::double::Double;
use rigcoder_bench::stats::{count, keep_decision, summarize, Counts, Decision, Means};
use rigcoder_bench::trial::TrialRecord;

fn double(x: f64) -> Double {
    Double { bits: x.to_bits() }
}

fn number(d: Double) -> f64 {
    f64::from_bits(d.bits)
}

fn wilson(passed: usize, n: usize) -> (f64, f64) {
    if n == 0 {
        return (0.0, 0.0);
    }
    let z: f64 = 1.96;
    let n = n as f64;
    let p = passed as f64 / n;
    let denom = 1.0 + z * z / n;
    let centre = (p + z * z / (2.0 * n)) / denom;
    let half = z * (p * (1.0 - p) / n + z * z / (4.0 * n * n)).sqrt() / denom;
    ((centre - half).max(0.0), (centre + half).min(1.0))
}

fn decide(score: f64, low: f64, best: f64, best_low: f64) -> Decision {
    keep_decision(double(score), double(low), double(best), double(best_low))
}

fn trials(spec: &[(&str, &[f64])]) -> Vec<TrialRecord> {
    let mut out = Vec::new();
    for (task, rewards) in spec {
        for (i, r) in rewards.iter().enumerate() {
            out.push(TrialRecord {
                task: (*task).to_owned(),
                attempt: i + 1,
                reward: double(*r),
                input_tokens: Some(10),
                output_tokens: Some(5),
                cache_tokens: Some(0),
                tool_calls: 3,
                wall_seconds: double(1.0),
                settled: true,
                error: None,
            });
        }
    }
    out
}

fn means(counts: &Counts, records: &[TrialRecord]) -> Means {
    let n = counts.trials as f64;
    let tasks = counts.tasks.len() as f64;
    let (low, high) = wilson(counts.passed, counts.trials);
    Means {
        score: double(records.iter().map(|t| number(t.reward)).sum::<f64>() / n),
        pass1: double(
            counts
                .tasks
                .iter()
                .map(|t| t.passes as f64 / t.rewards.len() as f64)
                .sum::<f64>()
                / tasks,
        ),
        passk: double(counts.solved as f64 / tasks),
        ci_low: double(low),
        ci_high: double(high),
        wall_seconds: double(records.iter().map(|t| number(t.wall_seconds)).sum::<f64>()),
    }
}

#[test]
fn same_score_twice_is_a_tie_and_kept() {
    let (low, _) = wilson(36, 60);
    assert_eq!(decide(0.6, low, 0.6, low), Decision::Tie);
}

#[test]
fn gain_inside_the_noise_follows_the_lower_bound() {
    let (low55, _) = wilson(33, 60);
    let (low60, _) = wilson(36, 60);
    assert_eq!(decide(0.60, low60, 0.55, low55), Decision::Kept);
    assert_eq!(decide(0.55, low55, 0.60, low60), Decision::Reverted);
}

#[test]
fn clear_gain_is_kept() {
    let (low55, _) = wilson(33, 60);
    let (low70, _) = wilson(42, 60);
    assert_eq!(decide(0.70, low70, 0.55, low55), Decision::Kept);
}

#[test]
fn higher_point_on_fewer_trials_is_reverted() {
    let (low, _) = wilson(3, 3);
    let (best_low, _) = wilson(50, 60);
    assert_eq!(decide(1.0, low, 50.0 / 60.0, best_low), Decision::Reverted);
}

#[test]
fn summary_metrics() {
    let records = trials(&[
        ("a", &[1.0, 1.0, 0.0]),
        ("b", &[0.0, 0.0, 0.0]),
        ("c", &[1.0, 0.0, 1.0]),
    ]);
    let counts = count(&records);
    let s = summarize(&counts, means(&counts, &records));
    assert_eq!(s.trials, 9);
    assert_eq!(s.tasks, 3);
    assert!((number(s.score) - 4.0 / 9.0).abs() < 1e-9);
    assert!((number(s.pass1) - (2.0 / 3.0 + 0.0 + 2.0 / 3.0) / 3.0).abs() < 1e-9);
    assert!((number(s.passk) - 2.0 / 3.0).abs() < 1e-9);
    assert_eq!(s.cost.tool_calls, 27);
    assert_eq!(s.cost.input_tokens, Some(90));
    assert_eq!(s.rewards[0].0, "a");
    assert_eq!(s.rewards[2].1.iter().map(|r| number(*r)).collect::<Vec<_>>(), [1.0, 0.0, 1.0]);
}

#[test]
fn decisions_compare_as_numbers_do() {
    assert_eq!(decide(0.0, 0.0, -1.0, -1.0), Decision::Kept);
    assert_eq!(decide(-0.0, 0.0, 0.0, -0.0), Decision::Tie);
    assert_eq!(decide(f64::NAN, 0.5, 0.5, 0.5), Decision::Kept);
    assert_eq!(decide(0.4, 0.9, 0.5, 0.5), Decision::Reverted);
    assert_eq!(decide(0.9, 0.4, 0.5, 0.5), Decision::Reverted);
    assert_eq!(decide(0.5, 0.6, 0.5, 0.5), Decision::Kept);
}

#[test]
fn one_unknown_figure_makes_its_total_unknown() {
    let mut records = trials(&[("a", &[1.0, 0.0])]);
    records[1].cache_tokens = None;
    let counts = count(&records);
    assert_eq!(counts.input_tokens, Some(20));
    assert_eq!(counts.cache_tokens, None);
    records[0].input_tokens = Some(u64::MAX);
    assert_eq!(count(&records).input_tokens, None);
    assert_eq!(count(&[]).input_tokens, Some(0));
    assert_eq!(count(&[]).trials, 0);
}

#[test]
fn attempts_stay_in_order_and_tasks_are_sorted() {
    let counts = count(&trials(&[("b", &[0.5, 1.0]), ("a", &[0.0])]));
    assert_eq!(counts.tasks[0].task, "a");
    assert_eq!(counts.tasks[1].task, "b");
    assert_eq!(counts.tasks[1].passes, 1);
    assert_eq!(
        counts.tasks[1].rewards.iter().map(|r| number(*r)).collect::<Vec<_>>(),
        [0.5, 1.0]
    );
    assert_eq!((counts.passed, counts.solved), (1, 1));
}
