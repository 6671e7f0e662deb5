//! The score and the keep rule.

use vstd::prelude::*;
use crate::double;
use crate::double::Double;
use crate::order;
use crate::table;
use crate::table::Table;
use crate::text;
use crate::trial::TrialRecord;

verus! {

// ---------------------------------------------------------------------------
// The keep rule

/// What becomes of a candidate.
#[derive(Clone, Copy, Debug, PartialEq, Eq, Structural)]
pub enum Decision {
    Kept,
    Tie,
    Reverted,
}

/// What becomes of a candidate, by its score and lower bound and the best so
/// far.
pub open spec fn decided(
    score: Double,
    ci_low: Double,
    best_score: Double,
    best_low: Double,
) -> Decision {
    if ci_low.below(best_low) || score.below(best_score) {
        Decision::Reverted
    } else if ci_low.equals(best_low) && score.equals(best_score) {
        Decision::Tie
    } else {
        Decision::Kept
    }
}

/// Kept when the lower bound is at least the best kept lower bound and the
/// point estimate has not dropped. A tie keeps: an edit that costs nothing
/// is not punished, and the ledger says it was a tie.
pub fn keep_decision(
    score: Double,
    ci_low: Double,
    best_score: Double,
    best_low: Double,
) -> (out: Decision)
    ensures
        out == decided(score, ci_low, best_score, best_low),
{
    if ci_low.is_below(best_low) || score.is_below(best_score) {
        Decision::Reverted
    } else if ci_low.is_equal(best_low) && score.is_equal(best_score) {
        Decision::Tie
    } else {
        Decision::Kept
    }
}

/// Of numbers, a candidate is kept exactly when neither its lower bound nor its
/// score is below the best, and it is a tie exactly when both are the same.
pub proof fn keeping_never_lowers_the_best(
    score: Double,
    ci_low: Double,
    best_score: Double,
    best_low: Double,
)
    requires
        !score.is_nan(),
        !ci_low.is_nan(),
        !best_score.is_nan(),
        !best_low.is_nan(),
    ensures
        decided(score, ci_low, best_score, best_low) != Decision::Reverted <==> ci_low.reaches(
            best_low,
        ) && score.reaches(best_score),
        decided(score, ci_low, best_score, best_low) == Decision::Tie <==> ci_low.equals(best_low)
            && score.equals(best_score),
{
}

/// The same score and bound again are a tie.
pub proof fn the_same_again_is_a_tie(score: Double, ci_low: Double)
    requires
        !score.is_nan(),
        !ci_low.is_nan(),
    ensures
        decided(score, ci_low, score, ci_low) == Decision::Tie,
{
}

// ---------------------------------------------------------------------------
// What an evaluation comes to

/// What an evaluation used. Tokens are unknown where any trial's are, or where
/// their sum outgrows its type.
#[derive(Clone, Copy, Debug, PartialEq, Eq, Structural)]
pub struct Cost {
    pub input_tokens: Option<u64>,
    pub output_tokens: Option<u64>,
    pub cache_tokens: Option<u64>,
    pub tool_calls: u64,
    pub wall_seconds: Double,
}

/// The attempts of one task, in order, and how many of them passed.
#[derive(Debug)]
pub struct TaskAttempts {
    pub task: String,
    pub rewards: Vec<Double>,
    pub passes: usize,
}

/// The counts of an evaluation, from which its means are taken.
#[derive(Debug)]
pub struct Counts {
    pub trials: usize,
    /// Trials with a full reward.
    pub passed: usize,
    /// Every task by name.
    pub tasks: Vec<TaskAttempts>,
    /// Tasks with at least one passing attempt.
    pub solved: usize,
    pub input_tokens: Option<u64>,
    pub output_tokens: Option<u64>,
    pub cache_tokens: Option<u64>,
    pub tool_calls: u64,
}

/// The means over an evaluation's counts, and its interval.
#[derive(Clone, Copy, Debug, PartialEq, Eq, Structural)]
pub struct Means {
    pub score: Double,
    pub pass1: Double,
    pub passk: Double,
    pub ci_low: Double,
    pub ci_high: Double,
    pub wall_seconds: Double,
}

/// What an evaluation comes to.
#[derive(Debug)]
pub struct Summary {
    /// Mean reward over every trial.
    pub score: Double,
    /// Mean over tasks of the fraction of attempts that passed.
    pub pass1: Double,
    /// Fraction of tasks with at least one passing attempt.
    pub passk: Double,
    pub ci_low: Double,
    pub ci_high: Double,
    pub trials: usize,
    pub tasks: usize,
    /// Per task, the reward of each attempt in order.
    pub rewards: Vec<(String, Vec<Double>)>,
    pub cost: Cost,
}

/// Whether a reward is a full one.
pub open spec fn passes(reward: Double) -> bool {
    reward.reaches(double::one())
}

/// How many of the rewards are full ones.
pub open spec fn passing(rewards: Seq<Double>) -> nat
    decreases rewards.len(),
{
    if rewards.len() == 0 {
        0
    } else {
        passing(rewards.drop_last()) + if passes(rewards.last()) {
            1nat
        } else {
            0nat
        }
    }
}

/// The rewards of every trial, in order.
pub open spec fn all_rewards(trials: Seq<TrialRecord>) -> Seq<Double> {
    Seq::new(trials.len(), |i: int| trials[i].reward)
}

/// The rewards of one task's trials, in order.
pub open spec fn rewards_of(trials: Seq<TrialRecord>, task: Seq<char>) -> Seq<Double>
    decreases trials.len(),
{
    if trials.len() == 0 {
        Seq::empty()
    } else {
        let before = rewards_of(trials.drop_last(), task);
        if trials.last().task@ == task {
            before.push(trials.last().reward)
        } else {
            before
        }
    }
}

/// Whether one of the trials is of the task.
pub open spec fn attempted(trials: Seq<TrialRecord>, task: Seq<char>) -> bool {
    exists|i: int| #![trigger trials[i]] 0 <= i < trials.len() && trials[i].task@ == task
}

/// The tasks of the trials, each once and in order, with its rewards.
pub open spec fn groups(tasks: Seq<TaskAttempts>, trials: Seq<TrialRecord>) -> bool {
    &&& forall|i: int, j: int|
        0 <= i < j < tasks.len() ==> order::before(
            #[trigger] tasks[i].task@,
            #[trigger] tasks[j].task@,
        )
    &&& forall|task: Seq<char>| #[trigger]
        attempted(trials, task) <==> exists|i: int|
            0 <= i < tasks.len() && #[trigger] tasks[i].task@ == task
    &&& forall|i: int|
        0 <= i < tasks.len() ==> {
            &&& (#[trigger] tasks[i]).rewards@ == rewards_of(trials, tasks[i].task@)
            &&& tasks[i].passes == passing(tasks[i].rewards@)
        }
}

/// How many of the tasks have a passing attempt.
pub open spec fn solved_in(tasks: Seq<TaskAttempts>) -> nat
    decreases tasks.len(),
{
    if tasks.len() == 0 {
        0
    } else {
        solved_in(tasks.drop_last()) + if tasks.last().passes > 0 {
            1nat
        } else {
            0nat
        }
    }
}

/// A sum of figures: unknown where one is, or where the sum outgrows its type.
pub open spec fn figure_total(figures: Seq<Option<u64>>) -> Option<u64>
    decreases figures.len(),
{
    if figures.len() == 0 {
        Some(0)
    } else {
        crate::trial::with_usage(figure_total(figures.drop_last()), figures.last())
    }
}

/// A known total is the exact sum, and is known exactly when every figure is
/// and the sum fits.
pub proof fn known_totals_are_exact(figures: Seq<Option<u64>>)
    ensures
        figure_total(figures) matches Some(n) ==> n == known_sum(figures),
        figure_total(figures) is Some <==> known_sum(figures) <= u64::MAX && forall|i: int|
            0 <= i < figures.len() ==> (#[trigger] figures[i]) is Some,
    decreases figures.len(),
{
    if figures.len() > 0 {
        let init = figures.drop_last();
        known_totals_are_exact(init);
        assert(figures.last() == figures[figures.len() - 1]);
        if forall|i: int| 0 <= i < figures.len() ==> (#[trigger] figures[i]) is Some {
            assert forall|i: int| 0 <= i < init.len() implies (#[trigger] init[i]) is Some by {
                assert(init[i] == figures[i]);
            }
        }
        if figure_total(figures) is Some {
            assert forall|i: int| 0 <= i < figures.len() implies (#[trigger] figures[i]) is Some by {
                if i < init.len() {
                    assert(init[i] == figures[i]);
                }
            }
        }
    }
}

/// The sum of the figures that are known.
pub open spec fn known_sum(figures: Seq<Option<u64>>) -> nat
    decreases figures.len(),
{
    if figures.len() == 0 {
        0
    } else {
        known_sum(figures.drop_last()) + match figures.last() {
            Some(n) => n as nat,
            None => 0,
        }
    }
}

/// A figure of each trial.
pub open spec fn inputs(trials: Seq<TrialRecord>) -> Seq<Option<u64>> {
    Seq::new(trials.len(), |i: int| trials[i].input_tokens)
}

pub open spec fn outputs(trials: Seq<TrialRecord>) -> Seq<Option<u64>> {
    Seq::new(trials.len(), |i: int| trials[i].output_tokens)
}

pub open spec fn caches(trials: Seq<TrialRecord>) -> Seq<Option<u64>> {
    Seq::new(trials.len(), |i: int| trials[i].cache_tokens)
}

/// The tool calls of every trial together.
pub open spec fn calls(trials: Seq<TrialRecord>) -> nat
    decreases trials.len(),
{
    if trials.len() == 0 {
        0
    } else {
        calls(trials.drop_last()) + trials.last().tool_calls as nat
    }
}

proof fn lemma_calls_grow(trials: Seq<TrialRecord>, i: int)
    requires
        0 <= i <= trials.len(),
    ensures
        calls(trials.take(i)) <= calls(trials),
    decreases trials.len(),
{
    if i == trials.len() {
        assert(trials.take(i) =~= trials);
    } else {
        assert(trials.drop_last().take(i) =~= trials.take(i));
        lemma_calls_grow(trials.drop_last(), i);
    }
}

/// The counts of an evaluation.
pub open spec fn counted(out: Counts, trials: Seq<TrialRecord>) -> bool {
    &&& out.trials == trials.len()
    &&& out.passed == passing(all_rewards(trials))
    &&& groups(out.tasks@, trials)
    &&& out.solved == solved_in(out.tasks@)
    &&& out.input_tokens == figure_total(inputs(trials))
    &&& out.output_tokens == figure_total(outputs(trials))
    &&& out.cache_tokens == figure_total(caches(trials))
    &&& out.tool_calls == calls(trials)
}

/// The tasks of the trials, each once and in order.
fn task_names(trials: &[TrialRecord]) -> (out: Table<bool>)
    ensures
        out.valid(),
        forall|task: Seq<char>| #[trigger]
            out.map().contains_key(task) <==> attempted(trials@, task),
{
    let n: usize = trials.len();
    let mut out: Table<bool> = Table::new();
    for i in 0..n
        invariant
            n == trials@.len(),
            out.valid(),
            forall|task: Seq<char>| #[trigger]
                out.map().contains_key(task) <==> attempted(trials@.take(i as int), task),
    {
        let ghost before = out.map();
        out.set(trials[i].task.as_str(), true);
        assert forall|task: Seq<char>| #[trigger]
            out.map().contains_key(task) <==> attempted(trials@.take(i + 1), task) by {
            let old_part = trials@.take(i as int);
            let new_part = trials@.take(i + 1);
            assert(before.contains_key(task) <==> attempted(old_part, task));
            if attempted(old_part, task) {
                let k = choose|k: int|
                    #![trigger old_part[k]]
                    0 <= k < old_part.len() && old_part[k].task@ == task;
                assert(new_part[k].task@ == task);
            }
            if attempted(new_part, task) {
                let k = choose|k: int|
                    #![trigger new_part[k]]
                    0 <= k < new_part.len() && new_part[k].task@ == task;
                if k < i {
                    assert(old_part[k].task@ == task);
                }
            }
            assert(new_part[i as int].task@ == trials@[i as int].task@);
        }
    }
    assert(trials@.take(n as int) =~= trials@);
    out
}

fn attempts_of(trials: &[TrialRecord], task: &str) -> (out: TaskAttempts)
    ensures
        out.task@ == task@,
        out.rewards@ == rewards_of(trials@, task@),
        out.passes == passing(out.rewards@),
{
    let one: Double = Double { bits: double::ONE_BITS };
    let n: usize = trials.len();
    let mut rewards: Vec<Double> = Vec::new();
    let mut passed: usize = 0;
    for i in 0..n
        invariant
            n == trials@.len(),
            one == double::one(),
            rewards@ == rewards_of(trials@.take(i as int), task@),
            passed == passing(rewards@),
            passed <= i,
    {
        assert(trials@.take(i + 1).drop_last() =~= trials@.take(i as int));
        if text::same(trials[i].task.as_str(), task) {
            let ghost before = rewards@;
            rewards.push(trials[i].reward);
            assert(rewards@.drop_last() =~= before);
            if trials[i].reward.is_at_least(one) {
                passed += 1;
            }
        }
    }
    assert(trials@.take(n as int) =~= trials@);
    TaskAttempts { task: task.to_owned(), rewards, passes: passed }
}

/// The counts of an evaluation.
pub fn count(trials: &[TrialRecord]) -> (out: Counts)
    requires
        calls(trials@) <= u64::MAX,
    ensures
        counted(out, trials@),
{
    let one: Double = Double { bits: double::ONE_BITS };
    let n: usize = trials.len();
    let mut passed: usize = 0;
    let mut input: Option<u64> = Some(0);
    let mut output: Option<u64> = Some(0);
    let mut cache: Option<u64> = Some(0);
    let mut called: u64 = 0;
    let ghost rewards = all_rewards(trials@);
    for i in 0..n
        invariant
            n == trials@.len(),
            one == double::one(),
            rewards == all_rewards(trials@),
            passed <= i,
            passed == passing(rewards.take(i as int)),
            input == figure_total(inputs(trials@).take(i as int)),
            output == figure_total(outputs(trials@).take(i as int)),
            cache == figure_total(caches(trials@).take(i as int)),
            calls(trials@) <= u64::MAX,
            called == calls(trials@.take(i as int)),
    {
        assert(rewards.take(i + 1).drop_last() =~= rewards.take(i as int));
        assert(inputs(trials@).take(i + 1).drop_last() =~= inputs(trials@).take(i as int));
        assert(outputs(trials@).take(i + 1).drop_last() =~= outputs(trials@).take(i as int));
        assert(caches(trials@).take(i + 1).drop_last() =~= caches(trials@).take(i as int));
        proof {
            assert(trials@.take(i + 1).drop_last() =~= trials@.take(i as int));
            lemma_calls_grow(trials@, i + 1);
        }
        if trials[i].reward.is_at_least(one) {
            passed += 1;
        }
        input = crate::trial::add_usage(input, trials[i].input_tokens);
        output = crate::trial::add_usage(output, trials[i].output_tokens);
        cache = crate::trial::add_usage(cache, trials[i].cache_tokens);
        called = called + trials[i].tool_calls;
    }
    assert(rewards.take(n as int) =~= rewards);
    assert(inputs(trials@).take(n as int) =~= inputs(trials@));
    assert(outputs(trials@).take(n as int) =~= outputs(trials@));
    assert(caches(trials@).take(n as int) =~= caches(trials@));
    assert(trials@.take(n as int) =~= trials@);
    let names: Table<bool> = task_names(trials);
    let ghost list = names.list();
    let m: usize = names.entries.len();
    let mut tasks: Vec<TaskAttempts> = Vec::new();
    let mut solved: usize = 0;
    for i in 0..m
        invariant
            m == names.entries@.len(),
            list == names.list(),
            names.valid(),
            tasks@.len() == i,
            solved <= i,
            solved == solved_in(tasks@),
            forall|j: int|
                0 <= j < i ==> {
                    &&& (#[trigger] tasks@[j]).task@ == list[j].0
                    &&& tasks@[j].rewards@ == rewards_of(trials@, tasks@[j].task@)
                    &&& tasks@[j].passes == passing(tasks@[j].rewards@)
                },
    {
        let ghost before = tasks@;
        let next: TaskAttempts = attempts_of(trials, names.entries[i].0.as_str());
        assert(list[i as int].0 == names.entries@[i as int].0@);
        if next.passes > 0 {
            solved += 1;
        }
        tasks.push(next);
        assert(tasks@.drop_last() =~= before);
    }
    proof {
        assert forall|i: int, j: int| 0 <= i < j < tasks@.len() implies order::before(
            #[trigger] tasks@[i].task@,
            #[trigger] tasks@[j].task@,
        ) by {
            assert(order::before(list[i].0, list[j].0));
        }
        assert forall|task: Seq<char>| #[trigger]
            attempted(trials@, task) <==> exists|i: int|
                0 <= i < tasks@.len() && #[trigger] tasks@[i].task@ == task by {
            table::lemma_contents_domain(list, task);
            assert(names.map().contains_key(task) <==> attempted(trials@, task));
            if attempted(trials@, task) {
                let i = choose|i: int| table::stands_at(list, task, i);
                assert(tasks@[i].task@ == task);
            }
            if exists|i: int| 0 <= i < tasks@.len() && #[trigger] tasks@[i].task@ == task {
                let i = choose|i: int| 0 <= i < tasks@.len() && #[trigger] tasks@[i].task@ == task;
                assert(table::stands_at(list, task, i));
            }
        }
    }
    Counts {
        trials: n,
        passed,
        tasks,
        solved,
        input_tokens: input,
        output_tokens: output,
        cache_tokens: cache,
        tool_calls: called,
    }
}

/// What an evaluation comes to, from its counts and the means over them.
pub fn summarize(counts: &Counts, means: Means) -> (out: Summary)
    ensures
        out.score == means.score,
        out.pass1 == means.pass1,
        out.passk == means.passk,
        out.ci_low == means.ci_low,
        out.ci_high == means.ci_high,
        out.trials == counts.trials,
        out.tasks == counts.tasks@.len(),
        out.rewards@.len() == counts.tasks@.len(),
        forall|i: int|
            0 <= i < counts.tasks@.len() ==> (#[trigger] out.rewards@[i]).0@
                == counts.tasks@[i].task@ && out.rewards@[i].1@ == counts.tasks@[i].rewards@,
        out.cost == (Cost {
            input_tokens: counts.input_tokens,
            output_tokens: counts.output_tokens,
            cache_tokens: counts.cache_tokens,
            tool_calls: counts.tool_calls,
            wall_seconds: means.wall_seconds,
        }),
{
    let n: usize = counts.tasks.len();
    let mut rewards: Vec<(String, Vec<Double>)> = Vec::new();
    for i in 0..n
        invariant
            n == counts.tasks@.len(),
            rewards@.len() == i,
            forall|j: int|
                0 <= j < i ==> (#[trigger] rewards@[j]).0@ == counts.tasks@[j].task@
                    && rewards@[j].1@ == counts.tasks@[j].rewards@,
    {
        let m: usize = counts.tasks[i].rewards.len();
        let mut copy: Vec<Double> = Vec::new();
        for k in 0..m
            invariant
                n == counts.tasks@.len(),
                i < n,
                m == counts.tasks@[i as int].rewards@.len(),
                copy@ == counts.tasks@[i as int].rewards@.take(k as int),
        {
            copy.push(counts.tasks[i].rewards[k]);
            assert(copy@ =~= counts.tasks@[i as int].rewards@.take(k + 1));
        }
        assert(copy@ =~= counts.tasks@[i as int].rewards@);
        rewards.push((counts.tasks[i].task.clone(), copy));
    }
    Summary {
        score: means.score,
        pass1: means.pass1,
        passk: means.passk,
        ci_low: means.ci_low,
        ci_high: means.ci_high,
        trials: counts.trials,
        tasks: n,
        rewards,
        cost: Cost {
            input_tokens: counts.input_tokens,
            output_tokens: counts.output_tokens,
            cache_tokens: counts.cache_tokens,
            tool_calls: counts.tool_calls,
            wall_seconds: means.wall_seconds,
        },
    }
}

// ---------------------------------------------------------------------------
// What the counts say

/// Whether a task's attempts hold a reward of at least one.
pub open spec fn holds_full_reward(rewards: Seq<Double>) -> bool {
    exists|j: int|
        0 <= j < rewards.len() && (#[trigger] rewards[j]).reaches(
            Double { bits: 0x3ff0_0000_0000_0000 },
        )
}

proof fn lemma_passing(rewards: Seq<Double>)
    ensures
        passing(rewards) == rewards.filter(
            |r: Double| r.reaches(Double { bits: 0x3ff0_0000_0000_0000 }),
        ).len(),
        passing(rewards) > 0 <==> holds_full_reward(rewards),
    decreases rewards.len(),
{
    reveal(Seq::filter);
    if rewards.len() > 0 {
        let init = rewards.drop_last();
        lemma_passing(init);
        if holds_full_reward(init) {
            let j = choose|j: int|
                0 <= j < init.len() && (#[trigger] init[j]).reaches(
                    Double { bits: 0x3ff0_0000_0000_0000 },
                );
            assert(rewards[j] == init[j]);
        }
        if holds_full_reward(rewards) && !passes(rewards.last()) {
            let j = choose|j: int|
                0 <= j < rewards.len() && (#[trigger] rewards[j]).reaches(
                    Double { bits: 0x3ff0_0000_0000_0000 },
                );
            assert(init[j] == rewards[j]);
        }
        if passes(rewards.last()) {
            assert(rewards[rewards.len() - 1].reaches(Double { bits: 0x3ff0_0000_0000_0000 }));
        }
    }
}

/// The names of the first `k` tasks, of all or of those with a full reward.
spec fn first_names(tasks: Seq<TaskAttempts>, k: int, full: bool) -> Set<Seq<char>> {
    Set::new(
        |name: Seq<char>|
            exists|i: int|
                0 <= i < k && (#[trigger] tasks[i]).task@ == name && (full ==> holds_full_reward(
                    tasks[i].rewards@,
                )),
    )
}

proof fn lemma_first_names(tasks: Seq<TaskAttempts>, trials: Seq<TrialRecord>, k: int)
    requires
        groups(tasks, trials),
        0 <= k <= tasks.len(),
    ensures
        first_names(tasks, k, true).finite(),
        first_names(tasks, k, false).finite(),
        first_names(tasks, k, true).len() == solved_in(tasks.take(k)),
        first_names(tasks, k, false).len() == k,
    decreases k,
{
    if k == 0 {
        assert(first_names(tasks, 0, true) =~= Set::empty());
        assert(first_names(tasks, 0, false) =~= Set::empty());
    } else {
        lemma_first_names(tasks, trials, k - 1);
        let last = tasks[k - 1];
        assert(tasks.take(k).drop_last() =~= tasks.take(k - 1));
        assert(tasks.take(k).last() == last);
        lemma_passing(last.rewards@);
        assert forall|i: int| 0 <= i < k - 1 implies (#[trigger] tasks[i]).task@ != last.task@ by {
            assert(order::before(tasks[i].task@, tasks[k - 1].task@));
            order::lemma_before_irreflexive(last.task@);
        }
        let all = first_names(tasks, k - 1, false);
        let full = first_names(tasks, k - 1, true);
        assert(!all.contains(last.task@));
        assert(!full.contains(last.task@));
        assert(first_names(tasks, k, false) =~= all.insert(last.task@)) by {
            assert forall|name: Seq<char>| #[trigger]
                first_names(tasks, k, false).contains(name) == all.insert(last.task@).contains(
                    name,
                ) by {
                assert(tasks[k - 1].task@ == last.task@);
            }
        }
        if last.passes > 0 {
            assert(first_names(tasks, k, true) =~= full.insert(last.task@)) by {
                assert forall|name: Seq<char>| #[trigger]
                    first_names(tasks, k, true).contains(name) == full.insert(
                        last.task@,
                    ).contains(name) by {
                    assert(tasks[k - 1].task@ == last.task@);
                }
            }
        } else {
            assert(first_names(tasks, k, true) =~= full);
        }
    }
}

/// The names of the tasks that were tried.
pub open spec fn tried(trials: Seq<TrialRecord>) -> Set<Seq<char>> {
    Set::new(
        |name: Seq<char>|
            exists|i: int| 0 <= i < trials.len() && (#[trigger] trials[i]).task@ == name,
    )
}

/// The names of the tasks of which some trial has a reward of at least one.
pub open spec fn tried_with_full_reward(trials: Seq<TrialRecord>) -> Set<Seq<char>> {
    Set::new(
        |name: Seq<char>|
            exists|i: int|
                0 <= i < trials.len() && (#[trigger] trials[i]).task@ == name
                    && trials[i].reward.reaches(Double { bits: 0x3ff0_0000_0000_0000 }),
    )
}

proof fn lemma_rewards_of(trials: Seq<TrialRecord>, task: Seq<char>)
    ensures
        rewards_of(trials, task) == trials.filter(
            |t: TrialRecord| t.task@ == task,
        ).map_values(|t: TrialRecord| t.reward),
        holds_full_reward(rewards_of(trials, task)) <==> exists|i: int|
            0 <= i < trials.len() && (#[trigger] trials[i]).task@ == task
                && trials[i].reward.reaches(Double { bits: 0x3ff0_0000_0000_0000 }),
    decreases trials.len(),
{
    reveal(Seq::filter);
    let of_task = |t: TrialRecord| t.task@ == task;
    let reward = |t: TrialRecord| t.reward;
    if trials.len() == 0 {
        assert(rewards_of(trials, task) =~= trials.filter(of_task).map_values(reward));
    } else {
        let init = trials.drop_last();
        lemma_rewards_of(init, task);
        let before = rewards_of(init, task);
        let after = rewards_of(trials, task);
        assert(after =~= trials.filter(of_task).map_values(reward));
        if holds_full_reward(before) {
            let j = choose|j: int|
                0 <= j < before.len() && (#[trigger] before[j]).reaches(
                    Double { bits: 0x3ff0_0000_0000_0000 },
                );
            assert(after[j] == before[j]);
            let i = choose|i: int|
                0 <= i < init.len() && (#[trigger] init[i]).task@ == task
                    && init[i].reward.reaches(Double { bits: 0x3ff0_0000_0000_0000 });
            assert(trials[i] == init[i]);
        }
        let last = trials[trials.len() - 1];
        if last.task@ == task {
            assert(after[after.len() - 1] == last.reward);
            if holds_full_reward(after) && !passes(last.reward) {
                let j = choose|j: int|
                    0 <= j < after.len() && (#[trigger] after[j]).reaches(
                        Double { bits: 0x3ff0_0000_0000_0000 },
                    );
                assert(before[j] == after[j]);
            }
        }
        if exists|i: int|
            0 <= i < trials.len() && (#[trigger] trials[i]).task@ == task
                && trials[i].reward.reaches(Double { bits: 0x3ff0_0000_0000_0000 }) {
            let i = choose|i: int|
                0 <= i < trials.len() && (#[trigger] trials[i]).task@ == task
                    && trials[i].reward.reaches(Double { bits: 0x3ff0_0000_0000_0000 });
            if i < init.len() {
                assert(init[i] == trials[i]);
            }
        }
    }
}

/// A task is solved when some trial of it has a reward of at least one, however many
/// of its trials have: what is counted as solved is the number of the names of such
/// tasks, and what is counted as tasks the number of the names of all.
pub proof fn a_task_is_solved_by_any_full_reward(out: Counts, trials: Seq<TrialRecord>)
    requires
        counted(out, trials),
    ensures
        tried(trials).finite(),
        tried_with_full_reward(trials).finite(),
        out.tasks@.len() == tried(trials).len(),
        out.solved == tried_with_full_reward(trials).len(),
        out.solved <= out.tasks@.len(),
{
    let tasks = out.tasks@;
    let n = tasks.len() as int;
    lemma_first_names(tasks, trials, n);
    assert(tasks.take(n) =~= tasks);
    assert forall|name: Seq<char>| #[trigger]
        tried(trials).contains(name) == first_names(tasks, n, false).contains(name) by {
        assert(attempted(trials, name) <==> exists|i: int|
            0 <= i < tasks.len() && #[trigger] tasks[i].task@ == name);
        if attempted(trials, name) {
            let i = choose|i: int| 0 <= i < tasks.len() && #[trigger] tasks[i].task@ == name;
            assert(tasks[i].task@ == name);
        }
    }
    assert(tried(trials) =~= first_names(tasks, n, false));
    assert forall|name: Seq<char>| #[trigger]
        tried_with_full_reward(trials).contains(name) == first_names(tasks, n, true).contains(
            name,
        ) by {
        lemma_rewards_of(trials, name);
        assert(attempted(trials, name) <==> exists|i: int|
            0 <= i < tasks.len() && #[trigger] tasks[i].task@ == name);
        if tried_with_full_reward(trials).contains(name) {
            let i = choose|i: int|
                0 <= i < trials.len() && (#[trigger] trials[i]).task@ == name
                    && trials[i].reward.reaches(Double { bits: 0x3ff0_0000_0000_0000 });
            assert(trials[i].task@ == name);
            assert(attempted(trials, name));
            let k = choose|k: int| 0 <= k < tasks.len() && #[trigger] tasks[k].task@ == name;
            assert(tasks[k].rewards@ == rewards_of(trials, name));
        }
        if first_names(tasks, n, true).contains(name) {
            let k = choose|k: int|
                0 <= k < n && (#[trigger] tasks[k]).task@ == name && holds_full_reward(
                    tasks[k].rewards@,
                );
            assert(tasks[k].rewards@ == rewards_of(trials, name));
        }
    }
    assert(tried_with_full_reward(trials) =~= first_names(tasks, n, true));
    lemma_solved_bound(tasks);
}

proof fn lemma_solved_bound(tasks: Seq<TaskAttempts>)
    ensures
        solved_in(tasks) <= tasks.len(),
    decreases tasks.len(),
{
    if tasks.len() > 0 {
        lemma_solved_bound(tasks.drop_last());
    }
}

/// Every task has the rewards of its own trials, all of them, in the order in which
/// they came, and beside them how many of those are at least one.
pub proof fn a_task_has_the_rewards_of_its_trials(out: Counts, trials: Seq<TrialRecord>, i: int)
    requires
        counted(out, trials),
        0 <= i < out.tasks@.len(),
    ensures
        ({
            let name = out.tasks@[i].task@;
            let rewards = trials.filter(|t: TrialRecord| t.task@ == name).map_values(
                |t: TrialRecord| t.reward,
            );
            &&& rewards.len() > 0
            &&& out.tasks@[i].rewards@ == rewards
            &&& out.tasks@[i].passes == rewards.filter(
                |r: Double| r.reaches(Double { bits: 0x3ff0_0000_0000_0000 }),
            ).len()
        }),
{
    let name = out.tasks@[i].task@;
    assert(out.tasks@[i].rewards@ == rewards_of(trials, name));
    lemma_rewards_of(trials, name);
    lemma_passing(rewards_of(trials, name));
    assert(out.tasks@[i].task@ == name);
    assert(attempted(trials, name));
    let k = choose|k: int| #![trigger trials[k]] 0 <= k < trials.len() && trials[k].task@ == name;
    let of_task = |t: TrialRecord| t.task@ == name;
    trials.lemma_filter_contains(of_task, k);
}

/// The figures added up, those that are unknown as nothing.
pub open spec fn added_up(figures: Seq<Option<u64>>) -> int {
    figures.fold_left(
        0int,
        |sum: int, figure: Option<u64>|
            sum + match figure {
                Some(n) => n as int,
                None => 0,
            },
    )
}

/// Whether a total is the sum of the figures, known exactly where every one of them is
/// and their sum fits.
pub open spec fn is_total(total: Option<u64>, figures: Seq<Option<u64>>) -> bool {
    &&& total is Some <==> added_up(figures) <= u64::MAX && forall|i: int|
        0 <= i < figures.len() ==> (#[trigger] figures[i]) is Some
    &&& total matches Some(n) ==> n == added_up(figures)
}

proof fn lemma_is_total(figures: Seq<Option<u64>>)
    ensures
        is_total(figure_total(figures), figures),
{
    lemma_added_up(figures);
    known_totals_are_exact(figures);
}

proof fn lemma_added_up(figures: Seq<Option<u64>>)
    ensures
        added_up(figures) == known_sum(figures),
    decreases figures.len(),
{
    if figures.len() > 0 {
        lemma_added_up(figures.drop_last());
    }
}

/// Every trial is counted, every trial with a reward of at least one is counted as
/// passed, and the tokens and calls of all of them are added up, each figure from its
/// own field.
pub proof fn every_trial_is_counted(out: Counts, trials: Seq<TrialRecord>)
    requires
        counted(out, trials),
    ensures
        out.trials == trials.len(),
        out.passed == trials.map_values(|t: TrialRecord| t.reward).filter(
            |r: Double| r.reaches(Double { bits: 0x3ff0_0000_0000_0000 }),
        ).len(),
        is_total(out.input_tokens, trials.map_values(|t: TrialRecord| t.input_tokens)),
        is_total(out.output_tokens, trials.map_values(|t: TrialRecord| t.output_tokens)),
        is_total(out.cache_tokens, trials.map_values(|t: TrialRecord| t.cache_tokens)),
        out.tool_calls == trials.fold_left(
            0int,
            |sum: int, t: TrialRecord| sum + t.tool_calls,
        ),
{
    assert(all_rewards(trials) =~= trials.map_values(|t: TrialRecord| t.reward));
    lemma_passing(all_rewards(trials));
    assert(inputs(trials) =~= trials.map_values(|t: TrialRecord| t.input_tokens));
    assert(outputs(trials) =~= trials.map_values(|t: TrialRecord| t.output_tokens));
    assert(caches(trials) =~= trials.map_values(|t: TrialRecord| t.cache_tokens));
    lemma_is_total(inputs(trials));
    lemma_is_total(outputs(trials));
    lemma_is_total(caches(trials));
    lemma_calls(trials);
}

proof fn lemma_calls(trials: Seq<TrialRecord>)
    ensures
        calls(trials) == trials.fold_left(0int, |sum: int, t: TrialRecord| sum + t.tool_calls),
    decreases trials.len(),
{
    if trials.len() > 0 {
        lemma_calls(trials.drop_last());
    }
}

/// A candidate is reverted exactly when its score or its lower bound is below the
/// best, whatever the numbers; and so whatever both reach keeps.
pub proof fn a_candidate_is_reverted_only_for_a_drop(
    score: Double,
    ci_low: Double,
    best_score: Double,
    best_low: Double,
)
    ensures
        decided(score, ci_low, best_score, best_low) == Decision::Reverted <==> score.below(
            best_score,
        ) || ci_low.below(best_low),
        score.reaches(best_score) && ci_low.reaches(best_low) ==> decided(
            score,
            ci_low,
            best_score,
            best_low,
        ) == if best_score.reaches(score) && best_low.reaches(ci_low) {
            Decision::Tie
        } else {
            Decision::Kept
        },
{
}

} // verus!
