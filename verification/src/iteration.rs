//! The self-improvement loop: evaluate, keep or revert, edit, repeat; then
//! score the holdout.

use vstd::prelude::*;
use crate::double;
use crate::double::Double;
use crate::evolve;
use crate::evolve::IterateArgs;
use crate::evolve::Lane;
use crate::evolve::RunArgs;
use crate::ledger;
use crate::ledger::Entry;
use crate::stats;
use crate::stats::Decision;
use crate::stats::Summary;
use crate::text;
use crate::trial;

verus! {

// ---------------------------------------------------------------------------
// Before the loop

/// Why the loop is not started.
#[derive(Clone, Copy, Debug, PartialEq, Eq, Structural)]
pub enum Refusal {
    GatewayNeedsMac,
    GatewayNeedsPromptLane,
    GatewayNeedsToken,
    HoldoutIsForEvaluation,
    Run(evolve::RunRefusal),
    OverlapsHoldout,
    NoGenerations,
    EditsNeedBuilds,
}

impl Refusal {
    /// What is said of a loop that is not started.
    pub fn message(self) -> (out: &'static str)
        ensures
            out@ == match self {
                Refusal::GatewayNeedsMac => "isolated prompt improvement requires macOS"@,
                Refusal::GatewayNeedsPromptLane =>
                    "--meta-gateway-port requires self-editing, --lane prompt and Gemini gemini-3.8-flash"@,
                Refusal::GatewayNeedsToken => "RIGCODER_GATEWAY_TOKEN is required"@,
                Refusal::HoldoutIsForEvaluation =>
                    "the holdout slice is for evaluation only: pass --no-improve"@,
                Refusal::Run(refusal) => evolve::refusal_text(refusal),
                Refusal::OverlapsHoldout =>
                    "self-improvement tasks overlap the holdout; use disjoint development tasks"@,
                Refusal::NoGenerations => "generations must be greater than zero"@,
                Refusal::EditsNeedBuilds =>
                    "--no-build requires --no-improve: self-edits must rebuild the benchmarked binary"@,
            },
    {
        match self {
            Refusal::GatewayNeedsMac => "isolated prompt improvement requires macOS",
            Refusal::GatewayNeedsPromptLane =>
                "--meta-gateway-port requires self-editing, --lane prompt and Gemini gemini-3.8-flash",
            Refusal::GatewayNeedsToken => "RIGCODER_GATEWAY_TOKEN is required",
            Refusal::HoldoutIsForEvaluation =>
                "the holdout slice is for evaluation only: pass --no-improve",
            Refusal::Run(refusal) => refusal.message(),
            Refusal::OverlapsHoldout =>
                "self-improvement tasks overlap the holdout; use disjoint development tasks",
            Refusal::NoGenerations => "generations must be greater than zero",
            Refusal::EditsNeedBuilds =>
                "--no-build requires --no-improve: self-edits must rebuild the benchmarked binary",
        }
    }
}

/// Whether the isolated prompt launcher may be used as asked.
pub open spec fn gateway_lane(args: IterateArgs) -> bool {
    &&& !args.no_improve
    &&& args.lane == Some(Lane::Prompt)
    &&& args.meta_provider@ == "gemini"@
    &&& args.meta_model matches Some(model) ==> model@ == "gemini-3.8-flash"@
}

/// What the loop is refused for before its tasks are read.
pub open spec fn early_refusal(args: IterateArgs, mac: bool, token: bool) -> Option<Refusal> {
    if args.meta_gateway_port is Some && !mac {
        Some(Refusal::GatewayNeedsMac)
    } else if args.meta_gateway_port is Some && !gateway_lane(args) {
        Some(Refusal::GatewayNeedsPromptLane)
    } else if args.meta_gateway_port is Some && !token {
        Some(Refusal::GatewayNeedsToken)
    } else if args.run.slice@ == "holdout"@ && !args.no_improve {
        Some(Refusal::HoldoutIsForEvaluation)
    } else {
        None
    }
}

/// Whether a list holds a text of the other.
pub open spec fn overlap(a: Seq<Seq<char>>, b: Seq<Seq<char>>) -> bool {
    exists|i: int| 0 <= i < a.len() && b.contains(#[trigger] a[i])
}

/// What the loop is refused for once its tasks, and the holdout's where they are
/// needed, were read.
pub open spec fn late_refusal(
    args: IterateArgs,
    tasks: Seq<Seq<char>>,
    holdout: Seq<Seq<char>>,
) -> Option<Refusal> {
    if evolve::run_refusal(args.run, tasks) is Some {
        Some(Refusal::Run(evolve::run_refusal(args.run, tasks)->0))
    } else if !args.no_improve && overlap(tasks, holdout) {
        Some(Refusal::OverlapsHoldout)
    } else if args.generations == 0 {
        Some(Refusal::NoGenerations)
    } else if !args.no_improve && args.run.no_build {
        Some(Refusal::EditsNeedBuilds)
    } else {
        None
    }
}

/// Whether the loop may go on to read its tasks: `mac` says whether it runs on
/// macOS, `token` whether the gateway's token is set.
pub fn check_arguments(args: &IterateArgs, mac: bool, token: bool) -> (out: Result<(), Refusal>)
    ensures
        out == match early_refusal(*args, mac, token) {
            Some(refusal) => Err::<(), _>(refusal),
            None => Ok(()),
        },
{
    if args.meta_gateway_port.is_some() {
        if !mac {
            return Err(Refusal::GatewayNeedsMac);
        }
        let model: bool = match &args.meta_model {
            Some(model) => text::same(model.as_str(), "gemini-3.8-flash"),
            None => true,
        };
        let lane: bool = match args.lane {
            Some(Lane::Prompt) => true,
            _ => false,
        };
        if !(!args.no_improve && lane && text::same(args.meta_provider.as_str(), "gemini")
            && model) {
            return Err(Refusal::GatewayNeedsPromptLane);
        }
        if !token {
            return Err(Refusal::GatewayNeedsToken);
        }
    }
    if text::same(args.run.slice.as_str(), "holdout") && !args.no_improve {
        return Err(Refusal::HoldoutIsForEvaluation);
    }
    Ok(())
}

/// Whether the holdout's tasks are needed.
pub fn needs_holdout(args: &IterateArgs) -> (r: bool)
    ensures
        r == (!args.no_improve || scores_holdout(*args)),
{
    !args.no_improve || ends_on_holdout(args)
}

/// Whether the loop ends with an evaluation of the holdout.
pub open spec fn scores_holdout(args: IterateArgs) -> bool {
    args.holdout && args.run.tasks@.len() == 0 && args.run.slice@ == "dev"@
}

/// Whether the loop ends with an evaluation of the holdout.
pub fn ends_on_holdout(args: &IterateArgs) -> (r: bool)
    ensures
        r == scores_holdout(*args),
{
    proof {
        reveal_strlit("custom");
        reveal_strlit("dev");
        assert("custom"@.len() != "dev"@.len());
    }
    let slice: String = evolve::slice_name(&args.run);
    args.holdout && text::same(slice.as_str(), "dev")
}

/// Whether the loop may start on its tasks.
pub fn check_tasks(args: &IterateArgs, tasks: &[String], holdout: &[String]) -> (out: Result<
    (),
    Refusal,
>)
    ensures
        out == match late_refusal(*args, text::views(tasks@), text::views(holdout@)) {
            Some(refusal) => Err::<(), _>(refusal),
            None => Ok(()),
        },
{
    if let Err(refusal) = evolve::validate_run(&args.run, tasks) {
        return Err(Refusal::Run(refusal));
    }
    if !args.no_improve {
        let n: usize = tasks.len();
        let ghost all = text::views(tasks@);
        for i in 0..n
            invariant
                n == tasks@.len(),
                all == text::views(tasks@),
                !args.no_improve,
                evolve::run_refusal(args.run, all) is None,
                forall|j: int| 0 <= j < i ==> !text::views(holdout@).contains(#[trigger] all[j]),
        {
            assert(all[i as int] == tasks@[i as int]@);
            if text::holds(holdout, tasks[i].as_str()) {
                assert(overlap(all, text::views(holdout@)));
                return Err(Refusal::OverlapsHoldout);
            }
        }
        assert(all.len() == n);
    }
    if args.generations == 0 {
        return Err(Refusal::NoGenerations);
    }
    if !args.no_improve && args.run.no_build {
        return Err(Refusal::EditsNeedBuilds);
    }
    Ok(())
}

/// A loop that edits never develops on a held-out task, whether its slice or its
/// own list names it.
pub proof fn edits_never_see_the_holdout(
    args: IterateArgs,
    tasks: Seq<Seq<char>>,
    holdout: Seq<Seq<char>>,
    task: Seq<char>,
)
    requires
        late_refusal(args, tasks, holdout) is None,
        !args.no_improve,
        tasks.contains(task),
    ensures
        !holdout.contains(task),
{
    let i = choose|i: int| 0 <= i < tasks.len() && tasks[i] == task;
    assert(!holdout.contains(tasks[i]));
}

// ---------------------------------------------------------------------------
// The loop

/// What the loop does, one thing at a time.
#[derive(Clone, Copy, Debug, PartialEq, Eq, Structural)]
pub enum Step {
    /// Build the benchmarked binary.
    Build,
    /// Evaluate it.
    Evaluate,
    /// Take back a candidate that could not be scored.
    RollBack,
    /// Remove the marker of a candidate that was taken back.
    ClearAfterRollBack,
    /// Put the ledger's entry together.
    Entry,
    /// See what a kept generation changed.
    CollectChanges,
    /// Commit it.
    Commit,
    /// Build the agent that makes the next edit.
    RebuildHost,
    /// Restore what a rejected generation changed.
    Revert,
    /// Remove its binary.
    RemoveBinary,
    /// Keep its note with the job.
    ArchiveNote,
    /// Append to the ledger.
    Append,
    /// Remove the marker of a candidate that was decided.
    ClearMarker,
    /// Build the binary of what was restored.
    RebuildBinary,
    /// Write the report.
    Report,
    /// Edit.
    Improve,
    /// Build the binary that the holdout scores.
    BuildHoldout,
    /// Evaluate the holdout.
    EvaluateHoldout,
    /// Append its evaluation to the ledger.
    AppendHoldout,
}

/// What came of a step.
#[derive(Clone, Copy, Debug, PartialEq, Eq, Structural)]
pub enum Event {
    Done,
    Broke,
    /// An evaluation's score and lower bound.
    Scored { score: Double, ci_low: Double },
    /// Whether a kept generation changed anything.
    Changed(bool),
}

/// What is settled about the loop before it starts.
#[derive(Clone, Copy, Debug, PartialEq, Eq, Structural)]
pub struct Plan {
    pub generations: usize,
    /// Whether it edits.
    pub improve: bool,
    /// Whether it builds the benchmarked binary.
    pub build: bool,
    /// Whether it ends with an evaluation of the holdout.
    pub holdout: bool,
}

impl Plan {
    /// There is a generation, and a loop that edits builds.
    pub open spec fn valid(self) -> bool {
        self.generations > 0 && (self.improve ==> self.build)
    }
}

/// Where the loop stands.
#[derive(Clone, Copy, Debug, PartialEq, Eq, Structural)]
pub enum Position {
    Doing(Step),
    Finished,
    /// The step could not be carried out.
    Stopped(Step),
    /// A candidate could not be scored, and was taken back.
    TakenBack,
}

/// The loop under way.
#[derive(Clone, Copy, Debug, PartialEq, Eq, Structural)]
pub struct Loop {
    pub plan: Plan,
    pub generation: usize,
    /// Whether an edit was made that is not decided yet.
    pub pending: bool,
    /// What became of this generation, once it is decided.
    pub decision: Option<Decision>,
    pub best_score: Double,
    pub best_low: Double,
    /// The best before the generation that was scored last.
    pub before_score: Double,
    pub before_low: Double,
    pub at: Position,
}

/// What a generation begins with.
pub open spec fn first_step(plan: Plan) -> Step {
    if plan.build {
        Step::Build
    } else {
        Step::Evaluate
    }
}

/// What the loop ends with.
pub open spec fn ending(plan: Plan) -> Position {
    if !plan.holdout {
        Position::Finished
    } else if plan.build {
        Position::Doing(Step::BuildHoldout)
    } else {
        Position::Doing(Step::EvaluateHoldout)
    }
}

/// The loop at `next`, everything else as it was.
pub open spec fn at(l: Loop, next: Position) -> Loop {
    Loop { at: next, ..l }
}

/// The loop at `next` after a step that went well.
pub open spec fn onward(l: Loop, step: Step, event: Event, next: Step) -> Loop {
    if event == Event::Done {
        at(l, Position::Doing(next))
    } else {
        at(l, Position::Stopped(step))
    }
}

/// The loop once this generation's candidate could not be built or scored.
pub open spec fn unscored(l: Loop, step: Step) -> Loop {
    if l.pending {
        at(l, Position::Doing(Step::RollBack))
    } else {
        at(l, Position::Stopped(step))
    }
}

/// The loop once a generation is recorded and its binary is in place: on to the
/// next, to an edit, or to the end.
pub open spec fn recorded(l: Loop) -> Loop {
    if l.plan.improve && l.generation + 1 < l.plan.generations {
        at(l, Position::Doing(Step::Report))
    } else if l.generation + 1 < l.plan.generations {
        Loop {
            generation: (l.generation + 1) as usize,
            decision: None,
            at: Position::Doing(first_step(l.plan)),
            ..l
        }
    } else {
        at(l, ending(l.plan))
    }
}

/// The loop once a generation is in the ledger and no marker is left.
pub open spec fn settled(l: Loop) -> Loop {
    if l.decision == Some(Decision::Reverted) {
        at(l, Position::Doing(Step::RebuildBinary))
    } else {
        recorded(l)
    }
}

/// The loop once a generation is scored.
pub open spec fn scored(l: Loop, score: Double, ci_low: Double) -> Loop {
    let decision = stats::decided(score, ci_low, l.best_score, l.best_low);
    let next = Loop {
        before_score: l.best_score,
        before_low: l.best_low,
        at: Position::Doing(Step::Entry),
        ..l
    };
    if !l.plan.improve {
        Loop { best_score: score, best_low: ci_low, decision: None, ..next }
    } else if decision == Decision::Reverted {
        Loop { decision: Some(decision), ..next }
    } else {
        Loop { best_score: score, best_low: ci_low, decision: Some(decision), ..next }
    }
}

/// The loop after its step came to `event`.
pub open spec fn moved(l: Loop, step: Step, event: Event) -> Loop {
    match step {
        Step::Build => if event == Event::Done {
            at(l, Position::Doing(Step::Evaluate))
        } else {
            unscored(l, step)
        },
        Step::Evaluate => match event {
            Event::Scored { score, ci_low } => scored(l, score, ci_low),
            _ => unscored(l, step),
        },
        Step::RollBack => onward(l, step, event, Step::ClearAfterRollBack),
        Step::ClearAfterRollBack => if event == Event::Done {
            Loop { pending: false, at: Position::TakenBack, ..l }
        } else {
            at(l, Position::Stopped(step))
        },
        Step::Entry => match l.decision {
            Some(Decision::Reverted) => onward(l, step, event, Step::Revert),
            Some(_) => onward(l, step, event, Step::CollectChanges),
            None => onward(l, step, event, Step::Append),
        },
        Step::CollectChanges => match event {
            Event::Changed(true) => at(l, Position::Doing(Step::Commit)),
            Event::Changed(false) => at(l, Position::Doing(Step::Append)),
            _ => at(l, Position::Stopped(step)),
        },
        Step::Commit => onward(l, step, event, Step::RebuildHost),
        Step::RebuildHost => onward(l, step, event, Step::Append),
        Step::Revert => onward(l, step, event, Step::RemoveBinary),
        Step::RemoveBinary => onward(
            l,
            step,
            event,
            if l.pending {
                Step::ArchiveNote
            } else {
                Step::Append
            },
        ),
        Step::ArchiveNote => onward(l, step, event, Step::Append),
        Step::Append => if event != Event::Done {
            at(l, Position::Stopped(step))
        } else if l.pending {
            at(l, Position::Doing(Step::ClearMarker))
        } else {
            settled(l)
        },
        Step::ClearMarker => if event != Event::Done {
            at(l, Position::Stopped(step))
        } else {
            settled(Loop { pending: false, ..l })
        },
        Step::RebuildBinary => if event != Event::Done {
            at(l, Position::Stopped(step))
        } else {
            recorded(l)
        },
        Step::Report => onward(l, step, event, Step::Improve),
        Step::Improve => if event != Event::Done {
            at(l, Position::Stopped(step))
        } else {
            Loop {
                generation: (l.generation + 1) as usize,
                pending: true,
                decision: None,
                at: Position::Doing(first_step(l.plan)),
                ..l
            }
        },
        Step::BuildHoldout => onward(l, step, event, Step::EvaluateHoldout),
        Step::EvaluateHoldout => match event {
            Event::Scored { .. } => at(l, Position::Doing(Step::AppendHoldout)),
            _ => at(l, Position::Stopped(step)),
        },
        Step::AppendHoldout => if event == Event::Done {
            at(l, Position::Finished)
        } else {
            at(l, Position::Stopped(step))
        },
    }
}

/// The loop after one more event; one that is over stays as it is.
pub open spec fn followed(l: Loop, event: Event) -> Loop {
    match l.at {
        Position::Doing(step) => moved(l, step, event),
        _ => l,
    }
}

/// The loop before its first step: every run of it evaluates its own baseline,
/// which any score beats.
pub open spec fn starting(plan: Plan) -> Loop {
    Loop {
        plan,
        generation: 0,
        pending: false,
        decision: None,
        best_score: double::minus_one(),
        best_low: double::minus_one(),
        before_score: double::minus_one(),
        before_low: double::minus_one(),
        at: Position::Doing(first_step(plan)),
    }
}

/// The loop after the events.
pub open spec fn reached(plan: Plan, events: Seq<Event>) -> Loop
    decreases events.len(),
{
    if events.len() == 0 {
        starting(plan)
    } else {
        followed(reached(plan, events.drop_last()), events.last())
    }
}

fn to(l: Loop, next: Position) -> (out: Loop)
    ensures
        out == at(l, next),
{
    Loop {
        plan: l.plan,
        generation: l.generation,
        pending: l.pending,
        decision: l.decision,
        best_score: l.best_score,
        best_low: l.best_low,
        before_score: l.before_score,
        before_low: l.before_low,
        at: next,
    }
}

fn proceed(l: Loop, step: Step, event: Event, next: Step) -> (out: Loop)
    ensures
        out == onward(l, step, event, next),
{
    if event == Event::Done {
        to(l, Position::Doing(next))
    } else {
        to(l, Position::Stopped(step))
    }
}

fn give_up(l: Loop, step: Step) -> (out: Loop)
    ensures
        out == unscored(l, step),
{
    if l.pending {
        to(l, Position::Doing(Step::RollBack))
    } else {
        to(l, Position::Stopped(step))
    }
}

fn begin_with(plan: &Plan) -> (out: Step)
    ensures
        out == first_step(*plan),
{
    if plan.build {
        Step::Build
    } else {
        Step::Evaluate
    }
}

fn go_on(l: Loop) -> (out: Loop)
    requires
        l.generation < l.plan.generations,
    ensures
        out == recorded(l),
{
    if l.plan.improve && l.generation + 1 < l.plan.generations {
        to(l, Position::Doing(Step::Report))
    } else if l.generation + 1 < l.plan.generations {
        let mut out: Loop = l;
        out.generation = l.generation + 1;
        out.decision = None;
        out.at = Position::Doing(begin_with(&l.plan));
        out
    } else if !l.plan.holdout {
        to(l, Position::Finished)
    } else if l.plan.build {
        to(l, Position::Doing(Step::BuildHoldout))
    } else {
        to(l, Position::Doing(Step::EvaluateHoldout))
    }
}

fn settle(l: Loop) -> (out: Loop)
    requires
        l.generation < l.plan.generations,
    ensures
        out == settled(l),
{
    match l.decision {
        Some(Decision::Reverted) => to(l, Position::Doing(Step::RebuildBinary)),
        _ => go_on(l),
    }
}

fn take_score(l: Loop, score: Double, ci_low: Double) -> (out: Loop)
    ensures
        out == scored(l, score, ci_low),
{
    let decision: Decision = stats::keep_decision(score, ci_low, l.best_score, l.best_low);
    let mut out: Loop = l;
    out.before_score = l.best_score;
    out.before_low = l.best_low;
    out.at = Position::Doing(Step::Entry);
    if !l.plan.improve {
        out.best_score = score;
        out.best_low = ci_low;
        out.decision = None;
    } else {
        out.decision = Some(decision);
        if decision != Decision::Reverted {
            out.best_score = score;
            out.best_low = ci_low;
        }
    }
    out
}

/// The loop before its first step.
pub fn begin(plan: Plan) -> (out: Loop)
    requires
        plan.valid(),
    ensures
        out == starting(plan),
        out.valid(),
{
    let none: Double = Double { bits: double::MINUS_ONE_BITS };
    Loop {
        plan,
        generation: 0,
        pending: false,
        decision: None,
        best_score: none,
        best_low: none,
        before_score: none,
        before_low: none,
        at: Position::Doing(begin_with(&plan)),
    }
}

impl Loop {
    /// What holds of the loop wherever it stands.
    pub open spec fn valid(self) -> bool {
        &&& self.plan.valid()
        &&& self.generation < self.plan.generations
        &&& self.pending ==> self.plan.improve
        &&& self.decision is Some ==> self.plan.improve
        &&& match self.at {
            Position::Doing(step) => {
                &&& edits(step) ==> self.plan.improve
                &&& step == Step::RollBack || step == Step::ClearAfterRollBack || step
                    == Step::ArchiveNote || step == Step::ClearMarker ==> self.pending
                &&& step == Step::Revert || step == Step::RemoveBinary || step == Step::ArchiveNote
                    || step == Step::RebuildBinary ==> self.decision == Some(Decision::Reverted)
                &&& step == Step::CollectChanges || step == Step::Commit || step
                    == Step::RebuildHost ==> self.decision == Some(Decision::Kept) || self.decision
                    == Some(Decision::Tie)
                &&& step == Step::Entry || step == Step::Append ==> (self.plan.improve
                    <==> self.decision is Some)
                &&& step == Step::Build ==> self.plan.build
                &&& step == Step::Report || step == Step::Improve ==> !self.pending
                    && self.generation + 1 < self.plan.generations
                &&& step == Step::RebuildBinary || held_out(step) ==> !self.pending
                &&& held_out(step) ==> self.plan.holdout && self.generation + 1
                    == self.plan.generations
            },
            _ => true,
        }
    }
}

/// Whether a step belongs to self-editing.
pub open spec fn edits(step: Step) -> bool {
    step == Step::RollBack || step == Step::ClearAfterRollBack || step == Step::CollectChanges
        || step == Step::Commit || step == Step::RebuildHost || step == Step::Revert || step
        == Step::RemoveBinary || step == Step::ArchiveNote || step == Step::ClearMarker || step
        == Step::RebuildBinary || step == Step::Report || step == Step::Improve
}

/// Whether a step belongs to the scoring of the holdout.
pub open spec fn held_out(step: Step) -> bool {
    step == Step::BuildHoldout || step == Step::EvaluateHoldout || step == Step::AppendHoldout
}

/// The loop after what came of its step.
pub fn follow(l: Loop, event: Event) -> (out: Loop)
    requires
        l.valid(),
    ensures
        out == followed(l, event),
        out.valid(),
{
    let step: Step = match l.at {
        Position::Doing(step) => step,
        _ => {
            return l;
        },
    };
    let done: bool = event == Event::Done;
    match step {
        Step::Build => {
            if done {
                to(l, Position::Doing(Step::Evaluate))
            } else {
                give_up(l, step)
            }
        },
        Step::Evaluate => match event {
            Event::Scored { score, ci_low } => take_score(l, score, ci_low),
            _ => give_up(l, step),
        },
        Step::RollBack => proceed(l, step, event, Step::ClearAfterRollBack),
        Step::ClearAfterRollBack => {
            if done {
                let mut out: Loop = l;
                out.pending = false;
                out.at = Position::TakenBack;
                out
            } else {
                to(l, Position::Stopped(step))
            }
        },
        Step::Entry => match l.decision {
            Some(Decision::Reverted) => proceed(l, step, event, Step::Revert),
            Some(_) => proceed(l, step, event, Step::CollectChanges),
            None => proceed(l, step, event, Step::Append),
        },
        Step::CollectChanges => match event {
            Event::Changed(changed) => {
                if changed {
                    to(l, Position::Doing(Step::Commit))
                } else {
                    to(l, Position::Doing(Step::Append))
                }
            },
            _ => to(l, Position::Stopped(step)),
        },
        Step::Commit => proceed(l, step, event, Step::RebuildHost),
        Step::RebuildHost => proceed(l, step, event, Step::Append),
        Step::Revert => proceed(l, step, event, Step::RemoveBinary),
        Step::RemoveBinary => {
            if l.pending {
                proceed(l, step, event, Step::ArchiveNote)
            } else {
                proceed(l, step, event, Step::Append)
            }
        },
        Step::ArchiveNote => proceed(l, step, event, Step::Append),
        Step::Append => {
            if !done {
                to(l, Position::Stopped(step))
            } else if l.pending {
                to(l, Position::Doing(Step::ClearMarker))
            } else {
                settle(l)
            }
        },
        Step::ClearMarker => {
            if !done {
                to(l, Position::Stopped(step))
            } else {
                let mut out: Loop = l;
                out.pending = false;
                settle(out)
            }
        },
        Step::RebuildBinary => {
            if !done {
                to(l, Position::Stopped(step))
            } else {
                go_on(l)
            }
        },
        Step::Report => proceed(l, step, event, Step::Improve),
        Step::Improve => {
            if !done {
                to(l, Position::Stopped(step))
            } else {
                let mut out: Loop = l;
                out.generation = l.generation + 1;
                out.pending = true;
                out.decision = None;
                out.at = Position::Doing(begin_with(&l.plan));
                out
            }
        },
        Step::BuildHoldout => proceed(l, step, event, Step::EvaluateHoldout),
        Step::EvaluateHoldout => match event {
            Event::Scored { .. } => to(l, Position::Doing(Step::AppendHoldout)),
            _ => to(l, Position::Stopped(step)),
        },
        Step::AppendHoldout => {
            if done {
                to(l, Position::Finished)
            } else {
                to(l, Position::Stopped(step))
            }
        },
    }
}

// ---------------------------------------------------------------------------
// What the loop writes into the ledger

/// The row of the generation that was scored last: its decision, the best that it
/// was held against, and the edit that it measures with the commit that made it.
pub fn generation_entry(
    l: &Loop,
    args: &RunArgs,
    lane: Option<Lane>,
    meta_commit: Option<String>,
    commit: String,
    job_dir: String,
    time: u64,
    summary: Summary,
) -> (out: Entry)
    ensures
        ledger::is_entry(
            out,
            Some(l.generation),
            evolve::named_slice(*args),
            commit@,
            l.decision,
            (l.before_score, l.before_low),
            args.model@,
            args.attempts,
            job_dir@,
            time,
            summary,
        ),
        out.lane == lane,
        out.meta_commit == meta_commit,
{
    let slice: String = evolve::slice_name(args);
    let mut out: Entry = ledger::entry(
        Some(l.generation),
        slice.as_str(),
        commit,
        l.decision,
        (l.before_score, l.before_low),
        args.model.as_str(),
        args.attempts,
        job_dir,
        time,
        summary,
    );
    out.lane = lane;
    out.meta_commit = meta_commit;
    out
}

/// The row of the holdout's evaluation: of no generation, undecided, beside the
/// best that the loop ended with.
pub fn holdout_entry(
    l: &Loop,
    args: &RunArgs,
    commit: String,
    job_dir: String,
    time: u64,
    summary: Summary,
) -> (out: Entry)
    ensures
        ledger::is_entry(
            out,
            None,
            "holdout"@,
            commit@,
            None,
            (l.best_score, l.best_low),
            args.model@,
            args.attempts,
            job_dir@,
            time,
            summary,
        ),
        out.lane is None,
        out.meta_commit is None,
{
    ledger::entry(
        None,
        "holdout",
        commit,
        None,
        (l.best_score, l.best_low),
        args.model.as_str(),
        args.attempts,
        job_dir,
        time,
        summary,
    )
}

/// The best that a generation's row records is the one it was decided against,
/// not the one it may have become.
pub proof fn a_row_records_the_best_before_it(l: Loop, score: Double, ci_low: Double)
    requires
        l.valid(),
        l.at == Position::Doing(Step::Evaluate),
    ensures
        ({
            let next = followed(l, Event::Scored { score, ci_low });
            &&& next.at == Position::Doing(Step::Entry)
            &&& (next.before_score, next.before_low) == (l.best_score, l.best_low)
            &&& l.plan.improve ==> next.decision == Some(
                stats::decided(score, ci_low, next.before_score, next.before_low),
            )
            &&& !l.plan.improve ==> next.decision is None
        }),
{
}

/// Between a generation's scoring and its row nothing changes what the row
/// records.
pub proof fn the_row_waits_for_its_append(l: Loop, event: Event)
    requires
        l.valid(),
        l.at matches Position::Doing(step) && (step == Step::Entry || step == Step::CollectChanges
            || step == Step::Commit || step == Step::RebuildHost || step == Step::Revert || step
            == Step::RemoveBinary || step == Step::ArchiveNote),
    ensures
        ({
            let next = followed(l, event);
            &&& next.generation == l.generation
            &&& next.decision == l.decision
            &&& (next.before_score, next.before_low) == (l.before_score, l.before_low)
        }),
{
}

// ---------------------------------------------------------------------------
// What every loop keeps to

/// The loop stays valid whatever comes of its steps.
pub proof fn every_loop_is_valid(plan: Plan, events: Seq<Event>)
    requires
        plan.valid(),
    ensures
        reached(plan, events).valid(),
        reached(plan, events).plan == plan,
    decreases events.len(),
{
    if events.len() > 0 {
        every_loop_is_valid(plan, events.drop_last());
    }
}

/// An evaluation-only loop never reverts, commits, removes, rolls back or edits
/// anything.
pub proof fn evaluation_only_never_edits(plan: Plan, events: Seq<Event>)
    requires
        plan.valid(),
        !plan.improve,
    ensures
        reached(plan, events).at matches Position::Doing(step) ==> !edits(step),
{
    every_loop_is_valid(plan, events);
}

/// A rejected generation enters the ledger only once its changes were restored
/// and then its binary removed: one step leads to the other, and each must have
/// gone well.
pub proof fn rejection_takes_effect_before_it_is_recorded(l: Loop, event: Event)
    requires
        l.valid(),
        l.at is Doing,
        followed(l, event).at == Position::Doing(Step::Append),
        followed(l, event).decision == Some(Decision::Reverted),
    ensures
        event == Event::Done,
        l.at == Position::Doing(Step::RemoveBinary) || l.at == Position::Doing(Step::ArchiveNote),
{
}

/// A rejected generation's binary is removed only once its changes were
/// restored, and its note archived only once the binary was removed.
pub proof fn rejection_restores_source_first(l: Loop, event: Event)
    requires
        l.valid(),
        l.at is Doing,
    ensures
        followed(l, event).at == Position::Doing(Step::RemoveBinary) ==> l.at == Position::Doing(
            Step::Revert,
        ) && event == Event::Done,
        followed(l, event).at == Position::Doing(Step::ArchiveNote) ==> l.at == Position::Doing(
            Step::RemoveBinary,
        ) && event == Event::Done,
{
}

/// After a rejection nothing is evaluated before the restored binary is built
/// again.
pub proof fn a_rejected_binary_is_never_evaluated(l: Loop, event: Event)
    requires
        l.valid(),
        l.decision == Some(Decision::Reverted),
        l.at == Position::Doing(Step::Append) || l.at == Position::Doing(Step::ClearMarker),
        followed(l, event).at is Doing,
    ensures
        followed(l, event).at == Position::Doing(Step::ClearMarker) || followed(l, event).at
            == Position::Doing(Step::RebuildBinary),
{
}

/// The marker of a pending candidate is removed only once the decision is in
/// the ledger, or the candidate was taken back; and as long as it stands the
/// candidate is pending.
pub proof fn the_marker_outlives_the_candidate(l: Loop, event: Event)
    requires
        l.valid(),
        l.pending,
    ensures
        !followed(l, event).pending ==> event == Event::Done && (l.at == Position::Doing(
            Step::ClearMarker,
        ) || l.at == Position::Doing(Step::ClearAfterRollBack)),
        followed(l, event).at == Position::Doing(Step::ClearMarker) && l.at is Doing ==> l.at
            == Position::Doing(Step::Append) && event == Event::Done,
        followed(l, event).at == Position::Doing(Step::ClearAfterRollBack) && l.at is Doing ==> l.at
            == Position::Doing(Step::RollBack) && event == Event::Done,
{
}

/// A candidate that could not be built or scored is taken back, and nothing
/// else is done with it.
pub proof fn unscored_candidates_are_taken_back(l: Loop, event: Event)
    requires
        l.valid(),
        l.pending,
    ensures
        l.at == Position::Doing(Step::Build) && event != Event::Done ==> followed(l, event).at
            == Position::Doing(Step::RollBack),
        l.at == Position::Doing(Step::Evaluate) && !(event is Scored) ==> followed(l, event).at
            == Position::Doing(Step::RollBack),
{
}

/// The holdout is scored only after the last generation, and once it is nothing
/// but that follows.
pub proof fn the_holdout_comes_last(l: Loop, event: Event)
    requires
        l.valid(),
    ensures
        l.at matches Position::Doing(step) && held_out(step) ==> l.plan.holdout && l.generation + 1
            == l.plan.generations && (followed(l, event).at matches Position::Doing(next)
            ==> held_out(next)),
{
}

/// While the loop edits, the best score and bound never go down.
pub proof fn the_best_never_goes_down(l: Loop, event: Event)
    requires
        l.valid(),
        l.plan.improve,
        !l.best_score.is_nan(),
        !l.best_low.is_nan(),
        event matches Event::Scored { score, ci_low } ==> !score.is_nan() && !ci_low.is_nan(),
    ensures
        followed(l, event).best_score.reaches(l.best_score),
        followed(l, event).best_low.reaches(l.best_low),
{
    if let Event::Scored { score, ci_low } = event {
        stats::keeping_never_lowers_the_best(score, ci_low, l.best_score, l.best_low);
    }
}

/// How many steps a generation has left at most, counting the step.
pub open spec fn steps_left(step: Step) -> nat {
    match step {
        Step::Build => 17,
        Step::Evaluate => 16,
        Step::Entry => 15,
        Step::RollBack => 2,
        Step::ClearAfterRollBack => 1,
        Step::CollectChanges => 14,
        Step::Commit => 13,
        Step::RebuildHost => 12,
        Step::Revert => 14,
        Step::RemoveBinary => 13,
        Step::ArchiveNote => 12,
        Step::Append => 11,
        Step::ClearMarker => 10,
        Step::RebuildBinary => 9,
        Step::Report => 8,
        Step::Improve => 7,
        Step::BuildHoldout => 3,
        Step::EvaluateHoldout => 2,
        Step::AppendHoldout => 1,
    }
}

/// How many steps the loop has left at most.
pub open spec fn measure(l: Loop) -> nat {
    match l.at {
        Position::Doing(step) => ((l.plan.generations - l.generation - 1) * 17) as nat + steps_left(
            step,
        ),
        _ => 0,
    }
}

/// Every step brings the loop nearer to its end.
pub proof fn every_step_makes_progress(l: Loop, event: Event)
    requires
        l.valid(),
        l.at is Doing,
    ensures
        measure(followed(l, event)) < measure(l),
{
}

proof fn lemma_bounded(plan: Plan, events: Seq<Event>)
    requires
        plan.valid(),
    ensures
        reached(plan, events).at is Doing ==> measure(reached(plan, events))
            + events.len() <= plan.generations * 17,
    decreases events.len(),
{
    if events.len() > 0 {
        let l = reached(plan, events.drop_last());
        lemma_bounded(plan, events.drop_last());
        every_loop_is_valid(plan, events.drop_last());
        if l.at is Doing {
            every_step_makes_progress(l, events.last());
        }
    }
}

/// The loop ends, whatever comes of its steps.
pub proof fn every_loop_ends(plan: Plan, events: Seq<Event>)
    requires
        plan.valid(),
        events.len() >= plan.generations * 17,
    ensures
        !(reached(plan, events).at is Doing),
{
    lemma_bounded(plan, events);
}

// ---------------------------------------------------------------------------
// What a loop has done when it is over

/// Whether what came of a step lets the loop go on.
pub open spec fn went_well(step: Step, event: Event) -> bool {
    match step {
        Step::Evaluate | Step::EvaluateHoldout => event is Scored,
        Step::CollectChanges => event is Changed,
        _ => event == Event::Done,
    }
}

/// Whether the loop had the step in hand, in that generation, when its event with
/// that number came, and the step went well.
pub open spec fn did_at(
    plan: Plan,
    events: Seq<Event>,
    generation: nat,
    step: Step,
    i: int,
) -> bool {
    &&& 0 <= i < events.len()
    &&& reached(plan, events.take(i)).at == Position::Doing(step)
    &&& reached(plan, events.take(i)).generation == generation
    &&& went_well(step, events[i])
}

/// Whether the loop took the step in that generation and it went well.
#[verifier::opaque]
pub open spec fn did(plan: Plan, events: Seq<Event>, generation: nat, step: Step) -> bool {
    exists|i: int| #[trigger] did_at(plan, events, generation, step, i)
}

proof fn lemma_did_before(plan: Plan, events: Seq<Event>, generation: nat, step: Step)
    requires
        events.len() > 0,
        did(plan, events.drop_last(), generation, step),
    ensures
        did(plan, events, generation, step),
{
    reveal(did);
    let init = events.drop_last();
    let i = choose|i: int| #[trigger] did_at(plan, init, generation, step, i);
    assert(init.take(i) =~= events.take(i));
    assert(did_at(plan, events, generation, step, i));
}

proof fn lemma_did_now(plan: Plan, events: Seq<Event>, step: Step)
    requires
        events.len() > 0,
        reached(plan, events.drop_last()).at == Position::Doing(step),
        went_well(step, events.last()),
    ensures
        did(plan, events, reached(plan, events.drop_last()).generation as nat, step),
{
    reveal(did);
    assert(events.take(events.len() - 1) =~= events.drop_last());
    assert(did_at(
        plan,
        events,
        reached(plan, events.drop_last()).generation as nat,
        step,
        events.len() - 1,
    ));
}

/// Whether a generation was built where it should be, evaluated, and recorded.
spec fn recorded_whole(plan: Plan, events: Seq<Event>, g: nat) -> bool {
    &&& plan.build ==> did(plan, events, g, Step::Build)
    &&& did(plan, events, g, Step::Evaluate)
    &&& did(plan, events, g, Step::Append)
}

/// Whether a generation was recorded and the edit that follows it was made.
spec fn left_behind(plan: Plan, events: Seq<Event>, g: nat) -> bool {
    &&& recorded_whole(plan, events, g)
    &&& plan.improve ==> did(plan, events, g, Step::Report) && did(plan, events, g, Step::Improve)
}

/// What the loop has done so far, by where it stands.
spec fn done_so_far(plan: Plan, events: Seq<Event>) -> bool {
    let l = reached(plan, events);
    let g = l.generation as nat;
    &&& forall|k: nat| k < l.generation ==> #[trigger] left_behind(plan, events, k)
    &&& match l.at {
        Position::Doing(step) => {
            &&& step != Step::Build && step != Step::RollBack && step != Step::ClearAfterRollBack
                && plan.build ==> did(plan, events, g, Step::Build)
            &&& step != Step::Build && step != Step::RollBack && step != Step::ClearAfterRollBack
                && step != Step::Evaluate ==> did(plan, events, g, Step::Evaluate)
            &&& step == Step::ClearMarker || step == Step::RebuildBinary || step == Step::Report
                || step == Step::Improve || held_out(step) ==> did(plan, events, g, Step::Append)
            &&& step == Step::Improve ==> did(plan, events, g, Step::Report)
            &&& (step == Step::EvaluateHoldout || step == Step::AppendHoldout) && plan.build ==> did(
                plan,
                events,
                g,
                Step::BuildHoldout,
            )
            &&& step == Step::AppendHoldout ==> did(plan, events, g, Step::EvaluateHoldout)
        },
        Position::Finished => {
            &&& l.generation + 1 == plan.generations
            &&& recorded_whole(plan, events, g)
            &&& plan.holdout && plan.build ==> did(plan, events, g, Step::BuildHoldout)
            &&& plan.holdout ==> did(plan, events, g, Step::EvaluateHoldout) && did(
                plan,
                events,
                g,
                Step::AppendHoldout,
            )
        },
        _ => true,
    }
}

#[verifier::rlimit(50)]
proof fn lemma_done_so_far(plan: Plan, events: Seq<Event>)
    requires
        plan.valid(),
    ensures
        done_so_far(plan, events),
    decreases events.len(),
{
    if events.len() > 0 {
        let init = events.drop_last();
        lemma_done_so_far(plan, init);
        every_loop_is_valid(plan, init);
        let l = reached(plan, init);
        assert forall|k: nat, step: Step| did(plan, init, k, step) implies #[trigger] did(
            plan,
            events,
            k,
            step,
        ) by {
            lemma_did_before(plan, events, k, step);
        }
        if let Position::Doing(step) = l.at {
            if went_well(step, events.last()) {
                lemma_did_now(plan, events, step);
            }
        }
        assert forall|k: nat| k < reached(plan, events).generation implies #[trigger] left_behind(
            plan,
            events,
            k,
        ) by {
            if k < l.generation {
                assert(left_behind(plan, init, k));
            }
        }
    }
}

/// A loop is finished only once every one of its generations was built where it
/// builds, evaluated and put into the ledger, in a loop that edits the report and
/// the edit came between each two of them, and the holdout was built, evaluated and
/// put into the ledger where it is to be scored.
pub proof fn a_finished_loop_left_nothing_out(plan: Plan, events: Seq<Event>, g: nat)
    requires
        plan.valid(),
        reached(plan, events).at == Position::Finished,
        g < plan.generations,
    ensures
        reached(plan, events).generation + 1 == plan.generations,
        plan.build ==> did(plan, events, g, Step::Build),
        did(plan, events, g, Step::Evaluate),
        did(plan, events, g, Step::Append),
        plan.improve && g + 1 < plan.generations ==> did(plan, events, g, Step::Report) && did(
            plan,
            events,
            g,
            Step::Improve,
        ),
        plan.holdout ==> {
            let last = (plan.generations - 1) as nat;
            &&& plan.build ==> did(plan, events, last, Step::BuildHoldout)
            &&& did(plan, events, last, Step::EvaluateHoldout)
            &&& did(plan, events, last, Step::AppendHoldout)
        },
{
    lemma_done_so_far(plan, events);
    if g < reached(plan, events).generation {
        assert(left_behind(plan, events, g));
    }
}

/// A loop all of whose steps go well neither stops nor takes a candidate back, and
/// it does come to its end.
pub proof fn a_loop_that_goes_well_finishes(plan: Plan, events: Seq<Event>)
    requires
        plan.valid(),
        forall|i: int|
            0 <= i < events.len() ==> ((#[trigger] reached(plan, events.take(i))).at
                matches Position::Doing(step) ==> went_well(step, events[i])),
    ensures
        reached(plan, events).at is Doing || reached(plan, events).at == Position::Finished,
        events.len() >= plan.generations * 17 ==> reached(plan, events).at == Position::Finished,
    decreases events.len(),
{
    lemma_goes_well(plan, events);
    if events.len() >= plan.generations * 17 {
        every_loop_ends(plan, events);
    }
}

proof fn lemma_goes_well(plan: Plan, events: Seq<Event>)
    requires
        plan.valid(),
        forall|i: int|
            0 <= i < events.len() ==> ((#[trigger] reached(plan, events.take(i))).at
                matches Position::Doing(step) ==> went_well(step, events[i])),
    ensures
        reached(plan, events).at matches Position::Doing(step) ==> step != Step::RollBack && step
            != Step::ClearAfterRollBack,
        reached(plan, events).at is Doing || reached(plan, events).at == Position::Finished,
    decreases events.len(),
{
    if events.len() > 0 {
        let init = events.drop_last();
        assert forall|i: int| 0 <= i < init.len() implies ((#[trigger] reached(
            plan,
            init.take(i),
        )).at matches Position::Doing(step) ==> went_well(step, init[i])) by {
            assert(init.take(i) =~= events.take(i));
            assert(init[i] == events[i]);
        }
        lemma_goes_well(plan, init);
        every_loop_is_valid(plan, init);
        assert(events.take(events.len() - 1) =~= init);
        assert(reached(plan, events.take(events.len() - 1)).at matches Position::Doing(step)
            ==> went_well(step, events.last()));
    }
}

/// A step that did not go well stops the loop right there, but for a pending
/// candidate that cannot be built or scored; and nothing else stops it.
pub proof fn only_trouble_stops_the_loop(l: Loop, step: Step, event: Event)
    requires
        l.valid(),
        l.at == Position::Doing(step),
    ensures
        ({
            let candidate = l.pending && (step == Step::Build || step == Step::Evaluate);
            let well = match step {
                Step::Evaluate => event is Scored,
                Step::EvaluateHoldout => event is Scored,
                Step::CollectChanges => event is Changed,
                _ => event == Event::Done,
            };
            &&& followed(l, event).at == Position::Stopped(step) <==> !well && !candidate
            &&& followed(l, event).at is Stopped ==> followed(l, event).at == Position::Stopped(
                step,
            )
            &&& !well && candidate ==> followed(l, event).at == Position::Doing(Step::RollBack)
            &&& followed(l, event).at == Position::TakenBack <==> step == Step::ClearAfterRollBack
                && event == Event::Done
            &&& followed(l, event).at == Position::TakenBack ==> !followed(l, event).pending
            &&& step == Step::RollBack && well ==> followed(l, event).at == Position::Doing(
                Step::ClearAfterRollBack,
            )
        }),
{
}

/// What follows a generation that is recorded, whose binary is in place: the report
/// in a loop that edits, the next generation in one that does not, and after the last
/// generation the holdout where it is scored, or else the end.
pub open spec fn comes_next(from: Loop, next: Loop) -> bool {
    let last = from.generation + 1 == from.plan.generations;
    &&& next.plan == from.plan
    &&& (next.best_score, next.best_low) == (from.best_score, from.best_low)
    &&& !last && from.plan.improve ==> next.at == Position::Doing(Step::Report) && next.generation
        == from.generation
    &&& !last && !from.plan.improve ==> next.at == Position::Doing(
        if from.plan.build {
            Step::Build
        } else {
            Step::Evaluate
        },
    ) && next.generation == from.generation + 1
    &&& last && !from.plan.holdout ==> next.at == Position::Finished
    &&& last && from.plan.holdout ==> next.at == Position::Doing(
        if from.plan.build {
            Step::BuildHoldout
        } else {
            Step::EvaluateHoldout
        },
    )
}

/// A rejected generation is restored, its binary and its note put away, its row
/// appended, its marker removed and the restored binary built, in this order; then
/// the loop goes on as after any other generation.
pub proof fn a_rejection_does_not_end_the_loop(l: Loop)
    requires
        l.valid(),
        l.at == Position::Doing(Step::Entry),
        l.decision == Some(Decision::Reverted),
    ensures
        ({
            let restoring = followed(l, Event::Done);
            let removing = followed(restoring, Event::Done);
            let removed = followed(removing, Event::Done);
            let appending = if l.pending {
                followed(removed, Event::Done)
            } else {
                removed
            };
            let appended = followed(appending, Event::Done);
            let rebuilding = if l.pending {
                followed(appended, Event::Done)
            } else {
                appended
            };
            &&& restoring.at == Position::Doing(Step::Revert)
            &&& removing.at == Position::Doing(Step::RemoveBinary)
            &&& l.pending ==> removed.at == Position::Doing(Step::ArchiveNote)
            &&& appending.at == Position::Doing(Step::Append)
            &&& l.pending ==> appended.at == Position::Doing(Step::ClearMarker)
            &&& rebuilding.at == Position::Doing(Step::RebuildBinary)
            &&& !rebuilding.pending
            &&& comes_next(l, followed(rebuilding, Event::Done))
        }),
{
}

/// A kept generation's changes are committed, and the agent that edits next built
/// from them, before its row is appended; where there are no changes neither is done.
/// Then its marker is removed and the loop goes on.
pub proof fn a_kept_generation_is_committed_and_recorded(l: Loop, changed: bool)
    requires
        l.valid(),
        l.at == Position::Doing(Step::Entry),
        l.decision == Some(Decision::Kept) || l.decision == Some(Decision::Tie),
    ensures
        ({
            let collecting = followed(l, Event::Done);
            let collected = followed(collecting, Event::Changed(changed));
            let committed = followed(collected, Event::Done);
            let appending = if changed {
                followed(committed, Event::Done)
            } else {
                collected
            };
            let appended = followed(appending, Event::Done);
            let settled = if l.pending {
                followed(appended, Event::Done)
            } else {
                appended
            };
            &&& collecting.at == Position::Doing(Step::CollectChanges)
            &&& changed ==> collected.at == Position::Doing(Step::Commit)
            &&& changed ==> committed.at == Position::Doing(Step::RebuildHost)
            &&& appending.at == Position::Doing(Step::Append)
            &&& l.pending ==> appended.at == Position::Doing(Step::ClearMarker)
            &&& !settled.pending
            &&& comes_next(l, settled)
        }),
{
}

/// A generation that is not decided is appended, and the loop goes on.
pub proof fn an_undecided_generation_is_recorded(l: Loop)
    requires
        l.valid(),
        l.at == Position::Doing(Step::Entry),
        l.decision is None,
        !l.pending,
    ensures
        followed(l, Event::Done).at == Position::Doing(Step::Append),
        comes_next(l, followed(followed(l, Event::Done), Event::Done)),
{
}

/// After its report a generation is edited, and the next one begins: it is pending,
/// it is built, and what was built is evaluated.
pub proof fn an_edit_begins_the_next_generation(l: Loop)
    requires
        l.valid(),
        l.at == Position::Doing(Step::Report),
    ensures
        ({
            let editing = followed(l, Event::Done);
            let next = followed(editing, Event::Done);
            &&& editing.at == Position::Doing(Step::Improve)
            &&& next.at == Position::Doing(Step::Build)
            &&& next.generation == l.generation + 1
            &&& next.pending
            &&& next.decision is None
            &&& (next.best_score, next.best_low) == (l.best_score, l.best_low)
            &&& followed(next, Event::Done).at == Position::Doing(Step::Evaluate)
        }),
{
}

/// The holdout is built where the loop builds, evaluated, and appended, and then the
/// loop is finished.
pub proof fn the_holdout_is_scored_and_recorded(l: Loop, score: Double, ci_low: Double)
    requires
        l.valid(),
        l.at == Position::Doing(Step::BuildHoldout) || l.at == Position::Doing(
            Step::EvaluateHoldout,
        ),
    ensures
        ({
            let built = if l.at == Position::Doing(Step::BuildHoldout) {
                followed(l, Event::Done)
            } else {
                l
            };
            let scored = followed(built, Event::Scored { score, ci_low });
            &&& built.at == Position::Doing(Step::EvaluateHoldout)
            &&& scored.at == Position::Doing(Step::AppendHoldout)
            &&& followed(scored, Event::Done).at == Position::Finished
        }),
{
}

/// The best is that of the last generation that was not rejected: a score replaces
/// it unless it, or its lower bound, is below it in a loop that edits. Nothing but
/// a score changes the best.
pub proof fn only_a_score_that_is_not_rejected_becomes_the_best(l: Loop, event: Event)
    requires
        l.valid(),
    ensures
        ({
            let next = followed(l, event);
            match event {
                Event::Scored { score, ci_low } => if l.at == Position::Doing(Step::Evaluate) {
                    let rejected = l.plan.improve && (score.below(l.best_score) || ci_low.below(
                        l.best_low,
                    ));
                    &&& rejected ==> (next.best_score, next.best_low) == (l.best_score, l.best_low)
                    &&& !rejected ==> (next.best_score, next.best_low) == (score, ci_low)
                    &&& rejected <==> next.decision == Some(Decision::Reverted)
                } else {
                    (next.best_score, next.best_low) == (l.best_score, l.best_low)
                },
                _ => (next.best_score, next.best_low) == (l.best_score, l.best_low),
            }
        }),
{
}

proof fn lemma_no_best_yet(plan: Plan, events: Seq<Event>)
    requires
        plan.valid(),
    ensures
        ({
            let l = reached(plan, events);
            l.generation == 0 && (l.at == Position::Doing(Step::Build) || l.at == Position::Doing(
                Step::Evaluate,
            )) ==> l.best_score.bits == 0xbff0_0000_0000_0000 && l.best_low.bits
                == 0xbff0_0000_0000_0000 && !l.pending
        }),
    decreases events.len(),
{
    if events.len() > 0 {
        lemma_no_best_yet(plan, events.drop_last());
        every_loop_is_valid(plan, events.drop_last());
    }
}

/// The baseline is never rejected: whatever its score, it is kept and becomes the
/// best.
pub proof fn the_baseline_is_always_kept(
    plan: Plan,
    events: Seq<Event>,
    score: Double,
    ci_low: Double,
)
    requires
        plan.valid(),
        plan.improve,
        reached(plan, events).generation == 0,
        reached(plan, events).at == Position::Doing(Step::Evaluate),
        trial::is_probability(score),
        trial::is_probability(ci_low),
    ensures
        ({
            let next = followed(reached(plan, events), Event::Scored { score, ci_low });
            &&& next.decision == Some(Decision::Kept)
            &&& (next.best_score, next.best_low) == (score, ci_low)
        }),
{
    lemma_no_best_yet(plan, events);
    every_loop_is_valid(plan, events);
}

/// The loop is started exactly when the isolated launcher, where it is asked for, is
/// on a Mac, has its token and edits the prompt with its one model; the holdout is
/// not what it edits on; the run's own arguments hold; there is a generation; and a
/// loop that edits builds and shares no task with the holdout.
pub proof fn the_loop_starts_exactly_when_nothing_stands_against_it(
    args: IterateArgs,
    mac: bool,
    token: bool,
    tasks: Seq<Seq<char>>,
    holdout: Seq<Seq<char>>,
)
    ensures
        early_refusal(args, mac, token) is None <==> (args.meta_gateway_port is None || (mac
            && token && !args.no_improve && args.lane == Some(Lane::Prompt) && args.meta_provider@
            == "gemini"@ && (args.meta_model is None || args.meta_model->0@ == "gemini-3.8-flash"@)))
            && (args.run.slice@ != "holdout"@ || args.no_improve),
        late_refusal(args, tasks, holdout) is None <==> evolve::run_refusal(args.run, tasks) is None
            && args.generations > 0 && (args.no_improve || (!args.run.no_build && forall|task:
            Seq<char>| #[trigger]
            tasks.contains(task) ==> !holdout.contains(task))),
{
    if overlap(tasks, holdout) {
        let i = choose|i: int| 0 <= i < tasks.len() && holdout.contains(#[trigger] tasks[i]);
        assert(tasks.contains(tasks[i]));
    } else {
        assert forall|task: Seq<char>| #[trigger] tasks.contains(task) implies !holdout.contains(
            task,
        ) by {
            let i = choose|i: int| 0 <= i < tasks.len() && tasks[i] == task;
            assert(!holdout.contains(tasks[i]));
        }
    }
}

/// The loop ends on the holdout exactly when it is asked to and it developed on the dev
/// slice as a whole, not on tasks of its own choice.
pub proof fn the_holdout_follows_only_the_dev_slice(args: IterateArgs)
    ensures
        scores_holdout(args) <==> args.holdout && evolve::named_slice(args.run) == "dev"@,
        args.run.tasks@.len() > 0 ==> !scores_holdout(args),
{
    reveal_strlit("custom");
    reveal_strlit("dev");
    assert("custom"@.len() != "dev"@.len());
}

} // verus!
