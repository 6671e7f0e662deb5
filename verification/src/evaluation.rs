//! The course of an evaluation: what must hold before an image is built or a
//! trial is run, and when there is a score.

use vstd::prelude::*;
use crate::evolve;
use crate::evolve::RunArgs;
use crate::evolve::RunRefusal;
use crate::lines;
use crate::task::Task;
use crate::text;
use crate::trial::TrialRecord;

verus! {

// ---------------------------------------------------------------------------
// The course

/// What an evaluation does, one thing at a time.
#[derive(Clone, Copy, Debug, PartialEq, Eq, Structural)]
pub enum Step {
    /// Reach the daemon.
    Docker,
    /// Make the job's own directory.
    JobDir,
    /// Find the binary.
    Binary,
    /// Copy the tasks' inputs into the job.
    Snapshot,
    /// Load the tasks from there.
    Load,
    /// Hold the tasks to what a budget asks.
    Budget,
    /// Copy the binary into the job.
    CopyBinary,
    /// Look for the binary's build receipt.
    InspectReceipt,
    /// Hold the receipt to the sources and the binary.
    VerifyReceipt,
    /// Write down what is evaluated.
    Manifest,
    /// Build every task's image.
    Images,
    /// Run every trial.
    Trials,
    /// Write the summary.
    Summary,
}

/// What stands at the path of a build receipt.
#[derive(Clone, Copy, Debug, PartialEq, Eq, Structural)]
pub enum Receipt {
    Missing,
    /// Something that is no regular file.
    Irregular,
    Present,
}

/// What came of a step.
#[derive(Clone, Copy, Debug, PartialEq, Eq, Structural)]
pub enum Event {
    Done,
    Broke,
    /// Whether every task fits the budget.
    Fits(bool),
    Receipt(Receipt),
    /// How many images or trials failed.
    Failures(usize),
}

/// Why an evaluation has no score.
#[derive(Clone, Copy, Debug, PartialEq, Eq, Structural)]
pub enum Stop {
    Broke(Step),
    NoKey,
    Budget,
    IrregularReceipt,
    NoReceipt,
    Images(usize),
    Trials(usize),
}

/// What is settled about an evaluation before it starts.
#[derive(Clone, Copy, Debug, PartialEq, Eq, Structural)]
pub struct Plan {
    /// Whether the provider needs no key, or its key is set.
    pub keyed: bool,
    pub budgeted: bool,
    /// Whether the binary may be one that was not built here.
    pub no_build: bool,
}

/// Where an evaluation stands.
#[derive(Clone, Copy, Debug, PartialEq, Eq, Structural)]
pub enum Position {
    Doing(Step),
    Scored,
    Stopped(Stop),
}

/// `next` after a step that went well.
pub open spec fn onward(step: Step, event: Event, next: Step) -> Position {
    if event == Event::Done {
        Position::Doing(next)
    } else {
        Position::Stopped(Stop::Broke(step))
    }
}

/// Where an evaluation stands after its step came to `event`.
pub open spec fn moved(plan: Plan, step: Step, event: Event) -> Position {
    match step {
        Step::Docker => onward(step, event, Step::JobDir),
        Step::JobDir => if event == Event::Done && !plan.keyed {
            Position::Stopped(Stop::NoKey)
        } else {
            onward(step, event, Step::Binary)
        },
        Step::Binary => onward(step, event, Step::Snapshot),
        Step::Snapshot => onward(step, event, Step::Load),
        Step::Load => onward(
            step,
            event,
            if plan.budgeted {
                Step::Budget
            } else {
                Step::CopyBinary
            },
        ),
        Step::Budget => match event {
            Event::Fits(true) => Position::Doing(Step::CopyBinary),
            Event::Fits(false) => Position::Stopped(Stop::Budget),
            _ => Position::Stopped(Stop::Broke(step)),
        },
        Step::CopyBinary => onward(step, event, Step::InspectReceipt),
        Step::InspectReceipt => match event {
            Event::Receipt(Receipt::Present) => Position::Doing(Step::VerifyReceipt),
            Event::Receipt(Receipt::Irregular) => Position::Stopped(Stop::IrregularReceipt),
            Event::Receipt(Receipt::Missing) => if plan.no_build {
                Position::Doing(Step::Manifest)
            } else {
                Position::Stopped(Stop::NoReceipt)
            },
            _ => Position::Stopped(Stop::Broke(step)),
        },
        Step::VerifyReceipt => onward(step, event, Step::Manifest),
        Step::Manifest => onward(step, event, Step::Images),
        Step::Images => match event {
            Event::Failures(n) => if n == 0 {
                Position::Doing(Step::Trials)
            } else {
                Position::Stopped(Stop::Images(n))
            },
            _ => Position::Stopped(Stop::Broke(step)),
        },
        Step::Trials => match event {
            Event::Failures(n) => if n == 0 {
                Position::Doing(Step::Summary)
            } else {
                Position::Stopped(Stop::Trials(n))
            },
            _ => Position::Stopped(Stop::Broke(step)),
        },
        Step::Summary => if event == Event::Done {
            Position::Scored
        } else {
            Position::Stopped(Stop::Broke(step))
        },
    }
}

/// Where an evaluation stands after one more event; one that is over stays
/// there.
pub open spec fn followed(plan: Plan, at: Position, event: Event) -> Position {
    match at {
        Position::Doing(step) => moved(plan, step, event),
        _ => at,
    }
}

/// Where an evaluation stands after the events.
pub open spec fn reached(plan: Plan, events: Seq<Event>) -> Position
    decreases events.len(),
{
    if events.len() == 0 {
        Position::Doing(Step::Docker)
    } else {
        followed(plan, reached(plan, events.drop_last()), events.last())
    }
}

/// Where an evaluation of the tasks starts, or why it does not: its arguments are
/// held to the rules before anything else.
pub open spec fn starting(args: RunArgs, tasks: Seq<Seq<char>>) -> Result<Position, RunRefusal> {
    match evolve::run_refusal(args, tasks) {
        Some(refusal) => Err(refusal),
        None => Ok(Position::Doing(Step::Docker)),
    }
}

/// Where an evaluation of the tasks starts, or why it does not.
pub fn begin(args: &RunArgs, tasks: &[String]) -> (out: Result<Position, RunRefusal>)
    ensures
        out == starting(*args, text::views(tasks@)),
        out == Ok::<Position, RunRefusal>(Position::Doing(Step::Docker)) <==> evolve::run_refusal(
            *args,
            text::views(tasks@),
        ) is None,
{
    match evolve::validate_run(args, tasks) {
        Ok(()) => Ok(Position::Doing(Step::Docker)),
        Err(refusal) => Err(refusal),
    }
}

fn proceed(step: Step, event: Event, next: Step) -> (out: Position)
    ensures
        out == onward(step, event, next),
{
    if event == Event::Done {
        Position::Doing(next)
    } else {
        Position::Stopped(Stop::Broke(step))
    }
}

/// Where an evaluation stands after what came of its step.
pub fn follow(plan: Plan, at: Position, event: Event) -> (out: Position)
    ensures
        out == followed(plan, at, event),
{
    let step: Step = match at {
        Position::Doing(step) => step,
        _ => {
            return at;
        },
    };
    match step {
        Step::Docker => proceed(step, event, Step::JobDir),
        Step::JobDir => {
            if event == Event::Done && !plan.keyed {
                Position::Stopped(Stop::NoKey)
            } else {
                proceed(step, event, Step::Binary)
            }
        },
        Step::Binary => proceed(step, event, Step::Snapshot),
        Step::Snapshot => proceed(step, event, Step::Load),
        Step::Load => {
            if plan.budgeted {
                proceed(step, event, Step::Budget)
            } else {
                proceed(step, event, Step::CopyBinary)
            }
        },
        Step::Budget => match event {
            Event::Fits(fits) => {
                if fits {
                    Position::Doing(Step::CopyBinary)
                } else {
                    Position::Stopped(Stop::Budget)
                }
            },
            _ => Position::Stopped(Stop::Broke(step)),
        },
        Step::CopyBinary => proceed(step, event, Step::InspectReceipt),
        Step::InspectReceipt => match event {
            Event::Receipt(Receipt::Present) => Position::Doing(Step::VerifyReceipt),
            Event::Receipt(Receipt::Irregular) => Position::Stopped(Stop::IrregularReceipt),
            Event::Receipt(Receipt::Missing) => {
                if plan.no_build {
                    Position::Doing(Step::Manifest)
                } else {
                    Position::Stopped(Stop::NoReceipt)
                }
            },
            _ => Position::Stopped(Stop::Broke(step)),
        },
        Step::VerifyReceipt => proceed(step, event, Step::Manifest),
        Step::Manifest => proceed(step, event, Step::Images),
        Step::Images => match event {
            Event::Failures(n) => {
                if n == 0 {
                    Position::Doing(Step::Trials)
                } else {
                    Position::Stopped(Stop::Images(n))
                }
            },
            _ => Position::Stopped(Stop::Broke(step)),
        },
        Step::Trials => match event {
            Event::Failures(n) => {
                if n == 0 {
                    Position::Doing(Step::Summary)
                } else {
                    Position::Stopped(Stop::Trials(n))
                }
            },
            _ => Position::Stopped(Stop::Broke(step)),
        },
        Step::Summary => {
            if event == Event::Done {
                Position::Scored
            } else {
                Position::Stopped(Stop::Broke(step))
            }
        },
    }
}

// ---------------------------------------------------------------------------
// What every evaluation keeps to

/// Whether the evaluation took `step` and it came to `event`.
pub open spec fn took(plan: Plan, events: Seq<Event>, step: Step, event: Event) -> bool {
    exists|i: int| #[trigger] took_at(plan, events, step, event, i)
}

pub open spec fn took_at(plan: Plan, events: Seq<Event>, step: Step, event: Event, i: int) -> bool {
    0 <= i < events.len() && events[i] == event && reached(plan, events.take(i))
        == Position::Doing(step)
}

proof fn lemma_took_now(plan: Plan, events: Seq<Event>, step: Step)
    requires
        events.len() > 0,
        reached(plan, events.drop_last()) == Position::Doing(step),
    ensures
        took(plan, events, step, events.last()),
{
    assert(events.take(events.len() - 1) =~= events.drop_last());
    assert(took_at(plan, events, step, events.last(), events.len() - 1));
}

proof fn lemma_took_before(plan: Plan, events: Seq<Event>, step: Step, event: Event)
    requires
        events.len() > 0,
        took(plan, events.drop_last(), step, event),
    ensures
        took(plan, events, step, event),
{
    let i = choose|i: int| #[trigger] took_at(plan, events.drop_last(), step, event, i);
    assert(events.drop_last().take(i) =~= events.take(i));
    assert(took_at(plan, events, step, event, i));
}

/// Docker is reached only by an evaluation whose arguments the rules accept: where
/// they refuse them there is no course at all, and every course begins there.
pub proof fn docker_is_not_reached_with_refused_arguments(
    args: RunArgs,
    tasks: Seq<Seq<char>>,
    plan: Plan,
)
    ensures
        starting(args, tasks) is Err <==> evolve::run_refusal(args, tasks) is Some,
        starting(args, tasks) matches Ok(at) ==> at == reached(plan, Seq::empty()) && at
            == Position::Doing(Step::Docker),
{
}

/// The order of the steps.
pub open spec fn turn(step: Step) -> nat {
    match step {
        Step::Docker => 0,
        Step::JobDir => 1,
        Step::Binary => 2,
        Step::Snapshot => 3,
        Step::Load => 4,
        Step::Budget => 5,
        Step::CopyBinary => 6,
        Step::InspectReceipt => 7,
        Step::VerifyReceipt => 8,
        Step::Manifest => 9,
        Step::Images => 10,
        Step::Trials => 11,
        Step::Summary => 12,
    }
}

/// Whether the binary is bound to its sources, or need not be.
pub open spec fn bound(plan: Plan, events: Seq<Event>) -> bool {
    took(plan, events, Step::VerifyReceipt, Event::Done) || (plan.no_build && took(
        plan,
        events,
        Step::InspectReceipt,
        Event::Receipt(Receipt::Missing),
    ))
}

/// What has been done by the time a step is taken.
pub open spec fn done_before(plan: Plan, events: Seq<Event>, turn_of: nat) -> bool {
    &&& turn_of > turn(Step::JobDir) ==> plan.keyed
    &&& turn_of > turn(Step::Snapshot) ==> took(plan, events, Step::Snapshot, Event::Done)
    &&& turn_of > turn(Step::Load) ==> took(plan, events, Step::Load, Event::Done)
    &&& turn_of > turn(Step::Budget) && plan.budgeted ==> took(
        plan,
        events,
        Step::Budget,
        Event::Fits(true),
    )
    &&& turn_of > turn(Step::CopyBinary) ==> took(plan, events, Step::CopyBinary, Event::Done)
    &&& turn_of > turn(Step::VerifyReceipt) ==> bound(plan, events)
    &&& turn_of > turn(Step::Images) ==> took(plan, events, Step::Images, Event::Failures(0))
    &&& turn_of > turn(Step::Trials) ==> took(plan, events, Step::Trials, Event::Failures(0))
}

proof fn lemma_done(plan: Plan, events: Seq<Event>)
    ensures
        reached(plan, events) matches Position::Doing(step) ==> done_before(
            plan,
            events,
            turn(step),
        ),
        reached(plan, events) == Position::Scored ==> done_before(plan, events, 13),
    decreases events.len(),
{
    if events.len() > 0 {
        let init = events.drop_last();
        lemma_done(plan, init);
        assert forall|step: Step, e: Event| took(plan, init, step, e) implies #[trigger] took(
            plan,
            events,
            step,
            e,
        ) by {
            lemma_took_before(plan, events, step, e);
        }
        if let Position::Doing(step) = reached(plan, init) {
            lemma_took_now(plan, events, step);
        }
    }
}

/// No image is built before the tasks were loaded from the job's own copies,
/// they fit the budget if there is one, the job has its own copy of the binary,
/// and that is bound to its sources or need not be.
pub proof fn nothing_is_built_before_the_inputs_are_checked(plan: Plan, events: Seq<Event>)
    requires
        reached(plan, events) == Position::Doing(Step::Images),
    ensures
        plan.keyed,
        took(plan, events, Step::Snapshot, Event::Done),
        took(plan, events, Step::Load, Event::Done),
        plan.budgeted ==> took(plan, events, Step::Budget, Event::Fits(true)),
        took(plan, events, Step::CopyBinary, Event::Done),
        bound(plan, events),
{
    lemma_done(plan, events);
}

/// No trial is run unless every image was built.
pub proof fn trials_need_every_image(plan: Plan, events: Seq<Event>)
    requires
        reached(plan, events) == Position::Doing(Step::Trials),
    ensures
        took(plan, events, Step::Images, Event::Failures(0)),
        bound(plan, events),
{
    lemma_done(plan, events);
}

/// There is a score only where every image was built and no trial failed.
pub proof fn an_incomplete_evaluation_has_no_score(plan: Plan, events: Seq<Event>)
    requires
        reached(plan, events) == Position::Scored,
    ensures
        took(plan, events, Step::Images, Event::Failures(0)),
        took(plan, events, Step::Trials, Event::Failures(0)),
        bound(plan, events),
{
    lemma_done(plan, events);
}

/// No step is taken twice or after a later one.
pub proof fn steps_never_go_back(plan: Plan, at: Position, event: Event)
    ensures
        at matches Position::Doing(step) ==> (followed(plan, at, event) matches Position::Doing(
            next,
        ) ==> turn(next) > turn(step)),
{
}

// ---------------------------------------------------------------------------
// Trials

/// Whether the host can score every task, within the longest that a budgeted
/// trial may run.
pub open spec fn tasks_fit(tasks: Seq<Task>) -> bool {
    forall|i: int|
        0 <= i < tasks.len() ==> ((#[trigger] tasks[i]).output_line is Some || tasks[i].polyglot)
            && tasks[i].agent_timeout_secs <= 7200
}

/// Whether the host can score every task, within the longest that a budgeted
/// trial may run.
pub fn budget_fits(tasks: &[Task]) -> (r: bool)
    ensures
        r == tasks_fit(tasks@),
{
    let n: usize = tasks.len();
    for i in 0..n
        invariant
            n == tasks@.len(),
            forall|j: int|
                0 <= j < i ==> ((#[trigger] tasks@[j]).output_line is Some || tasks@[j].polyglot)
                    && tasks@[j].agent_timeout_secs <= 7200,
    {
        if !((tasks[i].output_line.is_some() || tasks[i].polyglot) && tasks[i].agent_timeout_secs
            <= 7200) {
            return false;
        }
    }
    true
}

/// The attempt and the task of each trial, in the order in which they are
/// taken up: every task once before any is tried again.
pub fn schedule(attempts: usize, tasks: usize) -> (out: Vec<(usize, usize)>)
    requires
        attempts * tasks <= usize::MAX,
        attempts < usize::MAX,
    ensures
        out@.len() == attempts * tasks,
        forall|a: int, t: int|
            0 <= a < attempts && 0 <= t < tasks ==> #[trigger] out@[a * tasks + t] == (
                (a + 1) as usize,
                t as usize,
            ),
{
    let mut out: Vec<(usize, usize)> = Vec::new();
    let mut a: usize = 0;
    assert(0 * tasks == 0) by (nonlinear_arith);
    while a < attempts
        invariant
            attempts < usize::MAX,
            a <= attempts,
            out@.len() == a * tasks,
            forall|b: int, t: int|
                0 <= b < a && 0 <= t < tasks ==> #[trigger] out@[b * tasks + t] == (
                    (b + 1) as usize,
                    t as usize,
                ),
        decreases attempts - a,
    {
        let ghost whole = out@;
        let mut t: usize = 0;
        while t < tasks
            invariant
                attempts < usize::MAX,
                a < attempts,
                t <= tasks,
                whole.len() == a * tasks,
                out@.len() == a * tasks + t,
                forall|k: int| 0 <= k < whole.len() ==> out@[k] == whole[k],
                forall|k: int|
                    0 <= k < t ==> #[trigger] out@[a * tasks + k] == ((a + 1) as usize, k as usize),
            decreases tasks - t,
        {
            let ghost before = out@;
            out.push((a + 1, t));
            assert forall|k: int| 0 <= k < t + 1 implies #[trigger] out@[a * tasks + k] == (
                (a + 1) as usize,
                k as usize,
            ) by {
                if k < t {
                    assert(before[a * tasks + k] == ((a + 1) as usize, k as usize));
                }
            }
            t += 1;
        }
        proof {
            assert((a + 1) * tasks == a * tasks + tasks) by (nonlinear_arith);
            assert forall|b: int, k: int| 0 <= b < a + 1 && 0 <= k < tasks implies #[trigger] out@[b
                * tasks + k] == ((b + 1) as usize, k as usize) by {
                if b < a {
                    assert(b * tasks + k < a * tasks) by (nonlinear_arith)
                        requires
                            0 <= b < a,
                            0 <= k < tasks,
                    ;
                    assert(0 <= b * tasks) by (nonlinear_arith)
                        requires
                            0 <= b,
                            0 <= tasks,
                    ;
                    assert(whole[b * tasks + k] == ((b + 1) as usize, k as usize));
                    assert(out@[b * tasks + k] == whole[b * tasks + k]);
                }
            }
        }
        a += 1;
    }
    out
}

/// What is said of the trials that failed, in order.
pub open spec fn failures(records: Seq<TrialRecord>) -> Seq<Seq<char>>
    decreases records.len(),
{
    if records.len() == 0 {
        Seq::empty()
    } else {
        let before = failures(records.drop_last());
        match records.last().error {
            Some(error) => before.push(
                records.last().task@ + "#"@ + lines::digits(records.last().attempt as nat) + ": "@
                    + error@,
            ),
            None => before,
        }
    }
}

/// What is said of the trials that failed, in order.
pub fn trial_failures(records: &[TrialRecord]) -> (out: Vec<String>)
    ensures
        text::views(out@) == failures(records@),
{
    let n: usize = records.len();
    let mut out: Vec<String> = Vec::new();
    assert(text::views(out@) =~= failures(records@.take(0)));
    for i in 0..n
        invariant
            n == records@.len(),
            text::views(out@) == failures(records@.take(i as int)),
    {
        assert(records@.take(i + 1).drop_last() =~= records@.take(i as int));
        if let Some(error) = &records[i].error {
            let mut said: String = records[i].task.clone();
            said.append("#");
            let shown: String = lines::count(records[i].attempt);
            said.append(shown.as_str());
            said.append(": ");
            said.append(error.as_str());
            proof {
                text::lemma_views_push(out@, said);
            }
            out.push(said);
        }
    }
    assert(records@.take(n as int) =~= records@);
    out
}

/// What is said of an evaluation whose image builds or trials failed.
pub open spec fn incomplete_text(trials: bool, errors: Seq<Seq<char>>) -> Seq<char> {
    (if trials {
        "evaluation incomplete: trial infrastructure failed:\n"@
    } else {
        "evaluation incomplete: image builds failed:\n"@
    }) + lines::joined(errors, "\n"@)
}

/// What is said of an evaluation whose image builds or trials failed.
pub fn incomplete_message(trials: bool, errors: &[String]) -> (out: String)
    ensures
        out@ == incomplete_text(trials, text::views(errors@)),
{
    let mut out: String = if trials {
        "evaluation incomplete: trial infrastructure failed:\n".to_owned()
    } else {
        "evaluation incomplete: image builds failed:\n".to_owned()
    };
    let all: String = lines::join(errors, "\n");
    out.append(all.as_str());
    out
}

/// What is said of an evaluation that the rules stopped, given the variable that
/// its provider's key is kept in and what failed. Of one that a step broke,
/// nothing: the step's own error says it.
pub open spec fn stop_text(stop: Stop, key: Option<Seq<char>>, errors: Seq<Seq<char>>) -> Option<
    Seq<char>,
> {
    match stop {
        Stop::Broke(_) => None,
        Stop::NoKey => Some(
            (match key {
                Some(name) => name,
                None => "the provider key"@,
            }) + " is not set"@,
        ),
        Stop::Budget => Some(
            "budgeted trials require trusted host scoring and timeouts at most 7200 seconds"@,
        ),
        Stop::IrregularReceipt => Some("build receipt must be a regular file"@),
        Stop::NoReceipt => Some("normal evaluation requires a build receipt"@),
        Stop::Images(_) => Some(incomplete_text(false, errors)),
        Stop::Trials(_) => Some(incomplete_text(true, errors)),
    }
}

impl Stop {
    /// What is said of an evaluation that the rules stopped.
    pub fn message(self, key: Option<&str>, errors: &[String]) -> (out: Option<String>)
        ensures
            text::opt(out) == stop_text(
                self,
                match key {
                    Some(name) => Some(name@),
                    None => None,
                },
                text::views(errors@),
            ),
    {
        match self {
            Stop::Broke(_) => None,
            Stop::NoKey => {
                let mut out: String = match key {
                    Some(name) => name.to_owned(),
                    None => "the provider key".to_owned(),
                };
                out.append(" is not set");
                Some(out)
            },
            Stop::Budget => Some(
                "budgeted trials require trusted host scoring and timeouts at most 7200 seconds".to_owned(),
            ),
            Stop::IrregularReceipt => Some("build receipt must be a regular file".to_owned()),
            Stop::NoReceipt => Some("normal evaluation requires a build receipt".to_owned()),
            Stop::Images(_) => Some(incomplete_message(false, errors)),
            Stop::Trials(_) => Some(incomplete_message(true, errors)),
        }
    }
}

// ---------------------------------------------------------------------------
// What a whole evaluation does

/// An evaluation whose every step goes well takes them all, in this order, and is
/// scored: with the key there, the tasks held to the budget where there is one, and the
/// receipt held to the sources, or none there where none is needed.
pub proof fn an_evaluation_that_goes_well_is_scored(plan: Plan, receipt: Receipt)
    requires
        plan.keyed,
        receipt == Receipt::Present || (receipt == Receipt::Missing && plan.no_build),
    ensures
        ({
            let done = Event::Done;
            let job = followed(plan, Position::Doing(Step::Docker), done);
            let binary = followed(plan, job, done);
            let snapshot = followed(plan, binary, done);
            let load = followed(plan, snapshot, done);
            let loaded = followed(plan, load, done);
            let copying = if plan.budgeted {
                followed(plan, loaded, Event::Fits(true))
            } else {
                loaded
            };
            let inspecting = followed(plan, copying, done);
            let inspected = followed(plan, inspecting, Event::Receipt(receipt));
            let manifest = if receipt == Receipt::Present {
                followed(plan, inspected, done)
            } else {
                inspected
            };
            let images = followed(plan, manifest, done);
            let trials = followed(plan, images, Event::Failures(0));
            let summary = followed(plan, trials, Event::Failures(0));
            &&& job == Position::Doing(Step::JobDir)
            &&& binary == Position::Doing(Step::Binary)
            &&& snapshot == Position::Doing(Step::Snapshot)
            &&& load == Position::Doing(Step::Load)
            &&& plan.budgeted ==> loaded == Position::Doing(Step::Budget)
            &&& copying == Position::Doing(Step::CopyBinary)
            &&& inspecting == Position::Doing(Step::InspectReceipt)
            &&& receipt == Receipt::Present ==> inspected == Position::Doing(Step::VerifyReceipt)
            &&& manifest == Position::Doing(Step::Manifest)
            &&& images == Position::Doing(Step::Images)
            &&& trials == Position::Doing(Step::Trials)
            &&& summary == Position::Doing(Step::Summary)
            &&& followed(plan, summary, done) == Position::Scored
        }),
{
}

/// Whatever is missing or fails stops the evaluation there and says what it was: a
/// missing key, a task beyond the budget, a receipt that is missing where it is needed
/// or is no file, images or trials that failed and how many, or the step that broke.
pub proof fn what_fails_stops_the_evaluation(plan: Plan, step: Step, event: Event, n: usize)
    ensures
        !plan.keyed ==> followed(plan, Position::Doing(Step::JobDir), Event::Done)
            == Position::Stopped(Stop::NoKey),
        followed(plan, Position::Doing(Step::Budget), Event::Fits(false)) == Position::Stopped(
            Stop::Budget,
        ),
        followed(
            plan,
            Position::Doing(Step::InspectReceipt),
            Event::Receipt(Receipt::Irregular),
        ) == Position::Stopped(Stop::IrregularReceipt),
        !plan.no_build ==> followed(
            plan,
            Position::Doing(Step::InspectReceipt),
            Event::Receipt(Receipt::Missing),
        ) == Position::Stopped(Stop::NoReceipt),
        n > 0 ==> followed(plan, Position::Doing(Step::Images), Event::Failures(n))
            == Position::Stopped(Stop::Images(n)),
        n > 0 ==> followed(plan, Position::Doing(Step::Trials), Event::Failures(n))
            == Position::Stopped(Stop::Trials(n)),
        event == Event::Broke ==> followed(plan, Position::Doing(step), event)
            == Position::Stopped(Stop::Broke(step)),
        step != Step::Budget && step != Step::InspectReceipt && step != Step::Images && step
            != Step::Trials && event != Event::Done ==> followed(plan, Position::Doing(step), event)
            == Position::Stopped(Stop::Broke(step)),
{
}

/// Every trial with an error is named, with its task, its attempt and the error, in the
/// order of the trials; and no other is.
pub proof fn every_failed_trial_is_named(records: Seq<TrialRecord>, i: int)
    ensures
        failures(records) == records.filter(|r: TrialRecord| r.error is Some).map_values(
            |r: TrialRecord|
                r.task@ + "#"@ + lines::digits(r.attempt as nat) + ": "@ + r.error->0@,
        ),
        0 <= i < failures(records).len() ==> text::occurs(
            incomplete_text(true, failures(records)),
            failures(records)[i],
        ),
    decreases records.len(),
{
    reveal(Seq::filter);
    let told = |r: TrialRecord|
        r.task@ + "#"@ + lines::digits(r.attempt as nat) + ": "@ + r.error->0@;
    if records.len() > 0 {
        every_failed_trial_is_named(records.drop_last(), i);
    }
    assert(failures(records) =~= records.filter(
        |r: TrialRecord| r.error is Some,
    ).map_values(told));
    an_incomplete_evaluation_says_what_failed(failures(records), i);
}

/// What is said of an incomplete evaluation holds every error, of an image's build as of
/// a trial.
pub proof fn an_incomplete_evaluation_says_what_failed(errors: Seq<Seq<char>>, i: int)
    ensures
        0 <= i < errors.len() ==> text::occurs(incomplete_text(true, errors), errors[i])
            && text::occurs(incomplete_text(false, errors), errors[i]),
        text::occurs(
            incomplete_text(true, errors),
            "evaluation incomplete: trial infrastructure failed:\n"@,
        ),
        text::occurs(
            incomplete_text(false, errors),
            "evaluation incomplete: image builds failed:\n"@,
        ),
        stop_text(Stop::Images(errors.len() as usize), None, errors) == Some(
            incomplete_text(false, errors),
        ),
        stop_text(Stop::Trials(errors.len() as usize), None, errors) == Some(
            incomplete_text(true, errors),
        ),
{
    let none = Seq::<char>::empty();
    let all = lines::joined(errors, "\n"@);
    let trials = "evaluation incomplete: trial infrastructure failed:\n"@;
    let images = "evaluation incomplete: image builds failed:\n"@;
    assert(trials + all + none =~= incomplete_text(true, errors));
    assert(images + all + none =~= incomplete_text(false, errors));
    assert(none + trials + all =~= incomplete_text(true, errors));
    assert(none + images + all =~= incomplete_text(false, errors));
    text::lemma_occurs_between(none, trials, all);
    text::lemma_occurs_between(none, images, all);
    if 0 <= i < errors.len() {
        lines::joining_leaves_no_part_out(errors, "\n"@, none, i);
        text::lemma_occurs_within(trials, all, none, errors[i]);
        text::lemma_occurs_within(images, all, none, errors[i]);
    }
}

/// Tasks fit a budget exactly when each of them does on its own: the host scores it, by
/// its output line or as a polyglot one, and its agent has at most two hours.
pub proof fn each_task_must_fit_the_budget(tasks: Seq<Task>, task: Task)
    ensures
        tasks_fit(Seq::empty()),
        tasks_fit(tasks.push(task)) <==> tasks_fit(tasks) && (task.output_line is Some
            || task.polyglot) && task.agent_timeout_secs <= 2 * 60 * 60,
{
    let more = tasks.push(task);
    if tasks_fit(more) {
        assert forall|i: int| 0 <= i < tasks.len() implies ((#[trigger] tasks[i]).output_line
            is Some || tasks[i].polyglot) && tasks[i].agent_timeout_secs <= 7200 by {
            assert(more[i] == tasks[i]);
        }
        assert(more[tasks.len() as int] == task);
    }
    if tasks_fit(tasks) && (task.output_line is Some || task.polyglot)
        && task.agent_timeout_secs <= 7200 {
        assert forall|i: int| 0 <= i < more.len() implies ((#[trigger] more[i]).output_line
            is Some || more[i].polyglot) && more[i].agent_timeout_secs <= 7200 by {
            if i < tasks.len() {
                assert(more[i] == tasks[i]);
            }
        }
    }
}

/// An evaluation that the rules stopped says why: the variable that is not set, the
/// budget's demands, or the receipt's; of one that a step broke, the step's own error says
/// it.
pub proof fn a_stopped_evaluation_says_why(
    step: Step,
    key: Seq<char>,
    errors: Seq<Seq<char>>,
)
    ensures
        stop_text(Stop::NoKey, Some(key), errors) == Some(key + " is not set"@),
        stop_text(Stop::NoKey, None, errors) == Some("the provider key"@ + " is not set"@),
        stop_text(Stop::Budget, None, errors) == Some(
            "budgeted trials require trusted host scoring and timeouts at most 7200 seconds"@,
        ),
        stop_text(Stop::IrregularReceipt, None, errors) == Some(
            "build receipt must be a regular file"@,
        ),
        stop_text(Stop::NoReceipt, None, errors) == Some(
            "normal evaluation requires a build receipt"@,
        ),
        stop_text(Stop::Broke(step), Some(key), errors) is None,
{
}

} // verus!
