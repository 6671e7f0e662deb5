//! The course of a run on its own: what is looked at before anything is built, and
//! when the ledger gets its one row.

use vstd::prelude::*;
use crate::evolve::RunRefusal;

verus! {

/// What a run does, one thing at a time.
#[derive(Clone, Copy, Debug, PartialEq, Eq, Structural)]
pub enum Step {
    /// Look for the marker of an unfinished self-improvement.
    Marker,
    /// Read the tasks, and hold the run to its rules.
    Tasks,
    /// Build the benchmarked binary.
    Build,
    /// Evaluate it.
    Evaluate,
    /// Append the row to the ledger.
    Append,
}

/// What came of a step.
#[derive(Clone, Copy, Debug, PartialEq, Eq, Structural)]
pub enum Event {
    Done,
    Broke,
    /// Whether the marker stands.
    Marked(bool),
    /// What the run is refused for, if anything.
    Checked(Option<RunRefusal>),
}

/// Where a run stands.
#[derive(Clone, Copy, Debug, PartialEq, Eq, Structural)]
pub enum Position {
    Doing(Step),
    Finished,
    /// The step could not be carried out.
    Stopped(Step),
    /// A self-improvement is unfinished, and its marker stays.
    Blocked,
    Refused(RunRefusal),
}

/// Where a run stands after its step came to `event`; `build` says whether it
/// builds the benchmarked binary.
pub open spec fn moved(build: bool, step: Step, event: Event) -> Position {
    match step {
        Step::Marker => match event {
            Event::Marked(true) => Position::Blocked,
            Event::Marked(false) => Position::Doing(Step::Tasks),
            _ => Position::Stopped(step),
        },
        Step::Tasks => match event {
            Event::Checked(Some(refusal)) => Position::Refused(refusal),
            Event::Checked(None) => if build {
                Position::Doing(Step::Build)
            } else {
                Position::Doing(Step::Evaluate)
            },
            _ => Position::Stopped(step),
        },
        Step::Build => if event == Event::Done {
            Position::Doing(Step::Evaluate)
        } else {
            Position::Stopped(step)
        },
        Step::Evaluate => if event == Event::Done {
            Position::Doing(Step::Append)
        } else {
            Position::Stopped(step)
        },
        Step::Append => if event == Event::Done {
            Position::Finished
        } else {
            Position::Stopped(step)
        },
    }
}

/// Where a run stands after one more event; one that is over stays there.
pub open spec fn followed(build: bool, at: Position, event: Event) -> Position {
    match at {
        Position::Doing(step) => moved(build, step, event),
        _ => at,
    }
}

/// Where a run stands after the events.
pub open spec fn reached(build: bool, events: Seq<Event>) -> Position
    decreases events.len(),
{
    if events.len() == 0 {
        Position::Doing(Step::Marker)
    } else {
        followed(build, reached(build, events.drop_last()), events.last())
    }
}

/// Where a run stands before its first step.
pub fn begin() -> (out: Position)
    ensures
        out == Position::Doing(Step::Marker),
{
    Position::Doing(Step::Marker)
}

/// Where a run stands after what came of its step.
pub fn follow(build: bool, at: Position, event: Event) -> (out: Position)
    ensures
        out == followed(build, at, event),
{
    let step: Step = match at {
        Position::Doing(step) => step,
        _ => {
            return at;
        },
    };
    let done: bool = event == Event::Done;
    match step {
        Step::Marker => match event {
            Event::Marked(marked) => {
                if marked {
                    Position::Blocked
                } else {
                    Position::Doing(Step::Tasks)
                }
            },
            _ => Position::Stopped(step),
        },
        Step::Tasks => match event {
            Event::Checked(Some(refusal)) => Position::Refused(refusal),
            Event::Checked(None) => {
                if build {
                    Position::Doing(Step::Build)
                } else {
                    Position::Doing(Step::Evaluate)
                }
            },
            _ => Position::Stopped(step),
        },
        Step::Build => {
            if done {
                Position::Doing(Step::Evaluate)
            } else {
                Position::Stopped(step)
            }
        },
        Step::Evaluate => {
            if done {
                Position::Doing(Step::Append)
            } else {
                Position::Stopped(step)
            }
        },
        Step::Append => {
            if done {
                Position::Finished
            } else {
                Position::Stopped(step)
            }
        },
    }
}

/// What is said of a run that an unfinished self-improvement blocks; `marker` is
/// where it is recorded.
pub fn blocked_message(marker: &str) -> (out: String)
    ensures
        out@ == "unfinished self-improvement recorded at "@ + marker@
            + "; inspect and recover source, index and binary before removing this marker"@,
{
    let mut out: String = "unfinished self-improvement recorded at ".to_owned();
    out.append(marker);
    out.append("; inspect and recover source, index and binary before removing this marker");
    out
}

// ---------------------------------------------------------------------------
// What every run keeps to

/// How many rows the events have put into the ledger.
pub open spec fn rows_appended(build: bool, events: Seq<Event>) -> nat
    decreases events.len(),
{
    if events.len() == 0 {
        0
    } else {
        rows_appended(build, events.drop_last()) + if reached(build, events.drop_last())
            == Position::Doing(Step::Append) && events.last() == Event::Done {
            1nat
        } else {
            0nat
        }
    }
}

/// A run that finishes has put exactly one row into the ledger, and any other run
/// none.
pub proof fn one_row_if_and_only_if_finished(build: bool, events: Seq<Event>)
    ensures
        rows_appended(build, events) == if reached(build, events) == Position::Finished {
            1nat
        } else {
            0nat
        },
    decreases events.len(),
{
    if events.len() > 0 {
        one_row_if_and_only_if_finished(build, events.drop_last());
    }
}

/// While a marker stands nothing is read, built, evaluated or recorded, whatever
/// else happens.
pub proof fn a_marker_blocks_the_run(build: bool, events: Seq<Event>)
    requires
        events.len() > 0,
        events[0] == Event::Marked(true),
    ensures
        reached(build, events) == Position::Blocked,
    decreases events.len(),
{
    if events.len() > 1 {
        assert(events.drop_last()[0] == events[0]);
        a_marker_blocks_the_run(build, events.drop_last());
    } else {
        assert(events.drop_last() =~= Seq::empty());
        assert(events.last() == events[0]);
        assert(reached(build, events.drop_last()) == Position::Doing(Step::Marker));
    }
}

/// Whether the events hold one that found no marker and one that refused nothing,
/// in this order at their head.
pub open spec fn cleared(events: Seq<Event>) -> bool {
    events.len() >= 2 && events[0] == Event::Marked(false) && events[1] == Event::Checked(None)
}

/// Nothing is built or evaluated before the marker was looked for and the run was
/// held to its rules.
pub proof fn nothing_is_built_before_the_checks(build: bool, events: Seq<Event>)
    ensures
        reached(build, events) matches Position::Doing(step) ==> match step {
            Step::Marker => events.len() == 0,
            Step::Tasks => events.len() == 1 && events[0] == Event::Marked(false),
            _ => cleared(events),
        },
    decreases events.len(),
{
    if events.len() > 0 {
        nothing_is_built_before_the_checks(build, events.drop_last());
        let before = events.drop_last();
        if before.len() >= 1 {
            assert(before[0] == events[0]);
        }
        if before.len() >= 2 {
            assert(before[1] == events[1]);
        }
    }
}

/// A run that finds no marker and is refused nothing builds where it is to, evaluates,
/// and puts its row into the ledger; then it is finished.
pub proof fn a_run_that_goes_well_is_recorded(build: bool)
    ensures
        ({
            let tasks = followed(build, Position::Doing(Step::Marker), Event::Marked(false));
            let checked = followed(build, tasks, Event::Checked(None));
            let evaluating = if build {
                followed(build, checked, Event::Done)
            } else {
                checked
            };
            let appending = followed(build, evaluating, Event::Done);
            &&& tasks == Position::Doing(Step::Tasks)
            &&& build ==> checked == Position::Doing(Step::Build)
            &&& evaluating == Position::Doing(Step::Evaluate)
            &&& appending == Position::Doing(Step::Append)
            &&& followed(build, appending, Event::Done) == Position::Finished
        }),
{
}

/// A run that is refused says why and does nothing more; a step that breaks stops the
/// run there; and a run that is over stays as it is.
pub proof fn a_run_stops_where_it_fails(
    build: bool,
    step: Step,
    refusal: RunRefusal,
    at: Position,
    event: Event,
)
    ensures
        followed(build, Position::Doing(Step::Tasks), Event::Checked(Some(refusal)))
            == Position::Refused(refusal),
        followed(build, Position::Doing(step), Event::Broke) == Position::Stopped(step),
        step != Step::Marker && step != Step::Tasks && event != Event::Done ==> followed(
            build,
            Position::Doing(step),
            event,
        ) == Position::Stopped(step),
        !(at is Doing) ==> followed(build, at, event) == at,
{
}

} // verus!
