//! The course of one self-edit: when a candidate is handed on to be scored,
//! when it is taken back, and when its recovery marker stays for a person to
//! look at.

use vstd::prelude::*;
use crate::lines;
use crate::text;

verus! {

/// What a self-edit does, one thing at a time.
#[derive(Clone, Copy, Debug, PartialEq, Eq, Structural)]
pub enum Step {
    /// Look at the repository before anything is changed.
    Baseline,
    /// Leave the recovery marker.
    Mark,
    /// Run the agent that edits, or the launcher that proposes a prompt.
    Edit,
    /// Look at the repository again.
    Compare,
    /// Restore what the agent may not change.
    Clean,
    /// Put the ledger back as it was.
    RestoreLedger,
    /// See that the workspace compiles.
    Check,
    /// Write the proposed prompt and its note.
    Apply,
    /// Take the candidate back.
    RollBack,
    /// Remove the recovery marker.
    ClearMarker,
}

/// What came of a step.
#[derive(Clone, Copy, Debug, PartialEq, Eq, Structural)]
pub enum Event {
    Done,
    Broke,
    /// Whether the repository is where it was: for an agent its commit and
    /// branch, for a proposal everything in it.
    Same(bool),
}

/// Where a self-edit stands.
#[derive(Clone, Copy, Debug, PartialEq, Eq, Structural)]
pub enum Position {
    Doing(Step),
    /// The candidate is there to be scored, and its marker stands.
    Candidate,
    /// The repository is not where it was: its marker stays.
    Moved,
    /// The step failed; the candidate was taken back, or there was none.
    Failed(Step),
}

/// A self-edit under way.
#[derive(Clone, Copy, Debug, PartialEq, Eq, Structural)]
pub struct Edit {
    /// Whether the edit is a prompt proposed in isolation.
    pub isolated: bool,
    /// Whether the recovery marker was left and not removed.
    pub marked: bool,
    /// Whether the agent or the launcher failed.
    pub edit_failed: bool,
    /// The step that failed first, once one did.
    pub cause: Option<Step>,
    pub at: Position,
}

/// The edit at `next`, everything else as it was.
pub open spec fn at(e: Edit, next: Position) -> Edit {
    Edit { at: next, ..e }
}

/// The edit once a step failed after the agent ran: the candidate is taken
/// back.
pub open spec fn abandoned(e: Edit, cause: Step) -> Edit {
    Edit { cause: Some(cause), at: Position::Doing(Step::RollBack), ..e }
}

/// The edit after its step came to `event`.
pub open spec fn moved(e: Edit, step: Step, event: Event) -> Edit {
    let done = event == Event::Done;
    match step {
        Step::Baseline => if done {
            at(e, Position::Doing(Step::Mark))
        } else {
            at(e, Position::Failed(step))
        },
        Step::Mark => if done {
            Edit { marked: true, at: Position::Doing(Step::Edit), ..e }
        } else {
            at(e, Position::Failed(step))
        },
        Step::Edit => Edit { edit_failed: !done, at: Position::Doing(Step::Compare), ..e },
        Step::Compare => match event {
            Event::Same(true) => if !e.isolated {
                at(e, Position::Doing(Step::Clean))
            } else if e.edit_failed {
                Edit { cause: Some(Step::Edit), at: Position::Doing(Step::ClearMarker), ..e }
            } else {
                at(e, Position::Doing(Step::Apply))
            },
            Event::Same(false) => at(e, Position::Moved),
            _ => at(e, Position::Failed(step)),
        },
        Step::Clean => if done {
            at(e, Position::Doing(Step::RestoreLedger))
        } else {
            abandoned(e, step)
        },
        Step::RestoreLedger => if !done {
            abandoned(e, step)
        } else if e.edit_failed {
            abandoned(e, Step::Edit)
        } else {
            at(e, Position::Doing(Step::Check))
        },
        Step::Check => if done {
            at(e, Position::Candidate)
        } else {
            abandoned(e, step)
        },
        Step::Apply => if done {
            at(e, Position::Candidate)
        } else {
            abandoned(e, step)
        },
        Step::RollBack => if done {
            at(e, Position::Doing(Step::ClearMarker))
        } else {
            at(e, Position::Failed(step))
        },
        Step::ClearMarker => if done {
            Edit {
                marked: false,
                at: Position::Failed(
                    match e.cause {
                        Some(cause) => cause,
                        None => step,
                    },
                ),
                ..e
            }
        } else {
            at(e, Position::Failed(step))
        },
    }
}

/// The edit after one more event; one that is over stays as it is.
pub open spec fn followed(e: Edit, event: Event) -> Edit {
    match e.at {
        Position::Doing(step) => moved(e, step, event),
        _ => e,
    }
}

/// The edit before its first step.
pub open spec fn starting(isolated: bool) -> Edit {
    Edit {
        isolated,
        marked: false,
        edit_failed: false,
        cause: None,
        at: Position::Doing(Step::Baseline),
    }
}

/// The edit after the events.
pub open spec fn reached(isolated: bool, events: Seq<Event>) -> Edit
    decreases events.len(),
{
    if events.len() == 0 {
        starting(isolated)
    } else {
        followed(reached(isolated, events.drop_last()), events.last())
    }
}

/// The edit before its first step.
pub fn begin(isolated: bool) -> (out: Edit)
    ensures
        out == starting(isolated),
{
    Edit {
        isolated,
        marked: false,
        edit_failed: false,
        cause: None,
        at: Position::Doing(Step::Baseline),
    }
}

/// The edit after what came of its step.
pub fn follow(e: Edit, event: Event) -> (out: Edit)
    ensures
        out == followed(e, event),
{
    let step: Step = match e.at {
        Position::Doing(step) => step,
        _ => {
            return e;
        },
    };
    let done: bool = event == Event::Done;
    let mut out: Edit = e;
    let mut cause: Option<Step> = None;
    match step {
        Step::Baseline => {
            out.at = if done {
                Position::Doing(Step::Mark)
            } else {
                Position::Failed(step)
            };
        },
        Step::Mark => {
            if done {
                out.marked = true;
                out.at = Position::Doing(Step::Edit);
            } else {
                out.at = Position::Failed(step);
            }
        },
        Step::Edit => {
            out.edit_failed = !done;
            out.at = Position::Doing(Step::Compare);
        },
        Step::Compare => match event {
            Event::Same(same) => {
                if !same {
                    out.at = Position::Moved;
                } else if !e.isolated {
                    out.at = Position::Doing(Step::Clean);
                } else if e.edit_failed {
                    out.cause = Some(Step::Edit);
                    out.at = Position::Doing(Step::ClearMarker);
                } else {
                    out.at = Position::Doing(Step::Apply);
                }
            },
            _ => {
                out.at = Position::Failed(step);
            },
        },
        Step::Clean => {
            if done {
                out.at = Position::Doing(Step::RestoreLedger);
            } else {
                cause = Some(step);
            }
        },
        Step::RestoreLedger => {
            if !done {
                cause = Some(step);
            } else if e.edit_failed {
                cause = Some(Step::Edit);
            } else {
                out.at = Position::Doing(Step::Check);
            }
        },
        Step::Check => {
            if done {
                out.at = Position::Candidate;
            } else {
                cause = Some(step);
            }
        },
        Step::Apply => {
            if done {
                out.at = Position::Candidate;
            } else {
                cause = Some(step);
            }
        },
        Step::RollBack => {
            out.at = if done {
                Position::Doing(Step::ClearMarker)
            } else {
                Position::Failed(step)
            };
        },
        Step::ClearMarker => {
            if done {
                out.marked = false;
                out.at = Position::Failed(
                    match e.cause {
                        Some(first) => first,
                        None => step,
                    },
                );
            } else {
                out.at = Position::Failed(step);
            }
        },
    }
    if cause.is_some() {
        out.cause = cause;
        out.at = Position::Doing(Step::RollBack);
    }
    out
}

// ---------------------------------------------------------------------------
// What every edit keeps to

/// Whether a step comes once the marker stands.
pub open spec fn marked_step(step: Step) -> bool {
    step != Step::Baseline && step != Step::Mark
}

/// What holds of an edit wherever it stands.
pub open spec fn sound(e: Edit) -> bool {
    &&& e.cause matches Some(cause) ==> cause != Step::RollBack && cause != Step::Compare && cause
        != Step::ClearMarker
    &&& match e.at {
        Position::Doing(step) => {
            &&& e.marked == marked_step(step)
            &&& step == Step::Clean || step == Step::RestoreLedger || step == Step::Check
                ==> !e.isolated
            &&& step == Step::Apply ==> e.isolated
            &&& step == Step::Check || step == Step::Apply ==> !e.edit_failed
            &&& step == Step::RollBack || step == Step::ClearMarker ==> e.cause is Some
        },
        Position::Candidate => e.marked && !e.edit_failed,
        Position::Moved => e.marked,
        Position::Failed(step) => step == Step::RollBack || step == Step::Compare || step
            == Step::ClearMarker ==> e.marked,
    }
}

/// Whatever comes of its steps: an edit is handed on to be scored only with its
/// marker standing and where the agent did not fail; where the repository moved
/// under it, or it could not be taken back, the marker stays.
pub proof fn the_marker_stays_until_all_is_well(isolated: bool, events: Seq<Event>)
    ensures
        sound(reached(isolated, events)),
    decreases events.len(),
{
    if events.len() > 0 {
        the_marker_stays_until_all_is_well(isolated, events.drop_last());
    }
}

/// The marker of an edit that is given up is removed only once the candidate
/// was taken back, or where nothing was applied yet.
pub proof fn the_marker_is_removed_last(e: Edit, event: Event)
    requires
        sound(e),
        e.at is Doing,
        followed(e, event).at == Position::Doing(Step::ClearMarker),
    ensures
        (e.at == Position::Doing(Step::RollBack) && event == Event::Done) || (e.isolated && e.at
            == Position::Doing(Step::Compare) && e.edit_failed),
{
}

/// A repository that moved while it was edited is left alone: nothing is
/// cleaned, taken back or removed.
pub proof fn a_moved_repository_is_left_alone(e: Edit)
    requires
        e.at == Position::Doing(Step::Compare),
    ensures
        followed(e, Event::Same(false)).at == Position::Moved,
        followed(e, Event::Same(false)).marked == e.marked,
{
}

/// An agent's edit is handed on only once everything outside its lane was
/// restored, the ledger put back, and the workspace seen to compile.
pub proof fn an_agents_edit_is_checked(e: Edit, event: Event)
    requires
        sound(e),
        e.at is Doing,
        !e.isolated,
    ensures
        followed(e, event).at == Position::Candidate ==> e.at == Position::Doing(Step::Check)
            && event == Event::Done,
        followed(e, event).at == Position::Doing(Step::Check) ==> e.at == Position::Doing(
            Step::RestoreLedger,
        ) && event == Event::Done && !e.edit_failed,
        followed(e, event).at == Position::Doing(Step::RestoreLedger) ==> e.at == Position::Doing(
            Step::Clean,
        ) && event == Event::Done,
{
}

// ---------------------------------------------------------------------------
// Taking a candidate back

/// The errors there are, in order.
pub open spec fn present(errors: Seq<Option<String>>) -> Seq<Seq<char>>
    decreases errors.len(),
{
    if errors.len() == 0 {
        Seq::empty()
    } else {
        match errors.last() {
            Some(error) => present(errors.drop_last()).push(error@),
            None => present(errors.drop_last()),
        }
    }
}

/// What came of taking an unscored candidate back: its note's archiving, its
/// binary's removal and its source's restoring are each tried, whatever came of
/// the others, and every error is told.
pub fn rollback_unscored(errors: &[Option<String>]) -> (out: Result<(), String>)
    ensures
        out is Ok <==> present(errors@).len() == 0,
        out matches Err(message) ==> message@ == "unscored candidate cleanup failed: "@
            + lines::joined(present(errors@), "; "@),
{
    let n: usize = errors.len();
    let mut found: Vec<String> = Vec::new();
    assert(text::views(found@) =~= present(errors@.take(0)));
    for i in 0..n
        invariant
            n == errors@.len(),
            text::views(found@) == present(errors@.take(i as int)),
    {
        assert(errors@.take(i + 1).drop_last() =~= errors@.take(i as int));
        if let Some(error) = &errors[i] {
            proof {
                text::lemma_views_push(found@, *error);
            }
            found.push(error.clone());
        }
    }
    assert(errors@.take(n as int) =~= errors@);
    assert(text::views(found@).len() == found@.len());
    if found.len() == 0 {
        return Ok(());
    }
    let all: String = lines::join(&found, "; ");
    let mut message: String = "unscored candidate cleanup failed: ".to_owned();
    message.append(all.as_str());
    Err(message)
}

/// An agent's edit that goes well looks at the repository, leaves its marker, edits,
/// looks again, restores what it may not change, puts the ledger back and sees that the
/// workspace compiles; then it is handed on with its marker standing.
pub proof fn an_agents_edit_that_goes_well_is_handed_on(isolated: bool)
    ensures
        ({
            let done = Event::Done;
            let marking = followed(starting(false), done);
            let editing = followed(marking, done);
            let comparing = followed(editing, done);
            let cleaning = followed(comparing, Event::Same(true));
            let restoring = followed(cleaning, done);
            let checking = followed(restoring, done);
            let handed = followed(checking, done);
            &&& starting(isolated).at == Position::Doing(Step::Baseline)
            &&& !starting(isolated).marked
            &&& marking.at == Position::Doing(Step::Mark) && !marking.marked
            &&& editing.at == Position::Doing(Step::Edit) && editing.marked
            &&& comparing.at == Position::Doing(Step::Compare)
            &&& cleaning.at == Position::Doing(Step::Clean)
            &&& restoring.at == Position::Doing(Step::RestoreLedger)
            &&& checking.at == Position::Doing(Step::Check)
            &&& handed.at == Position::Candidate && handed.marked
        }),
{
}

/// A prompt that is proposed in isolation is applied once the repository was seen to be
/// where it was, and then handed on with its marker standing.
pub proof fn a_proposal_that_goes_well_is_handed_on()
    ensures
        ({
            let done = Event::Done;
            let editing = followed(followed(starting(true), done), done);
            let comparing = followed(editing, done);
            let applying = followed(comparing, Event::Same(true));
            let handed = followed(applying, done);
            &&& editing.at == Position::Doing(Step::Edit) && editing.marked
            &&& comparing.at == Position::Doing(Step::Compare)
            &&& applying.at == Position::Doing(Step::Apply)
            &&& handed.at == Position::Candidate && handed.marked
        }),
{
}

/// An edit whose agent failed is cleaned up all the same and then taken back; one whose
/// launcher failed applied nothing. Either ends as a failed edit, its marker removed.
pub proof fn a_failed_edit_is_taken_back(e: Edit, event: Event)
    requires
        e.at == Position::Doing(Step::Edit),
        e.marked,
        event != Event::Done,
    ensures
        ({
            let done = Event::Done;
            let comparing = followed(e, event);
            let compared = followed(comparing, Event::Same(true));
            let cleaned = followed(followed(compared, done), done);
            let clearing = if e.isolated {
                compared
            } else {
                followed(cleaned, done)
            };
            let over = followed(clearing, done);
            &&& comparing.at == Position::Doing(Step::Compare)
            &&& !e.isolated ==> compared.at == Position::Doing(Step::Clean)
            &&& !e.isolated ==> followed(compared, done).at == Position::Doing(Step::RestoreLedger)
            &&& !e.isolated ==> cleaned.at == Position::Doing(Step::RollBack)
            &&& clearing.at == Position::Doing(Step::ClearMarker) && clearing.marked
            &&& over.at == Position::Failed(Step::Edit) && !over.marked
        }),
{
}

/// A candidate that cannot be cleaned, checked or applied is taken back, and then it is
/// that step that failed; what cannot even be taken back, compared or cleared keeps its
/// marker; and what fails before the marker was left has none.
pub proof fn what_fails_is_taken_back_or_stays_marked(e: Edit, step: Step, event: Event)
    requires
        e.at == Position::Doing(step),
        event != Event::Done,
    ensures
        step == Step::Clean || step == Step::RestoreLedger || step == Step::Check || step
            == Step::Apply ==> {
            let rolling = followed(e, event);
            let over = followed(followed(rolling, Event::Done), Event::Done);
            &&& rolling.at == Position::Doing(Step::RollBack)
            &&& rolling.marked == e.marked
            &&& over.at == Position::Failed(step) && !over.marked
        },
        step == Step::RollBack || step == Step::ClearMarker || step == Step::Baseline || step
            == Step::Mark || (step == Step::Compare && !(event is Same)) ==> followed(e, event).at
            == Position::Failed(step) && followed(e, event).marked == e.marked,
{
}

/// Every error of taking a candidate back is told, in order, and nothing else is.
pub proof fn every_error_of_taking_back_is_told(errors: Seq<Option<String>>)
    ensures
        present(errors) == errors.filter(|e: Option<String>| e is Some).map_values(
            |e: Option<String>| e->0@,
        ),
    decreases errors.len(),
{
    reveal(Seq::filter);
    if errors.len() > 0 {
        every_error_of_taking_back_is_told(errors.drop_last());
    }
    assert(present(errors) =~= errors.filter(|e: Option<String>| e is Some).map_values(
        |e: Option<String>| e->0@,
    ));
}

} // verus!
