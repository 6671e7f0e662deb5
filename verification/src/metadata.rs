//! Existing harness identity, without inferring evaluated code from Git HEAD.

use vstd::prelude::*;
use crate::evolve::Lane;
use crate::ledger::Entry;
use crate::lines;
use crate::text;

verus! {

/// Where a trial's task is known from.
#[derive(Clone, Copy, Debug, PartialEq, Eq, Structural)]
pub enum TaskSource {
    ResultFile,
    DirectoryName,
}

/// The available subset of a uniquely matched evaluation ledger row.
/// Model/slice/attempts are partial settings, not a complete configuration.
#[derive(Debug)]
pub struct EvaluationMetadata {
    pub job_dir: String,
    pub generation: Option<usize>,
    pub slice: String,
    /// The ledger's commit can precede uncommitted, rejected candidate edits.
    pub recorded_commit: String,
    /// Revision of the editor, not the evaluated binary.
    pub meta_commit: Option<String>,
    pub model: String,
    pub attempts: usize,
    pub lane: Option<Lane>,
    /// The existing ledger does not establish an evaluated candidate revision.
    pub candidate_revision: Option<String>,
    /// No complete configuration identifier is recorded by the existing harness.
    pub configuration_id: Option<String>,
}

/// A row of the ledger, and whether it is about the job in question.
#[derive(Debug)]
pub struct Row {
    pub entry: Entry,
    pub same_job: bool,
}

/// Whether the i-th row was read and is about the job.
pub open spec fn matches_at(rows: Seq<Option<Row>>, i: int) -> bool {
    0 <= i < rows.len() && (rows[i] matches Some(row) && row.same_job)
}

/// Whether every row was read and exactly the i-th is about the job.
pub open spec fn only_match(rows: Seq<Option<Row>>, i: int) -> bool {
    &&& forall|j: int| 0 <= j < rows.len() ==> (#[trigger] rows[j]) is Some
    &&& matches_at(rows, i)
    &&& forall|j: int| #[trigger] matches_at(rows, j) ==> j == i
}

/// What is taken from a row.
pub open spec fn taken(out: EvaluationMetadata, entry: Entry) -> bool {
    &&& out.job_dir@ == entry.job_dir@
    &&& out.generation == entry.generation
    &&& out.slice@ == entry.slice@
    &&& out.recorded_commit@ == entry.commit@
    &&& text::opt(out.meta_commit) == text::opt(entry.meta_commit)
    &&& out.model@ == entry.model@
    &&& out.attempts == entry.attempts
    &&& out.lane == entry.lane
    &&& out.candidate_revision is None
    &&& out.configuration_id is None
}

/// What the ledger says of a job: nothing unless exactly one row is about it,
/// and nothing where a row cannot be read, which might hide a second.
pub fn evaluation(rows: &[Option<Row>]) -> (out: Option<EvaluationMetadata>)
    ensures
        out is Some <==> exists|i: int| #[trigger] only_match(rows@, i),
        out matches Some(found) ==> exists|i: int| #[trigger]
            only_match(rows@, i) && taken(found, rows@[i]->0.entry),
{
    let n: usize = rows.len();
    let mut found: Option<usize> = None;
    for i in 0..n
        invariant
            n == rows@.len(),
            forall|j: int| 0 <= j < i ==> (#[trigger] rows@[j]) is Some,
            match found {
                Some(k) => k < i && matches_at(rows@, k as int) && forall|j: int|
                    0 <= j < i && #[trigger] matches_at(rows@, j) ==> j == k,
                None => forall|j: int| 0 <= j < i ==> !(#[trigger] matches_at(rows@, j)),
            },
    {
        match &rows[i] {
            None => {
                proof {
                    assert forall|k: int| !(#[trigger] only_match(rows@, k)) by {
                        if only_match(rows@, k) {
                            assert(rows@[i as int] is Some);
                        }
                    }
                }
                return None;
            },
            Some(row) => {
                if row.same_job {
                    assert(matches_at(rows@, i as int));
                    if let Some(k) = found {
                        proof {
                            assert forall|x: int| !(#[trigger] only_match(rows@, x)) by {
                                if only_match(rows@, x) {
                                    assert(matches_at(rows@, k as int));
                                    assert(k == x && i == x);
                                }
                            }
                        }
                        return None;
                    }
                    found = Some(i);
                } else {
                    assert(!matches_at(rows@, i as int));
                }
            },
        }
    }
    match found {
        None => {
            proof {
                assert forall|k: int| !(#[trigger] only_match(rows@, k)) by {
                    if only_match(rows@, k) {
                        assert(matches_at(rows@, k));
                    }
                }
            }
            None
        },
        Some(k) => {
            assert(only_match(rows@, k as int));
            match &rows[k] {
                None => None,
                Some(row) => {
                    let entry: &Entry = &row.entry;
                    Some(
                        EvaluationMetadata {
                            job_dir: entry.job_dir.clone(),
                            generation: entry.generation,
                            slice: entry.slice.clone(),
                            recorded_commit: entry.commit.clone(),
                            meta_commit: text::copy_opt(&entry.meta_commit),
                            model: entry.model.clone(),
                            attempts: entry.attempts,
                            lane: entry.lane,
                            candidate_revision: None,
                            configuration_id: None,
                        },
                    )
                },
            }
        },
    }
}

/// What a trial's result file says of its identity.
#[derive(Debug)]
pub struct Identity {
    pub task: Option<String>,
    pub attempt: Option<usize>,
}

/// The last place at which two underscores stand in `s`, below `end`; -1 where
/// there is none.
pub open spec fn last_mark(s: Seq<char>, end: int) -> int
    decreases end,
{
    if end <= 0 {
        -1
    } else if text::occurs_at(s, "__"@, end - 1) {
        end - 1
    } else {
        last_mark(s, end - 1)
    }
}

/// What stands before the last two underscores of a directory's name, if they
/// are there and something does.
pub open spec fn task_in_name(name: Seq<char>) -> Option<Seq<char>> {
    let at = last_mark(name, name.len() as int);
    if at > 0 {
        Some(name.take(at))
    } else {
        None
    }
}

/// A trial's task, where it is known from, and its ordinal.
pub open spec fn identified(
    identity: Option<Identity>,
    name: Seq<char>,
) -> (Option<Seq<char>>, Option<TaskSource>, Option<usize>) {
    let attempt = match identity {
        Some(found) => found.attempt,
        None => None,
    };
    let recorded = match identity {
        Some(found) => text::opt(found.task),
        None => None,
    };
    if recorded matches Some(task) && task.len() > 0 {
        (recorded, Some(TaskSource::ResultFile), attempt)
    } else if task_in_name(name) is Some {
        (task_in_name(name), Some(TaskSource::DirectoryName), attempt)
    } else {
        (None, None, attempt)
    }
}

fn name_task(name: &str) -> (out: Option<String>)
    ensures
        text::opt(out) == task_in_name(name@),
{
    let chars: Vec<char> = text::chars_of(name);
    let mark: Vec<char> = text::chars_of("__");
    let mut end: usize = chars.len();
    while end > 0
        invariant
            end <= chars@.len(),
            chars@ == name@,
            mark@ == "__"@,
            last_mark(name@, name@.len() as int) == last_mark(name@, end as int),
        decreases end,
    {
        if text::found_at(&chars, &mark, end - 1) {
            if end == 1 {
                return None;
            }
            let task: String = text::string_range(&chars, 0, end - 1);
            assert(task@ =~= name@.take(end - 1));
            return Some(task);
        }
        end -= 1;
    }
    None
}

/// A trial's task, where it is known from, and its ordinal: what the result file
/// records, else a task named by the directory, never an ordinal from there.
pub fn trial(identity: &Option<Identity>, directory_name: &str) -> (out: (
    Option<String>,
    Option<TaskSource>,
    Option<usize>,
))
    ensures
        (text::opt(out.0), out.1, out.2) == identified(*identity, directory_name@),
{
    let mut attempt: Option<usize> = None;
    if let Some(found) = identity {
        attempt = found.attempt;
        if let Some(task) = &found.task {
            if !task.as_str().is_empty() {
                return (Some(task.clone()), Some(TaskSource::ResultFile), attempt);
            }
        }
    }
    match name_task(directory_name) {
        Some(task) => (Some(task), Some(TaskSource::DirectoryName), attempt),
        None => (None, None, attempt),
    }
}

/// What is known of an evaluation is what its row records, each thing in its own place;
/// no revision of a candidate and no configuration is made up.
pub proof fn metadata_is_the_rows_own(out: EvaluationMetadata, entry: Entry)
    requires
        taken(out, entry),
    ensures
        out.job_dir@ == entry.job_dir@,
        out.generation == entry.generation,
        out.slice@ == entry.slice@,
        out.recorded_commit@ == entry.commit@,
        entry.meta_commit is None ==> out.meta_commit is None,
        entry.meta_commit matches Some(commit) ==> (out.meta_commit matches Some(found)
            && found@ == commit@),
        out.model@ == entry.model@,
        out.attempts == entry.attempts,
        out.lane == entry.lane,
        out.candidate_revision is None,
        out.configuration_id is None,
{
}

/// A job is known by a row only where every row could be read and that row alone is about
/// it.
pub proof fn a_job_is_known_by_one_row_alone(rows: Seq<Option<Row>>, i: int)
    ensures
        only_match(rows, i) <==> 0 <= i < rows.len() && (forall|j: int|
            0 <= j < rows.len() ==> (#[trigger] rows[j]) is Some && (rows[j]->0.same_job <==> j
                == i)),
{
    if only_match(rows, i) {
        assert(matches_at(rows, i));
        assert forall|j: int| 0 <= j < rows.len() implies (#[trigger] rows[j]) is Some && (
        rows[j]->0.same_job <==> j == i) by {
            if rows[j]->0.same_job {
                assert(matches_at(rows, j));
            }
        }
    }
    if 0 <= i < rows.len() && (forall|j: int|
        0 <= j < rows.len() ==> (#[trigger] rows[j]) is Some && (rows[j]->0.same_job <==> j == i)) {
        assert(rows[i] is Some);
        assert forall|j: int| #[trigger] matches_at(rows, j) implies j == i by {
            assert(rows[j] is Some);
        }
    }
}

proof fn lemma_last_mark(s: Seq<char>, end: int)
    ensures
        last_mark(s, end) < end || end <= 0,
        last_mark(s, end) >= -1,
        last_mark(s, end) >= 0 ==> text::occurs_at(s, "__"@, last_mark(s, end)),
        forall|i: int| last_mark(s, end) < i < end ==> !text::occurs_at(s, "__"@, i),
    decreases end,
{
    if end > 0 && !text::occurs_at(s, "__"@, end - 1) {
        lemma_last_mark(s, end - 1);
    }
}

/// A directory names a task by what stands before its last two underscores, where
/// something does; so the name of a trial names the trial's task.
pub proof fn a_trials_directory_names_its_task(name: Seq<char>, task: Seq<char>, attempt: nat)
    ensures
        task_in_name(name) matches Some(found) ==> found.len() > 0 && text::occurs_at(
            name,
            "__"@,
            found.len() as int,
        ) && found == name.take(found.len() as int) && forall|i: int|
            found.len() < i < name.len() ==> !text::occurs_at(name, "__"@, i),
        task.len() > 0 ==> task_in_name(task + "__"@ + lines::digits(attempt)) == Some(task),
{
    lemma_last_mark(name, name.len() as int);
    let whole = task + "__"@ + lines::digits(attempt);
    let n = task.len() as int;
    reveal_strlit("__");
    lemma_last_mark(whole, whole.len() as int);
    lines::digits_stand_for_their_number(attempt);
    assert(whole.subrange(n, n + 2) =~= "__"@);
    assert(text::occurs_at(whole, "__"@, n));
    assert forall|i: int| n < i < whole.len() implies !text::occurs_at(whole, "__"@, i) by {
        if text::occurs_at(whole, "__"@, i) {
            let part = whole.subrange(i, i + 2);
            assert(part[1] == '_' && part[1] == whole[i + 1]);
            assert(whole[i + 1] == lines::digits(attempt)[i + 1 - n - 2]);
        }
    }
    let at = last_mark(whole, whole.len() as int);
    if at < n {
        assert(!text::occurs_at(whole, "__"@, n));
    }
    assert(whole.take(n) =~= task);
}

/// A trial's task is what its result file records, where that is something, else what its
/// directory names; and where it is known from is said. Its attempt is never taken from
/// the directory.
pub proof fn a_recorded_task_comes_first(identity: Option<Identity>, name: Seq<char>)
    ensures
        identity is None ==> identified(identity, name).2 is None,
        identity matches Some(found) ==> identified(identity, name).2 == found.attempt,
        (identity matches Some(found) && found.task is Some && found.task->0@.len() > 0)
            ==> identified(identity, name).0 == Some(identity->0.task->0@) && identified(
            identity,
            name,
        ).1 == Some(TaskSource::ResultFile),
        !(identity matches Some(found) && found.task is Some && found.task->0@.len() > 0)
            ==> identified(identity, name).0 == task_in_name(name) && (identified(identity, name).1
            == Some(TaskSource::DirectoryName) <==> task_in_name(name) is Some) && (identified(
            identity,
            name,
        ).1 is None <==> task_in_name(name) is None),
{
}

} // verus!
