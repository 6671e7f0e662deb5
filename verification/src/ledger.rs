//! The ledger: one entry per evaluation, appended.

use vstd::prelude::*;
use crate::double;
use crate::double::Double;
use crate::evolve;
use crate::evolve::Lane;
use crate::evolve::RunArgs;
use crate::lines;
use crate::place;
use crate::stats::Decision;
use crate::stats::Summary;
use crate::text;

verus! {

/// One evaluation.
#[derive(Debug)]
pub struct Entry {
    /// `None` for a holdout evaluation.
    pub generation: Option<usize>,
    /// `dev`, `holdout`, or `custom` for explicit task lists.
    pub slice: String,
    pub commit: String,
    pub decision: Option<Decision>,
    pub best_score: Double,
    pub best_ci_low: Double,
    pub model: String,
    pub attempts: usize,
    /// The lane whose self-edit this generation measured (None for a baseline or holdout).
    pub lane: Option<Lane>,
    /// The commit the meta agent ran as when it produced this generation's edit.
    pub meta_commit: Option<String>,
    pub job_dir: String,
    pub time: u64,
    pub summary: Summary,
}

/// Whether a row records just this; of a lane and its editor it says nothing.
pub open spec fn is_entry(
    e: Entry,
    generation: Option<usize>,
    slice: Seq<char>,
    commit: Seq<char>,
    decision: Option<Decision>,
    best: (Double, Double),
    model: Seq<char>,
    attempts: usize,
    job_dir: Seq<char>,
    time: u64,
    summary: Summary,
) -> bool {
    &&& e.generation == generation
    &&& e.slice@ == slice
    &&& e.commit@ == commit
    &&& e.decision == decision
    &&& e.best_score == best.0
    &&& e.best_ci_low == best.1
    &&& e.model@ == model
    &&& e.attempts == attempts
    &&& e.job_dir@ == job_dir
    &&& e.time == time
    &&& e.summary == summary
}

/// A row of the ledger, put together in one place; it measures no edit.
pub fn entry(
    generation: Option<usize>,
    slice: &str,
    commit: String,
    decision: Option<Decision>,
    best: (Double, Double),
    model: &str,
    attempts: usize,
    job_dir: String,
    time: u64,
    summary: Summary,
) -> (out: Entry)
    ensures
        is_entry(
            out,
            generation,
            slice@,
            commit@,
            decision,
            best,
            model@,
            attempts,
            job_dir@,
            time,
            summary,
        ),
        out.lane is None,
        out.meta_commit is None,
{
    Entry {
        generation,
        slice: slice.to_owned(),
        commit,
        decision,
        best_score: best.0,
        best_ci_low: best.1,
        model: model.to_owned(),
        attempts,
        lane: None,
        meta_commit: None,
        job_dir,
        time,
        summary,
    }
}

/// The row of a run on its own: of no generation, undecided, and beside no best,
/// for which minus one stands.
pub fn run_entry(args: &RunArgs, commit: String, job_dir: String, time: u64, summary: Summary) -> (out:
    Entry)
    ensures
        is_entry(
            out,
            None,
            evolve::named_slice(*args),
            commit@,
            None,
            (double::minus_one(), double::minus_one()),
            args.model@,
            args.attempts,
            job_dir@,
            time,
            summary,
        ),
        out.lane is None,
        out.meta_commit is None,
{
    let none: Double = Double { bits: double::MINUS_ONE_BITS };
    let slice: String = evolve::slice_name(args);
    entry(
        None,
        slice.as_str(),
        commit,
        None,
        (none, none),
        args.model.as_str(),
        args.attempts,
        job_dir,
        time,
        summary,
    )
}

/// What is written at the ledger's end for a row: its line.
pub fn appended(row: &str) -> (out: String)
    ensures
        out@ == row@ + "\n"@,
{
    let mut out: String = row.to_owned();
    out.append("\n");
    out
}

/// The ledger's file.
pub fn path(root: &str) -> (out: String)
    ensures
        out@ == place::below(place::below(root@, "harness"@), "ledger.jsonl"@),
{
    let harness: String = place::join(root, "harness");
    place::join(harness.as_str(), "ledger.jsonl")
}

/// The lines of a ledger that hold something, each with its number.
pub open spec fn numbered(all: Seq<Seq<char>>) -> Seq<(nat, Seq<char>)>
    decreases all.len(),
{
    if all.len() == 0 {
        Seq::empty()
    } else {
        let before = numbered(all.drop_last());
        if text::trimmed(all.last()).len() == 0 {
            before
        } else {
            before.push((all.len(), all.last()))
        }
    }
}

/// Numbered lines as characters.
pub open spec fn line_views(rows: Seq<(usize, String)>) -> Seq<(nat, Seq<char>)> {
    Seq::new(rows.len(), |i: int| (rows[i].0 as nat, rows[i].1@))
}

/// The lines of a ledger that hold something, each with its number.
pub fn read(ledger: &str) -> (out: Vec<(usize, String)>)
    ensures
        line_views(out@) == numbered(lines::lines_of(ledger@)),
{
    let cut: Vec<String> = lines::lines(ledger);
    let ghost all = lines::lines_of(ledger@);
    let n: usize = cut.len();
    let mut out: Vec<(usize, String)> = Vec::new();
    assert(line_views(out@) =~= numbered(all.take(0)));
    for i in 0..n
        invariant
            n == cut@.len(),
            all == text::views(cut@),
            line_views(out@) == numbered(all.take(i as int)),
    {
        proof {
            assert(all.take(i + 1).drop_last() =~= all.take(i as int));
            assert(all.take(i + 1).last() == cut@[i as int]@);
        }
        let plain: String = text::trim(cut[i].as_str());
        if !plain.as_str().is_empty() {
            let ghost before = out@;
            out.push((i + 1, cut[i].clone()));
            assert(line_views(out@) =~= line_views(before).push(
                ((i + 1) as nat, cut@[i as int]@),
            ));
        }
    }
    assert(all.take(n as int) =~= all);
    out
}

/// Whether an evaluation of the dev slice was kept.
pub open spec fn is_kept(e: Entry) -> bool {
    e.slice@ == "dev"@ && (e.decision == Some(Decision::Kept) || e.decision == Some(Decision::Tie))
}

/// Whether the i-th entry is the best kept: the highest lower bound, and the
/// latest where several have it.
pub open spec fn is_best(entries: Seq<Entry>, i: int) -> bool {
    &&& 0 <= i < entries.len()
    &&& is_kept(entries[i])
    &&& forall|j: int|
        0 <= j < entries.len() && is_kept(#[trigger] entries[j]) ==> {
            &&& entries[j].summary.ci_low.total_rank() <= entries[i].summary.ci_low.total_rank()
            &&& j > i ==> entries[j].summary.ci_low.total_rank()
                < entries[i].summary.ci_low.total_rank()
        }
}

fn kept(e: &Entry) -> (r: bool)
    ensures
        r == is_kept(*e),
{
    text::same(e.slice.as_str(), "dev") && match e.decision {
        Some(Decision::Kept) => true,
        Some(Decision::Tie) => true,
        _ => false,
    }
}

/// The best kept dev-slice evaluation so far: the highest lower bound.
pub fn best_kept(entries: &[Entry]) -> (out: Option<usize>)
    ensures
        out is None <==> forall|j: int| 0 <= j < entries@.len() ==> !is_kept(#[trigger] entries@[j]),
        out matches Some(i) ==> is_best(entries@, i as int),
{
    let n: usize = entries.len();
    let mut best: Option<usize> = None;
    for i in 0..n
        invariant
            n == entries@.len(),
            match best {
                None => forall|j: int| 0 <= j < i ==> !is_kept(#[trigger] entries@[j]),
                Some(k) => k < i && is_kept(entries@[k as int]) && forall|j: int|
                    0 <= j < i && is_kept(#[trigger] entries@[j]) ==> {
                        &&& entries@[j].summary.ci_low.total_rank()
                            <= entries@[k as int].summary.ci_low.total_rank()
                        &&& j > k ==> entries@[j].summary.ci_low.total_rank()
                            < entries@[k as int].summary.ci_low.total_rank()
                    },
            },
    {
        if kept(&entries[i]) {
            match best {
                None => {
                    best = Some(i);
                },
                Some(k) => {
                    if !entries[i].summary.ci_low.is_totally_below(entries[k].summary.ci_low) {
                        best = Some(i);
                    }
                },
            }
        }
    }
    best
}

// ---------------------------------------------------------------------------
// The table

/// `s` and spaces after it up to `width` characters.
pub open spec fn padded_right(s: Seq<char>, width: nat) -> Seq<char> {
    if s.len() >= width {
        s
    } else {
        s + Seq::new((width - s.len()) as nat, |i: int| ' ')
    }
}

/// `s` and spaces before it up to `width` characters.
pub open spec fn padded_left(s: Seq<char>, width: nat) -> Seq<char> {
    if s.len() >= width {
        s
    } else {
        Seq::new((width - s.len()) as nat, |i: int| ' ') + s
    }
}

fn spaces(n: usize) -> (out: String)
    ensures
        out@ == Seq::new(n as nat, |i: int| ' '),
{
    let mut out: String = String::new();
    for i in 0..n
        invariant
            out@ =~= Seq::new(i as nat, |k: int| ' '),
    {
        out.push(' ');
    }
    out
}

fn pad_right(s: &str, width: usize) -> (out: String)
    ensures
        out@ == padded_right(s@, width as nat),
{
    let n: usize = text::chars_of(s).len();
    let mut out: String = s.to_owned();
    if n < width {
        let fill: String = spaces(width - n);
        out.append(fill.as_str());
    }
    out
}

fn pad_left(s: &str, width: usize) -> (out: String)
    ensures
        out@ == padded_left(s@, width as nat),
{
    let n: usize = text::chars_of(s).len();
    if n >= width {
        return s.to_owned();
    }
    let mut out: String = spaces(width - n);
    out.append(s);
    out
}

/// An evaluation's numbers, as they are to be shown.
#[derive(Debug)]
pub struct Shown {
    pub score: String,
    pub pass1: String,
    pub passk: String,
    pub ci_low: String,
    pub ci_high: String,
}

/// How a decision is shown.
pub open spec fn decision_word(decision: Option<Decision>) -> Seq<char> {
    match decision {
        Some(Decision::Kept) => "kept"@,
        Some(Decision::Tie) => "tie"@,
        Some(Decision::Reverted) => "reverted"@,
        None => "-"@,
    }
}

fn show_decision(decision: Option<Decision>) -> (out: &'static str)
    ensures
        out@ == decision_word(decision),
{
    match decision {
        Some(Decision::Kept) => "kept",
        Some(Decision::Tie) => "tie",
        Some(Decision::Reverted) => "reverted",
        None => "-",
    }
}

/// The table's first line.
pub const HEADER: &'static str =
    "gen  slice    commit    decision  lane      score  pass1  passk        95% CI  trials";

/// The table's line for an evaluation.
pub open spec fn row_text(e: Entry, shown: Shown) -> Seq<char> {
    padded_right(
        match e.generation {
            Some(g) => lines::digits(g as nat),
            None => "-"@,
        },
        4,
    ) + " "@ + padded_right(e.slice@, 8) + " "@ + padded_right(e.commit@, 9) + " "@ + padded_right(
        decision_word(e.decision),
        9,
    ) + " "@ + padded_right(
        match e.lane {
            Some(lane) => crate::evolve::lane_name(lane),
            None => "-"@,
        },
        8,
    ) + " "@ + padded_left(shown.score@, 6) + " "@ + padded_left(shown.pass1@, 6) + " "@
        + padded_left(shown.passk@, 6) + " "@ + padded_left(shown.ci_low@, 6) + "–"@ + padded_right(
        shown.ci_high@,
        6,
    ) + " "@ + padded_left(lines::digits(e.summary.trials as nat), 7)
}

/// The table's line for an evaluation.
pub fn print(e: &Entry, shown: &Shown) -> (out: String)
    ensures
        out@ == row_text(*e, *shown),
{
    let generation: String = match e.generation {
        Some(g) => lines::count(g),
        None => "-".to_owned(),
    };
    let mut out: String = pad_right(generation.as_str(), 4);
    out.append(" ");
    let cell: String = pad_right(e.slice.as_str(), 8);
    out.append(cell.as_str());
    out.append(" ");
    let cell: String = pad_right(e.commit.as_str(), 9);
    out.append(cell.as_str());
    out.append(" ");
    let cell: String = pad_right(show_decision(e.decision), 9);
    out.append(cell.as_str());
    out.append(" ");
    let lane: &str = match e.lane {
        Some(lane) => lane.name(),
        None => "-",
    };
    let cell: String = pad_right(lane, 8);
    out.append(cell.as_str());
    out.append(" ");
    let cell: String = pad_left(shown.score.as_str(), 6);
    out.append(cell.as_str());
    out.append(" ");
    let cell: String = pad_left(shown.pass1.as_str(), 6);
    out.append(cell.as_str());
    out.append(" ");
    let cell: String = pad_left(shown.passk.as_str(), 6);
    out.append(cell.as_str());
    out.append(" ");
    let cell: String = pad_left(shown.ci_low.as_str(), 6);
    out.append(cell.as_str());
    out.append("–");
    let cell: String = pad_right(shown.ci_high.as_str(), 6);
    out.append(cell.as_str());
    out.append(" ");
    let trials: String = lines::count(e.summary.trials);
    let cell: String = pad_left(trials.as_str(), 7);
    out.append(cell.as_str());
    out
}

// ---------------------------------------------------------------------------
// What the ledger keeps to

/// A row records each thing it was given in its own place.
pub proof fn a_row_records_what_it_was_given(
    e: Entry,
    generation: Option<usize>,
    slice: Seq<char>,
    commit: Seq<char>,
    decision: Option<Decision>,
    best_score: Double,
    best_low: Double,
    model: Seq<char>,
    attempts: usize,
    job_dir: Seq<char>,
    time: u64,
    summary: Summary,
)
    requires
        is_entry(
            e,
            generation,
            slice,
            commit,
            decision,
            (best_score, best_low),
            model,
            attempts,
            job_dir,
            time,
            summary,
        ),
    ensures
        e.generation == generation,
        e.slice@ == slice,
        e.commit@ == commit,
        e.decision == decision,
        e.best_score == best_score,
        e.best_ci_low == best_low,
        e.model@ == model,
        e.attempts == attempts,
        e.job_dir@ == job_dir,
        e.time == time,
        e.summary == summary,
{
}

/// Every line of a ledger that is not blank is read, in order, with its own number,
/// which counts the blank ones too.
pub proof fn no_line_of_the_ledger_is_lost(all: Seq<Seq<char>>)
    ensures
        numbered(all) == Seq::new(
            all.len(),
            |i: int| ((i + 1) as nat, all[i]),
        ).filter(|row: (nat, Seq<char>)| !text::all_white(row.1)),
    decreases all.len(),
{
    reveal(Seq::filter);
    let rows = Seq::new(all.len(), |i: int| ((i + 1) as nat, all[i]));
    if all.len() > 0 {
        let init = all.drop_last();
        no_line_of_the_ledger_is_lost(init);
        text::trimming_takes_only_white_space_off(all.last());
        assert(rows.drop_last() =~= Seq::new(init.len(), |i: int| ((i + 1) as nat, init[i])));
        assert(rows.last() == (all.len(), all.last()));
    } else {
        assert(rows =~= Seq::empty());
    }
}

/// The best kept evaluation is one of the dev slice that was kept or tied, and no other
/// such has a greater lower bound, nor a later one the same.
pub proof fn nothing_kept_is_better_than_the_best(entries: Seq<Entry>, i: int, j: int)
    requires
        is_best(entries, i),
        0 <= j < entries.len(),
    ensures
        0 <= i < entries.len(),
        entries[i].slice@ == "dev"@,
        entries[i].decision == Some(Decision::Kept) || entries[i].decision == Some(Decision::Tie),
        entries[j].slice@ == "dev"@ && (entries[j].decision == Some(Decision::Kept)
            || entries[j].decision == Some(Decision::Tie)) ==> !entries[i].summary.ci_low.below(
            entries[j].summary.ci_low,
        ) && (j > i ==> entries[j].summary.ci_low != entries[i].summary.ci_low),
{
    assert(is_kept(entries[j]) ==> entries[j].summary.ci_low.total_rank()
        <= entries[i].summary.ci_low.total_rank());
}

/// A cell that is padded keeps its text, has as many characters as its column or as the
/// text where that is longer, and spaces for the rest.
pub proof fn padding_keeps_the_text(s: Seq<char>, width: nat, i: int)
    ensures
        padded_right(s, width).len() == (if s.len() < width {
            width
        } else {
            s.len()
        }),
        padded_left(s, width).len() == padded_right(s, width).len(),
        padded_right(s, width).take(s.len() as int) == s,
        padded_left(s, width).skip(padded_left(s, width).len() - s.len()) == s,
        s.len() <= i < width ==> padded_right(s, width)[i] == ' ',
        0 <= i < width - s.len() ==> padded_left(s, width)[i] == ' ',
{
    assert(padded_right(s, width).take(s.len() as int) =~= s);
    assert(padded_left(s, width).skip(padded_left(s, width).len() - s.len()) =~= s);
}

/// A line of the table holds what its row records, column by column: the generation,
/// the slice, the commit, the decision, the lane, the scores and the interval as they
/// are shown, and the number of trials.
pub proof fn a_line_shows_its_row(e: Entry, shown: Shown)
    ensures
        ({
            let line = row_text(e, shown);
            let head = padded_right(
                if e.generation is Some {
                    lines::digits(e.generation->0 as nat)
                } else {
                    "-"@
                },
                4,
            ) + " "@ + padded_right(e.slice@, 8) + " "@ + padded_right(e.commit@, 9) + " "@;
            let decision = if e.decision == Some(Decision::Kept) {
                "kept"@
            } else if e.decision == Some(Decision::Tie) {
                "tie"@
            } else if e.decision == Some(Decision::Reverted) {
                "reverted"@
            } else {
                "-"@
            };
            let lane = if e.lane is Some {
                evolve::lane_name(e.lane->0)
            } else {
                "-"@
            };
            let numbers = " "@ + padded_left(shown.score@, 6) + " "@ + padded_left(shown.pass1@, 6)
                + " "@ + padded_left(shown.passk@, 6) + " "@ + padded_left(shown.ci_low@, 6)
                + "–"@ + padded_right(shown.ci_high@, 6);
            let trials = " "@ + padded_left(lines::digits(e.summary.trials as nat), 7);
            &&& line.take(head.len() as int) == head
            &&& text::occurs(line, padded_right(decision, 9) + " "@ + padded_right(lane, 8))
            &&& text::occurs(line, numbers)
            &&& line.skip(line.len() - trials.len()) == trials
        }),
{
    let generation = padded_right(
        match e.generation {
            Some(g) => lines::digits(g as nat),
            None => "-"@,
        },
        4,
    );
    let slice = padded_right(e.slice@, 8);
    let commit = padded_right(e.commit@, 9);
    let decision = padded_right(decision_word(e.decision), 9);
    let lane = padded_right(
        match e.lane {
            Some(lane) => evolve::lane_name(lane),
            None => "-"@,
        },
        8,
    );
    let score = padded_left(shown.score@, 6);
    let pass1 = padded_left(shown.pass1@, 6);
    let passk = padded_left(shown.passk@, 6);
    let low = padded_left(shown.ci_low@, 6);
    let high = padded_right(shown.ci_high@, 6);
    let trials = padded_left(lines::digits(e.summary.trials as nat), 7);
    lemma_columns(
        generation,
        slice,
        commit,
        decision,
        lane,
        score,
        pass1,
        passk,
        low,
        high,
        trials,
        " "@,
        "–"@,
    );
}

proof fn lemma_columns(
    a: Seq<char>,
    b: Seq<char>,
    c: Seq<char>,
    d: Seq<char>,
    e: Seq<char>,
    f: Seq<char>,
    g: Seq<char>,
    h: Seq<char>,
    i: Seq<char>,
    j: Seq<char>,
    k: Seq<char>,
    gap: Seq<char>,
    dash: Seq<char>,
)
    ensures
        ({
            let line = a + gap + b + gap + c + gap + d + gap + e + gap + f + gap + g + gap + h + gap
                + i + dash + j + gap + k;
            let head = a + gap + b + gap + c + gap;
            let numbers = gap + f + gap + g + gap + h + gap + i + dash + j;
            &&& line.take(head.len() as int) == head
            &&& text::occurs(line, d + gap + e)
            &&& text::occurs(line, numbers)
            &&& line.skip(line.len() - (gap + k).len()) == gap + k
        }),
{
    let line = a + gap + b + gap + c + gap + d + gap + e + gap + f + gap + g + gap + h + gap + i
        + dash + j + gap + k;
    let head = a + gap + b + gap + c + gap;
    let middle = d + gap + e;
    let numbers = gap + f + gap + g + gap + h + gap + i + dash + j;
    let last = gap + k;
    assert(line =~= head + middle + numbers + last);
    assert(line.take(head.len() as int) =~= head);
    assert(head + middle + numbers + last =~= head + middle + (numbers + last));
    text::lemma_occurs_between(head, middle, numbers + last);
    text::lemma_occurs_between(head + middle, numbers, last);
    assert(line.skip(line.len() - last.len()) =~= last);
}

} // verus!
