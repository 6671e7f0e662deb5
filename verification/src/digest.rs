//! The failure digest: what the trials did, counted the way an engineer
//! would count it, with failed and passed trials side by side.

use vstd::prelude::*;
use crate::double;
use crate::double::Double;
use crate::lines;
use crate::metadata::EvaluationMetadata;
use crate::metadata::TaskSource;
use crate::observe;
use crate::observe::FailureDetail;
use crate::observe::Observed;
use crate::order;
use crate::order::Ranked;
use crate::table;
use crate::table::Table;
use crate::text;

verus! {

// ---------------------------------------------------------------------------
// Deliberation

/// Phrases of someone who means to go on.
pub const DELIBERATION: [&'static str; 19] = [
    "let me ",
    "i'll ",
    "i will ",
    "next, i",
    "next i",
    "should i",
    "i should ",
    "now i",
    "i need to ",
    "i'm going to ",
    "let's ",
    "first, i",
    "wait",
    "what if",
    "hmm",
    "which one",
    "or should",
    "let's compare",
    "argument for",
];

/// Whether a character may end a finished text.
pub open spec fn closes(c: char) -> bool {
    c == '.' || c == '!' || c == '`' || c == '"' || c == '*' || c == ')' || c == ']' || c == '>'
}

/// The last `n` characters, all of them where there are fewer.
pub open spec fn tail_of(s: Seq<char>, n: nat) -> Seq<char> {
    if s.len() > n {
        s.skip(s.len() - n)
    } else {
        s
    }
}

/// Whether a text holds one of the phrases of someone who means to go on.
pub open spec fn has_phrase(s: Seq<char>) -> bool {
    exists|i: int|
        0 <= i < DELIBERATION@.len() && text::occurs(s, #[trigger] text::str_views(DELIBERATION@)[i])
}

/// Whether a text, without white space at its end and in lower case as `lower`,
/// reads as thinking: two or more questions, a deliberation phrase in its last
/// 1500 characters, or a cut-off ending (no terminal punctuation on a text of
/// any length).
pub open spec fn reads_as_thinking(plain: Seq<char>, lower: Seq<char>) -> bool {
    plain.len() > 0 && (text::count_of(plain, '?') >= 2 || has_phrase(tail_of(lower, 1500))
        || !closes(plain.last()))
}

/// Whether a final text reads as thinking rather than a summary.
pub open spec fn is_deliberating(s: Seq<char>) -> bool {
    let plain = text::without_trailing(s);
    reads_as_thinking(plain, text::lowercase(plain))
}

/// Does a text, without white space at its end and in lower case as `lower`,
/// read as thinking?
pub fn thinking(plain: &[char], lower: &str) -> (r: bool)
    ensures
        r == reads_as_thinking(plain@, lower@),
{
    let n: usize = plain.len();
    if n == 0 {
        return false;
    }
    if text::count_char(plain, '?') >= 2 {
        return true;
    }
    let low: Vec<char> = text::chars_of(lower);
    let m: usize = low.len();
    let from: usize = if m > 1500 {
        m - 1500
    } else {
        0
    };
    let tail: String = text::string_range(&low, from, m);
    assert(tail@ =~= tail_of(lower@, 1500));
    for i in 0..19usize
        invariant
            n > 0,
            n == plain@.len(),
            text::count_of(plain@, '?') < 2,
            tail@ == tail_of(lower@, 1500),
            forall|j: int|
                0 <= j < i ==> !text::occurs(tail@, #[trigger] text::str_views(DELIBERATION@)[j]),
    {
        assert(text::str_views(DELIBERATION@)[i as int] == DELIBERATION@[i as int]@);
        if text::contains(tail.as_str(), DELIBERATION[i]) {
            assert(has_phrase(tail@));
            return true;
        }
    }
    let last: char = plain[n - 1];
    !(last == '.' || last == '!' || last == '`' || last == '"' || last == '*' || last
        == ')' || last == ']' || last == '>')
}

/// Does the final text read as thinking rather than a summary?
pub fn deliberating(s: &str) -> (r: bool)
    ensures
        r == is_deliberating(s@),
{
    let chars: Vec<char> = text::chars_of(s);
    let kept: Vec<char> = text::trim_end_chars(&chars);
    let plain: String = text::string_of(&kept);
    let lower: String = plain.as_str().to_lowercase();
    thinking(&kept, lower.as_str())
}

/// The text, or its first `max` characters and an ellipsis.
pub open spec fn shortened(s: Seq<char>, max: nat) -> Seq<char> {
    if s.len() > max {
        s.take(max as int).push('…')
    } else {
        s
    }
}

/// The text, or its first `max` characters and an ellipsis.
pub fn short(s: &str, max: usize) -> (out: String)
    ensures
        out@ == shortened(s@, max as nat),
{
    let chars: Vec<char> = text::chars_of(s);
    if chars.len() <= max {
        return s.to_owned();
    }
    let mut out: String = text::string_range(&chars, 0, max);
    out.push('…');
    assert(out@ =~= shortened(s@, max as nat));
    out
}

// ---------------------------------------------------------------------------
// The facts of one transcript

/// One line of a transcript, as far as it is counted.
#[derive(Debug)]
pub struct Event {
    pub kind: String,
    pub name: String,
    pub args: String,
    pub output: String,
    pub ok: bool,
    pub text: String,
    pub input_tokens: u64,
    pub output_tokens: u64,
    /// The failure that the line's reason decodes as, if it does.
    pub failure: Option<FailureDetail>,
}

/// Counted facts about one trial.
#[derive(Debug)]
pub struct TrialFacts {
    pub trial: String,
    pub task: Option<String>,
    /// Whether task identity was recorded or inferred from a legacy directory.
    pub task_source: Option<TaskSource>,
    /// Recorded trial ordinal; never inferred from the directory name.
    pub attempt: Option<usize>,
    /// Recorded task score. Missing, malformed or non-finite scores stay unknown.
    pub reward: Option<Double>,
    /// Preserves diagnostic routing for non-finite verifier values without
    /// exporting them as recorded scores. Missing/unparseable values use zero.
    pub unavailable_selection_reward: Double,
    pub tool_calls: u64,
    /// Per tool name: (ok, error) results.
    pub by_tool: Table<(u64, u64)>,
    /// Bash commands the tool killed at their timeout.
    pub timeouts: u64,
    /// Tool results cut in the middle for length.
    pub truncations: u64,
    /// A call identical (name and arguments) to one of the previous five.
    pub repeated_calls: u64,
    /// Results naming a path that did not exist.
    pub missing_paths: u64,
    /// The run ended with assistant text that reads as deliberation (a
    /// question, or "let me", "should I", "next I will") rather than a
    /// summary: the model meant to continue and settled instead.
    pub ended_deliberating: bool,
    /// The run ended without `settled` (failed, cancelled, or cut off).
    pub no_settle: bool,
    /// Tool calls before the first write_file or edit_file (u64::MAX: none).
    pub calls_before_first_edit: u64,
    /// How the run ended, from the transcript's `failed` line (`settled`
    /// when it settled; `unknown` when the transcript ends without either).
    pub ending: String,
    /// Structured transcript failure, including failures before a run starts.
    pub failure: Option<FailureDetail>,
    /// What the witness saw, when the trial has a trace.
    pub observed: Observed,
    /// The last tool called before the end.
    pub last_tool: Option<String>,
    pub input_tokens: u64,
    pub output_tokens: u64,
    pub final_text_chars: u64,
}

/// Whether a line is an event of the kind.
pub open spec fn is_kind(e: Option<Event>, kind: Seq<char>) -> bool {
    e matches Some(event) && event.kind@ == kind
}

/// How many lines are events of the kind.
pub open spec fn kinds(events: Seq<Option<Event>>, kind: Seq<char>) -> nat
    decreases events.len(),
{
    if events.len() == 0 {
        0
    } else {
        kinds(events.drop_last(), kind) + if is_kind(events.last(), kind) {
            1nat
        } else {
            0nat
        }
    }
}

/// The tool calls, by name and arguments, in order.
pub open spec fn calls(events: Seq<Option<Event>>) -> Seq<(Seq<char>, Seq<char>)>
    decreases events.len(),
{
    if events.len() == 0 {
        Seq::empty()
    } else {
        let before = calls(events.drop_last());
        match events.last() {
            Some(e) => if e.kind@ == "tool_call"@ {
                before.push((e.name@, e.args@))
            } else {
                before
            },
            None => before,
        }
    }
}

/// Whether the last call is identical to one of the five before it.
pub open spec fn repeats_itself(made: Seq<(Seq<char>, Seq<char>)>) -> bool {
    exists|j: int|
        made.len() - 6 <= j < made.len() - 1 && 0 <= j && #[trigger] made[j] == made.last()
}

/// How many calls are identical to one of the five before them.
pub open spec fn repeats(made: Seq<(Seq<char>, Seq<char>)>) -> nat
    decreases made.len(),
{
    if made.len() == 0 {
        0
    } else {
        repeats(made.drop_last()) + if repeats_itself(made) {
            1nat
        } else {
            0nat
        }
    }
}

/// Whether a tool edits a file.
pub open spec fn edits(name: Seq<char>) -> bool {
    name == "write_file"@ || name == "edit_file"@
}

/// How many calls came before the first edit, if there was one.
pub open spec fn before_edit(made: Seq<(Seq<char>, Seq<char>)>) -> Option<nat>
    decreases made.len(),
{
    if made.len() == 0 {
        None
    } else {
        match before_edit(made.drop_last()) {
            Some(n) => Some(n),
            None => if edits(made.last().0) {
                Some((made.len() - 1) as nat)
            } else {
                None
            },
        }
    }
}

/// Whether a result says that its command was killed.
pub open spec fn says_killed(output: Seq<char>) -> bool {
    text::occurs(output, "[killed after"@)
}

/// Whether a result was cut in the middle.
pub open spec fn says_cut(output: Seq<char>) -> bool {
    text::occurs(output, "output truncated in the middle"@) || text::occurs(
        output,
        " bytes omitted ...]"@,
    )
}

/// Whether a result in lower case names a path that did not exist.
pub open spec fn names_missing(lower: Seq<char>) -> bool {
    text::occurs(lower, "cannot read"@) || text::occurs(lower, "no such file"@) || text::occurs(
        lower,
        "not found in"@,
    ) || text::occurs(lower, "old_string not found"@)
}

/// How many results say that their command was killed.
pub open spec fn killed(events: Seq<Option<Event>>) -> nat
    decreases events.len(),
{
    if events.len() == 0 {
        0
    } else {
        killed(events.drop_last()) + if is_kind(events.last(), "tool_result"@) && says_killed(
            events.last()->0.output@,
        ) {
            1nat
        } else {
            0nat
        }
    }
}

/// How many results were cut in the middle.
pub open spec fn cut(events: Seq<Option<Event>>) -> nat
    decreases events.len(),
{
    if events.len() == 0 {
        0
    } else {
        cut(events.drop_last()) + if is_kind(events.last(), "tool_result"@) && says_cut(
            events.last()->0.output@,
        ) {
            1nat
        } else {
            0nat
        }
    }
}

/// How many results name a path that did not exist.
pub open spec fn missing(events: Seq<Option<Event>>) -> nat
    decreases events.len(),
{
    if events.len() == 0 {
        0
    } else {
        missing(events.drop_last()) + if is_kind(events.last(), "tool_result"@) && names_missing(
            text::lowercase(events.last()->0.output@),
        ) {
            1nat
        } else {
            0nat
        }
    }
}

/// The results so far of each tool: how many went well, how many did not.
pub open spec fn results(events: Seq<Option<Event>>) -> Map<Seq<char>, (u64, u64)>
    decreases events.len(),
{
    if events.len() == 0 {
        Map::empty()
    } else {
        let before = results(events.drop_last());
        match events.last() {
            Some(e) => if e.kind@ == "tool_result"@ {
                let (good, bad) = if before.contains_key(e.name@) {
                    before[e.name@]
                } else {
                    (0u64, 0u64)
                };
                before.insert(
                    e.name@,
                    if e.ok {
                        ((good + 1) as u64, bad)
                    } else {
                        (good, (bad + 1) as u64)
                    },
                )
            } else {
                before
            },
            None => before,
        }
    }
}

/// The assistant's text after the last tool call.
pub open spec fn final_text(events: Seq<Option<Event>>) -> Seq<char>
    decreases events.len(),
{
    if events.len() == 0 {
        Seq::empty()
    } else {
        match events.last() {
            Some(e) => if e.kind@ == "tool_call"@ {
                Seq::empty()
            } else if e.kind@ == "assistant"@ {
                e.text@
            } else {
                final_text(events.drop_last())
            },
            None => final_text(events.drop_last()),
        }
    }
}

/// The failure that the last `failed` line describes.
pub open spec fn last_failure(events: Seq<Option<Event>>) -> Option<FailureDetail>
    decreases events.len(),
{
    if events.len() == 0 {
        None
    } else {
        match events.last() {
            Some(e) => if e.kind@ == "failed"@ {
                e.failure
            } else {
                last_failure(events.drop_last())
            },
            None => last_failure(events.drop_last()),
        }
    }
}

/// What the last line that ends a run says of its ending; nothing where none
/// does.
pub open spec fn stated_ending(events: Seq<Option<Event>>) -> Seq<char>
    decreases events.len(),
{
    if events.len() == 0 {
        Seq::empty()
    } else {
        match events.last() {
            Some(e) => if e.kind@ == "failed"@ {
                match e.failure {
                    Some(failure) => failure.kind@,
                    None => "unknown"@,
                }
            } else if e.kind@ == "settled"@ {
                "settled"@
            } else {
                stated_ending(events.drop_last())
            },
            None => stated_ending(events.drop_last()),
        }
    }
}

/// The kind of the last event; nothing where there is none.
pub open spec fn last_kind(events: Seq<Option<Event>>) -> Seq<char>
    decreases events.len(),
{
    if events.len() == 0 {
        Seq::empty()
    } else {
        match events.last() {
            Some(e) => e.kind@,
            None => last_kind(events.drop_last()),
        }
    }
}

/// The input tokens of every usage line together.
pub open spec fn input_sum(events: Seq<Option<Event>>) -> nat
    decreases events.len(),
{
    if events.len() == 0 {
        0
    } else {
        input_sum(events.drop_last()) + if is_kind(events.last(), "usage"@) {
            events.last()->0.input_tokens as nat
        } else {
            0
        }
    }
}

/// The output tokens of every usage line together.
pub open spec fn output_sum(events: Seq<Option<Event>>) -> nat
    decreases events.len(),
{
    if events.len() == 0 {
        0
    } else {
        output_sum(events.drop_last()) + if is_kind(events.last(), "usage"@) {
            events.last()->0.output_tokens as nat
        } else {
            0
        }
    }
}

/// The facts of a transcript.
pub open spec fn are_facts(f: TrialFacts, events: Seq<Option<Event>>) -> bool {
    let made = calls(events);
    &&& f.tool_calls == made.len()
    &&& f.by_tool.valid()
    &&& f.by_tool.map() == results(events)
    &&& f.timeouts == killed(events)
    &&& f.truncations == cut(events)
    &&& f.repeated_calls == repeats(made)
    &&& f.missing_paths == missing(events)
    &&& f.ended_deliberating == is_deliberating(final_text(events))
    &&& f.no_settle == (last_kind(events) != "settled"@)
    &&& f.calls_before_first_edit == match before_edit(made) {
        Some(n) => n,
        None => u64::MAX as nat,
    }
    &&& f.ending@ == if stated_ending(events).len() == 0 {
        "unknown"@
    } else {
        stated_ending(events)
    }
    &&& f.failure == last_failure(events)
    &&& text::opt(f.last_tool) == if made.len() == 0 {
        None
    } else {
        Some(made.last().0)
    }
    &&& f.input_tokens == input_sum(events)
    &&& f.output_tokens == output_sum(events)
    &&& f.final_text_chars == final_text(events).len()
}

proof fn lemma_sums_grow(events: Seq<Option<Event>>, i: int)
    requires
        0 <= i <= events.len(),
    ensures
        input_sum(events.take(i)) <= input_sum(events),
        output_sum(events.take(i)) <= output_sum(events),
    decreases events.len(),
{
    if i == events.len() {
        assert(events.take(i) =~= events);
    } else {
        assert(events.drop_last().take(i) =~= events.take(i));
        lemma_sums_grow(events.drop_last(), i);
    }
}

/// The lines that were read, without those that were not.
pub open spec fn read_lines(events: Seq<Option<Event>>) -> Seq<Option<Event>>
    decreases events.len(),
{
    if events.len() == 0 {
        events
    } else if events.last() is Some {
        read_lines(events.drop_last()).push(events.last())
    } else {
        read_lines(events.drop_last())
    }
}

/// A line that could not be read changes no fact: those of a transcript are those of
/// the lines of it that were read.
pub proof fn unread_lines_change_no_fact(f: TrialFacts, events: Seq<Option<Event>>)
    ensures
        are_facts(f, events) <==> are_facts(f, read_lines(events)),
{
    lemma_read_lines(events);
}

proof fn lemma_read_lines(events: Seq<Option<Event>>)
    ensures
        ({
            let read = read_lines(events);
            &&& calls(read) == calls(events)
            &&& results(read) == results(events)
            &&& killed(read) == killed(events)
            &&& cut(read) == cut(events)
            &&& missing(read) == missing(events)
            &&& final_text(read) == final_text(events)
            &&& last_kind(read) == last_kind(events)
            &&& stated_ending(read) == stated_ending(events)
            &&& last_failure(read) == last_failure(events)
            &&& input_sum(read) == input_sum(events)
            &&& output_sum(read) == output_sum(events)
        }),
    decreases events.len(),
{
    if events.len() > 0 {
        lemma_read_lines(events.drop_last());
        if events.last() is Some {
            assert(read_lines(events).drop_last() =~= read_lines(events.drop_last()));
            assert(read_lines(events).last() == events.last());
        }
    }
}

/// The calls, their names and arguments as characters.
pub open spec fn call_views(made: Seq<(String, String)>) -> Seq<(Seq<char>, Seq<char>)> {
    Seq::new(made.len(), |i: int| (made[i].0@, made[i].1@))
}

fn repeated(made: &[(String, String)]) -> (r: bool)
    requires
        made@.len() > 0,
    ensures
        r == repeats_itself(call_views(made@)),
{
    let n: usize = made.len();
    let ghost all = call_views(made@);
    let mut j: usize = if n > 6 {
        n - 6
    } else {
        0
    };
    while j < n - 1
        invariant
            n == made@.len(),
            n > 0,
            all == call_views(made@),
            j <= n - 1,
            n - 6 <= j,
            forall|k: int| n - 6 <= k < j && 0 <= k ==> #[trigger] all[k] != all.last(),
        decreases n - j,
    {
        assert(all[j as int] == (made@[j as int].0@, made@[j as int].1@));
        assert(all.last() == (made@[n - 1].0@, made@[n - 1].1@));
        if text::same(made[j].0.as_str(), made[n - 1].0.as_str()) && text::same(
            made[j].1.as_str(),
            made[n - 1].1.as_str(),
        ) {
            assert(all[j as int] == all.last());
            return true;
        }
        j += 1;
    }
    false
}

fn is_missing(lower: &str) -> (r: bool)
    ensures
        r == names_missing(lower@),
{
    text::contains(lower, "cannot read") || text::contains(lower, "no such file")
        || text::contains(lower, "not found in") || text::contains(lower, "old_string not found")
}

/// No tool has more than `n` results of either sort.
spec fn results_within(map: Map<Seq<char>, (u64, u64)>, n: nat) -> bool {
    forall|k: Seq<char>| #[trigger]
        map.contains_key(k) ==> map[k].0 <= n && map[k].1 <= n
}

/// The facts of one transcript. Its usage must add up to what its type holds.
pub fn facts(events: &[Option<Event>]) -> (out: TrialFacts)
    requires
        input_sum(events@) <= u64::MAX,
        output_sum(events@) <= u64::MAX,
    ensures
        are_facts(out, events@),
        out.trial@.len() == 0,
        out.task is None,
        out.task_source is None,
        out.attempt is None,
        out.reward is None,
        out.unavailable_selection_reward == double::zero(),
        out.observed@ == observe::nothing(),
{
    let n: usize = events.len();
    let mut made: Vec<(String, String)> = Vec::new();
    let mut by_tool: Table<(u64, u64)> = Table::new();
    let mut timeouts: u64 = 0;
    let mut truncations: u64 = 0;
    let mut repeated_calls: u64 = 0;
    let mut missing_paths: u64 = 0;
    let mut first_edit: Option<u64> = None;
    let mut ending: String = String::new();
    let mut failure: Option<FailureDetail> = None;
    let mut last: String = String::new();
    let mut said: String = String::new();
    let mut input: u64 = 0;
    let mut output: u64 = 0;
    assert(call_views(made@) =~= calls(events@.take(0)));
    for i in 0..n
        invariant
            n == events@.len(),
            input_sum(events@) <= u64::MAX,
            output_sum(events@) <= u64::MAX,
            made@.len() <= i,
            call_views(made@) == calls(events@.take(i as int)),
            by_tool.valid(),
            by_tool.map() == results(events@.take(i as int)),
            results_within(by_tool.map(), i as nat),
            timeouts <= i,
            truncations <= i,
            repeated_calls <= i,
            missing_paths <= i,
            timeouts == killed(events@.take(i as int)),
            truncations == cut(events@.take(i as int)),
            repeated_calls == repeats(calls(events@.take(i as int))),
            missing_paths == missing(events@.take(i as int)),
            match first_edit {
                Some(k) => before_edit(calls(events@.take(i as int))) == Some(k as nat),
                None => before_edit(calls(events@.take(i as int))) is None,
            },
            ending@ == stated_ending(events@.take(i as int)),
            failure == last_failure(events@.take(i as int)),
            last@ == last_kind(events@.take(i as int)),
            said@ == final_text(events@.take(i as int)),
            input == input_sum(events@.take(i as int)),
            output == output_sum(events@.take(i as int)),
    {
        let ghost part = events@.take(i + 1);
        proof {
            assert(part.drop_last() =~= events@.take(i as int));
            assert(part.last() == events@[i as int]);
            lemma_sums_grow(events@, i + 1);
            reveal_strlit("tool_call");
            reveal_strlit("tool_result");
            reveal_strlit("assistant");
            reveal_strlit("failed");
            reveal_strlit("settled");
            reveal_strlit("usage");
            assert("tool_call"@[0] != "assistant"@[0]);
            assert("tool_call"@.len() != "tool_result"@.len());
            assert("tool_call"@[0] != "failed"@[0] && "tool_call"@[0] != "settled"@[0]
                && "tool_call"@[0] != "usage"@[0]);
            assert("tool_result"@[0] != "assistant"@[0] && "tool_result"@[0] != "failed"@[0]
                && "tool_result"@[0] != "settled"@[0] && "tool_result"@[0] != "usage"@[0]);
            assert("assistant"@[0] != "failed"@[0] && "assistant"@[0] != "settled"@[0]
                && "assistant"@[0] != "usage"@[0]);
            assert("failed"@[0] != "settled"@[0] && "failed"@[0] != "usage"@[0]);
            assert("settled"@[0] != "usage"@[0]);
        }
        if let Some(e) = &events[i] {
            let kind: &str = e.kind.as_str();
            if text::same(kind, "tool_call") {
                let ghost before = made@;
                made.push((e.name.clone(), e.args.clone()));
                proof {
                    assert(call_views(made@) =~= call_views(before).push((e.name@, e.args@)));
                    assert(calls(part).drop_last() =~= calls(part.drop_last()));
                    assert(calls(part).last() == (e.name@, e.args@));
                }
                if repeated(&made) {
                    repeated_calls += 1;
                }
                if first_edit.is_none() && (text::same(e.name.as_str(), "write_file")
                    || text::same(e.name.as_str(), "edit_file")) {
                    first_edit = Some((made.len() - 1) as u64);
                }
                said = String::new();
            } else if text::same(kind, "tool_result") {
                let (good, bad): (u64, u64) = match by_tool.get(e.name.as_str()) {
                    Some(pair) => pair,
                    None => (0, 0),
                };
                let ghost earlier = by_tool.map();
                if e.ok {
                    by_tool.set(e.name.as_str(), (good + 1, bad));
                } else {
                    by_tool.set(e.name.as_str(), (good, bad + 1));
                }
                assert(results_within(by_tool.map(), i as nat + 1)) by {
                    assert forall|k: Seq<char>| #[trigger]
                        by_tool.map().contains_key(k) implies by_tool.map()[k].0 <= i + 1
                        && by_tool.map()[k].1 <= i + 1 by {
                        if k != e.name@ {
                            assert(earlier.contains_key(k));
                        }
                    }
                }
                if text::contains(e.output.as_str(), "[killed after") {
                    timeouts += 1;
                }
                if text::contains(e.output.as_str(), "output truncated in the middle")
                    || text::contains(e.output.as_str(), " bytes omitted ...]") {
                    truncations += 1;
                }
                let lower: String = e.output.as_str().to_lowercase();
                if is_missing(lower.as_str()) {
                    missing_paths += 1;
                }
            } else if text::same(kind, "assistant") {
                said = e.text.clone();
            } else if text::same(kind, "failed") {
                match &e.failure {
                    Some(found) => {
                        ending = found.kind.clone();
                        failure = Some(found.copy());
                    },
                    None => {
                        ending = "unknown".to_owned();
                        failure = None;
                    },
                }
            } else if text::same(kind, "settled") {
                ending = "settled".to_owned();
            } else if text::same(kind, "usage") {
                input = input + e.input_tokens;
                output = output + e.output_tokens;
            }
            last = e.kind.clone();
        }
    }
    assert(events@.take(n as int) =~= events@);
    if ending.as_str().is_empty() {
        ending = "unknown".to_owned();
    }
    let chars: Vec<char> = text::chars_of(said.as_str());
    let total: usize = made.len();
    let last_tool: Option<String> = if total == 0 {
        None
    } else {
        assert(call_views(made@).last() == (made@[total - 1].0@, made@[total - 1].1@));
        Some(made[total - 1].0.clone())
    };
    let deliberates: bool = deliberating(said.as_str());
    TrialFacts {
        trial: String::new(),
        task: None,
        task_source: None,
        attempt: None,
        reward: None,
        unavailable_selection_reward: Double { bits: 0 },
        tool_calls: total as u64,
        by_tool,
        timeouts,
        truncations,
        repeated_calls,
        missing_paths,
        ended_deliberating: deliberates,
        no_settle: !text::same(last.as_str(), "settled"),
        calls_before_first_edit: match first_edit {
            Some(k) => k,
            None => u64::MAX,
        },
        ending,
        failure,
        observed: observe::unobserved(),
        last_tool,
        input_tokens: input,
        output_tokens: output,
        final_text_chars: chars.len() as u64,
    }
}

// ---------------------------------------------------------------------------
// Scores and buckets

/// A trial's reward: what the verifier wrote, else what the result file has,
/// at its top or among the verifier's results.
pub fn reward_of(
    verifier: Option<Double>,
    result: Option<Double>,
    nested: Option<Double>,
) -> (out: Option<Double>)
    ensures
        out == if verifier is Some {
            verifier
        } else if result is Some {
            result
        } else {
            nested
        },
{
    if verifier.is_some() {
        verifier
    } else if result.is_some() {
        result
    } else {
        nested
    }
}

impl TrialFacts {
    /// The reward by which a trial is put among the failed or the passed: the
    /// recorded score, or what stands in for one that is not recorded.
    pub open spec fn selected_by(self) -> Double {
        match self.reward {
            Some(reward) => reward,
            None => self.unavailable_selection_reward,
        }
    }

    /// Preserve existing investigation-bucket policy, including its handling of
    /// non-finite input. This is not a recorded score; export `reward` as evidence.
    pub fn selection_reward(&self) -> (out: Double)
        ensures
            out == self.selected_by(),
    {
        match self.reward {
            Some(reward) => reward,
            None => self.unavailable_selection_reward,
        }
    }

    /// Whether the trial is among the failed.
    pub open spec fn is_failed(self) -> bool {
        self.selected_by().below(double::one())
    }

    /// Whether the trial is among the passed.
    pub open spec fn is_passed(self) -> bool {
        self.selected_by().reaches(double::one())
    }

    pub fn failed(&self) -> (r: bool)
        ensures
            r == self.is_failed(),
    {
        self.selection_reward().is_below(Double { bits: double::ONE_BITS })
    }

    pub fn passed(&self) -> (r: bool)
        ensures
            r == self.is_passed(),
    {
        self.selection_reward().is_at_least(Double { bits: double::ONE_BITS })
    }
}

/// A trial's recorded score, finite or none, and what it is selected by without
/// one.
pub fn score(reward: Option<Double>) -> (out: (Option<Double>, Double))
    ensures
        out.0 == match reward {
            Some(found) => if found.is_finite() {
                Some(found)
            } else {
                None
            },
            None => None,
        },
        out.1 == match reward {
            Some(found) => found,
            None => double::zero(),
        },
{
    match reward {
        Some(found) => {
            if found.finite() {
                (Some(found), found)
            } else {
                (None, found)
            }
        },
        None => (None, Double { bits: 0 }),
    }
}

/// No trial is among both the failed and the passed; one is among neither
/// exactly when its reward is not a number. A trial without a reward, or with
/// one that cannot be read, is among the failed and has no recorded score.
pub proof fn buckets_are_disjoint(f: TrialFacts)
    ensures
        !(f.is_failed() && f.is_passed()),
        !f.is_failed() && !f.is_passed() <==> f.selected_by().is_nan(),
        f.reward is None && f.unavailable_selection_reward == double::zero() ==> f.is_failed(),
{
}

impl Ranked for TrialFacts {
    open spec fn precedes(a: &Self, b: &Self) -> bool {
        order::before(a.trial@, b.trial@)
    }

    proof fn lemma_not_both(a: &Self, b: &Self) {
        if Self::precedes(a, b) && Self::precedes(b, a) {
            order::lemma_before_transitive(a.trial@, b.trial@, a.trial@);
            order::lemma_before_irreflexive(a.trial@);
        }
    }

    proof fn lemma_chain(a: &Self, b: &Self, c: &Self) {
        if Self::precedes(c, a) {
            order::lemma_before_total(a.trial@, b.trial@);
            order::lemma_before_total(b.trial@, c.trial@);
            if order::before(a.trial@, b.trial@) {
                order::lemma_before_transitive(c.trial@, a.trial@, b.trial@);
            }
        }
    }

    fn ranks_before(&self, other: &Self) -> (r: bool) {
        order::comes_before(self.trial.as_str(), other.trial.as_str())
    }
}

/// A job's trials by name.
pub fn job(trials: Vec<TrialFacts>) -> (out: Vec<TrialFacts>)
    ensures
        out@ == order::ordered(trials@),
        order::in_order(out@),
        out@.to_multiset() == trials@.to_multiset(),
{
    order::sort(trials)
}

// ---------------------------------------------------------------------------
// Totals

/// Which trials are added up.
#[derive(Clone, Copy, Debug, PartialEq, Eq, Structural)]
pub enum Bucket {
    Failed,
    Passed,
}

/// Whether a trial is in the bucket.
pub open spec fn in_bucket(f: TrialFacts, bucket: Bucket) -> bool {
    match bucket {
        Bucket::Failed => f.is_failed(),
        Bucket::Passed => f.is_passed(),
    }
}

/// A fact that is added up.
#[derive(Clone, Copy, Debug, PartialEq, Eq, Structural)]
pub enum Fact {
    ToolCalls,
    Timeouts,
    Truncations,
    RepeatedCalls,
    MissingPaths,
    EndedDeliberating,
    NoSettle,
    CallsBeforeFirstEdit,
    InputTokens,
}

/// What a trial adds to a fact; nothing where it says nothing about it.
pub open spec fn figure(f: TrialFacts, fact: Fact) -> Option<nat> {
    match fact {
        Fact::ToolCalls => Some(f.tool_calls as nat),
        Fact::Timeouts => Some(f.timeouts as nat),
        Fact::Truncations => Some(f.truncations as nat),
        Fact::RepeatedCalls => Some(f.repeated_calls as nat),
        Fact::MissingPaths => Some(f.missing_paths as nat),
        Fact::EndedDeliberating => Some(
            if f.ended_deliberating {
                1nat
            } else {
                0nat
            },
        ),
        Fact::NoSettle => Some(
            if f.no_settle {
                1nat
            } else {
                0nat
            },
        ),
        Fact::CallsBeforeFirstEdit => if f.calls_before_first_edit == u64::MAX {
            None
        } else {
            Some(f.calls_before_first_edit as nat)
        },
        Fact::InputTokens => Some(f.input_tokens as nat),
    }
}

/// The sum of a fact over the trials of a bucket, and over how many of them.
pub open spec fn sum_of(trials: Seq<TrialFacts>, bucket: Bucket, fact: Fact) -> (nat, nat)
    decreases trials.len(),
{
    if trials.len() == 0 {
        (0, 0)
    } else {
        let (sum, count) = sum_of(trials.drop_last(), bucket, fact);
        if in_bucket(trials.last(), bucket) && figure(trials.last(), fact) is Some {
            (sum + figure(trials.last(), fact)->0, count + 1)
        } else {
            (sum, count)
        }
    }
}

/// How many trials are in the bucket.
pub open spec fn size_of(trials: Seq<TrialFacts>, bucket: Bucket) -> nat
    decreases trials.len(),
{
    if trials.len() == 0 {
        0
    } else {
        size_of(trials.drop_last(), bucket) + if in_bucket(trials.last(), bucket) {
            1nat
        } else {
            0nat
        }
    }
}

/// A sum, and over how many trials it was taken.
#[derive(Clone, Copy, Debug, PartialEq, Eq, Structural)]
pub struct Sum {
    pub total: u128,
    pub over: usize,
}

impl Sum {
    pub open spec fn is(self, pair: (nat, nat)) -> bool {
        self.total == pair.0 && self.over == pair.1
    }
}

/// The facts of a bucket's trials, added up.
#[derive(Debug)]
pub struct Totals {
    pub trials: usize,
    pub tool_calls: Sum,
    pub timeouts: Sum,
    pub truncations: Sum,
    pub repeated_calls: Sum,
    pub missing_paths: Sum,
    pub ended_deliberating: Sum,
    pub no_settle: Sum,
    pub calls_before_first_edit: Sum,
    pub input_tokens: Sum,
    /// The results of each tool, good and bad together.
    pub by_tool: Table<u128>,
    /// How many trials called the tool last.
    pub last_tool: Table<u64>,
}

/// How many results of a tool a trial has, good and bad together.
pub open spec fn results_in(f: TrialFacts, name: Seq<char>) -> nat {
    if f.by_tool.map().contains_key(name) {
        f.by_tool.map()[name].0 as nat + f.by_tool.map()[name].1 as nat
    } else {
        0
    }
}

/// How many results of a tool the trials of a bucket have.
pub open spec fn results_sum(trials: Seq<TrialFacts>, bucket: Bucket, name: Seq<char>) -> nat
    decreases trials.len(),
{
    if trials.len() == 0 {
        0
    } else {
        results_sum(trials.drop_last(), bucket, name) + if in_bucket(trials.last(), bucket) {
            results_in(trials.last(), name)
        } else {
            0
        }
    }
}

/// Whether a trial of a bucket has results of a tool.
pub open spec fn has_results(trials: Seq<TrialFacts>, bucket: Bucket, name: Seq<char>) -> bool
    decreases trials.len(),
{
    trials.len() > 0 && (has_results(trials.drop_last(), bucket, name) || (in_bucket(
        trials.last(),
        bucket,
    ) && trials.last().by_tool.map().contains_key(name)))
}

/// What a table has for a name, nothing being none.
spec fn amount(map: Map<Seq<char>, u128>, name: Seq<char>) -> nat {
    if map.contains_key(name) {
        map[name] as nat
    } else {
        0
    }
}

/// How many results of a tool the first entries of a table have.
spec fn amount_in(map: Map<Seq<char>, (u64, u64)>, name: Seq<char>) -> nat {
    if map.contains_key(name) {
        map[name].0 as nat + map[name].1 as nat
    } else {
        0
    }
}

fn add_results(out: &mut Table<u128>, f: &TrialFacts)
    requires
        old(out).valid(),
        f.by_tool.valid(),
        forall|k: Seq<char>| #[trigger]
            amount(old(out).map(), k) <= u128::MAX - 2 * u64::MAX,
    ensures
        final(out).valid(),
        forall|k: Seq<char>| #[trigger]
            final(out).map().contains_key(k) <==> old(out).map().contains_key(k)
                || f.by_tool.map().contains_key(k),
        forall|k: Seq<char>| #[trigger]
            amount(final(out).map(), k) == amount(old(out).map(), k) + results_in(*f, k),
{
    let n: usize = f.by_tool.entries.len();
    let ghost first = out.map();
    let ghost list = f.by_tool.list();
    assert(table::contents(list.take(0)) =~= Map::empty());
    for j in 0..n
        invariant
            n == f.by_tool.entries@.len(),
            list == f.by_tool.list(),
            f.by_tool.valid(),
            out.valid(),
            forall|k: Seq<char>| #[trigger] amount(first, k) <= u128::MAX - 2 * u64::MAX,
            forall|k: Seq<char>| #[trigger]
                out.map().contains_key(k) <==> first.contains_key(k) || table::contents(
                    list.take(j as int),
                ).contains_key(k),
            forall|k: Seq<char>| #[trigger]
                amount(out.map(), k) == amount(first, k) + amount_in(
                    table::contents(list.take(j as int)),
                    k,
                ),
    {
        let ghost before = out.map();
        let ghost part = table::contents(list.take(j as int));
        let ghost name = list[j as int].0;
        proof {
            assert(list[j as int] == (f.by_tool.entries@[j as int].0@, f.by_tool.entries@[j as int].1));
            assert(list.take(j + 1).drop_last() =~= list.take(j as int));
            assert(list.take(j + 1).last() == list[j as int]);
            assert(!part.contains_key(name)) by {
                table::lemma_contents_domain(list.take(j as int), name);
                if part.contains_key(name) {
                    let i = choose|i: int| table::stands_at(list.take(j as int), name, i);
                    assert(order::before(list[i].0, list[j as int].0));
                    order::lemma_before_irreflexive(name);
                }
            }
            assert(amount(before, name) == amount(first, name) + amount_in(part, name));
        }
        let (good, bad): (u64, u64) = f.by_tool.entries[j].1;
        let so_far: u128 = match out.get(f.by_tool.entries[j].0.as_str()) {
            Some(count) => count,
            None => 0,
        };
        out.set(f.by_tool.entries[j].0.as_str(), so_far + good as u128 + bad as u128);
        proof {
            let next = table::contents(list.take(j + 1));
            assert(next == part.insert(name, (good, bad)));
            assert forall|k: Seq<char>| #[trigger]
                out.map().contains_key(k) <==> first.contains_key(k) || next.contains_key(k) by {
                assert(before.contains_key(k) <==> first.contains_key(k) || part.contains_key(k));
            }
            assert forall|k: Seq<char>| #[trigger]
                amount(out.map(), k) == amount(first, k) + amount_in(next, k) by {
                assert(amount(before, k) == amount(first, k) + amount_in(part, k));
            }
        }
    }
    proof {
        assert(list.take(n as int) =~= list);
        assert forall|k: Seq<char>| #[trigger]
            amount(out.map(), k) == amount(first, k) + results_in(*f, k) by {
            assert(amount(out.map(), k) == amount(first, k) + amount_in(table::contents(list), k));
        }
    }
}

/// The results of each tool over the trials of a bucket, good and bad together.
fn tool_results(trials: &[TrialFacts], bucket: Bucket) -> (out: Table<u128>)
    requires
        trials@.len() <= isize::MAX,
        forall|i: int| 0 <= i < trials@.len() ==> (#[trigger] trials@[i]).by_tool.valid(),
    ensures
        out.valid(),
        forall|name: Seq<char>| #[trigger]
            out.map().contains_key(name) <==> has_results(trials@, bucket, name),
        forall|name: Seq<char>| #[trigger]
            out.map().contains_key(name) ==> out.map()[name] == results_sum(trials@, bucket, name),
{
    let n: usize = trials.len();
    let mut out: Table<u128> = Table::new();
    for i in 0..n
        invariant
            n == trials@.len(),
            n <= isize::MAX,
            forall|i: int| 0 <= i < trials@.len() ==> (#[trigger] trials@[i]).by_tool.valid(),
            out.valid(),
            forall|name: Seq<char>| #[trigger]
                out.map().contains_key(name) <==> has_results(trials@.take(i as int), bucket, name),
            forall|name: Seq<char>| #[trigger]
                amount(out.map(), name) == results_sum(trials@.take(i as int), bucket, name),
            forall|name: Seq<char>| #[trigger] amount(out.map(), name) <= i * (2 * u64::MAX),
    {
        let ghost before = out.map();
        let ghost part = trials@.take(i + 1);
        proof {
            assert(part.drop_last() =~= trials@.take(i as int));
            assert(part.last() == trials@[i as int]);
            assert((i + 1) * (2 * u64::MAX) == i * (2 * u64::MAX) + 2 * u64::MAX)
                by (nonlinear_arith);
            assert((i + 1) * (2 * 0xffff_ffff_ffff_ffff) <= 0x7fff_ffff_ffff_ffff * (2
                * 0xffff_ffff_ffff_ffff)) by (nonlinear_arith)
                requires
                    0 <= i < 0x7fff_ffff_ffff_ffff,
            ;
        }
        if within(&trials[i], bucket) {
            add_results(&mut out, &trials[i]);
        }
        proof {
            assert forall|name: Seq<char>| #[trigger]
                out.map().contains_key(name) <==> has_results(part, bucket, name) by {
                assert(before.contains_key(name) <==> has_results(part.drop_last(), bucket, name));
            }
            assert forall|name: Seq<char>| #[trigger] amount(out.map(), name) == results_sum(
                part,
                bucket,
                name,
            ) by {
                assert(amount(before, name) == results_sum(part.drop_last(), bucket, name));
            }
            assert forall|name: Seq<char>| #[trigger] amount(out.map(), name) <= (i + 1) * (2
                * u64::MAX) by {
                assert(amount(before, name) <= i * (2 * u64::MAX));
                assert(results_in(trials@[i as int], name) <= 2 * u64::MAX);
            }
        }
    }
    proof {
        assert(trials@.take(n as int) =~= trials@);
        assert forall|name: Seq<char>| #[trigger] out.map().contains_key(name) implies out.map()[name]
            == results_sum(trials@, bucket, name) by {
            assert(amount(out.map(), name) == results_sum(trials@, bucket, name));
        }
    }
    out
}

/// How many of the bucket's trials called each tool last.
pub open spec fn last_tools(trials: Seq<TrialFacts>, bucket: Bucket) -> Map<Seq<char>, u64>
    decreases trials.len(),
{
    if trials.len() == 0 {
        Map::empty()
    } else {
        let before = last_tools(trials.drop_last(), bucket);
        if in_bucket(trials.last(), bucket) && trials.last().last_tool is Some {
            let name = trials.last().last_tool->0@;
            before.insert(
                name,
                ((if before.contains_key(name) {
                    before[name]
                } else {
                    0u64
                }) + 1) as u64,
            )
        } else {
            before
        }
    }
}

fn within(f: &TrialFacts, bucket: Bucket) -> (r: bool)
    ensures
        r == in_bucket(*f, bucket),
{
    match bucket {
        Bucket::Failed => f.failed(),
        Bucket::Passed => f.passed(),
    }
}

fn figure_of(f: &TrialFacts, fact: Fact) -> (out: Option<u64>)
    ensures
        out is Some == figure(*f, fact) is Some,
        out matches Some(n) ==> figure(*f, fact) == Some(n as nat),
{
    match fact {
        Fact::ToolCalls => Some(f.tool_calls),
        Fact::Timeouts => Some(f.timeouts),
        Fact::Truncations => Some(f.truncations),
        Fact::RepeatedCalls => Some(f.repeated_calls),
        Fact::MissingPaths => Some(f.missing_paths),
        Fact::EndedDeliberating => Some(
            if f.ended_deliberating {
                1
            } else {
                0
            },
        ),
        Fact::NoSettle => Some(
            if f.no_settle {
                1
            } else {
                0
            },
        ),
        Fact::CallsBeforeFirstEdit => {
            if f.calls_before_first_edit == u64::MAX {
                None
            } else {
                Some(f.calls_before_first_edit)
            }
        },
        Fact::InputTokens => Some(f.input_tokens),
    }
}

/// The sum of a fact over the trials of a bucket, and over how many of them.
pub fn sum(trials: &[TrialFacts], bucket: Bucket, fact: Fact) -> (out: Sum)
    ensures
        out.is(sum_of(trials@, bucket, fact)),
{
    let n: usize = trials.len();
    let mut total: u128 = 0;
    let mut over: usize = 0;
    for i in 0..n
        invariant
            n == trials@.len(),
            over <= i,
            total <= i * u64::MAX,
            sum_of(trials@.take(i as int), bucket, fact) == (total as nat, over as nat),
    {
        assert(trials@.take(i + 1).drop_last() =~= trials@.take(i as int));
        assert(i * u64::MAX <= 0xffff_ffff_ffff_ffff * 0xffff_ffff_ffff_ffff) by (nonlinear_arith)
            requires
                0 <= i <= 0xffff_ffff_ffff_ffff,
        ;
        assert((i + 1) * u64::MAX == i * u64::MAX + u64::MAX) by (nonlinear_arith);
        if within(&trials[i], bucket) {
            if let Some(more) = figure_of(&trials[i], fact) {
                total = total + more as u128;
                over += 1;
            }
        }
    }
    assert(trials@.take(n as int) =~= trials@);
    Sum { total, over }
}

/// The facts of a bucket's trials, added up.
pub fn aggregate(trials: &[TrialFacts], bucket: Bucket) -> (out: Totals)
    requires
        trials@.len() <= isize::MAX,
        forall|i: int| 0 <= i < trials@.len() ==> (#[trigger] trials@[i]).by_tool.valid(),
    ensures
        out.trials == size_of(trials@, bucket),
        out.tool_calls.is(sum_of(trials@, bucket, Fact::ToolCalls)),
        out.timeouts.is(sum_of(trials@, bucket, Fact::Timeouts)),
        out.truncations.is(sum_of(trials@, bucket, Fact::Truncations)),
        out.repeated_calls.is(sum_of(trials@, bucket, Fact::RepeatedCalls)),
        out.missing_paths.is(sum_of(trials@, bucket, Fact::MissingPaths)),
        out.ended_deliberating.is(sum_of(trials@, bucket, Fact::EndedDeliberating)),
        out.no_settle.is(sum_of(trials@, bucket, Fact::NoSettle)),
        out.calls_before_first_edit.is(sum_of(trials@, bucket, Fact::CallsBeforeFirstEdit)),
        out.input_tokens.is(sum_of(trials@, bucket, Fact::InputTokens)),
        out.by_tool.valid(),
        forall|name: Seq<char>| #[trigger]
            out.by_tool.map().contains_key(name) <==> has_results(trials@, bucket, name),
        forall|name: Seq<char>| #[trigger]
            out.by_tool.map().contains_key(name) ==> out.by_tool.map()[name] == results_sum(
                trials@,
                bucket,
                name,
            ),
        out.last_tool.valid(),
        out.last_tool.map() == last_tools(trials@, bucket),
{
    let n: usize = trials.len();
    let mut size: usize = 0;
    let mut last_tool: Table<u64> = Table::new();
    for i in 0..n
        invariant
            n == trials@.len(),
            size <= i,
            size == size_of(trials@.take(i as int), bucket),
            last_tool.valid(),
            last_tool.map() == last_tools(trials@.take(i as int), bucket),
            forall|k: Seq<char>| #[trigger]
                last_tool.map().contains_key(k) ==> last_tool.map()[k] <= i,
    {
        assert(trials@.take(i + 1).drop_last() =~= trials@.take(i as int));
        if within(&trials[i], bucket) {
            size += 1;
            if let Some(name) = &trials[i].last_tool {
                let ghost before = last_tool.map();
                let count: u64 = match last_tool.get(name.as_str()) {
                    Some(count) => count,
                    None => 0,
                };
                last_tool.set(name.as_str(), count + 1);
                assert forall|k: Seq<char>| #[trigger]
                    last_tool.map().contains_key(k) implies last_tool.map()[k] <= i + 1 by {
                    if k != name@ {
                        assert(before.contains_key(k));
                    }
                }
            }
        }
    }
    assert(trials@.take(n as int) =~= trials@);
    Totals {
        trials: size,
        tool_calls: sum(trials, bucket, Fact::ToolCalls),
        timeouts: sum(trials, bucket, Fact::Timeouts),
        truncations: sum(trials, bucket, Fact::Truncations),
        repeated_calls: sum(trials, bucket, Fact::RepeatedCalls),
        missing_paths: sum(trials, bucket, Fact::MissingPaths),
        ended_deliberating: sum(trials, bucket, Fact::EndedDeliberating),
        no_settle: sum(trials, bucket, Fact::NoSettle),
        calls_before_first_edit: sum(trials, bucket, Fact::CallsBeforeFirstEdit),
        input_tokens: sum(trials, bucket, Fact::InputTokens),
        by_tool: tool_results(trials, bucket),
        last_tool,
    }
}

/// Mean of each counted fact over a set of trials.
#[derive(Debug)]
pub struct Aggregate {
    pub trials: usize,
    pub tool_calls: Double,
    pub timeouts: Double,
    pub truncations: Double,
    pub repeated_calls: Double,
    pub missing_paths: Double,
    pub ended_deliberating: Double,
    pub no_settle: Double,
    pub calls_before_first_edit: Double,
    /// Unknown where the usage behind it is.
    pub input_tokens: Option<Double>,
    pub by_tool: Vec<(String, Double)>,
    pub last_tool: Table<u64>,
}

/// What the trials of a job did.
#[derive(Debug)]
pub struct Digest {
    pub evaluation: Option<EvaluationMetadata>,
    pub failed: Aggregate,
    pub passed: Aggregate,
    pub trials: Vec<TrialFacts>,
}

/// The tools of either list, each once and in order.
pub fn tool_names(failed: &[(String, Double)], passed: &[(String, Double)]) -> (out: Table<bool>)
    ensures
        out.valid(),
        forall|name: Seq<char>| #[trigger]
            out.map().contains_key(name) <==> names(failed@).contains(name) || names(
                passed@,
            ).contains(name),
{
    let mut out: Table<bool> = Table::new();
    assert(names(failed@).take(0) =~= Seq::empty());
    add_names(&mut out, failed);
    add_names(&mut out, passed);
    out
}

/// The names of a list's tools.
pub open spec fn names(list: Seq<(String, Double)>) -> Seq<Seq<char>> {
    Seq::new(list.len(), |i: int| list[i].0@)
}

fn add_names(out: &mut Table<bool>, list: &[(String, Double)])
    requires
        old(out).valid(),
    ensures
        final(out).valid(),
        forall|name: Seq<char>| #[trigger]
            final(out).map().contains_key(name) <==> old(out).map().contains_key(name) || names(
                list@,
            ).contains(name),
{
    let n: usize = list.len();
    let ghost first = out.map();
    let ghost all = names(list@);
    for i in 0..n
        invariant
            n == list@.len(),
            all == names(list@),
            out.valid(),
            forall|name: Seq<char>| #[trigger]
                out.map().contains_key(name) <==> first.contains_key(name) || all.take(
                    i as int,
                ).contains(name),
    {
        let ghost before = out.map();
        out.set(list[i].0.as_str(), true);
        assert forall|name: Seq<char>| #[trigger]
            out.map().contains_key(name) <==> first.contains_key(name) || all.take(
                i + 1,
            ).contains(name) by {
            assert(before.contains_key(name) <==> first.contains_key(name) || all.take(
                i as int,
            ).contains(name));
            assert(all.take(i + 1) =~= all.take(i as int).push(all[i as int]));
            assert(all[i as int] == list@[i as int].0@);
            if all.take(i as int).contains(name) {
                let fewer = all.take(i as int);
                let k = choose|k: int| 0 <= k < fewer.len() && fewer[k] == name;
                assert(all.take(i + 1)[k] == name);
            }
            if name == all[i as int] {
                assert(all.take(i + 1)[i as int] == name);
            }
            if all.take(i + 1).contains(name) && name != all[i as int] {
                let more = all.take(i + 1);
                let k = choose|k: int| 0 <= k < more.len() && more[k] == name;
                assert(all.take(i as int)[k] == name);
            }
        }
    }
    assert(all.take(n as int) =~= all);
}

// ---------------------------------------------------------------------------
// The digest as text

/// The facts of the first table, in the order in which level ones stay.
pub const FACTS: [&'static str; 9] = [
    "tool calls",
    "bash timeouts",
    "truncated results",
    "repeated identical calls",
    "results naming a missing path",
    "ended in deliberation, not a summary",
    "ended without settling",
    "calls before the first edit",
    "input tokens",
];

/// A fact's means, how they are shown, and the failed mean over the passed.
#[derive(Debug)]
pub struct Cell {
    pub failed: Double,
    pub passed: Double,
    pub quotient: Double,
    pub failed_shown: String,
    pub passed_shown: String,
}

/// How much more of a fact the failed trials have: the quotient, without bound
/// where only they have any, level where neither has.
pub open spec fn excess(cell: Cell) -> Double {
    if double::zero().below(cell.passed) {
        cell.quotient
    } else if double::zero().below(cell.failed) {
        Double { bits: double::INFINITE }
    } else {
        double::one()
    }
}

/// A row of the first table.
#[derive(Debug)]
pub struct FactRow {
    pub name: &'static str,
    pub failed: String,
    pub passed: String,
    pub excess: Double,
}

impl Ranked for FactRow {
    open spec fn precedes(a: &Self, b: &Self) -> bool {
        a.excess.total_rank() > b.excess.total_rank()
    }

    proof fn lemma_not_both(a: &Self, b: &Self) {
    }

    proof fn lemma_chain(a: &Self, b: &Self, c: &Self) {
    }

    fn ranks_before(&self, other: &Self) -> (r: bool) {
        other.excess.is_totally_below(self.excess)
    }
}

/// The rows of the first table before they are put in order.
pub open spec fn fact_rows(rows: Seq<FactRow>, cells: Seq<Cell>) -> bool {
    &&& rows.len() == cells.len()
    &&& forall|i: int|
        0 <= i < cells.len() ==> {
            &&& (#[trigger] rows[i]).name@ == FACTS@[i]@
            &&& rows[i].failed@ == cells[i].failed_shown@
            &&& rows[i].passed@ == cells[i].passed_shown@
            &&& rows[i].excess == excess(cells[i])
        }
}

/// The first table shows every fact once, those that failed trials have most of
/// beyond passed ones first.
pub proof fn facts_come_in_order_of_excess(rows: Seq<FactRow>, i: int, j: int)
    requires
        0 <= i < j < rows.len(),
    ensures
        order::ordered(rows)[i].excess.total_rank() >= order::ordered(
            rows,
        )[j].excess.total_rank(),
        order::ordered(rows).to_multiset() == rows.to_multiset(),
{
    order::lemma_ordered(rows);
    assert(!FactRow::precedes(&order::ordered(rows)[j], &order::ordered(rows)[i]));
}

/// The first table's text, from its rows in order.
pub open spec fn fact_text(rows: Seq<FactRow>) -> Seq<char>
    decreases rows.len(),
{
    if rows.len() == 0 {
        Seq::empty()
    } else {
        fact_text(rows.drop_last()) + "| "@ + rows.last().name@ + " | "@ + rows.last().failed@
            + " | "@ + rows.last().passed@ + " |\n"@
    }
}

/// A tool's mean calls, as they are shown.
#[derive(Debug)]
pub struct ToolRow {
    pub tool: String,
    pub failed: String,
    pub passed: String,
}

/// The second table's text.
pub open spec fn tool_text(rows: Seq<ToolRow>) -> Seq<char>
    decreases rows.len(),
{
    if rows.len() == 0 {
        Seq::empty()
    } else {
        tool_text(rows.drop_last()) + "| "@ + rows.last().tool@ + " | "@ + rows.last().failed@
            + " | "@ + rows.last().passed@ + " |\n"@
    }
}

/// How a failed trial's ending is shown.
pub open spec fn ending_text(f: TrialFacts) -> Seq<char> {
    if f.no_settle {
        "no settle: "@ + shortened(f.ending@, 80)
    } else if f.ended_deliberating {
        "deliberating"@
    } else {
        "summary"@
    }
}

/// A failed trial's row.
pub open spec fn trial_text(f: TrialFacts) -> Seq<char> {
    "| "@ + f.trial@ + " | "@ + lines::digits(f.tool_calls as nat) + " | "@ + lines::digits(
        f.timeouts as nat,
    ) + " | "@ + lines::digits(f.truncations as nat) + " | "@ + lines::digits(
        f.repeated_calls as nat,
    ) + " | "@ + lines::digits(f.missing_paths as nat) + " | "@ + ending_text(f) + " | "@ + (
    match f.last_tool {
        Some(tool) => tool@,
        None => "-"@,
    }) + " |\n"@
}

/// The failed trials' rows.
pub open spec fn trials_text(trials: Seq<TrialFacts>) -> Seq<char>
    decreases trials.len(),
{
    if trials.len() == 0 {
        Seq::empty()
    } else {
        trials_text(trials.drop_last()) + if trials.last().is_failed() {
            trial_text(trials.last())
        } else {
            Seq::empty()
        }
    }
}

/// The endings that a witness saw.
pub open spec fn endings_of(o: Observed) -> Seq<Seq<char>> {
    Seq::new(o.endings@.len(), |i: int| o.endings@[i].ending@)
}

/// What the witness saw in one failed trial.
pub open spec fn witness_text(f: TrialFacts) -> Seq<char> {
    let o = f.observed;
    "| "@ + f.trial@ + " | "@ + (if o.complete {
        "complete"@
    } else {
        "incomplete"@
    }) + " | "@ + lines::digits(o.stream_truncations as nat) + " | "@ + lines::digits(
        o.denials as nat,
    ) + " | "@ + lines::digits(o.provider_retries as nat) + " | "@ + lines::digits(
        o.refusals as nat,
    ) + " | "@ + lines::digits(o.holds as nat) + " ("@ + lines::digits(o.held_denied as nat)
        + ") | "@ + lines::digits(o.cancelled_in_flight as nat) + " | "@ + lines::joined(
        endings_of(o),
        " → "@,
    ) + " | "@ + (match o.last_failure {
        Some(failure) => shortened(failure.shown@, 80),
        None => Seq::empty(),
    }) + " |\n"@
}

/// What the witness saw in the failed trials, one by one.
pub open spec fn witness_rows(trials: Seq<TrialFacts>) -> Seq<char>
    decreases trials.len(),
{
    if trials.len() == 0 {
        Seq::empty()
    } else {
        witness_rows(trials.drop_last()) + if trials.last().is_failed() {
            witness_text(trials.last())
        } else {
            Seq::empty()
        }
    }
}

/// Whether a failed trial has something a witness saw.
pub open spec fn has_witness(trials: Seq<TrialFacts>) -> bool {
    exists|i: int|
        0 <= i < trials.len() && (#[trigger] trials[i]).is_failed() && trials[i].observed@
            != observe::nothing()
}

/// The heading of what the witness saw.
pub const WITNESS_HEADER: &'static str =
    "\n### What the witness saw in failed trials\n\n| trial | trace | stream truncations | denials | provider retries | refusals | holds (denied) | cancelled in flight | endings | last failure |\n|---|---|---|---|---|---|---|---|---|---|\n";

/// What the witness saw in the failed trials; nothing where it saw nothing.
pub open spec fn observed_text(trials: Seq<TrialFacts>) -> Seq<char> {
    if has_witness(trials) {
        WITNESS_HEADER@ + witness_rows(trials)
    } else {
        Seq::empty()
    }
}

/// Whether a trial has no recorded score.
pub open spec fn has_unscored(trials: Seq<TrialFacts>) -> bool {
    exists|i: int| 0 <= i < trials.len() && (#[trigger] trials[i]).reward is None
}

/// What is said where a trial has no recorded score.
pub const UNSCORED_NOTE: &'static str =
    "The failed bucket includes unscored trials under the existing selection policy. A null reward means unavailable evidence, not a recorded task failure.\n\n";

/// The digest as the first section of a report, from the rows of its first
/// table in order.
pub open spec fn digest_text(
    failed: nat,
    passed: nat,
    rows: Seq<FactRow>,
    tools: Seq<ToolRow>,
    trials: Seq<TrialFacts>,
) -> Seq<char> {
    "## Digest: "@ + lines::digits(failed) + " failed trial(s) vs "@ + lines::digits(passed)
        + " passed\n\n"@ + (if has_unscored(trials) {
        UNSCORED_NOTE@
    } else {
        Seq::empty()
    })
        + "### What failed trials did more of\n\n| fact (mean per trial) | failed | passed |\n|---|---|---|\n"@
        + fact_text(rows)
        + "\n### Calls per tool (mean per trial)\n\n| tool | failed | passed |\n|---|---|---|\n"@
        + tool_text(tools)
        + "\n### Failed trials\n\n| trial | calls | timeouts | truncated | repeats | missing paths | ending | last tool |\n|---|---|---|---|---|---|---|---|\n"@
        + trials_text(trials) + "\n"@ + observed_text(trials)
}

fn cell_excess(cell: &Cell) -> (out: Double)
    ensures
        out == excess(*cell),
{
    let zero: Double = Double { bits: 0 };
    if zero.is_below(cell.passed) {
        cell.quotient
    } else if zero.is_below(cell.failed) {
        Double { bits: double::INFINITE }
    } else {
        Double { bits: double::ONE_BITS }
    }
}

fn make_rows(cells: &[Cell]) -> (out: Vec<FactRow>)
    requires
        cells@.len() == FACTS@.len(),
    ensures
        fact_rows(out@, cells@),
{
    let mut out: Vec<FactRow> = Vec::new();
    for i in 0..9usize
        invariant
            cells@.len() == 9,
            out@.len() == i,
            forall|j: int|
                0 <= j < i ==> {
                    &&& (#[trigger] out@[j]).name@ == FACTS@[j]@
                    &&& out@[j].failed@ == cells@[j].failed_shown@
                    &&& out@[j].passed@ == cells@[j].passed_shown@
                    &&& out@[j].excess == excess(cells@[j])
                },
    {
        out.push(
            FactRow {
                name: FACTS[i],
                failed: cells[i].failed_shown.clone(),
                passed: cells[i].passed_shown.clone(),
                excess: cell_excess(&cells[i]),
            },
        );
    }
    out
}

fn append_number(out: &mut String, n: u64)
    ensures
        final(out)@ == old(out)@ + lines::digits(n as nat),
{
    let shown: String = lines::number(n);
    out.append(shown.as_str());
}

fn render_trial(f: &TrialFacts) -> (out: String)
    ensures
        out@ == trial_text(*f),
{
    let mut out: String = "| ".to_owned();
    out.append(f.trial.as_str());
    out.append(" | ");
    append_number(&mut out, f.tool_calls);
    out.append(" | ");
    append_number(&mut out, f.timeouts);
    out.append(" | ");
    append_number(&mut out, f.truncations);
    out.append(" | ");
    append_number(&mut out, f.repeated_calls);
    out.append(" | ");
    append_number(&mut out, f.missing_paths);
    out.append(" | ");
    let mut ending: String = String::new();
    if f.no_settle {
        ending.append("no settle: ");
        let shown: String = short(f.ending.as_str(), 80);
        ending.append(shown.as_str());
    } else if f.ended_deliberating {
        ending.append("deliberating");
    } else {
        ending.append("summary");
    }
    assert(ending@ =~= ending_text(*f));
    out.append(ending.as_str());
    out.append(" | ");
    match &f.last_tool {
        Some(tool) => {
            out.append(tool.as_str());
        },
        None => {
            out.append("-");
        },
    }
    out.append(" |\n");
    assert(out@ =~= trial_text(*f));
    out
}

fn render_witness(f: &TrialFacts) -> (out: String)
    ensures
        out@ == witness_text(*f),
{
    let o: &Observed = &f.observed;
    let mut out: String = "| ".to_owned();
    out.append(f.trial.as_str());
    out.append(" | ");
    if o.complete {
        out.append("complete");
    } else {
        out.append("incomplete");
    }
    out.append(" | ");
    append_number(&mut out, o.stream_truncations);
    out.append(" | ");
    append_number(&mut out, o.denials);
    out.append(" | ");
    append_number(&mut out, o.provider_retries);
    out.append(" | ");
    append_number(&mut out, o.refusals);
    out.append(" | ");
    append_number(&mut out, o.holds);
    out.append(" (");
    append_number(&mut out, o.held_denied);
    out.append(") | ");
    append_number(&mut out, o.cancelled_in_flight);
    out.append(" | ");
    let n: usize = o.endings.len();
    let mut endings: Vec<String> = Vec::new();
    for i in 0..n
        invariant
            n == o.endings@.len(),
            endings@.len() == i,
            forall|j: int| 0 <= j < i ==> (#[trigger] endings@[j])@ == o.endings@[j].ending@,
    {
        endings.push(o.endings[i].ending.clone());
    }
    assert(text::views(endings@) =~= endings_of(*o));
    let all: String = lines::join(&endings, " → ");
    out.append(all.as_str());
    out.append(" | ");
    if let Some(failure) = &o.last_failure {
        let shown: String = short(failure.shown.as_str(), 80);
        out.append(shown.as_str());
    }
    out.append(" |\n");
    assert(out@ =~= witness_text(*f));
    out
}

/// The witness's counts for the failed trials: what a transcript cannot
/// say about why a run ended.
pub fn render_observed(trials: &[TrialFacts]) -> (out: String)
    ensures
        out@ == observed_text(trials@),
{
    let n: usize = trials.len();
    let mut found: bool = false;
    let mut rows: String = String::new();
    for i in 0..n
        invariant
            n == trials@.len(),
            found == has_witness(trials@.take(i as int)),
            rows@ == witness_rows(trials@.take(i as int)),
    {
        let ghost before = trials@.take(i as int);
        let ghost part = trials@.take(i + 1);
        proof {
            assert(part.drop_last() =~= before);
            assert(part.last() == trials@[i as int]);
            assert(rows@ + Seq::<char>::empty() =~= rows@);
            if has_witness(before) {
                let k = choose|k: int|
                    0 <= k < before.len() && (#[trigger] before[k]).is_failed()
                        && before[k].observed@ != observe::nothing();
                assert(part[k] == before[k]);
            }
            if has_witness(part) && !(part.last().is_failed() && part.last().observed@
                != observe::nothing()) {
                let k = choose|k: int|
                    0 <= k < part.len() && (#[trigger] part[k]).is_failed() && part[k].observed@
                        != observe::nothing();
                assert(before[k] == part[k]);
            }
        }
        if trials[i].failed() {
            let row: String = render_witness(&trials[i]);
            rows.append(row.as_str());
            if !observe::is_nothing(&trials[i].observed) {
                found = true;
                assert(part[i as int].is_failed());
            }
        }
    }
    assert(trials@.take(n as int) =~= trials@);
    if !found {
        return String::new();
    }
    let mut out: String = WITNESS_HEADER.to_owned();
    out.append(rows.as_str());
    out
}

/// The digest as the first section of a report: the facts in order of how much
/// more of them the failed trials have, the tools, and the failed trials.
pub fn render(
    failed: usize,
    passed: usize,
    cells: &[Cell],
    tools: &[ToolRow],
    trials: &[TrialFacts],
) -> (out: String)
    requires
        cells@.len() == FACTS@.len(),
    ensures
        exists|rows: Seq<FactRow>| #[trigger]
            fact_rows(rows, cells@) && out@ == digest_text(
                failed as nat,
                passed as nat,
                order::ordered(rows),
                tools@,
                trials@,
            ),
{
    let mut out: String = "## Digest: ".to_owned();
    let shown: String = lines::count(failed);
    out.append(shown.as_str());
    out.append(" failed trial(s) vs ");
    let shown: String = lines::count(passed);
    out.append(shown.as_str());
    out.append(" passed\n\n");
    let n: usize = trials.len();
    let mut unscored: bool = false;
    let mut sections: String = String::new();
    for i in 0..n
        invariant
            n == trials@.len(),
            unscored == has_unscored(trials@.take(i as int)),
            sections@ == trials_text(trials@.take(i as int)),
    {
        let ghost before = trials@.take(i as int);
        let ghost part = trials@.take(i + 1);
        proof {
            assert(part.drop_last() =~= before);
            assert(part.last() == trials@[i as int]);
            assert(sections@ + Seq::<char>::empty() =~= sections@);
            if has_unscored(before) {
                let k = choose|k: int| 0 <= k < before.len() && (#[trigger] before[k]).reward is None;
                assert(part[k] == before[k]);
            }
            if has_unscored(part) && part.last().reward is Some {
                let k = choose|k: int| 0 <= k < part.len() && (#[trigger] part[k]).reward is None;
                assert(before[k] == part[k]);
            }
        }
        if trials[i].reward.is_none() {
            unscored = true;
            assert(part[i as int].reward is None);
        }
        if trials[i].failed() {
            let row: String = render_trial(&trials[i]);
            sections.append(row.as_str());
        }
    }
    assert(trials@.take(n as int) =~= trials@);
    if unscored {
        out.append(UNSCORED_NOTE);
    } else {
        assert(out@ + Seq::<char>::empty() =~= out@);
    }
    out.append(
        "### What failed trials did more of\n\n| fact (mean per trial) | failed | passed |\n|---|---|---|\n",
    );
    let rows: Vec<FactRow> = make_rows(cells);
    let ghost plain = rows@;
    let sorted: Vec<FactRow> = order::sort(rows);
    let ghost first = out@;
    let m: usize = sorted.len();
    assert(first + fact_text(sorted@.take(0)) =~= first);
    for i in 0..m
        invariant
            m == sorted@.len(),
            out@ == first + fact_text(sorted@.take(i as int)),
    {
        assert(sorted@.take(i + 1).drop_last() =~= sorted@.take(i as int));
        out.append("| ");
        out.append(sorted[i].name);
        out.append(" | ");
        out.append(sorted[i].failed.as_str());
        out.append(" | ");
        out.append(sorted[i].passed.as_str());
        out.append(" |\n");
        assert(out@ =~= first + fact_text(sorted@.take(i + 1)));
    }
    assert(sorted@.take(m as int) =~= sorted@);
    out.append(
        "\n### Calls per tool (mean per trial)\n\n| tool | failed | passed |\n|---|---|---|\n",
    );
    let ghost second = out@;
    let t: usize = tools.len();
    assert(second + tool_text(tools@.take(0)) =~= second);
    for i in 0..t
        invariant
            t == tools@.len(),
            out@ == second + tool_text(tools@.take(i as int)),
    {
        assert(tools@.take(i + 1).drop_last() =~= tools@.take(i as int));
        out.append("| ");
        out.append(tools[i].tool.as_str());
        out.append(" | ");
        out.append(tools[i].failed.as_str());
        out.append(" | ");
        out.append(tools[i].passed.as_str());
        out.append(" |\n");
        assert(out@ =~= second + tool_text(tools@.take(i + 1)));
    }
    assert(tools@.take(t as int) =~= tools@);
    out.append(
        "\n### Failed trials\n\n| trial | calls | timeouts | truncated | repeats | missing paths | ending | last tool |\n|---|---|---|---|---|---|---|---|\n",
    );
    out.append(sections.as_str());
    out.append("\n");
    let seen: String = render_observed(trials);
    out.append(seen.as_str());
    proof {
        assert(fact_rows(plain, cells@));
        assert(out@ =~= digest_text(
            failed as nat,
            passed as nat,
            order::ordered(plain),
            tools@,
            trials@,
        ));
    }
    out
}

// ---------------------------------------------------------------------------
// What the facts say of a transcript

/// The tool calls of a transcript, by name and arguments, in order.
pub open spec fn called(events: Seq<Option<Event>>) -> Seq<(Seq<char>, Seq<char>)> {
    events.filter(|e: Option<Event>| e is Some && e->0.kind@ == "tool_call"@).map_values(
        |e: Option<Event>| (e->0.name@, e->0.args@),
    )
}

/// How many lines of a transcript are results of which `holds` is true.
pub open spec fn results_where(
    events: Seq<Option<Event>>,
    holds: spec_fn(Event) -> bool,
) -> nat {
    events.filter(
        |e: Option<Event>| e is Some && e->0.kind@ == "tool_result"@ && holds(e->0),
    ).len()
}

proof fn lemma_called(events: Seq<Option<Event>>)
    ensures
        calls(events) == called(events),
    decreases events.len(),
{
    reveal(Seq::filter);
    if events.len() > 0 {
        lemma_called(events.drop_last());
    }
    assert(calls(events) =~= called(events));
}

/// Every tool call of a transcript is counted; a result is counted as killed, as cut in
/// the middle, and as naming a missing path, by what its output says; and no other line
/// is counted as any of these.
pub proof fn every_call_and_result_is_counted(f: TrialFacts, events: Seq<Option<Event>>)
    requires
        are_facts(f, events),
    ensures
        f.tool_calls == called(events).len(),
        f.timeouts == results_where(
            events,
            |e: Event| text::occurs(e.output@, "[killed after"@),
        ),
        f.truncations == results_where(
            events,
            |e: Event|
                text::occurs(e.output@, "output truncated in the middle"@) || text::occurs(
                    e.output@,
                    " bytes omitted ...]"@,
                ),
        ),
        f.missing_paths == results_where(
            events,
            |e: Event|
                text::occurs(text::lowercase(e.output@), "cannot read"@) || text::occurs(
                    text::lowercase(e.output@),
                    "no such file"@,
                ) || text::occurs(text::lowercase(e.output@), "not found in"@) || text::occurs(
                    text::lowercase(e.output@),
                    "old_string not found"@,
                ),
        ),
{
    lemma_called(events);
    lemma_killed(events);
    lemma_cut(events);
    lemma_missing(events);
}

proof fn lemma_killed(events: Seq<Option<Event>>)
    ensures
        killed(events) == results_where(
            events,
            |e: Event| text::occurs(e.output@, "[killed after"@),
        ),
    decreases events.len(),
{
    reveal(Seq::filter);
    if events.len() > 0 {
        lemma_killed(events.drop_last());
    }
}

proof fn lemma_cut(events: Seq<Option<Event>>)
    ensures
        cut(events) == results_where(
            events,
            |e: Event|
                text::occurs(e.output@, "output truncated in the middle"@) || text::occurs(
                    e.output@,
                    " bytes omitted ...]"@,
                ),
        ),
    decreases events.len(),
{
    reveal(Seq::filter);
    if events.len() > 0 {
        lemma_cut(events.drop_last());
    }
}

proof fn lemma_missing(events: Seq<Option<Event>>)
    ensures
        missing(events) == results_where(
            events,
            |e: Event|
                text::occurs(text::lowercase(e.output@), "cannot read"@) || text::occurs(
                    text::lowercase(e.output@),
                    "no such file"@,
                ) || text::occurs(text::lowercase(e.output@), "not found in"@) || text::occurs(
                    text::lowercase(e.output@),
                    "old_string not found"@,
                ),
        ),
    decreases events.len(),
{
    reveal(Seq::filter);
    if events.len() > 0 {
        lemma_missing(events.drop_last());
    }
}

/// Whether a line calls a tool that writes or edits a file.
pub open spec fn is_edit_call(e: Option<Event>) -> bool {
    e is Some && e->0.kind@ == "tool_call"@ && (e->0.name@ == "write_file"@ || e->0.name@
        == "edit_file"@)
}

proof fn lemma_before_edit(events: Seq<Option<Event>>, i: int)
    ensures
        before_edit(calls(events)) is None <==> forall|k: int|
            0 <= k < events.len() ==> !is_edit_call(#[trigger] events[k]),
        0 <= i < events.len() && is_edit_call(events[i]) && (forall|k: int|
            0 <= k < i ==> !is_edit_call(#[trigger] events[k])) ==> before_edit(calls(events))
            == Some(calls(events.take(i)).len()),
    decreases events.len(),
{
    if events.len() > 0 {
        let init = events.drop_last();
        let last = events[events.len() - 1];
        lemma_before_edit(init, i);
        if is_kind(last, "tool_call"@) {
            assert(calls(events).drop_last() =~= calls(init));
        }
        assert forall|k: int| 0 <= k < init.len() implies #[trigger] init[k] == events[k] by {}
        if before_edit(calls(events)) is None {
            assert forall|k: int| 0 <= k < events.len() implies !is_edit_call(
                #[trigger] events[k],
            ) by {
                if k < init.len() {
                    assert(!is_edit_call(init[k]));
                }
            }
        }
        if forall|k: int| 0 <= k < events.len() ==> !is_edit_call(#[trigger] events[k]) {
            assert forall|k: int| 0 <= k < init.len() implies !is_edit_call(#[trigger] init[k]) by {
                assert(!is_edit_call(events[k]));
            }
            assert(!is_edit_call(last));
        }
        if 0 <= i < events.len() && is_edit_call(events[i]) && (forall|k: int|
            0 <= k < i ==> !is_edit_call(#[trigger] events[k])) {
            if i < init.len() {
                assert(init.take(i) =~= events.take(i));
                assert forall|k: int| 0 <= k < i implies !is_edit_call(#[trigger] init[k]) by {
                    assert(!is_edit_call(events[k]));
                }
            } else {
                assert(events.take(i) =~= init);
                assert forall|k: int| 0 <= k < init.len() implies !is_edit_call(
                    #[trigger] init[k],
                ) by {
                    assert(!is_edit_call(events[k]));
                }
            }
        }
    }
}

/// The first edit is the first call of `write_file` or of `edit_file`, whichever comes
/// first: what is counted before it is the number of calls before that line, and it
/// stands as never made exactly when no line calls either.
pub proof fn the_first_edit_is_the_first_call_that_edits(
    f: TrialFacts,
    events: Seq<Option<Event>>,
    i: int,
)
    requires
        are_facts(f, events),
        events.len() <= u64::MAX,
    ensures
        f.calls_before_first_edit == u64::MAX <==> forall|k: int|
            0 <= k < events.len() ==> !is_edit_call(#[trigger] events[k]),
        0 <= i < events.len() && is_edit_call(events[i]) && (forall|k: int|
            0 <= k < i ==> !is_edit_call(#[trigger] events[k])) ==> f.calls_before_first_edit
            == called(events.take(i)).len(),
{
    lemma_before_edit(events, i);
    lemma_called(events.take(i));
    lemma_edit_bound(events);
}

proof fn lemma_edit_bound(events: Seq<Option<Event>>)
    ensures
        calls(events).len() <= events.len(),
        before_edit(calls(events)) matches Some(n) ==> n < events.len(),
    decreases events.len(),
{
    if events.len() > 0 {
        lemma_edit_bound(events.drop_last());
        if is_kind(events.last(), "tool_call"@) {
            assert(calls(events).drop_last() =~= calls(events.drop_last()));
        }
    }
}

/// Which calls repeat one of the five before them, by name and arguments, among the
/// first `n`.
pub open spec fn repeating(made: Seq<(Seq<char>, Seq<char>)>, n: int) -> Set<int> {
    Set::new(
        |k: int|
            0 <= k < n && exists|j: int| 0 <= j && k - 5 <= j < k && #[trigger] made[j] == made[k],
    )
}

proof fn lemma_repeating(made: Seq<(Seq<char>, Seq<char>)>, n: int)
    requires
        0 <= n <= made.len(),
    ensures
        repeating(made, n).finite(),
        repeating(made, n).len() == repeats(made.take(n)),
    decreases n,
{
    if n == 0 {
        assert(repeating(made, 0) =~= Set::empty());
    } else {
        lemma_repeating(made, n - 1);
        let part = made.take(n);
        assert(part.drop_last() =~= made.take(n - 1));
        assert(part.last() == made[n - 1]);
        let before = repeating(made, n - 1);
        if repeats_itself(part) {
            let j = choose|j: int|
                part.len() - 6 <= j < part.len() - 1 && 0 <= j && #[trigger] part[j] == part.last();
            assert(made[j] == made[n - 1]);
            assert(repeating(made, n) =~= before.insert(n - 1));
        } else {
            assert(!repeating(made, n).contains(n - 1)) by {
                if repeating(made, n).contains(n - 1) {
                    let j = choose|j: int|
                        0 <= j && n - 1 - 5 <= j < n - 1 && #[trigger] made[j] == made[n - 1];
                    assert(part[j] == part.last());
                }
            }
            assert(repeating(made, n) =~= before);
        }
    }
}

/// A call is a repeat when one of the five calls before it has the same name and the
/// same arguments, and every repeat is counted once. The last tool is that of the last
/// call.
pub proof fn a_repeat_is_the_same_call_among_the_last_five(
    f: TrialFacts,
    events: Seq<Option<Event>>,
)
    requires
        are_facts(f, events),
    ensures
        repeating(called(events), called(events).len() as int).finite(),
        f.repeated_calls == repeating(called(events), called(events).len() as int).len(),
        called(events).len() == 0 ==> f.last_tool is None,
        called(events).len() > 0 ==> f.last_tool is Some && f.last_tool->0@ == called(
            events,
        ).last().0,
{
    lemma_called(events);
    let made = calls(events);
    lemma_repeating(made, made.len() as int);
    assert(made.take(made.len() as int) =~= made);
}

proof fn lemma_results(events: Seq<Option<Event>>, name: Seq<char>)
    requires
        events.len() <= u64::MAX,
    ensures
        ({
            let good = results_where(events, |e: Event| e.name@ == name && e.ok);
            let bad = results_where(events, |e: Event| e.name@ == name && !e.ok);
            &&& good + bad <= events.len()
            &&& results(events).contains_key(name) <==> good + bad > 0
            &&& results(events).contains_key(name) ==> results(events)[name].0 == good && results(
                events,
            )[name].1 == bad
        }),
    decreases events.len(),
{
    reveal(Seq::filter);
    if events.len() > 0 {
        lemma_results(events.drop_last(), name);
    }
}

/// A tool is in the table exactly when it has a result, with how many of its results
/// went well and how many did not.
pub proof fn every_result_is_counted_for_its_tool(
    f: TrialFacts,
    events: Seq<Option<Event>>,
    name: Seq<char>,
)
    requires
        are_facts(f, events),
        events.len() <= u64::MAX,
    ensures
        ({
            let good = results_where(events, |e: Event| e.name@ == name && e.ok);
            let bad = results_where(events, |e: Event| e.name@ == name && !e.ok);
            &&& f.by_tool.map().contains_key(name) <==> good + bad > 0
            &&& f.by_tool.map().contains_key(name) ==> f.by_tool.map()[name].0 == good
                && f.by_tool.map()[name].1 == bad
        }),
{
    lemma_results(events, name);
}

/// The lines of a transcript that are of one of two kinds.
pub open spec fn of_kinds(
    events: Seq<Option<Event>>,
    kind: Seq<char>,
    other: Seq<char>,
) -> Seq<Option<Event>> {
    events.filter(|e: Option<Event>| e is Some && (e->0.kind@ == kind || e->0.kind@ == other))
}

/// What the assistant said after the last tool call: the last of what it said, where no
/// call came after it.
pub open spec fn last_said(events: Seq<Option<Event>>) -> Seq<char> {
    let talk = of_kinds(events, "assistant"@, "tool_call"@);
    if talk.len() > 0 && talk.last()->0.kind@ == "assistant"@ {
        talk.last()->0.text@
    } else {
        Seq::empty()
    }
}

proof fn lemma_last_said(events: Seq<Option<Event>>)
    ensures
        final_text(events) == last_said(events),
    decreases events.len(),
{
    reveal(Seq::filter);
    reveal_strlit("tool_call");
    reveal_strlit("assistant");
    assert("tool_call"@[0] != "assistant"@[0]);
    if events.len() > 0 {
        lemma_last_said(events.drop_last());
    }
}

/// The final text is what the assistant said last, and none where a call came after
/// that; its length is recorded, and whether it reads as deliberation.
pub proof fn the_final_text_comes_after_every_call(f: TrialFacts, events: Seq<Option<Event>>)
    requires
        are_facts(f, events),
    ensures
        f.final_text_chars == last_said(events).len(),
        f.ended_deliberating == is_deliberating(last_said(events)),
{
    lemma_last_said(events);
}

proof fn lemma_ending(events: Seq<Option<Event>>)
    ensures
        ({
            let ends = of_kinds(events, "failed"@, "settled"@);
            stated_ending(events) == if ends.len() == 0 {
                Seq::empty()
            } else if ends.last()->0.kind@ == "settled"@ {
                "settled"@
            } else if ends.last()->0.failure is Some {
                ends.last()->0.failure->0.kind@
            } else {
                "unknown"@
            }
        }),
        ({
            let failures = of_kinds(events, "failed"@, "failed"@);
            last_failure(events) == if failures.len() == 0 {
                None
            } else {
                failures.last()->0.failure
            }
        }),
        ({
            let read = events.filter(|e: Option<Event>| e is Some);
            last_kind(events) == if read.len() == 0 {
                Seq::empty()
            } else {
                read.last()->0.kind@
            }
        }),
    decreases events.len(),
{
    reveal(Seq::filter);
    reveal_strlit("failed");
    reveal_strlit("settled");
    assert("failed"@.len() != "settled"@.len());
    if events.len() > 0 {
        lemma_ending(events.drop_last());
    }
}

/// How a run ended is what its last `failed` or `settled` line says, and unknown where
/// it has none or that says nothing; it settled exactly when its last line says so; and
/// its failure is that of its last `failed` line.
pub proof fn the_last_line_that_ends_a_run_decides(f: TrialFacts, events: Seq<Option<Event>>)
    requires
        are_facts(f, events),
    ensures
        ({
            let ends = of_kinds(events, "failed"@, "settled"@);
            &&& ends.len() == 0 ==> f.ending@ == "unknown"@
            &&& ends.len() > 0 && ends.last()->0.kind@ == "settled"@ ==> f.ending@ == "settled"@
            &&& ends.len() > 0 && ends.last()->0.kind@ == "failed"@ ==> f.ending@ == if ends.last()->0.failure is Some
                && ends.last()->0.failure->0.kind@.len() > 0 {
                ends.last()->0.failure->0.kind@
            } else {
                "unknown"@
            }
        }),
        ({
            let failures = of_kinds(events, "failed"@, "failed"@);
            &&& failures.len() == 0 ==> f.failure is None
            &&& failures.len() > 0 ==> f.failure == failures.last()->0.failure
        }),
        ({
            let read = events.filter(|e: Option<Event>| e is Some);
            f.no_settle == !(read.len() > 0 && read.last()->0.kind@ == "settled"@)
        }),
{
    lemma_ending(events);
    reveal_strlit("settled");
    reveal_strlit("unknown");
    reveal_strlit("failed");
    assert("settled"@.len() == 7 && "unknown"@.len() == 7 && "failed"@.len() == 6);
}

proof fn lemma_usage(events: Seq<Option<Event>>)
    ensures
        input_sum(events) == of_kinds(events, "usage"@, "usage"@).fold_left(
            0int,
            |sum: int, e: Option<Event>| sum + e->0.input_tokens,
        ),
        output_sum(events) == of_kinds(events, "usage"@, "usage"@).fold_left(
            0int,
            |sum: int, e: Option<Event>| sum + e->0.output_tokens,
        ),
    decreases events.len(),
{
    reveal(Seq::filter);
    if events.len() > 0 {
        let init = events.drop_last();
        lemma_usage(init);
        if is_kind(events.last(), "usage"@) {
            assert(of_kinds(events, "usage"@, "usage"@).drop_last() =~= of_kinds(
                init,
                "usage"@,
                "usage"@,
            ));
        }
    }
}

/// The tokens are those of every usage line together, and of no other.
pub proof fn tokens_are_those_of_the_usage_lines(f: TrialFacts, events: Seq<Option<Event>>)
    requires
        are_facts(f, events),
    ensures
        f.input_tokens == of_kinds(events, "usage"@, "usage"@).fold_left(
            0int,
            |sum: int, e: Option<Event>| sum + e->0.input_tokens,
        ),
        f.output_tokens == of_kinds(events, "usage"@, "usage"@).fold_left(
            0int,
            |sum: int, e: Option<Event>| sum + e->0.output_tokens,
        ),
{
    lemma_usage(events);
}

proof fn lemma_questions(s: Seq<char>)
    ensures
        text::count_of(s, '?') == s.filter(|c: char| c == '?').len(),
    decreases s.len(),
{
    reveal(Seq::filter);
    if s.len() > 0 {
        lemma_questions(s.drop_last());
    }
}

/// A text that asks twice, that breaks off without a mark that closes it, or that says
/// in its last 1500 characters what someone says who means to go on reads as thinking;
/// no other does, and an empty one does not.
pub proof fn thinking_asks_breaks_off_or_means_to_go_on(plain: Seq<char>, lower: Seq<char>)
    ensures
        ({
            let end = if lower.len() > 1500 {
                lower.subrange(lower.len() - 1500, lower.len() as int)
            } else {
                lower
            };
            let asks = plain.filter(|c: char| c == '?').len() >= 2;
            let goes_on = text::occurs(end, "let me "@) || text::occurs(end, "i'll "@)
                || text::occurs(end, "i will "@) || text::occurs(end, "next, i"@) || text::occurs(
                end,
                "next i"@,
            ) || text::occurs(end, "should i"@) || text::occurs(end, "i should "@) || text::occurs(
                end,
                "now i"@,
            ) || text::occurs(end, "i need to "@) || text::occurs(end, "i'm going to "@)
                || text::occurs(end, "let's "@) || text::occurs(end, "first, i"@) || text::occurs(
                end,
                "wait"@,
            ) || text::occurs(end, "what if"@) || text::occurs(end, "hmm"@) || text::occurs(
                end,
                "which one"@,
            ) || text::occurs(end, "or should"@) || text::occurs(end, "let's compare"@)
                || text::occurs(end, "argument for"@);
            let closed = plain.len() > 0 && seq![
                '.',
                '!',
                '`',
                '"',
                '*',
                ')',
                ']',
                '>',
            ].contains(plain.last());
            reads_as_thinking(plain, lower) <==> plain.len() > 0 && (asks || goes_on || !closed)
        }),
{
    lemma_questions(plain);
    let end = tail_of(lower, 1500);
    if lower.len() > 1500 {
        assert(end =~= lower.subrange(lower.len() - 1500, lower.len() as int));
    }
    lemma_phrases(end);
    if plain.len() > 0 {
        let marks = seq!['.', '!', '`', '"', '*', ')', ']', '>'];
        let c = plain.last();
        assert(marks[0] == '.' && marks[1] == '!' && marks[2] == '`' && marks[3] == '"');
        assert(marks[4] == '*' && marks[5] == ')' && marks[6] == ']' && marks[7] == '>');
        assert(closes(c) == marks.contains(c));
    }
}

proof fn lemma_phrases(s: Seq<char>)
    ensures
        has_phrase(s) <==> text::occurs(s, "let me "@) || text::occurs(s, "i'll "@) || text::occurs(
            s,
            "i will "@,
        ) || text::occurs(s, "next, i"@) || text::occurs(s, "next i"@) || text::occurs(
            s,
            "should i"@,
        ) || text::occurs(s, "i should "@) || text::occurs(s, "now i"@) || text::occurs(
            s,
            "i need to "@,
        ) || text::occurs(s, "i'm going to "@) || text::occurs(s, "let's "@) || text::occurs(
            s,
            "first, i"@,
        ) || text::occurs(s, "wait"@) || text::occurs(s, "what if"@) || text::occurs(s, "hmm"@)
            || text::occurs(s, "which one"@) || text::occurs(s, "or should"@) || text::occurs(
            s,
            "let's compare"@,
        ) || text::occurs(s, "argument for"@),
{
    let all = text::str_views(DELIBERATION@);
    assert(all.len() == 19);
    assert(all[0] == "let me "@ && all[1] == "i'll "@ && all[2] == "i will "@);
    assert(all[3] == "next, i"@ && all[4] == "next i"@ && all[5] == "should i"@);
    assert(all[6] == "i should "@ && all[7] == "now i"@ && all[8] == "i need to "@);
    assert(all[9] == "i'm going to "@ && all[10] == "let's "@ && all[11] == "first, i"@);
    assert(all[12] == "wait"@ && all[13] == "what if"@ && all[14] == "hmm"@);
    assert(all[15] == "which one"@ && all[16] == "or should"@ && all[17] == "let's compare"@);
    assert(all[18] == "argument for"@);
}

// ---------------------------------------------------------------------------
// What the totals say of the trials

/// A trial is among the failed exactly when what it is selected by is below one, and
/// among the passed exactly when that reaches one: its recorded reward, or what stands
/// in for one that is not recorded.
pub proof fn a_trial_is_put_by_its_reward(f: TrialFacts)
    ensures
        f.reward matches Some(reward) ==> (in_bucket(f, Bucket::Failed) <==> reward.below(
            Double { bits: 0x3ff0_0000_0000_0000 },
        )) && (in_bucket(f, Bucket::Passed) <==> reward.reaches(
            Double { bits: 0x3ff0_0000_0000_0000 },
        )),
        f.reward is None ==> (in_bucket(f, Bucket::Failed) <==> f.unavailable_selection_reward.below(
            Double { bits: 0x3ff0_0000_0000_0000 },
        )) && (in_bucket(f, Bucket::Passed) <==> f.unavailable_selection_reward.reaches(
            Double { bits: 0x3ff0_0000_0000_0000 },
        )),
{
}

/// What each trial adds to a sum is its own count of that fact, one for an ending of
/// that sort; only a trial that never edited adds nothing to the calls before the first
/// edit, and is not counted there.
pub proof fn each_trial_adds_its_own_counts(f: TrialFacts)
    ensures
        figure(f, Fact::ToolCalls) == Some(f.tool_calls as nat),
        figure(f, Fact::Timeouts) == Some(f.timeouts as nat),
        figure(f, Fact::Truncations) == Some(f.truncations as nat),
        figure(f, Fact::RepeatedCalls) == Some(f.repeated_calls as nat),
        figure(f, Fact::MissingPaths) == Some(f.missing_paths as nat),
        figure(f, Fact::InputTokens) == Some(f.input_tokens as nat),
        figure(f, Fact::EndedDeliberating) == Some(f.ended_deliberating as nat),
        figure(f, Fact::NoSettle) == Some(f.no_settle as nat),
        f.calls_before_first_edit < u64::MAX ==> figure(f, Fact::CallsBeforeFirstEdit) == Some(
            f.calls_before_first_edit as nat,
        ),
        f.calls_before_first_edit == u64::MAX ==> figure(f, Fact::CallsBeforeFirstEdit) is None,
{
}

/// The trials of a bucket that say something about a fact.
pub open spec fn telling(trials: Seq<TrialFacts>, bucket: Bucket, fact: Fact) -> Seq<TrialFacts> {
    trials.filter(|f: TrialFacts| in_bucket(f, bucket) && figure(f, fact) is Some)
}

/// A sum is taken over every trial of its bucket that says something about the fact,
/// and over no other, and is what those add up to.
pub proof fn sums_are_over_the_whole_bucket(trials: Seq<TrialFacts>, bucket: Bucket, fact: Fact)
    ensures
        sum_of(trials, bucket, fact).0 == telling(trials, bucket, fact).fold_left(
            0int,
            |sum: int, f: TrialFacts| sum + figure(f, fact)->0,
        ),
        sum_of(trials, bucket, fact).1 == telling(trials, bucket, fact).len(),
        size_of(trials, bucket) == trials.filter(|f: TrialFacts| in_bucket(f, bucket)).len(),
        fact != Fact::CallsBeforeFirstEdit ==> sum_of(trials, bucket, fact).1 == size_of(
            trials,
            bucket,
        ),
    decreases trials.len(),
{
    reveal(Seq::filter);
    if trials.len() > 0 {
        let init = trials.drop_last();
        sums_are_over_the_whole_bucket(init, bucket, fact);
        if in_bucket(trials.last(), bucket) && figure(trials.last(), fact) is Some {
            assert(telling(trials, bucket, fact).drop_last() =~= telling(init, bucket, fact));
        }
    }
}

/// How many of a bucket's trials called a tool last.
pub open spec fn ended_with(trials: Seq<TrialFacts>, bucket: Bucket, name: Seq<char>) -> nat {
    trials.filter(
        |f: TrialFacts| in_bucket(f, bucket) && f.last_tool is Some && f.last_tool->0@ == name,
    ).len()
}

/// A tool is in the table of last tools exactly when a trial of the bucket called it
/// last, with how many did. It is in the table of results exactly when a trial of the
/// bucket has a result of it, with all of them added up, good and bad.
pub proof fn tools_are_counted_over_the_whole_bucket(
    trials: Seq<TrialFacts>,
    bucket: Bucket,
    name: Seq<char>,
)
    requires
        trials.len() <= u64::MAX,
    ensures
        last_tools(trials, bucket).contains_key(name) <==> ended_with(trials, bucket, name) > 0,
        last_tools(trials, bucket).contains_key(name) ==> last_tools(trials, bucket)[name]
            == ended_with(trials, bucket, name),
        has_results(trials, bucket, name) <==> trials.filter(
            |f: TrialFacts| in_bucket(f, bucket) && f.by_tool.map().contains_key(name),
        ).len() > 0,
        results_sum(trials, bucket, name) == trials.filter(
            |f: TrialFacts| in_bucket(f, bucket) && f.by_tool.map().contains_key(name),
        ).fold_left(
            0int,
            |sum: int, f: TrialFacts| sum + f.by_tool.map()[name].0 + f.by_tool.map()[name].1,
        ),
    decreases trials.len(),
{
    reveal(Seq::filter);
    let has = |f: TrialFacts| in_bucket(f, bucket) && f.by_tool.map().contains_key(name);
    if trials.len() > 0 {
        let init = trials.drop_last();
        tools_are_counted_over_the_whole_bucket(init, bucket, name);
        lemma_ended_bound(init, bucket, name);
        if has(trials.last()) {
            assert(trials.filter(has).drop_last() =~= init.filter(has));
        }
    }
}

proof fn lemma_ended_bound(trials: Seq<TrialFacts>, bucket: Bucket, name: Seq<char>)
    ensures
        ended_with(trials, bucket, name) <= trials.len(),
{
    trials.lemma_filter_len(
        |f: TrialFacts| in_bucket(f, bucket) && f.last_tool is Some && f.last_tool->0@ == name,
    );
}

// ---------------------------------------------------------------------------
// What the digest's text holds

/// A fact that only failed trials have stands without bound, one that neither has as
/// level; any other by its quotient.
pub proof fn excess_is_the_quotient_where_there_is_one(cell: Cell)
    ensures
        cell.passed.rank() > 0 && !cell.passed.is_nan() ==> excess(cell) == cell.quotient,
        cell.passed == double::zero() && cell.failed.rank() > 0 && !cell.failed.is_nan()
            ==> excess(cell).bits == 0x7ff0_0000_0000_0000,
        cell.passed == double::zero() && cell.failed == double::zero() ==> excess(cell).bits
            == 0x3ff0_0000_0000_0000,
{
}

/// The first table's rows are named, each with its own cell's figures: calls, timeouts,
/// truncations, repeats, missing paths, both sorts of ending, calls before the first
/// edit, and input tokens.
pub proof fn every_fact_has_its_name(rows: Seq<FactRow>, cells: Seq<Cell>, i: int)
    requires
        fact_rows(rows, cells),
        cells.len() == 9,
        0 <= i < 9,
    ensures
        rows[0].name@ == "tool calls"@,
        rows[1].name@ == "bash timeouts"@,
        rows[2].name@ == "truncated results"@,
        rows[3].name@ == "repeated identical calls"@,
        rows[4].name@ == "results naming a missing path"@,
        rows[5].name@ == "ended in deliberation, not a summary"@,
        rows[6].name@ == "ended without settling"@,
        rows[7].name@ == "calls before the first edit"@,
        rows[8].name@ == "input tokens"@,
        rows[i].failed@ == cells[i].failed_shown@,
        rows[i].passed@ == cells[i].passed_shown@,
        rows[i].excess == excess(cells[i]),
{
    assert(rows[0].name@ == FACTS@[0]@);
    assert(rows[1].name@ == FACTS@[1]@);
    assert(rows[2].name@ == FACTS@[2]@);
    assert(rows[3].name@ == FACTS@[3]@);
    assert(rows[4].name@ == FACTS@[4]@);
    assert(rows[5].name@ == FACTS@[5]@);
    assert(rows[6].name@ == FACTS@[6]@);
    assert(rows[7].name@ == FACTS@[7]@);
    assert(rows[8].name@ == FACTS@[8]@);
}

/// Each row more of the first two tables stands after those before it: the name, the
/// failed trials' figure, then the passed trials'.
pub proof fn one_more_row_follows_the_others(
    facts: Seq<FactRow>,
    fact: FactRow,
    tools: Seq<ToolRow>,
    tool: ToolRow,
)
    ensures
        fact_text(Seq::empty()).len() == 0,
        tool_text(Seq::empty()).len() == 0,
        fact_text(facts.push(fact)) == fact_text(facts) + ("| "@ + fact.name@ + " | "@
            + fact.failed@ + " | "@ + fact.passed@ + " |\n"@),
        tool_text(tools.push(tool)) == tool_text(tools) + ("| "@ + tool.tool@ + " | "@
            + tool.failed@ + " | "@ + tool.passed@ + " |\n"@),
{
    assert(facts.push(fact).drop_last() =~= facts);
    assert(tools.push(tool).drop_last() =~= tools);
    assert(fact_text(facts.push(fact)) =~= fact_text(facts) + ("| "@ + fact.name@ + " | "@
        + fact.failed@ + " | "@ + fact.passed@ + " |\n"@));
    assert(tool_text(tools.push(tool)) =~= tool_text(tools) + ("| "@ + tool.tool@ + " | "@
        + tool.failed@ + " | "@ + tool.passed@ + " |\n"@));
}

/// Every failed trial has a row, in order, with its calls, timeouts, truncations,
/// repeats, missing paths, how it ended and its last tool; a passed one has none.
pub proof fn every_failed_trial_has_its_row(trials: Seq<TrialFacts>, f: TrialFacts)
    ensures
        trials_text(Seq::empty()).len() == 0,
        !f.is_failed() ==> trials_text(trials.push(f)) == trials_text(trials),
        f.is_failed() ==> trials_text(trials.push(f)) == trials_text(trials) + ("| "@ + f.trial@
            + " | "@ + lines::digits(f.tool_calls as nat) + " | "@ + lines::digits(
            f.timeouts as nat,
        ) + " | "@ + lines::digits(f.truncations as nat) + " | "@ + lines::digits(
            f.repeated_calls as nat,
        ) + " | "@ + lines::digits(f.missing_paths as nat) + " | "@ + (if f.no_settle {
            "no settle: "@ + shortened(f.ending@, 80)
        } else if f.ended_deliberating {
            "deliberating"@
        } else {
            "summary"@
        }) + " | "@ + (if f.last_tool is Some {
            f.last_tool->0@
        } else {
            "-"@
        }) + " |\n"@),
{
    assert(trials.push(f).drop_last() =~= trials);
    assert(trials_text(trials) + Seq::<char>::empty() =~= trials_text(trials));
}

/// What the witness saw is told of every failed trial, in order, or of none where it
/// saw nothing in any of them.
pub proof fn every_failed_trial_has_its_witness(trials: Seq<TrialFacts>, f: TrialFacts)
    ensures
        witness_rows(Seq::empty()).len() == 0,
        !f.is_failed() ==> witness_rows(trials.push(f)) == witness_rows(trials),
        f.is_failed() ==> witness_rows(trials.push(f)) == witness_rows(trials) + ("| "@ + f.trial@
            + " | "@ + (if f.observed.complete {
            "complete"@
        } else {
            "incomplete"@
        }) + " | "@ + lines::digits(f.observed.stream_truncations as nat) + " | "@ + lines::digits(
            f.observed.denials as nat,
        ) + " | "@ + lines::digits(f.observed.provider_retries as nat) + " | "@ + lines::digits(
            f.observed.refusals as nat,
        ) + " | "@ + lines::digits(f.observed.holds as nat) + " ("@ + lines::digits(
            f.observed.held_denied as nat,
        ) + ") | "@ + lines::digits(f.observed.cancelled_in_flight as nat) + " | "@ + lines::joined(
            f.observed.endings@.map_values(|e: observe::ObservedRunEnding| e.ending@),
            " → "@,
        ) + " | "@ + (if f.observed.last_failure is Some {
            shortened(f.observed.last_failure->0.shown@, 80)
        } else {
            Seq::empty()
        }) + " |\n"@),
        observed_text(trials).len() > 0 ==> exists|i: int|
            0 <= i < trials.len() && (#[trigger] trials[i]).is_failed() && trials[i].observed@
                != observe::nothing(),
        (forall|i: int|
            0 <= i < trials.len() && (#[trigger] trials[i]).is_failed() ==> trials[i].observed@
                == observe::nothing()) ==> observed_text(trials).len() == 0,
{
    assert(trials.push(f).drop_last() =~= trials);
    assert(witness_rows(trials) + Seq::<char>::empty() =~= witness_rows(trials));
    assert(f.observed.endings@.map_values(|e: observe::ObservedRunEnding| e.ending@) =~= endings_of(
        f.observed,
    ));
}

/// A digest begins with how many trials failed and passed, says that some have no
/// recorded score exactly where one has none, and then has its tables.
pub proof fn a_digest_holds_its_tables(
    failed: nat,
    passed: nat,
    rows: Seq<FactRow>,
    tools: Seq<ToolRow>,
    trials: Seq<TrialFacts>,
)
    ensures
        ({
            let whole = digest_text(failed, passed, rows, tools, trials);
            let title = "## Digest: "@ + lines::digits(failed) + " failed trial(s) vs "@
                + lines::digits(passed) + " passed\n\n"@;
            let note = if exists|i: int|
                0 <= i < trials.len() && (#[trigger] trials[i]).reward is None {
                UNSCORED_NOTE@
            } else {
                Seq::empty()
            };
            whole == title + note
                + "### What failed trials did more of\n\n| fact (mean per trial) | failed | passed |\n|---|---|---|\n"@
                + fact_text(rows)
                + "\n### Calls per tool (mean per trial)\n\n| tool | failed | passed |\n|---|---|---|\n"@
                + tool_text(tools)
                + "\n### Failed trials\n\n| trial | calls | timeouts | truncated | repeats | missing paths | ending | last tool |\n|---|---|---|---|---|---|---|---|\n"@
                + trials_text(trials) + "\n"@ + observed_text(trials)
        }),
{
}

/// A text that is too long for its place keeps its first characters, as many as may
/// stand there, and an ellipsis says so; any other stays as it is.
pub proof fn shortening_keeps_the_beginning(s: Seq<char>, max: nat)
    ensures
        s.len() <= max ==> shortened(s, max) == s,
        s.len() > max ==> shortened(s, max).len() == max + 1 && shortened(s, max).last() == '…'
            && forall|i: int| 0 <= i < max ==> shortened(s, max)[i] == s[i],
{
}

/// A job's trials stand by name.
pub proof fn trials_stand_by_name(trials: Seq<TrialFacts>, i: int, j: int)
    requires
        0 <= i < j < trials.len(),
    ensures
        ({
            let all = order::ordered(trials);
            &&& all.len() == trials.len()
            &&& all[i].trial@ == all[j].trial@ || order::before(all[i].trial@, all[j].trial@)
        }),
{
    order::lemma_ordered(trials);
    let all = order::ordered(trials);
    assert(!TrialFacts::precedes(&all[j], &all[i]));
    order::lemma_before_total(all[i].trial@, all[j].trial@);
}

/// A text is judged without the white space at its end, and its phrases are looked for
/// whatever their case.
pub proof fn a_text_is_judged_without_its_trailing_white_space(s: Seq<char>, plain: Seq<char>)
    requires
        plain.is_prefix_of(s),
        text::all_white(s.skip(plain.len() as int)),
        plain.len() > 0 ==> !text::is_white(plain.last()),
    ensures
        is_deliberating(s) == reads_as_thinking(plain, text::lowercase(plain)),
{
    text::only_white_space_is_taken_off_the_end(s);
    let kept = text::without_trailing(s);
    let n = kept.len() as int;
    let m = plain.len() as int;
    assert(plain =~= s.take(m));
    if n > m {
        assert(s.skip(m)[n - 1 - m] == s[n - 1]);
        assert(text::is_white(kept.last()));
    } else if m > n {
        assert(s.skip(n)[m - 1 - n] == s[m - 1]);
        assert(text::is_white(plain.last()));
    }
    assert(kept =~= plain);
}

proof fn lemma_first_edit(made: Seq<(Seq<char>, Seq<char>)>, k: int)
    ensures
        before_edit(made) == Some(k as nat) && k >= 0 <==> 0 <= k < made.len() && (made[k].0
            == "write_file"@ || made[k].0 == "edit_file"@) && forall|j: int|
            0 <= j < k ==> (#[trigger] made[j]).0 != "write_file"@ && made[j].0 != "edit_file"@,
        before_edit(made) matches Some(n) ==> n < made.len(),
    decreases made.len(),
{
    if made.len() > 0 {
        let init = made.drop_last();
        let n = init.len() as int;
        lemma_first_edit(init, k);
        assert forall|j: int| 0 <= j < n implies #[trigger] made[j] == init[j] by {}
        assert forall|j: int| 0 <= j < n implies #[trigger] init[j] == made[j] by {}
        if before_edit(init) is Some {
            let first = before_edit(init)->0 as int;
            lemma_first_edit(init, first);
            assert(made[first] == init[first]);
            if k == n {
                assert(made[first].0 == "write_file"@ || made[first].0 == "edit_file"@);
            }
        } else if k == n {
            lemma_no_edit(init);
        }
    }
}

proof fn lemma_no_edit(made: Seq<(Seq<char>, Seq<char>)>)
    requires
        before_edit(made) is None,
    ensures
        forall|j: int|
            0 <= j < made.len() ==> (#[trigger] made[j]).0 != "write_file"@ && made[j].0
                != "edit_file"@,
    decreases made.len(),
{
    if made.len() > 0 {
        let init = made.drop_last();
        lemma_no_edit(init);
        assert forall|j: int| 0 <= j < made.len() implies (#[trigger] made[j]).0 != "write_file"@
            && made[j].0 != "edit_file"@ by {
            if j < init.len() {
                assert(made[j] == init[j]);
            }
        }
    }
}

/// So many calls came before the first edit exactly when the call with that index is of
/// `write_file` or `edit_file` and no call before it is of either.
pub proof fn the_first_edit_has_its_index(f: TrialFacts, events: Seq<Option<Event>>, k: u64)
    requires
        are_facts(f, events),
        events.len() <= u64::MAX,
        k < u64::MAX,
    ensures
        f.calls_before_first_edit == k <==> k < called(events).len() && (called(events)[k as int].0
            == "write_file"@ || called(events)[k as int].0 == "edit_file"@) && forall|j: int|
            0 <= j < k ==> (#[trigger] called(events)[j]).0 != "write_file"@ && called(events)[j].0
                != "edit_file"@,
{
    lemma_called(events);
    lemma_edit_bound(events);
    lemma_first_edit(calls(events), k as int);
}

} // verus!
