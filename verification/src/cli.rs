//! The headless agent's output: what is printed of a transcript as it grows,
//! and when the run is over.

use vstd::prelude::*;
use crate::text;

verus! {

/// One event of a run.
#[derive(Debug)]
pub enum Event {
    User { text: String },
    Assistant { text: String },
    ToolCall { name: String, args: String },
    ToolResult { name: String, output: String, ok: bool },
    Settled,
    Failed { reason: String },
}

/// The text, or its first `max` characters, a space and an ellipsis.
pub open spec fn shortened(s: Seq<char>, max: nat) -> Seq<char> {
    if s.len() > max {
        s.take(max as int) + seq![' ', '…']
    } else {
        s
    }
}

/// The text, or its first `max` characters, a space and an ellipsis.
pub fn short(s: &str, max: usize) -> (out: String)
    ensures
        out@ == shortened(s@, max as nat),
{
    let chars: Vec<char> = text::chars_of(s);
    if chars.len() <= max {
        return s.to_owned();
    }
    let mut out: String = text::string_range(&chars, 0, max);
    out.push(' ');
    out.push('…');
    assert(out@ =~= shortened(s@, max as nat));
    out
}

/// What is printed of an event; `elapsed` is how long the run has taken.
pub open spec fn printed(e: Event, verbose: bool, elapsed: Seq<char>) -> Seq<char> {
    match e {
        Event::User { text } => "> "@ + text@ + "\n\n"@,
        Event::Assistant { text } => text@ + "\n\n"@,
        Event::ToolCall { name, args } => "[tool] "@ + name@ + " "@ + shortened(args@, 300)
            + "\n"@,
        Event::ToolResult { name, output, ok } => (if ok {
            "[result] "@
        } else {
            "[error] "@
        }) + name@ + "\n"@ + (if verbose {
            output@
        } else {
            shortened(output@, 600)
        }) + "\n\n"@,
        Event::Settled => "[settled after "@ + elapsed + "]\n"@,
        Event::Failed { reason } => "[failed] "@ + reason@ + "\n"@,
    }
}

/// What is printed of the events.
pub open spec fn all_printed(events: Seq<Event>, verbose: bool, elapsed: Seq<char>) -> Seq<char>
    decreases events.len(),
{
    if events.len() == 0 {
        Seq::empty()
    } else {
        all_printed(events.drop_last(), verbose, elapsed) + printed(events.last(), verbose, elapsed)
    }
}

/// How many of the events can be printed: an answer that is the last one may
/// still grow.
pub open spec fn printable(events: Seq<Event>) -> nat {
    if events.len() > 0 && events.last() is Assistant {
        (events.len() - 1) as nat
    } else {
        events.len()
    }
}

/// How a run ended.
#[derive(Clone, Copy, Debug, PartialEq, Eq, Structural)]
pub enum Exit {
    Success,
    Error,
}

/// How the events that end a run ended it, in order.
pub open spec fn exits_of(events: Seq<Event>) -> Seq<Exit>
    decreases events.len(),
{
    if events.len() == 0 {
        Seq::empty()
    } else {
        let before = exits_of(events.drop_last());
        match events.last() {
            Event::Settled => before.push(Exit::Success),
            Event::Failed { .. } => before.push(Exit::Error),
            _ => before,
        }
    }
}

/// What a look at the transcript gives.
#[derive(Debug)]
pub struct Report {
    /// How many events are printed now.
    pub printed: usize,
    pub text: String,
    /// How the run ended, as often as it was said to.
    pub exits: Vec<Exit>,
}

fn print_event(e: &Event, verbose: bool, elapsed: &str) -> (out: String)
    ensures
        out@ == printed(*e, verbose, elapsed@),
{
    let mut out: String = String::new();
    match e {
        Event::User { text } => {
            out.append("> ");
            out.append(text.as_str());
            out.append("\n\n");
        },
        Event::Assistant { text } => {
            out.append(text.as_str());
            out.append("\n\n");
        },
        Event::ToolCall { name, args } => {
            out.append("[tool] ");
            out.append(name.as_str());
            out.append(" ");
            let shown: String = short(args.as_str(), 300);
            out.append(shown.as_str());
            out.append("\n");
        },
        Event::ToolResult { name, output, ok } => {
            if *ok {
                out.append("[result] ");
            } else {
                out.append("[error] ");
            }
            out.append(name.as_str());
            out.append("\n");
            if verbose {
                out.append(output.as_str());
            } else {
                let shown: String = short(output.as_str(), 600);
                out.append(shown.as_str());
            }
            out.append("\n\n");
        },
        Event::Settled => {
            out.append("[settled after ");
            out.append(elapsed);
            out.append("]\n");
        },
        Event::Failed { reason } => {
            out.append("[failed] ");
            out.append(reason.as_str());
            out.append("\n");
        },
    }
    assert(out@ =~= printed(*e, verbose, elapsed@));
    out
}

/// What happened since the last look, and whether the run has ended. A
/// streaming answer grows in place while it is the last event: it is printed
/// once something follows it. `elapsed` is how long the run has taken at this
/// look.
pub fn report(events: &[Event], seen: usize, verbose: bool, elapsed: &str) -> (out: Report)
    ensures
        ({
            let end = printable(events@);
            if seen < end {
                let fresh = events@.subrange(seen as int, end as int);
                &&& out.printed == end
                &&& out.text@ == all_printed(fresh, verbose, elapsed@)
                &&& out.exits@ == exits_of(fresh)
            } else {
                out.printed == seen && out.text@.len() == 0 && out.exits@.len() == 0
            }
        }),
{
    let n: usize = events.len();
    let growing: bool = n > 0 && match &events[n - 1] {
        Event::Assistant { .. } => true,
        _ => false,
    };
    let end: usize = if growing {
        n - 1
    } else {
        n
    };
    let mut shown: String = String::new();
    let mut exits: Vec<Exit> = Vec::new();
    if seen >= end {
        return Report { printed: seen, text: shown, exits };
    }
    for i in seen..end
        invariant
            end <= events@.len(),
            seen <= i,
            shown@ == all_printed(events@.subrange(seen as int, i as int), verbose, elapsed@),
            exits@ == exits_of(events@.subrange(seen as int, i as int)),
    {
        let ghost part = events@.subrange(seen as int, i + 1);
        assert(part.drop_last() =~= events@.subrange(seen as int, i as int));
        assert(part.last() == events@[i as int]);
        let line: String = print_event(&events[i], verbose, elapsed);
        shown.append(line.as_str());
        match &events[i] {
            Event::Settled => {
                exits.push(Exit::Success);
            },
            Event::Failed { .. } => {
                exits.push(Exit::Error);
            },
            _ => {},
        }
    }
    Report { printed: end, text: shown, exits }
}

proof fn lemma_printed_add(a: Seq<Event>, b: Seq<Event>, verbose: bool, elapsed: Seq<char>)
    ensures
        all_printed(a + b, verbose, elapsed) == all_printed(a, verbose, elapsed) + all_printed(
            b,
            verbose,
            elapsed,
        ),
    decreases b.len(),
{
    if b.len() == 0 {
        assert(a + b =~= a);
        assert(all_printed(a, verbose, elapsed) + Seq::<char>::empty() =~= all_printed(
            a,
            verbose,
            elapsed,
        ));
    } else {
        assert((a + b).drop_last() =~= a + b.drop_last());
        assert((a + b).last() == b.last());
        lemma_printed_add(a, b.drop_last(), verbose, elapsed);
        assert(all_printed(a, verbose, elapsed) + (all_printed(b.drop_last(), verbose, elapsed)
            + printed(b.last(), verbose, elapsed)) =~= (all_printed(a, verbose, elapsed)
            + all_printed(b.drop_last(), verbose, elapsed)) + printed(b.last(), verbose, elapsed));
    }
}

/// Looking twice prints what looking once would: nothing is lost or printed
/// again between two looks at a transcript.
pub proof fn looks_add_up(
    events: Seq<Event>,
    seen: int,
    mid: int,
    end: int,
    verbose: bool,
    elapsed: Seq<char>,
)
    requires
        0 <= seen <= mid <= end <= events.len(),
    ensures
        all_printed(events.subrange(seen, end), verbose, elapsed) == all_printed(
            events.subrange(seen, mid),
            verbose,
            elapsed,
        ) + all_printed(events.subrange(mid, end), verbose, elapsed),
{
    assert(events.subrange(seen, end) =~= events.subrange(seen, mid) + events.subrange(mid, end));
    lemma_printed_add(events.subrange(seen, mid), events.subrange(mid, end), verbose, elapsed);
}

/// The task to run, if there is one.
pub fn task_of(given: &str) -> (out: Option<String>)
    ensures
        text::opt(out) == if text::trimmed(given@).len() == 0 {
            None
        } else {
            Some(text::trimmed(given@))
        },
{
    let task: String = text::trim(given);
    if task.as_str().is_empty() {
        None
    } else {
        Some(task)
    }
}

/// Whether a run is past its deadline, both in milliseconds.
pub fn watchdog(deadline: Option<u64>, elapsed: u64) -> (r: bool)
    ensures
        r == (deadline matches Some(limit) && elapsed > limit),
{
    match deadline {
        Some(limit) => elapsed > limit,
        None => false,
    }
}

/// Everything is printed but an answer that is the last event, which may still grow.
pub proof fn only_a_growing_answer_waits(events: Seq<Event>)
    ensures
        events.len() == 0 ==> printable(events) == 0,
        events.len() > 0 && events.last() is Assistant ==> printable(events) == events.len() - 1,
        events.len() > 0 && !(events.last() is Assistant) ==> printable(events) == events.len(),
{
}

/// A run is said to have ended by each event that settles it or fails it, in order, and by
/// no other.
pub proof fn a_run_ends_as_its_events_say(events: Seq<Event>)
    ensures
        exits_of(events) == events.filter(
            |e: Event| e is Settled || e is Failed,
        ).map_values(
            |e: Event|
                if e is Settled {
                    Exit::Success
                } else {
                    Exit::Error
                },
        ),
    decreases events.len(),
{
    reveal(Seq::filter);
    if events.len() > 0 {
        a_run_ends_as_its_events_say(events.drop_last());
    }
    assert(exits_of(events) =~= events.filter(|e: Event| e is Settled || e is Failed).map_values(
        |e: Event|
            if e is Settled {
                Exit::Success
            } else {
                Exit::Error
            },
    ));
}

/// Every event more is printed after those before it: a message as it is, a call with its
/// name and the beginning of its arguments, a result with its name and its output, whole
/// where the run is verbose, and how the run ended.
pub proof fn one_more_event_is_printed(
    events: Seq<Event>,
    e: Event,
    verbose: bool,
    elapsed: Seq<char>,
)
    ensures
        all_printed(Seq::empty(), verbose, elapsed).len() == 0,
        ({
            let more = all_printed(events.push(e), verbose, elapsed);
            let before = all_printed(events, verbose, elapsed);
            &&& e matches Event::User { text } ==> more == before + ("> "@ + text@ + "\n\n"@)
            &&& e matches Event::Assistant { text } ==> more == before + (text@ + "\n\n"@)
            &&& e matches Event::ToolCall { name, args } ==> more == before + ("[tool] "@ + name@
                + " "@ + shortened(args@, 300) + "\n"@)
            &&& e matches Event::ToolResult { name, output, ok } ==> more == before + ((if ok {
                "[result] "@
            } else {
                "[error] "@
            }) + name@ + "\n"@ + (if verbose {
                output@
            } else {
                shortened(output@, 600)
            }) + "\n\n"@)
            &&& e is Settled ==> more == before + ("[settled after "@ + elapsed + "]\n"@)
            &&& e matches Event::Failed { reason } ==> more == before + ("[failed] "@ + reason@
                + "\n"@)
        }),
{
    assert(events.push(e).drop_last() =~= events);
}

/// A text that is too long keeps its first characters, as many as may stand there, and a
/// space and an ellipsis follow them; any other stays as it is.
pub proof fn shortening_keeps_the_beginning(s: Seq<char>, max: nat)
    ensures
        s.len() <= max ==> shortened(s, max) == s,
        s.len() > max ==> shortened(s, max).len() == max + 2 && shortened(s, max)[max as int] == ' '
            && shortened(s, max).last() == '…' && forall|i: int|
            0 <= i < max ==> shortened(s, max)[i] == s[i],
{
}

} // verus!
