//! The failure report that the improving agent reads: transcripts with long
//! results collapsed, evidence in fences that it cannot close, and excerpts
//! that keep to a size limit.

use vstd::prelude::*;
use crate::double;
use crate::double::Double;
use crate::lines;
use crate::text;
use crate::trial::TrialRecord;

verus! {

/// The most bytes a report may have.
pub const REPORT_CAP: usize = 409_600;

/// How many lines of a long text stay at each end.
pub const COLLAPSE_LINES: usize = 10;

// ---------------------------------------------------------------------------
// Collapsing

/// What stands for the lines left out.
pub open spec fn hidden_marker(hidden: nat) -> Seq<char> {
    "[... "@ + lines::digits(hidden) + " lines ...]"@
}

/// The text itself, or the first and last lines of one that has more than
/// twice `COLLAPSE_LINES` of them, with a marker between.
pub open spec fn collapsed(s: Seq<char>) -> Seq<char> {
    let all = lines::lines_of(s);
    if all.len() <= 2 * COLLAPSE_LINES {
        s
    } else {
        lines::joined(
            all.take(COLLAPSE_LINES as int).push(
                hidden_marker((all.len() - 2 * COLLAPSE_LINES) as nat),
            ) + all.skip(all.len() - COLLAPSE_LINES),
            "\n"@,
        )
    }
}

/// Long tool results keep their first and last lines.
pub fn collapse(s: &str) -> (out: String)
    ensures
        out@ == collapsed(s@),
{
    let all: Vec<String> = lines::lines(s);
    let n: usize = all.len();
    let ghost cut = lines::lines_of(s@);
    assert(cut.len() == n);
    if n <= 2 * COLLAPSE_LINES {
        return s.to_owned();
    }
    let mut kept: Vec<String> = Vec::new();
    text::append_range(&mut kept, &all, 0, COLLAPSE_LINES);
    let hidden: usize = n - 2 * COLLAPSE_LINES;
    let mut marker: String = String::new();
    marker.append("[... ");
    let shown: String = lines::count(hidden);
    marker.append(shown.as_str());
    marker.append(" lines ...]");
    assert(marker@ =~= hidden_marker(hidden as nat));
    let ghost head = cut.take(COLLAPSE_LINES as int).push(marker@);
    proof {
        text::lemma_views_push(kept@, marker);
        assert(text::views(kept@).push(marker@) =~= head);
    }
    kept.push(marker);
    text::append_range(&mut kept, &all, n - COLLAPSE_LINES, n);
    assert(text::views(kept@) =~= head + cut.skip(n - COLLAPSE_LINES));
    lines::join(&kept, "\n")
}

// ---------------------------------------------------------------------------
// Fences

/// How many backticks `s` ends with.
pub open spec fn trailing_ticks(s: Seq<char>) -> nat
    decreases s.len(),
{
    if s.len() > 0 && s.last() == '`' {
        1 + trailing_ticks(s.drop_last())
    } else {
        0
    }
}

/// The length of the longest run of backticks in `s`.
pub open spec fn longest_ticks(s: Seq<char>) -> nat
    decreases s.len(),
{
    if s.len() == 0 {
        0
    } else if trailing_ticks(s) > longest_ticks(s.drop_last()) {
        trailing_ticks(s)
    } else {
        longest_ticks(s.drop_last())
    }
}

/// How many backticks fence `s`: more than it holds in a row, at least three.
pub open spec fn fence_size(s: Seq<char>) -> nat {
    let longest = longest_ticks(s);
    if longest < 3 {
        3
    } else if longest >= usize::MAX {
        usize::MAX as nat
    } else {
        longest + 1
    }
}

/// A row of `n` backticks.
pub open spec fn ticks(n: nat) -> Seq<char> {
    Seq::new(n, |i: int| '`')
}

/// `s` between fences.
pub open spec fn fenced_text(s: Seq<char>) -> Seq<char> {
    let fence = ticks(fence_size(s));
    fence.push('\n') + s.push('\n') + fence + seq!['\n', '\n']
}

proof fn lemma_trailing_bound(s: Seq<char>)
    ensures
        trailing_ticks(s) <= s.len(),
        longest_ticks(s) <= s.len(),
    decreases s.len(),
{
    if s.len() > 0 {
        lemma_trailing_bound(s.drop_last());
    }
}

proof fn lemma_row_is_trailing(s: Seq<char>, n: nat)
    requires
        n <= s.len(),
        s.subrange(s.len() - n, s.len() as int) == ticks(n),
    ensures
        trailing_ticks(s) >= n,
    decreases n,
{
    if n > 0 {
        let row = s.subrange(s.len() - n, s.len() as int);
        assert(s.last() == row[n - 1]);
        let init = s.drop_last();
        let m = (n - 1) as nat;
        assert(init.subrange(init.len() - m, init.len() as int) =~= row.take(m as int));
        assert(row.take(m as int) =~= ticks(m));
        lemma_row_is_trailing(init, m);
    }
}

proof fn lemma_row_is_counted(s: Seq<char>, n: nat, at: int)
    requires
        text::occurs_at(s, ticks(n), at),
    ensures
        longest_ticks(s) >= n,
    decreases s.len(),
{
    if n > 0 {
        if at + n == s.len() {
            lemma_row_is_trailing(s, n);
        } else {
            assert(s.drop_last().subrange(at, at + n) =~= s.subrange(at, at + n));
            lemma_row_is_counted(s.drop_last(), n, at);
        }
    }
}

/// Fenced evidence cannot close its fence: the row of backticks that ends it
/// occurs nowhere inside.
pub proof fn evidence_cannot_close_its_fence(s: Seq<char>)
    requires
        s.len() < usize::MAX,
    ensures
        !text::occurs(s, ticks(fence_size(s))),
        fence_size(s) >= 3,
{
    lemma_trailing_bound(s);
    if text::occurs(s, ticks(fence_size(s))) {
        let at = choose|at: int| text::occurs_at(s, ticks(fence_size(s)), at);
        lemma_row_is_counted(s, fence_size(s), at);
    }
}

/// The text between fences longer than any row of backticks it holds.
pub fn fenced(s: &str) -> (out: String)
    ensures
        out@ == fenced_text(s@),
{
    let chars: Vec<char> = text::chars_of(s);
    let n: usize = chars.len();
    let mut longest: usize = 0;
    let mut run: usize = 0;
    for i in 0..n
        invariant
            n == chars@.len(),
            run <= i,
            longest <= i,
            run == trailing_ticks(chars@.take(i as int)),
            longest == longest_ticks(chars@.take(i as int)),
    {
        assert(chars@.take(i + 1).drop_last() =~= chars@.take(i as int));
        if chars[i] == '`' {
            run += 1;
        } else {
            run = 0;
        }
        if run > longest {
            longest = run;
        }
    }
    assert(chars@.take(n as int) =~= chars@);
    let size: usize = if longest < 3 {
        3
    } else if longest == usize::MAX {
        usize::MAX
    } else {
        longest + 1
    };
    let mut fence: String = String::new();
    for i in 0..size
        invariant
            fence@ =~= ticks(i as nat),
    {
        fence.push('`');
    }
    let mut out: String = fence.clone();
    out.push('\n');
    out.append(s);
    out.push('\n');
    out.append(fence.as_str());
    out.push('\n');
    out.push('\n');
    assert(out@ =~= fenced_text(s@));
    out
}

// ---------------------------------------------------------------------------
// Excerpts

/// The longest beginning of `line` with at most `room` bytes.
pub open spec fn fitting(line: Seq<char>, room: nat) -> Seq<char>
    decreases line.len(),
{
    if line.len() == 0 || text::byte_len(line) <= room {
        line
    } else {
        fitting(line.drop_last(), room)
    }
}

/// The longest ending of `line` with at most `room` bytes.
pub open spec fn fitting_tail(line: Seq<char>, room: nat) -> Seq<char>
    decreases line.len(),
{
    if line.len() == 0 || text::byte_len(line) <= room {
        line
    } else {
        fitting_tail(line.skip(1), room)
    }
}

/// The indentation of an excerpt's lines.
pub open spec fn indent() -> Seq<char> {
    seq![' ', ' ', ' ', ' ']
}

/// A line of an excerpt: indented, and ended by a line break.
pub open spec fn row(kept: Seq<char>) -> Seq<char> {
    if kept.len() > 0 && kept.last() == '\n' {
        indent() + kept
    } else {
        (indent() + kept).push('\n')
    }
}

/// As many of the pieces, from the first, as fit into `room` bytes when each is
/// a line of the excerpt; the last may be cut.
pub open spec fn leading_rows(pieces: Seq<Seq<char>>, room: int) -> Seq<char>
    decreases pieces.len(),
{
    if pieces.len() == 0 || room <= 5 {
        Seq::empty()
    } else {
        let kept = fitting(pieces[0], (room - 5) as nat);
        if text::byte_len(kept) < text::byte_len(pieces[0]) {
            row(kept)
        } else {
            row(kept) + leading_rows(pieces.skip(1), room - text::byte_len(row(kept)))
        }
    }
}

/// As many of the lines, from the last, as fit into `room` bytes when each is a
/// line of the excerpt; the first of them may be cut.
pub open spec fn trailing_rows(all: Seq<Seq<char>>, room: int) -> Seq<char>
    decreases all.len(),
{
    if all.len() == 0 || room <= 5 {
        Seq::empty()
    } else {
        let kept = fitting_tail(all.last(), (room - 5) as nat);
        let part = (indent() + kept).push('\n');
        if text::byte_len(kept) < text::byte_len(all.last()) {
            part
        } else {
            trailing_rows(all.drop_last(), room - text::byte_len(part)) + part
        }
    }
}

proof fn lemma_fitting_bound(line: Seq<char>, room: nat)
    ensures
        text::byte_len(fitting(line, room)) <= room,
        text::byte_len(fitting(line, room)) <= text::byte_len(line),
        fitting(line, room).len() <= line.len(),
    decreases line.len(),
{
    if !(line.len() == 0 || text::byte_len(line) <= room) {
        lemma_fitting_bound(line.drop_last(), room);
    }
}

proof fn lemma_fitting_tail_bound(line: Seq<char>, room: nat)
    ensures
        text::byte_len(fitting_tail(line, room)) <= room,
        text::byte_len(fitting_tail(line, room)) <= text::byte_len(line),
        fitting_tail(line, room).len() <= line.len(),
    decreases line.len(),
{
    if !(line.len() == 0 || text::byte_len(line) <= room) {
        lemma_fitting_tail_bound(line.skip(1), room);
        assert(line =~= seq![line[0]] + line.skip(1));
        text::lemma_byte_len_add(seq![line[0]], line.skip(1));
    }
}

proof fn lemma_fitting_is(line: Seq<char>, room: nat, k: int)
    requires
        0 <= k <= line.len(),
        text::byte_len(line.take(k)) <= room,
        k < line.len() ==> text::byte_len(line.take(k + 1)) > room,
    ensures
        fitting(line, room) == line.take(k),
    decreases line.len(),
{
    if k == line.len() {
        assert(line.take(k) =~= line);
    } else {
        assert(line =~= line.take(k + 1) + line.skip(k + 1));
        text::lemma_byte_len_add(line.take(k + 1), line.skip(k + 1));
        let init = line.drop_last();
        assert(init.take(k) =~= line.take(k));
        if k < init.len() {
            assert(init.take(k + 1) =~= line.take(k + 1));
        }
        lemma_fitting_is(init, room, k);
    }
}

proof fn lemma_fitting_tail_is(line: Seq<char>, room: nat, k: int)
    requires
        0 <= k <= line.len(),
        text::byte_len(line.skip(k)) <= room,
        k > 0 ==> text::byte_len(line.skip(k - 1)) > room,
    ensures
        fitting_tail(line, room) == line.skip(k),
    decreases line.len(),
{
    if k == 0 {
        assert(line.skip(0) =~= line);
    } else {
        assert(line =~= line.take(k - 1) + line.skip(k - 1));
        text::lemma_byte_len_add(line.take(k - 1), line.skip(k - 1));
        let rest = line.skip(1);
        assert(rest.skip(k - 1) =~= line.skip(k));
        if k - 1 > 0 {
            assert(rest.skip(k - 2) =~= line.skip(k - 1));
        }
        lemma_fitting_tail_is(rest, room, k - 1);
    }
}

proof fn lemma_row_bytes(kept: Seq<char>)
    ensures
        text::byte_len(indent()) == 4,
        text::byte_len((indent() + kept).push('\n')) == text::byte_len(kept) + 5,
        text::byte_len(row(kept)) == text::byte_len(kept) + (if kept.len() > 0 && kept.last() == '\n' {
            4int
        } else {
            5
        }),
{
    reveal_with_fuel(text::byte_len, 5);
    text::lemma_byte_len_add(indent(), kept);
    text::lemma_byte_len_push(indent() + kept, '\n');
    assert(indent().drop_last().drop_last().drop_last().drop_last() =~= Seq::<char>::empty());
}

/// The first rows of an excerpt keep to their room.
pub proof fn leading_rows_fit(pieces: Seq<Seq<char>>, room: int)
    requires
        room >= 0,
    ensures
        text::byte_len(leading_rows(pieces, room)) <= room,
    decreases pieces.len(),
{
    if !(pieces.len() == 0 || room <= 5) {
        let kept = fitting(pieces[0], (room - 5) as nat);
        lemma_fitting_bound(pieces[0], (room - 5) as nat);
        lemma_row_bytes(kept);
        let left = room - text::byte_len(row(kept));
        leading_rows_fit(pieces.skip(1), left);
        text::lemma_byte_len_add(row(kept), leading_rows(pieces.skip(1), left));
    }
}

/// The last rows of an excerpt keep to their room.
pub proof fn trailing_rows_fit(all: Seq<Seq<char>>, room: int)
    requires
        room >= 0,
    ensures
        text::byte_len(trailing_rows(all, room)) <= room,
    decreases all.len(),
{
    if !(all.len() == 0 || room <= 5) {
        let kept = fitting_tail(all.last(), (room - 5) as nat);
        let part = (indent() + kept).push('\n');
        lemma_fitting_tail_bound(all.last(), (room - 5) as nat);
        lemma_row_bytes(kept);
        let left = room - text::byte_len(part);
        trailing_rows_fit(all.drop_last(), left);
        text::lemma_byte_len_add(trailing_rows(all.drop_last(), left), part);
    }
}

/// The beginning of a text as indented lines of at most `budget` bytes in all.
pub fn indented_prefix(s: &str, budget: usize) -> (out: String)
    ensures
        out@ == leading_rows(lines::broken(s@), budget as int),
        text::byte_len(out@) <= budget,
{
    proof {
        leading_rows_fit(lines::broken(s@), budget as int);
    }
    let cut: Vec<String> = lines::break_lines(s);
    let ghost all = lines::broken(s@);
    let n: usize = cut.len();
    let mut out: String = String::new();
    let mut room: usize = budget;
    let mut i: usize = 0;
    assert(all.skip(0) =~= all);
    assert(out@ + leading_rows(all.skip(0), room as int) =~= leading_rows(all, budget as int));
    while i < n && room > 5
        invariant
            n == cut@.len(),
            all == text::views(cut@),
            all == lines::broken(s@),
            text::byte_len(leading_rows(all, budget as int)) <= budget,
            i <= n,
            out@ + leading_rows(all.skip(i as int), room as int) == leading_rows(
                all,
                budget as int,
            ),
        decreases n - i,
    {
        let ghost rest = all.skip(i as int);
        let ghost first = out@;
        assert(cut@[i as int]@ == rest[0]);
        let line: Vec<char> = text::chars_of(cut[i].as_str());
        let m: usize = line.len();
        let mut end: usize = 0;
        let mut used: usize = 0;
        assert(text::byte_len(line@.take(0)) == 0);
        while end < m && text::width_of(line[end]) <= room - 5 - used
            invariant
                m == line@.len(),
                end <= m,
                room > 5,
                used <= room - 5,
                used == text::byte_len(line@.take(end as int)),
            decreases m - end,
        {
            proof {
                text::lemma_byte_len_push(line@.take(end as int), line@[end as int]);
                assert(line@.take(end + 1) =~= line@.take(end as int).push(line@[end as int]));
            }
            used += text::width_of(line[end]);
            end += 1;
        }
        proof {
            if end < m {
                text::lemma_byte_len_push(line@.take(end as int), line@[end as int]);
                assert(line@.take(end + 1) =~= line@.take(end as int).push(line@[end as int]));
            }
            lemma_fitting_is(line@, (room - 5) as nat, end as int);
        }
        let ghost kept = line@.take(end as int);
        out.append("    ");
        proof {
            reveal_strlit("    ");
            assert("    "@ =~= indent());
            lemma_row_bytes(kept);
        }
        let mut j: usize = 0;
        assert(out@ + line@.take(0) =~= out@);
        let ghost indented = out@;
        while j < end
            invariant
                j <= end,
                end <= m,
                m == line@.len(),
                out@ == indented + line@.take(j as int),
            decreases end - j,
        {
            out.push(line[j]);
            assert(indented + line@.take(j + 1) =~= (indented + line@.take(j as int)).push(
                line@[j as int],
            ));
            j += 1;
        }
        if end > 0 && line[end - 1] == '\n' {
            assert(out@ =~= first + row(kept));
            room = room - used - 4;
        } else {
            out.push('\n');
            assert(out@ =~= first + row(kept));
            room = room - used - 5;
        }
        if end < m {
            proof {
                assert(line@ =~= kept + line@.skip(end as int));
                text::lemma_byte_len_add(kept, line@.skip(end as int));
                text::lemma_byte_len_bounds(line@.skip(end as int));
                assert(out@ =~= leading_rows(all, budget as int));
            }
            return out;
        }
        proof {
            assert(kept =~= line@);
            assert(rest.skip(1) =~= all.skip(i + 1));
            assert(out@ + leading_rows(all.skip(i + 1), room as int) =~= first + leading_rows(
                rest,
                room + text::byte_len(row(kept)),
            ));
        }
        i += 1;
    }
    assert(out@ + Seq::<char>::empty() =~= out@);
    out
}

/// The parts, the last first.
pub open spec fn back_to_front(parts: Seq<Seq<char>>) -> Seq<char>
    decreases parts.len(),
{
    if parts.len() == 0 {
        Seq::empty()
    } else {
        parts.last() + back_to_front(parts.drop_last())
    }
}

fn concat_back_to_front(parts: &[String]) -> (out: String)
    ensures
        out@ == back_to_front(text::views(parts@)),
{
    let ghost all = text::views(parts@);
    let mut out: String = String::new();
    let mut k: usize = parts.len();
    assert(all.take(k as int) =~= all);
    assert(out@ + back_to_front(all.take(k as int)) =~= back_to_front(all));
    while k > 0
        invariant
            k <= parts@.len(),
            all == text::views(parts@),
            out@ + back_to_front(all.take(k as int)) == back_to_front(all),
        decreases k,
    {
        let ghost before = out@;
        out.append(parts[k - 1].as_str());
        proof {
            assert(all.take(k as int).last() == parts@[k - 1]@);
            assert(all.take(k as int).drop_last() =~= all.take(k - 1));
            assert(out@ + back_to_front(all.take(k - 1)) =~= before + back_to_front(
                all.take(k as int),
            ));
        }
        k -= 1;
    }
    assert(out@ + Seq::<char>::empty() =~= out@);
    out
}

/// The end of a text as indented lines of at most `budget` bytes in all.
pub fn indented_suffix(s: &str, budget: usize) -> (out: String)
    ensures
        out@ == trailing_rows(lines::lines_of(s@), budget as int),
        text::byte_len(out@) <= budget,
{
    proof {
        trailing_rows_fit(lines::lines_of(s@), budget as int);
    }
    let cut: Vec<String> = lines::lines(s);
    let ghost all = lines::lines_of(s@);
    let mut parts: Vec<String> = Vec::new();
    let mut room: usize = budget;
    let mut i: usize = cut.len();
    let ghost whole = trailing_rows(all, budget as int);
    assert(all.take(i as int) =~= all);
    assert(trailing_rows(all.take(i as int), room as int) + back_to_front(text::views(parts@))
        =~= whole);
    while i > 0 && room > 5
        invariant
            i <= cut@.len(),
            all == text::views(cut@),
            all == lines::lines_of(s@),
            whole == trailing_rows(all, budget as int),
            text::byte_len(whole) <= budget,
            trailing_rows(all.take(i as int), room as int) + back_to_front(text::views(parts@))
                == whole,
        decreases i,
    {
        let ghost rest = all.take(i as int);
        let ghost first = text::views(parts@);
        assert(cut@[i - 1]@ == rest.last());
        let line: Vec<char> = text::chars_of(cut[i - 1].as_str());
        let m: usize = line.len();
        let mut start: usize = m;
        let mut used: usize = 0;
        assert(line@.skip(m as int) =~= Seq::<char>::empty());
        assert(text::byte_len(line@.skip(m as int)) == 0);
        while start > 0 && text::width_of(line[start - 1]) <= room - 5 - used
            invariant
                m == line@.len(),
                start <= m,
                room > 5,
                used <= room - 5,
                used == text::byte_len(line@.skip(start as int)),
            decreases start,
        {
            proof {
                lemma_tail_bytes(line@, start as int);
            }
            used += text::width_of(line[start - 1]);
            start -= 1;
        }
        proof {
            if start > 0 {
                lemma_tail_bytes(line@, start as int);
            }
            lemma_fitting_tail_is(line@, (room - 5) as nat, start as int);
            lemma_row_bytes(line@.skip(start as int));
        }
        let ghost kept = line@.skip(start as int);
        let mut part: String = String::new();
        part.append("    ");
        let tail: String = text::string_range(&line, start, m);
        part.append(tail.as_str());
        part.push('\n');
        proof {
            reveal_strlit("    ");
            assert("    "@ =~= indent());
            assert(tail@ =~= kept);
            assert(part@ =~= (indent() + kept).push('\n'));
            text::lemma_views_push(parts@, part);
            assert(first.push(part@).drop_last() =~= first);
        }
        let ghost added = part@;
        parts.push(part);
        room = room - used - 5;
        if start > 0 {
            proof {
                assert(line@ =~= line@.take(start as int) + kept);
                text::lemma_byte_len_add(line@.take(start as int), kept);
                text::lemma_byte_len_bounds(line@.take(start as int));
                assert(back_to_front(text::views(parts@)) =~= whole);
            }
            return concat_back_to_front(&parts);
        }
        proof {
            assert(kept =~= line@);
            assert(rest.drop_last() =~= all.take(i - 1));
            assert(trailing_rows(all.take(i - 1), room as int) + back_to_front(
                text::views(parts@),
            ) =~= trailing_rows(rest, room + text::byte_len(added)) + back_to_front(first));
        }
        i -= 1;
    }
    assert(Seq::<char>::empty() + back_to_front(text::views(parts@)) =~= back_to_front(
        text::views(parts@),
    ));
    concat_back_to_front(&parts)
}

proof fn lemma_tail_bytes(line: Seq<char>, start: int)
    requires
        0 < start <= line.len(),
    ensures
        text::byte_len(line.skip(start - 1)) == text::byte_len(line.skip(start)) + text::char_width(
            line[start - 1],
        ),
{
    let one = seq![line[start - 1]];
    assert(line.skip(start - 1) =~= one + line.skip(start));
    text::lemma_byte_len_add(one, line.skip(start));
    assert(one =~= Seq::<char>::empty().push(line[start - 1]));
    text::lemma_byte_len_push(Seq::<char>::empty(), line[start - 1]);
}

/// What an excerpt begins with.
pub const EXCERPT_HEADER: &'static str =
    "# Report excerpt\n\nThe report exceeded its size limit. [Read the complete report](report.full.md) for all instructions, transcripts and verifier output.\n\n";

/// What stands between an excerpt's two halves.
pub const EXCERPT_MARKER: &'static str =
    "\nContent omitted; complete evidence is in report.full.md.\n\n";

/// `a - b`, but not below 0.
pub open spec fn less_or_zero(a: int, b: int) -> int {
    if a > b {
        a - b
    } else {
        0
    }
}

/// The excerpt's beginning: the header, the first rows in half of what the cap
/// leaves, and the marker.
pub open spec fn excerpt_head(s: Seq<char>, cap: int) -> Seq<char> {
    let room = less_or_zero(
        cap,
        (text::byte_len(EXCERPT_HEADER@) + text::byte_len(EXCERPT_MARKER@)) as int,
    );
    EXCERPT_HEADER@ + leading_rows(lines::broken(s), room / 2) + EXCERPT_MARKER@
}

/// A text's first and last lines, indented, in about `cap` bytes.
pub open spec fn excerpt(s: Seq<char>, cap: int) -> Seq<char> {
    let head = excerpt_head(s, cap);
    head + trailing_rows(lines::lines_of(s), less_or_zero(cap, text::byte_len(head) as int))
}

/// An excerpt keeps to its cap, wherever that has room for the header and the
/// marker at all.
pub proof fn excerpt_keeps_to_its_cap(s: Seq<char>, cap: int)
    requires
        cap >= text::byte_len(EXCERPT_HEADER@) + text::byte_len(EXCERPT_MARKER@),
    ensures
        text::byte_len(excerpt(s, cap)) <= cap,
{
    let fixed = (text::byte_len(EXCERPT_HEADER@) + text::byte_len(EXCERPT_MARKER@)) as int;
    let room = less_or_zero(cap, fixed);
    let rows = leading_rows(lines::broken(s), room / 2);
    leading_rows_fit(lines::broken(s), room / 2);
    text::lemma_byte_len_add(EXCERPT_HEADER@, rows);
    text::lemma_byte_len_add(EXCERPT_HEADER@ + rows, EXCERPT_MARKER@);
    let head = excerpt_head(s, cap);
    let left = less_or_zero(cap, text::byte_len(head) as int);
    trailing_rows_fit(lines::lines_of(s), left);
    text::lemma_byte_len_add(head, trailing_rows(lines::lines_of(s), left));
}

/// A text's first and last lines, indented, with a link to the whole.
pub fn bounded_excerpt(s: &str, cap: usize) -> (out: String)
    ensures
        out@ == excerpt(s@, cap as int),
        cap >= text::byte_len(EXCERPT_HEADER@) + text::byte_len(EXCERPT_MARKER@)
            ==> text::byte_len(out@) <= cap,
{
    proof {
        if cap >= text::byte_len(EXCERPT_HEADER@) + text::byte_len(EXCERPT_MARKER@) {
            excerpt_keeps_to_its_cap(s@, cap as int);
        }
    }
    let header: usize = text::bytes_in(EXCERPT_HEADER);
    let marker: usize = text::bytes_in(EXCERPT_MARKER);
    let room: usize = if cap > header && cap - header > marker {
        cap - header - marker
    } else {
        0
    };
    let mut out: String = String::new();
    out.append(EXCERPT_HEADER);
    let first: String = indented_prefix(s, room / 2);
    out.append(first.as_str());
    out.append(EXCERPT_MARKER);
    assert(out@ =~= excerpt_head(s@, cap as int));
    let used: usize = text::bytes_in(out.as_str());
    let left: usize = if cap > used {
        cap - used
    } else {
        0
    };
    let last: String = indented_suffix(s, left);
    out.append(last.as_str());
    out
}

/// Whether a line of `s` begins at `i`.
pub open spec fn line_starts(s: Seq<char>, i: int) -> bool {
    0 <= i < s.len() && (i == 0 || s[i - 1] == '\n')
}

/// Every line of `s` is indented, and `s` ends with a line break or is empty.
pub open spec fn all_indented(s: Seq<char>) -> bool {
    &&& s.len() == 0 || s.last() == '\n'
    &&& forall|i: int| #[trigger] line_starts(s, i) ==> text::occurs_at(s, indent(), i)
}

proof fn lemma_indented_add(a: Seq<char>, b: Seq<char>)
    requires
        all_indented(a),
        all_indented(b),
    ensures
        all_indented(a + b),
{
    let s = a + b;
    assert forall|i: int| #[trigger] line_starts(s, i) implies text::occurs_at(s, indent(), i) by {
        if i < a.len() {
            assert(line_starts(a, i));
            assert(s.subrange(i, i + 4) =~= a.subrange(i, i + 4));
        } else {
            let j = i - a.len();
            assert(line_starts(b, j));
            assert(s.subrange(i, i + 4) =~= b.subrange(j, j + 4));
        }
    }
    if b.len() == 0 {
        assert(s =~= a);
    } else {
        assert(s.last() == b.last());
    }
}

proof fn lemma_row_indented(kept: Seq<char>)
    requires
        forall|i: int| 0 <= i < kept.len() - 1 ==> kept[i] != '\n',
    ensures
        all_indented(row(kept)),
{
    let s = row(kept);
    assert forall|i: int| #[trigger] line_starts(s, i) implies text::occurs_at(s, indent(), i) by {
        if i > 0 {
            if i <= 4 {
                assert(s[i - 1] == indent()[i - 1]);
            } else {
                assert(s[i - 1] == kept[i - 5]);
            }
        }
        assert(s.subrange(0, 4) =~= indent());
    }
}

proof fn lemma_fitting_prefix(line: Seq<char>, room: nat)
    ensures
        fitting(line, room).len() <= line.len(),
        fitting(line, room) == line.take(fitting(line, room).len() as int),
    decreases line.len(),
{
    let k = fitting(line, room).len() as int;
    if !(line.len() == 0 || text::byte_len(line) <= room) {
        lemma_fitting_prefix(line.drop_last(), room);
        assert(line.drop_last().take(k) =~= line.take(k));
    } else {
        assert(line.take(k) =~= line);
    }
}

proof fn lemma_fitting_suffix(line: Seq<char>, room: nat)
    ensures
        fitting_tail(line, room).len() <= line.len(),
        forall|i: int|
            0 <= i < fitting_tail(line, room).len() ==> fitting_tail(line, room)[i] == line[line.len()
                - fitting_tail(line, room).len() + i],
    decreases line.len(),
{
    if !(line.len() == 0 || text::byte_len(line) <= room) {
        lemma_fitting_suffix(line.skip(1), room);
    }
}

proof fn lemma_leading_indented(pieces: Seq<Seq<char>>, room: int)
    requires
        forall|k: int, i: int|
            0 <= k < pieces.len() && 0 <= i < pieces[k].len() - 1 ==> (#[trigger] pieces[k][i])
                != '\n',
    ensures
        all_indented(leading_rows(pieces, room)),
    decreases pieces.len(),
{
    if !(pieces.len() == 0 || room <= 5) {
        let kept = fitting(pieces[0], (room - 5) as nat);
        lemma_fitting_prefix(pieces[0], (room - 5) as nat);
        assert forall|i: int| 0 <= i < kept.len() - 1 implies kept[i] != '\n' by {
            assert(kept[i] == pieces[0][i]);
        }
        lemma_row_indented(kept);
        let rest = pieces.skip(1);
        let left = room - text::byte_len(row(kept));
        assert forall|k: int, i: int|
            0 <= k < rest.len() && 0 <= i < rest[k].len() - 1 implies (#[trigger] rest[k][i])
            != '\n' by {
            assert(pieces[k + 1][i] != '\n');
        }
        lemma_leading_indented(rest, left);
        lemma_indented_add(row(kept), leading_rows(rest, left));
    }
}

proof fn lemma_trailing_indented(all: Seq<Seq<char>>, room: int)
    requires
        forall|k: int, i: int|
            0 <= k < all.len() && 0 <= i < all[k].len() ==> (#[trigger] all[k][i]) != '\n',
    ensures
        all_indented(trailing_rows(all, room)),
    decreases all.len(),
{
    if !(all.len() == 0 || room <= 5) {
        let line = all.last();
        let kept = fitting_tail(line, (room - 5) as nat);
        lemma_fitting_suffix(line, (room - 5) as nat);
        assert forall|i: int| 0 <= i < kept.len() implies kept[i] != '\n' by {
            assert(kept[i] == all[all.len() - 1][line.len() - kept.len() + i]);
        }
        lemma_row_indented(kept);
        let part = (indent() + kept).push('\n');
        assert(part == row(kept));
        let rest = all.drop_last();
        let left = room - text::byte_len(part);
        assert forall|k: int, i: int|
            0 <= k < rest.len() && 0 <= i < rest[k].len() implies (#[trigger] rest[k][i])
            != '\n' by {
            assert(all[k][i] != '\n');
        }
        lemma_trailing_indented(rest, left);
        lemma_indented_add(trailing_rows(rest, left), part);
    }
}

/// Every line that an excerpt takes from its text is indented by four spaces,
/// so none can open or close a fence.
pub proof fn excerpt_rows_are_indented(s: Seq<char>, room: int)
    ensures
        all_indented(leading_rows(lines::broken(s), room)),
        all_indented(trailing_rows(lines::lines_of(s), room)),
{
    lines::lemma_pieces_some(s, '\n');
    lines::lemma_pieces_clean(s, '\n');
    let cut = lines::pieces(s, '\n');
    let broken = lines::broken(s);
    assert forall|k: int, i: int|
        0 <= k < broken.len() && 0 <= i < broken[k].len() - 1 implies (#[trigger] broken[k][i])
        != '\n' by {
        assert(broken[k][i] == cut[k][i]);
    }
    lemma_leading_indented(broken, room);
    let all = lines::lines_of(s);
    assert forall|k: int, i: int|
        0 <= k < all.len() && 0 <= i < all[k].len() implies (#[trigger] all[k][i]) != '\n' by {
        assert(all[k][i] == cut[k][i]);
    }
    lemma_trailing_indented(all, room);
}

// ---------------------------------------------------------------------------
// Transcripts

/// One line of a transcript, as far as a report shows it.
#[derive(Debug)]
pub struct Event {
    pub kind: String,
    pub name: String,
    pub args: String,
    pub output: String,
    pub ok: bool,
    pub text: String,
    pub answer: String,
}

/// How a report shows one event.
pub open spec fn event_text(e: Event) -> Seq<char> {
    if e.kind@ == "user"@ {
        "> "@ + e.text@ + "\n\n"@
    } else if e.kind@ == "assistant"@ {
        e.text@ + "\n\n"@
    } else if e.kind@ == "tool_call"@ {
        "[tool] "@ + e.name@ + " "@ + e.args@ + "\n"@
    } else if e.kind@ == "tool_result"@ {
        "["@ + (if e.ok {
            "result"@
        } else {
            "error"@
        }) + "] "@ + e.name@ + "\n"@ + collapsed(e.output@) + "\n\n"@
    } else if e.kind@ == "settled"@ {
        "[settled] "@ + collapsed(e.answer@) + "\n"@
    } else if e.kind@ == "failed"@ {
        "[failed]\n"@
    } else {
        "["@ + e.kind@ + "]\n"@
    }
}

/// How a report shows a transcript: every event in order; a line that is no
/// event is left out.
pub open spec fn transcript_text(events: Seq<Option<Event>>) -> Seq<char>
    decreases events.len(),
{
    if events.len() == 0 {
        Seq::empty()
    } else {
        transcript_text(events.drop_last()) + match events.last() {
            Some(e) => event_text(e),
            None => Seq::empty(),
        }
    }
}

fn render_event(e: &Event) -> (out: String)
    ensures
        out@ == event_text(*e),
{
    let mut out: String = String::new();
    if text::same(e.kind.as_str(), "user") {
        out.append("> ");
        out.append(e.text.as_str());
        out.append("\n\n");
    } else if text::same(e.kind.as_str(), "assistant") {
        out.append(e.text.as_str());
        out.append("\n\n");
    } else if text::same(e.kind.as_str(), "tool_call") {
        out.append("[tool] ");
        out.append(e.name.as_str());
        out.append(" ");
        out.append(e.args.as_str());
        out.append("\n");
    } else if text::same(e.kind.as_str(), "tool_result") {
        out.append("[");
        if e.ok {
            out.append("result");
        } else {
            out.append("error");
        }
        out.append("] ");
        out.append(e.name.as_str());
        out.append("\n");
        let shown: String = collapse(e.output.as_str());
        out.append(shown.as_str());
        out.append("\n\n");
    } else if text::same(e.kind.as_str(), "settled") {
        out.append("[settled] ");
        let shown: String = collapse(e.answer.as_str());
        out.append(shown.as_str());
        out.append("\n");
    } else if text::same(e.kind.as_str(), "failed") {
        out.append("[failed]\n");
    } else {
        out.append("[");
        out.append(e.kind.as_str());
        out.append("]\n");
    }
    assert(out@ =~= event_text(*e));
    out
}

/// The whole transcript as text, every event in order.
pub fn render_transcript(events: &[Option<Event>]) -> (out: String)
    ensures
        out@ == transcript_text(events@),
{
    let n: usize = events.len();
    let mut out: String = String::new();
    for i in 0..n
        invariant
            n == events@.len(),
            out@ == transcript_text(events@.take(i as int)),
    {
        assert(events@.take(i + 1).drop_last() =~= events@.take(i as int));
        assert(out@ + Seq::<char>::empty() =~= out@);
        if let Some(e) = &events[i] {
            let shown: String = render_event(e);
            out.append(shown.as_str());
        }
    }
    assert(events@.take(n as int) =~= events@);
    out
}

// ---------------------------------------------------------------------------
// The report

/// The numbers a report begins with; scores as they are to be shown.
#[derive(Debug)]
pub struct Headline {
    pub generation: usize,
    pub score: String,
    pub ci_low: String,
    pub ci_high: String,
    pub pass1: String,
    pub passk: String,
    pub trials: usize,
    pub tasks: usize,
    pub best_score: String,
    pub best_low: String,
}

/// A task and the reward of each of its attempts, as they are to be shown.
#[derive(Debug)]
pub struct TaskRow {
    pub task: String,
    pub attempts: Vec<String>,
}

/// What is known of one failed trial.
#[derive(Debug)]
pub struct Failure {
    pub task: String,
    pub attempt: usize,
    pub error: Option<String>,
    pub instruction: Option<String>,
    pub transcript_path: String,
    pub transcript: Vec<Option<Event>>,
    pub verifier: Option<String>,
}

/// Whether a trial belongs among the failures: its reward is below one.
pub open spec fn fell_short(t: TrialRecord) -> bool {
    t.reward.below(double::one())
}

/// Which trials belong among the failures, in order.
pub fn failed_trials(trials: &[TrialRecord]) -> (out: Vec<usize>)
    ensures
        forall|i: int, j: int| 0 <= i < j < out@.len() ==> out@[i] < out@[j],
        forall|k: int|
            0 <= k < out@.len() ==> #[trigger] out@[k] < trials@.len() && fell_short(
                trials@[out@[k] as int],
            ),
        forall|i: int|
            0 <= i < trials@.len() && #[trigger] fell_short(trials@[i]) ==> out@.contains(
                i as usize,
            ),
{
    let whole: Double = Double { bits: double::ONE_BITS };
    let n: usize = trials.len();
    let mut out: Vec<usize> = Vec::new();
    for at in 0..n
        invariant
            n == trials@.len(),
            whole == double::one(),
            forall|i: int, j: int| 0 <= i < j < out@.len() ==> out@[i] < out@[j],
            forall|k: int|
                0 <= k < out@.len() ==> #[trigger] out@[k] < at && fell_short(
                    trials@[out@[k] as int],
                ),
            forall|i: int|
                0 <= i < at && #[trigger] fell_short(trials@[i]) ==> out@.contains(i as usize),
    {
        if trials[at].reward.is_below(whole) {
            let ghost before = out@;
            out.push(at);
            assert forall|i: int| 0 <= i < at + 1 && #[trigger] fell_short(
                trials@[i],
            ) implies out@.contains(i as usize) by {
                if i < at {
                    let k = choose|k: int| 0 <= k < before.len() && before[k] == i as usize;
                    assert(out@[k] == i as usize);
                } else {
                    assert(out@.last() == i as usize);
                }
            }
        } else {
            assert(!fell_short(trials@[at as int]));
        }
    }
    out
}

/// The report's first lines.
pub open spec fn headline_text(h: Headline) -> Seq<char> {
    "# Generation "@ + lines::digits(h.generation as nat) + "\n\n"@ + "Score "@ + h.score@
        + " (95% CI "@ + h.ci_low@ + "–"@ + h.ci_high@ + "), pass@1 "@ + h.pass1@ + ", pass@k "@
        + h.passk@ + " over "@ + lines::digits(h.trials as nat) + " trial(s) of "@ + lines::digits(
        h.tasks as nat,
    ) + " task(s). Best kept so far: "@ + h.best_score@ + " (lower bound "@ + h.best_low@
        + ").\n\n"@
}

/// The table of every task's attempts.
pub open spec fn task_rows(rows: Seq<TaskRow>) -> Seq<char>
    decreases rows.len(),
{
    if rows.len() == 0 {
        "| task | attempts |\n|---|---|\n"@
    } else {
        task_rows(rows.drop_last()) + "| "@ + rows.last().task@ + " | "@ + lines::joined(
            text::views(rows.last().attempts@),
            " "@,
        ) + " |\n"@
    }
}

/// What a file held, or a word for its absence.
pub open spec fn found_text(part: Option<String>) -> Seq<char> {
    match part {
        Some(s) => s@,
        None => "(missing)"@,
    }
}

/// A failed trial's section.
pub open spec fn failure_text(f: Failure) -> Seq<char> {
    "## Failed: "@ + f.task@ + " (attempt "@ + lines::digits(f.attempt as nat) + ")\n\n"@ + (
    match f.error {
        Some(error) => "Harness error: "@ + error@ + "\n\n"@,
        None => Seq::empty(),
    }) + "### Instruction\n\n"@ + fenced_text(found_text(f.instruction))
        + "### Agent transcript (long results collapsed; JSON at "@ + f.transcript_path@
        + ")\n\n"@ + fenced_text(transcript_text(f.transcript@)) + "### Verifier output\n\n"@
        + fenced_text(found_text(f.verifier))
}

/// The failed trials' sections, in order.
pub open spec fn failures_text(failures: Seq<Failure>) -> Seq<char>
    decreases failures.len(),
{
    if failures.len() == 0 {
        Seq::empty()
    } else {
        failures_text(failures.drop_last()) + failure_text(failures.last())
    }
}

/// The whole report.
pub open spec fn report_text(
    h: Headline,
    rows: Seq<TaskRow>,
    digest: Seq<char>,
    failures: Seq<Failure>,
) -> Seq<char> {
    headline_text(h) + task_rows(rows) + "\n"@ + digest + failures_text(failures)
}

fn found_or_missing(part: &Option<String>) -> (out: String)
    ensures
        out@ == found_text(*part),
{
    match part {
        Some(s) => s.clone(),
        None => "(missing)".to_owned(),
    }
}

fn render_headline(h: &Headline) -> (out: String)
    ensures
        out@ == headline_text(*h),
{
    let mut out: String = String::new();
    out.append("# Generation ");
    let n: String = lines::count(h.generation);
    out.append(n.as_str());
    out.append("\n\n");
    out.append("Score ");
    out.append(h.score.as_str());
    out.append(" (95% CI ");
    out.append(h.ci_low.as_str());
    out.append("–");
    out.append(h.ci_high.as_str());
    out.append("), pass@1 ");
    out.append(h.pass1.as_str());
    out.append(", pass@k ");
    out.append(h.passk.as_str());
    out.append(" over ");
    let n: String = lines::count(h.trials);
    out.append(n.as_str());
    out.append(" trial(s) of ");
    let n: String = lines::count(h.tasks);
    out.append(n.as_str());
    out.append(" task(s). Best kept so far: ");
    out.append(h.best_score.as_str());
    out.append(" (lower bound ");
    out.append(h.best_low.as_str());
    out.append(").\n\n");
    assert(out@ =~= headline_text(*h));
    out
}

fn render_failure(f: &Failure) -> (out: String)
    ensures
        out@ == failure_text(*f),
{
    let mut out: String = String::new();
    out.append("## Failed: ");
    out.append(f.task.as_str());
    out.append(" (attempt ");
    let n: String = lines::count(f.attempt);
    out.append(n.as_str());
    out.append(")\n\n");
    if let Some(error) = &f.error {
        out.append("Harness error: ");
        out.append(error.as_str());
        out.append("\n\n");
    }
    out.append("### Instruction\n\n");
    let part: String = found_or_missing(&f.instruction);
    let shown: String = fenced(part.as_str());
    out.append(shown.as_str());
    out.append("### Agent transcript (long results collapsed; JSON at ");
    out.append(f.transcript_path.as_str());
    out.append(")\n\n");
    let part: String = render_transcript(&f.transcript);
    let shown: String = fenced(part.as_str());
    out.append(shown.as_str());
    out.append("### Verifier output\n\n");
    let part: String = found_or_missing(&f.verifier);
    let shown: String = fenced(part.as_str());
    out.append(shown.as_str());
    assert(out@ =~= failure_text(*f));
    out
}

/// The whole report: the score, the attempts, the digest, and every failed
/// trial in full.
pub fn compose(h: &Headline, rows: &[TaskRow], digest: &str, failures: &[Failure]) -> (out: String)
    ensures
        out@ == report_text(*h, rows@, digest@, failures@),
{
    let head: String = render_headline(h);
    let mut table: String = "| task | attempts |\n|---|---|\n".to_owned();
    let n: usize = rows.len();
    for i in 0..n
        invariant
            n == rows@.len(),
            table@ == task_rows(rows@.take(i as int)),
    {
        assert(rows@.take(i + 1).drop_last() =~= rows@.take(i as int));
        table.append("| ");
        table.append(rows[i].task.as_str());
        table.append(" | ");
        let shown: String = lines::join(&rows[i].attempts, " ");
        table.append(shown.as_str());
        table.append(" |\n");
    }
    assert(rows@.take(n as int) =~= rows@);
    let mut sections: String = String::new();
    let m: usize = failures.len();
    for i in 0..m
        invariant
            m == failures@.len(),
            sections@ == failures_text(failures@.take(i as int)),
    {
        assert(failures@.take(i + 1).drop_last() =~= failures@.take(i as int));
        let shown: String = render_failure(&failures[i]);
        sections.append(shown.as_str());
    }
    assert(failures@.take(m as int) =~= failures@);
    let mut out: String = head;
    out.append(table.as_str());
    out.append("\n");
    out.append(digest);
    out.append(sections.as_str());
    out
}

/// What is written of a report: the text that the improving agent reads, and
/// the complete one beside it where that text is an excerpt.
#[derive(Debug)]
pub struct Publication {
    pub report: String,
    pub full: Option<String>,
}

/// A report within the limit is written as it is; a larger one as an excerpt
/// within the limit, beside the complete text.
pub fn publish(report: String) -> (out: Publication)
    ensures
        text::byte_len(report@) <= REPORT_CAP ==> out.full is None && out.report@ == report@,
        text::byte_len(report@) > REPORT_CAP ==> text::opt(out.full) == Some(report@)
            && out.report@ == excerpt(report@, REPORT_CAP as int),
        text::byte_len(out.report@) <= REPORT_CAP,
{
    if text::bytes_in(report.as_str()) <= REPORT_CAP {
        return Publication { report, full: None };
    }
    proof {
        reveal_strlit(
            "# Report excerpt\n\nThe report exceeded its size limit. [Read the complete report](report.full.md) for all instructions, transcripts and verifier output.\n\n",
        );
        reveal_strlit("\nContent omitted; complete evidence is in report.full.md.\n\n");
        text::lemma_byte_len_bounds(EXCERPT_HEADER@);
        text::lemma_byte_len_bounds(EXCERPT_MARKER@);
    }
    let short: String = bounded_excerpt(report.as_str(), REPORT_CAP);
    Publication { report: short, full: Some(report) }
}

// ---------------------------------------------------------------------------
// What a report holds

/// A report without failures is the headline, the table and the digest; each failure
/// more adds its own section after all the others: its task and attempt, the harness's
/// error where there is one, its instruction, its transcript and its verifier's output,
/// each of these between fences.
pub proof fn one_more_failure_adds_its_section(
    h: Headline,
    rows: Seq<TaskRow>,
    digest: Seq<char>,
    failures: Seq<Failure>,
    f: Failure,
)
    ensures
        report_text(h, rows, digest, Seq::empty()) == headline_text(h) + task_rows(rows) + "\n"@
            + digest,
        report_text(h, rows, digest, failures.push(f)) == report_text(h, rows, digest, failures)
            + ("## Failed: "@ + f.task@ + " (attempt "@ + lines::digits(f.attempt as nat)
            + ")\n\n"@ + (if f.error is Some {
            "Harness error: "@ + f.error->0@ + "\n\n"@
        } else {
            Seq::empty()
        }) + "### Instruction\n\n"@ + fenced_text(
            if f.instruction is Some {
                f.instruction->0@
            } else {
                "(missing)"@
            },
        ) + "### Agent transcript (long results collapsed; JSON at "@ + f.transcript_path@
            + ")\n\n"@ + fenced_text(transcript_text(f.transcript@)) + "### Verifier output\n\n"@
            + fenced_text(
            if f.verifier is Some {
                f.verifier->0@
            } else {
                "(missing)"@
            },
        )),
{
    assert(failures.push(f).drop_last() =~= failures);
    assert(report_text(h, rows, digest, Seq::empty()) =~= headline_text(h) + task_rows(rows)
        + "\n"@ + digest);
    assert(report_text(h, rows, digest, failures.push(f)) =~= report_text(
        h,
        rows,
        digest,
        failures,
    ) + failure_text(f));
}

/// Where the section of the failure with a number begins in a report.
pub open spec fn section_start(
    h: Headline,
    rows: Seq<TaskRow>,
    digest: Seq<char>,
    failures: Seq<Failure>,
    i: int,
) -> int {
    report_text(h, rows, digest, failures.take(i)).len() as int
}

proof fn lemma_sections(
    h: Headline,
    rows: Seq<TaskRow>,
    digest: Seq<char>,
    failures: Seq<Failure>,
    i: int,
)
    requires
        0 <= i < failures.len(),
    ensures
        ({
            let whole = report_text(h, rows, digest, failures);
            let before = report_text(h, rows, digest, failures.take(i));
            let section = failure_text(failures[i]);
            &&& before.len() + section.len() <= whole.len()
            &&& whole == before + section + whole.skip((before.len() + section.len()) as int)
        }),
    decreases failures.len(),
{
    let whole = report_text(h, rows, digest, failures);
    let init = failures.drop_last();
    let before = report_text(h, rows, digest, failures.take(i));
    let section = failure_text(failures[i]);
    let shorter = report_text(h, rows, digest, init);
    assert(whole =~= shorter + failure_text(failures.last()));
    assert(init.take(i) =~= failures.take(i));
    if i == init.len() {
        assert(failures.take(i) =~= init);
        assert(whole =~= before + section + whole.skip((before.len() + section.len()) as int));
    } else {
        lemma_sections(h, rows, digest, init, i);
        assert(init[i] == failures[i]);
        let at = (before.len() + section.len()) as int;
        assert(shorter == before + section + shorter.skip(at));
        assert(whole.skip(at) =~= shorter.skip(at) + failure_text(failures.last()));
        assert(whole =~= before + section + whole.skip(at));
    }
}

/// Every failed trial is in the report in full: the heading with its task and attempt,
/// and its instruction, transcript and verifier output between fences, wherever it
/// stands in the list; and the sections come in the order of the list.
pub proof fn every_failure_is_reported_in_full(
    h: Headline,
    rows: Seq<TaskRow>,
    digest: Seq<char>,
    failures: Seq<Failure>,
    i: int,
)
    requires
        0 <= i < failures.len(),
    ensures
        ({
            let whole = report_text(h, rows, digest, failures);
            let f = failures[i];
            let heading = "## Failed: "@ + f.task@ + " (attempt "@ + lines::digits(f.attempt as nat)
                + ")\n\n"@;
            &&& text::occurs_at(whole, heading, section_start(h, rows, digest, failures, i))
            &&& f.error is Some ==> text::occurs(
                whole,
                "Harness error: "@ + f.error->0@ + "\n\n"@,
            )
            &&& text::occurs(
                whole,
                "### Instruction\n\n"@ + fenced_text(
                    if f.instruction is Some {
                        f.instruction->0@
                    } else {
                        "(missing)"@
                    },
                ),
            )
            &&& text::occurs(whole, fenced_text(transcript_text(f.transcript@)))
            &&& text::occurs(
                whole,
                "### Verifier output\n\n"@ + fenced_text(
                    if f.verifier is Some {
                        f.verifier->0@
                    } else {
                        "(missing)"@
                    },
                ),
            )
            &&& i + 1 < failures.len() ==> section_start(h, rows, digest, failures, i)
                < section_start(h, rows, digest, failures, i + 1)
        }),
{
    let whole = report_text(h, rows, digest, failures);
    let before = report_text(h, rows, digest, failures.take(i));
    let section = failure_text(failures[i]);
    let after = whole.skip((before.len() + section.len()) as int);
    lemma_sections(h, rows, digest, failures, i);
    lemma_section(failures[i], before, after);
    if i + 1 < failures.len() {
        assert(failures.take(i + 1).drop_last() =~= failures.take(i));
        assert(report_text(h, rows, digest, failures.take(i + 1)) =~= before + section);
    }
}

/// What a failure's section holds is held by any text that has the section.
proof fn lemma_section(f: Failure, before: Seq<char>, after: Seq<char>)
    ensures
        ({
            let whole = before + failure_text(f) + after;
            let heading = "## Failed: "@ + f.task@ + " (attempt "@ + lines::digits(f.attempt as nat)
                + ")\n\n"@;
            &&& text::occurs_at(whole, heading, before.len() as int)
            &&& failure_text(f).len() > 0
            &&& f.error is Some ==> text::occurs(
                whole,
                "Harness error: "@ + f.error->0@ + "\n\n"@,
            )
            &&& text::occurs(whole, "### Instruction\n\n"@ + fenced_text(found_text(f.instruction)))
            &&& text::occurs(whole, fenced_text(transcript_text(f.transcript@)))
            &&& text::occurs(whole, "### Verifier output\n\n"@ + fenced_text(found_text(f.verifier)))
        }),
{
    let section = failure_text(f);
    let heading = "## Failed: "@ + f.task@ + " (attempt "@ + lines::digits(f.attempt as nat)
        + ")\n\n"@;
    let error = match f.error {
        Some(error) => "Harness error: "@ + error@ + "\n\n"@,
        None => Seq::empty(),
    };
    let instruction = "### Instruction\n\n"@ + fenced_text(found_text(f.instruction));
    let path = "### Agent transcript (long results collapsed; JSON at "@ + f.transcript_path@
        + ")\n\n"@;
    let transcript = fenced_text(transcript_text(f.transcript@));
    let verifier = "### Verifier output\n\n"@ + fenced_text(found_text(f.verifier));
    assert(section =~= heading + error + instruction + path + transcript + verifier);
    assert(heading.len() > 0) by {
        reveal_strlit("## Failed: ");
    }
    lemma_parts(heading, error, instruction, path, transcript, verifier);
    text::lemma_occurs_within(before, section, after, error);
    text::lemma_occurs_within(before, section, after, instruction);
    text::lemma_occurs_within(before, section, after, transcript);
    text::lemma_occurs_within(before, section, after, verifier);
    let whole = before + section + after;
    let at = before.len() as int;
    assert(whole.subrange(at, at + heading.len()) =~= heading);
}

proof fn lemma_parts(
    a: Seq<char>,
    b: Seq<char>,
    c: Seq<char>,
    d: Seq<char>,
    e: Seq<char>,
    f: Seq<char>,
)
    ensures
        text::occurs(a + b + c + d + e + f, b),
        text::occurs(a + b + c + d + e + f, c),
        text::occurs(a + b + c + d + e + f, e),
        text::occurs(a + b + c + d + e + f, f),
{
    let whole = a + b + c + d + e + f;
    let none = Seq::<char>::empty();
    text::lemma_occurs_between(a, b, c + d + e + f);
    assert(a + b + (c + d + e + f) =~= whole);
    text::lemma_occurs_between(a + b, c, d + e + f);
    assert((a + b) + c + (d + e + f) =~= whole);
    text::lemma_occurs_between(a + b + c + d, e, f);
    text::lemma_occurs_between(a + b + c + d + e, f, none);
    assert((a + b + c + d + e) + f + none =~= whole);
}

/// Fenced evidence is whole, and stands between two rows of backticks on lines of their
/// own, which are equally long, at least three and no more than it takes to be in no
/// row of the evidence.
pub proof fn fenced_evidence_is_whole(s: Seq<char>)
    requires
        s.len() < usize::MAX,
    ensures
        exists|n: nat|
            n >= 3 && #[trigger] fenced_by(s, n) && !text::occurs(s, ticks(n)) && (n > 3
                ==> text::occurs(s, ticks((n - 1) as nat))),
{
    let n = fence_size(s);
    evidence_cannot_close_its_fence(s);
    lemma_trailing_bound(s);
    lemma_longest_occurs(s);
    reveal_strlit("\n");
    reveal_strlit("\n\n");
    assert(fenced_text(s) =~= ticks(n) + "\n"@ + s + "\n"@ + ticks(n) + "\n\n"@);
    assert(fenced_by(s, n));
}

/// Whether a text is fenced by two rows of `n` backticks.
pub open spec fn fenced_by(s: Seq<char>, n: nat) -> bool {
    fenced_text(s) == ticks(n) + "\n"@ + s + "\n"@ + ticks(n) + "\n\n"@
}

proof fn lemma_trailing_is_row(s: Seq<char>)
    ensures
        trailing_ticks(s) <= s.len(),
        s.skip(s.len() - trailing_ticks(s)) == ticks(trailing_ticks(s)),
    decreases s.len(),
{
    lemma_trailing_bound(s);
    let n = trailing_ticks(s);
    if n > 0 {
        lemma_trailing_is_row(s.drop_last());
        let init = s.drop_last();
        let m = trailing_ticks(init);
        assert(s.skip(s.len() - n) =~= init.skip(init.len() - m).push('`'));
        assert(ticks(m).push('`') =~= ticks(n));
    } else {
        assert(s.skip(s.len() as int) =~= ticks(0));
    }
}

proof fn lemma_longest_occurs(s: Seq<char>)
    ensures
        text::occurs(s, ticks(longest_ticks(s))),
    decreases s.len(),
{
    let n = longest_ticks(s);
    lemma_trailing_bound(s);
    if s.len() == 0 {
        assert(s.subrange(0, 0) =~= ticks(0));
        assert(text::occurs_at(s, ticks(0), 0));
    } else if trailing_ticks(s) > longest_ticks(s.drop_last()) {
        lemma_trailing_is_row(s);
        let at = s.len() - n;
        assert(s.subrange(at, at + n) =~= s.skip(at));
        assert(text::occurs_at(s, ticks(n), at));
    } else {
        let init = s.drop_last();
        lemma_longest_occurs(init);
        assert(Seq::<char>::empty() + init + seq![s.last()] =~= s);
        text::lemma_occurs_within(Seq::empty(), init, seq![s.last()], ticks(n));
    }
}

/// Every line of a transcript that is an event adds its text after those before it, and
/// a line that is none adds nothing. A message stands there as it is, a call with its
/// name and arguments, a result and an answer with their long middles left out, and
/// anything else by its kind.
pub proof fn one_more_event_adds_its_text(events: Seq<Option<Event>>, e: Event)
    ensures
        transcript_text(Seq::empty()) == Seq::<char>::empty(),
        transcript_text(events.push(None)) == transcript_text(events),
        ({
            let more = transcript_text(events.push(Some(e)));
            let before = transcript_text(events);
            &&& e.kind@ == "user"@ ==> more == before + ("> "@ + e.text@ + "\n\n"@)
            &&& e.kind@ == "assistant"@ ==> more == before + (e.text@ + "\n\n"@)
            &&& e.kind@ == "tool_call"@ ==> more == before + ("[tool] "@ + e.name@ + " "@ + e.args@
                + "\n"@)
            &&& e.kind@ == "tool_result"@ && e.ok ==> more == before + ("[result] "@ + e.name@
                + "\n"@ + collapsed(e.output@) + "\n\n"@)
            &&& e.kind@ == "tool_result"@ && !e.ok ==> more == before + ("[error] "@ + e.name@
                + "\n"@ + collapsed(e.output@) + "\n\n"@)
            &&& e.kind@ == "settled"@ ==> more == before + ("[settled] "@ + collapsed(e.answer@)
                + "\n"@)
            &&& e.kind@ == "failed"@ ==> more == before + "[failed]\n"@
            &&& e.kind@ != "user"@ && e.kind@ != "assistant"@ && e.kind@ != "tool_call"@ && e.kind@
                != "tool_result"@ && e.kind@ != "settled"@ && e.kind@ != "failed"@ ==> more == before
                + ("["@ + e.kind@ + "]\n"@)
        }),
{
    assert(events.push(None).drop_last() =~= events);
    assert(events.push(Some(e)).drop_last() =~= events);
    assert(transcript_text(events) + Seq::<char>::empty() =~= transcript_text(events));
    reveal_strlit("user");
    reveal_strlit("assistant");
    reveal_strlit("tool_call");
    reveal_strlit("tool_result");
    reveal_strlit("settled");
    reveal_strlit("failed");
    reveal_strlit("[");
    reveal_strlit("result");
    reveal_strlit("error");
    reveal_strlit("] ");
    reveal_strlit("[result] ");
    reveal_strlit("[error] ");
    assert("["@ + "result"@ + "] "@ =~= "[result] "@);
    assert("["@ + "error"@ + "] "@ =~= "[error] "@);
    assert("user"@.len() == 4 && "assistant"@.len() == 9 && "tool_call"@.len() == 9);
    assert("tool_result"@.len() == 11 && "settled"@.len() == 7 && "failed"@.len() == 6);
    assert("assistant"@[0] != "tool_call"@[0]);
}

/// A text of at most twenty lines is shown as it is. Of a longer one the first ten lines
/// and the last ten are, with the number of those between in their place.
pub proof fn long_texts_keep_both_ends(s: Seq<char>)
    ensures
        lines::lines_of(s).len() <= 20 ==> collapsed(s) == s,
        lines::lines_of(s).len() > 20 ==> ({
            let all = lines::lines_of(s);
            let shown = all.take(10) + seq![
                "[... "@ + lines::digits((all.len() - 20) as nat) + " lines ...]"@,
            ] + all.skip(all.len() - 10);
            &&& shown.len() == 21
            &&& collapsed(s) == lines::joined(shown, "\n"@)
        }),
{
    let all = lines::lines_of(s);
    if all.len() > 20 {
        let marker = hidden_marker((all.len() - 20) as nat);
        assert(all.take(10) + seq![marker] + all.skip(all.len() - 10) =~= all.take(10).push(marker)
            + all.skip(all.len() - 10));
    }
}

/// Every task has its row in the table, after those of the tasks before it, with its
/// attempts in order.
pub proof fn one_more_task_adds_its_row(rows: Seq<TaskRow>, row: TaskRow)
    ensures
        task_rows(Seq::empty()) == "| task | attempts |\n|---|---|\n"@,
        task_rows(rows.push(row)) == task_rows(rows) + ("| "@ + row.task@ + " | "@ + lines::joined(
            text::views(row.attempts@),
            " "@,
        ) + " |\n"@),
{
    assert(rows.push(row).drop_last() =~= rows);
    assert(task_rows(rows.push(row)) =~= task_rows(rows) + ("| "@ + row.task@ + " | "@
        + lines::joined(text::views(row.attempts@), " "@) + " |\n"@));
}

/// A report begins with its generation, and says its score with its interval, both pass
/// rates, over how many trials of how many tasks, and the best so far.
pub proof fn a_report_begins_with_its_numbers(h: Headline)
    ensures
        ({
            let said = headline_text(h);
            let title = "# Generation "@ + lines::digits(h.generation as nat) + "\n\n"@;
            &&& text::occurs_at(said, title, 0)
            &&& text::occurs(
                said,
                "Score "@ + h.score@ + " (95% CI "@ + h.ci_low@ + "–"@ + h.ci_high@ + ")"@,
            )
            &&& text::occurs(said, "pass@1 "@ + h.pass1@ + ", pass@k "@ + h.passk@)
            &&& text::occurs(
                said,
                " over "@ + lines::digits(h.trials as nat) + " trial(s) of "@ + lines::digits(
                    h.tasks as nat,
                ) + " task(s)"@,
            )
            &&& text::occurs(
                said,
                "Best kept so far: "@ + h.best_score@ + " (lower bound "@ + h.best_low@ + ")"@,
            )
        }),
{
    reveal_strlit(")");
    reveal_strlit("), pass@1 ");
    reveal_strlit(", ");
    reveal_strlit("pass@1 ");
    reveal_strlit(" task(s). Best kept so far: ");
    reveal_strlit(" task(s)");
    reveal_strlit(". ");
    reveal_strlit("Best kept so far: ");
    reveal_strlit(").\n\n");
    reveal_strlit(".\n\n");
    assert("), pass@1 "@ =~= ")"@ + ", "@ + "pass@1 "@);
    assert(" task(s). Best kept so far: "@ =~= " task(s)"@ + ". "@ + "Best kept so far: "@);
    assert(").\n\n"@ =~= ")"@ + ".\n\n"@);
    let said = headline_text(h);
    let title = "# Generation "@ + lines::digits(h.generation as nat) + "\n\n"@;
    let score = "Score "@ + h.score@ + " (95% CI "@ + h.ci_low@ + "–"@ + h.ci_high@ + ")"@;
    let rates = "pass@1 "@ + h.pass1@ + ", pass@k "@ + h.passk@;
    let sizes = " over "@ + lines::digits(h.trials as nat) + " trial(s) of "@ + lines::digits(
        h.tasks as nat,
    ) + " task(s)"@;
    let best = "Best kept so far: "@ + h.best_score@ + " (lower bound "@ + h.best_low@ + ")"@;
    assert(said =~= title + score + ", "@ + rates + sizes + ". "@ + best + ".\n\n"@);
    assert(said.subrange(0, title.len() as int) =~= title);
    assert(said =~= title + score + (", "@ + rates + sizes + ". "@ + best + ".\n\n"@));
    text::lemma_occurs_between(title, score, ", "@ + rates + sizes + ". "@ + best + ".\n\n"@);
    assert(said =~= (title + score + ", "@) + rates + (sizes + ". "@ + best + ".\n\n"@));
    text::lemma_occurs_between(title + score + ", "@, rates, sizes + ". "@ + best + ".\n\n"@);
    assert(said =~= (title + score + ", "@ + rates) + sizes + (". "@ + best + ".\n\n"@));
    text::lemma_occurs_between(title + score + ", "@ + rates, sizes, ". "@ + best + ".\n\n"@);
    text::lemma_occurs_between(
        title + score + ", "@ + rates + sizes + ". "@,
        best,
        ".\n\n"@,
    );
}

/// A line that is cut for an excerpt keeps the most of its beginning, or of its end, that
/// fits.
pub proof fn a_cut_line_keeps_the_most_that_fits(line: Seq<char>, room: nat, k: int)
    requires
        0 <= k <= line.len(),
    ensures
        ({
            let kept = fitting(line, room);
            &&& kept.len() <= line.len()
            &&& kept == line.take(kept.len() as int)
            &&& text::byte_len(kept) <= room
            &&& text::byte_len(line.take(k)) <= room ==> k <= kept.len()
        }),
        ({
            let kept = fitting_tail(line, room);
            &&& kept.len() <= line.len()
            &&& kept == line.skip(line.len() - kept.len())
            &&& text::byte_len(kept) <= room
            &&& text::byte_len(line.skip(k)) <= room ==> line.len() - k <= kept.len()
        }),
{
    lemma_fitting_prefix(line, room);
    lemma_fitting_bound(line, room);
    if text::byte_len(line.take(k)) <= room {
        lemma_fitting_most(line, room, k);
    }
    lemma_fitting_suffix(line, room);
    lemma_fitting_tail_bound(line, room);
    if text::byte_len(line.skip(k)) <= room {
        lemma_fitting_tail_most(line, room, k);
    }
    let kept = fitting_tail(line, room);
    assert(kept =~= line.skip(line.len() - kept.len()));
}

proof fn lemma_fitting_most(line: Seq<char>, room: nat, k: int)
    requires
        0 <= k <= line.len(),
        text::byte_len(line.take(k)) <= room,
    ensures
        k <= fitting(line, room).len(),
    decreases line.len(),
{
    if !(line.len() == 0 || text::byte_len(line) <= room) {
        if k == line.len() {
            assert(line.take(k) =~= line);
        } else {
            assert(line.drop_last().take(k) =~= line.take(k));
            lemma_fitting_most(line.drop_last(), room, k);
        }
    }
}

proof fn lemma_fitting_tail_most(line: Seq<char>, room: nat, k: int)
    requires
        0 <= k <= line.len(),
        text::byte_len(line.skip(k)) <= room,
    ensures
        line.len() - k <= fitting_tail(line, room).len(),
    decreases line.len(),
{
    if !(line.len() == 0 || text::byte_len(line) <= room) {
        if k == 0 {
            assert(line.skip(0) =~= line);
        } else {
            assert(line.skip(1).skip(k - 1) =~= line.skip(k));
            lemma_fitting_tail_most(line.skip(1), room, k - 1);
        }
    }
}

/// An excerpt begins with what it is and where the whole stands, and says between its
/// halves that something is left out.
pub proof fn an_excerpt_says_what_it_is(s: Seq<char>, cap: int)
    ensures
        text::occurs_at(
            excerpt(s, cap),
            "# Report excerpt\n\nThe report exceeded its size limit. [Read the complete report](report.full.md) for all instructions, transcripts and verifier output.\n\n"@,
            0,
        ),
        text::occurs(
            excerpt(s, cap),
            "\nContent omitted; complete evidence is in report.full.md.\n\n"@,
        ),
{
    let head = excerpt_head(s, cap);
    let whole = excerpt(s, cap);
    let n = EXCERPT_HEADER@.len() as int;
    assert(whole.subrange(0, n) =~= EXCERPT_HEADER@);
    let rows = head.subrange(n, head.len() - EXCERPT_MARKER@.len());
    let tail = whole.skip(head.len() as int);
    assert(whole =~= (EXCERPT_HEADER@ + rows) + EXCERPT_MARKER@ + tail);
    text::lemma_occurs_between(EXCERPT_HEADER@ + rows, EXCERPT_MARKER@, tail);
}

/// A line that has room in its half of an excerpt is there whole and indented, at the
/// beginning before the lines that follow it, at the end after those before it.
pub proof fn rows_are_kept_while_they_fit(pieces: Seq<Seq<char>>, room: int)
    requires
        pieces.len() > 0,
    ensures
        ({
            let first = pieces[0];
            let row = if first.len() > 0 && first.last() == '\n' {
                "    "@ + first
            } else {
                "    "@ + first + "\n"@
            };
            text::byte_len(first) + 5 <= room && room > 5 ==> leading_rows(pieces, room) == row
                + leading_rows(pieces.skip(1), room - text::byte_len(row))
        }),
        ({
            let last = pieces.last();
            let row = "    "@ + last + "\n"@;
            text::byte_len(last) + 5 <= room && room > 5 ==> trailing_rows(pieces, room)
                == trailing_rows(pieces.drop_last(), room - text::byte_len(row)) + row
        }),
{
    reveal_strlit("    ");
    reveal_strlit("\n");
    assert("    "@ =~= indent());
    assert("    "@ + pieces[0] + "\n"@ =~= (indent() + pieces[0]).push('\n'));
    assert("    "@ + pieces.last() + "\n"@ =~= (indent() + pieces.last()).push('\n'));
}

/// A trial is among the failures exactly when its reward is a number below one.
pub proof fn anything_below_one_is_a_failure(t: TrialRecord)
    ensures
        fell_short(t) <==> !t.reward.is_nan() && !t.reward.reaches(
            Double { bits: 0x3ff0_0000_0000_0000 },
        ),
{
}

/// A report that is written may have 400 KiB; a larger one is written as an excerpt.
pub proof fn a_report_has_its_limit()
    ensures
        REPORT_CAP == 400 * 1024,
{
}

} // verus!
