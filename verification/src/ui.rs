//! The terminal UI: its keys, the review of an operation, the transcript as
//! styled lines, and what a frame shows.
//!
//! Keys: Enter sends, Alt+Enter (or Ctrl+J) inserts a newline, Esc stops the
//! run in flight, Ctrl+C / Ctrl+Q quits, Up/Down/PageUp/PageDown scroll,
//! End follows the stream again.

use vstd::prelude::*;
use crate::lines;
use crate::text;

verus! {

// ---------------------------------------------------------------------------
// What ratatui computes

/// The graphemes of a text that ratatui draws, in order.
pub uninterp spec fn graphemes_of(s: Seq<char>) -> Seq<Seq<char>>;

/// How many cells ratatui gives a text.
pub uninterp spec fn cell_width(s: Seq<char>) -> nat;

/// How many lines ratatui wraps lines of spans into at a width.
pub uninterp spec fn wrapped_height(all: Seq<Seq<Seq<char>>>, width: u16) -> nat;

/// Whether a character is a control character.
pub open spec fn is_control(c: char) -> bool {
    (c as u32) < 0x20 || (0x7f <= (c as u32) && (c as u32) <= 0x9f)
}

/// No character of the text is a control character.
pub open spec fn is_plain(s: Seq<char>) -> bool {
    forall|i: int| 0 <= i < s.len() ==> !is_control(#[trigger] s[i])
}

/// `ratatui::text::Span::styled_graphemes` of a raw span: which graphemes it
/// gives depends on the text alone. It leaves out those that hold a control
/// character and gives all others in order, so that of a text without control
/// characters it gives the whole.
#[verifier::external_body]
fn graphemes(s: &str) -> (out: Vec<String>)
    ensures
        text::views(out@) == graphemes_of(s@),
        is_plain(s@) ==> lines::concat(text::views(out@)) == s@,
{
    ratatui::text::Span::raw(s)
        .styled_graphemes(ratatui::style::Style::default())
        .map(|grapheme| grapheme.symbol.to_owned())
        .collect()
}

/// `ratatui::text::Span::width` of a raw span: it depends on the text alone.
#[verifier::external_body]
fn width_of(s: &str) -> (out: usize)
    ensures
        out as nat == cell_width(s@),
{
    ratatui::text::Span::raw(s).width()
}

/// The texts of lines of spans.
pub open spec fn span_texts(all: Seq<StyledLine>) -> Seq<Seq<Seq<char>>> {
    Seq::new(all.len(), |i: int| Seq::new(all[i].spans@.len(), |k: int| all[i].spans@[k].text@))
}

/// Up to this width ratatui wraps lines of any text: its 16-bit sums stay below four
/// times the width.
pub const WIDEST: u16 = 0x4000;

/// At most how many cells ratatui gives a grapheme when it wraps: those of the text,
/// and one more for each halfwidth sound mark.
pub open spec fn heft(grapheme: Seq<char>) -> nat {
    cell_width(grapheme) + text::count_of(grapheme, '\u{ff9e}') + text::count_of(
        grapheme,
        '\u{ff9f}',
    )
}

/// Whether a grapheme of so many cells is narrow enough for a width, or is left out
/// for being wider than it. While ratatui wraps, its sums stay below the width and
/// three times the widest grapheme that it takes.
pub open spec fn slim(cells: nat, width: nat) -> bool {
    width + 3 * cells <= 65536 || width < cells <= 65535
}

/// Whether every grapheme is slim.
pub open spec fn all_slim(parts: Seq<Seq<char>>, width: nat) -> bool {
    forall|i: int| 0 <= i < parts.len() ==> slim(heft(#[trigger] parts[i]), width)
}

/// How many cells the graphemes take together, at most.
pub open spec fn weight(parts: Seq<Seq<char>>) -> nat
    decreases parts.len(),
{
    if parts.len() == 0 {
        0
    } else {
        weight(parts.drop_last()) + heft(parts.last())
    }
}

/// How many cells the spans of a line take together, at most.
pub open spec fn line_weight(spans: Seq<Seq<char>>) -> nat
    decreases spans.len(),
{
    if spans.len() == 0 {
        0
    } else {
        line_weight(spans.drop_last()) + weight(graphemes_of(spans.last()))
    }
}

/// Whether every grapheme of a line's spans is slim.
pub open spec fn line_slim(spans: Seq<Seq<char>>, width: nat) -> bool {
    forall|k: int| 0 <= k < spans.len() ==> all_slim(graphemes_of(#[trigger] spans[k]), width)
}

/// Whether ratatui's 16-bit sums hold while it wraps the lines at a width: it is no
/// greater than `WIDEST`, or each line takes no more cells than 16 bits count or has
/// only slim graphemes.
pub open spec fn countable(all: Seq<Seq<Seq<char>>>, width: u16) -> bool {
    width <= WIDEST || forall|i: int|
        0 <= i < all.len() ==> line_weight(#[trigger] all[i]) <= 65535 || line_slim(
            all[i],
            width as nat,
        )
}

/// `ratatui::widgets::Paragraph::line_count` of a paragraph that wraps without
/// trimming: it depends on the texts of the spans, line by line, and on the
/// width. It adds up cells in 16 bits, unchecked; what is asked for here keeps those
/// sums from overflowing.
#[verifier::external_body]
fn height_of(all: &[StyledLine], width: u16) -> (out: usize)
    requires
        countable(span_texts(all@), width),
    ensures
        out as nat == wrapped_height(span_texts(all@), width),
{
    let paragraph = ratatui::widgets::Paragraph::new(
        all.iter()
            .map(|line| {
                ratatui::text::Line::from(
                    line.spans
                        .iter()
                        .map(|span| ratatui::text::Span::raw(span.text.as_str()))
                        .collect::<Vec<_>>(),
                )
            })
            .collect::<Vec<_>>(),
    );
    paragraph.wrap(ratatui::widgets::Wrap { trim: false }).line_count(width)
}

// ---------------------------------------------------------------------------
// The review of an operation

/// A line so far, the cells it takes, and the lines before it, each with its
/// cells.
pub struct Wrapping {
    pub done: Seq<(Seq<char>, nat)>,
    pub line: Seq<char>,
    pub used: nat,
}

/// The graphemes of one line put into lines of at most `width` cells; a grapheme
/// that is wider has a line to itself.
pub open spec fn wrapped(parts: Seq<Seq<char>>, cells: Seq<nat>, width: nat) -> Wrapping
    decreases parts.len(),
{
    if parts.len() == 0 {
        Wrapping { done: Seq::empty(), line: Seq::empty(), used: 0 }
    } else {
        let w = wrapped(parts.drop_last(), cells, width);
        let more = cells[parts.len() - 1];
        if w.used + more > width && w.line.len() > 0 {
            Wrapping { done: w.done.push((w.line, w.used)), line: parts.last(), used: more }
        } else {
            Wrapping { done: w.done, line: w.line + parts.last(), used: w.used + more }
        }
    }
}

/// The lines that one line is put into, with the cells of each.
pub open spec fn pieces(parts: Seq<Seq<char>>, cells: Seq<nat>, width: nat) -> Seq<
    (Seq<char>, nat),
> {
    let w = wrapped(parts, cells, width);
    w.done.push((w.line, w.used))
}

/// The texts of lines.
pub open spec fn texts(all: Seq<(Seq<char>, nat)>) -> Seq<Seq<char>> {
    Seq::new(all.len(), |i: int| all[i].0)
}

/// The cells of each grapheme.
pub open spec fn cells_of(parts: Seq<Seq<char>>) -> Seq<nat> {
    Seq::new(parts.len(), |i: int| cell_width(parts[i]))
}

/// The lines that the lines of a review are put into.
pub open spec fn review_lines(sources: Seq<Seq<char>>, width: nat) -> Seq<Seq<char>>
    decreases sources.len(),
{
    if sources.len() == 0 {
        Seq::empty()
    } else {
        let parts = graphemes_of(sources.last());
        review_lines(sources.drop_last(), width) + texts(pieces(parts, cells_of(parts), width))
    }
}

/// How wide a review's lines may be: at least one cell.
pub open spec fn review_width(width: u16) -> nat {
    if width == 0 {
        1
    } else {
        width as nat
    }
}

proof fn lemma_concat_push(all: Seq<Seq<char>>, last: Seq<char>)
    ensures
        lines::concat(all.push(last)) == lines::concat(all) + last,
{
    assert(all.push(last).drop_last() =~= all);
}

proof fn lemma_concat_add(a: Seq<Seq<char>>, b: Seq<Seq<char>>)
    ensures
        lines::concat(a + b) == lines::concat(a) + lines::concat(b),
    decreases b.len(),
{
    if b.len() == 0 {
        assert(a + b =~= a);
        assert(lines::concat(a) + Seq::<char>::empty() =~= lines::concat(a));
    } else {
        assert((a + b).drop_last() =~= a + b.drop_last());
        lemma_concat_add(a, b.drop_last());
        assert(lines::concat(a) + (lines::concat(b.drop_last()) + b.last()) =~= (lines::concat(a)
            + lines::concat(b.drop_last())) + b.last());
    }
}

/// Wrapping loses nothing: the lines that a line is put into hold its graphemes,
/// all of them and in order.
pub proof fn wrapping_keeps_every_grapheme(parts: Seq<Seq<char>>, cells: Seq<nat>, width: nat)
    ensures
        lines::concat(texts(pieces(parts, cells, width))) == lines::concat(parts),
    decreases parts.len(),
{
    let w = wrapped(parts, cells, width);
    assert(texts(w.done.push((w.line, w.used))) =~= texts(w.done).push(w.line));
    lemma_concat_push(texts(w.done), w.line);
    if parts.len() == 0 {
        assert(texts(w.done) =~= Seq::empty());
        assert(Seq::<char>::empty() + Seq::<char>::empty() =~= Seq::<char>::empty());
    } else {
        let init = parts.drop_last();
        wrapping_keeps_every_grapheme(init, cells, width);
        let v = wrapped(init, cells, width);
        assert(texts(v.done.push((v.line, v.used))) =~= texts(v.done).push(v.line));
        lemma_concat_push(texts(v.done), v.line);
        let more = cells[parts.len() - 1];
        if v.used + more > width && v.line.len() > 0 {
        } else {
            assert(lines::concat(texts(v.done)) + (v.line + parts.last()) =~= (lines::concat(
                texts(v.done),
            ) + v.line) + parts.last());
        }
    }
}

/// Whether a line keeps to the width, or is one grapheme that is wider.
pub open spec fn fits(piece: (Seq<char>, nat), parts: Seq<Seq<char>>, width: nat) -> bool {
    piece.1 <= width || parts.contains(piece.0)
}

proof fn lemma_wrapped_fits(parts: Seq<Seq<char>>, cells: Seq<nat>, width: nat)
    ensures
        forall|i: int|
            0 <= i < wrapped(parts, cells, width).done.len() ==> fits(
                #[trigger] wrapped(parts, cells, width).done[i],
                parts,
                width,
            ),
        fits((wrapped(parts, cells, width).line, wrapped(parts, cells, width).used), parts, width),
    decreases parts.len(),
{
    if parts.len() > 0 {
        let init = parts.drop_last();
        lemma_wrapped_fits(init, cells, width);
        let v = wrapped(init, cells, width);
        let w = wrapped(parts, cells, width);
        assert forall|p: (Seq<char>, nat)| fits(p, init, width) implies #[trigger] fits(
            p,
            parts,
            width,
        ) by {
            if p.1 > width {
                let k = choose|k: int| 0 <= k < init.len() && init[k] == p.0;
                assert(parts[k] == p.0);
            }
        }
        assert(parts[parts.len() - 1] == parts.last());
        assert(parts.contains(parts.last()));
        assert forall|i: int| 0 <= i < w.done.len() implies fits(
            #[trigger] w.done[i],
            parts,
            width,
        ) by {
            if i < v.done.len() {
                assert(w.done[i] == v.done[i]);
                assert(fits(v.done[i], init, width));
            } else {
                assert(fits((v.line, v.used), init, width));
            }
        }
        if v.line.len() == 0 {
            assert(v.line + parts.last() =~= parts.last());
        }
    }
}

/// Every line of a wrapped one keeps to the width, or is a single grapheme that
/// does not fit into it.
pub proof fn wrapped_lines_fit(parts: Seq<Seq<char>>, cells: Seq<nat>, width: nat, i: int)
    requires
        0 <= i < pieces(parts, cells, width).len(),
    ensures
        fits(pieces(parts, cells, width)[i], parts, width),
{
    lemma_wrapped_fits(parts, cells, width);
}

/// The widths as counts.
pub open spec fn counts(widths: Seq<usize>) -> Seq<nat> {
    Seq::new(widths.len(), |i: int| widths[i] as nat)
}

/// The lines that one line's graphemes are put into, each grapheme with its
/// cells.
pub fn wrap_graphemes(parts: &[String], widths: &[usize], width: usize) -> (out: Vec<String>)
    requires
        parts@.len() == widths@.len(),
        width < usize::MAX,
    ensures
        text::views(out@) == texts(pieces(text::views(parts@), counts(widths@), width as nat)),
{
    let n: usize = parts.len();
    let ghost all = text::views(parts@);
    let ghost cells = counts(widths@);
    let mut out: Vec<String> = Vec::new();
    let mut line: String = String::new();
    let mut used: usize = 0;
    let mut empty: bool = true;
    assert(text::views(out@) =~= texts(wrapped(all.take(0), cells, width as nat).done));
    for i in 0..n
        invariant
            n == parts@.len(),
            n == widths@.len(),
            width < usize::MAX,
            all == text::views(parts@),
            cells == counts(widths@),
            text::views(out@) == texts(wrapped(all.take(i as int), cells, width as nat).done),
            line@ == wrapped(all.take(i as int), cells, width as nat).line,
            empty == (line@.len() == 0),
            used as nat == wrapped(all.take(i as int), cells, width as nat).used || (used
                == usize::MAX && wrapped(all.take(i as int), cells, width as nat).used
                >= usize::MAX),
    {
        let ghost before = wrapped(all.take(i as int), cells, width as nat);
        proof {
            assert(all.take(i + 1).drop_last() =~= all.take(i as int));
            assert(all.take(i + 1).last() == parts@[i as int]@);
            assert(cells[i as int] == widths@[i as int] as nat);
        }
        let more: usize = widths[i];
        if !empty && (used > width || more > width - used) {
            proof {
                text::lemma_views_push(out@, line);
                assert(texts(before.done.push((before.line, before.used))) =~= texts(
                    before.done,
                ).push(before.line));
            }
            out.push(line);
            line = parts[i].clone();
            used = more;
        } else {
            line.append(parts[i].as_str());
            if more > usize::MAX - used {
                used = usize::MAX;
            } else {
                used = used + more;
            }
        }
        empty = line.as_str().is_empty();
    }
    assert(all.take(n as int) =~= all);
    let ghost w = wrapped(all, cells, width as nat);
    proof {
        text::lemma_views_push(out@, line);
        assert(texts(w.done.push((w.line, w.used))) =~= texts(w.done).push(w.line));
    }
    out.push(line);
    out
}

fn wrap_source(source: &str, width: usize) -> (out: Vec<String>)
    requires
        width < usize::MAX,
    ensures
        ({
            let parts = graphemes_of(source@);
            &&& text::views(out@) == texts(pieces(parts, cells_of(parts), width as nat))
            &&& is_plain(source@) ==> lines::concat(text::views(out@)) == source@
        }),
{
    let parts: Vec<String> = graphemes(source);
    let n: usize = parts.len();
    let ghost all = graphemes_of(source@);
    assert(all.len() == n);
    let mut widths: Vec<usize> = Vec::new();
    for i in 0..n
        invariant
            n == parts@.len(),
            all == text::views(parts@),
            widths@.len() == i,
            forall|j: int| 0 <= j < i ==> widths@[j] as nat == cell_width(#[trigger] all[j]),
    {
        assert(all[i as int] == parts@[i as int]@);
        widths.push(width_of(parts[i].as_str()));
    }
    assert(counts(widths@) =~= cells_of(all));
    proof {
        wrapping_keeps_every_grapheme(all, cells_of(all), width as nat);
    }
    wrap_graphemes(&parts, &widths, width)
}

/// `s` without its line breaks.
pub open spec fn unbroken(s: Seq<char>) -> Seq<char> {
    lines::char_replaced(s, '\n', Seq::empty())
}

proof fn lemma_pieces_unbroken(s: Seq<char>)
    ensures
        lines::concat(lines::pieces(s, '\n')) == unbroken(s),
    decreases s.len(),
{
    if s.len() == 0 {
        let none = Seq::<Seq<char>>::empty();
        lemma_concat_push(none, Seq::empty());
        assert(none.push(Seq::empty()) =~= lines::pieces(s, '\n'));
        assert(lines::concat(none) =~= Seq::<char>::empty());
        assert(Seq::<char>::empty() + Seq::<char>::empty() =~= unbroken(s));
    } else {
        let before = lines::pieces(s.drop_last(), '\n');
        lemma_pieces_unbroken(s.drop_last());
        lines::lemma_pieces_some(s.drop_last(), '\n');
        if s.last() == '\n' {
            lemma_concat_push(before, Seq::empty());
        } else {
            lemma_concat_push(before.drop_last(), before.last().push(s.last()));
            assert(before =~= before.drop_last().push(before.last()));
            lemma_concat_push(before.drop_last(), before.last());
            assert(lines::concat(before.drop_last()) + before.last().push(s.last()) =~= (
            lines::concat(before.drop_last()) + before.last()) + seq![s.last()]);
        }
    }
}

proof fn lemma_pieces_plain(s: Seq<char>, k: int)
    requires
        forall|i: int| 0 <= i < s.len() ==> (#[trigger] s[i]) == '\n' || !is_control(s[i]),
        0 <= k < lines::pieces(s, '\n').len(),
    ensures
        is_plain(lines::pieces(s, '\n')[k]),
    decreases s.len(),
{
    if s.len() > 0 {
        let init = s.drop_last();
        assert forall|i: int| 0 <= i < init.len() implies (#[trigger] init[i]) == '\n' || !is_control(
            init[i],
        ) by {
            assert(init[i] == s[i]);
        }
        let before = lines::pieces(init, '\n');
        lines::lemma_pieces_some(init, '\n');
        if k < before.len() {
            lemma_pieces_plain(init, k);
        }
        lemma_pieces_plain(init, before.len() - 1);
        assert(s[s.len() - 1] == s.last());
        let piece = lines::pieces(s, '\n')[k];
        assert forall|i: int| 0 <= i < piece.len() implies !is_control(#[trigger] piece[i]) by {
            if s.last() != '\n' && k == before.len() - 1 {
                if i < before.last().len() {
                    assert(piece[i] == before[before.len() - 1][i]);
                } else {
                    assert(piece[i] == s.last());
                }
            } else if k < before.len() {
                assert(piece == before[k]);
            }
        }
    }
}

/// An operation's review in lines of at most `width` cells, all of it: where it
/// has no control character but line breaks, the lines put together are the
/// review without its line breaks.
pub fn wrap_review(review: &str, width: u16) -> (out: Vec<String>)
    ensures
        text::views(out@) == review_lines(lines::pieces(review@, '\n'), review_width(width)),
        (forall|i: int|
            0 <= i < review@.len() ==> (#[trigger] review@[i]) == '\n' || !is_control(review@[i]))
            ==> lines::concat(text::views(out@)) == unbroken(review@),
{
    let cells: usize = if width == 0 {
        1
    } else {
        width as usize
    };
    let cut: Vec<String> = lines::split(review, '\n');
    let ghost all = lines::pieces(review@, '\n');
    let ghost plain = forall|i: int|
        0 <= i < review@.len() ==> (#[trigger] review@[i]) == '\n' || !is_control(review@[i]);
    let n: usize = cut.len();
    let mut out: Vec<String> = Vec::new();
    assert(text::views(out@) =~= review_lines(all.take(0), cells as nat));
    assert(lines::concat(text::views(out@)) =~= lines::concat(all.take(0)));
    for i in 0..n
        invariant
            n == cut@.len(),
            all == text::views(cut@),
            all == lines::pieces(review@, '\n'),
            0 < cells < usize::MAX,
            plain == forall|k: int|
                0 <= k < review@.len() ==> (#[trigger] review@[k]) == '\n' || !is_control(
                    review@[k],
                ),
            text::views(out@) == review_lines(all.take(i as int), cells as nat),
            plain ==> lines::concat(text::views(out@)) == lines::concat(all.take(i as int)),
    {
        proof {
            assert(all.take(i + 1).drop_last() =~= all.take(i as int));
            assert(all.take(i + 1).last() == cut@[i as int]@);
            assert(all[i as int] == cut@[i as int]@);
            if plain {
                lemma_pieces_plain(review@, i as int);
            }
        }
        let more: Vec<String> = wrap_source(cut[i].as_str(), cells);
        let ghost before = text::views(out@);
        text::append_range(&mut out, &more, 0, more.len());
        proof {
            assert(text::views(out@) =~= before + text::views(more@));
            lemma_concat_add(before, text::views(more@));
        }
    }
    proof {
        assert(all.take(n as int) =~= all);
        lemma_pieces_unbroken(review@);
    }
    out
}

// ---------------------------------------------------------------------------
// The transcript as styled lines

/// How many lines of a tool's result are shown.
pub const COLLAPSED_RESULT_LINES: usize = 6;

/// A colour of the terminal's palette.
#[derive(Clone, Copy, Debug, PartialEq, Eq, Structural)]
pub enum Color {
    Default,
    Cyan,
    Yellow,
    DarkGray,
    Red,
    Magenta,
    Green,
}

/// How a span is drawn.
#[derive(Clone, Copy, Debug, PartialEq, Eq, Structural)]
pub struct Tone {
    pub color: Color,
    pub bold: bool,
    pub dim: bool,
    pub italic: bool,
    pub reversed: bool,
}

/// A text drawn one way.
#[derive(Debug)]
pub struct StyledSpan {
    pub text: String,
    pub tone: Tone,
}

/// A line of spans.
#[derive(Debug)]
pub struct StyledLine {
    pub spans: Vec<StyledSpan>,
}

/// What the transcript shows of a run.
#[derive(Debug)]
pub enum Event {
    User { text: String },
    Assistant { text: String },
    ToolCall { name: String, args: String },
    ToolResult { name: String, output: String, ok: bool },
    Settled,
    Failed { reason: String },
    Denied { name: String, reason: String },
    Retrying { attempt: u64, wait_secs: u64 },
    Held { name: String, args: String },
    Usage { input_tokens: u64, output_tokens: u64 },
}

/// A line as texts and tones.
pub open spec fn line_view(line: StyledLine) -> Seq<(Seq<char>, Tone)> {
    Seq::new(line.spans@.len(), |i: int| (line.spans@[i].text@, line.spans@[i].tone))
}

/// Lines as texts and tones.
pub open spec fn line_views(all: Seq<StyledLine>) -> Seq<Seq<(Seq<char>, Tone)>> {
    Seq::new(all.len(), |i: int| line_view(all[i]))
}

pub open spec fn tone(color: Color) -> Tone {
    Tone { color, bold: false, dim: false, italic: false, reversed: false }
}

pub open spec fn bold(color: Color) -> Tone {
    Tone { color, bold: true, dim: false, italic: false, reversed: false }
}

pub open spec fn dim(color: Color) -> Tone {
    Tone { color, bold: false, dim: true, italic: false, reversed: false }
}

/// Every line in one tone.
pub open spec fn toned(all: Seq<Seq<char>>, tone: Tone) -> Seq<Seq<(Seq<char>, Tone)>> {
    Seq::new(all.len(), |i: int| seq![(all[i], tone)])
}

/// A text as one line: a sign for each line break, and an ellipsis after `max`
/// characters.
pub open spec fn flattened(s: Seq<char>, max: nat) -> Seq<char> {
    let flat = lines::char_replaced(s, '\n', "⏎"@);
    if flat.len() > max {
        flat.take(max as int).push('…')
    } else {
        flat
    }
}

/// A text as one line.
pub fn one_line(s: &str, max: usize) -> (out: String)
    ensures
        out@ == flattened(s@, max as nat),
{
    let flat: String = lines::replace_char(s, '\n', "⏎");
    let chars: Vec<char> = text::chars_of(flat.as_str());
    if chars.len() <= max {
        return flat;
    }
    let mut out: String = text::string_range(&chars, 0, max);
    out.push('…');
    assert(out@ =~= flattened(s@, max as nat));
    out
}

/// The lines shown of a tool's result, each indented and flattened.
pub open spec fn result_lines(all: Seq<Seq<char>>) -> Seq<Seq<char>> {
    let n = if all.len() > COLLAPSED_RESULT_LINES {
        COLLAPSED_RESULT_LINES as nat
    } else {
        all.len()
    };
    Seq::new(n, |i: int| "  "@ + flattened(all[i], 160))
}

/// What says how many lines of a result are not shown.
pub open spec fn hidden_line(all: Seq<Seq<char>>, color: Color) -> Seq<Seq<(Seq<char>, Tone)>> {
    if all.len() > COLLAPSED_RESULT_LINES {
        seq![
            seq![
                (
                    "  … "@ + lines::digits((all.len() - COLLAPSED_RESULT_LINES) as nat)
                        + " more line(s)"@,
                    Tone { color, bold: false, dim: false, italic: true, reversed: false },
                ),
            ],
        ]
    } else {
        Seq::empty()
    }
}

/// Forty times a dash.
pub open spec fn rule() -> Seq<char> {
    Seq::new(40, |i: int| '─')
}

/// The lines of one event.
pub open spec fn event_lines(e: Event) -> Seq<Seq<(Seq<char>, Tone)>> {
    match e {
        Event::User { text } => seq![seq![("you"@, bold(Color::Cyan))]] + toned(
            lines::lines_of(text@),
            tone(Color::Cyan),
        ) + seq![Seq::empty()],
        Event::Assistant { text } => toned(lines::lines_of(text@), tone(Color::Default)) + seq![
            Seq::empty(),
        ],
        Event::ToolCall { name, args } => seq![
            seq![
                ("▶ "@ + name@ + " "@, bold(Color::Yellow)),
                (flattened(args@, 120), dim(Color::Yellow)),
            ],
        ],
        Event::ToolResult { name, output, ok } => {
            let color = if ok {
                Color::DarkGray
            } else {
                Color::Red
            };
            seq![
                seq![
                    (
                        (if ok {
                            "✓ "@
                        } else {
                            "✗ "@
                        }) + name@,
                        tone(color),
                    ),
                ],
            ] + toned(result_lines(lines::lines_of(output@)), tone(color)) + hidden_line(
                lines::lines_of(output@),
                color,
            )
        },
        Event::Settled => seq![seq![(rule(), dim(Color::Default))], Seq::empty()],
        Event::Failed { reason } => seq![
            seq![("run failed: "@ + reason@, bold(Color::Red))],
            Seq::empty(),
        ],
        Event::Denied { name, reason } => seq![
            seq![("⛔ "@ + name@ + ": "@ + reason@, tone(Color::Red))],
        ],
        Event::Retrying { attempt, wait_secs } => seq![
            seq![
                (
                    "↻ provider error, retrying in "@ + lines::digits(wait_secs as nat)
                        + "s (attempt "@ + lines::digits(attempt as nat) + ")"@,
                    tone(Color::Yellow),
                ),
            ],
        ],
        Event::Held { name, args } => seq![
            seq![
                (
                    "⏸ "@ + name@ + " "@ + flattened(args@, 120) + " (y approve / n deny)"@,
                    tone(Color::Magenta),
                ),
            ],
        ],
        Event::Usage { input_tokens, output_tokens } => seq![
            seq![
                (
                    "tokens: "@ + lines::digits(input_tokens as nat) + " in, "@ + lines::digits(
                        output_tokens as nat,
                    ) + " out"@,
                    dim(Color::Default),
                ),
            ],
        ],
    }
}

/// What an empty transcript says.
pub const INTRODUCTION: &'static str =
    "The agent can read, edit, list and search files, and run bash in the workspace. Type a task and press Enter.";

/// The lines of the events.
pub open spec fn all_lines(events: Seq<Event>) -> Seq<Seq<(Seq<char>, Tone)>>
    decreases events.len(),
{
    if events.len() == 0 {
        Seq::empty()
    } else {
        all_lines(events.drop_last()) + event_lines(events.last())
    }
}

/// The transcript as styled lines.
pub open spec fn transcript_lines(events: Seq<Event>) -> Seq<Seq<(Seq<char>, Tone)>> {
    if events.len() == 0 {
        seq![seq![(INTRODUCTION@, dim(Color::Default))]]
    } else {
        all_lines(events)
    }
}

fn push_span(out: &mut Vec<StyledLine>, s: String, color: Color, heavy: bool, faint: bool, slant: bool)
    ensures
        line_views(final(out)@) == line_views(old(out)@).push(
            seq![(s@, Tone { color, bold: heavy, dim: faint, italic: slant, reversed: false })],
        ),
{
    let ghost before = out@;
    let ghost shown = s@;
    let mut spans: Vec<StyledSpan> = Vec::new();
    spans.push(
        StyledSpan { text: s, tone: Tone { color, bold: heavy, dim: faint, italic: slant, reversed: false } },
    );
    let line: StyledLine = StyledLine { spans };
    assert(line_view(line) =~= seq![(shown, Tone { color, bold: heavy, dim: faint, italic: slant, reversed: false })]);
    out.push(line);
    assert(line_views(out@) =~= line_views(before).push(
        seq![(shown, Tone { color, bold: heavy, dim: faint, italic: slant, reversed: false })],
    ));
}

fn push_blank(out: &mut Vec<StyledLine>)
    ensures
        line_views(final(out)@) == line_views(old(out)@).push(Seq::empty()),
{
    let ghost before = out@;
    let line: StyledLine = StyledLine { spans: Vec::new() };
    assert(line_view(line) =~= Seq::empty());
    out.push(line);
    assert(line_views(out@) =~= line_views(before).push(Seq::empty()));
}

fn push_lines(out: &mut Vec<StyledLine>, cut: &[String], color: Color)
    ensures
        line_views(final(out)@) == line_views(old(out)@) + toned(
            text::views(cut@),
            tone(color),
        ),
{
    let n: usize = cut.len();
    let ghost first = line_views(out@);
    let ghost all = text::views(cut@);
    assert(first + toned(all, tone(color)).take(0) =~= first);
    for i in 0..n
        invariant
            n == cut@.len(),
            all == text::views(cut@),
            line_views(out@) == first + toned(all, tone(color)).take(i as int),
    {
        push_span(out, cut[i].clone(), color, false, false, false);
        assert(all[i as int] == cut@[i as int]@);
        assert(toned(all, tone(color)).take(i + 1) =~= toned(all, tone(color)).take(i as int).push(
            seq![(all[i as int], tone(color))],
        ));
        assert(line_views(out@) =~= first + toned(all, tone(color)).take(i + 1));
    }
    assert(toned(all, tone(color)).take(n as int) =~= toned(all, tone(color)));
}

fn push_result(out: &mut Vec<StyledLine>, output: &str, color: Color)
    ensures
        line_views(final(out)@) == line_views(old(out)@) + toned(
            result_lines(lines::lines_of(output@)),
            tone(color),
        ) + hidden_line(lines::lines_of(output@), color),
{
    let cut: Vec<String> = lines::lines(output);
    let ghost all = lines::lines_of(output@);
    let total: usize = cut.len();
    assert(all.len() == total);
    let n: usize = if total > COLLAPSED_RESULT_LINES {
        COLLAPSED_RESULT_LINES
    } else {
        total
    };
    let mut shown: Vec<String> = Vec::new();
    for i in 0..n
        invariant
            n <= total,
            total == cut@.len(),
            all == text::views(cut@),
            shown@.len() == i,
            forall|j: int| 0 <= j < i ==> (#[trigger] shown@[j])@ == "  "@ + flattened(all[j], 160),
    {
        assert(all[i as int] == cut@[i as int]@);
        let mut line: String = "  ".to_owned();
        let flat: String = one_line(cut[i].as_str(), 160);
        line.append(flat.as_str());
        shown.push(line);
    }
    assert(text::views(shown@) =~= result_lines(all));
    push_lines(out, &shown, color);
    if total > COLLAPSED_RESULT_LINES {
        let ghost before = line_views(out@);
        let mut more: String = "  … ".to_owned();
        let count: String = lines::count(total - COLLAPSED_RESULT_LINES);
        more.append(count.as_str());
        more.append(" more line(s)");
        push_span(out, more, color, false, false, true);
        assert(line_views(out@) =~= before + hidden_line(all, color));
    } else {
        assert(line_views(out@) =~= line_views(out@) + hidden_line(all, color));
    }
}

fn rule_line() -> (out: String)
    ensures
        out@ == rule(),
{
    let mut out: String = String::new();
    for i in 0..40usize
        invariant
            out@ =~= Seq::new(i as nat, |k: int| '─'),
    {
        out.push('─');
    }
    out
}

fn push_event(out: &mut Vec<StyledLine>, e: &Event)
    ensures
        line_views(final(out)@) == line_views(old(out)@) + event_lines(*e),
{
    let ghost first = line_views(out@);
    match e {
        Event::User { text } => {
            push_span(out, "you".to_owned(), Color::Cyan, true, false, false);
            let cut: Vec<String> = lines::lines(text.as_str());
            push_lines(out, &cut, Color::Cyan);
            push_blank(out);
        },
        Event::Assistant { text } => {
            let cut: Vec<String> = lines::lines(text.as_str());
            push_lines(out, &cut, Color::Default);
            push_blank(out);
        },
        Event::ToolCall { name, args } => {
            let ghost before = out@;
            let mut head: String = "▶ ".to_owned();
            head.append(name.as_str());
            head.append(" ");
            let flat: String = one_line(args.as_str(), 120);
            let mut spans: Vec<StyledSpan> = Vec::new();
            let yellow: Tone = Tone {
                color: Color::Yellow,
                bold: true,
                dim: false,
                italic: false,
                reversed: false,
            };
            let faint: Tone = Tone { color: Color::Yellow, bold: false, dim: true, italic: false, reversed: false };
            let ghost shown = head@;
            spans.push(StyledSpan { text: head, tone: yellow });
            spans.push(StyledSpan { text: flat, tone: faint });
            let line: StyledLine = StyledLine { spans };
            assert(line_view(line) =~= seq![
                (shown, bold(Color::Yellow)),
                (flattened(args@, 120), dim(Color::Yellow)),
            ]);
            out.push(line);
            assert(line_views(out@) =~= line_views(before).push(
                seq![
                    (shown, bold(Color::Yellow)),
                    (flattened(args@, 120), dim(Color::Yellow)),
                ],
            ));
        },
        Event::ToolResult { name, output, ok } => {
            let color: Color = if *ok {
                Color::DarkGray
            } else {
                Color::Red
            };
            let mut head: String = if *ok {
                "✓ ".to_owned()
            } else {
                "✗ ".to_owned()
            };
            head.append(name.as_str());
            push_span(out, head, color, false, false, false);
            push_result(out, output.as_str(), color);
        },
        Event::Settled => {
            let line: String = rule_line();
            push_span(out, line, Color::Default, false, true, false);
            push_blank(out);
        },
        Event::Failed { reason } => {
            let mut line: String = "run failed: ".to_owned();
            line.append(reason.as_str());
            push_span(out, line, Color::Red, true, false, false);
            push_blank(out);
        },
        Event::Denied { name, reason } => {
            let mut line: String = "⛔ ".to_owned();
            line.append(name.as_str());
            line.append(": ");
            line.append(reason.as_str());
            push_span(out, line, Color::Red, false, false, false);
        },
        Event::Retrying { attempt, wait_secs } => {
            let mut line: String = "↻ provider error, retrying in ".to_owned();
            let shown: String = lines::number(*wait_secs);
            line.append(shown.as_str());
            line.append("s (attempt ");
            let shown: String = lines::number(*attempt);
            line.append(shown.as_str());
            line.append(")");
            push_span(out, line, Color::Yellow, false, false, false);
        },
        Event::Held { name, args } => {
            let mut line: String = "⏸ ".to_owned();
            line.append(name.as_str());
            line.append(" ");
            let flat: String = one_line(args.as_str(), 120);
            line.append(flat.as_str());
            line.append(" (y approve / n deny)");
            push_span(out, line, Color::Magenta, false, false, false);
        },
        Event::Usage { input_tokens, output_tokens } => {
            let mut line: String = "tokens: ".to_owned();
            let shown: String = lines::number(*input_tokens);
            line.append(shown.as_str());
            line.append(" in, ");
            let shown: String = lines::number(*output_tokens);
            line.append(shown.as_str());
            line.append(" out");
            push_span(out, line, Color::Default, false, true, false);
        },
    }
    assert(line_views(out@) =~= first + event_lines(*e));
}

fn styled_lines(events: &[Event]) -> (out: Vec<StyledLine>)
    ensures
        line_views(out@) == transcript_lines(events@),
{
    let n: usize = events.len();
    let mut out: Vec<StyledLine> = Vec::new();
    assert(line_views(out@) =~= Seq::empty());
    if n == 0 {
        push_span(&mut out, INTRODUCTION.to_owned(), Color::Default, false, true, false);
        assert(line_views(out@) =~= transcript_lines(events@));
        return out;
    }
    assert(line_views(out@) =~= all_lines(events@.take(0)));
    for i in 0..n
        invariant
            n == events@.len(),
            line_views(out@) == all_lines(events@.take(i as int)),
    {
        assert(events@.take(i + 1).drop_last() =~= events@.take(i as int));
        push_event(&mut out, &events[i]);
    }
    assert(events@.take(n as int) =~= events@);
    out
}

/// Whether `text` is what `clean` makes of `shown`.
pub open spec fn is_cleaned<F: Fn(&str) -> String>(clean: F, shown: Seq<char>, text: String) -> bool {
    exists|s: &str| s@ == shown && #[trigger] call_ensures(clean, (s,), text)
}

/// Whether a line has the spans with the texts cleaned.
pub open spec fn line_cleaned<F: Fn(&str) -> String>(
    clean: F,
    spans: Seq<(Seq<char>, Tone)>,
    line: StyledLine,
) -> bool {
    &&& line.spans@.len() == spans.len()
    &&& forall|k: int|
        0 <= k < spans.len() ==> (#[trigger] line.spans@[k]).tone == spans[k].1 && is_cleaned(
            clean,
            spans[k].0,
            line.spans@[k].text,
        )
}

fn clean_line<F: Fn(&str) -> String>(line: &StyledLine, clean: &F) -> (out: StyledLine)
    requires
        forall|s: &str| call_requires(*clean, (s,)),
    ensures
        line_cleaned(*clean, line_view(*line), out),
{
    let n: usize = line.spans.len();
    let ghost view = line_view(*line);
    let mut spans: Vec<StyledSpan> = Vec::new();
    for k in 0..n
        invariant
            n == line.spans@.len(),
            view == line_view(*line),
            forall|s: &str| call_requires(*clean, (s,)),
            spans@.len() == k,
            forall|j: int|
                0 <= j < k ==> (#[trigger] spans@[j]).tone == view[j].1 && is_cleaned(
                    *clean,
                    view[j].0,
                    spans@[j].text,
                ),
    {
        let shown: &str = line.spans[k].text.as_str();
        let text: String = clean(shown);
        assert(call_ensures(*clean, (shown,), text));
        assert(view[k as int] == (line.spans@[k as int].text@, line.spans@[k as int].tone));
        assert(is_cleaned(*clean, view[k as int].0, text));
        spans.push(StyledSpan { text, tone: line.spans[k].tone });
    }
    StyledLine { spans }
}

/// The transcript as styled lines: prompts, streamed answers, tool calls
/// with a short argument preview, results collapsed to their first lines. Every
/// text is cleaned last, as `clean` has it for a terminal.
pub fn render_transcript<F: Fn(&str) -> String>(events: &[Event], clean: F) -> (out: Vec<StyledLine>)
    requires
        forall|s: &str| call_requires(clean, (s,)),
    ensures
        out@.len() == transcript_lines(events@).len(),
        forall|i: int|
            0 <= i < out@.len() ==> line_cleaned(
                clean,
                transcript_lines(events@)[i],
                #[trigger] out@[i],
            ),
{
    let plain: Vec<StyledLine> = styled_lines(events);
    let ghost all = transcript_lines(events@);
    assert(all == line_views(plain@));
    let n: usize = plain.len();
    let mut out: Vec<StyledLine> = Vec::new();
    for i in 0..n
        invariant
            n == plain@.len(),
            all == line_views(plain@),
            forall|s: &str| call_requires(clean, (s,)),
            out@.len() == i,
            forall|j: int| 0 <= j < i ==> line_cleaned(clean, all[j], #[trigger] out@[j]),
    {
        let line: StyledLine = clean_line(&plain[i], &clean);
        assert(all[i as int] == line_view(plain@[i as int]));
        out.push(line);
    }
    out
}

// ---------------------------------------------------------------------------
// The screen's state

/// A review as it is drawn.
#[derive(Debug)]
pub struct ApprovalView {
    pub id: String,
    pub width: u16,
    pub lines: Vec<String>,
}

/// What the screen holds between frames.
#[derive(Debug)]
pub struct Ui {
    pub input: String,
    /// A prompt the user sent, waiting to be delivered.
    pub outbox: Option<String>,
    pub stop: bool,
    /// Scroll offset in rendered lines; `follow` pins it to the end.
    pub scroll: usize,
    pub follow: bool,
    pub frame: usize,
    pub displayed_approval: Option<String>,
    pub approval_view: Option<ApprovalView>,
}

/// What the keys act on.
pub struct Typing {
    /// Whether an operation is displayed.
    pub shown: bool,
    pub input: Seq<char>,
    pub outbox: Option<Seq<char>>,
    pub stop: bool,
    pub scroll: int,
    pub follow: bool,
}

impl Ui {
    /// What the keys act on.
    pub open spec fn typing(self) -> Typing {
        Typing {
            shown: self.displayed_approval is Some,
            input: self.input@,
            outbox: text::opt(self.outbox),
            stop: self.stop,
            scroll: self.scroll as int,
            follow: self.follow,
        }
    }
}

impl Default for Ui {
    fn default() -> (out: Ui)
        ensures
            out.input@ == Seq::<char>::empty(),
            out.outbox is None,
            !out.stop,
            out.scroll == 0,
            !out.follow,
            out.frame == 0,
            out.displayed_approval is None,
            out.approval_view is None,
    {
        let input: String = String::new();
        assert(input@ =~= Seq::empty());
        Ui {
            input,
            outbox: None,
            stop: false,
            scroll: 0,
            follow: false,
            frame: 0,
            displayed_approval: None,
            approval_view: None,
        }
    }
}

/// A key.
#[derive(Clone, Copy, Debug, PartialEq, Eq, Structural)]
pub enum KeyCode {
    Char(char),
    Enter,
    Esc,
    Backspace,
    Up,
    Down,
    PageUp,
    PageDown,
    Home,
    End,
    Other,
}

/// A key event.
#[derive(Clone, Copy, Debug, PartialEq, Eq, Structural)]
pub struct Key {
    pub code: KeyCode,
    pub ctrl: bool,
    pub alt: bool,
    /// Whether the key was let go.
    pub release: bool,
}

/// What a key asks for outside the screen.
#[derive(Clone, Copy, Debug, PartialEq, Eq, Structural)]
pub enum Request {
    Nothing,
    Quit,
    /// Approve the operation that is displayed, or deny it.
    Decide(bool),
}

/// A scroll offset moved by `delta`, within what its type holds.
pub open spec fn scrolled(scroll: int, delta: int) -> int {
    if scroll + delta < 0 {
        0
    } else if scroll + delta > usize::MAX {
        usize::MAX as int
    } else {
        scroll + delta
    }
}

/// The screen after it was scrolled: it follows the stream no more.
pub open spec fn moved_by(t: Typing, delta: int) -> Typing {
    Typing { scroll: scrolled(t.scroll, delta), follow: false, ..t }
}

/// What a key does to the screen, and asks for outside it. `busy` says whether a
/// run is in flight, `pending` whether an operation waits for a decision.
pub open spec fn pressed(t: Typing, key: Key, busy: bool, pending: bool) -> (Typing, Request) {
    if key.release {
        (t, Request::Nothing)
    } else {
        match key.code {
            KeyCode::Char(c) => if (c == 'c' || c == 'q') && key.ctrl {
                (t, Request::Quit)
            } else if c == 'j' && key.ctrl {
                (Typing { input: t.input.push('\n'), ..t }, Request::Nothing)
            } else if (c == 'y' || c == 'n') && pending && t.input.len() == 0 {
                (
                    t,
                    if t.shown {
                        Request::Decide(c == 'y')
                    } else {
                        Request::Nothing
                    },
                )
            } else if !key.ctrl {
                (Typing { input: t.input.push(c), ..t }, Request::Nothing)
            } else {
                (t, Request::Nothing)
            },
            KeyCode::Enter => if key.alt {
                (Typing { input: t.input.push('\n'), ..t }, Request::Nothing)
            } else {
                let prompt = text::trimmed(t.input);
                if !busy && prompt.len() > 0 {
                    (
                        Typing { input: Seq::empty(), outbox: Some(prompt), follow: true, ..t },
                        Request::Nothing,
                    )
                } else {
                    (t, Request::Nothing)
                }
            },
            KeyCode::Esc => (Typing { stop: t.stop || busy, ..t }, Request::Nothing),
            KeyCode::Backspace => (
                Typing {
                    input: if t.input.len() == 0 {
                        t.input
                    } else {
                        t.input.drop_last()
                    },
                    ..t
                },
                Request::Nothing,
            ),
            KeyCode::Up => (moved_by(t, -1), Request::Nothing),
            KeyCode::Down => (moved_by(t, 1), Request::Nothing),
            KeyCode::PageUp => (moved_by(t, -20), Request::Nothing),
            KeyCode::PageDown => (moved_by(t, 20), Request::Nothing),
            KeyCode::Home => (Typing { scroll: 0, follow: false, ..t }, Request::Nothing),
            KeyCode::End => (Typing { follow: true, ..t }, Request::Nothing),
            KeyCode::Other => (t, Request::Nothing),
        }
    }
}

/// A key decides an operation only where one waits and is displayed and nothing
/// is typed; and no key sends a prompt while a run is in flight.
pub proof fn keys_decide_only_what_is_displayed(t: Typing, key: Key, busy: bool, pending: bool)
    ensures
        pressed(t, key, busy, pending).1 is Decide ==> pending && t.shown && t.input.len() == 0
            && pressed(
            t,
            key,
            busy,
            pending,
        ).0 == t,
        busy ==> pressed(t, key, busy, pending).0.outbox == t.outbox,
{
}

/// Scrolls by `delta` lines; the screen follows the stream no more.
pub fn scroll_by(ui: &mut Ui, delta: i32)
    ensures
        final(ui).typing() == moved_by(old(ui).typing(), delta as int),
        final(ui).frame == old(ui).frame,
        final(ui).displayed_approval == old(ui).displayed_approval,
        final(ui).approval_view == old(ui).approval_view,
{
    ui.follow = false;
    if delta >= 0 {
        let more: usize = delta as usize;
        if ui.scroll > usize::MAX - more {
            ui.scroll = usize::MAX;
        } else {
            ui.scroll = ui.scroll + more;
        }
    } else {
        let less: usize = (-(delta as i64)) as usize;
        if ui.scroll < less {
            ui.scroll = 0;
        } else {
            ui.scroll = ui.scroll - less;
        }
    }
}

fn drop_char(s: &str) -> (out: String)
    ensures
        out@ == if s@.len() == 0 {
            s@
        } else {
            s@.drop_last()
        },
{
    let chars: Vec<char> = text::chars_of(s);
    let n: usize = chars.len();
    if n == 0 {
        return s.to_owned();
    }
    let out: String = text::string_range(&chars, 0, n - 1);
    assert(out@ =~= s@.drop_last());
    out
}

/// What a key does to the screen, and asks for outside it.
pub fn keys(ui: &mut Ui, key: Key, busy: bool, pending: bool) -> (out: Request)
    ensures
        (final(ui).typing(), out) == pressed(old(ui).typing(), key, busy, pending),
        final(ui).frame == old(ui).frame,
        final(ui).displayed_approval == old(ui).displayed_approval,
        final(ui).approval_view == old(ui).approval_view,
{
    if key.release {
        return Request::Nothing;
    }
    match key.code {
        KeyCode::Char(c) => {
            if (c == 'c' || c == 'q') && key.ctrl {
                return Request::Quit;
            }
            if c == 'j' && key.ctrl {
                ui.input.push('\n');
                return Request::Nothing;
            }
            let empty: bool = ui.input.as_str().is_empty();
            if (c == 'y' || c == 'n') && pending && empty {
                if ui.displayed_approval.is_some() {
                    return Request::Decide(c == 'y');
                }
                return Request::Nothing;
            }
            if !key.ctrl {
                ui.input.push(c);
            }
        },
        KeyCode::Enter => {
            if key.alt {
                ui.input.push('\n');
            } else {
                let prompt: String = text::trim(ui.input.as_str());
                if !busy && !prompt.as_str().is_empty() {
                    ui.input = String::new();
                    assert(ui.input@ =~= Seq::empty());
                    ui.outbox = Some(prompt);
                    ui.follow = true;
                }
            }
        },
        KeyCode::Esc => {
            if busy {
                ui.stop = true;
            }
        },
        KeyCode::Backspace => {
            ui.input = drop_char(ui.input.as_str());
        },
        KeyCode::Up => scroll_by(ui, -1),
        KeyCode::Down => scroll_by(ui, 1),
        KeyCode::PageUp => scroll_by(ui, -20),
        KeyCode::PageDown => scroll_by(ui, 20),
        KeyCode::Home => {
            ui.scroll = 0;
            ui.follow = false;
        },
        KeyCode::End => {
            ui.follow = true;
        },
        KeyCode::Other => {},
    }
    Request::Nothing
}

/// What the screen has queued: a prompt to send, and whether to stop the run.
pub fn deliver(ui: &mut Ui) -> (out: (Option<String>, bool))
    ensures
        out.0 == old(ui).outbox,
        out.1 == old(ui).stop,
        final(ui).typing() == (Typing { outbox: None, stop: false, ..old(ui).typing() }),
        final(ui).frame == old(ui).frame,
        final(ui).displayed_approval == old(ui).displayed_approval,
        final(ui).approval_view == old(ui).approval_view,
{
    let prompt: Option<String> = ui.outbox.take();
    let stop: bool = ui.stop;
    ui.stop = false;
    (prompt, stop)
}

// ---------------------------------------------------------------------------
// A frame

/// An operation that waits for a decision.
#[derive(Debug)]
pub struct Pending {
    pub id: String,
    pub preview: String,
}

/// What a frame shows.
#[derive(Debug)]
pub struct Screen {
    pub status: StyledLine,
    /// The rows of the input, with its border.
    pub input_rows: u16,
    pub title: String,
    /// The visible lines of the review, where one is shown.
    pub review: Option<Vec<String>>,
    /// How many lines of the transcript are scrolled past, where it is shown.
    pub offset: u16,
    pub prompt_title: &'static str,
}

/// The spinner's signs.
pub const SPINNER: [&'static str; 10] = ["⠋", "⠙", "⠹", "⠸", "⠼", "⠴", "⠦", "⠧", "⠇", "⠏"];

/// The rows of an input, with its border: one to eight.
pub open spec fn rows_of(input: Seq<char>) -> nat {
    let n = lines::lines_of(input).len();
    if n < 1 {
        3
    } else if n > 8 {
        10
    } else {
        n + 2
    }
}

/// The title of the prompt.
pub open spec fn prompt_title(pending: bool, busy: bool) -> Seq<char> {
    if pending {
        " Review the operation above; y approves, n denies (empty input) "@
    } else if busy {
        " Esc stops the run "@
    } else {
        " prompt "@
    }
}

/// The furthest that `total` lines scroll in `height` rows.
pub open spec fn furthest(total: nat, height: nat) -> nat {
    if total > height {
        (total - height) as nat
    } else {
        0
    }
}

/// Where the screen is scrolled to once it is drawn.
pub open spec fn drawn_scroll(scroll: int, follow: bool, total: nat, height: nat) -> int {
    if follow || scroll > furthest(total, height) {
        furthest(total, height) as int
    } else {
        scroll
    }
}

/// The smaller.
pub open spec fn least(a: int, b: int) -> int {
    if a < b {
        a
    } else {
        b
    }
}

/// How far down the lines the screen shows, out of how many.
pub open spec fn progress(scroll: int, height: int, total: int) -> Seq<char> {
    lines::digits(least(scroll + height, total) as nat) + "/"@ + lines::digits(total as nat)
}

/// The scroll and whether it follows once it is clear what is displayed: another
/// operation is shown from its top, and the stream is followed when none is.
pub open spec fn turned(
    scroll: int,
    follow: bool,
    shown: Option<Seq<char>>,
    next: Option<Seq<char>>,
) -> (int, bool) {
    if shown == next {
        (scroll, follow)
    } else {
        (0, next is None)
    }
}

fn spinner(frame: usize) -> (out: &'static str)
    ensures
        out@ == SPINNER@[((frame / 3) % 10) as int]@,
{
    let i: usize = (frame / 3) % 10;
    SPINNER[i]
}

/// The rows of an input, with its border.
pub fn input_rows(input: &str) -> (out: u16)
    ensures
        out as nat == rows_of(input@),
{
    let n: usize = lines::lines(input).len();
    proof {
        assert(n == lines::lines_of(input@).len());
    }
    if n < 1 {
        3
    } else if n > 8 {
        10
    } else {
        n as u16 + 2
    }
}

fn place(ui: &mut Ui, total: usize, height: u16)
    ensures
        final(ui).scroll as int == drawn_scroll(
            old(ui).scroll as int,
            old(ui).follow,
            total as nat,
            height as nat,
        ),
        final(ui).follow == old(ui).follow,
        final(ui).input == old(ui).input,
        final(ui).outbox == old(ui).outbox,
        final(ui).stop == old(ui).stop,
        final(ui).frame == old(ui).frame,
        final(ui).displayed_approval == old(ui).displayed_approval,
        final(ui).approval_view == old(ui).approval_view,
{
    let rows: usize = height as usize;
    let last: usize = if total > rows {
        total - rows
    } else {
        0
    };
    if ui.follow || ui.scroll > last {
        ui.scroll = last;
    }
}

fn title_of(label: &str, scroll: usize, height: u16, total: usize) -> (out: String)
    requires
        scroll <= furthest(total as nat, height as nat),
    ensures
        out@ == label@ + progress(scroll as int, height as int, total as int) + " "@,
{
    let rows: usize = height as usize;
    let below: usize = if total > rows {
        scroll + rows
    } else {
        total
    };
    let mut out: String = label.to_owned();
    let shown: String = lines::count(below);
    out.append(shown.as_str());
    out.append("/");
    let shown: String = lines::count(total);
    out.append(shown.as_str());
    out.append(" ");
    assert(out@ =~= label@ + progress(scroll as int, height as int, total as int) + " "@);
    out
}

fn same_opt(a: &Option<String>, b: Option<&str>) -> (r: bool)
    ensures
        r == (text::opt(*a) == match b {
            Some(s) => Some(s@),
            None => None,
        }),
{
    match (a, b) {
        (Some(x), Some(y)) => text::same(x.as_str(), y),
        (None, None) => true,
        _ => false,
    }
}

/// Whether a kept view is of the operation at the width.
pub open spec fn is_view(view: Option<ApprovalView>, id: Seq<char>, width: u16) -> bool {
    view matches Some(found) && found.id@ == id && found.width == width
}

/// The lines of an operation's review: those that are kept of it at the width, or
/// else its preview wrapped.
pub open spec fn reviewed(view: Option<ApprovalView>, request: Pending, width: u16) -> Seq<
    Seq<char>,
> {
    if is_view(view, request.id@, width) {
        text::views(view->0.lines@)
    } else {
        review_lines(lines::pieces(request.preview@, '\n'), review_width(width))
    }
}

/// What is displayed.
pub open spec fn displayed(pending: Option<Pending>) -> Option<Seq<char>> {
    match pending {
        Some(request) => Some(request.id@),
        None => None,
    }
}

/// How many lines a frame scrolls through: those of the review, or those that the
/// transcript wraps to, as far as ratatui can scroll.
pub open spec fn lines_drawn(
    view: Option<ApprovalView>,
    pending: Option<Pending>,
    all: Seq<StyledLine>,
    width: u16,
) -> nat {
    match pending {
        Some(request) => reviewed(view, request, width).len(),
        None => least(wrapped_height(span_texts(all), width) as int, 65535) as nat,
    }
}

/// What is left of a side between two borders.
pub open spec fn inside(side: u16) -> u16 {
    if side < 2 {
        0
    } else {
        (side - 2) as u16
    }
}

fn inner(side: u16) -> (out: u16)
    ensures
        out == inside(side),
{
    if side < 2 {
        0
    } else {
        side - 2
    }
}

/// The line above the transcript.
pub open spec fn status_line(model: Seq<char>, root: Seq<char>, busy: bool, frame: int) -> Seq<
    (Seq<char>, Tone),
> {
    seq![
        (
            " rigcoder "@,
            Tone { color: Color::Default, bold: true, dim: false, italic: false, reversed: true },
        ),
        (" "@ + model + "  "@, tone(Color::Default)),
        (root, dim(Color::Default)),
        ("  "@, tone(Color::Default)),
        if busy {
            (SPINNER@[(frame / 3) % 10]@ + " working"@, tone(Color::Yellow))
        } else {
            ("idle"@, tone(Color::Green))
        },
    ]
}

fn status_of(model: &str, root: &str, busy: bool, frame: usize) -> (out: StyledLine)
    ensures
        line_view(out) == status_line(model@, root@, busy, frame as int),
{
    let plain: Tone = Tone {
        color: Color::Default,
        bold: false,
        dim: false,
        italic: false,
        reversed: false,
    };
    let mut named: String = " ".to_owned();
    named.append(model);
    named.append("  ");
    let state: StyledSpan = if busy {
        let mut working: String = spinner(frame).to_owned();
        working.append(" working");
        StyledSpan { text: working, tone: Tone { color: Color::Yellow, ..plain } }
    } else {
        StyledSpan { text: "idle".to_owned(), tone: Tone { color: Color::Green, ..plain } }
    };
    let mut spans: Vec<StyledSpan> = Vec::new();
    spans.push(
        StyledSpan {
            text: " rigcoder ".to_owned(),
            tone: Tone { bold: true, reversed: true, ..plain },
        },
    );
    spans.push(StyledSpan { text: named, tone: plain });
    spans.push(StyledSpan { text: root.to_owned(), tone: Tone { dim: true, ..plain } });
    spans.push(StyledSpan { text: "  ".to_owned(), tone: plain });
    spans.push(state);
    let out: StyledLine = StyledLine { spans };
    assert(line_view(out) =~= status_line(model@, root@, busy, frame as int));
    out
}

/// Whether a frame, drawn from the screen as it was before, shows the waiting
/// operation, or the transcript's lines where none waits, and leaves the screen as
/// it is after.
pub open spec fn is_drawn(
    before: Ui,
    after: Ui,
    out: Screen,
    busy: bool,
    pending: Option<Pending>,
    all: Seq<StyledLine>,
    model: Seq<char>,
    root: Seq<char>,
    body_width: u16,
    body_height: u16,
) -> bool {
    let width = inside(body_width);
    let height = inside(body_height);
    let total = lines_drawn(before.approval_view, pending, all, width);
    let (from, follow) = turned(
        before.scroll as int,
        before.follow,
        text::opt(before.displayed_approval),
        displayed(pending),
    );
    let scroll = drawn_scroll(from, follow, total, height as nat);
    let frame = if before.frame == usize::MAX {
        0
    } else {
        before.frame + 1
    };
    &&& after.frame == frame
    &&& after.scroll == scroll
    &&& after.follow == follow
    &&& after.input == before.input
    &&& after.outbox == before.outbox
    &&& after.stop == before.stop
    &&& text::opt(after.displayed_approval) == displayed(pending)
    &&& match pending {
        Some(request) => is_view(after.approval_view, request.id@, width) && text::views(
            after.approval_view->0.lines@,
        ) == reviewed(before.approval_view, request, width),
        None => after.approval_view is None,
    }
    &&& line_view(out.status) == status_line(model, root, busy, frame as int)
    &&& out.input_rows as nat == rows_of(before.input@)
    &&& out.prompt_title@ == prompt_title(pending is Some, busy)
    &&& out.title@ == (if pending is Some {
        " approval: y applies, n denies  "@
    } else {
        " transcript  "@
    }) + progress(scroll, height as int, total as int) + " "@
    &&& out.offset == if pending is Some {
        0
    } else {
        scroll
    }
    &&& match (out.review, pending) {
        (Some(visible), Some(request)) => text::views(visible@) == reviewed(
            before.approval_view,
            request,
            width,
        ).subrange(scroll, least(scroll + height, total as int)),
        (None, None) => true,
        _ => false,
    }
}

/// What a frame shows of the waiting operation, or of the transcript's lines
/// where none waits, in a body of `body_width` by `body_height` with its border;
/// the review is wrapped anew only for another operation or width.
pub fn draw(
    ui: &mut Ui,
    busy: bool,
    pending: &Option<Pending>,
    all: &[StyledLine],
    model: &str,
    root: &str,
    body_width: u16,
    body_height: u16,
) -> (out: Screen)
    requires
        pending is Some || countable(span_texts(all@), inside(body_width)),
    ensures
        is_drawn(
            *old(ui),
            *final(ui),
            out,
            busy,
            *pending,
            all@,
            model@,
            root@,
            body_width,
            body_height,
        ),
{
    let width: u16 = inner(body_width);
    let height: u16 = inner(body_height);
    ui.frame =
    if ui.frame == usize::MAX {
        0
    } else {
        ui.frame + 1
    };
    let status: StyledLine = status_of(model, root, busy, ui.frame);
    let rows: u16 = input_rows(ui.input.as_str());
    let next: Option<&str> = match pending {
        Some(request) => Some(request.id.as_str()),
        None => None,
    };
    if !same_opt(&ui.displayed_approval, next) {
        ui.follow = next.is_none();
        ui.scroll = 0;
    }
    let prompt: &'static str = if pending.is_some() {
        " Review the operation above; y approves, n denies (empty input) "
    } else if busy {
        " Esc stops the run "
    } else {
        " prompt "
    };
    match pending {
        Some(request) => {
            let ghost all_lines = reviewed(ui.approval_view, *request, width);
            let kept: bool = match &ui.approval_view {
                Some(view) => text::same(view.id.as_str(), request.id.as_str()) && view.width
                    == width,
                None => false,
            };
            if !kept {
                let fresh: Vec<String> = wrap_review(request.preview.as_str(), width);
                ui.approval_view = Some(
                    ApprovalView { id: request.id.clone(), width, lines: fresh },
                );
            }
            let total: usize = match &ui.approval_view {
                Some(view) => view.lines.len(),
                None => 0,
            };
            proof {
                assert(text::views(ui.approval_view->0.lines@) == all_lines);
                assert(all_lines.len() == total);
            }
            place(ui, total, height);
            let title: String = title_of(
                " approval: y applies, n denies  ",
                ui.scroll,
                height,
                total,
            );
            let rows_shown: usize = height as usize;
            let end: usize = if total > rows_shown {
                ui.scroll + rows_shown
            } else {
                total
            };
            let mut visible: Vec<String> = Vec::new();
            let ghost empty = text::views(visible@);
            if let Some(view) = &ui.approval_view {
                text::append_range(&mut visible, &view.lines, ui.scroll, end);
            }
            assert(empty =~= Seq::empty());
            assert(text::views(visible@) =~= all_lines.subrange(ui.scroll as int, end as int));
            ui.displayed_approval = Some(request.id.clone());
            Screen {
                status,
                input_rows: rows,
                title,
                review: Some(visible),
                offset: 0,
                prompt_title: prompt,
            }
        },
        None => {
            ui.approval_view = None;
            let counted: usize = height_of(all, width);
            let total: usize = if counted > 65535 {
                65535
            } else {
                counted
            };
            place(ui, total, height);
            let title: String = title_of(" transcript  ", ui.scroll, height, total);
            ui.displayed_approval = None;
            let offset: u16 = ui.scroll as u16;
            Screen {
                status,
                input_rows: rows,
                title,
                review: None,
                offset,
                prompt_title: prompt,
            }
        },
    }
}

/// `total`, or one more than 16 bits count where it is greater.
spec fn capped(total: nat) -> nat {
    if total > 65536 {
        65536
    } else {
        total
    }
}

fn capped_sum(a: u32, b: u32) -> (out: u32)
    requires
        a <= 65536,
        b <= 65536,
    ensures
        out as nat == capped(a as nat + b as nat),
{
    if a + b > 65536 {
        65536
    } else {
        a + b
    }
}

fn cap(n: usize) -> (out: u32)
    ensures
        out as nat == capped(n as nat),
{
    if n > 65536 {
        65536
    } else {
        n as u32
    }
}

fn capped_heft(grapheme: &str) -> (out: u32)
    ensures
        out as nat == capped(heft(grapheme@)),
{
    let chars: Vec<char> = text::chars_of(grapheme);
    let width: u32 = cap(width_of(grapheme));
    let voiced: u32 = cap(text::count_char(&chars, '\u{ff9e}'));
    let other: u32 = cap(text::count_char(&chars, '\u{ff9f}'));
    capped_sum(capped_sum(width, voiced), other)
}

fn is_slim(cells: u32, width: u16) -> (r: bool)
    requires
        cells <= 65536,
    ensures
        r == slim(cells as nat, width as nat),
{
    width as u32 + 3 * cells <= 65536 || (width as u32) < cells && cells <= 65535
}

/// The weight of a span's graphemes, capped, and whether all are slim.
fn weigh(s: &str, width: u16) -> (out: (u32, bool))
    ensures
        out.0 as nat == capped(weight(graphemes_of(s@))),
        out.1 == all_slim(graphemes_of(s@), width as nat),
{
    let parts: Vec<String> = graphemes(s);
    let ghost all = graphemes_of(s@);
    let n: usize = parts.len();
    let mut total: u32 = 0;
    let mut slim_so_far: bool = true;
    for i in 0..n
        invariant
            n == parts@.len(),
            all == text::views(parts@),
            all == graphemes_of(s@),
            total as nat == capped(weight(all.take(i as int))),
            slim_so_far == all_slim(all.take(i as int), width as nat),
    {
        let cells: u32 = capped_heft(parts[i].as_str());
        proof {
            let part = all.take(i + 1);
            assert(part.drop_last() =~= all.take(i as int));
            assert(part.last() == all[i as int]);
            assert(all[i as int] == parts@[i as int]@);
            assert(slim(cells as nat, width as nat) == slim(heft(all[i as int]), width as nat));
            if all_slim(part, width as nat) {
                assert forall|j: int| 0 <= j < i implies slim(
                    heft(#[trigger] all.take(i as int)[j]),
                    width as nat,
                ) by {
                    assert(part[j] == all.take(i as int)[j]);
                }
                assert(slim(heft(part[i as int]), width as nat));
            }
            if all_slim(all.take(i as int), width as nat) && slim(
                heft(all[i as int]),
                width as nat,
            ) {
                assert forall|j: int| 0 <= j < part.len() implies slim(
                    heft(#[trigger] part[j]),
                    width as nat,
                ) by {
                    if j < i {
                        assert(part[j] == all.take(i as int)[j]);
                    }
                }
            }
        }
        total = capped_sum(total, cells);
        slim_so_far = slim_so_far && is_slim(cells, width);
    }
    assert(all.take(n as int) =~= all);
    (total, slim_so_far)
}

/// Whether ratatui's sums hold while it wraps one line.
fn line_fits(line: &StyledLine, width: u16) -> (r: bool)
    ensures
        ({
            let spans = Seq::new(line.spans@.len(), |k: int| line.spans@[k].text@);
            r == (line_weight(spans) <= 65535 || line_slim(spans, width as nat))
        }),
{
    let ghost spans = Seq::new(line.spans@.len(), |k: int| line.spans@[k].text@);
    let n: usize = line.spans.len();
    let mut total: u32 = 0;
    let mut slim_so_far: bool = true;
    for k in 0..n
        invariant
            n == line.spans@.len(),
            spans == Seq::new(line.spans@.len(), |k: int| line.spans@[k].text@),
            total as nat == capped(line_weight(spans.take(k as int))),
            slim_so_far == line_slim(spans.take(k as int), width as nat),
    {
        let (more, slim_too): (u32, bool) = weigh(line.spans[k].text.as_str(), width);
        proof {
            let part = spans.take(k + 1);
            assert(part.drop_last() =~= spans.take(k as int));
            assert(part.last() == spans[k as int]);
            assert(spans[k as int] == line.spans@[k as int].text@);
            if line_slim(part, width as nat) {
                assert forall|j: int| 0 <= j < k implies all_slim(
                    graphemes_of(#[trigger] spans.take(k as int)[j]),
                    width as nat,
                ) by {
                    assert(part[j] == spans.take(k as int)[j]);
                }
                assert(all_slim(graphemes_of(part[k as int]), width as nat));
            }
            if line_slim(spans.take(k as int), width as nat) && all_slim(
                graphemes_of(spans[k as int]),
                width as nat,
            ) {
                assert forall|j: int| 0 <= j < part.len() implies all_slim(
                    graphemes_of(#[trigger] part[j]),
                    width as nat,
                ) by {
                    if j < k {
                        assert(part[j] == spans.take(k as int)[j]);
                    }
                }
            }
        }
        total = capped_sum(total, more);
        slim_so_far = slim_so_far && slim_too;
    }
    assert(spans.take(n as int) =~= spans);
    total <= 65535 || slim_so_far
}

/// Whether ratatui's sums hold while it wraps the lines at a width.
fn can_count(all: &[StyledLine], width: u16) -> (r: bool)
    ensures
        r == countable(span_texts(all@), width),
{
    if width <= WIDEST {
        return true;
    }
    let ghost texts = span_texts(all@);
    let n: usize = all.len();
    for i in 0..n
        invariant
            n == all@.len(),
            texts == span_texts(all@),
            width > WIDEST,
            forall|j: int|
                0 <= j < i ==> line_weight(#[trigger] texts[j]) <= 65535 || line_slim(
                    texts[j],
                    width as nat,
                ),
    {
        let fine: bool = line_fits(&all[i], width);
        assert(texts[i as int] == Seq::new(
            all@[i as int].spans@.len(),
            |k: int| all@[i as int].spans@[k].text@,
        ));
        if !fine {
            assert(!countable(texts, width));
            return false;
        }
    }
    true
}

/// What a frame shows, as `draw` has it; nothing, and the screen stays as it was,
/// where the transcript has a line that ratatui cannot wrap at the body's width.
pub fn try_draw(
    ui: &mut Ui,
    busy: bool,
    pending: &Option<Pending>,
    all: &[StyledLine],
    model: &str,
    root: &str,
    body_width: u16,
    body_height: u16,
) -> (out: Option<Screen>)
    ensures
        out is Some <==> pending is Some || countable(span_texts(all@), inside(body_width)),
        match out {
            Some(screen) => is_drawn(
                *old(ui),
                *final(ui),
                screen,
                busy,
                *pending,
                all@,
                model@,
                root@,
                body_width,
                body_height,
            ),
            None => *final(ui) == *old(ui),
        },
{
    if pending.is_some() || can_count(all, inner(body_width)) {
        Some(draw(ui, busy, pending, all, model, root, body_width, body_height))
    } else {
        None
    }
}

/// Whatever was scrolled, a frame shows the end of what it draws where it
/// follows, and every line can be reached by scrolling.
pub proof fn every_line_can_be_reached(total: nat, height: nat, line: int)
    requires
        height > 0,
        0 <= line < total,
    ensures
        drawn_scroll(0, true, total, height) + height >= total,
        ({
            let wanted = least(line, furthest(total, height) as int);
            let shown = drawn_scroll(wanted, false, total, height);
            shown <= line < shown + height
        }),
{
}

// ---------------------------------------------------------------------------
// What wrapping, keys and frames keep to

/// A grapheme more stays on the line wherever it fits there, or where the line is empty;
/// else it begins the next, and what was wrapped before it stays as it was.
pub proof fn a_line_is_broken_only_where_it_is_full(
    parts: Seq<Seq<char>>,
    cells: Seq<nat>,
    width: nat,
    more: Seq<char>,
)
    requires
        cells.len() > parts.len(),
    ensures
        ({
            let before = pieces(parts, cells, width);
            let after = pieces(parts.push(more), cells, width);
            let last = before.last();
            let wide = cells[parts.len() as int];
            &&& before.len() >= 1
            &&& last.1 + wide <= width || last.0.len() == 0 ==> after == before.drop_last().push(
                (last.0 + more, last.1 + wide),
            )
            &&& last.1 + wide > width && last.0.len() > 0 ==> after == before.push((more, wide))
        }),
{
    assert(parts.push(more).drop_last() =~= parts);
    let w = wrapped(parts, cells, width);
    let before = pieces(parts, cells, width);
    assert(before.drop_last() =~= w.done);
}

/// The lines of a review are those of each of its own lines, one after the other, and a
/// review is never wrapped to no width at all.
pub proof fn a_review_is_wrapped_line_by_line(
    sources: Seq<Seq<char>>,
    source: Seq<char>,
    width: nat,
    cells: u16,
)
    ensures
        review_lines(Seq::empty(), width).len() == 0,
        review_lines(sources.push(source), width) == review_lines(sources, width) + texts(
            pieces(graphemes_of(source), cells_of(graphemes_of(source)), width),
        ),
        review_width(cells) >= 1,
        cells >= 1 ==> review_width(cells) == cells,
{
    assert(sources.push(source).drop_last() =~= sources);
}

proof fn lemma_flat(s: Seq<char>)
    ensures
        !lines::char_replaced(s, '\n', "⏎"@).contains('\n'),
        lines::char_replaced(s, '\n', "⏎"@).len() == s.len(),
        forall|i: int|
            0 <= i < s.len() && s[i] != '\n' ==> lines::char_replaced(s, '\n', "⏎"@)[i] == s[i],
    decreases s.len(),
{
    reveal_strlit("⏎");
    if s.len() > 0 {
        let init = s.drop_last();
        lemma_flat(init);
        let before = lines::char_replaced(init, '\n', "⏎"@);
        let after = lines::char_replaced(s, '\n', "⏎"@);
        if after.contains('\n') {
            let i = choose|i: int| 0 <= i < after.len() && after[i] == '\n';
            if i < before.len() {
                assert(before[i] == '\n');
            }
        }
        assert forall|i: int| 0 <= i < s.len() && s[i] != '\n' implies after[i] == s[i] by {
            if i < init.len() {
                assert(init[i] == s[i]);
                assert(after[i] == before[i]);
            }
        }
    }
}

/// A text on one line has no line break, keeps its other characters in their places, and
/// where it is too long ends after as many as may stand there.
pub proof fn one_line_has_no_break(s: Seq<char>, max: nat, i: int)
    ensures
        !flattened(s, max).contains('\n'),
        s.len() <= max ==> flattened(s, max).len() == s.len(),
        s.len() > max ==> flattened(s, max).len() == max + 1 && flattened(s, max).last() == '…',
        0 <= i < s.len() && i < max && s[i] != '\n' ==> flattened(s, max)[i] == s[i],
{
    lemma_flat(s);
    let flat = lines::char_replaced(s, '\n', "⏎"@);
    if flattened(s, max).contains('\n') {
        let k = choose|k: int| 0 <= k < flattened(s, max).len() && flattened(s, max)[k] == '\n';
        assert(flat[k] == '\n');
    }
}

/// A result shows its first six lines, indented, and says how many more there are; one
/// with no more lines shows them all and says nothing.
pub proof fn a_result_shows_its_first_lines(all: Seq<Seq<char>>, color: Color, i: int)
    ensures
        all.len() <= 6 ==> result_lines(all).len() == all.len() && hidden_line(all, color).len()
            == 0,
        all.len() > 6 ==> result_lines(all).len() == 6 && hidden_line(all, color).len() == 1
            && hidden_line(all, color)[0].len() == 1 && hidden_line(all, color)[0][0].0 == "  … "@
            + lines::digits((all.len() - 6) as nat) + " more line(s)"@,
        0 <= i < all.len() && i < 6 ==> result_lines(all)[i] == "  "@ + flattened(all[i], 160),
{
}

/// Every event more adds its lines after those before it, and only a transcript without
/// events says how to begin. What an event is about stands in its first line.
pub proof fn every_event_has_its_lines(events: Seq<Event>, e: Event)
    ensures
        transcript_lines(Seq::empty()).len() == 1,
        transcript_lines(Seq::empty())[0][0].0 == INTRODUCTION@,
        transcript_lines(events.push(e)) == (if events.len() == 0 {
            Seq::empty()
        } else {
            transcript_lines(events)
        }) + event_lines(e),
        e matches Event::ToolCall { name, args } ==> event_lines(e).len() == 1
            && event_lines(e)[0][0].0 == "▶ "@ + name@ + " "@ && event_lines(e)[0][1].0
            == flattened(args@, 120),
        e matches Event::Failed { reason } ==> event_lines(e)[0][0].0 == "run failed: "@ + reason@
            && event_lines(e)[0][0].1.color == Color::Red,
        e matches Event::Denied { name, reason } ==> event_lines(e)[0][0].0 == "⛔ "@ + name@ + ": "@
            + reason@,
        e matches Event::Retrying { attempt, wait_secs } ==> event_lines(e)[0][0].0
            == "↻ provider error, retrying in "@ + lines::digits(wait_secs as nat) + "s (attempt "@
            + lines::digits(attempt as nat) + ")"@,
        e matches Event::Held { name, args } ==> event_lines(e)[0][0].0 == "⏸ "@ + name@ + " "@
            + flattened(args@, 120) + " (y approve / n deny)"@,
        e matches Event::Usage { input_tokens, output_tokens } ==> event_lines(e)[0][0].0
            == "tokens: "@ + lines::digits(input_tokens as nat) + " in, "@ + lines::digits(
            output_tokens as nat,
        ) + " out"@,
        e is Settled ==> event_lines(e)[0][0].0.len() == 40,
{
    assert(events.push(e).drop_last() =~= events);
    assert(events.push(e).last() == e);
    assert(all_lines(events.push(e)) == all_lines(events) + event_lines(e));
    if events.len() == 0 {
        assert(all_lines(events) =~= Seq::empty());
    }
}

/// What is said by either side stands there line by line, the user's under `you`; and of a
/// result its name with how it went, its first lines, and how many are left out.
pub proof fn what_is_said_stands_line_by_line(e: Event, i: int)
    ensures
        e matches Event::User { text } ==> {
            let all = lines::lines_of(text@);
            &&& event_lines(e).len() == all.len() + 2
            &&& event_lines(e)[0][0].0 == "you"@
            &&& 0 <= i < all.len() ==> event_lines(e)[i + 1] == seq![
                (all[i], event_lines(e)[i + 1][0].1),
            ]
        },
        e matches Event::Assistant { text } ==> {
            let all = lines::lines_of(text@);
            &&& event_lines(e).len() == all.len() + 1
            &&& 0 <= i < all.len() ==> event_lines(e)[i] == seq![(all[i], event_lines(e)[i][0].1)]
        },
        e matches Event::ToolResult { name, output, ok } ==> {
            let all = lines::lines_of(output@);
            let shown = result_lines(all);
            &&& event_lines(e)[0][0].0 == if ok {
                "✓ "@ + name@
            } else {
                "✗ "@ + name@
            }
            &&& !ok ==> event_lines(e)[0][0].1.color == Color::Red
            &&& event_lines(e).len() == 1 + shown.len() + hidden_line(all, Color::Red).len()
            &&& 0 <= i < shown.len() ==> event_lines(e)[i + 1][0].0 == shown[i]
        },
{
    match e {
        Event::User { text } => {
            let all = lines::lines_of(text@);
            if 0 <= i < all.len() {
                assert(event_lines(e)[i + 1] =~= seq![(all[i], event_lines(e)[i + 1][0].1)]);
            }
        },
        Event::Assistant { text } => {
            let all = lines::lines_of(text@);
            if 0 <= i < all.len() {
                assert(event_lines(e)[i] =~= seq![(all[i], event_lines(e)[i][0].1)]);
            }
        },
        _ => {},
    }
}

/// A plain character is typed, unless it answers an operation that waits; a line is broken
/// by Ctrl-J and by Alt-Enter, and the last character taken back by Backspace.
pub proof fn what_is_typed_is_kept(t: Typing, key: Key, busy: bool, pending: bool, c: char)
    requires
        !key.release,
    ensures
        ({
            let (after, asked) = pressed(t, key, busy, pending);
            &&& key.code == KeyCode::Char(c) && !key.ctrl && !(pending && t.input.len() == 0 && (c
                == 'y' || c == 'n')) ==> after == (Typing { input: t.input.push(c), ..t }) && asked
                == Request::Nothing
            &&& key.code == KeyCode::Char('j') && key.ctrl ==> after == (Typing {
                input: t.input.push('\n'),
                ..t
            })
            &&& key.code == KeyCode::Enter && key.alt ==> after == (Typing {
                input: t.input.push('\n'),
                ..t
            })
            &&& key.code == KeyCode::Backspace && t.input.len() > 0 ==> after == (Typing {
                input: t.input.drop_last(),
                ..t
            })
            &&& key.code == KeyCode::Backspace && t.input.len() == 0 ==> after == t
        }),
{
}

/// Enter sends what was typed, without white space round it, while no run is in flight;
/// then nothing is left of it and the stream is followed. What is blank, or typed during a
/// run, stays.
pub proof fn enter_sends_the_prompt(t: Typing, key: Key, busy: bool, pending: bool)
    requires
        !key.release,
        key.code == KeyCode::Enter,
        !key.alt,
    ensures
        ({
            let after = pressed(t, key, busy, pending).0;
            let prompt = text::trimmed(t.input);
            &&& !busy && prompt.len() > 0 ==> after.outbox == Some(prompt) && after.input.len() == 0
                && after.follow
            &&& busy || prompt.len() == 0 ==> after == t
        }),
{
}

/// `y` approves and `n` denies the operation that is displayed, where nothing is typed;
/// Ctrl-C and Ctrl-Q quit; Esc stops a run in flight and nothing else; and a key that is
/// let go does nothing.
pub proof fn keys_ask_for_what_they_should(t: Typing, key: Key, busy: bool, pending: bool)
    ensures
        ({
            let (after, asked) = pressed(t, key, busy, pending);
            &&& key.release ==> after == t && asked == Request::Nothing
            &&& !key.release && key.ctrl && (key.code == KeyCode::Char('c') || key.code
                == KeyCode::Char('q')) ==> after == t && asked == Request::Quit
            &&& asked == Request::Quit ==> key.ctrl && (key.code == KeyCode::Char('c') || key.code
                == KeyCode::Char('q'))
            &&& !key.release && pending && t.shown && t.input.len() == 0 ==> {
                &&& key.code == KeyCode::Char('y') ==> asked == Request::Decide(true)
                &&& key.code == KeyCode::Char('n') ==> asked == Request::Decide(false)
            }
            &&& asked == Request::Decide(true) ==> key.code == KeyCode::Char('y')
            &&& asked == Request::Decide(false) ==> key.code == KeyCode::Char('n')
            &&& !key.release && key.code == KeyCode::Esc ==> after == (Typing {
                stop: t.stop || busy,
                ..t
            })
            &&& key.code != KeyCode::Esc ==> after.stop == t.stop
        }),
{
}

/// The arrows scroll by a line and the page keys by twenty, no further up than the top;
/// Home goes there; any of them ends the following of the stream, and End takes it up.
pub proof fn scrolling_ends_the_following(t: Typing, key: Key, busy: bool, pending: bool)
    requires
        !key.release,
        20 <= t.scroll <= usize::MAX - 20,
    ensures
        ({
            let after = pressed(t, key, busy, pending).0;
            &&& key.code == KeyCode::Up ==> after.scroll == t.scroll - 1 && !after.follow
            &&& key.code == KeyCode::Down ==> after.scroll == t.scroll + 1 && !after.follow
            &&& key.code == KeyCode::PageUp ==> after.scroll == t.scroll - 20 && !after.follow
            &&& key.code == KeyCode::PageDown ==> after.scroll == t.scroll + 20 && !after.follow
            &&& key.code == KeyCode::Home ==> after.scroll == 0 && !after.follow
            &&& key.code == KeyCode::End ==> after.scroll == t.scroll && after.follow
        }),
        scrolled(0, -1) == 0,
        scrolled(usize::MAX as int, 1) == usize::MAX,
{
}

/// A frame is scrolled where it was left, wherever there are lines to fill it, and to the
/// end where it follows; another operation is shown from its top, and the stream is
/// followed once none waits.
pub proof fn a_frame_is_scrolled_where_it_should_be(
    scroll: int,
    follow: bool,
    total: nat,
    height: nat,
    shown: Option<Seq<char>>,
    next: Option<Seq<char>>,
)
    requires
        scroll >= 0,
    ensures
        ({
            let at = drawn_scroll(scroll, follow, total, height);
            &&& 0 <= at && (at == 0 || at + height <= total)
            &&& !follow && scroll + height <= total ==> at == scroll
            &&& follow && total >= height ==> at + height == total
        }),
        shown == next ==> turned(scroll, follow, shown, next) == (scroll, follow),
        shown != next && next is Some ==> turned(scroll, follow, shown, next) == (0int, false),
        shown != next && next is None ==> turned(scroll, follow, shown, next) == (0int, true),
{
}

/// The prompt has a row for each line that is typed, one at least and eight at most, and
/// its border; and its title says what is asked of the user.
pub proof fn the_prompt_has_room_for_its_lines(input: Seq<char>, busy: bool)
    ensures
        3 <= rows_of(input) <= 10,
        1 <= lines::lines_of(input).len() <= 8 ==> rows_of(input) == lines::lines_of(input).len()
            + 2,
        prompt_title(true, busy)
            == " Review the operation above; y approves, n denies (empty input) "@,
        prompt_title(false, true) == " Esc stops the run "@,
        prompt_title(false, false) == " prompt "@,
{
}

/// The line above the transcript names the model and the workspace, and says whether a run
/// is in flight.
pub proof fn the_status_says_what_is_run(
    model: Seq<char>,
    root: Seq<char>,
    busy: bool,
    frame: int,
)
    ensures
        ({
            let line = status_line(model, root, busy, frame);
            &&& line.len() == 5
            &&& line[0].0 == " rigcoder "@
            &&& line[1].0 == " "@ + model + "  "@
            &&& line[2].0 == root
            &&& !busy ==> line[4].0 == "idle"@
            &&& busy ==> line[4].0 == SPINNER@[(frame / 3) % 10]@ + " working"@
        }),
{
}

/// A frame shows a waiting operation, and nothing of the transcript beside it: lines of
/// its review from where it is scrolled to, as many as there is room for. It leaves what
/// is typed, what is sent and what is to stop as they are.
pub proof fn a_frame_shows_what_waits(
    before: Ui,
    after: Ui,
    out: Screen,
    busy: bool,
    pending: Option<Pending>,
    all: Seq<StyledLine>,
    model: Seq<char>,
    root: Seq<char>,
    body_width: u16,
    body_height: u16,
)
    requires
        is_drawn(before, after, out, busy, pending, all, model, root, body_width, body_height),
    ensures
        after.input == before.input,
        after.outbox == before.outbox,
        after.stop == before.stop,
        pending is None ==> after.displayed_approval is None && after.approval_view is None
            && out.review is None && out.offset == after.scroll,
        pending matches Some(request) ==> {
            &&& after.displayed_approval is Some && after.displayed_approval->0@ == request.id@
            &&& out.offset == 0
            &&& out.review is Some
            &&& body_height >= 2 ==> out.review->0@.len() <= body_height - 2
            &&& !(before.approval_view matches Some(found) && found.id@ == request.id@
                && found.width == inside(body_width)) ==> forall|i: int|
                0 <= i < out.review->0@.len() ==> (#[trigger] out.review->0@[i])@ == review_lines(
                    lines::pieces(request.preview@, '\n'),
                    review_width(inside(body_width)),
                )[after.scroll + i]
        },
        body_width >= 2 ==> inside(body_width) == body_width - 2,
{
    if let Some(request) = pending {
        let total = reviewed(before.approval_view, request, inside(body_width));
        let visible = text::views(out.review->0@);
        let scroll = after.scroll as int;
        let height = inside(body_height);
        let to = least(scroll + height, total.len() as int);
        let (from, follow) = turned(
            before.scroll as int,
            before.follow,
            text::opt(before.displayed_approval),
            displayed(pending),
        );
        a_frame_is_scrolled_where_it_should_be(
            from,
            follow,
            total.len(),
            height as nat,
            text::opt(before.displayed_approval),
            displayed(pending),
        );
        assert(0 <= scroll <= to <= total.len());
        assert(visible == total.subrange(scroll, to));
        assert(visible.len() == to - scroll);
        assert(visible.len() == out.review->0@.len());
        assert forall|i: int| 0 <= i < out.review->0@.len() implies (#[trigger] out.review->0@[i])@
            == total[scroll + i] by {
            assert(visible[i] == out.review->0@[i]@);
        }
    }
}

/// A review that is kept is shown again only for the same operation at the same width; for
/// any other the preview is wrapped anew. A transcript scrolls through the lines that it
/// wraps to, as many as sixteen bits count.
pub proof fn a_review_is_kept_for_its_own_operation(
    view: Option<ApprovalView>,
    request: Pending,
    all: Seq<StyledLine>,
    width: u16,
)
    ensures
        !(view matches Some(found) && found.id@ == request.id@ && found.width == width)
            ==> reviewed(view, request, width) == review_lines(
            lines::pieces(request.preview@, '\n'),
            review_width(width),
        ),
        view matches Some(found) ==> (found.id@ == request.id@ && found.width == width ==> reviewed(
            view,
            request,
            width,
        ) == text::views(found.lines@)),
        lines_drawn(view, Some(request), all, width) == reviewed(view, request, width).len(),
        wrapped_height(span_texts(all), width) <= 0xffff ==> lines_drawn(view, None, all, width)
            == wrapped_height(span_texts(all), width),
        lines_drawn(view, None, all, width) <= 0xffff,
{
}

} // verus!
