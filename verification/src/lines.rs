//! Cutting texts into pieces and putting pieces together.

use vstd::prelude::*;
use crate::text;

verus! {

// ---------------------------------------------------------------------------
// Cutting

/// The pieces of `s` between the occurrences of `sep`: one more than there are
/// occurrences, so never none.
pub open spec fn pieces(s: Seq<char>, sep: char) -> Seq<Seq<char>>
    decreases s.len(),
{
    if s.len() == 0 {
        seq![Seq::empty()]
    } else {
        let before = pieces(s.drop_last(), sep);
        if s.last() == sep {
            before.push(Seq::empty())
        } else {
            before.drop_last().push(before.last().push(s.last()))
        }
    }
}

/// A line's text without the carriage return that its line break may have.
pub open spec fn without_return(line: Seq<char>) -> Seq<char> {
    if line.len() > 0 && line.last() == '\r' {
        line.drop_last()
    } else {
        line
    }
}

/// The lines of `s`: the pieces that a line break ends, without it, and what
/// follows the last break unless that is empty.
pub open spec fn lines_of(s: Seq<char>) -> Seq<Seq<char>> {
    let cut = pieces(s, '\n');
    Seq::new((cut.len() - 1) as nat, |i: int| without_return(cut[i])) + if cut.last().len() == 0 {
        Seq::empty()
    } else {
        seq![cut.last()]
    }
}

/// The pieces of `s` that end at each line break, which stays with its piece.
pub open spec fn broken(s: Seq<char>) -> Seq<Seq<char>> {
    let cut = pieces(s, '\n');
    Seq::new((cut.len() - 1) as nat, |i: int| cut[i].push('\n')) + if cut.last().len() == 0 {
        Seq::empty()
    } else {
        seq![cut.last()]
    }
}

pub proof fn lemma_pieces_some(s: Seq<char>, sep: char)
    ensures
        pieces(s, sep).len() >= 1,
    decreases s.len(),
{
    if s.len() > 0 {
        lemma_pieces_some(s.drop_last(), sep);
    }
}

/// No piece holds what the text was cut at.
pub proof fn lemma_pieces_clean(s: Seq<char>, sep: char)
    ensures
        forall|k: int, i: int|
            0 <= k < pieces(s, sep).len() && 0 <= i < pieces(s, sep)[k].len() ==> (
            #[trigger] pieces(s, sep)[k][i]) != sep,
    decreases s.len(),
{
    lemma_pieces_some(s, sep);
    if s.len() > 0 {
        let init = s.drop_last();
        lemma_pieces_some(init, sep);
        lemma_pieces_clean(init, sep);
        let before = pieces(init, sep);
        let all = pieces(s, sep);
        assert forall|k: int, i: int| 0 <= k < all.len() && 0 <= i < all[k].len() implies (
        #[trigger] all[k][i]) != sep by {
            if k < before.len() - 1 || s.last() == sep {
                if k < before.len() {
                    assert(all[k] == before[k]);
                    assert(before[k][i] != sep);
                }
            } else if i < before.last().len() {
                assert(before[k][i] != sep);
            }
        }
    }
}

/// The pieces of a text between the occurrences of `sep`.
pub fn split(s: &str, sep: char) -> (out: Vec<String>)
    ensures
        text::views(out@) == pieces(s@, sep),
{
    let chars: Vec<char> = text::chars_of(s);
    let n: usize = chars.len();
    let mut out: Vec<String> = Vec::new();
    let mut current: String = String::new();
    assert(text::views(out@).push(current@) =~= pieces(chars@.take(0), sep));
    for i in 0..n
        invariant
            n == chars@.len(),
            text::views(out@).push(current@) == pieces(chars@.take(i as int), sep),
    {
        let ghost before = out@;
        let ghost piece = current@;
        proof {
            assert(chars@.take(i + 1).drop_last() =~= chars@.take(i as int));
            assert(text::views(before).push(piece).drop_last() =~= text::views(before));
        }
        if chars[i] == sep {
            out.push(current);
            current = String::new();
            assert(text::views(out@) =~= text::views(before).push(piece));
        } else {
            current.push(chars[i]);
        }
    }
    assert(chars@.take(n as int) =~= chars@);
    let ghost before = out@;
    let ghost piece = current@;
    out.push(current);
    assert(text::views(out@) =~= text::views(before).push(piece));
    out
}

/// The lines of a text.
pub fn lines(s: &str) -> (out: Vec<String>)
    ensures
        text::views(out@) == lines_of(s@),
{
    let cut: Vec<String> = split(s, '\n');
    proof {
        lemma_pieces_some(s@, '\n');
    }
    let ghost all = pieces(s@, '\n');
    let n: usize = cut.len();
    assert(all.len() == n);
    let mut out: Vec<String> = Vec::new();
    for i in 0..n - 1
        invariant
            n >= 1,
            n == cut@.len(),
            all == text::views(cut@),
            out@.len() == i,
            forall|j: int| 0 <= j < i ==> (#[trigger] out@[j])@ == without_return(all[j]),
    {
        assert(cut@[i as int]@ == all[i as int]);
        let line: Vec<char> = text::chars_of(cut[i].as_str());
        let m: usize = line.len();
        if m > 0 && line[m - 1] == '\r' {
            let kept: String = text::string_range(&line, 0, m - 1);
            assert(kept@ =~= without_return(all[i as int]));
            out.push(kept);
        } else {
            out.push(cut[i].clone());
        }
    }
    let ghost before = out@;
    assert(cut@[n - 1]@ == all.last());
    let last: String = cut[n - 1].clone();
    if !last.as_str().is_empty() {
        out.push(last);
        assert(text::views(out@) =~= text::views(before).push(all.last()));
    }
    assert(text::views(out@) =~= lines_of(s@));
    out
}

/// The pieces of a text that end at each line break, with the break.
pub fn break_lines(s: &str) -> (out: Vec<String>)
    ensures
        text::views(out@) == broken(s@),
{
    let cut: Vec<String> = split(s, '\n');
    proof {
        lemma_pieces_some(s@, '\n');
    }
    let ghost all = pieces(s@, '\n');
    let n: usize = cut.len();
    assert(all.len() == n);
    let mut out: Vec<String> = Vec::new();
    for i in 0..n - 1
        invariant
            n >= 1,
            n == cut@.len(),
            all == text::views(cut@),
            out@.len() == i,
            forall|j: int| 0 <= j < i ==> (#[trigger] out@[j])@ == all[j].push('\n'),
    {
        assert(cut@[i as int]@ == all[i as int]);
        let mut line: String = cut[i].clone();
        line.push('\n');
        out.push(line);
    }
    let ghost before = out@;
    assert(cut@[n - 1]@ == all.last());
    let last: String = cut[n - 1].clone();
    if !last.as_str().is_empty() {
        out.push(last);
        assert(text::views(out@) =~= text::views(before).push(all.last()));
    }
    assert(text::views(out@) =~= broken(s@));
    out
}

// ---------------------------------------------------------------------------
// Joining

/// The parts, one after the other.
pub open spec fn concat(parts: Seq<Seq<char>>) -> Seq<char>
    decreases parts.len(),
{
    if parts.len() == 0 {
        Seq::empty()
    } else {
        concat(parts.drop_last()) + parts.last()
    }
}

/// The parts, with `sep` between each and the next.
pub open spec fn joined(parts: Seq<Seq<char>>, sep: Seq<char>) -> Seq<char>
    decreases parts.len(),
{
    if parts.len() == 0 {
        Seq::empty()
    } else if parts.len() == 1 {
        parts[0]
    } else {
        joined(parts.drop_last(), sep) + sep + parts.last()
    }
}

/// The parts, with `sep` between each and the next.
pub fn join(parts: &[String], sep: &str) -> (out: String)
    ensures
        out@ == joined(text::views(parts@), sep@),
{
    let n: usize = parts.len();
    let ghost all = text::views(parts@);
    let mut out: String = String::new();
    for i in 0..n
        invariant
            n == parts@.len(),
            all == text::views(parts@),
            out@ == joined(all.take(i as int), sep@),
    {
        let ghost before = out@;
        proof {
            assert(all.take(i + 1).drop_last() =~= all.take(i as int));
            assert(all.take(i + 1).last() == parts@[i as int]@);
        }
        if i > 0 {
            out.append(sep);
        }
        out.append(parts[i].as_str());
        proof {
            if i == 0 {
                assert(before =~= Seq::<char>::empty());
                assert(out@ =~= parts@[0]@);
            }
        }
    }
    assert(all.take(n as int) =~= all);
    out
}

/// The borrowed parts, with `sep` between each and the next.
pub fn join_strs(parts: &[&str], sep: &str) -> (out: String)
    ensures
        out@ == joined(text::str_views(parts@), sep@),
{
    let n: usize = parts.len();
    let ghost all = text::str_views(parts@);
    let mut out: String = String::new();
    for i in 0..n
        invariant
            n == parts@.len(),
            all == text::str_views(parts@),
            out@ == joined(all.take(i as int), sep@),
    {
        let ghost before = out@;
        proof {
            assert(all.take(i + 1).drop_last() =~= all.take(i as int));
            assert(all.take(i + 1).last() == parts@[i as int]@);
        }
        if i > 0 {
            out.append(sep);
        }
        out.append(parts[i]);
        proof {
            if i == 0 {
                assert(before =~= Seq::<char>::empty());
                assert(out@ =~= parts@[0]@);
            }
        }
    }
    assert(all.take(n as int) =~= all);
    out
}

// ---------------------------------------------------------------------------
// Replacing

/// `s` with `with` in the place of every `c`.
pub open spec fn char_replaced(s: Seq<char>, c: char, with: Seq<char>) -> Seq<char>
    decreases s.len(),
{
    if s.len() == 0 {
        Seq::empty()
    } else {
        char_replaced(s.drop_last(), c, with) + if s.last() == c {
            with
        } else {
            seq![s.last()]
        }
    }
}

/// `s` with `with` in the place of every occurrence of `part`, which is not
/// empty; occurrences are taken from the left and do not overlap.
pub open spec fn replaced(s: Seq<char>, part: Seq<char>, with: Seq<char>) -> Seq<char>
    decreases s.len(),
{
    if part.len() == 0 || s.len() < part.len() {
        s
    } else if part.is_prefix_of(s) {
        with + replaced(s.skip(part.len() as int), part, with)
    } else {
        seq![s[0]] + replaced(s.skip(1), part, with)
    }
}

/// `s` with `with` in the place of every `c`.
pub fn replace_char(s: &str, c: char, with: &str) -> (out: String)
    ensures
        out@ == char_replaced(s@, c, with@),
{
    let chars: Vec<char> = text::chars_of(s);
    let n: usize = chars.len();
    let mut out: String = String::new();
    for i in 0..n
        invariant
            n == chars@.len(),
            out@ == char_replaced(chars@.take(i as int), c, with@),
    {
        proof {
            assert(chars@.take(i + 1).drop_last() =~= chars@.take(i as int));
        }
        let ghost before = out@;
        if chars[i] == c {
            out.append(with);
        } else {
            out.push(chars[i]);
            assert(out@ =~= before + seq![chars@[i as int]]);
        }
    }
    assert(chars@.take(n as int) =~= chars@);
    out
}

/// `s` with `with` in the place of every occurrence of `part`.
pub fn replace(s: &str, part: &str, with: &str) -> (out: String)
    requires
        part@.len() > 0,
    ensures
        out@ == replaced(s@, part@, with@),
{
    let chars: Vec<char> = text::chars_of(s);
    let needle: Vec<char> = text::chars_of(part);
    let n: usize = chars.len();
    let m: usize = needle.len();
    let mut out: String = String::new();
    let mut i: usize = 0;
    assert(chars@.skip(0) =~= chars@);
    assert(out@ + replaced(chars@.skip(0), part@, with@) =~= replaced(chars@, part@, with@));
    while i < n
        invariant
            n == chars@.len(),
            m == needle@.len(),
            m > 0,
            needle@ == part@,
            i <= n,
            out@ + replaced(chars@.skip(i as int), part@, with@) == replaced(chars@, part@, with@),
        decreases n - i,
    {
        let ghost rest = chars@.skip(i as int);
        let ghost before = out@;
        if text::found_at(&chars, &needle, i) {
            proof {
                assert(rest.subrange(0, m as int) =~= chars@.subrange(i as int, i + m));
                assert(part@.is_prefix_of(rest));
                assert(rest.skip(m as int) =~= chars@.skip(i + m));
            }
            out.append(with);
            i += m;
            assert(out@ + replaced(chars@.skip(i as int), part@, with@) =~= before + replaced(
                rest,
                part@,
                with@,
            ));
        } else {
            proof {
                if part@.is_prefix_of(rest) {
                    assert(rest.subrange(0, m as int) =~= chars@.subrange(i as int, i + m));
                }
                assert(rest.skip(1) =~= chars@.skip(i + 1));
            }
            out.push(chars[i]);
            i += 1;
            proof {
                if rest.len() < part@.len() {
                    assert(replaced(rest, part@, with@) == rest);
                    assert(replaced(chars@.skip(i as int), part@, with@) == chars@.skip(i as int));
                }
                assert(out@ + replaced(chars@.skip(i as int), part@, with@) =~= before + replaced(
                    rest,
                    part@,
                    with@,
                ));
            }
        }
    }
    assert(chars@.skip(n as int) =~= Seq::<char>::empty());
    assert(replaced(chars@.skip(n as int), part@, with@) =~= Seq::<char>::empty());
    assert(out@ =~= replaced(chars@, part@, with@));
    out
}

// ---------------------------------------------------------------------------
// Numbers

/// The decimal digit for `d`.
pub open spec fn digit(d: nat) -> char {
    if d == 0 {
        '0'
    } else if d == 1 {
        '1'
    } else if d == 2 {
        '2'
    } else if d == 3 {
        '3'
    } else if d == 4 {
        '4'
    } else if d == 5 {
        '5'
    } else if d == 6 {
        '6'
    } else if d == 7 {
        '7'
    } else if d == 8 {
        '8'
    } else {
        '9'
    }
}

/// `n` in decimal digits, without leading zeros.
pub open spec fn digits(n: nat) -> Seq<char>
    decreases n,
{
    if n < 10 {
        seq![digit(n)]
    } else {
        digits(n / 10).push(digit(n % 10))
    }
}

/// `n` in at least three decimal digits.
pub open spec fn three_digits(n: nat) -> Seq<char> {
    if n < 10 {
        seq!['0', '0'] + digits(n)
    } else if n < 100 {
        seq!['0'] + digits(n)
    } else {
        digits(n)
    }
}

fn digit_char(d: u128) -> (c: char)
    requires
        d < 10,
    ensures
        c == digit(d as nat),
{
    if d == 0 {
        '0'
    } else if d == 1 {
        '1'
    } else if d == 2 {
        '2'
    } else if d == 3 {
        '3'
    } else if d == 4 {
        '4'
    } else if d == 5 {
        '5'
    } else if d == 6 {
        '6'
    } else if d == 7 {
        '7'
    } else if d == 8 {
        '8'
    } else {
        '9'
    }
}

/// `n` in decimal digits, without leading zeros.
pub fn wide_number(n: u128) -> (out: String)
    ensures
        out@ == digits(n as nat),
    decreases n,
{
    if n < 10 {
        let mut out: String = String::new();
        out.push(digit_char(n));
        assert(out@ =~= seq![digit(n as nat)]);
        out
    } else {
        let mut out: String = wide_number(n / 10);
        out.push(digit_char(n % 10));
        out
    }
}

/// `n` in decimal digits, without leading zeros.
pub fn number(n: u64) -> (out: String)
    ensures
        out@ == digits(n as nat),
{
    wide_number(n as u128)
}

/// `n` in decimal digits, without leading zeros.
pub fn count(n: usize) -> (out: String)
    ensures
        out@ == digits(n as nat),
{
    wide_number(n as u128)
}

/// `n` in decimal digits, with a minus sign where it is negative.
pub open spec fn signed(n: int) -> Seq<char> {
    if n < 0 {
        seq!['-'] + digits((-n) as nat)
    } else {
        digits(n as nat)
    }
}

/// `n` in decimal digits, with a minus sign where it is negative.
pub fn signed_number(n: i32) -> (out: String)
    ensures
        out@ == signed(n as int),
{
    if n < 0 {
        let mut out: String = String::new();
        out.push('-');
        let size: i64 = -(n as i64);
        let tail: String = wide_number(size as u128);
        out.append(tail.as_str());
        assert(out@ =~= signed(n as int));
        out
    } else {
        wide_number(n as u128)
    }
}

/// `n` in at least three decimal digits.
pub fn padded(n: usize) -> (out: String)
    ensures
        out@ == three_digits(n as nat),
{
    let mut out: String = String::new();
    if n < 10 {
        out.push('0');
        out.push('0');
    } else if n < 100 {
        out.push('0');
    }
    let tail: String = count(n);
    out.append(tail.as_str());
    assert(out@ =~= three_digits(n as nat));
    out
}

// ---------------------------------------------------------------------------
// What cutting, joining and counting keep to

proof fn lemma_joined_push(parts: Seq<Seq<char>>, sep: Seq<char>, last: Seq<char>)
    requires
        parts.len() > 0,
    ensures
        joined(parts.push(last), sep) == joined(parts, sep) + sep + last,
{
    assert(parts.push(last).drop_last() =~= parts);
}

/// The joined parts hold every part: none of them joined is nothing, one is itself, and
/// one more stands after the others and the separator.
pub proof fn joining_leaves_no_part_out(
    parts: Seq<Seq<char>>,
    sep: Seq<char>,
    last: Seq<char>,
    i: int,
)
    ensures
        joined(Seq::empty(), sep).len() == 0,
        joined(seq![last], sep) == last,
        parts.len() > 0 ==> joined(parts.push(last), sep) == joined(parts, sep) + sep + last,
        0 <= i < parts.len() ==> text::occurs(joined(parts, sep), parts[i]),
    decreases parts.len(),
{
    let none = Seq::<char>::empty();
    if parts.len() > 0 {
        lemma_joined_push(parts, sep, last);
        let init = parts.drop_last();
        joining_leaves_no_part_out(init, sep, last, i);
        if 0 <= i < parts.len() {
            if parts.len() == 1 {
                text::lemma_occurs_between(none, parts[0], none);
                assert(none + parts[0] + none =~= parts[0]);
            } else if i < init.len() {
                assert(init[i] == parts[i]);
                text::lemma_occurs_within(none, joined(init, sep), sep + parts.last(), parts[i]);
                assert(none + joined(init, sep) + (sep + parts.last()) =~= joined(parts, sep));
            } else {
                text::lemma_occurs_between(joined(init, sep) + sep, parts.last(), none);
                assert(joined(init, sep) + sep + parts.last() + none =~= joined(parts, sep));
            }
        }
    }
}

/// The pieces of a text, with what it was cut at between them again, are the text; and
/// none of them holds what it was cut at.
pub proof fn pieces_join_to_the_text(s: Seq<char>, sep: char)
    ensures
        pieces(s, sep).len() >= 1,
        joined(pieces(s, sep), seq![sep]) == s,
        forall|k: int| 0 <= k < pieces(s, sep).len() ==> !(#[trigger] pieces(s, sep)[k]).contains(
            sep,
        ),
    decreases s.len(),
{
    lemma_pieces_some(s, sep);
    lemma_pieces_clean(s, sep);
    let all = pieces(s, sep);
    assert forall|k: int| 0 <= k < all.len() implies !(#[trigger] all[k]).contains(sep) by {
        if all[k].contains(sep) {
            let i = choose|i: int| 0 <= i < all[k].len() && all[k][i] == sep;
            assert(pieces(s, sep)[k][i] != sep);
        }
    }
    if s.len() > 0 {
        let init = s.drop_last();
        pieces_join_to_the_text(init, sep);
        let before = pieces(init, sep);
        if s.last() == sep {
            lemma_joined_push(before, seq![sep], Seq::empty());
            assert(joined(all, seq![sep]) =~= s);
        } else {
            let start = before.drop_last();
            assert(start.push(before.last()) =~= before);
            if start.len() > 0 {
                lemma_joined_push(start, seq![sep], before.last());
                lemma_joined_push(start, seq![sep], before.last().push(s.last()));
                assert(joined(before, seq![sep]) == joined(start, seq![sep]) + seq![sep]
                    + before.last());
            } else {
                assert(joined(before, seq![sep]) == before[0]);
                assert(joined(all, seq![sep]) == all[0]);
            }
            assert(joined(all, seq![sep]) =~= joined(before, seq![sep]).push(s.last()));
            assert(joined(all, seq![sep]) =~= s);
        }
    }
}

/// A line is what stands before its line break, whether that is a line feed alone or one
/// with a carriage return before it; the pieces with their breaks, one after the other,
/// are the text; and there are as many of the one as of the other.
pub proof fn lines_are_what_breaks_end(s: Seq<char>, i: int)
    ensures
        concat(broken(s)) == s,
        lines_of(s).len() == broken(s).len(),
        0 <= i < lines_of(s).len() ==> {
            let line = lines_of(s)[i];
            let piece = broken(s)[i];
            &&& !line.contains('\n')
            &&& piece == line.push('\n') || piece == line.push('\r').push('\n') || (i == lines_of(
                s,
            ).len() - 1 && piece == line && line.len() > 0)
            &&& piece.last() == '\n' ==> piece.len() < 2 || piece[piece.len() - 2] != '\r'
                || piece == line.push('\r').push('\n')
        },
{
    pieces_join_to_the_text(s, '\n');
    let cut = pieces(s, '\n');
    lemma_concat_broken(cut);
    let all = broken(s);
    let ended = Seq::new((cut.len() - 1) as nat, |k: int| cut[k].push('\n'));
    if cut.last().len() == 0 {
        assert(all =~= ended);
        assert(concat(all) =~= s);
    } else {
        assert(all.drop_last() =~= ended);
        assert(concat(all) =~= s);
    }
    if 0 <= i < lines_of(s).len() {
        let line = lines_of(s)[i];
        let piece = broken(s)[i];
        assert(!cut[i].contains('\n'));
        if line.contains('\n') {
            let k = choose|k: int| 0 <= k < line.len() && line[k] == '\n';
            assert(cut[i][k] == '\n');
        }
        if i < cut.len() - 1 {
            assert(piece == cut[i].push('\n'));
            if cut[i].len() > 0 && cut[i].last() == '\r' {
                assert(piece =~= line.push('\r').push('\n'));
            }
        } else if piece.last() == '\n' {
            assert(cut[i][cut[i].len() - 1] == '\n');
        }
    }
}

proof fn lemma_concat_broken(cut: Seq<Seq<char>>)
    requires
        cut.len() > 0,
    ensures
        concat(Seq::new((cut.len() - 1) as nat, |k: int| cut[k].push('\n'))) + cut.last()
            == joined(cut, seq!['\n']),
    decreases cut.len(),
{
    let ended = Seq::new((cut.len() - 1) as nat, |k: int| cut[k].push('\n'));
    if cut.len() == 1 {
        assert(concat(ended) + cut.last() =~= cut[0]);
    } else {
        let init = cut.drop_last();
        lemma_concat_broken(init);
        let fewer = Seq::new((init.len() - 1) as nat, |k: int| init[k].push('\n'));
        assert(ended.drop_last() =~= fewer);
        assert(ended.last() == init.last().push('\n'));
        assert(concat(ended) + cut.last() =~= concat(fewer) + init.last() + seq!['\n']
            + cut.last());
    }
}

/// The number that decimal digits stand for.
pub open spec fn value(s: Seq<char>) -> nat
    decreases s.len(),
{
    if s.len() == 0 {
        0
    } else {
        (value(s.drop_last()) * 10 + (s.last() as u32 - 48)) as nat
    }
}

/// A number's digits are decimal, stand for the number, and begin with a zero only where
/// they are that zero.
pub proof fn digits_stand_for_their_number(n: nat)
    ensures
        digits(n).len() > 0,
        value(digits(n)) == n,
        forall|i: int| 0 <= i < digits(n).len() ==> '0' <= (#[trigger] digits(n)[i]) <= '9',
        digits(n)[0] == '0' ==> n == 0,
    decreases n,
{
    if n < 10 {
        let one = digits(n);
        assert(one.drop_last() =~= Seq::<char>::empty());
        assert(value(one.drop_last()) == 0);
    } else {
        digits_stand_for_their_number(n / 10);
        assert(digits(n).drop_last() =~= digits(n / 10));
    }
}

/// A number below zero has a minus sign before the digits of what it lacks, and one that
/// is padded has zeros before its own until there are three.
pub proof fn signs_and_zeros_come_before_the_digits(n: int, k: nat)
    ensures
        n >= 0 ==> signed(n) == digits(n as nat),
        n < 0 ==> signed(n) == "-"@ + digits((-n) as nat),
        three_digits(k).len() >= 3,
        value(three_digits(k)) == k,
        k >= 100 ==> three_digits(k) == digits(k),
        k < 1000 ==> three_digits(k).len() == 3,
{
    reveal_strlit("-");
    assert("-"@ =~= seq!['-']);
    digits_stand_for_their_number(k);
    reveal_with_fuel(digits, 4);
    reveal_with_fuel(value, 4);
    let shown = three_digits(k);
    if k < 10 {
        assert(shown =~= seq!['0', '0', digit(k)]);
        assert(shown.drop_last() =~= seq!['0', '0']);
        assert(shown.drop_last().drop_last() =~= seq!['0']);
        assert(shown.drop_last().drop_last().drop_last() =~= Seq::<char>::empty());
    } else if k < 100 {
        assert(shown =~= seq!['0', digit(k / 10), digit(k % 10)]);
        assert(shown.drop_last() =~= seq!['0', digit(k / 10)]);
        assert(shown.drop_last().drop_last() =~= seq!['0']);
        assert(shown.drop_last().drop_last().drop_last() =~= Seq::<char>::empty());
    }
}

/// Replacing a character changes it wherever it stands and nothing else: each part of a
/// text is replaced on its own.
pub proof fn each_character_is_replaced_on_its_own(
    a: Seq<char>,
    b: Seq<char>,
    c: char,
    other: char,
    with: Seq<char>,
)
    ensures
        char_replaced(a + b, c, with) == char_replaced(a, c, with) + char_replaced(b, c, with),
        char_replaced(seq![c], c, with) == with,
        other != c ==> char_replaced(seq![other], c, with) == seq![other],
    decreases b.len(),
{
    let none = Seq::<char>::empty();
    assert(seq![c].drop_last() =~= none);
    assert(seq![other].drop_last() =~= none);
    assert(char_replaced(none, c, with) =~= none);
    assert(none + with =~= with);
    assert(none + seq![other] =~= seq![other]);
    if b.len() == 0 {
        assert(a + b =~= a);
        assert(char_replaced(a, c, with) + none =~= char_replaced(a, c, with));
    } else {
        each_character_is_replaced_on_its_own(a, b.drop_last(), c, other, with);
        assert((a + b).drop_last() =~= a + b.drop_last());
        assert(char_replaced(a + b, c, with) =~= char_replaced(a, c, with) + char_replaced(
            b,
            c,
            with,
        ));
    }
}

/// A text without an occurrence stays as it is, and one that begins with an occurrence
/// has its replacement there, before what becomes of the rest.
pub proof fn only_occurrences_are_replaced(s: Seq<char>, part: Seq<char>, with: Seq<char>)
    requires
        part.len() > 0,
    ensures
        !text::occurs(s, part) ==> replaced(s, part, with) == s,
        replaced(part + s, part, with) == with + replaced(s, part, with),
    decreases s.len(),
{
    let whole = part + s;
    assert(whole.subrange(0, part.len() as int) =~= part);
    assert(part.is_prefix_of(whole));
    assert(whole.skip(part.len() as int) =~= s);
    if !text::occurs(s, part) && s.len() >= part.len() {
        if part.is_prefix_of(s) {
            assert(s.subrange(0, part.len() as int) =~= part);
            assert(text::occurs_at(s, part, 0));
        }
        let rest = s.skip(1);
        if text::occurs(rest, part) {
            let at = choose|at: int| #[trigger] text::occurs_at(rest, part, at);
            assert(s.subrange(at + 1, at + 1 + part.len()) =~= rest.subrange(at, at + part.len()));
            assert(text::occurs_at(s, part, at + 1));
        }
        only_occurrences_are_replaced(rest, part, with);
        assert(seq![s[0]] + rest =~= s);
    }
}

} // verus!
