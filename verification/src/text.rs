//! Text as sequences of characters: the splitting, trimming, searching and
//! replacing that the rest of the crate is built from.

use vstd::prelude::*;
use vstd::utf8;

verus! {

/// `String::push` appends one character to the end of the text.
pub assume_specification[ String::push ](s: &mut String, c: char)
    ensures
        final(s)@ == old(s)@.push(c),
;

/// A text in lower case, as `str::to_lowercase` has it.
pub uninterp spec fn lowercase(s: Seq<char>) -> Seq<char>;

/// `str::to_lowercase` depends on the text alone: it follows Unicode's mapping,
/// not a locale.
pub assume_specification[ str::to_lowercase ](s: &str) -> (out: String)
    ensures
        out@ == lowercase(s@),
;

/// The texts of a list, each as its characters.
pub open spec fn views(parts: Seq<String>) -> Seq<Seq<char>> {
    Seq::new(parts.len(), |i: int| parts[i]@)
}

/// The texts of a list of borrowed strings, each as its characters.
pub open spec fn str_views(parts: Seq<&str>) -> Seq<Seq<char>> {
    Seq::new(parts.len(), |i: int| parts[i]@)
}

/// An optional text as its characters.
pub open spec fn opt(part: Option<String>) -> Option<Seq<char>> {
    match part {
        Some(s) => Some(s@),
        None => None,
    }
}

/// An outcome that is a text either way, as its characters.
pub open spec fn outcome(r: Result<String, String>) -> Result<Seq<char>, Seq<char>> {
    match r {
        Ok(s) => Ok(s@),
        Err(s) => Err(s@),
    }
}

/// A copy of an optional text.
pub fn copy_opt(part: &Option<String>) -> (out: Option<String>)
    ensures
        opt(out) == opt(*part),
{
    match part {
        Some(s) => Some(s.clone()),
        None => None,
    }
}

pub proof fn lemma_views_push(parts: Seq<String>, s: String)
    ensures
        views(parts.push(s)) == views(parts).push(s@),
{
    assert(views(parts.push(s)) =~= views(parts).push(s@));
}

// ---------------------------------------------------------------------------
// Conversions and equality

/// The characters of `s`, in order.
pub fn chars_of(s: &str) -> (out: Vec<char>)
    ensures
        out@ == s@,
{
    let mut out: Vec<char> = Vec::new();
    for c in it: s.chars()
        invariant
            out@ == it.seq().take(it.index()),
            it.seq() == s@,
    {
        out.push(c);
        assert(it.seq().take(it.index() + 1) =~= it.seq().take(it.index()).push(c));
    }
    assert(out@ =~= s@);
    out
}

/// The characters `chars[from..to]` as a string.
pub fn string_range(chars: &[char], from: usize, to: usize) -> (out: String)
    requires
        from <= to <= chars@.len(),
    ensures
        out@ == chars@.subrange(from as int, to as int),
{
    let mut out: String = String::new();
    for i in from..to
        invariant
            from <= to <= chars@.len(),
            out@ == chars@.subrange(from as int, i as int),
    {
        out.push(chars[i]);
        assert(chars@.subrange(from as int, i + 1) =~= chars@.subrange(from as int, i as int).push(
            chars@[i as int],
        ));
    }
    out
}

/// The characters as a string.
pub fn string_of(chars: &[char]) -> (out: String)
    ensures
        out@ == chars@,
{
    let out: String = string_range(chars, 0, chars.len());
    assert(chars@.subrange(0, chars@.len() as int) =~= chars@);
    out
}

/// Whether two texts hold the same characters.
pub fn same(a: &str, b: &str) -> (r: bool)
    ensures
        r == (a@ == b@),
{
    let x: &[u8] = a.as_bytes();
    let y: &[u8] = b.as_bytes();
    if x.len() != y.len() {
        return false;
    }
    let n: usize = x.len();
    for i in 0..n
        invariant
            n == x@.len(),
            n == y@.len(),
            x@ == utf8::encode_utf8(a@),
            y@ == utf8::encode_utf8(b@),
            forall|j: int| 0 <= j < i ==> x@[j] == y@[j],
    {
        if x[i] != y[i] {
            return false;
        }
    }
    proof {
        assert(x@ =~= y@);
        utf8::encode_utf8_decode_utf8(a@);
        utf8::encode_utf8_decode_utf8(b@);
    }
    true
}

/// Appends copies of `from[start..end]` to `out`.
pub fn append_range(out: &mut Vec<String>, from: &[String], start: usize, end: usize)
    requires
        start <= end <= from@.len(),
    ensures
        views(final(out)@) == views(old(out)@) + views(from@).subrange(start as int, end as int),
{
    let ghost first = out@;
    assert(views(first) + views(from@).subrange(start as int, start as int) =~= views(first));
    for i in start..end
        invariant
            start <= end <= from@.len(),
            views(out@) == views(first) + views(from@).subrange(start as int, i as int),
    {
        let ghost before = out@;
        out.push(from[i].clone());
        proof {
            lemma_views_push(before, from@[i as int]);
            assert(views(first) + views(from@).subrange(start as int, i + 1) =~= (views(first)
                + views(from@).subrange(start as int, i as int)).push(views(from@)[i as int]));
        }
    }
}

/// A copy of a list of texts.
pub fn copy_all(parts: &[String]) -> (out: Vec<String>)
    ensures
        views(out@) == views(parts@),
{
    let mut out: Vec<String> = Vec::new();
    append_range(&mut out, parts, 0, parts.len());
    assert(views(out@) =~= views(parts@));
    out
}

/// Whether `list` holds the text `item`.
pub fn holds(list: &[String], item: &str) -> (r: bool)
    ensures
        r == views(list@).contains(item@),
{
    let n: usize = list.len();
    for i in 0..n
        invariant
            n == list@.len(),
            forall|j: int| 0 <= j < i ==> views(list@)[j] != item@,
    {
        if same(list[i].as_str(), item) {
            assert(views(list@)[i as int] == item@);
            return true;
        }
    }
    false
}

/// Whether `list` holds the text `item`.
pub fn among(list: &[&str], item: &str) -> (r: bool)
    ensures
        r == str_views(list@).contains(item@),
{
    let n: usize = list.len();
    for i in 0..n
        invariant
            n == list@.len(),
            forall|j: int| 0 <= j < i ==> str_views(list@)[j] != item@,
    {
        if same(list[i], item) {
            assert(str_views(list@)[i as int] == item@);
            return true;
        }
    }
    false
}

// ---------------------------------------------------------------------------
// Bytes

/// How many bytes UTF-8 uses for `c`.
pub open spec fn char_width(c: char) -> nat {
    if (c as u32) < 0x80 {
        1
    } else if (c as u32) < 0x800 {
        2
    } else if (c as u32) < 0x10000 {
        3
    } else {
        4
    }
}

/// How many bytes UTF-8 uses for the whole text.
pub open spec fn byte_len(s: Seq<char>) -> nat
    decreases s.len(),
{
    if s.len() == 0 {
        0
    } else {
        byte_len(s.drop_last()) + char_width(s.last())
    }
}

pub proof fn lemma_byte_len_push(s: Seq<char>, c: char)
    ensures
        byte_len(s.push(c)) == byte_len(s) + char_width(c),
{
    assert(s.push(c).drop_last() =~= s);
}

pub proof fn lemma_byte_len_add(a: Seq<char>, b: Seq<char>)
    ensures
        byte_len(a + b) == byte_len(a) + byte_len(b),
    decreases b.len(),
{
    if b.len() == 0 {
        assert(a + b =~= a);
    } else {
        assert((a + b).drop_last() =~= a + b.drop_last());
        lemma_byte_len_add(a, b.drop_last());
    }
}

/// A text has at least one byte, and at most four, per character.
pub proof fn lemma_byte_len_bounds(s: Seq<char>)
    ensures
        s.len() <= byte_len(s) <= 4 * s.len(),
    decreases s.len(),
{
    if s.len() > 0 {
        lemma_byte_len_bounds(s.drop_last());
    }
}

pub proof fn lemma_byte_len_encode(s: Seq<char>)
    ensures
        byte_len(s) == utf8::encode_utf8(s).len(),
    decreases s.len(),
{
    if s.len() > 0 {
        lemma_byte_len_encode(s.drop_first());
        assert(s =~= seq![s[0]] + s.drop_first());
        lemma_byte_len_add(seq![s[0]], s.drop_first());
        assert(seq![s[0]].drop_last() =~= Seq::<char>::empty());
        assert(byte_len(seq![s[0]]) == char_width(s[0])) by {
            assert(byte_len(Seq::<char>::empty()) == 0);
        }
        utf8::char_is_scalar(s[0]);
        assert(utf8::encode_scalar(s[0] as u32).len() == char_width(s[0]));
    }
}

/// How many bytes UTF-8 uses for `c`.
pub fn width_of(c: char) -> (n: usize)
    ensures
        n == char_width(c),
{
    let code: u32 = c as u32;
    if code < 0x80 {
        1
    } else if code < 0x800 {
        2
    } else if code < 0x10000 {
        3
    } else {
        4
    }
}

/// The length of the text in bytes.
pub fn bytes_in(s: &str) -> (n: usize)
    ensures
        n == byte_len(s@),
{
    proof {
        lemma_byte_len_encode(s@);
    }
    s.as_bytes().len()
}

// ---------------------------------------------------------------------------
// Searching

/// Whether `part` occurs in `s` at position `at`.
pub open spec fn occurs_at(s: Seq<char>, part: Seq<char>, at: int) -> bool {
    0 <= at && at + part.len() <= s.len() && s.subrange(at, at + part.len()) == part
}

/// Whether `part` occurs somewhere in `s`.
pub open spec fn occurs(s: Seq<char>, part: Seq<char>) -> bool {
    exists|at: int| #[trigger] occurs_at(s, part, at)
}

/// What stands between two texts occurs in them together.
pub proof fn lemma_occurs_between(a: Seq<char>, part: Seq<char>, b: Seq<char>)
    ensures
        occurs(a + part + b, part),
{
    let s = a + part + b;
    assert(s.subrange(a.len() as int, (a.len() + part.len()) as int) =~= part);
    assert(occurs_at(s, part, a.len() as int));
}

/// What occurs in a text occurs in any that holds it.
pub proof fn lemma_occurs_within(a: Seq<char>, s: Seq<char>, b: Seq<char>, part: Seq<char>)
    requires
        occurs(s, part),
    ensures
        occurs(a + s + b, part),
{
    let at = choose|at: int| #[trigger] occurs_at(s, part, at);
    let whole = a + s + b;
    let from = a.len() + at;
    assert(whole.subrange(from, from + part.len()) =~= s.subrange(at, at + part.len()));
    assert(occurs_at(whole, part, from));
}

/// Whether `part` occurs in `s` at position `at`.
pub fn found_at(s: &[char], part: &[char], at: usize) -> (r: bool)
    requires
        at <= s@.len(),
    ensures
        r == occurs_at(s@, part@, at as int),
{
    if s.len() - at < part.len() {
        return false;
    }
    let n: usize = part.len();
    let total: usize = s.len();
    for i in 0..n
        invariant
            n == part@.len(),
            total == s@.len(),
            at + n <= total,
            forall|j: int| 0 <= j < i ==> s@[at + j] == part@[j],
    {
        if s[at + i] != part[i] {
            assert(s@.subrange(at as int, at + n)[i as int] != part@[i as int]);
            return false;
        }
    }
    assert(s@.subrange(at as int, at + n) =~= part@);
    true
}

/// Whether `part` occurs somewhere in `s`.
pub fn found_in(s: &[char], part: &[char]) -> (r: bool)
    ensures
        r == occurs(s@, part@),
{
    let n: usize = s.len();
    let mut i: usize = 0;
    loop
        invariant
            n == s@.len(),
            i <= n,
            forall|at: int| 0 <= at < i ==> !occurs_at(s@, part@, at),
        decreases n - i,
    {
        if found_at(s, part, i) {
            return true;
        }
        if i == n {
            return false;
        }
        i += 1;
    }
}

/// Whether `part` occurs somewhere in `s`.
pub fn contains(s: &str, part: &str) -> (r: bool)
    ensures
        r == occurs(s@, part@),
{
    let chars: Vec<char> = chars_of(s);
    let needle: Vec<char> = chars_of(part);
    found_in(&chars, &needle)
}

/// Whether the character `c` occurs in `s`.
pub fn has_char(s: &str, c: char) -> (r: bool)
    ensures
        r == s@.contains(c),
{
    let chars: Vec<char> = chars_of(s);
    let n: usize = chars.len();
    for i in 0..n
        invariant
            n == chars@.len(),
            chars@ == s@,
            forall|j: int| 0 <= j < i ==> chars@[j] != c,
    {
        if chars[i] == c {
            assert(s@[i as int] == c);
            return true;
        }
    }
    false
}

/// Whether `s` begins with `part`.
pub fn begins_with(s: &str, part: &str) -> (r: bool)
    ensures
        r == part@.is_prefix_of(s@),
{
    let chars: Vec<char> = chars_of(s);
    let needle: Vec<char> = chars_of(part);
    let r: bool = found_at(&chars, &needle, 0);
    r
}

/// Whether `s` begins with the character `c`.
pub fn begins_with_char(s: &str, c: char) -> (r: bool)
    ensures
        r == (s@.len() > 0 && s@[0] == c),
{
    let chars: Vec<char> = chars_of(s);
    chars.len() > 0 && chars[0] == c
}

/// Whether `s` ends with the character `c`.
pub fn ends_with_char(s: &str, c: char) -> (r: bool)
    ensures
        r == (s@.len() > 0 && s@.last() == c),
{
    let chars: Vec<char> = chars_of(s);
    let n: usize = chars.len();
    n > 0 && chars[n - 1] == c
}

/// How often `c` occurs in `s`.
pub open spec fn count_of(s: Seq<char>, c: char) -> nat
    decreases s.len(),
{
    if s.len() == 0 {
        0
    } else {
        count_of(s.drop_last(), c) + if s.last() == c {
            1nat
        } else {
            0nat
        }
    }
}

pub proof fn lemma_count_bound(s: Seq<char>, c: char)
    ensures
        count_of(s, c) <= s.len(),
    decreases s.len(),
{
    if s.len() > 0 {
        lemma_count_bound(s.drop_last(), c);
    }
}

/// How often `c` occurs in `s`.
pub fn count_char(s: &[char], c: char) -> (r: usize)
    ensures
        r == count_of(s@, c),
{
    let n: usize = s.len();
    let mut r: usize = 0;
    for i in 0..n
        invariant
            n == s@.len(),
            r <= i,
            r == count_of(s@.take(i as int), c),
    {
        proof {
            assert(s@.take(i + 1).drop_last() =~= s@.take(i as int));
        }
        if s[i] == c {
            r += 1;
        }
    }
    assert(s@.take(n as int) =~= s@);
    r
}

// ---------------------------------------------------------------------------
// White space

/// The characters of Unicode's `White_Space` property.
pub open spec fn is_white(c: char) -> bool {
    let code = c as u32;
    ||| 0x09 <= code <= 0x0d
    ||| code == 0x20
    ||| code == 0x85
    ||| code == 0xa0
    ||| code == 0x1680
    ||| 0x2000 <= code <= 0x200a
    ||| code == 0x2028
    ||| code == 0x2029
    ||| code == 0x202f
    ||| code == 0x205f
    ||| code == 0x3000
}

/// `s` without the white space at its start.
pub open spec fn without_leading(s: Seq<char>) -> Seq<char>
    decreases s.len(),
{
    if s.len() > 0 && is_white(s[0]) {
        without_leading(s.skip(1))
    } else {
        s
    }
}

/// `s` without the white space at its end.
pub open spec fn without_trailing(s: Seq<char>) -> Seq<char>
    decreases s.len(),
{
    if s.len() > 0 && is_white(s.last()) {
        without_trailing(s.drop_last())
    } else {
        s
    }
}

/// `s` without white space at either end.
pub open spec fn trimmed(s: Seq<char>) -> Seq<char> {
    without_trailing(without_leading(s))
}

/// Whether `c` has Unicode's `White_Space` property.
pub fn white(c: char) -> (r: bool)
    ensures
        r == is_white(c),
{
    let code: u32 = c as u32;
    (0x09 <= code && code <= 0x0d) || code == 0x20 || code == 0x85 || code == 0xa0 || code == 0x1680
        || (0x2000 <= code && code <= 0x200a) || code == 0x2028 || code == 0x2029 || code == 0x202f
        || code == 0x205f || code == 0x3000
}

/// `chars` without the white space at its end.
pub fn trim_end_chars(chars: &[char]) -> (out: Vec<char>)
    ensures
        out@ == without_trailing(chars@),
{
    let mut to: usize = chars.len();
    assert(chars@.take(to as int) =~= chars@);
    while to > 0 && white(chars[to - 1])
        invariant
            to <= chars@.len(),
            without_trailing(chars@) == without_trailing(chars@.take(to as int)),
        decreases to,
    {
        assert(chars@.take(to as int).drop_last() =~= chars@.take(to - 1));
        to -= 1;
    }
    let mut out: Vec<char> = Vec::new();
    for i in 0..to
        invariant
            to <= chars@.len(),
            out@ == chars@.take(i as int),
    {
        out.push(chars[i]);
        assert(chars@.take(i + 1) =~= chars@.take(i as int).push(chars@[i as int]));
    }
    out
}

/// `chars` without white space at either end.
pub fn trim_chars(chars: &[char]) -> (out: Vec<char>)
    ensures
        out@ == trimmed(chars@),
{
    let n: usize = chars.len();
    let mut from: usize = 0;
    assert(chars@.skip(0) =~= chars@);
    while from < n && white(chars[from])
        invariant
            n == chars@.len(),
            from <= n,
            without_leading(chars@) == without_leading(chars@.skip(from as int)),
        decreases n - from,
    {
        assert(chars@.skip(from as int).skip(1) =~= chars@.skip(from + 1));
        from += 1;
    }
    let mut rest: Vec<char> = Vec::new();
    for i in from..n
        invariant
            n == chars@.len(),
            from <= n,
            rest@ == chars@.subrange(from as int, i as int),
    {
        rest.push(chars[i]);
        assert(chars@.subrange(from as int, i + 1) =~= chars@.subrange(from as int, i as int).push(
            chars@[i as int],
        ));
    }
    assert(chars@.subrange(from as int, n as int) =~= chars@.skip(from as int));
    trim_end_chars(&rest)
}

/// `s` without white space at either end.
pub fn trim(s: &str) -> (out: String)
    ensures
        out@ == trimmed(s@),
{
    let chars: Vec<char> = chars_of(s);
    let kept: Vec<char> = trim_chars(&chars);
    string_of(&kept)
}

/// Whether every character is white space.
pub open spec fn all_white(s: Seq<char>) -> bool {
    forall|i: int| 0 <= i < s.len() ==> is_white(#[trigger] s[i])
}

proof fn lemma_leading(s: Seq<char>)
    ensures
        without_leading(s).len() <= s.len(),
        without_leading(s) == s.skip(s.len() - without_leading(s).len()),
        all_white(s.take(s.len() - without_leading(s).len())),
        without_leading(s).len() > 0 ==> !is_white(without_leading(s)[0]),
    decreases s.len(),
{
    if s.len() > 0 && is_white(s[0]) {
        let rest = s.skip(1);
        lemma_leading(rest);
        let k = rest.len() - without_leading(rest).len();
        assert(s.skip(k + 1) =~= rest.skip(k));
        assert forall|i: int| 0 <= i < k + 1 implies is_white(#[trigger] s.take(k + 1)[i]) by {
            if i > 0 {
                assert(rest.take(k)[i - 1] == s[i]);
            }
        }
    } else {
        assert(s.skip(0) =~= s);
    }
}

/// White space is taken off the end, all of it and nothing else.
pub proof fn only_white_space_is_taken_off_the_end(s: Seq<char>)
    ensures
        without_trailing(s).len() <= s.len(),
        without_trailing(s) == s.take(without_trailing(s).len() as int),
        all_white(s.skip(without_trailing(s).len() as int)),
        without_trailing(s).len() > 0 ==> !is_white(without_trailing(s).last()),
    decreases s.len(),
{
    let k = without_trailing(s).len() as int;
    if s.len() > 0 && is_white(s.last()) {
        let init = s.drop_last();
        only_white_space_is_taken_off_the_end(init);
        assert(init.take(k) =~= s.take(k));
        assert forall|i: int| 0 <= i < s.skip(k).len() implies is_white(
            #[trigger] s.skip(k)[i],
        ) by {
            if i < init.len() - k {
                assert(init.skip(k)[i] == s[k + i]);
            }
        }
    } else {
        assert(s.take(k) =~= s);
    }
}

/// Trimming takes white space off both ends, all of it and nothing else: what is left
/// stands in the text with white space alone before and behind it, and neither begins
/// nor ends with any.
pub proof fn trimming_takes_only_white_space_off(s: Seq<char>)
    ensures
        exists|from: int|
            0 <= from && from + trimmed(s).len() <= s.len() && trimmed(s) == #[trigger] s.subrange(
                from,
                from + trimmed(s).len(),
            ) && all_white(s.take(from)) && all_white(s.skip(from + trimmed(s).len())),
        trimmed(s).len() > 0 ==> !is_white(trimmed(s)[0]) && !is_white(trimmed(s).last()),
        trimmed(s).len() == 0 <==> all_white(s),
{
    let rest = without_leading(s);
    let kept = trimmed(s);
    lemma_leading(s);
    only_white_space_is_taken_off_the_end(rest);
    let from = s.len() - rest.len();
    let to = from + kept.len();
    assert(kept =~= s.subrange(from, to));
    assert(s.skip(to) =~= rest.skip(kept.len() as int));
    if kept.len() == 0 {
        assert forall|i: int| 0 <= i < s.len() implies is_white(#[trigger] s[i]) by {
            if i < from {
                assert(s.take(from)[i] == s[i]);
            } else {
                assert(rest.skip(0)[i - from] == s[i]);
            }
        }
    } else {
        assert(s[from] == kept[0]);
        assert(rest[0] == kept[0]);
    }
}

/// The blank, the tab and the characters that break a line or a page are white space; no
/// character that ASCII prints is.
pub proof fn what_prints_is_not_white(c: char)
    ensures
        c == ' ' || c == '\t' || c == '\n' || c == '\r' ==> is_white(c),
        '!' <= c <= '~' ==> !is_white(c),
        (c as u32) < 0x20 && is_white(c) ==> 0x09 <= c as u32 <= 0x0d,
{
}

} // verus!
