//! Paths, as Unix reads them.

use vstd::prelude::*;
use crate::lines;
use crate::text;

verus! {

/// `part` below `base`: `part` alone where it is absolute or there is no base.
pub open spec fn below(base: Seq<char>, part: Seq<char>) -> Seq<char> {
    if base.len() == 0 || (part.len() > 0 && part[0] == '/') {
        part
    } else if base.last() == '/' {
        base + part
    } else {
        base.push('/') + part
    }
}

/// The names among the pieces of a path: the pieces that are neither empty nor
/// a single dot.
pub open spec fn kept_names(pieces: Seq<Seq<char>>) -> Seq<Seq<char>>
    decreases pieces.len(),
{
    if pieces.len() == 0 {
        Seq::empty()
    } else {
        let before = kept_names(pieces.drop_last());
        if pieces.last().len() == 0 || pieces.last() == "."@ {
            before
        } else {
            before.push(pieces.last())
        }
    }
}

/// The names that a path is made of.
pub open spec fn names(path: Seq<char>) -> Seq<Seq<char>> {
    kept_names(lines::pieces(path, '/'))
}

/// The last name of a path, unless it leads upwards.
pub open spec fn last_name(path: Seq<char>) -> Option<Seq<char>> {
    let all = names(path);
    if all.len() == 0 || all.last() == ".."@ {
        None
    } else {
        Some(all.last())
    }
}

/// `part` below `base`.
pub fn join(base: &str, part: &str) -> (out: String)
    ensures
        out@ == below(base@, part@),
{
    let absolute: bool = text::begins_with_char(part, '/');
    if base.is_empty() || absolute {
        return part.to_owned();
    }
    let mut out: String = base.to_owned();
    if !text::ends_with_char(base, '/') {
        out.push('/');
    }
    out.append(part);
    out
}

/// The names that a path is made of.
pub fn split_names(path: &str) -> (out: Vec<String>)
    ensures
        text::views(out@) == names(path@),
{
    let cut: Vec<String> = lines::split(path, '/');
    let ghost all = lines::pieces(path@, '/');
    let n: usize = cut.len();
    let mut out: Vec<String> = Vec::new();
    assert(text::views(out@) =~= kept_names(all.take(0)));
    for i in 0..n
        invariant
            n == cut@.len(),
            all == text::views(cut@),
            text::views(out@) == kept_names(all.take(i as int)),
    {
        let ghost before = out@;
        proof {
            assert(all.take(i + 1).drop_last() =~= all.take(i as int));
            assert(all.take(i + 1).last() == cut@[i as int]@);
        }
        let piece: &str = cut[i].as_str();
        if !piece.is_empty() && !text::same(piece, ".") {
            out.push(cut[i].clone());
            proof {
                text::lemma_views_push(before, cut@[i as int]);
            }
        }
    }
    assert(all.take(n as int) =~= all);
    out
}

/// The last name of a path, unless it leads upwards.
pub fn file_name(path: &str) -> (out: Option<String>)
    ensures
        text::opt(out) == last_name(path@),
{
    let all: Vec<String> = split_names(path);
    let n: usize = all.len();
    if n == 0 {
        return None;
    }
    assert(text::views(all@).last() == all@[n - 1]@);
    if text::same(all[n - 1].as_str(), "..") {
        None
    } else {
        Some(all[n - 1].clone())
    }
}

proof fn lemma_names(pieces: Seq<Seq<char>>)
    ensures
        kept_names(pieces) == pieces.filter(
            |piece: Seq<char>| piece.len() > 0 && piece != "."@,
        ),
    decreases pieces.len(),
{
    reveal(Seq::filter);
    if pieces.len() > 0 {
        lemma_names(pieces.drop_last());
    } else {
        assert(pieces =~= Seq::empty());
    }
}

/// A path's names are what its slashes part, in order, without what is empty or a single
/// dot; its last name is the last of them, and it has none where it ends by leading
/// upwards.
pub proof fn slashes_part_the_names(path: Seq<char>)
    ensures
        names(path) == lines::pieces(path, '/').filter(
            |piece: Seq<char>| piece.len() > 0 && piece != "."@,
        ),
        last_name(path) is None <==> names(path).len() == 0 || names(path).last() == ".."@,
        last_name(path) matches Some(name) ==> name == names(path).last(),
{
    lemma_names(lines::pieces(path, '/'));
}

/// An absolute part stands alone, and so does one below nothing; any other stands behind
/// its base, parted from it by one slash.
pub proof fn a_part_stands_below_its_base(base: Seq<char>, part: Seq<char>)
    ensures
        part.len() > 0 && part[0] == '/' ==> below(base, part) == part,
        below(Seq::empty(), part) == part,
        base.len() > 0 && (part.len() == 0 || part[0] != '/') ==> {
            let whole = below(base, part);
            &&& base.is_prefix_of(whole)
            &&& whole.skip(whole.len() - part.len()) == part
            &&& whole[whole.len() - part.len() - 1] == '/'
            &&& whole.len() == base.len() + part.len() + (if base.last() == '/' {
                0int
            } else {
                1int
            })
        },
{
    let whole = below(base, part);
    if base.len() > 0 && (part.len() == 0 || part[0] != '/') {
        assert(whole.subrange(0, base.len() as int) =~= base);
        assert(whole.skip(whole.len() - part.len()) =~= part);
    }
}

} // verus!
