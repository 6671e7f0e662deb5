//! Task slices: one task per line, `#` comments.

use vstd::prelude::*;
use crate::lines;
use crate::place;
use crate::text;

verus! {

/// What a line of a slice names: its text before any `#`, without white space
/// round it.
pub open spec fn named(line: Seq<char>) -> Seq<char> {
    text::trimmed(lines::pieces(line, '#')[0])
}

/// The tasks that the lines name, in order; a line that names none adds none.
pub open spec fn names_in(all: Seq<Seq<char>>) -> Seq<Seq<char>>
    decreases all.len(),
{
    if all.len() == 0 {
        Seq::empty()
    } else {
        let before = names_in(all.drop_last());
        if named(all.last()).len() == 0 {
            before
        } else {
            before.push(named(all.last()))
        }
    }
}

/// The tasks that a slice's text names.
pub open spec fn tasks_in(slice: Seq<char>) -> Seq<Seq<char>> {
    names_in(lines::lines_of(slice))
}

/// The file of a slice.
pub fn path(root: &str, name: &str) -> (out: String)
    ensures
        out@ == place::below(
            place::below(place::below(root@, "harness"@), "slices"@),
            name@ + ".txt"@,
        ),
{
    let harness: String = place::join(root, "harness");
    let slices: String = place::join(harness.as_str(), "slices");
    let mut file: String = name.to_owned();
    file.append(".txt");
    place::join(slices.as_str(), file.as_str())
}

/// The tasks that a slice's text names; an error where it names none.
pub fn read(path: &str, slice: &str) -> (out: Result<Vec<String>, String>)
    ensures
        out is Ok <==> tasks_in(slice@).len() > 0,
        out matches Ok(tasks) ==> text::views(tasks@) == tasks_in(slice@),
        out matches Err(message) ==> message@ == path@ + " names no tasks"@,
{
    let cut: Vec<String> = lines::lines(slice);
    let ghost all = lines::lines_of(slice@);
    let n: usize = cut.len();
    let mut tasks: Vec<String> = Vec::new();
    assert(text::views(tasks@) =~= names_in(all.take(0)));
    for i in 0..n
        invariant
            n == cut@.len(),
            all == text::views(cut@),
            text::views(tasks@) == names_in(all.take(i as int)),
    {
        proof {
            assert(all.take(i + 1).drop_last() =~= all.take(i as int));
            assert(all.take(i + 1).last() == cut@[i as int]@);
            lines::lemma_pieces_some(cut@[i as int]@, '#');
        }
        let parts: Vec<String> = lines::split(cut[i].as_str(), '#');
        assert(text::views(parts@)[0] == parts@[0]@);
        let task: String = text::trim(parts[0].as_str());
        if !task.as_str().is_empty() {
            proof {
                text::lemma_views_push(tasks@, task);
            }
            tasks.push(task);
        }
    }
    assert(all.take(n as int) =~= all);
    assert(text::views(tasks@).len() == tasks@.len());
    if tasks.len() == 0 {
        let mut message: String = path.to_owned();
        message.append(" names no tasks");
        return Err(message);
    }
    Ok(tasks)
}

/// A slice names a task on each line that has more than a comment and white space, in
/// the order of the lines, and none twice for one line.
pub proof fn every_line_names_its_task(all: Seq<Seq<char>>)
    ensures
        names_in(all) == all.map_values(|line: Seq<char>| named(line)).filter(
            |name: Seq<char>| name.len() > 0,
        ),
    decreases all.len(),
{
    reveal(Seq::filter);
    let texts = all.map_values(|line: Seq<char>| named(line));
    if all.len() > 0 {
        every_line_names_its_task(all.drop_last());
        assert(texts.drop_last() =~= all.drop_last().map_values(|line: Seq<char>| named(line)));
    } else {
        assert(texts =~= Seq::empty());
    }
}

proof fn lemma_one_piece(line: Seq<char>)
    requires
        !line.contains('#'),
    ensures
        lines::pieces(line, '#') == seq![line],
    decreases line.len(),
{
    if line.len() > 0 {
        let init = line.drop_last();
        if init.contains('#') {
            let i = choose|i: int| 0 <= i < init.len() && init[i] == '#';
            assert(line[i] == '#');
        }
        assert(line[line.len() - 1] != '#');
        lemma_one_piece(init);
        let before = lines::pieces(init, '#');
        assert(before.drop_last() =~= Seq::empty());
        assert(before.last() == init);
        assert(init.push(line.last()) =~= line);
        assert(lines::pieces(line, '#') =~= seq![line]);
    } else {
        assert(line =~= Seq::empty());
    }
}

proof fn lemma_first_piece(line: Seq<char>, more: Seq<char>)
    requires
        more.len() > 0,
        more[0] == '#',
    ensures
        lines::pieces(line + more, '#').len() > 1,
        lines::pieces(line + more, '#')[0] == lines::pieces(line, '#')[0],
    decreases more.len(),
{
    let fewer = more.drop_last();
    lines::lemma_pieces_some(line, '#');
    assert((line + more).drop_last() =~= line + fewer);
    if fewer.len() > 0 {
        assert(fewer[0] == more[0]);
        lemma_first_piece(line, fewer);
    } else {
        assert(line + fewer =~= line);
    }
}

/// What follows a `#` names nothing: a line with a comment names what it names without.
pub proof fn comments_name_nothing(line: Seq<char>, comment: Seq<char>)
    ensures
        named(line + "#"@ + comment) == named(line),
        !line.contains('#') ==> named(line) == text::trimmed(line),
{
    reveal_strlit("#");
    let more = "#"@ + comment;
    assert(line + "#"@ + comment =~= line + more);
    lemma_first_piece(line, more);
    if !line.contains('#') {
        lemma_one_piece(line);
    }
}

} // verus!
