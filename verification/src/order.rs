//! The order of texts, and stable sorting.

use vstd::prelude::*;
use crate::text;

verus! {

/// Whether `a` comes before `b`: character by character, a prefix first.
pub open spec fn before(a: Seq<char>, b: Seq<char>) -> bool
    decreases a.len(),
{
    if b.len() == 0 {
        false
    } else if a.len() == 0 {
        true
    } else if a[0] == b[0] {
        before(a.skip(1), b.skip(1))
    } else {
        (a[0] as u32) < (b[0] as u32)
    }
}

pub proof fn lemma_before_irreflexive(a: Seq<char>)
    ensures
        !before(a, a),
    decreases a.len(),
{
    if a.len() > 0 {
        lemma_before_irreflexive(a.skip(1));
    }
}

pub proof fn lemma_before_transitive(a: Seq<char>, b: Seq<char>, c: Seq<char>)
    requires
        before(a, b),
        before(b, c),
    ensures
        before(a, c),
    decreases a.len(),
{
    if a.len() > 0 && a[0] == b[0] && b[0] == c[0] {
        lemma_before_transitive(a.skip(1), b.skip(1), c.skip(1));
    }
}

/// Two texts of which neither comes before the other are the same.
pub proof fn lemma_before_total(a: Seq<char>, b: Seq<char>)
    ensures
        before(a, b) || before(b, a) || a == b,
    decreases a.len(),
{
    if a.len() == 0 || b.len() == 0 {
        if a.len() == 0 && b.len() == 0 {
            assert(a =~= b);
        }
    } else if a[0] == b[0] {
        lemma_before_total(a.skip(1), b.skip(1));
        if a.skip(1) == b.skip(1) {
            assert(a =~= seq![a[0]] + a.skip(1));
            assert(b =~= seq![b[0]] + b.skip(1));
        }
    } else {
        vstd::utf8::char_u32_cast(a[0], a[0] as u32);
        vstd::utf8::char_u32_cast(b[0], b[0] as u32);
    }
}

/// Whether `a` comes before `b`.
pub fn comes_before(a: &str, b: &str) -> (r: bool)
    ensures
        r == before(a@, b@),
{
    let x: Vec<char> = text::chars_of(a);
    let y: Vec<char> = text::chars_of(b);
    let n: usize = x.len();
    let m: usize = y.len();
    let mut i: usize = 0;
    assert(x@.skip(0) =~= x@);
    assert(y@.skip(0) =~= y@);
    loop
        invariant
            n == x@.len(),
            m == y@.len(),
            x@ == a@,
            y@ == b@,
            i <= n,
            i <= m,
            before(a@, b@) == before(x@.skip(i as int), y@.skip(i as int)),
        decreases n - i,
    {
        if i == m {
            return false;
        }
        if i == n {
            return true;
        }
        let p: char = x[i];
        let q: char = y[i];
        if p != q {
            let r: bool = (p as u32) < (q as u32);
            return r;
        }
        assert(x@.skip(i as int).skip(1) =~= x@.skip(i + 1));
        assert(y@.skip(i as int).skip(1) =~= y@.skip(i + 1));
        i += 1;
    }
}

/// Values with an order in which some may be level with each other.
pub trait Ranked: Sized {
    /// Whether `a` belongs before `b`.
    spec fn precedes(a: &Self, b: &Self) -> bool;

    proof fn lemma_not_both(a: &Self, b: &Self)
        ensures
            !(Self::precedes(a, b) && Self::precedes(b, a)),
    ;

    /// Where `b` does not belong before `a`, nor `c` before `b`, `c` does not
    /// belong before `a`.
    proof fn lemma_chain(a: &Self, b: &Self, c: &Self)
        requires
            !Self::precedes(b, a),
            !Self::precedes(c, b),
        ensures
            !Self::precedes(c, a),
    ;

    fn ranks_before(&self, other: &Self) -> (r: bool)
        ensures
            r == Self::precedes(self, other),
    ;
}

/// How many elements at the front of `list` belong before `item`.
pub open spec fn slot<T: Ranked>(item: T, list: Seq<T>) -> int
    decreases list.len(),
{
    if list.len() == 0 || !T::precedes(&list[0], &item) {
        0
    } else {
        1 + slot(item, list.skip(1))
    }
}

/// `items` in order; what is level keeps the order it had.
pub open spec fn ordered<T: Ranked>(items: Seq<T>) -> Seq<T>
    decreases items.len(),
{
    if items.len() == 0 {
        items
    } else {
        let rest = ordered(items.skip(1));
        rest.insert(slot(items[0], rest), items[0])
    }
}

/// No element of `list` belongs before an earlier one.
pub open spec fn in_order<T: Ranked>(list: Seq<T>) -> bool {
    forall|i: int, j: int| 0 <= i < j < list.len() ==> !T::precedes(&list[j], &list[i])
}

proof fn lemma_slot<T: Ranked>(item: T, list: Seq<T>)
    ensures
        0 <= slot(item, list) <= list.len(),
        forall|j: int| 0 <= j < slot(item, list) ==> T::precedes(#[trigger] &list[j], &item),
        slot(item, list) < list.len() ==> !T::precedes(&list[slot(item, list)], &item),
    decreases list.len(),
{
    if list.len() == 0 || !T::precedes(&list[0], &item) {
    } else {
        let rest = list.skip(1);
        lemma_slot(item, rest);
        assert forall|j: int| 0 <= j < slot(item, list) implies T::precedes(
            #[trigger] &list[j],
            &item,
        ) by {
            if j > 0 {
                assert(list[j] == rest[j - 1]);
            }
        }
        if slot(item, list) < list.len() {
            assert(list[slot(item, list)] == rest[slot(item, rest)]);
        }
    }
}

/// Sorting puts every element in its place and neither adds nor loses one.
pub proof fn lemma_ordered<T: Ranked>(items: Seq<T>)
    ensures
        in_order(ordered(items)),
        ordered(items).to_multiset() == items.to_multiset(),
        ordered(items).len() == items.len(),
    decreases items.len(),
{
    broadcast use vstd::seq_lib::group_to_multiset_ensures;

    if items.len() > 0 {
        let item = items[0];
        let rest = ordered(items.skip(1));
        lemma_ordered(items.skip(1));
        lemma_slot(item, rest);
        let k = slot(item, rest);
        let out = ordered(items);
        assert(items =~= items.skip(1).insert(0, item));
        vstd::seq_lib::to_multiset_insert(items.skip(1), 0, item);
        vstd::seq_lib::to_multiset_insert(rest, k, item);
        assert forall|i: int, j: int| 0 <= i < j < out.len() implies !T::precedes(
            &out[j],
            &out[i],
        ) by {
            if i < k && j == k {
                T::lemma_not_both(&rest[i], &item);
            } else if i == k {
                assert(out[j] == rest[j - 1]);
                if j - 1 > k {
                    assert(!T::precedes(&rest[j - 1], &rest[k]));
                    T::lemma_chain(&item, &rest[k], &rest[j - 1]);
                }
            } else if i < k && j > k {
                assert(out[i] == rest[i] && out[j] == rest[j - 1]);
            } else if i > k {
                assert(out[i] == rest[i - 1] && out[j] == rest[j - 1]);
            }
        }
    }
}

/// Whether neither belongs before the other.
pub open spec fn level<T: Ranked>(a: T, b: T) -> bool {
    !T::precedes(&a, &b) && !T::precedes(&b, &a)
}

/// The items that are level with `item`, in the order in which they stand.
pub open spec fn level_with<T: Ranked>(item: T, items: Seq<T>) -> Seq<T>
    decreases items.len(),
{
    if items.len() == 0 {
        items
    } else if level(items[0], item) {
        seq![items[0]] + level_with(item, items.skip(1))
    } else {
        level_with(item, items.skip(1))
    }
}

proof fn lemma_level_insert<T: Ranked>(item: T, list: Seq<T>, k: int, new: T)
    requires
        0 <= k <= list.len(),
        level(new, item) ==> forall|j: int| 0 <= j < k ==> !level(#[trigger] list[j], item),
    ensures
        level_with(item, list.insert(k, new)) == if level(new, item) {
            seq![new] + level_with(item, list)
        } else {
            level_with(item, list)
        },
    decreases list.len(),
{
    let all = list.insert(k, new);
    if k == 0 {
        assert(all[0] == new);
        assert(all.skip(1) =~= list);
    } else {
        assert(all[0] == list[0]);
        assert(all.skip(1) =~= list.skip(1).insert(k - 1, new));
        assert forall|j: int| 0 <= j < k - 1 && level(new, item) implies !level(
            #[trigger] list.skip(1)[j],
            item,
        ) by {
            assert(list.skip(1)[j] == list[j + 1]);
        }
        lemma_level_insert(item, list.skip(1), k - 1, new);
    }
}

/// What is level keeps the order it had: the items level with any one of them are
/// the same list before and after.
pub proof fn level_items_keep_their_order<T: Ranked>(items: Seq<T>, item: T)
    ensures
        level_with(item, ordered(items)) == level_with(item, items),
    decreases items.len(),
{
    if items.len() > 0 {
        let new = items[0];
        let rest = ordered(items.skip(1));
        level_items_keep_their_order(items.skip(1), item);
        lemma_slot(new, rest);
        if level(new, item) {
            assert forall|j: int| 0 <= j < slot(new, rest) implies !level(
                #[trigger] rest[j],
                item,
            ) by {
                if level(rest[j], item) {
                    T::lemma_chain(&new, &item, &rest[j]);
                    assert(T::precedes(&rest[j], &new));
                }
            }
        }
        lemma_level_insert(item, rest, slot(new, rest), new);
    }
}

/// The items in order; what is level keeps the order it had.
pub fn sort<T: Ranked>(items: Vec<T>) -> (out: Vec<T>)
    ensures
        out@ == ordered(items@),
        in_order(out@),
        out@.to_multiset() == items@.to_multiset(),
{
    let ghost all = items@;
    let mut left: Vec<T> = items;
    let mut out: Vec<T> = Vec::new();
    assert(all.skip(all.len() as int) =~= out@);
    assert(all.take(all.len() as int) =~= all);
    while left.len() > 0
        invariant
            left@.len() <= all.len(),
            left@ == all.take(left@.len() as int),
            out@ == ordered(all.skip(left@.len() as int)),
        decreases left.len(),
    {
        let ghost k = left@.len() as int;
        match left.pop() {
            None => {},
            Some(item) => {
                let mut at: usize = 0;
                let ghost rest = out@;
                assert(rest.skip(0) =~= rest);
                proof {
                    lemma_slot(item, rest);
                }
                while at < out.len() && out[at].ranks_before(&item)
                    invariant
                        out@ == rest,
                        at <= rest.len(),
                        slot(item, rest) == at + slot(item, rest.skip(at as int)),
                    decreases rest.len() - at,
                {
                    assert(rest.skip(at as int).skip(1) =~= rest.skip(at + 1));
                    at += 1;
                }
                proof {
                    assert(item == all[k - 1]);
                    assert(left@ =~= all.take(k - 1));
                    assert(all.skip(k - 1).skip(1) =~= all.skip(k));
                    assert(at == slot(item, rest));
                }
                out.insert(at, item);
            },
        }
    }
    assert(all.skip(0) =~= all);
    proof {
        lemma_ordered(all);
    }
    out
}

/// A text comes before another where the two first differ and it has the lesser
/// character there, or where it is the other's beginning.
pub proof fn the_first_difference_decides(a: Seq<char>, b: Seq<char>, k: int)
    requires
        0 <= k <= a.len(),
        k <= b.len(),
        forall|i: int| 0 <= i < k ==> a[i] == b[i],
    ensures
        k == a.len() && k < b.len() ==> before(a, b),
        k == b.len() ==> !before(a, b),
        k < a.len() && k < b.len() && a[k] != b[k] ==> (before(a, b) <==> (a[k] as u32) < (
        b[k] as u32)),
    decreases k,
{
    if k > 0 {
        let x = a.skip(1);
        let y = b.skip(1);
        assert forall|i: int| 0 <= i < k - 1 implies x[i] == y[i] by {
            assert(a[i + 1] == b[i + 1]);
        }
        the_first_difference_decides(x, y, k - 1);
    }
}

} // verus!
