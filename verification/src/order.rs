//! Putting pages into reading order.
//!
//! Pages are made in any order. Reading order is set up afterwards, by the
//! index and the half of each page alone; pages in the same place keep the
//! order in which they came.

use vstd::prelude::*;

verus! {

/// Something with a place in the book: an index, and a rank among the
/// things of one index.
pub trait Placed: Sized {
    /// The index: what decides first.
    spec fn index(&self) -> nat;

    /// The rank: what decides among things of one index.
    spec fn rank(&self) -> int;

    /// Whether `self` is read before `other`.
    fn stands_before(&self, other: &Self) -> (before: bool)
        ensures
            before == (self.index() < other.index() || (self.index() == other.index()
                && self.rank() < other.rank())),
    ;
}

/// `a` is read before `b`: it has the smaller index, or the same index and
/// the smaller rank.
pub open spec fn precedes<T: Placed>(a: T, b: T) -> bool {
    a.index() < b.index() || (a.index() == b.index() && a.rank() < b.rank())
}

/// Neither is read before the other: same index, same rank.
pub open spec fn same_place<T: Placed>(a: T, b: T) -> bool {
    a.index() == b.index() && a.rank() == b.rank()
}

/// No page of the sequence stands after one that it precedes.
pub open spec fn in_reading_order<T: Placed>(pages: Seq<T>) -> bool {
    forall|i: int, j: int|
        0 <= i < j < pages.len() ==> !precedes(#[trigger] pages[j], #[trigger] pages[i])
}

/// The pages with the given index and rank.
pub open spec fn at_place<T: Placed>(index: nat, rank: int) -> spec_fn(T) -> bool {
    |page: T| page.index() == index && page.rank() == rank
}

/// `after` holds the pages of `before`, and those in the same place in the
/// same order.
pub open spec fn keeps_pages<T: Placed>(before: Seq<T>, after: Seq<T>) -> bool {
    forall|index: nat, rank: int|
        before.filter(#[trigger] at_place::<T>(index, rank)) == after.filter(
            at_place::<T>(index, rank),
        )
}

/// `after` is `before` in reading order: the same pages, none after one
/// that it precedes, and those in the same place in the order they had.
pub open spec fn is_ordering_of<T: Placed>(after: Seq<T>, before: Seq<T>) -> bool {
    &&& after.to_multiset() == before.to_multiset()
    &&& in_reading_order(after)
    &&& keeps_pages(before, after)
}

/// Filtering a sequence with one more element in it.
pub proof fn lemma_filter_insert<A>(s: Seq<A>, at: int, x: A, pred: spec_fn(A) -> bool)
    requires
        0 <= at <= s.len(),
    ensures
        s.filter(pred) == s.take(at).filter(pred) + s.skip(at).filter(pred),
        s.insert(at, x).filter(pred) == s.take(at).filter(pred) + (if pred(x) {
            seq![x]
        } else {
            Seq::<A>::empty()
        }) + s.skip(at).filter(pred),
{
    let one = seq![x];
    assert(s =~= s.take(at) + s.skip(at));
    assert(s.insert(at, x) =~= (s.take(at) + one) + s.skip(at));
    Seq::filter_distributes_over_add(s.take(at), s.skip(at), pred);
    Seq::filter_distributes_over_add(s.take(at) + one, s.skip(at), pred);
    Seq::filter_distributes_over_add(s.take(at), one, pred);
    assert(one.filter(pred) =~= if pred(x) {
        one
    } else {
        Seq::<A>::empty()
    }) by {
        reveal_with_fuel(Seq::filter, 2);
        assert(one.drop_last() =~= Seq::<A>::empty());
    }
}

/// Filtering a sequence whose elements all fail the test leaves nothing.
pub proof fn lemma_filter_none<A>(s: Seq<A>, pred: spec_fn(A) -> bool)
    requires
        forall|i: int| 0 <= i < s.len() ==> !pred(#[trigger] s[i]),
    ensures
        s.filter(pred) == Seq::<A>::empty(),
{
    assert(s.all(|x: A| !pred(x)));
    s.lemma_all_neg_filter_empty(pred);
    assert(s.filter(pred) =~= Seq::<A>::empty());
}

/// Puts the pages into reading order. Pages in the same place keep the
/// order in which they stand in `pages`.
pub fn order<T: Placed>(pages: Vec<T>) -> (ordered: Vec<T>)
    ensures
        is_ordering_of(ordered@, pages@),
        ordered@.len() == pages@.len(),
{
    let ghost given = pages@;
    let mut rest = pages;
    let mut ordered: Vec<T> = Vec::new();
    proof {
        assert(ordered@ =~= Seq::<T>::empty());
        broadcast use vstd::seq_lib::group_to_multiset_ensures;

        assert(given.to_multiset() =~= rest@.to_multiset().add(
            ordered@.to_multiset(),
        ));
        assert forall|index: nat, rank: int|
            given.filter(#[trigger] at_place::<T>(index, rank)) == rest@.filter(
                at_place::<T>(index, rank),
            ) + ordered@.filter(at_place::<T>(index, rank)) by {
            lemma_filter_none(ordered@, at_place::<T>(index, rank));
        }
    }
    while rest.len() > 0
        invariant
            in_reading_order(ordered@),
            rest@.len() + ordered@.len() == given.len(),
            given.to_multiset() == rest@.to_multiset().add(ordered@.to_multiset()),
            forall|index: nat, rank: int|
                given.filter(#[trigger] at_place::<T>(index, rank)) == rest@.filter(
                    at_place::<T>(index, rank),
                ) + ordered@.filter(at_place::<T>(index, rank)),
        decreases rest@.len(),
    {
        let ghost rest_before = rest@;
        let ghost ordered_before = ordered@;
        let page = rest.pop().unwrap();
        let mut at: usize = 0;
        while at < ordered.len() && ordered[at].stands_before(&page)
            invariant
                at <= ordered@.len(),
                ordered_before == ordered@,
                forall|k: int| 0 <= k < at ==> precedes(#[trigger] ordered_before[k], page),
            decreases ordered@.len() - at,
        {
            at += 1;
        }
        ordered.insert(at, page);
        proof {
            let now = ordered@;
            let left = rest@;
            assert(now =~= ordered_before.insert(at as int, page));
            assert(rest_before =~= left.push(page));
            assert(left.push(page) =~= left.insert(left.len() as int, page));
            assert(left.take(left.len() as int) =~= left);
            assert(left.skip(left.len() as int) =~= Seq::<T>::empty());
            assert(given.to_multiset() =~= left.to_multiset().add(now.to_multiset())) by {
                vstd::seq_lib::to_multiset_insert(ordered_before, at as int, page);
                vstd::seq_lib::to_multiset_build(left, page);
            }
            assert forall|index: nat, rank: int|
                given.filter(#[trigger] at_place::<T>(index, rank)) == left.filter(
                    at_place::<T>(index, rank),
                ) + now.filter(at_place::<T>(index, rank)) by {
                let pred = at_place::<T>(index, rank);
                lemma_filter_insert(ordered_before, at as int, page, pred);
                lemma_filter_insert(left, left.len() as int, page, pred);
                lemma_filter_none(Seq::<T>::empty(), pred);
                if pred(page) {
                    lemma_filter_none(ordered_before.take(at as int), pred);
                }
                assert(given.filter(pred) =~= left.filter(pred) + now.filter(pred));
            }
            assert forall|i: int, j: int| 0 <= i < j < now.len() implies !precedes(
                #[trigger] now[j],
                #[trigger] now[i],
            ) by {
                if j == at {
                    assert(precedes(ordered_before[i], page));
                } else if i == at {
                    assert(!precedes(ordered_before[j - 1], ordered_before[at as int]) || j - 1
                        == at);
                } else if i < at {
                    assert(!precedes(ordered_before[j - 1], ordered_before[i]));
                } else {
                    assert(!precedes(ordered_before[j - 1], ordered_before[i - 1]));
                }
            }
        }
    }
    proof {
        assert(rest@ =~= Seq::<T>::empty());
        broadcast use vstd::seq_lib::group_to_multiset_ensures;

        assert(given.to_multiset() =~= ordered@.to_multiset());
        assert forall|index: nat, rank: int|
            given.filter(#[trigger] at_place::<T>(index, rank)) == ordered@.filter(
                at_place::<T>(index, rank),
            ) by {
            lemma_filter_none(rest@, at_place::<T>(index, rank));
            assert(Seq::<T>::empty() + ordered@.filter(at_place::<T>(index, rank))
                =~= ordered@.filter(at_place::<T>(index, rank)));
        }
    }
    ordered
}

/// In reading order a page stands before every page that it precedes: the
/// page with the smaller index first, and of two with the same index the
/// one with the earlier half.
pub proof fn lemma_preceding_page_stands_earlier<T: Placed>(pages: Seq<T>, i: int, j: int)
    requires
        in_reading_order(pages),
        0 <= i < pages.len(),
        0 <= j < pages.len(),
        precedes(pages[i], pages[j]),
    ensures
        i < j,
{
    if j < i {
        assert(!precedes(pages[i], pages[j]));
    }
}

/// What the last element adds to a filtered sequence.
pub proof fn lemma_filter_last<A>(s: Seq<A>, pred: spec_fn(A) -> bool)
    requires
        s.len() > 0,
    ensures
        s.filter(pred) == if pred(s.last()) {
            s.drop_last().filter(pred).push(s.last())
        } else {
            s.drop_last().filter(pred)
        },
{
    reveal(Seq::filter);
}

/// Two sequences in reading order that hold, for every place, the same
/// pages in the same order end with the same page.
proof fn lemma_same_last<T: Placed>(a: Seq<T>, b: Seq<T>)
    requires
        in_reading_order(a),
        in_reading_order(b),
        keeps_pages(a, b),
        a.len() > 0,
    ensures
        b.len() > 0,
        a.last() == b.last(),
{
    let x = a.last();
    let here = at_place::<T>(x.index(), x.rank());
    assert(here(x));
    lemma_filter_last(a, here);
    assert(a.filter(here) == b.filter(here));
    assert(b.filter(here).len() > 0);
    if b.len() == 0 {
        lemma_filter_none(b, here);
    }
    let y = b.last();
    let there = at_place::<T>(y.index(), y.rank());
    assert(there(y));
    lemma_filter_last(b, there);
    assert(a.filter(there) == b.filter(there));
    if !here(y) {
        // `y` stands in `a`, and `x` stands in `b`, each before the last page.
        let fa = a.filter(there);
        assert(fa.len() > 0);
        a.lemma_filter_contains_rev(there, fa[0]);
        let i = choose|i: int| 0 <= i < a.len() && a[i] == fa[0];
        a.lemma_filter_pred(there, 0);
        assert(there(a[i]));
        let fb = b.filter(here);
        b.lemma_filter_contains_rev(here, fb[0]);
        let j = choose|j: int| 0 <= j < b.len() && b[j] == fb[0];
        b.lemma_filter_pred(here, 0);
        assert(here(b[j]));
        assert(i < a.len() - 1);
        assert(j < b.len() - 1);
        assert(!precedes(a[a.len() - 1], a[i]));
        assert(!precedes(b[b.len() - 1], b[j]));
        assert(false);
    }
    assert(a.filter(here).last() == x);
    assert(b.filter(here).last() == y);
}

/// Reading order is fixed by the pages: two sequences in reading order
/// that hold, for every place, the same pages in the same order are the
/// same sequence.
pub proof fn lemma_reading_order_unique<T: Placed>(a: Seq<T>, b: Seq<T>)
    requires
        in_reading_order(a),
        in_reading_order(b),
        keeps_pages(a, b),
    ensures
        a == b,
    decreases a.len(),
{
    if a.len() == 0 {
        if b.len() > 0 {
            let y = b.last();
            let there = at_place::<T>(y.index(), y.rank());
            assert(there(y));
            lemma_filter_last(b, there);
            lemma_filter_none(a, there);
            assert(a.filter(there) == b.filter(there));
            assert(b.filter(there).len() > 0);
            assert(a.filter(there).len() == 0);
        }
        assert(a =~= b);
    } else {
        lemma_same_last(a, b);
        let x = a.last();
        let front_a = a.drop_last();
        let front_b = b.drop_last();
        assert forall|i: int, j: int| 0 <= i < j < front_a.len() implies !precedes(
            #[trigger] front_a[j],
            #[trigger] front_a[i],
        ) by {
            assert(!precedes(a[j], a[i]));
        }
        assert forall|i: int, j: int| 0 <= i < j < front_b.len() implies !precedes(
            #[trigger] front_b[j],
            #[trigger] front_b[i],
        ) by {
            assert(!precedes(b[j], b[i]));
        }
        assert forall|index: nat, rank: int|
            front_a.filter(#[trigger] at_place::<T>(index, rank)) == front_b.filter(
                at_place::<T>(index, rank),
            ) by {
            let pred = at_place::<T>(index, rank);
            lemma_filter_last(a, pred);
            lemma_filter_last(b, pred);
            assert(a.filter(pred) == b.filter(pred));
            if pred(x) {
                assert(front_a.filter(pred) =~= a.filter(pred).drop_last());
                assert(front_b.filter(pred) =~= b.filter(pred).drop_last());
            }
        }
        lemma_reading_order_unique(front_a, front_b);
        assert(a =~= front_a.push(x));
        assert(b =~= front_b.push(x));
    }
}

/// The contract of `order` leaves no choice: whatever meets it for
/// the same pages is the same sequence.
pub proof fn lemma_ordering_unique<T: Placed>(before: Seq<T>, a: Seq<T>, b: Seq<T>)
    requires
        is_ordering_of(a, before),
        is_ordering_of(b, before),
    ensures
        a == b,
{
    assert forall|index: nat, rank: int|
        a.filter(#[trigger] at_place::<T>(index, rank)) == b.filter(at_place::<T>(index, rank)) by {
        assert(before.filter(at_place::<T>(index, rank)) == a.filter(at_place::<T>(index, rank)));
        assert(before.filter(at_place::<T>(index, rank)) == b.filter(at_place::<T>(index, rank)));
    }
    lemma_reading_order_unique(a, b);
}

/// No two pages of the sequence stand in the same place.
pub open spec fn places_differ<T: Placed>(pages: Seq<T>) -> bool {
    forall|i: int, j: int|
        0 <= i < j < pages.len() ==> !same_place(#[trigger] pages[i], #[trigger] pages[j])
}

/// Pages that stand in different places still do so in any other order.
pub proof fn lemma_places_differ_in_any_order<T: Placed>(first: Seq<T>, second: Seq<T>)
    requires
        places_differ(first),
        first.to_multiset() == second.to_multiset(),
    ensures
        places_differ(second),
{
    broadcast use vstd::seq_lib::group_to_multiset_ensures;

    assert(first.no_duplicates()) by {
        assert forall|i: int, j: int|
            0 <= i < first.len() && 0 <= j < first.len() && i != j implies first[i]
            != first[j] by {
            if i < j {
                assert(!same_place(first[i], first[j]));
            } else {
                assert(!same_place(first[j], first[i]));
            }
        }
    }
    first.lemma_multiset_has_no_duplicates();
    second.lemma_multiset_has_no_duplicates_conv();
    assert forall|i: int, j: int| 0 <= i < j < second.len() implies !same_place(
        #[trigger] second[i],
        #[trigger] second[j],
    ) by {
        assert(second.contains(second[i]));
        assert(second.contains(second[j]));
        vstd::seq_lib::to_multiset_contains(first, second[i]);
        vstd::seq_lib::to_multiset_contains(second, second[i]);
        vstd::seq_lib::to_multiset_contains(first, second[j]);
        vstd::seq_lib::to_multiset_contains(second, second[j]);
        assert(first.contains(second[i]));
        assert(first.contains(second[j]));
        let k = choose|k: int| 0 <= k < first.len() && first[k] == second[i];
        let l = choose|l: int| 0 <= l < first.len() && first[l] == second[j];
        if k < l {
            assert(!same_place(first[k], first[l]));
        } else if l < k {
            assert(!same_place(first[l], first[k]));
        }
    }
}

/// Pages in different places have one reading order only: two sequences in
/// reading order that hold the same pages are the same sequence.
pub proof fn lemma_one_reading_order<T: Placed>(a: Seq<T>, b: Seq<T>)
    requires
        in_reading_order(a),
        in_reading_order(b),
        places_differ(a),
        a.to_multiset() == b.to_multiset(),
    ensures
        a == b,
    decreases a.len(),
{
    broadcast use vstd::seq_lib::group_to_multiset_ensures;

    lemma_places_differ_in_any_order(a, b);
    vstd::seq_lib::to_multiset_len(a);
    vstd::seq_lib::to_multiset_len(b);
    assert(a.len() == b.len());
    if a.len() == 0 {
        assert(a =~= b);
    } else {
        let x = a.last();
        let y = b.last();
        assert(a.contains(x));
        assert(b.contains(y));
        vstd::seq_lib::to_multiset_contains(a, x);
        vstd::seq_lib::to_multiset_contains(b, x);
        vstd::seq_lib::to_multiset_contains(a, y);
        vstd::seq_lib::to_multiset_contains(b, y);
        assert(b.contains(x));
        assert(a.contains(y));
        let i = choose|i: int| 0 <= i < a.len() && a[i] == y;
        let j = choose|j: int| 0 <= j < b.len() && b[j] == x;
        if x != y {
            assert(!precedes(a[a.len() - 1], a[i]));
            assert(!same_place(a[i], a[a.len() - 1]));
            assert(!precedes(b[b.len() - 1], b[j]));
            assert(false);
        }
        let front_a = a.drop_last();
        let front_b = b.drop_last();
        assert(a =~= front_a.push(x));
        assert(b =~= front_b.push(x));
        assert(front_a.to_multiset() =~= a.to_multiset().remove(x));
        assert(front_b.to_multiset() =~= b.to_multiset().remove(x));
        assert forall|i: int, j: int| 0 <= i < j < front_a.len() implies !precedes(
            #[trigger] front_a[j],
            #[trigger] front_a[i],
        ) by {
            assert(!precedes(a[j], a[i]));
        }
        assert forall|i: int, j: int| 0 <= i < j < front_b.len() implies !precedes(
            #[trigger] front_b[j],
            #[trigger] front_b[i],
        ) by {
            assert(!precedes(b[j], b[i]));
        }
        assert forall|i: int, j: int| 0 <= i < j < front_a.len() implies !same_place(
            #[trigger] front_a[i],
            #[trigger] front_a[j],
        ) by {
            assert(!same_place(a[i], a[j]));
        }
        lemma_one_reading_order(front_a, front_b);
    }
}

/// The order in which pages are made does not matter: when no two of them
/// stand in the same place, the same pages come out in the same reading
/// order, in whatever order they went in.
pub proof fn lemma_arrival_order_is_irrelevant<T: Placed>(
    first: Seq<T>,
    second: Seq<T>,
    a: Seq<T>,
    b: Seq<T>,
)
    requires
        places_differ(first),
        first.to_multiset() == second.to_multiset(),
        is_ordering_of(a, first),
        is_ordering_of(b, second),
    ensures
        a == b,
{
    lemma_places_differ_in_any_order(first, a);
    lemma_one_reading_order(a, b);
}

} // verus!
