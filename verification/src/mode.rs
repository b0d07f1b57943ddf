//! The most frequent value of a sequence.

use std::collections::HashMap;
use std::hash::Hash;
use vstd::prelude::*;
use vstd::std_specs::hash::obeys_key_model;

verus! {

/// How often `value` occurs in `data`.
pub open spec fn occurrences<T>(data: Seq<T>, value: T) -> nat {
    data.filter(|x: T| x == value).len()
}

/// The value at `at` occurs at least as often in `data` as every other value,
/// and more often than every value that stands before it.
pub open spec fn first_mode_at<T>(data: Seq<T>, at: int) -> bool {
    &&& 0 <= at < data.len()
    &&& forall|j: int|
        0 <= j < data.len() ==> occurrences(data, #[trigger] data[j]) <= occurrences(
            data,
            data[at],
        )
    &&& forall|j: int|
        0 <= j < at ==> occurrences(data, #[trigger] data[j]) < occurrences(data, data[at])
}

/// The most frequent value of `data`; of several that are equally frequent,
/// the one that occurs first.
pub open spec fn first_mode<T>(data: Seq<T>) -> T {
    data[choose|at: int| first_mode_at(data, at)]
}

/// Only one position of a sequence can hold its first mode.
pub proof fn lemma_first_mode_unique<T>(data: Seq<T>, a: int, b: int)
    requires
        first_mode_at(data, a),
        first_mode_at(data, b),
    ensures
        a == b,
{
    if a < b {
        assert(occurrences(data, data[a]) < occurrences(data, data[b]));
        assert(occurrences(data, data[b]) <= occurrences(data, data[a]));
    } else if b < a {
        assert(occurrences(data, data[b]) < occurrences(data, data[a]));
        assert(occurrences(data, data[a]) <= occurrences(data, data[b]));
    }
}

/// The value at a position that holds the first mode is the first mode.
pub proof fn lemma_first_mode_is<T>(data: Seq<T>, at: int)
    requires
        first_mode_at(data, at),
    ensures
        first_mode(data) == data[at],
{
    let chosen = choose|k: int| first_mode_at(data, k);
    lemma_first_mode_unique(data, chosen, at);
}

/// Among the first `n` elements of `data`, the position of the one that
/// occurs most often in all of `data`, the first of several.
pub open spec fn leader<T>(data: Seq<T>, n: int) -> int
    decreases n,
{
    if n <= 1 {
        0
    } else {
        let before = leader(data, n - 1);
        if occurrences(data, data[n - 1]) > occurrences(data, data[before]) {
            n - 1
        } else {
            before
        }
    }
}

/// The leader of the first `n` elements is one of them, occurs at least as
/// often as each of them and more often than those before it.
pub proof fn lemma_leader_leads<T>(data: Seq<T>, n: int)
    requires
        1 <= n <= data.len(),
    ensures
        0 <= leader(data, n) < n,
        forall|j: int|
            0 <= j < n ==> occurrences(data, #[trigger] data[j]) <= occurrences(
                data,
                data[leader(data, n)],
            ),
        forall|j: int|
            0 <= j < leader(data, n) ==> occurrences(data, #[trigger] data[j]) < occurrences(
                data,
                data[leader(data, n)],
            ),
    decreases n,
{
    if n > 1 {
        lemma_leader_leads(data, n - 1);
    }
}

/// Every sequence that is not empty has a first mode, and it is one of its
/// elements.
pub proof fn lemma_first_mode_exists<T>(data: Seq<T>)
    requires
        data.len() > 0,
    ensures
        first_mode_at(data, choose|at: int| first_mode_at(data, at)),
        data.contains(first_mode(data)),
{
    lemma_leader_leads(data, data.len() as int);
    assert(first_mode_at(data, leader(data, data.len() as int)));
}

/// One more element adds one occurrence of its own value and none of any
/// other.
pub proof fn lemma_occurrences_push<T>(data: Seq<T>, last: T, value: T)
    ensures
        occurrences(data.push(last), value) == occurrences(data, value) + if last == value {
            1nat
        } else {
            0nat
        },
{
    reveal(Seq::filter);
    assert(data.push(last).drop_last() =~= data);
}

/// A value occurs in a sequence at most as often as the sequence is long,
/// and at least once when it stands in it.
pub proof fn lemma_occurrences_bounds<T>(data: Seq<T>, value: T)
    ensures
        occurrences(data, value) <= data.len(),
        data.contains(value) ==> occurrences(data, value) >= 1,
    decreases data.len(),
{
    if data.len() > 0 {
        let front = data.drop_last();
        lemma_occurrences_bounds(front, value);
        assert(front.push(data.last()) =~= data);
        lemma_occurrences_push(front, data.last(), value);
        if data.contains(value) && data.last() != value {
            let k = choose|k: int| 0 <= k < data.len() && data[k] == value;
            assert(front[k] == value);
        }
    } else {
        reveal(Seq::filter);
    }
}

/// A band is a sequence that holds one value from `top` up to `bottom` and
/// one other value everywhere else.
pub open spec fn is_band<T>(data: Seq<T>, inner: T, outer: T, top: int, bottom: int) -> bool {
    &&& 0 <= top < bottom <= data.len()
    &&& inner != outer
    &&& forall|i: int|
        0 <= i < data.len() ==> #[trigger] data[i] == if top <= i < bottom {
            inner
        } else {
            outer
        }
}

/// How often the two values of a band occur among its first `n` elements.
pub proof fn lemma_band_counts<T>(
    data: Seq<T>,
    inner: T,
    outer: T,
    top: int,
    bottom: int,
    n: int,
)
    requires
        is_band(data, inner, outer, top, bottom),
        0 <= n <= data.len(),
    ensures
        occurrences(data.take(n), inner) == if n <= top {
            0
        } else if n <= bottom {
            n - top
        } else {
            bottom - top
        },
        occurrences(data.take(n), outer) == n - occurrences(data.take(n), inner),
    decreases n,
{
    if n == 0 {
        lemma_occurrences_bounds(data.take(0), inner);
        lemma_occurrences_bounds(data.take(0), outer);
    } else {
        lemma_band_counts(data, inner, outer, top, bottom, n - 1);
        assert(data.take(n) =~= data.take(n - 1).push(data[n - 1]));
        lemma_occurrences_push(data.take(n - 1), data[n - 1], inner);
        lemma_occurrences_push(data.take(n - 1), data[n - 1], outer);
    }
}

/// The first mode of a band is its inner value when the band is longer than
/// the rest, or as long as the rest and at the very start.
pub proof fn lemma_first_mode_of_band<T>(data: Seq<T>, inner: T, outer: T, top: int, bottom: int)
    requires
        is_band(data, inner, outer, top, bottom),
        2 * (bottom - top) > data.len() || (2 * (bottom - top) == data.len() && top == 0),
    ensures
        first_mode(data) == inner,
{
    lemma_band_counts(data, inner, outer, top, bottom, data.len() as int);
    assert(data.take(data.len() as int) =~= data);
    assert(first_mode_at(data, top));
    lemma_first_mode_is(data, top);
}

/// The most frequent value of `data`; of several that are equally frequent,
/// the one that occurs first.
pub fn vec_most_occur<T: Eq + Hash + Copy>(data: &[T]) -> (value: T)
    requires
        data@.len() > 0,
        obeys_key_model::<T>(),
    ensures
        value == first_mode(data@),
{
    let mut counter: HashMap<T, usize> = HashMap::new();
    let mut i: usize = 0;
    proof {
        assert forall|v: T| occurrences(data@.take(0), v) == 0 by {
            lemma_occurrences_bounds(data@.take(0), v);
        }
    }
    while i < data.len()
        invariant
            i <= data@.len(),
            obeys_key_model::<T>(),
            forall|v: T| #[trigger]
                counter@.contains_key(v) <==> occurrences(data@.take(i as int), v) > 0,
            forall|v: T| #[trigger]
                counter@.contains_key(v) ==> counter@[v] == occurrences(data@.take(i as int), v),
        decreases data@.len() - i,
    {
        let item = data[i];
        let seen: usize = match counter.get(&item) {
            Some(count) => *count,
            None => 0,
        };
        proof {
            lemma_occurrences_bounds(data@.take(i as int), item);
            assert(data@.take(i as int + 1) =~= data@.take(i as int).push(item));
            assert forall|v: T|
                occurrences(data@.take(i as int + 1), v) == occurrences(data@.take(i as int), v)
                    + if item == v {
                    1nat
                } else {
                    0nat
                } by {
                lemma_occurrences_push(data@.take(i as int), item, v);
            }
        }
        counter.insert(item, seen + 1);
        i += 1;
    }
    assert(data@.take(i as int) =~= data@);
    let mut best: usize = 0;
    let mut most: usize = 0;
    let mut j: usize = 0;
    while j < data.len()
        invariant
            j <= data@.len(),
            obeys_key_model::<T>(),
            forall|v: T| #[trigger] counter@.contains_key(v) <==> occurrences(data@, v) > 0,
            forall|v: T| #[trigger] counter@.contains_key(v) ==> counter@[v] == occurrences(
                data@,
                v,
            ),
            j == 0 ==> most == 0 && best == 0,
            j > 0 ==> best < j && most == occurrences(data@, data@[best as int]),
            forall|k: int| 0 <= k < j ==> occurrences(data@, #[trigger] data@[k]) <= most,
            forall|k: int| 0 <= k < best ==> occurrences(data@, #[trigger] data@[k]) < most,
        decreases data@.len() - j,
    {
        let item = data[j];
        proof {
            assert(data@.contains(item));
            lemma_occurrences_bounds(data@, item);
        }
        let count: usize = match counter.get(&item) {
            Some(count) => *count,
            None => 0,
        };
        if count > most {
            best = j;
            most = count;
        }
        j += 1;
    }
    proof {
        assert(first_mode_at(data@, best as int));
        lemma_first_mode_is(data@, best as int);
    }
    data[best]
}

} // verus!
