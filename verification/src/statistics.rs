//! Descriptive statistics of lists of integers: the most frequent values
//! and the middle of the sorted list.

use std::collections::HashMap;
use vstd::prelude::*;

verus! {

/// How often `x` occurs in `numbers`.
pub open spec fn occurrences(numbers: Seq<i32>, x: i32) -> nat
    decreases numbers.len(),
{
    if numbers.len() == 0 {
        0
    } else {
        occurrences(numbers.drop_last(), x) + if numbers.last() == x {
            1nat
        } else {
            0nat
        }
    }
}

/// Whether `x` is a mode of `numbers`: it occurs, and nothing occurs more
/// often.
pub open spec fn is_mode(numbers: Seq<i32>, x: i32) -> bool {
    &&& occurrences(numbers, x) > 0
    &&& forall|y: i32| occurrences(numbers, y) <= occurrences(numbers, x)
}

/// Whether `numbers` is in ascending order.
pub open spec fn ascending(numbers: Seq<i32>) -> bool {
    forall|i: int, j: int| 0 <= i < j < numbers.len() ==> numbers[i] <= numbers[j]
}

/// Whether `numbers` is in strictly ascending order.
pub open spec fn strictly_ascending(numbers: Seq<i32>) -> bool {
    forall|i: int, j: int| 0 <= i < j < numbers.len() ==> numbers[i] < numbers[j]
}

/// Calls the standard library's slice sort on integers.  Taken on trust:
/// it puts them in ascending order and neither drops nor adds one.
#[verifier::external_body]
fn sort_numbers(numbers: &mut Vec<i32>)
    ensures
        ascending(final(numbers)@),
        final(numbers)@.to_multiset() == old(numbers)@.to_multiset(),
{
    numbers.sort();
}

/// A value occurs at most as often as the list is long, and it occurs in a
/// list exactly if its count there is positive.
pub proof fn lemma_occurrences(numbers: Seq<i32>, x: i32)
    ensures
        occurrences(numbers, x) <= numbers.len(),
        occurrences(numbers, x) > 0 <==> numbers.contains(x),
    decreases numbers.len(),
{
    if numbers.len() > 0 {
        let front = numbers.drop_last();
        lemma_occurrences(front, x);
        if front.contains(x) {
            let i = choose|i: int| 0 <= i < front.len() && front[i] == x;
            assert(numbers[i] == x);
        }
        if numbers.last() == x {
            assert(numbers[numbers.len() - 1] == x);
        }
        if numbers.contains(x) && numbers.last() != x {
            let i = choose|i: int| 0 <= i < numbers.len() && numbers[i] == x;
            assert(front[i] == x);
        }
    }
}

/// Returns the modes of `numbers` in ascending order, each once: the values
/// that occur most often.  An empty list has no mode.
pub fn mode(numbers: &[i32]) -> (modes: Vec<i32>)
    ensures
        strictly_ascending(modes@),
        forall|x: i32| modes@.contains(x) <==> is_mode(numbers@, x),
{
    broadcast use vstd::std_specs::hash::group_hash_axioms;

    if numbers.len() == 0 {
        let modes: Vec<i32> = Vec::new();
        assert forall|x: i32| modes@.contains(x) <==> is_mode(numbers@, x) by {}
        return modes;
    }
    let mut frequency: HashMap<i32, usize> = HashMap::new();
    let mut most: usize = 0;
    let mut i: usize = 0;
    while i < numbers.len()
        invariant
            i <= numbers@.len(),
            most <= i,
            forall|x: i32| frequency@.contains_key(x) <==> occurrences(numbers@.take(i as int), x) > 0,
            forall|x: i32|
                frequency@.contains_key(x) ==> #[trigger] frequency@[x] == occurrences(
                    numbers@.take(i as int),
                    x,
                ),
            forall|x: i32| occurrences(numbers@.take(i as int), x) <= most,
            i > 0 ==> most > 0,
            i > 0 ==> exists|x: i32| occurrences(numbers@.take(i as int), x) == most,
        decreases numbers@.len() - i,
    {
        let number = numbers[i];
        let ghost seen = numbers@.take(i as int);
        let ghost next = numbers@.take(i + 1);
        let ghost old_most = most;
        proof {
            assert(next.drop_last() =~= seen);
            assert(next.last() == number);
            lemma_occurrences(seen, number);
        }
        let count = match frequency.get(&number) {
            Some(count) => *count + 1,
            None => 1,
        };
        frequency.insert(number, count);
        let ghost witness = if i > 0 {
            choose|x: i32| occurrences(seen, x) == most
        } else {
            number
        };
        if count > most {
            most = count;
            proof {
                assert(occurrences(next, number) == most);
            }
        } else {
            proof {
                if i > 0 {
                    if witness == number {
                        assert(occurrences(next, number) == most);
                    } else {
                        assert(occurrences(next, witness) == most);
                    }
                }
            }
        }
        proof {
            assert forall|x: i32| occurrences(next, x) <= most by {
                assert(occurrences(seen, x) <= old_most);
            }
        }
        i += 1;
    }
    proof {
        assert(numbers@.take(i as int) =~= numbers@);
    }
    let mut modes: Vec<i32> = Vec::new();
    let mut j: usize = 0;
    while j < numbers.len()
        invariant
            j <= numbers@.len(),
            most > 0,
            modes@.no_duplicates(),
            forall|x: i32| occurrences(numbers@, x) <= most,
            forall|x: i32|
                modes@.contains(x) <==> occurrences(numbers@, x) == most && occurrences(
                    numbers@.take(j as int),
                    x,
                ) > 0,
            forall|x: i32|
                frequency@.contains_key(x) <==> occurrences(numbers@, x) > 0 && !modes@.contains(
                    x,
                ),
            forall|x: i32|
                frequency@.contains_key(x) ==> #[trigger] frequency@[x] == occurrences(numbers@, x),
        decreases numbers@.len() - j,
    {
        let number = numbers[j];
        let ghost seen = numbers@.take(j as int);
        let ghost next = numbers@.take(j + 1);
        let ghost before = modes@;
        proof {
            assert(next.drop_last() =~= seen);
            assert(next.last() == number);
            lemma_occurrences(numbers@, number);
            assert(numbers@[j as int] == number);
        }
        let is_new_mode = match frequency.get(&number) {
            Some(count) => *count == most,
            None => false,
        };
        if is_new_mode {
            modes.push(number);
            frequency.remove(&number);
            proof {
                assert forall|x: i32| modes@.contains(x) <==> before.contains(x) || x == number by {
                    if before.contains(x) {
                        let k = choose|k: int| 0 <= k < before.len() && before[k] == x;
                        assert(modes@[k] == x);
                    }
                    assert(modes@[before.len() as int] == number);
                }
            }
        }
        j += 1;
    }
    proof {
        assert(numbers@.take(j as int) =~= numbers@);
    }
    let ghost unsorted = modes@;
    sort_numbers(&mut modes);
    proof {
        broadcast use vstd::seq_lib::group_to_multiset_ensures;

        unsorted.lemma_multiset_has_no_duplicates();
        modes@.lemma_multiset_has_no_duplicates_conv();
        unsorted.to_multiset_ensures();
        modes@.to_multiset_ensures();
        assert forall|x: i32| modes@.contains(x) <==> is_mode(numbers@, x) by {
            assert(modes@.to_multiset().count(x) == unsorted.to_multiset().count(x));
            assert(modes@.contains(x) <==> modes@.to_multiset().count(x) > 0);
            assert(unsorted.contains(x) <==> unsorted.to_multiset().count(x) > 0);
        }
    }
    modes
}

/// Sorts `numbers` and returns the value, or the two values, in the middle
/// of the sorted list: for a list of odd length the middle value twice,
/// for a list of even length the two values around the middle.  An empty
/// list has no middle.
///
/// The median is the mean of the two values returned.
pub fn middle(numbers: &mut Vec<i32>) -> (r: Option<(i32, i32)>)
    ensures
        ascending(final(numbers)@),
        final(numbers)@.to_multiset() == old(numbers)@.to_multiset(),
        final(numbers)@.len() == old(numbers)@.len(),
        old(numbers)@.len() == 0 ==> r is None,
        old(numbers)@.len() > 0 ==> r == Some(
            (
                final(numbers)@[(old(numbers)@.len() - 1) / 2],
                final(numbers)@[old(numbers)@.len() as int / 2],
            ),
        ),
{
    broadcast use vstd::seq_lib::group_to_multiset_ensures;

    let ghost before = numbers@;
    sort_numbers(numbers);
    assert(numbers@.len() == before.len()) by {
        assert(numbers@.to_multiset().len() == before.to_multiset().len());
    }
    let len = numbers.len();
    if len == 0 {
        None
    } else if len % 2 == 1 {
        Some((numbers[len / 2], numbers[len / 2]))
    } else {
        Some((numbers[len / 2 - 1], numbers[len / 2]))
    }
}

} // verus!
