//! Sequence predicates composed from the equality unit.

use vstd::prelude::*;
use crate::composition::traits::{judge, judged_equal, EqualityChecker};

verus! {

/// Whether the unit holds some value of the sequence equal to the query.
pub open spec fn holds_query<E: EqualityChecker>(checker: &E, query: u32, sequence: Seq<u32>) -> bool {
    exists|i: int| 0 <= i < sequence.len() && judged_equal(checker, query, #[trigger] sequence[i])
}

/// Whether the unit holds two values at different places equal.
pub open spec fn holds_pair<E: EqualityChecker>(checker: &E, sequence: Seq<u32>) -> bool {
    exists|i: int, j: int|
        0 <= i < j < sequence.len() && judged_equal(
            checker,
            #[trigger] sequence[i],
            #[trigger] sequence[j],
        )
}

/// The values of the sequence that the unit holds equal to the query.
pub open spec fn query_matches<E: EqualityChecker>(
    checker: &E,
    query: u32,
    sequence: Seq<u32>,
) -> Seq<u32> {
    sequence.filter(|value: u32| judged_equal(checker, query, value))
}

/// Whether the query appears in the sequence, by the unit's judgement.
pub fn contains<E: EqualityChecker>(checker: &E, query: u32, sequence: &[u32]) -> (found: bool)
    ensures
        found == holds_query(checker, query, sequence@),
{
    let mut i: usize = 0;
    while i < sequence.len()
        invariant
            0 <= i <= sequence.len(),
            forall|j: int| 0 <= j < i ==> !judged_equal(checker, query, #[trigger] sequence[j]),
        decreases sequence.len() - i,
    {
        if judge(checker, query, sequence[i]) {
            return true;
        }
        i = i + 1;
    }
    false
}

/// Whether the sequence has two values that the unit holds equal. The first
/// value of a pair is asked as the first argument.
pub fn has_duplicate<E: EqualityChecker>(checker: &E, sequence: &[u32]) -> (found: bool)
    ensures
        found == holds_pair(checker, sequence@),
{
    let n = sequence.len();
    let mut i: usize = 0;
    while i < n
        invariant
            0 <= i <= n,
            n == sequence.len(),
            forall|a: int, b: int|
                0 <= a < i && a < b < n ==> !judged_equal(
                    checker,
                    #[trigger] sequence[a],
                    #[trigger] sequence[b],
                ),
        decreases n - i,
    {
        let mut j: usize = i + 1;
        while j < n
            invariant
                0 <= i < j <= n,
                n == sequence.len(),
                forall|a: int, b: int|
                    0 <= a < i && a < b < n ==> !judged_equal(
                        checker,
                        #[trigger] sequence[a],
                        #[trigger] sequence[b],
                    ),
                forall|b: int|
                    i < b < j ==> !judged_equal(checker, sequence[i as int], #[trigger] sequence[b]),
            decreases n - j,
        {
            if judge(checker, sequence[i], sequence[j]) {
                return true;
            }
            j = j + 1;
        }
        i = i + 1;
    }
    false
}

/// Whether no two values of the sequence are equal, by the unit's judgement.
pub fn all_unique<E: EqualityChecker>(checker: &E, sequence: &[u32]) -> (unique: bool)
    ensures
        unique == !holds_pair(checker, sequence@),
{
    !has_duplicate(checker, sequence)
}

/// Number of values of the sequence that the unit holds equal to the query.
pub fn count_occurrences<E: EqualityChecker>(checker: &E, query: u32, sequence: &[u32]) -> (count:
    usize)
    ensures
        count == query_matches(checker, query, sequence@).len(),
{
    let ghost pred = |value: u32| judged_equal(checker, query, value);
    let mut count: usize = 0;
    let mut i: usize = 0;
    proof {
        reveal(Seq::filter);
        assert(sequence@.take(0).filter(pred).len() == 0);
    }
    while i < sequence.len()
        invariant
            0 <= i <= sequence.len(),
            pred == (|value: u32| judged_equal(checker, query, value)),
            count == sequence@.take(i as int).filter(pred).len(),
            count <= i,
        decreases sequence.len() - i,
    {
        proof {
            reveal(Seq::filter);
            let longer = sequence@.take(i + 1);
            assert(longer.drop_last() =~= sequence@.take(i as int));
            assert(longer.last() == sequence[i as int]);
            assert(pred(sequence[i as int]) == judged_equal(checker, query, sequence[i as int]));
        }
        if judge(checker, query, sequence[i]) {
            count = count + 1;
        }
        i = i + 1;
    }
    assert(sequence@.take(i as int) =~= sequence@);
    count
}

/// The places of the sequence whose value the unit holds equal to the
/// query, in rising order.
pub fn find_positions<E: EqualityChecker>(checker: &E, query: u32, sequence: &[u32]) -> (positions:
    Vec<usize>)
    ensures
        forall|k: int|
            0 <= k < positions.len() ==> (#[trigger] positions[k]) < sequence.len() && judged_equal(
                checker,
                query,
                sequence[positions[k] as int],
            ),
        forall|k: int, l: int|
            0 <= k < l < positions.len() ==> (#[trigger] positions[k]) < (#[trigger] positions[l]),
        forall|i: int|
            0 <= i < sequence.len() && judged_equal(checker, query, #[trigger] sequence[i])
                ==> positions@.contains(i as usize),
{
    let mut positions: Vec<usize> = Vec::new();
    let mut i: usize = 0;
    while i < sequence.len()
        invariant
            0 <= i <= sequence.len(),
            forall|k: int|
                0 <= k < positions.len() ==> (#[trigger] positions[k]) < i && judged_equal(
                    checker,
                    query,
                    sequence[positions[k] as int],
                ),
            forall|k: int, l: int|
                0 <= k < l < positions.len() ==> (#[trigger] positions[k]) < (
                #[trigger] positions[l]),
            forall|j: int|
                0 <= j < i && judged_equal(checker, query, #[trigger] sequence[j])
                    ==> positions@.contains(j as usize),
        decreases sequence.len() - i,
    {
        if judge(checker, query, sequence[i]) {
            let ghost before = positions@;
            positions.push(i);
            proof {
                assert forall|j: int|
                    0 <= j < i + 1 && judged_equal(
                        checker,
                        query,
                        #[trigger] sequence[j],
                    ) implies positions@.contains(j as usize) by {
                    if j < i {
                        let k = before.index_of(j as usize);
                        assert(positions@[k] == j as usize);
                    } else {
                        assert(positions@[positions.len() - 1] == i);
                    }
                }
            }
        }
        i = i + 1;
    }
    positions
}

/// Whether the value behind the first mark is the query, by the unit's
/// judgement. `None` where the sequence has no mark or ends with its first.
pub fn is_marked_equal<E: EqualityChecker>(
    checker: &E,
    query: u32,
    sequence: &[u32],
    mark_token: u32,
) -> (answer: Option<bool>)
    ensures
        match answer {
            Some(equal) => exists|m: int|
                {
                    &&& 0 <= m < sequence.len() - 1
                    &&& #[trigger] sequence[m] == mark_token
                    &&& forall|j: int| 0 <= j < m ==> sequence[j] != mark_token
                    &&& equal == judged_equal(checker, query, sequence[m + 1])
                },
            None => forall|m: int|
                0 <= m < sequence.len() - 1 && #[trigger] sequence[m] == mark_token ==> exists|
                    j: int,
                | 0 <= j < m && #[trigger] sequence[j] == mark_token,
        },
{
    let mut m: usize = 0;
    while m < sequence.len()
        invariant
            0 <= m <= sequence.len(),
            forall|j: int| 0 <= j < m ==> sequence[j] != mark_token,
        decreases sequence.len() - m,
    {
        if sequence[m] == mark_token {
            if m + 1 >= sequence.len() {
                return None;
            }
            return Some(judge(checker, query, sequence[m + 1]));
        }
        m = m + 1;
    }
    None
}

} // verus!
