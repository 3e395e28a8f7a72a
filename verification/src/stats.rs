//! Statistics over a generated trajectory: the maximum value and a position
//! where it occurs, parity counts over the terms after the starting one, and
//! the stopping time.

use vstd::prelude::*;

verus! {

use num_bigint::BigInt;
use crate::bignum::{big_value, big_clone, big_eq, big_lt, big_is_even};
use crate::trajectory::big_values;

/// How many values of the sequence are even.
pub open spec fn count_even(s: Seq<int>) -> nat
    decreases s.len(),
{
    if s.len() == 0 {
        0
    } else {
        count_even(s.drop_last()) + (if s.last() % 2 == 0 { 1nat } else { 0nat })
    }
}

/// How many values of the sequence are odd.
pub open spec fn count_odd(s: Seq<int>) -> nat
    decreases s.len(),
{
    if s.len() == 0 {
        0
    } else {
        count_odd(s.drop_last()) + (if s.last() % 2 == 0 { 0nat } else { 1nat })
    }
}

/// Derived figures of one trajectory. The parity counts exclude the starting
/// term; the stopping time is the number of recurrence applications, one less
/// than the number of terms.
pub struct TrajectoryStats {
    pub max_value: BigInt,
    pub max_index: usize,
    pub even_count: usize,
    pub odd_count: usize,
    pub stopping_time: usize,
}

/// Scan a nonempty sequence of nonnegative terms for its statistics. The
/// reported maximum value and index agree with each other, every term is at
/// most the maximum, and the parity counts add up to the stopping time.
pub fn compute_stats(sequence: &Vec<BigInt>) -> (st: TrajectoryStats)
    requires
        sequence@.len() >= 1,
        forall|i: int| 0 <= i < sequence@.len() ==> big_values(sequence@)[i] >= 0,
    ensures
        st.max_index < sequence@.len(),
        big_value(st.max_value) == big_values(sequence@)[st.max_index as int],
        forall|i: int| 0 <= i < sequence@.len()
            ==> big_values(sequence@)[i] <= big_value(st.max_value),
        st.even_count == count_even(big_values(sequence@).skip(1)),
        st.odd_count == count_odd(big_values(sequence@).skip(1)),
        st.even_count + st.odd_count == sequence@.len() - 1,
        st.stopping_time == sequence@.len() - 1,
{
    let n = sequence.len();
    let mut best: usize = 0;
    let mut i: usize = 1;
    while i < n
        invariant
            n == sequence@.len(),
            1 <= i <= n,
            best < i,
            forall|j: int| 0 <= j < i
                ==> big_values(sequence@)[j] <= big_values(sequence@)[best as int],
        decreases n - i,
    {
        if big_lt(&sequence[best], &sequence[i]) {
            best = i;
        }
        i = i + 1;
    }

    let mut even_count: usize = 0;
    let mut odd_count: usize = 0;
    let mut i: usize = 1;
    while i < n
        invariant
            n == sequence@.len(),
            n >= 1,
            1 <= i <= n || (n == 1 && i == 1),
            forall|j: int| 0 <= j < sequence@.len() ==> big_values(sequence@)[j] >= 0,
            even_count == count_even(big_values(sequence@).subrange(1, i as int)),
            odd_count == count_odd(big_values(sequence@).subrange(1, i as int)),
            even_count + odd_count == i - 1,
        decreases n - i,
    {
        let ghost vals = big_values(sequence@);
        proof {
            assert(vals.subrange(1, i + 1).drop_last() =~= vals.subrange(1, i as int));
            assert(vals.subrange(1, i + 1).last() == vals[i as int]);
        }
        if big_is_even(&sequence[i]) {
            even_count = even_count + 1;
        } else {
            odd_count = odd_count + 1;
        }
        i = i + 1;
    }
    proof {
        assert(big_values(sequence@).subrange(1, sequence@.len() as int)
            =~= big_values(sequence@).skip(1));
    }

    let max_value = big_clone(&sequence[best]);
    TrajectoryStats {
        max_value,
        max_index: best,
        even_count,
        odd_count,
        stopping_time: n - 1,
    }
}

/// The display tag of one trajectory term: the maximum gets its own emphasis,
/// and every other term is tagged by parity.
#[derive(Clone, Copy, Debug, PartialEq, Eq)]
pub enum ElementStyle {
    Maximum,
    EvenTerm,
    OddTerm,
}

/// The tag a term with the given value receives when the trajectory's maximum
/// has value `max`.
pub open spec fn spec_classify(v: int, max: int) -> ElementStyle {
    if v == max {
        ElementStyle::Maximum
    } else if v % 2 == 0 {
        ElementStyle::EvenTerm
    } else {
        ElementStyle::OddTerm
    }
}

/// Tag one nonnegative term against the trajectory's maximum value.
pub fn classify_element(n: &BigInt, max_value: &BigInt) -> (style: ElementStyle)
    requires
        big_value(*n) >= 0,
    ensures
        style == spec_classify(big_value(*n), big_value(*max_value)),
{
    if big_eq(n, max_value) {
        ElementStyle::Maximum
    } else if big_is_even(n) {
        ElementStyle::EvenTerm
    } else {
        ElementStyle::OddTerm
    }
}

} // verus!
