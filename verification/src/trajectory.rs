//! The Collatz trajectory engine: iterate the recurrence from a starting
//! integer until it reaches 1, recording every term.

use vstd::prelude::*;

verus! {

use num_bigint::BigInt;
use crate::bignum::{big_value, big_from_u32, big_clone, big_eq, big_add, big_mul, big_div, big_is_even};

/// One application of the Collatz recurrence: halve an even value, map an odd
/// value `v` to `3v + 1`.
pub open spec fn collatz_step(v: int) -> int {
    if v % 2 == 0 {
        v / 2
    } else {
        3 * v + 1
    }
}

/// The value after `k` applications of the recurrence to `v`.
pub open spec fn collatz_iter(v: int, k: nat) -> int
    decreases k,
{
    if k == 0 {
        v
    } else {
        collatz_step(collatz_iter(v, (k - 1) as nat))
    }
}

/// The integers that a sequence of `BigInt` terms holds.
pub open spec fn big_values(s: Seq<BigInt>) -> Seq<int> {
    s.map_values(|b: BigInt| big_value(b))
}

/// The sequence is the complete Collatz trajectory of `start`: it begins at
/// `start`, each term follows from the one before it by the recurrence, it
/// ends at 1, and no earlier term is 1.
pub open spec fn is_collatz_trajectory(start: int, s: Seq<int>) -> bool {
    &&& s.len() >= 1
    &&& s[0] == start
    &&& s[s.len() - 1] == 1
    &&& forall|i: int| 0 <= i < s.len() - 1 ==> s[i + 1] == collatz_step(s[i])
    &&& forall|i: int| 0 <= i < s.len() - 1 ==> s[i] != 1
}

/// A starting value has at most one complete trajectory: two runs of the
/// engine from the same integer return the same sequence of values.
pub proof fn lemma_trajectory_unique(start: int, s1: Seq<int>, s2: Seq<int>)
    requires
        is_collatz_trajectory(start, s1),
        is_collatz_trajectory(start, s2),
    ensures
        s1 == s2,
    decreases s1.len(),
{
    if start == 1 {
        assert(s1.len() == 1);
        assert(s2.len() == 1);
        assert(s1 =~= s2);
    } else {
        assert(s1.len() > 1);
        assert(s2.len() > 1);
        let t1 = s1.skip(1);
        let t2 = s2.skip(1);
        assert(s1[1] == collatz_step(start));
        assert(s2[1] == collatz_step(start));
        assert(is_collatz_trajectory(collatz_step(start), t1)) by {
            assert(t1[0] == s1[1]);
            assert(t1[t1.len() - 1] == s1[s1.len() - 1]);
            assert forall|i: int| 0 <= i < t1.len() - 1 implies t1[i + 1] == collatz_step(t1[i])
                && t1[i] != 1 by {
                assert(t1[i] == s1[i + 1]);
                assert(t1[i + 1] == s1[i + 2]);
            }
        }
        assert(is_collatz_trajectory(collatz_step(start), t2)) by {
            assert(t2[0] == s2[1]);
            assert(t2[t2.len() - 1] == s2[s2.len() - 1]);
            assert forall|i: int| 0 <= i < t2.len() - 1 implies t2[i + 1] == collatz_step(t2[i])
                && t2[i] != 1 by {
                assert(t2[i] == s2[i + 1]);
                assert(t2[i + 1] == s2[i + 2]);
            }
        }
        lemma_trajectory_unique(collatz_step(start), t1, t2);
        assert forall|i: int| 0 <= i < s1.len() implies s1[i] == s2[i] by {
            if i > 0 {
                assert(s1[i] == t1[i - 1]);
                assert(s2[i] == t2[i - 1]);
            }
        }
        assert(s1 =~= s2);
    }
}

/// A positive value stays positive under the recurrence.
proof fn lemma_step_positive(v: int)
    requires
        v >= 1,
    ensures
        collatz_step(v) >= 1,
{
}

/// One application of the recurrence to a positive term.
pub fn collatz_next(n: &BigInt) -> (r: BigInt)
    requires
        big_value(*n) >= 1,
    ensures
        big_value(r) == collatz_step(big_value(*n)),
{
    let two = big_from_u32(2);
    if big_is_even(n) {
        big_div(n, &two)
    } else {
        let three = big_from_u32(3);
        let one = big_from_u32(1);
        big_add(&big_mul(&three, n), &one)
    }
}

/// The Collatz trajectory of `n`, bounded by `max_steps` applications of the
/// recurrence. The conjecture that every trajectory reaches 1 is unproven, so
/// the bound keeps the computation finite: `None` reports that no trajectory
/// from `n` of at most `max_steps` steps reaches 1.
pub fn collatz(n: BigInt, max_steps: usize) -> (r: Option<Vec<BigInt>>)
    requires
        big_value(n) >= 1,
    ensures
        match r {
            Some(seq) => {
                &&& is_collatz_trajectory(big_value(n), big_values(seq@))
                &&& seq@.len() <= max_steps + 1
                &&& forall|k: int| 0 <= k < seq@.len()
                    ==> big_values(seq@)[k] == collatz_iter(big_value(n), k as nat)
                &&& forall|k: int| 0 <= k < seq@.len() ==> big_values(seq@)[k] >= 1
            },
            None => forall|k: nat| k <= max_steps ==> collatz_iter(big_value(n), k) != 1,
        },
{
    let one = big_from_u32(1);
    let mut sequence: Vec<BigInt> = Vec::new();
    let mut steps: usize = 0;
    let mut current = big_clone(&n);
    sequence.push(big_clone(&current));
    while !big_eq(&current, &one)
        invariant
            big_value(one) == 1,
            steps <= max_steps,
            big_value(current) >= 1,
            sequence@.len() == steps + 1,
            big_values(sequence@)[steps as int] == big_value(current),
            forall|k: int| 0 <= k <= steps
                ==> big_values(sequence@)[k] == collatz_iter(big_value(n), k as nat),
            forall|k: int| 0 <= k < steps ==> big_values(sequence@)[k] != 1,
            forall|k: int| 0 <= k <= steps ==> big_values(sequence@)[k] >= 1,
        decreases max_steps - steps,
    {
        if steps == max_steps {
            proof {
                assert forall|k: nat| k <= max_steps implies collatz_iter(big_value(n), k) != 1 by {
                    assert(big_values(sequence@)[k as int] == collatz_iter(big_value(n), k as int as nat));
                    if k < steps {
                        assert(big_values(sequence@)[k as int] != 1);
                    }
                }
            }
            return None;
        }
        let next = collatz_next(&current);
        proof {
            lemma_step_positive(big_value(current));
        }
        let ghost prev: Seq<BigInt> = sequence@;
        sequence.push(big_clone(&next));
        steps = steps + 1;
        proof {
            assert(big_values(sequence@) =~= big_values(prev).push(big_value(next)));
            assert(collatz_iter(big_value(n), steps as nat)
                == collatz_step(collatz_iter(big_value(n), (steps - 1) as nat)));
        }
        current = next;
    }
    Some(sequence)
}

} // verus!
