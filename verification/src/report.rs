//! The summary of a run over many files.
use vstd::prelude::*;

verus! {

/// How many of the outcomes are successes.
pub open spec fn successes(outcomes: Seq<bool>) -> nat
    decreases outcomes.len(),
{
    if outcomes.len() == 0 {
        0
    } else {
        successes(outcomes.drop_last()) + if outcomes.last() {
            1nat
        } else {
            0
        }
    }
}

/// The successes of two runs add up, and a single outcome counts once if it is a success.
pub proof fn law_successes_add_up(first: Seq<bool>, second: Seq<bool>)
    ensures
        successes(first + second) == successes(first) + successes(second),
        successes(seq![true]) == 1,
        successes(seq![false]) == 0,
    decreases second.len(),
{
    if second.len() == 0 {
        assert(first + second =~= first);
    } else {
        assert((first + second).drop_last() =~= first + second.drop_last());
        law_successes_add_up(first, second.drop_last());
    }
    reveal_with_fuel(successes, 2);
    assert(seq![true].drop_last() =~= seq![]);
    assert(seq![false].drop_last() =~= seq![]);
}

/// Counts successes and failures.
pub fn tally(outcomes: &[bool]) -> (r: (usize, usize))
    ensures
        r.0 == successes(outcomes@),
        r.0 + r.1 == outcomes@.len(),
{
    let mut success: usize = 0;
    let mut i: usize = 0;
    while i < outcomes.len()
        invariant
            i <= outcomes@.len(),
            success <= i,
            success == successes(outcomes@.take(i as int)),
        decreases outcomes@.len() - i,
    {
        assert(outcomes@.take(i + 1).drop_last() =~= outcomes@.take(i as int));
        if outcomes[i] {
            success += 1;
        }
        i += 1;
    }
    assert(outcomes@.take(i as int) =~= outcomes@);
    (success, outcomes.len() - success)
}

/// The positions of the failures, in order: as many as `tally` counts.
pub fn failures(outcomes: &[bool]) -> (r: Vec<usize>)
    ensures
        forall|i: int, j: int| 0 <= i < j < r@.len() ==> r@[i] < r@[j],
        forall|k: usize| r@.contains(k) <==> k < outcomes@.len() && !outcomes@[k as int],
        r@.len() == outcomes@.len() - successes(outcomes@),
{
    let mut r: Vec<usize> = Vec::new();
    let mut i: usize = 0;
    while i < outcomes.len()
        invariant
            i <= outcomes@.len(),
            forall|a: int, b: int| 0 <= a < b < r@.len() ==> r@[a] < r@[b],
            forall|a: int| 0 <= a < r@.len() ==> r@[a] < i && !outcomes@[r@[a] as int],
            forall|k: usize| k < i && !#[trigger] outcomes@[k as int] ==> r@.contains(k),
            r@.len() == i - successes(outcomes@.take(i as int)),
        decreases outcomes@.len() - i,
    {
        assert(outcomes@.take(i + 1).drop_last() =~= outcomes@.take(i as int));
        if !outcomes[i] {
            let ghost before = r@;
            r.push(i);
            proof {
                assert forall|k: usize| k < i + 1 && !#[trigger] outcomes@[k as int] implies
                    r@.contains(k) by {
                    if k < i {
                        let a = choose|a: int| 0 <= a < before.len() && before[a] == k;
                        assert(r@[a] == k);
                    } else {
                        assert(r@[before.len() as int] == k);
                    }
                }
            }
        }
        i += 1;
    }
    assert(outcomes@.take(i as int) =~= outcomes@);
    r
}

} // verus!
