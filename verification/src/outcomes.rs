//! Several outcomes at once.

use vstd::prelude::*;

verus! {

/// The error of the first failure.
pub open spec fn first_failure<T, E>(outcomes: Seq<Result<T, E>>) -> Option<E>
    decreases outcomes.len(),
{
    if outcomes.len() == 0 {
        None
    } else {
        match first_failure(outcomes.drop_last()) {
            Some(error) => Some(error),
            None => match outcomes.last() {
                Ok(_) => None,
                Err(error) => Some(error),
            },
        }
    }
}

/// What was achieved, if nothing failed.
pub open spec fn successes<T, E>(outcomes: Seq<Result<T, E>>) -> Seq<T> {
    outcomes.map_values(|outcome: Result<T, E>| outcome->Ok_0)
}

/// The first failure stays the first whatever follows.
proof fn lemma_first_failure_stays<T, E>(outcomes: Seq<Result<T, E>>, n: int)
    requires
        0 <= n <= outcomes.len(),
        first_failure(outcomes.take(n)) is Some,
    ensures
        first_failure(outcomes) == first_failure(outcomes.take(n)),
    decreases outcomes.len(),
{
    if n < outcomes.len() {
        let fewer = outcomes.drop_last();
        assert(fewer.take(n) =~= outcomes.take(n));
        lemma_first_failure_stays(fewer, n);
    } else {
        assert(outcomes.take(n) =~= outcomes);
    }
}

/// All that was achieved, in order, or the error of the first failure.
pub fn all_or_first_error<T, E>(outcomes: Vec<Result<T, E>>) -> (r: Result<Vec<T>, E>)
    ensures
        match r {
            Ok(achieved) => first_failure(outcomes@) is None && achieved@ == successes(outcomes@),
            Err(error) => first_failure(outcomes@) == Some(error),
        },
{
    let ghost all = outcomes@;
    let mut achieved: Vec<T> = Vec::new();
    for outcome in iter: outcomes.into_iter()
        invariant
            iter.seq() == all,
            first_failure(all.take(iter.index())) is None,
            achieved@ == successes(all.take(iter.index())),
    {
        let ghost next = all.take(iter.index() + 1);
        assert(next.drop_last() =~= all.take(iter.index()));
        assert(next.last() == outcome);
        match outcome {
            Ok(value) => {
                achieved.push(value);
                assert(achieved@ =~= successes(next));
            },
            Err(error) => {
                proof {
                    lemma_first_failure_stays(all, iter.index() + 1);
                }
                return Err(error);
            },
        }
    }
    assert(all.take(all.len() as int) =~= all);
    Ok(achieved)
}

/// Both of two things, or the error of the first failure.
pub fn both_or_first_error<T, E>(first: Result<T, E>, second: Result<T, E>) -> (r: Result<(T, T), E>)
    ensures
        r == (match (first, second) {
            (Ok(a), Ok(b)) => Ok((a, b)),
            (Err(error), _) => Err(error),
            (Ok(_), Err(error)) => Err(error),
        }),
{
    match first {
        Ok(a) => match second {
            Ok(b) => Ok((a, b)),
            Err(error) => Err(error),
        },
        Err(error) => Err(error),
    }
}

} // verus!
