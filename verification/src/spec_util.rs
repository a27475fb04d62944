use vstd::prelude::*;
use crate::error::Error;

verus! {

/// Prepends what was already gathered to the outcome of the rest.
pub open spec fn prepend<T>(acc: Seq<T>, r: Result<Seq<T>, Error>) -> Result<Seq<T>, Error> {
    match r {
        Ok(rest) => Ok(acc + rest),
        Err(e) => Err(e),
    }
}

/// The first error among `f(i), f(i + 1), ..., f(n - 1)`, if there is one.
pub open spec fn first_err(f: spec_fn(int) -> Option<Error>, i: int, n: int) -> Option<Error>
    decreases n - i,
{
    if i >= n {
        None
    } else if f(i) is Some {
        f(i)
    } else {
        first_err(f, i + 1, n)
    }
}

/// Skipping items that succeed does not change the first error.
pub proof fn lemma_first_err_skip(f: spec_fn(int) -> Option<Error>, i: int, j: int, n: int)
    requires
        i <= j,
        forall|k: int| i <= k < j ==> #[trigger] f(k) is None,
    ensures
        first_err(f, i, n) == first_err(f, j, n),
    decreases j - i,
{
    if i < j {
        if i < n {
            lemma_first_err_skip(f, i + 1, j, n);
        }
    }
}

/// When every item succeeds there is no error.
pub proof fn lemma_first_err_none(f: spec_fn(int) -> Option<Error>, i: int, n: int)
    requires
        forall|k: int| i <= k < n ==> #[trigger] f(k) is None,
    ensures
        first_err(f, i, n) is None,
    decreases n - i,
{
    if i < n {
        lemma_first_err_none(f, i + 1, n);
    }
}

/// The first error is the error of some item.
pub proof fn lemma_first_err_some(f: spec_fn(int) -> Option<Error>, i: int, n: int)
    requires
        first_err(f, i, n) is Some,
    ensures
        exists|k: int| i <= k < n && f(k) is Some && #[trigger] f(k) == first_err(f, i, n),
    decreases n - i,
{
    if i < n && f(i) is None {
        lemma_first_err_some(f, i + 1, n);
    }
}

} // verus!
