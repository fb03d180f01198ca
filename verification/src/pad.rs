use vstd::prelude::*;

use crate::error::CrossCorrelateError;

verus! {

/// Allocate a vector holding `n` copies of `fill`, reporting an allocation
/// failure as a recoverable out-of-memory error instead of aborting; `n` can
/// be derived from caller-controlled input lengths and may be large.
pub(crate) fn try_filled_vec<T: Copy>(n: usize, fill: T) -> (r: Result<
    Vec<T>,
    CrossCorrelateError,
>)
    ensures
        match r {
            Ok(v) => v@.len() == n && forall|i: int| 0 <= i < n ==> v@[i] == fill,
            Err(e) => e == CrossCorrelateError::OutOfMemory(n),
        },
{
    let mut v: Vec<T> = Vec::new();
    if v.try_reserve(n).is_err() {
        return Err(CrossCorrelateError::OutOfMemory(n));
    }
    let mut i: usize = 0;
    while i < n
        invariant
            v@.len() == i,
            i <= n,
            forall|j: int| 0 <= j < i ==> v@[j] == fill,
        decreases n - i,
    {
        v.push(fill);
        i = i + 1;
    }
    Ok(v)
}

/// Build the transform-length buffer for one input signal: the first
/// `samples.len()` slots take the samples in order and the remainder is
/// filled with `fill` (the zero sample). Either a fully populated buffer of
/// exactly `n` elements is produced or an explicit out-of-memory failure is
/// reported; there is no partial success.
pub fn pad_signal<T: Copy>(samples: &[T], n: usize, fill: T) -> (r: Result<
    Vec<T>,
    CrossCorrelateError,
>)
    requires
        samples@.len() <= n,
    ensures
        match r {
            Ok(v) => {
                &&& v@.len() == n
                &&& forall|i: int| 0 <= i < samples@.len() ==> v@[i] == samples@[i]
                &&& forall|i: int| samples@.len() <= i < n ==> v@[i] == fill
            },
            Err(e) => e == CrossCorrelateError::OutOfMemory(n),
        },
{
    let mut v = try_filled_vec(n, fill)?;
    let mut i: usize = 0;
    while i < samples.len()
        invariant
            samples@.len() <= n,
            v@.len() == n,
            i <= samples@.len(),
            forall|j: int| 0 <= j < i ==> v@[j] == samples@[j],
            forall|j: int| i <= j < n ==> v@[j] == fill,
        decreases samples@.len() - i,
    {
        v[i] = samples[i];
        i = i + 1;
    }
    Ok(v)
}

} // verus!
