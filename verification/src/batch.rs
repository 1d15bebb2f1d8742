//! Partitioning the corpus into batches.
//!
//! The dispatcher splits the index range `[0, n)` into contiguous half-open
//! ranges of at most `batch_size` indices each: no overlap, no gap, the last
//! batch possibly shorter. Each range is one worker's assignment.

use vstd::prelude::*;

verus! {

/// The batch partition of `[0, n)` into ranges of `size`: contiguous, in
/// order, every range full but the one that ends at `n`. These clauses
/// determine the partition completely, so the batch count is the rounded-up
/// quotient of `n` by `size`.
pub open spec fn is_partition(b: Seq<(usize, usize)>, n: int, size: int) -> bool {
    &&& (n == 0 ==> b.len() == 0)
    &&& (n > 0 ==> b.len() > 0 && b[0].0 == 0 && b[b.len() - 1].1 == n)
    &&& forall|j: int| 0 <= j < b.len() ==> (#[trigger] b[j]).0 < b[j].1 <= n
    &&& forall|j: int| 0 < j < b.len() ==> (#[trigger] b[j]).0 == b[j - 1].1
    &&& forall|j: int| 0 <= j < b.len() ==> (#[trigger] b[j]).1 - b[j].0 <= size
    &&& forall|j: int| 0 <= j < b.len() ==> ((#[trigger] b[j]).1 - b[j].0 == size || b[j].1 == n)
}

/// Splits `[0, n)` into contiguous batches of at most `batch_size` indices:
/// the ranges cover every index exactly once, in order.
pub fn batch_bounds(n: usize, batch_size: usize) -> (b: Vec<(usize, usize)>)
    requires
        batch_size >= 1,
    ensures
        is_partition(b@, n as int, batch_size as int),
{
    let mut b: Vec<(usize, usize)> = Vec::new();
    let mut start: usize = 0;
    while start < n
        invariant
            start <= n,
            batch_size >= 1,
            start < n ==> (b@.len() == 0 ==> start == 0),
            b@.len() > 0 ==> b@[0].0 == 0 && b@[b@.len() - 1].1 == start,
            b@.len() == 0 ==> start == 0,
            forall|j: int| 0 <= j < b@.len() ==> (#[trigger] b@[j]).0 < b@[j].1 <= n,
            forall|j: int| 0 < j < b@.len() ==> (#[trigger] b@[j]).0 == b@[j - 1].1,
            forall|j: int| 0 <= j < b@.len() ==> (#[trigger] b@[j]).1 - b@[j].0 <= batch_size,
            forall|j: int|
                0 <= j < b@.len() ==> ((#[trigger] b@[j]).1 - b@[j].0 == batch_size || b@[j].1
                    == n),
        decreases n - start,
    {
        let end = if batch_size > n - start {
            n
        } else {
            start + batch_size
        };
        b.push((start, end));
        start = end;
    }
    b
}

} // verus!
