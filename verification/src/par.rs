//! The order-independent heart of mapping a vector on worker threads:
//! workers hand back (position, value) pairs in whatever order they
//! finish, and the results are assembled by position. The threads and
//! channels live outside the library; the assembly is verified for every
//! arrival order.

use vstd::prelude::*;

verus! {

/// Assembles worker results into a vector of length `n`: the pair
/// `(i, v)` puts `v` at position `i`; positions no pair names keep the
/// placeholder. Pairs name distinct positions below `n`, as positions of
/// a mapped vector do.
pub fn assemble_results<U: Copy>(n: usize, placeholder: U, pairs: &Vec<(usize, U)>) -> (r: Vec<U>)
    requires
        forall|j: int| 0 <= j < pairs@.len() ==> (#[trigger] pairs@[j]).0 < n,
        forall|j1: int, j2: int|
            0 <= j1 < j2 < pairs@.len() ==> (#[trigger] pairs@[j1]).0 != (#[trigger] pairs@[j2]).0,
    ensures
        r@.len() == n,
        forall|j: int|
            0 <= j < pairs@.len() ==> r@[(#[trigger] pairs@[j]).0 as int] == pairs@[j].1,
        forall|i: int|
            0 <= i < n && (forall|j: int| 0 <= j < pairs@.len() ==> (#[trigger] pairs@[j]).0 != i)
                ==> r@[i] == placeholder,
{
    let mut out: Vec<U> = Vec::new();
    let mut i: usize = 0;
    while i < n
        invariant
            i <= n,
            out@.len() == i,
            forall|x: int| 0 <= x < i ==> out@[x] == placeholder,
        decreases n - i,
    {
        out.push(placeholder);
        i = i + 1;
    }
    let mut j: usize = 0;
    while j < pairs.len()
        invariant
            j <= pairs@.len(),
            out@.len() == n,
            forall|x: int| 0 <= x < pairs@.len() ==> (#[trigger] pairs@[x]).0 < n,
            forall|j1: int, j2: int|
                0 <= j1 < j2 < pairs@.len() ==> (#[trigger] pairs@[j1]).0 != (
                #[trigger] pairs@[j2]).0,
            forall|x: int| 0 <= x < j ==> out@[(#[trigger] pairs@[x]).0 as int] == pairs@[x].1,
            forall|i2: int|
                0 <= i2 < n && (forall|x: int|
                    0 <= x < j ==> (#[trigger] pairs@[x]).0 != i2) ==> out@[i2] == placeholder,
        decreases pairs@.len() - j,
    {
        let (idx, val) = pairs[j];
        out.set(idx, val);
        j = j + 1;
    }
    out
}

} // verus!
