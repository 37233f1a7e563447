//! Small verified vector exercises: shifting every element by a constant,
//! in a fresh vector or in place, and removing duplicates while keeping
//! the first occurrence of each value in order.

use vstd::prelude::*;

verus! {

/// The deduplication of `s`: every element at its first occurrence, in
/// order of those first occurrences.
pub open spec fn dedup_seq(s: Seq<i32>) -> Seq<i32>
    decreases s.len(),
{
    if s.len() == 0 {
        Seq::empty()
    } else {
        let prefix = dedup_seq(s.drop_last());
        if prefix.contains(s.last()) {
            prefix
        } else {
            prefix.push(s.last())
        }
    }
}

/// Returns a new vector with `n` added to every element.
pub fn add_n(v: Vec<i32>, n: i32) -> (r: Vec<i32>)
    requires
        forall|i: int|
            0 <= i < v@.len() ==> i32::MIN <= #[trigger] v@[i] + n <= i32::MAX,
    ensures
        r@.len() == v@.len(),
        forall|i: int| 0 <= i < v@.len() ==> r@[i] == v@[i] + n,
{
    let mut out: Vec<i32> = Vec::with_capacity(v.len());
    let mut idx: usize = 0;
    while idx < v.len()
        invariant
            idx <= v@.len(),
            out@.len() == idx,
            forall|i: int| 0 <= i < idx ==> out@[i] == v@[i] + n,
            forall|i: int|
                0 <= i < v@.len() ==> i32::MIN <= #[trigger] v@[i] + n <= i32::MAX,
        decreases v@.len() - idx,
    {
        out.push(v[idx] + n);
        idx = idx + 1;
    }
    out
}

/// Adds `n` to every element of `v` in place.
pub fn add_n_inplace(v: &mut Vec<i32>, n: i32)
    requires
        forall|i: int|
            0 <= i < old(v)@.len() ==> i32::MIN <= #[trigger] old(v)@[i] + n <= i32::MAX,
    ensures
        final(v)@.len() == old(v)@.len(),
        forall|i: int| 0 <= i < old(v)@.len() ==> final(v)@[i] == old(v)@[i] + n,
{
    let mut idx: usize = 0;
    while idx < v.len()
        invariant
            idx <= v@.len(),
            v@.len() == old(v)@.len(),
            forall|i: int| 0 <= i < idx ==> v@[i] == old(v)@[i] + n,
            forall|i: int| idx <= i < v@.len() ==> v@[i] == old(v)@[i],
            forall|i: int|
                0 <= i < old(v)@.len() ==> i32::MIN <= #[trigger] old(v)@[i] + n <= i32::MAX,
        decreases v@.len() - idx,
    {
        let updated = v[idx] + n;
        v.set(idx, updated);
        idx = idx + 1;
    }
}

/// Whether `v` contains `x`, by linear search.
fn contains_value(v: &Vec<i32>, x: i32) -> (r: bool)
    ensures
        r == v@.contains(x),
{
    let mut idx: usize = 0;
    while idx < v.len()
        invariant
            idx <= v@.len(),
            forall|i: int| 0 <= i < idx ==> v@[i] != x,
        decreases v@.len() - idx,
    {
        if v[idx] == x {
            proof {
                assert(v@[idx as int] == x);
            }
            return true;
        }
        idx = idx + 1;
    }
    proof {
        assert(forall|i: int| 0 <= i < v@.len() ==> v@[i] != x);
    }
    false
}

/// Removes duplicate values from `v`, keeping the first occurrence of
/// each value and the order of those first occurrences.
pub fn dedup(v: &mut Vec<i32>)
    ensures
        final(v)@ == dedup_seq(old(v)@),
{
    let mut out: Vec<i32> = Vec::new();
    let mut idx: usize = 0;
    while idx < v.len()
        invariant
            idx <= v@.len(),
            v@ == old(v)@,
            out@ == dedup_seq(v@.take(idx as int)),
        decreases v@.len() - idx,
    {
        let x = v[idx];
        proof {
            assert(v@.take(idx as int + 1).drop_last() =~= v@.take(idx as int));
            assert(v@.take(idx as int + 1).last() == v@[idx as int]);
        }
        if !contains_value(&out, x) {
            out.push(x);
        }
        idx = idx + 1;
    }
    proof {
        assert(v@.take(v@.len() as int) =~= v@);
    }
    *v = out;
}

} // verus!
