//! Element-type-agnostic block ops shared by the `f32` and `f64`
//! audio paths.

use vstd::prelude::*;

verus! {

/// `out[i] = src[i]` for `i < min(out.len(), src.len())`; the rest of
/// `out` is left alone.
pub fn copy_block<T: Copy>(out: &mut [T], src: &[T])
    ensures
        final(out)@.len() == old(out)@.len(),
        forall|i: int|
            0 <= i < final(out)@.len() ==> final(out)@[i] == (if i < src@.len() {
                src@[i]
            } else {
                old(out)@[i]
            }),
{
    let n = if out.len() < src.len() { out.len() } else { src.len() };
    let mut i: usize = 0;
    while i < n
        invariant
            i <= n,
            n <= src@.len(),
            n == (if old(out)@.len() < src@.len() { old(out)@.len() } else { src@.len() }),
            out@.len() == old(out)@.len(),
            forall|j: int|
                0 <= j < out@.len() ==> out@[j] == (if j < i {
                    src@[j]
                } else {
                    old(out)@[j]
                }),
        decreases n - i,
    {
        out[i] = src[i];
        i += 1;
    }
}

/// `buf[i] = zero` for every element.
pub fn zero_block<T: Copy>(buf: &mut [T], zero: T)
    ensures
        final(buf)@.len() == old(buf)@.len(),
        forall|i: int| 0 <= i < final(buf)@.len() ==> final(buf)@[i] == zero,
{
    let mut i: usize = 0;
    while i < buf.len()
        invariant
            i <= buf@.len(),
            buf@.len() == old(buf)@.len(),
            forall|j: int| 0 <= j < i ==> buf@[j] == zero,
        decreases buf@.len() - i,
    {
        buf[i] = zero;
        i += 1;
    }
}

} // verus!
