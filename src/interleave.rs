//! Conversion between N canonical states and the lane-major layout in which one
//! vector of N words holds the same lane of every instance.
use vstd::prelude::*;

use crate::model::{rows, transpose};

verus! {

/// Transposes an N-by-N block of words. Applied to N vectors that hold N consecutive
/// lanes of one instance each, it yields N vectors that hold one lane of every
/// instance; applied to those, it gives the first block back.
pub fn fast_interleave<const N: usize>(a: &[[u64; N]; N]) -> (r: [[u64; N]; N])
    ensures
        rows(r) == transpose(rows(*a), N as nat),
{
    let mut r: [[u64; N]; N] = [[0; N]; N];
    let mut i: usize = 0;
    while i < N
        invariant
            i <= N,
            forall|k: int, j: int| 0 <= k < i && 0 <= j < N ==> #[trigger] r[k][j] == a[j][k],
        decreases N - i,
    {
        let mut v: [u64; N] = [0; N];
        let mut j: usize = 0;
        while j < N
            invariant
                j <= N,
                i < N,
                forall|q: int| 0 <= q < j ==> #[trigger] v[q] == a[q][i as int],
            decreases N - j,
        {
            v[j] = a[j][i];
            j = j + 1;
        }
        r[i] = v;
        i = i + 1;
    }
    assert forall|k: int| 0 <= k < N implies #[trigger] rows(r)[k] == transpose(rows(*a), N as nat)[k] by {
        assert(rows(r)[k] =~= transpose(rows(*a), N as nat)[k]);
    }
    assert(rows(r) =~= transpose(rows(*a), N as nat));
    r
}

/// Lanes `offset .. offset + N` of each of the N states, one row per state.
fn load_block<const N: usize>(state: &[[u64; 25]; N], offset: usize) -> (r: [[u64; N]; N])
    requires
        offset + N <= 25,
    ensures
        forall|p: int, j: int| 0 <= p < N && 0 <= j < N ==> #[trigger] r[p][j] == state[p][offset + j],
{
    let mut r: [[u64; N]; N] = [[0; N]; N];
    let mut p: usize = 0;
    while p < N
        invariant
            p <= N,
            offset + N <= 25,
            forall|q: int, j: int| 0 <= q < p && 0 <= j < N ==> #[trigger] r[q][j] == state[q][offset + j],
        decreases N - p,
    {
        let mut v: [u64; N] = [0; N];
        let mut j: usize = 0;
        while j < N
            invariant
                j <= N,
                p < N,
                offset + N <= 25,
                forall|k: int| 0 <= k < j ==> #[trigger] v[k] == state[p as int][offset + k],
            decreases N - j,
        {
            v[j] = state[p][offset + j];
            j = j + 1;
        }
        r[p] = v;
        p = p + 1;
    }
    r
}

/// Lane-major layout of N canonical states: vector `l` holds lane `l` of every
/// state, state `p` at position `p`.
pub fn interleave_state<const N: usize>(state: &[[u64; 25]; N]) -> (r: [[u64; N]; 25])
    ensures
        rows(r) == transpose(rows(*state), 25),
{
    let mut dst: [[u64; N]; 25] = [[0; N]; 25];
    let mut offset: usize = 0;
    if N > 0 {
        while N <= 25 - offset
            invariant
                0 < N,
                offset <= 25,
                forall|l: int, p: int| 0 <= l < offset && 0 <= p < N ==> #[trigger] dst[l][p] == state[p][l],
            decreases 25 - offset,
        {
            let block = load_block(state, offset);
            let t = fast_interleave(&block);
            let mut j: usize = 0;
            while j < N
                invariant
                    j <= N,
                    offset + N <= 25,
                    rows(t) == transpose(rows(block), N as nat),
                    forall|p: int, k: int| 0 <= p < N && 0 <= k < N ==> #[trigger] block[p][k] == state[p][offset + k],
                    forall|l: int, p: int| 0 <= l < offset + j && 0 <= p < N ==> #[trigger] dst[l][p] == state[p][l],
                decreases N - j,
            {
                proof {
                    assert forall|p: int| 0 <= p < N implies #[trigger] t[j as int][p] == state[p][offset + j] by {
                        assert(rows(t)[j as int][p] == transpose(rows(block), N as nat)[j as int][p]);
                    }
                }
                dst[offset + j] = t[j];
                j = j + 1;
            }
            offset = offset + N;
        }
    }
    while offset < 25
        invariant
            offset <= 25,
            forall|l: int, p: int| 0 <= l < offset && 0 <= p < N ==> #[trigger] dst[l][p] == state[p][l],
        decreases 25 - offset,
    {
        let mut v: [u64; N] = [0; N];
        let mut p: usize = 0;
        while p < N
            invariant
                p <= N,
                offset < 25,
                forall|q: int| 0 <= q < p ==> #[trigger] v[q] == state[q][offset as int],
            decreases N - p,
        {
            v[p] = state[p][offset];
            p = p + 1;
        }
        dst[offset] = v;
        offset = offset + 1;
    }
    assert forall|l: int| 0 <= l < 25 implies #[trigger] rows(dst)[l] == transpose(rows(*state), 25)[l] by {
        assert(rows(dst)[l] =~= transpose(rows(*state), 25)[l]);
    }
    assert(rows(dst) =~= transpose(rows(*state), 25));
    dst
}

/// The N canonical states held by a lane-major layout: the inverse of
/// [`interleave_state`].
pub fn uninterleave_state<const N: usize>(state: &[[u64; N]; 25]) -> (r: [[u64; 25]; N])
    ensures
        rows(r) == transpose(rows(*state), N as nat),
{
    let mut dst: [[u64; 25]; N] = [[0; 25]; N];
    let mut offset: usize = 0;
    if N > 0 {
        while N <= 25 - offset
            invariant
                0 < N,
                offset <= 25,
                forall|p: int, l: int| 0 <= p < N && 0 <= l < offset ==> #[trigger] dst[p][l] == state[l][p],
            decreases 25 - offset,
        {
            let mut block: [[u64; N]; N] = [[0; N]; N];
            let mut j: usize = 0;
            while j < N
                invariant
                    j <= N,
                    offset + N <= 25,
                    forall|k: int| 0 <= k < j ==> #[trigger] block[k] == state[offset + k],
                decreases N - j,
            {
                block[j] = state[offset + j];
                j = j + 1;
            }
            let t = fast_interleave(&block);
            let mut p: usize = 0;
            while p < N
                invariant
                    p <= N,
                    offset + N <= 25,
                    rows(t) == transpose(rows(block), N as nat),
                    forall|k: int| 0 <= k < N ==> #[trigger] block[k] == state[offset + k],
                    forall|q: int, l: int|
                        0 <= q < N && 0 <= l < offset + N && (q < p || l < offset) ==> #[trigger] dst[q][l] == state[l][q],
                decreases N - p,
            {
                let mut v = dst[p];
                let mut k: usize = 0;
                while k < N
                    invariant
                        k <= N,
                        p < N,
                        offset + N <= 25,
                        rows(t) == transpose(rows(block), N as nat),
                        forall|m: int| 0 <= m < N ==> #[trigger] block[m] == state[offset + m],
                        forall|l: int| 0 <= l < offset ==> #[trigger] v[l] == state[l][p as int],
                        forall|m: int| 0 <= m < k ==> #[trigger] v[offset + m] == state[offset + m][p as int],
                    decreases N - k,
                {
                    proof {
                        assert(rows(t)[p as int][k as int] == transpose(rows(block), N as nat)[p as int][k as int]);
                    }
                    v[offset + k] = t[p][k];
                    k = k + 1;
                }
                assert forall|l: int| 0 <= l < offset + N implies #[trigger] v[l] == state[l][p as int] by {
                    if l >= offset {
                        assert(v[offset + (l - offset)] == state[offset + (l - offset)][p as int]);
                    }
                }
                dst[p] = v;
                p = p + 1;
            }
            offset = offset + N;
        }
    }
    while offset < 25
        invariant
            offset <= 25,
            forall|p: int, l: int| 0 <= p < N && 0 <= l < offset ==> #[trigger] dst[p][l] == state[l][p],
        decreases 25 - offset,
    {
        let v = state[offset];
        let mut p: usize = 0;
        while p < N
            invariant
                p <= N,
                offset < 25,
                v == state[offset as int],
                forall|q: int, l: int|
                    0 <= q < N && 0 <= l <= offset && (q < p || l < offset) ==> #[trigger] dst[q][l] == state[l][q],
            decreases N - p,
        {
            let mut row = dst[p];
            row[offset] = v[p];
            dst[p] = row;
            p = p + 1;
        }
        offset = offset + 1;
    }
    assert forall|p: int| 0 <= p < N implies #[trigger] rows(dst)[p] == transpose(rows(*state), N as nat)[p] by {
        assert(rows(dst)[p] =~= transpose(rows(*state), N as nat)[p]);
    }
    assert(rows(dst) =~= transpose(rows(*state), N as nat));
    dst
}

} // verus!
