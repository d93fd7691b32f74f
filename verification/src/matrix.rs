//! The data movement of the matrix benchmark: transposing a square matrix
//! stored row by row. The arithmetic kernels work on floating point and are
//! not part of this library.

use vstd::prelude::*;

verus! {

/// Distinct cells of an `n` by `n` matrix sit at distinct positions, all
/// below `n * n`.
proof fn lemma_cell_position(n: int, r1: int, c1: int, r2: int, c2: int)
    requires
        0 <= r1 < n,
        0 <= c1 < n,
        0 <= r2 < n,
        0 <= c2 < n,
    ensures
        r1 * n + c1 < n * n,
        (r1 * n + c1 == r2 * n + c2) ==> (r1 == r2 && c1 == c2),
{
    assert(r1 * n + c1 < n * n) by (nonlinear_arith)
        requires
            0 <= r1 < n,
            0 <= c1 < n,
    ;
    assert((r1 * n + c1 == r2 * n + c2) ==> (r1 == r2 && c1 == c2)) by (nonlinear_arith)
        requires
            0 <= r1 < n,
            0 <= c1 < n,
            0 <= r2 < n,
            0 <= c2 < n,
    ;
}

/// Writes the transpose of the `n` by `n` matrix `m` (row by row) into
/// `t`: the entry in row `i`, column `j` of `m` goes to row `j`, column `i`.
/// The rest of `t` is left alone.
pub fn transpose<T: Copy>(t: &mut [T], m: &[T], n: usize)
    requires
        n * n <= old(t)@.len(),
        n * n <= m@.len(),
    ensures
        final(t)@.len() == old(t)@.len(),
        forall|i: int, j: int| 0 <= i < n && 0 <= j < n ==> #[trigger] final(t)@[j * n + i] == m@[i * n + j],
        forall|k: int| n * n <= k < old(t)@.len() ==> #[trigger] final(t)@[k] == old(t)@[k],
{
    let ghost start = t@;
    let mut i: usize = 0;
    while i < n
        invariant
            i <= n,
            n * n <= t.len(),
            n * n <= m@.len(),
            t@.len() == start.len(),
            forall|a: int, b: int| 0 <= a < i && 0 <= b < n ==> #[trigger] t@[b * n + a] == m@[a * n + b],
            forall|k: int| n * n <= k < start.len() ==> #[trigger] t@[k] == start[k],
        decreases n - i,
    {
        let mut j: usize = 0;
        while j < n
            invariant
                i < n,
                j <= n,
                n * n <= t.len(),
                n * n <= m@.len(),
                t@.len() == start.len(),
                forall|a: int, b: int| 0 <= a < i && 0 <= b < n ==> #[trigger] t@[b * n + a] == m@[a * n + b],
                forall|b: int| 0 <= b < j ==> #[trigger] t@[b * n + i] == m@[i * n + b],
                forall|k: int| n * n <= k < start.len() ==> #[trigger] t@[k] == start[k],
            decreases n - j,
        {
            proof {
                lemma_cell_position(n as int, j as int, i as int, 0, 0);
                lemma_cell_position(n as int, i as int, j as int, 0, 0);
            }
            let dst = j * n + i;
            let src = i * n + j;
            let ghost before = t@;
            t[dst] = m[src];
            proof {
                assert forall|a: int, b: int| 0 <= a < i && 0 <= b < n implies #[trigger] t@[b * n + a] == m@[a * n + b] by {
                    lemma_cell_position(n as int, b, a, j as int, i as int);
                    assert(before[b * n + a] == m@[a * n + b]);
                }
                assert forall|b: int| 0 <= b < j + 1 implies #[trigger] t@[b * n + i] == m@[i * n + b] by {
                    lemma_cell_position(n as int, b, i as int, j as int, i as int);
                    if b < j {
                        assert(before[b * n + i] == m@[i * n + b]);
                    }
                }
            }
            j = j + 1;
        }
        i = i + 1;
    }
}

} // verus!
