//! Faces are stored row by row: the place of a texel in the storage of its
//! face, and what follows from it.

use vstd::prelude::*;

verus! {

/// The place of texel `(x, y)` in a face stored row by row.
pub open spec fn texel_index(size: int, texel: (int, int)) -> int {
    texel.0 + size * texel.1
}

/// A texel of a face has its index inside the storage of the face.
pub proof fn lemma_index_bound(size: int, x: int, y: int)
    requires
        0 <= x < size,
        0 <= y < size,
    ensures
        0 <= texel_index(size, (x, y)) < size * size,
        size * y <= size * (size - 1),
{
    assert(0 <= size * y && size * y + size <= size * size) by (nonlinear_arith)
        requires
            0 <= y < size,
    ;
    assert(size * (size - 1) == size * size - size) by (nonlinear_arith);
}

/// Texels are stored in the order of their rows, and within a row in the
/// order of their columns.
pub proof fn lemma_index_order(size: int, u: int, v: int, x: int, y: int)
    requires
        0 <= u < size,
        0 <= v,
        0 <= x < size,
        0 <= y,
    ensures
        (v < y || (v == y && u < x)) <==> texel_index(size, (u, v)) < texel_index(size, (x, y)),
        (v == y && u == x) <==> texel_index(size, (u, v)) == texel_index(size, (x, y)),
{
    if v < y {
        assert(size * v + size <= size * y) by (nonlinear_arith)
            requires
                v + 1 <= y,
                0 < size,
        ;
    } else if v > y {
        assert(size * y + size <= size * v) by (nonlinear_arith)
            requires
                y + 1 <= v,
                0 < size,
        ;
    }
}

} // verus!
