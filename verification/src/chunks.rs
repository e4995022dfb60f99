use vstd::prelude::*;

verus! {

/// The byte range of chunk `i` when a buffer of `len` bytes is split into `n`
/// chunks of `len / n` bytes each (the remainder is not handed out).
pub open spec fn spec_chunk(len: int, n: int, i: int) -> (int, int) {
    (i * (len / n), (i + 1) * (len / n))
}

/// See `spec_chunk`.
pub fn chunk_bounds(len: usize, n: usize, i: usize) -> (r: (usize, usize))
    requires
        n > 0,
        i < n,
    ensures
        r.0 == spec_chunk(len as int, n as int, i as int).0,
        r.1 == spec_chunk(len as int, n as int, i as int).1,
        r.0 <= r.1 <= len,
{
    let size = len / n;
    proof {
        lemma_chunk_in_buffer(len as int, n as int, i as int);
    }
    (i * size, (i + 1) * size)
}

proof fn lemma_chunk_in_buffer(len: int, n: int, i: int)
    requires
        len >= 0,
        n > 0,
        0 <= i < n,
    ensures
        0 <= spec_chunk(len, n, i).0 <= spec_chunk(len, n, i).1 <= len,
{
    let size = len / n;
    assert(0 <= i * size <= (i + 1) * size <= n * size) by (nonlinear_arith)
        requires
            0 <= i < n,
            size >= 0,
    ;
    assert(n * size <= len) by (nonlinear_arith)
        requires
            n > 0,
            size == len / n,
            len >= 0,
    ;
}

/// The chunks lie in the buffer, in order and without overlapping: every
/// worker gets its own part of the buffer.
pub proof fn lemma_chunks_disjoint(len: int, n: int, i: int, j: int)
    requires
        len >= 0,
        n > 0,
        0 <= i < j < n,
    ensures
        spec_chunk(len, n, j).1 <= len,
        spec_chunk(len, n, i).1 <= spec_chunk(len, n, j).0,
{
    lemma_chunk_in_buffer(len, n, j);
    let size = len / n;
    assert((i + 1) * size <= j * size) by (nonlinear_arith)
        requires
            i < j,
            size >= 0,
    ;
}

} // verus!
