//! Byte strings cut into chunks of equal size, but for a shorter one at the end.
use vstd::prelude::*;

verus! {

/// Where chunk `i` of a string of `len` bytes begins; its end if there is no
/// such chunk.
pub open spec fn chunk_start(len: nat, size: nat, i: nat) -> nat {
    if i * size < len {
        i * size
    } else {
        len
    }
}

/// Chunk `i` of a string.
pub open spec fn chunk(data: Seq<u8>, size: nat, i: nat) -> Seq<u8> {
    data.subrange(
        chunk_start(data.len(), size, i) as int,
        chunk_start(data.len(), size, i + 1) as int,
    )
}

/// Whether a string of `len` bytes has a chunk `i`.
pub open spec fn has_chunk(len: nat, size: nat, i: nat) -> bool {
    i * size < len
}

/// The number of chunks in a string of `len` bytes.
pub open spec fn chunk_count(len: nat, size: nat) -> nat
    recommends
        size > 0,
{
    ((len + size - 1) / size as int) as nat
}

/// The chunk after one that begins at `start` begins a whole chunk later, or at
/// the end.
pub proof fn lemma_chunk_step(len: nat, size: nat, i: nat)
    ensures
        chunk_start(len, size, i) <= chunk_start(len, size, i + 1) <= len,
        has_chunk(len, size, i) ==> chunk_start(len, size, i + 1) == if len - chunk_start(
            len,
            size,
            i,
        ) > size {
            chunk_start(len, size, i) + size
        } else {
            len
        },
        !has_chunk(len, size, i) ==> chunk_start(len, size, i + 1) == len,
        has_chunk(len, size, i) <==> chunk_start(len, size, i) < len,
{
    assert((i + 1) * size == i * size + size) by (nonlinear_arith);
    assert(i * size >= 0) by (nonlinear_arith);
}

/// A string has as many chunks as are counted.
pub proof fn lemma_chunk_count(len: nat, size: nat, i: nat)
    requires
        size > 0,
    ensures
        has_chunk(len, size, i) <==> i < chunk_count(len, size),
{
    let q = (len + size - 1) / size as int;
    let r = (len + size - 1) % size as int;
    vstd::arithmetic::div_mod::lemma_fundamental_div_mod(len + size - 1, size as int);
    assert(0 <= r < size) by {
        vstd::arithmetic::div_mod::lemma_mod_bound(len + size - 1, size as int);
    }
    assert(q >= 0) by (nonlinear_arith)
        requires
            len + size - 1 == size * q + r,
            0 <= r < size,
            size > 0,
            len >= 0,
    ;
    if i < q {
        assert(i * size < len) by (nonlinear_arith)
            requires
                i + 1 <= q,
                len + size - 1 == size * q + r,
                0 <= r < size,
                size > 0,
        ;
    } else {
        assert(i * size >= len) by (nonlinear_arith)
            requires
                i >= q,
                len + size - 1 == size * q + r,
                0 <= r < size,
                size > 0,
        ;
    }
}

/// Byte `at` of a string lies in chunk `at / size`.
pub proof fn lemma_chunk_of(len: nat, size: nat, at: nat)
    requires
        size > 0,
        at < len,
    ensures
        has_chunk(len, size, at / size),
        chunk_start(len, size, at / size) <= at < chunk_start(len, size, at / size + 1),
{
    let q = at / size;
    vstd::arithmetic::div_mod::lemma_fundamental_div_mod(at as int, size as int);
    vstd::arithmetic::div_mod::lemma_mod_bound(at as int, size as int);
    assert(q * size <= at < (q + 1) * size) by (nonlinear_arith)
        requires
            at == size * q + at % size,
            0 <= at % size < size,
    ;
}

/// The first `n` chunks of a string, one after the other.
pub open spec fn joined(data: Seq<u8>, size: nat, n: nat) -> Seq<u8>
    decreases n,
{
    if n == 0 {
        seq![]
    } else {
        joined(data, size, (n - 1) as nat) + chunk(data, size, (n - 1) as nat)
    }
}

/// The chunks of a string, one after the other, are the string; each but the
/// last has the full size, and the last is not empty.
pub proof fn law_chunks_make_string(data: Seq<u8>, size: nat)
    requires
        size > 0,
    ensures
        joined(data, size, chunk_count(data.len(), size)) == data,
        forall|i: nat|
            i < chunk_count(data.len(), size) ==> 0 < #[trigger] chunk(data, size, i).len() <= size,
        forall|i: nat|
            i + 1 < chunk_count(data.len(), size) ==> #[trigger] chunk(data, size, i).len() == size,
{
    let count = chunk_count(data.len(), size);
    lemma_joined(data, size, count);
    lemma_chunk_count(data.len(), size, count);
    assert(data.take(data.len() as int) =~= data);
    assert forall|i: nat| i < count implies 0 < #[trigger] chunk(data, size, i).len() <= size by {
        lemma_chunk_count(data.len(), size, i);
        lemma_chunk_step(data.len(), size, i);
    }
    assert forall|i: nat| i + 1 < count implies #[trigger] chunk(data, size, i).len() == size by {
        lemma_chunk_count(data.len(), size, i);
        lemma_chunk_count(data.len(), size, i + 1);
        lemma_chunk_step(data.len(), size, i);
        assert((i + 1) * size == i * size + size) by (nonlinear_arith);
    }
}

proof fn lemma_joined(data: Seq<u8>, size: nat, n: nat)
    requires
        size > 0,
    ensures
        joined(data, size, n) == data.take(chunk_start(data.len(), size, n) as int),
    decreases n,
{
    if n == 0 {
        assert(0 * size == 0) by (nonlinear_arith);
        assert(joined(data, size, n) =~= data.take(0));
    } else {
        let i = (n - 1) as nat;
        lemma_joined(data, size, i);
        lemma_chunk_step(data.len(), size, i);
        assert(joined(data, size, n) =~= data.take(chunk_start(data.len(), size, n) as int));
    }
}

} // verus!
