//! Byte strings: big-endian integers, comparison and concatenation.
use vstd::prelude::*;

verus! {

/// The four bytes of `n`, most significant first.
pub open spec fn be32(n: u32) -> Seq<u8> {
    seq![
        (n / 0x100_0000) as u8,
        (n / 0x1_0000 % 0x100) as u8,
        (n / 0x100 % 0x100) as u8,
        (n % 0x100) as u8,
    ]
}

/// The number that the first four bytes of `s` spell, most significant first.
pub open spec fn be32_value(s: Seq<u8>) -> u32
    recommends
        s.len() >= 4,
{
    (s[0] * 0x100_0000 + s[1] * 0x1_0000 + s[2] * 0x100 + s[3]) as u32
}

/// `be32_value` reads back what `be32` writes, whatever bytes follow.
pub proof fn lemma_be32_value(n: u32, rest: Seq<u8>)
    ensures
        be32(n).len() == 4,
        be32_value(be32(n) + rest) == n,
{
}

/// Appends the big-endian form of `n` to `out`.
pub fn push_be32(out: &mut Vec<u8>, n: u32)
    ensures
        final(out)@ == old(out)@ + be32(n),
{
    out.push((n / 0x100_0000) as u8);
    out.push((n / 0x1_0000 % 0x100) as u8);
    out.push((n / 0x100 % 0x100) as u8);
    out.push((n % 0x100) as u8);
    assert(out@ =~= old(out)@ + be32(n));
}

/// Reads a big-endian number from the start of `bytes`.
pub fn read_be32(bytes: &[u8]) -> (n: u32)
    requires
        bytes@.len() >= 4,
    ensures
        n == be32_value(bytes@),
{
    bytes[0] as u32 * 0x100_0000 + bytes[1] as u32 * 0x1_0000 + bytes[2] as u32 * 0x100
        + bytes[3] as u32
}

/// Whether two byte strings are equal.
pub fn same_bytes(a: &[u8], b: &[u8]) -> (same: bool)
    ensures
        same == (a@ == b@),
{
    if a.len() != b.len() {
        return false;
    }
    let mut i: usize = 0;
    while i < a.len()
        invariant
            a@.len() == b@.len(),
            i <= a@.len(),
            forall|j: int| 0 <= j < i ==> a@[j] == b@[j],
        decreases a@.len() - i,
    {
        if a[i] != b[i] {
            return false;
        }
        i += 1;
    }
    assert(a@ =~= b@);
    true
}

/// Whether `byte` occurs in `bytes`.
pub fn contains_byte(bytes: &[u8], byte: u8) -> (found: bool)
    ensures
        found == bytes@.contains(byte),
{
    let mut i: usize = 0;
    while i < bytes.len()
        invariant
            i <= bytes@.len(),
            forall|j: int| 0 <= j < i ==> bytes@[j] != byte,
        decreases bytes@.len() - i,
    {
        if bytes[i] == byte {
            assert(bytes@[i as int] == byte);
            return true;
        }
        i += 1;
    }
    false
}

/// Appends `bytes` to `out`.
pub fn push_bytes(out: &mut Vec<u8>, bytes: &[u8])
    ensures
        final(out)@ == old(out)@ + bytes@,
{
    let mut i: usize = 0;
    while i < bytes.len()
        invariant
            i <= bytes@.len(),
            out@ == old(out)@ + bytes@.take(i as int),
        decreases bytes@.len() - i,
    {
        out.push(bytes[i]);
        i += 1;
        assert(out@ =~= old(out)@ + bytes@.take(i as int));
    }
    assert(bytes@.take(i as int) =~= bytes@);
}

/// A copy of the bytes from `from` up to `to`.
pub fn copy_range(bytes: &[u8], from: usize, to: usize) -> (copy: Vec<u8>)
    requires
        from <= to <= bytes@.len(),
    ensures
        copy@ == bytes@.subrange(from as int, to as int),
{
    let mut copy: Vec<u8> = Vec::new();
    let mut i: usize = from;
    while i < to
        invariant
            from <= i <= to <= bytes@.len(),
            copy@ == bytes@.subrange(from as int, i as int),
        decreases to - i,
    {
        copy.push(bytes[i]);
        i += 1;
        assert(copy@ =~= bytes@.subrange(from as int, i as int));
    }
    copy
}

/// `target` with `data` written over it from position `at`.
pub open spec fn overwritten(target: Seq<u8>, at: int, data: Seq<u8>) -> Seq<u8> {
    Seq::new(
        target.len(),
        |i: int| if at <= i < at + data.len() { data[i - at] } else { target[i] },
    )
}

/// Writes the bytes of `data` from `from` on over `target`, starting at `at`.
pub fn overwrite(target: &mut Vec<u8>, at: usize, data: &[u8], from: usize)
    requires
        from <= data@.len(),
        at + (data@.len() - from) <= old(target)@.len(),
    ensures
        final(target)@ == overwritten(
            old(target)@,
            at as int,
            data@.skip(from as int),
        ),
{
    let ghost before = target@;
    let total: usize = target.len();
    let count: usize = data.len() - from;
    let mut i: usize = 0;
    while i < count
        invariant
            from + count == data@.len(),
            from + count <= usize::MAX,
            i <= count,
            at + count <= total,
            total == before.len(),
            target@.len() == before.len(),
            forall|j: int|
                0 <= j < before.len() ==> #[trigger] target@[j] == if at <= j < at + i {
                    data@[from + (j - at)]
                } else {
                    before[j]
                },
        decreases count - i,
    {
        target.set(at + i, data[from + i]);
        i += 1;
    }
    assert(target@ =~= overwritten(before, at as int, data@.skip(from as int)));
}

/// The four bytes of a number make it up again, the first one counting most.
pub proof fn law_be32_is_positional(n: u32)
    ensures
        be32(n).len() == 4,
        ((be32(n)[0] * 256 + be32(n)[1]) * 256 + be32(n)[2]) * 256 + be32(n)[3] == n,
{
}

/// Four bytes are read as digits to the base 256, the first one counting most,
/// and what follows them does not matter.
pub proof fn law_be32_value_is_positional(s: Seq<u8>)
    requires
        s.len() >= 4,
    ensures
        be32_value(s) == ((s[0] * 256 + s[1]) * 256 + s[2]) * 256 + s[3],
{
}

/// What is written over a string stands there, and all around it is as it was.
pub proof fn law_overwritten_is_local(target: Seq<u8>, at: int, data: Seq<u8>)
    requires
        0 <= at,
        at + data.len() <= target.len(),
    ensures
        overwritten(target, at, data) == target.take(at) + data + target.skip(at + data.len()),
{
    assert(overwritten(target, at, data) =~= target.take(at) + data + target.skip(
        at + data.len(),
    ));
}

} // verus!
