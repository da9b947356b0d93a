use vstd::prelude::*;
use vstd::bytes::{spec_u64_to_le_bytes, u64_from_le_bytes, u64_to_le_bytes};
use vstd::slice::slice_subrange;
use crate::model::signer::Signer;
use crate::model::wallet_config::AddressBookEntry;

verus! {

/// Appends the 32 bytes to `out`.
pub fn push_bytes32(out: &mut Vec<u8>, bytes: &[u8; 32])
    ensures
        final(out)@ == old(out)@ + bytes@,
{
    let mut i: usize = 0;
    while i < 32
        invariant
            i <= 32,
            out@ == old(out)@ + bytes@.take(i as int),
        decreases 32 - i,
    {
        out.push(bytes[i]);
        assert(bytes@.take(i + 1) =~= bytes@.take(i as int).push(bytes@[i as int]));
        assert(out@ =~= old(out)@ + bytes@.take(i + 1));
        i += 1;
    }
    assert(bytes@.take(32) =~= bytes@);
}

/// Appends `bytes` to `out`.
pub fn push_all(out: &mut Vec<u8>, bytes: &Vec<u8>)
    ensures
        final(out)@ == old(out)@ + bytes@,
{
    let mut i: usize = 0;
    while i < bytes.len()
        invariant
            i <= bytes.len(),
            out@ == old(out)@ + bytes@.take(i as int),
        decreases bytes.len() - i,
    {
        out.push(bytes[i]);
        assert(bytes@.take(i + 1) =~= bytes@.take(i as int).push(bytes@[i as int]));
        assert(out@ =~= old(out)@ + bytes@.take(i + 1));
        i += 1;
    }
    assert(bytes@.take(bytes@.len() as int) =~= bytes@);
}

/// Appends the eight bytes of `value`, least significant first, to `out`.
pub fn push_u64(out: &mut Vec<u8>, value: u64)
    ensures
        final(out)@ == old(out)@ + spec_u64_to_le_bytes(value),
{
    let bytes = u64_to_le_bytes(value);
    push_all(out, &bytes);
}

/// The keys of the signers, one after the other.
pub open spec fn signers_bytes(signers: Seq<Signer>) -> Seq<u8>
    decreases signers.len(),
{
    if signers.len() == 0 {
        Seq::empty()
    } else {
        signers_bytes(signers.drop_last()) + signers.last().key.bytes@
    }
}

/// The number of signers in eight bytes, then their keys.
pub open spec fn counted_signers_bytes(signers: Seq<Signer>) -> Seq<u8> {
    spec_u64_to_le_bytes(signers.len() as u64) + signers_bytes(signers)
}

/// The address and name hash of each entry, one after the other.
pub open spec fn entries_bytes(entries: Seq<AddressBookEntry>) -> Seq<u8>
    decreases entries.len(),
{
    if entries.len() == 0 {
        Seq::empty()
    } else {
        entries_bytes(entries.drop_last()) + entries.last().address.bytes@
            + entries.last().name_hash@
    }
}

/// The number of entries in eight bytes, then their addresses and name
/// hashes.
pub open spec fn counted_entries_bytes(entries: Seq<AddressBookEntry>) -> Seq<u8> {
    spec_u64_to_le_bytes(entries.len() as u64) + entries_bytes(entries)
}

/// Appends the number of signers and their keys to `out`.
pub fn push_signers(out: &mut Vec<u8>, signers: &Vec<Signer>)
    ensures
        final(out)@ == old(out)@ + counted_signers_bytes(signers@),
{
    push_u64(out, signers.len() as u64);
    let ghost start = out@;
    let mut i: usize = 0;
    while i < signers.len()
        invariant
            i <= signers.len(),
            out@ == start + signers_bytes(signers@.take(i as int)),
        decreases signers.len() - i,
    {
        push_bytes32(out, &signers[i].key.bytes);
        proof {
            assert(signers@.take(i + 1).drop_last() =~= signers@.take(i as int));
            assert(out@ =~= start + signers_bytes(signers@.take(i + 1)));
        }
        i += 1;
    }
    proof {
        assert(signers@.take(signers@.len() as int) =~= signers@);
        assert(out@ =~= old(out)@ + counted_signers_bytes(signers@));
    }
}

/// Appends the number of entries and their addresses and name hashes to
/// `out`.
pub fn push_entries(out: &mut Vec<u8>, entries: &Vec<AddressBookEntry>)
    ensures
        final(out)@ == old(out)@ + counted_entries_bytes(entries@),
{
    push_u64(out, entries.len() as u64);
    let ghost start = out@;
    let mut i: usize = 0;
    while i < entries.len()
        invariant
            i <= entries.len(),
            out@ == start + entries_bytes(entries@.take(i as int)),
        decreases entries.len() - i,
    {
        push_bytes32(out, &entries[i].address.bytes);
        push_bytes32(out, &entries[i].name_hash);
        proof {
            assert(entries@.take(i + 1).drop_last() =~= entries@.take(i as int));
            assert(out@ =~= start + entries_bytes(entries@.take(i + 1)));
        }
        i += 1;
    }
    proof {
        assert(entries@.take(entries@.len() as int) =~= entries@);
        assert(out@ =~= old(out)@ + counted_entries_bytes(entries@));
    }
}

/// The byte that stands for a truth value.
pub open spec fn bool_byte(b: bool) -> u8 {
    if b {
        1
    } else {
        0
    }
}

/// Whether the `count` bytes from `offset` on are all zero.
pub open spec fn zeros_at(bytes: Seq<u8>, offset: int, count: int) -> bool {
    forall|i: int| offset <= i < offset + count ==> #[trigger] bytes[i] == 0
}

/// Whether the 32 bytes from `offset` on are those of `value`.
pub open spec fn bytes32_at(value: [u8; 32], bytes: Seq<u8>, offset: int) -> bool {
    bytes.subrange(offset, offset + 32) == value@
}

/// What a sequence holds from `base` on holds, part for part, what stands
/// there.
pub proof fn lemma_embedded(out: Seq<u8>, region: Seq<u8>, base: int, a: int, b: int)
    requires
        0 <= base,
        base + region.len() <= out.len(),
        out.subrange(base, base + region.len()) == region,
        0 <= a <= b <= region.len(),
    ensures
        out.subrange(base + a, base + b) == region.subrange(a, b),
{
    assert forall|i: int| 0 <= i < b - a implies out.subrange(base + a, base + b)[i]
        == region.subrange(a, b)[i] by {
        assert(region[a + i] == out.subrange(base, base + region.len())[a + i]);
    }
    assert(out.subrange(base + a, base + b) =~= region.subrange(a, b));
}

/// Zeros in a part are zeros in the whole.
pub proof fn lemma_embedded_zeros(out: Seq<u8>, region: Seq<u8>, base: int, a: int, count: int)
    requires
        0 <= base,
        base + region.len() <= out.len(),
        out.subrange(base, base + region.len()) == region,
        0 <= a,
        0 <= count,
        a + count <= region.len(),
        zeros_at(region, a, count),
    ensures
        zeros_at(out, base + a, count),
{
    assert forall|i: int| base + a <= i < base + a + count implies #[trigger] out[i] == 0 by {
        assert(out[i] == out.subrange(base, base + region.len())[i - base]);
        assert(region[i - base] == 0);
    }
}

/// Appends `count` zeros to `out`.
pub fn push_zeros(out: &mut Vec<u8>, count: usize)
    ensures
        final(out)@.len() == old(out)@.len() + count,
        final(out)@.subrange(0, old(out)@.len() as int) == old(out)@,
        zeros_at(final(out)@, old(out)@.len() as int, count as int),
{
    let mut i: usize = 0;
    while i < count
        invariant
            i <= count,
            out@.len() == old(out)@.len() + i,
            out@.subrange(0, old(out)@.len() as int) == old(out)@,
            zeros_at(out@, old(out)@.len() as int, i as int),
        decreases count - i,
    {
        let ghost before = out@;
        out.push(0);
        assert(out@.subrange(0, old(out)@.len() as int) =~= before.subrange(
            0,
            old(out)@.len() as int,
        ));
        assert forall|k: int|
            old(out)@.len() <= k < old(out)@.len() + i + 1 implies #[trigger] out@[k] == 0 by {
            if k < old(out)@.len() + i {
                assert(before[k] == 0);
            }
        }
        i += 1;
    }
}

/// Appends the bytes of a slice to `out`.
pub fn push_slice(out: &mut Vec<u8>, bytes: &[u8])
    ensures
        final(out)@ == old(out)@ + bytes@,
{
    let mut i: usize = 0;
    while i < bytes.len()
        invariant
            i <= bytes.len(),
            out@ == old(out)@ + bytes@.take(i as int),
        decreases bytes.len() - i,
    {
        out.push(bytes[i]);
        assert(bytes@.take(i + 1) =~= bytes@.take(i as int).push(bytes@[i as int]));
        assert(out@ =~= old(out)@ + bytes@.take(i + 1));
        i += 1;
    }
    assert(bytes@.take(bytes@.len() as int) =~= bytes@);
}

/// The byte that stands for a truth value.
pub fn byte_of(b: bool) -> (r: u8)
    ensures
        r == bool_byte(b),
{
    if b {
        1
    } else {
        0
    }
}

/// The 32 bytes from `offset` on.
pub fn read32(src: &[u8], offset: usize) -> (r: [u8; 32])
    requires
        offset + 32 <= src@.len(),
        src@.len() <= usize::MAX,
    ensures
        r@ == src@.subrange(offset as int, offset + 32),
{
    let mut out = [0u8;32];
    let mut i: usize = 0;
    while i < 32
        invariant
            i <= 32,
            offset + 32 <= src@.len(),
            src@.len() <= usize::MAX,
            forall|j: int| 0 <= j < i ==> out@[j] == src@[offset + j],
        decreases 32 - i,
    {
        out[i] = src[offset + i];
        i += 1;
    }
    assert(out@ =~= src@.subrange(offset as int, offset + 32));
    out
}

/// Whether the `count` bytes from `offset` on are all zero.
pub fn all_zero(src: &[u8], offset: usize, count: usize) -> (r: bool)
    requires
        offset + count <= src@.len(),
        src@.len() <= usize::MAX,
    ensures
        r == zeros_at(src@, offset as int, count as int),
{
    let mut i: usize = 0;
    while i < count
        invariant
            i <= count,
            offset + count <= src@.len(),
            src@.len() <= usize::MAX,
            zeros_at(src@, offset as int, i as int),
        decreases count - i,
    {
        if src[offset + i] != 0 {
            assert(src@[offset + i] != 0);
            return false;
        }
        i += 1;
    }
    true
}

/// The truth value that a byte stands for, if it stands for one.
pub fn bool_of(byte: u8) -> (r: Option<bool>)
    ensures
        match r {
            Some(b) => byte == bool_byte(b),
            None => byte != 0 && byte != 1,
        },
{
    if byte == 0 {
        Some(false)
    } else if byte == 1 {
        Some(true)
    } else {
        None
    }
}

/// Bytes that are not all zero hold one that is not.
pub proof fn lemma_not_zeros(bytes: Seq<u8>, offset: int, count: int) -> (j: int)
    requires
        !zeros_at(bytes, offset, count),
    ensures
        0 <= j < count,
        bytes[offset + j] != 0,
{
    let i = choose|i: int| offset <= i < offset + count && #[trigger] bytes[i] != 0;
    i - offset
}

/// The eight bytes that stand for a moment: those of the number with the
/// same bits, least significant first.
pub open spec fn i64_bytes(value: i64) -> Seq<u8> {
    spec_u64_to_le_bytes(value as u64)
}

/// Appends the eight bytes that stand for `value` to `out`.
pub fn push_i64(out: &mut Vec<u8>, value: i64)
    ensures
        final(out)@ == old(out)@ + i64_bytes(value),
        i64_bytes(value).len() == 8,
{
    proof {
        vstd::bytes::lemma_auto_spec_u64_to_from_le_bytes();
    }
    push_u64(out, #[verifier::truncate] (value as u64));
}

/// The moment that the eight bytes from `offset` on stand for.
pub fn read_i64(src: &[u8], offset: usize) -> (r: i64)
    requires
        offset + 8 <= src@.len(),
        src@.len() <= usize::MAX,
    ensures
        i64_bytes(r) == src@.subrange(offset as int, offset + 8),
{
    let bits = u64_from_le_bytes(slice_subrange(src, offset, offset + 8));
    let value = #[verifier::truncate] (bits as i64);
    proof {
        vstd::bytes::lemma_auto_spec_u64_to_from_le_bytes();
        assert((bits as i64) as u64 == bits) by (bit_vector);
        assert(spec_u64_to_le_bytes(bits) == src@.subrange(offset as int, offset + 8));
    }
    value
}

/// Eight bytes stand for one moment.
pub proof fn lemma_i64_bytes_one(a: i64, b: i64)
    requires
        i64_bytes(a) == i64_bytes(b),
    ensures
        a == b,
{
    vstd::bytes::lemma_auto_spec_u64_to_from_le_bytes();
    let x = a as u64;
    let y = b as u64;
    assert(spec_u64_to_le_bytes(x).len() == 8);
    assert(spec_u64_to_le_bytes(y).len() == 8);
    assert(x == y);
    assert(a as u64 == b as u64 ==> a == b) by (bit_vector);
}


/// Writes `bytes` over `dst`.
pub fn write_over(dst: &mut [u8], bytes: &Vec<u8>)
    requires
        old(dst)@.len() == bytes@.len(),
    ensures
        final(dst)@ == bytes@,
{
    let mut i: usize = 0;
    while i < bytes.len()
        invariant
            i <= bytes.len(),
            dst@.len() == bytes@.len(),
            forall|k: int| 0 <= k < i ==> dst@[k] == bytes@[k],
        decreases bytes.len() - i,
    {
        dst[i] = bytes[i];
        i += 1;
    }
    assert(dst@ =~= bytes@);
}

} // verus!
