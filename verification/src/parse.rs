use vstd::prelude::*;
use vstd::bytes::{spec_u64_to_le_bytes, u64_from_le_bytes};
use vstd::slice::slice_subrange;
use crate::model::signer::Signer;
use crate::model::wallet_config::AddressBookEntry;
use crate::pack::{
    counted_entries_bytes, counted_signers_bytes, entries_bytes, lemma_embedded, push_slice,
    read32, signers_bytes,
};
use crate::pubkey::Pubkey;

verus! {

/// Whether `part` stands in `src` from `pos` on.
pub open spec fn starts(src: Seq<u8>, pos: int, part: Seq<u8>) -> bool {
    &&& 0 <= pos
    &&& pos + part.len() <= src.len()
    &&& src.subrange(pos, pos + part.len()) == part
}

/// Two parts stand one behind the other where their concatenation stands.
pub proof fn lemma_starts_concat(src: Seq<u8>, pos: int, a: Seq<u8>, b: Seq<u8>)
    ensures
        starts(src, pos, a + b) <==> starts(src, pos, a) && starts(src, pos + a.len(), b),
{
    if starts(src, pos, a + b) {
        assert(src.subrange(pos, pos + a.len()) =~= a) by {
            assert forall|i: int| 0 <= i < a.len() implies src.subrange(pos, pos + a.len())[i]
                == a[i] by {
                assert(src.subrange(pos, pos + (a + b).len())[i] == (a + b)[i]);
            }
        }
        assert(src.subrange(pos + a.len(), pos + a.len() + b.len()) =~= b) by {
            assert forall|i: int| 0 <= i < b.len() implies src.subrange(
                pos + a.len(),
                pos + a.len() + b.len(),
            )[i] == b[i] by {
                assert(src.subrange(pos, pos + (a + b).len())[a.len() + i] == (a + b)[a.len() + i]);
            }
        }
    }
    if starts(src, pos, a) && starts(src, pos + a.len(), b) {
        assert(src.subrange(pos, pos + (a + b).len()) =~= a + b) by {
            assert forall|i: int| 0 <= i < (a + b).len() implies src.subrange(
                pos,
                pos + (a + b).len(),
            )[i] == (a + b)[i] by {
                if i < a.len() {
                    assert(src.subrange(pos, pos + a.len())[i] == a[i]);
                } else {
                    assert(src.subrange(pos + a.len(), pos + a.len() + b.len())[i - a.len()]
                        == b[i - a.len()]);
                }
            }
        }
    }
}

/// One byte stands at its place.
pub proof fn lemma_starts_byte(src: Seq<u8>, pos: int, byte: u8)
    ensures
        starts(src, pos, seq![byte]) <==> 0 <= pos < src.len() && src[pos] == byte,
{
    if starts(src, pos, seq![byte]) {
        assert(src.subrange(pos, pos + 1)[0] == byte);
    }
    if 0 <= pos < src.len() && src[pos] == byte {
        assert(src.subrange(pos, pos + 1) =~= seq![byte]);
    }
}

/// The number that the eight bytes from `pos` on stand for, and the place
/// behind them; nothing where fewer than eight bytes are left.
pub fn parse_u64(src: &[u8], pos: usize) -> (r: Option<(u64, usize)>)
    requires
        pos <= src@.len(),
    ensures
        match r {
            Some((value, next)) => next == pos + 8 && starts(
                src@,
                pos as int,
                spec_u64_to_le_bytes(value),
            ),
            None => pos + 8 > src@.len(),
        },
        forall|value: u64| #[trigger]
            starts(src@, pos as int, spec_u64_to_le_bytes(value)) ==> r is Some && r->Some_0.0
                == value,
{
    proof {
        vstd::bytes::lemma_auto_spec_u64_to_from_le_bytes();
    }
    if src.len() - pos < 8 {
        proof {
            assert forall|value: u64| #[trigger]
                starts(src@, pos as int, spec_u64_to_le_bytes(value)) implies false by {
                assert(spec_u64_to_le_bytes(value).len() == 8);
            }
        }
        return None;
    }
    let value = u64_from_le_bytes(slice_subrange(src, pos, pos + 8));
    proof {
        assert(spec_u64_to_le_bytes(value) == src@.subrange(pos as int, pos + 8));
        assert(spec_u64_to_le_bytes(value).len() == 8);
        assert forall|other: u64| #[trigger]
            starts(src@, pos as int, spec_u64_to_le_bytes(other)) implies other == value by {
            assert(spec_u64_to_le_bytes(other).len() == 8);
        }
    }
    Some((value, pos + 8))
}

/// The 32 bytes from `pos` on, and the place behind them; nothing where
/// fewer than 32 bytes are left.
pub fn parse_bytes32(src: &[u8], pos: usize) -> (r: Option<([u8; 32], usize)>)
    requires
        pos <= src@.len(),
    ensures
        match r {
            Some((value, next)) => next == pos + 32 && starts(src@, pos as int, value@),
            None => pos + 32 > src@.len(),
        },
        forall|value: [u8; 32]| #[trigger]
            starts(src@, pos as int, value@) ==> r is Some && r->Some_0.0 == value,
{
    if src.len() - pos < 32 {
        return None;
    }
    let value = read32(src, pos);
    proof {
        assert forall|other: [u8; 32]| #[trigger] starts(src@, pos as int, other@) implies other
            == value by {
            assert(other@ == value@);
            assert(other =~= value);
        }
    }
    Some((value, pos + 32))
}

/// The bytes of a list of signers are 32 for each, and those of a signer are
/// its key.
pub proof fn lemma_signers_bytes(signers: Seq<Signer>)
    ensures
        signers_bytes(signers).len() == 32 * signers.len(),
        forall|i: int|
            0 <= i < signers.len() ==> signers_bytes(signers).subrange(32 * i, 32 * i + 32)
                == (#[trigger] signers[i]).key.bytes@,
    decreases signers.len(),
{
    if signers.len() > 0 {
        let front = signers.drop_last();
        lemma_signers_bytes(front);
        let all = signers_bytes(signers);
        assert forall|i: int| 0 <= i < signers.len() implies all.subrange(32 * i, 32 * i + 32)
            == (#[trigger] signers[i]).key.bytes@ by {
            if i < front.len() {
                assert(all.subrange(32 * i, 32 * i + 32) =~= signers_bytes(front).subrange(
                    32 * i,
                    32 * i + 32,
                ));
                assert(front[i] == signers[i]);
            } else {
                assert(all.subrange(32 * i, 32 * i + 32) =~= signers.last().key.bytes@);
            }
        }
    }
}

/// The bytes of a list of entries are 64 for each, and those of an entry are
/// its address and its name hash.
pub proof fn lemma_entries_bytes(entries: Seq<AddressBookEntry>)
    ensures
        entries_bytes(entries).len() == 64 * entries.len(),
        forall|i: int|
            0 <= i < entries.len() ==> entries_bytes(entries).subrange(64 * i, 64 * i + 32)
                == (#[trigger] entries[i]).address.bytes@ && entries_bytes(entries).subrange(
                64 * i + 32,
                64 * i + 64,
            ) == entries[i].name_hash@,
    decreases entries.len(),
{
    if entries.len() > 0 {
        let front = entries.drop_last();
        lemma_entries_bytes(front);
        let all = entries_bytes(entries);
        assert forall|i: int| 0 <= i < entries.len() implies all.subrange(64 * i, 64 * i + 32)
            == (#[trigger] entries[i]).address.bytes@ && all.subrange(64 * i + 32, 64 * i + 64)
            == entries[i].name_hash@ by {
            if i < front.len() {
                assert(all.subrange(64 * i, 64 * i + 32) =~= entries_bytes(front).subrange(
                    64 * i,
                    64 * i + 32,
                ));
                assert(all.subrange(64 * i + 32, 64 * i + 64) =~= entries_bytes(front).subrange(
                    64 * i + 32,
                    64 * i + 64,
                ));
                assert(front[i] == entries[i]);
            } else {
                assert(all.subrange(64 * i, 64 * i + 32) =~= entries.last().address.bytes@);
                assert(all.subrange(64 * i + 32, 64 * i + 64) =~= entries.last().name_hash@);
            }
        }
    }
}

/// Keys that stand one behind the other are the bytes of their signers.
proof fn lemma_signers_stand(src: Seq<u8>, pos: int, signers: Seq<Signer>)
    requires
        0 <= pos,
        pos + 32 * signers.len() <= src.len(),
        forall|j: int|
            0 <= j < signers.len() ==> src.subrange(pos + 32 * j, pos + 32 * j + 32)
                == (#[trigger] signers[j]).key.bytes@,
    ensures
        starts(src, pos, signers_bytes(signers)),
    decreases signers.len(),
{
    lemma_signers_bytes(signers);
    if signers.len() > 0 {
        let front = signers.drop_last();
        assert forall|j: int| 0 <= j < front.len() implies src.subrange(
            pos + 32 * j,
            pos + 32 * j + 32,
        ) == (#[trigger] front[j]).key.bytes@ by {
            assert(front[j] == signers[j]);
        }
        lemma_signers_stand(src, pos, front);
        lemma_signers_bytes(front);
        assert(signers[signers.len() - 1] == signers.last());
        lemma_starts_concat(src, pos, signers_bytes(front), signers.last().key.bytes@);
    } else {
        assert(src.subrange(pos, pos) =~= signers_bytes(signers));
    }
}

/// The signers whose number and keys stand from `pos` on, and the place
/// behind them. Where the bytes of a list of signers stand there, it is that
/// list; where none do, nothing.
pub fn parse_signers(src: &[u8], pos: usize) -> (r: Option<(Vec<Signer>, usize)>)
    requires
        pos <= src@.len(),
    ensures
        r is Some ==> starts(src@, pos as int, counted_signers_bytes(r->Some_0.0@)) && r->Some_0.1
            == pos + counted_signers_bytes(r->Some_0.0@).len(),
        forall|signers: Seq<Signer>| #[trigger]
            starts(src@, pos as int, counted_signers_bytes(signers)) ==> r is Some
                && r->Some_0.0@ == signers,
{
    let total = src.len();
    proof {
        vstd::bytes::lemma_auto_spec_u64_to_from_le_bytes();
    }
    let (count, first) = match parse_u64(src, pos) {
        Some(parsed) => parsed,
        None => {
            proof {
                assert forall|signers: Seq<Signer>| #[trigger]
                    starts(src@, pos as int, counted_signers_bytes(signers)) implies false by {
                    lemma_starts_concat(
                        src@,
                        pos as int,
                        spec_u64_to_le_bytes(signers.len() as u64),
                        signers_bytes(signers),
                    );
                    assert(spec_u64_to_le_bytes(signers.len() as u64).len() == 8);
                }
            }
            return None;
        },
    };
    proof {
        assert forall|signers: Seq<Signer>| #[trigger]
            starts(src@, pos as int, counted_signers_bytes(signers)) implies signers.len() == count
            && starts(src@, first as int, signers_bytes(signers)) by {
            lemma_starts_concat(
                src@,
                pos as int,
                spec_u64_to_le_bytes(signers.len() as u64),
                signers_bytes(signers),
            );
            assert(spec_u64_to_le_bytes(signers.len() as u64).len() == 8);
            lemma_signers_bytes(signers);
            assert(signers.len() as u64 == count);
        }
    }
    if count > ((total - first) / 32) as u64 {
        proof {
            assert forall|signers: Seq<Signer>| #[trigger]
                starts(src@, pos as int, counted_signers_bytes(signers)) implies false by {
                lemma_signers_bytes(signers);
                assert(starts(src@, first as int, signers_bytes(signers)));
            }
        }
        return None;
    }
    let count = count as usize;
    let mut signers: Vec<Signer> = Vec::new();
    let mut i: usize = 0;
    while i < count
        invariant
            i <= count,
            total == src@.len(),
            first + 32 * count <= total,
            signers@.len() == i,
            forall|j: int|
                0 <= j < i ==> src@.subrange(first + 32 * j, first + 32 * j + 32)
                    == (#[trigger] signers@[j]).key.bytes@,
        decreases count - i,
    {
        let key = read32(src, first + 32 * i);
        signers.push(Signer { key: Pubkey { bytes: key } });
        i += 1;
    }
    proof {
        lemma_signers_stand(src@, first as int, signers@);
        lemma_signers_bytes(signers@);
        lemma_starts_concat(
            src@,
            pos as int,
            spec_u64_to_le_bytes(signers@.len() as u64),
            signers_bytes(signers@),
        );
        assert(spec_u64_to_le_bytes(count as u64).len() == 8);
        assert forall|other: Seq<Signer>| #[trigger]
            starts(src@, pos as int, counted_signers_bytes(other)) implies signers@ == other by {
            lemma_signers_bytes(other);
            assert(other.len() == count);
            assert forall|j: int| 0 <= j < count implies signers@[j] == other[j] by {
                lemma_embedded(src@, signers_bytes(other), first as int, 32 * j, 32 * j + 32);
                assert(other[j].key.bytes@ == signers@[j].key.bytes@);
                assert(other[j].key.bytes =~= signers@[j].key.bytes);
            }
            assert(signers@ =~= other);
        }
    }
    Some((signers, first + 32 * count))
}

/// Addresses and name hashes that stand one behind the other are the bytes
/// of their entries.
proof fn lemma_entries_stand(src: Seq<u8>, pos: int, entries: Seq<AddressBookEntry>)
    requires
        0 <= pos,
        pos + 64 * entries.len() <= src.len(),
        forall|j: int|
            0 <= j < entries.len() ==> src.subrange(pos + 64 * j, pos + 64 * j + 32)
                == (#[trigger] entries[j]).address.bytes@ && src.subrange(
                pos + 64 * j + 32,
                pos + 64 * j + 64,
            ) == entries[j].name_hash@,
    ensures
        starts(src, pos, entries_bytes(entries)),
    decreases entries.len(),
{
    lemma_entries_bytes(entries);
    if entries.len() > 0 {
        let front = entries.drop_last();
        assert forall|j: int| 0 <= j < front.len() implies src.subrange(
            pos + 64 * j,
            pos + 64 * j + 32,
        ) == (#[trigger] front[j]).address.bytes@ && src.subrange(
            pos + 64 * j + 32,
            pos + 64 * j + 64,
        ) == front[j].name_hash@ by {
            assert(front[j] == entries[j]);
        }
        lemma_entries_stand(src, pos, front);
        lemma_entries_bytes(front);
        assert(entries[entries.len() - 1] == entries.last());
        lemma_starts_concat(src, pos, entries_bytes(front), entries.last().address.bytes@);
        lemma_starts_concat(
            src,
            pos,
            entries_bytes(front) + entries.last().address.bytes@,
            entries.last().name_hash@,
        );
    } else {
        assert(src.subrange(pos, pos) =~= entries_bytes(entries));
    }
}

/// The entries whose number, addresses and name hashes stand from `pos` on,
/// and the place behind them. Where the bytes of a list of entries stand
/// there, it is that list; where none do, nothing.
pub fn parse_entries(src: &[u8], pos: usize) -> (r: Option<(Vec<AddressBookEntry>, usize)>)
    requires
        pos <= src@.len(),
    ensures
        r is Some ==> starts(src@, pos as int, counted_entries_bytes(r->Some_0.0@)) && r->Some_0.1
            == pos + counted_entries_bytes(r->Some_0.0@).len(),
        forall|entries: Seq<AddressBookEntry>| #[trigger]
            starts(src@, pos as int, counted_entries_bytes(entries)) ==> r is Some
                && r->Some_0.0@ == entries,
{
    let total = src.len();
    proof {
        vstd::bytes::lemma_auto_spec_u64_to_from_le_bytes();
    }
    let (count, first) = match parse_u64(src, pos) {
        Some(parsed) => parsed,
        None => {
            proof {
                assert forall|entries: Seq<AddressBookEntry>| #[trigger]
                    starts(src@, pos as int, counted_entries_bytes(entries)) implies false by {
                    lemma_starts_concat(
                        src@,
                        pos as int,
                        spec_u64_to_le_bytes(entries.len() as u64),
                        entries_bytes(entries),
                    );
                    assert(spec_u64_to_le_bytes(entries.len() as u64).len() == 8);
                }
            }
            return None;
        },
    };
    proof {
        assert forall|entries: Seq<AddressBookEntry>| #[trigger]
            starts(src@, pos as int, counted_entries_bytes(entries)) implies entries.len() == count
            && starts(src@, first as int, entries_bytes(entries)) by {
            lemma_starts_concat(
                src@,
                pos as int,
                spec_u64_to_le_bytes(entries.len() as u64),
                entries_bytes(entries),
            );
            assert(spec_u64_to_le_bytes(entries.len() as u64).len() == 8);
            lemma_entries_bytes(entries);
            assert(entries.len() as u64 == count);
        }
    }
    if count > ((total - first) / 64) as u64 {
        proof {
            assert forall|entries: Seq<AddressBookEntry>| #[trigger]
                starts(src@, pos as int, counted_entries_bytes(entries)) implies false by {
                lemma_entries_bytes(entries);
                assert(starts(src@, first as int, entries_bytes(entries)));
            }
        }
        return None;
    }
    let count = count as usize;
    let mut entries: Vec<AddressBookEntry> = Vec::new();
    let mut i: usize = 0;
    while i < count
        invariant
            i <= count,
            total == src@.len(),
            first + 64 * count <= total,
            entries@.len() == i,
            forall|j: int|
                0 <= j < i ==> src@.subrange(first + 64 * j, first + 64 * j + 32)
                    == (#[trigger] entries@[j]).address.bytes@ && src@.subrange(
                    first + 64 * j + 32,
                    first + 64 * j + 64,
                ) == entries@[j].name_hash@,
        decreases count - i,
    {
        let address = read32(src, first + 64 * i);
        let name_hash = read32(src, first + 64 * i + 32);
        entries.push(AddressBookEntry { address: Pubkey { bytes: address }, name_hash });
        i += 1;
    }
    proof {
        lemma_entries_stand(src@, first as int, entries@);
        lemma_entries_bytes(entries@);
        lemma_starts_concat(
            src@,
            pos as int,
            spec_u64_to_le_bytes(entries@.len() as u64),
            entries_bytes(entries@),
        );
        assert(spec_u64_to_le_bytes(count as u64).len() == 8);
        assert forall|other: Seq<AddressBookEntry>| #[trigger]
            starts(src@, pos as int, counted_entries_bytes(other)) implies entries@ == other by {
            lemma_entries_bytes(other);
            assert(other.len() == count);
            assert forall|j: int| 0 <= j < count implies entries@[j] == other[j] by {
                lemma_embedded(src@, entries_bytes(other), first as int, 64 * j, 64 * j + 32);
                lemma_embedded(src@, entries_bytes(other), first as int, 64 * j + 32, 64 * j + 64);
                assert(other[j].address.bytes =~= entries@[j].address.bytes);
                assert(other[j].name_hash =~= entries@[j].name_hash);
            }
            assert(entries@ =~= other);
        }
    }
    Some((entries, first + 64 * count))
}

/// The bytes that stand for one instruction: its length in eight bytes,
/// then the instruction.
pub open spec fn payload_bytes(payload: Seq<u8>) -> Seq<u8> {
    spec_u64_to_le_bytes(payload.len() as u64) + payload
}

/// The bytes that stand for the instructions, one after the other.
pub open spec fn payload_list_bytes(payloads: Seq<Seq<u8>>) -> Seq<u8>
    decreases payloads.len(),
{
    if payloads.len() == 0 {
        Seq::empty()
    } else {
        payload_list_bytes(payloads.drop_last()) + payload_bytes(payloads.last())
    }
}

/// The number of instructions in eight bytes, then the instructions.
pub open spec fn counted_payloads_bytes(payloads: Seq<Seq<u8>>) -> Seq<u8> {
    spec_u64_to_le_bytes(payloads.len() as u64) + payload_list_bytes(payloads)
}

/// What the instructions hold, as bytes.
pub open spec fn views_of(payloads: Seq<Vec<u8>>) -> Seq<Seq<u8>> {
    Seq::new(payloads.len(), |i: int| payloads[i]@)
}

/// Where a list of instructions stands, each shorter list of its first
/// instructions stands too.
proof fn lemma_payload_prefix_stands(src: Seq<u8>, pos: int, payloads: Seq<Seq<u8>>, k: int)
    requires
        0 <= k <= payloads.len(),
        starts(src, pos, payload_list_bytes(payloads)),
    ensures
        starts(src, pos, payload_list_bytes(payloads.take(k))),
    decreases payloads.len() - k,
{
    if k == payloads.len() {
        assert(payloads.take(k) =~= payloads);
    } else {
        let front = payloads.drop_last();
        lemma_starts_concat(src, pos, payload_list_bytes(front), payload_bytes(payloads.last()));
        lemma_payload_prefix_stands(src, pos, front, k);
        assert(front.take(k) =~= payloads.take(k));
    }
}

/// Each instruction takes eight bytes at least.
proof fn lemma_payload_list_len(payloads: Seq<Seq<u8>>)
    ensures
        payload_list_bytes(payloads).len() >= 8 * payloads.len(),
    decreases payloads.len(),
{
    vstd::bytes::lemma_auto_spec_u64_to_from_le_bytes();
    if payloads.len() > 0 {
        lemma_payload_list_len(payloads.drop_last());
        assert(spec_u64_to_le_bytes(payloads.last().len() as u64).len() == 8);
    }
}

/// Instruction `k` of a list that stands from `pos` on stands behind the
/// first `k`.
proof fn lemma_payload_stands(src: Seq<u8>, pos: int, payloads: Seq<Seq<u8>>, k: int)
    requires
        0 <= k < payloads.len(),
        starts(src, pos, payload_list_bytes(payloads)),
    ensures
        starts(src, pos, payload_list_bytes(payloads.take(k))),
        starts(
            src,
            pos + payload_list_bytes(payloads.take(k)).len(),
            payload_bytes(payloads[k]),
        ),
{
    lemma_payload_prefix_stands(src, pos, payloads, k + 1);
    let upto = payloads.take(k + 1);
    assert(upto.drop_last() =~= payloads.take(k));
    assert(upto.last() == payloads[k]);
    lemma_starts_concat(
        src,
        pos,
        payload_list_bytes(payloads.take(k)),
        payload_bytes(payloads[k]),
    );
}

/// The instructions whose number, lengths and bytes stand from `pos` on,
/// and the place behind them. Where the bytes of a list of instructions
/// stand there, it is that list; where none do, nothing.
pub fn parse_payloads(src: &[u8], pos: usize) -> (r: Option<(Vec<Vec<u8>>, usize)>)
    requires
        pos <= src@.len(),
    ensures
        r is Some ==> starts(src@, pos as int, counted_payloads_bytes(views_of(r->Some_0.0@)))
            && r->Some_0.1 == pos + counted_payloads_bytes(views_of(r->Some_0.0@)).len(),
        forall|payloads: Seq<Seq<u8>>| #[trigger]
            starts(src@, pos as int, counted_payloads_bytes(payloads)) ==> r is Some && views_of(
                r->Some_0.0@,
            ) == payloads,
{
    let total = src.len();
    proof {
        vstd::bytes::lemma_auto_spec_u64_to_from_le_bytes();
    }
    let (count, first) = match parse_u64(src, pos) {
        Some(parsed) => parsed,
        None => {
            proof {
                assert forall|payloads: Seq<Seq<u8>>| #[trigger]
                    starts(src@, pos as int, counted_payloads_bytes(payloads)) implies false by {
                    lemma_starts_concat(
                        src@,
                        pos as int,
                        spec_u64_to_le_bytes(payloads.len() as u64),
                        payload_list_bytes(payloads),
                    );
                    assert(spec_u64_to_le_bytes(payloads.len() as u64).len() == 8);
                }
            }
            return None;
        },
    };
    proof {
        assert forall|payloads: Seq<Seq<u8>>| #[trigger]
            starts(src@, pos as int, counted_payloads_bytes(payloads)) implies payloads.len()
            == count && starts(src@, first as int, payload_list_bytes(payloads)) by {
            lemma_starts_concat(
                src@,
                pos as int,
                spec_u64_to_le_bytes(payloads.len() as u64),
                payload_list_bytes(payloads),
            );
            assert(spec_u64_to_le_bytes(payloads.len() as u64).len() == 8);
            lemma_payload_list_len(payloads);
            assert(payloads.len() as u64 == count);
        }
    }
    let mut payloads: Vec<Vec<u8>> = Vec::new();
    let mut cursor: usize = first;
    let mut i: u64 = 0;
    proof {
        assert(src@.subrange(first as int, first as int) =~= payload_list_bytes(
            views_of(payloads@),
        ));
        assert forall|other: Seq<Seq<u8>>|
            other.len() == count && #[trigger] starts(
                src@,
                first as int,
                payload_list_bytes(other),
            ) implies other.take(0) == views_of(payloads@) by {
            assert(other.take(0) =~= views_of(payloads@));
        }
    }
    while i < count
        invariant
            i <= count,
            total == src@.len(),
            first <= cursor <= total,
            payloads@.len() == i,
            starts(src@, first as int, payload_list_bytes(views_of(payloads@))),
            cursor == first + payload_list_bytes(views_of(payloads@)).len(),
            forall|other: Seq<Seq<u8>>|
                other.len() == count && #[trigger] starts(
                    src@,
                    first as int,
                    payload_list_bytes(other),
                ) ==> other.take(i as int) == views_of(payloads@),
            forall|other: Seq<Seq<u8>>| #[trigger]
                starts(src@, pos as int, counted_payloads_bytes(other)) ==> other.len() == count
                    && starts(src@, first as int, payload_list_bytes(other)),
        decreases count - i,
    {
        let ghost before = views_of(payloads@);
        proof {
            vstd::bytes::lemma_auto_spec_u64_to_from_le_bytes();
        }
        let parsed = match parse_u64(src, cursor) {
            Some((length, start)) => if length <= (total - start) as u64 {
                Some((length as usize, start))
            } else {
                None
            },
            None => None,
        };
        let (length, start) = match parsed {
            Some(parsed) => parsed,
            None => {
                proof {
                    assert forall|other: Seq<Seq<u8>>| #[trigger]
                        starts(src@, pos as int, counted_payloads_bytes(other)) implies false by {
                        assert(other.len() == count && starts(
                            src@,
                            first as int,
                            payload_list_bytes(other),
                        ));
                        assert(other.take(i as int) == before);
                        lemma_payload_stands(src@, first as int, other, i as int);
                        lemma_starts_concat(
                            src@,
                            cursor as int,
                            spec_u64_to_le_bytes(other[i as int].len() as u64),
                            other[i as int],
                        );
                        assert(spec_u64_to_le_bytes(other[i as int].len() as u64).len() == 8);
                    }
                }
                return None;
            },
        };
        let mut payload: Vec<u8> = Vec::new();
        push_slice(&mut payload, slice_subrange(src, start, start + length));
        payloads.push(payload);
        proof {
            let now = views_of(payloads@);
            assert(payload@ =~= src@.subrange(start as int, start + length));
            assert(now.drop_last() =~= before);
            assert(now.last() == payload@);
            assert(spec_u64_to_le_bytes(length as u64).len() == 8);
            lemma_starts_concat(
                src@,
                cursor as int,
                spec_u64_to_le_bytes(payload@.len() as u64),
                payload@,
            );
            lemma_starts_concat(
                src@,
                first as int,
                payload_list_bytes(before),
                payload_bytes(payload@),
            );
            assert forall|other: Seq<Seq<u8>>|
                other.len() == count && #[trigger] starts(
                    src@,
                    first as int,
                    payload_list_bytes(other),
                ) implies other.take(i + 1) == now by {
                assert(other.take(i as int) == before);
                lemma_payload_stands(src@, first as int, other, i as int);
                lemma_starts_concat(
                    src@,
                    cursor as int,
                    spec_u64_to_le_bytes(other[i as int].len() as u64),
                    other[i as int],
                );
                assert(spec_u64_to_le_bytes(other[i as int].len() as u64).len() == 8);
                assert(other[i as int].len() as u64 == length);
                assert(other[i as int].len() <= src@.len());
                assert(other[i as int] =~= payload@);
                assert(other.take(i + 1) =~= other.take(i as int).push(other[i as int]));
                assert(now =~= before.push(payload@));
            }
        }
        cursor = start + length;
        i += 1;
    }
    proof {
        lemma_starts_concat(
            src@,
            pos as int,
            spec_u64_to_le_bytes(views_of(payloads@).len() as u64),
            payload_list_bytes(views_of(payloads@)),
        );
        assert(spec_u64_to_le_bytes(count).len() == 8);
        assert forall|other: Seq<Seq<u8>>| #[trigger]
            starts(src@, pos as int, counted_payloads_bytes(other)) implies views_of(payloads@)
            == other by {
            assert(other.len() == count && starts(src@, first as int, payload_list_bytes(other)));
            assert(other.take(count as int) =~= other);
        }
    }
    Some((payloads, cursor))
}

} // verus!
