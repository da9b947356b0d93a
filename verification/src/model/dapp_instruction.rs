use vstd::prelude::*;
use vstd::bytes::spec_u64_to_le_bytes;
use vstd::slice::slice_subrange;
use crate::error::WalletError;
use crate::pack::{lemma_embedded, push_all, push_bytes32, push_slice, push_u64, read32};
use crate::parse::{
    lemma_starts_byte, lemma_starts_concat, parse_bytes32, parse_u64, payload_bytes, starts,
};
use crate::pubkey::Pubkey;

verus! {

/// An account that an instruction names, and what the instruction asks of
/// it.
#[derive(Debug, Clone, Copy, PartialEq, Eq)]
pub struct AccountMeta {
    pub pubkey: Pubkey,
    pub is_signer: bool,
    pub is_writable: bool,
}

/// One instruction of a staged call: the program to call, the accounts to
/// hand to it, and the data for it.
#[derive(Debug, PartialEq, Eq)]
pub struct Instruction {
    pub program_id: Pubkey,
    pub accounts: Vec<AccountMeta>,
    pub data: Vec<u8>,
}

/// The byte that stands for what is asked of an account: one for a
/// signature, two for writing, three for both.
pub open spec fn flags_byte(meta: AccountMeta) -> u8 {
    if meta.is_signer {
        if meta.is_writable {
            3
        } else {
            1
        }
    } else {
        if meta.is_writable {
            2
        } else {
            0
        }
    }
}

/// The bytes that stand for the accounts: for each its key, then the byte of
/// what is asked of it.
pub open spec fn metas_bytes(metas: Seq<AccountMeta>) -> Seq<u8>
    decreases metas.len(),
{
    if metas.len() == 0 {
        Seq::empty()
    } else {
        metas_bytes(metas.drop_last()) + metas.last().pubkey.bytes@ + seq![flags_byte(metas.last())]
    }
}

/// The number of accounts in eight bytes, then the accounts.
pub open spec fn counted_metas_bytes(metas: Seq<AccountMeta>) -> Seq<u8> {
    spec_u64_to_le_bytes(metas.len() as u64) + metas_bytes(metas)
}

/// The bytes that stand for an instruction: the key of the program, the
/// accounts behind their number, and the data behind its length.
pub open spec fn instruction_payload(instruction: Instruction) -> Seq<u8> {
    instruction.program_id.bytes@ + counted_metas_bytes(instruction.accounts@) + payload_bytes(
        instruction.data@,
    )
}

/// The bytes of a list of accounts are 33 for each: the key of an account,
/// then its byte.
pub proof fn lemma_metas_bytes(metas: Seq<AccountMeta>)
    ensures
        metas_bytes(metas).len() == 33 * metas.len(),
        forall|i: int|
            0 <= i < metas.len() ==> metas_bytes(metas).subrange(33 * i, 33 * i + 32)
                == (#[trigger] metas[i]).pubkey.bytes@ && metas_bytes(metas)[33 * i + 32]
                == flags_byte(metas[i]),
    decreases metas.len(),
{
    if metas.len() > 0 {
        let front = metas.drop_last();
        lemma_metas_bytes(front);
        let all = metas_bytes(metas);
        assert forall|i: int| 0 <= i < metas.len() implies all.subrange(33 * i, 33 * i + 32)
            == (#[trigger] metas[i]).pubkey.bytes@ && all[33 * i + 32] == flags_byte(
            metas[i],
        ) by {
            if i < front.len() {
                assert(all.subrange(33 * i, 33 * i + 32) =~= metas_bytes(front).subrange(
                    33 * i,
                    33 * i + 32,
                ));
                assert(all[33 * i + 32] == metas_bytes(front)[33 * i + 32]);
                assert(front[i] == metas[i]);
            } else {
                assert(all.subrange(33 * i, 33 * i + 32) =~= metas.last().pubkey.bytes@);
            }
        }
    }
}

/// Keys and bytes that stand one behind the other are the bytes of their
/// accounts.
proof fn lemma_metas_stand(src: Seq<u8>, pos: int, metas: Seq<AccountMeta>)
    requires
        0 <= pos,
        pos + 33 * metas.len() <= src.len(),
        forall|j: int|
            0 <= j < metas.len() ==> src.subrange(pos + 33 * j, pos + 33 * j + 32)
                == (#[trigger] metas[j]).pubkey.bytes@ && src[pos + 33 * j + 32] == flags_byte(
                metas[j],
            ),
    ensures
        starts(src, pos, metas_bytes(metas)),
    decreases metas.len(),
{
    lemma_metas_bytes(metas);
    if metas.len() > 0 {
        let front = metas.drop_last();
        assert forall|j: int| 0 <= j < front.len() implies src.subrange(
            pos + 33 * j,
            pos + 33 * j + 32,
        ) == (#[trigger] front[j]).pubkey.bytes@ && src[pos + 33 * j + 32] == flags_byte(
            front[j],
        ) by {
            assert(front[j] == metas[j]);
        }
        lemma_metas_stand(src, pos, front);
        lemma_metas_bytes(front);
        assert(metas[metas.len() - 1] == metas.last());
        lemma_starts_concat(src, pos, metas_bytes(front), metas.last().pubkey.bytes@);
        lemma_starts_byte(src, pos + 33 * front.len() + 32, flags_byte(metas.last()));
        lemma_starts_concat(
            src,
            pos,
            metas_bytes(front) + metas.last().pubkey.bytes@,
            seq![flags_byte(metas.last())],
        );
    } else {
        assert(src.subrange(pos, pos) =~= metas_bytes(metas));
    }
}

/// The byte that stands for what is asked of an account.
fn byte_of_flags(meta: &AccountMeta) -> (r: u8)
    ensures
        r == flags_byte(*meta),
{
    if meta.is_signer {
        if meta.is_writable {
            3
        } else {
            1
        }
    } else {
        if meta.is_writable {
            2
        } else {
            0
        }
    }
}

/// The accounts whose number, keys and bytes stand from `pos` on, and the
/// place behind them. Where the bytes of a list of accounts stand there, it
/// is that list; where none do, nothing.
pub fn parse_metas(src: &[u8], pos: usize) -> (r: Option<(Vec<AccountMeta>, usize)>)
    requires
        pos <= src@.len(),
    ensures
        r is Some ==> starts(src@, pos as int, counted_metas_bytes(r->Some_0.0@)) && r->Some_0.1
            == pos + counted_metas_bytes(r->Some_0.0@).len(),
        forall|metas: Seq<AccountMeta>| #[trigger]
            starts(src@, pos as int, counted_metas_bytes(metas)) ==> r is Some && r->Some_0.0@
                == metas,
{
    let total = src.len();
    proof {
        vstd::bytes::lemma_auto_spec_u64_to_from_le_bytes();
    }
    let (count, first) = match parse_u64(src, pos) {
        Some(parsed) => parsed,
        None => {
            proof {
                assert forall|metas: Seq<AccountMeta>| #[trigger]
                    starts(src@, pos as int, counted_metas_bytes(metas)) implies false by {
                    lemma_starts_concat(
                        src@,
                        pos as int,
                        spec_u64_to_le_bytes(metas.len() as u64),
                        metas_bytes(metas),
                    );
                    assert(spec_u64_to_le_bytes(metas.len() as u64).len() == 8);
                }
            }
            return None;
        },
    };
    proof {
        assert forall|metas: Seq<AccountMeta>| #[trigger]
            starts(src@, pos as int, counted_metas_bytes(metas)) implies metas.len() == count
            && starts(src@, first as int, metas_bytes(metas)) by {
            lemma_starts_concat(
                src@,
                pos as int,
                spec_u64_to_le_bytes(metas.len() as u64),
                metas_bytes(metas),
            );
            assert(spec_u64_to_le_bytes(metas.len() as u64).len() == 8);
            lemma_metas_bytes(metas);
            assert(metas.len() as u64 == count);
        }
    }
    if count > ((total - first) / 33) as u64 {
        proof {
            assert forall|metas: Seq<AccountMeta>| #[trigger]
                starts(src@, pos as int, counted_metas_bytes(metas)) implies false by {
                lemma_metas_bytes(metas);
                assert(starts(src@, first as int, metas_bytes(metas)));
            }
        }
        return None;
    }
    let count = count as usize;
    let mut metas: Vec<AccountMeta> = Vec::new();
    let mut i: usize = 0;
    while i < count
        invariant
            i <= count,
            total == src@.len(),
            first + 33 * count <= total,
            metas@.len() == i,
            forall|j: int|
                0 <= j < i ==> src@.subrange(first + 33 * j, first + 33 * j + 32)
                    == (#[trigger] metas@[j]).pubkey.bytes@ && src@[first + 33 * j + 32]
                    == flags_byte(metas@[j]),
            forall|other: Seq<AccountMeta>| #[trigger]
                starts(src@, pos as int, counted_metas_bytes(other)) ==> other.len() == count
                    && starts(src@, first as int, metas_bytes(other)),
        decreases count - i,
    {
        let key = read32(src, first + 33 * i);
        let flags = src[first + 33 * i + 32];
        if flags > 3 {
            proof {
                assert forall|other: Seq<AccountMeta>| #[trigger]
                    starts(src@, pos as int, counted_metas_bytes(other)) implies false by {
                    lemma_metas_bytes(other);
                    assert(src@.subrange(first as int, first + metas_bytes(other).len())[33 * i
                        + 32] == flags_byte(other[i as int]));
                }
            }
            return None;
        }
        metas.push(
            AccountMeta {
                pubkey: Pubkey { bytes: key },
                is_signer: flags == 1 || flags == 3,
                is_writable: flags == 2 || flags == 3,
            },
        );
        i += 1;
    }
    proof {
        lemma_metas_stand(src@, first as int, metas@);
        lemma_metas_bytes(metas@);
        lemma_starts_concat(
            src@,
            pos as int,
            spec_u64_to_le_bytes(metas@.len() as u64),
            metas_bytes(metas@),
        );
        assert(spec_u64_to_le_bytes(count as u64).len() == 8);
        assert forall|other: Seq<AccountMeta>| #[trigger]
            starts(src@, pos as int, counted_metas_bytes(other)) implies metas@ == other by {
            lemma_metas_bytes(other);
            assert(other.len() == count);
            assert forall|j: int| 0 <= j < count implies metas@[j] == other[j] by {
                lemma_embedded(src@, metas_bytes(other), first as int, 33 * j, 33 * j + 32);
                assert(src@.subrange(first as int, first + metas_bytes(other).len())[33 * j + 32]
                    == flags_byte(other[j]));
                assert(other[j].pubkey.bytes =~= metas@[j].pubkey.bytes);
            }
            assert(metas@ =~= other);
        }
    }
    Some((metas, first + 33 * count))
}

/// The data whose length and bytes stand from `pos` on, and the place behind
/// them. Where the bytes of some data stand there, it is that data; where
/// none do, nothing.
pub fn parse_data(src: &[u8], pos: usize) -> (r: Option<(Vec<u8>, usize)>)
    requires
        pos <= src@.len(),
    ensures
        r is Some ==> starts(src@, pos as int, payload_bytes(r->Some_0.0@)) && r->Some_0.1 == pos
            + payload_bytes(r->Some_0.0@).len(),
        forall|data: Seq<u8>| #[trigger]
            starts(src@, pos as int, payload_bytes(data)) ==> r is Some && r->Some_0.0@ == data,
{
    let total = src.len();
    proof {
        vstd::bytes::lemma_auto_spec_u64_to_from_le_bytes();
        assert forall|data: Seq<u8>| #[trigger]
            starts(src@, pos as int, payload_bytes(data)) implies starts(
            src@,
            pos as int,
            spec_u64_to_le_bytes(data.len() as u64),
        ) && starts(src@, pos + 8, data) by {
            lemma_starts_concat(src@, pos as int, spec_u64_to_le_bytes(data.len() as u64), data);
            assert(spec_u64_to_le_bytes(data.len() as u64).len() == 8);
        }
    }
    let (length, first) = match parse_u64(src, pos) {
        Some(parsed) => parsed,
        None => {
            return None;
        },
    };
    if length > (total - first) as u64 {
        proof {
            assert forall|data: Seq<u8>| #[trigger]
                starts(src@, pos as int, payload_bytes(data)) implies false by {
                assert(data.len() as u64 == length);
            }
        }
        return None;
    }
    let length = length as usize;
    let mut data: Vec<u8> = Vec::new();
    push_slice(&mut data, slice_subrange(src, first, first + length));
    proof {
        assert(data@ =~= src@.subrange(first as int, first + length));
        assert(spec_u64_to_le_bytes(length as u64).len() == 8);
        lemma_starts_concat(src@, pos as int, spec_u64_to_le_bytes(data@.len() as u64), data@);
        assert forall|other: Seq<u8>| #[trigger]
            starts(src@, pos as int, payload_bytes(other)) implies data@ == other by {
            assert(other.len() as u64 == length);
            assert(other =~= data@);
        }
    }
    Some((data, first + length))
}

/// Bytes are those of an instruction where the key of the program, the
/// accounts and the data stand one behind the other and fill them.
pub proof fn lemma_instruction_payload_stands(src: Seq<u8>, instruction: Instruction)
    ensures
        instruction_payload(instruction) == src <==> {
            let a = 32 + counted_metas_bytes(instruction.accounts@).len() as int;
            &&& starts(src, 0, instruction.program_id.bytes@)
            &&& starts(src, 32, counted_metas_bytes(instruction.accounts@))
            &&& starts(src, a, payload_bytes(instruction.data@))
            &&& src.len() == a + payload_bytes(instruction.data@).len()
        },
{
    let p0 = instruction.program_id.bytes@;
    let p1 = counted_metas_bytes(instruction.accounts@);
    let p2 = payload_bytes(instruction.data@);
    lemma_starts_concat(src, 0, p0, p1);
    lemma_starts_concat(src, 0, p0 + p1, p2);
    if instruction_payload(instruction) == src {
        assert(src.subrange(0, src.len() as int) =~= src);
    }
    if src.len() == (p0 + p1 + p2).len() && starts(src, 0, p0 + p1 + p2) {
        assert(src.subrange(0, src.len() as int) =~= src);
    }
}

impl Instruction {
    /// The bytes that stand for the instruction.
    pub fn pack(&self) -> (r: Vec<u8>)
        ensures
            r@ == instruction_payload(*self),
    {
        let mut out: Vec<u8> = Vec::new();
        push_bytes32(&mut out, &self.program_id.bytes);
        push_u64(&mut out, self.accounts.len() as u64);
        let ghost start = out@;
        let mut i: usize = 0;
        while i < self.accounts.len()
            invariant
                i <= self.accounts.len(),
                out@ == start + metas_bytes(self.accounts@.take(i as int)),
            decreases self.accounts.len() - i,
        {
            push_bytes32(&mut out, &self.accounts[i].pubkey.bytes);
            out.push(byte_of_flags(&self.accounts[i]));
            proof {
                assert(self.accounts@.take(i + 1).drop_last() =~= self.accounts@.take(i as int));
                assert(out@ =~= start + metas_bytes(self.accounts@.take(i + 1)));
            }
            i += 1;
        }
        proof {
            assert(self.accounts@.take(self.accounts@.len() as int) =~= self.accounts@);
        }
        push_u64(&mut out, self.data.len() as u64);
        push_all(&mut out, &self.data);
        assert(out@ =~= instruction_payload(*self));
        out
    }

    /// The instruction that the bytes stand for. Refused where they are the
    /// bytes of no instruction.
    pub fn unpack(src: &[u8]) -> (r: Result<Instruction, WalletError>)
        ensures
            match r {
                Ok(instruction) => instruction_payload(instruction) == src@,
                Err(e) => e == WalletError::InvalidInstructionData && forall|
                    instruction: Instruction,
                | #[trigger] instruction_payload(instruction) != src@,
            },
    {
        proof {
            assert forall|instruction: Instruction| #[trigger]
                instruction_payload(instruction) == src@ implies {
                let a = 32 + counted_metas_bytes(instruction.accounts@).len() as int;
                &&& starts(src@, 0, instruction.program_id.bytes@)
                &&& starts(src@, 32, counted_metas_bytes(instruction.accounts@))
                &&& starts(src@, a, payload_bytes(instruction.data@))
                &&& src@.len() == a + payload_bytes(instruction.data@).len()
            } by {
                lemma_instruction_payload_stands(src@, instruction);
            }
        }
        let (program_id, first) = match parse_bytes32(src, 0) {
            Some(parsed) => parsed,
            None => {
                return Err(WalletError::InvalidInstructionData);
            },
        };
        let (accounts, second) = match parse_metas(src, first) {
            Some(parsed) => parsed,
            None => {
                return Err(WalletError::InvalidInstructionData);
            },
        };
        let (data, end) = match parse_data(src, second) {
            Some(parsed) => parsed,
            None => {
                return Err(WalletError::InvalidInstructionData);
            },
        };
        if end != src.len() {
            return Err(WalletError::InvalidInstructionData);
        }
        let instruction = Instruction { program_id: Pubkey { bytes: program_id }, accounts, data };
        proof {
            lemma_instruction_payload_stands(src@, instruction);
        }
        Ok(instruction)
    }
}

} // verus!
