use vstd::prelude::*;
use vstd::bytes::{spec_u16_to_le_bytes, spec_u64_to_le_bytes, u16_from_le_bytes, u16_to_le_bytes};
use vstd::slice::slice_subrange;
use crate::error::WalletError;
use crate::hash::{hash_of, sha256};
use crate::pack::{
    all_zero, bool_byte, bool_of, byte_of, lemma_embedded, lemma_embedded_zeros, push_all,
    push_bytes32, push_slice, push_u64, push_zeros, read32, write_over, zeros_at,
};
use crate::pubkey::{bytes32_eq, Pubkey};

verus! {

/// The most instructions a staged call can have.
pub const MAX_INSTRUCTIONS: usize = 16;

/// The most bytes one instruction of a staged call can have.
pub const MAX_INSTRUCTION_LEN: usize = 1024;

/// A program that wallets may be allowed to call.
#[derive(Debug, Clone, Copy, PartialEq, Eq)]
pub struct DAppBookEntry {
    pub address: Pubkey,
    pub name_hash: [u8; 32],
}

/// The instructions of a call that is handed over in pieces: how many were
/// declared, and those that have arrived, each in its slot.
#[derive(Debug)]
pub struct DAppMultisigData {
    is_initialized: bool,
    wallet_address: Pubkey,
    account_guid_hash: [u8; 32],
    dapp: DAppBookEntry,
    num_instructions: u8,
    instructions: Vec<Option<Vec<u8>>>,
}

/// What a staging record says.
pub struct DAppMultisigDataView {
    pub is_initialized: bool,
    pub wallet_address: Pubkey,
    pub account_guid_hash: [u8; 32],
    pub dapp: DAppBookEntry,
    pub num_instructions: u8,
    pub instructions: Seq<Option<Seq<u8>>>,
}

/// What a slot holds, as bytes.
pub open spec fn slot_view(slot: Option<Vec<u8>>) -> Option<Seq<u8>> {
    match slot {
        Some(bytes) => Some(bytes@),
        None => None,
    }
}

/// What the slots hold, as bytes.
pub open spec fn slot_views(slots: Seq<Option<Vec<u8>>>) -> Seq<Option<Seq<u8>>> {
    Seq::new(slots.len(), |i: int| slot_view(slots[i]))
}

/// The instructions, as bytes.
pub open spec fn payload_views(payloads: Seq<Vec<u8>>) -> Seq<Seq<u8>> {
    Seq::new(payloads.len(), |i: int| payloads[i]@)
}

impl View for DAppMultisigData {
    type V = DAppMultisigDataView;

    closed spec fn view(&self) -> DAppMultisigDataView {
        DAppMultisigDataView {
            is_initialized: self.is_initialized,
            wallet_address: self.wallet_address,
            account_guid_hash: self.account_guid_hash,
            dapp: self.dapp,
            num_instructions: self.num_instructions,
            instructions: slot_views(self.instructions@),
        }
    }
}

/// Each instruction behind its length in eight bytes, one after the other.
pub open spec fn payloads_bytes(slots: Seq<Option<Seq<u8>>>) -> Seq<u8>
    decreases slots.len(),
{
    if slots.len() == 0 {
        Seq::empty()
    } else {
        let last = match slots.last() {
            Some(bytes) => bytes,
            None => Seq::empty(),
        };
        payloads_bytes(slots.drop_last()) + spec_u64_to_le_bytes(last.len() as u64) + last
    }
}

/// Whether every slot is filled.
pub open spec fn all_filled(slots: Seq<Option<Seq<u8>>>) -> bool {
    forall|i: int| 0 <= i < slots.len() ==> (#[trigger] slots[i]) is Some
}

/// Whether each instruction is short enough for a slot.
pub open spec fn all_fit(payloads: Seq<Seq<u8>>) -> bool {
    forall|k: int| 0 <= k < payloads.len() ==> (#[trigger] payloads[k]).len() <= MAX_INSTRUCTION_LEN
}

/// Whether what the slot holds is short enough for it.
pub open spec fn slot_fits(slot: Option<Seq<u8>>) -> bool {
    slot is Some ==> slot->Some_0.len() <= MAX_INSTRUCTION_LEN
}

/// Whether none of the `count` slots from `start` on is filled.
pub open spec fn range_is_empty(slots: Seq<Option<Seq<u8>>>, start: int, count: int) -> bool {
    forall|k: int| start <= k < start + count ==> (#[trigger] slots[k]) is None
}

/// The slots with the instructions put into the slots from `start` on.
pub open spec fn with_supplied(
    slots: Seq<Option<Seq<u8>>>,
    start: int,
    payloads: Seq<Seq<u8>>,
) -> Seq<Option<Seq<u8>>> {
    Seq::new(
        slots.len(),
        |i: int|
            if start <= i < start + payloads.len() {
                Some(payloads[i - start])
            } else {
                slots[i]
            },
    )
}

impl DAppMultisigDataView {
    /// A record that is not in use: every field is zero.
    pub open spec fn is_blank(self) -> bool {
        &&& !self.is_initialized
        &&& self.wallet_address.bytes@ == Seq::new(32, |i: int| 0u8)
        &&& self.account_guid_hash@ == Seq::new(32, |i: int| 0u8)
        &&& self.dapp.address.bytes@ == Seq::new(32, |i: int| 0u8)
        &&& self.dapp.name_hash@ == Seq::new(32, |i: int| 0u8)
        &&& self.num_instructions == 0
        &&& self.instructions.len() == 0
    }

    /// A record in use has one slot for each declared instruction, at most
    /// `MAX_INSTRUCTIONS` of them, and no instruction is longer than
    /// `MAX_INSTRUCTION_LEN`. A record not in use is blank.
    pub open spec fn wf(self) -> bool {
        if self.is_initialized {
            &&& self.instructions.len() == self.num_instructions
            &&& self.num_instructions <= MAX_INSTRUCTIONS
            &&& forall|i: int|
                0 <= i < self.instructions.len() ==> slot_fits(#[trigger] self.instructions[i])
        } else {
            self.is_blank()
        }
    }

    /// Why a record cannot be taken into use for a call of `count`
    /// instructions, if it cannot: it is in use, or the instructions are
    /// more than a record has room for.
    pub open spec fn init_error(self, count: u8) -> Option<WalletError> {
        if self.is_initialized {
            Some(WalletError::AccountAlreadyInitialized)
        } else if count > MAX_INSTRUCTIONS {
            Some(WalletError::DAppInstructionOverflow)
        } else {
            None
        }
    }

    /// Whether every declared instruction has arrived.
    pub open spec fn complete(self) -> bool {
        self.is_initialized && all_filled(self.instructions)
    }

    /// The bytes that stand for the staged call: where it goes, how many
    /// instructions were declared, and the instructions in the order of their
    /// slots.
    pub open spec fn bytes(self) -> Seq<u8> {
        self.wallet_address.bytes@ + self.account_guid_hash@ + self.dapp.address.bytes@
            + self.dapp.name_hash@ + seq![self.num_instructions] + payloads_bytes(
            self.instructions,
        )
    }

    /// The fingerprint of the staged call.
    pub open spec fn fingerprint(self) -> Seq<u8> {
        sha256(self.bytes())
    }

    /// Why a supply of instructions to the slots from `start` on is refused,
    /// if it is: the record is not in use, a slot lies at or beyond the
    /// declared number, an instruction is too long for a slot, or a slot is
    /// filled already.
    pub open spec fn supply_error(self, start: u8, payloads: Seq<Seq<u8>>) -> Option<WalletError> {
        if !self.is_initialized {
            Some(WalletError::OperationNotInitialized)
        } else if payloads.len() > 0 && start + payloads.len() > self.num_instructions {
            Some(WalletError::DAppInstructionOverflow)
        } else if !all_fit(payloads) {
            Some(WalletError::DAppInstructionOverflow)
        } else if !range_is_empty(self.instructions, start as int, payloads.len() as int) {
            Some(WalletError::DAppInstructionAlreadySupplied)
        } else {
            None
        }
    }

    /// The record after the instructions went into the slots from `start`
    /// on.
    pub open spec fn supplied(self, start: u8, payloads: Seq<Seq<u8>>) -> DAppMultisigDataView {
        DAppMultisigDataView {
            instructions: with_supplied(self.instructions, start as int, payloads),
            ..self
        }
    }
}

/// Supplies to slots that do not overlap give the same record in either
/// order.
pub proof fn lemma_supply_order_is_free(
    data: DAppMultisigDataView,
    first_start: u8,
    first: Seq<Seq<u8>>,
    second_start: u8,
    second: Seq<Seq<u8>>,
)
    requires
        first_start + first.len() <= second_start || second_start + second.len() <= first_start,
    ensures
        data.supplied(first_start, first).supplied(second_start, second) == data.supplied(
            second_start,
            second,
        ).supplied(first_start, first),
        data.supplied(first_start, first).supplied(second_start, second).fingerprint()
            == data.supplied(second_start, second).supplied(first_start, first).fingerprint(),
{
    assert(data.supplied(first_start, first).supplied(second_start, second).instructions
        =~= data.supplied(second_start, second).supplied(first_start, first).instructions);
}

/// A copy of the bytes.
fn copy_bytes(bytes: &Vec<u8>) -> (r: Vec<u8>)
    ensures
        r@ == bytes@,
{
    let mut copy: Vec<u8> = Vec::new();
    push_all(&mut copy, bytes);
    assert(copy@ =~= bytes@);
    copy
}

impl DAppMultisigData {
    /// The record is in use and in order, or blank.
    pub open spec fn wf(&self) -> bool {
        self@.wf()
    }

    /// A record that is not in use.
    pub fn new() -> (r: Self)
        ensures
            r@.is_blank(),
            r.wf(),
    {
        let zero = Pubkey { bytes: [0;32] };
        let data = DAppMultisigData {
            is_initialized: false,
            wallet_address: zero,
            account_guid_hash: [0;32],
            dapp: DAppBookEntry { address: zero, name_hash: [0;32] },
            num_instructions: 0,
            instructions: Vec::new(),
        };
        proof {
            assert(data@.wallet_address.bytes@ =~= Seq::new(32, |i: int| 0u8));
            assert(data@.account_guid_hash@ =~= Seq::new(32, |i: int| 0u8));
            assert(data@.dapp.name_hash@ =~= Seq::new(32, |i: int| 0u8));
        }
        data
    }

    /// Whether the record is in use.
    pub fn is_initialized(&self) -> (r: bool)
        ensures
            r == self@.is_initialized,
    {
        self.is_initialized
    }

    /// The wallet account on whose behalf the call is made.
    pub fn wallet_address(&self) -> (r: Pubkey)
        ensures
            r == self@.wallet_address,
    {
        self.wallet_address
    }

    /// The identifier of the wallet that makes the call.
    pub fn account_guid_hash(&self) -> (r: [u8; 32])
        ensures
            r == self@.account_guid_hash,
    {
        self.account_guid_hash
    }

    /// The program that is called.
    pub fn dapp(&self) -> (r: DAppBookEntry)
        ensures
            r == self@.dapp,
    {
        self.dapp
    }

    /// How many instructions were declared.
    pub fn num_instructions(&self) -> (r: u8)
        ensures
            r == self@.num_instructions,
    {
        self.num_instructions
    }

    /// Takes a record that is not in use into use for a call of
    /// `num_instructions` instructions, none of which has arrived. Refused
    /// where the record is in use or has no room for so many.
    pub fn init(
        &mut self,
        wallet_address: Pubkey,
        account_guid_hash: [u8; 32],
        dapp: DAppBookEntry,
        num_instructions: u8,
    ) -> (r: Result<(), WalletError>)
        requires
            old(self).wf(),
        ensures
            final(self).wf(),
            match old(self)@.init_error(num_instructions) {
                Some(e) => r == Err::<(), WalletError>(e) && *final(self) == *old(self),
                None => r is Ok && final(self)@ == (DAppMultisigDataView {
                    is_initialized: true,
                    wallet_address,
                    account_guid_hash,
                    dapp,
                    num_instructions,
                    instructions: Seq::new(num_instructions as nat, |i: int| None::<Seq<u8>>),
                }),
            },
    {
        if self.is_initialized {
            return Err(WalletError::AccountAlreadyInitialized);
        }
        if num_instructions as usize > MAX_INSTRUCTIONS {
            return Err(WalletError::DAppInstructionOverflow);
        }
        let mut slots: Vec<Option<Vec<u8>>> = Vec::new();
        let mut i: u8 = 0;
        while i < num_instructions
            invariant
                i <= num_instructions,
                slots@.len() == i,
                forall|k: int| 0 <= k < i ==> (#[trigger] slots@[k]) is None,
            decreases num_instructions - i,
        {
            slots.push(None);
            i += 1;
        }
        self.is_initialized = true;
        self.wallet_address = wallet_address;
        self.account_guid_hash = account_guid_hash;
        self.dapp = dapp;
        self.num_instructions = num_instructions;
        self.instructions = slots;
        assert(self@.instructions =~= Seq::new(num_instructions as nat, |i: int| None::<Seq<u8>>));
        Ok(())
    }

    /// Whether none of the `count` slots from `start` on is filled.
    fn range_free(&self, start: usize, count: usize) -> (r: bool)
        requires
            start + count <= self.instructions@.len(),
            start + count <= usize::MAX,
        ensures
            r == range_is_empty(self@.instructions, start as int, count as int),
    {
        let mut k: usize = 0;
        while k < count
            invariant
                k <= count,
                start + count <= self.instructions@.len(),
                start + count <= usize::MAX,
                forall|j: int| start <= j < start + k ==> (#[trigger] self@.instructions[j]) is None,
            decreases count - k,
        {
            if self.instructions[start + k].is_some() {
                assert(self@.instructions[start + k] is Some);
                return false;
            }
            k += 1;
        }
        true
    }

    /// Whether each instruction is short enough for a slot.
    fn payloads_fit(instructions: &Vec<Vec<u8>>) -> (r: bool)
        ensures
            r == all_fit(payload_views(instructions@)),
    {
        let mut k: usize = 0;
        while k < instructions.len()
            invariant
                k <= instructions.len(),
                forall|i: int|
                    0 <= i < k ==> (#[trigger] payload_views(instructions@)[i]).len()
                        <= MAX_INSTRUCTION_LEN,
            decreases instructions.len() - k,
        {
            if instructions[k].len() > MAX_INSTRUCTION_LEN {
                assert(payload_views(instructions@)[k as int].len() > MAX_INSTRUCTION_LEN);
                return false;
            }
            k += 1;
        }
        true
    }

    /// Puts the instructions into the slots from `starting_index` on. A slot
    /// is written once: where a slot is filled already, or lies at or beyond
    /// the declared number, or an instruction is too long for a slot, the
    /// supply is refused and nothing changes.
    pub fn supply(&mut self, starting_index: u8, instructions: &Vec<Vec<u8>>) -> (r: Result<
        (),
        WalletError,
    >)
        requires
            old(self).wf(),
        ensures
            final(self).wf(),
            match old(self)@.supply_error(starting_index, payload_views(instructions@)) {
                Some(e) => r == Err::<(), WalletError>(e) && *final(self) == *old(self),
                None => r is Ok && final(self)@ == old(self)@.supplied(
                    starting_index,
                    payload_views(instructions@),
                ),
            },
    {
        if !self.is_initialized {
            return Err(WalletError::OperationNotInitialized);
        }
        let start = starting_index as usize;
        let count = instructions.len();
        if count > 0 && (count > 255 || start + count > self.num_instructions as usize) {
            return Err(WalletError::DAppInstructionOverflow);
        }
        if !Self::payloads_fit(instructions) {
            return Err(WalletError::DAppInstructionOverflow);
        }
        if count == 0 {
            assert(self@.instructions =~= with_supplied(
                self@.instructions,
                starting_index as int,
                payload_views(instructions@),
            ));
            return Ok(());
        }
        if !self.range_free(start, count) {
            return Err(WalletError::DAppInstructionAlreadySupplied);
        }
        let mut k: usize = 0;
        while k < count
            invariant
                k <= count,
                count == instructions@.len(),
                start == starting_index,
                start + count <= self.instructions@.len(),
                start + count <= usize::MAX,
                self.instructions@.len() == old(self).instructions@.len(),
                self.is_initialized == old(self).is_initialized,
                self.wallet_address == old(self).wallet_address,
                self.account_guid_hash == old(self).account_guid_hash,
                self.dapp == old(self).dapp,
                self.num_instructions == old(self).num_instructions,
                slot_views(self.instructions@) == with_supplied(
                    old(self)@.instructions,
                    start as int,
                    payload_views(instructions@).take(k as int),
                ),
            decreases count - k,
        {
            let payload = copy_bytes(&instructions[k]);
            let ghost before = self.instructions@;
            self.instructions[start + k] = Some(payload);
            assert forall|i: int| 0 <= i < self.instructions@.len() implies slot_views(
                self.instructions@,
            )[i] == with_supplied(
                old(self)@.instructions,
                start as int,
                payload_views(instructions@).take(k + 1),
            )[i] by {
                if i != start + k {
                    assert(slot_views(self.instructions@)[i] == slot_views(before)[i]);
                }
            }
            assert(slot_views(self.instructions@) =~= with_supplied(
                old(self)@.instructions,
                start as int,
                payload_views(instructions@).take(k + 1),
            ));
            k += 1;
        }
        assert(payload_views(instructions@).take(count as int) =~= payload_views(instructions@));
        Ok(())
    }

    /// Puts one instruction into the slot `index`.
    pub fn add_instruction(&mut self, index: u8, instruction: &Vec<u8>) -> (r: Result<
        (),
        WalletError,
    >)
        requires
            old(self).wf(),
        ensures
            final(self).wf(),
            match old(self)@.supply_error(index, seq![instruction@]) {
                Some(e) => r == Err::<(), WalletError>(e) && *final(self) == *old(self),
                None => r is Ok && final(self)@ == old(self)@.supplied(index, seq![instruction@]),
            },
    {
        let mut one: Vec<Vec<u8>> = Vec::new();
        one.push(copy_bytes(instruction));
        assert(payload_views(one@) =~= seq![instruction@]);
        self.supply(index, &one)
    }

    /// Whether every declared instruction has arrived.
    pub fn all_instructions_supplied(&self) -> (r: bool)
        ensures
            r == self@.complete(),
    {
        if !self.is_initialized {
            return false;
        }
        let mut i: usize = 0;
        while i < self.instructions.len()
            invariant
                self.is_initialized,
                i <= self.instructions@.len(),
                forall|k: int| 0 <= k < i ==> (#[trigger] self@.instructions[k]) is Some,
            decreases self.instructions.len() - i,
        {
            if self.instructions[i].is_none() {
                assert(self@.instructions[i as int] is None);
                return false;
            }
            i += 1;
        }
        true
    }

    /// The instructions in the order of their slots, once all have arrived.
    pub fn instructions(&self) -> (r: Result<Vec<Vec<u8>>, WalletError>)
        ensures
            !self@.is_initialized ==> r == Err::<Vec<Vec<u8>>, WalletError>(
                WalletError::OperationNotInitialized,
            ),
            self@.is_initialized && !self@.complete() ==> r == Err::<Vec<Vec<u8>>, WalletError>(
                WalletError::TransferDispositionNotFinal,
            ),
            self@.complete() ==> r is Ok && r->Ok_0@.len() == self@.instructions.len()
                && forall|i: int|
                0 <= i < self@.instructions.len() ==> self@.instructions[i] == Some(
                    (#[trigger] r->Ok_0@[i])@,
                ),
    {
        if !self.is_initialized {
            return Err(WalletError::OperationNotInitialized);
        }
        let mut payloads: Vec<Vec<u8>> = Vec::new();
        let mut i: usize = 0;
        while i < self.instructions.len()
            invariant
                self.is_initialized,
                i <= self.instructions@.len(),
                payloads@.len() == i,
                forall|k: int|
                    0 <= k < i ==> self@.instructions[k] == Some((#[trigger] payloads@[k])@),
            decreases self.instructions.len() - i,
        {
            match &self.instructions[i] {
                Some(bytes) => {
                    payloads.push(copy_bytes(bytes));
                },
                None => {
                    assert(self@.instructions[i as int] is None);
                    return Err(WalletError::TransferDispositionNotFinal);
                },
            }
            i += 1;
        }
        assert forall|k: int| 0 <= k < self@.instructions.len() implies (
        #[trigger] self@.instructions[k]) is Some by {
            assert(self@.instructions[k] == Some(payloads@[k]@));
        }
        Ok(payloads)
    }

    /// The bytes that stand for the staged call.
    pub fn to_bytes(&self) -> (r: Vec<u8>)
        ensures
            r@ == self@.bytes(),
    {
        let mut out: Vec<u8> = Vec::new();
        push_bytes32(&mut out, &self.wallet_address.bytes);
        push_bytes32(&mut out, &self.account_guid_hash);
        push_bytes32(&mut out, &self.dapp.address.bytes);
        push_bytes32(&mut out, &self.dapp.name_hash);
        out.push(self.num_instructions);
        let ghost head = out@;
        let mut i: usize = 0;
        while i < self.instructions.len()
            invariant
                i <= self.instructions@.len(),
                out@ == head + payloads_bytes(self@.instructions.take(i as int)),
            decreases self.instructions.len() - i,
        {
            proof {
                assert(self@.instructions.take(i + 1).drop_last() =~= self@.instructions.take(
                    i as int,
                ));
            }
            match &self.instructions[i] {
                Some(bytes) => {
                    push_u64(&mut out, bytes.len() as u64);
                    push_all(&mut out, bytes);
                },
                None => {
                    push_u64(&mut out, 0);
                },
            }
            assert(out@ =~= head + payloads_bytes(self@.instructions.take(i + 1)));
            i += 1;
        }
        assert(self@.instructions.take(self@.instructions.len() as int) =~= self@.instructions);
        assert(out@ =~= self@.bytes());
        out
    }

    /// The fingerprint of the staged call, once every declared instruction
    /// has arrived.
    pub fn hash(&self) -> (r: Result<[u8; 32], WalletError>)
        ensures
            !self@.is_initialized ==> r == Err::<[u8; 32], WalletError>(
                WalletError::OperationNotInitialized,
            ),
            self@.is_initialized && !self@.complete() ==> r == Err::<[u8; 32], WalletError>(
                WalletError::TransferDispositionNotFinal,
            ),
            self@.complete() ==> r is Ok && r->Ok_0@ == self@.fingerprint(),
    {
        if !self.is_initialized {
            return Err(WalletError::OperationNotInitialized);
        }
        if !self.all_instructions_supplied() {
            return Err(WalletError::TransferDispositionNotFinal);
        }
        let bytes = self.to_bytes();
        Ok(hash_of(&bytes))
    }

    /// Gives the record's storage back: the record is blank again.
    pub fn reclaim(&mut self)
        ensures
            final(self)@.is_blank(),
            final(self).wf(),
    {
        *self = DAppMultisigData::new();
    }
}

/// The bytes that one slot of a staging record takes: a byte that tells
/// whether it is filled, the length of the instruction in two bytes, and
/// room for the longest instruction.
pub const SLOT_LEN: usize = 1027;

/// Where the slots start.
pub const SLOTS_OFFSET: usize = 130;

/// The bytes that a staging record takes, whatever it holds.
pub const DAPP_MULTISIG_DATA_LEN: usize = 16562;

/// Whether the `SLOT_LEN` bytes from `offset` on are those written for the
/// slot: zeros for an empty slot; for a filled one a one, the length of the
/// instruction in two bytes, least significant first, the instruction, and
/// zeros up to the end of the slot.
pub open spec fn slot_at(slot: Option<Seq<u8>>, bytes: Seq<u8>, offset: int) -> bool {
    match slot {
        Some(payload) => {
            &&& payload.len() <= MAX_INSTRUCTION_LEN
            &&& bytes[offset] == 1
            &&& bytes.subrange(offset + 1, offset + 3) == spec_u16_to_le_bytes(payload.len() as u16)
            &&& bytes.subrange(offset + 3, offset + 3 + payload.len()) == payload
            &&& zeros_at(bytes, offset + 3 + payload.len(), MAX_INSTRUCTION_LEN - payload.len())
        },
        None => zeros_at(bytes, offset, SLOT_LEN as int),
    }
}

/// Whether the bytes are those written for the record: each field at its
/// place, in a record of fixed length, with zeros for what is not there.
pub open spec fn data_written(data: DAppMultisigDataView, bytes: Seq<u8>) -> bool {
    &&& bytes.len() == DAPP_MULTISIG_DATA_LEN
    &&& bytes[0] == bool_byte(data.is_initialized)
    &&& bytes.subrange(1, 33) == data.wallet_address.bytes@
    &&& bytes.subrange(33, 65) == data.account_guid_hash@
    &&& bytes.subrange(65, 97) == data.dapp.address.bytes@
    &&& bytes.subrange(97, 129) == data.dapp.name_hash@
    &&& bytes[129] == data.num_instructions
    &&& data.instructions.len() == data.num_instructions
    &&& data.num_instructions <= MAX_INSTRUCTIONS
    &&& forall|k: int|
        0 <= k < data.instructions.len() ==> slot_at(
            #[trigger] data.instructions[k],
            bytes,
            SLOTS_OFFSET + 1027 * k,
        )
    &&& zeros_at(
        bytes,
        SLOTS_OFFSET + 1027 * data.instructions.len(),
        1027 * (MAX_INSTRUCTIONS - data.instructions.len()),
    )
}

/// Bytes are written for one slot at most.
proof fn lemma_slot_at_one(a: Option<Seq<u8>>, b: Option<Seq<u8>>, bytes: Seq<u8>, offset: int)
    requires
        0 <= offset,
        offset + SLOT_LEN <= bytes.len(),
        slot_at(a, bytes, offset),
        slot_at(b, bytes, offset),
    ensures
        a == b,
{
    vstd::bytes::lemma_auto_spec_u16_to_from_le_bytes();
    if a is Some && b is Some {
        let x = a->Some_0.len() as u16;
        let y = b->Some_0.len() as u16;
        assert(spec_u16_to_le_bytes(x).len() == 2);
        assert(spec_u16_to_le_bytes(y).len() == 2);
        assert(x == y);
        assert(a->Some_0 =~= b->Some_0);
    } else if a is Some {
        assert(bytes[offset] == 0);
    } else if b is Some {
        assert(bytes[offset] == 0);
    }
}

/// Bytes are written for one record at most.
pub proof fn lemma_data_written_one(
    a: DAppMultisigDataView,
    b: DAppMultisigDataView,
    bytes: Seq<u8>,
)
    requires
        data_written(a, bytes),
        data_written(b, bytes),
    ensures
        a == b,
{
    assert(a.wallet_address.bytes =~= b.wallet_address.bytes);
    assert(a.account_guid_hash =~= b.account_guid_hash);
    assert(a.dapp.address.bytes =~= b.dapp.address.bytes);
    assert(a.dapp.name_hash =~= b.dapp.name_hash);
    assert forall|k: int| 0 <= k < a.instructions.len() implies a.instructions[k]
        == b.instructions[k] by {
        assert(slot_at(a.instructions[k], bytes, SLOTS_OFFSET + 1027 * k));
        assert(slot_at(b.instructions[k], bytes, SLOTS_OFFSET + 1027 * k));
        lemma_slot_at_one(a.instructions[k], b.instructions[k], bytes, SLOTS_OFFSET + 1027 * k);
    }
    assert(a.instructions =~= b.instructions);
}

/// One record is written in one way: the bytes written for it are
/// determined, byte for byte.
pub proof fn lemma_data_written_bytes_one(data: DAppMultisigDataView, a: Seq<u8>, b: Seq<u8>)
    requires
        data_written(data, a),
        data_written(data, b),
    ensures
        a == b,
{
    let count = data.instructions.len() as int;
    assert forall|i: int| 0 <= i < DAPP_MULTISIG_DATA_LEN implies a[i] == b[i] by {
        if 1 <= i < 33 {
            assert(a.subrange(1, 33)[i - 1] == a[i]);
            assert(b.subrange(1, 33)[i - 1] == b[i]);
        } else if 33 <= i < 65 {
            assert(a.subrange(33, 65)[i - 33] == a[i]);
            assert(b.subrange(33, 65)[i - 33] == b[i]);
        } else if 65 <= i < 97 {
            assert(a.subrange(65, 97)[i - 65] == a[i]);
            assert(b.subrange(65, 97)[i - 65] == b[i]);
        } else if 97 <= i < 129 {
            assert(a.subrange(97, 129)[i - 97] == a[i]);
            assert(b.subrange(97, 129)[i - 97] == b[i]);
        } else if 130 <= i {
            let k = (i - 130) / 1027;
            let j = (i - 130) % 1027;
            if k < count {
                let offset = SLOTS_OFFSET + 1027 * k;
                assert(slot_at(data.instructions[k], a, offset));
                assert(slot_at(data.instructions[k], b, offset));
                if data.instructions[k] is Some {
                    let length = data.instructions[k]->Some_0.len() as int;
                    if 1 <= j < 3 {
                        assert(a.subrange(offset + 1, offset + 3)[j - 1] == a[i]);
                        assert(b.subrange(offset + 1, offset + 3)[j - 1] == b[i]);
                    } else if 3 <= j < 3 + length {
                        assert(a.subrange(offset + 3, offset + 3 + length)[j - 3] == a[i]);
                        assert(b.subrange(offset + 3, offset + 3 + length)[j - 3] == b[i]);
                    }
                }
            }
        }
    }
    assert(a =~= b);
}

/// The `SLOT_LEN` bytes written for a slot.
fn slot_bytes(slot: &Option<Vec<u8>>) -> (r: Vec<u8>)
    requires
        slot_fits(slot_view(*slot)),
    ensures
        r@.len() == SLOT_LEN,
        slot_at(slot_view(*slot), r@, 0),
{
    let mut out: Vec<u8> = Vec::new();
    match slot {
        Some(payload) => {
            out.push(1);
            let length = u16_to_le_bytes(#[verifier::truncate] (payload.len() as u16));
            proof {
                vstd::bytes::lemma_auto_spec_u16_to_from_le_bytes();
            }
            push_all(&mut out, &length);
            push_all(&mut out, payload);
            let ghost filled = out@;
            push_zeros(&mut out, MAX_INSTRUCTION_LEN - payload.len());
            proof {
                assert(filled.subrange(1, 3) =~= spec_u16_to_le_bytes(payload@.len() as u16));
                assert(filled.subrange(3, 3 + payload@.len() as int) =~= payload@);
                lemma_embedded(out@, filled, 0, 1, 3);
                lemma_embedded(out@, filled, 0, 3, 3 + payload@.len() as int);
                assert(out@[0] == out@.subrange(0, filled.len() as int)[0]);
            }
        },
        None => {
            push_zeros(&mut out, SLOT_LEN);
        },
    }
    out
}

/// A slot written at one place in a part is written at that place in the
/// whole.
proof fn lemma_embedded_slot(slot: Option<Seq<u8>>, out: Seq<u8>, region: Seq<u8>, base: int, a: int)
    requires
        0 <= base,
        base + region.len() <= out.len(),
        out.subrange(base, base + region.len()) == region,
        0 <= a,
        a + SLOT_LEN <= region.len(),
        slot_at(slot, region, a),
    ensures
        slot_at(slot, out, base + a),
{
    match slot {
        Some(payload) => {
            lemma_embedded(out, region, base, a + 1, a + 3);
            lemma_embedded(out, region, base, a + 3, a + 3 + payload.len());
            lemma_embedded_zeros(
                out,
                region,
                base,
                a + 3 + payload.len(),
                MAX_INSTRUCTION_LEN - payload.len(),
            );
            assert(out[base + a] == out.subrange(base, base + region.len())[a]);
        },
        None => {
            lemma_embedded_zeros(out, region, base, a, SLOT_LEN as int);
        },
    }
}

/// What the `SLOT_LEN` bytes from `offset` on stand for, if they stand for a
/// slot.
fn read_slot(src: &[u8], offset: usize) -> (r: Option<Option<Vec<u8>>>)
    requires
        offset + SLOT_LEN <= src@.len(),
        src@.len() <= usize::MAX,
    ensures
        match r {
            Some(slot) => slot_at(slot_view(slot), src@, offset as int),
            None => forall|slot: Option<Seq<u8>>| !slot_at(slot, src@, offset as int),
        },
{
    if all_zero(src, offset, SLOT_LEN) {
        return Some(None);
    }
    if src[offset] != 1 {
        proof {
            assert forall|slot: Option<Seq<u8>>| !slot_at(slot, src@, offset as int) by {}
        }
        return None;
    }
    let length = u16_from_le_bytes(slice_subrange(src, offset + 1, offset + 3)) as usize;
    proof {
        vstd::bytes::lemma_auto_spec_u16_to_from_le_bytes();
    }
    if length > MAX_INSTRUCTION_LEN || !all_zero(
        src,
        offset + 3 + length,
        MAX_INSTRUCTION_LEN - length,
    ) {
        proof {
            assert forall|slot: Option<Seq<u8>>| !slot_at(slot, src@, offset as int) by {
                if slot is Some && slot_at(slot, src@, offset as int) {
                    let stored = slot->Some_0.len() as u16;
                    assert(spec_u16_to_le_bytes(stored).len() == 2);
                    assert(stored == length);
                }
            }
        }
        return None;
    }
    let mut payload: Vec<u8> = Vec::new();
    push_slice(&mut payload, slice_subrange(src, offset + 3, offset + 3 + length));
    proof {
        assert(payload@ =~= src@.subrange(offset + 3, offset + 3 + length));
        assert(spec_u16_to_le_bytes(length as u16) == src@.subrange(offset + 1, offset + 3));
    }
    Some(Some(payload))
}

impl DAppMultisigData {
    /// Whether the record is in order.
    pub fn validate(&self) -> (r: bool)
        ensures
            r == self.wf(),
    {
        if !self.is_initialized {
            let zero = [0u8;32];
            proof {
                assert(zero@ =~= Seq::new(32, |i: int| 0u8));
            }
            return bytes32_eq(&self.wallet_address.bytes, &zero) && bytes32_eq(
                &self.account_guid_hash,
                &zero,
            ) && bytes32_eq(&self.dapp.address.bytes, &zero) && bytes32_eq(
                &self.dapp.name_hash,
                &zero,
            ) && self.num_instructions == 0 && self.instructions.len() == 0;
        }
        if self.instructions.len() != self.num_instructions as usize
            || self.num_instructions as usize > MAX_INSTRUCTIONS {
            return false;
        }
        let mut i: usize = 0;
        while i < self.instructions.len()
            invariant
                self.is_initialized,
                i <= self.instructions@.len(),
                forall|k: int| 0 <= k < i ==> slot_fits(#[trigger] self@.instructions[k]),
            decreases self.instructions.len() - i,
        {
            match &self.instructions[i] {
                Some(payload) => {
                    if payload.len() > MAX_INSTRUCTION_LEN {
                        assert(!slot_fits(self@.instructions[i as int]));
                        return false;
                    }
                },
                None => {},
            }
            i += 1;
        }
        true
    }

    /// The bytes that store the record: `DAPP_MULTISIG_DATA_LEN` bytes with
    /// each field at its place and zeros for what is not there.
    pub fn pack(&self) -> (r: Vec<u8>)
        requires
            self.wf(),
        ensures
            data_written(self@, r@),
    {
        let mut slots: Vec<u8> = Vec::new();
        let mut k: usize = 0;
        while k < self.instructions.len()
            invariant
                self.wf(),
                k <= self.instructions@.len(),
                slots@.len() == 1027 * k,
                forall|i: int|
                    0 <= i < k ==> slot_at(#[trigger] self@.instructions[i], slots@, 1027 * i),
            decreases self.instructions.len() - k,
        {
            let ghost before = slots@;
            assert(slot_fits(self@.instructions[k as int]));
            let bytes = slot_bytes(&self.instructions[k]);
            push_slice(&mut slots, bytes.as_slice());
            proof {
                assert(slots@.subrange(0, 1027 * k) =~= before);
                assert(slots@.subrange(1027 * k, 1027 * k + 1027) =~= bytes@);
                lemma_embedded_slot(self@.instructions[k as int], slots@, bytes@, 1027 * k, 0);
                assert forall|i: int| 0 <= i < k implies slot_at(
                    #[trigger] self@.instructions[i],
                    slots@,
                    1027 * i,
                ) by {
                    assert(slot_at(self@.instructions[i], before, 1027 * i));
                    lemma_embedded_slot(self@.instructions[i], slots@, before, 0, 1027 * i);
                }
            }
            k += 1;
        }
        let ghost filled = slots@;
        push_zeros(&mut slots, 1027 * (MAX_INSTRUCTIONS - self.instructions.len()));
        proof {
            assert forall|i: int| 0 <= i < self@.instructions.len() implies slot_at(
                #[trigger] self@.instructions[i],
                slots@,
                1027 * i,
            ) by {
                assert(slot_at(self@.instructions[i], filled, 1027 * i));
                lemma_embedded_slot(self@.instructions[i], slots@, filled, 0, 1027 * i);
            }
        }
        let mut out: Vec<u8> = Vec::new();
        out.push(byte_of(self.is_initialized));
        push_bytes32(&mut out, &self.wallet_address.bytes);
        push_bytes32(&mut out, &self.account_guid_hash);
        push_bytes32(&mut out, &self.dapp.address.bytes);
        push_bytes32(&mut out, &self.dapp.name_hash);
        out.push(self.num_instructions);
        push_slice(&mut out, slots.as_slice());
        proof {
            let bytes = out@;
            assert(bytes.subrange(1, 33) =~= self.wallet_address.bytes@);
            assert(bytes.subrange(33, 65) =~= self.account_guid_hash@);
            assert(bytes.subrange(65, 97) =~= self.dapp.address.bytes@);
            assert(bytes.subrange(97, 129) =~= self.dapp.name_hash@);
            assert(bytes.subrange(130, 16562) =~= slots@);
            assert forall|i: int| 0 <= i < self@.instructions.len() implies slot_at(
                #[trigger] self@.instructions[i],
                bytes,
                SLOTS_OFFSET + 1027 * i,
            ) by {
                assert(slot_at(self@.instructions[i], slots@, 1027 * i));
                lemma_embedded_slot(self@.instructions[i], bytes, slots@, 130, 1027 * i);
            }
            lemma_embedded_zeros(
                bytes,
                slots@,
                130,
                1027 * self@.instructions.len() as int,
                1027 * (MAX_INSTRUCTIONS - self@.instructions.len()),
            );
        }
        out
    }

    /// Writes the bytes that store the record over `dst`, which must have
    /// the length of the record.
    pub fn pack_into_slice(&self, dst: &mut [u8])
        requires
            self.wf(),
            old(dst)@.len() == DAPP_MULTISIG_DATA_LEN,
        ensures
            data_written(self@, final(dst)@),
    {
        let bytes = self.pack();
        write_over(dst, &bytes);
    }

    /// The record that the bytes stand for. Refused where the bytes stand
    /// for no record that is in order.
    pub fn unpack_from_slice(src: &[u8]) -> (r: Result<DAppMultisigData, WalletError>)
        ensures
            match r {
                Ok(data) => data_written(data@, src@) && data.wf(),
                Err(e) => e == WalletError::InvalidAccountData && forall|
                    data: DAppMultisigDataView,
                | !(#[trigger] data_written(data, src@) && data.wf()),
            },
    {
        if src.len() != DAPP_MULTISIG_DATA_LEN {
            return Err(WalletError::InvalidAccountData);
        }
        let is_initialized = match bool_of(src[0]) {
            Some(b) => b,
            None => {
                return Err(WalletError::InvalidAccountData);
            },
        };
        let count = src[129] as usize;
        if count > MAX_INSTRUCTIONS {
            return Err(WalletError::InvalidAccountData);
        }
        if !all_zero(src, SLOTS_OFFSET + 1027 * count, 1027 * (MAX_INSTRUCTIONS - count)) {
            return Err(WalletError::InvalidAccountData);
        }
        let mut instructions: Vec<Option<Vec<u8>>> = Vec::new();
        let mut k: usize = 0;
        while k < count
            invariant
                k <= count,
                count <= MAX_INSTRUCTIONS,
                count == src@[129],
                src@.len() == DAPP_MULTISIG_DATA_LEN,
                instructions@.len() == k,
                forall|i: int|
                    0 <= i < k ==> slot_at(
                        #[trigger] slot_views(instructions@)[i],
                        src@,
                        SLOTS_OFFSET + 1027 * i,
                    ),
            decreases count - k,
        {
            match read_slot(src, SLOTS_OFFSET + 1027 * k) {
                Some(slot) => {
                    let ghost before = instructions@;
                    instructions.push(slot);
                    proof {
                        assert forall|i: int| 0 <= i < k + 1 implies slot_at(
                            #[trigger] slot_views(instructions@)[i],
                            src@,
                            SLOTS_OFFSET + 1027 * i,
                        ) by {
                            if i < k {
                                assert(slot_views(instructions@)[i] == slot_views(before)[i]);
                            }
                        }
                    }
                },
                None => {
                    proof {
                        assert forall|data: DAppMultisigDataView|
                            !(#[trigger] data_written(data, src@) && data.wf()) by {
                            if data_written(data, src@) {
                                assert(slot_at(
                                    data.instructions[k as int],
                                    src@,
                                    SLOTS_OFFSET + 1027 * k,
                                ));
                            }
                        }
                    }
                    return Err(WalletError::InvalidAccountData);
                },
            }
            k += 1;
        }
        let data = DAppMultisigData {
            is_initialized,
            wallet_address: Pubkey { bytes: read32(src, 1) },
            account_guid_hash: read32(src, 33),
            dapp: DAppBookEntry { address: Pubkey { bytes: read32(src, 65) }, name_hash: read32(src, 97) },
            num_instructions: src[129],
            instructions,
        };
        assert(data_written(data@, src@));
        if !data.validate() {
            proof {
                assert forall|other: DAppMultisigDataView|
                    !(#[trigger] data_written(other, src@) && other.wf()) by {
                    if data_written(other, src@) {
                        lemma_data_written_one(other, data@, src@);
                    }
                }
            }
            return Err(WalletError::InvalidAccountData);
        }
        Ok(data)
    }
}

} // verus!
