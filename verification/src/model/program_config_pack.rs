use vstd::prelude::*;
use vstd::bytes::{
    spec_u32_from_le_bytes, spec_u32_to_le_bytes, spec_u64_to_le_bytes, u32_from_le_bytes,
    u32_to_le_bytes, u64_from_le_bytes,
};
use vstd::slice::slice_subrange;
use crate::error::WalletError;
use crate::model::program_config::{
    flags_within, wallet_within, AddressBook, ProgramConfig, Signers, MAX_WALLETS,
};
use crate::utils::{lemma_true_positions, ref_ids, true_positions, OptArray, OptArrayFlags};
use crate::model::signer::Signer;
use crate::model::wallet_config::{
    AddressBookEntry, WalletConfig, MAX_ADDRESS_BOOK_ENTRIES, MAX_SIGNERS,
};
use crate::pack::{
    all_zero, bool_byte, bool_of, byte_of, bytes32_at, lemma_embedded, lemma_embedded_zeros,
    lemma_not_zeros, push_all, push_bytes32, push_slice, push_u64, push_zeros, read32,
    write_over, zeros_at,
};
use crate::version::Versioned;
use crate::pubkey::Pubkey;

verus! {

/// The bytes that one wallet policy takes.
pub const WALLET_CONFIG_LEN: usize = 91;

/// The bytes that a program configuration takes, whatever it holds.
pub const PROGRAM_CONFIG_LEN: usize = 8162;

/// Where the version starts.
pub const VERSION_OFFSET: usize = 1;

/// Where the signers start.
pub const SIGNERS_OFFSET: usize = 5;

/// Where the assistant's key starts.
pub const ASSISTANT_OFFSET: usize = 805;

/// Where the address book starts.
pub const ADDRESS_BOOK_OFFSET: usize = 837;

/// Where the threshold of policy changes stands.
pub const APPROVALS_OFFSET: usize = 7237;

/// Where the timeout of policy changes starts.
pub const TIMEOUT_OFFSET: usize = 7238;

/// Where the flags of those who approve policy changes start.
pub const APPROVERS_OFFSET: usize = 7246;

/// Where the lock of policy changes stands.
pub const LOCK_OFFSET: usize = 7250;

/// Where the number of wallets stands.
pub const WALLET_COUNT_OFFSET: usize = 7251;

/// Where the wallet policies start.
pub const WALLETS_OFFSET: usize = 7252;

/// Whether the 32 bytes from `offset` on are those written for the slot:
/// zeros for an empty slot, and its key for a slot that holds a signer.
pub open spec fn signer_slot_at(slot: Option<Signer>, bytes: Seq<u8>, offset: int) -> bool {
    match slot {
        Some(signer) => bytes32_at(signer.key.bytes, bytes, offset),
        None => zeros_at(bytes, offset, 32),
    }
}

/// Whether the 64 bytes from `offset` on are those written for the slot:
/// zeros for an empty slot, and its address and name hash for a slot that
/// holds an entry.
pub open spec fn entry_slot_at(slot: Option<AddressBookEntry>, bytes: Seq<u8>, offset: int) -> bool {
    match slot {
        Some(entry) => bytes32_at(entry.address.bytes, bytes, offset) && bytes32_at(
            entry.name_hash,
            bytes,
            offset + 32,
        ),
        None => zeros_at(bytes, offset, 64),
    }
}

/// Whether the 91 bytes from `offset` on stand for the wallet policy: the
/// identifier, the name hash, the threshold, the timeout in eight bytes,
/// least significant first, the bytes of the approver flags and of the
/// destination flags, and the lock.
pub open spec fn wallet_at(wallet: WalletConfig, bytes: Seq<u8>, offset: int) -> bool {
    &&& bytes32_at(wallet.wallet_guid_hash, bytes, offset)
    &&& bytes32_at(wallet.wallet_name_hash, bytes, offset + 32)
    &&& bytes[offset + 64] == wallet.approvals_required_for_transfer
    &&& bytes.subrange(offset + 65, offset + 73) == spec_u64_to_le_bytes(
        wallet.approval_timeout_for_transfer,
    )
    &&& bytes.subrange(offset + 73, offset + 77) == wallet.transfer_approvers.bytes()
    &&& bytes.subrange(offset + 77, offset + 90) == wallet.allowed_destinations.bytes()
    &&& bytes[offset + 90] == bool_byte(wallet.policy_update_locked)
}

/// Whether the bytes are those written for the configuration: each field at
/// its place, in a record of fixed length, with zeros for what is empty.
pub open spec fn written(config: ProgramConfig, bytes: Seq<u8>) -> bool {
    &&& bytes.len() == PROGRAM_CONFIG_LEN
    &&& bytes[0] == bool_byte(config.is_initialized)
    &&& bytes.subrange(VERSION_OFFSET as int, SIGNERS_OFFSET as int) == spec_u32_to_le_bytes(
        config.version,
    )
    &&& config.signers@.len() == MAX_SIGNERS
    &&& forall|k: int|
        0 <= k < MAX_SIGNERS ==> signer_slot_at(
            #[trigger] config.signers@[k],
            bytes,
            SIGNERS_OFFSET + 32 * k,
        )
    &&& bytes32_at(config.assistant.key.bytes, bytes, ASSISTANT_OFFSET as int)
    &&& config.address_book@.len() == MAX_ADDRESS_BOOK_ENTRIES
    &&& forall|k: int|
        0 <= k < MAX_ADDRESS_BOOK_ENTRIES ==> entry_slot_at(
            #[trigger] config.address_book@[k],
            bytes,
            ADDRESS_BOOK_OFFSET + 64 * k,
        )
    &&& bytes[APPROVALS_OFFSET as int] == config.approvals_required_for_config
    &&& bytes.subrange(TIMEOUT_OFFSET as int, APPROVERS_OFFSET as int) == spec_u64_to_le_bytes(
        config.approval_timeout_for_config,
    )
    &&& bytes.subrange(APPROVERS_OFFSET as int, LOCK_OFFSET as int)
        == config.config_approvers.bytes()
    &&& bytes[LOCK_OFFSET as int] == bool_byte(config.config_policy_update_locked)
    &&& config.wallets@.len() <= MAX_WALLETS
    &&& bytes[WALLET_COUNT_OFFSET as int] == config.wallets@.len()
    &&& forall|k: int|
        0 <= k < config.wallets@.len() ==> wallet_at(
            #[trigger] config.wallets@[k],
            bytes,
            WALLETS_OFFSET + 91 * k,
        )
    &&& zeros_at(
        bytes,
        WALLETS_OFFSET + 91 * config.wallets@.len(),
        91 * (MAX_WALLETS - config.wallets@.len()),
    )
}

/// Whether two configurations say the same and keep their flags in the same
/// bytes.
pub open spec fn same_config(a: ProgramConfig, b: ProgramConfig) -> bool {
    &&& a@ == b@
    &&& a.config_approvers.bytes() == b.config_approvers.bytes()
    &&& forall|k: int|
        0 <= k < a.wallets@.len() ==> (#[trigger] a.wallets@[k]).transfer_approvers.bytes()
            == b.wallets@[k].transfer_approvers.bytes() && a.wallets@[k].allowed_destinations.bytes()
            == b.wallets@[k].allowed_destinations.bytes()
}

/// Whether the bytes stand for the configuration, and for no other: they are
/// those written for it, and no slot that holds an item reads as empty.
pub open spec fn represents(config: ProgramConfig, bytes: Seq<u8>) -> bool {
    written(config, bytes) && packable(config)
}

/// Whether byte `j` of the signer's key is not zero.
pub open spec fn signer_byte_set(signer: Signer, j: int) -> bool {
    signer.key.bytes@[j] != 0
}

/// Whether byte `j` of the entry's address or of its name hash is not zero.
pub open spec fn entry_byte_set(entry: AddressBookEntry, j: int) -> bool {
    entry.address.bytes@[j] != 0 || entry.name_hash@[j] != 0
}

/// Whether the slot is empty or holds a signer whose key is not all zeros.
pub open spec fn signer_slot_tells(slot: Option<Signer>) -> bool {
    slot is Some ==> exists|j: int| 0 <= j < 32 && #[trigger] signer_byte_set(slot->Some_0, j)
}

/// Whether the slot is empty or holds an entry that is not all zeros.
pub open spec fn entry_slot_tells(slot: Option<AddressBookEntry>) -> bool {
    slot is Some ==> exists|j: int| 0 <= j < 32 && #[trigger] entry_byte_set(slot->Some_0, j)
}

/// Whether every signer and every entry that the configuration holds has a
/// byte that is not zero, so that its slot is told from an empty one.
pub open spec fn packable(config: ProgramConfig) -> bool {
    &&& forall|k: int|
        0 <= k < config.signers@.len() ==> signer_slot_tells(#[trigger] config.signers@[k])
    &&& forall|k: int|
        0 <= k < config.address_book@.len() ==> entry_slot_tells(
            #[trigger] config.address_book@[k],
        )
}

/// The bytes written for the signer slots.
fn signer_slots_bytes(signers: &Signers) -> (r: Vec<u8>)
    requires
        signers.wf(),
    ensures
        r@.len() == 32 * MAX_SIGNERS,
        forall|k: int|
            0 <= k < MAX_SIGNERS ==> signer_slot_at(#[trigger] signers@[k], r@, 32 * k),
{
    proof {
        signers.lemma_free_and_live_fill_capacity();
    }
    let mut out: Vec<u8> = Vec::new();
    let mut k: usize = 0;
    while k < MAX_SIGNERS
        invariant
            k <= MAX_SIGNERS,
            signers.wf(),
            signers@.len() == MAX_SIGNERS,
            out@.len() == 32 * k,
            forall|i: int| 0 <= i < k ==> signer_slot_at(#[trigger] signers@[i], out@, 32 * i),
        decreases MAX_SIGNERS - k,
    {
        let ghost before = out@;
        match signers.slot(k) {
            Some(signer) => {
                push_bytes32(&mut out, &signer.key.bytes);
                assert(out@.subrange(32 * k, 32 * k + 32) =~= signer.key.bytes@);
            },
            None => {
                push_zeros(&mut out, 32);
            },
        }
        proof {
            assert(out@.subrange(0, 32 * k) =~= before);
            assert forall|i: int| 0 <= i < k implies signer_slot_at(
                #[trigger] signers@[i],
                out@,
                32 * i,
            ) by {
                assert(signer_slot_at(signers@[i], before, 32 * i));
                lemma_embedded(out@, before, 0, 32 * i, 32 * i + 32);
                if signers@[i] is None {
                    lemma_embedded_zeros(out@, before, 0, 32 * i, 32);
                }
            }
        }
        k += 1;
    }
    out
}

/// The bytes written for the address book slots.
fn entry_slots_bytes(address_book: &AddressBook) -> (r: Vec<u8>)
    requires
        address_book.wf(),
    ensures
        r@.len() == 64 * MAX_ADDRESS_BOOK_ENTRIES,
        forall|k: int|
            0 <= k < MAX_ADDRESS_BOOK_ENTRIES ==> entry_slot_at(
                #[trigger] address_book@[k],
                r@,
                64 * k,
            ),
{
    proof {
        address_book.lemma_free_and_live_fill_capacity();
    }
    let mut out: Vec<u8> = Vec::new();
    let mut k: usize = 0;
    while k < MAX_ADDRESS_BOOK_ENTRIES
        invariant
            k <= MAX_ADDRESS_BOOK_ENTRIES,
            address_book.wf(),
            address_book@.len() == MAX_ADDRESS_BOOK_ENTRIES,
            out@.len() == 64 * k,
            forall|i: int| 0 <= i < k ==> entry_slot_at(#[trigger] address_book@[i], out@, 64 * i),
        decreases MAX_ADDRESS_BOOK_ENTRIES - k,
    {
        let ghost before = out@;
        match address_book.slot(k) {
            Some(entry) => {
                push_bytes32(&mut out, &entry.address.bytes);
                push_bytes32(&mut out, &entry.name_hash);
                assert(out@.subrange(64 * k, 64 * k + 32) =~= entry.address.bytes@);
                assert(out@.subrange(64 * k + 32, 64 * k + 64) =~= entry.name_hash@);
            },
            None => {
                push_zeros(&mut out, 64);
            },
        }
        proof {
            assert(out@.subrange(0, 64 * k) =~= before);
            assert forall|i: int| 0 <= i < k implies entry_slot_at(
                #[trigger] address_book@[i],
                out@,
                64 * i,
            ) by {
                assert(entry_slot_at(address_book@[i], before, 64 * i));
                lemma_embedded(out@, before, 0, 64 * i, 64 * i + 32);
                lemma_embedded(out@, before, 0, 64 * i + 32, 64 * i + 64);
                if address_book@[i] is None {
                    lemma_embedded_zeros(out@, before, 0, 64 * i, 64);
                }
            }
        }
        k += 1;
    }
    out
}

/// The 91 bytes written for a wallet policy.
fn wallet_bytes(wallet: &WalletConfig) -> (r: Vec<u8>)
    ensures
        r@.len() == WALLET_CONFIG_LEN,
        wallet_at(*wallet, r@, 0),
{
    let mut out: Vec<u8> = Vec::new();
    push_bytes32(&mut out, &wallet.wallet_guid_hash);
    push_bytes32(&mut out, &wallet.wallet_name_hash);
    out.push(wallet.approvals_required_for_transfer);
    push_u64(&mut out, wallet.approval_timeout_for_transfer);
    proof {
        vstd::bytes::lemma_auto_spec_u64_to_from_le_bytes();
        wallet.transfer_approvers.lemma_view_is_bits();
        wallet.allowed_destinations.lemma_view_is_bits();
    }
    push_slice(&mut out, wallet.transfer_approvers.as_bytes());
    push_slice(&mut out, wallet.allowed_destinations.as_bytes());
    out.push(byte_of(wallet.policy_update_locked));
    proof {
        assert(out@.subrange(0, 32) =~= wallet.wallet_guid_hash@);
        assert(out@.subrange(32, 64) =~= wallet.wallet_name_hash@);
        assert(out@.subrange(65, 73) =~= spec_u64_to_le_bytes(
            wallet.approval_timeout_for_transfer,
        ));
        assert(out@.subrange(73, 77) =~= wallet.transfer_approvers.bytes());
        assert(out@.subrange(77, 90) =~= wallet.allowed_destinations.bytes());
    }
    out
}

/// A wallet policy written at one place in a part is written at that place
/// in the whole.
proof fn lemma_embedded_wallet(
    wallet: WalletConfig,
    out: Seq<u8>,
    region: Seq<u8>,
    base: int,
    a: int,
)
    requires
        0 <= base,
        base + region.len() <= out.len(),
        out.subrange(base, base + region.len()) == region,
        0 <= a,
        a + 91 <= region.len(),
        wallet_at(wallet, region, a),
    ensures
        wallet_at(wallet, out, base + a),
{
    lemma_embedded(out, region, base, a, a + 32);
    lemma_embedded(out, region, base, a + 32, a + 64);
    lemma_embedded(out, region, base, a + 65, a + 73);
    lemma_embedded(out, region, base, a + 73, a + 77);
    lemma_embedded(out, region, base, a + 77, a + 90);
    assert(out[base + a + 64] == out.subrange(base, base + region.len())[a + 64]);
    assert(out[base + a + 90] == out.subrange(base, base + region.len())[a + 90]);
}

/// The bytes written for the wallet policies: each in its 91 bytes, and
/// zeros up to the room for `MAX_WALLETS`.
fn wallets_bytes(wallets: &Vec<WalletConfig>) -> (r: Vec<u8>)
    requires
        wallets@.len() <= MAX_WALLETS,
    ensures
        r@.len() == 91 * MAX_WALLETS,
        forall|k: int| 0 <= k < wallets@.len() ==> wallet_at(#[trigger] wallets@[k], r@, 91 * k),
        zeros_at(r@, 91 * wallets@.len() as int, 91 * (MAX_WALLETS - wallets@.len())),
{
    let mut out: Vec<u8> = Vec::new();
    let mut k: usize = 0;
    while k < wallets.len()
        invariant
            k <= wallets.len(),
            wallets@.len() <= MAX_WALLETS,
            out@.len() == 91 * k,
            forall|i: int| 0 <= i < k ==> wallet_at(#[trigger] wallets@[i], out@, 91 * i),
        decreases wallets.len() - k,
    {
        let ghost before = out@;
        let bytes = wallet_bytes(&wallets[k]);
        push_slice(&mut out, bytes.as_slice());
        proof {
            assert(out@.subrange(0, 91 * k) =~= before);
            assert(out@.subrange(91 * k, 91 * k + 91) =~= bytes@);
            lemma_embedded_wallet(wallets@[k as int], out@, bytes@, 91 * k, 0);
            assert forall|i: int| 0 <= i < k implies wallet_at(
                #[trigger] wallets@[i],
                out@,
                91 * i,
            ) by {
                assert(wallet_at(wallets@[i], before, 91 * i));
                lemma_embedded_wallet(wallets@[i], out@, before, 0, 91 * i);
            }
        }
        k += 1;
    }
    let ghost filled = out@;
    push_zeros(&mut out, 91 * (MAX_WALLETS - wallets.len()));
    proof {
        assert forall|i: int| 0 <= i < wallets@.len() implies wallet_at(
            #[trigger] wallets@[i],
            out@,
            91 * i,
        ) by {
            assert(wallet_at(wallets@[i], filled, 91 * i));
            lemma_embedded_wallet(wallets@[i], out@, filled, 0, 91 * i);
        }
    }
    out
}

impl ProgramConfig {
    /// The bytes that store the configuration: a record of
    /// `PROGRAM_CONFIG_LEN` bytes with each field at its place and zeros for
    /// what is empty.
    pub fn pack(&self) -> (r: Vec<u8>)
        requires
            self.wf(),
        ensures
            written(*self, r@),
    {
        proof {
            self.signers.lemma_free_and_live_fill_capacity();
            self.address_book.lemma_free_and_live_fill_capacity();
            self.config_approvers.lemma_view_is_bits();
            vstd::bytes::lemma_auto_spec_u64_to_from_le_bytes();
            vstd::bytes::lemma_auto_spec_u32_to_from_le_bytes();
        }
        let signers = signer_slots_bytes(&self.signers);
        let entries = entry_slots_bytes(&self.address_book);
        let wallets = wallets_bytes(&self.wallets);
        let mut out: Vec<u8> = Vec::new();
        out.push(byte_of(self.is_initialized));
        let version = u32_to_le_bytes(self.version);
        push_all(&mut out, &version);
        push_slice(&mut out, signers.as_slice());
        push_bytes32(&mut out, &self.assistant.key.bytes);
        push_slice(&mut out, entries.as_slice());
        out.push(self.approvals_required_for_config);
        push_u64(&mut out, self.approval_timeout_for_config);
        push_slice(&mut out, self.config_approvers.as_bytes());
        out.push(byte_of(self.config_policy_update_locked));
        out.push(#[verifier::truncate] (self.wallets.len() as u8));
        push_slice(&mut out, wallets.as_slice());
        proof {
            let bytes = out@;
            assert(bytes.len() == PROGRAM_CONFIG_LEN);
            assert(bytes.subrange(1, 5) =~= spec_u32_to_le_bytes(self.version));
            assert(bytes.subrange(5, 805) =~= signers@);
            assert(bytes.subrange(805, 837) =~= self.assistant.key.bytes@);
            assert(bytes.subrange(837, 7237) =~= entries@);
            assert(bytes.subrange(7238, 7246) =~= spec_u64_to_le_bytes(
                self.approval_timeout_for_config,
            ));
            assert(bytes.subrange(7246, 7250) =~= self.config_approvers.bytes());
            assert(bytes.subrange(7252, 8162) =~= wallets@);
            assert forall|k: int| 0 <= k < MAX_SIGNERS implies signer_slot_at(
                #[trigger] self.signers@[k],
                bytes,
                SIGNERS_OFFSET + 32 * k,
            ) by {
                assert(signer_slot_at(self.signers@[k], signers@, 32 * k));
                lemma_embedded(bytes, signers@, 5, 32 * k, 32 * k + 32);
                if self.signers@[k] is None {
                    lemma_embedded_zeros(bytes, signers@, 5, 32 * k, 32);
                }
            }
            assert forall|k: int| 0 <= k < MAX_ADDRESS_BOOK_ENTRIES implies entry_slot_at(
                #[trigger] self.address_book@[k],
                bytes,
                ADDRESS_BOOK_OFFSET + 64 * k,
            ) by {
                assert(entry_slot_at(self.address_book@[k], entries@, 64 * k));
                lemma_embedded(bytes, entries@, 837, 64 * k, 64 * k + 32);
                lemma_embedded(bytes, entries@, 837, 64 * k + 32, 64 * k + 64);
                if self.address_book@[k] is None {
                    lemma_embedded_zeros(bytes, entries@, 837, 64 * k, 64);
                }
            }
            assert forall|k: int| 0 <= k < self.wallets@.len() implies wallet_at(
                #[trigger] self.wallets@[k],
                bytes,
                WALLETS_OFFSET + 91 * k,
            ) by {
                assert(wallet_at(self.wallets@[k], wallets@, 91 * k));
                lemma_embedded_wallet(self.wallets@[k], bytes, wallets@, 7252, 91 * k);
            }
            lemma_embedded_zeros(
                bytes,
                wallets@,
                7252,
                91 * self.wallets@.len() as int,
                91 * (MAX_WALLETS - self.wallets@.len()),
            );
        }
        out
    }
}

/// The flag bytes from `offset` on.
fn read_flags<A, const N: usize>(src: &[u8], offset: usize) -> (r: OptArrayFlags<A, N>)
    requires
        offset + N <= src@.len(),
        src@.len() <= usize::MAX,
    ensures
        r.bytes() == src@.subrange(offset as int, offset + N),
{
    let mut out = [0u8;N];
    let mut i: usize = 0;
    while i < N
        invariant
            i <= N,
            offset + N <= src@.len(),
            src@.len() <= usize::MAX,
            forall|j: int| 0 <= j < i ==> out@[j] == src@[offset + j],
        decreases N - i,
    {
        out[i] = src[offset + i];
        i += 1;
    }
    assert(out@ =~= src@.subrange(offset as int, offset + N));
    OptArrayFlags::new(out)
}

/// The signer slots that the 800 bytes from `SIGNERS_OFFSET` on stand for.
fn read_signers(src: &[u8]) -> (r: Signers)
    requires
        src@.len() == PROGRAM_CONFIG_LEN,
    ensures
        r.wf(),
        r@.len() == MAX_SIGNERS,
        forall|k: int|
            0 <= k < MAX_SIGNERS ==> signer_slot_at(#[trigger] r@[k], src@, SIGNERS_OFFSET + 32 * k),
        forall|k: int| 0 <= k < MAX_SIGNERS ==> signer_slot_tells(#[trigger] r@[k]),
{
    let mut slots: Vec<Option<Signer>> = Vec::new();
    let mut k: usize = 0;
    while k < MAX_SIGNERS
        invariant
            k <= MAX_SIGNERS,
            src@.len() == PROGRAM_CONFIG_LEN,
            slots@.len() == k,
            forall|i: int|
                0 <= i < k ==> signer_slot_at(#[trigger] slots@[i], src@, SIGNERS_OFFSET + 32 * i),
            forall|i: int| 0 <= i < k ==> signer_slot_tells(#[trigger] slots@[i]),
        decreases MAX_SIGNERS - k,
    {
        let offset = SIGNERS_OFFSET + 32 * k;
        if all_zero(src, offset, 32) {
            slots.push(None);
        } else {
            let key = read32(src, offset);
            let ghost before = slots@;
            slots.push(Some(Signer { key: Pubkey { bytes: key } }));
            proof {
                let j = lemma_not_zeros(src@, offset as int, 32);
                assert(key@[j] == src@.subrange(offset as int, offset + 32)[j]);
                assert(key@[j] != 0);
                assert forall|i: int| 0 <= i < k + 1 implies signer_slot_tells(
                    #[trigger] slots@[i],
                ) by {
                    if i < k {
                        assert(slots@[i] == before[i]);
                    } else {
                        assert(signer_byte_set(slots@[i]->Some_0, j));
                    }
                }
            }
        }
        k += 1;
    }
    Signers::from_vec(slots)
}

/// The address book slots that the 6400 bytes from `ADDRESS_BOOK_OFFSET` on
/// stand for.
fn read_address_book(src: &[u8]) -> (r: AddressBook)
    requires
        src@.len() == PROGRAM_CONFIG_LEN,
    ensures
        r.wf(),
        r@.len() == MAX_ADDRESS_BOOK_ENTRIES,
        forall|k: int|
            0 <= k < MAX_ADDRESS_BOOK_ENTRIES ==> entry_slot_at(
                #[trigger] r@[k],
                src@,
                ADDRESS_BOOK_OFFSET + 64 * k,
            ),
        forall|k: int| 0 <= k < MAX_ADDRESS_BOOK_ENTRIES ==> entry_slot_tells(#[trigger] r@[k]),
{
    let mut slots: Vec<Option<AddressBookEntry>> = Vec::new();
    let mut k: usize = 0;
    while k < MAX_ADDRESS_BOOK_ENTRIES
        invariant
            k <= MAX_ADDRESS_BOOK_ENTRIES,
            src@.len() == PROGRAM_CONFIG_LEN,
            slots@.len() == k,
            forall|i: int|
                0 <= i < k ==> entry_slot_at(
                    #[trigger] slots@[i],
                    src@,
                    ADDRESS_BOOK_OFFSET + 64 * i,
                ),
            forall|i: int| 0 <= i < k ==> entry_slot_tells(#[trigger] slots@[i]),
        decreases MAX_ADDRESS_BOOK_ENTRIES - k,
    {
        let offset = ADDRESS_BOOK_OFFSET + 64 * k;
        if all_zero(src, offset, 64) {
            slots.push(None);
        } else {
            let address = read32(src, offset);
            let name_hash = read32(src, offset + 32);
            let ghost before = slots@;
            slots.push(Some(AddressBookEntry { address: Pubkey { bytes: address }, name_hash }));
            proof {
                let j = lemma_not_zeros(src@, offset as int, 64);
                let w = if j < 32 {
                    j
                } else {
                    j - 32
                };
                if j < 32 {
                    assert(address@[j] == src@.subrange(offset as int, offset + 32)[j]);
                    assert(address@[w] != 0);
                } else {
                    assert(name_hash@[j - 32] == src@.subrange(offset + 32, offset + 64)[j - 32]);
                    assert(name_hash@[w] != 0);
                }
                assert forall|i: int| 0 <= i < k + 1 implies entry_slot_tells(
                    #[trigger] slots@[i],
                ) by {
                    if i < k {
                        assert(slots@[i] == before[i]);
                    } else {
                        assert(entry_byte_set(slots@[i]->Some_0, w));
                    }
                }
            }
        }
        k += 1;
    }
    AddressBook::from_vec(slots)
}

/// The wallet policy that the 91 bytes from `offset` on stand for, if they
/// stand for one.
fn read_wallet(src: &[u8], offset: usize) -> (r: Option<WalletConfig>)
    requires
        offset + 91 <= src@.len(),
        src@.len() <= usize::MAX,
    ensures
        match r {
            Some(wallet) => wallet_at(wallet, src@, offset as int),
            None => src@[offset + 90] != 0 && src@[offset + 90] != 1,
        },
{
    let locked = match bool_of(src[offset + 90]) {
        Some(locked) => locked,
        None => {
            return None;
        },
    };
    let timeout = u64_from_le_bytes(slice_subrange(src, offset + 65, offset + 73));
    proof {
        vstd::bytes::lemma_auto_spec_u64_to_from_le_bytes();
        assert(spec_u64_to_le_bytes(timeout) == src@.subrange(offset + 65, offset + 73));
    }
    Some(
        WalletConfig {
            wallet_guid_hash: read32(src, offset),
            wallet_name_hash: read32(src, offset + 32),
            approvals_required_for_transfer: src[offset + 64],
            approval_timeout_for_transfer: timeout,
            transfer_approvers: read_flags(src, offset + 73),
            allowed_destinations: read_flags(src, offset + 77),
            policy_update_locked: locked,
        },
    )
}

/// Whether every flag that is on belongs to a slot that holds an item.
fn flags_are_live<A: Copy + PartialEq, const SIZE: usize, const STORAGE_SIZE: usize>(
    flags: &OptArrayFlags<A, STORAGE_SIZE>,
    registry: &OptArray<A, SIZE>,
) -> (r: bool)
    requires
        registry.wf(),
        8 * STORAGE_SIZE <= usize::MAX,
    ensures
        r == flags_within(flags@, registry@),
{
    proof {
        flags.lemma_view_is_bits();
        registry.lemma_free_and_live_fill_capacity();
        lemma_true_positions(flags@);
    }
    let on = flags.iter_enabled();
    let mut k: usize = 0;
    while k < on.len()
        invariant
            k <= on.len(),
            registry.wf(),
            registry@.len() == SIZE,
            flags@.len() <= usize::MAX,
            ref_ids(on@) == true_positions(flags@),
            forall|i: int|
                0 <= i < k ==> (#[trigger] ref_ids(on@)[i]) < SIZE && registry@[ref_ids(
                    on@,
                )[i] as int] is Some,
        decreases on.len() - k,
    {
        let id = on[k].id();
        proof {
            lemma_true_positions(flags@);
            assert(id == ref_ids(on@)[k as int]);
            assert(id == true_positions(flags@)[k as int]);
            assert(flags@[id as int]);
        }
        if id >= SIZE {
            return false;
        }
        if registry.slot(id).is_none() {
            return false;
        }
        k += 1;
    }
    proof {
        lemma_true_positions(flags@);
        assert forall|i: int| 0 <= i < flags@.len() && #[trigger] flags@[i] implies i < registry@.len()
            && registry@[i] is Some by {
            assert(true_positions(flags@).contains(i as usize));
            let p = choose|p: int|
                0 <= p < true_positions(flags@).len() && true_positions(flags@)[p] == i as usize;
            assert(ref_ids(on@)[p] == i as usize);
        }
    }
    true
}

impl ProgramConfig {
    /// Whether the configuration is in order: every flag that is on, here
    /// and in each wallet, belongs to a slot that holds an item, no
    /// threshold, of policy changes or of a wallet, exceeds the approvers it
    /// is held against, and the wallets are no more than `MAX_WALLETS`.
    pub fn validate(&self) -> (r: bool)
        requires
            self.signers.wf(),
            self.address_book.wf(),
        ensures
            r == self.wf(),
    {
        proof {
            self.signers.lemma_free_and_live_fill_capacity();
            self.address_book.lemma_free_and_live_fill_capacity();
            self.config_approvers.lemma_view_is_bits();
        }
        if self.wallets.len() > MAX_WALLETS {
            return false;
        }
        if self.approvals_required_for_config as usize > self.config_approvers.count_enabled() {
            return false;
        }
        if !flags_are_live(&self.config_approvers, &self.signers) {
            return false;
        }
        let mut k: usize = 0;
        while k < self.wallets.len()
            invariant
                k <= self.wallets.len(),
                self.signers.wf(),
                self.address_book.wf(),
                forall|i: int|
                    0 <= i < k ==> wallet_within(
                        #[trigger] self@.wallets[i],
                        self@.signers,
                        self@.address_book,
                    ),
            decreases self.wallets.len() - k,
        {
            proof {
                self.wallets@[k as int].transfer_approvers.lemma_view_is_bits();
                self.wallets@[k as int].allowed_destinations.lemma_view_is_bits();
            }
            if !flags_are_live(&self.wallets[k].transfer_approvers, &self.signers)
                || !flags_are_live(&self.wallets[k].allowed_destinations, &self.address_book)
                || self.wallets[k].approvals_required_for_transfer as usize
                > self.wallets[k].transfer_approvers.count_enabled() {
                assert(!wallet_within(self@.wallets[k as int], self@.signers, self@.address_book));
                return false;
            }
            k += 1;
        }
        true
    }
}

/// Bytes stand for one configuration at most.
pub proof fn lemma_represents_one(a: ProgramConfig, b: ProgramConfig, bytes: Seq<u8>)
    requires
        represents(a, bytes),
        represents(b, bytes),
    ensures
        same_config(a, b),
{
    vstd::bytes::lemma_auto_spec_u64_to_from_le_bytes();
    vstd::bytes::lemma_auto_spec_u32_to_from_le_bytes();
    a.config_approvers.lemma_view_is_bits();
    b.config_approvers.lemma_view_is_bits();
    assert forall|k: int| 0 <= k < MAX_SIGNERS implies a.signers@[k] == b.signers@[k] by {
        lemma_signer_slot_one(a.signers@[k], b.signers@[k], bytes, SIGNERS_OFFSET + 32 * k);
    }
    assert(a.signers@ =~= b.signers@);
    assert forall|k: int| 0 <= k < MAX_ADDRESS_BOOK_ENTRIES implies a.address_book@[k]
        == b.address_book@[k] by {
        lemma_entry_slot_one(
            a.address_book@[k],
            b.address_book@[k],
            bytes,
            ADDRESS_BOOK_OFFSET + 64 * k,
        );
    }
    assert(a.address_book@ =~= b.address_book@);
    assert(a.assistant.key.bytes =~= b.assistant.key.bytes);
    assert(a.is_initialized == b.is_initialized);
    assert(spec_u32_to_le_bytes(a.version) == spec_u32_to_le_bytes(b.version));
    assert(spec_u32_to_le_bytes(a.version).len() == 4);
    assert(spec_u32_to_le_bytes(b.version).len() == 4);
    assert(a.version == b.version);
    assert(a.config_policy_update_locked == b.config_policy_update_locked);
    assert(a.wallets@.len() == b.wallets@.len());
    assert forall|k: int| 0 <= k < a.wallets@.len() implies (#[trigger] a.wallets@[k])@
        == b.wallets@[k]@ && a.wallets@[k].transfer_approvers.bytes()
        == b.wallets@[k].transfer_approvers.bytes() && a.wallets@[k].allowed_destinations.bytes()
        == b.wallets@[k].allowed_destinations.bytes() by {
        let x = a.wallets@[k];
        let y = b.wallets@[k];
        assert(wallet_at(x, bytes, WALLETS_OFFSET + 91 * k));
        assert(wallet_at(y, bytes, WALLETS_OFFSET + 91 * k));
        x.transfer_approvers.lemma_view_is_bits();
        y.transfer_approvers.lemma_view_is_bits();
        x.allowed_destinations.lemma_view_is_bits();
        y.allowed_destinations.lemma_view_is_bits();
        assert(x.wallet_guid_hash =~= y.wallet_guid_hash);
        assert(x.wallet_name_hash =~= y.wallet_name_hash);
        assert(x.policy_update_locked == y.policy_update_locked);
    }
    assert(a@.wallets =~= b@.wallets);
}

/// One configuration is written in one way: the bytes written for it are
/// determined, byte for byte.
pub proof fn lemma_written_bytes_one(config: ProgramConfig, a: Seq<u8>, b: Seq<u8>)
    requires
        written(config, a),
        written(config, b),
    ensures
        a == b,
{
    let count = config.wallets@.len() as int;
    assert forall|i: int| 0 <= i < PROGRAM_CONFIG_LEN implies a[i] == b[i] by {
        if 1 <= i < 5 {
            assert(a.subrange(1, 5)[i - 1] == a[i]);
            assert(b.subrange(1, 5)[i - 1] == b[i]);
        } else if 5 <= i < 805 {
            let k = (i - 5) / 32;
            let offset = SIGNERS_OFFSET + 32 * k;
            assert(signer_slot_at(config.signers@[k], a, offset));
            assert(signer_slot_at(config.signers@[k], b, offset));
            if config.signers@[k] is Some {
                assert(a.subrange(offset, offset + 32)[i - offset] == a[i]);
                assert(b.subrange(offset, offset + 32)[i - offset] == b[i]);
            }
        } else if 805 <= i < 837 {
            assert(a.subrange(805, 837)[i - 805] == a[i]);
            assert(b.subrange(805, 837)[i - 805] == b[i]);
        } else if 837 <= i < 7237 {
            let k = (i - 837) / 64;
            let j = (i - 837) % 64;
            let offset = ADDRESS_BOOK_OFFSET + 64 * k;
            assert(entry_slot_at(config.address_book@[k], a, offset));
            assert(entry_slot_at(config.address_book@[k], b, offset));
            if config.address_book@[k] is Some {
                if j < 32 {
                    assert(a.subrange(offset, offset + 32)[j] == a[i]);
                    assert(b.subrange(offset, offset + 32)[j] == b[i]);
                } else {
                    assert(a.subrange(offset + 32, offset + 64)[j - 32] == a[i]);
                    assert(b.subrange(offset + 32, offset + 64)[j - 32] == b[i]);
                }
            }
        } else if 7238 <= i < 7246 {
            assert(a.subrange(7238, 7246)[i - 7238] == a[i]);
            assert(b.subrange(7238, 7246)[i - 7238] == b[i]);
        } else if 7246 <= i < 7250 {
            assert(a.subrange(7246, 7250)[i - 7246] == a[i]);
            assert(b.subrange(7246, 7250)[i - 7246] == b[i]);
        } else if 7252 <= i {
            let k = (i - 7252) / 91;
            let j = (i - 7252) % 91;
            if k < count {
                let offset = WALLETS_OFFSET + 91 * k;
                assert(wallet_at(config.wallets@[k], a, offset));
                assert(wallet_at(config.wallets@[k], b, offset));
                if j < 32 {
                    assert(a.subrange(offset, offset + 32)[j] == a[i]);
                    assert(b.subrange(offset, offset + 32)[j] == b[i]);
                } else if j < 64 {
                    assert(a.subrange(offset + 32, offset + 64)[j - 32] == a[i]);
                    assert(b.subrange(offset + 32, offset + 64)[j - 32] == b[i]);
                } else if 65 <= j < 73 {
                    assert(a.subrange(offset + 65, offset + 73)[j - 65] == a[i]);
                    assert(b.subrange(offset + 65, offset + 73)[j - 65] == b[i]);
                } else if 73 <= j < 77 {
                    assert(a.subrange(offset + 73, offset + 77)[j - 73] == a[i]);
                    assert(b.subrange(offset + 73, offset + 77)[j - 73] == b[i]);
                } else if 77 <= j < 90 {
                    assert(a.subrange(offset + 77, offset + 90)[j - 77] == a[i]);
                    assert(b.subrange(offset + 77, offset + 90)[j - 77] == b[i]);
                }
            }
        }
    }
    assert(a =~= b);
}

/// Bytes stand for one signer slot at most.
proof fn lemma_signer_slot_one(a: Option<Signer>, b: Option<Signer>, bytes: Seq<u8>, offset: int)
    requires
        0 <= offset,
        offset + 32 <= bytes.len(),
        signer_slot_at(a, bytes, offset),
        signer_slot_at(b, bytes, offset),
        signer_slot_tells(a),
        signer_slot_tells(b),
    ensures
        a == b,
{
    if a is Some {
        let j = choose|j: int| 0 <= j < 32 && #[trigger] signer_byte_set(a->Some_0, j);
        assert(bytes.subrange(offset, offset + 32)[j] == bytes[offset + j]);
        if b is Some {
            assert(a->Some_0.key.bytes =~= b->Some_0.key.bytes);
        }
    } else if b is Some {
        let j = choose|j: int| 0 <= j < 32 && #[trigger] signer_byte_set(b->Some_0, j);
        assert(bytes.subrange(offset, offset + 32)[j] == bytes[offset + j]);
    }
}

/// Bytes stand for one address book slot at most.
proof fn lemma_entry_slot_one(
    a: Option<AddressBookEntry>,
    b: Option<AddressBookEntry>,
    bytes: Seq<u8>,
    offset: int,
)
    requires
        0 <= offset,
        offset + 64 <= bytes.len(),
        entry_slot_at(a, bytes, offset),
        entry_slot_at(b, bytes, offset),
        entry_slot_tells(a),
        entry_slot_tells(b),
    ensures
        a == b,
{
    if a is Some {
        let j = choose|j: int| 0 <= j < 32 && #[trigger] entry_byte_set(a->Some_0, j);
        assert(bytes.subrange(offset, offset + 32)[j] == bytes[offset + j]);
        assert(bytes.subrange(offset + 32, offset + 64)[j] == bytes[offset + 32 + j]);
        if b is Some {
            assert(a->Some_0.address.bytes =~= b->Some_0.address.bytes);
            assert(a->Some_0.name_hash =~= b->Some_0.name_hash);
        }
    } else if b is Some {
        let j = choose|j: int| 0 <= j < 32 && #[trigger] entry_byte_set(b->Some_0, j);
        assert(bytes.subrange(offset, offset + 32)[j] == bytes[offset + j]);
        assert(bytes.subrange(offset + 32, offset + 64)[j] == bytes[offset + 32 + j]);
    }
}

/// The wallet policies that the bytes from `WALLETS_OFFSET` on stand for,
/// if they stand for `count` of them.
fn read_wallets(src: &[u8], count: usize) -> (r: Option<Vec<WalletConfig>>)
    requires
        src@.len() == PROGRAM_CONFIG_LEN,
        count <= MAX_WALLETS,
    ensures
        match r {
            Some(wallets) => {
                &&& wallets@.len() == count
                &&& forall|k: int|
                    0 <= k < count ==> wallet_at(
                        #[trigger] wallets@[k],
                        src@,
                        WALLETS_OFFSET + 91 * k,
                    )
            },
            None => exists|k: int|
                0 <= k < count && #[trigger] src@[WALLETS_OFFSET + 91 * k + 90] != 0 && src@[WALLETS_OFFSET
                    + 91 * k + 90] != 1,
        },
{
    let mut wallets: Vec<WalletConfig> = Vec::new();
    let mut k: usize = 0;
    while k < count
        invariant
            k <= count,
            count <= MAX_WALLETS,
            src@.len() == PROGRAM_CONFIG_LEN,
            wallets@.len() == k,
            forall|i: int|
                0 <= i < k ==> wallet_at(#[trigger] wallets@[i], src@, WALLETS_OFFSET + 91 * i),
        decreases count - k,
    {
        match read_wallet(src, WALLETS_OFFSET + 91 * k) {
            Some(wallet) => {
                wallets.push(wallet);
            },
            None => {
                assert(src@[WALLETS_OFFSET + 91 * k + 90] != 0);
                return None;
            },
        }
        k += 1;
    }
    Some(wallets)
}

impl ProgramConfig {
    /// Writes the bytes that store the configuration over `dst`, which must
    /// have the length of the record.
    pub fn pack_into_slice(&self, dst: &mut [u8])
        requires
            self.wf(),
            old(dst)@.len() == PROGRAM_CONFIG_LEN,
        ensures
            written(*self, final(dst)@),
    {
        let bytes = self.pack();
        write_over(dst, &bytes);
    }

    /// The configuration that the bytes stand for. Refused where the bytes
    /// stand for no configuration that is in order: their number is not
    /// `PROGRAM_CONFIG_LEN`, a truth value is neither 0 nor 1, the wallets
    /// are more than `MAX_WALLETS`, the room of the wallets that are not
    /// there is not zero, or the configuration read is not in order.
    pub fn unpack_from_slice(src: &[u8]) -> (r: Result<ProgramConfig, WalletError>)
        ensures
            match r {
                Ok(config) => represents(config, src@) && config.wf(),
                Err(e) => e == WalletError::InvalidAccountData && forall|config: ProgramConfig|
                    !(#[trigger] represents(config, src@) && config.wf()),
            },
    {
        if src.len() != PROGRAM_CONFIG_LEN {
            return Err(WalletError::InvalidAccountData);
        }
        let is_initialized = match bool_of(src[0]) {
            Some(b) => b,
            None => {
                return Err(WalletError::InvalidAccountData);
            },
        };
        let config_policy_update_locked = match bool_of(src[LOCK_OFFSET]) {
            Some(b) => b,
            None => {
                return Err(WalletError::InvalidAccountData);
            },
        };
        let count = src[WALLET_COUNT_OFFSET] as usize;
        if count > MAX_WALLETS {
            return Err(WalletError::InvalidAccountData);
        }
        if !all_zero(src, WALLETS_OFFSET + 91 * count, 91 * (MAX_WALLETS - count)) {
            return Err(WalletError::InvalidAccountData);
        }
        let wallets = match read_wallets(src, count) {
            Some(wallets) => wallets,
            None => {
                proof {
                    let k = choose|k: int|
                        0 <= k < count && #[trigger] src@[WALLETS_OFFSET + 91 * k + 90] != 0
                            && src@[WALLETS_OFFSET + 91 * k + 90] != 1;
                    assert forall|config: ProgramConfig|
                        !(#[trigger] represents(config, src@) && config.wf()) by {
                        if represents(config, src@) {
                            assert(wallet_at(config.wallets@[k], src@, WALLETS_OFFSET + 91 * k));
                        }
                    }
                }
                return Err(WalletError::InvalidAccountData);
            },
        };
        let timeout = u64_from_le_bytes(slice_subrange(src, TIMEOUT_OFFSET, APPROVERS_OFFSET));
        proof {
            vstd::bytes::lemma_auto_spec_u64_to_from_le_bytes();
            assert(spec_u64_to_le_bytes(timeout) == src@.subrange(
                TIMEOUT_OFFSET as int,
                APPROVERS_OFFSET as int,
            ));
        }
        let version = u32_from_le_bytes(slice_subrange(src, VERSION_OFFSET, SIGNERS_OFFSET));
        proof {
            vstd::bytes::lemma_auto_spec_u32_to_from_le_bytes();
            assert(spec_u32_to_le_bytes(version) == src@.subrange(
                VERSION_OFFSET as int,
                SIGNERS_OFFSET as int,
            ));
        }
        let config = ProgramConfig {
            is_initialized,
            version,
            signers: read_signers(src),
            assistant: Signer { key: Pubkey { bytes: read32(src, ASSISTANT_OFFSET) } },
            address_book: read_address_book(src),
            approvals_required_for_config: src[APPROVALS_OFFSET],
            approval_timeout_for_config: timeout,
            config_approvers: read_flags(src, APPROVERS_OFFSET),
            config_policy_update_locked,
            wallets,
        };
        assert(represents(config, src@));
        if !config.validate() {
            proof {
                assert forall|other: ProgramConfig|
                    !(#[trigger] represents(other, src@) && other.wf()) by {
                    if represents(other, src@) {
                        lemma_represents_one(other, config, src@);
                    }
                }
            }
            return Err(WalletError::InvalidAccountData);
        }
        Ok(config)
    }
}

/// What was packed is unpacked again: the bytes written for a configuration
/// that is in order, and whose items are told from empty slots, stand for
/// that configuration and for no other.
pub proof fn lemma_pack_then_unpack(config: ProgramConfig, bytes: Seq<u8>, other: ProgramConfig)
    requires
        config.wf(),
        packable(config),
        written(config, bytes),
        represents(other, bytes),
    ensures
        represents(config, bytes),
        same_config(other, config),
{
    lemma_represents_one(other, config, bytes);
}

impl Versioned for ProgramConfig {
    /// The version stands in the four bytes after the first, least
    /// significant byte first.
    open spec fn stored_version(src: Seq<u8>) -> Option<u32> {
        if src.len() >= SIGNERS_OFFSET {
            Some(spec_u32_from_le_bytes(src.subrange(VERSION_OFFSET as int, SIGNERS_OFFSET as int)))
        } else {
            None
        }
    }

    fn version_from_slice(src: &[u8]) -> (r: Result<u32, WalletError>) {
        if src.len() < SIGNERS_OFFSET {
            return Err(WalletError::InvalidAccountData);
        }
        Ok(u32_from_le_bytes(slice_subrange(src, VERSION_OFFSET, SIGNERS_OFFSET)))
    }
}

} // verus!
