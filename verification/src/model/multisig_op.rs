use vstd::prelude::*;
use vstd::bytes::spec_u64_to_le_bytes;
use crate::account::AccountInfo;
use crate::error::WalletError;
use crate::hash::{hash_of, sha256};
use crate::instruction::{AddressBookUpdate, ProgramConfigUpdate, WalletConfigUpdate};
use crate::pack::{
    all_zero, bool_byte, bool_of, byte_of, counted_entries_bytes, counted_signers_bytes,
    i64_bytes, lemma_embedded, lemma_embedded_zeros, lemma_i64_bytes_one, push_bytes32,
    push_entries, push_i64, push_signers, push_slice, push_u64, push_zeros, read32, read_i64,
    write_over, zeros_at,
};
use crate::pubkey::{bytes32_eq, Pubkey};

verus! {

/// The most approvers an operation can have.
pub const MAX_APPROVERS: usize = 25;

/// One approver's vote.
#[derive(Debug, Clone, Copy, PartialEq, Eq, Structural)]
pub enum ApprovalDisposition {
    NONE,
    APPROVE,
    DENY,
}

/// The outcome of an operation.
#[derive(Debug, Clone, Copy, PartialEq, Eq, Structural)]
pub enum OperationDisposition {
    NONE,
    APPROVED,
    DENIED,
    EXPIRED,
}

/// An approver and the vote recorded for it.
#[derive(Debug, Clone, Copy, PartialEq, Eq)]
pub struct ApprovalDispositionRecord {
    pub approver: Pubkey,
    pub disposition: ApprovalDisposition,
}

/// What an operation is to do.
#[derive(Debug, Clone)]
pub enum MultisigOpParams {
    /// Change the program-wide policy.
    UpdateProgramConfig { program_config_address: Pubkey, config_update: ProgramConfigUpdate },
    /// Add a wallet with the given policy.
    CreateWallet {
        program_config_address: Pubkey,
        wallet_guid_hash: [u8; 32],
        config_update: WalletConfigUpdate,
    },
    /// Change a wallet's policy.
    UpdateWalletConfig {
        program_config_address: Pubkey,
        wallet_guid_hash: [u8; 32],
        config_update: WalletConfigUpdate,
    },
    /// Send an amount of a token from a wallet to a destination.
    Transfer {
        program_config_address: Pubkey,
        wallet_guid_hash: [u8; 32],
        destination: Pubkey,
        amount: u64,
        token_mint: Pubkey,
    },
    /// Change the address book.
    AddressBookUpdate { program_config_address: Pubkey, update: AddressBookUpdate },
}

/// The bytes that stand for a change of the program-wide policy.
pub open spec fn program_config_update_bytes(update: ProgramConfigUpdate) -> Seq<u8> {
    seq![update.approvals_required_for_config] + spec_u64_to_le_bytes(
        update.approval_timeout_for_config,
    ) + counted_signers_bytes(update.add_signers@) + counted_signers_bytes(update.remove_signers@)
        + counted_signers_bytes(update.add_config_approvers@) + counted_signers_bytes(
        update.remove_config_approvers@,
    ) + counted_entries_bytes(update.add_address_book_entries@) + counted_entries_bytes(
        update.remove_address_book_entries@,
    )
}

/// The bytes that stand for a change of a wallet's policy.
pub open spec fn wallet_config_update_bytes(update: WalletConfigUpdate) -> Seq<u8> {
    update.name_hash@ + seq![update.approvals_required_for_transfer] + spec_u64_to_le_bytes(
        update.approval_timeout_for_transfer,
    ) + counted_signers_bytes(update.add_transfer_approvers@) + counted_signers_bytes(
        update.remove_transfer_approvers@,
    ) + counted_entries_bytes(update.add_allowed_destinations@) + counted_entries_bytes(
        update.remove_allowed_destinations@,
    )
}

/// The bytes that stand for the parameters: a byte that tells the kind of
/// operation, then its fields in the order in which they are declared.
pub open spec fn params_bytes(params: MultisigOpParams) -> Seq<u8> {
    match params {
        MultisigOpParams::UpdateProgramConfig { program_config_address, config_update } => seq![1u8]
            + program_config_address.bytes@ + program_config_update_bytes(config_update),
        MultisigOpParams::CreateWallet { program_config_address, wallet_guid_hash, config_update } => seq![
            2u8,
        ] + program_config_address.bytes@ + wallet_guid_hash@ + wallet_config_update_bytes(
            config_update,
        ),
        MultisigOpParams::UpdateWalletConfig {
            program_config_address,
            wallet_guid_hash,
            config_update,
        } => seq![3u8] + program_config_address.bytes@ + wallet_guid_hash@
            + wallet_config_update_bytes(config_update),
        MultisigOpParams::Transfer {
            program_config_address,
            wallet_guid_hash,
            destination,
            amount,
            token_mint,
        } => seq![4u8] + program_config_address.bytes@ + wallet_guid_hash@ + destination.bytes@
            + spec_u64_to_le_bytes(amount) + token_mint.bytes@,
        MultisigOpParams::AddressBookUpdate { program_config_address, update } => seq![5u8]
            + program_config_address.bytes@ + counted_entries_bytes(
            update.add_address_book_entries@,
        ) + counted_entries_bytes(update.remove_address_book_entries@),
    }
}

/// The fingerprint of the parameters: the digest of the bytes that stand for
/// them.
pub open spec fn params_fingerprint(params: MultisigOpParams) -> Seq<u8> {
    sha256(params_bytes(params))
}

/// Appends the bytes that stand for a change of the program-wide policy.
pub fn push_program_config_update(out: &mut Vec<u8>, update: &ProgramConfigUpdate)
    ensures
        final(out)@ == old(out)@ + program_config_update_bytes(*update),
{
    out.push(update.approvals_required_for_config);
    push_u64(out, update.approval_timeout_for_config);
    push_signers(out, &update.add_signers);
    push_signers(out, &update.remove_signers);
    push_signers(out, &update.add_config_approvers);
    push_signers(out, &update.remove_config_approvers);
    push_entries(out, &update.add_address_book_entries);
    push_entries(out, &update.remove_address_book_entries);
    assert(out@ =~= old(out)@ + program_config_update_bytes(*update));
}

/// Appends the bytes that stand for a change of a wallet's policy.
pub fn push_wallet_config_update(out: &mut Vec<u8>, update: &WalletConfigUpdate)
    ensures
        final(out)@ == old(out)@ + wallet_config_update_bytes(*update),
{
    push_bytes32(out, &update.name_hash);
    out.push(update.approvals_required_for_transfer);
    push_u64(out, update.approval_timeout_for_transfer);
    push_signers(out, &update.add_transfer_approvers);
    push_signers(out, &update.remove_transfer_approvers);
    push_entries(out, &update.add_allowed_destinations);
    push_entries(out, &update.remove_allowed_destinations);
    assert(out@ =~= old(out)@ + wallet_config_update_bytes(*update));
}

impl MultisigOpParams {
    /// The bytes that stand for the parameters.
    pub fn to_bytes(&self) -> (r: Vec<u8>)
        ensures
            r@ == params_bytes(*self),
    {
        let mut out: Vec<u8> = Vec::new();
        match self {
            MultisigOpParams::UpdateProgramConfig { program_config_address, config_update } => {
                out.push(1u8);
                push_bytes32(&mut out, &program_config_address.bytes);
                push_program_config_update(&mut out, config_update);
            },
            MultisigOpParams::CreateWallet {
                program_config_address,
                wallet_guid_hash,
                config_update,
            } => {
                out.push(2u8);
                push_bytes32(&mut out, &program_config_address.bytes);
                push_bytes32(&mut out, wallet_guid_hash);
                push_wallet_config_update(&mut out, config_update);
            },
            MultisigOpParams::UpdateWalletConfig {
                program_config_address,
                wallet_guid_hash,
                config_update,
            } => {
                out.push(3u8);
                push_bytes32(&mut out, &program_config_address.bytes);
                push_bytes32(&mut out, wallet_guid_hash);
                push_wallet_config_update(&mut out, config_update);
            },
            MultisigOpParams::Transfer {
                program_config_address,
                wallet_guid_hash,
                destination,
                amount,
                token_mint,
            } => {
                out.push(4u8);
                push_bytes32(&mut out, &program_config_address.bytes);
                push_bytes32(&mut out, wallet_guid_hash);
                push_bytes32(&mut out, &destination.bytes);
                push_u64(&mut out, *amount);
                push_bytes32(&mut out, &token_mint.bytes);
            },
            MultisigOpParams::AddressBookUpdate { program_config_address, update } => {
                out.push(5u8);
                push_bytes32(&mut out, &program_config_address.bytes);
                push_entries(&mut out, &update.add_address_book_entries);
                push_entries(&mut out, &update.remove_address_book_entries);
            },
        }
        assert(out@ =~= params_bytes(*self));
        out
    }

    /// The fingerprint of the parameters.
    pub fn hash(&self) -> (r: [u8; 32])
        ensures
            r@ == params_fingerprint(*self),
    {
        let bytes = self.to_bytes();
        hash_of(&bytes)
    }
}


/// How many of the records hold the given vote.
pub open spec fn tally(records: Seq<ApprovalDispositionRecord>, vote: ApprovalDisposition) -> nat
    decreases records.len(),
{
    if records.len() == 0 {
        0
    } else {
        tally(records.drop_last(), vote) + if records.last().disposition == vote {
            1nat
        } else {
            0nat
        }
    }
}

/// What the votes decide: approved once the approvals reach the required
/// number, denied once the denials leave fewer approvers than that, and
/// nothing before.
pub open spec fn outcome(
    records: Seq<ApprovalDispositionRecord>,
    required: u8,
) -> OperationDisposition {
    if tally(records, ApprovalDisposition::APPROVE) >= required {
        OperationDisposition::APPROVED
    } else if tally(records, ApprovalDisposition::DENY) > records.len() - required {
        OperationDisposition::DENIED
    } else {
        OperationDisposition::NONE
    }
}

/// Whether `i` is the first record of the approver `key`.
pub open spec fn is_first_record(
    records: Seq<ApprovalDispositionRecord>,
    key: Pubkey,
    i: int,
) -> bool {
    &&& 0 <= i < records.len()
    &&& records[i].approver == key
    &&& forall|j: int| 0 <= j < i ==> (#[trigger] records[j]).approver != key
}

/// Whether `key` is one of the approvers.
pub open spec fn has_approver(records: Seq<ApprovalDispositionRecord>, key: Pubkey) -> bool {
    exists|i: int| 0 <= i < records.len() && (#[trigger] records[i]).approver == key
}

/// The index of the first record of the approver `key`.
pub open spec fn first_record(records: Seq<ApprovalDispositionRecord>, key: Pubkey) -> int {
    choose|i: int| is_first_record(records, key, i)
}

/// The first record of an approver is the only one that is first.
pub proof fn lemma_first_record_unique(
    records: Seq<ApprovalDispositionRecord>,
    key: Pubkey,
    i: int,
)
    requires
        is_first_record(records, key, i),
    ensures
        first_record(records, key) == i,
        has_approver(records, key),
{
    let c = first_record(records, key);
    assert(is_first_record(records, key, c));
    if c < i {
        assert(records[c].approver != key);
    } else if i < c {
        assert(records[i].approver != key);
    }
}

/// One record with no vote for each approver, in the order of the approvers.
pub open spec fn blank_records(approvers: Seq<Pubkey>) -> Seq<ApprovalDispositionRecord> {
    Seq::new(
        approvers.len(),
        |i: int|
            ApprovalDispositionRecord {
                approver: approvers[i],
                disposition: ApprovalDisposition::NONE,
            },
    )
}

/// There are no more votes of a kind than records.
pub proof fn lemma_tally_bound(records: Seq<ApprovalDispositionRecord>, vote: ApprovalDisposition)
    ensures
        tally(records, vote) <= records.len(),
    decreases records.len(),
{
    if records.len() > 0 {
        lemma_tally_bound(records.drop_last(), vote);
    }
}

/// Approvals and denials together are no more than the records.
pub proof fn lemma_tally_disjoint(records: Seq<ApprovalDispositionRecord>)
    ensures
        tally(records, ApprovalDisposition::APPROVE) + tally(records, ApprovalDisposition::DENY)
            <= records.len(),
    decreases records.len(),
{
    if records.len() > 0 {
        lemma_tally_disjoint(records.drop_last());
    }
}

/// The same votes never both approve and deny: where the approvals reach the
/// required number, the denials do not leave fewer approvers than that.
pub proof fn lemma_votes_decide_once(records: Seq<ApprovalDispositionRecord>, required: u8)
    ensures
        !(tally(records, ApprovalDisposition::APPROVE) >= required && tally(
            records,
            ApprovalDisposition::DENY,
        ) > records.len() - required),
{
    lemma_tally_disjoint(records);
}

/// Records without a vote hold no approval and no denial.
pub proof fn lemma_blank_records_undecided(approvers: Seq<Pubkey>, vote: ApprovalDisposition)
    requires
        vote != ApprovalDisposition::NONE,
    ensures
        tally(blank_records(approvers), vote) == 0,
    decreases approvers.len(),
{
    if approvers.len() > 0 {
        assert(blank_records(approvers).drop_last() =~= blank_records(approvers.drop_last()));
        lemma_blank_records_undecided(approvers.drop_last(), vote);
    }
}

/// A proposal starts undecided: before anyone has voted, the votes decide
/// nothing.
pub proof fn lemma_proposal_is_undecided(approvers: Seq<Pubkey>, required: u8)
    requires
        1 <= required <= approvers.len(),
    ensures
        outcome(blank_records(approvers), required) == OperationDisposition::NONE,
{
    lemma_blank_records_undecided(approvers, ApprovalDisposition::APPROVE);
    lemma_blank_records_undecided(approvers, ApprovalDisposition::DENY);
}

/// A proposed action and the votes on it.
#[derive(Debug)]
pub struct MultisigOp {
    is_initialized: bool,
    disposition_records: Vec<ApprovalDispositionRecord>,
    dispositions_required: u8,
    params_hash: Option<[u8; 32]>,
    started_at: i64,
    expires_at: i64,
    operation_disposition: OperationDisposition,
    initiator: Pubkey,
    rent_return: Pubkey,
}

/// What an operation's record says.
pub struct MultisigOpView {
    pub is_initialized: bool,
    pub disposition_records: Seq<ApprovalDispositionRecord>,
    pub dispositions_required: u8,
    pub params_hash: Option<[u8; 32]>,
    pub started_at: i64,
    pub expires_at: i64,
    pub operation_disposition: OperationDisposition,
    pub initiator: Pubkey,
    pub rent_return: Pubkey,
}

impl View for MultisigOp {
    type V = MultisigOpView;

    closed spec fn view(&self) -> MultisigOpView {
        MultisigOpView {
            is_initialized: self.is_initialized,
            disposition_records: self.disposition_records@,
            dispositions_required: self.dispositions_required,
            params_hash: self.params_hash,
            started_at: self.started_at,
            expires_at: self.expires_at,
            operation_disposition: self.operation_disposition,
            initiator: self.initiator,
            rent_return: self.rent_return,
        }
    }
}

impl MultisigOpView {
    /// A record that was never used, or whose storage was reclaimed: every
    /// field is zero.
    pub open spec fn is_blank(self) -> bool {
        &&& !self.is_initialized
        &&& self.disposition_records.len() == 0
        &&& self.dispositions_required == 0
        &&& self.params_hash is None
        &&& self.started_at == 0
        &&& self.expires_at == 0
        &&& self.operation_disposition == OperationDisposition::NONE
        &&& self.initiator.bytes@ == Seq::new(32, |i: int| 0u8)
        &&& self.rent_return.bytes@ == Seq::new(32, |i: int| 0u8)
    }

    /// A record in use has at most `MAX_APPROVERS` approvers, requires at
    /// least one and at most all of them, does not expire before it starts,
    /// and never stores expiry as its outcome. A record not in use is blank.
    pub open spec fn wf(self) -> bool {
        if self.is_initialized {
            &&& self.disposition_records.len() <= MAX_APPROVERS
            &&& 1 <= self.dispositions_required <= self.disposition_records.len()
            &&& self.started_at <= self.expires_at
            &&& self.operation_disposition != OperationDisposition::EXPIRED
        } else {
            self.is_blank()
        }
    }

    /// The outcome as seen at the time `now`: what is stored, but for an
    /// operation that is not decided and whose time is over, which has
    /// expired.
    pub open spec fn disposition_at(self, now: i64) -> OperationDisposition {
        if self.operation_disposition == OperationDisposition::NONE && now > self.expires_at {
            OperationDisposition::EXPIRED
        } else {
            self.operation_disposition
        }
    }

    /// Why a vote is refused, if it is: the record is not in use, the voter
    /// did not sign, the fingerprint presented is not the operation's, or
    /// the voter is none of the approvers.
    pub open spec fn vote_error(self, approver: AccountInfo, params_hash: [u8; 32]) -> Option<
        WalletError,
    > {
        if !self.is_initialized {
            Some(WalletError::OperationNotInitialized)
        } else if !approver.is_signer {
            Some(WalletError::InvalidSignature)
        } else if self.params_hash != Some(params_hash) {
            Some(WalletError::InvalidSignature)
        } else if !has_approver(self.disposition_records, approver.key) {
            Some(WalletError::InvalidApprover)
        } else {
            None
        }
    }

    /// The records after the approver `key` voted: its first record holds
    /// the vote, the others are as they were.
    pub open spec fn records_with_vote(self, key: Pubkey, vote: ApprovalDisposition) -> Seq<
        ApprovalDispositionRecord,
    > {
        self.disposition_records.update(
            first_record(self.disposition_records, key),
            ApprovalDispositionRecord { approver: key, disposition: vote },
        )
    }

    /// The stored outcome after a vote at the time `now`: an outcome that is
    /// decided stays; an undecided operation whose time is over stays
    /// undecided; otherwise the votes decide.
    pub open spec fn outcome_after_vote(
        self,
        key: Pubkey,
        vote: ApprovalDisposition,
        now: i64,
    ) -> OperationDisposition {
        if self.operation_disposition != OperationDisposition::NONE {
            self.operation_disposition
        } else if now > self.expires_at {
            OperationDisposition::NONE
        } else {
            outcome(self.records_with_vote(key, vote), self.dispositions_required)
        }
    }

    /// The record after an accepted vote.
    pub open spec fn with_vote(self, key: Pubkey, vote: ApprovalDisposition, now: i64) -> MultisigOpView {
        MultisigOpView {
            disposition_records: self.records_with_vote(key, vote),
            operation_disposition: self.outcome_after_vote(key, vote, now),
            ..self
        }
    }

    /// What the check before finalizing answers at the time `now`, given
    /// whether the fingerprint presented is the operation's: an error where
    /// the record is not in use or the fingerprint is another; `true` for an
    /// approved operation; `false` for a denied or expired one; and an error
    /// of its own while the operation is undecided and its time is not over.
    pub open spec fn approval_with(self, fingerprint_matches: bool, now: i64) -> Result<
        bool,
        WalletError,
    > {
        if !self.is_initialized {
            Err(WalletError::OperationNotInitialized)
        } else if !fingerprint_matches {
            Err(WalletError::InvalidSignature)
        } else {
            match self.disposition_at(now) {
                OperationDisposition::APPROVED => Ok(true),
                OperationDisposition::DENIED => Ok(false),
                OperationDisposition::EXPIRED => Ok(false),
                OperationDisposition::NONE => Err(WalletError::TransferDispositionNotFinal),
            }
        }
    }

    /// What the check before finalizing answers for the fingerprint
    /// `expected`.
    pub open spec fn approval(self, expected: [u8; 32], now: i64) -> Result<bool, WalletError> {
        self.approval_with(self.params_hash == Some(expected), now)
    }

    /// Whether the stored fingerprint is that of `params`.
    pub open spec fn is_for(self, params: MultisigOpParams) -> bool {
        self.params_hash is Some && self.params_hash->Some_0@ == params_fingerprint(params)
    }

    /// What the check before finalizing answers for the parameters
    /// `expected`.
    pub open spec fn approval_of(self, expected: MultisigOpParams, now: i64) -> Result<
        bool,
        WalletError,
    > {
        self.approval_with(self.is_for(expected), now)
    }

    /// Why a proposal is refused, if it is: the record is in use already, or
    /// the approvers are too many, or the approvals required are none or
    /// more than the approvers, or the operation would expire before it
    /// starts.
    pub open spec fn init_error(
        self,
        approvers: Seq<Pubkey>,
        approvals_required: u8,
        started_at: i64,
        expires_at: i64,
    ) -> Option<WalletError> {
        if self.is_initialized {
            Some(WalletError::AccountAlreadyInitialized)
        } else if approvers.len() > MAX_APPROVERS || approvals_required == 0 || approvals_required
            > approvers.len() || expires_at < started_at {
            Some(WalletError::InvalidArgument)
        } else {
            None
        }
    }
}

/// A vote never undoes an outcome: a decided operation keeps its outcome, and
/// an undecided one stays undecided or becomes approved or denied. Expiry is
/// never stored.
pub proof fn lemma_outcome_is_monotonic(
    op: MultisigOpView,
    key: Pubkey,
    vote: ApprovalDisposition,
    now: i64,
)
    requires
        op.wf(),
        op.is_initialized,
    ensures
        op.operation_disposition != OperationDisposition::NONE ==> op.with_vote(
            key,
            vote,
            now,
        ).operation_disposition == op.operation_disposition,
        op.with_vote(key, vote, now).operation_disposition != OperationDisposition::EXPIRED,
        now > op.expires_at ==> op.with_vote(key, vote, now).operation_disposition
            != OperationDisposition::APPROVED || op.operation_disposition
            == OperationDisposition::APPROVED,
{
}

/// At any time an operation shows exactly one outcome, and time alone never
/// changes an outcome that is decided.
pub proof fn lemma_disposition_at(op: MultisigOpView, now: i64)
    requires
        op.wf(),
    ensures
        op.operation_disposition != OperationDisposition::NONE ==> op.disposition_at(now)
            == op.operation_disposition,
        op.operation_disposition == OperationDisposition::NONE ==> (op.disposition_at(now)
            == OperationDisposition::EXPIRED <==> now > op.expires_at),
        op.operation_disposition == OperationDisposition::NONE && now <= op.expires_at
            ==> op.disposition_at(now) == OperationDisposition::NONE,
{
}

/// A vote presented with a fingerprint that is not the operation's is
/// refused, whoever casts it.
pub proof fn lemma_stale_fingerprint_refused(
    op: MultisigOpView,
    approver: AccountInfo,
    params_hash: [u8; 32],
)
    requires
        op.is_initialized,
        op.params_hash != Some(params_hash),
    ensures
        op.vote_error(approver, params_hash) is Some,
        approver.is_signer ==> op.vote_error(approver, params_hash) == Some(
            WalletError::InvalidSignature,
        ),
{
}


/// Whether two votes are the same.
fn same_vote(a: ApprovalDisposition, b: ApprovalDisposition) -> (r: bool)
    ensures
        r == (a == b),
{
    match (a, b) {
        (ApprovalDisposition::NONE, ApprovalDisposition::NONE) => true,
        (ApprovalDisposition::APPROVE, ApprovalDisposition::APPROVE) => true,
        (ApprovalDisposition::DENY, ApprovalDisposition::DENY) => true,
        _ => false,
    }
}

/// How many of the records hold the given vote.
fn count_votes(records: &Vec<ApprovalDispositionRecord>, vote: ApprovalDisposition) -> (r: usize)
    ensures
        r == tally(records@, vote),
{
    let mut count: usize = 0;
    let mut i: usize = 0;
    while i < records.len()
        invariant
            i <= records.len(),
            count == tally(records@.take(i as int), vote),
            count <= i,
        decreases records.len() - i,
    {
        proof {
            assert(records@.take(i + 1).drop_last() =~= records@.take(i as int));
        }
        if same_vote(records[i].disposition, vote) {
            count += 1;
        }
        i += 1;
    }
    assert(records@.take(records@.len() as int) =~= records@);
    count
}

/// What the votes decide.
fn decide(records: &Vec<ApprovalDispositionRecord>, required: u8) -> (r: OperationDisposition)
    requires
        records@.len() <= MAX_APPROVERS,
    ensures
        r == outcome(records@, required),
{
    proof {
        lemma_tally_bound(records@, ApprovalDisposition::APPROVE);
        lemma_tally_bound(records@, ApprovalDisposition::DENY);
    }
    let approvals = count_votes(records, ApprovalDisposition::APPROVE);
    let denials = count_votes(records, ApprovalDisposition::DENY);
    if approvals >= required as usize {
        OperationDisposition::APPROVED
    } else if denials + required as usize > records.len() {
        OperationDisposition::DENIED
    } else {
        OperationDisposition::NONE
    }
}

impl MultisigOp {
    /// The record is in use and in order, or blank.
    pub open spec fn wf(&self) -> bool {
        self@.wf()
    }

    /// A record that is not in use.
    pub fn new() -> (r: Self)
        ensures
            r@.is_blank(),
            r.wf(),
    {
        let zero = Pubkey { bytes: [0;32] };
        let op = MultisigOp {
            is_initialized: false,
            disposition_records: Vec::new(),
            dispositions_required: 0,
            params_hash: None,
            started_at: 0,
            expires_at: 0,
            operation_disposition: OperationDisposition::NONE,
            initiator: zero,
            rent_return: zero,
        };
        assert(op@.initiator.bytes@ =~= Seq::new(32, |i: int| 0u8));
        op
    }

    /// Whether the record is in use.
    pub fn is_initialized(&self) -> (r: bool)
        ensures
            r == self@.is_initialized,
    {
        self.is_initialized
    }

    /// The approvers, each with the vote recorded for it.
    pub fn disposition_records(&self) -> (r: &Vec<ApprovalDispositionRecord>)
        ensures
            r@ == self@.disposition_records,
    {
        &self.disposition_records
    }

    /// The approvals that the operation takes.
    pub fn dispositions_required(&self) -> (r: u8)
        ensures
            r == self@.dispositions_required,
    {
        self.dispositions_required
    }

    /// The fingerprint of the operation's parameters, once it is known.
    pub fn params_hash(&self) -> (r: Option<[u8; 32]>)
        ensures
            r == self@.params_hash,
    {
        self.params_hash
    }

    /// When the operation was proposed.
    pub fn started_at(&self) -> (r: i64)
        ensures
            r == self@.started_at,
    {
        self.started_at
    }

    /// The last moment at which the operation can be decided.
    pub fn expires_at(&self) -> (r: i64)
        ensures
            r == self@.expires_at,
    {
        self.expires_at
    }

    /// The stored outcome.
    pub fn operation_disposition(&self) -> (r: OperationDisposition)
        ensures
            r == self@.operation_disposition,
    {
        self.operation_disposition
    }

    /// Who proposed the operation.
    pub fn initiator(&self) -> (r: Pubkey)
        ensures
            r == self@.initiator,
    {
        self.initiator
    }

    /// Who gets the record's deposit back.
    pub fn rent_return(&self) -> (r: Pubkey)
        ensures
            r == self@.rent_return,
    {
        self.rent_return
    }

    /// The outcome as seen at the time `now`.
    pub fn disposition_at(&self, now: i64) -> (r: OperationDisposition)
        ensures
            r == self@.disposition_at(now),
    {
        match self.operation_disposition {
            OperationDisposition::NONE => {
                if now > self.expires_at {
                    OperationDisposition::EXPIRED
                } else {
                    OperationDisposition::NONE
                }
            },
            OperationDisposition::APPROVED => OperationDisposition::APPROVED,
            OperationDisposition::DENIED => OperationDisposition::DENIED,
            OperationDisposition::EXPIRED => OperationDisposition::EXPIRED,
        }
    }

    /// Proposes an operation on a record that is not in use: the approvers
    /// are taken down with no vote each, and the operation is undecided. The
    /// fingerprint may be left open, to be set once.
    pub fn init_with_hash(
        &mut self,
        approvers: &Vec<Pubkey>,
        approvals_required: u8,
        started_at: i64,
        expires_at: i64,
        params_hash: Option<[u8; 32]>,
        initiator: Pubkey,
        rent_return: Pubkey,
    ) -> (r: Result<(), WalletError>)
        requires
            old(self).wf(),
        ensures
            final(self).wf(),
            match old(self)@.init_error(approvers@, approvals_required, started_at, expires_at) {
                Some(e) => r == Err::<(), WalletError>(e) && *final(self) == *old(self),
                None => r is Ok && final(self)@ == (MultisigOpView {
                    is_initialized: true,
                    disposition_records: blank_records(approvers@),
                    dispositions_required: approvals_required,
                    params_hash,
                    started_at,
                    expires_at,
                    operation_disposition: OperationDisposition::NONE,
                    initiator,
                    rent_return,
                }),
            },
    {
        if self.is_initialized {
            return Err(WalletError::AccountAlreadyInitialized);
        }
        if approvers.len() > MAX_APPROVERS || approvals_required == 0 || approvals_required as usize
            > approvers.len() || expires_at < started_at {
            return Err(WalletError::InvalidArgument);
        }
        let mut records: Vec<ApprovalDispositionRecord> = Vec::new();
        let mut i: usize = 0;
        while i < approvers.len()
            invariant
                i <= approvers.len(),
                records@ == blank_records(approvers@.take(i as int)),
            decreases approvers.len() - i,
        {
            records.push(
                ApprovalDispositionRecord {
                    approver: approvers[i],
                    disposition: ApprovalDisposition::NONE,
                },
            );
            assert(records@ =~= blank_records(approvers@.take(i + 1)));
            i += 1;
        }
        assert(approvers@.take(approvers@.len() as int) =~= approvers@);
        self.is_initialized = true;
        self.disposition_records = records;
        self.dispositions_required = approvals_required;
        self.params_hash = params_hash;
        self.started_at = started_at;
        self.expires_at = expires_at;
        self.operation_disposition = OperationDisposition::NONE;
        self.initiator = initiator;
        self.rent_return = rent_return;
        Ok(())
    }

    /// Proposes the operation with the given parameters, whose fingerprint
    /// binds the votes and the finalization to them.
    pub fn init(
        &mut self,
        approvers: &Vec<Pubkey>,
        approvals_required: u8,
        started_at: i64,
        expires_at: i64,
        params: &MultisigOpParams,
        initiator: Pubkey,
        rent_return: Pubkey,
    ) -> (r: Result<(), WalletError>)
        requires
            old(self).wf(),
        ensures
            final(self).wf(),
            match old(self)@.init_error(approvers@, approvals_required, started_at, expires_at) {
                Some(e) => r == Err::<(), WalletError>(e) && *final(self) == *old(self),
                None => {
                    &&& r is Ok
                    &&& final(self)@.is_initialized
                    &&& final(self)@.disposition_records == blank_records(approvers@)
                    &&& final(self)@.dispositions_required == approvals_required
                    &&& final(self)@.params_hash is Some
                    &&& final(self)@.params_hash->Some_0@ == params_fingerprint(*params)
                    &&& final(self)@.started_at == started_at
                    &&& final(self)@.expires_at == expires_at
                    &&& final(self)@.operation_disposition == OperationDisposition::NONE
                    &&& final(self)@.initiator == initiator
                    &&& final(self)@.rent_return == rent_return
                },
            },
    {
        if self.is_initialized {
            return Err(WalletError::AccountAlreadyInitialized);
        }
        let params_hash = params.hash();
        self.init_with_hash(
            approvers,
            approvals_required,
            started_at,
            expires_at,
            Some(params_hash),
            initiator,
            rent_return,
        )
    }

    /// Sets the fingerprint of an operation that was proposed with the
    /// fingerprint left open. Refused once a fingerprint is set.
    pub fn set_params_hash(&mut self, params_hash: [u8; 32]) -> (r: Result<(), WalletError>)
        requires
            old(self).wf(),
        ensures
            final(self).wf(),
            !old(self)@.is_initialized ==> r == Err::<(), WalletError>(
                WalletError::OperationNotInitialized,
            ) && *final(self) == *old(self),
            old(self)@.is_initialized && old(self)@.params_hash is Some ==> r == Err::<
                (),
                WalletError,
            >(WalletError::InvalidArgument) && *final(self) == *old(self),
            old(self)@.is_initialized && old(self)@.params_hash is None ==> r is Ok && final(self)@
                == (MultisigOpView { params_hash: Some(params_hash), ..old(self)@ }),
    {
        if !self.is_initialized {
            return Err(WalletError::OperationNotInitialized);
        }
        if self.params_hash.is_some() {
            return Err(WalletError::InvalidArgument);
        }
        self.params_hash = Some(params_hash);
        Ok(())
    }

    /// The index of the first record of the approver `key`.
    fn record_index(&self, key: &Pubkey) -> (r: Option<usize>)
        ensures
            match r {
                Some(i) => is_first_record(self@.disposition_records, *key, i as int) && i
                    == first_record(self@.disposition_records, *key),
                None => !has_approver(self@.disposition_records, *key),
            },
    {
        let mut i: usize = 0;
        while i < self.disposition_records.len()
            invariant
                i <= self.disposition_records.len(),
                forall|j: int|
                    0 <= j < i ==> (#[trigger] self.disposition_records@[j]).approver != *key,
            decreases self.disposition_records.len() - i,
        {
            if bytes32_eq(&self.disposition_records[i].approver.bytes, &key.bytes) {
                proof {
                    assert(self.disposition_records@[i as int].approver == *key);
                    lemma_first_record_unique(self@.disposition_records, *key, i as int);
                }
                return Some(i);
            }
            i += 1;
        }
        None
    }

    /// Whether the stored fingerprint is `params_hash`.
    fn has_params_hash(&self, params_hash: &[u8; 32]) -> (r: bool)
        ensures
            r == (self@.params_hash == Some(*params_hash)),
    {
        match &self.params_hash {
            Some(stored) => bytes32_eq(stored, params_hash),
            None => false,
        }
    }

    /// Records the approver's vote. The approver must have signed, must
    /// present the operation's fingerprint and must be one of the approvers;
    /// otherwise the vote is refused and nothing changes. The vote replaces
    /// what that approver had voted before. An undecided operation whose
    /// time is not over then becomes approved or denied as the votes decide;
    /// an outcome that is decided stays.
    pub fn set_disposition(
        &mut self,
        approver: &AccountInfo,
        disposition: ApprovalDisposition,
        params_hash: &[u8; 32],
        now: i64,
    ) -> (r: Result<(), WalletError>)
        requires
            old(self).wf(),
        ensures
            final(self).wf(),
            match old(self)@.vote_error(*approver, *params_hash) {
                Some(e) => r == Err::<(), WalletError>(e) && *final(self) == *old(self),
                None => r is Ok && final(self)@ == old(self)@.with_vote(
                    approver.key,
                    disposition,
                    now,
                ),
            },
    {
        if !self.is_initialized {
            return Err(WalletError::OperationNotInitialized);
        }
        if !approver.is_signer {
            return Err(WalletError::InvalidSignature);
        }
        if !self.has_params_hash(params_hash) {
            return Err(WalletError::InvalidSignature);
        }
        let index = match self.record_index(&approver.key) {
            Some(index) => index,
            None => {
                return Err(WalletError::InvalidApprover);
            },
        };
        self.disposition_records[index] = ApprovalDispositionRecord {
            approver: approver.key,
            disposition,
        };
        match self.operation_disposition {
            OperationDisposition::NONE => {
                if now <= self.expires_at {
                    self.operation_disposition = decide(
                        &self.disposition_records,
                        self.dispositions_required,
                    );
                }
            },
            _ => {},
        }
        Ok(())
    }

    /// The check before finalizing, for the fingerprint `expected` at the
    /// time `now`.
    pub fn approved_for_hash(&self, expected: &[u8; 32], now: i64) -> (r: Result<bool, WalletError>)
        ensures
            r == self@.approval(*expected, now),
    {
        if !self.is_initialized {
            return Err(WalletError::OperationNotInitialized);
        }
        if !self.has_params_hash(expected) {
            return Err(WalletError::InvalidSignature);
        }
        match self.disposition_at(now) {
            OperationDisposition::APPROVED => Ok(true),
            OperationDisposition::DENIED => Ok(false),
            OperationDisposition::EXPIRED => Ok(false),
            OperationDisposition::NONE => Err(WalletError::TransferDispositionNotFinal),
        }
    }

    /// The check before finalizing: whether the operation was approved for
    /// exactly the parameters `expected_params`.
    pub fn approved(&self, expected_params: &MultisigOpParams, now: i64) -> (r: Result<
        bool,
        WalletError,
    >)
        ensures
            r == self@.approval_of(*expected_params, now),
    {
        let expected = expected_params.hash();
        proof {
            if self@.params_hash is Some && self@.params_hash->Some_0@ == expected@ {
                assert(self@.params_hash->Some_0 =~= expected);
            }
        }
        self.approved_for_hash(&expected, now)
    }

    /// Gives the record's storage back: the record is blank again.
    pub fn reclaim(&mut self)
        ensures
            final(self)@.is_blank(),
            final(self).wf(),
    {
        *self = MultisigOp::new();
    }
}

/// The bytes that an operation's record takes, whatever it holds.
pub const MULTISIG_OP_LEN: usize = 942;

/// The bytes that one approver's record takes.
pub const DISPOSITION_RECORD_LEN: usize = 33;

/// Where the approvers' records start.
pub const RECORDS_OFFSET: usize = 2;

/// Where the required approvals stand.
pub const REQUIRED_OFFSET: usize = 827;

/// Where the fingerprint starts, behind a byte that tells whether it is set.
pub const PARAMS_HASH_OFFSET: usize = 828;

/// Where the moment of the proposal starts.
pub const STARTED_AT_OFFSET: usize = 861;

/// Where the moment of expiry starts.
pub const EXPIRES_AT_OFFSET: usize = 869;

/// Where the outcome stands.
pub const DISPOSITION_OFFSET: usize = 877;

/// Where the key of the one who proposed starts.
pub const INITIATOR_OFFSET: usize = 878;

/// Where the key of the one who gets the deposit back starts.
pub const RENT_RETURN_OFFSET: usize = 910;

/// The byte that stands for a vote.
pub open spec fn vote_byte(vote: ApprovalDisposition) -> u8 {
    match vote {
        ApprovalDisposition::NONE => 0,
        ApprovalDisposition::APPROVE => 1,
        ApprovalDisposition::DENY => 2,
    }
}

/// The byte that stands for an outcome.
pub open spec fn outcome_byte(outcome: OperationDisposition) -> u8 {
    match outcome {
        OperationDisposition::NONE => 0,
        OperationDisposition::APPROVED => 1,
        OperationDisposition::DENIED => 2,
        OperationDisposition::EXPIRED => 3,
    }
}

/// Whether the 33 bytes from `offset` on are those written for the record:
/// the approver's key, then the byte of the vote.
pub open spec fn record_at(record: ApprovalDispositionRecord, bytes: Seq<u8>, offset: int) -> bool {
    &&& bytes.subrange(offset, offset + 32) == record.approver.bytes@
    &&& bytes[offset + 32] == vote_byte(record.disposition)
}

/// Whether the 33 bytes from `offset` on are those written for the
/// fingerprint: a zero and zeros where it is open, a one and the fingerprint
/// where it is set.
pub open spec fn params_hash_at(params_hash: Option<[u8; 32]>, bytes: Seq<u8>, offset: int) -> bool {
    match params_hash {
        Some(hash) => bytes[offset] == 1 && bytes.subrange(offset + 1, offset + 33) == hash@,
        None => bytes[offset] == 0 && zeros_at(bytes, offset + 1, 32),
    }
}

/// Whether the bytes are those written for the record: each field at its
/// place, in a record of fixed length, with zeros for the approvers that are
/// not there.
pub open spec fn op_written(op: MultisigOpView, bytes: Seq<u8>) -> bool {
    &&& bytes.len() == MULTISIG_OP_LEN
    &&& bytes[0] == bool_byte(op.is_initialized)
    &&& op.disposition_records.len() <= MAX_APPROVERS
    &&& bytes[1] == op.disposition_records.len()
    &&& forall|k: int|
        0 <= k < op.disposition_records.len() ==> record_at(
            #[trigger] op.disposition_records[k],
            bytes,
            RECORDS_OFFSET + 33 * k,
        )
    &&& zeros_at(
        bytes,
        RECORDS_OFFSET + 33 * op.disposition_records.len(),
        33 * (MAX_APPROVERS - op.disposition_records.len()),
    )
    &&& bytes[REQUIRED_OFFSET as int] == op.dispositions_required
    &&& params_hash_at(op.params_hash, bytes, PARAMS_HASH_OFFSET as int)
    &&& bytes.subrange(STARTED_AT_OFFSET as int, EXPIRES_AT_OFFSET as int) == i64_bytes(
        op.started_at,
    )
    &&& bytes.subrange(EXPIRES_AT_OFFSET as int, DISPOSITION_OFFSET as int) == i64_bytes(
        op.expires_at,
    )
    &&& bytes[DISPOSITION_OFFSET as int] == outcome_byte(op.operation_disposition)
    &&& bytes.subrange(INITIATOR_OFFSET as int, RENT_RETURN_OFFSET as int)
        == op.initiator.bytes@
    &&& bytes.subrange(RENT_RETURN_OFFSET as int, MULTISIG_OP_LEN as int)
        == op.rent_return.bytes@
}

/// Bytes are written for one record at most.
pub proof fn lemma_op_written_one(a: MultisigOpView, b: MultisigOpView, bytes: Seq<u8>)
    requires
        op_written(a, bytes),
        op_written(b, bytes),
    ensures
        a == b,
{
    assert(a.is_initialized == b.is_initialized);
    assert(a.disposition_records.len() == b.disposition_records.len());
    assert forall|k: int| 0 <= k < a.disposition_records.len() implies a.disposition_records[k]
        == b.disposition_records[k] by {
        let x = a.disposition_records[k];
        let y = b.disposition_records[k];
        assert(record_at(x, bytes, RECORDS_OFFSET + 33 * k));
        assert(record_at(y, bytes, RECORDS_OFFSET + 33 * k));
        assert(x.approver.bytes =~= y.approver.bytes);
        assert(x.disposition == y.disposition);
    }
    assert(a.disposition_records =~= b.disposition_records);
    assert(a.params_hash == b.params_hash) by {
        if a.params_hash is Some && b.params_hash is Some {
            assert(a.params_hash->Some_0 =~= b.params_hash->Some_0);
        }
    }
    lemma_i64_bytes_one(a.started_at, b.started_at);
    lemma_i64_bytes_one(a.expires_at, b.expires_at);
    assert(a.operation_disposition == b.operation_disposition);
    assert(a.initiator.bytes =~= b.initiator.bytes);
    assert(a.rent_return.bytes =~= b.rent_return.bytes);
}

/// One record is written in one way: the bytes written for it are
/// determined, byte for byte.
pub proof fn lemma_op_written_bytes_one(op: MultisigOpView, a: Seq<u8>, b: Seq<u8>)
    requires
        op_written(op, a),
        op_written(op, b),
    ensures
        a == b,
{
    let count = op.disposition_records.len() as int;
    assert forall|i: int| 0 <= i < MULTISIG_OP_LEN implies a[i] == b[i] by {
        if 2 <= i < 827 {
            let k = (i - 2) / 33;
            let j = (i - 2) % 33;
            if k < count {
                let offset = RECORDS_OFFSET + 33 * k;
                assert(record_at(op.disposition_records[k], a, offset));
                assert(record_at(op.disposition_records[k], b, offset));
                if j < 32 {
                    assert(a.subrange(offset, offset + 32)[j] == a[i]);
                    assert(b.subrange(offset, offset + 32)[j] == b[i]);
                }
            }
        } else if 829 <= i < 861 {
            if op.params_hash is Some {
                assert(a.subrange(829, 861)[i - 829] == a[i]);
                assert(b.subrange(829, 861)[i - 829] == b[i]);
            }
        } else if 861 <= i < 869 {
            assert(a.subrange(861, 869)[i - 861] == a[i]);
            assert(b.subrange(861, 869)[i - 861] == b[i]);
        } else if 869 <= i < 877 {
            assert(a.subrange(869, 877)[i - 869] == a[i]);
            assert(b.subrange(869, 877)[i - 869] == b[i]);
        } else if 878 <= i < 910 {
            assert(a.subrange(878, 910)[i - 878] == a[i]);
            assert(b.subrange(878, 910)[i - 878] == b[i]);
        } else if 910 <= i < 942 {
            assert(a.subrange(910, 942)[i - 910] == a[i]);
            assert(b.subrange(910, 942)[i - 910] == b[i]);
        }
    }
    assert(a =~= b);
}

/// The byte that stands for a vote.
pub fn byte_of_vote(vote: ApprovalDisposition) -> (r: u8)
    ensures
        r == vote_byte(vote),
{
    match vote {
        ApprovalDisposition::NONE => 0,
        ApprovalDisposition::APPROVE => 1,
        ApprovalDisposition::DENY => 2,
    }
}

/// The vote that a byte stands for, if it stands for one.
pub fn vote_of(byte: u8) -> (r: Option<ApprovalDisposition>)
    ensures
        match r {
            Some(vote) => byte == vote_byte(vote),
            None => byte > 2,
        },
{
    if byte == 0 {
        Some(ApprovalDisposition::NONE)
    } else if byte == 1 {
        Some(ApprovalDisposition::APPROVE)
    } else if byte == 2 {
        Some(ApprovalDisposition::DENY)
    } else {
        None
    }
}

/// The byte that stands for an outcome.
fn byte_of_outcome(outcome: OperationDisposition) -> (r: u8)
    ensures
        r == outcome_byte(outcome),
{
    match outcome {
        OperationDisposition::NONE => 0,
        OperationDisposition::APPROVED => 1,
        OperationDisposition::DENIED => 2,
        OperationDisposition::EXPIRED => 3,
    }
}

/// The outcome that a byte stands for, if it stands for one.
fn outcome_of(byte: u8) -> (r: Option<OperationDisposition>)
    ensures
        match r {
            Some(outcome) => byte == outcome_byte(outcome),
            None => byte > 3,
        },
{
    if byte == 0 {
        Some(OperationDisposition::NONE)
    } else if byte == 1 {
        Some(OperationDisposition::APPROVED)
    } else if byte == 2 {
        Some(OperationDisposition::DENIED)
    } else if byte == 3 {
        Some(OperationDisposition::EXPIRED)
    } else {
        None
    }
}

/// A record written at one place in a part is written at that place in the
/// whole.
proof fn lemma_embedded_record(
    record: ApprovalDispositionRecord,
    out: Seq<u8>,
    region: Seq<u8>,
    base: int,
    a: int,
)
    requires
        0 <= base,
        base + region.len() <= out.len(),
        out.subrange(base, base + region.len()) == region,
        0 <= a,
        a + 33 <= region.len(),
        record_at(record, region, a),
    ensures
        record_at(record, out, base + a),
{
    lemma_embedded(out, region, base, a, a + 32);
    assert(out[base + a + 32] == out.subrange(base, base + region.len())[a + 32]);
}

/// The bytes written for the approvers' records: each in its 33 bytes, and
/// zeros up to the room for `MAX_APPROVERS`.
fn records_bytes(records: &Vec<ApprovalDispositionRecord>) -> (r: Vec<u8>)
    requires
        records@.len() <= MAX_APPROVERS,
    ensures
        r@.len() == 33 * MAX_APPROVERS,
        forall|k: int| 0 <= k < records@.len() ==> record_at(#[trigger] records@[k], r@, 33 * k),
        zeros_at(r@, 33 * records@.len() as int, 33 * (MAX_APPROVERS - records@.len())),
{
    let mut out: Vec<u8> = Vec::new();
    let mut k: usize = 0;
    while k < records.len()
        invariant
            k <= records.len(),
            records@.len() <= MAX_APPROVERS,
            out@.len() == 33 * k,
            forall|i: int| 0 <= i < k ==> record_at(#[trigger] records@[i], out@, 33 * i),
        decreases records.len() - k,
    {
        let ghost before = out@;
        push_bytes32(&mut out, &records[k].approver.bytes);
        out.push(byte_of_vote(records[k].disposition));
        proof {
            assert(out@.subrange(0, 33 * k) =~= before);
            assert(out@.subrange(33 * k, 33 * k + 32) =~= records@[k as int].approver.bytes@);
            assert forall|i: int| 0 <= i < k implies record_at(
                #[trigger] records@[i],
                out@,
                33 * i,
            ) by {
                assert(record_at(records@[i], before, 33 * i));
                lemma_embedded_record(records@[i], out@, before, 0, 33 * i);
            }
        }
        k += 1;
    }
    let ghost filled = out@;
    push_zeros(&mut out, 33 * (MAX_APPROVERS - records.len()));
    proof {
        assert forall|i: int| 0 <= i < records@.len() implies record_at(
            #[trigger] records@[i],
            out@,
            33 * i,
        ) by {
            assert(record_at(records@[i], filled, 33 * i));
            lemma_embedded_record(records@[i], out@, filled, 0, 33 * i);
        }
    }
    out
}

/// The approvers' records that the bytes from `RECORDS_OFFSET` on stand for,
/// if they stand for `count` of them.
fn read_records(src: &[u8], count: usize) -> (r: Option<Vec<ApprovalDispositionRecord>>)
    requires
        src@.len() == MULTISIG_OP_LEN,
        count <= MAX_APPROVERS,
    ensures
        match r {
            Some(records) => {
                &&& records@.len() == count
                &&& forall|k: int|
                    0 <= k < count ==> record_at(
                        #[trigger] records@[k],
                        src@,
                        RECORDS_OFFSET + 33 * k,
                    )
            },
            None => exists|k: int| 0 <= k < count && #[trigger] src@[RECORDS_OFFSET + 33 * k + 32] > 2,
        },
{
    let mut records: Vec<ApprovalDispositionRecord> = Vec::new();
    let mut k: usize = 0;
    while k < count
        invariant
            k <= count,
            count <= MAX_APPROVERS,
            src@.len() == MULTISIG_OP_LEN,
            records@.len() == k,
            forall|i: int|
                0 <= i < k ==> record_at(#[trigger] records@[i], src@, RECORDS_OFFSET + 33 * i),
        decreases count - k,
    {
        let offset = RECORDS_OFFSET + 33 * k;
        let disposition = match vote_of(src[offset + 32]) {
            Some(vote) => vote,
            None => {
                assert(src@[RECORDS_OFFSET + 33 * k + 32] > 2);
                return None;
            },
        };
        records.push(
            ApprovalDispositionRecord {
                approver: Pubkey { bytes: read32(src, offset) },
                disposition,
            },
        );
        k += 1;
    }
    Some(records)
}

impl MultisigOp {
    /// The bytes that store the record: `MULTISIG_OP_LEN` bytes with each
    /// field at its place and zeros for what is not there.
    pub fn pack(&self) -> (r: Vec<u8>)
        requires
            self.wf(),
        ensures
            op_written(self@, r@),
    {
        let records = records_bytes(&self.disposition_records);
        let mut out: Vec<u8> = Vec::new();
        out.push(byte_of(self.is_initialized));
        out.push(#[verifier::truncate] (self.disposition_records.len() as u8));
        push_slice(&mut out, records.as_slice());
        out.push(self.dispositions_required);
        let ghost pre = out@;
        assert(pre.subrange(2, 827) =~= records@);
        match &self.params_hash {
            Some(hash) => {
                out.push(1);
                push_bytes32(&mut out, hash);
                assert(out@.subrange(0, 828) =~= pre);
                assert(out@.subrange(829, 861) =~= hash@);
            },
            None => {
                out.push(0);
                let ghost mid = out@;
                push_zeros(&mut out, 32);
                assert(out@[828] == out@.subrange(0, 829)[828]);
                assert(out@.subrange(0, 828) =~= mid.subrange(0, 828));
                assert(mid.subrange(0, 828) =~= pre);
            },
        }
        assert(out@.len() == STARTED_AT_OFFSET);
        assert(params_hash_at(self.params_hash, out@, PARAMS_HASH_OFFSET as int));
        let ghost head = out@;
        push_i64(&mut out, self.started_at);
        push_i64(&mut out, self.expires_at);
        out.push(byte_of_outcome(self.operation_disposition));
        push_bytes32(&mut out, &self.initiator.bytes);
        push_bytes32(&mut out, &self.rent_return.bytes);
        proof {
            let bytes = out@;
            assert(bytes.len() == MULTISIG_OP_LEN);
            assert(bytes.subrange(0, 861) =~= head);
            lemma_embedded(head, pre, 0, 2, 827);
            lemma_embedded(bytes, head, 0, 2, 827);
            assert(bytes.subrange(2, 827) == records@);
            assert(head[0] == head.subrange(0, 828)[0]);
            assert(head[1] == head.subrange(0, 828)[1]);
            assert(head[827] == head.subrange(0, 828)[827]);
            assert(bytes.subrange(861, 869) =~= i64_bytes(self.started_at));
            assert(bytes.subrange(869, 877) =~= i64_bytes(self.expires_at));
            assert(bytes.subrange(878, 910) =~= self.initiator.bytes@);
            assert(bytes.subrange(910, 942) =~= self.rent_return.bytes@);
            assert forall|k: int| 0 <= k < self@.disposition_records.len() implies record_at(
                #[trigger] self@.disposition_records[k],
                bytes,
                RECORDS_OFFSET + 33 * k,
            ) by {
                assert(record_at(self@.disposition_records[k], records@, 33 * k));
                lemma_embedded_record(self@.disposition_records[k], bytes, records@, 2, 33 * k);
            }
            lemma_embedded_zeros(
                bytes,
                records@,
                2,
                33 * self@.disposition_records.len() as int,
                33 * (MAX_APPROVERS - self@.disposition_records.len()),
            );
            assert(bytes[0] == head[0]);
            assert(bytes[1] == head[1]);
            assert(bytes[827] == head[827]);
            assert(bytes[828] == head[828]);
            if self.params_hash is Some {
                lemma_embedded(bytes, head, 0, 829, 861);
            } else {
                lemma_embedded_zeros(bytes, head, 0, 829, 32);
            }
        }
        out
    }

    /// Writes the bytes that store the record over `dst`, which must have
    /// the length of the record.
    pub fn pack_into_slice(&self, dst: &mut [u8])
        requires
            self.wf(),
            old(dst)@.len() == MULTISIG_OP_LEN,
        ensures
            op_written(self@, final(dst)@),
    {
        let bytes = self.pack();
        write_over(dst, &bytes);
    }

    /// The record that the bytes stand for. Refused where the bytes stand
    /// for no record that is in order.
    pub fn unpack_from_slice(src: &[u8]) -> (r: Result<MultisigOp, WalletError>)
        ensures
            match r {
                Ok(op) => op_written(op@, src@) && op.wf(),
                Err(e) => e == WalletError::InvalidAccountData && forall|op: MultisigOpView|
                    !(#[trigger] op_written(op, src@) && op.wf()),
            },
    {
        if src.len() != MULTISIG_OP_LEN {
            return Err(WalletError::InvalidAccountData);
        }
        let is_initialized = match bool_of(src[0]) {
            Some(b) => b,
            None => {
                return Err(WalletError::InvalidAccountData);
            },
        };
        let count = src[1] as usize;
        if count > MAX_APPROVERS {
            return Err(WalletError::InvalidAccountData);
        }
        if !all_zero(src, RECORDS_OFFSET + 33 * count, 33 * (MAX_APPROVERS - count)) {
            return Err(WalletError::InvalidAccountData);
        }
        let disposition_records = match read_records(src, count) {
            Some(records) => records,
            None => {
                proof {
                    let k = choose|k: int|
                        0 <= k < count && #[trigger] src@[RECORDS_OFFSET + 33 * k + 32] > 2;
                    assert forall|op: MultisigOpView|
                        !(#[trigger] op_written(op, src@) && op.wf()) by {
                        if op_written(op, src@) {
                            assert(record_at(
                                op.disposition_records[k],
                                src@,
                                RECORDS_OFFSET + 33 * k,
                            ));
                        }
                    }
                }
                return Err(WalletError::InvalidAccountData);
            },
        };
        let params_hash = if src[PARAMS_HASH_OFFSET] == 1 {
            Some(read32(src, PARAMS_HASH_OFFSET + 1))
        } else if src[PARAMS_HASH_OFFSET] == 0 && all_zero(src, PARAMS_HASH_OFFSET + 1, 32) {
            None
        } else {
            return Err(WalletError::InvalidAccountData);
        };
        let operation_disposition = match outcome_of(src[DISPOSITION_OFFSET]) {
            Some(outcome) => outcome,
            None => {
                return Err(WalletError::InvalidAccountData);
            },
        };
        let op = MultisigOp {
            is_initialized,
            disposition_records,
            dispositions_required: src[REQUIRED_OFFSET],
            params_hash,
            started_at: read_i64(src, STARTED_AT_OFFSET),
            expires_at: read_i64(src, EXPIRES_AT_OFFSET),
            operation_disposition,
            initiator: Pubkey { bytes: read32(src, INITIATOR_OFFSET) },
            rent_return: Pubkey { bytes: read32(src, RENT_RETURN_OFFSET) },
        };
        assert(op_written(op@, src@));
        if !op.validate() {
            proof {
                assert forall|other: MultisigOpView|
                    !(#[trigger] op_written(other, src@) && other.wf()) by {
                    if op_written(other, src@) {
                        lemma_op_written_one(other, op@, src@);
                    }
                }
            }
            return Err(WalletError::InvalidAccountData);
        }
        Ok(op)
    }

    /// Whether the record is in order.
    pub fn validate(&self) -> (r: bool)
        ensures
            r == self.wf(),
    {
        if self.is_initialized {
            let outcome_is_stored = match self.operation_disposition {
                OperationDisposition::EXPIRED => false,
                _ => true,
            };
            self.disposition_records.len() <= MAX_APPROVERS && self.dispositions_required >= 1
                && self.dispositions_required as usize <= self.disposition_records.len()
                && self.started_at <= self.expires_at && outcome_is_stored
        } else {
            let outcome_is_none = match self.operation_disposition {
                OperationDisposition::NONE => true,
                _ => false,
            };
            let zero = [0u8;32];
            proof {
                assert(zero@ =~= Seq::new(32, |i: int| 0u8));
            }
            self.disposition_records.len() == 0 && self.dispositions_required == 0
                && self.params_hash.is_none() && self.started_at == 0 && self.expires_at == 0
                && outcome_is_none && bytes32_eq(&self.initiator.bytes, &zero) && bytes32_eq(
                &self.rent_return.bytes,
                &zero,
            )
        }
    }
}

} // verus!
