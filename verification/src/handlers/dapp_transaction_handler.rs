use vstd::prelude::*;
use crate::account::AccountInfo;
use crate::error::WalletError;
use crate::handlers::utils::{
    calculate_expires, collect_remaining_balance, derived_address, seed_check, start_error,
    validate_balance_account_and_get_seed,
};
use crate::model::dapp_multisig_data::{
    payload_views, DAppBookEntry, DAppMultisigData, DAppMultisigDataView, MAX_INSTRUCTIONS,
};
use crate::model::multisig_op::{
    blank_records, MultisigOp, MultisigOpView, OperationDisposition, MAX_APPROVERS,
};
use crate::model::program_config::{
    approver_keys, first_wallet, has_wallet, initiator_check, ProgramConfig,
};
use crate::pubkey::{bytes32_eq, Pubkey};

verus! {

/// The approvals that a staged call takes.
pub const DAPP_APPROVALS_REQUIRED: u8 = 1;

/// Why the proposal of a staged call is refused, if it is: no wallet is
/// known under the identifier, the caller may not propose, the operation
/// cannot be started, or the staging record is in use or has no room for so
/// many instructions.
pub open spec fn init_error(
    wallet: ProgramConfig,
    op: MultisigOpView,
    data: DAppMultisigDataView,
    initiator: AccountInfo,
    now: i64,
    account_guid_hash: [u8; 32],
    instruction_count: u8,
) -> Option<WalletError> {
    if !has_wallet(wallet@.wallets, account_guid_hash) {
        Some(WalletError::WalletNotFound)
    } else {
        let balance_account = wallet@.wallets[first_wallet(wallet@.wallets, account_guid_hash)];
        let approvers = approver_keys(wallet.signers@, balance_account.transfer_approvers);
        if initiator_check(wallet.assistant, initiator, approvers) is Err {
            Some(initiator_check(wallet.assistant, initiator, approvers)->Err_0)
        } else if start_error(
            op,
            approvers,
            DAPP_APPROVALS_REQUIRED,
            now,
            balance_account.approval_timeout_for_transfer,
        ) is Some {
            start_error(
                op,
                approvers,
                DAPP_APPROVALS_REQUIRED,
                now,
                balance_account.approval_timeout_for_transfer,
            )
        } else {
            data.init_error(instruction_count)
        }
    }
}

/// What proposing a staged call comes to: refused, it changes nothing;
/// accepted, the operation is started for those who approve the wallet's
/// transfers, with its fingerprint left open, and the staging record holds
/// the declared number of empty slots.
pub open spec fn init_ensures(
    wallet: ProgramConfig,
    op_before: MultisigOp,
    op_after: MultisigOp,
    data_before: DAppMultisigData,
    data_after: DAppMultisigData,
    wallet_address: Pubkey,
    initiator: AccountInfo,
    rent_return: Pubkey,
    now: i64,
    account_guid_hash: [u8; 32],
    dapp: DAppBookEntry,
    instruction_count: u8,
    r: Result<(), WalletError>,
) -> bool {
    match init_error(
        wallet,
        op_before@,
        data_before@,
        initiator,
        now,
        account_guid_hash,
        instruction_count,
    ) {
        Some(e) => {
            &&& r == Err::<(), WalletError>(e)
            &&& op_after == op_before
            &&& data_after == data_before
        },
        None => {
            let balance_account = wallet@.wallets[first_wallet(wallet@.wallets, account_guid_hash)];
            &&& r is Ok
            &&& op_after@ == (MultisigOpView {
                is_initialized: true,
                disposition_records: blank_records(
                    approver_keys(wallet.signers@, balance_account.transfer_approvers),
                ),
                dispositions_required: DAPP_APPROVALS_REQUIRED,
                params_hash: None,
                started_at: now,
                expires_at: (now + balance_account.approval_timeout_for_transfer) as i64,
                operation_disposition: OperationDisposition::NONE,
                initiator: initiator.key,
                rent_return,
            })
            &&& data_after@ == (DAppMultisigDataView {
                is_initialized: true,
                wallet_address,
                account_guid_hash,
                dapp,
                num_instructions: instruction_count,
                instructions: Seq::new(instruction_count as nat, |i: int| None::<Seq<u8>>),
            })
        },
    }
}

/// Proposes a call whose instructions are handed over later: the staging
/// record is taken into use for `instruction_count` instructions, none of
/// them there yet, and an operation is started for those who approve the
/// wallet's transfers, with its fingerprint left open. A proposal that is
/// refused changes nothing.
pub fn init(
    wallet: &ProgramConfig,
    multisig_op: &mut MultisigOp,
    multisig_data: &mut DAppMultisigData,
    wallet_address: Pubkey,
    initiator: &AccountInfo,
    rent_return: Pubkey,
    now: i64,
    account_guid_hash: &[u8; 32],
    dapp: DAppBookEntry,
    instruction_count: u8,
) -> (r: Result<(), WalletError>)
    requires
        wallet.wf(),
        old(multisig_op).wf(),
        old(multisig_data).wf(),
    ensures
        final(multisig_op).wf(),
        final(multisig_data).wf(),
        init_ensures(
            *wallet,
            *old(multisig_op),
            *final(multisig_op),
            *old(multisig_data),
            *final(multisig_data),
            wallet_address,
            *initiator,
            rent_return,
            now,
            *account_guid_hash,
            dapp,
            instruction_count,
            r,
        ),
{
    let balance_account = match wallet.get_wallet_config(account_guid_hash) {
        Ok(balance_account) => balance_account,
        Err(e) => {
            return Err(e);
        },
    };
    match wallet.validate_transfer_initiator(balance_account, initiator) {
        Ok(()) => {},
        Err(e) => {
            return Err(e);
        },
    }
    let expires_at = match calculate_expires(now, balance_account.approval_timeout_for_transfer) {
        Ok(expires_at) => expires_at,
        Err(e) => {
            return Err(e);
        },
    };
    let approvers = wallet.get_transfer_approvers_keys(balance_account);
    if multisig_op.is_initialized() {
        return Err(WalletError::AccountAlreadyInitialized);
    }
    if approvers.len() > MAX_APPROVERS || approvers.len() < 1 {
        return Err(WalletError::InvalidArgument);
    }
    if multisig_data.is_initialized() {
        return Err(WalletError::AccountAlreadyInitialized);
    }
    if instruction_count as usize > MAX_INSTRUCTIONS {
        return Err(WalletError::DAppInstructionOverflow);
    }
    let started = multisig_op.init_with_hash(
        &approvers,
        DAPP_APPROVALS_REQUIRED,
        now,
        expires_at,
        None,
        initiator.key,
        rent_return,
    );
    assert(started is Ok);
    let staged = multisig_data.init(wallet_address, *account_guid_hash, dapp, instruction_count);
    assert(staged is Ok);
    Ok(())
}

/// Why a supply of instructions is refused, if it is: the operation is not
/// in use, the caller did not sign or is not the one who proposed, every
/// instruction has arrived already, or the staging record refuses the
/// supply.
pub open spec fn supply_error(
    op: MultisigOpView,
    data: DAppMultisigDataView,
    initiator: AccountInfo,
    starting_index: u8,
    payloads: Seq<Seq<u8>>,
) -> Option<WalletError> {
    if !op.is_initialized {
        Some(WalletError::OperationNotInitialized)
    } else if !initiator.is_signer || initiator.key != op.initiator {
        Some(WalletError::InvalidSignature)
    } else if op.params_hash is Some {
        Some(WalletError::DAppInstructionAlreadySupplied)
    } else {
        data.supply_error(starting_index, payloads)
    }
}

/// What a supply of instructions comes to: refused, it changes nothing;
/// accepted, the instructions stand in their slots, and once every slot is
/// filled the operation carries the fingerprint of the staged call.
pub open spec fn supply_ensures(
    op_before: MultisigOp,
    op_after: MultisigOp,
    data_before: DAppMultisigData,
    data_after: DAppMultisigData,
    initiator: AccountInfo,
    starting_index: u8,
    instructions: Seq<Vec<u8>>,
    r: Result<(), WalletError>,
) -> bool {
    match supply_error(
        op_before@,
        data_before@,
        initiator,
        starting_index,
        payload_views(instructions),
    ) {
        Some(e) => {
            &&& r == Err::<(), WalletError>(e)
            &&& op_after == op_before
            &&& data_after == data_before
        },
        None => {
            &&& r is Ok
            &&& data_after@ == data_before@.supplied(starting_index, payload_views(instructions))
            &&& op_after@ == (MultisigOpView { params_hash: op_after@.params_hash, ..op_before@ })
            &&& !data_after@.complete() ==> op_after@.params_hash is None
            &&& data_after@.complete() ==> op_after@.params_hash is Some
                && op_after@.params_hash->Some_0@ == data_after@.fingerprint()
        },
    }
}

/// Takes instructions of a staged call into the slots from `starting_index`
/// on. Only the one who proposed the call may supply, and a slot is written
/// once. When the last instruction has arrived, the fingerprint of the
/// staged call becomes the fingerprint of the operation, which votes and
/// finalization must then present. A supply that is refused changes nothing.
pub fn supply_instructions(
    multisig_op: &mut MultisigOp,
    multisig_data: &mut DAppMultisigData,
    initiator: &AccountInfo,
    starting_index: u8,
    instructions: &Vec<Vec<u8>>,
) -> (r: Result<(), WalletError>)
    requires
        old(multisig_op).wf(),
        old(multisig_data).wf(),
    ensures
        final(multisig_op).wf(),
        final(multisig_data).wf(),
        supply_ensures(
            *old(multisig_op),
            *final(multisig_op),
            *old(multisig_data),
            *final(multisig_data),
            *initiator,
            starting_index,
            instructions@,
            r,
        ),
{
    if !multisig_op.is_initialized() {
        return Err(WalletError::OperationNotInitialized);
    }
    let proposer = multisig_op.initiator();
    if !initiator.is_signer || !bytes32_eq(&initiator.key.bytes, &proposer.bytes) {
        return Err(WalletError::InvalidSignature);
    }
    if multisig_op.params_hash().is_some() {
        return Err(WalletError::DAppInstructionAlreadySupplied);
    }
    match multisig_data.supply(starting_index, instructions) {
        Ok(()) => {},
        Err(e) => {
            return Err(e);
        },
    }
    match multisig_data.hash() {
        Ok(fingerprint) => {
            let bound = multisig_op.set_params_hash(fingerprint);
            assert(bound is Ok);
        },
        Err(_) => {},
    }
    Ok(())
}

/// What is to be done to finalize a staged call.
#[derive(Debug, Clone, Copy, PartialEq, Eq, Structural)]
pub enum FinalizeStep {
    /// The call was approved: make it for real, then reclaim the records.
    Execute { bump_seed: u8 },
    /// The call is neither decided nor expired: make it as a dry run, report
    /// what it did to the balances, and fail.
    Simulate { bump_seed: u8 },
    /// The call was denied or has expired: do not make it, and reclaim the
    /// records.
    Reclaim,
}

/// What finalizing a staged call comes to, given the wallet account and the
/// wallet identifier that the caller presents, whether every instruction has
/// arrived, whether the fingerprint presented is that of the staged call and
/// of the operation, and the address derived for the identifier presented.
///
/// Nothing is to be run before every declared instruction has arrived, nor
/// for another wallet than the call was staged for, nor against a
/// fingerprint that is not the one voted on.
pub open spec fn finalize_step(
    op: MultisigOpView,
    data: DAppMultisigDataView,
    balance_account: AccountInfo,
    rent_collector: AccountInfo,
    wallet_address: Pubkey,
    account_guid_hash: [u8; 32],
    presented_is_staged: bool,
    presented_is_voted: bool,
    derived: Option<(Seq<u8>, u8)>,
    now: i64,
) -> Result<FinalizeStep, WalletError> {
    if !rent_collector.is_signer {
        Err(WalletError::MissingRequiredSignature)
    } else if !data.is_initialized {
        Err(WalletError::OperationNotInitialized)
    } else if !data.complete() {
        Err(WalletError::TransferDispositionNotFinal)
    } else if data.wallet_address != wallet_address || data.account_guid_hash != account_guid_hash {
        Err(WalletError::InvalidSignature)
    } else if !presented_is_staged {
        Err(WalletError::InvalidSignature)
    } else {
        match op.approval_with(presented_is_voted, now) {
            Ok(false) => Ok(FinalizeStep::Reclaim),
            Ok(true) => match seed_check(balance_account.key, derived) {
                Ok(bump_seed) => Ok(FinalizeStep::Execute { bump_seed }),
                Err(e) => Err(e),
            },
            Err(WalletError::TransferDispositionNotFinal) => match seed_check(
                balance_account.key,
                derived,
            ) {
                Ok(bump_seed) => Ok(FinalizeStep::Simulate { bump_seed }),
                Err(e) => Err(e),
            },
            Err(e) => Err(e),
        }
    }
}

/// Decides what is to be done to finalize a staged call for the fingerprint
/// `params_hash` at the time `now`. The wallet account and the wallet
/// identifier presented must be those that the call was staged for: the
/// bump seed returned belongs to that identifier. The one who makes the
/// calls acts on the step returned, and calls `finalize_executed` once a
/// call made for real has succeeded, or at once where the records are only
/// to be reclaimed.
pub fn finalize(
    multisig_op: &MultisigOp,
    multisig_data: &DAppMultisigData,
    balance_account: &AccountInfo,
    rent_collector: &AccountInfo,
    program_id: &Pubkey,
    wallet_address: &Pubkey,
    account_guid_hash: &[u8; 32],
    params_hash: &[u8; 32],
    now: i64,
) -> (r: Result<FinalizeStep, WalletError>)
    ensures
        r == finalize_step(
            multisig_op@,
            multisig_data@,
            *balance_account,
            *rent_collector,
            *wallet_address,
            *account_guid_hash,
            params_hash@ == multisig_data@.fingerprint(),
            multisig_op@.params_hash == Some(*params_hash),
            derived_address(account_guid_hash@, program_id.bytes@),
            now,
        ),
{
    if !rent_collector.is_signer {
        return Err(WalletError::MissingRequiredSignature);
    }
    let staged = match multisig_data.hash() {
        Ok(staged) => staged,
        Err(e) => {
            return Err(e);
        },
    };
    let staged_wallet = multisig_data.wallet_address();
    let staged_guid = multisig_data.account_guid_hash();
    if !bytes32_eq(&staged_wallet.bytes, &wallet_address.bytes) || !bytes32_eq(
        &staged_guid,
        account_guid_hash,
    ) {
        return Err(WalletError::InvalidSignature);
    }
    if !bytes32_eq(&staged, params_hash) {
        return Err(WalletError::InvalidSignature);
    }
    let simulate = match multisig_op.approved_for_hash(params_hash, now) {
        Ok(true) => false,
        Ok(false) => {
            return Ok(FinalizeStep::Reclaim);
        },
        Err(WalletError::TransferDispositionNotFinal) => true,
        Err(e) => {
            return Err(e);
        },
    };
    let bump_seed = match validate_balance_account_and_get_seed(
        balance_account,
        account_guid_hash,
        program_id,
    ) {
        Ok(bump_seed) => bump_seed,
        Err(e) => {
            return Err(e);
        },
    };
    if simulate {
        Ok(FinalizeStep::Simulate { bump_seed })
    } else {
        Ok(FinalizeStep::Execute { bump_seed })
    }
}

/// Whether both deposits can be handed over.
pub open spec fn deposits_fit(
    multisig_op_account: AccountInfo,
    multisig_data_account: AccountInfo,
    rent_collector: AccountInfo,
) -> bool {
    rent_collector.lamports + multisig_op_account.lamports + multisig_data_account.lamports
        <= u64::MAX
}

/// What reclaiming the records of a staged call comes to: refused, where the
/// balance would not fit, it changes nothing; else both deposits are with
/// the given account and both records are blank.
pub open spec fn executed_ensures(
    op_before: MultisigOp,
    op_after: MultisigOp,
    data_before: DAppMultisigData,
    data_after: DAppMultisigData,
    op_account_before: AccountInfo,
    op_account_after: AccountInfo,
    data_account_before: AccountInfo,
    data_account_after: AccountInfo,
    rent_collector_before: AccountInfo,
    rent_collector_after: AccountInfo,
    r: Result<(), WalletError>,
) -> bool {
    if !deposits_fit(op_account_before, data_account_before, rent_collector_before) {
        &&& r == Err::<(), WalletError>(WalletError::AmountOverflow)
        &&& op_after == op_before
        &&& data_after == data_before
        &&& op_account_after == op_account_before
        &&& data_account_after == data_account_before
        &&& rent_collector_after == rent_collector_before
    } else {
        &&& r is Ok
        &&& op_after@.is_blank()
        &&& op_after.wf()
        &&& data_after@.is_blank()
        &&& data_after.wf()
        &&& rent_collector_after.lamports == rent_collector_before.lamports
            + op_account_before.lamports + data_account_before.lamports
        &&& rent_collector_after.key == rent_collector_before.key
        &&& rent_collector_after.owner == rent_collector_before.owner
        &&& rent_collector_after.is_signer == rent_collector_before.is_signer
        &&& rent_collector_after.data == rent_collector_before.data
        &&& op_account_after.lamports == 0
        &&& op_account_after.data@.len() == 0
        &&& op_account_after.key == op_account_before.key
        &&& data_account_after.lamports == 0
        &&& data_account_after.data@.len() == 0
        &&& data_account_after.key == data_account_before.key
    }
}

/// Reclaims the records of a staged call that was made for real, or that is
/// not to be made: both deposits go to the given account and both records
/// are blank again, so that the call cannot be finalized a second time.
/// Refused, with everything as it was, where the balance would not fit.
pub fn finalize_executed(
    multisig_op: &mut MultisigOp,
    multisig_data: &mut DAppMultisigData,
    multisig_op_account: &mut AccountInfo,
    multisig_data_account: &mut AccountInfo,
    rent_collector: &mut AccountInfo,
) -> (r: Result<(), WalletError>)
    ensures
        executed_ensures(
            *old(multisig_op),
            *final(multisig_op),
            *old(multisig_data),
            *final(multisig_data),
            *old(multisig_op_account),
            *final(multisig_op_account),
            *old(multisig_data_account),
            *final(multisig_data_account),
            *old(rent_collector),
            *final(rent_collector),
            r,
        ),
{
    let total: u128 = rent_collector.lamports as u128 + multisig_op_account.lamports as u128
        + multisig_data_account.lamports as u128;
    if total > u64::MAX as u128 {
        return Err(WalletError::AmountOverflow);
    }
    let first = collect_remaining_balance(multisig_op_account, rent_collector);
    assert(first is Ok);
    let second = collect_remaining_balance(multisig_data_account, rent_collector);
    assert(second is Ok);
    multisig_op.reclaim();
    multisig_data.reclaim();
    Ok(())
}

/// Once a staged call was finalized its records are blank, and finalizing
/// blank records is refused whatever is presented: nothing is run a second
/// time.
pub proof fn lemma_finalize_once(
    op: MultisigOpView,
    data: DAppMultisigDataView,
    balance_account: AccountInfo,
    rent_collector: AccountInfo,
    wallet_address: Pubkey,
    account_guid_hash: [u8; 32],
    presented_is_staged: bool,
    presented_is_voted: bool,
    derived: Option<(Seq<u8>, u8)>,
    now: i64,
)
    requires
        data.is_blank(),
    ensures
        finalize_step(
            op,
            data,
            balance_account,
            rent_collector,
            wallet_address,
            account_guid_hash,
            presented_is_staged,
            presented_is_voted,
            derived,
            now,
        ) is Err,
{
}

/// A staged call is made for the wallet it was staged for only: whenever
/// finalizing answers with a step that runs the call, the wallet account and
/// the wallet identifier presented are those of the staging record, and the
/// bump seed is the one derived for that identifier.
pub proof fn lemma_finalize_is_bound(
    op: MultisigOpView,
    data: DAppMultisigDataView,
    balance_account: AccountInfo,
    rent_collector: AccountInfo,
    wallet_address: Pubkey,
    account_guid_hash: [u8; 32],
    presented_is_staged: bool,
    presented_is_voted: bool,
    derived: Option<(Seq<u8>, u8)>,
    now: i64,
)
    ensures
        match finalize_step(
            op,
            data,
            balance_account,
            rent_collector,
            wallet_address,
            account_guid_hash,
            presented_is_staged,
            presented_is_voted,
            derived,
            now,
        ) {
            Ok(FinalizeStep::Execute { bump_seed }) | Ok(FinalizeStep::Simulate { bump_seed }) => {
                &&& data.wallet_address == wallet_address
                &&& data.account_guid_hash == account_guid_hash
                &&& presented_is_staged
                &&& derived == Some((balance_account.key.bytes@, bump_seed))
            },
            _ => true,
        },
{
}

/// The balance of a token account.
#[derive(Debug, Clone, Copy, PartialEq, Eq)]
pub struct SplBalance {
    pub account: Pubkey,
    pub token_mint: Pubkey,
    pub balance: u64,
}

/// The balance of each account, in the order of the accounts.
pub fn account_balances(accounts: &Vec<AccountInfo>) -> (r: Vec<u64>)
    ensures
        r@ == Seq::new(accounts@.len(), |i: int| accounts@[i].lamports),
{
    let mut balances: Vec<u64> = Vec::new();
    let mut i: usize = 0;
    while i < accounts.len()
        invariant
            i <= accounts.len(),
            balances@ == Seq::new(i as nat, |k: int| accounts@[k].lamports),
        decreases accounts.len() - i,
    {
        balances.push(accounts[i].lamports);
        assert(balances@ =~= Seq::new((i + 1) as nat, |k: int| accounts@[k].lamports));
        i += 1;
    }
    balances
}

/// Whether the key is that of the token program.
pub uninterp spec fn spl_token_program(key: Seq<u8>) -> bool;

/// The mint and the amount of the token account that the bytes decode to,
/// where they decode to one that is in use.
pub uninterp spec fn spl_account(data: Seq<u8>) -> Option<(Seq<u8>, u64)>;

/// Calls `spl_token::check_id`, which tells whether a key is the token
/// program's.
#[verifier::external_body]
fn is_token_program(owner: &Pubkey) -> (r: bool)
    ensures
        r == spl_token_program(owner.bytes@),
{
    spl_token::check_id(&solana_program::pubkey::Pubkey::new_from_array(owner.bytes))
}

/// Calls `Pack::unpack` for `spl_token::state::Account`, which decodes a
/// token account that is in use, and takes its mint and amount.
#[verifier::external_body]
fn token_account(data: &Vec<u8>) -> (r: Option<(Pubkey, u64)>)
    ensures
        match r {
            Some((mint, amount)) => spl_account(data@) == Some((mint.bytes@, amount)),
            None => spl_account(data@) is None,
        },
{
    <spl_token::state::Account as solana_program::program_pack::Pack>::unpack(data).ok().map(
        |account| (Pubkey { bytes: account.mint.to_bytes() }, account.amount),
    )
}

/// The key with the given bytes.
pub open spec fn key_of(bytes: Seq<u8>) -> Pubkey {
    choose|key: Pubkey| key.bytes@ == bytes
}

/// A key is the key of its bytes.
pub proof fn lemma_key_of(key: Pubkey)
    ensures
        key_of(key.bytes@) == key,
{
    let chosen = key_of(key.bytes@);
    assert(chosen.bytes@ == key.bytes@);
    assert(chosen.bytes =~= key.bytes);
}

/// The token balance that an account shows, given whether its owner is the
/// token program and what its bytes decode to.
pub open spec fn spl_balance_from(
    account: AccountInfo,
    owned_by_token_program: bool,
    decoded: Option<(Seq<u8>, u64)>,
) -> Option<SplBalance> {
    if owned_by_token_program && decoded is Some {
        Some(
            SplBalance {
                account: account.key,
                token_mint: key_of(decoded->Some_0.0),
                balance: decoded->Some_0.1,
            },
        )
    } else {
        None
    }
}

/// The token balance that an account shows, if it is a token account.
pub open spec fn spl_balance_of(account: AccountInfo) -> Option<SplBalance> {
    spl_balance_from(account, spl_token_program(account.owner.bytes@), spl_account(account.data@))
}

/// The token balances that the accounts show, in the order of the accounts.
pub open spec fn spl_balances_of(accounts: Seq<AccountInfo>) -> Seq<SplBalance>
    decreases accounts.len(),
{
    if accounts.len() == 0 {
        Seq::empty()
    } else {
        let rest = spl_balances_of(accounts.drop_last());
        match spl_balance_of(accounts.last()) {
            Some(balance) => rest.push(balance),
            None => rest,
        }
    }
}

/// The token balance that an account shows, given whether its owner is the
/// token program and what its bytes decode to.
pub fn spl_balance(
    account: &AccountInfo,
    owned_by_token_program: bool,
    decoded: Option<(Pubkey, u64)>,
) -> (r: Option<SplBalance>)
    ensures
        r == spl_balance_from(
            *account,
            owned_by_token_program,
            match decoded {
                Some((mint, amount)) => Some((mint.bytes@, amount)),
                None => None,
            },
        ),
{
    if !owned_by_token_program {
        return None;
    }
    match decoded {
        Some((mint, amount)) => {
            proof {
                lemma_key_of(mint);
            }
            Some(SplBalance { account: account.key, token_mint: mint, balance: amount })
        },
        None => None,
    }
}

/// The token balances that the accounts show, in the order of the accounts:
/// one for each account that the token program owns and whose bytes decode
/// to a token account in use.
pub fn spl_balances(accounts: &Vec<AccountInfo>) -> (r: Vec<SplBalance>)
    ensures
        r@ == spl_balances_of(accounts@),
{
    let mut balances: Vec<SplBalance> = Vec::new();
    let mut i: usize = 0;
    while i < accounts.len()
        invariant
            i <= accounts.len(),
            balances@ == spl_balances_of(accounts@.take(i as int)),
        decreases accounts.len() - i,
    {
        proof {
            assert(accounts@.take(i + 1).drop_last() =~= accounts@.take(i as int));
        }
        let account = &accounts[i];
        let owned = is_token_program(&account.owner);
        let decoded = if owned {
            token_account(&account.data)
        } else {
            None
        };
        match spl_balance(account, owned, decoded) {
            Some(balance) => {
                balances.push(balance);
            },
            None => {},
        }
        i += 1;
    }
    assert(accounts@.take(accounts@.len() as int) =~= accounts@);
    balances
}

/// How a balance changed: the index of its account, the direction, and by
/// how much; nothing where it did not change.
pub open spec fn balance_change(index: int, starting: u64, ending: u64) -> Option<(u8, char, u64)> {
    if ending > starting {
        Some((index as u8, '+', (ending - starting) as u64))
    } else if ending < starting {
        Some((index as u8, '-', (starting - ending) as u64))
    } else {
        None
    }
}

/// The changes of the balances, in the order of the accounts.
pub open spec fn balance_changes_of(starting: Seq<u64>, ending: Seq<u64>) -> Seq<(u8, char, u64)>
    decreases starting.len(),
{
    if starting.len() == 0 {
        Seq::empty()
    } else {
        let rest = balance_changes_of(starting.drop_last(), ending);
        let i = starting.len() - 1;
        match balance_change(i, starting[i], ending[i]) {
            Some(change) => rest.push(change),
            None => rest,
        }
    }
}

/// How a balance changed.
fn change_of(index: usize, starting: u64, ending: u64) -> (r: Option<(u8, char, u64)>)
    ensures
        r == balance_change(index as int, starting, ending),
{
    let short = #[verifier::truncate] (index as u8);
    if ending > starting {
        Some((short, '+', ending - starting))
    } else if ending < starting {
        Some((short, '-', starting - ending))
    } else {
        None
    }
}

/// The changes of the balances, in the order of the accounts.
pub fn balance_changes(starting_balances: &Vec<u64>, ending_balances: &Vec<u64>) -> (r: Vec<
    (u8, char, u64),
>)
    requires
        starting_balances@.len() <= ending_balances@.len(),
    ensures
        r@ == balance_changes_of(starting_balances@, ending_balances@),
{
    let mut changes: Vec<(u8, char, u64)> = Vec::new();
    let mut i: usize = 0;
    while i < starting_balances.len()
        invariant
            i <= starting_balances.len(),
            starting_balances@.len() <= ending_balances@.len(),
            changes@ == balance_changes_of(starting_balances@.take(i as int), ending_balances@),
        decreases starting_balances.len() - i,
    {
        proof {
            assert(starting_balances@.take(i + 1).drop_last() =~= starting_balances@.take(
                i as int,
            ));
        }
        match change_of(i, starting_balances[i], ending_balances[i]) {
            Some(change) => {
                changes.push(change);
            },
            None => {},
        }
        i += 1;
    }
    assert(starting_balances@.take(starting_balances@.len() as int) =~= starting_balances@);
    changes
}

/// Whether a balance taken before is that of the same token account as one
/// taken after.
pub open spec fn same_token_account(start: SplBalance, end: SplBalance) -> bool {
    start.account == end.account && start.token_mint == end.token_mint
}

/// Whether `i` is the first balance taken before for the token account of
/// `end`.
pub open spec fn is_first_start(starting: Seq<SplBalance>, end: SplBalance, i: int) -> bool {
    &&& 0 <= i < starting.len()
    &&& same_token_account(starting[i], end)
    &&& forall|j: int| 0 <= j < i ==> !same_token_account(#[trigger] starting[j], end)
}

/// The balance that the token account of `end` had before: that of the first
/// balance taken before for it, and zero where there is none.
pub open spec fn starting_spl_balance(starting: Seq<SplBalance>, end: SplBalance) -> u64 {
    if exists|i: int| is_first_start(starting, end, i) {
        starting[choose|i: int| is_first_start(starting, end, i)].balance
    } else {
        0
    }
}

/// Whether `i` is the first account with the key.
pub open spec fn is_first_account(accounts: Seq<AccountInfo>, key: Pubkey, i: int) -> bool {
    &&& 0 <= i < accounts.len()
    &&& accounts[i].key == key
    &&& forall|j: int| 0 <= j < i ==> (#[trigger] accounts[j]).key != key
}

/// The index of the first account with the key.
pub open spec fn account_index(accounts: Seq<AccountInfo>, key: Pubkey) -> int {
    choose|i: int| is_first_account(accounts, key, i)
}

/// Whether each token account whose balance changed is among the accounts.
pub open spec fn changed_are_listed(
    starting: Seq<SplBalance>,
    ending: Seq<SplBalance>,
    accounts: Seq<AccountInfo>,
) -> bool {
    forall|k: int|
        0 <= k < ending.len() && (#[trigger] ending[k]).balance != starting_spl_balance(
            starting,
            ending[k],
        ) ==> exists|i: int| 0 <= i < accounts.len() && (#[trigger] accounts[i]).key == ending[k].account
}

/// The changes of the token balances, in the order of the balances taken
/// after.
pub open spec fn spl_balance_changes_of(
    starting: Seq<SplBalance>,
    ending: Seq<SplBalance>,
    accounts: Seq<AccountInfo>,
) -> Seq<(u8, char, u64)>
    decreases ending.len(),
{
    if ending.len() == 0 {
        Seq::empty()
    } else {
        let rest = spl_balance_changes_of(starting, ending.drop_last(), accounts);
        let end = ending.last();
        match balance_change(
            account_index(accounts, end.account),
            starting_spl_balance(starting, end),
            end.balance,
        ) {
            Some(change) => rest.push(change),
            None => rest,
        }
    }
}

/// The balance that the token account of `end` had before.
fn starting_balance(starting: &Vec<SplBalance>, end: &SplBalance) -> (r: u64)
    ensures
        r == starting_spl_balance(starting@, *end),
{
    let mut i: usize = 0;
    while i < starting.len()
        invariant
            i <= starting.len(),
            forall|j: int| 0 <= j < i ==> !same_token_account(#[trigger] starting@[j], *end),
        decreases starting.len() - i,
    {
        if bytes32_eq(&starting[i].account.bytes, &end.account.bytes) && bytes32_eq(
            &starting[i].token_mint.bytes,
            &end.token_mint.bytes,
        ) {
            proof {
                assert(is_first_start(starting@, *end, i as int));
                let c = choose|c: int| is_first_start(starting@, *end, c);
                if c < i {
                    assert(!same_token_account(starting@[c], *end));
                } else if i < c {
                    assert(same_token_account(starting@[i as int], *end));
                }
            }
            return starting[i].balance;
        }
        i += 1;
    }
    proof {
        if exists|c: int| is_first_start(starting@, *end, c) {
            let c = choose|c: int| is_first_start(starting@, *end, c);
            assert(!same_token_account(starting@[c], *end));
        }
    }
    0
}

/// The index of the first account with the key.
fn position_of(accounts: &Vec<AccountInfo>, key: &Pubkey) -> (r: usize)
    requires
        exists|i: int| 0 <= i < accounts@.len() && (#[trigger] accounts@[i]).key == *key,
    ensures
        r == account_index(accounts@, *key),
        is_first_account(accounts@, *key, r as int),
{
    let mut i: usize = 0;
    while i < accounts.len()
        invariant
            i <= accounts.len(),
            exists|k: int| 0 <= k < accounts@.len() && (#[trigger] accounts@[k]).key == *key,
            forall|j: int| 0 <= j < i ==> (#[trigger] accounts@[j]).key != *key,
        decreases accounts.len() - i,
    {
        if bytes32_eq(&accounts[i].key.bytes, &key.bytes) {
            proof {
                assert(accounts@[i as int].key == *key);
                assert(is_first_account(accounts@, *key, i as int));
                let c = account_index(accounts@, *key);
                if c < i {
                    assert(accounts@[c].key != *key);
                } else if i < c {
                    assert(accounts@[i as int].key == *key);
                }
            }
            return i;
        }
        i += 1;
    }
    proof {
        let k = choose|k: int| 0 <= k < accounts@.len() && (#[trigger] accounts@[k]).key == *key;
        assert(accounts@[k].key != *key);
    }
    0
}

/// The changes of the token balances, in the order of the balances taken
/// after. A token account without a balance taken before counts as having
/// had none.
pub fn spl_balance_changes(
    starting_spl_balances: &Vec<SplBalance>,
    ending_spl_balances: &Vec<SplBalance>,
    accounts: &Vec<AccountInfo>,
) -> (r: Vec<(u8, char, u64)>)
    requires
        changed_are_listed(starting_spl_balances@, ending_spl_balances@, accounts@),
    ensures
        r@ == spl_balance_changes_of(starting_spl_balances@, ending_spl_balances@, accounts@),
{
    let mut changes: Vec<(u8, char, u64)> = Vec::new();
    let mut k: usize = 0;
    while k < ending_spl_balances.len()
        invariant
            k <= ending_spl_balances.len(),
            changed_are_listed(starting_spl_balances@, ending_spl_balances@, accounts@),
            changes@ == spl_balance_changes_of(
                starting_spl_balances@,
                ending_spl_balances@.take(k as int),
                accounts@,
            ),
        decreases ending_spl_balances.len() - k,
    {
        proof {
            assert(ending_spl_balances@.take(k + 1).drop_last() =~= ending_spl_balances@.take(
                k as int,
            ));
        }
        let end = &ending_spl_balances[k];
        let before = starting_balance(starting_spl_balances, end);
        if end.balance != before {
            assert(ending_spl_balances@[k as int].balance != starting_spl_balance(
                starting_spl_balances@,
                ending_spl_balances@[k as int],
            ));
            let index = position_of(accounts, &end.account);
            match change_of(index, before, end.balance) {
                Some(change) => {
                    changes.push(change);
                },
                None => {},
            }
        }
        k += 1;
    }
    assert(ending_spl_balances@.take(ending_spl_balances@.len() as int) =~= ending_spl_balances@);
    changes
}

/// The text that reports the changes of the balances and of the token
/// balances.
pub uninterp spec fn simulation_report(
    balance_changes: Seq<(u8, char, u64)>,
    spl_balance_changes: Seq<(u8, char, u64)>,
) -> Seq<char>;

/// Formats the report with `format!`: a fixed heading, then the two lists of
/// changes as `Debug` prints them.
#[verifier::external_body]
fn format_report(balance_changes: &Vec<(u8, char, u64)>, spl_balance_changes: &Vec<(u8, char, u64)>) -> (r:
    String)
    ensures
        r@ == simulation_report(balance_changes@, spl_balance_changes@),
{
    format!("Simulation balance changes: {:?} {:?}", balance_changes, spl_balance_changes)
}

/// The report of a dry run: what it did to the balances of the accounts and
/// to the token balances, leaving out what did not change.
pub fn balance_changes_from_simulation(
    starting_balances: Vec<u64>,
    starting_spl_balances: Vec<SplBalance>,
    ending_balances: Vec<u64>,
    ending_spl_balances: Vec<SplBalance>,
    accounts: &Vec<AccountInfo>,
) -> (r: String)
    requires
        starting_balances@.len() <= ending_balances@.len(),
        changed_are_listed(starting_spl_balances@, ending_spl_balances@, accounts@),
    ensures
        r@ == simulation_report(
            balance_changes_of(starting_balances@, ending_balances@),
            spl_balance_changes_of(starting_spl_balances@, ending_spl_balances@, accounts@),
        ),
{
    let changes = balance_changes(&starting_balances, &ending_balances);
    let spl_changes = spl_balance_changes(&starting_spl_balances, &ending_spl_balances, accounts);
    format_report(&changes, &spl_changes)
}

/// Every token balance that the accounts show belongs to one of the
/// accounts.
pub proof fn lemma_spl_balances_are_listed(accounts: Seq<AccountInfo>)
    ensures
        forall|k: int|
            0 <= k < spl_balances_of(accounts).len() ==> exists|i: int|
                0 <= i < accounts.len() && (#[trigger] accounts[i]).key == (
                #[trigger] spl_balances_of(accounts)[k]).account,
    decreases accounts.len(),
{
    if accounts.len() > 0 {
        let front = accounts.drop_last();
        lemma_spl_balances_are_listed(front);
        assert forall|k: int| 0 <= k < spl_balances_of(accounts).len() implies exists|i: int|
            0 <= i < accounts.len() && (#[trigger] accounts[i]).key == (
            #[trigger] spl_balances_of(accounts)[k]).account by {
            if k < spl_balances_of(front).len() {
                let i = choose|i: int|
                    0 <= i < front.len() && (#[trigger] front[i]).key == spl_balances_of(
                        front,
                    )[k].account;
                assert(accounts[i].key == spl_balances_of(accounts)[k].account);
            } else {
                assert(accounts[accounts.len() - 1].key == spl_balances_of(accounts)[k].account);
            }
        }
    }
}

/// Ends a dry run: the report of what it did to the balances, and the error
/// with which the dry run is to fail so that what it did is discarded.
pub fn finalize_simulated(
    starting_balances: Vec<u64>,
    starting_spl_balances: Vec<SplBalance>,
    accounts: &Vec<AccountInfo>,
) -> (r: (String, WalletError))
    requires
        starting_balances@.len() <= accounts@.len(),
    ensures
        r.1 == WalletError::SimulationFinished,
        r.0@ == simulation_report(
            balance_changes_of(
                starting_balances@,
                Seq::new(accounts@.len(), |i: int| accounts@[i].lamports),
            ),
            spl_balance_changes_of(starting_spl_balances@, spl_balances_of(accounts@), accounts@),
        ),
{
    proof {
        lemma_spl_balances_are_listed(accounts@);
    }
    let report = balance_changes_from_simulation(
        starting_balances,
        starting_spl_balances,
        account_balances(accounts),
        spl_balances(accounts),
        accounts,
    );
    (report, WalletError::SimulationFinished)
}

} // verus!
