use vstd::prelude::*;
use crate::account::AccountInfo;
use crate::error::WalletError;
use crate::model::multisig_op::{
    blank_records, params_fingerprint, MultisigOp, MultisigOpParams, MultisigOpView,
    OperationDisposition,
};
use crate::model::program_config::{approver_keys, ProgramConfig};
use crate::model::wallet_config::WalletConfig;
use crate::pubkey::{bytes32_eq, Pubkey};

verus! {

/// Moves the whole balance of `from` to `to` and gives the storage of `from`
/// back. Refused, with both accounts as they were, where the sum does not
/// fit.
pub fn collect_remaining_balance(from: &mut AccountInfo, to: &mut AccountInfo) -> (r: Result<
    (),
    WalletError,
>)
    ensures
        old(to).lamports + old(from).lamports > u64::MAX ==> r == Err::<(), WalletError>(
            WalletError::AmountOverflow,
        ) && *final(from) == *old(from) && *final(to) == *old(to),
        old(to).lamports + old(from).lamports <= u64::MAX ==> r is Ok && deposit_returned(
            *old(from),
            *old(to),
            *final(from),
            *final(to),
        ),
{
    match to.lamports.checked_add(from.lamports) {
        Some(sum) => {
            to.lamports = sum;
            from.lamports = 0;
            from.data = Vec::new();
            Ok(())
        },
        None => Err(WalletError::AmountOverflow),
    }
}

/// What taking the next account, which must belong to the program, gives:
/// its index, or an error where no account is left or the next one has
/// another owner.
pub open spec fn next_program_account(
    accounts: Seq<AccountInfo>,
    position: usize,
    program_id: Pubkey,
) -> Result<usize, WalletError> {
    if position >= accounts.len() {
        Err(WalletError::NotEnoughAccountKeys)
    } else if accounts[position as int].owner != program_id {
        Err(WalletError::IncorrectProgramId)
    } else {
        Ok(position)
    }
}

/// Takes the next of the accounts, which must belong to the program, and
/// moves on. Where no account is left the position stays; an account with
/// another owner is taken all the same, and refused.
pub fn next_program_account_info<'a>(
    accounts: &'a Vec<AccountInfo>,
    position: &mut usize,
    program_id: &Pubkey,
) -> (r: Result<&'a AccountInfo, WalletError>)
    ensures
        match next_program_account(accounts@, *old(position), *program_id) {
            Ok(i) => r == Ok::<&AccountInfo, WalletError>(&accounts@[i as int]),
            Err(e) => r == Err::<&AccountInfo, WalletError>(e),
        },
        *old(position) < accounts@.len() ==> *final(position) == *old(position) + 1,
        *old(position) >= accounts@.len() ==> *final(position) == *old(position),
{
    if *position >= accounts.len() {
        return Err(WalletError::NotEnoughAccountKeys);
    }
    let account = &accounts[*position];
    *position = *position + 1;
    if !bytes32_eq(&account.owner.bytes, &program_id.bytes) {
        return Err(WalletError::IncorrectProgramId);
    }
    Ok(account)
}

/// The moment at which an operation proposed at `start` expires when it may
/// wait `duration` seconds; an error where that moment is beyond the range
/// of time.
pub fn calculate_expires(start: i64, duration: u64) -> (r: Result<i64, WalletError>)
    ensures
        start + duration <= i64::MAX ==> r is Ok && r->Ok_0 == start + duration,
        start + duration > i64::MAX ==> r == Err::<i64, WalletError>(WalletError::InvalidArgument),
{
    let expires_at: i128 = start as i128 + duration as i128;
    if expires_at > i64::MAX as i128 {
        Err(WalletError::InvalidArgument)
    } else {
        Ok(expires_at as i64)
    }
}

/// Why a proposal with the given approvers is refused, if it is: the moment
/// of expiry is beyond the range of time, or the record refuses it.
pub open spec fn start_error(
    op: MultisigOpView,
    approvers: Seq<Pubkey>,
    approvals_required: u8,
    now: i64,
    timeout: u64,
) -> Option<WalletError> {
    if now + timeout > i64::MAX {
        Some(WalletError::InvalidArgument)
    } else {
        op.init_error(approvers, approvals_required, now, (now + timeout) as i64)
    }
}

/// What a record says once the proposal was accepted.
pub open spec fn started(
    op: MultisigOpView,
    approvers: Seq<Pubkey>,
    approvals_required: u8,
    now: i64,
    timeout: u64,
    params: MultisigOpParams,
    initiator: Pubkey,
    rent_return: Pubkey,
) -> bool {
    &&& op.is_initialized
    &&& op.disposition_records == blank_records(approvers)
    &&& op.dispositions_required == approvals_required
    &&& op.params_hash is Some
    &&& op.params_hash->Some_0@ == params_fingerprint(params)
    &&& op.started_at == now
    &&& op.expires_at == now + timeout
    &&& op.operation_disposition == OperationDisposition::NONE
    &&& op.initiator == initiator
    &&& op.rent_return == rent_return
}

/// Proposes a transfer out of a wallet: those who approve the wallet's
/// transfers vote on it, and it takes the wallet's threshold and timeout.
pub fn start_multisig_transfer_op(
    multisig_op: &mut MultisigOp,
    wallet: &ProgramConfig,
    balance_account: &WalletConfig,
    now: i64,
    params: &MultisigOpParams,
    initiator: Pubkey,
    rent_return: Pubkey,
) -> (r: Result<(), WalletError>)
    requires
        old(multisig_op).wf(),
        wallet.wf(),
    ensures
        final(multisig_op).wf(),
        match start_error(
            old(multisig_op)@,
            approver_keys(wallet.signers@, balance_account.transfer_approvers@),
            balance_account.approvals_required_for_transfer,
            now,
            balance_account.approval_timeout_for_transfer,
        ) {
            Some(e) => r == Err::<(), WalletError>(e) && *final(multisig_op) == *old(multisig_op),
            None => r is Ok && started(
                final(multisig_op)@,
                approver_keys(wallet.signers@, balance_account.transfer_approvers@),
                balance_account.approvals_required_for_transfer,
                now,
                balance_account.approval_timeout_for_transfer,
                *params,
                initiator,
                rent_return,
            ),
        },
{
    let expires_at = match calculate_expires(now, balance_account.approval_timeout_for_transfer) {
        Ok(expires_at) => expires_at,
        Err(e) => {
            return Err(e);
        },
    };
    let approvers = wallet.get_transfer_approvers_keys(balance_account);
    multisig_op.init(
        &approvers,
        balance_account.approvals_required_for_transfer,
        now,
        expires_at,
        params,
        initiator,
        rent_return,
    )
}

/// Proposes a change of policy: those who approve policy changes vote on it,
/// and it takes the program-wide threshold and timeout.
pub fn start_multisig_config_op(
    multisig_op: &mut MultisigOp,
    wallet: &ProgramConfig,
    now: i64,
    params: &MultisigOpParams,
    initiator: Pubkey,
    rent_return: Pubkey,
) -> (r: Result<(), WalletError>)
    requires
        old(multisig_op).wf(),
        wallet.wf(),
    ensures
        final(multisig_op).wf(),
        match start_error(
            old(multisig_op)@,
            approver_keys(wallet.signers@, wallet.config_approvers@),
            wallet.approvals_required_for_config,
            now,
            wallet.approval_timeout_for_config,
        ) {
            Some(e) => r == Err::<(), WalletError>(e) && *final(multisig_op) == *old(multisig_op),
            None => r is Ok && started(
                final(multisig_op)@,
                approver_keys(wallet.signers@, wallet.config_approvers@),
                wallet.approvals_required_for_config,
                now,
                wallet.approval_timeout_for_config,
                *params,
                initiator,
                rent_return,
            ),
        },
{
    let expires_at = match calculate_expires(now, wallet.approval_timeout_for_config) {
        Ok(expires_at) => expires_at,
        Err(e) => {
            return Err(e);
        },
    };
    let approvers = wallet.get_config_approvers_keys();
    multisig_op.init(
        &approvers,
        wallet.approvals_required_for_config,
        now,
        expires_at,
        params,
        initiator,
        rent_return,
    )
}

/// What the check before finalizing answers: an error where the account
/// that is to get the deposit did not sign, else what the operation's record
/// answers for the parameters.
pub open spec fn finalize_check(
    op: MultisigOpView,
    account_to_return_rent_to: AccountInfo,
    now: i64,
    expected_params: MultisigOpParams,
) -> Result<bool, WalletError> {
    if !account_to_return_rent_to.is_signer {
        Err(WalletError::MissingRequiredSignature)
    } else {
        op.approval_of(expected_params, now)
    }
}

/// The check before finalizing: whether the gated effect is to run. An
/// answer of `false` says that the operation was denied or has expired: the
/// effect is skipped and the storage is still to be reclaimed. An error says
/// that nothing is to be done.
pub fn finalize_multisig_op(
    multisig_op: &MultisigOp,
    account_to_return_rent_to: &AccountInfo,
    now: i64,
    expected_params: &MultisigOpParams,
) -> (r: Result<bool, WalletError>)
    ensures
        r == finalize_check(multisig_op@, *account_to_return_rent_to, now, *expected_params),
{
    if !account_to_return_rent_to.is_signer {
        return Err(WalletError::MissingRequiredSignature);
    }
    multisig_op.approved(expected_params, now)
}

/// Whether the record's deposit can be handed over.
pub open spec fn deposit_fits(
    multisig_op_account: AccountInfo,
    account_to_return_rent_to: AccountInfo,
) -> bool {
    account_to_return_rent_to.lamports + multisig_op_account.lamports <= u64::MAX
}

/// Whether the accounts are as they are after the record's deposit went
/// from the first to the second and the record's storage was given back.
pub open spec fn deposit_returned(
    op_before: AccountInfo,
    to_before: AccountInfo,
    op_after: AccountInfo,
    to_after: AccountInfo,
) -> bool {
    &&& to_after.lamports == to_before.lamports + op_before.lamports
    &&& op_after.lamports == 0
    &&& op_after.data@.len() == 0
    &&& op_after.key == op_before.key
    &&& op_after.owner == op_before.owner
    &&& op_after.is_signer == op_before.is_signer
    &&& to_after.key == to_before.key
    &&& to_after.owner == to_before.owner
    &&& to_after.is_signer == to_before.is_signer
    &&& to_after.data == to_before.data
}

/// Reclaims the storage of an operation: its deposit goes to the given
/// account and the record is blank again. Refused, with everything as it
/// was, where the balance would not fit.
pub fn close_multisig_op(
    multisig_op: &mut MultisigOp,
    multisig_op_account: &mut AccountInfo,
    account_to_return_rent_to: &mut AccountInfo,
) -> (r: Result<(), WalletError>)
    ensures
        !deposit_fits(*old(multisig_op_account), *old(account_to_return_rent_to)) ==> {
            &&& r == Err::<(), WalletError>(WalletError::AmountOverflow)
            &&& *final(multisig_op) == *old(multisig_op)
            &&& *final(multisig_op_account) == *old(multisig_op_account)
            &&& *final(account_to_return_rent_to) == *old(account_to_return_rent_to)
        },
        deposit_fits(*old(multisig_op_account), *old(account_to_return_rent_to)) ==> {
            &&& r is Ok
            &&& final(multisig_op)@.is_blank()
            &&& final(multisig_op).wf()
            &&& deposit_returned(
                *old(multisig_op_account),
                *old(account_to_return_rent_to),
                *final(multisig_op_account),
                *final(account_to_return_rent_to),
            )
        },
{
    match collect_remaining_balance(multisig_op_account, account_to_return_rent_to) {
        Ok(()) => {
            multisig_op.reclaim();
            Ok(())
        },
        Err(e) => Err(e),
    }
}

/// The address that the program derives from a seed, and the bump seed that
/// goes with it, where there is one.
pub uninterp spec fn derived_address(seed: Seq<u8>, program_id: Seq<u8>) -> Option<(Seq<u8>, u8)>;

/// Calls `solana_program::pubkey::Pubkey::try_find_program_address` with the
/// one seed: the address derived for the program and its bump seed, or
/// nothing where no bump seed gives a valid address.
#[verifier::external_body]
fn find_program_address(seed: &[u8; 32], program_id: &Pubkey) -> (r: Option<(Pubkey, u8)>)
    ensures
        match r {
            Some((address, bump_seed)) => derived_address(seed@, program_id.bytes@) == Some(
                (address.bytes@, bump_seed),
            ),
            None => derived_address(seed@, program_id.bytes@) is None,
        },
{
    solana_program::pubkey::Pubkey::try_find_program_address(
        &[&seed[..]],
        &solana_program::pubkey::Pubkey::new_from_array(program_id.bytes),
    ).map(|(address, bump_seed)| (Pubkey { bytes: address.to_bytes() }, bump_seed))
}

/// The bump seed, where the address derived is that of the account; an
/// error where it is another or there is none.
pub open spec fn seed_check(key: Pubkey, derived: Option<(Seq<u8>, u8)>) -> Result<
    u8,
    WalletError,
> {
    match derived {
        Some((address, bump_seed)) => if address == key.bytes@ {
            Ok(bump_seed)
        } else {
            Err(WalletError::InvalidSourceAccount)
        },
        None => Err(WalletError::InvalidSourceAccount),
    }
}

/// Holds the address derived for a wallet against the account presented as
/// the wallet's own, and gives the bump seed where they agree.
pub fn check_derived_address(balance_account: &AccountInfo, derived: Option<(Pubkey, u8)>) -> (r:
    Result<u8, WalletError>)
    ensures
        r == seed_check(
            balance_account.key,
            match derived {
                Some((address, bump_seed)) => Some((address.bytes@, bump_seed)),
                None => None,
            },
        ),
{
    match derived {
        Some((address, bump_seed)) => {
            if bytes32_eq(&address.bytes, &balance_account.key.bytes) {
                Ok(bump_seed)
            } else {
                Err(WalletError::InvalidSourceAccount)
            }
        },
        None => Err(WalletError::InvalidSourceAccount),
    }
}

/// Whether the account is the wallet's own: its address must be the one
/// that the program derives from the wallet's identifier. Gives the bump
/// seed that goes with the address.
pub fn validate_balance_account_and_get_seed(
    balance_account: &AccountInfo,
    account_guid_hash: &[u8; 32],
    program_id: &Pubkey,
) -> (r: Result<u8, WalletError>)
    ensures
        r == seed_check(
            balance_account.key,
            derived_address(account_guid_hash@, program_id.bytes@),
        ),
{
    let derived = find_program_address(account_guid_hash, program_id);
    check_derived_address(balance_account, derived)
}

/// Whether the key is that of the account through which the runtime tells
/// the time.
pub uninterp spec fn clock_sysvar_id(key: Seq<u8>) -> bool;

/// The time in seconds that the bytes of the clock account tell, where they
/// decode.
pub uninterp spec fn clock_timestamp(data: Seq<u8>) -> Option<i64>;

/// Calls `solana_program::sysvar::clock::check_id`, which tells whether a key
/// is that of the clock account.
#[verifier::external_body]
fn is_clock_id(key: &Pubkey) -> (r: bool)
    ensures
        r == clock_sysvar_id(key.bytes@),
{
    solana_program::sysvar::clock::check_id(
        &solana_program::pubkey::Pubkey::new_from_array(key.bytes),
    )
}

/// Calls `Sysvar::from_account_info` for `solana_program::clock::Clock` on
/// an account that has the clock's key and stores the given bytes, and
/// takes the time in seconds from the clock that it decodes; nothing where
/// the bytes do not decode.
#[verifier::external_body]
fn read_clock(data: &Vec<u8>) -> (r: Option<i64>)
    ensures
        r == clock_timestamp(data@),
{
    let key = solana_program::sysvar::clock::id();
    let (mut lamports, mut bytes) = (0u64, data.clone());
    let info = solana_program::account_info::AccountInfo::new(&key, false, false, &mut lamports, &mut bytes, &key, false, 0);
    <solana_program::clock::Clock as solana_program::sysvar::Sysvar>::from_account_info(&info).ok().map(|clock| clock.unix_timestamp)
}

/// What reading the time comes to, given whether the account is the clock
/// and what its bytes decode to: the time, or an error where the account is
/// another or its bytes do not decode.
pub open spec fn clock_reading(is_clock: bool, timestamp: Option<i64>) -> Result<i64, WalletError> {
    if !is_clock {
        Err(WalletError::AccountNotRecognized)
    } else {
        match timestamp {
            Some(now) => Ok(now),
            None => Err(WalletError::InvalidArgument),
        }
    }
}

/// The time that an account tells, given whether it is the clock and what
/// its bytes decode to.
pub fn read_time(is_clock: bool, timestamp: Option<i64>) -> (r: Result<i64, WalletError>)
    ensures
        r == clock_reading(is_clock, timestamp),
{
    if !is_clock {
        return Err(WalletError::AccountNotRecognized);
    }
    match timestamp {
        Some(now) => Ok(now),
        None => Err(WalletError::InvalidArgument),
    }
}

/// Takes the next of the accounts, which must be the clock, reads the time
/// in seconds from it, and moves on. Where no account is left the position
/// stays.
pub fn get_clock_from_next_account(accounts: &Vec<AccountInfo>, position: &mut usize) -> (r: Result<
    i64,
    WalletError,
>)
    ensures
        *old(position) >= accounts@.len() ==> r == Err::<i64, WalletError>(
            WalletError::NotEnoughAccountKeys,
        ) && *final(position) == *old(position),
        *old(position) < accounts@.len() ==> *final(position) == *old(position) + 1 && r
            == clock_reading(
            clock_sysvar_id(accounts@[*old(position) as int].key.bytes@),
            clock_timestamp(accounts@[*old(position) as int].data@),
        ),
{
    if *position >= accounts.len() {
        return Err(WalletError::NotEnoughAccountKeys);
    }
    let account = &accounts[*position];
    *position = *position + 1;
    let is_clock = is_clock_id(&account.key);
    let timestamp = if is_clock {
        read_clock(&account.data)
    } else {
        None
    };
    read_time(is_clock, timestamp)
}

} // verus!
