use vstd::prelude::*;
use crate::account::AccountInfo;
use crate::error::WalletError;
use crate::handlers::utils::{
    close_multisig_op, deposit_fits, deposit_returned, finalize_check, finalize_multisig_op,
    start_error, start_multisig_config_op, started,
};
use crate::instruction::WalletConfigUpdate;
use crate::model::multisig_op::{MultisigOp, MultisigOpParams, MultisigOpView};
use crate::model::program_config::{
    approver_keys, has_wallet, initiator_check, lemma_updated_wallet_is_known, ProgramConfig,
};
use crate::pubkey::Pubkey;

verus! {

/// The parameters of an operation that changes a wallet's policy.
pub open spec fn update_params(
    wallet_address: Pubkey,
    account_guid_hash: [u8; 32],
    update: WalletConfigUpdate,
) -> MultisigOpParams {
    MultisigOpParams::UpdateWalletConfig {
        program_config_address: wallet_address,
        wallet_guid_hash: account_guid_hash,
        config_update: update,
    }
}

/// Why the proposal of a change of a wallet's policy is refused, if it is:
/// the caller may not propose, no wallet is known under the identifier, a
/// change of its policy is pending already, the change is not acceptable, or
/// the operation cannot be started.
pub open spec fn init_error(
    wallet: ProgramConfig,
    op: MultisigOpView,
    initiator: AccountInfo,
    now: i64,
    account_guid_hash: [u8; 32],
    update: WalletConfigUpdate,
) -> Option<WalletError> {
    let approvers = approver_keys(wallet.signers@, wallet.config_approvers@);
    if initiator_check(wallet.assistant, initiator, approvers) is Err {
        Some(initiator_check(wallet.assistant, initiator, approvers)->Err_0)
    } else if !has_wallet(wallet@.wallets, account_guid_hash) {
        Some(WalletError::WalletNotFound)
    } else if wallet@.wallet_locked(account_guid_hash) {
        Some(WalletError::ConcurrentOperationsNotAllowed)
    } else if wallet@.wallet_update_error(account_guid_hash, update) is Some {
        wallet@.wallet_update_error(account_guid_hash, update)
    } else {
        start_error(
            op,
            approvers,
            wallet.approvals_required_for_config,
            now,
            wallet.approval_timeout_for_config,
        )
    }
}

/// What proposing a change of a wallet's policy comes to: refused, it
/// changes nothing; accepted, it locks that wallet's policy and starts the
/// operation for those who approve policy changes.
pub open spec fn init_ensures(
    wallet_before: ProgramConfig,
    wallet_after: ProgramConfig,
    op_before: MultisigOp,
    op_after: MultisigOp,
    wallet_address: Pubkey,
    initiator: AccountInfo,
    rent_return: Pubkey,
    now: i64,
    account_guid_hash: [u8; 32],
    update: WalletConfigUpdate,
    r: Result<(), WalletError>,
) -> bool {
    match init_error(wallet_before, op_before@, initiator, now, account_guid_hash, update) {
        Some(e) => {
            &&& r == Err::<(), WalletError>(e)
            &&& wallet_after == wallet_before
            &&& op_after == op_before
        },
        None => {
            &&& r is Ok
            &&& wallet_after@ == wallet_before@.with_wallet_lock(account_guid_hash, true)
            &&& started(
                op_after@,
                approver_keys(wallet_before.signers@, wallet_before.config_approvers@),
                wallet_before.approvals_required_for_config,
                now,
                wallet_before.approval_timeout_for_config,
                update_params(wallet_address, account_guid_hash, update),
                initiator.key,
                rent_return,
            )
        },
    }
}

/// Proposes a change of the policy of the first wallet known under
/// `account_guid_hash`. The caller must be allowed to propose, no other
/// change of that policy may be pending, and the change must be one that
/// `update_wallet_config` would accept now. Then that policy is locked
/// against other changes and the operation is started for those who approve
/// policy changes now. A proposal that is refused changes nothing.
pub fn init(
    wallet: &mut ProgramConfig,
    multisig_op: &mut MultisigOp,
    wallet_address: Pubkey,
    initiator: &AccountInfo,
    rent_return: Pubkey,
    now: i64,
    account_guid_hash: &[u8; 32],
    update: &WalletConfigUpdate,
) -> (r: Result<(), WalletError>)
    requires
        old(wallet).wf(),
        old(multisig_op).wf(),
    ensures
        final(wallet).wf(),
        final(multisig_op).wf(),
        init_ensures(
            *old(wallet),
            *final(wallet),
            *old(multisig_op),
            *final(multisig_op),
            wallet_address,
            *initiator,
            rent_return,
            now,
            *account_guid_hash,
            *update,
            r,
        ),
{
    match wallet.validate_config_initiator(initiator) {
        Ok(()) => {},
        Err(e) => {
            return Err(e);
        },
    }
    match wallet.get_wallet_config(account_guid_hash) {
        Ok(balance_account) => {
            if balance_account.policy_update_locked {
                return Err(WalletError::ConcurrentOperationsNotAllowed);
            }
        },
        Err(e) => {
            return Err(e);
        },
    }
    match wallet.validate_wallet_config_update(account_guid_hash, update) {
        Ok(()) => {},
        Err(e) => {
            return Err(e);
        },
    }
    let params = MultisigOpParams::UpdateWalletConfig {
        program_config_address: wallet_address,
        wallet_guid_hash: *account_guid_hash,
        config_update: update.clone(),
    };
    match start_multisig_config_op(multisig_op, wallet, now, &params, initiator.key, rent_return) {
        Ok(()) => {},
        Err(e) => {
            return Err(e);
        },
    }
    let locked = wallet.lock_wallet_policy_updates(account_guid_hash);
    assert(locked is Ok);
    Ok(())
}

/// Why finalizing a change of a wallet's policy is refused, if it is: the
/// check before finalizing fails, the change was approved and is not
/// acceptable any more, no wallet is known under the identifier, or the
/// deposit cannot be handed over.
pub open spec fn finalize_error(
    wallet: ProgramConfig,
    op: MultisigOpView,
    multisig_op_account: AccountInfo,
    rent_collector: AccountInfo,
    wallet_address: Pubkey,
    now: i64,
    account_guid_hash: [u8; 32],
    update: WalletConfigUpdate,
) -> Option<WalletError> {
    let check = finalize_check(
        op,
        rent_collector,
        now,
        update_params(wallet_address, account_guid_hash, update),
    );
    if check is Err {
        Some(check->Err_0)
    } else if check->Ok_0 && wallet@.wallet_update_error(account_guid_hash, update) is Some {
        wallet@.wallet_update_error(account_guid_hash, update)
    } else if !has_wallet(wallet@.wallets, account_guid_hash) {
        Some(WalletError::WalletNotFound)
    } else if !deposit_fits(multisig_op_account, rent_collector) {
        Some(WalletError::AmountOverflow)
    } else {
        None
    }
}

/// What finalizing a change of a wallet's policy comes to: refused, it
/// changes nothing; else the change is applied if and only if the operation
/// was approved for it, the wallet's policy is unlocked, and the operation's
/// record is reclaimed.
pub open spec fn finalize_ensures(
    wallet_before: ProgramConfig,
    wallet_after: ProgramConfig,
    op_before: MultisigOp,
    op_after: MultisigOp,
    op_account_before: AccountInfo,
    op_account_after: AccountInfo,
    rent_collector_before: AccountInfo,
    rent_collector_after: AccountInfo,
    wallet_address: Pubkey,
    now: i64,
    account_guid_hash: [u8; 32],
    update: WalletConfigUpdate,
    r: Result<(), WalletError>,
) -> bool {
    match finalize_error(
        wallet_before,
        op_before@,
        op_account_before,
        rent_collector_before,
        wallet_address,
        now,
        account_guid_hash,
        update,
    ) {
        Some(e) => {
            &&& r == Err::<(), WalletError>(e)
            &&& wallet_after == wallet_before
            &&& op_after == op_before
            &&& op_account_after == op_account_before
            &&& rent_collector_after == rent_collector_before
        },
        None => {
            &&& r is Ok
            &&& wallet_after@ == (if op_before@.approval_of(
                update_params(wallet_address, account_guid_hash, update),
                now,
            ) == Ok::<bool, WalletError>(true) {
                wallet_before@.updated_for_wallet(account_guid_hash, update)
            } else {
                wallet_before@
            }).with_wallet_lock(account_guid_hash, false)
            &&& op_after@.is_blank()
            &&& deposit_returned(
                op_account_before,
                rent_collector_before,
                op_account_after,
                rent_collector_after,
            )
        },
    }
}

/// Finalizes a change of a wallet's policy: where the operation was approved
/// for exactly this change, the change is applied; where it was denied or
/// has expired, it is not. Either way the wallet's policy is unlocked, the
/// operation's deposit goes to the given account and its record is blank
/// again. Where finalizing is refused, nothing changes.
pub fn finalize(
    wallet: &mut ProgramConfig,
    multisig_op: &mut MultisigOp,
    multisig_op_account: &mut AccountInfo,
    rent_collector: &mut AccountInfo,
    wallet_address: Pubkey,
    now: i64,
    account_guid_hash: &[u8; 32],
    update: &WalletConfigUpdate,
) -> (r: Result<(), WalletError>)
    requires
        old(wallet).wf(),
        old(multisig_op).wf(),
    ensures
        final(wallet).wf(),
        final(multisig_op).wf(),
        finalize_ensures(
            *old(wallet),
            *final(wallet),
            *old(multisig_op),
            *final(multisig_op),
            *old(multisig_op_account),
            *final(multisig_op_account),
            *old(rent_collector),
            *final(rent_collector),
            wallet_address,
            now,
            *account_guid_hash,
            *update,
            r,
        ),
{
    let params = MultisigOpParams::UpdateWalletConfig {
        program_config_address: wallet_address,
        wallet_guid_hash: *account_guid_hash,
        config_update: update.clone(),
    };
    let approved = match finalize_multisig_op(multisig_op, rent_collector, now, &params) {
        Ok(approved) => approved,
        Err(e) => {
            return Err(e);
        },
    };
    if approved {
        match wallet.validate_wallet_config_update(account_guid_hash, update) {
            Ok(()) => {},
            Err(e) => {
                return Err(e);
            },
        }
    }
    match wallet.get_wallet_config_index(account_guid_hash) {
        Ok(_) => {},
        Err(e) => {
            return Err(e);
        },
    }
    match close_multisig_op(multisig_op, multisig_op_account, rent_collector) {
        Ok(()) => {},
        Err(e) => {
            return Err(e);
        },
    }
    if approved {
        let applied = wallet.update_wallet_config(account_guid_hash, update);
        assert(applied is Ok);
    }
    proof {
        if approved {
            lemma_updated_wallet_is_known(old(wallet)@, *account_guid_hash, *update);
        }
    }
    let unlocked = wallet.unlock_wallet_policy_updates(account_guid_hash);
    assert(unlocked is Ok);
    Ok(())
}

/// An operation is finalized once: after a finalization that succeeded the
/// record is blank, and finalizing a blank record is refused, whatever is
/// presented, so the gated change is not applied again.
pub proof fn lemma_finalize_once(
    wallet: ProgramConfig,
    op: MultisigOpView,
    multisig_op_account: AccountInfo,
    rent_collector: AccountInfo,
    wallet_address: Pubkey,
    now: i64,
    account_guid_hash: [u8; 32],
    update: WalletConfigUpdate,
)
    requires
        op.is_blank(),
    ensures
        finalize_error(
            wallet,
            op,
            multisig_op_account,
            rent_collector,
            wallet_address,
            now,
            account_guid_hash,
            update,
        ) is Some,
{
}

} // verus!
