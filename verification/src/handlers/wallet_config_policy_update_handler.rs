use vstd::prelude::*;
use crate::account::AccountInfo;
use crate::error::WalletError;
use crate::handlers::utils::{
    close_multisig_op, deposit_fits, deposit_returned, finalize_check, finalize_multisig_op,
    start_error, start_multisig_config_op, started,
};
use crate::instruction::ProgramConfigUpdate;
use crate::model::multisig_op::{MultisigOp, MultisigOpParams, MultisigOpView};
use crate::model::program_config::{approver_keys, initiator_check, ProgramConfig};
use crate::pubkey::Pubkey;

verus! {

/// The parameters of an operation that changes the program-wide policy.
pub open spec fn update_params(wallet_address: Pubkey, update: ProgramConfigUpdate) -> MultisigOpParams {
    MultisigOpParams::UpdateProgramConfig {
        program_config_address: wallet_address,
        config_update: update,
    }
}

/// Why the proposal of a policy change is refused, if it is: the caller may
/// not propose, a change is pending already, the change is not acceptable,
/// or the operation cannot be started.
pub open spec fn init_error(
    wallet: ProgramConfig,
    op: MultisigOpView,
    initiator: AccountInfo,
    now: i64,
    update: ProgramConfigUpdate,
) -> Option<WalletError> {
    let approvers = approver_keys(wallet.signers@, wallet.config_approvers@);
    if initiator_check(wallet.assistant, initiator, approvers) is Err {
        Some(initiator_check(wallet.assistant, initiator, approvers)->Err_0)
    } else if wallet.config_policy_update_locked {
        Some(WalletError::ConcurrentOperationsNotAllowed)
    } else if !wallet@.accepts(update) {
        Some(WalletError::InvalidArgument)
    } else {
        start_error(
            op,
            approvers,
            wallet.approvals_required_for_config,
            now,
            wallet.approval_timeout_for_config,
        )
    }
}

/// What proposing a policy change comes to: refused, it changes nothing;
/// accepted, it locks the policy and starts the operation for those who
/// approve policy changes, under the threshold and timeout of the policy.
pub open spec fn init_ensures(
    wallet_before: ProgramConfig,
    wallet_after: ProgramConfig,
    op_before: MultisigOp,
    op_after: MultisigOp,
    wallet_address: Pubkey,
    initiator: AccountInfo,
    rent_return: Pubkey,
    now: i64,
    update: ProgramConfigUpdate,
    r: Result<(), WalletError>,
) -> bool {
    match init_error(wallet_before, op_before@, initiator, now, update) {
        Some(e) => {
            &&& r == Err::<(), WalletError>(e)
            &&& wallet_after == wallet_before
            &&& op_after == op_before
        },
        None => {
            &&& r is Ok
            &&& wallet_after@ == wallet_before@.with_config_lock(true)
            &&& started(
                op_after@,
                approver_keys(wallet_before.signers@, wallet_before.config_approvers@),
                wallet_before.approvals_required_for_config,
                now,
                wallet_before.approval_timeout_for_config,
                update_params(wallet_address, update),
                initiator.key,
                rent_return,
            )
        },
    }
}

/// Proposes a change of the program-wide policy. The caller must be allowed
/// to propose, no other change may be pending, and the change must be one
/// that `update` would accept now. Then the policy is locked against other
/// changes and the operation is started for those who approve policy changes
/// now. A proposal that is refused changes nothing.
pub fn init(
    wallet: &mut ProgramConfig,
    multisig_op: &mut MultisigOp,
    wallet_address: Pubkey,
    initiator: &AccountInfo,
    rent_return: Pubkey,
    now: i64,
    update: &ProgramConfigUpdate,
) -> (r: Result<(), WalletError>)
    requires
        old(wallet).wf(),
        old(multisig_op).wf(),
    ensures
        final(wallet).wf(),
        final(multisig_op).wf(),
        init_ensures(
            *old(wallet),
            *final(wallet),
            *old(multisig_op),
            *final(multisig_op),
            wallet_address,
            *initiator,
            rent_return,
            now,
            *update,
            r,
        ),
{
    match wallet.validate_config_initiator(initiator) {
        Ok(()) => {},
        Err(e) => {
            return Err(e);
        },
    }
    if wallet.config_policy_update_locked {
        return Err(WalletError::ConcurrentOperationsNotAllowed);
    }
    match wallet.validate_update(update) {
        Ok(()) => {},
        Err(e) => {
            return Err(e);
        },
    }
    let params = MultisigOpParams::UpdateProgramConfig {
        program_config_address: wallet_address,
        config_update: update.clone(),
    };
    match start_multisig_config_op(multisig_op, wallet, now, &params, initiator.key, rent_return) {
        Ok(()) => {},
        Err(e) => {
            return Err(e);
        },
    }
    wallet.config_policy_update_locked = true;
    Ok(())
}

/// Why finalizing a policy change is refused, if it is: the check before
/// finalizing fails, the change was approved and is not acceptable any more,
/// or the deposit cannot be handed over.
pub open spec fn finalize_error(
    wallet: ProgramConfig,
    op: MultisigOpView,
    multisig_op_account: AccountInfo,
    account_to_return_rent_to: AccountInfo,
    wallet_address: Pubkey,
    now: i64,
    update: ProgramConfigUpdate,
) -> Option<WalletError> {
    let check = finalize_check(
        op,
        account_to_return_rent_to,
        now,
        update_params(wallet_address, update),
    );
    if check is Err {
        Some(check->Err_0)
    } else if check->Ok_0 && !wallet@.accepts(update) {
        Some(WalletError::InvalidArgument)
    } else if !deposit_fits(multisig_op_account, account_to_return_rent_to) {
        Some(WalletError::AmountOverflow)
    } else {
        None
    }
}

/// What finalizing a policy change comes to: refused, it changes nothing;
/// else the change is applied if and only if the operation was approved for
/// it, the policy is unlocked, and the operation's record is reclaimed.
pub open spec fn finalize_ensures(
    wallet_before: ProgramConfig,
    wallet_after: ProgramConfig,
    op_before: MultisigOp,
    op_after: MultisigOp,
    op_account_before: AccountInfo,
    op_account_after: AccountInfo,
    rent_return_before: AccountInfo,
    rent_return_after: AccountInfo,
    wallet_address: Pubkey,
    now: i64,
    update: ProgramConfigUpdate,
    r: Result<(), WalletError>,
) -> bool {
    match finalize_error(
        wallet_before,
        op_before@,
        op_account_before,
        rent_return_before,
        wallet_address,
        now,
        update,
    ) {
        Some(e) => {
            &&& r == Err::<(), WalletError>(e)
            &&& wallet_after == wallet_before
            &&& op_after == op_before
            &&& op_account_after == op_account_before
            &&& rent_return_after == rent_return_before
        },
        None => {
            &&& r is Ok
            &&& wallet_after@ == (if op_before@.approval_of(
                update_params(wallet_address, update),
                now,
            ) == Ok::<bool, WalletError>(true) {
                wallet_before@.updated(update)
            } else {
                wallet_before@
            }).with_config_lock(false)
            &&& op_after@.is_blank()
            &&& deposit_returned(
                op_account_before,
                rent_return_before,
                op_account_after,
                rent_return_after,
            )
        },
    }
}

/// Finalizes a change of the program-wide policy: where the operation was
/// approved for exactly this change, the change is applied; where it was
/// denied or has expired, it is not. Either way the policy is unlocked, the
/// operation's deposit goes to the given account and its record is blank
/// again. Where finalizing is refused, nothing changes.
pub fn finalize(
    wallet: &mut ProgramConfig,
    multisig_op: &mut MultisigOp,
    multisig_op_account: &mut AccountInfo,
    account_to_return_rent_to: &mut AccountInfo,
    wallet_address: Pubkey,
    now: i64,
    update: &ProgramConfigUpdate,
) -> (r: Result<(), WalletError>)
    requires
        old(wallet).wf(),
        old(multisig_op).wf(),
    ensures
        final(wallet).wf(),
        final(multisig_op).wf(),
        finalize_ensures(
            *old(wallet),
            *final(wallet),
            *old(multisig_op),
            *final(multisig_op),
            *old(multisig_op_account),
            *final(multisig_op_account),
            *old(account_to_return_rent_to),
            *final(account_to_return_rent_to),
            wallet_address,
            now,
            *update,
            r,
        ),
{
    let params = MultisigOpParams::UpdateProgramConfig {
        program_config_address: wallet_address,
        config_update: update.clone(),
    };
    let approved = match finalize_multisig_op(multisig_op, account_to_return_rent_to, now, &params) {
        Ok(approved) => approved,
        Err(e) => {
            return Err(e);
        },
    };
    if approved {
        match wallet.validate_update(update) {
            Ok(()) => {},
            Err(e) => {
                return Err(e);
            },
        }
    }
    match close_multisig_op(multisig_op, multisig_op_account, account_to_return_rent_to) {
        Ok(()) => {},
        Err(e) => {
            return Err(e);
        },
    }
    if approved {
        let applied = wallet.update(update);
        assert(applied is Ok);
    }
    wallet.unlock_config_policy_updates();
    Ok(())
}

/// An operation is finalized once: after a finalization that succeeded the
/// record is blank, and finalizing a blank record is refused, whatever is
/// presented, so the gated change is not applied again.
pub proof fn lemma_finalize_once(
    wallet: ProgramConfig,
    op: MultisigOpView,
    multisig_op_account: AccountInfo,
    account_to_return_rent_to: AccountInfo,
    wallet_address: Pubkey,
    now: i64,
    update: ProgramConfigUpdate,
)
    requires
        op.is_blank(),
    ensures
        finalize_error(
            wallet,
            op,
            multisig_op_account,
            account_to_return_rent_to,
            wallet_address,
            now,
            update,
        ) is Some,
{
}

} // verus!
