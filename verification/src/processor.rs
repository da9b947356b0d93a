use vstd::prelude::*;
use crate::account::AccountInfo;
use crate::error::WalletError;
use crate::handlers::dapp_transaction_handler::{finalize_step, FinalizeStep};
use crate::handlers::utils::derived_address;
use crate::handlers::{
    address_book_update_handler, balance_account_policy_update_handler, dapp_transaction_handler,
    init_wallet_handler, wallet_config_policy_update_handler,
};
use crate::instruction::ProgramInstruction;
use crate::model::dapp_multisig_data::DAppMultisigData;
use crate::model::multisig_op::MultisigOp;
use crate::model::program_config::ProgramConfig;
use crate::pubkey::Pubkey;

verus! {

/// What a call works on: the program's own address, the records that the
/// call may read and change, each with the account that pays for its
/// storage where the call may reclaim it, and the accounts of those who take
/// part in the call.
#[derive(Debug)]
pub struct ProgramAccounts {
    pub program_id: Pubkey,
    pub wallet_address: Pubkey,
    pub wallet: ProgramConfig,
    pub multisig_op: MultisigOp,
    pub multisig_op_account: AccountInfo,
    pub multisig_data: DAppMultisigData,
    pub multisig_data_account: AccountInfo,
    /// Who makes the call: the one who proposes, votes or supplies.
    pub signer: AccountInfo,
    /// The account presented as the wallet's own.
    pub balance_account: AccountInfo,
    /// Who gets deposits back.
    pub rent_return: AccountInfo,
}

impl ProgramAccounts {
    /// The records are in order.
    pub open spec fn wf(&self) -> bool {
        &&& self.wallet.wf()
        &&& self.multisig_op.wf()
        &&& self.multisig_data.wf()
    }
}

/// The result of a handler that returns nothing, seen as one of the
/// program.
pub open spec fn lifted(r: Result<Option<FinalizeStep>, WalletError>) -> Result<(), WalletError> {
    match r {
        Ok(_) => Ok(()),
        Err(e) => Err(e),
    }
}

/// What a call comes to: what the handler of its instruction comes to, with
/// everything that the handler is not handed as it was. Only finalizing a
/// staged call answers with a step to take.
pub open spec fn processed(
    before: ProgramAccounts,
    after: ProgramAccounts,
    now: i64,
    instruction: ProgramInstruction,
    r: Result<Option<FinalizeStep>, WalletError>,
) -> bool {
    match instruction {
        ProgramInstruction::InitWallet { initial_config } => {
            &&& after == (ProgramAccounts { wallet: after.wallet, ..before })
            &&& r is Ok ==> r->Ok_0 is None
            &&& init_wallet_handler::handle_ensures(
                before.wallet,
                after.wallet,
                before.signer,
                initial_config,
                lifted(r),
            )
        },
        ProgramInstruction::InitWalletConfigPolicyUpdate { update } => {
            &&& after == (ProgramAccounts {
                wallet: after.wallet,
                multisig_op: after.multisig_op,
                ..before
            })
            &&& r is Ok ==> r->Ok_0 is None
            &&& wallet_config_policy_update_handler::init_ensures(
                before.wallet,
                after.wallet,
                before.multisig_op,
                after.multisig_op,
                before.wallet_address,
                before.signer,
                before.rent_return.key,
                now,
                update,
                lifted(r),
            )
        },
        ProgramInstruction::FinalizeWalletConfigPolicyUpdate { update } => {
            &&& after == (ProgramAccounts {
                wallet: after.wallet,
                multisig_op: after.multisig_op,
                multisig_op_account: after.multisig_op_account,
                rent_return: after.rent_return,
                ..before
            })
            &&& r is Ok ==> r->Ok_0 is None
            &&& wallet_config_policy_update_handler::finalize_ensures(
                before.wallet,
                after.wallet,
                before.multisig_op,
                after.multisig_op,
                before.multisig_op_account,
                after.multisig_op_account,
                before.rent_return,
                after.rent_return,
                before.wallet_address,
                now,
                update,
                lifted(r),
            )
        },
        ProgramInstruction::InitBalanceAccountPolicyUpdate { account_guid_hash, update } => {
            &&& after == (ProgramAccounts {
                wallet: after.wallet,
                multisig_op: after.multisig_op,
                ..before
            })
            &&& r is Ok ==> r->Ok_0 is None
            &&& balance_account_policy_update_handler::init_ensures(
                before.wallet,
                after.wallet,
                before.multisig_op,
                after.multisig_op,
                before.wallet_address,
                before.signer,
                before.rent_return.key,
                now,
                account_guid_hash,
                update,
                lifted(r),
            )
        },
        ProgramInstruction::FinalizeBalanceAccountPolicyUpdate { account_guid_hash, update } => {
            &&& after == (ProgramAccounts {
                wallet: after.wallet,
                multisig_op: after.multisig_op,
                multisig_op_account: after.multisig_op_account,
                rent_return: after.rent_return,
                ..before
            })
            &&& r is Ok ==> r->Ok_0 is None
            &&& balance_account_policy_update_handler::finalize_ensures(
                before.wallet,
                after.wallet,
                before.multisig_op,
                after.multisig_op,
                before.multisig_op_account,
                after.multisig_op_account,
                before.rent_return,
                after.rent_return,
                before.wallet_address,
                now,
                account_guid_hash,
                update,
                lifted(r),
            )
        },
        ProgramInstruction::InitAddressBookUpdate { update } => {
            &&& after == (ProgramAccounts { multisig_op: after.multisig_op, ..before })
            &&& r is Ok ==> r->Ok_0 is None
            &&& address_book_update_handler::init_ensures(
                before.wallet,
                before.multisig_op,
                after.multisig_op,
                before.wallet_address,
                before.signer,
                before.rent_return.key,
                now,
                update,
                lifted(r),
            )
        },
        ProgramInstruction::FinalizeAddressBookUpdate { update } => {
            &&& after == (ProgramAccounts {
                wallet: after.wallet,
                multisig_op: after.multisig_op,
                multisig_op_account: after.multisig_op_account,
                rent_return: after.rent_return,
                ..before
            })
            &&& r is Ok ==> r->Ok_0 is None
            &&& address_book_update_handler::finalize_ensures(
                before.wallet,
                after.wallet,
                before.multisig_op,
                after.multisig_op,
                before.multisig_op_account,
                after.multisig_op_account,
                before.rent_return,
                after.rent_return,
                before.wallet_address,
                now,
                update,
                lifted(r),
            )
        },
        ProgramInstruction::SetApprovalDisposition { disposition, params_hash } => {
            &&& after == (ProgramAccounts { multisig_op: after.multisig_op, ..before })
            &&& r is Ok ==> r->Ok_0 is None
            &&& match before.multisig_op@.vote_error(before.signer, params_hash) {
                Some(e) => lifted(r) == Err::<(), WalletError>(e) && after.multisig_op
                    == before.multisig_op,
                None => r is Ok && after.multisig_op@ == before.multisig_op@.with_vote(
                    before.signer.key,
                    disposition,
                    now,
                ),
            }
        },
        ProgramInstruction::InitDAppTransaction { account_guid_hash, dapp, instruction_count } => {
            &&& after == (ProgramAccounts {
                multisig_op: after.multisig_op,
                multisig_data: after.multisig_data,
                ..before
            })
            &&& r is Ok ==> r->Ok_0 is None
            &&& dapp_transaction_handler::init_ensures(
                before.wallet,
                before.multisig_op,
                after.multisig_op,
                before.multisig_data,
                after.multisig_data,
                before.wallet_address,
                before.signer,
                before.rent_return.key,
                now,
                account_guid_hash,
                dapp,
                instruction_count,
                lifted(r),
            )
        },
        ProgramInstruction::SupplyDAppTransactionInstructions { starting_index, instructions } => {
            &&& after == (ProgramAccounts {
                multisig_op: after.multisig_op,
                multisig_data: after.multisig_data,
                ..before
            })
            &&& r is Ok ==> r->Ok_0 is None
            &&& dapp_transaction_handler::supply_ensures(
                before.multisig_op,
                after.multisig_op,
                before.multisig_data,
                after.multisig_data,
                before.signer,
                starting_index,
                instructions@,
                lifted(r),
            )
        },
        ProgramInstruction::FinalizeDAppTransaction { account_guid_hash, params_hash } => {
            &&& after == before
            &&& match finalize_step(
                before.multisig_op@,
                before.multisig_data@,
                before.balance_account,
                before.rent_return,
                before.wallet_address,
                account_guid_hash,
                params_hash@ == before.multisig_data@.fingerprint(),
                before.multisig_op@.params_hash == Some(params_hash),
                derived_address(account_guid_hash@, before.program_id.bytes@),
                now,
            ) {
                Ok(step) => r == Ok::<Option<FinalizeStep>, WalletError>(Some(step)),
                Err(e) => r == Err::<Option<FinalizeStep>, WalletError>(e),
            }
        },
    }
}

/// The entry point of the program.
pub struct Processor;

impl Processor {
    /// Handles one call: hands the instruction to its handler with the
    /// records and accounts that the handler takes. A call that is refused
    /// changes nothing. Finalizing a staged call answers with the step that
    /// the caller is to take; every other call that succeeds answers with
    /// none.
    pub fn process(
        accounts: &mut ProgramAccounts,
        now: i64,
        instruction: &ProgramInstruction,
    ) -> (r: Result<Option<FinalizeStep>, WalletError>)
        requires
            old(accounts).wf(),
        ensures
            final(accounts).wf(),
            processed(*old(accounts), *final(accounts), now, *instruction, r),
    {
        let done = match instruction {
            ProgramInstruction::InitWallet { initial_config } => init_wallet_handler::handle(
                &mut accounts.wallet,
                &accounts.signer,
                initial_config,
            ),
            ProgramInstruction::InitWalletConfigPolicyUpdate {
                update,
            } => wallet_config_policy_update_handler::init(
                &mut accounts.wallet,
                &mut accounts.multisig_op,
                accounts.wallet_address,
                &accounts.signer,
                accounts.rent_return.key,
                now,
                update,
            ),
            ProgramInstruction::FinalizeWalletConfigPolicyUpdate {
                update,
            } => wallet_config_policy_update_handler::finalize(
                &mut accounts.wallet,
                &mut accounts.multisig_op,
                &mut accounts.multisig_op_account,
                &mut accounts.rent_return,
                accounts.wallet_address,
                now,
                update,
            ),
            ProgramInstruction::InitBalanceAccountPolicyUpdate {
                account_guid_hash,
                update,
            } => balance_account_policy_update_handler::init(
                &mut accounts.wallet,
                &mut accounts.multisig_op,
                accounts.wallet_address,
                &accounts.signer,
                accounts.rent_return.key,
                now,
                account_guid_hash,
                update,
            ),
            ProgramInstruction::FinalizeBalanceAccountPolicyUpdate {
                account_guid_hash,
                update,
            } => balance_account_policy_update_handler::finalize(
                &mut accounts.wallet,
                &mut accounts.multisig_op,
                &mut accounts.multisig_op_account,
                &mut accounts.rent_return,
                accounts.wallet_address,
                now,
                account_guid_hash,
                update,
            ),
            ProgramInstruction::InitAddressBookUpdate {
                update,
            } => address_book_update_handler::init(
                &accounts.wallet,
                &mut accounts.multisig_op,
                accounts.wallet_address,
                &accounts.signer,
                accounts.rent_return.key,
                now,
                update,
            ),
            ProgramInstruction::FinalizeAddressBookUpdate {
                update,
            } => address_book_update_handler::finalize(
                &mut accounts.wallet,
                &mut accounts.multisig_op,
                &mut accounts.multisig_op_account,
                &mut accounts.rent_return,
                accounts.wallet_address,
                now,
                update,
            ),
            ProgramInstruction::SetApprovalDisposition {
                disposition,
                params_hash,
            } => accounts.multisig_op.set_disposition(
                &accounts.signer,
                *disposition,
                params_hash,
                now,
            ),
            ProgramInstruction::InitDAppTransaction {
                account_guid_hash,
                dapp,
                instruction_count,
            } => dapp_transaction_handler::init(
                &accounts.wallet,
                &mut accounts.multisig_op,
                &mut accounts.multisig_data,
                accounts.wallet_address,
                &accounts.signer,
                accounts.rent_return.key,
                now,
                account_guid_hash,
                *dapp,
                *instruction_count,
            ),
            ProgramInstruction::SupplyDAppTransactionInstructions {
                starting_index,
                instructions,
            } => dapp_transaction_handler::supply_instructions(
                &mut accounts.multisig_op,
                &mut accounts.multisig_data,
                &accounts.signer,
                *starting_index,
                instructions,
            ),
            ProgramInstruction::FinalizeDAppTransaction { account_guid_hash, params_hash } => {
                return match dapp_transaction_handler::finalize(
                    &accounts.multisig_op,
                    &accounts.multisig_data,
                    &accounts.balance_account,
                    &accounts.rent_return,
                    &accounts.program_id,
                    &accounts.wallet_address,
                    account_guid_hash,
                    params_hash,
                    now,
                ) {
                    Ok(step) => Ok(Some(step)),
                    Err(e) => Err(e),
                };
            },
        };
        match done {
            Ok(()) => Ok(None),
            Err(e) => Err(e),
        }
    }
}

} // verus!
