use strike_wallet::account::AccountInfo;
use strike_wallet::error::WalletError;
use strike_wallet::handlers::dapp_transaction_handler::{finalize_executed, FinalizeStep};
use strike_wallet::instruction::{
    AddressBookUpdate, ProgramConfigUpdate, ProgramInstruction, WalletConfigUpdate,
};
use strike_wallet::model::dapp_multisig_data::{DAppBookEntry, DAppMultisigData};
use strike_wallet::model::multisig_op::{ApprovalDisposition, MultisigOp, OperationDisposition};
use strike_wallet::model::program_config::ProgramConfig;
use strike_wallet::model::signer::Signer;
use strike_wallet::model::wallet_config::AddressBookEntry;
use strike_wallet::processor::{Processor, ProgramAccounts};
use strike_wallet::pubkey::Pubkey;

const GUID: [u8; 32] = [5; 32];

fn key(n: u8) -> Pubkey {
    Pubkey::new_from_array([n; 32])
}

fn signer(n: u8) -> Signer {
    Signer::new(key(n))
}

fn account(n: u8, is_signer: bool, lamports: u64) -> AccountInfo {
    AccountInfo::new(key(n), is_signer, lamports, key(200), vec![9])
}

fn own_account() -> AccountInfo {
    let (address, _) = solana_program::pubkey::Pubkey::find_program_address(
        &[&GUID],
        &solana_program::pubkey::Pubkey::new_from_array([200; 32]),
    );
    AccountInfo::new(Pubkey::new_from_array(address.to_bytes()), false, 0, key(200), vec![])
}

fn fresh() -> ProgramAccounts {
    ProgramAccounts {
        program_id: key(200),
        wallet_address: key(50),
        wallet: ProgramConfig::new(),
        multisig_op: MultisigOp::new(),
        multisig_op_account: account(60, false, 500),
        multisig_data: DAppMultisigData::new(),
        multisig_data_account: account(61, false, 800),
        signer: account(99, true, 0),
        balance_account: own_account(),
        rent_return: account(70, true, 10),
    }
}

fn in_use() -> ProgramAccounts {
    let mut accounts = fresh();
    let initial_config = ProgramConfigUpdate {
        approvals_required_for_config: 2,
        approval_timeout_for_config: 3600,
        add_signers: vec![signer(1), signer(2), signer(3)],
        remove_signers: vec![],
        add_config_approvers: vec![signer(1), signer(2), signer(3)],
        remove_config_approvers: vec![],
        add_address_book_entries: vec![],
        remove_address_book_entries: vec![],
    };
    assert_eq!(
        Processor::process(&mut accounts, 1000, &ProgramInstruction::InitWallet { initial_config }),
        Ok(None)
    );
    accounts
}

fn vote(accounts: &mut ProgramAccounts, voter: u8, disposition: ApprovalDisposition, now: i64) {
    accounts.signer = account(voter, true, 0);
    let params_hash = accounts.multisig_op.params_hash().unwrap();
    assert_eq!(
        Processor::process(
            accounts,
            now,
            &ProgramInstruction::SetApprovalDisposition { disposition, params_hash }
        ),
        Ok(None)
    );
}

fn wallet_policy() -> WalletConfigUpdate {
    WalletConfigUpdate {
        name_hash: [7; 32],
        approvals_required_for_transfer: 1,
        approval_timeout_for_transfer: 600,
        add_transfer_approvers: vec![signer(2), signer(3)],
        remove_transfer_approvers: vec![],
        add_allowed_destinations: vec![],
        remove_allowed_destinations: vec![],
    }
}

#[test]
fn wallet_is_taken_into_use_once() {
    let mut accounts = in_use();
    assert!(accounts.wallet.is_initialized);
    assert!(accounts.wallet.assistant == signer(99));
    let again = ProgramConfigUpdate {
        approvals_required_for_config: 0,
        approval_timeout_for_config: 0,
        add_signers: vec![],
        remove_signers: vec![],
        add_config_approvers: vec![],
        remove_config_approvers: vec![],
        add_address_book_entries: vec![],
        remove_address_book_entries: vec![],
    };
    assert_eq!(
        Processor::process(
            &mut accounts,
            1000,
            &ProgramInstruction::InitWallet { initial_config: again }
        ),
        Err(WalletError::AccountAlreadyInitialized)
    );
    assert_eq!(accounts.wallet.approvals_required_for_config, 2);
}

#[test]
fn policy_change_runs_from_proposal_over_votes_to_finalization() {
    let mut accounts = in_use();
    accounts.signer = account(1, true, 0);
    let update = ProgramConfigUpdate {
        approvals_required_for_config: 1,
        approval_timeout_for_config: 100,
        add_signers: vec![signer(4)],
        remove_signers: vec![signer(3)],
        add_config_approvers: vec![],
        remove_config_approvers: vec![],
        add_address_book_entries: vec![],
        remove_address_book_entries: vec![],
    };
    assert_eq!(
        Processor::process(
            &mut accounts,
            2000,
            &ProgramInstruction::InitWalletConfigPolicyUpdate { update: update.clone() }
        ),
        Ok(None)
    );
    assert!(accounts.wallet.config_policy_update_locked);
    assert_eq!(accounts.multisig_op.expires_at(), 5600);
    vote(&mut accounts, 1, ApprovalDisposition::APPROVE, 2001);
    assert_eq!(
        Processor::process(
            &mut accounts,
            2002,
            &ProgramInstruction::FinalizeWalletConfigPolicyUpdate { update: update.clone() }
        ),
        Err(WalletError::TransferDispositionNotFinal)
    );
    vote(&mut accounts, 3, ApprovalDisposition::APPROVE, 2002);
    assert_eq!(accounts.multisig_op.operation_disposition(), OperationDisposition::APPROVED);
    assert_eq!(
        Processor::process(
            &mut accounts,
            2003,
            &ProgramInstruction::FinalizeWalletConfigPolicyUpdate { update: update.clone() }
        ),
        Ok(None)
    );
    assert!(!accounts.wallet.config_policy_update_locked);
    assert_eq!(accounts.wallet.approvals_required_for_config, 1);
    assert_eq!(accounts.wallet.approval_timeout_for_config, 100);
    assert_eq!(accounts.wallet.get_config_approvers_keys(), vec![key(1), key(2)]);
    assert_eq!(accounts.wallet.signers.find_ref(&signer(4)).unwrap().id(), 2);
    assert_eq!(accounts.rent_return.lamports, 510);
    assert_eq!(accounts.multisig_op_account.lamports, 0);
    assert_eq!(
        Processor::process(
            &mut accounts,
            2004,
            &ProgramInstruction::FinalizeWalletConfigPolicyUpdate { update }
        ),
        Err(WalletError::OperationNotInitialized)
    );
    assert_eq!(accounts.rent_return.lamports, 510);
}

#[test]
fn wallet_policy_and_address_book_go_through_operations() {
    let mut accounts = in_use();
    accounts.wallet.add_wallet_config(&GUID, &wallet_policy()).unwrap();
    accounts.signer = account(2, true, 0);
    let mut update = wallet_policy();
    update.approvals_required_for_transfer = 2;
    update.add_transfer_approvers = vec![];
    assert_eq!(
        Processor::process(
            &mut accounts,
            2000,
            &ProgramInstruction::InitBalanceAccountPolicyUpdate {
                account_guid_hash: GUID,
                update: update.clone()
            }
        ),
        Ok(None)
    );
    assert!(accounts.wallet.get_wallet_config(&GUID).unwrap().policy_update_locked);
    vote(&mut accounts, 1, ApprovalDisposition::APPROVE, 2001);
    vote(&mut accounts, 2, ApprovalDisposition::APPROVE, 2001);
    assert_eq!(
        Processor::process(
            &mut accounts,
            2002,
            &ProgramInstruction::FinalizeBalanceAccountPolicyUpdate {
                account_guid_hash: GUID,
                update
            }
        ),
        Ok(None)
    );
    let changed = accounts.wallet.get_wallet_config(&GUID).unwrap();
    assert_eq!(changed.approvals_required_for_transfer, 2);
    assert!(!changed.policy_update_locked);

    accounts.multisig_op_account = account(60, false, 500);
    accounts.signer = account(3, true, 0);
    let change = AddressBookUpdate {
        add_address_book_entries: vec![AddressBookEntry { address: key(10), name_hash: [11; 32] }],
        remove_address_book_entries: vec![],
    };
    assert_eq!(
        Processor::process(
            &mut accounts,
            3000,
            &ProgramInstruction::InitAddressBookUpdate { update: change.clone() }
        ),
        Ok(None)
    );
    vote(&mut accounts, 1, ApprovalDisposition::DENY, 3001);
    vote(&mut accounts, 2, ApprovalDisposition::DENY, 3001);
    assert_eq!(
        Processor::process(
            &mut accounts,
            3002,
            &ProgramInstruction::FinalizeAddressBookUpdate { update: change }
        ),
        Ok(None)
    );
    assert_eq!(accounts.wallet.address_book.count_live_slots(), 0);
    assert!(!accounts.multisig_op.is_initialized());
}

#[test]
fn staged_call_is_simulated_then_executed_once() {
    let mut accounts = in_use();
    accounts.wallet.add_wallet_config(&GUID, &wallet_policy()).unwrap();
    accounts.signer = account(2, true, 0);
    let dapp = DAppBookEntry { address: key(40), name_hash: [41; 32] };
    assert_eq!(
        Processor::process(
            &mut accounts,
            2000,
            &ProgramInstruction::InitDAppTransaction {
                account_guid_hash: GUID,
                dapp,
                instruction_count: 2
            }
        ),
        Ok(None)
    );
    assert_eq!(
        Processor::process(
            &mut accounts,
            2001,
            &ProgramInstruction::FinalizeDAppTransaction {
                account_guid_hash: GUID,
                params_hash: [0; 32]
            }
        ),
        Err(WalletError::TransferDispositionNotFinal)
    );
    for (starting_index, payload) in [(1u8, vec![4u8, 5]), (0u8, vec![1u8, 2, 3])] {
        assert_eq!(
            Processor::process(
                &mut accounts,
                2002,
                &ProgramInstruction::SupplyDAppTransactionInstructions {
                    starting_index,
                    instructions: vec![payload]
                }
            ),
            Ok(None)
        );
    }
    let params_hash = accounts.multisig_data.hash().unwrap();
    let finalize = ProgramInstruction::FinalizeDAppTransaction { account_guid_hash: GUID, params_hash };
    let step = Processor::process(&mut accounts, 2003, &finalize).unwrap().unwrap();
    assert!(matches!(step, FinalizeStep::Simulate { .. }));
    assert!(accounts.multisig_op.is_initialized());

    vote(&mut accounts, 3, ApprovalDisposition::APPROVE, 2004);
    let step = Processor::process(&mut accounts, 2005, &finalize).unwrap().unwrap();
    assert!(matches!(step, FinalizeStep::Execute { .. }));
    assert_eq!(
        finalize_executed(
            &mut accounts.multisig_op,
            &mut accounts.multisig_data,
            &mut accounts.multisig_op_account,
            &mut accounts.multisig_data_account,
            &mut accounts.rent_return
        ),
        Ok(())
    );
    assert_eq!(accounts.rent_return.lamports, 1310);
    assert_eq!(
        Processor::process(&mut accounts, 2006, &finalize),
        Err(WalletError::OperationNotInitialized)
    );
}

#[test]
fn vote_with_a_stale_fingerprint_changes_nothing() {
    let mut accounts = in_use();
    accounts.signer = account(1, true, 0);
    let update = ProgramConfigUpdate {
        approvals_required_for_config: 1,
        approval_timeout_for_config: 100,
        add_signers: vec![],
        remove_signers: vec![],
        add_config_approvers: vec![],
        remove_config_approvers: vec![],
        add_address_book_entries: vec![],
        remove_address_book_entries: vec![],
    };
    Processor::process(
        &mut accounts,
        2000,
        &ProgramInstruction::InitWalletConfigPolicyUpdate { update },
    )
    .unwrap();
    assert_eq!(
        Processor::process(
            &mut accounts,
            2001,
            &ProgramInstruction::SetApprovalDisposition {
                disposition: ApprovalDisposition::APPROVE,
                params_hash: [3; 32]
            }
        ),
        Err(WalletError::InvalidSignature)
    );
    assert_eq!(
        accounts.multisig_op.disposition_records()[0].disposition,
        ApprovalDisposition::NONE
    );
}
