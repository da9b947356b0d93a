use strike_wallet::account::AccountInfo;
use strike_wallet::error::WalletError;
use strike_wallet::handlers::dapp_transaction_handler::{
    finalize, finalize_executed, init, supply_instructions, FinalizeStep,
};
use strike_wallet::handlers::init_wallet_handler;
use strike_wallet::instruction::{ProgramConfigUpdate, WalletConfigUpdate};
use strike_wallet::model::dapp_multisig_data::{DAppBookEntry, DAppMultisigData};
use strike_wallet::model::multisig_op::{ApprovalDisposition, MultisigOp, OperationDisposition};
use strike_wallet::model::program_config::ProgramConfig;
use strike_wallet::model::signer::Signer;
use strike_wallet::pubkey::Pubkey;

const GUID: [u8; 32] = [5; 32];

fn key(n: u8) -> Pubkey {
    Pubkey::new_from_array([n; 32])
}

fn signer(n: u8) -> Signer {
    Signer::new(key(n))
}

fn account(n: u8, is_signer: bool, lamports: u64) -> AccountInfo {
    AccountInfo::new(key(n), is_signer, lamports, key(200), vec![9])
}

fn dapp() -> DAppBookEntry {
    DAppBookEntry { address: key(40), name_hash: [41; 32] }
}

fn wallet() -> ProgramConfig {
    let mut config = ProgramConfig::new();
    let update = ProgramConfigUpdate {
        approvals_required_for_config: 1,
        approval_timeout_for_config: 3600,
        add_signers: vec![signer(1), signer(2), signer(3)],
        remove_signers: vec![],
        add_config_approvers: vec![signer(1)],
        remove_config_approvers: vec![],
        add_address_book_entries: vec![],
        remove_address_book_entries: vec![],
    };
    init_wallet_handler::handle(&mut config, &account(99, false, 0), &update).unwrap();
    let policy = WalletConfigUpdate {
        name_hash: [7; 32],
        approvals_required_for_transfer: 2,
        approval_timeout_for_transfer: 600,
        add_transfer_approvers: vec![signer(2), signer(3)],
        remove_transfer_approvers: vec![],
        add_allowed_destinations: vec![],
        remove_allowed_destinations: vec![],
    };
    config.add_wallet_config(&GUID, &policy).unwrap();
    config
}

fn own_account() -> AccountInfo {
    let (address, _) = solana_program::pubkey::Pubkey::find_program_address(
        &[&GUID],
        &solana_program::pubkey::Pubkey::new_from_array([200; 32]),
    );
    AccountInfo::new(Pubkey::new_from_array(address.to_bytes()), false, 0, key(200), vec![])
}

fn bump() -> u8 {
    solana_program::pubkey::Pubkey::find_program_address(
        &[&GUID],
        &solana_program::pubkey::Pubkey::new_from_array([200; 32]),
    )
    .1
}

fn proposed(count: u8) -> (MultisigOp, DAppMultisigData) {
    let mut op = MultisigOp::new();
    let mut data = DAppMultisigData::new();
    assert_eq!(
        init(
            &wallet(),
            &mut op,
            &mut data,
            key(50),
            &account(2, true, 0),
            key(70),
            1000,
            &GUID,
            dapp(),
            count
        ),
        Ok(())
    );
    (op, data)
}

#[test]
fn staged_call_is_proposed_with_open_fingerprint() {
    let (op, data) = proposed(2);
    assert!(op.is_initialized());
    assert_eq!(op.params_hash(), None);
    assert_eq!(op.dispositions_required(), 1);
    assert_eq!(op.expires_at(), 1600);
    assert_eq!(op.disposition_records().len(), 2);
    assert!(op.disposition_records()[0].approver == key(2));
    assert!(op.initiator() == key(2));
    assert!(data.is_initialized());
    assert_eq!(data.num_instructions(), 2);
    assert!(!data.all_instructions_supplied());
}

#[test]
fn staged_call_proposal_is_refused_for_strangers_and_unknown_wallets() {
    let mut op = MultisigOp::new();
    let mut data = DAppMultisigData::new();
    let wallet = wallet();
    assert_eq!(
        init(&wallet, &mut op, &mut data, key(50), &account(1, true, 0), key(70), 1000, &GUID, dapp(), 2),
        Err(WalletError::InvalidArgument)
    );
    assert_eq!(
        init(&wallet, &mut op, &mut data, key(50), &account(2, false, 0), key(70), 1000, &GUID, dapp(), 2),
        Err(WalletError::InvalidSignature)
    );
    assert_eq!(
        init(&wallet, &mut op, &mut data, key(50), &account(2, true, 0), key(70), 1000, &[6; 32], dapp(), 2),
        Err(WalletError::WalletNotFound)
    );
    assert!(!op.is_initialized());
    assert!(!data.is_initialized());
    assert_eq!(
        init(&wallet, &mut op, &mut data, key(50), &account(99, true, 0), key(70), 1000, &GUID, dapp(), 2),
        Ok(())
    );
    assert_eq!(
        init(&wallet, &mut op, &mut data, key(50), &account(99, true, 0), key(70), 1000, &GUID, dapp(), 2),
        Err(WalletError::AccountAlreadyInitialized)
    );
}

#[test]
fn last_supply_binds_the_operation_to_the_staged_call() {
    let (mut op, mut data) = proposed(2);
    let initiator = account(2, true, 0);
    assert_eq!(supply_instructions(&mut op, &mut data, &initiator, 1, &vec![vec![4, 5]]), Ok(()));
    assert_eq!(op.params_hash(), None);
    assert_eq!(
        op.set_disposition(&account(3, true, 0), ApprovalDisposition::APPROVE, &[0; 32], 1001),
        Err(WalletError::InvalidSignature)
    );
    assert_eq!(supply_instructions(&mut op, &mut data, &initiator, 0, &vec![vec![1, 2, 3]]), Ok(()));
    let hash = data.hash().unwrap();
    assert_eq!(op.params_hash(), Some(hash));
    assert_eq!(
        supply_instructions(&mut op, &mut data, &initiator, 0, &vec![vec![1, 2, 3]]),
        Err(WalletError::DAppInstructionAlreadySupplied)
    );
    assert_eq!(
        op.set_disposition(&account(3, true, 0), ApprovalDisposition::APPROVE, &hash, 1001),
        Ok(())
    );
    assert_eq!(op.operation_disposition(), OperationDisposition::APPROVED);
}

#[test]
fn supply_errors_leave_the_records_alone() {
    let (mut op, mut data) = proposed(2);
    let initiator = account(2, true, 0);
    assert_eq!(
        supply_instructions(&mut op, &mut data, &initiator, 2, &vec![vec![1]]),
        Err(WalletError::DAppInstructionOverflow)
    );
    assert_eq!(supply_instructions(&mut op, &mut data, &initiator, 0, &vec![vec![1]]), Ok(()));
    assert_eq!(
        supply_instructions(&mut op, &mut data, &initiator, 0, &vec![vec![2]]),
        Err(WalletError::DAppInstructionAlreadySupplied)
    );
    assert_eq!(
        supply_instructions(&mut op, &mut data, &account(3, true, 0), 1, &vec![vec![2]]),
        Err(WalletError::InvalidSignature)
    );
    assert_eq!(
        supply_instructions(&mut op, &mut data, &account(2, false, 0), 1, &vec![vec![2]]),
        Err(WalletError::InvalidSignature)
    );
    assert!(!data.all_instructions_supplied());
    assert_eq!(op.params_hash(), None);
    let mut blank_op = MultisigOp::new();
    assert_eq!(
        supply_instructions(&mut blank_op, &mut data, &initiator, 1, &vec![vec![2]]),
        Err(WalletError::OperationNotInitialized)
    );
}

#[test]
fn finalize_before_all_instructions_arrive_runs_nothing() {
    let (mut op, mut data) = proposed(2);
    let initiator = account(2, true, 0);
    supply_instructions(&mut op, &mut data, &initiator, 1, &vec![vec![4, 5]]).unwrap();
    assert_eq!(
        finalize(&op, &data, &own_account(), &account(70, true, 0), &key(200), &key(50), &GUID, &[0; 32], 1001),
        Err(WalletError::TransferDispositionNotFinal)
    );
    let blank = DAppMultisigData::new();
    assert_eq!(
        finalize(&op, &blank, &own_account(), &account(70, true, 0), &key(200), &key(50), &GUID, &[0; 32], 1001),
        Err(WalletError::OperationNotInitialized)
    );
}

#[test]
fn finalize_without_approval_is_a_dry_run_and_with_approval_is_real() {
    let (mut op, mut data) = proposed(2);
    let initiator = account(2, true, 0);
    supply_instructions(&mut op, &mut data, &initiator, 1, &vec![vec![4, 5]]).unwrap();
    supply_instructions(&mut op, &mut data, &initiator, 0, &vec![vec![1, 2, 3]]).unwrap();
    let hash = data.hash().unwrap();
    let rent = account(70, true, 10);
    assert_eq!(
        finalize(&op, &data, &own_account(), &rent, &key(200), &key(50), &GUID, &hash, 1001),
        Ok(FinalizeStep::Simulate { bump_seed: bump() })
    );
    assert_eq!(
        finalize(&op, &data, &own_account(), &rent, &key(200), &key(50), &GUID, &[1; 32], 1001),
        Err(WalletError::InvalidSignature)
    );
    assert_eq!(
        finalize(&op, &data, &own_account(), &account(70, false, 0), &key(200), &key(50), &GUID, &hash, 1001),
        Err(WalletError::MissingRequiredSignature)
    );
    assert_eq!(
        finalize(&op, &data, &account(1, false, 0), &rent, &key(200), &key(50), &GUID, &hash, 1001),
        Err(WalletError::InvalidSourceAccount)
    );
    op.set_disposition(&account(2, true, 0), ApprovalDisposition::APPROVE, &hash, 1002).unwrap();
    assert_eq!(
        finalize(&op, &data, &own_account(), &rent, &key(200), &key(50), &GUID, &hash, 1003),
        Ok(FinalizeStep::Execute { bump_seed: bump() })
    );
    assert_eq!(data.instructions(), Ok(vec![vec![1, 2, 3], vec![4, 5]]));

    let mut op_account = account(60, false, 500);
    let mut data_account = account(61, false, 800);
    let mut rent = rent;
    assert_eq!(
        finalize_executed(&mut op, &mut data, &mut op_account, &mut data_account, &mut rent),
        Ok(())
    );
    assert_eq!(rent.lamports, 1310);
    assert_eq!(op_account.lamports, 0);
    assert_eq!(data_account.lamports, 0);
    assert!(data_account.data.is_empty());
    assert!(!op.is_initialized());
    assert!(!data.is_initialized());
    assert_eq!(
        finalize(&op, &data, &own_account(), &rent, &key(200), &key(50), &GUID, &hash, 1004),
        Err(WalletError::OperationNotInitialized)
    );
}

#[test]
fn staged_call_is_finalized_for_its_own_wallet_only() {
    let (mut op, mut data) = proposed(1);
    supply_instructions(&mut op, &mut data, &account(2, true, 0), 0, &vec![vec![1]]).unwrap();
    let hash = data.hash().unwrap();
    let rent = account(70, true, 10);
    op.set_disposition(&account(2, true, 0), ApprovalDisposition::APPROVE, &hash, 1002).unwrap();
    assert_eq!(
        finalize(&op, &data, &own_account(), &rent, &key(200), &key(50), &[6; 32], &hash, 1003),
        Err(WalletError::InvalidSignature)
    );
    assert_eq!(
        finalize(&op, &data, &own_account(), &rent, &key(200), &key(51), &GUID, &hash, 1003),
        Err(WalletError::InvalidSignature)
    );
    assert_eq!(
        finalize(&op, &data, &own_account(), &rent, &key(200), &key(50), &GUID, &hash, 1003),
        Ok(FinalizeStep::Execute { bump_seed: bump() })
    );
}

#[test]
fn denied_or_expired_staged_call_is_only_reclaimed() {
    let (mut op, mut data) = proposed(1);
    supply_instructions(&mut op, &mut data, &account(2, true, 0), 0, &vec![vec![1]]).unwrap();
    let hash = data.hash().unwrap();
    let rent = account(70, true, 10);
    assert_eq!(
        finalize(&op, &data, &own_account(), &rent, &key(200), &key(50), &GUID, &hash, 1601),
        Ok(FinalizeStep::Reclaim)
    );
    op.set_disposition(&account(2, true, 0), ApprovalDisposition::DENY, &hash, 1002).unwrap();
    op.set_disposition(&account(3, true, 0), ApprovalDisposition::DENY, &hash, 1002).unwrap();
    assert_eq!(op.operation_disposition(), OperationDisposition::DENIED);
    assert_eq!(
        finalize(&op, &data, &account(1, false, 0), &rent, &key(200), &key(50), &GUID, &hash, 1003),
        Ok(FinalizeStep::Reclaim)
    );
}

#[test]
fn deposits_that_do_not_fit_are_not_moved() {
    let (mut op, mut data) = proposed(0);
    let mut op_account = account(60, false, 500);
    let mut data_account = account(61, false, 800);
    let mut rent = account(70, true, u64::MAX - 1000);
    assert_eq!(
        finalize_executed(&mut op, &mut data, &mut op_account, &mut data_account, &mut rent),
        Err(WalletError::AmountOverflow)
    );
    assert!(op.is_initialized());
    assert!(data.is_initialized());
    assert_eq!(op_account.lamports, 500);
    assert_eq!(data_account.lamports, 800);
    assert_eq!(rent.lamports, u64::MAX - 1000);
}
