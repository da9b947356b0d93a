use strike_wallet::account::AccountInfo;
use strike_wallet::error::WalletError;
use strike_wallet::handlers::utils::{
    check_derived_address, close_multisig_op, collect_remaining_balance, finalize_multisig_op,
    get_clock_from_next_account, next_program_account_info, read_time, start_multisig_config_op,
    start_multisig_transfer_op, validate_balance_account_and_get_seed,
};
use strike_wallet::handlers::{
    address_book_update_handler, balance_account_policy_update_handler, init_wallet_handler,
    wallet_config_policy_update_handler,
};
use strike_wallet::instruction::{AddressBookUpdate, ProgramConfigUpdate, WalletConfigUpdate};
use strike_wallet::model::multisig_op::{
    ApprovalDisposition, MultisigOp, MultisigOpParams, OperationDisposition,
};
use strike_wallet::model::program_config::ProgramConfig;
use strike_wallet::model::signer::Signer;
use strike_wallet::model::wallet_config::AddressBookEntry;
use strike_wallet::pubkey::Pubkey;

fn key(n: u8) -> Pubkey {
    Pubkey::new_from_array([n; 32])
}

fn signer(n: u8) -> Signer {
    Signer::new(key(n))
}

fn entry(n: u8) -> AddressBookEntry {
    AddressBookEntry { address: key(n), name_hash: [n.wrapping_add(100); 32] }
}

fn account(n: u8, is_signer: bool, lamports: u64) -> AccountInfo {
    AccountInfo::new(key(n), is_signer, lamports, key(200), vec![1, 2, 3])
}

fn config_update(required: u8, add_approvers: Vec<Signer>, remove: Vec<Signer>) -> ProgramConfigUpdate {
    ProgramConfigUpdate {
        approvals_required_for_config: required,
        approval_timeout_for_config: 3600,
        add_signers: vec![],
        remove_signers: vec![],
        add_config_approvers: add_approvers,
        remove_config_approvers: remove,
        add_address_book_entries: vec![],
        remove_address_book_entries: vec![],
    }
}

fn wallet_update(required: u8, add_approvers: Vec<Signer>) -> WalletConfigUpdate {
    WalletConfigUpdate {
        name_hash: [7; 32],
        approvals_required_for_transfer: required,
        approval_timeout_for_transfer: 600,
        add_transfer_approvers: add_approvers,
        remove_transfer_approvers: vec![],
        add_allowed_destinations: vec![],
        remove_allowed_destinations: vec![],
    }
}

fn wallet() -> ProgramConfig {
    let mut config = ProgramConfig::new();
    let update = ProgramConfigUpdate {
        approvals_required_for_config: 2,
        approval_timeout_for_config: 3600,
        add_signers: vec![signer(1), signer(2), signer(3)],
        remove_signers: vec![],
        add_config_approvers: vec![signer(1), signer(2), signer(3)],
        remove_config_approvers: vec![],
        add_address_book_entries: vec![entry(10)],
        remove_address_book_entries: vec![],
    };
    init_wallet_handler::handle(&mut config, &account(99, false, 0), &update).unwrap();
    config.add_wallet_config(&[5; 32], &wallet_update(1, vec![signer(1), signer(2)])).unwrap();
    config
}

fn approve(op: &mut MultisigOp, voters: &[u8], vote: ApprovalDisposition, now: i64) {
    let hash = op.params_hash().unwrap();
    for n in voters {
        assert_eq!(op.set_disposition(&account(*n, true, 0), vote, &hash, now), Ok(()));
    }
}

#[test]
fn policy_change_is_proposed_approved_and_applied_once() {
    let mut wallet = wallet();
    let mut op = MultisigOp::new();
    let update = config_update(1, vec![], vec![signer(3)]);
    assert_eq!(
        wallet_config_policy_update_handler::init(
            &mut wallet,
            &mut op,
            key(50),
            &account(1, true, 0),
            key(70),
            1000,
            &update
        ),
        Ok(())
    );
    assert!(wallet.config_policy_update_locked);
    assert!(op.is_initialized());
    assert_eq!(op.dispositions_required(), 2);
    assert_eq!(op.started_at(), 1000);
    assert_eq!(op.expires_at(), 4600);
    assert_eq!(op.disposition_records().len(), 3);
    let params = MultisigOpParams::UpdateProgramConfig {
        program_config_address: key(50),
        config_update: update.clone(),
    };
    assert_eq!(op.params_hash(), Some(params.hash()));

    let mut op_account = account(60, false, 500);
    let mut rent_return = account(70, true, 40);
    assert_eq!(
        wallet_config_policy_update_handler::finalize(
            &mut wallet,
            &mut op,
            &mut op_account,
            &mut rent_return,
            key(50),
            1001,
            &update
        ),
        Err(WalletError::TransferDispositionNotFinal)
    );
    assert!(wallet.config_policy_update_locked);
    assert_eq!(op_account.lamports, 500);

    approve(&mut op, &[1, 2], ApprovalDisposition::APPROVE, 1002);
    assert_eq!(op.operation_disposition(), OperationDisposition::APPROVED);
    assert_eq!(
        wallet_config_policy_update_handler::finalize(
            &mut wallet,
            &mut op,
            &mut op_account,
            &mut rent_return,
            key(50),
            1003,
            &update
        ),
        Ok(())
    );
    assert!(!wallet.config_policy_update_locked);
    assert_eq!(wallet.approvals_required_for_config, 1);
    assert_eq!(wallet.get_config_approvers_keys(), vec![key(1), key(2)]);
    assert!(!op.is_initialized());
    assert_eq!(op_account.lamports, 0);
    assert!(op_account.data.is_empty());
    assert_eq!(rent_return.lamports, 540);

    assert_eq!(
        wallet_config_policy_update_handler::finalize(
            &mut wallet,
            &mut op,
            &mut op_account,
            &mut rent_return,
            key(50),
            1004,
            &update
        ),
        Err(WalletError::OperationNotInitialized)
    );
    assert_eq!(wallet.approvals_required_for_config, 1);
    assert_eq!(rent_return.lamports, 540);
}

#[test]
fn second_policy_proposal_waits_for_the_first_to_be_finalized() {
    let mut wallet = wallet();
    let mut first = MultisigOp::new();
    let mut second = MultisigOp::new();
    let update = config_update(1, vec![], vec![]);
    let initiator = account(1, true, 0);
    wallet_config_policy_update_handler::init(
        &mut wallet, &mut first, key(50), &initiator, key(70), 1000, &update,
    )
    .unwrap();
    assert_eq!(
        wallet_config_policy_update_handler::init(
            &mut wallet, &mut second, key(50), &initiator, key(70), 1000, &update,
        ),
        Err(WalletError::ConcurrentOperationsNotAllowed)
    );
    assert!(!second.is_initialized());

    approve(&mut first, &[1, 2], ApprovalDisposition::DENY, 1001);
    assert_eq!(first.operation_disposition(), OperationDisposition::DENIED);
    let mut op_account = account(60, false, 500);
    let mut rent_return = account(70, true, 0);
    assert_eq!(
        wallet_config_policy_update_handler::finalize(
            &mut wallet, &mut first, &mut op_account, &mut rent_return, key(50), 1002, &update,
        ),
        Ok(())
    );
    assert_eq!(wallet.approvals_required_for_config, 2);
    assert!(!wallet.config_policy_update_locked);
    assert_eq!(rent_return.lamports, 500);
    assert_eq!(
        wallet_config_policy_update_handler::init(
            &mut wallet, &mut second, key(50), &initiator, key(70), 1003, &update,
        ),
        Ok(())
    );
}

#[test]
fn policy_proposal_is_refused_without_changing_anything() {
    let mut wallet = wallet();
    let mut op = MultisigOp::new();
    let stranger = account(42, true, 0);
    let unsigned = account(1, false, 0);
    let good = config_update(1, vec![], vec![]);
    let bad = config_update(4, vec![], vec![]);
    assert_eq!(
        wallet_config_policy_update_handler::init(
            &mut wallet, &mut op, key(50), &stranger, key(70), 1000, &good,
        ),
        Err(WalletError::InvalidArgument)
    );
    assert_eq!(
        wallet_config_policy_update_handler::init(
            &mut wallet, &mut op, key(50), &unsigned, key(70), 1000, &good,
        ),
        Err(WalletError::InvalidSignature)
    );
    assert_eq!(
        wallet_config_policy_update_handler::init(
            &mut wallet, &mut op, key(50), &account(1, true, 0), key(70), 1000, &bad,
        ),
        Err(WalletError::InvalidArgument)
    );
    assert_eq!(
        wallet_config_policy_update_handler::init(
            &mut wallet, &mut op, key(50), &account(1, true, 0), key(70), i64::MAX - 10, &good,
        ),
        Err(WalletError::InvalidArgument)
    );
    assert!(!wallet.config_policy_update_locked);
    assert!(!op.is_initialized());
}

#[test]
fn finalize_needs_signed_recipient_and_proposed_parameters() {
    let mut wallet = wallet();
    let mut op = MultisigOp::new();
    let update = config_update(1, vec![], vec![]);
    wallet_config_policy_update_handler::init(
        &mut wallet, &mut op, key(50), &account(1, true, 0), key(70), 1000, &update,
    )
    .unwrap();
    approve(&mut op, &[1, 3], ApprovalDisposition::APPROVE, 1001);
    let mut op_account = account(60, false, 500);
    let mut unsigned = account(70, false, 0);
    assert_eq!(
        wallet_config_policy_update_handler::finalize(
            &mut wallet, &mut op, &mut op_account, &mut unsigned, key(50), 1002, &update,
        ),
        Err(WalletError::MissingRequiredSignature)
    );
    let mut rent_return = account(70, true, u64::MAX - 100);
    let other = config_update(2, vec![], vec![]);
    assert_eq!(
        wallet_config_policy_update_handler::finalize(
            &mut wallet, &mut op, &mut op_account, &mut rent_return, key(50), 1002, &other,
        ),
        Err(WalletError::InvalidSignature)
    );
    assert_eq!(
        wallet_config_policy_update_handler::finalize(
            &mut wallet, &mut op, &mut op_account, &mut rent_return, key(51), 1002, &update,
        ),
        Err(WalletError::InvalidSignature)
    );
    assert_eq!(
        wallet_config_policy_update_handler::finalize(
            &mut wallet, &mut op, &mut op_account, &mut rent_return, key(50), 1002, &update,
        ),
        Err(WalletError::AmountOverflow)
    );
    assert!(op.is_initialized());
    assert!(wallet.config_policy_update_locked);
    assert_eq!(wallet.approvals_required_for_config, 2);
    assert_eq!(op_account.lamports, 500);
}

#[test]
fn expired_policy_change_is_reclaimed_without_effect() {
    let mut wallet = wallet();
    let mut op = MultisigOp::new();
    let update = config_update(1, vec![], vec![]);
    wallet_config_policy_update_handler::init(
        &mut wallet, &mut op, key(50), &account(1, true, 0), key(70), 1000, &update,
    )
    .unwrap();
    approve(&mut op, &[1], ApprovalDisposition::APPROVE, 1001);
    let mut op_account = account(60, false, 500);
    let mut rent_return = account(70, true, 1);
    assert_eq!(
        wallet_config_policy_update_handler::finalize(
            &mut wallet, &mut op, &mut op_account, &mut rent_return, key(50), 4601, &update,
        ),
        Ok(())
    );
    assert_eq!(wallet.approvals_required_for_config, 2);
    assert!(!wallet.config_policy_update_locked);
    assert!(!op.is_initialized());
    assert_eq!(rent_return.lamports, 501);
}

#[test]
fn wallet_policy_change_locks_only_its_wallet() {
    let mut wallet = wallet();
    wallet.add_wallet_config(&[6; 32], &wallet_update(1, vec![signer(3)])).unwrap();
    let mut op = MultisigOp::new();
    let mut other_op = MultisigOp::new();
    let mut third_op = MultisigOp::new();
    let update = wallet_update(2, vec![signer(3)]);
    let initiator = account(2, true, 0);
    assert_eq!(
        balance_account_policy_update_handler::init(
            &mut wallet, &mut op, key(50), &initiator, key(70), 1000, &[5; 32], &update,
        ),
        Ok(())
    );
    assert!(wallet.get_wallet_config(&[5; 32]).unwrap().policy_update_locked);
    assert!(!wallet.get_wallet_config(&[6; 32]).unwrap().policy_update_locked);
    assert_eq!(
        balance_account_policy_update_handler::init(
            &mut wallet, &mut other_op, key(50), &initiator, key(70), 1000, &[5; 32], &update,
        ),
        Err(WalletError::ConcurrentOperationsNotAllowed)
    );
    assert_eq!(
        balance_account_policy_update_handler::init(
            &mut wallet, &mut other_op, key(50), &initiator, key(70), 1000, &[6; 32], &update,
        ),
        Err(WalletError::InvalidArgument)
    );
    assert!(!wallet.get_wallet_config(&[6; 32]).unwrap().policy_update_locked);
    let other_update = wallet_update(2, vec![signer(1)]);
    assert_eq!(
        balance_account_policy_update_handler::init(
            &mut wallet, &mut other_op, key(50), &initiator, key(70), 1000, &[6; 32], &other_update,
        ),
        Ok(())
    );
    assert_eq!(
        balance_account_policy_update_handler::init(
            &mut wallet, &mut third_op, key(50), &initiator, key(70), 1000, &[8; 32], &update,
        ),
        Err(WalletError::WalletNotFound)
    );

    approve(&mut op, &[1, 2], ApprovalDisposition::APPROVE, 1001);
    let mut op_account = account(60, false, 500);
    let mut rent_return = account(70, true, 0);
    assert_eq!(
        balance_account_policy_update_handler::finalize(
            &mut wallet,
            &mut op,
            &mut op_account,
            &mut rent_return,
            key(50),
            1002,
            &[5; 32],
            &update
        ),
        Ok(())
    );
    let changed = wallet.get_wallet_config(&[5; 32]).unwrap();
    assert!(!changed.policy_update_locked);
    assert_eq!(changed.approvals_required_for_transfer, 2);
    assert_eq!(wallet.get_transfer_approvers_keys(changed), vec![key(1), key(2), key(3)]);
    assert!(wallet.get_wallet_config(&[6; 32]).unwrap().policy_update_locked);
    assert_eq!(
        balance_account_policy_update_handler::finalize(
            &mut wallet,
            &mut op,
            &mut op_account,
            &mut rent_return,
            key(50),
            1003,
            &[5; 32],
            &update
        ),
        Err(WalletError::OperationNotInitialized)
    );
}

#[test]
fn address_book_change_goes_through_an_operation() {
    let mut wallet = wallet();
    let mut op = MultisigOp::new();
    let change = AddressBookUpdate {
        add_address_book_entries: vec![entry(11)],
        remove_address_book_entries: vec![entry(10)],
    };
    assert_eq!(
        address_book_update_handler::init(
            &wallet, &mut op, key(50), &account(3, true, 0), key(70), 1000, &change,
        ),
        Ok(())
    );
    let params =
        MultisigOpParams::AddressBookUpdate { program_config_address: key(50), update: change.clone() };
    assert_eq!(op.params_hash(), Some(params.hash()));
    approve(&mut op, &[2, 3], ApprovalDisposition::APPROVE, 1001);
    let mut op_account = account(60, false, 500);
    let mut rent_return = account(70, true, 0);
    assert_eq!(
        address_book_update_handler::finalize(
            &mut wallet, &mut op, &mut op_account, &mut rent_return, key(50), 1002, &change,
        ),
        Ok(())
    );
    assert_eq!(wallet.address_book.find_ref(&entry(11)).unwrap().id(), 0);
    assert!(wallet.address_book.find_ref(&entry(10)).is_none());
    assert!(!op.is_initialized());
    assert_eq!(
        address_book_update_handler::finalize(
            &mut wallet, &mut op, &mut op_account, &mut rent_return, key(50), 1002, &change,
        ),
        Err(WalletError::OperationNotInitialized)
    );
}

#[test]
fn operations_start_with_the_policy_of_their_domain() {
    let wallet = wallet();
    let params = MultisigOpParams::Transfer {
        program_config_address: key(50),
        wallet_guid_hash: [5; 32],
        destination: key(10),
        amount: 1,
        token_mint: key(0),
    };
    let mut transfer_op = MultisigOp::new();
    let balance_account = wallet.get_wallet_config(&[5; 32]).unwrap();
    assert_eq!(
        start_multisig_transfer_op(
            &mut transfer_op, &wallet, balance_account, 2000, &params, key(1), key(70),
        ),
        Ok(())
    );
    assert_eq!(transfer_op.dispositions_required(), 1);
    assert_eq!(transfer_op.expires_at(), 2600);
    assert_eq!(transfer_op.disposition_records().len(), 2);

    let mut config_op = MultisigOp::new();
    assert_eq!(
        start_multisig_config_op(&mut config_op, &wallet, 2000, &params, key(1), key(70)),
        Ok(())
    );
    assert_eq!(config_op.dispositions_required(), 2);
    assert_eq!(config_op.expires_at(), 5600);
    assert_eq!(config_op.disposition_records().len(), 3);
    assert_eq!(
        start_multisig_config_op(&mut config_op, &wallet, 2000, &params, key(1), key(70)),
        Err(WalletError::AccountAlreadyInitialized)
    );

    assert_eq!(
        finalize_multisig_op(&config_op, &account(70, true, 0), 2001, &params),
        Err(WalletError::TransferDispositionNotFinal)
    );
    assert_eq!(
        finalize_multisig_op(&config_op, &account(70, false, 0), 2001, &params),
        Err(WalletError::MissingRequiredSignature)
    );
    assert_eq!(finalize_multisig_op(&config_op, &account(70, true, 0), 5601, &params), Ok(false));
}

#[test]
fn deposit_moves_whole_and_only_if_it_fits() {
    let mut from = account(1, false, 300);
    let mut to = account(2, true, 700);
    assert_eq!(collect_remaining_balance(&mut from, &mut to), Ok(()));
    assert_eq!(from.lamports, 0);
    assert!(from.data.is_empty());
    assert_eq!(to.lamports, 1000);
    assert_eq!(to.data, vec![1, 2, 3]);

    let mut from = account(1, false, 2);
    let mut to = account(2, true, u64::MAX - 1);
    assert_eq!(collect_remaining_balance(&mut from, &mut to), Err(WalletError::AmountOverflow));
    assert_eq!(from.lamports, 2);
    assert_eq!(from.data, vec![1, 2, 3]);
    assert_eq!(to.lamports, u64::MAX - 1);

    let mut op = MultisigOp::new();
    op.init_with_hash(&vec![key(1)], 1, 0, 1, None, key(1), key(2)).unwrap();
    assert_eq!(close_multisig_op(&mut op, &mut from, &mut to), Err(WalletError::AmountOverflow));
    assert!(op.is_initialized());
    let mut to = account(2, true, 5);
    assert_eq!(close_multisig_op(&mut op, &mut from, &mut to), Ok(()));
    assert!(!op.is_initialized());
    assert_eq!(to.lamports, 7);
}

#[test]
fn next_program_account_must_belong_to_the_program() {
    let accounts = vec![
        AccountInfo::new(key(1), false, 0, key(200), vec![]),
        AccountInfo::new(key(2), false, 0, key(201), vec![]),
    ];
    let mut position = 0;
    let first = next_program_account_info(&accounts, &mut position, &key(200)).unwrap();
    assert!(first.key == key(1));
    assert_eq!(position, 1);
    assert_eq!(
        next_program_account_info(&accounts, &mut position, &key(200)).unwrap_err(),
        WalletError::IncorrectProgramId
    );
    assert_eq!(position, 2);
    assert_eq!(
        next_program_account_info(&accounts, &mut position, &key(200)).unwrap_err(),
        WalletError::NotEnoughAccountKeys
    );
    assert_eq!(position, 2);
}

#[test]
fn wallet_account_must_be_the_derived_address() {
    let program_id = key(200);
    let guid = [5u8; 32];
    let (address, bump) = solana_program::pubkey::Pubkey::find_program_address(
        &[&guid],
        &solana_program::pubkey::Pubkey::new_from_array([200; 32]),
    );
    let own = AccountInfo::new(
        Pubkey::new_from_array(address.to_bytes()),
        false,
        0,
        program_id,
        vec![],
    );
    assert_eq!(validate_balance_account_and_get_seed(&own, &guid, &program_id), Ok(bump));
    assert_eq!(
        validate_balance_account_and_get_seed(&own, &[6; 32], &program_id),
        Err(WalletError::InvalidSourceAccount)
    );
    let other = AccountInfo::new(key(1), false, 0, program_id, vec![]);
    assert_eq!(
        validate_balance_account_and_get_seed(&other, &guid, &program_id),
        Err(WalletError::InvalidSourceAccount)
    );
    assert_eq!(check_derived_address(&other, Some((key(1), 254))), Ok(254));
    assert_eq!(
        check_derived_address(&other, Some((key(2), 254))),
        Err(WalletError::InvalidSourceAccount)
    );
    assert_eq!(check_derived_address(&other, None), Err(WalletError::InvalidSourceAccount));
}

#[test]
fn time_is_read_from_the_clock_account_only() {
    let clock_key = Pubkey::new_from_array(solana_program::sysvar::clock::id().to_bytes());
    let mut data = vec![0u8; 40];
    data[0..8].copy_from_slice(&77u64.to_le_bytes());
    data[32..40].copy_from_slice(&1_650_000_000i64.to_le_bytes());
    let accounts = vec![
        AccountInfo::new(key(1), false, 0, key(200), data.clone()),
        AccountInfo::new(clock_key, false, 0, key(200), data.clone()),
        AccountInfo::new(clock_key, false, 0, key(200), vec![1, 2, 3]),
    ];
    let mut position = 0;
    assert_eq!(
        get_clock_from_next_account(&accounts, &mut position),
        Err(WalletError::AccountNotRecognized)
    );
    assert_eq!(position, 1);
    assert_eq!(get_clock_from_next_account(&accounts, &mut position), Ok(1_650_000_000));
    assert_eq!(position, 2);
    assert_eq!(
        get_clock_from_next_account(&accounts, &mut position),
        Err(WalletError::InvalidArgument)
    );
    assert_eq!(position, 3);
    assert_eq!(
        get_clock_from_next_account(&accounts, &mut position),
        Err(WalletError::NotEnoughAccountKeys)
    );
    assert_eq!(position, 3);
    assert_eq!(read_time(true, Some(-5)), Ok(-5));
    assert_eq!(read_time(true, None), Err(WalletError::InvalidArgument));
    assert_eq!(read_time(false, Some(9)), Err(WalletError::AccountNotRecognized));
}
