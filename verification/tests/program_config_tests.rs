use strike_wallet::account::AccountInfo;
use strike_wallet::error::WalletError;
use strike_wallet::handlers::init_wallet_handler;
use strike_wallet::instruction::{AddressBookUpdate, ProgramConfigUpdate, WalletConfigUpdate};
use strike_wallet::model::program_config::{ProgramConfig, MAX_WALLETS};
use strike_wallet::model::signer::Signer;
use strike_wallet::model::wallet_config::{AddressBookEntry, MAX_SIGNERS};
use strike_wallet::pubkey::Pubkey;

fn key(n: u8) -> Pubkey {
    Pubkey::new_from_array([n; 32])
}

fn signer(n: u8) -> Signer {
    Signer::new(key(n))
}

fn entry(n: u8) -> AddressBookEntry {
    AddressBookEntry { address: key(n), name_hash: [n.wrapping_add(100); 32] }
}

fn config_update(
    required: u8,
    add_signers: Vec<Signer>,
    remove_signers: Vec<Signer>,
    add_approvers: Vec<Signer>,
    remove_approvers: Vec<Signer>,
) -> ProgramConfigUpdate {
    ProgramConfigUpdate {
        approvals_required_for_config: required,
        approval_timeout_for_config: 3600,
        add_signers,
        remove_signers,
        add_config_approvers: add_approvers,
        remove_config_approvers: remove_approvers,
        add_address_book_entries: vec![],
        remove_address_book_entries: vec![],
    }
}

fn wallet_update(
    required: u8,
    add_approvers: Vec<Signer>,
    remove_approvers: Vec<Signer>,
    add_destinations: Vec<AddressBookEntry>,
    remove_destinations: Vec<AddressBookEntry>,
) -> WalletConfigUpdate {
    WalletConfigUpdate {
        name_hash: [7; 32],
        approvals_required_for_transfer: required,
        approval_timeout_for_transfer: 600,
        add_transfer_approvers: add_approvers,
        remove_transfer_approvers: remove_approvers,
        add_allowed_destinations: add_destinations,
        remove_allowed_destinations: remove_destinations,
    }
}

fn three_signer_config() -> ProgramConfig {
    let mut config = ProgramConfig::new();
    let update = ProgramConfigUpdate {
        approvals_required_for_config: 2,
        approval_timeout_for_config: 3600,
        add_signers: vec![signer(1), signer(2), signer(3)],
        remove_signers: vec![],
        add_config_approvers: vec![signer(1), signer(2)],
        remove_config_approvers: vec![],
        add_address_book_entries: vec![entry(10), entry(11)],
        remove_address_book_entries: vec![],
    };
    let assistant = AccountInfo::new(key(99), false, 0, key(0), vec![]);
    assert_eq!(init_wallet_handler::handle(&mut config, &assistant, &update), Ok(()));
    config
}

#[test]
fn new_configuration_is_blank() {
    let config = ProgramConfig::new();
    assert!(!config.is_initialized);
    assert_eq!(config.signers.count_free_slots(), MAX_SIGNERS);
    assert_eq!(config.signers.count_live_slots(), 0);
    assert_eq!(config.address_book.count_free_slots(), 100);
    assert_eq!(config.config_approvers.count_enabled(), 0);
    assert_eq!(config.approvals_required_for_config, 0);
    assert!(config.wallets.is_empty());
    assert!(config.get_config_approvers_keys().is_empty());
}

#[test]
fn first_policy_takes_the_configuration_into_use() {
    let config = three_signer_config();
    assert!(config.is_initialized);
    assert!(config.assistant == signer(99));
    assert_eq!(config.approvals_required_for_config, 2);
    assert_eq!(config.approval_timeout_for_config, 3600);
    assert_eq!(config.signers.find_ref(&signer(1)).unwrap().id(), 0);
    assert_eq!(config.signers.find_ref(&signer(3)).unwrap().id(), 2);
    assert_eq!(config.config_approvers.as_bytes(), &[0b011u8, 0, 0, 0]);
    assert_eq!(config.get_config_approvers_keys(), vec![key(1), key(2)]);
    assert_eq!(config.address_book.find_ref(&entry(11)).unwrap().id(), 1);
}

#[test]
fn a_configuration_in_use_is_not_taken_into_use_again() {
    let mut config = three_signer_config();
    let assistant = AccountInfo::new(key(98), false, 0, key(0), vec![]);
    let update = config_update(0, vec![], vec![], vec![], vec![]);
    assert_eq!(
        init_wallet_handler::handle(&mut config, &assistant, &update),
        Err(WalletError::AccountAlreadyInitialized)
    );
    assert!(config.assistant == signer(99));
    assert_eq!(config.approvals_required_for_config, 2);
}

#[test]
fn accepted_update_keeps_threshold_within_approvers() {
    let mut config = three_signer_config();
    let update = config_update(3, vec![], vec![], vec![signer(3)], vec![]);
    assert_eq!(config.validate_update(&update), Ok(()));
    assert_eq!(config.update(&update), Ok(()));
    assert_eq!(config.config_approvers.count_enabled(), 3);
    assert_eq!(config.approvals_required_for_config, 3);
    assert!(usize::from(config.approvals_required_for_config) <= config.config_approvers.count_enabled());
}

#[test]
fn update_that_breaks_the_threshold_changes_nothing() {
    let mut config = three_signer_config();
    let update = config_update(2, vec![signer(4)], vec![signer(3)], vec![], vec![signer(2)]);
    assert_eq!(config.validate_update(&update), Err(WalletError::InvalidArgument));
    assert_eq!(config.update(&update), Err(WalletError::InvalidArgument));
    assert_eq!(config.approvals_required_for_config, 2);
    assert_eq!(config.config_approvers.as_bytes(), &[0b011u8, 0, 0, 0]);
    assert_eq!(config.signers.find_ref(&signer(3)).unwrap().id(), 2);
    assert!(config.signers.find_ref(&signer(4)).is_none());
    assert_eq!(config.signers.count_live_slots(), 3);
    assert_eq!(config.get_config_approvers_keys(), vec![key(1), key(2)]);
}

#[test]
fn approver_who_is_no_signer_is_refused() {
    let mut config = three_signer_config();
    let update = config_update(1, vec![], vec![], vec![signer(9)], vec![]);
    assert_eq!(config.update(&update), Err(WalletError::InvalidArgument));
    assert_eq!(config.config_approvers.count_enabled(), 2);
    let update = config_update(1, vec![signer(9)], vec![], vec![signer(9)], vec![]);
    assert_eq!(config.update(&update), Ok(()));
    assert_eq!(config.get_config_approvers_keys(), vec![key(1), key(2), key(9)]);
}

#[test]
fn signers_beyond_capacity_are_refused() {
    let mut config = three_signer_config();
    let many: Vec<Signer> = (30..53).map(signer).collect();
    assert_eq!(many.len(), 23);
    let update = config_update(2, many, vec![], vec![], vec![]);
    assert_eq!(config.update(&update), Err(WalletError::InvalidArgument));
    assert_eq!(config.signers.count_live_slots(), 3);
    let fit: Vec<Signer> = (30..53).map(signer).collect();
    let update = config_update(2, fit, vec![signer(3)], vec![], vec![]);
    assert_eq!(config.update(&update), Ok(()));
    assert_eq!(config.signers.count_live_slots(), 25);
    assert_eq!(config.signers.count_free_slots(), 0);
    assert_eq!(config.signers.find_ref(&signer(30)).unwrap().id(), 2);
}

#[test]
fn removed_signer_loses_every_flag_and_frees_its_slot() {
    let mut config = three_signer_config();
    let first = [1u8; 32];
    let second = [2u8; 32];
    let both = wallet_update(1, vec![signer(2), signer(3)], vec![], vec![entry(10)], vec![]);
    assert_eq!(config.add_wallet_config(&first, &both), Ok(()));
    assert_eq!(config.add_wallet_config(&second, &both), Ok(()));
    let slot = config.signers.find_ref(&signer(2)).unwrap();
    assert!(config.config_approvers.is_enabled(slot));
    assert!(config.wallets[0].transfer_approvers.is_enabled(slot));
    assert!(config.wallets[1].transfer_approvers.is_enabled(slot));

    let update = config_update(1, vec![], vec![signer(2)], vec![], vec![]);
    assert_eq!(config.update(&update), Ok(()));
    assert!(!config.config_approvers.is_enabled(slot));
    assert!(!config.wallets[0].transfer_approvers.is_enabled(slot));
    assert!(!config.wallets[1].transfer_approvers.is_enabled(slot));
    assert_eq!(config.signers.index(slot), &None);
    assert_eq!(config.get_config_approvers_keys(), vec![key(1)]);
    assert_eq!(config.get_transfer_approvers_keys(&config.wallets[0]), vec![key(3)]);

    let update = config_update(1, vec![signer(8)], vec![], vec![], vec![]);
    assert_eq!(config.update(&update), Ok(()));
    assert_eq!(config.signers.find_ref(&signer(8)).unwrap().id(), slot.id());
    assert!(!config.config_approvers.is_enabled(slot));
    assert!(!config.wallets[1].transfer_approvers.is_enabled(slot));
}

#[test]
fn signer_removal_that_breaks_a_wallet_threshold_changes_nothing() {
    let mut config = three_signer_config();
    let guid = [5u8; 32];
    let policy = wallet_update(2, vec![signer(2), signer(3)], vec![], vec![], vec![]);
    assert_eq!(config.add_wallet_config(&guid, &policy), Ok(()));
    let slot = config.signers.find_ref(&signer(3)).unwrap();

    let update = config_update(2, vec![], vec![signer(3)], vec![], vec![]);
    assert_eq!(config.validate_update(&update), Err(WalletError::InvalidArgument));
    assert_eq!(config.update(&update), Err(WalletError::InvalidArgument));
    assert_eq!(config.signers.find_ref(&signer(3)).unwrap().id(), slot.id());
    let wallet = config.get_wallet_config(&guid).unwrap();
    assert!(wallet.transfer_approvers.is_enabled(slot));
    assert_eq!(config.get_transfer_approvers_keys(wallet), vec![key(2), key(3)]);
    assert!(config.validate());

    let lower = wallet_update(1, vec![], vec![], vec![], vec![]);
    assert_eq!(config.update_wallet_config(&guid, &lower), Ok(()));
    assert_eq!(config.update(&update), Ok(()));
    let wallet = config.get_wallet_config(&guid).unwrap();
    assert_eq!(config.get_transfer_approvers_keys(wallet), vec![key(2)]);
    assert!(usize::from(wallet.approvals_required_for_transfer)
        <= wallet.transfer_approvers.count_enabled());
    assert!(config.validate());
}

#[test]
fn sole_approver_of_a_wallet_cannot_be_removed() {
    let mut config = ProgramConfig::new();
    let first = ProgramConfigUpdate {
        approvals_required_for_config: 0,
        approval_timeout_for_config: 0,
        add_signers: vec![signer(1)],
        remove_signers: vec![],
        add_config_approvers: vec![],
        remove_config_approvers: vec![],
        add_address_book_entries: vec![],
        remove_address_book_entries: vec![],
    };
    assert_eq!(config.update(&first), Ok(()));
    let policy = wallet_update(1, vec![signer(1)], vec![], vec![], vec![]);
    assert_eq!(config.add_wallet_config(&[5; 32], &policy), Ok(()));
    let removal = ProgramConfigUpdate {
        approvals_required_for_config: 0,
        approval_timeout_for_config: 0,
        add_signers: vec![],
        remove_signers: vec![signer(1)],
        add_config_approvers: vec![],
        remove_config_approvers: vec![],
        add_address_book_entries: vec![],
        remove_address_book_entries: vec![],
    };
    assert_eq!(config.update(&removal), Err(WalletError::InvalidArgument));
    assert_eq!(config.signers.find_ref(&signer(1)).unwrap().id(), 0);
    assert_eq!(config.wallets[0].transfer_approvers.count_enabled(), 1);
}

#[test]
fn removal_makes_room_in_a_full_registry() {
    let mut config = three_signer_config();
    let fill: Vec<Signer> = (30..52).map(signer).collect();
    assert_eq!(config.update(&config_update(2, fill, vec![], vec![], vec![])), Ok(()));
    assert_eq!(config.signers.count_free_slots(), 0);
    assert_eq!(
        config.update(&config_update(2, vec![signer(60)], vec![], vec![], vec![])),
        Err(WalletError::InvalidArgument)
    );
    let slot = config.signers.find_ref(&signer(3)).unwrap();
    assert_eq!(config.update(&config_update(2, vec![], vec![signer(3)], vec![], vec![])), Ok(()));
    assert_eq!(config.signers.index(slot), &None);
    assert!(config.signers.find_ref(&signer(3)).is_none());
    assert_eq!(config.signers.count_free_slots(), 1);
    assert_eq!(config.update(&config_update(2, vec![signer(60)], vec![], vec![], vec![])), Ok(()));
    assert_eq!(config.signers.find_ref(&signer(60)).unwrap().id(), slot.id());
    assert_eq!(config.signers.count_free_slots(), 0);
}

#[test]
fn wallet_update_sets_and_validates_policy() {
    let mut config = three_signer_config();
    let guid = [5u8; 32];
    let update = wallet_update(2, vec![signer(1), signer(3)], vec![], vec![entry(11)], vec![]);
    assert_eq!(config.validate_add_wallet_config(&guid, &update), Ok(()));
    assert!(config.wallets.is_empty());
    assert_eq!(config.add_wallet_config(&guid, &update), Ok(()));
    let wallet = config.get_wallet_config(&guid).unwrap();
    assert_eq!(wallet.wallet_name_hash, [7; 32]);
    assert_eq!(wallet.approvals_required_for_transfer, 2);
    assert_eq!(wallet.approval_timeout_for_transfer, 600);
    assert_eq!(wallet.transfer_approvers.as_bytes(), &[0b101u8, 0, 0, 0]);
    assert_eq!(config.get_transfer_approvers_keys(wallet), vec![key(1), key(3)]);
    assert_eq!(config.destination_allowed(wallet, &key(11), &[111; 32]), Ok(true));
    assert_eq!(config.destination_allowed(wallet, &key(10), &[110; 32]), Ok(false));
    assert_eq!(config.destination_allowed(wallet, &key(11), &[110; 32]), Ok(false));

    let too_many = wallet_update(2, vec![], vec![signer(3)], vec![], vec![]);
    assert_eq!(
        config.validate_wallet_config_update(&guid, &too_many),
        Err(WalletError::InvalidArgument)
    );
    assert_eq!(config.update_wallet_config(&guid, &too_many), Err(WalletError::InvalidArgument));
    let wallet = config.get_wallet_config(&guid).unwrap();
    assert_eq!(wallet.transfer_approvers.as_bytes(), &[0b101u8, 0, 0, 0]);

    let unknown = wallet_update(1, vec![], vec![], vec![entry(12)], vec![]);
    assert_eq!(config.update_wallet_config(&guid, &unknown), Err(WalletError::InvalidArgument));
    assert_eq!(
        config.update_wallet_config(&[6; 32], &update),
        Err(WalletError::WalletNotFound)
    );
    assert_eq!(config.get_wallet_config(&[6; 32]).unwrap_err(), WalletError::WalletNotFound);
    assert_eq!(config.get_wallet_config_index(&guid), Ok(0));

    let fewer = wallet_update(1, vec![], vec![signer(3)], vec![entry(10)], vec![entry(11)]);
    assert_eq!(config.update_wallet_config(&guid, &fewer), Ok(()));
    let wallet = config.get_wallet_config(&guid).unwrap();
    assert_eq!(wallet.approvals_required_for_transfer, 1);
    assert_eq!(config.get_transfer_approvers_keys(wallet), vec![key(1)]);
    assert_eq!(config.destination_allowed(wallet, &key(11), &[111; 32]), Ok(false));
    assert_eq!(config.destination_allowed(wallet, &key(10), &[110; 32]), Ok(true));
}

#[test]
fn wallets_beyond_capacity_are_refused() {
    let mut config = three_signer_config();
    let update = wallet_update(0, vec![], vec![], vec![], vec![]);
    for n in 0..MAX_WALLETS {
        assert_eq!(config.add_wallet_config(&[n as u8; 32], &update), Ok(()));
    }
    assert_eq!(config.wallets.len(), MAX_WALLETS);
    assert_eq!(
        config.validate_add_wallet_config(&[200; 32], &update),
        Err(WalletError::InvalidArgument)
    );
    assert_eq!(config.add_wallet_config(&[200; 32], &update), Err(WalletError::InvalidArgument));
    assert_eq!(config.wallets.len(), MAX_WALLETS);
}

#[test]
fn address_book_change_clears_destinations_of_removed_entries() {
    let mut config = three_signer_config();
    let guid = [5u8; 32];
    let update = wallet_update(1, vec![signer(1)], vec![], vec![entry(10), entry(11)], vec![]);
    assert_eq!(config.add_wallet_config(&guid, &update), Ok(()));
    let change = AddressBookUpdate {
        add_address_book_entries: vec![entry(12)],
        remove_address_book_entries: vec![entry(10)],
    };
    assert_eq!(config.validate_address_book_update(&change), Ok(()));
    assert_eq!(config.update_address_book(&change), Ok(()));
    assert_eq!(config.address_book.find_ref(&entry(12)).unwrap().id(), 0);
    assert!(config.address_book.find_ref(&entry(10)).is_none());
    let wallet = config.get_wallet_config(&guid).unwrap();
    assert_eq!(config.destination_allowed(wallet, &key(12), &[112; 32]), Ok(false));
    assert_eq!(config.destination_allowed(wallet, &key(11), &[111; 32]), Ok(true));
    assert_eq!(config.approvals_required_for_config, 2);
    assert_eq!(config.get_config_approvers_keys(), vec![key(1), key(2)]);

    let too_many = AddressBookUpdate {
        add_address_book_entries: (0..99).map(|n| entry(100 + n)).collect(),
        remove_address_book_entries: vec![],
    };
    assert_eq!(config.update_address_book(&too_many), Err(WalletError::InvalidArgument));
    assert_eq!(config.address_book.count_live_slots(), 2);
}

#[test]
fn initiator_must_sign_and_be_assistant_or_approver() {
    let config = three_signer_config();
    let approver = AccountInfo::new(key(1), true, 0, key(0), vec![]);
    let assistant = AccountInfo::new(key(99), true, 0, key(0), vec![]);
    let unsigned = AccountInfo::new(key(1), false, 0, key(0), vec![]);
    let stranger = AccountInfo::new(key(3), true, 0, key(0), vec![]);
    assert_eq!(config.validate_config_initiator(&approver), Ok(()));
    assert_eq!(config.validate_config_initiator(&assistant), Ok(()));
    assert_eq!(config.validate_config_initiator(&unsigned), Err(WalletError::InvalidSignature));
    assert_eq!(config.validate_config_initiator(&stranger), Err(WalletError::InvalidArgument));
    assert_eq!(config.validate_initiator(&stranger, &vec![key(3)]), Ok(()));
}

#[test]
fn policy_locks_refuse_a_second_lock_and_unlock_freely() {
    let mut config = three_signer_config();
    assert_eq!(config.lock_config_policy_updates(), Ok(()));
    assert!(config.config_policy_update_locked);
    assert_eq!(
        config.lock_config_policy_updates(),
        Err(WalletError::ConcurrentOperationsNotAllowed)
    );
    config.unlock_config_policy_updates();
    config.unlock_config_policy_updates();
    assert!(!config.config_policy_update_locked);
    assert_eq!(config.lock_config_policy_updates(), Ok(()));

    let guid = [5u8; 32];
    let update = wallet_update(0, vec![], vec![], vec![], vec![]);
    assert_eq!(config.add_wallet_config(&guid, &update), Ok(()));
    assert_eq!(config.lock_wallet_policy_updates(&guid), Ok(()));
    assert_eq!(
        config.lock_wallet_policy_updates(&guid),
        Err(WalletError::ConcurrentOperationsNotAllowed)
    );
    assert_eq!(config.lock_wallet_policy_updates(&[6; 32]), Err(WalletError::WalletNotFound));
    assert_eq!(config.unlock_wallet_policy_updates(&guid), Ok(()));
    assert_eq!(config.unlock_wallet_policy_updates(&guid), Ok(()));
    assert_eq!(config.unlock_wallet_policy_updates(&[6; 32]), Err(WalletError::WalletNotFound));
    assert!(!config.get_wallet_config(&guid).unwrap().policy_update_locked);
}
