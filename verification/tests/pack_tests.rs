use strike_wallet::account::AccountInfo;
use strike_wallet::error::WalletError;
use strike_wallet::handlers::init_wallet_handler;
use strike_wallet::instruction::{ProgramConfigUpdate, WalletConfigUpdate};
use strike_wallet::model::program_config::ProgramConfig;
use strike_wallet::model::program_config_pack::{
    ADDRESS_BOOK_OFFSET, APPROVALS_OFFSET, APPROVERS_OFFSET, ASSISTANT_OFFSET, LOCK_OFFSET,
    PROGRAM_CONFIG_LEN, SIGNERS_OFFSET, TIMEOUT_OFFSET, WALLETS_OFFSET, WALLET_CONFIG_LEN,
    WALLET_COUNT_OFFSET,
};
use strike_wallet::model::signer::Signer;
use strike_wallet::model::wallet_config::AddressBookEntry;
use strike_wallet::pubkey::Pubkey;
use strike_wallet::version::{Versioned, VERSION};

fn key(n: u8) -> Pubkey {
    Pubkey::new_from_array([n; 32])
}

fn signer(n: u8) -> Signer {
    Signer::new(key(n))
}

fn entry(n: u8) -> AddressBookEntry {
    AddressBookEntry { address: key(n), name_hash: [n.wrapping_add(100); 32] }
}

fn sample() -> ProgramConfig {
    let mut config = ProgramConfig::new();
    let update = ProgramConfigUpdate {
        approvals_required_for_config: 2,
        approval_timeout_for_config: 0x0102030405060708,
        add_signers: vec![signer(1), signer(2), signer(3)],
        remove_signers: vec![],
        add_config_approvers: vec![signer(1), signer(3)],
        remove_config_approvers: vec![],
        add_address_book_entries: vec![entry(10), entry(11)],
        remove_address_book_entries: vec![],
    };
    let assistant = AccountInfo::new(key(99), false, 0, key(0), vec![]);
    init_wallet_handler::handle(&mut config, &assistant, &update).unwrap();
    let policy = WalletConfigUpdate {
        name_hash: [7; 32],
        approvals_required_for_transfer: 1,
        approval_timeout_for_transfer: 600,
        add_transfer_approvers: vec![signer(2)],
        remove_transfer_approvers: vec![],
        add_allowed_destinations: vec![entry(11)],
        remove_allowed_destinations: vec![],
    };
    config.add_wallet_config(&[5; 32], &policy).unwrap();
    config.lock_wallet_policy_updates(&[5; 32]).unwrap();
    config
}

#[test]
fn record_has_fixed_length_whatever_it_holds() {
    assert_eq!(PROGRAM_CONFIG_LEN, 8162);
    assert_eq!(ProgramConfig::new().pack().len(), PROGRAM_CONFIG_LEN);
    assert_eq!(sample().pack().len(), PROGRAM_CONFIG_LEN);
    assert_eq!(ProgramConfig::new().pack(), vec![0u8; PROGRAM_CONFIG_LEN]);
}

#[test]
fn fields_stand_at_their_places() {
    let bytes = sample().pack();
    assert_eq!(bytes[0], 1);
    assert_eq!(&bytes[1..SIGNERS_OFFSET], &VERSION.to_le_bytes());
    assert_eq!(&bytes[SIGNERS_OFFSET..SIGNERS_OFFSET + 32], &[1u8; 32]);
    assert_eq!(&bytes[SIGNERS_OFFSET + 64..SIGNERS_OFFSET + 96], &[3u8; 32]);
    assert_eq!(&bytes[SIGNERS_OFFSET + 96..ASSISTANT_OFFSET], &vec![0u8; 22 * 32][..]);
    assert_eq!(&bytes[ASSISTANT_OFFSET..ADDRESS_BOOK_OFFSET], &[99u8; 32]);
    assert_eq!(&bytes[ADDRESS_BOOK_OFFSET..ADDRESS_BOOK_OFFSET + 32], &[10u8; 32]);
    assert_eq!(&bytes[ADDRESS_BOOK_OFFSET + 32..ADDRESS_BOOK_OFFSET + 64], &[110u8; 32]);
    assert_eq!(bytes[APPROVALS_OFFSET], 2);
    assert_eq!(&bytes[TIMEOUT_OFFSET..APPROVERS_OFFSET], &[8u8, 7, 6, 5, 4, 3, 2, 1]);
    assert_eq!(&bytes[APPROVERS_OFFSET..LOCK_OFFSET], &[0b101u8, 0, 0, 0]);
    assert_eq!(bytes[LOCK_OFFSET], 0);
    assert_eq!(bytes[WALLET_COUNT_OFFSET], 1);
    let wallet = &bytes[WALLETS_OFFSET..WALLETS_OFFSET + WALLET_CONFIG_LEN];
    assert_eq!(&wallet[0..32], &[5u8; 32]);
    assert_eq!(&wallet[32..64], &[7u8; 32]);
    assert_eq!(wallet[64], 1);
    assert_eq!(&wallet[65..73], &600u64.to_le_bytes());
    assert_eq!(&wallet[73..77], &[0b010u8, 0, 0, 0]);
    assert_eq!(&wallet[77..90], &[0b10u8, 0, 0, 0, 0, 0, 0, 0, 0, 0, 0, 0, 0]);
    assert_eq!(wallet[90], 1);
    assert_eq!(&bytes[WALLETS_OFFSET + WALLET_CONFIG_LEN..], &vec![0u8; 9 * 91][..]);
}

#[test]
fn what_was_packed_is_unpacked_again() {
    let config = sample();
    let bytes = config.pack();
    let read = ProgramConfig::unpack_from_slice(&bytes).unwrap();
    assert_eq!(read.pack(), bytes);
    assert!(read.is_initialized);
    assert!(read.assistant == signer(99));
    assert_eq!(read.approvals_required_for_config, 2);
    assert_eq!(read.approval_timeout_for_config, 0x0102030405060708);
    assert_eq!(read.get_config_approvers_keys(), vec![key(1), key(3)]);
    assert_eq!(read.signers.find_ref(&signer(2)).unwrap().id(), 1);
    assert_eq!(read.signers.count_free_slots(), 22);
    assert_eq!(read.address_book.find_ref(&entry(11)).unwrap().id(), 1);
    let wallet = read.get_wallet_config(&[5; 32]).unwrap();
    assert!(wallet.policy_update_locked);
    assert_eq!(read.get_transfer_approvers_keys(wallet), vec![key(2)]);
    assert_eq!(read.destination_allowed(wallet, &key(11), &[111; 32]), Ok(true));
    assert!(read.validate());

    let blank = ProgramConfig::unpack_from_slice(&vec![0u8; PROGRAM_CONFIG_LEN]).unwrap();
    assert!(!blank.is_initialized);
    assert_eq!(blank.signers.count_free_slots(), 25);
}

#[test]
fn bytes_that_stand_for_no_configuration_are_refused() {
    let good = sample().pack();
    assert_eq!(
        ProgramConfig::unpack_from_slice(&good[1..]).unwrap_err(),
        WalletError::InvalidAccountData
    );
    let flip = |at: usize, value: u8| {
        let mut bytes = good.clone();
        bytes[at] = value;
        ProgramConfig::unpack_from_slice(&bytes).map(|_| ())
    };
    assert_eq!(flip(0, 2), Err(WalletError::InvalidAccountData));
    assert_eq!(flip(LOCK_OFFSET, 2), Err(WalletError::InvalidAccountData));
    assert_eq!(flip(WALLET_COUNT_OFFSET, 11), Err(WalletError::InvalidAccountData));
    assert_eq!(flip(WALLET_COUNT_OFFSET, 0), Err(WalletError::InvalidAccountData));
    assert_eq!(flip(WALLETS_OFFSET + 90, 3), Err(WalletError::InvalidAccountData));
    assert_eq!(flip(PROGRAM_CONFIG_LEN - 1, 1), Err(WalletError::InvalidAccountData));
    assert_eq!(flip(APPROVALS_OFFSET, 3), Err(WalletError::InvalidAccountData));
    assert_eq!(flip(APPROVERS_OFFSET, 0b1101), Err(WalletError::InvalidAccountData));
    assert_eq!(flip(APPROVERS_OFFSET + 3, 0b1000_0000), Err(WalletError::InvalidAccountData));
    assert_eq!(flip(WALLETS_OFFSET + 73, 0b1010), Err(WalletError::InvalidAccountData));
    assert_eq!(flip(WALLETS_OFFSET + 77, 0b110), Err(WalletError::InvalidAccountData));
    assert_eq!(flip(WALLETS_OFFSET + 64, 2), Err(WalletError::InvalidAccountData));
    assert_eq!(flip(WALLETS_OFFSET + 73, 0), Err(WalletError::InvalidAccountData));
    assert_eq!(flip(WALLETS_OFFSET + 64, 0), Ok(()));
    assert_eq!(flip(APPROVALS_OFFSET, 1), Ok(()));
    assert_eq!(flip(APPROVERS_OFFSET, 0b111), Ok(()));
}

#[test]
fn version_is_read_from_the_stored_bytes() {
    let mut config = sample();
    assert_eq!(config.version, VERSION);
    config.version = 0x01020304;
    let bytes = config.pack();
    assert_eq!(&bytes[1..5], &[4u8, 3, 2, 1]);
    assert_eq!(ProgramConfig::version_from_slice(&bytes), Ok(0x01020304));
    assert_eq!(ProgramConfig::version_from_slice(&bytes[..5]), Ok(0x01020304));
    assert_eq!(
        ProgramConfig::version_from_slice(&bytes[..4]),
        Err(WalletError::InvalidAccountData)
    );
    assert_eq!(ProgramConfig::unpack_from_slice(&bytes).unwrap().version, 0x01020304);
}

#[test]
fn validation_finds_flags_without_items_and_broken_thresholds() {
    let mut config = sample();
    assert!(config.validate());
    config.approvals_required_for_config = 3;
    assert!(!config.validate());
    config.approvals_required_for_config = 2;
    let slot = config.signers.find_ref(&signer(2)).unwrap();
    config.signers.remove_by_refs(&vec![slot]);
    assert!(!config.validate());
    config.wallets[0].transfer_approvers.disable(slot);
    assert!(!config.validate());
    config.wallets[0].approvals_required_for_transfer = 0;
    assert!(config.validate());
}
