use strike_wallet::account::AccountInfo;
use strike_wallet::error::WalletError;
use strike_wallet::model::dapp_multisig_data::{
    DAppBookEntry, DAppMultisigData, DAPP_MULTISIG_DATA_LEN, MAX_INSTRUCTIONS,
    MAX_INSTRUCTION_LEN, SLOTS_OFFSET, SLOT_LEN,
};
use strike_wallet::model::multisig_op::{
    ApprovalDisposition, MultisigOp, MultisigOpParams, OperationDisposition, DISPOSITION_OFFSET,
    EXPIRES_AT_OFFSET, INITIATOR_OFFSET, MULTISIG_OP_LEN, PARAMS_HASH_OFFSET, RECORDS_OFFSET,
    RENT_RETURN_OFFSET, REQUIRED_OFFSET, STARTED_AT_OFFSET,
};
use strike_wallet::pubkey::Pubkey;

fn key(n: u8) -> Pubkey {
    Pubkey::new_from_array([n; 32])
}

fn transfer() -> MultisigOpParams {
    MultisigOpParams::Transfer {
        program_config_address: key(50),
        wallet_guid_hash: [9; 32],
        destination: key(60),
        amount: 7,
        token_mint: key(0),
    }
}

fn voted_op() -> MultisigOp {
    let mut op = MultisigOp::new();
    op.init(&vec![key(1), key(2), key(3)], 2, -5, 4600, &transfer(), key(1), key(70)).unwrap();
    let hash = transfer().hash();
    let voter = |n: u8| AccountInfo::new(key(n), true, 0, key(0), vec![]);
    op.set_disposition(&voter(2), ApprovalDisposition::DENY, &hash, 0).unwrap();
    op.set_disposition(&voter(3), ApprovalDisposition::APPROVE, &hash, 0).unwrap();
    op
}

#[test]
fn operation_record_has_fixed_length_and_fields_at_their_places() {
    assert_eq!(MULTISIG_OP_LEN, 942);
    assert_eq!(MultisigOp::new().pack(), vec![0u8; MULTISIG_OP_LEN]);
    let bytes = voted_op().pack();
    assert_eq!(bytes.len(), MULTISIG_OP_LEN);
    assert_eq!(bytes[0], 1);
    assert_eq!(bytes[1], 3);
    assert_eq!(&bytes[RECORDS_OFFSET..RECORDS_OFFSET + 32], &[1u8; 32]);
    assert_eq!(bytes[RECORDS_OFFSET + 32], 0);
    assert_eq!(&bytes[RECORDS_OFFSET + 33..RECORDS_OFFSET + 65], &[2u8; 32]);
    assert_eq!(bytes[RECORDS_OFFSET + 65], 2);
    assert_eq!(bytes[RECORDS_OFFSET + 98], 1);
    assert_eq!(&bytes[RECORDS_OFFSET + 99..REQUIRED_OFFSET], &vec![0u8; 22 * 33][..]);
    assert_eq!(bytes[REQUIRED_OFFSET], 2);
    assert_eq!(bytes[PARAMS_HASH_OFFSET], 1);
    assert_eq!(&bytes[PARAMS_HASH_OFFSET + 1..STARTED_AT_OFFSET], &transfer().hash());
    assert_eq!(&bytes[STARTED_AT_OFFSET..EXPIRES_AT_OFFSET], &(-5i64).to_le_bytes());
    assert_eq!(&bytes[EXPIRES_AT_OFFSET..DISPOSITION_OFFSET], &4600i64.to_le_bytes());
    assert_eq!(bytes[DISPOSITION_OFFSET], 0);
    assert_eq!(&bytes[INITIATOR_OFFSET..RENT_RETURN_OFFSET], &[1u8; 32]);
    assert_eq!(&bytes[RENT_RETURN_OFFSET..], &[70u8; 32]);
}

#[test]
fn operation_record_is_unpacked_as_it_was_packed() {
    let mut op = voted_op();
    let bytes = op.pack();
    let read = MultisigOp::unpack_from_slice(&bytes).unwrap();
    assert_eq!(read.pack(), bytes);
    assert_eq!(read.disposition_records(), op.disposition_records());
    assert_eq!(read.dispositions_required(), 2);
    assert_eq!(read.params_hash(), Some(transfer().hash()));
    assert_eq!(read.started_at(), -5);
    assert_eq!(read.expires_at(), 4600);
    assert_eq!(read.operation_disposition(), OperationDisposition::NONE);
    assert!(read.initiator() == key(1));
    assert!(read.rent_return() == key(70));
    assert!(read.validate());

    let voter = AccountInfo::new(key(1), true, 0, key(0), vec![]);
    op.set_disposition(&voter, ApprovalDisposition::APPROVE, &transfer().hash(), 0).unwrap();
    let approved = MultisigOp::unpack_from_slice(&op.pack()).unwrap();
    assert_eq!(approved.operation_disposition(), OperationDisposition::APPROVED);

    let blank = MultisigOp::unpack_from_slice(&vec![0u8; MULTISIG_OP_LEN]).unwrap();
    assert!(!blank.is_initialized());

    let mut open = MultisigOp::new();
    open.init_with_hash(&vec![key(1)], 1, 0, 10, None, key(1), key(2)).unwrap();
    let read = MultisigOp::unpack_from_slice(&open.pack()).unwrap();
    assert_eq!(read.params_hash(), None);
}

#[test]
fn bytes_that_stand_for_no_operation_are_refused() {
    let good = voted_op().pack();
    let flip = |at: usize, value: u8| {
        let mut bytes = good.clone();
        bytes[at] = value;
        MultisigOp::unpack_from_slice(&bytes).map(|_| ())
    };
    assert_eq!(MultisigOp::unpack_from_slice(&good[..941]).unwrap_err(), WalletError::InvalidAccountData);
    assert_eq!(flip(0, 2), Err(WalletError::InvalidAccountData));
    assert_eq!(flip(0, 0), Err(WalletError::InvalidAccountData));
    assert_eq!(flip(1, 26), Err(WalletError::InvalidAccountData));
    assert_eq!(flip(1, 2), Err(WalletError::InvalidAccountData));
    assert_eq!(flip(1, 1), Err(WalletError::InvalidAccountData));
    assert_eq!(flip(RECORDS_OFFSET + 32, 3), Err(WalletError::InvalidAccountData));
    assert_eq!(flip(REQUIRED_OFFSET, 0), Err(WalletError::InvalidAccountData));
    assert_eq!(flip(REQUIRED_OFFSET, 4), Err(WalletError::InvalidAccountData));
    assert_eq!(flip(PARAMS_HASH_OFFSET, 0), Err(WalletError::InvalidAccountData));
    assert_eq!(flip(PARAMS_HASH_OFFSET, 2), Err(WalletError::InvalidAccountData));
    assert_eq!(flip(DISPOSITION_OFFSET, 3), Err(WalletError::InvalidAccountData));
    assert_eq!(flip(DISPOSITION_OFFSET, 4), Err(WalletError::InvalidAccountData));
    assert_eq!(flip(EXPIRES_AT_OFFSET + 7, 0x80), Err(WalletError::InvalidAccountData));
    assert_eq!(flip(REQUIRED_OFFSET, 3), Ok(()));
    assert_eq!(flip(DISPOSITION_OFFSET, 2), Ok(()));
}

fn staged() -> DAppMultisigData {
    let mut data = DAppMultisigData::new();
    data.init(key(50), [9; 32], DAppBookEntry { address: key(40), name_hash: [41; 32] }, 3).unwrap();
    data.supply(1, &vec![vec![1, 2, 3], vec![]]).unwrap();
    data
}

#[test]
fn staging_record_has_fixed_length_and_fields_at_their_places() {
    assert_eq!(DAPP_MULTISIG_DATA_LEN, SLOTS_OFFSET + MAX_INSTRUCTIONS * SLOT_LEN);
    assert_eq!(SLOT_LEN, 3 + MAX_INSTRUCTION_LEN);
    assert_eq!(DAppMultisigData::new().pack(), vec![0u8; DAPP_MULTISIG_DATA_LEN]);
    let bytes = staged().pack();
    assert_eq!(bytes.len(), DAPP_MULTISIG_DATA_LEN);
    assert_eq!(bytes[0], 1);
    assert_eq!(&bytes[1..33], &[50u8; 32]);
    assert_eq!(&bytes[33..65], &[9u8; 32]);
    assert_eq!(&bytes[65..97], &[40u8; 32]);
    assert_eq!(&bytes[97..129], &[41u8; 32]);
    assert_eq!(bytes[129], 3);
    assert_eq!(&bytes[SLOTS_OFFSET..SLOTS_OFFSET + SLOT_LEN], &vec![0u8; SLOT_LEN][..]);
    let second = &bytes[SLOTS_OFFSET + SLOT_LEN..SLOTS_OFFSET + 2 * SLOT_LEN];
    assert_eq!(&second[..6], &[1u8, 3, 0, 1, 2, 3]);
    assert_eq!(&second[6..], &vec![0u8; SLOT_LEN - 6][..]);
    let third = &bytes[SLOTS_OFFSET + 2 * SLOT_LEN..SLOTS_OFFSET + 3 * SLOT_LEN];
    assert_eq!(&third[..3], &[1u8, 0, 0]);
    assert_eq!(&bytes[SLOTS_OFFSET + 2 * SLOT_LEN + 1..], &vec![0u8; 14 * SLOT_LEN - 1][..]);
}

#[test]
fn staging_record_is_unpacked_as_it_was_packed() {
    let mut data = staged();
    let bytes = data.pack();
    let mut read = DAppMultisigData::unpack_from_slice(&bytes).unwrap();
    assert_eq!(read.pack(), bytes);
    assert_eq!(read.num_instructions(), 3);
    assert!(!read.all_instructions_supplied());
    assert_eq!(read.supply(1, &vec![vec![9]]), Err(WalletError::DAppInstructionAlreadySupplied));
    let long = vec![7u8; MAX_INSTRUCTION_LEN];
    assert_eq!(read.supply(0, &vec![long.clone()]), Ok(()));
    assert_eq!(data.supply(0, &vec![long.clone()]), Ok(()));
    assert_eq!(read.hash(), data.hash());
    let again = DAppMultisigData::unpack_from_slice(&read.pack()).unwrap();
    assert_eq!(again.instructions(), Ok(vec![long, vec![1, 2, 3], vec![]]));
    assert!(again.validate());
    let blank = DAppMultisigData::unpack_from_slice(&vec![0u8; DAPP_MULTISIG_DATA_LEN]).unwrap();
    assert!(!blank.is_initialized());
}

#[test]
fn bytes_that_stand_for_no_staging_record_are_refused() {
    let good = staged().pack();
    let flip = |at: usize, value: u8| {
        let mut bytes = good.clone();
        bytes[at] = value;
        DAppMultisigData::unpack_from_slice(&bytes).map(|_| ())
    };
    assert_eq!(
        DAppMultisigData::unpack_from_slice(&good[1..]).unwrap_err(),
        WalletError::InvalidAccountData
    );
    assert_eq!(flip(0, 2), Err(WalletError::InvalidAccountData));
    assert_eq!(flip(0, 0), Err(WalletError::InvalidAccountData));
    assert_eq!(flip(129, 17), Err(WalletError::InvalidAccountData));
    assert_eq!(flip(129, 2), Err(WalletError::InvalidAccountData));
    assert_eq!(flip(SLOTS_OFFSET, 2), Err(WalletError::InvalidAccountData));
    assert_eq!(flip(SLOTS_OFFSET + 5, 1), Err(WalletError::InvalidAccountData));
    assert_eq!(flip(SLOTS_OFFSET + SLOT_LEN + 1, 2), Err(WalletError::InvalidAccountData));
    assert_eq!(flip(SLOTS_OFFSET + SLOT_LEN + 2, 5), Err(WalletError::InvalidAccountData));
    assert_eq!(flip(DAPP_MULTISIG_DATA_LEN - 1, 1), Err(WalletError::InvalidAccountData));
    assert_eq!(flip(SLOTS_OFFSET + SLOT_LEN + 1, 4), Ok(()));
    assert_eq!(flip(SLOTS_OFFSET, 1), Ok(()));
}

#[test]
fn staging_record_has_room_for_a_bounded_call_only() {
    let dapp = DAppBookEntry { address: key(40), name_hash: [41; 32] };
    let mut data = DAppMultisigData::new();
    assert_eq!(data.init(key(50), [9; 32], dapp, 17), Err(WalletError::DAppInstructionOverflow));
    assert!(!data.is_initialized());
    assert_eq!(data.init(key(50), [9; 32], dapp, 16), Ok(()));
    assert_eq!(
        data.supply(0, &vec![vec![0u8; MAX_INSTRUCTION_LEN + 1]]),
        Err(WalletError::DAppInstructionOverflow)
    );
    assert_eq!(
        data.supply(0, &vec![vec![1], vec![0u8; MAX_INSTRUCTION_LEN + 1]]),
        Err(WalletError::DAppInstructionOverflow)
    );
    assert!(data.validate());
    assert_eq!(data.supply(15, &vec![vec![0u8; MAX_INSTRUCTION_LEN]]), Ok(()));
    assert_eq!(data.pack().len(), DAPP_MULTISIG_DATA_LEN);
}
