use strike_wallet::error::WalletError;
use strike_wallet::instruction::{
    AddressBookUpdate, ProgramConfigUpdate, ProgramInstruction, WalletConfigUpdate,
};
use strike_wallet::instruction_pack::{
    parse_address_book_update, parse_program_config_update, parse_wallet_config_update,
};
use strike_wallet::model::dapp_instruction::{parse_data, parse_metas, AccountMeta, Instruction};
use strike_wallet::model::dapp_multisig_data::DAppBookEntry;
use strike_wallet::model::multisig_op::ApprovalDisposition;
use strike_wallet::model::signer::Signer;
use strike_wallet::model::wallet_config::AddressBookEntry;
use strike_wallet::parse::{parse_bytes32, parse_entries, parse_payloads, parse_signers, parse_u64};
use strike_wallet::pubkey::Pubkey;

fn key(n: u8) -> Pubkey {
    Pubkey::new_from_array([n; 32])
}

fn signer(n: u8) -> Signer {
    Signer::new(key(n))
}

fn entry(n: u8) -> AddressBookEntry {
    AddressBookEntry { address: key(n), name_hash: [n.wrapping_add(100); 32] }
}

fn config_update() -> ProgramConfigUpdate {
    ProgramConfigUpdate {
        approvals_required_for_config: 2,
        approval_timeout_for_config: 3600,
        add_signers: vec![signer(1), signer(2)],
        remove_signers: vec![signer(3)],
        add_config_approvers: vec![],
        remove_config_approvers: vec![signer(4), signer(5), signer(6)],
        add_address_book_entries: vec![entry(7)],
        remove_address_book_entries: vec![],
    }
}

fn wallet_update() -> WalletConfigUpdate {
    WalletConfigUpdate {
        name_hash: [7; 32],
        approvals_required_for_transfer: 1,
        approval_timeout_for_transfer: 600,
        add_transfer_approvers: vec![signer(1)],
        remove_transfer_approvers: vec![],
        add_allowed_destinations: vec![entry(8), entry(9)],
        remove_allowed_destinations: vec![entry(10)],
    }
}

fn book_update() -> AddressBookUpdate {
    AddressBookUpdate {
        add_address_book_entries: vec![entry(1)],
        remove_address_book_entries: vec![entry(2), entry(3)],
    }
}

fn all_instructions() -> Vec<ProgramInstruction> {
    vec![
        ProgramInstruction::InitWallet { initial_config: config_update() },
        ProgramInstruction::InitWalletConfigPolicyUpdate { update: config_update() },
        ProgramInstruction::FinalizeWalletConfigPolicyUpdate { update: config_update() },
        ProgramInstruction::InitBalanceAccountPolicyUpdate {
            account_guid_hash: [5; 32],
            update: wallet_update(),
        },
        ProgramInstruction::FinalizeBalanceAccountPolicyUpdate {
            account_guid_hash: [5; 32],
            update: wallet_update(),
        },
        ProgramInstruction::InitAddressBookUpdate { update: book_update() },
        ProgramInstruction::FinalizeAddressBookUpdate { update: book_update() },
        ProgramInstruction::SetApprovalDisposition {
            disposition: ApprovalDisposition::DENY,
            params_hash: [3; 32],
        },
        ProgramInstruction::InitDAppTransaction {
            account_guid_hash: [5; 32],
            dapp: DAppBookEntry { address: key(40), name_hash: [41; 32] },
            instruction_count: 2,
        },
        ProgramInstruction::SupplyDAppTransactionInstructions {
            starting_index: 1,
            instructions: vec![vec![1, 2, 3], vec![], vec![9; 300]],
        },
        ProgramInstruction::FinalizeDAppTransaction {
            account_guid_hash: [5; 32],
            params_hash: [6; 32],
        },
    ]
}

#[test]
fn every_instruction_is_decoded_from_its_own_bytes() {
    for (tag, instruction) in all_instructions().iter().enumerate() {
        let bytes = instruction.pack();
        assert_eq!(bytes[0] as usize, tag);
        let decoded = ProgramInstruction::unpack(&bytes).unwrap();
        assert_eq!(decoded.pack(), bytes);
        assert_eq!(format!("{:?}", decoded), format!("{:?}", instruction));
    }
}

#[test]
fn instruction_bytes_hold_kind_and_fields_in_order() {
    let vote = ProgramInstruction::SetApprovalDisposition {
        disposition: ApprovalDisposition::APPROVE,
        params_hash: [3; 32],
    };
    let mut expected = vec![7u8, 1];
    expected.extend_from_slice(&[3; 32]);
    assert_eq!(vote.pack(), expected);

    let supply = ProgramInstruction::SupplyDAppTransactionInstructions {
        starting_index: 4,
        instructions: vec![vec![1, 2], vec![]],
    };
    let mut expected = vec![9u8, 4];
    expected.extend_from_slice(&2u64.to_le_bytes());
    expected.extend_from_slice(&2u64.to_le_bytes());
    expected.extend_from_slice(&[1, 2]);
    expected.extend_from_slice(&0u64.to_le_bytes());
    assert_eq!(supply.pack(), expected);

    let book = ProgramInstruction::InitAddressBookUpdate {
        update: AddressBookUpdate {
            add_address_book_entries: vec![entry(1)],
            remove_address_book_entries: vec![],
        },
    };
    let mut expected = vec![5u8];
    expected.extend_from_slice(&1u64.to_le_bytes());
    expected.extend_from_slice(&[1; 32]);
    expected.extend_from_slice(&[101; 32]);
    expected.extend_from_slice(&0u64.to_le_bytes());
    assert_eq!(book.pack(), expected);
}

#[test]
fn bytes_of_no_instruction_are_refused() {
    assert_eq!(ProgramInstruction::unpack(&[]).unwrap_err(), WalletError::InvalidInstructionData);
    assert_eq!(ProgramInstruction::unpack(&[11]).unwrap_err(), WalletError::InvalidInstructionData);
    for instruction in all_instructions() {
        let bytes = instruction.pack();
        let mut longer = bytes.clone();
        longer.push(0);
        assert_eq!(
            ProgramInstruction::unpack(&longer).unwrap_err(),
            WalletError::InvalidInstructionData
        );
        assert_eq!(
            ProgramInstruction::unpack(&bytes[..bytes.len() - 1]).unwrap_err(),
            WalletError::InvalidInstructionData
        );
    }
    let mut vote = all_instructions()[7].pack();
    vote[1] = 3;
    assert_eq!(ProgramInstruction::unpack(&vote).unwrap_err(), WalletError::InvalidInstructionData);
    let mut supply = all_instructions()[9].pack();
    supply[2] = 4;
    assert_eq!(
        ProgramInstruction::unpack(&supply).unwrap_err(),
        WalletError::InvalidInstructionData
    );
    let mut huge = vec![9u8, 0];
    huge.extend_from_slice(&u64::MAX.to_le_bytes());
    assert_eq!(ProgramInstruction::unpack(&huge).unwrap_err(), WalletError::InvalidInstructionData);
    let mut huge = vec![5u8];
    huge.extend_from_slice(&u64::MAX.to_le_bytes());
    assert_eq!(ProgramInstruction::unpack(&huge).unwrap_err(), WalletError::InvalidInstructionData);
}

#[test]
fn parsers_read_from_a_place_and_say_where_they_stop() {
    let mut bytes = vec![0xAAu8; 3];
    bytes.extend_from_slice(&0x0102030405060708u64.to_le_bytes());
    bytes.extend_from_slice(&[5; 32]);
    assert_eq!(parse_u64(&bytes, 3), Some((0x0102030405060708, 11)));
    assert_eq!(parse_u64(&bytes, 36), None);
    assert_eq!(parse_bytes32(&bytes, 11), Some(([5; 32], 43)));
    assert_eq!(parse_bytes32(&bytes, 12), None);

    let mut list = vec![0xAAu8];
    list.extend_from_slice(&2u64.to_le_bytes());
    list.extend_from_slice(&[1; 32]);
    list.extend_from_slice(&[2; 32]);
    list.push(0xBB);
    let (signers, next) = parse_signers(&list, 1).unwrap();
    assert!(signers == vec![signer(1), signer(2)]);
    assert_eq!(next, 73);
    assert!(parse_signers(&list[..72], 1).is_none());
    assert!(parse_entries(&list, 1).is_none());

    let mut one = vec![];
    one.extend_from_slice(&1u64.to_le_bytes());
    one.extend_from_slice(&[1; 32]);
    one.extend_from_slice(&[2; 32]);
    let (entries, next) = parse_entries(&one, 0).unwrap();
    assert!(entries == vec![AddressBookEntry { address: key(1), name_hash: [2; 32] }]);
    assert_eq!(next, 72);

    let mut payloads = vec![];
    payloads.extend_from_slice(&2u64.to_le_bytes());
    payloads.extend_from_slice(&1u64.to_le_bytes());
    payloads.push(9);
    payloads.extend_from_slice(&0u64.to_le_bytes());
    assert_eq!(parse_payloads(&payloads, 0), Some((vec![vec![9], vec![]], 25)));
    assert_eq!(parse_payloads(&payloads[..24], 0), None);
}

#[test]
fn changes_are_parsed_from_the_middle_of_bytes() {
    let config = ProgramInstruction::InitWallet { initial_config: config_update() }.pack();
    let (parsed, next) = parse_program_config_update(&config, 1).unwrap();
    assert_eq!(next, config.len());
    assert_eq!(format!("{:?}", parsed), format!("{:?}", config_update()));
    assert!(parse_program_config_update(&config, 2).is_none());

    let wallet = ProgramInstruction::InitBalanceAccountPolicyUpdate {
        account_guid_hash: [5; 32],
        update: wallet_update(),
    }
    .pack();
    let (parsed, next) = parse_wallet_config_update(&wallet, 33).unwrap();
    assert_eq!(next, wallet.len());
    assert_eq!(format!("{:?}", parsed), format!("{:?}", wallet_update()));

    let book = ProgramInstruction::InitAddressBookUpdate { update: book_update() }.pack();
    let (parsed, next) = parse_address_book_update(&book, 1).unwrap();
    assert_eq!(next, book.len());
    assert_eq!(format!("{:?}", parsed), format!("{:?}", book_update()));
}

fn staged_instruction() -> Instruction {
    Instruction {
        program_id: key(40),
        accounts: vec![
            AccountMeta { pubkey: key(1), is_signer: true, is_writable: false },
            AccountMeta { pubkey: key(2), is_signer: false, is_writable: true },
            AccountMeta { pubkey: key(3), is_signer: true, is_writable: true },
            AccountMeta { pubkey: key(4), is_signer: false, is_writable: false },
        ],
        data: vec![9, 8, 7],
    }
}

#[test]
fn staged_instruction_bytes_hold_program_accounts_and_data() {
    let bytes = staged_instruction().pack();
    let mut expected = vec![40u8; 32];
    expected.extend_from_slice(&4u64.to_le_bytes());
    for (n, flags) in [(1u8, 1u8), (2, 2), (3, 3), (4, 0)] {
        expected.extend_from_slice(&[n; 32]);
        expected.push(flags);
    }
    expected.extend_from_slice(&3u64.to_le_bytes());
    expected.extend_from_slice(&[9, 8, 7]);
    assert_eq!(bytes, expected);
}

#[test]
fn staged_instruction_is_decoded_from_its_own_bytes_only() {
    let instruction = staged_instruction();
    let bytes = instruction.pack();
    assert_eq!(Instruction::unpack(&bytes), Ok(staged_instruction()));
    let empty = Instruction { program_id: key(1), accounts: vec![], data: vec![] };
    assert_eq!(Instruction::unpack(&empty.pack()).unwrap(), empty);
    assert_eq!(empty.pack().len(), 48);

    assert_eq!(
        Instruction::unpack(&bytes[..bytes.len() - 1]),
        Err(WalletError::InvalidInstructionData)
    );
    let mut longer = bytes.clone();
    longer.push(0);
    assert_eq!(Instruction::unpack(&longer), Err(WalletError::InvalidInstructionData));
    let mut flags = bytes.clone();
    flags[32 + 8 + 32] = 4;
    assert_eq!(Instruction::unpack(&flags), Err(WalletError::InvalidInstructionData));
    let mut count = bytes.clone();
    count[32] = 5;
    assert_eq!(Instruction::unpack(&count), Err(WalletError::InvalidInstructionData));
    let mut huge = bytes.clone();
    huge[32..40].copy_from_slice(&u64::MAX.to_le_bytes());
    assert_eq!(Instruction::unpack(&huge), Err(WalletError::InvalidInstructionData));
    assert_eq!(Instruction::unpack(&[1, 2, 3]), Err(WalletError::InvalidInstructionData));

    let (metas, next) = parse_metas(&bytes, 32).unwrap();
    assert_eq!(metas, instruction.accounts);
    assert_eq!(next, 32 + 8 + 4 * 33);
    assert_eq!(parse_data(&bytes, next), Some((vec![9, 8, 7], bytes.len())));
    assert_eq!(parse_data(&bytes, next + 1), None);
}
