use strike_wallet::account::AccountInfo;
use strike_wallet::error::WalletError;
use strike_wallet::handlers::dapp_transaction_handler::{
    account_balances, balance_changes, balance_changes_from_simulation, finalize_simulated,
    spl_balance, spl_balance_changes, spl_balances, SplBalance,
};
use strike_wallet::pubkey::Pubkey;

fn key(n: u8) -> Pubkey {
    Pubkey::new_from_array([n; 32])
}

const TOKEN_PROGRAM: [u8; 32] = [
    6, 221, 246, 225, 215, 101, 161, 147, 217, 203, 225, 70, 206, 235, 121, 172, 28, 180, 133,
    237, 95, 91, 55, 145, 58, 140, 245, 133, 126, 255, 0, 169,
];

fn token_account_data(mint: Pubkey, amount: u64, state: u8) -> Vec<u8> {
    let mut data = vec![0u8; 165];
    data[0..32].copy_from_slice(&mint.to_bytes());
    data[32..64].copy_from_slice(&[77; 32]);
    data[64..72].copy_from_slice(&amount.to_le_bytes());
    data[108] = state;
    data
}

#[test]
fn test_balance_changes() {
    assert_eq!(
        "Simulation balance changes: [] []",
        balance_changes_from_simulation(vec![], vec![], vec![], vec![], &vec![])
    );
    assert_eq!(
        "Simulation balance changes: [(0, '+', 100)] []",
        balance_changes_from_simulation(vec![0], vec![], vec![100], vec![], &vec![])
    );
    assert_eq!(
        "Simulation balance changes: [(1, '-', 100)] []",
        balance_changes_from_simulation(vec![0, 100], vec![], vec![0, 0], vec![], &vec![])
    );
    let account = key(1);
    let owner = key(2);
    let token_mint = key(3);
    let account_info = AccountInfo::new(account, false, 0, owner, vec![]);

    assert_eq!(
        "Simulation balance changes: [] [(0, '+', 100)]",
        balance_changes_from_simulation(
            vec![],
            vec![SplBalance { account, token_mint, balance: 0 }],
            vec![],
            vec![SplBalance { account, token_mint, balance: 100 }],
            &vec![account_info.clone()]
        )
    );

    let other_account = key(4);
    let mut other_account_info = account_info.clone();
    other_account_info.key = other_account;

    assert_eq!(
        "Simulation balance changes: [] [(1, '-', 100)]",
        balance_changes_from_simulation(
            vec![],
            vec![SplBalance { account, token_mint, balance: 200 }],
            vec![],
            vec![SplBalance { account, token_mint, balance: 100 }],
            &vec![other_account_info.clone(), account_info.clone()]
        )
    );

    assert_eq!(
        "Simulation balance changes: [] [(0, '+', 100)]",
        balance_changes_from_simulation(
            vec![],
            vec![SplBalance { account: other_account, token_mint, balance: 200 }],
            vec![],
            vec![SplBalance { account, token_mint, balance: 100 }],
            &vec![account_info.clone(), other_account_info.clone()]
        )
    );
}

#[test]
fn balance_changes_leave_out_what_did_not_change() {
    assert_eq!(
        balance_changes(&vec![5, 7, 9, 0], &vec![5, 10, 2, 0, 99]),
        vec![(1, '+', 3), (2, '-', 7)]
    );
    assert_eq!(balance_changes(&vec![0], &vec![u64::MAX]), vec![(0, '+', u64::MAX)]);
    assert_eq!(balance_changes(&vec![], &vec![1]), vec![]);
}

#[test]
fn balance_change_index_keeps_its_low_eight_bits() {
    let starting = vec![0u64; 258];
    let mut ending = vec![0u64; 258];
    ending[255] = 1;
    ending[257] = 2;
    assert_eq!(balance_changes(&starting, &ending), vec![(255, '+', 1), (1, '+', 2)]);
}

#[test]
fn token_balance_changes_match_by_account_and_mint() {
    let accounts = vec![
        AccountInfo::new(key(1), false, 0, key(9), vec![]),
        AccountInfo::new(key(2), false, 0, key(9), vec![]),
    ];
    let starting = vec![
        SplBalance { account: key(2), token_mint: key(30), balance: 50 },
        SplBalance { account: key(2), token_mint: key(31), balance: 60 },
        SplBalance { account: key(2), token_mint: key(31), balance: 61 },
    ];
    let ending = vec![
        SplBalance { account: key(2), token_mint: key(31), balance: 10 },
        SplBalance { account: key(1), token_mint: key(30), balance: 5 },
        SplBalance { account: key(2), token_mint: key(30), balance: 50 },
        SplBalance { account: key(8), token_mint: key(30), balance: 0 },
    ];
    assert_eq!(
        spl_balance_changes(&starting, &ending, &accounts),
        vec![(1, '-', 50), (0, '+', 5)]
    );
}

#[test]
fn account_balances_follow_the_accounts() {
    let accounts = vec![
        AccountInfo::new(key(1), false, 11, key(9), vec![]),
        AccountInfo::new(key(2), true, 0, key(9), vec![1]),
        AccountInfo::new(key(3), false, u64::MAX, key(9), vec![]),
    ];
    assert_eq!(account_balances(&accounts), vec![11, 0, u64::MAX]);
    assert_eq!(account_balances(&vec![]), Vec::<u64>::new());
}

#[test]
fn token_balances_come_from_token_accounts_in_use_only() {
    let token_program = Pubkey::new_from_array(TOKEN_PROGRAM);
    let accounts = vec![
        AccountInfo::new(key(1), false, 0, token_program, token_account_data(key(30), 500, 1)),
        AccountInfo::new(key(2), false, 0, key(9), token_account_data(key(30), 600, 1)),
        AccountInfo::new(key(3), false, 0, token_program, token_account_data(key(31), 700, 0)),
        AccountInfo::new(key(4), false, 0, token_program, vec![1, 2, 3]),
        AccountInfo::new(key(5), false, 0, token_program, token_account_data(key(32), 800, 2)),
    ];
    assert_eq!(
        spl_balances(&accounts),
        vec![
            SplBalance { account: key(1), token_mint: key(30), balance: 500 },
            SplBalance { account: key(5), token_mint: key(32), balance: 800 },
        ]
    );
}

#[test]
fn token_balance_needs_owner_and_decoded_account() {
    let account = AccountInfo::new(key(1), false, 0, key(9), vec![]);
    assert_eq!(
        spl_balance(&account, true, Some((key(30), 5))),
        Some(SplBalance { account: key(1), token_mint: key(30), balance: 5 })
    );
    assert_eq!(spl_balance(&account, false, Some((key(30), 5))), None);
    assert_eq!(spl_balance(&account, true, None), None);
}

#[test]
fn dry_run_ends_with_report_and_error() {
    let token_program = Pubkey::new_from_array(TOKEN_PROGRAM);
    let accounts = vec![
        AccountInfo::new(key(1), false, 90, key(9), vec![]),
        AccountInfo::new(key(2), false, 10, token_program, token_account_data(key(30), 500, 1)),
    ];
    let starting_spl = vec![SplBalance { account: key(2), token_mint: key(30), balance: 520 }];
    let (report, error) = finalize_simulated(vec![100, 10], starting_spl, &accounts);
    assert_eq!(report, "Simulation balance changes: [(0, '-', 10)] [(1, '-', 20)]");
    assert_eq!(error, WalletError::SimulationFinished);
}
