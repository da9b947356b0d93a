pub mod address_book_update_handler;
pub mod balance_account_policy_update_handler;
pub mod dapp_transaction_handler;
pub mod init_wallet_handler;
pub mod utils;
pub mod wallet_config_policy_update_handler;
