pub mod dapp_instruction;
pub mod dapp_multisig_data;
pub mod multisig_op;
pub mod program_config;
pub mod program_config_pack;
pub mod signer;
pub mod wallet_config;
