use vstd::prelude::*;
use crate::pubkey::Pubkey;

verus! {

/// What a call is told about one of the accounts it was handed: its address,
/// whether its holder signed the call, its balance, the program that owns it
/// and the bytes it stores.
#[derive(Debug, Clone)]
pub struct AccountInfo {
    pub key: Pubkey,
    pub is_signer: bool,
    pub lamports: u64,
    pub owner: Pubkey,
    pub data: Vec<u8>,
}

impl AccountInfo {
    /// The account with the given contents.
    pub fn new(key: Pubkey, is_signer: bool, lamports: u64, owner: Pubkey, data: Vec<u8>) -> (r:
        Self)
        ensures
            r.key == key,
            r.is_signer == is_signer,
            r.lamports == lamports,
            r.owner == owner,
            r.data == data,
    {
        AccountInfo { key, is_signer, lamports, owner, data }
    }
}

} // verus!
