use vstd::prelude::*;
use vstd::std_specs::cmp::PartialEqSpecImpl;
use crate::model::signer::Signer;
use crate::pubkey::{bytes32_eq, Pubkey};
use crate::utils::{eq_is_identity, OptArrayFlags};

verus! {

/// The most signers a program configuration holds.
pub const MAX_SIGNERS: usize = 25;

/// The most address book entries a program configuration holds.
pub const MAX_ADDRESS_BOOK_ENTRIES: usize = 100;

/// The bytes that hold one flag for each signer slot.
pub const APPROVERS_STORAGE_SIZE: usize = 4;

/// The bytes that hold one flag for each address book slot.
pub const ALLOWED_DESTINATIONS_STORAGE_SIZE: usize = 13;

/// Which signer slots may approve.
pub type Approvers = OptArrayFlags<Signer, APPROVERS_STORAGE_SIZE>;

/// Which address book slots a wallet may send to.
pub type AllowedDestinations = OptArrayFlags<AddressBookEntry, ALLOWED_DESTINATIONS_STORAGE_SIZE>;

/// A destination that wallets may be allowed to send to.
#[derive(Debug, Clone, Copy, Eq)]
pub struct AddressBookEntry {
    pub address: Pubkey,
    pub name_hash: [u8; 32],
}

impl PartialEq for AddressBookEntry {
    fn eq(&self, other: &Self) -> (r: bool) {
        self.address == other.address && bytes32_eq(&self.name_hash, &other.name_hash)
    }
}

impl PartialEqSpecImpl for AddressBookEntry {
    open spec fn obeys_eq_spec() -> bool {
        true
    }

    open spec fn eq_spec(&self, other: &Self) -> bool {
        self.address == other.address && self.name_hash == other.name_hash
    }
}

impl AddressBookEntry {
    /// `==` on entries compares address and name, so it decides equality.
    pub proof fn lemma_eq_is_identity()
        ensures
            eq_is_identity::<AddressBookEntry>(),
    {
    }
}

/// The policy of one wallet: who approves its transfers, how many approvals
/// a transfer takes and how long it may wait for them, and where it may send.
#[derive(Debug, Clone, Copy)]
pub struct WalletConfig {
    pub wallet_guid_hash: [u8; 32],
    pub wallet_name_hash: [u8; 32],
    pub approvals_required_for_transfer: u8,
    pub approval_timeout_for_transfer: u64,
    pub transfer_approvers: Approvers,
    pub allowed_destinations: AllowedDestinations,
    pub policy_update_locked: bool,
}

/// What a wallet's policy says.
pub struct WalletConfigView {
    pub wallet_guid_hash: [u8; 32],
    pub wallet_name_hash: [u8; 32],
    pub approvals_required_for_transfer: u8,
    pub approval_timeout_for_transfer: u64,
    pub transfer_approvers: Seq<bool>,
    pub allowed_destinations: Seq<bool>,
    pub policy_update_locked: bool,
}

impl View for WalletConfig {
    type V = WalletConfigView;

    open spec fn view(&self) -> WalletConfigView {
        WalletConfigView {
            wallet_guid_hash: self.wallet_guid_hash,
            wallet_name_hash: self.wallet_name_hash,
            approvals_required_for_transfer: self.approvals_required_for_transfer,
            approval_timeout_for_transfer: self.approval_timeout_for_transfer,
            transfer_approvers: self.transfer_approvers@,
            allowed_destinations: self.allowed_destinations@,
            policy_update_locked: self.policy_update_locked,
        }
    }
}

} // verus!
