use vstd::prelude::*;
use crate::model::dapp_multisig_data::DAppBookEntry;
use crate::model::multisig_op::ApprovalDisposition;
use crate::model::signer::Signer;
use crate::model::wallet_config::AddressBookEntry;
use crate::utils::copy_items;

verus! {

/// A change to the program-wide policy: the new threshold and timeout, and
/// what to add to and remove from the signers, the approvers of policy
/// changes and the address book.
#[derive(Debug)]
pub struct ProgramConfigUpdate {
    pub approvals_required_for_config: u8,
    pub approval_timeout_for_config: u64,
    pub add_signers: Vec<Signer>,
    pub remove_signers: Vec<Signer>,
    pub add_config_approvers: Vec<Signer>,
    pub remove_config_approvers: Vec<Signer>,
    pub add_address_book_entries: Vec<AddressBookEntry>,
    pub remove_address_book_entries: Vec<AddressBookEntry>,
}

/// A change to one wallet's policy: its new name, threshold and timeout, and
/// what to add to and remove from its approvers and its allowed
/// destinations.
#[derive(Debug)]
pub struct WalletConfigUpdate {
    pub name_hash: [u8; 32],
    pub approvals_required_for_transfer: u8,
    pub approval_timeout_for_transfer: u64,
    pub add_transfer_approvers: Vec<Signer>,
    pub remove_transfer_approvers: Vec<Signer>,
    pub add_allowed_destinations: Vec<AddressBookEntry>,
    pub remove_allowed_destinations: Vec<AddressBookEntry>,
}

/// A change to the address book alone.
#[derive(Debug)]
pub struct AddressBookUpdate {
    pub add_address_book_entries: Vec<AddressBookEntry>,
    pub remove_address_book_entries: Vec<AddressBookEntry>,
}

impl AddressBookUpdate {
    /// Whether two changes say the same.
    pub open spec fn same_as(self, other: AddressBookUpdate) -> bool {
        &&& self.add_address_book_entries@ == other.add_address_book_entries@
        &&& self.remove_address_book_entries@ == other.remove_address_book_entries@
    }
}

impl Clone for AddressBookUpdate {
    fn clone(&self) -> (r: Self)
        ensures
            r.same_as(*self),
    {
        AddressBookUpdate {
            add_address_book_entries: copy_items(&self.add_address_book_entries),
            remove_address_book_entries: copy_items(&self.remove_address_book_entries),
        }
    }
}

impl ProgramConfigUpdate {
    /// Whether two changes say the same.
    pub open spec fn same_as(self, other: ProgramConfigUpdate) -> bool {
        &&& self.approvals_required_for_config == other.approvals_required_for_config
        &&& self.approval_timeout_for_config == other.approval_timeout_for_config
        &&& self.add_signers@ == other.add_signers@
        &&& self.remove_signers@ == other.remove_signers@
        &&& self.add_config_approvers@ == other.add_config_approvers@
        &&& self.remove_config_approvers@ == other.remove_config_approvers@
        &&& self.add_address_book_entries@ == other.add_address_book_entries@
        &&& self.remove_address_book_entries@ == other.remove_address_book_entries@
    }
}

impl Clone for ProgramConfigUpdate {
    fn clone(&self) -> (r: Self)
        ensures
            r.same_as(*self),
    {
        ProgramConfigUpdate {
            approvals_required_for_config: self.approvals_required_for_config,
            approval_timeout_for_config: self.approval_timeout_for_config,
            add_signers: copy_items(&self.add_signers),
            remove_signers: copy_items(&self.remove_signers),
            add_config_approvers: copy_items(&self.add_config_approvers),
            remove_config_approvers: copy_items(&self.remove_config_approvers),
            add_address_book_entries: copy_items(&self.add_address_book_entries),
            remove_address_book_entries: copy_items(&self.remove_address_book_entries),
        }
    }
}

impl WalletConfigUpdate {
    /// Whether two changes say the same.
    pub open spec fn same_as(self, other: WalletConfigUpdate) -> bool {
        &&& self.name_hash == other.name_hash
        &&& self.approvals_required_for_transfer == other.approvals_required_for_transfer
        &&& self.approval_timeout_for_transfer == other.approval_timeout_for_transfer
        &&& self.add_transfer_approvers@ == other.add_transfer_approvers@
        &&& self.remove_transfer_approvers@ == other.remove_transfer_approvers@
        &&& self.add_allowed_destinations@ == other.add_allowed_destinations@
        &&& self.remove_allowed_destinations@ == other.remove_allowed_destinations@
    }
}

impl Clone for WalletConfigUpdate {
    fn clone(&self) -> (r: Self)
        ensures
            r.same_as(*self),
    {
        WalletConfigUpdate {
            name_hash: self.name_hash,
            approvals_required_for_transfer: self.approvals_required_for_transfer,
            approval_timeout_for_transfer: self.approval_timeout_for_transfer,
            add_transfer_approvers: copy_items(&self.add_transfer_approvers),
            remove_transfer_approvers: copy_items(&self.remove_transfer_approvers),
            add_allowed_destinations: copy_items(&self.add_allowed_destinations),
            remove_allowed_destinations: copy_items(&self.remove_allowed_destinations),
        }
    }
}

/// What a call asks the program to do.
#[derive(Debug)]
pub enum ProgramInstruction {
    /// Take the configuration into use with a first policy.
    InitWallet { initial_config: ProgramConfigUpdate },
    /// Propose a change of the program-wide policy.
    InitWalletConfigPolicyUpdate { update: ProgramConfigUpdate },
    /// Finalize a change of the program-wide policy.
    FinalizeWalletConfigPolicyUpdate { update: ProgramConfigUpdate },
    /// Propose a change of a wallet's policy.
    InitBalanceAccountPolicyUpdate { account_guid_hash: [u8; 32], update: WalletConfigUpdate },
    /// Finalize a change of a wallet's policy.
    FinalizeBalanceAccountPolicyUpdate { account_guid_hash: [u8; 32], update: WalletConfigUpdate },
    /// Propose a change of the address book.
    InitAddressBookUpdate { update: AddressBookUpdate },
    /// Finalize a change of the address book.
    FinalizeAddressBookUpdate { update: AddressBookUpdate },
    /// Record the caller's vote on an operation.
    SetApprovalDisposition { disposition: ApprovalDisposition, params_hash: [u8; 32] },
    /// Propose a call whose instructions are handed over later.
    InitDAppTransaction { account_guid_hash: [u8; 32], dapp: DAppBookEntry, instruction_count: u8 },
    /// Hand over instructions of a staged call.
    SupplyDAppTransactionInstructions { starting_index: u8, instructions: Vec<Vec<u8>> },
    /// Finalize a staged call.
    FinalizeDAppTransaction { account_guid_hash: [u8; 32], params_hash: [u8; 32] },
}

} // verus!
