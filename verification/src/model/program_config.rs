use vstd::prelude::*;
use crate::account::AccountInfo;
use crate::error::WalletError;
use crate::instruction::{AddressBookUpdate, ProgramConfigUpdate, WalletConfigUpdate};
use crate::model::signer::Signer;
use crate::model::wallet_config::{
    AddressBookEntry, AllowedDestinations, Approvers, WalletConfig, WalletConfigView,
    MAX_ADDRESS_BOOK_ENTRIES, MAX_SIGNERS,
};
use crate::pubkey::{bytes32_eq, Pubkey};
use crate::utils::{
    all_held, contains_item, copy_items, count_true, eq_is_identity, free_marks, holder_marks,
    lemma_count_single, lemma_place_first_keeps_live, lemma_true_positions,
    lemma_with_slots_of_marks, lemma_without_frees_holders, placed, ref_ids, true_positions,
    with_marked, without, OptArray, OptArrayRef,
};

verus! {

/// The most wallets a program configuration holds.
pub const MAX_WALLETS: usize = 10;

/// The registry of signers.
pub type Signers = OptArray<Signer, MAX_SIGNERS>;

/// The registry of destinations.
pub type AddressBook = OptArray<AddressBookEntry, MAX_ADDRESS_BOOK_ENTRIES>;

/// The program-wide policy: the signers, the address book, who approves
/// policy changes, how many approvals a change takes and how long it may wait
/// for them, and the policy of each wallet.
#[derive(Debug)]
pub struct ProgramConfig {
    pub is_initialized: bool,
    pub version: u32,
    pub signers: Signers,
    pub assistant: Signer,
    pub address_book: AddressBook,
    pub approvals_required_for_config: u8,
    pub approval_timeout_for_config: u64,
    pub config_approvers: Approvers,
    pub config_policy_update_locked: bool,
    pub wallets: Vec<WalletConfig>,
}

/// What a program configuration says.
pub struct ProgramConfigView {
    pub is_initialized: bool,
    pub version: u32,
    pub signers: Seq<Option<Signer>>,
    pub assistant: Signer,
    pub address_book: Seq<Option<AddressBookEntry>>,
    pub approvals_required_for_config: u8,
    pub approval_timeout_for_config: u64,
    pub config_approvers: Seq<bool>,
    pub config_policy_update_locked: bool,
    pub wallets: Seq<WalletConfigView>,
}

impl View for ProgramConfig {
    type V = ProgramConfigView;

    open spec fn view(&self) -> ProgramConfigView {
        ProgramConfigView {
            is_initialized: self.is_initialized,
            version: self.version,
            signers: self.signers@,
            assistant: self.assistant,
            address_book: self.address_book@,
            approvals_required_for_config: self.approvals_required_for_config,
            approval_timeout_for_config: self.approval_timeout_for_config,
            config_approvers: self.config_approvers@,
            config_policy_update_locked: self.config_policy_update_locked,
            wallets: wallet_views(self.wallets@),
        }
    }
}

/// What each wallet policy says.
pub open spec fn wallet_views(wallets: Seq<WalletConfig>) -> Seq<WalletConfigView> {
    Seq::new(wallets.len(), |i: int| wallets[i]@)
}

/// Every flag that is on belongs to a slot that holds an item.
pub open spec fn flags_within<A>(flags: Seq<bool>, slots: Seq<Option<A>>) -> bool {
    forall|i: int| 0 <= i < flags.len() && #[trigger] flags[i] ==> i < slots.len() && slots[i] is Some
}

/// The approvals that a transfer out of the wallet takes do not exceed the
/// wallet's approvers.
pub open spec fn wallet_threshold_holds(wallet: WalletConfigView) -> bool {
    wallet.approvals_required_for_transfer <= count_true(wallet.transfer_approvers)
}

/// A wallet's policy is in order: its flags belong to slots that hold a
/// signer or a destination, and its threshold does not exceed its approvers.
pub open spec fn wallet_within(
    wallet: WalletConfigView,
    signers: Seq<Option<Signer>>,
    address_book: Seq<Option<AddressBookEntry>>,
) -> bool {
    &&& wallet.transfer_approvers.len() == 32
    &&& wallet.allowed_destinations.len() == 104
    &&& flags_within(wallet.transfer_approvers, signers)
    &&& flags_within(wallet.allowed_destinations, address_book)
    &&& wallet_threshold_holds(wallet)
}

/// The wallet policy with the approver flags of the marked signer slots off.
pub open spec fn wallet_without_approvers(wallet: WalletConfigView, marks: Seq<bool>) -> WalletConfigView {
    WalletConfigView {
        transfer_approvers: with_marked(wallet.transfer_approvers, marks, false),
        ..wallet
    }
}

/// The wallet policy with the destination flags of the marked address book
/// slots off.
pub open spec fn wallet_without_destinations(
    wallet: WalletConfigView,
    marks: Seq<bool>,
) -> WalletConfigView {
    WalletConfigView {
        allowed_destinations: with_marked(wallet.allowed_destinations, marks, false),
        ..wallet
    }
}

/// The wallet policies after signers and destinations left: the flags of the
/// marked slots are off in every wallet.
pub open spec fn wallets_without(
    wallets: Seq<WalletConfigView>,
    signer_marks: Seq<bool>,
    entry_marks: Seq<bool>,
) -> Seq<WalletConfigView> {
    Seq::new(
        wallets.len(),
        |i: int|
            wallet_without_destinations(
                wallet_without_approvers(wallets[i], signer_marks),
                entry_marks,
            ),
    )
}

impl ProgramConfigView {
    /// The registries have their sizes, every flag that is on, here and in
    /// each wallet, belongs to a slot that holds an item, and no threshold,
    /// here or in a wallet, exceeds the approvers it is held against.
    pub open spec fn wf(self) -> bool {
        &&& self.config_threshold_met()
        &&& self.signers.len() == MAX_SIGNERS
        &&& self.address_book.len() == MAX_ADDRESS_BOOK_ENTRIES
        &&& self.config_approvers.len() == 32
        &&& self.wallets.len() <= MAX_WALLETS
        &&& flags_within(self.config_approvers, self.signers)
        &&& forall|i: int|
            0 <= i < self.wallets.len() ==> wallet_within(
                #[trigger] self.wallets[i],
                self.signers,
                self.address_book,
            )
    }

    /// The approvals that a policy change takes do not exceed the approvers.
    pub open spec fn config_threshold_met(self) -> bool {
        self.approvals_required_for_config <= count_true(self.config_approvers)
    }

    /// The signers after the update's removals.
    pub open spec fn signers_after_removal(self, update: ProgramConfigUpdate) -> Seq<Option<Signer>> {
        without(self.signers, update.remove_signers@)
    }

    /// The signers after the update's removals and additions.
    pub open spec fn signers_after(self, update: ProgramConfigUpdate) -> Seq<Option<Signer>> {
        placed(self.signers_after_removal(update), update.add_signers@)
    }

    /// The address book after the update's removals.
    pub open spec fn address_book_after_removal(self, update: ProgramConfigUpdate) -> Seq<
        Option<AddressBookEntry>,
    > {
        without(self.address_book, update.remove_address_book_entries@)
    }

    /// The address book after the update's removals and additions.
    pub open spec fn address_book_after(self, update: ProgramConfigUpdate) -> Seq<
        Option<AddressBookEntry>,
    > {
        placed(self.address_book_after_removal(update), update.add_address_book_entries@)
    }

    /// The approvers of policy changes after the update: removed signers lose
    /// their flag, then the approvers to remove, then the approvers to add
    /// gain theirs.
    pub open spec fn config_approvers_after(self, update: ProgramConfigUpdate) -> Seq<bool> {
        let signers = self.signers_after(update);
        with_marked(
            with_marked(
                with_marked(
                    self.config_approvers,
                    holder_marks(self.signers, update.remove_signers@),
                    false,
                ),
                holder_marks(signers, update.remove_config_approvers@),
                false,
            ),
            holder_marks(signers, update.add_config_approvers@),
            true,
        )
    }

    /// Whether every wallet still has as many approvers as its transfers
    /// take once the signers to remove have lost their flags.
    pub open spec fn wallets_keep_thresholds(self, update: ProgramConfigUpdate) -> bool {
        forall|i: int|
            0 <= i < self.wallets.len() ==> wallet_threshold_holds(
                wallet_without_approvers(
                    #[trigger] self.wallets[i],
                    holder_marks(self.signers, update.remove_signers@),
                ),
            )
    }

    /// Whether the update is acceptable: the signers and entries to add fit
    /// once those to remove are gone, every approver to add is then a signer,
    /// the new threshold does not exceed the approvers that result, and no
    /// wallet is left with fewer approvers than its transfers take.
    pub open spec fn accepts(self, update: ProgramConfigUpdate) -> bool {
        &&& count_true(free_marks(self.signers_after_removal(update))) >= update.add_signers@.len()
        &&& all_held(self.signers_after(update), update.add_config_approvers@)
        &&& count_true(free_marks(self.address_book_after_removal(update)))
            >= update.add_address_book_entries@.len()
        &&& update.approvals_required_for_config <= count_true(self.config_approvers_after(update))
        &&& self.wallets_keep_thresholds(update)
    }

    /// The configuration that an acceptable update leaves.
    pub open spec fn updated(self, update: ProgramConfigUpdate) -> ProgramConfigView {
        ProgramConfigView {
            signers: self.signers_after(update),
            address_book: self.address_book_after(update),
            approvals_required_for_config: update.approvals_required_for_config,
            approval_timeout_for_config: update.approval_timeout_for_config,
            config_approvers: self.config_approvers_after(update),
            wallets: wallets_without(
                self.wallets,
                holder_marks(self.signers, update.remove_signers@),
                holder_marks(self.address_book, update.remove_address_book_entries@),
            ),
            ..self
        }
    }
}


/// An acceptable update leaves a configuration whose flags still belong to
/// live slots, and in which no threshold, of policy changes or of a wallet,
/// exceeds the approvers it is held against.
pub proof fn lemma_update_keeps_wf(config: ProgramConfigView, update: ProgramConfigUpdate)
    requires
        config.wf(),
        config.accepts(update),
    ensures
        config.updated(update).wf(),
        config.updated(update).config_threshold_met(),
{
    let signers1 = config.signers_after_removal(update);
    let signers2 = config.signers_after(update);
    let book1 = config.address_book_after_removal(update);
    let book2 = config.address_book_after(update);
    lemma_true_positions(free_marks(signers1));
    lemma_true_positions(free_marks(book1));
    lemma_place_first_keeps_live(
        signers1,
        true_positions(free_marks(signers1)),
        update.add_signers@,
        update.add_signers@.len(),
    );
    lemma_place_first_keeps_live(
        book1,
        true_positions(free_marks(book1)),
        update.add_address_book_entries@,
        update.add_address_book_entries@.len(),
    );
    let after = config.updated(update);
    assert forall|i: int| 0 <= i < after.wallets.len() implies wallet_within(
        #[trigger] after.wallets[i],
        after.signers,
        after.address_book,
    ) by {
        assert(wallet_within(config.wallets[i], config.signers, config.address_book));
        assert(wallet_threshold_holds(
            wallet_without_approvers(
                config.wallets[i],
                holder_marks(config.signers, update.remove_signers@),
            ),
        ));
    }
}

/// A signer that is removed loses its vote everywhere: after an accepted
/// update the flag of each slot that held a removed signer is off among the
/// approvers of policy changes, unless a newly added approver has taken the
/// slot, and off in every wallet. A wallet's other flags are as they were,
/// and so are the flags of policy changes that the update does not name.
pub proof fn lemma_removed_signer_loses_flags(
    config: ProgramConfigView,
    update: ProgramConfigUpdate,
    i: int,
)
    requires
        config.wf(),
        config.accepts(update),
        0 <= i < MAX_SIGNERS,
        config.signers[i] is Some,
        update.remove_signers@.contains(config.signers[i]->Some_0),
    ensures
        !holder_marks(config.signers_after(update), update.add_config_approvers@)[i]
            ==> !config.updated(update).config_approvers[i],
        forall|k: int|
            0 <= k < config.wallets.len() ==> !(#[trigger] config.updated(
                update,
            ).wallets[k]).transfer_approvers[i],
        forall|k: int, j: int|
            0 <= k < config.wallets.len() && 0 <= j < 32 && !(j < MAX_SIGNERS && holder_marks(
                config.signers,
                update.remove_signers@,
            )[j]) ==> (#[trigger] config.updated(update).wallets[k].transfer_approvers[j])
                == config.wallets[k].transfer_approvers[j],
        forall|j: int|
            0 <= j < 32 && !(j < MAX_SIGNERS && (holder_marks(
                config.signers,
                update.remove_signers@,
            )[j] || holder_marks(
                config.signers_after(update),
                update.remove_config_approvers@,
            )[j] || holder_marks(config.signers_after(update), update.add_config_approvers@)[j]))
                ==> config.updated(update).config_approvers[j] == config.config_approvers[j],
{
    let signers1 = config.signers_after_removal(update);
    lemma_true_positions(free_marks(signers1));
    lemma_place_first_keeps_live(
        signers1,
        true_positions(free_marks(signers1)),
        update.add_signers@,
        update.add_signers@.len(),
    );
    assert(holder_marks(config.signers, update.remove_signers@)[i]);
    assert forall|k: int| 0 <= k < config.wallets.len() implies !(#[trigger] config.updated(
        update,
    ).wallets[k]).transfer_approvers[i] by {
        assert(wallet_within(config.wallets[k], config.signers, config.address_book));
    }
    assert forall|k: int, j: int|
        0 <= k < config.wallets.len() && 0 <= j < 32 && !(j < MAX_SIGNERS && holder_marks(
            config.signers,
            update.remove_signers@,
        )[j]) implies (#[trigger] config.updated(update).wallets[k].transfer_approvers[j])
        == config.wallets[k].transfer_approvers[j] by {
        assert(wallet_within(config.wallets[k], config.signers, config.address_book));
    }
}

/// A signer that is removed frees its slots: after an accepted update that
/// adds no signer, every slot that held a removed signer is empty, no slot
/// holds a removed signer, and the empty slots are those that were empty
/// and those that held a removed signer. So the registry then has room for
/// as many signers as slots were freed, also where it was full before.
pub proof fn lemma_removed_signer_frees_slots(config: ProgramConfigView, update: ProgramConfigUpdate)
    requires
        config.wf(),
        update.add_signers@.len() == 0,
    ensures
        forall|i: int|
            0 <= i < MAX_SIGNERS && holder_marks(config.signers, update.remove_signers@)[i] ==> (
            #[trigger] config.signers_after(update)[i]) is None,
        forall|k: int|
            0 <= k < update.remove_signers@.len() ==> !config.signers_after(update).contains(
                Some(#[trigger] update.remove_signers@[k]),
            ),
        count_true(free_marks(config.signers_after(update))) == count_true(
            free_marks(config.signers),
        ) + count_true(holder_marks(config.signers, update.remove_signers@)),
        forall|i: int|
            0 <= i < MAX_SIGNERS && holder_marks(config.signers, update.remove_signers@)[i]
                && (forall|j: int|
                0 <= j < MAX_SIGNERS && j != i ==> !holder_marks(
                    config.signers,
                    update.remove_signers@,
                )[j]) ==> count_true(free_marks(config.signers_after(update))) == count_true(
                free_marks(config.signers),
            ) + 1,
        forall|later: ProgramConfigUpdate|
            later.remove_signers@.len() == 0 && later.add_signers@.len() <= count_true(
                holder_marks(config.signers, update.remove_signers@),
            ) ==> count_true(
                free_marks(
                    (#[trigger] config.updated(update).signers_after_removal(later)),
                ),
            ) >= later.add_signers@.len(),
{
    lemma_without_frees_holders(config.signers, update.remove_signers@);
    assert(config.signers_after(update) == config.signers_after_removal(update));
    assert forall|i: int|
        0 <= i < MAX_SIGNERS && holder_marks(config.signers, update.remove_signers@)[i] && (
        forall|j: int|
            0 <= j < MAX_SIGNERS && j != i ==> !holder_marks(
                config.signers,
                update.remove_signers@,
            )[j]) implies count_true(free_marks(config.signers_after(update))) == count_true(
        free_marks(config.signers),
    ) + 1 by {
        lemma_count_single(holder_marks(config.signers, update.remove_signers@), i);
    }
    assert forall|later: ProgramConfigUpdate|
        later.remove_signers@.len() == 0 && later.add_signers@.len() <= count_true(
            holder_marks(config.signers, update.remove_signers@),
        ) implies count_true(
        free_marks((#[trigger] config.updated(update).signers_after_removal(later))),
    ) >= later.add_signers@.len() by {
        let after = config.updated(update).signers;
        assert forall|i: int| 0 <= i < after.len() implies !holder_marks(
            after,
            later.remove_signers@,
        )[i] by {
            if after[i] is Some {
                assert(!later.remove_signers@.contains(after[i]->Some_0));
            }
        }
        assert(without(after, later.remove_signers@) =~= after);
    }
}

/// Whether no wallet's threshold exceeds its approvers.
fn thresholds_hold(wallets: &Vec<WalletConfig>) -> (r: bool)
    ensures
        r == forall|i: int| 0 <= i < wallets@.len() ==> wallet_threshold_holds(
            (#[trigger] wallets@[i])@,
        ),
{
    let mut i: usize = 0;
    while i < wallets.len()
        invariant
            i <= wallets.len(),
            forall|k: int| 0 <= k < i ==> wallet_threshold_holds((#[trigger] wallets@[k])@),
        decreases wallets.len() - i,
    {
        if wallets[i].approvals_required_for_transfer as usize
            > wallets[i].transfer_approvers.count_enabled() {
            assert(!wallet_threshold_holds(wallets@[i as int]@));
            return false;
        }
        i += 1;
    }
    true
}

/// The wallet policies with the flags of the given signer slots and address
/// book slots turned off.
fn wallets_cleared(
    wallets: &Vec<WalletConfig>,
    signer_slots: &Vec<OptArrayRef<Signer>>,
    entry_slots: &Vec<OptArrayRef<AddressBookEntry>>,
    Ghost(signer_marks): Ghost<Seq<bool>>,
    Ghost(entry_marks): Ghost<Seq<bool>>,
) -> (r: Vec<WalletConfig>)
    requires
        signer_marks.len() == MAX_SIGNERS,
        entry_marks.len() == MAX_ADDRESS_BOOK_ENTRIES,
        ref_ids(signer_slots@) == true_positions(signer_marks),
        ref_ids(entry_slots@) == true_positions(entry_marks),
    ensures
        wallet_views(r@) == wallets_without(wallet_views(wallets@), signer_marks, entry_marks),
{
    proof {
        lemma_true_positions(signer_marks);
        lemma_true_positions(entry_marks);
        assert forall|k: int| 0 <= k < signer_slots@.len() implies (#[trigger] signer_slots@[k])@
            < 32 by {
            assert(signer_slots@[k]@ == ref_ids(signer_slots@)[k]);
        }
        assert forall|k: int| 0 <= k < entry_slots@.len() implies (#[trigger] entry_slots@[k])@
            < 104 by {
            assert(entry_slots@[k]@ == ref_ids(entry_slots@)[k]);
        }
    }
    let mut cleared: Vec<WalletConfig> = Vec::new();
    let mut i: usize = 0;
    while i < wallets.len()
        invariant
            i <= wallets.len(),
            cleared@.len() == i,
            ref_ids(signer_slots@) == true_positions(signer_marks),
            ref_ids(entry_slots@) == true_positions(entry_marks),
            signer_marks.len() == MAX_SIGNERS,
            entry_marks.len() == MAX_ADDRESS_BOOK_ENTRIES,
            forall|k: int| 0 <= k < signer_slots@.len() ==> (#[trigger] signer_slots@[k])@ < 32,
            forall|k: int| 0 <= k < entry_slots@.len() ==> (#[trigger] entry_slots@[k])@ < 104,
            forall|k: int|
                0 <= k < i ==> (#[trigger] cleared@[k])@ == wallet_without_destinations(
                    wallet_without_approvers(wallets@[k]@, signer_marks),
                    entry_marks,
                ),
        decreases wallets.len() - i,
    {
        let mut wallet = wallets[i];
        wallet.transfer_approvers.set_all(signer_slots, false);
        wallet.allowed_destinations.set_all(entry_slots, false);
        proof {
            lemma_with_slots_of_marks(wallets@[i as int]@.transfer_approvers, signer_marks, false);
            lemma_with_slots_of_marks(wallets@[i as int]@.allowed_destinations, entry_marks, false);
        }
        cleared.push(wallet);
        i += 1;
    }
    assert(wallet_views(cleared@) =~= wallets_without(
        wallet_views(wallets@),
        signer_marks,
        entry_marks,
    ));
    cleared
}

impl ProgramConfig {
    /// The registries keep their books and every flag that is on belongs to a
    /// slot that holds an item.
    pub open spec fn wf(&self) -> bool {
        &&& self.signers.wf()
        &&& self.address_book.wf()
        &&& self@.wf()
    }

    /// The configuration that the update leaves, if the update is
    /// acceptable.
    fn with_update(&self, config_update: &ProgramConfigUpdate) -> (r: Option<ProgramConfig>)
        requires
            self.wf(),
        ensures
            r is Some == self@.accepts(*config_update),
            r is Some ==> r->Some_0.wf() && r->Some_0@ == self@.updated(*config_update),
    {
        proof {
            Signer::lemma_eq_is_identity();
            AddressBookEntry::lemma_eq_is_identity();
        }
        let ghost signer_marks = holder_marks(self.signers@, config_update.remove_signers@);
        let ghost entry_marks = holder_marks(
            self.address_book@,
            config_update.remove_address_book_entries@,
        );
        let mut signers = self.signers.clone();
        let removed_signers = signers.remove_items(&config_update.remove_signers);
        let mut config_approvers = self.config_approvers;
        config_approvers.set_all(&removed_signers, false);
        proof {
            lemma_with_slots_of_marks(self.config_approvers@, signer_marks, false);
            signers.lemma_free_and_live_fill_capacity();
        }
        if !signers.add_items(&config_update.add_signers) {
            return None;
        }
        let lose = signers.find_refs(&config_update.remove_config_approvers);
        let ghost flags1 = config_approvers@;
        config_approvers.set_all(&lose, false);
        let gain = signers.find_refs(&config_update.add_config_approvers);
        let ghost flags2 = config_approvers@;
        config_approvers.set_all(&gain, true);
        proof {
            signers.lemma_free_and_live_fill_capacity();
            lemma_with_slots_of_marks(
                flags1,
                holder_marks(signers@, config_update.remove_config_approvers@),
                false,
            );
            lemma_with_slots_of_marks(
                flags2,
                holder_marks(signers@, config_update.add_config_approvers@),
                true,
            );
        }
        if !signers.holds_all(&config_update.add_config_approvers) {
            return None;
        }
        let mut address_book = self.address_book.clone();
        let removed_entries = address_book.remove_items(&config_update.remove_address_book_entries);
        proof {
            address_book.lemma_free_and_live_fill_capacity();
        }
        if !address_book.add_items(&config_update.add_address_book_entries) {
            return None;
        }
        if config_update.approvals_required_for_config as usize > config_approvers.count_enabled() {
            return None;
        }
        let wallets = wallets_cleared(
            &self.wallets,
            &removed_signers,
            &removed_entries,
            Ghost(signer_marks),
            Ghost(entry_marks),
        );
        proof {
            let views = wallet_views(wallets@);
            assert(views.len() == wallets@.len());
            assert(views.len() == self@.wallets.len());
            assert forall|i: int| 0 <= i < wallets@.len() implies wallet_threshold_holds(
                (#[trigger] wallets@[i])@,
            ) == wallet_threshold_holds(
                wallet_without_approvers(self@.wallets[i], signer_marks),
            ) by {
                assert(views[i] == wallets@[i]@);
                assert(views[i] == wallet_without_destinations(
                    wallet_without_approvers(self@.wallets[i], signer_marks),
                    entry_marks,
                ));
            }
        }
        if !thresholds_hold(&wallets) {
            proof {
                let i = choose|i: int|
                    0 <= i < wallets@.len() && !wallet_threshold_holds((#[trigger] wallets@[i])@);
                assert(!wallet_threshold_holds(
                    wallet_without_approvers(self@.wallets[i], signer_marks),
                ));
            }
            return None;
        }
        proof {
            assert forall|i: int| 0 <= i < self@.wallets.len() implies wallet_threshold_holds(
                wallet_without_approvers(#[trigger] self@.wallets[i], signer_marks),
            ) by {
                assert(wallet_threshold_holds(wallets@[i]@));
            }
        }
        let updated = ProgramConfig {
            is_initialized: self.is_initialized,
            version: self.version,
            signers,
            assistant: self.assistant,
            address_book,
            approvals_required_for_config: config_update.approvals_required_for_config,
            approval_timeout_for_config: config_update.approval_timeout_for_config,
            config_approvers,
            config_policy_update_locked: self.config_policy_update_locked,
            wallets,
        };
        proof {
            assert(updated@ == self@.updated(*config_update));
            lemma_update_keeps_wf(self@, *config_update);
        }
        Some(updated)
    }

    /// Whether `update` would accept the change. Nothing is changed.
    pub fn validate_update(&self, config_update: &ProgramConfigUpdate) -> (r: Result<
        (),
        WalletError,
    >)
        requires
            self.wf(),
        ensures
            r is Ok == self@.accepts(*config_update),
            r is Err ==> r == Err::<(), WalletError>(WalletError::InvalidArgument),
    {
        match self.with_update(config_update) {
            Some(_) => Ok(()),
            None => Err(WalletError::InvalidArgument),
        }
    }

    /// Applies the change: first the signers and entries to remove leave,
    /// and with them their flags here and in every wallet; then those to add
    /// take the lowest empty slots; then the approvers to remove lose and
    /// those to add gain their flag; then the new threshold is held against
    /// the approvers, and the threshold of every wallet against the
    /// approvers that the wallet has left. A change that is not acceptable is
    /// refused and leaves the configuration as it was.
    pub fn update(&mut self, config_update: &ProgramConfigUpdate) -> (r: Result<(), WalletError>)
        requires
            old(self).wf(),
        ensures
            final(self).wf(),
            r is Ok == old(self)@.accepts(*config_update),
            r is Ok ==> final(self)@ == old(self)@.updated(*config_update),
            r is Ok ==> final(self)@.config_threshold_met(),
            r is Err ==> r == Err::<(), WalletError>(WalletError::InvalidArgument),
            r is Err ==> *final(self) == *old(self),
    {
        match self.with_update(config_update) {
            Some(updated) => {
                proof {
                    lemma_update_keeps_wf(self@, *config_update);
                }
                *self = updated;
                Ok(())
            },
            None => Err(WalletError::InvalidArgument),
        }
    }
}


/// Whether `i` is the first wallet known under `guid_hash`.
pub open spec fn is_first_wallet(wallets: Seq<WalletConfigView>, guid_hash: [u8; 32], i: int) -> bool {
    &&& 0 <= i < wallets.len()
    &&& wallets[i].wallet_guid_hash == guid_hash
    &&& forall|j: int| 0 <= j < i ==> (#[trigger] wallets[j]).wallet_guid_hash != guid_hash
}

/// Whether some wallet is known under `guid_hash`.
pub open spec fn has_wallet(wallets: Seq<WalletConfigView>, guid_hash: [u8; 32]) -> bool {
    exists|i: int| 0 <= i < wallets.len() && (#[trigger] wallets[i]).wallet_guid_hash == guid_hash
}

/// The index of the first wallet known under `guid_hash`.
pub open spec fn first_wallet(wallets: Seq<WalletConfigView>, guid_hash: [u8; 32]) -> int {
    choose|i: int| is_first_wallet(wallets, guid_hash, i)
}

/// A wallet policy that says nothing yet: no name, no approver, no
/// destination, a threshold and a timeout of zero, unlocked.
pub open spec fn is_blank_wallet(wallet: WalletConfigView, guid_hash: [u8; 32]) -> bool {
    &&& wallet.wallet_guid_hash == guid_hash
    &&& wallet.wallet_name_hash@ == Seq::new(32, |i: int| 0u8)
    &&& wallet.approvals_required_for_transfer == 0
    &&& wallet.approval_timeout_for_transfer == 0
    &&& wallet.transfer_approvers == Seq::new(32, |i: int| false)
    &&& wallet.allowed_destinations == Seq::new(104, |i: int| false)
    &&& !wallet.policy_update_locked
}

/// The transfer approvers of a wallet after the update: the approvers to
/// remove lose their flag, then the approvers to add gain theirs.
pub open spec fn transfer_approvers_after(
    wallet: WalletConfigView,
    signers: Seq<Option<Signer>>,
    update: WalletConfigUpdate,
) -> Seq<bool> {
    with_marked(
        with_marked(
            wallet.transfer_approvers,
            holder_marks(signers, update.remove_transfer_approvers@),
            false,
        ),
        holder_marks(signers, update.add_transfer_approvers@),
        true,
    )
}

/// The allowed destinations of a wallet after the update.
pub open spec fn allowed_destinations_after(
    wallet: WalletConfigView,
    address_book: Seq<Option<AddressBookEntry>>,
    update: WalletConfigUpdate,
) -> Seq<bool> {
    with_marked(
        with_marked(
            wallet.allowed_destinations,
            holder_marks(address_book, update.remove_allowed_destinations@),
            false,
        ),
        holder_marks(address_book, update.add_allowed_destinations@),
        true,
    )
}

/// Whether the update suits the wallet: every approver to add is a signer,
/// every destination to add is in the address book, and the new threshold
/// does not exceed the approvers that result.
pub open spec fn wallet_accepts(
    wallet: WalletConfigView,
    signers: Seq<Option<Signer>>,
    address_book: Seq<Option<AddressBookEntry>>,
    update: WalletConfigUpdate,
) -> bool {
    &&& all_held(signers, update.add_transfer_approvers@)
    &&& all_held(address_book, update.add_allowed_destinations@)
    &&& update.approvals_required_for_transfer <= count_true(
        transfer_approvers_after(wallet, signers, update),
    )
}

/// The wallet policy that an acceptable update leaves.
pub open spec fn wallet_updated(
    wallet: WalletConfigView,
    signers: Seq<Option<Signer>>,
    address_book: Seq<Option<AddressBookEntry>>,
    update: WalletConfigUpdate,
) -> WalletConfigView {
    WalletConfigView {
        wallet_name_hash: update.name_hash,
        approvals_required_for_transfer: update.approvals_required_for_transfer,
        approval_timeout_for_transfer: update.approval_timeout_for_transfer,
        transfer_approvers: transfer_approvers_after(wallet, signers, update),
        allowed_destinations: allowed_destinations_after(wallet, address_book, update),
        ..wallet
    }
}

impl ProgramConfigView {
    /// Whether the first wallet known under `guid_hash` exists and the update
    /// suits it.
    pub open spec fn accepts_for_wallet(self, guid_hash: [u8; 32], update: WalletConfigUpdate) -> bool {
        &&& has_wallet(self.wallets, guid_hash)
        &&& wallet_accepts(
            self.wallets[first_wallet(self.wallets, guid_hash)],
            self.signers,
            self.address_book,
            update,
        )
    }

    /// The configuration after the update went to the first wallet known
    /// under `guid_hash`.
    pub open spec fn updated_for_wallet(
        self,
        guid_hash: [u8; 32],
        update: WalletConfigUpdate,
    ) -> ProgramConfigView {
        let i = first_wallet(self.wallets, guid_hash);
        ProgramConfigView {
            wallets: self.wallets.update(
                i,
                wallet_updated(self.wallets[i], self.signers, self.address_book, update),
            ),
            ..self
        }
    }

    /// The error that refuses a wallet update, if it is refused.
    pub open spec fn wallet_update_error(
        self,
        guid_hash: [u8; 32],
        update: WalletConfigUpdate,
    ) -> Option<WalletError> {
        if !has_wallet(self.wallets, guid_hash) {
            Some(WalletError::WalletNotFound)
        } else if !self.accepts_for_wallet(guid_hash, update) {
            Some(WalletError::InvalidArgument)
        } else {
            None
        }
    }

    /// The threshold of every wallet known under `guid_hash` first does not
    /// exceed its approvers.
    pub open spec fn wallet_threshold_met(self, guid_hash: [u8; 32]) -> bool {
        let wallet = self.wallets[first_wallet(self.wallets, guid_hash)];
        wallet.approvals_required_for_transfer <= count_true(wallet.transfer_approvers)
    }

    /// The configuration with one more wallet, which says nothing yet.
    pub open spec fn with_blank_wallet(self, wallet: WalletConfigView) -> ProgramConfigView {
        ProgramConfigView { wallets: self.wallets.push(wallet), ..self }
    }
}

/// A wallet update leaves a configuration whose flags still belong to live
/// slots, and the wallet's threshold does not exceed its approvers.
pub proof fn lemma_wallet_update_keeps_wf(
    config: ProgramConfigView,
    guid_hash: [u8; 32],
    update: WalletConfigUpdate,
)
    requires
        config.wf(),
        config.accepts_for_wallet(guid_hash, update),
    ensures
        config.updated_for_wallet(guid_hash, update).wf(),
        config.updated_for_wallet(guid_hash, update).wallet_threshold_met(guid_hash),
{
    let i = first_wallet(config.wallets, guid_hash);
    let w = choose|i: int|
        0 <= i < config.wallets.len() && (#[trigger] config.wallets[i]).wallet_guid_hash
            == guid_hash;
    lemma_first_wallet_exists(config.wallets, guid_hash, w);
    let after = config.updated_for_wallet(guid_hash, update);
    assert(wallet_within(config.wallets[i], config.signers, config.address_book));
    assert forall|k: int| 0 <= k < after.wallets.len() implies wallet_within(
        #[trigger] after.wallets[k],
        after.signers,
        after.address_book,
    ) by {
        assert(wallet_within(config.wallets[k], config.signers, config.address_book));
    }
    assert(is_first_wallet(after.wallets, guid_hash, i));
    lemma_first_wallet_unique(after.wallets, guid_hash, i);
}

/// A wallet update keeps the wallet known under its identifier, at the same
/// place.
pub proof fn lemma_updated_wallet_is_known(
    config: ProgramConfigView,
    guid_hash: [u8; 32],
    update: WalletConfigUpdate,
)
    requires
        has_wallet(config.wallets, guid_hash),
    ensures
        has_wallet(config.updated_for_wallet(guid_hash, update).wallets, guid_hash),
        first_wallet(config.updated_for_wallet(guid_hash, update).wallets, guid_hash)
            == first_wallet(config.wallets, guid_hash),
{
    let w = choose|i: int|
        0 <= i < config.wallets.len() && (#[trigger] config.wallets[i]).wallet_guid_hash
            == guid_hash;
    lemma_first_wallet_exists(config.wallets, guid_hash, w);
    let i = first_wallet(config.wallets, guid_hash);
    let after = config.updated_for_wallet(guid_hash, update);
    assert(is_first_wallet(after.wallets, guid_hash, i));
    lemma_first_wallet_unique(after.wallets, guid_hash, i);
    assert(after.wallets[i].wallet_guid_hash == guid_hash);
}

/// Where a wallet is known under `guid_hash`, there is a first one.
pub proof fn lemma_first_wallet_exists(wallets: Seq<WalletConfigView>, guid_hash: [u8; 32], i: int)
    requires
        0 <= i < wallets.len(),
        wallets[i].wallet_guid_hash == guid_hash,
    ensures
        is_first_wallet(wallets, guid_hash, first_wallet(wallets, guid_hash)),
        first_wallet(wallets, guid_hash) <= i,
    decreases i,
{
    if exists|j: int| 0 <= j < i && (#[trigger] wallets[j]).wallet_guid_hash == guid_hash {
        let j = choose|j: int| 0 <= j < i && (#[trigger] wallets[j]).wallet_guid_hash == guid_hash;
        lemma_first_wallet_exists(wallets, guid_hash, j);
    } else {
        assert(is_first_wallet(wallets, guid_hash, i));
        lemma_first_wallet_unique(wallets, guid_hash, i);
    }
}

/// The first wallet known under `guid_hash` is the only one that is first.
pub proof fn lemma_first_wallet_unique(wallets: Seq<WalletConfigView>, guid_hash: [u8; 32], i: int)
    requires
        is_first_wallet(wallets, guid_hash, i),
    ensures
        first_wallet(wallets, guid_hash) == i,
{
    let c = first_wallet(wallets, guid_hash);
    assert(is_first_wallet(wallets, guid_hash, c));
    if c < i {
        assert(wallets[c].wallet_guid_hash != guid_hash);
    } else if i < c {
        assert(wallets[i].wallet_guid_hash != guid_hash);
    }
}


/// The keys of the signers in the given slots, in the order of the slots. A
/// slot that holds no signer gives no key.
pub open spec fn keys_at(signers: Seq<Option<Signer>>, ids: Seq<usize>) -> Seq<Pubkey>
    decreases ids.len(),
{
    if ids.len() == 0 {
        Seq::empty()
    } else {
        let rest = keys_at(signers, ids.drop_last());
        let id = ids.last() as int;
        if id < signers.len() && signers[id] is Some {
            rest.push(signers[id]->Some_0.key)
        } else {
            rest
        }
    }
}

/// The keys of the signers whose flag is on, lowest slot first.
pub open spec fn approver_keys(signers: Seq<Option<Signer>>, flags: Seq<bool>) -> Seq<Pubkey> {
    keys_at(signers, true_positions(flags))
}

/// Slots that all hold a signer give one key each.
pub proof fn lemma_keys_at_live(signers: Seq<Option<Signer>>, ids: Seq<usize>)
    requires
        forall|k: int|
            0 <= k < ids.len() ==> (#[trigger] ids[k]) < signers.len() && signers[ids[k] as int] is Some,
    ensures
        keys_at(signers, ids).len() == ids.len(),
        forall|k: int|
            0 <= k < ids.len() ==> (#[trigger] keys_at(signers, ids)[k]) == signers[ids[k] as int]->Some_0.key,
    decreases ids.len(),
{
    if ids.len() > 0 {
        lemma_keys_at_live(signers, ids.drop_last());
    }
}

/// Where every flag that is on belongs to a live signer slot, there are as
/// many approver keys as flags that are on.
pub proof fn lemma_approver_keys_count(signers: Seq<Option<Signer>>, flags: Seq<bool>)
    requires
        flags.len() <= usize::MAX,
        flags_within(flags, signers),
    ensures
        approver_keys(signers, flags).len() == count_true(flags),
{
    lemma_true_positions(flags);
    let ids = true_positions(flags);
    assert forall|k: int| 0 <= k < ids.len() implies (#[trigger] ids[k]) < signers.len()
        && signers[ids[k] as int] is Some by {
        assert(flags[ids[k] as int]);
    }
    lemma_keys_at_live(signers, ids);
}

/// Whether the caller may start an operation: it signed, and it is the
/// assistant or one of the approvers.
pub open spec fn initiator_check(
    assistant: Signer,
    initiator: AccountInfo,
    approvers: Seq<Pubkey>,
) -> Result<(), WalletError> {
    if !initiator.is_signer {
        Err(WalletError::InvalidSignature)
    } else if initiator.key == assistant.key || approvers.contains(initiator.key) {
        Ok(())
    } else {
        Err(WalletError::InvalidArgument)
    }
}

/// `==` on keys compares their bytes, so it decides equality.
pub proof fn lemma_pubkey_eq_is_identity()
    ensures
        eq_is_identity::<Pubkey>(),
{
}

impl ProgramConfig {
    /// The keys of the signers whose flag is on in `flags`, lowest slot
    /// first.
    fn keys_of(&self, flags: &Approvers) -> (r: Vec<Pubkey>)
        requires
            self.wf(),
        ensures
            r@ == approver_keys(self.signers@, flags@),
    {
        let slots = flags.iter_enabled();
        let mut keys: Vec<Pubkey> = Vec::new();
        let mut i: usize = 0;
        while i < slots.len()
            invariant
                i <= slots.len(),
                self.wf(),
                ref_ids(slots@) == true_positions(flags@),
                keys@ == keys_at(self.signers@, ref_ids(slots@).take(i as int)),
            decreases slots.len() - i,
        {
            let slot = slots[i];
            proof {
                assert(ref_ids(slots@).take(i + 1).drop_last() =~= ref_ids(slots@).take(i as int));
                assert(ref_ids(slots@).take(i + 1).last() == slot@);
            }
            if slot.id() < MAX_SIGNERS {
                if let Some(signer) = self.signers.index(slot) {
                    keys.push(signer.key);
                }
            }
            i += 1;
        }
        assert(ref_ids(slots@).take(slots@.len() as int) =~= ref_ids(slots@));
        keys
    }

    /// The keys of those who approve policy changes.
    pub fn get_config_approvers_keys(&self) -> (r: Vec<Pubkey>)
        requires
            self.wf(),
        ensures
            r@ == approver_keys(self.signers@, self.config_approvers@),
            r@.len() == count_true(self.config_approvers@),
    {
        proof {
            lemma_approver_keys_count(self.signers@, self.config_approvers@);
        }
        self.keys_of(&self.config_approvers)
    }

    /// The keys of those who approve transfers out of the wallet.
    pub fn get_transfer_approvers_keys(&self, wallet_config: &WalletConfig) -> (r: Vec<Pubkey>)
        requires
            self.wf(),
        ensures
            r@ == approver_keys(self.signers@, wallet_config.transfer_approvers@),
    {
        self.keys_of(&wallet_config.transfer_approvers)
    }

    /// The index of the first wallet known under `wallet_guid_hash`.
    pub fn get_wallet_config_index(&self, wallet_guid_hash: &[u8; 32]) -> (r: Result<
        usize,
        WalletError,
    >)
        ensures
            match r {
                Ok(i) => is_first_wallet(self@.wallets, *wallet_guid_hash, i as int) && i
                    == first_wallet(self@.wallets, *wallet_guid_hash),
                Err(e) => e == WalletError::WalletNotFound && !has_wallet(
                    self@.wallets,
                    *wallet_guid_hash,
                ),
            },
    {
        let mut i: usize = 0;
        while i < self.wallets.len()
            invariant
                i <= self.wallets.len(),
                forall|j: int|
                    0 <= j < i ==> (#[trigger] self@.wallets[j]).wallet_guid_hash
                        != *wallet_guid_hash,
            decreases self.wallets.len() - i,
        {
            if bytes32_eq(&self.wallets[i].wallet_guid_hash, wallet_guid_hash) {
                proof {
                    assert(self@.wallets[i as int].wallet_guid_hash == *wallet_guid_hash);
                    lemma_first_wallet_unique(self@.wallets, *wallet_guid_hash, i as int);
                }
                return Ok(i);
            }
            assert(self@.wallets[i as int].wallet_guid_hash != *wallet_guid_hash);
            i += 1;
        }
        Err(WalletError::WalletNotFound)
    }

    /// The policy of the first wallet known under `wallet_guid_hash`.
    pub fn get_wallet_config(&self, wallet_guid_hash: &[u8; 32]) -> (r: Result<
        &WalletConfig,
        WalletError,
    >)
        ensures
            match r {
                Ok(wallet) => is_first_wallet(
                    self@.wallets,
                    *wallet_guid_hash,
                    first_wallet(self@.wallets, *wallet_guid_hash),
                ) && *wallet == self.wallets@[first_wallet(self@.wallets, *wallet_guid_hash)],
                Err(e) => e == WalletError::WalletNotFound && !has_wallet(
                    self@.wallets,
                    *wallet_guid_hash,
                ),
            },
    {
        match self.get_wallet_config_index(wallet_guid_hash) {
            Ok(i) => Ok(&self.wallets[i]),
            Err(e) => Err(e),
        }
    }

    /// Whether the caller may start an operation that `approvers` vote on:
    /// it signed, and it is the assistant or one of them.
    pub fn validate_initiator(&self, initiator: &AccountInfo, approvers: &Vec<Pubkey>) -> (r:
        Result<(), WalletError>)
        ensures
            r == initiator_check(self.assistant, *initiator, approvers@),
    {
        proof {
            lemma_pubkey_eq_is_identity();
        }
        if !initiator.is_signer {
            return Err(WalletError::InvalidSignature);
        }
        if initiator.key == self.assistant.key || contains_item(approvers, &initiator.key) {
            Ok(())
        } else {
            Err(WalletError::InvalidArgument)
        }
    }

    /// Whether the caller may propose a policy change.
    pub fn validate_config_initiator(&self, initiator: &AccountInfo) -> (r: Result<(), WalletError>)
        requires
            self.wf(),
        ensures
            r == initiator_check(
                self.assistant,
                *initiator,
                approver_keys(self.signers@, self.config_approvers@),
            ),
    {
        let approvers = self.get_config_approvers_keys();
        self.validate_initiator(initiator, &approvers)
    }

    /// Whether the caller may propose a transfer out of the wallet.
    pub fn validate_transfer_initiator(
        &self,
        wallet_config: &WalletConfig,
        initiator: &AccountInfo,
    ) -> (r: Result<(), WalletError>)
        requires
            self.wf(),
        ensures
            r == initiator_check(
                self.assistant,
                *initiator,
                approver_keys(self.signers@, wallet_config.transfer_approvers@),
            ),
    {
        let approvers = self.get_transfer_approvers_keys(wallet_config);
        self.validate_initiator(initiator, &approvers)
    }

    /// Whether the wallet may send to `address` under the name with hash
    /// `name_hash`: the address book holds that entry, and the wallet's flag
    /// for the lowest slot that holds it is on.
    pub fn destination_allowed(
        &self,
        wallet_config: &WalletConfig,
        address: &Pubkey,
        name_hash: &[u8; 32],
    ) -> (r: Result<bool, WalletError>)
        requires
            self.wf(),
        ensures
            r is Ok,
            r->Ok_0 == destination_flag(
                self.address_book@,
                wallet_config.allowed_destinations@,
                AddressBookEntry { address: *address, name_hash: *name_hash },
            ),
    {
        proof {
            AddressBookEntry::lemma_eq_is_identity();
        }
        let entry = AddressBookEntry { address: *address, name_hash: *name_hash };
        Ok(
            match self.address_book.find_ref(&entry) {
                Some(slot) => {
                    proof {
                        assert(is_lowest_holder(self.address_book@, entry, slot@ as int));
                        lemma_lowest_holder_unique(self.address_book@, entry, slot@ as int);
                    }
                    wallet_config.allowed_destinations.is_enabled(slot)
                },
                None => {
                    proof {
                        self.address_book.lemma_free_and_live_fill_capacity();
                    }
                    false
                },
            },
        )
    }
}

/// Whether `i` is the lowest slot that holds `item`.
pub open spec fn is_lowest_holder<A>(slots: Seq<Option<A>>, item: A, i: int) -> bool {
    &&& 0 <= i < slots.len()
    &&& slots[i] == Some(item)
    &&& forall|j: int| 0 <= j < i ==> slots[j] != Some(item)
}

/// Whether the flag is on for the lowest slot that holds `entry`; off where
/// no slot holds it.
pub open spec fn destination_flag(
    address_book: Seq<Option<AddressBookEntry>>,
    flags: Seq<bool>,
    entry: AddressBookEntry,
) -> bool {
    address_book.contains(Some(entry)) && flags[choose|i: int|
        is_lowest_holder(address_book, entry, i)]
}

/// The lowest slot that holds an item is the only one that is lowest.
pub proof fn lemma_lowest_holder_unique<A>(slots: Seq<Option<A>>, item: A, i: int)
    requires
        is_lowest_holder(slots, item, i),
    ensures
        slots.contains(Some(item)),
        (choose|k: int| is_lowest_holder(slots, item, k)) == i,
{
    let c = choose|k: int| is_lowest_holder(slots, item, k);
    assert(is_lowest_holder(slots, item, c));
    if c < i {
        assert(slots[c] != Some(item));
    } else if i < c {
        assert(slots[i] != Some(item));
    }
}


impl ProgramConfig {
    /// The wallet policy that the update leaves, if the update suits the
    /// wallet.
    fn wallet_with_update(&self, wallet: &WalletConfig, config_update: &WalletConfigUpdate) -> (r:
        Option<WalletConfig>)
        requires
            self.wf(),
        ensures
            r is Some == wallet_accepts(
                wallet@,
                self.signers@,
                self.address_book@,
                *config_update,
            ),
            r is Some ==> r->Some_0@ == wallet_updated(
                wallet@,
                self.signers@,
                self.address_book@,
                *config_update,
            ),
    {
        proof {
            Signer::lemma_eq_is_identity();
            AddressBookEntry::lemma_eq_is_identity();
            self.signers.lemma_free_and_live_fill_capacity();
            self.address_book.lemma_free_and_live_fill_capacity();
        }
        let mut transfer_approvers = wallet.transfer_approvers;
        let lose = self.signers.find_refs(&config_update.remove_transfer_approvers);
        transfer_approvers.set_all(&lose, false);
        let ghost approvers1 = transfer_approvers@;
        let gain = self.signers.find_refs(&config_update.add_transfer_approvers);
        transfer_approvers.set_all(&gain, true);
        proof {
            lemma_with_slots_of_marks(
                wallet.transfer_approvers@,
                holder_marks(self.signers@, config_update.remove_transfer_approvers@),
                false,
            );
            lemma_with_slots_of_marks(
                approvers1,
                holder_marks(self.signers@, config_update.add_transfer_approvers@),
                true,
            );
        }
        if !self.signers.holds_all(&config_update.add_transfer_approvers) {
            return None;
        }
        let mut allowed_destinations = wallet.allowed_destinations;
        let close = self.address_book.find_refs(&config_update.remove_allowed_destinations);
        allowed_destinations.set_all(&close, false);
        let ghost destinations1 = allowed_destinations@;
        let open = self.address_book.find_refs(&config_update.add_allowed_destinations);
        allowed_destinations.set_all(&open, true);
        proof {
            lemma_with_slots_of_marks(
                wallet.allowed_destinations@,
                holder_marks(self.address_book@, config_update.remove_allowed_destinations@),
                false,
            );
            lemma_with_slots_of_marks(
                destinations1,
                holder_marks(self.address_book@, config_update.add_allowed_destinations@),
                true,
            );
        }
        if !self.address_book.holds_all(&config_update.add_allowed_destinations) {
            return None;
        }
        if config_update.approvals_required_for_transfer as usize
            > transfer_approvers.count_enabled() {
            return None;
        }
        Some(
            WalletConfig {
                wallet_guid_hash: wallet.wallet_guid_hash,
                wallet_name_hash: config_update.name_hash,
                approvals_required_for_transfer: config_update.approvals_required_for_transfer,
                approval_timeout_for_transfer: config_update.approval_timeout_for_transfer,
                transfer_approvers,
                allowed_destinations,
                policy_update_locked: wallet.policy_update_locked,
            },
        )
    }

    /// Whether `update_wallet_config` would accept the change. Nothing is
    /// changed.
    pub fn validate_wallet_config_update(
        &self,
        wallet_guid_hash: &[u8; 32],
        config_update: &WalletConfigUpdate,
    ) -> (r: Result<(), WalletError>)
        requires
            self.wf(),
        ensures
            match self@.wallet_update_error(*wallet_guid_hash, *config_update) {
                Some(e) => r == Err::<(), WalletError>(e),
                None => r is Ok,
            },
    {
        let i = match self.get_wallet_config_index(wallet_guid_hash) {
            Ok(i) => i,
            Err(e) => {
                return Err(e);
            },
        };
        match self.wallet_with_update(&self.wallets[i], config_update) {
            Some(_) => Ok(()),
            None => Err(WalletError::InvalidArgument),
        }
    }

    /// Applies the change to the first wallet known under
    /// `wallet_guid_hash`: it takes the new name, threshold and timeout, the
    /// approvers and destinations to remove lose their flag, those to add
    /// gain theirs, and the threshold is held against the approvers. A change
    /// that is not acceptable is refused and leaves the configuration as it
    /// was.
    pub fn update_wallet_config(
        &mut self,
        wallet_guid_hash: &[u8; 32],
        config_update: &WalletConfigUpdate,
    ) -> (r: Result<(), WalletError>)
        requires
            old(self).wf(),
        ensures
            final(self).wf(),
            match old(self)@.wallet_update_error(*wallet_guid_hash, *config_update) {
                Some(e) => r == Err::<(), WalletError>(e) && *final(self) == *old(self),
                None => {
                    &&& r is Ok
                    &&& final(self)@ == old(self)@.updated_for_wallet(
                        *wallet_guid_hash,
                        *config_update,
                    )
                    &&& final(self)@.wallet_threshold_met(*wallet_guid_hash)
                },
            },
    {
        let i = match self.get_wallet_config_index(wallet_guid_hash) {
            Ok(i) => i,
            Err(e) => {
                return Err(e);
            },
        };
        match self.wallet_with_update(&self.wallets[i], config_update) {
            Some(wallet) => {
                proof {
                    lemma_wallet_update_keeps_wf(self@, *wallet_guid_hash, *config_update);
                }
                self.wallets[i] = wallet;
                assert(self@.wallets =~= old(self)@.updated_for_wallet(
                    *wallet_guid_hash,
                    *config_update,
                ).wallets);
                Ok(())
            },
            None => Err(WalletError::InvalidArgument),
        }
    }
}


/// The wallet policy known under `guid_hash` that says nothing yet.
pub open spec fn blank_wallet(guid_hash: [u8; 32]) -> WalletConfigView {
    choose|wallet: WalletConfigView| is_blank_wallet(wallet, guid_hash)
}

/// There is a blank wallet policy for each identifier.
pub proof fn lemma_blank_wallet_exists(guid_hash: [u8; 32])
    ensures
        is_blank_wallet(blank_wallet(guid_hash), guid_hash),
{
    let name = vstd::array::spec_array_fill_for_copy_type::<u8, 32>(0u8);
    let wallet = WalletConfigView {
        wallet_guid_hash: guid_hash,
        wallet_name_hash: name,
        approvals_required_for_transfer: 0,
        approval_timeout_for_transfer: 0,
        transfer_approvers: Seq::new(32, |i: int| false),
        allowed_destinations: Seq::new(104, |i: int| false),
        policy_update_locked: false,
    };
    assert(name@ =~= Seq::new(32, |i: int| 0u8));
    assert(is_blank_wallet(wallet, guid_hash));
}

/// There is one blank wallet policy for each identifier.
pub proof fn lemma_blank_wallet_unique(wallet: WalletConfigView, guid_hash: [u8; 32])
    requires
        is_blank_wallet(wallet, guid_hash),
    ensures
        wallet == blank_wallet(guid_hash),
{
    let chosen = blank_wallet(guid_hash);
    assert(is_blank_wallet(chosen, guid_hash));
    assert(wallet.wallet_name_hash =~= chosen.wallet_name_hash);
}

impl ProgramConfigView {
    /// The configuration with a blank wallet policy for `guid_hash` added
    /// last.
    pub open spec fn with_wallet_added(self, guid_hash: [u8; 32]) -> ProgramConfigView {
        ProgramConfigView { wallets: self.wallets.push(blank_wallet(guid_hash)), ..self }
    }

    /// Whether a wallet can be added under `guid_hash` with the given
    /// policy: there is room for one more, and the update suits the first
    /// wallet then known under `guid_hash`.
    pub open spec fn accepts_new_wallet(self, guid_hash: [u8; 32], update: WalletConfigUpdate) -> bool {
        &&& self.wallets.len() < MAX_WALLETS
        &&& self.with_wallet_added(guid_hash).accepts_for_wallet(guid_hash, update)
    }

    /// The configuration once a wallet was added under `guid_hash` and the
    /// update went to the first wallet then known under `guid_hash`.
    pub open spec fn with_new_wallet(self, guid_hash: [u8; 32], update: WalletConfigUpdate) -> ProgramConfigView {
        self.with_wallet_added(guid_hash).updated_for_wallet(guid_hash, update)
    }

    /// The configuration with changes of its own policy locked or unlocked.
    pub open spec fn with_config_lock(self, locked: bool) -> ProgramConfigView {
        ProgramConfigView { config_policy_update_locked: locked, ..self }
    }

    /// The configuration with changes of the policy of the first wallet
    /// known under `guid_hash` locked or unlocked.
    pub open spec fn with_wallet_lock(self, guid_hash: [u8; 32], locked: bool) -> ProgramConfigView {
        let i = first_wallet(self.wallets, guid_hash);
        ProgramConfigView {
            wallets: self.wallets.update(
                i,
                WalletConfigView { policy_update_locked: locked, ..self.wallets[i] },
            ),
            ..self
        }
    }

    /// Whether changes of the policy of the first wallet known under
    /// `guid_hash` are locked.
    pub open spec fn wallet_locked(self, guid_hash: [u8; 32]) -> bool {
        self.wallets[first_wallet(self.wallets, guid_hash)].policy_update_locked
    }
}

/// A blank wallet policy.
fn new_blank_wallet(wallet_guid_hash: &[u8; 32]) -> (r: WalletConfig)
    ensures
        r@ == blank_wallet(*wallet_guid_hash),
{
    let wallet = WalletConfig {
        wallet_guid_hash: *wallet_guid_hash,
        wallet_name_hash: [0;32],
        approvals_required_for_transfer: 0,
        approval_timeout_for_transfer: 0,
        transfer_approvers: Approvers::zero(),
        allowed_destinations: AllowedDestinations::zero(),
        policy_update_locked: false,
    };
    proof {
        assert(wallet@.wallet_name_hash@ =~= Seq::new(32, |i: int| 0u8));
        assert(wallet@.transfer_approvers =~= Seq::new(32, |i: int| false));
        assert(wallet@.allowed_destinations =~= Seq::new(104, |i: int| false));
        lemma_blank_wallet_unique(wallet@, *wallet_guid_hash);
    }
    wallet
}

impl ProgramConfig {
    /// The wallets once a blank one was added under `wallet_guid_hash` and
    /// the update went to the first wallet then known under that identifier,
    /// if there is room and the update suits that wallet.
    fn wallets_with_new(&self, wallet_guid_hash: &[u8; 32], config_update: &WalletConfigUpdate) -> (r:
        Option<Vec<WalletConfig>>)
        requires
            self.wf(),
        ensures
            r is Some == self@.accepts_new_wallet(*wallet_guid_hash, *config_update),
            r is Some ==> wallet_views(r->Some_0@) == self@.with_new_wallet(
                *wallet_guid_hash,
                *config_update,
            ).wallets,
    {
        if self.wallets.len() >= MAX_WALLETS {
            return None;
        }
        let blank = new_blank_wallet(wallet_guid_hash);
        let ghost added = self@.with_wallet_added(*wallet_guid_hash);
        proof {
            lemma_blank_wallet_exists(*wallet_guid_hash);
        }
        let (target, index) = match self.get_wallet_config_index(wallet_guid_hash) {
            Ok(i) => (self.wallets[i], i),
            Err(_) => (blank, self.wallets.len()),
        };
        proof {
            assert(is_first_wallet(added.wallets, *wallet_guid_hash, index as int)) by {
                assert forall|j: int| 0 <= j < index implies (#[trigger] added.wallets[j]).wallet_guid_hash
                    != *wallet_guid_hash by {
                    assert(added.wallets[j] == self@.wallets[j]);
                }
            }
            lemma_first_wallet_unique(added.wallets, *wallet_guid_hash, index as int);
            assert(added.wallets[index as int] == target@);
            assert(has_wallet(added.wallets, *wallet_guid_hash));
        }
        let updated = match self.wallet_with_update(&target, config_update) {
            Some(wallet) => wallet,
            None => {
                return None;
            },
        };
        let mut wallets: Vec<WalletConfig> = Vec::new();
        let mut i: usize = 0;
        while i < self.wallets.len()
            invariant
                i <= self.wallets.len(),
                wallets@ == self.wallets@.take(i as int),
            decreases self.wallets.len() - i,
        {
            wallets.push(self.wallets[i]);
            assert(self.wallets@.take(i + 1) =~= self.wallets@.take(i as int).push(
                self.wallets@[i as int],
            ));
            i += 1;
        }
        assert(self.wallets@.take(self.wallets@.len() as int) =~= self.wallets@);
        wallets.push(blank);
        wallets[index] = updated;
        assert(wallet_views(wallets@) =~= self@.with_new_wallet(
            *wallet_guid_hash,
            *config_update,
        ).wallets);
        Some(wallets)
    }

    /// Whether `add_wallet_config` would accept the wallet. Nothing is
    /// changed.
    pub fn validate_add_wallet_config(
        &self,
        wallet_guid_hash: &[u8; 32],
        config_update: &WalletConfigUpdate,
    ) -> (r: Result<(), WalletError>)
        requires
            self.wf(),
        ensures
            r is Ok == self@.accepts_new_wallet(*wallet_guid_hash, *config_update),
            r is Err ==> r == Err::<(), WalletError>(WalletError::InvalidArgument),
    {
        match self.wallets_with_new(wallet_guid_hash, config_update) {
            Some(_) => Ok(()),
            None => Err(WalletError::InvalidArgument),
        }
    }

    /// Adds a blank wallet policy under `wallet_guid_hash` and applies the
    /// update to the first wallet then known under that identifier. Refused,
    /// with the configuration left as it was, when there is no room for
    /// another wallet or the update does not suit.
    pub fn add_wallet_config(
        &mut self,
        wallet_guid_hash: &[u8; 32],
        config_update: &WalletConfigUpdate,
    ) -> (r: Result<(), WalletError>)
        requires
            old(self).wf(),
        ensures
            final(self).wf(),
            r is Ok == old(self)@.accepts_new_wallet(*wallet_guid_hash, *config_update),
            r is Ok ==> final(self)@ == old(self)@.with_new_wallet(
                *wallet_guid_hash,
                *config_update,
            ),
            r is Ok ==> final(self)@.wallet_threshold_met(*wallet_guid_hash),
            r is Err ==> r == Err::<(), WalletError>(WalletError::InvalidArgument),
            r is Err ==> *final(self) == *old(self),
    {
        match self.wallets_with_new(wallet_guid_hash, config_update) {
            Some(wallets) => {
                proof {
                    let added = self@.with_wallet_added(*wallet_guid_hash);
                    lemma_blank_wallet_exists(*wallet_guid_hash);
                    assert(added.wf()) by {
                        assert forall|i: int| 0 <= i < added.wallets.len() implies wallet_within(
                            #[trigger] added.wallets[i],
                            added.signers,
                            added.address_book,
                        ) by {
                            if i < self@.wallets.len() {
                                assert(wallet_within(
                                    self@.wallets[i],
                                    self@.signers,
                                    self@.address_book,
                                ));
                            } else {
                                assert(is_blank_wallet(added.wallets[i], *wallet_guid_hash));
                            }
                        }
                    }
                    lemma_wallet_update_keeps_wf(added, *wallet_guid_hash, *config_update);
                }
                self.wallets = wallets;
                Ok(())
            },
            None => Err(WalletError::InvalidArgument),
        }
    }

    /// Marks a change of the program-wide policy as pending. Refused while
    /// one is pending already.
    pub fn lock_config_policy_updates(&mut self) -> (r: Result<(), WalletError>)
        ensures
            old(self).wf() ==> final(self).wf(),
            old(self).config_policy_update_locked ==> r == Err::<(), WalletError>(
                WalletError::ConcurrentOperationsNotAllowed,
            ) && *final(self) == *old(self),
            !old(self).config_policy_update_locked ==> r is Ok && final(self)@ == old(self)@.with_config_lock(true),
    {
        if self.config_policy_update_locked {
            return Err(WalletError::ConcurrentOperationsNotAllowed);
        }
        self.config_policy_update_locked = true;
        Ok(())
    }

    /// Marks no change of the program-wide policy as pending.
    pub fn unlock_config_policy_updates(&mut self)
        ensures
            old(self).wf() ==> final(self).wf(),
            final(self)@ == old(self)@.with_config_lock(false),
    {
        self.config_policy_update_locked = false;
    }

    /// Marks a change of the policy of the first wallet known under
    /// `wallet_guid_hash` as pending. Refused while one is pending already.
    pub fn lock_wallet_policy_updates(&mut self, wallet_guid_hash: &[u8; 32]) -> (r: Result<
        (),
        WalletError,
    >)
        ensures
            old(self).wf() ==> final(self).wf(),
            !has_wallet(old(self)@.wallets, *wallet_guid_hash) ==> r == Err::<(), WalletError>(
                WalletError::WalletNotFound,
            ) && *final(self) == *old(self),
            has_wallet(old(self)@.wallets, *wallet_guid_hash) && old(self)@.wallet_locked(
                *wallet_guid_hash,
            ) ==> r == Err::<(), WalletError>(WalletError::ConcurrentOperationsNotAllowed)
                && *final(self) == *old(self),
            has_wallet(old(self)@.wallets, *wallet_guid_hash) && !old(self)@.wallet_locked(
                *wallet_guid_hash,
            ) ==> r is Ok && final(self)@ == old(self)@.with_wallet_lock(*wallet_guid_hash, true),
    {
        let i = match self.get_wallet_config_index(wallet_guid_hash) {
            Ok(i) => i,
            Err(e) => {
                return Err(e);
            },
        };
        if self.wallets[i].policy_update_locked {
            return Err(WalletError::ConcurrentOperationsNotAllowed);
        }
        let mut wallet = self.wallets[i];
        wallet.policy_update_locked = true;
        self.wallets[i] = wallet;
        proof {
            assert(self@.wallets =~= old(self)@.with_wallet_lock(*wallet_guid_hash, true).wallets);
            if old(self).wf() {
                assert forall|k: int| 0 <= k < self@.wallets.len() implies wallet_within(
                    #[trigger] self@.wallets[k],
                    self@.signers,
                    self@.address_book,
                ) by {
                    assert(wallet_within(
                        old(self)@.wallets[k],
                        self@.signers,
                        self@.address_book,
                    ));
                }
            }
        }
        Ok(())
    }

    /// Marks no change of the policy of the first wallet known under
    /// `wallet_guid_hash` as pending.
    pub fn unlock_wallet_policy_updates(&mut self, wallet_guid_hash: &[u8; 32]) -> (r: Result<
        (),
        WalletError,
    >)
        ensures
            old(self).wf() ==> final(self).wf(),
            !has_wallet(old(self)@.wallets, *wallet_guid_hash) ==> r == Err::<(), WalletError>(
                WalletError::WalletNotFound,
            ) && *final(self) == *old(self),
            has_wallet(old(self)@.wallets, *wallet_guid_hash) ==> r is Ok && final(self)@ == old(self)@.with_wallet_lock(*wallet_guid_hash, false),
    {
        let i = match self.get_wallet_config_index(wallet_guid_hash) {
            Ok(i) => i,
            Err(e) => {
                return Err(e);
            },
        };
        let mut wallet = self.wallets[i];
        wallet.policy_update_locked = false;
        self.wallets[i] = wallet;
        proof {
            assert(self@.wallets =~= old(self)@.with_wallet_lock(*wallet_guid_hash, false).wallets);
            if old(self).wf() {
                assert forall|k: int| 0 <= k < self@.wallets.len() implies wallet_within(
                    #[trigger] self@.wallets[k],
                    self@.signers,
                    self@.address_book,
                ) by {
                    assert(wallet_within(
                        old(self)@.wallets[k],
                        self@.signers,
                        self@.address_book,
                    ));
                }
            }
        }
        Ok(())
    }
}

impl ProgramConfigView {
    /// Whether `update` says what a change of the address book alone says of
    /// this configuration: the threshold and the timeout stay, no signer and
    /// no approver comes or goes, and the entries are those of `change`.
    pub open spec fn is_address_book_update(
        self,
        change: AddressBookUpdate,
        update: ProgramConfigUpdate,
    ) -> bool {
        &&& update.approvals_required_for_config == self.approvals_required_for_config
        &&& update.approval_timeout_for_config == self.approval_timeout_for_config
        &&& update.add_signers@.len() == 0
        &&& update.remove_signers@.len() == 0
        &&& update.add_config_approvers@.len() == 0
        &&& update.remove_config_approvers@.len() == 0
        &&& update.add_address_book_entries@ == change.add_address_book_entries@
        &&& update.remove_address_book_entries@ == change.remove_address_book_entries@
    }

    /// Whether the change of the address book is acceptable: the entries to
    /// add fit once those to remove are gone.
    pub open spec fn accepts_address_book(self, change: AddressBookUpdate) -> bool {
        count_true(
            free_marks(without(self.address_book, change.remove_address_book_entries@)),
        ) >= change.add_address_book_entries@.len()
    }

    /// The configuration that an acceptable change of the address book
    /// leaves: the entries to remove are gone, and with them their flags in
    /// every wallet, and the entries to add hold the lowest empty slots.
    pub open spec fn with_address_book(self, change: AddressBookUpdate) -> ProgramConfigView {
        ProgramConfigView {
            address_book: placed(
                without(self.address_book, change.remove_address_book_entries@),
                change.add_address_book_entries@,
            ),
            wallets: Seq::new(
                self.wallets.len(),
                |i: int|
                    wallet_without_destinations(
                        self.wallets[i],
                        holder_marks(self.address_book, change.remove_address_book_entries@),
                    ),
            ),
            ..self
        }
    }
}

/// A change that touches no signer keeps the signers, the approvers and each
/// wallet's approvers as they are, and is acceptable where its entries fit.
pub proof fn lemma_address_book_update(
    config: ProgramConfigView,
    change: AddressBookUpdate,
    update: ProgramConfigUpdate,
)
    requires
        config.wf(),
        config.is_address_book_update(change, update),
    ensures
        config.updated(update) == config.with_address_book(change),
        config.accepts(update) == config.accepts_address_book(change),
{
    let none = holder_marks(config.signers, update.remove_signers@);
    assert forall|i: int| 0 <= i < none.len() implies !none[i] by {
        if config.signers[i] is Some {
            assert(!update.remove_signers@.contains(config.signers[i]->Some_0));
        }
    }
    assert(without(config.signers, update.remove_signers@) =~= config.signers);
    assert(placed(config.signers, update.add_signers@) == config.signers);
    assert(config.signers_after(update) == config.signers);
    assert forall|i: int| 0 <= i < config.signers.len() implies !holder_marks(
        config.signers,
        update.remove_config_approvers@,
    )[i] && !holder_marks(config.signers, update.add_config_approvers@)[i] by {
        if config.signers[i] is Some {
            assert(!update.remove_config_approvers@.contains(config.signers[i]->Some_0));
            assert(!update.add_config_approvers@.contains(config.signers[i]->Some_0));
        }
    }
    assert(config.config_approvers_after(update) =~= config.config_approvers);
    assert forall|i: int| 0 <= i < config.wallets.len() implies config.updated(update).wallets[i]
        == config.with_address_book(change).wallets[i] by {
        assert(with_marked(config.wallets[i].transfer_approvers, none, false)
            =~= config.wallets[i].transfer_approvers);
    }
    assert(config.updated(update).wallets =~= config.with_address_book(change).wallets);
    lemma_true_positions(free_marks(config.signers));
    assert forall|i: int| 0 <= i < config.wallets.len() implies wallet_threshold_holds(
        wallet_without_approvers(#[trigger] config.wallets[i], none),
    ) by {
        assert(wallet_within(config.wallets[i], config.signers, config.address_book));
        assert(with_marked(config.wallets[i].transfer_approvers, none, false)
            =~= config.wallets[i].transfer_approvers);
    }
}

impl ProgramConfig {
    /// A configuration that is not in use: no signer, no entry, no approver,
    /// no wallet, and every other field zero.
    pub fn new() -> (r: Self)
        ensures
            r.wf(),
            !r@.is_initialized,
            r@.version == 0,
            r@.signers == Seq::new(MAX_SIGNERS as nat, |i: int| None::<Signer>),
            r@.address_book == Seq::new(
                MAX_ADDRESS_BOOK_ENTRIES as nat,
                |i: int| None::<AddressBookEntry>,
            ),
            r@.assistant.key.bytes@ == Seq::new(32, |i: int| 0u8),
            r@.approvals_required_for_config == 0,
            r@.approval_timeout_for_config == 0,
            r@.config_approvers == Seq::new(32, |i: int| false),
            !r@.config_policy_update_locked,
            r@.wallets.len() == 0,
    {
        let mut signers: Vec<Option<Signer>> = Vec::new();
        let mut i: usize = 0;
        while i < MAX_SIGNERS
            invariant
                i <= MAX_SIGNERS,
                signers@ == Seq::new(i as nat, |k: int| None::<Signer>),
            decreases MAX_SIGNERS - i,
        {
            signers.push(None);
            assert(signers@ =~= Seq::new((i + 1) as nat, |k: int| None::<Signer>));
            i += 1;
        }
        let mut entries: Vec<Option<AddressBookEntry>> = Vec::new();
        let mut j: usize = 0;
        while j < MAX_ADDRESS_BOOK_ENTRIES
            invariant
                j <= MAX_ADDRESS_BOOK_ENTRIES,
                entries@ == Seq::new(j as nat, |k: int| None::<AddressBookEntry>),
            decreases MAX_ADDRESS_BOOK_ENTRIES - j,
        {
            entries.push(None);
            assert(entries@ =~= Seq::new((j + 1) as nat, |k: int| None::<AddressBookEntry>));
            j += 1;
        }
        let config = ProgramConfig {
            is_initialized: false,
            version: 0,
            signers: Signers::from_vec(signers),
            assistant: Signer { key: Pubkey { bytes: [0;32] } },
            address_book: AddressBook::from_vec(entries),
            approvals_required_for_config: 0,
            approval_timeout_for_config: 0,
            config_approvers: Approvers::zero(),
            config_policy_update_locked: false,
            wallets: Vec::new(),
        };
        proof {
            assert(config@.assistant.key.bytes@ =~= Seq::new(32, |i: int| 0u8));
            assert(config@.config_approvers =~= Seq::new(32, |i: int| false));
        }
        config
    }

    /// The change of the whole policy that says what the change of the
    /// address book says.
    fn address_book_change(&self, change: &AddressBookUpdate) -> (r: ProgramConfigUpdate)
        ensures
            self@.is_address_book_update(*change, r),
    {
        ProgramConfigUpdate {
            approvals_required_for_config: self.approvals_required_for_config,
            approval_timeout_for_config: self.approval_timeout_for_config,
            add_signers: Vec::new(),
            remove_signers: Vec::new(),
            add_config_approvers: Vec::new(),
            remove_config_approvers: Vec::new(),
            add_address_book_entries: copy_items(&change.add_address_book_entries),
            remove_address_book_entries: copy_items(&change.remove_address_book_entries),
        }
    }

    /// Whether `update_address_book` would accept the change. Nothing is
    /// changed.
    pub fn validate_address_book_update(&self, change: &AddressBookUpdate) -> (r: Result<
        (),
        WalletError,
    >)
        requires
            self.wf(),
        ensures
            r is Ok == self@.accepts_address_book(*change),
            r is Err ==> r == Err::<(), WalletError>(WalletError::InvalidArgument),
    {
        let update = self.address_book_change(change);
        proof {
            lemma_address_book_update(self@, *change, update);
        }
        self.validate_update(&update)
    }

    /// Applies the change of the address book: the entries to remove leave,
    /// and with them their flags in every wallet; then the entries to add
    /// take the lowest empty slots. A change that does not fit is refused and
    /// leaves the configuration as it was.
    pub fn update_address_book(&mut self, change: &AddressBookUpdate) -> (r: Result<(), WalletError>)
        requires
            old(self).wf(),
        ensures
            final(self).wf(),
            r is Ok == old(self)@.accepts_address_book(*change),
            r is Ok ==> final(self)@ == old(self)@.with_address_book(*change),
            r is Err ==> r == Err::<(), WalletError>(WalletError::InvalidArgument),
            r is Err ==> *final(self) == *old(self),
    {
        let update = self.address_book_change(change);
        proof {
            lemma_address_book_update(self@, *change, update);
        }
        self.update(&update)
    }
}

} // verus!
