use vstd::prelude::*;
use vstd::bytes::spec_u64_to_le_bytes;
use crate::error::WalletError;
use crate::instruction::{
    AddressBookUpdate, ProgramConfigUpdate, ProgramInstruction, WalletConfigUpdate,
};
use crate::model::dapp_multisig_data::DAppBookEntry;
use crate::model::multisig_op::{
    byte_of_vote, program_config_update_bytes, push_program_config_update,
    push_wallet_config_update, vote_byte, vote_of, wallet_config_update_bytes,
};
use crate::pack::{
    counted_entries_bytes, counted_signers_bytes, push_all, push_bytes32, push_entries, push_u64,
};
use crate::parse::{
    counted_payloads_bytes, lemma_starts_byte, lemma_starts_concat, parse_bytes32, parse_entries,
    parse_payloads, parse_signers, parse_u64, payload_list_bytes, starts, views_of,
};
use crate::pubkey::Pubkey;

verus! {

/// Where the bytes of a change of the program-wide policy stand, each of
/// its parts stands at its place, and the other way round.
pub proof fn lemma_program_config_update_stands(src: Seq<u8>, pos: int, update: ProgramConfigUpdate)
    ensures
        starts(src, pos, program_config_update_bytes(update)) <==> {
            let a = pos + 9;
            let b = a + counted_signers_bytes(update.add_signers@).len();
            let c = b + counted_signers_bytes(update.remove_signers@).len();
            let d = c + counted_signers_bytes(update.add_config_approvers@).len();
            let e = d + counted_signers_bytes(update.remove_config_approvers@).len();
            let f = e + counted_entries_bytes(update.add_address_book_entries@).len();
            &&& starts(src, pos, seq![update.approvals_required_for_config])
            &&& starts(src, pos + 1, spec_u64_to_le_bytes(update.approval_timeout_for_config))
            &&& starts(src, a, counted_signers_bytes(update.add_signers@))
            &&& starts(src, b, counted_signers_bytes(update.remove_signers@))
            &&& starts(src, c, counted_signers_bytes(update.add_config_approvers@))
            &&& starts(src, d, counted_signers_bytes(update.remove_config_approvers@))
            &&& starts(src, e, counted_entries_bytes(update.add_address_book_entries@))
            &&& starts(src, f, counted_entries_bytes(update.remove_address_book_entries@))
        },
        program_config_update_bytes(update).len() == 9 + counted_signers_bytes(
            update.add_signers@,
        ).len() + counted_signers_bytes(update.remove_signers@).len() + counted_signers_bytes(
            update.add_config_approvers@,
        ).len() + counted_signers_bytes(update.remove_config_approvers@).len()
            + counted_entries_bytes(update.add_address_book_entries@).len()
            + counted_entries_bytes(update.remove_address_book_entries@).len(),
{
    vstd::bytes::lemma_auto_spec_u64_to_from_le_bytes();
    let p0 = seq![update.approvals_required_for_config];
    let p1 = spec_u64_to_le_bytes(update.approval_timeout_for_config);
    let p2 = counted_signers_bytes(update.add_signers@);
    let p3 = counted_signers_bytes(update.remove_signers@);
    let p4 = counted_signers_bytes(update.add_config_approvers@);
    let p5 = counted_signers_bytes(update.remove_config_approvers@);
    let p6 = counted_entries_bytes(update.add_address_book_entries@);
    let p7 = counted_entries_bytes(update.remove_address_book_entries@);
    assert(p1.len() == 8);
    lemma_starts_concat(src, pos, p0, p1);
    lemma_starts_concat(src, pos, p0 + p1, p2);
    lemma_starts_concat(src, pos, p0 + p1 + p2, p3);
    lemma_starts_concat(src, pos, p0 + p1 + p2 + p3, p4);
    lemma_starts_concat(src, pos, p0 + p1 + p2 + p3 + p4, p5);
    lemma_starts_concat(src, pos, p0 + p1 + p2 + p3 + p4 + p5, p6);
    lemma_starts_concat(src, pos, p0 + p1 + p2 + p3 + p4 + p5 + p6, p7);
}

/// The change of the program-wide policy whose bytes stand from `pos` on,
/// and the place behind them. Where the bytes of a change stand there, it is
/// that change; where none do, nothing.
pub fn parse_program_config_update(src: &[u8], pos: usize) -> (r: Option<
    (ProgramConfigUpdate, usize),
>)
    requires
        pos <= src@.len(),
    ensures
        r is Some ==> starts(src@, pos as int, program_config_update_bytes(r->Some_0.0))
            && r->Some_0.1 == pos + program_config_update_bytes(r->Some_0.0).len(),
        forall|update: ProgramConfigUpdate| #[trigger]
            starts(src@, pos as int, program_config_update_bytes(update)) ==> r is Some
                && r->Some_0.0.same_as(update),
{
    proof {
        vstd::bytes::lemma_auto_spec_u64_to_from_le_bytes();
        assert forall|update: ProgramConfigUpdate| #[trigger]
            starts(src@, pos as int, program_config_update_bytes(update)) implies pos + 9
            <= src@.len() && src@[pos as int] == update.approvals_required_for_config by {
            lemma_program_config_update_stands(src@, pos as int, update);
            lemma_starts_byte(src@, pos as int, update.approvals_required_for_config);
        }
    }
    if src.len() - pos < 9 {
        return None;
    }
    let approvals_required_for_config = src[pos];
    let (approval_timeout_for_config, a) = match parse_u64(src, pos + 1) {
        Some(parsed) => parsed,
        None => {
            return None;
        },
    };
    let (add_signers, b) = match parse_signers(src, a) {
        Some(parsed) => parsed,
        None => {
            proof {
                assert forall|update: ProgramConfigUpdate| #[trigger]
                    starts(src@, pos as int, program_config_update_bytes(update)) implies false by {
                    lemma_program_config_update_stands(src@, pos as int, update);
                }
            }
            return None;
        },
    };
    let (remove_signers, c) = match parse_signers(src, b) {
        Some(parsed) => parsed,
        None => {
            proof {
                assert forall|update: ProgramConfigUpdate| #[trigger]
                    starts(src@, pos as int, program_config_update_bytes(update)) implies false by {
                    lemma_program_config_update_stands(src@, pos as int, update);
                }
            }
            return None;
        },
    };
    let (add_config_approvers, d) = match parse_signers(src, c) {
        Some(parsed) => parsed,
        None => {
            proof {
                assert forall|update: ProgramConfigUpdate| #[trigger]
                    starts(src@, pos as int, program_config_update_bytes(update)) implies false by {
                    lemma_program_config_update_stands(src@, pos as int, update);
                }
            }
            return None;
        },
    };
    let (remove_config_approvers, e) = match parse_signers(src, d) {
        Some(parsed) => parsed,
        None => {
            proof {
                assert forall|update: ProgramConfigUpdate| #[trigger]
                    starts(src@, pos as int, program_config_update_bytes(update)) implies false by {
                    lemma_program_config_update_stands(src@, pos as int, update);
                }
            }
            return None;
        },
    };
    let (add_address_book_entries, f) = match parse_entries(src, e) {
        Some(parsed) => parsed,
        None => {
            proof {
                assert forall|update: ProgramConfigUpdate| #[trigger]
                    starts(src@, pos as int, program_config_update_bytes(update)) implies false by {
                    lemma_program_config_update_stands(src@, pos as int, update);
                }
            }
            return None;
        },
    };
    let (remove_address_book_entries, next) = match parse_entries(src, f) {
        Some(parsed) => parsed,
        None => {
            proof {
                assert forall|update: ProgramConfigUpdate| #[trigger]
                    starts(src@, pos as int, program_config_update_bytes(update)) implies false by {
                    lemma_program_config_update_stands(src@, pos as int, update);
                }
            }
            return None;
        },
    };
    let update = ProgramConfigUpdate {
        approvals_required_for_config,
        approval_timeout_for_config,
        add_signers,
        remove_signers,
        add_config_approvers,
        remove_config_approvers,
        add_address_book_entries,
        remove_address_book_entries,
    };
    proof {
        lemma_program_config_update_stands(src@, pos as int, update);
        lemma_starts_byte(src@, pos as int, approvals_required_for_config);
        assert forall|other: ProgramConfigUpdate| #[trigger]
            starts(src@, pos as int, program_config_update_bytes(other)) implies update.same_as(
            other,
        ) by {
            lemma_program_config_update_stands(src@, pos as int, other);
        }
    }
    Some((update, next))
}

/// Where the bytes of a change of a wallet's policy stand, each of its parts
/// stands at its place, and the other way round.
pub proof fn lemma_wallet_config_update_stands(src: Seq<u8>, pos: int, update: WalletConfigUpdate)
    ensures
        starts(src, pos, wallet_config_update_bytes(update)) <==> {
            let a = pos + 41;
            let b = a + counted_signers_bytes(update.add_transfer_approvers@).len();
            let c = b + counted_signers_bytes(update.remove_transfer_approvers@).len();
            let d = c + counted_entries_bytes(update.add_allowed_destinations@).len();
            &&& starts(src, pos, update.name_hash@)
            &&& starts(src, pos + 32, seq![update.approvals_required_for_transfer])
            &&& starts(src, pos + 33, spec_u64_to_le_bytes(update.approval_timeout_for_transfer))
            &&& starts(src, a, counted_signers_bytes(update.add_transfer_approvers@))
            &&& starts(src, b, counted_signers_bytes(update.remove_transfer_approvers@))
            &&& starts(src, c, counted_entries_bytes(update.add_allowed_destinations@))
            &&& starts(src, d, counted_entries_bytes(update.remove_allowed_destinations@))
        },
        wallet_config_update_bytes(update).len() == 41 + counted_signers_bytes(
            update.add_transfer_approvers@,
        ).len() + counted_signers_bytes(update.remove_transfer_approvers@).len()
            + counted_entries_bytes(update.add_allowed_destinations@).len()
            + counted_entries_bytes(update.remove_allowed_destinations@).len(),
{
    vstd::bytes::lemma_auto_spec_u64_to_from_le_bytes();
    let p0 = update.name_hash@;
    let p1 = seq![update.approvals_required_for_transfer];
    let p2 = spec_u64_to_le_bytes(update.approval_timeout_for_transfer);
    let p3 = counted_signers_bytes(update.add_transfer_approvers@);
    let p4 = counted_signers_bytes(update.remove_transfer_approvers@);
    let p5 = counted_entries_bytes(update.add_allowed_destinations@);
    let p6 = counted_entries_bytes(update.remove_allowed_destinations@);
    assert(p2.len() == 8);
    lemma_starts_concat(src, pos, p0, p1);
    lemma_starts_concat(src, pos, p0 + p1, p2);
    lemma_starts_concat(src, pos, p0 + p1 + p2, p3);
    lemma_starts_concat(src, pos, p0 + p1 + p2 + p3, p4);
    lemma_starts_concat(src, pos, p0 + p1 + p2 + p3 + p4, p5);
    lemma_starts_concat(src, pos, p0 + p1 + p2 + p3 + p4 + p5, p6);
}

/// The change of a wallet's policy whose bytes stand from `pos` on, and the
/// place behind them. Where the bytes of a change stand there, it is that
/// change; where none do, nothing.
pub fn parse_wallet_config_update(src: &[u8], pos: usize) -> (r: Option<
    (WalletConfigUpdate, usize),
>)
    requires
        pos <= src@.len(),
    ensures
        r is Some ==> starts(src@, pos as int, wallet_config_update_bytes(r->Some_0.0))
            && r->Some_0.1 == pos + wallet_config_update_bytes(r->Some_0.0).len(),
        forall|update: WalletConfigUpdate| #[trigger]
            starts(src@, pos as int, wallet_config_update_bytes(update)) ==> r is Some
                && r->Some_0.0.same_as(update),
{
    proof {
        vstd::bytes::lemma_auto_spec_u64_to_from_le_bytes();
        assert forall|update: WalletConfigUpdate| #[trigger]
            starts(src@, pos as int, wallet_config_update_bytes(update)) implies pos + 41
            <= src@.len() && src@[pos + 32] == update.approvals_required_for_transfer by {
            lemma_wallet_config_update_stands(src@, pos as int, update);
            lemma_starts_byte(src@, pos + 32, update.approvals_required_for_transfer);
        }
    }
    if src.len() - pos < 41 {
        return None;
    }
    let (name_hash, _) = match parse_bytes32(src, pos) {
        Some(parsed) => parsed,
        None => {
            return None;
        },
    };
    let approvals_required_for_transfer = src[pos + 32];
    let (approval_timeout_for_transfer, a) = match parse_u64(src, pos + 33) {
        Some(parsed) => parsed,
        None => {
            return None;
        },
    };
    let (add_transfer_approvers, b) = match parse_signers(src, a) {
        Some(parsed) => parsed,
        None => {
            proof {
                assert forall|update: WalletConfigUpdate| #[trigger]
                    starts(src@, pos as int, wallet_config_update_bytes(update)) implies false by {
                    lemma_wallet_config_update_stands(src@, pos as int, update);
                }
            }
            return None;
        },
    };
    let (remove_transfer_approvers, c) = match parse_signers(src, b) {
        Some(parsed) => parsed,
        None => {
            proof {
                assert forall|update: WalletConfigUpdate| #[trigger]
                    starts(src@, pos as int, wallet_config_update_bytes(update)) implies false by {
                    lemma_wallet_config_update_stands(src@, pos as int, update);
                }
            }
            return None;
        },
    };
    let (add_allowed_destinations, d) = match parse_entries(src, c) {
        Some(parsed) => parsed,
        None => {
            proof {
                assert forall|update: WalletConfigUpdate| #[trigger]
                    starts(src@, pos as int, wallet_config_update_bytes(update)) implies false by {
                    lemma_wallet_config_update_stands(src@, pos as int, update);
                }
            }
            return None;
        },
    };
    let (remove_allowed_destinations, next) = match parse_entries(src, d) {
        Some(parsed) => parsed,
        None => {
            proof {
                assert forall|update: WalletConfigUpdate| #[trigger]
                    starts(src@, pos as int, wallet_config_update_bytes(update)) implies false by {
                    lemma_wallet_config_update_stands(src@, pos as int, update);
                }
            }
            return None;
        },
    };
    let update = WalletConfigUpdate {
        name_hash,
        approvals_required_for_transfer,
        approval_timeout_for_transfer,
        add_transfer_approvers,
        remove_transfer_approvers,
        add_allowed_destinations,
        remove_allowed_destinations,
    };
    proof {
        lemma_wallet_config_update_stands(src@, pos as int, update);
        lemma_starts_byte(src@, pos + 32, approvals_required_for_transfer);
        assert forall|other: WalletConfigUpdate| #[trigger]
            starts(src@, pos as int, wallet_config_update_bytes(other)) implies update.same_as(
            other,
        ) by {
            lemma_wallet_config_update_stands(src@, pos as int, other);
        }
    }
    Some((update, next))
}

/// The bytes that stand for a change of the address book: the entries to
/// add, then the entries to remove, each list behind its number.
pub open spec fn address_book_update_bytes(update: AddressBookUpdate) -> Seq<u8> {
    counted_entries_bytes(update.add_address_book_entries@) + counted_entries_bytes(
        update.remove_address_book_entries@,
    )
}

/// The change of the address book whose bytes stand from `pos` on, and the
/// place behind them. Where the bytes of a change stand there, it is that
/// change; where none do, nothing.
pub fn parse_address_book_update(src: &[u8], pos: usize) -> (r: Option<(AddressBookUpdate, usize)>)
    requires
        pos <= src@.len(),
    ensures
        r is Some ==> starts(src@, pos as int, address_book_update_bytes(r->Some_0.0))
            && r->Some_0.1 == pos + address_book_update_bytes(r->Some_0.0).len(),
        forall|update: AddressBookUpdate| #[trigger]
            starts(src@, pos as int, address_book_update_bytes(update)) ==> r is Some
                && r->Some_0.0.same_as(update),
{
    proof {
        assert forall|update: AddressBookUpdate| #[trigger]
            starts(src@, pos as int, address_book_update_bytes(update)) implies starts(
            src@,
            pos as int,
            counted_entries_bytes(update.add_address_book_entries@),
        ) && starts(
            src@,
            pos + counted_entries_bytes(update.add_address_book_entries@).len(),
            counted_entries_bytes(update.remove_address_book_entries@),
        ) by {
            lemma_starts_concat(
                src@,
                pos as int,
                counted_entries_bytes(update.add_address_book_entries@),
                counted_entries_bytes(update.remove_address_book_entries@),
            );
        }
    }
    let (add_address_book_entries, a) = match parse_entries(src, pos) {
        Some(parsed) => parsed,
        None => {
            return None;
        },
    };
    let (remove_address_book_entries, next) = match parse_entries(src, a) {
        Some(parsed) => parsed,
        None => {
            return None;
        },
    };
    let update = AddressBookUpdate { add_address_book_entries, remove_address_book_entries };
    proof {
        lemma_starts_concat(
            src@,
            pos as int,
            counted_entries_bytes(update.add_address_book_entries@),
            counted_entries_bytes(update.remove_address_book_entries@),
        );
    }
    Some((update, next))
}

/// The byte that tells the kind of an instruction.
pub open spec fn instruction_tag(instruction: ProgramInstruction) -> u8 {
    match instruction {
        ProgramInstruction::InitWallet { .. } => 0,
        ProgramInstruction::InitWalletConfigPolicyUpdate { .. } => 1,
        ProgramInstruction::FinalizeWalletConfigPolicyUpdate { .. } => 2,
        ProgramInstruction::InitBalanceAccountPolicyUpdate { .. } => 3,
        ProgramInstruction::FinalizeBalanceAccountPolicyUpdate { .. } => 4,
        ProgramInstruction::InitAddressBookUpdate { .. } => 5,
        ProgramInstruction::FinalizeAddressBookUpdate { .. } => 6,
        ProgramInstruction::SetApprovalDisposition { .. } => 7,
        ProgramInstruction::InitDAppTransaction { .. } => 8,
        ProgramInstruction::SupplyDAppTransactionInstructions { .. } => 9,
        ProgramInstruction::FinalizeDAppTransaction { .. } => 10,
    }
}

/// The bytes that stand for what an instruction carries: its fields in the
/// order in which they are declared.
pub open spec fn instruction_body(instruction: ProgramInstruction) -> Seq<u8> {
    match instruction {
        ProgramInstruction::InitWallet { initial_config } => program_config_update_bytes(
            initial_config,
        ),
        ProgramInstruction::InitWalletConfigPolicyUpdate { update } => program_config_update_bytes(
            update,
        ),
        ProgramInstruction::FinalizeWalletConfigPolicyUpdate {
            update,
        } => program_config_update_bytes(update),
        ProgramInstruction::InitBalanceAccountPolicyUpdate { account_guid_hash, update } =>
            account_guid_hash@ + wallet_config_update_bytes(update),
        ProgramInstruction::FinalizeBalanceAccountPolicyUpdate { account_guid_hash, update } =>
            account_guid_hash@ + wallet_config_update_bytes(update),
        ProgramInstruction::InitAddressBookUpdate { update } => address_book_update_bytes(update),
        ProgramInstruction::FinalizeAddressBookUpdate { update } => address_book_update_bytes(
            update,
        ),
        ProgramInstruction::SetApprovalDisposition { disposition, params_hash } => seq![
            vote_byte(disposition),
        ] + params_hash@,
        ProgramInstruction::InitDAppTransaction { account_guid_hash, dapp, instruction_count } =>
            account_guid_hash@ + dapp.address.bytes@ + dapp.name_hash@ + seq![instruction_count],
        ProgramInstruction::SupplyDAppTransactionInstructions { starting_index, instructions } =>
            seq![starting_index] + counted_payloads_bytes(views_of(instructions@)),
        ProgramInstruction::FinalizeDAppTransaction { account_guid_hash, params_hash } =>
            account_guid_hash@ + params_hash@,
    }
}

/// The bytes that stand for an instruction: the byte of its kind, then what
/// it carries.
pub open spec fn instruction_bytes(instruction: ProgramInstruction) -> Seq<u8> {
    seq![instruction_tag(instruction)] + instruction_body(instruction)
}

/// Bytes are those of an instruction where its kind stands first and what it
/// carries fills the rest.
pub proof fn lemma_instruction_stands(src: Seq<u8>, instruction: ProgramInstruction)
    ensures
        instruction_bytes(instruction) == src <==> {
            &&& src.len() == 1 + instruction_body(instruction).len()
            &&& src[0] == instruction_tag(instruction)
            &&& starts(src, 1, instruction_body(instruction))
        },
{
    let tag = seq![instruction_tag(instruction)];
    let body = instruction_body(instruction);
    lemma_starts_concat(src, 0, tag, body);
    lemma_starts_byte(src, 0, instruction_tag(instruction));
    if instruction_bytes(instruction) == src {
        assert(src.subrange(0, src.len() as int) =~= src);
    }
    if src.len() == 1 + body.len() && starts(src, 0, tag + body) {
        assert(src.subrange(0, src.len() as int) =~= src);
    }
}

/// Appends the bytes that stand for the instructions, each behind its
/// length, to `out`.
fn push_payloads(out: &mut Vec<u8>, payloads: &Vec<Vec<u8>>)
    ensures
        final(out)@ == old(out)@ + counted_payloads_bytes(views_of(payloads@)),
{
    push_u64(out, payloads.len() as u64);
    let ghost start = out@;
    let mut i: usize = 0;
    while i < payloads.len()
        invariant
            i <= payloads.len(),
            out@ == start + payload_list_bytes(views_of(payloads@).take(i as int)),
        decreases payloads.len() - i,
    {
        push_u64(out, payloads[i].len() as u64);
        push_all(out, &payloads[i]);
        proof {
            let views = views_of(payloads@);
            assert(views.take(i + 1).drop_last() =~= views.take(i as int));
            assert(views.take(i + 1).last() == payloads@[i as int]@);
            assert(out@ =~= start + payload_list_bytes(views.take(i + 1)));
        }
        i += 1;
    }
    proof {
        let views = views_of(payloads@);
        assert(views.take(payloads@.len() as int) =~= views);
        assert(out@ =~= old(out)@ + counted_payloads_bytes(views));
    }
}

impl ProgramInstruction {
    /// The bytes that stand for the instruction.
    pub fn pack(&self) -> (r: Vec<u8>)
        ensures
            r@ == instruction_bytes(*self),
    {
        let mut out: Vec<u8> = Vec::new();
        match self {
            ProgramInstruction::InitWallet { initial_config } => {
                out.push(0);
                push_program_config_update(&mut out, initial_config);
            },
            ProgramInstruction::InitWalletConfigPolicyUpdate { update } => {
                out.push(1);
                push_program_config_update(&mut out, update);
            },
            ProgramInstruction::FinalizeWalletConfigPolicyUpdate { update } => {
                out.push(2);
                push_program_config_update(&mut out, update);
            },
            ProgramInstruction::InitBalanceAccountPolicyUpdate { account_guid_hash, update } => {
                out.push(3);
                push_bytes32(&mut out, account_guid_hash);
                push_wallet_config_update(&mut out, update);
            },
            ProgramInstruction::FinalizeBalanceAccountPolicyUpdate { account_guid_hash, update } => {
                out.push(4);
                push_bytes32(&mut out, account_guid_hash);
                push_wallet_config_update(&mut out, update);
            },
            ProgramInstruction::InitAddressBookUpdate { update } => {
                out.push(5);
                push_entries(&mut out, &update.add_address_book_entries);
                push_entries(&mut out, &update.remove_address_book_entries);
            },
            ProgramInstruction::FinalizeAddressBookUpdate { update } => {
                out.push(6);
                push_entries(&mut out, &update.add_address_book_entries);
                push_entries(&mut out, &update.remove_address_book_entries);
            },
            ProgramInstruction::SetApprovalDisposition { disposition, params_hash } => {
                out.push(7);
                out.push(byte_of_vote(*disposition));
                push_bytes32(&mut out, params_hash);
            },
            ProgramInstruction::InitDAppTransaction {
                account_guid_hash,
                dapp,
                instruction_count,
            } => {
                out.push(8);
                push_bytes32(&mut out, account_guid_hash);
                push_bytes32(&mut out, &dapp.address.bytes);
                push_bytes32(&mut out, &dapp.name_hash);
                out.push(*instruction_count);
            },
            ProgramInstruction::SupplyDAppTransactionInstructions {
                starting_index,
                instructions,
            } => {
                out.push(9);
                out.push(*starting_index);
                push_payloads(&mut out, instructions);
            },
            ProgramInstruction::FinalizeDAppTransaction { account_guid_hash, params_hash } => {
                out.push(10);
                push_bytes32(&mut out, account_guid_hash);
                push_bytes32(&mut out, params_hash);
            },
        }
        assert(out@ =~= instruction_bytes(*self));
        out
    }
}

/// The change of the program-wide policy that fills the bytes behind the
/// first; nothing where the bytes behind the first are not those of a change.
fn whole_program_config_update(src: &[u8]) -> (r: Option<ProgramConfigUpdate>)
    requires
        src@.len() >= 1,
    ensures
        r is Some ==> starts(src@, 1, program_config_update_bytes(r->Some_0)) && src@.len() == 1
            + program_config_update_bytes(r->Some_0).len(),
        forall|update: ProgramConfigUpdate| #[trigger]
            starts(src@, 1, program_config_update_bytes(update)) && src@.len() == 1
                + program_config_update_bytes(update).len() ==> r is Some,
{
    match parse_program_config_update(src, 1) {
        Some((update, next)) => {
            if next == src.len() {
                Some(update)
            } else {
                None
            }
        },
        None => None,
    }
}

/// The change of a wallet's policy that fills the bytes behind the
/// identifier of the wallet; nothing where those bytes are not those of a
/// change.
fn whole_wallet_config_update(src: &[u8]) -> (r: Option<WalletConfigUpdate>)
    requires
        src@.len() >= 33,
    ensures
        r is Some ==> starts(src@, 33, wallet_config_update_bytes(r->Some_0)) && src@.len() == 33
            + wallet_config_update_bytes(r->Some_0).len(),
        forall|update: WalletConfigUpdate| #[trigger]
            starts(src@, 33, wallet_config_update_bytes(update)) && src@.len() == 33
                + wallet_config_update_bytes(update).len() ==> r is Some,
{
    match parse_wallet_config_update(src, 33) {
        Some((update, next)) => {
            if next == src.len() {
                Some(update)
            } else {
                None
            }
        },
        None => None,
    }
}

/// The change of the address book that fills the bytes behind the first;
/// nothing where the bytes behind the first are not those of a change.
fn whole_address_book_update(src: &[u8]) -> (r: Option<AddressBookUpdate>)
    requires
        src@.len() >= 1,
    ensures
        r is Some ==> starts(src@, 1, address_book_update_bytes(r->Some_0)) && src@.len() == 1
            + address_book_update_bytes(r->Some_0).len(),
        forall|update: AddressBookUpdate| #[trigger]
            starts(src@, 1, address_book_update_bytes(update)) && src@.len() == 1
                + address_book_update_bytes(update).len() ==> r is Some,
{
    match parse_address_book_update(src, 1) {
        Some((update, next)) => {
            if next == src.len() {
                Some(update)
            } else {
                None
            }
        },
        None => None,
    }
}

/// The instructions that fill the bytes behind the second; nothing where
/// those bytes are not those of a list of instructions.
fn whole_payloads(src: &[u8]) -> (r: Option<Vec<Vec<u8>>>)
    requires
        src@.len() >= 2,
    ensures
        r is Some ==> starts(src@, 2, counted_payloads_bytes(views_of(r->Some_0@))) && src@.len()
            == 2 + counted_payloads_bytes(views_of(r->Some_0@)).len(),
        forall|payloads: Seq<Seq<u8>>| #[trigger]
            starts(src@, 2, counted_payloads_bytes(payloads)) && src@.len() == 2
                + counted_payloads_bytes(payloads).len() ==> r is Some,
{
    match parse_payloads(src, 2) {
        Some((payloads, next)) => {
            if next == src.len() {
                Some(payloads)
            } else {
                None
            }
        },
        None => None,
    }
}

impl ProgramInstruction {
    /// The instruction that the bytes stand for. Refused where they are the
    /// bytes of no instruction.
    pub fn unpack(src: &[u8]) -> (r: Result<ProgramInstruction, WalletError>)
        ensures
            match r {
                Ok(instruction) => instruction_bytes(instruction) == src@,
                Err(e) => e == WalletError::InvalidInstructionData && forall|
                    instruction: ProgramInstruction,
                | #[trigger] instruction_bytes(instruction) != src@,
            },
    {
        proof {
            assert forall|instruction: ProgramInstruction| #[trigger]
                instruction_bytes(instruction) == src@ implies {
                &&& src@.len() == 1 + instruction_body(instruction).len()
                &&& src@[0] == instruction_tag(instruction)
                &&& starts(src@, 1, instruction_body(instruction))
            } by {
                lemma_instruction_stands(src@, instruction);
            }
        }
        if src.len() < 1 {
            return Err(WalletError::InvalidInstructionData);
        }
        let tag = src[0];
        if tag <= 2 {
            let update = match whole_program_config_update(src) {
                Some(update) => update,
                None => {
                    return Err(WalletError::InvalidInstructionData);
                },
            };
            let instruction = if tag == 0 {
                ProgramInstruction::InitWallet { initial_config: update }
            } else if tag == 1 {
                ProgramInstruction::InitWalletConfigPolicyUpdate { update }
            } else {
                ProgramInstruction::FinalizeWalletConfigPolicyUpdate { update }
            };
            proof {
                lemma_instruction_stands(src@, instruction);
            }
            Ok(instruction)
        } else if tag <= 4 {
            proof {
                assert forall|instruction: ProgramInstruction| #[trigger]
                    instruction_bytes(instruction) == src@ implies src@.len() >= 33 && ((
                instruction matches ProgramInstruction::InitBalanceAccountPolicyUpdate { update, .. }
                    && starts(src@, 33, wallet_config_update_bytes(update)) && src@.len() == 33
                    + wallet_config_update_bytes(update).len()) || (
                instruction matches ProgramInstruction::FinalizeBalanceAccountPolicyUpdate {
                    update,
                    ..
                } && starts(src@, 33, wallet_config_update_bytes(update)) && src@.len() == 33
                    + wallet_config_update_bytes(update).len())) by {
                    match instruction {
                        ProgramInstruction::InitBalanceAccountPolicyUpdate {
                            account_guid_hash,
                            update,
                        } => {
                            lemma_starts_concat(
                                src@,
                                1,
                                account_guid_hash@,
                                wallet_config_update_bytes(update),
                            );
                        },
                        ProgramInstruction::FinalizeBalanceAccountPolicyUpdate {
                            account_guid_hash,
                            update,
                        } => {
                            lemma_starts_concat(
                                src@,
                                1,
                                account_guid_hash@,
                                wallet_config_update_bytes(update),
                            );
                        },
                        _ => {},
                    }
                }
            }
            if src.len() < 33 {
                return Err(WalletError::InvalidInstructionData);
            }
            let (account_guid_hash, _) = match parse_bytes32(src, 1) {
                Some(parsed) => parsed,
                None => {
                    return Err(WalletError::InvalidInstructionData);
                },
            };
            let update = match whole_wallet_config_update(src) {
                Some(update) => update,
                None => {
                    return Err(WalletError::InvalidInstructionData);
                },
            };
            let instruction = if tag == 3 {
                ProgramInstruction::InitBalanceAccountPolicyUpdate { account_guid_hash, update }
            } else {
                ProgramInstruction::FinalizeBalanceAccountPolicyUpdate { account_guid_hash, update }
            };
            proof {
                lemma_starts_concat(src@, 1, account_guid_hash@, wallet_config_update_bytes(update));
                lemma_instruction_stands(src@, instruction);
            }
            Ok(instruction)
        } else if tag <= 6 {
            let update = match whole_address_book_update(src) {
                Some(update) => update,
                None => {
                    return Err(WalletError::InvalidInstructionData);
                },
            };
            let instruction = if tag == 5 {
                ProgramInstruction::InitAddressBookUpdate { update }
            } else {
                ProgramInstruction::FinalizeAddressBookUpdate { update }
            };
            proof {
                lemma_instruction_stands(src@, instruction);
            }
            Ok(instruction)
        } else if tag == 7 {
            proof {
                assert forall|instruction: ProgramInstruction| #[trigger]
                    instruction_bytes(instruction) == src@ implies src@.len() == 34 && src@[1]
                    <= 2 by {
                    match instruction {
                        ProgramInstruction::SetApprovalDisposition { disposition, params_hash } => {
                            lemma_starts_concat(src@, 1, seq![vote_byte(disposition)], params_hash@);
                            lemma_starts_byte(src@, 1, vote_byte(disposition));
                        },
                        _ => {},
                    }
                }
            }
            if src.len() != 34 {
                return Err(WalletError::InvalidInstructionData);
            }
            let disposition = match vote_of(src[1]) {
                Some(disposition) => disposition,
                None => {
                    return Err(WalletError::InvalidInstructionData);
                },
            };
            let (params_hash, _) = match parse_bytes32(src, 2) {
                Some(parsed) => parsed,
                None => {
                    return Err(WalletError::InvalidInstructionData);
                },
            };
            let instruction = ProgramInstruction::SetApprovalDisposition { disposition, params_hash };
            proof {
                lemma_starts_concat(src@, 1, seq![vote_byte(disposition)], params_hash@);
                lemma_starts_byte(src@, 1, vote_byte(disposition));
                lemma_instruction_stands(src@, instruction);
            }
            Ok(instruction)
        } else if tag == 8 {
            proof {
                assert forall|instruction: ProgramInstruction| #[trigger]
                    instruction_bytes(instruction) == src@ implies src@.len() == 98 by {}
            }
            if src.len() != 98 {
                return Err(WalletError::InvalidInstructionData);
            }
            let (account_guid_hash, _) = match parse_bytes32(src, 1) {
                Some(parsed) => parsed,
                None => {
                    return Err(WalletError::InvalidInstructionData);
                },
            };
            let (address, _) = match parse_bytes32(src, 33) {
                Some(parsed) => parsed,
                None => {
                    return Err(WalletError::InvalidInstructionData);
                },
            };
            let (name_hash, _) = match parse_bytes32(src, 65) {
                Some(parsed) => parsed,
                None => {
                    return Err(WalletError::InvalidInstructionData);
                },
            };
            let instruction = ProgramInstruction::InitDAppTransaction {
                account_guid_hash,
                dapp: DAppBookEntry { address: Pubkey { bytes: address }, name_hash },
                instruction_count: src[97],
            };
            proof {
                lemma_starts_concat(src@, 1, account_guid_hash@, address@);
                lemma_starts_concat(src@, 1, account_guid_hash@ + address@, name_hash@);
                lemma_starts_byte(src@, 97, src@[97]);
                lemma_starts_concat(
                    src@,
                    1,
                    account_guid_hash@ + address@ + name_hash@,
                    seq![src@[97]],
                );
                lemma_instruction_stands(src@, instruction);
            }
            Ok(instruction)
        } else if tag == 9 {
            proof {
                assert forall|instruction: ProgramInstruction| #[trigger]
                    instruction_bytes(instruction) == src@ implies src@.len() >= 2 && (
                instruction matches ProgramInstruction::SupplyDAppTransactionInstructions {
                    starting_index,
                    instructions,
                } && starts(src@, 2, counted_payloads_bytes(views_of(instructions@))) && src@.len()
                    == 2 + counted_payloads_bytes(views_of(instructions@)).len()) by {
                    match instruction {
                        ProgramInstruction::SupplyDAppTransactionInstructions {
                            starting_index,
                            instructions,
                        } => {
                            lemma_starts_concat(
                                src@,
                                1,
                                seq![starting_index],
                                counted_payloads_bytes(views_of(instructions@)),
                            );
                        },
                        _ => {},
                    }
                }
            }
            if src.len() < 2 {
                return Err(WalletError::InvalidInstructionData);
            }
            let instructions = match whole_payloads(src) {
                Some(instructions) => instructions,
                None => {
                    return Err(WalletError::InvalidInstructionData);
                },
            };
            let instruction = ProgramInstruction::SupplyDAppTransactionInstructions {
                starting_index: src[1],
                instructions,
            };
            proof {
                lemma_starts_byte(src@, 1, src@[1]);
                lemma_starts_concat(
                    src@,
                    1,
                    seq![src@[1]],
                    counted_payloads_bytes(views_of(instructions@)),
                );
                lemma_instruction_stands(src@, instruction);
            }
            Ok(instruction)
        } else if tag == 10 {
            proof {
                assert forall|instruction: ProgramInstruction| #[trigger]
                    instruction_bytes(instruction) == src@ implies src@.len() == 65 by {}
            }
            if src.len() != 65 {
                return Err(WalletError::InvalidInstructionData);
            }
            let (account_guid_hash, _) = match parse_bytes32(src, 1) {
                Some(parsed) => parsed,
                None => {
                    return Err(WalletError::InvalidInstructionData);
                },
            };
            let (params_hash, _) = match parse_bytes32(src, 33) {
                Some(parsed) => parsed,
                None => {
                    return Err(WalletError::InvalidInstructionData);
                },
            };
            let instruction = ProgramInstruction::FinalizeDAppTransaction {
                account_guid_hash,
                params_hash,
            };
            proof {
                lemma_starts_concat(src@, 1, account_guid_hash@, params_hash@);
                lemma_instruction_stands(src@, instruction);
            }
            Ok(instruction)
        } else {
            Err(WalletError::InvalidInstructionData)
        }
    }
}

} // verus!
