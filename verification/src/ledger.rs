//! The on-chain realization of the abstract ledger operations: each burn or
//! close operation becomes one token-program instruction, built by the token
//! crate behind a trusted boundary.
use vstd::prelude::*;

use crate::batch::{BatchUnit, LedgerOp, LedgerOpModel, unit_operations, unit_ops};
use crate::directory::record_wf;
use crate::record::RecordModel;

verus! {

#[verifier::external_type_specification]
#[verifier::external_body]
pub struct ExInstruction(solana_program::instruction::Instruction);

/// An operation is well-formed when each identifier it carries holds the 32
/// raw bytes of an on-chain address.
pub open spec fn op_wf(o: LedgerOpModel) -> bool {
    match o {
        LedgerOpModel::Burn { account, mint, authority, amount } => {
            &&& account.len() == 32
            &&& mint.len() == 32
            &&& authority.len() == 32
        },
        LedgerOpModel::Close { account, destination, owner } => {
            &&& account.len() == 32
            &&& destination.len() == 32
            &&& owner.len() == 32
        },
    }
}

/// Relies on spl_token::instruction::burn: builds the instruction that burns
/// `amount` from the account to its mint, signed by the authority; handed
/// the token crate's own program id, the call always returns an instruction.
#[verifier::external_body]
fn burn_instruction(account: &Vec<u8>, mint: &Vec<u8>, authority: &Vec<u8>, amount: u64) -> (r:
    solana_program::instruction::Instruction)
    requires
        account@.len() == 32,
        mint@.len() == 32,
        authority@.len() == 32,
{
    let account_pk = solana_program::pubkey::Pubkey::new_from_array(account.as_slice().try_into().unwrap());
    let mint_pk = solana_program::pubkey::Pubkey::new_from_array(mint.as_slice().try_into().unwrap());
    let auth_pk = solana_program::pubkey::Pubkey::new_from_array(authority.as_slice().try_into().unwrap());
    spl_token::instruction::burn(&spl_token::id(), &account_pk, &mint_pk, &auth_pk, &[&auth_pk], amount).unwrap()
}

/// Relies on spl_token::instruction::close_account: builds the instruction
/// that closes the account and sends its reserved balance to `destination`,
/// signed by the owner; handed the token crate's own program id, the call
/// always returns an instruction.
#[verifier::external_body]
fn close_instruction(account: &Vec<u8>, destination: &Vec<u8>, owner: &Vec<u8>) -> (r:
    solana_program::instruction::Instruction)
    requires
        account@.len() == 32,
        destination@.len() == 32,
        owner@.len() == 32,
{
    let account_pk = solana_program::pubkey::Pubkey::new_from_array(account.as_slice().try_into().unwrap());
    let dest_pk = solana_program::pubkey::Pubkey::new_from_array(destination.as_slice().try_into().unwrap());
    let owner_pk = solana_program::pubkey::Pubkey::new_from_array(owner.as_slice().try_into().unwrap());
    spl_token::instruction::close_account(&spl_token::id(), &account_pk, &dest_pk, &owner_pk, &[&owner_pk]).unwrap()
}

/// The on-chain instruction realizing one abstract operation.
pub fn op_instruction(op: &LedgerOp) -> (r: solana_program::instruction::Instruction)
    requires
        op_wf(op@),
{
    match op {
        LedgerOp::Burn { account, mint, authority, amount } => burn_instruction(
            account,
            mint,
            authority,
            *amount,
        ),
        LedgerOp::Close { account, destination, owner } => close_instruction(
            account,
            destination,
            owner,
        ),
    }
}

proof fn lemma_unit_ops_wf(u: Seq<RecordModel>, auth: Seq<u8>)
    requires
        forall|i: int| 0 <= i < u.len() ==> record_wf(#[trigger] u[i]),
        auth.len() == 32,
    ensures
        forall|j: int| 0 <= j < unit_ops(u, auth).len() ==> op_wf(#[trigger] unit_ops(u, auth)[j]),
    decreases u.len(),
{
    if u.len() > 0 {
        assert(forall|i: int|
            0 <= i < u.drop_last().len() ==> record_wf(#[trigger] u.drop_last()[i]));
        lemma_unit_ops_wf(u.drop_last(), auth);
        assert(record_wf(u.last()));
        let whole = unit_ops(u, auth);
        let head = unit_ops(u.drop_last(), auth);
        assert(whole == head + seq![
            crate::batch::burn_op(u.last(), auth),
            crate::batch::close_op(u.last(), auth),
        ]);
        assert(op_wf(crate::batch::burn_op(u.last(), auth)));
        assert(op_wf(crate::batch::close_op(u.last(), auth)));
        assert forall|j: int| 0 <= j < whole.len() implies op_wf(#[trigger] whole[j]) by {
            if j < head.len() {
                assert(whole[j] == head[j]);
                assert(op_wf(head[j]));
            } else if j == head.len() {
                assert(whole[j] == crate::batch::burn_op(u.last(), auth));
            } else {
                assert(whole[j] == crate::batch::close_op(u.last(), auth));
            }
        }
    }
}

/// The instructions of one submission unit: the unit's operations, realized
/// in order, two per record.
pub fn unit_instructions(unit: &BatchUnit, authority: &Vec<u8>) -> (r: Vec<
    solana_program::instruction::Instruction,
>)
    requires
        forall|i: int| 0 <= i < unit@.len() ==> record_wf(#[trigger] unit@[i]),
        authority@.len() == 32,
    ensures
        r@.len() == 2 * unit@.len(),
{
    let ops = unit_operations(unit, authority);
    proof {
        lemma_unit_ops_wf(unit@, authority@);
        crate::batch::lemma_unit_ops_len(unit@, authority@);
    }
    let mut r: Vec<solana_program::instruction::Instruction> = Vec::new();
    let mut j: usize = 0;
    while j < ops.len()
        invariant
            j <= ops@.len(),
            r@.len() == j,
            ops@.len() == unit_ops(unit@, authority@).len(),
            forall|t: int| 0 <= t < ops@.len() ==> (#[trigger] ops@[t])@ == unit_ops(
                unit@,
                authority@,
            )[t],
            forall|t: int|
                0 <= t < unit_ops(unit@, authority@).len() ==> op_wf(
                    #[trigger] unit_ops(unit@, authority@)[t],
                ),
        decreases ops@.len() - j,
    {
        let inst = op_instruction(&ops[j]);
        r.push(inst);
        j += 1;
    }
    r
}

} // verus!
