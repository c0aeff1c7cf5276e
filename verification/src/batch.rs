//! The batch builder: partitions the selected records into bounded units and
//! lays out each unit's ledger operations, burn before close per record.
use vstd::prelude::*;

use crate::BATCH_SIZE;
use crate::directory::models_of;
use crate::errors::SweepError;
use crate::record::{AccountRecord, RecordModel, clone_bytes};

verus! {

/// `s` split into consecutive groups of `size`, the last possibly smaller.
pub open spec fn chunked(s: Seq<RecordModel>, size: int) -> Seq<Seq<RecordModel>>
    decreases s.len(),
    when size >= 1
{
    if s.len() == 0 {
        Seq::empty()
    } else if s.len() <= size {
        seq![s]
    } else {
        seq![s.take(size)] + chunked(s.skip(size), size)
    }
}

/// An ordered group of at most `BATCH_SIZE` selected records, bundled into
/// one ledger submission.
#[derive(Debug)]
pub struct BatchUnit {
    pub records: Vec<AccountRecord>,
}

impl View for BatchUnit {
    type V = Seq<RecordModel>;

    open spec fn view(&self) -> Seq<RecordModel> {
        models_of(self.records@)
    }
}

/// The models of a sequence of units.
pub open spec fn units_models(us: Seq<BatchUnit>) -> Seq<Seq<RecordModel>> {
    us.map_values(|u: BatchUnit| u@)
}

/// Law: batch partition. Splitting `s` into groups of `BATCH_SIZE` yields
/// ceil(len / BATCH_SIZE) units; every unit but the last holds exactly
/// `BATCH_SIZE` records, the last holds between 1 and `BATCH_SIZE`; and the
/// concatenation of all units is `s` itself, in order.
pub proof fn lemma_batch_partition(s: Seq<RecordModel>)
    ensures
        chunked(s, BATCH_SIZE as int).len() == (s.len() + BATCH_SIZE - 1) / (BATCH_SIZE as int),
        forall|k: int|
            0 <= k < chunked(s, BATCH_SIZE as int).len() - 1 ==> (#[trigger] chunked(
                s,
                BATCH_SIZE as int,
            )[k]).len() == BATCH_SIZE,
        s.len() > 0 ==> 1 <= chunked(s, BATCH_SIZE as int).last().len() <= BATCH_SIZE,
        chunked(s, BATCH_SIZE as int).flatten() == s,
    decreases s.len(),
{
    reveal_with_fuel(Seq::<Seq<RecordModel>>::flatten, 3);
    let size = BATCH_SIZE as int;
    let c = chunked(s, size);
    if s.len() == 0 {
        assert(c.flatten() =~= s);
    } else if s.len() <= size {
        assert(c == seq![s]);
        assert(c.drop_first() =~= Seq::<Seq<RecordModel>>::empty());
        assert(c.flatten() =~= s);
    } else {
        lemma_batch_partition(s.skip(size));
        let rest = chunked(s.skip(size), size);
        assert(c == seq![s.take(size)] + rest);
        assert(c.len() == 1 + rest.len());
        assert((s.len() + size - 1) / size == (s.skip(size).len() + size - 1) / size + 1) by {
            assert(s.skip(size).len() == s.len() - size);
            assert((s.len() + size - 1) - ((s.len() - size) + size - 1) == size);
        }
        assert(c.first() == s.take(size));
        assert(c.drop_first() =~= rest);
        assert(c.flatten() == s.take(size) + rest.flatten());
        assert(s.take(size) + s.skip(size) =~= s);
        assert(c.flatten() =~= s);
        assert(c.last() == rest.last());
        assert(forall|k: int| 1 <= k < c.len() ==> (#[trigger] c[k]) == rest[k - 1]);
    }
}

/// Partitions the selected records into consecutive units of at most
/// `BATCH_SIZE`, in order; rejects an empty selection.
pub fn build_batches(selected: Vec<AccountRecord>) -> (r: Result<Vec<BatchUnit>, SweepError>)
    ensures
        (r is Err) == (selected@.len() == 0),
        r is Err ==> r == Err::<Vec<BatchUnit>, SweepError>(SweepError::EmptySelection),
        r is Ok ==> units_models(r.unwrap()@) == chunked(
            models_of(selected@),
            BATCH_SIZE as int,
        ),
{
    let n = selected.len();
    if n == 0 {
        return Err(SweepError::EmptySelection);
    }
    let ghost all = models_of(selected@);
    let mut units: Vec<BatchUnit> = Vec::new();
    let mut pos: usize = 0;
    proof {
        assert(all.skip(0) =~= all);
        assert(units_models(units@) =~= Seq::<Seq<RecordModel>>::empty());
        assert(units_models(units@) + chunked(all, BATCH_SIZE as int) =~= chunked(
            all,
            BATCH_SIZE as int,
        ));
    }
    while pos < n
        invariant
            n == selected@.len(),
            all == models_of(selected@),
            pos <= n,
            chunked(all, BATCH_SIZE as int) == units_models(units@) + chunked(
                all.skip(pos as int),
                BATCH_SIZE as int,
            ),
        decreases n - pos,
    {
        let remaining = n - pos;
        let take: usize = if remaining < BATCH_SIZE {
            remaining
        } else {
            BATCH_SIZE
        };
        let mut group: Vec<AccountRecord> = Vec::new();
        let mut j: usize = 0;
        proof {
            assert(models_of(group@) =~= models_of(selected@).subrange(pos as int, pos as int));
        }
        while j < take
            invariant
                n == selected@.len(),
                pos + take <= n,
                j <= take,
                models_of(group@) == models_of(selected@).subrange(pos as int, pos + j),
            decreases take - j,
        {
            let ghost prev = group@;
            let copy = selected[pos + j].duplicate();
            proof {
                assert(copy@ == models_of(selected@)[pos + j]);
            }
            group.push(copy);
            proof {
                assert(group@ =~= prev.push(copy));
                assert(forall|t: int|
                    0 <= t < prev.len() ==> (#[trigger] models_of(group@)[t]) == models_of(
                        prev,
                    )[t]);
                assert(models_of(group@)[prev.len() as int] == copy@);
                assert(pos + j <= models_of(selected@).len());
                assert(models_of(prev) == models_of(selected@).subrange(pos as int, pos + j));
                assert(models_of(prev).len() == j);
                assert(models_of(group@).len() == j + 1);
                assert(forall|t: int|
                    0 <= t < j ==> (#[trigger] models_of(group@)[t]) == models_of(
                        selected@,
                    )[pos + t]);
                assert(models_of(group@)[j as int] == models_of(selected@)[pos + j]);
                assert(models_of(group@) =~= models_of(selected@).subrange(
                    pos as int,
                    pos + j + 1,
                ));
            }
            j += 1;
        }
        let unit = BatchUnit { records: group };
        proof {
            let rem = all.skip(pos as int);
            assert(unit@ =~= rem.take(take as int));
            if remaining <= BATCH_SIZE {
                assert(rem.len() == remaining);
                assert(unit@ =~= rem);
                assert(chunked(rem, BATCH_SIZE as int) == seq![rem]);
                assert(all.skip(pos + take as int) =~= rem.skip(take as int));
                assert(rem.skip(take as int).len() == 0);
                assert(chunked(all.skip(pos + take as int), BATCH_SIZE as int)
                    =~= Seq::<Seq<RecordModel>>::empty());
                assert(units_models(units@.push(unit)) =~= units_models(units@) + seq![rem]);
            } else {
                assert(take == BATCH_SIZE);
                assert(chunked(rem, BATCH_SIZE as int) == seq![rem.take(BATCH_SIZE as int)]
                    + chunked(rem.skip(BATCH_SIZE as int), BATCH_SIZE as int));
                assert(all.skip(pos + take as int) =~= rem.skip(take as int));
                assert(units_models(units@.push(unit)) =~= units_models(units@) + seq![unit@]);
                assert(units_models(units@) + chunked(rem, BATCH_SIZE as int) =~= (units_models(
                    units@,
                ) + seq![unit@]) + chunked(rem.skip(BATCH_SIZE as int), BATCH_SIZE as int));
            }
        }
        units.push(unit);
        pos += take;
    }
    proof {
        assert(all.skip(pos as int).len() == 0);
        assert(chunked(all.skip(pos as int), BATCH_SIZE as int)
            =~= Seq::<Seq<RecordModel>>::empty());
        assert(units_models(units@) =~= units_models(units@) + chunked(
            all.skip(pos as int),
            BATCH_SIZE as int,
        ));
    }
    Ok(units)
}

/// One abstract ledger operation of a submission unit.
#[derive(Debug)]
pub enum LedgerOp {
    /// Empties the account's token balance to its mint, authorized by the
    /// session's signing identity.
    Burn { account: Vec<u8>, mint: Vec<u8>, authority: Vec<u8>, amount: u64 },
    /// Deallocates the account and reclaims its reserved balance to the
    /// signing identity.
    Close { account: Vec<u8>, destination: Vec<u8>, owner: Vec<u8> },
}

/// Mathematical model of a ledger operation.
pub enum LedgerOpModel {
    Burn { account: Seq<u8>, mint: Seq<u8>, authority: Seq<u8>, amount: u64 },
    Close { account: Seq<u8>, destination: Seq<u8>, owner: Seq<u8> },
}

impl View for LedgerOp {
    type V = LedgerOpModel;

    open spec fn view(&self) -> LedgerOpModel {
        match self {
            LedgerOp::Burn { account, mint, authority, amount } => LedgerOpModel::Burn {
                account: account@,
                mint: mint@,
                authority: authority@,
                amount: *amount,
            },
            LedgerOp::Close { account, destination, owner } => LedgerOpModel::Close {
                account: account@,
                destination: destination@,
                owner: owner@,
            },
        }
    }
}

/// The burn operation for record `m`, authorized by `auth`.
pub open spec fn burn_op(m: RecordModel, auth: Seq<u8>) -> LedgerOpModel {
    LedgerOpModel::Burn {
        account: m.address_raw,
        mint: m.mint_raw,
        authority: auth,
        amount: m.raw_balance,
    }
}

/// The close operation for record `m`: the reclaimed balance goes to the
/// signing identity, which also owns the account.
pub open spec fn close_op(m: RecordModel, auth: Seq<u8>) -> LedgerOpModel {
    LedgerOpModel::Close { account: m.address_raw, destination: auth, owner: auth }
}

/// The models of a sequence of operations.
pub open spec fn ops_models(ops: Seq<LedgerOp>) -> Seq<LedgerOpModel> {
    ops.map_values(|o: LedgerOp| o@)
}

/// The operations of a unit, in order: burn then close for the first record,
/// then burn then close for the second, and so on.
pub open spec fn unit_ops(u: Seq<RecordModel>, auth: Seq<u8>) -> Seq<LedgerOpModel>
    decreases u.len(),
{
    if u.len() == 0 {
        Seq::empty()
    } else {
        unit_ops(u.drop_last(), auth) + seq![
            burn_op(u.last(), auth),
            close_op(u.last(), auth),
        ]
    }
}

pub proof fn lemma_unit_ops_len(u: Seq<RecordModel>, auth: Seq<u8>)
    ensures
        unit_ops(u, auth).len() == 2 * u.len(),
    decreases u.len(),
{
    if u.len() > 0 {
        lemma_unit_ops_len(u.drop_last(), auth);
    }
}

/// Law: operation ordering. Within a unit, record `k` contributes exactly
/// the operations at positions `2k` and `2k + 1`: its burn comes first, its
/// close second, so every record's burn precedes its close.
pub proof fn lemma_burn_precedes_close(u: Seq<RecordModel>, auth: Seq<u8>, k: int)
    requires
        0 <= k < u.len(),
    ensures
        unit_ops(u, auth).len() == 2 * u.len(),
        unit_ops(u, auth)[2 * k] == burn_op(u[k], auth),
        unit_ops(u, auth)[2 * k + 1] == close_op(u[k], auth),
    decreases u.len(),
{
    lemma_unit_ops_len(u, auth);
    lemma_unit_ops_len(u.drop_last(), auth);
    if k < u.len() - 1 {
        lemma_burn_precedes_close(u.drop_last(), auth, k);
    }
}

/// Lays out a unit's ledger operations: for each record, in unit order, a
/// burn of its full balance followed by a close of the account.
pub fn unit_operations(unit: &BatchUnit, authority: &Vec<u8>) -> (r: Vec<LedgerOp>)
    ensures
        ops_models(r@) == unit_ops(unit@, authority@),
{
    let mut ops: Vec<LedgerOp> = Vec::new();
    let mut i: usize = 0;
    while i < unit.records.len()
        invariant
            i <= unit.records@.len(),
            unit@.len() == unit.records@.len(),
            ops_models(ops@) == unit_ops(unit@.subrange(0, i as int), authority@),
        decreases unit.records@.len() - i,
    {
        let rec = &unit.records[i];
        let burn = LedgerOp::Burn {
            account: clone_bytes(&rec.address_raw),
            mint: clone_bytes(&rec.mint_raw),
            authority: clone_bytes(authority),
            amount: rec.raw_balance,
        };
        ops.push(burn);
        let close = LedgerOp::Close {
            account: clone_bytes(&rec.address_raw),
            destination: clone_bytes(authority),
            owner: clone_bytes(authority),
        };
        ops.push(close);
        proof {
            assert(unit@.subrange(0, i + 1).drop_last() =~= unit@.subrange(0, i as int));
            assert(unit@.subrange(0, i + 1).last() == unit@[i as int]);
            assert(ops_models(ops@) =~= unit_ops(unit@.subrange(0, i as int), authority@) + seq![
                burn_op(unit@[i as int], authority@),
                close_op(unit@[i as int], authority@),
            ]);
        }
        i += 1;
    }
    proof {
        assert(unit@.subrange(0, unit@.len() as int) =~= unit@);
    }
    ops
}

} // verus!
