//! The ledger's laws, stated over abstract ledger operations and proved once
//! and for all. `LedgerOp` and `apply_op` mirror exactly the transitions the
//! executable operations promise in their contracts, so these lemmas speak
//! about every sequence of calls a caller can make.

use vstd::prelude::*;

use crate::contract::ContractView;
use crate::contract::compensate;
use crate::contract::lockstep;
use crate::ledger::LedgerOp;
use crate::ledger::apply_op;
use crate::ledger::apply_ops;
use crate::ledger::deposit_ops;
use crate::ledger::deposited_for;
use crate::ledger::restores;
use crate::ledger::revives;
use crate::ledger::spec_balance;
use crate::ledger::sum_of;
use crate::ledger::taken_for;

verus! {

/// A key that is absent stays absent under any sequence of operations none
/// of which deposits against it or restores it.
pub proof fn lemma_absent_key_stays_absent(m: Map<Seq<u8>, int>, k: Seq<u8>, ops: Seq<LedgerOp>)
    requires
        !m.dom().contains(k),
        forall|i: int| 0 <= i < ops.len() ==> !revives(#[trigger] ops[i], k),
    ensures
        !apply_ops(m, ops).dom().contains(k),
    decreases ops.len(),
{
    if ops.len() > 0 {
        let m1 = apply_op(m, ops[0]);
        assert(!m1.dom().contains(k));
        assert(forall|i: int|
            0 <= i < ops.drop_first().len() ==> !revives(#[trigger] ops.drop_first()[i], k));
        lemma_absent_key_stays_absent(m1, k, ops.drop_first());
    }
}

/// No double redemption: once a `take` has consumed the entry for a key,
/// every further `take` of that key fails with `MissingEntry` — through any
/// sequence of operations that neither restores the key nor deposits against
/// it — and a `restore` then makes the key redeemable again, at exactly the
/// restored amount.
pub proof fn no_double_redemption(
    m: Map<Seq<u8>, int>,
    k: Seq<u8>,
    ops: Seq<LedgerOp>,
    a: u128,
)
    requires
        m.dom().contains(k),
        forall|i: int| 0 <= i < ops.len() ==> !revives(#[trigger] ops[i], k),
    ensures
        !apply_ops(apply_op(m, (LedgerOp::Take { key: k })), ops).dom().contains(k),
        apply_op(
            apply_ops(apply_op(m, (LedgerOp::Take { key: k })), ops),
            (LedgerOp::Restore { key: k, amount: a }),
        ).dom().contains(k),
        apply_op(
            apply_ops(apply_op(m, (LedgerOp::Take { key: k })), ops),
            (LedgerOp::Restore { key: k, amount: a }),
        )[k] == a as int,
{
    lemma_absent_key_stays_absent(apply_op(m, (LedgerOp::Take { key: k })), k, ops);
}

/// Deposits accumulate: a sequence of deposits against one key raises its
/// balance by exactly their sum and touches nothing else about that key's
/// balance.
pub proof fn lemma_deposits_accumulate(m: Map<Seq<u8>, int>, k: Seq<u8>, amounts: Seq<u128>)
    requires
        amounts.len() > 0,
    ensures
        apply_ops(m, deposit_ops(k, amounts)).dom().contains(k),
        apply_ops(m, deposit_ops(k, amounts))[k] == spec_balance(m, k) + sum_of(amounts),
    decreases amounts.len(),
{
    let ops = deposit_ops(k, amounts);
    assert(ops[0] == (LedgerOp::Deposit { key: k, amount: amounts[0] }));
    let m1 = apply_op(m, ops[0]);
    assert(m1[k] == spec_balance(m, k) + amounts[0]);
    if amounts.len() == 1 {
        assert(ops.drop_first().len() == 0);
        assert(apply_ops(m1, ops.drop_first()) == m1);
        assert(sum_of(amounts) == amounts[0] + sum_of(amounts.drop_first()));
    } else {
        assert(ops.drop_first() =~= deposit_ops(k, amounts.drop_first()));
        lemma_deposits_accumulate(m1, k, amounts.drop_first());
        assert(spec_balance(m1, k) == spec_balance(m, k) + amounts[0]);
    }
}

/// Conservation: against a key with no prior entry and no restore, the
/// amount a redemption pays out (existing-account path) or forwards to the
/// factory (new-account path) is exactly the sum of the deposits made — the
/// ledger neither creates nor destroys value. The `take` removes the entry
/// and hands back precisely the accumulated sum.
pub proof fn conservation(m: Map<Seq<u8>, int>, k: Seq<u8>, amounts: Seq<u128>)
    requires
        !m.dom().contains(k),
        amounts.len() > 0,
    ensures
        apply_ops(m, deposit_ops(k, amounts))[k] == sum_of(amounts),
        apply_op(apply_ops(m, deposit_ops(k, amounts)), (LedgerOp::Take { key: k })) == apply_ops(
            m,
            deposit_ops(k, amounts),
        ).remove(k),
{
    lemma_deposits_accumulate(m, k, amounts);
}

/// Conservation over arbitrary call sequences: through any sequence of
/// deposits, takes and restores of other keys — but no restore of `k` —
/// what the takes of `k` pay out plus what remains claimable under `k`
/// equals what was claimable at the start plus what was deposited against
/// it. The ledger neither creates nor destroys value.
pub proof fn conservation_over_sequences(m: Map<Seq<u8>, int>, k: Seq<u8>, ops: Seq<LedgerOp>)
    requires
        forall|i: int| 0 <= i < ops.len() ==> !restores(#[trigger] ops[i], k),
    ensures
        taken_for(m, k, ops) + spec_balance(apply_ops(m, ops), k) == spec_balance(m, k)
            + deposited_for(k, ops),
    decreases ops.len(),
{
    if ops.len() > 0 {
        let m1 = apply_op(m, ops[0]);
        assert(forall|i: int|
            0 <= i < ops.drop_first().len() ==> !restores(#[trigger] ops.drop_first()[i], k));
        conservation_over_sequences(m1, k, ops.drop_first());
        match ops[0] {
            LedgerOp::Deposit { key, amount } => {
                if key == k {
                    assert(spec_balance(m1, k) == spec_balance(m, k) + amount);
                } else {
                    assert(spec_balance(m1, k) == spec_balance(m, k));
                }
            },
            LedgerOp::Take { key } => {
                if key == k {
                    assert(spec_balance(m1, k) == 0 || !m.dom().contains(k));
                } else {
                    assert(spec_balance(m1, k) == spec_balance(m, k));
                }
            },
            LedgerOp::Restore { key, .. } => {
                assert(key != k);
                assert(spec_balance(m1, k) == spec_balance(m, k));
            },
        }
    }
}

/// Compensation restores exactly: if the factory reports failure for amount
/// `a` on key `k`, then immediately after the compensation handler runs the
/// balance of `k` is exactly `a` and a fresh credential is live for `k`; the
/// lockstep invariant survives.
pub proof fn compensation_restores_exactly(v: ContractView, k: Seq<u8>, a: u128)
    ensures
        compensate(v, k, a).ledger.dom().contains(k),
        compensate(v, k, a).ledger[k] == a as int,
        compensate(v, k, a).credentials.contains(k),
        lockstep(v) ==> lockstep(compensate(v, k, a)),
{
}

/// Idempotent deposit accumulation: depositing `a` and then `b` against the
/// same unredeemed key leaves exactly `a + b` claimable under it.
pub proof fn deposit_accumulation(m: Map<Seq<u8>, int>, k: Seq<u8>, a: u128, b: u128)
    requires
        !m.dom().contains(k),
    ensures
        ({
            let m2 = apply_op(
                apply_op(m, (LedgerOp::Deposit { key: k, amount: a })),
                (LedgerOp::Deposit { key: k, amount: b }),
            );
            m2.dom().contains(k) && m2[k] == a + b
        }),
{
}

} // verus!
