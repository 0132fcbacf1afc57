//! The deposit ledger: the sole source of truth for how much value is
//! claimable under each public key. It is modelled as a mathematical map from
//! key bytes to the outstanding amount; the executable representation is a
//! vector of entries with pairwise-distinct keys.

use vstd::prelude::*;

use crate::types::ClaimError;
use crate::types::PublicKey;

verus! {

/// One outstanding deposit: the key it was made against and the amount still
/// claimable under it.
pub struct Entry {
    pub key: PublicKey,
    pub amount: u128,
}

/// The mathematical contents of an entry vector: later entries win, though
/// under `keys_unique` no key occurs twice.
pub open spec fn map_of(s: Seq<Entry>) -> Map<Seq<u8>, int>
    decreases s.len(),
{
    if s.len() == 0 {
        Map::empty()
    } else {
        map_of(s.drop_last()).insert(s.last().key@, s.last().amount as int)
    }
}

/// No two entries are for the same key.
pub open spec fn keys_unique(s: Seq<Entry>) -> bool {
    forall|i: int, j: int| 0 <= i < j < s.len() ==> s[i].key@ != s[j].key@
}

/// The amount outstanding for `k`, taking an absent entry as zero.
pub open spec fn spec_balance(m: Map<Seq<u8>, int>, k: Seq<u8>) -> int {
    if m.dom().contains(k) {
        m[k]
    } else {
        0
    }
}

/// One abstract ledger operation, as the contracts of the executable
/// operations describe it.
pub ghost enum LedgerOp {
    /// `deposit`: add `amount` to the key's balance, starting from zero if
    /// the key is absent.
    Deposit { key: Seq<u8>, amount: u128 },
    /// `take`: remove the key's entry if one exists; a failed `take` leaves
    /// the ledger untouched.
    Take { key: Seq<u8> },
    /// `restore`: (re)insert the key's entry at exactly `amount`.
    Restore { key: Seq<u8>, amount: u128 },
}

/// The map each executable operation's contract promises to leave behind.
pub open spec fn apply_op(m: Map<Seq<u8>, int>, op: LedgerOp) -> Map<Seq<u8>, int> {
    match op {
        LedgerOp::Deposit { key, amount } => m.insert(key, spec_balance(m, key) + amount),
        LedgerOp::Take { key } => if m.dom().contains(key) {
            m.remove(key)
        } else {
            m
        },
        LedgerOp::Restore { key, amount } => m.insert(key, amount as int),
    }
}

/// A whole call sequence, applied front to back.
pub open spec fn apply_ops(m: Map<Seq<u8>, int>, ops: Seq<LedgerOp>) -> Map<Seq<u8>, int>
    decreases ops.len(),
{
    if ops.len() == 0 {
        m
    } else {
        apply_ops(apply_op(m, ops[0]), ops.drop_first())
    }
}

/// Whether an operation can bring key `k` (back) into the ledger.
pub open spec fn revives(op: LedgerOp, k: Seq<u8>) -> bool {
    match op {
        LedgerOp::Deposit { key, .. } => key == k,
        LedgerOp::Take { .. } => false,
        LedgerOp::Restore { key, .. } => key == k,
    }
}

/// Whether an operation is a `restore` of key `k`.
pub open spec fn restores(op: LedgerOp, k: Seq<u8>) -> bool {
    match op {
        LedgerOp::Restore { key, .. } => key == k,
        _ => false,
    }
}

/// The total the takes of `k` in `ops` pay out, starting from ledger `m`:
/// a successful take pays the whole outstanding balance, a failed one pays
/// nothing.
pub open spec fn taken_for(m: Map<Seq<u8>, int>, k: Seq<u8>, ops: Seq<LedgerOp>) -> int
    decreases ops.len(),
{
    if ops.len() == 0 {
        0
    } else {
        (match ops[0] {
            LedgerOp::Take { key } => if key == k && m.dom().contains(k) {
                m[k]
            } else {
                0
            },
            _ => 0,
        }) + taken_for(apply_op(m, ops[0]), k, ops.drop_first())
    }
}

/// The total the deposits of `ops` credit to `k`.
pub open spec fn deposited_for(k: Seq<u8>, ops: Seq<LedgerOp>) -> int
    decreases ops.len(),
{
    if ops.len() == 0 {
        0
    } else {
        (match ops[0] {
            LedgerOp::Deposit { key, amount } => if key == k {
                amount as int
            } else {
                0
            },
            _ => 0,
        }) + deposited_for(k, ops.drop_first())
    }
}

/// The sum of a sequence of deposit amounts.
pub open spec fn sum_of(amounts: Seq<u128>) -> int
    decreases amounts.len(),
{
    if amounts.len() == 0 {
        0
    } else {
        amounts[0] + sum_of(amounts.drop_first())
    }
}

/// The operation sequence of depositing `amounts` against `k`, in order.
pub open spec fn deposit_ops(k: Seq<u8>, amounts: Seq<u128>) -> Seq<LedgerOp> {
    amounts.map_values(|a: u128| LedgerOp::Deposit { key: k, amount: a })
}

pub proof fn lemma_keys_unique_drop_last(s: Seq<Entry>)
    requires
        keys_unique(s),
        s.len() > 0,
    ensures
        keys_unique(s.drop_last()),
{
    assert forall|i: int, j: int| 0 <= i < j < s.drop_last().len() implies s.drop_last()[i].key@
        != s.drop_last()[j].key@ by {
        assert(s.drop_last()[i] == s[i]);
        assert(s.drop_last()[j] == s[j]);
    }
}

/// A key is in the map's domain exactly when some entry carries it.
pub proof fn lemma_map_of_contains(s: Seq<Entry>, k: Seq<u8>)
    ensures
        map_of(s).dom().contains(k) <==> exists|i: int| 0 <= i < s.len() && s[i].key@ == k,
    decreases s.len(),
{
    if s.len() > 0 {
        lemma_map_of_contains(s.drop_last(), k);
        if s.last().key@ == k {
            assert(s[s.len() - 1].key@ == k);
        } else {
            if exists|i: int| 0 <= i < s.len() && s[i].key@ == k {
                let i = choose|i: int| 0 <= i < s.len() && s[i].key@ == k;
                assert(s.drop_last()[i].key@ == k);
            }
            if exists|i: int| 0 <= i < s.drop_last().len() && s.drop_last()[i].key@ == k {
                let i = choose|i: int| 0 <= i < s.drop_last().len() && s.drop_last()[i].key@ == k;
                assert(s[i].key@ == k);
            }
        }
    }
}

/// With unique keys, the map holds exactly the amount the entry at `i` holds.
pub proof fn lemma_map_of_get(s: Seq<Entry>, i: int)
    requires
        keys_unique(s),
        0 <= i < s.len(),
    ensures
        map_of(s).dom().contains(s[i].key@),
        map_of(s)[s[i].key@] == s[i].amount as int,
    decreases s.len(),
{
    if i == s.len() - 1 {
    } else {
        lemma_keys_unique_drop_last(s);
        assert(s.drop_last()[i] == s[i]);
        lemma_map_of_get(s.drop_last(), i);
        assert(s.last().key@ != s[i].key@);
    }
}

/// Replacing the entry at `i` by one for the same key updates the map at that
/// key and keeps the keys unique.
pub proof fn lemma_map_of_update(s: Seq<Entry>, i: int, e: Entry)
    requires
        keys_unique(s),
        0 <= i < s.len(),
        e.key@ == s[i].key@,
    ensures
        map_of(s.update(i, e)) =~= map_of(s).insert(e.key@, e.amount as int),
        keys_unique(s.update(i, e)),
    decreases s.len(),
{
    let t = s.update(i, e);
    assert forall|p: int, q: int| 0 <= p < q < t.len() implies t[p].key@ != t[q].key@ by {
        assert(t[p].key@ == s[p].key@);
        assert(t[q].key@ == s[q].key@);
    }
    if i == s.len() - 1 {
        assert(t.drop_last() =~= s.drop_last());
        assert(t.last() == e);
        assert(map_of(t) =~= map_of(s).insert(e.key@, e.amount as int));
    } else {
        assert(t.drop_last() =~= s.drop_last().update(i, e));
        assert(t.last() == s.last());
        lemma_keys_unique_drop_last(s);
        assert(s.drop_last()[i] == s[i]);
        lemma_map_of_update(s.drop_last(), i, e);
        assert(s.last().key@ != e.key@);
        assert(map_of(t) =~= map_of(s).insert(e.key@, e.amount as int));
    }
}

/// Removing the entry at `i` removes exactly its key from the map and keeps
/// the keys unique.
pub proof fn lemma_map_of_remove(s: Seq<Entry>, i: int)
    requires
        keys_unique(s),
        0 <= i < s.len(),
    ensures
        map_of(s.remove(i)) =~= map_of(s).remove(s[i].key@),
        keys_unique(s.remove(i)),
    decreases s.len(),
{
    let k = s[i].key@;
    let t = s.remove(i);
    assert forall|p: int, q: int| 0 <= p < q < t.len() implies t[p].key@ != t[q].key@ by {
        if p < i {
            assert(t[p] == s[p]);
        } else {
            assert(t[p] == s[p + 1]);
        }
        if q < i {
            assert(t[q] == s[q]);
        } else {
            assert(t[q] == s[q + 1]);
        }
    }
    if i == s.len() - 1 {
        assert(t =~= s.drop_last());
        lemma_keys_unique_drop_last(s);
        lemma_map_of_contains(s.drop_last(), k);
        assert forall|j: int| 0 <= j < s.drop_last().len() implies s.drop_last()[j].key@ != k by {
            assert(s.drop_last()[j] == s[j]);
        }
        assert(!map_of(s.drop_last()).dom().contains(k));
        assert(map_of(t) =~= map_of(s).remove(k));
    } else {
        assert(t.drop_last() =~= s.drop_last().remove(i));
        assert(t.last() == s.last());
        lemma_keys_unique_drop_last(s);
        assert(s.drop_last()[i] == s[i]);
        lemma_map_of_remove(s.drop_last(), i);
        assert(s.last().key@ != k);
        assert(map_of(t) =~= map_of(s).remove(k));
    }
}

/// Appending an entry for a fresh key inserts exactly that key and keeps the
/// keys unique.
pub proof fn lemma_map_of_push(s: Seq<Entry>, e: Entry)
    requires
        keys_unique(s),
        forall|j: int| 0 <= j < s.len() ==> s[j].key@ != e.key@,
    ensures
        map_of(s.push(e)) =~= map_of(s).insert(e.key@, e.amount as int),
        keys_unique(s.push(e)),
{
    let t = s.push(e);
    assert(t.drop_last() =~= s);
    assert(t.last() == e);
    assert forall|p: int, q: int| 0 <= p < q < t.len() implies t[p].key@ != t[q].key@ by {
        if q < s.len() {
            assert(t[p] == s[p]);
            assert(t[q] == s[q]);
        } else {
            assert(t[p] == s[p]);
            assert(t[q] == e);
        }
    }
}

/// The deposit ledger. The mapping it denotes is its view: each key in the
/// domain has an outstanding, not-yet-claimed deposit of exactly the mapped
/// amount.
pub struct DepositLedger {
    entries: Vec<Entry>,
}

impl View for DepositLedger {
    type V = Map<Seq<u8>, int>;

    closed spec fn view(&self) -> Map<Seq<u8>, int> {
        map_of(self.entries@)
    }
}

impl DepositLedger {
    /// Each key appears in at most one entry.
    pub closed spec fn wf(&self) -> bool {
        keys_unique(self.entries@)
    }

    /// An empty ledger: nothing is claimable.
    pub fn new() -> (r: DepositLedger)
        ensures
            r.wf(),
            r@ == Map::<Seq<u8>, int>::empty(),
    {
        DepositLedger { entries: Vec::new() }
    }

    /// The position of the entry for `key`, if one exists.
    fn find_index(&self, key: &PublicKey) -> (r: Option<usize>)
        ensures
            match r {
                Some(i) => i < self.entries@.len() && self.entries@[i as int].key@ == key@,
                None => forall|j: int|
                    0 <= j < self.entries@.len() ==> self.entries@[j].key@ != key@,
            },
    {
        let mut i: usize = 0;
        while i < self.entries.len()
            invariant
                i <= self.entries@.len(),
                forall|j: int| 0 <= j < i ==> self.entries@[j].key@ != key@,
            decreases self.entries@.len() - i,
        {
            if crate::types::key_eq(&self.entries[i].key, key) {
                return Some(i);
            }
            i = i + 1;
        }
        None
    }

    /// Whether a redeemable deposit is outstanding for `key`.
    pub fn contains_key(&self, key: &PublicKey) -> (r: bool)
        requires
            self.wf(),
        ensures
            r == self@.dom().contains(key@),
    {
        proof {
            lemma_map_of_contains(self.entries@, key@);
        }
        match self.find_index(key) {
            Some(_) => true,
            None => false,
        }
    }

    /// Increments the amount stored for `key` by `amount`, creating the entry
    /// at zero if absent, and returns the new total. Deposits only ever
    /// accumulate; nothing else changes.
    pub fn deposit(&mut self, key: &PublicKey, amount: u128) -> (new_total: u128)
        requires
            old(self).wf(),
            spec_balance(old(self)@, key@) + amount <= u128::MAX,
        ensures
            final(self).wf(),
            new_total as int == spec_balance(old(self)@, key@) + amount,
            final(self)@ == old(self)@.insert(key@, new_total as int),
            final(self)@ == apply_op(old(self)@, (LedgerOp::Deposit { key: key@, amount })),
    {
        let ghost s0 = self.entries@;
        match self.find_index(key) {
            Some(i) => {
                proof {
                    lemma_map_of_get(s0, i as int);
                }
                let mut e = self.entries.remove(i);
                let total: u128 = e.amount + amount;
                e.amount = total;
                let ghost ge = e;
                self.entries.insert(i, e);
                proof {
                    assert(self.entries@ =~= s0.update(i as int, ge));
                    lemma_map_of_update(s0, i as int, ge);
                }
                total
            },
            None => {
                proof {
                    lemma_map_of_contains(s0, key@);
                }
                let e = Entry { key: key.clone(), amount };
                let ghost ge = e;
                self.entries.push(e);
                proof {
                    lemma_map_of_push(s0, ge);
                }
                amount
            },
        }
    }

    /// Atomically removes and returns the entry for `key`. Succeeds exactly
    /// when an entry is outstanding; otherwise fails with `MissingEntry` and
    /// leaves the ledger untouched.
    pub fn take(&mut self, key: &PublicKey) -> (r: Result<u128, ClaimError>)
        requires
            old(self).wf(),
        ensures
            final(self).wf(),
            r is Ok <==> old(self)@.dom().contains(key@),
            r matches Ok(a) ==> a as int == old(self)@[key@] && final(self)@ == old(self)@.remove(
                key@,
            ),
            r is Err ==> r == Err::<u128, ClaimError>(ClaimError::MissingEntry) && *final(self)
                == *old(self),
            final(self)@ == apply_op(old(self)@, (LedgerOp::Take { key: key@ })),
    {
        let ghost s0 = self.entries@;
        proof {
            lemma_map_of_contains(s0, key@);
        }
        match self.find_index(key) {
            Some(i) => {
                proof {
                    lemma_map_of_get(s0, i as int);
                    lemma_map_of_remove(s0, i as int);
                }
                let e = self.entries.remove(i);
                Ok(e.amount)
            },
            None => Err(ClaimError::MissingEntry),
        }
    }

    /// (Re)inserts the entry for `key` at exactly `amount`, overwriting any
    /// stale value. Used only by the compensation path, never by deposits.
    pub fn restore(&mut self, key: &PublicKey, amount: u128)
        requires
            old(self).wf(),
        ensures
            final(self).wf(),
            final(self)@ == old(self)@.insert(key@, amount as int),
            final(self)@ == apply_op(old(self)@, (LedgerOp::Restore { key: key@, amount })),
    {
        let ghost s0 = self.entries@;
        match self.find_index(key) {
            Some(i) => {
                let mut e = self.entries.remove(i);
                e.amount = amount;
                let ghost ge = e;
                self.entries.insert(i, e);
                proof {
                    assert(self.entries@ =~= s0.update(i as int, ge));
                    lemma_map_of_update(s0, i as int, ge);
                }
            },
            None => {
                proof {
                    lemma_map_of_contains(s0, key@);
                }
                let e = Entry { key: key.clone(), amount };
                let ghost ge = e;
                self.entries.push(e);
                proof {
                    lemma_map_of_push(s0, ge);
                }
            },
        }
    }

    /// Read-only lookup: the outstanding amount for `key`, or `MissingEntry`
    /// if the key was never funded or has already been redeemed.
    pub fn balance_of(&self, key: &PublicKey) -> (r: Result<u128, ClaimError>)
        requires
            self.wf(),
        ensures
            r is Ok <==> self@.dom().contains(key@),
            r matches Ok(a) ==> a as int == self@[key@],
            r is Err ==> r == Err::<u128, ClaimError>(ClaimError::MissingEntry),
    {
        proof {
            lemma_map_of_contains(self.entries@, key@);
        }
        match self.find_index(key) {
            Some(i) => {
                proof {
                    lemma_map_of_get(self.entries@, i as int);
                }
                Ok(self.entries[i].amount)
            },
            None => Err(ClaimError::MissingEntry),
        }
    }
}

} // verus!
