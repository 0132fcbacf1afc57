//! The contract's record of which public keys currently hold the restricted
//! credential: the signing capability scoped to exactly the two redemption
//! operations. The host actually stores the keys; this registry is the
//! state-machine's authoritative bookkeeping of what it has directed the host
//! to grant, and it is what the lockstep invariant with the ledger is proved
//! over. Its view is the set of key bytes with a live credential.

use vstd::prelude::*;

use crate::types::PublicKey;

verus! {

/// The mathematical contents of a key vector.
pub open spec fn set_of(s: Seq<PublicKey>) -> Set<Seq<u8>>
    decreases s.len(),
{
    if s.len() == 0 {
        Set::empty()
    } else {
        set_of(s.drop_last()).insert(s.last()@)
    }
}

/// No key is recorded twice: at most one live credential per key.
pub open spec fn creds_unique(s: Seq<PublicKey>) -> bool {
    forall|i: int, j: int| 0 <= i < j < s.len() ==> s[i]@ != s[j]@
}

pub proof fn lemma_creds_unique_drop_last(s: Seq<PublicKey>)
    requires
        creds_unique(s),
        s.len() > 0,
    ensures
        creds_unique(s.drop_last()),
{
    assert forall|i: int, j: int| 0 <= i < j < s.drop_last().len() implies s.drop_last()[i]@
        != s.drop_last()[j]@ by {
        assert(s.drop_last()[i] == s[i]);
        assert(s.drop_last()[j] == s[j]);
    }
}

/// A key is in the set exactly when some position holds it.
pub proof fn lemma_set_of_contains(s: Seq<PublicKey>, k: Seq<u8>)
    ensures
        set_of(s).contains(k) <==> exists|i: int| 0 <= i < s.len() && s[i]@ == k,
    decreases s.len(),
{
    if s.len() > 0 {
        lemma_set_of_contains(s.drop_last(), k);
        if s.last()@ == k {
            assert(s[s.len() - 1]@ == k);
        } else {
            if exists|i: int| 0 <= i < s.len() && s[i]@ == k {
                let i = choose|i: int| 0 <= i < s.len() && s[i]@ == k;
                assert(s.drop_last()[i]@ == k);
            }
            if exists|i: int| 0 <= i < s.drop_last().len() && s.drop_last()[i]@ == k {
                let i = choose|i: int| 0 <= i < s.drop_last().len() && s.drop_last()[i]@ == k;
                assert(s[i]@ == k);
            }
        }
    }
}

/// Removing the key at `i` removes exactly that key from the set and keeps
/// the record duplicate-free.
pub proof fn lemma_set_of_remove(s: Seq<PublicKey>, i: int)
    requires
        creds_unique(s),
        0 <= i < s.len(),
    ensures
        set_of(s.remove(i)) =~= set_of(s).remove(s[i]@),
        creds_unique(s.remove(i)),
    decreases s.len(),
{
    let k = s[i]@;
    let t = s.remove(i);
    assert forall|p: int, q: int| 0 <= p < q < t.len() implies t[p]@ != t[q]@ by {
        if p < i {
            assert(t[p] == s[p]);
        } else {
            assert(t[p] == s[p + 1]);
        }
        if q < i {
            assert(t[q] == s[q]);
        } else {
            assert(t[q] == s[q + 1]);
        }
    }
    if i == s.len() - 1 {
        assert(t =~= s.drop_last());
        lemma_creds_unique_drop_last(s);
        lemma_set_of_contains(s.drop_last(), k);
        assert forall|j: int| 0 <= j < s.drop_last().len() implies s.drop_last()[j]@ != k by {
            assert(s.drop_last()[j] == s[j]);
        }
        assert(!set_of(s.drop_last()).contains(k));
        assert(set_of(t) =~= set_of(s).remove(k));
    } else {
        assert(t.drop_last() =~= s.drop_last().remove(i));
        assert(t.last() == s.last());
        lemma_creds_unique_drop_last(s);
        assert(s.drop_last()[i] == s[i]);
        lemma_set_of_remove(s.drop_last(), i);
        assert(s.last()@ != k);
        assert(set_of(t) =~= set_of(s).remove(k));
    }
}

/// Appending a fresh key inserts exactly that key and keeps the record
/// duplicate-free.
pub proof fn lemma_set_of_push(s: Seq<PublicKey>, e: PublicKey)
    requires
        creds_unique(s),
        forall|j: int| 0 <= j < s.len() ==> s[j]@ != e@,
    ensures
        set_of(s.push(e)) =~= set_of(s).insert(e@),
        creds_unique(s.push(e)),
{
    let t = s.push(e);
    assert(t.drop_last() =~= s);
    assert(t.last() == e);
    assert forall|p: int, q: int| 0 <= p < q < t.len() implies t[p]@ != t[q]@ by {
        if q < s.len() {
            assert(t[p] == s[p]);
            assert(t[q] == s[q]);
        } else {
            assert(t[p] == s[p]);
            assert(t[q] == e);
        }
    }
}

/// The registry of keys holding a live restricted credential.
pub struct CredentialRegistry {
    keys: Vec<PublicKey>,
}

impl View for CredentialRegistry {
    type V = Set<Seq<u8>>;

    closed spec fn view(&self) -> Set<Seq<u8>> {
        set_of(self.keys@)
    }
}

impl CredentialRegistry {
    /// At most one live credential per key.
    pub closed spec fn wf(&self) -> bool {
        creds_unique(self.keys@)
    }

    /// An empty registry: no key holds a credential.
    pub fn new() -> (r: CredentialRegistry)
        ensures
            r.wf(),
            r@ == Set::<Seq<u8>>::empty(),
    {
        CredentialRegistry { keys: Vec::new() }
    }

    /// The position of `key` in the record, if it holds a credential.
    fn find_index(&self, key: &PublicKey) -> (r: Option<usize>)
        ensures
            match r {
                Some(i) => i < self.keys@.len() && self.keys@[i as int]@ == key@,
                None => forall|j: int| 0 <= j < self.keys@.len() ==> self.keys@[j]@ != key@,
            },
    {
        let mut i: usize = 0;
        while i < self.keys.len()
            invariant
                i <= self.keys@.len(),
                forall|j: int| 0 <= j < i ==> self.keys@[j]@ != key@,
            decreases self.keys@.len() - i,
        {
            if crate::types::key_eq(&self.keys[i], key) {
                return Some(i);
            }
            i = i + 1;
        }
        None
    }

    /// Whether `key` currently holds the restricted credential.
    pub fn is_live(&self, key: &PublicKey) -> (r: bool)
        requires
            self.wf(),
        ensures
            r == self@.contains(key@),
    {
        proof {
            lemma_set_of_contains(self.keys@, key@);
        }
        match self.find_index(key) {
            Some(_) => true,
            None => false,
        }
    }

    /// Grants `key` the restricted credential. Granting an already-live key
    /// again changes nothing: at most one credential is ever live per key.
    pub fn issue(&mut self, key: &PublicKey)
        requires
            old(self).wf(),
        ensures
            final(self).wf(),
            final(self)@ == old(self)@.insert(key@),
    {
        let ghost s0 = self.keys@;
        proof {
            lemma_set_of_contains(s0, key@);
        }
        match self.find_index(key) {
            Some(_) => {
                proof {
                    assert(old(self)@.insert(key@) =~= old(self)@);
                }
            },
            None => {
                let k = key.clone();
                let ghost gk = k;
                self.keys.push(k);
                proof {
                    lemma_set_of_push(s0, gk);
                }
            },
        }
    }

    /// Revokes the credential for `key`. Revoking a key without a live
    /// credential changes nothing.
    pub fn revoke(&mut self, key: &PublicKey)
        requires
            old(self).wf(),
        ensures
            final(self).wf(),
            final(self)@ == old(self)@.remove(key@),
    {
        let ghost s0 = self.keys@;
        proof {
            lemma_set_of_contains(s0, key@);
        }
        match self.find_index(key) {
            Some(i) => {
                proof {
                    lemma_set_of_remove(s0, i as int);
                }
                self.keys.remove(i);
            },
            None => {
                proof {
                    assert(old(self)@.remove(key@) =~= old(self)@);
                }
            },
        }
    }
}

} // verus!
