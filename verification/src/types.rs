//! Plain-value types shared by the ledger and the claim state machine: public
//! keys, the call context handed in by the host, the error taxonomy, and the
//! outcome values that tell the host which external actions to perform.

use vstd::prelude::*;

verus! {

/// An opaque, fixed-format cryptographic public key, held as its raw bytes.
/// The ledger and the credential registry identify deposits and credentials
/// by this key; the logic only ever compares keys for equality.
pub struct PublicKey {
    pub bytes: Vec<u8>,
}

impl View for PublicKey {
    type V = Seq<u8>;

    open spec fn view(&self) -> Seq<u8> {
        self.bytes@
    }
}

impl PublicKey {
    pub fn new(bytes: Vec<u8>) -> (r: PublicKey)
        ensures
            r@ == bytes@,
    {
        PublicKey { bytes }
    }
}

impl Clone for PublicKey {
    fn clone(&self) -> (r: Self)
        ensures
            r@ == self@,
    {
        let mut bytes: Vec<u8> = Vec::new();
        let mut i: usize = 0;
        while i < self.bytes.len()
            invariant
                i <= self.bytes.len(),
                bytes@ == self.bytes@.subrange(0, i as int),
            decreases self.bytes.len() - i,
        {
            bytes.push(self.bytes[i]);
            i = i + 1;
        }
        proof {
            assert(bytes@ =~= self.bytes@);
        }
        PublicKey { bytes }
    }
}

/// Equality of two keys, decided byte by byte.
pub fn key_eq(a: &PublicKey, b: &PublicKey) -> (r: bool)
    ensures
        r == (a@ == b@),
{
    if a.bytes.len() != b.bytes.len() {
        proof {
            assert(a@.len() != b@.len());
        }
        return false;
    }
    let mut i: usize = 0;
    while i < a.bytes.len()
        invariant
            i <= a.bytes.len(),
            a.bytes.len() == b.bytes.len(),
            forall|j: int| 0 <= j < i ==> a@[j] == b@[j],
        decreases a.bytes.len() - i,
    {
        if a.bytes[i] != b.bytes[i] {
            return false;
        }
        i = i + 1;
    }
    proof {
        assert(a@ =~= b@);
    }
    true
}

/// Why a call against the claim ledger failed. Every failure leaves the
/// contract state exactly as it was before the call began.
#[derive(Clone, Copy, PartialEq, Eq, Structural, Debug)]
pub enum ClaimError {
    /// The caller is not the contract's own identity: administrative calls and
    /// redemptions must arrive through the contract itself.
    Unauthorized,
    /// No outstanding deposit exists for the given key: it was never funded,
    /// was already redeemed, or a redemption is in flight.
    MissingEntry,
    /// The attached value is below the minimum needed to cover storage, the
    /// credential allowance, and the new-account funding floor.
    InsufficientDeposit,
    /// The asynchronous continuation arrived with zero or several results
    /// where exactly one was expected: a platform-level contract violation.
    MalformedContinuation,
}

/// What the host environment tells the contract about the current call.
pub struct CallContext {
    /// The account that directly invoked the contract.
    pub predecessor_account_id: String,
    /// The contract's own account.
    pub current_account_id: String,
    /// The key that signed the incoming transaction; during a redemption this
    /// is the single-use key the deposit was made against.
    pub signer_public_key: PublicKey,
    /// The value attached to the call, in native units.
    pub attached_deposit: u128,
}

impl CallContext {
    /// The caller-is-contract check every restricted entry point makes.
    pub open spec fn caller_is_contract(&self) -> bool {
        self.predecessor_account_id@ == self.current_account_id@
    }
}

/// The external actions a successful existing-account redemption directs the
/// host to perform: revoke the spent key, mint the collectible, transfer the
/// funds. The library has already removed the ledger entry and the credential
/// when it hands this back.
pub struct ClaimReceipt {
    /// The single-use key whose host-side credential must be deleted.
    pub revoked_key: PublicKey,
    /// The account that receives the collectible.
    pub mint_owner: String,
    /// The account that receives the deposited value.
    pub transfer_to: String,
    /// The full outstanding deposit that was consumed.
    pub amount: u128,
}

/// The asynchronous account-creation request a new-account redemption directs
/// the host to issue, together with everything the continuation must carry
/// back to the compensation handler.
pub struct PendingRedemption {
    /// The account-factory the creation request goes to.
    pub factory_account: String,
    /// The account to create.
    pub new_account_id: String,
    /// The full-access key the new account starts with.
    pub new_public_key: PublicKey,
    /// The funding forwarded to the factory, equal to the consumed deposit.
    pub amount: u128,
    /// The single-use key the deposit was made against; the compensation
    /// handler restores it if the factory fails.
    pub signing_key: PublicKey,
}

/// What a fresh deposit directs the host to do besides the bookkeeping the
/// library already performed.
pub struct SendReceipt {
    /// The total now claimable under the key.
    pub new_total: u128,
    /// True exactly when the key was new, so the host must issue the
    /// restricted credential for it.
    pub credential_issued: bool,
}

} // verus!
