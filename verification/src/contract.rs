//! The claim state machine: deposits against single-use keys, the two
//! redemption paths, and the compensation handler that rolls a failed
//! asynchronous account creation back. Host I/O — reading the call context,
//! adding and deleting host-side access keys, transferring value, minting the
//! collectible, and issuing the asynchronous factory call — is left to the
//! caller, which hands in plain values and performs the actions the returned
//! receipts direct.

use vstd::prelude::*;

use crate::credentials::CredentialRegistry;
use crate::ledger::DepositLedger;
use crate::ledger::spec_balance;
use crate::types::CallContext;
use crate::types::ClaimError;
use crate::types::ClaimReceipt;
use crate::types::PendingRedemption;
use crate::types::PublicKey;
use crate::types::SendReceipt;

verus! {

/// Storage cost a fresh key must cover: the host-side access key plus the
/// stored key and deposit.
pub const MIN_STORAGE_COST: u128 = 1_000_000_000_000_000_000_000;

/// Allowance burnt by the access key to cover execution fees when the
/// deposit is claimed.
pub const MIN_ACCESS_KEY_ALLOWANCE: u128 = 20_000_000_000_000_000_000_000;

/// The least value a newly created account must start with.
pub const NEW_ACCOUNT_ABSOLUTE_MINIMUM: u128 = 1_820_000_000_000_000_000_000;

/// The least a first deposit against a key must attach: storage, allowance,
/// and the new-account funding floor.
pub const MIN_REQUIRED_INITIAL_DEPOSIT: u128 = MIN_STORAGE_COST + MIN_ACCESS_KEY_ALLOWANCE
    + NEW_ACCOUNT_ABSOLUTE_MINIMUM;

/// The least a deposit must attach, depending on whether the key already has
/// an outstanding deposit. Later deposits against a funded key only top the
/// entry up, so they need no storage or allowance cover.
pub open spec fn min_required_deposit(key_exists: bool) -> u128 {
    if key_exists {
        1
    } else {
        MIN_REQUIRED_INITIAL_DEPOSIT
    }
}

/// How much of an attached deposit is credited to the key: a first deposit
/// pays for storage and the credential allowance, a later one is credited in
/// full.
pub open spec fn credited_amount(key_exists: bool, attached: u128) -> int {
    if key_exists {
        attached as int
    } else {
        attached - MIN_ACCESS_KEY_ALLOWANCE - MIN_STORAGE_COST
    }
}

/// The contract's abstract state: the configured account-factory, the deposit
/// ledger, and the set of keys holding a live restricted credential.
pub ghost struct ContractView {
    pub factory: Seq<char>,
    pub ledger: Map<Seq<u8>, int>,
    pub credentials: Set<Seq<u8>>,
}

/// The ledger and the credential registry move in lockstep: a key has an
/// outstanding deposit exactly when it holds the restricted credential. In
/// the in-flight window of an asynchronous redemption both are already gone,
/// so the relation holds there too.
pub open spec fn lockstep(v: ContractView) -> bool {
    forall|k: Seq<u8>| #![auto] v.ledger.dom().contains(k) <==> v.credentials.contains(k)
}

/// The state transition the compensation handler performs when the factory
/// reports failure: the funds become claimable again at exactly the amount
/// that was in flight, and the key's credential is re-issued.
pub open spec fn compensate(v: ContractView, k: Seq<u8>, a: u128) -> ContractView {
    ContractView {
        factory: v.factory,
        ledger: v.ledger.insert(k, a as int),
        credentials: v.credentials.insert(k),
    }
}

/// The claim-based value-transfer contract.
pub struct Contract {
    linkdrop_contract: String,
    ledger: DepositLedger,
    credentials: CredentialRegistry,
}

impl View for Contract {
    type V = ContractView;

    closed spec fn view(&self) -> ContractView {
        ContractView {
            factory: self.linkdrop_contract@,
            ledger: self.ledger@,
            credentials: self.credentials@,
        }
    }
}

impl Contract {
    /// Internal invariants: unique ledger keys, unique credential records,
    /// and the ledger/credential lockstep.
    pub closed spec fn wf(&self) -> bool {
        &&& self.ledger.wf()
        &&& self.credentials.wf()
        &&& lockstep(self@)
    }

    /// A fresh contract pointed at the given account-factory, with an empty
    /// ledger and no live credentials.
    pub fn new(linkdrop_contract: String) -> (r: Contract)
        ensures
            r.wf(),
            r@.factory == linkdrop_contract@,
            r@.ledger == Map::<Seq<u8>, int>::empty(),
            r@.credentials == Set::<Seq<u8>>::empty(),
    {
        let r = Contract {
            linkdrop_contract,
            ledger: DepositLedger::new(),
            credentials: CredentialRegistry::new(),
        };
        proof {
            assert(forall|k: Seq<u8>| !r@.ledger.dom().contains(k));
            assert(forall|k: Seq<u8>| !r@.credentials.contains(k));
        }
        r
    }

    /// Every state a contract can reach satisfies the lockstep invariant:
    /// a key has an outstanding deposit exactly when its restricted
    /// credential is live.
    pub proof fn lemma_lockstep(&self)
        requires
            self.wf(),
        ensures
            lockstep(self@),
    {
    }

    /// Administrative: point the contract at the account-factory to use for
    /// new-account redemptions. Only the contract's own identity may call it;
    /// any other caller is rejected with `Unauthorized` and nothing changes.
    pub fn set_contract(&mut self, ctx: &CallContext, linkdrop_contract: String) -> (r: Result<
        (),
        ClaimError,
    >)
        requires
            old(self).wf(),
        ensures
            final(self).wf(),
            r is Ok <==> ctx.caller_is_contract(),
            r is Ok ==> final(self)@ == (ContractView { factory: linkdrop_contract@, ..old(self)@ }),
            r is Err ==> r == Err::<(), ClaimError>(ClaimError::Unauthorized) && *final(self)
                == *old(self),
    {
        if !(ctx.predecessor_account_id == ctx.current_account_id) {
            return Err(ClaimError::Unauthorized);
        }
        self.linkdrop_contract = linkdrop_contract;
        Ok(())
    }

    /// A funder deposits `ctx.attached_deposit` against `public_key`.
    ///
    /// A first deposit must attach at least `MIN_REQUIRED_INITIAL_DEPOSIT`;
    /// the storage and allowance shares are withheld and the rest is
    /// credited, and the receipt directs the host to issue the restricted
    /// credential for the key. A deposit against an already funded key must
    /// attach at least 1 and is credited in full. Too small a deposit is
    /// rejected with `InsufficientDeposit`: no ledger mutation, no
    /// credential.
    pub fn send(&mut self, ctx: &CallContext, public_key: PublicKey) -> (r: Result<
        SendReceipt,
        ClaimError,
    >)
        requires
            old(self).wf(),
            ctx.attached_deposit >= min_required_deposit(
                old(self)@.ledger.dom().contains(public_key@),
            ) ==> spec_balance(old(self)@.ledger, public_key@) + ctx.attached_deposit
                <= u128::MAX,
        ensures
            final(self).wf(),
            r is Ok <==> ctx.attached_deposit >= min_required_deposit(
                old(self)@.ledger.dom().contains(public_key@),
            ),
            r matches Ok(rec) ==> {
                let existed = old(self)@.ledger.dom().contains(public_key@);
                &&& rec.new_total as int == spec_balance(old(self)@.ledger, public_key@)
                    + credited_amount(existed, ctx.attached_deposit)
                &&& rec.credential_issued == !existed
                &&& final(self)@.ledger == old(self)@.ledger.insert(
                    public_key@,
                    rec.new_total as int,
                )
                &&& final(self)@.credentials == old(self)@.credentials.insert(public_key@)
                &&& final(self)@.factory == old(self)@.factory
            },
            r is Err ==> r == Err::<SendReceipt, ClaimError>(ClaimError::InsufficientDeposit)
                && *final(self) == *old(self),
    {
        let pk_exists = self.ledger.contains_key(&public_key);
        let min_required: u128 = if pk_exists {
            1
        } else {
            MIN_REQUIRED_INITIAL_DEPOSIT
        };
        if ctx.attached_deposit < min_required {
            return Err(ClaimError::InsufficientDeposit);
        }
        let amount_to_deposit: u128 = if pk_exists {
            ctx.attached_deposit
        } else {
            ctx.attached_deposit - MIN_ACCESS_KEY_ALLOWANCE - MIN_STORAGE_COST
        };
        let new_total = self.ledger.deposit(&public_key, amount_to_deposit);
        if !pk_exists {
            self.credentials.issue(&public_key);
        } else {
            proof {
                assert(old(self)@.credentials.contains(public_key@));
                assert(self@.credentials =~= old(self)@.credentials.insert(public_key@));
            }
        }
        proof {
            assert forall|k2: Seq<u8>| #![auto] self@.ledger.dom().contains(k2)
                <==> self@.credentials.contains(k2) by {
                assert(old(self)@.ledger.dom().contains(k2) <==> old(self)@.credentials.contains(
                    k2,
                ));
            }
        }
        Ok(SendReceipt { new_total, credential_issued: !pk_exists })
    }

    /// The shared first half of both redemption paths: check that the call
    /// arrives through the contract itself, atomically remove the signer
    /// key's ledger entry, and revoke its credential. The take-before-revoke
    /// ordering is what makes a second redemption racing on the same key fail
    /// fast with `MissingEntry`.
    fn process_claim(&mut self, ctx: &CallContext) -> (r: Result<u128, ClaimError>)
        requires
            old(self).wf(),
        ensures
            final(self).wf(),
            r is Ok <==> ctx.caller_is_contract() && old(self)@.ledger.dom().contains(
                ctx.signer_public_key@,
            ),
            r matches Ok(a) ==> {
                &&& a as int == old(self)@.ledger[ctx.signer_public_key@]
                &&& final(self)@.ledger == old(self)@.ledger.remove(ctx.signer_public_key@)
                &&& final(self)@.credentials == old(self)@.credentials.remove(
                    ctx.signer_public_key@,
                )
                &&& final(self)@.factory == old(self)@.factory
            },
            r is Err ==> *final(self) == *old(self) && r == Err::<u128, ClaimError>(
                if !ctx.caller_is_contract() {
                    ClaimError::Unauthorized
                } else {
                    ClaimError::MissingEntry
                },
            ),
    {
        if !(ctx.predecessor_account_id == ctx.current_account_id) {
            return Err(ClaimError::Unauthorized);
        }
        let amount = match self.ledger.take(&ctx.signer_public_key) {
            Ok(a) => a,
            Err(e) => {
                return Err(e);
            },
        };
        self.credentials.revoke(&ctx.signer_public_key);
        proof {
            assert forall|k2: Seq<u8>| #![auto] self@.ledger.dom().contains(k2)
                <==> self@.credentials.contains(k2) by {
                assert(old(self)@.ledger.dom().contains(k2) <==> old(self)@.credentials.contains(
                    k2,
                ));
            }
        }
        Ok(amount)
    }

    /// Redeem the signer key's deposit into the existing account
    /// `account_id`. On success the entry and the credential are gone and the
    /// receipt directs the host to delete the spent key, mint the collectible
    /// for `account_id`, and transfer the full amount to it. A failed mint
    /// does not roll the payout back: minting is deliberately best-effort.
    pub fn claim(&mut self, ctx: &CallContext, account_id: String) -> (r: Result<
        ClaimReceipt,
        ClaimError,
    >)
        requires
            old(self).wf(),
        ensures
            final(self).wf(),
            r is Ok <==> ctx.caller_is_contract() && old(self)@.ledger.dom().contains(
                ctx.signer_public_key@,
            ),
            r matches Ok(rec) ==> {
                &&& rec.amount as int == old(self)@.ledger[ctx.signer_public_key@]
                &&& rec.transfer_to@ == account_id@
                &&& rec.mint_owner@ == account_id@
                &&& rec.revoked_key@ == ctx.signer_public_key@
                &&& final(self)@.ledger == old(self)@.ledger.remove(ctx.signer_public_key@)
                &&& final(self)@.credentials == old(self)@.credentials.remove(
                    ctx.signer_public_key@,
                )
                &&& final(self)@.factory == old(self)@.factory
            },
            r is Err ==> *final(self) == *old(self) && r == Err::<ClaimReceipt, ClaimError>(
                if !ctx.caller_is_contract() {
                    ClaimError::Unauthorized
                } else {
                    ClaimError::MissingEntry
                },
            ),
    {
        let amount = match self.process_claim(ctx) {
            Ok(a) => a,
            Err(e) => {
                return Err(e);
            },
        };
        let mint_owner = account_id.clone();
        Ok(
            ClaimReceipt {
                revoked_key: ctx.signer_public_key.clone(),
                mint_owner,
                transfer_to: account_id,
                amount,
            },
        )
    }

    /// Redeem the signer key's deposit into a brand-new account. The entry
    /// and the credential are removed first; the returned pending redemption
    /// directs the host to ask the configured account-factory to create
    /// `new_account_id` with `new_public_key` and the full amount as funding,
    /// and to hand `signing_key`, `new_account_id` and `amount` to
    /// `on_account_created` once the factory's response resolves.
    pub fn create_account_and_claim(
        &mut self,
        ctx: &CallContext,
        new_account_id: String,
        new_public_key: PublicKey,
    ) -> (r: Result<PendingRedemption, ClaimError>)
        requires
            old(self).wf(),
        ensures
            final(self).wf(),
            r is Ok <==> ctx.caller_is_contract() && old(self)@.ledger.dom().contains(
                ctx.signer_public_key@,
            ),
            r matches Ok(p) ==> {
                &&& p.amount as int == old(self)@.ledger[ctx.signer_public_key@]
                &&& p.factory_account@ == old(self)@.factory
                &&& p.new_account_id@ == new_account_id@
                &&& p.new_public_key@ == new_public_key@
                &&& p.signing_key@ == ctx.signer_public_key@
                &&& final(self)@.ledger == old(self)@.ledger.remove(ctx.signer_public_key@)
                &&& final(self)@.credentials == old(self)@.credentials.remove(
                    ctx.signer_public_key@,
                )
                &&& final(self)@.factory == old(self)@.factory
            },
            r is Err ==> *final(self) == *old(self) && r == Err::<PendingRedemption, ClaimError>(
                if !ctx.caller_is_contract() {
                    ClaimError::Unauthorized
                } else {
                    ClaimError::MissingEntry
                },
            ),
    {
        let amount = match self.process_claim(ctx) {
            Ok(a) => a,
            Err(e) => {
                return Err(e);
            },
        };
        Ok(
            PendingRedemption {
                factory_account: self.linkdrop_contract.clone(),
                new_account_id,
                new_public_key,
                amount,
                signing_key: ctx.signer_public_key.clone(),
            },
        )
    }

    /// The compensation handler: the continuation of the asynchronous
    /// account-creation request, to be invoked with the success flag of each
    /// result the platform delivered (exactly one is expected).
    ///
    /// On factory failure (`Ok(false)`) it restores `pk`'s ledger entry to
    /// exactly `linkdrop_amount` and re-issues the credential, so the holder
    /// can retry; the caller must add the host-side access key back. On
    /// factory success (`Ok(true)`) nothing changes here and the caller must
    /// mint the collectible for `new_account_id`. A call that does not arrive
    /// through the contract, or that carries anything but exactly one result,
    /// is rejected with nothing changed.
    #[allow(unused_variables)]
    pub fn on_account_created(
        &mut self,
        ctx: &CallContext,
        pk: PublicKey,
        new_account_id: String,
        linkdrop_amount: u128,
        promise_results: &Vec<bool>,
    ) -> (r: Result<bool, ClaimError>)
        requires
            old(self).wf(),
        ensures
            final(self).wf(),
            r is Ok <==> ctx.caller_is_contract() && promise_results@.len() == 1,
            r matches Ok(succeeded) ==> succeeded == promise_results@[0],
            r == Ok::<bool, ClaimError>(false) ==> final(self)@ == compensate(
                old(self)@,
                pk@,
                linkdrop_amount,
            ),
            r == Ok::<bool, ClaimError>(true) ==> *final(self) == *old(self),
            r is Err ==> *final(self) == *old(self) && r == Err::<bool, ClaimError>(
                if !ctx.caller_is_contract() {
                    ClaimError::Unauthorized
                } else {
                    ClaimError::MalformedContinuation
                },
            ),
    {
        if !(ctx.predecessor_account_id == ctx.current_account_id) {
            return Err(ClaimError::Unauthorized);
        }
        if promise_results.len() != 1 {
            return Err(ClaimError::MalformedContinuation);
        }
        let creation_succeeded = promise_results[0];
        if !creation_succeeded {
            self.ledger.restore(&pk, linkdrop_amount);
            self.credentials.issue(&pk);
            proof {
                assert forall|k2: Seq<u8>| #![auto] self@.ledger.dom().contains(k2)
                    <==> self@.credentials.contains(k2) by {
                    assert(old(self)@.ledger.dom().contains(k2)
                        <==> old(self)@.credentials.contains(k2));
                }
            }
        }
        Ok(creation_succeeded)
    }

    /// The balance outstanding for `key`: fails with `MissingEntry` if the
    /// key was never funded or has already been fully redeemed.
    pub fn get_key_balance(&self, key: &PublicKey) -> (r: Result<u128, ClaimError>)
        requires
            self.wf(),
        ensures
            r is Ok <==> self@.ledger.dom().contains(key@),
            r matches Ok(a) ==> a as int == self@.ledger[key@],
            r is Err ==> r == Err::<u128, ClaimError>(ClaimError::MissingEntry),
    {
        self.ledger.balance_of(key)
    }

    /// Whether `key` currently holds the restricted credential.
    pub fn credential_is_live(&self, key: &PublicKey) -> (r: bool)
        requires
            self.wf(),
        ensures
            r == self@.credentials.contains(key@),
    {
        self.credentials.is_live(key)
    }
}

} // verus!
