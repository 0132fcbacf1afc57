use linkdrop::contract::Contract;
use linkdrop::contract::MIN_ACCESS_KEY_ALLOWANCE;
use linkdrop::contract::MIN_REQUIRED_INITIAL_DEPOSIT;
use linkdrop::contract::MIN_STORAGE_COST;
use linkdrop::contract::NEW_ACCOUNT_ABSOLUTE_MINIMUM;
use linkdrop::types::CallContext;
use linkdrop::types::ClaimError;
use linkdrop::types::PublicKey;

const CONTRACT_ID: &str = "drop.test";
const FACTORY_ID: &str = "factory.test";

fn key(bytes: &[u8]) -> PublicKey {
    PublicKey::new(bytes.to_vec())
}

fn ctx_for(signer: &[u8], attached: u128) -> CallContext {
    CallContext {
        predecessor_account_id: CONTRACT_ID.to_string(),
        current_account_id: CONTRACT_ID.to_string(),
        signer_public_key: key(signer),
        attached_deposit: attached,
    }
}

fn foreign_ctx(signer: &[u8], attached: u128) -> CallContext {
    CallContext {
        predecessor_account_id: "mallory.test".to_string(),
        current_account_id: CONTRACT_ID.to_string(),
        signer_public_key: key(signer),
        attached_deposit: attached,
    }
}

#[test]
fn existing_account_happy_path() {
    let mut contract = Contract::new(FACTORY_ID.to_string());
    let k1 = &[1u8; 33];

    // Deposit 1000 units on top of the required minimum against key K1.
    let send_ctx = ctx_for(k1, MIN_REQUIRED_INITIAL_DEPOSIT + 1000);
    let receipt = contract.send(&send_ctx, key(k1)).unwrap();
    let expected = NEW_ACCOUNT_ABSOLUTE_MINIMUM + 1000;
    assert_eq!(receipt.new_total, expected);
    assert!(receipt.credential_issued);
    assert!(contract.credential_is_live(&key(k1)));
    assert_eq!(contract.get_key_balance(&key(k1)), Ok(expected));

    // Redeem into the existing account "alice".
    let claim_ctx = ctx_for(k1, 0);
    let receipt = match contract.claim(&claim_ctx, "alice.test".to_string()) {
        Ok(r) => r,
        Err(e) => panic!("claim failed: {:?}", e),
    };
    assert_eq!(receipt.amount, expected);
    assert_eq!(receipt.transfer_to, "alice.test");
    assert_eq!(receipt.mint_owner, "alice.test");
    assert_eq!(receipt.revoked_key.bytes, k1.to_vec());

    // Entry removed, credential revoked.
    assert_eq!(contract.get_key_balance(&key(k1)), Err(ClaimError::MissingEntry));
    assert!(!contract.credential_is_live(&key(k1)));
}

#[test]
fn new_account_failure_and_retry() {
    let mut contract = Contract::new(FACTORY_ID.to_string());
    let k2 = &[2u8; 33];
    let pubkey_x = &[9u8; 33];

    let send_ctx = ctx_for(k2, MIN_REQUIRED_INITIAL_DEPOSIT + 1000);
    contract.send(&send_ctx, key(k2)).unwrap();
    let expected = NEW_ACCOUNT_ABSOLUTE_MINIMUM + 1000;

    // First attempt: the factory will report failure.
    let claim_ctx = ctx_for(k2, 0);
    let pending = match contract.create_account_and_claim(
        &claim_ctx,
        "bob.new".to_string(),
        key(pubkey_x),
    ) {
        Ok(p) => p,
        Err(e) => panic!("create_account_and_claim failed: {:?}", e),
    };
    assert_eq!(pending.factory_account, FACTORY_ID);
    assert_eq!(pending.new_account_id, "bob.new");
    assert_eq!(pending.new_public_key.bytes, pubkey_x.to_vec());
    assert_eq!(pending.amount, expected);
    assert_eq!(pending.signing_key.bytes, k2.to_vec());

    // While the redemption is in flight, nothing can succeed on K2.
    assert_eq!(contract.get_key_balance(&key(k2)), Err(ClaimError::MissingEntry));
    assert!(!contract.credential_is_live(&key(k2)));

    // The factory reports failure: compensation restores funds and credential.
    let cb_ctx = ctx_for(k2, 0);
    let outcome = contract.on_account_created(
        &cb_ctx,
        pending.signing_key,
        pending.new_account_id,
        pending.amount,
        &vec![false],
    );
    assert_eq!(outcome, Ok(false));
    assert_eq!(contract.get_key_balance(&key(k2)), Ok(expected));
    assert!(contract.credential_is_live(&key(k2)));

    // Retry: redemption now succeeds once the factory is made to succeed.
    let pending = contract
        .create_account_and_claim(&claim_ctx, "bob.new".to_string(), key(pubkey_x))
        .unwrap_or_else(|e| panic!("retry failed: {:?}", e));
    assert_eq!(pending.amount, expected);
    let outcome = contract.on_account_created(
        &cb_ctx,
        pending.signing_key,
        pending.new_account_id,
        pending.amount,
        &vec![true],
    );
    assert_eq!(outcome, Ok(true));
    assert_eq!(contract.get_key_balance(&key(k2)), Err(ClaimError::MissingEntry));
    assert!(!contract.credential_is_live(&key(k2)));
}

#[test]
fn underfunded_deposit_rejected() {
    let mut contract = Contract::new(FACTORY_ID.to_string());
    let k = &[3u8; 33];
    let ctx = ctx_for(k, MIN_REQUIRED_INITIAL_DEPOSIT - 1);
    let r = contract.send(&ctx, key(k));
    assert!(matches!(r, Err(ClaimError::InsufficientDeposit)));
    // No ledger mutation, no credential issued.
    assert_eq!(contract.get_key_balance(&key(k)), Err(ClaimError::MissingEntry));
    assert!(!contract.credential_is_live(&key(k)));
}

#[test]
fn second_deposit_needs_only_one_unit_and_is_credited_in_full() {
    let mut contract = Contract::new(FACTORY_ID.to_string());
    let k = &[4u8; 33];
    contract.send(&ctx_for(k, MIN_REQUIRED_INITIAL_DEPOSIT), key(k)).unwrap();
    assert_eq!(
        contract.get_key_balance(&key(k)),
        Ok(NEW_ACCOUNT_ABSOLUTE_MINIMUM)
    );

    // A zero-value top-up is still rejected.
    let r = contract.send(&ctx_for(k, 0), key(k));
    assert!(matches!(r, Err(ClaimError::InsufficientDeposit)));

    // One unit is enough, and later deposits are credited in full.
    let receipt = contract.send(&ctx_for(k, 500), key(k)).unwrap();
    assert_eq!(receipt.new_total, NEW_ACCOUNT_ABSOLUTE_MINIMUM + 500);
    assert!(!receipt.credential_issued);
}

#[test]
fn minimum_covers_storage_allowance_and_account_floor() {
    assert_eq!(
        MIN_REQUIRED_INITIAL_DEPOSIT,
        MIN_STORAGE_COST + MIN_ACCESS_KEY_ALLOWANCE + NEW_ACCOUNT_ABSOLUTE_MINIMUM
    );
    // The exact minimum leaves the new-account floor as the claimable amount.
    let mut contract = Contract::new(FACTORY_ID.to_string());
    let k = &[5u8];
    let receipt = contract.send(&ctx_for(k, MIN_REQUIRED_INITIAL_DEPOSIT), key(k)).unwrap();
    assert_eq!(receipt.new_total, NEW_ACCOUNT_ABSOLUTE_MINIMUM);
}

#[test]
fn claim_without_deposit_is_missing_entry() {
    let mut contract = Contract::new(FACTORY_ID.to_string());
    let ctx = ctx_for(&[6u8], 0);
    let r = contract.claim(&ctx, "alice.test".to_string());
    assert!(matches!(r, Err(ClaimError::MissingEntry)));
}

#[test]
fn foreign_caller_is_unauthorized_everywhere() {
    let mut contract = Contract::new(FACTORY_ID.to_string());
    let k = &[7u8];
    contract.send(&ctx_for(k, MIN_REQUIRED_INITIAL_DEPOSIT), key(k)).unwrap();

    let bad = foreign_ctx(k, 0);
    assert!(matches!(
        contract.set_contract(&bad, "other.test".to_string()),
        Err(ClaimError::Unauthorized)
    ));
    assert!(matches!(
        contract.claim(&bad, "alice.test".to_string()),
        Err(ClaimError::Unauthorized)
    ));
    assert!(matches!(
        contract.create_account_and_claim(&bad, "bob.new".to_string(), key(&[8u8])),
        Err(ClaimError::Unauthorized)
    ));
    assert_eq!(
        contract.on_account_created(&bad, key(k), "bob.new".to_string(), 1, &vec![false]),
        Err(ClaimError::Unauthorized)
    );

    // Nothing changed: the deposit is still claimable by the contract itself.
    assert_eq!(
        contract.get_key_balance(&key(k)),
        Ok(NEW_ACCOUNT_ABSOLUTE_MINIMUM)
    );
    assert!(contract.credential_is_live(&key(k)));
}

#[test]
fn continuation_needs_exactly_one_result() {
    let mut contract = Contract::new(FACTORY_ID.to_string());
    let ctx = ctx_for(&[9u8], 0);
    let none: Vec<bool> = vec![];
    assert_eq!(
        contract.on_account_created(&ctx, key(&[9u8]), "bob.new".to_string(), 10, &none),
        Err(ClaimError::MalformedContinuation)
    );
    assert_eq!(
        contract.on_account_created(
            &ctx,
            key(&[9u8]),
            "bob.new".to_string(),
            10,
            &vec![true, false],
        ),
        Err(ClaimError::MalformedContinuation)
    );
    // The defensive failure mutated nothing.
    assert_eq!(contract.get_key_balance(&key(&[9u8])), Err(ClaimError::MissingEntry));
    assert!(!contract.credential_is_live(&key(&[9u8])));
}

#[test]
fn set_contract_points_redemptions_at_the_new_factory() {
    let mut contract = Contract::new(FACTORY_ID.to_string());
    let admin = ctx_for(&[], 0);
    contract.set_contract(&admin, "factory2.test".to_string()).unwrap();

    let k = &[10u8];
    contract.send(&ctx_for(k, MIN_REQUIRED_INITIAL_DEPOSIT), key(k)).unwrap();
    let pending = contract
        .create_account_and_claim(&ctx_for(k, 0), "carol.new".to_string(), key(&[11u8]))
        .unwrap_or_else(|e| panic!("redemption failed: {:?}", e));
    assert_eq!(pending.factory_account, "factory2.test");
}
