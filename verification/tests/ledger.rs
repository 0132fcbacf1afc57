use linkdrop::ledger::DepositLedger;
use linkdrop::types::ClaimError;
use linkdrop::types::PublicKey;

fn key(bytes: &[u8]) -> PublicKey {
    PublicKey::new(bytes.to_vec())
}

#[test]
fn deposit_accumulates_two_deposits() {
    let k = key(&[1, 2, 3]);
    let mut ledger = DepositLedger::new();
    assert_eq!(ledger.deposit(&k, 1000), 1000);
    assert_eq!(ledger.deposit(&k, 500), 1500);
    assert_eq!(ledger.balance_of(&k), Ok(1500));
}

#[test]
fn take_pays_out_accumulated_sum() {
    let k = key(&[9]);
    let mut ledger = DepositLedger::new();
    ledger.deposit(&k, 700);
    ledger.deposit(&k, 300);
    assert_eq!(ledger.take(&k), Ok(1000));
    assert_eq!(ledger.balance_of(&k), Err(ClaimError::MissingEntry));
}

#[test]
fn second_take_fails_until_restore() {
    let k = key(&[4, 4]);
    let mut ledger = DepositLedger::new();
    ledger.deposit(&k, 250);
    assert_eq!(ledger.take(&k), Ok(250));
    assert_eq!(ledger.take(&k), Err(ClaimError::MissingEntry));
    assert_eq!(ledger.take(&k), Err(ClaimError::MissingEntry));
    ledger.restore(&k, 250);
    assert_eq!(ledger.take(&k), Ok(250));
}

#[test]
fn restore_overwrites_stale_value() {
    let k = key(&[8]);
    let mut ledger = DepositLedger::new();
    ledger.deposit(&k, 100);
    ledger.restore(&k, 40);
    assert_eq!(ledger.balance_of(&k), Ok(40));
}

#[test]
fn balance_of_unknown_key_is_missing_entry() {
    let ledger = DepositLedger::new();
    assert_eq!(ledger.balance_of(&key(&[5])), Err(ClaimError::MissingEntry));
}

#[test]
fn take_on_empty_ledger_is_missing_entry() {
    let mut ledger = DepositLedger::new();
    assert_eq!(ledger.take(&key(&[5])), Err(ClaimError::MissingEntry));
}

#[test]
fn keys_are_kept_apart() {
    let k1 = key(&[1]);
    let k2 = key(&[2]);
    let mut ledger = DepositLedger::new();
    ledger.deposit(&k1, 11);
    ledger.deposit(&k2, 22);
    assert_eq!(ledger.take(&k1), Ok(11));
    assert_eq!(ledger.balance_of(&k2), Ok(22));
    assert_eq!(ledger.balance_of(&k1), Err(ClaimError::MissingEntry));
}

#[test]
fn empty_key_and_large_amount() {
    let k = key(&[]);
    let mut ledger = DepositLedger::new();
    ledger.deposit(&k, u128::MAX - 1);
    assert_eq!(ledger.deposit(&k, 1), u128::MAX);
    assert_eq!(ledger.take(&k), Ok(u128::MAX));
}
