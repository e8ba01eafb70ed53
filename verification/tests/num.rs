use chain_indexer::num::{Amount, Balance};

#[test]
fn amount_zero_has_no_limbs() {
    let a = Amount::zero();
    assert_eq!(a.to_le_bytes(), Vec::<u8>::new());
    assert!(a.is_zero());
}

#[test]
fn amount_from_u64_small() {
    let a = Amount::from_u64(258);
    assert_eq!(a.to_le_bytes(), vec![2, 1]);
    assert!(!a.is_zero());
}

#[test]
fn amount_add_carries_across_limbs() {
    let a = Amount::from_u64(255);
    let b = Amount::from_u64(1);
    assert_eq!(a.add(&b).to_le_bytes(), vec![0, 1]);
}

#[test]
fn amount_add_max_u64() {
    let a = Amount::from_u64(u64::MAX);
    let b = Amount::from_u64(1);
    // 2^64 is one followed by eight zero bytes, little-endian.
    assert_eq!(a.add(&b).to_le_bytes(), vec![0, 0, 0, 0, 0, 0, 0, 0, 1]);
}

#[test]
fn amount_from_be_bytes_exceeds_u64() {
    // A 32-byte word with a bit above the u64 range.
    let mut word = vec![0u8; 32];
    word[0] = 1; // most significant byte
    let a = Amount::from_be_bytes(&word);
    let mut expected = vec![0u8; 31];
    expected.push(1);
    assert_eq!(a.to_le_bytes(), expected);
}

#[test]
fn amount_sub_borrows() {
    let a = Amount::from_u64(256);
    let b = Amount::from_u64(1);
    assert_eq!(a.sub(&b).to_le_bytes(), vec![255]);
}

#[test]
fn balance_credit_then_larger_debit_goes_negative() {
    let c = Balance::credit(Amount::from_u64(50));
    let d = Balance::debit(Amount::from_u64(80));
    let s = c.add(&d);
    assert!(s.is_negative_value());
    assert_eq!(s.magnitude_le_bytes(), vec![30]);
}

#[test]
fn balance_opposites_cancel() {
    let c = Balance::credit(Amount::from_u64(7));
    let d = Balance::debit(Amount::from_u64(7));
    let s = c.add(&d);
    assert!(s.is_zero());
    assert!(!s.is_negative_value());
}

#[test]
fn balance_same_value_ignores_zero_sign() {
    let z1 = Balance::zero();
    let z2 = Balance::debit(Amount::zero());
    assert!(z1.same_value(&z2));
    let c = Balance::credit(Amount::from_u64(3));
    assert!(!z1.same_value(&c));
    let c2 = Balance::credit(Amount::from_u64(3));
    assert!(c.same_value(&c2));
    let d = Balance::debit(Amount::from_u64(3));
    assert!(!c.same_value(&d));
}
