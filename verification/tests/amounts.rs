use staking::Amount;

fn amount(v: u64) -> Amount {
    Amount::from_u64(v)
}

/// 2 to the power `bits`, for whole bytes.
fn power_of_two(bits: usize) -> Amount {
    let mut bytes: Vec<u8> = vec![1];
    bytes.extend(vec![0u8; bits / 8]);
    Amount::from_be_bytes(&bytes)
}

#[test]
fn zero_is_zero() {
    assert!(Amount::zero().is_zero());
    assert!(amount(0).is_zero());
    assert!(!amount(1).is_zero());
    assert_eq!(Amount::zero(), amount(0));
    assert_eq!(Amount::zero().to_u64(), Some(0));
}

#[test]
fn machine_integers_round_trip() {
    for v in [0u64, 1, 255, 256, 65_535, 65_536, 1_000_000_007, u64::MAX] {
        assert_eq!(amount(v).to_u64(), Some(v));
        assert_eq!(amount(v).to_u128(), Some(v as u128));
    }
    for v in [0u128, 1 << 64, (1 << 100) + 12_345, u128::MAX] {
        assert_eq!(Amount::from_u128(v).to_u128(), Some(v));
    }
}

#[test]
fn to_u64_refuses_what_does_not_fit() {
    let just_above: Amount = Amount::from_u128(u64::MAX as u128 + 1);
    assert_eq!(just_above.to_u64(), None);
    assert_eq!(just_above.to_u128(), Some(1u128 << 64));
    assert_eq!(Amount::from_u128(u128::MAX).to_u64(), None);
}

#[test]
fn to_u128_refuses_what_does_not_fit() {
    let top: Amount = Amount::from_u128(u128::MAX);
    assert_eq!(top.to_u128(), Some(u128::MAX));
    assert_eq!(top.add(&amount(1)).to_u128(), None);
    assert_eq!(power_of_two(128).to_u128(), None);
    assert_eq!(power_of_two(200).to_u128(), None);
}

#[test]
fn addition_carries() {
    assert_eq!(amount(255).add(&amount(1)), amount(256));
    assert_eq!(amount(65_535).add(&amount(1)), amount(65_536));
    assert_eq!(amount(0).add(&amount(0)), amount(0));
    assert_eq!(amount(7).add(&amount(0)), amount(7));
    assert_eq!(amount(u64::MAX).add(&amount(1)).to_u128(), Some(1u128 << 64));
    assert_eq!(
        Amount::from_u128(u128::MAX).add(&amount(1)),
        power_of_two(128)
    );
    assert_eq!(
        amount(123_456_789).add(&amount(987_654_321)),
        amount(1_111_111_110)
    );
}

#[test]
fn addition_of_unequal_lengths() {
    let long: Amount = Amount::from_u128(0xFFFF_FFFF_FFFF_FFFF_FFFF);
    let short: Amount = amount(1);
    assert_eq!(long.add(&short).to_u128(), Some(0x1_0000_0000_0000_0000_0000));
    assert_eq!(short.add(&long).to_u128(), Some(0x1_0000_0000_0000_0000_0000));
}

#[test]
fn subtraction_borrows() {
    assert_eq!(amount(256).sub(&amount(1)), amount(255));
    assert_eq!(amount(65_536).sub(&amount(1)), amount(65_535));
    assert_eq!(amount(1000).sub(&amount(1000)), amount(0));
    assert!(amount(1000).sub(&amount(1000)).is_zero());
    assert_eq!(amount(1000).sub(&amount(0)), amount(1000));
    assert_eq!(
        power_of_two(128).sub(&amount(1)),
        Amount::from_u128(u128::MAX)
    );
    assert_eq!(
        Amount::from_u128(1u128 << 64).sub(&amount(u64::MAX)),
        amount(1)
    );
}

#[test]
fn multiplication_is_exact() {
    assert_eq!(amount(0).mul(&amount(12_345)), amount(0));
    assert_eq!(amount(12_345).mul(&amount(0)), amount(0));
    assert_eq!(amount(1).mul(&amount(12_345)), amount(12_345));
    assert_eq!(amount(1000).mul(&amount(30)), amount(30_000));
    assert_eq!(amount(255).mul(&amount(255)), amount(65_025));
    assert_eq!(
        amount(u64::MAX).mul(&amount(u64::MAX)).to_u128(),
        Some(u64::MAX as u128 * u64::MAX as u128)
    );
}

#[test]
fn multiplication_beyond_machine_integers() {
    // (2^128 - 1)^2 = 2^256 - 2^129 + 1
    let top: Amount = Amount::from_u128(u128::MAX);
    let square: Amount = top.mul(&top);
    let expected: Amount = power_of_two(256)
        .sub(&power_of_two(128).mul(&amount(2)))
        .add(&amount(1));
    assert_eq!(square, expected);
    assert_eq!(square.to_u128(), None);
    assert_eq!(power_of_two(64).mul(&power_of_two(72)), power_of_two(136));
}

#[test]
fn order_of_amounts() {
    assert!(amount(1).lt(&amount(2)));
    assert!(!amount(2).lt(&amount(1)));
    assert!(!amount(2).lt(&amount(2)));
    assert!(amount(2).le(&amount(2)));
    assert!(amount(255).lt(&amount(256)));
    assert!(amount(0x01FF).lt(&amount(0x0200)));
    assert!(amount(0x0200).lt(&amount(0x02FF)));
    assert!(!amount(0x02FF).le(&amount(0x0200)));
    assert!(Amount::from_u128(u128::MAX).lt(&power_of_two(128)));
    assert!(!power_of_two(128).le(&Amount::from_u128(u128::MAX)));
    assert!(Amount::zero().le(&Amount::zero()));
    assert!(Amount::zero().lt(&amount(1)));
}

#[test]
fn equality_is_equality_of_numbers() {
    assert_eq!(Amount::from_be_bytes(&[0, 0, 1]), amount(1));
    assert_eq!(Amount::from_be_bytes(&[]), Amount::zero());
    assert_eq!(Amount::from_be_bytes(&[0, 0, 0]), Amount::zero());
    assert_ne!(amount(1), amount(2));
    assert_ne!(amount(256), amount(1));
    assert_eq!(amount(300).sub(&amount(44)), amount(256));
}

#[test]
fn big_endian_bytes_are_read_most_significant_first() {
    assert_eq!(Amount::from_be_bytes(&[1, 0]), amount(256));
    assert_eq!(Amount::from_be_bytes(&[0x12, 0x34, 0x56]), amount(0x123456));
    assert_eq!(
        Amount::from_be_bytes(&[0xFF; 16]),
        Amount::from_u128(u128::MAX)
    );
}

#[test]
fn big_endian_bytes_are_written_shortest() {
    assert_eq!(Amount::zero().to_be_bytes(), Vec::<u8>::new());
    assert_eq!(amount(1).to_be_bytes(), vec![1u8]);
    assert_eq!(amount(256).to_be_bytes(), vec![1u8, 0]);
    assert_eq!(amount(0x123456).to_be_bytes(), vec![0x12u8, 0x34, 0x56]);
    assert_eq!(
        Amount::from_be_bytes(&[0, 0, 0x12, 0x00]).to_be_bytes(),
        vec![0x12u8, 0x00]
    );
    let mut expected: Vec<u8> = vec![1];
    expected.extend(vec![0u8; 25]);
    assert_eq!(power_of_two(200).to_be_bytes(), expected);
}

#[test]
fn clone_is_the_same_amount() {
    let a: Amount = power_of_two(136).add(&amount(5));
    let b: Amount = a.clone();
    assert_eq!(a, b);
    assert_eq!(b.sub(&amount(5)), power_of_two(136));
}
