use num_bigint::BigUint;
use projective_ec::natural::Natural;

fn natural(decimal: &str) -> Natural {
    Natural::from_limbs(BigUint::parse_bytes(decimal.as_bytes(), 10).unwrap().to_u32_digits())
}

#[test]
fn from_limbs_drops_leading_zero_limbs() {
    let n = Natural::from_limbs(vec![7, 0, 0]);
    assert_eq!(n.to_limbs(), vec![7]);
    assert_eq!(Natural::from_limbs(vec![0, 0]).to_limbs(), Vec::<u32>::new());
    assert_eq!(Natural::from_limbs(vec![0, 5, 0]).to_limbs(), vec![0, 5]);
}

#[test]
fn from_u64_splits_into_two_limbs() {
    assert_eq!(Natural::from_u64(0x1_0000_0002).to_limbs(), vec![2, 1]);
    assert_eq!(Natural::from_u64(u64::MAX).to_limbs(), vec![u32::MAX, u32::MAX]);
    assert_eq!(Natural::from_u64(9).to_limbs(), vec![9]);
    assert_eq!(Natural::from_u64(0).to_limbs(), Vec::<u32>::new());
}

#[test]
fn zero_and_one_are_recognised() {
    assert!(Natural::from_u64(0).is_zero());
    assert!(!Natural::from_u64(1).is_zero());
    assert!(Natural::from_u64(1).is_one());
    assert!(!Natural::from_u64(0).is_one());
    assert!(!Natural::from_u64(2).is_one());
    assert!(!Natural::from_limbs(vec![1, 1]).is_one());
    assert!(!Natural::from_limbs(vec![0, 1]).is_zero());
}

#[test]
fn same_compares_numbers() {
    assert!(Natural::from_limbs(vec![3, 4, 0]).same(&Natural::from_limbs(vec![3, 4])));
    assert!(!Natural::from_limbs(vec![3, 4]).same(&Natural::from_limbs(vec![3, 5])));
    assert!(!Natural::from_limbs(vec![3, 4]).same(&Natural::from_limbs(vec![3])));
    assert!(Natural::from_u64(0).same(&Natural::from_limbs(vec![])));
}

#[test]
fn clone_keeps_the_number() {
    let n = natural("340282366920938463463374607431768211457");
    assert!(n.clone().same(&n));
    assert_eq!(n.clone().to_limbs(), vec![1, 0, 0, 0, 1]);
}
