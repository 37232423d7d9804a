use ethereum_amount::{Error, EthereumAmount, Uint256};

fn amt(n: u64) -> EthereumAmount {
    EthereumAmount::from_wei(Uint256::from_u64(n))
}

const MAX_DECIMAL: &str =
    "115792089237316195423570985008687907853269984665640564039457584007913129639935";

#[test]
fn add_small_values() {
    let r = amt(2).add(amt(5)).unwrap();
    assert_eq!(r, amt(7));
    assert_eq!(r.wei(), Uint256::from_u64(7));
}

#[test]
fn add_carries_across_limbs() {
    let a = EthereumAmount::from_wei(Uint256::new(0, 0, 0, u64::MAX));
    let r = a.add(amt(1)).unwrap();
    assert_eq!(r.wei(), Uint256::new(0, 0, 1, 0));
}

#[test]
fn add_at_the_top_of_the_range() {
    let max = EthereumAmount::from_wei(Uint256::max_value());
    let one_less = max.subtract(amt(1)).unwrap();
    let back = one_less.add(amt(1)).unwrap();
    assert_eq!(back, max);
}

#[test]
fn add_overflow_at_max() {
    let max = EthereumAmount::from_wei(Uint256::max_value());
    let r = max.add(amt(1));
    assert!(matches!(r, Err(Error::Overflow(_))));
}

#[test]
fn add_overflow_message_names_the_operands() {
    let max = EthereumAmount::from_wei(Uint256::max_value());
    let Err(Error::Overflow(m)) = max.add(amt(1)) else {
        panic!("expected an overflow");
    };
    assert_eq!(m, format!("overflow when adding {} and 1", MAX_DECIMAL));
}

#[test]
fn subtract_small_values() {
    let r = amt(7).subtract(amt(5)).unwrap();
    assert_eq!(r, amt(2));
}

#[test]
fn subtract_borrows_across_limbs() {
    let a = EthereumAmount::from_wei(Uint256::new(0, 0, 1, 0));
    let r = a.subtract(amt(1)).unwrap();
    assert_eq!(r.wei(), Uint256::new(0, 0, 0, u64::MAX));
}

#[test]
fn subtract_underflow_is_overflow() {
    let r = amt(5).subtract(amt(7));
    assert!(matches!(r, Err(Error::Overflow(_))));
}

#[test]
fn subtract_underflow_message_names_the_operands() {
    let Err(Error::Overflow(m)) = amt(5).subtract(amt(7)) else {
        panic!("expected an overflow");
    };
    assert_eq!(m, "overflow when subtracting 7 from 5");
}

#[test]
fn multiply_by_scalar() {
    let r = amt(10).multiply(3).unwrap();
    assert_eq!(r, amt(30));
}

#[test]
fn multiply_by_scalar_overflows() {
    let max = EthereumAmount::from_wei(Uint256::max_value());
    let r = max.multiply(2);
    assert!(matches!(r, Err(Error::Overflow(_))));
}

#[test]
fn multiply_amounts_across_limbs() {
    let two_pow_64 = EthereumAmount::from_wei(Uint256::new(0, 0, 1, 0));
    let r = two_pow_64.multiply_amount(two_pow_64).unwrap();
    assert_eq!(r.wei(), Uint256::new(0, 1, 0, 0));
}

#[test]
fn multiply_amounts_overflow_message_names_the_operands() {
    let max = EthereumAmount::from_wei(Uint256::max_value());
    let Err(Error::Overflow(m)) = max.multiply_amount(amt(2)) else {
        panic!("expected an overflow");
    };
    assert_eq!(m, format!("overflow when multiplying {} by 2", MAX_DECIMAL));
}

#[test]
fn divide_takes_the_floor() {
    assert_eq!(amt(10).divide(amt(3)).unwrap(), amt(3));
    assert_eq!(amt(7).divide(amt(2)).unwrap(), amt(3));
    assert_eq!(amt(30).divide(amt(5)).unwrap(), amt(6));
}

#[test]
fn divide_a_wide_value() {
    let max = EthereumAmount::from_wei(Uint256::max_value());
    let r = max.divide(amt(1)).unwrap();
    assert_eq!(r, max);
    // (2^256 - 1) / 2 == 2^255 - 1
    let halves = max.divide(amt(2)).unwrap();
    assert_eq!(halves.wei(), Uint256::new(u64::MAX / 2, u64::MAX, u64::MAX, u64::MAX));
}

#[test]
fn divide_by_zero_fails() {
    let r = amt(10).divide(amt(0));
    assert!(matches!(r, Err(Error::Overflow(_))));
}

#[test]
fn divide_by_zero_message_names_the_dividend() {
    let Err(Error::Overflow(m)) = amt(10).divide(amt(0)) else {
        panic!("expected an overflow");
    };
    assert_eq!(m, "division of 10 by zero");
}

#[test]
fn ordering_follows_the_wei_count() {
    let a = amt(3);
    let b = amt(5);
    assert!(a < b);
    assert!(b > a);
    assert!(a != b);
    assert!(a == amt(3));
    let low = EthereumAmount::from_wei(Uint256::new(0, 0, 0, u64::MAX));
    let high = EthereumAmount::from_wei(Uint256::new(0, 0, 1, 0));
    assert!(low < high);
}

#[test]
fn default_is_zero() {
    assert_eq!(EthereumAmount::default(), amt(0));
}

#[test]
fn wei_round_trips_through_from_wei() {
    let w = Uint256::new(4, 3, 2, 1);
    assert_eq!(EthereumAmount::from_wei(w).wei(), w);
}

#[test]
fn division_with_remainder() {
    let (q, r) = Uint256::from_u64(10).div_rem(&Uint256::from_u64(3));
    assert_eq!(q, Uint256::from_u64(3));
    assert_eq!(r, Uint256::from_u64(1));
}

#[test]
fn decimal_rendering_of_small_values() {
    assert_eq!(Uint256::from_u64(0).to_decimal_string(), "0");
    assert_eq!(Uint256::from_u64(255).to_decimal_string(), "255");
    assert_eq!(Uint256::from_u64(1_500_000_000_000_000_000).to_decimal_string(), "1500000000000000000");
}

#[test]
fn decimal_rendering_of_the_largest_value() {
    assert_eq!(Uint256::max_value().to_decimal_string(), MAX_DECIMAL);
}

#[test]
fn decimal_rendering_across_limbs() {
    // 2^64 == 18446744073709551616
    assert_eq!(Uint256::new(0, 0, 1, 0).to_decimal_string(), "18446744073709551616");
}

#[test]
fn u64_conversions() {
    assert_eq!(Uint256::from_u64(42).try_to_u64(), Some(42));
    assert_eq!(Uint256::new(0, 0, 1, 0).try_to_u64(), None);
    assert_eq!(Uint256::from_u64(42).to_u64(), 42);
}
