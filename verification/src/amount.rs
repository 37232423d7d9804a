//! The currency amount and its checked arithmetic.
//!
//! `EthereumAmount` wraps the number of wei — the smallest indivisible unit
//! of the currency — as a 256-bit unsigned integer.  Amounts are immutable
//! values: every operation returns a new amount, and an operation whose true
//! result cannot be represented in [0, 2^256 - 1] returns an [`Error`]
//! instead of wrapping, truncating or panicking.

use vstd::prelude::*;

verus! {

use vstd::string::StringExecFns;
use vstd::std_specs::cmp::PartialOrdSpec;
use crate::uint256::{Uint256, pow2_256, dec_seq};

/// The failure of a checked arithmetic operation.
#[derive(Debug, Clone, PartialEq, Eq)]
pub enum Error {
    /// The true result cannot be represented in 256 bits, or a division by
    /// zero was attempted.  The message identifies the operation and the
    /// operands.
    Overflow(String),
}

/// The message reported when `a + b` exceeds the representable range.
pub open spec fn add_overflow_msg(a: nat, b: nat) -> Seq<char> {
    "overflow when adding "@ + dec_seq(a) + " and "@ + dec_seq(b)
}

/// The message reported when `b` exceeds `a` in `a - b`.
pub open spec fn sub_overflow_msg(a: nat, b: nat) -> Seq<char> {
    "overflow when subtracting "@ + dec_seq(b) + " from "@ + dec_seq(a)
}

/// The message reported when `a * b` exceeds the representable range.
pub open spec fn mul_overflow_msg(a: nat, b: nat) -> Seq<char> {
    "overflow when multiplying "@ + dec_seq(a) + " by "@ + dec_seq(b)
}

/// The message reported when `a` is divided by zero.
pub open spec fn div_by_zero_msg(a: nat) -> Seq<char> {
    "division of "@ + dec_seq(a) + " by zero"@
}

/// An amount of the currency, held exactly as its count of wei.
#[derive(Clone, Copy, Debug, PartialEq, Eq, Structural, Hash)]
pub struct EthereumAmount {
    /// The number of wei in the amount.
    pub wei: Uint256,
}

impl View for EthereumAmount {
    type V = nat;

    /// The number of wei as a mathematical value.
    open spec fn view(&self) -> nat {
        self.wei@
    }
}

impl EthereumAmount {
    /// Creates an amount from its wei count; every 256-bit count is valid.
    pub fn from_wei(wei_amount: Uint256) -> (r: Self)
        ensures
            r@ == wei_amount@,
    {
        EthereumAmount { wei: wei_amount }
    }

    /// The number of wei in the amount — always exact.
    pub fn wei(&self) -> (r: Uint256)
        ensures
            r@ == self@,
    {
        self.wei
    }

    /// Checked addition: the sum of the two wei counts, or `Overflow` exactly
    /// when that sum exceeds 2^256 - 1.
    pub fn add(self, rhs: Self) -> (r: Result<Self, Error>)
        ensures
            self@ + rhs@ < pow2_256() ==> (r matches Ok(s) && s@ == self@ + rhs@),
            self@ + rhs@ >= pow2_256() ==> (r matches Err(Error::Overflow(m)) && m@
                == add_overflow_msg(self@, rhs@)),
    {
        match self.wei.checked_add(&rhs.wei) {
            Some(w) => Ok(EthereumAmount { wei: w }),
            None => {
                let mut m = "overflow when adding ".to_owned();
                let da = self.wei.to_decimal_string();
                m.append(da.as_str());
                m.append(" and ");
                let db = rhs.wei.to_decimal_string();
                m.append(db.as_str());
                Err(Error::Overflow(m))
            },
        }
    }

    /// Checked subtraction: the difference of the two wei counts, or
    /// `Overflow` exactly when the subtrahend exceeds the minuend (the
    /// unsigned representation cannot hold a negative difference).
    pub fn subtract(self, rhs: Self) -> (r: Result<Self, Error>)
        ensures
            self@ >= rhs@ ==> (r matches Ok(d) && d@ == self@ - rhs@),
            self@ < rhs@ ==> (r matches Err(Error::Overflow(m)) && m@ == sub_overflow_msg(
                self@,
                rhs@,
            )),
    {
        match self.wei.checked_sub(&rhs.wei) {
            Some(w) => Ok(EthereumAmount { wei: w }),
            None => {
                let mut m = "overflow when subtracting ".to_owned();
                let db = rhs.wei.to_decimal_string();
                m.append(db.as_str());
                m.append(" from ");
                let da = self.wei.to_decimal_string();
                m.append(da.as_str());
                Err(Error::Overflow(m))
            },
        }
    }

    /// Checked multiplication by an integer scalar: the product, or
    /// `Overflow` exactly when it exceeds 2^256 - 1.
    pub fn multiply(self, rhs: u64) -> (r: Result<Self, Error>)
        ensures
            self@ * rhs < pow2_256() ==> (r matches Ok(p) && p@ == self@ * rhs),
            self@ * rhs >= pow2_256() ==> (r matches Err(Error::Overflow(m)) && m@
                == mul_overflow_msg(self@, rhs as nat)),
    {
        self.multiply_amount(EthereumAmount { wei: Uint256::from_u64(rhs) })
    }

    /// Checked multiplication of two amounts' wei counts: the product, or
    /// `Overflow` exactly when it exceeds 2^256 - 1.
    pub fn multiply_amount(self, rhs: Self) -> (r: Result<Self, Error>)
        ensures
            self@ * rhs@ < pow2_256() ==> (r matches Ok(p) && p@ == self@ * rhs@),
            self@ * rhs@ >= pow2_256() ==> (r matches Err(Error::Overflow(m)) && m@
                == mul_overflow_msg(self@, rhs@)),
    {
        match self.wei.checked_mul(&rhs.wei) {
            Some(w) => Ok(EthereumAmount { wei: w }),
            None => {
                let mut m = "overflow when multiplying ".to_owned();
                let da = self.wei.to_decimal_string();
                m.append(da.as_str());
                m.append(" by ");
                let db = rhs.wei.to_decimal_string();
                m.append(db.as_str());
                Err(Error::Overflow(m))
            },
        }
    }

    /// Checked division: the floor quotient of the two wei counts, or
    /// `Overflow` exactly when the divisor is zero (division by zero is
    /// reported under the same kind as the other failures).
    pub fn divide(self, rhs: Self) -> (r: Result<Self, Error>)
        ensures
            rhs@ > 0 ==> (r matches Ok(q) && q@ == self@ / rhs@),
            rhs@ == 0 ==> (r matches Err(Error::Overflow(m)) && m@ == div_by_zero_msg(self@)),
    {
        match self.wei.checked_div(&rhs.wei) {
            Some(w) => Ok(EthereumAmount { wei: w }),
            None => {
                let mut m = "division of ".to_owned();
                let da = self.wei.to_decimal_string();
                m.append(da.as_str());
                m.append(" by zero");
                Err(Error::Overflow(m))
            },
        }
    }
}

impl Default for EthereumAmount {
    /// The zero amount.
    fn default() -> (r: Self)
        ensures
            r@ == 0,
    {
        EthereumAmount { wei: Uint256::from_u64(0) }
    }
}

impl PartialOrd for EthereumAmount {
    /// Amounts order as their wei counts do.
    fn partial_cmp(&self, other: &Self) -> (r: Option<core::cmp::Ordering>) {
        self.wei.partial_cmp(&other.wei)
    }
}

impl vstd::std_specs::cmp::PartialOrdSpecImpl for EthereumAmount {
    open spec fn obeys_partial_cmp_spec() -> bool {
        true
    }

    open spec fn partial_cmp_spec(&self, other: &Self) -> Option<core::cmp::Ordering> {
        if self@ < other@ {
            Some(core::cmp::Ordering::Less)
        } else if self@ == other@ {
            Some(core::cmp::Ordering::Equal)
        } else {
            Some(core::cmp::Ordering::Greater)
        }
    }
}

/// Total-order law: comparison of two amounts goes by their wei counts, of
/// which exactly one of "less", "equal" and "greater" holds, and two amounts
/// are equal exactly when their wei counts are.
pub proof fn lemma_total_order(a: EthereumAmount, b: EthereumAmount)
    ensures
        a.partial_cmp_spec(&b) == Some(core::cmp::Ordering::Less) <==> a@ < b@,
        a.partial_cmp_spec(&b) == Some(core::cmp::Ordering::Equal) <==> a@ == b@,
        a.partial_cmp_spec(&b) == Some(core::cmp::Ordering::Greater) <==> a@ > b@,
        a@ == b@ <==> a == b,
{
    Uint256::lemma_view_injective(a.wei, b.wei);
}

} // verus!
