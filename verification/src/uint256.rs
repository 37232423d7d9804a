//! A 256-bit unsigned integer built from four 64-bit limbs.
//!
//! `Uint256` carries the smallest-unit count of a currency amount. Every
//! arithmetic operation is checked: a result that does not fit in
//! [0, 2^256 - 1] is reported, never wrapped or truncated.

use vstd::prelude::*;

verus! {

use vstd::arithmetic::power2::{pow2, lemma_pow2_adds, lemma_pow2_pos, lemma2_to64, lemma2_to64_rest};
use vstd::arithmetic::div_mod::{
    lemma_breakdown,
    lemma_fundamental_div_mod,
    lemma_fundamental_div_mod_converse,
    lemma_div_denominator,
    lemma_small_mod,
    lemma_basic_div,
    lemma_div_basics,
    lemma_div_nonincreasing,
    lemma_mod_division_less_than_divisor,
};
use vstd::arithmetic::mul::{lemma_mul_strict_inequality, lemma_mul_is_commutative};
use vstd::string::StringExecFns;

/// 2^256, the first value that does not fit in a `Uint256`.
pub open spec fn pow2_256() -> nat {
    0x1_0000_0000_0000_0000_0000_0000_0000_0000_0000_0000_0000_0000_0000_0000_0000_0000nat
}

/// A 256-bit unsigned integer: `limb3` holds the most significant 64 bits,
/// `limb0` the least significant.
#[derive(Clone, Copy, Debug, PartialEq, Eq, Structural, Hash)]
pub struct Uint256 {
    /// Bits 192..256.
    pub limb3: u64,
    /// Bits 128..192.
    pub limb2: u64,
    /// Bits 64..128.
    pub limb1: u64,
    /// Bits 0..64.
    pub limb0: u64,
}

impl View for Uint256 {
    type V = nat;

    /// The mathematical value of the four limbs.
    open spec fn view(&self) -> nat {
        (self.limb0
            + self.limb1 * 0x1_0000_0000_0000_0000nat
            + self.limb2 * 0x1_0000_0000_0000_0000_0000_0000_0000_0000nat
            + self.limb3 * 0x1_0000_0000_0000_0000_0000_0000_0000_0000_0000_0000_0000_0000nat) as nat
    }
}

/// The decimal digit character for `d < 10`.
pub open spec fn dec_digit(d: nat) -> char {
    if d == 0 {
        '0'
    } else if d == 1 {
        '1'
    } else if d == 2 {
        '2'
    } else if d == 3 {
        '3'
    } else if d == 4 {
        '4'
    } else if d == 5 {
        '5'
    } else if d == 6 {
        '6'
    } else if d == 7 {
        '7'
    } else if d == 8 {
        '8'
    } else {
        '9'
    }
}

/// The decimal digits of `n`, most significant first, with no leading zero
/// except for `n == 0` itself.
pub open spec fn dec_seq(n: nat) -> Seq<char>
    decreases n,
{
    if n < 10 {
        seq![dec_digit(n)]
    } else {
        dec_seq(n / 10).push(dec_digit(n % 10))
    }
}

/// The one-character string for a decimal digit.
fn digit_str(d: u64) -> (r: &'static str)
    requires
        d < 10,
    ensures
        r@ == seq![dec_digit(d as nat)],
{
    proof {
        reveal_strlit("0");
        reveal_strlit("1");
        reveal_strlit("2");
        reveal_strlit("3");
        reveal_strlit("4");
        reveal_strlit("5");
        reveal_strlit("6");
        reveal_strlit("7");
        reveal_strlit("8");
        reveal_strlit("9");
    }
    let r = if d == 0 {
        "0"
    } else if d == 1 {
        "1"
    } else if d == 2 {
        "2"
    } else if d == 3 {
        "3"
    } else if d == 4 {
        "4"
    } else if d == 5 {
        "5"
    } else if d == 6 {
        "6"
    } else if d == 7 {
        "7"
    } else if d == 8 {
        "8"
    } else {
        "9"
    };
    proof {
        assert(r@ =~= seq![dec_digit(d as nat)]);
    }
    r
}

/// The powers of two that separate the limbs, expressed through `pow2`.
proof fn lemma_pow2_values()
    ensures
        pow2(0) == 1,
        pow2(1) == 2,
        pow2(64) == 0x1_0000_0000_0000_0000,
        pow2(128) == 0x1_0000_0000_0000_0000_0000_0000_0000_0000,
        pow2(192) == 0x1_0000_0000_0000_0000_0000_0000_0000_0000_0000_0000_0000_0000,
        pow2(256) == pow2_256(),
{
    lemma2_to64();
    lemma2_to64_rest();
    lemma_pow2_adds(64, 64);
    lemma_pow2_adds(128, 64);
    lemma_pow2_adds(192, 64);
}

/// One step of reading a 256-bit value `n` bit by bit, from the most
/// significant end, by doubling a shift register.
///
/// Before the step, `k` bits of `n` are still unread and the register holds
/// the unread part `n % pow2(k)`, shifted up by `256 - k` bits.  Doubling the
/// register pushes its top bit out as the carry `c`; the lemma identifies that
/// carry as the next bit of `n` and restates the register and the prefix
/// `n / pow2(k)` for the remaining `k - 1` unread bits.
proof fn lemma_double_top_bit(n: nat, k: nat, x: nat, x2: nat, c: nat)
    requires
        1 <= k <= 256,
        x == (n % pow2(k)) * pow2((256 - k) as nat),
        x2 + c * pow2_256() == 2 * x,
        c <= 1,
        x2 < pow2_256(),
    ensures
        c == (n / pow2((k - 1) as nat)) % 2,
        x2 == (n % pow2((k - 1) as nat)) * pow2((257 - k) as nat),
        n / pow2((k - 1) as nat) == 2 * (n / pow2(k)) + c,
{
    let km1 = (k - 1) as nat;
    let i = (256 - k) as nat;
    let b = (n / pow2(km1)) % 2;
    let m = n % pow2(km1);
    lemma_pow2_values();
    lemma_pow2_pos(km1);
    lemma_pow2_pos(i);
    lemma_pow2_adds(km1, 1);
    lemma_pow2_adds(i, 1);
    lemma_pow2_adds(k, i);
    lemma_pow2_adds(km1, (i + 1) as nat);
    lemma_breakdown(n as int, pow2(km1) as int, 2);
    assert(n % pow2(k) == pow2(km1) * b + m);
    lemma_mod_division_less_than_divisor(n as int, pow2(km1) as int);
    assert(2 * x == b * (pow2(km1) * 2 * pow2(i)) + m * (2 * pow2(i))) by (nonlinear_arith)
        requires
            x == (pow2(km1) * b + m) * pow2(i),
    ;
    assert(pow2(km1) * 2 * pow2(i) == pow2_256());
    assert(2 * pow2(i) == pow2((i + 1) as nat));
    assert(2 * x == b * pow2_256() + m * pow2((257 - k) as nat));
    lemma_mul_strict_inequality(m as int, pow2(km1) as int, pow2((257 - k) as nat) as int);
    assert(m * pow2((257 - k) as nat) < pow2(km1) * pow2((257 - k) as nat));
    assert(pow2(km1) * pow2((257 - k) as nat) == pow2_256());
    assert(c == b && x2 == m * pow2((257 - k) as nat));
    lemma_div_denominator(n as int, pow2(km1) as int, 2);
    lemma_fundamental_div_mod((n / pow2(km1)) as int, 2);
}

/// One step of long division, on the mathematical values.
///
/// With `k` bits of the dividend `n` still unread, the quotient `q` and the
/// remainder `r` so far satisfy `q * d + r == n / pow2(k)`.  Taking in the
/// next bit `c` doubles both; the remainder is reduced by `d` exactly when it
/// reached it (`s` is that quotient bit), which keeps it below `d`.
proof fn lemma_div_loop_step(n: nat, d: nat, k: nat, q: nat, r: nat, c: nat, s: nat)
    requires
        1 <= k <= 256,
        d > 0,
        q * d + r == n / pow2(k),
        r < d,
        n / pow2((k - 1) as nat) == 2 * (n / pow2(k)) + c,
        c <= 1,
        s == if 2 * r + c >= d {
            1nat
        } else {
            0nat
        },
    ensures
        (2 * q + s) * d + (2 * r + c - s * d) == n / pow2((k - 1) as nat),
        0 <= 2 * r + c - s * d < d,
        2 * q + s <= n,
{
    lemma_pow2_pos((k - 1) as nat);
    lemma_div_nonincreasing(n as int, pow2((k - 1) as nat) as int);
    assert((2 * q + s) * d == 2 * (q * d) + s * d) by (nonlinear_arith);
    assert(2 * q + s <= (2 * q + s) * d) by (nonlinear_arith)
        requires
            d >= 1,
    ;
}

/// One step of shift-and-add multiplication, on the mathematical values.
///
/// With `k` bits of the factor `b` still unread, the accumulator holds the
/// product of the read prefix `b / pow2(k)` with `a`.  Taking in the next bit
/// `c` doubles the accumulator and adds `c * a`; the new partial product
/// never exceeds the full product `a * b`.
proof fn lemma_mul_loop_step(a: nat, b: nat, k: nat, acc: nat, c: nat)
    requires
        1 <= k <= 256,
        acc == (b / pow2(k)) * a,
        b / pow2((k - 1) as nat) == 2 * (b / pow2(k)) + c,
    ensures
        (b / pow2((k - 1) as nat)) * a == 2 * acc + c * a,
        (b / pow2((k - 1) as nat)) * a <= a * b,
{
    let km1 = (k - 1) as nat;
    let t = b / pow2(k);
    assert((2 * t + c) * a == 2 * (t * a) + c * a) by (nonlinear_arith);
    lemma_pow2_pos(km1);
    lemma_fundamental_div_mod(b as int, pow2(km1) as int);
    assert((b / pow2(km1)) * a <= a * b) by (nonlinear_arith)
        requires
            b == pow2(km1) * (b / pow2(km1)) + b % pow2(km1),
            pow2(km1) >= 1,
            b % pow2(km1) >= 0,
    ;
}

/// Splits a 128-bit value into its low and high 64-bit halves.
proof fn lemma_u128_parts(x: u128)
    by (bit_vector)
    ensures
        x == (x as u64) + (x >> 64) * 0x1_0000_0000_0000_0000,
        x >> 64 == x / 0x1_0000_0000_0000_0000,
{
}

impl Uint256 {
    /// Every `Uint256` value lies below 2^256.
    pub proof fn lemma_view_bound(self)
        ensures
            self@ < pow2_256(),
    {
    }

    /// Constructs the value `limb3 * 2^192 + limb2 * 2^128 + limb1 * 2^64 + limb0`.
    pub fn new(limb3: u64, limb2: u64, limb1: u64, limb0: u64) -> (r: Uint256)
        ensures
            r@ == limb0 + limb1 * 0x1_0000_0000_0000_0000nat
                + limb2 * 0x1_0000_0000_0000_0000_0000_0000_0000_0000nat
                + limb3 * 0x1_0000_0000_0000_0000_0000_0000_0000_0000_0000_0000_0000_0000nat,
    {
        Uint256 { limb3, limb2, limb1, limb0 }
    }

    /// Embeds a 64-bit value.
    pub fn from_u64(n: u64) -> (r: Uint256)
        ensures
            r@ == n,
    {
        Uint256 { limb3: 0, limb2: 0, limb1: 0, limb0: n }
    }

    /// The largest representable value, 2^256 - 1.
    pub fn max_value() -> (r: Uint256)
        ensures
            r@ == pow2_256() - 1,
    {
        Uint256 { limb3: u64::MAX, limb2: u64::MAX, limb1: u64::MAX, limb0: u64::MAX }
    }

    /// Adds limb by limb; the returned flag is the carry out of the top limb,
    /// so the pair represents the exact 257-bit sum.
    fn add_with_carry(&self, rhs: &Uint256) -> (r: (Uint256, u64))
        ensures
            r.0@ + r.1 * pow2_256() == self@ + rhs@,
            r.1 <= 1,
    {
        let s0: u128 = self.limb0 as u128 + rhs.limb0 as u128;
        let r0: u64 = s0 as u64;
        let c0: u64 = (s0 >> 64) as u64;
        proof {
            lemma_u128_parts(s0);
        }
        let s1: u128 = self.limb1 as u128 + rhs.limb1 as u128 + c0 as u128;
        let r1: u64 = s1 as u64;
        let c1: u64 = (s1 >> 64) as u64;
        proof {
            lemma_u128_parts(s1);
        }
        let s2: u128 = self.limb2 as u128 + rhs.limb2 as u128 + c1 as u128;
        let r2: u64 = s2 as u64;
        let c2: u64 = (s2 >> 64) as u64;
        proof {
            lemma_u128_parts(s2);
        }
        let s3: u128 = self.limb3 as u128 + rhs.limb3 as u128 + c2 as u128;
        let r3: u64 = s3 as u64;
        let c3: u64 = (s3 >> 64) as u64;
        proof {
            lemma_u128_parts(s3);
        }
        (Uint256 { limb3: r3, limb2: r2, limb1: r1, limb0: r0 }, c3)
    }

    /// Subtracts limb by limb; the returned flag is the borrow out of the top
    /// limb, so the pair represents the exact difference modulo 2^256.
    fn sub_with_borrow(&self, rhs: &Uint256) -> (r: (Uint256, u64))
        ensures
            r.0@ == self@ - rhs@ + r.1 * pow2_256(),
            r.1 <= 1,
            r.1 == 1 <==> self@ < rhs@,
    {
        let t0: u128 = 0x1_0000_0000_0000_0000u128 + self.limb0 as u128 - rhs.limb0 as u128;
        proof {
            lemma_u128_parts(t0);
        }
        let d0: u64 = t0 as u64;
        let b0: u64 = 1 - ((t0 >> 64) as u64);
        let t1: u128 = 0x1_0000_0000_0000_0000u128 + self.limb1 as u128 - rhs.limb1 as u128
            - b0 as u128;
        proof {
            lemma_u128_parts(t1);
        }
        let d1: u64 = t1 as u64;
        let b1: u64 = 1 - ((t1 >> 64) as u64);
        let t2: u128 = 0x1_0000_0000_0000_0000u128 + self.limb2 as u128 - rhs.limb2 as u128
            - b1 as u128;
        proof {
            lemma_u128_parts(t2);
        }
        let d2: u64 = t2 as u64;
        let b2: u64 = 1 - ((t2 >> 64) as u64);
        let t3: u128 = 0x1_0000_0000_0000_0000u128 + self.limb3 as u128 - rhs.limb3 as u128
            - b2 as u128;
        proof {
            lemma_u128_parts(t3);
        }
        let d3: u64 = t3 as u64;
        let b3: u64 = 1 - ((t3 >> 64) as u64);
        (Uint256 { limb3: d3, limb2: d2, limb1: d1, limb0: d0 }, b3)
    }

    /// Checked subtraction: `Some` exactly when the difference is not
    /// negative, that is when `rhs` does not exceed `self`.
    pub fn checked_sub(&self, rhs: &Uint256) -> (r: Option<Uint256>)
        ensures
            self@ >= rhs@ ==> (r matches Some(d) && d@ == self@ - rhs@),
            self@ < rhs@ ==> r is None,
    {
        let (diff, borrow) = self.sub_with_borrow(rhs);
        if borrow == 0 {
            Some(diff)
        } else {
            None
        }
    }

    /// Checked addition: `Some` exactly when the sum fits in 256 bits.
    pub fn checked_add(&self, rhs: &Uint256) -> (r: Option<Uint256>)
        ensures
            self@ + rhs@ < pow2_256() ==> (r matches Some(s) && s@ == self@ + rhs@),
            self@ + rhs@ >= pow2_256() ==> r is None,
    {
        let (sum, carry) = self.add_with_carry(rhs);
        if carry == 0 {
            Some(sum)
        } else {
            None
        }
    }

    /// Whether the value is zero.
    pub fn is_zero(&self) -> (r: bool)
        ensures
            r <==> self@ == 0,
    {
        self.limb3 == 0 && self.limb2 == 0 && self.limb1 == 0 && self.limb0 == 0
    }

    /// Binary long division: returns the floor quotient and the remainder.
    ///
    /// The dividend is read bit by bit from the most significant end by
    /// doubling a shift register; the remainder is doubled alongside, takes
    /// the incoming bit, and is reduced by the divisor whenever it reaches it,
    /// which sets the matching quotient bit.
    pub fn div_rem(&self, rhs: &Uint256) -> (r: (Uint256, Uint256))
        requires
            rhs@ > 0,
        ensures
            r.0@ == self@ / rhs@,
            r.1@ == self@ % rhs@,
    {
        let ghost n = self@;
        let ghost d = rhs@;
        let mut x = *self;
        let mut quot = Uint256::from_u64(0);
        let mut rem = Uint256::from_u64(0);
        let one = Uint256::from_u64(1);
        proof {
            lemma_pow2_values();
            lemma_small_mod(n, pow2(256));
            lemma_basic_div(n as int, pow2(256) as int);
        }
        let mut i: usize = 0;
        while i < 256
            invariant
                i <= 256,
                n == self@,
                d == rhs@,
                d > 0,
                one@ == 1,
                x@ == (n % pow2((256 - i) as nat)) * pow2(i as nat),
                quot@ * d + rem@ == n / pow2((256 - i) as nat),
                rem@ < d,
            decreases 256 - i,
        {
            let ghost k = (256 - i) as nat;
            let (x2, bit) = x.add_with_carry(&x);
            proof {
                lemma_double_top_bit(n, k, x@, x2@, bit as nat);
            }
            x = x2;
            let (r2, c1) = rem.add_with_carry(&rem);
            let bitv = Uint256::from_u64(bit);
            let (r3, c2) = r2.add_with_carry(&bitv);
            let carried = c1 == 1 || c2 == 1;
            let (rs, bor) = r3.sub_with_borrow(rhs);
            let take = carried || bor == 0;
            let new_rem = if take {
                rs
            } else {
                r3
            };
            let (q2, qc1) = quot.add_with_carry(&quot);
            let (q3, qc2) = if take {
                q2.add_with_carry(&one)
            } else {
                (q2, 0u64)
            };
            proof {
                let s: nat = if take {
                    1
                } else {
                    0
                };
                assert(r3@ + (c1 + c2) * pow2_256() == 2 * rem@ + bit);
                assert(c1 + c2 <= 1);
                assert(take <==> 2 * rem@ + bit >= d);
                lemma_div_loop_step(n, d, k, quot@, rem@, bit as nat, s);
                assert(new_rem@ == 2 * rem@ + bit - s * d);
                assert(q3@ + (qc1 + qc2) * pow2_256() == 2 * quot@ + s);
                assert(qc1 + qc2 == 0);
                assert(q3@ == 2 * quot@ + s);
            }
            quot = q3;
            rem = new_rem;
            i = i + 1;
        }
        proof {
            lemma_pow2_values();
            lemma_div_basics(n as int);
            assert(quot@ * d + rem@ == n);
            lemma_fundamental_div_mod_converse(n as int, d as int, quot@ as int, rem@ as int);
        }
        (quot, rem)
    }

    /// Checked multiplication: `Some` exactly when the product fits in 256
    /// bits.
    ///
    /// Shift-and-add: the bits of `rhs` are read from the most significant
    /// end by doubling a shift register, and the accumulator is doubled and
    /// takes `self` for each set bit.  Any carry out of the accumulator
    /// shows that the full product cannot fit.
    pub fn checked_mul(&self, rhs: &Uint256) -> (r: Option<Uint256>)
        ensures
            self@ * rhs@ < pow2_256() ==> (r matches Some(p) && p@ == self@ * rhs@),
            self@ * rhs@ >= pow2_256() ==> r is None,
    {
        let ghost a = self@;
        let ghost b = rhs@;
        let mut x = *rhs;
        let mut acc = Uint256::from_u64(0);
        let mut overflow = false;
        proof {
            lemma_pow2_values();
            lemma_small_mod(b, pow2(256));
            lemma_basic_div(b as int, pow2(256) as int);
        }
        let mut i: usize = 0;
        while i < 256
            invariant
                i <= 256,
                a == self@,
                b == rhs@,
                x@ == (b % pow2((256 - i) as nat)) * pow2(i as nat),
                !overflow ==> acc@ == (b / pow2((256 - i) as nat)) * a,
                overflow ==> a * b >= pow2_256(),
            decreases 256 - i,
        {
            let ghost k = (256 - i) as nat;
            let (x2, bit) = x.add_with_carry(&x);
            proof {
                lemma_double_top_bit(b, k, x@, x2@, bit as nat);
            }
            x = x2;
            if !overflow {
                let (a2, c1) = acc.add_with_carry(&acc);
                let (a3, c2) = if bit == 1 {
                    a2.add_with_carry(self)
                } else {
                    (a2, 0u64)
                };
                proof {
                    lemma_mul_loop_step(a, b, k, acc@, bit as nat);
                    assert(a3@ + (c1 + c2) * pow2_256() == 2 * acc@ + bit * a);
                }
                if c1 == 1 || c2 == 1 {
                    overflow = true;
                    proof {
                        assert(a * b >= pow2_256());
                    }
                } else {
                    acc = a3;
                    proof {
                        assert(acc@ == (b / pow2((k - 1) as nat)) * a);
                    }
                }
            }
            i = i + 1;
        }
        if overflow {
            None
        } else {
            proof {
                lemma_pow2_values();
                lemma_div_basics(b as int);
                lemma_mul_is_commutative(a as int, b as int);
                assert(acc@ == a * b);
            }
            Some(acc)
        }
    }

    /// Checked multiplication by a 64-bit scalar: `Some` exactly when the
    /// product fits in 256 bits.
    pub fn checked_mul_u64(&self, rhs: u64) -> (r: Option<Uint256>)
        ensures
            self@ * rhs < pow2_256() ==> (r matches Some(p) && p@ == self@ * rhs),
            self@ * rhs >= pow2_256() ==> r is None,
    {
        self.checked_mul(&Uint256::from_u64(rhs))
    }

    /// Checked division: the floor quotient, or `None` exactly when the
    /// divisor is zero.
    pub fn checked_div(&self, rhs: &Uint256) -> (r: Option<Uint256>)
        ensures
            rhs@ > 0 ==> (r matches Some(q) && q@ == self@ / rhs@),
            rhs@ == 0 ==> r is None,
    {
        if rhs.is_zero() {
            None
        } else {
            let (quot, _) = self.div_rem(rhs);
            Some(quot)
        }
    }

    /// The value as a `u64`, for values that fit in 64 bits.
    pub fn to_u64(&self) -> (r: u64)
        requires
            self@ <= u64::MAX,
        ensures
            r == self@,
    {
        self.limb0
    }

    /// The value as a `u64` if it fits in 64 bits, `None` otherwise.
    pub fn try_to_u64(&self) -> (r: Option<u64>)
        ensures
            self@ <= u64::MAX ==> r == Some(self.limb0) && self.limb0 == self@,
            self@ > u64::MAX ==> r is None,
    {
        if self.limb3 == 0 && self.limb2 == 0 && self.limb1 == 0 {
            Some(self.limb0)
        } else {
            None
        }
    }

    /// Renders the value in decimal, without leading zeros.
    pub fn to_decimal_string(&self) -> (r: String)
        ensures
            r@ == dec_seq(self@),
        decreases self@,
    {
        if self.limb3 == 0 && self.limb2 == 0 && self.limb1 == 0 && self.limb0 < 10 {
            let r = digit_str(self.limb0).to_owned();
            proof {
                assert(r@ =~= dec_seq(self@));
            }
            r
        } else {
            let ten = Uint256::from_u64(10);
            let (q, rem) = self.div_rem(&ten);
            let mut r = q.to_decimal_string();
            r.append(digit_str(rem.to_u64()));
            proof {
                assert(r@ =~= dec_seq(self@));
            }
            r
        }
    }

    /// Distinct limb vectors denote distinct values: the view is injective.
    pub proof fn lemma_view_injective(a: Uint256, b: Uint256)
        ensures
            a@ == b@ <==> a == b,
    {
        if a@ == b@ {
            assert(a.limb0 == b.limb0 && a.limb1 == b.limb1 && a.limb2 == b.limb2 && a.limb3
                == b.limb3) by {
                assert((a.limb0 - b.limb0) + (a.limb1 - b.limb1) * 0x1_0000_0000_0000_0000nat + (
                a.limb2 - b.limb2) * 0x1_0000_0000_0000_0000_0000_0000_0000_0000nat + (a.limb3
                    - b.limb3) * 0x1_0000_0000_0000_0000_0000_0000_0000_0000_0000_0000_0000_0000nat
                    == 0);
            }
        }
    }
}

impl PartialOrd for Uint256 {
    /// Compares limbs from the most significant down, which matches the
    /// numeric order of the denoted values.
    fn partial_cmp(&self, other: &Self) -> (r: Option<core::cmp::Ordering>) {
        if self.limb3 != other.limb3 {
            if self.limb3 < other.limb3 {
                Some(core::cmp::Ordering::Less)
            } else {
                Some(core::cmp::Ordering::Greater)
            }
        } else if self.limb2 != other.limb2 {
            if self.limb2 < other.limb2 {
                Some(core::cmp::Ordering::Less)
            } else {
                Some(core::cmp::Ordering::Greater)
            }
        } else if self.limb1 != other.limb1 {
            if self.limb1 < other.limb1 {
                Some(core::cmp::Ordering::Less)
            } else {
                Some(core::cmp::Ordering::Greater)
            }
        } else if self.limb0 != other.limb0 {
            if self.limb0 < other.limb0 {
                Some(core::cmp::Ordering::Less)
            } else {
                Some(core::cmp::Ordering::Greater)
            }
        } else {
            Some(core::cmp::Ordering::Equal)
        }
    }
}

impl vstd::std_specs::cmp::PartialOrdSpecImpl for Uint256 {
    open spec fn obeys_partial_cmp_spec() -> bool {
        true
    }

    open spec fn partial_cmp_spec(&self, other: &Self) -> Option<core::cmp::Ordering> {
        if self@ < other@ {
            Some(core::cmp::Ordering::Less)
        } else if self@ == other@ {
            Some(core::cmp::Ordering::Equal)
        } else {
            Some(core::cmp::Ordering::Greater)
        }
    }
}

} // verus!
