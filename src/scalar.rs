//! Fixed-point decimal scalars: an `i64` counting billionths of a unit.
use vstd::prelude::*;
use vstd::string::StringExecFns;
use crate::text::{decimal, padded, push_decimal, push_padded, strip_trailing_zeros, strip_zeros};

verus! {

/// Number of raw units in one whole unit.
pub const SCALE: i64 = 1_000_000_000;

/// Largest magnitude a raw value may have (`i64::MIN` is left out so that
/// negation is always defined).
pub const RAW_MAX: i64 = 9_223_372_036_854_775_807;

/// Whether an exact raw value can be held by a `Scalar`.
pub open spec fn fits(x: int) -> bool {
    -(RAW_MAX as int) <= x <= RAW_MAX as int
}

/// Division of `a` by a positive `d`, rounded toward zero.
pub open spec fn tdiv(a: int, d: int) -> int {
    if a >= 0 {
        a / d
    } else {
        -((-a) / d)
    }
}

pub open spec fn abs(a: int) -> int {
    if a >= 0 {
        a
    } else {
        -a
    }
}

/// Raw value of the product of two raw values, rounded toward zero.
pub open spec fn mul_raw(a: int, b: int) -> int {
    tdiv(a * b, SCALE as int)
}

/// Raw value of the quotient of two raw values (`b != 0`), rounded toward zero.
pub open spec fn div_raw(a: int, b: int) -> int {
    if b > 0 {
        tdiv(a * SCALE, b)
    } else {
        tdiv(-(a * SCALE), -b)
    }
}

/// `r` is the integer square root of `n`.
pub open spec fn is_isqrt(n: int, r: int) -> bool {
    0 <= r && r * r <= n < (r + 1) * (r + 1)
}

/// Default absolute tolerance of `approx_eq`: about the square root of the
/// machine epsilon of a double, 1.5e-8.
pub const DEFAULT_ATOL: i64 = 15;

/// Default relative tolerance of `approx_eq`: 1e-5.
pub const DEFAULT_RTOL: i64 = 10_000;

/// `|a - b| <= atol + rtol * |b|`, with the product rounded as `mul` rounds it.
pub open spec fn approx_eq_spec(a: int, b: int, atol: int, rtol: int) -> bool {
    abs(a - b) <= atol + mul_raw(rtol, abs(b))
}

/// The integer square root of a non-negative `n`.
pub open spec fn isqrt(n: int) -> int {
    choose|r: int| #[trigger] is_isqrt(n, r)
}

/// `x` raised to the power `n`, multiplied out one factor at a time, each
/// product rounded as scalars round it.
pub open spec fn pow_raw(x: int, n: nat) -> int
    decreases n,
{
    if n == 0 {
        SCALE as int
    } else {
        mul_raw(pow_raw(x, (n - 1) as nat), x)
    }
}

/// Every partial power of `x` up to the `n`-th is in range.
pub open spec fn pow_in_range(x: int, n: nat) -> bool {
    forall|k: nat| k <= n ==> fits(#[trigger] pow_raw(x, k))
}

/// Number of binary digits of a fractional exponent that `powf` uses.
pub const FRACTION_BITS: u32 = 30;

/// State after `k` steps of raising `x` to the fraction `f / SCALE` by its
/// binary digits: the product so far, the `2^k`-th root of `x` (`k` square
/// roots, each rounded down), and the remainder that yields the next digit.
/// Digit `k` is one when twice the remainder reaches `SCALE`; then the
/// product takes the `2^k`-th root as a factor.
pub open spec fn frac_pow_state(x: int, f: int, k: nat) -> (int, int, int)
    decreases k,
{
    if k == 0 {
        (SCALE as int, x, f)
    } else {
        let (acc, root, rem) = frac_pow_state(x, f, (k - 1) as nat);
        let next = isqrt(root * SCALE);
        if 2 * rem >= SCALE {
            (mul_raw(acc, next), next, 2 * rem - SCALE)
        } else {
            (acc, next, 2 * rem)
        }
    }
}

/// Every product taken in the first `k` steps of `frac_pow_state` is in
/// range.
pub open spec fn frac_pow_in_range(x: int, f: int, k: nat) -> bool
    decreases k,
{
    if k == 0 {
        true
    } else {
        let (acc, root, rem) = frac_pow_state(x, f, (k - 1) as nat);
        let next = isqrt(root * SCALE);
        frac_pow_in_range(x, f, (k - 1) as nat) && (2 * rem >= SCALE ==> fits(mul_raw(acc, next)))
    }
}

/// `x` raised to the power `e` (raw values, `x >= 0`): the whole part of
/// `|e|` by repeated products, times the fractional part by its first
/// `FRACTION_BITS` binary digits; for a negative `e`, one over that.
pub open spec fn powf_raw(x: int, e: int) -> int {
    let a = abs(e);
    let p = mul_raw(pow_raw(x, (a / SCALE as int) as nat), frac_pow_state(x, a % SCALE as int, FRACTION_BITS as nat).0);
    if e >= 0 {
        p
    } else {
        div_raw(SCALE as int, p)
    }
}

/// Every value computed on the way to `powf_raw(x, e)` is in range, and
/// for a negative `e` the positive power is not zero.
pub open spec fn powf_in_range(x: int, e: int) -> bool {
    let a = abs(e);
    let w = pow_raw(x, (a / SCALE as int) as nat);
    let fp = frac_pow_state(x, a % SCALE as int, FRACTION_BITS as nat).0;
    let p = mul_raw(w, fp);
    &&& pow_in_range(x, (a / SCALE as int) as nat)
    &&& frac_pow_in_range(x, a % SCALE as int, FRACTION_BITS as nat)
    &&& fits(p)
    &&& e < 0 ==> p != 0 && fits(div_raw(SCALE as int, p))
}

pub open spec fn pow10(n: nat) -> int
    decreases n,
{
    if n == 0 {
        1
    } else {
        10 * pow10((n - 1) as nat)
    }
}

/// The shortest decimal text of the raw value `v`: a minus sign when it is
/// negative, the whole part, and the fraction without trailing zeros (none
/// at all, point included, when it is zero).
pub open spec fn scalar_text(v: int) -> Seq<char> {
    let a = abs(v);
    let sign = if v < 0 {
        seq!['-']
    } else {
        Seq::empty()
    };
    let whole = decimal((a / SCALE as int) as nat);
    let f = strip_zeros((a % SCALE as int) as nat, 9);
    if f.1 == 0 {
        sign + whole
    } else {
        sign + whole + seq!['.'] + padded(f.0, f.1)
    }
}

/// The text of the raw value `v` rounded to `places` decimals (halves away
/// from zero), with a minus sign when `v` is negative and, when `plus`, a
/// plus sign otherwise.
pub open spec fn scalar_text_places(v: int, places: nat, plus: bool) -> Seq<char> {
    let a = abs(v);
    let unit = pow10((9 - places) as nat);
    let q = ((a + unit / 2) / unit) as nat;
    let sign = if v < 0 {
        seq!['-']
    } else if plus {
        seq!['+']
    } else {
        Seq::empty()
    };
    let whole = decimal(q / pow10(places) as nat);
    if places == 0 {
        sign + whole
    } else {
        sign + whole + seq!['.'] + padded(q % pow10(places) as nat, places)
    }
}

/// A real number held exactly as a whole count of billionths.
#[derive(Clone, Copy, Debug, PartialEq, Eq, Structural)]
pub struct Scalar {
    pub raw: i64,
}

impl View for Scalar {
    type V = int;

    open spec fn view(&self) -> int {
        self.raw as int
    }
}

impl Scalar {
    pub fn zero() -> (r: Scalar)
        ensures
            r@ == 0,
    {
        Scalar { raw: 0 }
    }

    pub fn one() -> (r: Scalar)
        ensures
            r@ == SCALE,
    {
        Scalar { raw: SCALE }
    }

    pub fn from_raw(raw: i64) -> (r: Scalar)
        ensures
            r@ == raw,
    {
        Scalar { raw }
    }

    /// The whole number `n`.
    pub fn from_int(n: i32) -> (r: Scalar)
        ensures
            r@ == n * SCALE,
    {
        Scalar { raw: (n as i64) * SCALE }
    }

    /// The decimal `mantissa * 10^(-places)`, e.g. `decimal(43, 1)` is 4.3.
    pub fn decimal(mantissa: i64, places: u32) -> (r: Scalar)
        requires
            places <= 9,
            fits(mantissa * pow10((9 - places) as nat)),
        ensures
            r@ == mantissa * pow10((9 - places) as nat),
    {
        let factor = pow10_exec(9 - places) as i64;
        proof {
            lemma_pow10_bounds((9 - places) as nat);
            assert(abs(mantissa * factor) <= RAW_MAX) by (nonlinear_arith)
                requires
                    fits(mantissa * factor),
            ;
        }
        Scalar { raw: mantissa * factor }
    }

    pub fn add(self, rhs: Scalar) -> (r: Scalar)
        requires
            fits(self@ + rhs@),
        ensures
            r@ == self@ + rhs@,
    {
        Scalar { raw: self.raw + rhs.raw }
    }

    pub fn sub(self, rhs: Scalar) -> (r: Scalar)
        requires
            fits(self@ - rhs@),
        ensures
            r@ == self@ - rhs@,
    {
        Scalar { raw: self.raw - rhs.raw }
    }

    pub fn neg(self) -> (r: Scalar)
        requires
            fits(self@),
        ensures
            r@ == -self@,
    {
        Scalar { raw: -self.raw }
    }

    pub fn mul(self, rhs: Scalar) -> (r: Scalar)
        requires
            fits(mul_raw(self@, rhs@)),
        ensures
            r@ == mul_raw(self@, rhs@),
    {
        let p: i128 = (self.raw as i128) * (rhs.raw as i128);
        let q: i128 = if p >= 0 {
            p / (SCALE as i128)
        } else {
            -((-p) / (SCALE as i128))
        };
        Scalar { raw: q as i64 }
    }

    pub fn div(self, rhs: Scalar) -> (r: Scalar)
        requires
            rhs@ != 0,
            fits(div_raw(self@, rhs@)),
        ensures
            r@ == div_raw(self@, rhs@),
    {
        match self.checked_div(rhs) {
            Some(q) => q,
            None => Scalar::zero(),
        }
    }

    /// The sum, or `None` when it is out of range.
    pub fn checked_add(self, rhs: Scalar) -> (r: Option<Scalar>)
        ensures
            r is Some <==> fits(self@ + rhs@),
            r matches Some(v) ==> v@ == self@ + rhs@,
    {
        let v: i128 = (self.raw as i128) + (rhs.raw as i128);
        if -(RAW_MAX as i128) <= v && v <= RAW_MAX as i128 {
            Some(Scalar { raw: v as i64 })
        } else {
            None
        }
    }

    /// The difference, or `None` when it is out of range.
    pub fn checked_sub(self, rhs: Scalar) -> (r: Option<Scalar>)
        ensures
            r is Some <==> fits(self@ - rhs@),
            r matches Some(v) ==> v@ == self@ - rhs@,
    {
        let v: i128 = (self.raw as i128) - (rhs.raw as i128);
        if -(RAW_MAX as i128) <= v && v <= RAW_MAX as i128 {
            Some(Scalar { raw: v as i64 })
        } else {
            None
        }
    }

    /// The product, or `None` when it is out of range.
    pub fn checked_mul(self, rhs: Scalar) -> (r: Option<Scalar>)
        ensures
            r is Some <==> fits(mul_raw(self@, rhs@)),
            r matches Some(v) ==> v@ == mul_raw(self@, rhs@),
    {
        let v: i128 = wide_mul(self, rhs);
        if -(RAW_MAX as i128) <= v && v <= RAW_MAX as i128 {
            Some(Scalar { raw: v as i64 })
        } else {
            None
        }
    }

    /// The quotient, or `None` when `rhs` is zero or the quotient is out of
    /// range.
    pub fn checked_div(self, rhs: Scalar) -> (r: Option<Scalar>)
        ensures
            r is Some <==> rhs@ != 0 && fits(div_raw(self@, rhs@)),
            r matches Some(q) ==> q@ == div_raw(self@, rhs@),
    {
        checked_div_wide(self.raw as i128, rhs)
    }

    /// `self` raised to the power `n`, or `None` when a partial power is out
    /// of range.
    pub fn checked_pow(self, n: u64) -> (r: Option<Scalar>)
        ensures
            r is Some <==> pow_in_range(self@, n as nat),
            r matches Some(v) ==> v@ == pow_raw(self@, n as nat),
    {
        let mut acc = Scalar::one();
        let mut k: u64 = 0;
        assert(pow_raw(self@, 0) == SCALE);
        while k < n
            invariant
                0 <= k <= n,
                acc@ == pow_raw(self@, k as nat),
                forall|j: nat| j <= k ==> fits(#[trigger] pow_raw(self@, j)),
            decreases n - k,
        {
            acc = match acc.checked_mul(self) {
                Some(v) => v,
                None => {
                    assert(!fits(pow_raw(self@, (k + 1) as nat)));
                    return None;
                },
            };
            k = k + 1;
            assert(forall|j: nat| j <= k ==> fits(#[trigger] pow_raw(self@, j)));
        }
        Some(acc)
    }

    /// `self` raised to the fractional power `f / SCALE` (`0 <= f < SCALE`)
    /// by its binary digits, or `None` when a product is out of range.
    pub fn checked_frac_pow(self, f: i64) -> (r: Option<Scalar>)
        requires
            self@ >= 0,
            0 <= f < SCALE,
        ensures
            r is Some <==> frac_pow_in_range(self@, f as int, FRACTION_BITS as nat),
            r matches Some(v) ==> v@ == frac_pow_state(self@, f as int, FRACTION_BITS as nat).0,
    {
        let mut acc = Scalar::one();
        let mut root = self;
        let mut rem: i64 = f;
        let mut k: u32 = 0;
        while k < FRACTION_BITS
            invariant
                0 <= k <= FRACTION_BITS,
                0 <= rem < SCALE,
                root@ >= 0,
                self@ >= 0,
                frac_pow_state(self@, f as int, k as nat) == (acc@, root@, rem as int),
                frac_pow_in_range(self@, f as int, k as nat),
            decreases FRACTION_BITS - k,
        {
            let next = root.sqrt();
            if 2 * rem >= SCALE {
                acc = match acc.checked_mul(next) {
                    Some(v) => v,
                    None => {
                        proof {
                            assert(!frac_pow_in_range(self@, f as int, (k + 1) as nat));
                            if frac_pow_in_range(self@, f as int, FRACTION_BITS as nat) {
                                lemma_frac_pow_in_range_prefix(
                                    self@,
                                    f as int,
                                    (k + 1) as nat,
                                    FRACTION_BITS as nat,
                                );
                            }
                        }
                        return None;
                    },
                };
                rem = 2 * rem - SCALE;
            } else {
                rem = 2 * rem;
            }
            root = next;
            k = k + 1;
        }
        Some(acc)
    }

    /// `self` raised to the power `e`, or `None` when a value on the way is
    /// out of range (or, for a negative `e`, the positive power is zero).
    pub fn checked_powf(self, e: Scalar) -> (r: Option<Scalar>)
        requires
            self@ >= 0,
        ensures
            r is Some <==> powf_in_range(self@, e@),
            r matches Some(v) ==> v@ == powf_raw(self@, e@),
    {
        let a: u64 = if e.raw < 0 {
            (-(e.raw as i128)) as u64
        } else {
            e.raw as u64
        };
        let whole = match self.checked_pow(a / (SCALE as u64)) {
            Some(v) => v,
            None => return None,
        };
        let frac = match self.checked_frac_pow((a % (SCALE as u64)) as i64) {
            Some(v) => v,
            None => return None,
        };
        let p = match whole.checked_mul(frac) {
            Some(v) => v,
            None => return None,
        };
        if e.raw >= 0 {
            Some(p)
        } else if p.raw == 0 {
            None
        } else {
            Scalar::one().checked_div(p)
        }
    }

    /// Square root, rounded down to the raw unit.
    pub fn sqrt(self) -> (r: Scalar)
        requires
            self@ >= 0,
        ensures
            is_isqrt(self@ * SCALE, r@),
            r@ == isqrt(self@ * SCALE),
    {
        let n: u128 = (self.raw as u128) * (SCALE as u128);
        proof {
            assert(n < 0x8000_0000_0000 * 0x8000_0000_0000) by (nonlinear_arith)
                requires
                    n == self@ * SCALE,
                    0 <= self@ <= RAW_MAX,
            ;
        }
        let lo = isqrt_u128(n);
        proof {
            if lo >= 0x8000_0000_0000 {
                assert(lo * lo >= 0x8000_0000_0000 * 0x8000_0000_0000) by (nonlinear_arith)
                    requires
                        lo >= 0x8000_0000_0000,
                ;
            }
        }
        Scalar { raw: lo as i64 }
    }

    /// Appends the shortest decimal text of the value.
    pub fn push_text(self, s: &mut String)
        ensures
            final(s)@ == old(s)@ + scalar_text(self@),
    {
        let a: u64 = if self.raw < 0 {
            s.append("-");
            (-(self.raw as i128)) as u64
        } else {
            self.raw as u64
        };
        proof {
            reveal_strlit("-");
        }
        push_decimal(s, a / (SCALE as u64));
        let (f, k) = strip_trailing_zeros(a % (SCALE as u64), 9);
        if k != 0 {
            s.append(".");
            proof {
                reveal_strlit(".");
            }
            push_padded(s, f, k);
        }
        assert(final(s)@ =~= old(s)@ + scalar_text(self@));
    }

    /// The shortest decimal text of the value, e.g. `-4.2` or `3`.
    pub fn to_string(&self) -> (r: String)
        ensures
            r@ == scalar_text(self@),
    {
        let mut s = String::new();
        self.push_text(&mut s);
        s
    }

    /// Appends the text of the value rounded to `places` decimals, with a
    /// plus sign on values that are not negative when `plus`.
    pub fn push_text_places(self, s: &mut String, places: u32, plus: bool)
        requires
            places <= 9,
        ensures
            final(s)@ == old(s)@ + scalar_text_places(self@, places as nat, plus),
    {
        proof {
            reveal_strlit("-");
            reveal_strlit("+");
            reveal_strlit(".");
        }
        let a: u64 = if self.raw < 0 {
            s.append("-");
            (-(self.raw as i128)) as u64
        } else {
            if plus {
                s.append("+");
            }
            self.raw as u64
        };
        let unit = pow10_exec(9 - places);
        let whole_unit = pow10_exec(places);
        proof {
            lemma_pow10_bounds((9 - places) as nat);
            lemma_pow10_bounds(places as nat);
        }
        let q: u64 = (a + unit / 2) / unit;
        push_decimal(s, q / whole_unit);
        if places != 0 {
            s.append(".");
            push_padded(s, q % whole_unit, places);
        }
        assert(final(s)@ =~= old(s)@ + scalar_text_places(self@, places as nat, plus));
    }

    /// Whether `self` is within `atol + rtol * |other|` of `other`.
    pub fn approx_eq_tol(self, other: Scalar, atol: Scalar, rtol: Scalar) -> (r: bool)
        ensures
            r == approx_eq_spec(self@, other@, atol@, rtol@),
    {
        let d: i128 = (self.raw as i128) - (other.raw as i128);
        let d: i128 = if d >= 0 {
            d
        } else {
            -d
        };
        let b: i128 = if other.raw >= 0 {
            other.raw as i128
        } else {
            -(other.raw as i128)
        };
        proof {
            assert(-0x8000_0000_0000_0000 * 0x8000_0000_0000_0000 <= rtol@ * b
                <= 0x8000_0000_0000_0000 * 0x8000_0000_0000_0000) by (nonlinear_arith)
                requires
                    -0x8000_0000_0000_0000 <= rtol@ < 0x8000_0000_0000_0000,
                    0 <= b <= 0x8000_0000_0000_0000,
            ;
        }
        let p: i128 = (rtol.raw as i128) * b;
        let m: i128 = if p >= 0 {
            p / (SCALE as i128)
        } else {
            -((-p) / (SCALE as i128))
        };
        d <= (atol.raw as i128) + m
    }

    /// Approximate equality with the default tolerances: an absolute
    /// tolerance of `DEFAULT_ATOL` and a relative one of `DEFAULT_RTOL`.
    pub fn approx_eq(self, other: Scalar) -> (r: bool)
        ensures
            r == approx_eq_spec(self@, other@, DEFAULT_ATOL as int, DEFAULT_RTOL as int),
    {
        self.approx_eq_tol(other, Scalar { raw: DEFAULT_ATOL }, Scalar { raw: DEFAULT_RTOL })
    }
}

/// The quotient of the raw value `n` by `d`, or `None` when `d` is zero or
/// the quotient is out of range.
pub(crate) fn checked_div_wide(n: i128, d: Scalar) -> (r: Option<Scalar>)
    requires
        abs(n as int) <= 0x1_0000_0000_0000_0000,
    ensures
        r is Some <==> d@ != 0 && fits(div_raw(n as int, d@)),
        r matches Some(q) ==> q@ == div_raw(n as int, d@),
{
    if d.raw == 0 {
        return None;
    }
    proof {
        assert(abs(n * SCALE) <= 0x1_0000_0000_0000_0000 * SCALE) by (nonlinear_arith)
            requires
                abs(n as int) <= 0x1_0000_0000_0000_0000,
        ;
    }
    let n: i128 = n * (SCALE as i128);
    let q: i128 = if d.raw > 0 {
        if n >= 0 {
            n / (d.raw as i128)
        } else {
            -((-n) / (d.raw as i128))
        }
    } else {
        let e: i128 = -(d.raw as i128);
        if n <= 0 {
            (-n) / e
        } else {
            -(n / e)
        }
    };
    if -(RAW_MAX as i128) <= q && q <= RAW_MAX as i128 {
        Some(Scalar { raw: q as i64 })
    } else {
        None
    }
}

/// A bound on the magnitude of every product `wide_mul` returns (2^97).
pub const WIDE_BOUND: i128 = 0x2_0000_0000_0000_0000_0000_0000;

/// The exact raw product of two scalars, rounded as `Scalar::mul` rounds it,
/// held wide enough that it never overflows.
pub(crate) fn wide_mul(a: Scalar, b: Scalar) -> (r: i128)
    ensures
        r == mul_raw(a@, b@),
        abs(r as int) <= WIDE_BOUND,
{
    proof {
        assert(-0x8000_0000_0000_0000 * 0x8000_0000_0000_0000 <= a@ * b@
            <= 0x8000_0000_0000_0000 * 0x8000_0000_0000_0000) by (nonlinear_arith)
            requires
                -0x8000_0000_0000_0000 <= a@ < 0x8000_0000_0000_0000,
                -0x8000_0000_0000_0000 <= b@ < 0x8000_0000_0000_0000,
        ;
    }
    let p: i128 = (a.raw as i128) * (b.raw as i128);
    if p >= 0 {
        p / (SCALE as i128)
    } else {
        -((-p) / (SCALE as i128))
    }
}

/// Division rounded toward zero keeps order: `a <= b` gives
/// `tdiv(a, d) <= tdiv(b, d)` for a positive `d`.
pub proof fn lemma_tdiv_monotone(a: int, b: int, d: int)
    requires
        a <= b,
        d > 0,
    ensures
        tdiv(a, d) <= tdiv(b, d),
{
    if a >= 0 {
        vstd::arithmetic::div_mod::lemma_div_is_ordered(a, b, d);
    } else if b >= 0 {
        vstd::arithmetic::div_mod::lemma_div_pos_is_pos(-a, d);
        vstd::arithmetic::div_mod::lemma_div_pos_is_pos(b, d);
    } else {
        vstd::arithmetic::div_mod::lemma_div_is_ordered(-b, -a, d);
    }
}

/// The integer square root of `n`, by bisection.
pub fn isqrt_u128(n: u128) -> (r: u128)
    ensures
        is_isqrt(n as int, r as int),
        r == isqrt(n as int),
{
    let mut lo: u128 = 0;
    let mut hi: u128 = 0x1_0000_0000_0000_0000;
    proof {
        assert(n < 0x1_0000_0000_0000_0000 * 0x1_0000_0000_0000_0000);
    }
    while lo + 1 < hi
        invariant
            lo < hi <= 0x1_0000_0000_0000_0000,
            lo * lo <= n < hi * hi,
        decreases hi - lo,
    {
        let mid: u128 = lo + (hi - lo) / 2;
        proof {
            assert(mid * mid < 0x1_0000_0000_0000_0000 * 0x1_0000_0000_0000_0000) by (nonlinear_arith)
                requires
                    mid < 0x1_0000_0000_0000_0000,
            ;
        }
        if mid * mid <= n {
            lo = mid;
        } else {
            hi = mid;
        }
    }
    proof {
        assert(is_isqrt(n as int, lo as int));
        let c = choose|c: int| #[trigger] is_isqrt(n as int, c);
        lemma_isqrt_unique(n as int, c, lo as int);
    }
    lo
}

/// Products in range for `n` steps are in range for the first `m <= n`.
proof fn lemma_frac_pow_in_range_prefix(x: int, f: int, m: nat, n: nat)
    requires
        m <= n,
        frac_pow_in_range(x, f, n),
    ensures
        frac_pow_in_range(x, f, m),
    decreases n,
{
    if m < n {
        lemma_frac_pow_in_range_prefix(x, f, m, (n - 1) as nat);
    }
}

/// Every non-negative integer has an integer square root, and `isqrt` is it.
pub proof fn lemma_isqrt_exists(n: int)
    requires
        n >= 0,
    ensures
        is_isqrt(n, isqrt(n)),
{
    let r = isqrt_witness(n);
    assert(is_isqrt(n, r));
}

/// An integer square root of `n`, found by counting up.
proof fn isqrt_witness(n: int) -> (r: int)
    requires
        n >= 0,
    ensures
        is_isqrt(n, r),
    decreases n,
{
    if n == 0 {
        assert(is_isqrt(0, 0));
        0
    } else {
        let r = isqrt_witness(n - 1);
        if (r + 1) * (r + 1) <= n {
            assert(is_isqrt(n, r + 1)) by (nonlinear_arith)
                requires
                    (r + 1) * (r + 1) <= n,
                    n - 1 < (r + 1) * (r + 1),
                    r >= 0,
            ;
            r + 1
        } else {
            assert(is_isqrt(n, r));
            r
        }
    }
}

/// Integer square roots are unique.
pub proof fn lemma_isqrt_unique(n: int, r1: int, r2: int)
    requires
        is_isqrt(n, r1),
        is_isqrt(n, r2),
    ensures
        r1 == r2,
{
    if r1 < r2 {
        assert((r1 + 1) * (r1 + 1) <= r2 * r2) by (nonlinear_arith)
            requires
                0 <= r1 < r2,
        ;
    } else if r2 < r1 {
        assert((r2 + 1) * (r2 + 1) <= r1 * r1) by (nonlinear_arith)
            requires
                0 <= r2 < r1,
        ;
    }
}

/// `10^n`.
fn pow10_exec(n: u32) -> (r: u64)
    requires
        n <= 9,
    ensures
        r == pow10(n as nat),
{
    let mut r: u64 = 1;
    let mut k: u32 = 0;
    while k < n
        invariant
            k <= n <= 9,
            r == pow10(k as nat),
        decreases n - k,
    {
        proof {
            lemma_pow10_bounds(k as nat);
        }
        r = r * 10;
        k = k + 1;
    }
    r
}

pub proof fn lemma_pow10_bounds(n: nat)
    requires
        n <= 9,
    ensures
        1 <= pow10(n) <= 1_000_000_000,
        n < 9 ==> pow10(n) <= 100_000_000,
{
    reveal_with_fuel(pow10, 10);
    if n == 0 {
    } else if n == 1 {
    } else if n == 2 {
    } else if n == 3 {
    } else if n == 4 {
    } else if n == 5 {
    } else if n == 6 {
    } else if n == 7 {
    } else if n == 8 {
    } else {
    }
}

} // verus!
