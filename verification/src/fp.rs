//! A fixed-point decimal codec: values carry `DECIMALS` fractional digits
//! scaled into an `i128` mantissa.
//!
//! The parser reads an optional sign, a run of integer digits, a mandatory
//! decimal point, and exactly `N` fractional digits.  Every malformed input
//! is a typed error, never a fault: a bad integer digit, a bad or truncated
//! fraction, a missing separator, trailing bytes after the fraction, and any
//! value that does not fit the mantissa are each reported as their own kind.

use std::str::FromStr;
use vstd::prelude::*;

verus! {

/// A decimal number held as `mantissa / 10^DECIMALS`.
#[derive(Copy, Clone, Debug, PartialEq, Eq)]
pub struct Fp<const DECIMALS: usize>(pub i128);

/// A parse failure, carrying which rule the input broke.
#[derive(Debug, Clone, PartialEq, Eq, Structural)]
pub struct ParseFpError {
    pub kind: FpErrorKind,
}

/// The ways an input can fail to parse.
#[derive(Debug, Clone, PartialEq, Eq, Structural)]
#[non_exhaustive]
pub enum FpErrorKind {
    /// A non-digit where the integer part's digits belong.
    InvalidInteger,
    /// A non-digit within, or too few, fractional digits.
    InvalidFraction,
    /// No decimal separator at all.
    InvalidFormat,
    /// Bytes left over after the expected fractional digits.
    TooManyDecimals,
    /// The value does not fit the mantissa.
    Overflow,
}

/// The bytes the grammar singles out: the minus sign, the separator, and
/// the decimal digits.
pub const MINUS: u8 = 45;

pub const DOT: u8 = 46;

pub const DIGIT_ZERO: u8 = 48;

pub const DIGIT_NINE: u8 = 57;

pub open spec fn is_ascii_digit(c: u8) -> bool {
    DIGIT_ZERO <= c <= DIGIT_NINE
}

pub open spec fn digit_val(c: u8) -> int {
    c - DIGIT_ZERO
}

/// Ten to the `n`th.
pub open spec fn pow10(n: nat) -> int
    decreases n,
{
    if n == 0 {
        1
    } else {
        10 * pow10((n - 1) as nat)
    }
}

pub proof fn lemma_pow10_pos(n: nat)
    ensures
        pow10(n) >= 1,
    decreases n,
{
    if n > 0 {
        lemma_pow10_pos((n - 1) as nat);
    }
}

pub proof fn lemma_pow10_mono(a: nat, b: nat)
    requires
        a <= b,
    ensures
        pow10(a) <= pow10(b),
    decreases b,
{
    if a < b {
        lemma_pow10_mono(a, (b - 1) as nat);
        lemma_pow10_pos((b - 1) as nat);
    }
}

/// Scan the integer part from position `i` with the digits seen so far worth
/// `acc`.  Stops past the separator, and reports the first rule broken:
/// a non-digit, a mantissa overflow, or running out without a separator.
pub open spec fn scan_integer(s: Seq<u8>, i: int, acc: int) -> Result<(int, int), FpErrorKind>
    decreases s.len() - i,
{
    if i < 0 || i >= s.len() {
        Err(FpErrorKind::InvalidFormat)
    } else if s[i] == DOT {
        Ok((acc, i + 1))
    } else if is_ascii_digit(s[i]) {
        if acc * 10 + digit_val(s[i]) > i128::MAX {
            Err(FpErrorKind::Overflow)
        } else {
            scan_integer(s, i + 1, acc * 10 + digit_val(s[i]))
        }
    } else {
        Err(FpErrorKind::InvalidInteger)
    }
}

/// Scan fractional digits from position `i`, `j` of `n` read so far, worth
/// `acc`.  A non-digit or a truncated fraction is `InvalidFraction`.
pub open spec fn scan_fraction(s: Seq<u8>, i: int, j: int, n: int, acc: int) -> Result<
    (int, int),
    FpErrorKind,
>
    decreases n - j,
{
    if j >= n {
        Ok((acc, i))
    } else if i < 0 || i >= s.len() {
        Err(FpErrorKind::InvalidFraction)
    } else if is_ascii_digit(s[i]) {
        if acc * 10 + digit_val(s[i]) > i128::MAX {
            Err(FpErrorKind::Overflow)
        } else {
            scan_fraction(s, i + 1, j + 1, n, acc * 10 + digit_val(s[i]))
        }
    } else {
        Err(FpErrorKind::InvalidFraction)
    }
}

/// What parsing `s` with scale `decimals` and `n` fractional digits yields:
/// the signed mantissa, or the first error the scan meets.
pub open spec fn spec_parse(s: Seq<u8>, decimals: nat, n: nat) -> Result<int, FpErrorKind> {
    if pow10(decimals) > i128::MAX {
        Err(FpErrorKind::Overflow)
    } else {
        let neg = s.len() > 0 && s[0] == MINUS;
        let start: int = if neg {
            1
        } else {
            0
        };
        match scan_integer(s, start, 0) {
            Err(e) => Err(e),
            Ok((int_val, i1)) => match scan_fraction(s, i1, 0, n as int, 0) {
                Err(e) => Err(e),
                Ok((frac_val, i2)) => {
                    if i2 < s.len() {
                        Err(FpErrorKind::TooManyDecimals)
                    } else if int_val * pow10(decimals) + frac_val > i128::MAX {
                        Err(FpErrorKind::Overflow)
                    } else if neg {
                        Ok(-(int_val * pow10(decimals) + frac_val))
                    } else {
                        Ok(int_val * pow10(decimals) + frac_val)
                    }
                },
            },
        }
    }
}

/// `|a|`.
pub open spec fn abs_of(a: int) -> int {
    if a >= 0 {
        a
    } else {
        -a
    }
}

/// Division as the machine rounds it: the magnitudes divided, the sign by
/// the operands' signs (truncation toward zero).
pub open spec fn trunc_div(a: int, b: int) -> int {
    let q = abs_of(a) / abs_of(b);
    if (a >= 0) == (b >= 0) {
        q
    } else {
        -q
    }
}

/// `10^n` as a mantissa, or `None` when it does not fit.
fn pow10_i128(n: usize) -> (r: Option<i128>)
    ensures
        r matches Some(v) ==> v == pow10(n as nat) && pow10(n as nat) <= i128::MAX,
        r is None ==> pow10(n as nat) > i128::MAX,
{
    let mut acc: i128 = 1;
    let mut k: usize = 0;
    while k < n
        invariant
            k <= n,
            acc == pow10(k as nat),
            acc >= 1,
        decreases n - k,
    {
        acc = match acc.checked_mul(10) {
            Some(v) => v,
            None => {
                proof {
                    lemma_pow10_mono((k + 1) as nat, n as nat);
                }
                return None;
            },
        };
        k = k + 1;
    }
    Some(acc)
}

impl<const DECIMALS: usize> Fp<DECIMALS> {
    /// Parse a byte string with exactly `N` fractional digits into a value
    /// scaled by `10^DECIMALS`.  Total: every input yields the value or the
    /// typed error that `spec_parse` assigns to it.
    pub fn from_bytes<const N: usize>(buf: &[u8]) -> (r: Result<Self, ParseFpError>)
        ensures
            (match r {
                Ok(fp) => spec_parse(buf@, DECIMALS as nat, N as nat) == Ok::<int, FpErrorKind>(
                    fp.0 as int,
                ),
                Err(e) => spec_parse(buf@, DECIMALS as nat, N as nat) == Err::<int, FpErrorKind>(
                    e.kind,
                ),
            }),
    {
        let ghost s = buf@;
        let scale = match pow10_i128(DECIMALS) {
            Some(v) => v,
            None => {
                return Err(ParseFpError { kind: FpErrorKind::Overflow });
            },
        };
        proof {
            lemma_pow10_pos(DECIMALS as nat);
        }

        let mut i: usize = 0;
        if buf.len() > 0 && buf[0] == MINUS {
            i = 1;
        }
        let neg = i == 1;
        let ghost start = i as int;

        // Integer part: accumulate digits until the separator.
        let mut int_val: i128 = 0;
        loop
            invariant_except_break
                start <= i as int <= s.len(),
                0 <= int_val,
                buf@ == s,
                pow10(DECIMALS as nat) <= i128::MAX,
                start == (if s.len() > 0 && s[0] == MINUS { 1int } else { 0int }),
                scan_integer(s, start, 0) == scan_integer(s, i as int, int_val as int),
            ensures
                buf@ == s,
                0 <= int_val,
                i as int <= s.len(),
                scan_integer(s, start, 0) == Ok::<(int, int), FpErrorKind>(
                    (int_val as int, i as int),
                ),
            decreases s.len() - i,
        {
            if i >= buf.len() {
                return Err(ParseFpError { kind: FpErrorKind::InvalidFormat });
            }
            let c = buf[i];
            if c == DOT {
                i = i + 1;
                break ;
            }
            if c >= DIGIT_ZERO && c <= DIGIT_NINE {
                let d = (c - DIGIT_ZERO) as i128;
                let next = match int_val.checked_mul(10) {
                    Some(v) => v.checked_add(d),
                    None => None,
                };
                match next {
                    Some(w) => {
                        int_val = w;
                        i = i + 1;
                    },
                    None => {
                        proof {
                            assert(int_val * 10 + d > i128::MAX);
                        }
                        return Err(ParseFpError { kind: FpErrorKind::Overflow });
                    },
                }
            } else {
                return Err(ParseFpError { kind: FpErrorKind::InvalidInteger });
            }
        }

        // Fractional part: exactly N digits.
        let ghost mid = i as int;
        let mut frac_val: i128 = 0;
        let mut j: usize = 0;
        while j < N
            invariant
                j <= N,
                mid <= i as int,
                0 <= frac_val,
                0 <= int_val,
                buf@ == s,
                i as int <= s.len() + 1,
                pow10(DECIMALS as nat) <= i128::MAX,
                start == (if s.len() > 0 && s[0] == MINUS { 1int } else { 0int }),
                scan_integer(s, start, 0) == Ok::<(int, int), FpErrorKind>((int_val as int, mid)),
                scan_fraction(s, mid, 0, N as int, 0) == scan_fraction(
                    s,
                    i as int,
                    j as int,
                    N as int,
                    frac_val as int,
                ),
            decreases N - j,
        {
            if i >= buf.len() {
                return Err(ParseFpError { kind: FpErrorKind::InvalidFraction });
            }
            let c = buf[i];
            if c >= DIGIT_ZERO && c <= DIGIT_NINE {
                let d = (c - DIGIT_ZERO) as i128;
                let next = match frac_val.checked_mul(10) {
                    Some(v) => v.checked_add(d),
                    None => None,
                };
                match next {
                    Some(w) => {
                        frac_val = w;
                        i = i + 1;
                        j = j + 1;
                    },
                    None => {
                        proof {
                            assert(frac_val * 10 + d > i128::MAX);
                        }
                        return Err(ParseFpError { kind: FpErrorKind::Overflow });
                    },
                }
            } else {
                return Err(ParseFpError { kind: FpErrorKind::InvalidFraction });
            }
        }

        if i < buf.len() {
            return Err(ParseFpError { kind: FpErrorKind::TooManyDecimals });
        }

        // Assemble the mantissa; anything that does not fit is an overflow.
        proof {
            assert(int_val * scale >= 0) by (nonlinear_arith)
                requires
                    int_val >= 0,
                    scale >= 1,
            ;
        }
        let whole = match int_val.checked_mul(scale) {
            Some(v) => v,
            None => {
                return Err(ParseFpError { kind: FpErrorKind::Overflow });
            },
        };
        let mag = match whole.checked_add(frac_val) {
            Some(v) => v,
            None => {
                return Err(ParseFpError { kind: FpErrorKind::Overflow });
            },
        };
        let val = if neg {
            -mag
        } else {
            mag
        };
        Ok(Fp(val))
    }
}

/// The sum, on the same scale.  Defined when it fits the mantissa.
impl<const DECIMALS: usize> vstd::std_specs::ops::AddSpecImpl for Fp<DECIMALS> {
    open spec fn obeys_add_spec() -> bool {
        true
    }

    open spec fn add_req(self, rhs: Self) -> bool {
        i128::MIN <= self.0 + rhs.0 <= i128::MAX
    }

    open spec fn add_spec(self, rhs: Self) -> Self {
        Fp((self.0 + rhs.0) as i128)
    }
}

impl<const DECIMALS: usize> core::ops::Add for Fp<DECIMALS> {
    type Output = Self;

    fn add(self, rhs: Self) -> Self {
        Fp(self.0 + rhs.0)
    }
}

/// The difference, on the same scale.  Defined when it fits the mantissa.
impl<const DECIMALS: usize> vstd::std_specs::ops::SubSpecImpl for Fp<DECIMALS> {
    open spec fn obeys_sub_spec() -> bool {
        true
    }

    open spec fn sub_req(self, rhs: Self) -> bool {
        i128::MIN <= self.0 - rhs.0 <= i128::MAX
    }

    open spec fn sub_spec(self, rhs: Self) -> Self {
        Fp((self.0 - rhs.0) as i128)
    }
}

impl<const DECIMALS: usize> core::ops::Sub for Fp<DECIMALS> {
    type Output = Self;

    fn sub(self, rhs: Self) -> Self {
        Fp(self.0 - rhs.0)
    }
}

/// The product: the doubled-scale product divided by `10^DECIMALS`,
/// rounded toward zero.  Defined when the raw product fits the mantissa.
impl<const DECIMALS: usize> vstd::std_specs::ops::MulSpecImpl for Fp<DECIMALS> {
    open spec fn obeys_mul_spec() -> bool {
        true
    }

    open spec fn mul_req(self, rhs: Self) -> bool {
        &&& pow10(DECIMALS as nat) <= i128::MAX
        &&& i128::MIN <= self.0 * rhs.0 <= i128::MAX
    }

    open spec fn mul_spec(self, rhs: Self) -> Self {
        Fp(trunc_div(self.0 * rhs.0, pow10(DECIMALS as nat)) as i128)
    }
}

impl<const DECIMALS: usize> core::ops::Mul for Fp<DECIMALS> {
    type Output = Self;

    fn mul(self, rhs: Self) -> Self {
        let scale = match pow10_i128(DECIMALS) {
            Some(v) => v,
            None => {
                proof {
                    assert(false);
                }
                0
            },
        };
        proof {
            lemma_pow10_pos(DECIMALS as nat);
        }
        let p = self.0 * rhs.0;
        let q = p / scale;
        proof {
            assert(q == trunc_div(p as int, scale as int));
        }
        Fp(q)
    }
}

/// The quotient, carried to `DECIMALS` fractional digits by scaling the
/// dividend first, rounded toward zero.  Defined for a non-zero divisor
/// when the scaled dividend and the quotient fit the mantissa.
impl<const DECIMALS: usize> vstd::std_specs::ops::DivSpecImpl for Fp<DECIMALS> {
    open spec fn obeys_div_spec() -> bool {
        true
    }

    open spec fn div_req(self, rhs: Self) -> bool {
        &&& rhs.0 != 0
        &&& pow10(DECIMALS as nat) <= i128::MAX
        &&& i128::MIN <= self.0 * pow10(DECIMALS as nat) <= i128::MAX
        &&& trunc_div(self.0 * pow10(DECIMALS as nat), rhs.0 as int) <= i128::MAX
    }

    open spec fn div_spec(self, rhs: Self) -> Self {
        Fp(trunc_div(self.0 * pow10(DECIMALS as nat), rhs.0 as int) as i128)
    }
}

impl<const DECIMALS: usize> core::ops::Div for Fp<DECIMALS> {
    type Output = Self;

    fn div(self, rhs: Self) -> Self {
        let scale = match pow10_i128(DECIMALS) {
            Some(v) => v,
            None => {
                proof {
                    assert(false);
                }
                0
            },
        };
        proof {
            lemma_pow10_pos(DECIMALS as nat);
        }
        let p = self.0 * scale;
        // Divide magnitudes in the wider unsigned type, then put the sign
        // back: exactly truncation toward zero, with the extreme mantissa
        // handled rather than faulted on.
        let pa: u128 = if p >= 0 {
            p as u128
        } else {
            ((-1 - p) as u128) + 1
        };
        let pb: u128 = if rhs.0 >= 0 {
            rhs.0 as u128
        } else {
            ((-1 - rhs.0) as u128) + 1
        };
        let q = pa / pb;
        proof {
            assert(pa == abs_of(p as int));
            assert(pb == abs_of(rhs.0 as int));
        }
        let neg = (p < 0) != (rhs.0 < 0);
        if neg {
            if q > 170141183460469231731687303715884105727u128 {
                proof {
                    lemma_div_at_most_dividend(pa as int, pb as int);
                }
                Fp(i128::MIN)
            } else {
                Fp(-(q as i128))
            }
        } else {
            proof {
                assert(q <= i128::MAX);
            }
            Fp(q as i128)
        }
    }
}

/// Dividing a non-negative number by a positive one never grows it.
proof fn lemma_div_at_most_dividend(a: int, b: int)
    requires
        a >= 0,
        b >= 1,
    ensures
        a / b <= a,
        a / b >= 0,
{
    vstd::arithmetic::div_mod::lemma_div_is_ordered_by_denominator(a, 1, b);
    vstd::arithmetic::div_mod::lemma_div_nonincreasing(a, b);
    vstd::arithmetic::div_mod::lemma_div_pos_is_pos(a, b);
}

impl ParseFpError {
    /// A short account of what went wrong.
    pub fn description(&self) -> (r: &'static str)
        ensures
            self.kind == FpErrorKind::InvalidInteger ==> r@ == "cannot parse integer from empty string"@,
            self.kind == FpErrorKind::InvalidFraction ==> r@ == "invalid digit found in string"@,
            self.kind == FpErrorKind::InvalidFormat ==> r@ == "invalid format"@,
            self.kind == FpErrorKind::TooManyDecimals ==> r@ == "too many decimals"@,
            self.kind == FpErrorKind::Overflow ==> r@ == "number too large to fit in target type"@,
    {
        match self.kind {
            FpErrorKind::InvalidInteger => "cannot parse integer from empty string",
            FpErrorKind::InvalidFraction => "invalid digit found in string",
            FpErrorKind::InvalidFormat => "invalid format",
            FpErrorKind::TooManyDecimals => "too many decimals",
            FpErrorKind::Overflow => "number too large to fit in target type",
        }
    }
}

impl<const DECIMALS: usize> FromStr for Fp<DECIMALS> {
    type Err = ParseFpError;

    fn from_str(s: &str) -> Result<Self, ParseFpError> {
        Fp::<DECIMALS>::from_bytes::<DECIMALS>(s.as_bytes())
    }
}

} // verus!
