//! Exact fixed-point amounts for prices and sizes.
//!
//! An amount counts units of one hundred-millionth. A JSON number is read from
//! its decimal text, and its value is rounded to the nearest unit, halves up.
//! It is an amount when it carries no sign and its units fit 64 bits.
use vstd::prelude::*;
use vstd::arithmetic::div_mod::{lemma_fundamental_div_mod, lemma_fundamental_div_mod_converse};
use crate::text::{
    all_digits, chars_of, decimal_digits, digit_char, digit_of, digit_text, digit_value,
    digits_value, integer_value, is_digit, lemma_decimal_digits, lemma_digit_char,
    parse_integer, unsigned_to_text,
};

verus! {

/// Units in one whole: an amount carries eight decimal places.
pub const UNITS_PER_ONE: u64 = 100_000_000;

/// Decimal places of an amount.
pub const DECIMAL_PLACES: i64 = 8;

/// Largest power-of-ten exponent, in magnitude, that a number text may carry.
pub const EXPONENT_LIMIT: i64 = 1000;

/// Ten to the power `n`.
pub open spec fn pow10(n: nat) -> nat
    decreases n,
{
    if n == 0 {
        1
    } else {
        10 * pow10((n - 1) as nat)
    }
}

/// The digits `digits` read as a number and multiplied by ten to the power
/// `shift`, rounded to the nearest whole number, halves up.
pub open spec fn scaled_value(digits: Seq<char>, shift: int) -> nat {
    let n = digits_value(digits);
    if shift >= 0 {
        n * pow10(shift as nat)
    } else {
        (n + pow10((-shift) as nat) / 2) / pow10((-shift) as nat)
    }
}

/// What one digit adds to a scaled value, by its place: ten to the power of
/// the place for each of its units at or above the unit, one when it is five
/// or more in the first place below the unit, and nothing further below.
pub open spec fn digit_share(d: nat, place: int) -> nat {
    if place >= 0 {
        d * pow10(place as nat)
    } else if place == -1 && d >= 5 {
        1
    } else {
        0
    }
}

/// The scaled value of `digits`, digit by digit: the sum of what each digit
/// adds by its place, the last digit standing in the place `shift`.
pub open spec fn placed_value(digits: Seq<char>, shift: int) -> nat
    decreases digits.len(),
{
    if digits.len() == 0 {
        0
    } else {
        placed_value(digits.drop_last(), shift + 1) + digit_share(
            digit_value(digits.last()),
            shift,
        )
    }
}

/// The position of the first character of `s` that is `a` or `b`, or the
/// length of `s` when there is none.
pub open spec fn first_mark(s: Seq<char>, a: char, b: char) -> int
    decreases s.len(),
{
    if s.len() == 0 {
        0
    } else if s[0] == a || s[0] == b {
        0
    } else {
        1 + first_mark(s.drop_first(), a, b)
    }
}

/// The number of units that a number text denotes.
///
/// The text is a run of digits, an optional `.` with more digits, and an
/// optional `e` or `E` with a signed exponent of magnitude at most
/// `EXPONENT_LIMIT`. Its value counts in hundred-millionths, rounded to the
/// nearest, halves up. A text with a sign in front denotes none.
pub open spec fn number_units(s: Seq<char>) -> Option<nat> {
    let e = first_mark(s, 'e', 'E');
    let mantissa = s.subrange(0, e);
    let p = first_mark(mantissa, '.', '.');
    let whole = mantissa.subrange(0, p);
    let fraction = if p < e {
        mantissa.subrange(p + 1, e)
    } else {
        Seq::<char>::empty()
    };
    let exponent = if e < s.len() {
        integer_value(s.subrange(e + 1, s.len() as int))
    } else {
        Some(0int)
    };
    if whole.len() > 0 && all_digits(whole) && (p < e ==> fraction.len() > 0) && all_digits(
        fraction,
    ) && exponent is Some && -EXPONENT_LIMIT <= exponent.unwrap() <= EXPONENT_LIMIT {
        Some(scaled_value(whole + fraction, DECIMAL_PLACES + exponent.unwrap() - fraction.len()))
    } else {
        None
    }
}

/// The low `width` decimal digits of `f`, padded with zeros on the left.
pub open spec fn padded_digits(f: nat, width: nat) -> Seq<char>
    decreases width,
{
    if width == 0 {
        Seq::<char>::empty()
    } else {
        padded_digits(f / 10, (width - 1) as nat).push(digit_char(f % 10))
    }
}

/// The digits of a fraction of `width` places, without its trailing zeros.
pub open spec fn trimmed_digits(f: nat, width: nat) -> Seq<char>
    decreases width,
{
    if width == 0 {
        Seq::<char>::empty()
    } else if f % 10 == 0 {
        trimmed_digits(f / 10, (width - 1) as nat)
    } else {
        padded_digits(f, width)
    }
}

/// How an amount of `units` is written: the whole part, and, when the
/// fraction is not zero, a `.` and the fraction without trailing zeros.
pub open spec fn amount_text(units: nat) -> Seq<char> {
    let whole = units / (UNITS_PER_ONE as nat);
    let f = units % (UNITS_PER_ONE as nat);
    if f == 0 {
        decimal_digits(whole)
    } else {
        decimal_digits(whole) + seq!['.'] + trimmed_digits(f, 8)
    }
}

/// The amount that a number text denotes, when 64 bits hold its units.
pub open spec fn amount_of(text: Seq<char>) -> Option<Amount> {
    match number_units(text) {
        Some(v) => if v <= u64::MAX {
            Some(Amount { units: v as u64 })
        } else {
            None
        },
        None => None,
    }
}

/// The sum of two unit counts, held at `u64::MAX` when it would pass it.
pub open spec fn capped_sum(a: u64, b: u64) -> u64 {
    if a + b > u64::MAX {
        u64::MAX
    } else {
        (a + b) as u64
    }
}

/// A non-negative quantity in units of one hundred-millionth.
#[derive(Clone, Copy, Debug, PartialEq, Eq, Structural)]
pub struct Amount {
    pub units: u64,
}

/// Powers of ten grow with the exponent, from one.
pub proof fn lemma_pow10_grows(a: nat, b: nat)
    requires
        a <= b,
    ensures
        pow10(a) <= pow10(b),
        pow10(a) >= 1,
    decreases b,
{
    if a == 0 {
        if b > 0 {
            lemma_pow10_grows(0, (b - 1) as nat);
        }
    } else {
        lemma_pow10_grows((a - 1) as nat, (b - 1) as nat);
    }
}

/// A power of ten with an exponent above zero is ten times the power below.
proof fn lemma_pow10_step(k: nat)
    requires
        k >= 1,
    ensures
        pow10(k) == 10 * pow10((k - 1) as nat),
        pow10(k) % 10 == 0,
        pow10(k) >= 10,
{
    lemma_pow10_grows(0, (k - 1) as nat);
    let below = pow10((k - 1) as nat);
    lemma_fundamental_div_mod_converse((10 * below) as int, 10, below as int, 0);
}

/// A digit behind a number does not change its quotient by ten times a
/// divisor: it is the quotient of the number by the divisor.
proof fn lemma_digit_below(m: nat, d: nat, p: nat)
    requires
        p > 0,
        d < 10,
    ensures
        (10 * m + d) / (10 * p) == m / p,
{
    lemma_fundamental_div_mod(m as int, p as int);
    let q = m / p;
    let r = m % p;
    assert(10 * m + d == q * (10 * p) + (10 * r + d)) by (nonlinear_arith)
        requires
            m == p * q + r,
    ;
    lemma_fundamental_div_mod_converse(
        (10 * m + d) as int,
        (10 * p) as int,
        q as int,
        (10 * r + d) as int,
    );
}

/// The scaled value of a run of digits is the sum of what its digits add,
/// place by place.
pub proof fn lemma_placed_value(digits: Seq<char>, shift: int)
    requires
        all_digits(digits),
    ensures
        placed_value(digits, shift) == scaled_value(digits, shift),
    decreases digits.len(),
{
    if digits.len() == 0 {
        if shift < 0 {
            let k = (-shift) as nat;
            lemma_pow10_step(k);
            let p = pow10(k);
            lemma_fundamental_div_mod(p as int, 2);
            lemma_fundamental_div_mod_converse((p / 2) as int, p as int, 0, (p / 2) as int);
        } else {
            assert(0 * pow10(shift as nat) == 0) by (nonlinear_arith);
        }
    } else {
        let front = digits.drop_last();
        let d = digit_value(digits.last());
        let nf = digits_value(front);
        let n = digits_value(digits);
        assert(is_digit(digits[digits.len() - 1]));
        assert(all_digits(front)) by {
            assert forall|i: int| 0 <= i < front.len() implies is_digit(#[trigger] front[i]) by {
                assert(front[i] == digits[i]);
            }
        }
        lemma_placed_value(front, shift + 1);
        assert(n == nf * 10 + d);
        if shift >= 0 {
            let p = pow10(shift as nat);
            assert(pow10((shift + 1) as nat) == 10 * p);
            assert(nf * (10 * p) + d * p == (nf * 10 + d) * p) by (nonlinear_arith);
        } else if shift == -1 {
            reveal_with_fuel(pow10, 2);
            assert(pow10(1) == 10);
            assert(nf * pow10(0) == nf) by (nonlinear_arith)
                requires
                    pow10(0) == 1,
            ;
            if d >= 5 {
                lemma_fundamental_div_mod_converse(
                    (n + 5) as int,
                    10,
                    (nf + 1) as int,
                    (d - 5) as int,
                );
            } else {
                lemma_fundamental_div_mod_converse((n + 5) as int, 10, nf as int, (d + 5) as int);
            }
        } else {
            let k = (-shift) as nat;
            let below = pow10((k - 1) as nat);
            lemma_pow10_step(k);
            lemma_pow10_step((k - 1) as nat);
            let p = pow10(k);
            assert(p == 10 * below);
            lemma_fundamental_div_mod(below as int, 2);
            lemma_fundamental_div_mod(p as int, 2);
            assert(p / 2 == 5 * below) by {
                lemma_fundamental_div_mod_converse(p as int, 2, (5 * below) as int, 0);
            }
            assert(below % 2 == 0) by {
                let tenth = pow10((k - 2) as nat);
                lemma_fundamental_div_mod_converse(below as int, 2, (5 * tenth) as int, 0);
            }
            let m = nf + below / 2;
            assert(n + p / 2 == 10 * m + d) by {
                assert(2 * (below / 2) == below);
            }
            lemma_digit_below(m, d, below);
        }
    }
}

proof fn lemma_pow10_19()
    ensures
        pow10(19) == 10_000_000_000_000_000_000nat,
        pow10(20) > u64::MAX,
{
    reveal_with_fuel(pow10, 21);
    assert(pow10(10) == 10_000_000_000nat);
    assert(pow10(19) == 10_000_000_000_000_000_000nat);
    assert(pow10(20) == 100_000_000_000_000_000_000nat);
}

/// Ten to the power `w`, for the powers that fit 64 bits.
fn power_of_ten(w: u32) -> (r: u64)
    requires
        w <= 19,
    ensures
        r == pow10(w as nat),
{
    let mut p: u64 = 1;
    let mut i: u32 = 0;
    while i < w
        invariant
            i <= w <= 19,
            p == pow10(i as nat),
        decreases w - i,
    {
        proof {
            lemma_pow10_grows((i + 1) as nat, 19);
            lemma_pow10_19();
        }
        p = p * 10;
        i = i + 1;
    }
    p
}

/// The digits `digits`, scaled by ten to the power `shift` and rounded, as a
/// number of 64 bits; `None` when the scaled value is too large.
fn scale_digits(digits: &Vec<char>, shift: i128) -> (r: Option<u64>)
    requires
        all_digits(digits@),
        -0x1_0000_0000_0000_0000_0000 <= shift <= 0x1_0000_0000_0000_0000_0000,
    ensures
        r == if scaled_value(digits@, shift as int) <= u64::MAX {
            Some(scaled_value(digits@, shift as int) as u64)
        } else {
            None
        },
{
    let n: usize = digits.len();
    let mut acc: u64 = 0;
    let mut bad: bool = false;
    let mut k: usize = 0;
    while k < n
        invariant
            k <= n,
            n == digits.len(),
            all_digits(digits@),
            -0x1_0000_0000_0000_0000_0000 <= shift <= 0x1_0000_0000_0000_0000_0000,
            !bad ==> placed_value(digits@.subrange(0, k as int), shift + n - k) == acc,
            bad ==> placed_value(digits@.subrange(0, k as int), shift + n - k) > u64::MAX,
        decreases n - k,
    {
        let c: char = digits[k];
        let ghost before = digits@.subrange(0, k as int);
        let ghost after = digits@.subrange(0, k + 1);
        assert(after.drop_last() == before);
        assert(after.last() == c);
        assert(is_digit(digits@[k as int]));
        let w: i128 = shift + (n - 1 - k) as i128;
        assert(w + 1 == shift + n - k);
        assert(w == shift + n - (k + 1));
        let d: u8 = match digit_of(c) {
            Some(d) => d,
            None => 0,
        };
        if !bad {
            let share: Option<u64> = if d == 0 || w < -1 {
                assert(digit_share(d as nat, w as int) == 0) by {
                    if w >= 0 {
                        assert(0 * pow10(w as nat) == 0) by (nonlinear_arith);
                    }
                }
                Some(0)
            } else if w == -1 {
                if d >= 5 {
                    Some(1)
                } else {
                    Some(0)
                }
            } else if w > 19 {
                proof {
                    lemma_pow10_grows(20, w as nat);
                    lemma_pow10_19();
                    assert(d * pow10(w as nat) >= pow10(w as nat)) by (nonlinear_arith)
                        requires
                            d >= 1,
                    ;
                }
                None
            } else {
                let p: u64 = power_of_ten(w as u32);
                assert(d * pow10(w as nat) == pow10(w as nat) * d) by (nonlinear_arith);
                p.checked_mul(d as u64)
            };
            match share {
                None => {
                    bad = true;
                },
                Some(t) => {
                    match acc.checked_add(t) {
                        None => {
                            bad = true;
                        },
                        Some(u) => {
                            acc = u;
                        },
                    }
                },
            }
        }
        k = k + 1;
    }
    assert(digits@.subrange(0, n as int) == digits@);
    proof {
        lemma_placed_value(digits@, shift as int);
    }
    if bad {
        None
    } else {
        Some(acc)
    }
}

/// The first position in `v[from..to]` that holds `a` or `b`, or `to`.
fn find_mark(v: &Vec<char>, from: usize, to: usize, a: char, b: char) -> (r: usize)
    requires
        from <= to <= v.len(),
    ensures
        from <= r <= to,
        r - from == first_mark(v@.subrange(from as int, to as int), a, b),
{
    let mut i: usize = from;
    while i < to
        invariant
            from <= i <= to <= v.len(),
            first_mark(v@.subrange(from as int, to as int), a, b) == (i - from) + first_mark(
                v@.subrange(i as int, to as int),
                a,
                b,
            ),
        decreases to - i,
    {
        let c: char = v[i];
        let ghost rest = v@.subrange(i as int, to as int);
        assert(rest[0] == c);
        if c == a || c == b {
            return i;
        }
        assert(rest.drop_first() == v@.subrange(i + 1, to as int));
        i = i + 1;
    }
    i
}

/// Whether every character of `v[from..to]` is a digit.
fn digits_only(v: &Vec<char>, from: usize, to: usize) -> (r: bool)
    requires
        from <= to <= v.len(),
    ensures
        r == all_digits(v@.subrange(from as int, to as int)),
{
    let mut i: usize = from;
    while i < to
        invariant
            from <= i <= to <= v.len(),
            all_digits(v@.subrange(from as int, i as int)),
        decreases to - i,
    {
        let c: char = v[i];
        if digit_of(c).is_none() {
            assert(v@.subrange(from as int, to as int)[i - from] == c);
            return false;
        }
        assert forall|j: int| 0 <= j < i + 1 - from implies is_digit(
            #[trigger] v@.subrange(from as int, i + 1)[j],
        ) by {
            if j < i - from {
                assert(v@.subrange(from as int, i as int)[j] == v@[from + j]);
            }
        }
        i = i + 1;
    }
    true
}

impl Amount {
    /// The amount of exactly `units` hundred-millionths.
    pub fn from_units(units: u64) -> (r: Amount)
        ensures
            r.units == units,
    {
        Amount { units }
    }

    /// The amount of `whole` ones, when that fits.
    pub fn from_whole(whole: u64) -> (r: Option<Amount>)
        ensures
            r is Some <==> whole * UNITS_PER_ONE <= u64::MAX,
            r is Some ==> r.unwrap().units == whole * UNITS_PER_ONE,
    {
        match whole.checked_mul(UNITS_PER_ONE) {
            Some(units) => Some(Amount { units }),
            None => None,
        }
    }

    /// The number of hundred-millionths.
    pub fn units(&self) -> (r: u64)
        ensures
            r == self.units,
    {
        self.units
    }

    /// Whether the amount is nothing at all.
    pub fn is_zero(&self) -> (r: bool)
        ensures
            r == (self.units == 0),
    {
        self.units == 0
    }

    /// The sum of two amounts, held at the largest amount when it would pass it.
    pub fn saturating_add(self, other: Amount) -> (r: Amount)
        ensures
            r.units == capped_sum(self.units, other.units),
    {
        Amount { units: self.units.saturating_add(other.units) }
    }

    /// The larger of two amounts.
    pub fn max(self, other: Amount) -> (r: Amount)
        ensures
            r.units == if self.units >= other.units {
                self.units
            } else {
                other.units
            },
    {
        if self.units >= other.units {
            self
        } else {
            other
        }
    }

    /// The smaller of two amounts.
    pub fn min(self, other: Amount) -> (r: Amount)
        ensures
            r.units == if self.units <= other.units {
                self.units
            } else {
                other.units
            },
    {
        if self.units <= other.units {
            self
        } else {
            other
        }
    }

    /// Reads a number text. The result is the amount the text denotes, and
    /// `None` when it denotes none or more than 64 bits hold.
    pub fn parse(text: &str) -> (r: Option<Amount>)
        ensures
            r == amount_of(text@),
    {
        let v = chars_of(text);
        let n: usize = v.len();
        assert(v@.subrange(0, n as int) == v@);
        let e: usize = find_mark(&v, 0, n, 'e', 'E');
        let p: usize = find_mark(&v, 0, e, '.', '.');
        let ghost mantissa = v@.subrange(0, e as int);
        let ghost whole = mantissa.subrange(0, p as int);
        let ghost fraction = if p < e {
            mantissa.subrange(p + 1, e as int)
        } else {
            Seq::<char>::empty()
        };
        assert(whole == v@.subrange(0, p as int));
        if p == 0 || !digits_only(&v, 0, p) {
            return None;
        }
        let frac_from: usize = if p < e {
            p + 1
        } else {
            e
        };
        assert(fraction == v@.subrange(frac_from as int, e as int));
        if p < e && frac_from == e {
            return None;
        }
        if !digits_only(&v, frac_from, e) {
            return None;
        }
        let exponent: i64 = if e < n {
            match parse_integer(&v, e + 1, n) {
                Some(x) => x,
                None => {
                    return None;
                },
            }
        } else {
            0
        };
        if exponent < -EXPONENT_LIMIT || exponent > EXPONENT_LIMIT {
            return None;
        }
        let mut digits: Vec<char> = Vec::new();
        let mut i: usize = 0;
        while i < p
            invariant
                i <= p <= v.len(),
                digits@ == v@.subrange(0, i as int),
            decreases p - i,
        {
            digits.push(v[i]);
            i = i + 1;
        }
        let mut j: usize = frac_from;
        while j < e
            invariant
                frac_from <= j <= e <= v.len(),
                digits@ == v@.subrange(0, p as int) + v@.subrange(frac_from as int, j as int),
            decreases e - j,
        {
            digits.push(v[j]);
            j = j + 1;
        }
        assert(digits@ == whole + fraction);
        assert(all_digits(digits@)) by {
            assert forall|t: int| 0 <= t < digits@.len() implies is_digit(
                #[trigger] digits@[t],
            ) by {
                if t < whole.len() {
                    assert(digits@[t] == whole[t]);
                } else {
                    assert(digits@[t] == fraction[t - whole.len()]);
                }
            }
        }
        let places: usize = e - frac_from;
        let shift: i128 = DECIMAL_PLACES as i128 + exponent as i128 - places as i128;
        match scale_digits(&digits, shift) {
            Some(units) => Some(Amount { units }),
            None => None,
        }
    }

    /// Writes the amount as a decimal number.
    pub fn to_text(&self) -> (r: String)
        ensures
            r@ == amount_text(self.units as nat),
    {
        proof {
            reveal_strlit(".");
        }
        let whole: u64 = self.units / UNITS_PER_ONE;
        let f: u64 = self.units % UNITS_PER_ONE;
        let mut out = unsigned_to_text(whole as u128);
        if f != 0 {
            out.append(".");
            let tail = trimmed_fraction(f, 8);
            out.append(tail.as_str());
        }
        out
    }
}

/// The last `width` digits of `f`, padded with zeros, as a string.
fn padded_fraction(f: u64, width: u32) -> (r: String)
    ensures
        r@ == padded_digits(f as nat, width as nat),
    decreases width,
{
    if width == 0 {
        String::new()
    } else {
        let mut out = padded_fraction(f / 10, width - 1);
        out.append(digit_text((f % 10) as u8));
        out
    }
}

/// A fraction of `width` places, without its trailing zeros, as a string.
fn trimmed_fraction(f: u64, width: u32) -> (r: String)
    ensures
        r@ == trimmed_digits(f as nat, width as nat),
    decreases width,
{
    if width == 0 {
        String::new()
    } else if f % 10 == 0 {
        trimmed_fraction(f / 10, width - 1)
    } else {
        padded_fraction(f, width)
    }
}

/// A power of ten with a sum as exponent is the product of the powers.
proof fn lemma_pow10_sum(a: nat, b: nat)
    ensures
        pow10(a + b) == pow10(a) * pow10(b),
    decreases a,
{
    if a == 0 {
        assert(pow10(0) * pow10(b) == pow10(b)) by (nonlinear_arith)
            requires
                pow10(0) == 1,
        ;
    } else {
        lemma_pow10_sum((a - 1) as nat, b);
        let x = pow10((a - 1) as nat);
        let y = pow10(b);
        assert(10 * (x * y) == (10 * x) * y) by (nonlinear_arith);
    }
}

/// The value of two runs of digits put together: the first counts ten to the
/// power of the length of the second for each of its units.
proof fn lemma_digits_joined(a: Seq<char>, b: Seq<char>)
    ensures
        digits_value(a + b) == digits_value(a) * pow10(b.len()) + digits_value(b),
    decreases b.len(),
{
    if b.len() == 0 {
        assert(a + b =~= a);
        assert(digits_value(a) * pow10(0) == digits_value(a)) by (nonlinear_arith)
            requires
                pow10(0) == 1,
        ;
    } else {
        let front = b.drop_last();
        lemma_digits_joined(a, front);
        assert((a + b).drop_last() =~= a + front);
        assert((a + b).last() == b.last());
        let x = digits_value(a);
        let p = pow10(front.len());
        let y = digits_value(front);
        let d = digit_value(b.last());
        assert(pow10(b.len()) == 10 * p);
        assert((x * p + y) * 10 + d == x * (10 * p) + (y * 10 + d)) by (nonlinear_arith);
    }
}

/// The padded digits of a number are as many digits as asked for, and
/// denote the number short of the power of ten of that many places.
proof fn lemma_padded_digits(f: nat, width: nat)
    ensures
        padded_digits(f, width).len() == width,
        all_digits(padded_digits(f, width)),
        digits_value(padded_digits(f, width)) == f % pow10(width),
    decreases width,
{
    if width == 0 {
        lemma_fundamental_div_mod_converse(f as int, 1, f as int, 0);
    } else {
        let front = padded_digits(f / 10, (width - 1) as nat);
        let s = front.push(digit_char(f % 10));
        lemma_padded_digits(f / 10, (width - 1) as nat);
        lemma_digit_char(f % 10);
        assert(s.drop_last() =~= front);
        assert forall|i: int| 0 <= i < s.len() implies is_digit(#[trigger] s[i]) by {
            if i < front.len() {
                assert(s[i] == front[i]);
            }
        }
        let p = pow10((width - 1) as nat);
        lemma_pow10_grows(0, (width - 1) as nat);
        let tens = f / 10;
        lemma_fundamental_div_mod(tens as int, p as int);
        let q = tens / p;
        let r = tens % p;
        assert(f == q * (10 * p) + (10 * r + f % 10)) by (nonlinear_arith)
            requires
                f == 10 * tens + f % 10,
                tens == p * q + r,
        ;
        lemma_fundamental_div_mod_converse(
            f as int,
            (10 * p) as int,
            q as int,
            (10 * r + f % 10) as int,
        );
    }
}

/// The trimmed digits of a fraction that is not zero are at least one digit
/// and at most the places of the fraction, and denote the fraction once the
/// places trimmed are counted.
proof fn lemma_trimmed_digits(f: nat, width: nat)
    requires
        0 < f < pow10(width),
    ensures
        1 <= trimmed_digits(f, width).len() <= width,
        all_digits(trimmed_digits(f, width)),
        digits_value(trimmed_digits(f, width)) * pow10(
            (width - trimmed_digits(f, width).len()) as nat,
        ) == f,
    decreases width,
{
    if width == 0 {
    } else if f % 10 == 0 {
        let below = (width - 1) as nat;
        assert(f / 10 < pow10(below)) by {
            assert(pow10(width) == 10 * pow10(below));
        }
        lemma_trimmed_digits(f / 10, below);
        let t = trimmed_digits(f / 10, below);
        let gap = (below - t.len()) as nat;
        assert(pow10((width - t.len()) as nat) == 10 * pow10(gap));
        assert(digits_value(t) * (10 * pow10(gap)) == 10 * (digits_value(t) * pow10(gap)))
            by (nonlinear_arith);
    } else {
        lemma_padded_digits(f, width);
        lemma_fundamental_div_mod_converse(f as int, pow10(width) as int, 0, f as int);
        assert(f * pow10(0) == f) by (nonlinear_arith)
            requires
                pow10(0) == 1,
        ;
    }
}

/// The first mark of a text stands where a mark stands with none before it,
/// or at the end of a text without one.
proof fn lemma_first_mark(s: Seq<char>, a: char, b: char, at: int)
    requires
        0 <= at <= s.len(),
        forall|i: int| 0 <= i < at ==> s[i] != a && s[i] != b,
        at < s.len() ==> s[at] == a || s[at] == b,
    ensures
        first_mark(s, a, b) == at,
    decreases s.len(),
{
    if s.len() > 0 && at > 0 {
        let rest = s.drop_first();
        assert forall|i: int| 0 <= i < at - 1 implies rest[i] != a && rest[i] != b by {
            assert(rest[i] == s[i + 1]);
        }
        if at < s.len() {
            assert(rest[at - 1] == s[at]);
        }
        lemma_first_mark(rest, a, b, at - 1);
    }
}

/// What is written is read back: the text of an amount denotes its units.
pub proof fn lemma_amount_text_reads_back(units: nat)
    ensures
        number_units(amount_text(units)) == Some(units),
{
    let one = UNITS_PER_ONE as nat;
    let w = units / one;
    let f = units % one;
    let whole = decimal_digits(w);
    let s = amount_text(units);
    lemma_decimal_digits(w);
    reveal_with_fuel(pow10, 9);
    assert(pow10(8) == one);
    lemma_fundamental_div_mod(units as int, one as int);
    if f == 0 {
        assert(s == whole);
        lemma_first_mark(s, 'e', 'E', s.len() as int);
        assert(s.subrange(0, s.len() as int) =~= s);
        lemma_first_mark(s, '.', '.', s.len() as int);
        assert(whole + Seq::<char>::empty() =~= whole);
        assert(w * one == units) by (nonlinear_arith)
            requires
                units == one * w + f,
                f == 0,
        ;
    } else {
        let fraction = trimmed_digits(f, 8);
        lemma_trimmed_digits(f, 8);
        assert(s == whole + seq!['.'] + fraction);
        assert forall|i: int| 0 <= i < s.len() implies s[i] != 'e' && s[i] != 'E' by {
            if i < whole.len() {
                assert(is_digit(whole[i]));
            } else if i > whole.len() {
                assert(s[i] == fraction[i - whole.len() - 1]);
                assert(is_digit(fraction[i - whole.len() - 1]));
            }
        }
        lemma_first_mark(s, 'e', 'E', s.len() as int);
        let mantissa = s.subrange(0, s.len() as int);
        assert(mantissa =~= s);
        assert forall|i: int| 0 <= i < whole.len() implies s[i] != '.' by {
            assert(is_digit(whole[i]));
        }
        lemma_first_mark(s, '.', '.', whole.len() as int);
        assert(s.subrange(0, whole.len() as int) =~= whole);
        assert(s.subrange(whole.len() as int + 1, s.len() as int) =~= fraction);
        let gap = (8 - fraction.len()) as nat;
        lemma_digits_joined(whole, fraction);
        lemma_pow10_sum(fraction.len(), gap);
        let x = pow10(fraction.len());
        let y = pow10(gap);
        let v = digits_value(fraction);
        assert((w * x + v) * y == w * (x * y) + v * y) by (nonlinear_arith);
        assert(w * one + f == units) by (nonlinear_arith)
            requires
                units == one * w + f,
        ;
    }
}

/// What is written is read back: the text of an amount is read as that
/// amount.
pub proof fn lemma_to_text_parses(a: Amount)
    ensures
        amount_of(amount_text(a.units as nat)) == Some(a),
{
    lemma_amount_text_reads_back(a.units as nat);
}

} // verus!
