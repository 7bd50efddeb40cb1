//! Decimal numerals: what a run of digits denotes, and how a number is written.
use vstd::prelude::*;
use vstd::std_specs::iter::IteratorSpec;

verus! {

/// One of the ten decimal digit characters.
pub open spec fn is_digit(c: char) -> bool {
    '0' <= c && c <= '9'
}

/// The number a digit character stands for.
pub open spec fn digit_value(c: char) -> nat
    recommends
        is_digit(c),
{
    (c as int - 48) as nat
}

/// The character that writes the digit `d`.
pub open spec fn digit_char(d: nat) -> char
    recommends
        d < 10,
{
    (d + 48) as char
}

/// Every character of `s` is a decimal digit.
pub open spec fn all_digits(s: Seq<char>) -> bool {
    forall|i: int| 0 <= i < s.len() ==> is_digit(#[trigger] s[i])
}

/// The number denoted by a run of decimal digits, most significant first.
pub open spec fn digits_value(s: Seq<char>) -> nat
    decreases s.len(),
{
    if s.len() == 0 {
        0
    } else {
        digits_value(s.drop_last()) * 10 + digit_value(s.last())
    }
}

/// The integer denoted by a signed numeral: an optional `+` or `-`, then at
/// least one digit. Anything else denotes nothing.
pub open spec fn integer_value(s: Seq<char>) -> Option<int> {
    if s.len() > 0 && (s[0] == '-' || s[0] == '+') {
        let body = s.subrange(1, s.len() as int);
        if body.len() > 0 && all_digits(body) {
            if s[0] == '-' {
                Some(-(digits_value(body) as int))
            } else {
                Some(digits_value(body) as int)
            }
        } else {
            None
        }
    } else if s.len() > 0 && all_digits(s) {
        Some(digits_value(s) as int)
    } else {
        None
    }
}

/// The integer denoted by a signed numeral, when 64 bits hold it.
pub open spec fn small_integer(s: Seq<char>) -> Option<i64> {
    match integer_value(s) {
        Some(x) => if i64::MIN <= x <= i64::MAX {
            Some(x as i64)
        } else {
            None
        },
        None => None,
    }
}

/// The decimal numeral of `n`, without leading zeros.
pub open spec fn decimal_digits(n: nat) -> Seq<char>
    decreases n,
{
    if n < 10 {
        seq![digit_char(n)]
    } else {
        decimal_digits(n / 10).push(digit_char(n % 10))
    }
}

/// The decimal numeral of `v`, with a leading `-` when it is negative.
pub open spec fn integer_text(v: int) -> Seq<char> {
    if v < 0 {
        seq!['-'] + decimal_digits((-v) as nat)
    } else {
        decimal_digits(v as nat)
    }
}

/// `s` with every occurrence of `pattern` taken out: occurrences are found
/// from the left and do not overlap.
pub open spec fn without_all(s: Seq<char>, pattern: Seq<char>) -> Seq<char>
    decreases s.len(),
{
    if pattern.len() == 0 || s.len() < pattern.len() {
        s
    } else if s.subrange(0, pattern.len() as int) == pattern {
        without_all(s.subrange(pattern.len() as int, s.len() as int), pattern)
    } else {
        seq![s[0]] + without_all(s.drop_first(), pattern)
    }
}

/// Whether two strings hold the same characters.
pub fn same_text(a: &str, b: &str) -> (r: bool)
    ensures
        r == (a@ == b@),
{
    let x = String::from_str(a);
    let y = String::from_str(b);
    x == y
}

/// The characters of `s`, in order.
pub fn chars_of(s: &str) -> (r: Vec<char>)
    ensures
        r@ == s@,
{
    let mut out: Vec<char> = Vec::new();
    let iter = s.chars();
    let ghost all = iter.remaining();
    assert(all == s@);
    for c in it: iter
        invariant
            it.seq() == all,
            out@ == all.subrange(0, it.index()),
    {
        out.push(c);
    }
    assert(all.subrange(0, all.len() as int) == all);
    out
}

/// The value of a digit character, or `None` for any other character.
pub fn digit_of(c: char) -> (r: Option<u8>)
    ensures
        r is Some <==> is_digit(c),
        r is Some ==> r.unwrap() == digit_value(c) && r.unwrap() < 10,
{
    if c >= '0' && c <= '9' {
        let v: u32 = c as u32;
        Some((v - 48) as u8)
    } else {
        None
    }
}

/// Reads the digits `v[start..end]` as a number. The result is `None` when
/// the range is empty, holds a character that is no digit, or denotes a
/// number above `u64::MAX`.
pub fn parse_digits(v: &Vec<char>, start: usize, end: usize) -> (r: Option<u64>)
    requires
        start <= end <= v.len(),
    ensures
        r is Some <==> start < end && all_digits(v@.subrange(start as int, end as int))
            && digits_value(v@.subrange(start as int, end as int)) <= u64::MAX,
        r is Some ==> r.unwrap() == digits_value(v@.subrange(start as int, end as int)),
{
    let ghost body = v@.subrange(start as int, end as int);
    if start == end {
        return None;
    }
    let mut acc: u64 = 0;
    let mut big: bool = false;
    let mut i: usize = start;
    while i < end
        invariant
            start <= i <= end <= v.len(),
            body == v@.subrange(start as int, end as int),
            all_digits(body.subrange(0, i - start)),
            !big ==> acc == digits_value(body.subrange(0, i - start)),
            big ==> digits_value(body.subrange(0, i - start)) > u64::MAX,
        decreases end - i,
    {
        let c: char = v[i];
        let ghost before = body.subrange(0, i - start);
        let ghost after = body.subrange(0, i - start + 1);
        assert(body[i - start] == c);
        assert(after.drop_last() == before);
        assert(after.last() == c);
        match digit_of(c) {
            None => {
                return None;
            },
            Some(d) => {
                assert forall|j: int| 0 <= j < after.len() implies is_digit(#[trigger] after[j]) by {
                    if j < before.len() {
                        assert(after[j] == before[j]);
                    }
                }
                if !big {
                    match acc.checked_mul(10) {
                        None => {
                            big = true;
                        },
                        Some(t) => {
                            match t.checked_add(d as u64) {
                                None => {
                                    big = true;
                                },
                                Some(u) => {
                                    acc = u;
                                },
                            }
                        },
                    }
                }
            },
        }
        i = i + 1;
    }
    assert(body.subrange(0, end - start) == body);
    if big {
        None
    } else {
        Some(acc)
    }
}

/// Reads `v[start..end]` as a signed numeral. The result is the integer it
/// denotes when that fits an `i64`, and `None` otherwise.
pub fn parse_integer(v: &Vec<char>, start: usize, end: usize) -> (r: Option<i64>)
    requires
        start <= end <= v.len(),
    ensures
        r == small_integer(v@.subrange(start as int, end as int)),
{
    let ghost s = v@.subrange(start as int, end as int);
    if start == end {
        return None;
    }
    let first: char = v[start];
    assert(s[0] == first);
    if first == '-' || first == '+' {
        assert(s.subrange(1, s.len() as int) == v@.subrange(start + 1, end as int));
        match parse_digits(v, start + 1, end) {
            None => None,
            Some(m) => {
                if first == '-' {
                    if m <= 9223372036854775807 {
                        Some(-(m as i64))
                    } else if m == 9223372036854775808 {
                        Some(i64::MIN)
                    } else {
                        None
                    }
                } else if m <= 9223372036854775807 {
                    Some(m as i64)
                } else {
                    None
                }
            },
        }
    } else {
        match parse_digits(v, start, end) {
            None => None,
            Some(m) => {
                if m <= 9223372036854775807 {
                    Some(m as i64)
                } else {
                    None
                }
            },
        }
    }
}

/// The one-character string that writes the digit `d`.
pub fn digit_text(d: u8) -> (r: &'static str)
    requires
        d < 10,
    ensures
        r@ == seq![digit_char(d as nat)],
{
    proof {
        reveal_strlit("0");
        reveal_strlit("1");
        reveal_strlit("2");
        reveal_strlit("3");
        reveal_strlit("4");
        reveal_strlit("5");
        reveal_strlit("6");
        reveal_strlit("7");
        reveal_strlit("8");
        reveal_strlit("9");
    }
    if d == 0 {
        "0"
    } else if d == 1 {
        "1"
    } else if d == 2 {
        "2"
    } else if d == 3 {
        "3"
    } else if d == 4 {
        "4"
    } else if d == 5 {
        "5"
    } else if d == 6 {
        "6"
    } else if d == 7 {
        "7"
    } else if d == 8 {
        "8"
    } else {
        "9"
    }
}

/// Reads a whole string as a signed numeral of 64 bits.
pub fn read_integer(text: &str) -> (r: Option<i64>)
    ensures
        r == small_integer(text@),
{
    let v = chars_of(text);
    assert(v@.subrange(0, v.len() as int) == v@);
    parse_integer(&v, 0, v.len())
}

/// Writes `n` in decimal, as a new string.
pub fn unsigned_to_text(n: u128) -> (r: String)
    ensures
        r@ == decimal_digits(n as nat),
    decreases n,
{
    if n < 10 {
        String::from_str(digit_text(n as u8))
    } else {
        let mut out = unsigned_to_text(n / 10);
        out.append(digit_text((n % 10) as u8));
        out
    }
}

/// Writes `v` in decimal, as a new string.
pub fn integer_to_text(v: i128) -> (r: String)
    ensures
        r@ == integer_text(v as int),
{
    proof {
        reveal_strlit("-");
    }
    if v >= 0 {
        unsigned_to_text(v as u128)
    } else {
        let m: u128 = if v == i128::MIN {
            0x8000_0000_0000_0000_0000_0000_0000_0000
        } else {
            (-v) as u128
        };
        let digits = unsigned_to_text(m);
        let mut out = String::from_str("-");
        out.append(digits.as_str());
        out
    }
}

/// Whether `pattern` stands in `v` at position `at`.
fn stands_at(v: &Vec<char>, at: usize, pattern: &Vec<char>) -> (r: bool)
    requires
        at + pattern.len() <= v.len(),
    ensures
        r == (v@.subrange(at as int, at + pattern.len()) == pattern@),
{
    let m: usize = pattern.len();
    let ghost window = v@.subrange(at as int, at + m);
    let mut k: usize = 0;
    while k < m
        invariant
            k <= m,
            m == pattern.len(),
            at + m <= v.len(),
            window == v@.subrange(at as int, at + m),
            forall|t: int| 0 <= t < k ==> window[t] == pattern@[t],
        decreases m - k,
    {
        if v[at + k] != pattern[k] {
            assert(window[k as int] != pattern@[k as int]);
            return false;
        }
        k = k + 1;
    }
    assert(window =~= pattern@);
    true
}

/// `s` with every occurrence of `pattern` taken out.
pub fn remove_all(s: &str, pattern: &str) -> (r: String)
    ensures
        r@ == without_all(s@, pattern@),
{
    let v = chars_of(s);
    let pat = chars_of(pattern);
    let n: usize = v.len();
    let m: usize = pat.len();
    if m == 0 || n < m {
        return String::from_str(s);
    }
    let mut out = String::new();
    let mut kept: usize = 0;
    let mut i: usize = 0;
    assert(s@.subrange(0, n as int) == s@);
    assert(out@ + s@.subrange(0, 0) + without_all(s@, pat@) =~= without_all(s@, pat@));
    while i <= n - m
        invariant
            kept <= i <= n,
            n == v.len(),
            m == pat.len(),
            0 < m <= n,
            v@ == s@,
            pat@ == pattern@,
            without_all(s@, pat@) == out@ + s@.subrange(kept as int, i as int) + without_all(
                s@.subrange(i as int, n as int),
                pat@,
            ),
        decreases n - i,
    {
        let ghost rest = s@.subrange(i as int, n as int);
        assert(rest.subrange(0, m as int) == v@.subrange(i as int, i + m));
        if stands_at(&v, i, &pat) {
            assert(rest.subrange(m as int, rest.len() as int) == s@.subrange(i + m, n as int));
            out.append(s.substring_char(kept, i));
            i = i + m;
            kept = i;
            assert(s@.subrange(kept as int, i as int) =~= Seq::<char>::empty());
            assert(out@ + s@.subrange(kept as int, i as int) =~= out@);
        } else {
            assert(rest.drop_first() == s@.subrange(i + 1, n as int));
            assert(s@.subrange(kept as int, i as int) + seq![rest[0]] =~= s@.subrange(
                kept as int,
                i + 1,
            ));
            assert(out@ + s@.subrange(kept as int, i as int) + (seq![rest[0]] + without_all(
                rest.drop_first(),
                pat@,
            )) =~= out@ + s@.subrange(kept as int, i + 1) + without_all(
                rest.drop_first(),
                pat@,
            ));
            i = i + 1;
        }
    }
    assert(s@.subrange(kept as int, i as int) + s@.subrange(i as int, n as int) =~= s@.subrange(
        kept as int,
        n as int,
    ));
    out.append(s.substring_char(kept, n));
    out
}

/// A digit's character is a digit, and stands for it.
pub proof fn lemma_digit_char(d: nat)
    requires
        d < 10,
    ensures
        is_digit(digit_char(d)),
        digit_value(digit_char(d)) == d,
{
}

/// The numeral of a number is a run of digits, not empty, that denotes the
/// number.
pub proof fn lemma_decimal_digits(n: nat)
    ensures
        decimal_digits(n).len() >= 1,
        all_digits(decimal_digits(n)),
        digits_value(decimal_digits(n)) == n,
    decreases n,
{
    if n < 10 {
        lemma_digit_char(n);
        let s = seq![digit_char(n)];
        assert(s.drop_last() =~= Seq::<char>::empty());
        assert(digits_value(s.drop_last()) == 0);
    } else {
        lemma_decimal_digits(n / 10);
        lemma_digit_char(n % 10);
        let front = decimal_digits(n / 10);
        let s = front.push(digit_char(n % 10));
        assert(s.drop_last() =~= front);
        assert forall|i: int| 0 <= i < s.len() implies is_digit(#[trigger] s[i]) by {
            if i < front.len() {
                assert(s[i] == front[i]);
            }
        }
    }
}

/// What is written is read back: the numeral of an integer denotes it.
pub proof fn lemma_integer_text_reads_back(v: int)
    ensures
        integer_value(integer_text(v)) == Some(v),
{
    if v < 0 {
        let digits = decimal_digits((-v) as nat);
        lemma_decimal_digits((-v) as nat);
        let s = seq!['-'] + digits;
        assert(s[0] == '-');
        assert(s.subrange(1, s.len() as int) =~= digits);
    } else {
        lemma_decimal_digits(v as nat);
        let s = decimal_digits(v as nat);
        assert(is_digit(s[0]));
    }
}

} // verus!
