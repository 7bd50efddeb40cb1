//! Period notation: a count and a unit letter, such as `5s`, `2m`, `3h`, `4d`.
use vstd::prelude::*;
use crate::text::{chars_of, integer_value, parse_integer};
use crate::time::MAX_PERIOD;

verus! {

/// The seconds in one unit of the given letter; zero for a letter that names
/// no unit.
pub open spec fn unit_seconds(c: char) -> int {
    if c == 's' {
        1
    } else if c == 'm' {
        60
    } else if c == 'h' {
        3600
    } else if c == 'd' {
        86400
    } else {
        0
    }
}

/// The seconds that a period notation denotes: the signed count in front,
/// times the unit that the last character names. A notation denotes a period
/// only when that product is not zero and at most `MAX_PERIOD` in magnitude.
pub open spec fn period_seconds(text: Seq<char>) -> Option<int> {
    if text.len() == 0 {
        None
    } else {
        match integer_value(text.drop_last()) {
            Some(count) => {
                let total = count * unit_seconds(text.last());
                if total != 0 && -MAX_PERIOD <= total <= MAX_PERIOD {
                    Some(total)
                } else {
                    None
                }
            },
            None => None,
        }
    }
}

/// A count beyond 64 bits gives no period, whatever the unit.
proof fn lemma_long_count(x: int, unit: int)
    requires
        x < i64::MIN || x > i64::MAX,
        0 <= unit,
    ensures
        x * unit == 0 || x * unit < -MAX_PERIOD || x * unit > MAX_PERIOD,
{
    if unit >= 1 {
        if x > 0 {
            assert(x * unit >= x) by (nonlinear_arith)
                requires
                    x > 0,
                    unit >= 1,
            ;
        } else {
            assert(x * unit <= x) by (nonlinear_arith)
                requires
                    x < 0,
                    unit >= 1,
            ;
        }
    } else {
        assert(x * unit == 0) by (nonlinear_arith)
            requires
                unit == 0,
        ;
    }
}

/// A period: its length in seconds and the notation it was written in.
#[derive(Debug)]
pub struct Periods {
    periods: i64,
    periods_str: String,
}

impl Periods {
    /// The length in seconds.
    pub closed spec fn seconds(&self) -> int {
        self.periods as int
    }

    /// The notation.
    pub closed spec fn notation(&self) -> Seq<char> {
        self.periods_str@
    }

    /// The length is the one the notation denotes.
    pub open spec fn wf(&self) -> bool {
        period_seconds(self.notation()) == Some(self.seconds())
    }

    /// Reads a period notation; `None` when it denotes no period.
    pub fn parse(periods_str: String) -> (r: Option<Periods>)
        ensures
            r is Some <==> period_seconds(periods_str@) is Some,
            r is Some ==> r.unwrap().wf() && r.unwrap().notation() == periods_str@,
    {
        let v = chars_of(periods_str.as_str());
        let n: usize = v.len();
        if n == 0 {
            return None;
        }
        let last: char = v[n - 1];
        let unit: i64 = if last == 's' {
            1
        } else if last == 'm' {
            60
        } else if last == 'h' {
            3600
        } else if last == 'd' {
            86400
        } else {
            0
        };
        assert(v@.drop_last() == v@.subrange(0, n - 1));
        assert(unit == unit_seconds(v@.last()));
        match parse_integer(&v, 0, n - 1) {
            None => {
                proof {
                    if let Some(x) = integer_value(v@.drop_last()) {
                        lemma_long_count(x, unit as int);
                    }
                }
                None
            },
            Some(count) => {
                match count.checked_mul(unit) {
                    None => None,
                    Some(total) => {
                        if total != 0 && -MAX_PERIOD <= total && total <= MAX_PERIOD {
                            Some(Periods { periods: total, periods_str })
                        } else {
                            None
                        }
                    },
                }
            },
        }
    }

    /// The period that a notation denotes.
    pub fn new(periods_str: String) -> (r: Periods)
        requires
            period_seconds(periods_str@) is Some,
        ensures
            r.wf(),
            r.notation() == periods_str@,
    {
        match Periods::parse(periods_str) {
            Some(p) => p,
            None => {
                proof {
                    assert(false);
                }
                Periods { periods: 1, periods_str: String::new() }
            },
        }
    }

    /// The length in seconds.
    pub fn time(&self) -> (r: i64)
        ensures
            r == self.seconds(),
    {
        self.periods
    }

    /// The notation the period was written in.
    pub fn to_str(&self) -> (r: String)
        ensures
            r@ == self.notation(),
    {
        self.periods_str.clone()
    }
}

} // verus!
