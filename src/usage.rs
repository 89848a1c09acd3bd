use vstd::prelude::*;
use vstd::string::*;
use crate::calendar::{all_digits, digits_value, digit_value, is_digit};

verus! {

/// The usage-accounting counters that the remote service reports in the
/// headers of each response.
#[derive(Clone, Copy, Debug, PartialEq, Eq, Structural)]
pub struct UsageCounters {
    pub messages_used: usize,
    pub credits_used: usize,
    pub premium_messages_used: usize,
    pub premium_credits_used: usize,
}

/// Index of the first digit: an optional leading `+` is skipped.
pub open spec fn digits_start(s: Seq<char>) -> int {
    if s.len() > 0 && s[0] == '+' { 1 } else { 0 }
}

/// The unsigned decimal number that `s` spells (an optional `+`, then one or
/// more digits), if it fits a `usize`.
pub open spec fn decimal_of(s: Seq<char>) -> Option<usize> {
    let lo = digits_start(s);
    if lo < s.len() && all_digits(s, lo, s.len() as int) && digits_value(s, lo, s.len() as int)
        <= usize::MAX {
        Some(digits_value(s, lo, s.len() as int) as usize)
    } else {
        None
    }
}

/// The counter that a header value gives: its number, or zero where the header
/// is missing or does not hold a number.
pub open spec fn counter_of(value: Option<Seq<char>>) -> usize {
    match value {
        Some(s) => match decimal_of(s) {
            Some(n) => n,
            None => 0,
        },
        None => 0,
    }
}

proof fn lemma_digits_value_grows(s: Seq<char>, lo: int, mid: int, hi: int)
    requires
        lo <= mid <= hi,
        all_digits(s, lo, hi),
    ensures
        digits_value(s, lo, mid) <= digits_value(s, lo, hi),
    decreases hi - mid,
{
    if mid < hi {
        lemma_digits_value_grows(s, lo, mid, hi - 1);
        assert(is_digit(s[hi - 1]));
    }
}

/// Reads an unsigned decimal number as `str::parse::<usize>` does.
pub fn parse_decimal(s: &str) -> (r: Option<usize>)
    ensures
        r == decimal_of(s@),
{
    let n = s.unicode_len();
    let lo: usize = if n > 0 && s.get_char(0) == '+' { 1 } else { 0 };
    if lo >= n {
        return None;
    }
    let mut v: usize = 0;
    let mut i: usize = lo;
    while i < n
        invariant
            lo <= i <= n,
            n == s@.len(),
            lo == digits_start(s@),
            all_digits(s@, lo as int, i as int),
            v == digits_value(s@, lo as int, i as int),
        decreases n - i,
    {
        let c = s.get_char(i);
        let d = match digit_value(c) {
            Some(d) => d,
            None => {
                assert(!all_digits(s@, lo as int, n as int));
                return None;
            },
        };
        proof {
            assert(all_digits(s@, lo as int, i + 1)) by {
                assert forall|j: int| lo <= j < i + 1 implies is_digit(#[trigger] s@[j]) by {
                    if j < i {
                    }
                }
            }
        }
        if v > (usize::MAX - d as usize) / 10 {
            proof {
                assert(digits_value(s@, lo as int, i + 1) > usize::MAX) by (nonlinear_arith)
                    requires
                        digits_value(s@, lo as int, i + 1) == v * 10 + d,
                        v > (usize::MAX - d) / 10,
                        d <= 9,
                ;
                if all_digits(s@, lo as int, n as int) {
                    lemma_digits_value_grows(s@, lo as int, i + 1, n as int);
                }
            }
            return None;
        }
        proof {
            assert(v * 10 + d <= usize::MAX) by (nonlinear_arith)
                requires
                    v <= (usize::MAX - d) / 10,
                    d <= 9,
            ;
        }
        v = v * 10 + d as usize;
        i = i + 1;
    }
    Some(v)
}

/// The counter for one header value (`None` where the header is missing or
/// is not visible text).
pub fn usage_counter(value: Option<&str>) -> (r: usize)
    ensures
        r == counter_of(view_opt(value)),
{
    match value {
        Some(s) => match parse_decimal(s) {
            Some(n) => n,
            None => 0,
        },
        None => 0,
    }
}

pub open spec fn view_opt(value: Option<&str>) -> Option<Seq<char>> {
    match value {
        Some(s) => Some(s@),
        None => None,
    }
}

impl UsageCounters {
    /// The counters from the values of the headers `iexcloud-messages-used`,
    /// `iexcloud-credits-used`, `iexcloud-premium-messages-used` and
    /// `iexcloud-premium-credits-used`. A missing or unreadable header counts
    /// zero; it is never an error.
    pub fn from_header_values(
        messages: Option<&str>,
        credits: Option<&str>,
        premium_messages: Option<&str>,
        premium_credits: Option<&str>,
    ) -> (r: UsageCounters)
        ensures
            r.messages_used == counter_of(view_opt(messages)),
            r.credits_used == counter_of(view_opt(credits)),
            r.premium_messages_used == counter_of(view_opt(premium_messages)),
            r.premium_credits_used == counter_of(view_opt(premium_credits)),
            messages is None ==> r.messages_used == 0,
            credits is None ==> r.credits_used == 0,
            premium_messages is None ==> r.premium_messages_used == 0,
            premium_credits is None ==> r.premium_credits_used == 0,
    {
        UsageCounters {
            messages_used: usage_counter(messages),
            credits_used: usage_counter(credits),
            premium_messages_used: usage_counter(premium_messages),
            premium_credits_used: usage_counter(premium_credits),
        }
    }
}

} // verus!
