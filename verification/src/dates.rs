//! Calendar dates: parsing string bounds, picking a random date between
//! them, and formatting it back.
use vstd::prelude::*;

use crate::rng::rand_u64_between;
use crate::strutil::fmt_u64_pad;
use crate::strutil::padded_digits;
use crate::strutil::lemma_dec_digits_len;
use crate::numparse::is_digit;

verus! {

/// A calendar date with a time of day.
#[derive(Clone, Copy, Debug, PartialEq, Eq, Structural)]
pub struct DateTime {
    pub year: u64,
    pub month: u64,
    pub day: u64,
    pub hour: u64,
    pub minute: u64,
    pub second: u64,
}

/// Days in `month` of `year`, with the leap rule for February.
pub open spec fn spec_days_in_month(year: nat, month: nat) -> nat {
    if month == 2 {
        if year % 4 == 0 && (year % 100 != 0 || year % 400 == 0) {
            29
        } else {
            28
        }
    } else if month == 4 || month == 6 || month == 9 || month == 11 {
        30
    } else {
        31
    }
}

/// Days in `month` of `year`, as `spec_days_in_month` states.
pub fn days_in_month(year: u64, month: u64) -> (r: u64)
    ensures
        r == spec_days_in_month(year as nat, month as nat),
        28 <= r <= 31,
{
    if month == 2 {
        if year % 4 == 0 && (year % 100 != 0 || year % 400 == 0) {
            29
        } else {
            28
        }
    } else if month == 4 || month == 6 || month == 9 || month == 11 {
        30
    } else {
        31
    }
}

/// A well-formed date and time: four-digit year, real month and day,
/// in-range time of day.
pub open spec fn valid_dt(t: DateTime) -> bool {
    t.year <= 9999 && 1 <= t.month <= 12 && 1 <= t.day <= spec_days_in_month(
        t.year as nat,
        t.month as nat,
    ) && t.hour <= 23 && t.minute <= 59 && t.second <= 59
}

/// A single ordering key: later datetimes have larger keys.
pub open spec fn dt_key(t: DateTime) -> int {
    ((((t.year * 12 + t.month) * 32 + t.day) * 24 + t.hour) * 60 + t.minute) * 60 + t.second
}

/// The text of `t`: `YYYY-MM-DD`, with ` HH:MM:SS` appended unless
/// `date_only`.
pub open spec fn spec_fmt_dt(t: DateTime, date_only: bool) -> Seq<char> {
    let date = padded_digits(t.year as nat, 4) + "-"@ + padded_digits(t.month as nat, 2) + "-"@
        + padded_digits(t.day as nat, 2);
    if date_only {
        date
    } else {
        date + " "@ + padded_digits(t.hour as nat, 2) + ":"@ + padded_digits(t.minute as nat, 2)
            + ":"@ + padded_digits(t.second as nat, 2)
    }
}

/// The value of the digits `s[lo..hi]`, read as a base-ten numeral.
pub open spec fn field_val(s: Seq<char>, lo: int, hi: int) -> nat {
    crate::numparse::digits_val(s.subrange(lo, hi)) as nat
}

/// Whether every character of `s[lo..hi]` is an ASCII digit.
pub open spec fn digits_at(s: Seq<char>, lo: int, hi: int) -> bool {
    forall|j: int| lo <= j < hi ==> is_digit(s[j])
}

/// What parsing a date bound yields: `YYYY-MM-DD`, optionally followed by
/// ` HH:MM:SS`, with every field in range; anything else fails.
pub open spec fn spec_parse_dt(s: Seq<char>) -> Option<DateTime> {
    if s.len() != 10 && s.len() != 19 {
        None
    } else if !(digits_at(s, 0, 4) && s[4] == '-' && digits_at(s, 5, 7) && s[7] == '-'
        && digits_at(s, 8, 10)) {
        None
    } else if s.len() == 19 && !(s[10] == ' ' && digits_at(s, 11, 13) && s[13] == ':' && digits_at(
        s,
        14,
        16,
    ) && s[16] == ':' && digits_at(s, 17, 19)) {
        None
    } else {
        let t = DateTime {
            year: field_val(s, 0, 4) as u64,
            month: field_val(s, 5, 7) as u64,
            day: field_val(s, 8, 10) as u64,
            hour: if s.len() == 19 {
                field_val(s, 11, 13) as u64
            } else {
                0
            },
            minute: if s.len() == 19 {
                field_val(s, 14, 16) as u64
            } else {
                0
            },
            second: if s.len() == 19 {
                field_val(s, 17, 19) as u64
            } else {
                0
            },
        };
        if valid_dt(t) {
            Some(t)
        } else {
            None
        }
    }
}

/// Reads the two- or four-digit run `s[lo..hi)` as a number; fails on a
/// non-digit.
#[verifier::loop_isolation(false)]
fn read_field(s: &str, lo: usize, hi: usize) -> (r: Option<u64>)
    requires
        lo <= hi <= s@.len(),
        hi - lo <= 4,
    ensures
        match r {
            Some(v) => digits_at(s@, lo as int, hi as int) && v == field_val(
                s@,
                lo as int,
                hi as int,
            ),
            None => !digits_at(s@, lo as int, hi as int),
        },
{
    let mut acc: u64 = 0;
    let mut i = lo;
    while i < hi
        invariant
            lo <= i <= hi,
            digits_at(s@, lo as int, i as int),
            acc == field_val(s@, lo as int, i as int),
            acc <= 9999,
        decreases hi - i,
    {
        let c = s.get_char(i);
        let u = c as u32;
        if !(48 <= u && u <= 57) {
            return None;
        }
        proof {
            assert(crate::numparse::pow10(0) == 1);
            assert(crate::numparse::pow10(1) == 10);
            assert(crate::numparse::pow10(2) == 100);
            assert(crate::numparse::pow10(3) == 1000);
            crate::numparse::lemma_digits_val_bounds(s@.subrange(lo as int, i as int));
            assert(s@.subrange(lo as int, i + 1).drop_last() =~= s@.subrange(lo as int, i as int));
            assert(s@.subrange(lo as int, i + 1).last() == s@[i as int]);
        }
        acc = acc * 10 + (u - 48) as u64;
        i = i + 1;
        proof {
            assert(acc == field_val(s@, lo as int, i as int));
        }
    }
    Some(acc)
}

/// Parses a date bound, exactly as `spec_parse_dt` states.
#[verifier::loop_isolation(false)]
pub fn parse_dt(s: &str) -> (r: Option<DateTime>)
    ensures
        r == spec_parse_dt(s@),
{
    let n = s.unicode_len();
    if n != 10 && n != 19 {
        return None;
    }
    if !(s.get_char(4) == '-' && s.get_char(7) == '-') {
        return None;
    }
    let year = match read_field(s, 0, 4) {
        Some(v) => v,
        None => {
            return None;
        },
    };
    let month = match read_field(s, 5, 7) {
        Some(v) => v,
        None => {
            return None;
        },
    };
    let day = match read_field(s, 8, 10) {
        Some(v) => v,
        None => {
            return None;
        },
    };
    let mut hour: u64 = 0;
    let mut minute: u64 = 0;
    let mut second: u64 = 0;
    if n == 19 {
        if !(s.get_char(10) == ' ' && s.get_char(13) == ':' && s.get_char(16) == ':') {
            return None;
        }
        hour = match read_field(s, 11, 13) {
            Some(v) => v,
            None => {
                return None;
            },
        };
        minute = match read_field(s, 14, 16) {
            Some(v) => v,
            None => {
                return None;
            },
        };
        second = match read_field(s, 17, 19) {
            Some(v) => v,
            None => {
                return None;
            },
        };
    }
    let t = DateTime { year, month, day, hour, minute, second };
    let dim = days_in_month(year, month);
    if year <= 9999 && 1 <= month && month <= 12 && 1 <= day && day <= dim && hour <= 23 && minute
        <= 59 && second <= 59 {
        Some(t)
    } else {
        None
    }
}

/// The lower bound a `min_value` string resolves to: the parsed date, or
/// the start of 1970.
pub open spec fn spec_dt_lo(s: Seq<char>) -> DateTime {
    match spec_parse_dt(s) {
        Some(t) => t,
        None => DateTime { year: 1970, month: 1, day: 1, hour: 0, minute: 0, second: 0 },
    }
}

/// The upper bound a `max_value` string resolves to: the parsed date, or
/// the end of 2099; a bound below the lower one collapses onto it.
pub open spec fn spec_dt_hi(s: Seq<char>, lo: DateTime) -> DateTime {
    let h = match spec_parse_dt(s) {
        Some(t) => t,
        None => DateTime { year: 2099, month: 12, day: 31, hour: 23, minute: 59, second: 59 },
    };
    if dt_key(h) < dt_key(lo) {
        lo
    } else {
        h
    }
}

/// Formats `t`, exactly as `spec_fmt_dt` states; ten characters for a bare
/// date, nineteen with the time of day.
pub fn fmt_dt(t: &DateTime, date_only: bool) -> (r: String)
    requires
        valid_dt(*t),
    ensures
        r@ == spec_fmt_dt(*t, date_only),
        r@.len() == if date_only {
            10int
        } else {
            19int
        },
{
    proof {
        assert(crate::numparse::pow10(0) == 1);
        assert(crate::numparse::pow10(1) == 10);
        assert(crate::numparse::pow10(2) == 100);
        assert(crate::numparse::pow10(3) == 1000);
        assert(crate::numparse::pow10(4) == 10000);
        lemma_dec_digits_len(t.year as nat, 4);
        lemma_dec_digits_len(t.month as nat, 2);
        lemma_dec_digits_len(t.day as nat, 2);
        lemma_dec_digits_len(t.hour as nat, 2);
        lemma_dec_digits_len(t.minute as nat, 2);
        lemma_dec_digits_len(t.second as nat, 2);
    }
    let mut r = fmt_u64_pad(t.year, 4);
    r.append("-");
    r.append(fmt_u64_pad(t.month, 2).as_str());
    r.append("-");
    r.append(fmt_u64_pad(t.day, 2).as_str());
    if !date_only {
        r.append(" ");
        r.append(fmt_u64_pad(t.hour, 2).as_str());
        r.append(":");
        r.append(fmt_u64_pad(t.minute, 2).as_str());
        r.append(":");
        r.append(fmt_u64_pad(t.second, 2).as_str());
    }
    proof {
        reveal_strlit("-");
        reveal_strlit(" ");
        reveal_strlit(":");
    }
    r
}

/// A random date between the bounds the two strings resolve to, formatted
/// as `spec_fmt_dt` lays out: the result is always a valid date, no
/// earlier than the lower bound and no later than the upper one.
pub fn datetime(min_value: &str, max_value: &str, date_only: bool) -> (r: String)
    ensures
        r@.len() == if date_only {
            10int
        } else {
            19int
        },
        exists|t: DateTime|
            valid_dt(t) && r@ == spec_fmt_dt(t, date_only) && dt_key(spec_dt_lo(min_value@))
                <= dt_key(t) <= dt_key(spec_dt_hi(max_value@, spec_dt_lo(min_value@))),
{
    let lo = match parse_dt(min_value) {
        Some(t) => t,
        None => DateTime { year: 1970, month: 1, day: 1, hour: 0, minute: 0, second: 0 },
    };
    let hi0 = match parse_dt(max_value) {
        Some(t) => t,
        None => DateTime { year: 2099, month: 12, day: 31, hour: 23, minute: 59, second: 59 },
    };
    let hi = if dt_key_exec(&hi0) < dt_key_exec(&lo) {
        lo
    } else {
        hi0
    };
    let year = rand_u64_between(lo.year, hi.year);
    let month = rand_u64_between(1, 12);
    let day = rand_u64_between(1, days_in_month(year, month));
    let hour = rand_u64_between(0, 23);
    let minute = rand_u64_between(0, 59);
    let second = rand_u64_between(0, 59);
    let mut t = DateTime { year, month, day, hour, minute, second };
    if dt_key_exec(&t) < dt_key_exec(&lo) {
        t = lo;
    }
    if dt_key_exec(&t) > dt_key_exec(&hi) {
        t = hi;
    }
    proof {
        assert(valid_dt(t));
        assert(dt_key(lo) <= dt_key(t) <= dt_key(hi));
    }
    fmt_dt(&t, date_only)
}

/// The ordering key of `t`, as `dt_key` states.
fn dt_key_exec(t: &DateTime) -> (r: u64)
    requires
        valid_dt(*t),
    ensures
        r == dt_key(*t),
{
    ((((t.year * 12 + t.month) * 32 + t.day) * 24 + t.hour) * 60 + t.minute) * 60 + t.second
}

} // verus!
