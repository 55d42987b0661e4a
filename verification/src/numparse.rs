//! Parsing decimal text into integers and fixed-point decimals.
use vstd::prelude::*;

use crate::json::Dec;

verus! {

/// Whether `c` is an ASCII digit.
pub open spec fn is_digit(c: char) -> bool {
    48 <= c as u32 && c as u32 <= 57
}

/// The numeric value of the ASCII digit `c`.
pub open spec fn digit_val(c: char) -> int {
    c as u32 - 48
}

/// Whether every character of `s` is an ASCII digit.
pub open spec fn all_digits(s: Seq<char>) -> bool {
    forall|i: int| 0 <= i < s.len() ==> is_digit(s[i])
}

/// The value of a run of ASCII digits read as a base-ten numeral.
pub open spec fn digits_val(s: Seq<char>) -> int
    decreases s.len(),
{
    if s.len() == 0 {
        0
    } else {
        digits_val(s.drop_last()) * 10 + digit_val(s.last())
    }
}

/// Ten to the power `n`.
pub open spec fn pow10(n: nat) -> int
    decreases n,
{
    if n == 0 {
        1
    } else {
        pow10((n - 1) as nat) * 10
    }
}

/// Index of the first `.` in `s`, or -1 when there is none.
pub open spec fn first_dot(s: Seq<char>) -> int
    decreases s.len(),
{
    if s.len() == 0 {
        -1
    } else if s[0] == '.' {
        0
    } else {
        let r = first_dot(s.drop_first());
        if r < 0 {
            -1
        } else {
            r + 1
        }
    }
}

/// What parsing `s` as a signed integer yields: an optional sign followed by
/// at least one digit, and a value that fits an `i64`; anything else fails.
pub open spec fn spec_parse_i64(s: Seq<char>) -> Option<int> {
    let neg = s.len() > 0 && s[0] == '-';
    let ds = if s.len() > 0 && (s[0] == '+' || s[0] == '-') {
        s.drop_first()
    } else {
        s
    };
    if ds.len() > 0 && all_digits(ds) {
        let v = if neg {
            -digits_val(ds)
        } else {
            digits_val(ds)
        };
        if i64::MIN <= v <= i64::MAX {
            Some(v)
        } else {
            None
        }
    } else {
        None
    }
}

/// What parsing `s` as a fixed-point decimal yields: an optional sign and
/// at least one digit, with an optional `.` before, between or after the
/// digits, so `-12.345` parses to `(-12345, 3)`, `3.` to `(3, 0)` and
/// `.5` to `(5, 1)`. Exponent notation is not part of the grammar and
/// fails.
pub open spec fn spec_parse_dec(s: Seq<char>) -> Option<(int, nat)> {
    let neg = s.len() > 0 && s[0] == '-';
    let ds = if s.len() > 0 && (s[0] == '+' || s[0] == '-') {
        s.drop_first()
    } else {
        s
    };
    let k = first_dot(ds);
    let ip = if k < 0 {
        ds
    } else {
        ds.take(k)
    };
    let fp = if k < 0 {
        Seq::<char>::empty()
    } else {
        ds.skip(k + 1)
    };
    if (if k < 0 {
        ip.len() > 0
    } else {
        ip.len() + fp.len() > 0
    }) && all_digits(ip) && all_digits(fp) && fp.len() <= u32::MAX {
        let m = digits_val(ip) * pow10(fp.len()) + digits_val(fp);
        let v = if neg {
            -m
        } else {
            m
        };
        if i64::MIN <= v <= i64::MAX {
            Some((v, fp.len()))
        } else {
            None
        }
    } else {
        None
    }
}

pub proof fn lemma_digits_val_bounds(s: Seq<char>)
    requires
        all_digits(s),
    ensures
        0 <= digits_val(s) < pow10(s.len()),
    decreases s.len(),
{
    if s.len() > 0 {
        assert(all_digits(s.drop_last()));
        lemma_digits_val_bounds(s.drop_last());
        let p = pow10((s.len() - 1) as nat);
        assert(digits_val(s.drop_last()) * 10 <= (p - 1) * 10) by (nonlinear_arith)
            requires
                digits_val(s.drop_last()) <= p - 1,
        ;
    }
}

pub proof fn lemma_digits_val_take_step(s: Seq<char>, i: int)
    requires
        0 <= i < s.len(),
    ensures
        digits_val(s.take(i + 1)) == digits_val(s.take(i)) * 10 + digit_val(s[i]),
{
    assert(s.take(i + 1).drop_last() =~= s.take(i));
    assert(s.take(i + 1).last() == s[i]);
}

pub proof fn lemma_digits_val_grows(s: Seq<char>, i: int)
    requires
        all_digits(s),
        0 <= i <= s.len(),
    ensures
        digits_val(s) >= digits_val(s.take(i)),
    decreases s.len() - i,
{
    if i < s.len() {
        lemma_digits_val_take_step(s, i);
        assert(all_digits(s.take(i))) by {
            assert(forall|j: int| 0 <= j < i ==> s.take(i)[j] == s[j]);
        }
        lemma_digits_val_bounds(s.take(i));
        assert(digits_val(s.take(i + 1)) >= digits_val(s.take(i)));
        lemma_digits_val_grows(s, i + 1);
    } else {
        assert(s.take(i) =~= s);
    }
}

pub proof fn lemma_pow10_pos(n: nat)
    ensures
        pow10(n) >= 1,
    decreases n,
{
    if n > 0 {
        lemma_pow10_pos((n - 1) as nat);
    }
}

pub proof fn lemma_pow10_mono(a: nat, b: nat)
    requires
        a <= b,
    ensures
        pow10(a) <= pow10(b),
    decreases b,
{
    if a < b {
        lemma_pow10_mono(a, (b - 1) as nat);
        lemma_pow10_pos((b - 1) as nat);
    }
}

pub proof fn lemma_digits_val_concat(a: Seq<char>, b: Seq<char>)
    ensures
        digits_val(a + b) == digits_val(a) * pow10(b.len()) + digits_val(b),
    decreases b.len(),
{
    if b.len() == 0 {
        assert(a + b =~= a);
    } else {
        lemma_digits_val_concat(a, b.drop_last());
        assert((a + b).drop_last() =~= a + b.drop_last());
        assert((a + b).last() == b.last());
        let p = pow10((b.len() - 1) as nat);
        assert(digits_val(a) * p * 10 == digits_val(a) * (p * 10)) by (nonlinear_arith);
    }
}

pub proof fn lemma_first_dot_is(s: Seq<char>, k: int)
    requires
        0 <= k < s.len(),
        s[k] == '.',
        forall|j: int| 0 <= j < k ==> s[j] != '.',
    ensures
        first_dot(s) == k,
    decreases k,
{
    if k > 0 {
        lemma_first_dot_is(s.drop_first(), k - 1);
    }
}

pub proof fn lemma_first_dot_props(s: Seq<char>)
    ensures
        first_dot(s) == -1 || (0 <= first_dot(s) < s.len() && s[first_dot(s)] == '.'),
    decreases s.len(),
{
    if s.len() > 0 && s[0] != '.' {
        lemma_first_dot_props(s.drop_first());
    }
}

pub proof fn lemma_first_dot_late(s: Seq<char>, m: int)
    requires
        0 <= m <= s.len(),
        forall|j: int| 0 <= j < m ==> s[j] != '.',
    ensures
        first_dot(s) == -1 || first_dot(s) >= m,
    decreases m,
{
    if m > 0 && s.len() > 0 {
        lemma_first_dot_late(s.drop_first(), m - 1);
    }
}

/// Parses `s` as a signed base-ten integer, exactly as `spec_parse_i64`
/// describes.
#[verifier::loop_isolation(false)]
pub fn parse_i64(s: &str) -> (r: Option<i64>)
    ensures
        match r {
            Some(v) => spec_parse_i64(s@) == Some(v as int),
            None => spec_parse_i64(s@) is None,
        },
{
    let n = s.unicode_len();
    if n == 0 {
        return None;
    }
    let c0 = s.get_char(0);
    let neg = c0 == '-';
    let start: usize = if c0 == '-' || c0 == '+' {
        1
    } else {
        0
    };
    let ghost ds = if start == 1 {
        s@.drop_first()
    } else {
        s@
    };
    if n == start {
        return None;
    }
    let mut acc: i128 = 0;
    let mut ovf = false;
    let ghost mut jo: int = 0;
    let mut i = start;
    while i < n
        invariant
            start <= i <= n,
            n == s@.len(),
            start == 0 || start == 1,
            start == 1 ==> s@.len() > 0 && (s@[0] == '-' || s@[0] == '+'),
            start == 0 ==> s@.len() > 0 && s@[0] != '-' && s@[0] != '+',
            neg == (s@[0] == '-'),
            ds == if start == 1 {
                s@.drop_first()
            } else {
                s@
            },
            ds.len() == n - start,
            all_digits(ds.take(i - start)),
            !ovf ==> acc == digits_val(ds.take(i - start)),
            0 <= acc <= 0x8000_0000_0000_0000i128,
            ovf ==> 0 <= jo <= i - start && digits_val(ds.take(jo)) > 0x8000_0000_0000_0000i128,
        decreases n - i,
    {
        let c = s.get_char(i);
        let u = c as u32;
        proof {
            assert(ds[i - start] == s@[i as int]);
        }
        if !(48 <= u && u <= 57) {
            proof {
                assert(!is_digit(ds[i - start]));
            }
            return None;
        }
        proof {
            lemma_digits_val_take_step(ds, i - start);
            assert(ds.take(i + 1 - start).drop_last() =~= ds.take(i - start));
        }
        if !ovf {
            let d = (u - 48) as i128;
            let acc2 = acc * 10 + d;
            if acc2 > 0x8000_0000_0000_0000i128 {
                ovf = true;
                proof {
                    jo = i + 1 - start;
                }
            } else {
                acc = acc2;
            }
        }
        i += 1;
    }
    proof {
        assert(ds.take(n - start) =~= ds);
    }
    if ovf {
        proof {
            lemma_digits_val_grows(ds, jo);
        }
        return None;
    }
    if neg {
        proof {
            assert(acc <= 0x8000_0000_0000_0000i128);
        }
        Some((-acc) as i64)
    } else {
        if acc > 0x7fff_ffff_ffff_ffffi128 {
            return None;
        }
        Some(acc as i64)
    }
}

/// The digit characters a decimal literal contributes to its scaled units:
/// the integer digits followed by the fraction digits, the dot dropped.
pub open spec fn dec_seen(ds: Seq<char>, seen_dot: bool, dot_at: int, upto: int) -> Seq<char> {
    if seen_dot {
        ds.take(dot_at) + ds.skip(dot_at + 1).take(upto - dot_at - 1)
    } else {
        ds.take(upto)
    }
}

/// Parses `s` as a fixed-point decimal, exactly as `spec_parse_dec`
/// describes.
#[verifier::loop_isolation(false)]
#[verifier::rlimit(50)]
pub fn parse_dec(s: &str) -> (r: Option<Dec>)
    ensures
        match r {
            Some(d) => spec_parse_dec(s@) == Some((d.units as int, d.places as nat)),
            None => spec_parse_dec(s@) is None,
        },
{
    let n = s.unicode_len();
    if n == 0 {
        return None;
    }
    let c0 = s.get_char(0);
    let neg = c0 == '-';
    let start: usize = if c0 == '-' || c0 == '+' {
        1
    } else {
        0
    };
    let ghost ds = if start == 1 {
        s@.drop_first()
    } else {
        s@
    };
    if n == start {
        return None;
    }
    let mut acc: i128 = 0;
    let mut ovf = false;
    let ghost mut jo: Seq<char> = Seq::empty();
    let mut seen_dot = false;
    let mut dot_at: usize = 0;
    let mut i = start;
    while i < n
        invariant
            start <= i <= n,
            n == s@.len(),
            start == 0 || start == 1,
            start == 1 ==> s@.len() > 0 && (s@[0] == '-' || s@[0] == '+'),
            start == 0 ==> s@.len() > 0 && s@[0] != '-' && s@[0] != '+',
            neg == (s@[0] == '-'),
            ds == if start == 1 {
                s@.drop_first()
            } else {
                s@
            },
            ds.len() == n - start,
            seen_dot ==> dot_at < i - start && dot_at < ds.len() && ds[dot_at as int] == '.'
                && first_dot(ds) == dot_at,
            !seen_dot ==> forall|j: int| 0 <= j < i - start ==> ds[j] != '.',
            forall|j: int|
                0 <= j < i - start && !(seen_dot && j == dot_at) ==> is_digit(
                    #[trigger] ds[j],
                ),
            !ovf ==> acc == digits_val(dec_seen(ds, seen_dot, dot_at as int, i - start)),
            0 <= acc <= 0x8000_0000_0000_0000i128,
            ovf ==> all_digits(jo) && digits_val(jo) > 0x8000_0000_0000_0000i128 && jo
                == dec_seen(ds, seen_dot, dot_at as int, i - start).take(jo.len() as int)
                && jo.len() <= dec_seen(ds, seen_dot, dot_at as int, i - start).len(),
        decreases n - i,
    {
        let ghost seen_before = dec_seen(ds, seen_dot, dot_at as int, i - start);
        let c = s.get_char(i);
        let u = c as u32;
        proof {
            assert(ds[i - start] == s@[i as int]);
        }
        if 48 <= u && u <= 57 {
            proof {
                assert(is_digit(ds[i - start]));
                assert(dec_seen(ds, seen_dot, dot_at as int, i + 1 - start) =~= seen_before.push(
                    ds[i - start],
                ));
                assert(seen_before.push(ds[i - start]).drop_last() =~= seen_before);
            }
            if !ovf {
                let d = (u - 48) as i128;
                let acc2 = acc * 10 + d;
                if acc2 > 0x8000_0000_0000_0000i128 {
                    ovf = true;
                    proof {
                        jo = seen_before.push(ds[i - start]);
                        assert(jo =~= dec_seen(ds, seen_dot, dot_at as int, i + 1 - start).take(
                            jo.len() as int,
                        ));
                    }
                } else {
                    acc = acc2;
                }
            } else {
                proof {
                    assert(jo =~= dec_seen(ds, seen_dot, dot_at as int, i + 1 - start).take(
                        jo.len() as int,
                    ));
                }
            }
        } else if c == '.' {
            if seen_dot {
                // a second dot lands in the fraction digits, which then
                // cannot all be digits
                proof {
                    let k = first_dot(ds);
                    let fp = ds.skip(k + 1);
                    assert(fp[i - start - (dot_at + 1)] == '.');
                    assert(!is_digit('.'));
                }
                return None;
            }
            proof {
                lemma_first_dot_is(ds, i - start);
                assert(dec_seen(ds, true, i - start, i + 1 - start) =~= seen_before);
                if ovf {
                    assert(jo =~= dec_seen(ds, true, i - start, i + 1 - start).take(
                        jo.len() as int,
                    ));
                }
            }
            seen_dot = true;
            dot_at = i - start;
        } else {
            // neither digit nor dot: some digit run is invalid wherever the
            // first dot lies
            proof {
                if seen_dot {
                    let fp = ds.skip(dot_at + 1);
                    assert(fp[i - start - (dot_at + 1)] == ds[i - start]);
                } else {
                    lemma_first_dot_late(ds, i - start);
                    lemma_first_dot_props(ds);
                    let k = first_dot(ds);
                    if k < 0 {
                        assert(!is_digit(ds[i - start]));
                    } else {
                        assert(k > i - start || k == i - start);
                        if k == i - start {
                            // the dot itself: but this char is not a dot
                            assert(ds[k] == '.');
                            assert(false);
                        } else {
                            assert(ds.take(k)[i - start] == ds[i - start]);
                        }
                    }
                }
            }
            return None;
        }
        i += 1;
    }
    let ghost ipf = if seen_dot {
        ds.take(dot_at as int)
    } else {
        ds
    };
    let ghost fpf = if seen_dot {
        ds.skip(dot_at as int + 1)
    } else {
        Seq::<char>::empty()
    };
    proof {
        if !seen_dot {
            lemma_first_dot_late(ds, ds.len() as int);
            lemma_first_dot_props(ds);
            assert(first_dot(ds) == -1);
            assert(dec_seen(ds, false, dot_at as int, n - start) =~= ds);
        } else {
            assert(ds.skip(dot_at as int + 1).take(n - start - (dot_at as int) - 1) =~= ds.skip(
                dot_at as int + 1,
            ));
            assert(dec_seen(ds, true, dot_at as int, n - start) =~= ipf + fpf);
        }
        assert(dec_seen(ds, seen_dot, dot_at as int, n - start) == ipf + fpf);
        assert(all_digits(ipf)) by {
            assert(forall|j: int| 0 <= j < ipf.len() ==> ipf[j] == ds[j]);
        }
        assert(all_digits(fpf)) by {
            assert(forall|j: int|
                0 <= j < fpf.len() ==> fpf[j] == ds[j + dot_at + 1] && !(j + dot_at + 1
                    == dot_at));
        }
        lemma_digits_val_concat(ipf, fpf);
        assert(all_digits(ipf + fpf));
    }
    if seen_dot && n - start == 1 {
        // a lone dot carries no digits at all
        proof {
            assert(ipf.len() == 0 && fpf.len() == 0);
        }
        return None;
    }
    if ovf {
        proof {
            lemma_digits_val_grows(ipf + fpf, jo.len() as int);
        }
        return None;
    }
    let fl: usize = if seen_dot {
        n - start - dot_at - 1
    } else {
        0
    };
    if fl > 4294967295usize {
        return None;
    }
    let places: u32 = fl as u32;
    if neg {
        Some(Dec { units: (-acc) as i64, places })
    } else {
        if acc > 0x7fff_ffff_ffff_ffffi128 {
            return None;
        }
        Some(Dec { units: acc as i64, places })
    }
}

} // verus!
