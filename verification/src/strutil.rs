//! Small helpers over strings and characters.
use vstd::prelude::*;

verus! {

/// Relies on str's `PartialEq`: two string slices are equal exactly when
/// their character sequences are.
#[verifier::external_body]
pub fn str_eq_str(a: &str, b: &str) -> (r: bool)
    ensures
        r == (a@ == b@),
{
    a == b
}

/// Relies on `String::push`: appends the character at the end.
#[verifier::external_body]
pub fn string_push(s: &mut String, c: char)
    ensures
        final(s)@ == old(s)@.push(c),
{
    s.push(c)
}

/// ASCII lowercase of one character; anything but `A`..`Z` is unchanged.
pub open spec fn lower_char(c: char) -> char {
    if 65 <= c as u32 && c as u32 <= 90 {
        (((c as u32) + 32) as u8) as char
    } else {
        c
    }
}

/// ASCII lowercase of a character sequence, elementwise.
pub open spec fn lower_seq(s: Seq<char>) -> Seq<char> {
    Seq::new(s.len(), |i: int| lower_char(s[i]))
}

/// ASCII lowercase of a string; characters outside `A`..`Z` are unchanged.
#[verifier::loop_isolation(false)]
pub fn ascii_lowercase(s: &str) -> (r: String)
    ensures
        r@ == lower_seq(s@),
{
    let n = s.unicode_len();
    let mut r = String::new();
    for i in 0..n
        invariant
            r@.len() == i,
            forall|j: int| 0 <= j < i ==> r@[j] == lower_char(s@[j]),
    {
        let c = s.get_char(i);
        let u = c as u32;
        let lc: char = if 65 <= u && u <= 90 {
            ((u + 32) as u8) as char
        } else {
            c
        };
        string_push(&mut r, lc);
    }
    proof {
        assert(r@ =~= lower_seq(s@));
    }
    r
}

/// The base-ten numeral of `n`, as characters, without leading zeros.
pub open spec fn dec_digits(n: nat) -> Seq<char>
    decreases n,
{
    if n < 10 {
        seq![((48 + n) as u8) as char]
    } else {
        dec_digits(n / 10).push(((48 + n % 10) as u8) as char)
    }
}

/// Writes `n` in base ten, as `dec_digits` states.
#[verifier::loop_isolation(false)]
pub fn fmt_u64(n: u64) -> (r: String)
    ensures
        r@ == dec_digits(n as nat),
{
    let mut rev: Vec<char> = Vec::new();
    let mut m = n;
    loop
        invariant
            dec_digits(n as nat) == dec_digits(m as nat) + rev@.reverse(),
        decreases m,
    {
        let ghost rev0 = rev@;
        let d: u8 = (m % 10) as u8;
        rev.push((48 + d) as char);
        proof {
            assert(rev@.reverse() =~= seq![rev@.last()] + rev0.reverse());
            if m >= 10 {
                assert(dec_digits((m / 10) as nat) + (seq![((48 + (m % 10) as nat) as u8) as char]
                    + rev0.reverse()) =~= (dec_digits((m / 10) as nat).push(
                    ((48 + (m % 10) as nat) as u8) as char,
                )) + rev0.reverse());
            } else {
                assert(seq![((48 + m as nat) as u8) as char] + rev0.reverse() =~= dec_digits(
                    m as nat,
                ) + rev0.reverse());
            }
        }
        m = m / 10;
        if m == 0 {
            break;
        }
    }
    let mut r = String::new();
    let ghost digits = dec_digits(n as nat);
    let n_chars = rev.len();
    proof {
        assert(digits == rev@.reverse());
        assert(digits.len() == rev@.len());
    }
    for i in 0..n_chars
        invariant
            n_chars == rev@.len(),
            digits == rev@.reverse(),
            r@.len() == i,
            forall|j: int| 0 <= j < i ==> r@[j] == digits[j],
    {
        let c = rev[n_chars - 1 - i];
        proof {
            assert(rev@.reverse()[i as int] == rev@[n_chars - 1 - i]);
        }
        string_push(&mut r, c);
    }
    proof {
        assert(r@ =~= digits);
    }
    r
}

/// `n` in base ten, left-padded with zeros to at least `width` characters.
pub open spec fn padded_digits(n: nat, width: nat) -> Seq<char> {
    if dec_digits(n).len() >= width {
        dec_digits(n)
    } else {
        Seq::new((width - dec_digits(n).len()) as nat, |j: int| '0') + dec_digits(n)
    }
}

pub proof fn lemma_dec_digits_len(n: nat, k: nat)
    requires
        k >= 1,
        n < crate::numparse::pow10(k),
    ensures
        1 <= dec_digits(n).len() <= k,
    decreases k,
{
    if n >= 10 {
        crate::numparse::lemma_pow10_pos((k - 1) as nat);
        lemma_dec_digits_len(n / 10, (k - 1) as nat);
    }
}

/// Writes `n` in base ten, as `padded_digits` states.
#[verifier::loop_isolation(false)]
pub fn fmt_u64_pad(n: u64, width: usize) -> (r: String)
    ensures
        r@ == padded_digits(n as nat, width as nat),
        r@.len() >= width,
{
    let digits = fmt_u64(n);
    let dl = digits.as_str().unicode_len();
    let mut r = String::new();
    let target: usize = if width > dl {
        width - dl
    } else {
        0
    };
    let mut pad: usize = 0;
    while pad < target
        invariant
            pad <= target,
            r@.len() == pad,
            forall|j: int| 0 <= j < pad ==> r@[j] == '0',
        decreases target - pad,
    {
        string_push(&mut r, '0');
        pad = pad + 1;
    }
    let out = r.concat(digits.as_str());
    proof {
        assert(out@ =~= padded_digits(n as nat, width as nat));
    }
    out
}

/// Whether `c` is ASCII whitespace.
pub open spec fn is_ws(c: char) -> bool {
    c == ' ' || c == '\t' || c == '\n' || c == '\r'
}

/// `s` with leading whitespace removed.
pub open spec fn drop_lead(s: Seq<char>) -> Seq<char>
    decreases s.len(),
{
    if s.len() > 0 && is_ws(s[0]) {
        drop_lead(s.drop_first())
    } else {
        s
    }
}

/// `s` with trailing whitespace removed.
pub open spec fn drop_trail(s: Seq<char>) -> Seq<char>
    decreases s.len(),
{
    if s.len() > 0 && is_ws(s.last()) {
        drop_trail(s.drop_last())
    } else {
        s
    }
}

/// `s` with ASCII whitespace removed from both ends.
pub open spec fn trim_seq(s: Seq<char>) -> Seq<char> {
    drop_trail(drop_lead(s))
}

/// Whether `c` is ASCII whitespace, as `is_ws` states.
pub fn is_ws_char(c: char) -> (r: bool)
    ensures
        r == is_ws(c),
{
    c == ' ' || c == '\t' || c == '\n' || c == '\r'
}

/// Removes ASCII whitespace from both ends of `s`, as `trim_seq` states;
/// other whitespace is kept.
#[verifier::loop_isolation(false)]
pub fn trim(s: &str) -> (r: String)
    ensures
        r@ == trim_seq(s@),
{
    let n = s.unicode_len();
    proof {
        assert(s@.skip(0) =~= s@);
    }
    let mut lo: usize = 0;
    while lo < n && is_ws_char(s.get_char(lo))
        invariant
            lo <= n,
            n == s@.len(),
            drop_lead(s@) == drop_lead(s@.skip(lo as int)),
        decreases n - lo,
    {
        proof {
            assert(s@.skip(lo as int).drop_first() =~= s@.skip(lo + 1));
        }
        lo = lo + 1;
    }
    let ghost t = s@.skip(lo as int);
    proof {
        assert(drop_lead(s@) == t);
    }
    proof {
        assert(t.take(n - lo) =~= t);
    }
    let mut hi: usize = n;
    while hi > lo && is_ws_char(s.get_char(hi - 1))
        invariant
            lo <= hi <= n,
            n == s@.len(),
            t == s@.skip(lo as int),
            drop_trail(t) == drop_trail(t.take(hi - lo)),
        decreases hi,
    {
        proof {
            assert(t.take(hi - lo)[hi - 1 - lo] == s@[hi - 1]);
            assert(t.take(hi - lo).last() == s@[hi - 1]);
            assert(t.take(hi - lo).drop_last() =~= t.take(hi - 1 - lo));
        }
        hi = hi - 1;
    }
    proof {
        if hi > lo {
            assert(t.take(hi - lo).last() == s@[hi - 1]);
        }
        assert(drop_trail(t) == t.take(hi - lo));
    }
    let piece = s.substring_char(lo, hi);
    proof {
        assert(piece@ =~= t.take(hi - lo));
    }
    String::from_str(piece)
}

} // verus!
