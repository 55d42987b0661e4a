//! Generators for the text-flavoured schema types: words, titles,
//! sentences, identifiers and network-shaped tokens.
use vstd::prelude::*;

use crate::rng::rand_u64_between;
use crate::rng::rand_usize_below;
use crate::strutil::dec_digits;
use crate::strutil::fmt_u64;
use crate::strutil::string_push;

verus! {

/// `v` capped at `u32::MAX`, so a length always fits a `usize`.
pub open spec fn cap32(v: nat) -> nat {
    if v > 0xffff_ffff {
        0xffff_ffff
    } else {
        v
    }
}

/// Smallest length the policy allows when no exact length is set.
pub open spec fn spec_len_lo(min_l: nat) -> nat {
    if min_l == 0 {
        1
    } else {
        cap32(min_l)
    }
}

/// Largest length the policy allows when no exact length is set.
pub open spec fn spec_len_hi(min_l: nat, max_l: nat) -> nat {
    if max_l >= spec_len_lo(min_l) {
        cap32(max_l)
    } else {
        cap32(spec_len_lo(min_l) + 9)
    }
}

/// Whether a generated text length obeys the sizing attributes: an exact
/// `length` wins, otherwise the `[min_length, max_length]` range with its
/// defaults.
pub open spec fn len_ok(length: nat, min_l: nat, max_l: nat, n: nat) -> bool {
    if length > 0 {
        n == cap32(length)
    } else {
        spec_len_lo(min_l) <= n <= spec_len_hi(min_l, max_l)
    }
}

/// Picks a concrete length per the sizing policy.
pub fn resolve_len(length: u64, min_l: u64, max_l: u64) -> (n: usize)
    ensures
        len_ok(length as nat, min_l as nat, max_l as nat, n as nat),
{
    if length > 0 {
        if length > 0xffff_ffff {
            0xffff_ffffu64 as usize
        } else {
            length as usize
        }
    } else {
        let lo: u64 = if min_l == 0 {
            1
        } else if min_l > 0xffff_ffff {
            0xffff_ffff
        } else {
            min_l
        };
        let hi: u64 = if max_l >= lo {
            if max_l > 0xffff_ffff {
                0xffff_ffff
            } else {
                max_l
            }
        } else {
            if lo + 9 > 0xffff_ffff {
                0xffff_ffff
            } else {
                lo + 9
            }
        };
        rand_u64_between(lo, hi) as usize
    }
}

/// Whether `c` is a lowercase ASCII letter.
pub open spec fn is_lower_alpha(c: char) -> bool {
    97 <= c as u32 && c as u32 <= 122
}

/// A random lowercase ASCII letter.
pub fn rand_lower_alpha() -> (c: char)
    ensures
        is_lower_alpha(c),
{
    let i = rand_usize_below(26);
    ((97 + i as u8)) as char
}

/// A string of `n` random lowercase ASCII letters.
#[verifier::loop_isolation(false)]
pub fn gen_lower_string(n: usize) -> (r: String)
    ensures
        r@.len() == n,
        forall|j: int| 0 <= j < n ==> is_lower_alpha(r@[j]),
{
    let mut r = String::new();
    for i in 0..n
        invariant
            r@.len() == i,
            forall|j: int| 0 <= j < i ==> is_lower_alpha(r@[j]),
    {
        let c = rand_lower_alpha();
        string_push(&mut r, c);
    }
    r
}

/// Whether `c` may appear in generated prose: a lowercase letter, a space
/// or a full stop.
pub open spec fn is_prose_char(c: char) -> bool {
    is_lower_alpha(c) || c == ' ' || c == '.'
}

/// A string of `n` prose characters: letters with a space about every
/// sixth position, never at the edges.
#[verifier::loop_isolation(false)]
pub fn gen_prose_string(n: usize) -> (r: String)
    ensures
        r@.len() == n,
        forall|j: int| 0 <= j < n ==> is_prose_char(r@[j]),
{
    let mut r = String::new();
    for i in 0..n
        invariant
            r@.len() == i,
            forall|j: int| 0 <= j < i ==> is_prose_char(r@[j]),
    {
        let c = if i > 0 && i + 1 < n && i % 6 == 5 {
            ' '
        } else {
            rand_lower_alpha()
        };
        string_push(&mut r, c);
    }
    r
}

/// A handful of characters drawn from a small common-hanzi list.
#[verifier::loop_isolation(false)]
pub fn gen_han_string(n: usize) -> (r: String)
    ensures
        r@.len() == n,
{
    let mut r = String::new();
    for i in 0..n
        invariant
            r@.len() == i,
    {
        let k = rand_usize_below(8);
        let c: char = if k == 0 {
            '\u{4e00}'
        } else if k == 1 {
            '\u{4eba}'
        } else if k == 2 {
            '\u{5927}'
        } else if k == 3 {
            '\u{5c0f}'
        } else if k == 4 {
            '\u{5929}'
        } else if k == 5 {
            '\u{5730}'
        } else if k == 6 {
            '\u{65e5}'
        } else {
            '\u{6708}'
        };
        string_push(&mut r, c);
    }
    r
}

/// Whether `c` is a lowercase hexadecimal digit.
pub open spec fn is_hex_char(c: char) -> bool {
    (97 <= c as u32 && c as u32 <= 102) || (48 <= c as u32 && c as u32 <= 57)
}

/// A random lowercase hexadecimal digit.
pub fn rand_hex_char() -> (c: char)
    ensures
        is_hex_char(c),
{
    let i = rand_usize_below(16);
    if i < 10 {
        (48 + i as u8) as char
    } else {
        (97 + (i as u8 - 10)) as char
    }
}

/// A version-agnostic UUID-shaped token: 36 characters with hyphens at
/// positions 8, 13, 18 and 23 and lowercase hexadecimal digits elsewhere.
#[verifier::loop_isolation(false)]
pub fn uuid() -> (r: String)
    ensures
        r@.len() == 36,
        r@[8] == '-' && r@[13] == '-' && r@[18] == '-' && r@[23] == '-',
        forall|j: int|
            0 <= j < 36 && !(j == 8 || j == 13 || j == 18 || j == 23) ==> is_hex_char(
                #[trigger] r@[j],
            ),
{
    let mut r = String::new();
    for i in 0..36usize
        invariant
            r@.len() == i,
            forall|j: int| 0 <= j < i && (j == 8 || j == 13 || j == 18 || j == 23) ==> r@[j] == '-',
            forall|j: int|
                0 <= j < i && !(j == 8 || j == 13 || j == 18 || j == 23) ==> is_hex_char(
                    #[trigger] r@[j],
                ),
    {
        if i == 8 || i == 13 || i == 18 || i == 23 {
            string_push(&mut r, '-');
        } else {
            let c = rand_hex_char();
            proof {
                assert(c != '-');
            }
            string_push(&mut r, c);
        }
    }
    r
}

/// A dotted-quad IPv4 address: four numbers up to 255, joined by dots.
pub fn ip() -> (r: String)
    ensures
        exists|a: nat, b: nat, c: nat, d: nat|
            a <= 255 && b <= 255 && c <= 255 && d <= 255 && r@ == dec_digits(a) + "."@
                + dec_digits(b) + "."@ + dec_digits(c) + "."@ + dec_digits(d),
{
    let a = rand_u64_between(0, 255);
    let b = rand_u64_between(0, 255);
    let c = rand_u64_between(0, 255);
    let d = rand_u64_between(0, 255);
    let mut r = fmt_u64(a);
    r = r.concat(".");
    r = r.concat(fmt_u64(b).as_str());
    r = r.concat(".");
    r = r.concat(fmt_u64(c).as_str());
    r = r.concat(".");
    r = r.concat(fmt_u64(d).as_str());
    proof {
        assert(r@ == dec_digits(a as nat) + "."@ + dec_digits(b as nat) + "."@ + dec_digits(
            c as nat,
        ) + "."@ + dec_digits(d as nat));
    }
    r
}

/// A domain name: a lowercase label under `.com`, with an optional
/// `www.` in front.
pub fn domain(with_www: bool) -> (r: String)
    ensures
        exists|label: Seq<char>|
            label.len() > 0 && r@ == (if with_www {
                "www."@
            } else {
                Seq::<char>::empty()
            }) + label + ".com"@,
{
    let label = gen_lower_string(8);
    let mut r = if with_www {
        let mut h = String::from_str("www.");
        h.append(label.as_str());
        h
    } else {
        label
    };
    r.append(".com");
    r
}

/// A mailbox at a lowercase domain: `user@host.com`.
pub fn email() -> (r: String)
    ensures
        exists|u: Seq<char>, h: Seq<char>|
            u.len() > 0 && h.len() > 0 && r@ == u + "@"@ + h + ".com"@,
{
    let mut r = gen_lower_string(7);
    r.append("@");
    let h = gen_lower_string(6);
    r.append(h.as_str());
    r.append(".com");
    r
}

/// A URL under a generated domain: `https://www.host.com/path`.
pub fn url() -> (r: String)
    ensures
        r@.len() > 8,
        r@.take(8) == "https://"@,
{
    let mut r = String::from_str("https://");
    let h = domain(true);
    r.append(h.as_str());
    r.append("/");
    let p = gen_lower_string(6);
    r.append(p.as_str());
    proof {
        reveal_strlit("https://");
        assert(r@.take(8) =~= "https://"@);
    }
    r
}

/// A given name and a family name from small fixed lists, separated by a
/// space.
pub fn name() -> (r: String)
    ensures
        r@.len() > 0,
{
    let i = rand_usize_below(5);
    let first: &str = if i == 0 {
        "Alice"
    } else if i == 1 {
        "Brian"
    } else if i == 2 {
        "Chloe"
    } else if i == 3 {
        "Diego"
    } else {
        "Erika"
    };
    let j = rand_usize_below(5);
    let last: &str = if j == 0 {
        "Stone"
    } else if j == 1 {
        "Rivera"
    } else if j == 2 {
        "Klein"
    } else if j == 3 {
        "Osei"
    } else {
        "Tanaka"
    };
    let mut r = String::from_str(first);
    r.append(" ");
    r.append(last);
    proof {
        reveal_strlit("Alice");
        reveal_strlit("Brian");
        reveal_strlit("Chloe");
        reveal_strlit("Diego");
        reveal_strlit("Erika");
    }
    r
}

/// A placeholder-image URL built from the size, colour, format and text
/// parameters, with defaults for any left empty.
pub fn image(size: &str, foreground: &str, background: &str, format: &str, text: &str) -> (r:
    String)
    ensures
        r@.len() > 0,
{
    let mut r = String::from_str("https://dummyimage.com/");
    if size.unicode_len() == 0 {
        r.append("200x100");
    } else {
        r.append(size);
    }
    r.append("/");
    if foreground.unicode_len() == 0 {
        r.append("fff");
    } else {
        r.append(foreground);
    }
    r.append("/");
    if background.unicode_len() == 0 {
        r.append("aaa");
    } else {
        r.append(background);
    }
    r.append(".");
    if format.unicode_len() == 0 {
        r.append("png");
    } else {
        r.append(format);
    }
    if text.unicode_len() > 0 {
        r.append("&text=");
        r.append(text);
    }
    proof {
        reveal_strlit("https://dummyimage.com/");
    }
    r
}

/// Index of the first `]` at or after `j`, or the pattern's length.
pub open spec fn scan_to_close(p: Seq<char>, j: int) -> int
    decreases p.len() - j,
    when 0 <= j <= p.len()
{
    if j >= p.len() || p[j] == ']' {
        j
    } else {
        scan_to_close(p, j + 1)
    }
}

/// Whether `c` can come out of the class body `p[from..to)`: one of its
/// literal members, or a character inside one of its `a-z` ranges.
pub open spec fn class_char_ok(p: Seq<char>, from: int, to: int, c: char) -> bool {
    exists|k: int|
        from <= k < to && (c == #[trigger] p[k] || (k + 2 < to && p[k + 1] == '-' && p[k] as u32
            <= c as u32 <= p[k + 2] as u32))
}

/// Where the atom that starts at `i` ends: two characters for an escape,
/// past the closing bracket for a class, one character otherwise.
pub open spec fn atom_end(p: Seq<char>, i: int) -> int {
    if p[i] == '\\' && i + 1 < p.len() {
        i + 2
    } else if p[i] == '[' {
        let j = scan_to_close(p, i + 1);
        if j < p.len() {
            j + 1
        } else {
            p.len() as int
        }
    } else {
        i + 1
    }
}

/// Whether each repetition of the atom at `i` emits a character; only an
/// empty character class emits nothing.
pub open spec fn atom_emits(p: Seq<char>, i: int) -> bool {
    if p[i] == '\\' && i + 1 < p.len() {
        true
    } else if p[i] == '[' {
        i + 1 < scan_to_close(p, i + 1)
    } else {
        true
    }
}

/// Whether `c` is a character the atom at `i` can emit: a digit for
/// `\d`, a lowercase letter for `\w`, a space for `\s`, the escaped
/// character for any other escape, a class member for a class, and the
/// character itself for a literal.
pub open spec fn atom_char_ok(p: Seq<char>, i: int, c: char) -> bool {
    if p[i] == '\\' && i + 1 < p.len() {
        let e = p[i + 1];
        if e == 'd' {
            crate::numparse::is_digit(c)
        } else if e == 'w' {
            is_lower_alpha(c)
        } else if e == 's' {
            c == ' '
        } else {
            c == e
        }
    } else if p[i] == '[' {
        class_char_ok(p, i + 1, scan_to_close(p, i + 1), c)
    } else {
        c == p[i]
    }
}

/// Walks a `{..}` quantifier body from `j`: where it stops, the two
/// bounds read (at most two digits each), whether a comma was seen, and
/// whether nothing but digits and a comma appeared.
pub open spec fn quant_scan(
    p: Seq<char>,
    j: int,
    lo: int,
    hi: int,
    in_hi: bool,
    ok: bool,
) -> (int, int, int, bool, bool)
    decreases p.len() - j,
    when 0 <= j <= p.len()
{
    if j >= p.len() || p[j] == '}' {
        (j, lo, hi, in_hi, ok)
    } else {
        let d = p[j];
        if crate::numparse::is_digit(d) {
            if in_hi {
                if hi < 10 {
                    quant_scan(p, j + 1, lo, hi * 10 + crate::numparse::digit_val(d), in_hi, ok)
                } else {
                    quant_scan(p, j + 1, lo, hi, in_hi, ok)
                }
            } else {
                if lo < 10 {
                    quant_scan(p, j + 1, lo * 10 + crate::numparse::digit_val(d), hi, in_hi, ok)
                } else {
                    quant_scan(p, j + 1, lo, hi, in_hi, ok)
                }
            }
        } else if d == ',' {
            quant_scan(p, j + 1, lo, hi, true, ok)
        } else {
            quant_scan(p, j + 1, lo, hi, in_hi, false)
        }
    }
}

/// The repetition range the quantifier after an atom allows, and where
/// generation continues: `(lo, hi, next)`. No quantifier, or a malformed
/// `{..}`, means exactly one repetition and no extra characters consumed.
pub open spec fn spec_quant(p: Seq<char>, a: int) -> (int, int, int) {
    if !(0 <= a < p.len()) {
        (1int, 1int, a)
    } else if p[a] == '+' {
        (1int, 3int, a + 1)
    } else if p[a] == '*' {
        (0int, 3int, a + 1)
    } else if p[a] == '?' {
        (0int, 1int, a + 1)
    } else if p[a] == '{' {
        let t = quant_scan(p, a + 1, 0, 0, false, true);
        if t.0 < p.len() && t.4 {
            if t.3 && t.1 <= t.2 {
                (t.1, t.2, t.0 + 1)
            } else {
                (t.1, t.1, t.0 + 1)
            }
        } else {
            (1int, 1int, a)
        }
    } else {
        (1int, 1int, a)
    }
}

/// Whether `s` is a string the pattern can generate from position `i`:
/// atom by atom, each one repeated a number of times its quantifier
/// allows, every emitted character one the atom can emit.
pub open spec fn regex_gen_ok(p: Seq<char>, i: int, s: Seq<char>) -> bool
    decreases p.len() - i,
    when 0 <= i <= p.len()
{
    if i >= p.len() {
        s.len() == 0
    } else {
        let ae = atom_end(p, i);
        let q = spec_quant(p, ae);
        // an atom always advances; the bound keeps the recursion visibly
        // well-founded
        let nxt = if q.2 > i {
            q.2
        } else {
            i + 1
        };
        exists|r: int|
            q.0 <= r <= q.1 && (if atom_emits(p, i) {
                r <= s.len() && (forall|m: int| 0 <= m < r ==> atom_char_ok(p, i, #[trigger] s[m]))
                    && regex_gen_ok(p, nxt, s.skip(r))
            } else {
                regex_gen_ok(p, nxt, s)
            })
    }
}

/// A random character drawn from the class body `p[from..to)`, reading
/// `a-z` spans as ranges and anything else as literal alternatives.
#[verifier::loop_isolation(false)]
fn gen_class_char(p: &str, from: usize, to: usize) -> (c: char)
    requires
        from < to <= p@.len(),
    ensures
        class_char_ok(p@, from as int, to as int, c),
{
    let width = to - from;
    let pick = rand_usize_below(width);
    let mut i = from;
    let mut chosen = p.get_char(from);
    proof {
        assert(chosen == p@[from as int]);
    }
    let mut seen: usize = 0;
    while i < to
        invariant
            from <= i <= to,
            to <= p@.len(),
            seen <= i,
            class_char_ok(p@, from as int, to as int, chosen),
        decreases to - i,
    {
        let c0 = p.get_char(i);
        if to - i > 2 && p.get_char(i + 1) == '-' {
            let c2 = p.get_char(i + 2);
            let lo = c0 as u32;
            let hi = c2 as u32;
            if seen <= pick {
                if lo <= hi && hi < 128 {
                    let off = rand_u64_between(lo as u64, hi as u64);
                    chosen = (off as u8) as char;
                    proof {
                        assert(chosen as u32 == off);
                        assert(p@[i as int] as u32 <= chosen as u32 <= p@[i + 2] as u32);
                    }
                } else {
                    chosen = c0;
                }
            }
            seen = seen + 1;
            i = i + 3;
        } else {
            if seen <= pick {
                chosen = c0;
            }
            seen = seen + 1;
            i = i + 1;
        }
    }
    chosen
}

/// First `]` at or after `start`, as `scan_to_close` states.
#[verifier::loop_isolation(false)]
fn find_class_end(p: &str, start: usize) -> (j: usize)
    requires
        start <= p@.len(),
    ensures
        start <= j <= p@.len(),
        j as int == scan_to_close(p@, start as int),
{
    let n = p.unicode_len();
    let mut j = start;
    while j < n && p.get_char(j) != ']'
        invariant
            start <= j <= n,
            n == p@.len(),
            scan_to_close(p@, start as int) == scan_to_close(p@, j as int),
        decreases n - j,
    {
        j = j + 1;
    }
    j
}

/// Draws a repetition count the quantifier at `a` allows and returns it
/// with the position where generation continues, as `spec_quant` states.
#[verifier::loop_isolation(false)]
fn parse_quant(p: &str, a: usize) -> (r: (u64, usize))
    requires
        a <= p@.len(),
    ensures
        ({
            let q = spec_quant(p@, a as int);
            q.0 <= r.0 <= q.1 && r.1 as int == q.2 && a <= r.1 <= p@.len()
        }),
{
    let n = p.unicode_len();
    if a >= n {
        return (1, a);
    }
    let qc = p.get_char(a);
    if qc == '+' {
        (rand_u64_between(1, 3), a + 1)
    } else if qc == '*' {
        (rand_u64_between(0, 3), a + 1)
    } else if qc == '?' {
        (rand_u64_between(0, 1), a + 1)
    } else if qc == '{' {
        let mut j = a + 1;
        let mut lo: u64 = 0;
        let mut hi: u64 = 0;
        let mut in_hi = false;
        let mut ok = true;
        while j < n && p.get_char(j) != '}'
            invariant
                a + 1 <= j <= n,
                n == p@.len(),
                lo <= 99,
                hi <= 99,
                quant_scan(p@, a + 1, 0, 0, false, true) == quant_scan(
                    p@,
                    j as int,
                    lo as int,
                    hi as int,
                    in_hi,
                    ok,
                ),
            decreases n - j,
        {
            let d = p.get_char(j);
            let u = d as u32;
            if 48 <= u && u <= 57 {
                if in_hi {
                    if hi < 10 {
                        hi = hi * 10 + (u - 48) as u64;
                    }
                } else {
                    if lo < 10 {
                        lo = lo * 10 + (u - 48) as u64;
                    }
                }
            } else if d == ',' {
                in_hi = true;
            } else {
                ok = false;
            }
            j = j + 1;
        }
        proof {
            assert(quant_scan(p@, j as int, lo as int, hi as int, in_hi, ok) == (
                j as int,
                lo as int,
                hi as int,
                in_hi,
                ok,
            ));
        }
        if j < n && ok {
            let reps = if in_hi && lo <= hi {
                rand_u64_between(lo, hi)
            } else {
                lo
            };
            (reps, j + 1)
        } else {
            (1, a)
        }
    } else {
        (1, a)
    }
}

/// A string shaped by a small slice of regular-expression syntax:
/// literals, `\d`, `\w`, `\s`, character classes, and the quantifiers
/// `{n}`, `{n,m}`, `+`, `*` and `?`; syntax outside that slice is taken
/// literally. The result is always one the pattern can generate, as
/// `regex_gen_ok` states; in particular an empty pattern yields the
/// empty string.
#[verifier::loop_isolation(false)]
#[verifier::rlimit(80)]
pub fn regex_string(pattern: &str) -> (r: String)
    ensures
        regex_gen_ok(pattern@, 0, r@),
{
    let ghost pv = pattern@;
    let n = pattern.unicode_len();
    let mut out = String::new();
    let mut i: usize = 0;
    proof {
        assert forall|tail: Seq<char>| #[trigger] regex_gen_ok(pv, i as int, tail) implies regex_gen_ok(
            pv,
            0,
            out@ + tail,
        ) by {
            assert(out@ + tail =~= tail);
        }
    }
    while i < n
        invariant
            i <= n,
            n == pv.len(),
            pv == pattern@,
            forall|tail: Seq<char>| #[trigger] regex_gen_ok(pv, i as int, tail) ==> regex_gen_ok(
                pv,
                0,
                out@ + tail,
            ),
        decreases n - i,
    {
        let ghost i0 = i as int;
        let ghost out0 = out@;
        let c = pattern.get_char(i);
        let mut class_from: usize = 0;
        let mut class_to: usize = 0;
        let ae: usize;
        if c == '\\' && i + 1 < n {
            ae = i + 2;
        } else if c == '[' {
            let j = find_class_end(pattern, i + 1);
            class_from = i + 1;
            class_to = j;
            ae = if j < n {
                j + 1
            } else {
                n
            };
        } else {
            ae = i + 1;
        }
        proof {
            assert(ae as int == atom_end(pv, i0));
            assert(i < ae <= n);
        }
        let rq = parse_quant(pattern, ae);
        let reps = rq.0;
        let nxt = rq.1;
        let ghost q = spec_quant(pv, ae as int);
        proof {
            assert(nxt as int == q.2);
            assert(i < nxt <= n);
        }
        if c == '\\' && i + 1 < n {
            let e = pattern.get_char(i + 1);
            let mut k: u64 = 0;
            while k < reps
                invariant
                    k <= reps,
                    out@.len() == out0.len() + k,
                    forall|m: int| 0 <= m < out0.len() ==> out@[m] == out0[m],
                    forall|m: int|
                        out0.len() <= m < out@.len() ==> atom_char_ok(pv, i0, #[trigger] out@[m]),
                decreases reps - k,
            {
                let g: char = if e == 'd' {
                    (48 + rand_usize_below(10) as u8) as char
                } else if e == 'w' {
                    rand_lower_alpha()
                } else if e == 's' {
                    ' '
                } else {
                    e
                };
                proof {
                    assert(atom_char_ok(pv, i0, g));
                }
                string_push(&mut out, g);
                k = k + 1;
            }
        } else if c == '[' {
            if class_from < class_to {
                let mut k: u64 = 0;
                while k < reps
                    invariant
                        k <= reps,
                        out@.len() == out0.len() + k,
                        forall|m: int| 0 <= m < out0.len() ==> out@[m] == out0[m],
                        forall|m: int|
                            out0.len() <= m < out@.len() ==> atom_char_ok(
                                pv,
                                i0,
                                #[trigger] out@[m],
                            ),
                    decreases reps - k,
                {
                    let g = gen_class_char(pattern, class_from, class_to);
                    proof {
                        assert(atom_char_ok(pv, i0, g));
                    }
                    string_push(&mut out, g);
                    k = k + 1;
                }
            }
        } else {
            let mut k: u64 = 0;
            while k < reps
                invariant
                    k <= reps,
                    out@.len() == out0.len() + k,
                    forall|m: int| 0 <= m < out0.len() ==> out@[m] == out0[m],
                    forall|m: int|
                        out0.len() <= m < out@.len() ==> atom_char_ok(pv, i0, #[trigger] out@[m]),
                decreases reps - k,
            {
                proof {
                    assert(atom_char_ok(pv, i0, c));
                }
                string_push(&mut out, c);
                k = k + 1;
            }
        }
        proof {
            let b = out@.skip(out0.len() as int);
            assert(out@ =~= out0 + b);
            let emits = atom_emits(pv, i0);
            if emits {
                assert(b.len() == reps);
                assert forall|m: int| 0 <= m < b.len() implies atom_char_ok(
                    pv,
                    i0,
                    #[trigger] b[m],
                ) by {
                    assert(b[m] == out@[out0.len() + m]);
                }
            } else {
                assert(b.len() == 0);
            }
            assert forall|tail: Seq<char>| #[trigger] regex_gen_ok(pv, nxt as int, tail) implies regex_gen_ok(
                pv,
                0,
                (out0 + b) + tail,
            ) by {
                if emits {
                    assert((b + tail).len() >= reps);
                    assert forall|m: int| 0 <= m < reps as int implies atom_char_ok(
                        pv,
                        i0,
                        #[trigger] (b + tail)[m],
                    ) by {
                        assert((b + tail)[m] == b[m]);
                    }
                    assert((b + tail).skip(reps as int) =~= tail);
                    assert(q.0 <= reps as int <= q.1);
                    assert(regex_gen_ok(pv, i0, b + tail));
                } else {
                    assert(b + tail =~= tail);
                    assert(regex_gen_ok(pv, i0, b + tail));
                }
                assert(regex_gen_ok(pv, 0, out0 + (b + tail)));
                assert(out0 + (b + tail) =~= (out0 + b) + tail);
            }
            assert(out@ == out0 + b);
        }
        i = nxt;
    }
    proof {
        assert(regex_gen_ok(pv, n as int, Seq::<char>::empty()));
        assert(out@ + Seq::<char>::empty() =~= out@);
        assert(regex_gen_ok(pv, 0, out@));
    }
    out
}

/// A two-or-three character han name.
pub fn cname() -> (r: String)
    ensures
        r@.len() > 0,
{
    let n = rand_usize_below(2) + 2;
    gen_han_string(n)
}

} // verus!
