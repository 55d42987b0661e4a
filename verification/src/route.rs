//! The route matcher: path patterns with `{param}` segments, and the
//! method table of a route.
use vstd::prelude::*;

use crate::strutil::str_eq_str;

verus! {

/// Index of the first `c` in `s`, or -1 when there is none.
pub open spec fn first_char(s: Seq<char>, c: char) -> int
    decreases s.len(),
{
    if s.len() == 0 {
        -1
    } else if s[0] == c {
        0
    } else {
        let r = first_char(s.drop_first(), c);
        if r < 0 {
            -1
        } else {
            r + 1
        }
    }
}

/// `s` split on `/`: the segments between the slashes, in order.
pub open spec fn split_slash(s: Seq<char>) -> Seq<Seq<char>>
    decreases s.len(),
{
    let k = first_char(s, '/');
    if !(0 <= k < s.len()) {
        seq![s]
    } else {
        seq![s.take(k)] + split_slash(s.skip(k + 1))
    }
}

/// Whether a pattern segment is a parameter: `{` ... `}`.
pub open spec fn is_param_seg(seg: Seq<char>) -> bool {
    seg.len() >= 2 && seg[0] == '{' && seg.last() == '}'
}

/// Whether pattern segments accept path segments: the same number of
/// segments, each equal or a parameter.
pub open spec fn segs_match(ps: Seq<Seq<char>>, ss: Seq<Seq<char>>) -> bool {
    ps.len() == ss.len() && forall|i: int|
        0 <= i < ps.len() ==> (#[trigger] ps[i]) == ss[i] || is_param_seg(ps[i])
}

/// Whether the route pattern accepts the request path.
pub open spec fn spec_route_matches(pattern: Seq<char>, path: Seq<char>) -> bool {
    segs_match(split_slash(pattern), split_slash(path))
}

pub proof fn lemma_first_char_is(s: Seq<char>, c: char, k: int)
    requires
        0 <= k < s.len(),
        s[k] == c,
        forall|j: int| 0 <= j < k ==> s[j] != c,
    ensures
        first_char(s, c) == k,
    decreases k,
{
    if k > 0 {
        lemma_first_char_is(s.drop_first(), c, k - 1);
    }
}

pub proof fn lemma_first_char_none(s: Seq<char>, c: char)
    requires
        forall|j: int| 0 <= j < s.len() ==> s[j] != c,
    ensures
        first_char(s, c) == -1,
    decreases s.len(),
{
    if s.len() > 0 {
        lemma_first_char_none(s.drop_first(), c);
    }
}

/// First `/` at or after `from`, or the length of `s`.
#[verifier::loop_isolation(false)]
fn find_slash(s: &str, from: usize) -> (r: usize)
    requires
        from <= s@.len(),
    ensures
        from <= r <= s@.len(),
        r < s@.len() ==> s@[r as int] == '/',
        forall|j: int| from <= j < r ==> s@[j] != '/',
{
    let n = s.unicode_len();
    let mut i = from;
    while i < n
        invariant
            from <= i <= n,
            n == s@.len(),
            forall|j: int| from <= j < i ==> s@[j] != '/',
        decreases n - i,
    {
        if s.get_char(i) == '/' {
            return i;
        }
        i = i + 1;
    }
    n
}

/// Splits `s` on `/`, as `split_slash` states.
#[verifier::loop_isolation(false)]
pub fn split_path(s: &str) -> (r: Vec<String>)
    ensures
        Seq::new(r@.len(), |i: int| r@[i]@) == split_slash(s@),
{
    let n = s.unicode_len();
    let mut out: Vec<String> = Vec::new();
    let mut start: usize = 0;
    proof {
        assert(s@.skip(0) =~= s@);
    }
    loop
        invariant
            start <= n,
            n == s@.len(),
            split_slash(s@) =~= Seq::new(out@.len(), |i: int| out@[i]@) + split_slash(
                s@.skip(start as int),
            ),
        decreases n - start,
    {
        let pos = find_slash(s, start);
        let seg = s.substring_char(start, pos);
        let ghost rest = s@.skip(start as int);
        proof {
            assert(seg@ =~= rest.take(pos - start));
            if pos < n {
                assert(rest[pos - start] == s@[pos as int]);
                lemma_first_char_is(rest, '/', pos - start);
                assert(rest.skip(pos - start + 1) =~= s@.skip(pos + 1));
            } else {
                lemma_first_char_none(rest, '/');
            }
        }
        let ghost out0 = out@;
        out.push(String::from_str(seg));
        proof {
            let sv0 = Seq::new(out0.len(), |i: int| out0[i]@);
            let sv1 = Seq::new(out@.len(), |i: int| out@[i]@);
            assert(sv1 =~= sv0.push(seg@));
            if pos < n {
                assert(split_slash(rest) =~= seq![rest.take(pos - start)] + split_slash(
                    s@.skip(pos + 1),
                ));
                assert(sv0 + split_slash(rest) =~= sv1 + split_slash(s@.skip(pos + 1)));
            } else {
                assert(split_slash(rest) =~= seq![rest]);
                assert(sv0 + split_slash(rest) =~= sv1);
                assert(split_slash(s@) =~= sv1 + Seq::<Seq<char>>::empty());
            }
        }
        if pos >= n {
            proof {
                assert(split_slash(s@) =~= Seq::new(out@.len(), |i: int| out@[i]@)
                    + Seq::<Seq<char>>::empty());
                assert(Seq::new(out@.len(), |i: int| out@[i]@) + Seq::<Seq<char>>::empty()
                    =~= Seq::new(out@.len(), |i: int| out@[i]@));
            }
            return out;
        }
        start = pos + 1;
    }
}

/// Whether `pattern` accepts `path`, as `spec_route_matches` states:
/// segment for segment, a `{param}` segment accepting anything.
#[verifier::loop_isolation(false)]
pub fn route_matches(pattern: &str, path: &str) -> (r: bool)
    ensures
        r == spec_route_matches(pattern@, path@),
{
    let ps = split_path(pattern);
    let ss = split_path(path);
    let ghost pv = split_slash(pattern@);
    let ghost sv = split_slash(path@);
    if ps.len() != ss.len() {
        return false;
    }
    let n = ps.len();
    for i in 0..n
        invariant
            n == ps@.len() == ss@.len(),
            pv == Seq::new(ps@.len(), |j: int| ps@[j]@),
            sv == Seq::new(ss@.len(), |j: int| ss@[j]@),
            forall|j: int| 0 <= j < i ==> (#[trigger] pv[j]) == sv[j] || is_param_seg(pv[j]),
        decreases n - i,
    {
        proof {
            assert(pv[i as int] == ps@[i as int]@);
            assert(sv[i as int] == ss@[i as int]@);
        }
        let pseg = ps[i].as_str();
        if !str_eq_str(pseg, ss[i].as_str()) {
            let pl = pseg.unicode_len();
            let is_param = pl >= 2 && pseg.get_char(0) == '{' && pseg.get_char(pl - 1) == '}';
            if !is_param {
                return false;
            }
        }
    }
    true
}

} // verus!
