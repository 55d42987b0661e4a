//! The permission evaluator: bearer tokens, groups, and allow/deny rules.
use vstd::prelude::*;

use crate::json::Json;
use crate::json::JsonV;
use crate::strutil::str_eq_str;
use crate::strutil::trim_seq;
use crate::strutil::trim;

verus! {

/// One permission group: its member tokens, its allow and deny rules
/// (each a map from route pattern or `*` to a set of methods), and an
/// optional denial payload, `Null` when the document default applies.
pub struct Group {
    pub users: Vec<String>,
    pub no_perm_response: Json,
    pub has_perms: Vec<(String, Vec<String>)>,
    pub no_perms: Vec<(String, Vec<String>)>,
}

/// The authorization document: the default denial payload and the groups
/// in declaration order.
pub struct AuthDoc {
    pub no_perm_response: Json,
    pub groups: Vec<Group>,
}

/// The names a list of method strings stands for.
pub open spec fn strs_view(v: Seq<String>) -> Seq<Seq<char>> {
    Seq::new(v.len(), |i: int| v[i]@)
}

/// The view of a permission table: each route pattern with its methods.
pub open spec fn perms_view(v: Seq<(String, Vec<String>)>) -> Seq<(Seq<char>, Seq<Seq<char>>)> {
    Seq::new(v.len(), |i: int| (v[i].0@, strs_view(v[i].1@)))
}

/// First entry of `s` whose pattern is `k`, scanning in order.
pub open spec fn perms_get(s: Seq<(Seq<char>, Seq<Seq<char>>)>, k: Seq<char>) -> Option<
    Seq<Seq<char>>,
>
    decreases s.len(),
{
    if s.len() == 0 {
        None
    } else if s[0].0 == k {
        Some(s[0].1)
    } else {
        perms_get(s.drop_first(), k)
    }
}

/// Whether a method set grants `method`: it names it, names `*`, or is
/// empty, which stands for all methods.
pub open spec fn methods_grant(ms: Seq<Seq<char>>, method: Seq<char>) -> bool {
    ms.len() == 0 || ms.contains(method) || ms.contains("*"@)
}

/// Whether the table `perms` grants `method` on `url`: a `*` entry that
/// grants the method wins, else the entry for `url` decides.
pub open spec fn spec_is_has_perm(
    url: Seq<char>,
    method: Seq<char>,
    perms: Seq<(Seq<char>, Seq<Seq<char>>)>,
) -> bool {
    (match perms_get(perms, "*"@) {
        Some(ms) => methods_grant(ms, method),
        None => false,
    }) || (match perms_get(perms, url) {
        Some(ms) => methods_grant(ms, method),
        None => false,
    })
}

/// The first group whose user set contains `token`.
pub open spec fn find_group(groups: Seq<Group>, token: Seq<char>) -> Option<Group>
    decreases groups.len(),
{
    if groups.len() == 0 {
        None
    } else if strs_view(groups[0].users@).contains(token) {
        Some(groups[0])
    } else {
        find_group(groups.drop_first(), token)
    }
}

/// The denial payload a group answers with: its own, or the document
/// default when it declares none.
pub open spec fn group_denial(g: Group, doc_default: JsonV) -> JsonV {
    if g.no_perm_response.jv() is Null {
        doc_default
    } else {
        g.no_perm_response.jv()
    }
}

/// What permission evaluation decides: `None` allows the request, `Some`
/// denies it with the given payload. An empty token is denied with the
/// document default; the first group holding the token decides, its deny
/// rules before its allow rules; a token in no group is denied.
pub open spec fn spec_auth_validator(
    token: Seq<char>,
    url: Seq<char>,
    method: Seq<char>,
    doc: AuthDoc,
) -> Option<JsonV> {
    if token.len() == 0 {
        Some(doc.no_perm_response.jv())
    } else {
        match find_group(doc.groups@, token) {
            Some(g) => if spec_is_has_perm(url, method, perms_view(g.no_perms@)) {
                Some(group_denial(g, doc.no_perm_response.jv()))
            } else if spec_is_has_perm(url, method, perms_view(g.has_perms@)) {
                None
            } else {
                Some(group_denial(g, doc.no_perm_response.jv()))
            },
            None => Some(doc.no_perm_response.jv()),
        }
    }
}

pub proof fn lemma_perms_get_skip(s: Seq<(Seq<char>, Seq<Seq<char>>)>, k: Seq<char>, i: int)
    requires
        0 <= i <= s.len(),
        forall|j: int| 0 <= j < i ==> s[j].0 != k,
    ensures
        perms_get(s, k) == perms_get(s.skip(i), k),
    decreases i,
{
    if i > 0 {
        assert(s.skip(1) =~= s.drop_first());
        lemma_perms_get_skip(s.drop_first(), k, i - 1);
        assert(s.drop_first().skip(i - 1) =~= s.skip(i));
    } else {
        assert(s.skip(0) =~= s);
    }
}

pub proof fn lemma_perms_get_found(s: Seq<(Seq<char>, Seq<Seq<char>>)>, k: Seq<char>, i: int)
    requires
        0 <= i < s.len(),
        s[i].0 == k,
        forall|j: int| 0 <= j < i ==> s[j].0 != k,
    ensures
        perms_get(s, k) == Some(s[i].1),
    decreases i,
{
    if i > 0 {
        lemma_perms_get_found(s.drop_first(), k, i - 1);
    }
}

/// Whether the string list `v` contains `m`.
#[verifier::loop_isolation(false)]
pub fn strs_contain(v: &Vec<String>, m: &str) -> (r: bool)
    ensures
        r == strs_view(v@).contains(m@),
{
    let n = v.len();
    for i in 0..n
        invariant
            forall|j: int| 0 <= j < i ==> strs_view(v@)[j] != m@,
    {
        proof {
            assert(strs_view(v@)[i as int] == v@[i as int]@);
        }
        if str_eq_str(v[i].as_str(), m) {
            return true;
        }
    }
    proof {
        if strs_view(v@).contains(m@) {
            let w = choose|j: int| 0 <= j < strs_view(v@).len() && strs_view(v@)[j] == m@;
            assert(strs_view(v@)[w] == m@);
        }
    }
    false
}

/// Whether a method set grants `method`, as `methods_grant` states.
fn methods_grant_exec(ms: &Vec<String>, method: &str) -> (r: bool)
    ensures
        r == methods_grant(strs_view(ms@), method@),
{
    ms.len() == 0 || strs_contain(ms, method) || strs_contain(ms, "*")
}

/// First methods entry for pattern `k` in `perms`.
#[verifier::loop_isolation(false)]
fn perms_find<'a>(perms: &'a Vec<(String, Vec<String>)>, k: &str) -> (r: Option<&'a Vec<String>>)
    ensures
        match r {
            Some(ms) => perms_get(perms_view(perms@), k@) == Some(strs_view(ms@)),
            None => perms_get(perms_view(perms@), k@) is None,
        },
{
    let ghost pv = perms_view(perms@);
    let n = perms.len();
    for i in 0..n
        invariant
            pv == perms_view(perms@),
            forall|j: int| 0 <= j < i ==> pv[j].0 != k@,
    {
        proof {
            assert(pv[i as int] == (perms@[i as int].0@, strs_view(perms@[i as int].1@)));
        }
        if str_eq_str(perms[i].0.as_str(), k) {
            proof {
                lemma_perms_get_found(pv, k@, i as int);
            }
            return Some(&perms[i].1);
        }
    }
    proof {
        lemma_perms_get_skip(pv, k@, pv.len() as int);
    }
    None
}

/// Whether `perms` grants `method` on `url`, as `spec_is_has_perm`
/// states.
pub fn is_has_perm(url: &str, method: &str, perms: &Vec<(String, Vec<String>)>) -> (r: bool)
    ensures
        r == spec_is_has_perm(url@, method@, perms_view(perms@)),
{
    match perms_find(perms, "*") {
        Some(ms) => {
            if methods_grant_exec(ms, method) {
                return true;
            }
        },
        None => {},
    }
    match perms_find(perms, url) {
        Some(ms) => methods_grant_exec(ms, method),
        None => false,
    }
}

/// The bearer token of an `Authorization` header value: the text after
/// any `Bearer ` prefixes, trimmed of ASCII whitespace; absent or empty
/// means no token.
pub open spec fn spec_token_of(header: Option<Seq<char>>) -> Seq<char> {
    match header {
        Some(h) => trim_seq(strip_bearer(h)),
        None => Seq::<char>::empty(),
    }
}

/// `s` with every leading `Bearer ` prefix removed.
pub open spec fn strip_bearer(s: Seq<char>) -> Seq<char>
    decreases s.len(),
{
    if s.len() >= 7 && s.take(7) == "Bearer "@ {
        strip_bearer(s.skip(7))
    } else {
        s
    }
}

/// The token an `Authorization` header carries, as `spec_token_of`
/// states.
#[verifier::loop_isolation(false)]
pub fn get_token_from_request(header: Option<&str>) -> (r: String)
    ensures
        r@ == spec_token_of(match header {
            Some(h) => Some(h@),
            None => None,
        }),
{
    match header {
        Some(h) => {
            proof {
                reveal_strlit("Bearer ");
            }
            let n = h.unicode_len();
            proof {
                assert(h@.skip(0) =~= h@);
            }
            let mut i: usize = 0;
            while n - i >= 7 && str_eq_str(h.substring_char(i, i + 7), "Bearer ")
                invariant
                    i <= n,
                    n == h@.len(),
                    strip_bearer(h@) == strip_bearer(h@.skip(i as int)),
                decreases n - i,
            {
                proof {
                    assert(h@.skip(i as int).take(7) =~= h@.subrange(i as int, i + 7));
                    assert(h@.skip(i as int).skip(7) =~= h@.skip(i + 7));
                }
                i = i + 7;
            }
            proof {
                if n - i >= 7 {
                    assert(h@.skip(i as int).take(7) =~= h@.subrange(i as int, i + 7));
                }
                assert(strip_bearer(h@.skip(i as int)) == h@.skip(i as int));
            }
            let rest = h.substring_char(i, n);
            proof {
                assert(rest@ =~= h@.skip(i as int));
            }
            trim(rest)
        },
        None => String::new(),
    }
}

/// Evaluates the permission of `token` for `method` on `api_url`, as
/// `spec_auth_validator` states; `None` when no document is configured
/// or the request is allowed, else the denial payload.
#[verifier::loop_isolation(false)]
pub fn auth_validator<'a>(
    token: &str,
    api_url: &str,
    method: &str,
    auth_doc: &'a Option<AuthDoc>,
) -> (r: Option<&'a Json>)
    ensures
        match auth_doc {
            Some(doc) => match r {
                Some(v) => spec_auth_validator(token@, api_url@, method@, *doc) == Some(v.jv()),
                None => spec_auth_validator(token@, api_url@, method@, *doc) is None,
            },
            None => r is None,
        },
{
    match auth_doc {
        Some(doc) => {
            if token.unicode_len() == 0 {
                return Some(&doc.no_perm_response);
            }
            let n = doc.groups.len();
            proof {
                assert(doc.groups@.skip(0) =~= doc.groups@);
            }
            for i in 0..n
                invariant
                    n == doc.groups@.len(),
                    forall|j: int|
                        0 <= j < i ==> !strs_view(
                            (#[trigger] doc.groups@[j]).users@,
                        ).contains(token@),
                    find_group(doc.groups@, token@) == find_group(
                        doc.groups@.skip(i as int),
                        token@,
                    ),
                decreases n - i,
            {
                let g = &doc.groups[i];
                proof {
                    assert(doc.groups@.skip(i as int)[0] == doc.groups@[i as int]);
                    assert(doc.groups@.skip(i as int).drop_first() =~= doc.groups@.skip(i + 1));
                }
                if strs_contain(&g.users, token) {
                    proof {
                        assert(find_group(doc.groups@, token@) == Some(doc.groups@[i as int]));
                    }
                    let denial: &Json = match &g.no_perm_response {
                        Json::Null => &doc.no_perm_response,
                        other => other,
                    };
                    if is_has_perm(api_url, method, &g.no_perms) {
                        return Some(denial);
                    } else if is_has_perm(api_url, method, &g.has_perms) {
                        return None;
                    }
                    return Some(denial);
                }
            }
            proof {
                assert(doc.groups@.skip(n as int) =~= Seq::<Group>::empty());
            }
            Some(&doc.no_perm_response)
        },
        None => None,
    }
}

} // verus!
