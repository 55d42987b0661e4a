//! The fixture matcher: literal request/response pairs that short-circuit
//! generation, first declared match winning.
use vstd::prelude::*;

use crate::equal::is_value_equal;
use crate::equal::value_match;
use crate::json::Json;
use crate::json::JsonV;
use crate::perm::strs_view;
use crate::strutil::str_eq_str;

verus! {

/// A fixture's method matcher: one method, or any of a list.
pub enum MethodMatcher {
    One(String),
    Many(Vec<String>),
}

/// One fixture: each matcher constrains the request only when declared;
/// `response` is returned verbatim on a match.
pub struct Fixture {
    pub url: Option<String>,
    pub method: Option<MethodMatcher>,
    pub body: Option<Json>,
    pub form_data: Option<Json>,
    pub query: Option<Json>,
    pub response: Json,
}

/// Whether a fixture matches the request: the url by equality, the
/// method by equality or membership, and body, form data and query by
/// the deep-equality rule; an absent matcher always matches.
pub open spec fn fixture_matches(
    f: Fixture,
    path: Seq<char>,
    method: Seq<char>,
    body: JsonV,
    query: JsonV,
    form: JsonV,
) -> bool {
    &&& match f.url {
        Some(u) => u@ == path,
        None => true,
    }
    &&& match f.method {
        Some(MethodMatcher::One(m)) => m@ == method,
        Some(MethodMatcher::Many(l)) => strs_view(l@).contains(method),
        None => true,
    }
    &&& match f.body {
        Some(b) => value_match(body, b.jv()),
        None => true,
    }
    &&& match f.form_data {
        Some(fd) => value_match(form, fd.jv()),
        None => true,
    }
    &&& match f.query {
        Some(q) => value_match(query, q.jv()),
        None => true,
    }
}

/// The response of the first fixture that matches, scanning in
/// declaration order; `None` when none matches.
pub open spec fn spec_select_fixture(
    fs: Seq<Fixture>,
    path: Seq<char>,
    method: Seq<char>,
    body: JsonV,
    query: JsonV,
    form: JsonV,
) -> Option<JsonV>
    decreases fs.len(),
{
    if fs.len() == 0 {
        None
    } else if fixture_matches(fs[0], path, method, body, query, form) {
        Some(fs[0].response.jv())
    } else {
        spec_select_fixture(fs.drop_first(), path, method, body, query, form)
    }
}

/// Fixture selection is a function of its inputs alone: replaying the
/// same request against the same fixture list selects the same fixture's
/// response, or none, every time.
pub proof fn lemma_fixture_matching_deterministic(
    fs: Seq<Fixture>,
    path: Seq<char>,
    method: Seq<char>,
    body: JsonV,
    query: JsonV,
    form: JsonV,
    r1: Option<JsonV>,
    r2: Option<JsonV>,
)
    requires
        r1 == spec_select_fixture(fs, path, method, body, query, form),
        r2 == spec_select_fixture(fs, path, method, body, query, form),
    ensures
        r1 == r2,
{
}

/// Whether one fixture matches the request, as `fixture_matches` states.
fn fixture_matches_exec(
    f: &Fixture,
    path: &str,
    method: &str,
    body: &Json,
    query: &Json,
    form: &Json,
) -> (r: bool)
    ensures
        r == fixture_matches(*f, path@, method@, body.jv(), query.jv(), form.jv()),
{
    let url_ok = match &f.url {
        Some(u) => str_eq_str(u.as_str(), path),
        None => true,
    };
    if !url_ok {
        return false;
    }
    let method_ok = match &f.method {
        Some(MethodMatcher::One(m)) => str_eq_str(m.as_str(), method),
        Some(MethodMatcher::Many(l)) => crate::perm::strs_contain(l, method),
        None => true,
    };
    if !method_ok {
        return false;
    }
    let body_ok = match &f.body {
        Some(b) => is_value_equal(body, b),
        None => true,
    };
    if !body_ok {
        return false;
    }
    let form_ok = match &f.form_data {
        Some(fd) => is_value_equal(form, fd),
        None => true,
    };
    if !form_ok {
        return false;
    }
    match &f.query {
        Some(q) => is_value_equal(query, q),
        None => true,
    }
}

/// The response of the first matching fixture, as `spec_select_fixture`
/// states.
#[verifier::loop_isolation(false)]
pub fn find_fixture<'a>(
    fixtures: &'a Vec<Fixture>,
    path: &str,
    method: &str,
    body: &Json,
    query: &Json,
    form: &Json,
) -> (r: Option<&'a Json>)
    ensures
        match r {
            Some(v) => spec_select_fixture(
                fixtures@,
                path@,
                method@,
                body.jv(),
                query.jv(),
                form.jv(),
            ) == Some(v.jv()),
            None => spec_select_fixture(
                fixtures@,
                path@,
                method@,
                body.jv(),
                query.jv(),
                form.jv(),
            ) is None,
        },
{
    let n = fixtures.len();
    proof {
        assert(fixtures@.skip(0) =~= fixtures@);
    }
    for i in 0..n
        invariant
            n == fixtures@.len(),
            spec_select_fixture(fixtures@, path@, method@, body.jv(), query.jv(), form.jv())
                == spec_select_fixture(
                fixtures@.skip(i as int),
                path@,
                method@,
                body.jv(),
                query.jv(),
                form.jv(),
            ),
        decreases n - i,
    {
        proof {
            assert(fixtures@.skip(i as int)[0] == fixtures@[i as int]);
            assert(fixtures@.skip(i as int).drop_first() =~= fixtures@.skip(i + 1));
        }
        if fixture_matches_exec(&fixtures[i], path, method, body, query, form) {
            return Some(&fixtures[i].response);
        }
    }
    proof {
        assert(fixtures@.skip(n as int) =~= Seq::<Fixture>::empty());
    }
    None
}

} // verus!
