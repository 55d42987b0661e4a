//! The request resolver: route lookup, permission check, fixture
//! selection and mock generation, composed into one answer per request.
use vstd::prelude::*;

use crate::fixture::spec_select_fixture;
use crate::fixture::find_fixture;
use crate::fixture::Fixture;
use crate::gen::create_mock_response;
use crate::gen::obj_conforms;
use crate::json::json_copy;
use crate::json::Json;
use crate::json::JsonV;
use crate::perm::auth_validator;
use crate::perm::spec_auth_validator;
use crate::perm::AuthDoc;
use crate::query::parse_request_query_to_api_query_format;
use crate::query::spec_coerce_query;
use crate::route::route_matches;
use crate::route::spec_route_matches;
use crate::strutil::str_eq_str;

verus! {

/// One route's behaviour for one method: whether it requires
/// authorization, its query schema (`Null` for none), its response
/// schema, and its fixtures in declaration order.
pub struct RouteDefinition {
    pub auth: bool,
    pub query: Json,
    pub response: Json,
    pub test_data: Vec<Fixture>,
}

/// One registered route: the path pattern, and a definition per method,
/// `*` standing for any method.
pub struct RouteEntry {
    pub pattern: String,
    pub methods: Vec<(String, RouteDefinition)>,
}

/// The first route whose pattern accepts `path`, in table order.
pub open spec fn spec_find_route(routes: Seq<RouteEntry>, path: Seq<char>) -> Option<RouteEntry>
    decreases routes.len(),
{
    if routes.len() == 0 {
        None
    } else if spec_route_matches(routes[0].pattern@, path) {
        Some(routes[0])
    } else {
        spec_find_route(routes.drop_first(), path)
    }
}

/// The first definition under the method name `m`.
pub open spec fn def_get(ms: Seq<(String, RouteDefinition)>, m: Seq<char>) -> Option<
    RouteDefinition,
>
    decreases ms.len(),
{
    if ms.len() == 0 {
        None
    } else if ms[0].0@ == m {
        Some(ms[0].1)
    } else {
        def_get(ms.drop_first(), m)
    }
}

/// The definition serving method `m`: the exact entry, else the `*`
/// entry, else none.
pub open spec fn spec_method_def(ms: Seq<(String, RouteDefinition)>, m: Seq<char>) -> Option<
    RouteDefinition,
> {
    match def_get(ms, m) {
        Some(d) => Some(d),
        None => def_get(ms, "*"@),
    }
}

/// The structured error body `{code: -1, msg}`.
pub open spec fn error_payload(msg: Seq<char>) -> JsonV {
    JsonV::Obj(seq![("code"@, JsonV::Int(-1)), ("msg"@, JsonV::Str(msg))])
}

/// What resolving a request yields, given how the route and method
/// lookups, the permission check and the fixture selection come out; a
/// generated body is only constrained to conform to the schema.
pub open spec fn resolve_post(
    routes: Seq<RouteEntry>,
    auth_doc: Option<AuthDoc>,
    path: Seq<char>,
    method: Seq<char>,
    token: Seq<char>,
    body: JsonV,
    raw_query: JsonV,
    form: JsonV,
    r: JsonV,
) -> bool {
    match spec_find_route(routes, path) {
        None => r == error_payload("no api url match"@),
        Some(entry) => match spec_method_def(entry.methods@, method) {
            None => r == error_payload("method not defined"@),
            Some(def) => {
                let denial = if def.auth {
                    match auth_doc {
                        Some(doc) => spec_auth_validator(token, entry.pattern@, method, doc),
                        None => None,
                    }
                } else {
                    None
                };
                match denial {
                    Some(payload) => r == payload,
                    None => {
                        let coerced = spec_coerce_query(raw_query, def.query.jv());
                        match spec_select_fixture(
                            def.test_data@,
                            path,
                            method,
                            body,
                            coerced,
                            form,
                        ) {
                            Some(resp) => r == resp,
                            None => r matches JsonV::Obj(out) && obj_conforms(
                                def.response.jv(),
                                out,
                            ),
                        }
                    },
                }
            },
        },
    }
}

/// Builds the error body `{code: -1, msg}`.
fn build_error(msg: &str) -> (r: Json)
    ensures
        r.jv() == error_payload(msg@),
{
    let mut entries: Vec<(String, Json)> = Vec::new();
    let ck = String::from_str("code");
    let mk = String::from_str("msg");
    let mv = String::from_str(msg);
    entries.push((ck, Json::Int(-1)));
    entries.push((mk, Json::Str(mv)));
    let r = Json::Obj(entries);
    proof {
        let ev = Json::entries_view(entries@);
        assert(entries@.len() == 2);
        assert(ev[0] == (entries@[0].0@, entries@[0].1.jv()));
        assert(ev[1] == (entries@[1].0@, entries@[1].1.jv()));
        assert(entries@[0].0@ == "code"@);
        assert(entries@[1].0@ == "msg"@);
        assert(entries@[0].1.jv() == JsonV::Int(-1));
        assert(entries@[1].1.jv() == JsonV::Str(msg@));
        assert(r.jv()->Obj_0 =~= error_payload(msg@)->Obj_0);
        assert(r.jv() == error_payload(msg@));
    }
    r
}

/// Resolves one request against the route table: the first matching
/// route's definition for the method answers it, after the permission
/// check, with the first matching fixture's response or with data
/// generated from the response schema; a missing route or method
/// answers with the structured error body.
#[verifier::loop_isolation(false)]
pub fn find_response_data(
    routes: &Vec<RouteEntry>,
    auth_doc: &Option<AuthDoc>,
    path: &str,
    method: &str,
    token: &str,
    request_body: &Json,
    request_query: &Json,
    form_data: &Json,
) -> (r: Json)
    ensures
        resolve_post(
            routes@,
            *auth_doc,
            path@,
            method@,
            token@,
            request_body.jv(),
            request_query.jv(),
            form_data.jv(),
            r.jv(),
        ),
{
    let n = routes.len();
    proof {
        assert(routes@.skip(0) =~= routes@);
    }
    for i in 0..n
        invariant
            n == routes@.len(),
            spec_find_route(routes@, path@) == spec_find_route(routes@.skip(i as int), path@),
        decreases n - i,
    {
        proof {
            assert(routes@.skip(i as int)[0] == routes@[i as int]);
            assert(routes@.skip(i as int).drop_first() =~= routes@.skip(i + 1));
        }
        let entry = &routes[i];
        if route_matches(entry.pattern.as_str(), path) {
            proof {
                assert(spec_find_route(routes@, path@) == Some(routes@[i as int]));
            }
            let def = match method_def(&entry.methods, method) {
                Some(d) => d,
                None => {
                    return build_error("method not defined");
                },
            };
            if def.auth {
                match auth_validator(token, entry.pattern.as_str(), method, auth_doc) {
                    Some(payload) => {
                        return json_copy(payload);
                    },
                    None => {},
                }
            }
            let coerced = parse_request_query_to_api_query_format(request_query, &def.query);
            match find_fixture(&def.test_data, path, method, request_body, &coerced, form_data) {
                Some(resp) => {
                    return json_copy(resp);
                },
                None => {},
            }
            let generated = create_mock_response(&def.response);
            return Json::Obj(generated);
        }
    }
    proof {
        assert(routes@.skip(n as int) =~= Seq::<RouteEntry>::empty());
    }
    build_error("no api url match")
}

/// The definition serving `method` in this route, as `spec_method_def`
/// states.
#[verifier::loop_isolation(false)]
fn method_def<'a>(ms: &'a Vec<(String, RouteDefinition)>, method: &str) -> (r: Option<
    &'a RouteDefinition,
>)
    ensures
        match r {
            Some(d) => spec_method_def(ms@, method@) == Some(*d),
            None => spec_method_def(ms@, method@) is None,
        },
{
    match def_find(ms, method) {
        Some(d) => Some(d),
        None => def_find(ms, "*"),
    }
}

/// The first definition under the exact name `m`, as `def_get` states.
#[verifier::loop_isolation(false)]
fn def_find<'a>(ms: &'a Vec<(String, RouteDefinition)>, m: &str) -> (r: Option<
    &'a RouteDefinition,
>)
    ensures
        match r {
            Some(d) => def_get(ms@, m@) == Some(*d),
            None => def_get(ms@, m@) is None,
        },
{
    let n = ms.len();
    proof {
        assert(ms@.skip(0) =~= ms@);
    }
    for i in 0..n
        invariant
            n == ms@.len(),
            def_get(ms@, m@) == def_get(ms@.skip(i as int), m@),
        decreases n - i,
    {
        proof {
            assert(ms@.skip(i as int)[0] == ms@[i as int]);
            assert(ms@.skip(i as int).drop_first() =~= ms@.skip(i + 1));
        }
        if str_eq_str(ms[i].0.as_str(), m) {
            return Some(&ms[i].1);
        }
    }
    proof {
        assert(ms@.skip(n as int) =~= Seq::<(String, RouteDefinition)>::empty());
    }
    None
}

/// The body mode a request's method and `content-type` header imply:
/// nothing for `GET`, else the wire format the header names.
pub open spec fn spec_body_mode(method: Seq<char>, content_type: Option<Seq<char>>) -> Seq<char> {
    if method == "GET"@ {
        Seq::<char>::empty()
    } else {
        match content_type {
            Some(v) => if v == "application/json"@ {
                "json"@
            } else if v.len() >= 20 && v.take(20) == "multipart/form-data;"@ {
                "form-data"@
            } else if v == "text/plain"@ {
                "text"@
            } else if v == "application/javascript"@ {
                "javascript"@
            } else if v == "text/html"@ {
                "html"@
            } else if v == "application/xml"@ {
                "xml"@
            } else {
                Seq::<char>::empty()
            },
            None => Seq::<char>::empty(),
        }
    }
}

/// Classifies the request body, as `spec_body_mode` states.
pub fn get_request_body_mode(method: &str, content_type: Option<&str>) -> (r: String)
    ensures
        r@ == spec_body_mode(method@, match content_type {
            Some(v) => Some(v@),
            None => None,
        }),
{
    proof {
        reveal_strlit("");
        assert(""@ =~= Seq::<char>::empty());
    }
    if str_eq_str(method, "GET") {
        return String::new();
    }
    match content_type {
        Some(v) => {
            if str_eq_str(v, "application/json") {
                String::from_str("json")
            } else if v.unicode_len() >= 20 && str_eq_str(
                v.substring_char(0, 20),
                "multipart/form-data;",
            ) {
                proof {
                    assert(v@.subrange(0, 20) =~= v@.take(20));
                }
                String::from_str("form-data")
            } else if str_eq_str(v, "text/plain") {
                String::from_str("text")
            } else if str_eq_str(v, "application/javascript") {
                String::from_str("javascript")
            } else if str_eq_str(v, "text/html") {
                String::from_str("html")
            } else if str_eq_str(v, "application/xml") {
                String::from_str("xml")
            } else {
                String::new()
            }
        },
        None => String::new(),
    }
}

} // verus!
