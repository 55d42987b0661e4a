//! The query coercer: raw string-valued query parameters, converted to
//! the types a route's query schema declares.
use vstd::prelude::*;

use crate::json::entries_find;
use crate::json::entries_get;
use crate::json::json_copy;
use crate::json::Json;
use crate::json::JsonV;
use crate::numparse::parse_dec;
use crate::numparse::parse_i64;
use crate::numparse::spec_parse_dec;
use crate::numparse::spec_parse_i64;
use crate::schema::is_float_type;
use crate::schema::is_int_type;
use crate::schema::spec_is_float_type;
use crate::schema::spec_is_int_type;
use crate::strutil::ascii_lowercase;
use crate::strutil::lower_seq;
use crate::strutil::str_eq_str;

verus! {

/// The declared type tag of a query schema field: its `type` attribute,
/// lowercased (ASCII only), defaulting to `string`.
pub open spec fn query_field_tag(fv: JsonV) -> Seq<char> {
    match crate::json::jget(fv, "type"@) {
        Some(JsonV::Str(ts)) => lower_seq(ts),
        _ => "string"@,
    }
}

/// What one schema field contributes to the coerced query: the request's
/// string value parsed per the declared tag, or nothing when the field
/// is absent, not a string, not object-declared, or unparsable.
pub open spec fn coerce_one(k: Seq<char>, fv: JsonV, rv: Seq<(Seq<char>, JsonV)>) -> Option<JsonV> {
    if !(fv is Obj) {
        None
    } else {
        match entries_get(rv, k) {
            Some(JsonV::Str(s)) => {
                let t = query_field_tag(fv);
                if spec_is_int_type(t) || t == "timestamp"@ {
                    match spec_parse_i64(s) {
                        Some(v) => Some(JsonV::Int(v)),
                        None => None,
                    }
                } else if spec_is_float_type(t) {
                    match spec_parse_dec(s) {
                        Some((u, p)) => Some(JsonV::Dec { units: u, places: p }),
                        None => None,
                    }
                } else {
                    Some(JsonV::Str(s))
                }
            },
            _ => None,
        }
    }
}

/// The coerced entries, in schema declaration order.
pub open spec fn coerce_entries(
    av: Seq<(Seq<char>, JsonV)>,
    rv: Seq<(Seq<char>, JsonV)>,
) -> Seq<(Seq<char>, JsonV)>
    decreases av.len(),
{
    if av.len() == 0 {
        Seq::empty()
    } else {
        let head = match coerce_one(av[0].0, av[0].1, rv) {
            Some(v) => seq![(av[0].0, v)],
            None => Seq::<(Seq<char>, JsonV)>::empty(),
        };
        head + coerce_entries(av.drop_first(), rv)
    }
}

/// What query coercion yields: the raw query unchanged when no schema
/// object meets a query object, else the coerced entries.
pub open spec fn spec_coerce_query(rq: JsonV, aq: JsonV) -> JsonV {
    if aq is Null {
        rq
    } else {
        match (aq, rq) {
            (JsonV::Obj(av), JsonV::Obj(rv)) => JsonV::Obj(coerce_entries(av, rv)),
            _ => rq,
        }
    }
}

/// Converts the raw request query to the route's query schema, as
/// `spec_coerce_query` states.
#[verifier::loop_isolation(false)]
pub fn parse_request_query_to_api_query_format(request_query: &Json, api_query: &Json) -> (r: Json)
    ensures
        r.jv() == spec_coerce_query(request_query.jv(), api_query.jv()),
{
    match api_query {
        Json::Null => json_copy(request_query),
        _ => {
            match (api_query, request_query) {
                (Json::Obj(av), Json::Obj(rv)) => {
                    let ghost avv = api_query.jv()->Obj_0;
                    let ghost rvv = request_query.jv()->Obj_0;
                    proof {
                        assert(avv == Json::entries_view(av@));
                        assert(rvv == Json::entries_view(rv@));
                        assert(avv.len() == av@.len());
                        assert(avv.skip(0) =~= avv);
                    }
                    let mut out: Vec<(String, Json)> = Vec::new();
                    let n = av.len();
                    for i in 0..n
                        invariant
                            n == av@.len(),
                            coerce_entries(avv, rvv) =~= Json::entries_view(out@)
                                + coerce_entries(avv.skip(i as int), rvv),
                        decreases n - i,
                    {
                        let ghost before = Json::entries_view(out@);
                        proof {
                            assert(avv.skip(i as int)[0] == avv[i as int]);
                            assert(avv.skip(i as int).drop_first() =~= avv.skip(i + 1));
                            assert(avv[i as int] == (av@[i as int].0@, av@[i as int].1.jv()));
                        }
                        let field_key: &String = &av[i].0;
                        let field_value: &Json = &av[i].1;
                        let mut emitted: Option<Json> = None;
                        match field_value {
                            Json::Obj(_) => {
                                match entries_find(rv, field_key.as_str()) {
                                    Some(Json::Str(s)) => {
                                        let tag_s = match field_value.get("type") {
                                            Some(Json::Str(ts)) => ascii_lowercase(ts.as_str()),
                                            _ => {
                                                let d = String::from_str("string");
                                                d
                                            },
                                        };
                                        let t = tag_s.as_str();
                                        if is_int_type(t) || str_eq_str(t, "timestamp") {
                                            match parse_i64(s.as_str()) {
                                                Some(v) => {
                                                    emitted = Some(Json::Int(v));
                                                },
                                                None => {},
                                            }
                                        } else if is_float_type(t) {
                                            match parse_dec(s.as_str()) {
                                                Some(d) => {
                                                    emitted = Some(Json::Dec(d));
                                                },
                                                None => {},
                                            }
                                        } else {
                                            emitted = Some(Json::Str(s.clone()));
                                        }
                                    },
                                    _ => {},
                                }
                            },
                            _ => {},
                        }
                        match emitted {
                            Some(v) => {
                                proof {
                                    assert(coerce_one(avv[i as int].0, avv[i as int].1, rvv)
                                        == Some(v.jv()));
                                }
                                out.push((field_key.clone(), v));
                                proof {
                                    assert(Json::entries_view(out@) =~= before.push(
                                        (av@[i as int].0@, out@[out@.len() - 1].1.jv()),
                                    ));
                                    assert(before + (seq![
                                        (avv[i as int].0, out@[out@.len() - 1].1.jv()),
                                    ] + coerce_entries(avv.skip(i + 1), rvv))
                                        =~= Json::entries_view(out@) + coerce_entries(
                                        avv.skip(i + 1),
                                        rvv,
                                    ));
                                }
                            },
                            None => {
                                proof {
                                    assert(coerce_one(avv[i as int].0, avv[i as int].1, rvv)
                                        is None);
                                    assert(before + (Seq::<(Seq<char>, JsonV)>::empty()
                                        + coerce_entries(avv.skip(i + 1), rvv)) =~= before
                                        + coerce_entries(avv.skip(i + 1), rvv));
                                }
                            },
                        }
                    }
                    proof {
                        assert(avv.skip(n as int) =~= Seq::<(Seq<char>, JsonV)>::empty());
                        assert(Json::entries_view(out@) + coerce_entries(
                            Seq::<(Seq<char>, JsonV)>::empty(),
                            rvv,
                        ) =~= Json::entries_view(out@));
                    }
                    Json::Obj(out)
                },
                _ => json_copy(request_query),
            }
        },
    }
}

} // verus!
