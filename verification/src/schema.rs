//! The schema type resolver: which logical type a schema node describes.
use vstd::prelude::*;

use crate::json::jget;
use crate::json::Json;
use crate::json::JsonV;
use crate::strutil::ascii_lowercase;
use crate::strutil::lower_seq;
use crate::strutil::str_eq_str;

verus! {

/// The canonical type tag of a schema node: the explicit `type` field,
/// lowercased (ASCII only: other characters pass through, and such tags
/// fall to the generic string family anyway), when it is a string;
/// otherwise `array` for a list node,
/// `object` for a mapping with at least one mapping-valued field, and
/// `string` for everything else.
pub open spec fn spec_field_type(j: JsonV) -> Seq<char> {
    match jget(j, "type"@) {
        Some(JsonV::Str(s)) => lower_seq(s),
        _ => match j {
            JsonV::Arr(_) => "array"@,
            JsonV::Obj(es) => if exists|i: int| 0 <= i < es.len() && es[i].1 is Obj {
                "object"@
            } else {
                "string"@
            },
            _ => "string"@,
        },
    }
}

/// Resolves the logical type of a schema node, as `spec_field_type` states.
#[verifier::loop_isolation(false)]
pub fn get_field_type(field_attr: &Json) -> (t: String)
    ensures
        t@ == spec_field_type(field_attr.jv()),
{
    match field_attr.get("type") {
        Some(Json::Str(s)) => {
            return ascii_lowercase(s.as_str());
        },
        _ => {},
    }
    match field_attr {
        Json::Arr(_) => String::from_str("array"),
        Json::Obj(es) => {
            let ghost ev = field_attr.jv()->Obj_0;
            proof {
                assert(ev == Json::entries_view(es@));
                assert(ev.len() == es@.len());
            }
            let n = es.len();
            for i in 0..n
                invariant
                    forall|j: int| 0 <= j < i ==> !(ev[j].1 is Obj),
                decreases n - i,
            {
                proof {
                    assert(ev[i as int].1 == es@[i as int].1.jv());
                }
                match &es[i].1 {
                    Json::Obj(_) => {
                        return String::from_str("object");
                    },
                    _ => {},
                }
            }
            String::from_str("string")
        },
        _ => String::from_str("string"),
    }
}

/// Whether the type tag `t` is one of the integer family.
pub open spec fn spec_is_int_type(t: Seq<char>) -> bool {
    t == "number"@ || t == "int"@ || t == "posint"@ || t == "negint"@
}

/// Whether the type tag `t` is one of the float family.
pub open spec fn spec_is_float_type(t: Seq<char>) -> bool {
    t == "float"@ || t == "posfloat"@ || t == "negfloat"@
}

/// Whether `t` names an integer-family type.
pub fn is_int_type(t: &str) -> (r: bool)
    ensures
        r == spec_is_int_type(t@),
{
    str_eq_str(t, "number") || str_eq_str(t, "int") || str_eq_str(t, "posint") || str_eq_str(
        t,
        "negint",
    )
}

/// Whether `t` names a float-family type.
pub fn is_float_type(t: &str) -> (r: bool)
    ensures
        r == spec_is_float_type(t@),
{
    str_eq_str(t, "float") || str_eq_str(t, "posfloat") || str_eq_str(t, "negfloat")
}

} // verus!
