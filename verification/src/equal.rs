//! The deep-equality rule that fixture matching applies to bodies, form
//! data and query values.
use vstd::prelude::*;

use crate::json::entries_find;
use crate::json::entries_get;
use crate::json::json_equal;
use crate::json::Json;
use crate::json::JsonV;

verus! {

/// The deep-equality rule, asymmetric by design: `expected` is the matcher a
/// fixture declares, `actual` the value the request carried. Two objects are
/// equal exactly when they have the same number of keys and every key of
/// `expected` is present in `actual` with an identical value; `Null` counts
/// as an empty object on either side; arrays must be equal value for value;
/// anything else is unequal.
pub open spec fn value_match(actual: JsonV, expected: JsonV) -> bool {
    match (actual, expected) {
        (JsonV::Null, JsonV::Null) => true,
        (JsonV::Null, JsonV::Obj(e)) => e.len() == 0,
        (JsonV::Obj(a), JsonV::Null) => a.len() == 0,
        (JsonV::Obj(a), JsonV::Obj(e)) => a.len() == e.len() && forall|i: int|
            0 <= i < e.len() ==> entries_get(a, e[i].0) == Some(e[i].1),
        (JsonV::Arr(x), JsonV::Arr(y)) => x == y,
        (JsonV::Arr(x), JsonV::Null) => x.len() == 0,
        _ => false,
    }
}

/// Whether the request value `value1` satisfies the declared matcher
/// `value2` under the deep-equality rule.
#[verifier::loop_isolation(false)]
pub fn is_value_equal(value1: &Json, value2: &Json) -> (r: bool)
    ensures
        r == value_match(value1.jv(), value2.jv()),
{
    match (value1, value2) {
        (Json::Null, Json::Null) => true,
        (Json::Null, Json::Obj(e)) => e.len() == 0,
        (Json::Obj(a), Json::Null) => a.len() == 0,
        (Json::Obj(a), Json::Obj(e)) => {
            let ghost ea = value1.jv()->Obj_0;
            let ghost ee = value2.jv()->Obj_0;
            proof {
                assert(ea == Json::entries_view(a@));
                assert(ee == Json::entries_view(e@));
                assert(ea.len() == a@.len());
                assert(ee.len() == e@.len());
            }
            if a.len() != e.len() {
                return false;
            }
            let n = e.len();
            for i in 0..n
                invariant
                    forall|j: int| 0 <= j < i ==> entries_get(ea, ee[j].0) == Some(ee[j].1),
                decreases n - i,
            {
                proof {
                    assert(ee[i as int].0 == e@[i as int].0@);
                    assert(ee[i as int].1 == e@[i as int].1.jv());
                }
                match entries_find(a, e[i].0.as_str()) {
                    Some(v) => {
                        if !json_equal(v, &e[i].1) {
                            return false;
                        }
                    },
                    None => {
                        return false;
                    },
                }
            }
            true
        },
        (Json::Arr(_), Json::Arr(_)) => json_equal(value1, value2),
        (Json::Arr(x), Json::Null) => x.len() == 0,
        _ => false,
    }
}

} // verus!
