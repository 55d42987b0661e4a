//! The guarantees of generation, stated on their own: required fields
//! are present, numeric values respect their bounds, and fixed-precision
//! decimals carry exactly the configured number of places.
use vstd::prelude::*;

use crate::gen::enum_list;
use crate::gen::field_conforms;
use crate::gen::float_fixed_mode;
use crate::gen::float_fixed_places;
use crate::gen::has_value_shortcut;
use crate::gen::int_hi;
use crate::gen::int_lo;
use crate::gen::ts_hi;
use crate::gen::ts_lo;
use crate::gen::obj_conforms;
use crate::gen::produces;
use crate::gen::clamp_i64;
use crate::gen::float_scaled_hi;
use crate::gen::float_scaled_lo;
use crate::gen::reserved_key;
use crate::gen::spec_required;
use crate::json::entries_get;
use crate::json::entries_has;
use crate::json::JsonV;
use crate::schema::spec_field_type;
use crate::schema::spec_is_float_type;
use crate::schema::spec_is_int_type;

verus! {

/// A value found under `k` sits at some index of the entry list.
pub proof fn lemma_entries_get_to_index(s: Seq<(Seq<char>, JsonV)>, k: Seq<char>, v: JsonV)
    requires
        entries_get(s, k) == Some(v),
    ensures
        exists|i: int| 0 <= i < s.len() && s[i] == (k, v),
    decreases s.len(),
{
    if s.len() > 0 {
        if s[0].0 == k {
            assert(s[0] == (k, v));
        } else {
            lemma_entries_get_to_index(s.drop_first(), k, v);
            let i = choose|i: int|
                0 <= i < s.drop_first().len() && s.drop_first()[i] == (k, v);
            assert(s[i + 1] == (k, v));
        }
    }
}

/// Every required, non-reserved schema field that yields a value is
/// present in every generated object.
pub proof fn lemma_required_field_present(
    model: JsonV,
    out: Seq<(Seq<char>, JsonV)>,
    j: int,
)
    requires
        obj_conforms(model, out),
        model matches JsonV::Obj(es) && 0 <= j < es.len() && !reserved_key(es[j].0)
            && spec_required(es[j].1) && produces(es[j].1),
    ensures
        model matches JsonV::Obj(es) && entries_has(out, es[j].0),
{
}

/// In a generated object, the value of a field whose schema declares an
/// integer-family type with workable bounds, and no literal `value` or
/// enum, is an integer within `[min_value, max_value]` — for any
/// generation run. The schema may not declare the field name twice.
pub proof fn lemma_int_field_in_range(
    model: JsonV,
    out: Seq<(Seq<char>, JsonV)>,
    j: int,
    k: Seq<char>,
    v: JsonV,
)
    requires
        obj_conforms(model, out),
        model matches JsonV::Obj(es) && 0 <= j < es.len() && es[j].0 == k && (forall|j2: int|
            0 <= j2 < es.len() && (#[trigger] es[j2]).0 == k ==> j2 == j) && !has_value_shortcut(
            es[j].1,
        ) && enum_list(es[j].1) is None && spec_is_int_type(spec_field_type(es[j].1)) && int_lo(
            spec_field_type(es[j].1),
            es[j].1,
        ) <= int_hi(spec_field_type(es[j].1), es[j].1),
        entries_get(out, k) == Some(v),
    ensures
        model matches JsonV::Obj(es) && v matches JsonV::Int(x) && int_lo(
            spec_field_type(es[j].1),
            es[j].1,
        ) <= x <= int_hi(spec_field_type(es[j].1), es[j].1),
{
    let es = model->Obj_0;
    lemma_entries_get_to_index(out, k, v);
    let i = choose|i: int| 0 <= i < out.len() && out[i] == (k, v);
    assert(out[i].0 == k && out[i].1 == v);
    assert(exists|j2: int|
        0 <= j2 < es.len() && es[j2].0 == out[i].0 && field_conforms(es[j2].1, out[i].1));
    let j2 = choose|j2: int|
        0 <= j2 < es.len() && es[j2].0 == out[i].0 && field_conforms(es[j2].1, out[i].1);
    assert(j2 == j);
    assert(field_conforms(es[j].1, v));
}

/// In a generated object, the value of a field whose schema declares the
/// `timestamp` type with workable bounds, and no literal `value` or enum,
/// is an integer within `[min_value, max_value]` — for any generation
/// run. The schema may not declare the field name twice.
pub proof fn lemma_timestamp_field_in_range(
    model: JsonV,
    out: Seq<(Seq<char>, JsonV)>,
    j: int,
    k: Seq<char>,
    v: JsonV,
)
    requires
        obj_conforms(model, out),
        model matches JsonV::Obj(es) && 0 <= j < es.len() && es[j].0 == k && (forall|j2: int|
            0 <= j2 < es.len() && (#[trigger] es[j2]).0 == k ==> j2 == j) && !has_value_shortcut(
            es[j].1,
        ) && enum_list(es[j].1) is None && spec_field_type(es[j].1) == "timestamp"@ && ts_lo(
            es[j].1,
        ) <= ts_hi(es[j].1),
        entries_get(out, k) == Some(v),
    ensures
        model matches JsonV::Obj(es) && v matches JsonV::Int(x) && ts_lo(es[j].1) <= x <= ts_hi(
            es[j].1,
        ),
{
    let es = model->Obj_0;
    lemma_entries_get_to_index(out, k, v);
    let i = choose|i: int| 0 <= i < out.len() && out[i] == (k, v);
    assert(out[i].0 == k && out[i].1 == v);
    assert(exists|j2: int|
        0 <= j2 < es.len() && es[j2].0 == out[i].0 && field_conforms(es[j2].1, out[i].1));
    let j2 = choose|j2: int|
        0 <= j2 < es.len() && es[j2].0 == out[i].0 && field_conforms(es[j2].1, out[i].1);
    assert(j2 == j);
    assert(field_conforms(es[j].1, v));
    proof_timestamp_is_not_an_int_tag(spec_field_type(es[j].1));
    assert(crate::gen::dispatch_conforms(es[j].1, v));
}

/// The `timestamp` tag is not an integer-family tag.
pub proof fn proof_timestamp_is_not_an_int_tag(t: Seq<char>)
    requires
        t == "timestamp"@,
    ensures
        !spec_is_int_type(t),
{
    reveal_strlit("timestamp");
    reveal_strlit("number");
    reveal_strlit("int");
    reveal_strlit("posint");
    reveal_strlit("negint");
    assert("timestamp"@.len() == 9);
    assert("number"@.len() == 6);
    assert("int"@.len() == 3);
    assert("posint"@.len() == 6);
    assert("negint"@.len() == 6);
}

/// In a generated object, the value of a field whose schema declares a
/// float-family type in fixed-precision mode, and no literal `value` or
/// enum, is a decimal with exactly the configured number of decimal
/// places — two when none is configured — for any generation run. The
/// schema may not declare the field name twice.
pub proof fn lemma_float_fixed_precision(
    model: JsonV,
    out: Seq<(Seq<char>, JsonV)>,
    j: int,
    k: Seq<char>,
    v: JsonV,
)
    requires
        obj_conforms(model, out),
        model matches JsonV::Obj(es) && 0 <= j < es.len() && es[j].0 == k && (forall|j2: int|
            0 <= j2 < es.len() && (#[trigger] es[j2]).0 == k ==> j2 == j) && !has_value_shortcut(
            es[j].1,
        ) && enum_list(es[j].1) is None && spec_is_float_type(spec_field_type(es[j].1))
            && float_fixed_mode(es[j].1),
        entries_get(out, k) == Some(v),
    ensures
        model matches JsonV::Obj(es) && v matches JsonV::Dec { units, places } && places
            == float_fixed_places(es[j].1),
{
    let es = model->Obj_0;
    lemma_entries_get_to_index(out, k, v);
    let i = choose|i: int| 0 <= i < out.len() && out[i] == (k, v);
    assert(out[i].0 == k && out[i].1 == v);
    assert(exists|j2: int|
        0 <= j2 < es.len() && es[j2].0 == out[i].0 && field_conforms(es[j2].1, out[i].1));
    let j2 = choose|j2: int|
        0 <= j2 < es.len() && es[j2].0 == out[i].0 && field_conforms(es[j2].1, out[i].1);
    assert(j2 == j);
    assert(field_conforms(es[j].1, v));
    let t = spec_field_type(es[j].1);
    proof_float_tags_are_not_int_tags(t);
    assert(crate::gen::dispatch_conforms(es[j].1, v));
}

/// A float-family tag is not an integer-family tag nor `timestamp`.
pub proof fn proof_float_tags_are_not_int_tags(t: Seq<char>)
    requires
        spec_is_float_type(t),
    ensures
        !spec_is_int_type(t),
        t != "timestamp"@,
{
    reveal_strlit("float");
    reveal_strlit("posfloat");
    reveal_strlit("negfloat");
    reveal_strlit("number");
    reveal_strlit("int");
    reveal_strlit("posint");
    reveal_strlit("negint");
    reveal_strlit("timestamp");
    assert("float"@.len() == 5);
    assert("posfloat"@.len() == 8);
    assert("negfloat"@.len() == 8);
    assert("number"@.len() == 6);
    assert("int"@.len() == 3);
    assert("posint"@.len() == 6);
    assert("negint"@.len() == 6);
    assert("timestamp"@.len() == 9);
    assert(t.len() == 5 || t.len() == 8);
}

/// In a generated object, the value of a field whose schema declares a
/// float-family type, and no literal `value` or enum, is a decimal whose
/// scaled units lie within the declared bounds, scaled to its precision
/// and clamped to the representable range, whenever those leave room —
/// for any generation run. The schema may not declare the field name
/// twice.
pub proof fn lemma_float_field_in_range(
    model: JsonV,
    out: Seq<(Seq<char>, JsonV)>,
    j: int,
    k: Seq<char>,
    v: JsonV,
)
    requires
        obj_conforms(model, out),
        model matches JsonV::Obj(es) && 0 <= j < es.len() && es[j].0 == k && (forall|j2: int|
            0 <= j2 < es.len() && (#[trigger] es[j2]).0 == k ==> j2 == j) && !has_value_shortcut(
            es[j].1,
        ) && enum_list(es[j].1) is None && spec_is_float_type(spec_field_type(es[j].1)),
        entries_get(out, k) == Some(v),
    ensures
        model matches JsonV::Obj(es) && v matches JsonV::Dec { units, places } && {
            let t = spec_field_type(es[j].1);
            let lo = clamp_i64(float_scaled_lo(t, es[j].1, places));
            let hi = clamp_i64(float_scaled_hi(t, es[j].1, places));
            lo <= hi ==> lo <= units <= hi
        },
{
    let es = model->Obj_0;
    lemma_entries_get_to_index(out, k, v);
    let i = choose|i: int| 0 <= i < out.len() && out[i] == (k, v);
    assert(out[i].0 == k && out[i].1 == v);
    assert(exists|j2: int|
        0 <= j2 < es.len() && es[j2].0 == out[i].0 && field_conforms(es[j2].1, out[i].1));
    let j2 = choose|j2: int|
        0 <= j2 < es.len() && es[j2].0 == out[i].0 && field_conforms(es[j2].1, out[i].1);
    assert(j2 == j);
    assert(field_conforms(es[j].1, v));
    proof_float_tags_are_not_int_tags(spec_field_type(es[j].1));
    assert(crate::gen::dispatch_conforms(es[j].1, v));
}

} // verus!
