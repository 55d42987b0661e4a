//! The value generator: turns a schema node into a concrete mock value,
//! honouring the per-type constraints. `field_conforms` is the contract
//! every generated field obeys.
use vstd::prelude::*;

use crate::dates;
use crate::json::entries_get;
use crate::json::entries_has;
use crate::json::jget;
use crate::json::json_copy;
use crate::json::Dec;
use crate::json::Json;
use crate::json::JsonV;
use crate::numparse::pow10;
use crate::rng::rand_i64_between;
use crate::rng::rand_u64_between;
use crate::rng::rand_usize_below;
use crate::schema::get_field_type;
use crate::schema::is_float_type;
use crate::schema::is_int_type;
use crate::schema::spec_field_type;
use crate::schema::spec_is_float_type;
use crate::schema::spec_is_int_type;
use crate::strutil::str_eq_str;
use crate::text;

verus! {

/// The metadata keys that annotate a schema object without being fields.
pub open spec fn reserved_key(k: Seq<char>) -> bool {
    k == "-type"@ || k == "-name"@ || k == "-desc"@ || k == "-length"@ || k == "-min_length"@ || k
        == "-max_length"@
}

/// Whether a schema field is required; the default is yes.
pub open spec fn spec_required(attr: JsonV) -> bool {
    match jget(attr, "required"@) {
        Some(JsonV::Bool(b)) => b,
        _ => true,
    }
}

/// The integer attribute `k` of `attr`, when it is one.
pub open spec fn spec_i64_attr(attr: JsonV, k: Seq<char>) -> Option<int> {
    match jget(attr, k) {
        Some(JsonV::Int(v)) => Some(v),
        _ => None,
    }
}

/// The non-negative integer attribute `k` of `attr`, when it is one.
pub open spec fn spec_u64_attr(attr: JsonV, k: Seq<char>) -> Option<int> {
    match jget(attr, k) {
        Some(JsonV::Int(v)) => if v >= 0 {
            Some(v)
        } else {
            None
        },
        _ => None,
    }
}

/// The string attribute `k` of `attr`, when it is one.
pub open spec fn spec_str_attr(attr: JsonV, k: Seq<char>) -> Option<Seq<char>> {
    match jget(attr, k) {
        Some(JsonV::Str(s)) => Some(s),
        _ => None,
    }
}

/// The numeric attribute `k` of `attr` as scaled units and places:
/// an integer counts as a decimal with no places.
pub open spec fn spec_num_attr(attr: JsonV, k: Seq<char>) -> Option<(int, nat)> {
    match jget(attr, k) {
        Some(JsonV::Int(v)) => Some((v, 0)),
        Some(JsonV::Dec { units, places }) => Some((units, places)),
        _ => None,
    }
}

/// The non-negative integer attribute `k`, with a default.
pub open spec fn spec_u64_attr_or(attr: JsonV, k: Seq<char>, d: int) -> int {
    match spec_u64_attr(attr, k) {
        Some(v) => v,
        None => d,
    }
}

/// Whether a fixed literal `value` short-circuits generation.
pub open spec fn has_value_shortcut(attr: JsonV) -> bool {
    spec_i64_attr(attr, "value"@) is Some
}

/// The enum list of `attr`, when a non-empty one is declared.
pub open spec fn enum_list(attr: JsonV) -> Option<Seq<JsonV>> {
    match jget(attr, "enum"@) {
        Some(JsonV::Arr(l)) => if l.len() > 0 {
            Some(l)
        } else {
            None
        },
        _ => None,
    }
}

/// The value an enum element stands for: a mapping with a `-value` key
/// yields that override, anything else yields itself.
pub open spec fn enum_adjust(e: JsonV) -> JsonV {
    match e {
        JsonV::Obj(es) => match entries_get(es, "-value"@) {
            Some(x) => x,
            None => e,
        },
        _ => e,
    }
}

/// Whether the per-field algorithm yields a value at all: only an
/// array-typed field whose schema is not a non-empty list yields nothing.
pub open spec fn produces(attr: JsonV) -> bool {
    if has_value_shortcut(attr) {
        true
    } else if enum_list(attr) is Some {
        true
    } else if spec_field_type(attr) == "array"@ {
        attr matches JsonV::Arr(l) && l.len() > 0
    } else {
        true
    }
}

/// Lower bound for the integer family: explicit `min_value`, else zero
/// for `posint`, else the smallest `i64`.
pub open spec fn int_lo(t: Seq<char>, attr: JsonV) -> int {
    match spec_i64_attr(attr, "min_value"@) {
        Some(v) => v,
        None => if t == "posint"@ {
            0
        } else {
            i64::MIN as int
        },
    }
}

/// Upper bound for the integer family: explicit `max_value`, else zero
/// for `negint`, else the largest `i64`.
pub open spec fn int_hi(t: Seq<char>, attr: JsonV) -> int {
    match spec_i64_attr(attr, "max_value"@) {
        Some(v) => v,
        None => if t == "negint"@ {
            0
        } else {
            i64::MAX as int
        },
    }
}

/// Lower timestamp bound: explicit `min_value` capped to `i64`, else zero.
pub open spec fn ts_lo(attr: JsonV) -> int {
    match spec_u64_attr(attr, "min_value"@) {
        Some(v) => if v > i64::MAX as int {
            i64::MAX as int
        } else {
            v
        },
        None => 0,
    }
}

/// Upper timestamp bound: explicit `max_value` capped to `i64`, else the
/// end of the default era.
pub open spec fn ts_hi(attr: JsonV) -> int {
    match spec_u64_attr(attr, "max_value"@) {
        Some(v) => if v > i64::MAX as int {
            i64::MAX as int
        } else if v == 0 {
            10413791999
        } else {
            v
        },
        None => 10413791999,
    }
}

/// A places count capped at the largest precision the decimal model
/// carries.
pub open spec fn cap16(v: int) -> nat {
    if v > 16 {
        16
    } else if v < 0 {
        0
    } else {
        v as nat
    }
}

/// Whether float generation runs in fixed-precision mode: an explicit
/// `decimal_places`, or no precision attribute at all.
pub open spec fn float_fixed_mode(attr: JsonV) -> bool {
    spec_u64_attr_or(attr, "decimal_places"@, 0) > 0 || (spec_u64_attr_or(
        attr,
        "min_decimal_places"@,
        0,
    ) == 0 && spec_u64_attr_or(attr, "max_decimal_places"@, 0) == 0)
}

/// The precision fixed mode yields: the configured `decimal_places`
/// capped, or the default of two.
pub open spec fn float_fixed_places(attr: JsonV) -> nat {
    let dp = spec_u64_attr_or(attr, "decimal_places"@, 0);
    if dp == 0 {
        2
    } else {
        cap16(dp)
    }
}

/// Smallest precision ranged mode allows.
pub open spec fn float_places_lo(attr: JsonV) -> nat {
    let v = spec_u64_attr_or(attr, "min_decimal_places"@, 0);
    if v == 0 {
        2
    } else {
        cap16(v)
    }
}

/// Largest precision ranged mode allows.
pub open spec fn float_places_hi(attr: JsonV) -> nat {
    let v = spec_u64_attr_or(attr, "max_decimal_places"@, 0);
    if v == 0 {
        16
    } else {
        cap16(v)
    }
}

/// Whether a generated precision obeys the declared decimal-place policy.
pub open spec fn float_places_ok(attr: JsonV, places: nat) -> bool {
    if float_fixed_mode(attr) {
        places == float_fixed_places(attr)
    } else {
        if float_places_lo(attr) <= float_places_hi(attr) {
            float_places_lo(attr) <= places <= float_places_hi(attr)
        } else {
            places == float_places_lo(attr)
        }
    }
}

/// The lower float bound scaled to `p` places. A constraint finer than
/// `p` places is ignored; the default is the smallest `i32`, or zero for
/// `posfloat`.
pub open spec fn float_scaled_lo(t: Seq<char>, attr: JsonV, p: nat) -> int {
    let d = if t == "posfloat"@ {
        0int
    } else {
        (-2147483648) * pow10(p)
    };
    match spec_num_attr(attr, "min_value"@) {
        Some((u, cp)) => if cp <= p {
            u * pow10((p - cp) as nat)
        } else {
            d
        },
        None => d,
    }
}

/// The upper float bound scaled to `p` places; the default is the largest
/// `i32`, or zero for `negfloat`.
pub open spec fn float_scaled_hi(t: Seq<char>, attr: JsonV, p: nat) -> int {
    let d = if t == "negfloat"@ {
        0int
    } else {
        2147483647 * pow10(p)
    };
    match spec_num_attr(attr, "max_value"@) {
        Some((u, cp)) => if cp <= p {
            u * pow10((p - cp) as nat)
        } else {
            d
        },
        None => d,
    }
}

/// `v` clamped into the `i64` range.
pub open spec fn clamp_i64(v: int) -> int {
    if v < i64::MIN as int {
        i64::MIN as int
    } else if v > i64::MAX as int {
        i64::MAX as int
    } else {
        v
    }
}

/// Whether a generated decimal obeys the float constraints: the declared
/// precision, and units inside the scaled, clamped bounds whenever those
/// leave room.
pub open spec fn float_conforms(t: Seq<char>, attr: JsonV, units: int, places: nat) -> bool {
    float_places_ok(attr, places) && {
        let lo = clamp_i64(float_scaled_lo(t, attr, places));
        let hi = clamp_i64(float_scaled_hi(t, attr, places));
        if lo <= hi {
            lo <= units <= hi
        } else {
            units == lo
        }
    }
}

/// Whether a generated string length obeys the sizing attributes.
pub open spec fn str_len_ok(attr: JsonV, n: nat) -> bool {
    text::len_ok(
        spec_u64_attr_or(attr, "length"@, 0) as nat,
        spec_u64_attr_or(attr, "min_length"@, 0) as nat,
        spec_u64_attr_or(attr, "max_length"@, 0) as nat,
        n,
    )
}

/// What the type-directed part of generation guarantees for a value of
/// the resolved type.
pub open spec fn dispatch_conforms(attr: JsonV, v: JsonV) -> bool
    decreases attr, 2int,
{
    let t = spec_field_type(attr);
    if spec_is_int_type(t) {
        &&& v matches JsonV::Int(x)
        &&& if int_lo(t, attr) <= int_hi(t, attr) {
            int_lo(t, attr) <= x <= int_hi(t, attr)
        } else {
            x == int_lo(t, attr)
        }
    } else if t == "timestamp"@ {
        &&& v matches JsonV::Int(x)
        &&& if ts_lo(attr) <= ts_hi(attr) {
            ts_lo(attr) <= x <= ts_hi(attr)
        } else {
            x == ts_lo(attr)
        }
    } else if spec_is_float_type(t) {
        v matches JsonV::Dec { units, places } && float_conforms(t, attr, units, places)
    } else if t == "date"@ || t == "datetime"@ {
        let date_only = t == "date"@;
        let mn = match spec_str_attr(attr, "min_value"@) {
            Some(s) => s,
            None => Seq::<char>::empty(),
        };
        let mx = match spec_str_attr(attr, "max_value"@) {
            Some(s) => s,
            None => Seq::<char>::empty(),
        };
        &&& v matches JsonV::Str(s)
        &&& s.len() == if date_only {
            10int
        } else {
            19int
        }
        &&& exists|tp: dates::DateTime|
            dates::valid_dt(tp) && s == dates::spec_fmt_dt(tp, date_only) && dates::dt_key(
                dates::spec_dt_lo(mn),
            ) <= dates::dt_key(tp) <= dates::dt_key(dates::spec_dt_hi(mx, dates::spec_dt_lo(mn)))
    } else if t == "uuid"@ {
        v matches JsonV::Str(s) && s.len() == 36
    } else if t == "bool"@ {
        v is Bool
    } else if t == "name"@ || t == "cname"@ || t == "domain"@ || t == "ip"@ || t == "email"@ || t
        == "url"@ || t == "image"@ {
        v matches JsonV::Str(s) && s.len() > 0
    } else if t == "regex"@ {
        let pat = match spec_str_attr(attr, "regex"@) {
            Some(s0) => crate::strutil::trim_seq(s0),
            None => Seq::<char>::empty(),
        };
        v matches JsonV::Str(s) && text::regex_gen_ok(pat, 0, s)
    } else if t == "object"@ {
        v matches JsonV::Obj(out) && obj_conforms(attr, out)
    } else if t == "array"@ {
        v matches JsonV::Arr(elems) && arr_conforms(attr, elems)
    } else {
        v matches JsonV::Str(s) && str_len_ok(attr, s.len())
    }
}

/// What one run of the per-field algorithm guarantees: the literal
/// `value` verbatim, an enum element, or a type-directed value.
pub open spec fn field_conforms(attr: JsonV, v: JsonV) -> bool
    decreases attr, 3int,
{
    if has_value_shortcut(attr) {
        match spec_i64_attr(attr, "value"@) {
            Some(x) => v == JsonV::Int(x),
            None => false,
        }
    } else {
        match enum_list(attr) {
            Some(l) => exists|i: int| 0 <= i < l.len() && v == enum_adjust(l[i]),
            None => dispatch_conforms(attr, v),
        }
    }
}

/// Whether a key sequence has no repeated entry.
pub open spec fn keys_distinct(es: Seq<(Seq<char>, JsonV)>) -> bool {
    forall|j1: int, j2: int| 0 <= j1 < j2 < es.len() ==> (#[trigger] es[j1]).0 != (#[trigger] es[j2]).0
}

/// What generating an object from `model` guarantees: every emitted field
/// is a non-reserved schema field whose value conforms, every required
/// field that yields a value is present, and a schema without repeated
/// keys generates each field at most once.
pub open spec fn obj_conforms(model: JsonV, out: Seq<(Seq<char>, JsonV)>) -> bool
    decreases model, 0int,
{
    match model {
        JsonV::Obj(es) => {
            &&& forall|i: int|
                0 <= i < out.len() ==> !reserved_key(#[trigger] out[i].0) && exists|j: int|
                    0 <= j < es.len() && es[j].0 == out[i].0 && field_conforms(es[j].1, out[i].1)
            &&& forall|j: int|
                0 <= j < es.len() && !reserved_key(#[trigger] es[j].0) && spec_required(es[j].1)
                    && produces(es[j].1) ==> entries_has(out, es[j].0)
            &&& keys_distinct(es) ==> keys_distinct(out)
        },
        _ => out.len() == 0,
    }
}

/// Whether `elems` holds `t` generated elements of the element schema
/// `el`: exactly `t` nested objects for an object element, otherwise up
/// to `t` conforming values, all `t` when the element is required.
pub open spec fn arr_count_ok(el: JsonV, elems: Seq<JsonV>, t: int) -> bool
    decreases el, 4int,
{
    if spec_field_type(el) == "object"@ {
        elems.len() == t && forall|i: int|
            0 <= i < elems.len() ==> ((#[trigger] elems[i]) matches JsonV::Obj(out)
                && obj_conforms(el, out))
    } else {
        &&& elems.len() <= t
        &&& (spec_required(el) && produces(el)) ==> elems.len() == t
        &&& forall|i: int| 0 <= i < elems.len() ==> field_conforms(el, #[trigger] elems[i])
    }
}

/// Whether `elems` holds between `mn` and `mx` generated elements of the
/// element schema `el`, each conforming; a non-required element may be
/// dropped, taking the count below `mn`.
pub open spec fn arr_count_range_ok(el: JsonV, elems: Seq<JsonV>, mn: int, mx: int) -> bool
    decreases el, 5int,
{
    if spec_field_type(el) == "object"@ {
        mn <= elems.len() <= mx && forall|i: int|
            0 <= i < elems.len() ==> ((#[trigger] elems[i]) matches JsonV::Obj(out)
                && obj_conforms(el, out))
    } else {
        &&& elems.len() <= mx
        &&& (spec_required(el) && produces(el)) ==> mn <= elems.len()
        &&& forall|i: int| 0 <= i < elems.len() ==> field_conforms(el, #[trigger] elems[i])
    }
}

/// What generating an array field guarantees: the schema is a non-empty
/// list, only its first element schema counts, and the element count
/// honours `-length` or the `[-min_length, -max_length]` range.
pub open spec fn arr_conforms(attr: JsonV, elems: Seq<JsonV>) -> bool
    decreases attr, 1int,
{
    match attr {
        JsonV::Arr(list) => list.len() > 0 && {
            let el = list[0];
            let ln = text::cap32(spec_u64_attr_or(el, "-length"@, 0) as nat) as int;
            let mn = text::cap32(spec_u64_attr_or(el, "-min_length"@, 3) as nat) as int;
            let mx = text::cap32(spec_u64_attr_or(el, "-max_length"@, 10) as nat) as int;
            if ln > 0 {
                arr_count_ok(el, elems, ln)
            } else if mn <= mx {
                arr_count_range_ok(el, elems, mn, mx)
            } else {
                arr_count_ok(el, elems, mn)
            }
        },
        _ => false,
    }
}

/// The integer attribute `k` of `attr`, as `spec_i64_attr` states.
pub fn get_i64_attr(attr: &Json, key: &str) -> (r: Option<i64>)
    ensures
        match r {
            Some(v) => spec_i64_attr(attr.jv(), key@) == Some(v as int),
            None => spec_i64_attr(attr.jv(), key@) is None,
        },
{
    match attr.get(key) {
        Some(Json::Int(v)) => Some(*v),
        _ => None,
    }
}

/// The non-negative integer attribute `k`, as `spec_u64_attr` states.
pub fn get_u64_attr(attr: &Json, key: &str) -> (r: Option<i64>)
    ensures
        match r {
            Some(v) => v >= 0 && spec_u64_attr(attr.jv(), key@) == Some(v as int),
            None => spec_u64_attr(attr.jv(), key@) is None,
        },
{
    match attr.get(key) {
        Some(Json::Int(v)) => if *v >= 0 {
            Some(*v)
        } else {
            None
        },
        _ => None,
    }
}

/// The non-negative integer attribute `k` with a default, as
/// `spec_u64_attr_or` states.
pub fn get_u64_attr_or(attr: &Json, key: &str, d: i64) -> (r: i64)
    requires
        d >= 0,
    ensures
        r >= 0,
        r == spec_u64_attr_or(attr.jv(), key@, d as int),
{
    match get_u64_attr(attr, key) {
        Some(v) => v,
        None => d,
    }
}

/// The boolean attribute `k` of `attr`, when it is one.
pub fn get_bool_attr(attr: &Json, key: &str) -> (r: Option<bool>)
    ensures
        match r {
            Some(b) => jget(attr.jv(), key@) == Some(JsonV::Bool(b)),
            None => !(jget(attr.jv(), key@) matches Some(v) && v is Bool),
        },
{
    match attr.get(key) {
        Some(Json::Bool(b)) => Some(*b),
        _ => None,
    }
}

/// The string attribute `k` of `attr`, as `spec_str_attr` states.
pub fn get_str_attr<'a>(attr: &'a Json, key: &str) -> (r: Option<&'a String>)
    ensures
        match r {
            Some(s) => spec_str_attr(attr.jv(), key@) == Some(s@),
            None => spec_str_attr(attr.jv(), key@) is None,
        },
{
    match attr.get(key) {
        Some(Json::Str(s)) => Some(s),
        _ => None,
    }
}

/// The numeric attribute `k` as scaled units and places, as
/// `spec_num_attr` states.
pub fn get_num_attr(attr: &Json, key: &str) -> (r: Option<Dec>)
    ensures
        match r {
            Some(d) => spec_num_attr(attr.jv(), key@) == Some((d.units as int, d.places as nat)),
            None => spec_num_attr(attr.jv(), key@) is None,
        },
{
    match attr.get(key) {
        Some(Json::Int(v)) => Some(Dec { units: *v, places: 0 }),
        Some(Json::Dec(d)) => Some(*d),
        _ => None,
    }
}

/// Ten to the power `e`, computed exactly; `e` stays within the decimal
/// model's precision.
#[verifier::loop_isolation(false)]
fn pow10_i128(e: u32) -> (r: i128)
    requires
        e <= 16,
    ensures
        r == pow10(e as nat),
        1 <= r <= 10000000000000000i128,
{
    proof {
        crate::numparse::lemma_pow10_mono(0, 16);
        assert(pow10(16) == 10000000000000000) by {
            assert(pow10(0) == 1);
            assert(pow10(1) == 10);
            assert(pow10(2) == 100);
            assert(pow10(3) == 1000);
            assert(pow10(4) == 10000);
            assert(pow10(5) == 100000);
            assert(pow10(6) == 1000000);
            assert(pow10(7) == 10000000);
            assert(pow10(8) == 100000000);
            assert(pow10(9) == 1000000000);
            assert(pow10(10) == 10000000000);
            assert(pow10(11) == 100000000000);
            assert(pow10(12) == 1000000000000);
            assert(pow10(13) == 10000000000000);
            assert(pow10(14) == 100000000000000);
            assert(pow10(15) == 1000000000000000);
        }
    }
    let mut r: i128 = 1;
    let mut j: u32 = 0;
    while j < e
        invariant
            j <= e,
            r == pow10(j as nat),
            1 <= r <= 10000000000000000i128,
        decreases e - j,
    {
        proof {
            crate::numparse::lemma_pow10_mono(j as nat + 1, 16);
            assert(pow10(j as nat + 1) == r * 10);
        }
        r = r * 10;
        j = j + 1;
    }
    r
}

/// `u` scaled up by `e` decimal places, exactly.
fn scale_units(u: i64, e: u32) -> (r: i128)
    requires
        e <= 16,
    ensures
        r == u * pow10(e as nat),
{
    let p = pow10_i128(e);
    proof {
        assert((u as i128) * p <= 170141183460469231731687303715884105727i128 && (u as i128) * p
            >= -170141183460469231731687303715884105728i128) by (nonlinear_arith)
            requires
                -9223372036854775808i128 <= u as i128 <= 9223372036854775807i128,
                1i128 <= p <= 10000000000000000i128,
        ;
    }
    (u as i128) * p
}

/// An `i128` clamped into the `i64` range, as `clamp_i64` states.
fn clamp_to_i64(v: i128) -> (r: i64)
    ensures
        r as int == clamp_i64(v as int),
{
    if v < -0x8000_0000_0000_0000i128 {
        i64::MIN
    } else if v > 0x7fff_ffff_ffff_ffffi128 {
        i64::MAX
    } else {
        v as i64
    }
}

/// A random integer honouring the integer-family bounds of `attr`.
fn gen_int_value(t: &str, attr: &Json) -> (r: i64)
    ensures
        ({
            let lo = int_lo(t@, attr.jv());
            let hi = int_hi(t@, attr.jv());
            if lo <= hi {
                lo <= r <= hi
            } else {
                r == lo
            }
        }),
{
    let lo: i64 = match get_i64_attr(attr, "min_value") {
        Some(v) => v,
        None => if str_eq_str(t, "posint") {
            0
        } else {
            i64::MIN
        },
    };
    let hi: i64 = match get_i64_attr(attr, "max_value") {
        Some(v) => v,
        None => if str_eq_str(t, "negint") {
            0
        } else {
            i64::MAX
        },
    };
    if lo <= hi {
        rand_i64_between(lo, hi)
    } else {
        lo
    }
}

/// A random timestamp honouring the bounds of `attr`.
fn gen_ts_value(attr: &Json) -> (r: i64)
    ensures
        ({
            let lo = ts_lo(attr.jv());
            let hi = ts_hi(attr.jv());
            if lo <= hi {
                lo <= r <= hi
            } else {
                r == lo
            }
        }),
{
    let lo: i64 = match get_u64_attr(attr, "min_value") {
        Some(v) => v,
        None => 0,
    };
    let hi: i64 = match get_u64_attr(attr, "max_value") {
        Some(v) => if v == 0 {
            10413791999
        } else {
            v
        },
        None => 10413791999,
    };
    if lo <= hi {
        rand_i64_between(lo, hi)
    } else {
        lo
    }
}

/// A random decimal honouring the float-family constraints of `attr`.
fn gen_float_value(t: &str, attr: &Json) -> (r: Dec)
    ensures
        float_conforms(t@, attr.jv(), r.units as int, r.places as nat),
{
    let dp = get_u64_attr_or(attr, "decimal_places", 0);
    let mindp = get_u64_attr_or(attr, "min_decimal_places", 0);
    let maxdp = get_u64_attr_or(attr, "max_decimal_places", 0);
    let places: u32 = if dp > 0 || (mindp == 0 && maxdp == 0) {
        if dp == 0 {
            2
        } else if dp > 16 {
            16
        } else {
            dp as u32
        }
    } else {
        let plo: i64 = if mindp == 0 {
            2
        } else if mindp > 16 {
            16
        } else {
            mindp
        };
        let phi: i64 = if maxdp == 0 {
            16
        } else if maxdp > 16 {
            16
        } else {
            maxdp
        };
        if plo <= phi {
            rand_i64_between(plo, phi) as u32
        } else {
            plo as u32
        }
    };
    proof {
        assert(float_places_ok(attr.jv(), places as nat));
    }
    let lo128: i128 = match get_num_attr(attr, "min_value") {
        Some(d) => if d.places <= places {
            scale_units(d.units, places - d.places)
        } else {
            if str_eq_str(t, "posfloat") {
                0
            } else {
                scale_units(-2147483648i64, places)
            }
        },
        None => if str_eq_str(t, "posfloat") {
            0
        } else {
            scale_units(-2147483648i64, places)
        },
    };
    let hi128: i128 = match get_num_attr(attr, "max_value") {
        Some(d) => if d.places <= places {
            scale_units(d.units, places - d.places)
        } else {
            if str_eq_str(t, "negfloat") {
                0
            } else {
                scale_units(2147483647i64, places)
            }
        },
        None => if str_eq_str(t, "negfloat") {
            0
        } else {
            scale_units(2147483647i64, places)
        },
    };
    proof {
        assert(lo128 == float_scaled_lo(t@, attr.jv(), places as nat));
        assert(hi128 == float_scaled_hi(t@, attr.jv(), places as nat));
    }
    let lo = clamp_to_i64(lo128);
    let hi = clamp_to_i64(hi128);
    let units: i64 = if lo <= hi {
        rand_i64_between(lo, hi)
    } else {
        lo
    };
    Dec { units, places }
}

/// What looking a key up yields after an entry is appended: what it
/// yielded before, or the new entry when the key was absent and matches.
pub proof fn lemma_entries_get_after_push(
    s: Seq<(Seq<char>, JsonV)>,
    e: (Seq<char>, JsonV),
    k: Seq<char>,
)
    ensures
        entries_get(s.push(e), k) == (if entries_get(s, k) is Some {
            entries_get(s, k)
        } else if e.0 == k {
            Some(e.1)
        } else {
            None
        }),
    decreases s.len(),
{
    if s.len() > 0 {
        assert(s.push(e)[0] == s[0]);
        assert(s.push(e).drop_first() =~= s.drop_first().push(e));
        if s[0].0 != k {
            lemma_entries_get_after_push(s.drop_first(), e, k);
            assert(entries_get(s.push(e), k) == entries_get(s.drop_first().push(e), k));
        } else {
            assert(entries_get(s.push(e), k) == Some(s[0].1));
        }
    } else {
        assert(s.push(e)[0] == e);
        assert(s.push(e).drop_first() =~= Seq::<(Seq<char>, JsonV)>::empty());
        if e.0 == k {
            assert(entries_get(s.push(e), k) == Some(e.1));
        } else {
            assert(entries_get(Seq::<(Seq<char>, JsonV)>::empty(), k) is None);
            assert(entries_get(s.push(e), k) is None);
        }
    }
}

/// One type-directed value for `attr`, whose resolved type is `t`; an
/// array field without a usable element schema yields nothing.
#[verifier::loop_isolation(false)]
fn gen_dispatch(attr: &Json, t: &str) -> (r: Option<Json>)
    requires
        t@ == spec_field_type(attr.jv()),
    ensures
        match r {
            Some(v) => dispatch_conforms(attr.jv(), v.jv()),
            None => spec_field_type(attr.jv()) == "array"@ && !(attr.jv() matches JsonV::Arr(l)
                && l.len() > 0),
        },
    decreases *attr, 2int,
{
    if is_int_type(t) {
        Some(Json::Int(gen_int_value(t, attr)))
    } else if str_eq_str(t, "timestamp") {
        Some(Json::Int(gen_ts_value(attr)))
    } else if is_float_type(t) {
        Some(Json::Dec(gen_float_value(t, attr)))
    } else if str_eq_str(t, "date") || str_eq_str(t, "datetime") {
        let date_only = str_eq_str(t, "date");
        let mn: &str = match get_str_attr(attr, "min_value") {
            Some(s) => s.as_str(),
            None => "",
        };
        let mx: &str = match get_str_attr(attr, "max_value") {
            Some(s) => s.as_str(),
            None => "",
        };
        proof {
            reveal_strlit("");
            assert(""@ =~= Seq::<char>::empty());
        }
        Some(Json::Str(dates::datetime(mn, mx, date_only)))
    } else if str_eq_str(t, "uuid") {
        Some(Json::Str(text::uuid()))
    } else if str_eq_str(t, "bool") {
        Some(Json::Bool(rand_u64_between(0, 1) == 1))
    } else if str_eq_str(t, "name") {
        Some(Json::Str(text::name()))
    } else if str_eq_str(t, "cname") {
        Some(Json::Str(text::cname()))
    } else if str_eq_str(t, "domain") {
        Some(Json::Str(text::domain(true)))
    } else if str_eq_str(t, "ip") {
        Some(Json::Str(text::ip()))
    } else if str_eq_str(t, "email") {
        Some(Json::Str(text::email()))
    } else if str_eq_str(t, "url") {
        Some(Json::Str(text::url()))
    } else if str_eq_str(t, "image") {
        let size: &str = match get_str_attr(attr, "size") {
            Some(s) => s.as_str(),
            None => "",
        };
        let fg: &str = match get_str_attr(attr, "foreground") {
            Some(s) => s.as_str(),
            None => "",
        };
        let bg: &str = match get_str_attr(attr, "background") {
            Some(s) => s.as_str(),
            None => "",
        };
        let fm: &str = match get_str_attr(attr, "format") {
            Some(s) => s.as_str(),
            None => "",
        };
        let tx: &str = match get_str_attr(attr, "text") {
            Some(s) => s.as_str(),
            None => "",
        };
        Some(Json::Str(text::image(size, fg, bg, fm, tx)))
    } else if str_eq_str(t, "regex") {
        let pat: String = match get_str_attr(attr, "regex") {
            Some(s) => crate::strutil::trim(s.as_str()),
            None => String::new(),
        };
        if pat.as_str().unicode_len() == 0 {
            let empty = String::new();
            proof {
                assert(text::regex_gen_ok(pat@, 0, empty@));
            }
            Some(Json::Str(empty))
        } else {
            Some(Json::Str(text::regex_string(pat.as_str())))
        }
    } else if str_eq_str(t, "object") {
        let sub = create_mock_response(attr);
        Some(Json::Obj(sub))
    } else if str_eq_str(t, "array") {
        gen_array(attr)
    } else {
        let l = get_u64_attr_or(attr, "length", 0);
        let mn = get_u64_attr_or(attr, "min_length", 0);
        let mx = get_u64_attr_or(attr, "max_length", 0);
        let n = text::resolve_len(l as u64, mn as u64, mx as u64);
        let s = if str_eq_str(t, "cword") || str_eq_str(t, "cw") || str_eq_str(t, "ctitle")
            || str_eq_str(t, "ct") || str_eq_str(t, "csentence") || str_eq_str(t, "cs")
            || str_eq_str(t, "csummary") || str_eq_str(t, "cm") || str_eq_str(t, "cparagraph")
            || str_eq_str(t, "cp") {
            text::gen_han_string(n)
        } else if str_eq_str(t, "title") || str_eq_str(t, "sentence") || str_eq_str(t, "summary")
            || str_eq_str(t, "paragraph") {
            text::gen_prose_string(n)
        } else {
            text::gen_lower_string(n)
        };
        Some(Json::Str(s))
    }
}

/// The generated elements of an array field: the schema must be a
/// non-empty list, and only its first element schema counts.
#[verifier::loop_isolation(false)]
#[verifier::rlimit(80)]
fn gen_array(attr: &Json) -> (r: Option<Json>)
    ensures
        match r {
            Some(v) => v.jv() matches JsonV::Arr(elems) && arr_conforms(attr.jv(), elems),
            None => !(attr.jv() matches JsonV::Arr(l) && l.len() > 0),
        },
    decreases *attr, 1int,
{
    match attr {
        Json::Arr(list) => {
            let ghost lv = attr.jv()->Arr_0;
            proof {
                assert(lv == Json::arr_view(list@));
                assert(lv.len() == list@.len());
            }
            if list.len() == 0 {
                return None;
            }
            let el = &list[0];
            proof {
                assert(lv[0] == list@[0].jv());
                assert(decreases_to!(*attr => *list));
                assert(decreases_to!(*list => list[0]));
            }
            let ln0 = get_u64_attr_or(el, "-length", 0);
            let mn0 = get_u64_attr_or(el, "-min_length", 3);
            let mx0 = get_u64_attr_or(el, "-max_length", 10);
            let ln: i64 = if ln0 > 0xffff_ffff {
                0xffff_ffff
            } else {
                ln0
            };
            let mn: i64 = if mn0 > 0xffff_ffff {
                0xffff_ffff
            } else {
                mn0
            };
            let mx: i64 = if mx0 > 0xffff_ffff {
                0xffff_ffff
            } else {
                mx0
            };
            proof {
                assert(ln == text::cap32(spec_u64_attr_or(el.jv(), "-length"@, 0) as nat) as int);
                assert(mn == text::cap32(spec_u64_attr_or(el.jv(), "-min_length"@, 3) as nat) as int);
                assert(mx == text::cap32(spec_u64_attr_or(el.jv(), "-max_length"@, 10) as nat) as int);
            }
            let target: usize = if ln > 0 {
                ln as usize
            } else if mn <= mx {
                rand_i64_between(mn, mx) as usize
            } else {
                mn as usize
            };
            let t2 = get_field_type(el);
            let mut vec: Vec<Json> = Vec::new();
            if str_eq_str(t2.as_str(), "object") {
                for k in 0..target
                    invariant
                        vec@.len() == k,
                        forall|i: int|
                            0 <= i < k ==> ((#[trigger] vec@[i].jv()) matches JsonV::Obj(out)
                                && obj_conforms(el.jv(), out)),
                    decreases target - k,
                {
                    proof {
                        assert(decreases_to!(*attr => *list));
                        assert(decreases_to!(*list => list[0]));
                    }
                    let sub = create_mock_response(el);
                    vec.push(Json::Obj(sub));
                }
            } else {
                for k in 0..target
                    invariant
                        vec@.len() <= k,
                        (spec_required(el.jv()) && produces(el.jv())) ==> vec@.len() == k,
                        forall|i: int|
                            0 <= i < vec@.len() ==> field_conforms(
                                el.jv(),
                                (#[trigger] vec@[i]).jv(),
                            ),
                    decreases target - k,
                {
                    proof {
                        assert(decreases_to!(*attr => *list));
                        assert(decreases_to!(*list => list[0]));
                    }
                    match gen_element(el) {
                        Some(v) => {
                            vec.push(v);
                        },
                        None => {},
                    }
                }
            }
            let out = Json::Arr(vec);
            let ghost ev = out.jv()->Arr_0;
            proof {
                assert(ev == Json::arr_view(vec@));
                assert(ev.len() == vec@.len());
                assert(forall|i: int| 0 <= i < vec@.len() ==> ev[i] == (#[trigger] vec@[i]).jv());
                if ln > 0 {
                    assert(target == ln);
                    assert(arr_count_ok(el.jv(), ev, ln as int));
                    assert(arr_conforms(attr.jv(), ev));
                } else if mn <= mx {
                    assert(mn <= target <= mx);
                    assert(arr_count_range_ok(el.jv(), ev, mn as int, mx as int));
                    assert(arr_conforms(attr.jv(), ev));
                } else {
                    assert(target == mn);
                    assert(arr_count_ok(el.jv(), ev, mn as int));
                    assert(arr_conforms(attr.jv(), ev));
                }
            }
            Some(out)
        },
        _ => None,
    }
}

/// One run of the per-field algorithm on `attr`: the literal `value`
/// short-circuit, then the enum pick, then the type dispatch, behind the
/// coin flip that drops an optional field half the time.
#[verifier::loop_isolation(false)]
fn gen_element(attr: &Json) -> (r: Option<Json>)
    ensures
        match r {
            Some(v) => field_conforms(attr.jv(), v.jv()),
            None => !(spec_required(attr.jv()) && produces(attr.jv())),
        },
    decreases *attr, 3int,
{
    let required = match get_bool_attr(attr, "required") {
        Some(b) => b,
        None => true,
    };
    if !required {
        let flip = rand_u64_between(0, 9);
        if flip % 2 == 0 {
            return None;
        }
    }
    match get_i64_attr(attr, "value") {
        Some(v) => {
            return Some(Json::Int(v));
        },
        None => {},
    }
    match attr.get("enum") {
        Some(e) => {
            match e {
                Json::Arr(l) => {
                    if l.len() > 0 {
                        let ghost lv = e.jv()->Arr_0;
                        proof {
                            assert(lv == Json::arr_view(l@));
                            assert(enum_list(attr.jv()) == Some(lv));
                        }
                        let idx = rand_usize_below(l.len());
                        let elem = &l[idx];
                        proof {
                            assert(lv[idx as int] == l@[idx as int].jv());
                        }
                        let chosen: Json = match elem {
                            Json::Obj(_) => {
                                match elem.get("-value") {
                                    Some(ov) => json_copy(ov),
                                    None => json_copy(elem),
                                }
                            },
                            _ => json_copy(elem),
                        };
                        proof {
                            assert(chosen.jv() == enum_adjust(lv[idx as int]));
                        }
                        return Some(chosen);
                    }
                },
                _ => {},
            }
        },
        None => {},
    }
    let t = get_field_type(attr);
    gen_dispatch(attr, t.as_str())
}

/// Generates one mock object from the object schema `response_model`:
/// every emitted field is a declared, non-reserved field whose value
/// conforms to its constraints, and every required field that can yield
/// a value is present. Any other schema shape yields an empty object.
#[verifier::loop_isolation(false)]
pub fn create_mock_response(response_model: &Json) -> (r: Vec<(String, Json)>)
    ensures
        obj_conforms(response_model.jv(), Json::entries_view(r@)),
    decreases *response_model, 0int,
{
    let mut result: Vec<(String, Json)> = Vec::new();
    match response_model {
        Json::Obj(entries) => {
            let ghost es = response_model.jv()->Obj_0;
            proof {
                assert(es == Json::entries_view(entries@));
                assert(es.len() == entries@.len());
            }
            let n = entries.len();
            for i in 0..n
                invariant
                    forall|a: int|
                        0 <= a < result@.len() ==> !reserved_key(
                            #[trigger] Json::entries_view(result@)[a].0,
                        ) && exists|j: int|
                            0 <= j < i && es[j].0 == Json::entries_view(result@)[a].0
                                && field_conforms(es[j].1, Json::entries_view(result@)[a].1),
                    forall|j: int|
                        0 <= j < i && !reserved_key(#[trigger] es[j].0) && spec_required(es[j].1)
                            && produces(es[j].1) ==> entries_has(
                            Json::entries_view(result@),
                            es[j].0,
                        ),
                    keys_distinct(es) ==> keys_distinct(Json::entries_view(result@)),
                decreases n - i,
            {
                let key: &String = &entries[i].0;
                let attr: &Json = &entries[i].1;
                proof {
                    assert(es[i as int].0 == key@);
                    assert(es[i as int].1 == attr.jv());
                    assert(decreases_to!(*response_model => *entries));
                    assert(decreases_to!(*entries => entries[i as int]));
                }
                let k = key.as_str();
                let reserved = str_eq_str(k, "-type") || str_eq_str(k, "-name") || str_eq_str(
                    k,
                    "-desc",
                ) || str_eq_str(k, "-length") || str_eq_str(k, "-min_length") || str_eq_str(
                    k,
                    "-max_length",
                );
                if !reserved {
                    match gen_element(attr) {
                        Some(v) => {
                            let ghost out0 = Json::entries_view(result@);
                            let kc = key.clone();
                            result.push((kc, v));
                            proof {
                                assert(Json::entries_view(result@) =~= out0.push((key@, v.jv())));
                                assert forall|j: int|
                                    0 <= j <= i && !reserved_key(#[trigger] es[j].0)
                                        && spec_required(es[j].1) && produces(
                                        es[j].1,
                                    ) implies entries_has(
                                    Json::entries_view(result@),
                                    es[j].0,
                                ) by {
                                    lemma_entries_get_after_push(out0, (key@, v.jv()), es[j].0);
                                }
                                if keys_distinct(es) {
                                    let ov = Json::entries_view(result@);
                                    assert forall|a1: int, a2: int|
                                        0 <= a1 < a2 < ov.len() implies (#[trigger] ov[a1]).0 != (
                                    #[trigger] ov[a2]).0 by {
                                        if a2 == ov.len() - 1 {
                                            let j = choose|j: int|
                                                0 <= j < i && es[j].0 == out0[a1].0
                                                    && field_conforms(es[j].1, out0[a1].1);
                                            assert(es[j].0 != es[i as int].0);
                                        }
                                    }
                                }
                            }
                        },
                        None => {},
                    }
                }
            }
        },
        _ => {},
    }
    result
}

} // verus!
