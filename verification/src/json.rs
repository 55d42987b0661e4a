//! The JSON-like value model that schemas, fixtures, requests and generated
//! responses are all made of.
use vstd::prelude::*;

verus! {

/// Mathematical model of a JSON value. `Dec` stands for a decimal number
/// `units / 10^places`, which is how non-integer numbers are represented
/// throughout this crate.
#[verifier::ext_equal]
pub enum JsonV {
    Null,
    Bool(bool),
    Int(int),
    Dec { units: int, places: nat },
    Str(Seq<char>),
    Arr(Seq<JsonV>),
    Obj(Seq<(Seq<char>, JsonV)>),
}

/// A fixed-point decimal number: the value `units / 10^places`.
/// It stands in for the floating-point numbers of a JSON document,
/// so that the number of decimal places is part of the value.
#[derive(Clone, Copy, Debug, PartialEq, Eq, Structural)]
pub struct Dec {
    pub units: i64,
    pub places: u32,
}

/// A JSON value. Objects keep their fields in declaration order;
/// a lookup takes the first entry with the wanted key.
#[derive(Debug)]
pub enum Json {
    Null,
    Bool(bool),
    Int(i64),
    Dec(Dec),
    Str(String),
    Arr(Vec<Json>),
    Obj(Vec<(String, Json)>),
}

impl Json {
    /// The mathematical value of this JSON tree.
    pub open spec fn jv(self) -> JsonV
        decreases self,
    {
        match self {
            Json::Null => JsonV::Null,
            Json::Bool(b) => JsonV::Bool(b),
            Json::Int(i) => JsonV::Int(i as int),
            Json::Dec(d) => JsonV::Dec { units: d.units as int, places: d.places as nat },
            Json::Str(s) => JsonV::Str(s@),
            Json::Arr(v) => JsonV::Arr(Json::arr_view(v@)),
            Json::Obj(v) => JsonV::Obj(Json::entries_view(v@)),
        }
    }

    /// The mathematical values of a sequence of JSON trees, elementwise.
    pub open spec fn arr_view(elems: Seq<Json>) -> Seq<JsonV>
        decreases elems,
    {
        Seq::new(elems.len(), |i: int| if 0 <= i < elems.len() { elems[i].jv() } else { JsonV::Null })
    }

    /// The mathematical values of a sequence of object fields, elementwise.
    pub open spec fn entries_view(entries: Seq<(String, Json)>) -> Seq<(Seq<char>, JsonV)>
        decreases entries,
    {
        Seq::new(
            entries.len(),
            |i: int|
                if 0 <= i < entries.len() {
                    (entries[i].0@, entries[i].1.jv())
                } else {
                    (Seq::<char>::empty(), JsonV::Null)
                },
        )
    }
}

/// First entry of `s` whose key is `k`, scanning in order.
pub open spec fn entries_get(s: Seq<(Seq<char>, JsonV)>, k: Seq<char>) -> Option<JsonV>
    decreases s.len(),
{
    if s.len() == 0 {
        None
    } else if s[0].0 == k {
        Some(s[0].1)
    } else {
        entries_get(s.drop_first(), k)
    }
}

/// Whether some entry of `s` has key `k`.
pub open spec fn entries_has(s: Seq<(Seq<char>, JsonV)>, k: Seq<char>) -> bool {
    entries_get(s, k) is Some
}

/// Field `k` of `j`, when `j` is an object that has it.
pub open spec fn jget(j: JsonV, k: Seq<char>) -> Option<JsonV> {
    match j {
        JsonV::Obj(es) => entries_get(es, k),
        _ => None,
    }
}

pub proof fn lemma_entries_get_skip(s: Seq<(Seq<char>, JsonV)>, k: Seq<char>, i: int)
    requires
        0 <= i <= s.len(),
        forall|j: int| 0 <= j < i ==> s[j].0 != k,
    ensures
        entries_get(s, k) == entries_get(s.skip(i), k),
    decreases i,
{
    if i > 0 {
        assert(s.skip(1) =~= s.drop_first());
        lemma_entries_get_skip(s.drop_first(), k, i - 1);
        assert(s.drop_first().skip(i - 1) =~= s.skip(i));
    } else {
        assert(s.skip(0) =~= s);
    }
}

pub proof fn lemma_entries_get_found(s: Seq<(Seq<char>, JsonV)>, k: Seq<char>, i: int)
    requires
        0 <= i < s.len(),
        s[i].0 == k,
        forall|j: int| 0 <= j < i ==> s[j].0 != k,
    ensures
        entries_get(s, k) == Some(s[i].1),
    decreases i,
{
    if i > 0 {
        lemma_entries_get_found(s.drop_first(), k, i - 1);
    }
}

/// First entry of `entries` named `key`, scanning in order.
pub fn entries_find<'a>(entries: &'a Vec<(String, Json)>, key: &str) -> (r: Option<&'a Json>)
    ensures
        match r {
            Some(v) => entries_get(Json::entries_view(entries@), key@) == Some(v.jv()),
            None => entries_get(Json::entries_view(entries@), key@) is None,
        },
{
    let ghost es = Json::entries_view(entries@);
    let n = entries.len();
    for i in 0..n
        invariant
            n == entries.len(),
            es == Json::entries_view(entries@),
            forall|j: int| 0 <= j < i ==> es[j].0 != key@,
    {
        if crate::strutil::str_eq_str(entries[i].0.as_str(), key) {
            proof {
                lemma_entries_get_found(es, key@, i as int);
            }
            return Some(&entries[i].1);
        }
    }
    proof {
        lemma_entries_get_skip(es, key@, es.len() as int);
    }
    None
}

/// Structural equality of two JSON trees: their mathematical values coincide.
#[verifier::loop_isolation(false)]
pub fn json_equal(a: &Json, b: &Json) -> (r: bool)
    ensures
        r == (a.jv() == b.jv()),
    decreases *a,
{
    match (a, b) {
        (Json::Null, Json::Null) => true,
        (Json::Bool(x), Json::Bool(y)) => x == y,
        (Json::Int(x), Json::Int(y)) => x == y,
        (Json::Dec(x), Json::Dec(y)) => x == y,
        (Json::Str(x), Json::Str(y)) => crate::strutil::str_eq_str(x.as_str(), y.as_str()),
        (Json::Arr(x), Json::Arr(y)) => {
            let ghost sx = a.jv()->Arr_0;
            let ghost sy = b.jv()->Arr_0;
            proof {
                assert(sx == Json::arr_view(x@));
                assert(sy == Json::arr_view(y@));
                assert(sx.len() == x@.len());
                assert(sy.len() == y@.len());
            }
            if x.len() != y.len() {
                return false;
            }
            let n = x.len();
            for i in 0..n
                invariant
                    n == x.len(),
                    n == y.len(),
                    a.jv() == JsonV::Arr(sx),
                    b.jv() == JsonV::Arr(sy),
                    sx.len() == n,
                    sy.len() == n,
                    sx == Json::arr_view(x@),
                    sy == Json::arr_view(y@),
                    forall|j: int| 0 <= j < i ==> sx[j] == sy[j],
                decreases n - i,
            {
                proof {
                    assert(decreases_to!(*a => *x));
                    assert(decreases_to!(*x => x[i as int]));
                }
                if !json_equal(&x[i], &y[i]) {
                    proof {
                        assert(sx[i as int] == x@[i as int].jv());
                        assert(sy[i as int] == y@[i as int].jv());
                    }
                    return false;
                }
            }
            proof {
                assert(sx =~= sy);
            }
            true
        },
        (Json::Obj(x), Json::Obj(y)) => {
            let ghost sx = a.jv()->Obj_0;
            let ghost sy = b.jv()->Obj_0;
            proof {
                assert(sx == Json::entries_view(x@));
                assert(sy == Json::entries_view(y@));
                assert(sx.len() == x@.len());
                assert(sy.len() == y@.len());
            }
            if x.len() != y.len() {
                return false;
            }
            let n = x.len();
            for i in 0..n
                invariant
                    n == x.len(),
                    n == y.len(),
                    a.jv() == JsonV::Obj(sx),
                    b.jv() == JsonV::Obj(sy),
                    sx.len() == n,
                    sy.len() == n,
                    sx == Json::entries_view(x@),
                    sy == Json::entries_view(y@),
                    forall|j: int| 0 <= j < i ==> sx[j] == sy[j],
                decreases n - i,
            {
                if !crate::strutil::str_eq_str(x[i].0.as_str(), y[i].0.as_str()) {
                    proof {
                        assert(sx[i as int].0 == x@[i as int].0@);
                        assert(sy[i as int].0 == y@[i as int].0@);
                    }
                    return false;
                }
                proof {
                    assert(decreases_to!(*a => *x));
                    assert(decreases_to!(*x => x[i as int]));
                }
                if !json_equal(&x[i].1, &y[i].1) {
                    proof {
                        assert(sx[i as int].1 == x@[i as int].1.jv());
                        assert(sy[i as int].1 == y@[i as int].1.jv());
                    }
                    return false;
                }
            }
            proof {
                assert(sx =~= sy);
            }
            true
        },
        _ => false,
    }
}

/// A copy of `self` with the same mathematical value.
#[verifier::loop_isolation(false)]
pub fn json_copy(a: &Json) -> (r: Json)
    ensures
        r.jv() == a.jv(),
    decreases *a,
{
    match a {
        Json::Null => Json::Null,
        Json::Bool(x) => Json::Bool(*x),
        Json::Int(x) => Json::Int(*x),
        Json::Dec(x) => Json::Dec(*x),
        Json::Str(x) => Json::Str(x.clone()),
        Json::Arr(x) => {
            let ghost sx = a.jv()->Arr_0;
            let mut out: Vec<Json> = Vec::new();
            let n = x.len();
            for i in 0..n
                invariant
                    n == x.len(),
                    a.jv() == JsonV::Arr(sx),
                    sx == Json::arr_view(x@),
                    out@.len() == i,
                    forall|j: int| 0 <= j < i ==> (#[trigger] out@[j]).jv() == sx[j],
                decreases n - i,
            {
                proof {
                    assert(decreases_to!(*a => *x));
                    assert(decreases_to!(*x => x[i as int]));
                }
                let c = json_copy(&x[i]);
                out.push(c);
            }
            let r = Json::Arr(out);
            proof {
                assert(r.jv()->Arr_0 =~= sx);
            }
            r
        },
        Json::Obj(x) => {
            let ghost sx = a.jv()->Obj_0;
            let mut out: Vec<(String, Json)> = Vec::new();
            let n = x.len();
            for i in 0..n
                invariant
                    n == x.len(),
                    a.jv() == JsonV::Obj(sx),
                    sx == Json::entries_view(x@),
                    out@.len() == i,
                    forall|j: int| 0 <= j < i ==> (#[trigger] out@[j]).0@ == sx[j].0
                        && out@[j].1.jv() == sx[j].1,
                decreases n - i,
            {
                proof {
                    assert(decreases_to!(*a => *x));
                    assert(decreases_to!(*x => x[i as int]));
                }
                let k = x[i].0.clone();
                let c = json_copy(&x[i].1);
                out.push((k, c));
            }
            let r = Json::Obj(out);
            proof {
                assert(r.jv()->Obj_0 =~= sx);
            }
            r
        },
    }
}

impl Json {
    /// First field named `key`, or `None` when `self` is not an object
    /// or has no such field.
    pub fn get<'a>(&'a self, key: &str) -> (r: Option<&'a Json>)
        ensures
            match r {
                Some(v) => jget(self.jv(), key@) == Some(v.jv()),
                None => jget(self.jv(), key@) is None,
            },
    {
        match self {
            Json::Obj(entries) => {
                let ghost es = self.jv()->Obj_0;
                let n = entries.len();
                for i in 0..n
                    invariant
                        n == entries.len(),
                        es == Json::entries_view(entries@),
                        self.jv() == JsonV::Obj(es),
                        forall|j: int| 0 <= j < i ==> es[j].0 != key@,
                {
                    if crate::strutil::str_eq_str(entries[i].0.as_str(), key) {
                        proof {
                            lemma_entries_get_found(es, key@, i as int);
                        }
                        return Some(&entries[i].1);
                    }
                }
                proof {
                    lemma_entries_get_skip(es, key@, es.len() as int);
                }
                None
            },
            _ => None,
        }
    }
}

} // verus!
