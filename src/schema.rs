//! Normalisation of JSON Schema Draft 2020-12 constructs (OpenAPI 3.1) into
//! the OpenAPI 3.0 form: a `type` array becomes one type plus `nullable`.
use vstd::prelude::*;

use crate::json::{Json, JsonV, first_index, keys_of, field_v, view_fields, str_eq, get_field,
    lemma_object_view, lemma_array_view, lemma_first_index_bounds, lemma_first_index_at,
    lemma_first_index_none};

verus! {

/// The index of the first entry of `names` that differs from `k`.
pub open spec fn first_other(names: Seq<Seq<char>>, k: Seq<char>) -> Option<int>
    decreases names.len(),
{
    if names.len() == 0 {
        None
    } else if names[0] != k {
        Some(0)
    } else {
        match first_other(names.drop_first(), k) {
            Some(i) => Some(i + 1),
            None => None,
        }
    }
}

/// What a list of type names becomes: the first name that is not `"null"`,
/// and whether `"null"` was among them. An empty list says nothing.
pub open spec fn type_array_spec(types: Seq<Seq<char>>) -> (Option<Seq<char>>, bool) {
    if types.len() == 0 {
        (None, false)
    } else {
        match first_other(types, "null"@) {
            Some(i) => (Some(types[i]), types.contains("null"@)),
            None => (None, true),
        }
    }
}

pub open spec fn opt_str_view(o: Option<String>) -> Option<Seq<char>> {
    match o {
        Some(s) => Some(s@),
        None => None,
    }
}

proof fn lemma_first_other_step(names: Seq<Seq<char>>, k: Seq<char>, i: int)
    requires
        0 <= i < names.len(),
        forall|j: int| 0 <= j < i ==> names[j] == k,
    ensures
        names[i] != k ==> first_other(names, k) == Some(i),
        names[i] == k && i + 1 == names.len() ==> first_other(names, k) == None::<int>,
    decreases i,
{
    if i > 0 {
        assert forall|j: int| 0 <= j < i - 1 implies names.drop_first()[j] == k by {
            assert(names.drop_first()[j] == names[j + 1]);
        }
        lemma_first_other_step(names.drop_first(), k, i - 1);
        assert(names[0] == k);
    } else {
        if names.len() == 1 {
            assert(names.drop_first().len() == 0);
            assert(first_other(names.drop_first(), k) == None::<int>);
        }
    }
}

/// Turns an OpenAPI 3.1 `type` array into one type and a nullable flag.
pub fn normalize_type_array(types: &[String]) -> (r: (Option<String>, bool))
    ensures
        (opt_str_view(r.0), r.1) == type_array_spec(types@.map_values(|t: String| t@)),
{
    let ghost names = types@.map_values(|t: String| t@);
    if types.len() == 0 {
        return (None, false);
    }
    let mut first: Option<usize> = None;
    let mut has_null = false;
    let mut i: usize = 0;
    while i < types.len()
        invariant
            names == types@.map_values(|t: String| t@),
            names.len() == types@.len(),
            i <= types@.len(),
            has_null == exists|j: int| 0 <= j < i && names[j] == "null"@,
            match first {
                Some(f) => f < i && names[f as int] != "null"@ && forall|j: int|
                    0 <= j < f ==> names[j] == "null"@,
                None => forall|j: int| 0 <= j < i ==> names[j] == "null"@,
            },
        decreases types@.len() - i,
    {
        assert(names[i as int] == types@[i as int]@);
        if str_eq(types[i].as_str(), "null") {
            has_null = true;
        } else if first.is_none() {
            first = Some(i);
        }
        i = i + 1;
    }
    proof {
        if has_null {
            let j = choose|j: int| 0 <= j < i && names[j] == "null"@;
            assert(names[j] == "null"@);
        } else {
            assert forall|j: int| 0 <= j < names.len() implies names[j] != "null"@ by {}
        }
        assert(has_null == names.contains("null"@));
    }
    match first {
        Some(f) => {
            proof {
                lemma_first_other_step(names, "null"@, f as int);
            }
            (Some(types[f].clone()), has_null)
        },
        None => {
            proof {
                lemma_first_other_step(names, "null"@, names.len() - 1);
                assert(names[0] == "null"@);
            }
            (None, true)
        },
    }
}

/// Normalises one type name: `"null"` says only that the value may be null.
pub fn normalize_single_type(type_str: &str, nullable: bool) -> (r: (Option<String>, bool))
    ensures
        type_str@ == "null"@ ==> opt_str_view(r.0) == None::<Seq<char>> && r.1,
        type_str@ != "null"@ ==> opt_str_view(r.0) == Some(type_str@) && r.1 == nullable,
{
    if str_eq(type_str, "null") {
        (None, true)
    } else {
        (Some(type_str.to_string()), nullable)
    }
}

/// Where an OpenAPI parameter is carried in an HTTP request.
#[derive(Debug, Clone, Copy, PartialEq, Eq, Structural)]
pub enum ParameterLocation {
    Query,
    Path,
    Header,
    Cookie,
}

impl ParameterLocation {
    pub open spec fn name_spec(self) -> Seq<char> {
        match self {
            ParameterLocation::Query => "query"@,
            ParameterLocation::Path => "path"@,
            ParameterLocation::Header => "header"@,
            ParameterLocation::Cookie => "cookie"@,
        }
    }

    /// The name of the location as OpenAPI writes it (`in: query`).
    pub fn to_string(&self) -> (r: String)
        ensures
            r@ == self.name_spec(),
    {
        match self {
            ParameterLocation::Query => "query".to_string(),
            ParameterLocation::Path => "path".to_string(),
            ParameterLocation::Header => "header".to_string(),
            ParameterLocation::Cookie => "cookie".to_string(),
        }
    }
}

// ----- schema normalisation -----

pub open spec fn null_name() -> JsonV {
    JsonV::Str("null"@)
}

/// A string entry of a `type` array other than `"null"`.
pub open spec fn is_type_name(x: JsonV) -> bool {
    x is Str && x != null_name()
}

pub open spec fn first_type_name(xs: Seq<JsonV>) -> Option<int>
    decreases xs.len(),
{
    if xs.len() == 0 {
        None
    } else if is_type_name(xs[0]) {
        Some(0)
    } else {
        match first_type_name(xs.drop_first()) {
            Some(i) => Some(i + 1),
            None => None,
        }
    }
}

/// What the value of a `type` member becomes.
pub open spec fn norm_type(v: JsonV) -> JsonV {
    match v {
        JsonV::Array(xs) => match first_type_name(xs) {
            Some(i) => xs[i],
            None => if xs.contains(null_name()) {
                null_name()
            } else {
                v
            },
        },
        _ => v,
    }
}

/// Whether a `type` member lists `"null"` beside a real type.
pub open spec fn type_needs_nullable(v: JsonV) -> bool {
    match v {
        JsonV::Array(xs) => first_type_name(xs) is Some && xs.contains(null_name()),
        _ => false,
    }
}

/// Whether an object schema gains `nullable: true`.
pub open spec fn needs_nullable(fs: Seq<(Seq<char>, JsonV)>) -> bool {
    match field_v(fs, "type"@) {
        Some(v) => type_needs_nullable(v),
        None => false,
    }
}

pub open spec fn is_composition(k: Seq<char>) -> bool {
    k == "anyOf"@ || k == "oneOf"@ || k == "allOf"@
}

pub open spec fn is_sub_schema(k: Seq<char>) -> bool {
    k == "items"@ || k == "not"@ || k == "additionalProperties"@
}

/// The normal form of a schema: every `type` array is replaced as
/// `norm_type` says, `nullable: true` is set where `null` stood beside a
/// type, and the same is done inside `properties`, `items`,
/// `additionalProperties`, `not` and each branch of `anyOf`, `oneOf` and
/// `allOf`. Every other member is kept as it is, in its place.
pub open spec fn norm_schema(j: JsonV) -> JsonV
    decreases j, 0int,
{
    match j {
        JsonV::Object(fs) => {
            let nl = needs_nullable(fs);
            let mapped = Seq::new(
                fs.len(),
                |i: int|
                    if 0 <= i < fs.len() {
                        if nl && fs[i].0 == "nullable"@ {
                            (fs[i].0, JsonV::Bool(true))
                        } else {
                            (fs[i].0, norm_member(fs[i].0, fs[i].1))
                        }
                    } else {
                        (Seq::empty(), JsonV::Null)
                    },
            );
            if nl && !keys_of(fs).contains("nullable"@) {
                JsonV::Object(mapped.push(("nullable"@, JsonV::Bool(true))))
            } else {
                JsonV::Object(mapped)
            }
        },
        _ => j,
    }
}

/// What the member `k` of an object schema becomes.
pub open spec fn norm_member(k: Seq<char>, v: JsonV) -> JsonV
    decreases v, 1int,
{
    if k == "type"@ {
        norm_type(v)
    } else if is_sub_schema(k) {
        norm_schema(v)
    } else if k == "properties"@ {
        match v {
            JsonV::Object(ps) => JsonV::Object(
                Seq::new(
                    ps.len(),
                    |i: int|
                        if 0 <= i < ps.len() {
                            (ps[i].0, norm_schema(ps[i].1))
                        } else {
                            (Seq::empty(), JsonV::Null)
                        },
                ),
            ),
            _ => v,
        }
    } else if is_composition(k) {
        match v {
            JsonV::Array(xs) => JsonV::Array(
                Seq::new(
                    xs.len(),
                    |i: int|
                        if 0 <= i < xs.len() {
                            norm_schema(xs[i])
                        } else {
                            JsonV::Null
                        },
                ),
            ),
            _ => v,
        }
    } else {
        v
    }
}

pub open spec fn view_items(xs: Seq<Json>) -> Seq<JsonV> {
    xs.map_values(|x: Json| x@)
}

proof fn lemma_first_type_name_step(xs: Seq<JsonV>, i: int)
    requires
        0 <= i <= xs.len(),
        forall|j: int| 0 <= j < i ==> !is_type_name(xs[j]),
    ensures
        i < xs.len() && is_type_name(xs[i]) ==> first_type_name(xs) == Some(i),
        i == xs.len() ==> first_type_name(xs) == None::<int>,
    decreases i,
{
    if i > 0 {
        assert forall|j: int| 0 <= j < i - 1 implies !is_type_name(xs.drop_first()[j]) by {
            assert(xs.drop_first()[j] == xs[j + 1]);
        }
        lemma_first_type_name_step(xs.drop_first(), i - 1);
        assert(!is_type_name(xs[0]));
    } else if xs.len() == 0 {
        assert(first_type_name(xs) == None::<int>);
    }
}

/// Where the first real type name of a `type` array stands, and whether
/// `"null"` is among its entries.
fn scan_type_array(xs: &Vec<Json>) -> (r: (Option<usize>, bool))
    ensures
        match r.0 {
            Some(i) => i < xs@.len() && first_type_name(view_items(xs@)) == Some(i as int),
            None => first_type_name(view_items(xs@)) == None::<int>,
        },
        r.1 == view_items(xs@).contains(null_name()),
{
    let ghost vs = view_items(xs@);
    let mut first: Option<usize> = None;
    let mut has_null = false;
    let mut i: usize = 0;
    while i < xs.len()
        invariant
            vs == view_items(xs@),
            vs.len() == xs@.len(),
            i <= xs@.len(),
            has_null == exists|j: int| 0 <= j < i && vs[j] == null_name(),
            match first {
                Some(f) => f < i && is_type_name(vs[f as int]) && forall|j: int|
                    0 <= j < f ==> !is_type_name(vs[j]),
                None => forall|j: int| 0 <= j < i ==> !is_type_name(vs[j]),
            },
        decreases xs@.len() - i,
    {
        assert(vs[i as int] == xs@[i as int]@);
        match &xs[i] {
            Json::Str(s) => {
                if str_eq(s.as_str(), "null") {
                    has_null = true;
                } else if first.is_none() {
                    first = Some(i);
                }
            },
            _ => {},
        }
        i = i + 1;
    }
    proof {
        match first {
            Some(f) => lemma_first_type_name_step(vs, f as int),
            None => lemma_first_type_name_step(vs, vs.len() as int),
        }
        if has_null {
            let j = choose|j: int| 0 <= j < i && vs[j] == null_name();
            assert(vs[j] == null_name());
        }
    }
    (first, has_null)
}

/// The normal form of the value of a `type` member.
fn normalize_type_value(v: &Json) -> (r: Json)
    ensures
        r@ == norm_type(v@),
{
    match v {
        Json::Array(xs) => {
            proof {
                lemma_array_view(*xs);
            }
            let (first, has_null) = scan_type_array(xs);
            match first {
                Some(i) => {
                    assert(view_items(xs@)[i as int] == xs@[i as int]@);
                    xs[i].deep_clone()
                },
                None => {
                    if has_null {
                        Json::Str("null".to_string())
                    } else {
                        v.deep_clone()
                    }
                },
            }
        },
        _ => v.deep_clone(),
    }
}

/// Whether an object schema's `type` member lists `"null"` beside a type.
fn object_needs_nullable(fields: &Vec<(String, Json)>) -> (r: bool)
    ensures
        r == needs_nullable(view_fields(fields@)),
{
    match get_field(fields, "type") {
        Some(v) => match v {
            Json::Array(xs) => {
                proof {
                    lemma_array_view(*xs);
                }
                let (first, has_null) = scan_type_array(xs);
                first.is_some() && has_null
            },
            _ => false,
        },
        None => false,
    }
}

/// Brings a schema into the OpenAPI 3.0 form, as `norm_schema` describes.
#[verifier::loop_isolation(false)]
pub fn normalize_schema(j: &Json) -> (r: Json)
    ensures
        r@ == norm_schema(j@),
    decreases j, 0int,
{
    match j {
        Json::Object(fields) => {
            proof {
                lemma_object_view(*fields);
            }
            let ghost fs = view_fields(fields@);
            let nl = object_needs_nullable(fields);
            let mut out: Vec<(String, Json)> = Vec::new();
            let mut saw = false;
            let mut i: usize = 0;
            while i < fields.len()
                invariant
                    fs == view_fields(fields@),
                    fs.len() == fields@.len(),
                    i <= fields@.len(),
                    out@.len() == i,
                    saw == exists|k: int| 0 <= k < i && fs[k].0 == "nullable"@,
                    forall|k: int|
                        0 <= k < i ==> #[trigger] view_fields(out@)[k] == (if nl && fs[k].0
                            == "nullable"@ {
                            (fs[k].0, JsonV::Bool(true))
                        } else {
                            (fs[k].0, norm_member(fs[k].0, fs[k].1))
                        }),
                decreases fields@.len() - i,
            {
                proof {
                    vstd::std_specs::vec::axiom_vec_index_decreases(*fields, i as int);
                    assert(decreases_to!(*fields => fields@[i as int]));
                }
                assert(fs[i as int] == (fields@[i as int].0@, fields@[i as int].1@));
                let key = &fields[i].0;
                let is_nullable_key = str_eq(key.as_str(), "nullable");
                let val = if nl && is_nullable_key {
                    Json::Bool(true)
                } else {
                    normalize_member(key.as_str(), &fields[i].1)
                };
                if is_nullable_key {
                    saw = true;
                }
                let ghost before = out@;
                out.push((key.clone(), val));
                proof {
                    assert forall|k: int| 0 <= k < i + 1 implies #[trigger] view_fields(out@)[k]
                        == (if nl && fs[k].0 == "nullable"@ {
                        (fs[k].0, JsonV::Bool(true))
                    } else {
                        (fs[k].0, norm_member(fs[k].0, fs[k].1))
                    }) by {
                        if k < i {
                            assert(out@[k] == before[k]);
                            assert(view_fields(before)[k] == view_fields(out@)[k]);
                        }
                    }
                }
                i = i + 1;
            }
            proof {
                if saw {
                    let k = choose|k: int| 0 <= k < i && fs[k].0 == "nullable"@;
                    assert(keys_of(fs)[k] == "nullable"@);
                } else {
                    assert forall|k: int| 0 <= k < keys_of(fs).len() implies keys_of(fs)[k]
                        != "nullable"@ by {
                        assert(keys_of(fs)[k] == fs[k].0);
                    }
                }
                assert(saw == keys_of(fs).contains("nullable"@));
            }
            let ghost body = out@;
            if nl && !saw {
                out.push(("nullable".to_string(), Json::Bool(true)));
            }
            proof {
                lemma_object_view(out);
                if let JsonV::Object(res) = norm_schema(j@) {
                    if nl && !saw {
                        assert(res.len() == i + 1);
                        assert forall|k: int| 0 <= k < i implies res[k] == view_fields(out@)[k] by {
                            assert(out@[k] == body[k]);
                            assert(view_fields(body)[k] == view_fields(out@)[k]);
                        }
                        assert(res[i as int] == ("nullable"@, JsonV::Bool(true)));
                        assert(view_fields(out@)[i as int] == ("nullable"@, JsonV::Bool(true)));
                    }
                    assert(res =~= view_fields(out@));
                }
            }
            Json::Object(out)
        },
        _ => j.deep_clone(),
    }
}

/// The normal form of the member `k` of an object schema.
#[verifier::loop_isolation(false)]
fn normalize_member(k: &str, v: &Json) -> (r: Json)
    ensures
        r@ == norm_member(k@, v@),
    decreases v, 1int,
{
    proof {
        reveal_strlit("type");
        reveal_strlit("items");
        reveal_strlit("not");
        reveal_strlit("additionalProperties");
        reveal_strlit("properties");
        reveal_strlit("anyOf");
        reveal_strlit("oneOf");
        reveal_strlit("allOf");
    }
    if str_eq(k, "type") {
        normalize_type_value(v)
    } else if str_eq(k, "items") || str_eq(k, "not") || str_eq(k, "additionalProperties") {
        normalize_schema(v)
    } else if str_eq(k, "properties") {
        match v {
            Json::Object(ps) => {
                proof {
                    lemma_object_view(*ps);
                }
                let ghost pv = view_fields(ps@);
                let mut out: Vec<(String, Json)> = Vec::new();
                let mut i: usize = 0;
                while i < ps.len()
                    invariant
                        pv == view_fields(ps@),
                        pv.len() == ps@.len(),
                        i <= ps@.len(),
                        out@.len() == i,
                        forall|m: int|
                            0 <= m < i ==> #[trigger] view_fields(out@)[m] == (pv[m].0, norm_schema(
                                pv[m].1,
                            )),
                    decreases ps@.len() - i,
                {
                    proof {
                        vstd::std_specs::vec::axiom_vec_index_decreases(*ps, i as int);
                        assert(decreases_to!(*ps => ps@[i as int]));
                    }
                    let c = normalize_schema(&ps[i].1);
                    let ghost before = out@;
                    out.push((ps[i].0.clone(), c));
                    proof {
                        assert forall|m: int| 0 <= m < i + 1 implies #[trigger] view_fields(out@)[m]
                            == (pv[m].0, norm_schema(pv[m].1)) by {
                            if m < i {
                                assert(out@[m] == before[m]);
                                assert(view_fields(before)[m] == view_fields(out@)[m]);
                            }
                        }
                    }
                    i = i + 1;
                }
                proof {
                    lemma_object_view(out);
                    if let JsonV::Object(res) = norm_member(k@, v@) {
                        assert(res =~= view_fields(out@));
                    }
                }
                Json::Object(out)
            },
            _ => v.deep_clone(),
        }
    } else if str_eq(k, "anyOf") || str_eq(k, "oneOf") || str_eq(k, "allOf") {
        match v {
            Json::Array(xs) => {
                proof {
                    lemma_array_view(*xs);
                }
                let ghost xv = view_items(xs@);
                let mut out: Vec<Json> = Vec::new();
                let mut i: usize = 0;
                while i < xs.len()
                    invariant
                        xv == view_items(xs@),
                        xv.len() == xs@.len(),
                        i <= xs@.len(),
                        out@.len() == i,
                        forall|m: int| 0 <= m < i ==> (#[trigger] out@[m])@ == norm_schema(xv[m]),
                    decreases xs@.len() - i,
                {
                    proof {
                        vstd::std_specs::vec::axiom_vec_index_decreases(*xs, i as int);
                    }
                    let c = normalize_schema(&xs[i]);
                    out.push(c);
                    i = i + 1;
                }
                proof {
                    lemma_array_view(out);
                    if let JsonV::Array(res) = norm_member(k@, v@) {
                        assert(res =~= view_items(out@));
                    }
                }
                Json::Array(out)
            },
            _ => v.deep_clone(),
        }
    } else {
        v.deep_clone()
    }
}

// ----- normalisation is a fixed point -----

proof fn lemma_norm_type_idempotent(v: JsonV)
    ensures
        norm_type(norm_type(v)) == norm_type(v),
        !type_needs_nullable(norm_type(v)),
{
    match v {
        JsonV::Array(xs) => {
            match first_type_name(xs) {
                Some(i) => {
                    lemma_first_type_name_in_range(xs);
                },
                None => {},
            }
        },
        _ => {},
    }
}

proof fn lemma_first_type_name_in_range(xs: Seq<JsonV>)
    ensures
        first_type_name(xs) matches Some(i) ==> 0 <= i < xs.len() && is_type_name(xs[i]),
    decreases xs.len(),
{
    if xs.len() > 0 && !is_type_name(xs[0]) {
        lemma_first_type_name_in_range(xs.drop_first());
    }
}

/// The keys of a normalised object are those of the input, with
/// `nullable` added at the end where it was set and missing.
proof fn lemma_type_key_kept(fs: Seq<(Seq<char>, JsonV)>, gs: Seq<(Seq<char>, JsonV)>, pushed: bool)
    requires
        pushed ==> gs.len() == fs.len() + 1 && gs[fs.len() as int].0 == "nullable"@,
        !pushed ==> gs.len() == fs.len(),
        forall|i: int| 0 <= i < fs.len() ==> #[trigger] gs[i].0 == fs[i].0,
    ensures
        first_index(keys_of(gs), "type"@) == first_index(keys_of(fs), "type"@),
{
    reveal_strlit("type");
    reveal_strlit("nullable");
    let kf = keys_of(fs);
    let kg = keys_of(gs);
    lemma_first_index_bounds(kf, "type"@);
    match first_index(kf, "type"@) {
        Some(i) => {
            assert forall|j: int| 0 <= j < i implies kg[j] != "type"@ by {
                assert(kg[j] == kf[j]);
            }
            assert(kg[i] == kf[i]);
            lemma_first_index_at(kg, "type"@, i);
        },
        None => {
            assert forall|j: int| 0 <= j < kg.len() implies kg[j] != "type"@ by {
                assert(kg[j] == gs[j].0);
                if j < fs.len() {
                    assert(kg[j] == kf[j]);
                } else {
                    assert(gs[j].0 == "nullable"@);
                    assert("nullable"@.len() != "type"@.len());
                }
            }
            lemma_first_index_none(kg, "type"@);
        },
    }
}

/// A schema whose `type` is `[T, "null"]` comes out with `type: T` and
/// `nullable: true`.
pub proof fn lemma_nullable_pair(fs: Seq<(Seq<char>, JsonV)>, t: Seq<char>)
    requires
        field_v(fs, "type"@) == Some(JsonV::Array(seq![JsonV::Str(t), null_name()])),
        t != "null"@,
    ensures
        crate::json::member_v(norm_schema(JsonV::Object(fs)), "type"@) == Some(JsonV::Str(t)),
        crate::json::member_v(norm_schema(JsonV::Object(fs)), "nullable"@) == Some(JsonV::Bool(true)),
{
    reveal_strlit("type");
    reveal_strlit("nullable");
    let xs = seq![JsonV::Str(t), null_name()];
    assert(is_type_name(xs[0]));
    assert(first_type_name(xs) == Some(0int));
    assert(xs[1] == null_name());
    assert(xs.contains(null_name()));
    assert(needs_nullable(fs));
    let gs = match norm_schema(JsonV::Object(fs)) {
        JsonV::Object(gs) => gs,
        _ => Seq::empty(),
    };
    let kf = keys_of(fs);
    let kg = keys_of(gs);
    let pushed = !kf.contains("nullable"@);
    assert forall|i: int| 0 <= i < fs.len() implies #[trigger] gs[i].0 == fs[i].0 by {}
    if pushed {
        assert(gs[fs.len() as int].0 == "nullable"@);
    }
    lemma_type_key_kept(fs, gs, pushed);
    lemma_first_index_bounds(kf, "type"@);
    let ti = first_index(kf, "type"@).unwrap();
    assert(kf[ti] == fs[ti].0);
    assert(fs[ti].1 == JsonV::Array(xs));
    assert(gs[ti] == (fs[ti].0, norm_member(fs[ti].0, fs[ti].1)));
    assert(kg[ti] == gs[ti].0);
    lemma_first_index_bounds(kf, "nullable"@);
    match first_index(kf, "nullable"@) {
        Some(j) => {
            assert(kf[j] == fs[j].0);
            assert(gs[j] == ("nullable"@, JsonV::Bool(true)));
            assert forall|m: int| 0 <= m < j implies kg[m] != "nullable"@ by {
                assert(kg[m] == kf[m]);
            }
            assert(kg[j] == gs[j].0);
            lemma_first_index_at(kg, "nullable"@, j);
        },
        None => {
            assert(pushed) by {
                if kf.contains("nullable"@) {
                    let w = choose|w: int| 0 <= w < kf.len() && kf[w] == "nullable"@;
                }
            }
            let n = fs.len() as int;
            assert(gs[n] == ("nullable"@, JsonV::Bool(true)));
            assert forall|m: int| 0 <= m < n implies kg[m] != "nullable"@ by {
                assert(kg[m] == kf[m]);
            }
            assert(kg[n] == gs[n].0);
            lemma_first_index_at(kg, "nullable"@, n);
        },
    }
}

/// Normalising a normalised schema changes nothing: a `type: [T, "null"]`
/// that became `type: T, nullable: true` stays so when normalised again.
pub proof fn lemma_norm_idempotent(j: JsonV)
    ensures
        norm_schema(norm_schema(j)) == norm_schema(j),
    decreases j, 0int,
{
    match j {
        JsonV::Object(fs) => {
            reveal_strlit("nullable");
            reveal_strlit("type");
            reveal_strlit("items");
            reveal_strlit("not");
            reveal_strlit("additionalProperties");
            reveal_strlit("properties");
            reveal_strlit("anyOf");
            reveal_strlit("oneOf");
            reveal_strlit("allOf");
            let nl = needs_nullable(fs);
            let gs = match norm_schema(j) {
                JsonV::Object(gs) => gs,
                _ => Seq::empty(),
            };
            let pushed = nl && !keys_of(fs).contains("nullable"@);
            assert forall|i: int| 0 <= i < fs.len() implies #[trigger] gs[i].0 == fs[i].0 by {}
            lemma_type_key_kept(fs, gs, pushed);
            // the normalised object needs no `nullable` of its own
            lemma_first_index_bounds(keys_of(fs), "type"@);
            match first_index(keys_of(fs), "type"@) {
                Some(t) => {
                    assert(keys_of(fs)[t] == fs[t].0);
                    assert(gs[t] == (fs[t].0, norm_member(fs[t].0, fs[t].1)));
                    lemma_norm_type_idempotent(fs[t].1);
                },
                None => {},
            }
            assert(!needs_nullable(gs));
            // each member is a fixed point
            assert forall|i: int| 0 <= i < fs.len() implies #[trigger] norm_member(gs[i].0, gs[i].1) == gs[i].1 by {
                if nl && fs[i].0 == "nullable"@ {
                } else {
                    lemma_member_idempotent(fs[i].0, fs[i].1);
                }
            }
            if let JsonV::Object(hs) = norm_schema(norm_schema(j)) {
                if pushed {
                    assert(gs[fs.len() as int] == ("nullable"@, JsonV::Bool(true)));
                    assert(norm_member(gs[fs.len() as int].0, gs[fs.len() as int].1) == gs[fs.len() as int].1);
                }
                assert(hs.len() == gs.len());
                assert forall|i: int| 0 <= i < gs.len() implies hs[i] == gs[i] by {
                    assert(hs[i] == (gs[i].0, norm_member(gs[i].0, gs[i].1)));
                    if i < fs.len() {
                        assert(norm_member(gs[i].0, gs[i].1) == gs[i].1);
                    }
                }
                assert(hs =~= gs);
            }
        },
        _ => {},
    }
}

proof fn lemma_member_idempotent(k: Seq<char>, v: JsonV)
    ensures
        norm_member(k, norm_member(k, v)) == norm_member(k, v),
    decreases v, 1int,
{
    if k == "type"@ {
        lemma_norm_type_idempotent(v);
    } else if is_sub_schema(k) {
        lemma_norm_idempotent(v);
    } else if k == "properties"@ {
        match v {
            JsonV::Object(ps) => {
                if let JsonV::Object(once) = norm_member(k, v) {
                    assert forall|i: int| 0 <= i < ps.len() implies norm_schema(#[trigger] once[i].1) == once[i].1 by {
                        lemma_norm_idempotent(ps[i].1);
                    }
                    if let JsonV::Object(twice) = norm_member(k, norm_member(k, v)) {
                        assert(twice =~= once);
                    }
                }
            },
            _ => {},
        }
    } else if is_composition(k) {
        match v {
            JsonV::Array(xs) => {
                if let JsonV::Array(once_xs) = norm_member(k, v) {
                    assert forall|i: int| 0 <= i < xs.len() implies norm_schema(#[trigger] once_xs[i]) == once_xs[i] by {
                        lemma_norm_idempotent(xs[i]);
                    }
                    if let JsonV::Array(twice_xs) = norm_member(k, norm_member(k, v)) {
                        assert(twice_xs =~= once_xs);
                    }
                }
            },
            _ => {},
        }
    }
}

} // verus!
