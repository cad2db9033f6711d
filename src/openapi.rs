//! Synthesis of MCP tools from an OpenAPI 3.0 or 3.1 document, read as JSON.
use vstd::prelude::*;

use crate::json::{Json, JsonV, member_v, get_member, str_eq, view_fields, lemma_object_view,
    lemma_array_view};
use crate::text::concat;
use crate::json::{capped, size_v, node_count};
use crate::call::UpstreamOpenAPICall;
use crate::schema::{ParameterLocation, norm_schema, normalize_schema};

verus! {

/// Why a document could not be turned into tools.
#[derive(Debug)]
pub enum ParseError {
    MissingFields,
    MissingSchema,
    MissingComponents,
    InvalidReference(String),
    MissingReference(String),
    UnsupportedReference(String),
    InformationRequired(String),
    SerdeError(String),
}

/// The kinds of `ParseError`, without their texts.
#[derive(Debug, Clone, Copy, PartialEq, Eq, Structural)]
pub enum ErrorKind {
    MissingFields,
    MissingSchema,
    MissingComponents,
    InvalidReference,
    MissingReference,
    UnsupportedReference,
    InformationRequired,
    SerdeError,
}

impl ParseError {
    pub open spec fn kind_spec(&self) -> ErrorKind {
        match self {
            ParseError::MissingFields => ErrorKind::MissingFields,
            ParseError::MissingSchema => ErrorKind::MissingSchema,
            ParseError::MissingComponents => ErrorKind::MissingComponents,
            ParseError::InvalidReference(_) => ErrorKind::InvalidReference,
            ParseError::MissingReference(_) => ErrorKind::MissingReference,
            ParseError::UnsupportedReference(_) => ErrorKind::UnsupportedReference,
            ParseError::InformationRequired(_) => ErrorKind::InformationRequired,
            ParseError::SerdeError(_) => ErrorKind::SerdeError,
        }
    }

    /// The kind of the error.
    pub fn kind(&self) -> (r: ErrorKind)
        ensures
            r == self.kind_spec(),
    {
        match self {
            ParseError::MissingFields => ErrorKind::MissingFields,
            ParseError::MissingSchema => ErrorKind::MissingSchema,
            ParseError::MissingComponents => ErrorKind::MissingComponents,
            ParseError::InvalidReference(_) => ErrorKind::InvalidReference,
            ParseError::MissingReference(_) => ErrorKind::MissingReference,
            ParseError::UnsupportedReference(_) => ErrorKind::UnsupportedReference,
            ParseError::InformationRequired(_) => ErrorKind::InformationRequired,
            ParseError::SerdeError(_) => ErrorKind::SerdeError,
        }
    }
}

impl ParseError {
    pub open spec fn message_spec(&self) -> Seq<char> {
        match self {
            ParseError::MissingFields => "missing fields"@,
            ParseError::MissingSchema => "missing schema"@,
            ParseError::MissingComponents => "missing components"@,
            ParseError::InvalidReference(s) => "invalid reference: "@ + s@,
            ParseError::MissingReference(s) => "missing reference: "@ + s@,
            ParseError::UnsupportedReference(s) => "unsupported reference: "@ + s@,
            ParseError::InformationRequired(s) => "information required: "@ + s@,
            ParseError::SerdeError(s) => "serde error: "@ + s@,
        }
    }

    /// The error as a message.
    pub fn to_string(&self) -> (r: String)
        ensures
            r@ == self.message_spec(),
    {
        match self {
            ParseError::MissingFields => "missing fields".to_string(),
            ParseError::MissingSchema => "missing schema".to_string(),
            ParseError::MissingComponents => "missing components".to_string(),
            ParseError::InvalidReference(s) => concat("invalid reference: ", s.as_str()),
            ParseError::MissingReference(s) => concat("missing reference: ", s.as_str()),
            ParseError::UnsupportedReference(s) => concat("unsupported reference: ", s.as_str()),
            ParseError::InformationRequired(s) => concat("information required: ", s.as_str()),
            ParseError::SerdeError(s) => concat("serde error: ", s.as_str()),
        }
    }
}

/// The outcome of a step, up to the texts of errors.
pub open spec fn outcome<T>(r: Result<T, ParseError>) -> Result<T, ErrorKind> {
    match r {
        Ok(v) => Ok(v),
        Err(e) => Err(e.kind_spec()),
    }
}

pub open spec fn json_outcome(r: Result<Json, ParseError>) -> Result<JsonV, ErrorKind> {
    match r {
        Ok(v) => Ok(v@),
        Err(e) => Err(e.kind_spec()),
    }
}

// ----- server prefix -----

/// The `servers` of a document; none where the member is absent.
pub open spec fn servers_of(doc: JsonV) -> Seq<JsonV> {
    match member_v(doc, "servers"@) {
        Some(JsonV::Array(xs)) => xs,
        _ => Seq::empty(),
    }
}

/// The prefix of every upstream path: `/` without servers, the URL of the
/// only server, and an error for more than one.
pub open spec fn server_prefix_spec(doc: JsonV) -> Result<Seq<char>, ErrorKind> {
    let xs = servers_of(doc);
    if xs.len() == 0 {
        Ok("/"@)
    } else if xs.len() == 1 {
        match member_v(xs[0], "url"@) {
            Some(JsonV::Str(u)) => Ok(u),
            _ => Err(ErrorKind::MissingFields),
        }
    } else {
        Err(ErrorKind::UnsupportedReference)
    }
}

fn servers<'a>(doc: &'a Json) -> (r: Option<&'a Vec<Json>>)
    ensures
        match r {
            Some(xs) => servers_of(doc@) == xs@.map_values(|x: Json| x@),
            None => servers_of(doc@) == Seq::<JsonV>::empty(),
        },
{
    match get_member(doc, "servers") {
        Some(Json::Array(xs)) => {
            proof {
                lemma_array_view(*xs);
            }
            Some(xs)
        },
        _ => None,
    }
}

/// The server prefix of a document.
pub fn get_server_prefix(doc: &Json) -> (r: Result<String, ParseError>)
    ensures
        match r {
            Ok(s) => server_prefix_spec(doc@) == Ok::<Seq<char>, ErrorKind>(s@),
            Err(e) => server_prefix_spec(doc@) == Err::<Seq<char>, ErrorKind>(e.kind_spec()),
        },
{
    let n: usize = match servers(doc) {
        Some(xs) => xs.len(),
        None => 0,
    };
    if n == 0 {
        return Ok("/".to_string());
    }
    let xs = match servers(doc) {
        Some(xs) => xs,
        None => {
            return Ok("/".to_string());
        },
    };
    if n == 1 {
        assert(servers_of(doc@)[0] == xs@[0]@);
        match get_member(&xs[0], "url") {
            Some(Json::Str(u)) => Ok(u.clone()),
            _ => Err(ParseError::MissingFields),
        }
    } else {
        Err(ParseError::UnsupportedReference("multiple servers are not supported".to_string()))
    }
}

// ----- references -----

/// How far references are followed, and how deep schemas are resolved:
/// the number of values in the document (up to `SIZE_CAP`). A document
/// whose references form no cycle never reaches it, since a chain of
/// references, or a path of nested schemas, meets each value of the
/// document at most once; a cycle still ends.
pub open spec fn doc_fuel(doc: JsonV) -> nat {
    capped(size_v(doc))
}

/// The bound `doc_fuel` for a document.
pub fn document_fuel(doc: &Json) -> (r: usize)
    ensures
        r as nat == doc_fuel(doc@),
{
    let n = node_count(doc);
    n as usize
}

/// The prefix of a reference into a section of `components`.
pub open spec fn ref_prefix(section: Seq<char>) -> Seq<char> {
    "#/components/"@ + section + "/"@
}

/// The error for a reference outside its section: schemas call it invalid,
/// parameters and request bodies missing.
pub open spec fn foreign_ref_kind(section: Seq<char>) -> ErrorKind {
    if section == "schemas"@ {
        ErrorKind::InvalidReference
    } else {
        ErrorKind::MissingReference
    }
}

/// What `j` stands for in `section`: itself where it is no reference, else
/// the named component, followed until it is no reference.
pub open spec fn resolve_spec(doc: JsonV, section: Seq<char>, j: JsonV, fuel: nat) -> Result<JsonV, ErrorKind>
    decreases fuel,
{
    match member_v(j, "$ref"@) {
        None => Ok(j),
        Some(JsonV::Str(r)) => {
            let p = ref_prefix(section);
            if fuel == 0 {
                Err(ErrorKind::InvalidReference)
            } else if !(p.len() <= r.len() && r.subrange(0, p.len() as int) == p) {
                Err(foreign_ref_kind(section))
            } else {
                let name = r.subrange(p.len() as int, r.len() as int);
                match member_v(doc, "components"@) {
                    None => Err(ErrorKind::MissingComponents),
                    Some(c) => match member_v(c, section) {
                        None => Err(ErrorKind::MissingReference),
                        Some(sec) => match member_v(sec, name) {
                            None => Err(ErrorKind::MissingReference),
                            Some(t) => resolve_spec(doc, section, t, (fuel - 1) as nat),
                        },
                    },
                }
            }
        },
        Some(_) => Err(ErrorKind::InvalidReference),
    }
}

fn starts_with(s: &str, p: &str) -> (r: bool)
    ensures
        r == (p@.len() <= s@.len() && s@.subrange(0, p@.len() as int) == p@),
{
    let n = s.unicode_len();
    let m = p.unicode_len();
    if m > n {
        return false;
    }
    let head = s.substring_char(0, m);
    str_eq(head, p)
}

/// Follows the references from `j` within `section` of the document.
pub fn resolve(doc: &Json, section: &str, j: &Json, fuel: usize) -> (r: Result<Json, ParseError>)
    ensures
        json_outcome(r) == resolve_spec(doc@, section@, j@, fuel as nat),
    decreases fuel,
{
    match get_member(j, "$ref") {
        None => Ok(j.deep_clone()),
        Some(Json::Str(r)) => {
            let head = concat("#/components/", section);
            let p = concat(head.as_str(), "/");
            proof {
                reveal_strlit("#/components/");
                reveal_strlit("/");
                reveal_strlit("schemas");
            }
            if fuel == 0 {
                return Err(ParseError::InvalidReference(r.clone()));
            }
            if !starts_with(r.as_str(), p.as_str()) {
                if str_eq(section, "schemas") {
                    return Err(ParseError::InvalidReference(r.clone()));
                } else {
                    return Err(ParseError::MissingReference(r.clone()));
                }
            }
            let name = r.as_str().substring_char(p.unicode_len(), r.unicode_len());
            match get_member(doc, "components") {
                None => Err(ParseError::MissingComponents),
                Some(c) => match get_member(c, section) {
                    None => Err(ParseError::MissingReference(name.to_string())),
                    Some(sec) => match get_member(sec, name) {
                        None => Err(ParseError::MissingReference(name.to_string())),
                        Some(t) => resolve(doc, section, t, fuel - 1),
                    },
                },
            }
        },
        Some(_) => Err(ParseError::InvalidReference("$ref".to_string())),
    }
}

// ----- nested resolution -----


pub open spec fn fields_outcome(r: Result<Vec<(String, Json)>, ParseError>) -> Result<Seq<(Seq<char>, JsonV)>, ErrorKind> {
    match r {
        Ok(v) => Ok(view_fields(v@)),
        Err(e) => Err(e.kind_spec()),
    }
}

pub open spec fn items_outcome(r: Result<Vec<Json>, ParseError>) -> Result<Seq<JsonV>, ErrorKind> {
    match r {
        Ok(v) => Ok(v@.map_values(|x: Json| x@)),
        Err(e) => Err(e.kind_spec()),
    }
}

/// A schema with every reference inlined, at most `d` levels deep: the
/// schema itself is resolved, then its `properties`, `items`, `not`, and
/// each branch of `oneOf`, `allOf` and `anyOf`. The first failure in
/// document order is the result.
pub open spec fn nested_spec(doc: JsonV, j: JsonV, d: nat) -> Result<JsonV, ErrorKind>
    decreases d, 0nat, 0nat, 0nat,
{
    if d == 0 {
        Err(ErrorKind::InvalidReference)
    } else {
        match resolve_spec(doc, "schemas"@, j, d) {
            Err(e) => Err(e),
            Ok(base) => match base {
                JsonV::Object(fs) => match nested_fields(doc, fs, (d - 1) as nat) {
                    Ok(gs) => Ok(JsonV::Object(gs)),
                    Err(e) => Err(e),
                },
                _ => Ok(base),
            },
        }
    }
}

pub open spec fn is_branch_list(k: Seq<char>) -> bool {
    k == "oneOf"@ || k == "allOf"@ || k == "anyOf"@
}

/// The fields of an object schema, each nested member resolved.
pub open spec fn nested_fields(doc: JsonV, fs: Seq<(Seq<char>, JsonV)>, d: nat) -> Result<
    Seq<(Seq<char>, JsonV)>,
    ErrorKind,
>
    decreases d, 1nat, fs.len(), 0nat,
{
    if fs.len() == 0 {
        Ok(Seq::empty())
    } else {
        let k = fs[0].0;
        let v = fs[0].1;
        let head: Result<JsonV, ErrorKind> = if k == "properties"@ {
            match v {
                JsonV::Object(ps) => match nested_props(doc, ps, d) {
                    Ok(qs) => Ok(JsonV::Object(qs)),
                    Err(e) => Err(e),
                },
                _ => Ok(v),
            }
        } else if k == "items"@ || k == "not"@ {
            nested_spec(doc, v, d)
        } else if is_branch_list(k) {
            match v {
                JsonV::Array(xs) => match nested_list(doc, xs, d) {
                    Ok(ys) => Ok(JsonV::Array(ys)),
                    Err(e) => Err(e),
                },
                _ => Ok(v),
            }
        } else {
            Ok(v)
        };
        match head {
            Err(e) => Err(e),
            Ok(h) => match nested_fields(doc, fs.drop_first(), d) {
                Err(e) => Err(e),
                Ok(rest) => Ok(seq![(k, h)] + rest),
            },
        }
    }
}

/// Each property schema resolved.
pub open spec fn nested_props(doc: JsonV, ps: Seq<(Seq<char>, JsonV)>, d: nat) -> Result<
    Seq<(Seq<char>, JsonV)>,
    ErrorKind,
>
    decreases d, 0nat, 1nat, ps.len(),
{
    if ps.len() == 0 {
        Ok(Seq::empty())
    } else {
        match nested_spec(doc, ps[0].1, d) {
            Err(e) => Err(e),
            Ok(h) => match nested_props(doc, ps.drop_first(), d) {
                Err(e) => Err(e),
                Ok(rest) => Ok(seq![(ps[0].0, h)] + rest),
            },
        }
    }
}

/// Each branch schema resolved.
pub open spec fn nested_list(doc: JsonV, xs: Seq<JsonV>, d: nat) -> Result<Seq<JsonV>, ErrorKind>
    decreases d, 0nat, 1nat, xs.len(),
{
    if xs.len() == 0 {
        Ok(Seq::empty())
    } else {
        match nested_spec(doc, xs[0], d) {
            Err(e) => Err(e),
            Ok(h) => match nested_list(doc, xs.drop_first(), d) {
                Err(e) => Err(e),
                Ok(rest) => Ok(seq![h] + rest),
            },
        }
    }
}

/// Inlines every reference of a schema, as `nested_spec` describes.
pub fn resolve_nested(doc: &Json, j: &Json, d: usize) -> (r: Result<Json, ParseError>)
    ensures
        json_outcome(r) == nested_spec(doc@, j@, d as nat),
    decreases d, 0nat, 0nat, 0nat,
{
    if d == 0 {
        return Err(ParseError::InvalidReference("schema nesting too deep".to_string()));
    }
    proof {
        reveal_strlit("schemas");
    }
    let base = resolve(doc, "schemas", j, d);
    match base {
        Err(e) => Err(e),
        Ok(b) => match b {
            Json::Object(fs) => {
                proof {
                    lemma_object_view(fs);
                }
                match nested_fields_from(doc, &fs, 0, d - 1) {
                    Ok(gs) => {
                        proof {
                            lemma_object_view(gs);
                            assert(view_fields(fs@).subrange(0, fs@.len() as int) =~= view_fields(fs@));
                        }
                        Ok(Json::Object(gs))
                    },
                    Err(e) => {
                        assert(view_fields(fs@).subrange(0, fs@.len() as int) =~= view_fields(fs@));
                        Err(e)
                    },
                }
            },
            _ => Ok(b),
        },
    }
}

fn nested_fields_from(doc: &Json, fs: &Vec<(String, Json)>, i: usize, d: usize) -> (r: Result<
    Vec<(String, Json)>,
    ParseError,
>)
    requires
        i <= fs@.len(),
    ensures
        fields_outcome(r) == nested_fields(
            doc@,
            view_fields(fs@).subrange(i as int, fs@.len() as int),
            d as nat,
        ),
    decreases d, 1nat, fs@.len() - i, 0nat,
{
    let ghost all = view_fields(fs@).subrange(i as int, fs@.len() as int);
    if i == fs.len() {
        assert(all.len() == 0);
        let e = Vec::new();
        assert(view_fields(e@) =~= Seq::empty());
        return Ok(e);
    }
    proof {
        reveal_strlit("properties");
        reveal_strlit("items");
        reveal_strlit("not");
        reveal_strlit("oneOf");
        reveal_strlit("allOf");
        reveal_strlit("anyOf");
    }
    assert(all[0] == (fs@[i as int].0@, fs@[i as int].1@));
    assert(all.drop_first() =~= view_fields(fs@).subrange(i + 1, fs@.len() as int));
    let k = &fs[i].0;
    let v = &fs[i].1;
    let head: Result<Json, ParseError> = if str_eq(k.as_str(), "properties") {
        match v {
            Json::Object(ps) => {
                proof {
                    lemma_object_view(*ps);
                    assert(view_fields(ps@).subrange(0, ps@.len() as int) =~= view_fields(ps@));
                }
                match nested_props_from(doc, ps, 0, d) {
                    Ok(qs) => {
                        proof {
                            lemma_object_view(qs);
                        }
                        Ok(Json::Object(qs))
                    },
                    Err(e) => Err(e),
                }
            },
            _ => Ok(v.deep_clone()),
        }
    } else if str_eq(k.as_str(), "items") || str_eq(k.as_str(), "not") {
        resolve_nested(doc, v, d)
    } else if str_eq(k.as_str(), "oneOf") || str_eq(k.as_str(), "allOf") || str_eq(
        k.as_str(),
        "anyOf",
    ) {
        match v {
            Json::Array(xs) => {
                proof {
                    lemma_array_view(*xs);
                    assert(xs@.map_values(|x: Json| x@).subrange(0, xs@.len() as int) =~= xs@.map_values(|x: Json| x@));
                }
                match nested_list_from(doc, xs, 0, d) {
                    Ok(ys) => {
                        proof {
                            lemma_array_view(ys);
                        }
                        Ok(Json::Array(ys))
                    },
                    Err(e) => Err(e),
                }
            },
            _ => Ok(v.deep_clone()),
        }
    } else {
        Ok(v.deep_clone())
    };
    match head {
        Err(e) => Err(e),
        Ok(h) => match nested_fields_from(doc, fs, i + 1, d) {
            Err(e) => Err(e),
            Ok(rest) => {
                let ghost rv = view_fields(rest@);
                let mut out = rest;
                out.insert(0, (k.clone(), h));
                assert(view_fields(out@) =~= seq![(k@, h@)] + rv);
                Ok(out)
            },
        },
    }
}

fn nested_props_from(doc: &Json, ps: &Vec<(String, Json)>, i: usize, d: usize) -> (r: Result<
    Vec<(String, Json)>,
    ParseError,
>)
    requires
        i <= ps@.len(),
    ensures
        fields_outcome(r) == nested_props(
            doc@,
            view_fields(ps@).subrange(i as int, ps@.len() as int),
            d as nat,
        ),
    decreases d, 0nat, 1nat, ps@.len() - i,
{
    let ghost all = view_fields(ps@).subrange(i as int, ps@.len() as int);
    if i == ps.len() {
        assert(all.len() == 0);
        let e = Vec::new();
        assert(view_fields(e@) =~= Seq::empty());
        return Ok(e);
    }
    assert(all[0] == (ps@[i as int].0@, ps@[i as int].1@));
    assert(all.drop_first() =~= view_fields(ps@).subrange(i + 1, ps@.len() as int));
    match resolve_nested(doc, &ps[i].1, d) {
        Err(e) => Err(e),
        Ok(h) => match nested_props_from(doc, ps, i + 1, d) {
            Err(e) => Err(e),
            Ok(rest) => {
                let ghost rv = view_fields(rest@);
                let mut out = rest;
                out.insert(0, (ps[i].0.clone(), h));
                assert(view_fields(out@) =~= seq![(ps@[i as int].0@, h@)] + rv);
                Ok(out)
            },
        },
    }
}

fn nested_list_from(doc: &Json, xs: &Vec<Json>, i: usize, d: usize) -> (r: Result<
    Vec<Json>,
    ParseError,
>)
    requires
        i <= xs@.len(),
    ensures
        items_outcome(r) == nested_list(
            doc@,
            xs@.map_values(|x: Json| x@).subrange(i as int, xs@.len() as int),
            d as nat,
        ),
    decreases d, 0nat, 1nat, xs@.len() - i,
{
    let ghost all = xs@.map_values(|x: Json| x@).subrange(i as int, xs@.len() as int);
    if i == xs.len() {
        assert(all.len() == 0);
        let e: Vec<Json> = Vec::new();
        assert(e@.map_values(|x: Json| x@) =~= Seq::empty());
        return Ok(e);
    }
    assert(all[0] == xs@[i as int]@);
    assert(all.drop_first() =~= xs@.map_values(|x: Json| x@).subrange(i + 1, xs@.len() as int));
    match resolve_nested(doc, &xs[i], d) {
        Err(e) => Err(e),
        Ok(h) => match nested_list_from(doc, xs, i + 1, d) {
            Err(e) => Err(e),
            Ok(rest) => {
                let ghost rv = rest@.map_values(|x: Json| x@);
                let mut out = rest;
                out.insert(0, h);
                assert(out@.map_values(|x: Json| x@) =~= seq![out@[0]@] + rv);
                Ok(out)
            },
        },
    }
}

// ----- parameters -----

/// A parameter after resolution, as the tool's input schema uses it.
pub struct ParamV {
    pub loc: ParameterLocation,
    pub name: Seq<char>,
    pub schema: JsonV,
    pub required: bool,
}

/// A parameter after resolution.
pub struct Param {
    pub loc: ParameterLocation,
    pub name: String,
    pub schema: Json,
    pub required: bool,
}

impl View for Param {
    type V = ParamV;

    open spec fn view(&self) -> ParamV {
        ParamV { loc: self.loc, name: self.name@, schema: self.schema@, required: self.required }
    }
}

/// Whether the document declares OpenAPI 3.1.
pub open spec fn is_v31(doc: JsonV) -> bool {
    match member_v(doc, "openapi"@) {
        Some(JsonV::Str(v)) => v.len() >= 3 && v.subrange(0, 3) == "3.1"@,
        _ => false,
    }
}

/// A schema as the tool exposes it: in the 3.0 form for 3.1 documents.
pub open spec fn finish_schema(doc: JsonV, s: JsonV) -> JsonV {
    if is_v31(doc) {
        norm_schema(s)
    } else {
        s
    }
}

pub open spec fn location_of(l: Seq<char>) -> Option<ParameterLocation> {
    if l == "query"@ {
        Some(ParameterLocation::Query)
    } else if l == "header"@ {
        Some(ParameterLocation::Header)
    } else if l == "path"@ {
        Some(ParameterLocation::Path)
    } else {
        None
    }
}

/// `fs` with the member `k` set to `v`: replaced where it is, else added.
pub open spec fn set_member(fs: Seq<(Seq<char>, JsonV)>, k: Seq<char>, v: JsonV) -> Seq<(Seq<char>, JsonV)> {
    match crate::json::first_index(crate::json::keys_of(fs), k) {
        Some(i) => fs.update(i, (k, v)),
        None => fs.push((k, v)),
    }
}

pub open spec fn is_true(v: Option<JsonV>) -> bool {
    v == Some(JsonV::Bool(true))
}

/// One parameter of an operation, resolved: its location (query, header or
/// path; a cookie or any other location is refused), its name, its schema
/// (resolved, which must be an object, with the parameter's description
/// copied in) and whether it is required.
pub open spec fn param_spec(doc: JsonV, p: JsonV) -> Result<ParamV, ErrorKind> {
    match resolve_spec(doc, "parameters"@, p, doc_fuel(doc)) {
        Err(e) => Err(e),
        Ok(q) => match member_v(q, "name"@) {
            Some(JsonV::Str(name)) => match member_v(q, "schema"@) {
                None => Err(ErrorKind::UnsupportedReference),
                Some(s) => match resolve_spec(doc, "schemas"@, s, doc_fuel(doc)) {
                    Err(e) => Err(e),
                    Ok(JsonV::Object(fs)) => {
                        let fs2 = match member_v(q, "description"@) {
                            Some(d) => set_member(fs, "description"@, d),
                            None => fs,
                        };
                        match member_v(q, "in"@) {
                            Some(JsonV::Str(l)) => match location_of(l) {
                                Some(loc) => Ok(
                                    ParamV {
                                        loc,
                                        name,
                                        schema: finish_schema(doc, JsonV::Object(fs2)),
                                        required: is_true(member_v(q, "required"@)),
                                    },
                                ),
                                None => Err(ErrorKind::UnsupportedReference),
                            },
                            _ => Err(ErrorKind::UnsupportedReference),
                        }
                    },
                    Ok(_) => Err(ErrorKind::UnsupportedReference),
                },
            },
            _ => Err(ErrorKind::MissingFields),
        },
    }
}

/// The parameters in order, or the first failure among them.
pub open spec fn params_spec(doc: JsonV, ps: Seq<JsonV>) -> Result<Seq<ParamV>, ErrorKind>
    decreases ps.len(),
{
    if ps.len() == 0 {
        Ok(Seq::empty())
    } else {
        match params_spec(doc, ps.drop_last()) {
            Err(e) => Err(e),
            Ok(prev) => match param_spec(doc, ps.last()) {
                Err(e) => Err(e),
                Ok(p) => Ok(prev.push(p)),
            },
        }
    }
}

pub open spec fn param_outcome(r: Result<Param, ParseError>) -> Result<ParamV, ErrorKind> {
    match r {
        Ok(p) => Ok(p@),
        Err(e) => Err(e.kind_spec()),
    }
}

pub open spec fn params_view(ps: Seq<Param>) -> Seq<ParamV> {
    ps.map_values(|p: Param| p@)
}

/// Sets the member `k` of an object's fields.
pub fn set_field(fields: &mut Vec<(String, Json)>, k: &str, v: Json)
    ensures
        view_fields(final(fields)@) == set_member(view_fields(old(fields)@), k@, v@),
{
    let ghost old_fields = fields@;
    match crate::json::find_field(fields, k) {
        Some(i) => {
            proof {
                crate::json::lemma_first_index_bounds(
                    crate::json::keys_of(view_fields(fields@)),
                    k@,
                );
            }
            let _ = fields.remove(i);
            fields.insert(i, (k.to_string(), v));
            assert(view_fields(fields@) =~= view_fields(old_fields).update(i as int, (k@, v@)));
        },
        None => {
            fields.push((k.to_string(), v));
            assert(view_fields(fields@) =~= view_fields(old_fields).push((k@, v@)));
        },
    }
}

fn document_is_v31(doc: &Json) -> (r: bool)
    ensures
        r == is_v31(doc@),
{
    match get_member(doc, "openapi") {
        Some(Json::Str(v)) => {
            if v.unicode_len() >= 3 {
                proof {
                    reveal_strlit("3.1");
                }
                str_eq(v.as_str().substring_char(0, 3), "3.1")
            } else {
                false
            }
        },
        _ => false,
    }
}

/// The version of a document: `3.1` for every 3.1 document, else what its
/// `openapi` member says.
pub fn spec_version(doc: &Json) -> (r: String)
    ensures
        is_v31(doc@) ==> r@ == "3.1"@,
        !is_v31(doc@) ==> r@ == match member_v(doc@, "openapi"@) {
            Some(JsonV::Str(v)) => v,
            _ => Seq::<char>::empty(),
        },
{
    if document_is_v31(doc) {
        return "3.1".to_string();
    }
    match get_member(doc, "openapi") {
        Some(Json::Str(v)) => v.clone(),
        _ => String::new(),
    }
}

fn finish(doc: &Json, s: Json) -> (r: Json)
    ensures
        r@ == finish_schema(doc@, s@),
{
    if document_is_v31(doc) {
        normalize_schema(&s)
    } else {
        s
    }
}

/// Resolves one parameter, as `param_spec` describes.
pub fn resolve_param(doc: &Json, p: &Json) -> (r: Result<Param, ParseError>)
    ensures
        param_outcome(r) == param_spec(doc@, p@),
{
    let fuel = document_fuel(doc);
    resolve_param_with(doc, p, fuel)
}

fn resolve_param_with(doc: &Json, p: &Json, fuel: usize) -> (r: Result<Param, ParseError>)
    requires
        fuel as nat == doc_fuel(doc@),
    ensures
        param_outcome(r) == param_spec(doc@, p@),
{
    proof {
        reveal_strlit("parameters");
        reveal_strlit("schemas");
        reveal_strlit("query");
        reveal_strlit("header");
        reveal_strlit("path");
    }
    let q = match resolve(doc, "parameters", p, fuel) {
        Err(e) => {
            return Err(e);
        },
        Ok(q) => q,
    };
    let name = match get_member(&q, "name") {
        Some(Json::Str(n)) => n.clone(),
        _ => {
            return Err(ParseError::MissingFields);
        },
    };
    let s = match get_member(&q, "schema") {
        None => {
            return Err(ParseError::UnsupportedReference(
                "parameter content is not supported".to_string(),
            ));
        },
        Some(s) => s,
    };
    let mut fs = match resolve(doc, "schemas", s, fuel) {
        Err(e) => {
            return Err(e);
        },
        Ok(Json::Object(fs)) => {
            proof {
                lemma_object_view(fs);
            }
            fs
        },
        Ok(_) => {
            return Err(ParseError::UnsupportedReference("parameter schema is not an object".to_string()));
        },
    };
    match get_member(&q, "description") {
        Some(d) => {
            let dc = d.deep_clone();
            set_field(&mut fs, "description", dc);
        },
        None => {},
    }
    let loc = match get_member(&q, "in") {
        Some(Json::Str(l)) => {
            if str_eq(l.as_str(), "query") {
                ParameterLocation::Query
            } else if str_eq(l.as_str(), "header") {
                ParameterLocation::Header
            } else if str_eq(l.as_str(), "path") {
                ParameterLocation::Path
            } else {
                return Err(ParseError::UnsupportedReference(
                    "parameter location is not supported".to_string(),
                ));
            }
        },
        _ => {
            return Err(ParseError::UnsupportedReference("parameter location is missing".to_string()));
        },
    };
    let required = match get_member(&q, "required") {
        Some(Json::Bool(b)) => *b,
        _ => false,
    };
    proof {
        lemma_object_view(fs);
    }
    let schema = finish(doc, Json::Object(fs));
    Ok(Param { loc, name, schema, required })
}

/// Resolves the parameters of an operation, as `params_spec` describes.
pub fn resolve_params(doc: &Json, ps: &Vec<Json>) -> (r: Result<Vec<Param>, ParseError>)
    ensures
        match r {
            Ok(v) => params_spec(doc@, ps@.map_values(|x: Json| x@)) == Ok::<Seq<ParamV>, ErrorKind>(
                params_view(v@),
            ),
            Err(e) => params_spec(doc@, ps@.map_values(|x: Json| x@)) == Err::<Seq<ParamV>, ErrorKind>(
                e.kind_spec(),
            ),
        },
{
    let ghost all = ps@.map_values(|x: Json| x@);
    let fuel = document_fuel(doc);
    let mut out: Vec<Param> = Vec::new();
    let mut i: usize = 0;
    assert(all.subrange(0, 0) =~= Seq::<JsonV>::empty());
    assert(params_view(out@) =~= Seq::<ParamV>::empty());
    while i < ps.len()
        invariant
            fuel as nat == doc_fuel(doc@),
            all == ps@.map_values(|x: Json| x@),
            i <= ps@.len(),
            params_spec(doc@, all.subrange(0, i as int)) == Ok::<Seq<ParamV>, ErrorKind>(
                params_view(out@),
            ),
        decreases ps@.len() - i,
    {
        let ghost pre = all.subrange(0, i + 1);
        assert(pre.drop_last() =~= all.subrange(0, i as int));
        assert(pre.last() == ps@[i as int]@);
        match resolve_param_with(doc, &ps[i], fuel) {
            Err(e) => {
                proof {
                    lemma_params_error_extends(doc@, all, i + 1);
                }
                return Err(e);
            },
            Ok(p) => {
                let ghost before = out@;
                out.push(p);
                assert(params_view(out@) =~= params_view(before).push(p@));
            },
        }
        i = i + 1;
    }
    assert(all.subrange(0, i as int) =~= all);
    Ok(out)
}

/// Once a prefix of the parameters fails, the whole list fails the same way.
proof fn lemma_params_error_extends(doc: JsonV, ps: Seq<JsonV>, n: int)
    requires
        0 <= n <= ps.len(),
        params_spec(doc, ps.subrange(0, n)) is Err,
    ensures
        params_spec(doc, ps) == params_spec(doc, ps.subrange(0, n)),
    decreases ps.len() - n,
{
    if n < ps.len() {
        let next = ps.subrange(0, n + 1);
        assert(next.drop_last() =~= ps.subrange(0, n));
        lemma_params_error_extends(doc, ps, n + 1);
    } else {
        assert(ps.subrange(0, n) =~= ps);
    }
}

// ----- request body -----

/// The JSON body of an operation: none without a request body or without an
/// `application/json` media type; else its schema with every reference
/// inlined, and whether the body is required.
pub open spec fn body_spec(doc: JsonV, op: JsonV) -> Result<Option<(JsonV, bool)>, ErrorKind> {
    match member_v(op, "requestBody"@) {
        None => Ok(None),
        Some(b) => match resolve_spec(doc, "requestBodies"@, b, doc_fuel(doc)) {
            Err(e) => Err(e),
            Ok(rb) => match member_v(rb, "content"@) {
                None => Ok(None),
                Some(c) => match member_v(c, "application/json"@) {
                    None => Ok(None),
                    Some(mt) => match member_v(mt, "schema"@) {
                        None => Err(ErrorKind::MissingReference),
                        Some(sch) => match nested_spec(doc, sch, doc_fuel(doc)) {
                            Err(e) => Err(e),
                            Ok(r) => Ok(Some((finish_schema(doc, r), is_true(member_v(rb, "required"@))))),
                        },
                    },
                },
            },
        },
    }
}

pub open spec fn body_outcome(r: Result<Option<(Json, bool)>, ParseError>) -> Result<Option<(JsonV, bool)>, ErrorKind> {
    match r {
        Ok(Some((j, b))) => Ok(Some((j@, b))),
        Ok(None) => Ok(None),
        Err(e) => Err(e.kind_spec()),
    }
}

/// Reads the JSON body of an operation, as `body_spec` describes.
pub fn resolve_body(doc: &Json, op: &Json) -> (r: Result<Option<(Json, bool)>, ParseError>)
    ensures
        body_outcome(r) == body_spec(doc@, op@),
{
    proof {
        reveal_strlit("requestBodies");
    }
    let fuel = document_fuel(doc);
    let b = match get_member(op, "requestBody") {
        None => {
            return Ok(None);
        },
        Some(b) => b,
    };
    let rb = match resolve(doc, "requestBodies", b, fuel) {
        Err(e) => {
            return Err(e);
        },
        Ok(rb) => rb,
    };
    let c = match get_member(&rb, "content") {
        None => {
            return Ok(None);
        },
        Some(c) => c,
    };
    let mt = match get_member(c, "application/json") {
        None => {
            return Ok(None);
        },
        Some(mt) => mt,
    };
    let sch = match get_member(mt, "schema") {
        None => {
            return Err(ParseError::MissingReference("application/json".to_string()));
        },
        Some(sch) => sch,
    };
    let resolved = match resolve_nested(doc, sch, fuel) {
        Err(e) => {
            return Err(e);
        },
        Ok(r) => r,
    };
    let required = match get_member(&rb, "required") {
        Some(Json::Bool(x)) => *x,
        _ => false,
    };
    Ok(Some((finish(doc, resolved), required)))
}

// ----- the input schema of a tool -----

pub open spec fn body_view(body: Option<(Json, bool)>) -> Option<(JsonV, bool)> {
    match body {
        Some((j, b)) => Some((j@, b)),
        None => None,
    }
}

/// The parameters at one location, in order.
pub open spec fn of_loc(ps: Seq<ParamV>, loc: ParameterLocation) -> Seq<ParamV>
    decreases ps.len(),
{
    if ps.len() == 0 {
        Seq::empty()
    } else if ps.last().loc == loc {
        of_loc(ps.drop_last(), loc).push(ps.last())
    } else {
        of_loc(ps.drop_last(), loc)
    }
}

/// The names of the required parameters, in order.
pub open spec fn required_names(ps: Seq<ParamV>) -> Seq<JsonV>
    decreases ps.len(),
{
    if ps.len() == 0 {
        Seq::empty()
    } else if ps.last().required {
        required_names(ps.drop_last()).push(JsonV::Str(ps.last().name))
    } else {
        required_names(ps.drop_last())
    }
}

pub open spec fn str_v(s: Seq<char>) -> JsonV {
    JsonV::Str(s)
}

/// The schema of a group of parameters: an object whose properties are the
/// parameters' schemas and whose `required` lists the required ones.
pub open spec fn group_schema(ps: Seq<ParamV>) -> JsonV {
    JsonV::Object(
        seq![
            ("type"@, JsonV::Str("object"@)),
            ("properties"@, JsonV::Object(ps.map_values(|p: ParamV| (p.name, p.schema)))),
            ("required"@, JsonV::Array(required_names(ps))),
        ],
    )
}

/// The property for the parameters at `loc`, where there are any.
pub open spec fn group_part(ps: Seq<ParamV>, loc: ParameterLocation) -> Seq<(Seq<char>, JsonV)> {
    let g = of_loc(ps, loc);
    if g.len() > 0 {
        seq![(loc.name_spec(), group_schema(g))]
    } else {
        Seq::empty()
    }
}

/// `loc` as a required property, where one of its parameters is required.
pub open spec fn group_required(ps: Seq<ParamV>, loc: ParameterLocation) -> Seq<JsonV> {
    if required_names(of_loc(ps, loc)).len() > 0 {
        seq![JsonV::Str(loc.name_spec())]
    } else {
        Seq::empty()
    }
}

pub open spec fn input_properties(body: Option<(JsonV, bool)>, ps: Seq<ParamV>) -> Seq<(Seq<char>, JsonV)> {
    let b = match body {
        Some((s, _)) => seq![("body"@, s)],
        None => Seq::empty(),
    };
    b + group_part(ps, ParameterLocation::Header) + group_part(ps, ParameterLocation::Query)
        + group_part(ps, ParameterLocation::Path)
}

pub open spec fn input_required(body: Option<(JsonV, bool)>, ps: Seq<ParamV>) -> Seq<JsonV> {
    let b = match body {
        Some((_, true)) => seq![JsonV::Str("body"@)],
        _ => Seq::empty(),
    };
    b + group_required(ps, ParameterLocation::Header) + group_required(ps, ParameterLocation::Query)
        + group_required(ps, ParameterLocation::Path)
}

/// The input schema of a tool: an object whose properties are `body`,
/// `header`, `query` and `path`, each present where the operation has such
/// a field.
pub open spec fn input_schema_spec(body: Option<(JsonV, bool)>, ps: Seq<ParamV>) -> JsonV {
    JsonV::Object(
        seq![
            ("type"@, JsonV::Str("object"@)),
            ("properties"@, JsonV::Object(input_properties(body, ps))),
            ("required"@, JsonV::Array(input_required(body, ps))),
        ],
    )
}

/// The parameters at `loc`, and the names of the required ones.
fn group_of(ps: &Vec<Param>, loc: ParameterLocation) -> (r: (Vec<(String, Json)>, Vec<Json>))
    ensures
        view_fields(r.0@) == of_loc(params_view(ps@), loc).map_values(|p: ParamV| (p.name, p.schema)),
        r.1@.map_values(|x: Json| x@) == required_names(of_loc(params_view(ps@), loc)),
{
    let ghost all = params_view(ps@);
    let mut props: Vec<(String, Json)> = Vec::new();
    let mut req: Vec<Json> = Vec::new();
    let mut i: usize = 0;
    assert(all.subrange(0, 0) =~= Seq::<ParamV>::empty());
    assert(view_fields(props@) =~= Seq::empty());
    assert(req@.map_values(|x: Json| x@) =~= Seq::empty());
    while i < ps.len()
        invariant
            all == params_view(ps@),
            i <= ps@.len(),
            view_fields(props@) == of_loc(all.subrange(0, i as int), loc).map_values(
                |p: ParamV| (p.name, p.schema),
            ),
            req@.map_values(|x: Json| x@) == required_names(of_loc(all.subrange(0, i as int), loc)),
        decreases ps@.len() - i,
    {
        let ghost pre = all.subrange(0, i + 1);
        assert(pre.drop_last() =~= all.subrange(0, i as int));
        assert(pre.last() == ps@[i as int]@);
        if ps[i].loc == loc {
            let ghost bp = props@;
            let ghost br = req@;
            props.push((ps[i].name.clone(), ps[i].schema.deep_clone()));
            assert(view_fields(props@) =~= view_fields(bp).push((ps@[i as int].name@, ps@[i as int].schema@)));
            if ps[i].required {
                req.push(Json::Str(ps[i].name.clone()));
                assert(req@.map_values(|x: Json| x@) =~= br.map_values(|x: Json| x@).push(JsonV::Str(ps@[i as int].name@)));
            }
            assert(of_loc(pre, loc) == of_loc(all.subrange(0, i as int), loc).push(ps@[i as int]@));
            assert(of_loc(pre, loc).drop_last() =~= of_loc(all.subrange(0, i as int), loc));
            assert(of_loc(pre, loc).last() == ps@[i as int]@);
            assert(of_loc(pre, loc).map_values(|p: ParamV| (p.name, p.schema)) =~= of_loc(
                all.subrange(0, i as int),
                loc,
            ).map_values(|p: ParamV| (p.name, p.schema)).push((ps@[i as int].name@, ps@[i as int].schema@)));
        }
        i = i + 1;
    }
    assert(all.subrange(0, i as int) =~= all);
    (props, req)
}

fn group_schema_json(props: Vec<(String, Json)>, req: Vec<Json>) -> (r: Json)
    ensures
        r@ == JsonV::Object(
            seq![
                ("type"@, JsonV::Str("object"@)),
                ("properties"@, JsonV::Object(view_fields(props@))),
                ("required"@, JsonV::Array(req@.map_values(|x: Json| x@))),
            ],
        ),
{
    proof {
        lemma_object_view(props);
        lemma_array_view(req);
    }
    let ghost pv = view_fields(props@);
    let ghost rv = req@.map_values(|x: Json| x@);
    let mut fs: Vec<(String, Json)> = Vec::new();
    fs.push(("type".to_string(), Json::Str("object".to_string())));
    fs.push(("properties".to_string(), Json::Object(props)));
    fs.push(("required".to_string(), Json::Array(req)));
    proof {
        lemma_object_view(fs);
        assert(view_fields(fs@) =~= seq![
            ("type"@, JsonV::Str("object"@)),
            ("properties"@, JsonV::Object(pv)),
            ("required"@, JsonV::Array(rv)),
        ]);
    }
    Json::Object(fs)
}

/// Builds the input schema of a tool, as `input_schema_spec` describes.
pub fn build_input_schema(body: Option<(Json, bool)>, ps: &Vec<Param>) -> (r: Json)
    ensures
        r@ == input_schema_spec(body_view(body), params_view(ps@)),
{
    let ghost bv = body_view(body);
    let ghost pv = params_view(ps@);
    let mut props: Vec<(String, Json)> = Vec::new();
    let mut req: Vec<Json> = Vec::new();
    match body {
        Some((schema, required)) => {
            props.push(("body".to_string(), schema));
            if required {
                req.push(Json::Str("body".to_string()));
            }
        },
        None => {},
    }
    let ghost props0 = view_fields(props@);
    let ghost req0 = req@.map_values(|x: Json| x@);
    proof {
        match bv {
            Some((s, b)) => {
                assert(props0 =~= seq![("body"@, s)]);
                if b {
                    assert(req0 =~= seq![JsonV::Str("body"@)]);
                } else {
                    assert(req0 =~= Seq::<JsonV>::empty());
                }
            },
            None => {
                assert(props0 =~= Seq::<(Seq<char>, JsonV)>::empty());
                assert(req0 =~= Seq::<JsonV>::empty());
            },
        }
    }
    add_group(&mut props, &mut req, ps, ParameterLocation::Header);
    add_group(&mut props, &mut req, ps, ParameterLocation::Query);
    add_group(&mut props, &mut req, ps, ParameterLocation::Path);
    proof {
        assert(view_fields(props@) =~= input_properties(bv, pv));
        assert(req@.map_values(|x: Json| x@) =~= input_required(bv, pv));
    }
    group_schema_json(props, req)
}

fn add_group(
    props: &mut Vec<(String, Json)>,
    req: &mut Vec<Json>,
    ps: &Vec<Param>,
    loc: ParameterLocation,
)
    ensures
        view_fields(final(props)@) == view_fields(old(props)@) + group_part(params_view(ps@), loc),
        final(req)@.map_values(|x: Json| x@) == old(req)@.map_values(|x: Json| x@) + group_required(
            params_view(ps@),
            loc,
        ),
{
    let ghost props0 = view_fields(props@);
    let ghost r0 = req@.map_values(|x: Json| x@);
    let (gp, gr) = group_of(ps, loc);
    let ghost g = of_loc(params_view(ps@), loc);
    proof {
        assert(g.map_values(|p: ParamV| (p.name, p.schema)).len() == g.len());
    }
    if gp.len() > 0 {
        let has_required = gr.len() > 0;
        let schema = group_schema_json(gp, gr);
        let name = loc.to_string();
        props.push((name.clone(), schema));
        assert(view_fields(props@) =~= props0 + group_part(params_view(ps@), loc));
        if has_required {
            req.push(Json::Str(name));
            assert(req@.map_values(|x: Json| x@) =~= r0 + group_required(params_view(ps@), loc));
        } else {
            assert(req@.map_values(|x: Json| x@) =~= r0 + group_required(params_view(ps@), loc));
        }
    } else {
        assert(view_fields(props@) =~= props0 + group_part(params_view(ps@), loc));
        proof {
            assert(required_names(g).len() == 0) by {
                lemma_required_names_len(g);
            }
        }
        assert(req@.map_values(|x: Json| x@) =~= r0 + group_required(params_view(ps@), loc));
    }
}

proof fn lemma_required_names_len(ps: Seq<ParamV>)
    ensures
        required_names(ps).len() <= ps.len(),
    decreases ps.len(),
{
    if ps.len() > 0 {
        lemma_required_names_len(ps.drop_last());
    }
}

// ----- tools -----

/// A tool offered to MCP clients.
pub struct ToolDefinition {
    pub name: String,
    pub description: String,
    pub input_schema: Json,
}

/// A synthesised tool and the HTTP call behind it.
pub struct ToolV {
    pub name: Seq<char>,
    pub description: Seq<char>,
    pub input_schema: JsonV,
    pub method: Seq<char>,
    pub path: Seq<char>,
}

pub open spec fn tool_view(t: (ToolDefinition, UpstreamOpenAPICall)) -> ToolV {
    ToolV {
        name: t.0.name@,
        description: t.0.description@,
        input_schema: t.0.input_schema@,
        method: t.1.method@,
        path: t.1.path@,
    }
}

pub open spec fn tools_view(ts: Seq<(ToolDefinition, UpstreamOpenAPICall)>) -> Seq<ToolV> {
    ts.map_values(|t: (ToolDefinition, UpstreamOpenAPICall)| tool_view(t))
}

/// The description of a tool: the operation's description, else its
/// summary, else its id.
pub open spec fn description_of(op: JsonV, id: Seq<char>) -> Seq<char> {
    match member_v(op, "description"@) {
        Some(JsonV::Str(d)) => d,
        _ => match member_v(op, "summary"@) {
            Some(JsonV::Str(s)) => s,
            _ => id,
        },
    }
}

pub open spec fn op_params(op: JsonV) -> Seq<JsonV> {
    match member_v(op, "parameters"@) {
        Some(JsonV::Array(xs)) => xs,
        _ => Seq::empty(),
    }
}

/// The tool for one operation: named by its `operationId` (which must be
/// there), with the input schema built from its body and parameters.
pub open spec fn tool_spec(doc: JsonV, path: Seq<char>, method: Seq<char>, op: JsonV) -> Result<ToolV, ErrorKind> {
    match member_v(op, "operationId"@) {
        Some(JsonV::Str(id)) => match body_spec(doc, op) {
            Err(e) => Err(e),
            Ok(b) => match params_spec(doc, op_params(op)) {
                Err(e) => Err(e),
                Ok(ps) => Ok(
                    ToolV {
                        name: id,
                        description: description_of(op, id),
                        input_schema: input_schema_spec(b, ps),
                        method,
                        path,
                    },
                ),
            },
        },
        _ => Err(ErrorKind::InformationRequired),
    }
}

pub open spec fn tool_outcome(r: Result<(ToolDefinition, UpstreamOpenAPICall), ParseError>) -> Result<ToolV, ErrorKind> {
    match r {
        Ok(t) => Ok(tool_view(t)),
        Err(e) => Err(e.kind_spec()),
    }
}

/// Builds the tool for one operation, as `tool_spec` describes.
pub fn build_tool(doc: &Json, path: &str, method: &str, op: &Json) -> (r: Result<
    (ToolDefinition, UpstreamOpenAPICall),
    ParseError,
>)
    ensures
        tool_outcome(r) == tool_spec(doc@, path@, method@, op@),
{
    let id = match get_member(op, "operationId") {
        Some(Json::Str(id)) => id.clone(),
        _ => {
            let msg = concat("operationId is required for ", path);
            return Err(ParseError::InformationRequired(msg));
        },
    };
    let body = match resolve_body(doc, op) {
        Err(e) => {
            return Err(e);
        },
        Ok(b) => b,
    };
    let empty: Vec<Json> = Vec::new();
    let ps_json = match get_member(op, "parameters") {
        Some(Json::Array(xs)) => {
            proof {
                lemma_array_view(*xs);
            }
            xs
        },
        _ => &empty,
    };
    assert(empty@.map_values(|x: Json| x@) =~= Seq::<JsonV>::empty());
    let params = match resolve_params(doc, ps_json) {
        Err(e) => {
            return Err(e);
        },
        Ok(ps) => ps,
    };
    let description = match get_member(op, "description") {
        Some(Json::Str(d)) => d.clone(),
        _ => match get_member(op, "summary") {
            Some(Json::Str(s)) => s.clone(),
            _ => id.clone(),
        },
    };
    let input_schema = build_input_schema(body, &params);
    let tool = ToolDefinition { name: id, description, input_schema };
    let call = UpstreamOpenAPICall { method: method.to_string(), path: path.to_string() };
    Ok((tool, call))
}

/// The member names of the operations of a path item, in the order in
/// which tools are made from them, with the method of each.
pub open spec fn method_key(i: int) -> Seq<char> {
    if i == 0 {
        "get"@
    } else if i == 1 {
        "put"@
    } else if i == 2 {
        "post"@
    } else if i == 3 {
        "delete"@
    } else if i == 4 {
        "options"@
    } else if i == 5 {
        "head"@
    } else if i == 6 {
        "patch"@
    } else {
        "trace"@
    }
}

pub open spec fn method_name(i: int) -> Seq<char> {
    if i == 0 {
        "GET"@
    } else if i == 1 {
        "PUT"@
    } else if i == 2 {
        "POST"@
    } else if i == 3 {
        "DELETE"@
    } else if i == 4 {
        "OPTIONS"@
    } else if i == 5 {
        "HEAD"@
    } else if i == 6 {
        "PATCH"@
    } else {
        "TRACE"@
    }
}

pub const METHOD_COUNT: usize = 8;

fn method_at(i: usize) -> (r: (&'static str, &'static str))
    requires
        i < 8,
    ensures
        r.0@ == method_key(i as int),
        r.1@ == method_name(i as int),
{
    if i == 0 {
        ("get", "GET")
    } else if i == 1 {
        ("put", "PUT")
    } else if i == 2 {
        ("post", "POST")
    } else if i == 3 {
        ("delete", "DELETE")
    } else if i == 4 {
        ("options", "OPTIONS")
    } else if i == 5 {
        ("head", "HEAD")
    } else if i == 6 {
        ("patch", "PATCH")
    } else {
        ("trace", "TRACE")
    }
}

/// The tools of the first `n` methods of a path item, or the first failure.
pub open spec fn item_tools(doc: JsonV, path: Seq<char>, item: JsonV, n: nat) -> Result<Seq<ToolV>, ErrorKind>
    decreases n,
{
    if n == 0 {
        Ok(Seq::empty())
    } else {
        match item_tools(doc, path, item, (n - 1) as nat) {
            Err(e) => Err(e),
            Ok(prev) => match member_v(item, method_key(n - 1)) {
                None => Ok(prev),
                Some(op) => match tool_spec(doc, path, method_name(n - 1), op) {
                    Err(e) => Err(e),
                    Ok(t) => Ok(prev.push(t)),
                },
            },
        }
    }
}

/// The tools of one path: a path that is itself a reference is refused.
pub open spec fn path_tools(doc: JsonV, path: Seq<char>, item: JsonV) -> Result<Seq<ToolV>, ErrorKind> {
    if member_v(item, "$ref"@) is Some {
        Err(ErrorKind::UnsupportedReference)
    } else {
        item_tools(doc, path, item, METHOD_COUNT as nat)
    }
}

pub open spec fn paths_of(doc: JsonV) -> Seq<(Seq<char>, JsonV)> {
    match member_v(doc, "paths"@) {
        Some(JsonV::Object(ps)) => ps,
        _ => Seq::empty(),
    }
}

/// The tools of the given paths, path after path, or the first failure.
pub open spec fn tools_of_paths(doc: JsonV, ps: Seq<(Seq<char>, JsonV)>) -> Result<Seq<ToolV>, ErrorKind>
    decreases ps.len(),
{
    if ps.len() == 0 {
        Ok(Seq::empty())
    } else {
        match tools_of_paths(doc, ps.drop_last()) {
            Err(e) => Err(e),
            Ok(prev) => match path_tools(doc, ps.last().0, ps.last().1) {
                Err(e) => Err(e),
                Ok(ts) => Ok(prev + ts),
            },
        }
    }
}

/// The tools synthesised from a document: the paths in the order in which
/// the document declares them, and within each path the methods in the
/// order `get`, `put`, `post`, `delete`, `options`, `head`, `patch`,
/// `trace`.
pub open spec fn synthesize_spec(doc: JsonV) -> Result<Seq<ToolV>, ErrorKind> {
    tools_of_paths(doc, paths_of(doc))
}

proof fn lemma_item_error_extends(doc: JsonV, path: Seq<char>, item: JsonV, n: nat, m: nat)
    requires
        n <= m,
        item_tools(doc, path, item, n) is Err,
    ensures
        item_tools(doc, path, item, m) == item_tools(doc, path, item, n),
    decreases m - n,
{
    if n < m {
        lemma_item_error_extends(doc, path, item, n + 1, m);
    }
}

proof fn lemma_paths_error_extends(doc: JsonV, ps: Seq<(Seq<char>, JsonV)>, n: int)
    requires
        0 <= n <= ps.len(),
        tools_of_paths(doc, ps.subrange(0, n)) is Err,
    ensures
        tools_of_paths(doc, ps) == tools_of_paths(doc, ps.subrange(0, n)),
    decreases ps.len() - n,
{
    if n < ps.len() {
        let next = ps.subrange(0, n + 1);
        assert(next.drop_last() =~= ps.subrange(0, n));
        lemma_paths_error_extends(doc, ps, n + 1);
    } else {
        assert(ps.subrange(0, n) =~= ps);
    }
}

/// The tools of one path, as `path_tools` describes.
fn build_path_tools(doc: &Json, path: &str, item: &Json) -> (r: Result<
    Vec<(ToolDefinition, UpstreamOpenAPICall)>,
    ParseError,
>)
    ensures
        match r {
            Ok(v) => path_tools(doc@, path@, item@) == Ok::<Seq<ToolV>, ErrorKind>(tools_view(v@)),
            Err(e) => path_tools(doc@, path@, item@) == Err::<Seq<ToolV>, ErrorKind>(e.kind_spec()),
        },
{
    if get_member(item, "$ref").is_some() {
        return Err(ParseError::UnsupportedReference(path.to_string()));
    }
    let mut out: Vec<(ToolDefinition, UpstreamOpenAPICall)> = Vec::new();
    let mut i: usize = 0;
    assert(tools_view(out@) =~= Seq::<ToolV>::empty());
    while i < METHOD_COUNT
        invariant
            i <= 8,
            member_v(item@, "$ref"@) is None,
            item_tools(doc@, path@, item@, i as nat) == Ok::<Seq<ToolV>, ErrorKind>(tools_view(out@)),
        decreases 8 - i,
    {
        let (key, name) = method_at(i);
        match get_member(item, key) {
            None => {},
            Some(op) => match build_tool(doc, path, name, op) {
                Err(e) => {
                    proof {
                        lemma_item_error_extends(doc@, path@, item@, (i + 1) as nat, 8);
                    }
                    return Err(e);
                },
                Ok(t) => {
                    let ghost before = out@;
                    out.push(t);
                    assert(tools_view(out@) =~= tools_view(before).push(tool_view(t)));
                },
            },
        }
        i = i + 1;
    }
    Ok(out)
}

/// The tools and upstream calls synthesised from an OpenAPI document, as
/// `synthesize_spec` describes.
pub fn parse_openapi_schema(doc: &Json) -> (r: Result<
    Vec<(ToolDefinition, UpstreamOpenAPICall)>,
    ParseError,
>)
    ensures
        match r {
            Ok(v) => synthesize_spec(doc@) == Ok::<Seq<ToolV>, ErrorKind>(tools_view(v@)),
            Err(e) => synthesize_spec(doc@) == Err::<Seq<ToolV>, ErrorKind>(e.kind_spec()),
        },
{
    let empty: Vec<(String, Json)> = Vec::new();
    let ps = match get_member(doc, "paths") {
        Some(Json::Object(ps)) => {
            proof {
                lemma_object_view(*ps);
            }
            ps
        },
        _ => &empty,
    };
    assert(view_fields(empty@) =~= Seq::<(Seq<char>, JsonV)>::empty());
    let ghost all = view_fields(ps@);
    let mut out: Vec<(ToolDefinition, UpstreamOpenAPICall)> = Vec::new();
    let mut i: usize = 0;
    assert(all.subrange(0, 0) =~= Seq::<(Seq<char>, JsonV)>::empty());
    assert(tools_view(out@) =~= Seq::<ToolV>::empty());
    while i < ps.len()
        invariant
            all == view_fields(ps@),
            all == paths_of(doc@),
            i <= ps@.len(),
            tools_of_paths(doc@, all.subrange(0, i as int)) == Ok::<Seq<ToolV>, ErrorKind>(
                tools_view(out@),
            ),
        decreases ps@.len() - i,
    {
        let ghost pre = all.subrange(0, i + 1);
        assert(pre.drop_last() =~= all.subrange(0, i as int));
        assert(pre.last() == (ps@[i as int].0@, ps@[i as int].1@));
        match build_path_tools(doc, ps[i].0.as_str(), &ps[i].1) {
            Err(e) => {
                proof {
                    lemma_paths_error_extends(doc@, all, i + 1);
                    assert(all.subrange(0, all.len() as int) =~= all);
                }
                return Err(e);
            },
            Ok(ts) => {
                let ghost before = out@;
                let ghost added = ts@;
                let mut ts = ts;
                out.append(&mut ts);
                assert(tools_view(out@) =~= tools_view(before) + tools_view(added));
            },
        }
        i = i + 1;
    }
    assert(all.subrange(0, i as int) =~= all);
    Ok(out)
}

/// Behaviour shared by the OpenAPI versions.
pub struct CommonBehavior;

impl CommonBehavior {
    /// The input-schema property for a parameter location: `query`, `path`
    /// and `header` stand for themselves; a cookie, or any other location,
    /// is refused.
    pub fn parameter_type_from_location(location: &str) -> (r: Result<String, ParseError>)
        ensures
            match r {
                Ok(s) => location_of(location@) is Some && s@ == location@,
                Err(e) => location_of(location@) is None && e.kind_spec() == ErrorKind::UnsupportedReference,
            },
            location@ == "cookie"@ ==> (r matches Err(ParseError::UnsupportedReference(m)) && m@
                == "parameter type COOKIE is not supported"@),
            location_of(location@) is None && location@ != "cookie"@ ==> (r matches Err(
                ParseError::UnsupportedReference(m),
            ) && m@ == "unsupported parameter location: "@ + location@),
    {
        proof {
            reveal_strlit("query");
            reveal_strlit("path");
            reveal_strlit("header");
            reveal_strlit("cookie");
            assert("cookie"@[0] != "header"@[0]);
            assert("cookie"@ != "header"@);
        }
        if str_eq(location, "query") {
            Ok("query".to_string())
        } else if str_eq(location, "path") {
            Ok("path".to_string())
        } else if str_eq(location, "header") {
            Ok("header".to_string())
        } else if str_eq(location, "cookie") {
            Err(ParseError::UnsupportedReference("parameter type COOKIE is not supported".to_string()))
        } else {
            let msg = concat("unsupported parameter location: ", location);
            Err(ParseError::UnsupportedReference(msg))
        }
    }
}

// ----- targets -----

/// An OpenAPI target made from its document: the synthesised tools and the
/// server prefix.
pub fn openapi_target(
    host: &str,
    port: u16,
    doc: &Json,
    headers: Vec<(String, String)>,
    backend_auth: Option<crate::store::BackendAuth>,
) -> (r: Result<crate::store::OpenAPITarget, ParseError>)
    ensures
        match r {
            Ok(t) => {
                &&& synthesize_spec(doc@) == Ok::<Seq<ToolV>, ErrorKind>(tools_view(t.tools@))
                &&& server_prefix_spec(doc@) == Ok::<Seq<char>, ErrorKind>(t.prefix@)
                &&& t.host@ == host@
                &&& t.port == port
                &&& t.headers == headers
            },
            Err(e) => synthesize_spec(doc@) == Err::<Seq<ToolV>, ErrorKind>(e.kind_spec()) || (
            synthesize_spec(doc@) is Ok && server_prefix_spec(doc@) == Err::<Seq<char>, ErrorKind>(
                e.kind_spec(),
            )),
        },
{
    let tools = match parse_openapi_schema(doc) {
        Err(e) => {
            return Err(e);
        },
        Ok(t) => t,
    };
    let prefix = match get_server_prefix(doc) {
        Err(e) => {
            return Err(e);
        },
        Ok(p) => p,
    };
    Ok(crate::store::OpenAPITarget { host: host.to_string(), prefix, port, tools, headers, backend_auth })
}

/// Serves the tools of an OpenAPI target.
pub struct Handler {
    pub host: String,
    pub prefix: String,
    pub port: u32,
    pub tls: bool,
    pub tools: Vec<(ToolDefinition, UpstreamOpenAPICall)>,
}

impl Handler {
    /// The request for a call of the tool `name`, as `build_tool_request`
    /// describes; the caller sends it.
    pub fn call_tool(&self, name: &str, args: Option<Vec<(String, Json)>>) -> (r: Result<
        crate::call::HttpRequestPlan,
        crate::call::CallError,
    >)
        ensures
            crate::call::tool_request_spec(
                self.tools@,
                name@,
                self.tls,
                self.host@,
                self.port as nat,
                self.prefix@,
                match args {
                    Some(a) => view_fields(a@),
                    None => Seq::empty(),
                },
                r,
            ),
    {
        crate::call::build_tool_request(
            &self.tools,
            name,
            self.tls,
            self.host.as_str(),
            self.port,
            self.prefix.as_str(),
            args,
        )
    }

    /// The names of the tools, in order.
    pub fn tool_names(&self) -> (r: Vec<String>)
        ensures
            r@.len() == self.tools@.len(),
            forall|i: int| 0 <= i < r@.len() ==> r@[i]@ == self.tools@[i].0.name@,
    {
        let mut out: Vec<String> = Vec::new();
        let mut i: usize = 0;
        while i < self.tools.len()
            invariant
                i <= self.tools@.len(),
                out@.len() == i,
                forall|k: int| 0 <= k < i ==> out@[k]@ == self.tools@[k].0.name@,
            decreases self.tools@.len() - i,
        {
            out.push(self.tools[i].0.name.clone());
            i = i + 1;
        }
        out
    }
}

// ----- laws -----

/// Synthesis depends on the document's value alone: equal documents give
/// equal tool lists, or fail with the same kind of error, however often it
/// is run.
pub proof fn lemma_synthesis_deterministic(a: JsonV, b: JsonV)
    requires
        a == b,
    ensures
        synthesize_spec(a) == synthesize_spec(b),
{
}

pub open spec fn is_input_key(k: Seq<char>) -> bool {
    k == "body"@ || k == "header"@ || k == "query"@ || k == "path"@
}

/// The properties of every input schema are among `body`, `header`,
/// `query` and `path`.
pub proof fn lemma_input_keys(body: Option<(JsonV, bool)>, ps: Seq<ParamV>)
    ensures
        forall|i: int|
            0 <= i < input_properties(body, ps).len() ==> is_input_key(
                #[trigger] input_properties(body, ps)[i].0,
            ),
{
    let b: Seq<(Seq<char>, JsonV)> = match body {
        Some((s, _)) => seq![("body"@, s)],
        None => Seq::empty(),
    };
    let h = group_part(ps, ParameterLocation::Header);
    let q = group_part(ps, ParameterLocation::Query);
    let p = group_part(ps, ParameterLocation::Path);
    assert(input_properties(body, ps) == b + h + q + p);
    assert forall|i: int| 0 <= i < (b + h + q + p).len() implies is_input_key(#[trigger] (b + h + q + p)[i].0) by {
        if i < b.len() {
        } else if i < b.len() + h.len() {
            assert((b + h + q + p)[i] == h[i - b.len()]);
        } else if i < b.len() + h.len() + q.len() {
            assert((b + h + q + p)[i] == q[i - b.len() - h.len()]);
        } else {
            assert((b + h + q + p)[i] == p[i - b.len() - h.len() - q.len()]);
        }
    }
}

/// Every tool synthesised from an operation has an input schema whose
/// properties are among `body`, `header`, `query` and `path`.
pub proof fn lemma_tool_input_keys(doc: JsonV, path: Seq<char>, method: Seq<char>, op: JsonV)
    requires
        tool_spec(doc, path, method, op) is Ok,
    ensures
        ({
            let t = tool_spec(doc, path, method, op).unwrap();
            match member_v(t.input_schema, "properties"@) {
                Some(JsonV::Object(props)) => forall|i: int|
                    0 <= i < props.len() ==> is_input_key(#[trigger] props[i].0),
                _ => false,
            }
        }),
{
    reveal_strlit("type");
    reveal_strlit("properties");
    let b = body_spec(doc, op).unwrap();
    let ps = params_spec(doc, op_params(op)).unwrap();
    lemma_input_keys(b, ps);
    let fs = seq![
        ("type"@, JsonV::Str("object"@)),
        ("properties"@, JsonV::Object(input_properties(b, ps))),
        ("required"@, JsonV::Array(input_required(b, ps))),
    ];
    let keys = crate::json::keys_of(fs);
    assert(keys[0] == "type"@);
    assert(keys[1] == "properties"@);
    crate::json::lemma_first_index_at(keys, "properties"@, 1);
}

/// A name is listed as required in the group of a location exactly when a
/// parameter of that name at that location is marked required.
pub proof fn lemma_required_iff_marked(ps: Seq<ParamV>, loc: ParameterLocation, n: Seq<char>)
    ensures
        required_names(of_loc(ps, loc)).contains(JsonV::Str(n)) <==> exists|i: int|
            0 <= i < ps.len() && ps[i].loc == loc && ps[i].name == n && ps[i].required,
    decreases ps.len(),
{
    if ps.len() > 0 {
        let d = ps.drop_last();
        lemma_required_iff_marked(d, loc, n);
        let g = of_loc(ps, loc);
        let gd = of_loc(d, loc);
        if ps.last().loc == loc {
            assert(g.drop_last() =~= gd);
        }
        let rn = required_names(g);
        let rd = required_names(gd);
        if ps.last().loc == loc && ps.last().required {
            assert(rn == rd.push(JsonV::Str(ps.last().name)));
        } else if ps.last().loc == loc {
            assert(rn == rd);
        }
        if exists|i: int| 0 <= i < ps.len() && ps[i].loc == loc && ps[i].name == n && ps[i].required {
            let i = choose|i: int| 0 <= i < ps.len() && ps[i].loc == loc && ps[i].name == n && ps[i].required;
            if i < d.len() {
                assert(d[i] == ps[i]);
                let w = choose|w: int| 0 <= w < rd.len() && rd[w] == JsonV::Str(n);
                if ps.last().loc == loc && ps.last().required {
                    assert(rn[w] == rd[w]);
                } else {
                    assert(rn[w] == rd[w]);
                }
            } else {
                assert(rn[rn.len() - 1] == JsonV::Str(n));
            }
        }
        if rn.contains(JsonV::Str(n)) {
            let w = choose|w: int| 0 <= w < rn.len() && rn[w] == JsonV::Str(n);
            if w < rd.len() {
                assert(rd[w] == JsonV::Str(n));
                let i = choose|i: int| 0 <= i < d.len() && d[i].loc == loc && d[i].name == n && d[i].required;
                assert(ps[i] == d[i]);
            } else {
                assert(ps[ps.len() - 1] == ps.last());
            }
        }
    }
}

/// The top-level `required` of an input schema lists `body` exactly when
/// the body is required, and a location exactly when one of its parameters
/// is required.
pub proof fn lemma_top_required(body: Option<(JsonV, bool)>, ps: Seq<ParamV>, loc: ParameterLocation)
    ensures
        group_required(ps, loc).len() > 0 <==> exists|i: int|
            0 <= i < ps.len() && ps[i].loc == loc && ps[i].required,
        input_required(body, ps).len() > 0 && input_required(body, ps)[0] == JsonV::Str("body"@)
            <== (body matches Some((_, true))),
{
    let g = of_loc(ps, loc);
    if exists|i: int| 0 <= i < ps.len() && ps[i].loc == loc && ps[i].required {
        let i = choose|i: int| 0 <= i < ps.len() && ps[i].loc == loc && ps[i].required;
        lemma_required_iff_marked(ps, loc, ps[i].name);
        let w = choose|w: int| 0 <= w < required_names(g).len() && required_names(g)[w] == JsonV::Str(ps[i].name);
    }
    if required_names(g).len() > 0 {
        let x = required_names(g)[0];
        lemma_required_names_are_strings(g);
        let n = x->Str_0;
        lemma_required_iff_marked(ps, loc, n);
        assert(required_names(g).contains(JsonV::Str(n)));
    }
}

proof fn lemma_required_names_are_strings(ps: Seq<ParamV>)
    ensures
        forall|i: int| 0 <= i < required_names(ps).len() ==> (#[trigger] required_names(ps)[i]) is Str,
    decreases ps.len(),
{
    if ps.len() > 0 {
        lemma_required_names_are_strings(ps.drop_last());
        let rd = required_names(ps.drop_last());
        if ps.last().required {
            assert forall|i: int| 0 <= i < required_names(ps).len() implies (#[trigger] required_names(ps)[i]) is Str by {
                if i < rd.len() {
                    assert(required_names(ps)[i] == rd[i]);
                }
            }
        }
    }
}

/// The tool comes from an operation of the document: its input schema is
/// built from that operation's body and parameters.
pub open spec fn built_from_operation(doc: JsonV, t: ToolV) -> bool {
    exists|path: Seq<char>, method: Seq<char>, op: JsonV|
        #[trigger] tool_spec(doc, path, method, op) == Ok::<ToolV, ErrorKind>(t)
}

proof fn lemma_item_tools_built(doc: JsonV, path: Seq<char>, item: JsonV, n: nat)
    requires
        item_tools(doc, path, item, n) is Ok,
    ensures
        forall|i: int|
            0 <= i < item_tools(doc, path, item, n).unwrap().len() ==> built_from_operation(
                doc,
                #[trigger] item_tools(doc, path, item, n).unwrap()[i],
            ),
    decreases n,
{
    if n > 0 {
        lemma_item_tools_built(doc, path, item, (n - 1) as nat);
        let prev = item_tools(doc, path, item, (n - 1) as nat).unwrap();
        match member_v(item, method_key(n - 1)) {
            None => {},
            Some(op) => {
                let t = tool_spec(doc, path, method_name(n - 1), op).unwrap();
                let all = item_tools(doc, path, item, n).unwrap();
                assert(all == prev.push(t));
                assert forall|i: int| 0 <= i < all.len() implies built_from_operation(doc, #[trigger] all[i]) by {
                    if i < prev.len() {
                        assert(all[i] == prev[i]);
                    } else {
                        assert(tool_spec(doc, path, method_name(n - 1), op) == Ok::<ToolV, ErrorKind>(all[i]));
                    }
                }
            },
        }
    }
}

proof fn lemma_paths_built(doc: JsonV, ps: Seq<(Seq<char>, JsonV)>)
    requires
        tools_of_paths(doc, ps) is Ok,
    ensures
        forall|i: int|
            0 <= i < tools_of_paths(doc, ps).unwrap().len() ==> built_from_operation(
                doc,
                #[trigger] tools_of_paths(doc, ps).unwrap()[i],
            ),
    decreases ps.len(),
{
    if ps.len() > 0 {
        lemma_paths_built(doc, ps.drop_last());
        let prev = tools_of_paths(doc, ps.drop_last()).unwrap();
        let ts = path_tools(doc, ps.last().0, ps.last().1).unwrap();
        lemma_item_tools_built(doc, ps.last().0, ps.last().1, METHOD_COUNT as nat);
        let all = tools_of_paths(doc, ps).unwrap();
        assert(all == prev + ts);
        assert forall|i: int| 0 <= i < all.len() implies built_from_operation(doc, #[trigger] all[i]) by {
            if i < prev.len() {
                assert(all[i] == prev[i]);
            } else {
                assert(all[i] == ts[i - prev.len()]);
            }
        }
    }
}

/// Every tool of a synthesised document has an input schema of type
/// `object` whose properties are among `body`, `header`, `query` and
/// `path`.
pub proof fn lemma_synthesized_input_keys(doc: JsonV)
    requires
        synthesize_spec(doc) is Ok,
    ensures
        forall|i: int|
            0 <= i < synthesize_spec(doc).unwrap().len() ==> match member_v(
                (#[trigger] synthesize_spec(doc).unwrap()[i]).input_schema,
                "properties"@,
            ) {
                Some(JsonV::Object(props)) => forall|k: int|
                    0 <= k < props.len() ==> is_input_key(#[trigger] props[k].0),
                _ => false,
            },
{
    lemma_paths_built(doc, paths_of(doc));
    let ts = synthesize_spec(doc).unwrap();
    assert forall|i: int| 0 <= i < ts.len() implies match member_v((#[trigger] ts[i]).input_schema, "properties"@) {
        Some(JsonV::Object(props)) => forall|k: int| 0 <= k < props.len() ==> is_input_key(#[trigger] props[k].0),
        _ => false,
    } by {
        assert(built_from_operation(doc, ts[i]));
        let (path, method, op) = choose|path: Seq<char>, method: Seq<char>, op: JsonV|
            #[trigger] tool_spec(doc, path, method, op) == Ok::<ToolV, ErrorKind>(ts[i]);
        lemma_tool_input_keys(doc, path, method, op);
    }
}

/// Every tool of a synthesised document lists in its top-level `required`
/// a location exactly when one of its operation's parameters at that
/// location is marked required, and `body` exactly when the operation's
/// JSON body is required.
pub proof fn lemma_synthesized_required(doc: JsonV, i: int, loc: ParameterLocation)
    requires
        synthesize_spec(doc) is Ok,
        0 <= i < synthesize_spec(doc).unwrap().len(),
        loc != ParameterLocation::Cookie,
    ensures
        exists|op: JsonV, b: Option<(JsonV, bool)>, ps: Seq<ParamV>|
            #![trigger input_schema_spec(b, ps), body_spec(doc, op)]
            body_spec(doc, op) == Ok::<Option<(JsonV, bool)>, ErrorKind>(b) && params_spec(doc, op_params(op))
                == Ok::<Seq<ParamV>, ErrorKind>(ps) && synthesize_spec(doc).unwrap()[i].input_schema
                == input_schema_spec(b, ps) && (input_required(b, ps).contains(JsonV::Str(loc.name_spec()))
                <==> exists|k: int| 0 <= k < ps.len() && ps[k].loc == loc && ps[k].required) && (
            input_required(b, ps).contains(JsonV::Str("body"@)) <==> b matches Some((_, true))),
{
    lemma_paths_built(doc, paths_of(doc));
    let t = synthesize_spec(doc).unwrap()[i];
    assert(built_from_operation(doc, t));
    let (path, method, op) = choose|path: Seq<char>, method: Seq<char>, op: JsonV|
        #[trigger] tool_spec(doc, path, method, op) == Ok::<ToolV, ErrorKind>(t);
    let b = body_spec(doc, op).unwrap();
    let ps = params_spec(doc, op_params(op)).unwrap();
    lemma_required_membership(b, ps, loc);
}

proof fn lemma_required_membership(b: Option<(JsonV, bool)>, ps: Seq<ParamV>, loc: ParameterLocation)
    requires
        loc != ParameterLocation::Cookie,
    ensures
        input_required(b, ps).contains(JsonV::Str(loc.name_spec())) <==> exists|k: int|
            0 <= k < ps.len() && ps[k].loc == loc && ps[k].required,
        input_required(b, ps).contains(JsonV::Str("body"@)) <==> b matches Some((_, true)),
{
    reveal_strlit("body");
    reveal_strlit("header");
    reveal_strlit("query");
    reveal_strlit("path");
    assert("body"@[0] != "path"@[0]);
    assert("body"@ != "path"@);
    let bb: Seq<JsonV> = match b {
        Some((_, true)) => seq![JsonV::Str("body"@)],
        _ => Seq::empty(),
    };
    let h = group_required(ps, ParameterLocation::Header);
    let q = group_required(ps, ParameterLocation::Query);
    let p = group_required(ps, ParameterLocation::Path);
    let all = input_required(b, ps);
    assert(all == bb + h + q + p);
    lemma_top_required(b, ps, ParameterLocation::Header);
    lemma_top_required(b, ps, ParameterLocation::Query);
    lemma_top_required(b, ps, ParameterLocation::Path);
    lemma_top_required(b, ps, loc);
    let target = JsonV::Str(loc.name_spec());
    assert(h.len() <= 1 && (h.len() == 1 ==> h[0] == JsonV::Str("header"@)));
    assert(q.len() <= 1 && (q.len() == 1 ==> q[0] == JsonV::Str("query"@)));
    assert(p.len() <= 1 && (p.len() == 1 ==> p[0] == JsonV::Str("path"@)));
    assert(bb.len() <= 1 && (bb.len() == 1 ==> bb[0] == JsonV::Str("body"@)));
    assert(JsonV::Str("body"@) != JsonV::Str("path"@));
    assert("header"@.len() == 6 && "query"@.len() == 5 && "path"@.len() == 4 && "body"@.len() == 4);
    assert(loc == ParameterLocation::Header ==> target == JsonV::Str("header"@));
    assert(loc == ParameterLocation::Query ==> target == JsonV::Str("query"@));
    assert(loc == ParameterLocation::Path ==> target == JsonV::Str("path"@));
    assert(loc == ParameterLocation::Header || loc == ParameterLocation::Query || loc == ParameterLocation::Path);
    // each part holds at most its own name
    assert forall|k: int| 0 <= k < all.len() implies (all[k] == JsonV::Str("body"@) <==> k < bb.len()) && (
    all[k] == target <==> ((loc == ParameterLocation::Header && bb.len() <= k < bb.len() + h.len()) || (loc
        == ParameterLocation::Query && bb.len() + h.len() <= k < bb.len() + h.len() + q.len()) || (loc
        == ParameterLocation::Path && bb.len() + h.len() + q.len() <= k))) by {
        if k < bb.len() {
            assert(all[k] == bb[k]);
        } else if k < bb.len() + h.len() {
            assert(all[k] == h[k - bb.len()]);
        } else if k < bb.len() + h.len() + q.len() {
            assert(all[k] == q[k - bb.len() - h.len()]);
        } else {
            assert(all[k] == p[k - bb.len() - h.len() - q.len()]);
        }
    }
    if all.contains(target) {
        let k = choose|k: int| 0 <= k < all.len() && all[k] == target;
    }
    if exists|k: int| 0 <= k < ps.len() && ps[k].loc == loc && ps[k].required {
        if loc == ParameterLocation::Header {
            assert(all[bb.len() as int] == target);
        } else if loc == ParameterLocation::Query {
            assert(all[(bb.len() + h.len()) as int] == target);
        } else {
            assert(all[(bb.len() + h.len() + q.len()) as int] == target);
        }
    }
    if all.contains(JsonV::Str("body"@)) {
        let k = choose|k: int| 0 <= k < all.len() && all[k] == JsonV::Str("body"@);
    }
    if b matches Some((_, true)) {
        assert(all[0] == JsonV::Str("body"@));
    }
}

} // verus!
