//! Turning a tool call on an OpenAPI target into the HTTP request to send.
use vstd::prelude::*;

use crate::checks::{header_name_accepted, header_name_ok, header_value_accepted, header_value_ok,
    method_accepted, method_ok, to_upper, upper_of};
use crate::json::{Json, JsonV, field_v, view_fields, get_field, lemma_object_view};
use crate::text::{replace_all, replace_all_spec, decimal, decimal_string, concat};
use crate::openapi::ToolDefinition;

verus! {

/// The HTTP call behind one synthesised tool.
pub struct UpstreamOpenAPICall {
    /// The method, as the document names it (`GET`, `post`, ...).
    pub method: String,
    /// The path template, with `{name}` placeholders.
    pub path: String,
}

/// A request ready to be sent upstream.
pub struct HttpRequestPlan {
    /// The upper-case method.
    pub method: String,
    pub url: String,
    /// Header names and values, in the order they are set.
    pub headers: Vec<(String, String)>,
    /// The JSON body, where the call has one.
    pub body: Option<Json>,
}

/// Why a call could not be turned into a request.
pub enum CallError {
    /// No tool of that name is offered by the target.
    ToolNotFound(String),
    /// The method of the tool is not a valid HTTP method.
    InvalidMethod(String),
}

// ----- the request, in terms of the views -----

/// The member `k` of the arguments, where it is an object; else no fields.
pub open spec fn sub_object(args: Seq<(Seq<char>, JsonV)>, k: Seq<char>) -> Seq<(Seq<char>, JsonV)> {
    match field_v(args, k) {
        Some(JsonV::Object(fs)) => fs,
        _ => Seq::empty(),
    }
}

/// The text that a path parameter stands for: a string or a number.
pub open spec fn path_text(v: JsonV) -> Option<Seq<char>> {
    match v {
        JsonV::Str(s) => Some(s),
        JsonV::Number(n) => Some(n),
        _ => None,
    }
}

pub open spec fn placeholder(k: Seq<char>) -> Seq<char> {
    seq!['{'] + k + seq!['}']
}

/// The path template with the parameters substituted one after another.
pub open spec fn substitute(path: Seq<char>, params: Seq<(Seq<char>, JsonV)>) -> Seq<char>
    decreases params.len(),
{
    if params.len() == 0 {
        path
    } else {
        let next = match path_text(params[0].1) {
            Some(t) => replace_all_spec(path, placeholder(params[0].0), t),
            None => path,
        };
        substitute(next, params.drop_first())
    }
}

/// `k=v` for each query parameter whose value is a string, in order.
pub open spec fn query_pairs(params: Seq<(Seq<char>, JsonV)>) -> Seq<Seq<char>>
    decreases params.len(),
{
    if params.len() == 0 {
        Seq::empty()
    } else {
        let rest = query_pairs(params.drop_first());
        match params[0].1 {
            JsonV::Str(s) => seq![params[0].0 + seq!['='] + s] + rest,
            _ => rest,
        }
    }
}

/// The pairs joined by `&`.
pub open spec fn join_amp(pairs: Seq<Seq<char>>) -> Seq<char>
    decreases pairs.len(),
{
    if pairs.len() == 0 {
        Seq::empty()
    } else if pairs.len() == 1 {
        pairs[0]
    } else {
        pairs[0] + seq!['&'] + join_amp(pairs.drop_first())
    }
}

/// The query string: empty, or `?` and the joined pairs.
pub open spec fn query_string(params: Seq<(Seq<char>, JsonV)>) -> Seq<char> {
    let pairs = query_pairs(params);
    if pairs.len() == 0 {
        Seq::empty()
    } else {
        seq!['?'] + join_amp(pairs)
    }
}

/// The header parameters that are strings and that `http` accepts, in order.
pub open spec fn header_params(params: Seq<(Seq<char>, JsonV)>) -> Seq<(Seq<char>, Seq<char>)>
    decreases params.len(),
{
    if params.len() == 0 {
        Seq::empty()
    } else {
        let rest = header_params(params.drop_first());
        match params[0].1 {
            JsonV::Str(s) => if header_name_accepted(params[0].0) && header_value_accepted(s) {
                seq![(params[0].0, s)] + rest
            } else {
                rest
            },
            _ => rest,
        }
    }
}

pub open spec fn json_type() -> Seq<char> {
    "application/json"@
}

/// The headers of the request: `Accept`, `Content-Type` where a body is
/// sent, then the header parameters.
pub open spec fn request_headers(args: Seq<(Seq<char>, JsonV)>) -> Seq<(Seq<char>, Seq<char>)> {
    let fixed = if field_v(args, "body"@) is Some {
        seq![("Accept"@, json_type()), ("Content-Type"@, json_type())]
    } else {
        seq![("Accept"@, json_type())]
    };
    fixed + header_params(sub_object(args, "header"@))
}

/// `scheme://host:port` followed by the prefix and the substituted path,
/// and the query string.
pub open spec fn request_url(
    tls: bool,
    host: Seq<char>,
    port: nat,
    prefix: Seq<char>,
    path: Seq<char>,
    args: Seq<(Seq<char>, JsonV)>,
) -> Seq<char> {
    let scheme = if tls {
        "https"@
    } else {
        "http"@
    };
    scheme + "://"@ + host + ":"@ + decimal(port) + prefix + substitute(path, sub_object(args, "path"@))
        + query_string(sub_object(args, "query"@))
}

pub open spec fn header_view(h: Seq<(String, String)>) -> Seq<(Seq<char>, Seq<char>)> {
    h.map_values(|p: (String, String)| (p.0@, p.1@))
}

pub open spec fn opt_json_view(o: Option<Json>) -> Option<JsonV> {
    match o {
        Some(j) => Some(j@),
        None => None,
    }
}

// ----- building it -----

fn sub_fields<'a>(args: &'a Vec<(String, Json)>, key: &str) -> (r: Option<&'a Vec<(String, Json)>>)
    ensures
        match r {
            Some(fs) => view_fields(fs@) == sub_object(view_fields(args@), key@),
            None => sub_object(view_fields(args@), key@) == Seq::<(Seq<char>, JsonV)>::empty(),
        },
{
    match get_field(args, key) {
        Some(Json::Object(fs)) => {
            proof {
                lemma_object_view(*fs);
            }
            Some(fs)
        },
        _ => None,
    }
}

/// Substitutes the path parameters into the template.
pub fn substitute_path(path: &str, params: &Vec<(String, Json)>) -> (r: String)
    ensures
        r@ == substitute(path@, view_fields(params@)),
{
    let ghost pv = view_fields(params@);
    let mut out = String::from_str(path);
    let mut i: usize = 0;
    assert(pv.subrange(0, pv.len() as int) =~= pv);
    while i < params.len()
        invariant
            pv == view_fields(params@),
            pv.len() == params@.len(),
            i <= params@.len(),
            substitute(out@, pv.subrange(i as int, pv.len() as int)) == substitute(path@, pv),
        decreases params@.len() - i,
    {
        let ghost rest = pv.subrange(i as int, pv.len() as int);
        assert(rest[0] == pv[i as int]);
        assert(rest.drop_first() =~= pv.subrange(i + 1, pv.len() as int));
        assert(pv[i as int] == (params@[i as int].0@, params@[i as int].1@));
        let key = &params[i].0;
        let text: Option<&String> = match &params[i].1 {
            Json::Str(s) => Some(s),
            Json::Number(n) => Some(n),
            _ => None,
        };
        match text {
            Some(t) => {
                let open = concat("{", key.as_str());
                let pat = concat(open.as_str(), "}");
                proof {
                    reveal_strlit("{");
                    reveal_strlit("}");
                    assert(pat@ =~= placeholder(key@));
                }
                out = replace_all(out.as_str(), pat.as_str(), t.as_str());
            },
            None => {},
        }
        i = i + 1;
    }
    proof {
        assert(pv.subrange(i as int, pv.len() as int) =~= Seq::<(Seq<char>, JsonV)>::empty());
    }
    out
}

proof fn lemma_join_push(pairs: Seq<Seq<char>>, p: Seq<char>)
    ensures
        join_amp(pairs.push(p)) == if pairs.len() == 0 {
            p
        } else {
            join_amp(pairs) + seq!['&'] + p
        },
    decreases pairs.len(),
{
    if pairs.len() == 0 {
        assert(pairs.push(p) =~= seq![p]);
    } else if pairs.len() == 1 {
        assert(pairs.push(p).drop_first() =~= seq![p]);
        assert(seq![p].len() == 1);
        assert(join_amp(seq![p]) == p);
    } else {
        lemma_join_push(pairs.drop_first(), p);
        assert(pairs.push(p).drop_first() =~= pairs.drop_first().push(p));
        assert(join_amp(pairs.push(p)) =~= join_amp(pairs) + seq!['&'] + p);
    }
}

proof fn lemma_query_pairs_split(params: Seq<(Seq<char>, JsonV)>, i: int)
    requires
        0 <= i < params.len(),
    ensures
        query_pairs(params.subrange(0, i + 1)) == query_pairs(params.subrange(0, i)) + match params[i].1 {
            JsonV::Str(s) => seq![params[i].0 + seq!['='] + s],
            _ => Seq::empty(),
        },
    decreases i,
{
    let a = params.subrange(0, i + 1);
    if i == 0 {
        assert(a.drop_first() =~= Seq::<(Seq<char>, JsonV)>::empty());
        assert(params.subrange(0, 0) =~= Seq::<(Seq<char>, JsonV)>::empty());
    } else {
        let d = params.drop_first();
        lemma_query_pairs_split(d, i - 1);
        assert(a.drop_first() =~= d.subrange(0, i));
        assert(params.subrange(0, i).drop_first() =~= d.subrange(0, i - 1));
        assert(d[i - 1] == params[i]);
        match params[0].1 {
            JsonV::Str(s) => {
                assert(query_pairs(a) =~= seq![params[0].0 + seq!['='] + s] + query_pairs(
                    d.subrange(0, i),
                ));
            },
            _ => {},
        }
    }
}

/// The query string of the call.
pub fn build_query_string(params: &Vec<(String, Json)>) -> (r: String)
    ensures
        r@ == query_string(view_fields(params@)),
{
    let ghost pv = view_fields(params@);
    let mut joined = String::new();
    let mut count: usize = 0;
    let mut i: usize = 0;
    proof {
        reveal_strlit("=");
        reveal_strlit("&");
        reveal_strlit("?");
        assert(pv.subrange(0, 0) =~= Seq::<(Seq<char>, JsonV)>::empty());
    }
    while i < params.len()
        invariant
            pv == view_fields(params@),
            pv.len() == params@.len(),
            i <= params@.len(),
            count as int == query_pairs(pv.subrange(0, i as int)).len(),
            joined@ == join_amp(query_pairs(pv.subrange(0, i as int))),
            count <= i,
        decreases params@.len() - i,
    {
        proof {
            lemma_query_pairs_split(pv, i as int);
            reveal_strlit("=");
            reveal_strlit("&");
        }
        assert(pv[i as int] == (params@[i as int].0@, params@[i as int].1@));
        match &params[i].1 {
            Json::Str(s) => {
                let ghost before = query_pairs(pv.subrange(0, i as int));
                let kv = concat(params[i].0.as_str(), "=");
                let pair = concat(kv.as_str(), s.as_str());
                assert(pv[i as int].1 == JsonV::Str(s@));
                assert(pair@ =~= pv[i as int].0 + seq!['='] + s@);
                proof {
                    lemma_join_push(before, pair@);
                }
                if count > 0 {
                    joined.append("&");
                }
                joined.append(pair.as_str());
                count = count + 1;
                proof {
                    assert(query_pairs(pv.subrange(0, i + 1)) =~= before.push(pair@));
                }
            },
            _ => {
                assert(query_pairs(pv.subrange(0, i + 1)) =~= query_pairs(pv.subrange(0, i as int)));
            },
        }
        i = i + 1;
    }
    assert(pv.subrange(0, pv.len() as int) =~= pv);
    if count == 0 {
        String::new()
    } else {
        concat("?", joined.as_str())
    }
}

proof fn lemma_header_params_split(params: Seq<(Seq<char>, JsonV)>, i: int)
    requires
        0 <= i < params.len(),
    ensures
        header_params(params.subrange(0, i + 1)) == header_params(params.subrange(0, i)) + match params[i].1 {
            JsonV::Str(s) => if header_name_accepted(params[i].0) && header_value_accepted(s) {
                seq![(params[i].0, s)]
            } else {
                Seq::empty()
            },
            _ => Seq::empty(),
        },
    decreases i,
{
    let a = params.subrange(0, i + 1);
    if i == 0 {
        assert(a.drop_first() =~= Seq::<(Seq<char>, JsonV)>::empty());
        assert(params.subrange(0, 0) =~= Seq::<(Seq<char>, JsonV)>::empty());
    } else {
        let d = params.drop_first();
        lemma_header_params_split(d, i - 1);
        assert(a.drop_first() =~= d.subrange(0, i));
        assert(params.subrange(0, i).drop_first() =~= d.subrange(0, i - 1));
        assert(d[i - 1] == params[i]);
        match params[0].1 {
            JsonV::Str(s) => {
                if header_name_accepted(params[0].0) && header_value_accepted(s) {
                    assert(header_params(a) =~= seq![(params[0].0, s)] + header_params(
                        d.subrange(0, i),
                    ));
                }
            },
            _ => {},
        }
    }
}

/// Appends the header parameters that `http` accepts.
fn push_header_params(headers: &mut Vec<(String, String)>, params: &Vec<(String, Json)>)
    ensures
        header_view(final(headers)@) == header_view(old(headers)@) + header_params(view_fields(params@)),
{
    let ghost pv = view_fields(params@);
    let ghost start = header_view(headers@);
    let mut i: usize = 0;
    assert(pv.subrange(0, 0) =~= Seq::<(Seq<char>, JsonV)>::empty());
    assert(start + Seq::<(Seq<char>, Seq<char>)>::empty() =~= start);
    while i < params.len()
        invariant
            pv == view_fields(params@),
            pv.len() == params@.len(),
            i <= params@.len(),
            header_view(headers@) == start + header_params(pv.subrange(0, i as int)),
        decreases params@.len() - i,
    {
        proof {
            lemma_header_params_split(pv, i as int);
        }
        assert(pv[i as int] == (params@[i as int].0@, params@[i as int].1@));
        let ghost before = headers@;
        match &params[i].1 {
            Json::Str(s) => {
                if header_name_ok(params[i].0.as_str()) && header_value_ok(s.as_str()) {
                    headers.push((params[i].0.clone(), s.clone()));
                    assert(header_view(headers@) =~= header_view(before) + seq![(params@[i as int].0@, s@)]);
                }
            },
            _ => {},
        }
        assert(header_view(headers@) =~= start + header_params(pv.subrange(0, i + 1)));
        i = i + 1;
    }
    assert(pv.subrange(0, pv.len() as int) =~= pv);
}

/// The request for a call of the tool `call` on the target at
/// `host:port`, with the server prefix `prefix`, given the call's arguments
/// (absent arguments count as an empty object).
pub fn build_request(
    call: &UpstreamOpenAPICall,
    tls: bool,
    host: &str,
    port: u32,
    prefix: &str,
    args: &Vec<(String, Json)>,
) -> (r: Result<HttpRequestPlan, CallError>)
    ensures
        match r {
            Ok(plan) => {
                &&& method_accepted(upper_of(call.method@))
                &&& plan.method@ == upper_of(call.method@)
                &&& plan.url@ == request_url(
                    tls,
                    host@,
                    port as nat,
                    prefix@,
                    call.path@,
                    view_fields(args@),
                )
                &&& header_view(plan.headers@) == request_headers(view_fields(args@))
                &&& opt_json_view(plan.body) == field_v(view_fields(args@), "body"@)
            },
            Err(CallError::InvalidMethod(m)) => !method_accepted(upper_of(call.method@)) && m@
                == call.method@,
            Err(CallError::ToolNotFound(_)) => false,
        },
{
    let method = to_upper(call.method.as_str());
    if !method_ok(method.as_str()) {
        return Err(CallError::InvalidMethod(call.method.clone()));
    }
    let empty: Vec<(String, Json)> = Vec::new();
    assert(view_fields(empty@) =~= Seq::empty());
    let path_params = match sub_fields(args, "path") {
        Some(f) => f,
        None => &empty,
    };
    let query_params = match sub_fields(args, "query") {
        Some(f) => f,
        None => &empty,
    };
    let header_params_obj = match sub_fields(args, "header") {
        Some(f) => f,
        None => &empty,
    };
    let body = match get_field(args, "body") {
        Some(b) => Some(b.deep_clone()),
        None => None,
    };
    let path = substitute_path(call.path.as_str(), path_params);
    let query = build_query_string(query_params);
    let scheme = if tls {
        "https"
    } else {
        "http"
    };
    let mut url = concat(scheme, "://");
    url.append(host);
    url.append(":");
    let port_text = decimal_string(port);
    url.append(port_text.as_str());
    url.append(prefix);
    url.append(path.as_str());
    url.append(query.as_str());
    let mut headers: Vec<(String, String)> = Vec::new();
    headers.push(("Accept".to_string(), "application/json".to_string()));
    if body.is_some() {
        headers.push(("Content-Type".to_string(), "application/json".to_string()));
    }
    let ghost fixed = header_view(headers@);
    push_header_params(&mut headers, header_params_obj);
    proof {
        if body.is_some() {
            assert(fixed =~= seq![("Accept"@, json_type()), ("Content-Type"@, json_type())]);
        } else {
            assert(fixed =~= seq![("Accept"@, json_type())]);
        }
    }
    Ok(HttpRequestPlan { method, url, headers, body })
}

/// What a tool call comes to: no such tool where no tool has the name;
/// else the request for the first tool of that name, as `build_request`
/// describes, or the refusal of its method.
pub open spec fn tool_request_spec(
    tools: Seq<(ToolDefinition, UpstreamOpenAPICall)>,
    name: Seq<char>,
    tls: bool,
    host: Seq<char>,
    port: nat,
    prefix: Seq<char>,
    a: Seq<(Seq<char>, JsonV)>,
    r: Result<HttpRequestPlan, CallError>,
) -> bool {
    match r {
        Err(CallError::ToolNotFound(n)) => n@ == name && forall|i: int|
            0 <= i < tools.len() ==> tools[i].0.name@ != name,
        _ => exists|i: int|
            0 <= i < tools.len() && tools[i].0.name@ == name && (forall|j: int|
                0 <= j < i ==> tools[j].0.name@ != name) && match r {
                Ok(plan) => {
                    &&& method_accepted(upper_of(tools[i].1.method@))
                    &&& plan.method@ == upper_of(tools[i].1.method@)
                    &&& plan.url@ == request_url(tls, host, port, prefix, tools[i].1.path@, a)
                    &&& header_view(plan.headers@) == request_headers(a)
                    &&& opt_json_view(plan.body) == field_v(a, "body"@)
                },
                Err(CallError::InvalidMethod(m)) => !method_accepted(upper_of(tools[i].1.method@))
                    && m@ == tools[i].1.method@,
                _ => false,
            },
    }
}

/// Finds the tool `name` among a target's tools and builds its request.
pub fn build_tool_request(
    tools: &Vec<(ToolDefinition, UpstreamOpenAPICall)>,
    name: &str,
    tls: bool,
    host: &str,
    port: u32,
    prefix: &str,
    args: Option<Vec<(String, Json)>>,
) -> (r: Result<HttpRequestPlan, CallError>)
    ensures
        tool_request_spec(
            tools@,
            name@,
            tls,
            host@,
            port as nat,
            prefix@,
            match args {
                Some(a) => view_fields(a@),
                None => Seq::empty(),
            },
            r,
        ),
{
    let mut i: usize = 0;
    while i < tools.len()
        invariant
            i <= tools@.len(),
            forall|j: int| 0 <= j < i ==> tools@[j].0.name@ != name@,
        decreases tools@.len() - i,
    {
        if crate::json::str_eq(tools[i].0.name.as_str(), name) {
            let empty: Vec<(String, Json)> = Vec::new();
            let a = match &args {
                Some(a) => a,
                None => &empty,
            };
            assert(view_fields(empty@) =~= Seq::empty());
            return build_request(&tools[i].1, tls, host, port, prefix, a);
        }
        i = i + 1;
    }
    Err(CallError::ToolNotFound(name.to_string()))
}

/// A failed upstream call: the tool, the status and the body.
pub struct UpstreamError {
    pub tool: String,
    pub status: u16,
    pub body: String,
}

/// What the upstream's answer to a call of `tool` becomes: the body on a
/// 2xx status, else an error that carries the tool, the status and the
/// body.
pub fn call_outcome(tool: &str, status: u16, body: String) -> (r: Result<String, UpstreamError>)
    ensures
        200 <= status < 300 ==> (r matches Ok(b) && b == body),
        !(200 <= status < 300) ==> (r matches Err(e) && e.tool@ == tool@ && e.status == status && e.body
            == body),
{
    if 200 <= status && status < 300 {
        Ok(body)
    } else {
        Err(UpstreamError { tool: tool.to_string(), status, body })
    }
}

impl UpstreamError {
    /// The error as a message: the tool, the status and the body.
    pub fn to_string(&self) -> (r: String)
        ensures
            r@ == "upstream call for tool '"@ + self.tool@ + "' failed with status "@ + decimal(
                self.status as nat,
            ) + ": "@ + self.body@,
    {
        let mut s = concat("upstream call for tool '", self.tool.as_str());
        s.append("' failed with status ");
        let st = decimal_string(self.status as u32);
        s.append(st.as_str());
        s.append(": ");
        s.append(self.body.as_str());
        s
    }
}

} // verus!
