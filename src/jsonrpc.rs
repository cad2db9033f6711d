//! JSON-RPC 2.0 requests, read from and written to JSON values.
use vstd::prelude::*;

use crate::a2a::{JsonObject, NumberOrString};
use crate::json::{Json, JsonV, member_v, get_member, str_eq, view_fields, lemma_object_view,
    first_index, keys_of, field_v, clone_fields};
use crate::text::{decimal, decimal_string, digit_char};

verus! {

/// A JSON-RPC request: its id, method and named parameters.
pub struct JsonRpcRequest {
    pub id: NumberOrString,
    pub method: String,
    pub params: JsonObject,
}

pub enum IdV {
    Number(nat),
    Text(Seq<char>),
}

pub struct RequestV {
    pub id: IdV,
    pub method: Seq<char>,
    pub params: Seq<(Seq<char>, JsonV)>,
}

impl View for JsonRpcRequest {
    type V = RequestV;

    open spec fn view(&self) -> RequestV {
        RequestV {
            id: match self.id {
                NumberOrString::Number(n) => IdV::Number(n as nat),
                NumberOrString::String(s) => IdV::Text(s@),
            },
            method: self.method@,
            params: view_fields(self.params@),
        }
    }
}

pub open spec fn id_json(id: IdV) -> JsonV {
    match id {
        IdV::Number(n) => JsonV::Number(decimal(n)),
        IdV::Text(s) => JsonV::Str(s),
    }
}

/// A request as a JSON object: `jsonrpc`, `id`, `method`, `params`.
pub open spec fn request_json(r: RequestV) -> JsonV {
    JsonV::Object(
        seq![
            ("jsonrpc"@, JsonV::Str("2.0"@)),
            ("id"@, id_json(r.id)),
            ("method"@, JsonV::Str(r.method)),
            ("params"@, JsonV::Object(r.params)),
        ],
    )
}

pub open spec fn digit_value(c: char) -> Option<nat> {
    if '0' <= c && c <= '9' {
        Some((c as nat - '0' as nat) as nat)
    } else {
        None
    }
}

/// The value of a text of decimal digits; none for an empty text or one
/// with another character.
pub open spec fn digits_value(s: Seq<char>) -> Option<nat>
    decreases s.len(),
{
    if s.len() == 0 {
        None
    } else if s.len() == 1 {
        digit_value(s[0])
    } else {
        match (digits_value(s.drop_last()), digit_value(s.last())) {
            (Some(a), Some(d)) => Some(a * 10 + d),
            _ => None,
        }
    }
}

pub open spec fn id_from_json(j: JsonV) -> Option<IdV> {
    match j {
        JsonV::Number(t) => match digits_value(t) {
            Some(n) => if n <= u32::MAX {
                Some(IdV::Number(n))
            } else {
                None
            },
            None => None,
        },
        JsonV::Str(s) => Some(IdV::Text(s)),
        _ => None,
    }
}

/// The request a JSON value holds: `jsonrpc` must be `"2.0"`, the id a
/// number that fits in 32 bits or a string, the method a string and the
/// parameters an object.
pub open spec fn request_from_json(j: JsonV) -> Option<RequestV> {
    if member_v(j, "jsonrpc"@) != Some(JsonV::Str("2.0"@)) {
        None
    } else {
        match (member_v(j, "id"@), member_v(j, "method"@), member_v(j, "params"@)) {
            (Some(i), Some(JsonV::Str(m)), Some(JsonV::Object(ps))) => match id_from_json(i) {
                Some(id) => Some(RequestV { id, method: m, params: ps }),
                None => None,
            },
            _ => None,
        }
    }
}

proof fn lemma_digit(d: nat)
    requires
        d < 10,
    ensures
        digit_value(digit_char(d)) == Some(d),
{
}

/// Reading back the decimal digits of a number gives the number.
pub proof fn lemma_decimal_value(n: nat)
    ensures
        digits_value(decimal(n)) == Some(n),
    decreases n,
{
    if n < 10 {
        lemma_digit(n);
    } else {
        lemma_decimal_value(n / 10);
        lemma_digit(n % 10);
        let s = decimal(n);
        assert(s.drop_last() =~= decimal(n / 10));
        assert(s.last() == digit_char(n % 10));
        lemma_decimal_len(n / 10);
        assert(n == (n / 10) * 10 + n % 10) by (nonlinear_arith);
    }
}

proof fn lemma_decimal_len(n: nat)
    ensures
        decimal(n).len() >= 1,
    decreases n,
{
    if n >= 10 {
        lemma_decimal_len(n / 10);
    }
}

/// Writing a request as JSON and reading it back gives the same request.
pub proof fn lemma_request_round_trip(r: RequestV)
    requires
        r.id matches IdV::Number(n) ==> n <= u32::MAX,
    ensures
        request_from_json(request_json(r)) == Some(r),
{
    reveal_strlit("jsonrpc");
    reveal_strlit("id");
    reveal_strlit("method");
    reveal_strlit("params");
    let fs = match request_json(r) {
        JsonV::Object(fs) => fs,
        _ => Seq::empty(),
    };
    let keys = keys_of(fs);
    assert(keys[0] == "jsonrpc"@);
    assert(keys[1] == "id"@);
    assert(keys[2] == "method"@);
    assert(keys[3] == "params"@);
    crate::json::lemma_first_index_at(keys, "jsonrpc"@, 0);
    crate::json::lemma_first_index_at(keys, "id"@, 1);
    crate::json::lemma_first_index_at(keys, "method"@, 2);
    assert("method"@ != "params"@) by {
        reveal_strlit("method");
        assert("method"@[0] != "params"@[0]);
    }
    crate::json::lemma_first_index_at(keys, "params"@, 3);
    match r.id {
        IdV::Number(n) => lemma_decimal_value(n),
        IdV::Text(_) => {},
    }
}

proof fn lemma_digits_extend(s: Seq<char>, i: int, j: int)
    requires
        1 <= i <= j <= s.len(),
    ensures
        digits_value(s.subrange(0, i)) is None ==> digits_value(s.subrange(0, j)) is None,
        digits_value(s.subrange(0, i)) is Some && digits_value(s.subrange(0, j)) is Some
            ==> digits_value(s.subrange(0, j)).unwrap() >= digits_value(s.subrange(0, i)).unwrap(),
    decreases j - i,
{
    if i < j {
        lemma_digits_extend(s, i, j - 1);
        let t = s.subrange(0, j);
        assert(t.drop_last() =~= s.subrange(0, j - 1));
        if j - 1 >= 1 {
            match digits_value(s.subrange(0, j - 1)) {
                Some(a) => {
                    match digit_value(t.last()) {
                        Some(d) => {
                            assert(a * 10 + d >= a) by (nonlinear_arith);
                        },
                        None => {},
                    }
                },
                None => {},
            }
        }
    }
}

/// Reads a decimal number that fits in 32 bits.
pub fn parse_u32(s: &str) -> (r: Option<u32>)
    ensures
        match digits_value(s@) {
            Some(v) => if v <= u32::MAX {
                r == Some(v as u32)
            } else {
                r is None
            },
            None => r is None,
        },
{
    let n = s.unicode_len();
    if n == 0 {
        return None;
    }
    let mut acc: u64 = 0;
    let mut i: usize = 0;
    while i < n
        invariant
            n == s@.len(),
            n >= 1,
            i <= n,
            i == 0 ==> acc == 0,
            i >= 1 ==> digits_value(s@.subrange(0, i as int)) == Some(acc as nat),
            acc <= u32::MAX,
        decreases n - i,
    {
        let c = s.get_char(i);
        let ghost pre = s@.subrange(0, i + 1);
        assert(pre.last() == c);
        assert(pre.drop_last() =~= s@.subrange(0, i as int));
        if i == 0 {
            assert(pre.len() == 1);
        }
        if c < '0' || c > '9' {
            proof {
                lemma_digits_extend(s@, i + 1, n as int);
                assert(s@.subrange(0, n as int) =~= s@);
            }
            return None;
        }
        let d = (c as u32 - '0' as u32) as u64;
        acc = acc * 10 + d;
        if acc > 4294967295 {
            proof {
                lemma_digits_extend(s@, i + 1, n as int);
                assert(s@.subrange(0, n as int) =~= s@);
            }
            return None;
        }
        i = i + 1;
    }
    assert(s@.subrange(0, n as int) =~= s@);
    Some(acc as u32)
}

impl JsonRpcRequest {
    /// The request as a JSON object.
    pub fn to_json(&self) -> (r: Json)
        ensures
            r@ == request_json(self@),
    {
        let id = match &self.id {
            NumberOrString::Number(n) => Json::Number(decimal_string(*n)),
            NumberOrString::String(s) => Json::Str(s.clone()),
        };
        assert(id@ == id_json(self@.id));
        let pf = clone_fields(&self.params);
        proof {
            lemma_object_view(pf);
        }
        let params = Json::Object(pf);
        assert(params@ == JsonV::Object(view_fields(self.params@)));
        let mut fs: Vec<(String, Json)> = Vec::new();
        fs.push(("jsonrpc".to_string(), Json::Str("2.0".to_string())));
        fs.push(("id".to_string(), id));
        fs.push(("method".to_string(), Json::Str(self.method.clone())));
        fs.push(("params".to_string(), params));
        proof {
            lemma_object_view(fs);
            assert(view_fields(fs@) =~= seq![
                ("jsonrpc"@, JsonV::Str("2.0"@)),
                ("id"@, id_json(self@.id)),
                ("method"@, JsonV::Str(self.method@)),
                ("params"@, JsonV::Object(view_fields(self.params@))),
            ]);
        }
        Json::Object(fs)
    }

    /// The request that a JSON value holds, as `request_from_json` says.
    pub fn from_json(j: &Json) -> (r: Option<JsonRpcRequest>)
        ensures
            match r {
                Some(x) => request_from_json(j@) == Some(x@),
                None => request_from_json(j@) is None,
            },
    {
        proof {
            reveal_strlit("2.0");
        }
        match get_member(j, "jsonrpc") {
            Some(Json::Str(v)) => {
                if !str_eq(v.as_str(), "2.0") {
                    return None;
                }
            },
            _ => {
                return None;
            },
        }
        let id = match get_member(j, "id") {
            Some(Json::Number(t)) => match parse_u32(t.as_str()) {
                Some(n) => NumberOrString::Number(n),
                None => {
                    return None;
                },
            },
            Some(Json::Str(s)) => NumberOrString::String(s.clone()),
            _ => {
                return None;
            },
        };
        let method = match get_member(j, "method") {
            Some(Json::Str(m)) => m.clone(),
            _ => {
                return None;
            },
        };
        let params = match get_member(j, "params") {
            Some(Json::Object(ps)) => {
                proof {
                    lemma_object_view(*ps);
                }
                clone_fields(ps)
            },
            _ => {
                return None;
            },
        };
        Some(JsonRpcRequest { id, method, params })
    }
}

} // verus!
