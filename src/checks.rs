//! Validity checks that the `http` and `mime` crates make, and the case
//! mapping of `str`. Each is relied on through the function below it.
use vstd::prelude::*;

verus! {

/// Whether `http` accepts the text as a header name.
pub uninterp spec fn header_name_accepted(name: Seq<char>) -> bool;

/// Whether `http` accepts the (upper-case) text as a request method.
pub uninterp spec fn method_accepted(method: Seq<char>) -> bool;

/// The upper-case form of a text, as `str::to_uppercase` gives it.
pub uninterp spec fn upper_of(s: Seq<char>) -> Seq<char>;

/// The `type/subtype` of a `Content-Type` value, where `mime` parses it.
pub uninterp spec fn mime_essence(value: Seq<char>) -> Option<Seq<char>>;

/// A character that `http` allows in a header value: any byte of its UTF-8
/// form is at least 32 and not 127, or it is a tab.
pub open spec fn header_value_char(c: char) -> bool {
    (c as u32 >= 32 && c as u32 != 127) || c == '\t'
}

pub open spec fn header_value_accepted(value: Seq<char>) -> bool {
    forall|i: int| 0 <= i < value.len() ==> header_value_char(#[trigger] value[i])
}

/// Relies on `http::HeaderName::from_bytes`: it refuses the empty name and
/// otherwise decides by its table of token characters.
#[verifier::external_body]
pub fn header_name_ok(name: &str) -> (r: bool)
    ensures
        r == header_name_accepted(name@),
        name@.len() == 0 ==> !r,
{
    http::HeaderName::from_bytes(name.as_bytes()).is_ok()
}

/// Relies on `http::HeaderValue::from_str`: it accepts exactly the texts whose
/// bytes are all at least 32 and not 127, or a tab.
#[verifier::external_body]
pub fn header_value_ok(value: &str) -> (r: bool)
    ensures
        r == header_value_accepted(value@),
{
    http::HeaderValue::from_str(value).is_ok()
}

/// Relies on `http::Method::from_bytes`: it refuses the empty method and
/// otherwise decides by its table of token characters.
#[verifier::external_body]
pub fn method_ok(method: &str) -> (r: bool)
    ensures
        r == method_accepted(method@),
        method@.len() == 0 ==> !r,
{
    http::Method::from_bytes(method.as_bytes()).is_ok()
}

/// Relies on `str::to_uppercase`: the result depends on the text alone, and
/// an empty text stays empty.
#[verifier::external_body]
pub fn to_upper(s: &str) -> (r: String)
    ensures
        r@ == upper_of(s@),
        s@.len() == 0 ==> r@.len() == 0,
{
    s.to_uppercase()
}

/// Relies on `mime::Mime`'s `FromStr`: where the value parses, its type and
/// subtype joined by `/`.
#[verifier::external_body]
pub fn content_type_essence(value: &str) -> (r: Option<String>)
    ensures
        match r {
            Some(e) => mime_essence(value@) == Some(e@),
            None => mime_essence(value@) == None::<Seq<char>>,
        },
{
    match value.parse::<mime::Mime>() {
        Ok(m) => Some(format!("{}/{}", m.type_().as_str(), m.subtype().as_str())),
        Err(_) => None,
    }
}

} // verus!
