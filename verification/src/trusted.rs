//! The boundary to the outside crates. Each function here makes one call
//! into an outside crate; its contract states what that crate's code
//! guarantees, and everything else in this crate is verified against these
//! contracts.

use crate::grammar::{
    has_placeholder_open, header_name_ok, header_value_ok, lower_header, method_token_ok,
};
use vstd::prelude::*;

verus! {

#[verifier::external_type_specification]
#[verifier::external_body]
pub struct ExJsonValue(serde_json::Value);

/// Relies on serde_json::Value's derived Clone: the clone equals its source.
pub assume_specification[ <serde_json::Value as Clone>::clone ](v: &serde_json::Value) -> (r:
    serde_json::Value)
    ensures
        r == *v,
;

/// What `url::Url::parse` followed by `Url::as_str` yields for a given
/// input: `None` where parsing fails, else the normalized URL text (with,
/// for example, a trailing slash added to a bare-authority URL). The result
/// depends on the input text alone.
pub uninterp spec fn url_norm(s: Seq<char>) -> Option<Seq<char>>;

/// Relies on http::Method::from_bytes: it accepts exactly the nonempty
/// strings of HTTP token characters, and an accepted method renders back
/// (via Method::as_str) as its input, so the input itself is returned.
#[verifier::external_body]
pub fn parse_method(s: &str) -> (r: Result<String, ()>)
    ensures
        r is Ok <==> method_token_ok(s@),
        r matches Ok(m) ==> m@ == s@,
{
    match http::Method::from_bytes(s.as_bytes()) {
        Ok(_) => Ok(s.to_owned()),
        Err(_) => Err(()),
    }
}

/// Relies on url::Url::parse: whether it succeeds and what `Url::as_str`
/// then shows are functions of the input text alone.
#[verifier::external_body]
pub fn parse_url(s: &str) -> (r: Result<String, ()>)
    ensures
        r is Ok <==> url_norm(s@) is Some,
        r matches Ok(u) ==> Some(u@) == url_norm(s@),
{
    match url::Url::parse(s) {
        Ok(u) => Ok(u.as_str().to_owned()),
        Err(_) => Err(()),
    }
}

/// Relies on http::HeaderName::from_bytes: it accepts exactly the strings of
/// 1 to 65535 HTTP token characters, normalizing ASCII uppercase letters to
/// lowercase, and HeaderName::as_str returns that normalized name.
#[verifier::external_body]
pub fn parse_header_name(s: &str) -> (r: Result<String, ()>)
    ensures
        r is Ok <==> header_name_ok(s@),
        r matches Ok(m) ==> m@ == lower_header(s@),
{
    match http::HeaderName::from_bytes(s.as_bytes()) {
        Ok(n) => Ok(n.as_str().to_owned()),
        Err(_) => Err(()),
    }
}

/// Relies on http::HeaderValue::from_bytes: it accepts exactly the strings
/// whose bytes are horizontal tab, or at least 32 and not 127, and keeps the
/// bytes as given, so the input itself is returned.
#[verifier::external_body]
pub fn parse_header_value(s: &str) -> (r: Result<String, ()>)
    ensures
        r is Ok <==> header_value_ok(s@),
        r matches Ok(v) ==> v@ == s@,
{
    match http::HeaderValue::from_bytes(s.as_bytes()) {
        Ok(_) => Ok(s.to_owned()),
        Err(_) => Err(()),
    }
}

/// What rendering a template against variable entries yields: `None` where
/// the render fails (a malformed template, or an unresolved placeholder in
/// strict mode), else the expanded text. With a fixed registry the render is
/// a function of the template text and the entries alone; entries are looked
/// up by key, a repeated key binding to its last value.
pub uninterp spec fn render_of(tpl: Seq<char>, vars: Seq<(String, serde_json::Value)>) -> Option<
    Seq<char>,
>;

/// Relies on handlebars::Handlebars::render_template, run in strict mode so
/// that an unresolved placeholder fails the render instead of silently
/// substituting empty text: template text without a `{{` opener is raw text
/// and renders unchanged, and strict-mode lookups never fire on it.
#[verifier::external_body]
pub fn render_template(tpl: &str, vars: &Vec<(String, serde_json::Value)>) -> (r: Result<
    String,
    (),
>)
    ensures
        r is Ok <==> render_of(tpl@, vars@) is Some,
        r matches Ok(t) ==> Some(t@) == render_of(tpl@, vars@),
        !has_placeholder_open(tpl@) ==> r is Ok,
        r matches Ok(t) ==> (!has_placeholder_open(tpl@) ==> t@ == tpl@),
{
    let data: serde_json::Map<String, serde_json::Value> = vars.iter().cloned().collect();
    let mut reg = handlebars::Handlebars::new();
    reg.set_strict_mode(true);
    match reg.render_template(tpl, &serde_json::Value::Object(data)) {
        Ok(t) => Ok(t),
        Err(_) => Err(()),
    }
}

/// What deserializing text as a JSON object yields: `None` where the text is
/// not a well-formed JSON document with an object at its top level, else the
/// object's entries in the map's order. The result depends on the text alone.
pub uninterp spec fn env_entries_of(s: Seq<char>) -> Option<Seq<(String, serde_json::Value)>>;

/// Relies on serde_json::from_str for serde_json::Map<String, Value>: it
/// succeeds exactly when the top-level JSON value is an object, and an
/// object's keys come out distinct (a repeated key keeps its last value).
#[verifier::external_body]
pub fn parse_env_object(s: &str) -> (r: Result<Vec<(String, serde_json::Value)>, ()>)
    ensures
        r is Ok <==> env_entries_of(s@) is Some,
        r matches Ok(v) ==> Some(v@) == env_entries_of(s@),
        r matches Ok(v) ==> forall|i: int, j: int|
            0 <= i < j < v@.len() ==> (#[trigger] v@[i]).0@ != (#[trigger] v@[j]).0@,
{
    match serde_json::from_str::<serde_json::Map<String, serde_json::Value>>(s) {
        Ok(m) => Ok(m.into_iter().collect()),
        Err(_) => Err(()),
    }
}

} // verus!
