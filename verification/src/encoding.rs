//! Base64, as the resources of the service arrive, and JSON, as requests and
//! state files are written.
use crate::text;
use vstd::prelude::*;

verus! {

/// What the standard Base64 decoder makes of a text: the octets, or the text of
/// its error.
pub uninterp spec fn base64_decoded(s: Seq<char>) -> Result<Seq<u8>, Seq<char>>;

/// The contents of a decoder's answer.
pub open spec fn decoded(answer: Result<Vec<u8>, String>) -> Result<Seq<u8>, Seq<char>> {
    match answer {
        Ok(bytes) => Ok(bytes@),
        Err(text) => Err(text@),
    }
}

/// `base64::engine::general_purpose::STANDARD.decode` on the octets of a text:
/// the standard alphabet with padding, or the error that says what is wrong
/// with the text.
#[verifier::external_body]
pub(crate) fn decode_base64(text: &str) -> (r: Result<Vec<u8>, String>)
    ensures
        decoded(r) == base64_decoded(text@),
{
    base64::Engine::decode(&base64::engine::general_purpose::STANDARD, text.as_bytes()).map_err(
        |err| err.to_string(),
    )
}

/// What stands in JSON octets under a key: the member, as JSON, or none where
/// there is no such member. Octets that are not JSON give the text of the
/// parser's error.
pub uninterp spec fn json_member(bytes: Seq<u8>, key: Seq<char>) -> Result<
    Option<Seq<char>>,
    Seq<char>,
>;

/// The text that stands in JSON octets under a key; none where there is no
/// such member or it is not a text.
pub uninterp spec fn json_text(bytes: Seq<u8>, key: Seq<char>) -> Option<Seq<char>>;

/// JSON octets as JSON text, or the text of the parser's error.
pub uninterp spec fn json_value(bytes: Seq<u8>) -> Result<Seq<char>, Seq<char>>;

/// The list of texts that a JSON text holds; none where it holds none.
pub uninterp spec fn json_strings(s: Seq<char>) -> Option<Seq<Seq<char>>>;

/// The contents of what was found under a key.
pub open spec fn found(answer: Result<Option<String>, String>) -> Result<
    Option<Seq<char>>,
    Seq<char>,
> {
    match answer {
        Ok(member) => Ok(text::text_of(member)),
        Err(e) => Err(e@),
    }
}

/// `serde_json::from_slice` into a `serde_json::Value`, and `Value::get`: the
/// member under a key, written as JSON. Not JSON is an error.
#[verifier::external_body]
pub(crate) fn read_member(bytes: &[u8], key: &str) -> (r: Result<Option<String>, String>)
    ensures
        found(r) == json_member(bytes@, key@),
{
    let value: serde_json::Value = serde_json::from_slice(bytes).map_err(|err| err.to_string())?;
    Ok(value.get(key).map(|member| member.to_string()))
}

/// `serde_json::from_slice` into a `serde_json::Value`, `Value::get` and
/// `Value::as_str`: the text under a key.
#[verifier::external_body]
pub(crate) fn read_text(bytes: &[u8], key: &str) -> (r: Option<String>)
    ensures
        text::text_of(r) == json_text(bytes@, key@),
{
    let value: serde_json::Value = serde_json::from_slice(bytes).ok()?;
    Some(value.get(key)?.as_str()?.to_string())
}

/// `serde_json::from_slice` into a `serde_json::Value`, written as JSON again.
#[verifier::external_body]
pub(crate) fn read_value(bytes: &[u8]) -> (r: Result<String, String>)
    ensures
        match r {
            Ok(s) => json_value(bytes@) == Ok::<Seq<char>, Seq<char>>(s@),
            Err(e) => json_value(bytes@) == Err::<Seq<char>, Seq<char>>(e@),
        },
{
    let value: serde_json::Value = serde_json::from_slice(bytes).map_err(|err| err.to_string())?;
    Ok(value.to_string())
}

/// `serde_json::from_str` into a list of texts.
#[verifier::external_body]
pub(crate) fn read_strings(s: &str) -> (r: Option<Vec<String>>)
    ensures
        match r {
            Some(v) => json_strings(s@) == Some(text::strings(v@)),
            None => json_strings(s@) is None,
        },
{
    serde_json::from_str(s).ok()
}

/// `serde_json::to_string_pretty` of a list of texts: a text that the list can
/// be read from again. Texts can always be written.
#[verifier::external_body]
pub(crate) fn write_strings(v: &Vec<String>) -> (r: Result<String, serde_json::Error>)
    ensures
        r is Ok,
        json_strings(r->Ok_0@) == Some(text::strings(v@)),
{
    serde_json::to_string_pretty(v)
}

} // verus!
