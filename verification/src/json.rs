//! The JSON readings the provider responses need, each performed by
//! serde_json behind a named, trusted boundary: every function here parses
//! the given bytes and serializes the value at one fixed path, so its
//! result is a function of the payload bytes alone.
use vstd::prelude::*;

verus! {

/// The serialization of `choices[0].delta.content` in an OpenAI-shaped
/// streaming event, with JSON null standing in where the payload does not
/// parse or the path is absent.
pub uninterp spec fn openai_delta_raw_of(payload: Seq<u8>) -> Seq<u8>;

/// The serialization of the `type` field of an Anthropic-shaped streaming
/// event, JSON null standing in as above.
pub uninterp spec fn anthropic_event_type_raw_of(payload: Seq<u8>) -> Seq<u8>;

/// The serialization of `delta.text` in an Anthropic-shaped streaming
/// event, JSON null standing in as above.
pub uninterp spec fn anthropic_delta_text_raw_of(payload: Seq<u8>) -> Seq<u8>;

/// The serialization of `choices[0].message.content` in an OpenAI-shaped
/// response body, absent when the body is not JSON.
pub uninterp spec fn openai_content_raw_of(body: Seq<u8>) -> Option<Seq<u8>>;

/// The serialization of `content[0].text` in an Anthropic-shaped response
/// body, absent when the body is not JSON.
pub uninterp spec fn anthropic_content_raw_of(body: Seq<u8>) -> Option<Seq<u8>>;

/// The serialization of `candidates[0].content.parts[0].text` in a
/// Gemini-shaped response body, absent when the body is not JSON.
pub uninterp spec fn gemini_content_raw_of(body: Seq<u8>) -> Option<Seq<u8>>;

/// Relies on serde_json (`from_slice`, `Value`'s indexing, and `Value`'s
/// `Display`): parses the event, substituting JSON null when it does not
/// parse, and serializes the value at `choices[0].delta.content`. The
/// serialization of a JSON value is valid UTF-8.
#[verifier::external_body]
pub(crate) fn extract_openai_delta_raw(payload: &Vec<u8>) -> (r: Vec<u8>)
    ensures
        r@ == openai_delta_raw_of(payload@),
        vstd::utf8::valid_utf8(r@),
{
    let v: serde_json::Value = match serde_json::from_slice(payload.as_slice()) {
        Ok(v) => v,
        Err(_) => serde_json::Value::Null,
    };
    v["choices"][0]["delta"]["content"].to_string().into_bytes()
}

/// Relies on serde_json as above: serializes the event's `type` field.
#[verifier::external_body]
pub(crate) fn extract_anthropic_event_type_raw(payload: &Vec<u8>) -> (r: Vec<u8>)
    ensures
        r@ == anthropic_event_type_raw_of(payload@),
        vstd::utf8::valid_utf8(r@),
{
    let v: serde_json::Value = match serde_json::from_slice(payload.as_slice()) {
        Ok(v) => v,
        Err(_) => serde_json::Value::Null,
    };
    v["type"].to_string().into_bytes()
}

/// Relies on serde_json as above: serializes the event's `delta.text`.
#[verifier::external_body]
pub(crate) fn extract_anthropic_delta_text_raw(payload: &Vec<u8>) -> (r: Vec<u8>)
    ensures
        r@ == anthropic_delta_text_raw_of(payload@),
        vstd::utf8::valid_utf8(r@),
{
    let v: serde_json::Value = match serde_json::from_slice(payload.as_slice()) {
        Ok(v) => v,
        Err(_) => serde_json::Value::Null,
    };
    v["delta"]["text"].to_string().into_bytes()
}

/// Relies on serde_json as above: parses a full response body and
/// serializes `choices[0].message.content`; a body that is not JSON gives
/// nothing.
#[verifier::external_body]
pub(crate) fn extract_openai_content_raw(body: &Vec<u8>) -> (r: Option<Vec<u8>>)
    ensures
        r is Some <==> openai_content_raw_of(body@) is Some,
        r is Some ==> r->Some_0@ == openai_content_raw_of(body@)->Some_0,
        r is Some ==> vstd::utf8::valid_utf8(r->Some_0@),
{
    let v: serde_json::Value = match serde_json::from_slice(body.as_slice()) {
        Ok(v) => v,
        Err(_) => {
            return None;
        },
    };
    Some(v["choices"][0]["message"]["content"].to_string().into_bytes())
}

/// Relies on serde_json as above: serializes `content[0].text` of a full
/// response body.
#[verifier::external_body]
pub(crate) fn extract_anthropic_content_raw(body: &Vec<u8>) -> (r: Option<Vec<u8>>)
    ensures
        r is Some <==> anthropic_content_raw_of(body@) is Some,
        r is Some ==> r->Some_0@ == anthropic_content_raw_of(body@)->Some_0,
        r is Some ==> vstd::utf8::valid_utf8(r->Some_0@),
{
    let v: serde_json::Value = match serde_json::from_slice(body.as_slice()) {
        Ok(v) => v,
        Err(_) => {
            return None;
        },
    };
    Some(v["content"][0]["text"].to_string().into_bytes())
}

/// Relies on serde_json as above: serializes
/// `candidates[0].content.parts[0].text` of a full response body.
#[verifier::external_body]
pub(crate) fn extract_gemini_content_raw(body: &Vec<u8>) -> (r: Option<Vec<u8>>)
    ensures
        r is Some <==> gemini_content_raw_of(body@) is Some,
        r is Some ==> r->Some_0@ == gemini_content_raw_of(body@)->Some_0,
        r is Some ==> vstd::utf8::valid_utf8(r->Some_0@),
{
    let v: serde_json::Value = match serde_json::from_slice(body.as_slice()) {
        Ok(v) => v,
        Err(_) => {
            return None;
        },
    };
    Some(v["candidates"][0]["content"]["parts"][0]["text"].to_string().into_bytes())
}

} // verus!
