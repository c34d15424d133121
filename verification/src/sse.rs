//! Server-Sent-Event stream parsing: line classification, delta decoding
//! (one layer of JSON string quoting stripped and the short escapes
//! undone), and whole-stream processing for the two streaming provider
//! shapes. Reading lines off the socket stays with the caller; everything
//! here is a function of the bytes.
use vstd::prelude::*;
use vstd::utf8::{
    is_continuation_byte, length_of_first_scalar, pop_first_scalar, valid_first_scalar,
    valid_utf8, valid_utf8_concat, valid_utf8_split,
};
use vstd::string::{StrSliceExecFns, StringSliceAdditionalSpecFns};

use crate::http::{bytes_eq, trim_ws, trim_ws_exec};
use crate::http::{ApiProvider, ClientError};
use crate::json::{
    anthropic_content_raw_of, extract_anthropic_content_raw, extract_gemini_content_raw,
    extract_openai_content_raw, gemini_content_raw_of, openai_content_raw_of,
    anthropic_delta_text_raw_of, anthropic_event_type_raw_of, extract_anthropic_delta_text_raw,
    extract_anthropic_event_type_raw, extract_openai_delta_raw, openai_delta_raw_of,
};

verus! {

/// Whether `p` is a prefix of `s`.
pub open spec fn starts_with(s: Seq<u8>, p: Seq<u8>) -> bool {
    p.len() <= s.len() && s.subrange(0, p.len() as int) == p
}

/// Tests whether `v` starts with the bytes of `p`.
pub fn starts_with_bytes(v: &Vec<u8>, p: &Vec<u8>) -> (r: bool)
    ensures
        r == starts_with(v@, p@),
{
    if p.len() > v.len() {
        return false;
    }
    let mut i: usize = 0;
    while i < p.len()
        invariant
            i <= p@.len() <= v@.len(),
            forall|j: int| 0 <= j < i ==> v@[j] == p@[j],
        decreases p@.len() - i,
    {
        if v[i] != p[i] {
            proof {
                assert(v@.subrange(0, p@.len() as int)[i as int] == v@[i as int]);
            }
            return false;
        }
        i = i + 1;
    }
    proof {
        assert(v@.subrange(0, p@.len() as int) =~= p@);
    }
    true
}

/// One backslash escape undone: the `\n`, `\"`, `\'` and `\\` escapes
/// become their plain byte; any other backslash pair is kept as it stands.
pub open spec fn unescape_pair(c: u8) -> Seq<u8> {
    if c == 0x6e {
        seq![0x0au8]
    } else if c == 0x22 {
        seq![0x22u8]
    } else if c == 0x27 {
        seq![0x27u8]
    } else if c == 0x5c {
        seq![0x5cu8]
    } else {
        seq![0x5cu8, c]
    }
}

/// `s` with its backslash escapes undone, left to right. Only an ASCII
/// byte after the backslash forms an escape, so multi-byte characters pass
/// through whole.
pub open spec fn spec_unescape(s: Seq<u8>) -> Seq<u8>
    decreases s.len(),
{
    if s.len() == 0 {
        Seq::<u8>::empty()
    } else if s.len() >= 2 && s[0] == 0x5c && s[1] < 0x80 {
        unescape_pair(s[1]) + spec_unescape(s.subrange(2, s.len() as int))
    } else {
        seq![s[0]] + spec_unescape(s.subrange(1, s.len() as int))
    }
}

/// Undoes the backslash escapes of `v`, as [`spec_unescape`] describes.
pub fn unescape(v: &Vec<u8>) -> (r: Vec<u8>)
    ensures
        r@ == spec_unescape(v@),
{
    let n = v.len();
    let mut r: Vec<u8> = Vec::new();
    let mut i: usize = 0;
    proof {
        assert(v@.subrange(0, n as int) =~= v@);
        assert(r@ + spec_unescape(v@) =~= spec_unescape(v@));
    }
    while i < n
        invariant
            i <= n,
            n == v@.len(),
            spec_unescape(v@) == r@ + spec_unescape(v@.subrange(i as int, n as int)),
        decreases n - i,
    {
        let ghost seg = v@.subrange(i as int, n as int);
        if i + 1 < n && v[i] == 0x5c && v[i + 1] < 0x80 {
            let c = v[i + 1];
            proof {
                assert(seg[0] == v@[i as int]);
                assert(seg[1] == v@[i + 1]);
                assert(seg.subrange(2, seg.len() as int) =~= v@.subrange(i + 2, n as int));
            }
            if c == 0x6e {
                r.push(0x0a);
            } else if c == 0x22 {
                r.push(0x22);
            } else if c == 0x27 {
                r.push(0x27);
            } else if c == 0x5c {
                r.push(0x5c);
            } else {
                r.push(0x5c);
                r.push(c);
            }
            proof {
                assert(spec_unescape(v@) =~= r@ + spec_unescape(v@.subrange(i + 2, n as int)));
            }
            i = i + 2;
        } else {
            proof {
                assert(seg[0] == v@[i as int]);
                assert(seg.subrange(1, seg.len() as int) =~= v@.subrange(i + 1, n as int));
            }
            r.push(v[i]);
            proof {
                assert(spec_unescape(v@) =~= r@ + spec_unescape(v@.subrange(i + 1, n as int)));
            }
            i = i + 1;
        }
    }
    proof {
        assert(v@.subrange(n as int, n as int) =~= Seq::<u8>::empty());
        assert(r@ + Seq::<u8>::empty() =~= r@);
    }
    r
}

/// `s` with one layer of double quotes removed, where both ends carry one.
pub open spec fn strip_quotes(s: Seq<u8>) -> Seq<u8> {
    if s.len() >= 2 && s[0] == 0x22 && s.last() == 0x22 {
        s.subrange(1, s.len() - 1)
    } else {
        s
    }
}

/// Removes one layer of double quotes, as [`strip_quotes`] says.
fn strip_quotes_exec(v: &Vec<u8>) -> (r: Vec<u8>)
    ensures
        r@ == strip_quotes(v@),
{
    if v.len() >= 2 && v[0] == 0x22 && v[v.len() - 1] == 0x22 {
        let mut out: Vec<u8> = Vec::new();
        let mut i: usize = 1;
        let stop = v.len() - 1;
        while i < stop
            invariant
                1 <= i <= stop <= v@.len(),
                stop == v@.len() - 1,
                out@ == v@.subrange(1, i as int),
            decreases stop - i,
        {
            proof {
                assert(out@.push(v@[i as int]) =~= v@.subrange(1, i + 1));
            }
            out.push(v[i]);
            i = i + 1;
        }
        out
    } else {
        crate::text::copy_bytes(v)
    }
}

/// The delta carried by a serialized JSON value: nothing for the null
/// serialization, else the text with its quotes stripped and escapes
/// undone.
pub open spec fn spec_decode_delta(raw: Seq<u8>) -> Option<Seq<u8>> {
    if raw == vstd::utf8::encode_utf8("null"@) {
        None
    } else {
        Some(strip_quotes(spec_unescape(raw)))
    }
}

/// Decodes a serialized JSON value into a delta, as [`spec_decode_delta`]
/// describes.
pub fn decode_delta(raw: &Vec<u8>) -> (r: Option<Vec<u8>>)
    requires
        valid_utf8(raw@),
    ensures
        r is Some <==> spec_decode_delta(raw@) is Some,
        r is Some ==> r->Some_0@ == spec_decode_delta(raw@)->Some_0,
        r is Some ==> valid_utf8(r->Some_0@),
{
    proof {
        lemma_unescape_valid(raw@);
        lemma_strip_quotes_valid(spec_unescape(raw@));
    }
    let null_lit = "null".as_bytes_vec();
    if bytes_eq(raw, &null_lit) {
        return None;
    }
    let un = unescape(raw);
    Some(strip_quotes_exec(&un))
}

/// What one SSE line means to the stream consumer.
pub enum StreamStep {
    Delta(Vec<u8>),
    Done,
    Skip,
}

/// The payload of a data line: the bytes after `data: `, trimmed.
pub open spec fn data_payload(line: Seq<u8>) -> Seq<u8> {
    trim_ws(line.subrange(6, line.len() as int))
}

/// Whether a data line ends the stream: an empty payload or `[DONE]`.
pub open spec fn is_done_payload(p: Seq<u8>) -> bool {
    p.len() == 0 || p == vstd::utf8::encode_utf8("[DONE]"@)
}

/// Whether a line is an SSE data line.
pub open spec fn is_data_line(line: Seq<u8>) -> bool {
    starts_with(line, vstd::utf8::encode_utf8("data: "@))
}

/// Whether a line is the Anthropic end-of-message event line.
pub open spec fn is_stop_line(line: Seq<u8>) -> bool {
    starts_with(line, vstd::utf8::encode_utf8("event: message_stop"@))
}

/// Reads the payload of a data line out of `line`.
fn data_payload_exec(line: &Vec<u8>) -> (r: Vec<u8>)
    requires
        line@.len() >= 6,
    ensures
        r@ == data_payload(line@),
{
    let mut run: Vec<u8> = Vec::new();
    let mut i: usize = 6;
    while i < line.len()
        invariant
            6 <= i <= line@.len(),
            run@ == line@.subrange(6, i as int),
        decreases line@.len() - i,
    {
        proof {
            assert(run@.push(line@[i as int]) =~= line@.subrange(6, i + 1));
        }
        run.push(line[i]);
        i = i + 1;
    }
    trim_ws_exec(&run)
}

/// What an OpenAI-shaped stream does with one line, as a function of the
/// line bytes: a data line carrying `[DONE]` or nothing ends the stream, a
/// data line with a decodable delta emits it, and anything else is skipped.
pub open spec fn spec_openai_step(line: Seq<u8>) -> Option<Option<Seq<u8>>> {
    if is_data_line(line) {
        let p = data_payload(line);
        if is_done_payload(p) {
            None
        } else {
            Some(spec_decode_delta(openai_delta_raw_of(p)))
        }
    } else {
        Some(None)
    }
}

/// Processes one line of an OpenAI-shaped stream. `Done` when the spec
/// says the stream ends, `Delta` for an emitted fragment, `Skip` otherwise.
pub fn openai_stream_step(line: &Vec<u8>) -> (r: StreamStep)
    ensures
        spec_openai_step(line@) is None <==> r is Done,
        spec_openai_step(line@) matches Some(d) ==> {
            &&& (d is Some <==> r is Delta)
            &&& (d matches Some(bytes) ==> r matches StreamStep::Delta(v) && v@ == bytes)
        },
        r matches StreamStep::Delta(v) ==> valid_utf8(v@),
{
    let data_prefix = "data: ".as_bytes_vec();
    if !starts_with_bytes(line, &data_prefix) {
        return StreamStep::Skip;
    }
    proof {
        reveal_strlit("data: ");
        vstd::utf8::is_ascii_chars_encode_utf8("data: "@);
        assert(vstd::utf8::encode_utf8("data: "@).len() == 6);
    }
    let payload = data_payload_exec(line);
    let done_lit = "[DONE]".as_bytes_vec();
    if payload.len() == 0 || bytes_eq(&payload, &done_lit) {
        return StreamStep::Done;
    }
    let raw = extract_openai_delta_raw(&payload);
    match decode_delta(&raw) {
        Some(d) => StreamStep::Delta(d),
        None => StreamStep::Skip,
    }
}

/// What an Anthropic-shaped stream does with one line: a
/// `event: message_stop` line ends the stream before any data line after
/// it is looked at; a data line emits `delta.text` only on
/// `content_block_delta` events.
pub open spec fn spec_anthropic_step(line: Seq<u8>) -> Option<Option<Seq<u8>>> {
    if is_stop_line(line) {
        None
    } else if is_data_line(line) {
        let p = data_payload(line);
        if is_done_payload(p) {
            None
        } else if anthropic_event_type_raw_of(p) == vstd::utf8::encode_utf8(
            "\"content_block_delta\""@,
        ) {
            Some(spec_decode_delta(anthropic_delta_text_raw_of(p)))
        } else {
            Some(None)
        }
    } else {
        Some(None)
    }
}

/// Processes one line of an Anthropic-shaped stream.
pub fn anthropic_stream_step(line: &Vec<u8>) -> (r: StreamStep)
    ensures
        spec_anthropic_step(line@) is None <==> r is Done,
        spec_anthropic_step(line@) matches Some(d) ==> {
            &&& (d is Some <==> r is Delta)
            &&& (d matches Some(bytes) ==> r matches StreamStep::Delta(v) && v@ == bytes)
        },
        r matches StreamStep::Delta(v) ==> valid_utf8(v@),
{
    let stop_prefix = "event: message_stop".as_bytes_vec();
    if starts_with_bytes(line, &stop_prefix) {
        return StreamStep::Done;
    }
    let data_prefix = "data: ".as_bytes_vec();
    if !starts_with_bytes(line, &data_prefix) {
        return StreamStep::Skip;
    }
    proof {
        reveal_strlit("data: ");
        vstd::utf8::is_ascii_chars_encode_utf8("data: "@);
        assert(vstd::utf8::encode_utf8("data: "@).len() == 6);
    }
    let payload = data_payload_exec(line);
    let done_lit = "[DONE]".as_bytes_vec();
    if payload.len() == 0 || bytes_eq(&payload, &done_lit) {
        return StreamStep::Done;
    }
    let event_type = extract_anthropic_event_type_raw(&payload);
    let wanted = "\"content_block_delta\"".as_bytes_vec();
    if !bytes_eq(&event_type, &wanted) {
        return StreamStep::Skip;
    }
    let raw = extract_anthropic_delta_text_raw(&payload);
    match decode_delta(&raw) {
        Some(d) => StreamStep::Delta(d),
        None => StreamStep::Skip,
    }
}

/// The deltas an OpenAI-shaped stream of lines yields, in order, up to the
/// line that ends the stream.
pub open spec fn spec_openai_deltas(lines: Seq<Seq<u8>>) -> Seq<Seq<u8>>
    decreases lines.len(),
{
    if lines.len() == 0 {
        Seq::<Seq<u8>>::empty()
    } else {
        match spec_openai_step(lines[0]) {
            None => Seq::<Seq<u8>>::empty(),
            Some(None) => spec_openai_deltas(lines.drop_first()),
            Some(Some(d)) => seq![d] + spec_openai_deltas(lines.drop_first()),
        }
    }
}

/// The deltas an Anthropic-shaped stream of lines yields: nothing at or
/// after the first terminating line is looked at.
pub open spec fn spec_anthropic_deltas(lines: Seq<Seq<u8>>) -> Seq<Seq<u8>>
    decreases lines.len(),
{
    if lines.len() == 0 {
        Seq::<Seq<u8>>::empty()
    } else {
        match spec_anthropic_step(lines[0]) {
            None => Seq::<Seq<u8>>::empty(),
            Some(None) => spec_anthropic_deltas(lines.drop_first()),
            Some(Some(d)) => seq![d] + spec_anthropic_deltas(lines.drop_first()),
        }
    }
}

/// Processes a whole OpenAI-shaped stream, returning its deltas in order.
pub fn process_openai_sse_lines(lines: &Vec<Vec<u8>>) -> (r: Vec<Vec<u8>>)
    ensures
        forall|i: int| 0 <= i < r@.len() ==> valid_utf8((#[trigger] r@[i])@),
        r@.map_values(|d: Vec<u8>| d@) == spec_openai_deltas(lines@.map_values(|l: Vec<u8>| l@)),
{
    let ghost model = lines@.map_values(|l: Vec<u8>| l@);
    let mut r: Vec<Vec<u8>> = Vec::new();
    let mut i: usize = 0;
    proof {
        assert(model.subrange(0, model.len() as int) =~= model);
        assert(r@.map_values(|d: Vec<u8>| d@) =~= Seq::<Seq<u8>>::empty());
        assert(r@.map_values(|d: Vec<u8>| d@) + spec_openai_deltas(model) =~= spec_openai_deltas(model));
    }
    while i < lines.len()
        invariant
            i <= lines@.len(),
            model == lines@.map_values(|l: Vec<u8>| l@),
            forall|k: int| 0 <= k < r@.len() ==> valid_utf8((#[trigger] r@[k])@),
            spec_openai_deltas(model) == r@.map_values(|d: Vec<u8>| d@) + spec_openai_deltas(
                model.subrange(i as int, model.len() as int),
            ),
        decreases lines@.len() - i,
    {
        let ghost seg = model.subrange(i as int, model.len() as int);
        proof {
            assert(seg[0] == model[i as int]);
            assert(model[i as int] == lines@[i as int]@);
            assert(seg.drop_first() =~= model.subrange(i + 1, model.len() as int));
        }
        match openai_stream_step(&lines[i]) {
            StreamStep::Done => {
                proof {
                    assert(r@.map_values(|d: Vec<u8>| d@) + Seq::<Seq<u8>>::empty()
                        =~= r@.map_values(|d: Vec<u8>| d@));
                }
                return r;
            },
            StreamStep::Delta(d) => {
                proof {
                    assert(r@.push(d).map_values(|x: Vec<u8>| x@) =~= r@.map_values(
                        |x: Vec<u8>| x@,
                    ).push(d@));
                    assert(r@.map_values(|x: Vec<u8>| x@) + (seq![d@] + spec_openai_deltas(
                        seg.drop_first(),
                    )) =~= r@.map_values(|x: Vec<u8>| x@).push(d@) + spec_openai_deltas(
                        seg.drop_first(),
                    ));
                }
                r.push(d);
            },
            StreamStep::Skip => {},
        }
        i = i + 1;
    }
    proof {
        assert(model.subrange(model.len() as int, model.len() as int) =~= Seq::<Seq<u8>>::empty());
        assert(r@.map_values(|d: Vec<u8>| d@) + Seq::<Seq<u8>>::empty() =~= r@.map_values(
            |d: Vec<u8>| d@,
        ));
    }
    r
}

/// Processes a whole Anthropic-shaped stream, returning its deltas in
/// order; nothing past a `event: message_stop` line is processed.
pub fn process_anthropic_sse_lines(lines: &Vec<Vec<u8>>) -> (r: Vec<Vec<u8>>)
    ensures
        forall|i: int| 0 <= i < r@.len() ==> valid_utf8((#[trigger] r@[i])@),
        r@.map_values(|d: Vec<u8>| d@) == spec_anthropic_deltas(
            lines@.map_values(|l: Vec<u8>| l@),
        ),
{
    let ghost model = lines@.map_values(|l: Vec<u8>| l@);
    let mut r: Vec<Vec<u8>> = Vec::new();
    let mut i: usize = 0;
    proof {
        assert(model.subrange(0, model.len() as int) =~= model);
        assert(r@.map_values(|d: Vec<u8>| d@) =~= Seq::<Seq<u8>>::empty());
        assert(r@.map_values(|d: Vec<u8>| d@) + spec_anthropic_deltas(model) =~= spec_anthropic_deltas(model));
    }
    while i < lines.len()
        invariant
            i <= lines@.len(),
            model == lines@.map_values(|l: Vec<u8>| l@),
            forall|k: int| 0 <= k < r@.len() ==> valid_utf8((#[trigger] r@[k])@),
            spec_anthropic_deltas(model) == r@.map_values(|d: Vec<u8>| d@)
                + spec_anthropic_deltas(model.subrange(i as int, model.len() as int)),
        decreases lines@.len() - i,
    {
        let ghost seg = model.subrange(i as int, model.len() as int);
        proof {
            assert(seg[0] == model[i as int]);
            assert(model[i as int] == lines@[i as int]@);
            assert(seg.drop_first() =~= model.subrange(i + 1, model.len() as int));
        }
        match anthropic_stream_step(&lines[i]) {
            StreamStep::Done => {
                proof {
                    assert(r@.map_values(|d: Vec<u8>| d@) + Seq::<Seq<u8>>::empty()
                        =~= r@.map_values(|d: Vec<u8>| d@));
                }
                return r;
            },
            StreamStep::Delta(d) => {
                proof {
                    assert(r@.push(d).map_values(|x: Vec<u8>| x@) =~= r@.map_values(
                        |x: Vec<u8>| x@,
                    ).push(d@));
                    assert(r@.map_values(|x: Vec<u8>| x@) + (seq![d@] + spec_anthropic_deltas(
                        seg.drop_first(),
                    )) =~= r@.map_values(|x: Vec<u8>| x@).push(d@) + spec_anthropic_deltas(
                        seg.drop_first(),
                    ));
                }
                r.push(d);
            },
            StreamStep::Skip => {},
        }
        i = i + 1;
    }
    proof {
        assert(model.subrange(model.len() as int, model.len() as int) =~= Seq::<Seq<u8>>::empty());
        assert(r@.map_values(|d: Vec<u8>| d@) + Seq::<Seq<u8>>::empty() =~= r@.map_values(
            |d: Vec<u8>| d@,
        ));
    }
    r
}

/// An Anthropic-shaped stream terminates at a `event: message_stop` line:
/// whatever data lines follow it in the buffer, the deltas are exactly
/// those of the lines before it.
pub proof fn lemma_anthropic_stop_terminates(
    prefix: Seq<Seq<u8>>,
    stop_line: Seq<u8>,
    suffix: Seq<Seq<u8>>,
)
    requires
        is_stop_line(stop_line),
    ensures
        spec_anthropic_deltas(prefix + seq![stop_line] + suffix) == spec_anthropic_deltas(
            prefix + seq![stop_line],
        ),
    decreases prefix.len(),
{
    if prefix.len() == 0 {
        assert((prefix + seq![stop_line] + suffix)[0] == stop_line);
        assert((prefix + seq![stop_line])[0] == stop_line);
        assert(spec_anthropic_step(stop_line) is None);
    } else {
        let whole = prefix + seq![stop_line] + suffix;
        let short = prefix + seq![stop_line];
        assert(whole[0] == prefix[0]);
        assert(short[0] == prefix[0]);
        lemma_anthropic_stop_terminates(prefix.drop_first(), stop_line, suffix);
        assert(whole.drop_first() =~= prefix.drop_first() + seq![stop_line] + suffix);
        assert(short.drop_first() =~= prefix.drop_first() + seq![stop_line]);
    }
}


/// The content a full (non-streaming) response body carries for a
/// provider: the serialized value at the provider's content path, with its
/// quotes stripped and escapes undone; a body that is not JSON is a
/// payload error.
pub open spec fn spec_response_content(provider: ApiProvider, body: Seq<u8>) -> Option<Seq<u8>> {
    let raw = match provider {
        ApiProvider::OpenAi => openai_content_raw_of(body),
        ApiProvider::Groq => openai_content_raw_of(body),
        ApiProvider::Anthropic => anthropic_content_raw_of(body),
        ApiProvider::Gemini => gemini_content_raw_of(body),
    };
    match raw {
        None => None,
        Some(v) => Some(strip_quotes(spec_unescape(v))),
    }
}

/// Extracts the reply text out of a full response body, as
/// [`spec_response_content`] describes.
pub fn extract_response_content(provider: ApiProvider, body: &Vec<u8>) -> (r: Result<
    Vec<u8>,
    ClientError,
>)
    ensures
        r is Ok <==> spec_response_content(provider, body@) is Some,
        r is Ok ==> r->Ok_0@ == spec_response_content(provider, body@)->Some_0,
        r is Ok ==> valid_utf8(r->Ok_0@),
        r is Err ==> r->Err_0 is Payload,
{
    let raw = match provider {
        ApiProvider::OpenAi => extract_openai_content_raw(body),
        ApiProvider::Groq => extract_openai_content_raw(body),
        ApiProvider::Anthropic => extract_anthropic_content_raw(body),
        ApiProvider::Gemini => extract_gemini_content_raw(body),
    };
    let raw = match raw {
        Some(v) => v,
        None => {
            return Err(ClientError::Payload);
        },
    };
    proof {
        lemma_unescape_valid(raw@);
        lemma_strip_quotes_valid(spec_unescape(raw@));
    }
    let un = unescape(&raw);
    Ok(strip_quotes_exec(&un))
}


/// An ASCII byte on its own is valid UTF-8.
proof fn lemma_ascii_byte_valid(b: u8)
    requires
        b < 0x80,
    ensures
        valid_utf8(seq![b]),
{
    let s = seq![b];
    assert(valid_first_scalar(s));
    assert(length_of_first_scalar(s) == 1);
    assert(pop_first_scalar(s) =~= Seq::<u8>::empty());
    assert(valid_utf8(Seq::<u8>::empty()));
}

/// Two ASCII bytes together are valid UTF-8.
proof fn lemma_ascii_pair_valid(a: u8, b: u8)
    requires
        a < 0x80,
        b < 0x80,
    ensures
        valid_utf8(seq![a, b]),
{
    lemma_ascii_byte_valid(a);
    lemma_ascii_byte_valid(b);
    valid_utf8_concat(seq![a], seq![b]);
    assert(seq![a] + seq![b] =~= seq![a, b]);
}

/// Undoing escapes preserves UTF-8 validity: escapes are recognized only
/// on ASCII pairs and replaced by ASCII, and multi-byte characters pass
/// through byte for byte.
pub proof fn lemma_unescape_valid(s: Seq<u8>)
    requires
        valid_utf8(s),
    ensures
        valid_utf8(spec_unescape(s)),
    decreases s.len(),
{
    if s.len() == 0 {
        assert(valid_utf8(spec_unescape(s)));
    } else {
        assert(valid_first_scalar(s));
        let l = length_of_first_scalar(s);
        assert(1 <= l <= s.len());
        assert(valid_utf8(pop_first_scalar(s)));
        if s.len() >= 2 && s[0] == 0x5c && s[1] < 0x80 {
            // An escape pair: two one-byte characters leave, ASCII arrives.
            let rest = s.subrange(2, s.len() as int);
            assert(l == 1);
            assert(pop_first_scalar(s) =~= s.subrange(1, s.len() as int));
            let mid = s.subrange(1, s.len() as int);
            assert(valid_first_scalar(mid));
            assert(length_of_first_scalar(mid) == 1);
            assert(pop_first_scalar(mid) =~= rest);
            assert(valid_utf8(rest));
            lemma_unescape_valid(rest);
            assert(valid_utf8(unescape_pair(s[1]))) by {
                if s[1] == 0x6e || s[1] == 0x22 || s[1] == 0x27 || s[1] == 0x5c {
                    lemma_ascii_byte_valid(unescape_pair(s[1])[0]);
                    assert(unescape_pair(s[1]) =~= seq![unescape_pair(s[1])[0]]);
                } else {
                    lemma_ascii_pair_valid(0x5c, s[1]);
                }
            }
            valid_utf8_concat(unescape_pair(s[1]), spec_unescape(rest));
        } else {
            // The first character passes through byte for byte.
            let rest = pop_first_scalar(s);
            assert(rest =~= s.subrange(l, s.len() as int));
            lemma_unescape_valid(rest);
            let head = s.subrange(0, l);
            assert(valid_utf8(head)) by {
                assert(valid_first_scalar(head)) by {
                    assert(head.len() == l);
                    assert(forall|i: int| 0 <= i < l ==> head[i] == s[i]);
                }
                assert(length_of_first_scalar(head) == l);
                assert(pop_first_scalar(head) =~= Seq::<u8>::empty());
                assert(valid_utf8(Seq::<u8>::empty()));
            }
            assert(spec_unescape(s) == head + spec_unescape(rest)) by {
                lemma_unescape_copies_scalar(s, l);
            }
            valid_utf8_concat(head, spec_unescape(rest));
        }
    }
}

/// When the leading character is not the start of an escape pair, undoing
/// escapes copies its bytes unchanged and continues after it.
proof fn lemma_unescape_copies_scalar(s: Seq<u8>, l: int)
    requires
        valid_utf8(s),
        s.len() > 0,
        valid_first_scalar(s),
        l == length_of_first_scalar(s),
        !(s.len() >= 2 && s[0] == 0x5c && s[1] < 0x80),
    ensures
        spec_unescape(s) == s.subrange(0, l) + spec_unescape(s.subrange(l, s.len() as int)),
{
    let s1 = s.subrange(1, s.len() as int);
    if l == 1 {
        assert(spec_unescape(s) =~= seq![s[0]] + spec_unescape(s1));
        assert(seq![s[0]] =~= s.subrange(0, 1));
    } else {
        // A multi-byte character: the lead is not a backslash and every
        // continuation byte is above the ASCII range.
        assert(s[0] != 0x5c);
        assert(spec_unescape(s) =~= seq![s[0]] + spec_unescape(s1));
        assert(is_continuation_byte(s[1]));
        if l == 2 {
            assert(s1[0] == s[1]);
            assert(!(s1.len() >= 2 && s1[0] == 0x5c && s1[1] < 0x80));
            assert(spec_unescape(s1) =~= seq![s1[0]] + spec_unescape(
                s1.subrange(1, s1.len() as int),
            ));
            assert(s1.subrange(1, s1.len() as int) =~= s.subrange(2, s.len() as int));
            assert(spec_unescape(s) =~= s.subrange(0, 2) + spec_unescape(
                s.subrange(2, s.len() as int),
            ));
        } else if l == 3 {
            assert(is_continuation_byte(s[2]));
            let s2 = s.subrange(2, s.len() as int);
            assert(s1[0] == s[1] && s2[0] == s[2]);
            assert(s1[0] != 0x5c && s2[0] != 0x5c);
            assert(s1.subrange(1, s1.len() as int) =~= s2);
            assert(s2.subrange(1, s2.len() as int) =~= s.subrange(3, s.len() as int));
            assert(spec_unescape(s1) =~= seq![s1[0]] + spec_unescape(s2));
            assert(spec_unescape(s2) =~= seq![s2[0]] + spec_unescape(
                s.subrange(3, s.len() as int),
            ));
            assert(spec_unescape(s) =~= s.subrange(0, 3) + spec_unescape(
                s.subrange(3, s.len() as int),
            ));
        } else {
            assert(l == 4);
            assert(is_continuation_byte(s[2]));
            assert(is_continuation_byte(s[3]));
            let s2 = s.subrange(2, s.len() as int);
            let s3 = s.subrange(3, s.len() as int);
            assert(s1[0] == s[1] && s2[0] == s[2] && s3[0] == s[3]);
            assert(s1[0] != 0x5c && s2[0] != 0x5c && s3[0] != 0x5c);
            assert(s1.subrange(1, s1.len() as int) =~= s2);
            assert(s2.subrange(1, s2.len() as int) =~= s3);
            assert(s3.subrange(1, s3.len() as int) =~= s.subrange(4, s.len() as int));
            assert(spec_unescape(s1) =~= seq![s1[0]] + spec_unescape(s2));
            assert(spec_unescape(s2) =~= seq![s2[0]] + spec_unescape(s3));
            assert(spec_unescape(s3) =~= seq![s3[0]] + spec_unescape(
                s.subrange(4, s.len() as int),
            ));
            assert(spec_unescape(s) =~= s.subrange(0, 4) + spec_unescape(
                s.subrange(4, s.len() as int),
            ));
        }
    }
}

/// Stripping a layer of quotes preserves UTF-8 validity: the quotes are
/// one-byte characters at the ends.
pub proof fn lemma_strip_quotes_valid(s: Seq<u8>)
    requires
        valid_utf8(s),
    ensures
        valid_utf8(strip_quotes(s)),
{
    if s.len() >= 2 && s[0] == 0x22 && s.last() == 0x22 {
        assert(valid_first_scalar(s));
        assert(length_of_first_scalar(s) == 1);
        let tail = pop_first_scalar(s);
        assert(tail =~= s.subrange(1, s.len() as int));
        assert(valid_utf8(tail));
        crate::text::lemma_boundary_is_char_boundary(tail, tail.len() - 1);
        assert(crate::text::boundary(tail, tail.len() - 1)) by {
            assert(tail[tail.len() - 1] == 0x22);
        }
        valid_utf8_split(tail, tail.len() - 1);
        assert(tail.subrange(0, tail.len() - 1) =~= s.subrange(1, s.len() - 1));
    }
}

} // verus!
