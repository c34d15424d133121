//! Hand-built HTTP/1.1 for the provider APIs: JSON body assembly with
//! exact string escaping, request framing whose `Content-Length` equals the
//! body's byte length by construction, response-header parsing, and
//! chunked-transfer decoding.
use vstd::prelude::*;
use vstd::string::{StrSliceExecFns, StringSliceAdditionalSpecFns};

use crate::message::{Message, MessageType};

verus! {

/// The wire value of a JSON hexadecimal digit (lower case).
pub open spec fn hex_digit(n: u8) -> u8 {
    if n < 10 {
        (0x30 + n) as u8
    } else {
        (0x57 + n) as u8
    }
}

/// The JSON string escaping of one byte: quote and backslash are
/// backslash-escaped, the common control characters use their short
/// escapes, other control bytes use a `\u00XX` escape, and everything else
/// passes through.
pub open spec fn escape_byte(b: u8) -> Seq<u8> {
    if b == 0x22 {
        seq![0x5cu8, 0x22u8]
    } else if b == 0x5c {
        seq![0x5cu8, 0x5cu8]
    } else if b == 0x0a {
        seq![0x5cu8, 0x6eu8]
    } else if b == 0x0d {
        seq![0x5cu8, 0x72u8]
    } else if b == 0x09 {
        seq![0x5cu8, 0x74u8]
    } else if b < 0x20 {
        seq![0x5cu8, 0x75u8, 0x30u8, 0x30u8, hex_digit(b / 16), hex_digit((b % 16) as u8)]
    } else {
        seq![b]
    }
}

/// The JSON string escaping of a byte sequence.
pub open spec fn json_escape(s: Seq<u8>) -> Seq<u8>
    decreases s.len(),
{
    if s.len() == 0 {
        Seq::<u8>::empty()
    } else {
        escape_byte(s[0]) + json_escape(s.drop_first())
    }
}

/// JSON escaping distributes over concatenation.
pub proof fn lemma_json_escape_concat(a: Seq<u8>, b: Seq<u8>)
    ensures
        json_escape(a + b) == json_escape(a) + json_escape(b),
    decreases a.len(),
{
    if a.len() == 0 {
        assert(a + b =~= b);
        assert(json_escape(a) + json_escape(b) =~= json_escape(b));
    } else {
        lemma_json_escape_concat(a.drop_first(), b);
        assert((a + b).drop_first() =~= a.drop_first() + b);
        assert(json_escape(a + b) =~= json_escape(a) + json_escape(b));
    }
}

/// Escapes `s` for use inside a JSON string literal.
pub fn json_escape_exec(s: &Vec<u8>) -> (r: Vec<u8>)
    ensures
        r@ == json_escape(s@),
{
    let mut r: Vec<u8> = Vec::new();
    let mut i: usize = 0;
    while i < s.len()
        invariant
            i <= s@.len(),
            r@ == json_escape(s@.take(i as int)),
        decreases s@.len() - i,
    {
        let b = s[i];
        proof {
            lemma_json_escape_concat(s@.take(i as int), seq![b]);
            assert(s@.take(i + 1) =~= s@.take(i as int) + seq![b]);
            assert(seq![b].drop_first() =~= Seq::<u8>::empty());
            assert(json_escape(Seq::<u8>::empty()) =~= Seq::<u8>::empty());
            assert(json_escape(seq![b]) =~= escape_byte(b));
        }
        if b == 0x22 {
            r.push(0x5c);
            r.push(0x22);
        } else if b == 0x5c {
            r.push(0x5c);
            r.push(0x5c);
        } else if b == 0x0a {
            r.push(0x5c);
            r.push(0x6e);
        } else if b == 0x0d {
            r.push(0x5c);
            r.push(0x72);
        } else if b == 0x09 {
            r.push(0x5c);
            r.push(0x74);
        } else if b < 0x20 {
            r.push(0x5c);
            r.push(0x75);
            r.push(0x30);
            r.push(0x30);
            let hi = b / 16;
            let lo = b % 16;
            r.push(if hi < 10 {
                0x30 + hi
            } else {
                0x57 + hi
            });
            r.push(if lo < 10 {
                0x30 + lo
            } else {
                0x57 + lo
            });
        } else {
            r.push(b);
        }
        proof {
            assert(r@ =~= json_escape(s@.take(i + 1)));
        }
        i = i + 1;
    }
    proof {
        assert(s@.take(s@.len() as int) =~= s@);
    }
    r
}

/// The decimal digits of `n`, most significant first.
pub open spec fn decimal(n: int) -> Seq<u8>
    decreases n,
{
    if n <= 0 {
        Seq::<u8>::empty()
    } else {
        decimal(n / 10).push((0x30 + (n % 10)) as u8)
    }
}

/// The decimal rendering of `n` ("0" for zero).
pub open spec fn decimal_of(n: int) -> Seq<u8> {
    if n == 0 {
        seq![0x30u8]
    } else {
        decimal(n)
    }
}

/// Renders `n` in decimal.
pub fn decimal_exec(n: usize) -> (r: Vec<u8>)
    ensures
        r@ == decimal_of(n as int),
{
    if n == 0 {
        let mut r: Vec<u8> = Vec::new();
        r.push(0x30);
        proof {
            assert(r@ =~= seq![0x30u8]);
        }
        return r;
    }
    let mut digits: Vec<u8> = Vec::new();
    let mut m = n;
    while m > 0
        invariant
            m <= n,
            decimal(n as int) == decimal(m as int) + digits@.reverse(),
        decreases m,
    {
        let d = (m % 10) as u8;
        proof {
            assert(digits@.push((0x30 + d) as u8).reverse() =~= seq![(0x30 + d) as u8]
                + digits@.reverse());
            assert(decimal(m as int) =~= decimal(m as int / 10).push((0x30 + d) as u8));
            assert(decimal(m as int / 10) + (seq![(0x30 + d) as u8] + digits@.reverse())
                =~= (decimal(m as int / 10).push((0x30 + d) as u8)) + digits@.reverse());
        }
        digits.push(0x30 + d);
        m = m / 10;
    }
    let mut r: Vec<u8> = Vec::new();
    let mut i: usize = digits.len();
    proof {
        assert(decimal(0) =~= Seq::<u8>::empty());
        assert(Seq::<u8>::empty() + digits@.reverse() =~= digits@.reverse());
    }
    while i > 0
        invariant
            i <= digits@.len(),
            r@ == digits@.reverse().take(digits@.len() - i),
        decreases i,
    {
        proof {
            assert(digits@.reverse()[digits@.len() - i] == digits@[i - 1]);
            assert(digits@.reverse().take(digits@.len() - i + 1) =~= digits@.reverse().take(
                digits@.len() - i,
            ).push(digits@[i - 1]));
        }
        r.push(digits[i - 1]);
        i = i - 1;
    }
    proof {
        assert(digits@.reverse().take(digits@.len() as int) =~= digits@.reverse());
    }
    r
}

/// What went wrong with a request, by blame: the connection, the HTTP
/// framing, or the payload inside it.
#[derive(PartialEq, Eq, Structural, Clone, Copy, Debug)]
pub enum ClientError {
    Transport,
    Protocol,
    Payload,
}

/// Whether a byte is ASCII whitespace or part of a line ending, as header
/// values are trimmed.
pub open spec fn is_trim_byte(b: u8) -> bool {
    b == 0x20 || b == 0x09 || b == 0x0a || b == 0x0d
}

/// `s` without leading and trailing whitespace bytes.
pub open spec fn trim_ws(s: Seq<u8>) -> Seq<u8>
    decreases s.len(),
{
    if s.len() == 0 {
        s
    } else if is_trim_byte(s[0]) {
        trim_ws(s.drop_first())
    } else if is_trim_byte(s.last()) {
        trim_ws(s.drop_last())
    } else {
        s
    }
}

/// Trims whitespace bytes off both ends of `v`.
#[verifier::rlimit(30)]
pub fn trim_ws_exec(v: &Vec<u8>) -> (r: Vec<u8>)
    ensures
        r@ == trim_ws(v@),
{
    let mut lo: usize = 0;
    let n = v.len();
    proof {
        assert(v@.subrange(0, n as int) =~= v@);
    }
    while lo < n && byte_is_trim(v[lo])
        invariant
            lo <= n,
            n == v@.len(),
            trim_ws(v@) == trim_ws(v@.subrange(lo as int, n as int)),
        decreases n - lo,
    {
        proof {
            let cur = v@.subrange(lo as int, n as int);
            assert(cur.drop_first() =~= v@.subrange(lo + 1, n as int));
        }
        lo = lo + 1;
    }
    let mut hi: usize = n;
    while hi > lo && byte_is_trim(v[hi - 1])
        invariant
            lo <= hi <= n,
            n == v@.len(),
            lo == n || !is_trim_byte(v@[lo as int]),
            trim_ws(v@) == trim_ws(v@.subrange(lo as int, hi as int)),
        decreases hi,
    {
        proof {
            let cur = v@.subrange(lo as int, hi as int);
            assert(cur.drop_last() =~= v@.subrange(lo as int, hi - 1));
        }
        hi = hi - 1;
    }
    let mut r: Vec<u8> = Vec::new();
    let mut i: usize = lo;
    while i < hi
        invariant
            lo <= i <= hi <= n,
            n == v@.len(),
            r@ == v@.subrange(lo as int, i as int),
        decreases hi - i,
    {
        proof {
            assert(r@.push(v@[i as int]) =~= v@.subrange(lo as int, i + 1));
        }
        r.push(v[i]);
        i = i + 1;
    }
    proof {
        let cur = v@.subrange(lo as int, hi as int);
        assert(trim_ws(cur) == cur);
    }
    r
}

/// Whether a byte is trimmed from header values, as [`is_trim_byte`].
pub fn byte_is_trim(b: u8) -> (r: bool)
    ensures
        r == is_trim_byte(b),
{
    b == 0x20 || b == 0x09 || b == 0x0a || b == 0x0d
}

/// Whether `pat` occurs as a contiguous run inside `s`.
pub open spec fn contains_seq(s: Seq<u8>, pat: Seq<u8>) -> bool {
    exists|k: int|
        0 <= k && k + pat.len() <= s.len() && #[trigger] s.subrange(k, k + pat.len()) == pat
}

/// Searches `v` for the byte pattern `pat`.
pub fn contains_bytes(v: &Vec<u8>, pat: &Vec<u8>) -> (r: bool)
    ensures
        r == contains_seq(v@, pat@),
{
    let n = v.len();
    let plen = pat.len();
    if plen > n {
        proof {
            assert(!contains_seq(v@, pat@));
        }
        return false;
    }
    if plen == 0 {
        proof {
            assert(v@.subrange(0, 0 + pat@.len() as int) =~= pat@);
        }
        return true;
    }
    let last = n - plen;
    let mut k: usize = 0;
    while k <= last
        invariant
            k <= last + 1,
            n == v@.len(),
            plen == pat@.len(),
            1 <= plen <= n,
            last == n - plen,
            forall|j: int| 0 <= j < k ==> #[trigger] v@.subrange(j, j + pat@.len()) != pat@,
        decreases last + 1 - k,
    {
        let mut m: usize = 0;
        let mut matched = true;
        proof {
            assert(v@.subrange(k as int, k as int) =~= pat@.subrange(0, 0));
        }
        while m < plen && matched
            invariant
                m <= plen,
                n == v@.len(),
                plen == pat@.len(),
                k + plen <= n,
                matched <==> v@.subrange(k as int, k + m) == pat@.subrange(0, m as int),
            decreases plen - m,
        {
            proof {
                assert(v@.subrange(k as int, k + m + 1) =~= v@.subrange(k as int, k + m).push(
                    v@[k + m],
                ));
                assert(pat@.subrange(0, m + 1) =~= pat@.subrange(0, m as int).push(
                    pat@[m as int],
                ));
            }
            if v[k + m] != pat[m] {
                matched = false;
                proof {
                    assert(v@.subrange(k as int, k + m + 1)[m as int] == v@[k + m]);
                    assert(pat@.subrange(0, m + 1)[m as int] == pat@[m as int]);
                }
            }
            m = m + 1;
        }
        if matched {
            proof {
                assert(m == plen);
                assert(pat@.subrange(0, plen as int) =~= pat@);
                assert(v@.subrange(k as int, k + pat@.len()) == pat@);
            }
            return true;
        }
        proof {
            if v@.subrange(k as int, k + pat@.len()) == pat@ {
                assert(v@.subrange(k as int, k + m) =~= v@.subrange(k as int, k + pat@.len()).take(
                    m as int,
                ));
                assert(pat@.subrange(0, m as int) =~= pat@.take(m as int));
            }
        }
        k = k + 1;
    }
    proof {
        assert(!contains_seq(v@, pat@));
    }
    false
}

/// The four provider wire formats the client can speak.
#[derive(PartialEq, Eq, Structural, Clone, Copy, Debug)]
pub enum ApiProvider {
    OpenAi,
    Groq,
    Anthropic,
    Gemini,
}

/// Everything needed to build one provider request.
pub struct RequestParams {
    pub provider: ApiProvider,
    pub host: Vec<u8>,
    pub path: Vec<u8>,
    pub port: u16,
    pub messages: Vec<Message>,
    pub model: Vec<u8>,
    pub stream: bool,
    pub authorization_token: Vec<u8>,
    pub max_tokens: Option<u16>,
    pub system_prompt: Option<Vec<u8>>,
}

/// The role name a message type carries on the wire.
pub open spec fn spec_role_name(t: MessageType) -> Seq<u8> {
    match t {
        MessageType::System => vstd::utf8::encode_utf8("system"@),
        MessageType::User => vstd::utf8::encode_utf8("user"@),
        MessageType::Assistant => vstd::utf8::encode_utf8("assistant"@),
    }
}

/// One chat message as a JSON object (keys in serialization order).
pub open spec fn spec_message_json(m: Message) -> Seq<u8> {
    vstd::utf8::encode_utf8("{\"content\":\""@) + json_escape(m.content@) + vstd::utf8::encode_utf8(
        "\",\"role\":\""@,
    ) + spec_role_name(m.message_type) + vstd::utf8::encode_utf8("\"}"@)
}

/// A comma-separated list of chat messages as JSON objects.
pub open spec fn spec_messages_json(ms: Seq<Message>) -> Seq<u8>
    decreases ms.len(),
{
    if ms.len() == 0 {
        Seq::<u8>::empty()
    } else if ms.len() == 1 {
        spec_message_json(ms[0])
    } else {
        spec_message_json(ms[0]) + vstd::utf8::encode_utf8(","@) + spec_messages_json(
            ms.drop_first(),
        )
    }
}

/// Appending one message extends the JSON list with a comma where needed.
pub proof fn lemma_messages_json_push(ms: Seq<Message>, m: Message)
    ensures
        spec_messages_json(ms.push(m)) == if ms.len() == 0 {
            spec_message_json(m)
        } else {
            spec_messages_json(ms) + vstd::utf8::encode_utf8(","@) + spec_message_json(m)
        },
    decreases ms.len(),
{
    if ms.len() == 0 {
        assert(ms.push(m)[0] == m);
        assert(spec_messages_json(ms.push(m)) =~= spec_message_json(m));
    } else if ms.len() == 1 {
        assert(ms.push(m).drop_first() =~= seq![m]);
        assert(spec_messages_json(seq![m]) =~= spec_message_json(m));
    } else {
        lemma_messages_json_push(ms.drop_first(), m);
        assert(ms.push(m).drop_first() =~= ms.drop_first().push(m));
        assert(spec_messages_json(ms.push(m)) =~= spec_messages_json(ms) + vstd::utf8::encode_utf8(
            ","@,
        ) + spec_message_json(m));
    }
}

/// Appends a string literal's UTF-8 bytes to a buffer.
pub fn push_str_bytes(dst: &mut Vec<u8>, s: &str)
    ensures
        final(dst)@ == old(dst)@ + s.spec_bytes(),
{
    let mut b = s.as_bytes_vec();
    dst.append(&mut b);
}

/// Appends a copy of `src` to a buffer.
pub fn push_vec_bytes(dst: &mut Vec<u8>, src: &Vec<u8>)
    ensures
        final(dst)@ == old(dst)@ + src@,
{
    let mut b = crate::text::copy_bytes(src);
    dst.append(&mut b);
}

/// Renders one chat message as a JSON object.
pub fn message_json(m: &Message) -> (r: Vec<u8>)
    ensures
        r@ == spec_message_json(*m),
{
    let mut r: Vec<u8> = Vec::new();
    push_str_bytes(&mut r, "{\"content\":\"");
    let escaped = json_escape_exec(&m.content);
    push_vec_bytes(&mut r, &escaped);
    push_str_bytes(&mut r, "\",\"role\":\"");
    match m.message_type {
        MessageType::System => push_str_bytes(&mut r, "system"),
        MessageType::User => push_str_bytes(&mut r, "user"),
        MessageType::Assistant => push_str_bytes(&mut r, "assistant"),
    }
    push_str_bytes(&mut r, "\"}");
    proof {
        assert(r@ =~= spec_message_json(*m));
    }
    r
}

/// Renders a message list as a comma-separated run of JSON objects.
pub fn messages_json(ms: &Vec<Message>) -> (r: Vec<u8>)
    ensures
        r@ == spec_messages_json(ms@),
{
    let mut r: Vec<u8> = Vec::new();
    let mut i: usize = 0;
    while i < ms.len()
        invariant
            i <= ms@.len(),
            r@ == spec_messages_json(ms@.take(i as int)),
        decreases ms@.len() - i,
    {
        proof {
            lemma_messages_json_push(ms@.take(i as int), ms@[i as int]);
            assert(ms@.take(i + 1) =~= ms@.take(i as int).push(ms@[i as int]));
        }
        if i > 0 {
            push_str_bytes(&mut r, ",");
        }
        let mj = message_json(&ms[i]);
        push_vec_bytes(&mut r, &mj);
        proof {
            if i == 0 {
                assert(ms@.take(0int) =~= Seq::<Message>::empty());
                assert(r@ =~= spec_messages_json(ms@.take(i + 1)));
            } else {
                assert(r@ =~= spec_messages_json(ms@.take(i + 1)));
            }
        }
        i = i + 1;
    }
    proof {
        assert(ms@.take(ms@.len() as int) =~= ms@);
    }
    r
}

/// A JSON boolean literal.
pub open spec fn spec_bool_json(b: bool) -> Seq<u8> {
    if b {
        vstd::utf8::encode_utf8("true"@)
    } else {
        vstd::utf8::encode_utf8("false"@)
    }
}

/// The OpenAI-shaped request body (Groq uses the same shape).
pub open spec fn spec_openai_body(ms: Seq<Message>, model: Seq<u8>, stream: bool) -> Seq<u8> {
    vstd::utf8::encode_utf8("{\"messages\":["@) + spec_messages_json(ms) + vstd::utf8::encode_utf8(
        "],\"model\":\""@,
    ) + model + vstd::utf8::encode_utf8("\",\"stream\":"@) + spec_bool_json(stream)
        + vstd::utf8::encode_utf8("}"@)
}

/// The Anthropic-shaped request body: the system prompt travels as a
/// top-level field and a token limit is required.
pub open spec fn spec_anthropic_body(
    ms: Seq<Message>,
    model: Seq<u8>,
    stream: bool,
    max_tokens: int,
    system: Seq<u8>,
) -> Seq<u8> {
    vstd::utf8::encode_utf8("{\"max_tokens\":"@) + decimal_of(max_tokens)
        + vstd::utf8::encode_utf8(",\"messages\":["@) + spec_messages_json(ms)
        + vstd::utf8::encode_utf8("],\"model\":\""@) + model + vstd::utf8::encode_utf8(
        "\",\"stream\":"@,
    ) + spec_bool_json(stream) + vstd::utf8::encode_utf8(",\"system\":\""@) + json_escape(system)
        + vstd::utf8::encode_utf8("\"}"@)
}

/// The role name Gemini expects; the assistant is called "model". System
/// messages never reach a Gemini body: `params_ok` excludes them, and the
/// builders require `params_ok`.
pub open spec fn spec_gemini_role(t: MessageType) -> Seq<u8> {
    match t {
        MessageType::Assistant => vstd::utf8::encode_utf8("model"@),
        _ => vstd::utf8::encode_utf8("user"@),
    }
}

/// One Gemini content item.
pub open spec fn spec_gemini_item(m: Message) -> Seq<u8> {
    vstd::utf8::encode_utf8("{\"parts\":[{\"text\":\""@) + json_escape(m.content@)
        + vstd::utf8::encode_utf8("\"}],\"role\":\""@) + spec_gemini_role(m.message_type)
        + vstd::utf8::encode_utf8("\"}"@)
}

/// A comma-separated list of Gemini content items.
pub open spec fn spec_gemini_items(ms: Seq<Message>) -> Seq<u8>
    decreases ms.len(),
{
    if ms.len() == 0 {
        Seq::<u8>::empty()
    } else if ms.len() == 1 {
        spec_gemini_item(ms[0])
    } else {
        spec_gemini_item(ms[0]) + vstd::utf8::encode_utf8(","@) + spec_gemini_items(
            ms.drop_first(),
        )
    }
}

proof fn lemma_gemini_items_push(ms: Seq<Message>, m: Message)
    ensures
        spec_gemini_items(ms.push(m)) == if ms.len() == 0 {
            spec_gemini_item(m)
        } else {
            spec_gemini_items(ms) + vstd::utf8::encode_utf8(","@) + spec_gemini_item(m)
        },
    decreases ms.len(),
{
    if ms.len() == 0 {
        assert(ms.push(m)[0] == m);
        assert(spec_gemini_items(ms.push(m)) =~= spec_gemini_item(m));
    } else if ms.len() == 1 {
        assert(ms.push(m).drop_first() =~= seq![m]);
        assert(spec_gemini_items(seq![m]) =~= spec_gemini_item(m));
    } else {
        lemma_gemini_items_push(ms.drop_first(), m);
        assert(ms.push(m).drop_first() =~= ms.drop_first().push(m));
        assert(spec_gemini_items(ms.push(m)) =~= spec_gemini_items(ms) + vstd::utf8::encode_utf8(
            ","@,
        ) + spec_gemini_item(m));
    }
}

/// The Gemini-shaped request body: contents plus a system instruction.
pub open spec fn spec_gemini_body(ms: Seq<Message>, system: Seq<u8>) -> Seq<u8> {
    vstd::utf8::encode_utf8("{\"contents\":["@) + spec_gemini_items(ms) + vstd::utf8::encode_utf8(
        "],\"systemInstruction\":{\"parts\":[{\"text\":\""@,
    ) + json_escape(system) + vstd::utf8::encode_utf8("\"}]}}"@)
}

/// The JSON body of a request, by provider shape.
pub open spec fn spec_body(p: RequestParams) -> Seq<u8> {
    match p.provider {
        ApiProvider::OpenAi => spec_openai_body(p.messages@, p.model@, p.stream),
        ApiProvider::Groq => spec_openai_body(p.messages@, p.model@, p.stream),
        ApiProvider::Anthropic => spec_anthropic_body(
            p.messages@,
            p.model@,
            p.stream,
            p.max_tokens->Some_0 as int,
            p.system_prompt->Some_0@,
        ),
        ApiProvider::Gemini => spec_gemini_body(p.messages@, p.system_prompt->Some_0@),
    }
}

/// What a well-formed parameter set looks like: the fields each provider's
/// body requires are present, and a Gemini request carries no system-role
/// message (its system prompt travels as the system instruction; a
/// system-role message has no Gemini role).
pub open spec fn params_ok(p: RequestParams) -> bool {
    &&& (p.provider is Anthropic ==> p.max_tokens is Some && p.system_prompt is Some)
    &&& (p.provider is Gemini ==> p.system_prompt is Some && no_system_messages(p.messages@))
}

/// Whether no message of the list carries the system role.
pub open spec fn no_system_messages(ms: Seq<Message>) -> bool {
    forall|i: int| 0 <= i < ms.len() ==> !((#[trigger] ms[i]).message_type is System)
}

/// Renders the JSON body for `p`.
#[verifier::rlimit(80)]
pub fn build_body(p: &RequestParams) -> (r: Vec<u8>)
    requires
        params_ok(*p),
    ensures
        r@ == spec_body(*p),
{
    let mut r: Vec<u8> = Vec::new();
    match p.provider {
        ApiProvider::OpenAi | ApiProvider::Groq => {
            push_str_bytes(&mut r, "{\"messages\":[");
            let ms = messages_json(&p.messages);
            push_vec_bytes(&mut r, &ms);
            push_str_bytes(&mut r, "],\"model\":\"");
            push_vec_bytes(&mut r, &p.model);
            push_str_bytes(&mut r, "\",\"stream\":");
            if p.stream {
                push_str_bytes(&mut r, "true");
            } else {
                push_str_bytes(&mut r, "false");
            }
            push_str_bytes(&mut r, "}");
            proof {
                assert(r@ =~= spec_body(*p));
            }
        },
        ApiProvider::Anthropic => {
            push_str_bytes(&mut r, "{\"max_tokens\":");
            let mt = match p.max_tokens {
                Some(n) => n,
                None => 0,
            };
            let dec = decimal_exec(mt as usize);
            push_vec_bytes(&mut r, &dec);
            push_str_bytes(&mut r, ",\"messages\":[");
            let ms = messages_json(&p.messages);
            push_vec_bytes(&mut r, &ms);
            push_str_bytes(&mut r, "],\"model\":\"");
            push_vec_bytes(&mut r, &p.model);
            push_str_bytes(&mut r, "\",\"stream\":");
            if p.stream {
                push_str_bytes(&mut r, "true");
            } else {
                push_str_bytes(&mut r, "false");
            }
            push_str_bytes(&mut r, ",\"system\":\"");
            let sys = match &p.system_prompt {
                Some(s) => json_escape_exec(s),
                None => Vec::new(),
            };
            push_vec_bytes(&mut r, &sys);
            push_str_bytes(&mut r, "\"}");
            proof {
                assert(r@ =~= spec_body(*p));
            }
        },
        ApiProvider::Gemini => {
            push_str_bytes(&mut r, "{\"contents\":[");
            let mut i: usize = 0;
            while i < p.messages.len()
                invariant
                    i <= p.messages@.len(),
                    r@ == vstd::utf8::encode_utf8("{\"contents\":["@) + spec_gemini_items(
                        p.messages@.take(i as int),
                    ),
                decreases p.messages@.len() - i,
            {
                proof {
                    lemma_gemini_items_push(p.messages@.take(i as int), p.messages@[i as int]);
                    assert(p.messages@.take(i + 1) =~= p.messages@.take(i as int).push(
                        p.messages@[i as int],
                    ));
                }
                if i > 0 {
                    push_str_bytes(&mut r, ",");
                }
                push_str_bytes(&mut r, "{\"parts\":[{\"text\":\"");
                let esc = json_escape_exec(&p.messages[i].content);
                push_vec_bytes(&mut r, &esc);
                push_str_bytes(&mut r, "\"}],\"role\":\"");
                match p.messages[i].message_type {
                    MessageType::Assistant => push_str_bytes(&mut r, "model"),
                    _ => push_str_bytes(&mut r, "user"),
                }
                push_str_bytes(&mut r, "\"}");
                proof {
                    if i == 0 {
                        assert(p.messages@.take(0int) =~= Seq::<Message>::empty());
                    }
                    assert(r@ =~= vstd::utf8::encode_utf8("{\"contents\":["@) + spec_gemini_items(
                        p.messages@.take(i + 1),
                    ));
                }
                i = i + 1;
            }
            proof {
                assert(p.messages@.take(p.messages@.len() as int) =~= p.messages@);
            }
            push_str_bytes(&mut r, "],\"systemInstruction\":{\"parts\":[{\"text\":\"");
            let sys = match &p.system_prompt {
                Some(s) => json_escape_exec(s),
                None => Vec::new(),
            };
            push_vec_bytes(&mut r, &sys);
            push_str_bytes(&mut r, "\"}]}}");
            proof {
                assert(r@ =~= spec_body(*p));
            }
        },
    }
    r
}

/// The authorization lines of a request, through the blank line that ends
/// the headers: a bearer token, a custom key header plus API version, or
/// nothing (Gemini authorizes in the query string).
pub open spec fn spec_auth_block(p: RequestParams) -> Seq<u8> {
    match p.provider {
        ApiProvider::OpenAi | ApiProvider::Groq => vstd::utf8::encode_utf8(
            "Authorization: Bearer "@,
        ) + p.authorization_token@ + vstd::utf8::encode_utf8("\r\n\r\n"@),
        ApiProvider::Anthropic => vstd::utf8::encode_utf8("x-api-key: "@)
            + p.authorization_token@ + vstd::utf8::encode_utf8(
            "\r\nanthropic-version: 2023-06-01\r\n\r\n"@,
        ),
        ApiProvider::Gemini => vstd::utf8::encode_utf8("\r\n"@),
    }
}

/// The request path; Gemini carries the API key as a query parameter.
pub open spec fn spec_request_path(p: RequestParams) -> Seq<u8> {
    if p.provider is Gemini {
        p.path@ + vstd::utf8::encode_utf8("?key="@) + p.authorization_token@
    } else {
        p.path@
    }
}

/// A whole request: the request line, fixed headers, a `Content-Length`
/// that equals the body's byte length, the authorization block, and the
/// JSON body.
pub open spec fn spec_request(p: RequestParams) -> Seq<u8> {
    vstd::utf8::encode_utf8("POST "@) + spec_request_path(p) + vstd::utf8::encode_utf8(
        " HTTP/1.1\r\nHost: "@,
    ) + p.host@ + vstd::utf8::encode_utf8(
        "\r\nContent-Type: application/json\r\nContent-Length: "@,
    ) + decimal_of(spec_body(p).len() as int) + vstd::utf8::encode_utf8("\r\nAccept: */*\r\n"@)
        + spec_auth_block(p) + spec_body(p)
}

/// Assembles the raw HTTP/1.1 request bytes for `p`.
#[verifier::rlimit(80)]
pub fn build_request(p: &RequestParams) -> (r: Vec<u8>)
    requires
        params_ok(*p),
    ensures
        r@ == spec_request(*p),
{
    let body = build_body(p);
    let mut r: Vec<u8> = Vec::new();
    push_str_bytes(&mut r, "POST ");
    push_vec_bytes(&mut r, &p.path);
    match p.provider {
        ApiProvider::Gemini => {
            push_str_bytes(&mut r, "?key=");
            push_vec_bytes(&mut r, &p.authorization_token);
        },
        _ => {},
    }
    push_str_bytes(&mut r, " HTTP/1.1\r\nHost: ");
    push_vec_bytes(&mut r, &p.host);
    push_str_bytes(&mut r, "\r\nContent-Type: application/json\r\nContent-Length: ");
    let len_dec = decimal_exec(body.len());
    push_vec_bytes(&mut r, &len_dec);
    push_str_bytes(&mut r, "\r\nAccept: */*\r\n");
    match p.provider {
        ApiProvider::OpenAi | ApiProvider::Groq => {
            push_str_bytes(&mut r, "Authorization: Bearer ");
            push_vec_bytes(&mut r, &p.authorization_token);
            push_str_bytes(&mut r, "\r\n\r\n");
        },
        ApiProvider::Anthropic => {
            push_str_bytes(&mut r, "x-api-key: ");
            push_vec_bytes(&mut r, &p.authorization_token);
            push_str_bytes(&mut r, "\r\nanthropic-version: 2023-06-01\r\n\r\n");
        },
        ApiProvider::Gemini => {
            push_str_bytes(&mut r, "\r\n");
        },
    }
    push_vec_bytes(&mut r, &body);
    proof {
        assert(r@ =~= spec_request(*p));
    }
    r
}


/// Whether every byte of `s` is a decimal digit.
pub open spec fn all_digits(s: Seq<u8>) -> bool {
    forall|i: int| 0 <= i < s.len() ==> 0x30 <= #[trigger] s[i] <= 0x39
}

/// The value of an all-digit run, most significant digit first.
pub open spec fn dec_value(s: Seq<u8>) -> int
    decreases s.len(),
{
    if s.len() == 0 {
        0
    } else {
        dec_value(s.drop_last()) * 10 + (s.last() - 0x30)
    }
}

/// A longer all-digit run never has a smaller value.
proof fn lemma_dec_value_mono(s: Seq<u8>, i: int)
    requires
        all_digits(s),
        0 <= i <= s.len(),
    ensures
        dec_value(s) >= dec_value(s.take(i)),
    decreases s.len() - i,
{
    if i < s.len() {
        lemma_dec_value_mono(s, i + 1);
        assert(s.take(i + 1).drop_last() =~= s.take(i));
        assert(s.take(i + 1).last() == s[i]);
        assert(dec_value(s.take(i + 1)) == dec_value(s.take(i)) * 10 + (s[i] - 0x30));
        assert(dec_value(s.take(i)) >= 0) by {
            lemma_dec_value_nonneg(s.take(i));
        }
    } else {
        assert(s.take(i) =~= s);
    }
}

proof fn lemma_dec_value_nonneg(s: Seq<u8>)
    requires
        all_digits(s),
    ensures
        dec_value(s) >= 0,
    decreases s.len(),
{
    if s.len() > 0 {
        assert(all_digits(s.drop_last())) by {
            assert(forall|i: int| 0 <= i < s.len() - 1 ==> 0x30 <= #[trigger] s[i] <= 0x39);
        }
        lemma_dec_value_nonneg(s.drop_last());
    }
}

/// The parsed value of a decimal run: present when the run is non-empty,
/// all digits, and fits the machine.
pub open spec fn spec_parse_decimal(s: Seq<u8>) -> Option<int> {
    if s.len() > 0 && all_digits(s) && dec_value(s) <= usize::MAX {
        Some(dec_value(s))
    } else {
        None
    }
}

/// Parses a decimal run, refusing empty input, non-digits, and overflow.
pub fn parse_decimal(v: &Vec<u8>) -> (r: Option<usize>)
    ensures
        r is Some <==> spec_parse_decimal(v@) is Some,
        r is Some ==> r->Some_0 as int == spec_parse_decimal(v@)->Some_0,
{
    if v.len() == 0 {
        return None;
    }
    let mut i: usize = 0;
    while i < v.len()
        invariant
            i <= v@.len(),
            forall|j: int| 0 <= j < i ==> 0x30 <= #[trigger] v@[j] <= 0x39,
        decreases v@.len() - i,
    {
        if v[i] < 0x30 || v[i] > 0x39 {
            return None;
        }
        i = i + 1;
    }
    let mut acc: u128 = 0;
    let mut k: usize = 0;
    proof {
        assert(v@.take(0int) =~= Seq::<u8>::empty());
    }
    while k < v.len()
        invariant
            k <= v@.len(),
            all_digits(v@),
            acc <= usize::MAX,
            acc as int == dec_value(v@.take(k as int)),
        decreases v@.len() - k,
    {
        let d = v[k];
        proof {
            assert(v@.take(k + 1).drop_last() =~= v@.take(k as int));
            assert(v@.take(k + 1).last() == v@[k as int]);
        }
        let next: u128 = acc * 10 + ((d - 0x30) as u128);
        if next > usize::MAX as u128 {
            proof {
                lemma_dec_value_mono(v@, k + 1);
            }
            return None;
        }
        acc = next;
        k = k + 1;
    }
    proof {
        assert(v@.take(v@.len() as int) =~= v@);
    }
    Some(acc as usize)
}

/// The value of a hexadecimal digit, or 16 for any other byte.
pub open spec fn hex_val(b: u8) -> int {
    if 0x30 <= b <= 0x39 {
        b - 0x30
    } else if 0x61 <= b <= 0x66 {
        b - 0x61 + 10
    } else if 0x41 <= b <= 0x46 {
        b - 0x41 + 10
    } else {
        16
    }
}

/// Whether every byte of `s` is a hexadecimal digit.
pub open spec fn all_hex(s: Seq<u8>) -> bool {
    forall|i: int| 0 <= i < s.len() ==> #[trigger] hex_val(s[i]) < 16
}

/// The value of an all-hex run, most significant digit first.
pub open spec fn hex_value(s: Seq<u8>) -> int
    decreases s.len(),
{
    if s.len() == 0 {
        0
    } else {
        hex_value(s.drop_last()) * 16 + hex_val(s.last())
    }
}

proof fn lemma_hex_value_nonneg(s: Seq<u8>)
    requires
        all_hex(s),
    ensures
        hex_value(s) >= 0,
    decreases s.len(),
{
    if s.len() > 0 {
        assert(all_hex(s.drop_last())) by {
            assert(forall|i: int| 0 <= i < s.len() - 1 ==> #[trigger] hex_val(s[i]) < 16);
        }
        lemma_hex_value_nonneg(s.drop_last());
    }
}

proof fn lemma_hex_value_mono(s: Seq<u8>, i: int)
    requires
        all_hex(s),
        0 <= i <= s.len(),
    ensures
        hex_value(s) >= hex_value(s.take(i)),
    decreases s.len() - i,
{
    if i < s.len() {
        lemma_hex_value_mono(s, i + 1);
        assert(s.take(i + 1).drop_last() =~= s.take(i));
        assert(s.take(i + 1).last() == s[i]);
        assert(hex_value(s.take(i + 1)) == hex_value(s.take(i)) * 16 + hex_val(s[i]));
        assert(hex_value(s.take(i)) >= 0) by {
            lemma_hex_value_nonneg(s.take(i));
        }
    } else {
        assert(s.take(i) =~= s);
    }
}

/// The parsed value of a hexadecimal run: present when the run is
/// non-empty, all hex digits, and fits the machine.
pub open spec fn spec_parse_hex(s: Seq<u8>) -> Option<int> {
    if s.len() > 0 && all_hex(s) && hex_value(s) <= usize::MAX {
        Some(hex_value(s))
    } else {
        None
    }
}

/// Parses a hexadecimal run, refusing empty input, non-digits, and
/// overflow.
pub fn parse_hex(v: &Vec<u8>) -> (r: Option<usize>)
    ensures
        r is Some <==> spec_parse_hex(v@) is Some,
        r is Some ==> r->Some_0 as int == spec_parse_hex(v@)->Some_0,
{
    if v.len() == 0 {
        return None;
    }
    let mut i: usize = 0;
    while i < v.len()
        invariant
            i <= v@.len(),
            forall|j: int| 0 <= j < i ==> #[trigger] hex_val(v@[j]) < 16,
        decreases v@.len() - i,
    {
        let b = v[i];
        let ok = (b >= 0x30 && b <= 0x39) || (b >= 0x61 && b <= 0x66) || (b >= 0x41 && b <= 0x46);
        if !ok {
            proof {
                assert(hex_val(v@[i as int]) == 16);
            }
            return None;
        }
        i = i + 1;
    }
    let mut acc: u128 = 0;
    let mut k: usize = 0;
    proof {
        assert(v@.take(0int) =~= Seq::<u8>::empty());
    }
    while k < v.len()
        invariant
            k <= v@.len(),
            all_hex(v@),
            acc <= usize::MAX,
            acc as int == hex_value(v@.take(k as int)),
        decreases v@.len() - k,
    {
        let b = v[k];
        proof {
            assert(hex_val(v@[k as int]) < 16);
        }
        let d: u8 = if b >= 0x30 && b <= 0x39 {
            b - 0x30
        } else if b >= 0x61 && b <= 0x66 {
            b - 0x61 + 10
        } else {
            b - 0x41 + 10
        };
        proof {
            assert(v@.take(k + 1).drop_last() =~= v@.take(k as int));
            assert(v@.take(k + 1).last() == v@[k as int]);
        }
        let next: u128 = acc * 16 + (d as u128);
        if next > usize::MAX as u128 {
            proof {
                lemma_hex_value_mono(v@, k + 1);
            }
            return None;
        }
        acc = next;
        k = k + 1;
    }
    proof {
        assert(v@.take(v@.len() as int) =~= v@);
    }
    Some(acc as usize)
}


/// Whether two byte vectors hold the same bytes.
pub fn bytes_eq(a: &Vec<u8>, b: &Vec<u8>) -> (r: bool)
    ensures
        r == (a@ == b@),
{
    if a.len() != b.len() {
        proof {
            assert(a@ != b@);
        }
        return false;
    }
    let mut i: usize = 0;
    while i < a.len()
        invariant
            i <= a@.len(),
            a@.len() == b@.len(),
            forall|j: int| 0 <= j < i ==> a@[j] == b@[j],
        decreases a@.len() - i,
    {
        if a[i] != b[i] {
            return false;
        }
        i = i + 1;
    }
    proof {
        assert(a@ =~= b@);
    }
    true
}

/// The index of the first `b` in `s` at or after `from`, or the length of
/// `s` when none follows.
pub open spec fn find_byte(s: Seq<u8>, b: u8, from: int) -> int
    decreases s.len() - from,
{
    if from < 0 || from >= s.len() {
        s.len() as int
    } else if s[from] == b {
        from
    } else {
        find_byte(s, b, from + 1)
    }
}

/// Finds the first `b` in `v` at or after `from`.
pub fn find_byte_from(v: &Vec<u8>, b: u8, from: usize) -> (r: usize)
    ensures
        r as int == find_byte(v@, b, from as int),
        r <= v@.len(),
{
    let n = v.len();
    let mut i = if from > n {
        n
    } else {
        from
    };
    proof {
        if from > n {
            assert(find_byte(v@, b, from as int) == n as int);
        }
    }
    while i < n && v[i] != b
        invariant
            i <= n,
            n == v@.len(),
            find_byte(v@, b, from as int) == find_byte(v@, b, i as int),
        decreases n - i,
    {
        i = i + 1;
    }
    i
}

/// The `Content-Length` value carried by one header line, if the line
/// names that header and the run between the first colon and the next one
/// (or the end) trims to a machine-sized decimal.
pub open spec fn spec_cl_of_line(line: Seq<u8>) -> Option<int> {
    if !contains_seq(line, vstd::utf8::encode_utf8("Content-Length"@)) {
        None
    } else {
        let c1 = find_byte(line, 0x3a, 0);
        if c1 == line.len() {
            None
        } else {
            let c2 = find_byte(line, 0x3a, c1 + 1);
            spec_parse_decimal(trim_ws(line.subrange(c1 + 1, c2)))
        }
    }
}

/// Reads the `Content-Length` value off one header line.
pub fn content_length_of_line(line: &Vec<u8>) -> (r: Option<usize>)
    ensures
        r is Some <==> spec_cl_of_line(line@) is Some,
        r is Some ==> r->Some_0 as int == spec_cl_of_line(line@)->Some_0,
{
    let pat = "Content-Length".as_bytes_vec();
    if !contains_bytes(line, &pat) {
        return None;
    }
    let c1 = find_byte_from(line, 0x3a, 0);
    if c1 == line.len() {
        return None;
    }
    let c2 = find_byte_from(line, 0x3a, c1 + 1);
    let mut run: Vec<u8> = Vec::new();
    let mut i: usize = c1 + 1;
    proof {
        lemma_find_byte_le(line@, 0x3a, c1 + 1);
    }
    while i < c2
        invariant
            c1 + 1 <= i <= c2 <= line@.len(),
            run@ == line@.subrange(c1 + 1, i as int),
        decreases c2 - i,
    {
        proof {
            assert(run@.push(line@[i as int]) =~= line@.subrange(c1 + 1, i + 1));
        }
        run.push(line[i]);
        i = i + 1;
    }
    let trimmed = trim_ws_exec(&run);
    parse_decimal(&trimmed)
}

/// `find_byte` never runs past the end of the sequence.
pub proof fn lemma_find_byte_le(s: Seq<u8>, b: u8, from: int)
    requires
        0 <= from,
    ensures
        find_byte(s, b, from) <= s.len(),
        from <= s.len() ==> from <= find_byte(s, b, from),
    decreases s.len() - from,
{
    if from < s.len() && s[from] != b {
        lemma_find_byte_le(s, b, from + 1);
    }
}

/// The `Content-Length` of a header-line list: the last line that names
/// the header and parses decides; zero without one.
pub open spec fn spec_content_length(lines: Seq<Seq<u8>>) -> int
    decreases lines.len(),
{
    if lines.len() == 0 {
        0
    } else {
        match spec_cl_of_line(lines.last()) {
            Some(v) => v,
            None => spec_content_length(lines.drop_last()),
        }
    }
}

/// Whether the header lines announce chunked transfer encoding.
pub open spec fn spec_is_chunked(lines: Seq<Seq<u8>>) -> bool {
    exists|i: int|
        0 <= i < lines.len() && trim_ws(#[trigger] lines[i]) == vstd::utf8::encode_utf8(
            "Transfer-Encoding: chunked"@,
        )
}

/// What response headers tell the body reader: how many bytes to read, or
/// that the body arrives chunked.
pub struct HeaderInfo {
    pub content_length: usize,
    pub chunked: bool,
}

/// Reads the body framing out of the response header lines.
pub fn parse_headers(lines: &Vec<Vec<u8>>) -> (r: HeaderInfo)
    ensures
        r.content_length as int == spec_content_length(lines@.map_values(|l: Vec<u8>| l@)),
        r.chunked == spec_is_chunked(lines@.map_values(|l: Vec<u8>| l@)),
{
    let ghost model = lines@.map_values(|l: Vec<u8>| l@);
    let mut content_length: usize = 0;
    let mut chunked = false;
    let target = "Transfer-Encoding: chunked".as_bytes_vec();
    let mut i: usize = 0;
    proof {
        assert(model.take(0int) =~= Seq::<Seq<u8>>::empty());
    }
    while i < lines.len()
        invariant
            i <= lines@.len(),
            model == lines@.map_values(|l: Vec<u8>| l@),
            target@ == vstd::utf8::encode_utf8("Transfer-Encoding: chunked"@),
            content_length as int == spec_content_length(model.take(i as int)),
            chunked == spec_is_chunked(model.take(i as int)),
        decreases lines@.len() - i,
    {
        proof {
            assert(model.take(i + 1).drop_last() =~= model.take(i as int));
            assert(model.take(i + 1).last() == model[i as int]);
            assert(model[i as int] == lines@[i as int]@);
        }
        match content_length_of_line(&lines[i]) {
            Some(v) => {
                content_length = v;
            },
            None => {},
        }
        let trimmed = trim_ws_exec(&lines[i]);
        if bytes_eq(&trimmed, &target) {
            chunked = true;
        }
        proof {
            let pre = model.take(i as int);
            let post = model.take(i + 1);
            assert(chunked == spec_is_chunked(post)) by {
                if trim_ws(model[i as int]) == vstd::utf8::encode_utf8(
                    "Transfer-Encoding: chunked"@,
                ) {
                    assert(post[i as int] == model[i as int]);
                } else {
                    if spec_is_chunked(post) {
                        let w = choose|w: int|
                            0 <= w < post.len() && trim_ws(#[trigger] post[w])
                                == vstd::utf8::encode_utf8("Transfer-Encoding: chunked"@);
                        if w < i {
                            assert(pre[w] == post[w]);
                        }
                    }
                    if spec_is_chunked(pre) {
                        let w = choose|w: int|
                            0 <= w < pre.len() && trim_ws(#[trigger] pre[w])
                                == vstd::utf8::encode_utf8("Transfer-Encoding: chunked"@);
                        assert(post[w] == pre[w]);
                    }
                }
            }
        }
        i = i + 1;
    }
    proof {
        assert(model.take(model.len() as int) =~= model);
    }
    HeaderInfo { content_length, chunked }
}

/// The index of the first CRLF pair in `s`, or the length of `s`.
pub open spec fn find_crlf(s: Seq<u8>, from: int) -> int
    decreases s.len() - from,
{
    if from < 0 || from + 1 >= s.len() {
        s.len() as int
    } else if s[from] == 0x0d && s[from + 1] == 0x0a {
        from
    } else {
        find_crlf(s, from + 1)
    }
}

/// Finds the first CRLF pair in `v` at or after `from`.
pub fn find_crlf_from(v: &Vec<u8>, from: usize) -> (r: usize)
    ensures
        r as int == find_crlf(v@, from as int),
        r <= v@.len(),
{
    let n = v.len();
    if n < 2 || from >= n - 1 {
        proof {
            assert(find_crlf(v@, from as int) == n as int);
        }
        return n;
    }
    let mut i = from;
    while i < n - 1 && !(v[i] == 0x0d && v[i + 1] == 0x0a)
        invariant
            i <= n - 1,
            2 <= n == v@.len(),
            find_crlf(v@, from as int) == find_crlf(v@, i as int),
        decreases n - i,
    {
        i = i + 1;
    }
    if i == n - 1 {
        proof {
            assert(find_crlf(v@, i as int) == n as int);
        }
        n
    } else {
        i
    }
}

/// The decoded payload of a chunked body: repeatedly a hex size line, that
/// many bytes, and a CRLF, stopping at a zero-size chunk; `None` when the
/// framing is broken.
pub open spec fn spec_decode_chunked(s: Seq<u8>) -> Option<Seq<u8>>
    decreases s.len(),
{
    let eol = find_crlf(s, 0);
    if eol < 0 || eol >= s.len() {
        None
    } else {
        match spec_parse_hex(trim_ws(s.subrange(0, eol))) {
            None => None,
            Some(sz) => if sz == 0 {
                Some(Seq::<u8>::empty())
            } else if sz > 0 && eol + 2 + sz + 2 <= s.len() && s[eol + 2 + sz] == 0x0d && s[eol + 2
                + sz + 1] == 0x0a {
                match spec_decode_chunked(s.subrange(eol + 2 + sz + 2, s.len() as int)) {
                    None => None,
                    Some(rest) => Some(s.subrange(eol + 2, eol + 2 + sz) + rest),
                }
            } else {
                None
            },
        }
    }
}

/// Decodes a chunked transfer body, or reports a protocol error where the
/// framing is broken.
pub fn decode_chunked(body: &Vec<u8>) -> (r: Result<Vec<u8>, ClientError>)
    ensures
        r is Ok <==> spec_decode_chunked(body@) is Some,
        r is Ok ==> r->Ok_0@ == spec_decode_chunked(body@)->Some_0,
        r is Err ==> r->Err_0 is Protocol,
{
    let n = body.len();
    let mut acc: Vec<u8> = Vec::new();
    let mut i: usize = 0;
    proof {
        assert(body@.subrange(0, n as int) =~= body@);
    }
    while i <= n
        invariant
            i <= n,
            n == body@.len(),
            ({
                let whole = spec_decode_chunked(body@);
                let rest = spec_decode_chunked(body@.subrange(i as int, n as int));
                &&& (rest is Some ==> whole is Some && whole->Some_0 == acc@ + rest->Some_0)
                &&& (rest is None ==> whole is None)
            }),
        decreases n - i,
    {
        let ghost seg = body@.subrange(i as int, n as int);
        let eol = find_crlf_from(body, i);
        proof {
            lemma_find_crlf_shift(body@, i as int);
            lemma_find_crlf_ge(body@, i as int);
        }
        if eol == n {
            return Err(ClientError::Protocol);
        }
        let mut size_run: Vec<u8> = Vec::new();
        let mut j: usize = i;
        while j < eol
            invariant
                i <= j <= eol <= n,
                n == body@.len(),
                size_run@ == body@.subrange(i as int, j as int),
            decreases eol - j,
        {
            proof {
                assert(size_run@.push(body@[j as int]) =~= body@.subrange(i as int, j + 1));
            }
            size_run.push(body[j]);
            j = j + 1;
        }
        proof {
            assert(seg.subrange(0, eol - i) =~= body@.subrange(i as int, eol as int));
        }
        let trimmed = trim_ws_exec(&size_run);
        let sz = match parse_hex(&trimmed) {
            Some(sz) => sz,
            None => {
                return Err(ClientError::Protocol);
            },
        };
        if sz == 0 {
            proof {
                assert(acc@ + Seq::<u8>::empty() =~= acc@);
            }
            return Ok(acc);
        }
        if !(eol <= n - 2 && sz <= n - 2 - eol && 2 <= n - 2 - eol - sz) {
            proof {
                assert((eol - i) + 2 + sz + 2 > seg.len());
            }
            return Err(ClientError::Protocol);
        }
        if !(body[eol + 2 + sz] == 0x0d && body[eol + 2 + sz + 1] == 0x0a) {
            proof {
                assert(seg[(eol - i) + 2 + sz] == body@[eol + 2 + sz]);
                assert(seg[(eol - i) + 2 + sz + 1] == body@[eol + 2 + sz + 1]);
            }
            return Err(ClientError::Protocol);
        }
        let mut k: usize = eol + 2;
        let stop = eol + 2 + sz;
        let ghost acc0 = acc@;
        while k < stop
            invariant
                eol + 2 <= k <= stop <= n,
                n == body@.len(),
                acc@ == acc0 + body@.subrange(eol + 2, k as int),
            decreases stop - k,
        {
            proof {
                assert((acc0 + body@.subrange(eol + 2, k as int)).push(body@[k as int])
                    =~= acc0 + body@.subrange(eol + 2, k + 1));
            }
            acc.push(body[k]);
            k = k + 1;
        }
        proof {
            let eoli = eol - i;
            assert(seg.subrange(eoli + 2, eoli + 2 + sz) =~= body@.subrange(
                eol + 2,
                eol + 2 + sz,
            ));
            assert(seg[eoli + 2 + sz] == body@[eol + 2 + sz]);
            assert(seg[eoli + 2 + sz + 1] == body@[eol + 2 + sz + 1]);
            assert(seg.subrange(eoli + 2 + sz + 2, seg.len() as int) =~= body@.subrange(
                (eol + 2 + sz + 2) as int,
                n as int,
            ));
            assert(acc0 + (seg.subrange(eoli + 2, eoli + 2 + sz) + spec_decode_chunked(
                seg.subrange(eoli + 2 + sz + 2, seg.len() as int),
            )->Some_0) =~= (acc0 + seg.subrange(eoli + 2, eoli + 2 + sz)) + spec_decode_chunked(
                seg.subrange(eoli + 2 + sz + 2, seg.len() as int),
            )->Some_0);
        }
        i = eol + 2 + sz + 2;
    }
    proof {
        assert(body@.subrange(n as int, n as int) =~= Seq::<u8>::empty());
        assert(find_crlf(Seq::<u8>::empty(), 0) == 0);
    }
    Err(ClientError::Protocol)
}

/// Searching for a CRLF in a suffix matches searching in the whole from
/// that offset.
pub proof fn lemma_find_crlf_shift(s: Seq<u8>, i: int)
    requires
        0 <= i <= s.len(),
    ensures
        find_crlf(s, i) == i + find_crlf(s.subrange(i, s.len() as int), 0),
{
    lemma_find_crlf_shift_helper(s, i, i);
}

proof fn lemma_find_crlf_shift_helper(s: Seq<u8>, base: int, j: int)
    requires
        0 <= base <= j <= s.len(),
    ensures
        find_crlf(s, j) == base + find_crlf(s.subrange(base, s.len() as int), j - base),
    decreases s.len() - j,
{
    let seg = s.subrange(base, s.len() as int);
    if j + 1 >= s.len() {
        assert(find_crlf(s, j) == s.len());
        assert(find_crlf(seg, j - base) == seg.len());
    } else if s[j] == 0x0d && s[j + 1] == 0x0a {
        assert(seg[j - base] == s[j]);
        assert(seg[j - base + 1] == s[j + 1]);
    } else {
        assert(seg[j - base] == s[j]);
        assert(seg[j - base + 1] == s[j + 1]);
        lemma_find_crlf_shift_helper(s, base, j + 1);
    }
}


/// A CRLF search never lands before its starting offset.
pub proof fn lemma_find_crlf_ge(s: Seq<u8>, from: int)
    requires
        0 <= from <= s.len(),
    ensures
        find_crlf(s, from) >= from,
    decreases s.len() - from,
{
    if from + 1 < s.len() && !(s[from] == 0x0d && s[from + 1] == 0x0a) {
        lemma_find_crlf_ge(s, from + 1);
    }
}


/// The fixed parameter set for the OpenAI API: the system prompt rides as
/// a leading system-role message.
pub open spec fn spec_openai_params(
    r: RequestParams,
    sys: Seq<char>,
    hist: Seq<Message>,
    stream: bool,
    tok: Seq<char>,
) -> bool {
    &&& r.provider is OpenAi
    &&& r.host@ == vstd::utf8::encode_utf8("api.openai.com"@)
    &&& r.path@ == vstd::utf8::encode_utf8("/v1/chat/completions"@)
    &&& r.port == 443
    &&& r.model@ == vstd::utf8::encode_utf8("gpt-4o-mini"@)
    &&& r.stream == stream
    &&& r.authorization_token@ == vstd::utf8::encode_utf8(tok)
    &&& r.max_tokens is None
    &&& r.system_prompt is None
    &&& r.messages@.len() == hist.len() + 1
    &&& r.messages@[0].message_type is System
    &&& r.messages@[0].content@ == vstd::utf8::encode_utf8(sys)
    &&& crate::message::same_messages(r.messages@.skip(1), hist)
}

/// The fixed parameter set for the Groq API, shaped like OpenAI's.
pub open spec fn spec_groq_params(
    r: RequestParams,
    sys: Seq<char>,
    hist: Seq<Message>,
    stream: bool,
    tok: Seq<char>,
) -> bool {
    &&& r.provider is Groq
    &&& r.host@ == vstd::utf8::encode_utf8("api.groq.com"@)
    &&& r.path@ == vstd::utf8::encode_utf8("/openai/v1/chat/completions"@)
    &&& r.port == 443
    &&& r.model@ == vstd::utf8::encode_utf8("llama-3.2-90b-text-preview"@)
    &&& r.stream == stream
    &&& r.authorization_token@ == vstd::utf8::encode_utf8(tok)
    &&& r.max_tokens is None
    &&& r.system_prompt is None
    &&& r.messages@.len() == hist.len() + 1
    &&& r.messages@[0].message_type is System
    &&& r.messages@[0].content@ == vstd::utf8::encode_utf8(sys)
    &&& crate::message::same_messages(r.messages@.skip(1), hist)
}

/// The parameter set for the Anthropic API: the system prompt is a
/// top-level field, a token limit rides along, and the caller names the
/// model (model selection is configuration, not wire format).
pub open spec fn spec_anthropic_params(
    r: RequestParams,
    model: Seq<char>,
    sys: Seq<char>,
    hist: Seq<Message>,
    stream: bool,
    tok: Seq<char>,
) -> bool {
    &&& r.provider is Anthropic
    &&& r.host@ == vstd::utf8::encode_utf8("api.anthropic.com"@)
    &&& r.path@ == vstd::utf8::encode_utf8("/v1/messages"@)
    &&& r.port == 443
    &&& r.model@ == vstd::utf8::encode_utf8(model)
    &&& r.stream == stream
    &&& r.authorization_token@ == vstd::utf8::encode_utf8(tok)
    &&& r.max_tokens == Some(4096u16)
    &&& r.system_prompt is Some
    &&& r.system_prompt->Some_0@ == vstd::utf8::encode_utf8(sys)
    &&& crate::message::same_messages(r.messages@, hist)
}

/// The fixed parameter set for the Gemini API: the system prompt becomes a
/// system instruction and the key rides in the query string.
pub open spec fn spec_gemini_params(
    r: RequestParams,
    sys: Seq<char>,
    hist: Seq<Message>,
    stream: bool,
    tok: Seq<char>,
) -> bool {
    &&& r.provider is Gemini
    &&& r.host@ == vstd::utf8::encode_utf8("generativelanguage.googleapis.com"@)
    &&& r.path@ == vstd::utf8::encode_utf8(
        "/v1beta/models/gemini-1.5-flash-latest:generateContent"@,
    )
    &&& r.port == 443
    &&& r.model@ == Seq::<u8>::empty()
    &&& r.stream == stream
    &&& r.authorization_token@ == vstd::utf8::encode_utf8(tok)
    &&& r.max_tokens == Some(4096u16)
    &&& r.system_prompt is Some
    &&& r.system_prompt->Some_0@ == vstd::utf8::encode_utf8(sys)
    &&& crate::message::same_messages(r.messages@, hist)
}

/// Builds the OpenAI request parameters.
pub fn get_openai_request_params(
    system_prompt: String,
    chat_history: &Vec<Message>,
    stream: bool,
    authorization_token: String,
) -> (r: RequestParams)
    ensures
        spec_openai_params(r, system_prompt@, chat_history@, stream, authorization_token@),
{
    let mut messages: Vec<Message> = Vec::new();
    messages.push(
        Message::new(MessageType::System, system_prompt.as_str().as_bytes_vec()),
    );
    let mut rest = crate::message::clone_messages(chat_history);
    messages.append(&mut rest);
    proof {
        assert(messages@.skip(1) =~= messages@.subrange(1, messages@.len() as int));
    }
    RequestParams {
        provider: ApiProvider::OpenAi,
        host: "api.openai.com".as_bytes_vec(),
        path: "/v1/chat/completions".as_bytes_vec(),
        port: 443,
        messages,
        model: "gpt-4o-mini".as_bytes_vec(),
        stream,
        authorization_token: authorization_token.as_str().as_bytes_vec(),
        max_tokens: None,
        system_prompt: None,
    }
}

/// Builds the Groq request parameters.
pub fn get_groq_request_params(
    system_prompt: String,
    chat_history: &Vec<Message>,
    stream: bool,
    authorization_token: String,
) -> (r: RequestParams)
    ensures
        spec_groq_params(r, system_prompt@, chat_history@, stream, authorization_token@),
{
    let mut messages: Vec<Message> = Vec::new();
    messages.push(
        Message::new(MessageType::System, system_prompt.as_str().as_bytes_vec()),
    );
    let mut rest = crate::message::clone_messages(chat_history);
    messages.append(&mut rest);
    proof {
        assert(messages@.skip(1) =~= messages@.subrange(1, messages@.len() as int));
    }
    RequestParams {
        provider: ApiProvider::Groq,
        host: "api.groq.com".as_bytes_vec(),
        path: "/openai/v1/chat/completions".as_bytes_vec(),
        port: 443,
        messages,
        model: "llama-3.2-90b-text-preview".as_bytes_vec(),
        stream,
        authorization_token: authorization_token.as_str().as_bytes_vec(),
        max_tokens: None,
        system_prompt: None,
    }
}

/// Builds the Anthropic request parameters; the caller names the model.
pub fn get_anthropic_request_params(
    model: String,
    system_prompt: String,
    chat_history: &Vec<Message>,
    stream: bool,
    authorization_token: String,
) -> (r: RequestParams)
    ensures
        spec_anthropic_params(
            r,
            model@,
            system_prompt@,
            chat_history@,
            stream,
            authorization_token@,
        ),
        params_ok(r),
{
    RequestParams {
        provider: ApiProvider::Anthropic,
        host: "api.anthropic.com".as_bytes_vec(),
        path: "/v1/messages".as_bytes_vec(),
        port: 443,
        messages: crate::message::clone_messages(chat_history),
        model: model.as_str().as_bytes_vec(),
        stream,
        authorization_token: authorization_token.as_str().as_bytes_vec(),
        max_tokens: Some(4096),
        system_prompt: Some(system_prompt.as_str().as_bytes_vec()),
    }
}

/// Builds the Gemini request parameters. A history holding a system-role
/// message has no Gemini form, so the caller keeps those out.
pub fn get_gemini_request_params(
    system_prompt: String,
    chat_history: &Vec<Message>,
    stream: bool,
    authorization_token: String,
) -> (r: RequestParams)
    requires
        no_system_messages(chat_history@),
    ensures
        spec_gemini_params(r, system_prompt@, chat_history@, stream, authorization_token@),
        params_ok(r),
{
    let model: Vec<u8> = Vec::new();
    let messages = crate::message::clone_messages(chat_history);
    proof {
        assert forall|i: int| 0 <= i < messages@.len() implies !((#[trigger]
        messages@[i]).message_type is System) by {
            assert(messages@[i].message_type == chat_history@[i].message_type);
        }
    }
    RequestParams {
        provider: ApiProvider::Gemini,
        host: "generativelanguage.googleapis.com".as_bytes_vec(),
        path: "/v1beta/models/gemini-1.5-flash-latest:generateContent".as_bytes_vec(),
        port: 443,
        messages,
        model,
        stream,
        authorization_token: authorization_token.as_str().as_bytes_vec(),
        max_tokens: Some(4096),
        system_prompt: Some(system_prompt.as_str().as_bytes_vec()),
    }
}

/// The request parameters for a provider, or `None` where the combination
/// is unsupported: Gemini offers no streaming endpoint here.
pub fn request_params_for(
    provider: ApiProvider,
    anthropic_model: String,
    system_prompt: String,
    chat_history: &Vec<Message>,
    stream: bool,
    authorization_token: String,
) -> (r: Option<RequestParams>)
    requires
        provider is Gemini ==> no_system_messages(chat_history@),
    ensures
        r is None <==> (provider is Gemini && stream),
        r is Some ==> ({
            let p = r->Some_0;
            &&& (provider is OpenAi ==> spec_openai_params(
                p,
                system_prompt@,
                chat_history@,
                stream,
                authorization_token@,
            ))
            &&& (provider is Groq ==> spec_groq_params(
                p,
                system_prompt@,
                chat_history@,
                stream,
                authorization_token@,
            ))
            &&& (provider is Anthropic ==> spec_anthropic_params(
                p,
                anthropic_model@,
                system_prompt@,
                chat_history@,
                stream,
                authorization_token@,
            ))
            &&& (provider is Gemini ==> spec_gemini_params(
                p,
                system_prompt@,
                chat_history@,
                stream,
                authorization_token@,
            ))
        }),
{
    match provider {
        ApiProvider::OpenAi => Some(
            get_openai_request_params(system_prompt, chat_history, stream, authorization_token),
        ),
        ApiProvider::Groq => Some(
            get_groq_request_params(system_prompt, chat_history, stream, authorization_token),
        ),
        ApiProvider::Anthropic => Some(
            get_anthropic_request_params(
                anthropic_model,
                system_prompt,
                chat_history,
                stream,
                authorization_token,
            ),
        ),
        ApiProvider::Gemini => {
            if stream {
                None
            } else {
                Some(
                    get_gemini_request_params(
                        system_prompt,
                        chat_history,
                        stream,
                        authorization_token,
                    ),
                )
            }
        },
    }
}

} // verus!
