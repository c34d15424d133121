use tllm::http::{
    build_body, build_request, bytes_eq, contains_bytes, content_length_of_line, decimal_exec,
    decode_chunked, get_anthropic_request_params, get_gemini_request_params,
    get_groq_request_params, get_openai_request_params, json_escape_exec, parse_decimal,
    parse_headers, parse_hex, request_params_for, trim_ws_exec, ApiProvider, ClientError,
};
use tllm::message::{Message, MessageType};

#[test]
fn chunked_round_trip() {
    let body = b"5\r\nHello\r\n6\r\n World\r\n0\r\n\r\n".to_vec();
    let decoded = decode_chunked(&body).unwrap();
    assert_eq!(decoded, b"Hello World".to_vec());
}

#[test]
fn chunked_rejects_missing_size_line() {
    let body = b"no chunk framing here".to_vec();
    assert_eq!(decode_chunked(&body), Err(ClientError::Protocol));
}

#[test]
fn chunked_rejects_bad_hex() {
    let body = b"zz\r\nHello\r\n0\r\n\r\n".to_vec();
    assert_eq!(decode_chunked(&body), Err(ClientError::Protocol));
}

#[test]
fn chunked_rejects_truncated_chunk() {
    let body = b"5\r\nHel".to_vec();
    assert_eq!(decode_chunked(&body), Err(ClientError::Protocol));
}

#[test]
fn header_parsing_reads_length_and_encoding() {
    let lines: Vec<Vec<u8>> = vec![
        b"HTTP/1.1 200 OK\r\n".to_vec(),
        b"Content-Length: 42\r\n".to_vec(),
        b"Transfer-Encoding: chunked\r\n".to_vec(),
    ];
    let info = parse_headers(&lines);
    assert_eq!(info.content_length, 42);
    assert!(info.chunked);
}

#[test]
fn header_parsing_without_framing_headers() {
    let lines: Vec<Vec<u8>> = vec![b"Content-Type: application/json\r\n".to_vec()];
    let info = parse_headers(&lines);
    assert_eq!(info.content_length, 0);
    assert!(!info.chunked);
}

#[test]
fn content_length_line_parses_the_number() {
    assert_eq!(content_length_of_line(&b"Content-Length: 123\r\n".to_vec()), Some(123));
    assert_eq!(content_length_of_line(&b"Content-Type: text/plain\r\n".to_vec()), None);
    assert_eq!(content_length_of_line(&b"Content-Length: nope\r\n".to_vec()), None);
}

#[test]
fn json_escaping_covers_the_specials() {
    let raw = b"a\"b\\c\nd\te".to_vec();
    assert_eq!(json_escape_exec(&raw), b"a\\\"b\\\\c\\nd\\te".to_vec());
    let ctl = vec![0x01u8];
    assert_eq!(json_escape_exec(&ctl), b"\\u0001".to_vec());
}

#[test]
fn decimal_and_hex_parsing() {
    assert_eq!(decimal_exec(0), b"0".to_vec());
    assert_eq!(decimal_exec(407), b"407".to_vec());
    assert_eq!(parse_decimal(&b"407".to_vec()), Some(407));
    assert_eq!(parse_decimal(&b"".to_vec()), None);
    assert_eq!(parse_decimal(&b"4x7".to_vec()), None);
    assert_eq!(parse_hex(&b"1a".to_vec()), Some(26));
    assert_eq!(parse_hex(&b"FF".to_vec()), Some(255));
    assert_eq!(parse_hex(&b"g".to_vec()), None);
}

#[test]
fn trim_and_contains_and_eq() {
    assert_eq!(trim_ws_exec(&b"  hi \r\n".to_vec()), b"hi".to_vec());
    assert!(contains_bytes(&b"Content-Length: 3".to_vec(), &b"Content-Length".to_vec()));
    assert!(!contains_bytes(&b"short".to_vec(), &b"longer pattern".to_vec()));
    assert!(bytes_eq(&b"same".to_vec(), &b"same".to_vec()));
    assert!(!bytes_eq(&b"same".to_vec(), &b"diff".to_vec()));
}

#[test]
fn openai_request_is_framed_exactly() {
    let history = vec![Message::new(MessageType::User, b"2+2?".to_vec())];
    let params = get_openai_request_params(
        "be brief".to_string(),
        &history,
        false,
        "SECRET-REDACTED".to_string(),
    );
    let body = build_body(&params);
    let expected_body = format!(
        "{{\"messages\":[{},{}],\"model\":\"gpt-4o-mini\",\"stream\":false}}",
        "{\"content\":\"be brief\",\"role\":\"system\"}",
        "{\"content\":\"2+2?\",\"role\":\"user\"}"
    );
    assert_eq!(body, expected_body.as_bytes().to_vec());
    let request = build_request(&params);
    let request_text = String::from_utf8(request).unwrap();
    assert!(request_text.starts_with("POST /v1/chat/completions HTTP/1.1\r\n"));
    assert!(request_text.contains("Host: api.openai.com\r\n"));
    assert!(request_text.contains(&format!("Content-Length: {}\r\n", expected_body.len())));
    assert!(request_text.contains("Authorization: Bearer SECRET-REDACTED\r\n"));
    assert!(request_text.ends_with(&expected_body));
}

#[test]
fn anthropic_request_carries_system_and_version() {
    let history = vec![Message::new(MessageType::User, b"hi".to_vec())];
    let params = get_anthropic_request_params(
        "m-latest".to_string(),
        "sys".to_string(),
        &history,
        true,
        "SECRET-REDACTED".to_string(),
    );
    let request = build_request(&params);
    let text = String::from_utf8(request).unwrap();
    assert!(text.contains("x-api-key: SECRET-REDACTED\r\n"));
    assert!(text.contains("anthropic-version: 2023-06-01\r\n"));
    assert!(text.contains("\"max_tokens\":4096"));
    assert!(text.contains("\"model\":\"m-latest\""));
    assert!(text.contains("\"system\":\"sys\""));
    assert!(text.contains("\"stream\":true"));
}

#[test]
fn gemini_request_keys_in_query_string() {
    let history = vec![Message::new(MessageType::User, b"hi".to_vec())];
    let params = get_gemini_request_params(
        "sys".to_string(),
        &history,
        false,
        "SECRET-REDACTED".to_string(),
    );
    let request = build_request(&params);
    let text = String::from_utf8(request).unwrap();
    assert!(text.starts_with(
        "POST /v1beta/models/gemini-1.5-flash-latest:generateContent?key=SECRET-REDACTED HTTP/1.1\r\n"
    ));
    assert!(text.contains("\"role\":\"user\""));
    assert!(text.contains("\"systemInstruction\":{\"parts\":[{\"text\":\"sys\"}]}"));
}

#[test]
fn groq_request_uses_its_own_host() {
    let history: Vec<Message> = Vec::new();
    let params = get_groq_request_params(
        "".to_string(),
        &history,
        true,
        "SECRET-REDACTED".to_string(),
    );
    assert_eq!(params.host, b"api.groq.com".to_vec());
    assert_eq!(params.model, b"llama-3.2-90b-text-preview".to_vec());
    assert_eq!(params.port, 443);
}

#[test]
fn streaming_is_refused_for_gemini_only() {
    let history: Vec<Message> = Vec::new();
    assert!(request_params_for(
        ApiProvider::Gemini,
        "m".to_string(),
        "".to_string(),
        &history,
        true,
        "k".to_string(),
    )
    .is_none());
    for provider in [ApiProvider::OpenAi, ApiProvider::Groq, ApiProvider::Anthropic] {
        assert!(request_params_for(
            provider,
            "m".to_string(),
            "".to_string(),
            &history,
            true,
            "k".to_string()
        )
        .is_some());
    }
    assert!(request_params_for(
        ApiProvider::Gemini,
        "m".to_string(),
        "".to_string(),
        &history,
        false,
        "k".to_string(),
    )
    .is_some());
}
