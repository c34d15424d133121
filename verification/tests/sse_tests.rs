use tllm::http::{ApiProvider, ClientError};
use tllm::sse::{
    anthropic_stream_step, decode_delta, extract_response_content, openai_stream_step,
    process_anthropic_sse_lines, process_openai_sse_lines, unescape, StreamStep,
};

#[test]
fn openai_stream_yields_one_delta_then_terminates() {
    let lines: Vec<Vec<u8>> = vec![
        b"data: {\"choices\":[{\"delta\":{\"content\":\"Hi\"}}]}\n".to_vec(),
        b"data: [DONE]\n".to_vec(),
        b"data: {\"choices\":[{\"delta\":{\"content\":\"never\"}}]}\n".to_vec(),
    ];
    let deltas = process_openai_sse_lines(&lines);
    assert_eq!(deltas, vec![b"Hi".to_vec()]);
}

#[test]
fn openai_step_skips_events_without_content() {
    let line = b"data: {\"choices\":[{\"delta\":{}}]}\n".to_vec();
    assert!(matches!(openai_stream_step(&line), StreamStep::Skip));
    let other = b": keep-alive comment\n".to_vec();
    assert!(matches!(openai_stream_step(&other), StreamStep::Skip));
    let done = b"data: [DONE]\n".to_vec();
    assert!(matches!(openai_stream_step(&done), StreamStep::Done));
    let empty = b"data: \n".to_vec();
    assert!(matches!(openai_stream_step(&empty), StreamStep::Done));
}

#[test]
fn openai_step_unescapes_delta_text() {
    let line = b"data: {\"choices\":[{\"delta\":{\"content\":\"a\\nb\"}}]}\n".to_vec();
    match openai_stream_step(&line) {
        StreamStep::Delta(d) => assert_eq!(d, b"a\nb".to_vec()),
        _ => panic!("expected a delta"),
    }
}

#[test]
fn openai_step_survives_bad_json() {
    let line = b"data: {not json\n".to_vec();
    // A parse failure substitutes a skipped null delta; the stream goes on.
    assert!(matches!(openai_stream_step(&line), StreamStep::Skip));
}

#[test]
fn anthropic_stream_stops_at_message_stop() {
    let lines: Vec<Vec<u8>> = vec![
        b"event: content_block_delta\n".to_vec(),
        b"data: {\"type\":\"content_block_delta\",\"delta\":{\"text\":\"He\"}}\n".to_vec(),
        b"data: {\"type\":\"content_block_delta\",\"delta\":{\"text\":\"llo\"}}\n".to_vec(),
        b"event: message_stop\n".to_vec(),
        b"data: {\"type\":\"content_block_delta\",\"delta\":{\"text\":\"never\"}}\n".to_vec(),
    ];
    let deltas = process_anthropic_sse_lines(&lines);
    assert_eq!(deltas, vec![b"He".to_vec(), b"llo".to_vec()]);
}

#[test]
fn anthropic_step_filters_event_types() {
    let other = b"data: {\"type\":\"message_start\",\"delta\":{\"text\":\"x\"}}\n".to_vec();
    assert!(matches!(anthropic_stream_step(&other), StreamStep::Skip));
    let stop = b"event: message_stop\n".to_vec();
    assert!(matches!(anthropic_stream_step(&stop), StreamStep::Done));
}

#[test]
fn delta_decoding_strips_quotes_and_skips_null() {
    assert_eq!(decode_delta(&b"\"Hi\"".to_vec()), Some(b"Hi".to_vec()));
    assert_eq!(decode_delta(&b"null".to_vec()), None);
    assert_eq!(decode_delta(&b"\"a\\\"b\"".to_vec()), Some(b"a\"b".to_vec()));
}

#[test]
fn unescape_handles_each_escape() {
    assert_eq!(unescape(&b"a\\nb".to_vec()), b"a\nb".to_vec());
    assert_eq!(unescape(&b"a\\\\b".to_vec()), b"a\\b".to_vec());
    assert_eq!(unescape(&b"a\\'b".to_vec()), b"a'b".to_vec());
    assert_eq!(unescape(&b"a\\\"b".to_vec()), b"a\"b".to_vec());
    assert_eq!(unescape(&b"plain".to_vec()), b"plain".to_vec());
}

#[test]
fn response_content_follows_each_provider_path() {
    let openai_body = b"{\"choices\":[{\"message\":{\"content\":\"four\"}}]}".to_vec();
    assert_eq!(
        extract_response_content(ApiProvider::OpenAi, &openai_body),
        Ok(b"four".to_vec())
    );
    let anthropic_body = b"{\"content\":[{\"text\":\"four\"}]}".to_vec();
    assert_eq!(
        extract_response_content(ApiProvider::Anthropic, &anthropic_body),
        Ok(b"four".to_vec())
    );
    let gemini_body =
        b"{\"candidates\":[{\"content\":{\"parts\":[{\"text\":\"four\"}]}}]}".to_vec();
    assert_eq!(
        extract_response_content(ApiProvider::Gemini, &gemini_body),
        Ok(b"four".to_vec())
    );
}

#[test]
fn response_content_flags_bad_payload() {
    let body = b"this is not json".to_vec();
    assert_eq!(
        extract_response_content(ApiProvider::OpenAi, &body),
        Err(ClientError::Payload)
    );
}
