use tllm::message::MessageType;
use tllm::session::{
    poll_timeout_ms, ChatInputMode, ChatState, Key, KeyInput, KeyOutcome, WindowView,
};

fn key(code: Key) -> KeyInput {
    KeyInput { code, shift: false, ctrl: false }
}

#[test]
fn submit_appends_user_and_placeholder_assistant() {
    let mut s = ChatState::new();
    s.input_wrapped.insert("2+2?", 0, 0);
    let snapshot = s.submit_message().expect("non-empty input must submit");
    assert_eq!(s.chat_messages.len(), 2);
    assert!(matches!(s.chat_messages[0].message_type, MessageType::User));
    assert_eq!(s.chat_messages[0].content, b"2+2?".to_vec());
    assert!(matches!(s.chat_messages[1].message_type, MessageType::Assistant));
    assert_eq!(s.chat_messages[1].content, Vec::<u8>::new());
    assert_eq!(snapshot.len(), 2);
    assert_eq!(snapshot[0].content, b"2+2?".to_vec());
    assert_eq!(s.input_wrapped.content, Vec::<u8>::new());
}

#[test]
fn submit_of_empty_input_does_nothing() {
    let mut s = ChatState::new();
    assert!(s.submit_message().is_none());
    assert_eq!(s.chat_messages.len(), 0);
}

#[test]
fn streamed_deltas_concatenate_into_the_reply() {
    let mut s = ChatState::new();
    s.input_wrapped.insert("2+2?", 0, 0);
    s.submit_message().unwrap();
    let generation = s.generation;
    for d in [b"fo".to_vec(), b"ur".to_vec()] {
        s.receive_delta(&d, generation);
    }
    let last = s.chat_messages.last().unwrap();
    assert!(matches!(last.message_type, MessageType::Assistant));
    assert_eq!(last.content, b"four".to_vec());
    assert_eq!(s.chat_messages[0].content, b"2+2?".to_vec());
}

#[test]
fn stale_deltas_are_discarded() {
    let mut s = ChatState::new();
    s.input_wrapped.insert("2+2?", 0, 0);
    s.submit_message().unwrap();
    let stale = s.generation.wrapping_sub(1);
    s.receive_delta(&b"ghost".to_vec(), stale);
    assert_eq!(s.chat_messages.last().unwrap().content, Vec::<u8>::new());
}

#[test]
fn submission_is_disabled_while_a_reply_streams() {
    let mut s = ChatState::new();
    s.input_wrapped.insert("first", 0, 0);
    assert!(s.submit_message().is_some());
    assert!(s.stream_in_flight);
    s.input_wrapped.insert("second", 0, 0);
    assert!(s.submit_message().is_none());
    assert_eq!(s.chat_messages.len(), 2);
    s.stream_done();
    assert!(!s.stream_in_flight);
    assert!(s.submit_message().is_some());
    assert_eq!(s.chat_messages.len(), 4);
}

#[test]
fn normal_mode_keys_switch_views_and_modes() {
    let mut s = ChatState::new();
    assert!(matches!(s.handle_normal_key(key(Key::Char('i'))), KeyOutcome::Continue));
    assert!(matches!(s.input_mode, ChatInputMode::Insert));
    s.handle_insert_key(key(Key::Esc));
    assert!(matches!(s.input_mode, ChatInputMode::Normal));
    assert!(matches!(s.handle_normal_key(key(Key::Char('q'))), KeyOutcome::Leave));
    assert!(matches!(s.next_window, WindowView::Exit));
}

#[test]
fn window_views_cycle() {
    assert!(matches!(WindowView::Chat.next(), WindowView::Directory));
    assert!(matches!(WindowView::Directory.next(), WindowView::Chat));
    assert!(matches!(WindowView::Load.next(), WindowView::Exit));
    assert!(matches!(WindowView::Exit.next(), WindowView::Exit));
}

#[test]
fn typed_characters_land_in_the_input_pane() {
    let mut s = ChatState::new();
    s.input_wrapped.set_window_size(20, 10);
    s.handle_normal_key(key(Key::Char('i')));
    for c in ['h', 'i', '\t'] {
        s.handle_insert_key(key(Key::Char(c)));
    }
    assert_eq!(s.input_wrapped.content, b"hi    ".to_vec());
    assert!(s.pending_changes);
}

#[test]
fn backspaces_batch_and_apply_once() {
    let mut s = ChatState::new();
    s.input_wrapped.insert("abcd", 0, 0);
    s.input_wrapped.rewrap(20);
    s.input_cursor = (0, 4);
    s.handle_insert_key(key(Key::Backspace));
    s.handle_insert_key(key(Key::Backspace));
    assert_eq!(s.pending_deletions, 2);
    s.apply_pending_deletions(20);
    assert_eq!(s.input_wrapped.content, b"ab".to_vec());
    assert_eq!(s.pending_deletions, 0);
}

#[test]
fn pending_update_flows_into_the_transcript() {
    let mut s = ChatState::new();
    s.pending_chat_update = b"hello\n".to_vec();
    s.apply_pending_update(20);
    assert_eq!(s.chat_wrapped.content, b"hello\n".to_vec());
    assert_eq!(s.pending_chat_update, Vec::<u8>::new());
    let total: usize = s.chat_wrapped.line_lengths.iter().sum();
    assert_eq!(total, s.chat_wrapped.content.len());
}

#[test]
fn cursor_clamps_to_pane_bounds() {
    let mut s = ChatState::new();
    s.chat_wrapped.insert("ab\ncd", 0, 0);
    s.chat_wrapped.rewrap(20);
    s.chat_wrapped.set_window_size(20, 10);
    s.chat_cursor = (99, 99);
    s.clamp_cursor();
    assert!(s.chat_cursor.0 <= 1);
    assert!(s.chat_cursor.1 <= 3);
}

#[test]
fn page_overflow_pins_the_cursor_and_advances_the_page() {
    let mut s = ChatState::new();
    s.chat_wrapped.insert("a\nb\nc\nd\ne\nf\ng\nh", 0, 0);
    s.chat_wrapped.rewrap(20);
    s.chat_wrapped.set_window_size(20, 4);
    s.chat_cursor = (5, 0);
    s.apply_page_overflow();
    assert_eq!(s.chat_cursor.0, 1);
    assert!(s.chat_wrapped.page > 0);
    assert!(!s.pending_page_up);
}

#[test]
fn word_motion_jumps_whitespace_runs() {
    let mut s = ChatState::new();
    s.handle_normal_key(key(Key::Char('i')));
    s.input_wrapped.insert("one two", 0, 0);
    s.input_wrapped.rewrap(20);
    s.input_cursor = (0, 0);
    s.handle_insert_key(KeyInput { code: Key::Right, shift: false, ctrl: true });
    assert!(s.input_cursor.1 > 1);
}

#[test]
fn poll_timeout_shrinks_while_streaming() {
    assert_eq!(poll_timeout_ms(0), 5);
    assert_eq!(poll_timeout_ms(4999), 5);
    assert_eq!(poll_timeout_ms(5000), 25);
    assert_eq!(poll_timeout_ms(60000), 25);
}

#[test]
fn paste_moves_the_cursor_down_by_pasted_newlines() {
    let mut s = ChatState::new();
    s.input_wrapped.set_window_size(20, 10);
    s.paste("one\ntwo\n");
    assert_eq!(s.input_wrapped.content, b"one\ntwo\n".to_vec());
    assert_eq!(s.input_cursor.0, 2);
    assert_eq!(s.input_cursor.1, 20);
    assert!(s.pending_changes);
}
