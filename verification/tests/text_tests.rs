use tllm::text::WrappedText;

fn fresh() -> WrappedText {
    WrappedText::new()
}

#[test]
fn insert_appends_to_empty_buffer() {
    let mut w = fresh();
    w.insert("hello", 0, 0);
    assert_eq!(w.content, b"hello".to_vec());
}

#[test]
fn insert_expands_tabs_to_four_spaces() {
    let mut w = fresh();
    w.insert("a\tb", 0, 0);
    assert_eq!(w.content, b"a    b".to_vec());
}

#[test]
fn insert_snaps_into_multibyte_character() {
    let mut w = fresh();
    // One two-byte character; inserting at byte offset 1 must not split it.
    w.insert("é", 0, 0);
    assert_eq!(w.content.len(), 2);
    w.insert("x", 0, 1);
    // The offset snaps forward to the end of the character.
    assert_eq!(w.content, "éx".as_bytes().to_vec());
}

#[test]
fn delete_word_removes_inserted_word() {
    let mut w = fresh();
    w.insert("hello ", 0, 0);
    w.rewrap(80);
    assert_eq!(w.line_lengths, vec![6]);
    let removed = w.delete_word(0, 5);
    assert_eq!(removed, b"hello".to_vec());
    assert_eq!(removed.len(), 5);
    assert_eq!(w.content, b" ".to_vec());
}

#[test]
fn delete_word_without_a_rewrap_behaves_the_same() {
    let mut w = fresh();
    w.insert("hello ", 0, 0);
    let removed = w.delete_word(0, 5);
    assert_eq!(removed, b"hello".to_vec());
    assert_eq!(w.content, b" ".to_vec());
}

#[test]
fn delete_word_at_start_removes_nothing() {
    let mut w = fresh();
    w.insert("hello", 0, 0);
    let removed = w.delete_word(0, 0);
    assert_eq!(removed, Vec::<u8>::new());
    assert_eq!(w.content, b"hello".to_vec());
}

#[test]
fn rewrap_line_lengths_sum_to_content_length() {
    let mut w = fresh();
    w.insert("alpha beta gamma delta epsilon", 0, 0);
    w.rewrap(10);
    let total: usize = w.line_lengths.iter().sum();
    assert_eq!(total, w.content.len());
    assert!(w.line_lengths.len() >= 1);
}

#[test]
fn rewrap_breaks_at_newlines_counting_the_newline_byte() {
    let mut w = fresh();
    w.insert("ab\ncd", 0, 0);
    w.rewrap(80);
    assert_eq!(w.line_lengths, vec![3, 2]);
}

#[test]
fn rewrap_appends_trailing_empty_line_after_final_newline() {
    let mut w = fresh();
    w.insert("ab\n", 0, 0);
    w.rewrap(80);
    assert_eq!(w.line_lengths, vec![3, 0]);
}

#[test]
fn rewrap_soft_break_near_width() {
    let mut w = fresh();
    w.insert("abcdef", 0, 0);
    w.rewrap(6);
    assert_eq!(w.line_lengths, vec![4, 2]);
}

#[test]
fn rewrap_boundaries_fall_on_character_boundaries() {
    let mut w = fresh();
    // Multibyte content: line boundaries must never split a character.
    w.insert("éééééééééé", 0, 0);
    w.rewrap(7);
    let s = String::from_utf8(w.content.clone()).unwrap();
    let mut offset = 0usize;
    for len in &w.line_lengths {
        assert!(s.is_char_boundary(offset));
        offset += len;
    }
    assert_eq!(offset, w.content.len());
}

#[test]
fn rewrap_empty_content_keeps_one_line() {
    let mut w = fresh();
    w.rewrap(20);
    assert_eq!(w.line_lengths, vec![0]);
}

#[test]
fn display_shows_content_with_trailing_whitespace_trimmed() {
    let mut w = fresh();
    w.insert("hello world   ", 0, 0);
    w.rewrap(80);
    assert_eq!(w.display(), b"hello world".to_vec());
}

#[test]
fn display_contains_inserted_text_after_rewrap() {
    let mut w = fresh();
    w.insert("the quick brown fox.", 0, 0);
    w.rewrap(80);
    let shown = w.display();
    let shown = String::from_utf8(shown).unwrap();
    assert!(shown.contains("the quick brown fox."));
}

#[test]
fn display_starts_at_page_line() {
    let mut w = fresh();
    w.insert("ab\ncd\nef", 0, 0);
    w.rewrap(80);
    w.page = 1;
    assert_eq!(w.display(), b"cd\nef".to_vec());
}

#[test]
fn paging_clamps_at_both_ends() {
    let mut w = fresh();
    w.insert("a\nb\nc\nd\ne\nf\ng\nh", 0, 0);
    w.rewrap(80);
    w.set_window_size(20, 4);
    w.page_up();
    assert_eq!(w.page, 0);
    w.page_down();
    // max_page is the line count less the two-row margin of the viewport.
    let max_page = w.line_lengths.len() - 2;
    assert!(w.page <= max_page);
    for _ in 0..10 {
        w.page_down();
    }
    assert_eq!(w.page, max_page);
}

#[test]
fn whitespace_distances_walk_words() {
    let mut w = fresh();
    w.insert("one two three", 0, 0);
    w.rewrap(80);
    // From column 0, the byte after is 'n'; the next whitespace is at
    // offset 3, two bytes on.
    assert_eq!(w.next_whitespace_distance(0, 0), 2);
    // From the end of "one two", looking back from offset 8: "two " ends
    // with the space at offset 7 just before it.
    assert_eq!(w.prev_whitespace_distance(0, 7), 0);
}

#[test]
fn len_and_clear_reset_the_buffer() {
    let mut w = fresh();
    w.insert("abc", 0, 0);
    assert_eq!(w.len(), 3);
    w.clear();
    assert_eq!(w.len(), 0);
    assert_eq!(w.line_lengths, vec![0]);
}

#[test]
fn boundary_scans_snap_into_place() {
    let mut w = fresh();
    w.insert("aé", 0, 0);
    // Bytes: a, 0xC3, 0xA9. Offset 2 sits inside the character.
    assert!(w.is_byte_boundary(0));
    assert!(w.is_byte_boundary(1));
    assert!(!w.is_byte_boundary(2));
    assert!(w.is_byte_boundary(3));
    assert_eq!(w.find_prev_byte_boundary(2), 1);
    assert_eq!(w.find_next_byte_boundary(2), 3);
    // Offsets past the end clamp to the length.
    assert_eq!(w.find_next_byte_boundary(99), 3);
}

#[test]
fn get_flat_sums_line_lengths() {
    let mut w = fresh();
    w.insert("ab\ncd", 0, 0);
    w.rewrap(80);
    // Line 1, column 1 flattens to 3 (line 0 spans "ab\n") + 1.
    assert_eq!(w.get_flat(1, 1, false), 4);
    // A line index beyond the table clamps to the whole table.
    assert_eq!(w.get_flat(9, 0, false), 5);
}
