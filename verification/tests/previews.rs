use rgrep::preview::{preview, preview_of, MAXIMUM_PREVIEW_LEN};

#[test]
fn short_line_is_shown_whole() {
    assert_eq!(preview(b"hello world"), "hello world");
    assert_eq!(preview(b""), "");
}

#[test]
fn long_line_is_cut_after_the_maximum_of_characters() {
    let line = "x".repeat(300);
    assert_eq!(preview(line.as_bytes()), "x".repeat(MAXIMUM_PREVIEW_LEN));
}

#[test]
fn line_of_exactly_the_maximum_is_shown_whole() {
    let line = "y".repeat(MAXIMUM_PREVIEW_LEN);
    assert_eq!(preview(line.as_bytes()), line);
}

#[test]
fn preview_length_is_measured_in_characters() {
    let line = "é".repeat(200);
    let shown = preview(line.as_bytes());
    assert_eq!(shown.chars().count(), MAXIMUM_PREVIEW_LEN);
    assert_eq!(shown.len(), 2 * MAXIMUM_PREVIEW_LEN);
    assert_eq!(shown, "é".repeat(MAXIMUM_PREVIEW_LEN));
}

#[test]
fn multi_byte_character_at_the_cut_is_kept_whole() {
    let mut line = "a".repeat(MAXIMUM_PREVIEW_LEN - 1);
    line.push('€');
    line.push_str("tail");
    let shown = preview(line.as_bytes());
    assert!(shown.ends_with('€'));
    assert_eq!(shown.chars().count(), MAXIMUM_PREVIEW_LEN);
    assert_eq!(shown.len(), MAXIMUM_PREVIEW_LEN - 1 + 3);
}

#[test]
fn multi_byte_character_behind_the_cut_is_left_out_whole() {
    let mut line = "a".repeat(MAXIMUM_PREVIEW_LEN);
    line.push('€');
    let shown = preview(line.as_bytes());
    assert_eq!(shown, "a".repeat(MAXIMUM_PREVIEW_LEN));
}

#[test]
fn preview_is_a_prefix_of_its_line_at_a_character_boundary() {
    for width in [1usize, 2, 3, 4] {
        let ch = ['a', 'é', '€', '😀'][width - 1];
        let line: String = std::iter::repeat(ch).take(130).collect();
        let shown = preview(line.as_bytes());
        assert!(line.starts_with(&shown));
        assert!(line.is_char_boundary(shown.len()));
        assert_eq!(shown.len(), width * MAXIMUM_PREVIEW_LEN);
    }
}

#[test]
fn malformed_line_is_replaced_by_the_placeholder() {
    assert_eq!(preview(&[0xff, 0xfe, b'a']), "<invalid UTF-8>");
    assert_eq!(preview(&[b'a', 0xe2, 0x82]), "<invalid UTF-8>");
    assert_eq!(preview(&[0xc0, 0x80]), "<invalid UTF-8>");
}

#[test]
fn preview_of_a_range_shows_that_range() {
    let text = b"hello world\nfoo bar\n";
    assert_eq!(preview_of(text, 0, 11), "hello world");
    assert_eq!(preview_of(text, 12, 19), "foo bar");
    assert_eq!(preview_of(text, 5, 5), "");
}
