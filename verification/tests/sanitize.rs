use pterm::sanitize::sanitize_scrollback_for_replay;

#[test]
fn status_report_query_is_stripped() {
    assert_eq!(sanitize_scrollback_for_replay(b"\x1b[6n"), b"");
    assert_eq!(sanitize_scrollback_for_replay(b"a\x1b[6nb"), b"ab");
    assert_eq!(sanitize_scrollback_for_replay(b"\x1b[5n"), b"");
    assert_eq!(sanitize_scrollback_for_replay(b"\x1b[n"), b"");
}

#[test]
fn other_control_sequences_pass() {
    assert_eq!(
        sanitize_scrollback_for_replay(b"hello\x1b[?25lworld"),
        b"hello\x1b[?25lworld"
    );
    assert_eq!(sanitize_scrollback_for_replay(b"\x1b[1;31mred\x1b[0m"), b"\x1b[1;31mred\x1b[0m");
    assert_eq!(sanitize_scrollback_for_replay(b"\x1b[H\x1b[2J"), b"\x1b[H\x1b[2J");
}

#[test]
fn device_attributes_queries_are_stripped() {
    assert_eq!(sanitize_scrollback_for_replay(b"\x1b[>c"), b"");
    assert_eq!(sanitize_scrollback_for_replay(b"\x1b[c"), b"");
    assert_eq!(sanitize_scrollback_for_replay(b"\x1b[?c"), b"");
    assert_eq!(sanitize_scrollback_for_replay(b"\x1b[>0c"), b"");
    assert_eq!(sanitize_scrollback_for_replay(b"\x1b[0c"), b"");
    assert_eq!(sanitize_scrollback_for_replay(b"x\x1b[>cy\x1b[cz"), b"xyz");
}

#[test]
fn truncated_control_sequence_is_preserved() {
    assert_eq!(sanitize_scrollback_for_replay(b"abc\x1b[12;3"), b"abc\x1b[12;3");
    assert_eq!(sanitize_scrollback_for_replay(b"abc\x1b["), b"abc\x1b[");
    assert_eq!(sanitize_scrollback_for_replay(b"abc\x1b"), b"abc\x1b");
    assert_eq!(sanitize_scrollback_for_replay(b"\x1b[6"), b"\x1b[6");
}

#[test]
fn plain_bytes_pass() {
    assert_eq!(sanitize_scrollback_for_replay(b""), b"");
    assert_eq!(sanitize_scrollback_for_replay(b"plain text\r\n"), b"plain text\r\n");
    assert_eq!(sanitize_scrollback_for_replay(b"n c [6n"), b"n c [6n");
    let every_other: Vec<u8> = (0u8..=255).filter(|b| *b != 0x1b).collect();
    assert_eq!(sanitize_scrollback_for_replay(&every_other), every_other);
}

#[test]
fn escape_without_bracket_passes() {
    assert_eq!(sanitize_scrollback_for_replay(b"\x1bc"), b"\x1bc");
    assert_eq!(sanitize_scrollback_for_replay(b"\x1b]0;title\x07"), b"\x1b]0;title\x07");
    assert_eq!(sanitize_scrollback_for_replay(b"\x1b\x1b[6n"), b"\x1b");
}

#[test]
fn queries_next_to_each_other() {
    assert_eq!(sanitize_scrollback_for_replay(b"\x1b[6n\x1b[6n"), b"");
    assert_eq!(sanitize_scrollback_for_replay(b"\x1b[6n\x1b[0m\x1b[c"), b"\x1b[0m");
}

#[test]
fn byte_outside_parameter_range_ends_the_sequence() {
    // A control character is no parameter byte, so no control sequence is
    // recognised and every byte passes.
    assert_eq!(sanitize_scrollback_for_replay(b"\x1b[\x07n"), b"\x1b[\x07n");
    assert_eq!(sanitize_scrollback_for_replay(b"\x1b[6\x80n"), b"\x1b[6\x80n");
    // The query that begins at the second escape byte is still found.
    assert_eq!(sanitize_scrollback_for_replay(b"\x1b[1\x1b[6nz"), b"\x1b[1z");
}

#[test]
fn result_is_never_longer() {
    let inputs: [&[u8]; 4] = [b"\x1b[6n", b"abc", b"\x1b[\x1b[\x1b[c", b"\x1b[1;2;3c\x1b["];
    for input in inputs {
        assert!(sanitize_scrollback_for_replay(input).len() <= input.len());
    }
}
