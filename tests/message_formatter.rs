use yartl_engine::message_formatter::{get_location, index_of};

#[test]
fn location_on_the_first_line() {
    let source = b"abc";
    let text = get_location(source, 1);
    assert_eq!(
        String::from_utf8(text).unwrap(),
        "Line number: 1, Column number: 2\nLine: abc\n       ^"
    );
}

#[test]
fn format_puts_the_message_first() {
    let source = b"ab\ncd";
    let text = yartl_engine::message_formatter::format(source, 4, b"Invalid character");
    let expected = format!(
        "Invalid character\nLine number: 2, Column number: 3\nLine: \ncd\n{}^",
        " ".repeat(8)
    );
    assert_eq!(String::from_utf8(text).unwrap(), expected);
}

#[test]
fn index_of_finds_the_first_match_at_or_after_the_offset() {
    assert_eq!(index_of(b"a\nb\nc", b'\n', 0), Ok(1));
    assert_eq!(index_of(b"a\nb\nc", b'\n', 2), Ok(3));
    assert!(index_of(b"a\nb\nc", b'\n', 4).is_err());
    assert!(index_of(b"abc", b'x', 3).is_err());
}

#[test]
fn large_line_numbers_are_written_in_decimal() {
    let mut source = Vec::new();
    for _ in 0..11 {
        source.push(b'\n');
    }
    source.push(b'x');
    let text = String::from_utf8(get_location(&source, 11)).unwrap();
    assert!(text.starts_with("Line number: 12, Column number: 2\n"));
}
