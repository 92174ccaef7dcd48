use todo_ic::text::{
    is_whitespace_char, trim_bounds, trim_text, validate_todo_text, MAX_TODO_TEXT_LENGTH,
};

#[test]
fn whitespace_is_what_std_calls_whitespace() {
    let mut code: u32 = 0;
    while code <= 0x10FFFF {
        if let Some(c) = char::from_u32(code) {
            assert_eq!(is_whitespace_char(c), c.is_whitespace(), "U+{:04X}", code);
        }
        code += 1;
    }
}

#[test]
fn trim_text_agrees_with_std_trim() {
    let samples = [
        "",
        " ",
        "   ",
        "hello",
        " hello ",
        "\t\n hello world \r\n",
        "a",
        " a",
        "a ",
        "\u{3000}caf\u{e9}\u{a0}",
        "\u{2003}\u{2028}x\u{205f}y\u{1680}",
        "  inner   spaces  stay  ",
        "\u{200b}zero width space is no whitespace\u{200b}",
    ];
    for sample in samples {
        assert_eq!(trim_text(sample), sample.trim(), "{:?}", sample);
    }
}

#[test]
fn trim_bounds_count_characters() {
    assert_eq!(trim_bounds(""), (0, 0));
    assert_eq!(trim_bounds("    "), (0, 0));
    assert_eq!(trim_bounds("abc"), (0, 3));
    assert_eq!(trim_bounds("  abc "), (2, 5));
    assert_eq!(trim_bounds("\u{3000}\u{e9}t\u{e9}\u{3000}\u{3000}"), (1, 4));
}

#[test]
fn empty_and_blank_texts_are_refused() {
    assert_eq!(validate_todo_text(""), Err("Todo text cannot be empty".to_string()));
    assert_eq!(validate_todo_text("   "), Err("Todo text cannot be empty".to_string()));
    assert_eq!(validate_todo_text("\t\r\n\u{a0}"), Err("Todo text cannot be empty".to_string()));
}

#[test]
fn text_length_is_counted_in_bytes_of_the_raw_text() {
    assert_eq!(MAX_TODO_TEXT_LENGTH, 1000);
    assert_eq!(validate_todo_text(&"a".repeat(1000)), Ok(()));
    assert_eq!(
        validate_todo_text(&"a".repeat(1001)),
        Err("Todo text cannot exceed 1000 characters".to_string())
    );
    // 333 characters of three bytes each are 999 bytes; 334 are 1002.
    assert_eq!(validate_todo_text(&"\u{20ac}".repeat(333)), Ok(()));
    assert_eq!(
        validate_todo_text(&"\u{20ac}".repeat(334)),
        Err("Todo text cannot exceed 1000 characters".to_string())
    );
    // The whitespace around the text counts.
    let padded = format!(" {} ", "a".repeat(999));
    assert_eq!(
        validate_todo_text(&padded),
        Err("Todo text cannot exceed 1000 characters".to_string())
    );
}

#[test]
fn emptiness_is_reported_before_length() {
    assert_eq!(
        validate_todo_text(&" ".repeat(2000)),
        Err("Todo text cannot be empty".to_string())
    );
}

#[test]
fn ordinary_text_is_accepted() {
    assert_eq!(validate_todo_text("Learn Rust"), Ok(()));
    assert_eq!(validate_todo_text(" x "), Ok(()));
}
