use rsvp::chars::{chars_of, is_whitespace, join_chars, string_of, words_of};

#[test]
fn whitespace_test_agrees_with_std_on_every_char() {
    for code in 0..=0x10FFFFu32 {
        if let Some(c) = char::from_u32(code) {
            assert_eq!(is_whitespace(c), c.is_whitespace(), "char {code:#x}");
        }
    }
}

#[test]
fn words_agree_with_split_whitespace() {
    let text = "  a\u{3000}b\tc\u{a0} dd\n\n e  ";
    let chars = chars_of(text);
    let words: Vec<String> = words_of(&chars).iter().map(|w| string_of(w)).collect();
    let expected: Vec<String> = text.split_whitespace().map(str::to_string).collect();
    assert_eq!(words, expected);
    let joined = join_chars(&words_of(&chars), &[' ']);
    assert_eq!(string_of(&joined), expected.join(" "));
}
