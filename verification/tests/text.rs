use schedulerutils::text::{push_decimal, split_text, Delimiter};

fn owned(words: &[&str]) -> Vec<String> {
    words.iter().map(|w| w.to_string()).collect()
}

#[test]
fn split_at_spaces_keeps_empty_pieces() {
    assert_eq!(split_text("a b", Delimiter::Space), owned(&["a", "b"]));
    assert_eq!(split_text("a  b", Delimiter::Space), owned(&["a", "", "b"]));
    assert_eq!(split_text(" a", Delimiter::Space), owned(&["", "a"]));
    assert_eq!(split_text("a ", Delimiter::Space), owned(&["a", ""]));
}

#[test]
fn split_of_nothing_is_one_empty_piece() {
    assert_eq!(split_text("", Delimiter::Space), owned(&[""]));
    assert_eq!(split_text("", Delimiter::Whitespace), owned(&[""]));
}

#[test]
fn split_at_spaces_leaves_other_white_space_alone() {
    assert_eq!(split_text("a\tb c\n", Delimiter::Space), owned(&["a\tb", "c\n"]));
}

#[test]
fn split_at_white_space_cuts_at_each_kind() {
    assert_eq!(
        split_text("1\t2\n3\r4 5", Delimiter::Whitespace),
        owned(&["1", "2", "3", "4", "5"])
    );
    assert_eq!(
        split_text("x\u{a0}y\u{2003}z\u{3000}", Delimiter::Whitespace),
        owned(&["x", "y", "z", ""])
    );
}

#[test]
fn split_counts_characters_not_bytes() {
    assert_eq!(split_text("é ü", Delimiter::Space), owned(&["é", "ü"]));
}

#[test]
fn pieces_joined_by_spaces_give_the_text_back() {
    for text in ["", " ", "sleep 10", "a  b   c", " lead", "trail ", "one"] {
        assert_eq!(split_text(text, Delimiter::Space).join(" "), text);
    }
}

#[test]
fn delimiters_agree_with_std_on_white_space() {
    for code in 0u32..=0x10ffff {
        if let Some(c) = char::from_u32(code) {
            assert_eq!(Delimiter::Whitespace.separates(c), c.is_whitespace(), "U+{:04X}", code);
            assert_eq!(Delimiter::Space.separates(c), c == ' ');
        }
    }
}

#[test]
fn split_at_spaces_agrees_with_std() {
    for text in ["", " ", "  ", "sleep 10", "a  b   c", " lead", "trail ", "one", "é ü\t ß"] {
        let expected: Vec<String> = text.split(' ').map(|piece| piece.to_string()).collect();
        assert_eq!(split_text(text, Delimiter::Space), expected);
    }
}

#[test]
fn words_between_white_space_agree_with_std() {
    for text in ["", " ", "1 2\t3\n", "\u{2003}a\u{a0}b  c\r\n", "x", " x ", "a\u{85}b\u{1680}c"] {
        let words: Vec<String> = split_text(text, Delimiter::Whitespace)
            .into_iter()
            .filter(|piece| !piece.is_empty())
            .collect();
        let expected: Vec<String> = text.split_whitespace().map(|w| w.to_string()).collect();
        assert_eq!(words, expected);
    }
}

#[test]
fn decimal_numerals() {
    for n in [0u64, 7, 9, 10, 11, 99, 100, 1234567890, u64::MAX] {
        let mut out = String::from("n=");
        push_decimal(&mut out, n);
        assert_eq!(out, format!("n={}", n));
    }
}
