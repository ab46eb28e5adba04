use marky::text::{same_text, tally, trim, white_space};

const LOREM: &str = "Lorem ipsum dolor sit amet, consectetur adipiscing elit. Sed do eiusmod tempor incididunt ut labore et dolore magna aliqua.";

fn split_counts(text: &str) -> (usize, usize) {
    let lines: Vec<&str> = text.split('.').filter(|line| !line.is_empty()).collect();
    let words = lines
        .iter()
        .map(|line| line.split_whitespace().filter(|word| !word.is_empty()).count())
        .sum();
    (lines.len(), words)
}

fn samples() -> Vec<&'static str> {
    vec![
        "",
        " ",
        ".",
        "...",
        "a",
        "a.",
        ".a",
        "a.b",
        "a. b",
        "a .b",
        " . ",
        "Hello, world!",
        "one two  three\tfour\nfive",
        "end. ",
        "a..b",
        ". . .",
        "tab\tseparated.words here",
        "no\u{a0}break and\u{2003}em space. next\u{3000}wide",
        "\u{85}next line\u{2028}separator",
        LOREM,
    ]
}

#[test]
fn white_space_agrees_with_std_on_every_char() {
    for code in 0..=0x10FFFFu32 {
        if let Some(c) = char::from_u32(code) {
            assert_eq!(white_space(c), c.is_whitespace(), "code point {:#x}", code);
        }
    }
}

#[test]
fn trim_agrees_with_std() {
    for text in samples() {
        assert_eq!(trim(text), text.trim());
    }
    assert_eq!(trim("  \t padded text \n\n"), "padded text");
    assert_eq!(trim("\u{3000}wide\u{2003}"), "wide");
    assert_eq!(trim("inner  blanks stay"), "inner  blanks stay");
}

#[test]
fn trim_of_blank_text_is_empty() {
    assert_eq!(trim(""), "");
    assert_eq!(trim(" \n\t "), "");
}

#[test]
fn tally_of_two_sentences() {
    assert_eq!(tally(LOREM), (2, 19));
}

#[test]
fn tally_agrees_with_splitting() {
    for text in samples() {
        assert_eq!(tally(text), split_counts(text), "text {:?}", text);
    }
}

#[test]
fn tally_of_text_without_sentences() {
    assert_eq!(tally(""), (0, 0));
    assert_eq!(tally("..."), (0, 0));
}

#[test]
fn tally_counts_a_blank_piece_as_a_sentence_without_words() {
    assert_eq!(tally("a. .b"), (3, 2));
    assert_eq!(tally(" "), (1, 0));
}

#[test]
fn same_text_tells_equal_from_different() {
    assert!(same_text("paragraph", "paragraph"));
    assert!(same_text("", ""));
    assert!(!same_text("paragraph", "paragraphs"));
    assert!(!same_text("paragraph", "paragrapH"));
    assert!(!same_text("", "x"));
    assert!(same_text("h\u{e9}llo", "h\u{e9}llo"));
    assert!(!same_text("h\u{e9}llo", "hello"));
}
