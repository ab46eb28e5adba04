use marky::handler::registry::{Keyword, Registry};
use marky::handler::Block;
use marky::hover::{describe, hover, quote, to_decimal};

const LOREM: &str = "Lorem ipsum dolor sit amet, consectetur adipiscing elit. Sed do eiusmod tempor incididunt ut labore et dolore magna aliqua.";

fn average(block: &Block) -> String {
    format!("{}", block.stat.words as f32 / block.stat.lines as f32)
}

#[test]
fn to_decimal_agrees_with_std() {
    for n in [0usize, 1, 9, 10, 11, 19, 99, 100, 101, 768, 11434, 1_000_000, usize::MAX] {
        assert_eq!(to_decimal(n), n.to_string());
    }
    for n in 0..2000usize {
        assert_eq!(to_decimal(n), n.to_string());
    }
}

#[test]
fn quote_joins_quoted_terms() {
    assert_eq!(quote(&Vec::new()), "");
    assert_eq!(quote(&vec!["one".to_string()]), "\"one\"");
    assert_eq!(
        quote(&vec!["one".to_string(), "two words".to_string(), "".to_string()]),
        "\"one\", \"two words\", \"\""
    );
}

#[test]
fn describe_counts_alone() {
    let block = Block::new(LOREM, (9, 0), (10, 0));
    assert_eq!(average(&block), "9.5");
    assert_eq!(
        describe(&block, &average(&block), None, None),
        "[statistics]\nlines = 2\nwords = 19\naverage.line_size = 9.5"
    );
}

#[test]
fn describe_with_keywords_and_summary() {
    let block = Block::new(LOREM, (9, 0), (10, 0));
    let keywords = Some(vec!["lorem".to_string(), "ipsum dolor".to_string()]);
    let summary = Some("Filler text.".to_string());
    assert_eq!(
        describe(&block, "9.5", keywords, summary),
        "[statistics]\nlines = 2\nwords = 19\naverage.line_size = 9.5\n[analytics]\nkeywords = [\"lorem\", \"ipsum dolor\"]\nsummary = \"Filler text.\""
    );
}

#[test]
fn describe_with_keywords_only() {
    let block = Block::new("One. Two.", (0, 0), (0, 9));
    assert_eq!(
        describe(&block, "1", Some(vec!["one".to_string()]), None),
        "[statistics]\nlines = 2\nwords = 2\naverage.line_size = 1\n[analytics]\nkeywords = [\"one\"]"
    );
}

#[test]
fn describe_with_summary_only() {
    let block = Block::new("One. Two.", (0, 0), (0, 9));
    assert_eq!(
        describe(&block, "1", None, Some("Numbers.".to_string())),
        "[statistics]\nlines = 2\nwords = 2\naverage.line_size = 1\n[analytics]\nsummary = \"Numbers.\""
    );
}

#[test]
fn describe_text_without_sentences() {
    let block = Block::new("   ", (0, 0), (0, 3));
    assert_eq!(average(&block), "NaN");
    assert_eq!(
        describe(&block, &average(&block), None, None),
        "[statistics]\nlines = 0\nwords = 0\naverage.line_size = NaN"
    );
}

#[test]
fn hover_reads_the_registry() {
    let block = Block::new(LOREM, (9, 0), (10, 0));
    let mut registry = Registry::new();
    assert_eq!(
        hover(&block, "9.5", Some(&registry)),
        "[statistics]\nlines = 2\nwords = 19\naverage.line_size = 9.5"
    );
    let predicted = vec![vec![
        Keyword { text: "lorem".to_string(), score: 0.8f32.to_bits() },
        Keyword { text: "amet".to_string(), score: 0.2f32.to_bits() },
    ]];
    registry.accept_keywords(&block, &predicted).unwrap();
    assert_eq!(
        hover(&block, "9.5", Some(&registry)),
        "[statistics]\nlines = 2\nwords = 19\naverage.line_size = 9.5\n[analytics]\nkeywords = [\"lorem\"]"
    );
    assert_eq!(
        hover(&block, "9.5", None),
        "[statistics]\nlines = 2\nwords = 19\naverage.line_size = 9.5"
    );
}
