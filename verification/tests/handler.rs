use marky::handler::{Block, Handle, HandleError, Stat};

const LOREM: &str = "Lorem ipsum dolor sit amet, consectetur adipiscing elit. Sed do eiusmod tempor incididunt ut labore et dolore magna aliqua.";

fn document() -> String {
    let lines = [
        "# Title",
        "",
        "Hello, world!",
        "",
        "## Subtitle",
        "",
        "Lorem ipsum dolor sit amet, consectetur adipiscing elit.",
        "### Subtitle 2",
        "",
        "Lorem ipsum dolor sit amet, consectetur adipiscing elit. Sed do eiusmod tempor incididunt ut labore et dolore magna aliqua.",
        "### Subtitle 3",
        "",
        "Lorem ipsum dolor sit amet, consectetur adipiscing elit. Sed do *eiusmod* tempor incididunt ut labore et dolore magna aliqua.",
        "",
        "> This is a blockquote",
        "> ",
        "> Lorem ipsum dolor sit amet, consectetur adipiscing elit. Sed do eiusmod tempor incididunt ut labore et dolore magna aliqua.",
        "",
    ];
    lines.join("\n")
}

fn markdown_parser() -> tree_sitter::Parser {
    let mut parser = tree_sitter::Parser::new();
    parser.set_language(tree_sitter_markdown::language()).unwrap();
    parser
}

fn before(a: (usize, usize), b: (usize, usize)) -> bool {
    a.0 < b.0 || (a.0 == b.0 && a.1 < b.1)
}

#[test]
fn stat_of_two_sentences() {
    let stat = Stat::of(LOREM);
    assert_eq!(stat.lines, 2);
    assert_eq!(stat.words, 19);
    assert_eq!(stat.mean(), Some((9, 1)));
    assert_eq!(stat.words as f32 / stat.lines as f32, 9.5);
}

#[test]
fn stat_without_sentences_has_no_mean() {
    let stat = Stat::of("");
    assert_eq!(stat.lines, 0);
    assert_eq!(stat.words, 0);
    assert_eq!(stat.mean(), None);
}

#[test]
fn mean_is_quotient_and_remainder() {
    assert_eq!(Stat { lines: 3, words: 10 }.mean(), Some((3, 1)));
    assert_eq!(Stat { lines: 5, words: 0 }.mean(), Some((0, 0)));
    assert_eq!(Stat { lines: 1, words: 7 }.mean(), Some((7, 0)));
}

#[test]
fn block_holds_trimmed_text_counts_and_digest() {
    let raw = format!("  {}\n", LOREM);
    let block = Block::new(&raw, (9, 0), (10, 0));
    assert_eq!(block.text, LOREM);
    assert_eq!(block.start, (9, 0));
    assert_eq!(block.end, (10, 0));
    assert_eq!(block.stat.lines, 2);
    assert_eq!(block.stat.words, 19);
    assert_eq!(block.metadata.hash, *blake3::hash(LOREM.as_bytes()).as_bytes());
}

#[test]
fn digest_is_that_of_blake3() {
    let block = Block::new("abc", (0, 0), (0, 3));
    let expected: [u8; 32] = [
        0x64, 0x37, 0xb3, 0xac, 0x38, 0x46, 0x51, 0x33, 0xff, 0xb6, 0x3b, 0x75, 0x27, 0x3a, 0x8d,
        0xb5, 0x48, 0xc5, 0x58, 0x46, 0x5d, 0x79, 0xdb, 0x03, 0xfd, 0x35, 0x9c, 0x6c, 0xd5, 0xbd,
        0x9d, 0x85,
    ];
    assert_eq!(block.metadata.hash, expected);
    assert_ne!(&block.metadata.hash[..3], &b"abc"[..]);
}

#[test]
fn same_text_elsewhere_has_the_same_digest() {
    let first = Block::new("  Same words here. ", (0, 0), (0, 19));
    let second = Block::new("Same words here.\n", (40, 2), (41, 0));
    let other = Block::new("Other words here.", (0, 0), (0, 17));
    assert_eq!(first.text, second.text);
    assert_eq!(first.metadata.hash, second.metadata.hash);
    assert_eq!(first.stat.lines, second.stat.lines);
    assert_eq!(first.stat.words, second.stat.words);
    assert_ne!(first.metadata.hash, other.metadata.hash);
}

#[test]
fn block_clone_keeps_every_field() {
    let block = Block::new(" A short one. ", (3, 1), (3, 15));
    let copy = block.clone();
    assert_eq!(copy.text, block.text);
    assert_eq!(copy.start, block.start);
    assert_eq!(copy.end, block.end);
    assert_eq!(copy.stat.lines, block.stat.lines);
    assert_eq!(copy.stat.words, block.stat.words);
    assert_eq!(copy.metadata.hash, block.metadata.hash);
}

#[test]
fn test_markdown_parser() {
    let code = [
        "# Title",
        "",
        "Hello, world!",
        "",
        "## Subtitle",
        "",
        "Lorem ipsum dolor sit amet, consectetur adipiscing elit.",
        "### Subtitle 2",
        "",
        "Lorem ipsum dolor sit amet, consectetur adipiscing elit. Sed do eiusmod tempor incididunt ut labore et dolore magna aliqua.",
        "### Subtitle 3",
        "",
        "Lorem ipsum dolor sit amet, consectetur adipiscing elit. Sed do *eiusmod* tempor incididunt ut labore et dolore magna aliqua.",
        "",
        "> This is a blockquote",
        "> ",
        "> Lorem ipsum dolor sit amet, consectetur adipiscing elit. Sed do eiusmod tempor incididunt ut labore et dolore magna aliqua.",
        "",
    ];

    let code = code.join("\n");

    let mut parser = tree_sitter::Parser::new();
    parser.set_language(tree_sitter_markdown::language()).unwrap();

    let handle = Handle::new(&code, &mut parser).unwrap();
    let blocks = &handle.blocks;

    assert!(blocks.len() == 10);
    assert!(blocks[0].text == "Title");
    assert!(blocks[5].stat.lines == 2);
    assert!(blocks[5].stat.words == 19);
    assert!(blocks[5].stat.words as f32 / blocks[5].stat.lines as f32 == 9.5);
}

#[test]
fn blocks_of_a_document_are_indexed_in_order() {
    let code = document();
    let mut parser = markdown_parser();
    let handle = Handle::new(&code, &mut parser).unwrap();
    let blocks = &handle.blocks;
    let expected: [(&str, (usize, usize), (usize, usize), usize, usize); 10] = [
        ("Title", (0, 1), (0, 7), 1, 1),
        ("Hello, world!", (2, 0), (2, 13), 1, 2),
        ("Subtitle", (4, 2), (4, 11), 1, 1),
        ("Lorem ipsum dolor sit amet, consectetur adipiscing elit.", (6, 0), (6, 56), 1, 8),
        ("Subtitle 2", (7, 3), (7, 14), 1, 2),
        (LOREM, (9, 0), (9, 123), 2, 19),
        ("Subtitle 3", (10, 3), (10, 14), 1, 2),
        (
            "Lorem ipsum dolor sit amet, consectetur adipiscing elit. Sed do *eiusmod* tempor incididunt ut labore et dolore magna aliqua.",
            (12, 0),
            (12, 125),
            2,
            19,
        ),
        ("This is a blockquote", (14, 2), (14, 22), 1, 4),
        (LOREM, (16, 2), (16, 125), 2, 19),
    ];
    assert_eq!(blocks.len(), expected.len());
    for (block, (text, start, end, lines, words)) in blocks.iter().zip(expected.iter()) {
        assert_eq!(block.text, *text);
        assert_eq!(block.start, *start);
        assert_eq!(block.end, *end);
        assert_eq!(block.stat.lines, *lines);
        assert_eq!(block.stat.words, *words);
        assert_eq!(block.metadata.hash, *blake3::hash(text.as_bytes()).as_bytes());
    }
    assert_eq!(blocks[5].metadata.hash, blocks[9].metadata.hash);
    assert_ne!(blocks[5].metadata.hash, blocks[7].metadata.hash);
    for pair in blocks.windows(2) {
        assert!(before(pair[0].end, pair[1].start));
    }
}

#[test]
fn headings_and_lists_are_walked_through() {
    let code = "# Heading\n\n- first item\n- second item\n\n> quoted\n";
    let handle = Handle::new(code, &mut markdown_parser()).unwrap();
    let texts: Vec<&str> = handle.blocks.iter().map(|block| block.text.as_str()).collect();
    assert_eq!(texts, vec!["Heading", "first item", "second item", "quoted"]);
}

#[test]
fn indexing_twice_gives_the_same_blocks() {
    let code = document();
    let first = Handle::new(&code, &mut markdown_parser()).unwrap();
    let second = Handle::new(&code, &mut markdown_parser()).unwrap();
    assert_eq!(first.blocks.len(), second.blocks.len());
    for (a, b) in first.blocks.iter().zip(second.blocks.iter()) {
        assert_eq!(a.text, b.text);
        assert_eq!(a.start, b.start);
        assert_eq!(a.end, b.end);
        assert_eq!(a.stat.lines, b.stat.lines);
        assert_eq!(a.stat.words, b.stat.words);
        assert_eq!(a.metadata.hash, b.metadata.hash);
    }
}

#[test]
fn get_block_at_given_positions() {
    let code = document();
    let handle = Handle::new(&code, &mut markdown_parser()).unwrap();
    assert!(handle.get_block(0, 0).is_none());
    assert_eq!(handle.get_block(0, 1).unwrap().text, "Title");
    assert_eq!(handle.get_block(0, 7).unwrap().text, "Title");
    assert!(handle.get_block(0, 8).is_none());
    assert!(handle.get_block(1, 0).is_none());
    assert_eq!(handle.get_block(2, 0).unwrap().text, "Hello, world!");
    assert_eq!(handle.get_block(2, 7).unwrap().text, "Hello, world!");
    assert_eq!(handle.get_block(2, 13).unwrap().text, "Hello, world!");
    assert!(handle.get_block(2, 14).is_none());
    assert!(handle.get_block(3, 0).is_none());
    assert_eq!(handle.get_block(7, 5).unwrap().text, "Subtitle 2");
    assert_eq!(handle.get_block(9, 40).unwrap().start, (9, 0));
    assert_eq!(handle.get_block(12, 70).unwrap().stat.words, 19);
    assert!(handle.get_block(16, 1).is_none());
    assert_eq!(handle.get_block(16, 2).unwrap().start, (16, 2));
    assert_eq!(handle.get_block(16, 125).unwrap().end, (16, 125));
    assert!(handle.get_block(16, 126).is_none());
    assert!(handle.get_block(17, 0).is_none());
    assert!(handle.get_block(usize::MAX, usize::MAX).is_none());
}

#[test]
fn get_block_finds_the_block_at_a_position() {
    let code = document();
    let handle = Handle::new(&code, &mut markdown_parser()).unwrap();
    assert!(!handle.blocks.is_empty());
    for block in handle.blocks.iter() {
        let at_start = handle.get_block(block.start.0, block.start.1).unwrap();
        assert_eq!(at_start.text, block.text);
        assert_eq!(at_start.start, block.start);
        let at_end = handle.get_block(block.end.0, block.end.1).unwrap();
        assert_eq!(at_end.text, block.text);
        assert_eq!(at_end.end, block.end);
        let inside = handle.get_block(block.start.0, block.start.1 + 1);
        if before((block.start.0, block.start.1 + 1), block.end) {
            assert_eq!(inside.unwrap().metadata.hash, block.metadata.hash);
        }
    }
}

#[test]
fn get_block_finds_nothing_between_and_after_blocks() {
    let code = document();
    let handle = Handle::new(&code, &mut markdown_parser()).unwrap();
    let last = handle.blocks.last().unwrap();
    assert!(handle.get_block(last.end.0 + 5, 0).is_none());
    assert!(handle.get_block(last.end.0, last.end.1 + 1).is_none());
    let first = handle.blocks.first().unwrap();
    if before((0, 0), first.start) {
        assert!(handle.get_block(0, 0).is_none());
    }
    for pair in handle.blocks.windows(2) {
        let gap = (pair[0].end.0, pair[0].end.1 + 1);
        if before(gap, pair[1].start) {
            assert!(handle.get_block(gap.0, gap.1).is_none());
        }
    }
}

#[test]
fn get_block_on_an_empty_document() {
    let handle = Handle::new("", &mut markdown_parser()).unwrap();
    assert!(handle.blocks.is_empty());
    assert!(handle.get_block(0, 0).is_none());
}

#[test]
fn parser_without_language_fails_to_parse() {
    let mut parser = tree_sitter::Parser::new();
    let outcome = Handle::new("Some text.", &mut parser);
    assert_eq!(outcome.err(), Some(HandleError::ParseFailure));
}

#[test]
fn from_parse_without_a_tree_is_a_parse_failure() {
    assert_eq!(Handle::from_parse(None, "Some text.").err(), Some(HandleError::ParseFailure));
}

#[test]
fn tree_of_another_text_is_refused() {
    let code = document();
    let tree = markdown_parser().parse(&code, None);
    assert!(tree.is_some());
    let outcome = Handle::from_parse(tree, "short");
    assert_eq!(outcome.err(), Some(HandleError::UnreadableSpan));
}

#[test]
fn update_with_the_same_text_keeps_the_blocks() {
    let code = document();
    let mut parser = markdown_parser();
    let mut handle = Handle::new(&code, &mut parser).unwrap();
    assert_eq!(handle.update(&code, &mut parser), Ok(()));
    let fresh = Handle::new(&code, &mut markdown_parser()).unwrap();
    assert_eq!(handle.blocks.len(), 10);
    for (a, b) in handle.blocks.iter().zip(fresh.blocks.iter()) {
        assert_eq!(a.text, b.text);
        assert_eq!(a.start, b.start);
        assert_eq!(a.end, b.end);
        assert_eq!(a.metadata.hash, b.metadata.hash);
    }
}

#[test]
fn replace_puts_the_new_blocks_in_place() {
    let mut handle = Handle::new("First paragraph here.\n", &mut markdown_parser()).unwrap();
    assert_eq!(handle.blocks.len(), 1);
    assert_eq!(handle.blocks[0].text, "First paragraph here.");
    let text = "Another one. With two sentences.\n\nAnd a second paragraph.\n";
    let parsed = markdown_parser().parse(text, None);
    assert_eq!(handle.replace(parsed, text), Ok(()));
    assert_eq!(handle.blocks.len(), 2);
    assert_eq!(handle.blocks[0].text, "Another one. With two sentences.");
    assert_eq!(handle.blocks[0].stat.lines, 2);
    assert_eq!(handle.blocks[0].stat.words, 5);
    assert_eq!(handle.blocks[1].text, "And a second paragraph.");
    assert_eq!(handle.blocks[1].start, (2, 0));
    assert_eq!(handle.get_block(2, 4).unwrap().text, "And a second paragraph.");
}

#[test]
fn update_reads_the_new_text_through_the_tree_that_the_parser_hands_out() {
    let mut parser = markdown_parser();
    let mut handle = Handle::new("First paragraph here.\n", &mut parser).unwrap();
    let text = "Another one. With two sentences.\n\nAnd a second paragraph.\n";
    assert_eq!(handle.update(text, &mut parser), Ok(()));
    assert!(!handle.blocks.is_empty());
    for block in handle.blocks.iter() {
        assert!(text.contains(block.text.as_str()));
        assert_eq!(block.metadata.hash, *blake3::hash(block.text.as_bytes()).as_bytes());
    }
}

#[test]
fn failed_update_changes_nothing() {
    let mut handle = Handle::new("First paragraph here.\n", &mut markdown_parser()).unwrap();
    let mut broken = tree_sitter::Parser::new();
    let outcome = handle.update("Something else entirely.\n", &mut broken);
    assert_eq!(outcome, Err(HandleError::ParseFailure));
    assert_eq!(handle.blocks.len(), 1);
    assert_eq!(handle.blocks[0].text, "First paragraph here.");
    assert_eq!(handle.get_block(0, 3).unwrap().text, "First paragraph here.");
}

#[test]
fn failed_replace_changes_nothing() {
    let mut handle = Handle::new("First paragraph here.\n", &mut markdown_parser()).unwrap();
    assert_eq!(handle.replace(None, "x"), Err(HandleError::ParseFailure));
    let long = markdown_parser().parse(&document(), None);
    assert_eq!(handle.replace(long, "x"), Err(HandleError::UnreadableSpan));
    assert_eq!(handle.blocks.len(), 1);
    assert_eq!(handle.blocks[0].text, "First paragraph here.");
}

#[test]
fn blocks_of_a_parsed_document_are_ordered() {
    let handle = Handle::new(&document(), &mut markdown_parser()).unwrap();
    assert!(handle.is_ordered());
    assert!(Handle::new("", &mut markdown_parser()).unwrap().is_ordered());
}

#[test]
fn blocks_out_of_order_are_told() {
    let mut handle = Handle::new(&document(), &mut markdown_parser()).unwrap();
    handle.blocks.swap(0, 3);
    assert!(!handle.is_ordered());
    let mut handle = Handle::new(&document(), &mut markdown_parser()).unwrap();
    handle.blocks[1].end = (0, 0);
    assert!(!handle.is_ordered());
    let mut handle = Handle::new(&document(), &mut markdown_parser()).unwrap();
    handle.blocks[1].end = handle.blocks[2].start;
    assert!(!handle.is_ordered());
}

#[test]
fn handle_errors_in_words() {
    assert_eq!(HandleError::ParseFailure.message(), "Failed to parse the text with the parser");
    assert_eq!(HandleError::UnreadableSpan.message(), "Failed to read the text of a block");
}
