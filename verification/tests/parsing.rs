//! Tests for the parser: nodes, paragraphs, inline spans, attributes.

use asciidoctor::{Attribute, Error, Item, Lexer, Node, Parser, Text};

fn parser_for(text: &str) -> Parser {
    Parser::new(Lexer::new(text.as_bytes().to_vec()))
}

fn word_text(item: &Item) -> &str {
    match item {
        Item::Word(word) => word.as_str(),
        other => panic!("expected a word, got {:?}", other),
    }
}

fn paragraph_items(node: &Node) -> &Vec<Item> {
    match node {
        Node::Paragraph(Text { items }) => items,
        other => panic!("expected a paragraph, got {:?}", other),
    }
}

// `'''` flanked by newlines parses to exactly one HorizontalRule.
#[test]
fn horizontal_rule_between_newlines() {
    let mut parser = parser_for("\n'''\n");
    assert!(matches!(parser.node(), Ok(Node::HorizontalRule)));
    assert!(matches!(parser.node(), Err(Error::Eof)));
}

// `<<<` flanked by newlines parses to exactly one PageBreak.
#[test]
fn page_break_between_newlines() {
    let mut parser = parser_for("\n<<<\n");
    assert!(matches!(parser.node(), Ok(Node::PageBreak)));
    assert!(matches!(parser.node(), Err(Error::Eof)));
}

// Paragraph boundary: `a b\n\nc` parses to two paragraphs, the first
// with items [Word("a"), Space, Word("b")], the second with [Word("c")].
#[test]
fn blank_line_separates_paragraphs() {
    let mut parser = parser_for("a b\n\nc");
    let first = parser.node().unwrap();
    let items = paragraph_items(&first);
    assert_eq!(items.len(), 3);
    assert_eq!(word_text(&items[0]), "a");
    assert!(matches!(items[1], Item::Space));
    assert_eq!(word_text(&items[2]), "b");
    let second = parser.node().unwrap();
    let items = paragraph_items(&second);
    assert_eq!(items.len(), 1);
    assert_eq!(word_text(&items[0]), "c");
    assert!(matches!(parser.node(), Err(Error::Eof)));
}

// Comments are transparent: a comment line neither changes paragraph
// boundaries nor contributes items.
#[test]
fn comments_do_not_change_paragraph_boundaries() {
    let mut with_comment = parser_for("a\n// comment\nb");
    let mut without_comment = parser_for("a\nb");
    loop {
        let left = with_comment.node();
        let right = without_comment.node();
        match (left, right) {
            (Ok(left_node), Ok(right_node)) => {
                let left_items = paragraph_items(&left_node);
                let right_items = paragraph_items(&right_node);
                assert_eq!(left_items.len(), right_items.len());
                for (left_item, right_item) in left_items.iter().zip(right_items.iter()) {
                    assert_eq!(word_text(left_item), word_text(right_item));
                }
            },
            (Err(Error::Eof), Err(Error::Eof)) => break,
            (left, right) => panic!("nodes differ: {:?} vs {:?}", left, right),
        }
    }
}

// Unterminated inline span: `_word` surfaces Eof when the parser
// attempts to close the span, not a truncated italic item.
#[test]
fn unterminated_italic_surfaces_eof() {
    let mut parser = parser_for("_word");
    assert!(matches!(parser.node(), Err(Error::Eof)));
}

// Attribute scoping: `[myrole]_italic_` parses to an italic span with
// the role attached, and the attribute list applies to that span only.
#[test]
fn attribute_applies_to_next_span_only() {
    let mut parser = parser_for("[myrole]_a_ _b_");
    let node = parser.node().unwrap();
    let items = paragraph_items(&node);
    assert_eq!(items.len(), 3);
    match &items[0] {
        Item::Italic(text, attributes) => {
            assert_eq!(text.items.len(), 1);
            assert_eq!(word_text(&text.items[0]), "a");
            assert_eq!(attributes.len(), 1);
            match &attributes[0] {
                Attribute::Role(role) => assert_eq!(role, "myrole"),
                other => panic!("expected a role, got {:?}", other),
            }
        },
        other => panic!("expected italic, got {:?}", other),
    }
    assert!(matches!(items[1], Item::Space));
    match &items[2] {
        Item::Italic(text, attributes) => {
            assert_eq!(word_text(&text.items[0]), "b");
            assert!(attributes.is_empty());
        },
        other => panic!("expected italic, got {:?}", other),
    }
}

#[test]
fn id_attribute_uses_a_number_sign() {
    let mut parser = parser_for("[#anchor]_a_");
    let node = parser.node().unwrap();
    let items = paragraph_items(&node);
    match &items[0] {
        Item::Italic(_, attributes) => {
            assert_eq!(attributes.len(), 1);
            match &attributes[0] {
                Attribute::Id(name) => assert_eq!(name, "anchor"),
                other => panic!("expected an id, got {:?}", other),
            }
        },
        other => panic!("expected italic, got {:?}", other),
    }
}

// Two attribute lists in a row, with nothing between them, are an
// error citing `[` as both actual and expected.
#[test]
fn stacked_attribute_lists_are_rejected() {
    let mut parser = parser_for("[a][b]_c_");
    match parser.node() {
        Err(Error::UnexpectedToken { actual, expected, .. }) => {
            assert_eq!(actual, "[");
            assert_eq!(expected, "[");
        },
        other => panic!("expected UnexpectedToken, got {:?}", other),
    }
}

#[test]
fn all_span_kinds_parse() {
    let mut parser = parser_for("*b* `c` ^s^ ~t~ #m# __i__ **B** ``C``");
    let node = parser.node().unwrap();
    let items = paragraph_items(&node);
    assert!(matches!(&items[0], Item::Bold(..)));
    assert!(matches!(&items[2], Item::InlineCode(..)));
    assert!(matches!(&items[4], Item::SuperScript(..)));
    assert!(matches!(&items[6], Item::SubScript(..)));
    assert!(matches!(&items[8], Item::Mark(..)));
    assert!(matches!(&items[10], Item::Italic(..)));
    assert!(matches!(&items[12], Item::Bold(..)));
    assert!(matches!(&items[14], Item::InlineCode(..)));
}

#[test]
fn spans_nest() {
    let mut parser = parser_for("_a *b* c_");
    let node = parser.node().unwrap();
    let items = paragraph_items(&node);
    match &items[0] {
        Item::Italic(text, _) => {
            assert_eq!(text.items.len(), 5);
            assert_eq!(word_text(&text.items[0]), "a");
            assert!(matches!(&text.items[2], Item::Bold(..)));
            assert_eq!(word_text(&text.items[4]), "c");
        },
        other => panic!("expected italic, got {:?}", other),
    }
}

// A newline inside a span is consumed transparently and contributes
// no item.
#[test]
fn newline_inside_a_span_is_transparent() {
    let mut parser = parser_for("_a\nb_");
    let node = parser.node().unwrap();
    let items = paragraph_items(&node);
    match &items[0] {
        Item::Italic(text, _) => {
            assert_eq!(text.items.len(), 2);
            assert_eq!(word_text(&text.items[0]), "a");
            assert_eq!(word_text(&text.items[1]), "b");
        },
        other => panic!("expected italic, got {:?}", other),
    }
}

// Words that are not valid UTF-8 fail with a Msg error.
#[test]
fn invalid_utf8_word_is_a_msg_error() {
    let mut parser = Parser::new(Lexer::new(vec![0xff, 0xfe]));
    match parser.node() {
        Err(Error::Msg(message)) => {
            assert!(!message.is_empty());
        },
        other => panic!("expected Msg, got {:?}", other),
    }
}

// Stray spaces and blank lines at node scope are skipped.
#[test]
fn leading_blank_lines_are_skipped() {
    let mut parser = parser_for("  \n\n  word\n");
    let node = parser.node().unwrap();
    let items = paragraph_items(&node);
    assert_eq!(word_text(&items[0]), "word");
    assert!(matches!(parser.node(), Err(Error::Eof)));
}

#[test]
fn text_new_builds_a_text() {
    let text = Text::new(vec![Item::Space]);
    assert_eq!(text.items.len(), 1);
    assert!(matches!(text.items[0], Item::Space));
}

// After a mismatched token was consumed, the error reports the token a
// fresh look-ahead finds, at the position before it.
#[test]
fn mismatch_reports_the_following_token() {
    let mut parser = parser_for("[a b]_c_");
    match parser.node() {
        Err(Error::UnexpectedToken { actual, expected, pos }) => {
            assert_eq!(actual, "b");
            assert_eq!(expected, "]");
            assert_eq!((pos.line, pos.column), (1, 4));
        },
        other => panic!("expected UnexpectedToken, got {:?}", other),
    }
}

// When no token can be read after the mismatch, the error names an
// unknown token.
#[test]
fn mismatch_at_a_lexical_error_reports_an_unknown_token() {
    let mut parser = parser_for("[a '");
    match parser.node() {
        Err(Error::UnexpectedToken { actual, expected, .. }) => {
            assert_eq!(actual, "(unknown token)");
            assert_eq!(expected, "]");
        },
        other => panic!("expected UnexpectedToken, got {:?}", other),
    }
}
