//! Tests for the lexer: tokens, positions, and lexical errors.

use asciidoctor::{Error, Lexer, Token};

fn lexer_for(text: &str) -> Lexer {
    Lexer::new(text.as_bytes().to_vec())
}

#[test]
fn words_spaces_and_newlines() {
    let mut lexer = lexer_for("ab cd\nef");
    match lexer.token() {
        Ok(Token::Word(bytes)) => assert_eq!(bytes, b"ab".to_vec()),
        other => panic!("expected word, got {:?}", other),
    }
    assert!(matches!(lexer.token(), Ok(Token::Space)));
    match lexer.token() {
        Ok(Token::Word(bytes)) => assert_eq!(bytes, b"cd".to_vec()),
        other => panic!("expected word, got {:?}", other),
    }
    assert!(matches!(lexer.token(), Ok(Token::NewLine)));
    match lexer.token() {
        Ok(Token::Word(bytes)) => assert_eq!(bytes, b"ef".to_vec()),
        other => panic!("expected word, got {:?}", other),
    }
    assert!(matches!(lexer.token(), Err(Error::Eof)));
}

#[test]
fn single_and_double_markers() {
    let mut lexer = lexer_for("_ __ * ** ` `` # [ ] ^ ~");
    assert!(matches!(lexer.token(), Ok(Token::Underscore)));
    assert!(matches!(lexer.token(), Ok(Token::Space)));
    assert!(matches!(lexer.token(), Ok(Token::DoubleUnderscore)));
    assert!(matches!(lexer.token(), Ok(Token::Space)));
    assert!(matches!(lexer.token(), Ok(Token::Star)));
    assert!(matches!(lexer.token(), Ok(Token::Space)));
    assert!(matches!(lexer.token(), Ok(Token::DoubleStar)));
    assert!(matches!(lexer.token(), Ok(Token::Space)));
    assert!(matches!(lexer.token(), Ok(Token::Backquote)));
    assert!(matches!(lexer.token(), Ok(Token::Space)));
    assert!(matches!(lexer.token(), Ok(Token::DoubleBackquote)));
    assert!(matches!(lexer.token(), Ok(Token::Space)));
    assert!(matches!(lexer.token(), Ok(Token::NumberSign)));
    assert!(matches!(lexer.token(), Ok(Token::Space)));
    assert!(matches!(lexer.token(), Ok(Token::OpenSquareBracket)));
    assert!(matches!(lexer.token(), Ok(Token::Space)));
    assert!(matches!(lexer.token(), Ok(Token::CloseSquareBracket)));
    assert!(matches!(lexer.token(), Ok(Token::Space)));
    assert!(matches!(lexer.token(), Ok(Token::Caret)));
    assert!(matches!(lexer.token(), Ok(Token::Space)));
    assert!(matches!(lexer.token(), Ok(Token::Tilde)));
}

#[test]
fn triple_markers() {
    let mut lexer = lexer_for("'''\n<<<");
    assert!(matches!(lexer.token(), Ok(Token::TripleApos)));
    assert!(matches!(lexer.token(), Ok(Token::NewLine)));
    assert!(matches!(lexer.token(), Ok(Token::TripleLt)));
}

// Partial-prefix rejection: `''` followed by a space fails with
// `UnexpectedChar` citing `'` as expected, at the space's position.
#[test]
fn partial_horizontal_rule_is_rejected() {
    let mut lexer = lexer_for("'' ");
    match lexer.token() {
        Err(Error::UnexpectedChar { actual, expected, pos }) => {
            assert_eq!(actual, b' ');
            assert_eq!(expected, vec![b'\'']);
            assert_eq!(pos.line, 1);
            assert_eq!(pos.column, 3);
        },
        other => panic!("expected UnexpectedChar, got {:?}", other),
    }
}

#[test]
fn partial_page_break_is_rejected() {
    let mut lexer = lexer_for("<<a");
    match lexer.token() {
        Err(Error::UnexpectedChar { actual, expected, pos }) => {
            assert_eq!(actual, b'a');
            assert_eq!(expected, vec![b'<']);
            assert_eq!(pos.line, 1);
            assert_eq!(pos.column, 3);
        },
        other => panic!("expected UnexpectedChar, got {:?}", other),
    }
}

#[test]
fn line_comment_is_skipped() {
    let mut lexer = lexer_for("// note\nab");
    assert!(matches!(lexer.token(), Ok(Token::NewLine)));
    match lexer.token() {
        Ok(Token::Word(bytes)) => assert_eq!(bytes, b"ab".to_vec()),
        other => panic!("expected word, got {:?}", other),
    }
}

#[test]
fn block_comment_is_skipped() {
    let mut lexer = lexer_for("////\nhidden words\nmore\n////ab");
    match lexer.token() {
        Ok(Token::Word(bytes)) => assert_eq!(bytes, b"ab".to_vec()),
        other => panic!("expected word, got {:?}", other),
    }
}

#[test]
fn carriage_returns_are_skipped() {
    let mut lexer = lexer_for("a\r\nb");
    match lexer.token() {
        Ok(Token::Word(bytes)) => assert_eq!(bytes, b"a".to_vec()),
        other => panic!("expected word, got {:?}", other),
    }
    assert!(matches!(lexer.token(), Ok(Token::NewLine)));
    match lexer.token() {
        Ok(Token::Word(bytes)) => assert_eq!(bytes, b"b".to_vec()),
        other => panic!("expected word, got {:?}", other),
    }
}

#[test]
fn positions_track_lines_and_columns() {
    let mut lexer = lexer_for("ab c\nd");
    let start = lexer.pos();
    assert_eq!((start.line, start.column), (1, 1));
    lexer.token().unwrap();
    let after_word = lexer.pos();
    assert_eq!((after_word.line, after_word.column), (1, 3));
    lexer.token().unwrap();
    lexer.token().unwrap();
    lexer.token().unwrap();
    let second_line = lexer.pos();
    assert_eq!((second_line.line, second_line.column), (2, 1));
}

#[test]
fn peek_does_not_consume_and_keeps_the_position() {
    let mut lexer = lexer_for("ab cd");
    let peeked = lexer.peek().unwrap().clone();
    assert!(matches!(peeked, Token::Word(_)));
    // The position is the one before the peeked token.
    let pos = lexer.pos();
    assert_eq!((pos.line, pos.column), (1, 1));
    // A second peek returns the same token.
    assert!(matches!(lexer.peek(), Ok(Token::Word(_))));
    // And the next token is the peeked one.
    match lexer.token() {
        Ok(Token::Word(bytes)) => assert_eq!(bytes, b"ab".to_vec()),
        other => panic!("expected word, got {:?}", other),
    }
    assert!(matches!(lexer.token(), Ok(Token::Space)));
}

#[test]
fn tab_is_an_internal_error() {
    let mut lexer = lexer_for("\tx");
    match lexer.token() {
        Err(Error::Msg(message)) => {
            assert_eq!(
                message,
                "bug in the parser, next character `\t` is not part of a word token"
            );
        },
        other => panic!("expected Msg, got {:?}", other),
    }
}

#[test]
fn words_absorb_non_marker_bytes() {
    let mut lexer = lexer_for("don't<stop/now");
    match lexer.token() {
        Ok(Token::Word(bytes)) => assert_eq!(bytes, b"don't<stop/now".to_vec()),
        other => panic!("expected word, got {:?}", other),
    }
}

#[test]
fn token_to_string_renders_tokens() {
    assert_eq!(Token::NewLine.to_string(), "(newline)");
    assert_eq!(Token::Space.to_string(), "(space)");
    assert_eq!(Token::TripleApos.to_string(), "'''");
    assert_eq!(Token::TripleLt.to_string(), "<<<");
    assert_eq!(Token::DoubleStar.to_string(), "**");
    assert_eq!(Token::Word(b"abc".to_vec()).to_string(), "abc");
}

#[test]
fn tokens_compare_by_value() {
    assert_eq!(Token::Word(b"ab".to_vec()), Token::Word(b"ab".to_vec()));
    assert_ne!(Token::Word(b"ab".to_vec()), Token::Word(b"ac".to_vec()));
    assert_ne!(Token::Underscore, Token::DoubleUnderscore);
    assert_eq!(Token::Tilde, Token::Tilde);
}
