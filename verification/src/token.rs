//! Tokens of the markup language.

use vstd::prelude::*;
use vstd::utf8::{decode_utf8, valid_utf8};

verus! {

/// The different kinds of token the lexer can produce.
///
/// `Word` carries the raw bytes of a maximal run of non-marker bytes.
/// The `Double*` variants are the unconstrained two-character forms of
/// the corresponding one-character markers; `TripleApos` is `'''` and
/// `TripleLt` is `<<<`.
#[derive(Clone, Debug)]
pub enum Token {
    Backquote,
    Caret,
    CloseSquareBracket,
    DoubleBackquote,
    DoubleStar,
    DoubleUnderscore,
    NewLine,
    NumberSign,
    OpenSquareBracket,
    Space,
    Star,
    Tilde,
    TripleApos,
    TripleLt,
    Underscore,
    Word(Vec<u8>),
}

/// The mathematical value of a token: the same variants, with a word's
/// bytes abstracted to a byte sequence.
pub enum TokenView {
    Backquote,
    Caret,
    CloseSquareBracket,
    DoubleBackquote,
    DoubleStar,
    DoubleUnderscore,
    NewLine,
    NumberSign,
    OpenSquareBracket,
    Space,
    Star,
    Tilde,
    TripleApos,
    TripleLt,
    Underscore,
    Word(Seq<u8>),
}

impl View for Token {
    type V = TokenView;

    open spec fn view(&self) -> TokenView {
        match self {
            Token::Backquote => TokenView::Backquote,
            Token::Caret => TokenView::Caret,
            Token::CloseSquareBracket => TokenView::CloseSquareBracket,
            Token::DoubleBackquote => TokenView::DoubleBackquote,
            Token::DoubleStar => TokenView::DoubleStar,
            Token::DoubleUnderscore => TokenView::DoubleUnderscore,
            Token::NewLine => TokenView::NewLine,
            Token::NumberSign => TokenView::NumberSign,
            Token::OpenSquareBracket => TokenView::OpenSquareBracket,
            Token::Space => TokenView::Space,
            Token::Star => TokenView::Star,
            Token::Tilde => TokenView::Tilde,
            Token::TripleApos => TokenView::TripleApos,
            Token::TripleLt => TokenView::TripleLt,
            Token::Underscore => TokenView::Underscore,
            Token::Word(bytes) => TokenView::Word(bytes@),
        }
    }
}

impl PartialEq for Token {
    fn eq(&self, other: &Token) -> (r: bool) {
        match (self, other) {
            (Token::Backquote, Token::Backquote) => true,
            (Token::Caret, Token::Caret) => true,
            (Token::CloseSquareBracket, Token::CloseSquareBracket) => true,
            (Token::DoubleBackquote, Token::DoubleBackquote) => true,
            (Token::DoubleStar, Token::DoubleStar) => true,
            (Token::DoubleUnderscore, Token::DoubleUnderscore) => true,
            (Token::NewLine, Token::NewLine) => true,
            (Token::NumberSign, Token::NumberSign) => true,
            (Token::OpenSquareBracket, Token::OpenSquareBracket) => true,
            (Token::Space, Token::Space) => true,
            (Token::Star, Token::Star) => true,
            (Token::Tilde, Token::Tilde) => true,
            (Token::TripleApos, Token::TripleApos) => true,
            (Token::TripleLt, Token::TripleLt) => true,
            (Token::Underscore, Token::Underscore) => true,
            (Token::Word(bytes), Token::Word(other_bytes)) => {
                let r = bytes == other_bytes;
                proof {
                    if bytes@ =~= other_bytes@ {
                        assert(bytes@ == other_bytes@);
                    }
                }
                r
            },
            _ => false,
        }
    }
}

impl vstd::std_specs::cmp::PartialEqSpecImpl for Token {
    open spec fn obeys_eq_spec() -> bool {
        true
    }

    open spec fn eq_spec(&self, other: &Token) -> bool {
        self@ == other@
    }
}

/// The user-readable rendering of a token, as `to_string` produces it.
pub open spec fn token_text(t: TokenView) -> Seq<char> {
    match t {
        TokenView::Backquote => "`"@,
        TokenView::Caret => "^"@,
        TokenView::CloseSquareBracket => "]"@,
        TokenView::DoubleBackquote => "``"@,
        TokenView::DoubleStar => "**"@,
        TokenView::DoubleUnderscore => "__"@,
        TokenView::NewLine => "(newline)"@,
        TokenView::NumberSign => "#"@,
        TokenView::OpenSquareBracket => "["@,
        TokenView::Space => "(space)"@,
        TokenView::Star => "*"@,
        TokenView::Tilde => "~"@,
        TokenView::TripleApos => "'''"@,
        TokenView::TripleLt => "<<<"@,
        TokenView::Underscore => "_"@,
        TokenView::Word(bytes) => lossy_decoded(bytes),
    }
}

/// What `String::from_utf8_lossy` returns for a given byte sequence.
pub uninterp spec fn lossy_decoded(bytes: Seq<u8>) -> Seq<char>;

/// Relies on `String::from_utf8_lossy`: its result depends on the bytes
/// alone, and its documentation says that valid UTF-8 is decoded unchanged.
#[verifier::external_body]
fn bytes_to_string_lossy(bytes: &Vec<u8>) -> (r: String)
    ensures
        r@ == lossy_decoded(bytes@),
        valid_utf8(bytes@) ==> r@ == decode_utf8(bytes@),
{
    String::from_utf8_lossy(bytes).to_string()
}

impl Token {
    /// Convert the token to a user-readable string.
    /// Useful for error reporting.
    pub fn to_string(&self) -> (r: String)
        ensures
            r@ == token_text(self@),
    {
        match self {
            Token::Backquote => "`".to_owned(),
            Token::Caret => "^".to_owned(),
            Token::CloseSquareBracket => "]".to_owned(),
            Token::DoubleBackquote => "``".to_owned(),
            Token::DoubleStar => "**".to_owned(),
            Token::DoubleUnderscore => "__".to_owned(),
            Token::NewLine => "(newline)".to_owned(),
            Token::NumberSign => "#".to_owned(),
            Token::OpenSquareBracket => "[".to_owned(),
            Token::Space => "(space)".to_owned(),
            Token::Star => "*".to_owned(),
            Token::Tilde => "~".to_owned(),
            Token::TripleApos => "'''".to_owned(),
            Token::TripleLt => "<<<".to_owned(),
            Token::Underscore => "_".to_owned(),
            Token::Word(bytes) => bytes_to_string_lossy(bytes),
        }
    }
}

} // verus!
