//! Tokenizing of the markup text, with exact line/column tracking.

use vstd::prelude::*;

use crate::error::{Error, ErrorView};
use crate::position::Pos;
use crate::token::{Token, TokenView};

verus! {

/// The mathematical state of a lexer: the bytes not yet consumed and
/// the 1-based position of the next byte.
pub struct LexView {
    pub bytes: Seq<u8>,
    pub line: nat,
    pub col: nat,
}

/// The position of a lexer state as a [`Pos`] value.
pub open spec fn lv_pos(s: LexView) -> Pos {
    Pos { line: s.line as usize, column: s.col as usize }
}

/// The state after consuming the first remaining byte.
pub open spec fn lv_step(s: LexView) -> LexView
    recommends
        s.bytes.len() > 0,
{
    let b = s.bytes[0];
    LexView {
        bytes: s.bytes.drop_first(),
        line: if b == 10 {
            (s.line + 1) as nat
        } else {
            s.line
        },
        col: if b == 10 {
            1 as nat
        } else {
            (s.col + 1) as nat
        },
    }
}

/// The state after consuming `n` bytes, none of which is a newline.
pub open spec fn lv_jump(s: LexView, n: nat) -> LexView
    recommends
        n <= s.bytes.len(),
{
    LexView { bytes: s.bytes.skip(n as int), line: s.line, col: (s.col + n) as nat }
}

/// True for the bytes that may appear inside a `Word` token: everything
/// except space, `*`, `_`, backquote, `#`, `[`, `]`, `^`, `~`, newline,
/// carriage return and tab.
pub open spec fn is_word_byte(b: u8) -> bool {
    b != 32 && b != 42 && b != 95 && b != 96 && b != 35 && b != 91 && b != 93 && b != 94 && b
        != 126 && b != 10 && b != 13 && b != 9
}

/// Consuming one expected byte: end of input gives `Eof`, a different
/// byte gives `UnexpectedChar` at the unconsumed byte's position.
pub open spec fn sp_eat(s: LexView, expected: u8) -> (Result<(), ErrorView>, LexView) {
    if s.bytes.len() == 0 {
        (Err(ErrorView::Eof), s)
    } else if s.bytes[0] == expected {
        (Ok(()), lv_step(s))
    } else {
        (
            Err(
                ErrorView::UnexpectedChar {
                    actual: s.bytes[0],
                    expected: seq![expected],
                    pos: lv_pos(s),
                },
            ),
            s,
        )
    }
}

/// The length of the maximal run of word bytes at the front.
pub open spec fn word_run_len(bytes: Seq<u8>) -> nat
    decreases bytes.len(),
{
    if bytes.len() == 0 || !is_word_byte(bytes[0]) {
        0
    } else {
        (1 + word_run_len(bytes.drop_first())) as nat
    }
}

/// The length of the run of bytes before the first newline.
pub open spec fn line_run_len(bytes: Seq<u8>) -> nat
    decreases bytes.len(),
{
    if bytes.len() == 0 || bytes[0] == 10 {
        0
    } else {
        (1 + line_run_len(bytes.drop_first())) as nat
    }
}

/// The length of the run of newline bytes at the front.
pub open spec fn newline_run_len(bytes: Seq<u8>) -> nat
    decreases bytes.len(),
{
    if bytes.len() == 0 || bytes[0] != 10 {
        0
    } else {
        (1 + newline_run_len(bytes.drop_first())) as nat
    }
}

/// Advancing to the next newline, which stays unconsumed; reaching the
/// end of the input first is `Eof`.
pub open spec fn sp_skip_until_newline(s: LexView) -> (Result<(), ErrorView>, LexView) {
    let n = line_run_len(s.bytes);
    if n == s.bytes.len() {
        (Err(ErrorView::Eof), lv_jump(s, n))
    } else {
        (Ok(()), lv_jump(s, n))
    }
}

/// The state after consuming `n` newline bytes.
pub open spec fn lv_jump_newlines(s: LexView, n: nat) -> LexView
    recommends
        n <= s.bytes.len(),
{
    LexView {
        bytes: s.bytes.skip(n as int),
        line: (s.line + n) as nat,
        col: if n == 0 {
            s.col
        } else {
            1 as nat
        },
    }
}

/// Advancing over the run of newlines at the front; reaching the end of
/// the input is `Eof`.
pub open spec fn sp_skip_newlines(s: LexView) -> (Result<(), ErrorView>, LexView) {
    let n = newline_run_len(s.bytes);
    if n == s.bytes.len() {
        (Err(ErrorView::Eof), lv_jump_newlines(s, n))
    } else {
        (Ok(()), lv_jump_newlines(s, n))
    }
}

/// True when the remaining input starts with the four-slash block
/// comment delimiter.
pub open spec fn starts_with_block_delim(bytes: Seq<u8>) -> bool {
    bytes.len() >= 4 && bytes[0] == 47 && bytes[1] == 47 && bytes[2] == 47 && bytes[3] == 47
}

/// The run before the first newline never passes the end of the input,
/// stops exactly at a newline, and contains none.
pub proof fn lemma_line_run(bytes: Seq<u8>)
    ensures
        line_run_len(bytes) <= bytes.len(),
        line_run_len(bytes) < bytes.len() ==> bytes[line_run_len(bytes) as int] == 10,
        forall|i: int| 0 <= i < line_run_len(bytes) ==> bytes[i] != 10,
    decreases bytes.len(),
{
    if bytes.len() == 0 || bytes[0] == 10 {
    } else {
        lemma_line_run(bytes.drop_first());
        assert forall|i: int| 0 <= i < line_run_len(bytes) implies bytes[i] != 10 by {
            if i > 0 {
                assert(bytes.drop_first()[i - 1] == bytes[i]);
            }
        }
    }
}

/// The run of newlines never passes the end of the input, stops at a
/// byte that is no newline, and contains only newlines.
pub proof fn lemma_newline_run(bytes: Seq<u8>)
    ensures
        newline_run_len(bytes) <= bytes.len(),
        newline_run_len(bytes) < bytes.len() ==> bytes[newline_run_len(bytes) as int] != 10,
        forall|i: int| 0 <= i < newline_run_len(bytes) ==> bytes[i] == 10,
    decreases bytes.len(),
{
    if bytes.len() == 0 || bytes[0] != 10 {
    } else {
        lemma_newline_run(bytes.drop_first());
        assert forall|i: int| 0 <= i < newline_run_len(bytes) implies bytes[i] == 10 by {
            if i > 0 {
                assert(bytes.drop_first()[i - 1] == bytes[i]);
            }
        }
    }
}

/// The word run never passes the end of the input, stops at a byte that
/// no word may contain, and contains only word bytes.
pub proof fn lemma_word_run(bytes: Seq<u8>)
    ensures
        word_run_len(bytes) <= bytes.len(),
        word_run_len(bytes) < bytes.len() ==> !is_word_byte(bytes[word_run_len(bytes) as int]),
        forall|i: int| 0 <= i < word_run_len(bytes) ==> is_word_byte(bytes[i]),
    decreases bytes.len(),
{
    if bytes.len() == 0 || !is_word_byte(bytes[0]) {
    } else {
        lemma_word_run(bytes.drop_first());
        assert forall|i: int| 0 <= i < word_run_len(bytes) implies is_word_byte(bytes[i]) by {
            if i > 0 {
                assert(bytes.drop_first()[i - 1] == bytes[i]);
            }
        }
    }
}

/// Consuming the body of a block comment line by line until a line
/// begins with the four-slash delimiter, which is consumed as well.
pub open spec fn sp_block_comment_rest(s: LexView) -> (Result<(), ErrorView>, LexView)
    decreases s.bytes.len(),
    via sp_block_comment_rest_dec
{
    if starts_with_block_delim(s.bytes) {
        (Ok(()), lv_jump(s, 4))
    } else {
        let (r1, s1) = sp_skip_until_newline(s);
        if r1 is Err {
            (r1, s1)
        } else {
            let (r2, s2) = sp_skip_newlines(s1);
            if r2 is Err {
                (r2, s2)
            } else {
                sp_block_comment_rest(s2)
            }
        }
    }
}

#[via_fn]
proof fn sp_block_comment_rest_dec(s: LexView) {
    if !starts_with_block_delim(s.bytes) {
        lemma_line_run(s.bytes);
        let n1 = line_run_len(s.bytes);
        if n1 < s.bytes.len() {
            let s1 = lv_jump(s, n1);
            assert(s1.bytes[0] == s.bytes[n1 as int]);
            lemma_newline_run(s1.bytes);
            assert(newline_run_len(s1.bytes) >= 1);
        }
    }
}

/// A block comment body never adds bytes back: the remaining input only
/// shrinks.
pub proof fn lemma_block_comment_rest_len(s: LexView)
    ensures
        sp_block_comment_rest(s).1.bytes.len() <= s.bytes.len(),
    decreases s.bytes.len(),
{
    if starts_with_block_delim(s.bytes) {
    } else {
        lemma_line_run(s.bytes);
        let n1 = line_run_len(s.bytes);
        let s1 = lv_jump(s, n1);
        if n1 < s.bytes.len() {
            assert(s1.bytes[0] == s.bytes[n1 as int]);
            lemma_newline_run(s1.bytes);
            let n2 = newline_run_len(s1.bytes);
            let s2 = lv_jump_newlines(s1, n2);
            if n2 != s1.bytes.len() {
                assert(n2 >= 1);
                lemma_block_comment_rest_len(s2);
            }
        }
    }
}

/// Consuming a comment that starts at a `/` byte: two slashes begin a
/// line comment discarded up to (not including) the next newline; four
/// slashes begin a block comment discarded through the closing
/// four-slash delimiter.
pub open spec fn sp_comment(s: LexView) -> (Result<(), ErrorView>, LexView) {
    let (r1, s1) = sp_eat(s, 47);
    if r1 is Err {
        (r1, s1)
    } else {
        let (r2, s2) = sp_eat(s1, 47);
        if r2 is Err {
            (r2, s2)
        } else if s2.bytes.len() == 0 {
            (Err(ErrorView::Eof), s2)
        } else if s2.bytes[0] == 47 {
            let (r3, s3) = sp_eat(s2, 47);
            if r3 is Err {
                (r3, s3)
            } else {
                let (r4, s4) = sp_eat(s3, 47);
                if r4 is Err {
                    (r4, s4)
                } else {
                    sp_block_comment_rest(s4)
                }
            }
        } else {
            sp_skip_until_newline(s2)
        }
    }
}

/// A comment that was consumed successfully took at least its two
/// leading slashes from the input.
pub proof fn lemma_comment_len(s: LexView)
    ensures
        sp_comment(s).0 is Ok ==> sp_comment(s).1.bytes.len() < s.bytes.len(),
        sp_comment(s).1.bytes.len() <= s.bytes.len(),
{
    lemma_line_run(s.bytes);
    if s.bytes.len() >= 2 && s.bytes[0] == 47 && s.bytes[1] == 47 {
        let s2 = lv_step(lv_step(s));
        if s2.bytes.len() > 0 && s2.bytes[0] == 47 {
            if s2.bytes.len() >= 2 && s2.bytes[1] == 47 {
                let s4 = lv_step(lv_step(s2));
                lemma_block_comment_rest_len(s4);
            }
        } else {
            lemma_line_run(s2.bytes);
        }
    }
}

/// Consuming a marker byte that may be doubled: a second identical byte
/// immediately following upgrades the token to its two-character form.
pub open spec fn sp_single_or_double(
    s: LexView,
    b: u8,
    single: TokenView,
    double: TokenView,
) -> (Result<TokenView, ErrorView>, LexView)
    recommends
        s.bytes.len() > 0 && s.bytes[0] == b,
{
    let s1 = lv_step(s);
    if s1.bytes.len() > 0 && s1.bytes[0] == b {
        (Ok(double), lv_step(s1))
    } else {
        (Ok(single), s1)
    }
}

/// Consuming three identical marker bytes; a missing second or third
/// byte is an `UnexpectedChar` error, never literal text.
pub open spec fn sp_triple(s: LexView, b: u8, token: TokenView) -> (
    Result<TokenView, ErrorView>,
    LexView,
) {
    let (r1, s1) = sp_eat(s, b);
    if r1 is Err {
        (Err(r1->Err_0), s1)
    } else {
        let (r2, s2) = sp_eat(s1, b);
        if r2 is Err {
            (Err(r2->Err_0), s2)
        } else {
            let (r3, s3) = sp_eat(s2, b);
            if r3 is Err {
                (Err(r3->Err_0), s3)
            } else {
                (Ok(token), s3)
            }
        }
    }
}

/// The internal-invariant message produced when a byte that no token
/// production accepts reaches the word scanner.
pub open spec fn word_bug_message(b: u8) -> Seq<char> {
    "bug in the parser, next character `"@ + seq![b as char]
        + "` is not part of a word token"@
}

/// The next token of a lexer state, with the state that remains.
///
/// This is the reference meaning of `Lexer::token`: comments and
/// carriage returns are consumed transparently, `'''` and `<<<` must be
/// complete, `_`, `*` and backquote may be doubled, and any other
/// non-marker byte starts a maximal word.
pub open spec fn sp_token(s: LexView) -> (Result<TokenView, ErrorView>, LexView)
    decreases s.bytes.len(),
    via sp_token_dec
{
    if s.bytes.len() == 0 {
        (Err(ErrorView::Eof), s)
    } else {
        let b = s.bytes[0];
        if b == 47 {
            let (r, s1) = sp_comment(s);
            if r is Err {
                (Err(r->Err_0), s1)
            } else {
                sp_token(s1)
            }
        } else if b == 60 {
            sp_triple(s, 60, TokenView::TripleLt)
        } else if b == 39 {
            sp_triple(s, 39, TokenView::TripleApos)
        } else if b == 10 {
            (Ok(TokenView::NewLine), lv_step(s))
        } else if b == 13 {
            sp_token(lv_step(s))
        } else if b == 35 {
            (Ok(TokenView::NumberSign), lv_step(s))
        } else if b == 32 {
            (Ok(TokenView::Space), lv_step(s))
        } else if b == 91 {
            (Ok(TokenView::OpenSquareBracket), lv_step(s))
        } else if b == 93 {
            (Ok(TokenView::CloseSquareBracket), lv_step(s))
        } else if b == 95 {
            sp_single_or_double(s, 95, TokenView::Underscore, TokenView::DoubleUnderscore)
        } else if b == 42 {
            sp_single_or_double(s, 42, TokenView::Star, TokenView::DoubleStar)
        } else if b == 96 {
            sp_single_or_double(s, 96, TokenView::Backquote, TokenView::DoubleBackquote)
        } else if b == 94 {
            (Ok(TokenView::Caret), lv_step(s))
        } else if b == 126 {
            (Ok(TokenView::Tilde), lv_step(s))
        } else if !is_word_byte(b) {
            (Err(ErrorView::Msg(word_bug_message(b))), s)
        } else {
            let n = word_run_len(s.bytes);
            (Ok(TokenView::Word(s.bytes.take(n as int))), lv_jump(s, n))
        }
    }
}

#[via_fn]
proof fn sp_token_dec(s: LexView) {
    if s.bytes.len() > 0 && s.bytes[0] == 47 {
        lemma_comment_len(s);
    }
}

/// Lexing never adds bytes back, and a successful token always
/// consumes at least one byte.
pub proof fn lemma_token_len(s: LexView)
    ensures
        sp_token(s).1.bytes.len() <= s.bytes.len(),
        sp_token(s).0 is Ok ==> sp_token(s).1.bytes.len() < s.bytes.len(),
    decreases s.bytes.len(),
{
    if s.bytes.len() == 0 {
    } else {
        let b = s.bytes[0];
        if b == 47 {
            lemma_comment_len(s);
            let (r, s1) = sp_comment(s);
            if r is Ok {
                lemma_token_len(s1);
            }
        } else if b == 13 {
            lemma_token_len(lv_step(s));
        } else if b == 60 || b == 39 {
        } else if !is_word_byte(b) {
        } else if b == 10 || b == 35 || b == 32 || b == 91 || b == 93 || b == 94 || b == 126 || b
            == 95 || b == 42 || b == 96 {
        } else {
            lemma_word_run(s.bytes);
            assert(word_run_len(s.bytes) >= 1);
        }
    }
}

/// The mathematical value of a token result, for stating lexer
/// contracts.
pub open spec fn token_res_view(r: Result<Token, Error>) -> Result<TokenView, ErrorView> {
    match r {
        Ok(t) => Ok(t@),
        Err(e) => Err(e@),
    }
}

/// The mathematical value of a unit result.
pub open spec fn unit_res_view(r: Result<(), Error>) -> Result<(), ErrorView> {
    match r {
        Ok(u) => Ok(u),
        Err(e) => Err(e@),
    }
}

/// A token held back by `peek`, together with the position the lexer
/// had before that token was read.
struct NextToken {
    token: Token,
    prev_index: usize,
    prev_line: usize,
    prev_column: usize,
}

/// The lexer: it owns the input bytes, a cursor into them, the current
/// line/column position, and at most one peeked-ahead token.
pub struct Lexer {
    input: Vec<u8>,
    index: usize,
    line: usize,
    column: usize,
    next_token: Option<NextToken>,
}

impl View for Lexer {
    type V = LexView;

    /// The lexer's abstract state. While a token is held back by
    /// `peek`, the state is the one from just before that token, so
    /// that peeking is invisible in the model.
    closed spec fn view(&self) -> LexView {
        match self.next_token {
            Some(nt) => LexView {
                bytes: self.input@.skip(nt.prev_index as int),
                line: nt.prev_line as nat,
                col: nt.prev_column as nat,
            },
            None => self.raw(),
        }
    }
}

impl Lexer {
    /// The state given by the cursor alone, ignoring a peeked token.
    closed spec fn raw(&self) -> LexView {
        LexView {
            bytes: self.input@.skip(self.index as int),
            line: self.line as nat,
            col: self.column as nat,
        }
    }

    /// The cursor is inside the input and the position counters cannot
    /// overflow.
    closed spec fn cursor_ok(&self) -> bool {
        &&& self.input@.len() < usize::MAX
        &&& self.index <= self.input@.len()
        &&& 1 <= self.line
        &&& 1 <= self.column
        &&& self.line + self.column <= self.index + 2
    }

    /// No token is held back.
    closed spec fn no_peeked(&self) -> bool {
        self.next_token is None
    }

    /// Well-formedness: the cursor is valid and a peeked token, if any,
    /// is exactly what the next token of the pre-peek state is.
    pub closed spec fn wf(&self) -> bool {
        &&& self.cursor_ok()
        &&& match self.next_token {
            Some(nt) => {
                &&& nt.prev_index <= self.input@.len()
                &&& 1 <= nt.prev_line
                &&& 1 <= nt.prev_column
                &&& nt.prev_line + nt.prev_column <= nt.prev_index + 2
                &&& sp_token(
                    LexView {
                        bytes: self.input@.skip(nt.prev_index as int),
                        line: nt.prev_line as nat,
                        col: nt.prev_column as nat,
                    },
                ) == (Ok::<TokenView, ErrorView>(nt.token@), self.raw())
            },
            None => true,
        }
    }

    /// Create a new lexer over the full input text.
    pub fn new(input: Vec<u8>) -> (lexer: Lexer)
        requires
            input@.len() < usize::MAX,
        ensures
            lexer.wf(),
            lexer@ == (LexView { bytes: input@, line: 1 as nat, col: 1 as nat }),
    {
        let lexer = Lexer { input, index: 0, line: 1, column: 1, next_token: None };
        proof {
            assert(lexer.input@.skip(0) =~= lexer.input@);
        }
        lexer
    }

    /// Advance the internal position cursor over the current byte.
    fn advance(&mut self, actual: u8)
        requires
            old(self).cursor_ok(),
            old(self).no_peeked(),
            old(self).index < old(self).input@.len(),
            old(self).input@[old(self).index as int] == actual,
        ensures
            final(self).cursor_ok(),
            final(self).no_peeked(),
            final(self).raw() == lv_step(old(self).raw()),
            final(self).input == old(self).input,
            final(self).index == old(self).index + 1,
    {
        proof {
            assert(self.raw().bytes[0] == self.input@[self.index as int]);
        }
        self.index = self.index + 1;
        if actual == 10 {
            self.line = self.line + 1;
            self.column = 1;
        } else {
            self.column = self.column + 1;
        }
        proof {
            assert(self.input@.skip(self.index as int) =~= old(self).raw().bytes.drop_first());
        }
    }

    /// Get the byte under the cursor, or `Eof` past the end.
    fn current_char(&self) -> (r: Result<u8, Error>)
        requires
            self.cursor_ok(),
        ensures
            match r {
                Ok(b) => self.raw().bytes.len() > 0 && b == self.raw().bytes[0],
                Err(e) => self.raw().bytes.len() == 0 && e@ == ErrorView::Eof,
            },
    {
        if self.index < self.input.len() {
            proof {
                assert(self.raw().bytes[0] == self.input@[self.index as int]);
            }
            Ok(self.input[self.index])
        } else {
            Err(Error::Eof)
        }
    }

    /// Eat the next byte if it is the one specified in the parameter.
    fn eat(&mut self, expected: u8) -> (r: Result<(), Error>)
        requires
            old(self).cursor_ok(),
            old(self).no_peeked(),
        ensures
            final(self).cursor_ok(),
            final(self).no_peeked(),
            final(self).input == old(self).input,
            r is Ok ==> final(self).index == old(self).index + 1,
            r is Err ==> final(self).index == old(self).index,
            (unit_res_view(r), final(self).raw()) == sp_eat(old(self).raw(), expected),
    {
        if self.index < self.input.len() {
            let actual = self.input[self.index];
            proof {
                assert(self.raw().bytes[0] == self.input@[self.index as int]);
            }
            if actual == expected {
                self.advance(actual);
                Ok(())
            } else {
                let expected_bytes = vec![expected];
                proof {
                    assert(expected_bytes@ =~= seq![expected]);
                }
                let e = Error::UnexpectedChar {
                    actual,
                    expected: expected_bytes,
                    pos: Pos::new(self.line, self.column),
                };
                proof {
                    assert(e@ == sp_eat(old(self).raw(), expected).0->Err_0);
                }
                Err(e)
            }
        } else {
            Err(Error::Eof)
        }
    }

    /// Advance until the end of the line; the newline stays unconsumed.
    fn advance_to_eol(&mut self) -> (r: Result<(), Error>)
        requires
            old(self).cursor_ok(),
            old(self).no_peeked(),
        ensures
            final(self).cursor_ok(),
            final(self).no_peeked(),
            final(self).input == old(self).input,
            final(self).index >= old(self).index,
            (unit_res_view(r), final(self).raw()) == sp_skip_until_newline(old(self).raw()),
    {
        let ghost orig = self.raw();
        let start = self.index;
        proof {
            assert(orig.bytes.skip(0) =~= orig.bytes);
            assert(orig.bytes.take(0) =~= Seq::<u8>::empty());
        }
        loop
            invariant
                self.cursor_ok(),
                self.no_peeked(),
                self.input == old(self).input,
                start == old(self).index,
                start <= self.index,
                orig == old(self).raw(),
                self.raw() == lv_jump(orig, (self.index - start) as nat),
                line_run_len(orig.bytes) == (self.index - start) + line_run_len(self.raw().bytes),
            decreases self.input@.len() - self.index,
        {
            if self.index >= self.input.len() {
                proof {
                    assert(self.raw().bytes.len() == 0);
                }
                return Err(Error::Eof);
            }
            let b = self.input[self.index];
            proof {
                assert(self.raw().bytes[0] == self.input@[self.index as int]);
            }
            if b == 10 {
                return Ok(());
            }
            let ghost before = self.raw();
            self.advance(b);
            proof {
                assert(before.bytes.drop_first() =~= orig.bytes.skip(self.index - start));
                assert(self.raw() == lv_jump(orig, (self.index - start) as nat));
            }
        }
    }

    /// Advance over the run of newlines under the cursor.
    fn skip_newlines(&mut self) -> (r: Result<(), Error>)
        requires
            old(self).cursor_ok(),
            old(self).no_peeked(),
        ensures
            final(self).cursor_ok(),
            final(self).no_peeked(),
            final(self).input == old(self).input,
            final(self).index >= old(self).index,
            (unit_res_view(r), final(self).raw()) == sp_skip_newlines(old(self).raw()),
    {
        let ghost orig = self.raw();
        let start = self.index;
        proof {
            assert(orig.bytes.skip(0) =~= orig.bytes);
            assert(orig.bytes.take(0) =~= Seq::<u8>::empty());
        }
        loop
            invariant
                self.cursor_ok(),
                self.no_peeked(),
                self.input == old(self).input,
                start == old(self).index,
                start <= self.index,
                orig == old(self).raw(),
                self.raw() == lv_jump_newlines(orig, (self.index - start) as nat),
                newline_run_len(orig.bytes) == (self.index - start) + newline_run_len(
                    self.raw().bytes,
                ),
            decreases self.input@.len() - self.index,
        {
            if self.index >= self.input.len() {
                proof {
                    assert(self.raw().bytes.len() == 0);
                }
                return Err(Error::Eof);
            }
            let b = self.input[self.index];
            proof {
                assert(self.raw().bytes[0] == self.input@[self.index as int]);
            }
            if b != 10 {
                return Ok(());
            }
            let ghost before = self.raw();
            self.advance(b);
            proof {
                assert(before.bytes.drop_first() =~= orig.bytes.skip(self.index - start));
                assert(self.raw() == lv_jump_newlines(orig, (self.index - start) as nat));
            }
        }
    }

    /// Consume the rest of a block comment, through the closing
    /// four-slash delimiter.
    fn block_comment_rest(&mut self) -> (r: Result<(), Error>)
        requires
            old(self).cursor_ok(),
            old(self).no_peeked(),
        ensures
            final(self).cursor_ok(),
            final(self).no_peeked(),
            final(self).input == old(self).input,
            final(self).index >= old(self).index,
            (unit_res_view(r), final(self).raw()) == sp_block_comment_rest(old(self).raw()),
    {
        loop
            invariant
                self.cursor_ok(),
                self.no_peeked(),
                self.input == old(self).input,
                old(self).index <= self.index,
                sp_block_comment_rest(self.raw()) == sp_block_comment_rest(old(self).raw()),
            decreases self.input@.len() - self.index,
        {
            if self.input.len() - self.index >= 4 && self.input[self.index] == 47
                && self.input[self.index + 1] == 47 && self.input[self.index + 2] == 47
                && self.input[self.index + 3] == 47 {
                let ghost entry = self.raw();
                proof {
                    assert(entry.bytes[0] == self.input@[self.index as int]);
                    assert(entry.bytes[1] == self.input@[self.index + 1]);
                    assert(entry.bytes[2] == self.input@[self.index + 2]);
                    assert(entry.bytes[3] == self.input@[self.index + 3]);
                    assert(starts_with_block_delim(entry.bytes));
                }
                self.advance(47);
                self.advance(47);
                self.advance(47);
                self.advance(47);
                proof {
                    assert(self.raw().bytes =~= entry.bytes.skip(4));
                    assert(self.raw() == lv_jump(entry, 4));
                }
                return Ok(());
            }
            let ghost entry = self.raw();
            proof {
                if entry.bytes.len() >= 4 {
                    assert(entry.bytes[0] == self.input@[self.index as int]);
                    assert(entry.bytes[1] == self.input@[self.index + 1]);
                    assert(entry.bytes[2] == self.input@[self.index + 2]);
                    assert(entry.bytes[3] == self.input@[self.index + 3]);
                }
                assert(!starts_with_block_delim(entry.bytes));
            }
            match self.advance_to_eol() {
                Ok(u) => u,
                Err(e) => {
                    return Err(e);
                },
            }
            let ghost mid = self.raw();
            proof {
                lemma_line_run(entry.bytes);
            }
            match self.skip_newlines() {
                Ok(u) => u,
                Err(e) => {
                    return Err(e);
                },
            }
            proof {
                lemma_newline_run(mid.bytes);
                assert(mid.bytes[0] == 10);
                assert(newline_run_len(mid.bytes) >= 1);
            }
        }
    }

    /// Consume (and discard) a comment that starts at a `/` byte.
    fn comment(&mut self) -> (r: Result<(), Error>)
        requires
            old(self).cursor_ok(),
            old(self).no_peeked(),
        ensures
            final(self).cursor_ok(),
            final(self).no_peeked(),
            final(self).input == old(self).input,
            final(self).index >= old(self).index,
            (unit_res_view(r), final(self).raw()) == sp_comment(old(self).raw()),
    {
        self.eat(47)?;
        self.eat(47)?;
        let b = match self.current_char() {
            Ok(b) => b,
            Err(e) => {
                return Err(e);
            },
        };
        if b == 47 {
            self.eat(47)?;
            self.eat(47)?;
            self.block_comment_rest()
        } else {
            self.advance_to_eol()
        }
    }

    /// Consume a maximal run of word bytes as a `Word` token. A run of
    /// zero length means a byte that no production accepts reached the
    /// scanner: that is an internal invariant violation, reported as a
    /// fatal `Msg` error.
    fn word(&mut self) -> (r: Result<Token, Error>)
        requires
            old(self).cursor_ok(),
            old(self).no_peeked(),
            old(self).raw().bytes.len() > 0,
        ensures
            final(self).cursor_ok(),
            final(self).no_peeked(),
            final(self).input == old(self).input,
            final(self).index >= old(self).index,
            (token_res_view(r), final(self).raw()) == {
                let s = old(self).raw();
                if !is_word_byte(s.bytes[0]) {
                    (
                        Err::<TokenView, ErrorView>(
                            ErrorView::Msg(word_bug_message(s.bytes[0])),
                        ),
                        s,
                    )
                } else {
                    let n = word_run_len(s.bytes);
                    (
                        Ok::<TokenView, ErrorView>(TokenView::Word(s.bytes.take(n as int))),
                        lv_jump(s, n),
                    )
                }
            },
    {
        let ghost orig = self.raw();
        let start = self.index;
        proof {
            assert(orig.bytes.skip(0) =~= orig.bytes);
            assert(orig.bytes.take(0) =~= Seq::<u8>::empty());
        }
        let mut bytes: Vec<u8> = Vec::new();
        loop
            invariant
                self.cursor_ok(),
                self.no_peeked(),
                self.input == old(self).input,
                start == old(self).index,
                start <= self.index,
                orig == old(self).raw(),
                bytes@ == orig.bytes.take(self.index - start),
                self.raw() == lv_jump(orig, (self.index - start) as nat),
                word_run_len(orig.bytes) == (self.index - start) + word_run_len(self.raw().bytes),
            ensures
                self.cursor_ok(),
                self.no_peeked(),
                self.input == old(self).input,
                start == old(self).index,
                start <= self.index,
                bytes@ == orig.bytes.take(self.index - start),
                self.raw() == lv_jump(orig, (self.index - start) as nat),
                word_run_len(orig.bytes) == self.index - start,
            decreases self.input@.len() - self.index,
        {
            if self.index >= self.input.len() {
                proof {
                    assert(self.raw().bytes.len() == 0);
                    assert(word_run_len(self.raw().bytes) == 0);
                }
                break ;
            }
            let b = self.input[self.index];
            proof {
                assert(self.raw().bytes[0] == self.input@[self.index as int]);
            }
            if !word_byte(b) {
                proof {
                    assert(word_run_len(self.raw().bytes) == 0);
                }
                break ;
            }
            bytes.push(b);
            let ghost before = self.raw();
            self.advance(b);
            proof {
                assert(before.bytes.drop_first() =~= orig.bytes.skip(self.index - start));
                assert(self.raw() == lv_jump(orig, (self.index - start) as nat));
                assert(bytes@ =~= orig.bytes.take(self.index - start));
            }
        }
        proof {
            assert(word_run_len(orig.bytes) == self.index - start);
        }
        if self.index == start {
            let b = self.input[self.index];
            proof {
                assert(b == orig.bytes[0]);
                assert(!is_word_byte(orig.bytes[0]));
            }
            let mut message = String::new();
            crate::strfmt::append_str(&mut message, "bug in the parser, next character `");
            crate::strfmt::append_char(&mut message, b as char);
            crate::strfmt::append_str(&mut message, "` is not part of a word token");
            proof {
                assert(message@ =~= word_bug_message(orig.bytes[0]));
            }
            Err(Error::Msg(message))
        } else {
            proof {
                assert(is_word_byte(orig.bytes[0]));
            }
            Ok(Token::Word(bytes))
        }
    }
}

/// Whether a byte may appear inside a `Word` token.
fn word_byte(b: u8) -> (r: bool)
    ensures
        r == is_word_byte(b),
{
    !(b == 32 || b == 42 || b == 95 || b == 96 || b == 35 || b == 91 || b == 93 || b == 94 || b
        == 126 || b == 10 || b == 13 || b == 9)
}

impl Lexer {
    /// Consume one marker byte and return its token.
    fn single(&mut self, b: u8, token: Token) -> (r: Result<Token, Error>)
        requires
            old(self).cursor_ok(),
            old(self).no_peeked(),
            old(self).raw().bytes.len() > 0,
            old(self).raw().bytes[0] == b,
        ensures
            final(self).cursor_ok(),
            final(self).no_peeked(),
            final(self).input == old(self).input,
            final(self).index > old(self).index,
            (token_res_view(r), final(self).raw()) == (
                Ok::<TokenView, ErrorView>(token@),
                lv_step(old(self).raw()),
            ),
    {
        self.eat(b)?;
        Ok(token)
    }

    /// Consume a marker byte, upgrading to the two-character token when
    /// the same byte follows immediately.
    fn single_or_double(&mut self, b: u8, single: Token, double: Token) -> (r: Result<
        Token,
        Error,
    >)
        requires
            old(self).cursor_ok(),
            old(self).no_peeked(),
            old(self).raw().bytes.len() > 0,
            old(self).raw().bytes[0] == b,
        ensures
            final(self).cursor_ok(),
            final(self).no_peeked(),
            final(self).input == old(self).input,
            final(self).index > old(self).index,
            (token_res_view(r), final(self).raw()) == sp_single_or_double(
                old(self).raw(),
                b,
                single@,
                double@,
            ),
    {
        self.eat(b)?;
        if self.index < self.input.len() {
            let second = self.input[self.index];
            proof {
                assert(self.raw().bytes[0] == self.input@[self.index as int]);
            }
            if second == b {
                self.advance(second);
                return Ok(double);
            }
        }
        Ok(single)
    }


    /// Parse a new line.
    fn newline(&mut self) -> (r: Result<Token, Error>)
        requires
            old(self).cursor_ok(),
            old(self).no_peeked(),
            old(self).raw().bytes.len() > 0,
            old(self).raw().bytes[0] == 10,
        ensures
            final(self).cursor_ok(),
            final(self).no_peeked(),
            final(self).input == old(self).input,
            final(self).index > old(self).index,
            (token_res_view(r), final(self).raw()) == (
                Ok::<TokenView, ErrorView>(TokenView::NewLine),
                lv_step(old(self).raw()),
            ),
    {
        self.single(10, Token::NewLine)
    }

    /// Parse a number sign.
    fn number_sign(&mut self) -> (r: Result<Token, Error>)
        requires
            old(self).cursor_ok(),
            old(self).no_peeked(),
            old(self).raw().bytes.len() > 0,
            old(self).raw().bytes[0] == 35,
        ensures
            final(self).cursor_ok(),
            final(self).no_peeked(),
            final(self).input == old(self).input,
            final(self).index > old(self).index,
            (token_res_view(r), final(self).raw()) == (
                Ok::<TokenView, ErrorView>(TokenView::NumberSign),
                lv_step(old(self).raw()),
            ),
    {
        self.single(35, Token::NumberSign)
    }

    /// Parse a space.
    fn space(&mut self) -> (r: Result<Token, Error>)
        requires
            old(self).cursor_ok(),
            old(self).no_peeked(),
            old(self).raw().bytes.len() > 0,
            old(self).raw().bytes[0] == 32,
        ensures
            final(self).cursor_ok(),
            final(self).no_peeked(),
            final(self).input == old(self).input,
            final(self).index > old(self).index,
            (token_res_view(r), final(self).raw()) == (
                Ok::<TokenView, ErrorView>(TokenView::Space),
                lv_step(old(self).raw()),
            ),
    {
        self.single(32, Token::Space)
    }

    /// Parse an opening square bracket.
    fn open_square_bracket(&mut self) -> (r: Result<Token, Error>)
        requires
            old(self).cursor_ok(),
            old(self).no_peeked(),
            old(self).raw().bytes.len() > 0,
            old(self).raw().bytes[0] == 91,
        ensures
            final(self).cursor_ok(),
            final(self).no_peeked(),
            final(self).input == old(self).input,
            final(self).index > old(self).index,
            (token_res_view(r), final(self).raw()) == (
                Ok::<TokenView, ErrorView>(TokenView::OpenSquareBracket),
                lv_step(old(self).raw()),
            ),
    {
        self.single(91, Token::OpenSquareBracket)
    }

    /// Parse a closing square bracket.
    fn close_square_bracket(&mut self) -> (r: Result<Token, Error>)
        requires
            old(self).cursor_ok(),
            old(self).no_peeked(),
            old(self).raw().bytes.len() > 0,
            old(self).raw().bytes[0] == 93,
        ensures
            final(self).cursor_ok(),
            final(self).no_peeked(),
            final(self).input == old(self).input,
            final(self).index > old(self).index,
            (token_res_view(r), final(self).raw()) == (
                Ok::<TokenView, ErrorView>(TokenView::CloseSquareBracket),
                lv_step(old(self).raw()),
            ),
    {
        self.single(93, Token::CloseSquareBracket)
    }

    /// Parse a caret.
    fn caret(&mut self) -> (r: Result<Token, Error>)
        requires
            old(self).cursor_ok(),
            old(self).no_peeked(),
            old(self).raw().bytes.len() > 0,
            old(self).raw().bytes[0] == 94,
        ensures
            final(self).cursor_ok(),
            final(self).no_peeked(),
            final(self).input == old(self).input,
            final(self).index > old(self).index,
            (token_res_view(r), final(self).raw()) == (
                Ok::<TokenView, ErrorView>(TokenView::Caret),
                lv_step(old(self).raw()),
            ),
    {
        self.single(94, Token::Caret)
    }

    /// Parse a tilde.
    fn tilde(&mut self) -> (r: Result<Token, Error>)
        requires
            old(self).cursor_ok(),
            old(self).no_peeked(),
            old(self).raw().bytes.len() > 0,
            old(self).raw().bytes[0] == 126,
        ensures
            final(self).cursor_ok(),
            final(self).no_peeked(),
            final(self).input == old(self).input,
            final(self).index > old(self).index,
            (token_res_view(r), final(self).raw()) == (
                Ok::<TokenView, ErrorView>(TokenView::Tilde),
                lv_step(old(self).raw()),
            ),
    {
        self.single(126, Token::Tilde)
    }

    /// Parse an underscore, doubled when another follows.
    fn underscore(&mut self) -> (r: Result<Token, Error>)
        requires
            old(self).cursor_ok(),
            old(self).no_peeked(),
            old(self).raw().bytes.len() > 0,
            old(self).raw().bytes[0] == 95,
        ensures
            final(self).cursor_ok(),
            final(self).no_peeked(),
            final(self).input == old(self).input,
            final(self).index > old(self).index,
            (token_res_view(r), final(self).raw()) == sp_single_or_double(
                old(self).raw(),
                95,
                TokenView::Underscore,
                TokenView::DoubleUnderscore,
            ),
    {
        self.single_or_double(95, Token::Underscore, Token::DoubleUnderscore)
    }

    /// Parse a star, doubled when another follows.
    fn star(&mut self) -> (r: Result<Token, Error>)
        requires
            old(self).cursor_ok(),
            old(self).no_peeked(),
            old(self).raw().bytes.len() > 0,
            old(self).raw().bytes[0] == 42,
        ensures
            final(self).cursor_ok(),
            final(self).no_peeked(),
            final(self).input == old(self).input,
            final(self).index > old(self).index,
            (token_res_view(r), final(self).raw()) == sp_single_or_double(
                old(self).raw(),
                42,
                TokenView::Star,
                TokenView::DoubleStar,
            ),
    {
        self.single_or_double(42, Token::Star, Token::DoubleStar)
    }

    /// Parse a backquote, doubled when another follows.
    fn backquote(&mut self) -> (r: Result<Token, Error>)
        requires
            old(self).cursor_ok(),
            old(self).no_peeked(),
            old(self).raw().bytes.len() > 0,
            old(self).raw().bytes[0] == 96,
        ensures
            final(self).cursor_ok(),
            final(self).no_peeked(),
            final(self).input == old(self).input,
            final(self).index > old(self).index,
            (token_res_view(r), final(self).raw()) == sp_single_or_double(
                old(self).raw(),
                96,
                TokenView::Backquote,
                TokenView::DoubleBackquote,
            ),
    {
        self.single_or_double(96, Token::Backquote, Token::DoubleBackquote)
    }
    /// Consume three identical marker bytes and return the given token.
    fn triple(&mut self, b: u8, token: Token) -> (r: Result<Token, Error>)
        requires
            old(self).cursor_ok(),
            old(self).no_peeked(),
        ensures
            final(self).cursor_ok(),
            final(self).no_peeked(),
            final(self).input == old(self).input,
            final(self).index >= old(self).index,
            (token_res_view(r), final(self).raw()) == sp_triple(old(self).raw(), b, token@),
    {
        self.eat(b)?;
        self.eat(b)?;
        self.eat(b)?;
        Ok(token)
    }

    /// Parse three `'`.
    fn triple_apos(&mut self) -> (r: Result<Token, Error>)
        requires
            old(self).cursor_ok(),
            old(self).no_peeked(),
        ensures
            final(self).cursor_ok(),
            final(self).no_peeked(),
            final(self).input == old(self).input,
            final(self).index >= old(self).index,
            (token_res_view(r), final(self).raw()) == sp_triple(
                old(self).raw(),
                39,
                TokenView::TripleApos,
            ),
    {
        self.triple(39, Token::TripleApos)
    }

    /// Parse three `<`.
    fn triple_lt(&mut self) -> (r: Result<Token, Error>)
        requires
            old(self).cursor_ok(),
            old(self).no_peeked(),
        ensures
            final(self).cursor_ok(),
            final(self).no_peeked(),
            final(self).input == old(self).input,
            final(self).index >= old(self).index,
            (token_res_view(r), final(self).raw()) == sp_triple(
                old(self).raw(),
                60,
                TokenView::TripleLt,
            ),
    {
        self.triple(60, Token::TripleLt)
    }

    /// Get the next token from the input, bypassing any peeked one.
    fn next_token_uncached(&mut self) -> (r: Result<Token, Error>)
        requires
            old(self).cursor_ok(),
            old(self).no_peeked(),
        ensures
            final(self).cursor_ok(),
            final(self).no_peeked(),
            final(self).input == old(self).input,
            (token_res_view(r), final(self).raw()) == sp_token(old(self).raw()),
    {
        let ghost orig = self.raw();
        loop
            invariant
                self.cursor_ok(),
                self.no_peeked(),
                self.input == old(self).input,
                old(self).index <= self.index,
                sp_token(self.raw()) == sp_token(old(self).raw()),
                orig == old(self).raw(),
            decreases self.input@.len() - self.index,
        {
            if self.index >= self.input.len() {
                proof {
                    assert(self.raw().bytes.len() == 0);
                }
                return Err(Error::Eof);
            }
            let b = self.input[self.index];
            proof {
                assert(self.raw().bytes[0] == self.input@[self.index as int]);
            }
            if b == 47 {
                let ghost before = self.raw();
                match self.comment() {
                    Ok(u) => u,
                    Err(e) => {
                        return Err(e);
                    },
                }
                proof {
                    lemma_comment_len(before);
                }
            } else if b == 60 {
                return self.triple_lt();
            } else if b == 39 {
                return self.triple_apos();
            } else if b == 10 {
                return self.newline();
            } else if b == 13 {
                self.advance(b);
            } else if b == 35 {
                return self.number_sign();
            } else if b == 32 {
                return self.space();
            } else if b == 91 {
                return self.open_square_bracket();
            } else if b == 93 {
                return self.close_square_bracket();
            } else if b == 95 {
                return self.underscore();
            } else if b == 42 {
                return self.star();
            } else if b == 96 {
                return self.backquote();
            } else if b == 94 {
                return self.caret();
            } else if b == 126 {
                return self.tilde();
            } else {
                return self.word();
            }
        }
    }

    /// Get the next token from the input.
    pub fn token(&mut self) -> (r: Result<Token, Error>)
        requires
            old(self).wf(),
        ensures
            final(self).wf(),
            (token_res_view(r), final(self)@) == sp_token(old(self)@),
    {
        let cached = self.next_token.take();
        match cached {
            Some(nt) => Ok(nt.token),
            None => self.next_token_uncached(),
        }
    }

    /// Peek to get the next token. This token will be returned by the
    /// next call to `token`, and the lexer's state is unchanged by the
    /// peek whenever it succeeds.
    pub fn peek(&mut self) -> (r: Result<&Token, Error>)
        requires
            old(self).wf(),
        ensures
            final(self).wf(),
            match r {
                Ok(t) => final(self)@ == old(self)@ && sp_token(old(self)@).0 == Ok::<
                    TokenView,
                    ErrorView,
                >(t@),
                Err(e) => final(self)@ == sp_token(old(self)@).1 && sp_token(old(self)@).0
                    == Err::<TokenView, ErrorView>(e@),
            },
    {
        if self.next_token.is_none() {
            let prev_index = self.index;
            let prev_line = self.line;
            let prev_column = self.column;
            match self.next_token_uncached() {
                Ok(token) => {
                    self.next_token = Some(
                        NextToken { token, prev_index, prev_line, prev_column },
                    );
                },
                Err(e) => {
                    return Err(e);
                },
            }
        }
        match &self.next_token {
            Some(nt) => Ok(&nt.token),
            None => {
                proof {
                    assert(false);
                }
                Err(Error::Eof)
            },
        }
    }

    /// Get the current position in the input, adjusted for any
    /// outstanding peeked token.
    pub fn pos(&self) -> (pos: Pos)
        requires
            self.wf(),
        ensures
            pos == lv_pos(self@),
    {
        match &self.next_token {
            Some(nt) => Pos::new(nt.prev_line, nt.prev_column),
            None => Pos::new(self.line, self.column),
        }
    }
}

} // verus!
