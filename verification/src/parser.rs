//! Recursive-descent parsing of the token stream into nodes.

use vstd::prelude::*;
use vstd::utf8::{decode_utf8, valid_utf8};

use crate::error::{Error, ErrorView};
use crate::lexer::{lv_pos, sp_token, unit_res_view, Lexer, LexView};
use crate::node::{
    attrs_view, item_view, items_view, lemma_items_view_concat, lemma_items_view_push,
    text_view, Attribute, AttributeView, Item, ItemView, Node, NodeView, Text, TextView,
};
use crate::token::{token_text, Token, TokenView};

verus! {

/// The outcome of a parsing production on a lexer state: a value and
/// the state that remains, a failure with the state it left behind, or
/// `Stop` when the recursion fuel ran out (which never happens for the
/// fuel the contracts use).
pub enum ParseStep<T> {
    Done(T, LexView),
    Fail(ErrorView, LexView),
    Stop,
}

/// What `String::from_utf8` reports for bytes that are not valid UTF-8:
/// the description depends on the bytes alone.
pub uninterp spec fn utf8_error_message(bytes: Seq<u8>) -> Seq<char>;

/// Relies on `String::from_utf8`: it succeeds exactly on valid UTF-8
/// and decodes it, and on failure the error's description is a function
/// of the bytes.
#[verifier::external_body]
fn bytes_to_string(bytes: Vec<u8>) -> (r: Result<String, String>)
    ensures
        r matches Ok(s) ==> valid_utf8(bytes@) && s@ == decode_utf8(bytes@),
        r matches Err(m) ==> !valid_utf8(bytes@) && m@ == utf8_error_message(bytes@),
{
    match String::from_utf8(bytes) {
        Ok(s) => Ok(s),
        Err(e) => Err(e.to_string()),
    }
}

/// Decoding the bytes of a word: valid UTF-8 becomes its characters,
/// anything else the `Msg` error that wraps the decoder's description.
pub open spec fn sp_decode_word(bytes: Seq<u8>) -> Result<Seq<char>, ErrorView> {
    if valid_utf8(bytes) {
        Ok(decode_utf8(bytes))
    } else {
        Err(ErrorView::Msg(utf8_error_message(bytes)))
    }
}

/// The `UnexpectedToken` error built after a mismatch: the reported
/// token is the one a fresh peek finds (the already-consumed token is
/// gone), and the position is the one before that peeked token.
pub open spec fn sp_unexpected_err(s: LexView, expected: Seq<char>) -> (ErrorView, LexView) {
    let (r, s1) = sp_token(s);
    match r {
        Ok(t) => (
            ErrorView::UnexpectedToken { actual: token_text(t), expected, pos: lv_pos(s) },
            s,
        ),
        Err(_) => (
            ErrorView::UnexpectedToken {
                actual: "(unknown token)"@,
                expected,
                pos: lv_pos(s1),
            },
            s1,
        ),
    }
}

/// Consuming one expected token: any other token is an
/// `UnexpectedToken` error described by [`sp_unexpected_err`].
pub open spec fn sp_parser_eat(s: LexView, expected: TokenView) -> (
    Result<(), ErrorView>,
    LexView,
) {
    let (r, s1) = sp_token(s);
    match r {
        Err(e) => (Err(e), s1),
        Ok(t) => if t == expected {
            (Ok(()), s1)
        } else {
            let (e, s2) = sp_unexpected_err(s1, token_text(expected));
            (Err(e), s2)
        },
    }
}

/// Parsing one attribute: a word is a role, `#` followed by a word an
/// identifier; anything else is an `UnexpectedToken` expecting `ident`.
pub open spec fn sp_attribute(s: LexView) -> (Result<AttributeView, ErrorView>, LexView) {
    let (r, s1) = sp_token(s);
    match r {
        Err(e) => (Err(e), s1),
        Ok(t) => match t {
            TokenView::NumberSign => {
                let (r2, s2) = sp_token(s1);
                match r2 {
                    Err(e) => (Err(e), s2),
                    Ok(t2) => match t2 {
                        TokenView::Word(w) => match sp_decode_word(w) {
                            Ok(name) => (Ok(AttributeView::Id(name)), s2),
                            Err(e) => (Err(e), s2),
                        },
                        _ => {
                            let (e, s3) = sp_unexpected_err(s2, "ident"@);
                            (Err(e), s3)
                        },
                    },
                }
            },
            TokenView::Word(w) => match sp_decode_word(w) {
                Ok(name) => (Ok(AttributeView::Role(name)), s1),
                Err(e) => (Err(e), s1),
            },
            _ => {
                let (e, s2) = sp_unexpected_err(s1, "ident"@);
                (Err(e), s2)
            },
        },
    }
}

/// Parsing an attribute list: nothing unless the next token is `[`,
/// else `[`, one attribute and `]`.
pub open spec fn sp_attributes(s: LexView) -> (Result<Seq<AttributeView>, ErrorView>, LexView) {
    let (r, s1) = sp_token(s);
    match r {
        Err(e) => (Err(e), s1),
        Ok(t) => if t != TokenView::OpenSquareBracket {
            (Ok(Seq::empty()), s)
        } else {
            let (r2, s2) = sp_attribute(s1);
            match r2 {
                Err(e) => (Err(e), s2),
                Ok(attr) => {
                    let (r3, s3) = sp_parser_eat(s2, TokenView::CloseSquareBracket);
                    match r3 {
                        Err(e) => (Err(e), s3),
                        Ok(u) => (Ok(seq![attr]), s3),
                    }
                },
            }
        },
    }
}

/// Parsing one word item: the bytes of the consumed `Word` token,
/// decoded.
pub open spec fn sp_word_item(s: LexView) -> ParseStep<ItemView> {
    let (r, s1) = sp_token(s);
    match r {
        Ok(TokenView::Word(w)) => match sp_decode_word(w) {
            Ok(chars) => ParseStep::Done(ItemView::Word(chars), s1),
            Err(e) => ParseStep::Fail(e, s1),
        },
        _ => ParseStep::Fail(ErrorView::Msg("Should have got word token"@), s1),
    }
}

/// The kinds of inline span an attribute list can precede.
pub enum SpanKind {
    Bold,
    InlineCode,
    Italic,
    Mark,
    SubScript,
    SuperScript,
}

/// The item built for a span of the given kind around a nested text.
pub open spec fn make_span_item(
    kind: SpanKind,
    items: Seq<ItemView>,
    attrs: Seq<AttributeView>,
) -> ItemView {
    let text = TextView { items };
    match kind {
        SpanKind::Bold => ItemView::Bold(text, attrs),
        SpanKind::InlineCode => ItemView::InlineCode(text, attrs),
        SpanKind::Italic => ItemView::Italic(text, attrs),
        SpanKind::Mark => ItemView::Mark(text, attrs),
        SpanKind::SubScript => ItemView::SubScript(text, attrs),
        SpanKind::SuperScript => ItemView::SuperScript(text, attrs),
    }
}

/// Wrapping the text of a span into its item.
pub open spec fn span_step(
    kind: SpanKind,
    attrs: Seq<AttributeView>,
    step: ParseStep<Seq<ItemView>>,
) -> ParseStep<ItemView> {
    match step {
        ParseStep::Done(items, s) => ParseStep::Done(make_span_item(kind, items, attrs), s),
        ParseStep::Fail(e, s) => ParseStep::Fail(e, s),
        ParseStep::Stop => ParseStep::Stop,
    }
}

/// Prepending one parsed item to the items a later state produces.
pub open spec fn ps_prepend_item(item: ItemView, step: ParseStep<Seq<ItemView>>) -> ParseStep<
    Seq<ItemView>,
> {
    match step {
        ParseStep::Done(rest, s) => ParseStep::Done(seq![item] + rest, s),
        ParseStep::Fail(e, s) => ParseStep::Fail(e, s),
        ParseStep::Stop => ParseStep::Stop,
    }
}

/// Prepending the items of one parsed line to those of later lines.
pub open spec fn ps_prepend_items(
    items: Seq<ItemView>,
    step: ParseStep<Seq<ItemView>>,
) -> ParseStep<Seq<ItemView>> {
    match step {
        ParseStep::Done(rest, s) => ParseStep::Done(items + rest, s),
        ParseStep::Fail(e, s) => ParseStep::Fail(e, s),
        ParseStep::Stop => ParseStep::Stop,
    }
}

/// The text between two occurrences of a delimiter token: the opening
/// delimiter, the restricted text, and the closing delimiter. An
/// exhausted input before the closing delimiter surfaces as `Eof` from
/// the final eat.
pub open spec fn sp_span_text(s: LexView, delim: TokenView, fuel: nat) -> ParseStep<
    Seq<ItemView>,
>
    decreases fuel,
{
    if fuel == 0 {
        ParseStep::Stop
    } else {
        let (r1, s1) = sp_parser_eat(s, delim);
        match r1 {
            Err(e) => ParseStep::Fail(e, s1),
            Ok(u) => match sp_text_while(s1, delim, (fuel - 1) as nat) {
                ParseStep::Done(items, s2) => {
                    let (r3, s3) = sp_parser_eat(s2, delim);
                    match r3 {
                        Err(e) => ParseStep::Fail(e, s3),
                        Ok(u3) => ParseStep::Done(items, s3),
                    }
                },
                ParseStep::Fail(e, s2) => ParseStep::Fail(e, s2),
                ParseStep::Stop => ParseStep::Stop,
            },
        }
    }
}

/// Parsing one text item, with the attributes already pending for it.
///
/// An attribute list while another is pending is an error; a fresh
/// attribute list applies to exactly the next item; otherwise the
/// peeked token picks the production.
pub open spec fn sp_text_item(s: LexView, attrs: Seq<AttributeView>, fuel: nat) -> ParseStep<
    ItemView,
>
    decreases fuel,
{
    if fuel == 0 {
        ParseStep::Stop
    } else {
        let (pr, ps) = sp_token(s);
        match pr {
            Err(e) => ParseStep::Fail(e, ps),
            Ok(t) => if t == TokenView::OpenSquareBracket && attrs.len() > 0 {
                let (e, s2) = sp_unexpected_err(s, "["@);
                ParseStep::Fail(e, s2)
            } else if t == TokenView::OpenSquareBracket {
                let (ar, s1) = sp_attributes(s);
                match ar {
                    Err(e) => ParseStep::Fail(e, s1),
                    Ok(new_attrs) => sp_text_item(s1, new_attrs, (fuel - 1) as nat),
                }
            } else {
                match t {
                    TokenView::Backquote => span_step(
                        SpanKind::InlineCode,
                        attrs,
                        sp_span_text(s, TokenView::Backquote, (fuel - 1) as nat),
                    ),
                    TokenView::Caret => span_step(
                        SpanKind::SuperScript,
                        attrs,
                        sp_span_text(s, TokenView::Caret, (fuel - 1) as nat),
                    ),
                    TokenView::DoubleBackquote => span_step(
                        SpanKind::InlineCode,
                        attrs,
                        sp_span_text(s, TokenView::DoubleBackquote, (fuel - 1) as nat),
                    ),
                    TokenView::DoubleStar => span_step(
                        SpanKind::Bold,
                        attrs,
                        sp_span_text(s, TokenView::DoubleStar, (fuel - 1) as nat),
                    ),
                    TokenView::DoubleUnderscore => span_step(
                        SpanKind::Italic,
                        attrs,
                        sp_span_text(s, TokenView::DoubleUnderscore, (fuel - 1) as nat),
                    ),
                    TokenView::NumberSign => span_step(
                        SpanKind::Mark,
                        attrs,
                        sp_span_text(s, TokenView::NumberSign, (fuel - 1) as nat),
                    ),
                    TokenView::Space => {
                        let (r, s1) = sp_parser_eat(s, TokenView::Space);
                        match r {
                            Err(e) => ParseStep::Fail(e, s1),
                            Ok(u) => ParseStep::Done(ItemView::Space, s1),
                        }
                    },
                    TokenView::Star => span_step(
                        SpanKind::Bold,
                        attrs,
                        sp_span_text(s, TokenView::Star, (fuel - 1) as nat),
                    ),
                    TokenView::Tilde => span_step(
                        SpanKind::SubScript,
                        attrs,
                        sp_span_text(s, TokenView::Tilde, (fuel - 1) as nat),
                    ),
                    TokenView::Underscore => span_step(
                        SpanKind::Italic,
                        attrs,
                        sp_span_text(s, TokenView::Underscore, (fuel - 1) as nat),
                    ),
                    TokenView::Word(w) => sp_word_item(s),
                    _ => ParseStep::Fail(
                        ErrorView::Msg("Should have got text token, but got "@ + token_text(t)),
                        s,
                    ),
                }
            },
        }
    }
}

/// Parsing text items while the peeked token differs from `stop`:
/// newlines inside are consumed transparently, the `stop` token ends
/// the text unconsumed, and so does an `Eof` during the peek.
pub open spec fn sp_text_while(s: LexView, stop: TokenView, fuel: nat) -> ParseStep<
    Seq<ItemView>,
>
    decreases fuel,
{
    if fuel == 0 {
        ParseStep::Stop
    } else {
        let (pr, ps) = sp_token(s);
        match pr {
            Err(e) => if e == ErrorView::Eof {
                ParseStep::Done(Seq::empty(), ps)
            } else {
                ParseStep::Fail(e, ps)
            },
            Ok(t) => if t == stop {
                ParseStep::Done(Seq::empty(), s)
            } else if t == TokenView::NewLine {
                sp_text_while(ps, stop, (fuel - 1) as nat)
            } else {
                match sp_text_item(s, Seq::empty(), (fuel - 1) as nat) {
                    ParseStep::Done(item, s2) => ps_prepend_item(
                        item,
                        sp_text_while(s2, stop, (fuel - 1) as nat),
                    ),
                    ParseStep::Fail(e, s2) => ParseStep::Fail(e, s2),
                    ParseStep::Stop => ParseStep::Stop,
                }
            },
        }
    }
}

/// Parsing the lines of a paragraph: lines of items accumulate until
/// the first line with no items, which ends the paragraph.
pub open spec fn sp_paragraph_items(s: LexView, fuel: nat) -> ParseStep<Seq<ItemView>>
    decreases fuel,
{
    if fuel == 0 {
        ParseStep::Stop
    } else {
        match sp_text_while(s, TokenView::NewLine, (fuel - 1) as nat) {
            ParseStep::Done(items, s1) => if items.len() == 0 {
                ParseStep::Done(Seq::empty(), s1)
            } else {
                ps_prepend_items(items, sp_paragraph_items(s1, (fuel - 1) as nat))
            },
            ParseStep::Fail(e, s1) => ParseStep::Fail(e, s1),
            ParseStep::Stop => ParseStep::Stop,
        }
    }
}

/// Parsing the next node: `'''` is a horizontal rule, `<<<` a page
/// break, newlines and spaces at node scope are skipped transparently,
/// and every other token starts a paragraph. An exhausted input
/// surfaces as `Eof`.
pub open spec fn sp_node(s: LexView, fuel: nat) -> ParseStep<NodeView>
    decreases fuel,
{
    if fuel == 0 {
        ParseStep::Stop
    } else {
        let (pr, ps) = sp_token(s);
        match pr {
            Err(e) => ParseStep::Fail(e, ps),
            Ok(t) => if t == TokenView::TripleApos {
                ParseStep::Done(NodeView::HorizontalRule, ps)
            } else if t == TokenView::TripleLt {
                ParseStep::Done(NodeView::PageBreak, ps)
            } else if t == TokenView::NewLine || t == TokenView::Space {
                sp_node(ps, (fuel - 1) as nat)
            } else {
                match sp_paragraph_items(s, (fuel - 1) as nat) {
                    ParseStep::Done(items, s1) => ParseStep::Done(
                        NodeView::Paragraph(TextView { items }),
                        s1,
                    ),
                    ParseStep::Fail(e, s1) => ParseStep::Fail(e, s1),
                    ParseStep::Stop => ParseStep::Stop,
                }
            },
        }
    }
}

/// Fuel that always suffices for `sp_node` on a given state: parsing
/// consumes input, so the recursion depth is bounded by the remaining
/// bytes.
pub open spec fn node_fuel(s: LexView) -> nat {
    6 * s.bytes.len() + 5
}

/// The step a node result and a final state stand for.
pub open spec fn step_of_node(r: Result<Node, Error>, s: LexView) -> ParseStep<NodeView> {
    match r {
        Ok(node) => ParseStep::Done(node@, s),
        Err(e) => ParseStep::Fail(e@, s),
    }
}

/// The step an item result and a final state stand for.
pub open spec fn step_of_item(r: Result<Item, Error>, s: LexView) -> ParseStep<ItemView> {
    match r {
        Ok(item) => ParseStep::Done(item@, s),
        Err(e) => ParseStep::Fail(e@, s),
    }
}

/// The step a text result and a final state stand for.
pub open spec fn step_of_text(r: Result<Text, Error>, s: LexView) -> ParseStep<Seq<ItemView>> {
    match r {
        Ok(text) => ParseStep::Done(text@.items, s),
        Err(e) => ParseStep::Fail(e@, s),
    }
}

/// The view of an attribute-list result.
pub open spec fn attrs_res_view(r: Result<Vec<Attribute>, Error>) -> Result<
    Seq<AttributeView>,
    ErrorView,
> {
    match r {
        Ok(attrs) => Ok(attrs_view(attrs@)),
        Err(e) => Err(e@),
    }
}

/// The view of a single-attribute result.
pub open spec fn attr_res_view(r: Result<Attribute, Error>) -> Result<AttributeView, ErrorView> {
    match r {
        Ok(attr) => Ok(attr@),
        Err(e) => Err(e@),
    }
}

/// The node step built from the items of a paragraph.
pub open spec fn node_of_items_step(step: ParseStep<Seq<ItemView>>) -> ParseStep<NodeView> {
    match step {
        ParseStep::Done(items, s) => ParseStep::Done(NodeView::Paragraph(TextView { items }), s),
        ParseStep::Fail(e, s) => ParseStep::Fail(e, s),
        ParseStep::Stop => ParseStep::Stop,
    }
}

/// The recursive-descent parser: it owns the lexer whose tokens it
/// consumes with one token of lookahead.
pub struct Parser {
    tokens: Lexer,
}

impl View for Parser {
    type V = LexView;

    /// The parser's abstract state is its lexer's.
    closed spec fn view(&self) -> LexView {
        self.tokens@
    }
}

impl Parser {
    /// Well-formedness: the owned lexer is well-formed.
    pub closed spec fn wf(&self) -> bool {
        self.tokens.wf()
    }

    /// Create a new parser over a lexer. The resulting nodes can be
    /// fetched by calling `node` repeatedly.
    pub fn new(tokens: Lexer) -> (parser: Parser)
        requires
            tokens.wf(),
        ensures
            parser.wf(),
            parser@ == tokens@,
    {
        Parser { tokens }
    }

    /// Eat the expected token or return an error if a different token
    /// is found.
    fn eat(&mut self, expected: &Token) -> (r: Result<(), Error>)
        requires
            old(self).wf(),
        ensures
            final(self).wf(),
            (unit_res_view(r), final(self)@) == sp_parser_eat(old(self)@, expected@),
            final(self)@.bytes.len() <= old(self)@.bytes.len(),
            r is Ok ==> final(self)@.bytes.len() < old(self)@.bytes.len(),
    {
        proof {
            crate::lexer::lemma_token_len(old(self)@);
        }
        let token = match self.tokens.token() {
            Ok(t) => t,
            Err(e) => {
                return Err(e);
            },
        };
        if token != *expected {
            let description = expected.to_string();
            return Err(self.unexpected_token(description.as_str()));
        }
        Ok(())
    }

    /// Build an `UnexpectedToken` error: the reported token is the one
    /// a fresh peek finds, at the position before it.
    fn unexpected_token(&mut self, expected: &str) -> (e: Error)
        requires
            old(self).wf(),
        ensures
            final(self).wf(),
            (e@, final(self)@) == sp_unexpected_err(old(self)@, expected@),
            final(self)@.bytes.len() <= old(self)@.bytes.len(),
    {
        proof {
            crate::lexer::lemma_token_len(old(self)@);
        }
        let actual = match self.tokens.peek() {
            Ok(token) => token.to_string(),
            Err(_) => "(unknown token)".to_owned(),
        };
        let pos = self.tokens.pos();
        Error::UnexpectedToken { actual, expected: expected.to_owned(), pos }
    }

    /// Parse an attribute: a word is a role, `#` then a word an
    /// identifier.
    fn attribute(&mut self) -> (r: Result<Attribute, Error>)
        requires
            old(self).wf(),
        ensures
            final(self).wf(),
            (attr_res_view(r), final(self)@) == sp_attribute(old(self)@),
            final(self)@.bytes.len() <= old(self)@.bytes.len(),
    {
        proof {
            crate::lexer::lemma_token_len(old(self)@);
        }
        let token = match self.tokens.token() {
            Ok(t) => t,
            Err(e) => {
                return Err(e);
            },
        };
        match token {
            Token::NumberSign => {
                let ghost mid = self@;
                proof {
                    crate::lexer::lemma_token_len(mid);
                }
                let second = match self.tokens.token() {
                    Ok(t) => t,
                    Err(e) => {
                        return Err(e);
                    },
                };
                if let Token::Word(word) = second {
                    match bytes_to_string(word) {
                        Ok(name) => Ok(Attribute::Id(name)),
                        Err(message) => Err(Error::Msg(message)),
                    }
                } else {
                    Err(self.unexpected_token("ident"))
                }
            },
            Token::Word(word) => match bytes_to_string(word) {
                Ok(name) => Ok(Attribute::Role(name)),
                Err(message) => Err(Error::Msg(message)),
            },
            _ => Err(self.unexpected_token("ident")),
        }
    }

    /// Parse an attribute list, which must precede exactly the next
    /// inline span: nothing unless the next token is `[`.
    fn attributes(&mut self) -> (r: Result<Vec<Attribute>, Error>)
        requires
            old(self).wf(),
        ensures
            final(self).wf(),
            (attrs_res_view(r), final(self)@) == sp_attributes(old(self)@),
            final(self)@.bytes.len() <= old(self)@.bytes.len(),
            r is Ok && sp_token(old(self)@).0 == Ok::<TokenView, ErrorView>(
                TokenView::OpenSquareBracket,
            ) ==> final(self)@.bytes.len() < old(self)@.bytes.len(),
    {
        proof {
            crate::lexer::lemma_token_len(old(self)@);
        }
        let mut attributes: Vec<Attribute> = Vec::new();
        let is_open = match self.tokens.peek() {
            Ok(Token::OpenSquareBracket) => true,
            Ok(_) => false,
            Err(e) => {
                return Err(e);
            },
        };
        if is_open {
            self.eat(&Token::OpenSquareBracket)?;
            let attr = self.attribute()?;
            attributes.push(attr);
            self.eat(&Token::CloseSquareBracket)?;
            proof {
                assert(attrs_view(attributes@) =~= seq![attributes@[0]@]);
            }
        } else {
            proof {
                assert(attrs_view(attributes@) =~= Seq::<AttributeView>::empty());
            }
        }
        Ok(attributes)
    }

    /// Parse a single word.
    fn word(&mut self, _attributes: Vec<Attribute>) -> (r: Result<Item, Error>)
        requires
            old(self).wf(),
        ensures
            final(self).wf(),
            step_of_item(r, final(self)@) == sp_word_item(old(self)@),
            final(self)@.bytes.len() <= old(self)@.bytes.len(),
            r is Ok ==> final(self)@.bytes.len() < old(self)@.bytes.len(),
    {
        proof {
            crate::lexer::lemma_token_len(old(self)@);
        }
        match self.tokens.token() {
            Ok(Token::Word(bytes)) => match bytes_to_string(bytes) {
                Ok(word) => Ok(Item::Word(word)),
                Err(message) => Err(Error::Msg(message)),
            },
            _ => {
                let message = "Should have got word token".to_owned();
                Err(Error::Msg(message))
            },
        }
    }

    /// Parse a space.
    fn space(&mut self, _attributes: Vec<Attribute>) -> (r: Result<Item, Error>)
        requires
            old(self).wf(),
        ensures
            final(self).wf(),
            step_of_item(r, final(self)@) == (match sp_parser_eat(old(self)@, TokenView::Space) {
                (Ok(u), s1) => ParseStep::Done(ItemView::Space, s1),
                (Err(e), s1) => ParseStep::Fail(e, s1),
            }),
            final(self)@.bytes.len() <= old(self)@.bytes.len(),
            r is Ok ==> final(self)@.bytes.len() < old(self)@.bytes.len(),
    {
        self.eat(&Token::Space)?;
        Ok(Item::Space)
    }

    /// Parse the text between two occurrences of a delimiter token.
    fn text_between(&mut self, delim: &Token, Ghost(fuel): Ghost<nat>) -> (r: Result<Text, Error>)
        requires
            old(self).wf(),
            fuel >= 6 * old(self)@.bytes.len() + 1,
        ensures
            final(self).wf(),
            step_of_text(r, final(self)@) == sp_span_text(old(self)@, delim@, fuel),
            final(self)@.bytes.len() <= old(self)@.bytes.len(),
            r is Ok ==> final(self)@.bytes.len() < old(self)@.bytes.len(),
        decreases fuel, 0int,
    {
        self.eat(delim)?;
        let text = self.text_while(delim, Ghost((fuel - 1) as nat))?;
        self.eat(delim)?;
        Ok(text)
    }

    /// Parse a bold span between `*` markers.
    fn bold(&mut self, attributes: Vec<Attribute>, Ghost(fuel): Ghost<nat>) -> (r: Result<
        Item,
        Error,
    >)
        requires
            old(self).wf(),
            fuel >= 6 * old(self)@.bytes.len() + 1,
        ensures
            final(self).wf(),
            step_of_item(r, final(self)@) == span_step(
                SpanKind::Bold,
                attrs_view(attributes@),
                sp_span_text(old(self)@, TokenView::Star, fuel),
            ),
            final(self)@.bytes.len() <= old(self)@.bytes.len(),
            r is Ok ==> final(self)@.bytes.len() < old(self)@.bytes.len(),
        decreases fuel, 1int,
    {
        let text = self.text_between(&Token::Star, Ghost(fuel))?;
        Ok(Item::Bold(text, attributes))
    }

    /// Parse an inline-code span between backquote markers.
    fn inline_code(&mut self, attributes: Vec<Attribute>, Ghost(fuel): Ghost<nat>) -> (r: Result<
        Item,
        Error,
    >)
        requires
            old(self).wf(),
            fuel >= 6 * old(self)@.bytes.len() + 1,
        ensures
            final(self).wf(),
            step_of_item(r, final(self)@) == span_step(
                SpanKind::InlineCode,
                attrs_view(attributes@),
                sp_span_text(old(self)@, TokenView::Backquote, fuel),
            ),
            final(self)@.bytes.len() <= old(self)@.bytes.len(),
            r is Ok ==> final(self)@.bytes.len() < old(self)@.bytes.len(),
        decreases fuel, 1int,
    {
        let text = self.text_between(&Token::Backquote, Ghost(fuel))?;
        Ok(Item::InlineCode(text, attributes))
    }

    /// Parse an italic span between `_` markers.
    fn italic(&mut self, attributes: Vec<Attribute>, Ghost(fuel): Ghost<nat>) -> (r: Result<
        Item,
        Error,
    >)
        requires
            old(self).wf(),
            fuel >= 6 * old(self)@.bytes.len() + 1,
        ensures
            final(self).wf(),
            step_of_item(r, final(self)@) == span_step(
                SpanKind::Italic,
                attrs_view(attributes@),
                sp_span_text(old(self)@, TokenView::Underscore, fuel),
            ),
            final(self)@.bytes.len() <= old(self)@.bytes.len(),
            r is Ok ==> final(self)@.bytes.len() < old(self)@.bytes.len(),
        decreases fuel, 1int,
    {
        let text = self.text_between(&Token::Underscore, Ghost(fuel))?;
        Ok(Item::Italic(text, attributes))
    }

    /// Parse a subscript span between `~` markers.
    fn subscript(&mut self, attributes: Vec<Attribute>, Ghost(fuel): Ghost<nat>) -> (r: Result<
        Item,
        Error,
    >)
        requires
            old(self).wf(),
            fuel >= 6 * old(self)@.bytes.len() + 1,
        ensures
            final(self).wf(),
            step_of_item(r, final(self)@) == span_step(
                SpanKind::SubScript,
                attrs_view(attributes@),
                sp_span_text(old(self)@, TokenView::Tilde, fuel),
            ),
            final(self)@.bytes.len() <= old(self)@.bytes.len(),
            r is Ok ==> final(self)@.bytes.len() < old(self)@.bytes.len(),
        decreases fuel, 1int,
    {
        let text = self.text_between(&Token::Tilde, Ghost(fuel))?;
        Ok(Item::SubScript(text, attributes))
    }

    /// Parse a superscript span between `^` markers.
    fn superscript(&mut self, attributes: Vec<Attribute>, Ghost(fuel): Ghost<nat>) -> (r: Result<
        Item,
        Error,
    >)
        requires
            old(self).wf(),
            fuel >= 6 * old(self)@.bytes.len() + 1,
        ensures
            final(self).wf(),
            step_of_item(r, final(self)@) == span_step(
                SpanKind::SuperScript,
                attrs_view(attributes@),
                sp_span_text(old(self)@, TokenView::Caret, fuel),
            ),
            final(self)@.bytes.len() <= old(self)@.bytes.len(),
            r is Ok ==> final(self)@.bytes.len() < old(self)@.bytes.len(),
        decreases fuel, 1int,
    {
        let text = self.text_between(&Token::Caret, Ghost(fuel))?;
        Ok(Item::SuperScript(text, attributes))
    }

    /// Parse an unconstrained bold span between `**` markers.
    fn unconstrained_bold(&mut self, attributes: Vec<Attribute>, Ghost(fuel): Ghost<nat>) -> (r:
        Result<Item, Error>)
        requires
            old(self).wf(),
            fuel >= 6 * old(self)@.bytes.len() + 1,
        ensures
            final(self).wf(),
            step_of_item(r, final(self)@) == span_step(
                SpanKind::Bold,
                attrs_view(attributes@),
                sp_span_text(old(self)@, TokenView::DoubleStar, fuel),
            ),
            final(self)@.bytes.len() <= old(self)@.bytes.len(),
            r is Ok ==> final(self)@.bytes.len() < old(self)@.bytes.len(),
        decreases fuel, 1int,
    {
        let text = self.text_between(&Token::DoubleStar, Ghost(fuel))?;
        Ok(Item::Bold(text, attributes))
    }

    /// Parse an unconstrained inline-code span between double
    /// backquotes.
    fn unconstrained_inline_code(
        &mut self,
        attributes: Vec<Attribute>,
        Ghost(fuel): Ghost<nat>,
    ) -> (r: Result<Item, Error>)
        requires
            old(self).wf(),
            fuel >= 6 * old(self)@.bytes.len() + 1,
        ensures
            final(self).wf(),
            step_of_item(r, final(self)@) == span_step(
                SpanKind::InlineCode,
                attrs_view(attributes@),
                sp_span_text(old(self)@, TokenView::DoubleBackquote, fuel),
            ),
            final(self)@.bytes.len() <= old(self)@.bytes.len(),
            r is Ok ==> final(self)@.bytes.len() < old(self)@.bytes.len(),
        decreases fuel, 1int,
    {
        let text = self.text_between(&Token::DoubleBackquote, Ghost(fuel))?;
        Ok(Item::InlineCode(text, attributes))
    }

    /// Parse an unconstrained italic span between `__` markers.
    fn unconstrained_italic(&mut self, attributes: Vec<Attribute>, Ghost(fuel): Ghost<nat>) -> (r:
        Result<Item, Error>)
        requires
            old(self).wf(),
            fuel >= 6 * old(self)@.bytes.len() + 1,
        ensures
            final(self).wf(),
            step_of_item(r, final(self)@) == span_step(
                SpanKind::Italic,
                attrs_view(attributes@),
                sp_span_text(old(self)@, TokenView::DoubleUnderscore, fuel),
            ),
            final(self)@.bytes.len() <= old(self)@.bytes.len(),
            r is Ok ==> final(self)@.bytes.len() < old(self)@.bytes.len(),
        decreases fuel, 1int,
    {
        let text = self.text_between(&Token::DoubleUnderscore, Ghost(fuel))?;
        Ok(Item::Italic(text, attributes))
    }

    /// Parse a mark span between `#` markers.
    fn mark(&mut self, attributes: Vec<Attribute>, Ghost(fuel): Ghost<nat>) -> (r: Result<
        Item,
        Error,
    >)
        requires
            old(self).wf(),
            fuel >= 6 * old(self)@.bytes.len() + 1,
        ensures
            final(self).wf(),
            step_of_item(r, final(self)@) == span_step(
                SpanKind::Mark,
                attrs_view(attributes@),
                sp_span_text(old(self)@, TokenView::NumberSign, fuel),
            ),
            final(self)@.bytes.len() <= old(self)@.bytes.len(),
            r is Ok ==> final(self)@.bytes.len() < old(self)@.bytes.len(),
        decreases fuel, 1int,
    {
        let text = self.text_between(&Token::NumberSign, Ghost(fuel))?;
        Ok(Item::Mark(text, attributes))
    }

    /// Parse a text item: an attribute list applies to exactly the
    /// next item, and the peeked token picks the production.
    fn text_item(&mut self, attributes: Vec<Attribute>, Ghost(fuel): Ghost<nat>) -> (r: Result<
        Item,
        Error,
    >)
        requires
            old(self).wf(),
            fuel >= 6 * old(self)@.bytes.len() + 2,
        ensures
            final(self).wf(),
            step_of_item(r, final(self)@) == sp_text_item(
                old(self)@,
                attrs_view(attributes@),
                fuel,
            ),
            final(self)@.bytes.len() <= old(self)@.bytes.len(),
            r is Ok ==> final(self)@.bytes.len() < old(self)@.bytes.len(),
        decreases fuel, 3int,
    {
        proof {
            crate::lexer::lemma_token_len(old(self)@);
        }
        let kind: u8 = match self.tokens.peek() {
            Err(e) => {
                return Err(e);
            },
            Ok(token) => match token {
                Token::OpenSquareBracket => 0,
                Token::Backquote => 1,
                Token::Caret => 2,
                Token::DoubleBackquote => 3,
                Token::DoubleStar => 4,
                Token::DoubleUnderscore => 5,
                Token::NumberSign => 6,
                Token::Space => 7,
                Token::Star => 8,
                Token::Tilde => 9,
                Token::Underscore => 10,
                Token::Word(_) => 11,
                _ => 12,
            },
        };
        if kind == 0 {
            if attributes.len() > 0 {
                return Err(self.unexpected_token("["));
            }
            let new_attributes = self.attributes()?;
            return self.text_item(new_attributes, Ghost((fuel - 1) as nat));
        }
        match kind {
            1 => self.inline_code(attributes, Ghost((fuel - 1) as nat)),
            2 => self.superscript(attributes, Ghost((fuel - 1) as nat)),
            3 => self.unconstrained_inline_code(attributes, Ghost((fuel - 1) as nat)),
            4 => self.unconstrained_bold(attributes, Ghost((fuel - 1) as nat)),
            5 => self.unconstrained_italic(attributes, Ghost((fuel - 1) as nat)),
            6 => self.mark(attributes, Ghost((fuel - 1) as nat)),
            7 => self.space(attributes),
            8 => self.bold(attributes, Ghost((fuel - 1) as nat)),
            9 => self.subscript(attributes, Ghost((fuel - 1) as nat)),
            10 => self.italic(attributes, Ghost((fuel - 1) as nat)),
            11 => self.word(attributes),
            _ => {
                let rendering = match self.tokens.peek() {
                    Ok(token) => token.to_string(),
                    Err(e) => {
                        proof {
                            assert(false);
                        }
                        return Err(e);
                    },
                };
                let mut message = String::new();
                crate::strfmt::append_str(&mut message, "Should have got text token, but got ");
                crate::strfmt::append_str(&mut message, rendering.as_str());
                proof {
                    assert(message@ =~= "Should have got text token, but got "@ + rendering@);
                }
                Err(Error::Msg(message))
            },
        }
    }

    /// Parse text items while the peeked token differs from `stop`:
    /// the stop token ends the text unconsumed, and so does running out
    /// of input.
    fn text_while(&mut self, stop: &Token, Ghost(fuel): Ghost<nat>) -> (r: Result<Text, Error>)
        requires
            old(self).wf(),
            fuel >= 6 * old(self)@.bytes.len() + 3,
        ensures
            final(self).wf(),
            step_of_text(r, final(self)@) == sp_text_while(old(self)@, stop@, fuel),
            final(self)@.bytes.len() <= old(self)@.bytes.len(),
            r matches Ok(text) && text@.items.len() > 0 ==> final(self)@.bytes.len() < old(
                self,
            )@.bytes.len(),
        decreases fuel, 2int,
    {
        let mut items: Vec<Item> = Vec::new();
        let ghost orig = self@;
        let ghost mut f_cur: nat = fuel;
        proof {
            assert(items_view(items@) =~= Seq::<ItemView>::empty());
            match sp_text_while(orig, stop@, fuel) {
                ParseStep::Done(rest, s) => {
                    assert(Seq::<ItemView>::empty() + rest =~= rest);
                },
                _ => {},
            }
        }
        loop
            invariant
                self.wf(),
                orig == old(self)@,
                f_cur >= 6 * self@.bytes.len() + 3,
                f_cur <= fuel,
                self@.bytes.len() <= orig.bytes.len(),
                items@.len() > 0 ==> self@.bytes.len() < orig.bytes.len(),
                sp_text_while(orig, stop@, fuel) == ps_prepend_items(
                    items_view(items@),
                    sp_text_while(self@, stop@, f_cur),
                ),
                items_view(items@).len() == items@.len(),
            decreases self@.bytes.len(),
        {
            proof {
                crate::lexer::lemma_token_len(self@);
            }
            let ghost cur = self@;
            let kind: u8 = match self.tokens.peek() {
                Err(e) => {
                    if matches!(e, Error::Eof) {
                        proof {
                            assert(items_view(items@) + Seq::<ItemView>::empty() =~= items_view(
                                items@,
                            ));
                        }
                        return Ok(Text::new(items));
                    } else {
                        return Err(e);
                    }
                },
                Ok(token) => {
                    if *token == *stop {
                        0
                    } else if *token == Token::NewLine {
                        1
                    } else {
                        2
                    }
                },
            };
            if kind == 0 {
                proof {
                    assert(items_view(items@) + Seq::<ItemView>::empty() =~= items_view(items@));
                }
                return Ok(Text::new(items));
            }
            if kind == 1 {
                match self.eat(&Token::NewLine) {
                    Ok(u) => u,
                    Err(e) => {
                        proof {
                            assert(false);
                        }
                        return Err(e);
                    },
                }
                proof {
                    f_cur = (f_cur - 1) as nat;
                }
                continue ;
            }
            let empty_attributes: Vec<Attribute> = Vec::new();
            proof {
                assert(attrs_view(empty_attributes@) =~= Seq::<AttributeView>::empty());
            }
            let item = match self.text_item(empty_attributes, Ghost((f_cur - 1) as nat)) {
                Ok(item) => item,
                Err(e) => {
                    return Err(e);
                },
            };
            let ghost item_ghost = item;
            let ghost old_items = items@;
            items.push(item);
            proof {
                lemma_items_view_push(old_items, item_ghost);
                crate::node::lemma_items_view_len(items@);
                assert(items@ == old_items.push(item_ghost));
                f_cur = (f_cur - 1) as nat;
                match sp_text_while(self@, stop@, f_cur) {
                    ParseStep::Done(rest, s3) => {
                        assert(items_view(old_items) + (seq![item_view(item_ghost)] + rest)
                            =~= items_view(items@) + rest);
                    },
                    _ => {},
                }
            }
        }
    }

    /// Parse a paragraph: lines of items accumulate until the first
    /// line with no items, which ends the paragraph.
    fn paragraph(&mut self, Ghost(fuel): Ghost<nat>) -> (r: Result<Node, Error>)
        requires
            old(self).wf(),
            fuel >= 6 * old(self)@.bytes.len() + 4,
        ensures
            final(self).wf(),
            step_of_node(r, final(self)@) == node_of_items_step(
                sp_paragraph_items(old(self)@, fuel),
            ),
            final(self)@.bytes.len() <= old(self)@.bytes.len(),
            r matches Ok(node) && node@ matches NodeView::Paragraph(t) && t.items.len() > 0
                ==> final(self)@.bytes.len() < old(self)@.bytes.len(),
    {
        let mut items: Vec<Item> = Vec::new();
        let ghost orig = self@;
        let ghost mut f_cur: nat = fuel;
        proof {
            assert(items_view(items@) =~= Seq::<ItemView>::empty());
            match sp_paragraph_items(orig, fuel) {
                ParseStep::Done(rest, s) => {
                    assert(Seq::<ItemView>::empty() + rest =~= rest);
                },
                _ => {},
            }
        }
        loop
            invariant_except_break
                f_cur >= 6 * self@.bytes.len() + 4,
                f_cur <= fuel,
                sp_paragraph_items(orig, fuel) == ps_prepend_items(
                    items_view(items@),
                    sp_paragraph_items(self@, f_cur),
                ),
            invariant
                self.wf(),
                orig == old(self)@,
                self@.bytes.len() <= orig.bytes.len(),
                items@.len() > 0 ==> self@.bytes.len() < orig.bytes.len(),
            ensures
                self.wf(),
                orig == old(self)@,
                self@.bytes.len() <= orig.bytes.len(),
                items@.len() > 0 ==> self@.bytes.len() < orig.bytes.len(),
                sp_paragraph_items(orig, fuel) == ParseStep::Done(items_view(items@), self@),
            decreases self@.bytes.len(),
        {
            let mut line = match self.text_while(&Token::NewLine, Ghost((f_cur - 1) as nat)) {
                Ok(text) => text,
                Err(e) => {
                    return Err(e);
                },
            };
            proof {
                crate::node::lemma_items_view_len(line.items@);
            }
            // End of paragraph on an empty line.
            if line.items.is_empty() {
                proof {
                    assert(line@.items =~= Seq::<ItemView>::empty());
                    assert(items_view(items@) + Seq::<ItemView>::empty() =~= items_view(items@));
                }
                break ;
            }
            let ghost old_items = items@;
            let ghost line_items = line.items@;
            items.append(&mut line.items);
            proof {
                lemma_items_view_concat(old_items, line_items);
                assert(items@ =~= old_items + line_items);
                f_cur = (f_cur - 1) as nat;
                match sp_paragraph_items(self@, f_cur) {
                    ParseStep::Done(rest, s3) => {
                        assert(items_view(old_items) + (items_view(line_items) + rest)
                            =~= items_view(items@) + rest);
                    },
                    _ => {},
                }
            }
        }
        proof {
            crate::node::lemma_items_view_len(items@);
        }
        Ok(Node::Paragraph(Text::new(items)))
    }

    /// Parse an horizontal rule.
    fn horizontal_rule(&mut self) -> (r: Result<Node, Error>)
        requires
            old(self).wf(),
        ensures
            final(self).wf(),
            step_of_node(r, final(self)@) == (match sp_parser_eat(
                old(self)@,
                TokenView::TripleApos,
            ) {
                (Ok(u), s1) => ParseStep::Done(NodeView::HorizontalRule, s1),
                (Err(e), s1) => ParseStep::Fail(e, s1),
            }),
            final(self)@.bytes.len() <= old(self)@.bytes.len(),
    {
        self.eat(&Token::TripleApos)?;
        Ok(Node::HorizontalRule)
    }

    /// Parse a page break.
    fn page_break(&mut self) -> (r: Result<Node, Error>)
        requires
            old(self).wf(),
        ensures
            final(self).wf(),
            step_of_node(r, final(self)@) == (match sp_parser_eat(
                old(self)@,
                TokenView::TripleLt,
            ) {
                (Ok(u), s1) => ParseStep::Done(NodeView::PageBreak, s1),
                (Err(e), s1) => ParseStep::Fail(e, s1),
            }),
            final(self)@.bytes.len() <= old(self)@.bytes.len(),
    {
        self.eat(&Token::TripleLt)?;
        Ok(Node::PageBreak)
    }

    /// Parse the next node of the document.
    ///
    /// Blank lines and stray spaces at node scope are skipped
    /// transparently; `'''` gives a horizontal rule, `<<<` a page
    /// break, and anything else starts a paragraph. An exhausted input
    /// surfaces as the `Eof` error, the driving loop's normal stop.
    pub fn node(&mut self) -> (r: Result<Node, Error>)
        requires
            old(self).wf(),
        ensures
            final(self).wf(),
            step_of_node(r, final(self)@) == sp_node(old(self)@, node_fuel(old(self)@)),
            final(self)@.bytes.len() <= old(self)@.bytes.len(),
            r is Ok ==> final(self)@.bytes.len() < old(self)@.bytes.len(),
    {
        let ghost orig = self@;
        let ghost mut f_cur: nat = node_fuel(orig);
        loop
            invariant
                self.wf(),
                orig == old(self)@,
                f_cur >= 6 * self@.bytes.len() + 5,
                self@.bytes.len() <= orig.bytes.len(),
                sp_node(orig, node_fuel(orig)) == sp_node(self@, f_cur),
            decreases self@.bytes.len(),
        {
            proof {
                crate::lexer::lemma_token_len(self@);
            }
            let kind: u8 = match self.tokens.peek() {
                Err(e) => {
                    return Err(e);
                },
                Ok(token) => match token {
                    Token::TripleApos => 0,
                    Token::TripleLt => 1,
                    Token::NewLine => 2,
                    Token::Space => 2,
                    _ => 3,
                },
            };
            if kind == 0 {
                return self.horizontal_rule();
            }
            if kind == 1 {
                return self.page_break();
            }
            if kind == 2 {
                match self.tokens.token() {
                    Ok(_) => {},
                    Err(e) => {
                        proof {
                            assert(false);
                        }
                        return Err(e);
                    },
                }
                proof {
                    f_cur = (f_cur - 1) as nat;
                }
                continue ;
            }
            let ghost cur = self@;
            let r = self.paragraph(Ghost((f_cur - 1) as nat));
            match &r {
                Ok(Node::Paragraph(text)) => {
                    if text.items.is_empty() {
                        // A paragraph is attempted only with a text token
                        // peeked, so its first line always has an item;
                        // an empty paragraph cannot come back here.
                        proof {
                            crate::node::lemma_items_view_len(text.items@);
                            assert(text_view(*text).items.len() == 0);
                            assert(sp_paragraph_items(cur, (f_cur - 1) as nat)
                                == ParseStep::Done(
                                Seq::<ItemView>::empty(),
                                self@,
                            ));
                            assert(false);
                        }
                    } else {
                        proof {
                            crate::node::lemma_items_view_len(text.items@);
                        }
                    }
                },
                Ok(_) => {
                    proof {
                        assert(false);
                    }
                },
                Err(_) => {},
            }
            return r;
        }
    }
}

} // verus!
