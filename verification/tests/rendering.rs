//! Tests for the HTML generator and the whole conversion.

use asciidoctor::html::{self, Generator, Html, HtmlGen};
use asciidoctor::{to_html, Error, Lexer, Node, Parser, Text};

fn convert(text: &str) -> String {
    to_html(text.as_bytes().to_vec()).unwrap()
}

// `'''` flanked by newlines renders to `<hr/>`.
#[test]
fn horizontal_rule_renders_as_hr() {
    assert_eq!(convert("\n'''\n"), "<hr/>");
}

// `<<<` flanked by newlines renders to the page-break div.
#[test]
fn page_break_renders_as_div() {
    assert_eq!(
        convert("\n<<<\n"),
        "<div style=\"page-break-after: always;\"></div>"
    );
}

// Rendering the first paragraph of `a b\n\nc` yields the canonical
// paragraph markup.
#[test]
fn paragraph_renders_with_class() {
    let mut parser = Parser::new(Lexer::new(b"a b\n\nc".to_vec()));
    let node = parser.node().unwrap();
    let mut generator = Generator {};
    let mut out = String::new();
    html::gen(&mut generator, &node, &mut out);
    assert_eq!(out, "<div class=\"paragraph\"><p>a b</p></div>");
}

// Comment text never reaches the rendered output.
#[test]
fn comments_leave_no_trace_in_output() {
    let rendered = convert("a\n// comment\nb");
    assert!(!rendered.contains("comment"));
    assert_eq!(rendered, convert("a\nb"));
}

#[test]
fn span_kinds_render_to_their_elements() {
    assert_eq!(convert("_a_"), "<div class=\"paragraph\"><p><em >a</em></p></div>");
    assert_eq!(
        convert("*a*"),
        "<div class=\"paragraph\"><p><strong >a</strong></p></div>"
    );
    assert_eq!(
        convert("`a`"),
        "<div class=\"paragraph\"><p><code >a</code></p></div>"
    );
    assert_eq!(convert("^a^"), "<div class=\"paragraph\"><p><sup >a</sup></p></div>");
    assert_eq!(convert("~a~"), "<div class=\"paragraph\"><p><sub >a</sub></p></div>");
}

// A mark without attributes is a plain `mark` element; with a role it
// becomes a span with the role as its class.
#[test]
fn mark_rendering_depends_on_attributes() {
    assert_eq!(convert("#a#"), "<div class=\"paragraph\"><p><mark>a</mark></p></div>");
    assert_eq!(
        convert("[warn]#a#"),
        "<div class=\"paragraph\"><p><span class=\"warn\">a</span></p></div>"
    );
}

#[test]
fn role_attribute_renders_as_class() {
    assert_eq!(
        convert("[myrole]_italic_"),
        "<div class=\"paragraph\"><p><em class=\"myrole\">italic</em></p></div>"
    );
}

#[test]
fn id_attribute_renders_as_id() {
    assert_eq!(
        convert("[#anchor]_a_"),
        "<div class=\"paragraph\"><p><em id=\"anchor\">a</em></p></div>"
    );
}

#[test]
fn several_nodes_render_in_document_order() {
    assert_eq!(
        convert("a\n\n'''\nb"),
        "<div class=\"paragraph\"><p>a</p></div><hr/><div class=\"paragraph\"><p>b</p></div>"
    );
}

#[test]
fn multibyte_words_render_unchanged() {
    assert_eq!(
        convert("caf\u{e9}"),
        "<div class=\"paragraph\"><p>caf\u{e9}</p></div>"
    );
}

// Repeated conversions of the same bytes give identical output.
#[test]
fn conversion_is_deterministic() {
    let input = "[r]_a_ b\n\n'''\n<<<\nc *d*\n";
    let first = to_html(input.as_bytes().to_vec()).unwrap();
    let second = to_html(input.as_bytes().to_vec()).unwrap();
    assert_eq!(first, second);
}

// A non-Eof error from the parser is surfaced by the conversion.
#[test]
fn conversion_surfaces_errors() {
    match to_html(b"'' ".to_vec()) {
        Err(Error::UnexpectedChar { actual, expected, pos }) => {
            assert_eq!(actual, b' ');
            assert_eq!(expected, vec![b'\'']);
            assert_eq!((pos.line, pos.column), (1, 3));
        },
        other => panic!("expected UnexpectedChar, got {:?}", other),
    }
}

#[test]
fn empty_input_renders_to_nothing() {
    assert_eq!(convert(""), "");
}

// The diagnostic message format is exact.
#[test]
fn unexpected_char_message_format() {
    let error = to_html(b"ab\n'' ".to_vec()).unwrap_err();
    assert_eq!(
        error.to_message(),
        "2:3: expected `39`, but found `32` on line 2, column 3"
    );
}

// At the driving loop, running out of input is the normal stop, even
// inside an unterminated span: the partial node is dropped.
#[test]
fn unterminated_span_ends_the_conversion_normally() {
    assert_eq!(convert("_word"), "");
}

#[test]
fn eof_message_is_end_of_file() {
    let mut parser = Parser::new(Lexer::new(b"_word".to_vec()));
    let error = parser.node().unwrap_err();
    assert!(matches!(error, Error::Eof));
    assert_eq!(error.to_message(), "end of file");
}

// A custom generator overrides exactly the case it customizes; the
// other cases keep the default rendering.
struct PlainRules {}

impl HtmlGen for PlainRules {
    fn horizontal_rule(&mut self) -> Html {
        Html::SingleTextNode("--".to_owned())
    }
}

#[test]
fn custom_generator_overrides_one_case() {
    let mut parser = Parser::new(Lexer::new(b"'''\na".to_vec()));
    let mut generator = PlainRules {};
    let mut out = String::new();
    let rule = parser.node().unwrap();
    html::gen(&mut generator, &rule, &mut out);
    assert_eq!(out, "--");
    let paragraph = parser.node().unwrap();
    html::gen(&mut generator, &paragraph, &mut out);
    assert_eq!(out, "--<div class=\"paragraph\"><p>a</p></div>");
}

#[test]
fn node_to_html_gives_the_default_tree() {
    let node = Node::Paragraph(Text::new(vec![]));
    let tree = html::node_to_html(&node);
    let mut out = String::new();
    tree.write(&mut out);
    assert_eq!(out, "<div class=\"paragraph\"><p></p></div>");
}

#[test]
fn html_constructors_build_the_expected_markup() {
    let mut out = String::new();
    html::hr().write(&mut out);
    assert_eq!(out, "<hr/>");
    let mut out = String::new();
    html::p(Html::SingleTextNode("x".to_owned())).write(&mut out);
    assert_eq!(out, "<p>x</p>");
    let mut out = String::new();
    html::div_a("class=\"c\"".to_owned(), Html::Empty).write(&mut out);
    assert_eq!(out, "<div class=\"c\"></div>");
    let mut out = String::new();
    html::span_a("class=\"c\"".to_owned(), Html::SingleTextNode("x".to_owned()))
        .write(&mut out);
    assert_eq!(out, "<span class=\"c\">x</span>");
    let mut out = String::new();
    html::mark(Html::SingleTextNode("x".to_owned())).write(&mut out);
    assert_eq!(out, "<mark>x</mark>");
    let mut out = String::new();
    html::italic_a("".to_owned(), Html::SingleTextNode("x".to_owned())).write(&mut out);
    assert_eq!(out, "<em >x</em>");
}

// The diagnostic format for a grammar-level mismatch.
#[test]
fn unexpected_token_message_format() {
    let error = Error::UnexpectedToken {
        actual: "x".to_owned(),
        expected: "y".to_owned(),
        pos: asciidoctor::Pos::new(3, 4),
    };
    assert_eq!(
        error.to_message(),
        "3:4: expected y, but found `x` on line 3, column 4"
    );
}

// Several expected bytes are described as a backquoted list.
#[test]
fn several_expected_bytes_are_listed() {
    let error = Error::UnexpectedChar {
        actual: b'x',
        expected: vec![b'\'', b'<'],
        pos: asciidoctor::Pos::new(1, 2),
    };
    assert_eq!(
        error.to_message(),
        "1:2: expected one of `39`, `60`, but found `120` on line 1, column 2"
    );
}

#[test]
fn message_for_a_wrapped_description() {
    let error = Error::Msg("something else went wrong".to_owned());
    assert_eq!(error.to_message(), "something else went wrong");
}
