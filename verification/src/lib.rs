//! Conversion of a small AsciiDoc-like markup language into HTML.
//!
//! The pipeline has three stages: a position-tracking [`Lexer`] that
//! turns bytes into tokens, a recursive-descent [`Parser`] that builds
//! one [`Node`] per call, and a tree-walking HTML generator under
//! [`html`].

use vstd::prelude::*;

mod error;
mod gen;
mod lexer;
mod node;
mod parser;
mod position;
mod strfmt;
mod token;

pub use error::Error;
pub use gen::html;
pub use lexer::Lexer;
pub use node::{Attribute, Item, Node, Text};
pub use parser::Parser;
pub use position::Pos;
pub use token::Token;

use crate::error::ErrorView;
use crate::gen::html::{node_to_html, render_node};
use crate::lexer::LexView;
use crate::parser::{node_fuel, sp_node, ParseStep};

verus! {

/// The lexer state over a whole, untouched input.
pub open spec fn initial_state(input: Seq<u8>) -> LexView {
    LexView { bytes: input, line: 1 as nat, col: 1 as nat }
}

/// The text of the whole conversion from a lexer state: nodes are
/// parsed and rendered with the default mapping until the input is
/// exhausted, which is the normal stop; any other error is the
/// result. The fuel bounds the number of nodes, and `to_html` shows
/// that one more than the remaining bytes always suffices.
pub open spec fn sp_document(s: LexView, fuel: nat) -> Result<Seq<char>, ErrorView>
    decreases fuel,
{
    if fuel == 0 {
        arbitrary()
    } else {
        match sp_node(s, node_fuel(s)) {
            ParseStep::Done(node, s1) => match sp_document(s1, (fuel - 1) as nat) {
                Ok(rest) => Ok(render_node(node) + rest),
                Err(e) => Err(e),
            },
            ParseStep::Fail(e, s1) => if e == ErrorView::Eof {
                Ok(Seq::empty())
            } else {
                Err(e)
            },
            ParseStep::Stop => arbitrary(),
        }
    }
}

/// What converting a byte input to HTML produces.
pub open spec fn document_text(input: Seq<u8>) -> Result<Seq<char>, ErrorView> {
    sp_document(initial_state(input), (input.len() + 1) as nat)
}

/// The mathematical value of a conversion result.
pub open spec fn html_res_view(r: Result<String, Error>) -> Result<Seq<char>, ErrorView> {
    match r {
        Ok(s) => Ok(s@),
        Err(e) => Err(e@),
    }
}

/// Convert the markup text in `input` and return the HTML output.
///
/// This is the driving loop: produce a node, render it, and stop
/// normally when the input is exhausted; any other error is surfaced
/// unchanged.
pub fn to_html(input: Vec<u8>) -> (r: Result<String, Error>)
    requires
        input@.len() < usize::MAX,
    ensures
        html_res_view(r) == document_text(input@),
{
    let ghost input_view = input@;
    let lexer = Lexer::new(input);
    let mut parser = Parser::new(lexer);
    let mut html_out = String::new();
    let ghost mut f_cur: nat = (input_view.len() + 1) as nat;
    proof {
        assert(parser@ == initial_state(input_view));
        match sp_document(parser@, f_cur) {
            Ok(rest) => {
                assert(html_out@ + rest =~= rest);
            },
            Err(e) => {},
        }
    }
    loop
        invariant
            input@ == input_view,
            parser.wf(),
            f_cur >= parser@.bytes.len() + 1,
            document_text(input_view) == (match sp_document(parser@, f_cur) {
                Ok(rest) => Ok::<Seq<char>, ErrorView>(html_out@ + rest),
                Err(e) => Err::<Seq<char>, ErrorView>(e),
            }),
        decreases parser@.bytes.len(),
    {
        let node = match parser.node() {
            Ok(node) => node,
            Err(e) => {
                if matches!(e, Error::Eof) {
                    proof {
                        assert(html_out@ + Seq::<char>::empty() =~= html_out@);
                    }
                    return Ok(html_out);
                } else {
                    return Err(e);
                }
            },
        };
        let tree = node_to_html(&node);
        let ghost before = html_out@;
        let ghost node_view = node@;
        tree.write(&mut html_out);
        proof {
            f_cur = (f_cur - 1) as nat;
            match sp_document(parser@, f_cur) {
                Ok(rest) => {
                    assert(before + (render_node(node_view) + rest) =~= html_out@ + rest);
                },
                Err(e) => {},
            }
        }
    }
}

/// The conversion is deterministic: any two results that `to_html`
/// can return for the same input are the same, nodes and rendered
/// characters alike.
pub proof fn lemma_to_html_deterministic(
    input: Seq<u8>,
    r1: Result<String, Error>,
    r2: Result<String, Error>,
)
    requires
        html_res_view(r1) == document_text(input),
        html_res_view(r2) == document_text(input),
    ensures
        html_res_view(r1) == html_res_view(r2),
{
}

/// Parsing is deterministic: any two node results that `Parser::node`
/// can produce from the same lexer state are the same, and they leave
/// the same lexer state behind.
pub proof fn lemma_node_deterministic(
    s: LexView,
    r1: Result<Node, Error>,
    s1: LexView,
    r2: Result<Node, Error>,
    s2: LexView,
)
    requires
        parser::step_of_node(r1, s1) == sp_node(s, node_fuel(s)),
        parser::step_of_node(r2, s2) == sp_node(s, node_fuel(s)),
    ensures
        s1 == s2,
        r1 is Ok <==> r2 is Ok,
        r1 matches Ok(n1) ==> (r2 matches Ok(n2) && n1@ == n2@),
        r1 matches Err(e1) ==> (r2 matches Err(e2) && e1@ == e2@),
{
}

} // verus!
