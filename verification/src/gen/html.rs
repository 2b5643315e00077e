//! Generation of HTML from the document nodes.

use vstd::prelude::*;

use crate::node::{Attribute, AttributeView, Item, Node, NodeView, Text, TextView};
use crate::node::{attrs_view, item_view, ItemView};
use crate::strfmt::append_str;

verus! {

/// The serialization of an element without attributes:
/// `<name>inner</name>`.
pub open spec fn tag_text(name: Seq<char>, inner: Seq<char>) -> Seq<char> {
    "<"@ + name + ">"@ + inner + "</"@ + name + ">"@
}

/// The serialization of an element with an attribute string:
/// `<name attrs>inner</name>`.
pub open spec fn tag_a_text(name: Seq<char>, attrs: Seq<char>, inner: Seq<char>) -> Seq<char> {
    "<"@ + name + " "@ + attrs + ">"@ + inner + "</"@ + name + ">"@
}

/// The rendering of one attribute: a role becomes a CSS class, an
/// identifier an `id` attribute.
pub open spec fn render_attr(attr: AttributeView) -> Seq<char> {
    match attr {
        AttributeView::Id(name) => "id=\""@ + name + "\""@,
        AttributeView::Role(name) => "class=\""@ + name + "\""@,
    }
}

/// The rendering of an attribute list: the attributes concatenate with
/// no separator.
pub open spec fn render_attrs(attrs: Seq<AttributeView>) -> Seq<char>
    decreases attrs.len(),
{
    if attrs.len() == 0 {
        Seq::empty()
    } else {
        render_attrs(attrs.drop_last()) + render_attr(attrs.last())
    }
}

/// The default rendering of a single text item.
pub open spec fn render_item(item: ItemView) -> Seq<char>
    decreases item,
{
    match item {
        ItemView::Bold(text, attrs) => tag_a_text(
            "strong"@,
            render_attrs(attrs),
            render_text(text),
        ),
        ItemView::InlineCode(text, attrs) => tag_a_text(
            "code"@,
            render_attrs(attrs),
            render_text(text),
        ),
        ItemView::Italic(text, attrs) => tag_a_text(
            "em"@,
            render_attrs(attrs),
            render_text(text),
        ),
        ItemView::Mark(text, attrs) => if attrs.len() == 0 {
            tag_text("mark"@, render_text(text))
        } else {
            tag_a_text("span"@, render_attrs(attrs), render_text(text))
        },
        ItemView::Space => " "@,
        ItemView::SubScript(text, attrs) => tag_a_text(
            "sub"@,
            render_attrs(attrs),
            render_text(text),
        ),
        ItemView::SuperScript(text, attrs) => tag_a_text(
            "sup"@,
            render_attrs(attrs),
            render_text(text),
        ),
        ItemView::Word(word) => word,
    }
}

/// The default rendering of a text: its items in order.
pub open spec fn render_text(text: TextView) -> Seq<char>
    decreases text,
{
    render_items(text.items)
}

/// The default rendering of a sequence of items.
pub open spec fn render_items(items: Seq<ItemView>) -> Seq<char>
    decreases items,
{
    if items.len() == 0 {
        Seq::empty()
    } else {
        render_item(items.first()) + render_items(items.drop_first())
    }
}

/// The default rendering of a node.
pub open spec fn render_node(node: NodeView) -> Seq<char> {
    match node {
        NodeView::HorizontalRule => "<hr/>"@,
        NodeView::PageBreak => tag_a_text(
            "div"@,
            "style=\"page-break-after: always;\""@,
            Seq::empty(),
        ),
        NodeView::Paragraph(text) => tag_a_text(
            "div"@,
            "class=\"paragraph\""@,
            tag_text("p"@, render_text(text)),
        ),
    }
}

/// Represent an HTML node with its children.
#[derive(Debug)]
pub enum Html {
    Code(String, Box<Html>),
    Div(String, Box<Html>),
    Em(String, Box<Html>),
    Empty,
    Hr,
    Mark(Box<Html>),
    P(Box<Html>),
    SingleTextNode(String),
    Span(String, Box<Html>),
    Strong(String, Box<Html>),
    Sub(String, Box<Html>),
    Sup(String, Box<Html>),
    TextNode(Vec<Html>),
}

/// The characters an HTML tree serializes to.
pub open spec fn html_text(h: Html) -> Seq<char>
    decreases h,
    via html_text_dec
{
    match h {
        Html::Code(attrs, children) => tag_a_text("code"@, attrs@, html_text(*children)),
        Html::Div(attrs, children) => tag_a_text("div"@, attrs@, html_text(*children)),
        Html::Em(attrs, children) => tag_a_text("em"@, attrs@, html_text(*children)),
        Html::Empty => Seq::empty(),
        Html::Hr => "<hr/>"@,
        Html::Mark(children) => tag_text("mark"@, html_text(*children)),
        Html::P(children) => tag_text("p"@, html_text(*children)),
        Html::SingleTextNode(text) => text@,
        Html::Span(attrs, children) => tag_a_text("span"@, attrs@, html_text(*children)),
        Html::Strong(attrs, children) => tag_a_text("strong"@, attrs@, html_text(*children)),
        Html::Sub(attrs, children) => tag_a_text("sub"@, attrs@, html_text(*children)),
        Html::Sup(attrs, children) => tag_a_text("sup"@, attrs@, html_text(*children)),
        Html::TextNode(nodes) => htmls_text(nodes@),
    }
}

#[via_fn]
proof fn html_text_dec(h: Html) {
    match h {
        Html::TextNode(nodes) => {
            assert(decreases_to!(h => nodes));
            assert(decreases_to!(nodes => nodes@));
            assert(decreases_to!(h => nodes@));
        },
        _ => {},
    }
}

/// The characters a list of HTML trees serializes to, in order.
pub open spec fn htmls_text(hs: Seq<Html>) -> Seq<char>
    decreases hs,
{
    if hs.len() == 0 {
        Seq::empty()
    } else {
        html_text(hs.first()) + htmls_text(hs.drop_first())
    }
}

/// Write the text of an element with attributes around its serialized
/// children.
fn tag_a(name: &str, attributes: &str, children: &Html, writer: &mut String)
    ensures
        final(writer)@ == old(writer)@ + tag_a_text(name@, attributes@, html_text(*children)),
    decreases *children, 1int,
{
    append_str(writer, "<");
    append_str(writer, name);
    append_str(writer, " ");
    append_str(writer, attributes);
    append_str(writer, ">");
    children.write(writer);
    append_str(writer, "</");
    append_str(writer, name);
    append_str(writer, ">");
    proof {
        assert(final(writer)@ =~= old(writer)@ + tag_a_text(
            name@,
            attributes@,
            html_text(*children),
        ));
    }
}

/// Write the text of an element without attributes around its
/// serialized children.
fn tag(name: &str, children: &Html, writer: &mut String)
    ensures
        final(writer)@ == old(writer)@ + tag_text(name@, html_text(*children)),
    decreases *children, 1int,
{
    append_str(writer, "<");
    append_str(writer, name);
    append_str(writer, ">");
    children.write(writer);
    append_str(writer, "</");
    append_str(writer, name);
    append_str(writer, ">");
    proof {
        assert(final(writer)@ =~= old(writer)@ + tag_text(name@, html_text(*children)));
    }
}

/// Write a plain run of text.
fn write_text(text: &str, writer: &mut String)
    ensures
        final(writer)@ == old(writer)@ + text@,
{
    append_str(writer, text);
}

impl Html {
    /// Serialize this HTML tree into the writer, depth first, in
    /// document order.
    pub fn write(&self, writer: &mut String)
        ensures
            final(writer)@ == old(writer)@ + html_text(*self),
        decreases *self, 0int,
    {
        match self {
            Html::Code(attributes, children) => tag_a(
                "code",
                attributes.as_str(),
                children,
                writer,
            ),
            Html::Div(attributes, children) => tag_a(
                "div",
                attributes.as_str(),
                children,
                writer,
            ),
            Html::Em(attributes, children) => tag_a("em", attributes.as_str(), children, writer),
            Html::Empty => {},
            Html::Hr => write_text("<hr/>", writer),
            Html::Mark(children) => tag("mark", children, writer),
            Html::P(children) => tag("p", children, writer),
            Html::SingleTextNode(text) => write_text(text.as_str(), writer),
            Html::Span(attributes, children) => tag_a(
                "span",
                attributes.as_str(),
                children,
                writer,
            ),
            Html::Strong(attributes, children) => tag_a(
                "strong",
                attributes.as_str(),
                children,
                writer,
            ),
            Html::Sub(attributes, children) => tag_a(
                "sub",
                attributes.as_str(),
                children,
                writer,
            ),
            Html::Sup(attributes, children) => tag_a(
                "sup",
                attributes.as_str(),
                children,
                writer,
            ),
            Html::TextNode(nodes) => {
                let ghost all = nodes@;
                let mut i: usize = 0;
                proof {
                    assert(all.skip(0) =~= all);
                }
                while i < nodes.len()
                    invariant
                        0 <= i <= nodes@.len(),
                        nodes@ == all,
                        *self == Html::TextNode(*nodes),
                        writer@ == old(writer)@ + htmls_text(all.take(i as int)),
                    decreases nodes@.len() - i,
                {
                    let ghost before = writer@;
                    proof {
                        vstd::std_specs::vec::axiom_vec_index_decreases(*nodes, i as int);
                        assert(decreases_to!(*self => (*self)->TextNode_0));
                        assert(decreases_to!(*self => (*nodes)[i as int]));
                    }
                    nodes[i].write(writer);
                    proof {
                        lemma_htmls_text_take(all, i as int);
                    }
                    i = i + 1;
                }
                proof {
                    assert(all.take(all.len() as int) =~= all);
                }
            },
        }
    }
}

/// Create a strong element with attributes.
pub fn bold_a(attributes: String, children: Html) -> (h: Html)
    ensures
        html_text(h) == tag_a_text("strong"@, attributes@, html_text(children)),
{
    Html::Strong(attributes, Box::new(children))
}

/// Create a div element with attributes.
pub fn div_a(attributes: String, children: Html) -> (h: Html)
    ensures
        html_text(h) == tag_a_text("div"@, attributes@, html_text(children)),
{
    Html::Div(attributes, Box::new(children))
}

/// Create a hr element.
pub fn hr() -> (h: Html)
    ensures
        html_text(h) == "<hr/>"@,
{
    Html::Hr
}

/// Create a code element with attributes.
pub fn inline_code_a(attributes: String, children: Html) -> (h: Html)
    ensures
        html_text(h) == tag_a_text("code"@, attributes@, html_text(children)),
{
    Html::Code(attributes, Box::new(children))
}

/// Create an italic element.
pub fn italic_a(attributes: String, children: Html) -> (h: Html)
    ensures
        html_text(h) == tag_a_text("em"@, attributes@, html_text(children)),
{
    Html::Em(attributes, Box::new(children))
}

/// Create a mark element.
pub fn mark(children: Html) -> (h: Html)
    ensures
        html_text(h) == tag_text("mark"@, html_text(children)),
{
    Html::Mark(Box::new(children))
}

/// Create a p element.
pub fn p(children: Html) -> (h: Html)
    ensures
        html_text(h) == tag_text("p"@, html_text(children)),
{
    Html::P(Box::new(children))
}

/// Create a span element with attributes.
pub fn span_a(attributes: String, children: Html) -> (h: Html)
    ensures
        html_text(h) == tag_a_text("span"@, attributes@, html_text(children)),
{
    Html::Span(attributes, Box::new(children))
}

/// Create a sub element with attributes.
pub fn subscript_a(attributes: String, children: Html) -> (h: Html)
    ensures
        html_text(h) == tag_a_text("sub"@, attributes@, html_text(children)),
{
    Html::Sub(attributes, Box::new(children))
}

/// Create a sup element with attributes.
pub fn superscript_a(attributes: String, children: Html) -> (h: Html)
    ensures
        html_text(h) == tag_a_text("sup"@, attributes@, html_text(children)),
{
    Html::Sup(attributes, Box::new(children))
}

/// Render an attribute list as one attribute string, with no
/// separator between attributes.
fn attributes_to_string(attributes: &[Attribute]) -> (s: String)
    ensures
        s@ == render_attrs(attrs_view(attributes@)),
{
    let mut string = String::new();
    let mut i: usize = 0;
    proof {
        assert(attrs_view(attributes@).take(0) =~= Seq::<AttributeView>::empty());
    }
    while i < attributes.len()
        invariant
            0 <= i <= attributes@.len(),
            string@ == render_attrs(attrs_view(attributes@).take(i as int)),
        decreases attributes@.len() - i,
    {
        match &attributes[i] {
            Attribute::Id(name) => {
                append_str(&mut string, "id=\"");
                append_str(&mut string, name.as_str());
                append_str(&mut string, "\"");
            },
            Attribute::Role(name) => {
                append_str(&mut string, "class=\"");
                append_str(&mut string, name.as_str());
                append_str(&mut string, "\"");
            },
        }
        proof {
            let views = attrs_view(attributes@);
            assert(views.take(i + 1).drop_last() =~= views.take(i as int));
            assert(views.take(i + 1).last() == views[i as int]);
            assert(string@ =~= render_attrs(views.take(i + 1)));
        }
        i = i + 1;
    }
    proof {
        assert(attrs_view(attributes@).take(attributes@.len() as int) =~= attrs_view(
            attributes@,
        ));
    }
    string
}

/// Build the default HTML tree for a text: its items in order.
fn text_html(text: &Text) -> (h: Html)
    ensures
        html_text(h) == render_text(text@),
    decreases *text, 1int,
{
    let mut texts: Vec<Html> = Vec::new();
    let items = &text.items;
    let mut i: usize = 0;
    proof {
        assert(texts@ =~= Seq::<Html>::empty());
        assert(crate::node::items_view(items@).take(0) =~= Seq::<ItemView>::empty());
    }
    while i < items.len()
        invariant
            0 <= i <= items@.len(),
            *text == (Text { items: *items }),
            texts@.len() == i,
            htmls_text(texts@) == render_items(crate::node::items_view(items@).take(i as int)),
        decreases items@.len() - i,
    {
        proof {
            vstd::std_specs::vec::axiom_vec_index_decreases(*items, i as int);
            assert(decreases_to!(*text => text.items));
            assert(decreases_to!(*text => items@[i as int]));
        }
        let ghost old_texts = texts@;
        let html = item_html(&items[i]);
        texts.push(html);
        proof {
            crate::node::lemma_items_view_len(items@);
            let views = crate::node::items_view(items@);
            lemma_htmls_text_push(old_texts, texts@[i as int]);
            lemma_render_items_take(views, i as int);
            crate::node::lemma_items_view_index(items@, i as int);
            assert(views[i as int] == item_view(items@[i as int]));
            assert(htmls_text(texts@) =~= render_items(views.take(i + 1)));
        }
        i = i + 1;
    }
    proof {
        crate::node::lemma_items_view_len(items@);
        let views = crate::node::items_view(items@);
        assert(views.take(views.len() as int) =~= views);
    }
    Html::TextNode(texts)
}

/// Build the default HTML tree for one item.
fn item_html(item: &Item) -> (h: Html)
    ensures
        html_text(h) == render_item(item@),
    decreases *item, 0int,
{
    match item {
        Item::Bold(text, attributes) => {
            proof {
                assert(decreases_to!(*item => (*item)->Bold_0));
            }
            bold_a(attributes_to_string(attributes.as_slice()), text_html(text))
        },
        Item::InlineCode(text, attributes) => {
            proof {
                assert(decreases_to!(*item => (*item)->InlineCode_0));
            }
            inline_code_a(attributes_to_string(attributes.as_slice()), text_html(text))
        },
        Item::Italic(text, attributes) => {
            proof {
                assert(decreases_to!(*item => (*item)->Italic_0));
            }
            italic_a(attributes_to_string(attributes.as_slice()), text_html(text))
        },
        Item::Mark(text, attributes) => {
            proof {
                assert(decreases_to!(*item => (*item)->Mark_0));
            }
            let inner = text_html(text);
            if attributes.is_empty() {
                mark(inner)
            } else {
                span_a(attributes_to_string(attributes.as_slice()), inner)
            }
        },
        Item::Space => Html::SingleTextNode(" ".to_owned()),
        Item::SubScript(text, attributes) => {
            proof {
                assert(decreases_to!(*item => (*item)->SubScript_0));
            }
            subscript_a(attributes_to_string(attributes.as_slice()), text_html(text))
        },
        Item::SuperScript(text, attributes) => {
            proof {
                assert(decreases_to!(*item => (*item)->SuperScript_0));
            }
            superscript_a(attributes_to_string(attributes.as_slice()), text_html(text))
        },
        Item::Word(word) => Html::SingleTextNode(word.clone()),
    }
}

/// Appending one tree appends its text.
proof fn lemma_htmls_text_push(hs: Seq<Html>, h: Html)
    ensures
        htmls_text(hs.push(h)) == htmls_text(hs) + html_text(h),
    decreases hs.len(),
{
    if hs.len() == 0 {
        assert(hs.push(h).drop_first() =~= Seq::<Html>::empty());
        assert(hs.push(h).first() == h);
        assert(htmls_text(Seq::<Html>::empty()) =~= Seq::<char>::empty());
        assert(htmls_text(hs.push(h)) =~= htmls_text(hs) + html_text(h));
    } else {
        lemma_htmls_text_push(hs.drop_first(), h);
        assert(hs.push(h).drop_first() =~= hs.drop_first().push(h));
        assert(hs.push(h).first() == hs.first());
        assert(html_text(hs.first()) + (htmls_text(hs.drop_first()) + html_text(h)) =~= (
        html_text(hs.first()) + htmls_text(hs.drop_first())) + html_text(h));
    }
}

/// Rendering one more item appends its rendering.
proof fn lemma_render_items_take(items: Seq<ItemView>, i: int)
    requires
        0 <= i < items.len(),
    ensures
        render_items(items.take(i + 1)) == render_items(items.take(i)) + render_item(items[i]),
    decreases i,
{
    if i == 0 {
        assert(items.take(1).drop_first() =~= Seq::<ItemView>::empty());
        assert(items.take(1).first() == items[0]);
        assert(items.take(0) =~= Seq::<ItemView>::empty());
        assert(render_items(Seq::<ItemView>::empty()) =~= Seq::<char>::empty());
        assert(render_items(items.take(1)) =~= render_items(items.take(0)) + render_item(
            items[0],
        ));
    } else {
        lemma_render_items_take(items.drop_first(), i - 1);
        assert(items.take(i + 1).drop_first() =~= items.drop_first().take(i));
        assert(items.take(i).drop_first() =~= items.drop_first().take(i - 1));
        assert(items.take(i + 1).first() == items.first());
        assert(items.take(i).first() == items.first());
        assert(items.drop_first()[i - 1] == items[i]);
        assert(render_item(items.first()) + (render_items(items.drop_first().take(i - 1))
            + render_item(items[i])) =~= (render_item(items.first()) + render_items(
            items.drop_first().take(i - 1),
        )) + render_item(items[i]));
    }
}

/// Serializing one more tree appends its text.
proof fn lemma_htmls_text_take(hs: Seq<Html>, i: int)
    requires
        0 <= i < hs.len(),
    ensures
        htmls_text(hs.take(i + 1)) == htmls_text(hs.take(i)) + html_text(hs[i]),
    decreases i,
{
    if i == 0 {
        assert(hs.take(1).drop_first() =~= Seq::<Html>::empty());
        assert(hs.take(1).first() == hs[0]);
        assert(hs.take(0) =~= Seq::<Html>::empty());
        assert(htmls_text(Seq::<Html>::empty()) =~= Seq::<char>::empty());
        assert(htmls_text(hs.take(1)) =~= htmls_text(hs.take(0)) + html_text(hs[0]));
    } else {
        lemma_htmls_text_take(hs.drop_first(), i - 1);
        assert(hs.take(i + 1).drop_first() =~= hs.drop_first().take(i));
        assert(hs.take(i).drop_first() =~= hs.drop_first().take(i - 1));
        assert(hs.take(i + 1).first() == hs.first());
        assert(hs.take(i).first() == hs.first());
        assert(hs.drop_first()[i - 1] == hs[i]);
        assert(html_text(hs.first()) + (htmls_text(hs.drop_first().take(i - 1)) + html_text(
            hs[i],
        )) =~= (html_text(hs.first()) + htmls_text(hs.drop_first().take(i - 1))) + html_text(
            hs[i],
        ));
    }
}


/// The default HTML generator.
pub struct Generator {}

/// Generate an HTML node from a document node.
///
/// Every method has a default body giving the standard mapping, so a
/// consumer overrides exactly the cases it wants to customize; the
/// remaining cases, and the texts nested inside a customized span,
/// keep the default rendering. What an override returns is outside
/// this library's contracts: the default mapping itself is pinned by
/// [`node_to_html`].
pub trait HtmlGen {
    /// Generate the tree for a node.
    fn node(&mut self, node: &Node) -> Html {
        match node {
            Node::HorizontalRule => self.horizontal_rule(),
            Node::PageBreak => self.page_break(),
            Node::Paragraph(text) => self.paragraph(text),
        }
    }

    /// Generate the tree for a horizontal rule.
    fn horizontal_rule(&mut self) -> Html {
        hr()
    }

    /// Generate the tree for a page break.
    fn page_break(&mut self) -> Html {
        div_a("style=\"page-break-after: always;\"".to_owned(), Html::Empty)
    }

    /// Generate the tree for a paragraph.
    fn paragraph(&mut self, text: &Text) -> Html {
        div_a("class=\"paragraph\"".to_owned(), p(self.text(text)))
    }

    /// Generate the tree for a text: its items in order.
    fn text(&mut self, text: &Text) -> Html {
        let mut texts: Vec<Html> = Vec::new();
        let mut i: usize = 0;
        while i < text.items.len()
            decreases text.items@.len() - i,
        {
            let html = self.item(&text.items[i]);
            texts.push(html);
            i = i + 1;
        }
        Html::TextNode(texts)
    }

    /// Generate the tree for one item.
    fn item(&mut self, item: &Item) -> Html {
        match item {
            Item::Bold(text, attributes) => self.bold(text, attributes.as_slice()),
            Item::InlineCode(text, attributes) => self.inline_code(text, attributes.as_slice()),
            Item::Italic(text, attributes) => self.italic(text, attributes.as_slice()),
            Item::Mark(text, attributes) => self.mark(text, attributes.as_slice()),
            Item::Space => Html::SingleTextNode(" ".to_owned()),
            Item::SubScript(text, attributes) => self.subscript(text, attributes.as_slice()),
            Item::SuperScript(text, attributes) => self.superscript(text, attributes.as_slice()),
            Item::Word(word) => Html::SingleTextNode(word.clone()),
        }
    }

    /// Generate the tree for a bold span.
    fn bold(&mut self, text: &Text, attributes: &[Attribute]) -> Html {
        bold_a(attributes_to_string(attributes), text_html(text))
    }

    /// Generate the tree for an inline-code span.
    fn inline_code(&mut self, text: &Text, attributes: &[Attribute]) -> Html {
        inline_code_a(attributes_to_string(attributes), text_html(text))
    }

    /// Generate the tree for an italic span.
    fn italic(&mut self, text: &Text, attributes: &[Attribute]) -> Html {
        italic_a(attributes_to_string(attributes), text_html(text))
    }

    /// Generate the tree for a mark span: a plain mark element, or a
    /// span element when attributes are present.
    fn mark(&mut self, text: &Text, attributes: &[Attribute]) -> Html {
        let inner = text_html(text);
        if attributes.is_empty() {
            mark(inner)
        } else {
            span_a(attributes_to_string(attributes), inner)
        }
    }

    /// Generate the tree for a subscript span.
    fn subscript(&mut self, text: &Text, attributes: &[Attribute]) -> Html {
        subscript_a(attributes_to_string(attributes), text_html(text))
    }

    /// Generate the tree for a superscript span.
    fn superscript(&mut self, text: &Text, attributes: &[Attribute]) -> Html {
        superscript_a(attributes_to_string(attributes), text_html(text))
    }
}

impl HtmlGen for Generator {
}

/// Build the default HTML tree for a node: the mapping every
/// `HtmlGen` method falls back to.
pub fn node_to_html(node: &Node) -> (h: Html)
    ensures
        html_text(h) == render_node(node@),
{
    match node {
        Node::HorizontalRule => hr(),
        Node::PageBreak => div_a("style=\"page-break-after: always;\"".to_owned(), Html::Empty),
        Node::Paragraph(text) => div_a("class=\"paragraph\"".to_owned(), p(text_html(text))),
    }
}

/// Write the resulting HTML code for the specified `node` in the
/// `writer`, using the given generator.
///
/// Whatever the generator produces, the writer only grows: what was
/// already written is never revisited.
pub fn gen<G: HtmlGen>(gen: &mut G, node: &Node, writer: &mut String)
    ensures
        final(writer)@.len() >= old(writer)@.len(),
        final(writer)@.subrange(0, old(writer)@.len() as int) == old(writer)@,
{
    let html = gen.node(node);
    html.write(writer);
    proof {
        assert(final(writer)@.subrange(0, old(writer)@.len() as int) =~= old(writer)@);
    }
}

} // verus!
