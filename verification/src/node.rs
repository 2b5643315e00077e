//! The abstract syntax tree of a parsed document.

use vstd::prelude::*;

verus! {

/// An attribute attached to an inline span: a role (rendered as a CSS
/// class) or an identifier declared with a leading `#`.
#[derive(Debug)]
pub enum Attribute {
    Id(String),
    Role(String),
}

/// The mathematical value of an [`Attribute`].
pub enum AttributeView {
    Id(Seq<char>),
    Role(Seq<char>),
}

impl View for Attribute {
    type V = AttributeView;

    open spec fn view(&self) -> AttributeView {
        match self {
            Attribute::Id(name) => AttributeView::Id(name@),
            Attribute::Role(name) => AttributeView::Role(name@),
        }
    }
}

/// A recursive node structure that represents part of a document.
#[derive(Debug)]
pub enum Node {
    HorizontalRule,
    PageBreak,
    Paragraph(Text),
}

/// A text contains words, spaces and nested inline spans.
#[derive(Debug)]
pub struct Text {
    pub items: Vec<Item>,
}

impl Text {
    /// Build a text from its items.
    pub fn new(items: Vec<Item>) -> (text: Text)
        ensures
            text == (Text { items }),
    {
        Text { items }
    }
}

/// A text item: a word, a space, or an inline span carrying a nested
/// text and the attributes of its attribute list.
#[derive(Debug)]
pub enum Item {
    Bold(Text, Vec<Attribute>),
    InlineCode(Text, Vec<Attribute>),
    Italic(Text, Vec<Attribute>),
    Mark(Text, Vec<Attribute>),
    Space,
    SubScript(Text, Vec<Attribute>),
    SuperScript(Text, Vec<Attribute>),
    Word(String),
}

/// The mathematical value of a [`Node`].
pub enum NodeView {
    HorizontalRule,
    PageBreak,
    Paragraph(TextView),
}

/// The mathematical value of a [`Text`]: the sequence of its items.
pub struct TextView {
    pub items: Seq<ItemView>,
}

/// The mathematical value of an [`Item`].
pub enum ItemView {
    Bold(TextView, Seq<AttributeView>),
    InlineCode(TextView, Seq<AttributeView>),
    Italic(TextView, Seq<AttributeView>),
    Mark(TextView, Seq<AttributeView>),
    Space,
    SubScript(TextView, Seq<AttributeView>),
    SuperScript(TextView, Seq<AttributeView>),
    Word(Seq<char>),
}

/// The views of a list of attributes.
pub open spec fn attrs_view(attrs: Seq<Attribute>) -> Seq<AttributeView> {
    Seq::new(attrs.len(), |i: int| attrs[i]@)
}

/// The view of a text: its items, each viewed recursively.
pub open spec fn text_view(text: Text) -> TextView
    decreases text,
    via text_view_dec
{
    TextView { items: items_view(text.items@) }
}

#[via_fn]
proof fn text_view_dec(text: Text) {
    assert(decreases_to!(text => text.items));
    assert(decreases_to!(text.items => text.items@));
    assert(decreases_to!(text => text.items@));
}

/// The views of a sequence of items, in order.
pub open spec fn items_view(items: Seq<Item>) -> Seq<ItemView>
    decreases items,
{
    if items.len() == 0 {
        Seq::empty()
    } else {
        seq![item_view(items.first())] + items_view(items.drop_first())
    }
}

/// The view of a single item.
pub open spec fn item_view(item: Item) -> ItemView
    decreases item,
{
    match item {
        Item::Bold(text, attrs) => ItemView::Bold(text_view(text), attrs_view(attrs@)),
        Item::InlineCode(text, attrs) => ItemView::InlineCode(text_view(text), attrs_view(attrs@)),
        Item::Italic(text, attrs) => ItemView::Italic(text_view(text), attrs_view(attrs@)),
        Item::Mark(text, attrs) => ItemView::Mark(text_view(text), attrs_view(attrs@)),
        Item::Space => ItemView::Space,
        Item::SubScript(text, attrs) => ItemView::SubScript(text_view(text), attrs_view(attrs@)),
        Item::SuperScript(text, attrs) => ItemView::SuperScript(
            text_view(text),
            attrs_view(attrs@),
        ),
        Item::Word(word) => ItemView::Word(word@),
    }
}

/// Appending one item to a list viewed: the view gains its view.
pub proof fn lemma_items_view_push(items: Seq<Item>, item: Item)
    ensures
        items_view(items.push(item)) == items_view(items) + seq![item_view(item)],
    decreases items.len(),
{
    if items.len() == 0 {
        assert(items.push(item).drop_first() =~= Seq::<Item>::empty());
        assert(items.push(item).first() == item);
        assert(items_view(Seq::<Item>::empty()) =~= Seq::<ItemView>::empty());
        assert(items_view(items.push(item)) =~= items_view(items) + seq![item_view(item)]);
    } else {
        lemma_items_view_push(items.drop_first(), item);
        assert(items.push(item).drop_first() =~= items.drop_first().push(item));
        assert(items.push(item).first() == items.first());
        assert(seq![item_view(items.first())] + (items_view(items.drop_first()) + seq![
            item_view(item),
        ]) =~= (seq![item_view(items.first())] + items_view(items.drop_first())) + seq![
            item_view(item),
        ]);
    }
}

/// A list of items and its view have the same length.
pub proof fn lemma_items_view_len(items: Seq<Item>)
    ensures
        items_view(items).len() == items.len(),
    decreases items.len(),
{
    if items.len() == 0 {
    } else {
        lemma_items_view_len(items.drop_first());
    }
}

/// The view of a list of items, at one position.
pub proof fn lemma_items_view_index(items: Seq<Item>, i: int)
    requires
        0 <= i < items.len(),
    ensures
        items_view(items).len() == items.len(),
        items_view(items)[i] == item_view(items[i]),
    decreases items.len(),
{
    lemma_items_view_len(items);
    lemma_items_view_len(items.drop_first());
    if i == 0 {
        assert(items_view(items)[0] == item_view(items.first()));
    } else {
        lemma_items_view_index(items.drop_first(), i - 1);
        assert(items.drop_first()[i - 1] == items[i]);
        assert(items_view(items)[i] == items_view(items.drop_first())[i - 1]);
    }
}

/// Concatenating two item lists viewed: the views concatenate.
pub proof fn lemma_items_view_concat(left: Seq<Item>, right: Seq<Item>)
    ensures
        items_view(left + right) == items_view(left) + items_view(right),
    decreases left.len(),
{
    if left.len() == 0 {
        assert(left + right =~= right);
        assert(items_view(left) + items_view(right) =~= items_view(right));
    } else {
        lemma_items_view_concat(left.drop_first(), right);
        assert((left + right).drop_first() =~= left.drop_first() + right);
        assert((left + right).first() == left.first());
        assert(seq![item_view(left.first())] + (items_view(left.drop_first()) + items_view(
            right,
        )) =~= (seq![item_view(left.first())] + items_view(left.drop_first())) + items_view(
            right,
        ));
    }
}

impl View for Text {
    type V = TextView;

    open spec fn view(&self) -> TextView {
        text_view(*self)
    }
}

impl View for Item {
    type V = ItemView;

    open spec fn view(&self) -> ItemView {
        item_view(*self)
    }
}

impl View for Node {
    type V = NodeView;

    open spec fn view(&self) -> NodeView {
        match self {
            Node::HorizontalRule => NodeView::HorizontalRule,
            Node::PageBreak => NodeView::PageBreak,
            Node::Paragraph(text) => NodeView::Paragraph(text_view(*text)),
        }
    }
}

} // verus!
