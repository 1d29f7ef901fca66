use vstd::prelude::*;

verus! {

/// The kinds of list that the inline parser recognises.
#[derive(Debug, Clone, PartialEq, Eq)]
pub enum OrgListType {
    Bullet,
}

/// One inline node of a line: text, emphasis, links, footnotes, lists.
#[derive(Debug, PartialEq)]
pub enum OrgSectionContent {
    Text(String),
    Bold(Vec<OrgSectionContent>),
    Italic(Vec<OrgSectionContent>),
    Underlined(Vec<OrgSectionContent>),
    Verbatim(Vec<OrgSectionContent>),
    Code(Vec<OrgSectionContent>),
    Strikethrough(Vec<OrgSectionContent>),
    Footnote { name: Option<String>, content: Vec<OrgSectionContent> },
    List(OrgListEntry),
    Link { link: String, label: Vec<OrgSectionContent> },
    Newline,
}

/// A list and its items.
#[derive(Debug, PartialEq)]
pub struct OrgListEntry {
    pub ty: OrgListType,
    pub values: Vec<OrgListValue>,
}

/// One item of a list.
#[derive(Debug, PartialEq)]
pub enum OrgListValue {
    Content(Vec<OrgSectionContent>),
    SubList(Box<OrgListEntry>),
}

/// A headline: its level (number of leading stars), an optional TODO/DONE keyword
/// and its inline content.
#[derive(Debug, Default, PartialEq)]
pub struct OrgHeadline {
    pub level: u8,
    pub keyword: Option<String>,
    pub content: Vec<OrgSectionContent>,
}

/// A section: an optional headline and the body that follows it.
#[derive(Debug, Default, PartialEq)]
pub struct OrgSection {
    pub headline: Option<OrgHeadline>,
    pub children: Vec<OrgSectionContent>,
}

/// A `#+KEY: VALUE` line.
#[derive(Debug, PartialEq)]
pub struct OrgKeyword {
    pub key: String,
    pub value: String,
}

/// A top-level unit of a document.
#[derive(Debug, PartialEq)]
pub enum OrgContent {
    Comment(String),
    Section(OrgSection),
    Keyword(OrgKeyword),
}

/// A parsed document: its top-level content in order.
#[derive(Debug, Default, PartialEq)]
pub struct OrgDocument {
    pub content: Vec<OrgContent>,
}

// ---------------------------------------------------------------------------
// Mathematical model of the tree.

/// The six emphasis kinds, by their delimiter character.
pub enum Emph {
    Bold,
    Italic,
    Underlined,
    Verbatim,
    Code,
    Strikethrough,
}

/// Model of an inline node.
pub enum Inline {
    Text(Seq<char>),
    Emphasis(Emph, Seq<Inline>),
    Footnote(Option<Seq<char>>, Seq<Inline>),
    /// A list: each item is either the content of one entry, or a nested list.
    List(Seq<ListItem>),
    Link(Seq<char>, Seq<Inline>),
    Newline,
}

/// Model of a list item.
pub enum ListItem {
    Content(Seq<Inline>),
    SubList(Seq<ListItem>),
}

/// Model of a headline: level, keyword and content.
pub struct HeadlineModel {
    pub level: nat,
    pub keyword: Option<Seq<char>>,
    pub content: Seq<Inline>,
}

/// Model of a top-level unit.
pub enum Block {
    Comment(Seq<char>),
    Keyword(Seq<char>, Seq<char>),
    Section(Option<HeadlineModel>, Seq<Inline>),
}

pub open spec fn view_opt_str(o: Option<String>) -> Option<Seq<char>> {
    match o {
        Some(s) => Some(s@),
        None => None,
    }
}

pub open spec fn view_node(n: OrgSectionContent) -> Inline
    decreases n, 1nat,
{
    match n {
        OrgSectionContent::Text(s) => Inline::Text(s@),
        OrgSectionContent::Bold(v) => Inline::Emphasis(Emph::Bold, view_nodes(v@)),
        OrgSectionContent::Italic(v) => Inline::Emphasis(Emph::Italic, view_nodes(v@)),
        OrgSectionContent::Underlined(v) => Inline::Emphasis(Emph::Underlined, view_nodes(v@)),
        OrgSectionContent::Verbatim(v) => Inline::Emphasis(Emph::Verbatim, view_nodes(v@)),
        OrgSectionContent::Code(v) => Inline::Emphasis(Emph::Code, view_nodes(v@)),
        OrgSectionContent::Strikethrough(v) => Inline::Emphasis(Emph::Strikethrough, view_nodes(v@)),
        OrgSectionContent::Footnote { name, content } => Inline::Footnote(view_opt_str(name), view_nodes(content@)),
        OrgSectionContent::List(l) => Inline::List(view_items(l.values@)),
        OrgSectionContent::Link { link, label } => Inline::Link(link@, view_nodes(label@)),
        OrgSectionContent::Newline => Inline::Newline,
    }
}

pub open spec fn view_nodes(v: Seq<OrgSectionContent>) -> Seq<Inline>
    decreases v, 0nat,
{
    if v.len() == 0 {
        Seq::empty()
    } else {
        seq![view_node(v[0])] + view_nodes(v.subrange(1, v.len() as int))
    }
}

pub open spec fn view_item(it: OrgListValue) -> ListItem
    decreases it, 1nat,
{
    match it {
        OrgListValue::Content(v) => ListItem::Content(view_nodes(v@)),
        OrgListValue::SubList(b) => ListItem::SubList(view_items(b.values@)),
    }
}

pub open spec fn view_items(v: Seq<OrgListValue>) -> Seq<ListItem>
    decreases v, 0nat,
{
    if v.len() == 0 {
        Seq::empty()
    } else {
        seq![view_item(v[0])] + view_items(v.subrange(1, v.len() as int))
    }
}


pub proof fn lemma_view_nodes(v: Seq<OrgSectionContent>)
    ensures
        view_nodes(v).len() == v.len(),
        forall|i: int| 0 <= i < v.len() ==> #[trigger] view_nodes(v)[i] == view_node(v[i]),
    decreases v.len(),
{
    if v.len() > 0 {
        let t = v.subrange(1, v.len() as int);
        lemma_view_nodes(t);
        assert forall|i: int| 0 <= i < v.len() implies #[trigger] view_nodes(v)[i] == view_node(v[i]) by {
            if i > 0 {
                assert(t[i - 1] == v[i]);
            }
        }
    }
}

pub proof fn lemma_view_items(v: Seq<OrgListValue>)
    ensures
        view_items(v).len() == v.len(),
        forall|i: int| 0 <= i < v.len() ==> #[trigger] view_items(v)[i] == view_item(v[i]),
    decreases v.len(),
{
    if v.len() > 0 {
        let t = v.subrange(1, v.len() as int);
        lemma_view_items(t);
        assert forall|i: int| 0 <= i < v.len() implies #[trigger] view_items(v)[i] == view_item(v[i]) by {
            if i > 0 {
                assert(t[i - 1] == v[i]);
            }
        }
    }
}

pub proof fn lemma_view_nodes_concat(a: Seq<OrgSectionContent>, b: Seq<OrgSectionContent>)
    ensures
        view_nodes(a + b) == view_nodes(a) + view_nodes(b),
{
    lemma_view_nodes(a);
    lemma_view_nodes(b);
    lemma_view_nodes(a + b);
    assert(view_nodes(a + b) =~= view_nodes(a) + view_nodes(b));
}

pub proof fn lemma_view_nodes_push(a: Seq<OrgSectionContent>, x: OrgSectionContent)
    ensures
        view_nodes(a.push(x)) == view_nodes(a).push(view_node(x)),
{
    lemma_view_nodes(a);
    lemma_view_nodes(a.push(x));
    assert(view_nodes(a.push(x)) =~= view_nodes(a).push(view_node(x)));
}

pub proof fn lemma_view_items_push(a: Seq<OrgListValue>, x: OrgListValue)
    ensures
        view_items(a.push(x)) == view_items(a).push(view_item(x)),
{
    lemma_view_items(a);
    lemma_view_items(a.push(x));
    assert(view_items(a.push(x)) =~= view_items(a).push(view_item(x)));
}

pub proof fn lemma_view_nodes_empty(a: Seq<OrgSectionContent>)
    ensures
        a.len() == 0 ==> view_nodes(a) == Seq::<Inline>::empty(),
{
    lemma_view_nodes(a);
    if a.len() == 0 {
        assert(view_nodes(a) =~= Seq::<Inline>::empty());
    }
}

} // verus!
