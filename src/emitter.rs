use vstd::prelude::*;
use crate::ast::{
    lemma_view_nodes, lemma_view_items, view_node, view_nodes, view_item, view_items, Emph, Inline, ListItem,
    OrgContent, OrgDocument, OrgListValue, OrgSectionContent,
};
use crate::parser::{view_block, view_opt_headline};
use crate::ast::{Block, HeadlineModel};
use crate::text::{push_char, push_str_to};
use crate::toc::{digit, digit_char, place, unique_slug, Toc, TocNode};

verus! {

// ---------------------------------------------------------------------------
// What the HTML of a document is.

/// HTML escaping of one character.
pub open spec fn escape_char(c: char) -> Seq<char> {
    if c == '&' {
        "&amp;"@
    } else if c == '<' {
        "&lt;"@
    } else if c == '>' {
        "&gt;"@
    } else if c == '"' {
        "&quot;"@
    } else if c == '\'' {
        "&#x27;"@
    } else if c == '/' {
        "&#x2F;"@
    } else {
        seq![c]
    }
}

/// HTML escaping of text.
pub open spec fn escape(s: Seq<char>) -> Seq<char>
    decreases s.len(),
{
    if s.len() == 0 {
        Seq::empty()
    } else {
        escape(s.drop_last()) + escape_char(s.last())
    }
}

/// The decimal digits of `n`.
pub open spec fn decimal_of(n: nat) -> Seq<char>
    decreases n,
{
    if n < 10 {
        seq![digit(n as int)]
    } else {
        decimal_of(n / 10).push(digit((n % 10) as int))
    }
}

pub open spec fn open_tag(k: Emph) -> Seq<char> {
    match k {
        Emph::Bold => "<b>"@,
        Emph::Italic => "<i>"@,
        Emph::Underlined => "<u>"@,
        Emph::Strikethrough => "<s>"@,
        _ => Seq::empty(),
    }
}

pub open spec fn close_tag(k: Emph) -> Seq<char> {
    match k {
        Emph::Bold => "</b>"@,
        Emph::Italic => "</i>"@,
        Emph::Underlined => "</u>"@,
        Emph::Strikethrough => "</s>"@,
        _ => Seq::empty(),
    }
}

/// The opening tag of a link: a target starting with `/` is under the base URL, any other
/// is external.
pub open spec fn link_open(base: Seq<char>, target: Seq<char>) -> Seq<char> {
    if target.len() > 0 && target[0] == '/' {
        "<a href=\""@ + base + target + "\">"@
    } else {
        "<a href=\""@ + target + "\" rel=\"noreferrer noopener\">"@
    }
}

/// The reference to footnote `k`.
pub open spec fn footnote_ref(k: nat) -> Seq<char> {
    "<sup><a href=\"#fn"@ + decimal_of(k) + "\" id=\"fns"@ + decimal_of(k) + "\">"@ + decimal_of(k) + "</a></sup>"@
}

/// The HTML of a sequence of nodes, and the footnote bodies collected on the way. `collect`
/// says whether footnotes may occur here (not inside a footnote's own body). `None` stands
/// for a construct that is not supported: a named footnote, a nested one, a nested list.
pub open spec fn emit_seq(collect: bool, notes: Seq<Seq<char>>, base: Seq<char>, nodes: Seq<Inline>) -> Option<(Seq<Seq<char>>, Seq<char>)>
    decreases nodes, 0nat,
{
    if nodes.len() == 0 {
        Some((notes, Seq::empty()))
    } else {
        match emit_seq(collect, notes, base, nodes.drop_last()) {
            Some((n1, h1)) => match emit_one(collect, n1, base, nodes.last()) {
                Some((n2, h2)) => Some((n2, h1 + h2)),
                None => None,
            },
            None => None,
        }
    }
}

pub open spec fn emit_one(collect: bool, notes: Seq<Seq<char>>, base: Seq<char>, n: Inline) -> Option<(Seq<Seq<char>>, Seq<char>)>
    decreases n, 1nat,
{
    match n {
        Inline::Text(t) => Some((notes, escape(t))),
        Inline::Emphasis(k, inner) => match emit_seq(collect, notes, base, inner) {
            Some((n1, h)) => Some((n1, open_tag(k) + h + close_tag(k))),
            None => None,
        },
        Inline::Link(target, label) => match emit_seq(collect, notes, base, label) {
            Some((n1, h)) => Some((n1, link_open(base, target) + h + "</a>"@)),
            None => None,
        },
        Inline::Footnote(name, body) => if !collect || name is Some {
            None
        } else {
            match emit_seq(false, Seq::empty(), base, body) {
                Some((_, h)) => Some((notes.push(h), footnote_ref((notes.len() + 1) as nat))),
                None => None,
            }
        },
        Inline::List(items) => match emit_items(collect, notes, base, items) {
            Some((n1, h)) => Some((n1, "<ul>"@ + h + "</ul>"@)),
            None => None,
        },
        Inline::Newline => Some((notes, "</p><p>"@)),
    }
}

pub open spec fn emit_items(collect: bool, notes: Seq<Seq<char>>, base: Seq<char>, items: Seq<ListItem>) -> Option<(Seq<Seq<char>>, Seq<char>)>
    decreases items, 0nat,
{
    if items.len() == 0 {
        Some((notes, Seq::empty()))
    } else {
        match emit_items(collect, notes, base, items.drop_last()) {
            Some((n1, h1)) => match emit_item(collect, n1, base, items.last()) {
                Some((n2, h2)) => Some((n2, h1 + h2)),
                None => None,
            },
            None => None,
        }
    }
}

pub open spec fn emit_item(collect: bool, notes: Seq<Seq<char>>, base: Seq<char>, it: ListItem) -> Option<(Seq<Seq<char>>, Seq<char>)>
    decreases it, 1nat,
{
    match it {
        ListItem::Content(nodes) => match emit_seq(collect, notes, base, nodes) {
            Some((n1, h)) => Some((n1, "<li>"@ + h + "</li>"@)),
            None => None,
        },
        ListItem::SubList(_) => None,
    }
}


pub open spec fn view_strs(v: Seq<String>) -> Seq<Seq<char>> {
    Seq::new(v.len(), |i: int| v[i]@)
}

proof fn lemma_emit_seq_none(c: bool, n: Seq<Seq<char>>, b: Seq<char>, s: Seq<Inline>, i: int)
    requires
        0 <= i <= s.len(),
        emit_seq(c, n, b, s.take(i)) is None,
    ensures
        emit_seq(c, n, b, s) is None,
    decreases s.len() - i,
{
    if i < s.len() {
        assert(s.take(i + 1).drop_last() =~= s.take(i));
        lemma_emit_seq_none(c, n, b, s, i + 1);
    } else {
        assert(s.take(i) =~= s);
    }
}

proof fn lemma_emit_items_none(c: bool, n: Seq<Seq<char>>, b: Seq<char>, s: Seq<ListItem>, i: int)
    requires
        0 <= i <= s.len(),
        emit_items(c, n, b, s.take(i)) is None,
    ensures
        emit_items(c, n, b, s) is None,
    decreases s.len() - i,
{
    if i < s.len() {
        assert(s.take(i + 1).drop_last() =~= s.take(i));
        lemma_emit_items_none(c, n, b, s, i + 1);
    } else {
        assert(s.take(i) =~= s);
    }
}

/// Errors of the emitter.
#[derive(Debug, PartialEq, Eq)]
pub enum OrgError {
    /// A construct that the emitter does not support: a named footnote, a footnote inside a
    /// footnote, a nested list.
    Unsupported,
    /// No free anchor for a heading.
    SlugExhausted,
    /// Highlighting does not know the language of a source block.
    UnknownSyntax(String),
    /// Highlighting does not know the theme.
    UnknownSyntaxTheme(String),
}

/// Appends the HTML-escaped text.
pub fn push_escaped(out: &mut String, t: &str)
    ensures
        final(out)@ == old(out)@ + escape(t@),
{
    let cs = crate::text::str_chars(t);
    let ghost out0 = out@;
    let mut i: usize = 0;
    while i < cs.len()
        invariant
            i <= cs@.len(),
            cs@ == t@,
            out@ == out0 + escape(cs@.take(i as int)),
        decreases cs@.len() - i,
    {
        let c = cs[i];
        proof {
            assert(cs@.take(i + 1).drop_last() =~= cs@.take(i as int));
            assert(cs@.take(i + 1).last() == c);
        }
        if c == '&' {
            push_str_to(out, "&amp;");
        } else if c == '<' {
            push_str_to(out, "&lt;");
        } else if c == '>' {
            push_str_to(out, "&gt;");
        } else if c == '"' {
            push_str_to(out, "&quot;");
        } else if c == '\'' {
            push_str_to(out, "&#x27;");
        } else if c == '/' {
            push_str_to(out, "&#x2F;");
        } else {
            push_char(out, c);
        }
        proof {
            assert(out@ =~= out0 + escape(cs@.take(i + 1)));
        }
        i = i + 1;
    }
    proof {
        assert(cs@.take(cs@.len() as int) =~= cs@);
    }
}

/// Appends the decimal digits of `n`.
pub fn push_decimal(out: &mut String, n: usize)
    ensures
        final(out)@ == old(out)@ + decimal_of(n as nat),
    decreases n,
{
    if n < 10 {
        push_char(out, digit_char(n));
        proof {
            assert(final(out)@ =~= old(out)@ + decimal_of(n as nat));
        }
    } else {
        push_decimal(out, n / 10);
        push_char(out, digit_char(n % 10));
        proof {
            assert(final(out)@ =~= old(out)@ + decimal_of(n as nat));
        }
    }
}

pub(crate) fn push_link_open(out: &mut String, base: &str, target: &String)
    ensures
        final(out)@ == old(out)@ + link_open(base@, target@),
{
    let cs = crate::text::str_chars(target.as_str());
    if cs.len() > 0 && cs[0] == '/' {
        push_str_to(out, "<a href=\"");
        push_str_to(out, base);
        push_str_to(out, target.as_str());
        push_str_to(out, "\">");
    } else {
        push_str_to(out, "<a href=\"");
        push_str_to(out, target.as_str());
        push_str_to(out, "\" rel=\"noreferrer noopener\">");
    }
    proof {
        assert(final(out)@ =~= old(out)@ + link_open(base@, target@));
    }
}

pub(crate) fn push_footnote_ref(out: &mut String, k: usize)
    ensures
        final(out)@ == old(out)@ + footnote_ref(k as nat),
{
    push_str_to(out, "<sup><a href=\"#fn");
    push_decimal(out, k);
    push_str_to(out, "\" id=\"fns");
    push_decimal(out, k);
    push_str_to(out, "\">");
    push_decimal(out, k);
    push_str_to(out, "</a></sup>");
    proof {
        assert(final(out)@ =~= old(out)@ + footnote_ref(k as nat));
    }
}

/// Appends the HTML of a sequence of nodes; footnote bodies go to `notes` when `collect` holds.
fn emit_nodes(nodes: &Vec<OrgSectionContent>, base: &str, collect: bool, notes: &mut Vec<String>, out: &mut String) -> (r: Result<(), OrgError>)
    ensures
        match emit_seq(collect, view_strs(old(notes)@), base@, view_nodes(nodes@)) {
            Some((n2, h)) => r is Ok && view_strs(final(notes)@) == n2 && final(out)@ == old(out)@ + h,
            None => r is Err,
        },
    decreases nodes@, 0nat,
{
    let ghost v = view_nodes(nodes@);
    let ghost n0 = view_strs(notes@);
    let ghost out0 = out@;
    proof {
        lemma_view_nodes(nodes@);
        assert(v.take(0) =~= Seq::<Inline>::empty());
        assert(out@ =~= out0 + Seq::<char>::empty());
    }
    let mut i: usize = 0;
    while i < nodes.len()
        invariant
            i <= nodes@.len(),
            v == view_nodes(nodes@),
            v.len() == nodes@.len(),
            n0 == view_strs(old(notes)@),
            out0 == old(out)@,
            forall|j: int| 0 <= j < nodes@.len() ==> #[trigger] v[j] == view_node(nodes@[j]),
            emit_seq(collect, n0, base@, v.take(i as int)) matches Some((nn, h)) && nn == view_strs(notes@) && out@ == out0 + h,
        decreases nodes@.len() - i,
    {
        let ghost pre_out = out@;
        proof {
            assert(v.take(i + 1).drop_last() =~= v.take(i as int));
            assert(v.take(i + 1).last() == view_node(nodes@[i as int]));
        }
        let res = emit_node(&nodes[i], base, collect, notes, out);
        match res {
            Ok(()) => {
                proof {
                    let h = emit_seq(collect, n0, base@, v.take(i as int))->Some_0.1;
                    let h2 = emit_one(collect, emit_seq(collect, n0, base@, v.take(i as int))->Some_0.0, base@, view_node(nodes@[i as int]))->Some_0.1;
                    assert(out@ =~= out0 + (h + h2));
                }
            },
            Err(e) => {
                proof {
                    assert(emit_seq(collect, n0, base@, v.take(i + 1)) is None);
                    lemma_emit_seq_none(collect, n0, base@, v, i + 1);
                }
                return Err(e);
            },
        }
        i = i + 1;
    }
    proof {
        assert(v.take(nodes@.len() as int) =~= v);
    }
    Ok(())
}

fn emit_list_items(items: &Vec<OrgListValue>, base: &str, collect: bool, notes: &mut Vec<String>, out: &mut String) -> (r: Result<(), OrgError>)
    ensures
        match emit_items(collect, view_strs(old(notes)@), base@, view_items(items@)) {
            Some((n2, h)) => r is Ok && view_strs(final(notes)@) == n2 && final(out)@ == old(out)@ + h,
            None => r is Err,
        },
    decreases items@, 0nat,
{
    let ghost v = view_items(items@);
    let ghost n0 = view_strs(notes@);
    let ghost out0 = out@;
    proof {
        lemma_view_items(items@);
        assert(v.take(0) =~= Seq::<ListItem>::empty());
        assert(out@ =~= out0 + Seq::<char>::empty());
    }
    let mut i: usize = 0;
    while i < items.len()
        invariant
            i <= items@.len(),
            v == view_items(items@),
            v.len() == items@.len(),
            n0 == view_strs(old(notes)@),
            out0 == old(out)@,
            forall|j: int| 0 <= j < items@.len() ==> #[trigger] v[j] == view_item(items@[j]),
            emit_items(collect, n0, base@, v.take(i as int)) matches Some((nn, h)) && nn == view_strs(notes@) && out@ == out0 + h,
        decreases items@.len() - i,
    {
        proof {
            assert(v.take(i + 1).drop_last() =~= v.take(i as int));
            assert(v.take(i + 1).last() == view_item(items@[i as int]));
        }
        match &items[i] {
            OrgListValue::Content(nodes) => {
                let ghost pre = out@;
                push_str_to(out, "<li>");
                let res = emit_nodes(nodes, base, collect, notes, out);
                match res {
                    Ok(()) => {
                        push_str_to(out, "</li>");
                        proof {
                            let h = emit_items(collect, n0, base@, v.take(i as int))->Some_0.1;
                            let h2 = emit_item(collect, emit_items(collect, n0, base@, v.take(i as int))->Some_0.0, base@, view_item(items@[i as int]))->Some_0.1;
                            assert(out@ =~= out0 + (h + h2));
                        }
                    },
                    Err(e) => {
                        proof {
                            assert(view_item(items@[i as int]) == ListItem::Content(view_nodes(nodes@)));
                            assert(emit_items(collect, n0, base@, v.take(i + 1)) is None);
                            lemma_emit_items_none(collect, n0, base@, v, i + 1);
                        }
                        return Err(e);
                    },
                }
            },
            OrgListValue::SubList(_) => {
                proof {
                    assert(emit_items(collect, n0, base@, v.take(i + 1)) is None);
                    lemma_emit_items_none(collect, n0, base@, v, i + 1);
                }
                return Err(OrgError::Unsupported);
            },
        }
        i = i + 1;
    }
    proof {
        assert(v.take(items@.len() as int) =~= v);
    }
    Ok(())
}

fn emit_wrapped(open: &str, nodes: &Vec<OrgSectionContent>, close: &str, base: &str, collect: bool, notes: &mut Vec<String>, out: &mut String) -> (r: Result<(), OrgError>)
    ensures
        match emit_seq(collect, view_strs(old(notes)@), base@, view_nodes(nodes@)) {
            Some((n2, h)) => r is Ok && view_strs(final(notes)@) == n2 && final(out)@ == old(out)@ + open@ + h + close@,
            None => r is Err,
        },
    decreases nodes@, 1nat,
{
    push_str_to(out, open);
    let res = emit_nodes(nodes, base, collect, notes, out);
    match res {
        Ok(()) => {
            push_str_to(out, close);
            proof {
                let h = emit_seq(collect, view_strs(old(notes)@), base@, view_nodes(nodes@))->Some_0.1;
                assert(final(out)@ =~= old(out)@ + open@ + h + close@);
            }
            Ok(())
        },
        Err(e) => Err(e),
    }
}

/// Appends the HTML of one node.
fn emit_node(node: &OrgSectionContent, base: &str, collect: bool, notes: &mut Vec<String>, out: &mut String) -> (r: Result<(), OrgError>)
    ensures
        match emit_one(collect, view_strs(old(notes)@), base@, view_node(*node)) {
            Some((n2, h)) => r is Ok && view_strs(final(notes)@) == n2 && final(out)@ == old(out)@ + h,
            None => r is Err,
        },
    decreases node, 2nat,
{
    match node {
        OrgSectionContent::Text(t) => {
            let ts = t.as_str();
            push_escaped(out, ts);
            proof {
                assert(ts@ == t@);
                assert(view_node(*node) == Inline::Text(t@));
                assert(emit_one(collect, view_strs(old(notes)@), base@, view_node(*node)) == Some((view_strs(old(notes)@), escape(t@))));
            }
            Ok(())
        },
        OrgSectionContent::Bold(inner) => emit_wrapped("<b>", inner, "</b>", base, collect, notes, out),
        OrgSectionContent::Italic(inner) => emit_wrapped("<i>", inner, "</i>", base, collect, notes, out),
        OrgSectionContent::Underlined(inner) => emit_wrapped("<u>", inner, "</u>", base, collect, notes, out),
        OrgSectionContent::Strikethrough(inner) => emit_wrapped("<s>", inner, "</s>", base, collect, notes, out),
        OrgSectionContent::Verbatim(inner) => emit_nodes(inner, base, collect, notes, out),
        OrgSectionContent::Code(inner) => emit_nodes(inner, base, collect, notes, out),
        OrgSectionContent::Link { link, label } => {
            let ghost pre = out@;
            push_link_open(out, base, link);
            let ghost mid = out@;
            let res = emit_nodes(label, base, collect, notes, out);
            match res {
                Ok(()) => {
                    push_str_to(out, "</a>");
                    proof {
                        let h = emit_seq(collect, view_strs(old(notes)@), base@, view_nodes(label@))->Some_0.1;
                        assert(final(out)@ =~= pre + (link_open(base@, link@) + h + "</a>"@));
                    }
                    Ok(())
                },
                Err(e) => Err(e),
            }
        },
        OrgSectionContent::Footnote { name, content } => {
            if !collect || name.is_some() {
                return Err(OrgError::Unsupported);
            }
            let mut body = String::new();
            let mut inner_notes: Vec<String> = Vec::new();
            proof {
                assert(view_strs(inner_notes@) =~= Seq::<Seq<char>>::empty());
                assert(body@ =~= Seq::<char>::empty());
            }
            let res = emit_nodes(content, base, false, &mut inner_notes, &mut body);
            match res {
                Ok(()) => {
                    let ghost n0 = view_strs(notes@);
                    notes.push(body);
                    proof {
                        assert(view_strs(notes@) =~= n0.push(body@));
                    }
                    let k = notes.len();
                    push_footnote_ref(out, k);
                    Ok(())
                },
                Err(e) => Err(e),
            }
        },
        OrgSectionContent::List(l) => {
            let ghost pre = out@;
            push_str_to(out, "<ul>");
            let res = emit_list_items(&l.values, base, collect, notes, out);
            match res {
                Ok(()) => {
                    push_str_to(out, "</ul>");
                    proof {
                        let h = emit_items(collect, view_strs(old(notes)@), base@, view_items(l.values@))->Some_0.1;
                        assert(final(out)@ =~= pre + ("<ul>"@ + h + "</ul>"@));
                    }
                    Ok(())
                },
                Err(e) => Err(e),
            }
        },
        OrgSectionContent::Newline => {
            push_str_to(out, "</p><p>");
            Ok(())
        },
    }
}


// ---------------------------------------------------------------------------
// Documents.

/// The plain text of nodes: their text with the formatting taken away.
pub open spec fn plain_seq(nodes: Seq<Inline>) -> Seq<char>
    decreases nodes, 0nat,
{
    if nodes.len() == 0 {
        Seq::empty()
    } else {
        plain_seq(nodes.drop_last()) + plain_one(nodes.last())
    }
}

pub open spec fn plain_one(n: Inline) -> Seq<char>
    decreases n, 1nat,
{
    match n {
        Inline::Text(t) => t,
        Inline::Emphasis(_, inner) => plain_seq(inner),
        Inline::Link(_, label) => plain_seq(label),
        _ => Seq::empty(),
    }
}

/// What the emitter has gathered: the table of contents (its entries and the anchors given
/// out) and the footnote bodies, in the order met.
pub struct EmitState {
    pub entries: Seq<TocNode>,
    pub used: Seq<Seq<char>>,
    pub notes: Seq<Seq<char>>,
}

pub open spec fn clamp_level(l: nat) -> nat {
    if l < 1 {
        1
    } else if l > 6 {
        6
    } else {
        l
    }
}

/// The opening of a heading of level `l` with anchor `slug`.
pub open spec fn heading_open(l: nat, slug: Seq<char>) -> Seq<char> {
    "<h"@ + decimal_of(l) + " id=\""@ + slug + "\"><a href=\"#"@ + slug + "\">"@
}

/// The closing of a heading of level `l`.
pub open spec fn heading_close(l: nat) -> Seq<char> {
    "</a></h"@ + decimal_of(l) + ">"@
}

/// A heading: `<hN id="slug"><a href="#slug">title</a></hN>`, its level clamped to 1..6 and
/// its anchor taken from the table of contents.
pub open spec fn emit_head(base: Seq<char>, st: EmitState, h: Option<HeadlineModel>) -> Option<(EmitState, Seq<char>)> {
    match h {
        None => Some((st, Seq::empty())),
        Some(hm) => {
            let l = clamp_level(hm.level);
            let title = plain_seq(hm.content);
            match unique_slug(title, st.used) {
                None => None,
                Some(slug) => match emit_seq(true, st.notes, base, hm.content) {
                    Some((n1, th)) => Some((
                        EmitState { entries: place(st.entries, (l - 1) as nat, slug, title), used: st.used.push(slug), notes: n1 },
                        heading_open(l, slug) + th + heading_close(l),
                    )),
                    None => None,
                },
            }
        },
    }
}

/// A unit of the document: a section gives its heading and its body as a paragraph;
/// comments and keywords give nothing.
pub open spec fn emit_block(base: Seq<char>, st: EmitState, b: Block) -> Option<(EmitState, Seq<char>)> {
    match b {
        Block::Section(h, children) => match emit_head(base, st, h) {
            Some((st1, hh)) => if children.len() == 0 {
                Some((st1, hh))
            } else {
                match emit_seq(true, st1.notes, base, children) {
                    Some((n2, bh)) => Some((EmitState { notes: n2, ..st1 }, hh + "<p>"@ + bh + "</p>"@)),
                    None => None,
                }
            },
            None => None,
        },
        _ => Some((st, Seq::empty())),
    }
}

pub open spec fn emit_blocks(base: Seq<char>, st: EmitState, blocks: Seq<Block>) -> Option<(EmitState, Seq<char>)>
    decreases blocks.len(),
{
    if blocks.len() == 0 {
        Some((st, Seq::empty()))
    } else {
        match emit_blocks(base, st, blocks.drop_last()) {
            Some((st1, h1)) => match emit_block(base, st1, blocks.last()) {
                Some((st2, h2)) => Some((st2, h1 + h2)),
                None => None,
            },
            None => None,
        }
    }
}

/// The entries of the footnotes section for the first `n` bodies.
pub open spec fn footnote_items(notes: Seq<Seq<char>>, n: nat) -> Seq<char>
    decreases n,
{
    if n == 0 {
        Seq::empty()
    } else {
        footnote_items(notes, (n - 1) as nat) + "<li id=fn"@ + decimal_of(n) + "><p>"@ + notes[n - 1]
            + " <a href=#fns"@ + decimal_of(n) + ">\u{21b5}</a></p></li>"@
    }
}

/// The footnotes section that closes a document; nothing when there are no footnotes.
pub open spec fn footnotes_html(notes: Seq<Seq<char>>) -> Seq<char> {
    if notes.len() == 0 {
        Seq::empty()
    } else {
        "<hr><section id=footnotes><h2>Footnotes</h2><ol>"@ + footnote_items(notes, notes.len()) + "</ol></section>"@
    }
}

pub open spec fn empty_state() -> EmitState {
    EmitState { entries: Seq::empty(), used: Seq::empty(), notes: Seq::empty() }
}

/// The HTML of a document and what was gathered on the way.
pub open spec fn emit_doc(base: Seq<char>, blocks: Seq<Block>) -> Option<(EmitState, Seq<char>)> {
    match emit_blocks(base, empty_state(), blocks) {
        Some((st, h)) => Some((st, h + footnotes_html(st.notes))),
        None => None,
    }
}

proof fn lemma_plain_seq_take(s: Seq<Inline>, i: int)
    requires
        0 <= i < s.len(),
    ensures
        plain_seq(s.take(i + 1)) == plain_seq(s.take(i)) + plain_one(s[i]),
{
    assert(s.take(i + 1).drop_last() =~= s.take(i));
}

/// Appends the plain text of nodes.
pub(crate) fn push_plain(nodes: &Vec<OrgSectionContent>, out: &mut String)
    ensures
        final(out)@ == old(out)@ + plain_seq(view_nodes(nodes@)),
    decreases nodes@, 0nat,
{
    let ghost v = view_nodes(nodes@);
    let ghost out0 = out@;
    proof {
        lemma_view_nodes(nodes@);
        assert(v.take(0) =~= Seq::<Inline>::empty());
        assert(out@ =~= out0 + Seq::<char>::empty());
    }
    let mut i: usize = 0;
    while i < nodes.len()
        invariant
            i <= nodes@.len(),
            v == view_nodes(nodes@),
            v.len() == nodes@.len(),
            out0 == old(out)@,
            forall|j: int| 0 <= j < nodes@.len() ==> #[trigger] v[j] == view_node(nodes@[j]),
            out@ == out0 + plain_seq(v.take(i as int)),
        decreases nodes@.len() - i,
    {
        proof { lemma_plain_seq_take(v, i as int); }
        match &nodes[i] {
            OrgSectionContent::Text(t) => push_str_to(out, t.as_str()),
            OrgSectionContent::Bold(inner) => push_plain(inner, out),
            OrgSectionContent::Italic(inner) => push_plain(inner, out),
            OrgSectionContent::Underlined(inner) => push_plain(inner, out),
            OrgSectionContent::Verbatim(inner) => push_plain(inner, out),
            OrgSectionContent::Code(inner) => push_plain(inner, out),
            OrgSectionContent::Strikethrough(inner) => push_plain(inner, out),
            OrgSectionContent::Link { link: _, label } => push_plain(label, out),
            _ => {},
        }
        proof {
            assert(out@ =~= out0 + plain_seq(v.take(i + 1)));
        }
        i = i + 1;
    }
    proof {
        assert(v.take(nodes@.len() as int) =~= v);
    }
}

/// The context of one emission: the table of contents and the rendered footnote bodies.
pub struct EmitData {
    toc: Toc,
    footnotes: Vec<String>,
}

impl EmitData {
    pub closed spec fn state(&self) -> EmitState {
        EmitState { entries: self.toc.entries(), used: self.toc.used(), notes: view_strs(self.footnotes@) }
    }
}

pub(crate) fn push_heading_open(out: &mut String, level: u8, slug: &String)
    ensures
        final(out)@ == old(out)@ + heading_open(level as nat, slug@),
{
    push_str_to(out, "<h");
    push_decimal(out, level as usize);
    push_str_to(out, " id=\"");
    push_str_to(out, slug.as_str());
    push_str_to(out, "\"><a href=\"#");
    push_str_to(out, slug.as_str());
    push_str_to(out, "\">");
    proof {
        assert(final(out)@ =~= old(out)@ + heading_open(level as nat, slug@));
    }
}

pub(crate) fn push_heading_close(out: &mut String, level: u8)
    ensures
        final(out)@ == old(out)@ + heading_close(level as nat),
{
    push_str_to(out, "</a></h");
    push_decimal(out, level as usize);
    push_str_to(out, ">");
    proof {
        assert(final(out)@ =~= old(out)@ + heading_close(level as nat));
    }
}

/// Appends the HTML of a heading.
fn emit_heading(h: &Option<crate::ast::OrgHeadline>, base: &str, data: &mut EmitData, out: &mut String) -> (r: Result<(), OrgError>)
    ensures
        match emit_head(base@, old(data).state(), view_opt_headline(*h)) {
            Some((st, hh)) => r is Ok && final(data).state() == st && final(out)@ == old(out)@ + hh,
            None => r is Err,
        },
{
    match h {
        None => {
            proof { assert(final(out)@ =~= old(out)@ + Seq::<char>::empty()); }
            Ok(())
        },
        Some(hl) => {
            let level: u8 = if hl.level < 1 { 1 } else if hl.level > 6 { 6 } else { hl.level };
            let mut title = String::new();
            push_plain(&hl.content, &mut title);
            proof { assert(title@ =~= plain_seq(view_nodes(hl.content@))); }
            let slug = match data.toc.add_headline(level, title.as_str()) {
                Ok(s) => s,
                Err(_) => {
                    return Err(OrgError::SlugExhausted);
                },
            };
            let ghost pre = out@;
            push_heading_open(out, level, &slug);
            let res = emit_nodes(&hl.content, base, true, &mut data.footnotes, out);
            match res {
                Ok(()) => {
                    push_heading_close(out, level);
                    proof {
                        let th = emit_seq(true, old(data).state().notes, base@, view_nodes(hl.content@))->Some_0.1;
                        assert(out@ =~= pre + (heading_open(level as nat, slug@) + th + heading_close(level as nat)));
                    }
                    Ok(())
                },
                Err(e) => Err(e),
            }
        },
    }
}

/// Appends the HTML of one unit of the document.
fn emit_content(c: &OrgContent, base: &str, data: &mut EmitData, out: &mut String) -> (r: Result<(), OrgError>)
    ensures
        match emit_block(base@, old(data).state(), view_block(*c)) {
            Some((st, h)) => r is Ok && final(data).state() == st && final(out)@ == old(out)@ + h,
            None => r is Err,
        },
{
    match c {
        OrgContent::Section(sec) => {
            let res = emit_heading(&sec.headline, base, data, out);
            match res {
                Ok(()) => {},
                Err(e) => {
                    return Err(e);
                },
            }
            if sec.children.len() == 0 {
                return Ok(());
            }
            let ghost mid = out@;
            let res = emit_wrapped("<p>", &sec.children, "</p>", base, true, &mut data.footnotes, out);
            proof {
                if res is Ok {
                    let hh = mid.subrange(old(out)@.len() as int, mid.len() as int);
                    assert(mid =~= old(out)@ + hh);
                    assert(out@ =~= old(out)@ + (hh + (out@.subrange(mid.len() as int, out@.len() as int))));
                }
            }
            res
        },
        _ => {
            proof { assert(final(out)@ =~= old(out)@ + Seq::<char>::empty()); }
            Ok(())
        },
    }
}


proof fn lemma_emit_blocks_none(base: Seq<char>, st: EmitState, s: Seq<Block>, i: int)
    requires
        0 <= i <= s.len(),
        emit_blocks(base, st, s.take(i)) is None,
    ensures
        emit_blocks(base, st, s) is None,
    decreases s.len() - i,
{
    if i < s.len() {
        assert(s.take(i + 1).drop_last() =~= s.take(i));
        lemma_emit_blocks_none(base, st, s, i + 1);
    } else {
        assert(s.take(i) =~= s);
    }
}

/// Appends the footnotes section for the given bodies.
pub(crate) fn push_footnotes_section(out: &mut String, footnotes: &Vec<String>)
    ensures
        final(out)@ == old(out)@ + footnotes_html(view_strs(footnotes@)),
{
    let ghost body = out@;
    let ghost notes = view_strs(footnotes@);
    if footnotes.len() > 0 {
        push_str_to(out, "<hr><section id=footnotes><h2>Footnotes</h2><ol>");
        let ghost head = out@;
        proof {
            assert(head =~= head + footnote_items(notes, 0));
        }
        let mut k: usize = 0;
        while k < footnotes.len()
            invariant
                k <= footnotes@.len(),
                notes == view_strs(footnotes@),
                out@ == head + footnote_items(notes, k as nat),
            decreases footnotes@.len() - k,
        {
            push_str_to(out, "<li id=fn");
            push_decimal(out, k + 1);
            push_str_to(out, "><p>");
            push_str_to(out, footnotes[k].as_str());
            push_str_to(out, " <a href=#fns");
            push_decimal(out, k + 1);
            push_str_to(out, ">\u{21b5}</a></p></li>");
            proof {
                assert(notes[k as int] == footnotes@[k as int]@);
                assert(out@ =~= head + footnote_items(notes, (k + 1) as nat));
            }
            k = k + 1;
        }
        push_str_to(out, "</ol></section>");
        proof {
            assert(out@ =~= body + footnotes_html(notes));
        }
    } else {
        proof {
            assert(out@ =~= body + footnotes_html(notes));
        }
    }
}

/// Renders a document as HTML: the sections in order, then a section with the footnotes.
/// Returns the table of contents built on the way with the HTML. Fails on a construct that
/// is not supported, and when a heading finds no free anchor.
pub fn emit_document(document: &OrgDocument, base_url: &str) -> (r: Result<(Toc, String), OrgError>)
    ensures
        match emit_doc(base_url@, document.view()) {
            Some((st, h)) => r matches Ok((toc, html)) && toc.entries() == st.entries && toc.used() == st.used && html@ == h,
            None => r is Err,
        },
{
    let mut data = EmitData { toc: Toc::new(), footnotes: Vec::new() };
    let mut out = String::new();
    let ghost v = document.view();
    proof {
        assert(view_strs(data.footnotes@) =~= Seq::<Seq<char>>::empty());
        assert(v.take(0) =~= Seq::<Block>::empty());
    }
    let mut i: usize = 0;
    while i < document.content.len()
        invariant
            i <= document.content@.len(),
            v == document.view(),
            v.len() == document.content@.len(),
            emit_blocks(base_url@, empty_state(), v.take(i as int)) matches Some((st, h)) && st == data.state() && out@ == h,
        decreases document.content@.len() - i,
    {
        proof {
            assert(v.take(i + 1).drop_last() =~= v.take(i as int));
            assert(v.take(i + 1).last() == view_block(document.content@[i as int]));
        }
        let res = emit_content(&document.content[i], base_url, &mut data, &mut out);
        match res {
            Ok(()) => {},
            Err(e) => {
                proof {
                    assert(emit_blocks(base_url@, empty_state(), v.take(i + 1)) is None);
                    lemma_emit_blocks_none(base_url@, empty_state(), v, i + 1);
                }
                return Err(e);
            },
        }
        i = i + 1;
    }
    proof {
        assert(v.take(document.content@.len() as int) =~= v);
    }
    push_footnotes_section(&mut out, &data.footnotes);
    Ok((data.toc, out))
}

} // verus!
