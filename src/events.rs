use vstd::prelude::*;
use crate::ast::{Block, Emph, HeadlineModel, Inline, ListItem};
use crate::toc::{place, unique_slug, TocNode};
use crate::ast::{OrgContent, OrgDocument, lemma_view_nodes, lemma_view_items, view_node, view_nodes, view_item, view_items, view_opt_str, OrgListValue, OrgSectionContent};
use crate::emitter::{
    clamp_level, emit_block, emit_blocks, emit_head, heading_close, heading_open, plain_seq, EmitState,
    close_tag, emit_item, emit_items, emit_one, emit_seq, escape, footnote_ref, link_open, open_tag, push_escaped,
    push_footnote_ref, push_link_open, view_strs, OrgError,
};
use crate::text::push_str_to;
use crate::toc::Toc;
use crate::parser::{view_block, view_opt_headline};
use crate::emitter::{emit_doc, footnotes_html, push_footnotes_section, push_heading_close, push_heading_open, push_plain};
use vstd::string::StringExecFns;

verus! {

// ---------------------------------------------------------------------------
// The event-stream view of inline content: each node opens and closes, its children in
// between; text and line breaks only open.

/// Model of an element.
pub enum Elem {
    Text(Seq<char>),
    Emphasis(Emph),
    Link(Seq<char>),
    Footnote(Option<Seq<char>>),
    /// A list; `true` when ordered.
    List(bool),
    Item,
    SubList,
    Newline,
    /// A heading of a level, with its plain-text title.
    Heading(nat, Seq<char>),
    Paragraph,
    /// A horizontal rule.
    Rule,
    /// An export block: its back-end name and its contents.
    Export(Seq<char>, Seq<char>),
    /// A source block: its language, its contents, and what highlighting gave for it.
    Source(Seq<char>, Seq<char>, Option<Hl>),
}

/// Model of what highlighting gave for a source block: the highlighted HTML, or that the
/// language or the theme is not known.
pub enum Hl {
    Html(Seq<char>),
    UnknownSyntax,
    UnknownTheme(Seq<char>),
}

/// Why a walk failed.
pub enum Fault {
    Unsupported,
    SlugExhausted,
    UnknownSyntax(Seq<char>),
    UnknownTheme(Seq<char>),
}

/// ASCII lower case of a sequence.
pub open spec fn lower_seq(s: Seq<char>) -> Seq<char> {
    Seq::new(s.len(), |i: int| crate::toc::ascii_lower(s[i]))
}

/// A source block as HTML: without a language its escaped contents, with one the
/// highlighted HTML, inside `<pre class=code>`; a language or theme that highlighting does
/// not know is an error.
pub open spec fn source_html(lang: Seq<char>, contents: Seq<char>, hl: Option<Hl>) -> Result<Seq<char>, Fault> {
    if lang.len() == 0 {
        Ok("<pre class=code>"@ + escape(contents) + "</pre>"@)
    } else {
        match hl {
            Some(Hl::Html(h)) => Ok("<pre class=code>"@ + h + "</pre>"@),
            Some(Hl::UnknownTheme(t)) => Err(Fault::UnknownTheme(t)),
            _ => Err(Fault::UnknownSyntax(lang)),
        }
    }
}

/// Model of an event.
pub enum Ev {
    Start(Elem),
    End(Elem),
}

pub open spec fn events_seq(nodes: Seq<Inline>) -> Seq<Ev>
    decreases nodes, 0nat,
{
    if nodes.len() == 0 {
        Seq::empty()
    } else {
        events_seq(nodes.drop_last()) + events_one(nodes.last())
    }
}

pub open spec fn events_one(n: Inline) -> Seq<Ev>
    decreases n, 1nat,
{
    match n {
        Inline::Text(t) => seq![Ev::Start(Elem::Text(t))],
        Inline::Emphasis(k, inner) => seq![Ev::Start(Elem::Emphasis(k))] + events_seq(inner) + seq![Ev::End(Elem::Emphasis(k))],
        Inline::Link(t, label) => seq![Ev::Start(Elem::Link(t))] + events_seq(label) + seq![Ev::End(Elem::Link(t))],
        Inline::Footnote(name, body) => seq![Ev::Start(Elem::Footnote(name))] + events_seq(body) + seq![Ev::End(Elem::Footnote(name))],
        Inline::List(items) => seq![Ev::Start(Elem::List(false))] + events_items(items) + seq![Ev::End(Elem::List(false))],
        Inline::Newline => seq![Ev::Start(Elem::Newline)],
    }
}

pub open spec fn events_items(items: Seq<ListItem>) -> Seq<Ev>
    decreases items, 0nat,
{
    if items.len() == 0 {
        Seq::empty()
    } else {
        events_items(items.drop_last()) + events_item(items.last())
    }
}

pub open spec fn events_item(it: ListItem) -> Seq<Ev>
    decreases it, 1nat,
{
    match it {
        ListItem::Content(nodes) => seq![Ev::Start(Elem::Item)] + events_seq(nodes) + seq![Ev::End(Elem::Item)],
        ListItem::SubList(items) => seq![Ev::Start(Elem::SubList)] + events_items(items) + seq![Ev::End(Elem::SubList)],
    }
}

/// The state of the event walk: the table of contents (entries and anchors), the HTML so
/// far, the footnote bodies so far, the body of a footnote being read (output goes there
/// meanwhile), and whether a failure was met.
pub struct Walk {
    pub entries: Seq<TocNode>,
    pub used: Seq<Seq<char>>,
    pub out: Seq<char>,
    pub notes: Seq<Seq<char>>,
    pub body: Option<Seq<char>>,
    pub failed: bool,
    pub fault: Fault,
}

pub open spec fn write(w: Walk, s: Seq<char>) -> Walk {
    match w.body {
        Some(b) => Walk { body: Some(b + s), ..w },
        None => Walk { out: w.out + s, ..w },
    }
}

pub open spec fn fail(w: Walk, f: Fault) -> Walk {
    Walk { failed: true, fault: f, ..w }
}

/// One event of the walk.
pub open spec fn step(base: Seq<char>, w: Walk, ev: Ev) -> Walk {
    if w.failed {
        w
    } else {
        match ev {
            Ev::Start(Elem::Text(t)) => write(w, escape(t)),
            Ev::Start(Elem::Emphasis(k)) => write(w, open_tag(k)),
            Ev::End(Elem::Emphasis(k)) => write(w, close_tag(k)),
            Ev::Start(Elem::Link(t)) => write(w, link_open(base, t)),
            Ev::End(Elem::Link(_)) => write(w, "</a>"@),
            Ev::Start(Elem::Footnote(name)) => if name is Some || w.body is Some {
                fail(w, Fault::Unsupported)
            } else {
                Walk { body: Some(Seq::empty()), ..w }
            },
            Ev::End(Elem::Footnote(_)) => match w.body {
                Some(b) => Walk {
                    out: w.out + footnote_ref((w.notes.len() + 1) as nat),
                    notes: w.notes.push(b),
                    body: None,
                    ..w
                },
                None => fail(w, Fault::Unsupported),
            },
            Ev::Start(Elem::List(ordered)) => write(w, if ordered { "<ol>"@ } else { "<ul>"@ }),
            Ev::End(Elem::List(ordered)) => write(w, if ordered { "</ol>"@ } else { "</ul>"@ }),
            Ev::Start(Elem::Rule) => write(w, "<hr>"@),
            Ev::Start(Elem::Export(data, contents)) => if lower_seq(data) == seq!['h', 't', 'm', 'l'] {
                write(w, contents)
            } else {
                w
            },
            Ev::Start(Elem::Source(lang, contents, hl)) => match source_html(lang, contents, hl) {
                Ok(h) => write(w, h),
                Err(f) => fail(w, f),
            },
            Ev::Start(Elem::Item) => write(w, "<li>"@),
            Ev::End(Elem::Item) => write(w, "</li>"@),
            Ev::Start(Elem::SubList) => fail(w, Fault::Unsupported),
            Ev::End(Elem::SubList) => fail(w, Fault::Unsupported),
            Ev::Start(Elem::Newline) => write(w, "</p><p>"@),
            Ev::Start(Elem::Heading(l, title)) => if w.body is Some {
                fail(w, Fault::Unsupported)
            } else {
                match unique_slug(title, w.used) {
                    None => fail(w, Fault::SlugExhausted),
                    Some(slug) => Walk {
                        entries: place(w.entries, (clamp_level(l) - 1) as nat, slug, title),
                        used: w.used.push(slug),
                        out: w.out + heading_open(clamp_level(l), slug),
                        ..w
                    },
                }
            },
            Ev::End(Elem::Heading(l, _)) => write(w, heading_close(clamp_level(l))),
            Ev::Start(Elem::Paragraph) => write(w, "<p>"@),
            Ev::End(Elem::Paragraph) => write(w, "</p>"@),
            Ev::End(_) => w,
        }
    }
}

/// The walk over a sequence of events.
pub open spec fn walk(base: Seq<char>, w: Walk, evs: Seq<Ev>) -> Walk
    decreases evs.len(),
{
    if evs.len() == 0 {
        w
    } else {
        step(base, walk(base, w, evs.drop_last()), evs.last())
    }
}

pub proof fn lemma_walk_concat(base: Seq<char>, w: Walk, a: Seq<Ev>, b: Seq<Ev>)
    ensures
        walk(base, w, a + b) == walk(base, walk(base, w, a), b),
    decreases b.len(),
{
    if b.len() == 0 {
        assert(a + b =~= a);
    } else {
        assert((a + b).drop_last() =~= a + b.drop_last());
        lemma_walk_concat(base, w, a, b.drop_last());
    }
}

pub proof fn lemma_walk_failed(base: Seq<char>, w: Walk, evs: Seq<Ev>)
    requires
        w.failed,
    ensures
        walk(base, w, evs) == w,
    decreases evs.len(),
{
    if evs.len() > 0 {
        lemma_walk_failed(base, w, evs.drop_last());
    }
}

proof fn lemma_walk_one(base: Seq<char>, w: Walk, e: Ev)
    ensures
        walk(base, w, seq![e]) == step(base, w, e),
{
    let s = seq![e];
    assert(s.drop_last() =~= Seq::<Ev>::empty());
    assert(walk(base, w, Seq::<Ev>::empty()) == w);
    assert(s.last() == e);
}

proof fn lemma_walk3(base: Seq<char>, w: Walk, a: Ev, m: Seq<Ev>, c: Ev)
    ensures
        walk(base, w, seq![a] + m + seq![c]) == step(base, walk(base, step(base, w, a), m), c),
{
    lemma_walk_concat(base, w, seq![a] + m, seq![c]);
    lemma_walk_concat(base, w, seq![a], m);
    lemma_walk_one(base, w, a);
    lemma_walk_one(base, walk(base, w, seq![a] + m), c);
}

/// What the tree walk gives for nodes, applied to a walk state: the same writes, the same
/// footnotes; a failure of the tree walk is a failure of the event walk.
pub open spec fn matches_seq(base: Seq<char>, w: Walk, r: Option<(Seq<Seq<char>>, Seq<char>)>, w2: Walk) -> bool {
    match r {
        Some((n2, h)) => w2 == Walk { notes: n2, ..write(w, h) },
        None => w2.failed,
    }
}

/// A tree walk that collects no footnotes leaves the footnote bodies it is given as they are.
proof fn lemma_no_collect_seq(n: Seq<Seq<char>>, base: Seq<char>, nodes: Seq<Inline>)
    ensures
        emit_seq(false, n, base, nodes) == match emit_seq(false, Seq::empty(), base, nodes) {
            Some((_, h)) => Some((n, h)),
            None => None,
        },
    decreases nodes, 0nat,
{
    if nodes.len() > 0 {
        lemma_no_collect_seq(n, base, nodes.drop_last());
        lemma_no_collect_seq(Seq::empty(), base, nodes.drop_last());
        lemma_no_collect_one(n, base, nodes.last());
        lemma_no_collect_one(Seq::empty(), base, nodes.last());
    }
}

proof fn lemma_no_collect_one(n: Seq<Seq<char>>, base: Seq<char>, x: Inline)
    ensures
        emit_one(false, n, base, x) == match emit_one(false, Seq::empty(), base, x) {
            Some((_, h)) => Some((n, h)),
            None => None,
        },
    decreases x, 1nat,
{
    match x {
        Inline::Emphasis(_, inner) => lemma_no_collect_seq(n, base, inner),
        Inline::Link(_, label) => lemma_no_collect_seq(n, base, label),
        Inline::List(items) => lemma_no_collect_items(n, base, items),
        _ => {},
    }
}

proof fn lemma_no_collect_items(n: Seq<Seq<char>>, base: Seq<char>, items: Seq<ListItem>)
    ensures
        emit_items(false, n, base, items) == match emit_items(false, Seq::empty(), base, items) {
            Some((_, h)) => Some((n, h)),
            None => None,
        },
    decreases items, 0nat,
{
    if items.len() > 0 {
        lemma_no_collect_items(n, base, items.drop_last());
        lemma_no_collect_items(Seq::empty(), base, items.drop_last());
        lemma_no_collect_item(n, base, items.last());
        lemma_no_collect_item(Seq::empty(), base, items.last());
    }
}

proof fn lemma_no_collect_item(n: Seq<Seq<char>>, base: Seq<char>, it: ListItem)
    ensures
        emit_item(false, n, base, it) == match emit_item(false, Seq::empty(), base, it) {
            Some((_, h)) => Some((n, h)),
            None => None,
        },
    decreases it, 1nat,
{
    match it {
        ListItem::Content(nodes) => lemma_no_collect_seq(n, base, nodes),
        ListItem::SubList(_) => {},
    }
}


proof fn lemma_write_write(w: Walk, a: Seq<char>, b: Seq<char>)
    ensures
        write(write(w, a), b) == write(w, a + b),
{
    match w.body {
        Some(x) => assert(x + a + b =~= x + (a + b)),
        None => assert(w.out + a + b =~= w.out + (a + b)),
    }
}

proof fn lemma_write_empty(w: Walk)
    ensures
        write(w, Seq::empty()) == w,
{
    match w.body {
        Some(x) => assert(x + Seq::<char>::empty() =~= x),
        None => assert(w.out + Seq::<char>::empty() =~= w.out),
    }
}

/// Wrapping: the walk over `[open] + inner + [close]` when the opening and closing events
/// only write.
proof fn lemma_wrap(base: Seq<char>, w: Walk, a: Ev, m: Seq<Ev>, c: Ev, ha: Seq<char>, hc: Seq<char>, r: Option<(Seq<Seq<char>>, Seq<char>)>)
    requires
        !w.failed,
        step(base, w, a) == write(w, ha),
        forall|x: Walk| !x.failed ==> #[trigger] step(base, x, c) == write(x, hc),
        matches_seq(base, write(w, ha), r, walk(base, write(w, ha), m)),
    ensures
        matches_seq(base, w, match r {
            Some((n2, h)) => Some((n2, ha + h + hc)),
            None => None,
        }, walk(base, w, seq![a] + m + seq![c])),
{
    lemma_walk3(base, w, a, m, c);
    let w1 = write(w, ha);
    let w2 = walk(base, w1, m);
    match r {
        Some((n2, h)) => {
            lemma_write_write(w, ha, h);
            lemma_write_write(w, ha + h, hc);
            let wn = Walk { notes: n2, ..write(w, ha + h) };
            assert(w2 == wn);
            assert(write(wn, hc) == Walk { notes: n2, ..write(write(w, ha + h), hc) });
        },
        None => {},
    }
}

proof fn lemma_walk_seq(base: Seq<char>, w: Walk, nodes: Seq<Inline>)
    requires
        !w.failed,
    ensures
        matches_seq(base, w, emit_seq(w.body is None, w.notes, base, nodes), walk(base, w, events_seq(nodes))),
    decreases nodes, 0nat,
{
    if nodes.len() == 0 {
        lemma_write_empty(w);
    } else {
        let init = nodes.drop_last();
        let x = nodes.last();
        lemma_walk_concat(base, w, events_seq(init), events_one(x));
        lemma_walk_seq(base, w, init);
        let w1 = walk(base, w, events_seq(init));
        match emit_seq(w.body is None, w.notes, base, init) {
            None => {
                lemma_walk_failed(base, w1, events_one(x));
            },
            Some((n1, h1)) => {
                lemma_walk_one_node(base, w1, x);
                match emit_one(w.body is None, n1, base, x) {
                    Some((n2, h2)) => {
                        lemma_write_write(w, h1, h2);
                    },
                    None => {},
                }
            },
        }
    }
}

proof fn lemma_walk_one_node(base: Seq<char>, w: Walk, x: Inline)
    requires
        !w.failed,
    ensures
        matches_seq(base, w, emit_one(w.body is None, w.notes, base, x), walk(base, w, events_one(x))),
    decreases x, 1nat,
{
    let c = w.body is None;
    match x {
        Inline::Text(t) => {
            lemma_walk_one(base, w, Ev::Start(Elem::Text(t)));
        },
        Inline::Newline => {
            lemma_walk_one(base, w, Ev::Start(Elem::Newline));
        },
        Inline::Emphasis(k, inner) => {
            lemma_walk_seq(base, write(w, open_tag(k)), inner);
            lemma_wrap(base, w, Ev::Start(Elem::Emphasis(k)), events_seq(inner), Ev::End(Elem::Emphasis(k)), open_tag(k), close_tag(k), emit_seq(c, w.notes, base, inner));
        },
        Inline::Link(t, label) => {
            lemma_walk_seq(base, write(w, link_open(base, t)), label);
            lemma_wrap(base, w, Ev::Start(Elem::Link(t)), events_seq(label), Ev::End(Elem::Link(t)), link_open(base, t), "</a>"@, emit_seq(c, w.notes, base, label));
        },
        Inline::List(items) => {
            lemma_walk_items(base, write(w, "<ul>"@), items);
            lemma_wrap(base, w, Ev::Start(Elem::List(false)), events_items(items), Ev::End(Elem::List(false)), "<ul>"@, "</ul>"@, emit_items(c, w.notes, base, items));
        },
        Inline::Footnote(name, body) => {
            let a = Ev::Start(Elem::Footnote(name));
            let e = Ev::End(Elem::Footnote(name));
            lemma_walk3(base, w, a, events_seq(body), e);
            if name is Some || !c {
                lemma_walk_failed(base, fail(w, Fault::Unsupported), events_seq(body));
            } else {
                let w1 = Walk { body: Some(Seq::empty()), ..w };
                lemma_walk_seq(base, w1, body);
                lemma_no_collect_seq(w.notes, base, body);
                match emit_seq(false, Seq::empty(), base, body) {
                    Some((_, hb)) => {
                        assert(Seq::<char>::empty() + hb =~= hb);
                        assert(w.out + footnote_ref((w.notes.len() + 1) as nat) == write(w, footnote_ref((w.notes.len() + 1) as nat)).out);
                    },
                    None => {},
                }
            }
        },
    }
}

proof fn lemma_walk_items(base: Seq<char>, w: Walk, items: Seq<ListItem>)
    requires
        !w.failed,
    ensures
        matches_seq(base, w, emit_items(w.body is None, w.notes, base, items), walk(base, w, events_items(items))),
    decreases items, 0nat,
{
    if items.len() == 0 {
        lemma_write_empty(w);
    } else {
        let init = items.drop_last();
        let x = items.last();
        lemma_walk_concat(base, w, events_items(init), events_item(x));
        lemma_walk_items(base, w, init);
        let w1 = walk(base, w, events_items(init));
        match emit_items(w.body is None, w.notes, base, init) {
            None => {
                lemma_walk_failed(base, w1, events_item(x));
            },
            Some((n1, h1)) => {
                lemma_walk_item(base, w1, x);
                match emit_item(w.body is None, n1, base, x) {
                    Some((n2, h2)) => {
                        lemma_write_write(w, h1, h2);
                    },
                    None => {},
                }
            },
        }
    }
}

proof fn lemma_walk_item(base: Seq<char>, w: Walk, it: ListItem)
    requires
        !w.failed,
    ensures
        matches_seq(base, w, emit_item(w.body is None, w.notes, base, it), walk(base, w, events_item(it))),
    decreases it, 1nat,
{
    let c = w.body is None;
    match it {
        ListItem::Content(nodes) => {
            lemma_walk_seq(base, write(w, "<li>"@), nodes);
            lemma_wrap(base, w, Ev::Start(Elem::Item), events_seq(nodes), Ev::End(Elem::Item), "<li>"@, "</li>"@, emit_seq(c, w.notes, base, nodes));
        },
        ListItem::SubList(items) => {
            lemma_walk3(base, w, Ev::Start(Elem::SubList), events_items(items), Ev::End(Elem::SubList));
            lemma_walk_failed(base, fail(w, Fault::Unsupported), events_items(items));
        },
    }
}

/// The two ways of rendering inline content agree: walking the events of nodes gives the
/// same HTML and the same footnote bodies as walking the tree, and fails exactly where the
/// tree walk meets an unsupported construct.
pub proof fn law_event_walk_agrees(base: Seq<char>, notes: Seq<Seq<char>>, nodes: Seq<Inline>)
    ensures
        ({
            let w = walk(base, Walk { entries: Seq::empty(), used: Seq::empty(), out: Seq::empty(), notes, body: None, failed: false, fault: Fault::Unsupported }, events_seq(nodes));
            match emit_seq(true, notes, base, nodes) {
                Some((n2, h)) => !w.failed && w.body is None && w.notes == n2 && w.out == h,
                None => w.failed,
            }
        }),
{
    let w0 = Walk { entries: Seq::empty(), used: Seq::empty(), out: Seq::empty(), notes, body: None, failed: false, fault: Fault::Unsupported };
    lemma_walk_seq(base, w0, nodes);
    match emit_seq(true, notes, base, nodes) {
        Some((n2, h)) => {
            assert(Seq::<char>::empty() + h =~= h);
        },
        None => {},
    }
}


// ---------------------------------------------------------------------------
// Documents as events: each section gives its heading (opened with its level and plain
// title, the title's events, then closed) and its body as one paragraph.

pub open spec fn events_head(h: Option<HeadlineModel>) -> Seq<Ev> {
    match h {
        None => Seq::empty(),
        Some(hm) => seq![Ev::Start(Elem::Heading(hm.level, plain_seq(hm.content)))] + events_seq(hm.content)
            + seq![Ev::End(Elem::Heading(hm.level, plain_seq(hm.content)))],
    }
}

pub open spec fn events_body(children: Seq<Inline>) -> Seq<Ev> {
    if children.len() == 0 {
        Seq::empty()
    } else {
        seq![Ev::Start(Elem::Paragraph)] + events_seq(children) + seq![Ev::End(Elem::Paragraph)]
    }
}

pub open spec fn events_block(b: Block) -> Seq<Ev> {
    match b {
        Block::Section(h, children) => events_head(h) + events_body(children),
        _ => Seq::empty(),
    }
}

pub open spec fn events_doc(blocks: Seq<Block>) -> Seq<Ev>
    decreases blocks.len(),
{
    if blocks.len() == 0 {
        Seq::empty()
    } else {
        events_doc(blocks.drop_last()) + events_block(blocks.last())
    }
}

pub open spec fn state_of(w: Walk) -> EmitState {
    EmitState { entries: w.entries, used: w.used, notes: w.notes }
}

/// What the tree walk gives for units of a document, applied to a walk state.
pub open spec fn matches_doc(w: Walk, r: Option<(EmitState, Seq<char>)>, w2: Walk) -> bool {
    match r {
        Some((st, h)) => w2 == Walk { entries: st.entries, used: st.used, notes: st.notes, out: w.out + h, ..w },
        None => w2.failed,
    }
}

proof fn lemma_walk_head(base: Seq<char>, w: Walk, h: Option<HeadlineModel>)
    requires
        !w.failed,
        w.body is None,
    ensures
        matches_doc(w, emit_head(base, state_of(w), h), walk(base, w, events_head(h))),
{
    match h {
        None => {
            assert(w.out + Seq::<char>::empty() =~= w.out);
        },
        Some(hm) => {
            let title = plain_seq(hm.content);
            let a = Ev::Start(Elem::Heading(hm.level, title));
            let c = Ev::End(Elem::Heading(hm.level, title));
            lemma_walk3(base, w, a, events_seq(hm.content), c);
            match unique_slug(title, w.used) {
                None => {
                    lemma_walk_failed(base, fail(w, Fault::SlugExhausted), events_seq(hm.content));
                },
                Some(slug) => {
                    let l = clamp_level(hm.level);
                    let w1 = step(base, w, a);
                    lemma_walk_seq(base, w1, hm.content);
                    match emit_seq(true, w.notes, base, hm.content) {
                        Some((n1, th)) => {
                            assert(w1.out + th + heading_close(l) =~= w.out + (heading_open(l, slug) + th + heading_close(l)));
                        },
                        None => {},
                    }
                },
            }
        },
    }
}

proof fn lemma_walk_block(base: Seq<char>, w: Walk, b: Block)
    requires
        !w.failed,
        w.body is None,
    ensures
        matches_doc(w, emit_block(base, state_of(w), b), walk(base, w, events_block(b))),
{
    match b {
        Block::Section(h, children) => {
            lemma_walk_concat(base, w, events_head(h), events_body(children));
            lemma_walk_head(base, w, h);
            let w1 = walk(base, w, events_head(h));
            match emit_head(base, state_of(w), h) {
                None => {
                    lemma_walk_failed(base, w1, events_body(children));
                },
                Some((st1, hh)) => {
                    if children.len() == 0 {
                        assert(w1.out + Seq::<char>::empty() =~= w1.out);
                    } else {
                        lemma_walk_seq(base, write(w1, "<p>"@), children);
                        lemma_wrap(base, w1, Ev::Start(Elem::Paragraph), events_seq(children), Ev::End(Elem::Paragraph), "<p>"@, "</p>"@, emit_seq(true, w1.notes, base, children));
                        match emit_seq(true, w1.notes, base, children) {
                            Some((n2, bh)) => {
                                assert(w1.out + ("<p>"@ + bh + "</p>"@) =~= w.out + (hh + "<p>"@ + bh + "</p>"@));
                            },
                            None => {},
                        }
                    }
                },
            }
        },
        _ => {
            assert(w.out + Seq::<char>::empty() =~= w.out);
        },
    }
}

proof fn lemma_walk_blocks(base: Seq<char>, w: Walk, blocks: Seq<Block>)
    requires
        !w.failed,
        w.body is None,
    ensures
        matches_doc(w, emit_blocks(base, state_of(w), blocks), walk(base, w, events_doc(blocks))),
    decreases blocks.len(),
{
    if blocks.len() == 0 {
        assert(w.out + Seq::<char>::empty() =~= w.out);
    } else {
        let init = blocks.drop_last();
        lemma_walk_concat(base, w, events_doc(init), events_block(blocks.last()));
        lemma_walk_blocks(base, w, init);
        let w1 = walk(base, w, events_doc(init));
        match emit_blocks(base, state_of(w), init) {
            None => {
                lemma_walk_failed(base, w1, events_block(blocks.last()));
            },
            Some((st1, h1)) => {
                lemma_walk_block(base, w1, blocks.last());
                match emit_block(base, st1, blocks.last()) {
                    Some((st2, h2)) => {
                        assert(w.out + h1 + h2 =~= w.out + (h1 + h2));
                    },
                    None => {},
                }
            },
        }
    }
}

/// The two ways of rendering a document agree: walking its events gives the same HTML,
/// the same table of contents and the same footnote bodies as walking its tree, and fails
/// exactly where the tree walk fails.
pub proof fn law_document_event_walk_agrees(base: Seq<char>, blocks: Seq<Block>)
    ensures
        ({
            let w = walk(base, Walk { entries: Seq::empty(), used: Seq::empty(), out: Seq::empty(), notes: Seq::empty(), body: None, failed: false, fault: Fault::Unsupported }, events_doc(blocks));
            match emit_blocks(base, crate::emitter::empty_state(), blocks) {
                Some((st, h)) => !w.failed && w.body is None && w.out == h && w.notes == st.notes
                    && w.entries == st.entries && w.used == st.used,
                None => w.failed,
            }
        }),
{
    let w0 = Walk { entries: Seq::empty(), used: Seq::empty(), out: Seq::empty(), notes: Seq::empty(), body: None, failed: false, fault: Fault::Unsupported };
    assert(state_of(w0) == crate::emitter::empty_state());
    lemma_walk_blocks(base, w0, blocks);
    match emit_blocks(base, crate::emitter::empty_state(), blocks) {
        Some((st, h)) => {
            assert(Seq::<char>::empty() + h =~= h);
        },
        None => {},
    }
}

// ---------------------------------------------------------------------------
// Events as values.

/// An element that an event opens or closes.
#[derive(Debug, PartialEq)]
pub enum OrgElement {
    Text(String),
    Bold,
    Italic,
    Underlined,
    Verbatim,
    Code,
    Strikethrough,
    Link(String),
    Footnote(Option<String>),
    /// A list; `true` when ordered.
    List(bool),
    ListItem,
    SubList,
    Newline,
    /// A heading of a level, with its plain-text title.
    Heading(u8, String),
    Paragraph,
    /// A horizontal rule.
    Rule,
    /// An export block: its back-end name and its contents, written as they stand when the
    /// back end is `html`.
    ExportBlock { data: String, contents: String },
    /// A source block: its language, its contents, and what highlighting gave for it (no
    /// highlighting is asked for a block without a language).
    SourceBlock { language: String, contents: String, highlighted: Option<Highlighted> },
}

/// What highlighting gave for a source block: the highlighted HTML, or that the language or
/// the theme is not known. Highlighting itself reads syntax and theme sets from disk and is
/// done outside the library.
#[derive(Debug, PartialEq)]
pub enum Highlighted {
    Html(String),
    UnknownSyntax,
    UnknownTheme(String),
}

pub open spec fn view_hl(h: Option<Highlighted>) -> Option<Hl> {
    match h {
        Some(Highlighted::Html(x)) => Some(Hl::Html(x@)),
        Some(Highlighted::UnknownSyntax) => Some(Hl::UnknownSyntax),
        Some(Highlighted::UnknownTheme(t)) => Some(Hl::UnknownTheme(t@)),
        None => None,
    }
}

pub open spec fn view_error(e: OrgError) -> Fault {
    match e {
        OrgError::Unsupported => Fault::Unsupported,
        OrgError::SlugExhausted => Fault::SlugExhausted,
        OrgError::UnknownSyntax(l) => Fault::UnknownSyntax(l@),
        OrgError::UnknownSyntaxTheme(t) => Fault::UnknownTheme(t@),
    }
}

/// Renders a source block; see `source_html`.
pub fn source_block_html(language: &String, contents: &String, highlighted: &Option<Highlighted>) -> (r: Result<String, OrgError>)
    ensures
        match source_html(language@, contents@, view_hl(*highlighted)) {
            Ok(h) => r matches Ok(x) && x@ == h,
            Err(f) => r matches Err(e) && view_error(e) == f,
        },
{
    if language.as_str().is_empty() {
        let mut out = String::new();
        push_str_to(&mut out, "<pre class=code>");
        push_escaped(&mut out, contents.as_str());
        push_str_to(&mut out, "</pre>");
        proof { assert(out@ =~= "<pre class=code>"@ + escape(contents@) + "</pre>"@); }
        return Ok(out);
    }
    match highlighted {
        Some(Highlighted::Html(h)) => {
            let mut out = String::new();
            push_str_to(&mut out, "<pre class=code>");
            push_str_to(&mut out, h.as_str());
            push_str_to(&mut out, "</pre>");
            proof { assert(out@ =~= "<pre class=code>"@ + h@ + "</pre>"@); }
            Ok(out)
        },
        Some(Highlighted::UnknownTheme(t)) => Err(OrgError::UnknownSyntaxTheme(String::from_str(t.as_str()))),
        _ => Err(OrgError::UnknownSyntax(String::from_str(language.as_str()))),
    }
}

/// Whether an export block's back end is `html`, in any case.
fn is_html_backend(data: &String) -> (r: bool)
    ensures
        r == (lower_seq(data@) == seq!['h', 't', 'm', 'l']),
{
    let v = crate::text::str_chars(data.as_str());
    if v.len() != 4 {
        proof {
            if lower_seq(data@) == seq!['h', 't', 'm', 'l'] {
                assert(lower_seq(data@).len() == 4);
            }
        }
        return false;
    }
    let r = crate::toc::lower_ascii(v[0]) == 'h' && crate::toc::lower_ascii(v[1]) == 't'
        && crate::toc::lower_ascii(v[2]) == 'm' && crate::toc::lower_ascii(v[3]) == 'l';
    proof {
        if r {
            assert(lower_seq(data@) =~= seq!['h', 't', 'm', 'l']);
        } else if lower_seq(data@) == seq!['h', 't', 'm', 'l'] {
            assert(lower_seq(data@)[0] == 'h' && lower_seq(data@)[1] == 't');
            assert(lower_seq(data@)[2] == 'm' && lower_seq(data@)[3] == 'l');
        }
    }
    r
}

/// An event of the stream: an element opens or closes.
#[derive(Debug, PartialEq)]
pub enum OrgEvent {
    Start(OrgElement),
    End(OrgElement),
}

pub open spec fn view_elem(e: OrgElement) -> Elem {
    match e {
        OrgElement::Text(t) => Elem::Text(t@),
        OrgElement::Bold => Elem::Emphasis(Emph::Bold),
        OrgElement::Italic => Elem::Emphasis(Emph::Italic),
        OrgElement::Underlined => Elem::Emphasis(Emph::Underlined),
        OrgElement::Verbatim => Elem::Emphasis(Emph::Verbatim),
        OrgElement::Code => Elem::Emphasis(Emph::Code),
        OrgElement::Strikethrough => Elem::Emphasis(Emph::Strikethrough),
        OrgElement::Link(t) => Elem::Link(t@),
        OrgElement::Footnote(n) => Elem::Footnote(view_opt_str(n)),
        OrgElement::List(o) => Elem::List(o),
        OrgElement::ListItem => Elem::Item,
        OrgElement::SubList => Elem::SubList,
        OrgElement::Newline => Elem::Newline,
        OrgElement::Heading(l, t) => Elem::Heading(l as nat, t@),
        OrgElement::Paragraph => Elem::Paragraph,
        OrgElement::Rule => Elem::Rule,
        OrgElement::ExportBlock { data, contents } => Elem::Export(data@, contents@),
        OrgElement::SourceBlock { language, contents, highlighted } => Elem::Source(language@, contents@, view_hl(highlighted)),
    }
}

pub open spec fn view_ev(e: OrgEvent) -> Ev {
    match e {
        OrgEvent::Start(x) => Ev::Start(view_elem(x)),
        OrgEvent::End(x) => Ev::End(view_elem(x)),
    }
}

pub open spec fn view_events(v: Seq<OrgEvent>) -> Seq<Ev> {
    Seq::new(v.len(), |i: int| view_ev(v[i]))
}

fn push_event(evs: &mut Vec<OrgEvent>, e: OrgEvent)
    ensures
        view_events(final(evs)@) == view_events(old(evs)@) + seq![view_ev(e)],
{
    let ghost before = evs@;
    evs.push(e);
    proof {
        assert(view_events(evs@) =~= view_events(before) + seq![view_ev(e)]);
    }
}

fn emphasis_element(k: &OrgSectionContent) -> (r: OrgElement)
    requires
        k is Bold || k is Italic || k is Underlined || k is Verbatim || k is Code || k is Strikethrough,
    ensures
        view_node(*k) matches Inline::Emphasis(kind, _) && view_elem(r) == Elem::Emphasis(kind),
{
    match k {
        OrgSectionContent::Bold(_) => OrgElement::Bold,
        OrgSectionContent::Italic(_) => OrgElement::Italic,
        OrgSectionContent::Underlined(_) => OrgElement::Underlined,
        OrgSectionContent::Verbatim(_) => OrgElement::Verbatim,
        OrgSectionContent::Code(_) => OrgElement::Code,
        _ => OrgElement::Strikethrough,
    }
}

fn clone_opt(o: &Option<String>) -> (r: Option<String>)
    ensures
        view_opt_str(r) == view_opt_str(*o),
{
    match o {
        Some(s) => Some(String::from_str(s.as_str())),
        None => None,
    }
}

/// Appends the events of one node.
fn push_node_events(n: &OrgSectionContent, evs: &mut Vec<OrgEvent>)
    ensures
        view_events(final(evs)@) == view_events(old(evs)@) + events_one(view_node(*n)),
    decreases n, 2nat,
{
    let ghost e0 = view_events(evs@);
    match n {
        OrgSectionContent::Text(t) => {
            push_event(evs, OrgEvent::Start(OrgElement::Text(String::from_str(t.as_str()))));
        },
        OrgSectionContent::Newline => {
            push_event(evs, OrgEvent::Start(OrgElement::Newline));
        },
        OrgSectionContent::Link { link, label } => {
            push_event(evs, OrgEvent::Start(OrgElement::Link(String::from_str(link.as_str()))));
            push_events(label, evs);
            push_event(evs, OrgEvent::End(OrgElement::Link(String::from_str(link.as_str()))));
            proof {
                assert(view_events(evs@) =~= e0 + events_one(view_node(*n)));
            }
        },
        OrgSectionContent::Footnote { name, content } => {
            push_event(evs, OrgEvent::Start(OrgElement::Footnote(clone_opt(name))));
            push_events(content, evs);
            push_event(evs, OrgEvent::End(OrgElement::Footnote(clone_opt(name))));
            proof {
                assert(view_events(evs@) =~= e0 + events_one(view_node(*n)));
            }
        },
        OrgSectionContent::List(l) => {
            push_event(evs, OrgEvent::Start(OrgElement::List(false)));
            push_items_events(&l.values, evs);
            push_event(evs, OrgEvent::End(OrgElement::List(false)));
            proof {
                assert(view_events(evs@) =~= e0 + events_one(view_node(*n)));
            }
        },
        OrgSectionContent::Bold(inner) => push_wrapped_events(n, inner, evs),
        OrgSectionContent::Italic(inner) => push_wrapped_events(n, inner, evs),
        OrgSectionContent::Underlined(inner) => push_wrapped_events(n, inner, evs),
        OrgSectionContent::Verbatim(inner) => push_wrapped_events(n, inner, evs),
        OrgSectionContent::Code(inner) => push_wrapped_events(n, inner, evs),
        OrgSectionContent::Strikethrough(inner) => push_wrapped_events(n, inner, evs),
    }
}

fn push_wrapped_events(n: &OrgSectionContent, inner: &Vec<OrgSectionContent>, evs: &mut Vec<OrgEvent>)
    requires
        n is Bold || n is Italic || n is Underlined || n is Verbatim || n is Code || n is Strikethrough,
        view_node(*n) matches Inline::Emphasis(_, i) && i == view_nodes(inner@),
    ensures
        view_events(final(evs)@) == view_events(old(evs)@) + events_one(view_node(*n)),
    decreases inner@, 1nat,
{
    let ghost e0 = view_events(evs@);
    push_event(evs, OrgEvent::Start(emphasis_element(n)));
    push_events(inner, evs);
    push_event(evs, OrgEvent::End(emphasis_element(n)));
    proof {
        assert(view_events(evs@) =~= e0 + events_one(view_node(*n)));
    }
}

/// Appends the events of a sequence of nodes.
pub fn push_events(nodes: &Vec<OrgSectionContent>, evs: &mut Vec<OrgEvent>)
    ensures
        view_events(final(evs)@) == view_events(old(evs)@) + events_seq(view_nodes(nodes@)),
    decreases nodes@, 0nat,
{
    let ghost v = view_nodes(nodes@);
    let ghost e0 = view_events(evs@);
    proof {
        lemma_view_nodes(nodes@);
        assert(v.take(0) =~= Seq::<Inline>::empty());
        assert(e0 + Seq::<Ev>::empty() =~= e0);
    }
    let mut i: usize = 0;
    while i < nodes.len()
        invariant
            i <= nodes@.len(),
            v == view_nodes(nodes@),
            v.len() == nodes@.len(),
            e0 == view_events(old(evs)@),
            forall|j: int| 0 <= j < nodes@.len() ==> #[trigger] v[j] == view_node(nodes@[j]),
            view_events(evs@) == e0 + events_seq(v.take(i as int)),
        decreases nodes@.len() - i,
    {
        proof {
            assert(v.take(i + 1).drop_last() =~= v.take(i as int));
        }
        push_node_events(&nodes[i], evs);
        proof {
            assert(view_events(evs@) =~= e0 + events_seq(v.take(i + 1)));
        }
        i = i + 1;
    }
    proof {
        assert(v.take(nodes@.len() as int) =~= v);
    }
}

fn push_items_events(items: &Vec<OrgListValue>, evs: &mut Vec<OrgEvent>)
    ensures
        view_events(final(evs)@) == view_events(old(evs)@) + events_items(view_items(items@)),
    decreases items@, 0nat,
{
    let ghost v = view_items(items@);
    let ghost e0 = view_events(evs@);
    proof {
        lemma_view_items(items@);
        assert(v.take(0) =~= Seq::<ListItem>::empty());
        assert(e0 + Seq::<Ev>::empty() =~= e0);
    }
    let mut i: usize = 0;
    while i < items.len()
        invariant
            i <= items@.len(),
            v == view_items(items@),
            v.len() == items@.len(),
            e0 == view_events(old(evs)@),
            forall|j: int| 0 <= j < items@.len() ==> #[trigger] v[j] == view_item(items@[j]),
            view_events(evs@) == e0 + events_items(v.take(i as int)),
        decreases items@.len() - i,
    {
        proof {
            assert(v.take(i + 1).drop_last() =~= v.take(i as int));
        }
        let ghost e1 = view_events(evs@);
        match &items[i] {
            OrgListValue::Content(nodes) => {
                push_event(evs, OrgEvent::Start(OrgElement::ListItem));
                push_events(nodes, evs);
                push_event(evs, OrgEvent::End(OrgElement::ListItem));
            },
            OrgListValue::SubList(b) => {
                push_event(evs, OrgEvent::Start(OrgElement::SubList));
                push_items_events(&b.values, evs);
                push_event(evs, OrgEvent::End(OrgElement::SubList));
            },
        }
        proof {
            assert(view_events(evs@) =~= e1 + events_item(view_item(items@[i as int])));
            assert(view_events(evs@) =~= e0 + events_items(v.take(i + 1)));
        }
        i = i + 1;
    }
    proof {
        assert(v.take(items@.len() as int) =~= v);
    }
}

/// Writes `s` to the footnote body being read, or else to the output.
fn put(out: &mut String, body: &mut String, in_body: bool, s: &str)
    ensures
        in_body ==> final(body)@ == old(body)@ + s@ && final(out)@ == old(out)@,
        !in_body ==> final(out)@ == old(out)@ + s@ && final(body)@ == old(body)@,
{
    if in_body {
        push_str_to(body, s);
    } else {
        push_str_to(out, s);
    }
}

pub open spec fn walk_state(toc: Toc, out: Seq<char>, notes: Seq<Seq<char>>, body: Seq<char>, in_body: bool) -> Walk {
    Walk {
        entries: toc.entries(),
        used: toc.used(),
        out,
        notes,
        body: if in_body { Some(body) } else { None },
        failed: false,
        fault: Fault::Unsupported,
    }
}

fn clamp(level: u8) -> (r: u8)
    ensures
        r as nat == clamp_level(level as nat),
        r >= 1,
{
    if level < 1 {
        1
    } else if level > 6 {
        6
    } else {
        level
    }
}

/// Renders a stream of events as HTML: headings take their anchors from `toc`, footnote
/// bodies go to `notes`. Fails on a named footnote, a footnote inside a footnote, a nested
/// list, a heading inside a footnote or without a free anchor, and a footnote left open.
pub fn emit_events(events: &Vec<OrgEvent>, base: &str, toc: &mut Toc, notes: &mut Vec<String>, out: &mut String) -> (r: Result<(), OrgError>)
    ensures
        ({
            let w = walk(base@, walk_state(*old(toc), old(out)@, view_strs(old(notes)@), Seq::empty(), false), view_events(events@));
            if w.failed {
                r matches Err(e) && view_error(e) == w.fault
            } else if w.body is Some {
                r matches Err(OrgError::Unsupported)
            } else {
                r is Ok && final(out)@ == w.out && view_strs(final(notes)@) == w.notes
                    && final(toc).entries() == w.entries && final(toc).used() == w.used
            }
        }),
{
    let ghost v = view_events(events@);
    let ghost w0 = walk_state(*toc, out@, view_strs(notes@), Seq::empty(), false);
    let mut body = String::new();
    let mut in_body = false;
    let mut i: usize = 0;
    proof {
        assert(v.take(0) =~= Seq::<Ev>::empty());
    }
    while i < events.len()
        invariant
            i <= events@.len(),
            v == view_events(events@),
            v.len() == events@.len(),
            w0 == walk_state(*old(toc), old(out)@, view_strs(old(notes)@), Seq::empty(), false),
            walk(base@, w0, v.take(i as int)) == walk_state(*toc, out@, view_strs(notes@), body@, in_body),
        decreases events@.len() - i,
    {
        let ghost wi = walk_state(*toc, out@, view_strs(notes@), body@, in_body);
        proof {
            assert(v.take(i + 1).drop_last() =~= v.take(i as int));
            assert(v.take(i + 1).last() == view_ev(events@[i as int]));
        }
        let mut failed = false;
        let mut error = OrgError::Unsupported;
        match &events[i] {
            OrgEvent::Start(e) => match e {
                OrgElement::Text(t) => {
                    let mut esc = String::new();
                    push_escaped(&mut esc, t.as_str());
                    proof { assert(esc@ =~= escape(t@)); }
                    put(out, &mut body, in_body, esc.as_str());
                },
                OrgElement::Bold => put(out, &mut body, in_body, "<b>"),
                OrgElement::Italic => put(out, &mut body, in_body, "<i>"),
                OrgElement::Underlined => put(out, &mut body, in_body, "<u>"),
                OrgElement::Strikethrough => put(out, &mut body, in_body, "<s>"),
                OrgElement::Verbatim => {
                    proof { lemma_write_empty(wi); }
                },
                OrgElement::Code => {
                    proof { lemma_write_empty(wi); }
                },
                OrgElement::Link(t) => {
                    let mut open = String::new();
                    push_link_open(&mut open, base, t);
                    proof { assert(open@ =~= link_open(base@, t@)); }
                    put(out, &mut body, in_body, open.as_str());
                },
                OrgElement::Footnote(name) => {
                    if name.is_some() || in_body {
                        failed = true;
                    } else {
                        in_body = true;
                        body = String::new();
                    }
                },
                OrgElement::List(ordered) => {
                    if *ordered {
                        put(out, &mut body, in_body, "<ol>");
                    } else {
                        put(out, &mut body, in_body, "<ul>");
                    }
                },
                OrgElement::Rule => put(out, &mut body, in_body, "<hr>"),
                OrgElement::ExportBlock { data, contents } => {
                    if is_html_backend(data) {
                        put(out, &mut body, in_body, contents.as_str());
                    }
                },
                OrgElement::SourceBlock { language, contents, highlighted } => {
                    match source_block_html(language, contents, highlighted) {
                        Ok(h) => put(out, &mut body, in_body, h.as_str()),
                        Err(e) => {
                            failed = true;
                            error = e;
                        },
                    }
                },
                OrgElement::ListItem => put(out, &mut body, in_body, "<li>"),
                OrgElement::SubList => {
                    failed = true;
                },
                OrgElement::Newline => put(out, &mut body, in_body, "</p><p>"),
                OrgElement::Heading(level, title) => {
                    if in_body {
                        failed = true;
                    } else {
                        let cl = clamp(*level);
                        match toc.add_headline(cl, title.as_str()) {
                            Ok(slug) => push_heading_open(out, cl, &slug),
                            Err(_) => {
                                failed = true;
                                error = OrgError::SlugExhausted;
                            },
                        }
                    }
                },
                OrgElement::Paragraph => put(out, &mut body, in_body, "<p>"),
            },
            OrgEvent::End(e) => match e {
                OrgElement::Bold => put(out, &mut body, in_body, "</b>"),
                OrgElement::Italic => put(out, &mut body, in_body, "</i>"),
                OrgElement::Underlined => put(out, &mut body, in_body, "</u>"),
                OrgElement::Strikethrough => put(out, &mut body, in_body, "</s>"),
                OrgElement::Link(_) => put(out, &mut body, in_body, "</a>"),
                OrgElement::Footnote(_) => {
                    if in_body {
                        let ghost n0 = view_strs(notes@);
                        let mut b = String::new();
                        std::mem::swap(&mut b, &mut body);
                        notes.push(b);
                        proof {
                            assert(view_strs(notes@) =~= n0.push(b@));
                        }
                        push_footnote_ref(out, notes.len());
                        in_body = false;
                    } else {
                        failed = true;
                    }
                },
                OrgElement::List(ordered) => {
                    if *ordered {
                        put(out, &mut body, in_body, "</ol>");
                    } else {
                        put(out, &mut body, in_body, "</ul>");
                    }
                },
                OrgElement::ListItem => put(out, &mut body, in_body, "</li>"),
                OrgElement::SubList => {
                    failed = true;
                },
                OrgElement::Heading(level, _) => {
                    let mut close = String::new();
                    push_heading_close(&mut close, clamp(*level));
                    put(out, &mut body, in_body, close.as_str());
                },
                OrgElement::Paragraph => put(out, &mut body, in_body, "</p>"),
                _ => {},
            },
        }
        if failed {
            proof {
                let wf = walk(base@, w0, v.take(i + 1));
                assert(wf.failed);
                lemma_walk_concat(base@, w0, v.take(i + 1), v.skip(i + 1));
                assert(v.take(i + 1) + v.skip(i + 1) =~= v);
                lemma_walk_failed(base@, wf, v.skip(i + 1));
            }
            return Err(error);
        }
        proof {
            assert(walk(base@, w0, v.take(i + 1)) =~= walk_state(*toc, out@, view_strs(notes@), body@, in_body));
        }
        i = i + 1;
    }
    proof {
        assert(v.take(events@.len() as int) =~= v);
    }
    if in_body {
        return Err(OrgError::Unsupported);
    }
    Ok(())
}

/// The events of inline content, in order.
pub fn inline_events(nodes: &Vec<OrgSectionContent>) -> (r: Vec<OrgEvent>)
    ensures
        view_events(r@) == events_seq(view_nodes(nodes@)),
{
    let mut evs: Vec<OrgEvent> = Vec::new();
    proof {
        assert(view_events(evs@) =~= Seq::<Ev>::empty());
    }
    push_events(nodes, &mut evs);
    proof {
        assert(Seq::<Ev>::empty() + events_seq(view_nodes(nodes@)) =~= events_seq(view_nodes(nodes@)));
    }
    evs
}


/// The events of a document, in order.
pub fn document_events(document: &OrgDocument) -> (r: Vec<OrgEvent>)
    ensures
        view_events(r@) == events_doc(document.view()),
{
    let ghost v = document.view();
    let mut evs: Vec<OrgEvent> = Vec::new();
    proof {
        assert(view_events(evs@) =~= Seq::<Ev>::empty());
        assert(v.take(0) =~= Seq::<Block>::empty());
    }
    let mut i: usize = 0;
    while i < document.content.len()
        invariant
            i <= document.content@.len(),
            v == document.view(),
            v.len() == document.content@.len(),
            view_events(evs@) == events_doc(v.take(i as int)),
        decreases document.content@.len() - i,
    {
        proof {
            assert(v.take(i + 1).drop_last() =~= v.take(i as int));
            assert(v.take(i + 1).last() == view_block(document.content@[i as int]));
        }
        let ghost e0 = view_events(evs@);
        match &document.content[i] {
            OrgContent::Section(sec) => {
                match &sec.headline {
                    Some(hl) => {
                        let mut title = String::new();
                        push_plain(&hl.content, &mut title);
                        proof { assert(title@ =~= plain_seq(view_nodes(hl.content@))); }
                        let closing = String::from_str(title.as_str());
                        push_event(&mut evs, OrgEvent::Start(OrgElement::Heading(hl.level, title)));
                        push_events(&hl.content, &mut evs);
                        push_event(&mut evs, OrgEvent::End(OrgElement::Heading(hl.level, closing)));
                    },
                    None => {},
                }
                let ghost e1 = view_events(evs@);
                proof {
                    assert(e1 =~= e0 + events_head(view_opt_headline(sec.headline)));
                }
                if sec.children.len() > 0 {
                    push_event(&mut evs, OrgEvent::Start(OrgElement::Paragraph));
                    push_events(&sec.children, &mut evs);
                    push_event(&mut evs, OrgEvent::End(OrgElement::Paragraph));
                }
                proof {
                    lemma_view_nodes(sec.children@);
                    assert(view_events(evs@) =~= e1 + events_body(view_nodes(sec.children@)));
                    assert(view_events(evs@) =~= e0 + events_block(view_block(document.content@[i as int])));
                }
            },
            _ => {
                proof {
                    assert(view_events(evs@) =~= e0 + events_block(view_block(document.content@[i as int])));
                }
            },
        }
        i = i + 1;
    }
    proof {
        assert(v.take(document.content@.len() as int) =~= v);
    }
    evs
}

/// The state a walk over a whole document starts from.
pub open spec fn initial_walk() -> Walk {
    Walk { entries: Seq::empty(), used: Seq::empty(), out: Seq::empty(), notes: Seq::empty(), body: None, failed: false, fault: Fault::Unsupported }
}

/// Renders a stream of events as a whole document: the walk's HTML, then the footnotes
/// section; returns the table of contents built on the way with the HTML.
pub fn render_events(events: &Vec<OrgEvent>, base_url: &str) -> (r: Result<(Toc, String), OrgError>)
    ensures
        ({
            let w = walk(base_url@, initial_walk(), view_events(events@));
            if w.failed {
                r matches Err(e) && view_error(e) == w.fault
            } else if w.body is Some {
                r matches Err(OrgError::Unsupported)
            } else {
                r matches Ok((toc, html)) && toc.entries() == w.entries && toc.used() == w.used
                    && html@ == w.out + footnotes_html(w.notes)
            }
        }),
{
    let mut toc = Toc::new();
    let mut notes: Vec<String> = Vec::new();
    let mut out = String::new();
    proof {
        assert(view_strs(notes@) =~= Seq::<Seq<char>>::empty());
        assert(walk_state(toc, out@, view_strs(notes@), Seq::empty(), false) == initial_walk());
    }
    match emit_events(events, base_url, &mut toc, &mut notes, &mut out) {
        Ok(()) => {},
        Err(e) => {
            return Err(e);
        },
    }
    push_footnotes_section(&mut out, &notes);
    Ok((toc, out))
}

/// Renders a document by walking its events; the result is that of `emit_document`.
pub fn emit_document_events(document: &OrgDocument, base_url: &str) -> (r: Result<(Toc, String), OrgError>)
    ensures
        match emit_doc(base_url@, document.view()) {
            Some((st, h)) => r matches Ok((toc, html)) && toc.entries() == st.entries && toc.used() == st.used && html@ == h,
            None => r is Err,
        },
{
    let events = document_events(document);
    proof {
        law_document_event_walk_agrees(base_url@, document.view());
    }
    render_events(&events, base_url)
}

} // verus!
