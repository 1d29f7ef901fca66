use vstd::prelude::*;
use crate::ast::{Block, Inline, ListItem, OrgDocument};
use crate::emitter::{emit_blocks, emit_doc, emit_head, emit_item, emit_items, emit_one, emit_seq, empty_state, EmitState};
use crate::parser::{body_step, flush, last_section, parse_doc, run, step, strip_newlines, PState};
use crate::spans::{find_span, lemma_find_span, lemma_list_start, list_start, spec_inline, Found};
use crate::toc::{lemma_first_free, unique_slug};

verus! {

/// The number of footnote references in nodes.
pub open spec fn refs_seq(nodes: Seq<Inline>) -> nat
    decreases nodes, 0nat,
{
    if nodes.len() == 0 {
        0
    } else {
        refs_seq(nodes.drop_last()) + refs_one(nodes.last())
    }
}

pub open spec fn refs_one(n: Inline) -> nat
    decreases n, 1nat,
{
    match n {
        Inline::Emphasis(_, inner) => refs_seq(inner),
        Inline::Link(_, label) => refs_seq(label),
        Inline::Footnote(_, _) => 1,
        Inline::List(items) => refs_items(items),
        _ => 0,
    }
}

pub open spec fn refs_items(items: Seq<ListItem>) -> nat
    decreases items, 0nat,
{
    if items.len() == 0 {
        0
    } else {
        refs_items(items.drop_last()) + refs_item(items.last())
    }
}

pub open spec fn refs_item(it: ListItem) -> nat
    decreases it, 1nat,
{
    match it {
        ListItem::Content(nodes) => refs_seq(nodes),
        ListItem::SubList(items) => refs_items(items),
    }
}

/// The number of footnote references in a unit of a document.
pub open spec fn refs_block(b: Block) -> nat {
    match b {
        Block::Section(Some(hm), children) => refs_seq(hm.content) + refs_seq(children),
        Block::Section(None, children) => refs_seq(children),
        _ => 0,
    }
}

/// The number of footnote references in a document: in headings and in bodies.
pub open spec fn refs_doc(blocks: Seq<Block>) -> nat
    decreases blocks.len(),
{
    if blocks.len() == 0 {
        0
    } else {
        refs_doc(blocks.drop_last()) + refs_block(blocks.last())
    }
}

/// The footnote bodies of nodes as rendered, in the order their references stand.
pub open spec fn bodies_seq(b: Seq<char>, nodes: Seq<Inline>) -> Seq<Seq<char>>
    decreases nodes, 0nat,
{
    if nodes.len() == 0 {
        Seq::empty()
    } else {
        bodies_seq(b, nodes.drop_last()) + bodies_one(b, nodes.last())
    }
}

pub open spec fn bodies_one(b: Seq<char>, n: Inline) -> Seq<Seq<char>>
    decreases n, 1nat,
{
    match n {
        Inline::Emphasis(_, inner) => bodies_seq(b, inner),
        Inline::Link(_, label) => bodies_seq(b, label),
        Inline::Footnote(_, body) => match emit_seq(false, Seq::empty(), b, body) {
            Some((_, h)) => seq![h],
            None => Seq::empty(),
        },
        Inline::List(items) => bodies_items(b, items),
        _ => Seq::empty(),
    }
}

pub open spec fn bodies_items(b: Seq<char>, items: Seq<ListItem>) -> Seq<Seq<char>>
    decreases items, 0nat,
{
    if items.len() == 0 {
        Seq::empty()
    } else {
        bodies_items(b, items.drop_last()) + bodies_item(b, items.last())
    }
}

pub open spec fn bodies_item(b: Seq<char>, it: ListItem) -> Seq<Seq<char>>
    decreases it, 1nat,
{
    match it {
        ListItem::Content(nodes) => bodies_seq(b, nodes),
        ListItem::SubList(items) => bodies_items(b, items),
    }
}

/// The footnote bodies of a document, in the order their references stand.
pub open spec fn bodies_doc(b: Seq<char>, blocks: Seq<Block>) -> Seq<Seq<char>>
    decreases blocks.len(),
{
    if blocks.len() == 0 {
        Seq::empty()
    } else {
        bodies_doc(b, blocks.drop_last()) + match blocks.last() {
            Block::Section(Some(hm), children) => bodies_seq(b, hm.content) + bodies_seq(b, children),
            Block::Section(None, children) => bodies_seq(b, children),
            _ => Seq::empty(),
        }
    }
}

proof fn lemma_bodies_seq(notes: Seq<Seq<char>>, b: Seq<char>, nodes: Seq<Inline>)
    ensures
        emit_seq(true, notes, b, nodes) matches Some((n2, _)) ==> n2 == notes + bodies_seq(b, nodes),
    decreases nodes, 0nat,
{
    if nodes.len() == 0 {
        assert(notes + Seq::<Seq<char>>::empty() =~= notes);
    } else {
        lemma_bodies_seq(notes, b, nodes.drop_last());
        match emit_seq(true, notes, b, nodes.drop_last()) {
            Some((n1, _)) => {
                lemma_bodies_one(n1, b, nodes.last());
                assert(notes + bodies_seq(b, nodes.drop_last()) + bodies_one(b, nodes.last()) =~= notes + bodies_seq(b, nodes));
            },
            None => {},
        }
    }
}

proof fn lemma_bodies_one(notes: Seq<Seq<char>>, b: Seq<char>, n: Inline)
    ensures
        emit_one(true, notes, b, n) matches Some((n2, _)) ==> n2 == notes + bodies_one(b, n),
    decreases n, 1nat,
{
    match n {
        Inline::Emphasis(_, inner) => lemma_bodies_seq(notes, b, inner),
        Inline::Link(_, label) => lemma_bodies_seq(notes, b, label),
        Inline::List(items) => lemma_bodies_items(notes, b, items),
        Inline::Footnote(_, body) => {
            match emit_seq(false, Seq::empty(), b, body) {
                Some((_, h)) => assert(notes.push(h) =~= notes + seq![h]),
                None => {},
            }
        },
        _ => {
            assert(notes + Seq::<Seq<char>>::empty() =~= notes);
        },
    }
}

proof fn lemma_bodies_items(notes: Seq<Seq<char>>, b: Seq<char>, items: Seq<ListItem>)
    ensures
        emit_items(true, notes, b, items) matches Some((n2, _)) ==> n2 == notes + bodies_items(b, items),
    decreases items, 0nat,
{
    if items.len() == 0 {
        assert(notes + Seq::<Seq<char>>::empty() =~= notes);
    } else {
        lemma_bodies_items(notes, b, items.drop_last());
        match emit_items(true, notes, b, items.drop_last()) {
            Some((n1, _)) => {
                lemma_bodies_item(n1, b, items.last());
                assert(notes + bodies_items(b, items.drop_last()) + bodies_item(b, items.last()) =~= notes + bodies_items(b, items));
            },
            None => {},
        }
    }
}

proof fn lemma_bodies_item(notes: Seq<Seq<char>>, b: Seq<char>, it: ListItem)
    ensures
        emit_item(true, notes, b, it) matches Some((n2, _)) ==> n2 == notes + bodies_item(b, it),
    decreases it, 1nat,
{
    match it {
        ListItem::Content(nodes) => lemma_bodies_seq(notes, b, nodes),
        ListItem::SubList(_) => {},
    }
}

proof fn lemma_bodies_blocks(b: Seq<char>, st: EmitState, blocks: Seq<Block>)
    ensures
        emit_blocks(b, st, blocks) matches Some((st2, _)) ==> st2.notes == st.notes + bodies_doc(b, blocks),
    decreases blocks.len(),
{
    if blocks.len() == 0 {
        assert(st.notes + Seq::<Seq<char>>::empty() =~= st.notes);
    } else {
        lemma_bodies_blocks(b, st, blocks.drop_last());
        match emit_blocks(b, st, blocks.drop_last()) {
            Some((st1, _)) => {
                match blocks.last() {
                    Block::Section(h, children) => {
                        match h {
                            Some(hm) => lemma_bodies_seq(st1.notes, b, hm.content),
                            None => {},
                        }
                        match emit_head(b, st1, h) {
                            Some((st_h, _)) => {
                                lemma_bodies_seq(st_h.notes, b, children);
                                match h {
                                    Some(hm) => {
                                        assert(st.notes + bodies_doc(b, blocks.drop_last()) + (bodies_seq(b, hm.content) + bodies_seq(b, children)) =~= st.notes + bodies_doc(b, blocks));
                                        assert(st.notes + bodies_doc(b, blocks.drop_last()) + bodies_seq(b, hm.content) + bodies_seq(b, children) =~= st.notes + bodies_doc(b, blocks));
                                    },
                                    None => {
                                        assert(st_h == st1);
                                        assert(st.notes + bodies_doc(b, blocks.drop_last()) + bodies_seq(b, children) =~= st.notes + bodies_doc(b, blocks));
                                    },
                                }
                                if children.len() == 0 {
                                    assert(bodies_seq(b, children) =~= Seq::<Seq<char>>::empty());
                                }
                            },
                            None => {},
                        }
                    },
                    _ => {
                        assert(st1.notes + Seq::<Seq<char>>::empty() =~= st1.notes);
                    },
                }
            },
            None => {},
        }
    }
}

/// Footnote entries follow the references: the bodies that rendering a document collects,
/// and so the entries of its footnotes section (`footnotes_html` writes entry K with id
/// `fnK` and a link back to `#fnsK`), are the rendered bodies of its footnote references in
/// the order the references stand. (By the definition of `emit_one`, a reference is
/// numbered one more than the bodies collected before it.)
pub proof fn law_footnote_entries_in_order(base: Seq<char>, blocks: Seq<Block>)
    ensures
        emit_doc(base, blocks) matches Some((st, _)) ==> st.notes == bodies_doc(base, blocks),
{
    lemma_bodies_blocks(base, empty_state(), blocks);
    assert(Seq::<Seq<char>>::empty() + bodies_doc(base, blocks) =~= bodies_doc(base, blocks));
}

proof fn lemma_refs_seq(c: bool, notes: Seq<Seq<char>>, b: Seq<char>, nodes: Seq<Inline>)
    ensures
        emit_seq(c, notes, b, nodes) matches Some((n2, _)) ==> n2.len() == notes.len() + refs_seq(nodes),
    decreases nodes, 0nat,
{
    if nodes.len() > 0 {
        lemma_refs_seq(c, notes, b, nodes.drop_last());
        match emit_seq(c, notes, b, nodes.drop_last()) {
            Some((n1, _)) => lemma_refs_one(c, n1, b, nodes.last()),
            None => {},
        }
    }
}

proof fn lemma_refs_one(c: bool, notes: Seq<Seq<char>>, b: Seq<char>, n: Inline)
    ensures
        emit_one(c, notes, b, n) matches Some((n2, _)) ==> n2.len() == notes.len() + refs_one(n),
    decreases n, 1nat,
{
    match n {
        Inline::Emphasis(_, inner) => lemma_refs_seq(c, notes, b, inner),
        Inline::Link(_, label) => lemma_refs_seq(c, notes, b, label),
        Inline::List(items) => lemma_refs_items(c, notes, b, items),
        _ => {},
    }
}

proof fn lemma_refs_items(c: bool, notes: Seq<Seq<char>>, b: Seq<char>, items: Seq<ListItem>)
    ensures
        emit_items(c, notes, b, items) matches Some((n2, _)) ==> n2.len() == notes.len() + refs_items(items),
    decreases items, 0nat,
{
    if items.len() > 0 {
        lemma_refs_items(c, notes, b, items.drop_last());
        match emit_items(c, notes, b, items.drop_last()) {
            Some((n1, _)) => lemma_refs_item(c, n1, b, items.last()),
            None => {},
        }
    }
}

proof fn lemma_refs_item(c: bool, notes: Seq<Seq<char>>, b: Seq<char>, it: ListItem)
    ensures
        emit_item(c, notes, b, it) matches Some((n2, _)) ==> n2.len() == notes.len() + refs_item(it),
    decreases it, 1nat,
{
    match it {
        ListItem::Content(nodes) => lemma_refs_seq(c, notes, b, nodes),
        ListItem::SubList(_) => {},
    }
}

proof fn lemma_refs_blocks(b: Seq<char>, st: EmitState, blocks: Seq<Block>)
    ensures
        emit_blocks(b, st, blocks) matches Some((st2, _)) ==> st2.notes.len() == st.notes.len() + refs_doc(blocks),
    decreases blocks.len(),
{
    if blocks.len() > 0 {
        lemma_refs_blocks(b, st, blocks.drop_last());
        match emit_blocks(b, st, blocks.drop_last()) {
            Some((st1, _)) => {
                match blocks.last() {
                    Block::Section(h, children) => {
                        match h {
                            Some(hm) => lemma_refs_seq(true, st1.notes, b, hm.content),
                            None => {},
                        }
                        match emit_head(b, st1, h) {
                            Some((st_h, _)) => lemma_refs_seq(true, st_h.notes, b, children),
                            None => {},
                        }
                    },
                    _ => {},
                }
            },
            None => {},
        }
    }
}

/// Footnotes balance: rendering a document collects exactly one footnote body per footnote
/// reference the document holds. (The footnotes section, `footnotes_html`, has one entry per
/// collected body.)
pub proof fn law_footnotes_balanced(base: Seq<char>, blocks: Seq<Block>)
    ensures
        emit_doc(base, blocks) matches Some((st, _)) ==> st.notes.len() == refs_doc(blocks),
{
    lemma_refs_blocks(base, empty_state(), blocks);
}

proof fn lemma_used_distinct(b: Seq<char>, st: EmitState, blocks: Seq<Block>)
    requires
        st.used.no_duplicates(),
    ensures
        emit_blocks(b, st, blocks) matches Some((st2, _)) ==> st2.used.no_duplicates(),
    decreases blocks.len(),
{
    if blocks.len() > 0 {
        lemma_used_distinct(b, st, blocks.drop_last());
        match emit_blocks(b, st, blocks.drop_last()) {
            Some((st1, _)) => {
                match blocks.last() {
                    Block::Section(Some(hm), _) => {
                        let title = crate::emitter::plain_seq(hm.content);
                        let base = crate::toc::slug_base(title);
                        lemma_first_free(base, st1.used, 1);
                        match unique_slug(title, st1.used) {
                            Some(slug) => {
                                assert(!st1.used.contains(slug));
                                let u2 = st1.used.push(slug);
                                assert forall|i: int, j: int| 0 <= i < u2.len() && 0 <= j < u2.len() && i != j implies u2[i] != u2[j] by {
                                    if j == st1.used.len() as int {
                                        assert(st1.used[i] == u2[i]);
                                    } else if i == st1.used.len() as int {
                                        assert(st1.used[j] == u2[j]);
                                    }
                                }
                            },
                            None => {},
                        }
                    },
                    _ => {},
                }
            },
            None => {},
        }
    }
}

/// Anchors are distinct: the anchors that rendering a document gives its headings (the
/// `used` anchors of its table of contents) are pairwise different.
pub proof fn law_slugs_distinct(base: Seq<char>, blocks: Seq<Block>)
    ensures
        emit_doc(base, blocks) matches Some((st, _)) ==> st.used.no_duplicates(),
{
    lemma_used_distinct(base, empty_state(), blocks);
}

/// Rendering is repeatable: two documents parsed from the same text render to the same HTML
/// and the same table of contents, anchors and footnote numbers included.
pub proof fn law_render_repeatable(text: Seq<char>, base: Seq<char>, d1: OrgDocument, d2: OrgDocument)
    requires
        d1.view() == parse_doc(text),
        d2.view() == parse_doc(text),
    ensures
        emit_doc(base, d1.view()) == emit_doc(base, d2.view()),
{
}


// ---------------------------------------------------------------------------
// Newline nodes in section bodies.

/// A body where every newline node has something before it and no list on either side.
pub open spec fn body_ok(b: Seq<Inline>) -> bool {
    forall|i: int| 0 <= i < b.len() && (#[trigger] b[i]) is Newline ==> i > 0 && !(b[i - 1] is List)
        && !(i + 1 < b.len() && b[i + 1] is List)
}

pub open spec fn doc_ok(d: Seq<Block>) -> bool {
    forall|i: int| 0 <= i < d.len() ==> (#[trigger] d[i] matches Block::Section(_, ch) ==> body_ok(ch))
}

/// Same kind of node at each position, as far as newline nodes and lists go.
pub open spec fn same_shape(a: Seq<Inline>, b: Seq<Inline>) -> bool {
    &&& a.len() == b.len()
    &&& forall|i: int| 0 <= i < a.len() ==> ((#[trigger] a[i]) is Newline <==> b[i] is Newline) && (a[i] is List <==> b[i] is List)
}

pub open spec fn no_newline(a: Seq<Inline>) -> bool {
    forall|i: int| 0 <= i < a.len() ==> !((#[trigger] a[i]) is Newline)
}

proof fn lemma_inline_shape(merge: bool, sec: Seq<Inline>, s: Seq<char>)
    ensures
        same_shape(spec_inline(merge, sec, s).0, sec),
        no_newline(spec_inline(merge, sec, s).1),
    decreases s.len(),
{
    lemma_list_start(s);
    lemma_find_span(s);
    if s.len() == 0 {
        return;
    }
    match list_start(s) {
        Some(k) => {
            lemma_inline_shape(merge, sec, s.subrange(k + 2, s.len() as int));
        },
        None => match find_span(s) {
            Some(Found::Emph(a, b)) => {
                let (sec1, inner) = spec_inline(merge, sec, s.subrange(a + 1, b));
                lemma_inline_shape(merge, sec, s.subrange(a + 1, b));
                lemma_inline_shape(merge, sec1, s.subrange(b + 1, s.len() as int));
            },
            Some(Found::Link(i, j, k)) => {
                let (sec1, label) = spec_inline(merge, sec, s.subrange(j + 2, k));
                lemma_inline_shape(merge, sec, s.subrange(j + 2, k));
                lemma_inline_shape(merge, sec1, s.subrange(k + 2, s.len() as int));
            },
            Some(Found::Note(i, c, b)) => {
                let (sec1, body) = spec_inline(merge, sec, s.subrange(c + 1, b));
                lemma_inline_shape(merge, sec, s.subrange(c + 1, b));
                lemma_inline_shape(merge, sec1, s.subrange(b + 1, s.len() as int));
            },
            None => {},
        },
    }
}

proof fn lemma_strip_newlines(s: Seq<Inline>)
    ensures
        strip_newlines(s).len() <= s.len(),
        strip_newlines(s) == s.take(strip_newlines(s).len() as int),
        strip_newlines(s).len() > 0 ==> !(strip_newlines(s).last() is Newline),
    decreases s.len(),
{
    if s.len() > 0 && s.last() is Newline {
        lemma_strip_newlines(s.drop_last());
        assert(s.drop_last().take(strip_newlines(s).len() as int) =~= s.take(strip_newlines(s).len() as int));
    } else {
        assert(s.take(s.len() as int) =~= s);
    }
}

proof fn lemma_body_line(ch: Seq<Inline>, ch1: Seq<Inline>, content: Seq<Inline>)
    requires
        body_ok(ch),
        same_shape(ch1, ch),
        no_newline(content),
    ensures
        body_ok((if content.len() > 0 && content[0] is List {
            strip_newlines(ch1)
        } else if ch1.len() > 0 && !(ch1.last() is List) {
            ch1.push(Inline::Newline)
        } else {
            ch1
        }) + content),
{
    assert(body_ok(ch1)) by {
        assert forall|i: int| 0 <= i < ch1.len() && (#[trigger] ch1[i]) is Newline implies i > 0 && !(ch1[i - 1] is List)
            && !(i + 1 < ch1.len() && ch1[i + 1] is List) by {
            assert(ch[i] is Newline);
        }
    }
    let ch2 = if content.len() > 0 && content[0] is List {
        strip_newlines(ch1)
    } else if ch1.len() > 0 && !(ch1.last() is List) {
        ch1.push(Inline::Newline)
    } else {
        ch1
    };
    if content.len() > 0 && content[0] is List {
        lemma_strip_newlines(ch1);
    }
    let r = ch2 + content;
    assert forall|i: int| 0 <= i < r.len() && (#[trigger] r[i]) is Newline implies i > 0 && !(r[i - 1] is List)
        && !(i + 1 < r.len() && r[i + 1] is List) by {
        if i >= ch2.len() {
            assert(content[i - ch2.len()] == r[i]);
        } else {
            assert(r[i] == ch2[i]);
            if content.len() > 0 && content[0] is List {
                assert(ch2[i] == ch1[i]);
                assert(ch1[i] is Newline);
                if i > 0 {
                    assert(r[i - 1] == ch1[i - 1]);
                }
                if i + 1 < ch2.len() {
                    assert(r[i + 1] == ch1[i + 1]);
                }
            } else if ch1.len() > 0 && !(ch1.last() is List) {
                if i < ch1.len() {
                    assert(ch2[i] == ch1[i]);
                    if i > 0 {
                        assert(r[i - 1] == ch1[i - 1]);
                    }
                    if i + 1 < ch1.len() {
                        assert(r[i + 1] == ch1[i + 1]);
                    } else {
                        assert(r[i + 1] == ch2[i + 1]);
                    }
                } else {
                    assert(r[i - 1] == ch1[i - 1]);
                    if i + 1 < r.len() {
                        assert(r[i + 1] == content[0]);
                    }
                }
            } else {
                assert(ch1[i] is Newline);
                if i > 0 {
                    assert(r[i - 1] == ch1[i - 1]);
                }
                if i + 1 < ch1.len() {
                    assert(r[i + 1] == ch1[i + 1]);
                }
            }
        }
    }
}

proof fn lemma_last_section_ok(doc: Seq<Block>, n: int)
    requires
        n <= doc.len(),
    ensures
        last_section(doc, n) matches Some(i) ==> 0 <= i < n && doc[i] is Section,
    decreases n,
{
    if n > 0 && !(doc[n - 1] is Section) {
        lemma_last_section_ok(doc, n - 1);
    }
}

proof fn lemma_step_ok(s: Seq<char>, st: PState)
    requires
        doc_ok(st.doc),
    ensures
        doc_ok(step(s, st).doc),
{
    let e: Seq<Inline> = Seq::empty();
    assert(body_ok(e));
    let doc1 = flush(st.doc, st.pending);
    assert(doc_ok(doc1)) by {
        assert forall|i: int| 0 <= i < doc1.len() implies (#[trigger] doc1[i] matches Block::Section(_, ch) ==> body_ok(ch)) by {
            if i < st.doc.len() {
                assert(doc1[i] == st.doc[i]);
            }
        }
    }
    let p = st.pos;
    let doc2 = if last_section(doc1, doc1.len() as int) is Some { doc1 } else { doc1.push(Block::Section(None, Seq::empty())) };
    assert(doc_ok(doc2)) by {
        assert forall|i: int| 0 <= i < doc2.len() implies (#[trigger] doc2[i] matches Block::Section(_, ch) ==> body_ok(ch)) by {
            if i < doc1.len() {
                assert(doc2[i] == doc1[i]);
            }
        }
    }
    lemma_last_section_ok(doc2, doc2.len() as int);
    if last_section(doc1, doc1.len() as int) is None {
        assert(doc2[doc1.len() as int] is Section);
        lemma_last_section_ok(doc1, doc1.len() as int);
        assert(last_section(doc2, doc2.len() as int) == Some(doc1.len() as int));
    }
    let idx = last_section(doc2, doc2.len() as int)->Some_0;
    let ch = doc2[idx]->Section_1;
    let text = s.subrange(p, crate::parser::line_end(s, p));
    lemma_inline_shape(true, ch, text);
    let (ch1, content) = spec_inline(true, ch, text);
    lemma_body_line(ch, ch1, content);
    let b = body_step(s, st);
    assert(doc_ok(b.doc)) by {
        assert forall|i: int| 0 <= i < b.doc.len() implies (#[trigger] b.doc[i] matches Block::Section(_, c) ==> body_ok(c)) by {
            if i != idx {
                assert(b.doc[i] == doc2[i]);
            }
        }
    }
    let st2 = step(s, st);
    assert(doc_ok(st2.doc)) by {
        assert forall|i: int| 0 <= i < st2.doc.len() implies (#[trigger] st2.doc[i] matches Block::Section(_, c) ==> body_ok(c)) by {
            if i < st.doc.len() {
                if crate::parser::is_headline(s, p) {
                    assert(st2.doc[i] == doc1[i]);
                } else if crate::parser::is_comment(s, p) || crate::parser::is_keyword(s, p) {
                    assert(st2.doc[i] == st.doc[i]);
                }
            } else if crate::parser::is_headline(s, p) && i < doc1.len() {
                assert(st2.doc[i] == doc1[i]);
            }
        }
    }
}

proof fn lemma_run_ok(s: Seq<char>, st: PState)
    requires
        doc_ok(st.doc),
    ensures
        doc_ok(run(s, st).doc),
    decreases s.len() - st.pos,
{
    if 0 <= st.pos < s.len() {
        crate::parser::lemma_step_pos(s, st);
        lemma_step_ok(s, st);
        lemma_run_ok(s, step(s, st));
    }
}

/// No newline node stands next to a list: in every section of a parsed document, each
/// newline node has a node before it, and neither that node nor the one after it is a list.
pub proof fn law_no_newline_next_to_list(s: Seq<char>)
    ensures
        doc_ok(parse_doc(s)),
{
    let st0 = PState { pos: 0, doc: Seq::empty(), pending: None };
    lemma_run_ok(s, st0);
    let fin = run(s, st0);
    let d = parse_doc(s);
    let e: Seq<Inline> = Seq::empty();
    assert(body_ok(e));
    assert forall|i: int| 0 <= i < d.len() implies (#[trigger] d[i] matches Block::Section(_, c) ==> body_ok(c)) by {
        if i < fin.doc.len() {
            assert(d[i] == fin.doc[i]);
        }
    }
}

} // verus!
