use vstd::prelude::*;
use crate::ast::{
    lemma_view_nodes, lemma_view_nodes_concat, lemma_view_nodes_push, lemma_view_nodes_empty,
    view_node, view_nodes, view_opt_str, Block, HeadlineModel, Inline, OrgContent, OrgDocument,
    OrgHeadline, OrgKeyword, OrgSection, OrgSectionContent,
};
use crate::spans::{find2, find2_at, spec_inline, parse_inline};
use crate::text::{is_ws, char_is_ws, chars_to_string, str_chars, sub_chars};

verus! {

// ---------------------------------------------------------------------------
// Model of the document and of the line-by-line parse.

pub open spec fn view_headline(h: OrgHeadline) -> HeadlineModel {
    HeadlineModel { level: h.level as nat, keyword: view_opt_str(h.keyword), content: view_nodes(h.content@) }
}

pub open spec fn view_opt_headline(h: Option<OrgHeadline>) -> Option<HeadlineModel> {
    match h {
        Some(h) => Some(view_headline(h)),
        None => None,
    }
}

pub open spec fn view_block(c: OrgContent) -> Block {
    match c {
        OrgContent::Comment(t) => Block::Comment(t@),
        OrgContent::Keyword(k) => Block::Keyword(k.key@, k.value@),
        OrgContent::Section(s) => Block::Section(view_opt_headline(s.headline), view_nodes(s.children@)),
    }
}

pub open spec fn view_blocks(v: Seq<OrgContent>) -> Seq<Block> {
    Seq::new(v.len(), |i: int| view_block(v[i]))
}

impl OrgDocument {
    pub open spec fn view(&self) -> Seq<Block> {
        view_blocks(self.content@)
    }
}

/// The state of the parse: position in the input, the units so far, and a headline that
/// waits for its body.
pub struct PState {
    pub pos: int,
    pub doc: Seq<Block>,
    pub pending: Option<HeadlineModel>,
}

/// The position of the first newline from `i` on, or the end of the input.
pub open spec fn line_end(s: Seq<char>, i: int) -> int
    decreases s.len() - i,
{
    if i < 0 || i >= s.len() || s[i] == '\n' {
        i
    } else {
        line_end(s, i + 1)
    }
}

/// The start of the next line: after the newline that ends the line at `i`.
pub open spec fn next_line(s: Seq<char>, i: int) -> int {
    let e = line_end(s, i);
    if e < s.len() {
        e + 1
    } else {
        e
    }
}

/// The end of the run of `*` that starts at `i`.
pub open spec fn star_run(s: Seq<char>, i: int) -> int
    decreases s.len() - i,
{
    if 0 <= i < s.len() && s[i] == '*' {
        star_run(s, i + 1)
    } else {
        i
    }
}

/// A waiting headline becomes a section with an empty body.
pub open spec fn flush(doc: Seq<Block>, pending: Option<HeadlineModel>) -> Seq<Block> {
    match pending {
        Some(h) => doc.push(Block::Section(Some(h), Seq::empty())),
        None => doc,
    }
}

/// The index of the last section among the first `n` units.
pub open spec fn last_section(doc: Seq<Block>, n: int) -> Option<int>
    decreases n,
{
    if n <= 0 {
        None
    } else if doc[n - 1] is Section {
        Some(n - 1)
    } else {
        last_section(doc, n - 1)
    }
}

/// A leading TODO or DONE word of a headline's text, and where the title starts.
pub open spec fn keyword_split(t: Seq<char>) -> (Option<Seq<char>>, int) {
    if t.len() >= 4 && (t.subrange(0, 4) == seq!['T', 'O', 'D', 'O'] || t.subrange(0, 4) == seq!['D', 'O', 'N', 'E'])
        && (t.len() == 4 || is_ws(t[4])) {
        (Some(t.subrange(0, 4)), if t.len() == 4 { 4 } else { 5 })
    } else {
        (None, 0)
    }
}

/// Whether the unit at `p` is a headline: 1 to 255 stars, then a space.
pub open spec fn is_headline(s: Seq<char>, p: int) -> bool {
    let k = star_run(s, p) - p;
    1 <= k <= 255 && star_run(s, p) < s.len() && s[star_run(s, p)] == ' '
}

pub open spec fn is_comment(s: Seq<char>, p: int) -> bool {
    0 <= p && p + 1 < s.len() && s[p] == '#' && s[p + 1] == ' '
}

pub open spec fn is_keyword(s: Seq<char>, p: int) -> bool {
    0 <= p && p + 1 < s.len() && s[p] == '#' && s[p + 1] == '+'
        && find2(s.subrange(p + 2, line_end(s, p)), ':', ' ', 0) is Some
}

/// A body without the newline nodes that end it.
pub open spec fn strip_newlines(s: Seq<Inline>) -> Seq<Inline>
    decreases s.len(),
{
    if s.len() > 0 && s.last() is Newline {
        strip_newlines(s.drop_last())
    } else {
        s
    }
}

/// A body line at `p` goes to the last section (a new one when there is none), after a
/// waiting headline has become a section. A newline node separates it from what the body
/// held, unless a list ends the body; a line that starts with a list also takes away the
/// newline nodes that end the body, so no newline node stands next to a list.
pub open spec fn body_step(s: Seq<char>, st: PState) -> PState {
    let p = st.pos;
    let doc1 = flush(st.doc, st.pending);
    let doc2 = if last_section(doc1, doc1.len() as int) is Some { doc1 } else { doc1.push(Block::Section(None, Seq::empty())) };
    let idx = last_section(doc2, doc2.len() as int)->Some_0;
    let h = doc2[idx]->Section_0;
    let ch = doc2[idx]->Section_1;
    let (ch1, content) = spec_inline(true, ch, s.subrange(p, line_end(s, p)));
    let ch2 = if content.len() > 0 && content[0] is List {
        strip_newlines(ch1)
    } else if ch1.len() > 0 && !(ch1.last() is List) {
        ch1.push(Inline::Newline)
    } else {
        ch1
    };
    PState { pos: next_line(s, p), doc: doc2.update(idx, Block::Section(h, ch2 + content)), pending: None }
}

/// One unit of the parse, starting at the beginning of a line.
pub open spec fn step(s: Seq<char>, st: PState) -> PState {
    let p = st.pos;
    let le = line_end(s, p);
    if is_headline(s, p) {
        let text = s.subrange(star_run(s, p) + 1, le);
        let (kw, cs) = keyword_split(text);
        PState {
            pos: next_line(s, p),
            doc: flush(st.doc, st.pending),
            pending: Some(HeadlineModel {
                level: (star_run(s, p) - p) as nat,
                keyword: kw,
                content: spec_inline(false, Seq::empty(), text.subrange(cs, text.len() as int)).1,
            }),
        }
    } else if is_comment(s, p) {
        PState { pos: next_line(s, p), doc: st.doc.push(Block::Comment(s.subrange(p + 2, le))), pending: st.pending }
    } else if is_keyword(s, p) {
        let t = s.subrange(p + 2, le);
        let q = find2(t, ':', ' ', 0)->Some_0;
        PState {
            pos: next_line(s, p),
            doc: st.doc.push(Block::Keyword(t.subrange(0, q), t.subrange(q + 2, t.len() as int))),
            pending: st.pending,
        }
    } else {
        body_step(s, st)
    }
}

/// The parse from state `st` to the end of the input.
pub open spec fn run(s: Seq<char>, st: PState) -> PState
    decreases s.len() - st.pos,
    via run_decreases
{
    if st.pos < 0 || st.pos >= s.len() {
        st
    } else {
        run(s, step(s, st))
    }
}

pub proof fn lemma_line_end(s: Seq<char>, i: int)
    requires
        0 <= i <= s.len(),
    ensures
        i <= line_end(s, i) <= s.len(),
        line_end(s, i) < s.len() ==> s[line_end(s, i)] == '\n',
        forall|j: int| i <= j < line_end(s, i) ==> s[j] != '\n',
    decreases s.len() - i,
{
    if i < s.len() && s[i] != '\n' {
        lemma_line_end(s, i + 1);
    }
}

pub proof fn lemma_step_pos(s: Seq<char>, st: PState)
    requires
        0 <= st.pos < s.len(),
    ensures
        step(s, st).pos == next_line(s, st.pos),
        st.pos < next_line(s, st.pos) <= s.len(),
{
    lemma_line_end(s, st.pos);
}

#[via_fn]
proof fn run_decreases(s: Seq<char>, st: PState) {
    if 0 <= st.pos < s.len() {
        lemma_step_pos(s, st);
    }
}

/// The document that the parse of `s` yields: the last waiting headline becomes a section.
pub open spec fn parse_doc(s: Seq<char>) -> Seq<Block> {
    let fin = run(s, PState { pos: 0, doc: Seq::empty(), pending: None });
    flush(fin.doc, fin.pending)
}


pub proof fn lemma_line_end_same(s: Seq<char>, i: int, j: int)
    requires
        0 <= i <= j <= line_end(s, i),
        i <= s.len(),
    ensures
        line_end(s, j) == line_end(s, i),
    decreases j - i,
{
    lemma_line_end(s, i);
    if i < j {
        lemma_line_end_same(s, i + 1, j);
    }
}

proof fn lemma_star_run(s: Seq<char>, i: int)
    requires
        0 <= i <= s.len(),
    ensures
        i <= star_run(s, i) <= s.len(),
        forall|j: int| i <= j < star_run(s, i) ==> s[j] == '*',
    decreases s.len() - i,
{
    if i < s.len() && s[i] == '*' {
        lemma_star_run(s, i + 1);
    }
}

proof fn lemma_last_section(doc: Seq<Block>, n: int)
    requires
        n <= doc.len(),
    ensures
        last_section(doc, n) matches Some(i) ==> 0 <= i < n && doc[i] is Section,
    decreases n,
{
    if n > 0 && !(doc[n - 1] is Section) {
        lemma_last_section(doc, n - 1);
    }
}

proof fn lemma_last_section_push(doc: Seq<Block>, b: Block)
    requires
        b is Section,
        last_section(doc, doc.len() as int) is None,
    ensures
        last_section(doc.push(b), doc.len() + 1 as int) == Some(doc.len() as int),
{
}

// ---------------------------------------------------------------------------
// The parser.

/// Errors of the parse.
#[derive(Debug)]
pub enum ParserError {
    /// A range of characters outside the input.
    SubStrOutOfRange { start: usize, end: usize },
    /// A unit did not start at the beginning of a line.
    BadStart,
}

/// A cursor over the characters of the input that builds the document unit by unit.
pub struct Parser {
    input: Vec<char>,
    offset: usize,
    document: OrgDocument,
    headline: Option<OrgHeadline>,
}

fn is_char(o: Option<char>, c: char) -> (r: bool)
    ensures
        r == (o == Some(c)),
{
    match o {
        Some(x) => x == c,
        None => false,
    }
}

fn is_section(c: &OrgContent) -> (r: bool)
    ensures
        r == (view_block(*c) is Section),
{
    match c {
        OrgContent::Section(_) => true,
        _ => false,
    }
}

fn ends_with_list_node(v: &Vec<OrgSectionContent>) -> (r: bool)
    ensures
        r == (v@.len() > 0 && view_node(v@.last()) is List),
{
    if v.len() == 0 {
        false
    } else {
        match &v[v.len() - 1] {
            OrgSectionContent::List(_) => true,
            _ => false,
        }
    }
}

fn ends_with_newline_node(v: &Vec<OrgSectionContent>) -> (r: bool)
    ensures
        r == (v@.len() > 0 && view_node(v@.last()) is Newline),
{
    if v.len() == 0 {
        false
    } else {
        match &v[v.len() - 1] {
            OrgSectionContent::Newline => true,
            _ => false,
        }
    }
}

/// Takes away the newline nodes that end a body.
fn strip_trailing_newlines(v: &mut Vec<OrgSectionContent>)
    ensures
        view_nodes(final(v)@) == strip_newlines(view_nodes(old(v)@)),
{
    while v.len() > 0 && ends_with_newline_node(v)
        invariant
            strip_newlines(view_nodes(v@)) == strip_newlines(view_nodes(old(v)@)),
        decreases v@.len(),
    {
        let ghost before_pop = v@;
        let _ = v.pop();
        proof {
            lemma_view_nodes(before_pop);
            lemma_view_nodes(v@);
            assert(view_nodes(v@) =~= view_nodes(before_pop).drop_last());
        }
    }
    proof {
        lemma_view_nodes(v@);
    }
}

fn starts_with_list_node(v: &Vec<OrgSectionContent>) -> (r: bool)
    ensures
        r == (v@.len() > 0 && view_node(v@[0]) is List),
{
    if v.len() == 0 {
        false
    } else {
        match &v[0] {
            OrgSectionContent::List(_) => true,
            _ => false,
        }
    }
}

fn keyword_split_at(t: &Vec<char>) -> (r: (Option<String>, usize))
    ensures
        (view_opt_str(r.0), r.1 as int) == keyword_split(t@),
{
    if t.len() >= 4 && ((t[0] == 'T' && t[1] == 'O' && t[2] == 'D' && t[3] == 'O') || (t[0] == 'D'
        && t[1] == 'O' && t[2] == 'N' && t[3] == 'E')) && (t.len() == 4 || char_is_ws(t[4])) {
        proof {
            if t[0] == 'T' {
                assert(t@.subrange(0, 4) =~= seq!['T', 'O', 'D', 'O']);
            } else {
                assert(t@.subrange(0, 4) =~= seq!['D', 'O', 'N', 'E']);
            }
        }
        (Some(chars_to_string(t, 0, 4)), if t.len() == 4 { 4 } else { 5 })
    } else {
        proof {
            if t@.len() >= 4 && t@.subrange(0, 4) == seq!['T', 'O', 'D', 'O'] {
                assert(t@.subrange(0, 4)[0] == 'T' && t@.subrange(0, 4)[1] == 'O');
                assert(t@.subrange(0, 4)[2] == 'D' && t@.subrange(0, 4)[3] == 'O');
            }
            if t@.len() >= 4 && t@.subrange(0, 4) == seq!['D', 'O', 'N', 'E'] {
                assert(t@.subrange(0, 4)[0] == 'D' && t@.subrange(0, 4)[1] == 'O');
                assert(t@.subrange(0, 4)[2] == 'N' && t@.subrange(0, 4)[3] == 'E');
            }
        }
        (None, 0)
    }
}

impl Parser {
    /// The characters of the input.
    pub closed spec fn input_chars(&self) -> Seq<char> {
        self.input@
    }

    /// The state of the parse.
    pub closed spec fn state(&self) -> PState {
        PState { pos: self.offset as int, doc: self.document.view(), pending: view_opt_headline(self.headline) }
    }

    /// The cursor stands in the input, at the start of a line.
    pub closed spec fn wf(&self) -> bool {
        &&& self.offset <= self.input@.len()
        &&& (self.offset == 0 || self.offset == self.input@.len() || self.input@[self.offset - 1] == '\n')
    }

    pub fn new(input: &str) -> (r: Parser)
        ensures
            r.wf(),
            r.input_chars() == input@,
            r.state() == (PState { pos: 0, doc: Seq::empty(), pending: None }),
    {
        let r = Parser {
            input: str_chars(input),
            offset: 0,
            document: OrgDocument { content: Vec::new() },
            headline: None,
        };
        proof {
            assert(r.document.view() =~= Seq::<Block>::empty());
        }
        r
    }

    fn peek_char(&self) -> (r: Option<char>)
        requires
            self.offset <= self.input@.len(),
        ensures
            r == (if self.offset < self.input@.len() { Some(self.input@[self.offset as int]) } else { None }),
    {
        if self.offset < self.input.len() {
            Some(self.input[self.offset])
        } else {
            None
        }
    }

    fn peek_char_offset(&self, k: usize) -> (r: Option<char>)
        requires
            self.offset <= self.input@.len(),
        ensures
            r == (if self.offset + k < self.input@.len() { Some(self.input@[self.offset + k]) } else { None }),
    {
        if k < self.input.len() - self.offset {
            Some(self.input[self.offset + k])
        } else {
            None
        }
    }

    fn prev_char(&self) -> (r: Option<char>)
        requires
            self.offset <= self.input@.len(),
        ensures
            r == (if self.offset > 0 { Some(self.input@[self.offset - 1]) } else { None }),
    {
        if self.offset == 0 {
            None
        } else {
            Some(self.input[self.offset - 1])
        }
    }

    fn next_if(&mut self, c: char) -> (r: bool)
        requires
            old(self).offset <= old(self).input@.len(),
        ensures
            r == (old(self).offset < old(self).input@.len() && old(self).input@[old(self).offset as int] == c),
            final(self).offset == (if r { old(self).offset + 1 } else { old(self).offset as int }),
            final(self).input == old(self).input,
            final(self).document == old(self).document,
            final(self).headline == old(self).headline,
    {
        if self.offset < self.input.len() && self.input[self.offset] == c {
            self.offset = self.offset + 1;
            true
        } else {
            false
        }
    }

    /// Advances over a run of `*`; returns its length.
    fn skip_stars(&mut self) -> (r: usize)
        requires
            old(self).offset <= old(self).input@.len(),
        ensures
            final(self).offset == star_run(old(self).input@, old(self).offset as int),
            r == final(self).offset - old(self).offset,
            final(self).input == old(self).input,
            final(self).document == old(self).document,
            final(self).headline == old(self).headline,
    {
        let start = self.offset;
        while self.offset < self.input.len() && self.input[self.offset] == '*'
            invariant
                start <= self.offset <= self.input@.len(),
                star_run(self.input@, self.offset as int) == star_run(self.input@, start as int),
                self.input == old(self).input,
                self.document == old(self).document,
                self.headline == old(self).headline,
            decreases self.input@.len() - self.offset,
        {
            self.offset = self.offset + 1;
        }
        self.offset - start
    }

    /// Advances to the end of the line: the next newline, or the end of the input.
    fn skip_line(&mut self)
        requires
            old(self).offset <= old(self).input@.len(),
        ensures
            final(self).offset == line_end(old(self).input@, old(self).offset as int),
            final(self).input == old(self).input,
            final(self).document == old(self).document,
            final(self).headline == old(self).headline,
    {
        let ghost start = self.offset as int;
        while self.offset < self.input.len() && self.input[self.offset] != '\n'
            invariant
                start <= self.offset <= self.input@.len(),
                line_end(self.input@, self.offset as int) == line_end(self.input@, start),
                self.input == old(self).input,
                self.document == old(self).document,
                self.headline == old(self).headline,
            decreases self.input@.len() - self.offset,
        {
            self.offset = self.offset + 1;
        }
    }

    /// The characters from `start` to `end`.
    fn sub_str(&self, start: usize, end: usize) -> (r: Result<Vec<char>, ParserError>)
        ensures
            start <= end <= self.input@.len() ==> (r matches Ok(t) && t@ == self.input@.subrange(start as int, end as int)),
            !(start <= end <= self.input@.len()) ==> (r matches Err(ParserError::SubStrOutOfRange { start: s, end: e }) && s == start && e == end),
    {
        if start <= end && end <= self.input.len() {
            Ok(sub_chars(&self.input, start, end))
        } else {
            Err(ParserError::SubStrOutOfRange { start, end })
        }
    }

    /// A waiting headline becomes a section with an empty body.
    fn flush_headline(&mut self)
        ensures
            final(self).document.view() == flush(old(self).document.view(), view_opt_headline(old(self).headline)),
            final(self).headline is None,
            final(self).input == old(self).input,
            final(self).offset == old(self).offset,
    {
        let mut h: Option<OrgHeadline> = None;
        std::mem::swap(&mut h, &mut self.headline);
        match h {
            Some(h) => {
                let ghost before = self.document.content@;
                self.document.content.push(OrgContent::Section(OrgSection { headline: Some(h), children: Vec::new() }));
                proof {
                    lemma_view_nodes_empty(Seq::<OrgSectionContent>::empty());
                    assert(self.document.view() =~= flush(view_blocks(before), view_opt_headline(Some(h))));
                }
            },
            None => {},
        }
    }

    /// Parses one unit from the start of a line: a headline, a comment, a keyword line or a
    /// body line. A cursor that does not stand at the start of a line is refused with
    /// `BadStart`, the parser unchanged.
    fn parse_content(&mut self) -> (r: Result<(), ParserError>)
        requires
            old(self).offset <= old(self).input@.len(),
        ensures
            (old(self).offset == 0 || old(self).input@[old(self).offset - 1] == '\n') ==> {
                &&& r is Ok
                &&& final(self).wf()
                &&& final(self).input == old(self).input
                &&& final(self).state() == step(old(self).input@, old(self).state())
            },
            !(old(self).offset == 0 || old(self).input@[old(self).offset - 1] == '\n') ==> {
                &&& r matches Err(ParserError::BadStart)
                &&& *final(self) == *old(self)
            },
    {
        let ghost s = self.input@;
        let ghost st = self.state();
        let start = self.offset;
        proof {
            lemma_line_end(s, start as int);
            lemma_star_run(s, start as int);
        }
        match self.prev_char() {
            Some(c) => {
                if c != '\n' {
                    return Err(ParserError::BadStart);
                }
            },
            None => {},
        }

        let stars = self.skip_stars();
        let mut is_head = false;
        if stars >= 1 && stars <= 255 {
            is_head = self.next_if(' ');
        }
        if is_head {
            assert(is_headline(s, start as int));
            self.flush_headline();
            let text_start = self.offset;
            assert(text_start <= line_end(s, start as int)) by {
                if line_end(s, start as int) < text_start {
                    let le = line_end(s, start as int);
                    assert(s[le] == '\n');
                }
            }
            proof { lemma_line_end_same(s, start as int, text_start as int); }
            self.skip_line();
            let text = match self.sub_str(text_start, self.offset) {
                Ok(t) => t,
                Err(e) => {
                    return Err(e);
                },
            };
            let (keyword, cs) = keyword_split_at(&text);
            let title = sub_chars(&text, cs, text.len());
            let mut no_section: Vec<OrgSectionContent> = Vec::new();
            proof { lemma_view_nodes_empty(no_section@); }
            let content = parse_inline(&title, &mut no_section, false);
            self.next_if('\n');
            self.headline = Some(OrgHeadline { level: stars as u8, keyword, content });
            return Ok(());
        }
        assert(!is_headline(s, start as int));
        self.offset = start;

        let c0 = self.peek_char();
        let c1 = self.peek_char_offset(1);
        if is_char(c0, '#') && is_char(c1, ' ') {
            self.skip_line();
            let text = match self.sub_str(start + 2, self.offset) {
                Ok(t) => t,
                Err(e) => {
                    return Err(e);
                },
            };
            self.next_if('\n');
            let ghost before = self.document.content@;
            self.document.content.push(OrgContent::Comment(chars_to_string(&text, 0, text.len())));
            proof {
                assert(text@.subrange(0, text@.len() as int) =~= text@);
                assert(self.document.view() =~= view_blocks(before).push(Block::Comment(s.subrange(start + 2, line_end(s, start as int)))));
            }
            return Ok(());
        }
        if is_char(c0, '#') && is_char(c1, '+') {
            self.skip_line();
            let text = match self.sub_str(start + 2, self.offset) {
                Ok(t) => t,
                Err(e) => {
                    return Err(e);
                },
            };
            match find2_at(&text, ':', ' ', 0) {
                Some(q) => {
                    proof { crate::spans::lemma_find2(text@, ':', ' ', 0); }
                    let key = chars_to_string(&text, 0, q);
                    let value = chars_to_string(&text, q + 2, text.len());
                    self.next_if('\n');
                    let ghost before = self.document.content@;
                    self.document.content.push(OrgContent::Keyword(OrgKeyword { key, value }));
                    proof {
                        assert(self.document.view() =~= view_blocks(before).push(Block::Keyword(text@.subrange(0, q as int), text@.subrange(q + 2, text@.len() as int))));
                    }
                    return Ok(());
                },
                None => {
                    self.offset = start;
                },
            }
        }
        assert(!is_comment(s, start as int) && !is_keyword(s, start as int));

        self.flush_headline();
        let ghost d1 = self.document.view();
        self.skip_line();
        let text = match self.sub_str(start, self.offset) {
            Ok(t) => t,
            Err(e) => {
                return Err(e);
            },
        };
        self.next_if('\n');
        let idx = self.last_section_index();
        let ghost d2 = self.document.view();
        let ghost before = self.document.content@;
        proof {
            lemma_last_section(d2, d2.len() as int);
            assert(d2[idx as int] == view_block(before[idx as int]));
        }
        let removed = self.document.content.remove(idx);
        match removed {
            OrgContent::Section(mut section) => {
                let ghost ch0 = section.children@;
                let content = parse_inline(&text, &mut section.children, true);
                let ghost ch1 = section.children@;
                proof {
                    lemma_view_nodes(ch1);
                    lemma_view_nodes(content@);
                }
                if starts_with_list_node(&content) {
                    strip_trailing_newlines(&mut section.children);
                } else if section.children.len() > 0 && !ends_with_list_node(&section.children) {
                    section.children.push(OrgSectionContent::Newline);
                    proof { lemma_view_nodes_push(ch1, OrgSectionContent::Newline); }
                }
                let ghost ch2 = section.children@;
                let ghost cv = content@;
                let mut content = content;
                section.children.append(&mut content);
                proof { lemma_view_nodes_concat(ch2, cv); }
                let ghost new_sec = OrgContent::Section(section);
                self.document.content.insert(idx, OrgContent::Section(section));
                proof {
                    assert(self.document.content@ =~= before.update(idx as int, new_sec));
                    assert(self.document.view() =~= d2.update(idx as int, view_block(new_sec)));
                }
            },
            other => {
                self.document.content.insert(idx, other);
            },
        }
        Ok(())
    }

    /// Parses the rest of the input; a headline still waiting at the end becomes a section.
    pub fn parse(self) -> (r: Result<OrgDocument, ParserError>)
        requires
            self.wf(),
        ensures
            r matches Ok(d) && d.view() == ({
                let fin = run(self.input_chars(), self.state());
                flush(fin.doc, fin.pending)
            }),
    {
        let mut p = self;
        let ghost s = p.input@;
        let ghost st0 = p.state();
        while p.offset < p.input.len()
            invariant
                p.wf(),
                p.input@ == s,
                run(s, p.state()) == run(s, st0),
            decreases s.len() - p.offset,
        {
            proof { lemma_step_pos(s, p.state()); }
            match p.parse_content() {
                Ok(()) => {},
                Err(e) => {
                    return Err(e);
                },
            }
        }
        p.flush_headline();
        Ok(p.document)
    }

    /// The index of the last section; a new empty section is added when there is none.
    fn last_section_index(&mut self) -> (r: usize)
        ensures
            ({
                let d = old(self).document.view();
                let d2 = if last_section(d, d.len() as int) is Some { d } else { d.push(Block::Section(None, Seq::empty())) };
                &&& final(self).document.view() == d2
                &&& last_section(d2, d2.len() as int) == Some(r as int)
            }),
            r < final(self).document.content@.len(),
            final(self).input == old(self).input,
            final(self).offset == old(self).offset,
            final(self).headline == old(self).headline,
    {
        let ghost d = self.document.view();
        let mut n = self.document.content.len();
        while n > 0
            invariant
                n <= self.document.content@.len(),
                d == self.document.view(),
                *self == *old(self),
                last_section(d, n as int) == last_section(d, d.len() as int),
            decreases n,
        {
            if is_section(&self.document.content[n - 1]) {
                proof { lemma_last_section(d, d.len() as int); }
                return n - 1;
            }
            n = n - 1;
        }
        let ghost before = self.document.content@;
        self.document.content.push(OrgContent::Section(OrgSection { headline: None, children: Vec::new() }));
        proof {
            lemma_view_nodes_empty(Seq::<OrgSectionContent>::empty());
            assert(self.document.view() =~= d.push(Block::Section(None, Seq::empty())));
            lemma_last_section_push(d, Block::Section(None, Seq::empty()));
        }
        self.document.content.len() - 1
    }
}


/// Parses a whole document. The parse never fails: every input is a document.
pub fn parse_document(input: &str) -> (r: Result<OrgDocument, ParserError>)
    ensures
        r matches Ok(d) && d.view() == parse_doc(input@),
{
    Parser::new(input).parse()
}

} // verus!
