use vstd::prelude::*;
use crate::text::{push_char, push_str_to};
use vstd::string::StringExecFns;

verus! {

/// A table of contents: the tree of headings of one document, and the anchors given out.
#[derive(Debug, Default)]
pub struct Toc {
    sections: Vec<TocSection>,
    used_shortcuts: Vec<String>,
}

/// One entry of the table of contents: its 1-based number among its siblings, its anchor,
/// its text, and the entries below it.
#[derive(Debug, Default)]
pub struct TocSection {
    num: usize,
    shortcut: String,
    text: String,
    sections: Vec<TocSection>,
}

/// Errors of the table of contents.
#[derive(Debug, PartialEq, Eq)]
pub enum TocError {
    /// The anchor and its numbered variants 1 to 99 are all taken.
    SlugExhausted,
}

/// Model of an entry.
pub struct TocNode {
    pub num: nat,
    pub slug: Seq<char>,
    pub text: Seq<char>,
    pub children: Seq<TocNode>,
}

pub closed spec fn view_toc(t: TocSection) -> TocNode
    decreases t, 1nat,
{
    TocNode { num: t.num as nat, slug: t.shortcut@, text: t.text@, children: view_tocs(t.sections@) }
}

pub closed spec fn view_tocs(v: Seq<TocSection>) -> Seq<TocNode>
    decreases v, 0nat,
{
    if v.len() == 0 {
        Seq::empty()
    } else {
        seq![view_toc(v[0])] + view_tocs(v.subrange(1, v.len() as int))
    }
}

pub proof fn lemma_view_tocs(v: Seq<TocSection>)
    ensures
        view_tocs(v).len() == v.len(),
        forall|i: int| 0 <= i < v.len() ==> #[trigger] view_tocs(v)[i] == view_toc(v[i]),
    decreases v.len(),
{
    if v.len() > 0 {
        let t = v.subrange(1, v.len() as int);
        lemma_view_tocs(t);
        assert forall|i: int| 0 <= i < v.len() implies #[trigger] view_tocs(v)[i] == view_toc(v[i]) by {
            if i > 0 {
                assert(t[i - 1] == v[i]);
            }
        }
    }
}

pub open spec fn blank_node() -> TocNode {
    TocNode { num: 0, slug: Seq::empty(), text: Seq::empty(), children: Seq::empty() }
}

/// The number of a new sibling after `n` others (it saturates at the largest `usize`).
pub open spec fn next_num(n: int) -> nat {
    if n < usize::MAX {
        (n + 1) as nat
    } else {
        usize::MAX as nat
    }
}

/// Places an entry `depth` levels below `secs`: at depth 0 a new sibling, numbered after the
/// others; deeper, under the last entry (a blank one is made where there is none).
pub open spec fn place(secs: Seq<TocNode>, depth: nat, slug: Seq<char>, text: Seq<char>) -> Seq<TocNode>
    decreases depth,
{
    if depth == 0 {
        secs.push(TocNode { num: next_num(secs.len() as int), slug, text, children: Seq::empty() })
    } else {
        let s1 = if secs.len() == 0 { seq![blank_node()] } else { secs };
        let last = s1.last();
        s1.update(s1.len() - 1, TocNode { children: place(last.children, (depth - 1) as nat, slug, text), ..last })
    }
}

/// `char::is_alphanumeric`: alphabetic or numeric in the Unicode sense.
pub uninterp spec fn alnum(c: char) -> bool;

/// Relies on `char::is_alphanumeric`; its result depends on the character alone.
#[verifier::external_body]
fn is_alnum(c: char) -> (r: bool)
    ensures
        r == alnum(c),
{
    c.is_alphanumeric()
}

pub open spec fn ascii_lower(c: char) -> char {
    if 'A' <= c <= 'Z' {
        ((c as u32) + 32) as char
    } else {
        c
    }
}

/// ASCII upper-case letters in lower case; other characters as they are.
pub(crate) fn lower_ascii(c: char) -> (r: char)
    ensures
        r == ascii_lower(c),
{
    if 'A' <= c && c <= 'Z' {
        ((c as u8) + 32) as char
    } else {
        c
    }
}

/// The anchor text of a title: its alphanumeric characters, ASCII letters in lower case.
/// (Spaces would become hyphens, which are not alphanumeric and so go too.)
pub open spec fn slug_base(t: Seq<char>) -> Seq<char>
    decreases t.len(),
{
    if t.len() == 0 {
        Seq::empty()
    } else if alnum(t.last()) {
        slug_base(t.drop_last()).push(ascii_lower(t.last()))
    } else {
        slug_base(t.drop_last())
    }
}

pub open spec fn digit(d: int) -> char {
    seq!['0', '1', '2', '3', '4', '5', '6', '7', '8', '9'][d]
}

/// The decimal digits of `i`, for `0 <= i < 100`.
pub open spec fn decimal(i: int) -> Seq<char> {
    if i < 10 {
        seq![digit(i)]
    } else {
        seq![digit(i / 10), digit(i % 10)]
    }
}

/// The first of `base` followed by `i`, `i + 1`, ..., 99 that is not in `used`.
pub open spec fn first_free(base: Seq<char>, used: Seq<Seq<char>>, i: int) -> Option<Seq<char>>
    decreases 100 - i,
{
    if i < 1 || i > 99 {
        None
    } else if !used.contains(base + decimal(i)) {
        Some(base + decimal(i))
    } else {
        first_free(base, used, i + 1)
    }
}

/// The anchor for a base: the base when free, else the base with the first free number.
pub open spec fn free_slug(base: Seq<char>, used: Seq<Seq<char>>) -> Option<Seq<char>> {
    if !used.contains(base) {
        Some(base)
    } else {
        first_free(base, used, 1)
    }
}

/// The anchor for a title.
pub open spec fn unique_slug(title: Seq<char>, used: Seq<Seq<char>>) -> Option<Seq<char>> {
    free_slug(slug_base(title), used)
}

pub proof fn lemma_first_free(base: Seq<char>, used: Seq<Seq<char>>, i: int)
    ensures
        first_free(base, used, i) matches Some(s) ==> !used.contains(s),
    decreases 100 - i,
{
    if 1 <= i <= 99 && used.contains(base + decimal(i)) {
        lemma_first_free(base, used, i + 1);
    }
}

pub open spec fn view_strs(v: Seq<String>) -> Seq<Seq<char>> {
    Seq::new(v.len(), |i: int| v[i]@)
}

impl TocSection {
    /// Model of the entry.
    pub closed spec fn node(&self) -> TocNode {
        view_toc(*self)
    }

    pub fn num(&self) -> (r: usize)
        ensures
            r as nat == self.node().num,
    {
        self.num
    }

    pub fn shortcut(&self) -> (r: &str)
        ensures
            r@ == self.node().slug,
    {
        self.shortcut.as_str()
    }

    pub fn text(&self) -> (r: &str)
        ensures
            r@ == self.node().text,
    {
        self.text.as_str()
    }

    /// The entries below this one.
    pub fn sections(&self) -> (r: &Vec<TocSection>)
        ensures
            r@.len() == self.node().children.len(),
            forall|i: int| 0 <= i < r@.len() ==> #[trigger] r@[i].node() == self.node().children[i],
    {
        proof { lemma_view_tocs(self.sections@); }
        &self.sections
    }
}

impl Toc {
    /// The entries at the top level.
    pub fn sections(&self) -> (r: &Vec<TocSection>)
        ensures
            r@.len() == self.entries().len(),
            forall|i: int| 0 <= i < r@.len() ==> #[trigger] r@[i].node() == self.entries()[i],
    {
        proof { lemma_view_tocs(self.sections@); }
        &self.sections
    }

    /// The entries at the top level.
    pub closed spec fn entries(&self) -> Seq<TocNode> {
        view_tocs(self.sections@)
    }

    /// The anchors given out so far, in order.
    pub closed spec fn used(&self) -> Seq<Seq<char>> {
        view_strs(self.used_shortcuts@)
    }

    pub fn new() -> (r: Toc)
        ensures
            r.entries() == Seq::<TocNode>::empty(),
            r.used() == Seq::<Seq<char>>::empty(),
    {
        let r = Toc { sections: Vec::new(), used_shortcuts: Vec::new() };
        proof {
            assert(r.used() =~= Seq::<Seq<char>>::empty());
            assert(view_tocs(r.sections@) =~= Seq::<TocNode>::empty());
        }
        r
    }

    fn is_used(&self, s: &String) -> (r: bool)
        ensures
            r == self.used().contains(s@),
    {
        let mut i: usize = 0;
        while i < self.used_shortcuts.len()
            invariant
                i <= self.used_shortcuts@.len(),
                forall|j: int| 0 <= j < i ==> self.used_shortcuts@[j]@ != s@,
            decreases self.used_shortcuts@.len() - i,
        {
            if self.used_shortcuts[i] == *s {
                proof {
                    assert(self.used()[i as int] == s@);
                }
                return true;
            }
            i = i + 1;
        }
        proof {
            if self.used().contains(s@) {
                let j = choose|j: int| 0 <= j < self.used().len() && self.used()[j] == s@;
                assert(self.used_shortcuts@[j]@ == s@);
            }
        }
        false
    }
}


/// The anchor text of a title.
fn slug_of(title: &str) -> (r: String)
    ensures
        r@ == slug_base(title@),
{
    let cs = crate::text::str_chars(title);
    let mut r = String::new();
    let mut i: usize = 0;
    while i < cs.len()
        invariant
            i <= cs@.len(),
            cs@ == title@,
            r@ == slug_base(cs@.subrange(0, i as int)),
        decreases cs@.len() - i,
    {
        let c = cs[i];
        proof {
            assert(cs@.subrange(0, i + 1).drop_last() =~= cs@.subrange(0, i as int));
            assert(cs@.subrange(0, i + 1).last() == c);
        }
        if is_alnum(c) {
            push_char(&mut r, lower_ascii(c));
        }
        i = i + 1;
    }
    proof {
        assert(cs@.subrange(0, cs@.len() as int) =~= cs@);
    }
    r
}

pub(crate) fn digit_char(d: usize) -> (r: char)
    requires
        d < 10,
    ensures
        r == digit(d as int),
{
    let digits: [char; 10] = ['0', '1', '2', '3', '4', '5', '6', '7', '8', '9'];
    proof {
        assert(digits@ =~= seq!['0', '1', '2', '3', '4', '5', '6', '7', '8', '9']);
    }
    digits[d]
}

/// `base` followed by the decimal digits of `i`.
fn with_number(base: &String, i: usize) -> (r: String)
    requires
        1 <= i <= 99,
    ensures
        r@ == base@ + decimal(i as int),
{
    let mut r = String::new();
    push_str_to(&mut r, base.as_str());
    if i < 10 {
        push_char(&mut r, digit_char(i));
    } else {
        push_char(&mut r, digit_char(i / 10));
        push_char(&mut r, digit_char(i % 10));
    }
    proof {
        assert(r@ =~= base@ + decimal(i as int));
    }
    r
}

/// Places an entry `depth` levels below `secs`.
fn place_entry(secs: &mut Vec<TocSection>, depth: u8, slug: String, text: String)
    ensures
        view_tocs(final(secs)@) == place(view_tocs(old(secs)@), depth as nat, slug@, text@),
    decreases depth,
{
    let ghost old_view = view_tocs(secs@);
    proof { lemma_view_tocs(secs@); }
    if depth == 0 {
        let n = secs.len();
        let num = if n < usize::MAX { n + 1 } else { n };
        secs.push(TocSection { num, shortcut: slug, text, sections: Vec::new() });
        proof {
            lemma_view_tocs(secs@);
            lemma_view_tocs(Seq::<TocSection>::empty());
            assert(view_tocs(secs@) =~= place(old_view, depth as nat, slug@, text@));
        }
    } else {
        if secs.len() == 0 {
            secs.push(TocSection { num: 0, shortcut: String::new(), text: String::new(), sections: Vec::new() });
            proof {
                lemma_view_tocs(secs@);
                lemma_view_tocs(Seq::<TocSection>::empty());
                assert(view_tocs(secs@) =~= seq![blank_node()]);
            }
        }
        let ghost s1 = view_tocs(secs@);
        let ghost before = secs@;
        proof { lemma_view_tocs(before); }
        match secs.pop() {
            Some(mut last) => {
                place_entry(&mut last.sections, depth - 1, slug, text);
                secs.push(last);
                proof {
                    lemma_view_tocs(secs@);
                    assert(view_tocs(secs@) =~= s1.update(s1.len() - 1, TocNode { children: place(s1.last().children, (depth - 1) as nat, slug@, text@), ..s1.last() }));
                }
            },
            None => {},
        }
    }
}

impl Toc {
    /// Adds a heading at `level` (1 for the top) with the given title; returns its anchor.
    /// The anchor is the title's slug when that is free, else the slug with the first free
    /// number from 1 to 99; every anchor given out differs from all the earlier ones.
    pub fn add_headline(&mut self, level: u8, title: &str) -> (r: Result<String, TocError>)
        requires
            level >= 1,
        ensures
            match unique_slug(title@, old(self).used()) {
                Some(slug) => r matches Ok(s) && s@ == slug
                    && !old(self).used().contains(slug)
                    && final(self).used() == old(self).used().push(slug)
                    && final(self).entries() == place(old(self).entries(), (level - 1) as nat, slug, title@),
                None => r == Err::<String, TocError>(TocError::SlugExhausted) && *final(self) == *old(self),
            },
    {
        let base = slug_of(title);
        self.add_with_base(level, &base, title)
    }

    /// Adds a heading at `level` whose anchor is made from `base` (the slug of its title).
    pub fn add_with_base(&mut self, level: u8, base: &String, title: &str) -> (r: Result<String, TocError>)
        requires
            level >= 1,
        ensures
            match free_slug(base@, old(self).used()) {
                Some(slug) => r matches Ok(s) && s@ == slug
                    && !old(self).used().contains(slug)
                    && final(self).used() == old(self).used().push(slug)
                    && final(self).entries() == place(old(self).entries(), (level - 1) as nat, slug, title@),
                None => r == Err::<String, TocError>(TocError::SlugExhausted) && *final(self) == *old(self),
            },
    {
        let mut shortcut = String::new();
        let mut found = false;
        if !self.is_used(base) {
            shortcut = String::from_str(base.as_str());
            found = true;
        } else {
            let mut i: usize = 1;
            while i < 100 && !found
                invariant
                    1 <= i <= 100,
                    self.used().contains(base@),
                    *self == *old(self),
                    !found ==> first_free(base@, self.used(), 1) == first_free(base@, self.used(), i as int),
                    found ==> first_free(base@, self.used(), 1) == Some(shortcut@),
                decreases 100 - i,
            {
                let candidate = with_number(base, i);
                if !self.is_used(&candidate) {
                    shortcut = candidate;
                    found = true;
                }
                i = i + 1;
            }
            proof {
                if !found {
                    assert(first_free(base@, self.used(), i as int) is None);
                }
            }
            if !found {
                return Err(TocError::SlugExhausted);
            }
        }
        proof {
            lemma_first_free(base@, self.used(), 1);
        }
        let ghost old_used = self.used();
        let ghost title_view = title@;
        self.used_shortcuts.push(shortcut.clone());
        proof {
            assert(self.used() =~= old_used.push(shortcut@));
        }
        let text = String::from_str(title);
        place_entry(&mut self.sections, level - 1, shortcut.clone(), text);
        Ok(shortcut)
    }
}

} // verus!
