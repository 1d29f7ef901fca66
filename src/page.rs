use vstd::prelude::*;
use crate::ast::{Block, OrgContent, OrgDocument};
use crate::emitter::{emit_doc, emit_document, OrgError};
use crate::parser::{parse_doc, parse_document, ParserError};
use crate::spans::{find1, find1_at, lemma_find1};
use crate::text::{chars_to_string, str_chars};
use crate::toc::Toc;
use crate::template_fns::{file_name, last_index, last_of, lemma_last_of};
use crate::text::push_str_to;
use vstd::string::StringExecFns;

verus! {

/// A calendar date.
#[derive(Debug, Clone, Copy, PartialEq, Eq, Structural, PartialOrd, Ord, Hash)]
pub struct Date {
    pub year: i32,
    pub month: u32,
    pub day: u32,
}

/// What chrono's `NaiveDate::parse_from_str(s, "%Y-%m-%d %a")` yields for `s`, as
/// (year, month, day); `None` when it fails.
pub uninterp spec fn parsed_date(s: Seq<char>) -> Option<(int, int, int)>;

/// Relies on `chrono::NaiveDate::parse_from_str` with the format `%Y-%m-%d %a`: a date such
/// as `2021-03-04 Thu`, whose weekday must agree with the date. The result depends on the
/// text alone.
#[verifier::external_body]
fn parse_day(s: &str) -> (r: Option<Date>)
    ensures
        match r {
            Some(d) => parsed_date(s@) == Some((d.year as int, d.month as int, d.day as int)),
            None => parsed_date(s@) is None,
        },
{
    match chrono::NaiveDate::parse_from_str(s, "%Y-%m-%d %a") {
        Ok(d) => Some(Date {
            year: chrono::Datelike::year(&d),
            month: chrono::Datelike::month(&d),
            day: chrono::Datelike::day(&d),
        }),
        Err(_) => None,
    }
}

/// Errors of a page's metadata.
#[derive(Debug)]
pub enum PageError {
    /// A malformed DATE keyword: the reason, and the keyword's value.
    InvalidDateField(String, String),
    /// A timestamp that is not a date: the text between the angle brackets.
    InvalidDate(String),
    /// A tag with a character other than an ASCII lower-case letter.
    InvalidTag(String),
    /// The document could not be parsed.
    Parse(ParserError),
}

/// The value of the first keyword with the given key.
pub open spec fn keyword_value(blocks: Seq<Block>, key: Seq<char>) -> Option<Seq<char>>
    decreases blocks.len(),
{
    if blocks.len() == 0 {
        None
    } else {
        match blocks[0] {
            Block::Keyword(k, v) => if k == key {
                Some(v)
            } else {
                keyword_value(blocks.subrange(1, blocks.len() as int), key)
            },
            _ => keyword_value(blocks.subrange(1, blocks.len() as int), key),
        }
    }
}

/// The texts of the timestamps of a DATE value: `<a>` or `<a>---<b>`; what follows the last
/// `>` is not read. An error gives the reason.
pub open spec fn date_texts(v: Seq<char>) -> Result<(Seq<char>, Option<Seq<char>>), Seq<char>> {
    if v.len() == 0 || v[0] != '<' {
        Err("Missing timestamp"@)
    } else {
        match find1(v, '>', 0) {
            None => Err("Unterminated timestamp"@),
            Some(e) => if e + 1 == v.len() {
                Ok((v.subrange(1, e), None))
            } else if !(e + 3 < v.len() && v[e + 1] == '-' && v[e + 2] == '-' && v[e + 3] == '-') {
                Err("Wrong sequence between dates"@)
            } else {
                let r = v.subrange(e + 4, v.len() as int);
                if r.len() == 0 || r[0] != '<' {
                    Err("Missing timestamp"@)
                } else {
                    match find1(r, '>', 0) {
                        None => Err("Unterminated timestamp"@),
                        Some(e2) => Ok((v.subrange(1, e), Some(r.subrange(1, e2)))),
                    }
                }
            },
        }
    }
}

/// A DATE value read as one or two dates, each in the form chrono reads with `%Y-%m-%d %a`.
pub open spec fn date_field(v: Seq<char>) -> Result<((int, int, int), Option<(int, int, int)>), PageFault> {
    match date_texts(v) {
        Err(reason) => Err(PageFault::DateField(reason, v)),
        Ok((a, b)) => match parsed_date(a) {
            None => Err(PageFault::Date(a)),
            Some(d1) => match b {
                None => Ok((d1, None)),
                Some(bt) => match parsed_date(bt) {
                    None => Err(PageFault::Date(bt)),
                    Some(d2) => Ok((d1, Some(d2))),
                },
            },
        },
    }
}

pub open spec fn is_lower_tag(t: Seq<char>) -> bool {
    forall|i: int| 0 <= i < t.len() ==> 'a' <= #[trigger] t[i] <= 'z'
}

/// The tags of a TAGS value, split at each space; the first tag with a character other
/// than an ASCII lower-case letter is refused.
pub open spec fn tags_of(v: Seq<char>) -> Result<Seq<Seq<char>>, Seq<char>>
    decreases v.len(),
    via tags_of_decreases
{
    match find1(v, ' ', 0) {
        None => if is_lower_tag(v) {
            Ok(seq![v])
        } else {
            Err(v)
        },
        Some(k) => {
            let t = v.subrange(0, k);
            if !is_lower_tag(t) {
                Err(t)
            } else {
                match tags_of(v.subrange(k + 1, v.len() as int)) {
                    Ok(ts) => Ok(seq![t] + ts),
                    Err(b) => Err(b),
                }
            }
        },
    }
}

/// What a page holds besides its document.
pub struct PageMeta {
    pub title: Option<Seq<char>>,
    pub ty: Option<Seq<char>>,
    pub template: Option<Seq<char>>,
    pub description: Option<Seq<char>>,
    pub page_path: Seq<char>,
    pub date: Option<(int, int, int)>,
    pub date_updated: Option<(int, int, int)>,
    pub tags: Seq<Seq<char>>,
}

/// Model of a page error.
pub enum PageFault {
    DateField(Seq<char>, Seq<char>),
    Date(Seq<char>),
    Tag(Seq<char>),
}

/// The metadata of a page at `path` whose document is `doc`: TITLE, TYPE, TEMPLATE and
/// DESCRIPTION as they stand; DATE read as one or two dates; TAGS split at spaces.
pub open spec fn page_of(path: Seq<char>, doc: Seq<Block>) -> Result<PageMeta, PageFault> {
    let dates: Result<(Option<(int, int, int)>, Option<(int, int, int)>), PageFault> = match keyword_value(doc, "DATE"@) {
        None => Ok((None, None)),
        Some(v) => match date_field(v) {
            Ok((d1, d2)) => Ok((Some(d1), d2)),
            Err(f) => Err(f),
        },
    };
    let tags: Result<Seq<Seq<char>>, PageFault> = match keyword_value(doc, "TAGS"@) {
        None => Ok(Seq::empty()),
        Some(v) => match tags_of(v) {
            Ok(ts) => Ok(ts),
            Err(b) => Err(PageFault::Tag(b)),
        },
    };
    match dates {
        Err(f) => Err(f),
        Ok((d1, d2)) => match tags {
            Err(f) => Err(f),
            Ok(ts) => Ok(PageMeta {
                title: keyword_value(doc, "TITLE"@),
                ty: keyword_value(doc, "TYPE"@),
                template: keyword_value(doc, "TEMPLATE"@),
                description: keyword_value(doc, "DESCRIPTION"@),
                page_path: path,
                date: d1,
                date_updated: d2,
                tags: ts,
            }),
        },
    }
}

pub open spec fn view_date(d: Option<Date>) -> Option<(int, int, int)> {
    match d {
        Some(d) => Some((d.year as int, d.month as int, d.day as int)),
        None => None,
    }
}

pub open spec fn view_fault(e: PageError) -> PageFault {
    match e {
        PageError::InvalidDateField(r, v) => PageFault::DateField(r@, v@),
        PageError::InvalidDate(t) => PageFault::Date(t@),
        PageError::InvalidTag(t) => PageFault::Tag(t@),
        PageError::Parse(_) => PageFault::Date(Seq::empty()),
    }
}

impl OrgDocument {
    /// The value of the first keyword with the given key.
    pub fn get_keyword(&self, key: &str) -> (r: Option<String>)
        ensures
            crate::ast::view_opt_str(r) == keyword_value(self.view(), key@),
    {
        let key_s = String::from_str(key);
        let ghost v = self.view();
        proof {
            assert(v.subrange(0, v.len() as int) =~= v);
        }
        let mut i: usize = 0;
        while i < self.content.len()
            invariant
                i <= self.content@.len(),
                v == self.view(),
                key_s@ == key@,
                keyword_value(v, key@) == keyword_value(v.subrange(i as int, v.len() as int), key@),
            decreases self.content@.len() - i,
        {
            proof {
                assert(v.subrange(i as int, v.len() as int).subrange(1, v.len() - i) =~= v.subrange(i + 1, v.len() as int));
                assert(v.subrange(i as int, v.len() as int)[0] == crate::parser::view_block(self.content@[i as int]));
            }
            match &self.content[i] {
                OrgContent::Keyword(k) => {
                    if k.key == key_s {
                        return Some(k.value.clone());
                    }
                },
                _ => {},
            }
            i = i + 1;
        }
        proof {
            assert(v.subrange(i as int, v.len() as int) =~= Seq::<Block>::empty());
        }
        None
    }
}

/// Finds the timestamp `<...>` that starts `v`: the position of its `>`.
fn stamp_end(v: &Vec<char>) -> (r: Result<usize, &'static str>)
    ensures
        v@.len() == 0 || v@[0] != '<' ==> (r matches Err(m) && m@ == "Missing timestamp"@),
        v@.len() > 0 && v@[0] == '<' ==> match find1(v@, '>', 0) {
            None => r matches Err(m) && m@ == "Unterminated timestamp"@,
            Some(e) => r matches Ok(x) && x as int == e,
        },
{
    if v.len() == 0 || v[0] != '<' {
        return Err("Missing timestamp");
    }
    match find1_at(v, '>', 0) {
        None => Err("Unterminated timestamp"),
        Some(e) => Ok(e),
    }
}

/// The texts of the timestamps of a DATE value; an error names the reason and holds the value.
pub fn date_texts_of(value: &String) -> (r: Result<(String, Option<String>), PageError>)
    ensures
        match date_texts(value@) {
            Ok((a, b)) => r matches Ok((x, y)) && x@ == a && crate::ast::view_opt_str(y) == b,
            Err(reason) => r matches Err(e) && view_fault(e) == PageFault::DateField(reason, value@),
        },
{
    let v = str_chars(value.as_str());
    proof { lemma_find1(v@, '>', 0); }
    let e = match stamp_end(&v) {
        Ok(e) => e,
        Err(m) => {
            return Err(PageError::InvalidDateField(String::from_str(m), value.clone()));
        },
    };
    proof {
        assert(v@.len() > 0 && v@[0] == '<');
        assert(find1(v@, '>', 0) == Some(e as int));
        assert(1 <= e < v@.len());
    }
    let first = chars_to_string(&v, 1, e);
    if e == v.len() - 1 {
        return Ok((first, None));
    }
    if !(v.len() - e > 3 && v[e + 1] == '-' && v[e + 2] == '-' && v[e + 3] == '-') {
        return Err(PageError::InvalidDateField(String::from_str("Wrong sequence between dates"), value.clone()));
    }
    let rest = crate::text::sub_chars(&v, e + 4, v.len());
    proof { lemma_find1(rest@, '>', 0); }
    let e2 = match stamp_end(&rest) {
        Ok(e2) => e2,
        Err(m) => {
            return Err(PageError::InvalidDateField(String::from_str(m), value.clone()));
        },
    };
    let second = chars_to_string(&rest, 1, e2);
    Ok((first, Some(second)))
}

/// Reads a DATE value: one date, or two joined by `---`.
pub fn read_date_field(value: &String) -> (r: Result<(Date, Option<Date>), PageError>)
    ensures
        match date_field(value@) {
            Ok((d1, d2)) => r matches Ok((a, b)) && view_date(Some(a)) == Some(d1) && view_date(b) == d2,
            Err(f) => r matches Err(e) && view_fault(e) == f,
        },
{
    let (first, second) = match date_texts_of(value) {
        Ok(t) => t,
        Err(e) => {
            return Err(e);
        },
    };
    let d1 = match parse_day(first.as_str()) {
        Some(d) => d,
        None => {
            return Err(PageError::InvalidDate(first));
        },
    };
    match second {
        None => Ok((d1, None)),
        Some(t) => match parse_day(t.as_str()) {
            Some(d2) => Ok((d1, Some(d2))),
            None => Err(PageError::InvalidDate(t)),
        },
    }
}

fn lower_tag(v: &Vec<char>, a: usize, b: usize) -> (r: bool)
    requires
        a <= b <= v@.len(),
    ensures
        r == is_lower_tag(v@.subrange(a as int, b as int)),
{
    let mut i: usize = a;
    while i < b
        invariant
            a <= i <= b <= v@.len(),
            forall|j: int| a <= j < i ==> 'a' <= #[trigger] v@[j] <= 'z',
        decreases b - i,
    {
        if !(v[i] >= 'a' && v[i] <= 'z') {
            proof {
                assert(v@.subrange(a as int, b as int)[i - a] == v@[i as int]);
            }
            return false;
        }
        i = i + 1;
    }
    proof {
        assert forall|j: int| 0 <= j < b - a implies 'a' <= #[trigger] v@.subrange(a as int, b as int)[j] <= 'z' by {
            assert(v@.subrange(a as int, b as int)[j] == v@[a + j]);
        }
    }
    true
}

pub open spec fn with_prefix(ts: Seq<Seq<char>>, r: Result<Seq<Seq<char>>, Seq<char>>) -> Result<Seq<Seq<char>>, Seq<char>> {
    match r {
        Ok(x) => Ok(ts + x),
        Err(b) => Err(b),
    }
}

/// Splits a TAGS value at spaces; fails on the first tag that is not lower-case ASCII letters.
pub fn read_tags(value: &String) -> (r: Result<Vec<String>, PageError>)
    ensures
        match tags_of(value@) {
            Ok(ts) => r matches Ok(v) && crate::emitter::view_strs(v@) == ts,
            Err(b) => r matches Err(e) && view_fault(e) == PageFault::Tag(b),
        },
{
    let v = str_chars(value.as_str());
    let mut tags: Vec<String> = Vec::new();
    let mut pos: usize = 0;
    proof {
        assert(crate::emitter::view_strs(tags@) =~= Seq::<Seq<char>>::empty());
        assert(v@.subrange(0, v@.len() as int) =~= v@);
        match tags_of(v@) {
            Ok(x) => { assert(Seq::<Seq<char>>::empty() + x =~= x); },
            Err(_) => {},
        }
    }
    loop
        invariant
            pos <= v@.len(),
            v@ == value@,
            tags_of(value@) == with_prefix(crate::emitter::view_strs(tags@), tags_of(v@.subrange(pos as int, v@.len() as int))),
        decreases v@.len() - pos,
    {
        let ghost rest = v@.subrange(pos as int, v@.len() as int);
        let len = v.len();
        proof {
            lemma_find1(rest, ' ', 0);
        }
        let ghost old_tags = crate::emitter::view_strs(tags@);
        match find1_at(&v, ' ', pos) {
            None => {
                proof { lemma_find1_shift(v@, ' ', pos as int); }
                if lower_tag(&v, pos, v.len()) {
                    tags.push(chars_to_string(&v, pos, v.len()));
                    proof {
                        assert(crate::emitter::view_strs(tags@) =~= old_tags + seq![rest]);
                    }
                    return Ok(tags);
                } else {
                    return Err(PageError::InvalidTag(chars_to_string(&v, pos, v.len())));
                }
            },
            Some(k) => {
                proof {
                    lemma_find1_shift(v@, ' ', pos as int);
                    lemma_find1(v@, ' ', pos as int);
                    assert(find1(v@, ' ', pos as int) == Some(k as int));
                    assert(k < v@.len());
                }
                if !lower_tag(&v, pos, k) {
                    proof { assert(rest.subrange(0, k - pos) =~= v@.subrange(pos as int, k as int)); }
                    return Err(PageError::InvalidTag(chars_to_string(&v, pos, k)));
                }
                proof {
                    assert(rest.subrange(0, k - pos) =~= v@.subrange(pos as int, k as int));
                    assert(rest.subrange(k - pos + 1, rest.len() as int) =~= v@.subrange(k + 1, v@.len() as int));
                }
                tags.push(chars_to_string(&v, pos, k));
                proof {
                    assert(crate::emitter::view_strs(tags@) =~= old_tags + seq![v@.subrange(pos as int, k as int)]);
                    match tags_of(v@.subrange(k + 1, v@.len() as int)) {
                        Ok(x) => {
                            assert(old_tags + (seq![v@.subrange(pos as int, k as int)] + x) =~= (old_tags + seq![v@.subrange(pos as int, k as int)]) + x);
                        },
                        Err(_) => {},
                    }
                }
                pos = k + 1;
            },
        }
    }
}

proof fn lemma_find1_shift(v: Seq<char>, a: char, p: int)
    requires
        0 <= p <= v.len(),
    ensures
        opt_shift(find1(v, a, p), p) == find1(v.subrange(p, v.len() as int), a, 0),
    decreases v.len() - p,
{
    lemma_find1_shift_gen(v, a, p, p);
}

proof fn lemma_find1_shift_gen(v: Seq<char>, a: char, p: int, i: int)
    requires
        0 <= p <= i <= v.len(),
    ensures
        opt_shift(find1(v, a, i), p) == find1(v.subrange(p, v.len() as int), a, i - p),
    decreases v.len() - i,
{
    if i < v.len() {
        assert(v.subrange(p, v.len() as int)[i - p] == v[i]);
        lemma_find1_shift_gen(v, a, p, i + 1);
    }
}

pub open spec fn opt_shift(o: Option<int>, p: int) -> Option<int> {
    match o {
        Some(k) => Some(k - p),
        None => None,
    }
}

pub open spec fn view_opt_ref(o: Option<&str>) -> Option<Seq<char>> {
    match o {
        Some(s) => Some(s@),
        None => None,
    }
}

fn opt_as_str(o: &Option<String>) -> (r: Option<&str>)
    ensures
        view_opt_ref(r) == crate::ast::view_opt_str(*o),
{
    match o {
        Some(s) => Some(s.as_str()),
        None => None,
    }
}

/// A page of the site: its document and the metadata read from its keywords.
pub struct Page {
    document: OrgDocument,
    title: Option<String>,
    ty: Option<String>,
    template: Option<String>,
    description: Option<String>,
    page_path: String,
    date: Option<Date>,
    date_updated: Option<Date>,
    tags: Vec<String>,
}

impl Page {
    /// The metadata of the page.
    pub closed spec fn meta(&self) -> PageMeta {
        PageMeta {
            title: crate::ast::view_opt_str(self.title),
            ty: crate::ast::view_opt_str(self.ty),
            template: crate::ast::view_opt_str(self.template),
            description: crate::ast::view_opt_str(self.description),
            page_path: self.page_path@,
            date: view_date(self.date),
            date_updated: view_date(self.date_updated),
            tags: crate::emitter::view_strs(self.tags@),
        }
    }

    /// The page's document.
    pub closed spec fn doc(&self) -> Seq<Block> {
        self.document.view()
    }

    /// Parses the text of the page at `page_path` and reads its metadata.
    pub fn parse(page_path: String, text: String) -> (r: Result<Page, PageError>)
        ensures
            match page_of(page_path@, parse_doc(text@)) {
                Ok(m) => r matches Ok(p) && p.meta() == m && p.doc() == parse_doc(text@),
                Err(f) => r matches Err(e) && view_fault(e) == f,
            },
    {
        let document = match parse_document(text.as_str()) {
            Ok(d) => d,
            Err(e) => {
                return Err(PageError::Parse(e));
            },
        };
        let title = document.get_keyword("TITLE");
        let ty = document.get_keyword("TYPE");
        let template = document.get_keyword("TEMPLATE");
        let description = document.get_keyword("DESCRIPTION");
        let (date, date_updated) = match document.get_keyword("DATE") {
            Some(v) => match read_date_field(&v) {
                Ok((a, b)) => (Some(a), b),
                Err(e) => {
                    return Err(e);
                },
            },
            None => (None, None),
        };
        let tags = match document.get_keyword("TAGS") {
            Some(v) => match read_tags(&v) {
                Ok(t) => t,
                Err(e) => {
                    return Err(e);
                },
            },
            None => {
                let t: Vec<String> = Vec::new();
                proof {
                    assert(crate::emitter::view_strs(t@) =~= Seq::<Seq<char>>::empty());
                }
                t
            },
        };
        Ok(Page { document, title, ty, template, description, page_path, date, date_updated, tags })
    }

    /// Renders the page's document as HTML, with its table of contents.
    pub fn render_html(&self, base_url: &str) -> (r: Result<(Toc, String), OrgError>)
        ensures
            match emit_doc(base_url@, self.doc()) {
                Some((st, h)) => r matches Ok((toc, html)) && toc.entries() == st.entries && toc.used() == st.used && html@ == h,
                None => r is Err,
            },
    {
        emit_document(&self.document, base_url)
    }

    pub fn document(&self) -> (r: &OrgDocument)
        ensures
            r.view() == self.doc(),
    {
        &self.document
    }

    pub fn title(&self) -> (r: Option<&str>)
        ensures
            view_opt_ref(r) == self.meta().title,
    {
        opt_as_str(&self.title)
    }

    pub fn description(&self) -> (r: Option<&str>)
        ensures
            view_opt_ref(r) == self.meta().description,
    {
        opt_as_str(&self.description)
    }

    pub fn ty(&self) -> (r: Option<&str>)
        ensures
            view_opt_ref(r) == self.meta().ty,
    {
        opt_as_str(&self.ty)
    }

    pub fn template(&self) -> (r: Option<&str>)
        ensures
            view_opt_ref(r) == self.meta().template,
    {
        opt_as_str(&self.template)
    }

    pub fn date(&self) -> (r: Option<Date>)
        ensures
            view_date(r) == self.meta().date,
    {
        self.date
    }

    pub fn date_updated(&self) -> (r: Option<Date>)
        ensures
            view_date(r) == self.meta().date_updated,
    {
        self.date_updated
    }

    pub fn page_path(&self) -> (r: &str)
        ensures
            r@ == self.meta().page_path,
    {
        self.page_path.as_str()
    }

    pub fn tags(&self) -> (r: &Vec<String>)
        ensures
            crate::emitter::view_strs(r@) == self.meta().tags,
    {
        &self.tags
    }
}

/// Whether a file name marks the index page of its directory.
pub open spec fn is_index_name(name: Seq<char>) -> bool {
    name.len() >= 6 && name.subrange(0, 6) == seq!['_', 'i', 'n', 'd', 'e', 'x']
}

/// The path without the extension of its last component (a `.` after the component's
/// first character; `..` has none).
pub open spec fn without_extension(rel: Seq<char>) -> Seq<char> {
    let name = file_name(rel);
    match last_of(name, '.') {
        Some(k) => if k > 0 && !(name.len() == 2 && name[0] == '.' && name[1] == '.') {
            rel.subrange(0, rel.len() - name.len() + k)
        } else {
            rel
        },
        None => rel,
    }
}

/// The site path of the page whose file has path `rel` under the content directory: an
/// index page stands for its directory; any other page for its path without extension.
pub open spec fn page_path_of(rel: Seq<char>) -> Seq<char> {
    let name = file_name(rel);
    let dir_len = rel.len() - name.len();
    if is_index_name(name) {
        if dir_len == 0 {
            "/"@
        } else {
            "/"@ + rel.subrange(0, dir_len - 1)
        }
    } else {
        "/"@ + without_extension(rel)
    }
}

/// The site path of a page from the path of its file under the content directory.
pub fn page_path_for(rel: &str) -> (r: String)
    ensures
        r@ == page_path_of(rel@),
{
    let v = str_chars(rel);
    let n = v.len();
    proof { lemma_last_of(v@, '/'); }
    let name_start: usize = match last_index(&v, '/') {
        Some(k) => k + 1,
        None => 0,
    };
    let name = crate::text::sub_chars(&v, name_start, v.len());
    proof {
        assert(name@ =~= file_name(v@));
    }
    let mut r = String::new();
    push_str_to(&mut r, "/");
    let is_index = name.len() >= 6 && name[0] == '_' && name[1] == 'i' && name[2] == 'n' && name[3] == 'd' && name[4] == 'e' && name[5] == 'x';
    proof {
        if is_index {
            assert(name@.subrange(0, 6) =~= seq!['_', 'i', 'n', 'd', 'e', 'x']);
        } else if name@.len() >= 6 && name@.subrange(0, 6) == seq!['_', 'i', 'n', 'd', 'e', 'x'] {
            assert(name@.subrange(0, 6)[0] == '_' && name@.subrange(0, 6)[1] == 'i' && name@.subrange(0, 6)[2] == 'n');
            assert(name@.subrange(0, 6)[3] == 'd' && name@.subrange(0, 6)[4] == 'e' && name@.subrange(0, 6)[5] == 'x');
        }
    }
    if is_index {
        if name_start > 0 {
            push_str_to(&mut r, chars_to_string(&v, 0, name_start - 1).as_str());
        }
        proof {
            assert(r@ =~= page_path_of(rel@));
        }
        return r;
    }
    proof { lemma_last_of(name@, '.'); }
    let end: usize = match last_index(&name, '.') {
        Some(k) => if k > 0 && !(name.len() == 2 && name[0] == '.' && name[1] == '.') {
            name_start + k
        } else {
            v.len()
        },
        None => v.len(),
    };
    push_str_to(&mut r, chars_to_string(&v, 0, end).as_str());
    proof {
        assert(v@.subrange(0, v@.len() as int) =~= v@);
        assert(r@ =~= page_path_of(rel@));
    }
    r
}

#[via_fn]
proof fn tags_of_decreases(v: Seq<char>) {
    lemma_find1(v, ' ', 0);
}

} // verus!
