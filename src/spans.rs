use vstd::prelude::*;
use crate::ast::{lemma_view_nodes, lemma_view_nodes_concat, lemma_view_nodes_push, lemma_view_items_push, lemma_view_nodes_empty, view_node, view_nodes, view_items, Emph, Inline, ListItem, OrgListEntry, OrgListType, OrgListValue, OrgSectionContent};
use crate::text::{is_ws, char_is_ws, chars_to_string, sub_chars};

verus! {

// ---------------------------------------------------------------------------
// Scanning rules, stated over the characters of one line.

/// End of the run of whitespace that starts at `i`.
pub open spec fn ws_run(s: Seq<char>, i: int) -> int
    decreases s.len() - i,
{
    if 0 <= i < s.len() && is_ws(s[i]) {
        ws_run(s, i + 1)
    } else {
        i
    }
}

/// Where a bullet list marker `- ` starts, when only whitespace precedes it.
pub open spec fn list_start(s: Seq<char>) -> Option<int> {
    let k = ws_run(s, 0);
    if k + 1 < s.len() && s[k] == '-' && s[k + 1] == ' ' {
        Some(k)
    } else {
        None
    }
}

/// The emphasis delimiters.
pub open spec fn is_delim(c: char) -> bool {
    c == '*' || c == '/' || c == '_' || c == '=' || c == '~' || c == '+'
}

pub open spec fn emph_kind(c: char) -> Emph {
    if c == '*' {
        Emph::Bold
    } else if c == '/' {
        Emph::Italic
    } else if c == '_' {
        Emph::Underlined
    } else if c == '=' {
        Emph::Verbatim
    } else if c == '~' {
        Emph::Code
    } else {
        Emph::Strikethrough
    }
}

/// A delimiter at `i` that may open emphasis: at the start of the line or after a space.
pub open spec fn opens_at(s: Seq<char>, i: int) -> bool {
    0 <= i < s.len() && is_delim(s[i]) && (i == 0 || s[i - 1] == ' ')
}

/// The first position from `j` on that closes emphasis opened by `d`: the delimiter again,
/// followed by a space or the end of the line. A `*` that does not close ends the search.
pub open spec fn close_from(s: Seq<char>, d: char, j: int) -> Option<int>
    decreases s.len() - j,
{
    if j < 0 || j >= s.len() {
        None
    } else if s[j] == d && (j + 1 == s.len() || s[j + 1] == ' ') {
        Some(j)
    } else if s[j] == '*' {
        None
    } else {
        close_from(s, d, j + 1)
    }
}

/// Emphasis opened at `i`: the position of its closing delimiter.
pub open spec fn emph_at(s: Seq<char>, i: int) -> Option<int> {
    if opens_at(s, i) {
        close_from(s, s[i], i + 1)
    } else {
        None
    }
}

/// The leftmost emphasis from `i` on: (opening, closing) positions.
pub open spec fn first_emph(s: Seq<char>, i: int) -> Option<(int, int)>
    decreases s.len() - i,
{
    if i < 0 || i >= s.len() {
        None
    } else {
        match emph_at(s, i) {
            Some(e) => Some((i, e)),
            None => first_emph(s, i + 1),
        }
    }
}

/// The first `j >= i` with `s[j] == a`.
pub open spec fn find1(s: Seq<char>, a: char, i: int) -> Option<int>
    decreases s.len() - i,
{
    if i < 0 || i >= s.len() {
        None
    } else if s[i] == a {
        Some(i)
    } else {
        find1(s, a, i + 1)
    }
}

/// The first `j >= i` with `s[j] == a` and `s[j + 1] == b`.
pub open spec fn find2(s: Seq<char>, a: char, b: char, i: int) -> Option<int>
    decreases s.len() - i,
{
    if i < 0 || i + 1 >= s.len() {
        None
    } else if s[i] == a && s[i + 1] == b {
        Some(i)
    } else {
        find2(s, a, b, i + 1)
    }
}

/// A span found by the scanner.
/// `Emph(a, b)`: delimiters at `a` and `b`.
/// `Link(i, j, k)`: `[[` at `i`, `][` at `j`, `]]` at `k`.
/// `Note(i, c, b)`: `[fn:` at `i`, the `:` that ends the name at `c`, the closing `]` at `b`.
pub enum Found {
    Emph(int, int),
    Link(int, int, int),
    Note(int, int, int),
}

pub open spec fn found_start(f: Found) -> int {
    match f {
        Found::Emph(a, _) => a,
        Found::Link(i, _, _) => i,
        Found::Note(i, _, _) => i,
    }
}

/// A link `[[target][label]]` at `i`; target and label are not empty.
pub open spec fn link_at(s: Seq<char>, i: int) -> Option<Found> {
    if 0 <= i && i + 1 < s.len() && s[i] == '[' && s[i + 1] == '[' {
        match find2(s, ']', '[', i + 3) {
            Some(j) => match find2(s, ']', ']', j + 3) {
                Some(k) => Some(Found::Link(i, j, k)),
                None => None,
            },
            None => None,
        }
    } else {
        None
    }
}

/// A footnote `[fn:name:content]` at `i`; the name may be empty, the content may not,
/// and the closing `]` is followed by the end of the line or by a character other than a bracket.
pub open spec fn note_at(s: Seq<char>, i: int) -> Option<Found> {
    if 0 <= i && i + 3 < s.len() && s[i] == '[' && s[i + 1] == 'f' && s[i + 2] == 'n' && s[i + 3] == ':' {
        match find1(s, ':', i + 4) {
            Some(c) => match find1(s, ']', c + 2) {
                Some(b) => if b + 1 == s.len() || (s[b + 1] != '[' && s[b + 1] != ']') {
                    Some(Found::Note(i, c, b))
                } else {
                    None
                },
                None => None,
            },
            None => None,
        }
    } else {
        None
    }
}

/// A link or a footnote at `i`, a link first.
pub open spec fn extra_at(s: Seq<char>, i: int) -> Option<Found> {
    match link_at(s, i) {
        Some(f) => Some(f),
        None => note_at(s, i),
    }
}

/// The leftmost link or footnote from `i` on.
pub open spec fn first_extra(s: Seq<char>, i: int) -> Option<Found>
    decreases s.len() - i,
{
    if i < 0 || i >= s.len() {
        None
    } else {
        match extra_at(s, i) {
            Some(f) => Some(f),
            None => first_extra(s, i + 1),
        }
    }
}

/// The span the inline parser takes first: the one that starts earlier; on a tie, the link
/// or footnote.
pub open spec fn find_span(s: Seq<char>) -> Option<Found> {
    match (first_extra(s, 0), first_emph(s, 0)) {
        (Some(x), Some((a, b))) => if found_start(x) <= a {
            Some(x)
        } else {
            Some(Found::Emph(a, b))
        },
        (Some(x), None) => Some(x),
        (None, Some((a, b))) => Some(Found::Emph(a, b)),
        (None, None) => None,
    }
}

/// Well-placed span: the pieces it cuts the line into are in order and in range.
pub open spec fn span_ok(s: Seq<char>, f: Found) -> bool {
    match f {
        Found::Emph(a, b) => 0 <= a < b < s.len(),
        Found::Link(i, j, k) => 0 <= i && i + 3 <= j && j + 3 <= k && k + 2 <= s.len(),
        Found::Note(i, c, b) => 0 <= i && i + 4 <= c && c + 2 <= b && b < s.len(),
    }
}

/// Text before position `a`, as a node when not empty.
pub open spec fn text_before(s: Seq<char>, a: int) -> Seq<Inline> {
    if a > 0 {
        seq![Inline::Text(s.subrange(0, a))]
    } else {
        Seq::empty()
    }
}

pub open spec fn ends_with_list(sec: Seq<Inline>) -> bool {
    sec.len() > 0 && sec.last() is List
}

/// Adds an item to the list that ends `sec`.
pub open spec fn add_to_last_list(sec: Seq<Inline>, item: Seq<Inline>) -> Seq<Inline>
    recommends
        ends_with_list(sec),
{
    sec.update(sec.len() - 1, Inline::List(sec.last()->List_0.push(ListItem::Content(item))))
}

/// The inline parse of one line `s`. `sec` is the body of the section the line goes to;
/// when `merge` holds, a list item continues a list that ends that body, which is then
/// changed in place. Result: the body afterwards, and the nodes of the line.
pub open spec fn spec_inline(merge: bool, sec: Seq<Inline>, s: Seq<char>) -> (Seq<Inline>, Seq<Inline>)
    decreases s.len(),
    via spec_inline_decreases
{
    if s.len() == 0 {
        (sec, Seq::empty())
    } else {
        match list_start(s) {
            Some(k) => {
                let (sec1, item) = spec_inline(merge, sec, s.subrange(k + 2, s.len() as int));
                if merge && ends_with_list(sec1) {
                    (add_to_last_list(sec1, item), Seq::empty())
                } else {
                    (sec1, seq![Inline::List(seq![ListItem::Content(item)])])
                }
            },
            None => match find_span(s) {
                Some(Found::Emph(a, b)) => {
                    let (sec1, inner) = spec_inline(merge, sec, s.subrange(a + 1, b));
                    let (sec2, rest) = spec_inline(merge, sec1, s.subrange(b + 1, s.len() as int));
                    (sec2, text_before(s, a) + seq![Inline::Emphasis(emph_kind(s[a]), inner)] + rest)
                },
                Some(Found::Link(i, j, k)) => {
                    let (sec1, label) = spec_inline(merge, sec, s.subrange(j + 2, k));
                    let (sec2, rest) = spec_inline(merge, sec1, s.subrange(k + 2, s.len() as int));
                    (sec2, text_before(s, i) + seq![Inline::Link(s.subrange(i + 2, j), label)] + rest)
                },
                Some(Found::Note(i, c, b)) => {
                    let name = if c == i + 4 { None } else { Some(s.subrange(i + 4, c)) };
                    let (sec1, body) = spec_inline(merge, sec, s.subrange(c + 1, b));
                    let (sec2, rest) = spec_inline(merge, sec1, s.subrange(b + 1, s.len() as int));
                    (sec2, text_before(s, i) + seq![Inline::Footnote(name, body)] + rest)
                },
                None => (sec, seq![Inline::Text(s)]),
            },
        }
    }
}

// ---------------------------------------------------------------------------
// Facts about the scanning rules.

proof fn lemma_ws_run(s: Seq<char>, i: int)
    requires
        0 <= i <= s.len(),
    ensures
        i <= ws_run(s, i) <= s.len(),
    decreases s.len() - i,
{
    if i < s.len() && is_ws(s[i]) {
        lemma_ws_run(s, i + 1);
    }
}

proof fn lemma_close_from(s: Seq<char>, d: char, j: int)
    ensures
        close_from(s, d, j) matches Some(e) ==> j <= e < s.len() && s[e] == d,
    decreases s.len() - j,
{
    if 0 <= j < s.len() && !(s[j] == d && (j + 1 == s.len() || s[j + 1] == ' ')) && s[j] != '*' {
        lemma_close_from(s, d, j + 1);
    }
}

proof fn lemma_first_emph(s: Seq<char>, i: int)
    ensures
        first_emph(s, i) matches Some((a, b)) ==> i <= a < b < s.len() && opens_at(s, a)
            && emph_at(s, a) == Some(b),
    decreases s.len() - i,
{
    if 0 <= i < s.len() {
        if opens_at(s, i) {
            lemma_close_from(s, s[i], i + 1);
        }
        if emph_at(s, i) is None {
            lemma_first_emph(s, i + 1);
        }
    }
}

pub proof fn lemma_find1(s: Seq<char>, a: char, i: int)
    ensures
        find1(s, a, i) matches Some(j) ==> i <= j < s.len() && s[j] == a,
    decreases s.len() - i,
{
    if 0 <= i < s.len() && s[i] != a {
        lemma_find1(s, a, i + 1);
    }
}

pub proof fn lemma_find2(s: Seq<char>, a: char, b: char, i: int)
    ensures
        find2(s, a, b, i) matches Some(j) ==> i <= j && j + 1 < s.len() && s[j] == a && s[j + 1] == b,
    decreases s.len() - i,
{
    if 0 <= i && i + 1 < s.len() && !(s[i] == a && s[i + 1] == b) {
        lemma_find2(s, a, b, i + 1);
    }
}

proof fn lemma_extra_at(s: Seq<char>, i: int)
    ensures
        extra_at(s, i) matches Some(f) ==> span_ok(s, f) && found_start(f) == i && !(f is Emph),
{
    if 0 <= i && i + 1 < s.len() {
        lemma_find2(s, ']', '[', i + 3);
        if let Some(j) = find2(s, ']', '[', i + 3) {
            lemma_find2(s, ']', ']', j + 3);
        }
    }
    if 0 <= i && i + 3 < s.len() {
        lemma_find1(s, ':', i + 4);
        if let Some(c) = find1(s, ':', i + 4) {
            lemma_find1(s, ']', c + 2);
        }
    }
}

proof fn lemma_first_extra(s: Seq<char>, i: int)
    ensures
        first_extra(s, i) matches Some(f) ==> span_ok(s, f) && i <= found_start(f) && !(f is Emph),
    decreases s.len() - i,
{
    if 0 <= i < s.len() {
        lemma_extra_at(s, i);
        if extra_at(s, i) is None {
            lemma_first_extra(s, i + 1);
        }
    }
}

pub proof fn lemma_find_span(s: Seq<char>)
    ensures
        find_span(s) matches Some(f) ==> span_ok(s, f),
{
    lemma_first_extra(s, 0);
    lemma_first_emph(s, 0);
}

pub proof fn lemma_list_start(s: Seq<char>)
    ensures
        list_start(s) matches Some(k) ==> 0 <= k && k + 2 <= s.len(),
{
    lemma_ws_run(s, 0);
}

#[via_fn]
proof fn spec_inline_decreases(merge: bool, sec: Seq<Inline>, s: Seq<char>) {
    lemma_list_start(s);
    lemma_find_span(s);
}


// ---------------------------------------------------------------------------
// The scanner.

pub open spec fn opt_int(o: Option<usize>) -> Option<int> {
    match o {
        Some(k) => Some(k as int),
        None => None,
    }
}

/// A span found by the scanner, as positions in the line.
pub enum Span {
    Emph(usize, usize),
    Link(usize, usize, usize),
    Note(usize, usize, usize),
}

pub open spec fn view_span(o: Option<Span>) -> Option<Found> {
    match o {
        Some(Span::Emph(a, b)) => Some(Found::Emph(a as int, b as int)),
        Some(Span::Link(i, j, k)) => Some(Found::Link(i as int, j as int, k as int)),
        Some(Span::Note(i, c, b)) => Some(Found::Note(i as int, c as int, b as int)),
        None => None,
    }
}

fn list_start_at(v: &Vec<char>) -> (r: Option<usize>)
    ensures
        opt_int(r) == list_start(v@),
{
    let mut i: usize = 0;
    while i < v.len() && char_is_ws(v[i])
        invariant
            i <= v@.len(),
            ws_run(v@, i as int) == ws_run(v@, 0),
        decreases v@.len() - i,
    {
        i = i + 1;
    }
    if i < v.len() && v.len() - i > 1 && v[i] == '-' && v[i + 1] == ' ' {
        Some(i)
    } else {
        None
    }
}

fn close_at(v: &Vec<char>, d: char, j0: usize) -> (r: Option<usize>)
    requires
        j0 <= v@.len(),
    ensures
        opt_int(r) == close_from(v@, d, j0 as int),
{
    let mut j: usize = j0;
    while j < v.len()
        invariant
            j0 <= j <= v@.len(),
            close_from(v@, d, j as int) == close_from(v@, d, j0 as int),
        decreases v@.len() - j,
    {
        if v[j] == d && (j + 1 == v.len() || v[j + 1] == ' ') {
            return Some(j);
        }
        if v[j] == '*' {
            return None;
        }
        j = j + 1;
    }
    None
}

fn char_is_delim(c: char) -> (r: bool)
    ensures
        r == is_delim(c),
{
    c == '*' || c == '/' || c == '_' || c == '=' || c == '~' || c == '+'
}

fn first_emph_at(v: &Vec<char>) -> (r: Option<(usize, usize)>)
    ensures
        match r {
            Some((a, b)) => first_emph(v@, 0) == Some((a as int, b as int)),
            None => first_emph(v@, 0) is None,
        },
{
    let mut i: usize = 0;
    while i < v.len()
        invariant
            i <= v@.len(),
            first_emph(v@, i as int) == first_emph(v@, 0),
        decreases v@.len() - i,
    {
        if char_is_delim(v[i]) && (i == 0 || v[i - 1] == ' ') {
            match close_at(v, v[i], i + 1) {
                Some(e) => {
                    return Some((i, e));
                },
                None => {},
            }
        }
        i = i + 1;
    }
    None
}

pub(crate) fn find1_at(v: &Vec<char>, a: char, i0: usize) -> (r: Option<usize>)
    requires
        i0 <= v@.len(),
    ensures
        opt_int(r) == find1(v@, a, i0 as int),
{
    let mut i: usize = i0;
    while i < v.len()
        invariant
            i0 <= i <= v@.len(),
            find1(v@, a, i as int) == find1(v@, a, i0 as int),
        decreases v@.len() - i,
    {
        if v[i] == a {
            return Some(i);
        }
        i = i + 1;
    }
    None
}

pub(crate) fn find2_at(v: &Vec<char>, a: char, b: char, i0: usize) -> (r: Option<usize>)
    requires
        i0 <= v@.len(),
    ensures
        opt_int(r) == find2(v@, a, b, i0 as int),
{
    let mut i: usize = i0;
    while v.len() - i > 1
        invariant
            i0 <= i <= v@.len(),
            find2(v@, a, b, i as int) == find2(v@, a, b, i0 as int),
        decreases v@.len() - i,
    {
        if v[i] == a && v[i + 1] == b {
            return Some(i);
        }
        i = i + 1;
    }
    None
}

fn extra_at_pos(v: &Vec<char>, i: usize) -> (r: Option<Span>)
    requires
        i < v@.len(),
    ensures
        view_span(r) == extra_at(v@, i as int),
{
    if v.len() - i >= 3 && v[i] == '[' && v[i + 1] == '[' {
        proof { lemma_find2(v@, ']', '[', i + 3); }
        match find2_at(v, ']', '[', i + 3) {
            Some(j) => {
                if v.len() - j >= 3 {
                    match find2_at(v, ']', ']', j + 3) {
                        Some(k) => {
                            return Some(Span::Link(i, j, k));
                        },
                        None => {},
                    }
                }
            },
            None => {},
        }
    }
    if v.len() - i > 4 && v[i] == '[' && v[i + 1] == 'f' && v[i + 2] == 'n' && v[i + 3] == ':' {
        proof { lemma_find1(v@, ':', i + 4); }
        match find1_at(v, ':', i + 4) {
            Some(c) => {
                if v.len() - c >= 2 {
                    proof { lemma_find1(v@, ']', c + 2); }
                    match find1_at(v, ']', c + 2) {
                        Some(b) => {
                            if b + 1 == v.len() || (v[b + 1] != '[' && v[b + 1] != ']') {
                                return Some(Span::Note(i, c, b));
                            }
                        },
                        None => {},
                    }
                }
            },
            None => {},
        }
    }
    None
}

fn first_extra_at(v: &Vec<char>) -> (r: Option<Span>)
    ensures
        view_span(r) == first_extra(v@, 0),
{
    let mut i: usize = 0;
    while i < v.len()
        invariant
            i <= v@.len(),
            first_extra(v@, i as int) == first_extra(v@, 0),
        decreases v@.len() - i,
    {
        let f = extra_at_pos(v, i);
        if f.is_some() {
            return f;
        }
        i = i + 1;
    }
    None
}

fn span_start(f: &Span) -> (r: usize)
    ensures
        r as int == found_start(view_span(Some(*f))->Some_0),
{
    match f {
        Span::Emph(a, _) => *a,
        Span::Link(i, _, _) => *i,
        Span::Note(i, _, _) => *i,
    }
}

fn find_span_in(v: &Vec<char>) -> (r: Option<Span>)
    ensures
        view_span(r) == find_span(v@),
{
    let x = first_extra_at(v);
    let e = first_emph_at(v);
    match (x, e) {
        (Some(x), Some((a, b))) => if span_start(&x) <= a {
            Some(x)
        } else {
            Some(Span::Emph(a, b))
        },
        (Some(x), None) => Some(x),
        (None, Some((a, b))) => Some(Span::Emph(a, b)),
        (None, None) => None,
    }
}

fn emphasis_node(d: char, inner: Vec<OrgSectionContent>) -> (r: OrgSectionContent)
    requires
        is_delim(d),
    ensures
        view_node(r) == Inline::Emphasis(emph_kind(d), view_nodes(inner@)),
{
    if d == '*' {
        OrgSectionContent::Bold(inner)
    } else if d == '/' {
        OrgSectionContent::Italic(inner)
    } else if d == '_' {
        OrgSectionContent::Underlined(inner)
    } else if d == '=' {
        OrgSectionContent::Verbatim(inner)
    } else if d == '~' {
        OrgSectionContent::Code(inner)
    } else {
        OrgSectionContent::Strikethrough(inner)
    }
}

/// The nodes before position `a` and the node found there, followed by the rest.
fn assemble(v: &Vec<char>, a: usize, node: OrgSectionContent, rest: Vec<OrgSectionContent>) -> (r: Vec<OrgSectionContent>)
    requires
        a <= v@.len(),
    ensures
        view_nodes(r@) == text_before(v@, a as int) + seq![view_node(node)] + view_nodes(rest@),
{
    let mut out: Vec<OrgSectionContent> = Vec::new();
    if a > 0 {
        out.push(OrgSectionContent::Text(chars_to_string(v, 0, a)));
    }
    out.push(node);
    let ghost before = out@;
    let ghost rest_view = rest@;
    let mut rest = rest;
    out.append(&mut rest);
    proof {
        lemma_view_nodes_concat(before, rest_view);
        lemma_view_nodes(before);
        assert(view_nodes(before) =~= text_before(v@, a as int) + seq![view_node(node)]);
    }
    out
}


/// Parses one line of text into inline nodes. `sec` is the body of the section the line
/// goes to; when `merge` holds, a list item continues a list that ends that body.
pub fn parse_inline(v: &Vec<char>, sec: &mut Vec<OrgSectionContent>, merge: bool) -> (r: Vec<OrgSectionContent>)
    ensures
        (view_nodes(final(sec)@), view_nodes(r@)) == spec_inline(merge, view_nodes(old(sec)@), v@),
    decreases v@.len(),
{
    proof {
        lemma_list_start(v@);
        lemma_find_span(v@);
    }
    if v.len() == 0 {
        let r: Vec<OrgSectionContent> = Vec::new();
        proof { lemma_view_nodes_empty(r@); }
        return r;
    }
    match list_start_at(v) {
        Some(k) => {
            let rest = sub_chars(v, k + 2, v.len());
            let item = parse_inline(&rest, sec, merge);
            let ghost sec1 = sec@;
            if merge && sec.len() > 0 {
                let last = sec.pop();
                match last {
                    Some(OrgSectionContent::List(mut l)) => {
                        let ghost vals = l.values@;
                        l.values.push(OrgListValue::Content(item));
                        sec.push(OrgSectionContent::List(l));
                        proof {
                            lemma_view_nodes(sec1);
                            lemma_view_nodes(sec@);
                            lemma_view_items_push(vals, OrgListValue::Content(item));
                            assert(view_nodes(sec@) =~= add_to_last_list(view_nodes(sec1), view_nodes(item@)));
                        }
                        let r: Vec<OrgSectionContent> = Vec::new();
                        proof { lemma_view_nodes_empty(r@); }
                        return r;
                    },
                    Some(other) => {
                        sec.push(other);
                        proof {
                            lemma_view_nodes(sec1);
                            assert(sec@ =~= sec1);
                        }
                    },
                    None => {},
                }
            }
            proof { lemma_view_nodes(sec1); }
            let mut values: Vec<OrgListValue> = Vec::new();
            values.push(OrgListValue::Content(item));
            let mut r: Vec<OrgSectionContent> = Vec::new();
            r.push(OrgSectionContent::List(OrgListEntry { ty: OrgListType::Bullet, values }));
            proof {
                lemma_view_items_push(Seq::empty(), OrgListValue::Content(item));
                lemma_view_nodes_push(Seq::empty(), r@[0]);
                assert(Seq::<OrgListValue>::empty().push(OrgListValue::Content(item)) =~= values@);
                assert(Seq::<OrgSectionContent>::empty().push(r@[0]) =~= r@);
                assert(view_items(Seq::empty()) =~= Seq::<ListItem>::empty());
                assert(view_nodes(Seq::empty()) =~= Seq::<Inline>::empty());
            }
            r
        },
        None => {
            match find_span_in(v) {
                Some(Span::Emph(a, b)) => {
                    let inner_text = sub_chars(v, a + 1, b);
                    let inner = parse_inline(&inner_text, sec, merge);
                    let after = sub_chars(v, b + 1, v.len());
                    let rest = parse_inline(&after, sec, merge);
                    proof {
                        lemma_first_emph(v@, 0);
                        lemma_first_extra(v@, 0);
                    }
                    let node = emphasis_node(v[a], inner);
                    assemble(v, a, node, rest)
                },
                Some(Span::Link(i, j, k)) => {
                    let label_text = sub_chars(v, j + 2, k);
                    let label = parse_inline(&label_text, sec, merge);
                    let after = sub_chars(v, k + 2, v.len());
                    let rest = parse_inline(&after, sec, merge);
                    let link = chars_to_string(v, i + 2, j);
                    assemble(v, i, OrgSectionContent::Link { link, label }, rest)
                },
                Some(Span::Note(i, c, b)) => {
                    let name = if c == i + 4 {
                        None
                    } else {
                        Some(chars_to_string(v, i + 4, c))
                    };
                    let body_text = sub_chars(v, c + 1, b);
                    let content = parse_inline(&body_text, sec, merge);
                    let after = sub_chars(v, b + 1, v.len());
                    let rest = parse_inline(&after, sec, merge);
                    assemble(v, i, OrgSectionContent::Footnote { name, content }, rest)
                },
                None => {
                    let mut r: Vec<OrgSectionContent> = Vec::new();
                    r.push(OrgSectionContent::Text(chars_to_string(v, 0, v.len())));
                    proof {
                        lemma_view_nodes_push(Seq::empty(), r@[0]);
                        assert(Seq::<OrgSectionContent>::empty().push(r@[0]) =~= r@);
                        assert(view_nodes(Seq::empty()) =~= Seq::<Inline>::empty());
                        assert(v@.subrange(0, v@.len() as int) =~= v@);
                    }
                    r
                },
            }
        },
    }
}

} // verus!
