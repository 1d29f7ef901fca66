use vstd::prelude::*;
use crate::page::{view_date, Date, Page};
use crate::emitter::view_strs;
use vstd::string::StringExecFns;
use vstd::multiset::Multiset;

verus! {

broadcast use {vstd::seq_lib::to_multiset_remove, vstd::seq_lib::to_multiset_insert, vstd::seq_lib::to_multiset_len, vstd::seq_lib::to_multiset_contains};

/// A post: a page under a directory whose index page has the type `posts`.
#[derive(Debug)]
pub struct Post {
    title: String,
    description: String,
    page_path: String,
    date: Date,
    date_updated: Option<Date>,
    tags: Vec<String>,
}

/// Model of a post.
pub struct PostModel {
    pub title: Seq<char>,
    pub description: Seq<char>,
    pub page_path: Seq<char>,
    pub date: (int, int, int),
    pub date_updated: Option<(int, int, int)>,
    pub tags: Seq<Seq<char>>,
}

/// The posts of the site, and for each tag the posts that carry it as (title, path).
/// Each tag stands once; a new tag goes before the first tag greater than it.
#[derive(Debug, Default)]
pub struct Posts {
    posts: Vec<Post>,
    tags: Vec<(String, Vec<(String, String)>)>,
}

/// Errors of the posts listing: a post lacks a keyword it needs. Each holds the page's path.
#[derive(Debug)]
pub enum PostsError {
    MissingTitle(String),
    MissingDescription(String),
    MissingDate(String),
}

pub closed spec fn view_post(p: Post) -> PostModel {
    PostModel {
        title: p.title@,
        description: p.description@,
        page_path: p.page_path@,
        date: (p.date.year as int, p.date.month as int, p.date.day as int),
        date_updated: view_date(p.date_updated),
        tags: view_strs(p.tags@),
    }
}

/// `a` is not older than `b`.
pub open spec fn newer_or_same(a: (int, int, int), b: (int, int, int)) -> bool {
    a.0 > b.0 || (a.0 == b.0 && (a.1 > b.1 || (a.1 == b.1 && a.2 >= b.2)))
}

pub open spec fn newest_first(s: Seq<PostModel>) -> bool {
    forall|i: int, j: int| 0 <= i < j < s.len() ==> newer_or_same(#[trigger] s[i].date, #[trigger] s[j].date)
}

/// The position of the first post from `i` on that is older than `d`.
pub open spec fn first_older(s: Seq<PostModel>, d: (int, int, int), i: int) -> int
    decreases s.len() - i,
{
    if i < 0 || i >= s.len() {
        s.len() as int
    } else if !newer_or_same(s[i].date, d) {
        i
    } else {
        first_older(s, d, i + 1)
    }
}

/// The posts in newest-first order, posts of the same date in their given order: each post
/// in turn goes after every post not older than it.
pub open spec fn newest_first_order(s: Seq<PostModel>) -> Seq<PostModel>
    decreases s.len(),
{
    if s.len() == 0 {
        Seq::empty()
    } else {
        let acc = newest_first_order(s.drop_last());
        acc.insert(first_older(acc, s.last().date, 0), s.last())
    }
}

pub type TagIndex = Seq<(Seq<char>, Seq<(Seq<char>, Seq<char>)>)>;

/// Lexicographic order of character sequences (the order of `String`).
pub open spec fn str_less(a: Seq<char>, b: Seq<char>) -> bool
    decreases a.len(),
{
    if b.len() == 0 {
        false
    } else if a.len() == 0 {
        true
    } else if a[0] != b[0] {
        (a[0] as u32) < (b[0] as u32)
    } else {
        str_less(a.subrange(1, a.len() as int), b.subrange(1, b.len() as int))
    }
}

/// The position of the first tag of the index from `i` on that is greater than `tag`.
pub open spec fn insert_pos(idx: TagIndex, tag: Seq<char>, i: int) -> int
    decreases idx.len() - i,
{
    if i < 0 || i >= idx.len() {
        idx.len() as int
    } else if str_less(tag, idx[i].0) {
        i
    } else {
        insert_pos(idx, tag, i + 1)
    }
}

/// Adds a (title, path) reference under a tag; a new tag goes before the first greater one.
pub open spec fn add_ref(idx: TagIndex, tag: Seq<char>, r: (Seq<char>, Seq<char>)) -> TagIndex {
    match key_from_idx(idx, tag, 0) {
        Some(i) => idx.update(i, (tag, idx[i].1.push(r))),
        None => idx.insert(insert_pos(idx, tag, 0), (tag, seq![r])),
    }
}

fn char_code(c: char) -> (r: u32)
    ensures
        r == c as u32,
{
    c as u32
}

/// Whether `a` comes before `b` in lexicographic order.
fn string_less(a: &String, b: &String) -> (r: bool)
    ensures
        r == str_less(a@, b@),
{
    let x = crate::text::str_chars(a.as_str());
    let y = crate::text::str_chars(b.as_str());
    let mut i: usize = 0;
    proof {
        assert(x@.subrange(0, x@.len() as int) =~= x@);
        assert(y@.subrange(0, y@.len() as int) =~= y@);
    }
    while i < x.len() && i < y.len() && x[i] == y[i]
        invariant
            i <= x@.len(),
            i <= y@.len(),
            x@ == a@,
            y@ == b@,
            str_less(a@, b@) == str_less(x@.subrange(i as int, x@.len() as int), y@.subrange(i as int, y@.len() as int)),
        decreases x@.len() - i,
    {
        proof {
            let xs = x@.subrange(i as int, x@.len() as int);
            let ys = y@.subrange(i as int, y@.len() as int);
            assert(xs.subrange(1, xs.len() as int) =~= x@.subrange(i + 1, x@.len() as int));
            assert(ys.subrange(1, ys.len() as int) =~= y@.subrange(i + 1, y@.len() as int));
        }
        i = i + 1;
    }
    if i == y.len() {
        false
    } else if i == x.len() {
        true
    } else {
        char_code(x[i]) < char_code(y[i])
    }
}

pub open spec fn key_from_idx(v: TagIndex, k: Seq<char>, i: int) -> Option<int>
    decreases v.len() - i,
{
    if i < 0 || i >= v.len() {
        None
    } else if v[i].0 == k {
        Some(i)
    } else {
        key_from_idx(v, k, i + 1)
    }
}

/// The index after the first `n` tags of post `p`.
pub open spec fn index_tags(idx: TagIndex, p: PostModel, n: int) -> TagIndex
    decreases n,
{
    if n <= 0 {
        idx
    } else {
        add_ref(index_tags(idx, p, n - 1), p.tags[n - 1], (p.title, p.page_path))
    }
}

/// The index after the first `n` posts.
pub open spec fn index_posts(idx: TagIndex, ps: Seq<PostModel>, n: int) -> TagIndex
    decreases n,
{
    if n <= 0 {
        idx
    } else {
        let i1 = index_posts(idx, ps, n - 1);
        index_tags(i1, ps[n - 1], ps[n - 1].tags.len() as int)
    }
}

pub closed spec fn view_refs(v: Seq<(String, String)>) -> Seq<(Seq<char>, Seq<char>)> {
    Seq::new(v.len(), |j: int| (v[j].0@, v[j].1@))
}

pub closed spec fn view_index(v: Seq<(String, Vec<(String, String)>)>) -> TagIndex {
    Seq::new(v.len(), |i: int| (v[i].0@, view_refs(v[i].1@)))
}

/// Adds a (title, path) reference under a tag of the index.
fn add_tag_ref(idx: &mut Vec<(String, Vec<(String, String)>)>, tag: String, title: String, path: String)
    ensures
        view_index(final(idx)@) == add_ref(view_index(old(idx)@), tag@, (title@, path@)),
{
    let ghost v = view_index(idx@);
    let mut j: usize = 0;
    while j < idx.len()
        invariant
            j <= idx@.len(),
            v == view_index(idx@),
            *idx == *old(idx),
            key_from_idx(v, tag@, 0) == key_from_idx(v, tag@, j as int),
        decreases idx@.len() - j,
    {
        if idx[j].0 == tag {
            let ghost before = idx@;
            let (key, mut refs) = idx.remove(j);
            let ghost rv = view_refs(refs@);
            refs.push((title, path));
            proof {
                assert(view_refs(refs@) =~= rv.push((title@, path@)));
            }
            idx.insert(j, (key, refs));
            proof {
                assert(view_index(idx@) =~= v.update(j as int, (tag@, v[j as int].1.push((title@, path@)))));
            }
            return;
        }
        j = j + 1;
    }
    proof {
        assert(key_from_idx(v, tag@, 0) is None);
    }
    let mut refs: Vec<(String, String)> = Vec::new();
    refs.push((title, path));
    proof {
        assert(view_refs(refs@) =~= seq![(title@, path@)]);
    }
    let mut p: usize = 0;
    while p < idx.len() && !string_less(&tag, &idx[p].0)
        invariant
            p <= idx@.len(),
            v == view_index(idx@),
            insert_pos(v, tag@, 0) == insert_pos(v, tag@, p as int),
        decreases idx@.len() - p,
    {
        proof {
            assert(v[p as int].0 == idx@[p as int].0@);
        }
        p = p + 1;
    }
    proof {
        if p < idx@.len() {
            assert(v[p as int].0 == idx@[p as int].0@);
        }
        assert(insert_pos(v, tag@, p as int) == p as int);
    }
    let ghost entry = (tag@, view_refs(refs@));
    idx.insert(p, (tag, refs));
    proof {
        assert(view_index(idx@) =~= v.insert(p as int, entry));
    }
}

fn date_before(a: &Date, b: &Date) -> (r: bool)
    ensures
        r == !newer_or_same((a.year as int, a.month as int, a.day as int), (b.year as int, b.month as int, b.day as int)),
{
    a.year < b.year || (a.year == b.year && (a.month < b.month || (a.month == b.month && a.day < b.day)))
}

fn clone_strings(v: &Vec<String>) -> (r: Vec<String>)
    ensures
        view_strs(r@) == view_strs(v@),
{
    let mut r: Vec<String> = Vec::new();
    let mut i: usize = 0;
    while i < v.len()
        invariant
            i <= v@.len(),
            r@.len() == i,
            forall|j: int| 0 <= j < i ==> #[trigger] r@[j]@ == v@[j]@,
        decreases v@.len() - i,
    {
        r.push(v[i].clone());
        i = i + 1;
    }
    proof {
        assert(view_strs(r@) =~= view_strs(v@));
    }
    r
}

impl Post {
    pub closed spec fn model(&self) -> PostModel {
        view_post(*self)
    }

    pub fn title(&self) -> (r: &str)
        ensures
            r@ == self.model().title,
    {
        self.title.as_str()
    }

    pub fn page_path(&self) -> (r: &str)
        ensures
            r@ == self.model().page_path,
    {
        self.page_path.as_str()
    }

    pub fn date(&self) -> (r: Date)
        ensures
            (r.year as int, r.month as int, r.day as int) == self.model().date,
    {
        self.date
    }
}

impl Posts {
    /// The posts, in their current order.
    pub fn posts(&self) -> (r: &Vec<Post>)
        ensures
            r@.len() == self.view().len(),
            forall|i: int| 0 <= i < r@.len() ==> #[trigger] r@[i].model() == self.view()[i],
    {
        &self.posts
    }

    /// The tag index: each tag with the (title, path) of its posts.
    pub fn tags(&self) -> (r: &Vec<(String, Vec<(String, String)>)>)
        ensures
            view_index(r@) == self.tag_index(),
    {
        &self.tags
    }

    pub closed spec fn view(&self) -> Seq<PostModel> {
        Seq::new(self.posts@.len(), |i: int| view_post(self.posts@[i]))
    }

    pub closed spec fn tag_index(&self) -> TagIndex {
        view_index(self.tags@)
    }

    pub fn new() -> (r: Posts)
        ensures
            r.view() == Seq::<PostModel>::empty(),
            r.tag_index() == Seq::<(Seq<char>, Seq<(Seq<char>, Seq<char>)>)>::empty(),
    {
        let r = Posts { posts: Vec::new(), tags: Vec::new() };
        proof {
            assert(r.view() =~= Seq::<PostModel>::empty());
            assert(r.tag_index() =~= Seq::<(Seq<char>, Seq<(Seq<char>, Seq<char>)>)>::empty());
        }
        r
    }

    /// Adds a page as a post; it needs a title, a description and a date.
    pub fn add_page(&mut self, page: &Page) -> (r: Result<(), PostsError>)
        ensures
            ({
                let m = page.meta();
                if m.title is None {
                    r matches Err(PostsError::MissingTitle(p)) && p@ == m.page_path && final(self).view() == old(self).view()
                } else if m.description is None {
                    r matches Err(PostsError::MissingDescription(p)) && p@ == m.page_path && final(self).view() == old(self).view()
                } else if m.date is None {
                    r matches Err(PostsError::MissingDate(p)) && p@ == m.page_path && final(self).view() == old(self).view()
                } else {
                    r is Ok && final(self).view() == old(self).view().push(PostModel {
                        title: m.title->Some_0,
                        description: m.description->Some_0,
                        page_path: m.page_path,
                        date: m.date->Some_0,
                        date_updated: m.date_updated,
                        tags: m.tags,
                    })
                }
            }),
            final(self).tag_index() == old(self).tag_index(),
    {
        let page_path = page.page_path();
        let title = match page.title() {
            Some(t) => String::from_str(t),
            None => {
                return Err(PostsError::MissingTitle(String::from_str(page_path)));
            },
        };
        let description = match page.description() {
            Some(t) => String::from_str(t),
            None => {
                return Err(PostsError::MissingDescription(String::from_str(page_path)));
            },
        };
        let date = match page.date() {
            Some(d) => d,
            None => {
                return Err(PostsError::MissingDate(String::from_str(page_path)));
            },
        };
        let post = Post {
            title,
            description,
            page_path: String::from_str(page_path),
            date,
            date_updated: page.date_updated(),
            tags: clone_strings(page.tags()),
        };
        let ghost before = self.view();
        self.posts.push(post);
        proof {
            assert(self.view() =~= before.push(view_post(post)));
        }
        Ok(())
    }

    /// Adds each post, in order, under each of its tags, in order.
    pub fn generate_tag_index(&mut self)
        ensures
            final(self).tag_index() == index_posts(old(self).tag_index(), old(self).view(), old(self).view().len() as int),
            final(self).view() == old(self).view(),
    {
        let ghost idx0 = self.tag_index();
        let ghost pv = self.view();
        let mut i: usize = 0;
        while i < self.posts.len()
            invariant
                i <= self.posts@.len(),
                pv == self.view(),
                pv.len() == self.posts@.len(),
                self.posts == old(self).posts,
                self.tag_index() == index_posts(idx0, pv, i as int),
            decreases self.posts@.len() - i,
        {
            let ghost pm = pv[i as int];
            proof {
                assert(pm == view_post(self.posts@[i as int]));
            }
            let mut k: usize = 0;
            while k < self.posts[i].tags.len()
                invariant
                    i < self.posts@.len(),
                    k <= self.posts@[i as int].tags@.len(),
                    pv == self.view(),
                    self.posts == old(self).posts,
                    pm == view_post(self.posts@[i as int]),
                    self.tag_index() == index_tags(index_posts(idx0, pv, i as int), pm, k as int),
                decreases self.posts@[i as int].tags@.len() - k,
            {
                let tag = String::from_str(self.posts[i].tags[k].as_str());
                let title = String::from_str(self.posts[i].title.as_str());
                let path = String::from_str(self.posts[i].page_path.as_str());
                proof {
                    assert(pm.tags[k as int] == self.posts@[i as int].tags@[k as int]@);
                }
                add_tag_ref(&mut self.tags, tag, title, path);
                k = k + 1;
            }
            proof {
                assert(pm.tags.len() == self.posts@[i as int].tags@.len());
            }
            i = i + 1;
        }
    }

    /// Orders the posts newest first; posts of the same date keep their order.
    pub fn sort(&mut self)
        ensures
            final(self).view() == newest_first_order(old(self).view()),
            final(self).view().to_multiset() == old(self).view().to_multiset(),
            newest_first(final(self).view()),
            final(self).tag_index() == old(self).tag_index(),
    {
        let mut rest: Vec<Post> = Vec::new();
        std::mem::swap(&mut rest, &mut self.posts);
        let ghost orig = Seq::new(rest@.len(), |i: int| view_post(rest@[i]));
        proof {
            assert(self.view() =~= Seq::<PostModel>::empty());
            assert(orig.subrange(0, orig.len() as int) =~= orig);
            assert(Seq::<PostModel>::empty().to_multiset() =~= Multiset::empty());
            assert(self.view().to_multiset().add(orig.subrange(0, orig.len() as int).to_multiset()) =~= orig.to_multiset());
            assert(orig.take(0) =~= Seq::<PostModel>::empty());
        }
        let ghost mut taken: int = 0;
        while rest.len() > 0
            invariant
                0 <= taken <= orig.len(),
                rest@.len() == orig.len() - taken,
                forall|i: int| 0 <= i < rest@.len() ==> #[trigger] view_post(rest@[i]) == orig[taken + i],
                self.view().to_multiset().add(orig.subrange(taken, orig.len() as int).to_multiset()) == orig.to_multiset(),
                newest_first(self.view()),
                self.view() == newest_first_order(orig.take(taken)),
                self.tags == old(self).tags,
            decreases rest@.len(),
        {
            let p = rest.remove(0);
            let ghost pm = view_post(p);
            let ghost sv = self.view();
            let mut j: usize = 0;
            while j < self.posts.len() && !date_before(&self.posts[j].date, &p.date)
                invariant
                    j <= self.posts@.len(),
                    sv == self.view(),
                    pm == view_post(p),
                    forall|k: int| 0 <= k < j ==> newer_or_same(#[trigger] sv[k].date, pm.date),
                    first_older(sv, pm.date, 0) == first_older(sv, pm.date, j as int),
                decreases self.posts@.len() - j,
            {
                j = j + 1;
            }
            self.posts.insert(j, p);
            proof {
                let nv = self.view();
                assert(orig.take(taken + 1).drop_last() =~= orig.take(taken));
                assert(orig.take(taken + 1).last() == pm);
                if j < sv.len() {
                    assert(first_older(sv, pm.date, j as int) == j as int);
                }
                assert(nv =~= sv.insert(j as int, pm));
                assert(orig.subrange(taken, orig.len() as int) =~= orig.subrange(taken + 1, orig.len() as int).insert(0, pm));
                assert(nv.to_multiset() == sv.to_multiset().insert(pm));
                assert(orig.subrange(taken, orig.len() as int).to_multiset() == orig.subrange(taken + 1, orig.len() as int).to_multiset().insert(pm));
                assert(nv.to_multiset().add(orig.subrange(taken + 1, orig.len() as int).to_multiset()) =~= orig.to_multiset());
                assert forall|a: int, b: int| 0 <= a < b < nv.len() implies newer_or_same(#[trigger] nv[a].date, #[trigger] nv[b].date) by {
                    if b < j {
                    } else if b == j {
                        assert(nv[a] == sv[a]);
                    } else if a == j {
                        assert(nv[b] == sv[b - 1]);
                        if j < sv.len() {
                            assert(!newer_or_same(sv[j as int].date, pm.date));
                            assert(newer_or_same(sv[j as int].date, sv[b - 1].date) || j == b - 1);
                        }
                    } else if a < j {
                        assert(nv[a] == sv[a] && nv[b] == sv[b - 1]);
                    } else {
                        assert(nv[a] == sv[a - 1] && nv[b] == sv[b - 1]);
                    }
                }
                taken = taken + 1;
            }
        }
        proof {
            assert(orig.subrange(taken, orig.len() as int) =~= Seq::<PostModel>::empty());
            assert(Seq::<PostModel>::empty().to_multiset() =~= Multiset::empty());
            assert(self.view().to_multiset() =~= orig.to_multiset());
            assert(old(self).view() =~= orig);
            assert(orig.take(taken) =~= orig);
        }
    }
}

} // verus!
