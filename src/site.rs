use vstd::prelude::*;
use crate::config::SiteConfig;
use crate::page::{Page, PageMeta};
use crate::posts::{index_posts, newest_first, newest_first_order, PostModel, Posts, PostsError};
use crate::sitemap::{upsert, permalink, Sitemap};
use crate::template_fns::{last_index, last_of, lemma_last_of};
use crate::text::{chars_to_string, str_chars};
use vstd::string::StringExecFns;

verus! {

/// The parent of a site path: `/a/b` has `/a`, `/a` has `/`, `/` has none.
pub open spec fn parent_of(p: Seq<char>) -> Option<Seq<char>> {
    match last_of(p, '/') {
        None => if p.len() == 0 {
            None
        } else {
            Some(Seq::empty())
        },
        Some(k) => if k == 0 {
            if p.len() == 1 {
                None
            } else {
                Some(seq!['/'])
            }
        } else {
            Some(p.subrange(0, k))
        },
    }
}

/// Model of an error of the posts listing.
pub enum PostFault {
    MissingTitle(Seq<char>),
    MissingDescription(Seq<char>),
    MissingDate(Seq<char>),
}

pub open spec fn view_post_fault(e: PostsError) -> PostFault {
    match e {
        PostsError::MissingTitle(p) => PostFault::MissingTitle(p@),
        PostsError::MissingDescription(p) => PostFault::MissingDescription(p@),
        PostsError::MissingDate(p) => PostFault::MissingDate(p@),
    }
}

/// The post a page makes: it needs a title, a description and a date.
pub open spec fn post_of(m: PageMeta) -> Result<PostModel, PostFault> {
    if m.title is None {
        Err(PostFault::MissingTitle(m.page_path))
    } else if m.description is None {
        Err(PostFault::MissingDescription(m.page_path))
    } else if m.date is None {
        Err(PostFault::MissingDate(m.page_path))
    } else {
        Ok(PostModel {
            title: m.title->Some_0,
            description: m.description->Some_0,
            page_path: m.page_path,
            date: m.date->Some_0,
            date_updated: m.date_updated,
            tags: m.tags,
        })
    }
}

/// The paths of the first `n` pages whose type is `posts`: the directories of posts.
pub open spec fn post_dirs(ms: Seq<PageMeta>, n: int) -> Seq<Seq<char>>
    decreases n,
{
    if n <= 0 {
        Seq::empty()
    } else if ms[n - 1].ty == Some(seq!['p', 'o', 's', 't', 's']) {
        post_dirs(ms, n - 1).push(ms[n - 1].page_path)
    } else {
        post_dirs(ms, n - 1)
    }
}

/// A page is a post when its parent is a directory of posts.
pub open spec fn is_post(m: PageMeta, dirs: Seq<Seq<char>>) -> bool {
    parent_of(m.page_path) matches Some(pp) && dirs.contains(pp)
}

/// The posts among the first `n` pages, in order; the first post that lacks what it needs
/// is an error.
pub open spec fn gather(ms: Seq<PageMeta>, dirs: Seq<Seq<char>>, n: int) -> Result<Seq<PostModel>, PostFault>
    decreases n,
{
    if n <= 0 {
        Ok(Seq::empty())
    } else {
        match gather(ms, dirs, n - 1) {
            Err(f) => Err(f),
            Ok(acc) => if is_post(ms[n - 1], dirs) {
                match post_of(ms[n - 1]) {
                    Ok(pm) => Ok(acc.push(pm)),
                    Err(f) => Err(f),
                }
            } else {
                Ok(acc)
            },
        }
    }
}

/// The sitemap after the first `n` pages.
pub open spec fn sitemap_of(base: Seq<char>, ms: Seq<PageMeta>, n: int) -> Seq<(Seq<char>, Seq<char>)>
    decreases n,
{
    if n <= 0 {
        Seq::empty()
    } else {
        let s = sitemap_of(base, ms, n - 1);
        upsert(s, ms[n - 1].page_path, permalink(base, ms[n - 1].page_path))
    }
}

pub open spec fn metas(pages: Seq<Page>) -> Seq<PageMeta> {
    Seq::new(pages.len(), |i: int| pages[i].meta())
}

fn parent_path(p: &str) -> (r: Option<String>)
    ensures
        crate::ast::view_opt_str(r) == parent_of(p@),
{
    let v = str_chars(p);
    let n = v.len();
    proof { lemma_last_of(v@, '/'); }
    match last_index(&v, '/') {
        None => if v.len() == 0 {
            None
        } else {
            Some(String::new())
        },
        Some(k) => if k == 0 {
            if v.len() == 1 {
                None
            } else {
                let mut s = String::new();
                crate::text::push_char(&mut s, '/');
                proof { assert(s@ =~= seq!['/']); }
                Some(s)
            }
        } else {
            Some(chars_to_string(&v, 0, k))
        },
    }
}

fn contains_str(v: &Vec<String>, s: &String) -> (r: bool)
    ensures
        r == crate::emitter::view_strs(v@).contains(s@),
{
    let mut i: usize = 0;
    while i < v.len()
        invariant
            i <= v@.len(),
            forall|j: int| 0 <= j < i ==> v@[j]@ != s@,
        decreases v@.len() - i,
    {
        if v[i] == *s {
            proof { assert(crate::emitter::view_strs(v@)[i as int] == s@); }
            return true;
        }
        i = i + 1;
    }
    proof {
        if crate::emitter::view_strs(v@).contains(s@) {
            let j = choose|j: int| 0 <= j < v@.len() && crate::emitter::view_strs(v@)[j] == s@;
            assert(v@[j]@ == s@);
        }
    }
    false
}

/// The sitemap of the pages, in order.
pub fn build_sitemap(config: &SiteConfig, pages: &Vec<Page>) -> (r: Sitemap)
    ensures
        r.view() == sitemap_of(config.site.base_url@, metas(pages@), pages@.len() as int),
{
    let ghost ms = metas(pages@);
    let mut sitemap = Sitemap::new();
    let mut i: usize = 0;
    while i < pages.len()
        invariant
            i <= pages@.len(),
            ms == metas(pages@),
            sitemap.view() == sitemap_of(config.site.base_url@, ms, i as int),
        decreases pages@.len() - i,
    {
        sitemap.add_page(config, &pages[i]);
        i = i + 1;
    }
    sitemap
}

/// The posts of the site: the pages whose parent directory is the path of a page of type
/// `posts`, newest first, with their tag index.
pub fn collect_posts(pages: &Vec<Page>) -> (r: Result<Posts, PostsError>)
    ensures
        ({
            let ms = metas(pages@);
            match gather(ms, post_dirs(ms, ms.len() as int), ms.len() as int) {
                Ok(ps) => r matches Ok(posts) && posts.view() == newest_first_order(ps)
                    && posts.view().to_multiset() == ps.to_multiset()
                    && newest_first(posts.view())
                    && posts.tag_index() == index_posts(Seq::empty(), posts.view(), posts.view().len() as int),
                Err(f) => r matches Err(e) && view_post_fault(e) == f,
            }
        }),
{
    let ghost ms = metas(pages@);
    let kind = String::from_str("posts");
    proof {
        reveal_strlit("posts");
        assert(kind@ =~= seq!['p', 'o', 's', 't', 's']);
    }
    let mut dirs: Vec<String> = Vec::new();
    let mut i: usize = 0;
    proof { assert(crate::emitter::view_strs(dirs@) =~= post_dirs(ms, 0)); }
    while i < pages.len()
        invariant
            i <= pages@.len(),
            ms == metas(pages@),
            kind@ == seq!['p', 'o', 's', 't', 's'],
            crate::emitter::view_strs(dirs@) == post_dirs(ms, i as int),
        decreases pages@.len() - i,
    {
        let ghost before = crate::emitter::view_strs(dirs@);
        match pages[i].ty() {
            Some(t) => {
                let ts = String::from_str(t);
                if ts == kind {
                    dirs.push(String::from_str(pages[i].page_path()));
                    proof { assert(crate::emitter::view_strs(dirs@) =~= before.push(ms[i as int].page_path)); }
                }
            },
            None => {},
        }
        i = i + 1;
    }
    let ghost dv = crate::emitter::view_strs(dirs@);
    let mut posts = Posts::new();
    let mut j: usize = 0;
    proof { assert(posts.view() =~= Seq::<PostModel>::empty()); }
    while j < pages.len()
        invariant
            j <= pages@.len(),
            ms == metas(pages@),
            dv == crate::emitter::view_strs(dirs@),
            dv == post_dirs(ms, ms.len() as int),
            gather(ms, dv, j as int) == Ok::<Seq<PostModel>, PostFault>(posts.view()),
            posts.tag_index() == Seq::<(Seq<char>, Seq<(Seq<char>, Seq<char>)>)>::empty(),
        decreases pages@.len() - j,
    {
        match parent_path(pages[j].page_path()) {
            Some(parent) => {
                if contains_str(&dirs, &parent) {
                    match posts.add_page(&pages[j]) {
                        Ok(()) => {},
                        Err(e) => {
                            proof { lemma_gather_err(ms, dv, j as int + 1); }
                            return Err(e);
                        },
                    }
                }
            },
            None => {},
        }
        j = j + 1;
    }
    posts.sort();
    posts.generate_tag_index();
    Ok(posts)
}

proof fn lemma_gather_err(ms: Seq<PageMeta>, dirs: Seq<Seq<char>>, n: int)
    requires
        0 <= n <= ms.len(),
        gather(ms, dirs, n) is Err,
    ensures
        gather(ms, dirs, ms.len() as int) == gather(ms, dirs, n),
    decreases ms.len() - n,
{
    if n < ms.len() {
        lemma_gather_err(ms, dirs, n + 1);
    }
}

} // verus!
