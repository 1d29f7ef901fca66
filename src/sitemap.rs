use vstd::prelude::*;
use crate::config::SiteConfig;
use crate::page::Page;
use crate::text::{push_str_to, str_chars};
use vstd::string::StringExecFns;

verus! {

/// The entry of one page in the sitemap.
#[derive(Debug)]
pub struct SitemapEntry {
    pub permalink: String,
}

/// The pages of the site by path, each path once, in the order first added.
#[derive(Debug, Default)]
pub struct Sitemap {
    pages: Vec<(String, SitemapEntry)>,
}

/// The first index from `i` on whose key is `k`.
pub open spec fn key_from(v: Seq<(Seq<char>, Seq<char>)>, k: Seq<char>, i: int) -> Option<int>
    decreases v.len() - i,
{
    if i < 0 || i >= v.len() {
        None
    } else if v[i].0 == k {
        Some(i)
    } else {
        key_from(v, k, i + 1)
    }
}

/// Sets the value of key `k`: in place when present, else at the end.
pub open spec fn upsert(v: Seq<(Seq<char>, Seq<char>)>, k: Seq<char>, val: Seq<char>) -> Seq<(Seq<char>, Seq<char>)> {
    match key_from(v, k, 0) {
        Some(i) => v.update(i, (k, val)),
        None => v.push((k, val)),
    }
}

/// The permanent link of a page: the base URL, the path, and a closing `/` unless the
/// path has one.
pub open spec fn permalink(base: Seq<char>, path: Seq<char>) -> Seq<char> {
    if path.len() > 0 && path.last() == '/' {
        base + path
    } else {
        base + path + "/"@
    }
}

pub open spec fn keys_unique(v: Seq<(Seq<char>, Seq<char>)>) -> bool {
    forall|i: int, j: int| 0 <= i < j < v.len() ==> v[i].0 != v[j].0
}

proof fn lemma_key_from(v: Seq<(Seq<char>, Seq<char>)>, k: Seq<char>, i: int)
    requires
        0 <= i,
    ensures
        key_from(v, k, i) matches Some(j) ==> i <= j < v.len() && v[j].0 == k,
        key_from(v, k, i) is None ==> forall|j: int| i <= j < v.len() ==> v[j].0 != k,
    decreases v.len() - i,
{
    if i < v.len() && v[i].0 != k {
        lemma_key_from(v, k, i + 1);
    }
}

impl Sitemap {
    /// The entries as (path, permanent link).
    pub closed spec fn view(&self) -> Seq<(Seq<char>, Seq<char>)> {
        Seq::new(self.pages@.len(), |i: int| (self.pages@[i].0@, self.pages@[i].1.permalink@))
    }

    pub fn new() -> (r: Sitemap)
        ensures
            r.view() == Seq::<(Seq<char>, Seq<char>)>::empty(),
    {
        let r = Sitemap { pages: Vec::new() };
        proof {
            assert(r.view() =~= Seq::<(Seq<char>, Seq<char>)>::empty());
        }
        r
    }

    /// Records a page under its path, with its permanent link under the site's base URL.
    pub fn add_page(&mut self, site_config: &SiteConfig, page: &Page)
        ensures
            final(self).view() == upsert(old(self).view(), page.meta().page_path, permalink(site_config.site.base_url@, page.meta().page_path)),
            keys_unique(old(self).view()) ==> keys_unique(final(self).view()),
    {
        let path = page.page_path();
        let cs = str_chars(path);
        let mut link = String::new();
        push_str_to(&mut link, site_config.site.base_url.as_str());
        push_str_to(&mut link, path);
        if !(cs.len() > 0 && cs[cs.len() - 1] == '/') {
            push_str_to(&mut link, "/");
        }
        let ghost val = link@;
        proof {
            assert(val =~= permalink(site_config.site.base_url@, path@));
        }
        let ghost v = self.view();
        let key = String::from_str(path);
        let mut i: usize = 0;
        proof { lemma_key_from(v, path@, 0); }
        while i < self.pages.len()
            invariant
                i <= self.pages@.len(),
                v == self.view(),
                key@ == path@,
                val == link@,
                path@ == page.meta().page_path,
                val == permalink(site_config.site.base_url@, path@),
                *self == *old(self),
                key_from(v, path@, 0) == key_from(v, path@, i as int),
            decreases self.pages@.len() - i,
        {
            if self.pages[i].0 == key {
                let ghost before = self.pages@;
                assert(v[i as int].0 == path@);
                let _old = self.pages.remove(i);
                self.pages.insert(i, (key, SitemapEntry { permalink: link }));
                assert(self.pages@ =~= before.update(i as int, self.pages@[i as int]));
                proof {
                    assert(self.view() =~= v.update(i as int, (path@, val)));
                    if keys_unique(v) {
                        assert forall|a: int, b: int| 0 <= a < b < self.view().len() implies self.view()[a].0 != self.view()[b].0 by {
                            assert(v[a].0 != v[b].0);
                        }
                    }
                }
                return;
            }
            i = i + 1;
        }
        proof { lemma_key_from(v, path@, 0); }
        self.pages.push((key, SitemapEntry { permalink: link }));
        proof {
            assert(self.view() =~= v.push((path@, val)));
            if keys_unique(v) {
                assert forall|a: int, b: int| 0 <= a < b < self.view().len() implies self.view()[a].0 != self.view()[b].0 by {
                    if b < v.len() {
                        assert(v[a].0 != v[b].0);
                    }
                }
            }
        }
    }

    /// The number of pages.
    pub fn len(&self) -> (r: usize)
        ensures
            r == self.view().len(),
    {
        self.pages.len()
    }

    /// The permanent link recorded for a path.
    pub fn permalink_of(&self, path: &str) -> (r: Option<&str>)
        ensures
            match key_from(self.view(), path@, 0) {
                Some(i) => r matches Some(s) && s@ == self.view()[i].1,
                None => r is None,
            },
    {
        let key = String::from_str(path);
        let ghost v = self.view();
        let mut i: usize = 0;
        while i < self.pages.len()
            invariant
                i <= self.pages@.len(),
                v == self.view(),
                key@ == path@,
                key_from(v, path@, 0) == key_from(v, path@, i as int),
            decreases self.pages@.len() - i,
        {
            if self.pages[i].0 == key {
                return Some(self.pages[i].1.permalink.as_str());
            }
            i = i + 1;
        }
        None
    }
}

} // verus!
