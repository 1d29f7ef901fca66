use vstd::prelude::*;
use crate::config::SiteConfig;
use crate::text::{push_str_to, str_chars, chars_to_string};

verus! {

/// The position of the last `c` in `s`.
pub open spec fn last_of(s: Seq<char>, c: char) -> Option<int>
    decreases s.len(),
{
    if s.len() == 0 {
        None
    } else if s.last() == c {
        Some(s.len() - 1)
    } else {
        last_of(s.drop_last(), c)
    }
}

/// A path without one leading `/`.
pub open spec fn strip_root(p: Seq<char>) -> Seq<char> {
    if p.len() > 0 && p[0] == '/' {
        p.subrange(1, p.len() as int)
    } else {
        p
    }
}

/// The last component of a path: what follows its last `/`.
pub open spec fn file_name(p: Seq<char>) -> Seq<char> {
    match last_of(p, '/') {
        Some(k) => p.subrange(k + 1, p.len() as int),
        None => p,
    }
}

/// Whether the last component has an extension: a `.` after its first character
/// (`..` has none).
pub open spec fn has_extension(p: Seq<char>) -> bool {
    let n = file_name(p);
    match last_of(n, '.') {
        Some(k) => k > 0 && !(n.len() == 2 && n[0] == '.' && n[1] == '.'),
        None => false,
    }
}

/// The URL of a file of the site: under the base URL; with the content hash as a query when
/// one is given; else with a closing `/` when the path names no file with an extension.
pub open spec fn asset_url(base: Seq<char>, path: Seq<char>, hash: Option<Seq<char>>) -> Seq<char> {
    let p = strip_root(path);
    match hash {
        Some(h) => base + "/"@ + p + "?h="@ + h,
        None => if has_extension(p) {
            base + "/"@ + p
        } else {
            base + "/"@ + p + "/"@
        },
    }
}

pub proof fn lemma_last_of(s: Seq<char>, c: char)
    ensures
        last_of(s, c) matches Some(k) ==> 0 <= k < s.len() && s[k] == c,
    decreases s.len(),
{
    if s.len() > 0 && s.last() != c {
        lemma_last_of(s.drop_last(), c);
    }
}

pub(crate) fn last_index(v: &Vec<char>, c: char) -> (r: Option<usize>)
    ensures
        crate::spans::opt_int(r) == last_of(v@, c),
{
    let mut i: usize = v.len();
    proof {
        assert(v@.take(v@.len() as int) =~= v@);
    }
    while i > 0
        invariant
            i <= v@.len(),
            last_of(v@.take(i as int), c) == last_of(v@, c),
        decreases i,
    {
        proof {
            assert(v@.take(i as int).drop_last() =~= v@.take(i - 1));
        }
        if v[i - 1] == c {
            return Some(i - 1);
        }
        i = i - 1;
    }
    None
}

/// The template function that gives the URL of a file of the site.
pub struct GetUrl {
    config: SiteConfig,
    out_path: String,
}

impl GetUrl {
    pub closed spec fn base_url(&self) -> Seq<char> {
        self.config.site.base_url@
    }

    pub closed spec fn out_path_view(&self) -> Seq<char> {
        self.out_path@
    }

    pub fn new(config: SiteConfig, out_path: String) -> (r: GetUrl)
        ensures
            r.base_url() == config.site.base_url@,
            r.out_path_view() == out_path@,
    {
        Self { config, out_path }
    }

    /// The directory the site is written to.
    pub fn out_path(&self) -> (r: &str)
        ensures
            r@ == self.out_path_view(),
    {
        self.out_path.as_str()
    }

    /// The URL of the file at `path`, with its content hash when one is given.
    pub fn url_for(&self, path: &str, hash: Option<&str>) -> (r: String)
        ensures
            r@ == asset_url(self.base_url(), path@, crate::page::view_opt_ref(hash)),
    {
        let cs = str_chars(path);
        let start: usize = if cs.len() > 0 && cs[0] == '/' { 1 } else { 0 };
        let p = crate::text::sub_chars(&cs, start, cs.len());
        proof {
            assert(p@ =~= strip_root(path@));
        }
        let mut r = String::new();
        push_str_to(&mut r, self.config.site.base_url.as_str());
        push_str_to(&mut r, "/");
        let ps = chars_to_string(&p, 0, p.len());
        proof {
            assert(p@.subrange(0, p@.len() as int) =~= p@);
        }
        push_str_to(&mut r, ps.as_str());
        match hash {
            Some(h) => {
                push_str_to(&mut r, "?h=");
                push_str_to(&mut r, h);
            },
            None => {
                proof { lemma_last_of(p@, '/'); }
                let name_start: usize = match last_index(&p, '/') {
                    Some(k) => k + 1,
                    None => 0,
                };
                let name = crate::text::sub_chars(&p, name_start, p.len());
                proof {
                    assert(name@ =~= file_name(p@));
                    lemma_last_of(name@, '.');
                }
                let ext = match last_index(&name, '.') {
                    Some(k) => k > 0 && !(name.len() == 2 && name[0] == '.' && name[1] == '.'),
                    None => false,
                };
                if !ext {
                    push_str_to(&mut r, "/");
                }
            },
        }
        proof {
            assert(r@ =~= asset_url(self.base_url(), path@, crate::page::view_opt_ref(hash)));
        }
        r
    }
}

} // verus!
