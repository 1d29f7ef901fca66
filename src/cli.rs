use vstd::prelude::*;

verus! {

/// The settings every command shares: an optional base URL that overrides the site's, the
/// project root and the path of its manifest.
pub struct CliConfig {
    base_url: Option<String>,
    root_path: String,
    manifest_path: String,
}

impl CliConfig {
    pub closed spec fn base_url_view(&self) -> Option<Seq<char>> {
        crate::ast::view_opt_str(self.base_url)
    }

    pub closed spec fn root_path_view(&self) -> Seq<char> {
        self.root_path@
    }

    pub closed spec fn manifest_path_view(&self) -> Seq<char> {
        self.manifest_path@
    }

    pub fn new(base_url: Option<String>, root_path: String, manifest_path: String) -> (r: CliConfig)
        ensures
            r.base_url_view() == crate::ast::view_opt_str(base_url),
            r.root_path_view() == root_path@,
            r.manifest_path_view() == manifest_path@,
    {
        CliConfig { base_url, root_path, manifest_path }
    }

    pub fn base_url(&self) -> (r: &Option<String>)
        ensures
            crate::ast::view_opt_str(*r) == self.base_url_view(),
    {
        &self.base_url
    }

    pub fn root_path(&self) -> (r: &str)
        ensures
            r@ == self.root_path_view(),
    {
        self.root_path.as_str()
    }

    pub fn manifest_path(&self) -> (r: &str)
        ensures
            r@ == self.manifest_path_view(),
    {
        self.manifest_path.as_str()
    }
}

} // verus!
