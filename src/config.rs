use vstd::prelude::*;

verus! {

/// The title separator used when the site configuration names none.
pub fn default_title_sep() -> (r: char)
    ensures
        r == '|',
{
    '|'
}

/// The `[site]` table of a project manifest.
#[derive(Clone, Debug)]
pub struct ProjectSiteConfig {
    pub title: Option<String>,
}

/// A project manifest.
#[derive(Clone, Debug)]
pub struct ProjectConfig {
    pub site: ProjectSiteConfig,
}

/// The `[site]` table of a site configuration.
#[derive(Clone, Debug)]
pub struct SiteSiteConfig {
    pub title: Option<String>,
    pub description: Option<String>,
    pub theme: Option<String>,
    pub base_url: String,
    pub title_seperator: char,
    pub syntax_theme: Option<String>,
    pub syntax_theme_dark: Option<String>,
    /// Pairs of (pattern of files in the content, directory in the output).
    pub copy_files: Option<Vec<(String, String)>>,
}

/// Which feeds the site publishes.
#[derive(Clone, Debug, Default)]
pub struct SiteFeedsConfig {
    pub atom: bool,
    pub rss: bool,
}

/// A site configuration.
#[derive(Clone, Debug)]
pub struct SiteConfig {
    pub site: SiteSiteConfig,
    pub feeds: SiteFeedsConfig,
}

impl SiteConfig {
    /// A configuration with the given base URL and every other setting at its default.
    pub fn with_base_url(base_url: String) -> (r: SiteConfig)
        ensures
            r.site.base_url@ == base_url@,
            r.site.title_seperator == '|',
            r.site.title is None,
            r.site.description is None,
            r.site.theme is None,
            r.site.syntax_theme is None,
            r.site.syntax_theme_dark is None,
            r.site.copy_files is None,
            !r.feeds.atom && !r.feeds.rss,
    {
        SiteConfig {
            site: SiteSiteConfig {
                title: None,
                description: None,
                theme: None,
                base_url,
                title_seperator: default_title_sep(),
                syntax_theme: None,
                syntax_theme_dark: None,
                copy_files: None,
            },
            feeds: SiteFeedsConfig { atom: false, rss: false },
        }
    }
}

} // verus!
