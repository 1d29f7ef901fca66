use nuko::cli::CliConfig;
use nuko::config::{default_title_sep, SiteConfig};
use nuko::page::{Date, Page};
use nuko::posts::{Posts, PostsError};
use nuko::sitemap::Sitemap;
use nuko::site::{build_sitemap, collect_posts};
use nuko::template_fns::GetUrl;

fn page(path: &str, text: &str) -> Page {
    Page::parse(path.to_string(), text.to_string()).expect("page")
}

#[test]
fn posts_need_title_description_and_date() {
    let mut posts = Posts::new();
    match posts.add_page(&page("/p", "body")) {
        Err(PostsError::MissingTitle(p)) => assert_eq!(p, "/p"),
        other => panic!("{:?}", other),
    }
    match posts.add_page(&page("/p", "#+TITLE: t\nbody")) {
        Err(PostsError::MissingDescription(_)) => {}
        other => panic!("{:?}", other),
    }
    match posts.add_page(&page("/p", "#+TITLE: t\n#+DESCRIPTION: d\nbody")) {
        Err(PostsError::MissingDate(_)) => {}
        other => panic!("{:?}", other),
    }
    assert_eq!(posts.posts().len(), 0);
}

#[test]
fn posts_sort_newest_first_and_index_tags() {
    let mut posts = Posts::new();
    let texts = [
        ("/a", "#+TITLE: A\n#+DESCRIPTION: d\n#+DATE: <2020-01-01 Wed>\n#+TAGS: x"),
        ("/b", "#+TITLE: B\n#+DESCRIPTION: d\n#+DATE: <2021-06-01 Tue>\n#+TAGS: x y"),
        ("/c", "#+TITLE: C\n#+DESCRIPTION: d\n#+DATE: <2020-05-05 Tue>"),
    ];
    for (path, text) in texts.iter() {
        posts.add_page(&page(path, text)).unwrap();
    }
    posts.sort();
    let titles: Vec<&str> = posts.posts().iter().map(|p| p.title()).collect();
    assert_eq!(titles, vec!["B", "C", "A"]);
    assert_eq!(posts.posts()[0].date(), Date { year: 2021, month: 6, day: 1 });
    posts.generate_tag_index();
    let tags = posts.tags();
    assert_eq!(tags.len(), 2);
    assert_eq!(tags[0].0, "x");
    assert_eq!(tags[0].1, vec![("B".to_string(), "/b".to_string()), ("A".to_string(), "/a".to_string())]);
    assert_eq!(tags[1].0, "y");
    assert_eq!(tags[1].1, vec![("B".to_string(), "/b".to_string())]);
}

#[test]
fn sitemap_links_and_replaces() {
    let config = SiteConfig::with_base_url("https://x.org".to_string());
    let mut sitemap = Sitemap::new();
    sitemap.add_page(&config, &page("/blog/post", "a"));
    sitemap.add_page(&config, &page("/", "b"));
    sitemap.add_page(&config, &page("/blog/post", "c"));
    assert_eq!(sitemap.len(), 2);
    assert_eq!(sitemap.permalink_of("/blog/post"), Some("https://x.org/blog/post/"));
    assert_eq!(sitemap.permalink_of("/"), Some("https://x.org/"));
    assert_eq!(sitemap.permalink_of("/none"), None);
}

#[test]
fn get_url_forms() {
    let get_url = GetUrl::new(SiteConfig::with_base_url("https://x.org".to_string()), "out".to_string());
    assert_eq!(get_url.url_for("/style.css", None), "https://x.org/style.css");
    assert_eq!(get_url.url_for("blog", None), "https://x.org/blog/");
    assert_eq!(get_url.url_for("/.hidden", None), "https://x.org/.hidden/");
    assert_eq!(get_url.url_for("/a/b.js", Some("abc")), "https://x.org/a/b.js?h=abc");
    assert_eq!(get_url.out_path(), "out");
}

#[test]
fn config_defaults() {
    assert_eq!(default_title_sep(), '|');
    let config = SiteConfig::with_base_url("u".to_string());
    assert_eq!(config.site.base_url, "u");
    assert!(!config.feeds.atom);
}

#[test]
fn cli_config_accessors() {
    let cli = CliConfig::new(Some("https://b".to_string()), "/root".to_string(), "/root/Nuko.toml".to_string());
    assert_eq!(cli.base_url(), &Some("https://b".to_string()));
    assert_eq!(cli.root_path(), "/root");
    assert_eq!(cli.manifest_path(), "/root/Nuko.toml");
}

#[test]
fn tag_index_places_new_tags_in_order() {
    let mut posts = Posts::new();
    posts.add_page(&page("/p", "#+TITLE: P\n#+DESCRIPTION: d\n#+DATE: <2020-01-01 Wed>\n#+TAGS: web rust art")).unwrap();
    posts.generate_tag_index();
    let names: Vec<&str> = posts.tags().iter().map(|(t, _)| t.as_str()).collect();
    assert_eq!(names, vec!["art", "rust", "web"]);
}

#[test]
fn posts_are_the_pages_under_a_posts_index() {
    let pages = vec![
        page("/blog", "#+TYPE: posts\n#+TITLE: Blog"),
        page("/blog/old", "#+TITLE: Old\n#+DESCRIPTION: d\n#+DATE: <2019-02-03 Sun>"),
        page("/blog/new", "#+TITLE: New\n#+DESCRIPTION: d\n#+DATE: <2022-02-03 Thu>\n#+TAGS: z"),
        page("/about", "#+TITLE: About"),
    ];
    let posts = collect_posts(&pages).unwrap();
    let titles: Vec<&str> = posts.posts().iter().map(|p| p.title()).collect();
    assert_eq!(titles, vec!["New", "Old"]);
    assert_eq!(posts.tags().len(), 1);

    let sitemap = build_sitemap(&SiteConfig::with_base_url("https://x.org".to_string()), &pages);
    assert_eq!(sitemap.len(), 4);
    assert_eq!(sitemap.permalink_of("/about"), Some("https://x.org/about/"));
}

#[test]
fn a_post_without_date_stops_the_listing() {
    let pages = vec![
        page("/blog", "#+TYPE: posts"),
        page("/blog/x", "#+TITLE: X\n#+DESCRIPTION: d"),
    ];
    match collect_posts(&pages) {
        Err(PostsError::MissingDate(p)) => assert_eq!(p, "/blog/x"),
        other => panic!("{:?}", other.map(|_| ())),
    }
}
