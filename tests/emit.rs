use nuko::emitter::{emit_document, OrgError};
use nuko::page::{page_path_for, date_texts_of, read_date_field, read_tags, Date, Page, PageError};
use nuko::parser::parse_document;
use nuko::toc::{Toc, TocError};

fn render(input: &str, base: &str) -> Result<(Toc, String), OrgError> {
    let document = parse_document(input).expect("parse");
    emit_document(&document, base)
}

#[test]
fn plain_paragraph_is_escaped() {
    let (_, html) = render("a < b & \"c\"", "").unwrap();
    assert_eq!(html, "<p>a &lt; b &amp; &quot;c&quot;</p>");
}

#[test]
fn headline_gets_anchor_and_toc_entry() {
    let (toc, html) = render("* Hello World\ntext", "").unwrap();
    assert_eq!(html, "<h1 id=\"helloworld\"><a href=\"#helloworld\">Hello World</a></h1><p>text</p>");
    assert_eq!(toc.sections().len(), 1);
    assert_eq!(toc.sections()[0].shortcut(), "helloworld");
    assert_eq!(toc.sections()[0].text(), "Hello World");
}

#[test]
fn repeated_titles_get_numbered_slugs() {
    let (toc, html) = render("* A\n* A\n* A", "").unwrap();
    assert!(html.contains("id=\"a\""));
    assert!(html.contains("id=\"a1\""));
    assert!(html.contains("id=\"a2\""));
    let slugs: Vec<&str> = toc.sections().iter().map(|s| s.shortcut()).collect();
    assert_eq!(slugs, vec!["a", "a1", "a2"]);
}

#[test]
fn links_internal_and_external() {
    let (_, html) = render("[[/about][About]] [[https://x.org][X]]", "https://site").unwrap();
    assert_eq!(
        html,
        "<p><a href=\"https://site/about\">About</a> <a href=\"https://x.org\" rel=\"noreferrer noopener\">X</a></p>"
    );
}

#[test]
fn emphasis_tags() {
    let (_, html) = render("*b* /i/ _u_ +s+ =v=", "").unwrap();
    assert_eq!(html, "<p><b>b</b> <i>i</i> <u>u</u> <s>s</s> v</p>");
}

#[test]
fn footnotes_are_numbered_and_listed() {
    let (_, html) = render("one[fn::first] two[fn::second]", "").unwrap();
    assert_eq!(
        html,
        "<p>one<sup><a href=\"#fn1\" id=\"fns1\">1</a></sup> two<sup><a href=\"#fn2\" id=\"fns2\">2</a></sup></p>\
<hr><section id=footnotes><h2>Footnotes</h2><ol>\
<li id=fn1><p>first <a href=#fns1>\u{21b5}</a></p></li>\
<li id=fn2><p>second <a href=#fns2>\u{21b5}</a></p></li></ol></section>"
    );
    assert_eq!(html.matches("<sup>").count(), html.matches("<li id=fn").count());
}

#[test]
fn named_footnote_is_unsupported() {
    assert_eq!(render("x [fn:n:body]", "").unwrap_err(), OrgError::Unsupported);
}

#[test]
fn list_renders_items() {
    let (_, html) = render("- a\n- b", "").unwrap();
    assert_eq!(html, "<p><ul><li>a</li><li>b</li></ul></p>");
}

#[test]
fn newline_reopens_paragraph() {
    let (_, html) = render("a\nb", "").unwrap();
    assert_eq!(html, "<p>a</p><p>b</p>");
}

#[test]
fn emitting_twice_gives_the_same_output() {
    let input = "* T\nx[fn::y]\n* T\n- a";
    let (toc1, h1) = render(input, "/b").unwrap();
    let (toc2, h2) = render(input, "/b").unwrap();
    assert_eq!(h1, h2);
    let s1: Vec<&str> = toc1.sections().iter().map(|s| s.shortcut()).collect();
    let s2: Vec<&str> = toc2.sections().iter().map(|s| s.shortcut()).collect();
    assert_eq!(s1, s2);
}

#[test]
fn toc_levels_nest() {
    let mut toc = Toc::new();
    assert_eq!(toc.add_headline(1, "One").unwrap(), "one");
    assert_eq!(toc.add_headline(2, "Sub A").unwrap(), "suba");
    assert_eq!(toc.add_headline(2, "Sub B").unwrap(), "subb");
    assert_eq!(toc.add_headline(1, "Two").unwrap(), "two");
    let top = toc.sections();
    assert_eq!(top.len(), 2);
    assert_eq!(top[0].sections().len(), 2);
    assert_eq!(top[1].sections().len(), 0);
    assert_eq!(top[0].num(), 1);
    assert_eq!(top[1].num(), 2);
    assert_eq!(top[0].sections()[1].num(), 2);
    assert_eq!(top[0].sections()[1].text(), "Sub B");
}

#[test]
fn toc_skipped_level_makes_blank_parent() {
    let mut toc = Toc::new();
    toc.add_headline(3, "Deep").unwrap();
    let top = toc.sections();
    assert_eq!(top.len(), 1);
    assert_eq!(top[0].text(), "");
    assert_eq!(top[0].sections()[0].text(), "");
    assert_eq!(top[0].sections()[0].sections()[0].text(), "Deep");
}

#[test]
fn toc_slugs_run_out_after_ninety_nine() {
    let mut toc = Toc::new();
    for _ in 0..100 {
        toc.add_headline(1, "x").unwrap();
    }
    assert_eq!(toc.add_headline(1, "x"), Err(TocError::SlugExhausted));
}

#[test]
fn date_single_and_range() {
    let (d, u) = read_date_field(&"<2021-03-04 Thu>".to_string()).unwrap();
    assert_eq!(d, Date { year: 2021, month: 3, day: 4 });
    assert_eq!(u, None);
    let (d, u) = read_date_field(&"<2021-03-04 Thu>---<2022-01-01 Sat>".to_string()).unwrap();
    assert_eq!(d, Date { year: 2021, month: 3, day: 4 });
    assert_eq!(u, Some(Date { year: 2022, month: 1, day: 1 }));
}

#[test]
fn date_errors() {
    match read_date_field(&"2021-03-04".to_string()) {
        Err(PageError::InvalidDateField(r, v)) => {
            assert_eq!(r, "Missing timestamp");
            assert_eq!(v, "2021-03-04");
        }
        other => panic!("{:?}", other),
    }
    match read_date_field(&"<2021-03-04 Thu".to_string()) {
        Err(PageError::InvalidDateField(r, _)) => assert_eq!(r, "Unterminated timestamp"),
        other => panic!("{:?}", other),
    }
    match read_date_field(&"<2021-03-04 Thu>--<2022-01-01 Sat>".to_string()) {
        Err(PageError::InvalidDateField(r, _)) => assert_eq!(r, "Wrong sequence between dates"),
        other => panic!("{:?}", other),
    }
    match read_date_field(&"<2021-03-04 Fri>".to_string()) {
        Err(PageError::InvalidDate(t)) => assert_eq!(t, "2021-03-04 Fri"),
        other => panic!("{:?}", other),
    }
}

#[test]
fn tags_are_split_and_checked() {
    assert_eq!(read_tags(&"rust web".to_string()).unwrap(), vec!["rust".to_string(), "web".to_string()]);
    match read_tags(&"rust Web".to_string()) {
        Err(PageError::InvalidTag(t)) => assert_eq!(t, "Web"),
        other => panic!("{:?}", other),
    }
}

#[test]
fn page_metadata() {
    let text = "#+TITLE: Post\n#+TYPE: posts\n#+DATE: <2021-03-04 Thu>\n#+TAGS: a b\nbody".to_string();
    let page = Page::parse("/blog/post".to_string(), text).unwrap();
    assert_eq!(page.title(), Some("Post"));
    assert_eq!(page.ty(), Some("posts"));
    assert_eq!(page.template(), None);
    assert_eq!(page.date(), Some(Date { year: 2021, month: 3, day: 4 }));
    assert_eq!(page.tags(), &vec!["a".to_string(), "b".to_string()]);
    assert_eq!(page.page_path(), "/blog/post");
    let (_, html) = page.render_html("").unwrap();
    assert_eq!(html, "<p>body</p>");
}

#[test]
fn date_texts_are_framed() {
    let (a, b) = date_texts_of(&"<2021-03-04 Thu>---<x>".to_string()).unwrap();
    assert_eq!(a, "2021-03-04 Thu");
    assert_eq!(b, Some("x".to_string()));
    let (a, b) = date_texts_of(&"<any>".to_string()).unwrap();
    assert_eq!(a, "any");
    assert_eq!(b, None);
    match date_texts_of(&"<a>---b".to_string()) {
        Err(PageError::InvalidDateField(r, v)) => {
            assert_eq!(r, "Missing timestamp");
            assert_eq!(v, "<a>---b");
        }
        other => panic!("{:?}", other),
    }
}

#[test]
fn anchor_from_base_numbers_when_taken() {
    let mut toc = Toc::new();
    assert_eq!(toc.add_with_base(1, &"intro".to_string(), "Intro").unwrap(), "intro");
    assert_eq!(toc.add_with_base(1, &"intro".to_string(), "Intro!").unwrap(), "intro1");
    assert_eq!(toc.add_headline(2, "INTRO").unwrap(), "intro2");
    assert_eq!(toc.sections()[1].sections()[0].shortcut(), "intro2");
}

#[test]
fn slug_keeps_unicode_letters_and_drops_punctuation() {
    let mut toc = Toc::new();
    assert_eq!(toc.add_headline(1, "Héllo, Wörld-2!").unwrap(), "héllowörld2");
}

#[test]
fn page_paths_from_content_files() {
    assert_eq!(page_path_for("blog/post.org"), "/blog/post");
    assert_eq!(page_path_for("blog/_index.org"), "/blog");
    assert_eq!(page_path_for("_index.org"), "/");
    assert_eq!(page_path_for("about.org"), "/about");
    assert_eq!(page_path_for("notes/a.b.org"), "/notes/a.b");
    assert_eq!(page_path_for("notes/.hidden"), "/notes/.hidden");
}
