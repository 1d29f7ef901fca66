use nuko::ast::{OrgContent, OrgSectionContent};
use nuko::emitter::{emit_document, OrgError};
use nuko::events::{source_block_html, Highlighted, render_events, document_events, emit_document_events, emit_events, inline_events, OrgElement, OrgEvent};
use nuko::toc::Toc;
use nuko::parser::parse_document;

fn body_nodes(input: &str) -> Vec<OrgSectionContent> {
    let document = parse_document(input).expect("parse");
    for c in document.content {
        if let OrgContent::Section(s) = c {
            return s.children;
        }
    }
    vec![]
}

#[test]
fn events_of_emphasis_and_link() {
    let nodes = body_nodes("*a* [[/x][y]]");
    let events = inline_events(&nodes);
    assert_eq!(
        events,
        vec![
            OrgEvent::Start(OrgElement::Bold),
            OrgEvent::Start(OrgElement::Text("a".into())),
            OrgEvent::End(OrgElement::Bold),
            OrgEvent::Start(OrgElement::Text(" ".into())),
            OrgEvent::Start(OrgElement::Link("/x".into())),
            OrgEvent::Start(OrgElement::Text("y".into())),
            OrgEvent::End(OrgElement::Link("/x".into())),
        ]
    );
}

#[test]
fn event_walk_matches_tree_walk() {
    let input = "x *b /i/ b* [[https://e.org][e]] note[fn::with *bold*] - no\n- item one\n- item two";
    let nodes = body_nodes(input);
    let events = inline_events(&nodes);
    let mut notes = Vec::new();
    let mut out = String::new();
    emit_events(&events, "/base", &mut Toc::new(), &mut notes, &mut out).unwrap();
    let (_, html) = emit_document(&parse_document(input).unwrap(), "/base").unwrap();
    let expected_body = format!("<p>{}</p>", out);
    assert!(html.starts_with(&expected_body), "{} vs {}", html, expected_body);
    assert_eq!(notes, vec!["with <b>bold</b>".to_string()]);
}

#[test]
fn event_walk_rejects_nested_footnote_and_open_footnote() {
    let events = vec![
        OrgEvent::Start(OrgElement::Footnote(None)),
        OrgEvent::Start(OrgElement::Footnote(None)),
    ];
    let mut notes = Vec::new();
    let mut out = String::new();
    assert_eq!(emit_events(&events, "", &mut Toc::new(), &mut notes, &mut out), Err(OrgError::Unsupported));
    let events = vec![OrgEvent::Start(OrgElement::Footnote(None))];
    assert_eq!(emit_events(&events, "", &mut Toc::new(), &mut notes, &mut out), Err(OrgError::Unsupported));
}

#[test]
fn event_walk_numbers_footnotes_after_given_ones() {
    let events = vec![
        OrgEvent::Start(OrgElement::Footnote(None)),
        OrgEvent::Start(OrgElement::Text("n".into())),
        OrgEvent::End(OrgElement::Footnote(None)),
    ];
    let mut notes = vec!["earlier".to_string()];
    let mut out = String::new();
    emit_events(&events, "", &mut Toc::new(), &mut notes, &mut out).unwrap();
    assert_eq!(out, "<sup><a href=\"#fn2\" id=\"fns2\">2</a></sup>");
    assert_eq!(notes, vec!["earlier".to_string(), "n".to_string()]);
}

#[test]
fn document_events_render_like_the_tree() {
    let inputs = [
        "* Title *bold*\nbody [[/x][y]] and[fn::note]\n** Sub\n- a\n- b",
        "#+TITLE: t\n# c\nplain\nlines",
        "* A\n* A\n* A",
        "",
    ];
    for input in inputs.iter() {
        let document = parse_document(input).unwrap();
        let (toc1, h1) = emit_document(&document, "/b").unwrap();
        let (toc2, h2) = emit_document_events(&document, "/b").unwrap();
        assert_eq!(h1, h2);
        let s1: Vec<&str> = toc1.sections().iter().map(|s| s.shortcut()).collect();
        let s2: Vec<&str> = toc2.sections().iter().map(|s| s.shortcut()).collect();
        assert_eq!(s1, s2);
    }
}

#[test]
fn heading_events_carry_level_and_plain_title() {
    let document = parse_document("** Hi *there*").unwrap();
    let events = document_events(&document);
    assert_eq!(events[0], OrgEvent::Start(OrgElement::Heading(2, "Hi there".into())));
    assert_eq!(events[events.len() - 1], OrgEvent::End(OrgElement::Heading(2, "Hi there".into())));
}

#[test]
fn heading_inside_footnote_is_refused() {
    let events = vec![
        OrgEvent::Start(OrgElement::Footnote(None)),
        OrgEvent::Start(OrgElement::Heading(1, "x".into())),
    ];
    let mut notes = Vec::new();
    let mut out = String::new();
    assert_eq!(emit_events(&events, "", &mut Toc::new(), &mut notes, &mut out), Err(OrgError::Unsupported));
}

#[test]
fn rendering_an_event_stream_as_a_document() {
    let events = vec![
        OrgEvent::Start(OrgElement::Heading(9, "Top".into())),
        OrgEvent::Start(OrgElement::Text("Top".into())),
        OrgEvent::End(OrgElement::Heading(9, "Top".into())),
        OrgEvent::Start(OrgElement::Paragraph),
        OrgEvent::Start(OrgElement::Text("x".into())),
        OrgEvent::Start(OrgElement::Footnote(None)),
        OrgEvent::Start(OrgElement::Text("n".into())),
        OrgEvent::End(OrgElement::Footnote(None)),
        OrgEvent::End(OrgElement::Paragraph),
    ];
    let (toc, html) = render_events(&events, "").unwrap();
    assert_eq!(
        html,
        "<h6 id=\"top\"><a href=\"#top\">Top</a></h6><p>x<sup><a href=\"#fn1\" id=\"fns1\">1</a></sup></p>\
<hr><section id=footnotes><h2>Footnotes</h2><ol><li id=fn1><p>n <a href=#fns1>\u{21b5}</a></p></li></ol></section>"
    );
    assert_eq!(toc.sections().len(), 1);
}

fn render(events: Vec<OrgEvent>) -> Result<String, OrgError> {
    render_events(&events, "").map(|(_, html)| html)
}

#[test]
fn ordered_and_bullet_lists() {
    let html = render(vec![
        OrgEvent::Start(OrgElement::List(true)),
        OrgEvent::Start(OrgElement::ListItem),
        OrgEvent::Start(OrgElement::Text("a".into())),
        OrgEvent::End(OrgElement::ListItem),
        OrgEvent::End(OrgElement::List(true)),
        OrgEvent::Start(OrgElement::List(false)),
        OrgEvent::End(OrgElement::List(false)),
    ])
    .unwrap();
    assert_eq!(html, "<ol><li>a</li></ol><ul></ul>");
}

#[test]
fn rule_and_export_blocks() {
    let html = render(vec![
        OrgEvent::Start(OrgElement::Rule),
        OrgEvent::End(OrgElement::Rule),
        OrgEvent::Start(OrgElement::ExportBlock { data: "HTML".into(), contents: "<b>raw</b>".into() }),
        OrgEvent::End(OrgElement::ExportBlock { data: "HTML".into(), contents: "<b>raw</b>".into() }),
        OrgEvent::Start(OrgElement::ExportBlock { data: "latex".into(), contents: "\\x".into() }),
    ])
    .unwrap();
    assert_eq!(html, "<hr><b>raw</b>");
}

#[test]
fn source_blocks() {
    assert_eq!(
        source_block_html(&"".to_string(), &"a < b".to_string(), &None).unwrap(),
        "<pre class=code>a &lt; b</pre>"
    );
    assert_eq!(
        source_block_html(&"rust".to_string(), &"x".to_string(), &Some(Highlighted::Html("<span>x</span>".into()))).unwrap(),
        "<pre class=code><span>x</span></pre>"
    );
    assert_eq!(
        source_block_html(&"nolang".to_string(), &"x".to_string(), &Some(Highlighted::UnknownSyntax)),
        Err(OrgError::UnknownSyntax("nolang".into()))
    );
    assert_eq!(
        source_block_html(&"rust".to_string(), &"x".to_string(), &Some(Highlighted::UnknownTheme("dark".into()))),
        Err(OrgError::UnknownSyntaxTheme("dark".into()))
    );
    let err = render(vec![OrgEvent::Start(OrgElement::SourceBlock {
        language: "nolang".into(),
        contents: "x".into(),
        highlighted: Some(Highlighted::UnknownSyntax),
    })]);
    assert_eq!(err, Err(OrgError::UnknownSyntax("nolang".into())));
}

#[test]
fn walk_reports_slug_exhaustion() {
    let mut events = Vec::new();
    for _ in 0..101 {
        events.push(OrgEvent::Start(OrgElement::Heading(1, "x".into())));
        events.push(OrgEvent::End(OrgElement::Heading(1, "x".into())));
    }
    assert_eq!(render(events), Err(OrgError::SlugExhausted));
}
