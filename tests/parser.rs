use nuko::ast::{OrgContent, OrgDocument, OrgHeadline, OrgKeyword, OrgListEntry, OrgListType, OrgListValue, OrgSection, OrgSectionContent};
use nuko::parser::{parse_document, Parser, ParserError};

fn parse(input: &str) -> Result<OrgDocument, ParserError> {
    Parser::new(input).parse()
}

fn text(s: &str) -> OrgSectionContent {
    OrgSectionContent::Text(s.into())
}

#[test]
fn comment() {
    let document = parse("# test\nhello").expect("comment test");

    assert_eq!(
        document.content,
        vec![
            OrgContent::Comment("test".into()),
            OrgContent::Section(OrgSection {
                children: vec![OrgSectionContent::Text("hello".into())],
                ..Default::default()
            })
        ]
    )
}

#[test]
fn emphasis() {
    let document = parse("hello *there* /nice +day+ today/").expect("emphasis test");

    assert_eq!(
        document.content,
        vec![OrgContent::Section(OrgSection {
            headline: None,
            children: vec![
                OrgSectionContent::Text("hello ".into()),
                OrgSectionContent::Bold(vec![OrgSectionContent::Text("there".into())]),
                OrgSectionContent::Text(" ".into()),
                OrgSectionContent::Italic(vec![
                    OrgSectionContent::Text("nice ".into()),
                    OrgSectionContent::Strikethrough(vec![OrgSectionContent::Text("day".into())]),
                    OrgSectionContent::Text(" today".into()),
                ])
            ],
        })]
    );
}

#[test]
fn headline() {
    let document = parse("* test\nhello").expect("headline test");

    assert_eq!(
        document.content,
        vec![OrgContent::Section(OrgSection {
            headline: Some(OrgHeadline {
                level: 1,
                content: vec![OrgSectionContent::Text("test".into())],
                ..OrgHeadline::default()
            }),
            children: vec![OrgSectionContent::Text("hello".into())],
        })]
    );

    let document = parse("* TODO test\nhello").expect("headline test");

    assert_eq!(
        document.content,
        vec![OrgContent::Section(OrgSection {
            headline: Some(OrgHeadline {
                level: 1,
                keyword: Some("TODO".into()),
                content: vec![OrgSectionContent::Text("test".into())],
            }),
            children: vec![OrgSectionContent::Text("hello".into())],
        })]
    )
}

#[test]
fn keyword() {
    let document = parse("#+TITLE: test\nhello").expect("keyword test");

    assert_eq!(
        document.content,
        vec![
            OrgContent::Keyword(OrgKeyword { key: "TITLE".into(), value: "test".into() }),
            OrgContent::Section(OrgSection {
                children: vec![OrgSectionContent::Text("hello".into())],
                ..Default::default()
            })
        ]
    )
}

#[test]
fn links() {
    let document = parse("[[https://example.com][example]]").expect("links test");

    assert_eq!(
        document.content,
        vec![OrgContent::Section(OrgSection {
            headline: None,
            children: vec![OrgSectionContent::Link {
                link: "https://example.com".into(),
                label: vec![OrgSectionContent::Text("example".into())]
            }]
        })]
    )
}

#[test]
fn newline() {
    let document = parse("** test\nhello\nthere").expect("newline test");

    assert_eq!(
        document.content,
        vec![OrgContent::Section(OrgSection {
            headline: Some(OrgHeadline {
                level: 2,
                content: vec![OrgSectionContent::Text("test".into())],
                ..OrgHeadline::default()
            }),
            children: vec![
                OrgSectionContent::Text("hello".into()),
                OrgSectionContent::Newline,
                OrgSectionContent::Text("there".into())
            ],
        })]
    )
}

#[test]
fn empty_input_gives_empty_document() {
    let document = parse_document("").expect("empty");
    assert_eq!(document.content, vec![]);
}

#[test]
fn headline_alone_becomes_a_section() {
    let document = parse_document("* only").expect("alone");
    assert_eq!(
        document.content,
        vec![OrgContent::Section(OrgSection {
            headline: Some(OrgHeadline { level: 1, keyword: None, content: vec![text("only")] }),
            children: vec![],
        })]
    );
}

#[test]
fn two_headlines_in_a_row() {
    let document = parse_document("* a\n** DONE b\nbody").expect("two");
    assert_eq!(
        document.content,
        vec![
            OrgContent::Section(OrgSection {
                headline: Some(OrgHeadline { level: 1, keyword: None, content: vec![text("a")] }),
                children: vec![],
            }),
            OrgContent::Section(OrgSection {
                headline: Some(OrgHeadline { level: 2, keyword: Some("DONE".into()), content: vec![text("b")] }),
                children: vec![text("body")],
            }),
        ]
    );
}

#[test]
fn stars_without_space_are_text() {
    let document = parse_document("**bold**").expect("stars");
    assert_eq!(
        document.content,
        vec![OrgContent::Section(OrgSection { headline: None, children: vec![text("**bold**")] })]
    );
}

#[test]
fn comment_at_end_of_input() {
    let document = parse_document("# last").expect("comment");
    assert_eq!(document.content, vec![OrgContent::Comment("last".into())]);
}

#[test]
fn keyword_without_value_is_body_text() {
    let document = parse_document("#+BEGIN_QUOTE").expect("not keyword");
    assert_eq!(
        document.content,
        vec![OrgContent::Section(OrgSection { headline: None, children: vec![text("#+BEGIN_QUOTE")] })]
    );
}

#[test]
fn list_lines_merge_into_one_list() {
    let document = parse_document("intro\n- one\n- two").expect("list");
    assert_eq!(
        document.content,
        vec![OrgContent::Section(OrgSection {
            headline: None,
            children: vec![
                text("intro"),
                OrgSectionContent::List(OrgListEntry {
                    ty: OrgListType::Bullet,
                    values: vec![
                        OrgListValue::Content(vec![text("one")]),
                        OrgListValue::Content(vec![text("two")]),
                    ],
                }),
            ],
        })]
    );
}

#[test]
fn footnote_is_parsed_with_and_without_name() {
    let document = parse_document("see [fn::a note] and [fn:x:named]").expect("fn");
    assert_eq!(
        document.content,
        vec![OrgContent::Section(OrgSection {
            headline: None,
            children: vec![
                text("see "),
                OrgSectionContent::Footnote { name: None, content: vec![text("a note")] },
                text(" and "),
                OrgSectionContent::Footnote { name: Some("x".into()), content: vec![text("named")] },
            ],
        })]
    );
}

#[test]
fn link_before_emphasis_wins() {
    let document = parse_document("[[/a][b]] *c*").expect("tie");
    assert_eq!(
        document.content,
        vec![OrgContent::Section(OrgSection {
            headline: None,
            children: vec![
                OrgSectionContent::Link { link: "/a".into(), label: vec![text("b")] },
                text(" "),
                OrgSectionContent::Bold(vec![text("c")]),
            ],
        })]
    );
}

#[test]
fn emphasis_kinds() {
    let document = parse_document("_u_ =v= ~c~").expect("kinds");
    assert_eq!(
        document.content,
        vec![OrgContent::Section(OrgSection {
            headline: None,
            children: vec![
                OrgSectionContent::Underlined(vec![text("u")]),
                text(" "),
                OrgSectionContent::Verbatim(vec![text("v")]),
                text(" "),
                OrgSectionContent::Code(vec![text("c")]),
            ],
        })]
    );
}

#[test]
fn non_ascii_text_is_kept() {
    let document = parse_document("* Grüße\nnaïve *é*").expect("utf8");
    assert_eq!(
        document.content,
        vec![OrgContent::Section(OrgSection {
            headline: Some(OrgHeadline { level: 1, keyword: None, content: vec![text("Grüße")] }),
            children: vec![text("naïve "), OrgSectionContent::Bold(vec![text("é")])],
        })]
    );
}

#[test]
fn no_newline_before_a_list_after_blank_lines() {
    for input in ["a\n\n- b", "a\n\n\n- b", "a\n- b"].iter() {
        let document = parse_document(input).expect("list");
        assert_eq!(
            document.content,
            vec![OrgContent::Section(OrgSection {
                headline: None,
                children: vec![
                    text("a"),
                    OrgSectionContent::List(OrgListEntry {
                        ty: OrgListType::Bullet,
                        values: vec![OrgListValue::Content(vec![text("b")])],
                    }),
                ],
            })]
        );
    }
}

#[test]
fn no_newline_after_a_list() {
    let document = parse_document("- a\n\nb").expect("list");
    assert_eq!(
        document.content,
        vec![OrgContent::Section(OrgSection {
            headline: None,
            children: vec![
                OrgSectionContent::List(OrgListEntry {
                    ty: OrgListType::Bullet,
                    values: vec![OrgListValue::Content(vec![text("a")])],
                }),
                text("b"),
            ],
        })]
    );
}
