use mdprep::footnote::{append_relocated, mention, rank, FootnoteDefinition};
use mdprep::frontmatter::PreprocessError;
use mdprep::preprocess::{preprocess, HighlightRequest, Outcome, Preprocessor};
use mdprep::text::to_plain_text;
use mdprep::token::{CodeBlockKind, HeadingLevel, MetadataBlockKind, Tag, TagEnd, Token};

fn text(s: &str) -> Token {
    Token::Text(s.to_string())
}

fn heading(level: HeadingLevel) -> Token {
    Token::Start(Tag::Heading { level, id: None, classes: Vec::new(), attrs: Vec::new() })
}

fn heading_end(level: HeadingLevel) -> Token {
    Token::End(TagEnd::Heading(level))
}

fn reference(label: &str) -> Token {
    Token::FootnoteReference(label.to_string())
}

fn definition(label: &str, body: &str) -> Vec<Token> {
    vec![
        Token::Start(Tag::FootnoteDefinition(label.to_string())),
        Token::Start(Tag::Paragraph),
        text(body),
        Token::End(TagEnd::Paragraph),
        Token::End(TagEnd::FootnoteDefinition),
    ]
}

fn paragraph(tokens: Vec<Token>) -> Vec<Token> {
    let mut out = vec![Token::Start(Tag::Paragraph)];
    out.extend(tokens);
    out.push(Token::End(TagEnd::Paragraph));
    out
}

fn frontmatter(content: &str) -> Vec<Token> {
    vec![
        Token::Start(Tag::MetadataBlock(MetadataBlockKind::PlusesStyle)),
        text(content),
        Token::End(TagEnd::MetadataBlock(MetadataBlockKind::PlusesStyle)),
    ]
}

fn fenced(tag: &str, lines: &[&str]) -> Vec<Token> {
    let mut out = vec![Token::Start(Tag::CodeBlock(CodeBlockKind::Fenced(tag.to_string())))];
    for line in lines {
        out.push(text(line));
    }
    out.push(Token::End(TagEnd::CodeBlock));
    out
}

fn html_block(html: &str) -> Vec<Token> {
    vec![
        Token::Start(Tag::HtmlBlock),
        Token::Html(html.to_string()),
        Token::End(TagEnd::HtmlBlock),
    ]
}

fn concat(parts: Vec<Vec<Token>>) -> Vec<Token> {
    parts.into_iter().flatten().collect()
}

#[test]
fn plain_document_comes_out_unchanged() {
    let input = concat(vec![
        vec![heading(HeadingLevel::H2), text("Section"), heading_end(HeadingLevel::H2)],
        paragraph(vec![text("Some "), Token::Code("code".to_string()), Token::SoftBreak]),
        fenced("rust", &["fn main() {}\n"]),
        vec![Token::Rule, Token::TaskListMarker(true)],
    ]);
    let expected = input.clone();
    let document = preprocess(input).unwrap();
    assert_eq!(document.events, expected);
    assert_eq!(document.title_events, None);
    assert!(!document.has_math);
    assert!(!document.has_highlighted_code);
    assert_eq!(document.metadata, None);
}

#[test]
fn empty_document() {
    let document = preprocess(Vec::new()).unwrap();
    assert_eq!(document.events, Vec::new());
    assert_eq!(document.title_events, None);
    assert!(!document.has_math);
}

#[test]
fn title_is_the_content_of_the_first_top_level_heading() {
    let input = concat(vec![
        vec![
            heading(HeadingLevel::H1),
            text("Real "),
            Token::Start(Tag::Emphasis),
            text("Title"),
            Token::End(TagEnd::Emphasis),
            heading_end(HeadingLevel::H1),
        ],
        paragraph(vec![text("Body")]),
    ]);
    let expected = input.clone();
    let document = preprocess(input).unwrap();
    let title = document.title_events.unwrap();
    assert_eq!(
        title,
        vec![
            text("Real "),
            Token::Start(Tag::Emphasis),
            text("Title"),
            Token::End(TagEnd::Emphasis)
        ]
    );
    assert_eq!(to_plain_text(&title), "Real Title");
    assert_eq!(document.events, expected);
}

#[test]
fn second_top_level_heading_is_no_title() {
    let input = vec![
        heading(HeadingLevel::H1),
        text("First"),
        heading_end(HeadingLevel::H1),
        heading(HeadingLevel::H1),
        text("Second"),
        heading_end(HeadingLevel::H1),
    ];
    let expected = input.clone();
    let document = preprocess(input).unwrap();
    assert_eq!(document.title_events, Some(vec![text("First")]));
    assert_eq!(document.events, expected);
}

#[test]
fn lower_heading_before_the_title_does_not_count() {
    let input = vec![
        heading(HeadingLevel::H2),
        text("Intro"),
        heading_end(HeadingLevel::H2),
        heading(HeadingLevel::H1),
        text("Title"),
        heading_end(HeadingLevel::H1),
    ];
    let document = preprocess(input).unwrap();
    assert_eq!(document.title_events, Some(vec![text("Title")]));
}

#[test]
fn document_without_top_level_heading_has_no_title() {
    let input = vec![heading(HeadingLevel::H3), text("Small"), heading_end(HeadingLevel::H3)];
    let document = preprocess(input).unwrap();
    assert_eq!(document.title_events, None);
}

#[test]
fn heading_inside_a_footnote_is_no_title() {
    let input = vec![
        Token::Start(Tag::FootnoteDefinition("n".to_string())),
        heading(HeadingLevel::H1),
        text("Inner"),
        heading_end(HeadingLevel::H1),
        Token::End(TagEnd::FootnoteDefinition),
    ];
    let expected = input.clone();
    let document = preprocess(input).unwrap();
    assert_eq!(document.title_events, None);
    assert_eq!(document.events, expected);
}

#[test]
fn footnotes_follow_the_order_of_first_reference() {
    let input = concat(vec![
        definition("a", "first in source"),
        paragraph(vec![text("x"), reference("b"), text("y"), reference("a")]),
        definition("b", "second in source"),
    ]);
    let document = preprocess(input).unwrap();
    let expected = concat(vec![
        paragraph(vec![text("x"), reference("b"), text("y"), reference("a")]),
        definition("a", "first in source"),
        definition("b", "second in source"),
    ]);
    assert_eq!(document.events, expected);
}

#[test]
fn out_of_order_footnotes() {
    let input = concat(vec![
        paragraph(vec![text("see"), reference("b"), text("and"), reference("a")]),
        definition("a", "note a"),
        definition("b", "note b"),
    ]);
    let document = preprocess(input).unwrap();
    let expected = concat(vec![
        paragraph(vec![text("see"), reference("b"), text("and"), reference("a")]),
        definition("b", "note b"),
        definition("a", "note a"),
    ]);
    assert_eq!(document.events, expected);
}

#[test]
fn footnote_definitions_move_to_the_end() {
    let input = concat(vec![
        paragraph(vec![text("one"), reference("n")]),
        definition("n", "the note"),
        paragraph(vec![text("two")]),
    ]);
    let document = preprocess(input).unwrap();
    let expected = concat(vec![
        paragraph(vec![text("one"), reference("n")]),
        paragraph(vec![text("two")]),
        definition("n", "the note"),
    ]);
    assert_eq!(document.events, expected);
}

#[test]
fn unreferenced_definition_is_ranked_by_its_own_start() {
    let input = concat(vec![
        definition("x", "nobody refers to me"),
        paragraph(vec![reference("a")]),
        definition("a", "referred to"),
        definition("y", "nor to me"),
    ]);
    let document = preprocess(input).unwrap();
    let expected = concat(vec![
        paragraph(vec![reference("a")]),
        definition("x", "nobody refers to me"),
        definition("a", "referred to"),
        definition("y", "nor to me"),
    ]);
    assert_eq!(document.events, expected);
}

#[test]
fn unreferenced_definitions_come_last_when_mentioned_last() {
    let input = concat(vec![
        paragraph(vec![reference("b"), reference("a")]),
        definition("u", "unreferenced one"),
        definition("a", "note a"),
        definition("v", "unreferenced two"),
        definition("b", "note b"),
    ]);
    let document = preprocess(input).unwrap();
    let expected = concat(vec![
        paragraph(vec![reference("b"), reference("a")]),
        definition("b", "note b"),
        definition("a", "note a"),
        definition("u", "unreferenced one"),
        definition("v", "unreferenced two"),
    ]);
    assert_eq!(document.events, expected);
}

#[test]
fn definitions_of_one_label_keep_their_order() {
    let input = concat(vec![
        definition("n", "first"),
        definition("m", "other"),
        definition("n", "second"),
    ]);
    let document = preprocess(input).unwrap();
    let expected = concat(vec![
        definition("n", "first"),
        definition("n", "second"),
        definition("m", "other"),
    ]);
    assert_eq!(document.events, expected);
}

#[test]
fn unfinished_footnote_is_dropped() {
    let input = vec![
        text("body"),
        Token::Start(Tag::FootnoteDefinition("n".to_string())),
        text("never closed"),
    ];
    let document = preprocess(input).unwrap();
    assert_eq!(document.events, vec![text("body")]);
}

#[test]
fn math_sets_the_flag() {
    let inline = preprocess(paragraph(vec![Token::InlineMath("x^2".to_string())])).unwrap();
    assert!(inline.has_math);
    let display = preprocess(paragraph(vec![Token::DisplayMath("x^2".to_string())])).unwrap();
    assert!(display.has_math);
    let none = preprocess(paragraph(vec![text("$x^2$")])).unwrap();
    assert!(!none.has_math);
}

#[test]
fn math_inside_a_capture_sets_the_flag() {
    let in_footnote = vec![
        Token::Start(Tag::FootnoteDefinition("n".to_string())),
        Token::InlineMath("a+b".to_string()),
        Token::End(TagEnd::FootnoteDefinition),
    ];
    assert!(preprocess(in_footnote).unwrap().has_math);
    let in_title = vec![
        heading(HeadingLevel::H1),
        Token::DisplayMath("a+b".to_string()),
        heading_end(HeadingLevel::H1),
    ];
    assert!(preprocess(in_title).unwrap().has_math);
    let in_frontmatter = vec![
        Token::Start(Tag::MetadataBlock(MetadataBlockKind::PlusesStyle)),
        Token::InlineMath("a+b".to_string()),
        Token::End(TagEnd::MetadataBlock(MetadataBlockKind::PlusesStyle)),
    ];
    assert!(preprocess(in_frontmatter).unwrap().has_math);
}

#[test]
fn frontmatter_round_trip() {
    let input = concat(vec![
        frontmatter("title = \"Ignored\"\ncount = 3\n"),
        vec![heading(HeadingLevel::H1), text("Real Title"), heading_end(HeadingLevel::H1)],
        paragraph(vec![text("Body")]),
    ]);
    let document = preprocess(input).unwrap();
    let mut expected = serde_json::Map::new();
    expected.insert("title".to_string(), serde_json::Value::from("Ignored"));
    expected.insert("count".to_string(), serde_json::Value::from(3));
    assert_eq!(document.metadata, Some(serde_json::Value::Object(expected)));
    assert_eq!(to_plain_text(&document.title_events.unwrap()), "Real Title");
    let body = concat(vec![
        vec![heading(HeadingLevel::H1), text("Real Title"), heading_end(HeadingLevel::H1)],
        paragraph(vec![text("Body")]),
    ]);
    assert_eq!(document.events, body);
}

#[test]
fn frontmatter_text_is_collected_piecewise() {
    let input = vec![
        Token::Start(Tag::MetadataBlock(MetadataBlockKind::PlusesStyle)),
        text("a = 1\n"),
        text("b = [true, \"x\"]\n"),
        Token::End(TagEnd::MetadataBlock(MetadataBlockKind::PlusesStyle)),
    ];
    let document = preprocess(input).unwrap();
    let mut expected = serde_json::Map::new();
    expected.insert("a".to_string(), serde_json::Value::from(1));
    expected.insert(
        "b".to_string(),
        serde_json::Value::Array(vec![serde_json::Value::from(true), serde_json::Value::from("x")]),
    );
    assert_eq!(document.metadata, Some(serde_json::Value::Object(expected)));
    assert_eq!(document.events, Vec::new());
}

#[test]
fn malformed_frontmatter_aborts_the_pass() {
    let input = concat(vec![frontmatter("title = = nonsense"), paragraph(vec![text("Body")])]);
    let error = preprocess(input).unwrap_err();
    assert!(matches!(error, PreprocessError::Frontmatter(_)));
    assert_eq!(error.context(), "failed to parse frontmatter");
}

#[test]
fn yaml_style_metadata_passes_through() {
    let input = vec![
        Token::Start(Tag::MetadataBlock(MetadataBlockKind::YamlStyle)),
        text("title: x"),
        Token::End(TagEnd::MetadataBlock(MetadataBlockKind::YamlStyle)),
    ];
    let expected = input.clone();
    let document = preprocess(input).unwrap();
    assert_eq!(document.events, expected);
    assert_eq!(document.metadata, None);
}

#[test]
fn unexpected_token_in_frontmatter_is_reported_and_dropped() {
    let mut pass = Preprocessor::new(false);
    assert_eq!(
        pass.feed(Token::Start(Tag::MetadataBlock(MetadataBlockKind::PlusesStyle))),
        Ok(Outcome::Continue)
    );
    assert_eq!(pass.feed(text("a = 1\n")), Ok(Outcome::Continue));
    assert_eq!(pass.feed(Token::SoftBreak), Ok(Outcome::UnexpectedInFrontmatter(Token::SoftBreak)));
    assert_eq!(
        pass.feed(Token::End(TagEnd::MetadataBlock(MetadataBlockKind::YamlStyle))),
        Ok(Outcome::UnexpectedInFrontmatter(Token::End(TagEnd::MetadataBlock(
            MetadataBlockKind::YamlStyle
        ))))
    );
    assert_eq!(
        pass.feed(Token::End(TagEnd::MetadataBlock(MetadataBlockKind::PlusesStyle))),
        Ok(Outcome::Continue)
    );
    let document = pass.finish();
    let mut expected = serde_json::Map::new();
    expected.insert("a".to_string(), serde_json::Value::from(1));
    assert_eq!(document.metadata, Some(serde_json::Value::Object(expected)));
    assert_eq!(document.events, Vec::new());
}

#[test]
fn store_frontmatter_takes_either_outcome() {
    let mut pass = Preprocessor::new(false);
    let value = serde_json::Value::from("kept");
    assert_eq!(pass.store_frontmatter(Ok(value.clone())), Ok(Outcome::Continue));
    let cause = toml::from_str::<serde_json::Value>("= broken").unwrap_err();
    assert_eq!(
        pass.store_frontmatter(Err(cause.clone())),
        Err(PreprocessError::Frontmatter(cause))
    );
    assert_eq!(pass.finish().metadata, Some(value));
}

#[test]
fn highlight_substitution() {
    let mut pass = Preprocessor::new(true);
    let mut request = None;
    for token in fenced("rust", &["fn main() {}"]) {
        match pass.feed(token).unwrap() {
            Outcome::Continue => {}
            Outcome::Highlight(r) => request = Some(r),
            other => panic!("unexpected outcome {:?}", other),
        }
    }
    let request = request.unwrap();
    assert_eq!(
        request,
        HighlightRequest { tag: "rust".to_string(), code: "fn main() {}".to_string() }
    );
    pass.highlighted(request.code);
    let document = pass.finish();
    assert_eq!(document.events, html_block("fn main() {}"));
    assert!(document.has_highlighted_code);
}

#[test]
fn code_is_collected_across_text_tokens() {
    let mut pass = Preprocessor::new(true);
    assert_eq!(pass.feed(text("before")), Ok(Outcome::Continue));
    let mut outcomes = Vec::new();
    for token in fenced("py", &["a = 1\n", "b = 2\n"]) {
        outcomes.push(pass.feed(token).unwrap());
    }
    assert_eq!(
        outcomes.pop(),
        Some(Outcome::Highlight(HighlightRequest {
            tag: "py".to_string(),
            code: "a = 1\nb = 2\n".to_string()
        }))
    );
    pass.highlighted("<pre>ab</pre>".to_string());
    assert_eq!(pass.feed(text("after")), Ok(Outcome::Continue));
    let document = pass.finish();
    let expected = concat(vec![vec![text("before")], html_block("<pre>ab</pre>"), vec![text("after")]]);
    assert_eq!(document.events, expected);
}

#[test]
fn unexpected_token_in_code_block_is_reported_and_dropped() {
    let mut pass = Preprocessor::new(true);
    pass.feed(Token::Start(Tag::CodeBlock(CodeBlockKind::Fenced("c".to_string())))).unwrap();
    assert_eq!(pass.feed(Token::HardBreak), Ok(Outcome::UnexpectedInCodeBlock(Token::HardBreak)));
    assert_eq!(pass.feed(text("int x;")), Ok(Outcome::Continue));
    assert_eq!(
        pass.feed(Token::End(TagEnd::CodeBlock)),
        Ok(Outcome::Highlight(HighlightRequest {
            tag: "c".to_string(),
            code: "int x;".to_string()
        }))
    );
}

#[test]
fn untagged_and_indented_code_is_not_highlighted() {
    let input = concat(vec![
        fenced("", &["plain\n"]),
        vec![
            Token::Start(Tag::CodeBlock(CodeBlockKind::Indented)),
            text("indented\n"),
            Token::End(TagEnd::CodeBlock),
        ],
    ]);
    let mut pass = Preprocessor::new(true);
    for token in input.clone() {
        assert_eq!(pass.feed(token), Ok(Outcome::Continue));
    }
    let document = pass.finish();
    assert_eq!(document.events, input);
    assert!(!document.has_highlighted_code);
}

#[test]
fn code_inside_a_footnote_is_not_highlighted() {
    let mut input = vec![Token::Start(Tag::FootnoteDefinition("n".to_string()))];
    input.extend(fenced("rust", &["let x;"]));
    input.push(Token::End(TagEnd::FootnoteDefinition));
    let mut pass = Preprocessor::new(true);
    for token in input.clone() {
        assert_eq!(pass.feed(token), Ok(Outcome::Continue));
    }
    assert_eq!(pass.finish().events, input);
}

#[test]
fn registry_ranks_by_first_mention() {
    let mut labels = Vec::new();
    mention(&mut labels, &"b".to_string());
    mention(&mut labels, &"a".to_string());
    mention(&mut labels, &"b".to_string());
    assert_eq!(labels, vec!["b".to_string(), "a".to_string()]);
    assert_eq!(rank(&labels, &"b".to_string()), 0);
    assert_eq!(rank(&labels, &"a".to_string()), 1);
    assert_eq!(rank(&labels, &"missing".to_string()), 2);
}

#[test]
fn relocation_is_a_stable_sort_by_rank() {
    let labels = vec!["x".to_string(), "y".to_string()];
    let definitions = vec![
        FootnoteDefinition { label: "y".to_string(), tokens: vec![text("y1")] },
        FootnoteDefinition { label: "z".to_string(), tokens: vec![text("z1")] },
        FootnoteDefinition { label: "x".to_string(), tokens: vec![text("x1"), text("x2")] },
        FootnoteDefinition { label: "y".to_string(), tokens: vec![text("y2")] },
    ];
    let mut events = vec![text("body")];
    append_relocated(&mut events, &labels, definitions);
    assert_eq!(
        events,
        vec![text("body"), text("x1"), text("x2"), text("y1"), text("y2"), text("z1")]
    );
}

#[test]
fn plain_text_keeps_text_tokens_only() {
    let tokens = vec![
        text("a"),
        Token::Code("code".to_string()),
        Token::Start(Tag::Strong),
        text("b"),
        Token::End(TagEnd::Strong),
        Token::InlineMath("m".to_string()),
        text(""),
        text("c d"),
    ];
    assert_eq!(to_plain_text(&tokens), "abc d");
    assert_eq!(to_plain_text(&Vec::new()), "");
}

#[test]
fn clone_gives_an_equal_token() {
    let token = Token::Start(Tag::Heading {
        level: HeadingLevel::H2,
        id: Some("id".to_string()),
        classes: vec!["c1".to_string(), "c2".to_string()],
        attrs: vec![("k".to_string(), Some("v".to_string())), ("flag".to_string(), None)],
    });
    assert_eq!(token.clone(), token);
    let table = Token::Start(Tag::Table(vec![
        mdprep::token::Alignment::Left,
        mdprep::token::Alignment::Unset,
    ]));
    assert_eq!(table.clone(), table);
    let link = Token::Start(Tag::Link {
        link_type: mdprep::token::LinkType::Inline,
        dest_url: "u".to_string(),
        title: "t".to_string(),
        id: "i".to_string(),
    });
    assert_eq!(link.clone(), link);
}
