use markforge::ast::{parse_tokens, try_parse_tokens, Node, Parser};
use markforge::token::{lex_text, LexTok};

fn parse(markdown: &str) -> Vec<Node> {
    parse_tokens(lex_text(&markdown.to_string()))
}

fn text(s: &str) -> Node {
    Node::Text(s.to_string())
}

#[test]
fn code_block_preserves_special_characters() {
    let markdown = "```rust\nlet x = [1, 2];\nprintln!(\"{}\\n\", x[0]);\n```\n";
    let ast = parse_tokens(lex_text(&markdown.to_string()));

    assert_eq!(ast.len(), 1);
    if let Node::CodeBlock { language, content } = &ast[0] {
        assert_eq!(language.as_deref(), Some("rust"));
        assert!(content.contains("[1, 2]"));
        assert!(content.contains("println!(\"{}\\n\", x[0]);"));
    } else {
        panic!("Expected CodeBlock");
    }
}

#[test]
fn inline_code_preserves_brackets_and_parens() {
    let markdown = "Use `foo(bar)` and `[baz]` in code.";
    let ast = parse_tokens(lex_text(&markdown.to_string()));

    assert_eq!(ast.len(), 1);
    if let Node::Paragraph(children) = &ast[0] {
        let code_node = children.iter().find_map(|node| {
            if let Node::InlineCode(code) = node {
                Some(code)
            } else {
                None
            }
        });
        assert_eq!(code_node.map(|c| c.as_str()), Some("foo(bar)"));
    } else {
        panic!("Expected Paragraph");
    }
}

#[test]
fn raw_text_preserves_unhandled_punctuation() {
    let markdown = "This is > a line with [brackets] and (parentheses).";
    let ast = parse_tokens(lex_text(&markdown.to_string()));

    assert_eq!(ast.len(), 1);
    if let Node::Paragraph(children) = &ast[0] {
        let rendered: String = children
            .iter()
            .map(|node| match node {
                Node::Text(t) => t.clone(),
                _ => String::new(),
            })
            .collect();
        assert_eq!(rendered, "This is > a line with [brackets] and (parentheses).",);
    } else {
        panic!("Expected Paragraph");
    }
}

#[test]
fn heading_counts_its_markers() {
    let ast = parse("### Title\nbody");
    assert_eq!(
        ast,
        vec![
            Node::Heading { level: 3, content: vec![text(" Title")] },
            Node::Paragraph(vec![text("body")]),
        ]
    );
}

#[test]
fn headings_go_up_to_six_markers() {
    let ast = parse("###### six");
    assert_eq!(ast, vec![Node::Heading { level: 6, content: vec![text(" six")] }]);
    let ast = parse("####### a");
    let mut seven = vec![];
    for _ in 0..7 {
        seven.push(text("#"));
    }
    seven.push(text(" a"));
    assert_eq!(ast, vec![Node::Paragraph(seven)]);
}

#[test]
fn dashed_and_numbered_items_make_two_lists() {
    let ast = parse("- one\n2. two\n");
    assert_eq!(
        ast,
        vec![
            Node::UnorderedList(vec![vec![text(" one")]]),
            Node::OrderedList(vec![vec![text(" two")]]),
        ]
    );
}

#[test]
fn ordered_list_drops_its_markers() {
    let ast = parse("1. a\n2. b");
    assert_eq!(ast, vec![Node::OrderedList(vec![vec![text(" a")], vec![text(" b")]])]);
    let ast = parse("1.\n");
    assert_eq!(ast, vec![Node::OrderedList(vec![vec![]])]);
}

#[test]
fn number_without_marker_is_a_paragraph() {
    let ast = parse("2024 was good\n1.5 apples");
    assert_eq!(
        ast,
        vec![
            Node::Paragraph(vec![text("2024"), text(" was good")]),
            Node::Paragraph(vec![text("1"), text(".5 apples")]),
        ]
    );
}

#[test]
fn three_dashes_stars_or_underscores_make_a_rule() {
    let ast = parse("---\n***\n___\n- a\n----");
    assert_eq!(
        ast,
        vec![
            Node::HorizontalRule,
            Node::HorizontalRule,
            Node::HorizontalRule,
            Node::UnorderedList(vec![vec![text(" a")]]),
            Node::HorizontalRule,
        ]
    );
}

#[test]
fn image_with_alternative_text_and_address() {
    let ast = parse("![alt](u)");
    assert_eq!(
        ast,
        vec![Node::Paragraph(vec![Node::Image {
            alt: "alt".to_string(),
            url: "u".to_string(),
            title: None,
        }])]
    );
}

#[test]
fn incomplete_image_is_text() {
    assert_eq!(parse("wow!"), vec![Node::Paragraph(vec![text("wow!")])]);
    assert_eq!(parse("![a] b"), vec![Node::Paragraph(vec![text("!"), text("[a]"), text(" b")])]);
    assert_eq!(try_parse_tokens(lex_text(&"![a](b".to_string())), None);
}

#[test]
fn image_after_text_keeps_the_text_before_it() {
    let ast = parse("see ![a b](u.png) now");
    assert_eq!(
        ast,
        vec![Node::Paragraph(vec![
            text("see "),
            Node::Image { alt: "a b".to_string(), url: "u.png".to_string(), title: None },
            text(" now"),
        ])]
    );
}

#[test]
fn image_inside_link_text() {
    let ast = parse("[x ![i](p)](q)");
    assert_eq!(
        ast,
        vec![Node::Paragraph(vec![Node::Link {
            text: vec![
                text("x "),
                Node::Image { alt: "i".to_string(), url: "p".to_string(), title: None },
            ],
            url: "q".to_string(),
            title: None,
        }])]
    );
}

#[test]
fn exclamation_mark_is_text() {
    assert_eq!(parse("a!b"), vec![Node::Paragraph(vec![text("a!b")])]);
}

#[test]
fn emphasis_inside_strong_and_tilde_inside_strikethrough() {
    let ast = parse("**a *b* c** ~~d~e~~");
    assert_eq!(
        ast,
        vec![Node::Paragraph(vec![
            Node::Strong(vec![text("a "), Node::Emphasis(vec![text("b")]), text(" c")]),
            text(" "),
            Node::Strikethrough(vec![text("d"), text("~"), text("e")]),
        ])]
    );
}

#[test]
fn strong_closed_by_one_star_has_no_parse() {
    for source in ["**a*bc* d*", "**a*", "~~a~"] {
        assert_eq!(try_parse_tokens(lex_text(&source.to_string())), None, "{}", source);
    }
}

#[test]
fn new_parser_parses_as_parse_tokens() {
    let source = "# t
- a
1. b
> c
";
    let mut parser = Parser::new(lex_text(&source.to_string()));
    assert_eq!(parser.parse(), parse(source));
}

#[test]
fn pipe_table_parses_to_table() {
    let ast = parse("|a|\n|-|\n|1|");
    assert_eq!(
        ast,
        vec![Node::Table { headers: vec![vec![text("a")]], rows: vec![vec![vec![text("1")]]] }]
    );
}

#[test]
fn wider_table_with_aligned_separator() {
    let ast = parse("| x | *y* |\n|:---|---:|\n| 1 | 2\n\nafter");
    assert_eq!(
        ast,
        vec![
            Node::Table {
                headers: vec![vec![text(" x ")], vec![text(" "), Node::Emphasis(vec![text("y")]), text(" ")]],
                rows: vec![vec![vec![text(" 1 ")], vec![text(" 2")]]],
            },
            Node::Paragraph(vec![text("after")]),
        ]
    );
}

#[test]
fn pipe_line_without_separator_is_a_paragraph() {
    let ast = parse("|a|\nb");
    assert_eq!(
        ast,
        vec![
            Node::Paragraph(vec![text("|"), text("a"), text("|")]),
            Node::Paragraph(vec![text("b")]),
        ]
    );
}

#[test]
fn nodes_clone_to_equal_nodes() {
    let ast = parse("# a\n- *b*\n|x|\n|-|\n|1|\n```rs\nc\n```");
    let copy: Vec<Node> = ast.iter().map(|n| n.clone()).collect();
    assert_eq!(copy, ast);
}

#[test]
fn blockquote_holds_its_line() {
    let ast = parse("> quoted\n\nnext");
    assert_eq!(
        ast,
        vec![
            Node::BlockQuote(vec![text(" quoted")]),
            Node::Paragraph(vec![text("next")]),
        ]
    );
}

#[test]
fn strong_emphasis_and_strikethrough() {
    let ast = parse("**b** *i* ~~s~~ ~x");
    assert_eq!(
        ast,
        vec![Node::Paragraph(vec![
            Node::Strong(vec![text("b")]),
            text(" "),
            Node::Emphasis(vec![text("i")]),
            text(" "),
            Node::Strikethrough(vec![text("s")]),
            text(" "),
            text("~"),
            text("x"),
        ])]
    );
}

#[test]
fn link_with_address() {
    let ast = parse("[Rust](https://www.rust-lang.org/)");
    assert_eq!(
        ast,
        vec![Node::Paragraph(vec![Node::Link {
            text: vec![text("Rust")],
            url: "https://www.rust-lang.org/".to_string(),
            title: None,
        }])]
    );
}

#[test]
fn link_address_is_the_source_between_parentheses() {
    let ast = parse("[a](x_y#z)");
    assert_eq!(
        ast,
        vec![Node::Paragraph(vec![Node::Link {
            text: vec![text("a")],
            url: "x_y#z".to_string(),
            title: None,
        }])]
    );
}

#[test]
fn newline_inside_a_paragraph_ends_it() {
    let ast = parse("a\nb");
    assert_eq!(
        ast,
        vec![Node::Paragraph(vec![text("a")]), Node::Paragraph(vec![text("b")])]
    );
}

#[test]
fn soft_break_inside_emphasis() {
    let ast = parse("*a\nb*");
    assert_eq!(
        ast,
        vec![Node::Paragraph(vec![Node::Emphasis(vec![
            text("a"),
            Node::SoftBreak,
            text("b"),
        ])])]
    );
}

#[test]
fn unclosed_markup_has_no_parse() {
    for source in ["**bold", "*it", "~~gone", "`code", "```\ncode", "[a](b"] {
        assert_eq!(try_parse_tokens(lex_text(&source.to_string())), None, "{}", source);
    }
}

#[test]
fn token_sequences_without_end_marker_have_no_parse() {
    assert_eq!(try_parse_tokens(vec![]), None);
    assert_eq!(try_parse_tokens(vec![LexTok::Text("a".to_string())]), None);
    assert_eq!(try_parse_tokens(vec![LexTok::EOF]), Some(vec![]));
}

#[test]
fn parser_reads_from_its_position() {
    let mut parser = Parser::new(lex_text(&"# a\nb".to_string()));
    let nodes = parser.parse();
    assert_eq!(nodes.len(), 2);
    assert_eq!(parser.try_parse(), Some(vec![]));
}

#[test]
fn code_block_without_language() {
    let ast = parse("```\nx < y\n```");
    assert_eq!(
        ast,
        vec![Node::CodeBlock { language: None, content: "\nx < y\n".to_string() }]
    );
}

#[test]
fn single_backtick_at_block_start_is_inline_code_in_a_paragraph() {
    let ast = parse("`a` b");
    assert_eq!(ast, vec![Node::Paragraph(vec![Node::InlineCode("a".to_string()), text(" b")])]);
}

#[test]
fn plain_line_is_one_paragraph_of_its_text() {
    let line = "a [b] c] (d) > e_f 12 + g";
    let ast = parse(line);
    assert_eq!(ast.len(), 1);
    if let Node::Paragraph(children) = &ast[0] {
        let mut joined = String::new();
        for child in children {
            match child {
                Node::Text(t) => joined.push_str(t),
                other => panic!("not text: {:?}", other),
            }
        }
        assert_eq!(joined, line);
    } else {
        panic!("Expected Paragraph");
    }
}

#[test]
fn inline_code_keeps_the_source_between_backticks() {
    let ast = parse("x `*a* [b](c) #` y");
    assert_eq!(
        ast,
        vec![Node::Paragraph(vec![
            text("x "),
            Node::InlineCode("*a* [b](c) #".to_string()),
            text(" y"),
        ])]
    );
}

#[test]
fn unmatched_bracket_keeps_its_source_text() {
    let ast = parse("[a *b*] rest");
    assert_eq!(ast, vec![Node::Paragraph(vec![text("[a *b*]"), text(" rest")])]);
}

#[test]
fn fenced_block_leaves_the_rest_of_the_text() {
    let ast = parse("```rs x\ny```# t");
    assert_eq!(
        ast,
        vec![
            Node::CodeBlock { language: Some("rs x".to_string()), content: "\ny".to_string() },
            Node::Heading { level: 1, content: vec![text(" t")] },
        ]
    );
}
