use markforge::ast::Node;
use markforge::codegen::{generate, generate_html};
use markforge::styler::{wrap_html, STYLESHEET};
use markforge::{md_to_html, try_md_to_html};

fn text(s: &str) -> Node {
    Node::Text(s.to_string())
}

#[test]
fn text_is_escaped() {
    assert_eq!(generate(&[text("a < b && c > d")]), "a &lt; b &amp;&amp; c &gt; d");
}

#[test]
fn attribute_quote_is_escaped() {
    let link = Node::Link { text: vec![text("x")], url: "a\"b&c".to_string(), title: None };
    assert_eq!(generate(&[link]), "<a href=\"a&quot;b&amp;c\">x</a>");
    let image = Node::Image { alt: "<i>".to_string(), url: "u".to_string(), title: None };
    assert_eq!(generate(&[image]), "<img src=\"u\" alt=\"&lt;i&gt;\" />");
}

#[test]
fn every_node_kind() {
    let nodes = vec![
        Node::Heading { level: 123, content: vec![text("h")] },
        Node::Paragraph(vec![Node::Strong(vec![text("s")]), Node::Emphasis(vec![text("e")])]),
        Node::BlockQuote(vec![Node::Strikethrough(vec![text("d")])]),
        Node::UnorderedList(vec![vec![text("1")], vec![]]),
        Node::OrderedList(vec![vec![text("2")]]),
        Node::CodeBlock { language: Some("rs".to_string()), content: "<x>".to_string() },
        Node::InlineCode("&".to_string()),
        Node::HorizontalRule,
        Node::Table { headers: vec![vec![text("Name")]], rows: vec![vec![vec![text("42")], vec![]]] },
        Node::LineBreak,
        Node::SoftBreak,
        Node::Html("<b>raw</b>".to_string()),
        Node::EscapedChar('*'),
    ];
    assert_eq!(
        generate_html(nodes),
        "<h123>h</h123><p><strong>s</strong><em>e</em></p><blockquote><del>d</del></blockquote>\
<ul><li>1</li><li></li></ul><ol><li>2</li></ol><pre><code class=\"language-rs\">&lt;x&gt;</code></pre>\
<code>&amp;</code><hr><table><thead><tr><th>Name</th></tr></thead><tbody><tr><td>42</td><td></td></tr></tbody>\
</table><br><br><b>raw</b>*"
    );
}

#[test]
fn html_of_a_sequence_is_the_html_of_each() {
    let a = vec![text("a"), Node::SoftBreak];
    let b = vec![Node::Heading { level: 1, content: vec![text("b")] }];
    let both = vec![text("a"), Node::SoftBreak, Node::Heading { level: 1, content: vec![text("b")] }];
    assert_eq!(generate(&both), format!("{}{}", generate(&a), generate(&b)));
}

#[test]
fn page_wraps_content_in_body() {
    let page = wrap_html("<p>x</p>");
    assert!(page.starts_with("<!DOCTYPE html>\n<html>\n<head>\n"));
    assert!(page.contains(STYLESHEET));
    assert!(page.ends_with("<body>\n<p>x</p>\n</body>\n</html>"));
}

#[test]
fn markdown_to_page() {
    let page = md_to_html("# Hello World\n\nThis is a **bold** and *italic* text.\n".to_string());
    assert!(page.ends_with(
        "<body>\n<h1> Hello World</h1><p>This is a <strong>bold</strong> and <em>italic</em> text.</p>\n</body>\n</html>"
    ));
}

#[test]
fn plain_markdown_always_converts() {
    let source = "# Title\n- item (1) > 2\n3. x | y + z_w\n> quote ]\n\ntext #";
    assert!(try_md_to_html(source.to_string()).is_some());
}

#[test]
fn unclosed_markup_gives_no_page() {
    assert_eq!(try_md_to_html("a **b".to_string()), None);
}

#[test]
fn plain_line_becomes_an_escaped_paragraph() {
    let page = md_to_html("a < b [c] & (d)".to_string());
    assert!(page.ends_with("<body>\n<p>a &lt; b [c] &amp; (d)</p>\n</body>\n</html>"));
}

#[test]
fn code_block_without_language_has_no_class() {
    let node = Node::CodeBlock { language: None, content: "x".to_string() };
    assert_eq!(generate(&[node]), "<pre><code>x</code></pre>");
}

#[test]
fn page_of_every_block_kind() {
    let page = md_to_html("## T\n---\n1. a\n|h|\n|-|\n|c|\n![i](p.png)".to_string());
    assert!(page.ends_with(
        "<body>\n<h2> T</h2><hr><ol><li> a</li></ol><table><thead><tr><th>h</th></tr></thead><tbody><tr><td>c</td></tr></tbody></table><p><img src=\"p.png\" alt=\"i\" /></p>\n</body>\n</html>"
    ));
}

fn strip_and_decode(html: &str) -> String {
    strip_and_decode_with(html, true)
}

fn strip_and_decode_with(html: &str, quot: bool) -> String {
    let mut out = String::new();
    let mut rest = html;
    while let Some(c) = rest.chars().next() {
        if c == '<' {
            let end = rest.find('>').unwrap();
            rest = &rest[end + 1..];
        } else if rest.starts_with("&amp;") {
            out.push('&');
            rest = &rest[5..];
        } else if rest.starts_with("&lt;") {
            out.push('<');
            rest = &rest[4..];
        } else if rest.starts_with("&gt;") {
            out.push('>');
            rest = &rest[4..];
        } else if quot && rest.starts_with("&quot;") {
            out.push('"');
            rest = &rest[6..];
        } else {
            out.push(c);
            rest = &rest[c.len_utf8()..];
        }
    }
    out
}

#[test]
fn stripped_html_gives_back_the_text() {
    let doc = vec![
        Node::Heading { level: 2, content: vec![text("a < b")] },
        Node::Paragraph(vec![
            text("x & y "),
            Node::Strong(vec![text("\"q\"")]),
            Node::Link { text: vec![text("l")], url: "u\"v".to_string(), title: None },
            Node::Image { alt: "i".to_string(), url: "p>q".to_string(), title: None },
        ]),
        Node::CodeBlock { language: Some("r\"s".to_string()), content: "<c>".to_string() },
    ];
    assert_eq!(strip_and_decode(&generate(&doc)), "a < bx & y \"q\"l<c>");
}

#[test]
fn escaped_attribute_decodes_to_the_address() {
    let link = Node::Link { text: vec![], url: "a&quot;\"<b>".to_string(), title: None };
    let html = generate(&[link]);
    assert_eq!(html, "<a href=\"a&amp;quot;&quot;&lt;b&gt;\"></a>");
    let value = &html["<a href=\"".len()..html.len() - "\"></a>".len()];
    assert_eq!(strip_and_decode(value), "a&quot;\"<b>");
}

#[test]
fn stripped_html_of_text_and_inline_markup_with_three_references() {
    let node = Node::Paragraph(vec![
        text("x&quot; <y> "),
        Node::Strong(vec![Node::Emphasis(vec![text("a & b")])]),
        Node::InlineCode("<c>".to_string()),
        Node::Strikethrough(vec![text("\"d\"")]),
    ]);
    let html = generate(&[Node::Heading { level: 3, content: vec![text("h")] }, node]);
    assert_eq!(strip_and_decode_with(&html, false), "hx&quot; <y> a & b<c>\"d\"");
}
