use vstd::prelude::*;

use crate::ast::{Node, SpecNode, items_view, nodes_view, rows_view};
use crate::text::{chars_of, push_char};

verus! {

broadcast use vstd::std_specs::vec::group_vec_axioms, vstd::seq::group_seq_axioms;

/// The HTML text that stands for one character of ordinary text.
pub open spec fn html_char_spec(c: char) -> Seq<char> {
    if c == '&' {
        "&amp;"@
    } else if c == '<' {
        "&lt;"@
    } else if c == '>' {
        "&gt;"@
    } else {
        seq![c]
    }
}

/// Text with `&`, `<` and `>` replaced by their character references.
pub open spec fn escape_html_spec(s: Seq<char>) -> Seq<char>
    decreases s.len(),
{
    if s.len() == 0 {
        seq![]
    } else {
        escape_html_spec(s.drop_last()) + html_char_spec(s.last())
    }
}

/// The HTML text that stands for one character of an attribute value: as in text,
/// and a quote becomes `&quot;`.
pub open spec fn attr_char_spec(c: char) -> Seq<char> {
    if c == '"' {
        "&quot;"@
    } else {
        html_char_spec(c)
    }
}

/// An attribute value, escaped.
pub open spec fn escape_attr_spec(s: Seq<char>) -> Seq<char>
    decreases s.len(),
{
    if s.len() == 0 {
        seq![]
    } else {
        escape_attr_spec(s.drop_last()) + attr_char_spec(s.last())
    }
}

/// The decimal digit for `d < 10`.
pub open spec fn digit_char(d: nat) -> char {
    (48 + d) as char
}

/// The decimal numeral of `n`, without leading zeros.
pub open spec fn decimal(n: nat) -> Seq<char>
    decreases n,
{
    if n < 10 {
        seq![digit_char(n)]
    } else {
        decimal(n / 10).push(digit_char(n % 10))
    }
}

/// The opening of a code block: with a `language-` class where a language is given.
pub open spec fn code_open_spec(language: Option<Seq<char>>) -> Seq<char> {
    match language {
        Some(l) => "<pre><code class=\"language-"@ + escape_attr_spec(l) + "\">"@,
        None => "<pre><code>"@,
    }
}

/// The HTML of one node.
pub open spec fn gen_node_spec(n: SpecNode) -> Seq<char>
    decreases n,
{
    match n {
        SpecNode::Text(t) => escape_html_spec(t),
        SpecNode::Paragraph(c) => "<p>"@ + gen_seq_spec(c) + "</p>"@,
        SpecNode::Heading { level, content } => "<h"@ + decimal(level as nat) + ">"@ + gen_seq_spec(
            content,
        ) + "</h"@ + decimal(level as nat) + ">"@,
        SpecNode::Strong(c) => "<strong>"@ + gen_seq_spec(c) + "</strong>"@,
        SpecNode::Emphasis(c) => "<em>"@ + gen_seq_spec(c) + "</em>"@,
        SpecNode::Strikethrough(c) => "<del>"@ + gen_seq_spec(c) + "</del>"@,
        SpecNode::InlineCode(code) => "<code>"@ + escape_html_spec(code) + "</code>"@,
        SpecNode::CodeBlock { language, content } => code_open_spec(language) + escape_html_spec(
            content,
        ) + "</code></pre>"@,
        SpecNode::BlockQuote(c) => "<blockquote>"@ + gen_seq_spec(c) + "</blockquote>"@,
        SpecNode::UnorderedList(items) => "<ul>"@ + gen_items_spec(items) + "</ul>"@,
        SpecNode::OrderedList(items) => "<ol>"@ + gen_items_spec(items) + "</ol>"@,
        SpecNode::Link { text, url, title: _ } => "<a href=\""@ + escape_attr_spec(url) + "\">"@
            + gen_seq_spec(text) + "</a>"@,
        SpecNode::Image { alt, url, title: _ } => "<img src=\""@ + escape_attr_spec(url)
            + "\" alt=\""@ + escape_attr_spec(alt) + "\" />"@,
        SpecNode::SoftBreak => "<br>"@,
        SpecNode::LineBreak => "<br>"@,
        SpecNode::Html(raw) => raw,
        SpecNode::EscapedChar(c) => seq![c],
        SpecNode::HorizontalRule => "<hr>"@,
        SpecNode::Table { headers, rows } => "<table><thead><tr>"@ + gen_cells_spec(headers, true)
            + "</tr></thead><tbody>"@ + gen_rows_spec(rows) + "</tbody></table>"@,
    }
}

/// The HTML of table cells: each as `<th>..</th>` in the header, `<td>..</td>` elsewhere.
pub open spec fn gen_cells_spec(cells: Seq<Seq<SpecNode>>, header: bool) -> Seq<char>
    decreases cells,
{
    if cells.len() == 0 {
        seq![]
    } else {
        gen_cells_spec(cells.drop_last(), header) + (if header {
            "<th>"@
        } else {
            "<td>"@
        }) + gen_seq_spec(cells.last()) + (if header {
            "</th>"@
        } else {
            "</td>"@
        })
    }
}

/// The HTML of table rows: each as `<tr>..</tr>`.
pub open spec fn gen_rows_spec(rows: Seq<Seq<Seq<SpecNode>>>) -> Seq<char>
    decreases rows,
{
    if rows.len() == 0 {
        seq![]
    } else {
        gen_rows_spec(rows.drop_last()) + "<tr>"@ + gen_cells_spec(rows.last(), false) + "</tr>"@
    }
}

/// The HTML of a sequence of nodes: that of each, one after the other.
pub open spec fn gen_seq_spec(s: Seq<SpecNode>) -> Seq<char>
    decreases s,
{
    if s.len() == 0 {
        seq![]
    } else {
        gen_seq_spec(s.drop_last()) + gen_node_spec(s.last())
    }
}

/// The HTML of list items: each as `<li>..</li>`, one after the other.
pub open spec fn gen_items_spec(items: Seq<Seq<SpecNode>>) -> Seq<char>
    decreases items,
{
    if items.len() == 0 {
        seq![]
    } else {
        gen_items_spec(items.drop_last()) + "<li>"@ + gen_seq_spec(items.last()) + "</li>"@
    }
}

/// Escaped text holds no `<` and no `>`: it cannot open or close a tag.
pub proof fn lemma_escape_html_no_tags(s: Seq<char>)
    ensures
        forall|i: int|
            0 <= i < escape_html_spec(s).len() ==> #[trigger] escape_html_spec(s)[i] != '<'
                && escape_html_spec(s)[i] != '>',
    decreases s.len(),
{
    reveal_strlit("&amp;");
    reveal_strlit("&lt;");
    reveal_strlit("&gt;");
    if s.len() > 0 {
        lemma_escape_html_no_tags(s.drop_last());
        let a = escape_html_spec(s.drop_last());
        let b = html_char_spec(s.last());
        assert forall|i: int| 0 <= i < (a + b).len() implies #[trigger] (a + b)[i] != '<' && (a
            + b)[i] != '>' by {
            if i >= a.len() {
                assert((a + b)[i] == b[i - a.len()]);
            }
        }
    }
}

/// One character is escaped as `html_char_spec` says.
pub proof fn lemma_escape_html_single(c: char)
    ensures
        escape_html_spec(seq![c]) == html_char_spec(c),
{
    let s = seq![c];
    assert(s.drop_last() =~= Seq::<char>::empty());
    assert(escape_html_spec(s.drop_last()) == Seq::<char>::empty());
    assert(escape_html_spec(s) == escape_html_spec(s.drop_last()) + html_char_spec(s.last()));
    assert(Seq::<char>::empty() + html_char_spec(c) =~= html_char_spec(c));
}

/// Text without `&`, `<` and `>` is left as it is.
pub proof fn lemma_escape_html_plain(s: Seq<char>)
    requires
        forall|i: int| 0 <= i < s.len() ==> #[trigger] s[i] != '&' && s[i] != '<' && s[i] != '>',
    ensures
        escape_html_spec(s) == s,
    decreases s.len(),
{
    if s.len() > 0 {
        lemma_escape_html_plain(s.drop_last());
        assert(s.drop_last().push(s.last()) =~= s);
    }
}

/// Escaping distributes over concatenation.
pub proof fn lemma_escape_html_append(a: Seq<char>, b: Seq<char>)
    ensures
        escape_html_spec(a + b) == escape_html_spec(a) + escape_html_spec(b),
    decreases b.len(),
{
    if b.len() == 0 {
        assert(a + b =~= a);
    } else {
        lemma_escape_html_append(a, b.drop_last());
        assert((a + b).drop_last() =~= a + b.drop_last());
        assert(escape_html_spec(a) + escape_html_spec(b.drop_last()) + html_char_spec(b.last())
            =~= escape_html_spec(a) + (escape_html_spec(b.drop_last()) + html_char_spec(
            b.last(),
        )));
    }
}

/// An escaped attribute value holds no `"`, `<` or `>`: it cannot end the value or open a tag.
pub proof fn lemma_escape_attr_closed(s: Seq<char>)
    ensures
        forall|i: int|
            0 <= i < escape_attr_spec(s).len() ==> #[trigger] escape_attr_spec(s)[i] != '"'
                && escape_attr_spec(s)[i] != '<' && escape_attr_spec(s)[i] != '>',
    decreases s.len(),
{
    reveal_strlit("&amp;");
    reveal_strlit("&lt;");
    reveal_strlit("&gt;");
    reveal_strlit("&quot;");
    if s.len() > 0 {
        lemma_escape_attr_closed(s.drop_last());
        let a = escape_attr_spec(s.drop_last());
        let b = attr_char_spec(s.last());
        assert forall|i: int| 0 <= i < (a + b).len() implies #[trigger] (a + b)[i] != '"' && (a
            + b)[i] != '<' && (a + b)[i] != '>' by {
            if i >= a.len() {
                assert((a + b)[i] == b[i - a.len()]);
            }
        }
    }
}

/// The HTML of two documents one after the other is the HTML of each, one after the other.
pub proof fn lemma_gen_seq_append(a: Seq<SpecNode>, b: Seq<SpecNode>)
    ensures
        gen_seq_spec(a + b) == gen_seq_spec(a) + gen_seq_spec(b),
    decreases b.len(),
{
    if b.len() == 0 {
        assert(a + b =~= a);
    } else {
        lemma_gen_seq_append(a, b.drop_last());
        assert((a + b).drop_last() =~= a + b.drop_last());
        assert(gen_seq_spec(a) + gen_seq_spec(b.drop_last()) + gen_node_spec(b.last())
            =~= gen_seq_spec(a) + (gen_seq_spec(b.drop_last()) + gen_node_spec(b.last())));
    }
}

/// Adding a node at the end adds its HTML at the end.
pub proof fn lemma_gen_seq_push(s: Seq<SpecNode>, n: SpecNode)
    ensures
        gen_seq_spec(s.push(n)) == gen_seq_spec(s) + gen_node_spec(n),
{
    assert(s.push(n).drop_last() =~= s);
}

/// Adding an item at the end adds its HTML at the end.
pub proof fn lemma_gen_items_push(s: Seq<Seq<SpecNode>>, n: Seq<SpecNode>)
    ensures
        gen_items_spec(s.push(n)) == gen_items_spec(s) + "<li>"@ + gen_seq_spec(n) + "</li>"@,
{
    assert(s.push(n).drop_last() =~= s);
}

/// The HTML of a sequence of nodes.
pub fn generate(nodes: &[Node]) -> (out: String)
    ensures
        out@ == gen_seq_spec(nodes_view(nodes@)),
    decreases nodes@,
{
    let mut out = String::new();
    let mut i: usize = 0;
    while i < nodes.len()
        invariant
            i <= nodes@.len(),
            out@ == gen_seq_spec(nodes_view(nodes@.take(i as int))),
        decreases nodes@.len() - i,
    {
        proof {
            assert(decreases_to!(nodes@ => nodes@[i as int]));
        }
        let html = gen_node(&nodes[i]);
        out.append(html.as_str());
        proof {
            assert(nodes@.take(i + 1).drop_last() =~= nodes@.take(i as int));
            crate::ast::lemma_nodes_view_push(nodes@.take(i as int), nodes@[i as int]);
            assert(nodes@.take(i + 1) =~= nodes@.take(i as int).push(nodes@[i as int]));
            lemma_gen_seq_push(nodes_view(nodes@.take(i as int)), nodes@[i as int]@);
        }
        i = i + 1;
    }
    proof {
        assert(nodes@.take(i as int) =~= nodes@);
    }
    out
}

/// The HTML of list items.
fn generate_items(items: &Vec<Vec<Node>>) -> (out: String)
    ensures
        out@ == gen_items_spec(items_view(items@)),
    decreases items@,
{
    let mut out = String::new();
    let mut i: usize = 0;
    while i < items.len()
        invariant
            i <= items@.len(),
            out@ == gen_items_spec(items_view(items@.take(i as int))),
        decreases items@.len() - i,
    {
        proof {
            assert(decreases_to!(items@ => items@[i as int]));
            assert(decreases_to!(items@[i as int] => items@[i as int]@));
        }
        out.append("<li>");
        let html = generate(items[i].as_slice());
        out.append(html.as_str());
        out.append("</li>");
        proof {
            crate::ast::lemma_items_view_push(items@.take(i as int), items@[i as int]);
            assert(items@.take(i + 1) =~= items@.take(i as int).push(items@[i as int]));
            lemma_gen_items_push(items_view(items@.take(i as int)), nodes_view(items@[i as int]@));
        }
        i = i + 1;
    }
    proof {
        assert(items@.take(i as int) =~= items@);
    }
    out
}

/// Adding a cell at the end adds its HTML at the end.
pub proof fn lemma_gen_cells_push(s: Seq<Seq<SpecNode>>, n: Seq<SpecNode>, header: bool)
    ensures
        gen_cells_spec(s.push(n), header) == gen_cells_spec(s, header) + (if header {
            "<th>"@
        } else {
            "<td>"@
        }) + gen_seq_spec(n) + (if header {
            "</th>"@
        } else {
            "</td>"@
        }),
{
    assert(s.push(n).drop_last() =~= s);
}

/// Adding a row at the end adds its HTML at the end.
pub proof fn lemma_gen_rows_push(s: Seq<Seq<Seq<SpecNode>>>, n: Seq<Seq<SpecNode>>)
    ensures
        gen_rows_spec(s.push(n)) == gen_rows_spec(s) + "<tr>"@ + gen_cells_spec(n, false) + "</tr>"@,
{
    assert(s.push(n).drop_last() =~= s);
}

/// The HTML of table cells.
fn generate_cells(cells: &Vec<Vec<Node>>, header: bool) -> (out: String)
    ensures
        out@ == gen_cells_spec(items_view(cells@), header),
    decreases cells@,
{
    let mut out = String::new();
    let mut i: usize = 0;
    while i < cells.len()
        invariant
            i <= cells@.len(),
            out@ == gen_cells_spec(items_view(cells@.take(i as int)), header),
        decreases cells@.len() - i,
    {
        proof {
            assert(decreases_to!(cells@ => cells@[i as int]));
            assert(decreases_to!(cells@[i as int] => cells@[i as int]@));
        }
        if header {
            out.append("<th>");
        } else {
            out.append("<td>");
        }
        let html = generate(cells[i].as_slice());
        out.append(html.as_str());
        if header {
            out.append("</th>");
        } else {
            out.append("</td>");
        }
        proof {
            crate::ast::lemma_items_view_push(cells@.take(i as int), cells@[i as int]);
            assert(cells@.take(i + 1) =~= cells@.take(i as int).push(cells@[i as int]));
            lemma_gen_cells_push(items_view(cells@.take(i as int)), nodes_view(cells@[i as int]@), header);
        }
        i = i + 1;
    }
    proof {
        assert(cells@.take(i as int) =~= cells@);
    }
    out
}

/// The HTML of table rows.
fn generate_rows(rows: &Vec<Vec<Vec<Node>>>) -> (out: String)
    ensures
        out@ == gen_rows_spec(rows_view(rows@)),
    decreases rows@,
{
    let mut out = String::new();
    let mut i: usize = 0;
    while i < rows.len()
        invariant
            i <= rows@.len(),
            out@ == gen_rows_spec(rows_view(rows@.take(i as int))),
        decreases rows@.len() - i,
    {
        proof {
            assert(decreases_to!(rows@ => rows@[i as int]));
        }
        out.append("<tr>");
        let html = generate_cells(&rows[i], false);
        out.append(html.as_str());
        out.append("</tr>");
        proof {
            crate::ast::lemma_rows_view_push(rows@.take(i as int), rows@[i as int]);
            assert(rows@.take(i + 1) =~= rows@.take(i as int).push(rows@[i as int]));
            lemma_gen_rows_push(rows_view(rows@.take(i as int)), items_view(rows@[i as int]@));
        }
        i = i + 1;
    }
    proof {
        assert(rows@.take(i as int) =~= rows@);
    }
    out
}

/// The decimal numeral of `n`.
fn decimal_string(n: u8) -> (s: String)
    ensures
        s@ == decimal(n as nat),
{
    let mut s = String::new();
    let ghost m = n as nat;
    if n >= 100 {
        let d: u8 = 48 + n / 100;
        push_char(&mut s, d as char);
        proof {
            assert(m / 100 < 10);
            assert(d as char == digit_char(m / 100));
            assert(s@ =~= decimal(m / 100));
            assert((m / 10) / 10 == m / 100);
        }
    }
    if n >= 10 {
        let d: u8 = 48 + (n / 10) % 10;
        push_char(&mut s, d as char);
        proof {
            assert(d as char == digit_char((m / 10) % 10));
            assert(s@ =~= decimal(m / 10));
        }
    }
    let d: u8 = 48 + n % 10;
    push_char(&mut s, d as char);
    proof {
        assert(d as char == digit_char(m % 10));
        assert(s@ =~= decimal(m));
    }
    s
}

fn gen_node(node: &Node) -> (out: String)
    ensures
        out@ == gen_node_spec(node@),
    decreases node,
{
    match node {
        Node::Text(t) => escape_html(t.as_str()),
        Node::Paragraph(children) => {
            let mut out = String::from_str("<p>");
            out.append(generate(children.as_slice()).as_str());
            out.append("</p>");
            out
        },
        Node::Heading { level, content } => {
            let tag = decimal_string(*level);
            let mut out = String::from_str("<h");
            out.append(tag.as_str());
            out.append(">");
            out.append(generate(content.as_slice()).as_str());
            out.append("</h");
            out.append(tag.as_str());
            out.append(">");
            out
        },
        Node::Strong(children) => {
            let mut out = String::from_str("<strong>");
            out.append(generate(children.as_slice()).as_str());
            out.append("</strong>");
            out
        },
        Node::Emphasis(children) => {
            let mut out = String::from_str("<em>");
            out.append(generate(children.as_slice()).as_str());
            out.append("</em>");
            out
        },
        Node::Strikethrough(children) => {
            let mut out = String::from_str("<del>");
            out.append(generate(children.as_slice()).as_str());
            out.append("</del>");
            out
        },
        Node::InlineCode(code) => {
            let mut out = String::from_str("<code>");
            out.append(escape_html(code.as_str()).as_str());
            out.append("</code>");
            out
        },
        Node::CodeBlock { language, content } => {
            let mut out = match language {
                Some(l) => {
                    let mut open = String::from_str("<pre><code class=\"language-");
                    open.append(escape_attr(l.as_str()).as_str());
                    open.append("\">");
                    open
                },
                None => String::from_str("<pre><code>"),
            };
            out.append(escape_html(content.as_str()).as_str());
            out.append("</code></pre>");
            out
        },
        Node::BlockQuote(children) => {
            let mut out = String::from_str("<blockquote>");
            out.append(generate(children.as_slice()).as_str());
            out.append("</blockquote>");
            out
        },
        Node::UnorderedList(items) => {
            let mut out = String::from_str("<ul>");
            out.append(generate_items(items).as_str());
            out.append("</ul>");
            out
        },
        Node::OrderedList(items) => {
            let mut out = String::from_str("<ol>");
            out.append(generate_items(items).as_str());
            out.append("</ol>");
            out
        },
        Node::Link { text, url, title: _ } => {
            let mut out = String::from_str("<a href=\"");
            out.append(escape_attr(url.as_str()).as_str());
            out.append("\">");
            out.append(generate(text.as_slice()).as_str());
            out.append("</a>");
            out
        },
        Node::Image { alt, url, title: _ } => {
            let mut out = String::from_str("<img src=\"");
            out.append(escape_attr(url.as_str()).as_str());
            out.append("\" alt=\"");
            out.append(escape_attr(alt.as_str()).as_str());
            out.append("\" />");
            out
        },
        Node::SoftBreak => String::from_str("<br>"),
        Node::LineBreak => String::from_str("<br>"),
        Node::Html(raw) => raw.clone(),
        Node::EscapedChar(c) => {
            let mut out = String::new();
            push_char(&mut out, *c);
            out
        },
        Node::HorizontalRule => String::from_str("<hr>"),
        Node::Table { headers, rows } => {
            let mut out = String::from_str("<table><thead><tr>");
            out.append(generate_cells(headers, true).as_str());
            out.append("</tr></thead><tbody>");
            out.append(generate_rows(rows).as_str());
            out.append("</tbody></table>");
            out
        },
    }
}

/// `text` with `&`, `<` and `>` escaped.
fn escape_html(text: &str) -> (out: String)
    ensures
        out@ == escape_html_spec(text@),
{
    let chars = chars_of(text);
    let mut out = String::new();
    let mut i: usize = 0;
    while i < chars.len()
        invariant
            i <= chars@.len(),
            chars@ == text@,
            out@ == escape_html_spec(chars@.take(i as int)),
        decreases chars@.len() - i,
    {
        let c = chars[i];
        if c == '&' {
            out.append("&amp;");
        } else if c == '<' {
            out.append("&lt;");
        } else if c == '>' {
            out.append("&gt;");
        } else {
            push_char(&mut out, c);
        }
        proof {
            assert(chars@.take(i + 1).drop_last() =~= chars@.take(i as int));
        }
        i = i + 1;
    }
    proof {
        assert(chars@.take(i as int) =~= chars@);
    }
    out
}

/// An attribute value with `"`, `&`, `<` and `>` escaped, the quote first.
fn escape_attr(text: &str) -> (out: String)
    ensures
        out@ == escape_attr_spec(text@),
{
    let chars = chars_of(text);
    let mut out = String::new();
    let mut i: usize = 0;
    while i < chars.len()
        invariant
            i <= chars@.len(),
            chars@ == text@,
            out@ == escape_attr_spec(chars@.take(i as int)),
        decreases chars@.len() - i,
    {
        let c = chars[i];
        if c == '"' {
            out.append("&quot;");
        } else if c == '&' {
            out.append("&amp;");
        } else if c == '<' {
            out.append("&lt;");
        } else if c == '>' {
            out.append("&gt;");
        } else {
            push_char(&mut out, c);
        }
        proof {
            assert(chars@.take(i + 1).drop_last() =~= chars@.take(i as int));
        }
        i = i + 1;
    }
    proof {
        assert(chars@.take(i as int) =~= chars@);
    }
    out
}

/// The HTML of a document.
pub fn generate_html(ast: Vec<Node>) -> (out: String)
    ensures
        out@ == gen_seq_spec(nodes_view(ast@)),
{
    generate(ast.as_slice())
}

} // verus!

