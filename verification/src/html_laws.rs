use vstd::prelude::*;

use crate::ast::SpecNode;
use crate::codegen::{
    attr_char_spec, code_open_spec, decimal, digit_char, escape_attr_spec, escape_html_spec,
    gen_cells_spec, gen_items_spec, gen_node_spec, gen_rows_spec, gen_seq_spec, html_char_spec,
    lemma_escape_attr_closed, lemma_escape_html_append, lemma_escape_html_single,
};

verus! {

// What a reader of the HTML sees: the text that remains once tags are dropped and
// the character references `&amp;`, `&lt;`, `&gt;` and `&quot;` are decoded.
/// Where the tag that `s` opens ends: one past the first `>` from position `i` on,
/// or the end of `s`.
pub open spec fn tag_end(s: Seq<char>, i: int) -> int
    decreases s.len() - i,
{
    if i >= s.len() {
        s.len() as int
    } else if s[i] == '>' {
        i + 1
    } else {
        tag_end(s, i + 1)
    }
}

/// The character reference at the start of `s`, if there is one: the character it
/// stands for and its length.
pub open spec fn char_ref(s: Seq<char>) -> Option<(char, int)> {
    if s.len() >= 5 && s.take(5) == seq!['&', 'a', 'm', 'p', ';'] {
        Some(('&', 5))
    } else if s.len() >= 4 && s.take(4) == seq!['&', 'l', 't', ';'] {
        Some(('<', 4))
    } else if s.len() >= 4 && s.take(4) == seq!['&', 'g', 't', ';'] {
        Some(('>', 4))
    } else if s.len() >= 6 && s.take(6) == seq!['&', 'q', 'u', 'o', 't', ';'] {
        Some(('"', 6))
    } else {
        None
    }
}

/// The text that HTML `s` shows: tags dropped, character references decoded.
pub open spec fn html_text(s: Seq<char>) -> Seq<char>
    decreases s.len(),
{
    if s.len() == 0 {
        seq![]
    } else if s[0] == '<' {
        if 1 <= tag_end(s, 1) <= s.len() {
            html_text(s.skip(tag_end(s, 1)))
        } else {
            seq![]
        }
    } else {
        match char_ref(s) {
            Some((c, k)) => seq![c] + html_text(s.skip(k)),
            None => seq![s[0]] + html_text(s.drop_first()),
        }
    }
}

/// Markup only: a run of whole tags, each `<`, text without `>`, and `>`.
pub open spec fn markup_only(s: Seq<char>) -> bool
    decreases s.len(),
{
    s.len() == 0 || (s[0] == '<' && 1 < tag_end(s, 1) <= s.len() && s[tag_end(s, 1) - 1] == '>'
        && markup_only(s.skip(tag_end(s, 1))))
}

/// No `>` in `s`.
pub open spec fn no_gt(s: Seq<char>) -> bool
    decreases s.len(),
{
    s.len() == 0 || (s[0] != '>' && no_gt(s.drop_first()))
}

proof fn lemma_no_gt(s: Seq<char>)
    requires
        no_gt(s),
    ensures
        forall|k: int| 0 <= k < s.len() ==> #[trigger] s[k] != '>',
    decreases s.len(),
{
    if s.len() > 0 {
        lemma_no_gt(s.drop_first());
        assert forall|k: int| 0 <= k < s.len() implies #[trigger] s[k] != '>' by {
            if k > 0 {
                assert(s[k] == s.drop_first()[k - 1]);
            }
        }
    }
}

proof fn lemma_tag_end_bounds(s: Seq<char>, i: int)
    requires
        0 <= i,
    ensures
        i <= tag_end(s, i) || tag_end(s, i) == s.len(),
        tag_end(s, i) <= s.len() || i > s.len(),
    decreases s.len() - i,
{
    if i < s.len() && s[i] != '>' {
        lemma_tag_end_bounds(s, i + 1);
    }
}

proof fn lemma_tag_end_skip(s: Seq<char>, i: int, j: int)
    requires
        0 <= i <= j <= s.len(),
        forall|k: int| i <= k < j ==> #[trigger] s[k] != '>',
    ensures
        tag_end(s, i) == tag_end(s, j),
    decreases j - i,
{
    if i < j {
        lemma_tag_end_skip(s, i + 1, j);
    }
}

/// Where a tag closes within `s`, it closes at the same place in `s` followed by more.
proof fn lemma_tag_end_prefix(s: Seq<char>, y: Seq<char>, i: int)
    requires
        0 <= i < tag_end(s, i) <= s.len(),
        s[tag_end(s, i) - 1] == '>',
    ensures
        tag_end(s + y, i) == tag_end(s, i),
    decreases s.len() - i,
{
    assert((s + y)[i] == s[i]);
    if s[i] != '>' {
        if i + 1 >= s.len() {
            assert(tag_end(s, i + 1) == s.len());
        }
        lemma_tag_end_prefix(s, y, i + 1);
    }
}

/// Markup followed by more shows what the rest shows.
pub proof fn lemma_markup(s: Seq<char>, y: Seq<char>)
    requires
        markup_only(s),
    ensures
        html_text(s + y) == html_text(y),
    decreases s.len(),
{
    if s.len() == 0 {
        assert(s + y =~= y);
    } else {
        let k = tag_end(s, 1);
        lemma_tag_end_prefix(s, y, 1);
        assert((s + y)[0] == '<');
        assert((s + y).skip(k) =~= s.skip(k) + y);
        lemma_markup(s.skip(k), y);
    }
}

/// Markup followed by markup is markup.
proof fn lemma_markup_concat(a: Seq<char>, b: Seq<char>)
    requires
        markup_only(a),
        markup_only(b),
    ensures
        markup_only(a + b),
    decreases a.len(),
{
    if a.len() == 0 {
        assert(a + b =~= b);
    } else {
        let k = tag_end(a, 1);
        lemma_tag_end_prefix(a, b, 1);
        assert((a + b)[0] == '<');
        assert((a + b)[k - 1] == a[k - 1]);
        assert((a + b).skip(k) =~= a.skip(k) + b);
        lemma_markup_concat(a.skip(k), b);
    }
}

/// One tag: `<`, characters without `>`, and `>`.
proof fn lemma_single_tag(x: Seq<char>)
    requires
        x.len() >= 2,
        x[0] == '<',
        x[x.len() - 1] == '>',
        forall|k: int| 1 <= k < x.len() - 1 ==> #[trigger] x[k] != '>',
    ensures
        markup_only(x),
{
    lemma_tag_end_skip(x, 1, x.len() - 1);
    assert(tag_end(x, x.len() - 1) == x.len());
    assert(tag_end(x, 1) == x.len());
    assert(x.skip(x.len() as int).len() == 0);
    assert(markup_only(x.skip(x.len() as int)));
}

/// Escaped text shows the text it escapes.
proof fn lemma_escaped_text(t: Seq<char>, y: Seq<char>)
    ensures
        html_text(escape_html_spec(t) + y) == t + html_text(y),
    decreases t.len(),
{
    reveal_strlit("&amp;");
    reveal_strlit("&lt;");
    reveal_strlit("&gt;");
    if t.len() == 0 {
        assert(escape_html_spec(t) + y =~= y);
        assert(t + html_text(y) =~= html_text(y));
    } else {
        let c = t[0];
        let rest = t.drop_first();
        assert(t =~= seq![c] + rest);
        lemma_escape_html_append(seq![c], rest);
        lemma_escape_html_single(c);
        lemma_escaped_text(rest, y);
        let h = html_char_spec(c);
        let x = escape_html_spec(t) + y;
        assert(x =~= h + (escape_html_spec(rest) + y));
        assert(x.skip(h.len() as int) =~= escape_html_spec(rest) + y);
        if c == '&' {
            assert(x.take(5) =~= seq!['&', 'a', 'm', 'p', ';']);
        } else if c == '<' {
            assert(x.take(4) =~= seq!['&', 'l', 't', ';']);
            if x.len() >= 5 {
                assert(x.take(5)[1] == 'l');
            }
        } else if c == '>' {
            assert(x.take(4) =~= seq!['&', 'g', 't', ';']);
            if x.len() >= 5 {
                assert(x.take(5)[1] == 'g');
            }
            assert(x.take(4)[1] == 'g');
        } else {
            assert(x[0] == c);
            if x.len() >= 4 {
                assert(x.take(4)[0] == c);
            }
            if x.len() >= 5 {
                assert(x.take(5)[0] == c);
            }
            if x.len() >= 6 {
                assert(x.take(6)[0] == c);
            }
            assert(x.drop_first() =~= escape_html_spec(rest) + y);
        }
        assert(seq![c] + (rest + html_text(y)) =~= t + html_text(y));
    }
}

/// Escaping distributes over concatenation, in attribute values too.
proof fn lemma_escape_attr_append(a: Seq<char>, b: Seq<char>)
    ensures
        escape_attr_spec(a + b) == escape_attr_spec(a) + escape_attr_spec(b),
    decreases b.len(),
{
    if b.len() == 0 {
        assert(a + b =~= a);
    } else {
        lemma_escape_attr_append(a, b.drop_last());
        assert((a + b).drop_last() =~= a + b.drop_last());
        assert(escape_attr_spec(a) + escape_attr_spec(b.drop_last()) + attr_char_spec(b.last())
            =~= escape_attr_spec(a) + (escape_attr_spec(b.drop_last()) + attr_char_spec(
            b.last(),
        )));
    }
}

proof fn lemma_escape_attr_single(c: char)
    ensures
        escape_attr_spec(seq![c]) == attr_char_spec(c),
{
    let s = seq![c];
    assert(s.drop_last() =~= Seq::<char>::empty());
    assert(escape_attr_spec(s.drop_last()) == Seq::<char>::empty());
    assert(Seq::<char>::empty() + attr_char_spec(c) =~= attr_char_spec(c));
}

/// An escaped attribute value shows the value it escapes.
proof fn lemma_escaped_attr(t: Seq<char>, y: Seq<char>)
    ensures
        html_text(escape_attr_spec(t) + y) == t + html_text(y),
    decreases t.len(),
{
    reveal_strlit("&amp;");
    reveal_strlit("&lt;");
    reveal_strlit("&gt;");
    reveal_strlit("&quot;");
    if t.len() == 0 {
        assert(escape_attr_spec(t) + y =~= y);
        assert(t + html_text(y) =~= html_text(y));
    } else {
        let c = t[0];
        let rest = t.drop_first();
        assert(t =~= seq![c] + rest);
        lemma_escape_attr_append(seq![c], rest);
        lemma_escape_attr_single(c);
        lemma_escaped_attr(rest, y);
        let h = attr_char_spec(c);
        let x = escape_attr_spec(t) + y;
        assert(x =~= h + (escape_attr_spec(rest) + y));
        assert(x.skip(h.len() as int) =~= escape_attr_spec(rest) + y);
        if c == '&' {
            assert(x.take(5) =~= seq!['&', 'a', 'm', 'p', ';']);
        } else if c == '<' {
            assert(x.take(4) =~= seq!['&', 'l', 't', ';']);
            if x.len() >= 5 {
                assert(x.take(5)[1] == 'l');
            }
        } else if c == '>' {
            assert(x.take(4) =~= seq!['&', 'g', 't', ';']);
            if x.len() >= 5 {
                assert(x.take(5)[1] == 'g');
            }
            assert(x.take(4)[1] == 'g');
        } else if c == '"' {
            assert(x.take(6) =~= seq!['&', 'q', 'u', 'o', 't', ';']);
            assert(x.take(5)[1] == 'q');
            assert(x.take(4)[1] == 'q');
        } else {
            assert(x[0] == c);
            if x.len() >= 4 {
                assert(x.take(4)[0] == c);
            }
            if x.len() >= 5 {
                assert(x.take(5)[0] == c);
            }
            if x.len() >= 6 {
                assert(x.take(6)[0] == c);
            }
            assert(x.drop_first() =~= escape_attr_spec(rest) + y);
        }
        assert(seq![c] + (rest + html_text(y)) =~= t + html_text(y));
    }
}

/// Decoding escaped text gives back the text.
pub proof fn lemma_escape_html_decodes(t: Seq<char>)
    ensures
        html_text(escape_html_spec(t)) == t,
{
    lemma_escaped_text(t, seq![]);
    assert(escape_html_spec(t) + Seq::<char>::empty() =~= escape_html_spec(t));
    assert(t + Seq::<char>::empty() =~= t);
}

/// A character reference to `&`, `<` or `>` starts at position `i` of `r`.
pub open spec fn reference_at(r: Seq<char>, i: int) -> bool {
    ||| i + 5 <= r.len() && r.subrange(i, i + 5) == "&amp;"@
    ||| i + 4 <= r.len() && r.subrange(i, i + 4) == "&lt;"@
    ||| i + 4 <= r.len() && r.subrange(i, i + 4) == "&gt;"@
}

proof fn lemma_reference_prefix(a: Seq<char>, b: Seq<char>, i: int)
    requires
        0 <= i < a.len(),
        reference_at(a, i),
    ensures
        reference_at(a + b, i),
{
    let r = a + b;
    if i + 5 <= a.len() && a.subrange(i, i + 5) == "&amp;"@ {
        assert(r.subrange(i, i + 5) =~= a.subrange(i, i + 5));
    } else if i + 4 <= a.len() && a.subrange(i, i + 4) == "&lt;"@ {
        assert(r.subrange(i, i + 4) =~= a.subrange(i, i + 4));
    } else {
        assert(r.subrange(i, i + 4) =~= a.subrange(i, i + 4));
    }
}

/// Every `&` in escaped text starts a character reference to `&`, `<` or `>`.
pub proof fn lemma_escape_html_ampersands(t: Seq<char>)
    ensures
        forall|i: int|
            0 <= i < escape_html_spec(t).len() && #[trigger] escape_html_spec(t)[i] == '&'
                ==> reference_at(escape_html_spec(t), i),
    decreases t.len(),
{
    if t.len() > 0 {
        lemma_escape_html_ampersands(t.drop_last());
        let a = escape_html_spec(t.drop_last());
        let c = t.last();
        let b = html_char_spec(c);
        let r = a + b;
        assert(escape_html_spec(t) == r);
        reveal_strlit("&amp;");
        reveal_strlit("&lt;");
        reveal_strlit("&gt;");
        assert forall|i: int| 0 <= i < r.len() && #[trigger] r[i] == '&' implies reference_at(
            r,
            i,
        ) by {
            if i < a.len() {
                assert(a[i] == '&');
                lemma_reference_prefix(a, b, i);
            } else {
                assert(r[i] == b[i - a.len()]);
                assert(i == a.len());
                assert(r.subrange(i, r.len() as int) =~= b);
                if c == '&' {
                    assert(r.subrange(i, i + 5) =~= b);
                } else {
                    assert(r.subrange(i, i + 4) =~= b);
                }
            }
        }
    }
}

/// Decoding an escaped attribute value gives back the value: the address in an
/// `href` or `src`, and the alternative text in an `alt`, are the node's own.
pub proof fn lemma_escape_attr_decodes(t: Seq<char>)
    ensures
        html_text(escape_attr_spec(t)) == t,
{
    lemma_escaped_attr(t, seq![]);
    assert(escape_attr_spec(t) + Seq::<char>::empty() =~= escape_attr_spec(t));
    assert(t + Seq::<char>::empty() =~= t);
}

/// An attribute value without `&`, `<`, `>` and `"` is left as it is.
pub proof fn lemma_escape_attr_plain(s: Seq<char>)
    requires
        forall|i: int|
            0 <= i < s.len() ==> #[trigger] s[i] != '&' && s[i] != '<' && s[i] != '>' && s[i]
                != '"',
    ensures
        escape_attr_spec(s) == s,
    decreases s.len(),
{
    if s.len() > 0 {
        lemma_escape_attr_plain(s.drop_last());
        assert(s.drop_last().push(s.last()) =~= s);
    }
}


/// The text of a node: what a reader of its HTML sees.  Markup shows nothing, an
/// image shows nothing of its attributes, a table its header cells and then its rows.
pub open spec fn node_text(n: SpecNode) -> Seq<char>
    decreases n,
{
    match n {
        SpecNode::Text(t) => t,
        SpecNode::Paragraph(c) => seq_text(c),
        SpecNode::Heading { content, .. } => seq_text(content),
        SpecNode::Strong(c) => seq_text(c),
        SpecNode::Emphasis(c) => seq_text(c),
        SpecNode::Strikethrough(c) => seq_text(c),
        SpecNode::BlockQuote(c) => seq_text(c),
        SpecNode::InlineCode(code) => code,
        SpecNode::CodeBlock { content, .. } => content,
        SpecNode::UnorderedList(items) => items_text(items),
        SpecNode::OrderedList(items) => items_text(items),
        SpecNode::Link { text, .. } => seq_text(text),
        SpecNode::Table { headers, rows } => items_text(headers) + rows_text(rows),
        SpecNode::EscapedChar(c) => seq![c],
        _ => seq![],
    }
}

/// The text of nodes, one after the other.
pub open spec fn seq_text(s: Seq<SpecNode>) -> Seq<char>
    decreases s,
{
    if s.len() == 0 {
        seq![]
    } else {
        seq_text(s.drop_last()) + node_text(s.last())
    }
}

/// The text of node lists (list items, table cells), one after the other.
pub open spec fn items_text(s: Seq<Seq<SpecNode>>) -> Seq<char>
    decreases s,
{
    if s.len() == 0 {
        seq![]
    } else {
        items_text(s.drop_last()) + seq_text(s.last())
    }
}

/// The text of table rows, one after the other.
pub open spec fn rows_text(s: Seq<Seq<Seq<SpecNode>>>) -> Seq<char>
    decreases s,
{
    if s.len() == 0 {
        seq![]
    } else {
        rows_text(s.drop_last()) + items_text(s.last())
    }
}

/// A node that holds no raw HTML and no escaped `<` or `&`: its HTML is markup
/// around escaped text.
pub open spec fn node_plain(n: SpecNode) -> bool
    decreases n,
{
    match n {
        SpecNode::Paragraph(c) => seq_plain(c),
        SpecNode::Heading { content, .. } => seq_plain(content),
        SpecNode::Strong(c) => seq_plain(c),
        SpecNode::Emphasis(c) => seq_plain(c),
        SpecNode::Strikethrough(c) => seq_plain(c),
        SpecNode::BlockQuote(c) => seq_plain(c),
        SpecNode::UnorderedList(items) => items_plain(items),
        SpecNode::OrderedList(items) => items_plain(items),
        SpecNode::Link { text, .. } => seq_plain(text),
        SpecNode::Table { headers, rows } => items_plain(headers) && rows_plain(rows),
        SpecNode::Html(_) => false,
        SpecNode::EscapedChar(c) => c != '<' && c != '&',
        _ => true,
    }
}

/// Nodes that hold no raw HTML and no escaped `<` or `&`.
pub open spec fn seq_plain(s: Seq<SpecNode>) -> bool
    decreases s,
{
    s.len() == 0 || (seq_plain(s.drop_last()) && node_plain(s.last()))
}

/// Node lists that hold no raw HTML and no escaped `<` or `&`.
pub open spec fn items_plain(s: Seq<Seq<SpecNode>>) -> bool
    decreases s,
{
    s.len() == 0 || (items_plain(s.drop_last()) && seq_plain(s.last()))
}

/// Table rows that hold no raw HTML and no escaped `<` or `&`.
pub open spec fn rows_plain(s: Seq<Seq<Seq<SpecNode>>>) -> bool
    decreases s,
{
    s.len() == 0 || (rows_plain(s.drop_last()) && items_plain(s.last()))
}

/// Markup, something that shows `t`, and markup show `t`.
proof fn lemma_wrapped(open: Seq<char>, inner: Seq<char>, close: Seq<char>, y: Seq<char>, t: Seq<char>)
    requires
        markup_only(open),
        markup_only(close),
        html_text(inner + (close + y)) == t + html_text(close + y),
    ensures
        html_text(open + inner + close + y) == t + html_text(y),
{
    assert(open + inner + close + y =~= open + (inner + (close + y)));
    lemma_markup(open, inner + (close + y));
    lemma_markup(close, y);
}

proof fn lemma_literal_markup_a()
    ensures
        markup_only("<p>"@),
        markup_only("</p>"@),
        markup_only("<strong>"@),
        markup_only("</strong>"@),
        markup_only("<em>"@),
        markup_only("</em>"@),
        markup_only("<del>"@),
        markup_only("</del>"@),
        markup_only("<code>"@),
        markup_only("</code>"@),
{
    reveal_with_fuel(markup_only, 2);
    reveal_with_fuel(tag_end, 12);
    reveal_strlit("<p>");
    reveal_strlit("</p>");
    reveal_strlit("<strong>");
    reveal_strlit("</strong>");
    reveal_strlit("<em>");
    reveal_strlit("</em>");
    reveal_strlit("<del>");
    reveal_strlit("</del>");
    reveal_strlit("<code>");
    reveal_strlit("</code>");
}

proof fn lemma_literal_markup_b()
    ensures
        markup_only("<blockquote>"@),
        markup_only("</blockquote>"@),
        markup_only("<ul>"@),
        markup_only("</ul>"@),
        markup_only("<ol>"@),
        markup_only("</ol>"@),
        markup_only("<li>"@),
        markup_only("</li>"@),
        markup_only("<br>"@),
        markup_only("<hr>"@),
        markup_only("</a>"@),
{
    reveal_with_fuel(markup_only, 2);
    reveal_with_fuel(tag_end, 16);
    reveal_strlit("<blockquote>");
    reveal_strlit("</blockquote>");
    reveal_strlit("<ul>");
    reveal_strlit("</ul>");
    reveal_strlit("<ol>");
    reveal_strlit("</ol>");
    reveal_strlit("<li>");
    reveal_strlit("</li>");
    reveal_strlit("<br>");
    reveal_strlit("<hr>");
    reveal_strlit("</a>");
}

proof fn lemma_literal_markup_c()
    ensures
        markup_only("<th>"@),
        markup_only("</th>"@),
        markup_only("<td>"@),
        markup_only("</td>"@),
        markup_only("<tr>"@),
        markup_only("</tr>"@),
        markup_only("<pre><code>"@),
        markup_only("</code></pre>"@),
        markup_only("<table><thead><tr>"@),
        markup_only("</tr></thead><tbody>"@),
        markup_only("</tbody></table>"@),
        markup_only("<pre>"@),
{
    reveal_with_fuel(markup_only, 4);
    reveal_with_fuel(tag_end, 12);
    reveal_strlit("<th>");
    reveal_strlit("</th>");
    reveal_strlit("<td>");
    reveal_strlit("</td>");
    reveal_strlit("<tr>");
    reveal_strlit("</tr>");
    reveal_strlit("<pre><code>");
    reveal_strlit("</code></pre>");
    reveal_strlit("<table><thead><tr>");
    reveal_strlit("</tr></thead><tbody>");
    reveal_strlit("</tbody></table>");
    reveal_strlit("<pre>");
}

proof fn lemma_decimal_no_gt(n: nat)
    ensures
        forall|k: int| 0 <= k < decimal(n).len() ==> #[trigger] decimal(n)[k] != '>' && decimal(
            n,
        )[k] != '&',
        decimal(n).len() >= 1,
    decreases n,
{
    if n >= 10 {
        lemma_decimal_no_gt(n / 10);
    }
    assert forall|k: int| 0 <= k < decimal(n).len() implies #[trigger] decimal(n)[k] != '>'
        && decimal(n)[k] != '&' by {
        if n >= 10 && k < decimal(n / 10).len() {
        } else {
            let d: nat = if n < 10 {
                n
            } else {
                n % 10
            };
            assert(decimal(n)[k] == digit_char(d));
            assert((48 + d) as char != '>' && (48 + d) as char != '&');
        }
    }
}

/// A tag made of a literal start, a value without `>`, and a literal end.
proof fn lemma_tag_with_value(pre: Seq<char>, a: Seq<char>, post: Seq<char>)
    requires
        pre.len() >= 1,
        pre[0] == '<',
        no_gt(pre.drop_first()),
        forall|k: int| 0 <= k < a.len() ==> #[trigger] a[k] != '>',
        post.len() >= 1,
        post[post.len() - 1] == '>',
        no_gt(post.drop_last()),
    ensures
        markup_only(pre + a + post),
{
    lemma_no_gt(pre.drop_first());
    lemma_no_gt(post.drop_last());
    let x = pre + a + post;
    assert forall|k: int| 1 <= k < x.len() - 1 implies #[trigger] x[k] != '>' by {
        if k < pre.len() {
            assert(x[k] == pre.drop_first()[k - 1]);
        } else if k < pre.len() + a.len() {
            assert(x[k] == a[k - pre.len()]);
        } else {
            assert(x[k] == post.drop_last()[k - pre.len() - a.len()]);
        }
    }
    lemma_single_tag(x);
}

proof fn lemma_link_open(a: Seq<char>)
    ensures
        markup_only("<a href=\""@ + escape_attr_spec(a) + "\">"@),
{
    lemma_escape_attr_closed(a);
    assert(no_gt("<a href=\""@.drop_first()) && no_gt("\">"@.drop_last())) by {
        reveal_strlit("<a href=\"");
        reveal_strlit("\">");
        reveal_with_fuel(no_gt, 10);
    }
    reveal_strlit("<a href=\"");
    reveal_strlit("\">");
    lemma_tag_with_value("<a href=\""@, escape_attr_spec(a), "\">"@);
}

proof fn lemma_image_tag(u: Seq<char>, alt: Seq<char>)
    ensures
        markup_only("<img src=\""@ + escape_attr_spec(u) + "\" alt=\""@ + escape_attr_spec(alt)
            + "\" />"@),
{
    lemma_escape_attr_closed(u);
    lemma_escape_attr_closed(alt);
    let mid = "\" alt=\""@;
    assert(no_gt("<img src=\""@.drop_first()) && no_gt("\" />"@.drop_last()) && no_gt(mid))
        by {
        reveal_strlit("<img src=\"");
        reveal_strlit("\" />");
        reveal_strlit("\" alt=\"");
        reveal_with_fuel(no_gt, 11);
    }
    lemma_no_gt(mid);
    let v = escape_attr_spec(u) + mid + escape_attr_spec(alt);
    assert forall|k: int| 0 <= k < v.len() implies #[trigger] v[k] != '>' by {
        if k < escape_attr_spec(u).len() {
        } else if k < escape_attr_spec(u).len() + mid.len() {
            assert(v[k] == mid[k - escape_attr_spec(u).len()]);
        } else {
            assert(v[k] == escape_attr_spec(alt)[k - escape_attr_spec(u).len() - mid.len()]);
        }
    }
    reveal_strlit("<img src=\"");
    reveal_strlit("\" />");
    lemma_tag_with_value("<img src=\""@, v, "\" />"@);
    assert("<img src=\""@ + v + "\" />"@ =~= "<img src=\""@ + escape_attr_spec(u) + "\" alt=\""@
        + escape_attr_spec(alt) + "\" />"@);
}

proof fn lemma_code_open(language: Option<Seq<char>>)
    ensures
        markup_only(code_open_spec(language)),
{
    lemma_literal_markup_c();
    if let Some(l) = language {
        let pre = "<code class=\"language-"@;
        lemma_escape_attr_closed(l);
        assert(no_gt(pre.drop_first()) && no_gt("\">"@.drop_last())) by {
            reveal_strlit("<code class=\"language-");
            reveal_strlit("\">");
            reveal_with_fuel(no_gt, 25);
        }
        reveal_strlit("<code class=\"language-");
        reveal_strlit("\">");
        reveal_strlit("<pre><code class=\"language-");
        reveal_strlit("<pre>");
        lemma_tag_with_value(pre, escape_attr_spec(l), "\">"@);
        lemma_markup_concat("<pre>"@, pre + escape_attr_spec(l) + "\">"@);
        assert("<pre><code class=\"language-"@ =~= "<pre>"@ + pre);
        assert(code_open_spec(language) =~= "<pre>"@ + (pre + escape_attr_spec(l) + "\">"@));
    }
}

proof fn lemma_heading_tags(level: u8)
    ensures
        markup_only("<h"@ + decimal(level as nat) + ">"@),
        markup_only("</h"@ + decimal(level as nat) + ">"@),
{
    lemma_decimal_no_gt(level as nat);
    reveal_strlit("<h");
    reveal_strlit("</h");
    reveal_strlit(">");
    assert(no_gt("<h"@.drop_first()) && no_gt("</h"@.drop_first()) && no_gt(">"@.drop_last())) by {
        reveal_with_fuel(no_gt, 3);
    }
    lemma_tag_with_value("<h"@, decimal(level as nat), ">"@);
    lemma_tag_with_value("</h"@, decimal(level as nat), ">"@);
}

/// The HTML of a node that holds no raw HTML shows the node's text.
#[verifier::spinoff_prover]
#[verifier::rlimit(100)]
pub proof fn lemma_node_shows_text(n: SpecNode, y: Seq<char>)
    requires
        node_plain(n),
    ensures
        html_text(gen_node_spec(n) + y) == node_text(n) + html_text(y),
    decreases n,
{
    match n {
        SpecNode::Text(t) => {
            lemma_escaped_text(t, y);
        },
        SpecNode::Paragraph(c) => {
            lemma_literal_markup_a();
            lemma_seq_shows_text(c, "</p>"@ + y);
            lemma_wrapped("<p>"@, gen_seq_spec(c), "</p>"@, y, seq_text(c));
        },
        SpecNode::Heading { level, content } => {
            lemma_heading_tags(level);
            let open = "<h"@ + decimal(level as nat) + ">"@;
            let close = "</h"@ + decimal(level as nat) + ">"@;
            lemma_seq_shows_text(content, close + y);
            lemma_wrapped(open, gen_seq_spec(content), close, y, seq_text(content));
            assert(gen_node_spec(n) =~= open + gen_seq_spec(content) + close);
        },
        SpecNode::Strong(c) => {
            lemma_literal_markup_a();
            lemma_seq_shows_text(c, "</strong>"@ + y);
            lemma_wrapped("<strong>"@, gen_seq_spec(c), "</strong>"@, y, seq_text(c));
        },
        SpecNode::Emphasis(c) => {
            lemma_literal_markup_a();
            lemma_seq_shows_text(c, "</em>"@ + y);
            lemma_wrapped("<em>"@, gen_seq_spec(c), "</em>"@, y, seq_text(c));
        },
        SpecNode::Strikethrough(c) => {
            lemma_literal_markup_a();
            lemma_seq_shows_text(c, "</del>"@ + y);
            lemma_wrapped("<del>"@, gen_seq_spec(c), "</del>"@, y, seq_text(c));
        },
        SpecNode::BlockQuote(c) => {
            lemma_literal_markup_b();
            lemma_seq_shows_text(c, "</blockquote>"@ + y);
            lemma_wrapped("<blockquote>"@, gen_seq_spec(c), "</blockquote>"@, y, seq_text(c));
        },
        SpecNode::InlineCode(code) => {
            lemma_literal_markup_a();
            lemma_escaped_text(code, "</code>"@ + y);
            lemma_wrapped("<code>"@, escape_html_spec(code), "</code>"@, y, code);
        },
        SpecNode::CodeBlock { language, content } => {
            lemma_literal_markup_c();
            lemma_code_open(language);
            lemma_escaped_text(content, "</code></pre>"@ + y);
            lemma_wrapped(
                code_open_spec(language),
                escape_html_spec(content),
                "</code></pre>"@,
                y,
                content,
            );
        },
        SpecNode::UnorderedList(items) => {
            lemma_literal_markup_b();
            lemma_items_shows_text(items, "</ul>"@ + y);
            lemma_wrapped("<ul>"@, gen_items_spec(items), "</ul>"@, y, items_text(items));
        },
        SpecNode::OrderedList(items) => {
            lemma_literal_markup_b();
            lemma_items_shows_text(items, "</ol>"@ + y);
            lemma_wrapped("<ol>"@, gen_items_spec(items), "</ol>"@, y, items_text(items));
        },
        SpecNode::Link { text, url, .. } => {
            lemma_literal_markup_b();
            lemma_link_open(url);
            let open = "<a href=\""@ + escape_attr_spec(url) + "\">"@;
            lemma_seq_shows_text(text, "</a>"@ + y);
            lemma_wrapped(open, gen_seq_spec(text), "</a>"@, y, seq_text(text));
            assert(gen_node_spec(n) =~= open + gen_seq_spec(text) + "</a>"@);
        },
        SpecNode::Image { alt, url, .. } => {
            lemma_image_tag(url, alt);
            lemma_markup(gen_node_spec(n), y);
            assert(Seq::<char>::empty() + html_text(y) =~= html_text(y));
        },
        SpecNode::Table { headers, rows } => {
            lemma_literal_markup_c();
            let a = "<table><thead><tr>"@;
            let b = "</tr></thead><tbody>"@;
            let c = "</tbody></table>"@;
            let gc = gen_cells_spec(headers, true);
            let gr = gen_rows_spec(rows);
            assert(gen_node_spec(n) + y =~= a + (gc + (b + (gr + (c + y)))));
            lemma_markup(a, gc + (b + (gr + (c + y))));
            lemma_cells_shows_text(headers, true, b + (gr + (c + y)));
            lemma_markup(b, gr + (c + y));
            lemma_rows_shows_text(rows, c + y);
            lemma_markup(c, y);
            assert(items_text(headers) + (rows_text(rows) + html_text(y)) =~= items_text(headers)
                + rows_text(rows) + html_text(y));
        },
        SpecNode::EscapedChar(c) => {
            let x = seq![c] + y;
            assert(x[0] == c);
            if x.len() >= 4 {
                assert(x.take(4)[0] == c);
            }
            if x.len() >= 5 {
                assert(x.take(5)[0] == c);
            }
            if x.len() >= 6 {
                assert(x.take(6)[0] == c);
            }
            assert(x.drop_first() =~= y);
        },
        SpecNode::SoftBreak => {
            lemma_literal_markup_b();
            lemma_markup("<br>"@, y);
            assert(Seq::<char>::empty() + html_text(y) =~= html_text(y));
        },
        SpecNode::LineBreak => {
            lemma_literal_markup_b();
            lemma_markup("<br>"@, y);
            assert(Seq::<char>::empty() + html_text(y) =~= html_text(y));
        },
        SpecNode::HorizontalRule => {
            lemma_literal_markup_b();
            lemma_markup("<hr>"@, y);
            assert(Seq::<char>::empty() + html_text(y) =~= html_text(y));
        },
        SpecNode::Html(_) => {},
    }
}

/// The HTML of nodes that hold no raw HTML shows their text.
#[verifier::spinoff_prover]
#[verifier::rlimit(60)]
pub proof fn lemma_seq_shows_text(s: Seq<SpecNode>, y: Seq<char>)
    requires
        seq_plain(s),
    ensures
        html_text(gen_seq_spec(s) + y) == seq_text(s) + html_text(y),
    decreases s,
{
    if s.len() == 0 {
        assert(gen_seq_spec(s) + y =~= y);
        assert(seq_text(s) + html_text(y) =~= html_text(y));
    } else {
        let init = s.drop_last();
        let last = s.last();
        lemma_node_shows_text(last, y);
        lemma_seq_shows_text(init, gen_node_spec(last) + y);
        assert(gen_seq_spec(s) + y =~= gen_seq_spec(init) + (gen_node_spec(last) + y));
        assert(seq_text(init) + (node_text(last) + html_text(y)) =~= seq_text(init) + node_text(
            last,
        ) + html_text(y));
    }
}

/// The HTML of list items that hold no raw HTML shows their text.
#[verifier::spinoff_prover]
#[verifier::rlimit(60)]
pub proof fn lemma_items_shows_text(s: Seq<Seq<SpecNode>>, y: Seq<char>)
    requires
        items_plain(s),
    ensures
        html_text(gen_items_spec(s) + y) == items_text(s) + html_text(y),
    decreases s,
{
    lemma_literal_markup_b();
    if s.len() == 0 {
        assert(gen_items_spec(s) + y =~= y);
        assert(items_text(s) + html_text(y) =~= html_text(y));
    } else {
        let init = s.drop_last();
        let last = s.last();
        let z = "<li>"@ + gen_seq_spec(last) + "</li>"@ + y;
        lemma_seq_shows_text(last, "</li>"@ + y);
        lemma_wrapped("<li>"@, gen_seq_spec(last), "</li>"@, y, seq_text(last));
        lemma_items_shows_text(init, z);
        assert(gen_items_spec(s) + y =~= gen_items_spec(init) + z);
        assert(items_text(init) + (seq_text(last) + html_text(y)) =~= items_text(init) + seq_text(
            last,
        ) + html_text(y));
    }
}

/// The HTML of table cells that hold no raw HTML shows their text.
#[verifier::spinoff_prover]
#[verifier::rlimit(60)]
pub proof fn lemma_cells_shows_text(s: Seq<Seq<SpecNode>>, header: bool, y: Seq<char>)
    requires
        items_plain(s),
    ensures
        html_text(gen_cells_spec(s, header) + y) == items_text(s) + html_text(y),
    decreases s,
{
    lemma_literal_markup_c();
    if s.len() == 0 {
        assert(gen_cells_spec(s, header) + y =~= y);
        assert(items_text(s) + html_text(y) =~= html_text(y));
    } else {
        let init = s.drop_last();
        let last = s.last();
        let open = if header {
            "<th>"@
        } else {
            "<td>"@
        };
        let close = if header {
            "</th>"@
        } else {
            "</td>"@
        };
        let z = open + gen_seq_spec(last) + close + y;
        lemma_seq_shows_text(last, close + y);
        lemma_wrapped(open, gen_seq_spec(last), close, y, seq_text(last));
        lemma_cells_shows_text(init, header, z);
        assert(gen_cells_spec(s, header) + y =~= gen_cells_spec(init, header) + z);
        assert(items_text(init) + (seq_text(last) + html_text(y)) =~= items_text(init) + seq_text(
            last,
        ) + html_text(y));
    }
}

/// The HTML of table rows that hold no raw HTML shows their text.
#[verifier::spinoff_prover]
#[verifier::rlimit(60)]
pub proof fn lemma_rows_shows_text(s: Seq<Seq<Seq<SpecNode>>>, y: Seq<char>)
    requires
        rows_plain(s),
    ensures
        html_text(gen_rows_spec(s) + y) == rows_text(s) + html_text(y),
    decreases s,
{
    lemma_literal_markup_c();
    if s.len() == 0 {
        assert(gen_rows_spec(s) + y =~= y);
        assert(rows_text(s) + html_text(y) =~= html_text(y));
    } else {
        let init = s.drop_last();
        let last = s.last();
        let z = "<tr>"@ + gen_cells_spec(last, false) + "</tr>"@ + y;
        lemma_cells_shows_text(last, false, "</tr>"@ + y);
        lemma_wrapped("<tr>"@, gen_cells_spec(last, false), "</tr>"@, y, items_text(last));
        lemma_rows_shows_text(init, z);
        assert(gen_rows_spec(s) + y =~= gen_rows_spec(init) + z);
        assert(rows_text(init) + (items_text(last) + html_text(y)) =~= rows_text(init) + items_text(
            last,
        ) + html_text(y));
    }
}

/// Stripping the tags from a document's HTML and decoding its character references
/// gives back the document's text, wherever the document holds no raw HTML.
pub proof fn lemma_document_html_shows_text(doc: Seq<SpecNode>)
    requires
        seq_plain(doc),
    ensures
        html_text(gen_seq_spec(doc)) == seq_text(doc),
{
    lemma_seq_shows_text(doc, seq![]);
    assert(gen_seq_spec(doc) + Seq::<char>::empty() =~= gen_seq_spec(doc));
    assert(seq_text(doc) + Seq::<char>::empty() =~= seq_text(doc));
}

/// The character reference to `&`, `<` or `>` at the start of `s`, if there is
/// one: the character it stands for and its length.
pub open spec fn char_ref3(s: Seq<char>) -> Option<(char, int)> {
    if s.len() >= 5 && s.take(5) == seq!['&', 'a', 'm', 'p', ';'] {
        Some(('&', 5))
    } else if s.len() >= 4 && s.take(4) == seq!['&', 'l', 't', ';'] {
        Some(('<', 4))
    } else if s.len() >= 4 && s.take(4) == seq!['&', 'g', 't', ';'] {
        Some(('>', 4))
    } else {
        None
    }
}

/// The text that HTML `s` shows where only `&amp;`, `&lt;` and `&gt;` are decoded.
pub open spec fn html_text3(s: Seq<char>) -> Seq<char>
    decreases s.len(),
{
    if s.len() == 0 {
        seq![]
    } else if s[0] == '<' {
        if 1 <= tag_end(s, 1) <= s.len() {
            html_text3(s.skip(tag_end(s, 1)))
        } else {
            seq![]
        }
    } else {
        match char_ref3(s) {
            Some((c, k)) => seq![c] + html_text3(s.skip(k)),
            None => seq![s[0]] + html_text3(s.drop_first()),
        }
    }
}

/// Every `&` in `s` starts a character reference to `&`, `<` or `>`.
pub open spec fn refs_whole(s: Seq<char>) -> bool {
    forall|i: int| 0 <= i < s.len() && #[trigger] s[i] == '&' ==> reference_at(s, i)
}

proof fn lemma_refs_whole_skip(s: Seq<char>, k: int)
    requires
        refs_whole(s),
        0 <= k <= s.len(),
    ensures
        refs_whole(s.skip(k)),
{
    let u = s.skip(k);
    assert forall|i: int| 0 <= i < u.len() && #[trigger] u[i] == '&' implies reference_at(u, i) by {
        assert(s[k + i] == '&');
        assert(reference_at(s, k + i));
        if k + i + 5 <= s.len() {
            assert(u.subrange(i, i + 5) =~= s.subrange(k + i, k + i + 5));
        }
        if k + i + 4 <= s.len() {
            assert(u.subrange(i, i + 4) =~= s.subrange(k + i, k + i + 4));
        }
    }
}

proof fn lemma_refs_whole_concat(a: Seq<char>, b: Seq<char>)
    requires
        refs_whole(a),
        refs_whole(b),
    ensures
        refs_whole(a + b),
{
    let r = a + b;
    assert forall|i: int| 0 <= i < r.len() && #[trigger] r[i] == '&' implies reference_at(r, i) by {
        if i < a.len() {
            assert(a[i] == '&');
            lemma_reference_prefix(a, b, i);
        } else {
            let j = i - a.len();
            assert(b[j] == '&');
            assert(reference_at(b, j));
            if j + 5 <= b.len() {
                assert(r.subrange(i, i + 5) =~= b.subrange(j, j + 5));
            }
            if j + 4 <= b.len() {
                assert(r.subrange(i, i + 4) =~= b.subrange(j, j + 4));
            }
        }
    }
}

/// Where every `&` starts a reference to `&`, `<` or `>`, decoding these three
/// alone shows the same text as decoding `&quot;` too.
pub proof fn lemma_html_text3(s: Seq<char>)
    requires
        refs_whole(s),
    ensures
        html_text3(s) == html_text(s),
    decreases s.len(),
{
    reveal_strlit("&amp;");
    reveal_strlit("&lt;");
    reveal_strlit("&gt;");
    if s.len() > 0 {
        if s[0] == '<' {
            if 1 <= tag_end(s, 1) <= s.len() {
                lemma_refs_whole_skip(s, tag_end(s, 1));
                lemma_html_text3(s.skip(tag_end(s, 1)));
            }
        } else {
            if s[0] == '&' {
                assert(reference_at(s, 0));
                if s.len() >= 6 {
                    assert(s.take(6)[1] == s[1]);
                    if s.len() >= 5 && s.subrange(0, 5) == "&amp;"@ {
                        assert(s.subrange(0, 5)[1] == s[1]);
                    } else {
                        assert(s.subrange(0, 4)[1] == s[1]);
                    }
                    assert(s.take(6) != seq!['&', 'q', 'u', 'o', 't', ';']);
                }
                if s.len() >= 5 && s.subrange(0, 5) == "&amp;"@ {
                    assert(s.take(5) =~= seq!['&', 'a', 'm', 'p', ';']);
                } else if s.subrange(0, 4) == "&lt;"@ {
                    assert(s.take(4) =~= seq!['&', 'l', 't', ';']);
                } else {
                    assert(s.take(4) =~= seq!['&', 'g', 't', ';']);
                }
            } else {
                if s.len() >= 4 {
                    assert(s.take(4)[0] == s[0]);
                }
                if s.len() >= 5 {
                    assert(s.take(5)[0] == s[0]);
                }
                if s.len() >= 6 {
                    assert(s.take(6)[0] == s[0]);
                }
            }
            match char_ref3(s) {
                Some((c, k)) => {
                    lemma_refs_whole_skip(s, k);
                    lemma_html_text3(s.skip(k));
                },
                None => {
                    lemma_refs_whole_skip(s, 1);
                    assert(s.skip(1) =~= s.drop_first());
                    lemma_html_text3(s.drop_first());
                },
            }
        }
    }
}

/// Text without `&` holds no `&` that could start anything.
proof fn lemma_no_amp(s: Seq<char>)
    requires
        forall|i: int| 0 <= i < s.len() ==> #[trigger] s[i] != '&',
    ensures
        refs_whole(s),
{
}

proof fn lemma_literal_refs()
    ensures
        refs_whole("<p>"@),
        refs_whole("</p>"@),
        refs_whole("<strong>"@),
        refs_whole("</strong>"@),
        refs_whole("<em>"@),
        refs_whole("</em>"@),
        refs_whole("<del>"@),
        refs_whole("</del>"@),
        refs_whole("<code>"@),
        refs_whole("</code>"@),
        refs_whole("<blockquote>"@),
        refs_whole("</blockquote>"@),
        refs_whole("<h"@),
        refs_whole("</h"@),
        refs_whole(">"@),
{
    reveal_strlit("<p>");
    reveal_strlit("</p>");
    reveal_strlit("<strong>");
    reveal_strlit("</strong>");
    reveal_strlit("<em>");
    reveal_strlit("</em>");
    reveal_strlit("<del>");
    reveal_strlit("</del>");
    reveal_strlit("<code>");
    reveal_strlit("</code>");
    reveal_strlit("<blockquote>");
    reveal_strlit("</blockquote>");
    reveal_strlit("<h");
    reveal_strlit("</h");
    reveal_strlit(">");
}

/// A node of the kinds that hold text and inline markup alone: text, inline code,
/// paragraphs, headings, quotes, strong, emphasis and strikethrough.
pub open spec fn simple_node(n: SpecNode) -> bool
    decreases n,
{
    match n {
        SpecNode::Text(_) => true,
        SpecNode::InlineCode(_) => true,
        SpecNode::Paragraph(c) => simple_seq(c),
        SpecNode::Heading { content, .. } => simple_seq(content),
        SpecNode::BlockQuote(c) => simple_seq(c),
        SpecNode::Strong(c) => simple_seq(c),
        SpecNode::Emphasis(c) => simple_seq(c),
        SpecNode::Strikethrough(c) => simple_seq(c),
        _ => false,
    }
}

/// Nodes of the kinds `simple_node` admits.
pub open spec fn simple_seq(s: Seq<SpecNode>) -> bool
    decreases s,
{
    s.len() == 0 || (simple_seq(s.drop_last()) && simple_node(s.last()))
}

proof fn lemma_wrapped_refs(open: Seq<char>, inner: Seq<char>, close: Seq<char>)
    requires
        refs_whole(open),
        refs_whole(inner),
        refs_whole(close),
    ensures
        refs_whole(open + inner + close),
{
    lemma_refs_whole_concat(open, inner);
    lemma_refs_whole_concat(open + inner, close);
}

proof fn lemma_simple_node_refs(n: SpecNode)
    requires
        simple_node(n),
    ensures
        node_plain(n),
        refs_whole(gen_node_spec(n)),
    decreases n,
{
    lemma_literal_refs();
    match n {
        SpecNode::Text(t) => {
            lemma_escape_html_ampersands(t);
        },
        SpecNode::InlineCode(t) => {
            lemma_escape_html_ampersands(t);
            lemma_wrapped_refs("<code>"@, escape_html_spec(t), "</code>"@);
        },
        SpecNode::Paragraph(c) => {
            lemma_simple_seq_refs(c);
            lemma_wrapped_refs("<p>"@, gen_seq_spec(c), "</p>"@);
        },
        SpecNode::Heading { level, content } => {
            lemma_simple_seq_refs(content);
            lemma_decimal_no_gt(level as nat);
            let d = decimal(level as nat);
            lemma_no_amp(d);
            lemma_wrapped_refs("<h"@, d, ">"@);
            lemma_wrapped_refs("</h"@, d, ">"@);
            lemma_wrapped_refs("<h"@ + d + ">"@, gen_seq_spec(content), "</h"@ + d + ">"@);
            assert(gen_node_spec(n) =~= "<h"@ + d + ">"@ + gen_seq_spec(content) + ("</h"@ + d
                + ">"@));
        },
        SpecNode::BlockQuote(c) => {
            lemma_simple_seq_refs(c);
            lemma_wrapped_refs("<blockquote>"@, gen_seq_spec(c), "</blockquote>"@);
        },
        SpecNode::Strong(c) => {
            lemma_simple_seq_refs(c);
            lemma_wrapped_refs("<strong>"@, gen_seq_spec(c), "</strong>"@);
        },
        SpecNode::Emphasis(c) => {
            lemma_simple_seq_refs(c);
            lemma_wrapped_refs("<em>"@, gen_seq_spec(c), "</em>"@);
        },
        SpecNode::Strikethrough(c) => {
            lemma_simple_seq_refs(c);
            lemma_wrapped_refs("<del>"@, gen_seq_spec(c), "</del>"@);
        },
        _ => {},
    }
}

proof fn lemma_simple_seq_refs(s: Seq<SpecNode>)
    requires
        simple_seq(s),
    ensures
        seq_plain(s),
        refs_whole(gen_seq_spec(s)),
    decreases s,
{
    if s.len() > 0 {
        lemma_simple_seq_refs(s.drop_last());
        lemma_simple_node_refs(s.last());
        lemma_refs_whole_concat(gen_seq_spec(s.drop_last()), gen_node_spec(s.last()));
    } else {
        lemma_no_amp(gen_seq_spec(s));
    }
}

/// Deleting the tags from the HTML of text, inline code, paragraphs, headings,
/// quotes, strong, emphasis and strikethrough, and then decoding `&amp;`, `&lt;` and
/// `&gt;`, gives the texts of its text and inline-code nodes, in document order.
pub proof fn lemma_simple_node_shows_text(n: SpecNode)
    requires
        simple_node(n),
    ensures
        html_text3(gen_node_spec(n)) == node_text(n),
{
    lemma_simple_node_refs(n);
    lemma_html_text3(gen_node_spec(n));
    lemma_node_shows_text(n, seq![]);
    assert(gen_node_spec(n) + Seq::<char>::empty() =~= gen_node_spec(n));
    assert(node_text(n) + Seq::<char>::empty() =~= node_text(n));
}

} // verus!
