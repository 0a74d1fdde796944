use vstd::prelude::*;

pub mod ast;
pub mod codegen;
pub mod grammar;
pub mod html_laws;
pub mod parse_laws;
pub mod styler;
pub mod text;
pub mod token;

use crate::ast::{SpecNode, parse_tokens, try_parse_tokens};
use crate::codegen::{
    escape_html_spec, gen_node_spec, gen_seq_spec, generate_html, lemma_escape_html_append,
};
use crate::grammar::{bang_text, block_spec, document_spec, paragraph_spec, parse_spec, rule_at};
use crate::parse_laws::{
    lemma_paragraph_keeps_text, lemma_parse_markup_free, no_inline_markup, plain_text, text_only,
};
use crate::styler::{page_head, page_tail, wrap_html};
use crate::text::char_is_numeric;
use crate::token::{
    all_text, lemma_lex_closed, lemma_lex_lossless, lemma_lex_token_advances, lex_from,
    lex_spec, lex_text, lex_token, tok_text, toks_text,
};

verus! {

/// The page that `markdown` converts to, where it parses.
pub open spec fn md_to_html_spec(markdown: Seq<char>) -> Option<Seq<char>> {
    match parse_spec(lex_spec(markdown)) {
        Some(doc) => Some(page_head() + gen_seq_spec(doc) + page_tail()),
        None => None,
    }
}

/// Converts Markdown to a full HTML page: tokens, document tree, HTML, page.
pub fn md_to_html(markdown: String) -> (page: String)
    requires
        parse_spec(lex_spec(markdown@)) is Some,
    ensures
        md_to_html_spec(markdown@) == Some(page@),
{
    let tokens = lex_text(&markdown);
    let ast = parse_tokens(tokens);
    let html = generate_html(ast);
    wrap_html(html.as_str())
}

/// Whether `markdown` parses: whether `md_to_html` can be called on it.
pub fn has_parse(markdown: &String) -> (b: bool)
    ensures
        b == parse_spec(lex_spec(markdown@)) is Some,
{
    let tokens = lex_text(markdown);
    try_parse_tokens(tokens).is_some()
}

/// Converts Markdown to a full HTML page; `None` where the source does not parse.
pub fn try_md_to_html(markdown: String) -> (page: Option<String>)
    ensures
        match md_to_html_spec(markdown@) {
            Some(p) => page matches Some(s) && s@ == p,
            None => page is None,
        },
{
    if has_parse(&markdown) {
        Some(md_to_html(markdown))
    } else {
        None
    }
}

/// A character that opens inline markup: star, tilde, backtick or opening bracket.
pub open spec fn markup_char(c: char) -> bool {
    c == '*' || c == '~' || c == '`' || c == '['
}

/// Markdown with no character that opens inline markup that can be left open.
pub open spec fn plain_markdown(s: Seq<char>) -> bool {
    forall|i: int| 0 <= i < s.len() ==> !markup_char(#[trigger] s[i])
}

proof fn lemma_lex_from_plain(s: Seq<char>, p: int)
    requires
        0 <= p <= s.len(),
        forall|j: int| p <= j < s.len() ==> !markup_char(#[trigger] s[j]),
    ensures
        forall|i: int|
            0 <= i < lex_from(s, p).len() ==> no_inline_markup(#[trigger] lex_from(s, p)[i]),
    decreases s.len() - p,
{
    let all = lex_from(s, p);
    if p < s.len() {
        let (t, q) = lex_token(s, p);
        lemma_lex_token_advances(s, p);
        assert(!markup_char(s[p]));
        lemma_lex_from_plain(s, q);
        let rest = lex_from(s, q);
        assert(all == seq![t] + rest);
        assert forall|i: int| 0 <= i < all.len() implies no_inline_markup(#[trigger] all[i]) by {
            if i > 0 {
                assert(all[i] == rest[i - 1]);
            }
        }
    }
}

/// Plain Markdown always converts: text with no star, tilde, backtick or opening
/// bracket always parses and gives a page.
pub proof fn lemma_plain_markdown_converts(s: Seq<char>)
    requires
        plain_markdown(s),
    ensures
        parse_spec(lex_spec(s)) is Some,
        md_to_html_spec(s) is Some,
{
    lemma_lex_closed(s);
    lemma_lex_from_plain(s, 0);
    lemma_parse_markup_free(lex_spec(s));
}


/// One line of text: not empty, with no newline, star, tilde or backtick, no `]`
/// right before `(`, no `!` right before `[`, and not starting as a heading, rule,
/// list, quote or table does.
pub open spec fn plain_line(s: Seq<char>) -> bool {
    &&& s.len() > 0
    &&& forall|i: int|
        0 <= i < s.len() ==> #[trigger] s[i] != '\n' && s[i] != '*' && s[i] != '~' && s[i] != '`'
    &&& forall|i: int| 0 <= i < s.len() - 1 && #[trigger] s[i] == ']' ==> s[i + 1] != '('
    &&& forall|i: int| 0 <= i < s.len() - 1 && #[trigger] s[i] == '!' ==> s[i + 1] != '['
    &&& s[0] != '#' && s[0] != '-' && s[0] != '>' && s[0] != '|' && s[0] != '_' && !char_is_numeric(
        s[0],
    )
}

proof fn lemma_lex_from_text_only(s: Seq<char>, p: int)
    requires
        0 <= p <= s.len(),
        forall|i: int|
            p <= i < s.len() ==> #[trigger] s[i] != '\n' && s[i] != '*' && s[i] != '~' && s[i]
                != '`',
        forall|i: int| p <= i < s.len() - 1 && #[trigger] s[i] == ']' ==> s[i + 1] != '(',
        forall|i: int| p <= i < s.len() - 1 && #[trigger] s[i] == '!' ==> s[i + 1] != '[',
    ensures
        forall|i: int|
            0 <= i < lex_from(s, p).len() ==> !(#[trigger] lex_from(s, p)[i] is Star) && !(lex_from(
                s,
                p,
            )[i] is Tilde) && !(lex_from(s, p)[i] is Backtick) && !(lex_from(s, p)[i] is Newline),
        forall|i: int|
            0 <= i < lex_from(s, p).len() - 1 && #[trigger] lex_from(s, p)[i] is RBracket ==> !(
            lex_from(s, p)[i + 1] is LParen),
        forall|i: int|
            0 <= i < lex_from(s, p).len() - 1 && bang_text(#[trigger] lex_from(s, p)[i]) ==> !(
            lex_from(s, p)[i + 1] is LBracket),
        lex_from(s, p)[0] is LParen ==> p < s.len() && s[p] == '(',
        lex_from(s, p)[0] is LBracket ==> p < s.len() && s[p] == '[',
    decreases s.len() - p,
{
    let all = lex_from(s, p);
    if p < s.len() {
        let (t, q) = lex_token(s, p);
        lemma_lex_token_advances(s, p);
        lemma_lex_from_text_only(s, q);
        let rest = lex_from(s, q);
        assert(all == seq![t] + rest);
        assert(s[p] != '\n' && s[p] != '*' && s[p] != '~' && s[p] != '`');
        assert forall|i: int| 0 <= i < all.len() implies !(#[trigger] all[i] is Star) && !(
        all[i] is Tilde) && !(all[i] is Backtick) && !(all[i] is Newline) by {
            if i > 0 {
                assert(all[i] == rest[i - 1]);
            }
        }
        assert forall|i: int| 0 <= i < all.len() - 1 && #[trigger] all[i] is RBracket implies !(
        all[i + 1] is LParen) by {
            assert(all[i + 1] == rest[i]);
            if i > 0 {
                assert(all[i] == rest[i - 1]);
            } else {
                assert(s[p] == ']');
                assert(q == p + 1);
            }
        }
        assert forall|i: int| 0 <= i < all.len() - 1 && bang_text(#[trigger] all[i]) implies !(
        all[i + 1] is LBracket) by {
            assert(all[i + 1] == rest[i]);
            if i > 0 {
                assert(all[i] == rest[i - 1]);
            } else if rest[0] is LBracket {
                let t = all[0]->Text_0;
                assert(t == s.subrange(p, q));
                assert(t.last() == s[q - 1]);
                assert(s[q - 1] == '!' && s[q] == '[');
            }
        }
    }
}

/// A line of plain text converts to a single paragraph of text nodes whose texts,
/// one after the other, are the line: nothing of it is lost or changed, brackets,
/// parentheses and `>` included.
pub proof fn lemma_plain_line_is_one_paragraph(s: Seq<char>)
    requires
        plain_line(s),
    ensures
        parse_spec(lex_spec(s)) matches Some(doc) && (doc.len() == 1 && (doc[0] matches SpecNode::Paragraph(c)
            && (forall|i: int| 0 <= i < c.len() ==> #[trigger] c[i] is Text) && plain_text(c) == s)),
{
    let toks = lex_spec(s);
    lemma_lex_closed(s);
    lemma_lex_from_text_only(s, 0);
    lemma_lex_lossless(s);
    assert(text_only(toks));
    let (t0, q0) = lex_token(s, 0);
    lemma_lex_token_advances(s, 0);
    assert(toks == seq![t0] + lex_from(s, q0));
    assert(toks[0] == t0);
    assert(!(t0 is Hash) && !(t0 is Dash) && !(t0 is Number) && !(t0 is GreaterThan) && !(
    t0 is Backtick) && !(t0 is Eof) && !(t0 is Newline) && !(t0 is Pipe) && !(t0 is Star) && !(
    t0 is Underscore));
    assert(!rule_at(toks, 0));
    assert(block_spec(toks, 0) == paragraph_spec(toks, 0));
    lemma_paragraph_keeps_text(toks, 0);
    let (node, q) = paragraph_spec(toks, 0).unwrap();
    let c = node->Paragraph_0;
    assert(!(toks[q - 1] is Newline) || q == 0);
    assert(toks[q] is Eof);
    assert(q == toks.len() - 1);
    assert(q > 0);
    assert(document_spec(toks, q, seq![node]) == Some((seq![node], q)));
    assert(seq![].push(node) =~= seq![node]);
    assert(all_text(toks) == toks_text(toks, 0, q) + tok_text(toks[q]));
    assert(all_text(toks) =~= toks_text(toks, 0, q));
}


/// The HTML of text nodes is their texts, one after the other, escaped.
pub proof fn lemma_gen_text_nodes(c: Seq<SpecNode>)
    requires
        forall|i: int| 0 <= i < c.len() ==> #[trigger] c[i] is Text,
    ensures
        gen_seq_spec(c) == escape_html_spec(plain_text(c)),
    decreases c.len(),
{
    if c.len() > 0 {
        let init = c.drop_last();
        assert forall|i: int| 0 <= i < init.len() implies #[trigger] init[i] is Text by {
            assert(init[i] == c[i]);
        }
        lemma_gen_text_nodes(init);
        assert(c[c.len() - 1] is Text);
        let t = c.last()->Text_0;
        lemma_escape_html_append(plain_text(init), t);
        assert(gen_node_spec(c.last()) == escape_html_spec(t));
    }
}

/// A line of plain text converts to a page whose body is one paragraph holding
/// the line, escaped.
pub proof fn lemma_plain_line_page(s: Seq<char>)
    requires
        plain_line(s),
    ensures
        md_to_html_spec(s) == Some(page_head() + ("<p>"@ + escape_html_spec(s) + "</p>"@) + page_tail()),
{
    lemma_plain_line_is_one_paragraph(s);
    let doc = parse_spec(lex_spec(s)).unwrap();
    let c = doc[0]->Paragraph_0;
    lemma_gen_text_nodes(c);
    assert(doc =~= seq![].push(doc[0]));
    assert(doc.drop_last() =~= Seq::<SpecNode>::empty());
    assert(gen_seq_spec(doc) == gen_seq_spec(doc.drop_last()) + gen_node_spec(doc[0]));
    assert(gen_seq_spec(doc) =~= "<p>"@ + escape_html_spec(s) + "</p>"@);
}

} // verus!
