use vstd::prelude::*;

use crate::ast::SpecNode;
use crate::grammar::{
    Close, Stop, block_spec, cells_spec, closes, code_block_spec, code_body_spec,
    code_inline_spec, document_spec, end_line, fence_at, bang_text, hash_run, image_parts,
    in_range, inline_spec, inlines_spec, list_item_spec, list_items_spec, ordered_item_spec,
    ordered_items_spec, ordered_marker_at, paragraph_items_spec, paragraph_spec, parse_spec,
    row_spec, rows_spec, rule_at, run_of, separator_at, separator_end, skip, skip_separator,
    source_spec, ends, table_spec,
};
use crate::token::{
    SpecTok, closed_by_eof, lemma_lex_closed, lemma_lex_from_shift, lemma_lex_lossless,
    lemma_lex_split, lemma_toks_text_split_first, lex_from, lex_spec, lex_token, tok_text,
    toks_text,
};

verus! {

/// A token that opens no inline markup that can be left open: no star, tilde,
/// backtick or opening bracket.
pub open spec fn no_inline_markup(t: SpecTok) -> bool {
    !(t is Star) && !(t is Tilde) && !(t is Backtick) && !(t is LBracket)
}

/// Tokens closed by one end-of-input token, with no inline markup that can be left open.
pub open spec fn markup_free(toks: Seq<SpecTok>) -> bool {
    &&& closed_by_eof(toks)
    &&& forall|i: int| 0 <= i < toks.len() ==> no_inline_markup(#[trigger] toks[i])
}

proof fn lemma_not_last(toks: Seq<SpecTok>, p: int)
    requires
        closed_by_eof(toks),
        in_range(toks, p),
        !(toks[p] is Eof),
    ensures
        p + 1 < toks.len(),
{
}

/// Source text always ends, on tokens closed by the end-of-input token, at the
/// token that closes it.
proof fn lemma_source_total(toks: Seq<SpecTok>, p: int, close: Close, acc: Seq<char>)
    requires
        closed_by_eof(toks),
        in_range(toks, p),
    ensures
        source_spec(toks, p, close, acc) matches Some((_, r)) && p <= r < toks.len() && closes(
            close,
            toks[r],
        ),
    decreases toks.len() - p,
{
    if !closes(close, toks[p]) {
        lemma_not_last(toks, p);
        lemma_source_total(toks, p + 1, close, acc + tok_text(toks[p]));
    }
}

/// No image starts where no text that ends in `!` stands before an opening bracket.
proof fn lemma_no_image(toks: Seq<SpecTok>, p: int)
    requires
        !(in_range(toks, p + 1) && bang_text(toks[p]) && toks[p + 1] is LBracket),
    ensures
        image_parts(toks, p) is None,
{
}

proof fn lemma_inline_plain(toks: Seq<SpecTok>, p: int)
    requires
        markup_free(toks),
        in_range(toks, p),
        !(toks[p] is Eof),
    ensures
        inline_spec(toks, p) matches Some((_, q)) && p < q < toks.len(),
{
    lemma_not_last(toks, p);
    assert(no_inline_markup(toks[p]));
}

proof fn lemma_inlines_plain(toks: Seq<SpecTok>, p: int, stop: Stop, acc: Seq<SpecNode>)
    requires
        markup_free(toks),
        in_range(toks, p),
        stop == Stop::Newline || stop == Stop::Pipe,
    ensures
        inlines_spec(toks, p, stop, acc) matches Some((_, r)) && p <= r < toks.len() && ends(
            toks,
            r,
            stop,
        ),
    decreases toks.len() - p,
{
    if !ends(toks, p, stop) {
        lemma_not_last(toks, p);
        assert(no_inline_markup(toks[p + 1]));
        lemma_no_image(toks, p);
        lemma_inline_plain(toks, p);
        let (n, q) = inline_spec(toks, p).unwrap();
        lemma_inlines_plain(toks, q, stop, acc.push(n));
    }
}

proof fn lemma_end_line_plain(toks: Seq<SpecTok>, r: int)
    requires
        closed_by_eof(toks),
        in_range(toks, r),
        toks[r] is Newline || toks[r] is Eof,
    ensures
        end_line(toks, r) matches Some(e) && r <= e < toks.len(),
{
    if toks[r] is Newline {
        lemma_not_last(toks, r);
    }
}

proof fn lemma_hash_run_bound(toks: Seq<SpecTok>, p: int)
    requires
        closed_by_eof(toks),
        in_range(toks, p),
    ensures
        p + hash_run(toks, p) < toks.len(),
    decreases toks.len() - p,
{
    if toks[p] is Hash {
        lemma_not_last(toks, p);
        lemma_hash_run_bound(toks, p + 1);
    }
}

proof fn lemma_line_plain(toks: Seq<SpecTok>, p: int)
    requires
        markup_free(toks),
        in_range(toks, p),
        !(toks[p] is Eof),
    ensures
        list_item_spec(toks, p) matches Some((_, q)) && p < q < toks.len(),
{
    lemma_not_last(toks, p);
    lemma_inlines_plain(toks, p + 1, Stop::Newline, seq![]);
    let (_, r) = inlines_spec(toks, p + 1, Stop::Newline, seq![]).unwrap();
    lemma_end_line_plain(toks, r);
}

proof fn lemma_list_items_plain(toks: Seq<SpecTok>, p: int, acc: Seq<Seq<SpecNode>>)
    requires
        markup_free(toks),
        in_range(toks, p),
    ensures
        list_items_spec(toks, p, acc) matches Some((_, q)) && p <= q < toks.len() && ((toks[p] is Dash
            && !rule_at(toks, p)) ==> p < q),
    decreases toks.len() - p,
{
    if toks[p] is Dash && !rule_at(toks, p) {
        lemma_line_plain(toks, p);
        let (item, q) = list_item_spec(toks, p).unwrap();
        lemma_list_items_plain(toks, q, acc.push(item));
    }
}

proof fn lemma_ordered_items_plain(toks: Seq<SpecTok>, p: int, acc: Seq<Seq<SpecNode>>)
    requires
        markup_free(toks),
        in_range(toks, p),
    ensures
        ordered_items_spec(toks, p, acc) matches Some((_, q)) && p <= q < toks.len() && (
        ordered_marker_at(toks, p) ==> p < q),
    decreases toks.len() - p,
{
    if ordered_marker_at(toks, p) {
        lemma_not_last(toks, p + 1);
        let first = crate::grammar::after_marker(toks, p);
        lemma_inlines_plain(toks, p + 2, Stop::Newline, first);
        let (_, r) = inlines_spec(toks, p + 2, Stop::Newline, first).unwrap();
        lemma_end_line_plain(toks, r);
        let (item, q) = ordered_item_spec(toks, p).unwrap();
        lemma_ordered_items_plain(toks, q, acc.push(item));
    }
}

proof fn lemma_cells_plain(toks: Seq<SpecTok>, p: int, acc: Seq<Seq<SpecNode>>)
    requires
        markup_free(toks),
        in_range(toks, p),
    ensures
        cells_spec(toks, p, acc) matches Some((_, r)) && p <= r < toks.len() && (toks[r] is Newline
            || toks[r] is Eof),
    decreases toks.len() - p,
{
    if !(toks[p] is Newline || toks[p] is Eof) {
        lemma_inlines_plain(toks, p, Stop::Pipe, seq![]);
        let (cell, r) = inlines_spec(toks, p, Stop::Pipe, seq![]).unwrap();
        if toks[r] is Pipe {
            lemma_not_last(toks, r);
            lemma_cells_plain(toks, r + 1, acc.push(cell));
        }
    }
}

proof fn lemma_row_plain(toks: Seq<SpecTok>, p: int)
    requires
        markup_free(toks),
        in_range(toks, p),
        toks[p] is Pipe,
    ensures
        row_spec(toks, p) matches Some((_, q)) && p < q < toks.len(),
{
    lemma_not_last(toks, p);
    lemma_cells_plain(toks, p + 1, seq![]);
    let (_, r) = cells_spec(toks, p + 1, seq![]).unwrap();
    lemma_end_line_plain(toks, r);
}

proof fn lemma_rows_plain(toks: Seq<SpecTok>, p: int, acc: Seq<Seq<Seq<SpecNode>>>)
    requires
        markup_free(toks),
        in_range(toks, p),
    ensures
        rows_spec(toks, p, acc) matches Some((_, q)) && p <= q < toks.len(),
    decreases toks.len() - p,
{
    if toks[p] is Pipe {
        lemma_row_plain(toks, p);
        let (row, q) = row_spec(toks, p).unwrap();
        lemma_rows_plain(toks, q, acc.push(row));
    }
}

proof fn lemma_separator_end_bounds(toks: Seq<SpecTok>, p: int, dash: bool)
    ensures
        separator_end(toks, p, dash) matches Some(e) ==> p <= e && in_range(toks, e) && (
        toks[e] is Newline || toks[e] is Eof),
    decreases toks.len() - p,
{
    if in_range(toks, p) && !(toks[p] is Newline || toks[p] is Eof) {
        lemma_separator_end_bounds(toks, p + 1, dash || crate::grammar::dashed(toks[p]));
    }
}

proof fn lemma_table_plain(toks: Seq<SpecTok>, p: int)
    requires
        markup_free(toks),
        in_range(toks, p),
        toks[p] is Pipe,
    ensures
        table_spec(toks, p) matches Some((_, q)) && p < q < toks.len(),
{
    lemma_row_plain(toks, p);
    let (_, q) = row_spec(toks, p).unwrap();
    if separator_at(toks, q) {
        lemma_separator_end_bounds(toks, q, false);
        lemma_end_line_plain(toks, separator_end(toks, q, false).unwrap());
    }
    let q2 = skip_separator(toks, q).unwrap();
    lemma_rows_plain(toks, q2, seq![]);
}

proof fn lemma_paragraph_items_plain(toks: Seq<SpecTok>, p: int, acc: Seq<SpecNode>)
    requires
        markup_free(toks),
        in_range(toks, p),
    ensures
        paragraph_items_spec(toks, p, acc) matches Some((_, q)) && p <= q < toks.len() && (!(
        toks[p] is Eof) ==> p < q),
    decreases toks.len() - p,
{
    if toks[p] is Newline {
        lemma_not_last(toks, p);
    } else if !(toks[p] is Eof) {
        lemma_not_last(toks, p);
        assert(no_inline_markup(toks[p + 1]));
        lemma_no_image(toks, p);
        lemma_inline_plain(toks, p);
        let (n, q) = inline_spec(toks, p).unwrap();
        lemma_paragraph_items_plain(toks, q, acc.push(n));
    }
}

proof fn lemma_block_plain(toks: Seq<SpecTok>, p: int)
    requires
        markup_free(toks),
        in_range(toks, p),
        !(toks[p] is Eof),
        !(toks[p] is Newline),
    ensures
        block_spec(toks, p) matches Some((_, q)) && p < q < toks.len(),
{
    assert(no_inline_markup(toks[p]));
    lemma_paragraph_items_plain(toks, p, seq![]);
    if rule_at(toks, p) {
        lemma_end_line_plain(toks, p + run_of(toks, p, toks[p]));
    } else {
        match toks[p] {
            SpecTok::Hash => {
                if hash_run(toks, p) <= 6 {
                    assert(hash_run(toks, p) >= 1);
                    lemma_hash_run_bound(toks, p);
                    let q = p + hash_run(toks, p);
                    lemma_inlines_plain(toks, q, Stop::Newline, seq![]);
                    let (_, r) = inlines_spec(toks, q, Stop::Newline, seq![]).unwrap();
                    lemma_end_line_plain(toks, r);
                }
            },
            SpecTok::Dash => {
                lemma_list_items_plain(toks, p, seq![]);
            },
            SpecTok::Number(_) => {
                lemma_ordered_items_plain(toks, p, seq![]);
            },
            SpecTok::GreaterThan => {
                lemma_line_plain(toks, p);
            },
            SpecTok::Pipe => {
                lemma_table_plain(toks, p);
            },
            _ => {},
        }
    }
}

proof fn lemma_document_plain(toks: Seq<SpecTok>, p: int, acc: Seq<SpecNode>)
    requires
        markup_free(toks),
        in_range(toks, p),
    ensures
        document_spec(toks, p, acc) is Some,
    decreases toks.len() - p,
{
    if toks[p] is Newline {
        lemma_not_last(toks, p);
        lemma_document_plain(toks, p + 1, acc);
    } else if !(toks[p] is Eof) {
        lemma_block_plain(toks, p);
        let (b, q) = block_spec(toks, p).unwrap();
        lemma_document_plain(toks, q, acc.push(b));
    }
}

/// Parsing never fails on tokens closed by one end-of-input token that hold no
/// star, tilde, backtick or opening bracket: headings, rules, lists, quotes,
/// tables and paragraphs of plain text always parse.
pub proof fn lemma_parse_markup_free(toks: Seq<SpecTok>)
    requires
        markup_free(toks),
    ensures
        parse_spec(toks) is Some,
{
    lemma_document_plain(toks, 0, seq![]);
}


/// Source text keeps its source: what `source_spec` gathers is the source text of
/// the tokens it reads.
pub proof fn lemma_source_is_source(toks: Seq<SpecTok>, p: int, close: Close, acc: Seq<char>)
    ensures
        source_spec(toks, p, close, acc) matches Some((c, r)) ==> p <= r && c == acc + toks_text(
            toks,
            p,
            r,
        ) && closes(close, toks[r]),
    decreases toks.len() - p,
{
    if in_range(toks, p) {
        if closes(close, toks[p]) {
            assert(toks_text(toks, p, p) == Seq::<char>::empty());
            assert(acc + Seq::<char>::empty() =~= acc);
        } else if let Some(q) = skip(toks, p, 1) {
            lemma_source_is_source(toks, q, close, acc + tok_text(toks[p]));
            if let Some((c, r)) = source_spec(toks, q, close, acc + tok_text(toks[p])) {
                lemma_toks_text_split_first(toks, p, r);
                assert(acc + tok_text(toks[p]) + toks_text(toks, q, r) =~= acc + toks_text(toks, p, r));
            }
        }
    }
}

/// A fenced block's body keeps its source: what `code_body_spec` gathers is the
/// source text of the tokens it reads.
pub proof fn lemma_code_body_is_source(toks: Seq<SpecTok>, p: int, acc: Seq<char>)
    ensures
        code_body_spec(toks, p, acc) matches Some((c, r)) ==> p <= r && c == acc + toks_text(
            toks,
            p,
            r,
        ) && (fence_at(toks, r) || toks[r] is Eof),
    decreases toks.len() - p,
{
    if in_range(toks, p) {
        if fence_at(toks, p) || toks[p] is Eof {
            assert(toks_text(toks, p, p) == Seq::<char>::empty());
            assert(acc + Seq::<char>::empty() =~= acc);
        } else if let Some(q) = skip(toks, p, 1) {
            lemma_code_body_is_source(toks, q, acc + tok_text(toks[p]));
            if let Some((c, r)) = code_body_spec(toks, q, acc + tok_text(toks[p])) {
                lemma_toks_text_split_first(toks, p, r);
                assert(acc + tok_text(toks[p]) + toks_text(toks, q, r) =~= acc + toks_text(toks, p, r));
            }
        }
    }
}

/// Inline code holds exactly the source text between its two backticks.
pub proof fn lemma_inline_code_keeps_source(toks: Seq<SpecTok>, p: int)
    ensures
        code_inline_spec(toks, p) matches Some((n, e)) ==> n == SpecNode::InlineCode(
            toks_text(toks, p + 1, e - 1),
        ),
{
    if let Some(q) = skip(toks, p, 1) {
        lemma_source_is_source(toks, q, Close::Backtick, seq![]);
        if let Some((c, r)) = source_spec(toks, q, Close::Backtick, seq![]) {
            assert(Seq::<char>::empty() + toks_text(toks, q, r) =~= toks_text(toks, q, r));
        }
    }
}

/// A fenced code block holds exactly the source text between the fence line's
/// language word (or the fence, where there is none) and the closing fence, and
/// reads no further than the closing fence: on tokens closed by one end-of-input
/// token, the three tokens before where it stops are that fence.
pub proof fn lemma_code_block_keeps_source(toks: Seq<SpecTok>, p: int)
    ensures
        code_block_spec(toks, p) matches Some((n, e)) ==> n matches SpecNode::CodeBlock {
            language,
            content,
        } && content == toks_text(
            toks,
            p + 3 + (if language is Some {
                1int
            } else {
                0int
            }),
            e - 3,
        ) && (closed_by_eof(toks) ==> fence_at(toks, e - 3)),
{
    if let Some(q) = skip(toks, p, 3) {
        let q2 = if toks[q] is Text {
            q + 1
        } else {
            q
        };
        lemma_code_body_is_source(toks, q2, seq![]);
        if let Some((c, r)) = code_body_spec(toks, q2, seq![]) {
            assert(Seq::<char>::empty() + toks_text(toks, q2, r) =~= toks_text(toks, q2, r));
        }
    }
}

/// A link's address is exactly the source text between its parentheses.
pub proof fn lemma_link_address_is_source(toks: Seq<SpecTok>, p: int)
    requires
        closed_by_eof(toks),
    ensures
        crate::grammar::link_spec(toks, p) matches Some((n, e)) ==> (n matches SpecNode::Link {
            url,
            ..
        } ==> toks[e - 1] is RParen && exists|r3: int|
            0 < r3 < e && toks[r3 - 1] is LParen && url == #[trigger] toks_text(toks, r3, e - 1)),
{
    if let Some(q) = skip(toks, p, 1) {
        if let Some((text, r)) = inlines_spec(toks, q, Stop::RBracket, seq![]) {
            if toks[r] is RBracket {
                if let Some(r2) = skip(toks, r, 1) {
                    if toks[r2] is LParen {
                        if let Some(r3) = skip(toks, r2, 1) {
                            lemma_source_is_source(toks, r3, Close::RParen, seq![]);
                            if let Some((url, r4)) = source_spec(toks, r3, Close::RParen, seq![]) {
                                assert(Seq::<char>::empty() + toks_text(toks, r3, r4) =~= toks_text(
                                    toks,
                                    r3,
                                    r4,
                                ));
                                if let Some(e) = skip(toks, r4, 1) {
                                    if toks[r4] is Eof {
                                        assert(!(toks[r4] is Eof));
                                    }
                                    assert(toks[r4] is RParen);
                                    assert(toks[r3 - 1] is LParen);
                                    assert(url == toks_text(toks, r3, e - 1));
                                    assert(crate::grammar::link_spec(toks, p) == Some(
                                        (SpecNode::Link { text, url, title: None }, e),
                                    ));
                                    assert(0 < r3 < e && toks[r3 - 1] is LParen && url
                                        == toks_text(toks, r3, e - 1));
                                }
                            }
                        }
                    }
                }
            }
        }
    }
}

/// An image stands after a text token that ends in `!`, and its alternative text
/// and address are exactly the source text between its brackets and between its
/// parentheses.
pub proof fn lemma_image_is_source(toks: Seq<SpecTok>, p: int)
    ensures
        image_parts(toks, p) matches Some((alt, url, e)) ==> bang_text(toks[p]) && toks[p + 1] is LBracket
            && toks[e - 1] is RParen && exists|r: int|
            p + 2 <= r && r + 2 < e && toks[r] is RBracket && toks[r + 1] is LParen && alt
                == #[trigger] toks_text(toks, p + 2, r) && url == toks_text(toks, r + 2, e - 1),
{
    lemma_source_is_source(toks, p + 2, Close::RBracket, seq![]);
    if let Some((alt, r)) = source_spec(toks, p + 2, Close::RBracket, seq![]) {
        assert(Seq::<char>::empty() + toks_text(toks, p + 2, r) =~= toks_text(toks, p + 2, r));
        lemma_source_is_source(toks, r + 2, Close::RParen, seq![]);
        if let Some((url, r4)) = source_spec(toks, r + 2, Close::RParen, seq![]) {
            assert(Seq::<char>::empty() + toks_text(toks, r + 2, r4) =~= toks_text(
                toks,
                r + 2,
                r4,
            ));
        }
    }
}

/// A run of inline elements ends no earlier than it starts.
proof fn lemma_inlines_ge(toks: Seq<SpecTok>, p: int, stop: Stop, acc: Seq<SpecNode>)
    ensures
        inlines_spec(toks, p, stop, acc) matches Some((_, r)) ==> p <= r,
    decreases toks.len() - p,
{
    if in_range(toks, p) && !ends(toks, p, stop) {
        match image_parts(toks, p) {
            Some((alt, url, e)) => {
                if p < e < toks.len() {
                    lemma_inlines_ge(
                        toks,
                        e,
                        stop,
                        acc + crate::grammar::image_nodes(toks[p]->Text_0, alt, url),
                    );
                }
            },
            None => {
                if let Some((n, q)) = inline_spec(toks, p) {
                    if p < q < toks.len() {
                        lemma_inlines_ge(toks, q, stop, acc.push(n));
                    }
                }
            },
        }
    }
}

/// Reading an inline element always moves on by at least one token, so that every
/// run of inline elements read up to a stop comes to an end.
pub proof fn lemma_inline_progress(toks: Seq<SpecTok>, p: int)
    ensures
        inline_spec(toks, p) matches Some((_, q)) ==> p < q,
{
    if in_range(toks, p) {
        lemma_inlines_ge(toks, p + 2, Stop::Stars, seq![]);
        lemma_inlines_ge(toks, p + 1, Stop::Star, seq![]);
        lemma_inlines_ge(toks, p + 2, Stop::Tildes, seq![]);
        lemma_inlines_ge(toks, p + 1, Stop::RBracket, seq![]);
        lemma_source_is_source(toks, p + 1, Close::Backtick, seq![]);
        if let Some((_, r)) = inlines_spec(toks, p + 1, Stop::RBracket, seq![]) {
            lemma_source_is_source(toks, r + 2, Close::RParen, seq![]);
        }
    }
}

/// What starts with an opening bracket is a link, or else plain text that is
/// exactly the source text of the tokens read.
pub proof fn lemma_link_or_source(toks: Seq<SpecTok>, p: int)
    ensures
        crate::grammar::link_spec(toks, p) matches Some((n, e)) ==> n is Link || n
            == SpecNode::Text(toks_text(toks, p, e)),
{
}

/// The text of inline elements: that of the text nodes, one after the other.
pub open spec fn plain_text(nodes: Seq<SpecNode>) -> Seq<char>
    decreases nodes.len(),
{
    if nodes.len() == 0 {
        seq![]
    } else {
        plain_text(nodes.drop_last()) + match nodes.last() {
            SpecNode::Text(t) => t,
            _ => seq![],
        }
    }
}

/// Tokens closed by one end-of-input token, with no star, tilde or backtick, no
/// closing bracket right before an opening parenthesis and no text that ends in `!`
/// right before an opening bracket: text without emphasis, code, links or images.
pub open spec fn text_only(toks: Seq<SpecTok>) -> bool {
    &&& closed_by_eof(toks)
    &&& forall|i: int|
        0 <= i < toks.len() ==> !(#[trigger] toks[i] is Star) && !(toks[i] is Tilde) && !(
        toks[i] is Backtick)
    &&& forall|i: int|
        0 <= i < toks.len() - 1 && #[trigger] toks[i] is RBracket ==> !(toks[i + 1] is LParen)
    &&& forall|i: int|
        0 <= i < toks.len() - 1 && bang_text(#[trigger] toks[i]) ==> !(toks[i + 1] is LBracket)
}

proof fn lemma_no_image_text(toks: Seq<SpecTok>, p: int)
    requires
        text_only(toks),
        in_range(toks, p + 1),
        0 <= p,
    ensures
        image_parts(toks, p) is None,
{
    if bang_text(toks[p]) {
        assert(!(toks[p + 1] is LBracket));
    }
    lemma_no_image(toks, p);
}

proof fn lemma_toks_text_one(toks: Seq<SpecTok>, p: int)
    requires
        in_range(toks, p),
    ensures
        toks_text(toks, p, p + 1) == tok_text(toks[p]),
{
    lemma_toks_text_split_first(toks, p, p + 1);
    assert(toks_text(toks, p + 1, p + 1) == Seq::<char>::empty());
    assert(tok_text(toks[p]) + Seq::<char>::empty() =~= tok_text(toks[p]));
}

/// On text without emphasis, code, links or images an inline element is its source text,
/// a newline a soft break.
proof fn lemma_inline_text(toks: Seq<SpecTok>, p: int)
    requires
        text_only(toks),
        in_range(toks, p),
        !(toks[p] is Eof),
    ensures
        inline_spec(toks, p) matches Some((n, q)) && p < q < toks.len() && (if toks[p] is Newline {
            n == SpecNode::SoftBreak
        } else {
            n == SpecNode::Text(toks_text(toks, p, q))
        }),
    decreases toks.len() - p, 0nat,
{
    lemma_not_last(toks, p);
    assert(!(toks[p] is Star) && !(toks[p] is Tilde) && !(toks[p] is Backtick));
    if toks[p] is LBracket {
        lemma_inlines_bracket(toks, p + 1, seq![]);
        let (_, r) = inlines_spec(toks, p + 1, Stop::RBracket, seq![]).unwrap();
        if toks[r] is RBracket {
            lemma_not_last(toks, r);
        }
    } else {
        lemma_toks_text_one(toks, p);
    }
}

proof fn lemma_inlines_bracket(toks: Seq<SpecTok>, p: int, acc: Seq<SpecNode>)
    requires
        text_only(toks),
        in_range(toks, p),
    ensures
        inlines_spec(toks, p, Stop::RBracket, acc) matches Some((_, r)) && p <= r < toks.len() && (
        toks[r] is RBracket || toks[r] is Eof),
    decreases toks.len() - p, 1nat,
{
    if !ends(toks, p, Stop::RBracket) {
        lemma_not_last(toks, p);
        lemma_no_image_text(toks, p);
        lemma_inline_text(toks, p);
        let (n, q) = inline_spec(toks, p).unwrap();
        lemma_inlines_bracket(toks, q, acc.push(n));
    }
}

proof fn lemma_paragraph_items_text(toks: Seq<SpecTok>, p: int, acc: Seq<SpecNode>)
    requires
        text_only(toks),
        in_range(toks, p),
    ensures
        paragraph_items_spec(toks, p, acc) matches Some((c, q)) && p <= q < toks.len() && c.len()
            >= acc.len() && (forall|i: int| acc.len() <= i < c.len() ==> #[trigger] c[i] is Text)
            && c.subrange(0, acc.len() as int) == acc && ({
            ||| toks[q] is Eof && plain_text(c) == plain_text(acc) + toks_text(toks, p, q)
            ||| p < q && toks[q - 1] is Newline && plain_text(c) == plain_text(acc) + toks_text(
                toks,
                p,
                q - 1,
            )
        }),
    decreases toks.len() - p,
{
    if toks[p] is Newline || toks[p] is Eof {
        assert(toks_text(toks, p, p) == Seq::<char>::empty());
        assert(plain_text(acc) + Seq::<char>::empty() =~= plain_text(acc));
        assert(acc.subrange(0, acc.len() as int) =~= acc);
        if toks[p] is Newline {
            lemma_not_last(toks, p);
        }
    } else {
        lemma_not_last(toks, p);
        lemma_no_image_text(toks, p);
        lemma_inline_text(toks, p);
        let (n, q1) = inline_spec(toks, p).unwrap();
        lemma_paragraph_items_text(toks, q1, acc.push(n));
        let (c, q) = paragraph_items_spec(toks, q1, acc.push(n)).unwrap();
        assert(acc.push(n).drop_last() =~= acc);
        assert(plain_text(acc.push(n)) == plain_text(acc) + toks_text(toks, p, q1));
        if toks[q] is Eof && plain_text(c) == plain_text(acc.push(n)) + toks_text(toks, q1, q) {
            lemma_toks_text_concat(toks, p, q1, q);
            assert(plain_text(acc) + toks_text(toks, p, q1) + toks_text(toks, q1, q) =~= plain_text(
                acc,
            ) + toks_text(toks, p, q));
        } else {
            lemma_toks_text_concat(toks, p, q1, q - 1);
            assert(plain_text(acc) + toks_text(toks, p, q1) + toks_text(toks, q1, q - 1)
                =~= plain_text(acc) + toks_text(toks, p, q - 1));
        }
        assert(c.subrange(0, acc.len() as int) =~= c.subrange(0, acc.len() + 1int).subrange(
            0,
            acc.len() as int,
        ));
        assert forall|i: int| acc.len() <= i < c.len() implies #[trigger] c[i] is Text by {
            if i == acc.len() {
                assert(c.subrange(0, acc.len() + 1int)[i] == acc.push(n)[i]);
            }
        }
    }
}

/// A paragraph of text without emphasis, code, links or images holds text nodes only, whose
/// texts, one after the other, are the source text it read, apart from the newline
/// that closes it.
pub proof fn lemma_paragraph_keeps_text(toks: Seq<SpecTok>, p: int)
    requires
        text_only(toks),
        in_range(toks, p),
    ensures
        paragraph_spec(toks, p) matches Some((SpecNode::Paragraph(c), q)) && p <= q < toks.len()
            && (forall|i: int| 0 <= i < c.len() ==> #[trigger] c[i] is Text) && ({
            ||| toks[q] is Eof && plain_text(c) == toks_text(toks, p, q)
            ||| p < q && toks[q - 1] is Newline && plain_text(c) == toks_text(toks, p, q - 1)
        }),
{
    lemma_paragraph_items_text(toks, p, seq![]);
    let (c, q) = paragraph_items_spec(toks, p, seq![]).unwrap();
    assert(plain_text(Seq::<SpecNode>::empty()) == Seq::<char>::empty());
    assert(Seq::<char>::empty() + toks_text(toks, p, q) =~= toks_text(toks, p, q));
    if q > p {
        assert(Seq::<char>::empty() + toks_text(toks, p, q - 1) =~= toks_text(toks, p, q - 1));
    }
}

/// The text of tokens `a..c` is that of `a..b`, then that of `b..c`.
proof fn lemma_toks_text_concat(toks: Seq<SpecTok>, a: int, b: int, c: int)
    requires
        a <= b <= c,
    ensures
        toks_text(toks, a, c) == toks_text(toks, a, b) + toks_text(toks, b, c),
    decreases c - b,
{
    if b == c {
        assert(toks_text(toks, b, b) == Seq::<char>::empty());
        assert(toks_text(toks, a, b) + Seq::<char>::empty() =~= toks_text(toks, a, b));
    } else {
        lemma_toks_text_concat(toks, a, b, c - 1);
        assert(toks_text(toks, a, b) + toks_text(toks, b, c - 1) + tok_text(toks[c - 1])
            =~= toks_text(toks, a, b) + (toks_text(toks, b, c - 1) + tok_text(toks[c - 1])));
    }
}

/// A heading that a block starts with has a level from 1 to 6: the number of `#`
/// it starts with.
pub proof fn lemma_heading_level(toks: Seq<SpecTok>, p: int)
    ensures
        block_spec(toks, p) matches Some((n, _)) ==> (n matches SpecNode::Heading { level, .. }
            ==> 1 <= level <= 6 && level == hash_run(toks, p)),
{
    if in_range(toks, p) && toks[p] is Hash {
        assert(hash_run(toks, p) >= 1);
    }
}

/// Parsing reads the whole input: where it succeeds, it stops on the end-of-input token.
pub proof fn lemma_document_ends_at_eof(toks: Seq<SpecTok>, p: int, acc: Seq<SpecNode>)
    ensures
        document_spec(toks, p, acc) matches Some((_, q)) ==> in_range(toks, q) && toks[q] is Eof,
    decreases toks.len() - p,
{
    if in_range(toks, p) && !(toks[p] is Eof) {
        if toks[p] is Newline {
            lemma_document_ends_at_eof(toks, p + 1, acc);
        } else if let Some((b, q)) = block_spec(toks, p) {
            if p < q < toks.len() {
                lemma_document_ends_at_eof(toks, q, acc.push(b));
            }
        }
    }
}

/// A node of the block level: one that a document is made of.
pub open spec fn block_level(n: SpecNode) -> bool {
    ||| n is Heading
    ||| n is Paragraph
    ||| n is BlockQuote
    ||| n is UnorderedList
    ||| n is OrderedList
    ||| n is CodeBlock
    ||| n is HorizontalRule
    ||| n is Table
}

/// A block is a node of the block level.
pub proof fn lemma_block_is_block_level(toks: Seq<SpecTok>, p: int)
    ensures
        block_spec(toks, p) matches Some((n, _)) ==> block_level(n),
{
}

/// Blocks from `p` on, after block-level nodes, are all of the block level.
proof fn lemma_document_block_level(toks: Seq<SpecTok>, p: int, acc: Seq<SpecNode>)
    requires
        forall|i: int| 0 <= i < acc.len() ==> block_level(#[trigger] acc[i]),
    ensures
        document_spec(toks, p, acc) matches Some((nodes, _)) ==> forall|i: int|
            0 <= i < nodes.len() ==> block_level(#[trigger] nodes[i]),
    decreases toks.len() - p,
{
    if in_range(toks, p) && !(toks[p] is Eof) {
        if toks[p] is Newline {
            lemma_document_block_level(toks, p + 1, acc);
        } else if let Some((b, q)) = block_spec(toks, p) {
            if p < q < toks.len() {
                lemma_block_is_block_level(toks, p);
                assert forall|i: int| 0 <= i < acc.push(b).len() implies block_level(
                    #[trigger] acc.push(b)[i],
                ) by {
                    if i < acc.len() {
                        assert(acc.push(b)[i] == acc[i]);
                    }
                }
                lemma_document_block_level(toks, q, acc.push(b));
            }
        }
    }
}

/// Every node of a parsed document is of the block level: inline elements stand
/// inside blocks, never at the top.
pub proof fn lemma_parse_block_level(toks: Seq<SpecTok>)
    ensures
        parse_spec(toks) matches Some(nodes) ==> forall|i: int|
            0 <= i < nodes.len() ==> block_level(#[trigger] nodes[i]),
{
    lemma_document_block_level(toks, 0, seq![]);
}

/// The tokens of a fence followed by `x`: three backticks, then the tokens of `x`.
proof fn lemma_lex_fence(x: Seq<char>)
    ensures
        lex_spec("```"@ + x) == seq![SpecTok::Backtick, SpecTok::Backtick, SpecTok::Backtick]
            + lex_spec(x),
{
    reveal_strlit("```");
    let s = "```"@ + x;
    assert(s[0] == '`' && s[1] == '`' && s[2] == '`');
    assert(lex_token(s, 0) == (SpecTok::Backtick, 1int));
    assert(lex_token(s, 1) == (SpecTok::Backtick, 2int));
    assert(lex_token(s, 2) == (SpecTok::Backtick, 3int));
    assert(lex_from(s, 0) == seq![SpecTok::Backtick] + lex_from(s, 1));
    assert(lex_from(s, 1) == seq![SpecTok::Backtick] + lex_from(s, 2));
    assert(lex_from(s, 2) == seq![SpecTok::Backtick] + lex_from(s, 3));
    lemma_lex_from_shift(s, 3, 3);
    assert(s.skip(3) =~= x);
    assert(lex_spec(s) =~= seq![SpecTok::Backtick, SpecTok::Backtick, SpecTok::Backtick]
        + lex_spec(x));
}

/// A backtick token stands for a backtick character, one character long.
proof fn lemma_backtick_head(s: Seq<char>, k: int)
    requires
        0 <= k,
        lex_from(s, k)[0] is Backtick,
    ensures
        k < s.len(),
        s[k] == '`',
        lex_from(s, k) == seq![SpecTok::Backtick] + lex_from(s, k + 1),
{
    if k < s.len() {
        crate::token::lemma_lex_token_advances(s, k);
    }
}

/// Text with no three backticks in a row lexes to no three backtick tokens in a row.
proof fn lemma_lex_from_no_triple(s: Seq<char>, p: int)
    requires
        0 <= p <= s.len(),
        forall|i: int|
            0 <= i < s.len() - 2 ==> !(#[trigger] s[i] == '`' && s[i + 1] == '`' && s[i + 2]
                == '`'),
    ensures
        forall|i: int|
            0 <= i < lex_from(s, p).len() - 2 && #[trigger] lex_from(s, p)[i] is Backtick
                && lex_from(s, p)[i + 1] is Backtick ==> !(lex_from(s, p)[i + 2] is Backtick),
    decreases s.len() - p,
{
    if p < s.len() {
        crate::token::lemma_lex_token_advances(s, p);
        let (t, q) = lex_token(s, p);
        lemma_lex_from_no_triple(s, q);
        let all = lex_from(s, p);
        let rest = lex_from(s, q);
        assert(all == seq![t] + rest);
        assert forall|i: int|
            0 <= i < all.len() - 2 && #[trigger] all[i] is Backtick && all[i + 1] is Backtick
                implies !(all[i + 2] is Backtick) by {
            if i > 0 {
                assert(all[i] == rest[i - 1]);
                assert(all[i + 1] == rest[i]);
                assert(all[i + 2] == rest[i + 1]);
            } else if all[2] is Backtick {
                lemma_backtick_head(s, p);
                assert(rest[0] == all[1]);
                lemma_backtick_head(s, p + 1);
                assert(lex_from(s, p + 2)[0] == all[2]);
                lemma_backtick_head(s, p + 2);
                assert(s[p] == '`' && s[p + 1] == '`' && s[p + 2] == '`');
            }
        }
    }
}

/// The last token of a text before the end-of-input token is a backtick only where
/// the text ends in one.
proof fn lemma_lex_from_last(s: Seq<char>, p: int)
    requires
        0 <= p < s.len(),
    ensures
        lex_from(s, p).len() >= 2,
        lex_from(s, p)[lex_from(s, p).len() - 2] is Backtick ==> s[s.len() - 1] == '`',
    decreases s.len() - p,
{
    crate::token::lemma_lex_token_advances(s, p);
    let (t, q) = lex_token(s, p);
    let all = lex_from(s, p);
    let rest = lex_from(s, q);
    assert(all == seq![t] + rest);
    if q < s.len() {
        lemma_lex_from_last(s, q);
        assert(all[all.len() - 2] == rest[rest.len() - 2]);
    } else {
        assert(all[all.len() - 2] == t);
        if t is Backtick {
            assert(s[p] == '`');
        }
    }
}

/// A fenced body runs over tokens that start no fence and are no end of input, up to
/// the fence at `f`.
proof fn lemma_code_body_runs(toks: Seq<SpecTok>, i: int, f: int, acc: Seq<char>)
    requires
        0 <= i <= f,
        fence_at(toks, f),
        forall|j: int| i <= j < f ==> !fence_at(toks, j) && !(#[trigger] toks[j] is Eof),
    ensures
        code_body_spec(toks, i, acc) matches Some((_, r)) && r == f,
    decreases f - i,
{
    if i < f {
        lemma_code_body_runs(toks, i + 1, f, acc + tok_text(toks[i]));
    }
}

/// Token texts over a stretch of `toks` that holds the tokens of `ts`, `k` on.
proof fn lemma_toks_text_offset(toks: Seq<SpecTok>, ts: Seq<SpecTok>, k: int, x: int, y: int)
    requires
        0 <= x <= y <= ts.len(),
        0 <= k,
        k + ts.len() <= toks.len(),
        forall|j: int| 0 <= j < ts.len() ==> toks[k + j] == #[trigger] ts[j],
    ensures
        toks_text(toks, k + x, k + y) == toks_text(ts, x, y),
    decreases y - x,
{
    if x < y {
        lemma_toks_text_offset(toks, ts, k, x, y - 1);
        assert(toks[k + y - 1] == ts[y - 1]);
    }
}

/// The code block law on source text: a fence, a body with no three backticks in a
/// row that does not end in a backtick, a fence and the rest lex to tokens on which
/// a code block holds the body (less its first word, where the body's first token is
/// a word, which is then the language), and after which exactly the tokens of the
/// rest remain.
pub proof fn lemma_code_block_of_source(b: Seq<char>, rest: Seq<char>)
    requires
        forall|i: int|
            0 <= i < b.len() - 2 ==> !(#[trigger] b[i] == '`' && b[i + 1] == '`' && b[i + 2]
                == '`'),
        b.len() == 0 || b.last() != '`',
    ensures
        ({
            let toks = lex_spec("```"@ + b + "```"@ + rest);
            let lb = lex_spec(b);
            code_block_spec(toks, 0) matches Some((n, e)) && toks.skip(e) == lex_spec(rest) && n
                == (if lb[0] is Text {
                SpecNode::CodeBlock {
                    language: Some(lb[0]->Text_0),
                    content: b.skip(lb[0]->Text_0.len() as int),
                }
            } else {
                SpecNode::CodeBlock { language: None, content: b }
            })
        }),
{
    reveal_strlit("```");
    let fence = "```"@;
    let bb = seq![SpecTok::Backtick, SpecTok::Backtick, SpecTok::Backtick];
    let s = fence + b + fence + rest;
    let lb = lex_spec(b);
    let lr = lex_spec(rest);
    lemma_lex_fence(b);
    lemma_lex_fence(rest);
    assert((fence + rest)[0] == '`');
    lemma_lex_split(fence + b, fence + rest);
    assert(s =~= (fence + b) + (fence + rest));
    lemma_lex_closed(b);
    lemma_lex_closed(rest);
    let nb = lb.len() - 1;
    let toks = lex_spec(s);
    assert((bb + lb).drop_last() =~= bb + lb.drop_last());
    assert(toks =~= bb + lb.drop_last() + (bb + lr));
    assert(toks.len() == nb + 6 + lr.len());
    assert forall|j: int| 0 <= j < nb implies toks[3 + j] == #[trigger] lb[j] by {}
    assert(toks[3 + nb] is Backtick && toks[4 + nb] is Backtick && toks[5 + nb] is Backtick);
    assert(toks.skip(6 + nb) =~= lr);
    lemma_lex_from_no_triple(b, 0);
    if b.len() > 0 {
        lemma_lex_from_last(b, 0);
    }
    let f = 3 + nb;
    assert(fence_at(toks, f));
    let q2: int = if lb[0] is Text {
        4
    } else {
        3
    };
    if lb[0] is Text {
        assert(nb >= 1);
        assert(toks[3] == lb[0]);
    } else if nb >= 1 {
        assert(toks[3] == lb[0]);
    }
    assert forall|j: int| q2 <= j < f implies !fence_at(toks, j) && !(#[trigger] toks[j] is Eof) by {
        assert(toks[j] == lb[j - 3]);
        if fence_at(toks, j) {
            if j + 2 < f {
                assert(toks[j + 1] == lb[j - 2]);
                assert(toks[j + 2] == lb[j - 1]);
            } else {
                assert(toks[f - 1] == lb[nb - 1]);
                assert(b.len() > 0);
            }
        }
    }
    lemma_code_body_runs(toks, q2, f, seq![]);
    lemma_code_body_is_source(toks, q2, seq![]);
    let lbt = lb.drop_last();
    assert forall|j: int| 0 <= j < lbt.len() implies toks[3 + j] == #[trigger] lbt[j] by {
        assert(toks[3 + j] == lb[j]);
    }
    lemma_toks_text_offset(toks, lbt, 3, q2 - 3, nb);
    lemma_lex_lossless(b);
    assert(toks_text(lb, 0, lb.len() as int) == toks_text(lb, 0, nb) + tok_text(lb[nb]));
    assert(toks_text(lb, 0, nb) == b);
    lemma_toks_text_offset(lb, lbt, 0, 0, nb);
    if lb[0] is Text {
        lemma_toks_text_split_first(lbt, 0, nb);
        lemma_toks_text_offset(lb, lbt, 0, 1, nb);
        let w = lb[0]->Text_0;
        assert(b == w + toks_text(lb, 1, nb));
        assert(b.skip(w.len() as int) =~= toks_text(lb, 1, nb));
    }
    let (c, r) = code_body_spec(toks, q2, seq![]).unwrap();
    assert(Seq::<char>::empty() + toks_text(toks, q2, r) =~= toks_text(toks, q2, r));
}

/// Inline elements over a line of tokens that open no markup run to its newline,
/// one text node per token, whose texts are the line's source text.
proof fn lemma_inlines_line(toks: Seq<SpecTok>, p: int, n: int, acc: Seq<SpecNode>)
    requires
        0 <= p <= n < toks.len(),
        toks[n] is Newline,
        forall|j: int|
            p <= j < n ==> no_inline_markup(#[trigger] toks[j]) && !(toks[j] is Newline) && !(
            toks[j] is Eof),
    ensures
        inlines_spec(toks, p, Stop::Newline, acc) matches Some((c, r)) && r == n && plain_text(c)
            == plain_text(acc) + toks_text(toks, p, n),
    decreases n - p,
{
    if p == n {
        assert(toks_text(toks, p, p) == Seq::<char>::empty());
        assert(plain_text(acc) + Seq::<char>::empty() =~= plain_text(acc));
    } else {
        assert(no_inline_markup(toks[p]));
        if p + 1 < n {
            assert(no_inline_markup(toks[p + 1]));
        }
        lemma_no_image(toks, p);
        let node = SpecNode::Text(tok_text(toks[p]));
        assert(inline_spec(toks, p) == Some((node, p + 1)));
        lemma_inlines_line(toks, p + 1, n, acc.push(node));
        assert(acc.push(node).drop_last() =~= acc);
        assert(plain_text(acc.push(node)) == plain_text(acc) + tok_text(toks[p]));
        lemma_toks_text_split_first(toks, p, n);
        assert(plain_text(acc) + tok_text(toks[p]) + toks_text(toks, p + 1, n) =~= plain_text(acc)
            + toks_text(toks, p, n));
    }
}

/// Unordered list items are only ever added to: what was read stays first, and a
/// dash that starts no rule adds an item past it.
proof fn lemma_list_items_grow(toks: Seq<SpecTok>, q: int, acc: Seq<Seq<SpecNode>>)
    ensures
        list_items_spec(toks, q, acc) matches Some((items, e)) ==> items.len() >= acc.len()
            && items.subrange(0, acc.len() as int) == acc && e >= q && ((in_range(toks, q)
            && toks[q] is Dash && !rule_at(toks, q)) ==> e > q && items.len() > acc.len()),
    decreases toks.len() - q,
{
    if in_range(toks, q) && toks[q] is Dash && !rule_at(toks, q) {
        if let Some((item, q1)) = list_item_spec(toks, q) {
            if q < q1 < toks.len() {
                lemma_list_items_grow(toks, q1, acc.push(item));
                if let Some((items, e)) = list_items_spec(toks, q1, acc.push(item)) {
                    assert(items.subrange(0, acc.len() as int) =~= items.subrange(
                        0,
                        acc.len() + 1int,
                    ).subrange(0, acc.len() as int));
                    assert(acc.push(item).subrange(0, acc.len() as int) =~= acc);
                }
            }
        }
    } else {
        assert(acc.subrange(0, acc.len() as int) =~= acc);
    }
}

/// Consecutive dash lines make one list: where a dash line of plain text ends in a
/// newline and the next line starts with a dash that starts no rule, the unordered
/// list read at the first dash holds the first line's text as its first item, holds
/// at least one more item, and ends past the second dash.
pub proof fn lemma_dash_lines_make_one_list(toks: Seq<SpecTok>, p: int, n: int)
    requires
        0 <= p < n,
        n + 1 < toks.len(),
        toks[p] is Dash,
        !rule_at(toks, p),
        toks[n] is Newline,
        forall|j: int|
            p < j < n ==> no_inline_markup(#[trigger] toks[j]) && !(toks[j] is Newline) && !(
            toks[j] is Eof),
        toks[n + 1] is Dash,
        !rule_at(toks, n + 1),
    ensures
        block_spec(toks, p) matches Some((b, e)) ==> (b matches SpecNode::UnorderedList(items)
            && items.len() >= 2 && plain_text(items[0]) == toks_text(toks, p + 1, n) && e > n + 1),
{
    lemma_inlines_line(toks, p + 1, n, seq![]);
    let (c0, r) = inlines_spec(toks, p + 1, Stop::Newline, seq![]).unwrap();
    assert(plain_text(Seq::<SpecNode>::empty()) + toks_text(toks, p + 1, n) =~= toks_text(
        toks,
        p + 1,
        n,
    ));
    assert(list_item_spec(toks, p) == Some((c0, n + 1)));
    lemma_list_items_grow(toks, n + 1, seq![c0]);
    assert(list_items_spec(toks, p, seq![]) == list_items_spec(toks, n + 1, seq![].push(c0)));
    assert(seq![].push(c0) =~= seq![c0]);
    if let Some((items, e)) = list_items_spec(toks, n + 1, seq![c0]) {
        assert(items[0] == items.subrange(0, 1)[0]);
    }
}

/// Ordered list items are only ever added to: what was read stays first, and a
/// marker adds an item past it.
proof fn lemma_ordered_items_grow(toks: Seq<SpecTok>, q: int, acc: Seq<Seq<SpecNode>>)
    ensures
        ordered_items_spec(toks, q, acc) matches Some((items, e)) ==> items.len() >= acc.len()
            && items.subrange(0, acc.len() as int) == acc && e >= q && (ordered_marker_at(toks, q)
            ==> e > q && items.len() > acc.len()),
    decreases toks.len() - q,
{
    if in_range(toks, q) && ordered_marker_at(toks, q) {
        if let Some((item, q1)) = ordered_item_spec(toks, q) {
            if q < q1 < toks.len() {
                lemma_ordered_items_grow(toks, q1, acc.push(item));
                if let Some((items, e)) = ordered_items_spec(toks, q1, acc.push(item)) {
                    assert(items.subrange(0, acc.len() as int) =~= items.subrange(
                        0,
                        acc.len() + 1int,
                    ).subrange(0, acc.len() as int));
                    assert(acc.push(item).subrange(0, acc.len() as int) =~= acc);
                }
            }
        }
    } else {
        assert(acc.subrange(0, acc.len() as int) =~= acc);
    }
}

/// Consecutive numbered lines make one list: where a line that starts with a number
/// and its `.` marker, and holds plain text, ends in a newline and the next line
/// starts with a marker too, the ordered list read at the first number holds the
/// first line's text after the `.` as its first item, holds at least one more item,
/// and ends past the second marker.
pub proof fn lemma_numbered_lines_make_one_list(toks: Seq<SpecTok>, p: int, n: int)
    requires
        ordered_marker_at(toks, p),
        p + 1 < n,
        n + 1 < toks.len(),
        toks[n] is Newline,
        forall|j: int|
            p + 1 < j < n ==> no_inline_markup(#[trigger] toks[j]) && !(toks[j] is Newline) && !(
            toks[j] is Eof),
        ordered_marker_at(toks, n + 1),
    ensures
        block_spec(toks, p) matches Some((b, e)) ==> (b matches SpecNode::OrderedList(items)
            && items.len() >= 2 && plain_text(items[0]) == toks[p + 1]->Text_0.drop_first()
            + toks_text(toks, p + 2, n) && e > n + 1),
{
    let first = crate::grammar::after_marker(toks, p);
    let t = toks[p + 1]->Text_0;
    lemma_inlines_line(toks, p + 2, n, first);
    let (c0, r) = inlines_spec(toks, p + 2, Stop::Newline, first).unwrap();
    if t.len() > 1 {
        assert(first.drop_last() =~= Seq::<SpecNode>::empty());
        assert(plain_text(Seq::<SpecNode>::empty()) == Seq::<char>::empty());
        assert(first.last() == SpecNode::Text(t.drop_first()));
        assert(plain_text(first) == plain_text(first.drop_last()) + t.drop_first());
        assert(plain_text(first) =~= t.drop_first());
    } else {
        assert(t.drop_first() =~= Seq::<char>::empty());
        assert(plain_text(first) =~= t.drop_first());
    }
    assert(ordered_item_spec(toks, p) == Some((c0, n + 1)));
    assert(!rule_at(toks, p));
    lemma_ordered_items_grow(toks, n + 1, seq![c0]);
    assert(ordered_items_spec(toks, p, seq![]) == ordered_items_spec(toks, n + 1, seq![].push(c0)));
    assert(seq![].push(c0) =~= seq![c0]);
    if let Some((items, e)) = ordered_items_spec(toks, n + 1, seq![c0]) {
        assert(items[0] == items.subrange(0, 1)[0]);
    }
}

} // verus!
