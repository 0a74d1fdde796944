use vstd::prelude::*;

use crate::ast::SpecNode;
use crate::token::{SpecTok, tok_text, toks_text};

verus! {

// The grammar that the parser follows, written over token values.
//
// Each function reads the tokens from position `p` on and gives what it builds
// together with the position after what it read.  It gives `None` where reading
// would have to move past the last token: such input has no parse.  Markup left
// open, as in `**bold` or `[a](b`, is a case of it.

/// What ends a run of inline elements: a given token or pair of tokens, or the end
/// of input.
#[derive(Clone, Copy, PartialEq, Eq, Debug)]
pub enum Stop {
    Newline,
    Star,
    Stars,
    Tildes,
    RBracket,
    Pipe,
}

/// Whether the run of inline elements that `stop` closes ends at `p`.
pub open spec fn ends(toks: Seq<SpecTok>, p: int, stop: Stop) -> bool {
    ||| toks[p] is Eof
    ||| match stop {
        Stop::Newline => toks[p] is Newline,
        Stop::Star => toks[p] is Star,
        Stop::Stars => toks[p] is Star && in_range(toks, p + 1) && toks[p + 1] is Star,
        Stop::Tildes => toks[p] is Tilde && in_range(toks, p + 1) && toks[p + 1] is Tilde,
        Stop::RBracket => toks[p] is RBracket,
        Stop::Pipe => toks[p] is Pipe || toks[p] is Newline,
    }
}

/// Position `p` holds a token.
pub open spec fn in_range(toks: Seq<SpecTok>, p: int) -> bool {
    0 <= p < toks.len()
}

/// Moving on by `n` tokens from `p`: possible while a token remains to stand on.
pub open spec fn skip(toks: Seq<SpecTok>, p: int, n: int) -> Option<int> {
    if 0 <= p && p + n < toks.len() {
        Some(p + n)
    } else {
        None
    }
}

/// Three backticks in a row start at `p`.
pub open spec fn fence_at(toks: Seq<SpecTok>, p: int) -> bool {
    &&& in_range(toks, p + 2)
    &&& 0 <= p
    &&& toks[p] is Backtick
    &&& toks[p + 1] is Backtick
    &&& toks[p + 2] is Backtick
}

/// After a line's content: a newline, if there is one, is consumed.
pub open spec fn end_line(toks: Seq<SpecTok>, p: int) -> Option<int> {
    if in_range(toks, p) && toks[p] is Newline {
        skip(toks, p, 1)
    } else {
        Some(p)
    }
}

/// One inline element at `p`.
pub open spec fn inline_spec(toks: Seq<SpecTok>, p: int) -> Option<(SpecNode, int)>
    decreases toks.len() - p, 1nat,
{
    if !in_range(toks, p) {
        None
    } else {
        match toks[p] {
            SpecTok::Text(t) => match skip(toks, p, 1) {
                Some(q) => Some((SpecNode::Text(t), q)),
                None => None,
            },
            SpecTok::Star => if !in_range(toks, p + 1) {
                None
            } else if toks[p + 1] is Star {
                strong_spec(toks, p)
            } else {
                emphasis_spec(toks, p)
            },
            SpecTok::Backtick => code_inline_spec(toks, p),
            SpecTok::LBracket => link_spec(toks, p),
            SpecTok::Tilde => if !in_range(toks, p + 1) {
                None
            } else if toks[p + 1] is Tilde {
                strikethrough_spec(toks, p)
            } else {
                match skip(toks, p, 1) {
                    Some(q) => Some((SpecNode::Text(seq!['~']), q)),
                    None => None,
                }
            },
            SpecTok::Newline => match skip(toks, p, 1) {
                Some(q) => Some((SpecNode::SoftBreak, q)),
                None => None,
            },
            _ => text_token_spec(toks, p),
        }
    }
}

/// Inline elements from `p` on, after those in `acc`, up to the token that `stop` closes.
pub open spec fn inlines_spec(toks: Seq<SpecTok>, p: int, stop: Stop, acc: Seq<SpecNode>) -> Option<
    (Seq<SpecNode>, int),
>
    decreases toks.len() - p, 2nat,
{
    if !in_range(toks, p) {
        None
    } else if ends(toks, p, stop) {
        Some((acc, p))
    } else {
        match image_parts(toks, p) {
            Some((alt, url, e)) => if p < e < toks.len() {
                inlines_spec(toks, e, stop, acc + image_nodes(toks[p]->Text_0, alt, url))
            } else {
                None
            },
            None => match inline_spec(toks, p) {
                Some((n, q)) => if p < q < toks.len() {
                    inlines_spec(toks, q, stop, acc.push(n))
                } else {
                    None
                },
                None => None,
            },
        }
    }
}

/// `**strong**`: two markers, inline elements up to two stars, then those two.
pub open spec fn strong_spec(toks: Seq<SpecTok>, p: int) -> Option<(SpecNode, int)>
    decreases toks.len() - p, 0nat,
{
    match skip(toks, p, 2) {
        Some(q) => match inlines_spec(toks, q, Stop::Stars, seq![]) {
            Some((c, r)) => match skip(toks, r, 2) {
                Some(e) => Some((SpecNode::Strong(c), e)),
                None => None,
            },
            None => None,
        },
        None => None,
    }
}

/// `*emphasis*`: one marker, inline elements up to a star, then one token.
pub open spec fn emphasis_spec(toks: Seq<SpecTok>, p: int) -> Option<(SpecNode, int)>
    decreases toks.len() - p, 0nat,
{
    match skip(toks, p, 1) {
        Some(q) => match inlines_spec(toks, q, Stop::Star, seq![]) {
            Some((c, r)) => match skip(toks, r, 1) {
                Some(e) => Some((SpecNode::Emphasis(c), e)),
                None => None,
            },
            None => None,
        },
        None => None,
    }
}

/// `~~struck~~`: two markers, inline elements up to two tildes, then those two.
pub open spec fn strikethrough_spec(toks: Seq<SpecTok>, p: int) -> Option<(SpecNode, int)>
    decreases toks.len() - p, 0nat,
{
    match skip(toks, p, 2) {
        Some(q) => match inlines_spec(toks, q, Stop::Tildes, seq![]) {
            Some((c, r)) => match skip(toks, r, 2) {
                Some(e) => Some((SpecNode::Strikethrough(c), e)),
                None => None,
            },
            None => None,
        },
        None => None,
    }
}

/// What ends a run of source text: a given token, or the end of input.
#[derive(Clone, Copy, PartialEq, Eq, Debug)]
pub enum Close {
    Backtick,
    RBracket,
    RParen,
}

/// Whether `t` ends a run of source text that `close` closes.
pub open spec fn closes(close: Close, t: SpecTok) -> bool {
    ||| t is Eof
    ||| match close {
        Close::Backtick => t is Backtick,
        Close::RBracket => t is RBracket,
        Close::RParen => t is RParen,
    }
}

/// The source text of the tokens from `p` on, after `acc`, up to the token that
/// `close` closes, which is not read.
pub open spec fn source_spec(toks: Seq<SpecTok>, p: int, close: Close, acc: Seq<char>) -> Option<
    (Seq<char>, int),
>
    decreases toks.len() - p,
{
    if !in_range(toks, p) {
        None
    } else if closes(close, toks[p]) {
        Some((acc, p))
    } else {
        match skip(toks, p, 1) {
            Some(q) => source_spec(toks, q, close, acc + tok_text(toks[p])),
            None => None,
        }
    }
}

/// `` `code` ``: a backtick, the source text up to the next backtick, then one token.
pub open spec fn code_inline_spec(toks: Seq<SpecTok>, p: int) -> Option<(SpecNode, int)> {
    match skip(toks, p, 1) {
        Some(q) => match source_spec(toks, q, Close::Backtick, seq![]) {
            Some((c, r)) => match skip(toks, r, 1) {
                Some(e) => Some((SpecNode::InlineCode(c), e)),
                None => None,
            },
            None => None,
        },
        None => None,
    }
}

/// `[text](url)`, whose address is the source text between the parentheses; where
/// the brackets are not followed by a parenthesis, the source text of what was read
/// stands as plain text.
pub open spec fn link_spec(toks: Seq<SpecTok>, p: int) -> Option<(SpecNode, int)>
    decreases toks.len() - p, 0nat,
{
    match skip(toks, p, 1) {
        Some(q) => match inlines_spec(toks, q, Stop::RBracket, seq![]) {
            Some((text, r)) => if toks[r] is RBracket {
                match skip(toks, r, 1) {
                    Some(r2) => if toks[r2] is LParen {
                        match skip(toks, r2, 1) {
                            Some(r3) => match source_spec(toks, r3, Close::RParen, seq![]) {
                                Some((url, r4)) => match skip(toks, r4, 1) {
                                    Some(e) => Some(
                                        (SpecNode::Link { text, url, title: None }, e),
                                    ),
                                    None => None,
                                },
                                None => None,
                            },
                            None => None,
                        }
                    } else {
                        Some((SpecNode::Text(toks_text(toks, p, r2)), r2))
                    },
                    None => None,
                }
            } else {
                Some((SpecNode::Text(toks_text(toks, p, r)), r))
            },
            None => None,
        },
        None => None,
    }
}

/// A text token that ends in `!`: it may open an image.
pub open spec fn bang_text(t: SpecTok) -> bool {
    t is Text && t->Text_0.len() > 0 && t->Text_0.last() == '!'
}

/// `![alt](url)` at `p`: a text token that ends in `!`, then the alternative text
/// and the address, the source text between the brackets and between the
/// parentheses; the alternative text, the address and the position after the image.
/// `None` where no whole image follows the `!`.
pub open spec fn image_parts(toks: Seq<SpecTok>, p: int) -> Option<(Seq<char>, Seq<char>, int)> {
    if 0 <= p && in_range(toks, p + 1) && bang_text(toks[p]) && toks[p + 1] is LBracket {
        match source_spec(toks, p + 2, Close::RBracket, seq![]) {
            Some((alt, r)) => if toks[r] is RBracket && in_range(toks, r + 1) && toks[r + 1] is LParen {
                match source_spec(toks, r + 2, Close::RParen, seq![]) {
                    Some((url, r4)) => if toks[r4] is RParen {
                        match skip(toks, r4, 1) {
                            Some(e) => Some((alt, url, e)),
                            None => None,
                        }
                    } else {
                        None
                    },
                    None => None,
                }
            } else {
                None
            },
            None => None,
        }
    } else {
        None
    }
}

/// The nodes of an image opened by the text `t`: the text before the `!`, if any,
/// then the image.
pub open spec fn image_nodes(t: Seq<char>, alt: Seq<char>, url: Seq<char>) -> Seq<SpecNode> {
    let image = SpecNode::Image { alt, url, title: None };
    if t.len() > 1 {
        seq![SpecNode::Text(t.drop_last()), image]
    } else {
        seq![image]
    }
}

/// Any other token, as the text it stands for.
pub open spec fn text_token_spec(toks: Seq<SpecTok>, p: int) -> Option<(SpecNode, int)> {
    match skip(toks, p, 1) {
        Some(q) => Some((SpecNode::Text(tok_text(toks[p])), q)),
        None => None,
    }
}

/// The number of `#` tokens in a row from position `i` on.
pub open spec fn hash_run(toks: Seq<SpecTok>, i: int) -> nat
    decreases toks.len() - i,
{
    if 0 <= i < toks.len() && toks[i] is Hash {
        1 + hash_run(toks, i + 1)
    } else {
        0
    }
}

/// `# heading`: the markers, whose number is the level, inline elements up to the
/// end of the line, and the newline.  More than six markers make no heading: the
/// line is a paragraph.
pub open spec fn heading_spec(toks: Seq<SpecTok>, p: int) -> Option<(SpecNode, int)> {
    let level = hash_run(toks, p);
    if level > 6 {
        paragraph_spec(toks, p)
    } else {
        match skip(toks, p, level as int) {
            Some(q) => match inlines_spec(toks, q, Stop::Newline, seq![]) {
                Some((content, r)) => match end_line(toks, r) {
                    Some(e) => Some((SpecNode::Heading { level: level as u8, content }, e)),
                    None => None,
                },
                None => None,
            },
            None => None,
        }
    }
}

/// The number of tokens equal to `t` in a row from position `i` on.
pub open spec fn run_of(toks: Seq<SpecTok>, i: int, t: SpecTok) -> nat
    decreases toks.len() - i,
{
    if 0 <= i < toks.len() && toks[i] == t {
        1 + run_of(toks, i + 1, t)
    } else {
        0
    }
}

/// A line of three or more `-`, `*` or `_` of one kind, and nothing else, starts at `p`.
pub open spec fn rule_at(toks: Seq<SpecTok>, p: int) -> bool {
    &&& in_range(toks, p)
    &&& toks[p] is Dash || toks[p] is Star || toks[p] is Underscore
    &&& run_of(toks, p, toks[p]) >= 3
    &&& in_range(toks, p + run_of(toks, p, toks[p]))
    &&& toks[p + run_of(toks, p, toks[p])] is Newline || toks[p + run_of(toks, p, toks[p])] is Eof
}

/// A horizontal rule: its markers and the newline.
pub open spec fn rule_spec(toks: Seq<SpecTok>, p: int) -> Option<(SpecNode, int)> {
    match skip(toks, p, run_of(toks, p, toks[p]) as int) {
        Some(q) => match end_line(toks, q) {
            Some(e) => Some((SpecNode::HorizontalRule, e)),
            None => None,
        },
        None => None,
    }
}

/// One list item: the marker, inline elements up to the end of the line, and the newline.
pub open spec fn list_item_spec(toks: Seq<SpecTok>, p: int) -> Option<(Seq<SpecNode>, int)> {
    match skip(toks, p, 1) {
        Some(q) => match inlines_spec(toks, q, Stop::Newline, seq![]) {
            Some((content, r)) => match end_line(toks, r) {
                Some(e) => Some((content, e)),
                None => None,
            },
            None => None,
        },
        None => None,
    }
}

/// Unordered list items from `p` on, after those in `acc`, while a dash that does
/// not start a rule starts one.
pub open spec fn list_items_spec(toks: Seq<SpecTok>, p: int, acc: Seq<Seq<SpecNode>>) -> Option<
    (Seq<Seq<SpecNode>>, int),
>
    decreases toks.len() - p,
{
    if !in_range(toks, p) {
        None
    } else if toks[p] is Dash && !rule_at(toks, p) {
        match list_item_spec(toks, p) {
            Some((item, q)) => if p < q < toks.len() {
                list_items_spec(toks, q, acc.push(item))
            } else {
                None
            },
            None => None,
        }
    } else {
        Some((acc, p))
    }
}

/// An unordered list.
pub open spec fn unordered_list_spec(toks: Seq<SpecTok>, p: int) -> Option<(SpecNode, int)> {
    match list_items_spec(toks, p, seq![]) {
        Some((items, q)) => Some((SpecNode::UnorderedList(items), q)),
        None => None,
    }
}

/// A number followed by a text token that starts with a `.` that ends the text or
/// is followed by a space: an ordered list item starts at `p`.
pub open spec fn ordered_marker_at(toks: Seq<SpecTok>, p: int) -> bool {
    &&& 0 <= p
    &&& in_range(toks, p + 1)
    &&& toks[p] is Number
    &&& toks[p + 1] matches SpecTok::Text(t) && t.len() > 0 && t[0] == '.' && (t.len() == 1
        || t[1] == ' ')
}

/// The text after the `.` of an ordered item's marker, as the item's first element,
/// if it is not empty.
pub open spec fn after_marker(toks: Seq<SpecTok>, p: int) -> Seq<SpecNode> {
    let t = toks[p + 1]->Text_0;
    if t.len() > 1 {
        seq![SpecNode::Text(t.drop_first())]
    } else {
        seq![]
    }
}

/// One ordered list item: the number and the `.`, the rest of the line, and the newline.
pub open spec fn ordered_item_spec(toks: Seq<SpecTok>, p: int) -> Option<(Seq<SpecNode>, int)> {
    match skip(toks, p, 2) {
        Some(q) => match inlines_spec(toks, q, Stop::Newline, after_marker(toks, p)) {
            Some((content, r)) => match end_line(toks, r) {
                Some(e) => Some((content, e)),
                None => None,
            },
            None => None,
        },
        None => None,
    }
}

/// Ordered list items from `p` on, after those in `acc`, while a marker starts one.
pub open spec fn ordered_items_spec(
    toks: Seq<SpecTok>,
    p: int,
    acc: Seq<Seq<SpecNode>>,
) -> Option<(Seq<Seq<SpecNode>>, int)>
    decreases toks.len() - p,
{
    if !in_range(toks, p) {
        None
    } else if ordered_marker_at(toks, p) {
        match ordered_item_spec(toks, p) {
            Some((item, q)) => if p < q < toks.len() {
                ordered_items_spec(toks, q, acc.push(item))
            } else {
                None
            },
            None => None,
        }
    } else {
        Some((acc, p))
    }
}

/// An ordered list.
pub open spec fn ordered_list_spec(toks: Seq<SpecTok>, p: int) -> Option<(SpecNode, int)> {
    match ordered_items_spec(toks, p, seq![]) {
        Some((items, q)) => Some((SpecNode::OrderedList(items), q)),
        None => None,
    }
}

/// The position of the first newline or end-of-input token from `p` on.
pub open spec fn line_end(toks: Seq<SpecTok>, p: int) -> int
    decreases toks.len() - p,
{
    if !in_range(toks, p) || toks[p] is Newline || toks[p] is Eof {
        p
    } else {
        line_end(toks, p + 1)
    }
}

/// Text that can stand in a table's separator line: dashes, colons and spaces.
pub open spec fn separator_text(t: Seq<char>) -> bool {
    forall|i: int| 0 <= i < t.len() ==> #[trigger] t[i] == '-' || t[i] == ':' || t[i] == ' '
}

/// A token that can stand in a table's separator line.
pub open spec fn separator_token(t: SpecTok) -> bool {
    ||| t is Pipe
    ||| t is Dash
    ||| t matches SpecTok::Text(s) && separator_text(s)
}

/// A token of a separator line that holds a dash.
pub open spec fn dashed(t: SpecTok) -> bool {
    ||| t is Dash
    ||| t matches SpecTok::Text(s) && s.contains('-')
}

/// The end of a separator line from `p` on, that holds a dash if `dash` or from
/// `p` on: the position of its newline or of the end of input.
pub open spec fn separator_end(toks: Seq<SpecTok>, p: int, dash: bool) -> Option<int>
    decreases toks.len() - p,
{
    if !in_range(toks, p) {
        None
    } else if toks[p] is Newline || toks[p] is Eof {
        if dash {
            Some(p)
        } else {
            None
        }
    } else if separator_token(toks[p]) {
        separator_end(toks, p + 1, dash || dashed(toks[p]))
    } else {
        None
    }
}

/// A table's separator line, such as `|---|:-:|`, starts at `p`.
pub open spec fn separator_at(toks: Seq<SpecTok>, p: int) -> bool {
    in_range(toks, p) && toks[p] is Pipe && separator_end(toks, p, false) is Some
}

/// A table starts at `p`: a line that starts with `|`, followed by a separator line.
pub open spec fn table_start(toks: Seq<SpecTok>, p: int) -> bool {
    &&& in_range(toks, p)
    &&& toks[p] is Pipe
    &&& in_range(toks, line_end(toks, p))
    &&& toks[line_end(toks, p)] is Newline
    &&& separator_at(toks, line_end(toks, p) + 1)
}

/// The cells of a table row from `p` on, after those in `acc`: the inline elements
/// between one `|` and the next, up to the end of the line.
pub open spec fn cells_spec(toks: Seq<SpecTok>, p: int, acc: Seq<Seq<SpecNode>>) -> Option<
    (Seq<Seq<SpecNode>>, int),
>
    decreases toks.len() - p,
{
    if !in_range(toks, p) {
        None
    } else if toks[p] is Newline || toks[p] is Eof {
        Some((acc, p))
    } else {
        match inlines_spec(toks, p, Stop::Pipe, seq![]) {
            Some((cell, r)) => if toks[r] is Pipe {
                match skip(toks, r, 1) {
                    Some(r2) => if p < r2 < toks.len() {
                        cells_spec(toks, r2, acc.push(cell))
                    } else {
                        None
                    },
                    None => None,
                }
            } else {
                Some((acc.push(cell), r))
            },
            None => None,
        }
    }
}

/// One table row: the opening `|`, the cells, and the newline.
pub open spec fn row_spec(toks: Seq<SpecTok>, p: int) -> Option<(Seq<Seq<SpecNode>>, int)> {
    match skip(toks, p, 1) {
        Some(q) => match cells_spec(toks, q, seq![]) {
            Some((cells, r)) => match end_line(toks, r) {
                Some(e) => Some((cells, e)),
                None => None,
            },
            None => None,
        },
        None => None,
    }
}

/// Table rows from `p` on, after those in `acc`, while a line starts with `|`.
pub open spec fn rows_spec(toks: Seq<SpecTok>, p: int, acc: Seq<Seq<Seq<SpecNode>>>) -> Option<
    (Seq<Seq<Seq<SpecNode>>>, int),
>
    decreases toks.len() - p,
{
    if !in_range(toks, p) {
        None
    } else if toks[p] is Pipe {
        match row_spec(toks, p) {
            Some((row, q)) => if p < q < toks.len() {
                rows_spec(toks, q, acc.push(row))
            } else {
                None
            },
            None => None,
        }
    } else {
        Some((acc, p))
    }
}

/// After a table's header: its separator line, if one is there, is passed over.
pub open spec fn skip_separator(toks: Seq<SpecTok>, p: int) -> Option<int> {
    if separator_at(toks, p) {
        end_line(toks, separator_end(toks, p, false).unwrap())
    } else {
        Some(p)
    }
}

/// A table: the header row, the separator line, and the rows.
pub open spec fn table_spec(toks: Seq<SpecTok>, p: int) -> Option<(SpecNode, int)> {
    match row_spec(toks, p) {
        Some((headers, q)) => match skip_separator(toks, q) {
            Some(q2) => match rows_spec(toks, q2, seq![]) {
                Some((rows, e)) => Some((SpecNode::Table { headers, rows }, e)),
                None => None,
            },
            None => None,
        },
        None => None,
    }
}

/// `> quote`: the marker, inline elements up to the end of the line, and the newline.
pub open spec fn blockquote_spec(toks: Seq<SpecTok>, p: int) -> Option<(SpecNode, int)> {
    match list_item_spec(toks, p) {
        Some((content, q)) => Some((SpecNode::BlockQuote(content), q)),
        None => None,
    }
}

/// The source text of a fenced block from `p` on, after `acc`, up to a fence or the end.
pub open spec fn code_body_spec(toks: Seq<SpecTok>, p: int, acc: Seq<char>) -> Option<
    (Seq<char>, int),
>
    decreases toks.len() - p,
{
    if !in_range(toks, p) {
        None
    } else if fence_at(toks, p) || toks[p] is Eof {
        Some((acc, p))
    } else {
        match skip(toks, p, 1) {
            Some(q) => code_body_spec(toks, q, acc + tok_text(toks[p])),
            None => None,
        }
    }
}

/// A fenced code block: the fence, an optional language word, the body, and three tokens.
pub open spec fn code_block_spec(toks: Seq<SpecTok>, p: int) -> Option<(SpecNode, int)> {
    match skip(toks, p, 3) {
        Some(q) => {
            let lang: Option<(Option<Seq<char>>, int)> = match toks[q] {
                SpecTok::Text(t) => match skip(toks, q, 1) {
                    Some(q2) => Some((Some(t), q2)),
                    None => None,
                },
                _ => Some((None, q)),
            };
            match lang {
                Some((language, q2)) => match code_body_spec(toks, q2, seq![]) {
                    Some((content, r)) => match skip(toks, r, 3) {
                        Some(e) => Some((SpecNode::CodeBlock { language, content }, e)),
                        None => None,
                    },
                    None => None,
                },
                None => None,
            }
        },
        None => None,
    }
}

/// Inline elements from `p` on, after those in `acc`, up to the end of the line,
/// whose newline is consumed, or the end of input.
pub open spec fn paragraph_items_spec(toks: Seq<SpecTok>, p: int, acc: Seq<SpecNode>) -> Option<
    (Seq<SpecNode>, int),
>
    decreases toks.len() - p,
{
    if !in_range(toks, p) {
        None
    } else if toks[p] is Eof {
        Some((acc, p))
    } else if toks[p] is Newline {
        match skip(toks, p, 1) {
            Some(q) => Some((acc, q)),
            None => None,
        }
    } else {
        match image_parts(toks, p) {
            Some((alt, url, e)) => if p < e < toks.len() {
                paragraph_items_spec(toks, e, acc + image_nodes(toks[p]->Text_0, alt, url))
            } else {
                None
            },
            None => match inline_spec(toks, p) {
                Some((n, q)) => if p < q < toks.len() {
                    paragraph_items_spec(toks, q, acc.push(n))
                } else {
                    None
                },
                None => None,
            },
        }
    }
}

/// A paragraph.
pub open spec fn paragraph_spec(toks: Seq<SpecTok>, p: int) -> Option<(SpecNode, int)> {
    match paragraph_items_spec(toks, p, seq![]) {
        Some((content, q)) => Some((SpecNode::Paragraph(content), q)),
        None => None,
    }
}

/// What a line that starts with a dash or a number is: a rule where it is one, an
/// unordered list at a dash, an ordered list at a number with its `.` marker, and
/// otherwise a paragraph.
pub open spec fn list_spec(toks: Seq<SpecTok>, p: int) -> Option<(SpecNode, int)> {
    if !in_range(toks, p) {
        None
    } else if rule_at(toks, p) {
        rule_spec(toks, p)
    } else if toks[p] is Dash {
        unordered_list_spec(toks, p)
    } else if ordered_marker_at(toks, p) {
        ordered_list_spec(toks, p)
    } else {
        paragraph_spec(toks, p)
    }
}

/// One block at `p`, chosen by its first tokens.
pub open spec fn block_spec(toks: Seq<SpecTok>, p: int) -> Option<(SpecNode, int)> {
    if !in_range(toks, p) {
        None
    } else if rule_at(toks, p) {
        rule_spec(toks, p)
    } else {
        match toks[p] {
            SpecTok::Hash => heading_spec(toks, p),
            SpecTok::Dash => list_spec(toks, p),
            SpecTok::Number(_) => list_spec(toks, p),
            SpecTok::GreaterThan => blockquote_spec(toks, p),
            SpecTok::Backtick => if fence_at(toks, p) {
                code_block_spec(toks, p)
            } else {
                paragraph_spec(toks, p)
            },
            SpecTok::Pipe => if table_start(toks, p) {
                table_spec(toks, p)
            } else {
                paragraph_spec(toks, p)
            },
            _ => paragraph_spec(toks, p),
        }
    }
}

/// Blocks from `p` on, after those in `acc`, up to the end of input; blank lines
/// between them are passed over.
pub open spec fn document_spec(toks: Seq<SpecTok>, p: int, acc: Seq<SpecNode>) -> Option<
    (Seq<SpecNode>, int),
>
    decreases toks.len() - p,
{
    if !in_range(toks, p) {
        None
    } else if toks[p] is Eof {
        Some((acc, p))
    } else if toks[p] is Newline {
        match skip(toks, p, 1) {
            Some(q) => document_spec(toks, q, acc),
            None => None,
        }
    } else {
        match block_spec(toks, p) {
            Some((b, q)) => if p < q < toks.len() {
                document_spec(toks, q, acc.push(b))
            } else {
                None
            },
            None => None,
        }
    }
}

/// The document that a token sequence parses to, from its start.
pub open spec fn parse_spec(toks: Seq<SpecTok>) -> Option<Seq<SpecNode>> {
    match document_spec(toks, 0, seq![]) {
        Some((nodes, _)) => Some(nodes),
        None => None,
    }
}


} // verus!
