use vstd::prelude::*;

use crate::grammar::{
    Close, Stop, after_marker, block_spec, blockquote_spec, cells_spec, closes, code_block_spec,
    code_body_spec, code_inline_spec, document_spec, emphasis_spec, end_line, ends, fence_at,
    hash_run, heading_spec, image_nodes, image_parts, inline_spec, inlines_spec, line_end,
    link_spec, list_item_spec, list_items_spec, list_spec, ordered_item_spec, ordered_items_spec,
    ordered_list_spec, ordered_marker_at, paragraph_items_spec, paragraph_spec, parse_spec,
    row_spec, rows_spec, rule_at, rule_spec, run_of, separator_at, separator_end, separator_text,
    skip_separator, source_spec, strikethrough_spec, strong_spec, table_spec, table_start,
    text_token_spec, unordered_list_spec,
};
use crate::text::{chars_of, string_of};
use crate::token::{LexTok, SpecTok, tok_text, toks_text, toks_view};

verus! {

broadcast use vstd::std_specs::vec::group_vec_axioms, vstd::seq::group_seq_axioms;

/// A node of the document tree: blocks and the inline pieces inside them.
#[derive(Debug, PartialEq)]
#[allow(inconsistent_fields)]
pub enum Node {
    Heading { level: u8, content: Vec<Node> },
    Paragraph(Vec<Node>),
    BlockQuote(Vec<Node>),
    UnorderedList(Vec<Vec<Node>>),
    OrderedList(Vec<Vec<Node>>),
    CodeBlock { language: Option<String>, content: String },
    HorizontalRule,
    Table { headers: Vec<Vec<Node>>, rows: Vec<Vec<Vec<Node>>> },
    Text(String),
    Emphasis(Vec<Node>),
    Strong(Vec<Node>),
    Strikethrough(Vec<Node>),
    InlineCode(String),
    Link { text: Vec<Node>, url: String, title: Option<String> },
    Image { alt: String, url: String, title: Option<String> },
    LineBreak,
    SoftBreak,
    Html(String),
    EscapedChar(char),
}

/// The mathematical value of a `Node`: the same tree, with sequences for vectors
/// and character sequences for strings.
#[allow(inconsistent_fields)]
pub enum SpecNode {
    Heading { level: u8, content: Seq<SpecNode> },
    Paragraph(Seq<SpecNode>),
    BlockQuote(Seq<SpecNode>),
    UnorderedList(Seq<Seq<SpecNode>>),
    OrderedList(Seq<Seq<SpecNode>>),
    CodeBlock { language: Option<Seq<char>>, content: Seq<char> },
    HorizontalRule,
    Table { headers: Seq<Seq<SpecNode>>, rows: Seq<Seq<Seq<SpecNode>>> },
    Text(Seq<char>),
    Emphasis(Seq<SpecNode>),
    Strong(Seq<SpecNode>),
    Strikethrough(Seq<SpecNode>),
    InlineCode(Seq<char>),
    Link { text: Seq<SpecNode>, url: Seq<char>, title: Option<Seq<char>> },
    Image { alt: Seq<char>, url: Seq<char>, title: Option<Seq<char>> },
    LineBreak,
    SoftBreak,
    Html(Seq<char>),
    EscapedChar(char),
}

pub open spec fn opt_str_view(s: Option<String>) -> Option<Seq<char>> {
    match s {
        Some(t) => Some(t@),
        None => None,
    }
}

/// The value of a node.
pub open spec fn node_view(n: Node) -> SpecNode
    decreases n,
{
    match n {
        Node::Heading { level, content } => SpecNode::Heading { level, content: nodes_view(content@) },
        Node::Paragraph(c) => SpecNode::Paragraph(nodes_view(c@)),
        Node::BlockQuote(c) => SpecNode::BlockQuote(nodes_view(c@)),
        Node::UnorderedList(items) => SpecNode::UnorderedList(items_view(items@)),
        Node::OrderedList(items) => SpecNode::OrderedList(items_view(items@)),
        Node::CodeBlock { language, content } => SpecNode::CodeBlock {
            language: opt_str_view(language),
            content: content@,
        },
        Node::HorizontalRule => SpecNode::HorizontalRule,
        Node::Table { headers, rows } => SpecNode::Table {
            headers: items_view(headers@),
            rows: rows_view(rows@),
        },
        Node::Text(t) => SpecNode::Text(t@),
        Node::Emphasis(c) => SpecNode::Emphasis(nodes_view(c@)),
        Node::Strong(c) => SpecNode::Strong(nodes_view(c@)),
        Node::Strikethrough(c) => SpecNode::Strikethrough(nodes_view(c@)),
        Node::InlineCode(t) => SpecNode::InlineCode(t@),
        Node::Link { text, url, title } => SpecNode::Link {
            text: nodes_view(text@),
            url: url@,
            title: opt_str_view(title),
        },
        Node::Image { alt, url, title } => SpecNode::Image {
            alt: alt@,
            url: url@,
            title: opt_str_view(title),
        },
        Node::LineBreak => SpecNode::LineBreak,
        Node::SoftBreak => SpecNode::SoftBreak,
        Node::Html(t) => SpecNode::Html(t@),
        Node::EscapedChar(c) => SpecNode::EscapedChar(c),
    }
}

/// The values of a sequence of nodes, in order.
pub open spec fn nodes_view(s: Seq<Node>) -> Seq<SpecNode>
    decreases s,
{
    if s.len() == 0 {
        seq![]
    } else {
        nodes_view(s.drop_last()).push(node_view(s.last()))
    }
}

/// The values of a sequence of node lists (list items, table cells), in order.
pub open spec fn items_view(s: Seq<Vec<Node>>) -> Seq<Seq<SpecNode>>
    decreases s,
{
    if s.len() == 0 {
        seq![]
    } else {
        items_view(s.drop_last()).push(nodes_view(s.last()@))
    }
}

/// The values of a sequence of table rows, in order.
pub open spec fn rows_view(s: Seq<Vec<Vec<Node>>>) -> Seq<Seq<Seq<SpecNode>>>
    decreases s,
{
    if s.len() == 0 {
        seq![]
    } else {
        rows_view(s.drop_last()).push(items_view(s.last()@))
    }
}

impl View for Node {
    type V = SpecNode;

    open spec fn view(&self) -> SpecNode {
        node_view(*self)
    }
}

/// Pushing a node adds its value at the end.
pub proof fn lemma_nodes_view_push(s: Seq<Node>, n: Node)
    ensures
        nodes_view(s.push(n)) == nodes_view(s).push(node_view(n)),
{
    assert(s.push(n).drop_last() =~= s);
}

fn clone_opt_string(s: &Option<String>) -> (r: Option<String>)
    ensures
        opt_str_view(r) == opt_str_view(*s),
{
    match s {
        Some(t) => Some(t.clone()),
        None => None,
    }
}

/// Copies of nodes, one by one.
fn clone_nodes(v: &Vec<Node>) -> (r: Vec<Node>)
    ensures
        nodes_view(r@) == nodes_view(v@),
    decreases v@, 0nat,
{
    let mut r: Vec<Node> = Vec::new();
    let mut i: usize = 0;
    while i < v.len()
        invariant
            i <= v@.len(),
            nodes_view(r@) == nodes_view(v@.take(i as int)),
        decreases v@.len() - i,
    {
        proof {
            assert(decreases_to!(v@ => v@[i as int]));
        }
        let c = v[i].clone();
        let ghost before = r@;
        r.push(c);
        proof {
            lemma_nodes_view_push(before, c);
            lemma_nodes_view_push(v@.take(i as int), v@[i as int]);
            assert(v@.take(i + 1) =~= v@.take(i as int).push(v@[i as int]));
        }
        i = i + 1;
    }
    proof {
        assert(v@.take(i as int) =~= v@);
    }
    r
}

/// Copies of node lists, one by one.
fn clone_items(v: &Vec<Vec<Node>>) -> (r: Vec<Vec<Node>>)
    ensures
        items_view(r@) == items_view(v@),
    decreases v@, 0nat,
{
    let mut r: Vec<Vec<Node>> = Vec::new();
    let mut i: usize = 0;
    while i < v.len()
        invariant
            i <= v@.len(),
            items_view(r@) == items_view(v@.take(i as int)),
        decreases v@.len() - i,
    {
        proof {
            assert(decreases_to!(v@ => v@[i as int]));
            assert(decreases_to!(v@[i as int] => v@[i as int]@));
        }
        let c = clone_nodes(&v[i]);
        let ghost before = r@;
        r.push(c);
        proof {
            lemma_items_view_push(before, c);
            lemma_items_view_push(v@.take(i as int), v@[i as int]);
            assert(v@.take(i + 1) =~= v@.take(i as int).push(v@[i as int]));
        }
        i = i + 1;
    }
    proof {
        assert(v@.take(i as int) =~= v@);
    }
    r
}

/// Copies of table rows, one by one.
fn clone_rows(v: &Vec<Vec<Vec<Node>>>) -> (r: Vec<Vec<Vec<Node>>>)
    ensures
        rows_view(r@) == rows_view(v@),
    decreases v@, 0nat,
{
    let mut r: Vec<Vec<Vec<Node>>> = Vec::new();
    let mut i: usize = 0;
    while i < v.len()
        invariant
            i <= v@.len(),
            rows_view(r@) == rows_view(v@.take(i as int)),
        decreases v@.len() - i,
    {
        proof {
            assert(decreases_to!(v@ => v@[i as int]));
        }
        let c = clone_items(&v[i]);
        let ghost before = r@;
        r.push(c);
        proof {
            lemma_rows_view_push(before, c);
            lemma_rows_view_push(v@.take(i as int), v@[i as int]);
            assert(v@.take(i + 1) =~= v@.take(i as int).push(v@[i as int]));
        }
        i = i + 1;
    }
    proof {
        assert(v@.take(i as int) =~= v@);
    }
    r
}

impl Clone for Node {
    /// A copy with the same value.
    fn clone(&self) -> (r: Self)
        ensures
            r@ == self@,
        decreases self, 0nat,
    {
        match self {
            Node::Heading { level, content } => Node::Heading {
                level: *level,
                content: clone_nodes(content),
            },
            Node::Paragraph(c) => Node::Paragraph(clone_nodes(c)),
            Node::BlockQuote(c) => Node::BlockQuote(clone_nodes(c)),
            Node::UnorderedList(items) => Node::UnorderedList(clone_items(items)),
            Node::OrderedList(items) => Node::OrderedList(clone_items(items)),
            Node::CodeBlock { language, content } => Node::CodeBlock {
                language: clone_opt_string(language),
                content: content.clone(),
            },
            Node::HorizontalRule => Node::HorizontalRule,
            Node::Table { headers, rows } => Node::Table {
                headers: clone_items(headers),
                rows: clone_rows(rows),
            },
            Node::Text(t) => Node::Text(t.clone()),
            Node::Emphasis(c) => Node::Emphasis(clone_nodes(c)),
            Node::Strong(c) => Node::Strong(clone_nodes(c)),
            Node::Strikethrough(c) => Node::Strikethrough(clone_nodes(c)),
            Node::InlineCode(t) => Node::InlineCode(t.clone()),
            Node::Link { text, url, title } => Node::Link {
                text: clone_nodes(text),
                url: url.clone(),
                title: clone_opt_string(title),
            },
            Node::Image { alt, url, title } => Node::Image {
                alt: alt.clone(),
                url: url.clone(),
                title: clone_opt_string(title),
            },
            Node::LineBreak => Node::LineBreak,
            Node::SoftBreak => Node::SoftBreak,
            Node::Html(t) => Node::Html(t.clone()),
            Node::EscapedChar(c) => Node::EscapedChar(*c),
        }
    }
}

/// Pushing a row adds its value at the end.
pub proof fn lemma_rows_view_push(s: Seq<Vec<Vec<Node>>>, n: Vec<Vec<Node>>)
    ensures
        rows_view(s.push(n)) == rows_view(s).push(items_view(n@)),
{
    assert(s.push(n).drop_last() =~= s);
}

/// Pushing an item adds its value at the end.
pub proof fn lemma_items_view_push(s: Seq<Vec<Node>>, n: Vec<Node>)
    ensures
        items_view(s.push(n)) == items_view(s).push(nodes_view(n@)),
{
    assert(s.push(n).drop_last() =~= s);
}

/// `r` and the final position `pos` are what the grammar gives in `m`:
/// the node and the position after it, or nothing.
pub open spec fn yields(m: Option<(SpecNode, int)>, r: Option<Node>, pos: int) -> bool {
    match m {
        Some((v, q)) => r matches Some(n) && n@ == v && pos == q,
        None => r is None,
    }
}

/// As `yields`, for a sequence of nodes.
pub open spec fn yields_nodes(m: Option<(Seq<SpecNode>, int)>, r: Option<Vec<Node>>, pos: int) -> bool {
    match m {
        Some((v, q)) => r matches Some(n) && nodes_view(n@) == v && pos == q,
        None => r is None,
    }
}

/// As `yields`, for source text.
pub open spec fn yields_text(m: Option<(Seq<char>, int)>, r: Option<String>, pos: int) -> bool {
    match m {
        Some((v, q)) => r matches Some(n) && n@ == v && pos == q,
        None => r is None,
    }
}

/// A recursive-descent parser over a token sequence.
pub struct Parser {
    tokens: Vec<LexTok>,
    pos: usize,
}

impl Parser {
    /// The values of the tokens.
    pub closed spec fn toks(&self) -> Seq<SpecTok> {
        toks_view(self.tokens@)
    }

    /// The position of the next token to read.
    pub closed spec fn position(&self) -> int {
        self.pos as int
    }

    /// Position and tokens describe a parser that can read on.
    spec fn ready(&self) -> bool {
        self.pos < self.tokens.len()
    }

    /// Only the position moved.
    spec fn same_tokens(&self, other: &Parser) -> bool {
        self.tokens == other.tokens
    }

    /// A parser at the start of `tokens`.
    pub fn new(tokens: Vec<LexTok>) -> (p: Self)
        ensures
            p.toks() == toks_view(tokens@),
            p.position() == 0,
    {
        Self { tokens, pos: 0 }
    }

    /// Parses the blocks from the current position to the end of input; `None`
    /// where the grammar has no parse, that is where reading would go past the last token.
    pub fn try_parse(&mut self) -> (r: Option<Vec<Node>>)
        ensures
            final(self).toks() == old(self).toks(),
            yields_nodes(
                document_spec(old(self).toks(), old(self).position(), seq![]),
                r,
                final(self).position(),
            ),
    {
        if self.pos >= self.tokens.len() {
            return None;
        }
        let ghost toks = self.toks();
        let ghost p0 = self.pos as int;
        let mut nodes: Vec<Node> = Vec::new();
        loop
            invariant
                self.ready(),
                self.toks() == toks,
                toks == old(self).toks(),
                p0 == old(self).position(),
                document_spec(toks, p0, seq![]) == document_spec(
                    toks,
                    self.pos as int,
                    nodes_view(nodes@),
                ),
            decreases self.tokens.len() - self.pos,
        {
            if self.is_eof() {
                return Some(nodes);
            }
            if self.at_newline() {
                if !self.advance() {
                    return None;
                }
            } else {
                let ghost before = nodes@;
                match self.parse_block() {
                    Some(b) => {
                        proof {
                            lemma_nodes_view_push(before, b);
                        }
                        nodes.push(b);
                    },
                    None => return None,
                }
            }
        }
    }

    /// Parses the blocks from the current position to the end of input.
    pub fn parse(&mut self) -> (r: Vec<Node>)
        requires
            document_spec(old(self).toks(), old(self).position(), seq![]) is Some,
        ensures
            final(self).toks() == old(self).toks(),
            document_spec(old(self).toks(), old(self).position(), seq![]) == Some(
                (nodes_view(r@), final(self).position()),
            ),
    {
        let r = self.try_parse();
        r.unwrap()
    }
}

// The blocks.
impl Parser {
    fn parse_block(&mut self) -> (r: Option<Node>)
        requires
            old(self).ready(),
            !(old(self).toks()[old(self).position()] is Eof),
            !(old(self).toks()[old(self).position()] is Newline),
        ensures
            final(self).ready(),
            final(self).same_tokens(old(self)),
            r is Some ==> final(self).pos > old(self).pos,
            yields(block_spec(old(self).toks(), old(self).position()), r, final(self).position()),
    {
        if self.is_rule() {
            return self.parse_rule();
        }
        match self.peek() {
            LexTok::Hash => self.parse_heading(),
            LexTok::Dash | LexTok::Number(_) => self.parse_list(),
            LexTok::GreaterThan => self.parse_blockquote(),
            LexTok::Backtick => {
                if self.is_code_block_start() {
                    self.parse_code_block()
                } else {
                    self.parse_paragraph()
                }
            },
            LexTok::Pipe => {
                if self.is_table_start() {
                    self.parse_table()
                } else {
                    self.parse_paragraph()
                }
            },
            _ => self.parse_paragraph(),
        }
    }

    fn parse_paragraph(&mut self) -> (r: Option<Node>)
        requires
            old(self).ready(),
            !(old(self).toks()[old(self).position()] is Eof),
            !(old(self).toks()[old(self).position()] is Newline),
        ensures
            final(self).ready(),
            final(self).same_tokens(old(self)),
            r is Some ==> final(self).pos > old(self).pos,
            yields(paragraph_spec(old(self).toks(), old(self).position()), r, final(self).position()),
    {
        let ghost toks = self.toks();
        let ghost p0 = self.pos as int;
        let mut content: Vec<Node> = Vec::new();
        loop
            invariant
                self.ready(),
                self.same_tokens(old(self)),
                self.toks() == toks,
                p0 == old(self).position(),
                p0 <= self.pos,
                !(toks[p0] is Eof),
                !(toks[p0] is Newline),
                paragraph_items_spec(toks, p0, seq![]) == paragraph_items_spec(
                    toks,
                    self.pos as int,
                    nodes_view(content@),
                ),
            decreases self.tokens.len() - self.pos,
        {
            if self.is_eof() {
                return Some(Node::Paragraph(content));
            }
            if self.at_newline() {
                if !self.advance() {
                    return None;
                }
                return Some(Node::Paragraph(content));
            }
            if self.parse_image(&mut content) {
                continue;
            }
            let ghost before = content@;
            match self.parse_inline() {
                Some(n) => {
                    proof {
                        lemma_nodes_view_push(before, n);
                    }
                    content.push(n);
                },
                None => return None,
            }
        }
    }

    fn parse_heading(&mut self) -> (r: Option<Node>)
        requires
            old(self).ready(),
            old(self).toks()[old(self).position()] is Hash,
        ensures
            final(self).ready(),
            final(self).same_tokens(old(self)),
            r is Some ==> final(self).pos > old(self).pos,
            yields(heading_spec(old(self).toks(), old(self).position()), r, final(self).position()),
    {
        let ghost toks = self.toks();
        let ghost p0 = self.pos as int;
        let n = self.hash_count();
        if n > 6 {
            return self.parse_paragraph();
        }
        let mut i: usize = 0;
        while i < n
            invariant
                self.ready(),
                self.same_tokens(old(self)),
                self.toks() == toks,
                p0 == old(self).position(),
                n == hash_run(toks, p0),
                n <= 6,
                i <= n,
                self.pos == p0 + i,
            decreases n - i,
        {
            if !self.advance() {
                return None;
            }
            i = i + 1;
        }
        let content = match self.parse_inlines(Stop::Newline, Vec::new()) {
            Some(c) => c,
            None => return None,
        };
        if !self.consume_newlines() {
            return None;
        }
        proof {
            assert(hash_run(toks, p0) >= 1);
        }
        Some(Node::Heading { level: n as u8, content })
    }

    fn parse_rule(&mut self) -> (r: Option<Node>)
        requires
            old(self).ready(),
            rule_at(old(self).toks(), old(self).position()),
        ensures
            final(self).ready(),
            final(self).same_tokens(old(self)),
            r is Some ==> final(self).pos > old(self).pos,
            yields(rule_spec(old(self).toks(), old(self).position()), r, final(self).position()),
    {
        let ghost toks = self.toks();
        let ghost p0 = self.pos as int;
        let n = self.run_count();
        let mut i: usize = 0;
        while i < n
            invariant
                self.ready(),
                self.same_tokens(old(self)),
                self.toks() == toks,
                p0 == old(self).position(),
                n == run_of(toks, p0, toks[p0]),
                i <= n,
                self.pos == p0 + i,
            decreases n - i,
        {
            if !self.advance() {
                return None;
            }
            i = i + 1;
        }
        if !self.consume_newlines() {
            return None;
        }
        Some(Node::HorizontalRule)
    }

    fn parse_list(&mut self) -> (r: Option<Node>)
        requires
            old(self).ready(),
            old(self).toks()[old(self).position()] is Dash || old(self).toks()[old(
                self,
            ).position()] is Number,
        ensures
            final(self).ready(),
            final(self).same_tokens(old(self)),
            r is Some ==> final(self).pos > old(self).pos,
            yields(list_spec(old(self).toks(), old(self).position()), r, final(self).position()),
    {
        if self.is_rule() {
            self.parse_rule()
        } else if self.at_dash() {
            self.parse_unordered_list()
        } else if self.is_ordered_marker() {
            self.parse_ordered_list()
        } else {
            self.parse_paragraph()
        }
    }

    fn parse_unordered_list(&mut self) -> (r: Option<Node>)
        requires
            old(self).ready(),
            old(self).toks()[old(self).position()] is Dash,
            !rule_at(old(self).toks(), old(self).position()),
        ensures
            final(self).ready(),
            final(self).same_tokens(old(self)),
            r is Some ==> final(self).pos > old(self).pos,
            yields(unordered_list_spec(old(self).toks(), old(self).position()), r, final(self).position()),
    {
        let ghost toks = self.toks();
        let ghost p0 = self.pos as int;
        let mut items: Vec<Vec<Node>> = Vec::new();
        while self.at_dash() && !self.is_rule()
            invariant
                self.ready(),
                self.same_tokens(old(self)),
                self.toks() == toks,
                p0 == old(self).position(),
                p0 <= self.pos,
                toks[p0] is Dash && !rule_at(toks, p0),
                list_items_spec(toks, p0, seq![]) == list_items_spec(
                    toks,
                    self.pos as int,
                    items_view(items@),
                ),
            decreases self.tokens.len() - self.pos,
        {
            let ghost before = items@;
            match self.parse_list_item() {
                Some(item) => {
                    proof {
                        lemma_items_view_push(before, item);
                    }
                    items.push(item);
                },
                None => return None,
            }
        }
        Some(Node::UnorderedList(items))
    }

    fn parse_ordered_list(&mut self) -> (r: Option<Node>)
        requires
            old(self).ready(),
            ordered_marker_at(old(self).toks(), old(self).position()),
        ensures
            final(self).ready(),
            final(self).same_tokens(old(self)),
            r is Some ==> final(self).pos > old(self).pos,
            yields(ordered_list_spec(old(self).toks(), old(self).position()), r, final(self).position()),
    {
        let ghost toks = self.toks();
        let ghost p0 = self.pos as int;
        let mut items: Vec<Vec<Node>> = Vec::new();
        while self.is_ordered_marker()
            invariant
                self.ready(),
                self.same_tokens(old(self)),
                self.toks() == toks,
                p0 == old(self).position(),
                p0 <= self.pos,
                ordered_marker_at(toks, p0),
                ordered_items_spec(toks, p0, seq![]) == ordered_items_spec(
                    toks,
                    self.pos as int,
                    items_view(items@),
                ),
            decreases self.tokens.len() - self.pos,
        {
            let ghost before = items@;
            match self.parse_ordered_item() {
                Some(item) => {
                    proof {
                        lemma_items_view_push(before, item);
                    }
                    items.push(item);
                },
                None => return None,
            }
        }
        Some(Node::OrderedList(items))
    }

    fn parse_ordered_item(&mut self) -> (r: Option<Vec<Node>>)
        requires
            old(self).ready(),
            ordered_marker_at(old(self).toks(), old(self).position()),
        ensures
            final(self).ready(),
            final(self).same_tokens(old(self)),
            r is Some ==> final(self).pos > old(self).pos,
            yields_nodes(
                ordered_item_spec(old(self).toks(), old(self).position()),
                r,
                final(self).position(),
            ),
    {
        let ghost toks = self.toks();
        let ghost p0 = self.pos as int;
        let mut first: Vec<Node> = Vec::new();
        match &self.tokens[self.pos + 1] {
            LexTok::Text(t) => {
                let n = t.as_str().unicode_len();
                if n > 1 {
                    let rest = String::from_str(t.as_str().substring_char(1, n));
                    proof {
                        assert(rest@ =~= t@.drop_first());
                    }
                    let ghost empty = first@;
                    let node = Node::Text(rest);
                    proof {
                        lemma_nodes_view_push(empty, node);
                        assert(nodes_view(empty) == Seq::<SpecNode>::empty());
                    }
                    first.push(node);
                    proof {
                        assert(nodes_view(first@) =~= seq![SpecNode::Text(t@.drop_first())]);
                    }
                }
            },
            _ => {},
        }
        assert(nodes_view(first@) == after_marker(toks, p0));
        if !self.advance() || !self.advance() {
            return None;
        }
        let content = match self.parse_inlines(Stop::Newline, first) {
            Some(c) => c,
            None => return None,
        };
        if !self.consume_newlines() {
            return None;
        }
        Some(content)
    }

    fn parse_table(&mut self) -> (r: Option<Node>)
        requires
            old(self).ready(),
            old(self).toks()[old(self).position()] is Pipe,
        ensures
            final(self).ready(),
            final(self).same_tokens(old(self)),
            r is Some ==> final(self).pos > old(self).pos,
            yields(table_spec(old(self).toks(), old(self).position()), r, final(self).position()),
    {
        let ghost toks = self.toks();
        let ghost p0 = self.pos as int;
        let headers = match self.parse_row() {
            Some(h) => h,
            None => return None,
        };
        let ghost q1 = self.pos as int;
        if self.is_separator_at(self.pos) {
            let end = self.separator_end_at(self.pos).unwrap();
            self.pos = end;
            if !self.consume_newlines() {
                return None;
            }
        }
        let ghost q2 = self.pos as int;
        let mut rows: Vec<Vec<Vec<Node>>> = Vec::new();
        while self.at_pipe()
            invariant
                self.ready(),
                self.same_tokens(old(self)),
                self.toks() == toks,
                p0 < q2 <= self.pos,
                toks == old(self).toks(),
                p0 == old(self).position(),
                row_spec(toks, p0) == Some((items_view(headers@), q1)),
                skip_separator(toks, q1) == Some(q2),
                rows_spec(toks, q2, seq![]) == rows_spec(toks, self.pos as int, rows_view(rows@)),
            decreases self.tokens.len() - self.pos,
        {
            let ghost before = rows@;
            match self.parse_row() {
                Some(row) => {
                    proof {
                        lemma_rows_view_push(before, row);
                    }
                    rows.push(row);
                },
                None => return None,
            }
        }
        Some(Node::Table { headers, rows })
    }

    /// One table row: its cells, with the newline after them consumed.
    fn parse_row(&mut self) -> (r: Option<Vec<Vec<Node>>>)
        requires
            old(self).ready(),
        ensures
            final(self).ready(),
            final(self).same_tokens(old(self)),
            r is Some ==> final(self).pos > old(self).pos,
            match row_spec(old(self).toks(), old(self).position()) {
                Some((v, q)) => r matches Some(n) && items_view(n@) == v && final(self).position()
                    == q,
                None => r is None,
            },
    {
        let ghost toks = self.toks();
        if !self.advance() {
            return None;
        }
        let ghost q0 = self.pos as int;
        let mut cells: Vec<Vec<Node>> = Vec::new();
        loop
            invariant
                self.ready(),
                self.same_tokens(old(self)),
                self.toks() == toks,
                toks == old(self).toks(),
                q0 == old(self).position() + 1,
                q0 <= self.pos,
                cells_spec(toks, q0, seq![]) == cells_spec(toks, self.pos as int, items_view(cells@)),
            decreases self.tokens.len() - self.pos,
        {
            if self.at_newline() || self.is_eof() {
                if !self.consume_newlines() {
                    return None;
                }
                return Some(cells);
            }
            let ghost p = self.pos as int;
            let cell = match self.parse_inlines(Stop::Pipe, Vec::new()) {
                Some(c) => c,
                None => return None,
            };
            let ghost before = cells@;
            proof {
                lemma_items_view_push(before, cell);
            }
            cells.push(cell);
            if self.at_pipe() {
                if !self.advance() {
                    return None;
                }
            } else {
                if !self.consume_newlines() {
                    return None;
                }
                return Some(cells);
            }
        }
    }

    fn parse_list_item(&mut self) -> (r: Option<Vec<Node>>)
        requires
            old(self).ready(),
        ensures
            final(self).ready(),
            final(self).same_tokens(old(self)),
            r is Some ==> final(self).pos > old(self).pos,
            yields_nodes(
                list_item_spec(old(self).toks(), old(self).position()),
                r,
                final(self).position(),
            ),
    {
        if !self.advance() {
            return None;
        }
        let content = match self.parse_inlines(Stop::Newline, Vec::new()) {
            Some(c) => c,
            None => return None,
        };
        if !self.consume_newlines() {
            return None;
        }
        Some(content)
    }

    fn parse_blockquote(&mut self) -> (r: Option<Node>)
        requires
            old(self).ready(),
        ensures
            final(self).ready(),
            final(self).same_tokens(old(self)),
            r is Some ==> final(self).pos > old(self).pos,
            yields(blockquote_spec(old(self).toks(), old(self).position()), r, final(self).position()),
    {
        match self.parse_list_item() {
            Some(content) => Some(Node::BlockQuote(content)),
            None => None,
        }
    }

    fn parse_code_block(&mut self) -> (r: Option<Node>)
        requires
            old(self).ready(),
        ensures
            final(self).ready(),
            final(self).same_tokens(old(self)),
            r is Some ==> final(self).pos > old(self).pos,
            yields(code_block_spec(old(self).toks(), old(self).position()), r, final(self).position()),
    {
        if !self.advance() || !self.advance() || !self.advance() {
            return None;
        }
        let language = match self.peek() {
            LexTok::Text(t) => {
                let lang = t.clone();
                if !self.advance() {
                    return None;
                }
                Some(lang)
            },
            _ => None,
        };
        let content = match self.read_code_body() {
            Some(c) => c,
            None => return None,
        };
        if !self.advance() || !self.advance() || !self.advance() {
            return None;
        }
        Some(Node::CodeBlock { language, content })
    }
}

// The inline elements.
impl Parser {
    fn parse_inline(&mut self) -> (r: Option<Node>)
        requires
            old(self).ready(),
        ensures
            final(self).ready(),
            final(self).same_tokens(old(self)),
            r is Some ==> final(self).pos > old(self).pos,
            yields(inline_spec(old(self).toks(), old(self).position()), r, final(self).position()),
        decreases old(self).tokens.len() - old(self).pos, 1nat,
    {
        match self.peek() {
            LexTok::Text(t) => {
                let t = t.clone();
                if !self.advance() {
                    return None;
                }
                Some(Node::Text(t))
            },
            LexTok::Star => {
                match self.peek_next() {
                    None => None,
                    Some(LexTok::Star) => self.parse_strong(),
                    Some(_) => self.parse_emphasis(),
                }
            },
            LexTok::Backtick => self.parse_code_inline(),
            LexTok::LBracket => self.parse_link(),
            LexTok::Tilde => {
                match self.peek_next() {
                    None => None,
                    Some(LexTok::Tilde) => self.parse_strikethrough(),
                    Some(_) => {
                        if !self.advance() {
                            return None;
                        }
                        let tilde = String::from_str("~");
                        proof {
                            reveal_strlit("~");
                            assert(tilde@ =~= seq!['~']);
                        }
                        Some(Node::Text(tilde))
                    },
                }
            },
            LexTok::Newline => {
                if !self.advance() {
                    return None;
                }
                Some(Node::SoftBreak)
            },
            _ => self.parse_text_token(),
        }
    }

    /// Inline elements after those in `first`, up to the token that `stop` closes,
    /// which is not consumed.
    fn parse_inlines(&mut self, stop: Stop, first: Vec<Node>) -> (r: Option<Vec<Node>>)
        requires
            old(self).ready(),
        ensures
            final(self).ready(),
            final(self).same_tokens(old(self)),
            r is Some ==> final(self).pos >= old(self).pos,
            yields_nodes(
                inlines_spec(old(self).toks(), old(self).position(), stop, nodes_view(first@)),
                r,
                final(self).position(),
            ),
        decreases old(self).tokens.len() - old(self).pos, 2nat,
    {
        let ghost toks = self.toks();
        let ghost p0 = self.pos as int;
        let ghost acc0 = nodes_view(first@);
        let mut content: Vec<Node> = first;
        loop
            invariant
                self.ready(),
                self.same_tokens(old(self)),
                self.toks() == toks,
                p0 == old(self).position(),
                toks == old(self).toks(),
                acc0 == nodes_view(first@),
                p0 <= self.pos,
                inlines_spec(toks, p0, stop, acc0) == inlines_spec(
                    toks,
                    self.pos as int,
                    stop,
                    nodes_view(content@),
                ),
            decreases self.tokens.len() - self.pos,
        {
            if self.stops_at(stop) {
                return Some(content);
            }
            if self.parse_image(&mut content) {
                continue;
            }
            let ghost before = content@;
            match self.parse_inline() {
                Some(n) => {
                    proof {
                        lemma_nodes_view_push(before, n);
                    }
                    content.push(n);
                },
                None => return None,
            }
        }
    }

    fn parse_strong(&mut self) -> (r: Option<Node>)
        requires
            old(self).ready(),
        ensures
            final(self).ready(),
            final(self).same_tokens(old(self)),
            r is Some ==> final(self).pos > old(self).pos,
            yields(strong_spec(old(self).toks(), old(self).position()), r, final(self).position()),
        decreases old(self).tokens.len() - old(self).pos, 0nat,
    {
        if !self.advance() || !self.advance() {
            return None;
        }
        let content = match self.parse_inlines(Stop::Stars, Vec::new()) {
            Some(c) => c,
            None => return None,
        };
        if !self.advance() || !self.advance() {
            return None;
        }
        Some(Node::Strong(content))
    }

    fn parse_emphasis(&mut self) -> (r: Option<Node>)
        requires
            old(self).ready(),
        ensures
            final(self).ready(),
            final(self).same_tokens(old(self)),
            r is Some ==> final(self).pos > old(self).pos,
            yields(emphasis_spec(old(self).toks(), old(self).position()), r, final(self).position()),
        decreases old(self).tokens.len() - old(self).pos, 0nat,
    {
        if !self.advance() {
            return None;
        }
        let content = match self.parse_inlines(Stop::Star, Vec::new()) {
            Some(c) => c,
            None => return None,
        };
        if !self.advance() {
            return None;
        }
        Some(Node::Emphasis(content))
    }

    fn parse_strikethrough(&mut self) -> (r: Option<Node>)
        requires
            old(self).ready(),
        ensures
            final(self).ready(),
            final(self).same_tokens(old(self)),
            r is Some ==> final(self).pos > old(self).pos,
            yields(
                strikethrough_spec(old(self).toks(), old(self).position()),
                r,
                final(self).position(),
            ),
        decreases old(self).tokens.len() - old(self).pos, 0nat,
    {
        if !self.advance() || !self.advance() {
            return None;
        }
        let content = match self.parse_inlines(Stop::Tildes, Vec::new()) {
            Some(c) => c,
            None => return None,
        };
        if !self.advance() || !self.advance() {
            return None;
        }
        Some(Node::Strikethrough(content))
    }

    fn parse_code_inline(&mut self) -> (r: Option<Node>)
        requires
            old(self).ready(),
        ensures
            final(self).ready(),
            final(self).same_tokens(old(self)),
            r is Some ==> final(self).pos > old(self).pos,
            yields(code_inline_spec(old(self).toks(), old(self).position()), r, final(self).position()),
    {
        if !self.advance() {
            return None;
        }
        let content = match self.read_source(Close::Backtick) {
            Some(c) => c,
            None => return None,
        };
        if !self.advance() {
            return None;
        }
        Some(Node::InlineCode(content))
    }

    fn parse_link(&mut self) -> (r: Option<Node>)
        requires
            old(self).ready(),
        ensures
            final(self).ready(),
            final(self).same_tokens(old(self)),
            r is Some ==> final(self).pos > old(self).pos,
            yields(link_spec(old(self).toks(), old(self).position()), r, final(self).position()),
        decreases old(self).tokens.len() - old(self).pos, 0nat,
    {
        let start = self.pos;
        if !self.advance() {
            return None;
        }
        let text = match self.parse_inlines(Stop::RBracket, Vec::new()) {
            Some(t) => t,
            None => return None,
        };
        if self.at_rbracket() {
            if !self.advance() {
                return None;
            }
            if self.at_lparen() {
                if !self.advance() {
                    return None;
                }
                let url = match self.read_source(Close::RParen) {
                    Some(u) => u,
                    None => return None,
                };
                if !self.advance() {
                    return None;
                }
                return Some(Node::Link { text, url, title: None });
            }
        }
        let literal = self.tokens_to_text(start, self.pos);
        Some(Node::Text(literal))
    }

    fn parse_text_token(&mut self) -> (r: Option<Node>)
        requires
            old(self).ready(),
        ensures
            final(self).ready(),
            final(self).same_tokens(old(self)),
            r is Some ==> final(self).pos > old(self).pos,
            yields(text_token_spec(old(self).toks(), old(self).position()), r, final(self).position()),
    {
        let text = self.token_to_text(self.peek());
        if !self.advance() {
            return None;
        }
        Some(Node::Text(text))
    }

    /// The source text of a fenced block's body, up to a fence or the end of input.
    fn read_code_body(&mut self) -> (r: Option<String>)
        requires
            old(self).ready(),
        ensures
            final(self).ready(),
            final(self).same_tokens(old(self)),
            final(self).pos >= old(self).pos,
            yields_text(
                code_body_spec(old(self).toks(), old(self).position(), seq![]),
                r,
                final(self).position(),
            ),
    {
        let ghost toks = self.toks();
        let ghost p0 = self.pos as int;
        let mut content = String::new();
        while !self.is_code_block_end() && !self.is_eof()
            invariant
                self.ready(),
                self.same_tokens(old(self)),
                self.toks() == toks,
                toks == old(self).toks(),
                p0 == old(self).position(),
                p0 <= self.pos,
                code_body_spec(toks, p0, seq![]) == code_body_spec(toks, self.pos as int, content@),
            decreases self.tokens.len() - self.pos,
        {
            let text = self.token_to_text(self.peek());
            if !self.advance() {
                return None;
            }
            content.append(text.as_str());
        }
        Some(content)
    }

    /// The source text up to the token that `close` closes, which is not consumed.
    fn read_source(&mut self, close: Close) -> (r: Option<String>)
        requires
            old(self).ready(),
        ensures
            final(self).ready(),
            final(self).same_tokens(old(self)),
            final(self).pos >= old(self).pos,
            yields_text(
                source_spec(old(self).toks(), old(self).position(), close, seq![]),
                r,
                final(self).position(),
            ),
    {
        let ghost toks = self.toks();
        let ghost p0 = self.pos as int;
        let mut content = String::new();
        while !self.closes_at(close)
            invariant
                self.ready(),
                self.same_tokens(old(self)),
                self.toks() == toks,
                toks == old(self).toks(),
                p0 == old(self).position(),
                p0 <= self.pos,
                source_spec(toks, p0, close, seq![]) == source_spec(
                    toks,
                    self.pos as int,
                    close,
                    content@,
                ),
            decreases self.tokens.len() - self.pos,
        {
            let text = self.token_to_text(self.peek());
            if !self.advance() {
                return None;
            }
            content.append(text.as_str());
        }
        Some(content)
    }

    /// An image at the current position, a text token that ends in `!` and a whole
    /// `[alt](url)` after it, is read and its nodes added to `content`; where none
    /// stands there, nothing is read or added.
    fn parse_image(&mut self, content: &mut Vec<Node>) -> (found: bool)
        requires
            old(self).ready(),
        ensures
            final(self).ready(),
            final(self).same_tokens(old(self)),
            found ==> final(self).pos > old(self).pos,
            match image_parts(old(self).toks(), old(self).position()) {
                Some((alt, url, e)) => found && final(self).position() == e && nodes_view(
                    final(content)@,
                ) == nodes_view(old(content)@) + image_nodes(
                    old(self).toks()[old(self).position()]->Text_0,
                    alt,
                    url,
                ),
                None => !found && final(self).pos == old(self).pos && final(content)@ == old(
                    content,
                )@,
            },
    {
        let start = self.pos;
        let chars = match self.peek() {
            LexTok::Text(t) => chars_of(t.as_str()),
            _ => return false,
        };
        let n = chars.len();
        if n == 0 || chars[n - 1] != '!' {
            return false;
        }
        match self.peek_next() {
            Some(LexTok::LBracket) => {},
            _ => return false,
        }
        self.advance();
        if !self.advance() {
            self.pos = start;
            return false;
        }
        let alt = match self.read_source(Close::RBracket) {
            Some(a) => a,
            None => {
                self.pos = start;
                return false;
            },
        };
        let paren = self.pos + 1 < self.tokens.len() && matches!(self.tokens[self.pos + 1], LexTok::LParen);
        if !self.at_rbracket() || !paren {
            self.pos = start;
            return false;
        }
        self.advance();
        if !self.advance() {
            self.pos = start;
            return false;
        }
        let url = match self.read_source(Close::RParen) {
            Some(u) => u,
            None => {
                self.pos = start;
                return false;
            },
        };
        if !self.at_rparen() || !self.advance() {
            self.pos = start;
            return false;
        }
        let ghost before = content@;
        if n > 1 {
            let text = Node::Text(string_of(&chars, n - 1));
            proof {
                lemma_nodes_view_push(before, text);
            }
            content.push(text);
        }
        let ghost middle = content@;
        let image = Node::Image { alt, url, title: None };
        proof {
            lemma_nodes_view_push(middle, image);
            assert(chars@.take(n - 1) =~= chars@.drop_last());
        }
        content.push(image);
        proof {
            let t = self.toks()[start as int]->Text_0;
            assert(nodes_view(content@) =~= nodes_view(before) + image_nodes(t, alt@, url@));
        }
        true
    }
}

// Looking at and moving over tokens.
impl Parser {
    fn peek(&self) -> (t: &LexTok)
        requires
            self.ready(),
        ensures
            *t == self.tokens@[self.pos as int],
            t@ == self.toks()[self.position()],
    {
        &self.tokens[self.pos]
    }

    fn peek_next(&self) -> (t: Option<&LexTok>)
        requires
            self.ready(),
        ensures
            t is None <==> self.pos + 1 >= self.tokens.len(),
            t matches Some(tok) ==> tok@ == self.toks()[self.position() + 1],
    {
        if self.pos + 1 < self.tokens.len() {
            Some(&self.tokens[self.pos + 1])
        } else {
            None
        }
    }

    /// Moves on by one token; `false`, with nothing moved, where no token would remain to stand on.
    fn advance(&mut self) -> (moved: bool)
        requires
            old(self).ready(),
        ensures
            final(self).ready(),
            final(self).same_tokens(old(self)),
            moved == (old(self).pos + 1 < old(self).tokens.len()),
            moved ==> final(self).pos == old(self).pos + 1,
            !moved ==> final(self).pos == old(self).pos,
    {
        if self.pos + 1 < self.tokens.len() {
            self.pos = self.pos + 1;
            true
        } else {
            false
        }
    }

    /// A newline, if there is one, is consumed; `false` where that is not possible.
    fn consume_newlines(&mut self) -> (ok: bool)
        requires
            old(self).ready(),
        ensures
            final(self).ready(),
            final(self).same_tokens(old(self)),
            final(self).pos >= old(self).pos,
            match end_line(old(self).toks(), old(self).position()) {
                Some(q) => ok && final(self).position() == q,
                None => !ok,
            },
    {
        if self.at_newline() {
            self.advance()
        } else {
            true
        }
    }

    fn is_code_block_start(&self) -> (b: bool)
        requires
            self.ready(),
        ensures
            b == fence_at(self.toks(), self.position()),
    {
        self.tokens.len() - self.pos > 2 && matches!(self.tokens[self.pos], LexTok::Backtick)
            && matches!(self.tokens[self.pos + 1], LexTok::Backtick) && matches!(
            self.tokens[self.pos + 2],
            LexTok::Backtick
        )
    }

    fn is_code_block_end(&self) -> (b: bool)
        requires
            self.ready(),
        ensures
            b == fence_at(self.toks(), self.position()),
    {
        self.tokens.len() - self.pos > 2 && matches!(self.tokens[self.pos], LexTok::Backtick)
            && matches!(self.tokens[self.pos + 1], LexTok::Backtick) && matches!(
            self.tokens[self.pos + 2],
            LexTok::Backtick
        )
    }

    fn is_eof(&self) -> (b: bool)
        requires
            self.ready(),
        ensures
            b == self.toks()[self.position()] is Eof,
    {
        matches!(self.peek(), LexTok::EOF)
    }

    fn at_newline(&self) -> (b: bool)
        requires
            self.ready(),
        ensures
            b == self.toks()[self.position()] is Newline,
    {
        matches!(self.peek(), LexTok::Newline)
    }

    fn at_dash(&self) -> (b: bool)
        requires
            self.ready(),
        ensures
            b == self.toks()[self.position()] is Dash,
    {
        matches!(self.peek(), LexTok::Dash)
    }

    fn at_pipe(&self) -> (b: bool)
        requires
            self.ready(),
        ensures
            b == self.toks()[self.position()] is Pipe,
    {
        matches!(self.peek(), LexTok::Pipe)
    }

    fn at_rparen(&self) -> (b: bool)
        requires
            self.ready(),
        ensures
            b == self.toks()[self.position()] is RParen,
    {
        matches!(self.peek(), LexTok::RParen)
    }

    fn at_rbracket(&self) -> (b: bool)
        requires
            self.ready(),
        ensures
            b == self.toks()[self.position()] is RBracket,
    {
        matches!(self.peek(), LexTok::RBracket)
    }

    fn at_lparen(&self) -> (b: bool)
        requires
            self.ready(),
        ensures
            b == self.toks()[self.position()] is LParen,
    {
        matches!(self.peek(), LexTok::LParen)
    }

    fn closes_at(&self, close: Close) -> (b: bool)
        requires
            self.ready(),
        ensures
            b == closes(close, self.toks()[self.position()]),
    {
        match close {
            Close::Backtick => matches!(self.peek(), LexTok::Backtick | LexTok::EOF),
            Close::RBracket => matches!(self.peek(), LexTok::RBracket | LexTok::EOF),
            Close::RParen => matches!(self.peek(), LexTok::RParen | LexTok::EOF),
        }
    }

    /// The number of `#` tokens in a row from the current position.
    fn hash_count(&self) -> (n: usize)
        requires
            self.ready(),
        ensures
            n == hash_run(self.toks(), self.position()),
    {
        let mut i = self.pos;
        while i < self.tokens.len() && matches!(self.tokens[i], LexTok::Hash)
            invariant
                self.pos <= i <= self.tokens.len(),
                hash_run(self.toks(), self.position()) == (i - self.pos) + hash_run(
                    self.toks(),
                    i as int,
                ),
            decreases self.tokens.len() - i,
        {
            i = i + 1;
        }
        i - self.pos
    }

    /// The number of tokens in a row, from the current position, like the one there,
    /// which is a dash, a star or an underscore.
    fn run_count(&self) -> (n: usize)
        requires
            self.ready(),
            self.toks()[self.position()] is Dash || self.toks()[self.position()] is Star
                || self.toks()[self.position()] is Underscore,
        ensures
            n == run_of(self.toks(), self.position(), self.toks()[self.position()]),
    {
        let ghost t = self.toks()[self.position()];
        let mut i = self.pos;
        while i < self.tokens.len() && same_marker(&self.tokens[i], &self.tokens[self.pos])
            invariant
                self.ready(),
                t == self.toks()[self.position()],
                t is Dash || t is Star || t is Underscore,
                self.pos <= i <= self.tokens.len(),
                run_of(self.toks(), self.position(), t) == (i - self.pos) + run_of(
                    self.toks(),
                    i as int,
                    t,
                ),
            decreases self.tokens.len() - i,
        {
            i = i + 1;
        }
        i - self.pos
    }

    /// A horizontal rule starts at the current position.
    fn is_rule(&self) -> (b: bool)
        requires
            self.ready(),
        ensures
            b == rule_at(self.toks(), self.position()),
    {
        if !matches!(self.peek(), LexTok::Dash | LexTok::Star | LexTok::Underscore) {
            return false;
        }
        let n = self.run_count();
        if n < 3 || n >= self.tokens.len() - self.pos {
            return false;
        }
        matches!(self.tokens[self.pos + n], LexTok::Newline | LexTok::EOF)
    }

    /// An ordered list item starts at the current position.
    fn is_ordered_marker(&self) -> (b: bool)
        requires
            self.ready(),
        ensures
            b == ordered_marker_at(self.toks(), self.position()),
    {
        if !matches!(self.peek(), LexTok::Number(_)) || self.tokens.len() - self.pos < 2 {
            return false;
        }
        match &self.tokens[self.pos + 1] {
            LexTok::Text(t) => {
                let n = t.as_str().unicode_len();
                n > 0 && t.as_str().get_char(0) == '.' && (n == 1 || t.as_str().get_char(1) == ' ')
            },
            _ => false,
        }
    }

    /// The position of the first newline or end-of-input token from `i` on.
    fn line_end_at(&self, i: usize) -> (e: usize)
        requires
            i <= self.tokens.len(),
        ensures
            e == line_end(self.toks(), i as int),
            i <= e <= self.tokens.len(),
    {
        let mut j = i;
        while j < self.tokens.len() && !matches!(self.tokens[j], LexTok::Newline | LexTok::EOF)
            invariant
                i <= j <= self.tokens.len(),
                line_end(self.toks(), i as int) == line_end(self.toks(), j as int),
            decreases self.tokens.len() - j,
        {
            j = j + 1;
        }
        j
    }

    /// The end of the separator line that starts at `i`, if one does.
    fn separator_end_at(&self, i: usize) -> (r: Option<usize>)
        requires
            i <= self.tokens.len(),
        ensures
            match separator_end(self.toks(), i as int, false) {
                Some(e) => r == Some(e as usize) && i <= e < self.tokens.len(),
                None => r is None,
            },
    {
        let mut j = i;
        let mut dash = false;
        while j < self.tokens.len()
            invariant
                i <= j <= self.tokens.len(),
                separator_end(self.toks(), i as int, false) == separator_end(
                    self.toks(),
                    j as int,
                    dash,
                ),
            decreases self.tokens.len() - j,
        {
            match &self.tokens[j] {
                LexTok::Newline | LexTok::EOF => {
                    return if dash {
                        Some(j)
                    } else {
                        None
                    };
                },
                LexTok::Pipe => {},
                LexTok::Dash => {
                    dash = true;
                },
                LexTok::Text(t) => {
                    let (only, has_dash) = separator_chars(t.as_str());
                    if !only {
                        return None;
                    }
                    dash = dash || has_dash;
                },
                _ => {
                    return None;
                },
            }
            j = j + 1;
        }
        None
    }

    /// A table's separator line starts at `i`.
    fn is_separator_at(&self, i: usize) -> (b: bool)
        requires
            i <= self.tokens.len(),
        ensures
            b == separator_at(self.toks(), i as int),
    {
        i < self.tokens.len() && matches!(self.tokens[i], LexTok::Pipe) && self.separator_end_at(
            i,
        ).is_some()
    }

    /// A table starts at the current position.
    fn is_table_start(&self) -> (b: bool)
        requires
            self.ready(),
        ensures
            b == table_start(self.toks(), self.position()),
    {
        if !matches!(self.peek(), LexTok::Pipe) {
            return false;
        }
        let e = self.line_end_at(self.pos);
        e < self.tokens.len() && matches!(self.tokens[e], LexTok::Newline) && self.is_separator_at(
            e + 1,
        )
    }

    fn stops_at(&self, stop: Stop) -> (b: bool)
        requires
            self.ready(),
        ensures
            b == ends(self.toks(), self.position(), stop),
    {
        match stop {
            Stop::Newline => matches!(self.peek(), LexTok::Newline | LexTok::EOF),
            Stop::Star => matches!(self.peek(), LexTok::Star | LexTok::EOF),
            Stop::Stars => match (self.peek(), self.peek_next()) {
                (LexTok::EOF, _) => true,
                (LexTok::Star, Some(LexTok::Star)) => true,
                _ => false,
            },
            Stop::Tildes => match (self.peek(), self.peek_next()) {
                (LexTok::EOF, _) => true,
                (LexTok::Tilde, Some(LexTok::Tilde)) => true,
                _ => false,
            },
            Stop::RBracket => matches!(self.peek(), LexTok::RBracket | LexTok::EOF),
            Stop::Pipe => matches!(self.peek(), LexTok::Pipe | LexTok::Newline | LexTok::EOF),
        }
    }

    fn token_to_text(&self, tok: &LexTok) -> (s: String)
        ensures
            s@ == tok_text(tok@),
    {
        proof {
            reveal_strlit("#");
            reveal_strlit("*");
            reveal_strlit("_");
            reveal_strlit("~");
            reveal_strlit("`");
            reveal_strlit("-");
            reveal_strlit("+");
            reveal_strlit("[");
            reveal_strlit("]");
            reveal_strlit("(");
            reveal_strlit(")");
            reveal_strlit(">");
            reveal_strlit("|");
            reveal_strlit("!");
            reveal_strlit("\n");
        }
        match tok {
            LexTok::Text(t) => t.clone(),
            LexTok::Hash => String::from_str("#"),
            LexTok::Star => String::from_str("*"),
            LexTok::Underscore => String::from_str("_"),
            LexTok::Tilde => String::from_str("~"),
            LexTok::Backtick => String::from_str("`"),
            LexTok::Dash => String::from_str("-"),
            LexTok::Plus => String::from_str("+"),
            LexTok::Number(n) => n.clone(),
            LexTok::LBracket => String::from_str("["),
            LexTok::RBracket => String::from_str("]"),
            LexTok::LParen => String::from_str("("),
            LexTok::RParen => String::from_str(")"),
            LexTok::GreaterThan => String::from_str(">"),
            LexTok::Pipe => String::from_str("|"),
            LexTok::Newline => String::from_str("\n"),
            LexTok::EOF => String::new(),
        }
    }

    fn tokens_to_text(&self, start: usize, end: usize) -> (s: String)
        requires
            start <= end <= self.tokens.len(),
        ensures
            s@ == toks_text(self.toks(), start as int, end as int),
    {
        let mut out = String::new();
        let mut i = start;
        while i < end
            invariant
                start <= i <= end <= self.tokens.len(),
                out@ == toks_text(self.toks(), start as int, i as int),
            decreases end - i,
        {
            let text = self.token_to_text(&self.tokens[i]);
            out.append(text.as_str());
            i = i + 1;
        }
        out
    }
}

/// Whether two tokens are the same rule marker: `b` is a dash, a star or an
/// underscore, and `a` is the same.
fn same_marker(a: &LexTok, b: &LexTok) -> (r: bool)
    requires
        b@ is Dash || b@ is Star || b@ is Underscore,
    ensures
        r == (a@ == b@),
{
    match b {
        LexTok::Dash => matches!(a, LexTok::Dash),
        LexTok::Star => matches!(a, LexTok::Star),
        _ => matches!(a, LexTok::Underscore),
    }
}

/// Whether a text holds only dashes, colons and spaces, and whether it holds a dash.
fn separator_chars(t: &str) -> (r: (bool, bool))
    ensures
        r.0 == separator_text(t@),
        r.1 == t@.contains('-'),
{
    let cs = chars_of(t);
    let mut only = true;
    let mut dash = false;
    let mut i: usize = 0;
    while i < cs.len()
        invariant
            i <= cs@.len(),
            cs@ == t@,
            only == (forall|k: int| 0 <= k < i ==> #[trigger] cs@[k] == '-' || cs@[k] == ':' || cs@[k] == ' '),
            dash == (exists|k: int| 0 <= k < i && #[trigger] cs@[k] == '-'),
        decreases cs@.len() - i,
    {
        let c = cs[i];
        if !(c == '-' || c == ':' || c == ' ') {
            only = false;
        }
        if c == '-' {
            dash = true;
        }
        i = i + 1;
    }
    (only, dash)
}

/// Parses a token sequence from its start.
pub fn parse_tokens(tokens: Vec<LexTok>) -> (r: Vec<Node>)
    requires
        parse_spec(toks_view(tokens@)) is Some,
    ensures
        parse_spec(toks_view(tokens@)) == Some(nodes_view(r@)),
{
    let mut parser = Parser::new(tokens);
    parser.parse()
}

/// Parses a token sequence from its start; `None` where the grammar has no parse.
pub fn try_parse_tokens(tokens: Vec<LexTok>) -> (r: Option<Vec<Node>>)
    ensures
        match parse_spec(toks_view(tokens@)) {
            Some(nodes) => r matches Some(v) && nodes_view(v@) == nodes,
            None => r is None,
        },
{
    let mut parser = Parser::new(tokens);
    parser.try_parse()
}

} // verus!
