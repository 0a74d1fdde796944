use vstd::prelude::*;

use crate::text::{char_is_numeric, chars_of, is_numeric, push_char};

verus! {

/// A token of Markdown source.
#[derive(Debug, Clone, PartialEq)]
pub enum LexTok {
    Hash,
    Star,
    Underscore,
    Tilde,
    Backtick,
    Dash,
    Plus,
    Number(String),
    LBracket,
    RBracket,
    LParen,
    RParen,
    GreaterThan,
    Pipe,
    Newline,
    Text(String),
    EOF,
}

/// The mathematical value of a token.
pub enum SpecTok {
    Hash,
    Star,
    Underscore,
    Tilde,
    Backtick,
    Dash,
    Plus,
    Number(Seq<char>),
    LBracket,
    RBracket,
    LParen,
    RParen,
    GreaterThan,
    Pipe,
    Newline,
    Text(Seq<char>),
    Eof,
}

impl View for LexTok {
    type V = SpecTok;

    open spec fn view(&self) -> SpecTok {
        match self {
            LexTok::Hash => SpecTok::Hash,
            LexTok::Star => SpecTok::Star,
            LexTok::Underscore => SpecTok::Underscore,
            LexTok::Tilde => SpecTok::Tilde,
            LexTok::Backtick => SpecTok::Backtick,
            LexTok::Dash => SpecTok::Dash,
            LexTok::Plus => SpecTok::Plus,
            LexTok::Number(n) => SpecTok::Number(n@),
            LexTok::LBracket => SpecTok::LBracket,
            LexTok::RBracket => SpecTok::RBracket,
            LexTok::LParen => SpecTok::LParen,
            LexTok::RParen => SpecTok::RParen,
            LexTok::GreaterThan => SpecTok::GreaterThan,
            LexTok::Pipe => SpecTok::Pipe,
            LexTok::Newline => SpecTok::Newline,
            LexTok::Text(t) => SpecTok::Text(t@),
            LexTok::EOF => SpecTok::Eof,
        }
    }
}

/// The values of a sequence of tokens, in order.
pub open spec fn toks_view(s: Seq<LexTok>) -> Seq<SpecTok> {
    s.map_values(|t: LexTok| t@)
}

/// The source text that a token stands for.
pub open spec fn tok_text(t: SpecTok) -> Seq<char> {
    match t {
        SpecTok::Text(s) => s,
        SpecTok::Hash => seq!['#'],
        SpecTok::Star => seq!['*'],
        SpecTok::Underscore => seq!['_'],
        SpecTok::Tilde => seq!['~'],
        SpecTok::Backtick => seq!['`'],
        SpecTok::Dash => seq!['-'],
        SpecTok::Plus => seq!['+'],
        SpecTok::Number(n) => n,
        SpecTok::LBracket => seq!['['],
        SpecTok::RBracket => seq![']'],
        SpecTok::LParen => seq!['('],
        SpecTok::RParen => seq![')'],
        SpecTok::GreaterThan => seq!['>'],
        SpecTok::Pipe => seq!['|'],
        SpecTok::Newline => seq!['\n'],
        SpecTok::Eof => seq![],
    }
}

/// The source text of the tokens `s[start..end]`, one after the other.
pub open spec fn toks_text(s: Seq<SpecTok>, start: int, end: int) -> Seq<char>
    decreases end - start,
{
    if end <= start {
        seq![]
    } else {
        toks_text(s, start, end - 1) + tok_text(s[end - 1])
    }
}


/// The characters that end a run of plain text.
pub open spec fn text_stop(c: char) -> bool {
    c == '#' || c == '*' || c == '_' || c == '~' || c == '`' || c == '+' || c == '[' || c == ']'
        || c == '(' || c == ')' || c == '>' || c == '\n' || c == '|'
}

/// A character that stands for a token of its own: one that ends plain text, or `-`.
pub open spec fn symbol_char(c: char) -> bool {
    text_stop(c) || c == '-'
}

/// A character that continues a number: numeric, and, as every numeric character
/// is, no symbol.
pub open spec fn number_char(c: char) -> bool {
    char_is_numeric(c) && !symbol_char(c)
}

/// The end of the run of numeric characters that starts at `p`.
pub open spec fn number_end(s: Seq<char>, p: int) -> int
    decreases s.len() - p,
{
    if 0 <= p < s.len() && number_char(s[p]) {
        number_end(s, p + 1)
    } else {
        p
    }
}

/// The end of the run of plain text that starts at `p`.
pub open spec fn text_end(s: Seq<char>, p: int) -> int
    decreases s.len() - p,
{
    if 0 <= p < s.len() && !text_stop(s[p]) {
        text_end(s, p + 1)
    } else {
        p
    }
}

/// The token that starts at position `p` of `s`, and the position after it.
pub open spec fn lex_token(s: Seq<char>, p: int) -> (SpecTok, int) {
    let c = s[p];
    if c == '#' {
        (SpecTok::Hash, p + 1)
    } else if c == '*' {
        (SpecTok::Star, p + 1)
    } else if c == '_' {
        (SpecTok::Underscore, p + 1)
    } else if c == '~' {
        (SpecTok::Tilde, p + 1)
    } else if c == '`' {
        (SpecTok::Backtick, p + 1)
    } else if c == '-' {
        (SpecTok::Dash, p + 1)
    } else if c == '+' {
        (SpecTok::Plus, p + 1)
    } else if c == '[' {
        (SpecTok::LBracket, p + 1)
    } else if c == ']' {
        (SpecTok::RBracket, p + 1)
    } else if c == '(' {
        (SpecTok::LParen, p + 1)
    } else if c == ')' {
        (SpecTok::RParen, p + 1)
    } else if c == '>' {
        (SpecTok::GreaterThan, p + 1)
    } else if c == '|' {
        (SpecTok::Pipe, p + 1)
    } else if c == '\n' {
        (SpecTok::Newline, p + 1)
    } else if char_is_numeric(c) {
        (SpecTok::Number(s.subrange(p, number_end(s, p))), number_end(s, p))
    } else {
        (SpecTok::Text(s.subrange(p, text_end(s, p))), text_end(s, p))
    }
}

/// A token always covers at least one character.
pub proof fn lemma_lex_token_advances(s: Seq<char>, p: int)
    requires
        0 <= p < s.len(),
    ensures
        p < lex_token(s, p).1 <= s.len(),
{
    lemma_number_end_bounds(s, p + 1);
    lemma_text_end_bounds(s, p + 1);
}

/// A run of numeric characters ends within the text and holds numeric characters only.
pub proof fn lemma_number_end_bounds(s: Seq<char>, p: int)
    requires
        0 <= p <= s.len(),
    ensures
        p <= number_end(s, p) <= s.len(),
        forall|i: int| p <= i < number_end(s, p) ==> number_char(#[trigger] s[i]),
        number_end(s, p) == s.len() || !number_char(s[number_end(s, p)]),
    decreases s.len() - p,
{
    if p < s.len() && number_char(s[p]) {
        lemma_number_end_bounds(s, p + 1);
    }
}

/// A run of plain text ends within the text and holds no character that ends plain text.
pub proof fn lemma_text_end_bounds(s: Seq<char>, p: int)
    requires
        0 <= p <= s.len(),
    ensures
        p <= text_end(s, p) <= s.len(),
        forall|i: int| p <= i < text_end(s, p) ==> !text_stop(#[trigger] s[i]),
        text_end(s, p) == s.len() || text_stop(s[text_end(s, p)]),
    decreases s.len() - p,
{
    if p < s.len() && !text_stop(s[p]) {
        lemma_text_end_bounds(s, p + 1);
    }
}

/// The token that a symbol character stands for.
pub open spec fn symbol_token(c: char) -> SpecTok {
    if c == '#' {
        SpecTok::Hash
    } else if c == '*' {
        SpecTok::Star
    } else if c == '_' {
        SpecTok::Underscore
    } else if c == '~' {
        SpecTok::Tilde
    } else if c == '`' {
        SpecTok::Backtick
    } else if c == '-' {
        SpecTok::Dash
    } else if c == '+' {
        SpecTok::Plus
    } else if c == '[' {
        SpecTok::LBracket
    } else if c == ']' {
        SpecTok::RBracket
    } else if c == '(' {
        SpecTok::LParen
    } else if c == ')' {
        SpecTok::RParen
    } else if c == '>' {
        SpecTok::GreaterThan
    } else if c == '|' {
        SpecTok::Pipe
    } else {
        SpecTok::Newline
    }
}

/// What one token is: a symbol character gives its own token, one character on; a
/// numeric character gives the number made of the longest run of numeric characters
/// from it; any other character gives the text made of the longest run from it
/// without a character that ends plain text (so `-` and digits go on within it).
pub proof fn lemma_lex_token_kinds(s: Seq<char>, p: int)
    requires
        0 <= p < s.len(),
    ensures
        symbol_char(s[p]) ==> lex_token(s, p) == (symbol_token(s[p]), p + 1),
        !symbol_char(s[p]) && char_is_numeric(s[p]) ==> ({
            let q = lex_token(s, p).1;
            &&& p < q <= s.len()
            &&& lex_token(s, p).0 == SpecTok::Number(s.subrange(p, q))
            &&& forall|i: int| p <= i < q ==> char_is_numeric(#[trigger] s[i])
            &&& (q == s.len() || !number_char(s[q]))
        }),
        !symbol_char(s[p]) && !char_is_numeric(s[p]) ==> ({
            let q = lex_token(s, p).1;
            &&& p < q <= s.len()
            &&& lex_token(s, p).0 == SpecTok::Text(s.subrange(p, q))
            &&& forall|i: int| p <= i < q ==> !text_stop(#[trigger] s[i])
            &&& (q == s.len() || text_stop(s[q]))
        }),
{
    lemma_number_end_bounds(s, p);
    lemma_text_end_bounds(s, p);
    lemma_lex_token_advances(s, p);
}

/// The tokens of `s` from position `p` on, closed by the end-of-input token.
pub open spec fn lex_from(s: Seq<char>, p: int) -> Seq<SpecTok>
    decreases s.len() - p,
{
    if !(0 <= p < s.len()) {
        seq![SpecTok::Eof]
    } else {
        let (t, q) = lex_token(s, p);
        if p < q <= s.len() {
            seq![t] + lex_from(s, q)
        } else {
            seq![SpecTok::Eof]
        }
    }
}

/// The tokens of `s`.
pub open spec fn lex_spec(s: Seq<char>) -> Seq<SpecTok> {
    lex_from(s, 0)
}

/// The source text of a whole token sequence.
pub open spec fn all_text(ts: Seq<SpecTok>) -> Seq<char> {
    toks_text(ts, 0, ts.len() as int)
}

/// The text of a token put in front is the token's text in front.
pub proof fn lemma_toks_text_prepend(t: SpecTok, rest: Seq<SpecTok>, k: int)
    requires
        0 <= k <= rest.len(),
    ensures
        toks_text(seq![t] + rest, 0, k + 1) == tok_text(t) + toks_text(rest, 0, k),
    decreases k,
{
    let x = seq![t] + rest;
    if k == 0 {
        assert(toks_text(x, 0, 0) == Seq::<char>::empty());
        assert(toks_text(x, 0, 1) == toks_text(x, 0, 0) + tok_text(x[0]));
        assert(toks_text(x, 0, 1) =~= tok_text(t));
        assert(toks_text(rest, 0, 0) == Seq::<char>::empty());
        assert(tok_text(t) + toks_text(rest, 0, 0) =~= tok_text(t));
    } else {
        lemma_toks_text_prepend(t, rest, k - 1);
        assert(x[k] == rest[k - 1]);
        assert(toks_text(x, 0, k + 1) == toks_text(x, 0, k) + tok_text(x[k]));
        assert(toks_text(rest, 0, k) == toks_text(rest, 0, k - 1) + tok_text(rest[k - 1]));
        assert(tok_text(t) + toks_text(rest, 0, k - 1) + tok_text(rest[k - 1]) =~= tok_text(t) + (
        toks_text(rest, 0, k - 1) + tok_text(rest[k - 1])));
    }
}

/// The text of tokens from `a` is the text of the first, then that of the rest.
pub proof fn lemma_toks_text_split_first(ts: Seq<SpecTok>, a: int, b: int)
    requires
        a < b,
    ensures
        toks_text(ts, a, b) == tok_text(ts[a]) + toks_text(ts, a + 1, b),
    decreases b - a,
{
    if b - 1 == a {
        assert(toks_text(ts, a, a) == Seq::<char>::empty());
        assert(toks_text(ts, a + 1, b) == Seq::<char>::empty());
        assert(toks_text(ts, a, b) == toks_text(ts, a, b - 1) + tok_text(ts[b - 1]));
        assert(toks_text(ts, a, b) =~= tok_text(ts[a]) + toks_text(ts, a + 1, b));
    } else {
        lemma_toks_text_split_first(ts, a, b - 1);
        assert(toks_text(ts, a + 1, b) == toks_text(ts, a + 1, b - 1) + tok_text(ts[b - 1]));
        assert(toks_text(ts, a, b) =~= tok_text(ts[a]) + toks_text(ts, a + 1, b));
    }
}

/// The token at `p` stands for exactly the characters it covers.
pub proof fn lemma_lex_token_text(s: Seq<char>, p: int)
    requires
        0 <= p < s.len(),
    ensures
        tok_text(lex_token(s, p).0) =~= s.subrange(p, lex_token(s, p).1),
{
    lemma_lex_token_advances(s, p);
}

/// Lexing loses nothing from `p` on: the tokens' texts, one after the other, are the source.
pub proof fn lemma_lex_from_lossless(s: Seq<char>, p: int)
    requires
        0 <= p <= s.len(),
    ensures
        all_text(lex_from(s, p)) == s.subrange(p, s.len() as int),
    decreases s.len() - p,
{
    if p == s.len() {
        assert(lex_from(s, p) == seq![SpecTok::Eof]);
        assert(toks_text(seq![SpecTok::Eof], 0, 0) == Seq::<char>::empty());
        assert(all_text(lex_from(s, p)) =~= s.subrange(p, s.len() as int));
    } else {
        let (t, q) = lex_token(s, p);
        lemma_lex_token_advances(s, p);
        lemma_lex_token_text(s, p);
        lemma_lex_from_lossless(s, q);
        let rest = lex_from(s, q);
        assert(lex_from(s, p) == seq![t] + rest);
        lemma_toks_text_prepend(t, rest, rest.len() as int);
        assert(s.subrange(p, q) + s.subrange(q, s.len() as int) =~= s.subrange(p, s.len() as int));
    }
}

/// Lexing loses nothing: the texts of the tokens of `s`, one after the other, are `s`.
pub proof fn lemma_lex_lossless(s: Seq<char>)
    ensures
        all_text(lex_spec(s)) == s,
{
    lemma_lex_from_lossless(s, 0);
    assert(s.subrange(0, s.len() as int) =~= s);
}

proof fn lemma_text_end_shift(s: Seq<char>, k: int, p: int)
    requires
        0 <= k <= p <= s.len(),
    ensures
        text_end(s, p) == text_end(s.skip(k), p - k) + k,
    decreases s.len() - p,
{
    if p < s.len() {
        assert(s.skip(k)[p - k] == s[p]);
        if !text_stop(s[p]) {
            lemma_text_end_shift(s, k, p + 1);
        }
    }
}

proof fn lemma_number_end_shift(s: Seq<char>, k: int, p: int)
    requires
        0 <= k <= p <= s.len(),
    ensures
        number_end(s, p) == number_end(s.skip(k), p - k) + k,
    decreases s.len() - p,
{
    if p < s.len() {
        assert(s.skip(k)[p - k] == s[p]);
        if number_char(s[p]) {
            lemma_number_end_shift(s, k, p + 1);
        }
    }
}

proof fn lemma_lex_token_shift(s: Seq<char>, k: int, p: int)
    requires
        0 <= k <= p < s.len(),
    ensures
        lex_token(s, p).0 == lex_token(s.skip(k), p - k).0,
        lex_token(s, p).1 == lex_token(s.skip(k), p - k).1 + k,
{
    let u = s.skip(k);
    lemma_text_end_shift(s, k, p);
    lemma_number_end_shift(s, k, p);
    lemma_text_end_bounds(s, p);
    lemma_number_end_bounds(s, p);
    assert(u[p - k] == s[p]);
    assert(s.subrange(p, text_end(s, p)) =~= u.subrange(p - k, text_end(u, p - k)));
    assert(s.subrange(p, number_end(s, p)) =~= u.subrange(p - k, number_end(u, p - k)));
}

/// The tokens from position `p` on depend on the text from `p` on alone.
pub proof fn lemma_lex_from_shift(s: Seq<char>, k: int, p: int)
    requires
        0 <= k <= p <= s.len(),
    ensures
        lex_from(s, p) == lex_from(s.skip(k), p - k),
    decreases s.len() - p,
{
    if p < s.len() {
        lemma_lex_token_shift(s, k, p);
        lemma_lex_token_advances(s, p);
        lemma_lex_from_shift(s, k, lex_token(s, p).1);
    }
}

proof fn lemma_text_end_prefix(a: Seq<char>, c: Seq<char>, p: int)
    requires
        0 <= p <= a.len(),
        c.len() > 0,
        text_stop(c[0]),
    ensures
        text_end(a + c, p) == text_end(a, p),
    decreases a.len() - p,
{
    let s = a + c;
    if p < a.len() {
        assert(s[p] == a[p]);
        if !text_stop(a[p]) {
            lemma_text_end_prefix(a, c, p + 1);
        }
    } else {
        assert(s[p] == c[0]);
    }
}

proof fn lemma_number_end_prefix(a: Seq<char>, c: Seq<char>, p: int)
    requires
        0 <= p <= a.len(),
        c.len() > 0,
        text_stop(c[0]),
    ensures
        number_end(a + c, p) == number_end(a, p),
    decreases a.len() - p,
{
    let s = a + c;
    if p < a.len() {
        assert(s[p] == a[p]);
        if number_char(a[p]) {
            lemma_number_end_prefix(a, c, p + 1);
        }
    } else {
        assert(s[p] == c[0]);
    }
}

proof fn lemma_lex_from_prefix(a: Seq<char>, c: Seq<char>, p: int)
    requires
        0 <= p <= a.len(),
        c.len() > 0,
        text_stop(c[0]),
    ensures
        lex_from(a + c, p) == lex_from(a, p).drop_last() + lex_from(a + c, a.len() as int),
    decreases a.len() - p,
{
    let s = a + c;
    if p == a.len() {
        assert(lex_from(a, p).drop_last() =~= Seq::<SpecTok>::empty());
        assert(lex_from(a, p).drop_last() + lex_from(s, p) =~= lex_from(s, p));
    } else {
        lemma_text_end_prefix(a, c, p);
        lemma_number_end_prefix(a, c, p);
        lemma_text_end_bounds(a, p);
        lemma_number_end_bounds(a, p);
        lemma_lex_token_advances(a, p);
        assert(s[p] == a[p]);
        assert(a.subrange(p, text_end(a, p)) =~= s.subrange(p, text_end(s, p)));
        assert(a.subrange(p, number_end(a, p)) =~= s.subrange(p, number_end(s, p)));
        assert(lex_token(s, p) == lex_token(a, p));
        let (t, q) = lex_token(a, p);
        lemma_lex_from_prefix(a, c, q);
        lemma_lex_from_closed(a, q);
        let l = lex_from(s, a.len() as int);
        assert((seq![t] + lex_from(a, q)).drop_last() =~= seq![t] + lex_from(a, q).drop_last());
        assert(seq![t] + (lex_from(a, q).drop_last() + l) =~= seq![t] + lex_from(a, q).drop_last()
            + l);
    }
}

/// Lexing splits where a character that ends plain text starts the rest: the tokens
/// of `a` followed by `c` are those of `a`, without the end-of-input token, then
/// those of `c`.
pub proof fn lemma_lex_split(a: Seq<char>, c: Seq<char>)
    requires
        c.len() > 0,
        text_stop(c[0]),
    ensures
        lex_spec(a + c) == lex_spec(a).drop_last() + lex_spec(c),
{
    lemma_lex_from_prefix(a, c, 0);
    lemma_lex_from_shift(a + c, a.len() as int, a.len() as int);
    assert((a + c).skip(a.len() as int) =~= c);
}

/// The token sequence ends with the end-of-input token, and holds no other.
pub open spec fn closed_by_eof(ts: Seq<SpecTok>) -> bool {
    &&& ts.len() > 0
    &&& ts.last() is Eof
    &&& forall|i: int| 0 <= i < ts.len() - 1 ==> !(#[trigger] ts[i] is Eof)
}

/// The tokens from `p` on are closed by the end-of-input token, and hold no other.
pub proof fn lemma_lex_from_closed(s: Seq<char>, p: int)
    requires
        0 <= p <= s.len(),
    ensures
        closed_by_eof(lex_from(s, p)),
    decreases s.len() - p,
{
    if p < s.len() {
        let (t, q) = lex_token(s, p);
        lemma_lex_token_advances(s, p);
        lemma_lex_from_closed(s, q);
        let rest = lex_from(s, q);
        let all = lex_from(s, p);
        assert(all == seq![t] + rest);
        assert(!(t is Eof));
        assert forall|i: int| 0 <= i < all.len() - 1 implies !(#[trigger] all[i] is Eof) by {
            if i > 0 {
                assert(all[i] == rest[i - 1]);
            }
        }
    }
}

/// The tokens of any text end with the end-of-input token, and hold no other.
pub proof fn lemma_lex_closed(s: Seq<char>)
    ensures
        closed_by_eof(lex_spec(s)),
{
    lemma_lex_from_closed(s, 0);
}

/// The shape of a text token: not empty, no character that ends plain text, and
/// not starting with `-` or a numeric character.
pub open spec fn text_shaped(t: Seq<char>) -> bool {
    &&& t.len() > 0
    &&& forall|k: int| 0 <= k < t.len() ==> !text_stop(#[trigger] t[k])
    &&& t[0] != '-'
    &&& !char_is_numeric(t[0])
}

/// The shape of a number token: not empty, numeric characters only.
pub open spec fn number_shaped(n: Seq<char>) -> bool {
    &&& n.len() > 0
    &&& forall|k: int| 0 <= k < n.len() ==> number_char(#[trigger] n[k])
}

/// A token as the lexer makes it, given the token after it: a text token has the
/// shape of text and is followed by no text, number or dash; a number token has the
/// shape of a number and is followed by no number.
pub open spec fn token_shaped(t: SpecTok, next: SpecTok) -> bool {
    match t {
        SpecTok::Text(s) => text_shaped(s) && !(next is Text) && !(next is Number) && !(next is Dash),
        SpecTok::Number(n) => number_shaped(n) && !(next is Number),
        _ => true,
    }
}

/// The token at a symbol character is no text, number or dash, unless it is a dash.
proof fn lemma_symbol_token(s: Seq<char>, p: int)
    requires
        0 <= p < s.len(),
        text_stop(s[p]),
    ensures
        !(lex_token(s, p).0 is Text) && !(lex_token(s, p).0 is Number) && !(lex_token(
            s,
            p,
        ).0 is Dash),
{
}

/// Every token the lexer makes from `p` on has the shape `token_shaped` gives.
pub proof fn lemma_lex_from_shaped(s: Seq<char>, p: int)
    requires
        0 <= p <= s.len(),
    ensures
        forall|i: int|
            0 <= i < lex_from(s, p).len() - 1 ==> token_shaped(
                #[trigger] lex_from(s, p)[i],
                lex_from(s, p)[i + 1],
            ),
    decreases s.len() - p,
{
    if p < s.len() {
        let (t, q) = lex_token(s, p);
        lemma_lex_token_advances(s, p);
        lemma_number_end_bounds(s, p);
        lemma_text_end_bounds(s, p);
        lemma_lex_from_shaped(s, q);
        let rest = lex_from(s, q);
        let all = lex_from(s, p);
        assert(all == seq![t] + rest);
        if q < s.len() {
            lemma_lex_token_advances(s, q);
            assert(rest[0] == lex_token(s, q).0);
            if t is Text {
                lemma_symbol_token(s, q);
            }
        } else {
            assert(rest[0] is Eof);
        }
        if t is Text {
            assert(text_shaped(t->Text_0));
        }
        assert forall|i: int| 0 <= i < all.len() - 1 implies token_shaped(
            #[trigger] all[i],
            all[i + 1],
        ) by {
            if i > 0 {
                assert(all[i] == rest[i - 1]);
                assert(all[i + 1] == rest[i]);
            }
        }
    }
}

/// Every token of a text has the shape `token_shaped` gives, given the token after it.
pub proof fn lemma_lex_shaped(s: Seq<char>)
    ensures
        forall|i: int|
            0 <= i < lex_spec(s).len() - 1 ==> token_shaped(
                #[trigger] lex_spec(s)[i],
                lex_spec(s)[i + 1],
            ),
{
    lemma_lex_from_shaped(s, 0);
}

proof fn lemma_text_end_whole(u: Seq<char>, p: int)
    requires
        0 <= p <= u.len(),
        forall|k: int| 0 <= k < u.len() ==> !text_stop(#[trigger] u[k]),
    ensures
        text_end(u, p) == u.len(),
    decreases u.len() - p,
{
    if p < u.len() {
        lemma_text_end_whole(u, p + 1);
    }
}

proof fn lemma_number_end_whole(u: Seq<char>, p: int)
    requires
        0 <= p <= u.len(),
        forall|k: int| 0 <= k < u.len() ==> number_char(#[trigger] u[k]),
    ensures
        number_end(u, p) == u.len(),
    decreases u.len() - p,
{
    if p < u.len() {
        lemma_number_end_whole(u, p + 1);
    }
}

/// A token the lexer makes lexes back to itself: the text of a token that is not
/// the end-of-input token, lexed, gives that token and the end-of-input token.
pub proof fn lemma_token_relexes(s: Seq<char>, i: int)
    requires
        0 <= i < lex_spec(s).len() - 1,
    ensures
        lex_spec(tok_text(lex_spec(s)[i])) == seq![lex_spec(s)[i], SpecTok::Eof],
{
    let toks = lex_spec(s);
    lemma_lex_shaped(s);
    lemma_lex_closed(s);
    let t = toks[i];
    assert(token_shaped(t, toks[i + 1]));
    assert(!(t is Eof));
    let u = tok_text(t);
    assert(u.len() > 0) by {
        if let SpecTok::Text(x) = t {
        } else if let SpecTok::Number(x) = t {
        }
    }
    let (t2, q) = lex_token(u, 0);
    match t {
        SpecTok::Text(x) => {
            lemma_text_end_whole(u, 0);
            assert(u.subrange(0, u.len() as int) =~= u);
        },
        SpecTok::Number(x) => {
            lemma_number_end_whole(u, 0);
            assert(u.subrange(0, u.len() as int) =~= u);
            assert(number_char(u[0]));
        },
        _ => {},
    }
    assert(t2 == t);
    assert(q == u.len());
    assert(lex_from(u, 0) == seq![t2] + lex_from(u, q));
    assert(lex_from(u, q) == seq![SpecTok::Eof]);
    assert(seq![t2] + seq![SpecTok::Eof] =~= seq![t, SpecTok::Eof]);
}

/// Splits text into tokens, one character at a time.
pub struct Tokenizer {
    input: Vec<char>,
    pos: usize,
}

impl Tokenizer {
    #[verifier::type_invariant]
    spec fn inv(self) -> bool {
        self.pos <= self.input.len()
    }

    /// The characters being split.
    pub closed spec fn input(&self) -> Seq<char> {
        self.input@
    }

    /// The position of the next character to read.
    pub closed spec fn position(&self) -> int {
        self.pos as int
    }

    /// A tokenizer at the start of `input`.
    pub fn new(input: &str) -> (t: Self)
        ensures
            t.input() == input@,
            t.position() == 0,
    {
        Self { input: chars_of(input), pos: 0 }
    }

    /// The tokens from the current position to the end of input, closed by the
    /// end-of-input token.
    pub fn tokenize(&mut self) -> (r: Vec<LexTok>)
        ensures
            final(self).input() == old(self).input(),
            final(self).position() == final(self).input().len(),
            toks_view(r@) == lex_from(old(self).input(), old(self).position()),
    {
        proof {
            use_type_invariant(&*self);
        }
        let ghost s = self.input@;
        let ghost p0 = self.pos as int;
        let mut tokens: Vec<LexTok> = Vec::new();
        loop
            invariant_except_break
                self.input@ == s,
                s == old(self).input(),
                p0 == old(self).position(),
                self.pos <= s.len(),
                lex_from(s, p0) == toks_view(tokens@) + lex_from(s, self.pos as int),
            ensures
                self.input@ == s,
                self.pos == s.len(),
                lex_from(s, p0) == toks_view(tokens@) + lex_from(s, self.pos as int),
            decreases s.len() - self.pos,
        {
            let c = match self.peek() {
                Some(c) => c,
                None => break,
            };
            let ghost before = tokens@;
            let ghost p = self.pos as int;
            let t = self.match_tok(c);
            tokens.push(t);
            proof {
                lemma_lex_token_advances(s, p);
                assert(toks_view(tokens@) =~= toks_view(before).push(t@));
                assert(lex_from(s, p) == seq![t@] + lex_from(s, self.pos as int));
                assert(toks_view(tokens@) + lex_from(s, self.pos as int) =~= toks_view(before)
                    + lex_from(s, p));
            }
        }
        let ghost before = tokens@;
        tokens.push(LexTok::EOF);
        proof {
            assert(toks_view(tokens@) =~= toks_view(before).push(SpecTok::Eof));
            assert(toks_view(tokens@) =~= toks_view(before) + lex_from(s, self.pos as int));
        }
        tokens
    }

    fn match_tok(&mut self, c: char) -> (t: LexTok)
        requires
            old(self).pos < old(self).input.len(),
            c == old(self).input@[old(self).pos as int],
        ensures
            final(self).input@ == old(self).input@,
            (t@, final(self).pos as int) == lex_token(old(self).input@, old(self).pos as int),
    {
        proof {
            use_type_invariant(&*self);
        }
        if c == '#' {
            self.advance();
            LexTok::Hash
        } else if c == '*' {
            self.advance();
            LexTok::Star
        } else if c == '_' {
            self.advance();
            LexTok::Underscore
        } else if c == '~' {
            self.advance();
            LexTok::Tilde
        } else if c == '`' {
            self.advance();
            LexTok::Backtick
        } else if c == '-' {
            self.advance();
            LexTok::Dash
        } else if c == '+' {
            self.advance();
            LexTok::Plus
        } else if c == '[' {
            self.advance();
            LexTok::LBracket
        } else if c == ']' {
            self.advance();
            LexTok::RBracket
        } else if c == '(' {
            self.advance();
            LexTok::LParen
        } else if c == ')' {
            self.advance();
            LexTok::RParen
        } else if c == '>' {
            self.advance();
            LexTok::GreaterThan
        } else if c == '|' {
            self.advance();
            LexTok::Pipe
        } else if c == '\n' {
            self.advance();
            LexTok::Newline
        } else if is_numeric(c) {
            self.read_number()
        } else {
            self.read_text()
        }
    }

    fn peek(&self) -> (c: Option<char>)
        ensures
            c is Some <==> self.pos < self.input.len(),
            c matches Some(ch) ==> ch == self.input@[self.pos as int],
    {
        if self.pos < self.input.len() {
            Some(self.input[self.pos])
        } else {
            None
        }
    }

    fn advance(&mut self)
        requires
            old(self).pos < old(self).input.len(),
        ensures
            final(self).input@ == old(self).input@,
            final(self).pos == old(self).pos + 1,
    {
        self.pos = self.pos + 1;
    }

    fn read_text(&mut self) -> (t: LexTok)
        requires
            old(self).pos < old(self).input.len(),
        ensures
            final(self).input@ == old(self).input@,
            final(self).pos == text_end(old(self).input@, old(self).pos as int),
            t@ == SpecTok::Text(
                old(self).input@.subrange(old(self).pos as int, final(self).pos as int),
            ),
    {
        proof {
            use_type_invariant(&*self);
        }
        let ghost s = self.input@;
        let start = self.pos;
        loop
            invariant_except_break
                self.input@ == s,
                start <= self.pos <= s.len(),
                text_end(s, start as int) == text_end(s, self.pos as int),
            ensures
                self.input@ == s,
                start <= self.pos <= s.len(),
                text_end(s, start as int) == self.pos,
            decreases s.len() - self.pos,
        {
            let c = match self.peek() {
                Some(c) => c,
                None => break,
            };
            if is_text_stop(c) {
                break;
            }
            self.advance();
        }
        LexTok::Text(self.text_between(start, self.pos))
    }

    fn read_number(&mut self) -> (t: LexTok)
        requires
            old(self).pos < old(self).input.len(),
        ensures
            final(self).input@ == old(self).input@,
            final(self).pos == number_end(old(self).input@, old(self).pos as int),
            t@ == SpecTok::Number(
                old(self).input@.subrange(old(self).pos as int, final(self).pos as int),
            ),
    {
        proof {
            use_type_invariant(&*self);
        }
        let ghost s = self.input@;
        let start = self.pos;
        loop
            invariant_except_break
                self.input@ == s,
                start <= self.pos <= s.len(),
                number_end(s, start as int) == number_end(s, self.pos as int),
            ensures
                self.input@ == s,
                start <= self.pos <= s.len(),
                number_end(s, start as int) == self.pos,
            decreases s.len() - self.pos,
        {
            let c = match self.peek() {
                Some(c) => c,
                None => break,
            };
            if is_number_char(c) {
                self.advance();
            } else {
                break;
            }
        }
        LexTok::Number(self.text_between(start, self.pos))
    }

    /// The characters `input[start..end]` as a string.
    fn text_between(&self, start: usize, end: usize) -> (r: String)
        requires
            start <= end <= self.input.len(),
        ensures
            r@ == self.input@.subrange(start as int, end as int),
    {
        let mut out = String::new();
        let mut i = start;
        while i < end
            invariant
                start <= i <= end <= self.input.len(),
                out@ == self.input@.subrange(start as int, i as int),
            decreases end - i,
        {
            push_char(&mut out, self.input[i]);
            assert(self.input@.subrange(start as int, i + 1) =~= self.input@.subrange(
                start as int,
                i as int,
            ).push(self.input@[i as int]));
            i = i + 1;
        }
        out
    }
}

/// Whether `c` continues a number: whether it is numeric, no symbol being numeric.
fn is_number_char(c: char) -> (b: bool)
    ensures
        b == number_char(c),
{
    is_numeric(c)
}

/// Whether `c` ends a run of plain text.
fn is_text_stop(c: char) -> (b: bool)
    ensures
        b == text_stop(c),
{
    c == '#' || c == '*' || c == '_' || c == '~' || c == '`' || c == '+' || c == '[' || c == ']'
        || c == '(' || c == ')' || c == '>' || c == '\n' || c == '|'
}

/// The tokens of `text`, closed by the end-of-input token.
pub fn lex_text(text: &String) -> (r: Vec<LexTok>)
    ensures
        toks_view(r@) == lex_spec(text@),
{
    let mut tokenizer = Tokenizer::new(text.as_str());
    tokenizer.tokenize()
}

} // verus!
