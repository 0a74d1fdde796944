# markforge

A Markdown to HTML converter whose library is verified with Verus.

Layout of `src/`:

- `token.rs`: the tokenizer (`Tokenizer`, `lex_text`) and its specification; laws that
  lexing loses no text, closes every token stream with one end-of-input token, gives
  tokens of a fixed shape, and that each token's text lexes back to it.
- `grammar.rs`: the grammar that the parser follows, as spec functions over token
  values.
- `ast.rs`: the document tree (`Node`), the `Parser` and `parse_tokens`, each proved to
  follow the grammar.
- `parse_laws.rs`: laws on the grammar: when parsing succeeds, that code, link
  addresses and image attributes keep their source text, heading levels, that every
  top-level node is a block, and what a fenced block of given source text parses to.
- `codegen.rs`: HTML generation and escaping, with laws on escaping.
- `html_laws.rs`: laws on the HTML: decoding escaped text gives it back, and
  stripping the tags from a document's HTML gives back the document's text.
- `styler.rs`: the page around the generated HTML.
- `text.rs`: character and string helpers.
- `lib.rs`: `md_to_html`, the whole conversion, `has_parse` and `try_md_to_html`, and
  laws that span the stages.

Supported: headings (H1-H6), paragraphs, blockquotes, unordered and ordered lists,
fenced code blocks (the language becomes a `language-…` class), horizontal rules,
pipe tables; bold, italic, strikethrough, inline code, links and images.

- `!` is plain text to the tokenizer; an image is a text token that ends in `!`
  followed by a whole `[alt](url)`. Otherwise the `!` stays in the text.
- A line that starts with seven or more `#` is a paragraph.
- A line that starts with a number is an ordered list item only where the number is
  followed by `.` and a space or the end of the line (`1. item`); otherwise it is a
  paragraph (`12 apples`).
- Bold ends at the next `**` and strikethrough at the next `~~`; a single `*` inside
  bold opens italic, a single `~` inside strikethrough is text.

A source whose markup is left open (`**bold`, `` `code ``, `[a](b`) has no parse:
`parse_tokens` and `md_to_html` require one, and `try_parse_tokens` and
`try_md_to_html` return `None` for such input.

`app/main.rs` is the command-line program: `-i <input.md> [-o <output.html>]`.
