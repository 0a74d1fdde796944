use vstd::prelude::*;

verus! {

/// The style sheet that every page carries, for plain readable output.
pub const STYLESHEET: &'static str = "body {\n  max-width: 50rem;\n  margin: 2rem auto;\n  padding: 0 1rem;\n  font-family: -apple-system, \"Segoe UI\", Helvetica, Arial, sans-serif;\n  line-height: 1.6;\n  color: #24292f;\n}\nh1, h2, h3, h4, h5, h6 {\n  line-height: 1.25;\n  margin-top: 1.5em;\n}\ncode {\n  font-family: ui-monospace, Menlo, Consolas, monospace;\n  background: #f6f8fa;\n  padding: 0.1em 0.3em;\n  border-radius: 4px;\n}\npre {\n  background: #f6f8fa;\n  padding: 1rem;\n  overflow: auto;\n  border-radius: 6px;\n}\npre code {\n  padding: 0;\n  background: none;\n}\nblockquote {\n  margin: 0;\n  padding: 0 1em;\n  color: #57606a;\n  border-left: 0.25em solid #d0d7de;\n}\na {\n  color: #0969da;\n}\n";

/// The page's text before its content: the document head with the style sheet,
/// and the opening of the body.
pub open spec fn page_head() -> Seq<char> {
    "<!DOCTYPE html>\n<html>\n<head>\n<meta charset=\"UTF-8\">\n<meta name=\"viewport\" content=\"width=device-width, initial-scale=1.0\">\n<style>\n"@
        + STYLESHEET@ + "\n</style>\n</head>\n<body>\n"@
}

/// The page's text after its content.
pub open spec fn page_tail() -> Seq<char> {
    "\n</body>\n</html>"@
}

/// A full HTML page whose body is `content`.
pub fn wrap_html(content: &str) -> (page: String)
    ensures
        page@ == page_head() + content@ + page_tail(),
{
    let mut page = String::from_str(
        "<!DOCTYPE html>\n<html>\n<head>\n<meta charset=\"UTF-8\">\n<meta name=\"viewport\" content=\"width=device-width, initial-scale=1.0\">\n<style>\n",
    );
    page.append(STYLESHEET);
    page.append("\n</style>\n</head>\n<body>\n");
    page.append(content);
    page.append("\n</body>\n</html>");
    page
}

/// Every page carries the style sheet as a style element that closes the head: the
/// text before a page's content starts the document and its head, and ends with
/// `<style>`, the style sheet, `</style>`, `</head>` and the opening of the body;
/// the content follows, and after it the body and the document are closed.
pub proof fn lemma_page_carries_style(content: Seq<char>)
    ensures
        ({
            let page = page_head() + content + page_tail();
            let style = "<style>\n"@ + STYLESHEET@ + "\n</style>\n</head>\n<body>\n"@;
            let start = "<!DOCTYPE html>\n<html>\n<head>\n"@;
            &&& page_head().len() >= start.len() + style.len()
            &&& page.subrange(0, start.len() as int) == start
            &&& page.subrange(page_head().len() - style.len(), page_head().len() as int) == style
            &&& page.subrange(page_head().len() as int, (page_head().len() + content.len()) as int)
                == content
            &&& page.subrange((page_head().len() + content.len()) as int, page.len() as int)
                == "\n</body>\n</html>"@
        }),
{
    let page = page_head() + content + page_tail();
    let style = "<style>\n"@ + STYLESHEET@ + "\n</style>\n</head>\n<body>\n"@;
    let start = "<!DOCTYPE html>\n<html>\n<head>\n"@;
    let meta = "<meta charset=\"UTF-8\">\n<meta name=\"viewport\" content=\"width=device-width, initial-scale=1.0\">\n"@;
    let opened = "<!DOCTYPE html>\n<html>\n<head>\n<meta charset=\"UTF-8\">\n<meta name=\"viewport\" content=\"width=device-width, initial-scale=1.0\">\n<style>\n"@;
    reveal_strlit("<style>\n");
    reveal_strlit("<!DOCTYPE html>\n<html>\n<head>\n");
    reveal_strlit("<meta charset=\"UTF-8\">\n<meta name=\"viewport\" content=\"width=device-width, initial-scale=1.0\">\n");
    reveal_strlit("<!DOCTYPE html>\n<html>\n<head>\n<meta charset=\"UTF-8\">\n<meta name=\"viewport\" content=\"width=device-width, initial-scale=1.0\">\n<style>\n");
    assert(opened =~= start + meta + "<style>\n"@);
    assert(page_head() =~= start + meta + style);
    assert(page.subrange(0, start.len() as int) =~= start);
    assert(page.subrange(page_head().len() - style.len(), page_head().len() as int) =~= style);
    assert(page.subrange(page_head().len() as int, (page_head().len() + content.len()) as int) =~= content);
    assert(page.subrange((page_head().len() + content.len()) as int, page.len() as int) =~= page_tail());
}

} // verus!
