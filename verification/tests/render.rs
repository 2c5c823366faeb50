use sitegen::markdown::html::{math_sources, sanitize, toks_to_html, Buffer};
use sitegen::markdown::render::RenderError;
use sitegen::markdown::lexer::{tokenize, Token};

fn page_with(text: &str, math: &[&str]) -> Result<String, RenderError> {
    let mut buffer = Buffer::new(tokenize(text));
    let math: Vec<String> = math.iter().map(|m| m.to_string()).collect();
    toks_to_html(&mut buffer, &math)
}

fn page(text: &str) -> Result<String, RenderError> {
    page_with(text, &[])
}

fn count(haystack: &str, needle: &str) -> usize {
    haystack.matches(needle).count()
}

#[test]
fn heading_closes_at_the_end_of_its_line() {
    assert_eq!(page("# Hi\n"), Ok("<h1>Hi</h1>".to_string()));
}

#[test]
fn heading_without_a_line_end_stays_open() {
    assert_eq!(page("## Hi"), Ok("<h2>Hi".to_string()));
}

#[test]
fn heading_level_is_written_in_decimal() {
    assert_eq!(page("############ x\n"), Ok("<h12>x</h12>".to_string()));
}

#[test]
fn two_items_make_one_list() {
    assert_eq!(page("- a\n- b\n"), Ok("<ul><li>a</li><li>b</li></ul>".to_string()));
}

#[test]
fn list_without_a_last_line_end_closes_too() {
    assert_eq!(page("- a\n- b"), Ok("<ul><li>a</li><li>b</li></ul>".to_string()));
}

#[test]
fn inline_code_is_wrapped() {
    assert_eq!(page("`code`"), Ok("<code>code</code>".to_string()));
}

#[test]
fn sanitize_escapes_markup() {
    assert_eq!(sanitize("a"), "a");
    assert_eq!(sanitize("<"), "&lt;");
    assert_eq!(sanitize("a & b > c"), "a&nbsp;&amp;&nbsp;b&nbsp;&gt;&nbsp;c");
    assert_eq!(sanitize(""), "");
    assert_eq!(sanitize("safe-text_1"), "safe-text_1");
}

#[test]
fn text_is_escaped_and_raw_text_is_not() {
    assert_eq!(page("a <b"), Ok("a&nbsp;&lt;b".to_string()));
    assert_eq!(page("!{<b>x</b>}"), Ok("<b>x</b>".to_string()));
    assert_eq!(page("\\*\\<"), Ok("*<".to_string()));
}

#[test]
fn balanced_styles_close() {
    let html = page("**a** *b* ~~c~~ **d**").unwrap();
    assert_eq!(html, "<b>a</b>&nbsp;<i>b</i>&nbsp;<del>c</del>&nbsp;<b>d</b>");
    assert_eq!(count(&html, "<b>"), count(&html, "</b>"));
    assert_eq!(count(&html, "<i>"), count(&html, "</i>"));
    assert_eq!(count(&html, "<del>"), count(&html, "</del>"));
}

#[test]
fn odd_style_stays_open() {
    let html = page("**a** **b").unwrap();
    assert_eq!(html, "<b>a</b>&nbsp;<b>b");
    assert_eq!(count(&html, "<b>"), count(&html, "</b>") + 1);
}

#[test]
fn nested_lists_close_innermost_first() {
    assert_eq!(
        page("- a\n  - b\n- c\n"),
        Ok("<ul><li>a<ul><li>b</li></ul></li><li>c</li></ul>".to_string())
    );
}

#[test]
fn every_list_that_opens_closes() {
    for source in ["- a\n  - b\n    - c", "- a\n\t- b\n  - c\n- d\ntext", "  - a\n- b\n    - c\n"] {
        let html = page(source).unwrap();
        assert_eq!(count(&html, "<ul>"), count(&html, "</ul>"), "{}", source);
        assert_eq!(count(&html, "<li>"), count(&html, "</li>"), "{}", source);
    }
    for source in ["- a", "- a\n  - b\n", "- a\n  - b\n    - c\n  - d\n- e\n", "    - a\n  - b\n- c"] {
        let html = page(source).unwrap();
        assert_eq!(count(&html, "</li></ul>"), count(&html, "<ul>"), "{}", source);
        assert_eq!(count(&html, "</ul>"), count(&html, "<ul>"), "{}", source);
    }
    assert_eq!(page("- a\n  - b\n"), Ok("<ul><li>a<ul><li>b</li></ul></li></ul>".to_string()));
    assert_eq!(
        page("- a\n  - b\n    - c\n  - d\n- e\n"),
        Ok("<ul><li>a<ul><li>b<ul><li>c</li></ul></li><li>d</li></ul></li><li>e</li></ul>"
            .to_string())
    );
    assert_eq!(
        page("- a\ntext\n  - b"),
        Ok("<ul><li>a</li>text<ul><li>b</li></ul></ul>".to_string())
    );
    assert_eq!(
        page("- a\n  - b\n    - c"),
        Ok("<ul><li>a<ul><li>b<ul><li>c</li></ul></li></ul></li></ul>".to_string())
    );
}

#[test]
fn list_marker_inside_a_line_is_a_dash() {
    assert_eq!(page("a - b"), Ok("a&nbsp;-&nbsp;b".to_string()));
    assert_eq!(page("a > b"), Ok("a&nbsp;&gt;&nbsp;b".to_string()));
}

#[test]
fn plain_lines_break() {
    assert_eq!(page("a\nb"), Ok("a<br>b".to_string()));
    assert_eq!(page("a\n  b"), Ok("a<br>&nbsp;&nbsp;b".to_string()));
    assert_eq!(page("a\n\tb"), Ok("a<br>&nbsp;&nbsp;&nbsp;&nbsp;b".to_string()));
}

#[test]
fn quotation_opens_goes_on_and_ends() {
    assert_eq!(
        page("> a\n> b\nc"),
        Ok("<div class=\"blockquote\">&nbsp;a<br>&nbsp;b</div>c".to_string())
    );
    assert_eq!(page("a\n> b"), Ok("a<div class=\"blockquote\">&nbsp;b".to_string()));
}

#[test]
fn links_and_images() {
    assert_eq!(page("[n](u)"), Ok("<a href=\"u\">n</a>".to_string()));
    assert_eq!(page("![n](u)"), Ok("<img src=\"u\" alt=\"n\">".to_string()));
    assert_eq!(
        page("![a](b)[c](d)"),
        Ok("<img src=\"b\" alt=\"a\"><a href=\"d\">c</a>".to_string())
    );
}

fn page_of_tokens(tokens: Vec<Token>) -> Result<String, RenderError> {
    toks_to_html(&mut Buffer::new(tokens), &Vec::new())
}

#[test]
fn address_without_a_name_is_an_error() {
    assert_eq!(
        page_of_tokens(vec![Token::Text("ab".to_string()), Token::LinkURL("u".to_string())]),
        Err(RenderError::UnexpectedUrl(1))
    );
}

#[test]
fn name_without_an_address_is_an_error() {
    assert_eq!(
        page_of_tokens(vec![Token::LinkName("n".to_string()), Token::Text("(u)".to_string())]),
        Err(RenderError::MissingUrl(0))
    );
    assert_eq!(
        page_of_tokens(vec![Token::Text("x".to_string()), Token::LinkName("n".to_string())]),
        Err(RenderError::MissingUrl(1))
    );
}

#[test]
fn brackets_that_are_no_link_are_text() {
    assert_eq!(page("[name](url"), Ok("[name](url".to_string()));
    assert_eq!(page("ab (u)"), Ok("ab&nbsp;(u)".to_string()));
    assert_eq!(page("[n] (u)"), Ok("[n]&nbsp;(u)".to_string()));
    assert_eq!(page("f(x) = [1, 2]"), Ok("f(x)&nbsp;=&nbsp;[1,&nbsp;2]".to_string()));
}

#[test]
fn every_text_renders() {
    for source in ["(", ")", "[", "]", "[a](", "![x]", "a)b(c", "- [ ] task (open)\n- [x] done"] {
        assert!(page(source).is_ok(), "{}", source);
    }
}

#[test]
fn code_block_is_escaped_and_trimmed() {
    assert_eq!(
        page("```rust\nif a < b {}\n \t\n```"),
        Ok("<pre><code class=\"language-rust\">if&nbsp;a&nbsp;&lt;&nbsp;b&nbsp;{}</code></pre>"
            .to_string())
    );
    assert_eq!(
        page("```\nx\n```"),
        Ok("<pre><code class=\"language-\">x</code></pre>".to_string())
    );
}

#[test]
fn math_takes_the_markup_in_order() {
    assert_eq!(page_with("$a$ and $b$", &["<A>", "<B>"]), Ok("<A>&nbsp;and&nbsp;<B>".to_string()));
    assert_eq!(page_with("$a$ and $b$", &["<A>"]), Err(RenderError::MissingMath(2)));
    assert_eq!(page("x$a$"), Err(RenderError::MissingMath(1)));
}

#[test]
fn math_sources_carry_the_preamble() {
    let tokens = tokenize("$a$ text $b\\$$ `$c$`");
    assert_eq!(math_sources(&tokens, "\\pre"), vec!["\\pre\na".to_string(), "\\pre\nb$".to_string()]);
    assert_eq!(math_sources(&tokenize("no math"), "p"), Vec::<String>::new());
}

#[test]
fn emoji_is_looked_up() {
    let html = page(":smile:").unwrap();
    assert_ne!(html, ":smile:");
    assert_eq!(html, "\u{1f604}");
    assert_eq!(page(":no_such_emoji_code:"), Ok(":no_such_emoji_code:".to_string()));
}

#[test]
fn rendering_reads_from_the_cursor_on() {
    let mut buffer = Buffer::new(tokenize("a*b*"));
    assert_eq!(buffer.peek(), Some(&Token::Text("a".to_string())));
    assert_eq!(buffer.next(), Some(Token::Text("a".to_string())));
    assert_eq!(buffer.peek(), Some(&Token::Italic));
    assert_eq!(toks_to_html(&mut buffer, &Vec::new()), Ok("<i>b</i>".to_string()));
    assert_eq!(buffer.peek(), None);
    assert_eq!(buffer.next(), None);
    assert_eq!(toks_to_html(&mut buffer, &Vec::new()), Ok(String::new()));
}

#[test]
fn item_text_loses_only_the_space_after_the_marker() {
    assert_eq!(page("-  a"), Ok("<ul><li>&nbsp;a</li></ul>".to_string()));
    assert_eq!(page("-a"), Ok("<ul><li>a</li></ul>".to_string()));
    assert_eq!(page("- **a** b"), Ok("<ul><li><b>a</b>&nbsp;b</li></ul>".to_string()));
}

#[test]
fn escaped_text_holds_no_markup() {
    for source in ["<script>alert(1)</script>", "a b  c", "1 < 2 && 3 > 2", "&lt;", "x"] {
        let text = sanitize(source);
        assert!(!text.contains('<') && !text.contains('>') && !text.contains(' '), "{}", source);
    }
}

#[test]
fn markup_for_every_expression_suffices() {
    let source = "$a$ - b\n- $c$ [n](u) $d$\n> $e$";
    let tokens = tokenize(source);
    let sources = math_sources(&tokens, "p");
    assert_eq!(sources.len(), 4);
    let math: Vec<String> = sources.iter().map(|s| format!("<{}>", s.len())).collect();
    let mut buffer = Buffer::new(tokens);
    assert_eq!(
        toks_to_html(&mut buffer, &math),
        Ok("<3>&nbsp;-&nbsp;b<ul><li><3>&nbsp;<a href=\"u\">n</a>&nbsp;<3></li><div class=\"blockquote\">&nbsp;<3></ul>".to_string())
    );
}
