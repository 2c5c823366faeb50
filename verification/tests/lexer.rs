use sitegen::markdown::lexer::{tokenize, Token, TOKEN_KINDS};

fn text(s: &str) -> Token {
    Token::Text(s.to_string())
}

#[test]
fn plain_text_is_one_token() {
    assert_eq!(tokenize("hello world"), vec![text("hello world")]);
}

#[test]
fn empty_text_has_no_tokens() {
    assert_eq!(tokenize(""), Vec::<Token>::new());
}

#[test]
fn escape_takes_any_character() {
    assert_eq!(tokenize("\\*"), vec![Token::Escape('*')]);
    assert_eq!(tokenize("\\\n"), vec![Token::Escape('\n')]);
    assert_eq!(tokenize("\\\\"), vec![Token::Escape('\\')]);
    assert_eq!(tokenize("a\\#b"), vec![text("a"), Token::Escape('#'), text("b")]);
}

#[test]
fn backslash_at_the_end_is_text() {
    assert_eq!(tokenize("a\\"), vec![text("a"), text("\\")]);
}

#[test]
fn stars_and_tildes() {
    assert_eq!(tokenize("*"), vec![Token::Italic]);
    assert_eq!(tokenize("**"), vec![Token::Bold]);
    assert_eq!(tokenize("***"), vec![Token::Bold, Token::Italic]);
    assert_eq!(tokenize("~~"), vec![Token::Strike]);
    assert_eq!(tokenize("~a"), vec![text("~a")]);
    assert_eq!(
        tokenize("**b** *i* ~~s~~"),
        vec![
            Token::Bold,
            text("b"),
            Token::Bold,
            text(" "),
            Token::Italic,
            text("i"),
            Token::Italic,
            text(" "),
            Token::Strike,
            text("s"),
            Token::Strike,
        ]
    );
}

#[test]
fn code_fence_keeps_its_body() {
    assert_eq!(
        tokenize("```rust\nlet x = *y;\n```"),
        vec![Token::CodeBlock(("rust".to_string(), "let x = *y;\n".to_string()))]
    );
    assert_eq!(
        tokenize("```\n\\n```"),
        vec![Token::CodeBlock(("".to_string(), "\\n".to_string()))]
    );
}

#[test]
fn code_fence_without_an_end_is_not_a_block() {
    assert_eq!(
        tokenize("```rust\ncode"),
        vec![
            Token::InlineCode("".to_string()),
            text("`rust"),
            Token::NewLine(0),
            text("code"),
        ]
    );
}

#[test]
fn inline_code_allows_an_escaped_backtick() {
    assert_eq!(tokenize("`a`"), vec![Token::InlineCode("a".to_string())]);
    assert_eq!(tokenize("`a\\`b`"), vec![Token::InlineCode("a\\`b".to_string())]);
    assert_eq!(tokenize("`a\\`"), vec![Token::InlineCode("a\\".to_string())]);
    assert_eq!(tokenize("`a\nb`"), vec![text("`a"), Token::NewLine(0), text("b"), text("`")]);
}

#[test]
fn markers_of_lists_quotes_and_images() {
    assert_eq!(tokenize("-"), vec![Token::DotList]);
    assert_eq!(tokenize(">"), vec![Token::BlockQuote]);
    assert_eq!(tokenize("!"), vec![Token::Bang]);
    assert_eq!(tokenize("a-b"), vec![text("a"), Token::DotList, text("b")]);
}

#[test]
fn link_name_and_address() {
    assert_eq!(
        tokenize("[name](url)"),
        vec![Token::LinkName("name".to_string()), Token::LinkURL("url".to_string())]
    );
    assert_eq!(tokenize("[]"), vec![text("["), text("]")]);
    assert_eq!(tokenize("()"), vec![text("("), text(")")]);
    assert_eq!(tokenize("[a\nb]"), vec![text("[a"), Token::NewLine(0), text("b"), text("]")]);
}

#[test]
fn unclosed_address_is_plain_text() {
    assert_eq!(tokenize("[name](url"), vec![text("[name"), text("]"), text("(url")]);
}

#[test]
fn name_and_address_are_tokens_only_together() {
    assert_eq!(tokenize("(x)"), vec![text("(x"), text(")")]);
    assert_eq!(tokenize("see (this) now"), vec![text("see "), text("(this"), text(") now")]);
    assert_eq!(tokenize("[n]"), vec![text("[n"), text("]")]);
    assert_eq!(tokenize("[n] (u)"), vec![text("[n"), text("] "), text("(u"), text(")")]);
    assert_eq!(tokenize("[n]()"), vec![text("[n"), text("]"), text("("), text(")")]);
    assert_eq!(tokenize("[n](u\n)"), vec![
        text("[n"),
        text("]"),
        text("(u"),
        Token::NewLine(0),
        text(")"),
    ]);
    assert_eq!(
        tokenize("[a](b)(c)"),
        vec![
            Token::LinkName("a".to_string()),
            Token::LinkURL("b".to_string()),
            text("(c"),
            text(")"),
        ]
    );
    assert_eq!(
        tokenize("[a][b](c)"),
        vec![
            text("[a"),
            text("]"),
            Token::LinkName("b".to_string()),
            Token::LinkURL("c".to_string()),
        ]
    );
    for source in ["a (b) [c] [d](e) (f)[g](h)", "[x](y", "((()))", "[[a](b)](c)"] {
        let tokens = tokenize(source);
        for (at, token) in tokens.iter().enumerate() {
            if matches!(token, Token::LinkURL(_)) {
                assert!(at > 0 && matches!(tokens[at - 1], Token::LinkName(_)), "{}", source);
            }
            if matches!(token, Token::LinkName(_)) {
                assert!(matches!(tokens.get(at + 1), Some(Token::LinkURL(_))), "{}", source);
            }
        }
    }
}

#[test]
fn heading_needs_a_space() {
    assert_eq!(tokenize("# tag"), vec![Token::Heading(1), text("tag")]);
    assert_eq!(tokenize("### tag"), vec![Token::Heading(3), text("tag")]);
    assert_eq!(tokenize("#tag"), vec![text("#tag")]);
    assert_eq!(tokenize("#"), vec![text("#")]);
    assert_eq!(tokenize("##x"), vec![text("#"), text("#x")]);
}

#[test]
fn math_is_unescaped() {
    assert_eq!(tokenize("$x+y$"), vec![Token::MathExpr("x+y".to_string())]);
    assert_eq!(tokenize("$$"), vec![Token::MathExpr("".to_string())]);
    assert_eq!(tokenize("$a\\$b$"), vec![Token::MathExpr("a$b".to_string())]);
    assert_eq!(tokenize("$a\nb$"), vec![Token::MathExpr("a\nb".to_string())]);
    assert_eq!(tokenize("$a"), vec![text("$a")]);
}

#[test]
fn text_block_is_unescaped() {
    assert_eq!(tokenize("!{<b>}"), vec![Token::TextBlock("<b>".to_string())]);
    assert_eq!(tokenize("!{a\\}b}"), vec![Token::TextBlock("a}b".to_string())]);
    assert_eq!(tokenize("!{a\\}"), vec![Token::TextBlock("a\\".to_string())]);
    assert_eq!(tokenize("!{}"), vec![Token::Bang, text("{}")]);
    assert_eq!(tokenize("!{a"), vec![Token::Bang, text("{a")]);
}

#[test]
fn newline_measures_the_indentation() {
    assert_eq!(tokenize("\n"), vec![Token::NewLine(0)]);
    assert_eq!(tokenize("\n  a"), vec![Token::NewLine(2), text("a")]);
    assert_eq!(tokenize("\n\t a"), vec![Token::NewLine(5), text("a")]);
    assert_eq!(tokenize("\n\n"), vec![Token::NewLine(0), Token::NewLine(0)]);
}

#[test]
fn emoji_at_the_start_of_a_token() {
    assert_eq!(tokenize(":smile:"), vec![Token::Emoji("smile".to_string())]);
    assert_eq!(
        tokenize(":thumbs_up: ok"),
        vec![Token::Emoji("thumbs_up".to_string()), text(" ok")]
    );
    assert_eq!(tokenize(":Smile:"), vec![text(":Smile:")]);
    assert_eq!(tokenize("::"), vec![text("::")]);
    assert_eq!(tokenize("a :smile:"), vec![text("a :smile:")]);
}

#[test]
fn every_character_is_in_one_token() {
    let source = "# T\n- a **b**\n\t> q [n](u) $m$ `c` !{r} :e: \\x ~ #] )";
    let tokens = tokenize(source);
    assert_eq!(
        tokens,
        vec![
            Token::Heading(1),
            text("T"),
            Token::NewLine(0),
            Token::DotList,
            text(" a "),
            Token::Bold,
            text("b"),
            Token::Bold,
            Token::NewLine(4),
            Token::BlockQuote,
            text(" q "),
            Token::LinkName("n".to_string()),
            Token::LinkURL("u".to_string()),
            text(" "),
            Token::MathExpr("m".to_string()),
            text(" "),
            Token::InlineCode("c".to_string()),
            text(" "),
            Token::TextBlock("r".to_string()),
            text(" :e: "),
            Token::Escape('x'),
            text(" "),
            text("~ "),
            text("#"),
            text("] "),
            text(")"),
        ]
    );
}

#[test]
fn kinds_have_their_slots() {
    let tokens = vec![
        Token::Escape('a'),
        Token::Italic,
        Token::Bold,
        Token::Strike,
        Token::CodeBlock((String::new(), String::new())),
        Token::InlineCode(String::new()),
        Token::DotList,
        Token::BlockQuote,
        Token::Bang,
        Token::LinkName(String::new()),
        Token::LinkURL(String::new()),
        Token::Heading(0),
        Token::MathExpr(String::new()),
        Token::TextBlock(String::new()),
        Token::Text(String::new()),
        Token::NewLine(0),
        Token::Emoji(String::new()),
    ];
    assert_eq!(tokens.len(), TOKEN_KINDS);
    for (slot, token) in tokens.iter().enumerate() {
        assert_eq!(token.as_usize(), slot);
    }
    assert_eq!(Token::Heading(3).as_usize(), Token::Heading(0).as_usize());
    assert_eq!(Token::Text("a".to_string()).clone(), Token::Text("a".to_string()));
}
