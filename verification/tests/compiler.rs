use sitegen::compiler::{compile, to_html, AlignKind, CompileError, Node};

fn text(value: &str) -> Node {
    Node::Text { value: value.to_string() }
}

fn html(node: &Node) -> Result<String, CompileError> {
    let mut acc = String::new();
    to_html(node, &mut acc).map(|_| acc)
}

#[test]
fn text_is_encoded() {
    assert_eq!(html(&text("a < b & c > d")), Ok("a &lt; b &amp; c &gt; d".to_string()));
    assert_eq!(html(&text("")), Ok(String::new()));
}

#[test]
fn text_has_its_emoji_replaced() {
    assert_eq!(html(&text("hi :smile: <")), Ok("hi \u{1f604} &lt;".to_string()));
    assert_eq!(html(&text(":not_an_emoji_at_all:")), Ok(":not_an_emoji_at_all:".to_string()));
}

#[test]
fn rendering_appends() {
    let mut acc = "before".to_string();
    assert_eq!(to_html(&text("x"), &mut acc).map(|found| found.is_none()), Ok(true));
    assert_eq!(acc, "beforex");
}

#[test]
fn parents_wrap_their_children() {
    let children = || vec![text("a"), text("b")];
    assert_eq!(html(&Node::Paragraph { children: children() }), Ok("<p>ab</p>".to_string()));
    assert_eq!(html(&Node::Strong { children: children() }), Ok("<b>ab</b>".to_string()));
    assert_eq!(html(&Node::Emphasis { children: children() }), Ok("<i>ab</i>".to_string()));
    assert_eq!(html(&Node::Delete { children: children() }), Ok("<s>ab</s>".to_string()));
    assert_eq!(
        html(&Node::Blockquote { children: children() }),
        Ok("<blockquote>ab</blockquote>".to_string())
    );
    assert_eq!(
        html(&Node::Heading { children: children(), depth: 3 }),
        Ok("<h3>ab</h3>".to_string())
    );
    assert_eq!(
        html(&Node::Link { children: children(), url: "u?a&b".to_string() }),
        Ok("<a href=\"u?a&b\">ab</a>".to_string())
    );
    assert_eq!(html(&Node::Root { children: vec![] }), Ok(String::new()));
}

#[test]
fn lists_and_items() {
    let item = |checked| Node::ListItem { children: vec![text("x")], checked };
    assert_eq!(
        html(&Node::List { children: vec![item(None)], ordered: false, start: None }),
        Ok("<ul><li>x</li></ul>".to_string())
    );
    assert_eq!(
        html(&Node::List { children: vec![item(None)], ordered: false, start: Some(3) }),
        Ok("<ul><li>x</li></ul>".to_string())
    );
    assert_eq!(
        html(&Node::List { children: vec![item(None), item(None)], ordered: true, start: Some(12) }),
        Ok("<ol start=\"12\"><li>x</li><li>x</li></ol>".to_string())
    );
    assert_eq!(
        html(&item(Some(true))),
        Ok("<input type=\"checkbox\" checked disabled=\"disabled\"><li>x</li>".to_string())
    );
    assert_eq!(
        html(&item(Some(false))),
        Ok("<input type=\"checkbox\" disabled=\"disabled\"><li>x</li>".to_string())
    );
}

#[test]
fn ordered_list_without_a_start_is_unsupported() {
    assert_eq!(
        html(&Node::List { children: vec![], ordered: true, start: None }),
        Err(CompileError::Unsupported)
    );
}

#[test]
fn values_are_encoded_between_their_tags() {
    assert_eq!(
        html(&Node::InlineCode { value: "a<b".to_string() }),
        Ok("<code>a&lt;b</code>".to_string())
    );
    assert_eq!(
        html(&Node::Code { value: "x > y".to_string(), lang: Some("rust".to_string()) }),
        Ok("<pre><code class=\"language-rust\">x &gt; y</code></pre>".to_string())
    );
    assert_eq!(
        html(&Node::Code { value: "x & y".to_string(), lang: None }),
        Ok("<pre><code>x &amp; y</code></pre>".to_string())
    );
    assert_eq!(
        html(&Node::Image { alt: "a<b".to_string(), url: "i.png".to_string() }),
        Ok("<img src=\"i.png\" alt=\"a&lt;b\">".to_string())
    );
    assert_eq!(html(&Node::Html { value: "<hr>&".to_string() }), Ok("<hr>&".to_string()));
}

#[test]
fn mathematics_is_typeset() {
    let inline = html(&Node::InlineMath { value: "x^2".to_string() }).unwrap();
    assert_ne!(inline, "x^2");
    assert!(inline.contains("class=\"katex\""));
    assert!(!inline.contains("katex-display"));
    let display = html(&Node::Math { value: "x^2".to_string() }).unwrap();
    assert!(display.contains("katex-display"));
    assert_eq!(html(&Node::InlineMath { value: "x^2".to_string() }), Ok(inline));
}

#[test]
fn mathematics_that_cannot_be_typeset_is_an_error() {
    let result = html(&Node::Paragraph {
        children: vec![text("a"), Node::InlineMath { value: "\\frac{".to_string() }],
    });
    assert!(matches!(result, Err(CompileError::Math(source, _)) if source == "\\frac{"));
}

#[test]
fn table_has_a_header_and_alignments() {
    let cell = |s: &str| Node::TableCell { children: vec![text(s)] };
    let row = |a: &str, b: &str| Node::TableRow { children: vec![cell(a), cell(b)] };
    let table = Node::Table {
        children: vec![row("h1", "h2"), row("a", "b"), row("c", "d")],
        align: vec![AlignKind::Left, AlignKind::Unset],
    };
    assert_eq!(
        html(&table),
        Ok([
            "<table>",
            "<tr><th style=\"text-align:left\">h1</th><th >h2</th></tr>",
            "<tr><td style=\"text-align:left\">a</td><td >b</td></tr>",
            "<tr><td style=\"text-align:left\">c</td><td >d</td></tr>",
            "</table>",
        ]
        .join(""))
    );
    let table = Node::Table {
        children: vec![Node::TableRow { children: vec![cell("r"), cell("c")] }],
        align: vec![AlignKind::Right, AlignKind::Center],
    };
    assert_eq!(
        html(&table),
        Ok([
            "<table><tr><th style=\"text-align:right\">r</th>",
            "<th style=\"text-align:center\">c</th></tr></table>",
        ]
        .join(""))
    );
}

#[test]
fn other_nodes_in_a_table_are_rendered_as_elsewhere() {
    let table = Node::Table {
        children: vec![text("x"), Node::TableRow { children: vec![text("y")] }],
        align: vec![AlignKind::Left],
    };
    assert_eq!(html(&table), Ok("<table>x<tr>y</tr></table>".to_string()));
}

#[test]
fn cell_beyond_the_alignments_is_an_error() {
    let cell = |s: &str| Node::TableCell { children: vec![text(s)] };
    let table = Node::Table {
        children: vec![Node::TableRow { children: vec![cell("a"), cell("b")] }],
        align: vec![AlignKind::Left],
    };
    assert_eq!(html(&table), Err(CompileError::Unaligned));
}

#[test]
fn rows_and_cells_outside_a_table_are_unsupported() {
    assert_eq!(html(&Node::TableRow { children: vec![] }), Err(CompileError::Unsupported));
    assert_eq!(html(&Node::TableCell { children: vec![] }), Err(CompileError::Unsupported));
    assert_eq!(
        html(&Node::Paragraph { children: vec![Node::TableCell { children: vec![] }] }),
        Err(CompileError::Unsupported)
    );
}

#[test]
fn first_error_in_document_order_wins() {
    let tree = Node::Root {
        children: vec![
            text("a"),
            Node::Paragraph { children: vec![Node::TableRow { children: vec![] }] },
            Node::Toml { value: "not toml".to_string() },
        ],
    };
    assert_eq!(html(&tree), Err(CompileError::Unsupported));
}

#[test]
fn front_matter_gives_the_options() {
    let tree = Node::Root {
        children: vec![
            Node::Toml { value: "title = \"T\"\ndraft = true\n".to_string() },
            Node::Heading { children: vec![text("Hi")], depth: 1 },
        ],
    };
    let (page, options) = compile(&tree).unwrap();
    assert_eq!(page, "<h1>Hi</h1>");
    let options = options.unwrap();
    assert_eq!(options.get("title").and_then(|v| v.as_str()), Some("T"));
    assert_eq!(options.get("draft").and_then(|v| v.as_bool()), Some(true));
    assert_eq!(options.len(), 2);
}

#[test]
fn last_front_matter_wins() {
    let tree = Node::Root {
        children: vec![
            Node::Toml { value: "n = 1".to_string() },
            text("x"),
            Node::Toml { value: "n = 2".to_string() },
        ],
    };
    let (page, options) = compile(&tree).unwrap();
    assert_eq!(page, "x");
    assert_eq!(options.unwrap().get("n").and_then(|v| v.as_integer()), Some(2));
}

#[test]
fn document_without_front_matter_has_no_options() {
    let (page, options) = compile(&Node::Root { children: vec![text("x")] }).unwrap();
    assert_eq!(page, "x");
    assert!(options.is_none());
    let nested = Node::Root {
        children: vec![Node::Paragraph {
            children: vec![Node::Toml { value: "n = 1".to_string() }],
        }],
    };
    assert_eq!(compile(&nested).map(|(page, options)| (page, options.is_none())), Ok(("<p></p>".to_string(), true)));
}

#[test]
fn front_matter_that_is_no_table_is_an_error() {
    let tree = Node::Root { children: vec![Node::Toml { value: "= broken".to_string() }] };
    assert!(matches!(compile(&tree), Err(CompileError::FrontMatter(_))));
}
