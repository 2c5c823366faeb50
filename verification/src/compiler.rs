use crate::bindings::{
    emoji_expanded, encode_text, encoded, expand_emoji, katex_error_text, katex_html,
    katex_render, parse_toml, toml_entries, toml_error_text, toml_parsed,
};
use crate::text::{decimal, push_decimal};
use vstd::prelude::*;

verus! {

/// How the cells of a column of a table are aligned.
#[derive(Clone, Copy, Debug, PartialEq, Eq, Structural)]
pub enum AlignKind {
    Left,
    Right,
    Center,
    /// The column is aligned as the browser sees fit.
    Unset,
}

/// A node of the syntax tree of a document.
#[derive(Debug)]
pub enum Node {
    /// The document.
    Root { children: Vec<Node> },
    /// Front matter: the options of the document, as TOML.
    Toml { value: String },
    Blockquote { children: Vec<Node> },
    /// A list; an ordered list starts at `start`.
    List { children: Vec<Node>, ordered: bool, start: Option<u32> },
    InlineCode { value: String },
    /// Mathematics in the line.
    InlineMath { value: String },
    Delete { children: Vec<Node> },
    Emphasis { children: Vec<Node> },
    /// HTML as the author wrote it.
    Html { value: String },
    Image { alt: String, url: String },
    Link { children: Vec<Node>, url: String },
    Strong { children: Vec<Node> },
    Text { value: String },
    /// A block of code, with its language where the author named one.
    Code { value: String, lang: Option<String> },
    /// Mathematics on lines of its own.
    Math { value: String },
    Heading { children: Vec<Node>, depth: u8 },
    /// A table: its rows, the first of which is the header, and the alignment of its
    /// columns.
    Table { children: Vec<Node>, align: Vec<AlignKind> },
    TableRow { children: Vec<Node> },
    TableCell { children: Vec<Node> },
    /// An item of a list; an item of a task list is checked or not.
    ListItem { children: Vec<Node>, checked: Option<bool> },
    Paragraph { children: Vec<Node> },
}

/// Why a tree cannot be rendered.
#[derive(Debug, PartialEq, Eq)]
pub enum CompileError {
    /// A node that has no rendering: an ordered list without a start, or a row or a cell
    /// outside a table.
    Unsupported,
    /// A row holds more cells than the table has alignments.
    Unaligned,
    /// KaTeX cannot typeset this source; the second text is what it said.
    Math(String, String),
    /// The front matter is no TOML table; the text is what the parser said.
    FrontMatter(String),
}

/// What a `CompileError` stands for.
pub enum CompileErrorView {
    Unsupported,
    Unaligned,
    Math(Seq<char>),
    FrontMatter,
}

impl View for CompileError {
    type V = CompileErrorView;

    open spec fn view(&self) -> CompileErrorView {
        match self {
            CompileError::Unsupported => CompileErrorView::Unsupported,
            CompileError::Unaligned => CompileErrorView::Unaligned,
            CompileError::Math(source, _) => CompileErrorView::Math(source@),
            CompileError::FrontMatter(_) => CompileErrorView::FrontMatter,
        }
    }
}

/// The attribute that aligns a cell.
pub open spec fn align_attr(kind: AlignKind) -> Seq<char> {
    match kind {
        AlignKind::Left => "style=\"text-align:left\""@,
        AlignKind::Right => "style=\"text-align:right\""@,
        AlignKind::Center => "style=\"text-align:center\""@,
        AlignKind::Unset => ""@,
    }
}

/// `inner` between an opening and a closing tag, or the error that `inner` is.
pub open spec fn wrapped(open: Seq<char>, inner: Result<Seq<char>, CompileErrorView>, close: Seq<char>) -> Result<
    Seq<char>,
    CompileErrorView,
> {
    match inner {
        Ok(html) => Ok(open + html + close),
        Err(e) => Err(e),
    }
}

/// What `first` holds before what `second` holds, or the first error of the two.
pub open spec fn joined(first: Result<Seq<char>, CompileErrorView>, second: Result<Seq<char>, CompileErrorView>) -> Result<
    Seq<char>,
    CompileErrorView,
> {
    match first {
        Ok(html) => match second {
            Ok(more) => Ok(html + more),
            Err(e) => Err(e),
        },
        Err(e) => Err(e),
    }
}

/// Mathematics typeset by KaTeX, or the error that names the source.
pub open spec fn math_html(source: Seq<char>, display: bool) -> Result<Seq<char>, CompileErrorView> {
    match katex_html(source, display) {
        Some(markup) => Ok(markup),
        None => Err(CompileErrorView::Math(source)),
    }
}

/// The opening tag of a list item: an item of a task list has a checkbox before it.
pub open spec fn item_open_tag(checked: Option<bool>) -> Seq<char> {
    match checked {
        Some(true) => "<input type=\"checkbox\" checked disabled=\"disabled\"><li>"@,
        Some(false) => "<input type=\"checkbox\" disabled=\"disabled\"><li>"@,
        None => "<li>"@,
    }
}

/// Where the children of a node stand: in the flow of the document, among the rows of a
/// table with these alignments, or among the cells of a row, of the header or not.
pub enum Place {
    Flow,
    Rows(Seq<AlignKind>),
    Cells(bool, Seq<AlignKind>),
}

/// The HTML of a node.
///
/// Text is encoded after its emoji codes are replaced; code is encoded; HTML and
/// addresses stand as the author wrote them; mathematics is typeset by KaTeX; front
/// matter writes nothing, but has to be a TOML table; a node with children writes its
/// tags around its children. The first node, in the order of the document, that cannot
/// be rendered is the error.
pub open spec fn node_html(node: Node) -> Result<Seq<char>, CompileErrorView>
    decreases node, 0nat,
{
    match node {
        Node::Root { children } => children_html(children@, children@.len(), Place::Flow),
        Node::Toml { value } => if toml_parsed(value@) is Some {
            Ok(Seq::empty())
        } else {
            Err(CompileErrorView::FrontMatter)
        },
        Node::Blockquote { children } => wrapped(
            "<blockquote>"@,
            children_html(children@, children@.len(), Place::Flow),
            "</blockquote>"@,
        ),
        Node::List { children, ordered, start } => if !ordered {
            wrapped("<ul>"@, children_html(children@, children@.len(), Place::Flow), "</ul>"@)
        } else {
            match start {
                Some(first) => wrapped(
                    "<ol start=\""@ + decimal(first as nat) + "\">"@,
                    children_html(children@, children@.len(), Place::Flow),
                    "</ol>"@,
                ),
                None => Err(CompileErrorView::Unsupported),
            }
        },
        Node::InlineCode { value } => Ok("<code>"@ + encoded(value@) + "</code>"@),
        Node::InlineMath { value } => math_html(value@, false),
        Node::Delete { children } => wrapped(
            "<s>"@,
            children_html(children@, children@.len(), Place::Flow),
            "</s>"@,
        ),
        Node::Emphasis { children } => wrapped(
            "<i>"@,
            children_html(children@, children@.len(), Place::Flow),
            "</i>"@,
        ),
        Node::Html { value } => Ok(value@),
        Node::Image { alt, url } => Ok(
            "<img src=\""@ + url@ + "\" alt=\""@ + encoded(alt@) + "\">"@,
        ),
        Node::Link { children, url } => wrapped(
            "<a href=\""@ + url@ + "\">"@,
            children_html(children@, children@.len(), Place::Flow),
            "</a>"@,
        ),
        Node::Strong { children } => wrapped(
            "<b>"@,
            children_html(children@, children@.len(), Place::Flow),
            "</b>"@,
        ),
        Node::Text { value } => Ok(encoded(emoji_expanded(value@))),
        Node::Code { value, lang } => match lang {
            Some(name) => Ok(
                "<pre><code class=\"language-"@ + name@ + "\">"@ + encoded(value@)
                    + "</code></pre>"@,
            ),
            None => Ok("<pre><code>"@ + encoded(value@) + "</code></pre>"@),
        },
        Node::Math { value } => math_html(value@, true),
        Node::Heading { children, depth } => wrapped(
            "<h"@ + decimal(depth as nat) + ">"@,
            children_html(children@, children@.len(), Place::Flow),
            "</h"@ + decimal(depth as nat) + ">"@,
        ),
        Node::Table { children, align } => wrapped(
            "<table>"@,
            children_html(children@, children@.len(), Place::Rows(align@)),
            "</table>"@,
        ),
        Node::ListItem { children, checked } => wrapped(
            item_open_tag(checked),
            children_html(children@, children@.len(), Place::Flow),
            "</li>"@,
        ),
        Node::Paragraph { children } => wrapped(
            "<p>"@,
            children_html(children@, children@.len(), Place::Flow),
            "</p>"@,
        ),
        Node::TableRow { .. } => Err(CompileErrorView::Unsupported),
        Node::TableCell { .. } => Err(CompileErrorView::Unsupported),
    }
}

/// The HTML of the child at `index` of a node whose children stand in `place`. The first
/// row of a table is its header. A child of a row has the alignment of its column; a
/// child beyond the alignments of the table is an error.
pub open spec fn child_html(node: Node, index: nat, place: Place) -> Result<Seq<char>, CompileErrorView>
    decreases node, 2nat,
{
    match place {
        Place::Flow => node_html(node),
        Place::Rows(align) => row_html(node, index == 0, align),
        Place::Cells(header, align) => if index < align.len() {
            cell_html(node, header, align_attr(align[index as int]))
        } else {
            Err(CompileErrorView::Unaligned)
        },
    }
}

/// The HTML of the first `n` of `nodes`, which stand in `place`, one after the other.
pub open spec fn children_html(nodes: Seq<Node>, n: nat, place: Place) -> Result<
    Seq<char>,
    CompileErrorView,
>
    decreases nodes, n,
{
    if n == 0 || n > nodes.len() {
        Ok(Seq::empty())
    } else {
        joined(
            children_html(nodes, (n - 1) as nat, place),
            child_html(nodes[n - 1], (n - 1) as nat, place),
        )
    }
}

/// The HTML of a child of a table: a row writes its tags around its cells, and anything
/// else is rendered as it is elsewhere.
pub open spec fn row_html(node: Node, header: bool, align: Seq<AlignKind>) -> Result<
    Seq<char>,
    CompileErrorView,
>
    decreases node, 1nat,
{
    match node {
        Node::TableRow { children } => wrapped(
            "<tr>"@,
            children_html(children@, children@.len(), Place::Cells(header, align)),
            "</tr>"@,
        ),
        _ => node_html(node),
    }
}

/// The opening tag of a cell.
pub open spec fn cell_open_tag(header: bool, attr: Seq<char>) -> Seq<char> {
    if header {
        "<th "@ + attr + ">"@
    } else {
        "<td "@ + attr + ">"@
    }
}

/// The closing tag of a cell.
pub open spec fn cell_close_tag(header: bool) -> Seq<char> {
    if header {
        "</th>"@
    } else {
        "</td>"@
    }
}

/// The HTML of a child of a row: a cell writes its tags, with the alignment, around its
/// children, `th` in the header and `td` below it; anything else is rendered as it is
/// elsewhere.
pub open spec fn cell_html(node: Node, header: bool, attr: Seq<char>) -> Result<
    Seq<char>,
    CompileErrorView,
>
    decreases node, 1nat,
{
    match node {
        Node::TableCell { children } => wrapped(
            cell_open_tag(header, attr),
            children_html(children@, children@.len(), Place::Flow),
            cell_close_tag(header),
        ),
        _ => node_html(node),
    }
}

/// The options that a node gives: front matter gives what it holds, the document gives
/// what the last of its children that gives any gives, and nothing else gives any.
pub open spec fn front_matter(node: Node) -> Option<Map<Seq<char>, Seq<char>>>
    decreases node, 0nat,
{
    match node {
        Node::Root { children } => last_front_matter(children@, children@.len()),
        Node::Toml { value } => toml_parsed(value@),
        _ => None,
    }
}

/// The options that the last of the first `n` of `nodes` that gives any gives.
pub open spec fn last_front_matter(nodes: Seq<Node>, n: nat) -> Option<Map<Seq<char>, Seq<char>>>
    decreases nodes, n,
{
    if n == 0 || n > nodes.len() {
        None
    } else {
        match front_matter(nodes[n - 1]) {
            Some(options) => Some(options),
            None => last_front_matter(nodes, (n - 1) as nat),
        }
    }
}

/// Once a child cannot be rendered, its error is the error of all the children.
pub proof fn lemma_first_error(nodes: Seq<Node>, i: nat, n: nat, place: Place)
    requires
        i < n <= nodes.len(),
        children_html(nodes, i, place) is Ok,
        child_html(nodes[i as int], i, place) is Err,
    ensures
        children_html(nodes, n, place) == Err::<Seq<char>, CompileErrorView>(
            child_html(nodes[i as int], i, place)->Err_0,
        ),
    decreases n,
{
    if n > i + 1 {
        lemma_first_error(nodes, i, (n - 1) as nat, place);
    }
}

/// Where the children of a node stand, while they are rendered.
enum Context<'a> {
    Flow,
    Rows(&'a Vec<AlignKind>),
    Cells(bool, &'a Vec<AlignKind>),
}

impl<'a> Context<'a> {
    spec fn view(&self) -> Place {
        match self {
            Context::Flow => Place::Flow,
            Context::Rows(align) => Place::Rows(align@),
            Context::Cells(header, align) => Place::Cells(*header, align@),
        }
    }
}

/// Whether `found` is the table that holds `options`, or both are none.
pub open spec fn holds(found: Option<toml::Table>, options: Option<Map<Seq<char>, Seq<char>>>) -> bool {
    match found {
        Some(table) => options == Some(toml_entries(table)),
        None => options is None,
    }
}

/// The attribute that aligns a cell.
fn align_text(kind: AlignKind) -> (attr: &'static str)
    ensures
        attr@ == align_attr(kind),
{
    match kind {
        AlignKind::Left => "style=\"text-align:left\"",
        AlignKind::Right => "style=\"text-align:right\"",
        AlignKind::Center => "style=\"text-align:center\"",
        AlignKind::Unset => "",
    }
}

/// Renders the children of a node, which stand in `ctx`, one after the other.
fn children_to_html(children: &Vec<Node>, acc: &mut String, ctx: &Context) -> (r: Result<
    Option<toml::Table>,
    CompileError,
>)
    ensures
        match children_html(children@, children@.len(), ctx@) {
            Ok(html) => r matches Ok(found) && final(acc)@ == old(acc)@ + html && (ctx@ is Flow
                ==> holds(found, last_front_matter(children@, children@.len()))),
            Err(e) => r matches Err(err) && err@ == e,
        },
    decreases children, 0nat,
{
    let mut found: Option<toml::Table> = None;
    let mut i: usize = 0;
    assert(acc@ == old(acc)@ + Seq::<char>::empty());
    while i < children.len()
        invariant
            i <= children.len(),
            children_html(children@, i as nat, ctx@) matches Ok(html) && acc@ == old(acc)@ + html,
            ctx@ is Flow ==> holds(found, last_front_matter(children@, i as nat)),
        decreases children.len() - i,
    {
        let ghost before = acc@;
        let ghost html = children_html(children@, i as nat, ctx@)->Ok_0;
        let child = &children[i];
        let rendered = match ctx {
            Context::Flow => to_html(child, acc),
            Context::Rows(align) => match table_rows_to_html(child, acc, i == 0, align) {
                Ok(()) => Ok(None),
                Err(e) => Err(e),
            },
            Context::Cells(header, align) => if i < align.len() {
                match table_cells_to_html(child, acc, *header, align_text(align[i])) {
                    Ok(()) => Ok(None),
                    Err(e) => Err(e),
                }
            } else {
                Err(CompileError::Unaligned)
            },
        };
        match rendered {
            Ok(options) => {
                proof {
                    let more = child_html(children@[i as int], i as nat, ctx@)->Ok_0;
                    assert(acc@ == before + more);
                    assert(old(acc)@ + (html + more) == (old(acc)@ + html) + more);
                }
                match options {
                    Some(table) => {
                        found = Some(table);
                    },
                    None => {},
                }
                i += 1;
            },
            Err(e) => {
                proof {
                    lemma_first_error(children@, i as nat, children@.len(), ctx@);
                }
                return Err(e);
            },
        }
    }
    Ok(found)
}

/// Renders the children of a node between its opening and its closing tag.
fn parent_to_html(open: &str, children: &Vec<Node>, close: &str, acc: &mut String, ctx: &Context) -> (r:
    Result<(), CompileError>)
    ensures
        match wrapped(open@, children_html(children@, children@.len(), ctx@), close@) {
            Ok(html) => r is Ok && final(acc)@ == old(acc)@ + html,
            Err(e) => r matches Err(err) && err@ == e,
        },
    decreases children, 1nat,
{
    acc.push_str(open);
    match children_to_html(children, acc, ctx) {
        Ok(_) => {
            acc.push_str(close);
            proof {
                let inner = children_html(children@, children@.len(), ctx@)->Ok_0;
                assert(old(acc)@ + open@ + inner + close@ == old(acc)@ + (open@ + inner + close@));
            }
            Ok(())
        },
        Err(e) => Err(e),
    }
}

/// Renders a child of a table.
fn table_rows_to_html(ast: &Node, acc: &mut String, is_first_row: bool, alignment: &Vec<AlignKind>) -> (r:
    Result<(), CompileError>)
    ensures
        match row_html(*ast, is_first_row, alignment@) {
            Ok(html) => r is Ok && final(acc)@ == old(acc)@ + html,
            Err(e) => r matches Err(err) && err@ == e,
        },
    decreases ast, 1nat,
{
    match ast {
        Node::TableRow { children } => parent_to_html(
            "<tr>",
            children,
            "</tr>",
            acc,
            &Context::Cells(is_first_row, alignment),
        ),
        _ => match to_html(ast, acc) {
            Ok(_) => Ok(()),
            Err(e) => Err(e),
        },
    }
}

/// Renders a child of a row of a table.
fn table_cells_to_html(ast: &Node, acc: &mut String, is_first_row: bool, alignment: &str) -> (r: Result<
    (),
    CompileError,
>)
    ensures
        match cell_html(*ast, is_first_row, alignment@) {
            Ok(html) => r is Ok && final(acc)@ == old(acc)@ + html,
            Err(e) => r matches Err(err) && err@ == e,
        },
    decreases ast, 1nat,
{
    match ast {
        Node::TableCell { children } => {
            let mut open = String::new();
            if is_first_row {
                open.push_str("<th ");
            } else {
                open.push_str("<td ");
            }
            open.push_str(alignment);
            open.push_str(">");
            let close = if is_first_row {
                "</th>"
            } else {
                "</td>"
            };
            parent_to_html(open.as_str(), children, close, acc, &Context::Flow)
        },
        _ => match to_html(ast, acc) {
            Ok(_) => Ok(()),
            Err(e) => Err(e),
        },
    }
}

/// Writes `value`, encoded, between `open` and `close`.
fn value_to_html(open: &str, value: &str, close: &str, acc: &mut String)
    ensures
        final(acc)@ == old(acc)@ + (open@ + encoded(value@) + close@),
{
    acc.push_str(open);
    let text = encode_text(value);
    acc.push_str(text.as_str());
    acc.push_str(close);
    assert(acc@ == old(acc)@ + (open@ + encoded(value@) + close@));
}

/// Typesets mathematics onto the end of `acc`.
fn math_to_html(source: &String, display: bool, acc: &mut String) -> (r: Result<(), CompileError>)
    ensures
        match math_html(source@, display) {
            Ok(html) => r is Ok && final(acc)@ == old(acc)@ + html,
            Err(e) => r matches Err(err) && err@ == e,
        },
{
    match katex_render(source.as_str(), display) {
        Ok(markup) => {
            acc.push_str(markup.as_str());
            Ok(())
        },
        Err(e) => Err(CompileError::Math(source.clone(), katex_error_text(&e))),
    }
}

/// `Ok(None)` where `r` is `Ok`, and the error of `r` where it is not.
fn without_options(r: Result<(), CompileError>) -> (out: Result<Option<toml::Table>, CompileError>)
    ensures
        match r {
            Ok(_) => out matches Ok(None),
            Err(e) => out matches Err(err) && err == e,
        },
{
    match r {
        Ok(_) => Ok(None),
        Err(e) => Err(e),
    }
}

/// Renders a node of the syntax tree onto the end of `acc`, and gives the options that
/// the node holds: those of the last front matter of a document, and none for any other
/// node but front matter itself.
///
/// Where the node cannot be rendered, the error is that of the first node, in the order
/// of the document, that cannot be, and `acc` is left with a part of the page.
pub fn to_html(ast: &Node, acc: &mut String) -> (r: Result<Option<toml::Table>, CompileError>)
    ensures
        match node_html(*ast) {
            Ok(html) => r matches Ok(found) && final(acc)@ == old(acc)@ + html && holds(
                found,
                front_matter(*ast),
            ),
            Err(e) => r matches Err(err) && err@ == e,
        },
    decreases ast, 0nat,
{
    match ast {
        Node::Root { children } => children_to_html(children, acc, &Context::Flow),
        Node::Toml { value } => match parse_toml(value.as_str()) {
            Ok(table) => {
                assert(acc@ == old(acc)@ + Seq::<char>::empty());
                Ok(Some(table))
            },
            Err(e) => Err(CompileError::FrontMatter(toml_error_text(&e))),
        },
        Node::Blockquote { children } => without_options(
            parent_to_html("<blockquote>", children, "</blockquote>", acc, &Context::Flow),
        ),
        Node::List { children, ordered, start } => {
            if !*ordered {
                without_options(parent_to_html("<ul>", children, "</ul>", acc, &Context::Flow))
            } else {
                match start {
                    Some(first) => {
                        let mut open = String::new();
                        open.push_str("<ol start=\"");
                        push_decimal(&mut open, *first as usize);
                        open.push_str("\">");
                        without_options(
                            parent_to_html(open.as_str(), children, "</ol>", acc, &Context::Flow),
                        )
                    },
                    None => Err(CompileError::Unsupported),
                }
            }
        },
        Node::InlineCode { value } => {
            value_to_html("<code>", value.as_str(), "</code>", acc);
            Ok(None)
        },
        Node::InlineMath { value } => without_options(math_to_html(value, false, acc)),
        Node::Delete { children } => without_options(
            parent_to_html("<s>", children, "</s>", acc, &Context::Flow),
        ),
        Node::Emphasis { children } => without_options(
            parent_to_html("<i>", children, "</i>", acc, &Context::Flow),
        ),
        Node::Html { value } => {
            acc.push_str(value.as_str());
            Ok(None)
        },
        Node::Image { alt, url } => {
            let mut open = String::new();
            open.push_str("<img src=\"");
            open.push_str(url.as_str());
            open.push_str("\" alt=\"");
            value_to_html(open.as_str(), alt.as_str(), "\">", acc);
            Ok(None)
        },
        Node::Link { children, url } => {
            let mut open = String::new();
            open.push_str("<a href=\"");
            open.push_str(url.as_str());
            open.push_str("\">");
            without_options(parent_to_html(open.as_str(), children, "</a>", acc, &Context::Flow))
        },
        Node::Strong { children } => without_options(
            parent_to_html("<b>", children, "</b>", acc, &Context::Flow),
        ),
        Node::Text { value } => {
            let text = encode_text(expand_emoji(value.as_str()).as_str());
            acc.push_str(text.as_str());
            Ok(None)
        },
        Node::Code { value, lang } => {
            match lang {
                Some(name) => {
                    let mut open = String::new();
                    open.push_str("<pre><code class=\"language-");
                    open.push_str(name.as_str());
                    open.push_str("\">");
                    value_to_html(open.as_str(), value.as_str(), "</code></pre>", acc);
                },
                None => {
                    value_to_html("<pre><code>", value.as_str(), "</code></pre>", acc);
                },
            }
            Ok(None)
        },
        Node::Math { value } => without_options(math_to_html(value, true, acc)),
        Node::Heading { children, depth } => {
            let mut open = String::new();
            open.push_str("<h");
            push_decimal(&mut open, *depth as usize);
            open.push_str(">");
            let mut close = String::new();
            close.push_str("</h");
            push_decimal(&mut close, *depth as usize);
            close.push_str(">");
            without_options(
                parent_to_html(open.as_str(), children, close.as_str(), acc, &Context::Flow),
            )
        },
        Node::Table { children, align } => without_options(
            parent_to_html("<table>", children, "</table>", acc, &Context::Rows(align)),
        ),
        Node::ListItem { children, checked } => {
            let open = match checked {
                Some(true) => "<input type=\"checkbox\" checked disabled=\"disabled\"><li>",
                Some(false) => "<input type=\"checkbox\" disabled=\"disabled\"><li>",
                None => "<li>",
            };
            without_options(parent_to_html(open, children, "</li>", acc, &Context::Flow))
        },
        Node::Paragraph { children } => without_options(
            parent_to_html("<p>", children, "</p>", acc, &Context::Flow),
        ),
        Node::TableRow { .. } => Err(CompileError::Unsupported),
        Node::TableCell { .. } => Err(CompileError::Unsupported),
    }
}

/// Renders a document: its HTML, and the options of its front matter, if it has any.
pub fn compile(ast: &Node) -> (r: Result<(String, Option<toml::Table>), CompileError>)
    ensures
        match node_html(*ast) {
            Ok(html) => r matches Ok((text, found)) && text@ == html && holds(
                found,
                front_matter(*ast),
            ),
            Err(e) => r matches Err(err) && err@ == e,
        },
{
    let mut html = String::new();
    match to_html(ast, &mut html) {
        Ok(found) => {
            assert(html@ == Seq::<char>::empty() + node_html(*ast)->Ok_0);
            Ok((html, found))
        },
        Err(e) => Err(e),
    }
}

} // verus!
