use crate::bindings::{emoji_expanded, expand_emoji};
use crate::markdown::html::{push_sanitized, sanitized};
use crate::markdown::lexer::{views, Token, TokenView};
use crate::markdown::render::{
    after, close_lists, code_block_html, emoji_code, heading_close, heading_end, heading_open,
    html_of, image_html, initial_state, inline_code_html, item_end, item_ends, item_start,
    item_text, lists_after, with_item,
    lemma_markup_step, lemma_step_advances, line_break, line_broken, line_start, link_html,
    markup_step, piece_html, quote_turn, render, render_from, step, toggle_piece, toggle_step,
    token_markup, Inline, Level, Piece, RenderError, RenderState,
};
use crate::text::{chars_of, decimal, push_decimal, push_repeated, texts, trim_end_len};
use vstd::prelude::*;

verus! {

/// The renderer's state while it runs.
struct Renderer {
    bold: bool,
    italic: bool,
    strike: bool,
    heading: Option<usize>,
    lists: Vec<Level>,
    quote_open: bool,
    image_pending: bool,
    after_marker: bool,
    math_used: usize,
}

impl Renderer {
    spec fn view(&self) -> RenderState {
        RenderState {
            bold: self.bold,
            italic: self.italic,
            strike: self.strike,
            heading: match self.heading {
                Some(level) => Some(level as nat),
                None => None,
            },
            lists: self.lists@,
            quote_open: self.quote_open,
            image_pending: self.image_pending,
            after_marker: self.after_marker,
            math_used: self.math_used as nat,
        }
    }
}

/// A piece written after others adds its characters to theirs.
proof fn lemma_html_push(done: Seq<Piece>, piece: Piece)
    ensures
        html_of(done.push(piece)) == html_of(done) + piece_html(piece),
{
    reveal(html_of);
    assert(done.push(piece).drop_last() == done);
}

/// Writes `text` as the piece `piece`.
fn emit(out: &mut String, text: &str, Ghost(done): Ghost<Seq<Piece>>, Ghost(piece): Ghost<Piece>) -> (now:
    Ghost<Seq<Piece>>)
    requires
        old(out)@ == html_of(done),
        text@ == piece_html(piece),
    ensures
        final(out)@ == html_of(now@),
        now@ == done.push(piece),
{
    out.push_str(text);
    proof {
        lemma_html_push(done, piece);
    }
    Ghost(done.push(piece))
}

/// Closes the lists indented deeper than `indent`, or all of them.
fn close_open_lists(
    out: &mut String,
    lists: &mut Vec<Level>,
    indent: usize,
    all: bool,
    Ghost(done): Ghost<Seq<Piece>>,
) -> (now: Ghost<Seq<Piece>>)
    requires
        old(out)@ == html_of(done),
    ensures
        final(out)@ == html_of(now@),
        ({
            let closed = close_lists(
                old(lists)@,
                if all {
                    -1
                } else {
                    indent as int
                },
            );
            now@ == done + closed.0 && final(lists)@ == closed.1
        }),
        final(lists)@.len() <= old(lists)@.len(),
{
    reveal(close_lists);
    let ghost level = if all {
        -1
    } else {
        indent as int
    };
    let ghost goal = close_lists(lists@, level);
    let ghost mut pieces = done;
    let ghost mut written: Seq<Piece> = Seq::empty();
    assert(done + written == done);
    while lists.len() > 0 && (all || indent < lists[lists.len() - 1].indent)
        invariant
            level == (if all {
                -1
            } else {
                indent as int
            }),
            out@ == html_of(pieces),
            pieces == done + written,
            lists@.len() <= old(lists)@.len(),
            goal == (written + close_lists(lists@, level).0, close_lists(lists@, level).1),
        decreases lists.len(),
    {
        let ghost before = lists@;
        let ghost was = written;
        let open = lists[lists.len() - 1].item_open;
        if open {
            let Ghost(closed) = emit(out, "</li>", Ghost(pieces), Ghost(Piece::ItemClose));
            proof {
                pieces = closed;
                written = written.push(Piece::ItemClose);
            }
        }
        let Ghost(closed) = emit(out, "</ul>", Ghost(pieces), Ghost(Piece::ListClose));
        proof {
            pieces = closed;
            written = written.push(Piece::ListClose);
        }
        lists.pop();
        proof {
            reveal(close_lists);
            assert(before.drop_last() == lists@);
            let more = close_lists(lists@, level).0;
            if open {
                assert(was + (seq![Piece::ItemClose, Piece::ListClose] + more) == written + more);
            } else {
                assert(was + (seq![Piece::ListClose] + more) == written + more);
            }
            assert(pieces == done + written);
        }
    }
    proof {
        reveal(close_lists);
        assert(written + Seq::<Piece>::empty() == written);
    }
    Ghost(pieces)
}

/// Whether the token at `at` is a list marker.
fn is_dot_list(tokens: &Vec<Token>, at: usize) -> (b: bool)
    ensures
        b == (at < tokens.len() && views(tokens@)[at as int] is DotList),
{
    if at < tokens.len() {
        match &tokens[at] {
            Token::DotList => true,
            _ => false,
        }
    } else {
        false
    }
}

/// Whether the token at `at` is a quotation marker.
fn is_block_quote(tokens: &Vec<Token>, at: usize) -> (b: bool)
    ensures
        b == (at < tokens.len() && views(tokens@)[at as int] is BlockQuote),
{
    if at < tokens.len() {
        match &tokens[at] {
            Token::BlockQuote => true,
            _ => false,
        }
    } else {
        false
    }
}

/// Ends the heading that is open, if one is.
fn end_heading(heading: Option<usize>, out: &mut String, Ghost(done): Ghost<Seq<Piece>>) -> (now:
    Ghost<Seq<Piece>>)
    requires
        old(out)@ == html_of(done),
    ensures
        final(out)@ == html_of(now@),
        now@ == done + heading_end(
            match heading {
                Some(level) => Some(level as nat),
                None => None,
            },
        ),
{
    match heading {
        Some(level) => {
            let mut tag = String::new();
            tag.push_str("</h");
            push_decimal(&mut tag, level);
            tag.push_str(">");
            assert(tag@ == heading_close(level as nat));
            let Ghost(now) = emit(
                out,
                tag.as_str(),
                Ghost(done),
                Ghost(Piece::Markup(heading_close(level as nat))),
            );
            assert(now == done + seq![Piece::Markup(heading_close(level as nat))]);
            Ghost(now)
        },
        None => {
            assert(done == done + Seq::<Piece>::empty());
            Ghost(done)
        },
    }
}

/// Ends the item that is open, where it ends.
fn end_item(ends: bool, out: &mut String, Ghost(done): Ghost<Seq<Piece>>) -> (now: Ghost<Seq<Piece>>)
    requires
        old(out)@ == html_of(done),
    ensures
        final(out)@ == html_of(now@),
        now@ == done + item_end(ends),
{
    if ends {
        let Ghost(now) = emit(out, "</li>", Ghost(done), Ghost(Piece::ItemClose));
        assert(now == done + seq![Piece::ItemClose]);
        Ghost(now)
    } else {
        assert(done == done + Seq::<Piece>::empty());
        Ghost(done)
    }
}

/// Starts an item, in a new list where the line is indented deeper.
fn start_item(item: bool, deeper: bool, out: &mut String, Ghost(done): Ghost<Seq<Piece>>) -> (now:
    Ghost<Seq<Piece>>)
    requires
        old(out)@ == html_of(done),
    ensures
        final(out)@ == html_of(now@),
        now@ == done + item_start(item, deeper),
{
    if item && deeper {
        let Ghost(list) = emit(out, "<ul>", Ghost(done), Ghost(Piece::ListOpen));
        let Ghost(now) = emit(out, "<li>", Ghost(list), Ghost(Piece::ItemOpen));
        assert(now == done + seq![Piece::ListOpen, Piece::ItemOpen]);
        Ghost(now)
    } else if item {
        let Ghost(now) = emit(out, "<li>", Ghost(done), Ghost(Piece::ItemOpen));
        assert(now == done + seq![Piece::ItemOpen]);
        Ghost(now)
    } else {
        assert(done == done + Seq::<Piece>::empty());
        Ghost(done)
    }
}

/// Starts or ends a quotation.
fn turn_quote(open: bool, quoted: bool, out: &mut String, Ghost(done): Ghost<Seq<Piece>>) -> (now:
    Ghost<Seq<Piece>>)
    requires
        old(out)@ == html_of(done),
    ensures
        final(out)@ == html_of(now@),
        now@ == done + quote_turn(open, quoted),
{
    if open && !quoted {
        let Ghost(now) = emit(out, "</div>", Ghost(done), Ghost(Piece::Markup("</div>"@)));
        assert(now == done + seq![Piece::Markup("</div>"@)]);
        Ghost(now)
    } else if !open && quoted {
        let Ghost(now) = emit(
            out,
            "<div class=\"blockquote\">",
            Ghost(done),
            Ghost(Piece::Markup("<div class=\"blockquote\">"@)),
        );
        assert(now == done + seq![Piece::Markup("<div class=\"blockquote\">"@)]);
        Ghost(now)
    } else {
        assert(done == done + Seq::<Piece>::empty());
        Ghost(done)
    }
}

/// Breaks the line, unless it is quiet.
fn break_line(quiet: bool, indent: usize, out: &mut String, Ghost(done): Ghost<Seq<Piece>>) -> (now:
    Ghost<Seq<Piece>>)
    requires
        old(out)@ == html_of(done),
    ensures
        final(out)@ == html_of(now@),
        now@ == done + line_broken(quiet, indent as nat),
{
    if quiet {
        assert(done == done + Seq::<Piece>::empty());
        Ghost(done)
    } else {
        let mut text = String::new();
        text.push_str("<br>");
        push_repeated(&mut text, "&nbsp;", indent);
        assert(text@ == line_break(indent as nat));
        let Ghost(now) = emit(
            out,
            text.as_str(),
            Ghost(done),
            Ghost(Piece::Markup(line_break(indent as nat))),
        );
        assert(now == done + seq![Piece::Markup(line_break(indent as nat))]);
        Ghost(now)
    }
}

/// Pieces written one group after the other are the groups joined.
proof fn lemma_groups(
    done: Seq<Piece>,
    a: Seq<Piece>,
    b: Seq<Piece>,
    c: Seq<Piece>,
    d: Seq<Piece>,
    e: Seq<Piece>,
    f: Seq<Piece>,
)
    ensures
        done + a + b + c + d + e + f == done + (a + b + c + d + e + f),
{
    assert(done + a + b + c + d + e + f =~= done + (a + b + c + d + e + f));
}

/// Opens or ends the item of the innermost list, or opens a list, as a line start does.
fn update_lists(lists: &mut Vec<Level>, indent: usize, ends: bool, item: bool, deeper: bool)
    requires
        item && !deeper ==> old(lists)@.len() > 0,
        ends ==> old(lists)@.len() > 0,
    ensures
        final(lists)@ == lists_after(old(lists)@, indent as nat, ends, item, deeper),
{
    if item && deeper {
        lists.push(Level { indent, item_open: true });
    } else if item || ends {
        let last = lists.len() - 1;
        let level = Level { indent: lists[last].indent, item_open: item };
        lists.set(last, level);
    }
}

/// Starts a line whose first token is at `at`. Returns the index of the next token,
/// whether an item opened and whether the line is quoted.
fn start_line(
    tokens: &Vec<Token>,
    at: usize,
    heading: Option<usize>,
    lists: &mut Vec<Level>,
    was_quoted: bool,
    indent: usize,
    first: bool,
    out: &mut String,
    Ghost(st): Ghost<RenderState>,
    Ghost(done): Ghost<Seq<Piece>>,
) -> (r: (usize, bool, bool, Ghost<Seq<Piece>>))
    requires
        at <= tokens.len(),
        old(out)@ == html_of(done),
        st.lists == old(lists)@,
        st.quote_open == was_quoted,
        st.heading == (match heading {
            Some(level) => Some(level as nat),
            None => None,
        }),
    ensures
        r.0 == line_start(views(tokens@), at as int, st, indent as nat, first).next,
        line_start(views(tokens@), at as int, st, indent as nat, first).state == (RenderState {
            heading: None,
            lists: final(lists)@,
            quote_open: r.2,
            after_marker: r.1,
            ..st
        }),
        r.3@ == done + line_start(views(tokens@), at as int, st, indent as nat, first).pieces,
        final(out)@ == html_of(r.3@),
        at <= r.0 <= tokens.len(),
{
    reveal(line_start);
    let ghost line = line_start(views(tokens@), at as int, st, indent as nat, first);
    let ghost closed = close_lists(lists@, indent as int);
    let depth = lists.len();
    let Ghost(with_heading) = end_heading(heading, out, Ghost(done));
    let Ghost(with_closed) = close_open_lists(out, lists, indent, false, Ghost(with_heading));
    let popped = lists.len() < depth;
    let item = is_dot_list(tokens, at);
    let deeper = lists.len() == 0 || indent > lists[lists.len() - 1].indent;
    let open_now = lists.len() > 0 && lists[lists.len() - 1].item_open;
    let ends = open_now && (if item {
        !deeper
    } else {
        !popped
    });
    assert(ends == item_ends(lists@, popped, item, deeper));
    let Ghost(with_item_end) = end_item(ends, out, Ghost(with_closed));
    let Ghost(with_item) = start_item(item, deeper, out, Ghost(with_item_end));
    update_lists(lists, indent, ends, item, deeper);
    assert(lists@ == line.state.lists);
    let after_item = if item {
        at + 1
    } else {
        at
    };
    let quoted = is_block_quote(tokens, after_item);
    let Ghost(with_quote) = turn_quote(was_quoted, quoted, out, Ghost(with_item));
    let quiet = first || heading.is_some() || popped || ends || item || was_quoted != quoted;
    let Ghost(with_break) = break_line(quiet, indent, out, Ghost(with_quote));
    proof {
        lemma_groups(
            done,
            heading_end(st.heading),
            closed.0,
            item_end(ends),
            item_start(item, deeper),
            quote_turn(was_quoted, quoted),
            line_broken(quiet, indent as nat),
        );
        assert(with_break == done + line.pieces);
    }
    let next = if quoted {
        after_item + 1
    } else {
        after_item
    };
    (next, item, quoted, Ghost(with_break))
}

/// Writes `text` as markup and reads one token.
fn step_markup(text: &str, st: Renderer, i: usize, out: &mut String, Ghost(done): Ghost<Seq<Piece>>) -> (r:
    (usize, Renderer, Ghost<Seq<Piece>>))
    requires
        old(out)@ == html_of(done),
        i < usize::MAX,
    ensures
        r.0 == markup_step(text@, st@, i as int).next,
        r.1@ == markup_step(text@, st@, i as int).state,
        r.2@ == done + markup_step(text@, st@, i as int).pieces,
        final(out)@ == html_of(r.2@),
{
    let Ghost(now) = emit(out, text, Ghost(done), Ghost(Piece::Markup(text@)));
    assert(now == done + seq![Piece::Markup(text@)]);
    let mut st = st;
    st.after_marker = false;
    (i + 1, st, Ghost(now))
}

/// Switches the style `kind` and reads one token.
fn step_toggle(kind: Inline, st: Renderer, i: usize, out: &mut String, Ghost(done): Ghost<Seq<Piece>>) -> (r:
    (usize, Renderer, Ghost<Seq<Piece>>))
    requires
        old(out)@ == html_of(done),
        i < usize::MAX,
    ensures
        r.0 == toggle_step(kind, st@, i as int).next,
        r.1@ == toggle_step(kind, st@, i as int).state,
        r.2@ == done + toggle_step(kind, st@, i as int).pieces,
        final(out)@ == html_of(r.2@),
{
    let ghost piece = toggle_piece(st@, kind);
    let mut st = st;
    let Ghost(now) = match kind {
        Inline::Bold => {
            let open = st.bold;
            st.bold = !open;
            if open {
                emit(out, "</b>", Ghost(done), Ghost(piece))
            } else {
                emit(out, "<b>", Ghost(done), Ghost(piece))
            }
        },
        Inline::Italic => {
            let open = st.italic;
            st.italic = !open;
            if open {
                emit(out, "</i>", Ghost(done), Ghost(piece))
            } else {
                emit(out, "<i>", Ghost(done), Ghost(piece))
            }
        },
        Inline::Strike => {
            let open = st.strike;
            st.strike = !open;
            if open {
                emit(out, "</del>", Ghost(done), Ghost(piece))
            } else {
                emit(out, "<del>", Ghost(done), Ghost(piece))
            }
        },
    };
    assert(now == done + seq![piece]);
    st.after_marker = false;
    (i + 1, st, Ghost(now))
}

/// The text of a token of plain text, escaped.
fn text_markup(text: &str, after_marker: bool) -> (out: String)
    ensures
        out@ == sanitized(item_text(text@, after_marker)),
{
    let chars = chars_of(text);
    let mut out = String::new();
    let from: usize = if after_marker && chars.len() > 0 && chars[0] == ' ' {
        1
    } else {
        0
    };
    assert(chars@.subrange(0, chars@.len() as int) == chars@);
    push_sanitized(&mut out, &chars, from, chars.len());
    out
}

/// The markup of a fenced code block.
fn code_block_markup(lang: &str, body: &str) -> (out: String)
    ensures
        out@ == code_block_html(lang@, body@),
{
    let chars = chars_of(body);
    let kept = trim_end_len(&chars);
    let mut out = String::new();
    out.push_str("<pre><code class=\"language-");
    out.push_str(lang);
    out.push_str("\">");
    assert(chars@.subrange(0, kept as int) == chars@.take(kept as int));
    push_sanitized(&mut out, &chars, 0, kept);
    out.push_str("</code></pre>");
    out
}

/// The markup of a link, or of an image where `image` is set.
fn link_markup(name: &str, url: &str, image: bool) -> (out: String)
    ensures
        out@ == (if image {
            image_html(name@, url@)
        } else {
            link_html(name@, url@)
        }),
{
    let mut out = String::new();
    if image {
        out.push_str("<img src=\"");
        out.push_str(url);
        out.push_str("\" alt=\"");
        out.push_str(name);
        out.push_str("\">");
    } else {
        out.push_str("<a href=\"");
        out.push_str(url);
        out.push_str("\">");
        out.push_str(name);
        out.push_str("</a>");
    }
    out
}

/// The address that follows the link name at `i`, if one does.
fn url_after(tokens: &Vec<Token>, i: usize) -> (r: Option<&String>)
    requires
        i < tokens.len(),
    ensures
        match r {
            Some(url) => i + 1 < tokens.len() && views(tokens@)[i + 1] == TokenView::LinkURL(url@),
            None => !(i + 1 < tokens.len() && views(tokens@)[i + 1] is LinkURL),
        },
{
    if tokens.len() - i > 1 {
        match &tokens[i + 1] {
            Token::LinkURL(url) => Some(url),
            _ => None,
        }
    } else {
        None
    }
}

/// Starts the line after the line feed at `i`.
fn step_line(
    tokens: &Vec<Token>,
    i: usize,
    indent: usize,
    st: Renderer,
    out: &mut String,
    Ghost(done): Ghost<Seq<Piece>>,
) -> (r: (usize, Renderer, Ghost<Seq<Piece>>))
    requires
        i < tokens.len(),
        old(out)@ == html_of(done),
    ensures
        r.0 == line_start(views(tokens@), i + 1, st@, indent as nat, false).next,
        r.1@ == line_start(views(tokens@), i + 1, st@, indent as nat, false).state,
        r.2@ == done + line_start(views(tokens@), i + 1, st@, indent as nat, false).pieces,
        final(out)@ == html_of(r.2@),
{
    let ghost before = st@;
    let Renderer {
        bold,
        italic,
        strike,
        heading,
        lists,
        quote_open,
        image_pending,
        after_marker,
        math_used,
    } = st;
    let mut lists = lists;
    let (next, item, quoted, pieces) = start_line(
        tokens,
        i + 1,
        heading,
        &mut lists,
        quote_open,
        indent,
        false,
        out,
        Ghost(before),
        Ghost(done),
    );
    let st = Renderer {
        bold,
        italic,
        strike,
        heading: None,
        lists,
        quote_open: quoted,
        image_pending,
        after_marker: item,
        math_used,
    };
    (next, st, pieces)
}

/// The markup of a span of inline code.
fn inline_code_markup(body: &str) -> (out: String)
    ensures
        out@ == inline_code_html(body@),
{
    let mut out = String::new();
    out.push_str("<code>");
    out.push_str(body);
    out.push_str("</code>");
    assert(out@ == "<code>"@ + body@ + "</code>"@);
    out
}

/// The glyph of an emoji, or its code where the table does not know it.
fn emoji_markup(name: &str) -> (out: String)
    ensures
        out@ == emoji_expanded(emoji_code(name@)),
{
    let mut code = String::new();
    code.push_str(":");
    code.push_str(name);
    code.push_str(":");
    assert(code@ == ":"@ + name@ + ":"@);
    expand_emoji(code.as_str())
}

/// A character as markup.
fn char_markup(c: char) -> (out: String)
    ensures
        out@ == seq![c],
{
    let mut out = String::new();
    out.push(c);
    assert(out@ == seq![c]);
    out
}

/// The opening tag of a heading.
fn heading_open_tag(level: usize) -> (out: String)
    ensures
        out@ == heading_open(level as nat),
{
    let mut out = String::new();
    out.push_str("<h");
    push_decimal(&mut out, level);
    out.push_str(">");
    assert(out@ == "<h"@ + decimal(level as nat) + ">"@);
    out
}

/// What a token that only writes writes.
fn markup_of(token: &Token, after_marker: bool) -> (r: Option<String>)
    ensures
        match r {
            Some(markup) => token_markup(token@, after_marker) == Some(markup@),
            None => token_markup(token@, after_marker) is None,
        },
{
    match token {
        Token::Text(text) => Some(text_markup(text.as_str(), after_marker)),
        Token::TextBlock(text) => Some(text.clone()),
        Token::Escape(c) => Some(char_markup(*c)),
        Token::CodeBlock(block) => Some(code_block_markup(block.0.as_str(), block.1.as_str())),
        Token::InlineCode(body) => Some(inline_code_markup(body.as_str())),
        Token::DotList => Some("-".to_owned()),
        Token::BlockQuote => Some("&gt;".to_owned()),
        Token::Emoji(name) => Some(emoji_markup(name.as_str())),
        _ => None,
    }
}

/// Renders the link whose name is the token at `i`.
fn step_link(
    tokens: &Vec<Token>,
    i: usize,
    name: &String,
    st: Renderer,
    out: &mut String,
    Ghost(done): Ghost<Seq<Piece>>,
) -> (r: Result<(usize, Renderer, Ghost<Seq<Piece>>), RenderError>)
    requires
        i < tokens.len(),
        views(tokens@)[i as int] == TokenView::LinkName(name@),
        old(out)@ == html_of(done),
    ensures
        forall|math: Seq<Seq<char>>|
            match #[trigger] step(views(tokens@), i as int, st@, math) {
                Ok(s) => r matches Ok((next, now, pieces)) && next == s.next && now@ == s.state
                    && pieces@ == done + s.pieces && final(out)@ == html_of(pieces@),
                Err(e) => r matches Err(err) && err == e,
            },
{
    match url_after(tokens, i) {
        Some(url) => {
            let markup = link_markup(name.as_str(), url.as_str(), st.image_pending);
            let Ghost(now) = emit(out, markup.as_str(), Ghost(done), Ghost(Piece::Markup(markup@)));
            assert(now == done + seq![Piece::Markup(markup@)]);
            let mut st = st;
            st.image_pending = false;
            st.after_marker = false;
            Ok((i + 2, st, Ghost(now)))
        },
        None => Err(RenderError::MissingUrl(i)),
    }
}

/// Writes the markup of the mathematical expression at `i`.
fn step_math(
    tokens: &Vec<Token>,
    i: usize,
    st: Renderer,
    math: &Vec<String>,
    out: &mut String,
    Ghost(done): Ghost<Seq<Piece>>,
) -> (r: Result<(usize, Renderer, Ghost<Seq<Piece>>), RenderError>)
    requires
        i < tokens.len(),
        views(tokens@)[i as int] is MathExpr,
        old(out)@ == html_of(done),
    ensures
        match step(views(tokens@), i as int, st@, texts(math@)) {
            Ok(s) => r matches Ok((next, now, pieces)) && next == s.next && now@ == s.state
                && pieces@ == done + s.pieces && final(out)@ == html_of(pieces@),
            Err(e) => r matches Err(err) && err == e,
        },
{
    if st.math_used < math.len() {
        let markup = &math[st.math_used];
        let Ghost(now) = emit(out, markup.as_str(), Ghost(done), Ghost(Piece::Markup(markup@)));
        assert(now == done + seq![Piece::Markup(markup@)]);
        let mut st = st;
        st.math_used = st.math_used + 1;
        st.after_marker = false;
        Ok((i + 1, st, Ghost(now)))
    } else {
        Err(RenderError::MissingMath(i))
    }
}

/// Opens the heading whose marker is the token at `i`.
fn step_heading(
    tokens: &Vec<Token>,
    i: usize,
    level: usize,
    st: Renderer,
    out: &mut String,
    Ghost(done): Ghost<Seq<Piece>>,
) -> (r: (usize, Renderer, Ghost<Seq<Piece>>))
    requires
        i < tokens.len(),
        views(tokens@)[i as int] == TokenView::Heading(level as nat),
        old(out)@ == html_of(done),
    ensures
        forall|math: Seq<Seq<char>>|
            #[trigger] step(views(tokens@), i as int, st@, math) matches Ok(s) && r.0 == s.next
                && r.1@ == s.state && r.2@ == done + s.pieces,
        final(out)@ == html_of(r.2@),
{
    let tag = heading_open_tag(level);
    let Ghost(now) = emit(
        out,
        tag.as_str(),
        Ghost(done),
        Ghost(Piece::Markup(heading_open(level as nat))),
    );
    assert(now == done + seq![Piece::Markup(heading_open(level as nat))]);
    let mut st = st;
    st.heading = Some(level);
    st.after_marker = false;
    (i + 1, st, Ghost(now))
}

/// Renders the token at `i`.
fn render_step(
    tokens: &Vec<Token>,
    i: usize,
    st: Renderer,
    math: &Vec<String>,
    out: &mut String,
    Ghost(done): Ghost<Seq<Piece>>,
) -> (r: Result<(usize, Renderer, Ghost<Seq<Piece>>), RenderError>)
    requires
        i < tokens.len(),
        old(out)@ == html_of(done),
    ensures
        match step(views(tokens@), i as int, st@, texts(math@)) {
            Ok(s) => r matches Ok((next, now, pieces)) && next == s.next && now@ == s.state
                && pieces@ == done + s.pieces && final(out)@ == html_of(pieces@),
            Err(e) => r matches Err(err) && err == e,
        },
{
    let token = &tokens[i];
    assert(views(tokens@)[i as int] == token@);
    match markup_of(token, st.after_marker) {
        Some(markup) => {
            proof {
                lemma_markup_step(views(tokens@), i as int, st@, texts(math@));
            }
            return Ok(step_markup(markup.as_str(), st, i, out, Ghost(done)));
        },
        None => {},
    }
    match token {
        Token::Bold => Ok(step_toggle(Inline::Bold, st, i, out, Ghost(done))),
        Token::Italic => Ok(step_toggle(Inline::Italic, st, i, out, Ghost(done))),
        Token::Strike => Ok(step_toggle(Inline::Strike, st, i, out, Ghost(done))),
        Token::Bang => {
            let mut st = st;
            st.image_pending = true;
            st.after_marker = false;
            assert(done == done + Seq::<Piece>::empty());
            Ok((i + 1, st, Ghost(done)))
        },
        Token::Heading(level) => Ok(step_heading(tokens, i, *level, st, out, Ghost(done))),
        Token::LinkName(name) => step_link(tokens, i, name, st, out, Ghost(done)),
        Token::LinkURL(_) => Err(RenderError::UnexpectedUrl(i)),
        Token::MathExpr(_) => step_math(tokens, i, st, math, out, Ghost(done)),
        Token::NewLine(indent) => Ok(step_line(tokens, i, *indent, st, out, Ghost(done))),
        _ => {
            proof {
                assert(false);
            }
            Err(RenderError::UnexpectedUrl(i))
        },
    }
}

/// Pieces before pieces before a rest are all of them before the rest.
proof fn lemma_after_after(done: Seq<Piece>, pieces: Seq<Piece>, rest: Result<Seq<Piece>, RenderError>)
    ensures
        after(done, after(pieces, rest)) == after(done + pieces, rest),
{
    match rest {
        Ok(more) => {
            assert(done + (pieces + more) == (done + pieces) + more);
        },
        Err(_) => {},
    }
}

/// Renders `tokens[start..]` to HTML.
pub(crate) fn render_tokens(tokens: &Vec<Token>, start: usize, math: &Vec<String>) -> (r: Result<String, RenderError>)
    requires
        start <= tokens.len(),
    ensures
        match render(views(tokens@), start as int, texts(math@)) {
            Ok(pieces) => r matches Ok(html) && html@ == html_of(pieces),
            Err(e) => r matches Err(err) && err == e,
        },
{
    let ghost tv = views(tokens@);
    let ghost m = texts(math@);
    let mut out = String::new();
    let mut lists: Vec<Level> = Vec::new();
    assert(html_of(Seq::empty()) == Seq::<char>::empty()) by {
        reveal(html_of);
    }
    let (next, item, quoted, Ghost(first)) = start_line(
        tokens,
        start,
        None,
        &mut lists,
        false,
        0,
        true,
        &mut out,
        Ghost(initial_state()),
        Ghost(Seq::empty()),
    );
    let mut st = Renderer {
        bold: false,
        italic: false,
        strike: false,
        heading: None,
        lists,
        quote_open: quoted,
        image_pending: false,
        after_marker: item,
        math_used: 0,
    };
    let mut i = next;
    let ghost mut done = first;
    assert(done == line_start(tv, start as int, initial_state(), 0, true).pieces);
    while i < tokens.len()
        invariant
            i <= tokens.len(),
            tv == views(tokens@),
            m == texts(math@),
            out@ == html_of(done),
            render(tv, start as int, m) == after(done, render_from(tv, i as int, st@, m)),
        decreases tokens.len() - i,
    {
        proof {
            lemma_step_advances(tv, i as int, st@, m);
        }
        let ghost before = st@;
        match render_step(tokens, i, st, math, &mut out, Ghost(done)) {
            Ok((next, now, pieces)) => {
                proof {
                    let s = step(tv, i as int, before, m)->Ok_0;
                    lemma_after_after(done, s.pieces, render_from(tv, s.next, s.state, m));
                    done = pieces@;
                }
                i = next;
                st = now;
            },
            Err(e) => {
                return Err(e);
            },
        }
    }
    let Renderer { lists, .. } = st;
    let mut lists = lists;
    let Ghost(all) = close_open_lists(&mut out, &mut lists, 0, true, Ghost(done));
    Ok(out)
}

} // verus!
