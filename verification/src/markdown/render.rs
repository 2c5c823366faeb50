use crate::bindings::emoji_expanded;
use crate::markdown::html::sanitized;
use crate::markdown::lexer::TokenView;
use crate::text::{decimal, repeated, trimmed_end};
use vstd::prelude::*;

verus! {

/// The inline styles that a marker switches on and off.
#[derive(Clone, Copy, Debug, PartialEq, Eq, Structural)]
pub enum Inline {
    Bold,
    Italic,
    Strike,
}

/// Why a sequence of tokens cannot be rendered.
#[derive(Clone, Copy, Debug, PartialEq, Eq, Structural)]
pub enum RenderError {
    /// The token at this index is the address of a link, and no link name stands before it.
    UnexpectedUrl(usize),
    /// The token at this index is a link name, and no address follows it.
    MissingUrl(usize),
    /// The token at this index is a mathematical expression, and no markup was given for it.
    MissingMath(usize),
}

/// What the renderer writes, piece by piece.
pub enum Piece {
    /// Characters of the page.
    Markup(Seq<char>),
    /// The tag that opens an inline style.
    Open(Inline),
    /// The tag that closes an inline style.
    Close(Inline),
    /// `<ul>`: a level of list opens.
    ListOpen,
    /// `<li>`
    ItemOpen,
    /// `</li>`
    ItemClose,
    /// `</ul>`: a level of list closes.
    ListClose,
}

/// A list that is open.
#[derive(Clone, Copy, Debug, PartialEq, Eq, Structural)]
pub struct Level {
    /// The indentation of the items of the list.
    pub indent: usize,
    /// Whether the item of the list that was opened last is still open.
    pub item_open: bool,
}

/// What the renderer knows of the text it has read.
pub struct RenderState {
    /// Whether bold text is open.
    pub bold: bool,
    /// Whether italic text is open.
    pub italic: bool,
    /// Whether struck text is open.
    pub strike: bool,
    /// The level of the heading that is open on this line.
    pub heading: Option<nat>,
    /// The lists that are open, the innermost last.
    pub lists: Seq<Level>,
    /// Whether a quotation is open.
    pub quote_open: bool,
    /// Whether a `!` was read that turns the next link into an image.
    pub image_pending: bool,
    /// Whether the last thing read was the marker of a list item.
    pub after_marker: bool,
    /// The number of mathematical expressions rendered.
    pub math_used: nat,
}

/// The pieces written for some tokens, the state after them, and the index of the next token.
pub struct Step {
    pub pieces: Seq<Piece>,
    pub state: RenderState,
    pub next: int,
}

/// The state in which a document starts.
pub open spec fn initial_state() -> RenderState {
    RenderState {
        bold: false,
        italic: false,
        strike: false,
        heading: None,
        lists: Seq::empty(),
        quote_open: false,
        image_pending: false,
        after_marker: false,
        math_used: 0,
    }
}

/// The tag that opens or closes an inline style.
pub open spec fn inline_tag(kind: Inline, open: bool) -> Seq<char> {
    match kind {
        Inline::Bold => if open {
            "<b>"@
        } else {
            "</b>"@
        },
        Inline::Italic => if open {
            "<i>"@
        } else {
            "</i>"@
        },
        Inline::Strike => if open {
            "<del>"@
        } else {
            "</del>"@
        },
    }
}

/// The characters of a piece.
pub open spec fn piece_html(piece: Piece) -> Seq<char> {
    match piece {
        Piece::Markup(text) => text,
        Piece::Open(kind) => inline_tag(kind, true),
        Piece::Close(kind) => inline_tag(kind, false),
        Piece::ListOpen => "<ul>"@,
        Piece::ItemOpen => "<li>"@,
        Piece::ItemClose => "</li>"@,
        Piece::ListClose => "</ul>"@,
    }
}

/// The characters of a sequence of pieces, one after the other.
#[verifier::opaque]
pub open spec fn html_of(pieces: Seq<Piece>) -> Seq<char>
    decreases pieces.len(),
{
    if pieces.len() == 0 {
        Seq::empty()
    } else {
        html_of(pieces.drop_last()) + piece_html(pieces.last())
    }
}

/// Whether the style `kind` is open in `st`.
pub open spec fn is_open(st: RenderState, kind: Inline) -> bool {
    match kind {
        Inline::Bold => st.bold,
        Inline::Italic => st.italic,
        Inline::Strike => st.strike,
    }
}

/// `st` with the style `kind` switched.
pub open spec fn switched(st: RenderState, kind: Inline) -> RenderState {
    match kind {
        Inline::Bold => RenderState { bold: !st.bold, ..st },
        Inline::Italic => RenderState { italic: !st.italic, ..st },
        Inline::Strike => RenderState { strike: !st.strike, ..st },
    }
}

/// The piece that a marker of `kind` writes in `st`: the opening tag where the style is
/// closed, the closing tag where it is open.
pub open spec fn toggle_piece(st: RenderState, kind: Inline) -> Piece {
    if is_open(st, kind) {
        Piece::Close(kind)
    } else {
        Piece::Open(kind)
    }
}

/// The opening tag of a heading.
pub open spec fn heading_open(level: nat) -> Seq<char> {
    "<h"@ + decimal(level) + ">"@
}

/// The closing tag of a heading.
pub open spec fn heading_close(level: nat) -> Seq<char> {
    "</h"@ + decimal(level) + ">"@
}

/// A line break, and the indentation of the new line as non-breaking spaces.
pub open spec fn line_break(indent: nat) -> Seq<char> {
    "<br>"@ + repeated("&nbsp;"@, indent)
}

/// A fenced code block: the language as a class, and the body escaped, without the white
/// space at its end.
pub open spec fn code_block_html(lang: Seq<char>, body: Seq<char>) -> Seq<char> {
    "<pre><code class=\"language-"@ + lang + "\">"@ + sanitized(trimmed_end(body))
        + "</code></pre>"@
}

/// A span of inline code: the body as written.
pub open spec fn inline_code_html(body: Seq<char>) -> Seq<char> {
    "<code>"@ + body + "</code>"@
}

/// A link: the name as its text, the address as its target.
pub open spec fn link_html(name: Seq<char>, url: Seq<char>) -> Seq<char> {
    "<a href=\""@ + url + "\">"@ + name + "</a>"@
}

/// An image: the address as its source, the name as its alternative text.
pub open spec fn image_html(name: Seq<char>, url: Seq<char>) -> Seq<char> {
    "<img src=\""@ + url + "\" alt=\""@ + name + "\">"@
}

/// The short code of an emoji as the author wrote it, between colons.
pub open spec fn emoji_code(name: Seq<char>) -> Seq<char> {
    ":"@ + name + ":"@
}

/// The text of a list item: the space that parts it from the marker is not part of it.
pub open spec fn item_text(text: Seq<char>, after_marker: bool) -> Seq<char> {
    if after_marker && text.len() > 0 && text[0] == ' ' {
        text.subrange(1, text.len() as int)
    } else {
        text
    }
}

/// The pieces that close the lists indented deeper than `indent`, innermost first, and the
/// lists that stay open. A list closes with `</li></ul>`: its item ends, and the list. Only
/// where its item has ended already does it close with `</ul>` alone.
#[verifier::opaque]
pub open spec fn close_lists(lists: Seq<Level>, indent: int) -> (Seq<Piece>, Seq<Level>)
    decreases lists.len(),
{
    if lists.len() > 0 && indent < lists.last().indent {
        let (more, left) = close_lists(lists.drop_last(), indent);
        (
            (if lists.last().item_open {
                seq![Piece::ItemClose, Piece::ListClose]
            } else {
                seq![Piece::ListClose]
            }) + more,
            left,
        )
    } else {
        (Seq::empty(), lists)
    }
}

/// `lists` with the item of the innermost list open or not.
pub open spec fn with_item(lists: Seq<Level>, open: bool) -> Seq<Level> {
    if lists.len() > 0 {
        lists.update(lists.len() - 1, Level { indent: lists.last().indent, item_open: open })
    } else {
        lists
    }
}

/// What the start of a line does. `at` is the index of the first token of the line, `indent`
/// the width of the blanks before it, and `first` says that the line is the first of the
/// document, before which there is no line to end.
///
/// A heading that is open ends. The lists indented deeper than the line close. A list
/// marker at the start of the line opens an item: in a new list, inside the item that is
/// open, if the line is indented deeper than the innermost list or no list is open; else
/// in the innermost list, whose open item ends first. On a line without a marker the item
/// that is open ends, unless a list closed. A quotation opens where the line starts with a
/// quotation marker and none is open, goes on where one is open, and ends where the line
/// has no marker. The markers are read. A line that does none of this, but for going on
/// with a quotation, starts with a line break.
#[verifier::opaque]
pub open spec fn line_start(tokens: Seq<TokenView>, at: int, st: RenderState, indent: nat, first: bool) -> Step {
    let (closed, left) = close_lists(st.lists, indent as int);
    let popped = left.len() < st.lists.len();
    let item = 0 <= at < tokens.len() && tokens[at] is DotList;
    let deeper = left.len() == 0 || indent > left.last().indent;
    let ends = item_ends(left, popped, item, deeper);
    let after_item = if item {
        at + 1
    } else {
        at
    };
    let quoted = 0 <= after_item < tokens.len() && tokens[after_item] is BlockQuote;
    let quiet = first || st.heading is Some || popped || ends || item || st.quote_open != quoted;
    Step {
        pieces: heading_end(st.heading) + closed + item_end(ends) + item_start(item, deeper)
            + quote_turn(st.quote_open, quoted) + line_broken(quiet, indent),
        state: RenderState {
            heading: None,
            lists: lists_after(left, indent, ends, item, deeper),
            quote_open: quoted,
            after_marker: item,
            ..st
        },
        next: if quoted {
            after_item + 1
        } else {
            after_item
        },
    }
}

/// Whether the item that is open in the innermost of the lists `left` ends at the start
/// of a line: it does where the line opens the next item of the list, and on a line
/// without a marker unless a list closed.
pub open spec fn item_ends(left: Seq<Level>, popped: bool, item: bool, deeper: bool) -> bool {
    left.len() > 0 && left.last().item_open && (if item {
        !deeper
    } else {
        !popped
    })
}

/// The lists that are open after the start of a line.
pub open spec fn lists_after(left: Seq<Level>, indent: nat, ends: bool, item: bool, deeper: bool) -> Seq<
    Level,
> {
    if item && deeper {
        left.push(Level { indent: indent as usize, item_open: true })
    } else if item {
        with_item(left, true)
    } else if ends {
        with_item(left, false)
    } else {
        left
    }
}

/// The end of the heading that is open, if one is.
pub open spec fn heading_end(heading: Option<nat>) -> Seq<Piece> {
    match heading {
        Some(level) => seq![Piece::Markup(heading_close(level))],
        None => Seq::empty(),
    }
}

/// The end of the item that is open, where it ends.
pub open spec fn item_end(ends: bool) -> Seq<Piece> {
    if ends {
        seq![Piece::ItemClose]
    } else {
        Seq::empty()
    }
}

/// The start of an item, in a new list where the line is indented deeper.
pub open spec fn item_start(item: bool, deeper: bool) -> Seq<Piece> {
    if item && deeper {
        seq![Piece::ListOpen, Piece::ItemOpen]
    } else if item {
        seq![Piece::ItemOpen]
    } else {
        Seq::empty()
    }
}

/// The start or the end of a quotation.
pub open spec fn quote_turn(open: bool, quoted: bool) -> Seq<Piece> {
    if open && !quoted {
        seq![Piece::Markup("</div>"@)]
    } else if !open && quoted {
        seq![Piece::Markup("<div class=\"blockquote\">"@)]
    } else {
        Seq::empty()
    }
}

/// The line break of a line that did nothing else.
pub open spec fn line_broken(quiet: bool, indent: nat) -> Seq<Piece> {
    if quiet {
        Seq::empty()
    } else {
        seq![Piece::Markup(line_break(indent))]
    }
}

/// One step that writes `text` and reads one token.
pub open spec fn markup_step(text: Seq<char>, st: RenderState, i: int) -> Step {
    Step {
        pieces: seq![Piece::Markup(text)],
        state: RenderState { after_marker: false, ..st },
        next: i + 1,
    }
}

/// What the token at `i` does in the state `st`: the pieces it writes, the state it
/// leaves, and the index of the token to read next; or why the tokens cannot be rendered.
/// `math` holds the markup of the mathematical expressions of the document, in their
/// order.
pub open spec fn step(tokens: Seq<TokenView>, i: int, st: RenderState, math: Seq<Seq<char>>) -> Result<
    Step,
    RenderError,
> {
    match tokens[i] {
        TokenView::Text(text) => Ok(markup_step(sanitized(item_text(text, st.after_marker)), st, i)),
        TokenView::TextBlock(text) => Ok(markup_step(text, st, i)),
        TokenView::Escape(c) => Ok(markup_step(seq![c], st, i)),
        TokenView::Bold => Ok(toggle_step(Inline::Bold, st, i)),
        TokenView::Italic => Ok(toggle_step(Inline::Italic, st, i)),
        TokenView::Strike => Ok(toggle_step(Inline::Strike, st, i)),
        TokenView::CodeBlock(lang, body) => Ok(markup_step(code_block_html(lang, body), st, i)),
        TokenView::InlineCode(body) => Ok(markup_step(inline_code_html(body), st, i)),
        TokenView::DotList => Ok(markup_step("-"@, st, i)),
        TokenView::BlockQuote => Ok(markup_step("&gt;"@, st, i)),
        TokenView::Emoji(name) => Ok(markup_step(emoji_expanded(emoji_code(name)), st, i)),
        TokenView::Bang => Ok(
            Step {
                pieces: Seq::empty(),
                state: RenderState { image_pending: true, after_marker: false, ..st },
                next: i + 1,
            },
        ),
        TokenView::Heading(level) => Ok(
            Step {
                pieces: seq![Piece::Markup(heading_open(level))],
                state: RenderState { heading: Some(level), after_marker: false, ..st },
                next: i + 1,
            },
        ),
        TokenView::LinkName(name) => if i + 1 < tokens.len() && tokens[i + 1] is LinkURL {
            let url = tokens[i + 1]->LinkURL_0;
            Ok(
                Step {
                    pieces: seq![
                        Piece::Markup(
                            if st.image_pending {
                                image_html(name, url)
                            } else {
                                link_html(name, url)
                            },
                        ),
                    ],
                    state: RenderState { image_pending: false, after_marker: false, ..st },
                    next: i + 2,
                },
            )
        } else {
            Err(RenderError::MissingUrl(i as usize))
        },
        TokenView::LinkURL(_) => Err(RenderError::UnexpectedUrl(i as usize)),
        TokenView::MathExpr(_) => if st.math_used < math.len() {
            Ok(
                Step {
                    pieces: seq![Piece::Markup(math[st.math_used as int])],
                    state: RenderState {
                        math_used: st.math_used + 1,
                        after_marker: false,
                        ..st
                    },
                    next: i + 1,
                },
            )
        } else {
            Err(RenderError::MissingMath(i as usize))
        },
        TokenView::NewLine(indent) => Ok(line_start(tokens, i + 1, st, indent, false)),
    }
}

/// One step that switches the style `kind` and reads one token.
pub open spec fn toggle_step(kind: Inline, st: RenderState, i: int) -> Step {
    Step {
        pieces: seq![toggle_piece(st, kind)],
        state: RenderState { after_marker: false, ..switched(st, kind) },
        next: i + 1,
    }
}

/// The characters that a token writes whatever the document holds around it, but for the
/// marker of a list item before it; `None` for a token that does more than write.
pub open spec fn token_markup(token: TokenView, after_marker: bool) -> Option<Seq<char>> {
    match token {
        TokenView::Text(text) => Some(sanitized(item_text(text, after_marker))),
        TokenView::TextBlock(text) => Some(text),
        TokenView::Escape(c) => Some(seq![c]),
        TokenView::CodeBlock(lang, body) => Some(code_block_html(lang, body)),
        TokenView::InlineCode(body) => Some(inline_code_html(body)),
        TokenView::DotList => Some("-"@),
        TokenView::BlockQuote => Some("&gt;"@),
        TokenView::Emoji(name) => Some(emoji_expanded(emoji_code(name))),
        _ => None,
    }
}

/// A token that only writes does so in one step.
pub proof fn lemma_markup_step(tokens: Seq<TokenView>, i: int, st: RenderState, math: Seq<Seq<char>>)
    requires
        0 <= i < tokens.len(),
        token_markup(tokens[i], st.after_marker) is Some,
    ensures
        step(tokens, i, st, math) == Ok::<Step, RenderError>(
            markup_step(token_markup(tokens[i], st.after_marker)->Some_0, st, i),
        ),
{
}

/// `pieces` before what `rest` holds, or the error that `rest` is.
pub open spec fn after(pieces: Seq<Piece>, rest: Result<Seq<Piece>, RenderError>) -> Result<
    Seq<Piece>,
    RenderError,
> {
    match rest {
        Ok(more) => Ok(pieces + more),
        Err(e) => Err(e),
    }
}

/// Every step reads at least one token, and none beyond the last.
pub proof fn lemma_step_advances(tokens: Seq<TokenView>, i: int, st: RenderState, math: Seq<Seq<char>>)
    requires
        0 <= i < tokens.len(),
    ensures
        step(tokens, i, st, math) matches Ok(done) ==> i < done.next <= tokens.len(),
{
    reveal(line_start);
}

/// The pieces written for the tokens from `i` on, starting in the state `st`. At the end of
/// the document the lists that are still open close.
pub open spec fn render_from(tokens: Seq<TokenView>, i: int, st: RenderState, math: Seq<Seq<char>>) -> Result<
    Seq<Piece>,
    RenderError,
>
    decreases tokens.len() - i,
    via render_from_decreases
{
    if 0 <= i < tokens.len() {
        match step(tokens, i, st, math) {
            Ok(done) => after(done.pieces, render_from(tokens, done.next, done.state, math)),
            Err(e) => Err(e),
        }
    } else {
        Ok(close_lists(st.lists, -1).0)
    }
}

#[via_fn]
proof fn render_from_decreases(tokens: Seq<TokenView>, i: int, st: RenderState, math: Seq<Seq<char>>) {
    if 0 <= i < tokens.len() {
        lemma_step_advances(tokens, i, st, math);
    }
}

/// The pieces written for a document whose tokens are `tokens[start..]`: the document
/// starts as a line does, without a line break, and goes on token by token.
pub open spec fn render(tokens: Seq<TokenView>, start: int, math: Seq<Seq<char>>) -> Result<
    Seq<Piece>,
    RenderError,
> {
    let first = line_start(tokens, start, initial_state(), 0, true);
    after(first.pieces, render_from(tokens, first.next, first.state, math))
}

} // verus!
