use crate::markdown::html::math_requests;
use crate::markdown::lexer::{
    lemma_links_pair, lemma_math_needs_dollar, lex, links_paired, TokenView,
};
use crate::markdown::render::{
    after, close_lists, heading_end, initial_state, is_open, item_end, item_ends, item_start,
    lemma_markup_step, line_broken, line_start, markup_step, quote_turn, render, render_from,
    lists_after, step, token_markup, with_item, Inline, Level, Piece, RenderError, RenderState,
    Step,
};
use vstd::prelude::*;

verus! {

/// The number of times that `piece` stands in `pieces`.
pub open spec fn occurrences(pieces: Seq<Piece>, piece: Piece) -> nat
    decreases pieces.len(),
{
    if pieces.len() == 0 {
        0
    } else {
        occurrences(pieces.drop_last(), piece) + if pieces.last() == piece {
            1nat
        } else {
            0nat
        }
    }
}

/// The style that a token switches, if it is the marker of one.
pub open spec fn marked(token: TokenView) -> Option<Inline> {
    match token {
        TokenView::Bold => Some(Inline::Bold),
        TokenView::Italic => Some(Inline::Italic),
        TokenView::Strike => Some(Inline::Strike),
        _ => None,
    }
}

/// The number of markers of the style `kind` among `tokens[from..]`.
pub open spec fn markers(tokens: Seq<TokenView>, from: int, kind: Inline) -> nat
    decreases tokens.len() - from,
{
    if 0 <= from < tokens.len() {
        markers(tokens, from + 1, kind) + if marked(tokens[from]) == Some(kind) {
            1nat
        } else {
            0nat
        }
    } else {
        0
    }
}

/// A piece stands in two sequences joined as often as in the one and in the other.
pub proof fn lemma_occurrences_join(a: Seq<Piece>, b: Seq<Piece>, piece: Piece)
    ensures
        occurrences(a + b, piece) == occurrences(a, piece) + occurrences(b, piece),
    decreases b.len(),
{
    if b.len() == 0 {
        assert(a + b == a);
    } else {
        assert((a + b).drop_last() == a + b.drop_last());
        lemma_occurrences_join(a, b.drop_last(), piece);
    }
}

/// How often a piece stands in a sequence of one piece, and of two.
proof fn lemma_occurrences_few(p: Piece, q: Piece, piece: Piece)
    ensures
        occurrences(Seq::<Piece>::empty(), piece) == 0,
        occurrences(seq![p], piece) == (if p == piece {
            1nat
        } else {
            0nat
        }),
        occurrences(seq![p, q], piece) == (if p == piece {
            1nat
        } else {
            0nat
        }) + (if q == piece {
            1nat
        } else {
            0nat
        }),
{
    let one = seq![p];
    let other = seq![q];
    assert(one.drop_last() == Seq::<Piece>::empty());
    assert(other.drop_last() == Seq::<Piece>::empty());
    assert(one.last() == p);
    assert(other.last() == q);
    assert(occurrences(one.drop_last(), piece) == 0);
    assert(occurrences(other.drop_last(), piece) == 0);
    assert(seq![p, q] == one + other);
    lemma_occurrences_join(one, other, piece);
}

/// The number of lists whose item is open.
pub open spec fn open_items(lists: Seq<Level>) -> nat
    decreases lists.len(),
{
    if lists.len() == 0 {
        0
    } else {
        open_items(lists.drop_last()) + if lists.last().item_open {
            1nat
        } else {
            0nat
        }
    }
}

/// A list that opens with its item open counts as one more.
proof fn lemma_open_items_push(lists: Seq<Level>, level: Level)
    ensures
        open_items(lists.push(level)) == open_items(lists) + (if level.item_open {
            1nat
        } else {
            0nat
        }),
{
    assert(lists.push(level).drop_last() == lists);
}

/// Opening or ending the item of the innermost list changes the count by that item.
proof fn lemma_open_items_with(lists: Seq<Level>, open: bool)
    requires
        lists.len() > 0,
    ensures
        open_items(with_item(lists, open)) + (if lists.last().item_open {
            1nat
        } else {
            0nat
        }) == open_items(lists) + (if open {
            1nat
        } else {
            0nat
        }),
        with_item(lists, open).len() == lists.len(),
{
    assert(with_item(lists, open).drop_last() == lists.drop_last());
}

/// Closing lists writes one closing tag for each list that closes and one for each item
/// that was open in them, and nothing that opens a list or an item or switches a style.
proof fn lemma_close_lists(lists: Seq<Level>, indent: int, kind: Inline)
    ensures
        close_lists(lists, indent).1.len() <= lists.len(),
        occurrences(close_lists(lists, indent).0, Piece::ListClose) + close_lists(
            lists,
            indent,
        ).1.len() == lists.len(),
        occurrences(close_lists(lists, indent).0, Piece::ItemClose) + open_items(
            close_lists(lists, indent).1,
        ) == open_items(lists),
        occurrences(close_lists(lists, indent).0, Piece::ListOpen) == 0,
        occurrences(close_lists(lists, indent).0, Piece::ItemOpen) == 0,
        occurrences(close_lists(lists, indent).0, Piece::Open(kind)) == 0,
        occurrences(close_lists(lists, indent).0, Piece::Close(kind)) == 0,
        indent < 0 ==> close_lists(lists, indent).1.len() == 0,
    decreases lists.len(),
{
    reveal(close_lists);
    lemma_occurrences_few(Piece::ListClose, Piece::ListClose, Piece::ListClose);
    lemma_occurrences_few(Piece::ListClose, Piece::ListClose, Piece::ListOpen);
    lemma_occurrences_few(Piece::ListClose, Piece::ListClose, Piece::Open(kind));
    lemma_occurrences_few(Piece::ListClose, Piece::ListClose, Piece::Close(kind));
    lemma_occurrences_few(Piece::ListClose, Piece::ListClose, Piece::ItemOpen);
    lemma_occurrences_few(Piece::ListClose, Piece::ListClose, Piece::ItemClose);
    if lists.len() > 0 && indent < lists.last().indent {
        lemma_close_lists(lists.drop_last(), indent, kind);
        let more = close_lists(lists.drop_last(), indent).0;
        let head = if lists.last().item_open {
            seq![Piece::ItemClose, Piece::ListClose]
        } else {
            seq![Piece::ListClose]
        };
        lemma_occurrences_few(Piece::ItemClose, Piece::ListClose, Piece::ListClose);
        lemma_occurrences_few(Piece::ItemClose, Piece::ListClose, Piece::ListOpen);
        lemma_occurrences_few(Piece::ItemClose, Piece::ListClose, Piece::Open(kind));
        lemma_occurrences_few(Piece::ItemClose, Piece::ListClose, Piece::Close(kind));
        lemma_occurrences_few(Piece::ItemClose, Piece::ListClose, Piece::ItemOpen);
        lemma_occurrences_few(Piece::ItemClose, Piece::ListClose, Piece::ItemClose);
        lemma_occurrences_join(head, more, Piece::ListClose);
        lemma_occurrences_join(head, more, Piece::ListOpen);
        lemma_occurrences_join(head, more, Piece::Open(kind));
        lemma_occurrences_join(head, more, Piece::Close(kind));
        lemma_occurrences_join(head, more, Piece::ItemOpen);
        lemma_occurrences_join(head, more, Piece::ItemClose);
    }
}

/// How often `piece` stands in six groups of pieces joined.
proof fn lemma_occurrences_groups(
    a: Seq<Piece>,
    b: Seq<Piece>,
    c: Seq<Piece>,
    d: Seq<Piece>,
    e: Seq<Piece>,
    f: Seq<Piece>,
    piece: Piece,
)
    ensures
        occurrences(a + b + c + d + e + f, piece) == occurrences(a, piece) + occurrences(b, piece)
            + occurrences(c, piece) + occurrences(d, piece) + occurrences(e, piece) + occurrences(
            f,
            piece,
        ),
{
    lemma_occurrences_join(a, b, piece);
    lemma_occurrences_join(a + b, c, piece);
    lemma_occurrences_join(a + b + c, d, piece);
    lemma_occurrences_join(a + b + c + d, e, piece);
    lemma_occurrences_join(a + b + c + d + e, f, piece);
}

/// How often `piece`, which is no markup, stands in the groups that a line start writes
/// beside the lists it closes.
proof fn lemma_line_groups(
    heading: Option<nat>,
    ends: bool,
    item: bool,
    deeper: bool,
    quote_open: bool,
    quoted: bool,
    quiet: bool,
    indent: nat,
    piece: Piece,
)
    requires
        !(piece is Markup),
    ensures
        occurrences(heading_end(heading), piece) == 0,
        occurrences(item_end(ends), piece) == (if ends && piece == Piece::ItemClose {
            1nat
        } else {
            0nat
        }),
        occurrences(item_start(item, deeper), piece) == (if item && deeper && piece
            == Piece::ListOpen {
            1nat
        } else {
            0nat
        }) + (if item && piece == Piece::ItemOpen {
            1nat
        } else {
            0nat
        }),
        occurrences(quote_turn(quote_open, quoted), piece) == 0,
        occurrences(line_broken(quiet, indent), piece) == 0,
{
    lemma_occurrences_few(Piece::ItemClose, Piece::ItemClose, piece);
    lemma_occurrences_few(Piece::ListOpen, Piece::ItemOpen, piece);
    lemma_occurrences_few(Piece::ItemOpen, Piece::ItemOpen, piece);
    match heading {
        Some(level) => {
            lemma_occurrences_few(heading_end(heading)[0], Piece::ItemOpen, piece);
            assert(heading_end(heading) == seq![heading_end(heading)[0]]);
        },
        None => {},
    }
    if quote_turn(quote_open, quoted).len() > 0 {
        lemma_occurrences_few(quote_turn(quote_open, quoted)[0], Piece::ItemOpen, piece);
        assert(quote_turn(quote_open, quoted) == seq![quote_turn(quote_open, quoted)[0]]);
    }
    if !quiet {
        lemma_occurrences_few(line_broken(quiet, indent)[0], Piece::ItemOpen, piece);
        assert(line_broken(quiet, indent) == seq![line_broken(quiet, indent)[0]]);
    }
}

/// What the start of a line writes: no tag of a style, as many more closing tags of
/// lists than opening ones as there are fewer lists open after it, and as many more
/// closing tags of items than opening ones as there are fewer items open after it.
proof fn lemma_line_start(tokens: Seq<TokenView>, at: int, st: RenderState, indent: nat, first: bool, kind: Inline)
    ensures
        ({
            let line = line_start(tokens, at, st, indent, first);
            &&& occurrences(line.pieces, Piece::Open(kind)) == 0
            &&& occurrences(line.pieces, Piece::Close(kind)) == 0
            &&& occurrences(line.pieces, Piece::ListOpen) + st.lists.len() == occurrences(
                line.pieces,
                Piece::ListClose,
            ) + line.state.lists.len()
            &&& occurrences(line.pieces, Piece::ItemOpen) + open_items(st.lists) == occurrences(
                line.pieces,
                Piece::ItemClose,
            ) + open_items(line.state.lists)
            &&& is_open(line.state, kind) == is_open(st, kind)
        }),
{
    reveal(line_start);
    let (closed, left) = close_lists(st.lists, indent as int);
    let popped = left.len() < st.lists.len();
    let item = 0 <= at < tokens.len() && tokens[at] is DotList;
    let deeper = left.len() == 0 || indent > left.last().indent;
    let ends = item_ends(left, popped, item, deeper);
    let after_item = if item {
        at + 1
    } else {
        at
    };
    let quoted = 0 <= after_item < tokens.len() && tokens[after_item] is BlockQuote;
    let quiet = first || st.heading is Some || popped || ends || item || st.quote_open != quoted;
    let a = heading_end(st.heading);
    let c = item_end(ends);
    let d = item_start(item, deeper);
    let e = quote_turn(st.quote_open, quoted);
    let f = line_broken(quiet, indent);
    lemma_close_lists(st.lists, indent as int, kind);
    lemma_occurrences_groups(a, closed, c, d, e, f, Piece::Open(kind));
    lemma_occurrences_groups(a, closed, c, d, e, f, Piece::Close(kind));
    lemma_occurrences_groups(a, closed, c, d, e, f, Piece::ListOpen);
    lemma_occurrences_groups(a, closed, c, d, e, f, Piece::ListClose);
    lemma_occurrences_groups(a, closed, c, d, e, f, Piece::ItemOpen);
    lemma_occurrences_groups(a, closed, c, d, e, f, Piece::ItemClose);
    lemma_line_groups(st.heading, ends, item, deeper, st.quote_open, quoted, quiet, indent, Piece::Open(kind));
    lemma_line_groups(st.heading, ends, item, deeper, st.quote_open, quoted, quiet, indent, Piece::Close(kind));
    lemma_line_groups(st.heading, ends, item, deeper, st.quote_open, quoted, quiet, indent, Piece::ListOpen);
    lemma_line_groups(st.heading, ends, item, deeper, st.quote_open, quoted, quiet, indent, Piece::ListClose);
    lemma_line_groups(st.heading, ends, item, deeper, st.quote_open, quoted, quiet, indent, Piece::ItemOpen);
    lemma_line_groups(st.heading, ends, item, deeper, st.quote_open, quoted, quiet, indent, Piece::ItemClose);
    if item && deeper {
        lemma_open_items_push(left, Level { indent: indent as usize, item_open: true });
    } else if item {
        lemma_open_items_with(left, true);
    } else if ends {
        lemma_open_items_with(left, false);
    }
}

/// The number of markers of a style from `at` on does not change where the tokens
/// skipped are none.
proof fn lemma_markers_skip(tokens: Seq<TokenView>, at: int, kind: Inline)
    requires
        0 <= at < tokens.len(),
        marked(tokens[at]) is None,
    ensures
        markers(tokens, at, kind) == markers(tokens, at + 1, kind),
{
}

/// What holds of one step `s` from the state `st` at the token `i`: it writes the tag of
/// a style where the token is its marker, as many more closing tags of lists than opening
/// ones as there are fewer lists open after it, and as many more closing tags of items
/// than opening ones as there are fewer items open after it.
spec fn step_counts(tokens: Seq<TokenView>, i: int, st: RenderState, s: Step, kind: Inline) -> bool {
    let switches = marked(tokens[i]) == Some(kind);
    &&& i < s.next <= tokens.len()
    &&& markers(tokens, i, kind) == markers(tokens, s.next, kind) + (if switches {
        1nat
    } else {
        0nat
    })
    &&& occurrences(s.pieces, Piece::Open(kind)) == (if switches && !is_open(st, kind) {
        1nat
    } else {
        0nat
    })
    &&& occurrences(s.pieces, Piece::Close(kind)) == (if switches && is_open(st, kind) {
        1nat
    } else {
        0nat
    })
    &&& is_open(s.state, kind) == (is_open(st, kind) != switches)
    &&& occurrences(s.pieces, Piece::ListOpen) + st.lists.len() == occurrences(
        s.pieces,
        Piece::ListClose,
    ) + s.state.lists.len()
    &&& occurrences(s.pieces, Piece::ItemOpen) + open_items(st.lists) == occurrences(
        s.pieces,
        Piece::ItemClose,
    ) + open_items(s.state.lists)
}

/// What the step of a line feed writes.
proof fn lemma_step_line(tokens: Seq<TokenView>, i: int, st: RenderState, indent: nat, kind: Inline)
    requires
        0 <= i < tokens.len(),
        tokens[i] == TokenView::NewLine(indent),
    ensures
        step_counts(tokens, i, st, line_start(tokens, i + 1, st, indent, false), kind),
{
    reveal(line_start);
    lemma_line_start(tokens, i + 1, st, indent, false, kind);
    let item = i + 1 < tokens.len() && tokens[i + 1] is DotList;
    let after_item = if item {
        i + 2
    } else {
        i + 1
    };
    let quoted = after_item < tokens.len() && tokens[after_item] is BlockQuote;
    if item {
        lemma_markers_skip(tokens, i + 1, kind);
    }
    if quoted {
        lemma_markers_skip(tokens, after_item, kind);
    }
}

/// How often the tags counted here stand in at most one piece.
proof fn lemma_occurrences_one(pieces: Seq<Piece>, kind: Inline)
    requires
        pieces.len() <= 1,
    ensures
        occurrences(pieces, Piece::Open(kind)) == (if pieces.len() == 1 && pieces[0]
            == Piece::Open(kind) {
            1nat
        } else {
            0nat
        }),
        occurrences(pieces, Piece::Close(kind)) == (if pieces.len() == 1 && pieces[0]
            == Piece::Close(kind) {
            1nat
        } else {
            0nat
        }),
        pieces.len() == 0 || pieces[0] is Markup || pieces[0] is Open || pieces[0] is Close
            ==> occurrences(pieces, Piece::ListOpen) == 0 && occurrences(pieces, Piece::ListClose)
            == 0 && occurrences(pieces, Piece::ItemOpen) == 0 && occurrences(
            pieces,
            Piece::ItemClose,
        ) == 0,
{
    if pieces.len() == 1 {
        assert(pieces == seq![pieces[0]]);
        lemma_occurrences_few(pieces[0], pieces[0], Piece::Open(kind));
        lemma_occurrences_few(pieces[0], pieces[0], Piece::Close(kind));
        lemma_occurrences_few(pieces[0], pieces[0], Piece::ListOpen);
        lemma_occurrences_few(pieces[0], pieces[0], Piece::ListClose);
        lemma_occurrences_few(pieces[0], pieces[0], Piece::ItemOpen);
        lemma_occurrences_few(pieces[0], pieces[0], Piece::ItemClose);
    }
}

/// What the step of a token that only writes writes.
proof fn lemma_step_markup(tokens: Seq<TokenView>, i: int, st: RenderState, text: Seq<char>, kind: Inline)
    requires
        0 <= i < tokens.len(),
        token_markup(tokens[i], st.after_marker) == Some(text),
    ensures
        step_counts(tokens, i, st, markup_step(text, st, i), kind),
{
    lemma_occurrences_one(markup_step(text, st, i).pieces, kind);
}

/// What the step of a token that does more than write writes.
proof fn lemma_step_other(tokens: Seq<TokenView>, i: int, st: RenderState, math: Seq<Seq<char>>, kind: Inline)
    requires
        0 <= i < tokens.len(),
        step(tokens, i, st, math) is Ok,
        token_markup(tokens[i], st.after_marker) is None,
        !(tokens[i] is NewLine),
    ensures
        step_counts(tokens, i, st, step(tokens, i, st, math)->Ok_0, kind),
{
    let s = step(tokens, i, st, math)->Ok_0;
    lemma_occurrences_one(s.pieces, kind);
    if tokens[i] is LinkName {
        lemma_markers_skip(tokens, i + 1, kind);
    }
}

/// What one step writes.
proof fn lemma_step(tokens: Seq<TokenView>, i: int, st: RenderState, math: Seq<Seq<char>>, kind: Inline)
    requires
        0 <= i < tokens.len(),
        step(tokens, i, st, math) is Ok,
    ensures
        step_counts(tokens, i, st, step(tokens, i, st, math)->Ok_0, kind),
{
    match token_markup(tokens[i], st.after_marker) {
        Some(text) => {
            lemma_markup_step(tokens, i, st, math);
            lemma_step_markup(tokens, i, st, text, kind);
        },
        None => match tokens[i] {
            TokenView::NewLine(indent) => {
                lemma_step_line(tokens, i, st, indent, kind);
            },
            _ => {
                lemma_step_other(tokens, i, st, math, kind);
            },
        },
    }
}

/// What rendering from a state on writes, where it succeeds.
proof fn lemma_render_from(tokens: Seq<TokenView>, i: int, st: RenderState, math: Seq<Seq<char>>, kind: Inline)
    requires
        0 <= i <= tokens.len(),
        render_from(tokens, i, st, math) is Ok,
    ensures
        ({
            let pieces = render_from(tokens, i, st, math)->Ok_0;
            let n = markers(tokens, i, kind);
            &&& occurrences(pieces, Piece::Open(kind)) + occurrences(pieces, Piece::Close(kind))
                == n
            &&& is_open(st, kind) ==> occurrences(pieces, Piece::Close(kind)) == occurrences(
                pieces,
                Piece::Open(kind),
            ) + n % 2
            &&& !is_open(st, kind) ==> occurrences(pieces, Piece::Open(kind)) == occurrences(
                pieces,
                Piece::Close(kind),
            ) + n % 2
            &&& occurrences(pieces, Piece::ListOpen) + st.lists.len() == occurrences(
                pieces,
                Piece::ListClose,
            )
            &&& occurrences(pieces, Piece::ItemOpen) + open_items(st.lists) == occurrences(
                pieces,
                Piece::ItemClose,
            )
        }),
    decreases tokens.len() - i,
{
    if i < tokens.len() {
        let s = step(tokens, i, st, math)->Ok_0;
        lemma_step(tokens, i, st, math, kind);
        let rest = render_from(tokens, s.next, s.state, math)->Ok_0;
        lemma_render_from(tokens, s.next, s.state, math, kind);
        lemma_occurrences_join(s.pieces, rest, Piece::Open(kind));
        lemma_occurrences_join(s.pieces, rest, Piece::Close(kind));
        lemma_occurrences_join(s.pieces, rest, Piece::ListOpen);
        lemma_occurrences_join(s.pieces, rest, Piece::ListClose);
        lemma_occurrences_join(s.pieces, rest, Piece::ItemOpen);
        lemma_occurrences_join(s.pieces, rest, Piece::ItemClose);
    } else {
        lemma_close_lists(st.lists, -1, kind);
    }
}

/// Each marker of a style writes one tag of it, by turns the opening and the closing one.
/// So a document with an even number of markers of a style holds as many closing tags of
/// it as opening ones, and a document with an odd number holds one opening tag more,
/// which nothing closes.
pub proof fn lemma_styles_pair(tokens: Seq<TokenView>, start: int, math: Seq<Seq<char>>, kind: Inline)
    requires
        0 <= start <= tokens.len(),
        render(tokens, start, math) is Ok,
    ensures
        ({
            let pieces = render(tokens, start, math)->Ok_0;
            let n = markers(tokens, start, kind);
            &&& occurrences(pieces, Piece::Open(kind)) + occurrences(pieces, Piece::Close(kind))
                == n
            &&& occurrences(pieces, Piece::Open(kind)) == occurrences(pieces, Piece::Close(kind))
                + n % 2
        }),
{
    reveal(line_start);
    let first = line_start(tokens, start, initial_state(), 0, true);
    let rest = render_from(tokens, first.next, first.state, math)->Ok_0;
    lemma_line_start(tokens, start, initial_state(), 0, true, kind);
    lemma_render_from(tokens, first.next, first.state, math, kind);
    lemma_occurrences_join(first.pieces, rest, Piece::Open(kind));
    lemma_occurrences_join(first.pieces, rest, Piece::Close(kind));
    let item = start < tokens.len() && tokens[start] is DotList;
    let after_item = if item {
        start + 1
    } else {
        start
    };
    if item {
        lemma_markers_skip(tokens, start, kind);
    }
    if after_item < tokens.len() && tokens[after_item] is BlockQuote {
        lemma_markers_skip(tokens, after_item, kind);
    }
}

/// Every list that a document opens is closed by its end, and so is every item: the
/// document holds as many closing tags of lists as opening ones, and as many closing tags
/// of items as opening ones.
pub proof fn lemma_lists_close(tokens: Seq<TokenView>, start: int, math: Seq<Seq<char>>)
    requires
        0 <= start <= tokens.len(),
        render(tokens, start, math) is Ok,
    ensures
        occurrences(render(tokens, start, math)->Ok_0, Piece::ListOpen) == occurrences(
            render(tokens, start, math)->Ok_0,
            Piece::ListClose,
        ),
        occurrences(render(tokens, start, math)->Ok_0, Piece::ItemOpen) == occurrences(
            render(tokens, start, math)->Ok_0,
            Piece::ItemClose,
        ),
{
    reveal(line_start);
    let first = line_start(tokens, start, initial_state(), 0, true);
    let rest = render_from(tokens, first.next, first.state, math)->Ok_0;
    lemma_line_start(tokens, start, initial_state(), 0, true, Inline::Bold);
    lemma_render_from(tokens, first.next, first.state, math, Inline::Bold);
    lemma_occurrences_join(first.pieces, rest, Piece::ListOpen);
    lemma_occurrences_join(first.pieces, rest, Piece::ListClose);
    lemma_occurrences_join(first.pieces, rest, Piece::ItemOpen);
    lemma_occurrences_join(first.pieces, rest, Piece::ItemClose);
}

/// The number of mathematical expressions among `tokens[from..]`.
pub open spec fn expressions(tokens: Seq<TokenView>, from: int) -> nat
    decreases tokens.len() - from,
{
    if 0 <= from < tokens.len() {
        expressions(tokens, from + 1) + if tokens[from] is MathExpr {
            1nat
        } else {
            0nat
        }
    } else {
        0
    }
}

/// There is a source for each mathematical expression.
pub proof fn lemma_sources_count(tokens: Seq<TokenView>, preamble: Seq<char>)
    ensures
        math_requests(tokens, preamble).len() == expressions(tokens, 0),
    decreases tokens.len(),
{
    if tokens.len() > 0 {
        lemma_sources_count(tokens.drop_last(), preamble);
        lemma_expressions_last(tokens, 0);
    }
}

/// The last token counts as the first does.
proof fn lemma_expressions_last(tokens: Seq<TokenView>, from: int)
    requires
        0 <= from <= tokens.len(),
        tokens.len() > 0,
    ensures
        expressions(tokens, from) == (if from < tokens.len() {
            expressions(tokens.drop_last(), from) + if tokens.last() is MathExpr {
                1nat
            } else {
                0nat
            }
        } else {
            0nat
        }),
    decreases tokens.len() - from,
{
    if from < tokens.len() {
        lemma_expressions_last(tokens, from + 1);
        if from < tokens.len() - 1 {
            assert(tokens.drop_last()[from] == tokens[from]);
        }
    }
}

/// No expression lacks its markup from a state on, where there is markup left for each
/// expression that is left.
proof fn lemma_math_from(tokens: Seq<TokenView>, i: int, st: RenderState, math: Seq<Seq<char>>)
    requires
        0 <= i <= tokens.len(),
        st.math_used + expressions(tokens, i) <= math.len(),
    ensures
        !(render_from(tokens, i, st, math) matches Err(RenderError::MissingMath(_))),
    decreases tokens.len() - i,
{
    if i < tokens.len() {
        match step(tokens, i, st, math) {
            Ok(s) => {
                reveal(line_start);
                lemma_expressions_skip(tokens, i, s.next);
                lemma_math_from(tokens, s.next, s.state, math);
            },
            Err(_) => {},
        }
    }
}

/// Tokens that are no expressions do not count.
proof fn lemma_expressions_skip(tokens: Seq<TokenView>, from: int, to: int)
    requires
        0 <= from <= to <= tokens.len(),
        forall|k: int| from < k < to ==> !(tokens[k] is MathExpr),
    ensures
        expressions(tokens, from) == expressions(tokens, to) + (if from < to
            && tokens[from] is MathExpr {
            1nat
        } else {
            0nat
        }),
    decreases to - from,
{
    if from < to {
        if from + 1 < to {
            lemma_expressions_skip(tokens, from + 1, to);
        }
    }
}

/// A document that is given a markup for each of its mathematical expressions lacks
/// none: rendering it never fails for want of markup.
pub proof fn lemma_math_suffices(tokens: Seq<TokenView>, math: Seq<Seq<char>>, preamble: Seq<char>)
    requires
        math.len() >= math_requests(tokens, preamble).len(),
    ensures
        !(render(tokens, 0, math) matches Err(RenderError::MissingMath(_))),
{
    reveal(line_start);
    lemma_sources_count(tokens, preamble);
    let first = line_start(tokens, 0, initial_state(), 0, true);
    lemma_expressions_skip(tokens, 0, first.next);
    lemma_math_from(tokens, first.next, first.state, math);
}

/// From a token on that does not follow the name of a link, tokens whose links are paired
/// fail to render only for want of markup.
proof fn lemma_links_from(tokens: Seq<TokenView>, i: int, st: RenderState, math: Seq<Seq<char>>)
    requires
        links_paired(tokens),
        0 <= i <= tokens.len(),
        i > 0 ==> !(tokens[i - 1] is LinkName),
    ensures
        render_from(tokens, i, st, math) matches Err(e) ==> e is MissingMath,
    decreases tokens.len() - i,
{
    if i < tokens.len() {
        let token = tokens[i];
        match step(tokens, i, st, math) {
            Ok(s) => {
                reveal(line_start);
                if token is LinkName {
                    assert(tokens[i + 1] is LinkURL);
                }
                lemma_links_from(tokens, s.next, s.state, math);
            },
            Err(e) => {
                if token is LinkName {
                    assert(tokens[i + 1] is LinkURL);
                }
            },
        }
    }
}

/// Tokens whose links are paired fail to render only for want of markup.
pub proof fn lemma_paired_links_render(tokens: Seq<TokenView>, math: Seq<Seq<char>>)
    requires
        links_paired(tokens),
    ensures
        render(tokens, 0, math) matches Err(e) ==> e is MissingMath,
{
    reveal(line_start);
    let first = line_start(tokens, 0, initial_state(), 0, true);
    lemma_links_from(tokens, first.next, first.state, math);
}

/// Every text can be rendered: the tokens of a text, given a markup for each of their
/// mathematical expressions, make a page. A bracket or a parenthesis that is no part of
/// a link is text of the page, and no error.
pub proof fn lemma_text_renders(text: Seq<char>, math: Seq<Seq<char>>, preamble: Seq<char>)
    requires
        math.len() >= math_requests(lex(text), preamble).len(),
    ensures
        render(lex(text), 0, math) is Ok,
{
    lemma_links_pair(text, 0);
    lemma_paired_links_render(lex(text), math);
    lemma_math_suffices(lex(text), math, preamble);
}

/// True of a document that is a sequence of list items: it holds markers, text and line
/// feeds alone, and a marker after each line feed but the last.
pub open spec fn only_items(tokens: Seq<TokenView>) -> bool {
    forall|k: int|
        0 <= k < tokens.len() ==> (#[trigger] tokens[k] is DotList || tokens[k] is Text
            || tokens[k] is NewLine) && (tokens[k] is NewLine && k + 1 < tokens.len()
            ==> tokens[k + 1] is DotList)
}

/// True of pieces in which every list closes with `</li></ul>`: the closing tag of a list
/// stands directly after the closing tag of an item. `closed_before` says whether the
/// closing tag of an item stands directly before the first of the pieces.
pub open spec fn closes_pair(pieces: Seq<Piece>, closed_before: bool) -> bool {
    forall|k: int|
        0 <= k < pieces.len() && #[trigger] pieces[k] is ListClose ==> (if k == 0 {
            closed_before
        } else {
            pieces[k - 1] is ItemClose
        })
}

/// True of lists whose items are all open.
pub open spec fn all_open(lists: Seq<Level>) -> bool {
    forall|k: int| 0 <= k < lists.len() ==> (#[trigger] lists[k]).item_open
}

/// Whether the item of the innermost list has ended.
pub open spec fn item_ended(lists: Seq<Level>) -> bool {
    lists.len() > 0 && !lists.last().item_open
}

/// Pieces in which lists close in pairs, one group after the other, do so together.
proof fn lemma_pairs_join(a: Seq<Piece>, b: Seq<Piece>, closed_before: bool)
    requires
        closes_pair(a, closed_before),
        closes_pair(
            b,
            if a.len() > 0 {
                a.last() is ItemClose
            } else {
                closed_before
            },
        ),
    ensures
        closes_pair(a + b, closed_before),
{
    assert forall|k: int| 0 <= k < (a + b).len() && #[trigger] (a + b)[k] is ListClose implies (if k
        == 0 {
        closed_before
    } else {
        (a + b)[k - 1] is ItemClose
    }) by {
        if k < a.len() {
            assert(a[k] is ListClose);
        } else {
            assert(b[k - a.len()] is ListClose);
        }
    }
}

/// Lists of which all but the innermost have their item open close in pairs, and leave
/// lists whose items are open but for the innermost, which is as it was if it stays.
proof fn lemma_close_pairs(lists: Seq<Level>, indent: int)
    requires
        all_open(lists.drop_last()) || lists.len() == 0,
    ensures
        closes_pair(close_lists(lists, indent).0, item_ended(lists)),
        close_lists(lists, indent).1.len() <= lists.len(),
        close_lists(lists, indent).1.len() < lists.len() ==> all_open(close_lists(lists, indent).1),
        close_lists(lists, indent).1.len() == lists.len() ==> close_lists(lists, indent).1 == lists
            && close_lists(lists, indent).0.len() == 0,
        close_lists(lists, indent).0.len() > 0 ==> close_lists(lists, indent).0.last() is ListClose,
        indent < 0 ==> close_lists(lists, indent).1.len() == 0,
    decreases lists.len(),
{
    reveal(close_lists);
    if lists.len() > 0 && indent < lists.last().indent {
        let inner = lists.drop_last();
        assert(inner.len() > 0 ==> all_open(inner.drop_last())) by {
            if inner.len() > 0 {
                assert forall|k: int| 0 <= k < inner.drop_last().len() implies (
                #[trigger] inner.drop_last()[k]).item_open by {
                    assert(inner[k].item_open);
                }
            }
        }
        lemma_close_pairs(inner, indent);
        let more = close_lists(inner, indent).0;
        let head = if lists.last().item_open {
            seq![Piece::ItemClose, Piece::ListClose]
        } else {
            seq![Piece::ListClose]
        };
        assert(inner.len() > 0 ==> inner.last().item_open) by {
            if inner.len() > 0 {
                assert(inner[inner.len() - 1].item_open);
            }
        }
        assert(closes_pair(head, item_ended(lists)));
        assert(head.last() is ListClose);
        assert(closes_pair(more, false));
        lemma_pairs_join(head, more, item_ended(lists));
        if more.len() > 0 {
            assert((head + more).last() == more.last());
        } else {
            assert(head + more == head);
        }
    }
}

/// What the start of a line does in a document of list items: the lists that close do so
/// in pairs, and only the last line of the document leaves an item ended.
proof fn lemma_line_pairs(tokens: Seq<TokenView>, at: int, st: RenderState, indent: nat, first: bool)
    requires
        only_items(tokens),
        0 <= at <= tokens.len(),
        st.heading is None,
        !st.quote_open,
        all_open(st.lists),
        st.lists.len() == 0 || at == tokens.len() || tokens[at] is DotList,
    ensures
        ({
            let line = line_start(tokens, at, st, indent, first);
            &&& closes_pair(line.pieces, false)
            &&& line.state.heading is None
            &&& !line.state.quote_open
            &&& at <= line.next <= tokens.len()
            &&& if item_ended(line.state.lists) {
                line.next == tokens.len() && line.pieces.len() > 0 && line.pieces.last() is ItemClose
                    && all_open(line.state.lists.drop_last())
            } else {
                all_open(line.state.lists)
            }
        }),
{
    reveal(line_start);
    let line = line_start(tokens, at, st, indent, first);
    let (closed, left) = close_lists(st.lists, indent as int);
    let popped = left.len() < st.lists.len();
    let item = 0 <= at < tokens.len() && tokens[at] is DotList;
    let deeper = left.len() == 0 || indent > left.last().indent;
    let ends = item_ends(left, popped, item, deeper);
    let after_item = if item {
        at + 1
    } else {
        at
    };
    if after_item < tokens.len() {
        assert(!(tokens[after_item] is BlockQuote));
    }
    let quiet = first || popped || ends || item;
    assert(st.lists.len() > 0 ==> all_open(st.lists.drop_last())) by {
        if st.lists.len() > 0 {
            assert forall|k: int| 0 <= k < st.lists.drop_last().len() implies (
            #[trigger] st.lists.drop_last()[k]).item_open by {
                assert(st.lists[k].item_open);
            }
        }
    }
    lemma_close_pairs(st.lists, indent as int);
    assert(left.len() > 0 ==> st.lists.len() > 0);
    assert(!item_ended(st.lists)) by {
        if st.lists.len() > 0 {
            assert(st.lists[st.lists.len() - 1].item_open);
        }
    }
    assert(all_open(left));
    let b = item_end(ends);
    let c = item_start(item, deeper);
    let d = line_broken(quiet, indent);
    assert(line.pieces == closed + b + c + d) by {
        assert(heading_end(st.heading) + closed == closed);
        assert(closed + b + c + quote_turn(false, false) == closed + b + c);
    }
    lemma_pairs_join(closed, b, false);
    lemma_pairs_join(closed + b, c, false);
    lemma_pairs_join(closed + b + c, d, false);
    let after = lists_after(left, indent, ends, item, deeper);
    assert(line.state.lists == after);
    if item && deeper {
        assert(all_open(after)) by {
            assert forall|k: int| 0 <= k < after.len() implies (#[trigger] after[k]).item_open by {
                if k < left.len() {
                    assert(left[k].item_open);
                }
            }
        }
    } else if item {
        assert(all_open(after)) by {
            assert forall|k: int| 0 <= k < after.len() implies (#[trigger] after[k]).item_open by {
                if k < left.len() - 1 {
                    assert(left[k].item_open);
                }
            }
        }
    } else if ends {
        assert(at == tokens.len());
        assert(line.pieces == closed + b);
        assert(line.pieces.last() == Piece::ItemClose);
        assert(all_open(after.drop_last())) by {
            assert forall|k: int| 0 <= k < after.drop_last().len() implies (
            #[trigger] after.drop_last()[k]).item_open by {
                assert(left[k].item_open);
            }
        }
    }
}

/// In a document of list items, from a state on in which all items are open, or the
/// document is at its end, every list closes in a pair.
proof fn lemma_items_from(tokens: Seq<TokenView>, i: int, st: RenderState, math: Seq<Seq<char>>)
    requires
        only_items(tokens),
        0 <= i <= tokens.len(),
        st.heading is None,
        !st.quote_open,
        if item_ended(st.lists) {
            i == tokens.len() && all_open(st.lists.drop_last())
        } else {
            all_open(st.lists)
        },
    ensures
        render_from(tokens, i, st, math) matches Ok(pieces) && closes_pair(
            pieces,
            item_ended(st.lists),
        ),
    decreases tokens.len() - i,
{
    if i < tokens.len() {
        let token = tokens[i];
        assert(token is DotList || token is Text || token is NewLine);
        let s = step(tokens, i, st, math)->Ok_0;
        if token is NewLine {
            lemma_line_pairs(tokens, i + 1, st, token->NewLine_0, false);
        } else {
            assert(s.pieces.len() == 1 && s.pieces[0] is Markup);
            assert(s.state.lists == st.lists);
        }
        reveal(line_start);
        lemma_items_from(tokens, s.next, s.state, math);
        let rest = render_from(tokens, s.next, s.state, math)->Ok_0;
        assert(closes_pair(s.pieces, false));
        lemma_pairs_join(s.pieces, rest, false);
    } else {
        if st.lists.len() > 0 && !item_ended(st.lists) {
            assert forall|k: int| 0 <= k < st.lists.drop_last().len() implies (
            #[trigger] st.lists.drop_last()[k]).item_open by {
                assert(st.lists[k].item_open);
            }
        }
        lemma_close_pairs(st.lists, -1);
    }
}

/// In a document that is a sequence of list items, whatever their indentations, every
/// list closes with `</li></ul>`, and there are as many such closes as lists that open.
pub proof fn lemma_item_lists_close_in_pairs(tokens: Seq<TokenView>, math: Seq<Seq<char>>)
    requires
        only_items(tokens),
    ensures
        render(tokens, 0, math) matches Ok(pieces) && closes_pair(pieces, false) && occurrences(
            pieces,
            Piece::ListClose,
        ) == occurrences(pieces, Piece::ListOpen),
{
    let first = line_start(tokens, 0, initial_state(), 0, true);
    lemma_line_pairs(tokens, 0, initial_state(), 0, true);
    lemma_items_from(tokens, first.next, first.state, math);
    let rest = render_from(tokens, first.next, first.state, math)->Ok_0;
    lemma_pairs_join(first.pieces, rest, false);
    lemma_lists_close(tokens, 0, math);
}

/// Tokens without a mathematical expression ask for no markup.
proof fn lemma_no_requests(tokens: Seq<TokenView>, preamble: Seq<char>)
    requires
        forall|k: int| 0 <= k < tokens.len() ==> !(#[trigger] tokens[k] is MathExpr),
    ensures
        math_requests(tokens, preamble).len() == 0,
    decreases tokens.len(),
{
    if tokens.len() > 0 {
        assert(!(tokens[tokens.len() - 1] is MathExpr));
        assert forall|k: int| 0 <= k < tokens.drop_last().len() implies !(
        #[trigger] tokens.drop_last()[k] is MathExpr) by {
            assert(!(tokens[k] is MathExpr));
        }
        lemma_no_requests(tokens.drop_last(), preamble);
    }
}

/// A text without `$` can be rendered without any markup: it holds no mathematical
/// expression.
pub proof fn lemma_plain_text_renders(text: Seq<char>, math: Seq<Seq<char>>, preamble: Seq<char>)
    requires
        forall|k: int| 0 <= k < text.len() ==> text[k] != '$',
    ensures
        math_requests(lex(text), preamble).len() == 0,
        render(lex(text), 0, math) is Ok,
{
    lemma_math_needs_dollar(text, 0);
    lemma_no_requests(lex(text), preamble);
    lemma_text_renders(text, math, preamble);
}

} // verus!
