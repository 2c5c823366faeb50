use crate::scan::{
    close_at, lemma_close_at, lemma_run_end, run_end, scan_close, scan_run, CharClass,
};
use crate::text::{chars_of, string_of};
use vstd::prelude::*;

verus! {

/// A classified unit of markup.
#[derive(Debug, PartialEq, Eq)]
pub enum Token {
    /// The character that followed a backslash.
    Escape(char),
    /// `*`
    Italic,
    /// `**`
    Bold,
    /// `~~`
    Strike,
    /// A fenced block: the language tag (possibly empty) and the body.
    CodeBlock((String, String)),
    /// The body of a span between backticks, as written.
    InlineCode(String),
    /// `-`
    DotList,
    /// `>`
    BlockQuote,
    /// `!`
    Bang,
    /// The name of a link: the text between `[` and `]`. The address of the link follows.
    LinkName(String),
    /// The address of a link: the text between `(` and `)`, directly after the name.
    LinkURL(String),
    /// A heading marker: the number of `#`.
    Heading(usize),
    /// The expression between `$` and `$`, with `\$` turned into `$`.
    MathExpr(String),
    /// The text between `!{` and `}`, with `\}` turned into `}`.
    TextBlock(String),
    /// A run of plain text.
    Text(String),
    /// A line feed: the width of the blanks that follow it, a tab counting as four columns.
    NewLine(usize),
    /// The name between the colons of `:name:`.
    Emoji(String),
}

impl Clone for Token {
    fn clone(&self) -> (token: Token)
        ensures
            token@ == self@,
    {
        match self {
            Token::Escape(c) => Token::Escape(*c),
            Token::Italic => Token::Italic,
            Token::Bold => Token::Bold,
            Token::Strike => Token::Strike,
            Token::CodeBlock(block) => Token::CodeBlock((block.0.clone(), block.1.clone())),
            Token::InlineCode(s) => Token::InlineCode(s.clone()),
            Token::DotList => Token::DotList,
            Token::BlockQuote => Token::BlockQuote,
            Token::Bang => Token::Bang,
            Token::LinkName(s) => Token::LinkName(s.clone()),
            Token::LinkURL(s) => Token::LinkURL(s.clone()),
            Token::Heading(n) => Token::Heading(*n),
            Token::MathExpr(s) => Token::MathExpr(s.clone()),
            Token::TextBlock(s) => Token::TextBlock(s.clone()),
            Token::Text(s) => Token::Text(s.clone()),
            Token::NewLine(n) => Token::NewLine(*n),
            Token::Emoji(s) => Token::Emoji(s.clone()),
        }
    }
}

/// What a `Token` stands for.
pub enum TokenView {
    Escape(char),
    Italic,
    Bold,
    Strike,
    CodeBlock(Seq<char>, Seq<char>),
    InlineCode(Seq<char>),
    DotList,
    BlockQuote,
    Bang,
    LinkName(Seq<char>),
    LinkURL(Seq<char>),
    Heading(nat),
    MathExpr(Seq<char>),
    TextBlock(Seq<char>),
    Text(Seq<char>),
    NewLine(nat),
    Emoji(Seq<char>),
}

impl View for Token {
    type V = TokenView;

    open spec fn view(&self) -> TokenView {
        match self {
            Token::Escape(c) => TokenView::Escape(*c),
            Token::Italic => TokenView::Italic,
            Token::Bold => TokenView::Bold,
            Token::Strike => TokenView::Strike,
            Token::CodeBlock(block) => TokenView::CodeBlock(block.0@, block.1@),
            Token::InlineCode(s) => TokenView::InlineCode(s@),
            Token::DotList => TokenView::DotList,
            Token::BlockQuote => TokenView::BlockQuote,
            Token::Bang => TokenView::Bang,
            Token::LinkName(s) => TokenView::LinkName(s@),
            Token::LinkURL(s) => TokenView::LinkURL(s@),
            Token::Heading(n) => TokenView::Heading(*n as nat),
            Token::MathExpr(s) => TokenView::MathExpr(s@),
            Token::TextBlock(s) => TokenView::TextBlock(s@),
            Token::Text(s) => TokenView::Text(s@),
            Token::NewLine(n) => TokenView::NewLine(*n as nat),
            Token::Emoji(s) => TokenView::Emoji(s@),
        }
    }
}

impl TokenView {
    /// The position of the token's kind in the list of kinds.
    pub open spec fn kind(self) -> nat {
        match self {
            TokenView::Escape(_) => 0,
            TokenView::Italic => 1,
            TokenView::Bold => 2,
            TokenView::Strike => 3,
            TokenView::CodeBlock(_, _) => 4,
            TokenView::InlineCode(_) => 5,
            TokenView::DotList => 6,
            TokenView::BlockQuote => 7,
            TokenView::Bang => 8,
            TokenView::LinkName(_) => 9,
            TokenView::LinkURL(_) => 10,
            TokenView::Heading(_) => 11,
            TokenView::MathExpr(_) => 12,
            TokenView::TextBlock(_) => 13,
            TokenView::Text(_) => 14,
            TokenView::NewLine(_) => 15,
            TokenView::Emoji(_) => 16,
        }
    }
}

/// The number of kinds of token.
pub const TOKEN_KINDS: usize = 17;

impl Token {
    /// The slot of the token's kind: tokens of one kind share it, whatever they carry, and
    /// tokens of different kinds never do.
    pub fn as_usize(&self) -> (n: usize)
        ensures
            n == self@.kind(),
            n < TOKEN_KINDS,
    {
        match self {
            Token::Escape(_) => 0,
            Token::Italic => 1,
            Token::Bold => 2,
            Token::Strike => 3,
            Token::CodeBlock(_) => 4,
            Token::InlineCode(_) => 5,
            Token::DotList => 6,
            Token::BlockQuote => 7,
            Token::Bang => 8,
            Token::LinkName(_) => 9,
            Token::LinkURL(_) => 10,
            Token::Heading(_) => 11,
            Token::MathExpr(_) => 12,
            Token::TextBlock(_) => 13,
            Token::Text(_) => 14,
            Token::NewLine(_) => 15,
            Token::Emoji(_) => 16,
        }
    }
}

/// The views of a sequence of tokens.
pub open spec fn views(tokens: Seq<Token>) -> Seq<TokenView> {
    Seq::new(tokens.len(), |i: int| tokens[i]@)
}

/// `s[from..to]` with every backslash that directly precedes `delim` taken out, reading
/// from the left.
pub open spec fn unescaped(s: Seq<char>, from: int, to: int, delim: char) -> Seq<char>
    decreases to - from,
{
    if from >= to || from < 0 {
        Seq::empty()
    } else if s[from] == '\\' && from + 1 < to && s[from + 1] == delim {
        seq![delim] + unescaped(s, from + 2, to, delim)
    } else {
        seq![s[from]] + unescaped(s, from + 1, to, delim)
    }
}

/// The width of the blanks `s[from..to]`: four columns for a tab, one for anything else.
pub open spec fn indent_width(s: Seq<char>, from: int, to: int) -> nat
    decreases to - from,
{
    if from >= to {
        0
    } else {
        indent_width(s, from, to - 1) + if s[to - 1] == '\t' {
            4nat
        } else {
            1nat
        }
    }
}

/// A width as a token can carry it: the largest `usize` stands for anything beyond it.
pub open spec fn clamp(width: nat) -> nat {
    if width > usize::MAX {
        usize::MAX as nat
    } else {
        width
    }
}

/// A fenced code block at `i`: three backticks, the language tag up to the end of the
/// line, a body that holds no backtick, and three backticks.
pub open spec fn code_block_at(s: Seq<char>, i: int) -> Option<(TokenView, int)> {
    let eol = run_end(s, i + 3, CharClass::NotNewline);
    let end = run_end(s, eol + 1, CharClass::NotBacktick);
    if i + 2 < s.len() && s[i] == '`' && s[i + 1] == '`' && s[i + 2] == '`' && eol < s.len() && end
        + 2 < s.len() && s[end] == '`' && s[end + 1] == '`' && s[end + 2] == '`' {
        Some((TokenView::CodeBlock(s.subrange(i + 3, eol), s.subrange(eol + 1, end)), end + 3))
    } else {
        None
    }
}

/// A span of inline code at `i`: a backtick, a body on one line in which each backtick
/// follows a backslash, and a backtick. The longest such span is taken.
pub open spec fn inline_code_at(s: Seq<char>, i: int) -> Option<(TokenView, int)> {
    if s[i] == '`' {
        match close_at(s, i, i + 1, '`', true) {
            Some(k) => Some((TokenView::InlineCode(s.subrange(i + 1, k)), k + 1)),
            None => None,
        }
    } else {
        None
    }
}

/// A raw text block at `i`: `!{`, a body that is not empty and in which each `}` follows a
/// backslash, and `}`. The longest such block is taken.
pub open spec fn text_block_at(s: Seq<char>, i: int) -> Option<(TokenView, int)> {
    if i + 2 < s.len() && s[i] == '!' && s[i + 1] == '{' && s[i + 2] != '}' {
        match close_at(s, i + 1, i + 2, '}', false) {
            Some(k) => Some((TokenView::TextBlock(unescaped(s, i + 2, k, '}')), k + 1)),
            None => None,
        }
    } else {
        None
    }
}

/// A mathematical expression at `i`: `$`, a body in which each `$` follows a backslash,
/// and `$`. The longest such expression is taken.
pub open spec fn math_at(s: Seq<char>, i: int) -> Option<(TokenView, int)> {
    if s[i] == '$' {
        match close_at(s, i, i + 1, '$', false) {
            Some(k) => Some((TokenView::MathExpr(unescaped(s, i + 1, k, '$')), k + 1)),
            None => None,
        }
    } else {
        None
    }
}

/// A bracketed name at `i`: `open`, one character or more of `body`, and `close`.
pub open spec fn bracketed_at(s: Seq<char>, i: int, open: char, body: CharClass, close: char) -> Option<
    (Seq<char>, int),
> {
    let end = run_end(s, i + 1, body);
    if s[i] == open && i + 1 < end && end < s.len() && s[end] == close {
        Some((s.subrange(i + 1, end), end + 1))
    } else {
        None
    }
}

/// A heading marker at `i`: one `#` or more, and a space.
pub open spec fn heading_at(s: Seq<char>, i: int) -> Option<(TokenView, int)> {
    let end = run_end(s, i, CharClass::Hash);
    if s[i] == '#' && end < s.len() && s[end] == ' ' {
        Some((TokenView::Heading((end - i) as nat), end + 1))
    } else {
        None
    }
}

/// A line feed at `i`, together with the blanks that follow it.
pub open spec fn newline_at(s: Seq<char>, i: int) -> Option<(TokenView, int)> {
    let end = run_end(s, i + 1, CharClass::Blank);
    if s[i] == '\n' {
        Some((TokenView::NewLine(clamp(indent_width(s, i + 1, end))), end))
    } else {
        None
    }
}

/// A link at `i`: a name between `[` and `]` and, directly after it, an address between
/// `(` and `)`, each of one character or more on one line. The result holds the name, the
/// address, where the name ends and where the address ends.
pub open spec fn link_at(s: Seq<char>, i: int) -> Option<(Seq<char>, Seq<char>, int, int)> {
    match bracketed_at(s, i, '[', CharClass::LinkNameBody, ']') {
        Some((name, mid)) => if mid < s.len() {
            match bracketed_at(s, mid, '(', CharClass::LinkUrlBody, ')') {
                Some((url, end)) => Some((name, url, mid, end)),
                None => None,
            }
        } else {
            None
        },
        None => None,
    }
}

/// A link holds at least one character in its name and one in its address, and ends
/// within the text.
pub proof fn lemma_link_span(s: Seq<char>, i: int)
    requires
        0 <= i < s.len(),
    ensures
        link_at(s, i) matches Some((_, _, mid, end)) ==> i < mid < end <= s.len(),
{
    lemma_run_end(s, i + 1, CharClass::LinkNameBody);
    match bracketed_at(s, i, '[', CharClass::LinkNameBody, ']') {
        Some((_, mid)) => {
            if mid < s.len() {
                lemma_run_end(s, mid + 1, CharClass::LinkUrlBody);
            }
        },
        None => {},
    }
}

/// The construct of the markup, other than a link, that starts at `i`, and where it ends,
/// if one does. A backslash with a character after it always escapes that character; of
/// two constructs that start with the same characters, the longer one is taken.
pub open spec fn construct_at(s: Seq<char>, i: int) -> Option<(TokenView, int)> {
    let c = s[i];
    if c == '\\' {
        if i + 1 < s.len() {
            Some((TokenView::Escape(s[i + 1]), i + 2))
        } else {
            None
        }
    } else if c == '*' {
        if i + 1 < s.len() && s[i + 1] == '*' {
            Some((TokenView::Bold, i + 2))
        } else {
            Some((TokenView::Italic, i + 1))
        }
    } else if c == '~' {
        if i + 1 < s.len() && s[i + 1] == '~' {
            Some((TokenView::Strike, i + 2))
        } else {
            None
        }
    } else if c == '`' {
        if code_block_at(s, i) is Some {
            code_block_at(s, i)
        } else {
            inline_code_at(s, i)
        }
    } else if c == '-' {
        Some((TokenView::DotList, i + 1))
    } else if c == '>' {
        Some((TokenView::BlockQuote, i + 1))
    } else if c == '!' {
        if text_block_at(s, i) is Some {
            text_block_at(s, i)
        } else {
            Some((TokenView::Bang, i + 1))
        }
    } else if c == '#' {
        heading_at(s, i)
    } else if c == '$' {
        math_at(s, i)
    } else if c == ':' {
        match bracketed_at(s, i, ':', CharClass::EmojiName, ':') {
            Some((name, end)) => Some((TokenView::Emoji(name), end)),
            None => None,
        }
    } else if c == '\n' {
        newline_at(s, i)
    } else {
        None
    }
}

/// The token that starts at `i`, where no link does, and where it ends. Where no construct
/// of the markup starts at `i`, the token is plain text: the character at `i` and the run
/// of plain characters after it. So a bracket or a parenthesis that is no part of a link
/// is plain text.
pub open spec fn token_at(s: Seq<char>, i: int) -> (TokenView, int) {
    match construct_at(s, i) {
        Some(found) => found,
        None => {
            let end = run_end(s, i + 1, CharClass::Plain);
            (TokenView::Text(s.subrange(i, end)), end)
        },
    }
}

/// Every token holds at least one character and ends within the text.
pub proof fn lemma_token_span(s: Seq<char>, i: int)
    requires
        0 <= i < s.len(),
    ensures
        i < token_at(s, i).1 <= s.len(),
{
    lemma_run_end(s, i + 1, CharClass::Plain);
    lemma_run_end(s, i + 1, CharClass::Blank);
    lemma_run_end(s, i, CharClass::Hash);
    lemma_run_end(s, i + 1, CharClass::EmojiName);
    lemma_close_at(s, i, i + 1, '`', true);
    lemma_close_at(s, i, i + 1, '$', false);
    lemma_close_at(s, i + 1, i + 2, '}', false);
    if i + 3 <= s.len() {
        lemma_run_end(s, i + 3, CharClass::NotNewline);
        let eol = run_end(s, i + 3, CharClass::NotNewline);
        if eol < s.len() {
            lemma_run_end(s, eol + 1, CharClass::NotBacktick);
        }
    }
}

/// The tokens of `s` from `i` on: the name and the address of the link at `i`, or else the
/// token at `i`; then the tokens from their end on. The name and the address of a link
/// are tokens only together, the address directly after the name.
pub open spec fn lex_from(s: Seq<char>, i: int) -> Seq<TokenView>
    decreases s.len() - i,
    via lex_from_decreases
{
    if 0 <= i < s.len() {
        match link_at(s, i) {
            Some((name, url, _, end)) => seq![TokenView::LinkName(name), TokenView::LinkURL(url)]
                + lex_from(s, end),
            None => seq![token_at(s, i).0] + lex_from(s, token_at(s, i).1),
        }
    } else {
        Seq::empty()
    }
}

#[via_fn]
proof fn lex_from_decreases(s: Seq<char>, i: int) {
    if 0 <= i < s.len() {
        lemma_token_span(s, i);
        lemma_link_span(s, i);
    }
}

/// The tokens of a text.
pub open spec fn lex(s: Seq<char>) -> Seq<TokenView> {
    lex_from(s, 0)
}

/// Where the tokens of `s` from `i` on end, each where the next starts.
pub open spec fn ends_from(s: Seq<char>, i: int) -> Seq<int>
    decreases s.len() - i,
    via ends_from_decreases
{
    if 0 <= i < s.len() {
        match link_at(s, i) {
            Some((_, _, mid, end)) => seq![mid, end] + ends_from(s, end),
            None => seq![token_at(s, i).1] + ends_from(s, token_at(s, i).1),
        }
    } else {
        Seq::empty()
    }
}

#[via_fn]
proof fn ends_from_decreases(s: Seq<char>, i: int) {
    if 0 <= i < s.len() {
        lemma_token_span(s, i);
        lemma_link_span(s, i);
    }
}

/// The tokens of a text cover it: there is an end for each token, the ends go up from
/// token to token, each token holds at least one character, and the last token ends where
/// the text ends. So a text has tokens unless it is empty, and never more tokens than
/// characters.
pub proof fn lemma_tokens_cover(s: Seq<char>, i: int)
    requires
        0 <= i <= s.len(),
    ensures
        ends_from(s, i).len() == lex_from(s, i).len(),
        lex_from(s, i).len() <= s.len() - i,
        i < s.len() ==> lex_from(s, i).len() > 0 && ends_from(s, i).last() == s.len(),
        forall|k: int|
            0 <= k < ends_from(s, i).len() ==> i + k < #[trigger] ends_from(s, i)[k] <= s.len(),
        forall|k: int, l: int|
            0 <= k < l < ends_from(s, i).len() ==> ends_from(s, i)[k] < ends_from(s, i)[l],
    decreases s.len() - i,
{
    if i < s.len() {
        lemma_token_span(s, i);
        lemma_link_span(s, i);
        let ends = ends_from(s, i);
        match link_at(s, i) {
            Some((_, _, mid, end)) => {
                lemma_tokens_cover(s, end);
                let rest = ends_from(s, end);
                assert(ends == seq![mid, end] + rest);
                assert forall|k: int| 0 <= k < ends.len() implies i + k < #[trigger] ends[k]
                    <= s.len() by {
                    if k > 1 {
                        assert(ends[k] == rest[k - 2]);
                    }
                }
                assert forall|k: int, l: int| 0 <= k < l < ends.len() implies ends[k] < ends[l] by {
                    if l > 1 {
                        assert(ends[l] == rest[l - 2]);
                    }
                    if k > 1 {
                        assert(ends[k] == rest[k - 2]);
                    }
                }
                if end < s.len() {
                    assert(ends.last() == rest.last());
                }
            },
            None => {
                let end = token_at(s, i).1;
                lemma_tokens_cover(s, end);
                let rest = ends_from(s, end);
                assert(ends == seq![end] + rest);
                assert forall|k: int| 0 <= k < ends.len() implies i + k < #[trigger] ends[k]
                    <= s.len() by {
                    if k > 0 {
                        assert(ends[k] == rest[k - 1]);
                    }
                }
                assert forall|k: int, l: int| 0 <= k < l < ends.len() implies ends[k] < ends[l] by {
                    assert(ends[l] == rest[l - 1]);
                    if k > 0 {
                        assert(ends[k] == rest[k - 1]);
                    }
                }
                if end < s.len() {
                    assert(ends.last() == rest.last());
                }
            },
        }
    }
}

/// True of tokens among which the name and the address of a link stand only together:
/// an address directly after a name, and a name directly before an address.
pub open spec fn links_paired(tokens: Seq<TokenView>) -> bool {
    &&& forall|k: int|
        0 <= k < tokens.len() && #[trigger] tokens[k] is LinkURL ==> k > 0 && tokens[k - 1] is LinkName
    &&& forall|k: int|
        0 <= k < tokens.len() && #[trigger] tokens[k] is LinkName ==> k + 1 < tokens.len()
            && tokens[k + 1] is LinkURL
}

/// The name and the address of a link stand together: among the tokens of a text an
/// address stands only directly after a name, and a name only directly before an address.
pub proof fn lemma_links_pair(s: Seq<char>, i: int)
    requires
        0 <= i <= s.len(),
    ensures
        links_paired(lex_from(s, i)),
    decreases s.len() - i,
{
    if i < s.len() {
        lemma_token_span(s, i);
        lemma_link_span(s, i);
        let tokens = lex_from(s, i);
        match link_at(s, i) {
            Some((name, url, _, end)) => {
                lemma_links_pair(s, end);
                let rest = lex_from(s, end);
                assert(tokens == seq![TokenView::LinkName(name), TokenView::LinkURL(url)] + rest);
                assert forall|k: int| 0 <= k < tokens.len() && #[trigger] tokens[k] is LinkURL implies k
                    > 0 && tokens[k - 1] is LinkName by {
                    if k > 1 {
                        assert(tokens[k] == rest[k - 2]);
                        assert(rest[k - 2] is LinkURL);
                        if k > 2 {
                            assert(tokens[k - 1] == rest[k - 3]);
                        }
                    }
                }
                assert forall|k: int| 0 <= k < tokens.len() && #[trigger] tokens[k] is LinkName implies k
                    + 1 < tokens.len() && tokens[k + 1] is LinkURL by {
                    if k > 1 {
                        assert(tokens[k] == rest[k - 2]);
                        assert(rest[k - 2] is LinkName);
                        assert(tokens[k + 1] == rest[k - 1]);
                    }
                }
            },
            None => {
                let end = token_at(s, i).1;
                lemma_links_pair(s, end);
                let rest = lex_from(s, end);
                assert(tokens == seq![token_at(s, i).0] + rest);
                assert forall|k: int| 0 <= k < tokens.len() && #[trigger] tokens[k] is LinkURL implies k
                    > 0 && tokens[k - 1] is LinkName by {
                    if k > 0 {
                        assert(tokens[k] == rest[k - 1]);
                        assert(rest[k - 1] is LinkURL);
                        if k > 1 {
                            assert(tokens[k - 1] == rest[k - 2]);
                        }
                    }
                }
                assert forall|k: int| 0 <= k < tokens.len() && #[trigger] tokens[k] is LinkName implies k
                    + 1 < tokens.len() && tokens[k + 1] is LinkURL by {
                    if k > 0 {
                        assert(tokens[k] == rest[k - 1]);
                        assert(rest[k - 1] is LinkName);
                        assert(tokens[k + 1] == rest[k]);
                    }
                }
            },
        }
    }
}

/// A text without `$` has no mathematical expression among its tokens.
pub proof fn lemma_math_needs_dollar(s: Seq<char>, i: int)
    requires
        0 <= i <= s.len(),
        forall|k: int| 0 <= k < s.len() ==> s[k] != '$',
    ensures
        forall|k: int| 0 <= k < lex_from(s, i).len() ==> !(#[trigger] lex_from(s, i)[k] is MathExpr),
    decreases s.len() - i,
{
    if i < s.len() {
        lemma_token_span(s, i);
        lemma_link_span(s, i);
        let tokens = lex_from(s, i);
        match link_at(s, i) {
            Some((name, url, _, end)) => {
                lemma_math_needs_dollar(s, end);
                let rest = lex_from(s, end);
                assert forall|k: int| 0 <= k < tokens.len() implies !(#[trigger] tokens[k] is MathExpr) by {
                    if k > 1 {
                        assert(tokens[k] == rest[k - 2]);
                    }
                }
            },
            None => {
                let end = token_at(s, i).1;
                lemma_math_needs_dollar(s, end);
                let rest = lex_from(s, end);
                assert(!(token_at(s, i).0 is MathExpr));
                assert forall|k: int| 0 <= k < tokens.len() implies !(#[trigger] tokens[k] is MathExpr) by {
                    if k > 0 {
                        assert(tokens[k] == rest[k - 1]);
                    }
                }
            },
        }
    }
}

/// Takes the escaping backslashes out of `chars[from..to]`.
fn unescape(chars: &Vec<char>, from: usize, to: usize, delim: char) -> (out: String)
    requires
        from <= to <= chars.len(),
    ensures
        out@ == unescaped(chars@, from as int, to as int, delim),
{
    let mut out = String::new();
    let mut j: usize = from;
    while j < to
        invariant
            from <= j <= to <= chars.len(),
            unescaped(chars@, from as int, to as int, delim) == out@ + unescaped(
                chars@,
                j as int,
                to as int,
                delim,
            ),
        decreases to - j,
    {
        let ghost before = out@;
        if chars[j] == '\\' && to - j > 1 && chars[j + 1] == delim {
            out.push(delim);
            assert(before + (seq![delim] + unescaped(chars@, j + 2, to as int, delim)) == out@
                + unescaped(chars@, j + 2, to as int, delim));
            j += 2;
        } else {
            out.push(chars[j]);
            assert(before + (seq![chars@[j as int]] + unescaped(chars@, j + 1, to as int, delim))
                == out@ + unescaped(chars@, j + 1, to as int, delim));
            j += 1;
        }
    }
    out
}

/// Measures the blanks `chars[from..to]`.
fn blank_width(chars: &Vec<char>, from: usize, to: usize) -> (width: usize)
    requires
        from <= to <= chars.len(),
    ensures
        width == clamp(indent_width(chars@, from as int, to as int)),
{
    let mut width: usize = 0;
    let mut j: usize = from;
    while j < to
        invariant
            from <= j <= to <= chars.len(),
            width == clamp(indent_width(chars@, from as int, j as int)),
        decreases to - j,
    {
        let step: usize = if chars[j] == '\t' {
            4
        } else {
            1
        };
        width = if width <= usize::MAX - step {
            width + step
        } else {
            usize::MAX
        };
        j += 1;
    }
    width
}

/// Reads a bracketed name at `i`.
fn lex_bracketed(chars: &Vec<char>, i: usize, open: char, body: CharClass, close: char) -> (r:
    Option<(String, usize)>)
    requires
        i < chars.len(),
    ensures
        match r {
            Some((name, end)) => bracketed_at(chars@, i as int, open, body, close) == Some(
                (name@, end as int),
            ) && i < end <= chars.len(),
            None => bracketed_at(chars@, i as int, open, body, close) is None,
        },
{
    if chars[i] != open {
        return None;
    }
    let end = scan_run(chars, i + 1, body);
    if i + 1 < end && end < chars.len() && chars[end] == close {
        Some((string_of(chars, i + 1, end), end + 1))
    } else {
        None
    }
}

/// Reads a fenced code block at `i`.
fn lex_code_block(chars: &Vec<char>, i: usize) -> (r: Option<(Token, usize)>)
    requires
        i < chars.len(),
    ensures
        match r {
            Some((token, end)) => code_block_at(chars@, i as int) == Some((token@, end as int)) && i
                < end <= chars.len(),
            None => code_block_at(chars@, i as int) is None,
        },
{
    let len = chars.len();
    if !(len - i > 2 && chars[i] == '`' && chars[i + 1] == '`' && chars[i + 2] == '`') {
        return None;
    }
    let eol = scan_run(chars, i + 3, CharClass::NotNewline);
    if eol >= len {
        return None;
    }
    let end = scan_run(chars, eol + 1, CharClass::NotBacktick);
    if end < len && len - end > 2 && chars[end] == '`' && chars[end + 1] == '`' && chars[end + 2]
        == '`' {
        let lang = string_of(chars, i + 3, eol);
        let body = string_of(chars, eol + 1, end);
        Some((Token::CodeBlock((lang, body)), end + 3))
    } else {
        None
    }
}

/// Reads the construct of the markup that starts at `i`, if one does.
fn lex_construct(chars: &Vec<char>, i: usize) -> (r: Option<(Token, usize)>)
    requires
        i < chars.len(),
    ensures
        match r {
            Some((token, end)) => construct_at(chars@, i as int) == Some((token@, end as int)) && i
                < end <= chars.len(),
            None => construct_at(chars@, i as int) is None,
        },
{
    let len = chars.len();
    let c = chars[i];
    if c == '\\' {
        if len - i > 1 {
            Some((Token::Escape(chars[i + 1]), i + 2))
        } else {
            None
        }
    } else if c == '*' {
        if len - i > 1 && chars[i + 1] == '*' {
            Some((Token::Bold, i + 2))
        } else {
            Some((Token::Italic, i + 1))
        }
    } else if c == '~' {
        if len - i > 1 && chars[i + 1] == '~' {
            Some((Token::Strike, i + 2))
        } else {
            None
        }
    } else if c == '`' {
        match lex_code_block(chars, i) {
            Some(found) => Some(found),
            None => match scan_close(chars, i, i + 1, '`', true) {
                Some(k) => Some((Token::InlineCode(string_of(chars, i + 1, k)), k + 1)),
                None => None,
            },
        }
    } else if c == '-' {
        Some((Token::DotList, i + 1))
    } else if c == '>' {
        Some((Token::BlockQuote, i + 1))
    } else if c == '!' {
        if len - i > 2 && chars[i + 1] == '{' && chars[i + 2] != '}' {
            match scan_close(chars, i + 1, i + 2, '}', false) {
                Some(k) => Some((Token::TextBlock(unescape(chars, i + 2, k, '}')), k + 1)),
                None => Some((Token::Bang, i + 1)),
            }
        } else {
            Some((Token::Bang, i + 1))
        }
    } else if c == '#' {
        let end = scan_run(chars, i, CharClass::Hash);
        if end < len && chars[end] == ' ' {
            Some((Token::Heading(end - i), end + 1))
        } else {
            None
        }
    } else if c == '$' {
        match scan_close(chars, i, i + 1, '$', false) {
            Some(k) => Some((Token::MathExpr(unescape(chars, i + 1, k, '$')), k + 1)),
            None => None,
        }
    } else if c == ':' {
        match lex_bracketed(chars, i, ':', CharClass::EmojiName, ':') {
            Some((name, end)) => Some((Token::Emoji(name), end)),
            None => None,
        }
    } else if c == '\n' {
        let end = scan_run(chars, i + 1, CharClass::Blank);
        Some((Token::NewLine(blank_width(chars, i + 1, end)), end))
    } else {
        None
    }
}

/// Reads the link that starts at `i`, if one does: its name, its address and its end.
fn lex_link(chars: &Vec<char>, i: usize) -> (r: Option<(String, String, usize)>)
    requires
        i < chars.len(),
    ensures
        match r {
            Some((name, url, end)) => link_at(chars@, i as int) matches Some((n, u, _, e)) && n
                == name@ && u == url@ && e == end && i < end <= chars.len(),
            None => link_at(chars@, i as int) is None,
        },
{
    match lex_bracketed(chars, i, '[', CharClass::LinkNameBody, ']') {
        Some((name, mid)) => {
            if mid < chars.len() {
                match lex_bracketed(chars, mid, '(', CharClass::LinkUrlBody, ')') {
                    Some((url, end)) => Some((name, url, end)),
                    None => None,
                }
            } else {
                None
            }
        },
        None => None,
    }
}

/// Reads the token that starts at `i`.
fn lex_token(chars: &Vec<char>, i: usize) -> (r: (Token, usize))
    requires
        i < chars.len(),
    ensures
        (r.0@, r.1 as int) == token_at(chars@, i as int),
        i < r.1 <= chars.len(),
{
    match lex_construct(chars, i) {
        Some(found) => found,
        None => {
            let end = scan_run(chars, i + 1, CharClass::Plain);
            (Token::Text(string_of(chars, i, end)), end)
        },
    }
}

/// Splits a text into its tokens. Every text has tokens: a character that starts no
/// construct of the markup is plain text. The tokens follow one another without a gap, from
/// the first character of the text to its last. The name and the address of a link are
/// tokens only as a pair; a bracket or a parenthesis that is no part of a link is plain
/// text.
pub fn tokenize(text: &str) -> (tokens: Vec<Token>)
    ensures
        views(tokens@) == lex(text@),
        links_paired(views(tokens@)),
{
    proof {
        lemma_links_pair(text@, 0);
    }
    let chars = chars_of(text);
    let mut tokens: Vec<Token> = Vec::new();
    let mut i: usize = 0;
    while i < chars.len()
        invariant
            i <= chars.len(),
            chars@ == text@,
            lex(chars@) == views(tokens@) + lex_from(chars@, i as int),
        decreases chars.len() - i,
    {
        let ghost before = views(tokens@);
        match lex_link(&chars, i) {
            Some((name, url, end)) => {
                let ghost pair = seq![TokenView::LinkName(name@), TokenView::LinkURL(url@)];
                tokens.push(Token::LinkName(name));
                tokens.push(Token::LinkURL(url));
                assert(views(tokens@) == before + pair);
                assert(before + (pair + lex_from(chars@, end as int)) == views(tokens@) + lex_from(
                    chars@,
                    end as int,
                ));
                i = end;
            },
            None => {
                let (token, end) = lex_token(&chars, i);
                tokens.push(token);
                assert(views(tokens@) == before + seq![token@]);
                assert(before + (seq![token@] + lex_from(chars@, end as int)) == views(tokens@)
                    + lex_from(chars@, end as int));
                i = end;
            },
        }
    }
    tokens
}

} // verus!
