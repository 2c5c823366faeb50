use crate::bindings::{
    clone_ini, ini_error_text, ini_get, ini_parsed, ini_sections, ini_value, parse_ini,
};
use crate::markdown::laws::{lemma_math_suffices, lemma_paired_links_render};
use crate::markdown::lexer::{lemma_links_pair, lex, tokenize, views, Token, TokenView};
use crate::markdown::render::{html_of, render, RenderError};
use crate::markdown::renderer::render_tokens;
use crate::placeholder::{
    filled, placeholder_process, PlaceholderError, PlaceholderErrorView,
};
use crate::text::{chars_of, texts};
use vstd::prelude::*;

verus! {

/// What one character becomes in HTML text: the three characters of the markup are
/// written as entities, and a space as a non-breaking space.
pub open spec fn escaped_char(c: char) -> Seq<char> {
    if c == '&' {
        "&amp;"@
    } else if c == '<' {
        "&lt;"@
    } else if c == '>' {
        "&gt;"@
    } else if c == ' ' {
        "&nbsp;"@
    } else {
        seq![c]
    }
}

/// A text with each of its characters escaped.
pub open spec fn sanitized(s: Seq<char>) -> Seq<char>
    decreases s.len(),
{
    if s.len() == 0 {
        Seq::empty()
    } else {
        sanitized(s.drop_last()) + escaped_char(s.last())
    }
}

/// True of a text in which nothing needs escaping.
pub open spec fn is_safe(s: Seq<char>) -> bool {
    forall|i: int| 0 <= i < s.len() ==> s[i] != '&' && s[i] != '<' && s[i] != '>' && s[i] != ' '
}

/// Escapes `chars[from..to]` onto the end of `out`.
pub(crate) fn push_sanitized(out: &mut String, chars: &Vec<char>, from: usize, to: usize)
    requires
        from <= to <= chars.len(),
    ensures
        final(out)@ == old(out)@ + sanitized(chars@.subrange(from as int, to as int)),
{
    let mut j: usize = from;
    assert(chars@.subrange(from as int, from as int) == Seq::<char>::empty());
    while j < to
        invariant
            from <= j <= to <= chars.len(),
            out@ == old(out)@ + sanitized(chars@.subrange(from as int, j as int)),
        decreases to - j,
    {
        let c = chars[j];
        let ghost before = out@;
        assert(chars@.subrange(from as int, j + 1).drop_last() == chars@.subrange(
            from as int,
            j as int,
        ));
        if c == '&' {
            out.push_str("&amp;");
        } else if c == '<' {
            out.push_str("&lt;");
        } else if c == '>' {
            out.push_str("&gt;");
        } else if c == ' ' {
            out.push_str("&nbsp;");
        } else {
            out.push(c);
        }
        assert(out@ == before + escaped_char(c));
        j += 1;
    }
}

/// Escapes a text for HTML: `&`, `<` and `>` become entities and each space a
/// non-breaking space, so that what the author wrote shows as written.
pub fn sanitize(s: &str) -> (out: String)
    ensures
        out@ == sanitized(s@),
{
    let chars = chars_of(s);
    let mut out = String::new();
    assert(chars@.subrange(0, chars@.len() as int) == chars@);
    push_sanitized(&mut out, &chars, 0, chars.len());
    out
}

/// Escaping leaves a text in which nothing needs escaping as it is.
pub proof fn lemma_sanitized_safe(s: Seq<char>)
    requires
        is_safe(s),
    ensures
        sanitized(s) == s,
    decreases s.len(),
{
    if s.len() > 0 {
        lemma_sanitized_safe(s.drop_last());
        assert(s.drop_last().push(s.last()) == s);
    }
}

/// True of the characters that are safe in the text of a page: all but those that start
/// or end a tag, and the space.
pub open spec fn is_text_char(c: char) -> bool {
    c != '<' && c != '>' && c != ' '
}

/// What a character becomes holds only characters that are safe in text.
proof fn lemma_escaped_char_is_text(c: char)
    ensures
        forall|j: int| 0 <= j < escaped_char(c).len() ==> is_text_char(#[trigger] escaped_char(c)[j]),
{
    reveal_strlit("&amp;");
    reveal_strlit("&lt;");
    reveal_strlit("&gt;");
    reveal_strlit("&nbsp;");
}

/// Escaped text holds none of the characters that start or end a tag, and no space.
pub proof fn lemma_sanitized_is_text(s: Seq<char>)
    ensures
        forall|i: int| 0 <= i < sanitized(s).len() ==> is_text_char(#[trigger] sanitized(s)[i]),
    decreases s.len(),
{
    if s.len() > 0 {
        lemma_sanitized_is_text(s.drop_last());
        lemma_escaped_char_is_text(s.last());
        let head = sanitized(s.drop_last());
        let tail = escaped_char(s.last());
        assert forall|i: int| 0 <= i < sanitized(s).len() implies is_text_char(
            #[trigger] sanitized(s)[i],
        ) by {
            if i < head.len() {
                assert(sanitized(s)[i] == head[i]);
            } else {
                assert(sanitized(s)[i] == tail[i - head.len()]);
            }
        }
    }
}

/// A cursor over the tokens of a document: it shows the token it stands at without
/// reading it, and reads it.
pub struct Buffer {
    ts: Vec<Token>,
    ind: usize,
}

impl Buffer {
    #[verifier::type_invariant]
    spec fn in_range(&self) -> bool {
        self.ind <= self.ts.len()
    }

    /// The tokens that the cursor runs over.
    pub closed spec fn tokens(&self) -> Seq<Token> {
        self.ts@
    }

    /// The number of tokens read.
    pub closed spec fn position(&self) -> nat {
        self.ind as nat
    }

    /// A cursor at the first of `tokens`.
    pub fn new(tokens: Vec<Token>) -> (buffer: Buffer)
        ensures
            buffer.tokens() == tokens@,
            buffer.position() == 0,
    {
        Buffer { ts: tokens, ind: 0 }
    }

    /// The token that the cursor stands at, if the cursor is not at the end.
    pub fn peek(&self) -> (token: Option<&Token>)
        ensures
            self.position() <= self.tokens().len(),
            match token {
                Some(t) => self.position() < self.tokens().len() && *t == self.tokens()[
                    self.position() as int
                ],
                None => self.position() == self.tokens().len(),
            },
    {
        proof {
            use_type_invariant(self);
        }
        if self.ind < self.ts.len() {
            Some(&self.ts[self.ind])
        } else {
            None
        }
    }

    /// Reads the token that the cursor stands at, if the cursor is not at the end, and
    /// moves to the one after it.
    pub fn next(&mut self) -> (token: Option<Token>)
        ensures
            final(self).tokens() == old(self).tokens(),
            match token {
                Some(t) => old(self).position() < old(self).tokens().len() && t@ == old(
                    self,
                ).tokens()[old(self).position() as int]@ && final(self).position() == old(
                    self,
                ).position() + 1,
                None => old(self).position() == old(self).tokens().len() && final(self).position()
                    == old(self).position(),
            },
    {
        proof {
            use_type_invariant(&*self);
        }
        if self.ind < self.ts.len() {
            let token = self.ts[self.ind].clone();
            self.ind = self.ind + 1;
            Some(token)
        } else {
            None
        }
    }
}

/// Renders the tokens from the cursor on to HTML, and leaves the cursor at the end; where
/// they cannot be rendered, the cursor stays. `math` holds the markup of the mathematical
/// expressions among them, in their order.
///
/// The tokens cannot be rendered where the address of a link stands without its name, a
/// name without its address, or an expression without its markup: the error names the
/// first such token.
pub fn toks_to_html(lex: &mut Buffer, math: &Vec<String>) -> (r: Result<String, RenderError>)
    ensures
        final(lex).tokens() == old(lex).tokens(),
        match render(views(old(lex).tokens()), old(lex).position() as int, texts(math@)) {
            Ok(pieces) => r matches Ok(html) && html@ == html_of(pieces) && final(lex).position()
                == old(lex).tokens().len(),
            Err(e) => r matches Err(err) && err == e && final(lex).position() == old(
                lex,
            ).position(),
        },
{
    proof {
        use_type_invariant(&*lex);
    }
    let start = lex.ind;
    let result = render_tokens(&lex.ts, start, math);
    if result.is_ok() {
        lex.ind = lex.ts.len();
    }
    result
}

/// What the renderer of mathematics is given for an expression: the preamble of the
/// document, a line feed, and the expression.
pub open spec fn math_source(preamble: Seq<char>, expr: Seq<char>) -> Seq<char> {
    preamble + "\n"@ + expr
}

/// The sources of the mathematical expressions among `tokens`, in their order.
pub open spec fn math_requests(tokens: Seq<TokenView>, preamble: Seq<char>) -> Seq<Seq<char>>
    decreases tokens.len(),
{
    if tokens.len() == 0 {
        Seq::empty()
    } else {
        match tokens.last() {
            TokenView::MathExpr(expr) => math_requests(tokens.drop_last(), preamble).push(
                math_source(preamble, expr),
            ),
            _ => math_requests(tokens.drop_last(), preamble),
        }
    }
}

/// Collects what is to be typeset: the source of each mathematical expression among
/// `tokens`, in the order in which `toks_to_html` takes their markup.
pub fn math_sources(tokens: &Vec<Token>, preamble: &str) -> (sources: Vec<String>)
    ensures
        texts(sources@) == math_requests(views(tokens@), preamble@),
{
    let mut sources: Vec<String> = Vec::new();
    let mut i: usize = 0;
    assert(views(tokens@).take(0) == Seq::<TokenView>::empty());
    assert(texts(sources@) == Seq::<Seq<char>>::empty());
    while i < tokens.len()
        invariant
            i <= tokens.len(),
            texts(sources@) == math_requests(views(tokens@).take(i as int), preamble@),
        decreases tokens.len() - i,
    {
        let ghost had = texts(sources@);
        assert(views(tokens@).take(i + 1).drop_last() == views(tokens@).take(i as int));
        match &tokens[i] {
            Token::MathExpr(expr) => {
                let mut source = String::new();
                source.push_str(preamble);
                source.push_str("\n");
                source.push_str(expr.as_str());
                sources.push(source);
                assert(texts(sources@) == had.push(math_source(preamble@, expr@)));
            },
            _ => {},
        }
        i += 1;
    }
    assert(views(tokens@).take(tokens.len() as int) == views(tokens@));
    sources
}

/// The options of a document, or of the whole site.
#[derive(Debug)]
pub struct Opts {
    /// What is put before every mathematical expression.
    pub preamble: String,
    /// The name of the template of the page.
    pub template: String,
    /// All the options, by section and key.
    pub ini: ini::Ini,
}

/// Why options cannot be loaded.
#[derive(Debug, PartialEq, Eq)]
pub enum OptsError {
    /// The text is no list of options; the message says where the reading stopped.
    Parse(String),
    /// The text gives no preamble, and none was given beside it.
    MissingPreamble,
}

/// The value that options give a key at their top, or `default` where they give none.
pub open spec fn top_value(ini: ini::Ini, key: Seq<char>, default: Seq<char>) -> Seq<char> {
    match ini_value(ini, None, key) {
        Some(value) => value,
        None => default,
    }
}

impl Clone for Opts {
    fn clone(&self) -> (copy: Opts)
        ensures
            copy.preamble@ == self.preamble@,
            copy.template@ == self.template@,
            ini_sections(copy.ini) == ini_sections(self.ini),
    {
        Opts {
            preamble: self.preamble.clone(),
            template: self.template.clone(),
            ini: clone_ini(&self.ini),
        }
    }
}

impl Opts {
    /// The options that `ini` holds: its preamble and its template where it names them
    /// at its top, and the given ones where it does not.
    pub fn from_ini(ini: ini::Ini, preamble: &str, template: &str) -> (opts: Opts)
        ensures
            opts.ini == ini,
            opts.preamble@ == top_value(ini, "preamble"@, preamble@),
            opts.template@ == top_value(ini, "template"@, template@),
    {
        let own_preamble = match ini_get(&ini, None, "preamble") {
            Some(value) => value.to_owned(),
            None => preamble.to_owned(),
        };
        let own_template = match ini_get(&ini, None, "template") {
            Some(value) => value.to_owned(),
            None => template.to_owned(),
        };
        Opts { preamble: own_preamble, template: own_template, ini }
    }

    /// The options of a document. A document without options of its own has the global
    /// ones, `g`. Else `f` is the text of its options: the document has what the text
    /// holds, and takes the preamble and the template from `g` where the text names
    /// none at its top.
    pub fn load_ini(f: Option<String>, g: &Self) -> (r: Result<Self, OptsError>)
        ensures
            match f {
                None => r matches Ok(opts) && opts.preamble@ == g.preamble@ && opts.template@
                    == g.template@ && ini_sections(opts.ini) == ini_sections(g.ini),
                Some(text) => match ini_parsed(text@) {
                    Some(sections) => r matches Ok(opts) && ini_sections(opts.ini) == sections
                        && opts.preamble@ == top_value(opts.ini, "preamble"@, g.preamble@)
                        && opts.template@ == top_value(opts.ini, "template"@, g.template@),
                    None => r matches Err(OptsError::Parse(_)),
                },
            },
    {
        match f {
            None => Ok(g.clone()),
            Some(text) => match parse_ini(text.as_str()) {
                Ok(ini) => Ok(Opts::from_ini(ini, g.preamble.as_str(), g.template.as_str())),
                Err(e) => Err(OptsError::Parse(ini_error_text(&e))),
            },
        }
    }

    /// The global options, from their text `f`. The preamble is the one that the text
    /// names at its top, else the one given beside it; where there is neither, the
    /// options cannot be loaded. The template is the one that the text names at its top,
    /// else `default.html`.
    pub fn load_global(f: String, preamble: Option<String>) -> (r: Result<Self, OptsError>)
        ensures
            match ini_parsed(f@) {
                Some(sections) => if preamble is None && !(sections.contains_key(None)
                    && sections[None].contains_key("preamble"@)) {
                    r == Err::<Self, OptsError>(OptsError::MissingPreamble)
                } else {
                    r matches Ok(opts) && ini_sections(opts.ini) == sections && opts.preamble@
                        == top_value(
                        opts.ini,
                        "preamble"@,
                        match preamble {
                            Some(given) => given@,
                            None => Seq::empty(),
                        },
                    ) && opts.template@ == top_value(opts.ini, "template"@, "default.html"@)
                },
                None => r matches Err(OptsError::Parse(_)),
            },
    {
        match parse_ini(f.as_str()) {
            Ok(ini) => {
                match &preamble {
                    Some(given) => Ok(Opts::from_ini(ini, given.as_str(), "default.html")),
                    None => {
                        if ini_get(&ini, None, "preamble").is_none() {
                            Err(OptsError::MissingPreamble)
                        } else {
                            Ok(Opts::from_ini(ini, "", "default.html"))
                        }
                    },
                }
            },
            Err(e) => Err(OptsError::Parse(ini_error_text(&e))),
        }
    }
}

/// Why a page cannot be made.
#[derive(Debug, PartialEq, Eq)]
pub enum PageError {
    /// The document cannot be rendered.
    Render(RenderError),
    /// The template cannot be filled in.
    Placeholder(PlaceholderError),
}

/// What a `PageError` stands for.
pub enum PageErrorView {
    Render(RenderError),
    Placeholder(PlaceholderErrorView),
}

impl View for PageError {
    type V = PageErrorView;

    open spec fn view(&self) -> PageErrorView {
        match self {
            PageError::Render(e) => PageErrorView::Render(*e),
            PageError::Placeholder(e) => PageErrorView::Placeholder(e@),
        }
    }
}

/// The page of a document: the document rendered, put into the template.
pub open spec fn page_of(
    md: Seq<char>,
    tem: Seq<char>,
    ini: ini::Ini,
    gini: ini::Ini,
    math: Seq<Seq<char>>,
) -> Result<Seq<char>, PageErrorView> {
    match render(lex(md), 0, math) {
        Ok(pieces) => match filled(tem, ini, gini, html_of(pieces)) {
            Ok(page) => Ok(page),
            Err(e) => Err(PageErrorView::Placeholder(e)),
        },
        Err(e) => Err(PageErrorView::Render(e)),
    }
}

/// Makes the page of the document `md`: renders it and fills in the template `tem`, with
/// the options `opts` of the document before the global ones, `gopts`. `math` holds the
/// markup of the mathematical expressions of the document, in their order; their
/// sources are what `math_sources` gives for the tokens of the document.
///
/// Every document can be rendered: rendering fails only where `math` holds fewer markups
/// than the document has expressions. A malformed link is text of the page.
pub fn to_html(md: &str, tem: &str, opts: &Opts, gopts: &Opts, math: &Vec<String>) -> (r: Result<
    String,
    PageError,
>)
    ensures
        match page_of(md@, tem@, opts.ini, gopts.ini, texts(math@)) {
            Ok(page) => r matches Ok(text) && text@ == page,
            Err(e) => r matches Err(err) && err@ == e,
        },
        r matches Err(PageError::Render(e)) ==> e is MissingMath && math@.len() < math_requests(
            lex(md@),
            opts.preamble@,
        ).len(),
{
    proof {
        lemma_links_pair(md@, 0);
        lemma_paired_links_render(lex(md@), texts(math@));
        if math@.len() >= math_requests(lex(md@), opts.preamble@).len() {
            lemma_math_suffices(lex(md@), texts(math@), opts.preamble@);
        }
    }
    let mut buf = Buffer::new(tokenize(md));
    match toks_to_html(&mut buf, math) {
        Ok(body) => match placeholder_process(tem, &opts.ini, &gopts.ini, body.as_str()) {
            Ok(page) => Ok(page),
            Err(e) => Err(PageError::Placeholder(e)),
        },
        Err(e) => Err(PageError::Render(e)),
    }
}

} // verus!
