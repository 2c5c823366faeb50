use vstd::prelude::*;

verus! {

/// The sets of characters that the grammars of the markup and of templates are written
/// with.
#[derive(Clone, Copy, Debug)]
pub enum CharClass {
    /// Anything but a line feed.
    NotNewline,
    /// Anything but a backtick.
    NotBacktick,
    /// Anything but a line feed and `]`.
    LinkNameBody,
    /// Anything but a line feed and `)`.
    LinkUrlBody,
    /// The heading marker `#`.
    Hash,
    /// A space or a tab.
    Blank,
    /// A lower-case ASCII letter or `_`.
    EmojiName,
    /// A character that starts no markup construct.
    Plain,
    /// Anything but `{`.
    NotOpenBrace,
    /// Anything but `}`.
    NotCloseBrace,
}

/// True of the characters that may start a construct of the markup, and so end a run of
/// plain text.
pub open spec fn is_special(c: char) -> bool {
    c == '\n' || c == '*' || c == '\\' || c == '#' || c == '`' || c == '[' || c == ']' || c == '('
        || c == ')' || c == '!' || c == '>' || c == '-' || c == '$' || c == '~'
}

impl CharClass {
    /// Whether `c` belongs to the class.
    pub open spec fn contains(self, c: char) -> bool {
        match self {
            CharClass::NotNewline => c != '\n',
            CharClass::NotBacktick => c != '`',
            CharClass::LinkNameBody => c != '\n' && c != ']',
            CharClass::LinkUrlBody => c != '\n' && c != ')',
            CharClass::Hash => c == '#',
            CharClass::Blank => c == ' ' || c == '\t',
            CharClass::EmojiName => ('a' <= c && c <= 'z') || c == '_',
            CharClass::Plain => !is_special(c),
            CharClass::NotOpenBrace => c != '{',
            CharClass::NotCloseBrace => c != '}',
        }
    }

    /// Decides membership of `c` in the class.
    pub fn has(self, c: char) -> (b: bool)
        ensures
            b == self.contains(c),
    {
        match self {
            CharClass::NotNewline => c != '\n',
            CharClass::NotBacktick => c != '`',
            CharClass::LinkNameBody => c != '\n' && c != ']',
            CharClass::LinkUrlBody => c != '\n' && c != ')',
            CharClass::Hash => c == '#',
            CharClass::Blank => c == ' ' || c == '\t',
            CharClass::EmojiName => ('a' <= c && c <= 'z') || c == '_',
            CharClass::Plain => !(c == '\n' || c == '*' || c == '\\' || c == '#' || c == '`'
                || c == '[' || c == ']' || c == '(' || c == ')' || c == '!' || c == '>' || c == '-'
                || c == '$' || c == '~'),
            CharClass::NotOpenBrace => c != '{',
            CharClass::NotCloseBrace => c != '}',
        }
    }
}

/// The end of the longest run of characters of `class` that starts at `i`: the first
/// position from `i` on that holds a character outside the class, or the end of `s`.
pub open spec fn run_end(s: Seq<char>, i: int, class: CharClass) -> int
    decreases s.len() - i,
{
    if 0 <= i < s.len() && class.contains(s[i]) {
        run_end(s, i + 1, class)
    } else {
        i
    }
}

/// `run_end` stays within the text, everything before it is in the class, and the
/// character at it, if any, is not.
pub proof fn lemma_run_end(s: Seq<char>, i: int, class: CharClass)
    requires
        0 <= i <= s.len(),
    ensures
        i <= run_end(s, i, class) <= s.len(),
        forall|k: int| i <= k < run_end(s, i, class) ==> class.contains(#[trigger] s[k]),
        run_end(s, i, class) < s.len() ==> !class.contains(s[run_end(s, i, class)]),
    decreases s.len() - i,
{
    if i < s.len() && class.contains(s[i]) {
        lemma_run_end(s, i + 1, class);
    }
}

/// Scans the run of `class` that starts at `i`.
pub(crate) fn scan_run(chars: &Vec<char>, i: usize, class: CharClass) -> (e: usize)
    requires
        i <= chars.len(),
    ensures
        e == run_end(chars@, i as int, class),
        i <= e <= chars.len(),
{
    let mut j: usize = i;
    while j < chars.len() && class.has(chars[j])
        invariant
            i <= j <= chars.len(),
            run_end(chars@, i as int, class) == run_end(chars@, j as int, class),
        decreases chars.len() - j,
    {
        j += 1;
    }
    j
}

/// Where a delimited body closes. The body starts after the opener, whose last character
/// is at `opener`, and is scanned from `j`. A delimiter that directly follows a backslash
/// of the body is escaped: the body may go on past it, and does so when a later
/// delimiter closes it. With `one_line`, a line feed ends the scan. The result is the
/// position of the closing delimiter of the longest body, if there is one.
pub open spec fn close_at(s: Seq<char>, opener: int, j: int, delim: char, one_line: bool) -> Option<int>
    decreases s.len() - j,
{
    if j < 0 || j >= s.len() || (one_line && s[j] == '\n') {
        None
    } else if s[j] == delim {
        if j - 1 > opener && s[j - 1] == '\\' {
            match close_at(s, opener, j + 1, delim, one_line) {
                Some(k) => Some(k),
                None => Some(j),
            }
        } else {
            Some(j)
        }
    } else {
        close_at(s, opener, j + 1, delim, one_line)
    }
}

/// The closing delimiter lies in the text, from `j` on, and is a delimiter.
pub proof fn lemma_close_at(s: Seq<char>, opener: int, j: int, delim: char, one_line: bool)
    requires
        0 <= j,
    ensures
        close_at(s, opener, j, delim, one_line) matches Some(k) ==> j <= k < s.len() && s[k] == delim,
    decreases s.len() - j,
{
    if j < s.len() && !(one_line && s[j] == '\n') {
        lemma_close_at(s, opener, j + 1, delim, one_line);
    }
}

/// Scans for the closing delimiter of a body.
pub(crate) fn scan_close(chars: &Vec<char>, opener: usize, from: usize, delim: char, one_line: bool) -> (r:
    Option<usize>)
    requires
        opener < from <= chars.len(),
    ensures
        match r {
            Some(k) => close_at(chars@, opener as int, from as int, delim, one_line) == Some(k as int)
                && from <= k < chars.len(),
            None => close_at(chars@, opener as int, from as int, delim, one_line) is None,
        },
{
    let mut last: Option<usize> = None;
    let mut j: usize = from;
    let ghost s = chars@;
    let ghost goal = close_at(s, opener as int, from as int, delim, one_line);
    while j < chars.len()
        invariant
            opener < from <= j <= chars.len(),
            s == chars@,
            goal == close_at(s, opener as int, from as int, delim, one_line),
            last matches Some(k) ==> from <= k < j,
            goal == (match close_at(s, opener as int, j as int, delim, one_line) {
                Some(k) => Some(k),
                None => match last {
                    Some(k) => Some(k as int),
                    None => None,
                },
            }),
        decreases chars.len() - j,
    {
        let c = chars[j];
        if one_line && c == '\n' {
            return last;
        }
        if c == delim {
            if j - 1 > opener && chars[j - 1] == '\\' {
                last = Some(j);
            } else {
                return Some(j);
            }
        }
        j += 1;
    }
    last
}

} // verus!
