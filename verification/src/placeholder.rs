use crate::bindings::{ini_get, ini_value};
use crate::scan::{lemma_run_end, run_end, scan_run, CharClass};
use crate::text::{chars_of, same_text, string_of};
use vstd::prelude::*;

verus! {

/// A segment of a template.
#[derive(Debug, PartialEq, Eq)]
pub enum PlaceholderToken {
    /// The key between `{` and `}`.
    Placeholder(String),
    /// A run of text without `{`.
    Text(String),
}

/// What a `PlaceholderToken` stands for.
pub enum PlaceholderTokenView {
    Placeholder(Seq<char>),
    Text(Seq<char>),
}

impl View for PlaceholderToken {
    type V = PlaceholderTokenView;

    open spec fn view(&self) -> PlaceholderTokenView {
        match self {
            PlaceholderToken::Placeholder(key) => PlaceholderTokenView::Placeholder(key@),
            PlaceholderToken::Text(text) => PlaceholderTokenView::Text(text@),
        }
    }
}

/// Why a template cannot be filled in.
#[derive(Debug, PartialEq, Eq)]
pub enum PlaceholderError {
    /// No section of this name.
    CannotFindSection(String),
    /// Neither the local nor the global options hold this key in this section. The
    /// section without a name is called `root`.
    CannotFindKey(String, String),
    /// The `{` at this index, counted in characters, opens no placeholder: no `}` follows
    /// it, or nothing stands between the two.
    Malformed(usize),
}

/// What a `PlaceholderError` stands for.
pub enum PlaceholderErrorView {
    CannotFindSection(Seq<char>),
    CannotFindKey(Seq<char>, Seq<char>),
    Malformed(nat),
}

impl View for PlaceholderError {
    type V = PlaceholderErrorView;

    open spec fn view(&self) -> PlaceholderErrorView {
        match self {
            PlaceholderError::CannotFindSection(section) => PlaceholderErrorView::CannotFindSection(
                section@,
            ),
            PlaceholderError::CannotFindKey(section, key) => PlaceholderErrorView::CannotFindKey(
                section@,
                key@,
            ),
            PlaceholderError::Malformed(at) => PlaceholderErrorView::Malformed(*at as nat),
        }
    }
}

/// The segment of the template that starts at `i`, and where it ends: a placeholder is
/// `{`, a key of one character or more without `}`, and `}`; text runs up to the next `{`.
/// A `{` that opens no placeholder starts no segment.
pub open spec fn segment_at(s: Seq<char>, i: int) -> Option<(PlaceholderTokenView, int)> {
    if s[i] == '{' {
        let end = run_end(s, i + 1, CharClass::NotCloseBrace);
        if i + 1 < end && end < s.len() {
            Some((PlaceholderTokenView::Placeholder(s.subrange(i + 1, end)), end + 1))
        } else {
            None
        }
    } else {
        let end = run_end(s, i, CharClass::NotOpenBrace);
        Some((PlaceholderTokenView::Text(s.subrange(i, end)), end))
    }
}

/// Every segment holds at least one character and ends within the template.
pub proof fn lemma_segment_span(s: Seq<char>, i: int)
    requires
        0 <= i < s.len(),
    ensures
        segment_at(s, i) matches Some((_, end)) ==> i < end <= s.len(),
{
    lemma_run_end(s, i + 1, CharClass::NotCloseBrace);
    lemma_run_end(s, i, CharClass::NotOpenBrace);
}

/// The index of the last `.` of `key`, or -1 where it holds none.
pub open spec fn last_dot(key: Seq<char>) -> int
    decreases key.len(),
{
    if key.len() == 0 {
        -1
    } else if key.last() == '.' {
        key.len() - 1
    } else {
        last_dot(key.drop_last())
    }
}

/// The section that a key names: what stands before its last `.`, or none where it
/// holds no `.`.
pub open spec fn key_section(key: Seq<char>) -> Option<Seq<char>> {
    if last_dot(key) < 0 {
        None
    } else {
        Some(key.subrange(0, last_dot(key)))
    }
}

/// The name of a key within its section: what stands after its last `.`.
pub open spec fn key_name(key: Seq<char>) -> Seq<char> {
    key.subrange(last_dot(key) + 1, key.len() as int)
}

/// The name by which an error calls a section.
pub open spec fn section_label(section: Option<Seq<char>>) -> Seq<char> {
    match section {
        Some(name) => name,
        None => "root"@,
    }
}

/// The value of a key that the local options give `local` and the global options
/// `global`: the local value where there is one, else the global one; where there is
/// neither, the error that names the section and the key.
pub open spec fn chosen(
    local: Option<Seq<char>>,
    global: Option<Seq<char>>,
    section: Option<Seq<char>>,
    name: Seq<char>,
) -> Result<Seq<char>, PlaceholderErrorView> {
    match local {
        Some(value) => Ok(value),
        None => match global {
            Some(value) => Ok(value),
            None => Err(PlaceholderErrorView::CannotFindKey(section_label(section), name)),
        },
    }
}

/// What stands in place of the placeholder `key`: the body of the page for the key
/// `body`, and for any other key its value in the section it names.
pub open spec fn resolved(key: Seq<char>, ini: ini::Ini, gini: ini::Ini, body: Seq<char>) -> Result<
    Seq<char>,
    PlaceholderErrorView,
> {
    if key == "body"@ {
        Ok(body)
    } else {
        chosen(
            ini_value(ini, key_section(key), key_name(key)),
            ini_value(gini, key_section(key), key_name(key)),
            key_section(key),
            key_name(key),
        )
    }
}

/// `text` before what `rest` holds, or the error that `rest` is.
pub open spec fn followed(text: Seq<char>, rest: Result<Seq<char>, PlaceholderErrorView>) -> Result<
    Seq<char>,
    PlaceholderErrorView,
> {
    match rest {
        Ok(more) => Ok(text + more),
        Err(e) => Err(e),
    }
}

/// The template from `i` on with its placeholders filled in, segment by segment; or the
/// first error met on the way.
pub open spec fn filled_from(s: Seq<char>, i: int, ini: ini::Ini, gini: ini::Ini, body: Seq<char>) -> Result<
    Seq<char>,
    PlaceholderErrorView,
>
    decreases s.len() - i,
    via filled_from_decreases
{
    if 0 <= i < s.len() {
        match segment_at(s, i) {
            Some((PlaceholderTokenView::Text(text), end)) => followed(
                text,
                filled_from(s, end, ini, gini, body),
            ),
            Some((PlaceholderTokenView::Placeholder(key), end)) => match resolved(
                key,
                ini,
                gini,
                body,
            ) {
                Ok(value) => followed(value, filled_from(s, end, ini, gini, body)),
                Err(e) => Err(e),
            },
            None => Err(PlaceholderErrorView::Malformed(i as nat)),
        }
    } else {
        Ok(Seq::empty())
    }
}

#[via_fn]
proof fn filled_from_decreases(s: Seq<char>, i: int, ini: ini::Ini, gini: ini::Ini, body: Seq<char>) {
    if 0 <= i < s.len() {
        lemma_segment_span(s, i);
    }
}

/// A template with its placeholders filled in.
pub open spec fn filled(template: Seq<char>, ini: ini::Ini, gini: ini::Ini, body: Seq<char>) -> Result<
    Seq<char>,
    PlaceholderErrorView,
> {
    filled_from(template, 0, ini, gini, body)
}

/// Reads the segment of the template that starts at `i`, if one does.
fn next_segment(chars: &Vec<char>, i: usize) -> (r: Option<(PlaceholderToken, usize)>)
    requires
        i < chars.len(),
    ensures
        match r {
            Some((token, end)) => segment_at(chars@, i as int) == Some((token@, end as int)) && i
                < end <= chars.len(),
            None => segment_at(chars@, i as int) is None,
        },
{
    proof {
        lemma_segment_span(chars@, i as int);
    }
    if chars[i] == '{' {
        let end = scan_run(chars, i + 1, CharClass::NotCloseBrace);
        if i + 1 < end && end < chars.len() {
            Some((PlaceholderToken::Placeholder(string_of(chars, i + 1, end)), end + 1))
        } else {
            None
        }
    } else {
        let end = scan_run(chars, i, CharClass::NotOpenBrace);
        Some((PlaceholderToken::Text(string_of(chars, i, end)), end))
    }
}

/// Splits a key at its last `.` into the section it names, if it names one, and its name
/// within the section.
pub fn split_key(key: &str) -> (r: (Option<String>, String))
    ensures
        match r.0 {
            Some(section) => key_section(key@) == Some(section@),
            None => key_section(key@) is None,
        },
        r.1@ == key_name(key@),
{
    let chars = chars_of(key);
    let mut j: usize = chars.len();
    assert(chars@.take(j as int) == chars@);
    while j > 0 && chars[j - 1] != '.'
        invariant
            j <= chars.len(),
            last_dot(chars@) == last_dot(chars@.take(j as int)),
        decreases j,
    {
        assert(chars@.take(j as int).drop_last() == chars@.take(j - 1));
        j -= 1;
    }
    if j == 0 {
        (None, string_of(&chars, 0, chars.len()))
    } else {
        (Some(string_of(&chars, 0, j - 1)), string_of(&chars, j, chars.len()))
    }
}

/// Chooses the value of a key from what the local and the global options hold for it:
/// the local value wins over the global one, and a key that neither holds is an error
/// that names its section and itself.
pub fn resolve(local: Option<&str>, global: Option<&str>, section: Option<&str>, name: &str) -> (r: Result<
    String,
    PlaceholderError,
>)
    ensures
        match chosen(
            match local {
                Some(value) => Some(value@),
                None => None,
            },
            match global {
                Some(value) => Some(value@),
                None => None,
            },
            match section {
                Some(label) => Some(label@),
                None => None,
            },
            name@,
        ) {
            Ok(value) => r matches Ok(text) && text@ == value,
            Err(e) => r matches Err(err) && err@ == e,
        },
{
    match local {
        Some(value) => Ok(value.to_owned()),
        None => match global {
            Some(value) => Ok(value.to_owned()),
            None => {
                let label = match section {
                    Some(label) => label.to_owned(),
                    None => "root".to_owned(),
                };
                Err(PlaceholderError::CannotFindKey(label, name.to_owned()))
            },
        },
    }
}

/// Fills in one placeholder.
fn resolve_key(key: &str, ini: &ini::Ini, gini: &ini::Ini, body: &str) -> (r: Result<String, PlaceholderError>)
    ensures
        match resolved(key@, *ini, *gini, body@) {
            Ok(value) => r matches Ok(text) && text@ == value,
            Err(e) => r matches Err(err) && err@ == e,
        },
{
    if same_text(key, "body") {
        return Ok(body.to_owned());
    }
    let (section, name) = split_key(key);
    match &section {
        Some(label) => {
            let local = ini_get(ini, Some(label.as_str()), name.as_str());
            let global = ini_get(gini, Some(label.as_str()), name.as_str());
            resolve(local, global, Some(label.as_str()), name.as_str())
        },
        None => {
            let local = ini_get(ini, None, name.as_str());
            let global = ini_get(gini, None, name.as_str());
            resolve(local, global, None, name.as_str())
        },
    }
}

/// Fills in a template: the text of the template stays, `{body}` becomes `body` as it
/// is, and any other `{key}` or `{section.key}` becomes the value of the key, looked up
/// in the local options `ini` first and in the global options `gini` after them. A value
/// put in is not read for placeholders again.
///
/// The first placeholder that cannot be filled in, or the first `{` that opens no
/// placeholder, is the error.
pub fn placeholder_process(tem: &str, ini: &ini::Ini, gini: &ini::Ini, body: &str) -> (r: Result<
    String,
    PlaceholderError,
>)
    ensures
        match filled(tem@, *ini, *gini, body@) {
            Ok(page) => r matches Ok(text) && text@ == page,
            Err(e) => r matches Err(err) && err@ == e,
        },
{
    let chars = chars_of(tem);
    let mut buf = String::new();
    let mut i: usize = 0;
    while i < chars.len()
        invariant
            i <= chars.len(),
            chars@ == tem@,
            filled(tem@, *ini, *gini, body@) == followed(
                buf@,
                filled_from(chars@, i as int, *ini, *gini, body@),
            ),
        decreases chars.len() - i,
    {
        let ghost before = buf@;
        match next_segment(&chars, i) {
            Some((PlaceholderToken::Text(text), end)) => {
                buf.push_str(text.as_str());
                proof {
                    lemma_followed(before, text@, filled_from(chars@, end as int, *ini, *gini, body@));
                }
                i = end;
            },
            Some((PlaceholderToken::Placeholder(key), end)) => {
                match resolve_key(key.as_str(), ini, gini, body) {
                    Ok(value) => {
                        buf.push_str(value.as_str());
                        proof {
                            lemma_followed(
                                before,
                                value@,
                                filled_from(chars@, end as int, *ini, *gini, body@),
                            );
                        }
                    },
                    Err(e) => {
                        return Err(e);
                    },
                }
                i = end;
            },
            None => {
                return Err(PlaceholderError::Malformed(i));
            },
        }
    }
    assert(buf@ + Seq::<char>::empty() == buf@);
    Ok(buf)
}

/// A text before a text before a rest is both texts before the rest.
proof fn lemma_followed(done: Seq<char>, text: Seq<char>, rest: Result<Seq<char>, PlaceholderErrorView>)
    ensures
        followed(done, followed(text, rest)) == followed(done + text, rest),
{
    match rest {
        Ok(more) => {
            assert(done + (text + more) == (done + text) + more);
        },
        Err(_) => {},
    }
}

/// The views of a sequence of segments.
pub open spec fn views(tokens: Seq<PlaceholderToken>) -> Seq<PlaceholderTokenView> {
    Seq::new(tokens.len(), |i: int| tokens[i]@)
}

/// The segments of the template from `i` on, or the first `{` that opens no placeholder.
pub open spec fn segments_from(s: Seq<char>, i: int) -> Result<
    Seq<PlaceholderTokenView>,
    PlaceholderErrorView,
>
    decreases s.len() - i,
    via segments_from_decreases
{
    if 0 <= i < s.len() {
        match segment_at(s, i) {
            Some((token, end)) => match segments_from(s, end) {
                Ok(rest) => Ok(seq![token] + rest),
                Err(e) => Err(e),
            },
            None => Err(PlaceholderErrorView::Malformed(i as nat)),
        }
    } else {
        Ok(Seq::empty())
    }
}

#[via_fn]
proof fn segments_from_decreases(s: Seq<char>, i: int) {
    if 0 <= i < s.len() {
        lemma_segment_span(s, i);
    }
}

/// `tokens` before what `rest` holds, or the error that `rest` is.
pub open spec fn before(
    tokens: Seq<PlaceholderTokenView>,
    rest: Result<Seq<PlaceholderTokenView>, PlaceholderErrorView>,
) -> Result<Seq<PlaceholderTokenView>, PlaceholderErrorView> {
    match rest {
        Ok(more) => Ok(tokens + more),
        Err(e) => Err(e),
    }
}

/// Splits a template into its segments: its placeholders, and the text between them.
pub fn segments(tem: &str) -> (r: Result<Vec<PlaceholderToken>, PlaceholderError>)
    ensures
        match segments_from(tem@, 0) {
            Ok(tokens) => r matches Ok(found) && views(found@) == tokens,
            Err(e) => r matches Err(err) && err@ == e,
        },
{
    let chars = chars_of(tem);
    let mut found: Vec<PlaceholderToken> = Vec::new();
    let mut i: usize = 0;
    assert(views(found@) + Seq::<PlaceholderTokenView>::empty() == views(found@));
    while i < chars.len()
        invariant
            i <= chars.len(),
            chars@ == tem@,
            segments_from(tem@, 0) == before(views(found@), segments_from(chars@, i as int)),
        decreases chars.len() - i,
    {
        let ghost had = views(found@);
        match next_segment(&chars, i) {
            Some((token, end)) => {
                proof {
                    match segments_from(chars@, end as int) {
                        Ok(rest) => {
                            assert(had + (seq![token@] + rest) == had.push(token@) + rest);
                        },
                        Err(_) => {},
                    }
                }
                found.push(token);
                assert(views(found@) == had.push(token@));
                i = end;
            },
            None => {
                return Err(PlaceholderError::Malformed(i));
            },
        }
    }
    assert(views(found@) + Seq::<PlaceholderTokenView>::empty() == views(found@));
    Ok(found)
}

} // verus!
