use crate::text::{chars_of, same_chars, string_of};
use vstd::prelude::*;

verus! {

/// What is done with a file of the source tree.
#[derive(Debug, PartialEq, Eq)]
pub enum FileAction {
    /// The file is a document: it is compiled to a page of this name.
    Compile(String),
    /// The file is copied as it is, under this name.
    Copy(String),
    /// The file is of no known kind: it is reported, and left out.
    Unknown,
}

/// What a `FileAction` stands for.
pub enum FileActionView {
    Compile(Seq<char>),
    Copy(Seq<char>),
    Unknown,
}

impl View for FileAction {
    type V = FileActionView;

    open spec fn view(&self) -> FileActionView {
        match self {
            FileAction::Compile(name) => FileActionView::Compile(name@),
            FileAction::Copy(name) => FileActionView::Copy(name@),
            FileAction::Unknown => FileActionView::Unknown,
        }
    }
}

/// The index of the last `.` of the first `n` characters of `name`, or -1 where they
/// hold none.
pub open spec fn last_dot(name: Seq<char>, n: int) -> int
    decreases n,
{
    if n <= 0 {
        -1
    } else if name[n - 1] == '.' {
        n - 1
    } else {
        last_dot(name, n - 1)
    }
}

/// Where the extension of a file name starts: after its last `.`, unless the name holds
/// none or starts with its only one. A name without an extension gives -1.
pub open spec fn extension_start(name: Seq<char>) -> int {
    if last_dot(name, name.len() as int) <= 0 {
        -1
    } else {
        last_dot(name, name.len() as int) + 1
    }
}

/// The extension of a file name, if it has one.
pub open spec fn extension(name: Seq<char>) -> Option<Seq<char>> {
    if extension_start(name) < 0 {
        None
    } else {
        Some(name.subrange(extension_start(name), name.len() as int))
    }
}

/// A file name without its extension and the `.` before it.
pub open spec fn stem(name: Seq<char>) -> Seq<char> {
    if extension_start(name) < 0 {
        name
    } else {
        name.subrange(0, extension_start(name) - 1)
    }
}

/// Whether `pattern` stands in `s` at `i`.
pub open spec fn stands_at(s: Seq<char>, i: int, pattern: Seq<char>) -> bool {
    0 <= i && i + pattern.len() <= s.len() && s.subrange(i, i + pattern.len()) == pattern
}

/// Whether `pattern` stands anywhere in `s`.
pub open spec fn holds(s: Seq<char>, pattern: Seq<char>) -> bool {
    exists|i: int| stands_at(s, i, pattern)
}

/// `s` from `i` on without the occurrences of `pattern`, found from the left, none
/// overlapping another.
pub open spec fn without(s: Seq<char>, i: int, pattern: Seq<char>) -> Seq<char>
    decreases s.len() - i,
{
    if i < 0 || i >= s.len() {
        Seq::empty()
    } else if pattern.len() > 0 && stands_at(s, i, pattern) {
        without(s, i + pattern.len(), pattern)
    } else {
        seq![s[i]] + without(s, i + 1, pattern)
    }
}

/// What is done with the file of this name: a file with the extension `md` is compiled
/// to a page with the extension `html`; any other file with an extension whose name
/// holds `.copy.` is copied under its name without every `.copy`; any other file with
/// the extension `copy` is copied under its name without the extension; and any other
/// file is of no known kind.
pub open spec fn action_for(name: Seq<char>) -> FileActionView {
    match extension(name) {
        Some(ext) => if ext == "md"@ {
            FileActionView::Compile(stem(name) + ".html"@)
        } else if holds(name, ".copy."@) {
            FileActionView::Copy(without(name, 0, ".copy"@))
        } else if ext == "copy"@ {
            FileActionView::Copy(stem(name))
        } else {
            FileActionView::Unknown
        },
        None => FileActionView::Unknown,
    }
}

/// Whether `pattern` stands in `chars` at `i`.
fn matches_at(chars: &Vec<char>, i: usize, pattern: &Vec<char>) -> (b: bool)
    requires
        i <= chars.len(),
    ensures
        b == stands_at(chars@, i as int, pattern@),
{
    if pattern.len() > chars.len() - i {
        return false;
    }
    let mut k: usize = 0;
    while k < pattern.len()
        invariant
            k <= pattern.len(),
            i + pattern.len() <= chars.len(),
            forall|j: int| 0 <= j < k ==> chars@[i + j] == pattern@[j],
        decreases pattern.len() - k,
    {
        if chars[i + k] != pattern[k] {
            assert(chars@.subrange(i as int, i + pattern.len())[k as int] != pattern@[k as int]);
            return false;
        }
        k += 1;
    }
    assert(chars@.subrange(i as int, i + pattern.len()) =~= pattern@);
    true
}

/// Whether `pattern` stands anywhere in `chars`.
fn contains(chars: &Vec<char>, pattern: &Vec<char>) -> (b: bool)
    ensures
        b == holds(chars@, pattern@),
{
    let mut i: usize = 0;
    while i < chars.len()
        invariant
            i <= chars.len(),
            forall|j: int| 0 <= j < i ==> !stands_at(chars@, j, pattern@),
        decreases chars.len() - i,
    {
        if matches_at(chars, i, pattern) {
            return true;
        }
        i += 1;
    }
    matches_at(chars, i, pattern)
}

/// `chars` without the occurrences of `pattern`.
fn remove_all(chars: &Vec<char>, pattern: &Vec<char>) -> (out: String)
    ensures
        out@ == without(chars@, 0, pattern@),
{
    let mut out = String::new();
    let mut i: usize = 0;
    while i < chars.len()
        invariant
            i <= chars.len(),
            without(chars@, 0, pattern@) == out@ + without(chars@, i as int, pattern@),
        decreases chars.len() - i,
    {
        let ghost before = out@;
        if pattern.len() > 0 && matches_at(chars, i, pattern) {
            i += pattern.len();
        } else {
            out.push(chars[i]);
            assert(before + (seq![chars@[i as int]] + without(chars@, i + 1, pattern@)) == out@
                + without(chars@, i + 1, pattern@));
            i += 1;
        }
    }
    out
}

/// Where the extension of `chars` starts, if it has one.
fn find_extension(chars: &Vec<char>) -> (start: Option<usize>)
    ensures
        match start {
            Some(k) => extension_start(chars@) == k && 2 <= k <= chars.len(),
            None => extension_start(chars@) < 0,
        },
{
    let mut n: usize = chars.len();
    while n > 0 && chars[n - 1] != '.'
        invariant
            n <= chars.len(),
            last_dot(chars@, chars@.len() as int) == last_dot(chars@, n as int),
        decreases n,
    {
        n -= 1;
    }
    if n <= 1 {
        None
    } else {
        Some(n)
    }
}

/// Decides what is done with the file of this name. The name is that of the file alone,
/// without its directory.
pub fn classify(name: &str) -> (action: FileAction)
    ensures
        action@ == action_for(name@),
{
    let chars = chars_of(name);
    match find_extension(&chars) {
        Some(start) => {
            let ext = string_of(&chars, start, chars.len());
            let ext_chars = chars_of(ext.as_str());
            if same_chars(&ext_chars, &chars_of("md")) {
                let mut page = string_of(&chars, 0, start - 1);
                page.push_str(".html");
                FileAction::Compile(page)
            } else if contains(&chars, &chars_of(".copy.")) {
                FileAction::Copy(remove_all(&chars, &chars_of(".copy")))
            } else if same_chars(&ext_chars, &chars_of("copy")) {
                FileAction::Copy(string_of(&chars, 0, start - 1))
            } else {
                FileAction::Unknown
            }
        },
        None => FileAction::Unknown,
    }
}

} // verus!
