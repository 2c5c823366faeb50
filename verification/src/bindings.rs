use vstd::prelude::*;

verus! {

/// What `emojicons_2021::EmojiFormatter` writes for a text: the text with each `:name:`
/// that its table knows replaced by the glyph, and everything else left as it is.
pub uninterp spec fn emoji_expanded(text: Seq<char>) -> Seq<char>;

/// Formats `text` with `emojicons_2021::EmojiFormatter`. The formatter reads nothing but
/// the text and its own table, so the result is the same for the same text.
#[verifier::external_body]
pub(crate) fn expand_emoji(text: &str) -> (out: String)
    ensures
        out@ == emoji_expanded(text@),
{
    emojicons_2021::EmojiFormatter(text).to_string()
}

/// `ini::Ini`: options by section and key. Nothing is known of a value but what the
/// items below say.
#[verifier::external_type_specification]
#[verifier::external_body]
pub struct ExIni(ini::Ini);

/// `ini::ParseError`: where and why the reading of options stopped.
#[verifier::external_type_specification]
#[verifier::external_body]
pub struct ExIniParseError(ini::ParseError);

/// What an `ini::Ini` holds: for the name of each section (`None` is the section without
/// a name, at the top of a file) the keys of the first section of that name, each with
/// the first value it has there.
pub uninterp spec fn ini_sections(ini: ini::Ini) -> Map<Option<Seq<char>>, Map<Seq<char>, Seq<char>>>;

/// What `ini::Ini::load_from_str` reads from a text: what the `Ini` holds, or `None` where
/// the text cannot be read.
pub uninterp spec fn ini_parsed(text: Seq<char>) -> Option<Map<Option<Seq<char>>, Map<Seq<char>, Seq<char>>>>;

/// A section's name as the model of an `Ini` keys it.
pub open spec fn section_name(section: Option<&str>) -> Option<Seq<char>> {
    match section {
        Some(name) => Some(name@),
        None => None,
    }
}

/// The value of `key` in the section `section`, if the section is there and holds the key.
pub open spec fn ini_value(ini: ini::Ini, section: Option<Seq<char>>, key: Seq<char>) -> Option<Seq<char>> {
    if ini_sections(ini).contains_key(section) && ini_sections(ini)[section].contains_key(key) {
        Some(ini_sections(ini)[section][key])
    } else {
        None
    }
}

/// Reads a text with `ini::Ini::load_from_str`. The parser reads nothing but the text, and
/// answers every text: with an `Ini`, or with the place where it stopped.
#[verifier::external_body]
pub(crate) fn parse_ini(text: &str) -> (r: Result<ini::Ini, ini::ParseError>)
    ensures
        match r {
            Ok(ini) => ini_parsed(text@) == Some(ini_sections(ini)),
            Err(_) => ini_parsed(text@) is None,
        },
{
    ini::Ini::load_from_str(text)
}

/// Looks a key up with `ini::Ini::get_from`: the first value of the key in the first
/// section of the name, or `None` where the section or the key is missing.
#[verifier::external_body]
pub(crate) fn ini_get<'a>(ini: &'a ini::Ini, section: Option<&str>, key: &str) -> (r: Option<&'a str>)
    ensures
        match r {
            Some(value) => ini_value(*ini, section_name(section), key@) == Some(value@),
            None => ini_value(*ini, section_name(section), key@) is None,
        },
{
    ini.get_from(section, key)
}

/// Copies an `Ini` with its `clone`: the copy holds what the `Ini` holds.
#[verifier::external_body]
pub(crate) fn clone_ini(ini: &ini::Ini) -> (copy: ini::Ini)
    ensures
        ini_sections(copy) == ini_sections(*ini),
{
    ini.clone()
}

/// The message of an `ini::ParseError`, as its `Display` writes it: the line, the column
/// and what the parser expected.
#[verifier::external_body]
pub(crate) fn ini_error_text(error: &ini::ParseError) -> (text: String) {
    error.to_string()
}

/// What one character becomes where `html_escape::encode_text` writes it: `&`, `<` and
/// `>` become entities, and every other character stays.
pub open spec fn encoded_char(c: char) -> Seq<char> {
    if c == '&' {
        "&amp;"@
    } else if c == '<' {
        "&lt;"@
    } else if c == '>' {
        "&gt;"@
    } else {
        seq![c]
    }
}

/// A text as `html_escape::encode_text` writes it: each of its characters encoded.
pub open spec fn encoded(text: Seq<char>) -> Seq<char>
    decreases text.len(),
{
    if text.len() == 0 {
        Seq::empty()
    } else {
        encoded(text.drop_last()) + encoded_char(text.last())
    }
}

/// Encodes a text with `html_escape::encode_text`, which replaces `&`, `<` and `>` by
/// their entities and copies the rest.
#[verifier::external_body]
pub(crate) fn encode_text(text: &str) -> (out: String)
    ensures
        out@ == encoded(text@),
{
    html_escape::encode_text(text).into_owned()
}

/// `katex::Error`: why KaTeX could not typeset a source.
#[verifier::external_type_specification]
#[verifier::external_body]
pub struct ExKatexError(katex::Error);

/// What `katex::render_with_opts` writes for a LaTeX source, in display mode or in the
/// line, as HTML, with errors thrown and the input trusted: the markup, or `None` where
/// it fails.
pub uninterp spec fn katex_html(source: Seq<char>, display: bool) -> Option<Seq<char>>;

/// Typesets a LaTeX source with `katex::render_with_opts`. The options are fixed but for
/// the mode; KaTeX reads nothing but the source and the options.
#[verifier::external_body]
pub(crate) fn katex_render(source: &str, display: bool) -> (r: Result<String, katex::Error>)
    ensures
        match r {
            Ok(markup) => katex_html(source@, display) == Some(markup@),
            Err(_) => katex_html(source@, display) is None,
        },
{
    let mut opts = katex::Opts::default();
    opts.set_display_mode(display);
    opts.set_output_type(katex::OutputType::Html);
    opts.set_throw_on_error(true);
    opts.set_trust(true);
    katex::render_with_opts(source, &opts)
}

/// The message of a `katex::Error`, as its `Display` writes it.
#[verifier::external_body]
pub(crate) fn katex_error_text(error: &katex::Error) -> (text: String) {
    error.to_string()
}

/// `toml::map::Map`, of which `toml::Table` is the map from `String` to `toml::Value`.
#[verifier::external_type_specification]
#[verifier::external_body]
#[verifier::reject_recursive_types(K)]
#[verifier::reject_recursive_types(V)]
pub struct ExTomlMap<K, V>(toml::map::Map<K, V>);

/// `toml::Value`: a value of a TOML table.
#[verifier::external_type_specification]
#[verifier::external_body]
pub struct ExTomlValue(toml::Value);

/// `toml::de::Error`: why a text is no TOML table.
#[verifier::external_type_specification]
#[verifier::external_body]
pub struct ExTomlError(toml::de::Error);

/// What a TOML table holds: its keys, each with its value written as TOML.
pub uninterp spec fn toml_entries(table: toml::Table) -> Map<Seq<char>, Seq<char>>;

/// What the TOML parser reads from a text: what the table holds, or `None` where the text
/// is no TOML table.
pub uninterp spec fn toml_parsed(text: Seq<char>) -> Option<Map<Seq<char>, Seq<char>>>;

/// Reads a TOML table from a text with the `FromStr` of `toml::Table`. The parser reads
/// nothing but the text.
#[verifier::external_body]
pub(crate) fn parse_toml(text: &str) -> (r: Result<toml::Table, toml::de::Error>)
    ensures
        match r {
            Ok(table) => toml_parsed(text@) == Some(toml_entries(table)),
            Err(_) => toml_parsed(text@) is None,
        },
{
    text.parse::<toml::Table>()
}

/// The message of a `toml::de::Error`, as its `Display` writes it.
#[verifier::external_body]
pub(crate) fn toml_error_text(error: &toml::de::Error) -> (text: String) {
    error.to_string()
}

} // verus!
