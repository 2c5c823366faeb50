use ini::Ini;
use sitegen::markdown::html::{to_html, Opts, OptsError, PageError};
use sitegen::markdown::render::RenderError;
use sitegen::placeholder::{
    placeholder_process, resolve, segments, split_key, PlaceholderError, PlaceholderToken,
};

fn ini(text: &str) -> Ini {
    Ini::load_from_str(text).unwrap()
}

#[test]
fn local_value_wins_over_global() {
    let local = ini("title=Local\n");
    let global = ini("title=Global\n");
    assert_eq!(placeholder_process("{title}", &local, &global, ""), Ok("Local".to_string()));
}

#[test]
fn global_value_is_the_fallback() {
    let local = ini("");
    let global = ini("title=Global\n");
    assert_eq!(placeholder_process("{title}", &local, &global, ""), Ok("Global".to_string()));
}

#[test]
fn local_value_alone_is_enough() {
    let local = ini("title=Local\n");
    let global = ini("");
    assert_eq!(placeholder_process("{title}", &local, &global, ""), Ok("Local".to_string()));
}

#[test]
fn missing_key_is_named() {
    let local = ini("");
    let global = ini("other=1\n");
    assert_eq!(
        placeholder_process("{title}", &local, &global, ""),
        Err(PlaceholderError::CannotFindKey("root".to_string(), "title".to_string()))
    );
    assert_eq!(
        placeholder_process("a{site.meta.title}", &local, &global, ""),
        Err(PlaceholderError::CannotFindKey("site.meta".to_string(), "title".to_string()))
    );
}

#[test]
fn body_is_put_in_as_it_is() {
    let local = ini("body=wrong\n");
    let global = ini("");
    assert_eq!(
        placeholder_process("<main>{body}</main>", &local, &global, "<p>{x} & y</p>"),
        Ok("<main><p>{x} & y</p></main>".to_string())
    );
}

#[test]
fn values_are_not_filled_in_again() {
    let local = ini("a={b}\nb=2\n");
    let global = ini("");
    assert_eq!(placeholder_process("{a}-{b}", &local, &global, ""), Ok("{b}-2".to_string()));
}

#[test]
fn sections_are_named_before_the_last_dot() {
    let local = ini("top=0\n[site]\nname=Mine\n[site.meta]\nlang=en\n");
    let global = ini("[site]\nname=Theirs\nurl=example.org\n");
    assert_eq!(
        placeholder_process("{site.name} {site.url} {site.meta.lang} {top}", &local, &global, ""),
        Ok("Mine example.org en 0".to_string())
    );
}

#[test]
fn text_without_placeholders_stays() {
    let empty = ini("");
    assert_eq!(placeholder_process("", &empty, &empty, "b"), Ok(String::new()));
    assert_eq!(placeholder_process("a } b", &empty, &empty, "b"), Ok("a } b".to_string()));
}

#[test]
fn brace_that_opens_nothing_is_an_error() {
    let empty = ini("");
    assert_eq!(placeholder_process("ab{}", &empty, &empty, ""), Err(PlaceholderError::Malformed(2)));
    assert_eq!(placeholder_process("{body", &empty, &empty, ""), Err(PlaceholderError::Malformed(0)));
    assert_eq!(
        placeholder_process("{body}{", &empty, &empty, "x"),
        Err(PlaceholderError::Malformed(6))
    );
    assert_eq!(
        placeholder_process("{nokey}{", &empty, &empty, "x"),
        Err(PlaceholderError::CannotFindKey("root".to_string(), "nokey".to_string()))
    );
}

#[test]
fn keys_split_at_the_last_dot() {
    assert_eq!(split_key("title"), (None, "title".to_string()));
    assert_eq!(split_key("a.b"), (Some("a".to_string()), "b".to_string()));
    assert_eq!(split_key("a.b.c"), (Some("a.b".to_string()), "c".to_string()));
    assert_eq!(split_key(".c"), (Some("".to_string()), "c".to_string()));
    assert_eq!(split_key("a."), (Some("a".to_string()), "".to_string()));
    assert_eq!(split_key(""), (None, "".to_string()));
}

#[test]
fn resolve_prefers_the_local_value() {
    assert_eq!(resolve(Some("l"), Some("g"), None, "k"), Ok("l".to_string()));
    assert_eq!(resolve(None, Some("g"), None, "k"), Ok("g".to_string()));
    assert_eq!(resolve(Some("l"), None, Some("s"), "k"), Ok("l".to_string()));
    assert_eq!(
        resolve(None, None, Some("s"), "k"),
        Err(PlaceholderError::CannotFindKey("s".to_string(), "k".to_string()))
    );
    assert_eq!(
        resolve(None, None, None, "k"),
        Err(PlaceholderError::CannotFindKey("root".to_string(), "k".to_string()))
    );
}

#[test]
fn global_options_have_defaults() {
    let opts = Opts::load_global("preamble=\\\\def\ntitle=Site\n".to_string(), None).unwrap();
    assert_eq!(opts.preamble, "\\def");
    assert_eq!(opts.template, "default.html");
    assert_eq!(opts.ini.get_from(None::<String>, "title"), Some("Site"));

    let opts = Opts::load_global("template=page.html\n".to_string(), Some("P".to_string())).unwrap();
    assert_eq!(opts.preamble, "P");
    assert_eq!(opts.template, "page.html");

    let opts = Opts::load_global("preamble=Q\n".to_string(), Some("P".to_string())).unwrap();
    assert_eq!(opts.preamble, "Q");
}

#[test]
fn global_options_need_a_preamble() {
    assert_eq!(
        Opts::load_global("title=Site\n".to_string(), None).err(),
        Some(OptsError::MissingPreamble)
    );
}

#[test]
fn unreadable_options_are_an_error() {
    assert!(matches!(
        Opts::load_global("[unclosed\n".to_string(), Some("p".to_string())),
        Err(OptsError::Parse(_))
    ));
    let global = Opts::load_global(String::new(), Some("p".to_string())).unwrap();
    assert!(matches!(
        Opts::load_ini(Some("=no key\n".to_string()), &global),
        Err(OptsError::Parse(_))
    ));
}

#[test]
fn document_options_fall_back_to_the_global_ones() {
    let global =
        Opts::load_global("template=g.html\ntitle=G\n".to_string(), Some("gp".to_string())).unwrap();

    let same = Opts::load_ini(None, &global).unwrap();
    assert_eq!(same.preamble, "gp");
    assert_eq!(same.template, "g.html");
    assert_eq!(same.ini.get_from(None::<String>, "title"), Some("G"));

    let own = Opts::load_ini(Some("title=L\n".to_string()), &global).unwrap();
    assert_eq!(own.preamble, "gp");
    assert_eq!(own.template, "g.html");
    assert_eq!(own.ini.get_from(None::<String>, "title"), Some("L"));

    let own = Opts::load_ini(Some("preamble=lp\ntemplate=l.html\n".to_string()), &global).unwrap();
    assert_eq!(own.preamble, "lp");
    assert_eq!(own.template, "l.html");

    let copy = own.clone();
    assert_eq!(copy.preamble, "lp");
    assert_eq!(copy.ini.get_from(None::<String>, "template"), Some("l.html"));
}

#[test]
fn page_is_the_document_in_its_template() {
    let global = Opts::load_global("title=G\nsite=S\n".to_string(), Some(String::new())).unwrap();
    let local = Opts::load_ini(Some("title=L\n".to_string()), &global).unwrap();
    let math = vec!["<m/>".to_string()];
    assert_eq!(
        to_html("# Hi\n$x$", "<title>{title} - {site}</title>{body}", &local, &global, &math),
        Ok("<title>L - S</title><h1>Hi</h1><m/>".to_string())
    );
    assert_eq!(
        to_html("$x$ $y$", "{body}", &local, &global, &math),
        Err(PageError::Render(RenderError::MissingMath(2)))
    );
    assert_eq!(to_html("(u)", "{body}", &local, &global, &math), Ok("(u)".to_string()));
    assert_eq!(
        to_html("a", "{body}{none}", &local, &global, &math),
        Err(PageError::Placeholder(PlaceholderError::CannotFindKey(
            "root".to_string(),
            "none".to_string()
        )))
    );
}

#[test]
fn template_splits_into_segments() {
    assert_eq!(
        segments("<h1>{title}</h1>{body}"),
        Ok(vec![
            PlaceholderToken::Text("<h1>".to_string()),
            PlaceholderToken::Placeholder("title".to_string()),
            PlaceholderToken::Text("</h1>".to_string()),
            PlaceholderToken::Placeholder("body".to_string()),
        ])
    );
    assert_eq!(segments(""), Ok(vec![]));
    assert_eq!(segments("a}b"), Ok(vec![PlaceholderToken::Text("a}b".to_string())]));
    assert_eq!(
        segments("{a{b}"),
        Ok(vec![PlaceholderToken::Placeholder("a{b".to_string())])
    );
    assert_eq!(segments("x{}"), Err(PlaceholderError::Malformed(1)));
    assert_eq!(segments("{a}{"), Err(PlaceholderError::Malformed(3)));
}

#[test]
fn options_are_read_from_what_a_text_holds() {
    let opts = Opts::from_ini(ini("template=t.html\nx=1\n"), "p", "d.html");
    assert_eq!(opts.preamble, "p");
    assert_eq!(opts.template, "t.html");
    assert_eq!(opts.ini.get_from(None::<String>, "x"), Some("1"));
    let opts = Opts::from_ini(ini("[s]\npreamble=in a section\n"), "p", "d.html");
    assert_eq!(opts.preamble, "p");
    assert_eq!(opts.template, "d.html");
}

#[test]
fn messages_say_where_the_reading_stopped() {
    match Opts::load_global("a=1\n[unclosed\n".to_string(), Some("p".to_string())) {
        Err(OptsError::Parse(message)) => {
            assert_eq!(message, "3:1 expecting \"[Some(']')]\" but found EOF.")
        }
        other => panic!("{:?}", other.map(|o| o.template)),
    }
}

#[test]
fn malformed_link_is_text_of_the_page() {
    let empty = || Opts { preamble: String::new(), template: String::new(), ini: Ini::new() };
    let page = to_html("[name](url", "{body}", &empty(), &empty(), &Vec::new()).unwrap();
    assert!(!page.contains("<a ") && !page.contains("<img"));
    assert!(page.contains("name") && page.contains("url"));
    assert_eq!(page, "[name](url");
}
