use sitegen::layout::{classify, FileAction};
use sitegen::text::space;

#[test]
fn documents_become_pages() {
    assert_eq!(classify("index.md"), FileAction::Compile("index.html".to_string()));
    assert_eq!(classify("a.b.md"), FileAction::Compile("a.b.html".to_string()));
    assert_eq!(classify("x.copy.md"), FileAction::Compile("x.copy.html".to_string()));
}

#[test]
fn marked_files_are_copied_without_the_marker() {
    assert_eq!(classify("style.copy.css"), FileAction::Copy("style.css".to_string()));
    assert_eq!(classify("a.copy.b.copy.c"), FileAction::Copy("a.b.c".to_string()));
    assert_eq!(classify("a.copy.copy"), FileAction::Copy("a".to_string()));
    assert_eq!(classify(".copy.x"), FileAction::Copy(".x".to_string()));
    assert_eq!(classify("a.copyright.copy.txt"), FileAction::Copy("aright.txt".to_string()));
}

#[test]
fn files_with_the_copy_extension_lose_it() {
    assert_eq!(classify("robots.txt.copy"), FileAction::Copy("robots.txt".to_string()));
    assert_eq!(classify("CNAME.copy"), FileAction::Copy("CNAME".to_string()));
}

#[test]
fn other_files_are_unknown() {
    assert_eq!(classify("image.png"), FileAction::Unknown);
    assert_eq!(classify("README"), FileAction::Unknown);
    assert_eq!(classify(".md"), FileAction::Unknown);
    assert_eq!(classify(".copy"), FileAction::Unknown);
    assert_eq!(classify("md"), FileAction::Unknown);
    assert_eq!(classify(""), FileAction::Unknown);
    assert_eq!(classify("a."), FileAction::Unknown);
    assert_eq!(classify("a.MD"), FileAction::Unknown);
    assert_eq!(classify("a.copyx"), FileAction::Unknown);
}

#[test]
fn extensions_are_those_of_paths() {
    for name in ["index.md", "a.b.md", ".md", "md", "a.", "a..md", "a.copy", ".copy", "x.tar.gz"] {
        let path = std::path::Path::new(name);
        let is_document = path.extension().and_then(|e| e.to_str()) == Some("md");
        match classify(name) {
            FileAction::Compile(page) => {
                assert!(is_document, "{}", name);
                assert_eq!(std::path::Path::new(&page), path.with_extension("html"), "{}", name);
            }
            _ => assert!(!is_document, "{}", name),
        }
    }
    assert_eq!(
        classify("robots.txt.copy"),
        FileAction::Copy(
            std::path::Path::new("robots.txt.copy").with_extension("").to_str().unwrap().to_string()
        )
    );
}

#[test]
fn white_space_is_that_of_unicode() {
    for code in 0..=0x10ffffu32 {
        if let Some(c) = char::from_u32(code) {
            assert_eq!(space(c), c.is_whitespace(), "U+{:04X}", code);
        }
    }
}
