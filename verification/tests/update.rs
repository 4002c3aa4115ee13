use pixi_init::text::{contains, trim, white_space};
use pixi_init::update::{
    create_or_append_file, GitFile, GITATTRIBUTES_TEMPLATE, GITIGNORE_TEMPLATE,
};

/// What a file holds once it was created or added to.
fn updated(file: Option<String>, template: &str) -> Option<String> {
    match create_or_append_file(file.as_deref(), template) {
        Some(added) => Some(file.unwrap_or_default() + added.as_str()),
        None => file,
    }
}

#[test]
fn test_create_or_append_file() {
    let template = "Test Template";

    // Scenario 1: File does not exist.
    let file = updated(None, template);
    assert_eq!(file.as_deref(), Some(template));

    // Scenario 2: File exists but doesn't contain the template.
    let file = updated(file, "New Content");
    assert!(file.as_ref().unwrap().contains(template));
    assert!(file.as_ref().unwrap().contains("New Content"));

    // Scenario 3: File exists and already contains the template.
    let original_content = file.clone();
    assert_eq!(create_or_append_file(file.as_deref(), template), None);
    assert_eq!(updated(file, template), original_content);
}

#[test]
fn a_file_without_content_already_holds_an_empty_template() {
    assert_eq!(create_or_append_file(None, ""), None);
    assert_eq!(create_or_append_file(Some("a"), ""), None);
}

#[test]
fn a_template_that_only_nearly_stands_in_the_file_is_added() {
    assert_eq!(
        create_or_append_file(Some("# pixi environments\n.pixi\n"), GITIGNORE_TEMPLATE),
        Some("# pixi environments\n.pixi\n\n".to_string())
    );
    assert_eq!(
        create_or_append_file(Some("x# pixi environments\n.pixi\n\ny"), GITIGNORE_TEMPLATE),
        None
    );
}

#[test]
fn the_files_for_git() {
    assert_eq!(GitFile::Ignore.file_name(), ".gitignore");
    assert_eq!(GitFile::Attributes.file_name(), ".gitattributes");
    assert_eq!(GitFile::Ignore.template(), GITIGNORE_TEMPLATE);
    assert_eq!(GitFile::Attributes.template(), GITATTRIBUTES_TEMPLATE);
    assert_eq!(
        GITATTRIBUTES_TEMPLATE,
        "# GitHub syntax highlighting\npixi.lock linguist-language=YAML\n\n"
    );
}

#[test]
fn text_is_searched_and_trimmed_as_usual() {
    for text in ["", "a", "abcabd", "  a b\u{2003}\n", "\u{a0}é\u{85}", " \t"] {
        assert_eq!(trim(text), text.trim());
        for part in ["", "a", "abd", "abx", "é", " b"] {
            assert_eq!(contains(text, part), text.contains(part));
        }
    }
}

#[test]
fn white_space_is_that_of_unicode() {
    for c in '\u{0}'..=char::MAX {
        assert_eq!(white_space(c), c.is_whitespace());
    }
}
