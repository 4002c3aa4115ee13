//! Files that a new project adds its lines to.
use crate::text::{contains, contains_text, occurs_at};
use vstd::prelude::*;

verus! {

/// A file for Git that a new project adds its lines to.
#[derive(Debug, Clone, Copy, PartialEq, Eq, Structural)]
pub enum GitFile {
    /// What Git leaves alone.
    Ignore,
    /// How Git treats files.
    Attributes,
}

/// The lines for `.gitignore`.
pub const GITIGNORE_TEMPLATE: &'static str = r#"# pixi environments
.pixi

"#;

/// The lines for `.gitattributes`.
pub const GITATTRIBUTES_TEMPLATE: &'static str = r#"# GitHub syntax highlighting
pixi.lock linguist-language=YAML

"#;

impl GitFile {
    /// The name of the file.
    pub open spec fn named(self) -> Seq<char> {
        match self {
            GitFile::Ignore => ".gitignore"@,
            GitFile::Attributes => ".gitattributes"@,
        }
    }

    /// The lines that belong in the file.
    pub open spec fn lines(self) -> Seq<char> {
        match self {
            GitFile::Ignore => GITIGNORE_TEMPLATE@,
            GitFile::Attributes => GITATTRIBUTES_TEMPLATE@,
        }
    }

    /// The name of the file.
    pub fn file_name(self) -> (name: &'static str)
        ensures
            name@ == self.named(),
    {
        match self {
            GitFile::Ignore => ".gitignore",
            GitFile::Attributes => ".gitattributes",
        }
    }

    /// The lines that belong in the file.
    pub fn template(self) -> (lines: &'static str)
        ensures
            lines@ == self.lines(),
    {
        match self {
            GitFile::Ignore => GITIGNORE_TEMPLATE,
            GitFile::Attributes => GITATTRIBUTES_TEMPLATE,
        }
    }
}

/// What a file holds: nothing where it could not be read.
pub open spec fn held(content: Option<Seq<char>>) -> Seq<char> {
    match content {
        Some(text) => text,
        None => Seq::empty(),
    }
}

/// What is appended to a file so that it holds a template: the template, if the file does not
/// hold it yet.
pub open spec fn addition(content: Option<Seq<char>>, template: Seq<char>) -> Option<Seq<char>> {
    if contains_text(held(content), template) {
        None
    } else {
        Some(template)
    }
}

/// What the file holds afterwards.
pub open spec fn updated(content: Seq<char>, template: Seq<char>) -> Seq<char> {
    content + held(addition(Some(content), template))
}

/// What has to be appended to a file that holds `content`, or that could not be read, for it to
/// hold the template.
pub fn create_or_append_file(content: Option<&str>, template: &str) -> (added: Option<String>)
    ensures
        added.deep_view() == addition(content.deep_view(), template@),
{
    let held = match content {
        Some(text) => text,
        None => "",
    };
    proof {
        reveal_strlit("");
        assert(""@ =~= Seq::<char>::empty());
    }
    if contains(held, template) {
        None
    } else {
        Some(template.to_string())
    }
}

/// Once updated, a file holds the template.
pub proof fn law_template_is_held(content: Seq<char>, template: Seq<char>)
    ensures
        contains_text(updated(content, template), template),
{
    if contains_text(content, template) {
        assert(updated(content, template) =~= content);
    } else {
        assert(updated(content, template).subrange(
            content.len() as int,
            (content.len() + template.len()) as int,
        ) =~= template);
        assert(occurs_at(updated(content, template), template, content.len() as int));
    }
}

/// Updating a file a second time changes nothing.
pub proof fn law_update_once(content: Seq<char>, template: Seq<char>)
    ensures
        addition(Some(updated(content, template)), template) is None,
        updated(updated(content, template), template) == updated(content, template),
{
    law_template_is_held(content, template);
    assert(updated(updated(content, template), template) =~= updated(content, template));
}

/// Updating a file only adds at its end: what it held stays where it was.
pub proof fn law_content_is_kept(content: Seq<char>, template: Seq<char>)
    ensures
        updated(content, template).take(content.len() as int) == content,
{
    assert(updated(content, template).take(content.len() as int) =~= content);
}

/// A text that a file holds is still held after the file is updated with another.
pub proof fn law_other_text_is_kept(content: Seq<char>, template: Seq<char>, other: Seq<char>)
    requires
        contains_text(content, other),
    ensures
        contains_text(updated(content, template), other),
{
    let at = choose|at: int| occurs_at(content, other, at);
    assert(updated(content, template).subrange(at, at + other.len()) =~= content.subrange(
        at,
        at + other.len(),
    ));
    assert(occurs_at(updated(content, template), other, at));
}

/// A file gets its lines appended exactly where it does not hold them yet: where no place in what
/// was read holds them, all of them are appended as they are, and a file that could not be read
/// counts as empty.
pub proof fn law_missing_lines_are_added(content: Option<Seq<char>>, template: Seq<char>)
    ensures
        match content {
            Some(text) => {
                &&& (exists|at: int| occurs_at(text, template, at)) ==> addition(
                    content,
                    template,
                ) is None
                &&& (forall|at: int| !occurs_at(text, template, at)) ==> addition(content, template)
                    == Some(template)
            },
            None => template.len() > 0 ==> addition(content, template) == Some(template),
        },
{
    if content is None && contains_text(held(content), template) {
        let at = choose|at: int| occurs_at(held(content), template, at);
        assert(template.len() == 0);
    }
}

/// The files for Git and what belongs in them: Git is to leave the environments alone, and the
/// lock file is to be shown as YAML.
pub proof fn law_git_files(file: GitFile)
    ensures
        file == GitFile::Ignore ==> file.named() == ".gitignore"@ && file.lines()
            == "# pixi environments\n.pixi\n\n"@,
        file == GitFile::Attributes ==> file.named() == ".gitattributes"@ && file.lines()
            == "# GitHub syntax highlighting\npixi.lock linguist-language=YAML\n\n"@,
        file.lines().len() > 0,
{
    reveal_strlit("# pixi environments\n.pixi\n\n");
    reveal_strlit("# GitHub syntax highlighting\npixi.lock linguist-language=YAML\n\n");
}

} // verus!
