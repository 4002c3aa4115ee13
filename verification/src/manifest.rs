//! The manifest of a new project.
use crate::text::occurs_at;
use vstd::prelude::*;

verus! {

/// The file name of a manifest.
pub const PROJECT_MANIFEST: &'static str = "pixi.toml";

/// The version that a new project starts with.
pub const FIRST_VERSION: &'static str = "0.1.0";

/// The template of a manifest.
pub const PROJECT_TEMPLATE: &'static str = r#"[project]
name = "{{ name }}"
version = "{{ version }}"
description = "Add a short description here"
{%- if author %}
authors = ["{{ author[0] }} <{{ author[1] }}>"]
{%- endif %}
channels = [{%- if channels %}"{{ channels|join("\", \"") }}"{%- endif %}]
platforms = ["{{ platforms|join("\", \"") }}"]

[tasks]

[dependencies]

"#;

/// What a manifest says of a project.
#[derive(Debug, PartialEq, Eq)]
pub struct Manifest {
    /// The name of the project.
    pub name: String,
    /// Its version.
    pub version: String,
    /// The name and the mail address of its author.
    pub author: Option<(String, String)>,
    /// The channels that its packages come from.
    pub channels: Vec<String>,
    /// The platforms that it supports.
    pub platforms: Vec<String>,
}

/// What a [`Manifest`] holds.
#[verifier::ext_equal]
pub struct ManifestView {
    pub name: Seq<char>,
    pub version: Seq<char>,
    pub author: Option<(Seq<char>, Seq<char>)>,
    pub channels: Seq<Seq<char>>,
    pub platforms: Seq<Seq<char>>,
}

impl View for Manifest {
    type V = ManifestView;

    open spec fn view(&self) -> ManifestView {
        ManifestView {
            name: self.name@,
            version: self.version@,
            author: self.author.deep_view(),
            channels: self.channels.deep_view(),
            platforms: self.platforms.deep_view(),
        }
    }
}

/// The items one behind the other, as the quoted items of a list. Empty items in front of all
/// others leave no trace.
pub open spec fn quoted(items: Seq<Seq<char>>) -> Seq<char>
    decreases items.len(),
{
    if items.len() == 0 {
        Seq::empty()
    } else {
        let before = quoted(items.drop_last());
        if before.len() == 0 {
            items.last()
        } else {
            before + "\", \""@ + items.last()
        }
    }
}

/// The line of a manifest that names the author, with the line break in front of it.
pub open spec fn authors_line(author: Option<(Seq<char>, Seq<char>)>) -> Seq<char> {
    match author {
        Some((name, mail)) => "\nauthors = [\""@ + name + " <"@ + mail + ">\"]"@,
        None => Seq::empty(),
    }
}

/// The list of the channels of a manifest.
pub open spec fn channel_list(channels: Seq<Seq<char>>) -> Seq<char> {
    if channels.len() == 0 {
        "[]"@
    } else {
        "[\""@ + quoted(channels) + "\"]"@
    }
}

/// The text of a manifest.
pub open spec fn manifest_text(manifest: ManifestView) -> Seq<char> {
    "[project]\nname = \""@ + manifest.name + "\"\nversion = \""@ + manifest.version
        + "\"\ndescription = \"Add a short description here\""@ + authors_line(manifest.author)
        + "\nchannels = "@ + channel_list(manifest.channels) + "\nplatforms = [\""@ + quoted(
        manifest.platforms,
    ) + "\"]\n\n[tasks]\n\n[dependencies]\n"@
}

/// Calls `minijinja::Environment::render_named_str` in a new environment.
///
/// Believed of it, for the one template that is asked for, under a file name for which nothing is
/// escaped: rendering succeeds, and the text is the template with the values put in, a condition
/// met by an author and by a list of channels that is not empty, white space taken away in front
/// of each tag that starts with a dash, and one line break taken away at the end.
#[verifier::external_body]
fn render_named_str(name: &str, source: &str, manifest: &Manifest) -> (text: String)
    requires
        name@ == PROJECT_MANIFEST@,
        source@ == PROJECT_TEMPLATE@,
    ensures
        text@ == manifest_text(manifest@),
{
    let mut ctx = std::collections::BTreeMap::new();
    ctx.insert("name", minijinja::value::Value::from_serialize(&manifest.name));
    ctx.insert("version", minijinja::value::Value::from_serialize(&manifest.version));
    ctx.insert("author", minijinja::value::Value::from_serialize(&manifest.author));
    ctx.insert("channels", minijinja::value::Value::from_serialize(&manifest.channels));
    ctx.insert("platforms", minijinja::value::Value::from_serialize(&manifest.platforms));
    minijinja::Environment::new().render_named_str(name, source, ctx).unwrap()
}

impl Manifest {
    /// The text of the manifest.
    pub fn render(&self) -> (text: String)
        ensures
            text@ == manifest_text(self@),
    {
        render_named_str(PROJECT_MANIFEST, PROJECT_TEMPLATE, self)
    }
}

/// Whether a text names a platform that programs are built for.
pub open spec fn is_build_platform(name: Seq<char>) -> bool {
    ||| name == "linux-32"@
    ||| name == "linux-64"@
    ||| name == "linux-aarch64"@
    ||| name == "linux-armv6l"@
    ||| name == "linux-armv7l"@
    ||| name == "linux-ppc64le"@
    ||| name == "linux-ppc64"@
    ||| name == "linux-s390x"@
    ||| name == "linux-riscv32"@
    ||| name == "linux-riscv64"@
    ||| name == "osx-64"@
    ||| name == "osx-arm64"@
    ||| name == "win-32"@
    ||| name == "win-64"@
    ||| name == "win-arm64"@
    ||| name == "emscripten-wasm32"@
    ||| name == "wasi-wasm32"@
    ||| name == "unknown"@
}

/// Calls `rattler_conda_types::Platform::current`.
///
/// Believed of it: it is one of the platforms that programs are built for. Which one depends on
/// what the program was built for.
#[verifier::external_body]
fn current_platform() -> (name: String)
    ensures
        is_build_platform(name@),
{
    rattler_conda_types::Platform::current().to_string()
}

/// The platforms that were asked for, or the current one if none were asked for.
pub open spec fn platforms_or(asked: Seq<Seq<char>>, current: Seq<char>) -> Seq<Seq<char>> {
    if asked.len() == 0 {
        seq![current]
    } else {
        asked
    }
}

/// The platforms that were asked for, or the given one if none were asked for.
pub fn choose_platforms(asked: Vec<String>, current: String) -> (platforms: Vec<String>)
    ensures
        platforms.deep_view() == platforms_or(asked.deep_view(), current@),
{
    if asked.len() == 0 {
        let mut platforms: Vec<String> = Vec::new();
        platforms.push(current);
        assert(platforms.deep_view() =~= seq![current@]);
        platforms
    } else {
        asked
    }
}

/// The platforms of a new project: those that were asked for, or the platform that this program
/// was built for if none were asked for.
pub fn project_platforms(asked: Vec<String>) -> (platforms: Vec<String>)
    ensures
        exists|current: Seq<char>| #[trigger]
            is_build_platform(current) && platforms.deep_view() == platforms_or(
                asked.deep_view(),
                current,
            ),
{
    choose_platforms(asked, current_platform())
}

/// A list whose first item is not empty leaves a trace.
proof fn lemma_quoted_is_not_empty(items: Seq<Seq<char>>)
    requires
        items.len() > 0,
        items[0].len() > 0,
    ensures
        quoted(items).len() > 0,
    decreases items.len(),
{
    if items.len() > 1 {
        lemma_quoted_is_not_empty(items.drop_last());
    } else {
        assert(items.last() == items[0]);
    }
}

/// Where in a list of quoted items an item starts, if the first item is not empty: behind the
/// items in front of it and the four characters that part one item from the next.
pub open spec fn item_start(items: Seq<Seq<char>>, i: int) -> int
    decreases i,
{
    if i <= 0 {
        0
    } else {
        item_start(items, i - 1) + items[i - 1].len() + 4
    }
}

/// Every item of a list is quoted, in its place and as it is: the first at the start, each other
/// four characters behind the one in front of it, with a closing quote, a comma, a space and an
/// opening quote in between, and the last at the end.
pub proof fn law_every_item_is_quoted(items: Seq<Seq<char>>, i: int)
    requires
        items[0].len() > 0,
        0 <= i < items.len(),
    ensures
        occurs_at(quoted(items), items[i], item_start(items, i)),
        i > 0 ==> occurs_at(quoted(items), "\", \""@, item_start(items, i) - 4),
        i == items.len() - 1 ==> quoted(items).len() == item_start(items, i) + items[i].len(),
    decreases items.len(),
{
    reveal_strlit("\", \"");
    let front = items.drop_last();
    if items.len() == 1 {
        assert(quoted(front) =~= Seq::<char>::empty());
        assert(items[0].subrange(0, items[0].len() as int) =~= items[0]);
    } else {
        lemma_quoted_is_not_empty(front);
        law_every_item_is_quoted(front, front.len() - 1);
        lemma_start_of_front(items, front.len() as int);
        lemma_start_of_front(items, front.len() - 1);
        let start = item_start(items, front.len() as int);
        let all = quoted(items);
        if i < front.len() {
            law_every_item_is_quoted(front, i);
            lemma_start_of_front(items, i);
            let at = item_start(items, i);
            assert(all.subrange(at, at + items[i].len()) =~= quoted(front).subrange(
                at,
                at + items[i].len(),
            ));
            if i > 0 {
                assert(all.subrange(at - 4, at) =~= quoted(front).subrange(at - 4, at));
            }
        } else {
            assert(all.subrange(start, start + items[i].len()) =~= items[i]);
            assert(all.subrange(start - 4, start) =~= "\", \""@);
        }
    }
}

/// Where an item starts does not depend on what comes behind it.
proof fn lemma_start_of_front(items: Seq<Seq<char>>, i: int)
    requires
        0 <= i < items.len(),
    ensures
        item_start(items.drop_last(), i) == item_start(items, i),
    decreases i,
{
    if i > 0 {
        lemma_start_of_front(items, i - 1);
    }
}

/// What a manifest says, line by line: the name, the version, the author if there is one, the
/// channels and the platforms.
pub proof fn law_manifest_lines(manifest: ManifestView)
    ensures
        ({
            let front = "[project]\nname = \""@ + manifest.name + "\"\nversion = \""@
                + manifest.version + "\"\ndescription = \"Add a short description here\""@;
            let signed = match manifest.author {
                Some((name, mail)) => front + "\nauthors = [\""@ + name + " <"@ + mail + ">\"]"@,
                None => front,
            };
            let listed = if manifest.channels.len() == 0 {
                signed + "\nchannels = []"@
            } else {
                signed + "\nchannels = [\""@ + quoted(manifest.channels) + "\"]"@
            };
            manifest_text(manifest) == listed + "\nplatforms = [\""@ + quoted(manifest.platforms)
                + "\"]\n\n[tasks]\n\n[dependencies]\n"@
        }),
{
    reveal_strlit("\nchannels = ");
    reveal_strlit("\nchannels = []");
    reveal_strlit("\nchannels = [\"");
    reveal_strlit("[]");
    reveal_strlit("[\"");
    assert("\nchannels = "@ + "[]"@ =~= "\nchannels = []"@);
    assert("\nchannels = "@ + "[\""@ =~= "\nchannels = [\""@);
    let front = "[project]\nname = \""@ + manifest.name + "\"\nversion = \""@ + manifest.version
        + "\"\ndescription = \"Add a short description here\""@;
    let signed = match manifest.author {
        Some((name, mail)) => front + "\nauthors = [\""@ + name + " <"@ + mail + ">\"]"@,
        None => front,
    };
    assert(front + authors_line(manifest.author) =~= signed);
    let listed = if manifest.channels.len() == 0 {
        signed + "\nchannels = []"@
    } else {
        signed + "\nchannels = [\""@ + quoted(manifest.channels) + "\"]"@
    };
    if manifest.channels.len() == 0 {
        assert(signed + "\nchannels = "@ + channel_list(manifest.channels) =~= signed + (
        "\nchannels = "@ + "[]"@));
    } else {
        assert(signed + "\nchannels = "@ + channel_list(manifest.channels) =~= signed + (
        "\nchannels = "@ + "[\""@) + quoted(manifest.channels) + "\"]"@);
    }
}

/// The platforms are those that were asked for, all of them and in their order; only where none
/// were asked for, it is the current one alone.
pub proof fn law_platforms_as_asked(asked: Seq<Seq<char>>, current: Seq<char>)
    ensures
        asked.len() > 0 ==> platforms_or(asked, current) == asked,
        asked.len() == 0 ==> platforms_or(asked, current) == seq![current],
{
}

} // verus!
