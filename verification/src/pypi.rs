//! Python packages: their names, the requirements on them, and how a `pip` entry is read.
use crate::marker::{depth_of_marker, lemma_depth_is_count, lemma_no_marker, marker_depth};
use crate::text::{contains_text, count_of, is_alphanumeric, occurs_at, MAX_DEPTH};
use std::str::FromStr;
use vstd::prelude::*;
use vstd::std_specs::cmp::PartialEqSpec;

verus! {

/// The name of a Python package. Two names are equal if they are equal once normalized.
#[derive(Debug)]
pub struct PackageName {
    /// The name as it was written.
    pub source: String,
    /// The form in which names are compared.
    pub normalized: String,
}

/// What a [`PackageName`] holds.
pub struct PackageNameView {
    pub source: Seq<char>,
    pub normalized: Seq<char>,
}

impl View for PackageName {
    type V = PackageNameView;

    open spec fn view(&self) -> PackageNameView {
        PackageNameView { source: self.source@, normalized: self.normalized@ }
    }
}

impl DeepView for PackageName {
    type V = PackageNameView;

    open spec fn deep_view(&self) -> PackageNameView {
        self@
    }
}

impl PartialEq for PackageName {
    fn eq(&self, other: &Self) -> (equal: bool) {
        self.normalized == other.normalized
    }
}

impl vstd::std_specs::cmp::PartialEqSpecImpl for PackageName {
    open spec fn obeys_eq_spec() -> bool {
        true
    }

    open spec fn eq_spec(&self, other: &Self) -> bool {
        self@.normalized == other@.normalized
    }
}

impl Eq for PackageName {
}

/// Whether a text is the name of a Python package: ASCII letters, digits, dots, underscores and
/// dashes, with a letter or a digit at both ends.
pub open spec fn is_package_name(text: Seq<char>) -> bool {
    &&& text.len() > 0
    &&& is_alphanumeric(text[0])
    &&& is_alphanumeric(text.last())
    &&& forall|i: int|
        0 <= i < text.len() ==> is_alphanumeric(#[trigger] text[i]) || text[i] == '.' || text[i]
            == '_' || text[i] == '-'
}

/// The form in which a character of a name is compared.
pub open spec fn normal_char(c: char) -> char {
    if c == '.' || c == '_' {
        '-'
    } else if 'A' <= c <= 'Z' {
        (c as u32 + 32) as char
    } else {
        c
    }
}

/// The package name that a text spells.
pub open spec fn package_name(text: Seq<char>) -> PackageNameView {
    PackageNameView { source: text, normalized: text.map_values(|c: char| normal_char(c)) }
}

/// The words in which a text is refused as a package name.
pub open spec fn invalid_name(text: Seq<char>) -> Seq<char> {
    "invalid package name '"@ + text + "'"@
}

/// Calls `rip::types::PackageName::from_str`, of the crate `rattler_installs_packages`.
///
/// Believed of it: it accepts the names of Python packages and nothing else, keeps the name as it
/// was written, normalizes it to lower case with a dash for each dot and each underscore, and
/// refuses any other text in the words of `invalid_name`.
#[verifier::external_body]
fn package_name_from_str(text: &str) -> (read: Result<PackageName, String>)
    ensures
        match read {
            Ok(name) => is_package_name(text@) && name@ == package_name(text@),
            Err(reason) => !is_package_name(text@) && reason@ == invalid_name(text@),
        },
{
    match rattler_installs_packages::types::PackageName::from_str(text) {
        Ok(name) => Ok(
            PackageName {
                source: name.as_source_str().to_string(),
                normalized: name.as_str().to_string(),
            },
        ),
        Err(e) => Err(e.to_string()),
    }
}

/// What a requirement says of where the package comes from.
#[derive(Debug, PartialEq, Eq)]
pub enum VersionOrUrl {
    /// Any of the versions that the specifiers allow.
    VersionSpecifier(String),
    /// A direct URL.
    Url(String),
}

/// What a [`VersionOrUrl`] holds.
pub enum VersionOrUrlView {
    VersionSpecifier(Seq<char>),
    Url(Seq<char>),
}

impl DeepView for VersionOrUrl {
    type V = VersionOrUrlView;

    open spec fn deep_view(&self) -> VersionOrUrlView {
        match self {
            VersionOrUrl::VersionSpecifier(text) => VersionOrUrlView::VersionSpecifier(text@),
            VersionOrUrl::Url(text) => VersionOrUrlView::Url(text@),
        }
    }
}

/// A dependency on a Python package.
#[derive(Debug, PartialEq, Eq)]
pub struct Requirement {
    /// The name of the package.
    pub name: String,
    /// The optional features that are asked for.
    pub extras: Option<Vec<String>>,
    /// Where the package comes from.
    pub version_or_url: Option<VersionOrUrl>,
}

/// What a [`Requirement`] holds.
pub struct RequirementView {
    pub name: Seq<char>,
    pub extras: Option<Seq<Seq<char>>>,
    pub version_or_url: Option<VersionOrUrlView>,
}

impl View for Requirement {
    type V = RequirementView;

    open spec fn view(&self) -> RequirementView {
        RequirementView {
            name: self.name@,
            extras: self.extras.deep_view(),
            version_or_url: self.version_or_url.deep_view(),
        }
    }
}

/// The requirement of any version of a package.
pub open spec fn bare_requirement(name: Seq<char>) -> RequirementView {
    RequirementView { name, extras: None, version_or_url: None }
}

/// What `pep508_rs::Requirement::from_str` makes of a text, on a machine whose largest `usize` is
/// `widest`: the requirement without its markers, or the words of the error.
pub uninterp spec fn requirement_of(text: Seq<char>, widest: int) -> Result<
    RequirementView,
    Seq<char>,
>;

/// Calls `pep508_rs::Requirement::from_str`.
///
/// Believed of it: it returns for every text whose marker has few groups open, with a result that
/// is a function of the text and of the machine's word size alone, named `requirement_of`. A bare
/// package name means any version of that package.
#[verifier::external_body]
fn requirement_from_str(text: &str) -> (read: Result<Requirement, String>)
    requires
        marker_depth(text@) <= MAX_DEPTH,
    ensures
        match read {
            Ok(requirement) => requirement_of(text@, usize::MAX as int) == Ok::<
                RequirementView,
                Seq<char>,
            >(requirement@),
            Err(reason) => requirement_of(text@, usize::MAX as int) == Err::<
                RequirementView,
                Seq<char>,
            >(reason@),
        },
        is_package_name(text@) ==> read is Ok && read->Ok_0@ == bare_requirement(text@),
{
    match pep508_rs::Requirement::from_str(text) {
        Ok(r) => {
            let version_or_url = match r.version_or_url {
                Some(pep508_rs::VersionOrUrl::VersionSpecifier(v)) => Some(
                    VersionOrUrl::VersionSpecifier(v.to_string()),
                ),
                Some(pep508_rs::VersionOrUrl::Url(u)) => Some(VersionOrUrl::Url(u.to_string())),
                None => None,
            };
            Ok(Requirement { name: r.name, extras: r.extras, version_or_url })
        },
        Err(e) => Err(e.to_string()),
    }
}

/// What the manifest records of a dependency on a Python package.
#[derive(Debug, PartialEq, Eq)]
pub struct PyPiRequirement {
    /// The versions that are allowed; any version where there is none.
    pub version: Option<String>,
    /// The optional features that are asked for.
    pub extras: Option<Vec<String>>,
    /// The index that the package has to come from.
    pub index: Option<String>,
}

/// What a [`PyPiRequirement`] holds.
pub struct PyPiRequirementView {
    pub version: Option<Seq<char>>,
    pub extras: Option<Seq<Seq<char>>>,
    pub index: Option<Seq<char>>,
}

impl View for PyPiRequirement {
    type V = PyPiRequirementView;

    open spec fn view(&self) -> PyPiRequirementView {
        PyPiRequirementView {
            version: self.version.deep_view(),
            extras: self.extras.deep_view(),
            index: self.index.deep_view(),
        }
    }
}

impl DeepView for PyPiRequirement {
    type V = PyPiRequirementView;

    open spec fn deep_view(&self) -> PyPiRequirementView {
        self@
    }
}

/// What the manifest records of a requirement: its version specifiers and its extras. A direct
/// URL is not recorded.
pub open spec fn recorded(requirement: RequirementView) -> PyPiRequirementView {
    PyPiRequirementView {
        version: match requirement.version_or_url {
            Some(VersionOrUrlView::VersionSpecifier(specifiers)) => Some(specifiers),
            _ => None,
        },
        extras: requirement.extras,
        index: None,
    }
}

impl PyPiRequirement {
    /// What the manifest records of a requirement.
    pub fn of(requirement: Requirement) -> (record: PyPiRequirement)
        ensures
            record@ == recorded(requirement@),
    {
        let version = match requirement.version_or_url {
            Some(VersionOrUrl::VersionSpecifier(specifiers)) => Some(specifiers),
            _ => None,
        };
        PyPiRequirement { version, extras: requirement.extras, index: None }
    }
}

/// The pattern of a Git repository in a URL: a slash, the name of the repository and `.git`.
pub const REPOSITORY_PATTERN: &'static str = r"/([^/]+)\.git";

/// Whether a slash at `slash` and `.git` at `dot` enclose the name of a repository.
pub open spec fn encloses_name(text: Seq<char>, slash: int, dot: int) -> bool {
    &&& 0 <= slash && slash + 1 < dot && dot + 4 <= text.len()
    &&& text[slash] == '/'
    &&& text[dot] == '.' && text[dot + 1] == 'g' && text[dot + 2] == 'i' && text[dot + 3] == 't'
    &&& forall|i: int| slash < i < dot ==> #[trigger] text[i] != '/'
}

/// Whether of all the names of repositories in a text this is the one whose slash comes first,
/// and after that slash the longest.
pub open spec fn first_name(text: Seq<char>, slash: int, dot: int) -> bool {
    &&& encloses_name(text, slash, dot)
    &&& forall|s: int, d: int| #[trigger]
        encloses_name(text, s, d) ==> slash < s || slash == s && d <= dot
}

/// The name of the Git repository that a text points at, if it points at one.
pub open spec fn repository_name(text: Seq<char>) -> Option<Seq<char>> {
    if exists|slash: int, dot: int| encloses_name(text, slash, dot) {
        let (slash, dot) = choose|slash: int, dot: int| first_name(text, slash, dot);
        Some(text.subrange(slash + 1, dot))
    } else {
        None
    }
}

/// Calls `regex::Regex::new` and `regex::Regex::captures`: what the first group of the pattern
/// holds where the pattern first matches in the text.
///
/// Believed of them, for the one pattern that is asked for: the pattern is well formed, the
/// leftmost match is taken, and its group is as long as the pattern lets it be, which is the name
/// of the repository.
#[verifier::external_body]
fn first_group(pattern: &str, text: &str) -> (group: Option<String>)
    requires
        pattern@ == REPOSITORY_PATTERN@,
    ensures
        group.deep_view() == repository_name(text@),
{
    let pattern = regex::Regex::new(pattern).unwrap();
    pattern.captures(text).map(|groups| groups.get(1).unwrap().as_str().to_string())
}

/// The requirement that a `pip` entry spells: the name of the repository where the entry points
/// at one, else the entry itself.
pub open spec fn requirement_text(entry: Seq<char>) -> Seq<char> {
    match repository_name(entry) {
        Some(name) => name,
        None => entry,
    }
}

/// Why a `pip` entry is not taken.
#[derive(Debug, PartialEq, Eq)]
pub enum PipError {
    /// The marker of the requirement has more than `MAX_DEPTH` groups open at a time. It is not
    /// read, although it may be one: so many groups may be too much for the stack.
    Unreadable,
    /// The requirement was read and refused, for the reason given.
    Requirement(String),
    /// The name in the requirement is refused, for the reason given.
    PackageName(String),
}

/// What a [`PipError`] holds.
pub enum PipErrorView {
    Unreadable,
    Requirement(Seq<char>),
    PackageName(Seq<char>),
}

impl View for PipError {
    type V = PipErrorView;

    open spec fn view(&self) -> PipErrorView {
        match self {
            PipError::Unreadable => PipErrorView::Unreadable,
            PipError::Requirement(reason) => PipErrorView::Requirement(reason@),
            PipError::PackageName(reason) => PipErrorView::PackageName(reason@),
        }
    }
}

/// What reading a `pip` entry came to.
pub type PipOutcome = Result<(PackageNameView, PyPiRequirementView), PipErrorView>;

/// The outcome that a result stands for.
pub open spec fn pip_outcome(
    read: Result<(PackageName, PyPiRequirement), PipError>,
) -> PipOutcome {
    match read {
        Ok(dependency) => Ok(dependency.deep_view()),
        Err(error) => Err(error@),
    }
}

/// What a requirement that was read comes to.
pub open spec fn accepted(requirement: RequirementView) -> PipOutcome {
    if is_package_name(requirement.name) {
        Ok((package_name(requirement.name), recorded(requirement)))
    } else {
        Err(PipErrorView::PackageName(invalid_name(requirement.name)))
    }
}

/// What a text comes to as a requirement.
pub open spec fn requirement_outcome(text: Seq<char>) -> PipOutcome {
    if marker_depth(text) > MAX_DEPTH {
        Err(PipErrorView::Unreadable)
    } else if is_package_name(text) {
        Ok((package_name(text), recorded(bare_requirement(text))))
    } else {
        match requirement_of(text, usize::MAX as int) {
            Ok(requirement) => accepted(requirement),
            Err(reason) => Err(PipErrorView::Requirement(reason)),
        }
    }
}

/// Takes a requirement that was read, if the name in it is the name of a package.
pub fn accept(requirement: Requirement) -> (read: Result<(PackageName, PyPiRequirement), PipError>)
    ensures
        pip_outcome(read) == accepted(requirement@),
{
    match package_name_from_str(requirement.name.as_str()) {
        Ok(name) => Ok((name, PyPiRequirement::of(requirement))),
        Err(reason) => Err(PipError::PackageName(reason)),
    }
}

/// Reads a `pip` entry of an environment file.
pub fn read_pip_entry(entry: &str) -> (read: Result<(PackageName, PyPiRequirement), PipError>)
    ensures
        pip_outcome(read) == requirement_outcome(requirement_text(entry@)),
{
    let text = match first_group(REPOSITORY_PATTERN, entry) {
        Some(name) => name,
        None => entry.to_string(),
    };
    if depth_of_marker(text.as_str()) > MAX_DEPTH {
        return Err(PipError::Unreadable);
    }
    match requirement_from_str(text.as_str()) {
        Ok(requirement) => accept(requirement),
        Err(reason) => Err(PipError::Requirement(reason)),
    }
}

/// Of the slashes that come before the name of a repository, one comes first.
proof fn lemma_first_slash(text: Seq<char>, slash: int, dot: int) -> (first: (int, int))
    requires
        encloses_name(text, slash, dot),
    ensures
        encloses_name(text, first.0, first.1),
        forall|s: int, d: int| #[trigger] encloses_name(text, s, d) ==> first.0 <= s,
    decreases slash,
{
    if exists|s: int, d: int| #[trigger] encloses_name(text, s, d) && s < slash {
        let (s, d) = choose|s: int, d: int| #[trigger] encloses_name(text, s, d) && s < slash;
        lemma_first_slash(text, s, d)
    } else {
        (slash, dot)
    }
}

/// Of the names of a repository behind one slash, one is the longest.
proof fn lemma_last_dot(text: Seq<char>, slash: int, dot: int) -> (last: int)
    requires
        encloses_name(text, slash, dot),
    ensures
        encloses_name(text, slash, last),
        forall|d: int| #[trigger] encloses_name(text, slash, d) ==> d <= last,
    decreases text.len() - dot,
{
    if exists|d: int| #[trigger] encloses_name(text, slash, d) && d > dot {
        let d = choose|d: int| #[trigger] encloses_name(text, slash, d) && d > dot;
        lemma_last_dot(text, slash, d)
    } else {
        dot
    }
}

/// Where a text points at Git repositories, exactly one of their names is the first.
pub proof fn law_one_name_is_first(text: Seq<char>, slash: int, dot: int)
    requires
        encloses_name(text, slash, dot),
    ensures
        exists|s: int, d: int| first_name(text, s, d),
        forall|s: int, d: int| #[trigger]
            first_name(text, s, d) ==> repository_name(text) == Some(text.subrange(s + 1, d)),
{
    let (s, d) = lemma_first_slash(text, slash, dot);
    let last = lemma_last_dot(text, s, d);
    assert(first_name(text, s, last));
    let (s1, d1) = choose|s: int, d: int| first_name(text, s, d);
    assert forall|s2: int, d2: int| #[trigger] first_name(text, s2, d2) implies repository_name(
        text,
    ) == Some(text.subrange(s2 + 1, d2)) by {
        assert(encloses_name(text, s1, d1) && encloses_name(text, s2, d2));
        assert(s1 == s2 && d1 == d2);
    }
}

/// The name of a repository is not empty and holds no slash.
pub proof fn law_repository_name_is_bare(text: Seq<char>)
    requires
        repository_name(text) is Some,
    ensures
        repository_name(text)->0.len() > 0,
        !repository_name(text)->0.contains('/'),
{
    let (slash, dot) = choose|slash: int, dot: int| encloses_name(text, slash, dot);
    law_one_name_is_first(text, slash, dot);
    let (s, d) = choose|s: int, d: int| first_name(text, s, d);
    let name = text.subrange(s + 1, d);
    assert(repository_name(text) == Some(name));
    assert forall|i: int| 0 <= i < name.len() implies name[i] != '/' by {
        assert(text[s + 1 + i] != '/');
    }
}

/// An entry without a slash spells its requirement itself.
pub proof fn law_entry_without_slash(entry: Seq<char>)
    requires
        !entry.contains('/'),
    ensures
        requirement_text(entry) == entry,
{
    assert forall|slash: int, dot: int| !encloses_name(entry, slash, dot) by {
        if encloses_name(entry, slash, dot) {
            assert(entry.contains(entry[slash]));
        }
    }
}

/// What an entry spells, taken as an entry, spells itself.
pub proof fn law_requirement_text_once(entry: Seq<char>)
    ensures
        requirement_text(requirement_text(entry)) == requirement_text(entry),
{
    if repository_name(entry) is Some {
        law_repository_name_is_bare(entry);
        law_entry_without_slash(requirement_text(entry));
    }
}

/// The name of a Python package has no marker and no slash.
proof fn lemma_package_name_is_bare(name: Seq<char>)
    requires
        is_package_name(name),
    ensures
        marker_depth(name) == 0,
        !name.contains('/'),
{
    assert(!name.contains(';'));
    lemma_no_marker(name);
}

/// An entry that is the name of a package asks for any version of it.
pub proof fn law_bare_name(name: Seq<char>)
    requires
        is_package_name(name),
    ensures
        requirement_outcome(requirement_text(name)) == Ok::<
            (PackageNameView, PyPiRequirementView),
            PipErrorView,
        >((package_name(name), recorded(bare_requirement(name)))),
{
    lemma_package_name_is_bare(name);
    law_entry_without_slash(name);
}

/// An entry that points at a Git repository named like a package asks for any version of that
/// package, wherever the repository lies and whatever revision of it is named.
pub proof fn law_repository_stands_for_package(entry: Seq<char>, name: Seq<char>)
    requires
        repository_name(entry) == Some(name),
        is_package_name(name),
    ensures
        requirement_outcome(requirement_text(entry)) == Ok::<
            (PackageNameView, PyPiRequirementView),
            PipErrorView,
        >((package_name(name), recorded(bare_requirement(name)))),
{
    lemma_package_name_is_bare(name);
}

/// A normalized name is its own normalized form.
pub proof fn law_normalized_once(text: Seq<char>)
    ensures
        package_name(package_name(text).normalized).normalized == package_name(text).normalized,
{
    let once = package_name(text).normalized;
    let twice = package_name(once).normalized;
    assert forall|i: int| 0 <= i < text.len() implies twice[i] == once[i] by {
        assert(normal_char(normal_char(text[i])) == normal_char(text[i]));
    }
    assert(twice =~= once);
}

/// Whatever a requirement says of versions or a URL, its extras are recorded as they are. Versions
/// are recorded exactly where the requirement gives them, as it gives them. No index is recorded.
pub proof fn law_requirement_is_recorded(requirement: RequirementView)
    ensures
        recorded(requirement).extras == requirement.extras,
        requirement.version_or_url matches Some(VersionOrUrlView::VersionSpecifier(specifiers))
            ==> recorded(requirement).version == Some(specifiers),
        requirement.version_or_url matches Some(VersionOrUrlView::Url(_)) ==> recorded(
            requirement,
        ).version is None,
        requirement.version_or_url is None ==> recorded(requirement).version is None,
        recorded(requirement).index is None,
{
}

/// A requirement is taken if and only if its name is one: letters, digits, dots, underscores and
/// dashes, with a letter or a digit at both ends. The name is kept as it is written, and compared in
/// lower case with a dash for each dot and underscore.
pub proof fn law_requirement_is_accepted(requirement: RequirementView)
    ensures
        match accepted(requirement) {
            Ok((name, record)) => {
                &&& name.source == requirement.name
                &&& name.normalized.len() == requirement.name.len()
                &&& forall|i: int|
                    0 <= i < requirement.name.len() ==> {
                        let c = requirement.name[i];
                        #[trigger] name.normalized[i] == if c == '.' || c == '_' {
                            '-'
                        } else if 'A' <= c <= 'Z' {
                            (c as u32 + 32) as char
                        } else {
                            c
                        }
                    }
                &&& record.extras == requirement.extras
                &&& record.index is None
                &&& match requirement.version_or_url {
                    Some(VersionOrUrlView::VersionSpecifier(specifiers)) => record.version == Some(
                        specifiers,
                    ),
                    _ => record.version is None,
                }
            },
            Err(error) => error == PipErrorView::PackageName(
                "invalid package name '"@ + requirement.name + "'"@,
            ),
        },
        accepted(requirement) is Ok <==> requirement.name.len() > 0 && is_alphanumeric(
            requirement.name[0],
        ) && is_alphanumeric(requirement.name.last()) && forall|i: int|
            0 <= i < requirement.name.len() ==> is_alphanumeric(#[trigger] requirement.name[i])
                || requirement.name[i] == '.' || requirement.name[i] == '_' || requirement.name[i]
                == '-',
{
}

/// A text is refused, unread, if and only if its marker has more than 128 groups open at a time. A
/// text that is read comes to what the requirement that is read comes to, or is refused in the words
/// in which it was refused there. The bare name of a package needs no reading.
pub proof fn law_requirement_is_read(text: Seq<char>)
    ensures
        requirement_outcome(text) == Err::<(PackageNameView, PyPiRequirementView), PipErrorView>(
            PipErrorView::Unreadable,
        ) <==> marker_depth(text) > 128,
        marker_depth(text) <= 128 && !is_package_name(text) ==> match requirement_of(
            text,
            usize::MAX as int,
        ) {
            Ok(requirement) => requirement_outcome(text) == accepted(requirement),
            Err(reason) => requirement_outcome(text) == Err::<
                (PackageNameView, PyPiRequirementView),
                PipErrorView,
            >(PipErrorView::Requirement(reason)),
        },
        is_package_name(text) ==> {
            let (name, record) = requirement_outcome(text)->Ok_0;
            &&& requirement_outcome(text) is Ok
            &&& name.source == text
            &&& record.version is None && record.extras is None && record.index is None
        },
{
    if is_package_name(text) {
        lemma_package_name_is_bare(text);
    }
}

/// A text with at most 128 opening parentheses is read, wherever they stand.
pub proof fn law_few_groups_are_read(text: Seq<char>)
    requires
        count_of(text, '(') <= 128,
    ensures
        requirement_outcome(text) != Err::<(PackageNameView, PyPiRequirementView), PipErrorView>(
            PipErrorView::Unreadable,
        ),
{
    lemma_depth_is_count(text);
    law_requirement_is_read(text);
}

/// An entry in which `.git` stands once, behind a name without a slash that stands behind a slash,
/// asks for what that name asks for.
pub proof fn law_repository_is_named(
    front: Seq<char>,
    name: Seq<char>,
    rest: Seq<char>,
    entry: Seq<char>,
)
    requires
        name.len() > 0,
        !name.contains('/'),
        entry == front + "/"@ + name + ".git"@ + rest,
        forall|at: int|
            #[trigger] occurs_at(entry, ".git"@, at) ==> at == front.len() + 1 + name.len(),
    ensures
        requirement_text(entry) == name,
{
    reveal_strlit("/");
    reveal_strlit(".git");
    let slash = front.len() as int;
    let dot = slash + 1 + name.len();
    assert(entry[slash] == '/');
    assert(entry.subrange(dot, dot + 4) =~= ".git"@);
    assert forall|i: int| slash < i < dot implies #[trigger] entry[i] != '/' by {
        assert(entry[i] == name[i - slash - 1]);
        assert(name.contains(name[i - slash - 1]));
    }
    assert(encloses_name(entry, slash, dot));
    assert forall|s: int, d: int| #[trigger] encloses_name(entry, s, d) implies s == slash && d
        == dot by {
        assert(entry.subrange(d, d + 4) =~= ".git"@);
        assert(occurs_at(entry, ".git"@, d));
        if s < slash {
            assert(entry[slash] != '/');
        }
        if s > slash {
            assert(entry[s] != '/');
        }
    }
    assert(first_name(entry, slash, dot));
    law_one_name_is_first(entry, slash, dot);
    assert(entry.subrange(slash + 1, dot) =~= name);
}

/// An entry without `.git` asks for what it says itself.
pub proof fn law_entry_without_repository(entry: Seq<char>)
    requires
        !contains_text(entry, ".git"@),
    ensures
        requirement_text(entry) == entry,
{
    reveal_strlit(".git");
    assert forall|s: int, d: int| !encloses_name(entry, s, d) by {
        if encloses_name(entry, s, d) {
            assert(entry.subrange(d, d + 4) =~= ".git"@);
            assert(occurs_at(entry, ".git"@, d));
        }
    }
}

/// Names are equal if and only if they are equal once normalized, however they were written.
pub proof fn law_names_are_compared_normalized(a: PackageName, b: PackageName)
    ensures
        a.eq_spec(&b) <==> a.normalized@ == b.normalized@,
{
}

} // verus!
