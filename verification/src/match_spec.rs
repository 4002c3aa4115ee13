//! Conda match specs, as plain values, and how they are read from a text.
use crate::anchor::Anchor;
use crate::bracket_items::{
    check_section, law_ordinary_section_fits, lemma_no_section, section_fits,
};
use crate::channel::{
    address, address_of, channel_holds, channel_is_local, channel_is_readable, channel_reads_as,
    lemma_plain_name, local_channel, named_channel, plain_name, readable_channel, Channel,
    ChannelView,
};
use crate::char_class::{is_of, law_run, lemma_past_all, past, skip_run, Class};
use crate::spec_parts::{
    bracket_section, channel_part, constraint_part, lemma_no_brackets, lemma_parts_are_small,
    split, unbracketed, uncommented,
};
use crate::text::{
    after_last, alphanumeric, before_char, before_last, chars_end_with, chars_of, contains_text,
    count_of, ends_with, is_alphanumeric, is_digit, is_white_space, law_trimmed,
    lemma_before_absent, lemma_before_first, lemma_count_absent, lemma_count_joined,
    lemma_last_absent, lemma_last_within, utf8_len,
};
use crate::version_text::{
    check_version, law_ordinary_version_fits, lemma_empty_fits, version_fits,
};
use std::str::FromStr;
use vstd::prelude::*;

verus! {

/// A match spec: which conda packages meet a dependency.
#[derive(Debug, PartialEq, Eq)]
pub struct MatchSpec {
    /// The text that the spec was read from.
    pub source: String,
    /// The name of the package, normalized.
    pub name: Option<String>,
    /// The versions that are allowed.
    pub version: Option<String>,
    /// The builds that are allowed.
    pub build: Option<String>,
    /// The channel that the package has to come from.
    pub channel: Option<Channel>,
}

/// What a [`MatchSpec`] holds.
pub struct MatchSpecView {
    pub source: Seq<char>,
    pub name: Option<Seq<char>>,
    pub version: Option<Seq<char>>,
    pub build: Option<Seq<char>>,
    pub channel: Option<ChannelView>,
}

impl View for MatchSpec {
    type V = MatchSpecView;

    open spec fn view(&self) -> MatchSpecView {
        MatchSpecView {
            source: self.source@,
            name: self.name.deep_view(),
            version: self.version.deep_view(),
            build: self.build.deep_view(),
            channel: self.channel.deep_view(),
        }
    }
}

impl DeepView for MatchSpec {
    type V = MatchSpecView;

    open spec fn deep_view(&self) -> MatchSpecView {
        self@
    }
}

/// Why a text is not a match spec.
#[derive(Debug, PartialEq, Eq)]
pub enum MatchSpecError {
    /// The text is not read at all.
    Unreadable,
    /// The channel is a path that cannot be made absolute, for want of a current directory.
    NoDirectory,
    /// The text was read and refused, for the reason given.
    Invalid(String),
}

/// What a [`MatchSpecError`] holds.
pub enum MatchSpecErrorView {
    Unreadable,
    NoDirectory,
    Invalid(Seq<char>),
}

impl View for MatchSpecError {
    type V = MatchSpecErrorView;

    open spec fn view(&self) -> MatchSpecErrorView {
        match self {
            MatchSpecError::Unreadable => MatchSpecErrorView::Unreadable,
            MatchSpecError::NoDirectory => MatchSpecErrorView::NoDirectory,
            MatchSpecError::Invalid(reason) => MatchSpecErrorView::Invalid(reason@),
        }
    }
}

/// What reading a match spec came to.
pub type MatchSpecOutcome = Result<MatchSpecView, MatchSpecErrorView>;

/// The outcome that a result stands for.
pub open spec fn match_spec_outcome(read: Result<MatchSpec, MatchSpecError>) -> MatchSpecOutcome {
    match read {
        Ok(spec) => Ok(spec@),
        Err(error) => Err(error@),
    }
}

/// Whether a text without its comment ends like the file name of a package archive.
pub open spec fn is_archive(bare: Seq<char>) -> bool {
    ends_with(bare, ".conda"@) || ends_with(bare, ".tar.bz2"@)
}

/// Whether a text starts like an absolute path: with a slash, or with two slashes of any kind.
pub open spec fn is_rooted(bare: Seq<char>) -> bool {
    bare.len() > 0 && (bare[0] == '/' || bare[0] == '\\' && bare.len() > 1 && (bare[1] == '/'
        || bare[1] == '\\'))
}

/// Whether a text starts with the scheme of a URL and a colon, but for what a URL leaves out.
pub open spec fn has_url_scheme(bare: Seq<char>) -> bool {
    let start = past(bare, 0, Class::Control);
    let end = past(bare, start, Class::Scheme);
    &&& start < bare.len() && is_alphanumeric(bare[start]) && !is_digit(bare[start])
    &&& end < bare.len() && bare[end] == ':'
}

/// Whether the text may point at a package archive by a URL or by an absolute path.
pub open spec fn points_at_archive(bare: Seq<char>) -> bool {
    is_archive(bare) && (is_rooted(bare) || has_url_scheme(bare))
}

/// Whether a text is read as a match spec.
///
/// Left out are the texts on which reading cannot go on: a URL or an absolute path of a package
/// archive, which is not supported, a channel that is not readable, and a build number in the
/// bracket section that does not fit into 64 bits. A version of `MAX_BYTES` or more bytes, or with
/// more than `MAX_DEPTH` groups open at a time, is left out although it may be read: an error in
/// the one could not be told, and the other may be too much for the stack.
pub open spec fn readable_match_spec(text: Seq<char>) -> bool {
    &&& !points_at_archive(before_char(text, '#'))
    &&& channel_part(text) matches Some(channel) ==> readable_channel(channel)
    &&& version_fits(constraint_part(text))
    &&& section_fits(bracket_section(uncommented(text)))
}

/// Whether the channel of a match spec may lie in the file system, so that what it is depends on
/// the machine and on the current directory.
pub open spec fn local_match_spec(text: Seq<char>) -> bool {
    channel_part(text) matches Some(channel) && local_channel(channel)
}

/// Whether a text is the bare, normalized name of a package without dots.
pub open spec fn plain_package(text: Seq<char>) -> bool {
    plain_name(text) && forall|i: int| 0 <= i < text.len() ==> !('A' <= #[trigger] text[i] <= 'Z')
}

/// The match spec of any version of a package, from any channel.
pub open spec fn bare_spec(name: Seq<char>) -> MatchSpecView {
    MatchSpecView { source: name, name: Some(name), version: None, build: None, channel: None }
}

/// A package's name with a channel's name in front.
pub open spec fn qualified(channel: Seq<char>, name: Seq<char>) -> Seq<char> {
    channel + "::"@ + name
}

/// The match spec of any version of a package, from the channel of the given name.
pub open spec fn qualified_spec(channel: Seq<char>, name: Seq<char>) -> MatchSpecView {
    MatchSpecView {
        source: qualified(channel, name),
        channel: Some(named_channel(channel)),
        ..bare_spec(name)
    }
}

/// What `rattler_conda_types::MatchSpec::from_str` makes of a text, on a machine whose largest
/// `usize` is `widest`: the spec, or the words of the error. Of a text whose channel is a path,
/// only the words of an error are meant, other than one over that path.
pub uninterp spec fn match_spec_of(text: Seq<char>, widest: int) -> Result<
    MatchSpecView,
    Seq<char>,
>;

/// The name, the versions, the builds and the name of the channel, if there is a channel, that
/// `rattler_conda_types::MatchSpec::from_str` reads from a text, on a machine whose largest `usize`
/// is `widest`.
pub uninterp spec fn match_spec_parts(text: Seq<char>, widest: int) -> (
    Option<Seq<char>>,
    Option<Seq<char>>,
    Option<Seq<char>>,
    Option<Option<Seq<char>>>,
);

impl MatchSpecView {
    /// The parts of a match spec that do not depend on where a path leads.
    pub open spec fn parts(self) -> (
        Option<Seq<char>>,
        Option<Seq<char>>,
        Option<Seq<char>>,
        Option<Option<Seq<char>>>,
    ) {
        let channel = match self.channel {
            Some(channel) => Some(channel.name),
            None => None,
        };
        (self.name, self.version, self.build, channel)
    }
}

/// What holds of the match spec that a text is read as. For a text whose channel is not a path,
/// there is only one such spec; otherwise only the URL of the channel is left open.
pub open spec fn match_spec_holds(text: Seq<char>, spec: MatchSpecView) -> bool {
    &&& spec.source == text
    &&& spec.parts() == match_spec_parts(text, usize::MAX as int)
    &&& match channel_part(text) {
        Some(channel) => spec.channel is Some && channel_holds(channel, spec.channel->0),
        None => spec.channel is None,
    }
    &&& !local_match_spec(text) ==> match_spec_of(text, usize::MAX as int) == Ok::<
        MatchSpecView,
        Seq<char>,
    >(spec)
    &&& plain_package(text) ==> spec == bare_spec(text)
    &&& forall|channel: Seq<char>, name: Seq<char>|
        text == #[trigger] qualified(channel, name) && plain_name(channel) && plain_package(name)
            ==> spec == qualified_spec(channel, name)
}

/// Whether these are the words in which a text is refused. A text whose channel is a path is
/// refused in words that depend on the text alone too, or because the path makes no channel.
pub open spec fn match_spec_refused(text: Seq<char>, reason: Seq<char>) -> bool {
    ||| match_spec_of(text, usize::MAX as int) == Err::<MatchSpecView, Seq<char>>(reason)
    ||| local_match_spec(text) && reason == "invalid channel"@
}

/// Whether a text is the bare name of a package, with or without the bare name of a channel in
/// front.
pub open spec fn is_plain(text: Seq<char>) -> bool {
    plain_package(text) || exists|channel: Seq<char>, name: Seq<char>|
        text == #[trigger] qualified(channel, name) && plain_name(channel) && plain_package(name)
}

/// Calls `rattler_conda_types::MatchSpec::from_str`.
///
/// Believed of it: it returns for every readable text, given an anchor if the channel may be a
/// path. (The anchor shows that the path could be made absolute. Should the current directory be
/// lost after that, a relative path makes the call panic.) The name, the versions, the builds and
/// the name of the channel are functions of the text and of the machine's word size alone, named
/// `match_spec_parts`. There is a channel if and only if the text has the part for it, and it is
/// what `rattler_conda_types::Channel::from_str` makes of that part. Unless that is a path, the
/// whole result is a function of the text and of the word size, named `match_spec_of`; if it is, so
/// are the words in which the text is refused, but for those that refuse the path. A bare package
/// name means any version of that package, and a channel's name and two colons in front of it add
/// that channel. Not said is which URL a path gets, and whether it gets one, since both depend on
/// the machine. On some texts that are refused the call also writes to standard error.
#[verifier::external_body]
fn match_spec_from_str(text: &str, anchor: Option<&Anchor>) -> (read: Result<MatchSpec, String>)
    requires
        readable_match_spec(text@),
        local_match_spec(text@) ==> anchor is Some && anchor->0@ == address(
            channel_part(text@)->0,
        ),
    ensures
        read is Ok ==> read->Ok_0@.parts() == match_spec_parts(text@, usize::MAX as int),
        read is Ok ==> match_spec_holds(text@, read->Ok_0@),
        !local_match_spec(text@) ==> match read {
            Ok(spec) => match_spec_of(text@, usize::MAX as int) == Ok::<MatchSpecView, Seq<char>>(
                spec@,
            ),
            Err(reason) => match_spec_of(text@, usize::MAX as int) == Err::<
                MatchSpecView,
                Seq<char>,
            >(reason@),
        },
        read is Err ==> match_spec_refused(text@, read->Err_0@),
        is_plain(text@) ==> read is Ok,
{
    let source = text.to_string();
    match rattler_conda_types::MatchSpec::from_str(text) {
        Ok(s) => {
            let channel = s.channel.map(|c| Channel {
                platforms: c.platforms.as_ref().map(|a| a.iter().map(|p| p.to_string()).collect()),
                base_url: c.base_url.to_string(),
                name: c.name.clone(),
            });
            let name = s.name.map(|n| n.as_normalized().to_string());
            let version = s.version.map(|v| v.to_string());
            Ok(MatchSpec { source, name, version, build: s.build.map(|b| b.to_string()), channel })
        },
        Err(e) => Err(e.to_string()),
    }
}

/// What a text may be read as. Where the text is readable and its channel is not a path, there is
/// exactly one such outcome.
pub open spec fn match_spec_reads_as(text: Seq<char>, outcome: MatchSpecOutcome) -> bool {
    if !readable_match_spec(text) {
        outcome == Err::<MatchSpecView, MatchSpecErrorView>(MatchSpecErrorView::Unreadable)
    } else {
        match outcome {
            Ok(spec) => match_spec_holds(text, spec),
            Err(MatchSpecErrorView::Unreadable) => false,
            Err(MatchSpecErrorView::NoDirectory) => local_match_spec(text),
            Err(MatchSpecErrorView::Invalid(reason)) => !is_plain(text) && match_spec_refused(
                text,
                reason,
            ),
        }
    }
}

/// Whether a text without its comment may point at a package archive.
fn archive_stands(bare: &Vec<char>) -> (stands: bool)
    ensures
        stands == points_at_archive(bare@),
{
    if !chars_end_with(bare, ".conda") && !chars_end_with(bare, ".tar.bz2") {
        return false;
    }
    let rooted = bare.len() > 0 && (bare[0] == '/' || (bare[0] == '\\' && bare.len() > 1 && (
    bare[1] == '/' || bare[1] == '\\')));
    if rooted {
        return true;
    }
    let start = skip_run(bare, 0, Class::Control);
    let end = skip_run(bare, start, Class::Scheme);
    start < bare.len() && alphanumeric(bare[start]) && !('0' <= bare[start] && bare[start] <= '9')
        && end < bare.len() && bare[end] == ':'
}

impl MatchSpec {
    /// Reads a match spec, given an anchor for the address of its channel, if there is one.
    pub fn read_at(text: &str, anchor: Option<Anchor>) -> (read: Result<MatchSpec, MatchSpecError>)
        requires
            anchor is Some ==> anchor->0@ == address(channel_part(text@)->0),
        ensures
            match_spec_reads_as(text@, match_spec_outcome(read)),
            read is Err && read->Err_0 is NoDirectory <==> readable_match_spec(text@)
                && local_match_spec(text@) && anchor is None,
    {
        let parts = split(text);
        if archive_stands(&chars_of(parts.bare.as_str())) {
            return Err(MatchSpecError::Unreadable);
        }
        if !check_version(&chars_of(parts.constraint.as_str())) || !check_section(&parts.section) {
            return Err(MatchSpecError::Unreadable);
        }
        if let Some(channel) = &parts.channel {
            if !channel_is_readable(channel.as_str()) {
                return Err(MatchSpecError::Unreadable);
            }
            if anchor.is_none() && channel_is_local(channel.as_str()) {
                return Err(MatchSpecError::NoDirectory);
            }
        }
        match match_spec_from_str(text, anchor.as_ref()) {
            Ok(spec) => Ok(spec),
            Err(reason) => Err(MatchSpecError::Invalid(reason)),
        }
    }

    /// Reads a match spec.
    pub fn read(text: &str) -> (read: Result<MatchSpec, MatchSpecError>)
        ensures
            match_spec_reads_as(text@, match_spec_outcome(read)),
    {
        let anchor = match split(text).channel {
            Some(channel) if channel_is_local(channel.as_str()) => Anchor::of(
                address_of(channel.as_str()),
            ),
            _ => None,
        };
        MatchSpec::read_at(text, anchor)
    }
}

/// A text of ASCII letters, digits, dashes, underscores and colons can be read if it names no
/// channel, or one that is readable.
proof fn lemma_simple_text(text: Seq<char>)
    requires
        0 < text.len(),
        forall|i: int|
            0 <= i < text.len() ==> is_alphanumeric(#[trigger] text[i]) || text[i] == '-' || text[i]
                == '_' || text[i] == ':',
    ensures
        uncommented(text) == text,
        unbracketed(text) == text,
        channel_part(text) matches Some(channel) ==> readable_channel(channel) ==>
            readable_match_spec(text),
        channel_part(text) is None ==> readable_match_spec(text),
{
    assert(!text.contains('#') && !text.contains(']') && !text.contains('.'));
    lemma_before_absent(text, '#');
    assert(!is_white_space(text[0]) && !is_white_space(text[text.len() - 1]));
    law_trimmed(text);
    lemma_no_brackets(text);
    lemma_no_section();
    lemma_empty_fits();
    let spec = after_last(text, ':');
    lemma_last_within(text, ':');
    assert forall|i: int| 0 <= i < spec.len() implies is_of(
        #[trigger] spec[i],
        Class::Name,
    ) by {
        assert(spec[i] == text[i + text.len() - spec.len()]);
    }
    lemma_past_all(spec, 0, Class::Name);
    assert(spec.skip(spec.len() as int) =~= Seq::<char>::empty());
    assert(!is_archive(text)) by {
        reveal_strlit(".conda");
        reveal_strlit(".tar.bz2");
        if is_archive(text) {
            let tail = if ends_with(text, ".conda"@) {
                ".conda"@
            } else {
                ".tar.bz2"@
            };
            assert(text.subrange(text.len() - tail.len(), text.len() as int)[0] == '.');
            assert(text.contains(text[text.len() - tail.len()]));
        }
    }
}

/// The bare name of a package can be read.
pub proof fn lemma_plain_package_readable(name: Seq<char>)
    requires
        plain_package(name),
    ensures
        readable_match_spec(name),
        !local_match_spec(name),
{
    lemma_simple_text(name);
    assert(!name.contains(':'));
    lemma_count_absent(name, ':');
}

/// A package's name with a channel's name in front has that name as the part for its channel.
proof fn lemma_qualified_channel(channel: Seq<char>, name: Seq<char>)
    requires
        plain_name(channel),
        plain_package(name),
    ensures
        channel_part(qualified(channel, name)) == Some(channel),
        readable_match_spec(qualified(channel, name)),
{
    let text = qualified(channel, name);
    reveal_strlit("::");
    assert forall|i: int| 0 <= i < text.len() implies is_alphanumeric(#[trigger] text[i]) || text[i]
        == '-' || text[i] == '_' || text[i] == ':' by {
        if i < channel.len() {
            assert(text[i] == channel[i]);
        } else if i >= channel.len() + 2 {
            assert(text[i] == name[i - channel.len() - 2]);
        }
    }
    lemma_simple_text(text);
    assert(!channel.contains(':') && !name.contains(':') && !channel.contains('/'));
    let first = channel.push(':');
    let both = first.push(':');
    assert(both + name =~= text);
    lemma_count_absent(channel, ':');
    assert(first.drop_last() =~= channel && both.drop_last() =~= first);
    assert(count_of(first, ':') == 1);
    assert(count_of(both, ':') == 2);
    lemma_count_joined(both, name, ':');
    lemma_count_absent(name, ':');
    assert(count_of(text, ':') == 2);
    let rest = text.skip(channel.len() as int);
    assert(rest[0] == ':');
    assert(channel + rest =~= text);
    lemma_before_first(channel, rest, ':');
    assert(before_char(text, ':') == channel);
    lemma_last_absent(channel, '/');
    assert(before_last(channel, '/') == channel);
    lemma_plain_name(channel);
}

/// A package's name with a channel's name in front asks for any version of that package from that
/// channel.
pub proof fn law_qualified_package(
    channel: Seq<char>,
    name: Seq<char>,
    outcome: MatchSpecOutcome,
)
    requires
        plain_name(channel),
        plain_package(name),
        match_spec_reads_as(qualified(channel, name), outcome),
    ensures
        outcome == Ok::<MatchSpecView, MatchSpecErrorView>(qualified_spec(channel, name)),
{
    lemma_qualified_channel(channel, name);
    lemma_plain_name(channel);
    assert(is_plain(qualified(channel, name)));
}

/// What a text is read as. One that cannot be read at all is refused as such. One that is readable
/// and whose channel is no path is exactly what `match_spec_of` says of it. A spec that was read
/// keeps its text, and has a channel if and only if the text names one: the one that its own text
/// is read as. The other parts are those that `match_spec_parts` says.
pub proof fn law_match_spec_is_read(text: Seq<char>, outcome: MatchSpecOutcome)
    requires
        match_spec_reads_as(text, outcome),
    ensures
        !readable_match_spec(text) <==> outcome == Err::<MatchSpecView, MatchSpecErrorView>(
            MatchSpecErrorView::Unreadable,
        ),
        readable_match_spec(text) && !local_match_spec(text) ==> match match_spec_of(
            text,
            usize::MAX as int,
        ) {
            Ok(spec) => outcome == Ok::<MatchSpecView, MatchSpecErrorView>(spec),
            Err(reason) => outcome == Err::<MatchSpecView, MatchSpecErrorView>(
                MatchSpecErrorView::Invalid(reason),
            ),
        },
        match outcome {
            Ok(spec) => {
                &&& spec.source == text
                &&& spec.channel is Some <==> channel_part(text) is Some
                &&& spec.channel is Some ==> channel_reads_as(
                    channel_part(text)->0,
                    Ok(spec.channel->0),
                )
                &&& (spec.name, spec.version, spec.build, channel_name(spec.channel))
                    == match_spec_parts(text, usize::MAX as int)
            },
            Err(_) => true,
        },
{
}

/// The name of a channel, if there is a channel.
pub open spec fn channel_name(channel: Option<ChannelView>) -> Option<Option<Seq<char>>> {
    match channel {
        Some(channel) => Some(channel.name),
        None => None,
    }
}

/// Every text of fewer than 65535 bytes with at most 128 opening parentheses is readable if it does
/// not end like a package archive, does not speak of a build number and names no channel, or one
/// that is readable.
pub proof fn law_ordinary_spec_is_readable(text: Seq<char>)
    requires
        utf8_len(text) < 0xffff,
        count_of(text, '(') <= 128,
        !contains_text(text, "build_number"@),
        !ends_with(before_char(text, '#'), ".conda"@),
        !ends_with(before_char(text, '#'), ".tar.bz2"@),
        channel_part(text) is Some ==> readable_channel(channel_part(text)->0),
    ensures
        readable_match_spec(text),
{
    lemma_parts_are_small(text, '(', "build_number"@);
    law_ordinary_version_fits(constraint_part(text));
    law_ordinary_section_fits(bracket_section(uncommented(text)));
}

/// The URL of a package archive, and an absolute path to one, is not read.
pub proof fn law_archive_is_not_read(
    scheme: Seq<char>,
    rest: Seq<char>,
    text: Seq<char>,
    outcome: MatchSpecOutcome,
)
    requires
        match_spec_reads_as(text, outcome),
        !text.contains('#'),
        ends_with(text, ".conda"@) || ends_with(text, ".tar.bz2"@),
        text == "/"@ + rest || text == "\\\\"@ + rest || text == "\\/"@ + rest || {
            &&& text == scheme + ":"@ + rest
            &&& scheme.len() > 0 && is_alphanumeric(scheme[0]) && !is_digit(scheme[0])
            &&& forall|i: int| 0 <= i < scheme.len() ==> is_alphanumeric(#[trigger] scheme[i])
        },
    ensures
        outcome == Err::<MatchSpecView, MatchSpecErrorView>(MatchSpecErrorView::Unreadable),
{
    lemma_before_absent(text, '#');
    reveal_strlit("/");
    reveal_strlit("\\\\");
    reveal_strlit("\\/");
    reveal_strlit(":");
    if text == "/"@ + rest {
        assert(text[0] == '/');
    } else if text == "\\\\"@ + rest {
        assert(text[0] == '\\' && text[1] == '\\');
    } else if text == "\\/"@ + rest {
        assert(text[0] == '\\' && text[1] == '/');
    } else {
        let n = scheme.len() as int;
        assert(text[0] == scheme[0]);
        law_run(text, 0, 0, Class::Control);
        assert forall|i: int| 0 <= i < n implies is_of(#[trigger] text[i], Class::Scheme) by {
            assert(text[i] == scheme[i]);
            assert(is_alphanumeric(scheme[i]));
        }
        assert(text[n] == ':');
        law_run(text, 0, n, Class::Scheme);
    }
}

} // verus!
