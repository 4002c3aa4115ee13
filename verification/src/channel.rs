//! Conda channels, as plain values, and how they are read from a text.
use crate::anchor::Anchor;
use crate::text::{
    alphanumeric, before_char, chars_of, contains, contains_text, front, has_char, is_alphanumeric,
    is_digit, lemma_before_first, occurs_at, occurs_here,
};
use vstd::prelude::*;
use vstd::string::StringExecFns;

verus! {

/// A channel: where the packages of an environment come from.
#[derive(Debug, PartialEq, Eq)]
pub struct Channel {
    /// The platforms that the channel was limited to, by name.
    pub platforms: Option<Vec<String>>,
    /// The URL that everything in the channel is relative to.
    pub base_url: String,
    /// The name that the channel was given.
    pub name: Option<String>,
}

/// What a [`Channel`] holds.
pub struct ChannelView {
    pub platforms: Option<Seq<Seq<char>>>,
    pub base_url: Seq<char>,
    pub name: Option<Seq<char>>,
}

impl View for Channel {
    type V = ChannelView;

    open spec fn view(&self) -> ChannelView {
        ChannelView {
            platforms: self.platforms.deep_view(),
            base_url: self.base_url@,
            name: self.name.deep_view(),
        }
    }
}

impl DeepView for Channel {
    type V = ChannelView;

    open spec fn deep_view(&self) -> ChannelView {
        self@
    }
}

impl ChannelView {
    /// The name under which a manifest lists the channel. Only a channel that is reached over
    /// `http` or `https` goes by its own name, and only if it has one; any other goes by its URL.
    pub open spec fn label(self) -> Seq<char> {
        match self.name {
            Some(name) if occurs_at(self.base_url, "https:"@, 0) || occurs_at(
                self.base_url,
                "http:"@,
                0,
            ) => name,
            _ => self.base_url,
        }
    }
}

impl Channel {
    /// The name under which a manifest lists the channel.
    pub fn name(&self) -> (label: &str)
        ensures
            label@ == self@.label(),
    {
        let url = chars_of(self.base_url.as_str());
        let remote = occurs_here(&url, &chars_of("https:"), 0) || occurs_here(
            &url,
            &chars_of("http:"),
            0,
        );
        match &self.name {
            Some(name) if remote => name.as_str(),
            _ => self.base_url.as_str(),
        }
    }

    /// Whether two channels are the same in every part.
    pub fn same(&self, other: &Channel) -> (same: bool)
        ensures
            same == (self@ == other@),
    {
        let same_name = match (&self.name, &other.name) {
            (Some(a), Some(b)) => *a == *b,
            (None, None) => true,
            _ => false,
        };
        let same_platforms = match (&self.platforms, &other.platforms) {
            (Some(a), Some(b)) => same_list(a, b),
            (None, None) => true,
            _ => false,
        };
        self.base_url == other.base_url && same_name && same_platforms
    }
}

/// Whether two lists hold the same texts in the same order.
fn same_list(a: &Vec<String>, b: &Vec<String>) -> (same: bool)
    ensures
        same == (a.deep_view() == b.deep_view()),
{
    if a.len() != b.len() {
        assert(a.deep_view().len() != b.deep_view().len());
        return false;
    }
    for i in 0..a.len()
        invariant
            a.len() == b.len(),
            forall|j: int| 0 <= j < i ==> a.deep_view()[j] == b.deep_view()[j],
    {
        if a[i] != b[i] {
            assert(a.deep_view()[i as int] != b.deep_view()[i as int]);
            return false;
        }
        assert(a.deep_view()[i as int] == b.deep_view()[i as int]);
    }
    assert(a.deep_view() =~= b.deep_view());
    true
}

impl Clone for Channel {
    fn clone(&self) -> (copy: Self)
        ensures
            copy@ == self@,
    {
        let platforms = match &self.platforms {
            Some(names) => Some(names.clone()),
            None => None,
        };
        let name = match &self.name {
            Some(name) => Some(name.clone()),
            None => None,
        };
        let copy = Channel { platforms, base_url: self.base_url.clone(), name };
        assert(copy@.platforms == self@.platforms) by {
            if let Some(names) = self.platforms {
                assert(copy.platforms->0.deep_view() =~= names.deep_view());
            }
        }
        copy
    }
}

/// Why a text is not a channel.
#[derive(Debug, PartialEq, Eq)]
pub enum ChannelError {
    /// The text is not read at all.
    Unreadable,
    /// The text is a path that cannot be made absolute, for want of a current directory.
    NoDirectory,
    /// The text was read and refused, for the reason given.
    Invalid(String),
}

/// What a [`ChannelError`] holds.
pub enum ChannelErrorView {
    Unreadable,
    NoDirectory,
    Invalid(Seq<char>),
}

impl View for ChannelError {
    type V = ChannelErrorView;

    open spec fn view(&self) -> ChannelErrorView {
        match self {
            ChannelError::Unreadable => ChannelErrorView::Unreadable,
            ChannelError::NoDirectory => ChannelErrorView::NoDirectory,
            ChannelError::Invalid(reason) => ChannelErrorView::Invalid(reason@),
        }
    }
}

/// What reading a channel came to.
pub type ChannelOutcome = Result<ChannelView, ChannelErrorView>;

/// The outcome that a result stands for.
pub open spec fn channel_outcome(read: Result<Channel, ChannelError>) -> ChannelOutcome {
    match read {
        Ok(channel) => Ok(channel@),
        Err(error) => Err(error@),
    }
}

/// A text of fewer characters than this makes a URL whose positions fit into 32 bits, however much
/// of it has to be escaped.
pub const MAX_TEXT: usize = 0x1000_0000;

/// Whether a channel text has a list of platforms, which stands in brackets.
pub open spec fn is_listed(text: Seq<char>) -> bool {
    text.contains('[') && text.contains(']')
}

/// The part of a channel text in front of its list of platforms.
pub open spec fn address(text: Seq<char>) -> Seq<char> {
    if is_listed(text) {
        before_char(text, '[')
    } else {
        text
    }
}

/// Whether an address starts with a URL scheme and `://`.
pub open spec fn has_scheme(address: Seq<char>) -> bool {
    exists|end: int|
        1 <= end <= 11 && #[trigger] occurs_at(address, "://"@, end) && !is_digit(address[0])
            && forall|i: int| 0 <= i < end ==> is_alphanumeric(#[trigger] address[i])
}

/// Whether an address starts like a path.
pub open spec fn has_path_prefix(address: Seq<char>) -> bool {
    ||| occurs_at(address, "./"@, 0)
    ||| occurs_at(address, ".."@, 0)
    ||| occurs_at(address, "~"@, 0)
    ||| occurs_at(address, "/"@, 0)
    ||| occurs_at(address, "\\\\"@, 0)
}

/// Whether a colon and a slash stand behind the first character of an address.
pub open spec fn has_drive(address: Seq<char>) -> bool {
    &&& address.len() >= 3
    &&& address[1] == ':'
    &&& address[2] == '/' || address[2] == '\\'
}

/// Whether an address is a path in the file system.
pub open spec fn is_path(address: Seq<char>) -> bool {
    !contains_text(address, "://"@) && (has_path_prefix(address) || has_drive(address)
        && is_alphanumeric(address[0]) && !is_digit(address[0]))
}

/// Whether an address may be a path in the file system: one is, and one with a drive whose letter
/// is not an ASCII letter is if Unicode knows it as a letter.
pub open spec fn may_be_path(address: Seq<char>) -> bool {
    !contains_text(address, "://"@) && (has_path_prefix(address) || has_drive(address) && (
    address[0] >= '\u{80}' || is_alphanumeric(address[0]) && !is_digit(address[0])))
}

/// An address with a slash at its end.
pub open spec fn directory(address: Seq<char>) -> Seq<char> {
    if address.len() > 0 && address.last() == '/' {
        address
    } else {
        address + "/"@
    }
}

/// Whether an address is relative to a server, whatever it holds: it has no colon and starts
/// neither with a slash nor with anything that a URL leaves out.
pub open spec fn is_simple(address: Seq<char>) -> bool {
    ||| address.len() == 0
    ||| {
        &&& address.len() < MAX_TEXT
        &&& !address.contains(':')
        &&& address[0] > ' ' && address[0] != '/' && address[0] != '\\'
    }
}

/// How many bytes the URL has that `url::Url::join` makes of the address of the default server and
/// a reference; nothing where it fails.
pub uninterp spec fn alias_joined(reference: Seq<char>) -> Option<usize>;

/// Calls `url::Url::join` on the address of the default server, which is the `channel_alias` of
/// `rattler_conda_types::ChannelConfig::default`.
///
/// Believed of it: it returns, and whether it succeeds, and the length of the URL that it makes,
/// are functions of the reference alone, named `alias_joined`.
#[verifier::external_body]
fn join_alias(reference: &str) -> (joined: Option<usize>)
    ensures
        joined == alias_joined(reference@),
{
    match rattler_conda_types::ChannelConfig::default().channel_alias.join(reference) {
        Ok(url) => Some(url.as_str().len()),
        Err(_) => None,
    }
}

/// Whether a text is read as a channel. Left out are the texts on which reading cannot go on: a
/// list of platforms that opens at the very end or does not end in an ASCII character, an address
/// that is neither a URL nor a path and makes no URL on the default server, and a URL that leaves
/// no room for a slash at its end, since positions in a URL have 32 bits.
pub open spec fn readable_channel(text: Seq<char>) -> bool {
    let at = address(text);
    &&& is_listed(text) ==> text.last() < '\u{80}' && text.drop_last().contains('[')
    &&& has_scheme(at) ==> (alias_joined(at) matches Some(bytes) ==> bytes < u32::MAX)
    &&& has_scheme(at) || is_path(at) || is_simple(at) || alias_joined(directory(at)) is Some
}

/// Whether a channel may lie in the file system, so that what it is depends on the machine and
/// on the current directory.
pub open spec fn local_channel(text: Seq<char>) -> bool {
    may_be_path(address(text))
}

/// Whether a text is made of ASCII letters, digits, dashes and underscores, at least one.
pub open spec fn plain_name(text: Seq<char>) -> bool {
    &&& 0 < text.len() < MAX_TEXT
    &&& forall|i: int|
        0 <= i < text.len() ==> is_alphanumeric(#[trigger] text[i]) || text[i] == '-' || text[i]
            == '_'
}

/// The channel that a bare name stands for.
pub open spec fn named_channel(name: Seq<char>) -> ChannelView {
    ChannelView {
        platforms: None,
        base_url: "https://conda.anaconda.org/"@ + name + "/"@,
        name: Some(name),
    }
}

/// What `rattler_conda_types::Channel::from_str` makes of a text with the default channel
/// configuration, unless it is a path: the channel, or the words of the error.
pub uninterp spec fn channel_of(text: Seq<char>) -> Result<ChannelView, Seq<char>>;

/// The platforms that `rattler_conda_types::Channel::from_str` reads from a text, also from a path.
pub uninterp spec fn channel_platforms(text: Seq<char>) -> Option<Seq<Seq<char>>>;

/// Whether a channel is the one at a path: it goes by the path as it was written, and has a URL
/// into the file system.
pub open spec fn lies_at(path: Seq<char>, channel: ChannelView) -> bool {
    channel.name == Some(path) && occurs_at(channel.base_url, "file:"@, 0)
}

/// What holds of the channel that a text is read as. For a text that is not a path, there is only
/// one such channel; for a path, only its URL is left open.
pub open spec fn channel_holds(text: Seq<char>, channel: ChannelView) -> bool {
    &&& channel.platforms == channel_platforms(text)
    &&& !is_listed(text) ==> channel.platforms is None
    &&& is_path(address(text)) ==> lies_at(address(text), channel)
    &&& !is_path(address(text)) ==> channel_of(text) == Ok::<ChannelView, Seq<char>>(channel)
        || local_channel(text) && lies_at(address(text), channel)
    &&& plain_name(text) ==> channel == named_channel(text)
}

/// Whether these are the words in which a text is refused. A path is refused over its list of
/// platforms, or because it has no URL on the machine.
pub open spec fn channel_refused(text: Seq<char>, reason: Seq<char>) -> bool {
    if local_channel(text) {
        ||| is_listed(text) && reason == "could not parse the platforms"@
        ||| reason == "invalid path '"@ + address(text)
    } else {
        channel_of(text) == Err::<ChannelView, Seq<char>>(reason)
    }
}

/// Calls `rattler_conda_types::Channel::from_str` with the default channel configuration.
///
/// Believed of it: it returns for every readable text, given an anchor for one that may be a path.
/// (The anchor shows that the path could be made absolute. Should the current directory be lost
/// after that, a relative path makes the call panic.) What it makes of a text that is no path is a
/// function of the text alone, named `channel_of`; a bare name is a channel of that name on the
/// default server. A path becomes a channel that goes by the path and has a `file:` URL. Which
/// platforms it reads is a function of the text alone, named `channel_platforms`; without a list
/// there are none. A path is refused in the words for a bad list or in those for a bad path. Not
/// said is which URL a path gets, and whether it gets one, since both depend on the machine.
#[verifier::external_body]
fn channel_from_str(text: &str, anchor: Option<&Anchor>) -> (read: Result<Channel, String>)
    requires
        readable_channel(text@),
        local_channel(text@) ==> anchor is Some && anchor->0@ == address(text@),
    ensures
        read is Ok ==> read->Ok_0@.platforms == channel_platforms(text@),
        read is Ok ==> channel_holds(text@, read->Ok_0@),
        read is Err && !local_channel(text@) ==> channel_of(text@) == Err::<ChannelView, Seq<char>>(
            read->Err_0@,
        ),
        read is Err ==> channel_refused(text@, read->Err_0@),
        plain_name(text@) ==> read is Ok,
{
    let config = rattler_conda_types::ChannelConfig::default();
    match rattler_conda_types::Channel::from_str(text, &config) {
        Ok(c) => Ok(
            Channel {
                platforms: c.platforms.map(|all| all.iter().map(|p| p.to_string()).collect()),
                base_url: c.base_url.to_string(),
                name: c.name,
            },
        ),
        Err(e) => Err(e.to_string()),
    }
}

/// What a text may be read as. Where the text is readable and is not a path, there is exactly one
/// such outcome.
pub open spec fn channel_reads_as(text: Seq<char>, outcome: ChannelOutcome) -> bool {
    if !readable_channel(text) {
        outcome == Err::<ChannelView, ChannelErrorView>(ChannelErrorView::Unreadable)
    } else {
        match outcome {
            Ok(channel) => channel_holds(text, channel),
            Err(ChannelErrorView::Unreadable) => false,
            Err(ChannelErrorView::NoDirectory) => local_channel(text),
            Err(ChannelErrorView::Invalid(reason)) => !plain_name(text) && channel_refused(
                text,
                reason,
            ),
        }
    }
}

/// Whether an address starts with a URL scheme and `://`.
fn scheme_stands(chars: &Vec<char>) -> (stands: bool)
    ensures
        stands == has_scheme(chars@),
{
    let mark = chars_of("://");
    if chars.len() == 0 || ('0' <= chars[0] && chars[0] <= '9') {
        assert forall|end: int| 1 <= end <= 11 && #[trigger] occurs_at(chars@, "://"@, end) implies
            is_digit(chars@[0]) by {
        }
        return false;
    }
    let mut end: usize = 0;
    while end < 11
        invariant
            mark@ == "://"@,
            chars.len() > 0,
            !is_digit(chars@[0]),
            end <= 11,
            end <= chars.len(),
            forall|i: int| 0 <= i < end ==> is_alphanumeric(#[trigger] chars@[i]),
            forall|e: int| 1 <= e <= end ==> !occurs_at(chars@, "://"@, e),
        decreases 11 - end,
    {
        if end >= chars.len() || !alphanumeric(chars[end]) {
            assert forall|e: int|
                1 <= e <= 11 && #[trigger] occurs_at(chars@, "://"@, e) implies !(forall|i: int|
                0 <= i < e ==> is_alphanumeric(#[trigger] chars@[i])) by {
                assert(e > end);
                if end < chars.len() {
                    assert(!is_alphanumeric(chars@[end as int]));
                }
            }
            return false;
        }
        end = end + 1;
        if occurs_here(chars, &mark, end) {
            return true;
        }
    }
    false
}

/// Whether an address is a path in the file system, and whether it may be one.
fn path_stands(at: &str, chars: &Vec<char>) -> (stands: (bool, bool))
    requires
        chars@ == at@,
    ensures
        stands.0 == is_path(at@),
        stands.1 == may_be_path(at@),
{
    if contains(at, "://") {
        return (false, false);
    }
    let prefix = occurs_here(chars, &chars_of("./"), 0) || occurs_here(chars, &chars_of(".."), 0)
        || occurs_here(chars, &chars_of("~"), 0) || occurs_here(chars, &chars_of("/"), 0)
        || occurs_here(chars, &chars_of("\\\\"), 0);
    if prefix {
        return (true, true);
    }
    if chars.len() < 3 || chars[1] != ':' || (chars[2] != '/' && chars[2] != '\\') {
        return (false, false);
    }
    let letter = alphanumeric(chars[0]) && !('0' <= chars[0] && chars[0] <= '9');
    (letter, letter || chars[0] >= '\u{80}')
}

/// Whether an address is relative to a server, whatever it holds.
fn simple_stands(chars: &Vec<char>) -> (stands: bool)
    ensures
        stands == is_simple(chars@),
{
    chars.len() == 0 || (chars.len() < MAX_TEXT && !has_char(chars, ':') && chars[0] > ' '
        && chars[0] != '/' && chars[0] != '\\')
}

/// The part of a channel text in front of its list of platforms.
pub fn address_of(text: &str) -> (at: &str)
    ensures
        at@ == address(text@),
{
    let chars = chars_of(text);
    if has_char(&chars, '[') && has_char(&chars, ']') {
        front(text, '[')
    } else {
        text
    }
}

/// Whether a text is read as a channel.
pub fn channel_is_readable(text: &str) -> (readable: bool)
    ensures
        readable == readable_channel(text@),
{
    let chars = chars_of(text);
    if has_char(&chars, '[') && has_char(&chars, ']') {
        let mut start: Vec<char> = chars.clone();
        let last = chars[chars.len() - 1];
        start.pop();
        assert(start@ =~= text@.drop_last());
        if last >= '\u{80}' || !has_char(&start, '[') {
            return false;
        }
    }
    let at = address_of(text);
    let at_chars = chars_of(at);
    if scheme_stands(&at_chars) {
        return match join_alias(at) {
            Some(bytes) => bytes < u32::MAX as usize,
            None => true,
        };
    }
    if path_stands(at, &at_chars).0 || simple_stands(&at_chars) {
        return true;
    }
    if at_chars.len() > 0 && at_chars[at_chars.len() - 1] == '/' {
        join_alias(at).is_some()
    } else {
        join_alias(at.to_string().concat("/").as_str()).is_some()
    }
}

/// Whether a channel may lie in the file system.
pub fn channel_is_local(text: &str) -> (local: bool)
    ensures
        local == local_channel(text@),
{
    let at = address_of(text);
    path_stands(at, &chars_of(at)).1
}

impl Channel {
    /// Reads a channel, given an anchor for its address, if there is one.
    pub fn read_at(text: &str, anchor: Option<Anchor>) -> (read: Result<Channel, ChannelError>)
        requires
            anchor is Some ==> anchor->0@ == address(text@),
        ensures
            channel_reads_as(text@, channel_outcome(read)),
            read is Err && read->Err_0 is NoDirectory <==> readable_channel(text@) && local_channel(
                text@,
            ) && anchor is None,
    {
        if !channel_is_readable(text) {
            return Err(ChannelError::Unreadable);
        }
        if anchor.is_none() && channel_is_local(text) {
            return Err(ChannelError::NoDirectory);
        }
        match channel_from_str(text, anchor.as_ref()) {
            Ok(channel) => Ok(channel),
            Err(reason) => Err(ChannelError::Invalid(reason)),
        }
    }

    /// Reads a channel: a name on the default server, a URL or a path, with or without a list of
    /// platforms.
    pub fn read(text: &str) -> (read: Result<Channel, ChannelError>)
        ensures
            channel_reads_as(text@, channel_outcome(read)),
    {
        let anchor = if channel_is_local(text) {
            Anchor::of(address_of(text))
        } else {
            None
        };
        Channel::read_at(text, anchor)
    }
}

/// A bare name is readable, has no list of platforms, and is not a path.
pub proof fn lemma_plain_name(name: Seq<char>)
    requires
        plain_name(name),
    ensures
        !is_listed(name),
        !local_channel(name),
        readable_channel(name),
{
    assert(!name.contains('[') && !name.contains(':'));
    assert(is_alphanumeric(name[0]) || name[0] == '-' || name[0] == '_');
    reveal_strlit("./");
    reveal_strlit("..");
    reveal_strlit("~");
    reveal_strlit("/");
    reveal_strlit("\\\\");
    assert(name.subrange(0, 1)[0] == name[0]);
    if name.len() >= 2 {
        assert(name.subrange(0, 2)[0] == name[0]);
    }
    if has_drive(name) {
        assert(name.contains(name[1]));
    }
    if has_scheme(name) {
        let end = choose|end: int| 1 <= end <= 11 && #[trigger] occurs_at(name, "://"@, end);
        reveal_strlit("://");
        assert(name.subrange(end, end + 3)[0] == name[end]);
        assert(name.contains(name[end]));
    }
}

/// A bare name is read as the channel of that name on the default server.
pub proof fn law_plain_name_is_read(name: Seq<char>, outcome: ChannelOutcome)
    requires
        plain_name(name),
        channel_reads_as(name, outcome),
    ensures
        outcome == Ok::<ChannelView, ChannelErrorView>(named_channel(name)),
{
    lemma_plain_name(name);
}

/// A manifest lists the channel of a bare name under that name.
pub proof fn law_plain_name_is_listed(name: Seq<char>)
    ensures
        named_channel(name).label() == name,
{
    reveal_strlit("https://conda.anaconda.org/");
    reveal_strlit("https:");
    assert(named_channel(name).base_url.subrange(0, 6) =~= "https:"@);
}

/// What a text is read as. One that cannot be read at all is refused as such. One that is readable
/// and no path is exactly what `channel_of` says of it. One that is a path is a channel that goes
/// by the path and has a URL into the file system, or is refused.
pub proof fn law_channel_is_read(text: Seq<char>, outcome: ChannelOutcome)
    requires
        channel_reads_as(text, outcome),
    ensures
        !readable_channel(text) ==> outcome == Err::<ChannelView, ChannelErrorView>(
            ChannelErrorView::Unreadable,
        ),
        readable_channel(text) && !local_channel(text) ==> match channel_of(text) {
            Ok(channel) => outcome == Ok::<ChannelView, ChannelErrorView>(channel),
            Err(reason) => outcome == Err::<ChannelView, ChannelErrorView>(
                ChannelErrorView::Invalid(reason),
            ),
        },
        readable_channel(text) ==> outcome != Err::<ChannelView, ChannelErrorView>(
            ChannelErrorView::Unreadable,
        ),
        outcome is Ok && is_path(address(text)) ==> outcome->Ok_0.name == Some(address(text))
            && occurs_at(outcome->Ok_0.base_url, "file:"@, 0),
        outcome is Ok && !(text.contains('[') && text.contains(']'))
            ==> outcome->Ok_0.platforms is None,
        outcome is Ok ==> outcome->Ok_0.platforms == channel_platforms(text),
{
}

/// The address of a channel is its text without the list of platforms, which starts at the first
/// opening bracket if there is a closing one.
pub proof fn law_address(front: Seq<char>, list: Seq<char>)
    requires
        !front.contains('['),
    ensures
        address(front) == front,
        list.contains(']') ==> address(front + seq!['['] + list) == front,
        !front.contains(']') && !list.contains(']') ==> address(front + seq!['['] + list) == front
            + seq!['['] + list,
{
    let text = front + seq!['['] + list;
    let rest = seq!['['] + list;
    assert(text =~= front + rest);
    lemma_before_first(front, rest, '[');
    assert(text[front.len() as int] == '[');
    assert(text.contains('['));
    if list.contains(']') {
        let at = choose|at: int| 0 <= at < list.len() && list[at] == ']';
        assert(text[front.len() + 1 + at] == ']');
        assert(text.contains(']'));
    } else if text.contains(']') && !front.contains(']') {
        let at = choose|at: int| 0 <= at < text.len() && text[at] == ']';
        if at < front.len() {
            assert(front[at] == ']');
        } else if at > front.len() {
            assert(list[at - front.len() - 1] == ']');
        }
    }
}

/// A manifest lists a channel by its name if it has one and is reached over `http` or `https`, and
/// by its URL in all other cases.
pub proof fn law_label(channel: ChannelView, rest: Seq<char>)
    ensures
        (channel.base_url == "https:"@ + rest || channel.base_url == "http:"@ + rest)
            && channel.name is Some ==> channel.label() == channel.name->0,
        channel.name is None ==> channel.label() == channel.base_url,
        channel.base_url == "file:"@ + rest ==> channel.label() == channel.base_url,
{
    reveal_strlit("https:");
    reveal_strlit("http:");
    reveal_strlit("file:");
    let url = channel.base_url;
    if url == "https:"@ + rest {
        assert(url.subrange(0, 6) =~= "https:"@);
    }
    if url == "http:"@ + rest {
        assert(url.subrange(0, 5) =~= "http:"@);
    }
    if url == "file:"@ + rest {
        assert(url.subrange(0, 5)[0] == 'f');
        if url.len() >= 6 {
            assert(url.subrange(0, 6)[0] == 'f');
        }
    }
}

/// A text without an opening bracket and without colons is readable if it starts with a character
/// behind the space that is no slash of either kind, whatever comes behind that; it is no path if
/// it does not start with a dot or a tilde.
pub proof fn law_name_is_readable(text: Seq<char>)
    requires
        0 < text.len() < 0x1000_0000,
        !text.contains('['),
        !text.contains(':'),
        text[0] > ' ',
        text[0] != '/' && text[0] != '\\',
    ensures
        readable_channel(text),
        text[0] != '.' && text[0] != '~' ==> !local_channel(text),
{
    reveal_strlit("./");
    reveal_strlit("..");
    reveal_strlit("~");
    reveal_strlit("/");
    reveal_strlit("\\\\");
    reveal_strlit("://");
    assert(text.subrange(0, 1)[0] == text[0]);
    if text.len() >= 2 {
        assert(text.subrange(0, 2)[0] == text[0]);
        assert(text.contains(text[1]));
    }
    if has_scheme(text) {
        let end = choose|end: int| 1 <= end <= 11 && #[trigger] occurs_at(text, "://"@, end);
        assert(text.subrange(end, end + 3)[0] == text[end]);
        assert(text.contains(text[end]));
    }
}

/// A text that starts with a dot and a slash, two dots, a tilde, a slash or two backslashes is a
/// path, unless `://` stands in it; a text in which that stands is none.
pub proof fn law_paths_are_local(rest: Seq<char>, text: Seq<char>)
    requires
        !text.contains('['),
        text == "./"@ + rest || text == ".."@ + rest || text == "~"@ + rest || text == "/"@ + rest
            || text == "\\\\"@ + rest,
    ensures
        !contains_text(text, "://"@) ==> local_channel(text) && readable_channel(text),
        contains_text(text, "://"@) ==> !local_channel(text),
{
    reveal_strlit("./");
    reveal_strlit("..");
    reveal_strlit("~");
    reveal_strlit("/");
    reveal_strlit("\\\\");
    assert(text.subrange(0, 1) =~= text.take(1));
    if text.len() >= 2 {
        assert(text.subrange(0, 2) =~= text.take(2));
    }
    assert(("./"@ + rest).take(2) =~= "./"@);
    assert((".."@ + rest).take(2) =~= ".."@);
    assert(("~"@ + rest).take(1) =~= "~"@);
    assert(("/"@ + rest).take(1) =~= "/"@);
    assert(("\\\\"@ + rest).take(2) =~= "\\\\"@);
    assert(has_path_prefix(text));
    if has_scheme(text) {
        let end = choose|end: int| 1 <= end <= 11 && #[trigger] occurs_at(text, "://"@, end);
        assert(contains_text(text, "://"@));
    }
}

/// A text that starts with a scheme of up to eleven letters and digits, of which the first is a
/// letter, and `://` is a URL, and readable if it leaves room for a slash. A text without `://` is
/// none.
pub proof fn law_urls_have_schemes(scheme: Seq<char>, rest: Seq<char>, other: Seq<char>)
    requires
        1 <= scheme.len() <= 11,
        forall|i: int| 0 <= i < scheme.len() ==> is_alphanumeric(#[trigger] scheme[i]),
        !is_digit(scheme[0]),
        !rest.contains('['),
        !contains_text(other, "://"@),
    ensures
        has_scheme(scheme + "://"@ + rest),
        !local_channel(scheme + "://"@ + rest),
        readable_channel(scheme + "://"@ + rest) <==> match alias_joined(scheme + "://"@ + rest) {
            Some(bytes) => bytes < 0xffff_ffff,
            None => true,
        },
        !has_scheme(other),
{
    reveal_strlit("://");
    let text = scheme + "://"@ + rest;
    let end = scheme.len() as int;
    assert(text.subrange(end, end + 3) =~= "://"@);
    assert(occurs_at(text, "://"@, end));
    assert(text[0] == scheme[0]);
    assert forall|i: int| 0 <= i < end implies is_alphanumeric(#[trigger] text[i]) by {
        assert(text[i] == scheme[i]);
    }
    assert(!text.contains('[')) by {
        if text.contains('[') {
            let at = choose|at: int| 0 <= at < text.len() && text[at] == '[';
            if at < end {
                assert(is_alphanumeric(scheme[at]));
            } else if at >= end + 3 {
                assert(rest[at - end - 3] == '[');
            }
        }
    }
}

/// A letter, a colon and a slash of either kind start a path, unless `://` stands in the text. Any
/// character that is not ASCII counts as one that may be a letter.
pub proof fn law_drives_are_local(letter: char, slash: char, rest: Seq<char>)
    requires
        is_alphanumeric(letter) && !is_digit(letter) || letter >= '\u{80}',
        slash == '/' || slash == '\\',
        !rest.contains('['),
        !contains_text(seq![letter, ':', slash] + rest, "://"@),
    ensures
        local_channel(seq![letter, ':', slash] + rest),
        is_alphanumeric(letter) ==> readable_channel(seq![letter, ':', slash] + rest),
{
    let text = seq![letter, ':', slash] + rest;
    assert(text[0] == letter && text[1] == ':' && text[2] == slash);
    assert(!text.contains('[')) by {
        if text.contains('[') {
            let at = choose|at: int| 0 <= at < text.len() && text[at] == '[';
            assert(at != 0 || letter == '[');
            assert(rest[at - 3] == '[');
        }
    }
    assert(has_drive(text));
}

/// With a list of platforms behind it, an address is readable if and only if it is without one and
/// the list ends in an ASCII character, and it is a path if and only if it is one without.
pub proof fn law_list_of_platforms(front: Seq<char>, list: Seq<char>)
    requires
        !front.contains('['),
        list.contains(']'),
    ensures
        readable_channel(front + seq!['['] + list) <==> readable_channel(front) && list.last()
            <= '\u{7f}',
        local_channel(front + seq!['['] + list) <==> local_channel(front),
{
    let text = front + seq!['['] + list;
    law_address(front, list);
    assert(text[front.len() as int] == '[');
    let at = choose|at: int| 0 <= at < list.len() && list[at] == ']';
    assert(text[front.len() + 1 + at] == ']');
    assert(is_listed(text));
    assert(text.last() == list.last());
    assert(text.drop_last()[front.len() as int] == '[');
    assert(text.drop_last().contains('['));
}

/// An address that is neither a URL nor a path nor simple is readable if and only if it makes a URL
/// on the default server with a slash at its end, whether it is written with that slash or without.
pub proof fn law_other_addresses(front: Seq<char>)
    requires
        !(front + "/"@).contains('['),
        !has_scheme(front) && !is_path(front) && !is_simple(front),
        !has_scheme(front + "/"@) && !is_path(front + "/"@) && !is_simple(front + "/"@),
        front.len() > 0 && front.last() != '/',
    ensures
        readable_channel(front) <==> alias_joined(front + "/"@) is Some,
        readable_channel(front + "/"@) <==> alias_joined(front + "/"@) is Some,
{
    reveal_strlit("/");
    let text = front + "/"@;
    assert(text.last() == '/');
    assert(!front.contains('[')) by {
        if front.contains('[') {
            let at = choose|at: int| 0 <= at < front.len() && front[at] == '[';
            assert(text[at] == '[');
        }
    }
}

/// A list of platforms that opens at the very end of a text, behind a closing bracket, is not read.
pub proof fn law_open_list_is_not_read(front: Seq<char>)
    requires
        !front.contains('['),
        front.contains(']'),
    ensures
        !readable_channel(front.push('[')),
{
    let text = front.push('[');
    let at = choose|at: int| 0 <= at < front.len() && front[at] == ']';
    assert(text[at] == ']');
    assert(text.last() == '[');
    assert(text.contains('[') && text.contains(']'));
    assert(text.drop_last() =~= front);
}

} // verus!
