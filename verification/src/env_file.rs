//! What an `environment.yml` asks for: its channels and its dependencies.
use crate::channel::{channel_holds, Channel, ChannelView};
use crate::match_spec::{
    bare_spec, lemma_plain_package_readable, local_match_spec, match_spec_outcome,
    match_spec_reads_as, plain_package, readable_match_spec, MatchSpec, MatchSpecError,
    MatchSpecErrorView, MatchSpecOutcome, MatchSpecView,
};
use crate::pypi::{
    is_package_name, law_bare_name, law_requirement_text_once, pip_outcome, read_pip_entry,
    requirement_outcome, requirement_text, PackageName, PackageNameView, PipError, PipErrorView,
    PipOutcome, PyPiRequirement, PyPiRequirementView,
};
use crate::spec_parts::channel_part;
use crate::text::{
    is_trimmed, is_white_space, law_trimmed, law_trimming_takes_white_space_only, same_text, trim,
    trimmed,
};
use vstd::prelude::*;

verus! {

/// An `environment.yml` file.
#[derive(Debug, PartialEq, Eq)]
pub struct CondaEnvFile {
    /// The name of the environment; empty where the file gives none.
    pub name: String,
    /// The channels, as they are written; none where the file gives none.
    pub channels: Vec<String>,
    /// The dependencies.
    pub dependencies: Vec<CondaEnvDep>,
}

/// An item in the list of dependencies of an `environment.yml` file.
#[derive(Debug, PartialEq, Eq)]
pub enum CondaEnvDep {
    /// A conda package.
    Conda(String),
    /// A list of packages to be installed with `pip`.
    Pip { pip: Vec<String> },
}

/// What a [`CondaEnvDep`] holds.
pub enum CondaEnvDepView {
    Conda(Seq<char>),
    Pip { pip: Seq<Seq<char>> },
}

impl DeepView for CondaEnvDep {
    type V = CondaEnvDepView;

    open spec fn deep_view(&self) -> CondaEnvDepView {
        match self {
            CondaEnvDep::Conda(text) => CondaEnvDepView::Conda(text@),
            CondaEnvDep::Pip { pip } => CondaEnvDepView::Pip { pip: pip.deep_view() },
        }
    }
}

/// What a [`CondaEnvFile`] holds.
pub struct CondaEnvFileView {
    pub name: Seq<char>,
    pub channels: Seq<Seq<char>>,
    pub dependencies: Seq<CondaEnvDepView>,
}

impl View for CondaEnvFile {
    type V = CondaEnvFileView;

    open spec fn view(&self) -> CondaEnvFileView {
        CondaEnvFileView {
            name: self.name@,
            channels: self.channels.deep_view(),
            dependencies: self.dependencies.deep_view(),
        }
    }
}

/// The channels that one entry of the list of channels stands for: `defaults` for the three
/// default channels of conda, and any other entry for itself without the white space around it,
/// if anything is left.
pub open spec fn channels_of(entry: Seq<char>) -> Seq<Seq<char>> {
    if entry == "defaults"@ {
        seq!["main"@, "r"@, "msys2"@]
    } else if trimmed(entry).len() == 0 {
        Seq::empty()
    } else {
        seq![trimmed(entry)]
    }
}

/// The channels that a list of channels stands for, in order.
pub open spec fn expanded(entries: Seq<Seq<char>>) -> Seq<Seq<char>>
    decreases entries.len(),
{
    if entries.len() == 0 {
        Seq::empty()
    } else {
        expanded(entries.drop_last()) + channels_of(entries.last())
    }
}

/// The channels that the list of channels of an environment file stands for.
pub fn parse_channels(channels: Vec<String>) -> (new_channels: Vec<String>)
    ensures
        new_channels.deep_view() == expanded(channels.deep_view()),
{
    let mut new_channels: Vec<String> = Vec::new();
    let ghost entries = channels.deep_view();
    assert(entries.take(0) =~= Seq::<Seq<char>>::empty());
    assert(new_channels.deep_view() =~= Seq::<Seq<char>>::empty());
    for i in 0..channels.len()
        invariant
            entries == channels.deep_view(),
            new_channels.deep_view() == expanded(entries.take(i as int)),
    {
        let ghost before = new_channels.deep_view();
        assert(entries.take(i + 1).drop_last() =~= entries.take(i as int));
        assert(entries.take(i + 1).last() == channels[i as int]@);
        let channel = channels[i].as_str();
        if same_text(channel, "defaults") {
            new_channels.push("main".to_string());
            new_channels.push("r".to_string());
            new_channels.push("msys2".to_string());
            assert(new_channels.deep_view() =~= before + seq!["main"@, "r"@, "msys2"@]);
        } else {
            let channel = trim(channel);
            if !channel.is_empty() {
                new_channels.push(channel.to_string());
                assert(new_channels.deep_view() =~= before + seq![channel@]);
            } else {
                assert(new_channels.deep_view() =~= before + Seq::<Seq<char>>::empty());
            }
        }
    }
    assert(entries.take(channels.len() as int) =~= entries);
    new_channels
}

/// One dependency of an environment file.
pub enum Entry {
    /// A conda package.
    Conda(Seq<char>),
    /// A package to be installed with `pip`.
    Pip(Seq<char>),
}

/// The dependencies in one item of the list.
pub open spec fn item_entries(item: CondaEnvDepView) -> Seq<Entry> {
    match item {
        CondaEnvDepView::Conda(text) => seq![Entry::Conda(text)],
        CondaEnvDepView::Pip { pip } => pip.map_values(|text: Seq<char>| Entry::Pip(text)),
    }
}

/// The dependencies of an environment file, in order.
pub open spec fn entries(items: Seq<CondaEnvDepView>) -> Seq<Entry>
    decreases items.len(),
{
    if items.len() == 0 {
        Seq::empty()
    } else {
        entries(items.drop_last()) + item_entries(items.last())
    }
}

/// What reading one dependency came to.
pub enum EntryOutcome {
    Conda(MatchSpecOutcome),
    Pip(PipOutcome),
}

/// What a dependency may be read as.
pub open spec fn entry_reads_as(entry: Entry, outcome: EntryOutcome) -> bool {
    match (entry, outcome) {
        (Entry::Conda(text), EntryOutcome::Conda(outcome)) => match_spec_reads_as(text, outcome),
        (Entry::Pip(text), EntryOutcome::Pip(outcome)) => outcome == requirement_outcome(
            requirement_text(text),
        ),
        _ => false,
    }
}

/// Whether a dependency was taken.
pub open spec fn taken(outcome: EntryOutcome) -> bool {
    match outcome {
        EntryOutcome::Conda(outcome) => outcome is Ok,
        EntryOutcome::Pip(outcome) => outcome is Ok,
    }
}

/// The dependency that is not taken, and why.
#[derive(Debug, PartialEq, Eq)]
pub enum DependencyError {
    /// The text is not a match spec.
    Conda(String, MatchSpecError),
    /// The text is not a requirement on a Python package.
    Pip(String, PipError),
}

/// What a [`DependencyError`] holds.
pub enum DependencyErrorView {
    Conda(Seq<char>, MatchSpecErrorView),
    Pip(Seq<char>, PipErrorView),
}

impl View for DependencyError {
    type V = DependencyErrorView;

    open spec fn view(&self) -> DependencyErrorView {
        match self {
            DependencyError::Conda(text, error) => DependencyErrorView::Conda(text@, error@),
            DependencyError::Pip(text, error) => DependencyErrorView::Pip(text@, error@),
        }
    }
}

impl DependencyErrorView {
    /// The words in which the dependency was refused; none where it was not read at all.
    pub open spec fn reason(self) -> Option<Seq<char>> {
        match self {
            DependencyErrorView::Conda(_, MatchSpecErrorView::Invalid(reason)) => Some(reason),
            DependencyErrorView::Pip(_, PipErrorView::Requirement(reason)) => Some(reason),
            DependencyErrorView::Pip(_, PipErrorView::PackageName(reason)) => Some(reason),
            _ => None,
        }
    }
}

impl DependencyError {
    /// The words in which the dependency was refused; none where it was not read at all.
    pub fn reason(&self) -> (reason: Option<&str>)
        ensures
            reason.deep_view() == self@.reason(),
    {
        match self {
            DependencyError::Conda(_, MatchSpecError::Invalid(reason)) => Some(reason.as_str()),
            DependencyError::Pip(_, PipError::Requirement(reason)) => Some(reason.as_str()),
            DependencyError::Pip(_, PipError::PackageName(reason)) => Some(reason.as_str()),
            _ => None,
        }
    }
}

/// The error that names a dependency which was not taken.
pub open spec fn refusal(entry: Entry, outcome: EntryOutcome) -> DependencyErrorView {
    match (entry, outcome) {
        (Entry::Conda(text), EntryOutcome::Conda(outcome)) => DependencyErrorView::Conda(
            text,
            outcome->Err_0,
        ),
        (Entry::Pip(text), EntryOutcome::Pip(outcome)) => DependencyErrorView::Pip(
            text,
            outcome->Err_0,
        ),
        _ => arbitrary(),
    }
}

/// The dependencies of an environment file, read.
#[derive(Debug, PartialEq, Eq)]
pub struct ParsedDependencies {
    /// The conda packages.
    pub conda_deps: Vec<MatchSpec>,
    /// The Python packages.
    pub pip_deps: Vec<(PackageName, PyPiRequirement)>,
    /// The channels that the conda packages name.
    pub channels: Vec<Channel>,
}

/// What a [`ParsedDependencies`] holds.
#[verifier::ext_equal]
pub struct ParsedDependenciesView {
    pub conda_deps: Seq<MatchSpecView>,
    pub pip_deps: Seq<(PackageNameView, PyPiRequirementView)>,
    pub channels: Seq<ChannelView>,
}

impl View for ParsedDependencies {
    type V = ParsedDependenciesView;

    open spec fn view(&self) -> ParsedDependenciesView {
        ParsedDependenciesView {
            conda_deps: self.conda_deps.deep_view(),
            pip_deps: self.pip_deps.deep_view(),
            channels: self.channels.deep_view(),
        }
    }
}

impl ParsedDependenciesView {
    /// No dependencies.
    pub open spec fn none() -> Self {
        ParsedDependenciesView {
            conda_deps: Seq::empty(),
            pip_deps: Seq::empty(),
            channels: Seq::empty(),
        }
    }

    /// One conda package more, and its channel if it names one.
    pub open spec fn with_conda(self, spec: MatchSpecView) -> Self {
        ParsedDependenciesView {
            conda_deps: self.conda_deps.push(spec),
            channels: match spec.channel {
                Some(channel) => self.channels.push(channel),
                None => self.channels,
            },
            ..self
        }
    }

    /// One Python package more.
    pub open spec fn with_pip(self, dependency: (PackageNameView, PyPiRequirementView)) -> Self {
        ParsedDependenciesView { pip_deps: self.pip_deps.push(dependency), ..self }
    }

    /// With `pip` itself among the conda packages, if there are packages for it to install.
    pub open spec fn with_installer(self, pip: MatchSpecView) -> Self {
        if self.pip_deps.len() == 0 {
            self
        } else {
            ParsedDependenciesView { conda_deps: self.conda_deps.push(pip), ..self }
        }
    }
}

impl ParsedDependencies {
    /// No dependencies.
    pub fn none() -> (none: ParsedDependencies)
        ensures
            none@ == ParsedDependenciesView::none(),
    {
        let none = ParsedDependencies {
            conda_deps: Vec::new(),
            pip_deps: Vec::new(),
            channels: Vec::new(),
        };
        assert(none@ =~= ParsedDependenciesView::none());
        none
    }

    /// Adds a conda package, and its channel if it names one.
    pub fn add_conda(&mut self, spec: MatchSpec)
        ensures
            final(self)@ == old(self)@.with_conda(spec@),
    {
        let ghost before = self@;
        if let Some(channel) = &spec.channel {
            self.channels.push(channel.clone());
        }
        self.conda_deps.push(spec);
        assert(self@ =~= before.with_conda(spec@));
    }

    /// Adds a Python package.
    pub fn add_pip(&mut self, dependency: (PackageName, PyPiRequirement))
        ensures
            final(self)@ == old(self)@.with_pip(dependency.deep_view()),
    {
        let ghost before = self@;
        self.pip_deps.push(dependency);
        assert(self@ =~= before.with_pip(dependency.deep_view()));
    }

    /// Adds `pip` itself to the conda packages, if there are packages for it to install.
    pub fn add_installer(&mut self, pip: MatchSpec)
        ensures
            final(self)@ == old(self)@.with_installer(pip@),
    {
        let ghost before = self@;
        if self.pip_deps.len() != 0 {
            self.conda_deps.push(pip);
        }
        assert(self@ =~= before.with_installer(pip@));
    }
}

/// The dependencies that were taken, in order.
pub open spec fn collected(outcomes: Seq<EntryOutcome>) -> ParsedDependenciesView
    decreases outcomes.len(),
{
    if outcomes.len() == 0 {
        ParsedDependenciesView::none()
    } else {
        let before = collected(outcomes.drop_last());
        match outcomes.last() {
            EntryOutcome::Conda(Ok(spec)) => before.with_conda(spec),
            EntryOutcome::Pip(Ok(dependency)) => before.with_pip(dependency),
            _ => before,
        }
    }
}

/// Whether the first dependencies of a list were read with these outcomes.
pub open spec fn read_with(list: Seq<Entry>, outcomes: Seq<EntryOutcome>) -> bool {
    &&& outcomes.len() <= list.len()
    &&& forall|i: int| 0 <= i < outcomes.len() ==> entry_reads_as(list[i], #[trigger] outcomes[i])
}

/// What reading the dependencies came to.
pub type DependenciesOutcome = Result<ParsedDependenciesView, DependencyErrorView>;

/// What a list of dependencies may be read as, given the outcomes of reading one after the other:
/// all of them, if all were taken, with `pip` behind them if it has something to install; else
/// the error of the first that was not taken, behind which nothing is read.
pub open spec fn sums_up(
    list: Seq<Entry>,
    outcomes: Seq<EntryOutcome>,
    outcome: DependenciesOutcome,
) -> bool {
    match outcome {
        Ok(parsed) => {
            &&& outcomes.len() == list.len()
            &&& forall|i: int| 0 <= i < outcomes.len() ==> taken(#[trigger] outcomes[i])
            &&& parsed == collected(outcomes).with_installer(bare_spec("pip"@))
        },
        Err(error) => {
            let last = outcomes.len() - 1;
            &&& 0 <= last
            &&& forall|i: int| 0 <= i < last ==> taken(#[trigger] outcomes[i])
            &&& !taken(outcomes[last])
            &&& error == refusal(list[last], outcomes[last])
        },
    }
}

/// What the dependencies of an environment file may be read as.
pub open spec fn dependencies_read_as(
    items: Seq<CondaEnvDepView>,
    outcome: DependenciesOutcome,
) -> bool {
    exists|outcomes: Seq<EntryOutcome>| #[trigger]
        read_with(entries(items), outcomes) && sums_up(entries(items), outcomes, outcome)
}

/// The outcome that a result stands for.
pub open spec fn dependencies_outcome(
    read: Result<ParsedDependencies, DependencyError>,
) -> DependenciesOutcome {
    match read {
        Ok(parsed) => Ok(parsed@),
        Err(error) => Err(error@),
    }
}

/// The dependencies in the first items of a list are the first dependencies of the list.
proof fn lemma_entries_prefix(items: Seq<CondaEnvDepView>, n: int)
    requires
        0 <= n <= items.len(),
    ensures
        entries(items.take(n)).len() <= entries(items).len(),
        entries(items).take(entries(items.take(n)).len() as int) == entries(items.take(n)),
    decreases items.len(),
{
    if n == items.len() {
        assert(items.take(n) =~= items);
        assert(entries(items).take(entries(items).len() as int) =~= entries(items));
    } else {
        lemma_entries_prefix(items.drop_last(), n);
        assert(items.drop_last().take(n) =~= items.take(n));
        let front = entries(items.take(n));
        assert(entries(items).take(front.len() as int) =~= entries(items.drop_last()).take(
            front.len() as int,
        ));
    }
}

/// Reads the dependencies of an environment file.
pub fn parse_dependencies(deps: Vec<CondaEnvDep>) -> (read: Result<
    ParsedDependencies,
    DependencyError,
>)
    ensures
        dependencies_read_as(deps.deep_view(), dependencies_outcome(read)),
{
    let mut parsed = ParsedDependencies::none();
    let ghost items = deps.deep_view();
    let ghost list = entries(items);
    let ghost mut outcomes: Seq<EntryOutcome> = Seq::empty();
    assert(items.take(0) =~= Seq::<CondaEnvDepView>::empty());
    for i in 0..deps.len()
        invariant
            items == deps.deep_view(),
            list == entries(items),
            outcomes.len() == entries(items.take(i as int)).len(),
            read_with(list, outcomes),
            forall|k: int| 0 <= k < outcomes.len() ==> taken(#[trigger] outcomes[k]),
            parsed@ == collected(outcomes),
    {
        let ghost start = outcomes.len();
        proof {
            lemma_entries_prefix(items, i + 1);
            assert(items.take(i + 1).drop_last() =~= items.take(i as int));
            assert(items.take(i + 1).last() == deps[i as int].deep_view());
        }
        let ghost here = item_entries(deps[i as int].deep_view());
        assert(entries(items.take(i + 1)) == entries(items.take(i as int)) + here);
        assert forall|k: int| 0 <= k < here.len() implies list[start + k] == #[trigger] here[k] by {
            assert(list.take((start + here.len()) as int)[start + k] == list[start + k]);
        }
        match &deps[i] {
            CondaEnvDep::Conda(d) => {
                let result = MatchSpec::read(d.as_str());
                let ghost outcome = EntryOutcome::Conda(match_spec_outcome(result));
                assert(list[start as int] == here[0]);
                let ghost before = outcomes;
                proof {
                    outcomes = before.push(outcome);
                    assert(outcomes.drop_last() =~= before);
                }
                match result {
                    Ok(match_spec) => parsed.add_conda(match_spec),
                    Err(error) => {
                        let error = DependencyError::Conda(d.clone(), error);
                        assert(read_with(list, outcomes) && sums_up(list, outcomes, Err(error@)));
                        return Err(error);
                    },
                }
            },
            CondaEnvDep::Pip { pip } => {
                for j in 0..pip.len()
                    invariant
                        here.len() == pip.len(),
                        start + here.len() <= list.len(),
                        forall|k: int|
                            0 <= k < here.len() ==> list[start + k] == #[trigger] here[k],
                        forall|k: int|
                            0 <= k < here.len() ==> #[trigger] here[k] == Entry::Pip(pip[k]@),
                        list == entries(deps.deep_view()),
                        outcomes.len() == start + j,
                        read_with(list, outcomes),
                        forall|k: int| 0 <= k < outcomes.len() ==> taken(#[trigger] outcomes[k]),
                        parsed@ == collected(outcomes),
                {
                    let result = read_pip_entry(pip[j].as_str());
                    let ghost outcome = EntryOutcome::Pip(pip_outcome(result));
                    assert(list[start + j] == here[j as int]);
                    let ghost before = outcomes;
                    proof {
                        outcomes = before.push(outcome);
                        assert(outcomes.drop_last() =~= before);
                    }
                    match result {
                        Ok(dependency) => parsed.add_pip(dependency),
                        Err(error) => {
                            let error = DependencyError::Pip(pip[j].clone(), error);
                            assert(read_with(list, outcomes) && sums_up(
                                list,
                                outcomes,
                                Err(error@),
                            ));
                            return Err(error);
                        },
                    }
                }
            },
        }
    }
    assert(items.take(deps.len() as int) =~= items);
    proof {
        reveal_strlit("pip");
        assert(plain_package("pip"@));
        lemma_plain_package_readable("pip"@);
    }
    match MatchSpec::read("pip") {
        Ok(pip) => {
            parsed.add_installer(pip);
            assert(sums_up(list, outcomes, Ok(parsed@)));
            Ok(parsed)
        },
        Err(error) => Err(DependencyError::Conda("pip".to_string(), error)),
    }
}

/// Lists of channels one behind the other stand for their channels one behind the other.
pub proof fn law_channels_of_joined_lists(a: Seq<Seq<char>>, b: Seq<Seq<char>>)
    ensures
        expanded(a + b) == expanded(a) + expanded(b),
    decreases b.len(),
{
    if b.len() == 0 {
        assert(a + b =~= a);
        assert(expanded(a) + expanded(b) =~= expanded(a));
    } else {
        law_channels_of_joined_lists(a, b.drop_last());
        assert((a + b).drop_last() =~= a + b.drop_last());
        assert(expanded(a) + (expanded(b.drop_last()) + channels_of(b.last())) =~= expanded(a)
            + expanded(b.drop_last()) + channels_of(b.last()));
    }
}

/// No channel is empty or has white space around it.
pub proof fn law_channels_are_trimmed(entries: Seq<Seq<char>>, i: int)
    requires
        0 <= i < expanded(entries).len(),
    ensures
        expanded(entries)[i].len() > 0,
        is_trimmed(expanded(entries)[i]),
    decreases entries.len(),
{
    let front = expanded(entries.drop_last());
    if i < front.len() {
        law_channels_are_trimmed(entries.drop_last(), i);
    } else {
        reveal_strlit("main");
        reveal_strlit("r");
        reveal_strlit("msys2");
        law_trimmed(entries.last());
        assert(expanded(entries)[i] == channels_of(entries.last())[i - front.len()]);
    }
}

/// Whether a text is `defaults` with white space around it, which stands for a channel of that
/// name and not for the default channels.
pub open spec fn padded_defaults(entry: Seq<char>) -> bool {
    entry != "defaults"@ && trimmed(entry) == "defaults"@
}

/// No channel is called `defaults`, unless an entry spells it with white space around it.
pub proof fn law_defaults_are_replaced(entries: Seq<Seq<char>>, i: int)
    requires
        0 <= i < expanded(entries).len(),
        forall|j: int| 0 <= j < entries.len() ==> !padded_defaults(#[trigger] entries[j]),
    ensures
        expanded(entries)[i] != "defaults"@,
    decreases entries.len(),
{
    let front = expanded(entries.drop_last());
    if i < front.len() {
        law_defaults_are_replaced(entries.drop_last(), i);
    } else {
        reveal_strlit("main");
        reveal_strlit("r");
        reveal_strlit("msys2");
        reveal_strlit("defaults");
        assert(!padded_defaults(entries[entries.len() - 1]));
        let here = channels_of(entries.last());
        assert(expanded(entries)[i] == here[i - front.len()]);
        if entries.last() == "defaults"@ {
            assert(here[0].len() == 4 && here[1].len() == 1 && here[2].len() == 5);
            assert(expanded(entries)[i].len() < "defaults"@.len());
        }
    }
}

/// A list of channels none of which is empty, has white space around it or is called `defaults`
/// stands for itself.
proof fn lemma_channels_stand(entries: Seq<Seq<char>>)
    requires
        forall|i: int|
            0 <= i < entries.len() ==> (#[trigger] entries[i]).len() > 0 && is_trimmed(entries[i])
                && entries[i] != "defaults"@,
    ensures
        expanded(entries) == entries,
    decreases entries.len(),
{
    if entries.len() > 0 {
        lemma_channels_stand(entries.drop_last());
        assert(entries[entries.len() - 1].len() > 0);
        law_trimmed(entries.last());
        assert(entries.drop_last() + seq![entries.last()] =~= entries);
    }
}

/// The channels that a list stands for, taken as a list, stand for themselves, unless an entry
/// spells `defaults` with white space around it.
pub proof fn law_channels_once(entries: Seq<Seq<char>>)
    requires
        forall|j: int| 0 <= j < entries.len() ==> !padded_defaults(#[trigger] entries[j]),
    ensures
        expanded(expanded(entries)) == expanded(entries),
{
    assert forall|i: int| 0 <= i < expanded(entries).len() implies (#[trigger] expanded(
        entries,
    )[i]).len() > 0 && is_trimmed(expanded(entries)[i]) && expanded(entries)[i] != "defaults"@ by {
        law_channels_are_trimmed(entries, i);
        law_defaults_are_replaced(entries, i);
    }
    lemma_channels_stand(expanded(entries));
}

/// The texts of the conda packages in a list of dependencies, in order.
pub open spec fn conda_texts(list: Seq<Entry>) -> Seq<Seq<char>>
    decreases list.len(),
{
    if list.len() == 0 {
        Seq::empty()
    } else {
        let before = conda_texts(list.drop_last());
        match list.last() {
            Entry::Conda(text) => before.push(text),
            Entry::Pip(_) => before,
        }
    }
}

/// The texts of the Python packages in a list of dependencies, in order.
pub open spec fn pip_texts(list: Seq<Entry>) -> Seq<Seq<char>>
    decreases list.len(),
{
    if list.len() == 0 {
        Seq::empty()
    } else {
        let before = pip_texts(list.drop_last());
        match list.last() {
            Entry::Conda(_) => before,
            Entry::Pip(text) => before.push(text),
        }
    }
}

/// The channels that match specs name, in order.
pub open spec fn channels_named(specs: Seq<MatchSpecView>) -> Seq<ChannelView>
    decreases specs.len(),
{
    if specs.len() == 0 {
        Seq::empty()
    } else {
        let before = channels_named(specs.drop_last());
        match specs.last().channel {
            Some(channel) => before.push(channel),
            None => before,
        }
    }
}

/// The texts that match specs were read from.
pub open spec fn sources(specs: Seq<MatchSpecView>) -> Seq<Seq<char>> {
    specs.map_values(|spec: MatchSpecView| spec.source)
}

/// What is collected of a list of which all was taken.
proof fn lemma_collected(list: Seq<Entry>, outcomes: Seq<EntryOutcome>)
    requires
        read_with(list, outcomes),
        outcomes.len() == list.len(),
        forall|i: int| 0 <= i < outcomes.len() ==> taken(#[trigger] outcomes[i]),
    ensures
        sources(collected(outcomes).conda_deps) == conda_texts(list),
        collected(outcomes).channels == channels_named(collected(outcomes).conda_deps),
        collected(outcomes).pip_deps.len() == pip_texts(list).len(),
        forall|i: int|
            0 <= i < pip_texts(list).len() ==> requirement_outcome(
                requirement_text(#[trigger] pip_texts(list)[i]),
            ) == Ok::<(PackageNameView, PyPiRequirementView), PipErrorView>(
                collected(outcomes).pip_deps[i],
            ),
    decreases list.len(),
{
    if list.len() > 0 {
        let last = list.len() - 1;
        let front = outcomes.drop_last();
        lemma_collected(list.drop_last(), front);
        assert(taken(outcomes[last]));
        assert(entry_reads_as(list[last], outcomes[last]));
        if let EntryOutcome::Conda(Ok(spec)) = outcomes[last] {
            let before = collected(front).conda_deps;
            assert(before.push(spec).drop_last() =~= before);
            assert(sources(before.push(spec)) =~= sources(before).push(spec.source));
        }
    } else {
        assert(sources(collected(outcomes).conda_deps) =~= conda_texts(list));
    }
}

/// Dependencies that are read keep their order: the conda packages, the Python packages, and the
/// channels that conda packages name each come as they stand in the file. `pip` comes behind all
/// conda packages, if and only if there is a Python package.
pub proof fn law_dependencies_keep_order(
    items: Seq<CondaEnvDepView>,
    parsed: ParsedDependenciesView,
)
    requires
        dependencies_read_as(items, Ok(parsed)),
    ensures
        ({
            let condas = conda_texts(entries(items));
            let pips = pip_texts(entries(items));
            &&& parsed.pip_deps.len() == pips.len()
            &&& forall|i: int|
                0 <= i < pips.len() ==> requirement_outcome(requirement_text(#[trigger] pips[i]))
                    == Ok::<(PackageNameView, PyPiRequirementView), PipErrorView>(
                    parsed.pip_deps[i],
                )
            &&& pips.len() == 0 ==> sources(parsed.conda_deps) == condas
            &&& pips.len() > 0 ==> parsed.conda_deps.len() > 0 && parsed.conda_deps.last()
                == bare_spec("pip"@) && sources(parsed.conda_deps) == condas.push("pip"@)
            &&& parsed.channels == channels_named(parsed.conda_deps)
        }),
{
    let list = entries(items);
    let outcomes = choose|outcomes: Seq<EntryOutcome>| #[trigger]
        read_with(list, outcomes) && sums_up(list, outcomes, Ok(parsed));
    lemma_collected(list, outcomes);
    let before = collected(outcomes).conda_deps;
    let pip = bare_spec("pip"@);
    assert(before.push(pip).drop_last() =~= before);
    assert(sources(before.push(pip)) =~= sources(before).push("pip"@));
}

/// Whether the channel of a conda package may lie in the file system.
pub open spec fn local_entry(entry: Entry) -> bool {
    entry is Conda && readable_match_spec(entry->Conda_0) && local_match_spec(entry->Conda_0)
}

/// What is read of the dependencies is a function of the file, unless a channel that a conda
/// package names lies in the file system.
pub proof fn law_dependencies_are_determined(
    items: Seq<CondaEnvDepView>,
    a: DependenciesOutcome,
    b: DependenciesOutcome,
)
    requires
        dependencies_read_as(items, a),
        dependencies_read_as(items, b),
        forall|i: int| 0 <= i < entries(items).len() ==> !local_entry(#[trigger] entries(items)[i]),
    ensures
        a == b,
{
    let list = entries(items);
    let first = choose|outcomes: Seq<EntryOutcome>| #[trigger]
        read_with(list, outcomes) && sums_up(list, outcomes, a);
    let second = choose|outcomes: Seq<EntryOutcome>| #[trigger]
        read_with(list, outcomes) && sums_up(list, outcomes, b);
    assert forall|i: int| 0 <= i < first.len() && 0 <= i < second.len() implies first[i]
        == second[i] by {
        assert(entry_reads_as(list[i], first[i]) && entry_reads_as(list[i], second[i]));
        assert(!local_entry(list[i]));
    }
    if first.len() < second.len() {
        assert(taken(second[first.len() - 1]));
        assert(second[first.len() - 1] == first[first.len() - 1]);
    }
    if second.len() < first.len() {
        assert(taken(first[second.len() - 1]));
        assert(first[second.len() - 1] == second[second.len() - 1]);
    }
    assert(first =~= second);
    if a is Ok && b is Err {
        assert(taken(first[first.len() - 1]));
    }
    if b is Ok && a is Err {
        assert(taken(first[first.len() - 1]));
    }
}

/// Whether a dependency is the bare name of a package.
pub open spec fn plain_entry(entry: Entry) -> bool {
    match entry {
        Entry::Conda(text) => plain_package(text),
        Entry::Pip(text) => is_package_name(requirement_text(text)),
    }
}

/// Dependencies that are bare names of packages are all taken.
proof fn lemma_plain_entries(list: Seq<Entry>, outcomes: Seq<EntryOutcome>)
    requires
        read_with(list, outcomes),
        forall|i: int| 0 <= i < list.len() ==> plain_entry(#[trigger] list[i]),
    ensures
        forall|i: int| 0 <= i < outcomes.len() ==> taken(#[trigger] outcomes[i]),
        forall|i: int|
            0 <= i < collected(outcomes).conda_deps.len() ==> #[trigger] collected(
                outcomes,
            ).conda_deps[i] == bare_spec(collected(outcomes).conda_deps[i].source),
    decreases outcomes.len(),
{
    if outcomes.len() > 0 {
        let last = outcomes.len() - 1;
        lemma_plain_entries(list, outcomes.drop_last());
        assert(entry_reads_as(list[last], outcomes[last]));
        assert(plain_entry(list[last]));
        if let Entry::Conda(text) = list[last] {
            lemma_plain_package_readable(text);
        }
        if let Entry::Pip(text) = list[last] {
            let name = requirement_text(text);
            law_requirement_text_once(text);
            law_bare_name(name);
        }
        assert forall|i: int| 0 <= i < outcomes.len() implies taken(#[trigger] outcomes[i]) by {
            if i < last {
                assert(taken(outcomes.drop_last()[i]));
            }
        }
    }
}

/// A file that only names packages is read: each conda package in any version and from any
/// channel, and each Python package in any version.
pub proof fn law_plain_dependencies(items: Seq<CondaEnvDepView>, outcome: DependenciesOutcome)
    requires
        dependencies_read_as(items, outcome),
        forall|i: int| 0 <= i < entries(items).len() ==> plain_entry(#[trigger] entries(items)[i]),
    ensures
        outcome is Ok,
        outcome->Ok_0.channels.len() == 0,
        forall|i: int|
            0 <= i < outcome->Ok_0.conda_deps.len() ==> #[trigger] outcome->Ok_0.conda_deps[i]
                == bare_spec(outcome->Ok_0.conda_deps[i].source),
{
    let list = entries(items);
    let outcomes = choose|outcomes: Seq<EntryOutcome>| #[trigger]
        read_with(list, outcomes) && sums_up(list, outcomes, outcome);
    lemma_plain_entries(list, outcomes);
    if outcome is Err {
        assert(taken(outcomes[outcomes.len() - 1]));
    }
    law_dependencies_keep_order(items, outcome->Ok_0);
    lemma_no_channels(outcome->Ok_0.conda_deps);
}

/// Match specs that name no channel name none.
proof fn lemma_no_channels(specs: Seq<MatchSpecView>)
    requires
        forall|i: int| 0 <= i < specs.len() ==> (#[trigger] specs[i]).channel is None,
    ensures
        channels_named(specs).len() == 0,
    decreases specs.len(),
{
    if specs.len() > 0 {
        lemma_no_channels(specs.drop_last());
        assert(specs[specs.len() - 1].channel is None);
    }
}

impl ParsedDependenciesView {
    /// These dependencies, and others behind them.
    pub open spec fn followed_by(self, other: Self) -> Self {
        ParsedDependenciesView {
            conda_deps: self.conda_deps + other.conda_deps,
            pip_deps: self.pip_deps + other.pip_deps,
            channels: self.channels + other.channels,
        }
    }

    /// Without `pip` at the end of the conda packages, where it stands if there is something for
    /// it to install.
    pub open spec fn without_installer(self) -> Self {
        if self.pip_deps.len() == 0 {
            self
        } else {
            ParsedDependenciesView { conda_deps: self.conda_deps.drop_last(), ..self }
        }
    }
}

/// The dependencies in lists one behind the other come one behind the other.
proof fn lemma_entries_joined(a: Seq<CondaEnvDepView>, b: Seq<CondaEnvDepView>)
    ensures
        entries(a + b) == entries(a) + entries(b),
    decreases b.len(),
{
    if b.len() == 0 {
        assert(a + b =~= a);
        assert(entries(a) + entries(b) =~= entries(a));
    } else {
        lemma_entries_joined(a, b.drop_last());
        assert((a + b).drop_last() =~= a + b.drop_last());
        assert(entries(a) + (entries(b.drop_last()) + item_entries(b.last())) =~= entries(a)
            + entries(b.drop_last()) + item_entries(b.last()));
    }
}

/// What is collected of outcomes one behind the other comes one behind the other.
proof fn lemma_collected_joined(a: Seq<EntryOutcome>, b: Seq<EntryOutcome>)
    ensures
        collected(a + b) == collected(a).followed_by(collected(b)),
    decreases b.len(),
{
    if b.len() == 0 {
        assert(a + b =~= a);
        assert(collected(a).followed_by(collected(b)) =~= collected(a));
    } else {
        lemma_collected_joined(a, b.drop_last());
        assert((a + b).drop_last() =~= a + b.drop_last());
        assert((a + b).last() == b.last());
        assert(collected(a + b) =~= collected(a).followed_by(collected(b)));
    }
}

/// What was collected is what is left without `pip`.
proof fn lemma_without_installer(collected: ParsedDependenciesView)
    ensures
        collected.with_installer(bare_spec("pip"@)).without_installer() == collected,
{
    let pip = bare_spec("pip"@);
    assert(collected.conda_deps.push(pip).drop_last() =~= collected.conda_deps);
    assert(collected.with_installer(pip).without_installer() =~= collected);
}

/// What two lists of dependencies are read as, one behind the other, with `pip` once at the end if
/// there is something for it to install.
pub open spec fn joined(a: ParsedDependenciesView, b: ParsedDependenciesView) ->
    ParsedDependenciesView {
    a.without_installer().followed_by(b.without_installer()).with_installer(bare_spec("pip"@))
}

/// Lists of dependencies one behind the other are read as their parts one behind the other, with
/// `pip` once at the end.
pub proof fn law_joined_lists_are_read(
    a: Seq<CondaEnvDepView>,
    b: Seq<CondaEnvDepView>,
    first: ParsedDependenciesView,
    second: ParsedDependenciesView,
)
    requires
        dependencies_read_as(a, Ok(first)),
        dependencies_read_as(b, Ok(second)),
    ensures
        dependencies_read_as(a + b, Ok(joined(first, second))),
        (forall|i: int|
            0 <= i < entries(a + b).len() ==> !local_entry(
                #[trigger] entries(a + b)[i],
            )) ==> forall|outcome: DependenciesOutcome| #[trigger]
            dependencies_read_as(a + b, outcome) ==> outcome == Ok::<
                ParsedDependenciesView,
                DependencyErrorView,
            >(joined(first, second)),
{
    let left = choose|outcomes: Seq<EntryOutcome>| #[trigger]
        read_with(entries(a), outcomes) && sums_up(entries(a), outcomes, Ok(first));
    let right = choose|outcomes: Seq<EntryOutcome>| #[trigger]
        read_with(entries(b), outcomes) && sums_up(entries(b), outcomes, Ok(second));
    let both = left + right;
    let list = entries(a + b);
    lemma_entries_joined(a, b);
    lemma_collected_joined(left, right);
    lemma_without_installer(collected(left));
    lemma_without_installer(collected(right));
    assert forall|i: int| 0 <= i < both.len() implies entry_reads_as(list[i], #[trigger] both[i])
        && taken(both[i]) by {
        if i < left.len() {
            assert(both[i] == left[i]);
        } else {
            assert(both[i] == right[i - left.len()]);
        }
    }
    assert(read_with(list, both) && sums_up(list, both, Ok(joined(first, second))));
    if forall|i: int| 0 <= i < list.len() ==> !local_entry(#[trigger] list[i]) {
        assert forall|outcome: DependenciesOutcome| #[trigger]
            dependencies_read_as(a + b, outcome) implies outcome == Ok::<
            ParsedDependenciesView,
            DependencyErrorView,
        >(joined(first, second)) by {
            law_dependencies_are_determined(a + b, outcome, Ok(joined(first, second)));
        }
    }
}

/// Lists of dependencies one behind the other are read only if each of them is, and then as their
/// parts one behind the other.
pub proof fn law_joined_lists_are_read_in_parts(
    a: Seq<CondaEnvDepView>,
    b: Seq<CondaEnvDepView>,
    parsed: ParsedDependenciesView,
)
    requires
        dependencies_read_as(a + b, Ok(parsed)),
    ensures
        exists|first: ParsedDependenciesView, second: ParsedDependenciesView| #[trigger]
            dependencies_read_as(a, Ok(first)) && #[trigger] dependencies_read_as(b, Ok(second))
                && parsed == joined(first, second),
{
    let list = entries(a + b);
    let both = choose|outcomes: Seq<EntryOutcome>| #[trigger]
        read_with(list, outcomes) && sums_up(list, outcomes, Ok(parsed));
    lemma_entries_joined(a, b);
    let n = entries(a).len() as int;
    let left = both.take(n);
    let right = both.skip(n);
    let pip = bare_spec("pip"@);
    let first = collected(left).with_installer(pip);
    let second = collected(right).with_installer(pip);
    assert(left + right =~= both);
    lemma_collected_joined(left, right);
    lemma_without_installer(collected(left));
    lemma_without_installer(collected(right));
    assert forall|i: int| 0 <= i < left.len() implies entry_reads_as(
        entries(a)[i],
        #[trigger] left[i],
    ) && taken(left[i]) by {
        assert(left[i] == both[i] && list[i] == entries(a)[i]);
    }
    assert forall|i: int| 0 <= i < right.len() implies entry_reads_as(
        entries(b)[i],
        #[trigger] right[i],
    ) && taken(right[i]) by {
        assert(right[i] == both[i + n] && list[i + n] == entries(b)[i]);
    }
    assert(read_with(entries(a), left) && sums_up(entries(a), left, Ok(first)));
    assert(read_with(entries(b), right) && sums_up(entries(b), right, Ok(second)));
    assert(dependencies_read_as(a, Ok(first)) && dependencies_read_as(b, Ok(second)));
}

/// Outcomes that are all of Python packages, and taken, leave nothing but Python packages.
proof fn lemma_only_pip(outcomes: Seq<EntryOutcome>)
    requires
        forall|i: int| 0 <= i < outcomes.len() ==> (#[trigger] outcomes[i]) is Pip,
    ensures
        collected(outcomes).conda_deps.len() == 0,
        collected(outcomes).channels.len() == 0,
    decreases outcomes.len(),
{
    if outcomes.len() > 0 {
        assert(outcomes[outcomes.len() - 1] is Pip);
        lemma_only_pip(outcomes.drop_last());
    }
}

/// Outcomes that are all of conda packages leave no Python packages.
proof fn lemma_only_conda(outcomes: Seq<EntryOutcome>)
    requires
        forall|i: int| 0 <= i < outcomes.len() ==> (#[trigger] outcomes[i]) is Conda,
    ensures
        collected(outcomes).pip_deps.len() == 0,
    decreases outcomes.len(),
{
    if outcomes.len() > 0 {
        assert(outcomes[outcomes.len() - 1] is Conda);
        lemma_only_conda(outcomes.drop_last());
    }
}

/// The dependencies in a list of conda packages are conda packages.
proof fn lemma_conda_entries(items: Seq<CondaEnvDepView>)
    requires
        forall|i: int| 0 <= i < items.len() ==> (#[trigger] items[i]) is Conda,
    ensures
        forall|i: int| 0 <= i < entries(items).len() ==> (#[trigger] entries(items)[i]) is Conda,
    decreases items.len(),
{
    if items.len() > 0 {
        assert(items[items.len() - 1] is Conda);
        lemma_conda_entries(items.drop_last());
    }
}

/// The dependencies in a single `pip` block.
proof fn lemma_block(texts: Seq<Seq<char>>)
    ensures
        entries(seq![CondaEnvDepView::Pip { pip: texts }]) == item_entries(
            CondaEnvDepView::Pip { pip: texts },
        ),
{
    let items = seq![CondaEnvDepView::Pip { pip: texts }];
    assert(items.drop_last() =~= Seq::<CondaEnvDepView>::empty());
    assert(entries(items.drop_last()).len() == 0);
    assert(entries(items) =~= item_entries(items.last()));
}

/// Python packages of a block and conda packages behind it change nothing if they change places.
proof fn lemma_swap(list: Seq<Entry>, outcomes: Seq<EntryOutcome>, from: int, mid: int, to: int)
    requires
        read_with(list, outcomes),
        outcomes.len() == list.len(),
        forall|i: int| 0 <= i < outcomes.len() ==> taken(#[trigger] outcomes[i]),
        0 <= from <= mid <= to <= list.len(),
        forall|i: int| from <= i < mid ==> (#[trigger] list[i]) is Pip,
        forall|i: int| mid <= i < to ==> (#[trigger] list[i]) is Conda,
    ensures
        ({
            let swapped = outcomes.take(from) + outcomes.subrange(mid, to) + outcomes.subrange(
                from,
                mid,
            ) + outcomes.skip(to);
            let other = list.take(from) + list.subrange(mid, to) + list.subrange(from, mid)
                + list.skip(to);
            &&& read_with(other, swapped)
            &&& swapped.len() == other.len()
            &&& forall|i: int| 0 <= i < swapped.len() ==> taken(#[trigger] swapped[i])
            &&& collected(swapped) == collected(outcomes)
        }),
{
    let front = outcomes.take(from);
    let pips = outcomes.subrange(from, mid);
    let condas = outcomes.subrange(mid, to);
    let tail = outcomes.skip(to);
    let swapped = front + condas + pips + tail;
    let other = list.take(from) + list.subrange(mid, to) + list.subrange(from, mid) + list.skip(to);
    assert forall|i: int| 0 <= i < swapped.len() implies entry_reads_as(
        other[i],
        #[trigger] swapped[i],
    ) && taken(swapped[i]) by {
        let k = if i < from {
            i
        } else if i < from + (to - mid) {
            i - from + mid
        } else if i < to {
            i - (to - mid)
        } else {
            i
        };
        assert(swapped[i] == outcomes[k]);
        assert(other[i] == list[k]);
    }
    assert forall|i: int| 0 <= i < pips.len() implies (#[trigger] pips[i]) is Pip by {
        assert(pips[i] == outcomes[from + i]);
        assert(entry_reads_as(list[from + i], outcomes[from + i]));
    }
    assert forall|i: int| 0 <= i < condas.len() implies (#[trigger] condas[i]) is Conda by {
        assert(condas[i] == outcomes[mid + i]);
        assert(entry_reads_as(list[mid + i], outcomes[mid + i]));
    }
    assert(front + pips + condas + tail =~= outcomes);
    lemma_parts_swap(front, pips, condas, tail);
}

/// Outcomes of Python packages and of conda packages behind them leave the same if they change
/// places.
proof fn lemma_parts_swap(
    front: Seq<EntryOutcome>,
    pips: Seq<EntryOutcome>,
    condas: Seq<EntryOutcome>,
    tail: Seq<EntryOutcome>,
)
    requires
        forall|i: int| 0 <= i < pips.len() ==> (#[trigger] pips[i]) is Pip,
        forall|i: int| 0 <= i < condas.len() ==> (#[trigger] condas[i]) is Conda,
    ensures
        collected(front + condas + pips + tail) == collected(front + pips + condas + tail),
{
    lemma_only_pip(pips);
    lemma_only_conda(condas);
    lemma_collected_joined(front, pips);
    lemma_collected_joined(front + pips, condas);
    lemma_collected_joined(front + pips + condas, tail);
    lemma_collected_joined(front, condas);
    lemma_collected_joined(front + condas, pips);
    lemma_collected_joined(front + condas + pips, tail);
    assert(collected(front + pips + condas) =~= collected(front + condas + pips));
}

/// A list with a `pip` block in front of other items.
pub open spec fn one_block(
    before: Seq<CondaEnvDepView>,
    x: Seq<Seq<char>>,
    mid: Seq<CondaEnvDepView>,
    after: Seq<CondaEnvDepView>,
) -> Seq<CondaEnvDepView> {
    before + seq![CondaEnvDepView::Pip { pip: x }] + mid + after
}

/// A list with a `pip` block in front of other items, and one behind them.
pub open spec fn two_blocks(
    before: Seq<CondaEnvDepView>,
    x: Seq<Seq<char>>,
    mid: Seq<CondaEnvDepView>,
    y: Seq<Seq<char>>,
    after: Seq<CondaEnvDepView>,
) -> Seq<CondaEnvDepView> {
    one_block(before, x, mid, seq![CondaEnvDepView::Pip { pip: y }] + after)
}

/// The dependencies in a list with a `pip` block.
proof fn lemma_block_entries(
    before: Seq<CondaEnvDepView>,
    x: Seq<Seq<char>>,
    mid: Seq<CondaEnvDepView>,
    after: Seq<CondaEnvDepView>,
)
    ensures
        entries(one_block(before, x, mid, after)) == entries(before) + item_entries(
            CondaEnvDepView::Pip { pip: x },
        ) + entries(mid) + entries(after),
{
    let block = seq![CondaEnvDepView::Pip { pip: x }];
    lemma_block(x);
    lemma_entries_joined(before, block);
    lemma_entries_joined(before + block, mid);
    lemma_entries_joined(before + block + mid, after);
}

/// Dependencies one behind the other with a part moved behind another.
proof fn lemma_moved(
    a: Seq<Entry>,
    b: Seq<Entry>,
    c: Seq<Entry>,
    d: Seq<Entry>,
    parsed: ParsedDependenciesView,
    outcomes: Seq<EntryOutcome>,
) -> (swapped: Seq<EntryOutcome>)
    requires
        read_with(a + b + c + d, outcomes),
        sums_up(a + b + c + d, outcomes, Ok(parsed)),
        forall|i: int| 0 <= i < b.len() ==> (#[trigger] b[i]) is Pip,
        forall|i: int| 0 <= i < c.len() ==> (#[trigger] c[i]) is Conda,
    ensures
        read_with(a + c + b + d, swapped),
        sums_up(a + c + b + d, swapped, Ok(parsed)),
{
    let list = a + b + c + d;
    let from = a.len() as int;
    let mid = from + b.len();
    let to = mid + c.len();
    assert forall|i: int| from <= i < mid implies (#[trigger] list[i]) is Pip by {
        assert(list[i] == b[i - from]);
    }
    assert forall|i: int| mid <= i < to implies (#[trigger] list[i]) is Conda by {
        assert(list[i] == c[i - mid]);
    }
    lemma_swap(list, outcomes, from, mid, to);
    assert(list.take(from) =~= a);
    assert(list.subrange(from, mid) =~= b);
    assert(list.subrange(mid, to) =~= c);
    assert(list.skip(to) =~= d);
    outcomes.take(from) + outcomes.subrange(mid, to) + outcomes.subrange(from, mid)
        + outcomes.skip(to)
}

/// How Python packages are split into `pip` blocks, and where the blocks stand among conda
/// packages, does not matter: part of a block may as well stand in a block of its own behind conda
/// packages that follow.
pub proof fn law_pip_blocks_do_not_matter(
    before: Seq<CondaEnvDepView>,
    x: Seq<Seq<char>>,
    y: Seq<Seq<char>>,
    mid: Seq<CondaEnvDepView>,
    after: Seq<CondaEnvDepView>,
    parsed: ParsedDependenciesView,
)
    requires
        forall|i: int| 0 <= i < mid.len() ==> (#[trigger] mid[i]) is Conda,
        dependencies_read_as(one_block(before, x + y, mid, after), Ok(parsed)),
    ensures
        dependencies_read_as(two_blocks(before, x, mid, y, after), Ok(parsed)),
        (forall|i: int|
            0 <= i < entries(two_blocks(before, x, mid, y, after)).len() ==> !local_entry(
                #[trigger] entries(two_blocks(before, x, mid, y, after))[i],
            )) ==> forall|outcome: DependenciesOutcome| #[trigger]
            dependencies_read_as(two_blocks(before, x, mid, y, after), outcome) ==> outcome == Ok::<
                ParsedDependenciesView,
                DependencyErrorView,
            >(parsed),
{
    let px = item_entries(CondaEnvDepView::Pip { pip: x });
    let py = item_entries(CondaEnvDepView::Pip { pip: y });
    let block = seq![CondaEnvDepView::Pip { pip: y }];
    let items = two_blocks(before, x, mid, y, after);
    let list = entries(one_block(before, x + y, mid, after));
    lemma_block_entries(before, x + y, mid, after);
    lemma_block_entries(before, x, mid, block + after);
    lemma_block(y);
    lemma_entries_joined(block, after);
    lemma_conda_entries(mid);
    let front = entries(before) + px;
    assert(item_entries(CondaEnvDepView::Pip { pip: x + y }) =~= px + py);
    assert(list =~= front + py + entries(mid) + entries(after));
    assert(entries(items) =~= front + entries(mid) + py + entries(after));
    let outcomes = choose|outcomes: Seq<EntryOutcome>| #[trigger]
        read_with(list, outcomes) && sums_up(list, outcomes, Ok(parsed));
    let swapped = lemma_moved(front, py, entries(mid), entries(after), parsed, outcomes);
    assert(read_with(entries(items), swapped) && sums_up(entries(items), swapped, Ok(parsed)));
    assert(dependencies_read_as(items, Ok(parsed)));
    if forall|i: int| 0 <= i < entries(items).len() ==> !local_entry(#[trigger] entries(items)[i]) {
        assert forall|outcome: DependenciesOutcome| #[trigger]
            dependencies_read_as(items, outcome) implies outcome == Ok::<
            ParsedDependenciesView,
            DependencyErrorView,
        >(parsed) by {
            law_dependencies_are_determined(items, outcome, Ok(parsed));
        }
    }
}

/// A machine, by what it reads each match spec as. What a path becomes may differ from machine to
/// machine and from directory to directory; on one machine, and in one directory, it is one thing.
pub type Machine = spec_fn(Seq<char>) -> MatchSpecOutcome;

/// What a machine reads a dependency as.
pub open spec fn entry_on(machine: Machine, entry: Entry) -> EntryOutcome {
    match entry {
        Entry::Conda(text) => EntryOutcome::Conda(machine(text)),
        Entry::Pip(text) => EntryOutcome::Pip(requirement_outcome(requirement_text(text))),
    }
}

/// What a machine reads the dependencies of a list as, one after the other.
pub open spec fn entries_on(machine: Machine, list: Seq<Entry>) -> Seq<EntryOutcome> {
    list.map_values(|entry: Entry| entry_on(machine, entry))
}

/// How many dependencies of a list a machine takes before the first that it does not take.
pub open spec fn taken_on(machine: Machine, list: Seq<Entry>) -> nat
    decreases list.len(),
{
    if list.len() == 0 {
        0
    } else {
        let before = taken_on(machine, list.drop_last());
        if before == list.len() - 1 && taken(entry_on(machine, list.last())) {
            list.len()
        } else {
            before
        }
    }
}

/// What a machine reads the dependencies of an environment file as.
pub open spec fn dependencies_on(
    machine: Machine,
    items: Seq<CondaEnvDepView>,
) -> DependenciesOutcome {
    let list = entries(items);
    let n = taken_on(machine, list) as int;
    if n == list.len() {
        Ok(collected(entries_on(machine, list)).with_installer(bare_spec("pip"@)))
    } else {
        Err(refusal(list[n], entry_on(machine, list[n])))
    }
}

/// The dependencies that a machine takes are taken, and the next is not.
proof fn lemma_taken_on(machine: Machine, list: Seq<Entry>)
    ensures
        taken_on(machine, list) <= list.len(),
        forall|i: int|
            0 <= i < taken_on(machine, list) ==> taken(entry_on(machine, #[trigger] list[i])),
        taken_on(machine, list) < list.len() ==> !taken(
            entry_on(machine, list[taken_on(machine, list) as int]),
        ),
    decreases list.len(),
{
    if list.len() > 0 {
        let front = list.drop_last();
        lemma_taken_on(machine, front);
        assert forall|i: int| 0 <= i < taken_on(machine, list) implies taken(
            entry_on(machine, #[trigger] list[i]),
        ) by {
            if i < front.len() {
                assert(list[i] == front[i]);
            }
        }
    }
}

/// What a machine reads the dependencies as, if it reads each of them as something that it may be
/// read as, is something that they may be read as.
pub proof fn law_reading_on_a_machine(machine: Machine, items: Seq<CondaEnvDepView>)
    requires
        forall|i: int|
            0 <= i < entries(items).len() ==> entry_reads_as(
                #[trigger] entries(items)[i],
                entry_on(machine, entries(items)[i]),
            ),
    ensures
        dependencies_read_as(items, dependencies_on(machine, items)),
{
    let list = entries(items);
    let n = taken_on(machine, list) as int;
    let all = entries_on(machine, list);
    lemma_taken_on(machine, list);
    assert forall|i: int| 0 <= i < all.len() implies entry_reads_as(list[i], #[trigger] all[i]) by {
    }
    if n == list.len() {
        assert forall|i: int| 0 <= i < all.len() implies taken(#[trigger] all[i]) by {
            assert(taken(entry_on(machine, list[i])));
        }
        assert(read_with(list, all) && sums_up(list, all, dependencies_on(machine, items)));
    } else {
        let some = all.take(n + 1);
        assert forall|i: int| 0 <= i < n implies taken(#[trigger] some[i]) by {
            assert(taken(entry_on(machine, list[i])));
        }
        assert(read_with(list, some)) by {
            assert forall|i: int| 0 <= i < some.len() implies entry_reads_as(
                list[i],
                #[trigger] some[i],
            ) by {
                assert(some[i] == all[i]);
            }
        }
        assert(sums_up(list, some, dependencies_on(machine, items)));
    }
}

/// The machine that reads the first dependencies of a list with these outcomes.
spec fn machine_of(list: Seq<Entry>, outcomes: Seq<EntryOutcome>) -> Machine {
    |text: Seq<char>|
        {
            let i = choose|i: int| 0 <= i < outcomes.len() && list[i] == Entry::Conda(text);
            outcomes[i]->Conda_0
        }
}

/// Whatever dependencies are read as, there is a machine that reads them so, unless a match spec
/// whose channel is a path stands in the list twice: the one reading of it might differ from the
/// other.
pub proof fn law_every_reading_is_on_a_machine(
    items: Seq<CondaEnvDepView>,
    outcome: DependenciesOutcome,
)
    requires
        dependencies_read_as(items, outcome),
        forall|i: int, j: int|
            0 <= i < j < entries(items).len() && local_entry(#[trigger] entries(items)[i])
                ==> entries(items)[i] != #[trigger] entries(items)[j],
    ensures
        exists|machine: Machine| #[trigger] dependencies_on(machine, items) == outcome,
{
    let list = entries(items);
    let outcomes = choose|outcomes: Seq<EntryOutcome>| #[trigger]
        read_with(list, outcomes) && sums_up(list, outcomes, outcome);
    let machine = machine_of(list, outcomes);
    assert forall|k: int| 0 <= k < outcomes.len() implies entry_on(machine, list[k])
        == #[trigger] outcomes[k] by {
        assert(entry_reads_as(list[k], outcomes[k]));
        if let Entry::Conda(text) = list[k] {
            assert(0 <= k < outcomes.len() && list[k] == Entry::Conda(text));
            let i = choose|i: int| 0 <= i < outcomes.len() && list[i] == Entry::Conda(text);
            assert(entry_reads_as(list[i], outcomes[i]));
            if local_entry(list[k]) {
                assert(i == k);
            }
            assert(outcomes[i] == outcomes[k]);
        }
    }
    lemma_taken_on(machine, list);
    let n = taken_on(machine, list) as int;
    if outcome is Ok {
        if n < list.len() {
            assert(taken(outcomes[n]));
            assert(entry_on(machine, list[n]) == outcomes[n]);
        }
        assert forall|i: int| 0 <= i < list.len() implies entries_on(machine, list)[i]
            == outcomes[i] by {
            assert(entry_on(machine, list[i]) == outcomes[i]);
        }
        assert(entries_on(machine, list) =~= outcomes);
    } else {
        let last = outcomes.len() - 1;
        assert(entry_on(machine, list[last]) == outcomes[last]);
        if n > last {
            assert(taken(entry_on(machine, list[last])));
        }
        if n < last {
            assert(taken(outcomes[n]));
            assert(entry_on(machine, list[n]) == outcomes[n]);
        }
    }
    assert(dependencies_on(machine, items) == outcome);
}

/// A machine reads all dependencies of a list if and only if it takes each of them.
proof fn lemma_all_taken_on(machine: Machine, list: Seq<Entry>)
    ensures
        taken_on(machine, list) == list.len() <==> forall|i: int|
            0 <= i < list.len() ==> taken(entry_on(machine, #[trigger] list[i])),
{
    lemma_taken_on(machine, list);
}

/// On one machine, lists of dependencies one behind the other are read as their parts one behind
/// the other, with `pip` once at the end.
pub proof fn law_joined_lists_on_a_machine(
    machine: Machine,
    a: Seq<CondaEnvDepView>,
    b: Seq<CondaEnvDepView>,
    first: ParsedDependenciesView,
    second: ParsedDependenciesView,
)
    requires
        dependencies_on(machine, a) == Ok::<ParsedDependenciesView, DependencyErrorView>(first),
        dependencies_on(machine, b) == Ok::<ParsedDependenciesView, DependencyErrorView>(second),
    ensures
        dependencies_on(machine, a + b) == Ok::<ParsedDependenciesView, DependencyErrorView>(
            joined(first, second),
        ),
{
    let left = entries(a);
    let right = entries(b);
    let both = entries(a + b);
    lemma_entries_joined(a, b);
    lemma_all_taken_on(machine, left);
    lemma_all_taken_on(machine, right);
    lemma_all_taken_on(machine, both);
    assert forall|i: int| 0 <= i < both.len() implies taken(
        entry_on(machine, #[trigger] both[i]),
    ) by {
        if i < left.len() {
            assert(both[i] == left[i]);
        } else {
            assert(both[i] == right[i - left.len()]);
        }
    }
    assert(entries_on(machine, both) =~= entries_on(machine, left) + entries_on(machine, right));
    lemma_collected_joined(entries_on(machine, left), entries_on(machine, right));
    lemma_without_installer(collected(entries_on(machine, left)));
    lemma_without_installer(collected(entries_on(machine, right)));
}

/// On one machine, it does not matter how Python packages are split into `pip` blocks, and where
/// the blocks stand among conda packages.
#[verifier::spinoff_prover]
#[verifier::rlimit(50)]
pub proof fn law_pip_blocks_on_a_machine(
    machine: Machine,
    before: Seq<CondaEnvDepView>,
    x: Seq<Seq<char>>,
    y: Seq<Seq<char>>,
    mid: Seq<CondaEnvDepView>,
    after: Seq<CondaEnvDepView>,
    parsed: ParsedDependenciesView,
)
    requires
        forall|i: int| 0 <= i < mid.len() ==> (#[trigger] mid[i]) is Conda,
        dependencies_on(machine, one_block(before, x + y, mid, after)) == Ok::<
            ParsedDependenciesView,
            DependencyErrorView,
        >(parsed),
    ensures
        dependencies_on(machine, two_blocks(before, x, mid, y, after)) == Ok::<
            ParsedDependenciesView,
            DependencyErrorView,
        >(parsed),
{
    let px = item_entries(CondaEnvDepView::Pip { pip: x });
    let py = item_entries(CondaEnvDepView::Pip { pip: y });
    let block = seq![CondaEnvDepView::Pip { pip: y }];
    let items = two_blocks(before, x, mid, y, after);
    let list = entries(one_block(before, x + y, mid, after));
    lemma_block_entries(before, x + y, mid, after);
    lemma_block_entries(before, x, mid, block + after);
    lemma_block(y);
    lemma_entries_joined(block, after);
    lemma_conda_entries(mid);
    assert(item_entries(CondaEnvDepView::Pip { pip: x + y }) =~= px + py);
    assert(list =~= entries(before) + px + py + entries(mid) + entries(after));
    lemma_moved_on(machine, entries(before) + px, py, entries(mid), entries(after));
    assert(entries(items) =~= entries(before) + px + entries(mid) + py + entries(after));
}

/// On one machine, Python packages and conda packages behind them change nothing if they change
/// places.
proof fn lemma_moved_on(
    machine: Machine,
    a: Seq<Entry>,
    b: Seq<Entry>,
    c: Seq<Entry>,
    d: Seq<Entry>,
)
    requires
        taken_on(machine, a + b + c + d) == (a + b + c + d).len(),
        forall|i: int| 0 <= i < b.len() ==> (#[trigger] b[i]) is Pip,
        forall|i: int| 0 <= i < c.len() ==> (#[trigger] c[i]) is Conda,
    ensures
        taken_on(machine, a + c + b + d) == (a + c + b + d).len(),
        collected(entries_on(machine, a + c + b + d)) == collected(
            entries_on(machine, a + b + c + d),
        ),
{
    let list = a + b + c + d;
    let other = a + c + b + d;
    lemma_all_taken_on(machine, list);
    lemma_all_taken_on(machine, other);
    assert forall|i: int| 0 <= i < other.len() implies taken(
        entry_on(machine, #[trigger] other[i]),
    ) by {
        let k = if i < a.len() {
            i
        } else if i < a.len() + c.len() {
            i + b.len()
        } else if i < a.len() + c.len() + b.len() {
            i - c.len()
        } else {
            i
        };
        assert(other[i] == list[k]);
    }
    let (ra, rb) = (entries_on(machine, a), entries_on(machine, b));
    let (rc, rd) = (entries_on(machine, c), entries_on(machine, d));
    assert(entries_on(machine, list) =~= ra + rb + rc + rd);
    assert(entries_on(machine, other) =~= ra + rc + rb + rd);
    assert forall|i: int| 0 <= i < rb.len() implies (#[trigger] rb[i]) is Pip by {
        assert(b[i] is Pip);
    }
    assert forall|i: int| 0 <= i < rc.len() implies (#[trigger] rc[i]) is Conda by {
        assert(c[i] is Conda);
    }
    lemma_parts_swap(ra, rb, rc, rd);
}

/// The conda packages that the items of a list name, in order.
pub open spec fn conda_named(items: Seq<CondaEnvDepView>) -> Seq<Seq<char>>
    decreases items.len(),
{
    if items.len() == 0 {
        Seq::empty()
    } else {
        conda_named(items.drop_last()) + match items.last() {
            CondaEnvDepView::Conda(text) => seq![text],
            CondaEnvDepView::Pip { .. } => Seq::empty(),
        }
    }
}

/// The Python packages that the items of a list name, in order.
pub open spec fn pip_named(items: Seq<CondaEnvDepView>) -> Seq<Seq<char>>
    decreases items.len(),
{
    if items.len() == 0 {
        Seq::empty()
    } else {
        pip_named(items.drop_last()) + match items.last() {
            CondaEnvDepView::Conda(_) => Seq::empty(),
            CondaEnvDepView::Pip { pip } => pip,
        }
    }
}

/// The texts in dependencies one behind the other come one behind the other.
proof fn lemma_texts_joined(a: Seq<Entry>, b: Seq<Entry>)
    ensures
        conda_texts(a + b) == conda_texts(a) + conda_texts(b),
        pip_texts(a + b) == pip_texts(a) + pip_texts(b),
    decreases b.len(),
{
    if b.len() == 0 {
        assert(a + b =~= a);
        assert(conda_texts(a) + conda_texts(b) =~= conda_texts(a));
        assert(pip_texts(a) + pip_texts(b) =~= pip_texts(a));
    } else {
        lemma_texts_joined(a, b.drop_last());
        assert((a + b).drop_last() =~= a + b.drop_last());
        assert((a + b).last() == b.last());
        assert(conda_texts(a + b) =~= conda_texts(a) + conda_texts(b));
        assert(pip_texts(a + b) =~= pip_texts(a) + pip_texts(b));
    }
}

/// The texts in a `pip` block.
proof fn lemma_texts_of_block(list: Seq<Entry>, pip: Seq<Seq<char>>)
    requires
        list.len() == pip.len(),
        forall|i: int| 0 <= i < pip.len() ==> #[trigger] list[i] == Entry::Pip(pip[i]),
    ensures
        conda_texts(list).len() == 0,
        pip_texts(list) == pip,
    decreases list.len(),
{
    if list.len() > 0 {
        assert(list[list.len() - 1] == Entry::Pip(pip[list.len() - 1]));
        lemma_texts_of_block(list.drop_last(), pip.drop_last());
        assert(pip.drop_last().push(pip.last()) =~= pip);
    } else {
        assert(pip_texts(list) =~= pip);
    }
}

/// The texts in the dependencies of a list are those that its items name.
proof fn lemma_texts_are_named(items: Seq<CondaEnvDepView>)
    ensures
        conda_texts(entries(items)) == conda_named(items),
        pip_texts(entries(items)) == pip_named(items),
    decreases items.len(),
{
    if items.len() > 0 {
        let here = item_entries(items.last());
        lemma_texts_are_named(items.drop_last());
        lemma_texts_joined(entries(items.drop_last()), here);
        match items.last() {
            CondaEnvDepView::Conda(text) => {
                assert(here.drop_last() =~= Seq::<Entry>::empty());
                assert(conda_texts(here.drop_last()) =~= Seq::<Seq<char>>::empty());
                assert(pip_texts(here.drop_last()) =~= Seq::<Seq<char>>::empty());
                assert(conda_texts(here) =~= seq![text]);
                assert(pip_texts(here) =~= Seq::<Seq<char>>::empty());
            },
            CondaEnvDepView::Pip { pip } => {
                lemma_texts_of_block(here, pip);
                assert(conda_texts(here) =~= Seq::<Seq<char>>::empty());
            },
        }
    }
}

/// What is collected of a list of which all was taken is what each of its texts was read as.
proof fn lemma_collected_as_read(list: Seq<Entry>, outcomes: Seq<EntryOutcome>)
    requires
        read_with(list, outcomes),
        outcomes.len() == list.len(),
        forall|i: int| 0 <= i < outcomes.len() ==> taken(#[trigger] outcomes[i]),
    ensures
        collected(outcomes).conda_deps.len() == conda_texts(list).len(),
        forall|i: int|
            0 <= i < conda_texts(list).len() ==> match_spec_reads_as(
                conda_texts(list)[i],
                Ok(#[trigger] collected(outcomes).conda_deps[i]),
            ),
    decreases list.len(),
{
    if list.len() > 0 {
        let last = list.len() - 1;
        lemma_collected_as_read(list.drop_last(), outcomes.drop_last());
        assert(taken(outcomes[last]));
        assert(entry_reads_as(list[last], outcomes[last]));
        let before = collected(outcomes.drop_last()).conda_deps;
        assert forall|i: int| 0 <= i < conda_texts(list).len() implies match_spec_reads_as(
            conda_texts(list)[i],
            Ok(#[trigger] collected(outcomes).conda_deps[i]),
        ) by {
            if i < before.len() {
                assert(collected(outcomes).conda_deps[i] == before[i]);
            }
        }
    }
}

/// The channels that match specs name are those of the specs that have one.
proof fn lemma_channels_named(specs: Seq<MatchSpecView>)
    ensures
        forall|i: int|
            0 <= i < specs.len() && (#[trigger] specs[i]).channel is Some ==> channels_named(
                specs,
            ).contains(specs[i].channel->0),
        forall|k: int|
            0 <= k < channels_named(specs).len() ==> exists|i: int|
                0 <= i < specs.len() && (#[trigger] specs[i]).channel == Some(
                    #[trigger] channels_named(specs)[k],
                ),
    decreases specs.len(),
{
    if specs.len() > 0 {
        let front = specs.drop_last();
        let last = specs.len() - 1;
        lemma_channels_named(front);
        let before = channels_named(front);
        let all = channels_named(specs);
        assert forall|i: int| 0 <= i < specs.len() && (
        #[trigger] specs[i]).channel is Some implies all.contains(specs[i].channel->0) by {
            if i < last {
                assert(front[i] == specs[i]);
                let at = choose|at: int|
                    0 <= at < before.len() && before[at] == specs[i].channel->0;
                assert(all[at] == before[at]);
            } else {
                assert(all[before.len() as int] == specs[last].channel->0);
            }
        }
        assert forall|k: int| 0 <= k < all.len() implies exists|i: int|
            0 <= i < specs.len() && (#[trigger] specs[i]).channel == Some(#[trigger] all[k]) by {
            if k < before.len() {
                assert(all[k] == before[k]);
                let i = choose|i: int|
                    0 <= i < front.len() && (#[trigger] front[i]).channel == Some(before[k]);
                assert(specs[i] == front[i]);
                assert(specs[i].channel == Some(all[k]));
            } else {
                assert(specs[last].channel == Some(all[k]));
            }
        }
    }
}

/// Dependencies that are read are what their texts are read as, in all their parts and in their
/// order.
///
/// Each conda package of the file is a match spec that its own text may be read as. Behind them
/// comes `pip`, in any version, from any channel, if and only if there is a Python package. Each
/// Python package is what its own entry comes to. The channels are those of the match specs that
/// have one, and each text that names a channel has the channel that it names among them.
pub proof fn law_dependencies_are_read(
    items: Seq<CondaEnvDepView>,
    parsed: ParsedDependenciesView,
)
    requires
        dependencies_read_as(items, Ok(parsed)),
    ensures
        ({
            let condas = conda_named(items);
            let pips = pip_named(items);
            &&& parsed.conda_deps.len() == condas.len() + if pips.len() > 0 {
                1int
            } else {
                0
            }
            &&& forall|i: int|
                0 <= i < condas.len() ==> match_spec_reads_as(
                    condas[i],
                    Ok(#[trigger] parsed.conda_deps[i]),
                )
            &&& pips.len() > 0 ==> {
                let pip = parsed.conda_deps[condas.len() as int];
                &&& pip.source == "pip"@ && pip.name == Some("pip"@)
                &&& pip.version is None && pip.build is None && pip.channel is None
            }
            &&& parsed.pip_deps.len() == pips.len()
            &&& forall|i: int|
                0 <= i < pips.len() ==> requirement_outcome(requirement_text(pips[i])) == Ok::<
                    (PackageNameView, PyPiRequirementView),
                    PipErrorView,
                >(#[trigger] parsed.pip_deps[i])
            &&& parsed.channels == channels_named(parsed.conda_deps)
            &&& forall|i: int|
                0 <= i < condas.len() && channel_part(condas[i]) is Some ==> {
                    let spec = #[trigger] parsed.conda_deps[i];
                    &&& spec.channel is Some
                    &&& channel_holds(channel_part(condas[i])->0, spec.channel->0)
                    &&& parsed.channels.contains(spec.channel->0)
                }
            &&& forall|k: int|
                0 <= k < parsed.channels.len() ==> exists|i: int|
                    0 <= i < condas.len() && (#[trigger] parsed.conda_deps[i]).channel == Some(
                        #[trigger] parsed.channels[k],
                    )
        }),
{
    let list = entries(items);
    let condas = conda_named(items);
    let pips = pip_named(items);
    let outcomes = choose|outcomes: Seq<EntryOutcome>| #[trigger]
        read_with(list, outcomes) && sums_up(list, outcomes, Ok(parsed));
    lemma_texts_are_named(items);
    lemma_collected(list, outcomes);
    lemma_collected_as_read(list, outcomes);
    law_dependencies_keep_order(items, parsed);
    let own = collected(outcomes).conda_deps;
    lemma_channels_named(parsed.conda_deps);
    assert forall|i: int| 0 <= i < condas.len() implies match_spec_reads_as(
        condas[i],
        Ok(#[trigger] parsed.conda_deps[i]),
    ) by {
        assert(parsed.conda_deps[i] == own[i]);
    }
    assert forall|i: int| 0 <= i < pips.len() implies requirement_outcome(requirement_text(pips[i]))
        == Ok::<(PackageNameView, PyPiRequirementView), PipErrorView>(
        #[trigger] parsed.pip_deps[i],
    ) by {
        assert(pip_texts(list)[i] == pips[i]);
    }
    assert forall|i: int| 0 <= i < condas.len() && channel_part(condas[i]) is Some implies ({
        let spec = #[trigger] parsed.conda_deps[i];
        &&& spec.channel is Some
        &&& channel_holds(channel_part(condas[i])->0, spec.channel->0)
        &&& parsed.channels.contains(spec.channel->0)
    }) by {
        assert(match_spec_reads_as(condas[i], Ok(parsed.conda_deps[i])));
    }
    assert forall|k: int| 0 <= k < parsed.channels.len() implies exists|i: int|
        0 <= i < condas.len() && (#[trigger] parsed.conda_deps[i]).channel == Some(
            #[trigger] parsed.channels[k],
        ) by {
        let i = choose|i: int|
            0 <= i < parsed.conda_deps.len() && (#[trigger] parsed.conda_deps[i]).channel == Some(
                channels_named(parsed.conda_deps)[k],
            );
        assert(parsed.conda_deps[i].channel == Some(parsed.channels[k]));
        assert(i < condas.len()) by {
            if i == condas.len() {
                assert(parsed.conda_deps[i] == parsed.conda_deps.last());
            }
        }
    }
    assert(pips.len() > 0 ==> parsed.conda_deps[condas.len() as int] == parsed.conda_deps.last());
}

/// Whether an item of a list may be read as a whole.
pub open spec fn item_may_be_taken(item: CondaEnvDepView) -> bool {
    match item {
        CondaEnvDepView::Conda(text) => exists|spec: MatchSpecView| #[trigger]
            match_spec_reads_as(text, Ok(spec)),
        CondaEnvDepView::Pip { pip } => forall|j: int|
            0 <= j < pip.len() ==> requirement_outcome(
                requirement_text(#[trigger] pip[j]),
            ) is Ok,
    }
}

/// Where a dependency of a list stands: in which item.
proof fn lemma_item_of(items: Seq<CondaEnvDepView>, at: int) -> (i: int)
    requires
        0 <= at < entries(items).len(),
    ensures
        0 <= i < items.len(),
        entries(items.take(i)).len() <= at,
        at < entries(items.take(i)).len() + item_entries(items[i]).len(),
        entries(items)[at] == item_entries(items[i])[at - entries(items.take(i)).len()],
    decreases items.len(),
{
    let front = items.drop_last();
    if at < entries(front).len() {
        let i = lemma_item_of(front, at);
        assert(front.take(i) =~= items.take(i));
        i
    } else {
        let i = items.len() - 1;
        assert(items.take(i) =~= front);
        i
    }
}

/// The dependencies of an earlier item stand in front of those of a later one.
proof fn lemma_items_in_order(items: Seq<CondaEnvDepView>, k: int, i: int, j: int)
    requires
        0 <= k < i <= items.len(),
        0 <= j < item_entries(items[k]).len(),
    ensures
        entries(items.take(k)).len() + j < entries(items.take(i)).len(),
        entries(items.take(i)).len() <= entries(items).len(),
        entries(items)[entries(items.take(k)).len() + j] == item_entries(items[k])[j],
{
    lemma_entries_prefix(items, k + 1);
    lemma_entries_prefix(items, i);
    lemma_entries_prefix(items.take(i), k + 1);
    assert(items.take(i).take(k + 1) =~= items.take(k + 1));
    assert(items.take(k + 1).drop_last() =~= items.take(k));
    assert(items.take(k + 1).last() == items[k]);
    let front = entries(items.take(k + 1));
    let at = entries(items.take(k)).len() + j;
    assert(front[at] == item_entries(items[k])[j]);
    assert(entries(items).take(front.len() as int)[at] == entries(items)[at]);
}

/// Dependencies that are not read are refused over the first of them, in the order of the file, that
/// may not be taken. The error names its text and why it was refused, and all items in front of it,
/// and all entries in front of it in its block, may be taken.
pub proof fn law_first_refusal_is_named(items: Seq<CondaEnvDepView>, error: DependencyErrorView)
    requires
        dependencies_read_as(items, Err(error)),
    ensures
        match error {
            DependencyErrorView::Conda(text, why) => exists|i: int|
                {
                    &&& 0 <= i < items.len() && #[trigger] items[i] == CondaEnvDepView::Conda(text)
                    &&& match_spec_reads_as(text, Err(why))
                    &&& forall|k: int| 0 <= k < i ==> item_may_be_taken(#[trigger] items[k])
                },
            DependencyErrorView::Pip(text, why) => exists|i: int, j: int|
                {
                    &&& 0 <= i < items.len() && #[trigger] items[i] is Pip
                    &&& 0 <= j < items[i]->pip.len() && #[trigger] items[i]->pip[j] == text
                    &&& requirement_outcome(requirement_text(text)) == Err::<
                        (PackageNameView, PyPiRequirementView),
                        PipErrorView,
                    >(why)
                    &&& forall|k: int| 0 <= k < i ==> item_may_be_taken(#[trigger] items[k])
                    &&& forall|k: int|
                        0 <= k < j ==> requirement_outcome(
                            requirement_text(#[trigger] items[i]->pip[k]),
                        ) is Ok
                },
        },
{
    let list = entries(items);
    let outcomes = choose|outcomes: Seq<EntryOutcome>| #[trigger]
        read_with(list, outcomes) && sums_up(list, outcomes, Err(error));
    let last = outcomes.len() - 1;
    assert(entry_reads_as(list[last], outcomes[last]));
    let i = lemma_item_of(items, last);
    let start = entries(items.take(i)).len() as int;
    let j = last - start;
    assert forall|k: int| 0 <= k < i implies item_may_be_taken(#[trigger] items[k]) by {
        let from = entries(items.take(k)).len() as int;
        match items[k] {
            CondaEnvDepView::Conda(text) => {
                lemma_items_in_order(items, k, i, 0);
                assert(taken(outcomes[from]) && entry_reads_as(list[from], outcomes[from]));
                let spec = outcomes[from]->Conda_0->Ok_0;
                assert(match_spec_reads_as(text, Ok(spec)));
            },
            CondaEnvDepView::Pip { pip } => {
                assert forall|m: int| 0 <= m < pip.len() implies requirement_outcome(
                    requirement_text(#[trigger] pip[m]),
                ) is Ok by {
                    lemma_items_in_order(items, k, i, m);
                    let at = from + m;
                    assert(list[at] == Entry::Pip(pip[m]));
                    assert(taken(outcomes[at]) && entry_reads_as(list[at], outcomes[at]));
                }
            },
        }
    }
    match items[i] {
        CondaEnvDepView::Conda(text) => {
            assert(list[last] == Entry::Conda(text));
            assert(items[i] == CondaEnvDepView::Conda(text));
        },
        CondaEnvDepView::Pip { pip } => {
            assert(list[last] == Entry::Pip(pip[j]));
            assert forall|k: int| 0 <= k < j implies requirement_outcome(
                requirement_text(#[trigger] pip[k]),
            ) is Ok by {
                lemma_entries_prefix(items, i + 1);
                assert(items.take(i + 1).drop_last() =~= items.take(i));
                assert(items.take(i + 1).last() == items[i]);
                let front = entries(items.take(i + 1));
                let at = start + k;
                assert(front[at] == item_entries(items[i])[k]);
                assert(list.take(front.len() as int)[at] == list[at]);
                assert(list[at] == Entry::Pip(pip[k]));
                assert(taken(outcomes[at]) && entry_reads_as(list[at], outcomes[at]));
            }
            assert(items[i] is Pip && items[i]->pip[j] == pip[j]);
        },
    }
}

/// Dependencies none of which can be refused are read.
pub proof fn law_good_dependencies_are_read(
    items: Seq<CondaEnvDepView>,
    outcome: DependenciesOutcome,
)
    requires
        dependencies_read_as(items, outcome),
        forall|i: int, why: MatchSpecErrorView|
            0 <= i < items.len() && (#[trigger] items[i]) is Conda ==> !#[trigger]
            match_spec_reads_as(items[i]->Conda_0, Err(why)),
        forall|i: int, j: int|
            0 <= i < items.len() && items[i] is Pip && 0 <= j < items[i]->pip.len()
                ==> requirement_outcome(requirement_text(#[trigger] items[i]->pip[j])) is Ok,
    ensures
        outcome is Ok,
{
    if let Err(error) = outcome {
        law_first_refusal_is_named(items, error);
        match error {
            DependencyErrorView::Conda(text, why) => {
                let i = choose|i: int|
                    0 <= i < items.len() && #[trigger] items[i] == CondaEnvDepView::Conda(text);
                assert(items[i] is Conda && match_spec_reads_as(items[i]->Conda_0, Err(why)));
            },
            DependencyErrorView::Pip(text, why) => {
            },
        }
    }
}

/// What an entry of the list of channels stands for, wherever in the list it stands.
///
/// `defaults` stands for `main`, `r` and `msys2`, in this order. An entry of white space alone, or
/// of nothing, stands for no channel. Any other entry stands for one channel: its text, without the
/// white space in front of it and behind it.
pub proof fn law_entry_stands_for_channels(
    before: Seq<Seq<char>>,
    after: Seq<Seq<char>>,
    pad: Seq<char>,
    name: Seq<char>,
    tail: Seq<char>,
)
    requires
        forall|i: int| 0 <= i < pad.len() ==> is_white_space(#[trigger] pad[i]),
        forall|i: int| 0 <= i < tail.len() ==> is_white_space(#[trigger] tail[i]),
        name.len() > 0,
        !is_white_space(name[0]),
        !is_white_space(name.last()),
    ensures
        expanded(before + seq!["defaults"@] + after) == expanded(before) + seq![
            "main"@,
            "r"@,
            "msys2"@,
        ] + expanded(after),
        expanded(before + seq![pad] + after) == expanded(before) + expanded(after),
        pad + name + tail != "defaults"@ ==> expanded(before + seq![pad + name + tail] + after)
            == expanded(before) + seq![name] + expanded(after),
{
    let entry = pad + name + tail;
    lemma_padded(pad, name, tail);
    lemma_blank(pad);
    reveal_strlit("defaults");
    assert(pad != "defaults"@) by {
        if pad.len() > 0 {
            assert(is_white_space(pad[0]));
        }
    }
    lemma_one_entry("defaults"@);
    lemma_one_entry(pad);
    lemma_one_entry(entry);
    law_channels_of_joined_lists(before, seq!["defaults"@]);
    law_channels_of_joined_lists(before + seq!["defaults"@], after);
    law_channels_of_joined_lists(before, seq![pad]);
    law_channels_of_joined_lists(before + seq![pad], after);
    law_channels_of_joined_lists(before, seq![entry]);
    law_channels_of_joined_lists(before + seq![entry], after);
    assert(expanded(before) + Seq::<Seq<char>>::empty() =~= expanded(before));
}

/// A list of one entry stands for what the entry stands for.
proof fn lemma_one_entry(entry: Seq<char>)
    ensures
        expanded(seq![entry]) == channels_of(entry),
{
    assert(seq![entry].drop_last() =~= Seq::<Seq<char>>::empty());
    assert(expanded(Seq::<Seq<char>>::empty()) =~= Seq::<Seq<char>>::empty());
    assert(Seq::<Seq<char>>::empty() + channels_of(entry) =~= channels_of(entry));
}

/// Nothing is left of a text of white space.
proof fn lemma_blank(text: Seq<char>)
    requires
        forall|i: int| 0 <= i < text.len() ==> is_white_space(#[trigger] text[i]),
    ensures
        trimmed(text).len() == 0,
{
    law_trimming_takes_white_space_only(text);
    law_trimmed(text);
    let (from, to) = choose|from: int, to: int|
        0 <= from <= to <= text.len() && trimmed(text) == #[trigger] text.subrange(from, to);
    if from < to {
        assert(trimmed(text)[0] == text[from]);
    }
}

/// What is left of a text with white space around it is the text.
proof fn lemma_padded(pad: Seq<char>, name: Seq<char>, tail: Seq<char>)
    requires
        forall|i: int| 0 <= i < pad.len() ==> is_white_space(#[trigger] pad[i]),
        forall|i: int| 0 <= i < tail.len() ==> is_white_space(#[trigger] tail[i]),
        name.len() > 0,
        !is_white_space(name[0]),
        !is_white_space(name.last()),
    ensures
        trimmed(pad + name + tail) == name,
{
    let text = pad + name + tail;
    law_trimming_takes_white_space_only(text);
    law_trimmed(text);
    let (from, to) = choose|from: int, to: int|
        {
            &&& 0 <= from <= to <= text.len()
            &&& trimmed(text) == #[trigger] text.subrange(from, to)
            &&& forall|i: int| 0 <= i < from ==> is_white_space(#[trigger] text[i])
            &&& forall|i: int| to <= i < text.len() ==> is_white_space(#[trigger] text[i])
        };
    let start = pad.len() as int;
    let end = start + name.len();
    assert(text[start] == name[0] && text[end - 1] == name.last());
    assert(from <= start && to >= end);
    assert(trimmed(text)[0] == text[from]);
    assert(trimmed(text).last() == text[to - 1]);
    assert(from == start) by {
        if from < start {
            assert(text[from] == pad[from]);
        }
    }
    assert(to == end) by {
        if to > end {
            assert(text[to - 1] == tail[to - 1 - end]);
        }
    }
    assert(text.subrange(start, end) =~= name);
}

/// The channels that match specs name come in the order of the specs: one spec more adds its own
/// channel behind the others, if it has one, even if another spec named it before.
pub proof fn law_channels_come_in_order(specs: Seq<MatchSpecView>, spec: MatchSpecView)
    ensures
        channels_named(Seq::empty()).len() == 0,
        spec.channel is Some ==> channels_named(specs.push(spec)) == channels_named(specs).push(
            spec.channel->0,
        ),
        spec.channel is None ==> channels_named(specs.push(spec)) == channels_named(specs),
{
    assert(specs.push(spec).drop_last() =~= specs);
}

/// What the items of a list name comes in the order of the items: one item more adds its own
/// package, or its own list of Python packages, behind the others.
pub proof fn law_items_come_in_order(
    items: Seq<CondaEnvDepView>,
    text: Seq<char>,
    pip: Seq<Seq<char>>,
)
    ensures
        conda_named(items.push(CondaEnvDepView::Conda(text))) == conda_named(items).push(text),
        pip_named(items.push(CondaEnvDepView::Conda(text))) == pip_named(items),
        conda_named(items.push(CondaEnvDepView::Pip { pip })) == conda_named(items),
        pip_named(items.push(CondaEnvDepView::Pip { pip })) == pip_named(items) + pip,
{
    assert(items.push(CondaEnvDepView::Conda(text)).drop_last() =~= items);
    assert(items.push(CondaEnvDepView::Pip { pip }).drop_last() =~= items);
    assert(conda_named(items) + seq![text] =~= conda_named(items).push(text));
    assert(conda_named(items) + Seq::<Seq<char>>::empty() =~= conda_named(items));
    assert(pip_named(items) + Seq::<Seq<char>>::empty() =~= pip_named(items));
}

} // verus!
