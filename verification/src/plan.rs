//! What a new project starts with: its name, its channels and its dependencies.
use crate::channel::{
    channel_reads_as, law_plain_name_is_listed, law_plain_name_is_read, local_channel,
    named_channel, plain_name, readable_channel, Channel, ChannelError, ChannelErrorView,
    ChannelView,
};
use crate::env_file::{
    dependencies_outcome, dependencies_read_as, entries, expanded,
    law_dependencies_are_determined, law_plain_dependencies, local_entry, parse_channels,
    parse_dependencies, plain_entry, CondaEnvDepView, CondaEnvFile, CondaEnvFileView,
    DependenciesOutcome, DependencyError, DependencyErrorView, ParsedDependenciesView,
};
use crate::match_spec::{MatchSpec, MatchSpecView};
use crate::pypi::{PackageName, PackageNameView, PyPiRequirement, PyPiRequirementView};
use vstd::prelude::*;

verus! {

/// The channel of a project that names none.
pub const DEFAULT_CHANNEL: &'static str = "conda-forge";

/// The channels of a project that names none.
pub open spec fn default_channels() -> Seq<Seq<char>> {
    seq![DEFAULT_CHANNEL@]
}

/// The channels of a project that names none.
pub fn make_default_channels() -> (channels: Vec<String>)
    ensures
        channels.deep_view() == default_channels(),
{
    let mut channels: Vec<String> = Vec::new();
    channels.push(DEFAULT_CHANNEL.to_string());
    assert(channels.deep_view() =~= default_channels());
    channels
}

/// The items without those that came before, in the order in which they first came.
pub open spec fn unique<A>(items: Seq<A>) -> Seq<A>
    decreases items.len(),
{
    if items.len() == 0 {
        Seq::empty()
    } else {
        let before = unique(items.drop_last());
        if before.contains(items.last()) {
            before
        } else {
            before.push(items.last())
        }
    }
}

/// Whether a channel is among the channels.
fn has_channel(channels: &Vec<Channel>, channel: &Channel) -> (found: bool)
    ensures
        found == channels.deep_view().contains(channel@),
{
    for i in 0..channels.len()
        invariant
            forall|j: int| 0 <= j < i ==> channels.deep_view()[j] != channel@,
    {
        assert(channels.deep_view()[i as int] == channels[i as int]@);
        if channels[i].same(channel) {
            return true;
        }
    }
    false
}

/// The channels without those that came before, in the order in which they first came.
pub fn unique_channels(channels: Vec<Channel>) -> (once: Vec<Channel>)
    ensures
        once.deep_view() == unique(channels.deep_view()),
{
    let mut once: Vec<Channel> = Vec::new();
    let ghost all = channels.deep_view();
    assert(all.take(0) =~= Seq::<ChannelView>::empty());
    assert(once.deep_view() =~= Seq::<ChannelView>::empty());
    for i in 0..channels.len()
        invariant
            all == channels.deep_view(),
            once.deep_view() == unique(all.take(i as int)),
    {
        assert(all.take(i + 1).drop_last() =~= all.take(i as int));
        assert(all.take(i + 1).last() == channels[i as int]@);
        if !has_channel(&once, &channels[i]) {
            let ghost before = once.deep_view();
            once.push(channels[i].clone());
            assert(once.deep_view() =~= before.push(channels[i as int]@));
        }
    }
    assert(all.take(channels.len() as int) =~= all);
    once
}

/// The names under which a manifest lists channels.
pub open spec fn labels(channels: Seq<ChannelView>) -> Seq<Seq<char>> {
    channels.map_values(|channel: ChannelView| channel.label())
}

/// The channels that a manifest lists, out of those that packages name and those that are listed
/// on their own: each once, in the order in which they first come, or the default channels where
/// there is none.
pub open spec fn merged(picked: Seq<ChannelView>, listed: Seq<ChannelView>) -> Seq<Seq<char>> {
    if picked.len() + listed.len() == 0 {
        default_channels()
    } else {
        labels(unique(picked + listed))
    }
}

/// A list that is not empty has a first item that came before no other.
proof fn lemma_unique_empty<A>(items: Seq<A>)
    ensures
        unique(items).len() == 0 <==> items.len() == 0,
    decreases items.len(),
{
    if items.len() > 0 {
        lemma_unique_empty(items.drop_last());
    }
}

/// Merges the channels that packages name with those that are listed on their own.
pub fn merge_channels(picked: Vec<Channel>, listed: Vec<Channel>) -> (channels: Vec<String>)
    ensures
        channels.deep_view() == merged(picked.deep_view(), listed.deep_view()),
{
    let ghost all = picked.deep_view() + listed.deep_view();
    let mut extra_channels = picked;
    let mut listed = listed;
    extra_channels.append(&mut listed);
    assert(extra_channels.deep_view() =~= all);
    let once = unique_channels(extra_channels);
    proof {
        lemma_unique_empty(all);
    }
    if once.len() == 0 {
        return make_default_channels();
    }
    let mut channels: Vec<String> = Vec::new();
    for i in 0..once.len()
        invariant
            channels.len() == i,
            forall|j: int| 0 <= j < i ==> #[trigger] channels[j]@ == once[j]@.label(),
    {
        channels.push(once[i].name().to_string());
    }
    assert(channels.deep_view() =~= labels(once.deep_view()));
    channels
}

/// What reading a list of channels came to: all of them, or the first that is none.
pub type ChannelsOutcome = Result<Seq<ChannelView>, (Seq<char>, ChannelErrorView)>;

/// What a list of channels may be read as. Reading ends at the first text that is not a channel.
pub open spec fn channels_read_as(texts: Seq<Seq<char>>, outcome: ChannelsOutcome) -> bool {
    match outcome {
        Ok(channels) => {
            &&& channels.len() == texts.len()
            &&& forall|i: int|
                0 <= i < texts.len() ==> channel_reads_as(texts[i], Ok(#[trigger] channels[i]))
        },
        Err((text, error)) => exists|before: Seq<ChannelView>|
            {
                &&& before.len() < texts.len()
                &&& #[trigger] channels_read_as_front(texts, before)
                &&& text == texts[before.len() as int]
                &&& channel_reads_as(text, Err(error))
            },
    }
}

/// Whether the first texts of a list are read as these channels.
pub open spec fn channels_read_as_front(
    texts: Seq<Seq<char>>,
    channels: Seq<ChannelView>,
) -> bool {
    &&& channels.len() <= texts.len()
    &&& forall|i: int|
        0 <= i < channels.len() ==> channel_reads_as(texts[i], Ok(#[trigger] channels[i]))
}

/// Why an environment file cannot be imported.
#[derive(Debug, PartialEq, Eq)]
pub enum ImportError {
    /// One of its dependencies is not taken.
    Dependency(DependencyError),
    /// The text among its channels is not a channel.
    Channel(String, ChannelError),
}

/// What an [`ImportError`] holds.
pub enum ImportErrorView {
    Dependency(DependencyErrorView),
    Channel(Seq<char>, ChannelErrorView),
}

impl View for ImportError {
    type V = ImportErrorView;

    open spec fn view(&self) -> ImportErrorView {
        match self {
            ImportError::Dependency(error) => ImportErrorView::Dependency(error@),
            ImportError::Channel(text, error) => ImportErrorView::Channel(text@, error@),
        }
    }
}

/// The outcome that a result stands for.
pub open spec fn channels_outcome(
    read: Result<Vec<Channel>, (String, ChannelError)>,
) -> ChannelsOutcome {
    match read {
        Ok(channels) => Ok(channels.deep_view()),
        Err(error) => Err((error.0@, error.1@)),
    }
}

/// Reads a list of channels.
pub fn read_channels(texts: Vec<String>) -> (read: Result<Vec<Channel>, (String, ChannelError)>)
    ensures
        channels_read_as(texts.deep_view(), channels_outcome(read)),
{
    let mut channels: Vec<Channel> = Vec::new();
    let ghost all = texts.deep_view();
    for i in 0..texts.len()
        invariant
            all == texts.deep_view(),
            channels.len() == i,
            channels_read_as_front(all, channels.deep_view()),
    {
        let ghost before = channels.deep_view();
        match Channel::read(texts[i].as_str()) {
            Ok(channel) => {
                channels.push(channel);
                assert(channels.deep_view() =~= before.push(channel@));
            },
            Err(error) => {
                let text = texts[i].clone();
                assert(all[before.len() as int] == text@);
                return Err((text, error));
            },
        }
    }
    Ok(channels)
}

/// What a new project starts with.
#[derive(Debug, PartialEq, Eq)]
pub struct Plan {
    /// The name of the project.
    pub name: String,
    /// The channels that the manifest lists.
    pub channels: Vec<String>,
    /// The conda packages that it depends on.
    pub conda_deps: Vec<MatchSpec>,
    /// The Python packages that it depends on.
    pub pip_deps: Vec<(PackageName, PyPiRequirement)>,
}

/// What a [`Plan`] holds.
#[verifier::ext_equal]
pub struct PlanView {
    pub name: Seq<char>,
    pub channels: Seq<Seq<char>>,
    pub conda_deps: Seq<MatchSpecView>,
    pub pip_deps: Seq<(PackageNameView, PyPiRequirementView)>,
}

impl View for Plan {
    type V = PlanView;

    open spec fn view(&self) -> PlanView {
        PlanView {
            name: self.name@,
            channels: self.channels.deep_view(),
            conda_deps: self.conda_deps.deep_view(),
            pip_deps: self.pip_deps.deep_view(),
        }
    }
}

/// The plan for an empty project: in the channels that were asked for, or in the default channels
/// if none were asked for.
pub open spec fn empty_plan(name: Seq<char>, channels: Option<Seq<Seq<char>>>) -> PlanView {
    PlanView {
        name,
        channels: match channels {
            Some(channels) => channels,
            None => default_channels(),
        },
        conda_deps: Seq::empty(),
        pip_deps: Seq::empty(),
    }
}

/// What importing an environment file came to.
pub type ImportOutcome = Result<PlanView, ImportErrorView>;

/// What importing a file comes to, given what reading its dependencies and its channels came to.
pub open spec fn imported(
    name: Seq<char>,
    dependencies: DependenciesOutcome,
    listed: ChannelsOutcome,
) -> ImportOutcome {
    match (dependencies, listed) {
        (Err(error), _) => Err(ImportErrorView::Dependency(error)),
        (Ok(_), Err((text, error))) => Err(ImportErrorView::Channel(text, error)),
        (Ok(parsed), Ok(listed)) => Ok(
            PlanView {
                name,
                channels: merged(parsed.channels, listed),
                conda_deps: parsed.conda_deps,
                pip_deps: parsed.pip_deps,
            },
        ),
    }
}

/// What an environment file may be imported as.
pub open spec fn imports_as(file: CondaEnvFileView, outcome: ImportOutcome) -> bool {
    exists|dependencies: DependenciesOutcome, listed: ChannelsOutcome|
        {
            &&& #[trigger] dependencies_read_as(file.dependencies, dependencies)
            &&& dependencies is Ok ==> channels_read_as(expanded(file.channels), listed)
            &&& outcome == #[trigger] imported(file.name, dependencies, listed)
        }
}

/// The outcome that a result stands for.
pub open spec fn import_outcome(read: Result<Plan, ImportError>) -> ImportOutcome {
    match read {
        Ok(plan) => Ok(plan@),
        Err(error) => Err(error@),
    }
}

impl Plan {
    /// The plan for an empty project.
    pub fn empty(name: String, channels: Option<Vec<String>>) -> (plan: Plan)
        ensures
            plan@ == empty_plan(name@, channels.deep_view()),
    {
        let channels_or_default = match channels {
            Some(channels) => channels,
            None => make_default_channels(),
        };
        let plan = Plan {
            name,
            channels: channels_or_default,
            conda_deps: Vec::new(),
            pip_deps: Vec::new(),
        };
        assert(plan@ =~= empty_plan(name@, channels.deep_view()));
        plan
    }

    /// The plan for a project with the channels and the dependencies of an environment file.
    pub fn import(file: CondaEnvFile) -> (read: Result<Plan, ImportError>)
        ensures
            imports_as(file@, import_outcome(read)),
    {
        let name = file.name;
        let channels = parse_channels(file.channels);
        let parsed = parse_dependencies(file.dependencies);
        let ghost dependencies = dependencies_outcome(parsed);
        assert(dependencies_read_as(file@.dependencies, dependencies));
        let parsed = match parsed {
            Ok(parsed) => parsed,
            Err(error) => {
                let error = ImportError::Dependency(error);
                let ghost listed: ChannelsOutcome = arbitrary();
                assert(imported(file@.name, dependencies, listed) == Err::<
                    PlanView,
                    ImportErrorView,
                >(error@));
                return Err(error);
            },
        };
        let listed = read_channels(channels);
        let ghost listed_outcome = channels_outcome(listed);
        assert(channels_read_as(expanded(file@.channels), listed_outcome));
        match listed {
            Ok(listed) => {
                let plan = Plan {
                    name,
                    channels: merge_channels(parsed.channels, listed),
                    conda_deps: parsed.conda_deps,
                    pip_deps: parsed.pip_deps,
                };
                assert(imported(file@.name, dependencies, listed_outcome) == Ok::<
                    PlanView,
                    ImportErrorView,
                >(plan@));
                Ok(plan)
            },
            Err((text, error)) => {
                let error = ImportError::Channel(text, error);
                assert(imported(file@.name, dependencies, listed_outcome) == Err::<
                    PlanView,
                    ImportErrorView,
                >(error@));
                Err(error)
            },
        }
    }
}

/// Taking each item once loses none, adds none and leaves none twice.
pub proof fn law_unique<A>(items: Seq<A>)
    ensures
        unique(items).no_duplicates(),
        forall|item: A| #[trigger] unique(items).contains(item) <==> items.contains(item),
    decreases items.len(),
{
    if items.len() > 0 {
        let front = items.drop_last();
        law_unique(front);
        assert forall|item: A|
            #[trigger] unique(items).contains(item) <==> items.contains(item) by {
            let before = unique(front);
            assert(before.contains(item) <==> front.contains(item));
            if items.contains(item) && item != items.last() {
                let at = choose|at: int| 0 <= at < items.len() && items[at] == item;
                assert(front[at] == item);
            }
            if front.contains(item) {
                let at = choose|at: int| 0 <= at < front.len() && front[at] == item;
                assert(items[at] == item);
            }
            assert(items[items.len() - 1] == items.last());
            if !before.contains(items.last()) {
                assert(unique(items)[before.len() as int] == items.last());
                if before.contains(item) {
                    let at = choose|at: int| 0 <= at < before.len() && before[at] == item;
                    assert(unique(items)[at] == item);
                }
            }
        }
    }
}

/// Items none of which comes twice are each taken, in their order.
pub proof fn law_unique_once<A>(items: Seq<A>)
    requires
        items.no_duplicates(),
    ensures
        unique(items) == items,
    decreases items.len(),
{
    if items.len() > 0 {
        law_unique_once(items.drop_last());
        assert(!items.drop_last().contains(items.last()));
        assert(items.drop_last().push(items.last()) =~= items);
    } else {
        assert(unique(items) =~= items);
    }
}

/// What comes first stays first: leaving out what comes twice from the front of a list gives the
/// front of what is left of the list.
pub proof fn law_unique_keeps_order<A>(items: Seq<A>, n: int)
    requires
        0 <= n <= items.len(),
    ensures
        unique(items.take(n)).is_prefix_of(unique(items)),
    decreases items.len(),
{
    if n == items.len() {
        assert(items.take(n) =~= items);
    } else {
        law_unique_keeps_order(items.drop_last(), n);
        assert(items.drop_last().take(n) =~= items.take(n));
        let front = unique(items.take(n));
        assert(unique(items).subrange(0, front.len() as int) =~= unique(
            items.drop_last(),
        ).subrange(0, front.len() as int));
    }
}

/// A project always has a channel to take packages from.
pub proof fn law_import_has_channels(file: CondaEnvFileView, plan: PlanView)
    requires
        imports_as(file, Ok(plan)),
    ensures
        plan.channels.len() > 0,
        plan.name == file.name,
{
    let (dependencies, listed) = choose|
        dependencies: DependenciesOutcome,
        listed: ChannelsOutcome,
    |
        {
            &&& #[trigger] dependencies_read_as(file.dependencies, dependencies)
            &&& dependencies is Ok ==> channels_read_as(expanded(file.channels), listed)
            &&& Ok::<PlanView, ImportErrorView>(plan) == #[trigger] imported(
                file.name,
                dependencies,
                listed,
            )
        };
    lemma_unique_empty(dependencies->Ok_0.channels + listed->Ok_0);
}

/// The names under which a manifest lists channels of bare names are these names, each once.
proof fn lemma_labels_of_names(names: Seq<Seq<char>>, channels: Seq<ChannelView>)
    requires
        names.len() == channels.len(),
        forall|i: int| 0 <= i < names.len() ==> plain_name(#[trigger] names[i]),
        forall|i: int|
            0 <= i < names.len() ==> #[trigger] channels[i] == named_channel(names[i]),
    ensures
        labels(unique(channels)) == unique(names),
        forall|i: int|
            0 <= i < unique(channels).len() ==> #[trigger] unique(channels)[i] == named_channel(
                unique(names)[i],
            ),
    decreases names.len(),
{
    if names.len() == 0 {
        assert(labels(unique(channels)) =~= unique(names));
    } else {
        let last = names.len() - 1;
        lemma_labels_of_names(names.drop_last(), channels.drop_last());
        let before = unique(channels.drop_last());
        let before_names = unique(names.drop_last());
        assert(channels[last] == named_channel(names[last]));
        law_plain_name_is_listed(names[last]);
        assert(before.len() == labels(before).len());
        if before.contains(channels.last()) {
            let at = choose|at: int| 0 <= at < before.len() && before[at] == channels.last();
            assert(labels(before)[at] == names.last());
            assert(before_names[at] == names.last());
        }
        if before_names.contains(names.last()) {
            let at = choose|at: int|
                0 <= at < before_names.len() && before_names[at] == names.last();
            assert(before[at] == channels.last());
        }
        assert(labels(before.push(channels.last())) =~= labels(before).push(names.last()));
    }
}

/// A file that only names channels and packages is imported. The manifest lists the channels as
/// the file does, each once and in their order, or the default channels where the file names none.
pub proof fn law_plain_file_is_imported(file: CondaEnvFileView, outcome: ImportOutcome)
    requires
        imports_as(file, outcome),
        forall|i: int|
            0 <= i < entries(file.dependencies).len() ==> plain_entry(
                #[trigger] entries(file.dependencies)[i],
            ),
        forall|i: int|
            0 <= i < expanded(file.channels).len() ==> plain_name(
                #[trigger] expanded(file.channels)[i],
            ),
    ensures
        outcome is Ok,
        outcome->Ok_0.channels == if expanded(file.channels).len() == 0 {
            default_channels()
        } else {
            unique(expanded(file.channels))
        },
{
    let names = expanded(file.channels);
    let (dependencies, listed) = choose|
        dependencies: DependenciesOutcome,
        listed: ChannelsOutcome,
    |
        {
            &&& #[trigger] dependencies_read_as(file.dependencies, dependencies)
            &&& dependencies is Ok ==> channels_read_as(expanded(file.channels), listed)
            &&& outcome == #[trigger] imported(file.name, dependencies, listed)
        };
    law_plain_dependencies(file.dependencies, dependencies);
    match listed {
        Ok(channels) => {
            assert forall|i: int| 0 <= i < names.len() implies #[trigger] channels[i]
                == named_channel(names[i]) by {
                law_plain_name_is_read(names[i], Ok(channels[i]));
            }
            lemma_labels_of_names(names, channels);
            assert(dependencies->Ok_0.channels + channels =~= channels);
        },
        Err((text, error)) => {
            let at = choose|at: int|
                0 <= at < names.len() && #[trigger] names[at] == text;
            law_plain_name_is_read(text, Err(error));
        },
    }
}

/// The channels that packages name come before those that the file lists.
pub proof fn law_package_channels_come_first(picked: Seq<ChannelView>, listed: Seq<ChannelView>)
    requires
        picked.len() > 0,
    ensures
        labels(unique(picked)).is_prefix_of(merged(picked, listed)),
{
    let all = picked + listed;
    law_unique_keeps_order(all, picked.len() as int);
    assert(all.take(picked.len() as int) =~= picked);
    let n = unique(picked).len() as int;
    let front = unique(all).subrange(0, n);
    assert forall|i: int| 0 <= i < n implies labels(unique(picked))[i] == merged(
        picked,
        listed,
    )[i] by {
        assert(unique(picked)[i] == front[i]);
    }
    assert(merged(picked, listed).subrange(0, n) =~= labels(unique(picked)));
}

/// A manifest lists exactly the channels that packages name or the file lists.
pub proof fn law_every_channel_is_listed(
    picked: Seq<ChannelView>,
    listed: Seq<ChannelView>,
    label: Seq<char>,
)
    requires
        picked.len() + listed.len() > 0,
    ensures
        merged(picked, listed).contains(label) <==> exists|i: int|
            0 <= i < picked.len() + listed.len() && (#[trigger] (picked + listed)[i]).label()
                == label,
{
    let all = picked + listed;
    let once = unique(all);
    law_unique(all);
    if merged(picked, listed).contains(label) {
        let at = choose|at: int| 0 <= at < once.len() && labels(once)[at] == label;
        assert(once.contains(once[at]));
        assert(all.contains(once[at]));
        let i = choose|i: int| 0 <= i < all.len() && all[i] == once[at];
        assert((picked + listed)[i].label() == label);
    }
    if exists|i: int| 0 <= i < all.len() && (#[trigger] all[i]).label() == label {
        let i = choose|i: int| 0 <= i < all.len() && (#[trigger] all[i]).label() == label;
        assert(all.contains(all[i]));
        assert(once.contains(all[i]));
        let at = choose|at: int| 0 <= at < once.len() && once[at] == all[i];
        assert(labels(once)[at] == label);
    }
}

/// What is read of a list of channels is a function of the list, unless one of them lies in the
/// file system.
proof fn lemma_channels_are_determined(
    texts: Seq<Seq<char>>,
    a: ChannelsOutcome,
    b: ChannelsOutcome,
)
    requires
        channels_read_as(texts, a),
        channels_read_as(texts, b),
        forall|i: int|
            0 <= i < texts.len() ==> readable_channel(#[trigger] texts[i]) ==> !local_channel(
                texts[i],
            ),
    ensures
        a == b,
{
    let first = front_of(texts, a);
    let second = front_of(texts, b);
    assert forall|i: int| 0 <= i < first.len() && 0 <= i < second.len() implies first[i]
        == second[i] by {
        assert(channel_reads_as(texts[i], Ok(first[i])));
        assert(channel_reads_as(texts[i], Ok(second[i])));
    }
    if first.len() < second.len() {
        assert(channel_reads_as(texts[first.len() as int], Ok(second[first.len() as int])));
    }
    if second.len() < first.len() {
        assert(channel_reads_as(texts[second.len() as int], Ok(first[second.len() as int])));
    }
    assert(first =~= second);
}

/// The channels that were read before reading ended.
spec fn front_of(texts: Seq<Seq<char>>, outcome: ChannelsOutcome) -> Seq<ChannelView> {
    match outcome {
        Ok(channels) => channels,
        Err((text, error)) => choose|before: Seq<ChannelView>|
            {
                &&& before.len() < texts.len()
                &&& #[trigger] channels_read_as_front(texts, before)
                &&& text == texts[before.len() as int]
                &&& channel_reads_as(text, Err(error))
            },
    }
}

/// What a file is imported as is a function of the file, unless a channel lies in the file system.
pub proof fn law_import_is_determined(file: CondaEnvFileView, a: ImportOutcome, b: ImportOutcome)
    requires
        imports_as(file, a),
        imports_as(file, b),
        forall|i: int|
            0 <= i < entries(file.dependencies).len() ==> !local_entry(
                #[trigger] entries(file.dependencies)[i],
            ),
        forall|i: int|
            0 <= i < expanded(file.channels).len() ==> readable_channel(
                #[trigger] expanded(file.channels)[i],
            ) ==> !local_channel(expanded(file.channels)[i]),
    ensures
        a == b,
{
    let (first, listed) = choose|dependencies: DependenciesOutcome, listed: ChannelsOutcome|
        {
            &&& #[trigger] dependencies_read_as(file.dependencies, dependencies)
            &&& dependencies is Ok ==> channels_read_as(expanded(file.channels), listed)
            &&& a == #[trigger] imported(file.name, dependencies, listed)
        };
    let (second, listed_again) = choose|
        dependencies: DependenciesOutcome,
        listed: ChannelsOutcome,
    |
        {
            &&& #[trigger] dependencies_read_as(file.dependencies, dependencies)
            &&& dependencies is Ok ==> channels_read_as(expanded(file.channels), listed)
            &&& b == #[trigger] imported(file.name, dependencies, listed)
        };
    law_dependencies_are_determined(file.dependencies, first, second);
    if first is Ok {
        lemma_channels_are_determined(expanded(file.channels), listed, listed_again);
    }
}

/// The manifest of an empty project lists the channels that were asked for as they are, even if
/// none are left of them, or else `conda-forge` alone, and the project has no dependencies.
pub proof fn law_empty_project(name: Seq<char>, channels: Option<Seq<Seq<char>>>)
    ensures
        empty_plan(name, channels).name == name,
        channels is Some ==> empty_plan(name, channels).channels == channels->0,
        channels is None ==> empty_plan(name, channels).channels == seq!["conda-forge"@],
        empty_plan(name, channels).conda_deps.len() == 0,
        empty_plan(name, channels).pip_deps.len() == 0,
{
}

/// A file that is imported comes to a project of its name, with all that its dependencies were read
/// as, and with the channels that they name and those that the file lists.
///
/// Each channel that the file lists is what its own text may be read as. The manifest lists the
/// channels of the packages and then those of the file, each at the place where it first comes and
/// nowhere else, or `conda-forge` alone where there is none.
pub proof fn law_import_keeps_all(file: CondaEnvFileView, plan: PlanView) -> (parts: (
    ParsedDependenciesView,
    Seq<ChannelView>,
))
    requires
        imports_as(file, Ok(plan)),
    ensures
        ({
            let (parsed, listed) = parts;
            let texts = expanded(file.channels);
            let all = parsed.channels + listed;
            &&& dependencies_read_as(file.dependencies, Ok(parsed))
            &&& listed.len() == texts.len()
            &&& forall|i: int|
                0 <= i < texts.len() ==> channel_reads_as(texts[i], Ok(#[trigger] listed[i]))
            &&& plan.name == file.name
            &&& plan.conda_deps == parsed.conda_deps
            &&& plan.pip_deps == parsed.pip_deps
            &&& all.len() == 0 ==> plan.channels == seq!["conda-forge"@]
            &&& all.len() > 0 ==> plan.channels.len() == unique(all).len() && plan.channels.len()
                > 0
            &&& all.len() > 0 ==> forall|i: int|
                0 <= i < plan.channels.len() ==> #[trigger] plan.channels[i] == unique(
                    all,
                )[i].label()
            &&& forall|i: int|
                0 <= i < parsed.channels.len() ==> plan.channels.contains(
                    (#[trigger] parsed.channels[i]).label(),
                )
            &&& forall|i: int|
                0 <= i < listed.len() ==> plan.channels.contains((#[trigger] listed[i]).label())
        }),
{
    let (dependencies, outcome) = choose|
        dependencies: DependenciesOutcome,
        listed: ChannelsOutcome,
    |
        {
            &&& #[trigger] dependencies_read_as(file.dependencies, dependencies)
            &&& dependencies is Ok ==> channels_read_as(expanded(file.channels), listed)
            &&& Ok::<PlanView, ImportErrorView>(plan) == #[trigger] imported(
                file.name,
                dependencies,
                listed,
            )
        };
    let parsed = dependencies->Ok_0;
    let listed = outcome->Ok_0;
    let all = parsed.channels + listed;
    lemma_unique_empty(all);
    assert forall|i: int| 0 <= i < parsed.channels.len() implies plan.channels.contains(
        (#[trigger] parsed.channels[i]).label(),
    ) by {
        assert(all[i] == parsed.channels[i]);
        law_every_channel_is_listed(parsed.channels, listed, parsed.channels[i].label());
    }
    assert forall|i: int| 0 <= i < listed.len() implies plan.channels.contains(
        (#[trigger] listed[i]).label(),
    ) by {
        assert(all[i + parsed.channels.len()] == listed[i]);
        law_every_channel_is_listed(parsed.channels, listed, listed[i].label());
    }
    (parsed, listed)
}

/// An item is taken where it comes for the first time: behind the items in front of it, each
/// counted once.
pub proof fn law_first_of_its_kind<A>(items: Seq<A>, i: int)
    requires
        0 <= i < items.len(),
        !items.take(i).contains(items[i]),
    ensures
        unique(items.take(i)).len() < unique(items).len(),
        unique(items)[unique(items.take(i)).len() as int] == items[i],
{
    let front = items.take(i);
    let next = items.take(i + 1);
    assert(next.drop_last() =~= front);
    law_unique(front);
    assert(!unique(front).contains(items[i]));
    law_unique_keeps_order(items, i + 1);
    let at = unique(front).len() as int;
    assert(unique(next)[at] == items[i]);
    assert(unique(items).subrange(0, unique(next).len() as int)[at] == items[i]);
}

/// A file that is not imported is refused over its dependencies if they were refused, and else over
/// the first of its channels that is none; the channels in front of that one could be read.
pub proof fn law_import_refusal(file: CondaEnvFileView, error: ImportErrorView)
    requires
        imports_as(file, Err(error)),
    ensures
        match error {
            ImportErrorView::Dependency(why) => dependencies_read_as(file.dependencies, Err(why)),
            ImportErrorView::Channel(text, why) => refused_channel(
                file.dependencies,
                expanded(file.channels),
                text,
                why,
            ),
        },
{
    let (dependencies, listed) = choose|
        dependencies: DependenciesOutcome,
        listed: ChannelsOutcome,
    |
        {
            &&& #[trigger] dependencies_read_as(file.dependencies, dependencies)
            &&& dependencies is Ok ==> channels_read_as(expanded(file.channels), listed)
            &&& Err::<PlanView, ImportErrorView>(error) == #[trigger] imported(
                file.name,
                dependencies,
                listed,
            )
        };
    if let ImportErrorView::Channel(text, why) = error {
        let texts = expanded(file.channels);
        let before = front_of(texts, listed);
        let i = before.len() as int;
        assert(dependencies_read_as(file.dependencies, Ok(dependencies->Ok_0)));
        assert forall|k: int| 0 <= k < i implies channel_may_be_read(#[trigger] texts[k]) by {
            assert(channel_reads_as(texts[k], Ok(before[k])));
        }
        assert(texts[i] == text);
    }
}

/// Whether a text may be read as a channel.
pub open spec fn channel_may_be_read(text: Seq<char>) -> bool {
    exists|channel: ChannelView| #[trigger] channel_reads_as(text, Ok(channel))
}

/// Whether a text may be the one over which an import fails, where the dependencies were read: one
/// of the channels that is refused, and none in front of it is.
pub open spec fn refused_channel(
    items: Seq<CondaEnvDepView>,
    texts: Seq<Seq<char>>,
    text: Seq<char>,
    why: ChannelErrorView,
) -> bool {
    &&& exists|parsed: ParsedDependenciesView| #[trigger] dependencies_read_as(items, Ok(parsed))
    &&& channel_reads_as(text, Err(why))
    &&& exists|i: int|
        {
            &&& 0 <= i < texts.len() && #[trigger] texts[i] == text
            &&& forall|k: int| 0 <= k < i ==> channel_may_be_read(#[trigger] texts[k])
        }
}

/// A file whose dependencies and channels cannot be refused is imported.
pub proof fn law_good_file_is_imported(file: CondaEnvFileView, outcome: ImportOutcome)
    requires
        imports_as(file, outcome),
        forall|why: DependencyErrorView| !#[trigger]
            dependencies_read_as(file.dependencies, Err(why)),
        forall|i: int, why: ChannelErrorView|
            0 <= i < expanded(file.channels).len() ==> !#[trigger] channel_reads_as(
                expanded(file.channels)[i],
                Err(why),
            ),
    ensures
        outcome is Ok,
{
    if let Err(error) = outcome {
        law_import_refusal(file, error);
    }
}

} // verus!
