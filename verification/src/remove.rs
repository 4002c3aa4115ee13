//! Removing dependencies from a project: what is to be removed, and what the user is told of it.
use vstd::prelude::*;
use vstd::string::StringExecFns;

verus! {

/// What a dependency is needed for.
#[derive(Debug, Clone, Copy, PartialEq, Eq, Structural)]
pub enum SpecType {
    /// To run the project.
    Run,
    /// To build the project, on the machine that it is built for.
    Host,
    /// To build the project, on the machine that builds it.
    Build,
}

/// What is asked to be removed.
#[derive(Debug, PartialEq, Eq)]
pub struct Args {
    /// The names of the packages that the project should no longer depend on.
    pub deps: Vec<String>,
    /// Whether they are host dependencies.
    pub host: bool,
    /// Whether they are build dependencies.
    pub build: bool,
    /// The platform for which alone they are removed.
    pub platform: Option<String>,
}

/// What an [`Args`] holds.
pub struct ArgsView {
    pub deps: Seq<Seq<char>>,
    pub host: bool,
    pub build: bool,
    pub platform: Option<Seq<char>>,
}

impl View for Args {
    type V = ArgsView;

    open spec fn view(&self) -> ArgsView {
        ArgsView {
            deps: self.deps.deep_view(),
            host: self.host,
            build: self.build,
            platform: self.platform.deep_view(),
        }
    }
}

/// One dependency to be removed.
#[derive(Debug, PartialEq, Eq)]
pub struct Removal {
    /// The name of the package.
    pub name: String,
    /// What the package was needed for.
    pub spec_type: SpecType,
    /// The platform for which alone it is removed; for all of them where there is none.
    pub platform: Option<String>,
}

/// What a [`Removal`] holds.
pub struct RemovalView {
    pub name: Seq<char>,
    pub spec_type: SpecType,
    pub platform: Option<Seq<char>>,
}

impl DeepView for Removal {
    type V = RemovalView;

    open spec fn deep_view(&self) -> RemovalView {
        RemovalView {
            name: self.name@,
            spec_type: self.spec_type,
            platform: self.platform.deep_view(),
        }
    }
}

/// A line for the user.
#[derive(Debug, PartialEq, Eq)]
pub struct Line {
    /// The text of the line.
    pub text: String,
    /// What stands in bold at its end.
    pub bold: Option<String>,
}

/// What a [`Line`] holds.
pub struct LineView {
    pub text: Seq<char>,
    pub bold: Option<Seq<char>>,
}

impl DeepView for Line {
    type V = LineView;

    open spec fn deep_view(&self) -> LineView {
        LineView { text: self.text@, bold: self.bold.deep_view() }
    }
}

/// What a removal came to: the name of the package and the versions that the project allowed, or
/// the words of the error.
pub type Outcome = Result<(String, String), String>;

/// What an [`Outcome`] holds.
pub type OutcomeView = Result<(Seq<char>, Seq<char>), Seq<char>>;

/// What an outcome holds.
pub open spec fn outcome_of(result: Outcome) -> OutcomeView {
    match result {
        Ok((name, spec)) => Ok((name@, spec@)),
        Err(reason) => Err(reason@),
    }
}

/// What the outcomes hold.
pub open spec fn outcomes_of(results: Seq<Outcome>) -> Seq<OutcomeView> {
    results.map_values(|result: Outcome| outcome_of(result))
}

/// What the dependencies are needed for, by what was asked for. Host goes before build.
pub open spec fn asked_type(host: bool, build: bool) -> SpecType {
    if host {
        SpecType::Host
    } else if build {
        SpecType::Build
    } else {
        SpecType::Run
    }
}

/// What the dependencies are needed for, by what was asked for.
pub fn spec_type(host: bool, build: bool) -> (asked: SpecType)
    ensures
        asked == asked_type(host, build),
{
    if host {
        SpecType::Host
    } else if build {
        SpecType::Build
    } else {
        SpecType::Run
    }
}

/// What is to be removed, in order.
pub open spec fn planned_removals(args: ArgsView) -> Seq<RemovalView> {
    args.deps.map_values(
        |name: Seq<char>|
            RemovalView {
                name,
                spec_type: asked_type(args.host, args.build),
                platform: args.platform,
            },
    )
}

/// What is to be removed, in order. Each removal is done whatever became of those before it.
pub fn removals(args: &Args) -> (list: Vec<Removal>)
    ensures
        list.deep_view() == planned_removals(args@),
{
    let asked = spec_type(args.host, args.build);
    let mut list: Vec<Removal> = Vec::new();
    for i in 0..args.deps.len()
        invariant
            asked == asked_type(args.host, args.build),
            list.len() == i,
            forall|j: int|
                0 <= j < i ==> (#[trigger] list[j]).deep_view() == planned_removals(args@)[j],
    {
        let platform = match &args.platform {
            Some(platform) => Some(platform.clone()),
            None => None,
        };
        list.push(Removal { name: args.deps[i].clone(), spec_type: asked, platform });
        assert(list[i as int].deep_view() == planned_removals(args@)[i as int]);
    }
    assert(list.deep_view() =~= planned_removals(args@));
    list
}

/// A line without anything in bold.
pub open spec fn plain_line(text: Seq<char>) -> LineView {
    LineView { text, bold: None }
}

/// The line for a package that was removed.
pub open spec fn removed_line(name: Seq<char>, spec: Seq<char>) -> LineView {
    plain_line("Removed "@ + name + " "@ + spec)
}

/// The lines for the packages that were removed, in order.
pub open spec fn removed_lines(outcomes: Seq<OutcomeView>) -> Seq<LineView>
    decreases outcomes.len(),
{
    if outcomes.len() == 0 {
        Seq::empty()
    } else {
        let before = removed_lines(outcomes.drop_last());
        match outcomes.last() {
            Ok((name, spec)) => before.push(removed_line(name, spec)),
            Err(_) => before,
        }
    }
}

/// The lines for the removals that failed, in order.
pub open spec fn error_lines(outcomes: Seq<OutcomeView>) -> Seq<LineView>
    decreases outcomes.len(),
{
    if outcomes.len() == 0 {
        Seq::empty()
    } else {
        let before = error_lines(outcomes.drop_last());
        match outcomes.last() {
            Ok(_) => before,
            Err(reason) => before.push(plain_line(reason)),
        }
    }
}

/// The line that says what the dependencies were needed for, unless it was to run the project.
pub open spec fn type_lines(asked: SpecType) -> Seq<LineView> {
    match asked {
        SpecType::Build => seq![plain_line("Removed these as build dependencies."@)],
        SpecType::Host => seq![plain_line("Removed these as host dependencies."@)],
        SpecType::Run => Seq::empty(),
    }
}

/// The line that names the platform for which alone the dependencies were removed.
pub open spec fn platform_lines(platform: Option<Seq<char>>) -> Seq<LineView> {
    match platform {
        Some(platform) => seq![
            LineView { text: "Removed these only for platform: "@, bold: Some(platform) },
        ],
        None => Seq::empty(),
    }
}

/// What the user is told: what was removed, as what, for which platform, and what failed.
pub open spec fn reported(
    asked: SpecType,
    platform: Option<Seq<char>>,
    outcomes: Seq<OutcomeView>,
) -> Seq<LineView> {
    removed_lines(outcomes) + type_lines(asked) + platform_lines(platform) + error_lines(outcomes)
}

/// Adds a line without anything in bold.
fn add_line(lines: &mut Vec<Line>, text: String)
    ensures
        final(lines).deep_view() == old(lines).deep_view().push(plain_line(text@)),
{
    let ghost before = lines.deep_view();
    lines.push(Line { text, bold: None });
    assert(lines.deep_view() =~= before.push(plain_line(text@)));
}

/// What the user is told of the removals.
pub fn report(args: &Args, results: &Vec<Outcome>) -> (lines: Vec<Line>)
    ensures
        lines.deep_view() == reported(
            asked_type(args.host, args.build),
            args@.platform,
            outcomes_of(results@),
        ),
{
    let ghost outcomes = outcomes_of(results@);
    let asked = spec_type(args.host, args.build);
    let mut lines: Vec<Line> = Vec::new();
    assert(outcomes.take(0) =~= Seq::<OutcomeView>::empty());
    assert(lines.deep_view() =~= Seq::<LineView>::empty());
    for i in 0..results.len()
        invariant
            outcomes == outcomes_of(results@),
            lines.deep_view() == removed_lines(outcomes.take(i as int)),
    {
        assert(outcomes.take(i + 1).drop_last() =~= outcomes.take(i as int));
        assert(outcomes.take(i + 1).last() == outcome_of(results[i as int]));
        if let Ok((name, spec)) = &results[i] {
            let text = "Removed ".to_string().concat(name.as_str()).concat(" ").concat(
                spec.as_str(),
            );
            add_line(&mut lines, text);
        }
    }
    assert(outcomes.take(results.len() as int) =~= outcomes);
    let ghost removed = lines.deep_view();
    match asked {
        SpecType::Build => add_line(&mut lines, "Removed these as build dependencies.".to_string()),
        SpecType::Host => add_line(&mut lines, "Removed these as host dependencies.".to_string()),
        SpecType::Run => (),
    }
    assert(lines.deep_view() =~= removed + type_lines(asked));
    let ghost typed = lines.deep_view();
    if let Some(platform) = &args.platform {
        let text = "Removed these only for platform: ".to_string();
        lines.push(Line { text, bold: Some(platform.clone()) });
    }
    assert(lines.deep_view() =~= typed + platform_lines(args@.platform));
    let ghost front = lines.deep_view();
    assert(front =~= front + error_lines(outcomes.take(0)));
    for i in 0..results.len()
        invariant
            outcomes == outcomes_of(results@),
            lines.deep_view() == front + error_lines(outcomes.take(i as int)),
    {
        assert(outcomes.take(i + 1).drop_last() =~= outcomes.take(i as int));
        assert(outcomes.take(i + 1).last() == outcome_of(results[i as int]));
        if let Err(reason) = &results[i] {
            add_line(&mut lines, reason.clone());
        }
        assert(lines.deep_view() =~= front + error_lines(outcomes.take(i + 1)));
    }
    lines
}

/// Each dependency that was named is removed once, in its place, and nothing else is removed.
pub proof fn law_one_removal_each(args: ArgsView)
    ensures
        planned_removals(args).len() == args.deps.len(),
        forall|i: int|
            0 <= i < args.deps.len() ==> (#[trigger] planned_removals(args)[i]).name == args.deps[i]
                && planned_removals(args)[i].spec_type == asked_type(args.host, args.build)
                && planned_removals(args)[i].platform == args.platform,
{
}

/// Every removal gets exactly one line of its own, among those for the packages that were removed
/// if it succeeded and among the errors if it failed, behind as many lines as removals before it
/// came out alike.
pub proof fn law_every_removal_is_reported(outcomes: Seq<OutcomeView>, i: int)
    requires
        0 <= i < outcomes.len(),
    ensures
        removed_lines(outcomes).len() + error_lines(outcomes).len() == outcomes.len(),
        match outcomes[i] {
            Ok((name, spec)) => {
                let at = removed_lines(outcomes.take(i)).len() as int;
                at < removed_lines(outcomes).len() && removed_lines(outcomes)[at] == removed_line(
                    name,
                    spec,
                )
            },
            Err(reason) => {
                let at = error_lines(outcomes.take(i)).len() as int;
                at < error_lines(outcomes).len() && error_lines(outcomes)[at] == plain_line(reason)
            },
        },
    decreases outcomes.len(),
{
    lemma_line_count(outcomes);
    let front = outcomes.drop_last();
    if i < front.len() {
        law_every_removal_is_reported(front, i);
        assert(front.take(i) =~= outcomes.take(i));
    } else {
        assert(outcomes.take(i) =~= front);
    }
}

/// There are as many lines as removals.
proof fn lemma_line_count(outcomes: Seq<OutcomeView>)
    ensures
        removed_lines(outcomes).len() + error_lines(outcomes).len() == outcomes.len(),
    decreases outcomes.len(),
{
    if outcomes.len() > 0 {
        lemma_line_count(outcomes.drop_last());
    }
}

/// Errors come last: behind them nothing else is said.
pub proof fn law_errors_come_last(
    asked: SpecType,
    platform: Option<Seq<char>>,
    outcomes: Seq<OutcomeView>,
)
    ensures
        error_lines(outcomes).is_suffix_of(reported(asked, platform, outcomes)),
        removed_lines(outcomes).is_prefix_of(reported(asked, platform, outcomes)),
{
    let all = reported(asked, platform, outcomes);
    let errors = error_lines(outcomes);
    assert(all.subrange(all.len() - errors.len(), all.len() as int) =~= errors);
    assert(all.subrange(0, removed_lines(outcomes).len() as int) =~= removed_lines(outcomes));
}

/// What the dependencies are needed for: for the host whenever that was asked for, whether or not
/// the build was asked for too; for the build where only that was asked for; else to run.
pub proof fn law_host_goes_first(args: ArgsView)
    ensures
        args.host ==> forall|i: int|
            0 <= i < args.deps.len() ==> (#[trigger] planned_removals(args)[i]).spec_type
                == SpecType::Host,
        !args.host && args.build ==> forall|i: int|
            0 <= i < args.deps.len() ==> (#[trigger] planned_removals(args)[i]).spec_type
                == SpecType::Build,
        !args.host && !args.build ==> forall|i: int|
            0 <= i < args.deps.len() ==> (#[trigger] planned_removals(args)[i]).spec_type
                == SpecType::Run,
        args.host <==> asked_type(args.host, args.build) == SpecType::Host,
        args.build && !args.host <==> asked_type(args.host, args.build) == SpecType::Build,
{
}

/// How many removals succeeded.
pub open spec fn successes(outcomes: Seq<OutcomeView>) -> nat
    decreases outcomes.len(),
{
    if outcomes.len() == 0 {
        0
    } else {
        successes(outcomes.drop_last()) + if outcomes.last() is Ok {
            1nat
        } else {
            0
        }
    }
}

/// There are as many lines for packages that were removed as removals that succeeded.
proof fn lemma_successes(outcomes: Seq<OutcomeView>)
    ensures
        removed_lines(outcomes).len() == successes(outcomes),
        successes(outcomes) + error_lines(outcomes).len() == outcomes.len(),
    decreases outcomes.len(),
{
    if outcomes.len() > 0 {
        lemma_successes(outcomes.drop_last());
    }
}

/// Fewer removals have fewer successes and fewer failures.
proof fn lemma_successes_before(outcomes: Seq<OutcomeView>, i: int)
    requires
        0 <= i < outcomes.len(),
    ensures
        successes(outcomes.take(i)) <= i,
        successes(outcomes.take(i)) + if outcomes[i] is Ok {
            1int
        } else {
            0
        } <= successes(outcomes),
        i - successes(outcomes.take(i)) + if outcomes[i] is Ok {
            0int
        } else {
            1
        } <= outcomes.len() - successes(outcomes),
    decreases outcomes.len(),
{
    let front = outcomes.drop_last();
    if i < front.len() {
        lemma_successes_before(front, i);
        assert(front.take(i) =~= outcomes.take(i));
    } else {
        assert(outcomes.take(i) =~= front);
        lemma_successes(front);
    }
}

/// The report holds one line for each removal, one more unless the dependencies were needed to
/// run the project, and one more if and only if a platform was asked for.
///
/// In front stand the packages that were removed, each by its name and its versions, in order.
/// Then comes what they were needed for, then the platform, whatever the dependencies were needed
/// for: it stands in bold, and nothing else does. Behind stand the words of the errors, in order.
pub proof fn law_report_is_complete(
    args: ArgsView,
    lines: Seq<LineView>,
    outcomes: Seq<OutcomeView>,
)
    requires
        lines == reported(asked_type(args.host, args.build), args.platform, outcomes),
    ensures
        ({
            let removed = successes(outcomes) as int;
            let typed = removed + if args.host || args.build {
                1int
            } else {
                0
            };
            let front = typed + if args.platform is Some {
                1int
            } else {
                0
            };
            &&& lines.len() == front + (outcomes.len() - removed)
            &&& forall|i: int|
                0 <= i < outcomes.len() ==> match #[trigger] outcomes[i] {
                    Ok((name, spec)) => {
                        let at = successes(outcomes.take(i)) as int;
                        &&& at < removed
                        &&& lines[at].text == "Removed "@ + name + " "@ + spec
                    },
                    Err(reason) => {
                        let at = front + (i - successes(outcomes.take(i)));
                        &&& front <= at < lines.len()
                        &&& lines[at].text == reason
                    },
                }
            &&& args.host ==> lines[removed].text == "Removed these as host dependencies."@
            &&& args.build && !args.host ==> lines[removed].text
                == "Removed these as build dependencies."@
            &&& match args.platform {
                Some(platform) => {
                    &&& lines[typed].text == "Removed these only for platform: "@
                    &&& lines[typed].bold == Some(platform)
                    &&& forall|k: int|
                        0 <= k < lines.len() && k != typed ==> (#[trigger] lines[k]).bold is None
                },
                None => forall|k: int|
                    0 <= k < lines.len() ==> (#[trigger] lines[k]).bold is None,
            }
        }),
{
    let asked = asked_type(args.host, args.build);
    let removed = removed_lines(outcomes);
    let errors = error_lines(outcomes);
    lemma_successes(outcomes);
    lemma_plain_lines(outcomes);
    let typed = (removed + type_lines(asked)).len() as int;
    let front = (removed + type_lines(asked) + platform_lines(args.platform)).len() as int;
    assert forall|i: int| 0 <= i < outcomes.len() implies match #[trigger] outcomes[i] {
        Ok((name, spec)) => {
            let at = successes(outcomes.take(i)) as int;
            &&& at < removed.len()
            &&& lines[at].text == "Removed "@ + name + " "@ + spec
        },
        Err(reason) => {
            let at = front + (i - successes(outcomes.take(i)));
            &&& front <= at < lines.len()
            &&& lines[at].text == reason
        },
    } by {
        law_every_removal_is_reported(outcomes, i);
        lemma_successes(outcomes.take(i));
        lemma_successes_before(outcomes, i);
    }
    assert forall|k: int| 0 <= k < lines.len() && lines[k].bold is Some implies args.platform
        is Some && k == typed by {
        if k < removed.len() {
            assert(lines[k] == removed[k]);
        } else if k >= front {
            assert(lines[k] == errors[k - front]);
        }
    }
}

/// Nothing stands in bold in the line of a removal.
proof fn lemma_plain_lines(outcomes: Seq<OutcomeView>)
    ensures
        forall|k: int|
            0 <= k < removed_lines(outcomes).len() ==> (#[trigger] removed_lines(outcomes)[k]).bold
                is None,
        forall|k: int|
            0 <= k < error_lines(outcomes).len() ==> (#[trigger] error_lines(outcomes)[k]).bold
                is None,
    decreases outcomes.len(),
{
    if outcomes.len() > 0 {
        lemma_plain_lines(outcomes.drop_last());
    }
}

} // verus!
