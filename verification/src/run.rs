//! Runs that set up a project, taken as a whole, and what holds of every one of them.
use crate::env_file::CondaEnvFileView;
use crate::init::{
    first_step, giving_up, planned, planned_manifest, starts_with, steps_to, update_warning,
    writing, ActionView, ArgsView, DirErrorKind, DirLookup, DirectoryView, InitErrorView,
    ReplyView, SetupView, StateView, StepView,
};
use crate::manifest::{is_build_platform, manifest_text, platforms_or, ManifestView};
use crate::plan::{empty_plan, imports_as, law_import_has_channels, ImportOutcome, PlanView};
use crate::text::{contains_text, occurs_at};
use crate::update::{held, law_git_files, law_missing_lines_are_added, GitFile};
use vstd::prelude::*;

verus! {

/// A reply, and the step that followed on it.
pub struct Exchange {
    pub reply: ReplyView,
    pub step: StepView,
}

/// A run: the first step, and what was exchanged after it.
pub struct Run {
    pub first: StepView,
    pub exchanges: Seq<Exchange>,
}

impl Run {
    /// The step after so many replies.
    pub open spec fn step_at(self, n: int) -> StepView {
        if n == 0 {
            self.first
        } else {
            self.exchanges[n - 1].step
        }
    }

    /// The state after so many replies.
    pub open spec fn state_at(self, n: int) -> StateView {
        self.step_at(n).state
    }

    /// What is to be done after so many replies.
    pub open spec fn action_at(self, n: int) -> ActionView {
        self.step_at(n).action
    }

    /// The reply to what was to be done after so many replies.
    pub open spec fn reply_at(self, n: int) -> ReplyView {
        self.exchanges[n].reply
    }

    /// Whether the run is one that starts with these arguments and goes on step by step.
    pub open spec fn is_for(self, args: ArgsView) -> bool {
        &&& starts_with(args, self.first)
        &&& forall|n: int|
            0 <= n < self.exchanges.len() ==> steps_to(
                self.state_at(n),
                #[trigger] self.reply_at(n),
                self.step_at(n + 1),
            )
    }
}

/// Whether an action writes the manifest.
pub open spec fn writes_manifest(action: ActionView) -> bool {
    action is WriteManifest || action is BuildProject
}

/// Whether an action reads or adds to a file for Git.
pub open spec fn touches_git_file(action: ActionView) -> bool {
    action is ReadFile || action is AppendToFile
}

/// How many replies a run can take at most before it is over.
pub open spec fn left(state: StateView) -> int {
    match state {
        StateView::Locating(_, _) => 10,
        StateView::Probing(_, _) => 9,
        StateView::Creating(_, _) => 8,
        StateView::Importing(_, _) => 7,
        StateView::Signing(_, _, _) => 6,
        StateView::Writing(_) => 5,
        StateView::Reading(_, GitFile::Ignore) => 4,
        StateView::Appending(_, GitFile::Ignore) => 3,
        StateView::Reading(_, GitFile::Attributes) => 2,
        StateView::Appending(_, GitFile::Attributes) => 1,
        StateView::Finished => 0,
    }
}

/// Whatever the reply, a run that is not over comes closer to its end.
pub proof fn law_progress(state: StateView, reply: ReplyView, step: StepView)
    requires
        steps_to(state, reply, step),
    ensures
        state !is Finished ==> 0 <= left(step.state) < left(state),
        state is Finished ==> step == giving_up(InitErrorView::Unexpected),
{
}

/// A run is over after ten replies, whatever they are.
pub proof fn law_run_ends(args: ArgsView, run: Run, n: int)
    requires
        run.is_for(args),
        0 <= n <= run.exchanges.len(),
    ensures
        left(run.state_at(n)) <= if n < 10 {
            10 - n
        } else {
            0
        },
        n >= 10 ==> run.state_at(n) is Finished,
    decreases n,
{
    if n > 0 {
        law_run_ends(args, run, n - 1);
        let reply = run.reply_at(n - 1);
        law_progress(run.state_at(n - 1), reply, run.step_at(n));
    }
}

/// A run that is over asks for nothing more.
pub proof fn law_nothing_after_the_end(args: ArgsView, run: Run, end: int, n: int)
    requires
        run.is_for(args),
        0 <= end < n <= run.exchanges.len(),
        run.state_at(end) is Finished,
    ensures
        run.step_at(n) == giving_up(InitErrorView::Unexpected),
    decreases n,
{
    if n > end + 1 {
        law_nothing_after_the_end(args, run, end, n - 1);
    }
    let reply = run.reply_at(n - 1);
    law_progress(run.state_at(n - 1), reply, run.step_at(n));
}

/// What a run has behind it, by how far it has come: past the search for a manifest, none was
/// found; past the writing of the manifest, it was written.
spec fn behind(run: Run, n: int) -> bool {
    let left = left(run.state_at(n));
    &&& 0 < left <= 8 ==> {
        &&& exists|i: int|
            0 <= i < n && run.action_at(i) is ProbeManifest && #[trigger] run.reply_at(i)
                == ReplyView::Probed(false)
        &&& forall|i: int| 0 <= i < n ==> #[trigger] run.reply_at(i) != ReplyView::Probed(true)
    }
    &&& 8 < left ==> forall|i: int| 0 <= i < n ==> #[trigger] run.reply_at(i) !is Probed
    &&& 0 < left <= 4 || run.action_at(n) is Finish ==> exists|i: int|
        0 <= i < n && writes_manifest(run.action_at(i)) && #[trigger] run.reply_at(i)
            == ReplyView::Done
    &&& left == 9 ==> run.action_at(n) is ProbeManifest
    &&& left == 5 <==> writes_manifest(run.action_at(n))
    &&& touches_git_file(run.action_at(n)) ==> 0 < left <= 4
}

proof fn lemma_behind(args: ArgsView, run: Run, n: int)
    requires
        run.is_for(args),
        0 <= n <= run.exchanges.len(),
    ensures
        behind(run, n),
    decreases n,
{
    if n > 0 {
        lemma_behind(args, run, n - 1);
        let reply = run.reply_at(n - 1);
        let state = run.state_at(n - 1);
        assert(steps_to(state, reply, run.step_at(n)));
    }
}

/// A manifest is never overwritten: what writes one comes after it was looked for one and none
/// was found.
pub proof fn law_manifest_is_not_overwritten(args: ArgsView, run: Run, n: int)
    requires
        run.is_for(args),
        0 <= n <= run.exchanges.len(),
        writes_manifest(run.action_at(n)),
    ensures
        exists|i: int|
            0 <= i < n && run.action_at(i) is ProbeManifest && #[trigger] run.reply_at(i)
                == ReplyView::Probed(false),
        forall|i: int| 0 <= i < n ==> #[trigger] run.reply_at(i) != ReplyView::Probed(true),
{
    lemma_behind(args, run, n);
}

/// Where a manifest is found, the run fails over it and changes nothing: no directory is created,
/// and no file is written or added to.
pub proof fn law_found_manifest_ends_run(args: ArgsView, run: Run, at: int, n: int)
    requires
        run.is_for(args),
        0 <= at < n <= run.exchanges.len(),
        run.action_at(at) is ProbeManifest,
        run.reply_at(at) == ReplyView::Probed(true),
    ensures
        run.step_at(at + 1) == giving_up(InitErrorView::ManifestExists),
        run.action_at(n) is Fail,
        forall|i: int|
            0 <= i <= at ==> (#[trigger] run.action_at(i)) is Locate || run.action_at(
                i,
            ) is ProbeManifest,
{
    lemma_early(args, run, at);
    assert(steps_to(run.state_at(at), run.reply_at(at), run.step_at(at + 1)));
    if n > at + 1 {
        law_nothing_after_the_end(args, run, at + 1, n);
    }
}

/// The search for a manifest is the second thing that is done, and only a lookup comes before it.
proof fn lemma_early(args: ArgsView, run: Run, n: int)
    requires
        run.is_for(args),
        0 <= n <= run.exchanges.len(),
    ensures
        run.action_at(n) is ProbeManifest <==> run.state_at(n) is Probing,
        run.action_at(n) is Locate <==> run.state_at(n) is Locating,
        run.state_at(n) is Probing ==> forall|i: int|
            0 <= i < n ==> (#[trigger] run.action_at(i)) is Locate,
        run.state_at(n) is Locating ==> n == 0,
    decreases n,
{
    if n > 0 {
        lemma_early(args, run, n - 1);
        let reply = run.reply_at(n - 1);
        assert(steps_to(run.state_at(n - 1), reply, run.step_at(n)));
    }
}

/// The files for Git are left alone until the manifest is written.
pub proof fn law_git_files_come_last(args: ArgsView, run: Run, n: int)
    requires
        run.is_for(args),
        0 <= n <= run.exchanges.len(),
        touches_git_file(run.action_at(n)),
    ensures
        exists|i: int|
            0 <= i < n && writes_manifest(run.action_at(i)) && #[trigger] run.reply_at(i)
                == ReplyView::Done,
{
    lemma_behind(args, run, n);
}

/// A run that says it succeeded has written the manifest.
pub proof fn law_success_means_written(args: ArgsView, run: Run, n: int)
    requires
        run.is_for(args),
        0 <= n <= run.exchanges.len(),
        run.action_at(n) is Finish,
    ensures
        exists|i: int|
            0 <= i < n && writes_manifest(run.action_at(i)) && #[trigger] run.reply_at(i)
                == ReplyView::Done,
{
    lemma_behind(args, run, n);
}

/// A file for Git that cannot be added to does not stop the run: the user is warned, and all else
/// is as if it had been added to.
pub proof fn law_failed_update_only_warns(
    dir: DirectoryView,
    file: GitFile,
    path: Seq<char>,
    reason: Seq<char>,
    step: StepView,
    done: StepView,
)
    requires
        steps_to(
            StateView::Appending(dir, file),
            ReplyView::NotAppended(path, reason),
            step,
        ),
        steps_to(StateView::Appending(dir, file), ReplyView::Done, done),
    ensures
        step.state == done.state,
        step.action == done.action,
        step.action !is Fail,
        step.warning == Some(update_warning(path, reason)),
        done.warning is None,
{
}

/// Nothing but a failed update is warned of.
pub proof fn law_no_other_warning(state: StateView, reply: ReplyView, step: StepView)
    requires
        steps_to(state, reply, step),
        step.warning is Some,
    ensures
        state is Appending,
        reply is NotAppended,
{
}

/// The replies of a run in a directory that is found, without a manifest in it.
pub open spec fn opens_with(run: Run, dir: DirectoryView) -> bool {
    &&& run.exchanges.len() >= 3
    &&& run.reply_at(0) == ReplyView::Located(dir)
    &&& run.reply_at(1) == ReplyView::Probed(false)
    &&& run.reply_at(2) == ReplyView::Attempted
}

/// Without an environment file, the project takes the name of its directory, the channels and the
/// platforms that were asked for, or else the default ones, and has no dependencies.
pub proof fn law_new_project(
    args: ArgsView,
    run: Run,
    dir: DirectoryView,
    name: Seq<char>,
    author: Option<(Seq<char>, Seq<char>)>,
)
    requires
        run.is_for(args),
        args.env_file is None,
        opens_with(run, dir),
        dir.file_name == Some(name),
        run.exchanges.len() >= 4,
        run.reply_at(3) == ReplyView::Author(author),
    ensures
        exists|current: Seq<char>| #[trigger]
            is_build_platform(current) && run.action_at(4) == ActionView::WriteManifest(
                manifest_text(
                    planned_manifest(
                        empty_plan(name, args.channels),
                        author,
                        platforms_or(args.platforms, current),
                    ),
                ),
            ),
{
    let current = choose|current: Seq<char>| #[trigger]
        is_build_platform(current) && run.first == first_step(
            args,
            platforms_or(args.platforms, current),
        );
    assert(steps_to(run.state_at(0), run.reply_at(0), run.step_at(1)));
    assert(steps_to(run.state_at(1), run.reply_at(1), run.step_at(2)));
    assert(steps_to(run.state_at(2), run.reply_at(2), run.step_at(3)));
    assert(steps_to(run.state_at(3), run.reply_at(3), run.step_at(4)));
    assert(is_build_platform(current));
}

/// With an environment file, the project takes its name, its channels and its dependencies from
/// the file, or the run fails over the file; the channels that were asked for play no part.
pub proof fn law_imported_project(
    args: ArgsView,
    run: Run,
    dir: DirectoryView,
    file: CondaEnvFileView,
    author: Option<(Seq<char>, Seq<char>)>,
)
    requires
        run.is_for(args),
        args.env_file is Some,
        opens_with(run, dir),
        run.exchanges.len() >= 5,
        run.reply_at(3) == ReplyView::Imported(file),
        run.reply_at(4) == ReplyView::Author(author),
    ensures
        exists|current: Seq<char>, outcome: ImportOutcome| #[trigger]
            is_build_platform(current) && #[trigger] imports_as(file, outcome) && match outcome {
                Ok(plan) => run.action_at(5) == writing(
                    plan,
                    manifest_text(
                        planned_manifest(plan, author, platforms_or(args.platforms, current)),
                    ),
                ),
                Err(error) => run.action_at(4) == ActionView::Fail(InitErrorView::Import(error)),
            },
{
    let current = choose|current: Seq<char>| #[trigger]
        is_build_platform(current) && run.first == first_step(
            args,
            platforms_or(args.platforms, current),
        );
    assert(steps_to(run.state_at(0), run.reply_at(0), run.step_at(1)));
    assert(steps_to(run.state_at(1), run.reply_at(1), run.step_at(2)));
    assert(steps_to(run.state_at(2), run.reply_at(2), run.step_at(3)));
    assert(steps_to(run.state_at(3), run.reply_at(3), run.step_at(4)));
    assert(steps_to(run.state_at(4), run.reply_at(4), run.step_at(5)));
    let platforms = platforms_or(args.platforms, current);
    let outcome = choose|outcome: ImportOutcome| #[trigger]
        imports_as(file, outcome) && run.step_at(4) == planned(dir, platforms, outcome);
    assert(is_build_platform(current) && imports_as(file, outcome));
}

/// What the files of a project hold; nothing where there is no such file.
pub struct Files {
    pub manifest: Option<Seq<char>>,
    pub ignore: Option<Seq<char>>,
    pub attributes: Option<Seq<char>>,
}

impl Files {
    /// What a file for Git holds.
    pub open spec fn git_file(self, file: GitFile) -> Option<Seq<char>> {
        match file {
            GitFile::Ignore => self.ignore,
            GitFile::Attributes => self.attributes,
        }
    }

    /// With other content in a file for Git.
    pub open spec fn with_git_file(self, file: GitFile, content: Option<Seq<char>>) -> Files {
        match file {
            GitFile::Ignore => Files { ignore: content, ..self },
            GitFile::Attributes => Files { attributes: content, ..self },
        }
    }

    /// With another manifest.
    pub open spec fn with_manifest(self, manifest: Option<Seq<char>>) -> Files {
        Files { manifest, ..self }
    }
}

/// Whether a reply is what doing an action in a directory comes to, and what becomes of the files
/// in it. What failed may have left a file in any state. Once a run is over nothing is done.
pub open spec fn comes_to(
    action: ActionView,
    reply: ReplyView,
    before: Files,
    after: Files,
) -> bool {
    match action {
        ActionView::Locate(_) => (reply is Located || reply is NotLocated) && after == before,
        ActionView::ProbeManifest => reply == ReplyView::Probed(before.manifest is Some) && after
            == before,
        ActionView::CreateDirectory => reply is Attempted && after == before,
        ActionView::ReadEnvFile => (reply is Imported || reply is Failed) && after == before,
        ActionView::FindAuthor => reply is Author && after == before,
        ActionView::WriteManifest(text) => {
            ||| reply is Done && after == before.with_manifest(Some(text))
            ||| reply is Failed && after == before.with_manifest(after.manifest)
        },
        ActionView::BuildProject(_, _, _) => {
            &&& after == before.with_manifest(after.manifest)
            &&& reply is Done && after.manifest is Some || reply is Failed
        },
        ActionView::ReadFile(file) => after == before && (reply == ReplyView::Content(
            before.git_file(file),
        ) || reply == ReplyView::Content(None)),
        ActionView::AppendToFile(file, text) => {
            ||| reply is Done && after == before.with_git_file(
                file,
                Some(held(before.git_file(file)) + text),
            )
            ||| reply is NotAppended && after == before.with_git_file(file, after.git_file(file))
        },
        ActionView::Finish(_) => false,
        ActionView::Fail(_) => false,
    }
}

/// Whether a run took place in a directory whose files went through these states, one before each
/// reply and one at the end.
pub open spec fn takes_place(run: Run, files: Seq<Files>) -> bool {
    &&& files.len() == run.exchanges.len() + 1
    &&& forall|n: int|
        0 <= n < run.exchanges.len() ==> comes_to(
            run.action_at(n),
            #[trigger] run.reply_at(n),
            files[n],
            files[n + 1],
        )
}

/// Once the manifest is written it stays.
proof fn lemma_manifest_stays(args: ArgsView, run: Run, files: Seq<Files>, at: int, n: int)
    requires
        run.is_for(args),
        takes_place(run, files),
        0 <= at < n <= run.exchanges.len(),
        writes_manifest(run.action_at(at)),
        run.reply_at(at) == ReplyView::Done,
    ensures
        files[n].manifest is Some,
        left(run.state_at(n)) <= 4,
    decreases n,
{
    let reply = run.reply_at(n - 1);
    assert(steps_to(run.state_at(n - 1), reply, run.step_at(n)));
    assert(comes_to(run.action_at(n - 1), reply, files[n - 1], files[n]));
    lemma_behind(args, run, n - 1);
    if n > at + 1 {
        lemma_manifest_stays(args, run, files, at, n - 1);
        law_progress(run.state_at(n - 1), reply, run.step_at(n));
    }
}

/// A project is never set up twice in one directory. After a run that succeeded, a run in the same
/// directory, whatever its arguments, does not touch a file in it and does not succeed: as soon as
/// it has found the directory it fails over the manifest.
pub proof fn law_second_run_fails(
    args: ArgsView,
    run: Run,
    files: Seq<Files>,
    other_args: ArgsView,
    other: Run,
    other_files: Seq<Files>,
)
    requires
        run.is_for(args),
        takes_place(run, files),
        run.action_at(run.exchanges.len() as int) is Finish,
        other.is_for(other_args),
        takes_place(other, other_files),
        other_files[0] == files.last(),
    ensures
        other.exchanges.len() <= 2,
        forall|n: int|
            0 <= n <= other.exchanges.len() ==> #[trigger] other_files[n] == files.last(),
        forall|n: int|
            0 <= n <= other.exchanges.len() ==> (#[trigger] other.action_at(n)) is Locate
                || other.action_at(n) is ProbeManifest || other.action_at(n) is Fail,
        other.exchanges.len() > 0 && other.reply_at(0) is Located ==> other.action_at(1)
            is ProbeManifest,
        other.exchanges.len() == 2 ==> other.step_at(2) == giving_up(InitErrorView::ManifestExists),
{
    let end = run.exchanges.len() as int;
    law_success_means_written(args, run, end);
    let at = choose|i: int|
        0 <= i < end && writes_manifest(run.action_at(i)) && #[trigger] run.reply_at(i)
            == ReplyView::Done;
    lemma_manifest_stays(args, run, files, at, end);
    assert(files.last().manifest is Some);
    let n = other.exchanges.len();
    if n > 0 {
        assert(steps_to(other.state_at(0), other.reply_at(0), other.step_at(1)));
        assert(comes_to(other.action_at(0), other.reply_at(0), other_files[0], other_files[1]));
    }
    if n > 1 {
        assert(steps_to(other.state_at(1), other.reply_at(1), other.step_at(2)));
        assert(comes_to(other.action_at(1), other.reply_at(1), other_files[1], other_files[2]));
    }
    if n > 2 {
        assert(comes_to(other.action_at(2), other.reply_at(2), other_files[2], other_files[3]));
    }
}

/// Whether these are the platforms that were asked for, or else one that programs are built for.
spec fn platforms_asked(args: ArgsView, platforms: Seq<Seq<char>>) -> bool {
    if args.platforms.len() > 0 {
        platforms == args.platforms
    } else {
        platforms.len() == 1 && is_build_platform(platforms[0])
    }
}

/// Whether this is what is left of the arguments once the directory is being looked up.
spec fn setup_asked(args: ArgsView, setup: SetupView) -> bool {
    &&& setup.channels == args.channels
    &&& setup.import == (args.env_file is Some)
    &&& platforms_asked(args, setup.platforms)
}

/// What a state holds, and what is to be done in it, by what was asked for and what was replied.
spec fn holds(args: ArgsView, run: Run, n: int) -> bool {
    let action = run.action_at(n);
    let found = run.reply_at(0);
    match run.state_at(n) {
        StateView::Locating(path, setup) => {
            &&& n == 0 && path == args.path && setup_asked(args, setup)
            &&& action is Locate
        },
        StateView::Probing(dir, setup) => {
            &&& n == 1 && found == ReplyView::Located(dir) && setup_asked(args, setup)
            &&& action is ProbeManifest
        },
        StateView::Creating(dir, setup) => {
            &&& n == 2 && found == ReplyView::Located(dir) && setup_asked(args, setup)
            &&& action is CreateDirectory
        },
        StateView::Importing(dir, platforms) => {
            &&& n == 3 && found == ReplyView::Located(dir) && platforms_asked(args, platforms)
            &&& args.env_file is Some
            &&& action is ReadEnvFile
        },
        StateView::Signing(dir, plan, platforms) => {
            &&& found == ReplyView::Located(dir) && platforms_asked(args, platforms)
            &&& match args.env_file {
                None => {
                    &&& n == 3 && dir.file_name == Some(plan.name)
                    &&& plan == empty_plan(plan.name, args.channels)
                },
                Some(_) => {
                    &&& n == 4 && run.reply_at(3) is Imported
                    &&& imports_as(run.reply_at(3)->Imported_0, Ok(plan))
                },
            }
            &&& action is FindAuthor
        },
        StateView::Writing(dir) => {
            &&& n > 0 && found == ReplyView::Located(dir)
            &&& run.state_at(n - 1) is Signing && run.reply_at(n - 1) is Author
            &&& writes_manifest(action)
        },
        StateView::Reading(dir, file) => {
            &&& n > 0 && found == ReplyView::Located(dir)
            &&& action == ActionView::ReadFile(file)
        },
        StateView::Appending(dir, file) => {
            &&& n > 0 && found == ReplyView::Located(dir)
            &&& action == ActionView::AppendToFile(file, file.lines())
        },
        StateView::Finished => {
            &&& n > 0
            &&& action is Fail || action is Finish
        },
    }
}

proof fn lemma_holds(args: ArgsView, run: Run, n: int)
    requires
        run.is_for(args),
        0 <= n <= run.exchanges.len(),
    ensures
        holds(args, run, n),
    decreases n,
{
    if n > 0 {
        lemma_holds(args, run, n - 1);
        let reply = run.reply_at(n - 1);
        assert(steps_to(run.state_at(n - 1), reply, run.step_at(n)));
    }
}

/// What is to be done next, by what was done and what came of it.
///
/// The directory is found, a manifest is looked for in it, and the directory is created. The
/// environment file is read if and only if one was asked for; without one the directory has to
/// have a name. Then the author is looked up and the manifest is written, then `.gitignore` and
/// then `.gitattributes` are read, and each that does not hold its lines gets exactly these lines
/// appended. A run that comes to its end says so, by the directory that was found. A reply that
/// answers nothing, and whatever cannot be done, ends the run.
pub proof fn law_dialogue(args: ArgsView, run: Run, n: int)
    requires
        run.is_for(args),
        0 <= n < run.exchanges.len(),
    ensures
        run.action_at(0) == ActionView::Locate(
            if args.components == 1 {
                DirLookup::JoinCurrentDir
            } else {
                DirLookup::Canonicalize
            },
        ),
        ({
            let dir = run.reply_at(0)->Located_0;
            let next = run.action_at(n + 1);
            let after_file = |file: GitFile|
                match file {
                    GitFile::Ignore => ActionView::ReadFile(GitFile::Attributes),
                    GitFile::Attributes => ActionView::Finish(
                        "Initialized project in "@ + dir.shown,
                    ),
                };
            match (run.action_at(n), run.reply_at(n)) {
                (ActionView::Locate(_), ReplyView::Located(_)) => next is ProbeManifest,
                (ActionView::Locate(_), ReplyView::NotLocated(true)) => next == ActionView::Fail(
                    InitErrorView::Directory(DirErrorKind::NotFound, args.path),
                ),
                (ActionView::Locate(_), ReplyView::NotLocated(false)) => next == ActionView::Fail(
                    InitErrorView::Directory(DirErrorKind::InvalidInput, args.path),
                ),
                (ActionView::ProbeManifest, ReplyView::Probed(true)) => next == ActionView::Fail(
                    InitErrorView::ManifestExists,
                ),
                (ActionView::ProbeManifest, ReplyView::Probed(false)) => next is CreateDirectory,
                (ActionView::CreateDirectory, ReplyView::Attempted) => {
                    &&& args.env_file is Some ==> next is ReadEnvFile
                    &&& args.env_file is None && dir.file_name is Some ==> next is FindAuthor
                    &&& args.env_file is None && dir.file_name is None ==> next
                        == ActionView::Fail(InitErrorView::NoName(dir.shown))
                },
                (ActionView::ReadEnvFile, ReplyView::Imported(file)) => {
                    ||| next is FindAuthor
                    ||| next is Fail && next->Fail_0 is Import && imports_as(
                        file,
                        Err(next->Fail_0->Import_0),
                    )
                },
                (ActionView::ReadEnvFile, ReplyView::Failed) => next == ActionView::Fail(
                    InitErrorView::Outside,
                ),
                (ActionView::FindAuthor, ReplyView::Author(_)) => writes_manifest(next),
                (ActionView::WriteManifest(_), ReplyView::Done) => next == ActionView::ReadFile(
                    GitFile::Ignore,
                ),
                (ActionView::BuildProject(_, _, _), ReplyView::Done) => next
                    == ActionView::ReadFile(GitFile::Ignore),
                (ActionView::WriteManifest(_), ReplyView::Failed) => next == ActionView::Fail(
                    InitErrorView::Outside,
                ),
                (ActionView::BuildProject(_, _, _), ReplyView::Failed) => next
                    == ActionView::Fail(InitErrorView::Outside),
                (ActionView::ReadFile(file), ReplyView::Content(Some(text))) => {
                    &&& (exists|at: int| occurs_at(text, file.lines(), at)) ==> next == after_file(
                        file,
                    )
                    &&& (forall|at: int| !occurs_at(text, file.lines(), at)) ==> next
                        == ActionView::AppendToFile(file, file.lines())
                },
                (ActionView::ReadFile(file), ReplyView::Content(None)) => next
                    == ActionView::AppendToFile(file, file.lines()),
                (ActionView::AppendToFile(file, _), ReplyView::Done) => next == after_file(file),
                (ActionView::AppendToFile(file, _), ReplyView::NotAppended(_, _)) => next
                    == after_file(file),
                _ => next == ActionView::Fail(InitErrorView::Unexpected),
            }
        }),
{
    lemma_holds(args, run, 0);
    lemma_holds(args, run, n);
    lemma_holds(args, run, n + 1);
    let state = run.state_at(n);
    let reply = run.reply_at(n);
    assert(steps_to(state, reply, run.step_at(n + 1)));
    if let StateView::Reading(_, file) = state {
        if let ReplyView::Content(content) = reply {
            law_missing_lines_are_added(content, file.lines());
            law_git_files(file);
        }
    }
}

/// The user is warned exactly where a file could not be added to, in words that name the file and
/// the reason.
pub proof fn law_warnings(args: ArgsView, run: Run, n: int)
    requires
        run.is_for(args),
        0 <= n < run.exchanges.len(),
    ensures
        run.first.warning is None,
        run.step_at(n + 1).warning == match (run.action_at(n), run.reply_at(n)) {
            (ActionView::AppendToFile(_, _), ReplyView::NotAppended(path, reason)) => Some(
                "Warning, couldn't update '"@ + path + "' because of: "@ + reason,
            ),
            _ => None,
        },
{
    lemma_holds(args, run, n);
    lemma_holds(args, run, n + 1);
    assert(steps_to(run.state_at(n), run.reply_at(n), run.step_at(n + 1)));
}

/// The manifest that a run writes says what was asked for.
///
/// Its platforms are those that were asked for, all of them and in their order, or else one that
/// programs are built for. Its author is the one that was found, and its version the first.
/// Without an environment file its name is that of the directory, its channels are those that
/// were asked for or else `conda-forge`, and it is written as it is. With one, its name is that of
/// the file, its channels and the dependencies that are added to it are those that the file is
/// imported as, and it is written as it is if and only if there are no dependencies.
pub proof fn law_manifest_as_asked(args: ArgsView, run: Run, n: int) -> (written: (
    ManifestView,
    PlanView,
))
    requires
        run.is_for(args),
        0 <= n <= run.exchanges.len(),
        writes_manifest(run.action_at(n)),
    ensures
        ({
            let (manifest, plan) = written;
            let text = manifest_text(manifest);
            let bare = plan.conda_deps.len() == 0 && plan.pip_deps.len() == 0;
            &&& n > 3
            &&& bare ==> run.action_at(n) == ActionView::WriteManifest(text)
            &&& !bare ==> run.action_at(n) == ActionView::BuildProject(
                text,
                plan.conda_deps,
                plan.pip_deps,
            )
            &&& args.platforms.len() > 0 ==> manifest.platforms == args.platforms
            &&& args.platforms.len() == 0 ==> manifest.platforms.len() == 1 && is_build_platform(
                manifest.platforms[0],
            )
            &&& run.reply_at(n - 1) == ReplyView::Author(manifest.author)
            &&& manifest.version == "0.1.0"@
            &&& manifest.name == plan.name
            &&& manifest.channels == plan.channels
            &&& args.env_file is None ==> {
                &&& n == 4 && bare
                &&& run.reply_at(0) is Located
                &&& run.reply_at(0)->Located_0.file_name == Some(manifest.name)
                &&& args.channels is Some ==> manifest.channels == args.channels->0
                &&& args.channels is None ==> manifest.channels == seq!["conda-forge"@]
            }
            &&& args.env_file is Some ==> {
                &&& n == 5
                &&& run.reply_at(3) is Imported
                &&& run.reply_at(3)->Imported_0.name == manifest.name
                &&& imports_as(run.reply_at(3)->Imported_0, Ok(plan))
            }
        }),
{
    lemma_holds(args, run, n);
    lemma_holds(args, run, n - 1);
    let state = run.state_at(n - 1);
    let reply = run.reply_at(n - 1);
    assert(steps_to(state, reply, run.step_at(n)));
    let plan = state->Signing_1;
    let author = reply->Author_0;
    let platforms = state->Signing_2;
    if args.env_file is Some {
        law_import_has_channels(run.reply_at(3)->Imported_0, plan);
    }
    (planned_manifest(plan, author, platforms), plan)
}

/// What becomes of the files for Git in a run: `done` of them were seen to.
spec fn seen_to(before: Files, now: Files, done: int, read: bool) -> bool {
    &&& if done > 0 {
        has_lines(before.ignore, now.ignore, GitFile::Ignore.lines(), read)
    } else {
        now.ignore == before.ignore
    }
    &&& if done > 1 {
        has_lines(before.attributes, now.attributes, GitFile::Attributes.lines(), read)
    } else {
        now.attributes == before.attributes
    }
}

/// Whether a file got its lines: where it holds them, and was read, it is as it was; where it does
/// not, they are appended.
pub open spec fn has_lines(
    before: Option<Seq<char>>,
    after: Option<Seq<char>>,
    lines: Seq<char>,
    read: bool,
) -> bool {
    match before {
        Some(text) => {
            let there = exists|at: int| occurs_at(text, lines, at);
            &&& !there ==> after == Some(text + lines)
            &&& there && read ==> after == Some(text)
            &&& there && !read ==> after == Some(text) || after == Some(text + lines)
        },
        None => after == Some(lines),
    }
}

/// How many files for Git a run that goes on has seen to.
spec fn files_done(run: Run, n: int) -> int {
    if run.action_at(n) is Finish {
        2
    } else if 0 < left(run.state_at(n)) <= 2 {
        1
    } else {
        0
    }
}

proof fn lemma_seen_to(args: ArgsView, run: Run, files: Seq<Files>, n: int, read: bool)
    requires
        run.is_for(args),
        takes_place(run, files),
        0 <= n <= run.exchanges.len(),
        run.action_at(n) !is Fail,
        forall|i: int| 0 <= i < run.exchanges.len() ==> #[trigger] run.reply_at(i) !is NotAppended,
        read ==> forall|i: int|
            0 <= i < run.exchanges.len() && run.action_at(i) is ReadFile ==> #[trigger] run.reply_at(
                i,
            ) == ReplyView::Content(files[i].git_file(run.action_at(i)->ReadFile_0)),
    ensures
        seen_to(files[0], files[n], files_done(run, n), read),
        run.state_at(n) is Appending && read ==> {
            let before = files[n].git_file(run.state_at(n)->Appending_1);
            before is None || !contains_text(before->0, run.state_at(n)->Appending_1.lines())
        },
    decreases n,
{
    lemma_holds(args, run, n);
    if n > 0 {
        let reply = run.reply_at(n - 1);
        let action = run.action_at(n - 1);
        lemma_holds(args, run, n - 1);
        assert(steps_to(run.state_at(n - 1), reply, run.step_at(n)));
        assert(comes_to(action, reply, files[n - 1], files[n]));
        assert(action !is Fail);
        lemma_seen_to(args, run, files, n - 1, read);
        match action {
            ActionView::ReadFile(file) => {
                if let ReplyView::Content(content) = reply {
                    law_missing_lines_are_added(content, file.lines());
                    law_git_files(file);
                }
            },
            ActionView::AppendToFile(file, lines) => {
                let before = files[n - 1].git_file(file);
                assert(Seq::<char>::empty() + lines =~= lines);
            },
            _ => {},
        }
    }
}

/// In a run that succeeds without a warning, `.gitignore` and `.gitattributes` get their lines.
///
/// Each that held its lines still holds them. Each that did not, or was not there, holds what it
/// held with the lines at the end. Where the files are read as they are, one that held its lines
/// is left as it was.
pub proof fn law_git_files_get_their_lines(
    args: ArgsView,
    run: Run,
    files: Seq<Files>,
    file: GitFile,
    read: bool,
)
    requires
        run.is_for(args),
        takes_place(run, files),
        run.action_at(run.exchanges.len() as int) is Finish,
        forall|i: int|
            0 <= i <= run.exchanges.len() ==> (#[trigger] run.step_at(i)).warning is None,
        read ==> forall|i: int|
            0 <= i < run.exchanges.len() && run.action_at(i) is ReadFile ==> #[trigger] run.reply_at(
                i,
            ) == ReplyView::Content(files[i].git_file(run.action_at(i)->ReadFile_0)),
    ensures
        has_lines(files[0].git_file(file), files.last().git_file(file), file.lines(), read),
        files.last().git_file(file) is Some,
        exists|at: int| occurs_at(files.last().git_file(file)->0, file.lines(), at),
{
    let end = run.exchanges.len() as int;
    assert forall|i: int| 0 <= i < end implies #[trigger] run.reply_at(i) !is NotAppended by {
        law_warnings(args, run, i);
        law_dialogue(args, run, i);
        assert(run.step_at(i + 1).warning is None);
        if run.reply_at(i) is NotAppended {
            assert(run.action_at(i + 1) == ActionView::Fail(InitErrorView::Unexpected));
            lemma_holds(args, run, i + 1);
            if i + 1 < end {
                law_nothing_after_the_end(args, run, i + 1, end);
            }
        }
    }
    lemma_seen_to(args, run, files, end, read);
    let before = files[0].git_file(file);
    let lines = file.lines();
    let after = files.last().git_file(file)->0;
    if after == held(before) + lines {
        let at = held(before).len() as int;
        assert(after.subrange(at, at + lines.len()) =~= lines);
        assert(occurs_at(after, lines, at));
    } else {
        assert(Seq::<char>::empty() + lines =~= lines);
    }
}

/// The manifest that a run has written is left as it is for the rest of the run: at its end the
/// file holds the text that was written.
pub proof fn law_written_manifest_stays(
    args: ArgsView,
    run: Run,
    files: Seq<Files>,
    at: int,
    n: int,
)
    requires
        run.is_for(args),
        takes_place(run, files),
        0 <= at < n <= run.exchanges.len(),
        writes_manifest(run.action_at(at)),
        run.reply_at(at) == ReplyView::Done,
    ensures
        files[n].manifest == files[at + 1].manifest,
        run.action_at(at) is WriteManifest ==> files[n].manifest == Some(
            run.action_at(at)->WriteManifest_0,
        ),
    decreases n,
{
    let reply = run.reply_at(n - 1);
    assert(comes_to(run.action_at(n - 1), reply, files[n - 1], files[n]));
    if n > at + 1 {
        law_written_manifest_stays(args, run, files, at, n - 1);
        lemma_manifest_stays(args, run, files, at, n - 1);
        lemma_holds(args, run, n - 1);
    }
}

} // verus!
