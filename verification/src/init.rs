//! Setting up a new project, step by step.
//!
//! A run is a dialogue: [`start`] and [`step`] say what to do next, and whoever does it replies
//! with what came of it, until the run has finished or failed.
use crate::env_file::{CondaEnvFile, CondaEnvFileView, DependencyErrorView};
use crate::manifest::{
    is_build_platform, manifest_text, platforms_or, project_platforms, Manifest, ManifestView,
    FIRST_VERSION, PROJECT_MANIFEST,
};
use crate::match_spec::{MatchSpec, MatchSpecErrorView, MatchSpecView};
use crate::plan::{
    empty_plan, import_outcome, imports_as, ImportError, ImportErrorView, ImportOutcome, Plan,
    PlanView,
};
use crate::pypi::{
    PackageName, PackageNameView, PipErrorView, PyPiRequirement, PyPiRequirementView,
};
use crate::text::occurs_at;
use crate::update::{
    addition, create_or_append_file, law_git_files, law_missing_lines_are_added, GitFile,
};
use vstd::prelude::*;
use vstd::string::StringExecFns;

verus! {

/// What a new project is asked to be.
#[derive(Debug, PartialEq, Eq)]
pub struct Args {
    /// Where to place the project, as it is shown to the user.
    pub path: String,
    /// How many components that path has.
    pub components: usize,
    /// The channels to use.
    pub channels: Option<Vec<String>>,
    /// The platforms to support.
    pub platforms: Vec<String>,
    /// The environment file to start from, as it is shown to the user.
    pub env_file: Option<String>,
}

/// What an [`Args`] holds.
pub struct ArgsView {
    pub path: Seq<char>,
    pub components: usize,
    pub channels: Option<Seq<Seq<char>>>,
    pub platforms: Seq<Seq<char>>,
    pub env_file: Option<Seq<char>>,
}

impl View for Args {
    type V = ArgsView;

    open spec fn view(&self) -> ArgsView {
        ArgsView {
            path: self.path@,
            components: self.components,
            channels: self.channels.deep_view(),
            platforms: self.platforms.deep_view(),
            env_file: self.env_file.deep_view(),
        }
    }
}

/// How the directory of a project is found.
#[derive(Debug, Clone, Copy, PartialEq, Eq, Structural)]
pub enum DirLookup {
    /// By joining the path to the current directory: the directory need not exist.
    JoinCurrentDir,
    /// By resolving the path: the directory has to exist.
    Canonicalize,
}

/// How the directory is found, by the number of components of its path.
pub open spec fn dir_lookup(components: usize) -> DirLookup {
    if components == 1 {
        DirLookup::JoinCurrentDir
    } else {
        DirLookup::Canonicalize
    }
}

/// How the directory is found for a path with this many components.
pub fn get_dir(components: usize) -> (lookup: DirLookup)
    ensures
        lookup == dir_lookup(components),
{
    if components == 1 {
        DirLookup::JoinCurrentDir
    } else {
        DirLookup::Canonicalize
    }
}

/// Why the directory of a project is not found.
#[derive(Debug, Clone, Copy, PartialEq, Eq, Structural)]
pub enum DirErrorKind {
    /// There is nothing at the path.
    NotFound,
    /// The path cannot be resolved for another reason.
    InvalidInput,
}

/// The words in which a path is refused.
pub open spec fn dir_message(kind: DirErrorKind, path: Seq<char>) -> Seq<char> {
    match kind {
        DirErrorKind::NotFound => "Cannot find '"@ + path
            + "' please make sure the folder is reachable"@,
        DirErrorKind::InvalidInput => "Cannot canonicalize the given path"@,
    }
}

/// The kind of error for a path that cannot be resolved.
pub open spec fn dir_error(not_found: bool) -> DirErrorKind {
    if not_found {
        DirErrorKind::NotFound
    } else {
        DirErrorKind::InvalidInput
    }
}

/// The kind of error for a path that cannot be resolved, and whether because nothing is there.
pub fn canonicalize_error(not_found: bool) -> (kind: DirErrorKind)
    ensures
        kind == dir_error(not_found),
{
    if not_found {
        DirErrorKind::NotFound
    } else {
        DirErrorKind::InvalidInput
    }
}

/// The directory of a project.
#[derive(Debug, PartialEq, Eq)]
pub struct Directory {
    /// The directory, as it is shown to the user.
    pub shown: String,
    /// The last component of its path; none where the path ends in `..` or is a root.
    pub file_name: Option<String>,
}

/// What a [`Directory`] holds.
pub struct DirectoryView {
    pub shown: Seq<char>,
    pub file_name: Option<Seq<char>>,
}

impl View for Directory {
    type V = DirectoryView;

    open spec fn view(&self) -> DirectoryView {
        DirectoryView { shown: self.shown@, file_name: self.file_name.deep_view() }
    }
}

/// What is left of the arguments once the directory is being looked up.
#[derive(Debug, PartialEq, Eq)]
pub struct Setup {
    /// The channels to use.
    pub channels: Option<Vec<String>>,
    /// The platforms to support.
    pub platforms: Vec<String>,
    /// Whether to start from an environment file.
    pub import: bool,
}

/// What a [`Setup`] holds.
pub struct SetupView {
    pub channels: Option<Seq<Seq<char>>>,
    pub platforms: Seq<Seq<char>>,
    pub import: bool,
}

impl View for Setup {
    type V = SetupView;

    open spec fn view(&self) -> SetupView {
        SetupView {
            channels: self.channels.deep_view(),
            platforms: self.platforms.deep_view(),
            import: self.import,
        }
    }
}

/// How far a run has come: what it waits for a reply to.
#[derive(Debug, PartialEq, Eq)]
pub enum State {
    /// The directory is being looked up.
    Locating(String, Setup),
    /// It is being looked whether there is a manifest in the directory.
    Probing(Directory, Setup),
    /// The directory is being created.
    Creating(Directory, Setup),
    /// The environment file is being read.
    Importing(Directory, Vec<String>),
    /// The author is being looked up.
    Signing(Directory, Plan, Vec<String>),
    /// The manifest is being written.
    Writing(Directory),
    /// A file for Git is being read.
    Reading(Directory, GitFile),
    /// A file for Git is being added to.
    Appending(Directory, GitFile),
    /// The run is over.
    Finished,
}

/// What a [`State`] holds.
pub enum StateView {
    Locating(Seq<char>, SetupView),
    Probing(DirectoryView, SetupView),
    Creating(DirectoryView, SetupView),
    Importing(DirectoryView, Seq<Seq<char>>),
    Signing(DirectoryView, PlanView, Seq<Seq<char>>),
    Writing(DirectoryView),
    Reading(DirectoryView, GitFile),
    Appending(DirectoryView, GitFile),
    Finished,
}

impl View for State {
    type V = StateView;

    open spec fn view(&self) -> StateView {
        match self {
            State::Locating(path, setup) => StateView::Locating(path@, setup@),
            State::Probing(dir, setup) => StateView::Probing(dir@, setup@),
            State::Creating(dir, setup) => StateView::Creating(dir@, setup@),
            State::Importing(dir, platforms) => StateView::Importing(dir@, platforms.deep_view()),
            State::Signing(dir, plan, platforms) => StateView::Signing(
                dir@,
                plan@,
                platforms.deep_view(),
            ),
            State::Writing(dir) => StateView::Writing(dir@),
            State::Reading(dir, file) => StateView::Reading(dir@, *file),
            State::Appending(dir, file) => StateView::Appending(dir@, *file),
            State::Finished => StateView::Finished,
        }
    }
}

/// Why a run fails.
#[derive(Debug, PartialEq, Eq)]
pub enum InitError {
    /// The directory is not found at the path.
    Directory(DirErrorKind, String),
    /// There is a manifest in the directory already.
    ManifestExists,
    /// The directory has no name for the project to take, and is shown like this.
    NoName(String),
    /// The environment file cannot be imported.
    Import(ImportError),
    /// What was to be done could not be done.
    Outside,
    /// The reply answers nothing that was asked.
    Unexpected,
}

/// What an [`InitError`] holds.
pub enum InitErrorView {
    Directory(DirErrorKind, Seq<char>),
    ManifestExists,
    NoName(Seq<char>),
    Import(ImportErrorView),
    Outside,
    Unexpected,
}

impl View for InitError {
    type V = InitErrorView;

    open spec fn view(&self) -> InitErrorView {
        match self {
            InitError::Directory(kind, path) => InitErrorView::Directory(*kind, path@),
            InitError::ManifestExists => InitErrorView::ManifestExists,
            InitError::NoName(shown) => InitErrorView::NoName(shown@),
            InitError::Import(error) => InitErrorView::Import(error@),
            InitError::Outside => InitErrorView::Outside,
            InitError::Unexpected => InitErrorView::Unexpected,
        }
    }
}

impl InitErrorView {
    /// The words in which the user is told of the error. There are none for a dependency or a
    /// channel that was not read at all, for a channel that was refused, for what could not be
    /// done, and for a reply that answers nothing.
    pub open spec fn message(self) -> Option<Seq<char>> {
        match self {
            InitErrorView::Directory(kind, path) => Some(dir_message(kind, path)),
            InitErrorView::ManifestExists => Some(PROJECT_MANIFEST@ + " already exists"@),
            InitErrorView::NoName(shown) => Some(
                "Cannot get file or directory name from the path: "@ + shown,
            ),
            InitErrorView::Import(ImportErrorView::Dependency(error)) => error.reason(),
            _ => None,
        }
    }
}

impl InitError {
    /// The words in which the user is told of the error. There are none for a dependency or a
    /// channel that was not read at all, for a channel that was refused, for what could not be
    /// done, and for a reply that answers nothing.
    pub fn message(&self) -> (message: Option<String>)
        ensures
            message.deep_view() == self@.message(),
    {
        match self {
            InitError::Directory(DirErrorKind::NotFound, path) => Some(
                "Cannot find '".to_string().concat(path.as_str()).concat(
                    "' please make sure the folder is reachable",
                ),
            ),
            InitError::Directory(DirErrorKind::InvalidInput, _) => Some(
                "Cannot canonicalize the given path".to_string(),
            ),
            InitError::ManifestExists => Some(
                PROJECT_MANIFEST.to_string().concat(" already exists"),
            ),
            InitError::NoName(shown) => Some(
                "Cannot get file or directory name from the path: ".to_string().concat(
                    shown.as_str(),
                ),
            ),
            InitError::Import(ImportError::Dependency(error)) => match error.reason() {
                Some(reason) => Some(reason.to_string()),
                None => None,
            },
            _ => None,
        }
    }
}

/// What to do next.
#[derive(Debug, PartialEq, Eq)]
pub enum Action {
    /// Find the directory.
    Locate(DirLookup),
    /// Look whether there is a manifest in the directory, as a regular file.
    ProbeManifest,
    /// Create the directory and those above it, if they are missing.
    CreateDirectory,
    /// Read the environment file.
    ReadEnvFile,
    /// Look up the author.
    FindAuthor,
    /// Write the manifest.
    WriteManifest(String),
    /// Make a project out of the manifest, add the dependencies to it and save it.
    BuildProject(String, Vec<MatchSpec>, Vec<(PackageName, PyPiRequirement)>),
    /// Read a file in the directory.
    ReadFile(GitFile),
    /// Append to a file in the directory, which is created if it is missing.
    AppendToFile(GitFile, String),
    /// Tell the user that all is done.
    Finish(String),
    /// Give up.
    Fail(InitError),
}

/// What an [`Action`] holds.
pub enum ActionView {
    Locate(DirLookup),
    ProbeManifest,
    CreateDirectory,
    ReadEnvFile,
    FindAuthor,
    WriteManifest(Seq<char>),
    BuildProject(Seq<char>, Seq<MatchSpecView>, Seq<(PackageNameView, PyPiRequirementView)>),
    ReadFile(GitFile),
    AppendToFile(GitFile, Seq<char>),
    Finish(Seq<char>),
    Fail(InitErrorView),
}

impl View for Action {
    type V = ActionView;

    open spec fn view(&self) -> ActionView {
        match self {
            Action::Locate(lookup) => ActionView::Locate(*lookup),
            Action::ProbeManifest => ActionView::ProbeManifest,
            Action::CreateDirectory => ActionView::CreateDirectory,
            Action::ReadEnvFile => ActionView::ReadEnvFile,
            Action::FindAuthor => ActionView::FindAuthor,
            Action::WriteManifest(text) => ActionView::WriteManifest(text@),
            Action::BuildProject(text, conda_deps, pip_deps) => ActionView::BuildProject(
                text@,
                conda_deps.deep_view(),
                pip_deps.deep_view(),
            ),
            Action::ReadFile(file) => ActionView::ReadFile(*file),
            Action::AppendToFile(file, text) => ActionView::AppendToFile(*file, text@),
            Action::Finish(message) => ActionView::Finish(message@),
            Action::Fail(error) => ActionView::Fail(error@),
        }
    }
}

/// What came of an action.
#[derive(Debug, PartialEq, Eq)]
pub enum Reply {
    /// The directory was found.
    Located(Directory),
    /// The directory was not found; whether because there is nothing at the path.
    NotLocated(bool),
    /// Whether there is a manifest in the directory.
    Probed(bool),
    /// The directory was created, or was there, or could not be created.
    Attempted,
    /// The environment file was read.
    Imported(CondaEnvFile),
    /// The name and the mail address of the author, if they are known.
    Author(Option<(String, String)>),
    /// What the file holds, if it could be read.
    Content(Option<String>),
    /// It was done.
    Done,
    /// It could not be done.
    Failed,
    /// The file, as it is shown to the user, could not be added to, for the reason given.
    NotAppended(String, String),
}

/// What a [`Reply`] holds.
pub enum ReplyView {
    Located(DirectoryView),
    NotLocated(bool),
    Probed(bool),
    Attempted,
    Imported(CondaEnvFileView),
    Author(Option<(Seq<char>, Seq<char>)>),
    Content(Option<Seq<char>>),
    Done,
    Failed,
    NotAppended(Seq<char>, Seq<char>),
}

impl View for Reply {
    type V = ReplyView;

    open spec fn view(&self) -> ReplyView {
        match self {
            Reply::Located(dir) => ReplyView::Located(dir@),
            Reply::NotLocated(not_found) => ReplyView::NotLocated(*not_found),
            Reply::Probed(is_file) => ReplyView::Probed(*is_file),
            Reply::Attempted => ReplyView::Attempted,
            Reply::Imported(file) => ReplyView::Imported(file@),
            Reply::Author(author) => ReplyView::Author(author.deep_view()),
            Reply::Content(content) => ReplyView::Content(content.deep_view()),
            Reply::Done => ReplyView::Done,
            Reply::Failed => ReplyView::Failed,
            Reply::NotAppended(path, reason) => ReplyView::NotAppended(path@, reason@),
        }
    }
}

/// A step of a run: how far it has come, what to warn the user of, and what to do next.
#[derive(Debug, PartialEq, Eq)]
pub struct Step {
    pub state: State,
    pub warning: Option<String>,
    pub action: Action,
}

/// What a [`Step`] holds.
pub struct StepView {
    pub state: StateView,
    pub warning: Option<Seq<char>>,
    pub action: ActionView,
}

impl View for Step {
    type V = StepView;

    open spec fn view(&self) -> StepView {
        StepView {
            state: self.state@,
            warning: self.warning.deep_view(),
            action: self.action@,
        }
    }
}

/// The step that goes on without a warning.
pub open spec fn going_on(state: StateView, action: ActionView) -> StepView {
    StepView { state, warning: None, action }
}

/// The step that gives up.
pub open spec fn giving_up(error: InitErrorView) -> StepView {
    going_on(StateView::Finished, ActionView::Fail(error))
}

/// The first step: look up the directory.
pub open spec fn first_step(args: ArgsView, platforms: Seq<Seq<char>>) -> StepView {
    going_on(
        StateView::Locating(
            args.path,
            SetupView {
                channels: args.channels,
                platforms,
                import: args.env_file is Some,
            },
        ),
        ActionView::Locate(dir_lookup(args.components)),
    )
}

/// What the first step of a run may be. The platforms are those that were asked for, or else the
/// one that the program was built for.
pub open spec fn starts_with(args: ArgsView, step: StepView) -> bool {
    exists|current: Seq<char>| #[trigger]
        is_build_platform(current) && step == first_step(
            args,
            platforms_or(args.platforms, current),
        )
}

/// What the manifest of a planned project says.
pub open spec fn planned_manifest(
    plan: PlanView,
    author: Option<(Seq<char>, Seq<char>)>,
    platforms: Seq<Seq<char>>,
) -> ManifestView {
    ManifestView {
        name: plan.name,
        version: FIRST_VERSION@,
        author,
        channels: plan.channels,
        platforms,
    }
}

/// How the manifest of a planned project gets written: as it is, if the project has no
/// dependencies, else through a project to which they are added.
pub open spec fn writing(plan: PlanView, text: Seq<char>) -> ActionView {
    if plan.conda_deps.len() == 0 && plan.pip_deps.len() == 0 {
        ActionView::WriteManifest(text)
    } else {
        ActionView::BuildProject(text, plan.conda_deps, plan.pip_deps)
    }
}

/// The step once a plan was made, or could not be made.
pub open spec fn planned(
    dir: DirectoryView,
    platforms: Seq<Seq<char>>,
    plan: ImportOutcome,
) -> StepView {
    match plan {
        Ok(plan) => going_on(
            StateView::Signing(dir, plan, platforms),
            ActionView::FindAuthor,
        ),
        Err(error) => giving_up(InitErrorView::Import(error)),
    }
}

/// The step once a file for Git was seen to.
pub open spec fn after_file(dir: DirectoryView, file: GitFile) -> StepView {
    match file {
        GitFile::Ignore => going_on(
            StateView::Reading(dir, GitFile::Attributes),
            ActionView::ReadFile(GitFile::Attributes),
        ),
        GitFile::Attributes => going_on(
            StateView::Finished,
            ActionView::Finish("Initialized project in "@ + dir.shown),
        ),
    }
}

/// What a user is warned of when a file could not be added to.
pub open spec fn update_warning(path: Seq<char>, reason: Seq<char>) -> Seq<char> {
    "Warning, couldn't update '"@ + path + "' because of: "@ + reason
}

/// The step that follows on a reply, for every reply but an environment file.
pub open spec fn next_step(state: StateView, reply: ReplyView) -> StepView {
    match (state, reply) {
        (StateView::Locating(_, setup), ReplyView::Located(dir)) => going_on(
            StateView::Probing(dir, setup),
            ActionView::ProbeManifest,
        ),
        (StateView::Locating(path, _), ReplyView::NotLocated(not_found)) => giving_up(
            InitErrorView::Directory(dir_error(not_found), path),
        ),
        (StateView::Probing(dir, setup), ReplyView::Probed(is_file)) => if is_file {
            giving_up(InitErrorView::ManifestExists)
        } else {
            going_on(StateView::Creating(dir, setup), ActionView::CreateDirectory)
        },
        (StateView::Creating(dir, setup), ReplyView::Attempted) => if setup.import {
            going_on(StateView::Importing(dir, setup.platforms), ActionView::ReadEnvFile)
        } else {
            match dir.file_name {
                Some(name) => planned(dir, setup.platforms, Ok(empty_plan(name, setup.channels))),
                None => giving_up(InitErrorView::NoName(dir.shown)),
            }
        },
        (StateView::Importing(_, _), ReplyView::Failed) => giving_up(InitErrorView::Outside),
        (StateView::Signing(dir, plan, platforms), ReplyView::Author(author)) => going_on(
            StateView::Writing(dir),
            writing(plan, manifest_text(planned_manifest(plan, author, platforms))),
        ),
        (StateView::Writing(dir), ReplyView::Done) => going_on(
            StateView::Reading(dir, GitFile::Ignore),
            ActionView::ReadFile(GitFile::Ignore),
        ),
        (StateView::Writing(_), ReplyView::Failed) => giving_up(InitErrorView::Outside),
        (StateView::Reading(dir, file), ReplyView::Content(content)) => match addition(
            content,
            file.lines(),
        ) {
            Some(text) => going_on(
                StateView::Appending(dir, file),
                ActionView::AppendToFile(file, text),
            ),
            None => after_file(dir, file),
        },
        (StateView::Appending(dir, file), ReplyView::Done) => after_file(dir, file),
        (StateView::Appending(dir, file), ReplyView::NotAppended(path, reason)) => StepView {
            warning: Some(update_warning(path, reason)),
            ..after_file(dir, file)
        },
        _ => giving_up(InitErrorView::Unexpected),
    }
}

/// Which step may follow on an environment file.
pub open spec fn imports_to(
    dir: DirectoryView,
    platforms: Seq<Seq<char>>,
    file: CondaEnvFileView,
    step: StepView,
) -> bool {
    exists|plan: ImportOutcome| #[trigger]
        imports_as(file, plan) && step == planned(dir, platforms, plan)
}

/// Which step may follow on a reply.
pub open spec fn steps_to(state: StateView, reply: ReplyView, step: StepView) -> bool {
    match (state, reply) {
        (StateView::Importing(dir, platforms), ReplyView::Imported(file)) => imports_to(
            dir,
            platforms,
            file,
            step,
        ),
        _ => step == next_step(state, reply),
    }
}

/// The step that goes on without a warning.
fn go_on(state: State, action: Action) -> (step: Step)
    ensures
        step@ == going_on(state@, action@),
{
    Step { state, warning: None, action }
}

/// The step that gives up.
fn give_up(error: InitError) -> (step: Step)
    ensures
        step@ == giving_up(error@),
{
    go_on(State::Finished, Action::Fail(error))
}

/// Starts a run.
pub fn start(args: Args) -> (step: Step)
    ensures
        starts_with(args@, step@),
{
    let platforms = project_platforms(args.platforms);
    let import = args.env_file.is_some();
    let setup = Setup { channels: args.channels, platforms, import };
    go_on(State::Locating(args.path, setup), Action::Locate(get_dir(args.components)))
}

/// The step once a file for Git was seen to.
fn finish_file(dir: Directory, file: GitFile) -> (step: Step)
    ensures
        step@ == after_file(dir@, file),
{
    match file {
        GitFile::Ignore => go_on(
            State::Reading(dir, GitFile::Attributes),
            Action::ReadFile(GitFile::Attributes),
        ),
        GitFile::Attributes => {
            let message = "Initialized project in ".to_string().concat(dir.shown.as_str());
            go_on(State::Finished, Action::Finish(message))
        },
    }
}

/// The step once it is known who the author is: the manifest is written.
fn write_manifest(
    dir: Directory,
    plan: Plan,
    platforms: Vec<String>,
    author: Option<(String, String)>,
) -> (step: Step)
    ensures
        step@ == going_on(
            StateView::Writing(dir@),
            writing(
                plan@,
                manifest_text(planned_manifest(plan@, author.deep_view(), platforms.deep_view())),
            ),
        ),
{
    let manifest = Manifest {
        name: plan.name,
        version: FIRST_VERSION.to_string(),
        author,
        channels: plan.channels,
        platforms,
    };
    let text = manifest.render();
    if plan.conda_deps.len() == 0 && plan.pip_deps.len() == 0 {
        go_on(State::Writing(dir), Action::WriteManifest(text))
    } else {
        go_on(State::Writing(dir), Action::BuildProject(text, plan.conda_deps, plan.pip_deps))
    }
}

/// Takes the reply to what was to be done, and says what to do next.
pub fn step(state: State, reply: Reply) -> (step: Step)
    ensures
        steps_to(state@, reply@, step@),
{
    match (state, reply) {
        (State::Locating(_, setup), Reply::Located(dir)) => go_on(
            State::Probing(dir, setup),
            Action::ProbeManifest,
        ),
        (State::Locating(path, _), Reply::NotLocated(not_found)) => give_up(
            InitError::Directory(canonicalize_error(not_found), path),
        ),
        (State::Probing(dir, setup), Reply::Probed(is_file)) => if is_file {
            give_up(InitError::ManifestExists)
        } else {
            go_on(State::Creating(dir, setup), Action::CreateDirectory)
        },
        (State::Creating(dir, setup), Reply::Attempted) => if setup.import {
            go_on(State::Importing(dir, setup.platforms), Action::ReadEnvFile)
        } else {
            match dir.file_name {
                Some(name) => {
                    let plan = Plan::empty(name.clone(), setup.channels);
                    let dir = Directory { shown: dir.shown, file_name: Some(name) };
                    go_on(State::Signing(dir, plan, setup.platforms), Action::FindAuthor)
                },
                None => give_up(InitError::NoName(dir.shown)),
            }
        },
        (State::Importing(dir, platforms), Reply::Imported(file)) => {
            let read = Plan::import(file);
            let ghost outcome = import_outcome(read);
            assert(imports_as(file@, outcome));
            let next = match read {
                Ok(plan) => go_on(State::Signing(dir, plan, platforms), Action::FindAuthor),
                Err(error) => give_up(InitError::Import(error)),
            };
            assert(next@ == planned(dir@, platforms.deep_view(), outcome));
            next
        },
        (State::Importing(_, _), Reply::Failed) => give_up(InitError::Outside),
        (State::Signing(dir, plan, platforms), Reply::Author(author)) => write_manifest(
            dir,
            plan,
            platforms,
            author,
        ),
        (State::Writing(dir), Reply::Done) => go_on(
            State::Reading(dir, GitFile::Ignore),
            Action::ReadFile(GitFile::Ignore),
        ),
        (State::Writing(_), Reply::Failed) => give_up(InitError::Outside),
        (State::Reading(dir, file), Reply::Content(content)) => {
            let held = match &content {
                Some(text) => Some(text.as_str()),
                None => None,
            };
            match create_or_append_file(held, file.template()) {
                Some(text) => go_on(State::Appending(dir, file), Action::AppendToFile(file, text)),
                None => finish_file(dir, file),
            }
        },
        (State::Appending(dir, file), Reply::Done) => finish_file(dir, file),
        (State::Appending(dir, file), Reply::NotAppended(path, reason)) => {
            let warning = "Warning, couldn't update '".to_string().concat(path.as_str()).concat(
                "' because of: ",
            ).concat(reason.as_str());
            Step { warning: Some(warning), ..finish_file(dir, file) }
        },
        _ => give_up(InitError::Unexpected),
    }
}

/// The manifest of a planned project says what was planned: its name, its channels and its
/// platforms, all of them and in their order, its author, and the first version.
pub proof fn law_manifest_as_planned(
    plan: PlanView,
    author: Option<(Seq<char>, Seq<char>)>,
    platforms: Seq<Seq<char>>,
)
    ensures
        planned_manifest(plan, author, platforms).name == plan.name,
        planned_manifest(plan, author, platforms).version == "0.1.0"@,
        planned_manifest(plan, author, platforms).author == author,
        planned_manifest(plan, author, platforms).channels == plan.channels,
        planned_manifest(plan, author, platforms).platforms == platforms,
{
}

/// The words in which the user is told why a run fails.
pub proof fn law_error_messages(path: Seq<char>, text: Seq<char>, reason: Seq<char>)
    ensures
        InitErrorView::Directory(DirErrorKind::NotFound, path).message() == Some(
            "Cannot find '"@ + path + "' please make sure the folder is reachable"@,
        ),
        InitErrorView::Directory(DirErrorKind::InvalidInput, path).message() == Some(
            "Cannot canonicalize the given path"@,
        ),
        InitErrorView::ManifestExists.message() == Some("pixi.toml already exists"@),
        InitErrorView::NoName(path).message() == Some(
            "Cannot get file or directory name from the path: "@ + path,
        ),
        InitErrorView::Import(
            ImportErrorView::Dependency(
                DependencyErrorView::Conda(text, MatchSpecErrorView::Invalid(reason)),
            ),
        ).message() == Some(reason),
        InitErrorView::Import(
            ImportErrorView::Dependency(
                DependencyErrorView::Pip(text, PipErrorView::Requirement(reason)),
            ),
        ).message() == Some(reason),
        InitErrorView::Import(
            ImportErrorView::Dependency(
                DependencyErrorView::Pip(text, PipErrorView::PackageName(reason)),
            ),
        ).message() == Some(reason),
        InitErrorView::Outside.message() is None,
        InitErrorView::Unexpected.message() is None,
{
    reveal_strlit("pixi.toml");
    reveal_strlit(" already exists");
    reveal_strlit("pixi.toml already exists");
    assert("pixi.toml"@ + " already exists"@ =~= "pixi.toml already exists"@);
}

/// A path of one component need not exist and is joined to the current directory; any other path
/// has to exist and is resolved. One at which there is nothing is refused as not found, one that
/// cannot be resolved for another reason as invalid.
pub proof fn law_directory_lookup(components: usize)
    ensures
        components == 1 <==> dir_lookup(components) == DirLookup::JoinCurrentDir,
        components != 1 <==> dir_lookup(components) == DirLookup::Canonicalize,
        dir_error(true) == DirErrorKind::NotFound,
        dir_error(false) == DirErrorKind::InvalidInput,
{
}

/// The directory that a state holds, if one was found.
pub open spec fn directory_in(state: StateView) -> Option<DirectoryView> {
    match state {
        StateView::Locating(_, _) => None,
        StateView::Probing(dir, _) => Some(dir),
        StateView::Creating(dir, _) => Some(dir),
        StateView::Importing(dir, _) => Some(dir),
        StateView::Signing(dir, _, _) => Some(dir),
        StateView::Writing(dir) => Some(dir),
        StateView::Reading(dir, _) => Some(dir),
        StateView::Appending(dir, _) => Some(dir),
        StateView::Finished => None,
    }
}

/// The platforms that a state holds, until they are written.
pub open spec fn platforms_in(state: StateView) -> Option<Seq<Seq<char>>> {
    match state {
        StateView::Locating(_, setup) => Some(setup.platforms),
        StateView::Probing(_, setup) => Some(setup.platforms),
        StateView::Creating(_, setup) => Some(setup.platforms),
        StateView::Importing(_, platforms) => Some(platforms),
        StateView::Signing(_, _, platforms) => Some(platforms),
        _ => None,
    }
}

/// The channels that a state holds and whether it is to import a file, until there is a plan.
pub open spec fn wishes_in(state: StateView) -> Option<(Option<Seq<Seq<char>>>, bool)> {
    match state {
        StateView::Locating(_, setup) => Some((setup.channels, setup.import)),
        StateView::Probing(_, setup) => Some((setup.channels, setup.import)),
        StateView::Creating(_, setup) => Some((setup.channels, setup.import)),
        _ => None,
    }
}

/// From step to step nothing gets lost, whatever the state: the directory is the one that was
/// found, the platforms stay as they are until they are written, and so do the channels and the
/// wish to import a file until there is a plan.
pub proof fn law_nothing_gets_lost(state: StateView, reply: ReplyView, step: StepView)
    requires
        steps_to(state, reply, step),
        step.state !is Finished,
    ensures
        directory_in(step.state) is Some,
        directory_in(state) is Some ==> directory_in(step.state) == directory_in(state),
        directory_in(state) is None ==> reply == ReplyView::Located(directory_in(step.state)->0),
        platforms_in(step.state) is Some ==> platforms_in(step.state) == platforms_in(state),
        platforms_in(state) is Some && platforms_in(step.state) is None ==> state is Signing,
        wishes_in(step.state) is Some ==> wishes_in(step.state) == wishes_in(state),
        wishes_in(state) is Some && wishes_in(step.state) is None ==> state is Creating,
{
}

/// A plan comes from the directory and the channels that were asked for where no file is to be
/// imported, and from the file where one is.
pub proof fn law_plan_is_made(state: StateView, reply: ReplyView, step: StepView)
    requires
        steps_to(state, reply, step),
        step.state is Signing,
    ensures
        step.action is FindAuthor,
        ({
            let plan = step.state->Signing_1;
            ||| {
                &&& state matches StateView::Creating(dir, setup)
                &&& !setup.import
                &&& dir.file_name == Some(plan.name)
                &&& setup.channels is Some ==> plan.channels == setup.channels->0
                &&& setup.channels is None ==> plan.channels == seq!["conda-forge"@]
                &&& plan.conda_deps.len() == 0 && plan.pip_deps.len() == 0
            }
            ||| {
                &&& state is Importing
                &&& reply matches ReplyView::Imported(file)
                &&& imports_as(file, Ok(plan))
            }
        }),
{
}

/// Whatever the plan, once the author is known the manifest is written as planned: by itself if
/// there are neither conda nor Python packages to add, and else with all of both.
pub proof fn law_manifest_is_written(
    dir: DirectoryView,
    plan: PlanView,
    platforms: Seq<Seq<char>>,
    author: Option<(Seq<char>, Seq<char>)>,
    step: StepView,
)
    requires
        steps_to(StateView::Signing(dir, plan, platforms), ReplyView::Author(author), step),
    ensures
        ({
            let text = manifest_text(
                ManifestView {
                    name: plan.name,
                    version: "0.1.0"@,
                    author,
                    channels: plan.channels,
                    platforms,
                },
            );
            &&& step.state == StateView::Writing(dir)
            &&& step.action is WriteManifest <==> plan.conda_deps.len() == 0
                && plan.pip_deps.len() == 0
            &&& step.action is WriteManifest ==> step.action == ActionView::WriteManifest(text)
            &&& step.action !is WriteManifest ==> step.action == ActionView::BuildProject(
                text,
                plan.conda_deps,
                plan.pip_deps,
            )
        }),
{
}

/// A file for Git that was read gets its lines exactly where it does not hold them, and then the
/// run goes on to the next file or ends, whatever the state it came from.
pub proof fn law_file_is_seen_to(
    dir: DirectoryView,
    file: GitFile,
    content: Option<Seq<char>>,
    reply: ReplyView,
    read: StepView,
    added: StepView,
)
    requires
        steps_to(StateView::Reading(dir, file), ReplyView::Content(content), read),
        reply is Done || reply is NotAppended,
        steps_to(StateView::Appending(dir, file), reply, added),
    ensures
        ({
            let there = content is Some && exists|at: int|
                occurs_at(content->0, file.lines(), at);
            let settled = |step: StepView|
                match file {
                    GitFile::Ignore => step.state == StateView::Reading(dir, GitFile::Attributes)
                        && step.action == ActionView::ReadFile(GitFile::Attributes),
                    GitFile::Attributes => step.state is Finished && step.action
                        == ActionView::Finish("Initialized project in "@ + dir.shown),
                };
            &&& there ==> settled(read)
            &&& !there ==> read.state == StateView::Appending(dir, file) && read.action
                == ActionView::AppendToFile(file, file.lines())
            &&& read.warning is None
            &&& settled(added)
        }),
{
    law_missing_lines_are_added(content, file.lines());
    law_git_files(file);
}

} // verus!
