use pixi_init::env_file::{CondaEnvDep, CondaEnvFile, DependencyError};
use pixi_init::init::{
    canonicalize_error, get_dir, start, step, Action, Args, DirErrorKind, DirLookup, Directory,
    InitError, Reply, State, Step,
};
use pixi_init::manifest::Manifest;
use pixi_init::match_spec::{MatchSpec, MatchSpecError};
use pixi_init::plan::ImportError;
use pixi_init::pypi::read_pip_entry;
use pixi_init::update::{GitFile, GITATTRIBUTES_TEMPLATE, GITIGNORE_TEMPLATE};
use std::path::PathBuf;

fn texts(items: &[&str]) -> Vec<String> {
    items.iter().map(|item| item.to_string()).collect()
}

fn args(path: &str, env_file: Option<&str>) -> Args {
    Args {
        path: path.to_string(),
        components: PathBuf::from(path).components().count(),
        channels: None,
        platforms: texts(&["linux-64"]),
        env_file: env_file.map(str::to_string),
    }
}

fn located() -> Reply {
    Reply::Located(Directory {
        shown: "/work/example".to_string(),
        file_name: Some("example".to_string()),
    })
}

/// The step after the replies.
fn run(args: Args, replies: Vec<Reply>) -> Step {
    replies
        .into_iter()
        .fold(start(args), |last, reply| step(last.state, reply))
}

fn failure(args: Args, replies: Vec<Reply>) -> InitError {
    let last = run(args, replies);
    assert_eq!(last.state, State::Finished);
    assert_eq!(last.warning, None);
    match last.action {
        Action::Fail(error) => error,
        other => panic!("{other:?}"),
    }
}

fn manifest_text(name: &str, channels: &[&str], author: Option<(String, String)>) -> String {
    Manifest {
        name: name.to_string(),
        version: "0.1.0".to_string(),
        author,
        channels: texts(channels),
        platforms: texts(&["linux-64"]),
    }
    .render()
}

fn current_dir() -> PathBuf {
    PathBuf::from(".").canonicalize().unwrap()
}

/// The directory of a path.
fn resolved(path: PathBuf) -> Result<PathBuf, DirErrorKind> {
    match get_dir(path.components().count()) {
        DirLookup::JoinCurrentDir => Ok(current_dir().join(path)),
        DirLookup::Canonicalize => path
            .canonicalize()
            .map_err(|e| canonicalize_error(e.kind() == std::io::ErrorKind::NotFound)),
    }
}

#[test]
fn test_get_name() {
    assert_eq!(resolved(PathBuf::from(".")).unwrap(), current_dir());
    assert_eq!(
        resolved(PathBuf::from("test_folder")).unwrap(),
        current_dir().join("test_folder")
    );
    assert_eq!(
        resolved(current_dir()).unwrap(),
        current_dir().canonicalize().unwrap()
    );
}

#[test]
fn test_get_name_panic() {
    match resolved(PathBuf::from("invalid/path")) {
        Ok(_) => panic!("Expected error, but got OK"),
        Err(e) => assert_eq!(e, DirErrorKind::NotFound),
    }
}

#[test]
fn a_path_of_one_component_is_joined_to_the_current_directory() {
    for path in [".", "test_folder", ".."] {
        let components = PathBuf::from(path).components().count();
        assert_eq!(get_dir(components), DirLookup::JoinCurrentDir);
    }
    for path in ["", "/work/example", "a/b"] {
        let components = PathBuf::from(path).components().count();
        assert_eq!(get_dir(components), DirLookup::Canonicalize);
    }
    assert_eq!(
        resolved(PathBuf::from("/usr/..")).unwrap(),
        PathBuf::from("/")
    );
}

#[test]
fn a_path_that_is_not_found_ends_the_run() {
    let error = failure(args("invalid/path", None), vec![Reply::NotLocated(true)]);
    assert_eq!(
        error.message().unwrap(),
        "Cannot find 'invalid/path' please make sure the folder is reachable"
    );
    let error = failure(args("invalid/path", None), vec![Reply::NotLocated(false)]);
    assert_eq!(
        error,
        InitError::Directory(DirErrorKind::InvalidInput, "invalid/path".to_string())
    );
    assert_eq!(
        error.message().unwrap(),
        "Cannot canonicalize the given path"
    );
}

#[test]
fn a_manifest_that_is_there_ends_the_run() {
    let error = failure(args(".", None), vec![located(), Reply::Probed(true)]);
    assert_eq!(error, InitError::ManifestExists);
    assert_eq!(error.message().unwrap(), "pixi.toml already exists");
}

#[test]
fn a_directory_without_a_name_ends_the_run() {
    let root = Directory {
        shown: "/".to_string(),
        file_name: None,
    };
    let error = failure(
        args("/", None),
        vec![
            Reply::Located(root),
            Reply::Probed(false),
            Reply::Attempted,
        ],
    );
    assert_eq!(
        error.message().unwrap(),
        "Cannot get file or directory name from the path: /"
    );
}

#[test]
fn a_directory_without_a_name_is_fine_for_an_import() {
    let root = Directory {
        shown: "/".to_string(),
        file_name: None,
    };
    let last = run(
        args("/", Some("environment.yml")),
        vec![
            Reply::Located(root),
            Reply::Probed(false),
            Reply::Attempted,
        ],
    );
    assert_eq!(last.action, Action::ReadEnvFile);
}

#[test]
fn an_empty_project_is_set_up() {
    let author = Some(("Jane".to_string(), "jane@example.com".to_string()));
    let first = start(args("example", None));
    assert_eq!(first.action, Action::Locate(DirLookup::JoinCurrentDir));
    let next = step(first.state, located());
    assert_eq!(next.action, Action::ProbeManifest);
    let next = step(next.state, Reply::Probed(false));
    assert_eq!(next.action, Action::CreateDirectory);
    let next = step(next.state, Reply::Attempted);
    assert_eq!(next.action, Action::FindAuthor);
    let next = step(next.state, Reply::Author(author.clone()));
    assert_eq!(
        next.action,
        Action::WriteManifest(manifest_text("example", &["conda-forge"], author))
    );
    let next = step(next.state, Reply::Done);
    assert_eq!(next.action, Action::ReadFile(GitFile::Ignore));
    let next = step(next.state, Reply::Content(None));
    assert_eq!(
        next.action,
        Action::AppendToFile(GitFile::Ignore, GITIGNORE_TEMPLATE.to_string())
    );
    let next = step(next.state, Reply::Done);
    assert_eq!(next.action, Action::ReadFile(GitFile::Attributes));
    let next = step(next.state, Reply::Content(Some("*.rs text\n".to_string())));
    assert_eq!(
        next.action,
        Action::AppendToFile(GitFile::Attributes, GITATTRIBUTES_TEMPLATE.to_string())
    );
    let next = step(next.state, Reply::Done);
    assert_eq!(
        next,
        Step {
            state: State::Finished,
            warning: None,
            action: Action::Finish("Initialized project in /work/example".to_string()),
        }
    );
}

#[test]
fn channels_that_were_asked_for_are_kept() {
    let mut asked = args(".", None);
    asked.channels = Some(texts(&["pytorch", "conda-forge"]));
    let last = run(
        asked,
        vec![
            located(),
            Reply::Probed(false),
            Reply::Attempted,
            Reply::Author(None),
        ],
    );
    assert_eq!(
        last.action,
        Action::WriteManifest(manifest_text("example", &["pytorch", "conda-forge"], None))
    );
}

fn import_replies(file: CondaEnvFile) -> Vec<Reply> {
    vec![
        located(),
        Reply::Probed(false),
        Reply::Attempted,
        Reply::Imported(file),
        Reply::Author(None),
    ]
}

#[test]
fn an_environment_file_becomes_a_project() {
    let file = CondaEnvFile {
        name: "env".to_string(),
        channels: texts(&["conda-forge"]),
        dependencies: vec![
            CondaEnvDep::Conda("pytorch::torchvision".to_string()),
            CondaEnvDep::Pip {
                pip: texts(&["requests"]),
            },
        ],
    };
    let last = run(args(".", Some("environment.yml")), import_replies(file));
    assert_eq!(
        last.action,
        Action::BuildProject(
            manifest_text("env", &["pytorch", "conda-forge"], None),
            vec![
                MatchSpec::read("pytorch::torchvision").unwrap(),
                MatchSpec::read("pip").unwrap()
            ],
            vec![read_pip_entry("requests").unwrap()],
        )
    );
    let failed = step(last.state, Reply::Failed);
    assert_eq!(failed.action, Action::Fail(InitError::Outside));
}

#[test]
fn an_environment_file_without_dependencies_is_written_as_it_is() {
    let file = CondaEnvFile {
        name: "env".to_string(),
        channels: vec![],
        dependencies: vec![],
    };
    let last = run(args(".", Some("environment.yml")), import_replies(file));
    assert_eq!(
        last.action,
        Action::WriteManifest(manifest_text("env", &["conda-forge"], None))
    );
}

#[test]
fn an_environment_file_that_is_not_taken_ends_the_run() {
    let mut replies = vec![located(), Reply::Probed(false), Reply::Attempted];
    replies.push(Reply::Failed);
    let error = failure(args(".", Some("environment.yml")), replies);
    assert_eq!(error, InitError::Outside);
    assert_eq!(error.message(), None);

    let replies = |dependency: &str| {
        vec![
            located(),
            Reply::Probed(false),
            Reply::Attempted,
            Reply::Imported(CondaEnvFile {
                name: "env".to_string(),
                channels: vec![],
                dependencies: vec![CondaEnvDep::Conda(dependency.to_string())],
            }),
        ]
    };
    let error = failure(args(".", Some("e.yml")), replies("python[version="));
    let reason = match MatchSpec::read("python[version=") {
        Err(MatchSpecError::Invalid(reason)) => reason,
        other => panic!("{other:?}"),
    };
    assert_eq!(error.message(), Some(reason));
    let error = failure(args(".", Some("e.yml")), replies("/a.conda"));
    assert_eq!(
        error,
        InitError::Import(ImportError::Dependency(DependencyError::Conda(
            "/a.conda".to_string(),
            MatchSpecError::Unreadable
        )))
    );
    assert_eq!(error.message(), None);
}

#[test]
fn files_that_hold_their_lines_are_left_alone() {
    let dir = || Directory {
        shown: "/work/example".to_string(),
        file_name: None,
    };
    let next = step(
        State::Reading(dir(), GitFile::Ignore),
        Reply::Content(Some(format!("target\n{GITIGNORE_TEMPLATE}"))),
    );
    assert_eq!(next.action, Action::ReadFile(GitFile::Attributes));
    let next = step(
        next.state,
        Reply::Content(Some(GITATTRIBUTES_TEMPLATE.to_string())),
    );
    assert!(matches!(next.action, Action::Finish(_)));
}

#[test]
fn a_file_that_cannot_be_added_to_is_only_warned_of() {
    let dir = || Directory {
        shown: "/work/example".to_string(),
        file_name: None,
    };
    let reply = || Reply::NotAppended("/work/example/.git".to_string(), "denied".to_string());
    let next = step(State::Appending(dir(), GitFile::Ignore), reply());
    assert_eq!(
        next.warning.as_deref(),
        Some("Warning, couldn't update '/work/example/.git' because of: denied")
    );
    assert_eq!(next.action, Action::ReadFile(GitFile::Attributes));
    let next = step(State::Appending(dir(), GitFile::Attributes), reply());
    assert!(next.warning.is_some());
    assert_eq!(
        next.action,
        Action::Finish("Initialized project in /work/example".to_string())
    );
}

#[test]
fn a_reply_that_answers_nothing_ends_the_run() {
    let error = failure(args(".", None), vec![Reply::Done]);
    assert_eq!(error, InitError::Unexpected);
    let replies = vec![located(), Reply::Probed(true), Reply::Probed(false)];
    assert_eq!(failure(args(".", None), replies), InitError::Unexpected);
    assert_eq!(error.message(), None);
}

#[test]
fn the_longest_run_is_over_after_ten_replies() {
    let replies = import_replies(CondaEnvFile {
        name: "env".to_string(),
        channels: texts(&["b", "defaults", "b"]),
        dependencies: vec![CondaEnvDep::Conda("numpy".to_string())],
    });
    let mut last = run(args(".", Some("environment.yml")), replies);
    assert!(matches!(last.action, Action::BuildProject(..)));
    for reply in [
        Reply::Done,
        Reply::Content(None),
        Reply::Done,
        Reply::Content(None),
    ] {
        last = step(last.state, reply);
        assert_ne!(last.state, State::Finished);
    }
    let last = step(last.state, Reply::Done);
    assert_eq!(last.state, State::Finished);
    let after = step(last.state, Reply::Done);
    assert_eq!(after.action, Action::Fail(InitError::Unexpected));
}

#[test]
fn a_project_is_set_up_only_once() {
    let first = run(
        args("example", None),
        vec![
            located(),
            Reply::Probed(false),
            Reply::Attempted,
            Reply::Author(None),
            Reply::Done,
            Reply::Content(Some(GITIGNORE_TEMPLATE.to_string())),
            Reply::Content(Some(GITATTRIBUTES_TEMPLATE.to_string())),
        ],
    );
    assert!(matches!(first.action, Action::Finish(_)));
    let again = failure(
        args("example", Some("environment.yml")),
        vec![located(), Reply::Probed(true)],
    );
    assert_eq!(again, InitError::ManifestExists);
}
