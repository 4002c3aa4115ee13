use pixi_init::channel::{Channel, ChannelError};
use pixi_init::env_file::{CondaEnvDep, CondaEnvFile, DependencyError};
use pixi_init::match_spec::{MatchSpec, MatchSpecError};
use pixi_init::plan::{
    make_default_channels, merge_channels, read_channels, unique_channels, ImportError, Plan,
};

fn texts(items: &[&str]) -> Vec<String> {
    items.iter().map(|item| item.to_string()).collect()
}

fn channel(text: &str) -> Channel {
    Channel::read(text).unwrap()
}

#[test]
fn a_bare_name_is_a_channel_on_the_default_server() {
    assert_eq!(
        channel("conda-forge"),
        Channel {
            platforms: None,
            base_url: "https://conda.anaconda.org/conda-forge/".to_string(),
            name: Some("conda-forge".to_string()),
        }
    );
    assert_eq!(channel("conda-forge").name(), "conda-forge");
}

#[test]
fn a_url_is_a_channel() {
    let private = channel("https://repo.example.com/team/tools");
    assert_eq!(private.base_url, "https://repo.example.com/team/tools/");
    assert_eq!(private.platforms, None);
    let platforms = channel("conda-forge[linux-64,osx-arm64]");
    assert_eq!(platforms.platforms, Some(texts(&["linux-64", "osx-arm64"])));
    assert_eq!(platforms.name(), "conda-forge");
    assert!(!platforms.same(&channel("conda-forge")));
}

#[test]
fn a_channel_in_the_file_system_goes_by_its_url() {
    let local = channel("/srv/channels/tools");
    assert_eq!(local.base_url, "file:///srv/channels/tools/");
    assert_eq!(local.name.as_deref(), Some("/srv/channels/tools"));
    assert_eq!(local.name(), "file:///srv/channels/tools/");
    let listed = channel("/srv/tools[linux-64]");
    assert_eq!(listed.platforms, Some(texts(&["linux-64"])));
    assert_eq!(listed.name.as_deref(), Some("/srv/tools"));
}

#[test]
fn a_relative_path_is_read_from_the_current_directory() {
    let here = std::path::absolute("tools").unwrap();
    for path in ["./tools", "../x/../tools/../tools", "~/tools"] {
        let local = channel(path);
        assert_eq!(local.name.as_deref(), Some(path));
        assert!(local.base_url.starts_with("file:///"));
        assert!(local.base_url.ends_with("/tools/"));
        assert_eq!(local.platforms, None);
    }
    assert_eq!(
        channel("./tools").base_url,
        format!("file://{}/", here.display())
    );
}

#[test]
fn texts_that_only_look_like_paths_are_names() {
    for (text, url) in [
        (".foo", "https://conda.anaconda.org/.foo/"),
        ("\\foo", "https://conda.anaconda.org/foo/"),
        (" foo", "https://conda.anaconda.org/foo/"),
        ("foo:bar", "foo:bar/"),
        ("1tp://x", "https://conda.anaconda.org/1tp://x/"),
        ("abcdefghijkl://x", "abcdefghijkl://x/"),
    ] {
        assert_eq!(channel(text).base_url, url);
        assert_eq!(channel(text).name.as_deref(), Some(text));
    }
}

#[test]
fn texts_that_are_no_channels_are_refused() {
    assert!(matches!(
        Channel::read("conda-forge[no-such-platform]"),
        Err(ChannelError::Invalid(_))
    ));
    assert!(matches!(
        Channel::read("http://[/x"),
        Err(ChannelError::Invalid(_))
    ));
    assert_eq!(
        Channel::read("/srv/tools[no-such-platform]"),
        Err(ChannelError::Invalid(
            "could not parse the platforms".to_string()
        ))
    );
    for text in ["http:", "abcdefghijkl://[/x", " //[x", "\\/[x", "a]b[", "ab[x]é"] {
        assert_eq!(Channel::read(text), Err(ChannelError::Unreadable));
    }
}

/// All texts of at most `len` of the characters.
fn words(chars: &[char], len: usize) -> Vec<String> {
    let mut all = vec![String::new()];
    let mut last = all.clone();
    for _ in 0..len {
        let mut next = Vec::new();
        for word in &last {
            for c in chars {
                let mut longer = word.clone();
                longer.push(*c);
                next.push(longer);
            }
        }
        all.extend(next.clone());
        last = next;
    }
    all
}

#[test]
fn channels_are_what_the_outside_crate_reads() {
    let config = rattler_conda_types::ChannelConfig::default();
    let chars = ['a', '[', ']', ':', '/', '\n', ' ', 'é', '\\', '.', '~', 'h'];
    for text in words(&chars, 4) {
        match Channel::read(&text) {
            Ok(channel) => {
                let read = rattler_conda_types::Channel::from_str(&text, &config).unwrap();
                assert_eq!(channel.base_url, read.base_url.to_string());
                assert_eq!(channel.name(), read.name());
                assert_eq!(channel.name, read.name);
            }
            Err(ChannelError::Invalid(reason)) => {
                let read = rattler_conda_types::Channel::from_str(&text, &config);
                assert_eq!(reason, read.unwrap_err().to_string());
            }
            Err(error) => assert_eq!(error, ChannelError::Unreadable),
        }
    }
}

#[test]
fn a_channel_and_its_copy_are_the_same() {
    for text in ["conda-forge", "conda-forge[linux-64]", "/srv/tools"] {
        let one = channel(text);
        assert!(one.same(&one.clone()));
        assert_eq!(one, one.clone());
    }
    assert!(!channel("a").same(&channel("b")));
}

#[test]
fn channels_are_taken_once_in_their_order() {
    let list = vec![channel("b"), channel("a"), channel("b"), channel("a[noarch]")];
    let once = unique_channels(list);
    assert_eq!(once, vec![channel("b"), channel("a"), channel("a[noarch]")]);
    let again = once.iter().map(Channel::clone).collect();
    assert_eq!(unique_channels(again), once);
}

#[test]
fn channels_are_merged() {
    assert_eq!(
        merge_channels(
            vec![channel("pytorch"), channel("conda-forge")],
            vec![channel("conda-forge"), channel("bioconda")],
        ),
        texts(&["pytorch", "conda-forge", "bioconda"])
    );
    assert_eq!(merge_channels(vec![], vec![]), texts(&["conda-forge"]));
    assert_eq!(make_default_channels(), texts(&["conda-forge"]));
}

#[test]
fn reading_channels_ends_at_the_first_that_is_none() {
    assert_eq!(
        read_channels(texts(&["a", "b"])).unwrap(),
        vec![channel("a"), channel("b")]
    );
    assert_eq!(
        read_channels(texts(&["a", "http:", "ws:"])),
        Err(("http:".to_string(), ChannelError::Unreadable))
    );
}

#[test]
fn an_environment_file_is_imported() {
    let plan = Plan::import(CondaEnvFile {
        name: "example".to_string(),
        channels: texts(&["conda-forge", "defaults", "conda-forge"]),
        dependencies: vec![
            CondaEnvDep::Conda("pytorch::torchvision".to_string()),
            CondaEnvDep::Conda("python".to_string()),
        ],
    })
    .unwrap();
    assert_eq!(plan.name, "example");
    assert_eq!(
        plan.channels,
        texts(&["pytorch", "conda-forge", "main", "r", "msys2"])
    );
    assert_eq!(
        plan.conda_deps,
        vec![
            MatchSpec::read("pytorch::torchvision").unwrap(),
            MatchSpec::read("python").unwrap()
        ]
    );
    assert!(plan.pip_deps.is_empty());
}

#[test]
fn a_file_without_channels_gets_the_default_channels() {
    let plan = Plan::import(CondaEnvFile {
        name: String::new(),
        channels: vec![],
        dependencies: vec![CondaEnvDep::Conda("python".to_string())],
    })
    .unwrap();
    assert_eq!(plan.name, "");
    assert_eq!(plan.channels, texts(&["conda-forge"]));
}

#[test]
fn a_file_of_plain_names_keeps_its_channels() {
    let file = || CondaEnvFile {
        name: "example".to_string(),
        channels: texts(&["b", "defaults", " a ", "b"]),
        dependencies: vec![
            CondaEnvDep::Conda("numpy".to_string()),
            CondaEnvDep::Pip {
                pip: texts(&["https://host/a/Foo.git"]),
            },
        ],
    };
    let plan = Plan::import(file()).unwrap();
    assert_eq!(plan.channels, texts(&["b", "main", "r", "msys2", "a"]));
    assert_eq!(plan.conda_deps[1], MatchSpec::read("pip").unwrap());
    assert_eq!(plan.pip_deps[0].0.normalized, "foo");
    assert_eq!(Plan::import(file()).unwrap(), plan);
}

#[test]
fn a_file_that_cannot_be_imported() {
    let read = Plan::import(CondaEnvFile {
        name: "example".to_string(),
        channels: texts(&["http:"]),
        dependencies: vec![CondaEnvDep::Conda("python".to_string())],
    });
    assert_eq!(
        read,
        Err(ImportError::Channel(
            "http:".to_string(),
            ChannelError::Unreadable
        ))
    );
    let read = Plan::import(CondaEnvFile {
        name: "example".to_string(),
        channels: texts(&["http:"]),
        dependencies: vec![CondaEnvDep::Conda("/a.conda".to_string())],
    });
    assert_eq!(
        read,
        Err(ImportError::Dependency(DependencyError::Conda(
            "/a.conda".to_string(),
            MatchSpecError::Unreadable
        )))
    );
}

#[test]
fn an_empty_project_keeps_the_channels_it_was_given() {
    let plan = Plan::empty("example".to_string(), Some(texts(&["b", "a", "b"])));
    assert_eq!(plan.channels, texts(&["b", "a", "b"]));
    let plan = Plan::empty("example".to_string(), None);
    assert_eq!(plan.channels, texts(&["conda-forge"]));
    assert!(plan.conda_deps.is_empty() && plan.pip_deps.is_empty());
}
