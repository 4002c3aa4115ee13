use pixi_init::anchor::Anchor;
use pixi_init::channel::{Channel, ChannelError};
use pixi_init::env_file::{
    parse_channels, parse_dependencies, CondaEnvDep, CondaEnvFile, DependencyError,
};
use pixi_init::match_spec::{MatchSpec, MatchSpecError};
use pixi_init::plan::unique_channels;
use pixi_init::pypi::{PackageName, PipError, PyPiRequirement};
use std::str::FromStr;

fn texts(items: &[&str]) -> Vec<String> {
    items.iter().map(|item| item.to_string()).collect()
}

fn strings(value: &serde_yaml::Value) -> Vec<String> {
    value
        .as_sequence()
        .unwrap()
        .iter()
        .map(|item| item.as_str().unwrap().to_string())
        .collect()
}

fn env_file(text: &str) -> CondaEnvFile {
    let value: serde_yaml::Value = serde_yaml::from_str(text).unwrap();
    let dependencies = value["dependencies"]
        .as_sequence()
        .unwrap()
        .iter()
        .map(|item| match item.as_str() {
            Some(text) => CondaEnvDep::Conda(text.to_string()),
            None => CondaEnvDep::Pip {
                pip: strings(&item["pip"]),
            },
        })
        .collect();
    CondaEnvFile {
        name: value["name"].as_str().unwrap().to_string(),
        channels: strings(&value["channels"]),
        dependencies,
    }
}

fn package(name: &str) -> PackageName {
    let (name, _) = pixi_init::pypi::read_pip_entry(name).unwrap();
    name
}

fn any_version() -> PyPiRequirement {
    PyPiRequirement {
        version: None,
        extras: None,
        index: None,
    }
}

#[test]
fn test_parse_conda_env_file() {
    let example_conda_env_file = r#"
        name: pixi_example_project
        channels:
          - conda-forge
        dependencies:
          - python
          - pytorch::torchvision
          - conda-forge::pytest
          - wheel=0.31.1
          - pip:
            - requests
            - git+https://git@github.com/fsschneider/DeepOBS.git@develop#egg=deepobs
            - torch==1.8.1
        "#;
    let conda_env_file_data = env_file(example_conda_env_file);

    assert_eq!(conda_env_file_data.name, "pixi_example_project");
    assert_eq!(
        conda_env_file_data.channels,
        vec!["conda-forge".to_string()]
    );

    let parsed = parse_dependencies(conda_env_file_data.dependencies).unwrap();
    let mut channels = parsed.channels;
    channels.extend(
        conda_env_file_data
            .channels
            .into_iter()
            .map(|c| Channel::read(&c).unwrap()),
    );
    let channels = unique_channels(channels);

    assert_eq!(
        channels,
        vec![
            Channel::read("pytorch").unwrap(),
            Channel::read("conda-forge").unwrap()
        ],
    );

    println!("{:?}", parsed.conda_deps);
    assert_eq!(
        parsed.conda_deps,
        vec![
            MatchSpec::read("python").unwrap(),
            MatchSpec::read("pytorch::torchvision").unwrap(),
            MatchSpec::read("conda-forge::pytest").unwrap(),
            MatchSpec::read("wheel=0.31.1").unwrap(),
            MatchSpec::read("pip").unwrap(),
        ]
    );

    assert_eq!(
        parsed.pip_deps,
        vec![
            (package("requests"), any_version()),
            (package("DeepOBS"), any_version()),
            (
                package("torch"),
                PyPiRequirement {
                    version: pep440_rs::VersionSpecifiers::from_str("==1.8.1")
                        .ok()
                        .map(|version| version.to_string()),
                    extras: None,
                    index: None,
                }
            ),
        ]
    );
}

#[test]
fn match_specs_are_read_in_all_their_parts() {
    let spec = MatchSpec::read("pytorch::torchvision >=0.2,<1 py3*").unwrap();
    assert_eq!(spec.source, "pytorch::torchvision >=0.2,<1 py3*");
    assert_eq!(spec.name, Some("torchvision".to_string()));
    assert_eq!(spec.version, Some(">=0.2,<1".to_string()));
    assert_eq!(spec.build, Some("py3*".to_string()));
    assert_eq!(
        spec.channel.unwrap().base_url,
        "https://conda.anaconda.org/pytorch/"
    );
    let wheel = MatchSpec::read("wheel=0.31.1").unwrap();
    assert_eq!(wheel.version, Some("0.31.1.*".to_string()));
    assert_eq!(wheel.channel, None);
}

#[test]
fn bare_and_qualified_packages_are_read_exactly() {
    assert_eq!(
        MatchSpec::read("pip").unwrap(),
        MatchSpec {
            source: "pip".to_string(),
            name: Some("pip".to_string()),
            version: None,
            build: None,
            channel: None,
        }
    );
    assert_eq!(
        MatchSpec::read("conda-forge::pytest").unwrap(),
        MatchSpec {
            source: "conda-forge::pytest".to_string(),
            name: Some("pytest".to_string()),
            version: None,
            build: None,
            channel: Some(Channel {
                platforms: None,
                base_url: "https://conda.anaconda.org/conda-forge/".to_string(),
                name: Some("conda-forge".to_string()),
            }),
        }
    );
}

#[test]
fn odd_bare_names_are_read_exactly() {
    for name in ["-", "_", "0", "--a", "a-_", "__glibc", "build", "1e5", "build_number7"] {
        let spec = MatchSpec::read(name).unwrap();
        assert_eq!(spec.source, name);
        assert_eq!(spec.name.as_deref(), Some(name));
        assert!(spec.version.is_none() && spec.build.is_none() && spec.channel.is_none());
        for channel in ["-", "_", "0", "A-b_C", "label", "http"] {
            let text = format!("{channel}::{name}");
            let spec = MatchSpec::read(&text).unwrap();
            assert_eq!(spec.source, text);
            assert_eq!(spec.name.as_deref(), Some(name));
            assert!(spec.version.is_none() && spec.build.is_none());
            assert_eq!(spec.channel, Some(Channel::read(channel).unwrap()));
            assert_eq!(Channel::read(channel).unwrap().name(), channel);
        }
    }
}

#[test]
fn texts_that_are_no_match_specs_are_refused() {
    for text in ["python[version=", "a_b::c.conda", "\\a.conda", "b/c.tar.bz2"] {
        assert!(matches!(
            MatchSpec::read(text),
            Err(MatchSpecError::Invalid(_))
        ));
    }
    for text in [
        "https://example.com/linux-64/a-1-0.conda",
        " h\tttp://example.com/a-1-0.conda",
        "/tmp/a-1-0.tar.bz2",
        "a]b[::c",
        "a[b]é::c[fn=d]",
        " \\/[/x::c",
        "a[build_number=18446744073709551616]",
        "a[fn='x,y' , build_number = \">=99999999999999999999\"]",
    ] {
        assert_eq!(MatchSpec::read(text), Err(MatchSpecError::Unreadable));
    }
}

#[test]
fn versions_beyond_the_limits_are_refused() {
    let group = format!("{}1{}", "(".repeat(129), ")".repeat(129));
    let list = format!("{}!", "1,".repeat(40_000));
    for version in [group, list] {
        for text in [format!("a {version}"), format!("a[version='{version}']")] {
            assert_eq!(MatchSpec::read(&text), Err(MatchSpecError::Unreadable));
        }
    }
}

#[test]
fn versions_within_the_limits_are_read() {
    let group = format!("{}1{}", "(".repeat(128), ")".repeat(128));
    for text in [format!("a {group}"), format!("a[version=\"{group}\"]")] {
        assert_eq!(
            MatchSpec::read(&text).unwrap().version,
            Some("==1".to_string())
        );
    }
    let groups = format!("a {}(1!1.0)", "(1)|".repeat(1_000));
    assert!(MatchSpec::read(&groups).is_ok());
    let long = format!("a {}!", "1,".repeat(32_766));
    assert_eq!(long.len(), 65_535);
    assert!(matches!(
        MatchSpec::read(&long),
        Err(MatchSpecError::Invalid(_))
    ));
}

#[test]
fn only_versions_are_limited() {
    let parens = "(".repeat(1_000);
    let long = "x".repeat(100_000);
    for text in [
        format!("python {}", " ".repeat(100_000)),
        format!("python #{parens}{long}"),
        format!("python 1.0 {parens}"),
        format!("python >=1.0,<2 py{parens}"),
        format!("python =1.0={long}"),
        format!("python[fn='{parens},version={parens}']"),
        format!("python[fn='{long}']"),
        format!("{long}::python"),
        format!("conda-forge::{long}"),
        "python[fn='build_number=99999999999999999999']".to_string(),
        "python[fn=build_number]".to_string(),
        "python[build_number=00000000000000000001]".to_string(),
        "python[build_number='>18446744073709551615']".to_string(),
        "build_number99999999999999999999".to_string(),
    ] {
        let spec = MatchSpec::read(&text).unwrap();
        let read = rattler_conda_types::MatchSpec::from_str(&text).unwrap();
        assert_eq!(spec.version, read.version.map(|v| v.to_string()));
        assert_eq!(spec.build, read.build.map(|b| b.to_string()));
    }
}

#[test]
fn a_path_without_an_anchor_is_not_read() {
    assert_eq!(
        MatchSpec::read_at("../tools/x::numpy", None),
        Err(MatchSpecError::NoDirectory)
    );
    assert!(MatchSpec::read_at("tools::numpy", None).is_ok());
    assert_eq!(
        MatchSpec::read_at("../tools/x::numpy", Anchor::of("../tools")),
        MatchSpec::read("../tools/x::numpy")
    );
    assert_eq!(
        Channel::read_at("./tools", None),
        Err(ChannelError::NoDirectory)
    );
    assert_eq!(
        Channel::read_at("./tools", Anchor::of("./tools")),
        Channel::read("./tools")
    );
}

#[test]
fn white_space_and_brackets_around_a_channel() {
    let pytest = MatchSpec::read("conda-forge::pytest").unwrap();
    for text in [
        "conda-forge::pytest\n",
        " \tconda-forge::pytest",
        "conda-forge[fn=x]::pytest",
        "[fn=x]conda-forge::pytest",
        "conda-forge::pytest[fn=x]",
        "conda-forge/linux-64::pytest",
        "conda-forge::pytest # a::b::c",
    ] {
        let spec = MatchSpec::read(text).unwrap();
        assert_eq!(spec.source, text);
        assert_eq!(spec.name, pytest.name);
        assert_eq!(spec.channel, pytest.channel);
    }
    let listed = MatchSpec::read("conda-forge[noarch]/x::pytest[fn=x]").unwrap();
    assert_eq!(
        listed.channel.unwrap().platforms,
        Some(vec!["noarch".to_string()])
    );
    let broken = MatchSpec::read("conda\nforge::pytest").unwrap();
    assert_eq!(
        broken.channel.unwrap().base_url,
        "https://conda.anaconda.org/condaforge/"
    );
}

#[test]
fn a_channel_in_the_file_system_is_picked_up() {
    let spec = MatchSpec::read("../tools/linux-64::numpy 1.2 py*").unwrap();
    assert_eq!(spec.name, Some("numpy".to_string()));
    assert_eq!(spec.version, Some("==1.2".to_string()));
    assert_eq!(spec.build, Some("py*".to_string()));
    assert_eq!(spec.channel, Some(Channel::read("../tools").unwrap()));
    let spec = MatchSpec::read("./tools::numpy").unwrap();
    assert_eq!(spec.channel, Some(Channel::read(".").unwrap()));
}

#[test]
fn match_specs_are_what_the_outside_crate_reads() {
    let chars = ['a', '[', ']', ':', '/', '\n', 'é', '\\', '.', '='];
    let mut words = vec![String::new()];
    for _ in 0..4 {
        let longer = words.iter().flat_map(|word| chars.map(|c| format!("{word}{c}")));
        words = longer.chain(words.clone()).collect();
        words.sort();
        words.dedup();
    }
    for word in words {
        for text in [
            format!("{word}::b"),
            format!("{word}::b[fn=x]"),
            format!("b {word}"),
            format!("b[version={word}"),
        ] {
            match MatchSpec::read(&text) {
                Ok(spec) => {
                    let read = rattler_conda_types::MatchSpec::from_str(&text).unwrap();
                    assert_eq!(spec.version, read.version.map(|v| v.to_string()));
                    assert_eq!(
                        spec.channel.map(|c| (c.base_url, c.name)),
                        read.channel.map(|c| (c.base_url.to_string(), c.name.clone()))
                    );
                }
                Err(MatchSpecError::Invalid(reason)) => {
                    let read = rattler_conda_types::MatchSpec::from_str(&text);
                    assert_eq!(reason, read.unwrap_err().to_string());
                }
                Err(error) => assert_eq!(error, MatchSpecError::Unreadable),
            }
        }
    }
}

#[test]
fn lists_one_behind_the_other() {
    let a = || {
        vec![
            CondaEnvDep::Conda("/srv/tools/x::torchvision".to_string()),
            CondaEnvDep::Pip {
                pip: texts(&["requests"]),
            },
        ]
    };
    let b = || {
        vec![
            CondaEnvDep::Pip {
                pip: texts(&["torch"]),
            },
            CondaEnvDep::Conda("conda-forge::numpy".to_string()),
        ]
    };
    let first = parse_dependencies(a()).unwrap();
    let second = parse_dependencies(b()).unwrap();
    let both = parse_dependencies(a().into_iter().chain(b()).collect()).unwrap();
    let conda_deps: Vec<_> = first.conda_deps[..1]
        .iter()
        .chain(&second.conda_deps[..1])
        .map(|spec| spec.source.as_str())
        .chain(["pip"])
        .collect();
    let read: Vec<_> = both.conda_deps.iter().map(|spec| spec.source.as_str()).collect();
    assert_eq!(read, conda_deps);
    assert_eq!(both.pip_deps.len(), 2);
    assert!(both.pip_deps[0] == first.pip_deps[0] && both.pip_deps[1] == second.pip_deps[0]);
    assert_eq!(
        both.channels,
        vec![
            Channel::read("/srv/tools").unwrap(),
            Channel::read("conda-forge").unwrap()
        ]
    );
}

#[test]
fn pip_blocks_may_be_split() {
    let numpy = || CondaEnvDep::Conda("../tools/x::numpy".to_string());
    let one = parse_dependencies(vec![
        CondaEnvDep::Pip {
            pip: texts(&["requests", "torch"]),
        },
        numpy(),
    ]);
    let two = parse_dependencies(vec![
        CondaEnvDep::Pip {
            pip: texts(&["requests"]),
        },
        numpy(),
        CondaEnvDep::Pip {
            pip: texts(&["torch"]),
        },
    ]);
    assert_eq!(one.unwrap(), two.unwrap());
}

#[test]
fn channels_of_an_environment_file() {
    assert_eq!(
        parse_channels(texts(&["defaults", " conda-forge\t", "", "  ", "bioconda"])),
        texts(&["main", "r", "msys2", "conda-forge", "bioconda"])
    );
    assert_eq!(parse_channels(vec![]), Vec::<String>::new());
    assert_eq!(parse_channels(texts(&[" defaults "])), texts(&["defaults"]));
    let once = parse_channels(texts(&["a", "defaults", " b"]));
    assert_eq!(parse_channels(texts(&["a", "defaults", " b"])), once);
    assert_eq!(
        parse_channels(once),
        texts(&["a", "main", "r", "msys2", "b"])
    );
}

#[test]
fn joined_lists_of_channels() {
    let a = texts(&["defaults", "x"]);
    let b = texts(&[" y ", "defaults"]);
    let mut joined = a.clone();
    joined.extend(b.clone());
    let mut parts = parse_channels(a);
    parts.extend(parse_channels(b));
    assert_eq!(parse_channels(joined), parts);
}

#[test]
fn pip_is_added_only_for_python_packages() {
    let parsed = parse_dependencies(vec![CondaEnvDep::Conda("numpy".to_string())]).unwrap();
    assert_eq!(parsed.conda_deps, vec![MatchSpec::read("numpy").unwrap()]);
    assert!(parsed.pip_deps.is_empty());

    let parsed = parse_dependencies(vec![CondaEnvDep::Pip { pip: vec![] }]).unwrap();
    assert!(parsed.conda_deps.is_empty());

    let parsed = parse_dependencies(vec![
        CondaEnvDep::Pip {
            pip: texts(&["requests"]),
        },
        CondaEnvDep::Conda("numpy".to_string()),
    ])
    .unwrap();
    assert_eq!(
        parsed.conda_deps,
        vec![
            MatchSpec::read("numpy").unwrap(),
            MatchSpec::read("pip").unwrap()
        ]
    );
}

#[test]
fn the_first_dependency_that_is_not_taken_is_named() {
    let read = parse_dependencies(vec![
        CondaEnvDep::Conda("numpy".to_string()),
        CondaEnvDep::Pip {
            pip: texts(&["requests", "==1"]),
        },
        CondaEnvDep::Conda("python[version=".to_string()),
    ]);
    match read {
        Err(DependencyError::Pip(text, PipError::Requirement(reason))) => {
            assert_eq!(text, "==1");
            assert!(!reason.is_empty());
        }
        other => panic!("{other:?}"),
    }
    let read = parse_dependencies(vec![
        CondaEnvDep::Conda("python[version=".to_string()),
        CondaEnvDep::Conda("/tmp/a-1-0.conda".to_string()),
    ]);
    let error = read.unwrap_err();
    assert!(error.reason().is_some());
    assert!(matches!(
        error,
        DependencyError::Conda(_, MatchSpecError::Invalid(_))
    ));
    let read = parse_dependencies(vec![CondaEnvDep::Conda("/tmp/a-1-0.conda".to_string())]);
    let error = read.unwrap_err();
    assert_eq!(error.reason(), None);
    assert_eq!(
        error,
        DependencyError::Conda("/tmp/a-1-0.conda".to_string(), MatchSpecError::Unreadable)
    );
}
