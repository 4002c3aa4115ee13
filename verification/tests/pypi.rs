use pixi_init::pypi::{
    accept, read_pip_entry, PackageName, PipError, PyPiRequirement, Requirement, VersionOrUrl,
};

fn requirement(name: &str) -> Requirement {
    Requirement {
        name: name.to_string(),
        extras: None,
        version_or_url: None,
    }
}

#[test]
fn package_names_are_normalized() {
    let (name, _) = read_pip_entry("Ruamel.Yaml_clib").unwrap();
    assert_eq!(name.source, "Ruamel.Yaml_clib");
    assert_eq!(name.normalized, "ruamel-yaml-clib");
    let (again, _) = read_pip_entry(&name.normalized).unwrap();
    assert_eq!(again.normalized, name.normalized);
    assert!(again == name);
    let other = PackageName {
        source: "other".to_string(),
        normalized: "other".to_string(),
    };
    assert!(other != name);
}

#[test]
fn the_first_and_longest_repository_name_counts() {
    for (entry, name) in [
        ("git+https://github.com/a/b.git", "b"),
        ("git+https://git@github.com/a/DeepOBS.git@develop#egg=x", "DeepOBS"),
        ("git+ssh://git@host/a.git/b.git", "a"),
        ("https://host/a.git.git", "a.git"),
        ("https://host/.git/b.git", "b"),
        ("https://host/a.github/b", "a"),
    ] {
        let (read, record) = read_pip_entry(entry).unwrap();
        assert_eq!(read.source, name);
        assert_eq!(
            record,
            PyPiRequirement {
                version: None,
                extras: None,
                index: None,
            }
        );
    }
}

#[test]
fn requirements_are_recorded() {
    let (name, record) = read_pip_entry("requests[security,socks] >=2.8.1, ==2.8.*").unwrap();
    assert_eq!(name.source, "requests");
    assert_eq!(record.version, Some(">=2.8.1, ==2.8.*".to_string()));
    assert_eq!(
        record.extras,
        Some(vec!["security".to_string(), "socks".to_string()])
    );
    assert_eq!(record.index, None);
    let (_, record) = read_pip_entry("pip @ https://example.com/pip.zip").unwrap();
    assert_eq!(record.version, None);
}

#[test]
fn entries_that_are_not_taken() {
    assert!(matches!(
        read_pip_entry("==1"),
        Err(PipError::Requirement(_))
    ));
    assert!(matches!(read_pip_entry(""), Err(PipError::Requirement(_))));
    assert!(matches!(
        read_pip_entry(&"(".repeat(1_000)),
        Err(PipError::Requirement(_))
    ));
}

#[test]
fn markers_beyond_the_limit_are_refused() {
    let nested = |n: usize, group: &str| {
        format!("a ;{}os_name == 'x'{}", group.repeat(n), ")".repeat(n))
    };
    for group in ["(", "( os_name == ')' and (os_name == \"'\") or "] {
        assert_eq!(
            read_pip_entry(&nested(129, group)),
            Err(PipError::Unreadable)
        );
    }
    assert_eq!(
        read_pip_entry(&nested(129, "(").replace("a ;", "a @ https://b;c ;")),
        Err(PipError::Unreadable)
    );
    for (n, group) in [(128, "("), (127, "(os_name == ')' and (os_name == \"'\") or ")] {
        assert_eq!(read_pip_entry(&nested(n, group)).unwrap().0.source, "a");
    }
}

#[test]
fn only_nested_groups_are_limited() {
    let parens = "(".repeat(1_000);
    let flat = "(os_name == 'x') and ".repeat(1_000);
    for entry in [
        format!("a @ https://example.com/{parens}"),
        format!("a @ https://example.com/;{parens}"),
        format!("a; {flat}os_name == '{parens}'"),
        format!("a @ https://example.com/;' ; {flat}os_name == \"{parens}\""),
    ] {
        assert_eq!(read_pip_entry(&entry).unwrap().0.source, "a");
    }
}

#[test]
fn a_requirement_on_no_package_is_refused() {
    assert_eq!(
        accept(requirement("-x")),
        Err(PipError::PackageName("invalid package name '-x'".to_string()))
    );
    let (name, record) = accept(Requirement {
        version_or_url: Some(VersionOrUrl::VersionSpecifier("==1.0".to_string())),
        ..requirement("Foo.Bar")
    })
    .unwrap();
    assert_eq!(name.normalized, "foo-bar");
    assert_eq!(record.version, Some("==1.0".to_string()));
    let (_, record) = accept(Requirement {
        version_or_url: Some(VersionOrUrl::Url("https://example.com/".to_string())),
        ..requirement("a")
    })
    .unwrap();
    assert_eq!(record.version, None);
}
