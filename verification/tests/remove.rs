use pixi_init::remove::{removals, report, spec_type, Args, Line, Outcome, Removal, SpecType};

fn args(host: bool, build: bool, platform: Option<&str>) -> Args {
    Args {
        deps: vec!["b".to_string(), "a".to_string()],
        host,
        build,
        platform: platform.map(str::to_string),
    }
}

fn plain(text: &str) -> Line {
    Line {
        text: text.to_string(),
        bold: None,
    }
}

fn removed(name: &str, spec: &str) -> Outcome {
    Ok((name.to_string(), spec.to_string()))
}

#[test]
fn dependencies_are_removed_as_what_was_asked_for() {
    assert_eq!(spec_type(false, false), SpecType::Run);
    assert_eq!(spec_type(true, false), SpecType::Host);
    assert_eq!(spec_type(false, true), SpecType::Build);
    assert_eq!(spec_type(true, true), SpecType::Host);
}

#[test]
fn each_dependency_is_removed_once_and_in_order() {
    assert_eq!(
        removals(&args(false, true, Some("linux-64"))),
        vec![
            Removal {
                name: "b".to_string(),
                spec_type: SpecType::Build,
                platform: Some("linux-64".to_string()),
            },
            Removal {
                name: "a".to_string(),
                spec_type: SpecType::Build,
                platform: Some("linux-64".to_string()),
            },
        ]
    );
    assert_eq!(removals(&args(false, false, None))[0].platform, None);
}

#[test]
fn what_was_removed_is_said_first_and_what_failed_last() {
    let results = vec![
        Err("no b".to_string()),
        removed("a", "1.*"),
        Err("no c".to_string()),
        removed("d", "*"),
    ];
    assert_eq!(
        report(&args(true, false, Some("osx-64")), &results),
        vec![
            plain("Removed a 1.*"),
            plain("Removed d *"),
            plain("Removed these as host dependencies."),
            Line {
                text: "Removed these only for platform: ".to_string(),
                bold: Some("osx-64".to_string()),
            },
            plain("no b"),
            plain("no c"),
        ]
    );
}

#[test]
fn nothing_is_said_of_run_dependencies_for_all_platforms() {
    assert_eq!(report(&args(false, false, None), &vec![]), vec![]);
    assert_eq!(
        report(&args(false, true, None), &vec![]),
        vec![plain("Removed these as build dependencies.")]
    );
}
