use pixi_init::manifest::{choose_platforms, project_platforms, Manifest};

fn texts(items: &[&str]) -> Vec<String> {
    items.iter().map(|item| item.to_string()).collect()
}

fn manifest(author: Option<(&str, &str)>, channels: &[&str], platforms: &[&str]) -> Manifest {
    Manifest {
        name: "example".to_string(),
        version: "0.1.0".to_string(),
        author: author.map(|(name, mail)| (name.to_string(), mail.to_string())),
        channels: texts(channels),
        platforms: texts(platforms),
    }
}

#[test]
fn a_manifest_with_an_author() {
    let text = manifest(
        Some(("Jane Doe", "jane@example.com")),
        &["conda-forge", "pytorch"],
        &["linux-64", "osx-arm64"],
    )
    .render();
    assert_eq!(
        text,
        r#"[project]
name = "example"
version = "0.1.0"
description = "Add a short description here"
authors = ["Jane Doe <jane@example.com>"]
channels = ["conda-forge", "pytorch"]
platforms = ["linux-64", "osx-arm64"]

[tasks]

[dependencies]
"#
    );
}

#[test]
fn a_manifest_without_an_author_and_channels() {
    let text = manifest(None, &[], &["win-64"]).render();
    assert_eq!(
        text,
        r#"[project]
name = "example"
version = "0.1.0"
description = "Add a short description here"
channels = []
platforms = ["win-64"]

[tasks]

[dependencies]
"#
    );
}

#[test]
fn nothing_in_a_manifest_is_escaped() {
    let mut odd = manifest(Some(("<a> & \"b\"", "")), &["{{ name }}"], &["é\n"]);
    odd.name = "x{% if %}y".to_string();
    assert_eq!(
        odd.render(),
        "[project]\nname = \"x{% if %}y\"\nversion = \"0.1.0\"\n\
         description = \"Add a short description here\"\n\
         authors = [\"<a> & \"b\" <>\"]\nchannels = [\"{{ name }}\"]\n\
         platforms = [\"é\n\"]\n\n[tasks]\n\n[dependencies]\n"
    );
}

#[test]
fn empty_items_in_front_of_a_list_leave_no_trace() {
    for (channels, line) in [
        (vec!["", "a", "b"], "channels = [\"a\", \"b\"]\n"),
        (vec!["a", "", "b"], "channels = [\"a\", \"\", \"b\"]\n"),
        (vec!["", ""], "channels = [\"\"]\n"),
    ] {
        let text = manifest(None, &channels, &[]).render();
        assert!(text.contains(line));
        assert!(text.contains("platforms = [\"\"]\n"));
    }
}

#[test]
fn platforms_default_to_the_current_one() {
    let asked = texts(&["b", "a"]);
    assert_eq!(
        choose_platforms(asked.clone(), "c".to_string()),
        texts(&["b", "a"])
    );
    assert_eq!(choose_platforms(vec![], "c".to_string()), texts(&["c"]));
    assert_eq!(project_platforms(asked.clone()), asked);
    assert_eq!(
        project_platforms(vec![]),
        vec![rattler_conda_types::Platform::current().to_string()]
    );
}
