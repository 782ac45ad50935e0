//! The two readers the readme check is built from: the package version out of
//! a manifest, and every version of this crate a readme tells a reader to
//! depend on.

/// The `version = "..."` of the `[package]` table, which is the first one.
fn package_version(manifest: &str) -> &str {
    let (_, rest) = manifest
        .split_once("\nversion = \"")
        .expect("the manifest has no version");
    rest.split_once('"').expect("the version is not closed").0
}

/// Every `renki = "..."` a readme names, in a dependency block or in prose.
fn versions_the_readme_names(readme: &str) -> Vec<&str> {
    let mut out = Vec::new();
    let mut rest = readme;
    while let Some(at) = rest.find("renki = \"") {
        let tail = &rest[at + "renki = \"".len()..];
        let (v, after) = tail.split_once('"').expect("an unclosed version");
        out.push(v);
        rest = after;
    }
    out
}

#[test]
fn the_checks_above_can_fail() {
    assert_eq!(
        package_version("\nversion = \"9.9.9\"\nname = \"x\"\n"),
        "9.9.9"
    );
    assert_eq!(
        versions_the_readme_names("a\nrenki = \"1.2\"\nb\nrenki = \"3.4\"\n"),
        vec!["1.2", "3.4"]
    );
    assert!(versions_the_readme_names("nothing here").is_empty());
}
