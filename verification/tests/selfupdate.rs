use renki::selfupdate::{
    installed_source_from, may_check, parse_git_branch_spec, recently_checked, reinstall_args,
    InstalledSource, SELF_UPDATE_TTL_SECS,
};
use renki::tool::{SelfUpdate, Tool};

fn src(url: &str, branch: &str, rev: &str) -> InstalledSource {
    InstalledSource {
        url: url.into(),
        branch: branch.into(),
        rev: rev.into(),
    }
}

#[test]
fn a_branch_install_spec_reads_url_branch_and_rev() {
    assert_eq!(
        parse_git_branch_spec("git+https://e.invalid/x.git?branch=dev#abc123"),
        Some(src("https://e.invalid/x.git", "dev", "abc123"))
    );
    assert_eq!(
        parse_git_branch_spec("git+https://e.invalid/x.git?rev=1&branch=main#ff"),
        Some(src("https://e.invalid/x.git", "main", "ff"))
    );
}

#[test]
fn anything_but_a_branch_install_is_not_one() {
    assert_eq!(parse_git_branch_spec("registry+https://github.com/rust-lang/crates.io-index"), None);
    assert_eq!(parse_git_branch_spec("git+https://e.invalid/x.git#abc"), None);
    assert_eq!(parse_git_branch_spec("git+https://e.invalid/x.git?tag=v1#abc"), None);
    assert_eq!(parse_git_branch_spec("git+https://e.invalid/x.git?branch=#abc"), None);
    assert_eq!(parse_git_branch_spec("git+https://e.invalid/x.git?branch=dev#"), None);
}

#[test]
fn the_launchers_own_entry_is_found_in_the_install_record() {
    let crates = "[v1]\n\
        \"other 1.0.0 (registry+https://github.com/rust-lang/crates.io-index)\" = [\"other\"]\n\
        \"cargo-widget 0.1.0 (git+https://e.invalid/w.git?branch=dev#abc123)\" = [\"cargo-widget\"]\n";
    assert_eq!(
        installed_source_from("cargo-widget", crates),
        Some(src("https://e.invalid/w.git", "dev", "abc123"))
    );
    assert_eq!(installed_source_from("other", crates), None);
    assert_eq!(installed_source_from("cargo-wid", crates), None);
}

#[test]
fn an_unreadable_install_record_names_no_source() {
    assert_eq!(installed_source_from("x", "this is not toml {{{"), None);
    assert_eq!(installed_source_from("x", ""), None);
}

#[test]
fn a_check_within_the_hour_is_recent() {
    assert!(recently_checked(Some("1000\n"), 1000 + SELF_UPDATE_TTL_SECS - 1));
    assert!(!recently_checked(Some("1000"), 1000 + SELF_UPDATE_TTL_SECS));
    assert!(recently_checked(Some("5000"), 1000));
    assert!(!recently_checked(Some("soon"), 1000));
    assert!(!recently_checked(None, 1000));
}

#[test]
fn only_a_branch_chasing_install_the_user_did_not_opt_out_of_checks() {
    let chase = Tool {
        self_update: SelfUpdate::ChaseTheBranch,
        ..Tool::conventions()
    };
    let never = Tool {
        self_update: SelfUpdate::Never,
        ..Tool::conventions()
    };
    assert!(may_check(&chase, false, true));
    assert!(!may_check(&chase, true, true));
    assert!(!may_check(&chase, false, false));
    assert!(!may_check(&never, false, true));
}

#[test]
fn the_reinstall_is_forced_from_the_same_branch() {
    let t = Tool {
        launcher_crate: "cargo-widget",
        ..Tool::conventions()
    };
    assert_eq!(
        reinstall_args(&t, "https://e.invalid/w.git", "dev"),
        vec!["install", "--git", "https://e.invalid/w.git", "--branch", "dev", "cargo-widget", "--force"]
    );
}

#[test]
fn an_update_is_needed_only_when_the_head_moved() {
    let s = src("https://e.invalid/w.git", "dev", "abc123");
    assert!(!renki::selfupdate::update_needed(&s, "abc123"));
    assert!(renki::selfupdate::update_needed(&s, "def456"));
}
