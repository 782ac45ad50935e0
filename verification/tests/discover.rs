use renki::discover::{choose_config, lex_le_exec, no_root_with, scan_order};
use renki::tool::{Anchor, PinKeys, Tool, Workdir, CONVENTIONAL_SKIP};

fn repo() -> Tool {
    Tool {
        anchor: Anchor::Marker(".git"),
        short: "widget",
        config_file: "t.toml",
        pin_keys: PinKeys {
            version: "t_version",
            rev: "t_rev",
            tag: "t_tag",
            branch: "t_branch",
            git: "t_git",
        },
        engine_crate: "engine",
        cache_namespace: "t",
        default_url: "u",
        launcher_crate: "t-launcher",
        workdir: Some(Workdir {
            key: "work_dir",
            root_default: "work",
        }),
        ..Tool::conventions()
    }
}

fn s(v: &[&str]) -> Vec<String> {
    v.iter().map(|x| x.to_string()).collect()
}

#[test]
fn discover_tests_the_missing_root_message_names_what_was_looked_for() {
    let m = no_root_with(&repo(), None);
    assert!(m.contains(".git"), "{m}");
    assert!(m.contains("WIDGET_ROOT"), "{m}");

    let span = Tool {
        anchor: Anchor::ConfigFile,
        short: "widget",
        ..repo()
    };
    let m = no_root_with(&span, None);
    assert!(m.contains("t.toml"), "{m}");
    assert!(!m.contains(".git"), "{m}");
    assert!(m.contains("WIDGET_ROOT"), "{m}");
}

#[test]
fn discover_tests_the_refusal_says_whether_the_override_was_set() {
    let unset = no_root_with(&repo(), None);
    assert!(unset.contains("WIDGET_ROOT is unset"), "{unset}");
    assert!(unset.contains(".git"), "{unset}");

    let set = no_root_with(&repo(), Some("/nope/xyzzy".into()));
    assert!(set.contains("/nope/xyzzy"), "{set}");
    assert!(set.contains("not a directory"), "{set}");
    assert!(!set.contains("is unset"), "the set case still claims unset: {set}");
}

#[test]
fn discover_tests_the_refusal_names_the_anchor_the_tool_actually_looks_for() {
    let span = Tool {
        anchor: Anchor::ConfigFile,
        ..repo()
    };
    let m = no_root_with(&span, None);
    assert!(m.contains(repo().config_file), "{m}");
    assert!(!m.contains(".git"), "{m}");
}

#[test]
fn the_whole_refusal_reads_as_one_sentence() {
    assert_eq!(
        no_root_with(&repo(), None),
        "no .git found in this directory or any above it, and WIDGET_ROOT is unset"
    );
    assert_eq!(
        no_root_with(&repo(), Some("/x".into())),
        "no .git found in this directory or any above it. WIDGET_ROOT is set to /x, \
         which is not a directory, so it was ignored"
    );
}

#[test]
fn no_config_is_not_an_error() {
    assert_eq!(choose_config("t.toml", &[]), Ok(None));
}

#[test]
fn one_config_is_the_repos() {
    assert_eq!(choose_config("t.toml", &s(&["/r/t.toml"])), Ok(Some(0)));
}

#[test]
fn two_configs_in_scope_is_an_error_naming_both() {
    let err = choose_config("t.toml", &s(&["/r/t.toml", "/r/sub/t.toml"])).unwrap_err();
    assert!(err.contains("more than one t.toml"), "{err}");
    assert!(err.ends_with(":\n  /r/t.toml\n  /r/sub/t.toml"), "{err}");
}

#[test]
fn hidden_directories_are_scanned_first_and_each_group_is_sorted() {
    let (hidden, plain) = scan_order(s(&["zeta", ".hid", "alpha", "target", ".git", ".a"]), &CONVENTIONAL_SKIP);
    assert_eq!(hidden, s(&[".a", ".hid"]));
    assert_eq!(plain, s(&["alpha", "zeta"]));
}

#[test]
fn nothing_to_scan_is_two_empty_groups() {
    let (hidden, plain) = scan_order(Vec::new(), &[]);
    assert!(hidden.is_empty() && plain.is_empty());
}

#[test]
fn the_order_is_bytewise() {
    assert!(lex_le_exec("B", "a"));
    assert!(lex_le_exec("a", "ab"));
    assert!(lex_le_exec("a", "a"));
    assert!(!lex_le_exec("b", "a"));
}
