use renki::cache::{
    build_failure, cache_root_from, compute_key, engine_command_line, root_from, Kind, Platform,
};
use renki::tool::{PinKeys, Tool};

fn t() -> Tool {
    Tool {
        short: "t",
        config_file: "t.toml",
        pin_keys: PinKeys {
            version: "t_version",
            rev: "t_rev",
            tag: "t_tag",
            branch: "t_branch",
            git: "t_git",
        },
        engine_crate: "engine",
        cache_namespace: "tns",
        default_url: "u",
        launcher_crate: "t-launcher",
        ..Tool::conventions()
    }
}

fn some(s: &str) -> Option<String> {
    Some(s.to_string())
}

#[test]
fn the_build_failure_names_every_cause_including_the_toolchain() {
    let msg = build_failure(
        t().engine_crate,
        &["a failed".to_string(), "b failed".to_string()],
        "rustc 1.80.0 (051478957 2024-07-21)",
    );
    assert!(msg.contains("engine"), "{msg}");
    assert!(
        msg.contains("a failed") && msg.contains("b failed"),
        "{msg}"
    );
    for cause in [
        "pin may be wrong",
        "release may not exist",
        "build may have broken",
        "commit no lockfile",
    ] {
        assert!(msg.contains(cause), "missing `{cause}`: {msg}");
    }
    assert!(msg.contains("toolchain in effect"), "{msg}");
    assert!(
        msg.contains("rustc ") || msg.contains("no rustc on PATH"),
        "the toolchain is named as a cause but never identified: {msg}"
    );
    assert!(
        !msg.contains("()"),
        "an empty version left empty brackets: {msg}"
    );
}

#[test]
fn the_failures_are_listed_one_per_line_in_order() {
    let msg = build_failure("engine", &["a failed".to_string(), "b failed".to_string()], "no rustc on PATH");
    assert!(msg.contains("tried, in order:\n    - a failed\n    - b failed\n"), "{msg}");
    assert!(msg.contains("(no rustc on PATH)"), "{msg}");
}

#[test]
fn the_engine_is_handed_the_tools_own_directory_flag() {
    let at = Tool {
        dir_flag: "--at",
        ..t()
    };
    let argv = engine_command_line(&at, "/w", &[], &[]);
    assert_eq!(argv[1], "--at");
    assert!(!argv.contains(&"--dir".to_string()), "the conventional flag reached a tool that named its own: {argv:?}");
    assert_eq!(argv[2], "/w");
}

#[test]
fn the_engine_is_told_it_is_the_launcher_and_not_the_binary_on_disk() {
    let argv = engine_command_line(&t(), "/w", &[], &[]);
    assert_eq!(argv[0], "t");
    let other = Tool {
        engine_crate: "other",
        ..t()
    };
    let argv = engine_command_line(&other, "/w", &[], &[]);
    assert_eq!(argv[0], "t", "the engine's own package name reached argv[0]");
}

#[test]
fn the_directory_leads_and_the_hooks_arguments_precede_the_users() {
    let argv = engine_command_line(
        &t(),
        "/w",
        &["--dep".to_string(), "{ path = \"x\" }".to_string()],
        &["lock".to_string()],
    );
    assert_eq!(argv, vec!["t", "--dir", "/w", "--dep", "{ path = \"x\" }", "lock"]);
}

#[test]
fn the_cache_root_prefers_xdg_and_falls_back_to_home() {
    let r = cache_root_from(&t(), None, some("/x/cache"), some("/home/u")).unwrap();
    assert_eq!(r, "/x/cache/tns");

    let r = cache_root_from(&t(), None, None, some("/home/u")).unwrap();
    assert_eq!(r, "/home/u/.cache/tns");
    let r = cache_root_from(&t(), None, some(""), some("/home/u")).unwrap();
    assert_eq!(r, "/home/u/.cache/tns");
}

#[test]
fn the_tools_own_cache_variable_wins_and_is_the_whole_path() {
    let r = cache_root_from(&t(), some("/mnt/big"), some("/x/cache"), some("/home/u")).unwrap();
    assert_eq!(
        r, "/mnt/big",
        "the namespace was appended to a path that already names this tool's cache"
    );

    let r = cache_root_from(&t(), some("/mnt/big"), None, some("/home/u")).unwrap();
    assert_eq!(r, "/mnt/big");

    let r = cache_root_from(&t(), some(""), None, some("/home/u")).unwrap();
    assert_eq!(r, "/home/u/.cache/tns");

    assert_eq!(t().cache_env(), "T_CACHE");
    let other = Tool {
        short: "widget",
        ..t()
    };
    assert_eq!(other.cache_env(), "WIDGET_CACHE");
}

#[test]
fn two_tools_never_share_a_cache_root() {
    let other = Tool {
        cache_namespace: "another",
        ..t()
    };
    let a = cache_root_from(&t(), None, some("/x"), None).unwrap();
    let b = cache_root_from(&other, None, some("/x"), None).unwrap();
    assert_ne!(a, b);
}

#[test]
fn no_home_and_no_xdg_is_an_error_rather_than_a_guess() {
    assert!(cache_root_from(&t(), None, None, None).is_err());
}

#[test]
fn the_state_root_has_its_own_table() {
    assert_eq!(
        root_from(Kind::State, Platform::Xdg, &t(), None, None, some("/home/u")).unwrap(),
        "/home/u/.local/state/tns"
    );
    assert_eq!(
        root_from(Kind::State, Platform::MacOs, &t(), None, None, some("/Users/u")).unwrap(),
        "/Users/u/Library/Application Support/tns/state"
    );
    assert_eq!(
        root_from(Kind::Cache, Platform::MacOs, &t(), None, None, some("/Users/u")).unwrap(),
        "/Users/u/Library/Caches/tns"
    );
    assert_eq!(
        root_from(Kind::State, Platform::MacOs, &t(), None, some("/x/state"), some("/Users/u")).unwrap(),
        "/x/state/tns"
    );
    let e = root_from(Kind::State, Platform::Xdg, &t(), None, None, None).unwrap_err();
    assert!(e.contains("XDG_STATE_HOME"), "{e}");
}

#[test]
fn a_namespace_that_is_not_a_directory_name_is_refused() {
    for bad in ["", ".", "..", "a/b", "a\\b"] {
        let tool = Tool {
            cache_namespace: bad,
            ..t()
        };
        let e = cache_root_from(&tool, None, some("/x"), None).unwrap_err();
        assert!(e.contains("is not a directory name"), "{bad:?}: {e}");
    }
    let tool = Tool {
        cache_namespace: "a/b",
        ..t()
    };
    let e = cache_root_from(&tool, None, some("/x"), None).unwrap_err();
    assert!(e.contains("\"a/b\""), "{e}");
    assert!(e.ends_with("HasSeparator"), "{e}");
}

#[test]
fn the_key_is_deterministic_and_sensitive_to_every_input() {
    let a = compute_key("u", "r1", "tc");
    assert_eq!(a, compute_key("u", "r1", "tc"));
    assert_ne!(a, compute_key("u", "r2", "tc"));
    assert_ne!(a, compute_key("v", "r1", "tc"));
    assert_ne!(a, compute_key("u", "r1", "tc2"));
    assert_eq!(a.len(), 16);
}

#[test]
fn two_namespaces_under_one_home_are_two_roots_on_every_table() {
    let other = Tool {
        cache_namespace: "tns2",
        ..t()
    };
    for (kind, platform) in [
        (Kind::Cache, Platform::Xdg),
        (Kind::State, Platform::Xdg),
        (Kind::Cache, Platform::MacOs),
        (Kind::State, Platform::MacOs),
    ] {
        let a = root_from(kind, platform, &t(), None, None, some("/home/u")).unwrap();
        let b = root_from(kind, platform, &other, None, None, some("/home/u")).unwrap();
        assert_ne!(a, b);
    }
}

#[test]
fn a_nul_inside_a_field_is_the_one_way_two_keys_run_together() {
    // The separator is a NUL byte, so a field that itself holds a NUL can end
    // where the next one begins.
    assert_eq!(compute_key("a\0", "", "x"), compute_key("a", "\0", "x"));
    assert_ne!(compute_key("ab", "c", "x"), compute_key("a", "bc", "x"));
}
