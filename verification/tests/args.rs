use renki::args::{is_the_locate_query, normalize_args, strip_dir_flag};
use renki::tool::{Anchor, Cli, Locate, PinKeys, Tool};

fn t() -> Tool {
    Tool {
        anchor: Anchor::Marker(".git"),
        short: "widget",
        config_file: "t.toml",
        pin_keys: PinKeys {
            version: "t_version",
            rev: "t_rev",
            tag: "t_tag",
            branch: "t_branch",
            git: "t_git",
        },
        engine_crate: "engine",
        engine_bin: None,
        cache_namespace: "t",
        default_url: "u",
        launcher_crate: "cargo-widget",
        workdir: None,
        dir_flag: Cli::DIR_FLAG,
        engine_flag: Cli::ENGINE_FLAG,
        locate: Locate::default(),
        ..Tool::conventions()
    }
}

fn s(v: &[&str]) -> Vec<String> {
    v.iter().map(|x| (*x).to_string()).collect()
}

#[test]
fn a_direct_invocation_forwards_everything() {
    assert_eq!(
        normalize_args(&t(), &s(&["/usr/bin/mock", "lock", "--foo"])),
        s(&["lock", "--foo"])
    );
}

#[test]
fn a_cargo_subcommand_drops_the_repeated_name() {
    assert_eq!(
        normalize_args(
            &t(),
            &s(&["/root/.cargo/bin/cargo-widget", "widget", "lock", "--foo"])
        ),
        s(&["lock", "--foo"])
    );
    assert_eq!(
        normalize_args(&t(), &s(&["cargo-widget", "widget"])),
        Vec::<String>::new()
    );
}

#[test]
fn a_repeated_name_is_dropped_only_when_it_is_the_cargo_shape() {
    assert_eq!(
        normalize_args(&t(), &s(&["/usr/bin/mock", "mock"])),
        s(&["mock"])
    );
    assert_eq!(
        normalize_args(&t(), &s(&["cargo-mock", "lock"])),
        s(&["lock"])
    );
    assert_eq!(
        normalize_args(&t(), &s(&["cargo-mock", "other", "lock"])),
        s(&["other", "lock"])
    );
}

#[test]
fn a_user_supplied_dir_flag_is_stripped() {
    assert_eq!(
        normalize_args(
            &t(),
            &s(&["widget", "check", "--dir", "/somewhere", "--scope", "x"])
        ),
        s(&["check", "--scope", "x"])
    );
}

#[test]
fn the_joined_dir_flag_is_stripped_too() {
    assert_eq!(
        normalize_args(
            &t(),
            &s(&["widget", "check", "--dir=/somewhere", "--scope", "x"])
        ),
        s(&["check", "--scope", "x"])
    );
    let other = Tool {
        dir_flag: "--at",
        ..t()
    };
    assert_eq!(
        normalize_args(&other, &s(&["widget", "check", "--at=/somewhere"])),
        s(&["check"])
    );
    assert_eq!(
        normalize_args(&other, &s(&["widget", "check", "--dir=/somewhere"])),
        s(&["check", "--dir=/somewhere"]),
        "a flag the tool did not choose was stripped anyway"
    );
}

#[test]
fn a_dir_flag_with_no_value_is_dropped_and_takes_nothing_with_it() {
    assert_eq!(
        normalize_args(&t(), &s(&["widget", "check", "--dir", "--scope", "x"])),
        s(&["check", "--scope", "x"])
    );
}

#[test]
fn the_locate_query_needs_a_subcommand_to_ask_it_with() {
    let no_query = Locate {
        subcommand: None,
        ..Locate::default()
    };
    assert!(
        !is_the_locate_query(&no_query, &s(&[])),
        "a tool with no locate subcommand answered the query on a bare run"
    );
    assert!(!is_the_locate_query(&no_query, &s(&["locate"])));
    assert!(!is_the_locate_query(&no_query, &s(&["lock"])));

    assert!(is_the_locate_query(&Locate::default(), &s(&["locate"])));
    assert!(!is_the_locate_query(&Locate::default(), &s(&[])));
    assert!(!is_the_locate_query(&Locate::default(), &s(&["lock"])));

    let renamed = Locate {
        subcommand: Some("where"),
        ..Locate::default()
    };
    assert!(is_the_locate_query(&renamed, &s(&["where"])));
    assert!(!is_the_locate_query(&renamed, &s(&["locate"])));
}

#[test]
fn no_program_name_at_all_forwards_nothing() {
    assert_eq!(normalize_args(&t(), &[]), Vec::<String>::new());
}

#[test]
fn a_program_name_ending_in_a_separator_is_still_read() {
    // `Path::file_name` skips a trailing separator, so `cargo-widget/` is still
    // the cargo shape.
    assert_eq!(
        normalize_args(&t(), &s(&["/bin/cargo-widget/", "widget", "x"])),
        s(&["x"])
    );
}

#[test]
fn stripping_the_directory_flag_keeps_everything_after_a_double_dash() {
    assert_eq!(
        strip_dir_flag(s(&["a", "--dir", "/x", "--", "--dir", "/y"]), "--dir"),
        s(&["a", "--", "--dir", "/y"])
    );
}
