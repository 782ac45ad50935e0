use renki::engine::{is_older, is_stale, scratch_dir, scratch_root, take_flag, Flag};

fn strings(args: &[&str]) -> Vec<String> {
    args.iter().map(|s| s.to_string()).collect()
}

#[test]
fn the_flag_is_taken_out_of_the_forwarded_arguments() {
    let (path, rest) = take_flag(
        strings(&["lock", "--engine", "/tmp/e", "--verbose"]),
        "--engine",
    );
    assert_eq!(path, Flag::Value("/tmp/e".into()));
    assert_eq!(rest, strings(&["lock", "--verbose"]));
}

#[test]
fn the_joined_form_is_the_same_flag() {
    let (path, rest) = take_flag(strings(&["--engine=/tmp/e", "close"]), "--engine");
    assert_eq!(path, Flag::Value("/tmp/e".into()));
    assert_eq!(rest, strings(&["close"]));
}

#[test]
fn a_run_without_the_flag_is_untouched() {
    let (path, rest) = take_flag(strings(&["lock", "--verbose"]), "--engine");
    assert_eq!(path, Flag::Absent);
    assert_eq!(rest, strings(&["lock", "--verbose"]));
}

#[test]
fn a_trailing_flag_with_no_value_takes_nothing() {
    let (path, rest) = take_flag(strings(&["lock", "--engine"]), "--engine");
    assert_eq!(
        path,
        Flag::Missing,
        "a value was invented for a flag that had none, or its absence was \
         reported as the flag never having been passed"
    );
    assert_eq!(rest, strings(&["lock"]));
}

#[test]
fn a_flag_with_another_flag_after_it_is_missing_its_value_rather_than_absent() {
    let (never, rest) = take_flag(strings(&["lock", "--verbose"]), "--engine");
    let (empty, rest2) = take_flag(strings(&["lock", "--engine", "--verbose"]), "--engine");
    assert_eq!(never, Flag::Absent);
    assert_eq!(empty, Flag::Missing);
    assert_ne!(never, empty, "the two cases collapsed back into one");
    assert_eq!(rest, strings(&["lock", "--verbose"]));
    assert_eq!(rest2, strings(&["lock", "--verbose"]));
}

#[test]
fn the_joined_form_with_nothing_after_it_is_missing_rather_than_empty() {
    let (path, rest) = take_flag(strings(&["lock", "--engine="]), "--engine");
    assert_eq!(path, Flag::Missing);
    assert_eq!(rest, strings(&["lock"]));

    let (real, _) = take_flag(strings(&["lock", "--engine=/tmp/e"]), "--engine");
    assert_eq!(real, Flag::Value("/tmp/e".into()));
}

#[test]
fn nothing_after_the_users_double_dash_belongs_to_the_launcher() {
    for flag in ["--engine", "--dir"] {
        let (found, rest) = take_flag(strings(&["run", "--", flag, "/x"]), flag);
        assert_eq!(found, Flag::Absent, "{flag} was taken from after `--`");
        assert_eq!(rest, strings(&["run", "--", flag, "/x"]));

        let joined = format!("{flag}=/x");
        let (found, rest) = take_flag(strings(&["run", "--", &joined]), flag);
        assert_eq!(found, Flag::Absent, "{flag}= was taken from after `--`");
        assert_eq!(rest, strings(&["run", "--", &joined]));
    }

    let (found, rest) = take_flag(
        strings(&["run", "--engine", "/x", "--", "--engine", "/y"]),
        "--engine",
    );
    assert_eq!(found, Flag::Value("/x".into()));
    assert_eq!(rest, strings(&["run", "--", "--engine", "/y"]));

    let (found, rest) = take_flag(strings(&["run", "--engine", "--", "x"]), "--engine");
    assert_eq!(found, Flag::Missing);
    assert_eq!(rest, strings(&["run", "--", "x"]));
}

#[test]
fn value_collapses_missing_into_absent_and_nothing_else() {
    assert_eq!(Flag::Absent.value(), None);
    assert_eq!(Flag::Missing.value(), None);
    assert_eq!(Flag::Value("x".into()).value().as_deref(), Some("x"));
}

#[test]
fn a_flag_passed_twice_takes_the_last_one_and_leaves_neither_behind() {
    let (path, rest) = take_flag(
        strings(&["lock", "--engine", "/tmp/first", "--engine", "/tmp/second"]),
        "--engine",
    );
    assert_eq!(path, Flag::Value("/tmp/second".into()));
    assert_eq!(rest, strings(&["lock"]));

    let (mixed, rest) = take_flag(
        strings(&["--engine=/tmp/first", "lock", "--engine", "/tmp/second"]),
        "--engine",
    );
    assert_eq!(mixed, Flag::Value("/tmp/second".into()));
    assert_eq!(rest, strings(&["lock"]));

    let (last_empty, rest) = take_flag(strings(&["--engine=/tmp/first", "--engine="]), "--engine");
    assert_eq!(last_empty, Flag::Missing);
    assert!(rest.is_empty());
}

#[test]
fn taking_the_flag_twice_finds_nothing_the_second_time() {
    let (_, once) = take_flag(
        strings(&["a", "--engine", "/x", "b", "--engine=/y", "--", "--engine", "z"]),
        "--engine",
    );
    let (again, twice) = take_flag(once.clone(), "--engine");
    assert_eq!(again, Flag::Absent);
    assert_eq!(twice, once);
    assert_eq!(once, strings(&["a", "b", "--", "--engine", "z"]));
}

#[test]
fn scratch_builds_live_under_their_own_directory_keyed_by_the_checkout() {
    assert_eq!(scratch_dir("/c"), "/c/engines");
    let a = scratch_root("/c", "/src/engine");
    let b = scratch_root("/c", "/src/other");
    assert!(a.starts_with("/c/engines/"), "{a}");
    assert_eq!(a.len(), "/c/engines/".len() + 16);
    assert_ne!(a, b);
    assert_eq!(a, scratch_root("/c", "/src/engine"));
}

#[test]
fn a_window_is_passed_only_strictly() {
    assert!(!is_stale(None, 10));
    assert!(!is_stale(Some(10), 10));
    assert!(is_stale(Some(11), 10));
    assert!(!is_older(Some((10, 0)), 10));
    assert!(is_older(Some((10, 1)), 10));
    assert!(is_older(Some((11, 0)), 10));
    assert!(!is_older(None, 0));
}

#[test]
fn the_scan_takes_exactly_the_flag_its_spelling_and_its_value() {
    let args: Vec<String> = ["a", "--engine", "x", "b", "--engine=y", "--engine", "-v", "c", "--", "--engine", "z"]
        .iter()
        .map(|s| s.to_string())
        .collect();
    let (found, rest) = take_flag(args, "--engine");
    assert_eq!(found, Flag::Missing);
    assert_eq!(rest, vec!["a", "b", "-v", "c", "--", "--engine", "z"]);

    let plain: Vec<String> = ["a", "--engined", "b"].iter().map(|s| s.to_string()).collect();
    let (found, rest) = take_flag(plain.clone(), "--engine");
    assert_eq!(found, Flag::Absent);
    assert_eq!(rest, plain);
}

#[test]
fn a_flag_spelled_without_a_dash_can_be_taken_as_its_own_value() {
    let args: Vec<String> = ["f", "f", "x"].iter().map(|s| s.to_string()).collect();
    let (found, rest) = take_flag(args, "f");
    assert_eq!(found, Flag::Value("f".to_string()));
    assert_eq!(rest, vec!["x".to_string()]);
}

#[test]
fn the_checkout_build_installs_into_its_own_root() {
    assert_eq!(
        renki::engine::checkout_install_args("/src/engine", "/c/engines/ab"),
        vec!["install", "--path", "/src/engine", "--root", "/c/engines/ab", "--target-dir", "/c/engines/ab/target", "--force"]
    );
}
