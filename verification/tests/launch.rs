use std::path::Path;

use renki::discover::no_root_with;
use renki::launch::{locate_answer, missing_pin_message, next_step, outcome, resolve_pin, Dispatch, Step};
use renki::registry::{pin_form_and_value, PinForm, PinSource};
use renki::tool::{Anchor, Cli, Locate, PinKeys, Tool};
use renki::{Pin, Reference};

fn t() -> Tool {
    Tool {
        anchor: Anchor::Marker(".git"),
        short: "widget",
        config_file: "t.toml",
        pin_keys: PinKeys {
            version: "t_version",
            rev: "t_rev",
            tag: "t_tag",
            branch: "t_branch",
            git: "t_git",
        },
        engine_crate: "engine",
        engine_bin: None,
        cache_namespace: "t",
        default_url: "u",
        launcher_crate: "cargo-widget",
        workdir: None,
        dir_flag: Cli::DIR_FLAG,
        engine_flag: Cli::ENGINE_FLAG,
        locate: Locate::default(),
        ..Tool::conventions()
    }
}

fn s(v: &[&str]) -> Vec<String> {
    v.iter().map(|x| x.to_string()).collect()
}

#[test]
fn a_launcher_with_a_broken_descriptor_refuses_to_start() {
    let base = t();
    let bad: [Tool; 11] = [
        Tool {
            short: "my-tool",
            ..base
        },
        Tool {
            config_file: "",
            ..base
        },
        Tool {
            pin_keys: PinKeys {
                version: "",
                rev: "",
                tag: "",
                branch: "",
                git: "",
            },
            ..base
        },
        Tool {
            engine_crate: "",
            ..base
        },
        Tool {
            engine_bin: Some(""),
            ..base
        },
        Tool {
            cache_namespace: "",
            ..base
        },
        Tool {
            launcher_crate: "",
            ..base
        },
        Tool {
            anchor: Anchor::Marker(""),
            ..base
        },
        Tool {
            default_url: "",
            ..base
        },
        Tool { dir_flag: "", ..base },
        Tool {
            engine_flag: Cli::DIR_FLAG,
            ..base
        },
    ];
    for bad in &bad {
        assert!(
            bad.defect().is_some(),
            "no defect reported for {:?}",
            bad.short
        );
        let err = outcome(bad, &s(&["widget"])).expect_err("a broken launcher ran");
        assert!(
            err.contains("descriptor is not usable"),
            "it failed for some other reason, so nothing checked the descriptor: {err}"
        );
    }
}

#[test]
fn a_sound_descriptor_is_not_refused() {
    assert!(t().defect().is_none(), "the fixture itself is not usable");
    let named_bin = Tool {
        engine_bin: Some("engine"),
        ..t()
    };
    assert!(named_bin.defect().is_none());
    assert_eq!(
        outcome(&t(), &s(&["widget", "lock"])),
        Ok(Dispatch::Run {
            engine: None,
            args: s(&["lock"])
        })
    );
}

#[test]
fn an_empty_engine_bin_would_have_looked_for_the_directory_itself() {
    let empty = Tool {
        engine_bin: Some(""),
        ..t()
    };
    let looked_for = Path::new("/cache/builds/k/bin").join(empty.engine_bin_name());
    assert_eq!(looked_for, Path::new("/cache/builds/k/bin/"));
    assert_eq!(looked_for, Path::new("/cache/builds/k/bin"));
    assert_eq!(
        renki::cache::engine_bin_path(&empty, "/cache", "k"),
        "/cache/builds/k/bin/"
    );
}

#[test]
fn the_locate_answer_uses_the_tools_own_key_names() {
    let own = Locate {
        subcommand: Some("locate"),
        root_key: "repo",
        config_key: "manifest",
        workdir_key: "mock_dir",
    };
    let got = locate_answer(&own, "/r", "/c/x.toml", "/r/mock", true).unwrap();
    assert_eq!(got, "repo=/r\nmanifest=/c/x.toml\nmock_dir=/r/mock\n");
    assert!(!got.contains("root="), "{got}");
    assert!(!got.contains("config="), "{got}");
    assert!(!got.contains("workdir="), "{got}");

    let d2 = locate_answer(&Locate::default(), "/r", "/c/x.toml", "/r/mock", true).unwrap();
    assert!(d2.starts_with("root="), "{d2}");
    assert!(d2.contains("\nconfig=/c/x.toml\n"), "{d2}");
    assert!(d2.contains("\nworkdir=/r/mock\n"), "{d2}");
}

#[test]
fn a_missing_workdir_answers_with_the_key_and_no_value() {
    let got = locate_answer(&Locate::default(), "/r", "", "/r/nothing-here", false).unwrap();
    assert!(got.ends_with("workdir=\n"), "{got}");
    assert!(got.contains("\nconfig=\n"), "{got}");
}

#[test]
fn a_path_holding_a_newline_is_refused_by_name_rather_than_answered() {
    let l = Locate::default();
    assert_eq!(
        locate_answer(&l, "/r\nx", "/r/c.toml", "/r/w", true),
        Err("the repo root /r\nx holds a newline, which a key=value answer cannot carry".to_string())
    );
    let e = locate_answer(&l, "/r", "/r/a\nb.toml", "/r/w", true).unwrap_err();
    assert!(e.starts_with("the config /r/a\nb.toml "), "{e}");
    let e = locate_answer(&l, "/r", "", "/r/w\n", false).unwrap_err();
    assert!(e.starts_with("the working directory /r/w\n "), "{e}");
    assert_eq!(
        locate_answer(&l, "/r", "", "/r/w", true).unwrap(),
        "root=/r\nconfig=\nworkdir=/r/w\n"
    );
}

#[test]
fn an_engine_flag_with_no_path_is_refused_rather_than_running_the_pinned_engine() {
    let e = outcome(&t(), &s(&["widget", "--engine"])).unwrap_err();
    assert!(
        e.contains("--engine") && e.contains("none followed it"),
        "the refusal does not name the flag or say what was missing: {e}"
    );

    let e = outcome(&t(), &s(&["widget", "--engine", "--verbose"])).unwrap_err();
    assert!(e.contains("--engine"), "{e}");

    let other = Tool {
        engine_flag: "--with",
        ..t()
    };
    let e = outcome(&other, &s(&["widget", "--with"])).unwrap_err();
    assert!(e.contains("--with"), "{e}");
    assert!(!e.contains("--engine"), "{e}");
}

#[test]
fn the_locate_query_is_answered_and_the_override_is_carried() {
    assert_eq!(outcome(&t(), &s(&["widget", "locate"])), Ok(Dispatch::Locate));
    assert_eq!(
        outcome(&t(), &s(&["widget", "--engine", "/e", "lock", "--dir", "/x"])),
        Ok(Dispatch::Run {
            engine: Some("/e".into()),
            args: s(&["lock"])
        })
    );
}

#[test]
fn lib_tests_the_missing_root_message_names_what_was_looked_for() {
    let m = no_root_with(&t(), None);
    assert!(m.contains(".git"), "{m}");
    assert!(m.contains("WIDGET_ROOT"), "{m}");

    let span = Tool {
        anchor: Anchor::ConfigFile,
        short: "widget",
        ..t()
    };
    let m = no_root_with(&span, None);
    assert!(m.contains("t.toml"), "{m}");
    assert!(!m.contains(".git"), "{m}");
    assert!(m.contains("WIDGET_ROOT"), "{m}");
}

#[test]
fn lib_tests_a_legacy_pin_registers_as_legacy_whatever_its_reference_is() {
    let p = Pin {
        url: "u".into(),
        reference: Reference::Rev("abc".into()),
    };
    assert_eq!(
        pin_form_and_value(&p, PinSource::Config),
        (PinForm::Rev, "abc".to_string())
    );
    assert_eq!(
        pin_form_and_value(&p, PinSource::Legacy),
        (PinForm::Legacy, "abc".to_string())
    );
}

#[test]
fn the_missing_pin_message_names_the_tools_own_key() {
    let err = resolve_pin(&t(), None, None, "/repo/t.toml").unwrap_err();
    assert!(err.contains("t_version"), "{err}");
    assert!(err.contains("t.toml"), "{err}");
}

#[test]
fn the_config_pin_wins_over_the_legacy_one_and_the_legacy_one_over_nothing() {
    let legacy = Pin {
        url: "old".into(),
        reference: Reference::Rev("r0".into()),
    };
    let (p, src) = resolve_pin(&t(), Some("t_tag = \"v1\"\n"), Some(legacy.clone()), "/x").unwrap();
    assert_eq!(src, PinSource::Config);
    assert_eq!(p.reference, Reference::Tag("v1".into()));
    assert_eq!(p.url, "u");

    let (p, src) = resolve_pin(&t(), Some("other = 1\n"), Some(legacy.clone()), "/x").unwrap();
    assert_eq!(src, PinSource::Legacy);
    assert_eq!(p, legacy);
}

#[test]
fn a_config_that_is_not_toml_says_so_rather_than_asking_for_a_pin() {
    let m = missing_pin_message(&t(), "/r/t.toml", Some("t_version = \n"));
    assert!(m.contains("not valid TOML"), "{m}");
    assert!(!m.contains("add one"), "{m}");
}

#[test]
fn a_near_miss_is_named_in_the_missing_pin_message() {
    let m = missing_pin_message(&t(), "/r/t.toml", Some("t_ref = \"abc\"\n"));
    assert!(m.contains("add one to /r/t.toml"), "{m}");
    assert!(m.contains("`t_ref`"), "{m}");
}

#[test]
fn lib_tests_the_refusal_says_whether_the_override_was_set() {
    let unset = no_root_with(&t(), None);
    assert!(unset.contains("WIDGET_ROOT is unset"), "{unset}");
    assert!(unset.contains(".git"), "{unset}");

    let set = no_root_with(&t(), Some("/nope/xyzzy".into()));
    assert!(set.contains("/nope/xyzzy"), "{set}");
    assert!(set.contains("not a directory"), "{set}");
    assert!(
        !set.contains("is unset"),
        "the set case still claims unset: {set}"
    );
}

#[test]
fn lib_tests_the_refusal_names_the_anchor_the_tool_actually_looks_for() {
    let span = Tool {
        anchor: Anchor::ConfigFile,
        ..t()
    };
    let m = no_root_with(&span, None);
    assert!(m.contains(t().config_file), "{m}");
    assert!(!m.contains(".git"), "{m}");
}

#[test]
fn the_environment_variables_are_named_after_the_short_name() {
    assert_eq!(t().root_env(), "WIDGET_ROOT");
    assert_eq!(t().cache_env(), "WIDGET_CACHE");
    assert_eq!(t().state_env(), "WIDGET_STATE");
    assert_eq!(t().no_self_update_env(), "WIDGET_NO_SELF_UPDATE");
}

#[test]
fn a_short_name_is_usable_only_as_a_variable_name() {
    for good in ["widget", "w_2", "_x", "ABC"] {
        assert!(Tool { short: good, ..t() }.short_is_usable(), "{good}");
    }
    for bad in ["", "2w", "my-tool", "a.b", "wídget"] {
        assert!(!Tool { short: bad, ..t() }.short_is_usable(), "{bad}");
    }
}

fn steps(override_given: bool, config_found: bool) -> Vec<Step> {
    let mut out = Vec::new();
    let mut done = None;
    while let Some(s) = next_step(done, override_given, config_found) {
        out.push(s);
        done = Some(s);
    }
    out
}

#[test]
fn the_override_neither_updates_nor_resolves_nor_records() {
    assert_eq!(
        steps(true, true),
        vec![Step::FindRoot, Step::FindConfig, Step::VerifyRepo, Step::PrepareRepo, Step::FindCache, Step::BuildCheckout, Step::ExecEngine]
    );
    assert_eq!(
        steps(true, false),
        vec![Step::FindRoot, Step::FindConfig, Step::VerifyRepo, Step::FindCache, Step::BuildCheckout, Step::ExecEngine]
    );
}

#[test]
fn a_pinned_run_records_before_the_exec_and_rechecks_its_build() {
    assert_eq!(
        steps(false, true),
        vec![
            Step::CheckForUpdate,
            Step::FindRoot,
            Step::FindConfig,
            Step::VerifyRepo,
            Step::PrepareRepo,
            Step::FindCache,
            Step::ResolvePin,
            Step::BuildPinned,
            Step::RecordAndCollect,
            Step::RebuildIfEvicted,
            Step::ExecEngine
        ]
    );
    assert_eq!(steps(false, false)[4], Step::FindCache, "a repo with no config is not prepared");
}
