use renki::toml_doc::TomlValue;
use renki::manifest::{near_miss, package_name_in, shared_prefix, syntax_error, Header, Reference};
use renki::tool::{PinKeys, Tool, Workdir};

fn t() -> Tool {
    Tool {
        short: "widget",
        config_file: "t.toml",
        pin_keys: PinKeys {
            version: "eng_version",
            rev: "eng_rev",
            tag: "eng_tag",
            branch: "eng_branch",
            git: "eng_git",
        },
        engine_crate: "engine",
        cache_namespace: "t",
        default_url: "ssh://default",
        launcher_crate: "t-launcher",
        workdir: Some(Workdir {
            key: "work_dir",
            root_default: "work",
        }),
        ..Tool::conventions()
    }
}

#[test]
fn each_form_is_read_under_the_tools_prefix() {
    for (text, want) in [
        ("eng_version = \"1.2\"\n", Reference::Version("1.2".into())),
        ("eng_rev = \"abc\"\n", Reference::Rev("abc".into())),
        ("eng_tag = \"v1\"\n", Reference::Tag("v1".into())),
        ("eng_branch = \"dev\"\n", Reference::Branch("dev".into())),
    ] {
        assert_eq!(Header::parse(&t(), text).pin, Some(want), "{text}");
    }
}

#[test]
fn another_tools_prefix_is_not_this_tools_pin() {
    let h = Header::parse(&t(), "otherthing_version = \"1.2\"\n");
    assert_eq!(h.pin, None);
    assert!(h.to_pin(&t()).is_none());
}

#[test]
fn a_nested_key_is_not_a_pin() {
    let text = "[some.table]\neng_version = \"1.2\"\n";
    assert_eq!(Header::parse(&t(), text).pin, None);
}

#[test]
fn the_more_specific_form_wins_when_a_config_carries_several() {
    let text = "eng_version = \"1.2\"\neng_branch = \"dev\"\neng_rev = \"abc\"\n";
    assert_eq!(
        Header::parse(&t(), text).pin,
        Some(Reference::Rev("abc".into()))
    );
    let text = "eng_version = \"1.2\"\neng_branch = \"dev\"\n";
    assert_eq!(
        Header::parse(&t(), text).pin,
        Some(Reference::Branch("dev".into()))
    );
}

#[test]
fn the_url_defaults_and_is_overridable() {
    let p = Header::parse(&t(), "eng_tag = \"v1\"\n").to_pin(&t()).unwrap();
    assert_eq!(p.url, "ssh://default");
    let p = Header::parse(&t(), "eng_tag = \"v1\"\neng_git = \"ssh://other\"\n")
        .to_pin(&t())
        .unwrap();
    assert_eq!(p.url, "ssh://other");
}

#[test]
fn a_url_without_a_revision_is_not_a_pin() {
    let h = Header::parse(&t(), "eng_git = \"ssh://other\"\n");
    assert_eq!(h.url.as_deref(), Some("ssh://other"));
    assert!(h.to_pin(&t()).is_none());
}

#[test]
fn the_workdir_key_is_the_tools_own() {
    assert_eq!(
        Header::parse(&t(), "work_dir = \"design\"\n")
            .workdir
            .as_deref(),
        Some("design")
    );
    assert_eq!(Header::parse(&t(), "other_dir = \"design\"\n").workdir, None);
}

#[test]
fn unreadable_and_empty_configs_are_both_empty_headers() {
    assert_eq!(Header::parse(&t(), "this is not [ toml"), Header::default());
    assert_eq!(Header::parse(&t(), ""), Header::default());
}

#[test]
fn a_non_string_value_is_not_a_pin() {
    assert_eq!(Header::parse(&t(), "eng_version = 12\n").pin, None);
}

#[test]
fn a_package_is_named_however_the_manifest_spells_the_assignment() {
    for manifest in [
        "[package]\nname = \"engine\"\n",
        "[package]\nname='engine'\n",
        "[package]\n  name   =   \"engine\"   # the engine\n",
        "package = { name = \"engine\" }\n",
        "[package]\nversion = \"1\"\nname = \"engine\"\n",
    ] {
        assert_eq!(
            package_name_in("/d/Cargo.toml", manifest).as_deref(),
            Ok("engine"),
            "{manifest:?}"
        );
    }
}

#[test]
fn a_manifest_that_merely_mentions_the_name_is_not_that_package() {
    for manifest in [
        "[package]\nname = \"other\"\n\n[[bin]]\nname = \"engine\"\n",
        "[[bin]]\nname = \"engine\"\npath = \"src/main.rs\"\n\n[package]\nname = \"other\"\n",
        "[package]\nname = \"other\"  # not the engine\n",
        "[package]\nname = \"other\"\n\n[dependencies]\ne = { package = \"engine\" }\n",
        "[workspace]\nmembers = [\"engine\"]\n",
    ] {
        assert_ne!(
            package_name_in("/d/Cargo.toml", manifest).as_deref(),
            Ok("engine"),
            "{manifest:?}"
        );
    }
}

#[test]
fn a_virtual_manifest_says_so_rather_than_failing_somewhere_else() {
    let err = package_name_in("/d/Cargo.toml", "[workspace]\nmembers = [\"a\"]\n").unwrap_err();
    assert!(err.contains("no [package] name"), "{err}");
    assert!(err.contains("Cargo.toml"), "{err}");
}

#[test]
fn a_missing_or_unparseable_manifest_names_the_path() {
    let err = package_name_in("/d/Cargo.toml", "[package\nname =\n").unwrap_err();
    assert!(err.contains("Cargo.toml"), "{err}");
}

#[test]
fn a_key_aimed_at_this_tool_and_missing_is_named() {
    assert_eq!(
        near_miss(&t(), "eng_ref = \"abc\"\n").as_deref(),
        Some("eng_ref")
    );
    assert_eq!(near_miss(&t(), "work_dir = \"w\"\n"), None);
    assert_eq!(near_miss(&t(), "unrelated = 1\n"), None);
    let k = t().pin_keys;
    for k in [k.version, k.rev, k.tag, k.branch, k.git] {
        assert_eq!(near_miss(&t(), &format!("{k} = \"x\"\n")), None, "{k}");
    }
    assert_eq!(near_miss(&t(), "eng_ref = \n"), None);
}

#[test]
fn a_tool_whose_keys_share_almost_nothing_gets_no_near_miss() {
    let one = Tool {
        pin_keys: PinKeys {
            version: "vv",
            rev: "vr",
            tag: "tt",
            branch: "bb",
            git: "gg",
        },
        ..t()
    };
    assert_eq!(near_miss(&one, "vx = \"1\"\n"), None);

    let shared = Tool {
        pin_keys: PinKeys {
            version: "ab_version",
            rev: "ab_rev",
            tag: "ab_tag",
            branch: "ab_branch",
            git: "ab_git",
        },
        ..t()
    };
    assert_eq!(
        near_miss(&shared, "ab_ref = \"1\"\n").as_deref(),
        Some("ab_ref"),
        "a two-character shared prefix is enough and is the boundary"
    );
}

#[test]
fn the_shared_prefix_is_the_longest_every_name_begins_with() {
    assert_eq!(shared_prefix(&["eng_version", "eng_rev", "eng_tag"]), "eng_");
    assert_eq!(shared_prefix(&["a", "b"]), "");
    assert_eq!(shared_prefix(&["ab", "abc", "abcd"]), "ab");
    assert_eq!(shared_prefix(&["same", "same"]), "same");
    assert_eq!(shared_prefix(&["only"]), "only");
    assert_eq!(shared_prefix(&[]), "");
    assert_eq!(shared_prefix(&["eng_version", ""]), "");
}

#[test]
fn a_syntax_error_is_reported_and_valid_toml_is_not() {
    assert!(syntax_error("a = \n").is_some());
    assert_eq!(syntax_error("a = 1\n"), None);
    assert_eq!(syntax_error(""), None);
}

#[test]
fn a_parsed_document_gives_the_same_header_as_its_text() {
    let tool = renki::Tool {
        pin_keys: renki::PinKeys { version: "w_version", rev: "w_rev", tag: "w_tag", branch: "w_branch", git: "w_git" },
        ..renki::Tool::conventions()
    };
    let doc = vec![
        ("w_tag".to_string(), TomlValue::Str("v1".to_string())),
        ("w_git".to_string(), TomlValue::Str("https://e.invalid/w.git".to_string())),
    ];
    let h = renki::Header::from_document(&tool, &doc);
    assert_eq!(h, renki::Header::parse(&tool, "w_tag = \"v1\"\nw_git = \"https://e.invalid/w.git\"\n"));
    assert_eq!(h.pin, Some(renki::Reference::Tag("v1".to_string())));
}
