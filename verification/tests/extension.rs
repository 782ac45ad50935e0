use renki::toml_doc::TomlValue;
use renki::extension::{
    builtin, cache_key, collect_verdict, CargoPlan, command_plan, join_names, placement, stays_inside, Backend,
    CommandDef, Descriptor, Git, Local, Placement, Registered, Registry, Source, Verdict,
    SCRATCH_TTL_SECS,
};

const DESC: &str = r#"
[tool]
name    = "rules"
summary = "read the workspace rules"
tags    = ["rules", "docs"]
backend = "git"
promote = true

[tool.source]
git = { url = "https://example.invalid/rules.git", rev = "0123456789abcdef0123456789abcdef01234567" }

[[tool.commands]]
name    = "list"
summary = "every rule"
run     = "commands/list"

[[tool.commands]]
name    = "show"
summary = "one rule whole"
run     = "commands/show"
"#;

fn desc() -> Descriptor {
    Descriptor::parse(DESC).expect("the fixture should parse")
}

struct Marker;

impl Backend for Marker {
    fn name() -> &'static str {
        "marker"
    }

    fn fingerprint() -> String {
        "marker-v1".into()
    }
}

struct Broken;

impl Backend for Broken {
    fn name() -> &'static str {
        "broken"
    }

    fn fingerprint() -> String {
        String::new()
    }
}

struct PlacesItself;

impl Backend for PlacesItself {
    fn name() -> &'static str {
        "places-itself"
    }

    fn fingerprint() -> String {
        String::new()
    }

    fn places_itself() -> bool {
        true
    }
}

fn registry() -> Registry {
    Registry::new(vec![
        Registered::of::<Marker>(),
        Registered::of::<Broken>(),
        Registered::of::<Local>(),
        Registered::of::<Git>(),
    ])
}

fn with_source(src: &str) -> Result<Descriptor, String> {
    Descriptor::parse(&format!(
        "[tool]\nname=\"x\"\nsummary=\"y\"\nbackend=\"git\"\n[tool.source]\n{src}\n"
    ))
}

fn with_url(url: &str) -> Descriptor {
    let mut d = desc();
    let rev = match &d.source {
        Source::Git { rev, .. } => rev.clone(),
        Source::Path { .. } => unreachable!("the fixture is a git source"),
    };
    d.source = Source::Git {
        url: url.into(),
        rev,
    };
    d
}

fn with_run(run: &str) -> Descriptor {
    let mut d = desc();
    d.commands = vec![CommandDef {
        name: "go".into(),
        summary: "go".into(),
        run: run.into(),
    }];
    d
}

#[test]
fn a_descriptor_parses_every_field() {
    let d = desc();
    assert_eq!(d.name, "rules");
    assert_eq!(d.summary, "read the workspace rules");
    assert_eq!(d.tags, vec!["rules", "docs"]);
    assert_eq!(d.backend, "git");
    assert!(d.promote);
    assert_eq!(
        d.source,
        Source::Git {
            url: "https://example.invalid/rules.git".into(),
            rev: "0123456789abcdef0123456789abcdef01234567".into(),
        }
    );
}

#[test]
fn the_command_table_is_the_dispatch_table() {
    let d = desc();
    assert_eq!(d.commands.len(), 2);
    assert_eq!(d.command("show").map(|c| c.run.as_str()), Some("commands/show"));
    assert_eq!(d.command("list").map(|c| c.summary.as_str()), Some("every rule"));
    assert!(d.command("nope").is_none());
}

#[test]
fn tags_commands_and_promote_default_when_absent() {
    let d = Descriptor::parse(
        r#"
        [tool]
        name = "x"
        summary = "y"
        backend = "local"
        [tool.source]
        path = { path = "tools/x" }
        "#,
    )
    .expect("a minimal descriptor is legal");
    assert!(d.tags.is_empty());
    assert!(d.commands.is_empty());
    assert!(!d.promote);
    assert_eq!(d.source, Source::Path { path: "tools/x".into() });
}

#[test]
fn a_descriptor_with_no_backend_is_refused() {
    let bad = Descriptor::parse(
        r#"
        [tool]
        name = "x"
        summary = "y"
        [tool.source]
        path = { path = "tools/x" }
        "#,
    );
    assert_eq!(bad.unwrap_err(), "could not read the tool descriptor: missing field `backend`");
}

#[test]
fn nonsense_is_refused() {
    let e = Descriptor::parse("this is not toml at all {{{").unwrap_err();
    assert!(e.starts_with("could not read the tool descriptor: "), "{e}");
}

#[test]
fn an_unknown_field_in_a_descriptor_is_refused_rather_than_ignored() {
    let base = "[tool]\nname=\"x\"\nsummary=\"y\"\nbackend=\"git\"\n\
                [tool.source]\ngit = { url = \"https://e.invalid/x.git\", \
                rev = \"0123456789abcdef0123456789abcdef01234567\" }\n";
    assert!(Descriptor::parse(base).is_ok(), "the control does not parse");
    assert!(Descriptor::parse(&format!("{base}promoted = true\n")).is_err());
    let e = Descriptor::parse(
        "[tool]\nname=\"x\"\nsummary=\"y\"\nbackend=\"git\"\npromoted=true\n\
         [tool.source]\npath = { path = \"tools/x\" }\n",
    )
    .unwrap_err();
    assert_eq!(e, "could not read the tool descriptor: unknown field `promoted`");
    assert!(Descriptor::parse(&format!("{base}tag = [\"a\"]\n")).is_err());
    assert!(Descriptor::parse(&format!(
        "{base}[[tool.commands]]\nname=\"a\"\nsummary=\"b\"\nrun=\"c\"\ndescriptions=\"d\"\n"
    ))
    .is_err());
}

#[test]
fn a_field_of_the_wrong_type_is_refused() {
    let e = Descriptor::parse(
        "[tool]\nname=\"x\"\nsummary=\"y\"\nbackend=\"git\"\npromote=\"yes\"\n\
         [tool.source]\npath = { path = \"tools/x\" }\n",
    )
    .unwrap_err();
    assert!(e.contains("invalid type for `promote`"), "{e}");
}

#[test]
fn the_key_moves_with_the_url() {
    let r = registry();
    let b = r.get("git").unwrap();
    assert_ne!(
        cache_key(&with_url("https://a.invalid/x.git"), b).unwrap(),
        cache_key(&with_url("https://b.invalid/x.git"), b).unwrap()
    );
}

#[test]
fn the_key_moves_with_the_named_backend() {
    let r = registry();
    let git = r.get("git").unwrap();
    let mut a = desc();
    a.backend = "git".into();
    let mut b = desc();
    b.backend = "marker".into();
    assert_ne!(cache_key(&a, git).unwrap(), cache_key(&b, git).unwrap());
}

#[test]
fn the_key_moves_with_the_revision() {
    let r = registry();
    let b = r.get("git").unwrap();
    let a = desc();
    let mut z = desc();
    z.source = Source::Git {
        url: "https://example.invalid/rules.git".into(),
        rev: "def456abc123789".into(),
    };
    assert_ne!(cache_key(&a, b).unwrap(), cache_key(&z, b).unwrap());
}

#[test]
fn the_key_moves_with_the_backend_fingerprint() {
    let mut d = desc();
    d.backend = "marker".into();
    let r = registry();
    let (marker, git) = (r.get("marker").unwrap(), r.get("git").unwrap());
    assert_ne!(marker.fingerprint(), git.fingerprint());
    assert_ne!(cache_key(&d, marker).unwrap(), cache_key(&d, git).unwrap());
}

#[test]
fn the_key_is_sixteen_lowercase_hex() {
    let r = registry();
    let k = cache_key(&desc(), r.get("git").unwrap()).unwrap();
    assert_eq!(k.len(), 16);
    assert!(k.chars().all(|c| c.is_ascii_digit() || ('a'..='f').contains(&c)), "{k}");
    assert_eq!(k, cache_key(&desc(), r.get("git").unwrap()).unwrap());
}

#[test]
fn the_registry_finds_what_it_holds_and_nothing_else() {
    let r = registry();
    assert_eq!(r.get("marker").map(|b| b.name), Some("marker"));
    assert!(r.get("nonexistent").is_none());
    assert!(r.names().contains(&"local"));
}

#[test]
fn the_builtin_table_carries_both_shipped_backends() {
    let r = Registry::new(builtin());
    assert!(r.get("local").is_some());
    assert!(r.get("git").is_some());
    assert!(!r.get("local").unwrap().caches());
    assert!(r.get("git").unwrap().caches());
    assert!(r.get("cargo").is_none());
}

#[test]
fn a_backend_says_whether_it_places_itself() {
    let p = Registered::of::<PlacesItself>();
    assert!(p.places_itself());
    assert!(p.caches());
    assert!(!Registered::of::<Marker>().places_itself());
}

#[test]
fn a_revision_that_git_would_read_as_a_flag_is_refused() {
    let bad = with_source(
        r#"git = { url = "https://e.invalid/x.git", rev = "--upload-pack=touch /tmp/pwned" }"#,
    );
    assert!(bad.is_err(), "accepted a flag as a revision: {bad:?}");
}

#[test]
fn a_revision_that_is_not_a_commit_is_refused() {
    assert!(with_source(r#"git = { url = "https://e.invalid/x.git", rev = "main" }"#).is_err());
    assert!(with_source(r#"git = { url = "https://e.invalid/x.git", rev = "abc" }"#).is_err());
}

#[test]
fn a_real_commit_is_accepted() {
    let ok = with_source(
        r#"git = { url = "https://e.invalid/x.git", rev = "0123456789abcdef0123456789abcdef01234567" }"#,
    );
    assert!(ok.is_ok(), "{ok:?}");
}

#[test]
fn a_url_on_no_known_scheme_is_refused() {
    assert!(with_source(
        r#"git = { url = "--config=core.sshCommand=id", rev = "0123456789abcdef0123456789abcdef01234567" }"#
    )
    .is_err());
    assert!(with_source(
        r#"git = { url = "file:///etc", rev = "0123456789abcdef0123456789abcdef01234567" }"#
    )
    .is_err());
}

#[test]
fn every_accepted_scheme_is_accepted() {
    for u in ["https://e.invalid/x.git", "ssh://e.invalid/x.git", "git@e.invalid:x.git"] {
        let r = with_source(&format!(
            r#"git = {{ url = "{u}", rev = "0123456789abcdef0123456789abcdef01234567" }}"#
        ));
        assert!(r.is_ok(), "{u} was refused: {r:?}");
    }
}

#[test]
fn a_path_escaping_the_workspace_is_refused() {
    assert!(with_source(r#"path = { path = "../../etc" }"#).is_err());
    assert!(with_source(r#"path = { path = "/etc" }"#).is_err());
    assert!(with_source(r#"path = { path = "-rf" }"#).is_err());
    assert!(with_source(r#"path = { path = "tools/x" }"#).is_ok());
}

#[test]
fn an_empty_path_is_refused() {
    assert!(with_source(r#"path = { path = "" }"#).is_err());
}

#[test]
fn a_sha256_object_name_is_accepted() {
    let sha256 = "a".repeat(64);
    let ok = with_source(&format!(
        r#"git = {{ url = "https://e.invalid/x.git", rev = "{sha256}" }}"#
    ));
    assert!(ok.is_ok(), "{ok:?}");

    for bad in [40 - 1, 41, 63, 65] {
        let r = with_source(&format!(
            r#"git = {{ url = "https://e.invalid/x.git", rev = "{}" }}"#,
            "a".repeat(bad)
        ));
        assert!(r.is_err(), "{bad} hex was accepted: {r:?}");
    }
}

#[test]
fn the_key_refuses_a_path_source_the_way_locate_does() {
    let r = registry();
    let b = r.get("marker").unwrap();
    let mut d = desc();
    d.source = Source::Path {
        path: "tools/x".into(),
    };
    let err = cache_key(&d, b).unwrap_err();
    assert!(err.contains("shared by all of them"), "{err}");
    assert!(cache_key(&desc(), b).is_ok());
}

#[test]
fn a_run_must_stay_inside_the_tool() {
    assert!(stays_inside("commands/list"));
    assert!(!stays_inside("/bin/sh"));
    assert!(!stays_inside("../../../sh"));
}

#[test]
fn an_unknown_backend_names_what_was_available() {
    let mut d = desc();
    d.backend = "gti".into();
    let err = placement(&d, &registry(), "/ws", "/cache").unwrap_err();
    assert!(err.contains("gti"), "{err}");
    assert!(err.contains("marker, broken, local, git"), "should list what it has: {err}");
}

#[test]
fn a_path_source_resolves_against_the_workspace_and_is_not_cached() {
    let mut d = desc();
    d.backend = "local".into();
    d.source = Source::Path { path: "tools/x".into() };
    let at = placement(&d, &registry(), "/ws", "/cache").unwrap();
    assert_eq!(at, Placement::InWorkspace("/ws/tools/x".into()));
}

#[test]
fn a_non_caching_backend_refuses_a_git_source() {
    let mut d = desc();
    d.backend = "local".into();
    let err = placement(&d, &registry(), "/ws", "/cache").unwrap_err();
    assert!(err.contains("path source"), "{err}");
}

#[test]
fn a_caching_backend_refuses_a_path_source() {
    let mut d = desc();
    d.backend = "marker".into();
    d.source = Source::Path {
        path: "tools/x".into(),
    };
    let err = placement(&d, &registry(), "/ws", "/cache").unwrap_err();
    assert!(err.contains("shared by all of them"), "{err}");
}

#[test]
fn a_cached_tool_lives_under_its_key() {
    let mut d = desc();
    d.backend = "marker".into();
    let r = registry();
    let key = cache_key(&d, r.get("marker").unwrap()).unwrap();
    let at = placement(&d, &r, "/ws", "/cache").unwrap();
    assert_eq!(
        at,
        Placement::Cached {
            root: format!("/cache/tools/{key}"),
            places_itself: false
        }
    );
}

#[test]
fn locate_checks_a_descriptor_it_was_handed_rather_than_trusting_it() {
    let mut d = desc();
    d.source = Source::Git {
        url: "--config=core.sshCommand=id".into(),
        rev: "0123456789abcdef0123456789abcdef01234567".into(),
    };
    let err = placement(&d, &registry(), "/ws", "/cache").unwrap_err();
    assert!(err.contains("url"), "{err}");
}

#[test]
fn a_command_plan_names_the_file_and_the_two_variables() {
    for (short, ws_var, root_var) in [
        ("renki", "RENKI_WORKSPACE", "RENKI_TOOL_ROOT"),
        ("mock", "MOCK_WORKSPACE", "MOCK_TOOL_ROOT"),
    ] {
        let p = command_plan(&desc(), "list", short).unwrap();
        assert_eq!(p.run, "commands/list");
        assert_eq!(p.workspace_var, ws_var);
        assert_eq!(p.tool_root_var, root_var);
    }
}

#[test]
fn an_unknown_command_lists_the_ones_that_exist() {
    let err = command_plan(&desc(), "shwo", "renki").unwrap_err();
    assert!(err.contains("shwo"), "{err}");
    assert!(err.contains("list, show"), "{err}");
}

#[test]
fn a_tool_with_no_commands_says_that_rather_than_listing_nothing() {
    let mut d = desc();
    d.commands.clear();
    let err = command_plan(&d, "anything", "renki").unwrap_err();
    assert!(err.contains("no commands"), "{err}");
}

#[test]
fn an_absolute_run_cannot_name_an_executable_outside_the_tool() {
    let err = command_plan(&with_run("/bin/sh"), "go", "renki").unwrap_err();
    assert!(err.contains("/bin/sh"), "{err}");
    assert!(err.contains("not inside it"), "{err}");
}

#[test]
fn a_run_climbing_out_of_the_tool_is_refused() {
    let err = command_plan(&with_run("../../../sh"), "go", "renki").unwrap_err();
    assert!(err.contains("not inside it"), "{err}");
    assert!(command_plan(&desc(), "list", "renki").is_ok());
}

#[test]
fn the_names_are_joined_with_commas() {
    assert_eq!(join_names(&[]), "");
    assert_eq!(join_names(&["a"]), "a");
    assert_eq!(join_names(&["a", "b", "c"]), "a, b, c");
}

#[test]
fn a_tool_nothing_has_used_is_collected_and_a_fresh_one_is_not() {
    let day = 86400;
    assert_eq!(collect_verdict("aaaa", 1, Some(Some((day, 0))), 30 * day), Verdict::Keep);
    assert_eq!(collect_verdict("aaaa", 1, Some(Some((90 * day, 0))), 30 * day), Verdict::Remove);
    assert_eq!(collect_verdict("aaaa", 1, Some(Some((30 * day, 0))), 30 * day), Verdict::Keep);
    assert_eq!(collect_verdict("aaaa", 1, Some(Some((30 * day, 1))), 30 * day), Verdict::Remove);
    assert_eq!(collect_verdict("aaaa", 1, Some(None), 0), Verdict::Keep);
}

#[test]
fn a_scratch_from_a_dead_fetch_goes_on_a_much_shorter_rule() {
    let day = 86400;
    assert_eq!(
        collect_verdict(".aaaa.999.0", 1, Some(Some((4 * 3600, 0))), 365 * day),
        Verdict::Remove
    );
    assert_eq!(
        collect_verdict(".aaaa.999.0", 1, Some(Some((SCRATCH_TTL_SECS - 1, 0))), 365 * day),
        Verdict::Keep
    );
}

#[test]
fn a_tool_with_no_marker_is_stamped_rather_than_evicted() {
    assert_eq!(collect_verdict("cccc", 1, None, 0), Verdict::Stamp);
    assert_eq!(collect_verdict(".cccc.5.0", 1, None, 0), Verdict::Keep);
}

#[test]
fn a_scratch_this_process_owns_is_never_collected() {
    let year = 365 * 86400;
    assert_eq!(
        collect_verdict(".aaaa.4242.0", 4242, Some(Some((year, 0))), year),
        Verdict::Keep
    );
    assert_eq!(
        collect_verdict(".aaaa.999999.0", 4242, Some(Some((year, 0))), year),
        Verdict::Remove
    );
}

#[test]
fn the_engine_build_plan_carries_the_resolutions_attempts() {
    let tool = renki::Tool {
        engine_crate: "widget-engine",
        engine_bin: Some("widget"),
        ..renki::Tool::conventions()
    };
    let pin = renki::Pin {
        url: "https://e.invalid/w.git".into(),
        reference: renki::Reference::Rev("abc".into()),
    };
    let resolved = renki::Resolved::without_network(&tool, &pin).unwrap();
    let plan = CargoPlan::for_engine(&tool, &resolved);
    assert_eq!(&plan.attempts, resolved.attempts());
    assert_eq!(plan.bin, "widget");
    assert_eq!(plan.crate_name, "widget-engine");
}

#[test]
fn a_tool_key_reads_only_the_backend_the_source_and_the_fingerprint() {
    let r = registry();
    let b = r.get("git").unwrap();
    let mut other = desc();
    other.name = "another".into();
    other.summary = "something else".into();
    other.tags = vec!["x".into()];
    other.commands.clear();
    other.promote = false;
    assert_eq!(cache_key(&desc(), b).unwrap(), cache_key(&other, b).unwrap());
}

#[test]
fn a_collect_pass_removes_the_stale_and_stamps_the_unmarked() {
    let day = 86400;
    let entries = vec![
        ("fresh".to_string(), Some(Some((day, 0)))),
        ("stale".to_string(), Some(Some((90 * day, 0)))),
        ("unmarked".to_string(), None),
        (".x.999.0".to_string(), Some(Some((2 * 3600, 0)))),
        (".x.4242.0".to_string(), Some(Some((90 * day, 0)))),
        ("future".to_string(), Some(None)),
    ];
    let pass = renki::extension::collect_pass(&entries, 4242, 30 * day);
    assert_eq!(pass.remove, vec!["stale".to_string(), ".x.999.0".to_string()]);
    assert_eq!(pass.stamp, vec!["unmarked".to_string()]);
}

#[test]
fn a_parsed_document_gives_the_same_descriptor_as_its_text() {
    let s = |v: &str| TomlValue::Str(v.to_string());
    let doc = vec![(
        "tool".to_string(),
        TomlValue::Table(vec![
            ("name".to_string(), s("x")),
            ("summary".to_string(), s("y")),
            ("backend".to_string(), s("local")),
            (
                "source".to_string(),
                TomlValue::Table(vec![(
                    "path".to_string(),
                    TomlValue::Table(vec![("path".to_string(), s("tools/x"))]),
                )]),
            ),
        ]),
    )];
    let d = Descriptor::from_document(&doc).unwrap();
    assert_eq!(d.source, Source::Path { path: "tools/x".into() });
    assert_eq!(d.backend, "local");
    assert!(!d.promote);
    let missing = vec![("tool".to_string(), TomlValue::Table(vec![("name".to_string(), s("x"))]))];
    assert!(Descriptor::from_document(&missing).unwrap_err().contains("missing field `summary`"));
}

#[test]
fn the_unknown_backend_refusal_lists_every_backend_by_name() {
    let mut d = desc();
    d.backend = "nope".into();
    let e = placement(&d, &registry(), "/ws", "/c").unwrap_err();
    for n in ["nope", "marker", "broken", "local", "git"] {
        assert!(e.contains(n), "{n} missing from {e}");
    }
}
