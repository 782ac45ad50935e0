use renki::pin::{
    branch_outcome, branch_resolution_path, fresh_resolution, ls_remote_answer, read_resolution,
    refspec, resolution_text, BRANCH_TTL_SECS,
};
use renki::tool::{PinKeys, Tool, VersionSource};
use renki::{Pin, Reference, Resolved};

fn t() -> Tool {
    Tool {
        short: "widget",
        config_file: "t.toml",
        pin_keys: PinKeys {
            version: "t_version",
            rev: "t_rev",
            tag: "t_tag",
            branch: "t_branch",
            git: "t_git",
        },
        engine_crate: "engine",
        cache_namespace: "t",
        default_url: "u",
        launcher_crate: "t-launcher",
        ..Tool::conventions()
    }
}

fn pin(r: Reference) -> Pin {
    Pin {
        url: "u".into(),
        reference: r,
    }
}

fn resolve(tool: &Tool, p: &Pin) -> Result<Resolved, String> {
    Resolved::resolve_with(tool, p, None, None)
}

fn v(items: &[&str]) -> Vec<String> {
    items.iter().map(|s| s.to_string()).collect()
}

#[test]
fn a_version_resolves_to_the_pinned_repository_and_nowhere_else() {
    let r = resolve(&t(), &pin(Reference::Version("0.0.0-d05".into()))).unwrap();
    assert_eq!(r.key_rev, "v:0.0.0-d05");
    assert_eq!(
        r.attempts(),
        &vec![v(&["--git", "u", "--tag", "0.0.0-d05", "engine"])]
    );
    assert_eq!(r.git_ref(), ("tag", "0.0.0-d05"));
    for a in r.attempts() {
        assert!(
            a.contains(&"--git".to_string()),
            "an attempt with no source selector resolves by name: {a:?}"
        );
    }
}

#[test]
fn a_tool_that_owns_its_crate_name_can_take_the_registry_first() {
    let published = Tool {
        version_source: VersionSource::RegistryThenGitTag,
        ..t()
    };
    let r = resolve(&published, &pin(Reference::Version("0.0.0-d05".into()))).unwrap();
    assert_eq!(
        r.attempts(),
        &vec![
            v(&["engine", "--version", "0.0.0-d05"]),
            v(&["--git", "u", "--tag", "0.0.0-d05", "engine"]),
        ]
    );
    assert_eq!(r.git_ref(), ("tag", "0.0.0-d05"));
}

#[test]
fn the_source_choice_reaches_only_the_version_form() {
    let published = Tool {
        version_source: VersionSource::RegistryThenGitTag,
        ..t()
    };
    for r in [
        Reference::Rev("abc123".into()),
        Reference::Tag("v1.2.3".into()),
        Reference::Branch("dev".into()),
    ] {
        for tool in [t(), published] {
            let got = Resolved::resolve_with(&tool, &pin(r.clone()), None, Some("feedface99c0ffee".into())).unwrap();
            assert_eq!(got.attempts().len(), 1, "{r:?}");
            assert!(got.attempts()[0].contains(&"--git".to_string()), "{r:?}");
        }
    }
}

#[test]
fn the_base_answers_the_source_with_the_one_that_needs_no_promise() {
    assert_eq!(Tool::conventions().version_source, VersionSource::GitTag);
}

#[test]
fn a_hook_that_names_no_tag_is_refused_rather_than_left_with_nothing_to_try() {
    const URL: &str = "https://forge.example/aardvark-quorum.git";
    let where_it_would_look = Pin {
        url: URL.into(),
        reference: Reference::Version("0.1.0".into()),
    };
    let err = Resolved::resolve_with(&t(), &where_it_would_look, Some(Vec::new()), None).unwrap_err();
    assert!(err.contains("version_tags"), "{err}");
    assert!(err.contains("0.1.0"), "{err}");
    assert!(err.contains(URL), "the url it would have looked in: {err}");

    let published = Tool {
        version_source: VersionSource::RegistryThenGitTag,
        ..t()
    };
    assert!(Resolved::resolve_with(&published, &where_it_would_look, Some(Vec::new()), None).is_err());

    let ok = Resolved::resolve_with(&t(), &pin(Reference::Version("0.1.0".into())), Some(v(&["v0.1.0"])), None).unwrap();
    assert_eq!(ok.attempts().len(), 1);
}

#[test]
fn a_repository_that_prefixes_its_tags_can_say_so() {
    let r = Resolved::resolve_with(&t(), &pin(Reference::Version("0.1.0".into())), Some(v(&["v0.1.0"])), None).unwrap();
    assert_eq!(r.attempts(), &vec![v(&["--git", "u", "--tag", "v0.1.0", "engine"])]);
    assert_eq!(r.git_ref(), ("tag", "v0.1.0"));
}

#[test]
fn every_tag_a_tool_names_is_tried_in_order() {
    let r = Resolved::resolve_with(
        &t(),
        &pin(Reference::Version("0.1.0".into())),
        Some(v(&["v0.1.0", "0.1.0"])),
        None,
    )
    .unwrap();
    assert_eq!(r.attempts().len(), 2);
    assert_eq!(r.attempts()[0], v(&["--git", "u", "--tag", "v0.1.0", "engine"]));
    assert_eq!(r.attempts()[1], v(&["--git", "u", "--tag", "0.1.0", "engine"]));
}

#[test]
fn the_engine_crate_named_in_the_attempts_is_the_tools_own() {
    let other = Tool {
        engine_crate: "somethingelse",
        engine_bin: None,
        ..t()
    };
    let r = resolve(&other, &pin(Reference::Tag("v1".into()))).unwrap();
    assert_eq!(r.attempts(), &vec![v(&["--git", "u", "--tag", "v1", "somethingelse"])]);
}

#[test]
fn a_rev_resolves_to_one_git_attempt() {
    let r = resolve(&t(), &pin(Reference::Rev("sha1".into()))).unwrap();
    assert_eq!(r.key_rev, "sha1");
    assert_eq!(r.attempts(), &vec![v(&["--git", "u", "--rev", "sha1", "engine"])]);
    assert_eq!(r.git_ref(), ("rev", "sha1"));
}

#[test]
fn a_tag_resolves_to_the_tag_only() {
    let r = resolve(&t(), &pin(Reference::Tag("nightly".into()))).unwrap();
    assert_eq!(r.key_rev, "tag:nightly");
    assert_eq!(r.attempts(), &vec![v(&["--git", "u", "--tag", "nightly", "engine"])]);
    assert_eq!(r.git_ref(), ("tag", "nightly"));
}

#[test]
fn a_branch_resolves_to_its_rev_and_the_git_ref_carries_the_rev_not_the_name() {
    let r = Resolved::resolve_with(&t(), &pin(Reference::Branch("dev".into())), None, Some("feedface99c0ffee".into())).unwrap();
    assert_eq!(r.key_rev, "feedface99c0ffee", "the resolved head was ignored");
    assert_eq!(r.git_ref(), ("rev", "feedface99c0ffee"));
    assert_eq!(r.attempts(), &vec![v(&["--git", "u", "--rev", "feedface99c0ffee", "engine"])]);
    assert!(!r.git_ref().1.contains("dev"));
}

#[test]
fn a_branch_falls_back_to_the_last_known_revision_when_the_remote_cannot_be_reached() {
    let got = branch_outcome(Err("git ls-remote u refs/heads/dev failed: nope".into()), Some((1, "feedface99c0ffee".into())));
    assert_eq!(got, Ok("feedface99c0ffee".to_string()));
    let err = branch_outcome(Err("git ls-remote u refs/heads/dev failed: nope".into()), None).unwrap_err();
    assert!(err.contains("ls-remote"), "the failure did not name what could not be reached: {err}");
    assert_eq!(branch_outcome(Ok("abc1234".into()), Some((1, "old".into()))), Ok("abc1234".to_string()));
}

#[test]
fn the_full_ref_is_asked_for_so_a_tag_of_the_same_name_cannot_answer() {
    assert_eq!(refspec("dev"), "refs/heads/dev");
    let err = ls_remote_answer("u", "dev", false, "", "fatal: 'u' does not appear to be a git repository\n").unwrap_err();
    assert!(err.contains("refs/heads/dev"), "the branch was asked for by bare name: {err}");
    assert!(err.ends_with("repository"), "the remote's message was not trimmed: {err:?}");
}

#[test]
fn the_remote_answer_is_its_first_word_and_a_short_one_is_no_revision() {
    assert_eq!(
        ls_remote_answer("u", "dev", true, "feedface99c0ffee\trefs/heads/dev\n", ""),
        Ok("feedface99c0ffee".to_string())
    );
    let err = ls_remote_answer("u", "dev", true, "", "").unwrap_err();
    assert!(err.contains("branch 'dev' not found on u"), "{err}");
    assert!(ls_remote_answer("u", "dev", true, "abc\tx\n", "").is_err());
    assert!(ls_remote_answer("u", "dev", true, "\nfeedface99c0ffee\n", "").is_err());
}

#[test]
fn the_branch_resolution_is_reused_inside_the_ttl_and_not_outside_it() {
    let now = 1_000_000u64;
    let rec = read_resolution(&format!("{now}\nfeedface99\n"));
    assert_eq!(fresh_resolution(&rec, now), Some("feedface99".into()));
    let rec = read_resolution(&format!("{}\nfeedface99\n", now - BRANCH_TTL_SECS - 1));
    assert_eq!(fresh_resolution(&rec, now), None);
}

#[test]
fn a_malformed_or_empty_resolution_is_not_reused() {
    for bad in ["", "notanumber\nabc\n", "123\n\n", "123\n"] {
        assert_eq!(read_resolution(bad), None, "{bad:?}");
        assert_eq!(fresh_resolution(&read_resolution(bad), 123), None, "{bad:?}");
    }
}

#[test]
fn a_resolution_reads_back_what_was_written() {
    let text = resolution_text(1234567, "feedface99c0ffee");
    assert_eq!(text, "1234567\nfeedface99c0ffee\n");
    assert_eq!(read_resolution(&text), Some((1234567, "feedface99c0ffee".to_string())));
    assert_eq!(read_resolution(" 12 \r\n  abc  \r\n"), Some((12, "abc".to_string())));
}

#[test]
fn two_branches_on_one_url_do_not_share_a_resolution() {
    assert_ne!(
        branch_resolution_path("/c", "u", "dev"),
        branch_resolution_path("/c", "u", "main")
    );
    assert_ne!(
        branch_resolution_path("/c", "u", "dev"),
        branch_resolution_path("/c", "v", "dev")
    );
    assert!(branch_resolution_path("/c", "u", "dev").starts_with("/c/branch-resolutions/"));
}

#[test]
fn a_pin_that_needs_no_remote_resolves_without_one() {
    let vr = Resolved::without_network(&t(), &pin(Reference::Version("1.2.3".into()))).unwrap();
    assert_eq!(vr.git_ref(), ("tag", "1.2.3"));
    assert_eq!(vr.key_rev, "v:1.2.3");

    let tr = Resolved::without_network(&t(), &pin(Reference::Tag("v9".into()))).unwrap();
    assert_eq!(tr.git_ref(), ("tag", "v9"));

    let rr = Resolved::without_network(&t(), &pin(Reference::Rev("a".repeat(40)))).unwrap();
    assert_eq!(rr.git_ref(), ("rev", "a".repeat(40).as_str()));

    for reference in [
        Reference::Version("1.2.3".into()),
        Reference::Tag("v9".into()),
        Reference::Rev("a".repeat(40)),
    ] {
        let p = pin(reference);
        assert_eq!(
            Resolved::without_network(&t(), &p).unwrap(),
            resolve(&t(), &p).unwrap(),
            "{p:?}"
        );
    }
}

#[test]
fn a_branch_pin_is_refused_rather_than_reaching_the_network() {
    let err = Resolved::without_network(&t(), &pin(Reference::Branch("dev".into()))).unwrap_err();
    assert!(err.contains("dev"), "the branch is not named: {err}");
    assert!(err.contains("network"), "{err}");
}
