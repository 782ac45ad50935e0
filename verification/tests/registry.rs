use renki::cache::compute_key;
use renki::registry::{
    is_build_key, pin_form_and_value, registry_path, Build, PinForm, PinSource, Recording,
    Registry, GC_INTERVAL_SECS,
};
use renki::{Pin, Reference};

const RETENTION_SECS: u64 = 30 * 24 * 60 * 60;

const KEY: &str = "00112233445566aa";
const STALE_KEY: &str = "0123456789abcdef";
const CURRENT_KEY: &str = "fedcba9876543210";
const OTHER_KEY: &str = "aabbccdd00112233";

fn rec<'a>(root: &'a str, key: &'a str, form: PinForm, pin_value: &'a str, now: u64) -> Recording<'a> {
    Recording {
        root,
        root_exact: true,
        name: "r",
        workdir: "/r/widget",
        engine_url: "u",
        form,
        pin_value,
        key,
        key_rev: "rev1",
        toolchain: "tc",
        now,
    }
}

fn build(key: &str, last_used: u64) -> Build {
    Build {
        key: key.to_string(),
        engine_url: "u".to_string(),
        key_rev: "r".to_string(),
        toolchain: "tc".to_string(),
        built_at: last_used,
        last_used,
    }
}

#[test]
fn the_test_keys_are_distinct() {
    let keys = [KEY, STALE_KEY, CURRENT_KEY, OTHER_KEY];
    for (i, a) in keys.iter().enumerate() {
        for b in &keys[i + 1..] {
            assert_ne!(a, b, "two of the test keys are the same string");
        }
    }
}

#[test]
fn record_upserts_consumer_and_build() {
    let mut r = Registry::default();
    r.record(&rec("/r", "k1", PinForm::Branch, "dev", 100));
    r.record(&rec("/r", "k1", PinForm::Branch, "dev", 200));
    assert_eq!(r.consumers.len(), 1);
    assert_eq!(r.consumers[0].last_seen, 200);
    assert_eq!(r.builds.len(), 1);
    assert_eq!(r.builds[0].last_used, 200);
    assert_eq!(r.consumers[0].pin_form, "branch");
}

#[test]
fn record_repin_leaves_old_build_orphaned() {
    let mut r = Registry::default();
    r.record(&rec("/r", "old", PinForm::Branch, "dev", 100));
    r.record(&rec("/r", "new", PinForm::Version, "0.0.1", 200));
    assert_eq!(r.consumers.len(), 1);
    assert_eq!(r.consumers[0].key, "new");
    assert_eq!(r.builds.len(), 2);
}

#[test]
fn a_second_repo_is_a_second_consumer_of_the_same_build() {
    let mut r = Registry::default();
    r.record(&rec("/a", KEY, PinForm::Tag, "v1", 10));
    r.record(&rec("/b", KEY, PinForm::Tag, "v1", 20));
    assert_eq!(r.consumers.len(), 2);
    assert_eq!(r.builds.len(), 1);
    assert_eq!(r.builds[0].built_at, 10);
    assert_eq!(r.builds[0].last_used, 20);
}

#[test]
fn gc_due_throttles() {
    let r = Registry {
        last_gc: 1000,
        ..Default::default()
    };
    assert!(!r.gc_due(1000 + GC_INTERVAL_SECS - 1));
    assert!(r.gc_due(1000 + GC_INTERVAL_SECS));
}

#[test]
fn a_key_that_is_not_ours_never_reaches_the_delete() {
    assert!(is_build_key("0123456789abcdef"));
    assert!(is_build_key(&compute_key("u", "r", "tc")));

    for bad in [
        "../../../etc",
        "a/b",
        "/absolute",
        "..",
        "",
        "0123456789ABCDEF",
        "0123456789abcde",
        "0123456789abcdef0",
        "0123456789abcdeg",
        "0123456789abcde/",
    ] {
        assert!(!is_build_key(bad), "{bad:?} passed as a build key");
    }
}

#[test]
fn gc_removes_orphan_build_but_keeps_pinned() {
    const PINNED: &str = "1111111111111111";
    const ORPHAN: &str = "2222222222222222";
    let mut r = Registry::default();
    r.record(&rec("/c/repo", PINNED, PinForm::Branch, "dev", 1000));
    r.builds.push(build(ORPHAN, 1));
    let out = r.gc("/c", &[true], PINNED, RETENTION_SECS, 2000);
    assert_eq!(out.removed, vec![ORPHAN.to_string()]);
    assert_eq!(out.delete, vec![format!("/c/builds/{ORPHAN}")]);
    assert_eq!(r.builds.len(), 1);
    assert_eq!(r.builds[0].key, PINNED);
    assert_eq!(r.last_gc, 2000);
}

#[test]
fn gc_evicts_build_whose_consumers_are_all_stale() {
    let mut r = Registry::default();
    r.record(&rec("/c/repo", STALE_KEY, PinForm::Branch, "dev", 1));
    let out = r.gc("/c", &[true], OTHER_KEY, RETENTION_SECS, RETENTION_SECS + 1000);
    assert_eq!(out.removed, vec![STALE_KEY.to_string()]);
    assert_eq!(out.delete, vec![format!("/c/builds/{STALE_KEY}")]);
    assert_eq!(r.consumers.len(), 1, "a stale consumer with a live root stays");
}

#[test]
fn gc_protects_current_key_even_if_stale() {
    let mut r = Registry::default();
    r.record(&rec("/c/repo", CURRENT_KEY, PinForm::Branch, "dev", 1));
    let out = r.gc("/c", &[true], CURRENT_KEY, RETENTION_SECS, RETENTION_SECS + 1000);
    assert!(out.removed.is_empty());
    assert!(out.delete.is_empty());
    assert_eq!(r.builds.len(), 1);
}

#[test]
fn gc_drops_consumer_whose_root_is_gone() {
    let mut r = Registry::default();
    r.record(&rec("/no/such/repo", "k", PinForm::Branch, "dev", 1000));
    let out = r.gc("/c", &[false], "protect-nothing", RETENTION_SECS, 2000);
    assert!(r.consumers.is_empty());
    assert_eq!(out.removed, vec!["k".to_string()]);
    assert!(out.delete.is_empty(), "a key of the wrong shape is never deleted");
}

#[test]
fn the_guard_spares_a_directory_outside_the_cache_and_still_evicts_a_real_one() {
    let real = compute_key("u", "r", "tc");
    let mut reg = Registry {
        builds: vec![build("../outside", 0), build(&real, 0)],
        ..Default::default()
    };
    let out = reg.gc("/d", &[], "", RETENTION_SECS, 10_000_000);
    assert_eq!(out.removed.len(), 2, "both rows leave the registry either way");
    assert_eq!(out.delete, vec![format!("/d/builds/{real}")]);
    assert!(reg.builds.is_empty());
}

#[test]
fn a_root_that_could_not_be_written_exactly_is_not_dropped_for_being_absent() {
    let mut r = Registry::default();
    let mut inexact = rec("/r/\u{fffd}\u{fffd}", KEY, PinForm::Version, "0.1.0", 1000);
    inexact.root_exact = false;
    r.record(&inexact);
    let out = r.gc("/c", &[false], "another-key", RETENTION_SECS, 2000);
    assert_eq!(r.consumers.len(), 1);
    assert!(out.removed.is_empty());


    let mut r = Registry::default();
    r.record(&rec("/r/\u{fffd}\u{fffd}", KEY, PinForm::Version, "0.1.0", 1000));
    let out = r.gc("/c", &[false], "another-key", RETENTION_SECS, 2000);
    assert_eq!(out.removed, vec![KEY.to_string()]);
    assert!(r.consumers.is_empty());
}

#[test]
fn an_exempt_row_still_ages_out_through_the_retention_window() {
    let mut r = Registry::default();
    let mut inexact = rec("/r/\u{fffd}\u{fffd}", KEY, PinForm::Version, "0.1.0", 1000);
    inexact.root_exact = false;
    r.record(&inexact);
    let out = r.gc("/c", &[false], "another-key", RETENTION_SECS, 1000 + RETENTION_SECS + 1);
    assert_eq!(out.removed, vec![KEY.to_string()]);
    assert_eq!(out.delete, vec![format!("/c/builds/{KEY}")]);
}

#[test]
fn the_registry_file_sits_under_the_root() {
    assert_eq!(registry_path("/c"), "/c/registry.toml");
}

#[test]
fn registry_tests_a_legacy_pin_registers_as_legacy_whatever_its_reference_is() {
    let p = Pin {
        url: "u".into(),
        reference: Reference::Rev("abc".into()),
    };
    assert_eq!(
        pin_form_and_value(&p, PinSource::Config),
        (PinForm::Rev, "abc".to_string())
    );
    assert_eq!(
        pin_form_and_value(&p, PinSource::Legacy),
        (PinForm::Legacy, "abc".to_string())
    );
}

#[test]
fn every_form_has_its_recorded_name() {
    assert_eq!(PinForm::Version.as_str(), "version");
    assert_eq!(PinForm::Branch.as_str(), "branch");
    assert_eq!(PinForm::Rev.as_str(), "rev");
    assert_eq!(PinForm::Tag.as_str(), "tag");
    assert_eq!(PinForm::Legacy.as_str(), "legacy");
}

#[test]
fn every_build_row_is_either_kept_or_reported_removed() {
    let mut r = Registry::default();
    r.record(&rec("/c/a", KEY, PinForm::Tag, "v1", 5000));
    r.builds.push(build(STALE_KEY, 1));
    r.builds.push(build(OTHER_KEY, 1));
    r.builds.push(build(CURRENT_KEY, 1));
    let before = r.builds.len();
    let out = r.gc("/c", &[true], CURRENT_KEY, 100, 5050);
    assert_eq!(r.builds.len() + out.removed.len(), before);
    assert_eq!(out.removed, vec![STALE_KEY.to_string(), OTHER_KEY.to_string()]);
    let kept: Vec<&str> = r.builds.iter().map(|b| b.key.as_str()).collect();
    assert_eq!(kept, vec![KEY, CURRENT_KEY]);
}
