use renki::GIT_REPO_ENV;

#[test]
fn the_set_is_the_repo_location_variables_and_not_the_identity_ones() {
    for want in [
        "GIT_DIR",
        "GIT_COMMON_DIR",
        "GIT_WORK_TREE",
        "GIT_INDEX_FILE",
        "GIT_OBJECT_DIRECTORY",
        "GIT_ALTERNATE_OBJECT_DIRECTORIES",
        "GIT_PREFIX",
    ] {
        assert!(GIT_REPO_ENV.contains(&want), "{want} is no longer scrubbed");
    }
    assert_eq!(GIT_REPO_ENV.len(), 7, "something was added without a test");
}

#[test]
fn the_authoring_variables_are_left_alone() {
    for keep in [
        "GIT_AUTHOR_NAME",
        "GIT_AUTHOR_EMAIL",
        "GIT_COMMITTER_NAME",
        "GIT_COMMITTER_EMAIL",
    ] {
        assert!(!GIT_REPO_ENV.contains(&keep), "{keep} must survive");
    }
}
