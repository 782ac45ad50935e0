//! The repo-location `GIT_*` variables git exports into hooks.
//!
//! A launcher runs routinely as a grandchild of a git hook, and it spawns
//! processes whose working directory is not the hook's. With `GIT_DIR`
//! inherited, git reads the hook's repository rather than the one under the
//! working directory, so these are dropped before anything else happens. The
//! author and committer identity variables are not repo locations and stay.

use vstd::prelude::*;

verus! {

/// The variables git exports into a hook to say where the repo is.
pub const GIT_REPO_ENV: [&'static str; 7] = [
    "GIT_DIR",
    "GIT_COMMON_DIR",
    "GIT_WORK_TREE",
    "GIT_INDEX_FILE",
    "GIT_OBJECT_DIRECTORY",
    "GIT_ALTERNATE_OBJECT_DIRECTORIES",
    "GIT_PREFIX",
];

} // verus!
