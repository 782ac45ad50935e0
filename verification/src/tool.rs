//! What distinguishes one launcher from another.
//!
//! Everything else in this crate is the same for every tool: find the repo,
//! read the pin, resolve it to build attempts, build once into a keyed cache,
//! hand over. A [`Tool`] is the handful of names that differ.
//!
//! The places where a tool decides something of its own (the hooks) are
//! functions, and functions are values this library does not hold: where a
//! decision here depends on what a hook answered, the answer is an argument.

use vstd::prelude::*;

use crate::path::{collapse_dot, collapse_dot_spec, join, join_spec};
use crate::text::{is_alnum, is_digit, same};

verus! {

/// How the repo root is found, walking up from the working directory.
#[derive(Debug, Clone, Copy, PartialEq, Eq)]
pub enum Anchor {
    /// The nearest ancestor holding an entry of this name, `.git` in practice.
    Marker(&'static str),
    /// The nearest ancestor holding the config file itself.
    ConfigFile,
}

/// Conventional spellings for the two launcher flags.
pub struct Cli;

impl Cli {
    /// The conventional [`Tool::dir_flag`].
    pub const DIR_FLAG: &'static str = "--dir";
    /// The conventional [`Tool::engine_flag`].
    pub const ENGINE_FLAG: &'static str = "--engine";
}

/// The query the launcher answers without building or running the engine, and
/// the names it answers under.
#[derive(Debug, Clone, Copy, PartialEq, Eq)]
pub struct Locate {
    /// The subcommand that triggers the query, or `None` for a tool that
    /// answers no such query and forwards every subcommand to the engine.
    pub subcommand: Option<&'static str>,
    /// What the answer calls the repo root.
    pub root_key: &'static str,
    /// What the answer calls the config file's path.
    pub config_key: &'static str,
    /// What the answer calls the working directory.
    pub workdir_key: &'static str,
}

impl Default for Locate {
    /// The conventional spelling: a `locate` subcommand answering under `root`,
    /// `config` and `workdir`.
    fn default() -> (r: Locate)
        ensures
            r.subcommand == Some("locate"),
            r.root_key == "root",
            r.config_key == "config",
            r.workdir_key == "workdir",
    {
        Locate {
            subcommand: Some("locate"),
            root_key: "root",
            config_key: "config",
            workdir_key: "workdir",
        }
    }
}

/// What the pin keys inside a repo's config are called.
#[derive(Debug, Clone, Copy, PartialEq, Eq)]
pub struct PinKeys {
    /// A released version.
    pub version: &'static str,
    /// An exact commit.
    pub rev: &'static str,
    /// A tag.
    pub tag: &'static str,
    /// A moving branch head.
    pub branch: &'static str,
    /// Where the engine's source is, overriding [`Tool::default_url`].
    pub git: &'static str,
}

impl PinKeys {
    /// Whether any of the five names is empty.
    pub open spec fn has_empty(&self) -> bool {
        self.version@.len() == 0 || self.rev@.len() == 0 || self.tag@.len() == 0
            || self.branch@.len() == 0 || self.git@.len() == 0
    }

    /// The first empty name, or `None`.
    pub fn defect(&self) -> (r: Option<&'static str>)
        ensures
            r == (if self.has_empty() {
                Some("a pin key is empty, so that pin form can never be read")
            } else {
                None::<&'static str>
            }),
    {
        if self.version.is_empty() || self.rev.is_empty() || self.tag.is_empty()
            || self.branch.is_empty() || self.git.is_empty() {
            return Some("a pin key is empty, so that pin form can never be read");
        }
        None
    }
}

/// Whether a launcher keeps itself current.
#[derive(Debug, Clone, Copy, PartialEq, Eq)]
pub enum SelfUpdate {
    /// Never. The launcher is whatever was installed.
    Never,
    /// Reinstall when the installed launcher came from a branch and that
    /// branch has moved, at most once an hour.
    ChaseTheBranch,
}

/// Where a version pin may resolve from.
///
/// A version could mean the pinned repository's tag of that name, or a
/// registry release of the engine crate, and the registry resolves by name
/// with nothing tying the name to the pinned url. So the registry is only
/// consulted for a tool that has said it owns the name.
#[derive(Debug, Clone, Copy, PartialEq, Eq)]
pub enum VersionSource {
    /// The tag of that name in the pinned repository, and nothing else.
    GitTag,
    /// A registry release of the engine crate first, then the tag.
    RegistryThenGitTag,
}

/// A working subdirectory the config maps.
#[derive(Debug, Clone, Copy, PartialEq, Eq)]
pub struct Workdir {
    /// The config key naming it, e.g. `widget_dir`.
    pub key: &'static str,
    /// What a root-level config means when it does not set the key.
    pub root_default: &'static str,
}

/// The identity of one launcher.
#[derive(Debug, Clone, Copy, PartialEq, Eq)]
pub struct Tool {
    /// How the repo root is found.
    pub anchor: Anchor,
    /// The short name this launcher answers to, and, uppercased, the prefix of
    /// the environment variables it reads.
    pub short: &'static str,
    /// The one config file a repo carries, e.g. `widget.toml`.
    pub config_file: &'static str,
    /// What the pin keys inside that config are called.
    pub pin_keys: PinKeys,
    /// The engine's package name, which is what `cargo install` is asked for.
    pub engine_crate: &'static str,
    /// The binary that package installs, when it is not named after the
    /// package.
    pub engine_bin: Option<&'static str>,
    /// The cache directory name this launcher owns.
    pub cache_namespace: &'static str,
    /// How long, in seconds, a cached engine survives after the last run that
    /// wanted it.
    pub cache_retention_secs: u64,
    /// Directory names the config scan never descends into.
    pub scan_skip: &'static [&'static str],
    /// The engine's source when the config names none.
    pub default_url: &'static str,
    /// This launcher's own package name, as cargo's install ledger lists it.
    pub launcher_crate: &'static str,
    /// The working subdirectory the engine is pointed at, when the tool has
    /// one.
    pub workdir: Option<Workdir>,
    /// The flag the engine takes its absolute working directory on.
    pub dir_flag: &'static str,
    /// The flag that points the launcher at a checkout on disk instead of the
    /// pinned engine.
    pub engine_flag: &'static str,
    /// The query the launcher answers itself, and the names of its answer.
    pub locate: Locate,
    /// Whether this launcher keeps itself current.
    pub self_update: SelfUpdate,
    /// Where a version pin may resolve from.
    pub version_source: VersionSource,
}

/// The directory names no config scan ever descends into.
pub const CONVENTIONAL_SKIP: [&'static str; 3] = [".git", "target", "node_modules"];

/// Thirty days, in seconds.
pub const CONVENTIONAL_RETENTION_SECS: u64 = 2592000;

/// Whether a short name can be made into an environment variable name: not
/// empty, not starting with a digit, and only ASCII letters, digits and `_`.
pub open spec fn short_usable(s: Seq<char>) -> bool {
    &&& s.len() > 0
    &&& !is_digit(s[0])
    &&& forall|i: int| 0 <= i < s.len() ==> is_alnum(#[trigger] s[i]) || s[i] == '_'
}

/// The name of the binary a tool's engine build produces.
pub open spec fn bin_name(t: Tool) -> &'static str {
    match t.engine_bin {
        Some(name) => name,
        None => t.engine_crate,
    }
}

/// The first thing wrong with a descriptor, in the order a run reaches them.
pub open spec fn defect_of(t: Tool) -> Option<&'static str> {
    if !short_usable(t.short@) {
        Some(
            "short is not usable as an environment variable name, so the tool's own overrides could never be set",
        )
    } else if t.config_file@.len() == 0 {
        Some("config_file is empty, so discovery has nothing to look for")
    } else if t.pin_keys.has_empty() {
        Some("a pin key is empty, so that pin form can never be read")
    } else if t.engine_crate@.len() == 0 {
        Some("engine_crate is empty, so there is nothing to build")
    } else if t.engine_bin matches Some(b) && b@.len() == 0 {
        Some(
            "engine_bin is empty, so the built binary is looked for at the bin directory itself and the engine rebuilds on every run",
        )
    } else if t.cache_namespace@.len() == 0 {
        Some("cache_namespace is empty, so this tool would share a cache with every other")
    } else if t.launcher_crate@.len() == 0 {
        Some("launcher_crate is empty, so the update check can never find its own install")
    } else if t.default_url@.len() == 0 {
        Some(
            "default_url is empty, so the git attempts ask cargo to install from nowhere and it fails naming nothing the user wrote",
        )
    } else if t.dir_flag@.len() == 0 || t.engine_flag@.len() == 0 {
        Some(
            "dir_flag or engine_flag is empty, which puts a bare empty argument on the command line",
        )
    } else if t.dir_flag@ == t.engine_flag@ {
        Some(
            "dir_flag and engine_flag are the same string, so the override is unreachable: the directory is stripped first and nothing is left for the engine flag to find",
        )
    } else if t.anchor matches Anchor::Marker(m) && m@.len() == 0 {
        Some("the anchor marker is empty, so the root walk matches every directory")
    } else {
        None
    }
}

/// The working directory for a config found at `config_dir` inside `root`,
/// with `declared` read from the config: the root itself for a tool with no
/// working directory; otherwise the declared name, or the default for where
/// the config sits, joined onto the config's directory, with a trailing `/.`
/// collapsed.
pub open spec fn workdir_for_spec(
    t: Tool,
    root: Seq<char>,
    config_dir: Seq<char>,
    declared: Option<Seq<char>>,
) -> Seq<char> {
    match t.workdir {
        None => root,
        Some(wd) => {
            let default = if config_dir == root {
                wd.root_default@
            } else {
                seq!['.']
            };
            let name = match declared {
                Some(d) => d,
                None => default,
            };
            collapse_dot_spec(join_spec(config_dir, name))
        },
    }
}

/// The working directory is the original join, compared the way paths
/// compare: a tool with no working directory runs against the root itself;
/// otherwise the result has, component by component, the components of the
/// config's directory joined with the declared name, or with the default (the
/// root's conventional subdirectory for a config at the root, `.` for one in
/// a subdirectory).
pub proof fn law_the_working_directory_is_the_join(
    t: Tool,
    root: Seq<char>,
    config_dir: Seq<char>,
    declared: Option<Seq<char>>,
)
    ensures
        match t.workdir {
            None => workdir_for_spec(t, root, config_dir, declared) == root,
            Some(wd) => {
                let name = match declared {
                    Some(d) => d,
                    None => if config_dir == root { wd.root_default@ } else { seq!['.'] },
                };
                crate::path::path_components(
                    workdir_for_spec(t, root, config_dir, declared),
                ) == crate::path::path_components(join_spec(config_dir, name))
            },
        },
{
    if let Some(wd) = t.workdir {
        let name = match declared {
            Some(d) => d,
            None => if config_dir == root { wd.root_default@ } else { seq!['.'] },
        };
        crate::path::lemma_collapse_keeps_components(join_spec(config_dir, name));
    }
}

/// The working directory when no config was found at all.
pub open spec fn workdir_default_spec(t: Tool, root: Seq<char>) -> Seq<char> {
    match t.workdir {
        Some(wd) => collapse_dot_spec(join_spec(root, wd.root_default@)),
        None => root,
    }
}

/// A repo with no config runs against the tool's conventional working
/// directory under its root: for a tool with a working directory, the result
/// has the components of the root joined with the tool's `root_default`; for a
/// tool without one, it is the root itself.
pub proof fn law_a_repo_without_config_runs_in_the_conventional_directory(t: Tool, root: Seq<char>)
    ensures
        match t.workdir {
            Some(wd) => crate::path::path_components(workdir_default_spec(t, root))
                == crate::path::path_components(join_spec(root, wd.root_default@)),
            None => workdir_default_spec(t, root) == root,
        },
{
    if let Some(wd) = t.workdir {
        crate::path::lemma_collapse_keeps_components(join_spec(root, wd.root_default@));
    }
}

/// A tool looks for the binary it names, and a tool that names none looks for
/// the one named after its engine crate, which is what `cargo install` of that
/// crate produces by default.
pub proof fn law_the_engine_binary_is_the_named_one_or_the_crates(t: Tool)
    ensures
        t.engine_bin is None ==> bin_name(t) == t.engine_crate,
        t.engine_bin matches Some(b) ==> bin_name(t) == b,
{
}

/// The Unicode uppercase of a string, as `str::to_uppercase` computes it.
pub uninterp spec fn unicode_upper(s: Seq<char>) -> Seq<char>;

/// `str::to_uppercase`: the result is named by [`unicode_upper`] over the
/// argument's characters; the case mapping itself is not restated here.
#[verifier::external_body]
pub(crate) fn to_uppercase(s: &str) -> (r: String)
    ensures
        r@ == unicode_upper(s@),
{
    s.to_uppercase()
}

impl Tool {
    /// Everything a launcher can be given a conventional answer for, and an
    /// empty string everywhere it cannot. Spread it with `..` so that only the
    /// fields which differ get named; [`Tool::defect`] refuses every empty
    /// name it leaves.
    pub fn conventions() -> (r: Tool)
        ensures
            r.anchor == Anchor::Marker(".git"),
            r.short == "",
            r.config_file == "",
            r.pin_keys == (PinKeys { version: "", rev: "", tag: "", branch: "", git: "" }),
            r.engine_crate == "",
            r.engine_bin == None::<&'static str>,
            r.cache_namespace == "",
            r.cache_retention_secs == CONVENTIONAL_RETENTION_SECS,
            r.scan_skip@ == CONVENTIONAL_SKIP@,
            r.default_url == "",
            r.launcher_crate == "",
            r.workdir == None::<Workdir>,
            r.dir_flag == Cli::DIR_FLAG,
            r.engine_flag == Cli::ENGINE_FLAG,
            r.locate.subcommand == Some("locate"),
            r.locate.root_key == "root",
            r.locate.config_key == "config",
            r.locate.workdir_key == "workdir",
            r.self_update == SelfUpdate::ChaseTheBranch,
            r.version_source == VersionSource::GitTag,
    {
        Tool {
            anchor: Anchor::Marker(".git"),
            short: "",
            config_file: "",
            pin_keys: PinKeys { version: "", rev: "", tag: "", branch: "", git: "" },
            engine_crate: "",
            engine_bin: None,
            cache_namespace: "",
            cache_retention_secs: CONVENTIONAL_RETENTION_SECS,
            scan_skip: &CONVENTIONAL_SKIP,
            default_url: "",
            launcher_crate: "",
            workdir: None,
            dir_flag: Cli::DIR_FLAG,
            engine_flag: Cli::ENGINE_FLAG,
            locate: Locate::default(),
            self_update: SelfUpdate::ChaseTheBranch,
            version_source: VersionSource::GitTag,
        }
    }

    /// The file name of the binary the engine's build produces.
    pub fn engine_bin_name(&self) -> (r: &'static str)
        ensures
            r == bin_name(*self),
    {
        match self.engine_bin {
            Some(name) => name,
            None => self.engine_crate,
        }
    }

    /// Whether [`Tool::short`] can survive being made into an environment
    /// variable name.
    pub fn short_is_usable(&self) -> (r: bool)
        ensures
            r == short_usable(self.short@),
    {
        let b = crate::text::chars_of(self.short);
        if b.len() == 0 || ('0' <= b[0] && b[0] <= '9') {
            return false;
        }
        let mut i: usize = 0;
        while i < b.len()
            invariant
                b@ == self.short@,
                i <= b@.len(),
                forall|j: int| 0 <= j < i ==> is_alnum(#[trigger] b@[j]) || b@[j] == '_',
            decreases b.len() - i,
        {
            let c = b[i];
            let ok = ('0' <= c && c <= '9') || ('a' <= c && c <= 'z') || ('A' <= c && c <= 'Z')
                || c == '_';
            if !ok {
                assert(!(is_alnum(b@[i as int]) || b@[i as int] == '_'));
                return false;
            }
            i = i + 1;
        }
        true
    }

    /// The first thing wrong with this descriptor, or `None`.
    ///
    /// Every name here ends up in a path, a command line, an environment
    /// variable or a config key, and an empty one produces a launcher that
    /// runs and does the wrong thing quietly rather than one that fails.
    pub fn defect(&self) -> (r: Option<&'static str>)
        ensures
            r == defect_of(*self),
    {
        if !self.short_is_usable() {
            return Some(
                "short is not usable as an environment variable name, so the tool's own overrides could never be set",
            );
        }
        if self.config_file.is_empty() {
            return Some("config_file is empty, so discovery has nothing to look for");
        }
        if let Some(bad) = self.pin_keys.defect() {
            return Some(bad);
        }
        if self.engine_crate.is_empty() {
            return Some("engine_crate is empty, so there is nothing to build");
        }
        if let Some(bin) = self.engine_bin {
            if bin.is_empty() {
                return Some(
                    "engine_bin is empty, so the built binary is looked for at the bin directory itself and the engine rebuilds on every run",
                );
            }
        }
        if self.cache_namespace.is_empty() {
            return Some(
                "cache_namespace is empty, so this tool would share a cache with every other",
            );
        }
        if self.launcher_crate.is_empty() {
            return Some(
                "launcher_crate is empty, so the update check can never find its own install",
            );
        }
        if self.default_url.is_empty() {
            return Some(
                "default_url is empty, so the git attempts ask cargo to install from nowhere and it fails naming nothing the user wrote",
            );
        }
        if self.dir_flag.is_empty() || self.engine_flag.is_empty() {
            return Some(
                "dir_flag or engine_flag is empty, which puts a bare empty argument on the command line",
            );
        }
        if same(self.dir_flag, self.engine_flag) {
            return Some(
                "dir_flag and engine_flag are the same string, so the override is unreachable: the directory is stripped first and nothing is left for the engine flag to find",
            );
        }
        if let Anchor::Marker(m) = self.anchor {
            if m.is_empty() {
                return Some(
                    "the anchor marker is empty, so the root walk matches every directory",
                );
            }
        }
        None
    }

    /// The environment variable naming the repo root: the short name
    /// uppercased, plus `_ROOT`.
    pub fn root_env(&self) -> (r: String)
        ensures
            r@ == unicode_upper(self.short@) + "_ROOT"@,
    {
        let mut s = to_uppercase(self.short);
        s.append("_ROOT");
        s
    }

    /// The environment variable naming this launcher's cache directory: the
    /// short name uppercased, plus `_CACHE`.
    pub fn cache_env(&self) -> (r: String)
        ensures
            r@ == unicode_upper(self.short@) + "_CACHE"@,
    {
        let mut s = to_uppercase(self.short);
        s.append("_CACHE");
        s
    }

    /// The environment variable naming this launcher's state directory: the
    /// short name uppercased, plus `_STATE`.
    pub fn state_env(&self) -> (r: String)
        ensures
            r@ == unicode_upper(self.short@) + "_STATE"@,
    {
        let mut s = to_uppercase(self.short);
        s.append("_STATE");
        s
    }

    /// The environment variable that opts out of launcher self-update.
    pub fn no_self_update_env(&self) -> (r: String)
        ensures
            r@ == unicode_upper(self.short@) + "_NO_SELF_UPDATE"@,
    {
        let mut s = to_uppercase(self.short);
        s.append("_NO_SELF_UPDATE");
        s
    }

    /// The working directory to run the engine against, for a config found at
    /// `config_dir` inside `root`, with `declared` read from the config.
    ///
    /// A tool with no [`Workdir`] runs against the repo root, whatever the
    /// config says.
    pub fn workdir_for(&self, root: &str, config_dir: &str, declared: Option<String>) -> (r:
        String)
        ensures
            r@ == workdir_for_spec(
                *self,
                root@,
                config_dir@,
                match declared {
                    Some(d) => Some(d@),
                    None => None,
                },
            ),
    {
        match self.workdir {
            None => crate::text::owned(root),
            Some(wd) => {
                let name = match declared {
                    Some(d) => d,
                    None => {
                        if same(config_dir, root) {
                            crate::text::owned(wd.root_default)
                        } else {
                            let mut dot = String::new();
                            crate::text::push_char(&mut dot, '.');
                            dot
                        }
                    },
                };
                collapse_dot(join(config_dir, name.as_str()))
            },
        }
    }

    /// The working directory when no config was found at all: the
    /// conventional one under the repo root, or the root itself for a tool
    /// with none.
    pub fn workdir_default(&self, root: &str) -> (r: String)
        ensures
            r@ == workdir_default_spec(*self, root@),
    {
        match self.workdir {
            Some(wd) => collapse_dot(join(root, wd.root_default)),
            None => crate::text::owned(root),
        }
    }
}

} // verus!
