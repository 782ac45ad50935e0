//! The per-version build cache, and where it and the state directory live.
//!
//! Each distinct compilation input (the engine's url, its revision and the
//! toolchain) is built once into `<cache>/builds/<key>/bin/<engine>` and
//! shared by every repo pinned to it. The cache holds what a cleanup may take
//! at any time; the state holds the registry and the self-update marker.

use vstd::prelude::*;

use crate::engine::views;
use crate::hash::{fnv_fields, hex16, Fnv};
use crate::path::{join, join_spec};
use crate::text::{cat, has_char, contains_char, owned, push_char, same};
use crate::tool::{bin_name, Tool};

verus! {

/// Which of the two directories a root is for.
#[derive(Debug, Clone, Copy, PartialEq, Eq)]
pub enum Kind {
    /// What the launcher rebuilds without asking: builds, tools, resolutions.
    Cache,
    /// What the launcher would behave differently without: the registry and
    /// the self-update marker.
    State,
}

/// Whose layout the default directories follow.
#[derive(Debug, Clone, Copy, PartialEq, Eq)]
pub enum Platform {
    /// Linux and the BSDs: `~/.cache` and `~/.local/state`.
    Xdg,
    /// macOS: `~/Library/Caches` and `~/Library/Application Support`.
    MacOs,
}

/// The XDG variable naming a kind's base directory.
pub open spec fn xdg_var(k: Kind) -> Seq<char> {
    match k {
        Kind::Cache => "XDG_CACHE_HOME"@,
        Kind::State => "XDG_STATE_HOME"@,
    }
}

/// Where under the home directory a kind's base directory is, on a platform.
pub open spec fn home_base(k: Kind, p: Platform) -> Seq<char> {
    match (p, k) {
        (Platform::Xdg, Kind::Cache) => ".cache"@,
        (Platform::Xdg, Kind::State) => ".local/state"@,
        (Platform::MacOs, Kind::Cache) => "Library/Caches"@,
        (Platform::MacOs, Kind::State) => "Library/Application Support"@,
    }
}

/// Why a cache namespace is not a directory name.
pub open spec fn namespace_problem(ns: Seq<char>) -> Option<Seq<char>> {
    if ns.len() == 0 {
        Some("Empty"@)
    } else if ns == seq!['.'] || ns == seq!['.', '.'] {
        Some("Walks"@)
    } else if has_char(ns, '/') || has_char(ns, '\\') {
        Some("HasSeparator"@)
    } else {
        None
    }
}

/// `format!("{:?}", s)`: a string as Rust's `Debug` quotes and escapes it.
pub uninterp spec fn debug_quoted(s: Seq<char>) -> Seq<char>;

/// `<str as Debug>::fmt`, through `format!`. The quoting and escaping are
/// named by [`debug_quoted`] over the argument's characters and not restated.
#[verifier::external_body]
fn debug_str(s: &str) -> (r: String)
    ensures
        r@ == debug_quoted(s@),
{
    format!("{:?}", s)
}

/// Whether an optional value is set to something: present and not empty.
pub open spec fn is_set(v: Option<Seq<char>>) -> bool {
    v matches Some(s) && s.len() > 0
}

/// A kind's root on a platform, given the tool's own variable, the XDG one
/// and `HOME`. The tool's own variable names the whole path; the XDG one gets
/// the namespace under it; `HOME` gets the platform's base and the namespace
/// (and, for macOS state, a `state` directory) under it. An empty value is no
/// setting.
pub open spec fn root_spec(
    k: Kind,
    p: Platform,
    ns: Seq<char>,
    own: Option<Seq<char>>,
    xdg: Option<Seq<char>>,
    home: Option<Seq<char>>,
) -> Result<Seq<char>, Seq<char>> {
    if let Some(problem) = namespace_problem(ns) {
        Err("the tool's cache namespace "@ + debug_quoted(ns) + " is not a directory name: "@ + problem)
    } else if is_set(own) {
        Ok(own.unwrap())
    } else if is_set(xdg) {
        Ok(join_spec(xdg.unwrap(), ns))
    } else if is_set(home) {
        let base = join_spec(join_spec(home.unwrap(), home_base(k, p)), ns);
        if p == Platform::MacOs && k == Kind::State {
            Ok(join_spec(base, "state"@))
        } else {
            Ok(base)
        }
    } else {
        Err(
            "neither "@ + xdg_var(k) + " nor HOME is set, so there is nowhere to put the "@ + (
            match k {
                Kind::Cache => "cache"@,
                Kind::State => "state"@,
            }) + " files"@,
        )
    }
}

/// Joining two relative names onto one nonempty base gives one path only when
/// the names are the same.
proof fn lemma_join_keeps_names_apart(a: Seq<char>, b1: Seq<char>, b2: Seq<char>)
    requires
        a.len() > 0,
        !crate::path::is_absolute(b1),
        !crate::path::is_absolute(b2),
        join_spec(a, b1) == join_spec(a, b2),
    ensures
        b1 == b2,
{
    let pre = if a.last() == '/' { a } else { a + seq!['/'] };
    assert(join_spec(a, b1) == pre + b1);
    assert(join_spec(a, b2) == pre + b2);
    assert(b1 =~= (pre + b1).subrange(pre.len() as int, (pre + b1).len() as int));
    assert(b2 =~= (pre + b2).subrange(pre.len() as int, (pre + b2).len() as int));
}

/// A joined path ends with a nonempty relative name joined onto it, so it is
/// nonempty and does not end with a separator when the name does not.
proof fn lemma_join_shape(a: Seq<char>, b: Seq<char>)
    requires
        b.len() > 0,
        !crate::path::is_absolute(b),
    ensures
        join_spec(a, b).len() > 0,
        join_spec(a, b).last() == b.last(),
{
}

/// Two tools with different cache namespaces never share a root, short of
/// one naming its root outright through its own variable: under the same XDG
/// and `HOME` settings, two namespaces that are both directory names resolve
/// to two different roots.
pub proof fn law_namespaces_keep_roots_apart(
    k: Kind,
    p: Platform,
    ns1: Seq<char>,
    ns2: Seq<char>,
    xdg: Option<Seq<char>>,
    home: Option<Seq<char>>,
)
    requires
        ns1 != ns2,
    ensures
        match (root_spec(k, p, ns1, None, xdg, home), root_spec(k, p, ns2, None, xdg, home)) {
            (Ok(r1), Ok(r2)) => r1 != r2,
            _ => true,
        },
{
    if namespace_problem(ns1) is None && namespace_problem(ns2) is None {
        assert(!crate::path::is_absolute(ns1) && !crate::path::is_absolute(ns2)) by {
            if ns1.len() > 0 && ns1[0] == '/' {
                assert(has_char(ns1, '/'));
            }
            if ns2.len() > 0 && ns2[0] == '/' {
                assert(has_char(ns2, '/'));
            }
        }
        if is_set(xdg) {
            let x = xdg.unwrap();
            if join_spec(x, ns1) == join_spec(x, ns2) {
                lemma_join_keeps_names_apart(x, ns1, ns2);
            }
        } else if is_set(home) {
            let h = join_spec(home.unwrap(), home_base(k, p));
            assert(h.len() > 0) by {
                let hb = home_base(k, p);
                reveal_strlit(".cache");
                reveal_strlit(".local/state");
                reveal_strlit("Library/Caches");
                reveal_strlit("Library/Application Support");
                assert(hb.len() > 0);
            }
            let b1 = join_spec(h, ns1);
            let b2 = join_spec(h, ns2);
            if b1 == b2 {
                lemma_join_keeps_names_apart(h, ns1, ns2);
            }
            if p == Platform::MacOs && k == Kind::State {
                reveal_strlit("state");
                lemma_join_shape(h, ns1);
                lemma_join_shape(h, ns2);
                assert(ns1.last() != '/') by {
                    if ns1.last() == '/' {
                        assert(ns1[ns1.len() - 1] == '/');
                    }
                }
                assert(ns2.last() != '/') by {
                    if ns2.last() == '/' {
                        assert(ns2[ns2.len() - 1] == '/');
                    }
                }
                if join_spec(b1, "state"@) == join_spec(b2, "state"@) {
                    let s1 = b1 + seq!['/'] + "state"@;
                    let s2 = b2 + seq!['/'] + "state"@;
                    assert(join_spec(b1, "state"@) == s1);
                    assert(join_spec(b2, "state"@) == s2);
                    assert(s1.len() == s2.len());
                    assert(b1 =~= s1.subrange(0, b1.len() as int));
                    assert(b2 =~= s2.subrange(0, b2.len() as int));
                    lemma_join_keeps_names_apart(h, ns1, ns2);
                }
            }
        }
    }
}

/// The characters of an optional string.
pub open spec fn opt_str(v: Option<String>) -> Option<Seq<char>> {
    match v {
        Some(s) => Some(s@),
        None => None,
    }
}

fn is_set_exec(v: &Option<String>) -> (r: bool)
    ensures
        r == is_set(opt_str(*v)),
{
    match v {
        Some(s) => s.unicode_len() > 0,
        None => false,
    }
}

/// Why a namespace is refused, if it is.
fn namespace_problem_exec(ns: &str) -> (r: Option<&'static str>)
    ensures
        match r {
            Some(m) => namespace_problem(ns@) == Some(m@),
            None => namespace_problem(ns@) is None,
        },
{
    let x = crate::text::chars_of(ns);
    if x.len() == 0 {
        return Some("Empty");
    }
    let one = x.len() == 1 && x[0] == '.';
    let two = x.len() == 2 && x[0] == '.' && x[1] == '.';
    proof {
        if one {
            assert(x@ =~= seq!['.']);
        }
        if two {
            assert(x@ =~= seq!['.', '.']);
        }
        if x@.len() == 1 && !one {
            assert(x@[0] != seq!['.'][0]);
        }
        if x@.len() == 2 && !two {
            assert(x@[0] != seq!['.', '.'][0] || x@[1] != seq!['.', '.'][1]);
        }
    }
    if one || two {
        return Some("Walks");
    }
    if contains_char(ns, '/') || contains_char(ns, '\\') {
        return Some("HasSeparator");
    }
    None
}

/// A kind's root on a platform. See [`root_spec`].
pub fn root_from(
    kind: Kind,
    platform: Platform,
    tool: &Tool,
    own: Option<String>,
    xdg: Option<String>,
    home: Option<String>,
) -> (r: Result<String, String>)
    ensures
        match r {
            Ok(p) => root_spec(kind, platform, tool.cache_namespace@, opt_str(own), opt_str(xdg), opt_str(home))
                == Ok::<Seq<char>, Seq<char>>(p@),
            Err(e) => root_spec(kind, platform, tool.cache_namespace@, opt_str(own), opt_str(xdg), opt_str(home))
                == Err::<Seq<char>, Seq<char>>(e@),
        },
{
    let ns = tool.cache_namespace;
    if let Some(problem) = namespace_problem_exec(ns) {
        let mut m = owned("the tool's cache namespace ");
        let q = debug_str(ns);
        m.append(q.as_str());
        m.append(" is not a directory name: ");
        m.append(problem);
        return Err(m);
    }
    if is_set_exec(&own) {
        return Ok(own.unwrap());
    }
    if is_set_exec(&xdg) {
        return Ok(join(xdg.unwrap().as_str(), ns));
    }
    if is_set_exec(&home) {
        let h = home.unwrap();
        let under = match (platform, kind) {
            (Platform::Xdg, Kind::Cache) => ".cache",
            (Platform::Xdg, Kind::State) => ".local/state",
            (Platform::MacOs, Kind::Cache) => "Library/Caches",
            (Platform::MacOs, Kind::State) => "Library/Application Support",
        };
        let b = join(h.as_str(), under);
        let base = join(b.as_str(), ns);
        if matches!(platform, Platform::MacOs) && matches!(kind, Kind::State) {
            return Ok(join(base.as_str(), "state"));
        }
        return Ok(base);
    }
    let mut m = owned("neither ");
    m.append(
        match kind {
            Kind::Cache => "XDG_CACHE_HOME",
            Kind::State => "XDG_STATE_HOME",
        },
    );
    m.append(" nor HOME is set, so there is nowhere to put the ");
    m.append(
        match kind {
            Kind::Cache => "cache",
            Kind::State => "state",
        },
    );
    m.append(" files");
    Err(m)
}

/// The cache root on the XDG platforms: the tool's own `<SHORT>_CACHE` as the
/// whole path, else `$XDG_CACHE_HOME/<namespace>`, else
/// `$HOME/.cache/<namespace>`.
pub fn cache_root_from(
    tool: &Tool,
    own: Option<String>,
    xdg: Option<String>,
    home: Option<String>,
) -> (r: Result<String, String>)
    ensures
        match r {
            Ok(p) => root_spec(Kind::Cache, Platform::Xdg, tool.cache_namespace@, opt_str(own), opt_str(xdg), opt_str(home))
                == Ok::<Seq<char>, Seq<char>>(p@),
            Err(e) => root_spec(Kind::Cache, Platform::Xdg, tool.cache_namespace@, opt_str(own), opt_str(xdg), opt_str(home))
                == Err::<Seq<char>, Seq<char>>(e@),
        },
{
    root_from(Kind::Cache, Platform::Xdg, tool, own, xdg, home)
}

/// Where the keyed builds live under the cache root.
pub fn builds_dir(root: &str) -> (r: String)
    ensures
        r@ == join_spec(root@, "builds"@),
{
    join(root, "builds")
}

/// The cached engine binary for `key`: `<root>/builds/<key>/bin/<engine>`.
pub fn engine_bin_path(tool: &Tool, cache_root: &str, key: &str) -> (r: String)
    ensures
        r@ == join_spec(
            join_spec(join_spec(join_spec(cache_root@, "builds"@), key@), "bin"@),
            bin_name(*tool)@,
        ),
{
    let b = builds_dir(cache_root);
    let k = join(b.as_str(), key);
    let bin = join(k.as_str(), "bin");
    join(bin.as_str(), tool.engine_bin_name())
}

/// The cache key: the engine's url, the resolved revision and the toolchain
/// identity, hashed as three fields. A change in any of the three re-keys.
pub fn compute_key(url: &str, key_rev: &str, toolchain: &str) -> (r: String)
    ensures
        r@ == hex16(fnv_fields(seq![url@, key_rev@, toolchain@])),
{
    let mut h = Fnv::new();
    h.write_field(url);
    h.write_field(key_rev);
    h.write_field(toolchain);
    proof {
        crate::hash::lemma_fields_step(Seq::empty(), url@);
        crate::hash::lemma_fields_step(seq![url@], key_rev@);
        crate::hash::lemma_fields_step(seq![url@, key_rev@], toolchain@);
        assert(Seq::<Seq<char>>::empty().push(url@) =~= seq![url@]);
        assert(seq![url@].push(key_rev@) =~= seq![url@, key_rev@]);
        assert(seq![url@, key_rev@].push(toolchain@) =~= seq![url@, key_rev@, toolchain@]);
    }
    h.hex()
}

/// The failures joined, each on its own indented line.
pub open spec fn joined_failures(f: Seq<Seq<char>>) -> Seq<char>
    decreases f.len(),
{
    if f.len() == 0 {
        Seq::empty()
    } else if f.len() == 1 {
        f[0]
    } else {
        joined_failures(f.drop_last()) + "\n    - "@ + f.last()
    }
}

/// What the operator reads when no attempt produced a binary: the engine, each
/// attempt's failure in order, every cause worth checking, and the toolchain
/// in effect by its version line.
pub open spec fn build_failure_spec(krate: Seq<char>, failures: Seq<Seq<char>>, rustc: Seq<char>) -> Seq<char> {
    "could not build the "@ + krate
        + " engine for this pin; nothing was cached.\n  tried, in order:\n    - "@
        + joined_failures(failures)
        + "\n  the pin may be wrong, the release may not exist yet, the build may have broken, the engine may commit no lockfile and so have resolved fresh, or the toolchain in effect here ("@
        + rustc + ") may be older than one of the engine's dependencies requires."@
}

/// The build failure message. See [`build_failure_spec`]; `rustc` is the
/// `rustc --version` line, or a phrase saying there is none.
pub fn build_failure(engine_crate: &str, failures: &[String], rustc: &str) -> (r: String)
    ensures
        r@ == build_failure_spec(engine_crate@, views(failures@), rustc@),
{
    let mut m = owned("could not build the ");
    m.append(engine_crate);
    m.append(" engine for this pin; nothing was cached.\n  tried, in order:\n    - ");
    let ghost head = m@;
    let ghost fs = views(failures@);
    let mut i: usize = 0;
    while i < failures.len()
        invariant
            i <= failures@.len(),
            fs == views(failures@),
            m@ == head + joined_failures(fs.subrange(0, i as int)),
        decreases failures.len() - i,
    {
        proof {
            let sub = fs.subrange(0, i + 1);
            assert(sub.drop_last() =~= fs.subrange(0, i as int));
            assert(sub.last() == failures@[i as int]@);
            if i == 0 {
                assert(fs.subrange(0, 0) =~= Seq::<Seq<char>>::empty());
                assert(sub.len() == 1);
            }
        }
        if i > 0 {
            m.append("\n    - ");
        }
        m.append(failures[i].as_str());
        proof {
            if i == 0 {
                assert(head + Seq::<char>::empty() =~= head);
            }
        }
        i = i + 1;
    }
    proof {
        assert(fs.subrange(0, fs.len() as int) =~= fs);
    }
    m.append(
        "\n  the pin may be wrong, the release may not exist yet, the build may have broken, the engine may commit no lockfile and so have resolved fresh, or the toolchain in effect here (",
    );
    m.append(rustc);
    m.append(") may be older than one of the engine's dependencies requires.");
    m
}

/// The arguments the engine is run with, argv[0] first: the launcher's own
/// short name, the tool's directory flag and the absolute working directory,
/// then what the tool's hooks add, then the user's forwarded arguments.
pub fn engine_command_line(tool: &Tool, workdir: &str, extra: &[String], args: &[String]) -> (r:
    Vec<String>)
    ensures
        views(r@) == seq![tool.short@, tool.dir_flag@, workdir@] + views(extra@) + views(args@),
{
    let mut argv: Vec<String> = Vec::new();
    argv.push(owned(tool.short));
    argv.push(owned(tool.dir_flag));
    argv.push(owned(workdir));
    assert(views(argv@) =~= seq![tool.short@, tool.dir_flag@, workdir@]);
    let ghost head = views(argv@);
    let mut i: usize = 0;
    while i < extra.len()
        invariant
            i <= extra@.len(),
            views(argv@) == head + views(extra@).subrange(0, i as int),
        decreases extra.len() - i,
    {
        let ghost before = argv@;
        argv.push(extra[i].clone());
        proof {
            assert(views(argv@) =~= views(before).push(extra@[i as int]@));
            assert(views(extra@).subrange(0, i + 1) =~= views(extra@).subrange(0, i as int).push(
                extra@[i as int]@,
            ));
        }
        i = i + 1;
    }
    assert(views(extra@).subrange(0, extra@.len() as int) =~= views(extra@));
    let ghost mid = views(argv@);
    let mut j: usize = 0;
    while j < args.len()
        invariant
            j <= args@.len(),
            views(argv@) == mid + views(args@).subrange(0, j as int),
        decreases args.len() - j,
    {
        let ghost before = argv@;
        argv.push(args[j].clone());
        proof {
            assert(views(argv@) =~= views(before).push(args@[j as int]@));
            assert(views(args@).subrange(0, j + 1) =~= views(args@).subrange(0, j as int).push(
                args@[j as int]@,
            ));
        }
        j = j + 1;
    }
    assert(views(args@).subrange(0, args@.len() as int) =~= views(args@));
    argv
}

} // verus!
