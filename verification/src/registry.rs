//! The launcher registry: a machine-wide record of which repos consume which
//! built engine, used to collect engine builds nothing pins anymore.
//!
//! Two tables: one consumer row per repo the launcher has run in, keyed by its
//! root, and one build row per cached engine build, keyed by its cache key.
//! Reading and writing the file, and deleting directories, are the caller's;
//! what the rows become, and which directories go, are decided here.

use vstd::prelude::*;

use crate::engine::views;
use crate::manifest::{ref_value, Pin, RefView, Reference};
use crate::path::{join, join_spec};
use crate::text::owned;

verus! {

/// A collection pass runs at most this often, in seconds.
pub const GC_INTERVAL_SECS: u64 = 86400;

/// Pin form as recorded for a consumer. `Legacy` means the pin came from the
/// tool's legacy fallback rather than from a pin key in the config.
#[derive(Debug, Clone, Copy, PartialEq, Eq)]
pub enum PinForm {
    /// A released version.
    Version,
    /// A moving branch.
    Branch,
    /// An exact commit.
    Rev,
    /// A tag.
    Tag,
    /// The tool's legacy fallback.
    Legacy,
}

/// Where a resolved pin came from: the config's own key, or the tool's
/// legacy fallback.
#[derive(Debug, Clone, Copy, PartialEq, Eq)]
pub enum PinSource {
    /// A pin key in the config.
    Config,
    /// The tool's legacy fallback.
    Legacy,
}

/// The name a pin form is recorded under.
pub open spec fn form_name(f: PinForm) -> Seq<char> {
    match f {
        PinForm::Version => "version"@,
        PinForm::Branch => "branch"@,
        PinForm::Rev => "rev"@,
        PinForm::Tag => "tag"@,
        PinForm::Legacy => "legacy"@,
    }
}

impl PinForm {
    /// The name this form is recorded under.
    pub fn as_str(self) -> (r: &'static str)
        ensures
            r@ == form_name(self),
    {
        match self {
            PinForm::Version => "version",
            PinForm::Branch => "branch",
            PinForm::Rev => "rev",
            PinForm::Tag => "tag",
            PinForm::Legacy => "legacy",
        }
    }
}

/// One repo the launcher has run in.
#[derive(Debug, Clone, PartialEq, Eq)]
pub struct Consumer {
    /// Absolute repo root.
    pub root: String,
    /// Repo name.
    pub name: String,
    /// Absolute working directory the engine is run from.
    pub workdir: String,
    /// The engine source url this repo builds from.
    pub engine_url: String,
    /// `version` / `branch` / `rev` / `tag` / `legacy`.
    pub pin_form: String,
    /// The pin value, empty for legacy.
    pub pin_value: String,
    /// The build key this consumer last resolved to.
    pub key: String,
    /// Whether `root` is the repo root exactly, rather than a lossy rendering
    /// of it; only then may the row be dropped for its root being absent.
    pub root_exact: bool,
    /// Unix seconds of the last run in this repo.
    pub last_seen: u64,
}

impl Consumer {
    /// A copy of this row.
    pub fn duplicate(&self) -> (r: Consumer)
        ensures
            r@ == self@,
    {
        Consumer {
            root: self.root.clone(),
            name: self.name.clone(),
            workdir: self.workdir.clone(),
            engine_url: self.engine_url.clone(),
            pin_form: self.pin_form.clone(),
            pin_value: self.pin_value.clone(),
            key: self.key.clone(),
            root_exact: self.root_exact,
            last_seen: self.last_seen,
        }
    }
}

/// One cached engine build.
#[derive(Debug, Clone, PartialEq, Eq)]
pub struct Build {
    /// The cache key.
    pub key: String,
    /// The engine source.
    pub engine_url: String,
    /// The revision the key was computed from.
    pub key_rev: String,
    /// The toolchain identity folded into the key.
    pub toolchain: String,
    /// Unix seconds it was built.
    pub built_at: u64,
    /// Unix seconds it was last wanted.
    pub last_used: u64,
}

impl Build {
    /// A copy of this row.
    pub fn duplicate(&self) -> (r: Build)
        ensures
            r@ == self@,
    {
        Build {
            key: self.key.clone(),
            engine_url: self.engine_url.clone(),
            key_rev: self.key_rev.clone(),
            toolchain: self.toolchain.clone(),
            built_at: self.built_at,
            last_used: self.last_used,
        }
    }
}

/// The whole registry.
#[derive(Debug, Clone, PartialEq, Eq)]
pub struct Registry {
    /// Unix seconds of the last collection pass.
    pub last_gc: u64,
    /// One row per repo.
    pub consumers: Vec<Consumer>,
    /// One row per cached build.
    pub builds: Vec<Build>,
}

/// A consumer row as characters.
pub struct ConsumerView {
    pub root: Seq<char>,
    pub name: Seq<char>,
    pub workdir: Seq<char>,
    pub engine_url: Seq<char>,
    pub pin_form: Seq<char>,
    pub pin_value: Seq<char>,
    pub key: Seq<char>,
    pub root_exact: bool,
    pub last_seen: u64,
}

/// A build row as characters.
pub struct BuildView {
    pub key: Seq<char>,
    pub engine_url: Seq<char>,
    pub key_rev: Seq<char>,
    pub toolchain: Seq<char>,
    pub built_at: u64,
    pub last_used: u64,
}

impl View for Consumer {
    type V = ConsumerView;

    open spec fn view(&self) -> ConsumerView {
        ConsumerView {
            root: self.root@,
            name: self.name@,
            workdir: self.workdir@,
            engine_url: self.engine_url@,
            pin_form: self.pin_form@,
            pin_value: self.pin_value@,
            key: self.key@,
            root_exact: self.root_exact,
            last_seen: self.last_seen,
        }
    }
}

impl View for Build {
    type V = BuildView;

    open spec fn view(&self) -> BuildView {
        BuildView {
            key: self.key@,
            engine_url: self.engine_url@,
            key_rev: self.key_rev@,
            toolchain: self.toolchain@,
            built_at: self.built_at,
            last_used: self.last_used,
        }
    }
}

/// The rows of a consumer table.
pub open spec fn consumer_views(v: Seq<Consumer>) -> Seq<ConsumerView> {
    v.map_values(|c: Consumer| c@)
}

/// The rows of a build table.
pub open spec fn build_views(v: Seq<Build>) -> Seq<BuildView> {
    v.map_values(|b: Build| b@)
}

impl Default for Registry {
    /// An empty registry that has never collected.
    fn default() -> (r: Registry)
        ensures
            r.last_gc == 0,
            r.consumers@.len() == 0,
            r.builds@.len() == 0,
    {
        Registry { last_gc: 0, consumers: Vec::new(), builds: Vec::new() }
    }
}

/// One run, as the registry records it.
pub struct Recording<'a> {
    /// The absolute repo root, as text.
    pub root: &'a str,
    /// Whether that text is the root exactly.
    pub root_exact: bool,
    /// The repo name.
    pub name: &'a str,
    /// The absolute working directory the engine runs against, as text.
    pub workdir: &'a str,
    /// The engine source this repo builds from.
    pub engine_url: &'a str,
    /// Which of the pin forms the repo used.
    pub form: PinForm,
    /// The pin value, empty for a legacy pin.
    pub pin_value: &'a str,
    /// The build key the run resolved to.
    pub key: &'a str,
    /// The revision that key was computed from.
    pub key_rev: &'a str,
    /// The toolchain identity folded into the key.
    pub toolchain: &'a str,
    /// Unix seconds of this run.
    pub now: u64,
}

/// The index of the first consumer with this root, or the table's length.
pub open spec fn find_root(cs: Seq<ConsumerView>, root: Seq<char>) -> int
    decreases cs.len(),
{
    if cs.len() == 0 {
        0
    } else if cs[0].root == root {
        0
    } else {
        1 + find_root(cs.subrange(1, cs.len() as int), root)
    }
}

/// The index of the first build with this key, or the table's length.
pub open spec fn find_key(bs: Seq<BuildView>, key: Seq<char>) -> int
    decreases bs.len(),
{
    if bs.len() == 0 {
        0
    } else if bs[0].key == key {
        0
    } else {
        1 + find_key(bs.subrange(1, bs.len() as int), key)
    }
}

proof fn lemma_find_root(cs: Seq<ConsumerView>, root: Seq<char>, i: int)
    requires
        0 <= i <= cs.len(),
        forall|j: int| 0 <= j < i ==> (#[trigger] cs[j]).root != root,
        i == cs.len() || cs[i].root == root,
    ensures
        find_root(cs, root) == i,
    decreases i,
{
    if i > 0 {
        let t = cs.subrange(1, cs.len() as int);
        assert forall|j: int| 0 <= j < i - 1 implies (#[trigger] t[j]).root != root by {
            assert(t[j] == cs[j + 1]);
        }
        lemma_find_root(t, root, i - 1);
    }
}

proof fn lemma_find_key(bs: Seq<BuildView>, key: Seq<char>, i: int)
    requires
        0 <= i <= bs.len(),
        forall|j: int| 0 <= j < i ==> (#[trigger] bs[j]).key != key,
        i == bs.len() || bs[i].key == key,
    ensures
        find_key(bs, key) == i,
    decreases i,
{
    if i > 0 {
        let t = bs.subrange(1, bs.len() as int);
        assert forall|j: int| 0 <= j < i - 1 implies (#[trigger] t[j]).key != key by {
            assert(t[j] == bs[j + 1]);
        }
        lemma_find_key(t, key, i - 1);
    }
}

/// The consumer row a recording writes.
pub open spec fn recorded_consumer(r: Recording) -> ConsumerView {
    ConsumerView {
        root: r.root@,
        name: r.name@,
        workdir: r.workdir@,
        engine_url: r.engine_url@,
        pin_form: form_name(r.form),
        pin_value: r.pin_value@,
        key: r.key@,
        root_exact: r.root_exact,
        last_seen: r.now,
    }
}

/// The consumer table after a recording: the row for its root replaced, or a
/// new row appended when the root has none.
pub open spec fn record_consumers(cs: Seq<ConsumerView>, r: Recording) -> Seq<ConsumerView> {
    let i = find_root(cs, r.root@);
    if i < cs.len() {
        cs.update(i, recorded_consumer(r))
    } else {
        cs.push(recorded_consumer(r))
    }
}

/// The build table after a recording: the row for its key stamped as used
/// now, or a new row built now when the key has none.
pub open spec fn record_builds(bs: Seq<BuildView>, r: Recording) -> Seq<BuildView> {
    let i = find_key(bs, r.key@);
    if i < bs.len() {
        bs.update(i, BuildView { last_used: r.now, ..bs[i] })
    } else {
        bs.push(
            BuildView {
                key: r.key@,
                engine_url: r.engine_url@,
                key_rev: r.key_rev@,
                toolchain: r.toolchain@,
                built_at: r.now,
                last_used: r.now,
            },
        )
    }
}

/// Whether a consumer still pins its build: seen within the retention window.
pub open spec fn is_live(c: ConsumerView, now: u64, retention_secs: u64) -> bool {
    (if now >= c.last_seen { now - c.last_seen } else { 0 }) < retention_secs
}

/// Whether any live consumer resolves to `key`.
pub open spec fn pinned(cs: Seq<ConsumerView>, key: Seq<char>, now: u64, retention_secs: u64) -> bool {
    exists|i: int| 0 <= i < cs.len() && (#[trigger] cs[i]).key == key && is_live(cs[i], now, retention_secs)
}

/// The consumers a collection pass keeps: those whose root was not written
/// exactly (they age out through retention instead), and those whose root is
/// still a directory.
pub open spec fn kept_consumers(cs: Seq<ConsumerView>, root_is_dir: Seq<bool>) -> Seq<ConsumerView>
    decreases cs.len(),
{
    if cs.len() == 0 {
        Seq::empty()
    } else {
        let rest = kept_consumers(cs.drop_last(), root_is_dir.subrange(0, cs.len() - 1));
        if !cs.last().root_exact || root_is_dir[cs.len() - 1] {
            rest.push(cs.last())
        } else {
            rest
        }
    }
}

/// Whether a collection pass keeps a build: it is the protected one, or some
/// kept consumer still pins it.
pub open spec fn build_kept(b: BuildView, cs: Seq<ConsumerView>, protect: Seq<char>, now: u64, retention_secs: u64) -> bool {
    b.key == protect || pinned(cs, b.key, now, retention_secs)
}

/// The builds a collection pass keeps, in order.
pub open spec fn kept_builds(bs: Seq<BuildView>, cs: Seq<ConsumerView>, protect: Seq<char>, now: u64, retention_secs: u64) -> Seq<BuildView>
    decreases bs.len(),
{
    if bs.len() == 0 {
        Seq::empty()
    } else {
        let rest = kept_builds(bs.drop_last(), cs, protect, now, retention_secs);
        if build_kept(bs.last(), cs, protect, now, retention_secs) {
            rest.push(bs.last())
        } else {
            rest
        }
    }
}

/// The keys of the builds a collection pass removes, in order.
pub open spec fn removed_keys(bs: Seq<BuildView>, cs: Seq<ConsumerView>, protect: Seq<char>, now: u64, retention_secs: u64) -> Seq<Seq<char>>
    decreases bs.len(),
{
    if bs.len() == 0 {
        Seq::empty()
    } else {
        let rest = removed_keys(bs.drop_last(), cs, protect, now, retention_secs);
        if build_kept(bs.last(), cs, protect, now, retention_secs) {
            rest
        } else {
            rest.push(bs.last().key)
        }
    }
}

/// Whether `key` is a key this crate writes: exactly sixteen lowercase
/// hexadecimal characters. Nothing else can reach a delete, since a value
/// failing this could name a directory outside the cache.
pub open spec fn build_key_shape(key: Seq<char>) -> bool {
    key.len() == 16 && forall|i: int| 0 <= i < 16 ==> crate::text::is_lower_hex(#[trigger] key[i])
}

/// The build directories a collection pass deletes: those of the removed keys
/// that have the shape of a key this crate wrote.
pub open spec fn deleted_dirs(keys: Seq<Seq<char>>, cache_root: Seq<char>) -> Seq<Seq<char>>
    decreases keys.len(),
{
    if keys.len() == 0 {
        Seq::empty()
    } else {
        let rest = deleted_dirs(keys.drop_last(), cache_root);
        if build_key_shape(keys.last()) {
            rest.push(join_spec(join_spec(cache_root, "builds"@), keys.last()))
        } else {
            rest
        }
    }
}

/// What a collection pass decided: the keys removed from the table, and the
/// build directories to delete.
pub struct Collected {
    /// The keys of the builds removed, in table order.
    pub removed: Vec<String>,
    /// The directories to delete, each `<cache>/builds/<key>` for a removed
    /// key of the shape this crate writes.
    pub delete: Vec<String>,
}

/// Whether `key` is a key this crate wrote. See [`build_key_shape`].
pub fn is_build_key(key: &str) -> (r: bool)
    ensures
        r == build_key_shape(key@),
{
    let x = crate::text::chars_of(key);
    if x.len() != 16 {
        return false;
    }
    let mut i: usize = 0;
    while i < 16
        invariant
            x@ == key@,
            x@.len() == 16,
            i <= 16,
            forall|j: int| 0 <= j < i ==> crate::text::is_lower_hex(#[trigger] key@[j]),
        decreases 16 - i,
    {
        let c = x[i];
        if !(('0' <= c && c <= '9') || ('a' <= c && c <= 'f')) {
            assert(!crate::text::is_lower_hex(key@[i as int]));
            return false;
        }
        i = i + 1;
    }
    true
}

/// The registry file path under a root.
pub fn registry_path(root: &str) -> (r: String)
    ensures
        r@ == join_spec(root@, "registry.toml"@),
{
    join(root, "registry.toml")
}

impl Registry {
    /// Upsert the current repo as a consumer (keyed by its root) and the build
    /// it resolved to (keyed by its key), stamping `now`.
    pub fn record(&mut self, r: &Recording)
        ensures
            final(self).last_gc == old(self).last_gc,
            consumer_views(final(self).consumers@) == record_consumers(
                consumer_views(old(self).consumers@),
                *r,
            ),
            build_views(final(self).builds@) == record_builds(build_views(old(self).builds@), *r),
    {
        let ghost cs = consumer_views(self.consumers@);
        let mut i: usize = 0;
        while i < self.consumers.len() && !crate::text::same(self.consumers[i].root.as_str(), r.root)
            invariant
                i <= self.consumers@.len(),
                cs == consumer_views(self.consumers@),
                forall|j: int| 0 <= j < i ==> (#[trigger] cs[j]).root != r.root@,
            decreases self.consumers.len() - i,
        {
            i = i + 1;
        }
        proof {
            lemma_find_root(cs, r.root@, i as int);
        }
        let row = Consumer {
            root: owned(r.root),
            name: owned(r.name),
            workdir: owned(r.workdir),
            engine_url: owned(r.engine_url),
            pin_form: owned(r.form.as_str()),
            pin_value: owned(r.pin_value),
            key: owned(r.key),
            root_exact: r.root_exact,
            last_seen: r.now,
        };
        assert(row@ == recorded_consumer(*r));
        if i < self.consumers.len() {
            self.consumers.set(i, row);
            proof {
                assert(consumer_views(self.consumers@) =~= cs.update(i as int, recorded_consumer(*r)));
            }
        } else {
            self.consumers.push(row);
            proof {
                assert(consumer_views(self.consumers@) =~= cs.push(recorded_consumer(*r)));
            }
        }
        let ghost bs = build_views(self.builds@);
        let mut k: usize = 0;
        while k < self.builds.len() && !crate::text::same(self.builds[k].key.as_str(), r.key)
            invariant
                k <= self.builds@.len(),
                bs == build_views(self.builds@),
                forall|j: int| 0 <= j < k ==> (#[trigger] bs[j]).key != r.key@,
            decreases self.builds.len() - k,
        {
            k = k + 1;
        }
        proof {
            lemma_find_key(bs, r.key@, k as int);
        }
        if k < self.builds.len() {
            let old_row = &self.builds[k];
            let row = Build {
                key: old_row.key.clone(),
                engine_url: old_row.engine_url.clone(),
                key_rev: old_row.key_rev.clone(),
                toolchain: old_row.toolchain.clone(),
                built_at: old_row.built_at,
                last_used: r.now,
            };
            self.builds.set(k, row);
            proof {
                assert(build_views(self.builds@) =~= bs.update(
                    k as int,
                    BuildView { last_used: r.now, ..bs[k as int] },
                ));
            }
        } else {
            let row = Build {
                key: owned(r.key),
                engine_url: owned(r.engine_url),
                key_rev: owned(r.key_rev),
                toolchain: owned(r.toolchain),
                built_at: r.now,
                last_used: r.now,
            };
            self.builds.push(row);
            proof {
                assert(build_views(self.builds@) =~= bs.push(
                    BuildView {
                        key: r.key@,
                        engine_url: r.engine_url@,
                        key_rev: r.key_rev@,
                        toolchain: r.toolchain@,
                        built_at: r.now,
                        last_used: r.now,
                    },
                ));
            }
        }
    }

    /// Whether a collection pass is due: a day or more since the last one. A
    /// clock behind the last pass counts as no time at all.
    pub fn gc_due(&self, now: u64) -> (r: bool)
        ensures
            r == (now.saturating_sub(self.last_gc) >= GC_INTERVAL_SECS),
    {
        now.saturating_sub(self.last_gc) >= GC_INTERVAL_SECS
    }

    /// Collect the build cache. Consumers whose root was written exactly and
    /// is no longer a directory (`root_is_dir`, one answer per consumer row)
    /// are dropped first. A build is then removed when it is not `protect` (the
    /// build resolving this very run) and no remaining consumer seen within
    /// `retention_secs` resolves to it. Returns the removed keys, and the
    /// build directories to delete: those of removed keys that have the shape
    /// of a key this crate writes, and no others.
    pub fn gc(
        &mut self,
        cache_root: &str,
        root_is_dir: &[bool],
        protect: &str,
        retention_secs: u64,
        now: u64,
    ) -> (r: Collected)
        requires
            root_is_dir@.len() == old(self).consumers@.len(),
        ensures
            final(self).last_gc == now,
            consumer_views(final(self).consumers@) == kept_consumers(
                consumer_views(old(self).consumers@),
                root_is_dir@,
            ),
            build_views(final(self).builds@) == kept_builds(
                build_views(old(self).builds@),
                consumer_views(final(self).consumers@),
                protect@,
                now,
                retention_secs,
            ),
            views(r.removed@) == removed_keys(
                build_views(old(self).builds@),
                consumer_views(final(self).consumers@),
                protect@,
                now,
                retention_secs,
            ),
            views(r.delete@) == deleted_dirs(views(r.removed@), cache_root@),
    {
        let ghost cs = consumer_views(self.consumers@);
        let mut kept: Vec<Consumer> = Vec::new();
        let mut i: usize = 0;
        while i < self.consumers.len()
            invariant
                i <= self.consumers@.len(),
                root_is_dir@.len() == self.consumers@.len(),
                cs == consumer_views(self.consumers@),
                consumer_views(kept@) == kept_consumers(cs.subrange(0, i as int), root_is_dir@.subrange(0, i as int)),
            decreases self.consumers.len() - i,
        {
            let ghost before = kept@;
            proof {
                let sub = cs.subrange(0, i + 1);
                assert(sub.drop_last() =~= cs.subrange(0, i as int));
                assert(root_is_dir@.subrange(0, i + 1).subrange(0, i as int) =~= root_is_dir@.subrange(0, i as int));
                assert(sub.last() == cs[i as int]);
            }
            if !self.consumers[i].root_exact || root_is_dir[i] {
                kept.push(self.consumers[i].duplicate());
                proof {
                    assert(consumer_views(kept@) =~= consumer_views(before).push(cs[i as int]));
                }
            }
            i = i + 1;
        }
        proof {
            assert(cs.subrange(0, cs.len() as int) =~= cs);
            assert(root_is_dir@.subrange(0, cs.len() as int) =~= root_is_dir@);
        }
        self.consumers = kept;
        self.last_gc = now;
        let ghost kc = consumer_views(self.consumers@);
        let ghost bs = build_views(self.builds@);
        let mut keep_builds: Vec<Build> = Vec::new();
        let mut removed: Vec<String> = Vec::new();
        let mut k: usize = 0;
        while k < self.builds.len()
            invariant
                k <= self.builds@.len(),
                bs == build_views(self.builds@),
                kc == consumer_views(self.consumers@),
                build_views(keep_builds@) == kept_builds(bs.subrange(0, k as int), kc, protect@, now, retention_secs),
                views(removed@) == removed_keys(bs.subrange(0, k as int), kc, protect@, now, retention_secs),
            decreases self.builds.len() - k,
        {
            let b = &self.builds[k];
            let keep = crate::text::same(b.key.as_str(), protect) || self.pinned_exec(
                b.key.as_str(),
                now,
                retention_secs,
            );
            let ghost kb = keep_builds@;
            let ghost rm = removed@;
            proof {
                let sub = bs.subrange(0, k + 1);
                assert(sub.drop_last() =~= bs.subrange(0, k as int));
                assert(sub.last() == bs[k as int]);
            }
            if keep {
                keep_builds.push(b.duplicate());
                proof {
                    assert(build_views(keep_builds@) =~= build_views(kb).push(bs[k as int]));
                }
            } else {
                removed.push(b.key.clone());
                proof {
                    assert(views(removed@) =~= views(rm).push(bs[k as int].key));
                }
            }
            k = k + 1;
        }
        proof {
            assert(bs.subrange(0, bs.len() as int) =~= bs);
        }
        self.builds = keep_builds;
        let mut delete: Vec<String> = Vec::new();
        let bd = join(cache_root, "builds");
        let mut m: usize = 0;
        while m < removed.len()
            invariant
                m <= removed@.len(),
                bd@ == join_spec(cache_root@, "builds"@),
                views(delete@) == deleted_dirs(views(removed@).subrange(0, m as int), cache_root@),
            decreases removed.len() - m,
        {
            let ghost before = delete@;
            proof {
                let sub = views(removed@).subrange(0, m + 1);
                assert(sub.drop_last() =~= views(removed@).subrange(0, m as int));
                assert(sub.last() == removed@[m as int]@);
            }
            if is_build_key(removed[m].as_str()) {
                delete.push(join(bd.as_str(), removed[m].as_str()));
                proof {
                    assert(views(delete@) =~= views(before).push(
                        join_spec(join_spec(cache_root@, "builds"@), removed@[m as int]@),
                    ));
                }
            }
            m = m + 1;
        }
        proof {
            assert(views(removed@).subrange(0, removed@.len() as int) =~= views(removed@));
        }
        Collected { removed, delete }
    }

    /// Whether any consumer seen within the window resolves to `key`.
    fn pinned_exec(&self, key: &str, now: u64, retention_secs: u64) -> (r: bool)
        ensures
            r == pinned(consumer_views(self.consumers@), key@, now, retention_secs),
    {
        let ghost cs = consumer_views(self.consumers@);
        let mut i: usize = 0;
        while i < self.consumers.len()
            invariant
                i <= self.consumers@.len(),
                cs == consumer_views(self.consumers@),
                forall|j: int| 0 <= j < i ==> !((#[trigger] cs[j]).key == key@ && is_live(cs[j], now, retention_secs)),
            decreases self.consumers.len() - i,
        {
            let c = &self.consumers[i];
            if crate::text::same(c.key.as_str(), key) && now.saturating_sub(c.last_seen) < retention_secs {
                assert(cs[i as int].key == key@ && is_live(cs[i as int], now, retention_secs));
                return true;
            }
            i = i + 1;
        }
        false
    }
}

/// Whether no two consumer rows share a root.
pub open spec fn roots_unique(cs: Seq<ConsumerView>) -> bool {
    forall|i: int, j: int| 0 <= i < j < cs.len() ==> (#[trigger] cs[i]).root != (#[trigger] cs[j]).root
}

/// Whether no two build rows share a key.
pub open spec fn keys_unique(bs: Seq<BuildView>) -> bool {
    forall|i: int, j: int| 0 <= i < j < bs.len() ==> (#[trigger] bs[i]).key != (#[trigger] bs[j]).key
}

proof fn lemma_find_root_bounds(cs: Seq<ConsumerView>, root: Seq<char>)
    ensures
        0 <= find_root(cs, root) <= cs.len(),
        find_root(cs, root) < cs.len() ==> cs[find_root(cs, root)].root == root,
        forall|j: int| 0 <= j < find_root(cs, root) ==> (#[trigger] cs[j]).root != root,
    decreases cs.len(),
{
    if cs.len() > 0 && cs[0].root != root {
        let t = cs.subrange(1, cs.len() as int);
        lemma_find_root_bounds(t, root);
        assert forall|j: int| 0 <= j < find_root(cs, root) implies (#[trigger] cs[j]).root != root by {
            if j > 0 {
                assert(cs[j] == t[j - 1]);
            }
        }
    }
}

proof fn lemma_find_key_bounds(bs: Seq<BuildView>, key: Seq<char>)
    ensures
        0 <= find_key(bs, key) <= bs.len(),
        find_key(bs, key) < bs.len() ==> bs[find_key(bs, key)].key == key,
        forall|j: int| 0 <= j < find_key(bs, key) ==> (#[trigger] bs[j]).key != key,
    decreases bs.len(),
{
    if bs.len() > 0 && bs[0].key != key {
        let t = bs.subrange(1, bs.len() as int);
        lemma_find_key_bounds(t, key);
        assert forall|j: int| 0 <= j < find_key(bs, key) implies (#[trigger] bs[j]).key != key by {
            if j > 0 {
                assert(bs[j] == t[j - 1]);
            }
        }
    }
}

/// Recording keeps one consumer per root and one build per key, and what it
/// recorded is what the tables then hold: the repo's row is the recording's,
/// and the build its key names was used now.
pub proof fn law_record_upserts(cs: Seq<ConsumerView>, bs: Seq<BuildView>, r: Recording)
    requires
        roots_unique(cs),
        keys_unique(bs),
    ensures
        roots_unique(record_consumers(cs, r)),
        keys_unique(record_builds(bs, r)),
        record_consumers(cs, r)[find_root(record_consumers(cs, r), r.root@)] == recorded_consumer(r),
        find_root(record_consumers(cs, r), r.root@) < record_consumers(cs, r).len(),
        find_key(record_builds(bs, r), r.key@) < record_builds(bs, r).len(),
        record_builds(bs, r)[find_key(record_builds(bs, r), r.key@)].last_used == r.now,
        record_consumers(cs, r).len() == cs.len() + (if find_root(cs, r.root@) < cs.len() { 0int } else { 1int }),
        record_builds(bs, r).len() == bs.len() + (if find_key(bs, r.key@) < bs.len() { 0int } else { 1int }),
{
    lemma_find_root_bounds(cs, r.root@);
    lemma_find_key_bounds(bs, r.key@);
    let cs2 = record_consumers(cs, r);
    let bs2 = record_builds(bs, r);
    let ci = find_root(cs, r.root@);
    let bi = find_key(bs, r.key@);
    assert forall|i: int, j: int| 0 <= i < j < cs2.len() implies (#[trigger] cs2[i]).root != (#[trigger] cs2[j]).root by {
        if ci < cs.len() {
            if i != ci && j != ci {
                assert(cs2[i] == cs[i] && cs2[j] == cs[j]);
            } else if i == ci {
                assert(cs2[j] == cs[j]);
                assert(cs[ci].root == r.root@);
            } else {
                assert(cs2[i] == cs[i]);
                assert(cs[ci].root == r.root@);
            }
        } else {
            if j < cs.len() {
                assert(cs2[i] == cs[i] && cs2[j] == cs[j]);
            } else {
                assert(cs2[i] == cs[i]);
            }
        }
    }
    assert forall|i: int, j: int| 0 <= i < j < bs2.len() implies (#[trigger] bs2[i]).key != (#[trigger] bs2[j]).key by {
        if bi < bs.len() {
            if i != bi && j != bi {
                assert(bs2[i] == bs[i] && bs2[j] == bs[j]);
            } else if i == bi {
                assert(bs2[j] == bs[j]);
            } else {
                assert(bs2[i] == bs[i]);
            }
        } else {
            if j < bs.len() {
                assert(bs2[i] == bs[i] && bs2[j] == bs[j]);
            } else {
                assert(bs2[i] == bs[i]);
            }
        }
    }
    lemma_find_root_bounds(cs2, r.root@);
    lemma_find_key_bounds(bs2, r.key@);
    let ci2 = find_root(cs2, r.root@);
    let target = if ci < cs.len() { ci } else { cs.len() as int };
    assert(cs2[target].root == r.root@);
    if ci2 < target {
        if ci < cs.len() {
            assert(cs2[ci2] == cs[ci2]);
        } else {
            assert(cs2[ci2] == cs[ci2]);
        }
    }
    assert(ci2 == target);
    let bt = if bi < bs.len() { bi } else { bs.len() as int };
    assert(bs2[bt].key == r.key@);
    let bi2 = find_key(bs2, r.key@);
    if bi2 < bt {
        assert(bs2[bi2] == bs[bi2]);
    }
    assert(bi2 == bt);
}

/// Recording never drops a row: every consumer row keeps its root and every
/// build row its key, and a row for another root or another key is left as
/// it was. A repo that re-pins leaves its old build behind as an orphan for
/// collection to find.
pub proof fn law_record_keeps_every_row(cs: Seq<ConsumerView>, bs: Seq<BuildView>, r: Recording)
    ensures
        forall|i: int|
            0 <= i < cs.len() ==> (#[trigger] record_consumers(cs, r)[i]).root == cs[i].root && (cs[i].root
                != r.root@ ==> record_consumers(cs, r)[i] == cs[i]),
        forall|i: int|
            0 <= i < bs.len() ==> (#[trigger] record_builds(bs, r)[i]).key == bs[i].key && (bs[i].key
                != r.key@ ==> record_builds(bs, r)[i] == bs[i]),
{
    lemma_find_root_bounds(cs, r.root@);
    lemma_find_key_bounds(bs, r.key@);
}

proof fn lemma_kept_builds_keeps(bs: Seq<BuildView>, cs: Seq<ConsumerView>, protect: Seq<char>, now: u64, retention_secs: u64)
    ensures
        forall|i: int| 0 <= i < bs.len() && build_kept(#[trigger] bs[i], cs, protect, now, retention_secs)
            ==> kept_builds(bs, cs, protect, now, retention_secs).contains(bs[i]),
        forall|k: Seq<char>| #[trigger] removed_keys(bs, cs, protect, now, retention_secs).contains(k) ==> k != protect,
    decreases bs.len(),
{
    if bs.len() > 0 {
        let init = bs.drop_last();
        lemma_kept_builds_keeps(init, cs, protect, now, retention_secs);
        let kb = kept_builds(bs, cs, protect, now, retention_secs);
        let ki = kept_builds(init, cs, protect, now, retention_secs);
        assert forall|i: int| 0 <= i < bs.len() && build_kept(#[trigger] bs[i], cs, protect, now, retention_secs)
            implies kb.contains(bs[i]) by {
            if i < bs.len() - 1 {
                assert(init[i] == bs[i]);
                assert(ki.contains(init[i]));
                let w = choose|w: int| 0 <= w < ki.len() && ki[w] == init[i];
                if build_kept(bs.last(), cs, protect, now, retention_secs) {
                    assert(kb[w] == ki[w]);
                }
            } else {
                assert(kb[kb.len() - 1] == bs.last());
            }
        }
        let rk = removed_keys(bs, cs, protect, now, retention_secs);
        let ri = removed_keys(init, cs, protect, now, retention_secs);
        assert forall|k: Seq<char>| #[trigger] rk.contains(k) implies k != protect by {
            let w = choose|w: int| 0 <= w < rk.len() && rk[w] == k;
            if !build_kept(bs.last(), cs, protect, now, retention_secs) && w == rk.len() - 1 {
                assert(k == bs.last().key);
            } else {
                assert(rk[w] == ri[w]);
                assert(ri.contains(k));
            }
        }
    }
}

/// A collection pass never takes the build resolving the run that started
/// it, and keeps every build a remaining consumer still pins.
pub proof fn law_gc_spares_protected(bs: Seq<BuildView>, cs: Seq<ConsumerView>, protect: Seq<char>, now: u64, retention_secs: u64)
    ensures
        forall|i: int| 0 <= i < bs.len() && (#[trigger] bs[i]).key == protect
            ==> kept_builds(bs, cs, protect, now, retention_secs).contains(bs[i]),
        forall|i: int| 0 <= i < bs.len() && pinned(cs, (#[trigger] bs[i]).key, now, retention_secs)
            ==> kept_builds(bs, cs, protect, now, retention_secs).contains(bs[i]),
        !removed_keys(bs, cs, protect, now, retention_secs).contains(protect),
{
    lemma_kept_builds_keeps(bs, cs, protect, now, retention_secs);
    assert forall|i: int| 0 <= i < bs.len() && (#[trigger] bs[i]).key == protect
        implies kept_builds(bs, cs, protect, now, retention_secs).contains(bs[i]) by {
        assert(build_kept(bs[i], cs, protect, now, retention_secs));
    }
    assert forall|i: int| 0 <= i < bs.len() && pinned(cs, (#[trigger] bs[i]).key, now, retention_secs)
        implies kept_builds(bs, cs, protect, now, retention_secs).contains(bs[i]) by {
        assert(build_kept(bs[i], cs, protect, now, retention_secs));
    }
}

/// Every key the cache computes is one a collection pass may delete by: the
/// hash rendering is always sixteen lowercase hexadecimal characters.
pub proof fn law_computed_keys_are_build_keys(url: Seq<char>, key_rev: Seq<char>, toolchain: Seq<char>)
    ensures
        build_key_shape(crate::hash::hex16(crate::hash::fnv_fields(seq![url, key_rev, toolchain]))),
{
    let h = crate::hash::fnv_fields(seq![url, key_rev, toolchain]);
    crate::hash::lemma_hex16_shape(h);
    assert forall|i: int| 0 <= i < 16 implies crate::text::is_lower_hex(#[trigger] crate::hash::hex16(h)[i]) by {
        assert(crate::hash::is_hex_digit_char(crate::hash::hex16(h)[i]));
    }
}

/// Whether `d` is the build directory of one of `keys` that has the shape of
/// a key this crate writes.
pub open spec fn is_build_dir_of(d: Seq<char>, keys: Seq<Seq<char>>, cache_root: Seq<char>) -> bool {
    exists|j: int|
        0 <= j < keys.len() && build_key_shape(keys[j]) && d == join_spec(
            join_spec(cache_root, "builds"@),
            #[trigger] keys[j],
        )
}

/// Nothing but a key this crate writes reaches a delete, and only as a direct
/// child of the build cache: every directory a collection pass deletes is
/// `<cache>/builds/<k>` for a removed key `k` of sixteen lowercase
/// hexadecimal characters, and such a key holds no separator and cannot name
/// `.` or `..`.
pub proof fn law_deletes_stay_in_the_build_cache(keys: Seq<Seq<char>>, cache_root: Seq<char>)
    ensures
        deleted_dirs(keys, cache_root).len() <= keys.len(),
        forall|i: int|
            0 <= i < deleted_dirs(keys, cache_root).len() ==> is_build_dir_of(
                #[trigger] deleted_dirs(keys, cache_root)[i],
                keys,
                cache_root,
            ),
        forall|k: Seq<char>| #[trigger] build_key_shape(k) ==> k[0] != '.' && !k.contains('/'),
    decreases keys.len(),
{
    assert forall|k: Seq<char>| #[trigger] build_key_shape(k) implies k[0] != '.' && !k.contains('/') by {
        assert(crate::text::is_lower_hex(k[0]));
        if k.contains('/') {
            let w = choose|w: int| 0 <= w < k.len() && k[w] == '/';
            assert(crate::text::is_lower_hex(k[w]));
        }
    }
    if keys.len() > 0 {
        let init = keys.drop_last();
        law_deletes_stay_in_the_build_cache(init, cache_root);
        let rest = deleted_dirs(init, cache_root);
        let all = deleted_dirs(keys, cache_root);
        assert forall|i: int| 0 <= i < all.len() implies is_build_dir_of(#[trigger] all[i], keys, cache_root) by {
            if i < rest.len() {
                assert(all[i] == rest[i]);
                assert(is_build_dir_of(rest[i], init, cache_root));
                let j = choose|j: int|
                    0 <= j < init.len() && build_key_shape(init[j]) && rest[i] == join_spec(
                        join_spec(cache_root, "builds"@),
                        #[trigger] init[j],
                    );
                assert(keys[j] == init[j]);
            } else {
                let j = keys.len() - 1;
                assert(keys[j] == keys.last());
            }
        }
    }
}

/// Every removed build this crate wrote is deleted: for each removed key of
/// the shape this crate writes, `<cache>/builds/<key>` is among the
/// directories a collection pass deletes.
pub proof fn law_every_removed_build_of_ours_is_deleted(keys: Seq<Seq<char>>, cache_root: Seq<char>)
    ensures
        forall|j: int|
            0 <= j < keys.len() && build_key_shape(#[trigger] keys[j]) ==> deleted_dirs(keys, cache_root).contains(
                join_spec(join_spec(cache_root, "builds"@), keys[j]),
            ),
    decreases keys.len(),
{
    if keys.len() > 0 {
        let init = keys.drop_last();
        law_every_removed_build_of_ours_is_deleted(init, cache_root);
        let all = deleted_dirs(keys, cache_root);
        let rest = deleted_dirs(init, cache_root);
        assert forall|j: int|
            0 <= j < keys.len() && build_key_shape(#[trigger] keys[j]) implies all.contains(
            join_spec(join_spec(cache_root, "builds"@), keys[j]),
        ) by {
            let d = join_spec(join_spec(cache_root, "builds"@), keys[j]);
            if j < keys.len() - 1 {
                assert(keys[j] == init[j]);
                assert(rest.contains(d));
                let w = choose|w: int| 0 <= w < rest.len() && rest[w] == d;
                if build_key_shape(keys.last()) {
                    assert(all[w] == rest[w]);
                }
            } else {
                assert(all[all.len() - 1] == d);
            }
        }
    }
}

/// A collection pass drops a consumer only for its root being gone, and only
/// where that root was written exactly: every consumer whose root was not
/// written exactly stays (it ages out through the retention window instead),
/// every consumer whose root is still a directory stays, and every consumer
/// kept was one of the table's.
pub proof fn law_gc_drops_only_vanished_exact_roots(cs: Seq<ConsumerView>, root_is_dir: Seq<bool>)
    requires
        root_is_dir.len() == cs.len(),
    ensures
        forall|i: int| 0 <= i < cs.len() && !(#[trigger] cs[i]).root_exact ==> kept_consumers(cs, root_is_dir).contains(cs[i]),
        forall|i: int| 0 <= i < cs.len() && #[trigger] root_is_dir[i] ==> kept_consumers(cs, root_is_dir).contains(cs[i]),
        forall|c: ConsumerView| #[trigger] kept_consumers(cs, root_is_dir).contains(c) ==> cs.contains(c),
    decreases cs.len(),
{
    if cs.len() > 0 {
        let n = cs.len() - 1;
        let init = cs.drop_last();
        let ri = root_is_dir.subrange(0, n);
        law_gc_drops_only_vanished_exact_roots(init, ri);
        let kc = kept_consumers(cs, root_is_dir);
        let ki = kept_consumers(init, ri);
        assert forall|i: int| 0 <= i < cs.len() && (!(#[trigger] cs[i]).root_exact || root_is_dir[i]) implies kc.contains(cs[i]) by {
            if i < n {
                assert(init[i] == cs[i]);
                if !cs[i].root_exact {
                    assert(ki.contains(init[i]));
                } else {
                    assert(ri[i] == root_is_dir[i]);
                    assert(ki.contains(init[i]));
                }
                let w = choose|w: int| 0 <= w < ki.len() && ki[w] == init[i];
                if !cs.last().root_exact || root_is_dir[n] {
                    assert(kc[w] == ki[w]);
                }
            } else {
                assert(kc[kc.len() - 1] == cs.last());
            }
        }
        assert forall|c: ConsumerView| #[trigger] kc.contains(c) implies cs.contains(c) by {
            let w = choose|w: int| 0 <= w < kc.len() && kc[w] == c;
            if (!cs.last().root_exact || root_is_dir[n]) && w == kc.len() - 1 {
                assert(cs[n] == c);
            } else {
                assert(kc[w] == ki[w]);
                assert(ki.contains(c));
                let v = choose|v: int| 0 <= v < init.len() && init[v] == c;
                assert(cs[v] == c);
            }
        }
    }
}

/// Every build row a collection pass looks at is either kept or reported
/// removed, never both and never neither: the kept rows and the removed keys
/// together number the rows, and each removed key is that of a row the pass
/// did not keep.
pub proof fn law_gc_accounts_for_every_build(bs: Seq<BuildView>, cs: Seq<ConsumerView>, protect: Seq<char>, now: u64, retention_secs: u64)
    ensures
        kept_builds(bs, cs, protect, now, retention_secs).len() + removed_keys(bs, cs, protect, now, retention_secs).len()
            == bs.len(),
        forall|j: int|
            0 <= j < removed_keys(bs, cs, protect, now, retention_secs).len() ==> exists|i: int|
                0 <= i < bs.len() && !build_kept(bs[i], cs, protect, now, retention_secs) && (#[trigger] bs[i]).key
                    == #[trigger] removed_keys(bs, cs, protect, now, retention_secs)[j],
    decreases bs.len(),
{
    if bs.len() > 0 {
        let init = bs.drop_last();
        law_gc_accounts_for_every_build(init, cs, protect, now, retention_secs);
        let rk = removed_keys(bs, cs, protect, now, retention_secs);
        let ri = removed_keys(init, cs, protect, now, retention_secs);
        assert forall|j: int| 0 <= j < rk.len() implies exists|i: int|
            0 <= i < bs.len() && !build_kept(bs[i], cs, protect, now, retention_secs) && (#[trigger] bs[i]).key
                == #[trigger] rk[j] by {
            if j < ri.len() {
                assert(rk[j] == ri[j]);
                let i = choose|i: int|
                    0 <= i < init.len() && !build_kept(init[i], cs, protect, now, retention_secs) && (#[trigger] init[i]).key
                        == #[trigger] ri[j];
                assert(bs[i] == init[i]);
            } else {
                let i = bs.len() - 1;
                assert(bs[i] == bs.last());
            }
        }
    }
}

proof fn lemma_kept_consumers_qualify(cs: Seq<ConsumerView>, root_is_dir: Seq<bool>)
    requires
        root_is_dir.len() == cs.len(),
    ensures
        forall|c: ConsumerView| #[trigger] kept_consumers(cs, root_is_dir).contains(c) ==> exists|i: int|
            #![trigger cs[i]]
            0 <= i < cs.len() && cs[i] == c && (!c.root_exact || root_is_dir[i]),
    decreases cs.len(),
{
    if cs.len() > 0 {
        let n = cs.len() - 1;
        let init = cs.drop_last();
        let ri = root_is_dir.subrange(0, n);
        lemma_kept_consumers_qualify(init, ri);
        let kc = kept_consumers(cs, root_is_dir);
        let ki = kept_consumers(init, ri);
        assert forall|c: ConsumerView| #[trigger] kc.contains(c) implies exists|i: int|
            #![trigger cs[i]]
            0 <= i < cs.len() && cs[i] == c && (!c.root_exact || root_is_dir[i]) by {
            let w = choose|w: int| 0 <= w < kc.len() && kc[w] == c;
            if (!cs.last().root_exact || root_is_dir[n]) && w == kc.len() - 1 {
                assert(cs[n] == c && (!c.root_exact || root_is_dir[n]));
            } else {
                assert(kc[w] == ki[w]);
                assert(ki.contains(c));
                let i = choose|i: int| #![trigger init[i]] 0 <= i < init.len() && init[i] == c && (!c.root_exact || ri[i]);
                assert(cs[i] == c && ri[i] == root_is_dir[i]);
            }
        }
    }
}

proof fn lemma_builds_split(bs: Seq<BuildView>, cs: Seq<ConsumerView>, protect: Seq<char>, now: u64, retention_secs: u64)
    ensures
        forall|b: BuildView| #[trigger] kept_builds(bs, cs, protect, now, retention_secs).contains(b) ==> bs.contains(b)
            && build_kept(b, cs, protect, now, retention_secs),
        forall|i: int| 0 <= i < bs.len() && !build_kept(#[trigger] bs[i], cs, protect, now, retention_secs)
            ==> removed_keys(bs, cs, protect, now, retention_secs).contains(bs[i].key),
    decreases bs.len(),
{
    if bs.len() > 0 {
        let init = bs.drop_last();
        lemma_builds_split(init, cs, protect, now, retention_secs);
        let kb = kept_builds(bs, cs, protect, now, retention_secs);
        let ki = kept_builds(init, cs, protect, now, retention_secs);
        let rk = removed_keys(bs, cs, protect, now, retention_secs);
        let ri = removed_keys(init, cs, protect, now, retention_secs);
        let last_kept = build_kept(bs.last(), cs, protect, now, retention_secs);
        assert forall|b: BuildView| #[trigger] kb.contains(b) implies bs.contains(b) && build_kept(b, cs, protect, now, retention_secs) by {
            let w = choose|w: int| 0 <= w < kb.len() && kb[w] == b;
            if last_kept && w == kb.len() - 1 {
                assert(bs[bs.len() - 1] == b);
            } else {
                assert(kb[w] == ki[w]);
                assert(ki.contains(b));
                let v = choose|v: int| 0 <= v < init.len() && init[v] == b;
                assert(bs[v] == b);
            }
        }
        assert forall|i: int| 0 <= i < bs.len() && !build_kept(#[trigger] bs[i], cs, protect, now, retention_secs)
            implies rk.contains(bs[i].key) by {
            if i < bs.len() - 1 {
                assert(bs[i] == init[i]);
                assert(ri.contains(init[i].key));
                let w = choose|w: int| 0 <= w < ri.len() && ri[w] == init[i].key;
                assert(rk[w] == ri[w]);
            } else {
                assert(rk[rk.len() - 1] == bs[i].key);
            }
        }
    }
}

/// A collection pass, whole. The consumers kept are exactly those, in order,
/// whose root was not written exactly or is still a directory. A build stays
/// exactly when it is the protected one or some kept consumer resolving to it
/// was seen within the retention window; every other build's key is reported
/// removed, in table order, and every key reported is one of those. The only
/// directories deleted are `<cache>/builds/<k>` for reported keys `k` of the
/// shape this crate writes.
pub proof fn law_a_collection_pass(
    cs: Seq<ConsumerView>,
    root_is_dir: Seq<bool>,
    bs: Seq<BuildView>,
    protect: Seq<char>,
    now: u64,
    retention_secs: u64,
    cache_root: Seq<char>,
)
    requires
        root_is_dir.len() == cs.len(),
    ensures
        forall|i: int| 0 <= i < cs.len() && (!(#[trigger] cs[i]).root_exact || root_is_dir[i])
            ==> kept_consumers(cs, root_is_dir).contains(cs[i]),
        forall|c: ConsumerView| #[trigger] kept_consumers(cs, root_is_dir).contains(c) ==> exists|i: int|
            #![trigger cs[i]]
            0 <= i < cs.len() && cs[i] == c && (!c.root_exact || root_is_dir[i]),
        forall|b: BuildView|
            build_kept(b, kept_consumers(cs, root_is_dir), protect, now, retention_secs) == (b.key == protect
                || exists|c: ConsumerView|
                #![trigger kept_consumers(cs, root_is_dir).contains(c)]
                kept_consumers(cs, root_is_dir).contains(c) && c.key == b.key && now.saturating_sub(c.last_seen)
                    < retention_secs),
        forall|i: int|
            0 <= i < bs.len() && build_kept(#[trigger] bs[i], kept_consumers(cs, root_is_dir), protect, now, retention_secs)
                ==> kept_builds(bs, kept_consumers(cs, root_is_dir), protect, now, retention_secs).contains(bs[i]),
        forall|b: BuildView|
            #[trigger] kept_builds(bs, kept_consumers(cs, root_is_dir), protect, now, retention_secs).contains(b)
                ==> bs.contains(b) && build_kept(b, kept_consumers(cs, root_is_dir), protect, now, retention_secs),
        forall|i: int|
            0 <= i < bs.len() && !build_kept(#[trigger] bs[i], kept_consumers(cs, root_is_dir), protect, now, retention_secs)
                ==> removed_keys(bs, kept_consumers(cs, root_is_dir), protect, now, retention_secs).contains(bs[i].key),
        forall|j: int|
            0 <= j < removed_keys(bs, kept_consumers(cs, root_is_dir), protect, now, retention_secs).len() ==> exists|i: int|
                0 <= i < bs.len() && !build_kept(bs[i], kept_consumers(cs, root_is_dir), protect, now, retention_secs)
                    && (#[trigger] bs[i]).key == #[trigger] removed_keys(bs, kept_consumers(cs, root_is_dir), protect, now, retention_secs)[j],
        forall|i: int|
            0 <= i < deleted_dirs(removed_keys(bs, kept_consumers(cs, root_is_dir), protect, now, retention_secs), cache_root).len()
                ==> is_build_dir_of(
                #[trigger] deleted_dirs(removed_keys(bs, kept_consumers(cs, root_is_dir), protect, now, retention_secs), cache_root)[i],
                removed_keys(bs, kept_consumers(cs, root_is_dir), protect, now, retention_secs),
                cache_root,
            ),
{
    let kc = kept_consumers(cs, root_is_dir);
    law_gc_drops_only_vanished_exact_roots(cs, root_is_dir);
    lemma_kept_consumers_qualify(cs, root_is_dir);
    assert forall|b: BuildView|
        build_kept(b, kc, protect, now, retention_secs) == (b.key == protect || exists|c: ConsumerView|
            #![trigger kc.contains(c)]
            kc.contains(c) && c.key == b.key && now.saturating_sub(c.last_seen) < retention_secs) by {
        if pinned(kc, b.key, now, retention_secs) {
            let i = choose|i: int| 0 <= i < kc.len() && (#[trigger] kc[i]).key == b.key && is_live(kc[i], now, retention_secs);
            assert(kc.contains(kc[i]));
        }
        if exists|c: ConsumerView| #![trigger kc.contains(c)] kc.contains(c) && c.key == b.key && now.saturating_sub(c.last_seen) < retention_secs {
            let c = choose|c: ConsumerView| #![trigger kc.contains(c)] kc.contains(c) && c.key == b.key && now.saturating_sub(c.last_seen) < retention_secs;
            let i = choose|i: int| 0 <= i < kc.len() && kc[i] == c;
            assert(is_live(kc[i], now, retention_secs));
        }
    }
    lemma_kept_builds_keeps(bs, kc, protect, now, retention_secs);
    lemma_builds_split(bs, kc, protect, now, retention_secs);
    law_gc_accounts_for_every_build(bs, kc, protect, now, retention_secs);
    law_deletes_stay_in_the_build_cache(removed_keys(bs, kc, protect, now, retention_secs), cache_root);
}

/// The recorded form and value of a pin: the reference's own form for a pin
/// from the config, `legacy` for one from the fallback; the value either way.
pub open spec fn form_of(r: RefView, source: PinSource) -> PinForm {
    match source {
        PinSource::Legacy => PinForm::Legacy,
        PinSource::Config => match r {
            RefView::Version(_) => PinForm::Version,
            RefView::Branch(_) => PinForm::Branch,
            RefView::Rev(_) => PinForm::Rev,
            RefView::Tag(_) => PinForm::Tag,
        },
    }
}

/// The registry pin form and value for a resolved pin. Legacy overrides the
/// reference's form: a legacy pin must register as legacy whatever it names.
pub fn pin_form_and_value(pin: &Pin, source: PinSource) -> (r: (PinForm, String))
    ensures
        r.0 == form_of(pin.reference@, source),
        r.1@ == ref_value(pin.reference@),
{
    let value = match &pin.reference {
        Reference::Version(v) | Reference::Branch(v) | Reference::Rev(v) | Reference::Tag(v) => v.clone(),
    };
    let form = match source {
        PinSource::Legacy => PinForm::Legacy,
        PinSource::Config => match &pin.reference {
            Reference::Version(_) => PinForm::Version,
            Reference::Branch(_) => PinForm::Branch,
            Reference::Rev(_) => PinForm::Rev,
            Reference::Tag(_) => PinForm::Tag,
        },
    };
    (form, value)
}

} // verus!
