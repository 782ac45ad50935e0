//! Resolving a pinned engine to concrete build attempts.
//!
//! A rev, a tag and a version are immutable and resolve on their own. A branch
//! moves, so it resolves to the revision its head names now, which is read
//! from the remote (and cached beside the builds with a one-hour window). The
//! asking and the caching are the caller's; what is asked, how the answer is
//! read back, and what is built from it are here.

use vstd::prelude::*;

use crate::hash::{fnv_fields, hex16, Fnv};
use crate::manifest::{Pin, RefView, Reference};
use crate::path::{join, join_spec};
use crate::text::{has_infix, lemma_infix_of_concat, lemma_infix_widens, occurs_at,
    after_first_line, cat, decimal, first_line, first_word, first_word_of, opt_chars,
    owned, parse_u64, parse_u64_spec, push_char, split_first_line, to_decimal, trim, trim_chars,
    utf8_len, utf8_len_capped, chars_of, string_of,
};
use crate::engine::views;
use crate::tool::{Tool, VersionSource};

verus! {

/// A branch pin re-resolves to a concrete rev at most this often, in seconds.
pub const BRANCH_TTL_SECS: u64 = 3600;

/// A pin resolved to concrete build attempts.
#[derive(Debug, Clone, PartialEq, Eq)]
pub struct Resolved {
    /// The pin this came from.
    pub pin: Pin,
    /// The stable component of the cache key: `v:<version>` for a release, the
    /// concrete rev for a rev or branch pin, `tag:<t>` for a tag.
    pub key_rev: String,
    /// The `cargo install` argument lists, tried in order until one succeeds.
    attempts: Vec<Vec<String>>,
    /// The first tag a version pin would try; empty for every other form.
    version_tag: String,
}

/// The characters of one attempt list after another.
pub open spec fn attempt_views(a: Seq<Vec<String>>) -> Seq<Seq<Seq<char>>> {
    a.map_values(|v: Vec<String>| views(v@))
}

/// A resolution as characters: the pin, the key revision, the attempts and
/// the version tag.
pub type ResolvedView = ((Seq<char>, RefView), Seq<char>, Seq<Seq<Seq<char>>>, Seq<char>);

impl View for Resolved {
    type V = ResolvedView;

    closed spec fn view(&self) -> ResolvedView {
        (self.pin@, self.key_rev@, attempt_views(self.attempts@), self.version_tag@)
    }
}

/// One `cargo install` attempt from the pinned repository: `--git <url>`, the
/// selector, and the engine crate.
pub open spec fn git_attempt(url: Seq<char>, sel: Seq<Seq<char>>, krate: Seq<char>) -> Seq<
    Seq<char>,
> {
    seq!["--git"@, url] + sel + seq![krate]
}

/// The attempts for a version's tags, in order.
pub open spec fn tag_attempts(url: Seq<char>, tags: Seq<Seq<char>>, krate: Seq<char>) -> Seq<
    Seq<Seq<char>>,
> {
    tags.map_values(|t: Seq<char>| git_attempt(url, seq!["--tag"@, t], krate))
}

/// Why a version pin cannot be resolved when the tool's tag hook named no tag.
pub open spec fn no_tag_message(short: Seq<char>, v: Seq<char>, url: Seq<char>) -> Seq<char> {
    "the "@ + short + " version pin "@ + v
        + " has no tag to build from: this tool's `version_tags` hook returned an empty list. A version pin resolves through the tags on "@
        + url + ", so the hook has to name at least one."@
}

/// A version pin whose tag hook names no tag is refused, and the refusal
/// names the hook, the version and the repository it would have resolved
/// through, whichever source the tool's versions come from.
pub proof fn law_a_hook_naming_no_tag_is_refused_by_name(
    t: Tool,
    url: Seq<char>,
    v: Seq<char>,
    head: Option<Seq<char>>,
)
    ensures
        resolve_spec(t, (url, RefView::Version(v)), Some(Seq::empty()), head) == Err::<
            ResolvedView,
            Seq<char>,
        >(no_tag_message(t.short@, v, url)),
        has_infix(no_tag_message(t.short@, v, url), "version_tags"@),
        has_infix(no_tag_message(t.short@, v, url), v),
        has_infix(no_tag_message(t.short@, v, url), url),
{
    let lit = " has no tag to build from: this tool's `version_tags` hook returned an empty list. A version pin resolves through the tags on "@;
    let tail = ", so the hook has to name at least one."@;
    let head_part = "the "@ + t.short@ + " version pin "@;
    let m = no_tag_message(t.short@, v, url);
    reveal_strlit(" has no tag to build from: this tool's `version_tags` hook returned an empty list. A version pin resolves through the tags on ");
    reveal_strlit("version_tags");
    assert(lit.subrange(40, 52) =~= "version_tags"@);
    assert(occurs_at(lit, "version_tags"@, 40));
    lemma_infix_widens(lit, "version_tags"@, head_part + v, url + tail);
    assert(m =~= (head_part + v) + lit + (url + tail));
    lemma_infix_of_concat(head_part, v, lit + url + tail);
    assert(m =~= head_part + v + (lit + url + tail));
    lemma_infix_of_concat(head_part + v + lit, url, tail);
    assert(m =~= (head_part + v + lit) + url + tail);
}

/// A version pin resolves to the pinned version, whatever its tags are
/// called: its key is `v:` and the version; a tool that owns its crate name
/// tries the registry release of that very version first, as
/// `<engine crate> --version <version>`, and one that does not never asks the
/// registry; and then each tag the hook names (the bare version without a
/// hook) is tried, in order, as a `--tag` build from the pinned repository.
pub proof fn law_a_version_pin_builds_that_version(
    t: Tool,
    url: Seq<char>,
    v: Seq<char>,
    tags: Option<Seq<Seq<char>>>,
    head: Option<Seq<char>>,
)
    requires
        tags matches Some(ts) ==> ts.len() > 0,
    ensures
        resolve_spec(t, (url, RefView::Version(v)), tags, head) matches Ok(r) && ({
            let names = match tags {
                Some(ts) => ts,
                None => seq![v],
            };
            let lead: int = if t.version_source == VersionSource::RegistryThenGitTag { 1 } else { 0 };
            &&& r.1 == "v:"@ + v
            &&& r.2.len() == lead + names.len()
            &&& (t.version_source == VersionSource::RegistryThenGitTag ==> r.2[0] == seq![
                t.engine_crate@,
                "--version"@,
                v,
            ])
            &&& forall|i: int|
                0 <= i < names.len() ==> #[trigger] r.2[lead + i] == seq![
                    "--git"@,
                    url,
                    "--tag"@,
                    names[i],
                    t.engine_crate@,
                ]
        }),
{
    let names = match tags {
        Some(ts) => ts,
        None => seq![v],
    };
    let krate = t.engine_crate@;
    let registry: Seq<Seq<Seq<char>>> = if t.version_source == VersionSource::RegistryThenGitTag {
        seq![seq![krate, "--version"@, v]]
    } else {
        Seq::empty()
    };
    let tagged = tag_attempts(url, names, krate);
    let all = registry + tagged;
    let lead: int = if t.version_source == VersionSource::RegistryThenGitTag { 1 } else { 0 };
    assert forall|i: int| 0 <= i < names.len() implies #[trigger] all[lead + i] == seq![
        "--git"@,
        url,
        "--tag"@,
        names[i],
        krate,
    ] by {
        assert(all[lead + i] == tagged[i]);
        assert(git_attempt(url, seq!["--tag"@, names[i]], krate) =~= seq!["--git"@, url, "--tag"@, names[i], krate]);
    }
}

/// A rev, a tag or a branch pin resolves to one build from the pinned
/// repository: a rev keys on itself and builds `--rev` it; a tag keys on
/// `tag:` and the tag and builds `--tag` it; a branch builds `--rev` the
/// revision its head was found at and keys on that revision, and with no head
/// it is refused as needing the network. None of them has a version tag.
pub proof fn law_a_fixed_or_moving_pin_builds_one_revision(
    t: Tool,
    url: Seq<char>,
    r: RefView,
    tags: Option<Seq<Seq<char>>>,
    head: Option<Seq<char>>,
)
    requires
        !(r is Version),
    ensures
        match r {
            RefView::Rev(rv) => resolve_spec(t, (url, r), tags, head) == Ok::<ResolvedView, Seq<char>>(
                ((url, r), rv, seq![seq!["--git"@, url, "--rev"@, rv, t.engine_crate@]], Seq::empty()),
            ),
            RefView::Tag(tg) => resolve_spec(t, (url, r), tags, head) == Ok::<ResolvedView, Seq<char>>(
                ((url, r), "tag:"@ + tg, seq![seq!["--git"@, url, "--tag"@, tg, t.engine_crate@]], Seq::empty()),
            ),
            RefView::Branch(b) => match head {
                Some(sha) => resolve_spec(t, (url, r), tags, head) == Ok::<ResolvedView, Seq<char>>(
                    ((url, r), sha, seq![seq!["--git"@, url, "--rev"@, sha, t.engine_crate@]], Seq::empty()),
                ),
                None => resolve_spec(t, (url, r), tags, head) is Err,
            },
            RefView::Version(_) => true,
        },
{
    let krate = t.engine_crate@;
    match r {
        RefView::Rev(rv) => {
            assert(git_attempt(url, seq!["--rev"@, rv], krate) =~= seq!["--git"@, url, "--rev"@, rv, krate]);
        },
        RefView::Tag(tg) => {
            assert(git_attempt(url, seq!["--tag"@, tg], krate) =~= seq!["--git"@, url, "--tag"@, tg, krate]);
        },
        RefView::Branch(_) => {
            if let Some(sha) = head {
                assert(git_attempt(url, seq!["--rev"@, sha], krate) =~= seq!["--git"@, url, "--rev"@, sha, krate]);
            }
        },
        RefView::Version(_) => {},
    }
}

/// The git ref a resolution names is always a concrete, immutable one: for
/// a version the first tag tried (the bare version without a hook), for a tag
/// the tag, for a rev the rev, and for a branch the revision its head was
/// found at, never the branch's name.
pub proof fn law_the_git_ref_is_concrete(
    t: Tool,
    url: Seq<char>,
    r: RefView,
    tags: Option<Seq<Seq<char>>>,
    head: Option<Seq<char>>,
)
    ensures
        match resolve_spec(t, (url, r), tags, head) {
            Ok(x) => git_ref_spec(x) == match r {
                RefView::Version(v) => ("tag"@, match tags {
                    Some(ts) => ts[0],
                    None => v,
                }),
                RefView::Tag(tg) => ("tag"@, tg),
                RefView::Rev(rv) => ("rev"@, rv),
                RefView::Branch(_) => ("rev"@, head.unwrap()),
            },
            Err(_) => true,
        },
{
}

/// Why a branch pin cannot be resolved without asking the remote.
pub open spec fn needs_network_message(b: Seq<char>) -> Seq<char> {
    "the branch pin "@ + b
        + " moves, so the revision it names is only known by asking the network for its head"@
}

/// What a pin resolves to, given the tags the tool's hook names for a version
/// (`None` where it has no hook: the bare version) and, for a branch, the
/// revision its head was found at.
pub open spec fn resolve_spec(
    t: Tool,
    pin: (Seq<char>, RefView),
    tags: Option<Seq<Seq<char>>>,
    head: Option<Seq<char>>,
) -> Result<ResolvedView, Seq<char>> {
    let (url, r) = pin;
    let krate = t.engine_crate@;
    match r {
        RefView::Version(v) => {
            let names = match tags {
                Some(ts) => ts,
                None => seq![v],
            };
            if names.len() == 0 {
                Err(no_tag_message(t.short@, v, url))
            } else {
                let registry = if t.version_source == VersionSource::RegistryThenGitTag {
                    seq![seq![krate, "--version"@, v]]
                } else {
                    Seq::empty()
                };
                Ok((pin, "v:"@ + v, registry + tag_attempts(url, names, krate), names[0]))
            }
        },
        RefView::Rev(rv) => Ok((pin, rv, seq![git_attempt(url, seq!["--rev"@, rv], krate)], Seq::empty())),
        RefView::Tag(tg) => Ok(
            (pin, "tag:"@ + tg, seq![git_attempt(url, seq!["--tag"@, tg], krate)], Seq::empty()),
        ),
        RefView::Branch(b) => match head {
            Some(sha) => Ok(
                (pin, sha, seq![git_attempt(url, seq!["--rev"@, sha], krate)], Seq::empty()),
            ),
            None => Err(needs_network_message(b)),
        },
    }
}

/// Whether an attempt builds from the repository at `url`.
pub open spec fn from_repository(attempt: Seq<Seq<char>>, url: Seq<char>) -> bool {
    attempt.len() >= 2 && attempt[0] == "--git"@ && attempt[1] == url
}

/// A pin builds the engine crate and builds it from the pinned repository and
/// nowhere else: a resolution has at least one attempt, and every attempt
/// fetches from the pin's url and installs the tool's engine crate, but for
/// the one registry attempt, naming the engine crate, that leads a version pin
/// of a tool that owns its crate name there.
pub proof fn law_attempts_build_from_the_pin(
    t: Tool,
    pin: (Seq<char>, RefView),
    tags: Option<Seq<Seq<char>>>,
    head: Option<Seq<char>>,
)
    ensures
        match resolve_spec(t, pin, tags, head) {
            Ok(r) => r.2.len() > 0 && forall|i: int|
                0 <= i < r.2.len() ==> (from_repository(#[trigger] r.2[i], pin.0) && r.2[i].last()
                    == t.engine_crate@) || (i == 0 && t.version_source == VersionSource::RegistryThenGitTag
                    && pin.1 is Version && r.2[i].len() > 0 && r.2[i][0] == t.engine_crate@),
            Err(_) => true,
        },
{
    let (url, r) = pin;
    let krate = t.engine_crate@;
    match r {
        RefView::Version(v) => {
            let names = match tags {
                Some(ts) => ts,
                None => seq![v],
            };
            if names.len() > 0 {
                let registry: Seq<Seq<Seq<char>>> = if t.version_source == VersionSource::RegistryThenGitTag {
                    seq![seq![krate, "--version"@, v]]
                } else {
                    Seq::empty()
                };
                let tagged = tag_attempts(url, names, krate);
                let all = registry + tagged;
                assert forall|i: int| 0 <= i < all.len() implies (from_repository(#[trigger] all[i], url)
                    && all[i].last() == krate) || (i == 0 && t.version_source
                    == VersionSource::RegistryThenGitTag && pin.1 is Version && all[i].len() > 0
                    && all[i][0] == krate) by {
                    if i >= registry.len() {
                        let j = i - registry.len();
                        let g = git_attempt(url, seq!["--tag"@, names[j]], krate);
                        assert(all[i] == tagged[j]);
                        assert(tagged[j] == g);
                        assert(g.len() == 5);
                        assert(g[0] == "--git"@ && g[1] == url && g.last() == krate);
                    } else {
                        assert(all[i] == registry[i]);
                    }
                }
            }
        },
        RefView::Rev(rv) => {
            let g = git_attempt(url, seq!["--rev"@, rv], krate);
            assert(g[0] == "--git"@ && g[1] == url && g.last() == krate);
        },
        RefView::Tag(tg) => {
            let g = git_attempt(url, seq!["--tag"@, tg], krate);
            assert(g[0] == "--git"@ && g[1] == url && g.last() == krate);
        },
        RefView::Branch(b) => {
            if let Some(sha) = head {
                let g = git_attempt(url, seq!["--rev"@, sha], krate);
                assert(g[0] == "--git"@ && g[1] == url && g.last() == krate);
            }
        },
    }
}

/// The git ref kind and value a resolution names: the version's first tag, the
/// tag, or the concrete revision a rev or branch resolved to.
pub open spec fn git_ref_spec(r: ResolvedView) -> (Seq<char>, Seq<char>) {
    match r.0.1 {
        RefView::Version(_) => ("tag"@, r.3),
        RefView::Tag(t) => ("tag"@, t),
        _ => ("rev"@, r.1),
    }
}

/// The owned strings of a list of literals.
fn strings(items: &[&str]) -> (r: Vec<String>)
    ensures
        views(r@) == items@.map_values(|s: &str| s@),
{
    let mut v: Vec<String> = Vec::new();
    let mut i: usize = 0;
    while i < items.len()
        invariant
            i <= items@.len(),
            views(v@) == items@.subrange(0, i as int).map_values(|s: &str| s@),
        decreases items.len() - i,
    {
        let ghost before = v@;
        v.push(owned(items[i]));
        proof {
            assert(views(v@) =~= views(before).push(items@[i as int]@));
            assert(items@.subrange(0, i + 1).map_values(|s: &str| s@) =~= items@.subrange(
                0,
                i as int,
            ).map_values(|s: &str| s@).push(items@[i as int]@));
        }
        i = i + 1;
    }
    assert(items@.subrange(0, items@.len() as int) =~= items@);
    v
}

/// One attempt from the pinned repository.
fn git_attempt_exec(url: &str, sel: &str, value: &str, krate: &str) -> (r: Vec<String>)
    ensures
        views(r@) == git_attempt(url@, seq![sel@, value@], krate@),
{
    let v = strings(&["--git", url, sel, value, krate]);
    assert(views(v@) =~= git_attempt(url@, seq![sel@, value@], krate@));
    v
}

impl Resolved {
    /// The `cargo install` argument lists, tried in order.
    pub fn attempts(&self) -> (r: &Vec<Vec<String>>)
        ensures
            attempt_views(r@) == self@.2,
    {
        &self.attempts
    }

    /// Resolve a pin to concrete build attempts, given what the tool's
    /// `version_tags` hook names for a version (`None` for a tool without the
    /// hook, which means the bare version) and, for a branch, the revision the
    /// branch's head was found at.
    ///
    /// A version tries the registry first only for a tool that owns its crate
    /// name there, then each tag in order. A hook naming no tag is refused by
    /// name rather than left with nothing to try. A branch with no head is
    /// refused as needing the network.
    pub fn resolve_with(
        tool: &Tool,
        pin: &Pin,
        version_tags: Option<Vec<String>>,
        branch_head: Option<String>,
    ) -> (r: Result<Resolved, String>)
        ensures
            match r {
                Ok(x) => resolve_spec(
                    *tool,
                    pin@,
                    match version_tags {
                        Some(ts) => Some(views(ts@)),
                        None => None,
                    },
                    opt_chars(branch_head),
                ) == Ok::<ResolvedView, Seq<char>>(x@),
                Err(e) => resolve_spec(
                    *tool,
                    pin@,
                    match version_tags {
                        Some(ts) => Some(views(ts@)),
                        None => None,
                    },
                    opt_chars(branch_head),
                ) == Err::<ResolvedView, Seq<char>>(e@),
            },
    {
        let url = pin.url.as_str();
        let krate = tool.engine_crate;
        match &pin.reference {
            Reference::Version(v) => {
                let names: Vec<String> = match version_tags {
                    Some(ts) => ts,
                    None => {
                        let mut one: Vec<String> = Vec::new();
                        one.push(v.clone());
                        proof {
                            assert(views(one@) =~= seq![v@]);
                        }
                        one
                    },
                };
                if names.len() == 0 {
                    let mut m = owned("the ");
                    m.append(tool.short);
                    m.append(" version pin ");
                    m.append(v.as_str());
                    m.append(
                        " has no tag to build from: this tool's `version_tags` hook returned an empty list. A version pin resolves through the tags on ",
                    );
                    m.append(url);
                    m.append(", so the hook has to name at least one.");
                    return Err(m);
                }
                let mut attempts: Vec<Vec<String>> = Vec::new();
                if matches!(tool.version_source, VersionSource::RegistryThenGitTag) {
                    let reg = strings(&[krate, "--version", v.as_str()]);
                    assert(views(reg@) =~= seq![krate@, "--version"@, v@]);
                    attempts.push(reg);
                    proof {
                        assert(attempt_views(attempts@) =~= seq![seq![krate@, "--version"@, v@]]);
                    }
                } else {
                    assert(attempt_views(attempts@) =~= Seq::<Seq<Seq<char>>>::empty());
                }
                let ghost registry = attempt_views(attempts@);
                let mut i: usize = 0;
                while i < names.len()
                    invariant
                        i <= names@.len(),
                        url@ == pin.url@,
                        krate@ == tool.engine_crate@,
                        attempt_views(attempts@) == registry + tag_attempts(
                            url@,
                            views(names@).subrange(0, i as int),
                            krate@,
                        ),
                    decreases names.len() - i,
                {
                    let ghost before = attempts@;
                    let a = git_attempt_exec(url, "--tag", names[i].as_str(), krate);
                    attempts.push(a);
                    proof {
                        assert(views(names@).subrange(0, i + 1) =~= views(names@).subrange(
                            0,
                            i as int,
                        ).push(names@[i as int]@));
                        assert(attempt_views(attempts@) =~= attempt_views(before).push(views(a@)));
                        assert(tag_attempts(url@, views(names@).subrange(0, i + 1), krate@)
                            =~= tag_attempts(url@, views(names@).subrange(0, i as int), krate@).push(
                            git_attempt(url@, seq!["--tag"@, names@[i as int]@], krate@),
                        ));
                    }
                    i = i + 1;
                }
                proof {
                    assert(views(names@).subrange(0, names@.len() as int) =~= views(names@));
                }
                let first = names[0].clone();
                let key = cat("v:", v.as_str());
                Ok(Resolved { pin: pin.duplicate(), key_rev: key, attempts, version_tag: first })
            },
            Reference::Rev(rv) => {
                let mut attempts: Vec<Vec<String>> = Vec::new();
                attempts.push(git_attempt_exec(url, "--rev", rv.as_str(), krate));
                proof {
                    assert(attempt_views(attempts@) =~= seq![
                        git_attempt(url@, seq!["--rev"@, rv@], krate@),
                    ]);
                }
                Ok(
                    Resolved {
                        pin: pin.duplicate(),
                        key_rev: rv.clone(),
                        attempts,
                        version_tag: String::new(),
                    },
                )
            },
            Reference::Tag(tg) => {
                let mut attempts: Vec<Vec<String>> = Vec::new();
                attempts.push(git_attempt_exec(url, "--tag", tg.as_str(), krate));
                proof {
                    assert(attempt_views(attempts@) =~= seq![
                        git_attempt(url@, seq!["--tag"@, tg@], krate@),
                    ]);
                }
                Ok(
                    Resolved {
                        pin: pin.duplicate(),
                        key_rev: cat("tag:", tg.as_str()),
                        attempts,
                        version_tag: String::new(),
                    },
                )
            },
            Reference::Branch(b) => match branch_head {
                Some(sha) => {
                    let mut attempts: Vec<Vec<String>> = Vec::new();
                    attempts.push(git_attempt_exec(url, "--rev", sha.as_str(), krate));
                    proof {
                        assert(attempt_views(attempts@) =~= seq![
                            git_attempt(url@, seq!["--rev"@, sha@], krate@),
                        ]);
                    }
                    Ok(
                        Resolved {
                            pin: pin.duplicate(),
                            key_rev: sha,
                            attempts,
                            version_tag: String::new(),
                        },
                    )
                },
                None => {
                    let mut m = owned("the branch pin ");
                    m.append(b.as_str());
                    m.append(
                        " moves, so the revision it names is only known by asking the network for its head",
                    );
                    Err(m)
                },
            },
        }
    }

    /// Resolve a pin that needs no remote: a version (by its bare tag), a rev
    /// or a tag. A branch is refused, since what it names is only known by
    /// asking the network.
    pub fn without_network(tool: &Tool, pin: &Pin) -> (r: Result<Resolved, String>)
        ensures
            match r {
                Ok(x) => resolve_spec(*tool, pin@, None, None) == Ok::<ResolvedView, Seq<char>>(
                    x@,
                ),
                Err(e) => resolve_spec(*tool, pin@, None, None) == Err::<ResolvedView, Seq<char>>(
                    e@,
                ),
            },
    {
        Resolved::resolve_with(tool, pin, None, None)
    }

    /// The git ref kind and value this resolved to, for a hook building a
    /// dependency pinned to the same source: always a concrete immutable ref,
    /// since a branch has already become the rev it pointed at.
    pub fn git_ref(&self) -> (r: (&'static str, &str))
        ensures
            (r.0@, r.1@) == git_ref_spec(self@),
    {
        match &self.pin.reference {
            Reference::Version(_) => ("tag", self.version_tag.as_str()),
            Reference::Tag(t) => ("tag", t.as_str()),
            Reference::Rev(_) | Reference::Branch(_) => ("rev", self.key_rev.as_str()),
        }
    }
}

/// Where a branch's resolution is cached: under `branch-resolutions`, named by
/// the url and the branch hashed as two fields.
pub fn branch_resolution_path(cache_root: &str, url: &str, branch: &str) -> (r: String)
    ensures
        r@ == join_spec(
            join_spec(cache_root@, "branch-resolutions"@),
            hex16(fnv_fields(seq![url@, branch@])),
        ),
{
    let mut h = Fnv::new();
    h.write_field(url);
    h.write_field(branch);
    proof {
        crate::hash::lemma_fields_step(Seq::empty(), url@);
        crate::hash::lemma_fields_step(seq![url@], branch@);
        assert(Seq::<Seq<char>>::empty().push(url@) =~= seq![url@]);
        assert(seq![url@].push(branch@) =~= seq![url@, branch@]);
    }
    let d = join(cache_root, "branch-resolutions");
    let k = h.hex();
    join(d.as_str(), k.as_str())
}

/// What a resolution file holds: the time it was written and the revision,
/// one per line.
pub open spec fn resolution_text_spec(now: u64, sha: Seq<char>) -> Seq<char> {
    decimal(now as nat).push('\n') + sha.push('\n')
}

/// The text of a resolution file.
pub fn resolution_text(now: u64, sha: &str) -> (r: String)
    ensures
        r@ == resolution_text_spec(now, sha@),
{
    let mut s = to_decimal(now);
    push_char(&mut s, '\n');
    s.append(sha);
    push_char(&mut s, '\n');
    assert(s@ =~= resolution_text_spec(now, sha@));
    s
}

/// What a resolution file's text says: the time on its first line, and the
/// revision on its second, both trimmed; nothing when either is missing, the
/// time is not a number, or the revision is empty.
pub open spec fn read_resolution_spec(text: Seq<char>) -> Option<(u64, Seq<char>)> {
    match first_line(text) {
        None => None,
        Some(l1) => match parse_u64_spec(trim(l1)) {
            None => None,
            Some(ts) => match first_line(after_first_line(text)) {
                None => None,
                Some(l2) => if trim(l2).len() == 0 {
                    None
                } else {
                    Some((ts, trim(l2)))
                },
            },
        },
    }
}

/// Read a resolution file's text. See [`read_resolution_spec`].
pub fn read_resolution(text: &str) -> (r: Option<(u64, String)>)
    ensures
        match r {
            Some((ts, sha)) => read_resolution_spec(text@) == Some((ts, sha@)),
            None => read_resolution_spec(text@) is None,
        },
{
    let (l1, rest) = split_first_line(text);
    let l1 = match l1 {
        Some(l) => l,
        None => return None,
    };
    let t1 = trim_chars(&chars_of(l1.as_str()));
    let t1s = string_of(&t1);
    let ts = match parse_u64(t1s.as_str()) {
        Some(ts) => ts,
        None => return None,
    };
    let (l2, _) = split_first_line(rest.as_str());
    let l2 = match l2 {
        Some(l) => l,
        None => return None,
    };
    let t2 = trim_chars(&chars_of(l2.as_str()));
    if t2.len() == 0 {
        return None;
    }
    Some((ts, string_of(&t2)))
}

/// Every character of `n`'s decimal rendering is a digit, and its value is `n`.
proof fn lemma_decimal(n: nat)
    ensures
        decimal(n).len() > 0,
        crate::text::all_digits(decimal(n)),
        crate::text::decimal_value(decimal(n)) == n,
    decreases n,
{
    let d = decimal(n);
    if n >= 10 {
        lemma_decimal(n / 10);
        assert(d.drop_last() =~= decimal(n / 10));
        assert((d.last() as u32) == 48 + n % 10);
        assert((n / 10) * 10 + n % 10 == n) by (nonlinear_arith);
        assert forall|i: int| 0 <= i < d.len() implies crate::text::is_digit(#[trigger] d[i]) by {
            if i < d.len() - 1 {
                assert(d[i] == decimal(n / 10)[i]);
            }
        }
    } else {
        assert(d.drop_last() =~= Seq::<char>::empty());
        assert((d.last() as u32) == 48 + n);
        assert(crate::text::decimal_value(d.drop_last()) == 0);
    }
}

/// Text with no white space in it is its own trim.
proof fn lemma_trim_of_word(s: Seq<char>)
    requires
        s.len() > 0,
        forall|i: int| 0 <= i < s.len() ==> !crate::text::is_space(#[trigger] s[i]),
    ensures
        trim(s) == s,
{
    assert(crate::text::first_non_space(s, 0) == 0);
    assert(crate::text::last_non_space(s, s.len() as int) == s.len());
    assert(s.subrange(0, s.len() as int) =~= s);
}

/// The line ending of `a` followed by a newline and more is right after `a`,
/// when `a` has none of its own.
proof fn lemma_line_end_of(a: Seq<char>, b: Seq<char>, i: int)
    requires
        0 <= i <= a.len(),
        forall|j: int| 0 <= j < a.len() ==> #[trigger] a[j] != '\n',
    ensures
        crate::text::line_end(a.push('\n') + b, i) == a.len(),
    decreases a.len() - i,
{
    let s = a.push('\n') + b;
    if i < a.len() {
        assert(s[i] == a[i]);
        lemma_line_end_of(a, b, i + 1);
    } else {
        assert(s[i] == '\n');
    }
}

/// What a resolution file is written as is what reading it gives back: the
/// time and the revision, for any revision that is one word.
pub proof fn law_resolution_roundtrip(now: u64, sha: Seq<char>)
    requires
        sha.len() > 0,
        forall|i: int| 0 <= i < sha.len() ==> !crate::text::is_space(#[trigger] sha[i]),
    ensures
        read_resolution_spec(resolution_text_spec(now, sha)) == Some((now, sha)),
{
    let d = decimal(now as nat);
    lemma_decimal(now as nat);
    assert forall|j: int| 0 <= j < d.len() implies #[trigger] d[j] != '\n' && !crate::text::is_space(
        d[j],
    ) by {
        assert(crate::text::is_digit(d[j]));
    }
    let text = resolution_text_spec(now, sha);
    lemma_line_end_of(d, sha.push('\n'), 0);
    assert(text.subrange(0, d.len() as int) =~= d);
    assert(text.subrange(d.len() as int + 1, text.len() as int) =~= sha.push('\n'));
    assert(!crate::text::is_space(d.last()));
    assert(crate::text::first_line(text) == Some(d));
    lemma_trim_of_word(d);
    assert(crate::text::unsigned_digits(d) == d);
    assert(crate::text::after_first_line(text) == sha.push('\n'));
    assert forall|j: int| 0 <= j < sha.len() implies #[trigger] sha[j] != '\n' by {
        assert(!crate::text::is_space(sha[j]));
    }
    lemma_line_end_of(sha, Seq::empty(), 0);
    assert(sha.push('\n') + Seq::<char>::empty() =~= sha.push('\n'));
    assert(sha.push('\n').subrange(0, sha.len() as int) =~= sha);
    assert(!crate::text::is_space(sha.last()));
    assert(crate::text::first_line(sha.push('\n')) == Some(sha));
    lemma_trim_of_word(sha);
}

/// The recorded revision, when it was recorded no more than the branch window
/// ago. A clock behind the record counts as no time at all.
pub fn fresh_resolution(recorded: &Option<(u64, String)>, now: u64) -> (r: Option<String>)
    ensures
        match recorded {
            Some((ts, sha)) => if now.saturating_sub(*ts) <= BRANCH_TTL_SECS {
                r matches Some(s) && s@ == sha@
            } else {
                r is None
            },
            None => r is None,
        },
{
    match recorded {
        Some((ts, sha)) => {
            if now.saturating_sub(*ts) <= BRANCH_TTL_SECS {
                Some(sha.clone())
            } else {
                None
            }
        },
        None => None,
    }
}

/// The full ref a branch is asked for by, so a tag of the same name cannot
/// answer.
pub fn refspec(branch: &str) -> (r: String)
    ensures
        r@ == "refs/heads/"@ + branch@,
{
    cat("refs/heads/", branch)
}

/// What `git ls-remote <url> refs/heads/<branch>` answered, read: the first
/// word of its first line when that is seven bytes or more, or a message
/// naming what was asked.
pub open spec fn ls_remote_spec(
    url: Seq<char>,
    branch: Seq<char>,
    succeeded: bool,
    stdout: Seq<char>,
    stderr: Seq<char>,
) -> Result<Seq<char>, Seq<char>> {
    if !succeeded {
        Err("git ls-remote "@ + url + " "@ + ("refs/heads/"@ + branch) + " failed: "@ + trim(stderr))
    } else if utf8_len(first_word(stdout)) < 7 {
        Err("branch '"@ + branch + "' not found on "@ + url + " (ls-remote returned no rev)"@)
    } else {
        Ok(first_word(stdout))
    }
}

/// Read what `git ls-remote` answered. See [`ls_remote_spec`].
pub fn ls_remote_answer(url: &str, branch: &str, succeeded: bool, stdout: &str, stderr: &str) -> (r:
    Result<String, String>)
    ensures
        match r {
            Ok(s) => ls_remote_spec(url@, branch@, succeeded, stdout@, stderr@) == Ok::<
                Seq<char>,
                Seq<char>,
            >(s@),
            Err(e) => ls_remote_spec(url@, branch@, succeeded, stdout@, stderr@) == Err::<
                Seq<char>,
                Seq<char>,
            >(e@),
        },
{
    let spec = refspec(branch);
    if !succeeded {
        let mut m = owned("git ls-remote ");
        m.append(url);
        m.append(" ");
        m.append(spec.as_str());
        m.append(" failed: ");
        let t = string_of(&trim_chars(&chars_of(stderr)));
        m.append(t.as_str());
        return Err(m);
    }
    let sha = first_word_of(stdout);
    if utf8_len_capped(sha.as_str(), 7) < 7 {
        let mut m = owned("branch '");
        m.append(branch);
        m.append("' not found on ");
        m.append(url);
        m.append(" (ls-remote returned no rev)");
        return Err(m);
    }
    Ok(sha)
}

/// The revision a branch runs from once the remote has been asked: its answer
/// when it gave one; otherwise the last recorded revision whatever its age,
/// since that is very probably still built; otherwise the remote's failure.
pub fn branch_outcome(remote: Result<String, String>, recorded: Option<(u64, String)>) -> (r:
    Result<String, String>)
    ensures
        match remote {
            Ok(sha) => r matches Ok(s) && s@ == sha@,
            Err(e) => match recorded {
                Some((_, sha)) => r matches Ok(s) && s@ == sha@,
                None => r matches Err(m) && m@ == e@,
            },
        },
{
    match remote {
        Ok(sha) => Ok(sha),
        Err(e) => match recorded {
            Some((_, sha)) => Ok(sha),
            None => Err(e),
        },
    }
}

} // verus!
