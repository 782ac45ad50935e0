//! Keeping the launcher itself current.
//!
//! When the launcher was installed from a git branch, that branch keeps
//! moving. At most once an hour it checks whether its branch has a newer head
//! and, if so, reinstalls itself. Best-effort throughout, opt-out with the
//! tool's `<SHORT>_NO_SELF_UPDATE`, and only for a git-branch install under
//! the cargo home. The asking and installing are the caller's; reading cargo's
//! install ledger, and every decision, are here.

use vstd::prelude::*;

use crate::engine::views;
use crate::text::{
    has_prefix, owned, parse_u64, parse_u64_spec, starts_with, strip_prefix, strip_prefix_spec, trim,
};
use crate::toml_doc::{
    doc_view, find, items_view, lemma_entries_view, lemma_items_view, lookup, parse_toml,
    toml_document, DocView, TomlValue, ValueView,
};
use crate::tool::{SelfUpdate, Tool};

verus! {

/// The launcher's branch is re-checked at most this often, in seconds.
pub const SELF_UPDATE_TTL_SECS: u64 = 3600;

/// The git-branch source a `cargo install` recorded for the launcher.
#[derive(Debug, Clone, PartialEq, Eq)]
pub struct InstalledSource {
    /// The repository.
    pub url: String,
    /// The branch it was installed from.
    pub branch: String,
    /// The revision that branch was at.
    pub rev: String,
}

/// The index of the first `c` in `s`, or its length.
pub open spec fn first_index(s: Seq<char>, c: char) -> int
    decreases s.len(),
{
    if s.len() == 0 {
        0
    } else if s[0] == c {
        0
    } else {
        1 + first_index(s.subrange(1, s.len() as int), c)
    }
}

/// The index of the last `c` in `s`, or `-1`.
pub open spec fn last_index(s: Seq<char>, c: char) -> int
    decreases s.len(),
{
    if s.len() == 0 {
        -1
    } else if s.last() == c {
        s.len() - 1
    } else {
        last_index(s.drop_last(), c)
    }
}

pub proof fn lemma_first_index(s: Seq<char>, c: char)
    ensures
        0 <= first_index(s, c) <= s.len(),
        first_index(s, c) < s.len() ==> s[first_index(s, c)] == c,
        forall|j: int| 0 <= j < first_index(s, c) ==> s[j] != c,
    decreases s.len(),
{
    if s.len() > 0 && s[0] != c {
        let t = s.subrange(1, s.len() as int);
        lemma_first_index(t, c);
        assert forall|j: int| 0 <= j < first_index(s, c) implies s[j] != c by {
            if j > 0 {
                assert(s[j] == t[j - 1]);
            }
        }
    }
}

proof fn lemma_first_index_is(s: Seq<char>, c: char, i: int)
    requires
        0 <= i <= s.len(),
        forall|j: int| 0 <= j < i ==> s[j] != c,
        i == s.len() || s[i] == c,
    ensures
        first_index(s, c) == i,
    decreases i,
{
    if i > 0 {
        let t = s.subrange(1, s.len() as int);
        assert forall|j: int| 0 <= j < i - 1 implies t[j] != c by {
            assert(t[j] == s[j + 1]);
        }
        lemma_first_index_is(t, c, i - 1);
    }
}

proof fn lemma_last_index_is(s: Seq<char>, c: char, i: int)
    requires
        -1 <= i < s.len(),
        forall|j: int| i < j < s.len() ==> s[j] != c,
        i == -1 || s[i] == c,
    ensures
        last_index(s, c) == i,
    decreases s.len(),
{
    if s.len() > 0 && i < s.len() - 1 {
        let t = s.drop_last();
        assert forall|j: int| i < j < t.len() implies t[j] != c by {
            assert(t[j] == s[j]);
        }
        lemma_last_index_is(t, c, i);
    }
}

/// The value of the first `&`-separated field of a query that starts with
/// `branch=`.
pub open spec fn branch_in(q: Seq<char>) -> Option<Seq<char>>
    decreases q.len(),
{
    let e = first_index(q, '&');
    proof {
        lemma_first_index(q, '&');
    }
    let seg = q.subrange(0, e);
    if has_prefix(seg, "branch="@) {
        Some(seg.subrange(7, seg.len() as int))
    } else if e < q.len() {
        branch_in(q.subrange(e + 1, q.len() as int))
    } else {
        None
    }
}

/// A cargo git source spec, `git+<url>?<query>#<rev>`, read: the url before
/// the first `?`, the branch from the query, and the revision after the last
/// `#`; only for a branch install, with a branch and a revision both named.
pub open spec fn branch_spec_of(spec: Seq<char>) -> Option<(Seq<char>, Seq<char>, Seq<char>)> {
    match strip_prefix_spec(spec, "git+"@) {
        None => None,
        Some(git) => {
            let h = last_index(git, '#');
            if h < 0 {
                None
            } else {
                let loc = git.subrange(0, h);
                let rev = git.subrange(h + 1, git.len() as int);
                let q = first_index(loc, '?');
                if q >= loc.len() {
                    None
                } else {
                    let url = loc.subrange(0, q);
                    match branch_in(loc.subrange(q + 1, loc.len() as int)) {
                        None => None,
                        Some(branch) => if branch.len() == 0 || rev.len() == 0 {
                            None
                        } else {
                            Some((url, branch, rev))
                        },
                    }
                }
            }
        },
    }
}

/// The view of an installed source: url, branch, revision.
pub open spec fn source_view(s: InstalledSource) -> (Seq<char>, Seq<char>, Seq<char>) {
    (s.url@, s.branch@, s.rev@)
}

/// Parse a cargo git source spec. See [`branch_spec_of`].
pub fn parse_git_branch_spec(spec: &str) -> (r: Option<InstalledSource>)
    ensures
        match r {
            Some(s) => branch_spec_of(spec@) == Some(source_view(s)),
            None => branch_spec_of(spec@) is None,
        },
{
    proof {
        reveal_strlit("git+");
        reveal_strlit("branch=");
    }
    let git = match strip_prefix(spec, "git+") {
        Some(g) => g,
        None => return None,
    };
    let x = crate::text::chars_of(git.as_str());
    let mut h: usize = x.len();
    while h > 0 && x[h - 1] != '#'
        invariant
            x@ == git@,
            h <= x@.len(),
            forall|j: int| h <= j < x@.len() ==> x@[j] != '#',
        decreases h,
    {
        h = h - 1;
    }
    if h == 0 {
        proof {
            lemma_last_index_is(git@, '#', -1);
        }
        return None;
    }
    proof {
        lemma_last_index_is(git@, '#', h - 1);
    }
    let hh = h - 1;
    let ghost loc = git@.subrange(0, hh as int);
    let mut q: usize = 0;
    while q < hh && x[q] != '?'
        invariant
            x@ == git@,
            hh < x@.len(),
            q <= hh,
            loc == git@.subrange(0, hh as int),
            forall|j: int| 0 <= j < q ==> loc[j] != '?',
        decreases hh - q,
    {
        q = q + 1;
    }
    proof {
        lemma_first_index_is(loc, '?', q as int);
    }
    if q >= hh {
        return None;
    }
    let url = crate::text::string_of_range(&x, 0, q);
    let rev = crate::text::string_of_range(&x, hh + 1, x.len());
    let query = crate::text::string_of_range(&x, q + 1, hh);
    assert(query@ =~= loc.subrange(q + 1, loc.len() as int));
    assert(url@ =~= loc.subrange(0, q as int));
    let branch = match branch_of_query(query.as_str()) {
        Some(b) => b,
        None => return None,
    };
    if branch.unicode_len() == 0 || rev.unicode_len() == 0 {
        return None;
    }
    Some(InstalledSource { url, branch, rev })
}

/// The branch a query names. See [`branch_in`].
fn branch_of_query(query: &str) -> (r: Option<String>)
    ensures
        crate::toml_doc::opt_view(r) == branch_in(query@),
{
    proof {
        reveal_strlit("branch=");
    }
    let x = crate::text::chars_of(query);
    let mut start: usize = 0;
    assert(query@.subrange(0, query@.len() as int) =~= query@);
    while start <= x.len()
        invariant
            x@ == query@,
            start <= x@.len() + 1,
            start <= x@.len() ==> branch_in(query@) == branch_in(query@.subrange(start as int, query@.len() as int)),
            start > x@.len() ==> branch_in(query@) is None,
        decreases x.len() + 1 - start,
    {
        proof {
            reveal_strlit("branch=");
        }
        let ghost rest = query@.subrange(start as int, query@.len() as int);
        let mut e: usize = start;
        while e < x.len() && x[e] != '&'
            invariant
                x@ == query@,
                start <= e <= x@.len(),
                forall|j: int| start <= j < e ==> x@[j] != '&',
            decreases x.len() - e,
        {
            e = e + 1;
        }
        proof {
            assert forall|j: int| 0 <= j < e - start implies rest[j] != '&' by {
                assert(rest[j] == x@[start + j]);
            }
            lemma_first_index_is(rest, '&', e - start);
        }
        let seg = crate::text::string_of_range(&x, start, e);
        assert(seg@ =~= rest.subrange(0, e - start));
        if let Some(b) = strip_prefix(seg.as_str(), "branch=") {
            return Some(b);
        }
        if e >= x.len() {
            return None;
        }
        proof {
            assert(rest.subrange(e - start + 1, rest.len() as int) =~= query@.subrange(e + 1, query@.len() as int));
        }
        start = e + 1;
    }
    None
}

/// Every key of a table of arrays of strings, when every value is one: what
/// deserialising it as a map from strings to lists of strings keeps.
pub open spec fn string_list_keys(t: DocView) -> Option<Seq<Seq<char>>>
    decreases t.len(),
{
    if t.len() == 0 {
        Some(Seq::empty())
    } else {
        match string_list_keys(t.drop_last()) {
            None => None,
            Some(keys) => match t.last().1 {
                ValueView::Array(items) => if crate::extension::all_strings(items) is Some {
                    Some(keys.push(t.last().0))
                } else {
                    None
                },
                _ => None,
            },
        }
    }
}

/// The first key beginning with `prefix`.
pub open spec fn first_with_prefix(keys: Seq<Seq<char>>, prefix: Seq<char>) -> Option<Seq<char>>
    decreases keys.len(),
{
    if keys.len() == 0 {
        None
    } else if has_prefix(keys[0], prefix) {
        Some(keys[0])
    } else {
        first_with_prefix(keys.subrange(1, keys.len() as int), prefix)
    }
}

/// What follows the first `(` of a ledger entry, without a closing `)`.
pub open spec fn parenthesised(spec: Seq<char>) -> Option<Seq<char>> {
    let o = first_index(spec, '(');
    if o >= spec.len() {
        None
    } else {
        let inner = spec.subrange(o + 1, spec.len() as int);
        if inner.len() > 0 && inner.last() == ')' {
            Some(inner.drop_last())
        } else {
            Some(inner)
        }
    }
}

/// The launcher's own entry in cargo's `.crates.toml`, read: the `v1` table's
/// first key naming the launcher (`<launcher> <version> (<source>)`), and its
/// source when that is a git-branch install. Nothing for a ledger that does
/// not parse, or whose `v1` is not a table of lists of strings.
pub open spec fn installed_source_spec(launcher: Seq<char>, text: Seq<char>) -> Option<(Seq<char>, Seq<char>, Seq<char>)> {
    match toml_document(text) {
        Err(_) => None,
        Ok(doc) => {
            let keys = match lookup(doc, "v1"@) {
                None => Some(Seq::empty()),
                Some(ValueView::Table(t)) => string_list_keys(t),
                Some(_) => None,
            };
            match keys {
                None => None,
                Some(ks) => match first_with_prefix(ks, launcher.push(' ')) {
                    None => None,
                    Some(k) => match parenthesised(k) {
                        None => None,
                        Some(inner) => branch_spec_of(inner),
                    },
                },
            }
        },
    }
}

/// Read the launcher's install source out of cargo's `.crates.toml`. See
/// [`installed_source_spec`].
pub fn installed_source_from(launcher: &str, crates_toml: &str) -> (r: Option<InstalledSource>)
    ensures
        match r {
            Some(s) => installed_source_spec(launcher@, crates_toml@) == Some(source_view(s)),
            None => installed_source_spec(launcher@, crates_toml@) is None,
        },
{
    let doc = match parse_toml(crates_toml) {
        Ok(d) => d,
        Err(_) => return None,
    };
    proof {
        reveal_strlit("v1");
    }
    let entries: &Vec<(String, TomlValue)> = match find(&doc, "v1") {
        None => return None,
        Some(TomlValue::Table(t)) => t,
        Some(_) => return None,
    };
    let ghost d = doc_view(entries@);
    proof {
        lemma_entries_view(entries@);
    }
    let mut prefix = owned(launcher);
    crate::text::push_char(&mut prefix, ' ');
    let mut keys: Vec<String> = Vec::new();
    let mut i: usize = 0;
    assert(d.subrange(0, 0) =~= Seq::<(Seq<char>, ValueView)>::empty());
    assert(views(keys@) =~= Seq::<Seq<char>>::empty());
    while i < entries.len()
        invariant
            i <= entries@.len(),
            d == doc_view(entries@),
            d.len() == entries@.len(),
            forall|j: int| 0 <= j < entries@.len() ==> #[trigger] d[j] == (entries@[j].0@, entries@[j].1@),
            string_list_keys(d.subrange(0, i as int)) == Some(views(keys@)),
            toml_document(crates_toml@) == Ok::<DocView, Seq<char>>(doc_view(doc@)),
            lookup(doc_view(doc@), "v1"@) == Some(ValueView::Table(d)),
            prefix@ == launcher@.push(' '),
        decreases entries.len() - i,
    {
        proof {
            let sub = d.subrange(0, i + 1);
            assert(sub.drop_last() =~= d.subrange(0, i as int));
            assert(sub.last() == d[i as int]);
        }
        let ok = match &entries[i].1 {
            TomlValue::Array(items) => {
                let strs = crate::extension::all_strings_exec(items);
                strs.is_some()
            },
            _ => false,
        };
        if !ok {
            proof {
                lemma_string_list_keys_none(d, i as int);
            }
            return None;
        }
        let ghost before = keys@;
        keys.push(entries[i].0.clone());
        proof {
            assert(views(keys@) =~= views(before).push(d[i as int].0));
        }
        i = i + 1;
    }
    assert(d.subrange(0, d.len() as int) =~= d);
    let ghost ks = views(keys@);
    assert(ks.subrange(0, ks.len() as int) =~= ks);
    let mut k: usize = 0;
    while k < keys.len()
        invariant
            k <= keys@.len(),
            ks == views(keys@),
            prefix@ == launcher@.push(' '),
            toml_document(crates_toml@) == Ok::<DocView, Seq<char>>(doc_view(doc@)),
            lookup(doc_view(doc@), "v1"@) == Some(ValueView::Table(d)),
            string_list_keys(d) == Some(ks),
            first_with_prefix(ks, prefix@) == first_with_prefix(ks.subrange(k as int, ks.len() as int), prefix@),
        decreases keys.len() - k,
    {
        let ghost tail = ks.subrange(k as int, ks.len() as int);
        assert(tail[0] == ks[k as int]);
        assert(tail.subrange(1, tail.len() as int) =~= ks.subrange(k + 1, ks.len() as int));
        if starts_with(keys[k].as_str(), prefix.as_str()) {
            return match inner_of(keys[k].as_str()) {
                None => None,
                Some(inner) => parse_git_branch_spec(inner.as_str()),
            };
        }
        k = k + 1;
    }
    None
}

proof fn lemma_string_list_keys_none(d: DocView, i: int)
    requires
        0 <= i < d.len(),
        !(d[i].1 matches ValueView::Array(items) && crate::extension::all_strings(items) is Some),
    ensures
        string_list_keys(d) is None,
    decreases d.len(),
{
    if i < d.len() - 1 {
        lemma_string_list_keys_none(d.drop_last(), i);
    }
}

/// What follows the first `(`, without a closing `)`. See [`parenthesised`].
fn inner_of(spec: &str) -> (r: Option<String>)
    ensures
        crate::toml_doc::opt_view(r) == parenthesised(spec@),
{
    let x = crate::text::chars_of(spec);
    let mut o: usize = 0;
    while o < x.len() && x[o] != '('
        invariant
            x@ == spec@,
            o <= x@.len(),
            forall|j: int| 0 <= j < o ==> x@[j] != '(',
        decreases x.len() - o,
    {
        o = o + 1;
    }
    proof {
        lemma_first_index_is(spec@, '(', o as int);
    }
    if o >= x.len() {
        return None;
    }
    let n = x.len();
    if n > o + 1 && x[n - 1] == ')' {
        let s = crate::text::string_of_range(&x, o + 1, n - 1);
        assert(s@ =~= spec@.subrange(o + 1, spec@.len() as int).drop_last());
        Some(s)
    } else {
        Some(crate::text::string_of_range(&x, o + 1, n))
    }
}

/// Whether a marker's text says the branch was checked within the hour: its
/// trimmed text is a time no more than the window before `now` (a clock
/// behind it counts as no time at all). A marker that is missing or does not
/// read as a time says no.
pub open spec fn recently_checked_spec(marker: Option<Seq<char>>, now: u64) -> bool {
    match marker {
        None => false,
        Some(t) => match parse_u64_spec(trim(t)) {
            None => false,
            Some(ts) => (if now >= ts { now - ts } else { 0 }) < SELF_UPDATE_TTL_SECS,
        },
    }
}

/// Whether the launcher checked its branch within the window. See
/// [`recently_checked_spec`].
pub fn recently_checked(marker: Option<&str>, now: u64) -> (r: bool)
    ensures
        r == recently_checked_spec(
            match marker {
                Some(t) => Some(t@),
                None => None,
            },
            now,
        ),
{
    match marker {
        None => false,
        Some(t) => {
            let tc = crate::text::trim_chars(&crate::text::chars_of(t));
            let ts = crate::text::string_of(&tc);
            match parse_u64(ts.as_str()) {
                None => false,
                Some(ts) => now.saturating_sub(ts) < SELF_UPDATE_TTL_SECS,
            }
        },
    }
}

/// Whether a self-update check may run at all: the tool wants the branch
/// chased, the user has not opted out, and the running binary is an install.
pub fn may_check(tool: &Tool, opted_out: bool, installed: bool) -> (r: bool)
    ensures
        r == (tool.self_update == SelfUpdate::ChaseTheBranch && !opted_out && installed),
{
    matches!(tool.self_update, SelfUpdate::ChaseTheBranch) && !opted_out && installed
}

/// The arguments of the reinstall: `cargo install` from the same repository
/// and branch, forced over the current install.
pub fn reinstall_args(tool: &Tool, url: &str, branch: &str) -> (r: Vec<String>)
    ensures
        views(r@) == seq!["install"@, "--git"@, url@, "--branch"@, branch@, tool.launcher_crate@, "--force"@],
{
    let mut v: Vec<String> = Vec::new();
    v.push(owned("install"));
    v.push(owned("--git"));
    v.push(owned(url));
    v.push(owned("--branch"));
    v.push(owned(branch));
    v.push(owned(tool.launcher_crate));
    v.push(owned("--force"));
    assert(views(v@) =~= seq!["install"@, "--git"@, url@, "--branch"@, branch@, tool.launcher_crate@, "--force"@]);
    v
}

/// Whether the launcher is behind its branch: the branch's head is not the
/// revision it was installed from.
pub fn update_needed(installed: &InstalledSource, head: &str) -> (r: bool)
    ensures
        r == (head@ != installed.rev@),
{
    !crate::text::same(head, installed.rev.as_str())
}

} // verus!
