//! Locating the repo, the config, and the working directory.
//!
//! The walking and the looking are the caller's, since each step asks the disk
//! something. What is decided is here: the order the subdirectories are
//! scanned in, what more than one config in scope means, and what the operator
//! is told when there is no root at all.

use vstd::prelude::*;

use crate::engine::views;
use crate::manifest::str_views;
use crate::text::owned;
use crate::toml_doc::opt_view;
use crate::tool::{unicode_upper, Anchor, Tool};

verus! {

/// Whether `a` sorts no later than `b`, character by character, a prefix
/// first: the order `str`'s comparison gives, since UTF-8 orders as the code
/// points it encodes.
pub open spec fn lex_le(a: Seq<char>, b: Seq<char>) -> bool
    decreases a.len(),
{
    if a.len() == 0 {
        true
    } else if b.len() == 0 {
        false
    } else if a[0] < b[0] {
        true
    } else if a[0] > b[0] {
        false
    } else {
        lex_le(a.subrange(1, a.len() as int), b.subrange(1, b.len() as int))
    }
}

/// Whether a list of names is in [`lex_le`] order.
pub open spec fn sorted_lex(s: Seq<Seq<char>>) -> bool {
    forall|i: int, j: int| 0 <= i < j < s.len() ==> lex_le(#[trigger] s[i], #[trigger] s[j])
}

proof fn lemma_lex_total(a: Seq<char>, b: Seq<char>)
    ensures
        lex_le(a, b) || lex_le(b, a),
    decreases a.len(),
{
    if a.len() > 0 && b.len() > 0 && a[0] == b[0] {
        lemma_lex_total(a.subrange(1, a.len() as int), b.subrange(1, b.len() as int));
    }
}

proof fn lemma_lex_trans(a: Seq<char>, b: Seq<char>, c: Seq<char>)
    requires
        lex_le(a, b),
        lex_le(b, c),
    ensures
        lex_le(a, c),
    decreases a.len(),
{
    if a.len() > 0 && b.len() > 0 && c.len() > 0 && a[0] == b[0] && b[0] == c[0] {
        lemma_lex_trans(
            a.subrange(1, a.len() as int),
            b.subrange(1, b.len() as int),
            c.subrange(1, c.len() as int),
        );
    }
}

/// `s` in [`lex_le`] order, by insertion.
fn sort_names(s: Vec<String>) -> (r: Vec<String>)
    ensures
        sorted_lex(views(r@)),
        views(r@).to_multiset() == views(s@).to_multiset(),
{
    let mut out: Vec<String> = Vec::new();
    let mut i: usize = 0;
    assert(views(s@).subrange(0, 0) =~= Seq::<Seq<char>>::empty());
    assert(views(out@) =~= Seq::<Seq<char>>::empty());
    while i < s.len()
        invariant
            i <= s@.len(),
            sorted_lex(views(out@)),
            views(out@).to_multiset() == views(s@).subrange(0, i as int).to_multiset(),
        decreases s.len() - i,
    {
        let x = s[i].clone();
        let mut p: usize = 0;
        while p < out.len() && lex_le_exec(out[p].as_str(), x.as_str())
            invariant
                p <= out@.len(),
                forall|j: int| 0 <= j < p ==> lex_le(#[trigger] views(out@)[j], x@),
            decreases out.len() - p,
        {
            p = p + 1;
        }
        let ghost before = views(out@);
        proof {
            if p < out@.len() {
                lemma_lex_total(before[p as int], x@);
                assert forall|j: int| p <= j < before.len() implies lex_le(x@, #[trigger] before[j]) by {
                    if j > p {
                        assert(lex_le(before[p as int], before[j]));
                        lemma_lex_trans(x@, before[p as int], before[j]);
                    }
                }
            }
        }
        out.insert(p, x);
        proof {
            assert(views(out@) =~= before.insert(p as int, s@[i as int]@));
            let now = views(out@);
            assert forall|a: int, b: int| 0 <= a < b < now.len() implies lex_le(#[trigger] now[a], #[trigger] now[b]) by {
                if a < p && b < p {
                    assert(now[a] == before[a] && now[b] == before[b]);
                } else if a < p && b == p {
                } else if a < p && b > p {
                    assert(now[a] == before[a] && now[b] == before[b - 1]);
                    lemma_lex_trans(before[a], x@, before[b - 1]);
                } else if a == p {
                    assert(now[b] == before[b - 1]);
                } else {
                    assert(now[a] == before[a - 1] && now[b] == before[b - 1]);
                }
            }
            vstd::seq_lib::to_multiset_insert(before, p as int, s@[i as int]@);
            assert(views(s@).subrange(0, i + 1) =~= views(s@).subrange(0, i as int).push(s@[i as int]@));
            vstd::seq_lib::to_multiset_build(views(s@).subrange(0, i as int), s@[i as int]@);
        }
        i = i + 1;
    }
    assert(views(s@).subrange(0, s@.len() as int) =~= views(s@));
    out
}

/// Whether `a` sorts no later than `b`. See [`lex_le`].
pub fn lex_le_exec(a: &str, b: &str) -> (r: bool)
    ensures
        r == lex_le(a@, b@),
{
    let x = crate::text::chars_of(a);
    let y = crate::text::chars_of(b);
    let mut i: usize = 0;
    assert(a@.subrange(0, a@.len() as int) =~= a@);
    assert(b@.subrange(0, b@.len() as int) =~= b@);
    while i < x.len() && i < y.len() && x[i] == y[i]
        invariant
            x@ == a@,
            y@ == b@,
            i <= x@.len(),
            i <= y@.len(),
            lex_le(a@, b@) == lex_le(a@.subrange(i as int, a@.len() as int), b@.subrange(i as int, b@.len() as int)),
        decreases x.len() - i,
    {
        proof {
            let sa = a@.subrange(i as int, a@.len() as int);
            let sb = b@.subrange(i as int, b@.len() as int);
            assert(sa.subrange(1, sa.len() as int) =~= a@.subrange(i + 1, a@.len() as int));
            assert(sb.subrange(1, sb.len() as int) =~= b@.subrange(i + 1, b@.len() as int));
        }
        i = i + 1;
    }
    if i == x.len() {
        return true;
    }
    if i == y.len() {
        return false;
    }
    x[i] < y[i]
}

/// Whether a directory name is hidden: it starts with a `.`.
pub open spec fn hidden(n: Seq<char>) -> bool {
    n.len() > 0 && n[0] == '.'
}

/// The names a scan keeps, in their given order: those not skipped, and of
/// those the hidden ones or the plain ones.
pub open spec fn kept_names(names: Seq<Seq<char>>, skip: Seq<Seq<char>>, want_hidden: bool) -> Seq<Seq<char>>
    decreases names.len(),
{
    if names.len() == 0 {
        Seq::empty()
    } else {
        let rest = kept_names(names.drop_last(), skip, want_hidden);
        let n = names.last();
        if !skip.contains(n) && hidden(n) == want_hidden {
            rest.push(n)
        } else {
            rest
        }
    }
}

/// The order the immediate subdirectories of a repo root are scanned for a
/// config in: the hidden ones first, then the rest, each group sorted, with
/// the names in `skip` left out. Returns the hidden group and the plain group,
/// which the scan takes in that order.
pub fn scan_order(names: Vec<String>, skip: &[&str]) -> (r: (Vec<String>, Vec<String>))
    ensures
        sorted_lex(views(r.0@)),
        sorted_lex(views(r.1@)),
        views(r.0@).to_multiset() == kept_names(views(names@), str_views(skip@), true).to_multiset(),
        views(r.1@).to_multiset() == kept_names(views(names@), str_views(skip@), false).to_multiset(),
{
    let ghost sk = str_views(skip@);
    let mut hid: Vec<String> = Vec::new();
    let mut plain: Vec<String> = Vec::new();
    let mut i: usize = 0;
    assert(views(names@).subrange(0, 0) =~= Seq::<Seq<char>>::empty());
    assert(views(hid@) =~= Seq::<Seq<char>>::empty());
    assert(views(plain@) =~= Seq::<Seq<char>>::empty());
    while i < names.len()
        invariant
            i <= names@.len(),
            sk == str_views(skip@),
            views(hid@) == kept_names(views(names@).subrange(0, i as int), sk, true),
            views(plain@) == kept_names(views(names@).subrange(0, i as int), sk, false),
        decreases names.len() - i,
    {
        let n = names[i].as_str();
        let mut skipped = false;
        let mut j: usize = 0;
        while j < skip.len()
            invariant
                j <= skip@.len(),
                sk == str_views(skip@),
                skipped == (exists|m: int| 0 <= m < j && sk[m] == n@),
            decreases skip.len() - j,
        {
            let hit = crate::text::same(n, skip[j]);
            proof {
                assert(sk[j as int] == skip@[j as int]@);
                if hit {
                    assert(sk[j as int] == n@);
                }
            }
            if hit {
                skipped = true;
            }
            j = j + 1;
        }
        proof {
            if skipped {
                let m = choose|m: int| 0 <= m < skip@.len() && sk[m] == n@;
                assert(sk.contains(n@));
            } else {
                assert(!sk.contains(n@)) by {
                    if sk.contains(n@) {
                        let m = choose|m: int| 0 <= m < sk.len() && sk[m] == n@;
                        assert(0 <= m < skip@.len());
                    }
                }
            }
            let sub = views(names@).subrange(0, i + 1);
            assert(sub.drop_last() =~= views(names@).subrange(0, i as int));
            assert(sub.last() == n@);
        }
        let x = crate::text::chars_of(n);
        let is_hidden = x.len() > 0 && x[0] == '.';
        if !skipped {
            let ghost hb = hid@;
            let ghost pb = plain@;
            if is_hidden {
                hid.push(owned(n));
                proof {
                    assert(views(hid@) =~= views(hb).push(n@));
                }
            } else {
                plain.push(owned(n));
                proof {
                    assert(views(plain@) =~= views(pb).push(n@));
                }
            }
        }
        i = i + 1;
    }
    assert(views(names@).subrange(0, names@.len() as int) =~= views(names@));
    (sort_names(hid), sort_names(plain))
}

/// The refusal when more than one config is in scope, listing each.
pub open spec fn too_many_message(config_file: Seq<char>, found: Seq<Seq<char>>) -> Seq<char> {
    "found more than one "@ + config_file
        + " in this repo; a repo must have exactly one (at the repo root, or in a single subdir). Remove the extras, keep one:\n"@
        + listed(found)
}

/// Each path on a line of its own, indented by two, the lines joined.
pub open spec fn listed(found: Seq<Seq<char>>) -> Seq<char>
    decreases found.len(),
{
    if found.len() == 0 {
        Seq::empty()
    } else if found.len() == 1 {
        "  "@ + found[0]
    } else {
        listed(found.drop_last()) + "\n  "@ + found.last()
    }
}

/// Which of the configs found in scope is the repo's: none when none was
/// found, the one when one was, and a refusal naming every one of them when
/// more than one was, since there is no precedence to pick by.
pub fn choose_config(config_file: &str, found: &[String]) -> (r: Result<Option<usize>, String>)
    ensures
        found@.len() == 0 ==> r == Ok::<Option<usize>, String>(None),
        found@.len() == 1 ==> r == Ok::<Option<usize>, String>(Some(0)),
        found@.len() > 1 ==> (r matches Err(m) && m@ == too_many_message(config_file@, views(found@))),
{
    if found.len() == 0 {
        return Ok(None);
    }
    if found.len() == 1 {
        return Ok(Some(0));
    }
    let ghost fs = views(found@);
    let mut list = String::new();
    let mut i: usize = 0;
    while i < found.len()
        invariant
            i <= found@.len(),
            fs == views(found@),
            list@ == listed(fs.subrange(0, i as int)),
        decreases found.len() - i,
    {
        proof {
            let sub = fs.subrange(0, i + 1);
            assert(sub.drop_last() =~= fs.subrange(0, i as int));
            assert(sub.last() == found@[i as int]@);
        }
        if i == 0 {
            list.append("  ");
        } else {
            list.append("\n  ");
        }
        list.append(found[i].as_str());
        proof {
            if i == 0 {
                assert(list@ =~= "  "@ + found@[0]@);
            }
        }
        i = i + 1;
    }
    assert(fs.subrange(0, fs.len() as int) =~= fs);
    let mut m = owned("found more than one ");
    m.append(config_file);
    m.append(
        " in this repo; a repo must have exactly one (at the repo root, or in a single subdir). Remove the extras, keep one:\n",
    );
    m.append(list.as_str());
    Err(m)
}

/// What the root walk looked for: the marker, or the config itself.
pub open spec fn looked_for(t: Tool) -> Seq<char> {
    match t.anchor {
        Anchor::Marker(m) => m@,
        Anchor::ConfigFile => t.config_file@,
    }
}

/// Why the root walk found nothing, as a message an operator can act on: what
/// it looked for, and whether the tool's root variable was set (to something
/// that is not a directory, and so ignored) or unset.
pub open spec fn no_root_message(t: Tool, from_env: Option<Seq<char>>) -> Seq<char> {
    let env = unicode_upper(t.short@) + "_ROOT"@;
    match from_env {
        Some(v) => "no "@ + looked_for(t) + " found in this directory or any above it. "@ + env
            + " is set to "@ + v + ", which is not a directory, so it was ignored"@,
        None => "no "@ + looked_for(t) + " found in this directory or any above it, and "@ + env
            + " is unset"@,
    }
}

/// Why the root walk found nothing. See [`no_root_message`].
pub fn no_root_with(tool: &Tool, from_env: Option<String>) -> (r: String)
    ensures
        r@ == no_root_message(*tool, crate::toml_doc::opt_view(from_env)),
{
    let what = match tool.anchor {
        Anchor::Marker(m) => m,
        Anchor::ConfigFile => tool.config_file,
    };
    let env = tool.root_env();
    let mut m = owned("no ");
    m.append(what);
    match from_env {
        Some(v) => {
            m.append(" found in this directory or any above it. ");
            m.append(env.as_str());
            m.append(" is set to ");
            m.append(v.as_str());
            m.append(", which is not a directory, so it was ignored");
        },
        None => {
            m.append(" found in this directory or any above it, and ");
            m.append(env.as_str());
            m.append(" is unset");
        },
    }
    m
}

/// What the root walk looks for in each directory: the marker, which may be a
/// file or a directory, or the config itself, which must be a file.
pub fn anchor_of(tool: &Tool) -> (r: (&'static str, bool))
    ensures
        r.0@ == looked_for(*tool),
        r.1 == (tool.anchor == Anchor::ConfigFile),
{
    match tool.anchor {
        Anchor::Marker(m) => (m, false),
        Anchor::ConfigFile => (tool.config_file, true),
    }
}

/// The directory the root walk moves to next: `p` without its last
/// component, the root `/` after a top-level directory, and nothing above the
/// root or for a path with no separator. `p` is a working directory as the
/// system gives it, absolute and with no trailing separator.
pub open spec fn parent_spec(p: Seq<char>) -> Option<Seq<char>> {
    let k = crate::path::last_slash(p);
    if k < 0 || p.len() <= 1 {
        None
    } else if k == 0 {
        Some(seq!['/'])
    } else {
        Some(p.subrange(0, k))
    }
}

/// The directory the root walk moves to next. See [`parent_spec`].
pub fn parent_of(p: &str) -> (r: Option<String>)
    ensures
        opt_view(r) == parent_spec(p@),
{
    let x = crate::text::chars_of(p);
    let n = x.len();
    let mut k = n;
    assert(x@.subrange(0, n as int) =~= x@);
    while k > 0 && x[k - 1] != '/'
        invariant
            k <= n,
            n == x@.len(),
            x@ == p@,
            crate::path::last_slash(p@) == crate::path::last_slash(x@.subrange(0, k as int)),
        decreases k,
    {
        proof {
            assert(x@.subrange(0, k as int).drop_last() =~= x@.subrange(0, k - 1));
        }
        k = k - 1;
    }
    proof {
        if k > 0 {
            assert(x@.subrange(0, k as int).last() == x@[k - 1]);
        } else {
            assert(x@.subrange(0, 0) =~= Seq::<char>::empty());
        }
    }
    if k == 0 || n <= 1 {
        None
    } else if k == 1 {
        let mut r = String::new();
        crate::text::push_char(&mut r, '/');
        assert(r@ =~= seq!['/']);
        Some(r)
    } else {
        Some(crate::text::string_of_range(&x, 0, k - 1))
    }
}

} // verus!
