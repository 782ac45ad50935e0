//! Unix paths as text.
//!
//! The launcher only ever builds paths by joining names onto a root and reads
//! them back by their last component, so those two operations, and the
//! trailing-`/.` collapse the working directory default produces, are all of
//! path handling it needs.

use vstd::prelude::*;

use crate::text::{cat, cat3, chars_of, has_prefix, has_suffix, string_of_range};

verus! {

/// Whether a path is absolute.
pub open spec fn is_absolute(p: Seq<char>) -> bool {
    p.len() > 0 && p[0] == '/'
}

/// `a` joined with `b`, as `Path::join` does on unix: an absolute `b`
/// replaces `a`, and otherwise exactly one separator stands between them.
pub open spec fn join_spec(a: Seq<char>, b: Seq<char>) -> Seq<char> {
    if is_absolute(b) || a.len() == 0 {
        b
    } else if a.last() == '/' {
        a + b
    } else {
        a + seq!['/'] + b
    }
}

/// The index the path component ending at `end` starts at.
pub open spec fn segment_start(p: Seq<char>, end: int) -> int
    decreases end,
{
    if end <= 0 {
        0
    } else if p[end - 1] == '/' {
        end
    } else {
        segment_start(p, end - 1)
    }
}

/// The last component of `p[..end]`, as `Path::file_name` reads it: trailing
/// separators and `.` components are skipped, and a last component of `..` or
/// none at all is no name.
pub open spec fn file_name_upto(p: Seq<char>, end: int) -> Option<Seq<char>>
    decreases end,
{
    if end <= 0 {
        None
    } else if p[end - 1] == '/' {
        file_name_upto(p, end - 1)
    } else {
        let s = segment_start(p, end);
        let seg = p.subrange(s, end);
        if seg == seq!['.'] {
            file_name_upto(p, end - 1)
        } else if seg == seq!['.', '.'] {
            None
        } else {
            Some(seg)
        }
    }
}

/// The last component of a path.
pub open spec fn file_name_spec(p: Seq<char>) -> Option<Seq<char>> {
    file_name_upto(p, p.len() as int)
}

/// The index of the last `/` in `p`, or `-1`.
pub open spec fn last_slash(p: Seq<char>) -> int
    decreases p.len(),
{
    if p.len() == 0 {
        -1
    } else if p.last() == '/' {
        p.len() - 1
    } else {
        last_slash(p.drop_last())
    }
}

proof fn lemma_last_slash_bounds(p: Seq<char>)
    ensures
        -1 <= last_slash(p) < p.len(),
    decreases p.len(),
{
    if p.len() > 0 && p.last() != '/' {
        lemma_last_slash_bounds(p.drop_last());
    }
}

/// The named components of `p`, in order: what lies between separators, with
/// empty and `.` components left out, as `Path::components` leaves them out
/// past the first.
pub open spec fn named_components(p: Seq<char>) -> Seq<Seq<char>>
    decreases p.len(),
{
    let k = last_slash(p);
    let seg = p.subrange(k + 1, p.len() as int);
    let rest = if k < 0 || k >= p.len() {
        Seq::empty()
    } else {
        named_components(p.subrange(0, k))
    };
    if seg.len() == 0 || seg == seq!['.'] {
        rest
    } else {
        rest.push(seg)
    }
}

/// What `Path::components` reads `p` as on unix, each component as text: the
/// root as `/` for an absolute path, a leading `.` as `.`, then the named
/// components.
pub open spec fn path_components(p: Seq<char>) -> Seq<Seq<char>> {
    let lead: Seq<Seq<char>> = if is_absolute(p) {
        seq![seq!['/']]
    } else if p == seq!['.'] || has_prefix(p, seq!['.', '/']) {
        seq![seq!['.']]
    } else {
        Seq::empty()
    };
    lead + named_components(p)
}

/// Collapsing a trailing `/.` leaves the path's components as they were.
pub proof fn lemma_collapse_keeps_components(p: Seq<char>)
    ensures
        path_components(collapse_dot_spec(p)) == path_components(p),
{
    if p == seq!['/', '.'] {
        let r = seq!['/'];
        assert(last_slash(r.drop_last()) == -1);
        assert(last_slash(r) == 0);
        assert(r.subrange(1, 1) =~= Seq::<char>::empty());
        assert(r.subrange(0, 0) =~= Seq::<char>::empty());
        assert(last_slash(Seq::<char>::empty()) == -1);
        assert(named_components(Seq::<char>::empty()) =~= Seq::<Seq<char>>::empty());
        assert(named_components(r) =~= Seq::<Seq<char>>::empty());
        assert(p.drop_last() =~= r);
        assert(last_slash(p) == 0);
        assert(p.subrange(1, 2) =~= seq!['.']);
        assert(p.subrange(0, 0) =~= Seq::<char>::empty());
        assert(named_components(p) =~= Seq::<Seq<char>>::empty());
    } else if has_suffix(p, seq!['/', '.']) {
        let n = p.len();
        let q = p.subrange(0, n - 2);
        assert(p[n - 1] == '.' && p[n - 2] == '/') by {
            assert(p.subrange(n - 2, n as int)[0] == p[n - 2]);
            assert(p.subrange(n - 2, n as int)[1] == p[n - 1]);
        }
        assert(p.drop_last().last() == '/');
        assert(p.last() != '/');
        assert(last_slash(p.drop_last()) == p.drop_last().len() - 1);
        assert(last_slash(p) == n - 2);
        assert(p.subrange(0, n - 2) == q);
        assert(p.subrange(n - 1, n as int) =~= seq!['.']);
        assert(named_components(p) == named_components(q));
        lemma_last_slash_bounds(p);
        assert(q.len() > 0) by {
            if q.len() == 0 {
                assert(p =~= seq!['/', '.']);
            }
        }
        assert(q[0] == p[0]);
        assert(is_absolute(q) == is_absolute(p));
        if q == seq!['.'] {
            assert(has_prefix(p, seq!['.', '/'])) by {
                assert(p.subrange(0, 2) =~= seq!['.', '/']);
            }
        }
        if has_prefix(q, seq!['.', '/']) {
            assert(has_prefix(p, seq!['.', '/'])) by {
                assert(p.subrange(0, 2) =~= q.subrange(0, 2));
            }
        }
        if has_prefix(p, seq!['.', '/']) && q != seq!['.'] {
            assert(q.len() >= 2) by {
                if q.len() == 1 {
                    assert(q[0] == p[0]);
                    assert(q =~= seq!['.']);
                }
            }
            assert(has_prefix(q, seq!['.', '/'])) by {
                assert(q.subrange(0, 2) =~= p.subrange(0, 2));
            }
        }
        assert(p != seq!['.']);
        assert(collapse_dot_spec(p) == q);
    }
}

/// `p` with a trailing `/.` collapsed; the root's own `/.` is the root.
pub open spec fn collapse_dot_spec(p: Seq<char>) -> Seq<char> {
    if p == seq!['/', '.'] {
        seq!['/']
    } else if has_suffix(p, seq!['/', '.']) {
        p.subrange(0, p.len() - 2)
    } else {
        p
    }
}

/// `a` joined with `b`.
pub fn join(a: &str, b: &str) -> (r: String)
    ensures
        r@ == join_spec(a@, b@),
{
    let x = chars_of(a);
    let y = chars_of(b);
    if (y.len() > 0 && y[0] == '/') || x.len() == 0 {
        crate::text::owned(b)
    } else if x[x.len() - 1] == '/' {
        cat(a, b)
    } else {
        proof {
            reveal_strlit("/");
        }
        cat3(a, "/", b)
    }
}

proof fn lemma_segment_start_bounds(p: Seq<char>, end: int)
    requires
        0 <= end <= p.len(),
    ensures
        0 <= segment_start(p, end) <= end,
        segment_start(p, end) > 0 ==> p[segment_start(p, end) - 1] == '/',
        forall|i: int| segment_start(p, end) <= i < end ==> p[i] != '/',
    decreases end,
{
    if end > 0 && p[end - 1] != '/' {
        lemma_segment_start_bounds(p, end - 1);
    }
}

/// The index the component ending at `end` starts at.
fn segment_start_exec(p: &Vec<char>, end: usize) -> (r: usize)
    requires
        end <= p@.len(),
    ensures
        r == segment_start(p@, end as int),
        r <= end,
{
    let mut s = end;
    while s > 0 && p[s - 1] != '/'
        invariant
            s <= end <= p@.len(),
            segment_start(p@, end as int) == segment_start(p@, s as int),
        decreases s,
    {
        s = s - 1;
    }
    s
}

/// The last component of a path, or `None` where `Path::file_name` has none.
pub fn file_name(p: &str) -> (r: Option<String>)
    ensures
        r matches Some(n) ==> file_name_spec(p@) == Some(n@),
        r is None ==> file_name_spec(p@) is None,
{
    let x = chars_of(p);
    let mut end = x.len();
    loop
        invariant
            end <= x@.len(),
            x@ == p@,
            file_name_spec(p@) == file_name_upto(x@, end as int),
        decreases end,
    {
        if end == 0 {
            return None;
        }
        if x[end - 1] == '/' {
            end = end - 1;
        } else {
            let s = segment_start_exec(&x, end);
            proof {
                lemma_segment_start_bounds(x@, end as int);
            }
            let len = end - s;
            if len == 1 && x[s] == '.' {
                assert(x@.subrange(s as int, end as int) =~= seq!['.']);
                end = end - 1;
            } else if len == 2 && x[s] == '.' && x[s + 1] == '.' {
                assert(x@.subrange(s as int, end as int) =~= seq!['.', '.']);
                return None;
            } else {
                proof {
                    let seg = x@.subrange(s as int, end as int);
                    if len == 1 {
                        assert(seg[0] != '.');
                        assert(seg != seq!['.']);
                    }
                    if len == 2 {
                        assert(seg[0] != '.' || seg[1] != '.');
                        assert(seg != seq!['.', '.']);
                    }
                    if len != 1 {
                        assert(seg.len() != seq!['.'].len());
                    }
                    if len != 2 {
                        assert(seg.len() != seq!['.', '.'].len());
                    }
                }
                return Some(string_of_range(&x, s, end));
            }
        }
    }
}

/// `p` with a trailing `/.` collapsed, which the in-subdirectory working
/// directory default produces.
pub fn collapse_dot(p: String) -> (r: String)
    ensures
        r@ == collapse_dot_spec(p@),
{
    let x = chars_of(p.as_str());
    let n = x.len();
    if n == 2 && x[0] == '/' && x[1] == '.' {
        assert(x@ =~= seq!['/', '.']);
        string_of_range(&x, 0, 1)
    } else if n >= 2 && x[n - 2] == '/' && x[n - 1] == '.' {
        assert(x@.subrange(n - 2, n as int) =~= seq!['/', '.']);
        proof {
            if n == 2 {
                assert(x@ =~= seq!['/', '.']);
            }
            assert(x@ != seq!['/', '.']);
        }
        string_of_range(&x, 0, n - 2)
    } else {
        proof {
            if n >= 2 {
                let t = x@.subrange(n - 2, n as int);
                assert(t[0] != '/' || t[1] != '.');
                assert(t != seq!['/', '.']);
            }
        }
        p
    }
}

} // verus!
