//! `--engine <path>`: run a repo against an engine checkout on disk, and the
//! flag handling every launcher-owned flag shares.
//!
//! The scratch path deliberately breaks the caching contract the rest of the
//! launcher keeps: it rebuilds every time, stays out of the registry, and
//! sweeps its own leftovers a day after their last use. What is decided rather
//! than done on that path is here; the building and the sweeping are the
//! caller's.

use vstd::prelude::*;

use crate::hash::{hex16, fnv_fields, Fnv};
use crate::path::{join, join_spec};
use crate::text::{has_prefix, owned, slice_starts_with, chars_of, string_of_range, same};

verus! {

/// How long, in seconds, a scratch build survives without being used.
pub const SCRATCH_TTL_SECS: u64 = 86400;

/// What a launcher-owned flag was found to be, as characters.
pub enum FlagView {
    /// Not passed.
    Absent,
    /// Passed, with the value.
    Value(Seq<char>),
    /// Passed, with no value after it.
    Missing,
}

/// What [`take_flag`] found, which is three things rather than two.
///
/// A flag nobody passed and a flag passed with nothing after it are different
/// facts, and collapsing them is how a flag with no value came to be read as
/// a request for nothing.
#[derive(Debug, Clone, PartialEq, Eq)]
pub enum Flag {
    /// Not passed.
    Absent,
    /// Passed, with the value.
    Value(String),
    /// Passed, with no value after it. A usage error for a flag whose value is
    /// read, and harmless for one whose value is discarded.
    Missing,
}

impl View for Flag {
    type V = FlagView;

    open spec fn view(&self) -> FlagView {
        match self {
            Flag::Absent => FlagView::Absent,
            Flag::Value(v) => FlagView::Value(v@),
            Flag::Missing => FlagView::Missing,
        }
    }
}

impl Flag {
    /// The value, for a caller that treats a missing one the same as an absent
    /// flag. Only correct where the flag's value is discarded anyway.
    pub fn value(self) -> (r: Option<String>)
        ensures
            match self@ {
                FlagView::Value(v) => r matches Some(s) && s@ == v,
                _ => r is None,
            },
    {
        match self {
            Flag::Value(v) => Some(v),
            Flag::Absent | Flag::Missing => None,
        }
    }
}

/// The scan's state between two arguments: what was found so far, whether the
/// next argument is wanted as the value, whether a bare `--` has been passed,
/// and the arguments kept.
pub type TakeState = (FlagView, bool, bool, Seq<Seq<char>>);

/// The two-character separator after which every argument is the user's.
pub open spec fn double_dash() -> Seq<char> {
    seq!['-', '-']
}

/// The joined spelling's prefix: the flag and an `=`.
pub open spec fn joined(flag: Seq<char>) -> Seq<char> {
    flag.push('=')
}

/// Whether an argument is spelled as a flag.
pub open spec fn looks_like_flag(arg: Seq<char>) -> bool {
    arg.len() > 0 && arg[0] == '-'
}

/// One argument's effect on the scan.
pub open spec fn take_step(st: TakeState, arg: Seq<char>, flag: Seq<char>) -> TakeState {
    let (found, want, after, rest) = st;
    if after || arg == double_dash() {
        (found, false, true, rest.push(arg))
    } else if want && !looks_like_flag(arg) {
        (FlagView::Value(arg), false, false, rest)
    } else if arg == flag {
        (FlagView::Missing, true, false, rest)
    } else if has_prefix(arg, joined(flag)) {
        let v = arg.subrange(joined(flag).len() as int, arg.len() as int);
        (if v.len() == 0 { FlagView::Missing } else { FlagView::Value(v) }, false, false, rest)
    } else {
        (found, false, false, rest.push(arg))
    }
}

/// The scan's state after the arguments `args`, first to last.
pub open spec fn take_state(args: Seq<Seq<char>>, flag: Seq<char>) -> TakeState
    decreases args.len(),
{
    if args.len() == 0 {
        (FlagView::Absent, false, false, Seq::empty())
    } else {
        take_step(take_state(args.drop_last(), flag), args.last(), flag)
    }
}

/// The views of a list of strings.
pub open spec fn views(v: Seq<String>) -> Seq<Seq<char>> {
    v.map_values(|s: String| s@)
}

/// Take a `<flag> <value>` or `<flag>=<value>` pair out of the arguments.
///
/// Returns what was found and the arguments with every occurrence removed, so
/// the engine never sees a flag the launcher owns. A value beginning with `-`
/// is not taken; the joined spelling with nothing after the `=` is missing
/// rather than empty; scanning stops at a bare `--`; and a flag passed more
/// than once takes the last one.
pub fn take_flag(args: Vec<String>, flag: &str) -> (r: (Flag, Vec<String>))
    ensures
        r.0@ == take_state(views(args@), flag@).0,
        views(r.1@) == take_state(views(args@), flag@).3,
{
    let fl = chars_of(flag);
    let mut jn = fl.clone();
    jn.push('=');
    let ghost all = views(args@);
    let mut found = Flag::Absent;
    let mut rest: Vec<String> = Vec::new();
    let mut want_value = false;
    let mut users_from_here = false;
    let mut i: usize = 0;
    while i < args.len()
        invariant
            i <= args@.len(),
            all == views(args@),
            fl@ == flag@,
            jn@ == joined(flag@),
            take_state(all.subrange(0, i as int), flag@) == (
                found@,
                want_value,
                users_from_here,
                views(rest@),
            ),
        decreases args.len() - i,
    {
        let arg = args[i].clone();
        proof {
            assert(all.subrange(0, i + 1).drop_last() =~= all.subrange(0, i as int));
            assert(all.subrange(0, i + 1).last() == arg@);
        }
        let ghost before = rest@;
        let a = chars_of(arg.as_str());
        let is_dd = a.len() == 2 && a[0] == '-' && a[1] == '-';
        proof {
            if is_dd {
                assert(a@ =~= double_dash());
            } else if a@.len() == 2 {
                assert(a@[0] != double_dash()[0] || a@[1] != double_dash()[1]);
            }
        }
        if users_from_here || is_dd {
            users_from_here = true;
            want_value = false;
            rest.push(arg);
            proof {
                assert(views(rest@) =~= views(before).push(a@));
            }
        } else {
            let mut consumed = false;
            if want_value {
                want_value = false;
                if !(a.len() > 0 && a[0] == '-') {
                    found = Flag::Value(arg.clone());
                    consumed = true;
                }
            }
            if !consumed {
                if same(arg.as_str(), flag) {
                    want_value = true;
                    found = Flag::Missing;
                } else if slice_starts_with(&a, &jn) {
                    let v = string_of_range(&a, jn.len(), a.len());
                    if jn.len() == a.len() {
                        found = Flag::Missing;
                    } else {
                        found = Flag::Value(v);
                    }
                } else {
                    rest.push(arg);
                    proof {
                        assert(views(rest@) =~= views(before).push(a@));
                    }
                }
            }
        }
        i = i + 1;
    }
    proof {
        assert(all.subrange(0, args@.len() as int) =~= all);
    }
    (found, rest)
}

/// Whether a bare `--` occurs in `s`.
pub open spec fn has_double_dash(s: Seq<Seq<char>>) -> bool
    decreases s.len(),
{
    s.len() > 0 && (has_double_dash(s.drop_last()) || s.last() == double_dash())
}

/// Whether no argument before the first bare `--` in `s` is the flag, in
/// either spelling.
pub open spec fn free_of(s: Seq<Seq<char>>, flag: Seq<char>) -> bool
    decreases s.len(),
{
    s.len() == 0 || (free_of(s.drop_last(), flag) && (has_double_dash(s.drop_last())
        || s.last() == double_dash() || (s.last() != flag && !has_prefix(
        s.last(),
        joined(flag),
    ))))
}

/// The scan has passed a `--` exactly when the arguments so far hold one, and
/// what it keeps is free of the flag.
proof fn lemma_take_state_shape(args: Seq<Seq<char>>, flag: Seq<char>)
    ensures
        take_state(args, flag).2 == has_double_dash(args),
        take_state(args, flag).2 == has_double_dash(take_state(args, flag).3),
        free_of(take_state(args, flag).3, flag),
    decreases args.len(),
{
    if args.len() > 0 {
        let prev = take_state(args.drop_last(), flag);
        lemma_take_state_shape(args.drop_last(), flag);
        let arg = args.last();
        let rest = prev.3;
        assert(rest.push(arg).drop_last() =~= rest);
    }
}

/// Arguments free of the flag pass through a scan untouched, and the flag is
/// reported absent.
proof fn lemma_free_passes(s: Seq<Seq<char>>, flag: Seq<char>)
    requires
        free_of(s, flag),
    ensures
        take_state(s, flag) == (FlagView::Absent, false, has_double_dash(s), s),
    decreases s.len(),
{
    if s.len() > 0 {
        lemma_free_passes(s.drop_last(), flag);
        assert(s.drop_last().push(s.last()) =~= s);
    }
}

/// Nothing of the flag is left once it has been taken: scanning the kept
/// arguments again finds the flag absent and keeps every one of them.
pub proof fn law_take_flag_leaves_nothing(args: Seq<Seq<char>>, flag: Seq<char>)
    ensures
        take_state(take_state(args, flag).3, flag).0 == FlagView::Absent,
        take_state(take_state(args, flag).3, flag).3 == take_state(args, flag).3,
{
    lemma_take_state_shape(args, flag);
    lemma_free_passes(take_state(args, flag).3, flag);
}

/// A run that never names the flag before a `--` is forwarded exactly as it
/// came, with the flag reported absent.
pub proof fn law_take_flag_untouched(args: Seq<Seq<char>>, flag: Seq<char>)
    requires
        free_of(args, flag),
    ensures
        take_state(args, flag).0 == FlagView::Absent,
        take_state(args, flag).3 == args,
{
    lemma_free_passes(args, flag);
}

/// Everything from the first bare `--` on belongs to the user and is forwarded
/// verbatim, and nothing after it decides what the flag was.
pub proof fn law_take_flag_stops_at_double_dash(
    before: Seq<Seq<char>>,
    after: Seq<Seq<char>>,
    flag: Seq<char>,
)
    requires
        !has_double_dash(before),
    ensures
        take_state(before.push(double_dash()) + after, flag).0 == take_state(before, flag).0,
        take_state(before.push(double_dash()) + after, flag).3 == take_state(before, flag).3.push(
            double_dash(),
        ) + after,
    decreases after.len(),
{
    lemma_take_state_shape(before, flag);
    if after.len() == 0 {
        assert(before.push(double_dash()) + after =~= before.push(double_dash()));
        assert(before.push(double_dash()).drop_last() =~= before);
        assert(take_state(before, flag).3.push(double_dash()) + after =~= take_state(
            before,
            flag,
        ).3.push(double_dash()));
    } else {
        law_take_flag_stops_at_double_dash(before, after.drop_last(), flag);
        let all = before.push(double_dash()) + after;
        assert(all.drop_last() =~= before.push(double_dash()) + after.drop_last());
        assert(all.last() == after.last());
        lemma_take_state_shape(all.drop_last(), flag);
        assert(has_double_dash(before.push(double_dash()))) by {
            assert(before.push(double_dash()).drop_last() =~= before);
        }
        lemma_double_dash_grows(before.push(double_dash()), after.drop_last());
        assert(take_state(before, flag).3.push(double_dash()) + after =~= (take_state(
            before,
            flag,
        ).3.push(double_dash()) + after.drop_last()).push(after.last()));
    }
}

/// Whether the argument at `n` is a bare flag the scan acts on: it is the
/// flag, and it was not itself taken as the value of a bare flag just before
/// it (which happens only to a flag not spelled with a leading `-`).
pub open spec fn active_at(s: Seq<Seq<char>>, flag: Seq<char>, n: int) -> bool
    decreases n,
{
    if n < 0 || n >= s.len() {
        false
    } else {
        s[n] == flag && !(n > 0 && active_at(s, flag, n - 1) && !looks_like_flag(s[n]))
    }
}

/// Whether the argument at `n` is one the scan takes: the flag, its joined
/// spelling, or the value right after a bare flag the scan acts on, which is
/// any argument not spelled as a flag.
pub open spec fn taken_at(s: Seq<Seq<char>>, flag: Seq<char>, n: int) -> bool {
    s[n] == flag || has_prefix(s[n], joined(flag)) || (n > 0 && active_at(s, flag, n - 1)
        && !looks_like_flag(s[n]))
}

/// The arguments of `s` the scan does not take, in order.
pub open spec fn not_taken(s: Seq<Seq<char>>, flag: Seq<char>) -> Seq<Seq<char>>
    decreases s.len(),
{
    if s.len() == 0 {
        Seq::empty()
    } else if taken_at(s, flag, s.len() - 1) {
        not_taken(s.drop_last(), flag)
    } else {
        not_taken(s.drop_last(), flag).push(s.last())
    }
}

/// Whether some argument of `s` names the flag, in either spelling.
pub open spec fn names_flag(s: Seq<Seq<char>>, flag: Seq<char>) -> bool {
    exists|i: int| 0 <= i < s.len() && (#[trigger] s[i] == flag || has_prefix(s[i], joined(flag)))
}

/// Whether a bare flag is acted on depends only on the arguments up to it.
proof fn lemma_active_prefix(s: Seq<Seq<char>>, flag: Seq<char>, n: int)
    requires
        s.len() > 0,
        n < s.len() - 1,
    ensures
        active_at(s, flag, n) == active_at(s.drop_last(), flag, n),
    decreases n,
{
    if n > 0 {
        lemma_active_prefix(s, flag, n - 1);
    }
}

proof fn lemma_scan_without_double_dash(s: Seq<Seq<char>>, flag: Seq<char>)
    requires
        !has_double_dash(s),
    ensures
        take_state(s, flag).3 == not_taken(s, flag),
        take_state(s, flag).1 == (s.len() > 0 && active_at(s, flag, s.len() - 1)),
        !take_state(s, flag).2,
        (take_state(s, flag).0 == FlagView::Absent) == !names_flag(s, flag),
    decreases s.len(),
{
    if s.len() > 0 {
        let p = s.drop_last();
        let x = s.last();
        let n = s.len() - 1;
        lemma_scan_without_double_dash(p, flag);
        assert(x != double_dash());
        assert(x == flag ==> !has_prefix(x, joined(flag)));
        if n > 0 {
            lemma_active_prefix(s, flag, n - 1);
            assert(s[n - 1] == p.last());
        }
        let prev = take_state(p, flag);
        assert(prev.1 == (n > 0 && active_at(s, flag, n - 1)));
        if prev.1 && !looks_like_flag(x) {
            assert(s[n - 1] == flag);
            assert(!active_at(s, flag, n));
            assert(names_flag(s, flag)) by {
                assert(s[n - 1] == flag);
            }
        } else if x == flag || has_prefix(x, joined(flag)) {
            assert(names_flag(s, flag)) by {
                assert(s[n] == x);
            }
            if has_prefix(x, joined(flag)) {
                assert(x.len() > flag.len());
            }
        } else {
            assert(!taken_at(s, flag, n));
            assert(names_flag(s, flag) == names_flag(p, flag)) by {
                if names_flag(s, flag) {
                    let i = choose|i: int| 0 <= i < s.len() && (#[trigger] s[i] == flag || has_prefix(s[i], joined(flag)));
                    assert(i < n);
                    assert(p[i] == s[i]);
                }
                if names_flag(p, flag) {
                    let i = choose|i: int| 0 <= i < p.len() && (#[trigger] p[i] == flag || has_prefix(p[i], joined(flag)));
                    assert(s[i] == p[i]);
                }
            }
        }
        if taken_at(s, flag, n) {
            assert(not_taken(s, flag) == not_taken(p, flag));
        }
    }
}

/// What taking the flag does, whole, for any flag: up to the first bare `--`
/// it keeps, in order, exactly the arguments that are not the flag, not its
/// joined spelling, and not the value right after a bare flag it acts on (any
/// argument not spelled as a flag); from the `--` on it keeps everything
/// verbatim. The flag is reported absent exactly when no argument before the
/// `--` names it in either spelling.
pub proof fn law_take_flag_removes_exactly(
    before: Seq<Seq<char>>,
    after: Seq<Seq<char>>,
    flag: Seq<char>,
)
    requires
        !has_double_dash(before),
    ensures
        take_state(before, flag).3 == not_taken(before, flag),
        (take_state(before, flag).0 == FlagView::Absent) == !names_flag(before, flag),
        take_state(before.push(double_dash()) + after, flag).3 == not_taken(before, flag).push(
            double_dash(),
        ) + after,
        (take_state(before.push(double_dash()) + after, flag).0 == FlagView::Absent) == !names_flag(
            before,
            flag,
        ),
{
    lemma_scan_without_double_dash(before, flag);
    law_take_flag_stops_at_double_dash(before, after, flag);
}

/// A `--` in a prefix is still there after anything is appended.
proof fn lemma_double_dash_grows(s: Seq<Seq<char>>, t: Seq<Seq<char>>)
    requires
        has_double_dash(s),
    ensures
        has_double_dash(s + t),
    decreases t.len(),
{
    if t.len() == 0 {
        assert(s + t =~= s);
    } else {
        lemma_double_dash_grows(s, t.drop_last());
        assert((s + t).drop_last() =~= s + t.drop_last());
    }
}

/// The last occurrence wins, for any flag but `--` itself: whatever came
/// before, a flag followed by a value at the end of the launcher's arguments
/// is the value taken, and so is the joined spelling with something after its
/// `=`. The one exception is a flag not spelled with a leading `-` right
/// after a bare flag the scan acts on, which is taken as that flag's value
/// instead; it is left out.
pub proof fn law_take_flag_last_wins(
    before: Seq<Seq<char>>,
    flag: Seq<char>,
    value: Seq<char>,
)
    requires
        flag != double_dash(),
        !looks_like_flag(value),
        value.len() > 0,
        !has_double_dash(before),
        looks_like_flag(flag) || !(before.len() > 0 && active_at(before, flag, before.len() - 1)),
    ensures
        take_state(before.push(flag).push(value), flag).0 == FlagView::Value(value),
        take_state(before.push(joined(flag) + value), flag).0 == FlagView::Value(value),
{
    lemma_scan_without_double_dash(before, flag);
    lemma_take_state_shape(before, flag);
    assert(before.push(flag).drop_last() =~= before);
    assert(before.push(flag).push(value).drop_last() =~= before.push(flag));
    let mid = take_state(before.push(flag), flag);
    assert(mid.0 == FlagView::Missing && mid.1 && !mid.2);
    assert(value != double_dash());
    let arg = joined(flag) + value;
    assert(before.push(arg).drop_last() =~= before);
    assert(arg != flag);
    assert(arg.subrange(0, joined(flag).len() as int) =~= joined(flag));
    assert(arg.subrange(joined(flag).len() as int, arg.len() as int) =~= value);
    if flag.len() > 0 {
        assert(arg[0] == flag[0]);
        assert(arg[flag.len() as int] == '=');
    } else {
        assert(arg[0] == '=');
    }
    assert(arg != double_dash()) by {
        if arg == double_dash() {
            assert(arg.len() == 2);
            if flag.len() == 1 {
                assert(arg[1] == '=');
            }
        }
    }
}

/// Where scratch engine builds live, beside the keyed ones but never mixed
/// with them.
pub fn scratch_dir(cache_root: &str) -> (r: String)
    ensures
        r@ == join_spec(cache_root@, "engines"@),
{
    join(cache_root, "engines")
}

/// The directory one engine checkout's scratch build lives in: the checkout's
/// path hashed as one field, under [`scratch_dir`].
pub fn scratch_root(cache_root: &str, source: &str) -> (r: String)
    ensures
        r@ == join_spec(join_spec(cache_root@, "engines"@), hex16(fnv_fields(seq![source@]))),
{
    let mut h = Fnv::new();
    h.write_field(source);
    proof {
        crate::hash::lemma_fields_step(Seq::empty(), source@);
        assert(Seq::<Seq<char>>::empty().push(source@) =~= seq![source@]);
    }
    let d = scratch_dir(cache_root);
    let k = h.hex();
    join(d.as_str(), k.as_str())
}

/// Whether something last used `age` seconds ago is past a window of `ttl`
/// seconds. An age that could not be read (a clock before the stamp, a stamp
/// that could not be had) is never stale: nothing is removed on a guess.
pub fn is_stale(age: Option<u64>, ttl: u64) -> (r: bool)
    ensures
        r == (age matches Some(a) && a > ttl),
{
    match age {
        Some(a) => a > ttl,
        None => false,
    }
}

/// Whether something last used `age` ago (whole seconds and nanoseconds) is
/// past a window of `ttl` seconds. An age that could not be read is never
/// past it.
pub fn is_older(age: Option<(u64, u32)>, ttl: u64) -> (r: bool)
    ensures
        r == (age matches Some((s, n)) && (s > ttl || (s == ttl && n > 0))),
{
    match age {
        Some((s, n)) => s > ttl || (s == ttl && n > 0),
        None => false,
    }
}

/// The `cargo install` arguments that build the checkout at `source` into the
/// scratch root `root`, its target directory inside that root, over whatever
/// an earlier build left.
pub fn checkout_install_args(source: &str, root: &str) -> (r: Vec<String>)
    ensures
        views(r@) == seq![
            "install"@,
            "--path"@,
            source@,
            "--root"@,
            root@,
            "--target-dir"@,
            join_spec(root@, "target"@),
            "--force"@,
        ],
{
    let mut v: Vec<String> = Vec::new();
    v.push(owned("install"));
    v.push(owned("--path"));
    v.push(owned(source));
    v.push(owned("--root"));
    v.push(owned(root));
    v.push(owned("--target-dir"));
    v.push(join(root, "target"));
    v.push(owned("--force"));
    assert(views(v@) =~= seq![
        "install"@,
        "--path"@,
        source@,
        "--root"@,
        root@,
        "--target-dir"@,
        join_spec(root@, "target"@),
        "--force"@,
    ]);
    v
}

} // verus!
