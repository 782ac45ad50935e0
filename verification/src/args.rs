//! Turning the argument list a shell handed the launcher into the one the
//! engine is invoked with.
//!
//! Three things happen between the two, and each is the launcher taking
//! something out rather than putting something in: the name the launcher was
//! invoked by, a repeated subcommand name where cargo invoked it, and the flags
//! the launcher owns.

use vstd::prelude::*;

use crate::engine::{take_flag, take_state, views};
use crate::path::{file_name, file_name_spec};
use crate::text::{owned, same, strip_prefix, strip_prefix_spec};
use crate::tool::{Locate, Tool};

verus! {

/// The prefix cargo gives an external subcommand's program.
pub open spec fn cargo_prefix() -> Seq<char> {
    seq!['c', 'a', 'r', 'g', 'o', '-']
}

/// The name the launcher was invoked by: the last component of the first
/// argument, or nothing.
pub open spec fn program_name(raw: Seq<Seq<char>>) -> Seq<char> {
    if raw.len() == 0 {
        Seq::empty()
    } else {
        match file_name_spec(raw[0]) {
            Some(n) => n,
            None => Seq::empty(),
        }
    }
}

/// The arguments after the program name, without the repeated subcommand
/// name cargo puts first when it runs `cargo-<x>` as `cargo-<x> <x>`.
pub open spec fn user_args(raw: Seq<Seq<char>>) -> Seq<Seq<char>> {
    let rest = if raw.len() == 0 {
        Seq::empty()
    } else {
        raw.subrange(1, raw.len() as int)
    };
    match strip_prefix_spec(program_name(raw), cargo_prefix()) {
        Some(sub) => if rest.len() > 0 && rest[0] == sub {
            rest.subrange(1, rest.len() as int)
        } else {
            rest
        },
        None => rest,
    }
}

/// The user-facing arguments to forward to the engine.
///
/// Invoked directly, every argument after the program name is forwarded.
/// Invoked as a cargo external subcommand, a leading `<x>` is dropped when the
/// program name is `cargo-<x>`. A user-supplied [`Tool::dir_flag`] is
/// stripped, in either spelling: the launcher owns it.
pub fn normalize_args(tool: &Tool, raw: &[String]) -> (r: Vec<String>)
    ensures
        views(r@) == take_state(user_args(views(raw@)), tool.dir_flag@).3,
{
    let ghost rv = views(raw@);
    let prog = if raw.len() == 0 {
        String::new()
    } else {
        match file_name(raw[0].as_str()) {
            Some(n) => n,
            None => String::new(),
        }
    };
    assert(prog@ == program_name(rv));
    let mut rest: Vec<String> = Vec::new();
    let mut i: usize = 1;
    while i < raw.len()
        invariant
            1 <= i,
            i <= raw@.len() || raw@.len() == 0,
            rv == views(raw@),
            raw@.len() > 0 ==> views(rest@) == rv.subrange(1, i as int),
            raw@.len() == 0 ==> rest@.len() == 0,
        decreases raw.len() - i,
    {
        let ghost before = rest@;
        rest.push(raw[i].clone());
        proof {
            assert(views(rest@) =~= views(before).push(raw@[i as int]@));
            assert(rv.subrange(1, i + 1) =~= rv.subrange(1, i as int).push(rv[i as int]));
        }
        i = i + 1;
    }
    let ghost all_rest = if rv.len() == 0 {
        Seq::<Seq<char>>::empty()
    } else {
        rv.subrange(1, rv.len() as int)
    };
    assert(views(rest@) =~= all_rest);
    proof {
        reveal_strlit("cargo-");
        assert("cargo-"@ =~= cargo_prefix());
    }
    let rest = match strip_prefix(prog.as_str(), "cargo-") {
        Some(sub) => {
            if rest.len() > 0 && same(rest[0].as_str(), sub.as_str()) {
                let ghost before = rest@;
                let mut out: Vec<String> = Vec::new();
                let mut j: usize = 1;
                while j < rest.len()
                    invariant
                        1 <= j <= rest@.len(),
                        rest@ == before,
                        views(out@) == views(rest@).subrange(1, j as int),
                    decreases rest.len() - j,
                {
                    let ghost o = out@;
                    out.push(rest[j].clone());
                    proof {
                        assert(views(out@) =~= views(o).push(rest@[j as int]@));
                        assert(views(rest@).subrange(1, j + 1) =~= views(rest@).subrange(
                            1,
                            j as int,
                        ).push(views(rest@)[j as int]));
                    }
                    j = j + 1;
                }
                out
            } else {
                rest
            }
        },
        None => rest,
    };
    strip_dir_flag(rest, tool.dir_flag)
}

/// Drop a user-supplied `<dir_flag> <value>` pair anywhere in the args, in
/// either spelling. A `<dir_flag>` with no value after it is dropped too: the
/// user's directory is discarded whether they named one or not.
pub fn strip_dir_flag(args: Vec<String>, dir_flag: &str) -> (r: Vec<String>)
    ensures
        views(r@) == take_state(views(args@), dir_flag@).3,
{
    take_flag(args, dir_flag).1
}

/// Whether these arguments ask the launcher the locate question rather than
/// asking the engine anything: only for a tool that has such a query, and only
/// when the first argument is its subcommand.
pub fn is_the_locate_query(locate: &Locate, args: &[String]) -> (r: bool)
    ensures
        r == (locate.subcommand matches Some(c) && args@.len() > 0 && args@[0]@ == c@),
{
    match locate.subcommand {
        Some(c) => args.len() > 0 && same(args[0].as_str(), c),
        None => false,
    }
}

} // verus!
