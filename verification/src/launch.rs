//! What a launcher run decides before it touches anything, and what it says.
//!
//! A run refuses an unusable descriptor before anything else, turns the
//! shell's arguments into the engine's, takes the engine override off, and
//! either answers the locate query or goes on to run the engine. Which pin it
//! runs, the order of the steps a run of the engine takes, and what it
//! answers and says when asked or when something is missing, are decided here
//! too.

use vstd::prelude::*;

use crate::args::{is_the_locate_query, normalize_args, user_args};
use crate::engine::{take_flag, take_state, views, Flag, FlagView};
use crate::manifest::{header_of, near_miss, near_miss_of, syntax_error, Header, Pin};
use crate::registry::PinSource;
use crate::text::owned;
use crate::toml_doc::{opt_view, toml_document};
use crate::tool::{defect_of, Locate, Tool};

verus! {

/// What a run goes on to do once its arguments are read.
#[derive(Debug, Clone, PartialEq, Eq)]
pub enum Dispatch {
    /// Answer the locate query, and build and run nothing.
    Locate,
    /// Run the engine with these arguments: the pinned one, or the checkout at
    /// `engine` when the override was passed.
    Run {
        /// The override's path, when one was passed.
        engine: Option<String>,
        /// The arguments the engine is handed after the launcher's own.
        args: Vec<String>,
    },
}

/// A dispatch as characters.
pub enum DispatchView {
    Locate,
    Run { engine: Option<Seq<char>>, args: Seq<Seq<char>> },
}

impl View for Dispatch {
    type V = DispatchView;

    open spec fn view(&self) -> DispatchView {
        match self {
            Dispatch::Locate => DispatchView::Locate,
            Dispatch::Run { engine, args } => DispatchView::Run {
                engine: opt_view(*engine),
                args: views(args@),
            },
        }
    }
}

/// What a run with these raw arguments goes on to do, or why it refuses: an
/// unusable descriptor first; then the engine override taken off the
/// forwarded arguments, refused when passed with no path; then the locate
/// query, or the engine.
pub open spec fn outcome_spec(t: Tool, raw: Seq<Seq<char>>) -> Result<DispatchView, Seq<char>> {
    match defect_of(t) {
        Some(d) => Err("this launcher's descriptor is not usable: "@ + d@),
        None => {
            let forwarded = take_state(user_args(raw), t.dir_flag@).3;
            let st = take_state(forwarded, t.engine_flag@);
            match st.0 {
                FlagView::Missing => Err(
                    t.engine_flag@ + " needs a path to an engine checkout, and none followed it"@,
                ),
                _ => if t.locate.subcommand matches Some(c) && st.3.len() > 0 && st.3[0] == c@ {
                    Ok(DispatchView::Locate)
                } else {
                    Ok(
                        DispatchView::Run {
                            engine: match st.0 {
                                FlagView::Value(v) => Some(v),
                                _ => None,
                            },
                            args: st.3,
                        },
                    )
                },
            }
        },
    }
}

/// What a run with these raw arguments (the program name first) goes on to
/// do. See [`outcome_spec`].
pub fn outcome(tool: &Tool, raw: &[String]) -> (r: Result<Dispatch, String>)
    ensures
        match r {
            Ok(d) => outcome_spec(*tool, views(raw@)) == Ok::<DispatchView, Seq<char>>(d@),
            Err(e) => outcome_spec(*tool, views(raw@)) == Err::<DispatchView, Seq<char>>(e@),
        },
{
    if let Some(d) = tool.defect() {
        return Err(crate::text::cat("this launcher's descriptor is not usable: ", d));
    }
    let args = normalize_args(tool, raw);
    let (flag, rest) = take_flag(args, tool.engine_flag);
    if let Flag::Missing = flag {
        return Err(crate::text::cat(tool.engine_flag, " needs a path to an engine checkout, and none followed it"));
    }
    if is_the_locate_query(&tool.locate, rest.as_slice()) {
        return Ok(Dispatch::Locate);
    }
    Ok(Dispatch::Run { engine: flag.value(), args: rest })
}

/// The locate answer: the root, the config (empty when there is none) and the
/// working directory (empty when it is not a directory on disk), one
/// `key=value` line each, under the tool's own key names.
pub open spec fn locate_answer_spec(l: Locate, root: Seq<char>, config: Seq<char>, workdir: Seq<char>, workdir_is_dir: bool) -> Seq<char> {
    l.root_key@ + "="@ + root + "\n"@ + l.config_key@ + "="@ + config + "\n"@ + l.workdir_key@ + "="@
        + (if workdir_is_dir { workdir } else { Seq::empty() }) + "\n"@
}

/// Why a locate answer cannot be given: a `key=value` line cannot carry a
/// newline, so the first of the root, the config and the working directory
/// that holds one is refused by name.
pub open spec fn newline_refusal(root: Seq<char>, config: Seq<char>, workdir: Seq<char>) -> Option<Seq<char>> {
    if crate::text::has_char(root, '\n') {
        Some(refused_path("repo root"@, root))
    } else if crate::text::has_char(config, '\n') {
        Some(refused_path("config"@, config))
    } else if crate::text::has_char(workdir, '\n') {
        Some(refused_path("working directory"@, workdir))
    } else {
        None
    }
}

/// The refusal of one path that holds a newline.
pub open spec fn refused_path(what: Seq<char>, path: Seq<char>) -> Seq<char> {
    "the "@ + what + " "@ + path + " holds a newline, which a key=value answer cannot carry"@
}

/// An answer the launcher gives is three records, each a single line: with
/// key names that hold no newline, an answer that is not refused is the root,
/// the config and the working directory lines, each ended by a newline and
/// holding none inside.
pub proof fn law_an_answer_is_three_records(
    l: Locate,
    root: Seq<char>,
    config: Seq<char>,
    workdir: Seq<char>,
    workdir_is_dir: bool,
)
    requires
        !crate::text::has_char(l.root_key@, '\n'),
        !crate::text::has_char(l.config_key@, '\n'),
        !crate::text::has_char(l.workdir_key@, '\n'),
        newline_refusal(root, config, workdir) is None,
    ensures
        ({
            let a = l.root_key@ + "="@ + root;
            let b = l.config_key@ + "="@ + config;
            let c = l.workdir_key@ + "="@ + (if workdir_is_dir { workdir } else { Seq::<char>::empty() });
            &&& locate_answer_spec(l, root, config, workdir, workdir_is_dir) == a + "\n"@ + b + "\n"@ + c
                + "\n"@
            &&& !crate::text::has_char(a, '\n')
            &&& !crate::text::has_char(b, '\n')
            &&& !crate::text::has_char(c, '\n')
        }),
{
    reveal_strlit("=");
    let w = if workdir_is_dir { workdir } else { Seq::<char>::empty() };
    let a = l.root_key@ + "="@ + root;
    let b = l.config_key@ + "="@ + config;
    let c = l.workdir_key@ + "="@ + w;
    assert(locate_answer_spec(l, root, config, workdir, workdir_is_dir) =~= a + "\n"@ + b + "\n"@ + c + "\n"@);
    assert forall|k: Seq<char>, v: Seq<char>|
        !crate::text::has_char(k, '\n') && !crate::text::has_char(v, '\n') implies !crate::text::has_char(
        #[trigger] (k + "="@ + v),
        '\n',
    ) by {
        let x = k + "="@ + v;
        if crate::text::has_char(x, '\n') {
            let i = choose|i: int| 0 <= i < x.len() && x[i] == '\n';
            if i < k.len() {
                assert(x[i] == k[i]);
            } else if i == k.len() {
                assert(x[i] == '=');
            } else {
                assert(x[i] == v[i - k.len() - 1]);
            }
        }
    }
    if !workdir_is_dir {
        assert(!crate::text::has_char(w, '\n'));
    }
}

/// The refusal of one path that holds a newline, as text.
fn refuse_path(what: &str, path: &str) -> (r: String)
    ensures
        r@ == refused_path(what@, path@),
{
    let mut m = owned("the ");
    m.append(what);
    m.append(" ");
    m.append(path);
    m.append(" holds a newline, which a key=value answer cannot carry");
    m
}

/// The locate answer as text, or the refusal of a path it cannot carry. See
/// [`locate_answer_spec`] and [`newline_refusal`].
pub fn locate_answer(locate: &Locate, root: &str, config: &str, workdir: &str, workdir_is_dir: bool) -> (r: Result<String, String>)
    ensures
        match r {
            Ok(a) => newline_refusal(root@, config@, workdir@) is None && a@ == locate_answer_spec(
                *locate,
                root@,
                config@,
                workdir@,
                workdir_is_dir,
            ),
            Err(e) => newline_refusal(root@, config@, workdir@) == Some(e@),
        },
{
    proof {
        reveal_strlit("repo root");
        reveal_strlit("config");
        reveal_strlit("working directory");
    }
    if crate::text::contains_char(root, '\n') {
        return Err(refuse_path("repo root", root));
    }
    if crate::text::contains_char(config, '\n') {
        return Err(refuse_path("config", config));
    }
    if crate::text::contains_char(workdir, '\n') {
        return Err(refuse_path("working directory", workdir));
    }
    let mut out = owned(locate.root_key);
    out.append("=");
    out.append(root);
    out.append("\n");
    out.append(locate.config_key);
    out.append("=");
    out.append(config);
    out.append("\n");
    out.append(locate.workdir_key);
    out.append("=");
    if workdir_is_dir {
        out.append(workdir);
    }
    out.append("\n");
    proof {
        if !workdir_is_dir {
            assert(locate.workdir_key@ + "="@ + Seq::<char>::empty() =~= locate.workdir_key@ + "="@);
        }
    }
    assert(out@ =~= locate_answer_spec(*locate, root@, config@, workdir@, workdir_is_dir));
    Ok(out)
}

/// What an operator is told when no pin was found: that the config at
/// `where_to` is not TOML, with the parser's message; or that no pin was
/// found, with the line to add, and the key that looks like a pin key and is
/// not one, where there is one.
pub open spec fn missing_pin_spec(t: Tool, where_to: Seq<char>, text: Option<Seq<char>>) -> Seq<char> {
    let base = "no "@ + t.engine_crate@ + " pin found. add one to "@ + where_to + ":\n\n    "@
        + t.pin_keys.version@ + " = \"0.1.0\"   # the released engine version\n"@;
    match text {
        None => base,
        Some(s) => match toml_document(s) {
            Err(e) => where_to + " is not valid TOML, so no "@ + t.engine_crate@
                + " pin could be read from it:\n"@ + e,
            Ok(_) => match near_miss_of(t, s) {
                None => base,
                Some(k) => base + "\n`"@ + k + "` is not a pin key this tool reads; it reads "@
                    + t.pin_keys.version@ + ", "@ + t.pin_keys.rev@ + ", "@ + t.pin_keys.tag@
                    + " and "@ + t.pin_keys.branch@ + ".\n"@,
            },
        },
    }
}

/// What an operator is told when no pin was found. See [`missing_pin_spec`].
pub fn missing_pin_message(tool: &Tool, where_to: &str, config_text: Option<&str>) -> (r: String)
    ensures
        r@ == missing_pin_spec(
            *tool,
            where_to@,
            match config_text {
                Some(t) => Some(t@),
                None => None,
            },
        ),
{
    let mut base = owned("no ");
    base.append(tool.engine_crate);
    base.append(" pin found. add one to ");
    base.append(where_to);
    base.append(":\n\n    ");
    base.append(tool.pin_keys.version);
    base.append(" = \"0.1.0\"   # the released engine version\n");
    let text = match config_text {
        None => return base,
        Some(t) => t,
    };
    if let Some(e) = syntax_error(text) {
        let mut m = owned(where_to);
        m.append(" is not valid TOML, so no ");
        m.append(tool.engine_crate);
        m.append(" pin could be read from it:\n");
        m.append(e.as_str());
        return m;
    }
    match near_miss(tool, text) {
        None => base,
        Some(k) => {
            base.append("\n`");
            base.append(k.as_str());
            base.append("` is not a pin key this tool reads; it reads ");
            base.append(tool.pin_keys.version);
            base.append(", ");
            base.append(tool.pin_keys.rev);
            base.append(", ");
            base.append(tool.pin_keys.tag);
            base.append(" and ");
            base.append(tool.pin_keys.branch);
            base.append(".\n");
            base
        },
    }
}

/// The pin a run uses: the config's own, when its text declares one; else the
/// tool's legacy fallback, when it gave one; else a refusal saying what to
/// add and where.
pub fn resolve_pin(tool: &Tool, config_text: Option<&str>, legacy: Option<Pin>, where_to: &str) -> (r: Result<(Pin, PinSource), String>)
    ensures
        match config_text {
            Some(t) if header_of(*tool, t@).2 is Some => r matches Ok((p, s)) && s == PinSource::Config
                && p.reference@ == header_of(*tool, t@).2.unwrap()
                && p.url@ == (match header_of(*tool, t@).1 {
                    Some(u) => u,
                    None => tool.default_url@,
                }),
            _ => match legacy {
                Some(l) => r matches Ok((p, s)) && s == PinSource::Legacy && p@ == l@,
                None => r matches Err(m) && m@ == missing_pin_spec(
                    *tool,
                    where_to@,
                    match config_text {
                        Some(t) => Some(t@),
                        None => None,
                    },
                ),
            },
        },
{
    if let Some(t) = config_text {
        let h = Header::parse(tool, t);
        if let Some(p) = h.to_pin(tool) {
            return Ok((p, PinSource::Config));
        }
    }
    match legacy {
        Some(p) => Ok((p, PinSource::Legacy)),
        None => Err(missing_pin_message(tool, where_to, config_text)),
    }
}

/// One step of a run of the engine, in the order a run takes them. The host
/// performs each and reports back only whether a config was found; a step
/// that fails ends the run with its error.
#[derive(Debug, Clone, Copy, PartialEq, Eq)]
pub enum Step {
    /// See whether the launcher's own branch moved, and update if it did.
    CheckForUpdate,
    /// Find the repo root.
    FindRoot,
    /// Find the config under the root, and the working directory it maps.
    FindConfig,
    /// Run the tool's check on the repo's state, if it has one.
    VerifyRepo,
    /// Run the tool's preparation of the repo, if it has one.
    PrepareRepo,
    /// Find the cache root.
    FindCache,
    /// Build the engine from the checkout the override names.
    BuildCheckout,
    /// Read the pin and resolve it to build attempts and a key.
    ResolvePin,
    /// Build the pinned engine into the cache, unless it is there.
    BuildPinned,
    /// Record the run in the registry and collect what nothing pins.
    RecordAndCollect,
    /// Build the pinned engine again if a collection evicted it meanwhile.
    RebuildIfEvicted,
    /// Hand the process over to the engine.
    ExecEngine,
}

/// The step after `done` (`None` before the first): the update check only
/// without the override; the repo's preparation only when a config was found;
/// then, under the override, the checkout's build, and otherwise the pin, its
/// build, the registry and the recheck of the build; the engine last.
pub open spec fn next_spec(done: Option<Step>, override_given: bool, config_found: bool) -> Option<Step> {
    match done {
        None => Some(if override_given { Step::FindRoot } else { Step::CheckForUpdate }),
        Some(Step::CheckForUpdate) => Some(Step::FindRoot),
        Some(Step::FindRoot) => Some(Step::FindConfig),
        Some(Step::FindConfig) => Some(Step::VerifyRepo),
        Some(Step::VerifyRepo) => Some(if config_found { Step::PrepareRepo } else { Step::FindCache }),
        Some(Step::PrepareRepo) => Some(Step::FindCache),
        Some(Step::FindCache) => Some(if override_given { Step::BuildCheckout } else { Step::ResolvePin }),
        Some(Step::BuildCheckout) => Some(Step::ExecEngine),
        Some(Step::ResolvePin) => Some(Step::BuildPinned),
        Some(Step::BuildPinned) => Some(Step::RecordAndCollect),
        Some(Step::RecordAndCollect) => Some(Step::RebuildIfEvicted),
        Some(Step::RebuildIfEvicted) => Some(Step::ExecEngine),
        Some(Step::ExecEngine) => None,
    }
}

/// The step a run takes after `done`. See [`next_spec`].
pub fn next_step(done: Option<Step>, override_given: bool, config_found: bool) -> (r: Option<Step>)
    ensures
        r == next_spec(done, override_given, config_found),
{
    match done {
        None => Some(if override_given { Step::FindRoot } else { Step::CheckForUpdate }),
        Some(Step::CheckForUpdate) => Some(Step::FindRoot),
        Some(Step::FindRoot) => Some(Step::FindConfig),
        Some(Step::FindConfig) => Some(Step::VerifyRepo),
        Some(Step::VerifyRepo) => Some(if config_found { Step::PrepareRepo } else { Step::FindCache }),
        Some(Step::PrepareRepo) => Some(Step::FindCache),
        Some(Step::FindCache) => Some(if override_given { Step::BuildCheckout } else { Step::ResolvePin }),
        Some(Step::BuildCheckout) => Some(Step::ExecEngine),
        Some(Step::ResolvePin) => Some(Step::BuildPinned),
        Some(Step::BuildPinned) => Some(Step::RecordAndCollect),
        Some(Step::RecordAndCollect) => Some(Step::RebuildIfEvicted),
        Some(Step::RebuildIfEvicted) => Some(Step::ExecEngine),
        Some(Step::ExecEngine) => None,
    }
}

/// The steps a run takes after `done`, at most `fuel` of them.
pub open spec fn steps_after(done: Option<Step>, override_given: bool, config_found: bool, fuel: nat) -> Seq<Step>
    decreases fuel,
{
    if fuel == 0 {
        Seq::empty()
    } else {
        match next_spec(done, override_given, config_found) {
            None => Seq::empty(),
            Some(s) => seq![s] + steps_after(Some(s), override_given, config_found, (fuel - 1) as nat),
        }
    }
}

/// Every step of a run, first to last.
pub open spec fn run_steps(override_given: bool, config_found: bool) -> Seq<Step> {
    steps_after(None, override_given, config_found, 16)
}

/// What a run does, whole: under the engine override it neither updates the
/// launcher, nor resolves a pin, nor records anything in the registry, and
/// builds the checkout straight before the exec; without it, it checks for an
/// update first and records the run before the exec, checking the build is
/// still there after recording. The repo is prepared only when it has a
/// config, after its state was verified and before anything is built. Every
/// run ends by handing over to the engine.
pub proof fn law_the_run_takes_these_steps(override_given: bool, config_found: bool)
    ensures
        run_steps(override_given, config_found) == (if override_given {
            seq![Step::FindRoot, Step::FindConfig, Step::VerifyRepo]
        } else {
            seq![Step::CheckForUpdate, Step::FindRoot, Step::FindConfig, Step::VerifyRepo]
        }) + (if config_found {
            seq![Step::PrepareRepo, Step::FindCache]
        } else {
            seq![Step::FindCache]
        }) + (if override_given {
            seq![Step::BuildCheckout, Step::ExecEngine]
        } else {
            seq![Step::ResolvePin, Step::BuildPinned, Step::RecordAndCollect, Step::RebuildIfEvicted, Step::ExecEngine]
        }),
{
    reveal_with_fuel(steps_after, 14);
    let o = override_given;
    let c = config_found;
    let front: Seq<Step> = if o {
        seq![Step::FindRoot, Step::FindConfig, Step::VerifyRepo]
    } else {
        seq![Step::CheckForUpdate, Step::FindRoot, Step::FindConfig, Step::VerifyRepo]
    };
    let mid: Seq<Step> = if c {
        seq![Step::PrepareRepo, Step::FindCache]
    } else {
        seq![Step::FindCache]
    };
    let back: Seq<Step> = if o {
        seq![Step::BuildCheckout, Step::ExecEngine]
    } else {
        seq![Step::ResolvePin, Step::BuildPinned, Step::RecordAndCollect, Step::RebuildIfEvicted, Step::ExecEngine]
    };
    assert(run_steps(o, c) =~= front + mid + back);
}

} // verus!
