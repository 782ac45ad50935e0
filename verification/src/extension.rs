//! Extensions: many tools, resolved at run time, each materialised by a backend.
//!
//! A host reads a set of tool descriptors out of its own configuration, so the
//! tools are heterogeneous, their backends are named by a string rather than
//! known statically, and most of what the host does with them (listing them,
//! printing what they offer, telling somebody a command does not exist) must
//! not fetch anything at all. So the api splits on whether it touches the
//! disk: a [`Descriptor`] is a parsed `tool.toml` and nothing more, and what
//! a run does with one is decided here and carried out by the caller.

use vstd::prelude::*;

use crate::engine::views;
use crate::hash::{fnv_fields, hex16, Fnv};
use crate::path::{is_absolute, join, join_spec};
use crate::text::{cat, chars_of, has_infix, has_prefix, is_hex, owned, same, strip_prefix, strip_prefix_spec};
use crate::manifest::str_views;
use crate::toml_doc::{
    doc_view, entries_view, find, items_view, lemma_entries_view, lemma_items_view, lookup,
    parse_toml, toml_document, value_view, DocView, TomlValue, ValueView,
};
use crate::pin::{attempt_views, Resolved};
use crate::tool::{bin_name, unicode_upper, Tool};

verus! {

/// Where a tool's material comes from.
#[derive(Debug, Clone, PartialEq, Eq)]
pub enum Source {
    /// A remote repository and the revision to take.
    Git {
        /// The repository to fetch from.
        url: String,
        /// The revision to take: a full object name.
        rev: String,
    },
    /// A directory, relative to the workspace root.
    Path {
        /// The directory, relative to the workspace root.
        path: String,
    },
}

/// One command a tool offers.
#[derive(Debug, Clone, PartialEq, Eq)]
pub struct CommandDef {
    /// What the host invokes it as.
    pub name: String,
    /// One line. It is what a listing shows.
    pub summary: String,
    /// The executable, relative to the materialised tool's root.
    pub run: String,
}

/// A parsed `tool.toml`. No i/o has happened and none is needed to read it.
#[derive(Debug, Clone, PartialEq, Eq)]
pub struct Descriptor {
    /// What the host invokes the tool as.
    pub name: String,
    /// One line, shown in listings.
    pub summary: String,
    /// For finding a tool without knowing its name.
    pub tags: Vec<String>,
    /// Which backend materialises it, matched against a [`Registry`].
    pub backend: String,
    /// Where its material comes from.
    pub source: Source,
    /// Every command it offers.
    pub commands: Vec<CommandDef>,
    /// Whether the host should also expose this tool as a top level
    /// subcommand of its own.
    pub promote: bool,
}

/// A source as characters.
pub enum SourceView {
    /// A repository and a revision.
    Git { url: Seq<char>, rev: Seq<char> },
    /// A workspace-relative directory.
    Path { path: Seq<char> },
}

/// A command as characters: name, summary, run.
pub type CommandView = (Seq<char>, Seq<char>, Seq<char>);

/// A descriptor as characters.
pub struct DescriptorView {
    pub name: Seq<char>,
    pub summary: Seq<char>,
    pub tags: Seq<Seq<char>>,
    pub backend: Seq<char>,
    pub source: SourceView,
    pub commands: Seq<CommandView>,
    pub promote: bool,
}

impl View for Source {
    type V = SourceView;

    open spec fn view(&self) -> SourceView {
        match self {
            Source::Git { url, rev } => SourceView::Git { url: url@, rev: rev@ },
            Source::Path { path } => SourceView::Path { path: path@ },
        }
    }
}

impl View for CommandDef {
    type V = CommandView;

    open spec fn view(&self) -> CommandView {
        (self.name@, self.summary@, self.run@)
    }
}

/// The views of a list of commands.
pub open spec fn command_views(v: Seq<CommandDef>) -> Seq<CommandView> {
    v.map_values(|c: CommandDef| c@)
}

impl View for Descriptor {
    type V = DescriptorView;

    open spec fn view(&self) -> DescriptorView {
        DescriptorView {
            name: self.name@,
            summary: self.summary@,
            tags: views(self.tags@),
            backend: self.backend@,
            source: self.source@,
            commands: command_views(self.commands@),
            promote: self.promote,
        }
    }
}

/// The URL schemes a git source may use.
pub open spec fn schemes() -> Seq<Seq<char>> {
    seq!["https://"@, "ssh://"@, "git://"@, "git@"@]
}

/// What follows the first accepted scheme `url` begins with, if any.
pub open spec fn after_scheme(url: Seq<char>) -> Option<Seq<char>> {
    if has_prefix(url, "https://"@) {
        strip_prefix_spec(url, "https://"@)
    } else if has_prefix(url, "ssh://"@) {
        strip_prefix_spec(url, "ssh://"@)
    } else if has_prefix(url, "git://"@) {
        strip_prefix_spec(url, "git://"@)
    } else {
        strip_prefix_spec(url, "git@"@)
    }
}

/// Whether text begins with a `-`, the shape of a flag.
pub open spec fn dashed(s: Seq<char>) -> bool {
    s.len() > 0 && s[0] == '-'
}

/// Whether a relative path has a `..` component.
pub open spec fn climbs(p: Seq<char>) -> bool {
    exists|i: int|
        0 <= i && i + 2 <= p.len() && #[trigger] p[i] == '.' && p[i + 1] == '.' && (i == 0 || p[i
            - 1] == '/') && (i + 2 == p.len() || p[i + 2] == '/')
}

/// Whether a path can only ever resolve under the root it is joined to: it is
/// not absolute and no component of it is `..`.
pub open spec fn stays_inside_spec(p: Seq<char>) -> bool {
    !is_absolute(p) && !climbs(p)
}

/// Whether a revision is a full object name: forty hexadecimal digits under
/// sha-1, sixty-four under sha-256.
pub open spec fn full_object_name(rev: Seq<char>) -> bool {
    (rev.len() == 40 || rev.len() == 64) && forall|i: int| 0 <= i < rev.len() ==> is_hex(#[trigger] rev[i])
}

/// The refusal of a source value: the tool, what kind of value, and the value.
pub open spec fn bad_value(name: Seq<char>, what: Seq<char>, v: Seq<char>) -> Seq<char> {
    "the tool `"@ + name + "` has a "@ + what + " of `"@ + v + "`, which is not one"@
}

/// The refusal of a command whose `run` could leave the tool.
pub open spec fn bad_run(name: Seq<char>, c: CommandView) -> Seq<char> {
    "the tool `"@ + name + "` has a command `"@ + c.0 + "` that runs `"@ + c.2 + "`, which is not inside it"@
}

/// The first command whose `run` could name something outside the tool.
pub open spec fn first_bad_run(cs: Seq<CommandView>) -> Option<CommandView>
    decreases cs.len(),
{
    if cs.len() == 0 {
        None
    } else if cs[0].2.len() == 0 || dashed(cs[0].2) || !stays_inside_spec(cs[0].2) {
        Some(cs[0])
    } else {
        first_bad_run(cs.subrange(1, cs.len() as int))
    }
}

/// What [`Descriptor::check`] decides: the source first, then each command.
pub open spec fn check_spec(d: DescriptorView) -> Result<(), Seq<char>> {
    let source_ok: Result<(), Seq<char>> = match d.source {
        SourceView::Git { url, rev } => if !full_object_name(rev) {
            Err(bad_value(d.name, "revision"@, rev))
        } else {
            match after_scheme(url) {
                None => Err(bad_value(d.name, "url"@, url)),
                Some(rest) => if dashed(rest) || rest.len() == 0 {
                    Err(bad_value(d.name, "url"@, url))
                } else {
                    Ok(())
                },
            }
        },
        SourceView::Path { path } => if path.len() == 0 || dashed(path) || !stays_inside_spec(path) {
            Err(bad_value(d.name, "path"@, path))
        } else {
            Ok(())
        },
    };
    match source_ok {
        Err(e) => Err(e),
        Ok(()) => match first_bad_run(d.commands) {
            Some(c) => Err(bad_run(d.name, c)),
            None => Ok(()),
        },
    }
}

/// Whether a command's `run` can only name a file inside the tool: it is not
/// empty, does not read as a flag, is not absolute and has no `..` component.
pub open spec fn run_stays_inside(c: CommandView) -> bool {
    c.2.len() > 0 && !dashed(c.2) && stays_inside_spec(c.2)
}

proof fn lemma_no_bad_run(cs: Seq<CommandView>)
    requires
        first_bad_run(cs) is None,
    ensures
        forall|i: int| 0 <= i < cs.len() ==> run_stays_inside(#[trigger] cs[i]),
    decreases cs.len(),
{
    if cs.len() > 0 {
        let t = cs.subrange(1, cs.len() as int);
        lemma_no_bad_run(t);
        assert forall|i: int| 0 <= i < cs.len() implies run_stays_inside(#[trigger] cs[i]) by {
            if i > 0 {
                assert(cs[i] == t[i - 1]);
            }
        }
    }
}

/// What a descriptor that [`Descriptor::check`] accepts cannot reach: every command runs a
/// file inside the tool, a git source names a full object name on an accepted
/// scheme with something after it that is not a flag, and a path source is a
/// nonempty relative path that cannot climb out of the workspace.
pub proof fn law_a_checked_descriptor_stays_inside(d: DescriptorView)
    requires
        check_spec(d) is Ok,
    ensures
        forall|i: int| 0 <= i < d.commands.len() ==> run_stays_inside(#[trigger] d.commands[i]),
        match d.source {
            SourceView::Git { url, rev } => full_object_name(rev) && (after_scheme(url) matches Some(rest) && rest.len() > 0 && !dashed(rest)),
            SourceView::Path { path } => path.len() > 0 && !dashed(path) && stays_inside_spec(path),
        },
{
    lemma_no_bad_run(d.commands);
}

/// Whether a value reads as data inside its root: not empty, not spelled as
/// a flag, not absolute, and with no `..` component.
pub open spec fn value_ok(s: Seq<char>) -> bool {
    s.len() > 0 && !dashed(s) && stays_inside_spec(s)
}

/// Whether a url is one of the accepted schemes followed by something that is
/// not empty and not spelled as a flag.
pub open spec fn url_ok(url: Seq<char>) -> bool {
    exists|j: int, x: Seq<char>|
        0 <= j < schemes().len() && #[trigger] (schemes()[j] + x) == url && x.len() > 0 && !dashed(x)
}

/// Whether a source reads as data: a git source with a full object name of
/// forty or sixty-four hexadecimal digits and an accepted url, or a path
/// source whose path reads as data.
pub open spec fn source_ok(src: SourceView) -> bool {
    match src {
        SourceView::Git { url, rev } => (rev.len() == 40 || rev.len() == 64) && (forall|i: int|
            0 <= i < rev.len() ==> is_hex(#[trigger] rev[i])) && url_ok(url),
        SourceView::Path { path } => value_ok(path),
    }
}

proof fn lemma_runs_all_ok(cs: Seq<CommandView>)
    requires
        forall|i: int| 0 <= i < cs.len() ==> value_ok(#[trigger] cs[i].2),
    ensures
        first_bad_run(cs) is None,
    decreases cs.len(),
{
    if cs.len() > 0 {
        let t = cs.subrange(1, cs.len() as int);
        assert forall|i: int| 0 <= i < t.len() implies value_ok(#[trigger] t[i].2) by {
            assert(t[i] == cs[i + 1]);
        }
        assert(value_ok(cs[0].2));
        lemma_runs_all_ok(t);
    }
}

proof fn lemma_url_ok(url: Seq<char>)
    ensures
        url_ok(url) == (after_scheme(url) matches Some(rest) && rest.len() > 0 && !dashed(rest)),
{
    reveal_strlit("https://");
    reveal_strlit("ssh://");
    reveal_strlit("git://");
    reveal_strlit("git@");
    let sc = schemes();
    assert(sc[0] == "https://"@ && sc[1] == "ssh://"@ && sc[2] == "git://"@ && sc[3] == "git@"@);
    if let Some(rest) = after_scheme(url) {
        if rest.len() > 0 && !dashed(rest) {
            let j: int = if has_prefix(url, "https://"@) {
                0
            } else if has_prefix(url, "ssh://"@) {
                1
            } else if has_prefix(url, "git://"@) {
                2
            } else {
                3
            };
            assert(has_prefix(url, sc[j]));
            assert(rest == url.subrange(sc[j].len() as int, url.len() as int));
            assert(sc[j] + rest =~= url) by {
                assert(url.subrange(0, sc[j].len() as int) == sc[j]);
            }
            assert(url_ok(url));
        }
    }
    if url_ok(url) {
        let (j, x) = choose|j: int, x: Seq<char>|
            0 <= j < schemes().len() && #[trigger] (schemes()[j] + x) == url && x.len() > 0 && !dashed(x);
        let p = sc[j];
        assert(url.subrange(0, p.len() as int) =~= p);
        assert(url.subrange(p.len() as int, url.len() as int) =~= x);
        assert(url[0] == p[0]);
        if j >= 1 {
            assert(!has_prefix(url, "https://"@)) by {
                if has_prefix(url, "https://"@) {
                    assert(url.subrange(0, 8)[0] == url[0]);
                }
            }
        }
        if j >= 2 {
            assert(!has_prefix(url, "ssh://"@)) by {
                if has_prefix(url, "ssh://"@) {
                    assert(url.subrange(0, 6)[0] == url[0]);
                }
            }
        }
        if j == 3 {
            assert(url[3] == p[3]);
            assert(!has_prefix(url, "git://"@)) by {
                if has_prefix(url, "git://"@) {
                    assert(url.subrange(0, 6)[3] == url[3]);
                }
            }
        }
    }
}

/// What [`Descriptor::check`] accepts, in so many words: exactly a
/// descriptor whose source reads as data (see [`source_ok`]) and every one of
/// whose commands runs a value that reads as data.
pub proof fn law_what_the_check_accepts(d: DescriptorView)
    ensures
        (check_spec(d) is Ok) == (source_ok(d.source) && forall|i: int|
            0 <= i < d.commands.len() ==> value_ok(#[trigger] d.commands[i].2)),
{
    if let SourceView::Git { url, rev } = d.source {
        lemma_url_ok(url);
    }
    if check_spec(d) is Ok {
        lemma_no_bad_run(d.commands);
        assert forall|i: int| 0 <= i < d.commands.len() implies value_ok(#[trigger] d.commands[i].2) by {
            assert(run_stays_inside(d.commands[i]));
        }
    }
    if forall|i: int| 0 <= i < d.commands.len() ==> value_ok(#[trigger] d.commands[i].2) {
        lemma_runs_all_ok(d.commands);
    }
}

/// The first command named `name`.
pub open spec fn find_command(cs: Seq<CommandView>, name: Seq<char>) -> Option<CommandView>
    decreases cs.len(),
{
    if cs.len() == 0 {
        None
    } else if cs[0].0 == name {
        Some(cs[0])
    } else {
        find_command(cs.subrange(1, cs.len() as int), name)
    }
}

/// Whether a relative path can only ever resolve under the root it is joined
/// to. See [`stays_inside_spec`].
pub fn stays_inside(p: &str) -> (r: bool)
    ensures
        r == stays_inside_spec(p@),
{
    let x = chars_of(p);
    let n = x.len();
    if n > 0 && x[0] == '/' {
        return false;
    }
    let mut i: usize = 0;
    while i < n
        invariant
            x@ == p@,
            n == x@.len(),
            i <= n,
            forall|k: int|
                0 <= k < i ==> !(k + 2 <= p@.len() && #[trigger] p@[k] == '.' && p@[k + 1] == '.' && (k
                    == 0 || p@[k - 1] == '/') && (k + 2 == p@.len() || p@[k + 2] == '/')),
        decreases n - i,
    {
        if n - i >= 2 && x[i] == '.' && x[i + 1] == '.' && (i == 0 || x[i - 1] == '/') && (n - i == 2
            || x[i + 2] == '/') {
            assert(climbs(p@));
            return false;
        }
        i = i + 1;
    }
    true
}

/// Whether every character is a hexadecimal digit and the length is that of a
/// full object name.
fn is_full_object_name(rev: &str) -> (r: bool)
    ensures
        r == full_object_name(rev@),
{
    let x = chars_of(rev);
    if x.len() != 40 && x.len() != 64 {
        return false;
    }
    let mut i: usize = 0;
    while i < x.len()
        invariant
            x@ == rev@,
            i <= x@.len(),
            forall|j: int| 0 <= j < i ==> is_hex(#[trigger] rev@[j]),
        decreases x.len() - i,
    {
        let c = x[i];
        if !(('0' <= c && c <= '9') || ('a' <= c && c <= 'f') || ('A' <= c && c <= 'F')) {
            assert(!is_hex(rev@[i as int]));
            return false;
        }
        i = i + 1;
    }
    true
}

/// What follows the first accepted scheme, if the url has one.
fn strip_scheme(url: &str) -> (r: Option<String>)
    ensures
        match r {
            Some(s) => after_scheme(url@) == Some(s@),
            None => after_scheme(url@) is None,
        },
{
    if crate::text::starts_with(url, "https://") {
        strip_prefix(url, "https://")
    } else if crate::text::starts_with(url, "ssh://") {
        strip_prefix(url, "ssh://")
    } else if crate::text::starts_with(url, "git://") {
        strip_prefix(url, "git://")
    } else {
        strip_prefix(url, "git@")
    }
}

fn is_dashed(s: &str) -> (r: bool)
    ensures
        r == dashed(s@),
{
    let x = chars_of(s);
    x.len() > 0 && x[0] == '-'
}

fn bad_value_exec(name: &str, what: &str, v: &str) -> (r: String)
    ensures
        r@ == bad_value(name@, what@, v@),
{
    let mut m = owned("the tool `");
    m.append(name);
    m.append("` has a ");
    m.append(what);
    m.append(" of `");
    m.append(v);
    m.append("`, which is not one");
    m
}

impl Descriptor {
    /// Refuse a descriptor whose values a fetcher or a spawn would read as
    /// something other than data: a revision that is not a full object name
    /// (a leading dash being the worst of those), a url on no scheme git is
    /// known to take or whose host begins with a dash, a path or a command's
    /// `run` that is empty, dashed, absolute, or climbs out with `..`.
    pub fn check(&self) -> (r: Result<(), String>)
        ensures
            match r {
                Ok(()) => check_spec(self@) == Ok::<(), Seq<char>>(()),
                Err(e) => check_spec(self@) == Err::<(), Seq<char>>(e@),
            },
    {
        let name = self.name.as_str();
        proof {
            reveal_strlit("revision");
            reveal_strlit("url");
            reveal_strlit("path");
        }
        match &self.source {
            Source::Git { url, rev } => {
                if !is_full_object_name(rev.as_str()) {
                    return Err(bad_value_exec(name, "revision", rev.as_str()));
                }
                match strip_scheme(url.as_str()) {
                    None => return Err(bad_value_exec(name, "url", url.as_str())),
                    Some(rest) => {
                        if is_dashed(rest.as_str()) || rest.unicode_len() == 0 {
                            return Err(bad_value_exec(name, "url", url.as_str()));
                        }
                    },
                }
            },
            Source::Path { path } => {
                if path.unicode_len() == 0 || is_dashed(path.as_str()) || !stays_inside(
                    path.as_str(),
                ) {
                    return Err(bad_value_exec(name, "path", path.as_str()));
                }
            },
        }
        let ghost cs = command_views(self.commands@);
        assert(cs.subrange(0, cs.len() as int) =~= cs);
        let mut i: usize = 0;
        while i < self.commands.len()
            invariant
                i <= self.commands@.len(),
                cs == command_views(self.commands@),
                name@ == self.name@,
                check_spec(self@) == match first_bad_run(cs.subrange(i as int, cs.len() as int)) {
                    Some(c) => Err(bad_run(self.name@, c)),
                    None => Ok::<(), Seq<char>>(()),
                },
            decreases self.commands.len() - i,
        {
            let c = &self.commands[i];
            let ghost tail = cs.subrange(i as int, cs.len() as int);
            assert(tail[0] == c@);
            assert(tail.subrange(1, tail.len() as int) =~= cs.subrange(i + 1, cs.len() as int));
            if c.run.unicode_len() == 0 || is_dashed(c.run.as_str()) || !stays_inside(c.run.as_str()) {
                let mut m = owned("the tool `");
                m.append(name);
                m.append("` has a command `");
                m.append(c.name.as_str());
                m.append("` that runs `");
                m.append(c.run.as_str());
                m.append("`, which is not inside it");
                return Err(m);
            }
            i = i + 1;
        }
        Ok(())
    }

    /// One command by name: the first of that name.
    pub fn command(&self, name: &str) -> (r: Option<&CommandDef>)
        ensures
            match r {
                Some(c) => find_command(command_views(self.commands@), name@) == Some(c@),
                None => find_command(command_views(self.commands@), name@) is None,
            },
    {
        let ghost cs = command_views(self.commands@);
        assert(cs.subrange(0, cs.len() as int) =~= cs);
        let mut i: usize = 0;
        while i < self.commands.len()
            invariant
                i <= self.commands@.len(),
                cs == command_views(self.commands@),
                find_command(cs, name@) == find_command(cs.subrange(i as int, cs.len() as int), name@),
            decreases self.commands.len() - i,
        {
            let ghost tail = cs.subrange(i as int, cs.len() as int);
            assert(tail[0] == self.commands@[i as int]@);
            assert(tail.subrange(1, tail.len() as int) =~= cs.subrange(i + 1, cs.len() as int));
            if same(self.commands[i].name.as_str(), name) {
                return Some(&self.commands[i]);
            }
            i = i + 1;
        }
        None
    }
}

/// The first key of a table that is none of `allowed`.
pub open spec fn first_unknown(t: DocView, allowed: Seq<Seq<char>>) -> Option<Seq<char>>
    decreases t.len(),
{
    if t.len() == 0 {
        None
    } else if !allowed.contains(t[0].0) {
        Some(t[0].0)
    } else {
        first_unknown(t.subrange(1, t.len() as int), allowed)
    }
}

/// A required key that is absent.
pub open spec fn missing(k: Seq<char>) -> Seq<char> {
    "missing field `"@ + k + "`"@
}

/// A key the schema does not have.
pub open spec fn unknown_field(k: Seq<char>) -> Seq<char> {
    "unknown field `"@ + k + "`"@
}

/// A key holding the wrong kind of value.
pub open spec fn wrong_type(k: Seq<char>, what: Seq<char>) -> Seq<char> {
    "invalid type for `"@ + k + "`, expected "@ + what
}

/// A required string.
pub open spec fn req_str(t: DocView, k: Seq<char>) -> Result<Seq<char>, Seq<char>> {
    match lookup(t, k) {
        None => Err(missing(k)),
        Some(ValueView::Str(s)) => Ok(s),
        Some(_) => Err(wrong_type(k, "a string"@)),
    }
}

/// Every item, when every item is a string.
pub open spec fn all_strings(items: Seq<ValueView>) -> Option<Seq<Seq<char>>>
    decreases items.len(),
{
    if items.len() == 0 {
        Some(Seq::empty())
    } else {
        match all_strings(items.drop_last()) {
            None => None,
            Some(v) => match items.last() {
                ValueView::Str(s) => Some(v.push(s)),
                _ => None,
            },
        }
    }
}

/// The keys a descriptor table may hold.
pub open spec fn descriptor_fields() -> Seq<Seq<char>> {
    seq!["name"@, "summary"@, "tags"@, "backend"@, "source"@, "commands"@, "promote"@]
}

/// The keys a command table may hold.
pub open spec fn command_fields() -> Seq<Seq<char>> {
    seq!["name"@, "summary"@, "run"@]
}

/// The keys a git source may hold.
pub open spec fn git_fields() -> Seq<Seq<char>> {
    seq!["url"@, "rev"@]
}

/// The keys a path source may hold.
pub open spec fn path_fields() -> Seq<Seq<char>> {
    seq!["path"@]
}

/// A descriptor's tags: none when absent, else an array of strings.
pub open spec fn tags_of(t: DocView) -> Result<Seq<Seq<char>>, Seq<char>> {
    match lookup(t, "tags"@) {
        None => Ok(Seq::empty()),
        Some(ValueView::Array(items)) => match all_strings(items) {
            Some(v) => Ok(v),
            None => Err(wrong_type("tags"@, "an array of strings"@)),
        },
        Some(_) => Err(wrong_type("tags"@, "an array of strings"@)),
    }
}

/// One command table.
pub open spec fn command_of(v: ValueView) -> Result<CommandView, Seq<char>> {
    match v {
        ValueView::Table(c) => match first_unknown(c, command_fields()) {
            Some(k) => Err(unknown_field(k)),
            None => match req_str(c, "name"@) {
                Err(e) => Err(e),
                Ok(n) => match req_str(c, "summary"@) {
                    Err(e) => Err(e),
                    Ok(s) => match req_str(c, "run"@) {
                        Err(e) => Err(e),
                        Ok(r) => Ok((n, s, r)),
                    },
                },
            },
        },
        _ => Err(wrong_type("commands"@, "an array of tables"@)),
    }
}

/// Every command table, in order, or the first one's refusal.
pub open spec fn commands_of_items(items: Seq<ValueView>) -> Result<Seq<CommandView>, Seq<char>>
    decreases items.len(),
{
    if items.len() == 0 {
        Ok(Seq::empty())
    } else {
        match commands_of_items(items.drop_last()) {
            Err(e) => Err(e),
            Ok(v) => match command_of(items.last()) {
                Err(e) => Err(e),
                Ok(c) => Ok(v.push(c)),
            },
        }
    }
}

/// A descriptor's commands: none when absent, else an array of tables.
pub open spec fn commands_of(t: DocView) -> Result<Seq<CommandView>, Seq<char>> {
    match lookup(t, "commands"@) {
        None => Ok(Seq::empty()),
        Some(ValueView::Array(items)) => commands_of_items(items),
        Some(_) => Err(wrong_type("commands"@, "an array of tables"@)),
    }
}

/// The refusal of a source table that does not name exactly one kind.
pub open spec fn source_shape() -> Seq<char> {
    "a table naming one of `git` or `path`"@
}

/// A descriptor's source: a table naming exactly one of `git` (a url and a
/// revision) or `path` (a path).
pub open spec fn source_of(t: DocView) -> Result<SourceView, Seq<char>> {
    match lookup(t, "source"@) {
        None => Err(missing("source"@)),
        Some(ValueView::Table(s)) => if s.len() != 1 {
            Err(wrong_type("source"@, source_shape()))
        } else if s[0].0 == "git"@ {
            match s[0].1 {
                ValueView::Table(g) => match first_unknown(g, git_fields()) {
                    Some(k) => Err(unknown_field(k)),
                    None => match req_str(g, "url"@) {
                        Err(e) => Err(e),
                        Ok(url) => match req_str(g, "rev"@) {
                            Err(e) => Err(e),
                            Ok(rev) => Ok(SourceView::Git { url, rev }),
                        },
                    },
                },
                _ => Err(wrong_type("git"@, "a table"@)),
            }
        } else if s[0].0 == "path"@ {
            match s[0].1 {
                ValueView::Table(g) => match first_unknown(g, path_fields()) {
                    Some(k) => Err(unknown_field(k)),
                    None => match req_str(g, "path"@) {
                        Err(e) => Err(e),
                        Ok(path) => Ok(SourceView::Path { path }),
                    },
                },
                _ => Err(wrong_type("path"@, "a table"@)),
            }
        } else {
            Err("unknown variant `"@ + s[0].0 + "`, expected `git` or `path`"@)
        },
        Some(_) => Err(wrong_type("source"@, source_shape())),
    }
}

/// A descriptor's promotion: false when absent, else a boolean.
pub open spec fn promote_of(t: DocView) -> Result<bool, Seq<char>> {
    match lookup(t, "promote"@) {
        None => Ok(false),
        Some(ValueView::Bool(b)) => Ok(b),
        Some(_) => Err(wrong_type("promote"@, "a boolean"@)),
    }
}

/// The descriptor a document's `[tool]` table describes, field by field in
/// the order name, summary, tags, backend, source, commands, promote, after
/// refusing any key the table may not hold. Other top-level keys are ignored.
pub open spec fn descriptor_of(doc: DocView) -> Result<DescriptorView, Seq<char>> {
    match lookup(doc, "tool"@) {
        None => Err(missing("tool"@)),
        Some(ValueView::Table(t)) => match first_unknown(t, descriptor_fields()) {
            Some(k) => Err(unknown_field(k)),
            None => match req_str(t, "name"@) {
                Err(e) => Err(e),
                Ok(name) => match req_str(t, "summary"@) {
                    Err(e) => Err(e),
                    Ok(summary) => match tags_of(t) {
                        Err(e) => Err(e),
                        Ok(tags) => match req_str(t, "backend"@) {
                            Err(e) => Err(e),
                            Ok(backend) => match source_of(t) {
                                Err(e) => Err(e),
                                Ok(source) => match commands_of(t) {
                                    Err(e) => Err(e),
                                    Ok(commands) => match promote_of(t) {
                                        Err(e) => Err(e),
                                        Ok(promote) => Ok(
                                            DescriptorView {
                                                name,
                                                summary,
                                                tags,
                                                backend,
                                                source,
                                                commands,
                                                promote,
                                            },
                                        ),
                                    },
                                },
                            },
                        },
                    },
                },
            },
        },
        Some(_) => Err(wrong_type("tool"@, "a table"@)),
    }
}

/// What reading a `tool.toml` gives: the descriptor, checked, or why not. A
/// text that is not TOML, or does not describe a tool, is refused as
/// unreadable; one that does is then held to [`check_spec`].
pub open spec fn parse_spec(text: Seq<char>) -> Result<DescriptorView, Seq<char>> {
    match toml_document(text) {
        Err(e) => Err("could not read the tool descriptor: "@ + e),
        Ok(doc) => match descriptor_of(doc) {
            Err(e) => Err("could not read the tool descriptor: "@ + e),
            Ok(d) => match check_spec(d) {
                Err(e) => Err(e),
                Ok(()) => Ok(d),
            },
        },
    }
}

/// The first key of a table that is none of `allowed`.
fn first_unknown_exec(t: &Vec<(String, TomlValue)>, allowed: &[&str]) -> (r: Option<String>)
    ensures
        crate::toml_doc::opt_view(r) == first_unknown(doc_view(t@), str_views(allowed@)),
{
    let ghost d = doc_view(t@);
    let ghost al = str_views(allowed@);
    proof {
        lemma_entries_view(t@);
    }
    assert(d.subrange(0, d.len() as int) =~= d);
    let mut i: usize = 0;
    while i < t.len()
        invariant
            i <= t@.len(),
            d == doc_view(t@),
            al == str_views(allowed@),
            d.len() == t@.len(),
            forall|j: int| 0 <= j < t@.len() ==> #[trigger] d[j] == (t@[j].0@, t@[j].1@),
            first_unknown(d, al) == first_unknown(d.subrange(i as int, d.len() as int), al),
        decreases t.len() - i,
    {
        let ghost tail = d.subrange(i as int, d.len() as int);
        assert(tail[0] == d[i as int]);
        assert(tail.subrange(1, tail.len() as int) =~= d.subrange(i + 1, d.len() as int));
        let key = t[i].0.as_str();
        let mut known = false;
        let mut j: usize = 0;
        while j < allowed.len()
            invariant
                j <= allowed@.len(),
                al == str_views(allowed@),
                known == (exists|m: int| 0 <= m < j && al[m] == key@),
            decreases allowed.len() - j,
        {
            let hit = same(key, allowed[j]);
            proof {
                assert(al[j as int] == allowed@[j as int]@);
                if hit {
                    assert(al[j as int] == key@);
                }
            }
            if hit {
                known = true;
            }
            j = j + 1;
        }
        proof {
            if known {
                let m = choose|m: int| 0 <= m < allowed@.len() && al[m] == key@;
                assert(al.contains(key@));
            } else {
                assert(!al.contains(key@)) by {
                    if al.contains(key@) {
                        let m = choose|m: int| 0 <= m < al.len() && al[m] == key@;
                        assert(0 <= m < allowed@.len());
                    }
                }
            }
        }
        if !known {
            return Some(owned(key));
        }
        i = i + 1;
    }
    None
}

fn missing_exec(k: &str) -> (r: String)
    ensures
        r@ == missing(k@),
{
    let mut m = owned("missing field `");
    m.append(k);
    m.append("`");
    m
}

fn unknown_field_exec(k: &str) -> (r: String)
    ensures
        r@ == unknown_field(k@),
{
    let mut m = owned("unknown field `");
    m.append(k);
    m.append("`");
    m
}

fn wrong_type_exec(k: &str, what: &str) -> (r: String)
    ensures
        r@ == wrong_type(k@, what@),
{
    let mut m = owned("invalid type for `");
    m.append(k);
    m.append("`, expected ");
    m.append(what);
    m
}

fn req_str_exec(t: &Vec<(String, TomlValue)>, k: &str) -> (r: Result<String, String>)
    ensures
        match r {
            Ok(s) => req_str(doc_view(t@), k@) == Ok::<Seq<char>, Seq<char>>(s@),
            Err(e) => req_str(doc_view(t@), k@) == Err::<Seq<char>, Seq<char>>(e@),
        },
{
    match find(t, k) {
        None => Err(missing_exec(k)),
        Some(TomlValue::Str(s)) => Ok(s.clone()),
        Some(_) => Err(wrong_type_exec(k, "a string")),
    }
}

pub(crate) fn all_strings_exec(items: &Vec<TomlValue>) -> (r: Option<Vec<String>>)
    ensures
        match r {
            Some(v) => all_strings(items_view(items@)) == Some(views(v@)),
            None => all_strings(items_view(items@)) is None,
        },
{
    let ghost iv = items_view(items@);
    proof {
        lemma_items_view(items@);
    }
    let mut out: Vec<String> = Vec::new();
    assert(views(out@) =~= Seq::<Seq<char>>::empty());
    assert(iv.subrange(0, 0) =~= Seq::<ValueView>::empty());
    let mut i: usize = 0;
    while i < items.len()
        invariant
            i <= items@.len(),
            iv == items_view(items@),
            iv.len() == items@.len(),
            forall|j: int| 0 <= j < items@.len() ==> #[trigger] iv[j] == items@[j]@,
            all_strings(iv.subrange(0, i as int)) == Some(views(out@)),
        decreases items.len() - i,
    {
        proof {
            let sub = iv.subrange(0, i + 1);
            assert(sub.drop_last() =~= iv.subrange(0, i as int));
            assert(sub.last() == items@[i as int]@);
        }
        match &items[i] {
            TomlValue::Str(s) => {
                let ghost before = out@;
                out.push(s.clone());
                proof {
                    assert(views(out@) =~= views(before).push(s@));
                }
            },
            _ => {
                proof {
                    lemma_all_strings_none(iv, i as int);
                }
                return None;
            },
        }
        i = i + 1;
    }
    assert(iv.subrange(0, iv.len() as int) =~= iv);
    Some(out)
}

proof fn lemma_all_strings_none(iv: Seq<ValueView>, i: int)
    requires
        0 <= i < iv.len(),
        !(iv[i] is Str),
    ensures
        all_strings(iv) is None,
    decreases iv.len(),
{
    if i < iv.len() - 1 {
        lemma_all_strings_none(iv.drop_last(), i);
    }
}

fn command_of_exec(v: &TomlValue) -> (r: Result<CommandDef, String>)
    ensures
        match r {
            Ok(c) => command_of(v@) == Ok::<CommandView, Seq<char>>(c@),
            Err(e) => command_of(v@) == Err::<CommandView, Seq<char>>(e@),
        },
{
    match v {
        TomlValue::Table(c) => {
            let fields: [&str; 3] = ["name", "summary", "run"];
            assert(str_views(fields@) =~= command_fields());
            if let Some(k) = first_unknown_exec(c, &fields) {
                return Err(unknown_field_exec(k.as_str()));
            }
            let n = req_str_exec(c, "name")?;
            let s = req_str_exec(c, "summary")?;
            let r = req_str_exec(c, "run")?;
            Ok(CommandDef { name: n, summary: s, run: r })
        },
        _ => Err(wrong_type_exec("commands", "an array of tables")),
    }
}

fn commands_of_exec(t: &Vec<(String, TomlValue)>) -> (r: Result<Vec<CommandDef>, String>)
    ensures
        match r {
            Ok(c) => commands_of(doc_view(t@)) == Ok::<Seq<CommandView>, Seq<char>>(command_views(c@)),
            Err(e) => commands_of(doc_view(t@)) == Err::<Seq<CommandView>, Seq<char>>(e@),
        },
{
    let items = match find(t, "commands") {
        None => {
            let v: Vec<CommandDef> = Vec::new();
            assert(command_views(v@) =~= Seq::<CommandView>::empty());
            return Ok(v);
        },
        Some(TomlValue::Array(items)) => items,
        Some(_) => return Err(wrong_type_exec("commands", "an array of tables")),
    };
    let ghost iv = items_view(items@);
    proof {
        lemma_items_view(items@);
    }
    let mut out: Vec<CommandDef> = Vec::new();
    assert(command_views(out@) =~= Seq::<CommandView>::empty());
    assert(iv.subrange(0, 0) =~= Seq::<ValueView>::empty());
    let mut i: usize = 0;
    while i < items.len()
        invariant
            i <= items@.len(),
            iv == items_view(items@),
            lookup(doc_view(t@), "commands"@) == Some(ValueView::Array(iv)),
            iv.len() == items@.len(),
            forall|j: int| 0 <= j < items@.len() ==> #[trigger] iv[j] == items@[j]@,
            commands_of_items(iv.subrange(0, i as int)) == Ok::<Seq<CommandView>, Seq<char>>(
                command_views(out@),
            ),
        decreases items.len() - i,
    {
        proof {
            let sub = iv.subrange(0, i + 1);
            assert(sub.drop_last() =~= iv.subrange(0, i as int));
            assert(sub.last() == items@[i as int]@);
        }
        match command_of_exec(&items[i]) {
            Ok(c) => {
                let ghost before = out@;
                out.push(c);
                proof {
                    assert(command_views(out@) =~= command_views(before).push(c@));
                }
            },
            Err(e) => {
                proof {
                    lemma_commands_err(iv, i as int, e@);
                }
                return Err(e);
            },
        }
        i = i + 1;
    }
    assert(iv.subrange(0, iv.len() as int) =~= iv);
    Ok(out)
}

proof fn lemma_commands_err(iv: Seq<ValueView>, i: int, e: Seq<char>)
    requires
        0 <= i < iv.len(),
        commands_of_items(iv.subrange(0, i)) is Ok,
        command_of(iv[i]) == Err::<CommandView, Seq<char>>(e),
    ensures
        commands_of_items(iv) == Err::<Seq<CommandView>, Seq<char>>(e),
    decreases iv.len(),
{
    if i < iv.len() - 1 {
        assert(iv.drop_last().subrange(0, i) =~= iv.subrange(0, i));
        lemma_commands_err(iv.drop_last(), i, e);
    } else {
        assert(iv.drop_last() =~= iv.subrange(0, i));
    }
}

fn source_of_exec(t: &Vec<(String, TomlValue)>) -> (r: Result<Source, String>)
    ensures
        match r {
            Ok(s) => source_of(doc_view(t@)) == Ok::<SourceView, Seq<char>>(s@),
            Err(e) => source_of(doc_view(t@)) == Err::<SourceView, Seq<char>>(e@),
        },
{
    proof {
        reveal_strlit("git");
        reveal_strlit("path");
    }
    let s = match find(t, "source") {
        None => return Err(missing_exec("source")),
        Some(TomlValue::Table(s)) => s,
        Some(_) => return Err(wrong_type_exec("source", "a table naming one of `git` or `path`")),
    };
    proof {
        lemma_entries_view(s@);
    }
    if s.len() != 1 {
        return Err(wrong_type_exec("source", "a table naming one of `git` or `path`"));
    }
    let kind = s[0].0.as_str();
    if same(kind, "git") {
        match &s[0].1 {
            TomlValue::Table(g) => {
                let fields: [&str; 2] = ["url", "rev"];
                assert(str_views(fields@) =~= git_fields());
                if let Some(k) = first_unknown_exec(g, &fields) {
                    return Err(unknown_field_exec(k.as_str()));
                }
                let url = req_str_exec(g, "url")?;
                let rev = req_str_exec(g, "rev")?;
                Ok(Source::Git { url, rev })
            },
            _ => Err(wrong_type_exec("git", "a table")),
        }
    } else if same(kind, "path") {
        match &s[0].1 {
            TomlValue::Table(g) => {
                let fields: [&str; 1] = ["path"];
                assert(str_views(fields@) =~= path_fields());
                if let Some(k) = first_unknown_exec(g, &fields) {
                    return Err(unknown_field_exec(k.as_str()));
                }
                let path = req_str_exec(g, "path")?;
                Ok(Source::Path { path })
            },
            _ => Err(wrong_type_exec("path", "a table")),
        }
    } else {
        let mut m = owned("unknown variant `");
        m.append(kind);
        m.append("`, expected `git` or `path`");
        Err(m)
    }
}

impl Descriptor {
    /// Parse one descriptor out of a `tool.toml`'s text, and hold it to
    /// [`Descriptor::check`]. See [`parse_spec`].
    pub fn parse(text: &str) -> (r: Result<Descriptor, String>)
        ensures
            match r {
                Ok(d) => parse_spec(text@) == Ok::<DescriptorView, Seq<char>>(d@),
                Err(e) => parse_spec(text@) == Err::<DescriptorView, Seq<char>>(e@),
            },
    {
        let prefix = "could not read the tool descriptor: ";
        let doc = match parse_toml(text) {
            Ok(d) => d,
            Err(e) => return Err(cat(prefix, e.as_str())),
        };
        let d = match Self::from_document(&doc) {
            Ok(d) => d,
            Err(e) => return Err(cat(prefix, e.as_str())),
        };
        d.check()?;
        Ok(d)
    }

    /// The descriptor a parsed document's `[tool]` table describes. See
    /// [`descriptor_of`].
    pub fn from_document(doc: &Vec<(String, TomlValue)>) -> (r: Result<Descriptor, String>)
        ensures
            match r {
                Ok(d) => descriptor_of(doc_view(doc@)) == Ok::<DescriptorView, Seq<char>>(d@),
                Err(e) => descriptor_of(doc_view(doc@)) == Err::<DescriptorView, Seq<char>>(e@),
            },
    {
        let t = match find(doc, "tool") {
            None => return Err(missing_exec("tool")),
            Some(TomlValue::Table(t)) => t,
            Some(_) => return Err(wrong_type_exec("tool", "a table")),
        };
        let fields: [&str; 7] = ["name", "summary", "tags", "backend", "source", "commands", "promote"];
        assert(str_views(fields@) =~= descriptor_fields());
        if let Some(k) = first_unknown_exec(t, &fields) {
            return Err(unknown_field_exec(k.as_str()));
        }
        let name = req_str_exec(t, "name")?;
        let summary = req_str_exec(t, "summary")?;
        let tags = match find(t, "tags") {
            None => {
                let v: Vec<String> = Vec::new();
                assert(views(v@) =~= Seq::<Seq<char>>::empty());
                v
            },
            Some(TomlValue::Array(items)) => match all_strings_exec(items) {
                Some(v) => v,
                None => return Err(wrong_type_exec("tags", "an array of strings")),
            },
            Some(_) => return Err(wrong_type_exec("tags", "an array of strings")),
        };
        assert(tags_of(doc_view(t@)) == Ok::<Seq<Seq<char>>, Seq<char>>(views(tags@)));
        let backend = req_str_exec(t, "backend")?;
        let source = source_of_exec(t)?;
        let commands = commands_of_exec(t)?;
        let promote = match find(t, "promote") {
            None => false,
            Some(TomlValue::Bool(b)) => *b,
            Some(_) => return Err(wrong_type_exec("promote", "a boolean")),
        };
        Ok(Descriptor { name, summary, tags, backend, source, commands, promote })
    }
}

/// What a descriptor becomes once its backend has put it somewhere.
#[derive(Debug, Clone, PartialEq, Eq)]
pub struct Located {
    /// The tool's root on disk. Commands resolve their `run` against it.
    pub root: String,
}

/// How one kind of tool is fetched, as far as deciding about it goes: its
/// name, what about its own environment keys the cache, whether it caches at
/// all, and whether it places its material itself. Putting the material
/// somewhere is the host's, per backend.
pub trait Backend {
    /// The string a descriptor's `backend =` field names.
    fn name() -> &'static str;

    /// The part of a cache key that is about this backend's own environment
    /// rather than about the tool; empty for a backend that only copies bytes.
    fn fingerprint() -> String;

    /// Whether a materialised copy is wanted at all: `false` for a backend
    /// whose source is already on disk.
    fn caches() -> (r: bool)
        default_ensures
            r == true,
    {
        true
    }

    /// Whether the backend writes into its final destination and holds its
    /// own exclusion while it does, rather than being handed a scratch that is
    /// renamed into place when it is finished.
    fn places_itself() -> (r: bool)
        default_ensures
            r == false,
    {
        false
    }
}

/// A [`Backend`] in the form a host can hold a heterogeneous list of.
#[derive(Debug, Clone, PartialEq, Eq)]
pub struct Registered {
    /// The name a descriptor matches against.
    pub name: &'static str,
    fingerprint: String,
    caches: bool,
    places_itself: bool,
}

impl Registered {
    /// The name it was registered under.
    pub closed spec fn name_spec(&self) -> &'static str {
        self.name
    }

    /// The fingerprint it was registered with.
    pub closed spec fn fingerprint_spec(&self) -> Seq<char> {
        self.fingerprint@
    }

    /// Whether it was registered as caching.
    pub closed spec fn caches_spec(&self) -> bool {
        self.caches
    }

    /// Whether it was registered as placing its own material.
    pub closed spec fn places_itself_spec(&self) -> bool {
        self.places_itself
    }

    /// The entry for one backend, holding what its four methods returned:
    /// its name, its fingerprint, whether it caches, whether it places itself.
    pub fn of<B: Backend>() -> (r: Registered)
        ensures
            call_ensures(B::name, (), r.name_spec()),
            exists|f: String| f@ == r.fingerprint_spec() && call_ensures(B::fingerprint, (), f),
            call_ensures(B::caches, (), r.caches_spec()),
            call_ensures(B::places_itself, (), r.places_itself_spec()),
    {
        let name = B::name();
        let fingerprint = B::fingerprint();
        let caches = B::caches();
        let places_itself = B::places_itself();
        let r = Registered { name, fingerprint, caches, places_itself };
        assert(r.fingerprint_spec() == fingerprint@ && call_ensures(B::fingerprint, (), fingerprint));
        r
    }

    /// An entry from its parts.
    pub fn new(name: &'static str, fingerprint: String, caches: bool, places_itself: bool) -> (r:
        Registered)
        ensures
            r.name_spec() == name,
            r.fingerprint_spec() == fingerprint@,
            r.caches_spec() == caches,
            r.places_itself_spec() == places_itself,
    {
        Registered { name, fingerprint, caches, places_itself }
    }

    /// See [`Backend::fingerprint`].
    pub fn fingerprint(&self) -> (r: String)
        ensures
            r@ == self.fingerprint_spec(),
    {
        self.fingerprint.clone()
    }

    /// See [`Backend::caches`].
    pub fn caches(&self) -> (r: bool)
        ensures
            r == self.caches_spec(),
    {
        self.caches
    }

    /// See [`Backend::places_itself`].
    pub fn places_itself(&self) -> (r: bool)
        ensures
            r == self.places_itself_spec(),
    {
        self.places_itself
    }
}

/// The backends a host knows about.
#[derive(Debug, Clone)]
pub struct Registry {
    backends: Vec<Registered>,
}

/// The names of a list of backends, in order.
pub open spec fn backend_names(v: Seq<Registered>) -> Seq<Seq<char>> {
    v.map_values(|b: Registered| b.name_spec()@)
}

/// The first backend named `name`.
pub open spec fn find_backend(v: Seq<Registered>, name: Seq<char>) -> Option<Registered>
    decreases v.len(),
{
    if v.len() == 0 {
        None
    } else if v[0].name_spec()@ == name {
        Some(v[0])
    } else {
        find_backend(v.subrange(1, v.len() as int), name)
    }
}

impl Registry {
    /// The backends it holds, in order.
    pub closed spec fn entries(&self) -> Seq<Registered> {
        self.backends@
    }

    /// A registry over a backend table.
    pub fn new(backends: Vec<Registered>) -> (r: Registry)
        ensures
            r.entries() == backends@,
    {
        Registry { backends }
    }

    /// The backend a descriptor names, if this registry has it: the first of
    /// that name.
    pub fn get(&self, name: &str) -> (r: Option<&Registered>)
        ensures
            match r {
                Some(b) => find_backend(self.entries(), name@) == Some(*b),
                None => find_backend(self.entries(), name@) is None,
            },
    {
        let ghost v = self.backends@;
        assert(v.subrange(0, v.len() as int) =~= v);
        let mut i: usize = 0;
        while i < self.backends.len()
            invariant
                i <= self.backends@.len(),
                v == self.backends@,
                find_backend(v, name@) == find_backend(v.subrange(i as int, v.len() as int), name@),
            decreases self.backends.len() - i,
        {
            let ghost tail = v.subrange(i as int, v.len() as int);
            assert(tail[0] == v[i as int]);
            assert(tail.subrange(1, tail.len() as int) =~= v.subrange(i + 1, v.len() as int));
            if same(self.backends[i].name, name) {
                return Some(&self.backends[i]);
            }
            i = i + 1;
        }
        None
    }

    /// Every backend name, in order, for a diagnostic that has to say what
    /// was available.
    pub fn names(&self) -> (r: Vec<&'static str>)
        ensures
            r@.map_values(|s: &'static str| s@) == backend_names(self.entries()),
    {
        let mut out: Vec<&'static str> = Vec::new();
        let mut i: usize = 0;
        while i < self.backends.len()
            invariant
                i <= self.backends@.len(),
                out@.map_values(|s: &'static str| s@) == backend_names(
                    self.backends@.subrange(0, i as int),
                ),
            decreases self.backends.len() - i,
        {
            let ghost before = out@;
            out.push(self.backends[i].name);
            proof {
                assert(out@.map_values(|s: &'static str| s@) =~= before.map_values(
                    |s: &'static str| s@,
                ).push(self.backends@[i as int].name_spec()@));
                assert(backend_names(self.backends@.subrange(0, i + 1)) =~= backend_names(
                    self.backends@.subrange(0, i as int),
                ).push(self.backends@[i as int].name_spec()@));
            }
            i = i + 1;
        }
        assert(self.backends@.subrange(0, self.backends@.len() as int) =~= self.backends@);
        out
    }
}

/// A tool already on disk in the workspace, fetched from nowhere.
pub struct Local;

impl Backend for Local {
    fn name() -> (r: &'static str)
        ensures
            r == "local",
    {
        "local"
    }

    fn fingerprint() -> (r: String)
        ensures
            r@.len() == 0,
    {
        String::new()
    }

    fn caches() -> (r: bool)
        ensures
            r == false,
    {
        false
    }
}

/// A tool taken from a git repository at one revision.
pub struct Git;

impl Backend for Git {
    fn name() -> (r: &'static str)
        ensures
            r == "git",
    {
        "git"
    }

    /// Nothing: a checkout is the same bytes whatever is installed on the
    /// machine that took it.
    fn fingerprint() -> (r: String)
        ensures
            r@.len() == 0,
    {
        String::new()
    }
}

/// The backends this library ships, `local` and `git`. A host may use this
/// table, or build its own that includes these and more.
pub fn builtin() -> (r: Vec<Registered>)
    ensures
        backend_names(r@) == seq!["local"@, "git"@],
        r@[0].caches_spec() == false,
        r@[1].caches_spec() == true,
        r@[0].places_itself_spec() == false,
        r@[1].places_itself_spec() == false,
        r@[0].fingerprint_spec().len() == 0,
        r@[1].fingerprint_spec().len() == 0,
{
    let mut v: Vec<Registered> = Vec::new();
    v.push(Registered::new("local", String::new(), false, false));
    v.push(Registered::new("git", String::new(), true, false));
    assert(backend_names(v@) =~= seq!["local"@, "git"@]);
    v
}

/// What building the launcher's own engine takes: the `cargo install`
/// argument lists to try in order, the binary the install has to produce, and
/// the engine's package name for the message when none of them does.
#[derive(Debug, Clone, PartialEq, Eq)]
pub struct CargoPlan {
    /// The `cargo install` argument lists, tried in order.
    pub attempts: Vec<Vec<String>>,
    /// The binary a successful attempt leaves under `bin`.
    pub bin: String,
    /// The engine's package name.
    pub crate_name: String,
}

/// A copy of one argument list.
fn copy_strings(v: &Vec<String>) -> (r: Vec<String>)
    ensures
        views(r@) == views(v@),
{
    let mut out: Vec<String> = Vec::new();
    let mut i: usize = 0;
    while i < v.len()
        invariant
            i <= v@.len(),
            views(out@) == views(v@).subrange(0, i as int),
        decreases v.len() - i,
    {
        let ghost before = out@;
        out.push(owned(v[i].as_str()));
        proof {
            assert(views(out@) =~= views(before).push(v@[i as int]@));
            assert(views(v@).subrange(0, i + 1) =~= views(v@).subrange(0, i as int).push(v@[i as int]@));
        }
        i = i + 1;
    }
    assert(views(v@).subrange(0, v@.len() as int) =~= views(v@));
    out
}

impl CargoPlan {
    /// The plan that builds a tool's engine for a resolved pin: the
    /// resolution's attempts, the tool's engine binary, its engine package.
    pub fn for_engine(tool: &Tool, resolved: &Resolved) -> (r: CargoPlan)
        ensures
            attempt_views(r.attempts@) == resolved@.2,
            r.bin@ == bin_name(*tool)@,
            r.crate_name@ == tool.engine_crate@,
    {
        let source = resolved.attempts();
        let mut attempts: Vec<Vec<String>> = Vec::new();
        let mut i: usize = 0;
        while i < source.len()
            invariant
                i <= source@.len(),
                attempt_views(attempts@) == attempt_views(source@).subrange(0, i as int),
            decreases source.len() - i,
        {
            let ghost before = attempts@;
            attempts.push(copy_strings(&source[i]));
            proof {
                assert(attempt_views(attempts@) =~= attempt_views(before).push(views(source@[i as int]@)));
                assert(attempt_views(source@).subrange(0, i + 1) =~= attempt_views(source@).subrange(
                    0,
                    i as int,
                ).push(views(source@[i as int]@)));
            }
            i = i + 1;
        }
        assert(attempt_views(source@).subrange(0, source@.len() as int) =~= attempt_views(source@));
        CargoPlan { attempts, bin: owned(tool.engine_bin_name()), crate_name: owned(tool.engine_crate) }
    }
}

/// Why a path source cannot be keyed.
pub open spec fn path_key_message(name: Seq<char>) -> Seq<char> {
    "the tool `"@ + name + "` names a path, which is relative to one workspace, and a cache key is shared by all of them"@
}

/// The cache key for one tool: the backend it names, its url, its revision and
/// its backend's fingerprint, hashed as four fields. A path source has none,
/// since a path is relative to one workspace and the key is shared by all.
pub open spec fn cache_key_spec(d: DescriptorView, fingerprint: Seq<char>) -> Result<Seq<char>, Seq<char>> {
    match d.source {
        SourceView::Path { .. } => Err(path_key_message(d.name)),
        SourceView::Git { url, rev } => Ok(hex16(fnv_fields(seq![d.backend, url, rev, fingerprint]))),
    }
}

/// A tool's key reads four fields and nothing else: two descriptors naming
/// the same backend and the same git source get the same key whatever their
/// names, summaries, tags, commands or promotion, and no workspace enters it;
/// a key is sixteen lowercase hexadecimal characters; and a path source gets
/// no key, only the refusal naming the tool.
pub proof fn law_a_tool_key_reads_four_fields(d1: DescriptorView, d2: DescriptorView, fingerprint: Seq<char>)
    ensures
        (d1.backend == d2.backend && d1.source == d2.source && d1.source is Git) ==> cache_key_spec(
            d1,
            fingerprint,
        ) == cache_key_spec(d2, fingerprint),
        match cache_key_spec(d1, fingerprint) {
            Ok(k) => d1.source is Git && k.len() == 16 && forall|i: int|
                0 <= i < 16 ==> crate::text::is_lower_hex(#[trigger] k[i]),
            Err(e) => d1.source is Path && e == path_key_message(d1.name),
        },
{
    if let SourceView::Git { url, rev } = d1.source {
        let h = fnv_fields(seq![d1.backend, url, rev, fingerprint]);
        crate::hash::lemma_hex16_shape(h);
        assert forall|i: int| 0 <= i < 16 implies crate::text::is_lower_hex(#[trigger] hex16(h)[i]) by {
            assert(crate::hash::is_hex_digit_char(hex16(h)[i]));
        }
    }
}

/// The cache key for one tool. See [`cache_key_spec`].
pub fn cache_key(descriptor: &Descriptor, backend: &Registered) -> (r: Result<String, String>)
    ensures
        match r {
            Ok(k) => cache_key_spec(descriptor@, backend.fingerprint_spec()) == Ok::<Seq<char>, Seq<char>>(k@),
            Err(e) => cache_key_spec(descriptor@, backend.fingerprint_spec()) == Err::<Seq<char>, Seq<char>>(e@),
        },
{
    match &descriptor.source {
        Source::Path { .. } => {
            let mut m = owned("the tool `");
            m.append(descriptor.name.as_str());
            m.append(
                "` names a path, which is relative to one workspace, and a cache key is shared by all of them",
            );
            Err(m)
        },
        Source::Git { url, rev } => {
            let fp = backend.fingerprint();
            let mut h = Fnv::new();
            h.write_field(descriptor.backend.as_str());
            h.write_field(url.as_str());
            h.write_field(rev.as_str());
            h.write_field(fp.as_str());
            proof {
                let b = descriptor.backend@;
                crate::hash::lemma_fields_step(Seq::empty(), b);
                crate::hash::lemma_fields_step(seq![b], url@);
                crate::hash::lemma_fields_step(seq![b, url@], rev@);
                crate::hash::lemma_fields_step(seq![b, url@, rev@], fp@);
                assert(Seq::<Seq<char>>::empty().push(b) =~= seq![b]);
                assert(seq![b].push(url@) =~= seq![b, url@]);
                assert(seq![b, url@].push(rev@) =~= seq![b, url@, rev@]);
                assert(seq![b, url@, rev@].push(fp@) =~= seq![b, url@, rev@, fp@]);
            }
            Ok(h.hex())
        },
    }
}


/// Every name occurs in the names joined with commas.
proof fn lemma_each_name_is_listed(names: Seq<Seq<char>>)
    ensures
        forall|i: int| 0 <= i < names.len() ==> has_infix(comma_joined(names), #[trigger] names[i]),
    decreases names.len(),
{
    if names.len() == 1 {
        crate::text::lemma_infix_of_concat(Seq::empty(), names[0], Seq::empty());
        assert(Seq::<char>::empty() + names[0] + Seq::<char>::empty() =~= names[0]);
    } else if names.len() > 1 {
        let init = names.drop_last();
        lemma_each_name_is_listed(init);
        let j = comma_joined(init);
        assert forall|i: int| 0 <= i < names.len() implies has_infix(comma_joined(names), #[trigger] names[i]) by {
            if i < names.len() - 1 {
                assert(names[i] == init[i]);
                crate::text::lemma_infix_widens(j, names[i], Seq::empty(), ", "@ + names.last());
                assert(Seq::<char>::empty() + j + (", "@ + names.last()) =~= comma_joined(names));
            } else {
                crate::text::lemma_infix_of_concat(j + ", "@, names.last(), Seq::empty());
                assert(j + ", "@ + names.last() + Seq::<char>::empty() =~= comma_joined(names));
            }
        }
    }
}

/// A tool naming a backend the host does not have is refused, and the
/// refusal names the backend it asked for and every backend there is, so a
/// misspelling can be read off it.
pub proof fn law_an_unknown_backend_names_every_backend(
    d: DescriptorView,
    backends: Seq<Registered>,
    workspace: Seq<char>,
    cache: Seq<char>,
)
    requires
        check_spec(d) is Ok,
        find_backend(backends, d.backend) is None,
    ensures
        placement_spec(d, backends, workspace, cache) is Err,
        match placement_spec(d, backends, workspace, cache) {
            Err(e) => has_infix(e, d.backend) && forall|i: int|
                0 <= i < backends.len() ==> has_infix(e, #[trigger] backends[i].name_spec()@),
            Ok(_) => true,
        },
{
    let names = backend_names(backends);
    let joined = comma_joined(names);
    let front = "the tool `"@ + d.name + "` names the backend `"@;
    let mid = "`, which is not one of: "@;
    let e = front + d.backend + mid + joined;
    assert(placement_spec(d, backends, workspace, cache) == Err::<PlacementView, Seq<char>>(e));
    crate::text::lemma_infix_of_concat(front, d.backend, mid + joined);
    assert(e =~= front + d.backend + (mid + joined));
    lemma_each_name_is_listed(names);
    assert forall|i: int| 0 <= i < backends.len() implies has_infix(e, #[trigger] backends[i].name_spec()@) by {
        assert(names[i] == backends[i].name_spec()@);
        crate::text::lemma_infix_widens(joined, names[i], front + d.backend + mid, Seq::empty());
        assert(front + d.backend + mid + joined + Seq::<char>::empty() =~= e);
    }
}

/// `names` joined with `", "`.
pub open spec fn comma_joined(names: Seq<Seq<char>>) -> Seq<char>
    decreases names.len(),
{
    if names.len() == 0 {
        Seq::empty()
    } else if names.len() == 1 {
        names[0]
    } else {
        comma_joined(names.drop_last()) + ", "@ + names.last()
    }
}

/// `names` joined with `", "`.
pub fn join_names(names: &[&str]) -> (r: String)
    ensures
        r@ == comma_joined(str_views(names@)),
{
    let ghost ns = str_views(names@);
    let mut out = String::new();
    let mut i: usize = 0;
    while i < names.len()
        invariant
            i <= names@.len(),
            ns == str_views(names@),
            out@ == comma_joined(ns.subrange(0, i as int)),
        decreases names.len() - i,
    {
        proof {
            let sub = ns.subrange(0, i + 1);
            assert(sub.drop_last() =~= ns.subrange(0, i as int));
            assert(sub.last() == names@[i as int]@);
            if i == 0 {
                assert(sub.len() == 1);
                assert(Seq::<char>::empty() + sub[0] =~= sub[0]);
            }
        }
        if i > 0 {
            out.append(", ");
        }
        out.append(names[i]);
        i = i + 1;
    }
    assert(ns.subrange(0, ns.len() as int) =~= ns);
    out
}

/// Where a tool's material is, once its descriptor is checked and its backend
/// found: in the workspace, for a backend that does not cache, or under the
/// shared cache, keyed.
#[derive(Debug, Clone, PartialEq, Eq)]
pub enum Placement {
    /// A directory in the workspace, used where it is; the caller still has to
    /// find it there.
    InWorkspace(String),
    /// A directory under `<cache>/tools`, named by the tool's key: used if it
    /// is there, materialised once if not, into it directly when the backend
    /// places itself and through a scratch and a rename when it does not.
    Cached {
        /// The tool's root.
        root: String,
        /// Whether the backend places its own material.
        places_itself: bool,
    },
}

/// A placement as characters.
pub enum PlacementView {
    InWorkspace(Seq<char>),
    Cached { root: Seq<char>, places_itself: bool },
}

impl View for Placement {
    type V = PlacementView;

    open spec fn view(&self) -> PlacementView {
        match self {
            Placement::InWorkspace(p) => PlacementView::InWorkspace(p@),
            Placement::Cached { root, places_itself } => PlacementView::Cached {
                root: root@,
                places_itself: *places_itself,
            },
        }
    }
}

/// Where a tool is to be found or put: the descriptor checked first, then its
/// backend found by name; a backend that does not cache takes a path source
/// where it lies in the workspace; a caching one keys the tool under
/// `<cache>/tools`.
pub open spec fn placement_spec(
    d: DescriptorView,
    backends: Seq<Registered>,
    workspace: Seq<char>,
    cache: Seq<char>,
) -> Result<PlacementView, Seq<char>> {
    match check_spec(d) {
        Err(e) => Err(e),
        Ok(()) => match find_backend(backends, d.backend) {
            None => Err(
                "the tool `"@ + d.name + "` names the backend `"@ + d.backend
                    + "`, which is not one of: "@ + comma_joined(backend_names(backends)),
            ),
            Some(b) => if !b.caches_spec() {
                match d.source {
                    SourceView::Path { path } => Ok(PlacementView::InWorkspace(join_spec(workspace, path))),
                    SourceView::Git { .. } => Err(
                        "the backend `"@ + d.backend + "` does not cache, so the tool `"@ + d.name
                            + "` must name a path source"@,
                    ),
                }
            } else {
                match cache_key_spec(d, b.fingerprint_spec()) {
                    Err(e) => Err(e),
                    Ok(k) => Ok(
                        PlacementView::Cached {
                            root: join_spec(join_spec(cache, "tools"@), k),
                            places_itself: b.places_itself_spec(),
                        },
                    ),
                }
            },
        },
    }
}

/// The backend found for a name is one of the host's, registered under that
/// name; none is found only when no backend has that name.
pub proof fn law_a_backend_is_found_by_its_name(v: Seq<Registered>, name: Seq<char>)
    ensures
        match find_backend(v, name) {
            Some(b) => b.name_spec()@ == name && v.contains(b),
            None => forall|i: int| 0 <= i < v.len() ==> (#[trigger] v[i]).name_spec()@ != name,
        },
    decreases v.len(),
{
    if v.len() > 0 {
        let t = v.subrange(1, v.len() as int);
        law_a_backend_is_found_by_its_name(t, name);
        if v[0].name_spec()@ != name {
            match find_backend(t, name) {
                Some(b) => {
                    let w = choose|w: int| 0 <= w < t.len() && t[w] == b;
                    assert(v[w + 1] == b);
                },
                None => {
                    assert forall|i: int| 0 <= i < v.len() implies (#[trigger] v[i]).name_spec()@ != name by {
                        if i > 0 {
                            assert(v[i] == t[i - 1]);
                        }
                    }
                },
            }
        } else {
            assert(v[0] == v[0]);
        }
    }
}

/// Where a checked tool goes is decided by its backend: a backend that
/// caches puts a git source under `<cache>/tools`, named by the tool's key,
/// and the placement carries that backend's own answer to whether it places
/// itself; a backend that does not cache uses a path source where it lies,
/// the workspace joined with the path.
pub proof fn law_a_tool_is_placed_the_way_its_backend_says(
    d: DescriptorView,
    backends: Seq<Registered>,
    workspace: Seq<char>,
    cache: Seq<char>,
)
    requires
        check_spec(d) is Ok,
        find_backend(backends, d.backend) is Some,
    ensures
        ({
            let b = find_backend(backends, d.backend).unwrap();
            match d.source {
                SourceView::Git { url, rev } => b.caches_spec() ==> placement_spec(d, backends, workspace, cache)
                    == Ok::<PlacementView, Seq<char>>(
                    PlacementView::Cached {
                        root: join_spec(
                            join_spec(cache, "tools"@),
                            hex16(fnv_fields(seq![d.backend, url, rev, b.fingerprint_spec()])),
                        ),
                        places_itself: b.places_itself_spec(),
                    },
                ),
                SourceView::Path { path } => !b.caches_spec() ==> placement_spec(d, backends, workspace, cache)
                    == Ok::<PlacementView, Seq<char>>(PlacementView::InWorkspace(join_spec(workspace, path))),
            }
        }),
{
}

/// A command is the descriptor's first one of that name, and running it
/// runs that command's own file: for a checked descriptor, a plan names the
/// `run` of the first command called `name` and tells the child the
/// workspace and the tool's root under the host's short name uppercased; and
/// a name no command has is refused.
pub proof fn law_a_command_runs_what_the_descriptor_names(d: DescriptorView, name: Seq<char>, short: Seq<char>)
    requires
        check_spec(d) is Ok,
    ensures
        match command_plan_spec(d, name, short) {
            Ok((run, ws, tr)) => exists|i: int|
                0 <= i < d.commands.len() && (#[trigger] d.commands[i]).0 == name && d.commands[i].2 == run
                    && forall|j: int| 0 <= j < i ==> (#[trigger] d.commands[j]).0 != name,
            Err(_) => forall|i: int| 0 <= i < d.commands.len() ==> (#[trigger] d.commands[i]).0 != name,
        },
        command_plan_spec(d, name, short) matches Ok((run, ws, tr)) ==> ws == unicode_upper(short) + "_WORKSPACE"@
            && tr == unicode_upper(short) + "_TOOL_ROOT"@,
{
    lemma_find_command(d.commands, name);
}

proof fn lemma_find_command(cs: Seq<CommandView>, name: Seq<char>)
    ensures
        match find_command(cs, name) {
            Some(c) => exists|i: int|
                0 <= i < cs.len() && #[trigger] cs[i] == c && c.0 == name && forall|j: int|
                    0 <= j < i ==> (#[trigger] cs[j]).0 != name,
            None => forall|i: int| 0 <= i < cs.len() ==> (#[trigger] cs[i]).0 != name,
        },
    decreases cs.len(),
{
    if cs.len() > 0 {
        let t = cs.subrange(1, cs.len() as int);
        lemma_find_command(t, name);
        if cs[0].0 == name {
            assert(cs[0] == find_command(cs, name).unwrap());
        } else {
            match find_command(t, name) {
                Some(c) => {
                    let i = choose|i: int|
                        0 <= i < t.len() && #[trigger] t[i] == c && c.0 == name && forall|j: int|
                            0 <= j < i ==> (#[trigger] t[j]).0 != name;
                    assert(cs[i + 1] == c);
                    assert forall|j: int| 0 <= j < i + 1 implies (#[trigger] cs[j]).0 != name by {
                        if j > 0 {
                            assert(cs[j] == t[j - 1]);
                        }
                    }
                },
                None => {
                    assert forall|i: int| 0 <= i < cs.len() implies (#[trigger] cs[i]).0 != name by {
                        if i > 0 {
                            assert(cs[i] == t[i - 1]);
                        }
                    }
                },
            }
        }
    }
}

/// Where a tool is to be found or put. See [`placement_spec`]. Nothing is
/// read or written: the caller looks in a workspace directory, or uses,
/// materialises and marks a cached one.
pub fn placement(descriptor: &Descriptor, registry: &Registry, workspace: &str, cache: &str) -> (r:
    Result<Placement, String>)
    ensures
        match r {
            Ok(p) => placement_spec(descriptor@, registry.entries(), workspace@, cache@) == Ok::<
                PlacementView,
                Seq<char>,
            >(p@),
            Err(e) => placement_spec(descriptor@, registry.entries(), workspace@, cache@) == Err::<
                PlacementView,
                Seq<char>,
            >(e@),
        },
{
    descriptor.check()?;
    let backend = match registry.get(descriptor.backend.as_str()) {
        Some(b) => b,
        None => {
            let mut m = owned("the tool `");
            m.append(descriptor.name.as_str());
            m.append("` names the backend `");
            m.append(descriptor.backend.as_str());
            m.append("`, which is not one of: ");
            let names = registry.names();
            proof {
                assert(str_views(names@) =~= names@.map_values(|s: &'static str| s@));
            }
            let joined = join_names(&names);
            m.append(joined.as_str());
            return Err(m);
        },
    };
    if !backend.caches() {
        return match &descriptor.source {
            Source::Path { path } => Ok(Placement::InWorkspace(join(workspace, path.as_str()))),
            Source::Git { .. } => {
                let mut m = owned("the backend `");
                m.append(descriptor.backend.as_str());
                m.append("` does not cache, so the tool `");
                m.append(descriptor.name.as_str());
                m.append("` must name a path source");
                Err(m)
            },
        };
    }
    let key = cache_key(descriptor, backend)?;
    let tools = join(cache, "tools");
    Ok(Placement::Cached { root: join(tools.as_str(), key.as_str()), places_itself: backend.places_itself() })
}

/// What running one of a tool's commands takes: the file, relative to the
/// tool's root, and the names of the two variables the child is told the
/// workspace and the tool's root by.
#[derive(Debug, Clone, PartialEq, Eq)]
pub struct CommandPlan {
    /// The command's `run`, relative to the tool's root.
    pub run: String,
    /// `<SHORT>_WORKSPACE`.
    pub workspace_var: String,
    /// `<SHORT>_TOOL_ROOT`.
    pub tool_root_var: String,
}

/// The names of a tool's commands, in order.
pub open spec fn command_names(cs: Seq<CommandView>) -> Seq<Seq<char>> {
    cs.map_values(|c: CommandView| c.0)
}

/// What running a command of a tool takes, or why it cannot be run: the
/// descriptor checked first; an unknown command refused naming what the tool
/// does offer, or that it offers nothing.
pub open spec fn command_plan_spec(d: DescriptorView, name: Seq<char>, short: Seq<char>) -> Result<
    (Seq<char>, Seq<char>, Seq<char>),
    Seq<char>,
> {
    match check_spec(d) {
        Err(e) => Err(e),
        Ok(()) => match find_command(d.commands, name) {
            None => if d.commands.len() == 0 {
                Err("the tool `"@ + d.name + "` offers no commands"@)
            } else {
                Err(
                    "`"@ + d.name + "` has no command `"@ + name + "`; it offers: "@ + comma_joined(
                        command_names(d.commands),
                    ),
                )
            },
            Some(c) => Ok(
                (c.2, unicode_upper(short) + "_WORKSPACE"@, unicode_upper(short) + "_TOOL_ROOT"@),
            ),
        },
    }
}

/// What running one of a tool's commands takes. See [`command_plan_spec`].
/// The caller resolves `run` against the tool's root, refuses a file that is
/// not there or resolves outside the root, and sets the two variables.
pub fn command_plan(descriptor: &Descriptor, name: &str, short: &str) -> (r: Result<CommandPlan, String>)
    ensures
        match r {
            Ok(p) => command_plan_spec(descriptor@, name@, short@) == Ok::<
                (Seq<char>, Seq<char>, Seq<char>),
                Seq<char>,
            >((p.run@, p.workspace_var@, p.tool_root_var@)),
            Err(e) => command_plan_spec(descriptor@, name@, short@) == Err::<
                (Seq<char>, Seq<char>, Seq<char>),
                Seq<char>,
            >(e@),
        },
{
    descriptor.check()?;
    match descriptor.command(name) {
        Some(def) => {
            let up = crate::tool::to_uppercase(short);
            Ok(CommandPlan {
                run: def.run.clone(),
                workspace_var: cat(up.as_str(), "_WORKSPACE"),
                tool_root_var: cat(up.as_str(), "_TOOL_ROOT"),
            })
        },
        None => {
            if descriptor.commands.len() == 0 {
                let mut m = owned("the tool `");
                m.append(descriptor.name.as_str());
                m.append("` offers no commands");
                return Err(m);
            }
            let mut known: Vec<&str> = Vec::new();
            let mut i: usize = 0;
            while i < descriptor.commands.len()
                invariant
                    i <= descriptor.commands@.len(),
                    str_views(known@) == command_names(command_views(descriptor.commands@)).subrange(0, i as int),
                decreases descriptor.commands.len() - i,
            {
                let ghost before = known@;
                known.push(descriptor.commands[i].name.as_str());
                proof {
                    assert(str_views(known@) =~= str_views(before).push(descriptor.commands@[i as int].name@));
                    assert(command_names(command_views(descriptor.commands@)).subrange(0, i + 1) =~= command_names(
                        command_views(descriptor.commands@),
                    ).subrange(0, i as int).push(descriptor.commands@[i as int].name@));
                }
                i = i + 1;
            }
            assert(command_names(command_views(descriptor.commands@)).subrange(0, descriptor.commands@.len() as int)
                =~= command_names(command_views(descriptor.commands@)));
            let mut m = owned("`");
            m.append(descriptor.name.as_str());
            m.append("` has no command `");
            m.append(name);
            m.append("`; it offers: ");
            let joined = join_names(&known);
            m.append(joined.as_str());
            Err(m)
        },
    }
}

/// How long, in seconds, a scratch left by a materialisation survives.
pub const SCRATCH_TTL_SECS: u64 = 3600;

/// What a collection pass does with one entry under `<cache>/tools`.
#[derive(Debug, Clone, Copy, PartialEq, Eq)]
pub enum Verdict {
    /// Leave it.
    Keep,
    /// Give it a use mark now, and judge it on a later pass.
    Stamp,
    /// Remove it.
    Remove,
}

/// What a collection pass does with an entry: a scratch (a name starting with
/// `.`) this process owns (its pid between dots) is never taken; an entry with
/// no stamp to judge by is stamped if it is a tool and left if a scratch; an
/// entry is removed when older than its window (an hour for a scratch, the
/// retention for a tool) and kept otherwise.
pub open spec fn verdict_spec(name: Seq<char>, pid: u32, stamp_age: Option<Option<(u64, u32)>>, retention_secs: u64) -> Verdict {
    let scratch = name.len() > 0 && name[0] == '.';
    let ttl = if scratch { SCRATCH_TTL_SECS } else { retention_secs };
    if scratch && crate::text::has_infix(name, seq!['.'] + crate::text::decimal(pid as nat) + seq!['.']) {
        Verdict::Keep
    } else {
        match stamp_age {
            None => if scratch { Verdict::Keep } else { Verdict::Stamp },
            Some(age) => if age matches Some((s, n)) && (s > ttl || (s == ttl && n > 0)) {
                Verdict::Remove
            } else {
                Verdict::Keep
            },
        }
    }
}

/// What a collection pass does with one entry under `<cache>/tools`, given
/// its name, this process's id, and the age of its stamp: `None` for no
/// stamp, `Some(None)` for a stamp in the future. See [`verdict_spec`].
pub fn collect_verdict(name: &str, pid: u32, stamp_age: Option<Option<(u64, u32)>>, retention_secs: u64) -> (r: Verdict)
    ensures
        r == verdict_spec(name@, pid, stamp_age, retention_secs),
{
    let x = chars_of(name);
    let scratch = x.len() > 0 && x[0] == '.';
    let ttl = if scratch { SCRATCH_TTL_SECS } else { retention_secs };
    if scratch {
        let mut pat = String::new();
        crate::text::push_char(&mut pat, '.');
        let d = crate::text::to_decimal(pid as u64);
        pat.append(d.as_str());
        crate::text::push_char(&mut pat, '.');
        assert(pat@ =~= seq!['.'] + crate::text::decimal(pid as nat) + seq!['.']);
        if crate::text::contains_str(name, pat.as_str()) {
            return Verdict::Keep;
        }
    }
    match stamp_age {
        None => if scratch { Verdict::Keep } else { Verdict::Stamp },
        Some(age) => if crate::engine::is_older(age, ttl) { Verdict::Remove } else { Verdict::Keep },
    }
}

/// One entry under `<cache>/tools` as a collection pass sees it: its name and
/// the age of its stamp (see [`collect_verdict`]).
pub type Entry = (String, Option<Option<(u64, u32)>>);

/// An entry as characters.
pub open spec fn entry_views(v: Seq<Entry>) -> Seq<(Seq<char>, Option<Option<(u64, u32)>>)> {
    v.map_values(|e: Entry| (e.0@, e.1))
}

/// The names of the entries that get verdict `v`, in listing order.
pub open spec fn with_verdict(
    es: Seq<(Seq<char>, Option<Option<(u64, u32)>>)>,
    pid: u32,
    retention_secs: u64,
    v: Verdict,
) -> Seq<Seq<char>>
    decreases es.len(),
{
    if es.len() == 0 {
        Seq::empty()
    } else {
        let rest = with_verdict(es.drop_last(), pid, retention_secs, v);
        if verdict_spec(es.last().0, pid, es.last().1, retention_secs) == v {
            rest.push(es.last().0)
        } else {
            rest
        }
    }
}

/// What a collection pass over `<cache>/tools` does: the names it removes and
/// the names it stamps, each in listing order.
#[derive(Debug, Clone, PartialEq, Eq)]
pub struct CollectPass {
    /// The entries to remove.
    pub remove: Vec<String>,
    /// The entries to give a use mark.
    pub stamp: Vec<String>,
}

/// A collection pass over the directories under `<cache>/tools`, given each
/// one's name and stamp age: which to remove and which to stamp, every entry
/// judged by [`collect_verdict`].
pub fn collect_pass(entries: &[Entry], pid: u32, retention_secs: u64) -> (r: CollectPass)
    ensures
        views(r.remove@) == with_verdict(entry_views(entries@), pid, retention_secs, Verdict::Remove),
        views(r.stamp@) == with_verdict(entry_views(entries@), pid, retention_secs, Verdict::Stamp),
{
    let ghost es = entry_views(entries@);
    let mut remove: Vec<String> = Vec::new();
    let mut stamp: Vec<String> = Vec::new();
    let mut i: usize = 0;
    while i < entries.len()
        invariant
            i <= entries@.len(),
            es == entry_views(entries@),
            views(remove@) == with_verdict(es.subrange(0, i as int), pid, retention_secs, Verdict::Remove),
            views(stamp@) == with_verdict(es.subrange(0, i as int), pid, retention_secs, Verdict::Stamp),
        decreases entries.len() - i,
    {
        let ghost rb = remove@;
        let ghost sb = stamp@;
        proof {
            let sub = es.subrange(0, i + 1);
            assert(sub.drop_last() =~= es.subrange(0, i as int));
            assert(sub.last() == (entries@[i as int].0@, entries@[i as int].1));
        }
        let name = entries[i].0.as_str();
        match collect_verdict(name, pid, entries[i].1, retention_secs) {
            Verdict::Remove => {
                remove.push(owned(name));
                proof {
                    assert(views(remove@) =~= views(rb).push(name@));
                }
            },
            Verdict::Stamp => {
                stamp.push(owned(name));
                proof {
                    assert(views(stamp@) =~= views(sb).push(name@));
                }
            },
            Verdict::Keep => {},
        }
        i = i + 1;
    }
    assert(es.subrange(0, es.len() as int) =~= es);
    CollectPass { remove, stamp }
}

proof fn lemma_with_verdict_members(
    es: Seq<(Seq<char>, Option<Option<(u64, u32)>>)>,
    pid: u32,
    retention_secs: u64,
    v: Verdict,
)
    ensures
        forall|i: int|
            0 <= i < es.len() && verdict_spec(es[i].0, pid, es[i].1, retention_secs) == v
                ==> with_verdict(es, pid, retention_secs, v).contains(#[trigger] es[i].0),
        forall|n: Seq<char>| #[trigger] with_verdict(es, pid, retention_secs, v).contains(n) ==> exists|i: int|
            #![trigger es[i]]
            0 <= i < es.len() && es[i].0 == n && verdict_spec(n, pid, es[i].1, retention_secs) == v,
    decreases es.len(),
{
    if es.len() > 0 {
        let init = es.drop_last();
        lemma_with_verdict_members(init, pid, retention_secs, v);
        let w = with_verdict(es, pid, retention_secs, v);
        let wi = with_verdict(init, pid, retention_secs, v);
        let last_in = verdict_spec(es.last().0, pid, es.last().1, retention_secs) == v;
        assert forall|i: int|
            0 <= i < es.len() && verdict_spec(es[i].0, pid, es[i].1, retention_secs) == v implies w.contains(
            #[trigger] es[i].0,
        ) by {
            if i < es.len() - 1 {
                assert(init[i] == es[i]);
                assert(wi.contains(init[i].0));
                let k = choose|k: int| 0 <= k < wi.len() && wi[k] == init[i].0;
                if last_in {
                    assert(w[k] == wi[k]);
                }
            } else {
                assert(w[w.len() - 1] == es[i].0);
            }
        }
        assert forall|n: Seq<char>| #[trigger] w.contains(n) implies exists|i: int|
            #![trigger es[i]]
            0 <= i < es.len() && es[i].0 == n && verdict_spec(n, pid, es[i].1, retention_secs) == v by {
            let k = choose|k: int| 0 <= k < w.len() && w[k] == n;
            if last_in && k == w.len() - 1 {
                assert(es[es.len() - 1].0 == n);
            } else {
                assert(w[k] == wi[k]);
                assert(wi.contains(n));
                let i = choose|i: int| #![trigger init[i]] 0 <= i < init.len() && init[i].0 == n && verdict_spec(n, pid, init[i].1, retention_secs) == v;
                assert(es[i] == init[i]);
            }
        }
    }
}

/// A collection pass, whole: it removes exactly the entries whose stamp is
/// older than their window (an hour for a scratch, a name starting with `.`;
/// the retention for a tool), and never a scratch this process owns (its pid
/// between dots in the name); it stamps exactly the tools that have no stamp,
/// and removes none of them.
pub proof fn law_a_collect_pass(es: Seq<(Seq<char>, Option<Option<(u64, u32)>>)>, pid: u32, retention_secs: u64)
    ensures
        forall|i: int|
            0 <= i < es.len() && verdict_spec(es[i].0, pid, es[i].1, retention_secs) == Verdict::Remove
                ==> with_verdict(es, pid, retention_secs, Verdict::Remove).contains(#[trigger] es[i].0),
        forall|n: Seq<char>| #[trigger] with_verdict(es, pid, retention_secs, Verdict::Remove).contains(n) ==> exists|i: int|
            #![trigger es[i]]
            0 <= i < es.len() && es[i].0 == n && ({
                let scratch = n.len() > 0 && n[0] == '.';
                let ttl = if scratch { SCRATCH_TTL_SECS } else { retention_secs };
                &&& !(scratch && has_infix(n, seq!['.'] + crate::text::decimal(pid as nat) + seq!['.']))
                &&& es[i].1 matches Some(Some((s, ns))) && (s > ttl || (s == ttl && ns > 0))
            }),
        forall|i: int|
            0 <= i < es.len() && !(es[i].0.len() > 0 && es[i].0[0] == '.') && es[i].1 is None
                ==> with_verdict(es, pid, retention_secs, Verdict::Stamp).contains(#[trigger] es[i].0),
        forall|n: Seq<char>| #[trigger] with_verdict(es, pid, retention_secs, Verdict::Stamp).contains(n) ==> exists|i: int|
            #![trigger es[i]]
            0 <= i < es.len() && es[i].0 == n && !(n.len() > 0 && n[0] == '.') && es[i].1 is None,
{
    lemma_with_verdict_members(es, pid, retention_secs, Verdict::Remove);
    lemma_with_verdict_members(es, pid, retention_secs, Verdict::Stamp);
    assert forall|i: int|
        0 <= i < es.len() && !(es[i].0.len() > 0 && es[i].0[0] == '.') && es[i].1 is None implies with_verdict(
        es,
        pid,
        retention_secs,
        Verdict::Stamp,
    ).contains(#[trigger] es[i].0) by {
        assert(verdict_spec(es[i].0, pid, es[i].1, retention_secs) == Verdict::Stamp);
    }
}

} // verus!
