//! Reading a repo's config header: the engine pin, and the working directory.
//!
//! Only top-level keys count. A `<prefix>_version` nested inside some later
//! table is not a pin, and reading the document as a table rather than
//! scanning lines is what makes that true without a rule about it.

use vstd::prelude::*;

use crate::text::{cat, cat3, has_prefix, owned, starts_with, same};
use crate::toml_doc::{
    doc_view, find, find_string, lookup, opt_view, parse_toml, string_at, toml_document, DocView,
    TomlValue, ValueView,
};
use crate::tool::{PinKeys, Tool};

verus! {

/// Which revision of an engine a repo pins.
#[derive(Debug, Clone, PartialEq, Eq)]
pub enum Reference {
    /// A released version.
    Version(String),
    /// An exact commit.
    Rev(String),
    /// A tag.
    Tag(String),
    /// A moving branch head.
    Branch(String),
}

/// The characters of a [`Reference`].
pub enum RefView {
    /// A released version.
    Version(Seq<char>),
    /// An exact commit.
    Rev(Seq<char>),
    /// A tag.
    Tag(Seq<char>),
    /// A moving branch head.
    Branch(Seq<char>),
}

impl View for Reference {
    type V = RefView;

    open spec fn view(&self) -> RefView {
        match self {
            Reference::Version(v) => RefView::Version(v@),
            Reference::Rev(v) => RefView::Rev(v@),
            Reference::Tag(v) => RefView::Tag(v@),
            Reference::Branch(v) => RefView::Branch(v@),
        }
    }
}

/// The value a reference carries, whichever form it is.
pub open spec fn ref_value(r: RefView) -> Seq<char> {
    match r {
        RefView::Version(v) => v,
        RefView::Rev(v) => v,
        RefView::Tag(v) => v,
        RefView::Branch(v) => v,
    }
}

impl Reference {
    /// A copy, with the same form and value.
    pub fn duplicate(&self) -> (r: Reference)
        ensures
            r@ == self@,
    {
        match self {
            Reference::Version(v) => Reference::Version(v.clone()),
            Reference::Rev(v) => Reference::Rev(v.clone()),
            Reference::Tag(v) => Reference::Tag(v.clone()),
            Reference::Branch(v) => Reference::Branch(v.clone()),
        }
    }
}

/// A pinned engine source: where it lives, and which revision.
#[derive(Debug, Clone, PartialEq, Eq)]
pub struct Pin {
    /// Where the engine's source is.
    pub url: String,
    /// Which revision of it, in whichever of the four forms the config used.
    pub reference: Reference,
}

impl View for Pin {
    type V = (Seq<char>, RefView);

    open spec fn view(&self) -> (Seq<char>, RefView) {
        (self.url@, self.reference@)
    }
}

impl Pin {
    /// A copy, with the same url and reference.
    pub fn duplicate(&self) -> (r: Pin)
        ensures
            r@ == self@,
    {
        Pin { url: self.url.clone(), reference: self.reference.duplicate() }
    }
}

/// The launcher-relevant top-level keys of a config.
#[derive(Debug, Clone, PartialEq, Eq)]
pub struct Header {
    /// The declared working directory, if the tool has one and the config
    /// names it.
    pub workdir: Option<String>,
    /// The declared engine source, if any.
    pub url: Option<String>,
    /// The declared revision, in whichever form the config used.
    pub pin: Option<Reference>,
}

/// The characters of a [`Header`]: working directory, url, reference.
pub type HeaderView = (Option<Seq<char>>, Option<Seq<char>>, Option<RefView>);

impl View for Header {
    type V = HeaderView;

    open spec fn view(&self) -> HeaderView {
        (
            opt_view(self.workdir),
            opt_view(self.url),
            match self.pin {
                Some(r) => Some(r@),
                None => None,
            },
        )
    }
}

impl Default for Header {
    /// The empty header: no working directory, no url, no pin.
    fn default() -> (r: Header)
        ensures
            r.workdir is None,
            r.url is None,
            r.pin is None,
    {
        Header { workdir: None, url: None, pin: None }
    }
}

/// The reference a document pins under `keys`, most specific form first: a
/// rev, then a tag, then a branch, then a version.
pub open spec fn pin_of(doc: DocView, keys: PinKeys) -> Option<RefView> {
    if let Some(v) = string_at(doc, keys.rev@) {
        Some(RefView::Rev(v))
    } else if let Some(v) = string_at(doc, keys.tag@) {
        Some(RefView::Tag(v))
    } else if let Some(v) = string_at(doc, keys.branch@) {
        Some(RefView::Branch(v))
    } else if let Some(v) = string_at(doc, keys.version@) {
        Some(RefView::Version(v))
    } else {
        None
    }
}

/// The header a config's text gives under a tool's key names. Text that is
/// not TOML gives the empty header.
pub open spec fn header_of(t: Tool, text: Seq<char>) -> HeaderView {
    match toml_document(text) {
        Err(_) => (None, None, None),
        Ok(doc) => header_of_doc(t, doc),
    }
}

/// The header a parsed document declares under `t`'s key names: the working
/// directory key, the url key, and the pin.
pub open spec fn header_of_doc(t: Tool, doc: DocView) -> HeaderView {
    (
        match t.workdir {
            Some(w) => string_at(doc, w.key@),
            None => None,
        },
        string_at(doc, t.pin_keys.git@),
        pin_of(doc, t.pin_keys),
    )
}

impl Header {
    /// Read the header of `text` under `tool`'s key names.
    ///
    /// Unreadable TOML and a config with none of the keys are the same answer
    /// here: an empty header. A caller that would otherwise tell the user
    /// their config names no pin asks [`syntax_error`] first.
    pub fn parse(tool: &Tool, text: &str) -> (r: Header)
        ensures
            r@ == header_of(*tool, text@),
    {
        match parse_toml(text) {
            Ok(doc) => Header::from_document(tool, &doc),
            Err(_) => Header::default(),
        }
    }

    /// The header a parsed document declares under `tool`'s key names. See
    /// [`header_of_doc`].
    pub fn from_document(tool: &Tool, doc: &Vec<(String, TomlValue)>) -> (r: Header)
        ensures
            r@ == header_of_doc(*tool, doc_view(doc@)),
    {
        let keys = &tool.pin_keys;
        let pin = if let Some(v) = find_string(doc, keys.rev) {
            Some(Reference::Rev(v))
        } else if let Some(v) = find_string(doc, keys.tag) {
            Some(Reference::Tag(v))
        } else if let Some(v) = find_string(doc, keys.branch) {
            Some(Reference::Branch(v))
        } else if let Some(v) = find_string(doc, keys.version) {
            Some(Reference::Version(v))
        } else {
            None
        };
        let workdir = match tool.workdir {
            Some(w) => find_string(doc, w.key),
            None => None,
        };
        Header { workdir, url: find_string(doc, keys.git), pin }
    }

    /// The pin this header declares, falling back to the tool's default source
    /// when it names no url of its own. `None` exactly when no revision is
    /// declared: a source with nothing to check out of it is not a pin.
    pub fn to_pin(&self, tool: &Tool) -> (r: Option<Pin>)
        ensures
            self.pin is None ==> r is None,
            self.pin matches Some(p) ==> r matches Some(q) && q.reference@ == p@ && q.url@ == (
            match self.url {
                Some(u) => u@,
                None => tool.default_url@,
            }),
    {
        match &self.pin {
            None => None,
            Some(p) => {
                let url = match &self.url {
                    Some(u) => u.clone(),
                    None => owned(tool.default_url),
                };
                Some(Pin { url, reference: p.duplicate() })
            },
        }
    }
}

/// Why a config parsed to nothing, when it did: the parser's message, or
/// `None` when the text is TOML, whatever it holds.
pub fn syntax_error(text: &str) -> (r: Option<String>)
    ensures
        match toml_document(text@) {
            Ok(_) => r is None,
            Err(e) => r matches Some(m) && m@ == e,
        },
{
    match parse_toml(text) {
        Ok(_) => None,
        Err(e) => Some(e),
    }
}

/// The longest common prefix of `a` and `b`, in characters.
pub open spec fn common_len(a: Seq<char>, b: Seq<char>) -> nat
    decreases a.len(),
{
    if a.len() == 0 || b.len() == 0 || a[0] != b[0] {
        0
    } else {
        1 + common_len(a.subrange(1, a.len() as int), b.subrange(1, b.len() as int))
    }
}

/// The length of the longest prefix every one of `names` begins with.
pub open spec fn shared_len(names: Seq<Seq<char>>) -> nat
    decreases names.len(),
{
    if names.len() == 0 {
        0
    } else if names.len() == 1 {
        names[0].len()
    } else {
        let l = shared_len(names.drop_last());
        let c = common_len(names[0].subrange(0, l as int), names.last());
        c
    }
}

proof fn lemma_common_len(a: Seq<char>, b: Seq<char>, k: int)
    requires
        0 <= k <= a.len(),
        k <= b.len(),
        forall|j: int| 0 <= j < k ==> a[j] == b[j],
    ensures
        common_len(a, b) >= k,
        common_len(a, b) <= a.len(),
        common_len(a, b) <= b.len(),
        k == a.len() || k == b.len() || a[k] != b[k] ==> common_len(a, b) == k,
    decreases a.len(),
{
    if a.len() > 0 && b.len() > 0 && a[0] == b[0] {
        let a1 = a.subrange(1, a.len() as int);
        let b1 = b.subrange(1, b.len() as int);
        if k > 0 {
            assert forall|j: int| 0 <= j < k - 1 implies a1[j] == b1[j] by {
                assert(a1[j] == a[j + 1]);
                assert(b1[j] == b[j + 1]);
            }
            lemma_common_len(a1, b1, k - 1);
        } else {
            lemma_common_len(a1, b1, 0);
        }
    }
}

proof fn lemma_shared_len_bound(names: Seq<Seq<char>>)
    requires
        names.len() > 0,
    ensures
        shared_len(names) <= names[0].len(),
    decreases names.len(),
{
    if names.len() > 1 {
        lemma_shared_len_bound(names.drop_last());
        let l = shared_len(names.drop_last());
        lemma_common_len(names[0].subrange(0, l as int), names.last(), 0);
    }
}

/// The common prefix of two texts is where they agree, and it stops only at
/// the end of one of them or where they differ.
proof fn lemma_common_prefix(a: Seq<char>, b: Seq<char>)
    ensures
        common_len(a, b) <= a.len(),
        common_len(a, b) <= b.len(),
        forall|j: int| 0 <= j < common_len(a, b) ==> #[trigger] a[j] == b[j],
        common_len(a, b) == a.len() || common_len(a, b) == b.len() || a[common_len(a, b) as int]
            != b[common_len(a, b) as int],
    decreases a.len(),
{
    if a.len() > 0 && b.len() > 0 && a[0] == b[0] {
        let a1 = a.subrange(1, a.len() as int);
        let b1 = b.subrange(1, b.len() as int);
        lemma_common_prefix(a1, b1);
        assert forall|j: int| 0 <= j < common_len(a, b) implies #[trigger] a[j] == b[j] by {
            if j > 0 {
                assert(a[j] == a1[j - 1]);
                assert(b[j] == b1[j - 1]);
            }
        }
        let c = common_len(a1, b1) as int;
        if c < a1.len() && c < b1.len() {
            assert(a[c + 1] == a1[c]);
            assert(b[c + 1] == b1[c]);
        }
    }
}

/// The shared prefix of a list of names is the longest one every name begins
/// with: no name is shorter, every name agrees with the first over it, and it
/// ends at the end of some name or where some name departs from the first.
pub proof fn law_the_shared_prefix_is_the_longest(names: Seq<Seq<char>>)
    requires
        names.len() > 0,
    ensures
        forall|i: int| 0 <= i < names.len() ==> shared_len(names) <= (#[trigger] names[i]).len(),
        forall|i: int, j: int| 0 <= i < names.len() && 0 <= j < shared_len(names) ==> #[trigger] names[i][j] == names[0][j],
        exists|i: int|
            0 <= i < names.len() && (shared_len(names) == (#[trigger] names[i]).len() || names[i][shared_len(names) as int]
                != names[0][shared_len(names) as int]),
    decreases names.len(),
{
    if names.len() == 1 {
        assert(shared_len(names) == names[0].len());
    } else {
        let init = names.drop_last();
        law_the_shared_prefix_is_the_longest(init);
        let l0 = shared_len(init);
        let first = names[0];
        let last = names.last();
        assert(init[0] == first);
        let a = first.subrange(0, l0 as int);
        lemma_common_prefix(a, last);
        let l = shared_len(names);
        assert(l == common_len(a, last));
        assert forall|i: int| 0 <= i < names.len() implies shared_len(names) <= (#[trigger] names[i]).len() by {
            if i < names.len() - 1 {
                assert(names[i] == init[i]);
            }
        }
        assert forall|i: int, j: int| 0 <= i < names.len() && 0 <= j < shared_len(names) implies #[trigger] names[i][j]
            == names[0][j] by {
            if i < names.len() - 1 {
                assert(names[i] == init[i]);
                assert(init[i][j] == init[0][j]);
            } else {
                assert(a[j] == last[j]);
                assert(a[j] == first[j]);
            }
        }
        if l < l0 {
            let i = names.len() - 1;
            assert(l < a.len());
            if l != last.len() {
                assert(a[l as int] != last[l as int]);
                assert(a[l as int] == first[l as int]);
            }
            assert(shared_len(names) == (names[i]).len() || names[i][shared_len(names) as int]
                != names[0][shared_len(names) as int]);
        } else {
            let i = choose|i: int|
                0 <= i < init.len() && (l0 == (#[trigger] init[i]).len() || init[i][l0 as int] != init[0][l0 as int]);
            assert(names[i] == init[i]);
            assert(shared_len(names) == (names[i]).len() || names[i][shared_len(names) as int]
                != names[0][shared_len(names) as int]);
        }
    }
}

/// The characters of each of a list of names.
pub open spec fn str_views(v: Seq<&str>) -> Seq<Seq<char>> {
    v.map_values(|s: &str| s@)
}

/// The longest prefix every one of `names` begins with; nothing for an empty
/// list.
pub fn shared_prefix(names: &[&str]) -> (r: String)
    ensures
        names@.len() == 0 ==> r@.len() == 0,
        names@.len() > 0 ==> r@ == names@[0]@.subrange(0, shared_len(str_views(names@)) as int),
{
    let ghost ns = str_views(names@);
    if names.len() == 0 {
        return String::new();
    }
    let first = crate::text::chars_of(names[0]);
    let mut len: usize = first.len();
    let mut i: usize = 1;
    assert(ns.subrange(0, 1).len() == 1);
    assert(ns.subrange(0, 1)[0] == ns[0]);
    while i < names.len()
        invariant
            1 <= i <= names@.len(),
            ns == str_views(names@),
            first@ == ns[0],
            len <= first@.len(),
            len == shared_len(ns.subrange(0, i as int)),
        decreases names.len() - i,
    {
        let other = crate::text::chars_of(names[i]);
        let mut k: usize = 0;
        while k < len && k < other.len() && first[k] == other[k]
            invariant
                k <= len,
                k <= other@.len(),
                len <= first@.len(),
                forall|j: int| 0 <= j < k ==> first@[j] == other@[j],
            decreases len - k,
        {
            k = k + 1;
        }
        proof {
            let a = first@.subrange(0, len as int);
            assert forall|j: int| 0 <= j < k implies a[j] == other@[j] by {}
            lemma_common_len(a, other@, k as int);
            let sub = ns.subrange(0, i + 1);
            assert(sub.drop_last() =~= ns.subrange(0, i as int));
            assert(sub.last() == other@);
            assert(sub[0] == ns[0]);
        }
        len = k;
        i = i + 1;
    }
    proof {
        assert(ns.subrange(0, names@.len() as int) =~= ns);
    }
    crate::text::string_of_range(&first, 0, len)
}

/// The first top-level key of a document that begins with `prefix` and is
/// none of `known`.
pub open spec fn first_near(doc: DocView, prefix: Seq<char>, known: Seq<Seq<char>>) -> Option<
    Seq<char>,
>
    decreases doc.len(),
{
    if doc.len() == 0 {
        None
    } else if has_prefix(doc[0].0, prefix) && !known.contains(doc[0].0) {
        Some(doc[0].0)
    } else {
        first_near(doc.subrange(1, doc.len() as int), prefix, known)
    }
}

/// Whether text takes under two bytes of UTF-8: it is empty, or it is one
/// ASCII character (any other character takes two bytes or more).
pub open spec fn under_two_bytes(p: Seq<char>) -> bool {
    p.len() == 0 || (p.len() == 1 && (p[0] as u32) < 128)
}

/// A tool's five pin key names, in their conventional order.
pub open spec fn key_names(k: PinKeys) -> Seq<Seq<char>> {
    seq![k.version@, k.rev@, k.tag@, k.branch@, k.git@]
}

/// A top-level key that looks like it was meant to be a pin key and is not:
/// it starts with the prefix all five share, and is none of them. Nothing
/// when the text is not TOML, or when the shared prefix is under two bytes,
/// where a near miss cannot be told from any other key.
pub open spec fn near_miss_of(t: Tool, text: Seq<char>) -> Option<Seq<char>> {
    let names = key_names(t.pin_keys);
    let prefix = names[0].subrange(0, shared_len(names) as int);
    match toml_document(text) {
        Err(_) => None,
        Ok(doc) => if under_two_bytes(prefix) {
            None
        } else {
            first_near(doc, prefix, names)
        },
    }
}

/// The near miss among a config's keys, if there is one. See
/// [`near_miss_of`].
pub fn near_miss(tool: &Tool, text: &str) -> (r: Option<String>)
    ensures
        opt_view(r) == near_miss_of(*tool, text@),
{
    let doc = match parse_toml(text) {
        Ok(d) => d,
        Err(_) => return None,
    };
    let k = &tool.pin_keys;
    let known: [&str; 5] = [k.version, k.rev, k.tag, k.branch, k.git];
    let ghost names = key_names(*k);
    assert(str_views(known@) =~= names);
    let prefix = shared_prefix(&known);
    proof {
        lemma_shared_len_bound(names);
    }
    let pc = crate::text::chars_of(prefix.as_str());
    if pc.len() == 0 || (pc.len() == 1 && (pc[0] as u32) < 128) {
        return None;
    }
    let ghost d = doc_view(doc@);
    proof {
        crate::toml_doc::lemma_entries_view(doc@);
    }
    assert(d.subrange(0, d.len() as int) =~= d);
    let mut i: usize = 0;
    while i < doc.len()
        invariant
            i <= doc@.len(),
            d == doc_view(doc@),
            d.len() == doc@.len(),
            forall|j: int| 0 <= j < doc@.len() ==> #[trigger] d[j] == (doc@[j].0@, doc@[j].1@),
            prefix@ == names[0].subrange(0, shared_len(names) as int),
            !under_two_bytes(prefix@),
            toml_document(text@) == Ok::<DocView, Seq<char>>(d),
            names == key_names(tool.pin_keys),
            str_views(known@) == names,
            first_near(d, prefix@, names) == first_near(
                d.subrange(i as int, d.len() as int),
                prefix@,
                names,
            ),
        decreases doc.len() - i,
    {
        let ghost tail = d.subrange(i as int, d.len() as int);
        assert(tail[0] == d[i as int]);
        assert(tail.subrange(1, tail.len() as int) =~= d.subrange(i + 1, d.len() as int));
        let name = doc[i].0.as_str();
        if starts_with(name, prefix.as_str()) {
            let mut is_known = false;
            let mut j: usize = 0;
            while j < 5
                invariant
                    j <= 5,
                    str_views(known@) == names,
                    is_known == (exists|m: int| 0 <= m < j && names[m] == name@),
                decreases 5 - j,
            {
                let hit = same(name, known[j]);
                proof {
                    assert(str_views(known@)[j as int] == known@[j as int]@);
                    if hit {
                        assert(names[j as int] == name@);
                    }
                }
                if hit {
                    is_known = true;
                }
                j = j + 1;
            }
            proof {
                if is_known {
                    let m = choose|m: int| 0 <= m < 5 && names[m] == name@;
                    assert(names.contains(name@));
                } else {
                    assert(!names.contains(name@)) by {
                        if names.contains(name@) {
                            let m = choose|m: int| 0 <= m < names.len() && names[m] == name@;
                            assert(0 <= m < 5);
                        }
                    }
                }
            }
            if !is_known {
                proof {
                    assert(tail[0].0 == name@);
                    assert(has_prefix(tail[0].0, prefix@));
                    assert(!names.contains(tail[0].0));
                    assert(first_near(tail, prefix@, names) == Some(name@));
                }
                return Some(owned(name));
            }
        }
        i = i + 1;
    }
    None
}

/// What `[package] name` a manifest's text declares, as text or as an inline
/// table, when it declares one as a string.
pub open spec fn package_name_of(doc: DocView) -> Option<Seq<char>> {
    match lookup(doc, "package"@) {
        Some(ValueView::Table(t)) => string_at(t, "name"@),
        _ => None,
    }
}

/// The package a `Cargo.toml`'s text declares itself to be, with `path` being
/// the manifest's path as the messages name it.
///
/// An error names the path: the parser's message after it when the text is
/// not TOML, and that it declares no `[package] name` when it parses and
/// names none, which is the ordinary case for a workspace root.
pub fn package_name_in(path: &str, text: &str) -> (r: Result<String, String>)
    ensures
        match toml_document(text@) {
            Err(e) => r matches Err(m) && m@ == path@ + ": "@ + e,
            Ok(doc) => match package_name_of(doc) {
                Some(n) => r matches Ok(s) && s@ == n,
                None => r matches Err(m) && m@ == path@ + " declares no [package] name"@,
            },
        },
{
    let doc = match parse_toml(text) {
        Ok(d) => d,
        Err(e) => return Err(cat3(path, ": ", e.as_str())),
    };
    proof {
        reveal_strlit("package");
        reveal_strlit("name");
    }
    let name = match find(&doc, "package") {
        Some(TomlValue::Table(t)) => {
            proof {
                crate::toml_doc::lemma_entries_view(t@);
            }
            find_string(t, "name")
        },
        _ => None,
    };
    match name {
        Some(n) => Ok(n),
        None => Err(cat(path, " declares no [package] name")),
    }
}

} // verus!
