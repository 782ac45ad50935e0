//! Text as sequences of characters.
//!
//! Every name, path and message in this crate is text, and every decision the
//! launcher makes about one is a decision about its characters. The functions
//! here are the few primitives those decisions are written in, each stated over
//! the `Seq<char>` view of a string.

use vstd::prelude::*;
use vstd::string::*;

verus! {

/// Whether `p` is a prefix of `s`.
pub open spec fn has_prefix(s: Seq<char>, p: Seq<char>) -> bool {
    p.len() <= s.len() && s.subrange(0, p.len() as int) == p
}

/// Whether `p` is a suffix of `s`.
pub open spec fn has_suffix(s: Seq<char>, p: Seq<char>) -> bool {
    p.len() <= s.len() && s.subrange(s.len() - p.len(), s.len() as int) == p
}

/// `s` with the prefix `p` removed, when it has it.
pub open spec fn strip_prefix_spec(s: Seq<char>, p: Seq<char>) -> Option<Seq<char>> {
    if has_prefix(s, p) {
        Some(s.subrange(p.len() as int, s.len() as int))
    } else {
        None
    }
}

/// Whether `c` occurs anywhere in `s`.
pub open spec fn has_char(s: Seq<char>, c: char) -> bool {
    exists|i: int| 0 <= i < s.len() && s[i] == c
}

/// Whether a character is an ASCII decimal digit.
pub open spec fn is_digit(c: char) -> bool {
    '0' <= c && c <= '9'
}

/// Whether a character is an ASCII letter or digit.
pub open spec fn is_alnum(c: char) -> bool {
    is_digit(c) || ('a' <= c && c <= 'z') || ('A' <= c && c <= 'Z')
}

/// Whether a character is a lowercase hexadecimal digit.
pub open spec fn is_lower_hex(c: char) -> bool {
    is_digit(c) || ('a' <= c && c <= 'f')
}

/// Whether a character is a hexadecimal digit of either case.
pub open spec fn is_hex(c: char) -> bool {
    is_lower_hex(c) || ('A' <= c && c <= 'F')
}

/// Unicode `White_Space`, the set `char::is_whitespace` is documented to test.
pub open spec fn is_space(c: char) -> bool {
    ||| c == ' ' || c == '\t' || c == '\n' || c == '\r'
    ||| c == '\u{0B}' || c == '\u{0C}' || c == '\u{85}' || c == '\u{A0}'
    ||| c == '\u{1680}' || ('\u{2000}' <= c && c <= '\u{200A}')
    ||| c == '\u{2028}' || c == '\u{2029}' || c == '\u{202F}' || c == '\u{205F}'
    ||| c == '\u{3000}'
}

/// The index of the first character of `s` that is not white space, at or
/// after `i`.
pub open spec fn first_non_space(s: Seq<char>, i: int) -> int
    decreases s.len() - i,
{
    if i >= s.len() {
        s.len() as int
    } else if is_space(s[i]) {
        first_non_space(s, i + 1)
    } else {
        i
    }
}

/// One past the index of the last character of `s[..j]` that is not white
/// space.
pub open spec fn last_non_space(s: Seq<char>, j: int) -> int
    decreases j,
{
    if j <= 0 {
        0
    } else if is_space(s[j - 1]) {
        last_non_space(s, j - 1)
    } else {
        j
    }
}

/// `s` with leading and trailing white space removed, as `str::trim` does.
pub open spec fn trim(s: Seq<char>) -> Seq<char> {
    let a = first_non_space(s, 0);
    if a >= s.len() {
        Seq::empty()
    } else {
        s.subrange(a, last_non_space(s, s.len() as int))
    }
}

/// `String::push`: the string afterwards is the string before with `c`
/// appended.
#[verifier::external_body]
pub(crate) fn push_char(s: &mut String, c: char)
    ensures
        final(s)@ == old(s)@.push(c),
{
    s.push(c)
}

/// The characters of `s`, as a vector.
pub fn chars_of(s: &str) -> (r: Vec<char>)
    ensures
        r@ == s@,
{
    let n = s.unicode_len();
    let mut v: Vec<char> = Vec::new();
    let mut i: usize = 0;
    while i < n
        invariant
            n == s@.len(),
            i <= n,
            v@ == s@.subrange(0, i as int),
        decreases n - i,
    {
        let c = s.get_char(i);
        v.push(c);
        i = i + 1;
    }
    v
}

/// A string holding exactly the characters of `v`.
pub fn string_of(v: &[char]) -> (r: String)
    ensures
        r@ == v@,
{
    let mut s = String::new();
    let mut i: usize = 0;
    while i < v.len()
        invariant
            i <= v@.len(),
            s@ == v@.subrange(0, i as int),
        decreases v.len() - i,
    {
        push_char(&mut s, v[i]);
        i = i + 1;
    }
    s
}

/// A copy of `s` as an owned string.
pub fn owned(s: &str) -> (r: String)
    ensures
        r@ == s@,
{
    String::from_str(s)
}

/// `a` followed by `b`.
pub fn cat(a: &str, b: &str) -> (r: String)
    ensures
        r@ == a@ + b@,
{
    let mut s = String::from_str(a);
    s.append(b);
    s
}

/// `a`, `b` and `c` in order.
pub fn cat3(a: &str, b: &str, c: &str) -> (r: String)
    ensures
        r@ == a@ + b@ + c@,
{
    let mut s = String::from_str(a);
    s.append(b);
    s.append(c);
    s
}

/// Whether two strings hold the same characters.
pub fn same(a: &str, b: &str) -> (r: bool)
    ensures
        r == (a@ == b@),
{
    let x = chars_of(a);
    let y = chars_of(b);
    if x.len() != y.len() {
        return false;
    }
    let mut i: usize = 0;
    while i < x.len()
        invariant
            x@ == a@,
            y@ == b@,
            x@.len() == y@.len(),
            i <= x@.len(),
            forall|j: int| 0 <= j < i ==> x@[j] == y@[j],
        decreases x.len() - i,
    {
        if x[i] != y[i] {
            return false;
        }
        i = i + 1;
    }
    assert(x@ =~= y@);
    true
}

/// Whether `s` begins with `p`.
pub fn starts_with(s: &str, p: &str) -> (r: bool)
    ensures
        r == has_prefix(s@, p@),
{
    let x = chars_of(s);
    let y = chars_of(p);
    slice_starts_with(&x, &y)
}

/// Whether the characters `x` begin with the characters `y`.
pub fn slice_starts_with(x: &[char], y: &[char]) -> (r: bool)
    ensures
        r == has_prefix(x@, y@),
{
    if y.len() > x.len() {
        return false;
    }
    let mut i: usize = 0;
    while i < y.len()
        invariant
            y@.len() <= x@.len(),
            i <= y@.len(),
            forall|j: int| 0 <= j < i ==> x@[j] == y@[j],
        decreases y.len() - i,
    {
        if x[i] != y[i] {
            assert(x@.subrange(0, y@.len() as int)[i as int] != y@[i as int]);
            return false;
        }
        i = i + 1;
    }
    assert(x@.subrange(0, y@.len() as int) =~= y@);
    true
}

/// The characters `v[from..to]` as a string.
pub fn string_of_range(v: &[char], from: usize, to: usize) -> (r: String)
    requires
        from <= to <= v@.len(),
    ensures
        r@ == v@.subrange(from as int, to as int),
{
    let mut s = String::new();
    let mut i: usize = from;
    while i < to
        invariant
            from <= i <= to,
            to <= v@.len(),
            s@ == v@.subrange(from as int, i as int),
        decreases to - i,
    {
        push_char(&mut s, v[i]);
        i = i + 1;
    }
    s
}

/// `s` with its prefix `p` removed, when it has it.
pub fn strip_prefix(s: &str, p: &str) -> (r: Option<String>)
    ensures
        r matches Some(t) ==> strip_prefix_spec(s@, p@) == Some(t@),
        r is None ==> strip_prefix_spec(s@, p@) is None,
{
    let x = chars_of(s);
    let y = chars_of(p);
    if slice_starts_with(&x, &y) {
        Some(string_of_range(&x, y.len(), x.len()))
    } else {
        None
    }
}

/// Whether `c` occurs in `s`.
pub fn contains_char(s: &str, c: char) -> (r: bool)
    ensures
        r == has_char(s@, c),
{
    let x = chars_of(s);
    let mut i: usize = 0;
    while i < x.len()
        invariant
            x@ == s@,
            i <= x@.len(),
            forall|j: int| 0 <= j < i ==> x@[j] != c,
        decreases x.len() - i,
    {
        if x[i] == c {
            return true;
        }
        i = i + 1;
    }
    false
}

/// The index just past the first white space at or after `i`, skipping a
/// leading run: the start of the trimmed text.
pub fn trim_chars(s: &[char]) -> (r: Vec<char>)
    ensures
        r@ == trim(s@),
{
    let n = s.len();
    let mut a: usize = 0;
    while a < n && is_space_exec(s[a])
        invariant
            n == s@.len(),
            a <= n,
            first_non_space(s@, 0) == first_non_space(s@, a as int),
        decreases n - a,
    {
        a = a + 1;
    }
    if a >= n {
        return Vec::new();
    }
    let mut b: usize = n;
    while b > a && is_space_exec(s[b - 1])
        invariant
            n == s@.len(),
            a < n,
            a < b <= n,
            first_non_space(s@, 0) == a,
            !is_space(s@[a as int]),
            last_non_space(s@, n as int) == last_non_space(s@, b as int),
        decreases b,
    {
        b = b - 1;
    }
    assert(last_non_space(s@, b as int) == b);
    let mut out: Vec<char> = Vec::new();
    let mut i: usize = a;
    while i < b
        invariant
            a <= i <= b,
            b <= s@.len(),
            out@ == s@.subrange(a as int, i as int),
        decreases b - i,
    {
        out.push(s[i]);
        i = i + 1;
    }
    out
}

/// Whether `c` is white space.
pub fn is_space_exec(c: char) -> (r: bool)
    ensures
        r == is_space(c),
{
    c == ' ' || c == '\t' || c == '\n' || c == '\r' || c == '\u{0B}' || c == '\u{0C}'
        || c == '\u{85}' || c == '\u{A0}' || c == '\u{1680}' || ('\u{2000}' <= c && c
        <= '\u{200A}') || c == '\u{2028}' || c == '\u{2029}' || c == '\u{202F}' || c
        == '\u{205F}' || c == '\u{3000}'
}


/// The number of bytes a character takes in UTF-8.
pub open spec fn utf8_width(c: char) -> nat {
    if (c as u32) < 0x80 {
        1
    } else if (c as u32) < 0x800 {
        2
    } else if (c as u32) < 0x10000 {
        3
    } else {
        4
    }
}

/// The number of bytes `s` takes in UTF-8, which is what `str::len` counts.
pub open spec fn utf8_len(s: Seq<char>) -> nat
    decreases s.len(),
{
    if s.len() == 0 {
        0
    } else {
        utf8_len(s.drop_last()) + utf8_width(s.last())
    }
}

/// The UTF-8 length of `s`, saturating at `cap`.
pub fn utf8_len_capped(s: &str, cap: usize) -> (r: usize)
    ensures
        r == if utf8_len(s@) < cap { utf8_len(s@) } else { cap as nat },
{
    let x = chars_of(s);
    let mut n: usize = 0;
    let mut i: usize = 0;
    while i < x.len()
        invariant
            x@ == s@,
            i <= x@.len(),
            n == if utf8_len(s@.subrange(0, i as int)) < cap {
                utf8_len(s@.subrange(0, i as int))
            } else {
                cap as nat
            },
        decreases x.len() - i,
    {
        let c = x[i] as u32;
        let w: usize = if c < 0x80 {
            1
        } else if c < 0x800 {
            2
        } else if c < 0x10000 {
            3
        } else {
            4
        };
        proof {
            assert(s@.subrange(0, i + 1).drop_last() =~= s@.subrange(0, i as int));
            lemma_utf8_len_grows(s@.subrange(0, i + 1));
        }
        if n < cap {
            n = if cap - n <= w { cap } else { n + w };
        }
        i = i + 1;
    }
    assert(s@.subrange(0, x@.len() as int) =~= s@);
    n
}

proof fn lemma_utf8_len_grows(s: Seq<char>)
    requires
        s.len() > 0,
    ensures
        utf8_len(s) == utf8_len(s.drop_last()) + utf8_width(s.last()),
        utf8_len(s) >= utf8_len(s.drop_last()),
{
}

/// The index of the first white space at or after `i`, or the length.
pub open spec fn token_end(s: Seq<char>, i: int) -> int
    decreases s.len() - i,
{
    if i >= s.len() || is_space(s[i]) {
        if i >= s.len() { s.len() as int } else { i }
    } else {
        token_end(s, i + 1)
    }
}

/// The first whitespace-separated word of the first line of `s`, or nothing:
/// what `s.lines().next()` and then `split_whitespace().next()` give.
pub open spec fn first_word(s: Seq<char>) -> Seq<char> {
    let a = first_non_space(s, 0);
    if a >= s.len() || has_char(s.subrange(0, a), '\n') {
        Seq::empty()
    } else {
        s.subrange(a, token_end(s, a))
    }
}

proof fn lemma_first_non_space_bounds(s: Seq<char>, i: int)
    requires
        0 <= i,
    ensures
        i <= first_non_space(s, i) || i > s.len(),
        first_non_space(s, i) <= s.len() || i > s.len(),
        i <= s.len() ==> forall|j: int| i <= j < first_non_space(s, i) ==> is_space(#[trigger] s[j]),
        first_non_space(s, i) < s.len() ==> !is_space(s[first_non_space(s, i)]),
    decreases s.len() - i,
{
    if i < s.len() && is_space(s[i]) {
        lemma_first_non_space_bounds(s, i + 1);
    }
}

proof fn lemma_token_end_bounds(s: Seq<char>, i: int)
    requires
        0 <= i <= s.len(),
    ensures
        i <= token_end(s, i) <= s.len(),
    decreases s.len() - i,
{
    if i < s.len() && !is_space(s[i]) {
        lemma_token_end_bounds(s, i + 1);
    }
}

/// The first word of the first line of `s`. See [`first_word`].
pub fn first_word_of(s: &str) -> (r: String)
    ensures
        r@ == first_word(s@),
{
    let x = chars_of(s);
    let n = x.len();
    let mut a: usize = 0;
    let mut newline = false;
    while a < n && is_space_exec(x[a])
        invariant
            x@ == s@,
            n == x@.len(),
            a <= n,
            first_non_space(s@, 0) == first_non_space(s@, a as int),
            newline == has_char(s@.subrange(0, a as int), '\n'),
        decreases n - a,
    {
        proof {
            let p = s@.subrange(0, a + 1);
            assert(p.drop_last() =~= s@.subrange(0, a as int));
            if has_char(p, '\n') && !has_char(s@.subrange(0, a as int), '\n') {
                let j = choose|j: int| 0 <= j < p.len() && p[j] == '\n';
                if j < a {
                    assert(s@.subrange(0, a as int)[j] == '\n');
                }
            }
            if has_char(s@.subrange(0, a as int), '\n') {
                let j = choose|j: int| 0 <= j < a && s@.subrange(0, a as int)[j] == '\n';
                assert(p[j] == '\n');
            }
            if x@[a as int] == '\n' {
                assert(p[a as int] == '\n');
            }
        }
        if x[a] == '\n' {
            newline = true;
        }
        a = a + 1;
    }
    if a >= n || newline {
        return String::new();
    }
    let mut b: usize = a;
    while b < n && !is_space_exec(x[b])
        invariant
            x@ == s@,
            n == x@.len(),
            a <= b <= n,
            token_end(s@, a as int) == token_end(s@, b as int),
        decreases n - b,
    {
        b = b + 1;
    }
    string_of_range(&x, a, b)
}

/// The index of the first `\n` in `s`, or its length.
pub open spec fn line_end(s: Seq<char>, i: int) -> int
    decreases s.len() - i,
{
    if i >= s.len() {
        s.len() as int
    } else if s[i] == '\n' {
        i
    } else {
        line_end(s, i + 1)
    }
}

/// The first line of `s`, without its line ending, or nothing for empty text.
pub open spec fn first_line(s: Seq<char>) -> Option<Seq<char>> {
    if s.len() == 0 {
        None
    } else {
        let e = line_end(s, 0);
        let line = s.subrange(0, e);
        if e < s.len() && line.len() > 0 && line.last() == '\r' {
            Some(line.drop_last())
        } else {
            Some(line)
        }
    }
}

/// What follows the first line ending of `s`, or nothing where it has none.
pub open spec fn after_first_line(s: Seq<char>) -> Seq<char> {
    let e = line_end(s, 0);
    if e < s.len() {
        s.subrange(e + 1, s.len() as int)
    } else {
        Seq::empty()
    }
}

proof fn lemma_line_end_bounds(s: Seq<char>, i: int)
    requires
        0 <= i <= s.len(),
    ensures
        i <= line_end(s, i) <= s.len(),
        line_end(s, i) < s.len() ==> s[line_end(s, i)] == '\n',
    decreases s.len() - i,
{
    if i < s.len() && s[i] != '\n' {
        lemma_line_end_bounds(s, i + 1);
    }
}

/// The first line of `s` and what follows its line ending, as
/// `str::lines` splits them.
pub fn split_first_line(s: &str) -> (r: (Option<String>, String))
    ensures
        opt_chars(r.0) == first_line(s@),
        r.1@ == after_first_line(s@),
{
    let x = chars_of(s);
    let n = x.len();
    let mut e: usize = 0;
    while e < n && x[e] != '\n'
        invariant
            x@ == s@,
            n == x@.len(),
            e <= n,
            line_end(s@, 0) == line_end(s@, e as int),
        decreases n - e,
    {
        e = e + 1;
    }
    proof {
        lemma_line_end_bounds(s@, e as int);
    }
    let rest = if e < n {
        string_of_range(&x, e + 1, n)
    } else {
        String::new()
    };
    if n == 0 {
        return (None, rest);
    }
    let line = if e < n && e > 0 && x[e - 1] == '\r' {
        string_of_range(&x, 0, e - 1)
    } else {
        string_of_range(&x, 0, e)
    };
    proof {
        if e < n && e > 0 && x@[e - 1] == '\r' {
            assert(s@.subrange(0, e as int).drop_last() =~= s@.subrange(0, e - 1));
        }
    }
    (Some(line), rest)
}

/// The characters of an optional string.
pub open spec fn opt_chars(o: Option<String>) -> Option<Seq<char>> {
    match o {
        Some(s) => Some(s@),
        None => None,
    }
}

/// The value of a run of decimal digits.
pub open spec fn decimal_value(s: Seq<char>) -> nat
    decreases s.len(),
{
    if s.len() == 0 {
        0
    } else {
        decimal_value(s.drop_last()) * 10 + ((s.last() as u32) - 48) as nat
    }
}

/// Whether every character of `d` is an ASCII digit.
pub open spec fn all_digits(d: Seq<char>) -> bool {
    forall|i: int| 0 <= i < d.len() ==> is_digit(#[trigger] d[i])
}

/// `s` without one leading `+`.
pub open spec fn unsigned_digits(s: Seq<char>) -> Seq<char> {
    if s.len() > 0 && s[0] == '+' {
        s.subrange(1, s.len() as int)
    } else {
        s
    }
}

/// What `str::parse::<u64>` gives: an optional `+`, then one or more ASCII
/// digits whose value fits in 64 bits.
pub open spec fn parse_u64_spec(s: Seq<char>) -> Option<u64> {
    let d = unsigned_digits(s);
    if d.len() > 0 && all_digits(d) && decimal_value(d) <= u64::MAX {
        Some(decimal_value(d) as u64)
    } else {
        None
    }
}

/// An unsigned decimal number. See [`parse_u64_spec`].
pub fn parse_u64(s: &str) -> (r: Option<u64>)
    ensures
        r == parse_u64_spec(s@),
{
    let x = chars_of(s);
    let start: usize = if x.len() > 0 && x[0] == '+' { 1 } else { 0 };
    let ghost d = if s@.len() > 0 && s@[0] == '+' {
        s@.subrange(1, s@.len() as int)
    } else {
        s@
    };
    assert(d =~= s@.subrange(start as int, s@.len() as int));
    if start >= x.len() {
        return None;
    }
    let mut v: u64 = 0;
    let mut i: usize = start;
    while i < x.len()
        invariant
            x@ == s@,
            start <= i <= x@.len(),
            start == (if s@.len() > 0 && s@[0] == '+' { 1int } else { 0int }),
            d == unsigned_digits(s@),
            d =~= s@.subrange(start as int, s@.len() as int),
            forall|j: int| 0 <= j < i - start ==> is_digit(#[trigger] d[j]),
            v == decimal_value(d.subrange(0, i - start)),
        decreases x.len() - i,
    {
        let c = x[i];
        if !('0' <= c && c <= '9') {
            proof {
                assert(d[i - start] == c);
                assert(!is_digit(d[i - start]));
                assert(!(forall|j: int| 0 <= j < d.len() ==> is_digit(#[trigger] d[j])));
            }
            return None;
        }
        let digit = (c as u32 - 48) as u64;
        proof {
            assert(d.subrange(0, i - start + 1).drop_last() =~= d.subrange(0, i - start));
            assert(d.subrange(0, i - start + 1).last() == c);
        }
        if v > (u64::MAX - digit) / 10 {
            proof {
                assert(decimal_value(d.subrange(0, i - start + 1)) > u64::MAX);
                if forall|j: int| 0 <= j < d.len() ==> is_digit(#[trigger] d[j]) {
                    lemma_decimal_prefix_bound(d, i - start + 1);
                    assert(decimal_value(d) > u64::MAX);
                }
            }
            return None;
        }
        v = v * 10 + digit;
        i = i + 1;
    }
    assert(d.subrange(0, d.len() as int) =~= d);
    Some(v)
}

proof fn lemma_decimal_prefix_bound(d: Seq<char>, k: int)
    requires
        0 <= k <= d.len(),
        forall|j: int| 0 <= j < d.len() ==> is_digit(#[trigger] d[j]),
    ensures
        decimal_value(d.subrange(0, k)) <= decimal_value(d),
    decreases d.len() - k,
{
    if k < d.len() {
        lemma_decimal_prefix_bound(d, k + 1);
        assert(d.subrange(0, k + 1).drop_last() =~= d.subrange(0, k));
    } else {
        assert(d.subrange(0, k) =~= d);
    }
}

/// The decimal digits of `n`, most significant first, with no leading zero
/// (and `0` for zero).
pub open spec fn decimal(n: nat) -> Seq<char>
    decreases n,
{
    if n < 10 {
        seq![((48 + n) as u32) as char]
    } else {
        decimal(n / 10).push(((48 + n % 10) as u32) as char)
    }
}

/// `n` in decimal, as `format!("{n}")` renders it.
pub fn to_decimal(n: u64) -> (r: String)
    ensures
        r@ == decimal(n as nat),
    decreases n,
{
    let d = (n % 10) as u8;
    let c = (48 + d) as char;
    assert(c == ((48 + (n % 10) as nat) as u32) as char);
    if n < 10 {
        let mut s = String::new();
        push_char(&mut s, c);
        s
    } else {
        let mut s = to_decimal(n / 10);
        push_char(&mut s, c);
        s
    }
}


/// Whether `pat` occurs in `s` starting at `i`.
pub open spec fn occurs_at(s: Seq<char>, pat: Seq<char>, i: int) -> bool {
    0 <= i && i + pat.len() <= s.len() && s.subrange(i, i + pat.len()) == pat
}

/// Whether `pat` occurs anywhere in `s`.
pub open spec fn has_infix(s: Seq<char>, pat: Seq<char>) -> bool {
    exists|i: int| #[trigger] occurs_at(s, pat, i)
}

/// The middle of a concatenation occurs in it.
pub proof fn lemma_infix_of_concat(a: Seq<char>, b: Seq<char>, c: Seq<char>)
    ensures
        has_infix(a + b + c, b),
{
    assert((a + b + c).subrange(a.len() as int, (a.len() + b.len()) as int) =~= b);
    assert(occurs_at(a + b + c, b, a.len() as int));
}

/// What occurs in a text still occurs once more is put on either side of it.
pub proof fn lemma_infix_widens(s: Seq<char>, pat: Seq<char>, left: Seq<char>, right: Seq<char>)
    requires
        has_infix(s, pat),
    ensures
        has_infix(left + s + right, pat),
{
    let i = choose|i: int| #[trigger] occurs_at(s, pat, i);
    let w = left + s + right;
    assert(w.subrange(left.len() + i, left.len() + i + pat.len()) =~= s.subrange(i, i + pat.len()));
    assert(occurs_at(w, pat, left.len() + i));
}

/// Whether `pat` occurs in `s`.
pub fn contains_str(s: &str, pat: &str) -> (r: bool)
    ensures
        r == has_infix(s@, pat@),
{
    let x = chars_of(s);
    let p = chars_of(pat);
    if p.len() > x.len() {
        assert(!has_infix(s@, pat@)) by {
            if has_infix(s@, pat@) {
                let i = choose|i: int| #[trigger] occurs_at(s@, pat@, i);
            }
        }
        return false;
    }
    let xl = x.len();
    let mut i: usize = 0;
    while i <= x.len() - p.len()
        invariant
            xl == x@.len(),
            x@ == s@,
            p@ == pat@,
            p@.len() <= x@.len(),
            i <= x@.len() - p@.len() + 1,
            forall|k: int| 0 <= k < i ==> !#[trigger] occurs_at(s@, pat@, k),
        decreases x.len() - p.len() + 1 - i,
    {
        let mut j: usize = 0;
        let mut same_so_far = true;
        while j < p.len() && same_so_far
            invariant
                xl == x@.len(),
                x@ == s@,
                p@ == pat@,
                i + p@.len() <= x@.len(),
                j <= p@.len(),
                same_so_far ==> forall|m: int| 0 <= m < j ==> x@[i + m] == p@[m],
                !same_so_far ==> j > 0 && x@[i + j - 1] != p@[j - 1],
            decreases p.len() - j + (if same_so_far { 1int } else { 0int }),
        {
            let k = i + j;
            if x[k] != p[j] {
                same_so_far = false;
            }
            j = j + 1;
        }
        if same_so_far {
            assert(s@.subrange(i as int, i + pat@.len()) =~= pat@);
            assert(occurs_at(s@, pat@, i as int));
            return true;
        }
        assert(s@.subrange(i as int, i + pat@.len())[j - 1] != pat@[j - 1]);
        i = i + 1;
    }
    assert(!has_infix(s@, pat@)) by {
        if has_infix(s@, pat@) {
            let k = choose|k: int| #[trigger] occurs_at(s@, pat@, k);
            assert(k < i);
        }
    }
    false
}

} // verus!
