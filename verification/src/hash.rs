//! Stable FNV-1a 64-bit.
//!
//! The build cache key is persisted on disk and must mean the same thing
//! across Rust releases, which the standard library's default hasher does not
//! promise. FNV-1a is trivial, deterministic forever, and collision-resistant
//! enough to distinguish compilation inputs for a cache directory name.

use vstd::prelude::*;

use crate::text::push_char;

verus! {

/// The FNV-1a 64-bit offset basis.
pub const OFFSET: u64 = 0xCBF2_9CE4_8422_2325;

/// The FNV-1a 64-bit prime.
pub const PRIME: u64 = 0x0000_0100_0000_01B3;

/// One FNV-1a round: xor the byte in, then multiply by the prime, wrapping.
pub open spec fn fnv_step(h: u64, b: u8) -> u64 {
    (((h ^ (b as u64)) as nat * PRIME as nat) % 0x1_0000_0000_0000_0000) as u64
}

/// The state after folding every byte of `s` into `h`, first to last.
pub open spec fn fnv_bytes(h: u64, s: Seq<u8>) -> u64
    decreases s.len(),
{
    if s.len() == 0 {
        h
    } else {
        fnv_step(fnv_bytes(h, s.drop_last()), s.last())
    }
}

/// The bytes one text field contributes: its UTF-8 encoding and a NUL.
pub open spec fn field_bytes(s: Seq<char>) -> Seq<u8> {
    vstd::utf8::encode_utf8(s).push(0u8)
}

/// The bytes a sequence of text fields contributes, in order.
pub open spec fn fields_bytes(fields: Seq<Seq<char>>) -> Seq<u8>
    decreases fields.len(),
{
    if fields.len() == 0 {
        Seq::empty()
    } else {
        fields_bytes(fields.drop_last()) + field_bytes(fields.last())
    }
}

/// The FNV-1a hash of a sequence of text fields.
pub open spec fn fnv_fields(fields: Seq<Seq<char>>) -> u64 {
    fnv_bytes(OFFSET, fields_bytes(fields))
}

/// The `n` lowest hexadecimal digits of `h`, least significant first.
pub open spec fn low_digits(h: nat, n: nat) -> Seq<nat>
    decreases n,
{
    if n == 0 {
        Seq::empty()
    } else {
        seq![h % 16].add(low_digits(h / 16, (n - 1) as nat))
    }
}

/// The lowercase character for a hexadecimal digit.
pub open spec fn hex_char(d: nat) -> char {
    if d < 10 {
        ((48 + d) as u32) as char
    } else {
        ((87 + d) as u32) as char
    }
}

/// `h` as sixteen lowercase hexadecimal digits, most significant first.
pub open spec fn hex16(h: u64) -> Seq<char> {
    Seq::new(16, |i: int| hex_char(low_digits(h as nat, 16)[15 - i]))
}

/// An FNV-1a 64-bit accumulator.
pub struct Fnv {
    state: u64,
}

impl Fnv {
    /// The accumulated hash.
    pub closed spec fn value(&self) -> u64 {
        self.state
    }

    /// A fresh accumulator, at the offset basis.
    pub fn new() -> (r: Fnv)
        ensures
            r.value() == OFFSET,
    {
        Fnv { state: OFFSET }
    }

    /// Fold raw bytes in.
    pub fn write(&mut self, bytes: &[u8])
        ensures
            final(self).value() == fnv_bytes(old(self).value(), bytes@),
    {
        let ghost start = self.state;
        let mut i: usize = 0;
        while i < bytes.len()
            invariant
                i <= bytes@.len(),
                self.state == fnv_bytes(start, bytes@.subrange(0, i as int)),
            decreases bytes.len() - i,
        {
            let b = bytes[i];
            assert(bytes@.subrange(0, i + 1).drop_last() =~= bytes@.subrange(0, i as int));
            self.state = (self.state ^ (b as u64)).wrapping_mul(PRIME);
            i = i + 1;
        }
        assert(bytes@.subrange(0, bytes@.len() as int) =~= bytes@);
    }

    /// Fold a string in, followed by a NUL separator, so that distinct fields
    /// cannot collide by running together.
    pub fn write_field(&mut self, s: &str)
        ensures
            final(self).value() == fnv_bytes(old(self).value(), field_bytes(s@)),
    {
        let b = s.as_bytes();
        self.write_bytes(b);
    }

    /// The same, for a field that is bytes rather than text.
    pub fn write_bytes(&mut self, b: &[u8])
        ensures
            final(self).value() == fnv_bytes(old(self).value(), b@.push(0u8)),
    {
        self.write(b);
        let z: Vec<u8> = vec![0u8];
        assert(z@ =~= seq![0u8]);
        self.write(z.as_slice());
        proof {
            lemma_fnv_concat(old(self).value(), b@, seq![0u8]);
            assert(b@ + seq![0u8] =~= b@.push(0u8));
        }
    }

    /// The sixteen-digit lowercase hexadecimal rendering of the hash.
    pub fn hex(&self) -> (r: String)
        ensures
            r@ == hex16(self.value()),
    {
        let mut digits: Vec<char> = Vec::new();
        let mut v: u64 = self.state;
        let mut k: usize = 0;
        while k < 16
            invariant
                k <= 16,
                digits@.len() == k,
                low_digits(self.state as nat, 16) == digits@.map_values(|c: char| hex_value(c))
                    + low_digits(v as nat, (16 - k) as nat),
                forall|j: int| 0 <= j < k ==> is_hex_digit_char(#[trigger] digits@[j]),
            decreases 16 - k,
        {
            let d = v % 16;
            let c = digit_char(d);
            proof {
                assert(low_digits(v as nat, (16 - k) as nat) == seq![(v % 16) as nat].add(
                    low_digits((v / 16) as nat, (16 - k - 1) as nat),
                ));
            }
            let ghost before = digits@;
            digits.push(c);
            proof {
                assert(digits@.map_values(|c: char| hex_value(c)) =~= before.map_values(
                    |c: char| hex_value(c),
                ).push(d as nat));
                assert(before.map_values(|c: char| hex_value(c)).push(d as nat) + low_digits(
                    (v / 16) as nat,
                    (16 - k - 1) as nat,
                ) =~= before.map_values(|c: char| hex_value(c)) + (seq![(v % 16) as nat].add(
                    low_digits((v / 16) as nat, (16 - k - 1) as nat),
                )));
            }
            v = v / 16;
            k = k + 1;
        }
        let mut s = String::new();
        let mut i: usize = 0;
        while i < 16
            invariant
                i <= 16,
                digits@.len() == 16,
                low_digits(self.state as nat, 16) =~= digits@.map_values(|c: char| hex_value(c))
                    + low_digits(v as nat, 0),
                forall|j: int| 0 <= j < 16 ==> is_hex_digit_char(#[trigger] digits@[j]),
                s@.len() == i,
                forall|j: int| 0 <= j < i ==> s@[j] == hex16(self.state)[j],
            decreases 16 - i,
        {
            let c = digits[15 - i];
            proof {
                let m = digits@.map_values(|c: char| hex_value(c));
                assert(low_digits(self.state as nat, 16)[15 - i] == m[15 - i]);
                lemma_hex_roundtrip(digits@[15 - i]);
            }
            push_char(&mut s, c);
            i = i + 1;
        }
        assert(s@ =~= hex16(self.state));
        s
    }
}

/// The value of a hexadecimal digit character.
pub open spec fn hex_value(c: char) -> nat {
    if '0' <= c && c <= '9' {
        ((c as u32) - 48) as nat
    } else {
        ((c as u32) - 87) as nat
    }
}

/// Whether `c` is one of the sixteen lowercase hexadecimal digits.
pub open spec fn is_hex_digit_char(c: char) -> bool {
    ('0' <= c && c <= '9') || ('a' <= c && c <= 'f')
}

proof fn lemma_hex_roundtrip(c: char)
    requires
        is_hex_digit_char(c),
    ensures
        hex_char(hex_value(c)) == c,
{
}

/// The character for a digit below sixteen.
fn digit_char(d: u64) -> (c: char)
    requires
        d < 16,
    ensures
        hex_value(c) == d,
        is_hex_digit_char(c),
        c == hex_char(d as nat),
{
    if d < 10 {
        let b = (48 + d) as u8;
        b as char
    } else {
        let b = (87 + d) as u8;
        b as char
    }
}

/// Folding two byte runs one after the other is folding their concatenation.
pub proof fn lemma_fnv_concat(h: u64, a: Seq<u8>, b: Seq<u8>)
    ensures
        fnv_bytes(fnv_bytes(h, a), b) == fnv_bytes(h, a + b),
    decreases b.len(),
{
    if b.len() == 0 {
        assert(a + b =~= a);
    } else {
        lemma_fnv_concat(h, a, b.drop_last());
        assert((a + b).drop_last() =~= a + b.drop_last());
        assert((a + b).last() == b.last());
    }
}

/// Writing the fields one at a time is hashing their joined bytes.
pub proof fn lemma_fields_step(fields: Seq<Seq<char>>, f: Seq<char>)
    ensures
        fnv_bytes(fnv_fields(fields), field_bytes(f)) == fnv_fields(fields.push(f)),
{
    lemma_fnv_concat(OFFSET, fields_bytes(fields), field_bytes(f));
    assert(fields.push(f).drop_last() =~= fields);
}

/// Whether no field holds a NUL character, the one character whose encoding
/// is the separator byte.
pub open spec fn nul_free(fields: Seq<Seq<char>>) -> bool {
    forall|i: int, j: int| 0 <= i < fields.len() && 0 <= j < fields[i].len() ==> #[trigger] fields[i][j] != '\u{0}'
}

/// No byte of a character's UTF-8 encoding is zero unless the character is
/// NUL.
proof fn lemma_scalar_has_no_zero_byte(c: char)
    requires
        c != '\u{0}',
    ensures
        forall|k: int| 0 <= k < vstd::utf8::encode_scalar(c as u32).len() ==> #[trigger] vstd::utf8::encode_scalar(c as u32)[k] != 0u8,
{
    let v = c as u32;
    vstd::utf8::char_is_scalar(c);
    assert(v != 0);
    if vstd::utf8::has_width_1_encoding(v) {
        assert(v & 0x7f == v) by (bit_vector)
            requires
                v <= 0x7f,
        ;
    } else {
        assert(forall|y: u8| #![trigger (0xC0u8 | y)] (0xC0u8 | y) != 0u8) by (bit_vector);
        assert(forall|y: u8| #![trigger (0xE0u8 | y)] (0xE0u8 | y) != 0u8) by (bit_vector);
        assert(forall|y: u8| #![trigger (0xF0u8 | y)] (0xF0u8 | y) != 0u8) by (bit_vector);
        assert(forall|y: u8| #![trigger (0x80u8 | y)] (0x80u8 | y) != 0u8) by (bit_vector);
    }
}

/// The UTF-8 encoding of text with no NUL holds no zero byte.
proof fn lemma_encoding_has_no_zero_byte(s: Seq<char>)
    requires
        forall|j: int| 0 <= j < s.len() ==> #[trigger] s[j] != '\u{0}',
    ensures
        forall|k: int| 0 <= k < vstd::utf8::encode_utf8(s).len() ==> #[trigger] vstd::utf8::encode_utf8(s)[k] != 0u8,
    decreases s.len(),
{
    if s.len() > 0 {
        let head = vstd::utf8::encode_scalar(s[0] as u32);
        let rest = s.drop_first();
        lemma_scalar_has_no_zero_byte(s[0]);
        assert forall|j: int| 0 <= j < rest.len() implies #[trigger] rest[j] != '\u{0}' by {
            assert(rest[j] == s[j + 1]);
        }
        lemma_encoding_has_no_zero_byte(rest);
        let e = vstd::utf8::encode_utf8(s);
        assert(e == head + vstd::utf8::encode_utf8(rest));
        assert forall|k: int| 0 <= k < e.len() implies #[trigger] e[k] != 0u8 by {
            if k < head.len() {
                assert(e[k] == head[k]);
            } else {
                assert(e[k] == vstd::utf8::encode_utf8(rest)[k - head.len()]);
            }
        }
    }
}

/// Fields joined with a separator after each cannot run together: two lists
/// of fields holding no NUL character feed the hash the same bytes only when
/// they are the same list, so `"ab", "c"` and `"a", "bc"` are told apart.
pub proof fn law_fields_cannot_run_together(f: Seq<Seq<char>>, g: Seq<Seq<char>>)
    requires
        nul_free(f),
        nul_free(g),
        fields_bytes(f) == fields_bytes(g),
    ensures
        f == g,
    decreases f.len(),
{
    if f.len() == 0 {
        if g.len() > 0 {
            assert(fields_bytes(g).len() > 0);
        }
        assert(g =~= f);
    } else if g.len() == 0 {
        assert(fields_bytes(f).len() > 0);
    } else {
        let fi = f.drop_last();
        let gi = g.drop_last();
        let fl = f.last();
        let gl = g.last();
        let bf = fields_bytes(fi);
        let bg = fields_bytes(gi);
        let ef = vstd::utf8::encode_utf8(fl);
        let eg = vstd::utf8::encode_utf8(gl);
        assert forall|j: int| 0 <= j < fl.len() implies #[trigger] fl[j] != '\u{0}' by {
            assert(fl[j] == f[f.len() - 1][j]);
        }
        assert forall|j: int| 0 <= j < gl.len() implies #[trigger] gl[j] != '\u{0}' by {
            assert(gl[j] == g[g.len() - 1][j]);
        }
        lemma_encoding_has_no_zero_byte(fl);
        lemma_encoding_has_no_zero_byte(gl);
        let x = bf + ef;
        let y = bg + eg;
        assert(fields_bytes(f) == x.push(0u8));
        assert(fields_bytes(g) == y.push(0u8));
        assert(x =~= fields_bytes(f).drop_last());
        assert(y =~= fields_bytes(g).drop_last());
        assert(x == y);
        // A nonempty run of fields ends with the separator.
        assert(fi.len() > 0 ==> bf.len() > 0 && bf.last() == 0u8);
        assert(gi.len() > 0 ==> bg.len() > 0 && bg.last() == 0u8);
        if bf.len() < bg.len() {
            let p = bg.len() - 1;
            assert(y[p] == 0u8);
            assert(x[p] == ef[p - bf.len()]);
            assert(false);
        }
        if bg.len() < bf.len() {
            let p = bf.len() - 1;
            assert(x[p] == 0u8);
            assert(y[p] == eg[p - bg.len()]);
            assert(false);
        }
        assert(bf =~= x.subrange(0, bf.len() as int));
        assert(bg =~= y.subrange(0, bg.len() as int));
        assert(ef =~= x.subrange(bf.len() as int, x.len() as int));
        assert(eg =~= y.subrange(bg.len() as int, y.len() as int));
        vstd::utf8::encode_utf8_decode_utf8(fl);
        vstd::utf8::encode_utf8_decode_utf8(gl);
        assert(fl == gl);
        assert forall|i: int, j: int| 0 <= i < fi.len() && 0 <= j < fi[i].len() implies #[trigger] fi[i][j] != '\u{0}' by {
            assert(fi[i] == f[i]);
        }
        assert forall|i: int, j: int| 0 <= i < gi.len() && 0 <= j < gi[i].len() implies #[trigger] gi[i][j] != '\u{0}' by {
            assert(gi[i] == g[i]);
        }
        law_fields_cannot_run_together(fi, gi);
        assert(f =~= fi.push(fl));
        assert(g =~= gi.push(gl));
    }
}

/// Every hexadecimal rendering is sixteen lowercase hexadecimal digits.
pub proof fn lemma_hex16_shape(h: u64)
    ensures
        hex16(h).len() == 16,
        forall|i: int| 0 <= i < 16 ==> is_hex_digit_char(#[trigger] hex16(h)[i]),
{
    assert forall|i: int| 0 <= i < 16 implies is_hex_digit_char(#[trigger] hex16(h)[i]) by {
        lemma_low_digits_bounded(h as nat, 16, 15 - i);
        let d = low_digits(h as nat, 16)[15 - i];
        assert(d < 16);
        if d < 10 {
            assert(48 <= 48 + d <= 57);
        } else {
            assert(97 <= 87 + d <= 102);
        }
    }
}

proof fn lemma_low_digits_bounded(h: nat, n: nat, j: int)
    requires
        0 <= j < n,
    ensures
        low_digits(h, n).len() == n,
        low_digits(h, n)[j] < 16,
    decreases n,
{
    lemma_low_digits_len(h, n);
    if j > 0 {
        lemma_low_digits_bounded(h / 16, (n - 1) as nat, j - 1);
    }
}

proof fn lemma_low_digits_len(h: nat, n: nat)
    ensures
        low_digits(h, n).len() == n,
    decreases n,
{
    if n > 0 {
        lemma_low_digits_len(h / 16, (n - 1) as nat);
    }
}

} // verus!
