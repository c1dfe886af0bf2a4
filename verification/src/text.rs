//! Character-level text model: UTF-8 byte lengths, ASCII case folding,
//! word-boundary classification, and substring occurrence.
//!
//! Documents are modelled as sequences of Unicode scalar values (`char`);
//! byte offsets into a document are derived from the UTF-8 width of each
//! character, so every statement about byte ranges is grounded in the
//! character sequence alone.

use vstd::prelude::*;

verus! {

/// Width in bytes of the UTF-8 encoding of one character.
pub open spec fn char_byte_len(c: char) -> int {
    if (c as u32) < 0x80 {
        1
    } else if (c as u32) < 0x800 {
        2
    } else if (c as u32) < 0x10000 {
        3
    } else {
        4
    }
}

/// Total number of bytes in the UTF-8 encoding of a character sequence.
pub open spec fn byte_len(s: Seq<char>) -> int
    decreases s.len(),
{
    if s.len() == 0 {
        0
    } else {
        byte_len(s.drop_last()) + char_byte_len(s.last())
    }
}

/// Byte offset of the character at index `i` (or of end-of-text for `i == s.len()`).
pub open spec fn byte_at(s: Seq<char>, i: int) -> int {
    byte_len(s.take(i))
}

/// Appending one character adds that character's width.
pub proof fn lemma_byte_at_step(s: Seq<char>, i: int)
    requires
        0 <= i < s.len(),
    ensures
        byte_at(s, i + 1) == byte_at(s, i) + char_byte_len(s[i]),
{
    assert(s.take(i + 1).drop_last() =~= s.take(i));
    assert(s.take(i + 1).last() == s[i]);
}

/// Byte offsets grow strictly with the character index.
pub proof fn lemma_byte_at_strict_mono(s: Seq<char>, i: int, j: int)
    requires
        0 <= i < j <= s.len(),
    ensures
        byte_at(s, i) < byte_at(s, j),
        byte_at(s, i) + (j - i) <= byte_at(s, j),
    decreases j - i,
{
    lemma_byte_at_step(s, j - 1);
    if i < j - 1 {
        lemma_byte_at_strict_mono(s, i, j - 1);
    }
}

pub proof fn lemma_byte_at_full(s: Seq<char>)
    ensures
        byte_at(s, s.len() as int) == byte_len(s),
{
    assert(s.take(s.len() as int) =~= s);
}

/// Every character takes at least one byte.
pub proof fn lemma_byte_len_ge_len(s: Seq<char>)
    ensures
        byte_len(s) >= s.len(),
{
    lemma_byte_at_full(s);
    if s.len() > 0 {
        lemma_byte_at_strict_mono(s, 0, s.len() as int);
        assert(s.take(0) =~= Seq::<char>::empty());
    }
}

/// Width in bytes of the UTF-8 encoding of one character.
pub fn char_byte_len_exec(c: char) -> (n: usize)
    ensures
        n == char_byte_len(c),
{
    let u = c as u32;
    if u < 0x80 {
        1
    } else if u < 0x800 {
        2
    } else if u < 0x10000 {
        3
    } else {
        4
    }
}

/// ASCII letters and digits form words; a configured name must not match
/// inside a larger word.
pub open spec fn is_word_char(c: char) -> bool {
    ('a' <= c && c <= 'z') || ('A' <= c && c <= 'Z') || ('0' <= c && c <= '9')
}

/// ASCII letters and digits form words; a configured name must not match
/// inside a larger word.
pub fn is_word_char_exec(c: char) -> (r: bool)
    ensures
        r == is_word_char(c),
{
    ('a' <= c && c <= 'z') || ('A' <= c && c <= 'Z') || ('0' <= c && c <= '9')
}

/// ASCII lower-casing of one character; other characters are unchanged.
pub open spec fn lower_char(c: char) -> char {
    if 'A' <= c && c <= 'Z' {
        (((c as u8) + 32) as char)
    } else {
        c
    }
}

/// ASCII lower-casing of a character sequence.
pub open spec fn lower_seq(s: Seq<char>) -> Seq<char> {
    s.map_values(|c: char| lower_char(c))
}

/// ASCII lower-casing of one character; other characters are unchanged.
pub fn lower_char_exec(c: char) -> (r: char)
    ensures
        r == lower_char(c),
{
    if 'A' <= c && c <= 'Z' {
        ((c as u8) + 32) as char
    } else {
        c
    }
}

/// ASCII lower-casing of a character vector.
pub fn to_lower(s: &Vec<char>) -> (r: Vec<char>)
    ensures
        r@ == lower_seq(s@),
{
    let mut r: Vec<char> = Vec::new();
    let mut i: usize = 0;
    while i < s.len()
        invariant
            i <= s.len(),
            r@ == lower_seq(s@.take(i as int)),
        decreases s.len() - i,
    {
        r.push(lower_char_exec(s[i]));
        proof {
            assert(s@.take(i + 1).drop_last() =~= s@.take(i as int));
            assert(lower_seq(s@.take(i + 1)).drop_last() =~= lower_seq(s@.take(i as int)));
            assert(r@ =~= lower_seq(s@.take(i + 1)));
        }
        i += 1;
    }
    proof {
        assert(s@.take(s@.len() as int) =~= s@);
    }
    r
}

/// Character-wise equality of two vectors.
pub fn chars_eq(a: &Vec<char>, b: &Vec<char>) -> (r: bool)
    ensures
        r == (a@ == b@),
{
    if a.len() != b.len() {
        proof {
            assert(a@ != b@);
        }
        return false;
    }
    let mut i: usize = 0;
    while i < a.len()
        invariant
            i <= a.len(),
            a.len() == b.len(),
            forall|k: int| 0 <= k < i ==> a@[k] == b@[k],
        decreases a.len() - i,
    {
        if a[i] != b[i] {
            proof {
                assert(a@[i as int] != b@[i as int]);
            }
            return false;
        }
        i += 1;
    }
    proof {
        assert(a@ =~= b@);
    }
    true
}

/// Byte offset of the character at index `i` (the total byte length for
/// `i == v.len()`).
pub fn byte_at_exec(v: &Vec<char>, i: usize) -> (r: usize)
    requires
        i <= v@.len(),
        byte_len(v@) <= usize::MAX,
    ensures
        r == byte_at(v@, i as int),
{
    let mut k: usize = 0;
    let mut acc: usize = 0;
    while k < i
        invariant
            k <= i <= v@.len(),
            byte_len(v@) <= usize::MAX,
            acc == byte_at(v@, k as int),
        decreases i - k,
    {
        proof {
            lemma_byte_at_step(v@, k as int);
            lemma_byte_at_full(v@);
            if k + 1 < v@.len() {
                lemma_byte_at_strict_mono(v@, k as int + 1, v@.len() as int);
            }
        }
        acc = acc + char_byte_len_exec(v[k]);
        k += 1;
    }
    acc
}

/// Append `v[from..to]` to `out`.
pub fn push_range(out: &mut Vec<char>, v: &Vec<char>, from: usize, to: usize)
    requires
        from <= to <= v@.len(),
    ensures
        final(out)@ == old(out)@ + v@.subrange(from as int, to as int),
{
    let mut j: usize = from;
    while j < to
        invariant
            from <= j <= to <= v@.len(),
            out@ == old(out)@ + v@.subrange(from as int, j as int),
        decreases to - j,
    {
        out.push(v[j]);
        proof {
            assert(out@ =~= old(out)@ + v@.subrange(from as int, j as int + 1));
        }
        j += 1;
    }
}

/// The characters of a string, in order.
///
/// Relies on `str::chars` from std: it yields exactly the characters of the
/// string, and the string's underlying UTF-8 byte buffer is the encoding of
/// those characters. Rust caps every allocation at `isize::MAX` bytes, so
/// the total encoded width is at most `usize::MAX / 2`.
#[verifier::external_body]
pub fn chars_of(s: &str) -> (v: Vec<char>)
    ensures
        v@ == s@,
        byte_len(v@) <= usize::MAX / 2,
{
    s.chars().collect()
}

/// The string holding exactly the given characters.
///
/// Relies on `String`'s `FromIterator<char>` impl from std: collecting
/// characters yields the string of those characters in order.
#[verifier::external_body]
pub fn chars_to_string(v: &Vec<char>) -> (s: String)
    ensures
        s@ == v@,
{
    v.iter().collect()
}

} // verus!
