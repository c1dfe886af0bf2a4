//! Position index: bidirectional mapping between byte offsets and 1-based
//! (line, column) coordinates over one document snapshot.
//!
//! Lines and columns count characters (Unicode scalar values), not bytes.
//! A byte offset maps to a position only when it falls on a character
//! boundary; the document's total byte length is itself a valid offset and
//! maps to the position immediately after the last character.

use vstd::prelude::*;
use crate::text::{byte_at, byte_len, char_byte_len, char_byte_len_exec, chars_of};
use crate::text::{lemma_byte_at_step, lemma_byte_at_strict_mono, lemma_byte_at_full,
    lemma_byte_len_ge_len};

verus! {

/// Number of newline characters among the first `i` characters.
pub open spec fn newline_count(s: Seq<char>, i: int) -> int
    decreases i,
{
    if i <= 0 {
        0
    } else {
        newline_count(s, i - 1) + if s[i - 1] == '\n' {
            1int
        } else {
            0int
        }
    }
}

/// Index of the first character of the line containing index `i`.
pub open spec fn line_start_at(s: Seq<char>, i: int) -> int
    decreases i,
{
    if i <= 0 {
        0
    } else if s[i - 1] == '\n' {
        i
    } else {
        line_start_at(s, i - 1)
    }
}

/// 1-based line number of the character at index `i`.
pub open spec fn pos_line(s: Seq<char>, i: int) -> int {
    1 + newline_count(s, i)
}

/// 1-based column (in characters) of the character at index `i`.
pub open spec fn pos_col(s: Seq<char>, i: int) -> int {
    i - line_start_at(s, i) + 1
}

proof fn lemma_newline_count_mono(s: Seq<char>, i: int, j: int)
    requires
        i <= j,
    ensures
        newline_count(s, i) <= newline_count(s, j),
    decreases j - i,
{
    if i < j {
        lemma_newline_count_mono(s, i, j - 1);
    }
}

proof fn lemma_line_start_stable(s: Seq<char>, i: int, j: int)
    requires
        0 <= i <= j,
        newline_count(s, i) == newline_count(s, j),
    ensures
        line_start_at(s, i) == line_start_at(s, j),
    decreases j - i,
{
    if i < j {
        lemma_newline_count_mono(s, i, j - 1);
        lemma_line_start_stable(s, i, j - 1);
    }
}

proof fn lemma_line_start_le(s: Seq<char>, i: int)
    requires
        0 <= i,
    ensures
        line_start_at(s, i) <= i,
    decreases i,
{
    if i > 0 && s[i - 1] != '\n' {
        lemma_line_start_le(s, i - 1);
    }
}

proof fn lemma_newline_count_nonneg(s: Seq<char>, i: int)
    ensures
        newline_count(s, i) >= 0,
    decreases i,
{
    if i > 0 {
        lemma_newline_count_nonneg(s, i - 1);
    }
}

/// Lines and columns are 1-based: both are at least 1.
pub proof fn lemma_pos_positive(s: Seq<char>, i: int)
    requires
        0 <= i,
    ensures
        pos_line(s, i) >= 1,
        pos_col(s, i) >= 1,
{
    lemma_newline_count_nonneg(s, i);
    lemma_line_start_le(s, i);
}

/// Positions grow lexicographically with the character index; in particular
/// two distinct indices have distinct positions.
pub proof fn lemma_pos_lex_mono(s: Seq<char>, i: int, j: int)
    requires
        0 <= i < j,
    ensures
        pos_line(s, i) < pos_line(s, j) || (pos_line(s, i) == pos_line(s, j) && pos_col(s, i)
            < pos_col(s, j)),
{
    lemma_newline_count_mono(s, i, j);
    if newline_count(s, i) == newline_count(s, j) {
        lemma_line_start_stable(s, i, j);
    }
}

/// The character index whose byte offset is `b`, if `b` is
/// character-boundary aligned (end-of-text counts as aligned).
pub open spec fn char_index_of_byte(s: Seq<char>, b: int) -> Option<int> {
    if exists|i: int| 0 <= i <= s.len() && byte_at(s, i) == b {
        Some(choose|i: int| 0 <= i <= s.len() && byte_at(s, i) == b)
    } else {
        None
    }
}

/// The character index standing at 1-based position (`line`, `col`), if any.
pub open spec fn index_of_pos(s: Seq<char>, line: int, col: int) -> Option<int> {
    if exists|i: int| 0 <= i <= s.len() && pos_line(s, i) == line && pos_col(s, i) == col {
        Some(choose|i: int| 0 <= i <= s.len() && pos_line(s, i) == line && pos_col(s, i) == col)
    } else {
        None
    }
}

/// The 1-based start and end positions of the byte range [`bs`, `be`), or
/// `None` when an endpoint is not character-boundary aligned or the range is
/// reversed.
pub open spec fn to_range_spec(s: Seq<char>, bs: int, be: int) -> Option<((int, int), (int, int))> {
    if bs <= be && char_index_of_byte(s, bs) is Some && char_index_of_byte(s, be) is Some {
        let i = char_index_of_byte(s, bs)->Some_0;
        let j = char_index_of_byte(s, be)->Some_0;
        Some(((pos_line(s, i), pos_col(s, i)), (pos_line(s, j), pos_col(s, j))))
    } else {
        None
    }
}

/// The byte offset of 1-based position (`line`, `col`), or `None` when no
/// character (nor the end of text) stands at that position.
pub open spec fn to_byte_offset_spec(s: Seq<char>, line: int, col: int) -> Option<int> {
    match index_of_pos(s, line, col) {
        Some(i) => Some(byte_at(s, i)),
        None => None,
    }
}

/// Distinct character indices have distinct byte offsets.
pub proof fn lemma_byte_at_injective(s: Seq<char>, i: int, j: int)
    requires
        0 <= i <= s.len(),
        0 <= j <= s.len(),
        byte_at(s, i) == byte_at(s, j),
    ensures
        i == j,
{
    if i < j {
        lemma_byte_at_strict_mono(s, i, j);
    }
    if j < i {
        lemma_byte_at_strict_mono(s, j, i);
    }
}

/// Distinct character indices have distinct positions.
pub proof fn lemma_pos_injective(s: Seq<char>, i: int, j: int)
    requires
        0 <= i <= s.len(),
        0 <= j <= s.len(),
        pos_line(s, i) == pos_line(s, j),
        pos_col(s, i) == pos_col(s, j),
    ensures
        i == j,
{
    if i < j {
        lemma_pos_lex_mono(s, i, j);
    }
    if j < i {
        lemma_pos_lex_mono(s, j, i);
    }
}

/// Round trip: mapping a character-aligned byte range to positions and the
/// positions back to byte offsets is the identity.
pub proof fn lemma_round_trip(s: Seq<char>, bs: int, be: int)
    requires
        bs <= be,
        char_index_of_byte(s, bs) is Some,
        char_index_of_byte(s, be) is Some,
    ensures
        to_range_spec(s, bs, be) is Some,
        ({
            let r = to_range_spec(s, bs, be)->Some_0;
            to_byte_offset_spec(s, r.0.0, r.0.1) == Some(bs) && to_byte_offset_spec(
                s,
                r.1.0,
                r.1.1,
            ) == Some(be)
        }),
{
    let i = char_index_of_byte(s, bs)->Some_0;
    let j = char_index_of_byte(s, be)->Some_0;
    assert(0 <= i <= s.len() && byte_at(s, i) == bs);
    assert(0 <= j <= s.len() && byte_at(s, j) == be);
    let r = to_range_spec(s, bs, be)->Some_0;
    assert(index_of_pos(s, r.0.0, r.0.1) is Some);
    let i2 = index_of_pos(s, r.0.0, r.0.1)->Some_0;
    lemma_pos_injective(s, i, i2);
    assert(index_of_pos(s, r.1.0, r.1.1) is Some);
    let j2 = index_of_pos(s, r.1.0, r.1.1)->Some_0;
    lemma_pos_injective(s, j, j2);
}

/// 1-based line and column of the character at index `i` of `v` (or of
/// end-of-text for `i == v.len()`).
pub fn pos_of_exec(v: &Vec<char>, i: usize) -> (r: (usize, usize))
    requires
        byte_len(v@) <= usize::MAX / 2,
        i <= v@.len(),
    ensures
        r.0 == pos_line(v@, i as int),
        r.1 == pos_col(v@, i as int),
{
    proof {
        lemma_byte_len_ge_len(v@);
    }
    let mut k: usize = 0;
    let mut line: usize = 1;
    let mut start: usize = 0;
    while k < i
        invariant
            k <= i <= v@.len(),
            v@.len() <= usize::MAX / 2,
            line == pos_line(v@, k as int),
            line <= k + 1,
            start == line_start_at(v@, k as int),
            start <= k,
        decreases i - k,
    {
        if v[k] == '\n' {
            line += 1;
            start = k + 1;
        }
        k += 1;
    }
    (line, i - start + 1)
}

/// Position index over one document snapshot.
pub struct LineIndex {
    text: Vec<char>,
}

impl LineIndex {
    /// The characters of the indexed document.
    pub closed spec fn view(&self) -> Seq<char> {
        self.text@
    }

    /// The indexed document's total byte length fits in an allocation.
    pub closed spec fn wf(&self) -> bool {
        byte_len(self.text@) <= usize::MAX / 2
    }

    pub fn new(content: &str) -> (r: LineIndex)
        ensures
            r@ == content@,
            r.wf(),
    {
        LineIndex { text: chars_of(content) }
    }

    /// 1-based line and column of the character at index `i` (or of
    /// end-of-text for `i == len`).
    fn pos_of(&self, i: usize) -> (r: (usize, usize))
        requires
            self.wf(),
            i <= self@.len(),
        ensures
            r.0 == pos_line(self@, i as int),
            r.1 == pos_col(self@, i as int),
    {
        pos_of_exec(&self.text, i)
    }

    /// The character index whose byte offset is `b`, or `None` when `b` is
    /// not character-boundary aligned.
    fn char_index_of(&self, b: usize) -> (r: Option<usize>)
        requires
            self.wf(),
        ensures
            match r {
                Some(i) => i <= self@.len() && byte_at(self@, i as int) == b
                    && char_index_of_byte(self@, b as int) == Some(i as int),
                None => char_index_of_byte(self@, b as int) is None,
            },
    {
        let s = Ghost(self@);
        let mut i: usize = 0;
        let mut acc: usize = 0;
        loop
            invariant
                i <= s@.len(),
                self@ == s@,
                self.wf(),
                acc == byte_at(s@, i as int),
                forall|k: int| 0 <= k < i ==> byte_at(s@, k) < b,
            decreases s@.len() - i,
        {
            if acc == b {
                proof {
                    lemma_byte_at_injective(
                        s@,
                        i as int,
                        choose|k: int| 0 <= k <= s@.len() && byte_at(s@, k) == b as int,
                    );
                }
                return Some(i);
            }
            if i == self.text.len() || acc > b {
                proof {
                    assert forall|k: int| 0 <= k <= s@.len() implies byte_at(s@, k) != b by {
                        if i < k {
                            lemma_byte_at_strict_mono(s@, i as int, k);
                        }
                    }
                }
                return None;
            }
            proof {
                lemma_byte_at_step(s@, i as int);
                lemma_byte_at_full(s@);
                if i + 1 <= s@.len() {
                    if (i + 1) < s@.len() {
                        lemma_byte_at_strict_mono(s@, i as int + 1, s@.len() as int);
                    }
                }
            }
            acc = acc + char_byte_len_exec(self.text[i]);
            i += 1;
        }
    }

    /// Byte range to 1-based start and end positions; `None` when an
    /// endpoint is not character-boundary aligned or the range is reversed.
    pub fn to_range(&self, byte_start: usize, byte_end: usize) -> (r: Option<
        ((usize, usize), (usize, usize)),
    >)
        requires
            self.wf(),
        ensures
            match r {
                Some(p) => to_range_spec(self@, byte_start as int, byte_end as int) == Some(
                    (((p.0.0 as int, p.0.1 as int), (p.1.0 as int, p.1.1 as int))),
                ),
                None => to_range_spec(self@, byte_start as int, byte_end as int) is None,
            },
    {
        if byte_start > byte_end {
            return None;
        }
        let i = match self.char_index_of(byte_start) {
            Some(i) => i,
            None => {
                return None;
            },
        };
        let j = match self.char_index_of(byte_end) {
            Some(j) => j,
            None => {
                return None;
            },
        };
        let start = self.pos_of(i);
        let end = self.pos_of(j);
        Some((start, end))
    }

    /// 1-based position to its byte offset; `None` when no character (nor
    /// the end of text) stands at that position.
    pub fn to_byte_offset(&self, line: usize, col: usize) -> (r: Option<usize>)
        requires
            self.wf(),
        ensures
            match r {
                Some(b) => to_byte_offset_spec(self@, line as int, col as int) == Some(b as int),
                None => to_byte_offset_spec(self@, line as int, col as int) is None,
            },
    {
        proof {
            lemma_byte_len_ge_len(self@);
        }
        let s = Ghost(self@);
        let mut i: usize = 0;
        let mut ln: usize = 1;
        let mut start: usize = 0;
        let mut acc: usize = 0;
        loop
            invariant
                i <= s@.len(),
                s@.len() <= usize::MAX / 2,
                self@ == s@,
                self.wf(),
                ln == pos_line(s@, i as int),
                ln <= i + 1,
                start == line_start_at(s@, i as int),
                start <= i,
                acc == byte_at(s@, i as int),
                forall|k: int|
                    0 <= k < i ==> !(pos_line(s@, k) == line && pos_col(s@, k) == col),
            decreases s@.len() - i,
        {
            if ln == line && i - start + 1 == col {
                proof {
                    lemma_pos_injective(
                        s@,
                        i as int,
                        choose|k: int|
                            0 <= k <= s@.len() && pos_line(s@, k) == line && pos_col(s@, k)
                                == col,
                    );
                }
                return Some(acc);
            }
            if i == self.text.len() {
                return None;
            }
            proof {
                lemma_byte_at_step(s@, i as int);
                lemma_byte_at_full(s@);
                if (i + 1) < s@.len() {
                    lemma_byte_at_strict_mono(s@, i as int + 1, s@.len() as int);
                }
            }
            acc = acc + char_byte_len_exec(self.text[i]);
            if self.text[i] == '\n' {
                ln += 1;
                start = i + 1;
            }
            i += 1;
        }
    }
}

} // verus!
