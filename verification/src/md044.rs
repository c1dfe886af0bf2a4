//! Proper-name capitalization rule (MD044).
//!
//! Given an ordered list of canonical names, every case-insensitive,
//! word-bounded occurrence of a name (or of its dot-stripped variant, so
//! that `Nodejs` is caught for `Node.js`) whose text differs from the
//! canonical form is a violation. Word boundaries are ASCII letters and
//! digits: a name never matches inside a larger word. Lines opening a
//! fenced code block are skipped, and with code-block exclusion enabled so
//! are lines starting inside a code region. Results are memoized per
//! document content under a fast non-cryptographic hash.

use vstd::prelude::*;
use crate::text::{byte_at, byte_len, byte_at_exec, chars_eq, chars_of, chars_to_string,
    is_word_char, is_word_char_exec, lower_char, lower_char_exec, lower_seq, to_lower,
    push_range, lemma_byte_len_ge_len};
use crate::regions::{in_ranges, CodeRegions};
use crate::warning::{Fix, FixModel, LintWarning, Severity, WarningModel, warnings_view};

verus! {

/// Configuration of the proper-names rule.
pub struct MD044Config {
    /// Canonical names, in priority order.
    pub names: Vec<String>,
    /// Whether code regions are excluded from checking.
    pub code_blocks: bool,
}

/// The character sequences of the configured names.
pub open spec fn names_view(ns: Seq<String>) -> Seq<Seq<char>> {
    ns.map_values(|n: String| n@)
}

/// The name with every dot removed.
pub open spec fn strip_dots(s: Seq<char>) -> Seq<char>
    decreases s.len(),
{
    if s.len() == 0 {
        Seq::empty()
    } else {
        strip_dots(s.drop_last()) + if s.last() == '.' {
            Seq::empty()
        } else {
            seq![s.last()]
        }
    }
}

/// The lowered pattern `v` occurs at character index `i` of `line`,
/// comparing case-insensitively.
pub open spec fn occurs_at(line: Seq<char>, v: Seq<char>, i: int) -> bool {
    &&& 0 <= i
    &&& i + v.len() <= line.len()
    &&& forall|j: int| 0 <= j < v.len() ==> lower_char(line[i + j]) == v[j]
}

/// No word character stands immediately before index `i`.
pub open spec fn boundary_before(line: Seq<char>, i: int) -> bool {
    i == 0 || !is_word_char(line[i - 1])
}

/// No word character stands at index `j`.
pub open spec fn boundary_after(line: Seq<char>, j: int) -> bool {
    j >= line.len() || !is_word_char(line[j])
}

/// End of the first configured variant matching at `i` with a word boundary
/// after it, trying names in priority order, for each name its lowered form
/// and then the dot-stripped form; empty variants never match.
pub open spec fn name_match_at(names: Seq<Seq<char>>, line: Seq<char>, i: int, k: int) -> Option<
    int,
>
    decreases names.len() - k,
{
    if k < 0 || k >= names.len() {
        None
    } else {
        let v1 = lower_seq(names[k]);
        let v2 = strip_dots(v1);
        if v1.len() > 0 && occurs_at(line, v1, i) && boundary_after(line, i + v1.len()) {
            Some(i + v1.len())
        } else if v2 != v1 && v2.len() > 0 && occurs_at(line, v2, i) && boundary_after(
            line,
            i + v2.len(),
        ) {
            Some(i + v2.len())
        } else {
            name_match_at(names, line, i, k + 1)
        }
    }
}

pub proof fn lemma_name_match_bounds(names: Seq<Seq<char>>, line: Seq<char>, i: int, k: int)
    requires
        name_match_at(names, line, i, k) is Some,
    ensures
        0 <= i < name_match_at(names, line, i, k)->Some_0 <= line.len(),
    decreases names.len() - k,
{
    if 0 <= k < names.len() {
        let v1 = lower_seq(names[k]);
        let v2 = strip_dots(v1);
        if v1.len() > 0 && occurs_at(line, v1, i) && boundary_after(line, i + v1.len()) {
        } else if v2 != v1 && v2.len() > 0 && occurs_at(line, v2, i) && boundary_after(
            line,
            i + v2.len(),
        ) {
        } else {
            lemma_name_match_bounds(names, line, i, k + 1);
        }
    }
}

/// The first canonical name whose lowered or dot-stripped lowered form
/// equals the lowered found text.
pub open spec fn proper_for(names: Seq<Seq<char>>, fl: Seq<char>, k: int) -> Option<Seq<char>>
    decreases names.len() - k,
{
    if k < 0 || k >= names.len() {
        None
    } else if lower_seq(names[k]) == fl || strip_dots(lower_seq(names[k])) == fl {
        Some(names[k])
    } else {
        proper_for(names, fl, k + 1)
    }
}

/// The canonical form for a found text (the text itself when no name
/// matches, which cannot happen for a scanned match).
pub open spec fn proper_of(names: Seq<Seq<char>>, found: Seq<char>) -> Seq<char> {
    match proper_for(names, lower_seq(found), 0) {
        Some(p) => p,
        None => found,
    }
}

/// One located name violation: 1-based line and column, absolute character
/// index into the document, and the found text.
pub struct ViolModel {
    pub line: int,
    pub column: int,
    pub index: int,
    pub found: Seq<char>,
}

/// A located name violation in executable form.
pub struct NameMatch {
    pub line: usize,
    pub column: usize,
    pub index: usize,
    pub found: Vec<char>,
}

impl View for NameMatch {
    type V = ViolModel;

    open spec fn view(&self) -> ViolModel {
        ViolModel {
            line: self.line as int,
            column: self.column as int,
            index: self.index as int,
            found: self.found@,
        }
    }
}

/// The models of a vector of name matches, in order.
pub open spec fn viols_view(v: Seq<NameMatch>) -> Seq<ViolModel> {
    v.map_values(|m: NameMatch| m@)
}

/// The violations of one line from relative index `i` on: a word-bounded
/// match whose text differs from its canonical form is a violation;
/// scanning resumes after each match.
pub open spec fn line_viols_from(
    names: Seq<Seq<char>>,
    line: Seq<char>,
    i: int,
    lineno: int,
    off: int,
) -> Seq<ViolModel>
    decreases line.len() - i,
    via line_viols_from_dec
{
    if i >= line.len() {
        Seq::empty()
    } else if boundary_before(line, i) && name_match_at(names, line, i, 0) is Some {
        let e = name_match_at(names, line, i, 0)->Some_0;
        let found = line.subrange(i, e);
        let here = if proper_for(names, lower_seq(found), 0) is Some && found != proper_of(
            names,
            found,
        ) {
            seq![ViolModel { line: lineno, column: i + 1, index: off + i, found }]
        } else {
            Seq::empty()
        };
        here + line_viols_from(names, line, e, lineno, off)
    } else {
        line_viols_from(names, line, i + 1, lineno, off)
    }
}

#[via_fn]
proof fn line_viols_from_dec(names: Seq<Seq<char>>, line: Seq<char>, i: int, lineno: int, off: int) {
    if i < line.len() && boundary_before(line, i) && name_match_at(names, line, i, 0) is Some {
        lemma_name_match_bounds(names, line, i, 0);
    }
}

/// Index of the first newline at or after `i` (the document length if none).
pub open spec fn next_nl(s: Seq<char>, i: int) -> int
    decreases s.len() - i,
{
    if i < 0 {
        i
    } else if i >= s.len() {
        s.len() as int
    } else if s[i] == '\n' {
        i
    } else {
        next_nl(s, i + 1)
    }
}

pub proof fn lemma_next_nl_bounds(s: Seq<char>, i: int)
    requires
        0 <= i <= s.len(),
    ensures
        i <= next_nl(s, i) <= s.len(),
    decreases s.len() - i,
{
    if i < s.len() && s[i] != '\n' {
        lemma_next_nl_bounds(s, i + 1);
    }
}

/// A space or tab, for fence-line detection.
pub open spec fn is_space(c: char) -> bool {
    c == ' ' || c == '\t'
}

/// Index of the first character of `line` that is not a space or tab.
pub open spec fn first_non_space(line: Seq<char>, i: int) -> int
    decreases line.len() - i,
{
    if i < 0 {
        i
    } else if i >= line.len() {
        line.len() as int
    } else if !is_space(line[i]) {
        i
    } else {
        first_non_space(line, i + 1)
    }
}

proof fn lemma_first_non_space_bounds(line: Seq<char>, i: int)
    requires
        0 <= i <= line.len(),
    ensures
        i <= first_non_space(line, i) <= line.len(),
    decreases line.len() - i,
{
    if i < line.len() && is_space(line[i]) {
        lemma_first_non_space_bounds(line, i + 1);
    }
}

/// The line opens or closes a fenced code block: its first non-blank
/// characters are three backticks or three tildes.
pub open spec fn fence_line(line: Seq<char>) -> bool {
    let f = first_non_space(line, 0);
    f + 3 <= line.len() && ((line[f] == '`' && line[f + 1] == '`' && line[f + 2] == '`') || (
    line[f] == '~' && line[f + 1] == '~' && line[f + 2] == '~'))
}

/// The violations of the document from line start `ls` on. A line is
/// skipped whole when it is a fence line, or when code-block exclusion is
/// on and the line starts inside a code region.
pub open spec fn doc_viols_from(
    names: Seq<Seq<char>>,
    cb: bool,
    rg: Seq<(usize, usize)>,
    s: Seq<char>,
    ls: int,
    lineno: int,
) -> Seq<ViolModel>
    decreases s.len() + 1 - ls,
    via doc_viols_from_dec
{
    if ls < 0 || ls > s.len() {
        Seq::empty()
    } else {
        let le = next_nl(s, ls);
        let line = s.subrange(ls, le);
        let here = if fence_line(line) || (cb && in_ranges(rg, byte_at(s, ls))) {
            Seq::empty()
        } else {
            line_viols_from(names, line, 0, lineno, ls)
        };
        here + doc_viols_from(names, cb, rg, s, le + 1, lineno + 1)
    }
}

#[via_fn]
proof fn doc_viols_from_dec(
    names: Seq<Seq<char>>,
    cb: bool,
    rg: Seq<(usize, usize)>,
    s: Seq<char>,
    ls: int,
    lineno: int,
) {
    if 0 <= ls <= s.len() {
        lemma_next_nl_bounds(s, ls);
    }
}

/// All violations of the document, first line first.
pub open spec fn md044_viols(
    names: Seq<Seq<char>>,
    cb: bool,
    rg: Seq<(usize, usize)>,
    s: Seq<char>,
) -> Seq<ViolModel> {
    doc_viols_from(names, cb, rg, s, 0, 1)
}

/// Violations are well-formed: in bounds, on the document's text, sorted
/// and disjoint, and each one's found text truly differs from a canonical
/// name it matches.
pub proof fn lemma_line_viols_wf(
    names: Seq<Seq<char>>,
    s: Seq<char>,
    ls: int,
    le: int,
    i: int,
    lineno: int,
)
    requires
        0 <= ls <= le <= s.len(),
        0 <= i,
        1 <= lineno,
    ensures
        ({
            let vs = line_viols_from(names, s.subrange(ls, le), i, lineno, ls);
            &&& forall|k: int|
                0 <= k < vs.len() ==> ls + i <= (#[trigger] vs[k]).index && vs[k].index
                    + vs[k].found.len() <= le && 1 <= vs[k].found.len() && vs[k].line == lineno
                    && vs[k].column == vs[k].index - ls + 1 && vs[k].found == s.subrange(
                    vs[k].index,
                    vs[k].index + vs[k].found.len(),
                ) && proper_for(names, lower_seq(vs[k].found), 0) is Some && vs[k].found
                    != proper_of(names, vs[k].found)
            &&& forall|k: int, l: int|
                0 <= k < l < vs.len() ==> (#[trigger] vs[k]).index + vs[k].found.len()
                    <= (#[trigger] vs[l]).index
        }),
    decreases le - ls - i,
{
    let line = s.subrange(ls, le);
    if i >= line.len() {
    } else if boundary_before(line, i) && name_match_at(names, line, i, 0) is Some {
        let e = name_match_at(names, line, i, 0)->Some_0;
        lemma_name_match_bounds(names, line, i, 0);
        lemma_line_viols_wf(names, s, ls, le, e, lineno);
        let found = line.subrange(i, e);
        assert(found =~= s.subrange(ls + i, ls + e));
        let vs = line_viols_from(names, line, i, lineno, ls);
        let tail = line_viols_from(names, line, e, lineno, ls);
        if proper_for(names, lower_seq(found), 0) is Some && found != proper_of(names, found) {
            let head = ViolModel { line: lineno, column: i + 1, index: ls + i, found };
            assert(vs == seq![head] + tail);
            assert(vs[0] == head);
            assert(forall|k: int| 1 <= k < vs.len() ==> vs[k] == tail[k - 1]);
            assert forall|k: int, l: int|
                0 <= k < l < vs.len() implies (#[trigger] vs[k]).index + vs[k].found.len()
                <= (#[trigger] vs[l]).index by {
                assert(vs[l] == tail[l - 1]);
                if k > 0 {
                    assert(vs[k] == tail[k - 1]);
                }
            }
        } else {
            assert(vs == tail);
        }
    } else {
        lemma_line_viols_wf(names, s, ls, le, i + 1, lineno);
    }
}

pub proof fn lemma_doc_viols_wf(
    names: Seq<Seq<char>>,
    cb: bool,
    rg: Seq<(usize, usize)>,
    s: Seq<char>,
    ls: int,
    lineno: int,
)
    requires
        0 <= ls,
        1 <= lineno,
    ensures
        ({
            let vs = doc_viols_from(names, cb, rg, s, ls, lineno);
            &&& forall|k: int|
                0 <= k < vs.len() ==> ls <= (#[trigger] vs[k]).index && vs[k].index
                    + vs[k].found.len() <= s.len() && 1 <= vs[k].found.len() && lineno
                    <= vs[k].line && 1 <= vs[k].column && vs[k].column <= vs[k].index + 1
                    && vs[k].found == s.subrange(vs[k].index, vs[k].index + vs[k].found.len())
                    && proper_for(names, lower_seq(vs[k].found), 0) is Some && vs[k].found
                    != proper_of(names, vs[k].found)
            &&& forall|k: int, l: int|
                0 <= k < l < vs.len() ==> (#[trigger] vs[k]).index + vs[k].found.len()
                    <= (#[trigger] vs[l]).index
        }),
    decreases s.len() + 1 - ls,
{
    if 0 <= ls <= s.len() {
        let le = next_nl(s, ls);
        lemma_next_nl_bounds(s, ls);
        let line = s.subrange(ls, le);
        lemma_line_viols_wf(names, s, ls, le, 0, lineno);
        lemma_doc_viols_wf(names, cb, rg, s, le + 1, lineno + 1);
        let vs = doc_viols_from(names, cb, rg, s, ls, lineno);
        let here = if fence_line(line) || (cb && in_ranges(rg, byte_at(s, ls))) {
            Seq::<ViolModel>::empty()
        } else {
            line_viols_from(names, line, 0, lineno, ls)
        };
        let tail = doc_viols_from(names, cb, rg, s, le + 1, lineno + 1);
        assert(vs == here + tail);
        assert(forall|k: int| 0 <= k < here.len() ==> vs[k] == here[k]);
        assert(forall|k: int|
            here.len() <= k < vs.len() ==> vs[k] == tail[k - here.len()]);
        assert forall|k: int, l: int|
            0 <= k < l < vs.len() implies (#[trigger] vs[k]).index + vs[k].found.len()
            <= (#[trigger] vs[l]).index by {
            if l < here.len() {
                assert(vs[k] == here[k] && vs[l] == here[l]);
            } else if k >= here.len() {
                assert(vs[k] == tail[k - here.len()] && vs[l] == tail[l - here.len()]);
            } else {
                assert(vs[k] == here[k] && vs[l] == tail[l - here.len()]);
            }
        }
    }
}

/// FNV-1a offset basis.
pub const FNV_OFFSET: u64 = 0xcbf29ce484222325;

/// FNV-1a prime.
pub const FNV_PRIME: u64 = 0x100000001b3;

/// FNV-1a running hash of the characters from index `i` on.
pub open spec fn fnv_from(s: Seq<char>, i: int, h: u64) -> u64
    decreases s.len() - i,
{
    if i < 0 || i >= s.len() {
        h
    } else {
        fnv_from(s, i + 1, vstd::wrapping::u64_specs::wrapping_mul(h ^ (s[i] as u64), FNV_PRIME))
    }
}

/// Fast non-cryptographic hash of a document's content.
pub open spec fn content_hash(s: Seq<char>) -> u64 {
    fnv_from(s, 0, FNV_OFFSET)
}

/// Fast non-cryptographic hash of a document's content.
pub fn content_hash_exec(v: &Vec<char>) -> (r: u64)
    ensures
        r == content_hash(v@),
{
    let mut h: u64 = FNV_OFFSET;
    let mut i: usize = 0;
    while i < v.len()
        invariant
            i <= v@.len(),
            content_hash(v@) == fnv_from(v@, i as int, h),
        decreases v@.len() - i,
    {
        h = (h ^ (v[i] as u64)).wrapping_mul(FNV_PRIME);
        i += 1;
    }
    h
}

/// One memoized result: the hash key, the exact content and code regions it
/// was computed for, and the violations found.
pub struct CacheEntry {
    pub key: u64,
    pub content: Vec<char>,
    pub regions: Vec<(usize, usize)>,
    pub positions: Vec<NameMatch>,
}

/// The memoized violations for this content and these code regions, if any
/// entry from index `k` on holds them.
pub open spec fn cache_lookup_from(
    entries: Seq<CacheEntry>,
    s: Seq<char>,
    rg: Seq<(usize, usize)>,
    k: int,
) -> Option<Seq<ViolModel>>
    decreases entries.len() - k,
{
    if k < 0 || k >= entries.len() {
        None
    } else if entries[k].content@ == s && entries[k].regions@ == rg {
        Some(viols_view(entries[k].positions@))
    } else {
        cache_lookup_from(entries, s, rg, k + 1)
    }
}

/// One cache entry is faithful: keyed by the content hash and holding
/// exactly the violations of its content.
pub open spec fn entry_wf(names: Seq<Seq<char>>, cb: bool, e: CacheEntry) -> bool {
    &&& e.key == content_hash(e.content@)
    &&& viols_view(e.positions@) == md044_viols(names, cb, e.regions@, e.content@)
}

/// A faithful cache can only hand back the violations the scan would
/// compute for the same content and oracle.
pub proof fn lemma_cache_lookup_sound(
    entries: Seq<CacheEntry>,
    names: Seq<Seq<char>>,
    cb: bool,
    s: Seq<char>,
    rg: Seq<(usize, usize)>,
    k: int,
)
    requires
        0 <= k,
        forall|e: int| 0 <= e < entries.len() ==> entry_wf(names, cb, #[trigger] entries[e]),
        cache_lookup_from(entries, s, rg, k) is Some,
    ensures
        cache_lookup_from(entries, s, rg, k)->Some_0 == md044_viols(names, cb, rg, s),
    decreases entries.len() - k,
{
    if k < entries.len() {
        if entries[k].content@ == s && entries[k].regions@ == rg {
            assert(entry_wf(names, cb, entries[k]));
        } else {
            lemma_cache_lookup_sound(entries, names, cb, s, rg, k + 1);
        }
    }
}

/// The violation message for one found name.
pub open spec fn md044_message(found: Seq<char>, proper: Seq<char>) -> Seq<char> {
    "Proper name '"@ + found + "' should be '"@ + proper + "'"@
}

/// The warning for one violation.
pub open spec fn warn_of_viol(s: Seq<char>, names: Seq<Seq<char>>, v: ViolModel) -> WarningModel {
    WarningModel {
        rule_name: Some("MD044"@),
        line: v.line,
        column: v.column,
        end_line: v.line,
        end_column: v.column + v.found.len(),
        message: md044_message(v.found, proper_of(names, v.found)),
        severity: Severity::Warning,
        fix: Some(
            FixModel {
                start: byte_at(s, v.index),
                end: byte_at(s, v.index + v.found.len()),
                replacement: proper_of(names, v.found),
            },
        ),
    }
}

/// The warnings for the violations from index `k` on.
pub open spec fn warns44_from(
    s: Seq<char>,
    names: Seq<Seq<char>>,
    vs: Seq<ViolModel>,
    k: int,
) -> Seq<WarningModel>
    decreases vs.len() - k,
{
    if k < 0 || k >= vs.len() {
        Seq::empty()
    } else {
        seq![warn_of_viol(s, names, vs[k])] + warns44_from(s, names, vs, k + 1)
    }
}

/// What `check` returns: one warning per violation, first line first, each
/// carrying a fix that replaces the found text with the canonical name.
pub open spec fn md044_warnings_spec(
    names: Seq<Seq<char>>,
    cb: bool,
    rg: Seq<(usize, usize)>,
    s: Seq<char>,
) -> Seq<WarningModel> {
    warns44_from(s, names, md044_viols(names, cb, rg, s), 0)
}

/// The document with the violations from index `k` on replaced by their
/// canonical names, `prev` being the first index not yet emitted.
pub open spec fn apply44_from(
    s: Seq<char>,
    names: Seq<Seq<char>>,
    vs: Seq<ViolModel>,
    k: int,
    prev: int,
) -> Seq<char>
    decreases vs.len() - k,
{
    if k < 0 || k >= vs.len() {
        s.skip(prev)
    } else {
        s.subrange(prev, vs[k].index) + proper_of(names, vs[k].found) + apply44_from(
            s,
            names,
            vs,
            k + 1,
            vs[k].index + vs[k].found.len(),
        )
    }
}

/// One step of applying fixes forward: emitting the gap before the next
/// violation and its replacement advances the remainder.
pub proof fn lemma_apply44_step(
    s: Seq<char>,
    names: Seq<Seq<char>>,
    vs: Seq<ViolModel>,
    k: int,
    prev: int,
    out0: Seq<char>,
    out1: Seq<char>,
)
    requires
        0 <= k < vs.len(),
        out1 == out0 + s.subrange(prev, vs[k].index) + proper_of(names, vs[k].found),
    ensures
        out0 + apply44_from(s, names, vs, k, prev) == out1 + apply44_from(
            s,
            names,
            vs,
            k + 1,
            vs[k].index + vs[k].found.len(),
        ),
{
    assert(apply44_from(s, names, vs, k, prev) == s.subrange(prev, vs[k].index) + proper_of(
        names,
        vs[k].found,
    ) + apply44_from(s, names, vs, k + 1, vs[k].index + vs[k].found.len()));
    assert(out0 + apply44_from(s, names, vs, k, prev) =~= out1 + apply44_from(
        s,
        names,
        vs,
        k + 1,
        vs[k].index + vs[k].found.len(),
    ));
}

/// What `fix` returns: every found name replaced by its canonical form, the
/// rest of the document unchanged.
pub open spec fn md044_fix_spec(
    names: Seq<Seq<char>>,
    cb: bool,
    rg: Seq<(usize, usize)>,
    s: Seq<char>,
) -> Seq<char> {
    apply44_from(s, names, md044_viols(names, cb, rg, s), 0, 0)
}

/// A document with no violations is returned by `fix` unchanged.
pub proof fn lemma_md044_fix_identity(
    names: Seq<Seq<char>>,
    cb: bool,
    rg: Seq<(usize, usize)>,
    s: Seq<char>,
)
    requires
        md044_warnings_spec(names, cb, rg, s) == Seq::<WarningModel>::empty(),
    ensures
        md044_fix_spec(names, cb, rg, s) == s,
{
    let vs = md044_viols(names, cb, rg, s);
    assert(vs.len() == 0) by {
        if vs.len() > 0 {
            assert(warns44_from(s, names, vs, 0).len() > 0);
        }
    }
    assert(apply44_from(s, names, vs, 0, 0) =~= s);
}

/// Fixing is idempotent whenever one pass leaves no further violations; the
/// second pass may see a code-region oracle rebuilt for the rewritten
/// document.
pub proof fn lemma_md044_fix_idempotent(
    names: Seq<Seq<char>>,
    cb: bool,
    rg: Seq<(usize, usize)>,
    rg2: Seq<(usize, usize)>,
    s: Seq<char>,
)
    requires
        md044_warnings_spec(names, cb, rg2, md044_fix_spec(names, cb, rg, s)) == Seq::<
            WarningModel,
        >::empty(),
    ensures
        md044_fix_spec(names, cb, rg2, md044_fix_spec(names, cb, rg, s)) == md044_fix_spec(
            names,
            cb,
            rg,
            s,
        ),
{
    lemma_md044_fix_identity(names, cb, rg2, md044_fix_spec(names, cb, rg, s));
}

/// Some nonempty variant of a configured name occurs, case-insensitively,
/// somewhere in the text.
pub open spec fn any_occurrence(names: Seq<Seq<char>>, s: Seq<char>) -> bool {
    exists|k: int, j: int|
        #![trigger occurs_at(s, lower_seq(names[k]), j)]
        #![trigger occurs_at(s, strip_dots(lower_seq(names[k])), j)]
        0 <= k < names.len() && 0 <= j && ((lower_seq(names[k]).len() > 0 && occurs_at(
            s,
            lower_seq(names[k]),
            j,
        )) || (strip_dots(lower_seq(names[k])).len() > 0 && occurs_at(
            s,
            strip_dots(lower_seq(names[k])),
            j,
        )))
}

proof fn lemma_no_occurrence_no_match(
    names: Seq<Seq<char>>,
    s: Seq<char>,
    ls: int,
    le: int,
    i: int,
    k: int,
)
    requires
        0 <= ls <= le <= s.len(),
        0 <= i,
        0 <= k,
        !any_occurrence(names, s),
    ensures
        name_match_at(names, s.subrange(ls, le), i, k) is None,
    decreases names.len() - k,
{
    let line = s.subrange(ls, le);
    if k < names.len() {
        let v1 = lower_seq(names[k]);
        let v2 = strip_dots(v1);
        if v1.len() > 0 && occurs_at(line, v1, i) {
            assert(occurs_at(s, v1, ls + i)) by {
                assert(forall|j: int|
                    0 <= j < v1.len() ==> lower_char(#[trigger] s[ls + i + j]) == lower_char(
                        line[i + j],
                    ));
            }
            assert(any_occurrence(names, s));
        }
        if v2.len() > 0 && occurs_at(line, v2, i) {
            assert(occurs_at(s, v2, ls + i)) by {
                assert(forall|j: int|
                    0 <= j < v2.len() ==> lower_char(#[trigger] s[ls + i + j]) == lower_char(
                        line[i + j],
                    ));
            }
            assert(any_occurrence(names, s));
        }
        lemma_no_occurrence_no_match(names, s, ls, le, i, k + 1);
    }
}

proof fn lemma_no_occurrence_line_empty(
    names: Seq<Seq<char>>,
    s: Seq<char>,
    ls: int,
    le: int,
    i: int,
    lineno: int,
)
    requires
        0 <= ls <= le <= s.len(),
        0 <= i,
        !any_occurrence(names, s),
    ensures
        line_viols_from(names, s.subrange(ls, le), i, lineno, ls) == Seq::<ViolModel>::empty(),
    decreases le - ls - i,
{
    let line = s.subrange(ls, le);
    if i < line.len() {
        lemma_no_occurrence_no_match(names, s, ls, le, i, 0);
        lemma_no_occurrence_line_empty(names, s, ls, le, i + 1, lineno);
    }
}

proof fn lemma_no_occurrence_doc_empty(
    names: Seq<Seq<char>>,
    cb: bool,
    rg: Seq<(usize, usize)>,
    s: Seq<char>,
    ls: int,
    lineno: int,
)
    requires
        0 <= ls,
        !any_occurrence(names, s),
    ensures
        doc_viols_from(names, cb, rg, s, ls, lineno) == Seq::<ViolModel>::empty(),
    decreases s.len() + 1 - ls,
{
    if ls <= s.len() {
        let le = next_nl(s, ls);
        lemma_next_nl_bounds(s, ls);
        lemma_no_occurrence_line_empty(names, s, ls, le, 0, lineno);
        lemma_no_occurrence_doc_empty(names, cb, rg, s, le + 1, lineno + 1);
        assert(doc_viols_from(names, cb, rg, s, ls, lineno) =~= Seq::<ViolModel>::empty());
    }
}

/// A document in which no configured name occurs at all gets no warnings
/// from `check` (and, with `lemma_md044_fix_identity`, comes back from
/// `fix` unchanged).
pub proof fn lemma_no_occurrence_check_empty(
    names: Seq<Seq<char>>,
    cb: bool,
    rg: Seq<(usize, usize)>,
    s: Seq<char>,
)
    requires
        !any_occurrence(names, s),
    ensures
        md044_warnings_spec(names, cb, rg, s) == Seq::<WarningModel>::empty(),
        md044_viols(names, cb, rg, s) == Seq::<ViolModel>::empty(),
{
    lemma_no_occurrence_doc_empty(names, cb, rg, s, 0, 1);
}


/// The name with every dot removed.
pub fn strip_dots_exec(s: &Vec<char>) -> (r: Vec<char>)
    ensures
        r@ == strip_dots(s@),
{
    let mut r: Vec<char> = Vec::new();
    let mut i: usize = 0;
    while i < s.len()
        invariant
            i <= s@.len(),
            r@ == strip_dots(s@.take(i as int)),
        decreases s@.len() - i,
    {
        if s[i] != '.' {
            r.push(s[i]);
        }
        proof {
            assert(s@.take(i + 1).drop_last() =~= s@.take(i as int));
            assert(s@.take(i + 1).last() == s@[i as int]);
        }
        i += 1;
    }
    proof {
        assert(s@.take(s@.len() as int) =~= s@);
    }
    r
}

/// Index of the first newline at or after `i`.
fn next_nl_exec(v: &Vec<char>, i: usize) -> (r: usize)
    requires
        i <= v@.len(),
    ensures
        r == next_nl(v@, i as int),
        i <= r <= v@.len(),
{
    let mut j: usize = i;
    while j < v.len() && v[j] != '\n'
        invariant
            i <= j <= v@.len(),
            next_nl(v@, i as int) == next_nl(v@, j as int),
        decreases v@.len() - j,
    {
        j += 1;
    }
    j
}

/// Whether the line `v[ls..le]` opens or closes a fenced code block.
fn fence_check(v: &Vec<char>, ls: usize, le: usize) -> (r: bool)
    requires
        ls <= le <= v@.len(),
    ensures
        r == fence_line(v@.subrange(ls as int, le as int)),
{
    let ghost line = v@.subrange(ls as int, le as int);
    let mut f: usize = ls;
    while f < le && (v[f] == ' ' || v[f] == '\t')
        invariant
            ls <= f <= le <= v@.len(),
            line == v@.subrange(ls as int, le as int),
            first_non_space(line, 0) == first_non_space(line, (f - ls) as int),
        decreases le - f,
    {
        proof {
            assert(line[(f - ls) as int] == v@[f as int]);
        }
        f += 1;
    }
    proof {
        if f < le {
            assert(line[(f - ls) as int] == v@[f as int]);
        }
        assert(first_non_space(line, 0) == f - ls);
    }
    if le - f >= 3 {
        (v[f] == '`' && v[f + 1] == '`' && v[f + 2] == '`') || (v[f] == '~' && v[f + 1] == '~'
            && v[f + 2] == '~')
    } else {
        false
    }
}

/// Whether the lowered pattern occurs at relative index `i` of the line
/// `v[ls..le]`, comparing case-insensitively.
fn occurs_check(v: &Vec<char>, ls: usize, le: usize, i: usize, pat: &Vec<char>) -> (r: bool)
    requires
        ls <= le <= v@.len(),
        i <= le - ls,
    ensures
        r == occurs_at(v@.subrange(ls as int, le as int), pat@, i as int),
{
    let ghost line = v@.subrange(ls as int, le as int);
    let line_len = le - ls;
    if pat.len() > line_len - i {
        return false;
    }
    let mut j: usize = 0;
    while j < pat.len()
        invariant
            j <= pat@.len(),
            ls <= le <= v@.len(),
            i + pat@.len() <= le - ls,
            line == v@.subrange(ls as int, le as int),
            forall|x: int| 0 <= x < j ==> lower_char(line[i + x]) == pat@[x],
        decreases pat@.len() - j,
    {
        if lower_char_exec(v[ls + i + j]) != pat[j] {
            proof {
                assert(line[i as int + j as int] == v@[ls + i + j]);
            }
            return false;
        }
        j += 1;
    }
    true
}

/// No word character stands at relative index `j` of the line `v[ls..le]`.
fn boundary_after_check(v: &Vec<char>, ls: usize, le: usize, j: usize) -> (r: bool)
    requires
        ls <= le <= v@.len(),
    ensures
        r == boundary_after(v@.subrange(ls as int, le as int), j as int),
{
    if j >= le - ls {
        true
    } else {
        proof {
            assert(v@.subrange(ls as int, le as int)[j as int] == v@[ls + j]);
        }
        !is_word_char_exec(v[ls + j])
    }
}

/// A copy of a character vector.
fn copy_chars(v: &Vec<char>) -> (r: Vec<char>)
    ensures
        r@ == v@,
{
    let mut r: Vec<char> = Vec::new();
    push_range(&mut r, v, 0, v.len());
    proof {
        assert(v@.subrange(0, v@.len() as int) =~= v@);
    }
    r
}

/// A copy of a range vector.
fn copy_ranges(v: &Vec<(usize, usize)>) -> (r: Vec<(usize, usize)>)
    ensures
        r@ == v@,
{
    let mut r: Vec<(usize, usize)> = Vec::new();
    let mut i: usize = 0;
    while i < v.len()
        invariant
            i <= v@.len(),
            r@ == v@.take(i as int),
        decreases v@.len() - i,
    {
        let (a, b) = v[i];
        r.push((a, b));
        proof {
            assert(r@ =~= v@.take(i + 1));
        }
        i += 1;
    }
    proof {
        assert(v@.take(v@.len() as int) =~= v@);
    }
    r
}

/// Equality of two range vectors.
fn ranges_eq(a: &Vec<(usize, usize)>, b: &Vec<(usize, usize)>) -> (r: bool)
    ensures
        r == (a@ == b@),
{
    if a.len() != b.len() {
        proof {
            assert(a@ != b@);
        }
        return false;
    }
    let mut i: usize = 0;
    while i < a.len()
        invariant
            i <= a@.len(),
            a@.len() == b@.len(),
            forall|k: int| 0 <= k < i ==> a@[k] == b@[k],
        decreases a@.len() - i,
    {
        let (x1, y1) = a[i];
        let (x2, y2) = b[i];
        if x1 != x2 || y1 != y2 {
            proof {
                assert(a@[i as int] != b@[i as int]);
            }
            return false;
        }
        proof {
            assert(a@[i as int] == b@[i as int]);
        }
        i += 1;
    }
    proof {
        assert(a@ =~= b@);
    }
    true
}

/// A copy of a violation vector.
fn copy_matches(v: &Vec<NameMatch>) -> (r: Vec<NameMatch>)
    ensures
        viols_view(r@) == viols_view(v@),
{
    let mut r: Vec<NameMatch> = Vec::new();
    let mut i: usize = 0;
    while i < v.len()
        invariant
            i <= v@.len(),
            viols_view(r@) == viols_view(v@.take(i as int)),
        decreases v@.len() - i,
    {
        let m = &v[i];
        let found = copy_chars(&m.found);
        let ghost r0 = r@;
        r.push(NameMatch { line: m.line, column: m.column, index: m.index, found });
        proof {
            assert(r0.len() == i as int) by {
                assert(viols_view(r0).len() == r0.len());
                assert(viols_view(v@.take(i as int)).len() == i as int);
            }
            assert(r@.last()@ == v@[i as int]@);
            assert forall|j: int| 0 <= j < i + 1 implies viols_view(r@)[j] == viols_view(
                v@.take(i + 1),
            )[j] by {
                if j < i {
                    assert(r@[j] == r0[j]);
                    assert(viols_view(r0)[j] == viols_view(v@.take(i as int))[j]);
                    assert(v@.take(i + 1)[j] == v@.take(i as int)[j]);
                } else {
                    assert(r@[j] == r@.last());
                    assert(v@.take(i + 1)[j] == v@[i as int]);
                }
            }
            assert(viols_view(r@) =~= viols_view(v@.take(i + 1)));
        }
        i += 1;
    }
    proof {
        assert(v@.take(v@.len() as int) =~= v@);
    }
    r
}

/// Rule MD044: proper names should be capitalized as configured.
pub struct MD044ProperNames {
    config: MD044Config,
    vars: Vec<(Vec<char>, Vec<char>)>,
    cache: Vec<CacheEntry>,
    scans: u64,
}

impl MD044ProperNames {
    /// The configured canonical names, as character sequences.
    pub closed spec fn names_spec(&self) -> Seq<Seq<char>> {
        names_view(self.config.names@)
    }

    /// Whether code regions are excluded from checking.
    pub closed spec fn code_blocks_spec(&self) -> bool {
        self.config.code_blocks
    }

    /// How many full scans have run (instrumentation for cache behaviour).
    pub closed spec fn scans_spec(&self) -> u64 {
        self.scans
    }

    /// The memoization entries held.
    pub closed spec fn cache_spec(&self) -> Seq<CacheEntry> {
        self.cache@
    }

    /// The memoized violations for this content and oracle, if present.
    pub open spec fn cached_lookup(&self, s: Seq<char>, rg: Seq<(usize, usize)>) -> Option<
        Seq<ViolModel>,
    > {
        cache_lookup_from(self.cache_spec(), s, rg, 0)
    }

    /// Well-formed: the precompiled lowered and dot-stripped variants agree
    /// with the configured names, and every cache entry holds exactly the
    /// violations of its own content.
    pub closed spec fn wf(&self) -> bool {
        &&& self.vars@.len() == self.config.names@.len()
        &&& forall|k: int|
            0 <= k < self.vars@.len() ==> (#[trigger] self.vars@[k]).0@ == lower_seq(
                self.config.names@[k]@,
            ) && self.vars@[k].1@ == strip_dots(lower_seq(self.config.names@[k]@))
        &&& forall|e: int|
            0 <= e < self.cache@.len() ==> entry_wf(
                names_view(self.config.names@),
                self.config.code_blocks,
                #[trigger] self.cache@[e],
            )
    }

    pub fn new(names: Vec<String>, code_blocks: bool) -> (r: MD044ProperNames)
        ensures
            r.wf(),
            r.names_spec() == names_view(names@),
            r.code_blocks_spec() == code_blocks,
            r.cache_spec() == Seq::<CacheEntry>::empty(),
            r.scans_spec() == 0,
    {
        Self::from_config_struct(MD044Config { names, code_blocks })
    }

    pub fn from_config_struct(config: MD044Config) -> (r: MD044ProperNames)
        ensures
            r.wf(),
            r.names_spec() == names_view(config.names@),
            r.code_blocks_spec() == config.code_blocks,
            r.cache_spec() == Seq::<CacheEntry>::empty(),
            r.scans_spec() == 0,
    {
        let mut vars: Vec<(Vec<char>, Vec<char>)> = Vec::new();
        let mut k: usize = 0;
        while k < config.names.len()
            invariant
                k <= config.names@.len(),
                vars@.len() == k,
                forall|j: int|
                    0 <= j < k ==> (#[trigger] vars@[j]).0@ == lower_seq(config.names@[j]@)
                        && vars@[j].1@ == strip_dots(lower_seq(config.names@[j]@)),
            decreases config.names@.len() - k,
        {
            let nchars = chars_of(config.names[k].as_str());
            let v1 = to_lower(&nchars);
            let v2 = strip_dots_exec(&v1);
            vars.push((v1, v2));
            k += 1;
        }
        let cache: Vec<CacheEntry> = Vec::new();
        MD044ProperNames { config, vars, cache, scans: 0 }
    }

    /// How many full scans have run: a repeated `check` on cached content
    /// leaves this unchanged.
    pub fn scans(&self) -> (r: u64)
        ensures
            r == self.scans_spec(),
    {
        self.scans
    }

    /// How many documents are memoized.
    pub fn cache_len(&self) -> (r: usize)
        ensures
            r == self.cache_spec().len(),
    {
        self.cache.len()
    }

    pub fn name(&self) -> (r: &'static str)
        ensures
            r@ == "MD044"@,
    {
        "MD044"
    }

    pub fn description(&self) -> (r: &'static str)
        ensures
            r@ == "Proper names should have the correct capitalization"@,
    {
        "Proper names should have the correct capitalization"
    }

    /// End of the first configured variant matching at relative index `i`
    /// of the line `v[ls..le]`, with a word boundary after it.
    fn name_match_exec(&self, v: &Vec<char>, ls: usize, le: usize, i: usize) -> (r: Option<usize>)
        requires
            self.wf(),
            ls <= le <= v@.len(),
            i <= le - ls,
        ensures
            match r {
                Some(e) => name_match_at(self.names_spec(), v@.subrange(ls as int, le as int),
                    i as int, 0) == Some(e as int),
                None => name_match_at(self.names_spec(), v@.subrange(ls as int, le as int),
                    i as int, 0) is None,
            },
    {
        let ghost line = v@.subrange(ls as int, le as int);
        let ghost names = self.names_spec();
        let mut k: usize = 0;
        while k < self.vars.len()
            invariant
                self.wf(),
                k <= self.vars@.len(),
                ls <= le <= v@.len(),
                i <= le - ls,
                line == v@.subrange(ls as int, le as int),
                names == self.names_spec(),
                name_match_at(names, line, i as int, 0) == name_match_at(
                    names,
                    line,
                    i as int,
                    k as int,
                ),
            decreases self.vars@.len() - k,
        {
            let pair = &self.vars[k];
            proof {
                assert(pair.0@ == lower_seq(names[k as int]));
                assert(pair.1@ == strip_dots(lower_seq(names[k as int])));
            }
            if pair.0.len() > 0 && occurs_check(v, ls, le, i, &pair.0) {
                let e = i + pair.0.len();
                if boundary_after_check(v, ls, le, e) {
                    return Some(e);
                }
            }
            if !chars_eq(&pair.1, &pair.0) && pair.1.len() > 0 && occurs_check(v, ls, le, i,
                &pair.1) {
                let e = i + pair.1.len();
                if boundary_after_check(v, ls, le, e) {
                    return Some(e);
                }
            }
            k += 1;
        }
        None
    }

    /// Index of the first canonical name matching the lowered found text.
    fn proper_index(&self, lf: &Vec<char>) -> (r: Option<usize>)
        requires
            self.wf(),
        ensures
            match r {
                Some(pk) => pk < self.names_spec().len() && proper_for(
                    self.names_spec(),
                    lf@,
                    0,
                ) == Some(self.names_spec()[pk as int]),
                None => proper_for(self.names_spec(), lf@, 0) is None,
            },
    {
        let ghost names = self.names_spec();
        let mut k: usize = 0;
        while k < self.vars.len()
            invariant
                self.wf(),
                k <= self.vars@.len(),
                names == self.names_spec(),
                proper_for(names, lf@, 0) == proper_for(names, lf@, k as int),
            decreases self.vars@.len() - k,
        {
            let pair = &self.vars[k];
            proof {
                assert(pair.0@ == lower_seq(names[k as int]));
                assert(pair.1@ == strip_dots(lower_seq(names[k as int])));
            }
            if chars_eq(&pair.0, lf) || chars_eq(&pair.1, lf) {
                return Some(k);
            }
            k += 1;
        }
        None
    }

    /// Scan one line, appending its violations.
    fn scan_line(&self, v: &Vec<char>, ls: usize, le: usize, lineno: usize, out: &mut Vec<
        NameMatch,
    >)
        requires
            self.wf(),
            ls <= le <= v@.len(),
            1 <= lineno,
        ensures
            viols_view(final(out)@) == viols_view(old(out)@) + line_viols_from(
                self.names_spec(),
                v@.subrange(ls as int, le as int),
                0,
                lineno as int,
                ls as int,
            ),
    {
        let ghost line = v@.subrange(ls as int, le as int);
        let ghost names = self.names_spec();
        let mut i: usize = 0;
        let line_len = le - ls;
        while i < line_len
            invariant
                self.wf(),
                ls <= le <= v@.len(),
                line_len == le - ls,
                i <= line_len,
                1 <= lineno,
                line == v@.subrange(ls as int, le as int),
                names == self.names_spec(),
                viols_view(old(out)@) + line_viols_from(names, line, 0, lineno as int, ls as int)
                    == viols_view(out@) + line_viols_from(
                    names,
                    line,
                    i as int,
                    lineno as int,
                    ls as int,
                ),
            decreases line_len - i,
        {
            let bb = i == 0 || {
                proof {
                    assert(line[i as int - 1] == v@[ls + i - 1]);
                }
                !is_word_char_exec(v[ls + i - 1])
            };
            let mut advanced = false;
            if bb {
                match self.name_match_exec(v, ls, le, i) {
                    Some(e) => {
                        proof {
                            lemma_name_match_bounds(names, line, i as int, 0);
                        }
                        let mut found: Vec<char> = Vec::new();
                        push_range(&mut found, v, ls + i, ls + e);
                        proof {
                            assert(found@ =~= line.subrange(i as int, e as int));
                        }
                        let lf = to_lower(&found);
                        match self.proper_index(&lf) {
                            Some(pk) => {
                                let pchars = chars_of(self.config.names[pk].as_str());
                                proof {
                                    assert(names[pk as int] == self.config.names@[pk as int]@);
                                    assert(proper_of(names, found@) == pchars@);
                                }
                                if !chars_eq(&found, &pchars) {
                                    let ghost out0 = out@;
                                    out.push(
                                        NameMatch {
                                            line: lineno,
                                            column: i + 1,
                                            index: ls + i,
                                            found,
                                        },
                                    );
                                    proof {
                                        let viol = ViolModel {
                                            line: lineno as int,
                                            column: i as int + 1,
                                            index: ls as int + i as int,
                                            found: line.subrange(i as int, e as int),
                                        };
                                        assert(viols_view(out@) =~= viols_view(out0) + seq![viol]);
                                        assert(line_viols_from(
                                            names,
                                            line,
                                            i as int,
                                            lineno as int,
                                            ls as int,
                                        ) == seq![viol] + line_viols_from(
                                            names,
                                            line,
                                            e as int,
                                            lineno as int,
                                            ls as int,
                                        ));
                                        assert(viols_view(out0) + line_viols_from(
                                            names,
                                            line,
                                            i as int,
                                            lineno as int,
                                            ls as int,
                                        ) =~= viols_view(out@) + line_viols_from(
                                            names,
                                            line,
                                            e as int,
                                            lineno as int,
                                            ls as int,
                                        ));
                                    }
                                } else {
                                    proof {
                                        assert(line_viols_from(
                                            names,
                                            line,
                                            i as int,
                                            lineno as int,
                                            ls as int,
                                        ) =~= line_viols_from(
                                            names,
                                            line,
                                            e as int,
                                            lineno as int,
                                            ls as int,
                                        ));
                                    }
                                }
                            },
                            None => {
                                proof {
                                    assert(line_viols_from(
                                        names,
                                        line,
                                        i as int,
                                        lineno as int,
                                        ls as int,
                                    ) =~= line_viols_from(
                                        names,
                                        line,
                                        e as int,
                                        lineno as int,
                                        ls as int,
                                    ));
                                }
                            },
                        }
                        i = e;
                        advanced = true;
                    },
                    None => {},
                }
            }
            if !advanced {
                i += 1;
            }
        }
        proof {
            assert(line_viols_from(names, line, i as int, lineno as int, ls as int)
                =~= Seq::<ViolModel>::empty());
            assert(viols_view(old(out)@) + line_viols_from(names, line, 0, lineno as int, ls as int)
                =~= viols_view(out@));
        }
    }

    /// Scan the whole document for name violations, line by line.
    fn scan_violations(&self, v: &Vec<char>, regions: &CodeRegions) -> (r: Vec<NameMatch>)
        requires
            self.wf(),
            byte_len(v@) <= usize::MAX / 2,
        ensures
            viols_view(r@) == md044_viols(
                self.names_spec(),
                self.code_blocks_spec(),
                regions@,
                v@,
            ),
    {
        let ghost s = v@;
        let ghost names = self.names_spec();
        let cb = self.config.code_blocks;
        proof {
            lemma_byte_len_ge_len(s);
        }
        let mut out: Vec<NameMatch> = Vec::new();
        let mut ls: usize = 0;
        let mut lineno: usize = 1;
        loop
            invariant
                self.wf(),
                v@ == s,
                byte_len(s) <= usize::MAX / 2,
                s.len() <= usize::MAX / 2,
                names == self.names_spec(),
                cb == self.code_blocks_spec(),
                ls <= s.len() + 1,
                1 <= lineno <= ls + 1,
                md044_viols(names, cb, regions@, s) == viols_view(out@) + doc_viols_from(
                    names,
                    cb,
                    regions@,
                    s,
                    ls as int,
                    lineno as int,
                ),
            decreases s.len() + 1 - ls,
        {
            if ls > v.len() {
                proof {
                    assert(viols_view(out@) + doc_viols_from(
                        names,
                        cb,
                        regions@,
                        s,
                        ls as int,
                        lineno as int,
                    ) =~= viols_view(out@));
                }
                return out;
            }
            let le = next_nl_exec(v, ls);
            let skip = fence_check(v, ls, le) || (cb && regions.is_in_code_region(
                byte_at_exec(v, ls),
            ));
            if !skip {
                self.scan_line(v, ls, le, lineno, &mut out);
            }
            ls = le + 1;
            lineno = lineno + 1;
        }
    }

    /// The memoized entry index for this content and oracle, if any.
    fn lookup_cache(&self, key: u64, v: &Vec<char>, regions: &CodeRegions) -> (r: Option<usize>)
        requires
            self.wf(),
            key == content_hash(v@),
        ensures
            match r {
                Some(e) => e < self.cache_spec().len() && self.cached_lookup(v@, regions@)
                    == Some(viols_view(self.cache_spec()[e as int].positions@)),
                None => self.cached_lookup(v@, regions@) is None,
            },
    {
        let mut e: usize = 0;
        while e < self.cache.len()
            invariant
                self.wf(),
                e <= self.cache@.len(),
                key == content_hash(v@),
                cache_lookup_from(self.cache@, v@, regions@, 0) == cache_lookup_from(
                    self.cache@,
                    v@,
                    regions@,
                    e as int,
                ),
            decreases self.cache@.len() - e,
        {
            let entry = &self.cache[e];
            if entry.key == key {
                if chars_eq(&entry.content, v) && ranges_eq(&entry.regions, regions.ranges_vec()) {
                    return Some(e);
                }
            } else {
                proof {
                    if entry.content@ == v@ {
                        assert(entry.key == content_hash(entry.content@));
                    }
                }
            }
            e += 1;
        }
        None
    }

    /// All name violations of the document, from the cache when this exact
    /// content and oracle were scanned before, else by a fresh scan that is
    /// then memoized.
    fn find_name_violations(&mut self, v: &Vec<char>, regions: &CodeRegions) -> (r: Vec<NameMatch>)
        requires
            old(self).wf(),
            byte_len(v@) <= usize::MAX / 2,
        ensures
            final(self).wf(),
            final(self).names_spec() == old(self).names_spec(),
            final(self).code_blocks_spec() == old(self).code_blocks_spec(),
            viols_view(r@) == md044_viols(
                old(self).names_spec(),
                old(self).code_blocks_spec(),
                regions@,
                v@,
            ),
            old(self).cached_lookup(v@, regions@) is Some ==> final(self).cache_spec() == old(
                self,
            ).cache_spec() && final(self).scans_spec() == old(self).scans_spec(),
            old(self).cached_lookup(v@, regions@) is None ==> final(self).cache_spec().len() == old(
                self,
            ).cache_spec().len() + 1 && final(self).scans_spec() == (if old(self).scans_spec()
                == u64::MAX {
                old(self).scans_spec()
            } else {
                (old(self).scans_spec() + 1) as u64
            }),
    {
        let key = content_hash_exec(v);
        match self.lookup_cache(key, v, regions) {
            Some(e) => {
                let r = copy_matches(&self.cache[e].positions);
                proof {
                    lemma_cache_lookup_sound(
                        self.cache@,
                        names_view(self.config.names@),
                        self.config.code_blocks,
                        v@,
                        regions@,
                        0,
                    );
                }
                r
            },
            None => {
                let viols = self.scan_violations(v, regions);
                let content = copy_chars(v);
                let rg = copy_ranges(regions.ranges_vec());
                let positions = copy_matches(&viols);
                let ghost old_cache = self.cache@;
                self.cache.push(CacheEntry { key, content, regions: rg, positions });
                if self.scans < u64::MAX {
                    self.scans = self.scans + 1;
                }
                proof {
                    assert(forall|j: int|
                        0 <= j < old_cache.len() ==> self.cache@[j] == old_cache[j]);
                    assert(entry_wf(
                        names_view(self.config.names@),
                        self.config.code_blocks,
                        self.cache@[old_cache.len() as int],
                    ));
                }
                viols
            },
        }
    }

    /// Violations of the configured names, first line first, each carrying
    /// a fix that replaces the found text with the canonical name. Results
    /// are memoized: a repeated call on byte-identical content and the same
    /// oracle answers from the cache without re-running the scan, which the
    /// scan counter witnesses.
    #[verifier::rlimit(50)]
    pub fn check(&mut self, content: &str, regions: &CodeRegions) -> (r: Vec<LintWarning>)
        requires
            old(self).wf(),
        ensures
            final(self).wf(),
            warnings_view(r@) == md044_warnings_spec(
                old(self).names_spec(),
                old(self).code_blocks_spec(),
                regions@,
                content@,
            ),
            final(self).names_spec() == old(self).names_spec(),
            final(self).code_blocks_spec() == old(self).code_blocks_spec(),
            old(self).cached_lookup(content@, regions@) is Some ==> final(self).cache_spec()
                == old(self).cache_spec() && final(self).scans_spec() == old(self).scans_spec(),
            old(self).cached_lookup(content@, regions@) is None ==> final(self).cache_spec().len()
                == old(self).cache_spec().len() + 1 && final(self).scans_spec()
                == (if old(self).scans_spec() == u64::MAX {
                old(self).scans_spec()
            } else {
                (old(self).scans_spec() + 1) as u64
            }),
    {
        let v = chars_of(content);
        let ghost s = v@;
        let ghost names = old(self).names_spec();
        let ghost cb = old(self).code_blocks_spec();
        let viols = self.find_name_violations(&v, regions);
        let ghost vs = md044_viols(names, cb, regions@, s);
        proof {
            lemma_doc_viols_wf(names, cb, regions@, s, 0, 1);
        }
        proof {
            lemma_byte_len_ge_len(s);
        }
        let mut out: Vec<LintWarning> = Vec::new();
        let mut k: usize = 0;
        while k < viols.len()
            invariant
                k <= viols@.len(),
                self.wf(),
                v@ == s,
                byte_len(s) <= usize::MAX / 2,
                s.len() <= usize::MAX / 2,
                names == self.names_spec(),
                viols_view(viols@) == vs,
                forall|j: int|
                    0 <= j < vs.len() ==> 0 <= (#[trigger] vs[j]).index && vs[j].index
                        + vs[j].found.len() <= s.len() && 1 <= vs[j].found.len() && 1 <= vs[j].line
                        && 1 <= vs[j].column && vs[j].column <= vs[j].index + 1 && proper_for(
                        names,
                        lower_seq(vs[j].found),
                        0,
                    ) is Some && vs[j].found != proper_of(names, vs[j].found),
                warns44_from(s, names, vs, 0) == warnings_view(out@) + warns44_from(
                    s,
                    names,
                    vs,
                    k as int,
                ),
            decreases viols@.len() - k,
        {
            let m = &viols[k];
            proof {
                assert(viols_view(viols@)[k as int] == m@);
            }
            let lf = to_lower(&m.found);
            match self.proper_index(&lf) {
                Some(pk) => {
                    proof {
                        assert(names[pk as int] == self.config.names@[pk as int]@);
                        assert(proper_of(names, m.found@) == names[pk as int]);
                    }
                    let mut msg = String::from_str("Proper name '");
                    let found_s = chars_to_string(&m.found);
                    msg.append(found_s.as_str());
                    msg.append("' should be '");
                    msg.append(self.config.names[pk].as_str());
                    msg.append("'");
                    proof {
                        assert(msg@ =~= md044_message(m.found@, proper_of(names, m.found@)));
                    }
                    let w = LintWarning {
                        rule_name: Some(String::from_str(self.name())),
                        line: m.line,
                        column: m.column,
                        end_line: m.line,
                        end_column: m.column + m.found.len(),
                        message: msg,
                        severity: Severity::Warning,
                        fix: Some(
                            Fix {
                                start: byte_at_exec(&v, m.index),
                                end: byte_at_exec(&v, m.index + m.found.len()),
                                replacement: self.config.names[pk].clone(),
                            },
                        ),
                    };
                    proof {
                        assert(w@ == warn_of_viol(s, names, vs[k as int]));
                    }
                    let ghost out0 = out@;
                    out.push(w);
                    proof {
                        assert(warnings_view(out@) =~= warnings_view(out0) + seq![
                            warn_of_viol(s, names, vs[k as int]),
                        ]);
                        assert(warns44_from(s, names, vs, k as int) == seq![
                            warn_of_viol(s, names, vs[k as int]),
                        ] + warns44_from(s, names, vs, k as int + 1));
                        assert(warnings_view(out0) + warns44_from(s, names, vs, k as int)
                            =~= warnings_view(out@) + warns44_from(s, names, vs, k as int + 1));
                    }
                },
                None => {
                    proof {
                        assert(proper_for(names, lower_seq(vs[k as int].found), 0) is Some);
                        assert(lf@ == lower_seq(vs[k as int].found));
                        assert(false);
                    }
                },
            }
            k += 1;
        }
        proof {
            assert(warnings_view(out@) + warns44_from(s, names, vs, k as int) =~= warnings_view(
                out@,
            ));
        }
        out
    }

    /// The document with every found name replaced by its canonical form; a
    /// document with no violations is returned unchanged. Re-derives the
    /// violations (through the same cache) and applies the replacements
    /// from the start of the document forward, each edit standing wholly
    /// before the text that follows it, so no offset is invalidated.
    #[verifier::rlimit(100)]
    pub fn fix(&mut self, content: &str, regions: &CodeRegions) -> (r: String)
        requires
            old(self).wf(),
        ensures
            final(self).wf(),
            r@ == md044_fix_spec(
                old(self).names_spec(),
                old(self).code_blocks_spec(),
                regions@,
                content@,
            ),
            final(self).names_spec() == old(self).names_spec(),
            final(self).code_blocks_spec() == old(self).code_blocks_spec(),
            old(self).cached_lookup(content@, regions@) is Some ==> final(self).cache_spec()
                == old(self).cache_spec() && final(self).scans_spec() == old(self).scans_spec(),
            old(self).cached_lookup(content@, regions@) is None ==> final(self).cache_spec().len()
                == old(self).cache_spec().len() + 1 && final(self).scans_spec()
                == (if old(self).scans_spec() == u64::MAX {
                old(self).scans_spec()
            } else {
                (old(self).scans_spec() + 1) as u64
            }),
    {
        let v = chars_of(content);
        let ghost s = v@;
        let ghost names = old(self).names_spec();
        let ghost cb = old(self).code_blocks_spec();
        let viols = self.find_name_violations(&v, regions);
        let ghost vs = md044_viols(names, cb, regions@, s);
        proof {
            lemma_doc_viols_wf(names, cb, regions@, s, 0, 1);
        }
        proof {
            lemma_byte_len_ge_len(s);
        }
        let mut out: Vec<char> = Vec::new();
        let mut prev: usize = 0;
        let mut k: usize = 0;
        while k < viols.len()
            invariant
                k <= viols@.len(),
                self.wf(),
                v@ == s,
                byte_len(s) <= usize::MAX / 2,
                s.len() <= usize::MAX / 2,
                names == self.names_spec(),
                viols_view(viols@) == vs,
                prev <= s.len(),
                k < viols@.len() ==> prev <= vs[k as int].index,
                forall|j: int|
                    0 <= j < vs.len() ==> 0 <= (#[trigger] vs[j]).index && vs[j].index
                        + vs[j].found.len() <= s.len() && 1 <= vs[j].found.len() && proper_for(
                        names,
                        lower_seq(vs[j].found),
                        0,
                    ) is Some,
                forall|j: int, l: int|
                    0 <= j < l < vs.len() ==> (#[trigger] vs[j]).index + vs[j].found.len()
                        <= (#[trigger] vs[l]).index,
                apply44_from(s, names, vs, 0, 0) == out@ + apply44_from(
                    s,
                    names,
                    vs,
                    k as int,
                    prev as int,
                ),
            decreases viols@.len() - k,
        {
            let m = &viols[k];
            proof {
                assert(viols_view(viols@)[k as int] == m@);
            }
            let lf = to_lower(&m.found);
            let ghost out0 = out@;
            let ghost prev0 = prev as int;
            push_range(&mut out, &v, prev, m.index);
            match self.proper_index(&lf) {
                Some(pk) => {
                    let pchars = chars_of(self.config.names[pk].as_str());
                    proof {
                        assert(names[pk as int] == self.config.names@[pk as int]@);
                        assert(proper_of(names, m.found@) == pchars@);
                    }
                    push_range(&mut out, &pchars, 0, pchars.len());
                    proof {
                        assert(pchars@.subrange(0, pchars@.len() as int) =~= pchars@);
                    }
                },
                None => {
                    proof {
                        assert(lf@ == lower_seq(vs[k as int].found));
                        assert(false);
                    }
                },
            }
            prev = m.index + m.found.len();
            proof {
                assert(out@ =~= out0 + s.subrange(prev0, m@.index) + proper_of(names, m.found@));
                lemma_apply44_step(s, names, vs, k as int, prev0, out0, out@);
            }
            k += 1;
        }
        push_range(&mut out, &v, prev, v.len());
        proof {
            assert(s.subrange(prev as int, s.len() as int) =~= s.skip(prev as int));
        }
        chars_to_string(&out)
    }
}

} // verus!
