//! Strong-emphasis style consistency rule (MD050).
//!
//! A strong-emphasis span is a two-character marker (`**` or `__`), a
//! non-empty run of characters that are neither the marker character nor a
//! backslash, and the closing two-character marker. Once the target style is
//! resolved (configured, or inferred from the document), every occurrence of
//! the *other* style's marker pattern is a violation, unless it lies inside
//! a code region or its opening marker is escaped by an odd number of
//! immediately preceding backslashes. Fixing re-wraps each violating span
//! with the target marker.

use vstd::prelude::*;
use crate::text::{byte_at, byte_len, byte_at_exec, chars_of, chars_to_string, push_range};
use crate::position::{pos_line, pos_col, pos_of_exec};
use crate::regions::{in_ranges, CodeRegions};
use crate::warning::{Fix, LintWarning, Severity, WarningModel, warnings_view};

verus! {

/// Which strong-emphasis style is demanded.
#[derive(Clone, Copy, PartialEq, Eq, Structural, Debug)]
pub enum StrongStyle {
    /// `**strong**`
    Asterisk,
    /// `__strong__`
    Underscore,
    /// Whatever style the document already uses first.
    Consistent,
}

/// Configuration of the strong-style rule.
#[derive(Clone, Copy, PartialEq, Eq, Structural, Debug)]
pub struct MD050Config {
    pub style: StrongStyle,
}

/// The marker character a concrete style is written with.
pub open spec fn marker_of(style: StrongStyle) -> char {
    match style {
        StrongStyle::Underscore => '_',
        _ => '*',
    }
}

/// The marker character scanned for: the one the target style forbids.
pub open spec fn scan_marker_of(target: StrongStyle) -> char {
    match target {
        StrongStyle::Asterisk => '_',
        _ => '*',
    }
}

/// A character that may stand inside a marker pair: anything but the marker
/// itself or a backslash.
pub open spec fn is_run_char(m: char, c: char) -> bool {
    c != m && c != '\\'
}

/// Index of the first character at or after `i` that cannot stand inside a
/// marker pair (the document length if none).
pub open spec fn run_end(s: Seq<char>, m: char, i: int) -> int
    decreases s.len() - i,
{
    if i < 0 {
        i
    } else if i >= s.len() {
        s.len() as int
    } else if !is_run_char(m, s[i]) {
        i
    } else {
        run_end(s, m, i + 1)
    }
}

pub proof fn lemma_run_end_bounds(s: Seq<char>, m: char, i: int)
    requires
        0 <= i <= s.len(),
    ensures
        i <= run_end(s, m, i) <= s.len(),
    decreases s.len() - i,
{
    if i < s.len() && is_run_char(m, s[i]) {
        lemma_run_end_bounds(s, m, i + 1);
    }
}

/// End of the marker-pair match starting at `i`, if one starts there: two
/// marker characters, a non-empty run, two marker characters.
pub open spec fn match_end_at(s: Seq<char>, m: char, i: int) -> Option<int> {
    if 0 <= i && i + 1 < s.len() && s[i] == m && s[i + 1] == m {
        let r = run_end(s, m, i + 2);
        if i + 2 < r && r + 1 < s.len() && s[r] == m && s[r + 1] == m {
            Some(r + 2)
        } else {
            None
        }
    } else {
        None
    }
}

/// All marker-pair matches at or after `i`, leftmost first and
/// non-overlapping: scanning tries each position in order and resumes after
/// the end of every match found.
pub open spec fn matches_from(s: Seq<char>, m: char, i: int) -> Seq<(int, int)>
    decreases s.len() - i,
    via matches_from_dec
{
    if i >= s.len() {
        Seq::empty()
    } else {
        match match_end_at(s, m, i) {
            Some(e) => seq![(i, e)] + matches_from(s, m, e),
            None => matches_from(s, m, i + 1),
        }
    }
}

#[via_fn]
proof fn matches_from_dec(s: Seq<char>, m: char, i: int) {
    if i < s.len() && 0 <= i {
        if match_end_at(s, m, i) is Some {
            lemma_run_end_bounds(s, m, i + 2);
        }
    }
}

/// Matches are in bounds, at least five characters long, and sorted and
/// disjoint in document order.
pub proof fn lemma_matches_wf(s: Seq<char>, m: char, i: int)
    requires
        0 <= i,
    ensures
        forall|k: int|
            0 <= k < matches_from(s, m, i).len() ==> i <= (#[trigger] matches_from(s, m, i)[k]).0
                && matches_from(s, m, i)[k].0 + 5 <= matches_from(s, m, i)[k].1 <= s.len(),
        forall|k: int, l: int|
            0 <= k < l < matches_from(s, m, i).len() ==> (#[trigger] matches_from(s, m, i)[k]).1
                <= (#[trigger] matches_from(s, m, i)[l]).0,
    decreases s.len() - i,
{
    if i < s.len() {
        match match_end_at(s, m, i) {
            Some(e) => {
                lemma_run_end_bounds(s, m, i + 2);
                lemma_matches_wf(s, m, e);
                let ms = matches_from(s, m, i);
                let tail = matches_from(s, m, e);
                assert(ms == seq![(i, e)] + tail);
                assert(ms[0] == (i, e));
                assert(forall|k: int| 1 <= k < ms.len() ==> ms[k] == tail[k - 1]);
                assert forall|k: int|
                    0 <= k < ms.len() implies i <= (#[trigger] ms[k]).0 && ms[k].0 + 5
                    <= ms[k].1 <= s.len() by {
                    if k >= 1 {
                        assert(e <= tail[k - 1].0);
                        assert(tail[k - 1].0 + 5 <= tail[k - 1].1 <= s.len());
                    }
                }
                assert forall|k: int, l: int|
                    0 <= k < l < ms.len() implies (#[trigger] ms[k]).1 <= (#[trigger] ms[l]).0 by {
                    assert(e <= tail[l - 1].0);
                    if k > 0 {
                        assert(tail[k - 1].1 <= tail[l - 1].0);
                    }
                }
            },
            None => {
                lemma_matches_wf(s, m, i + 1);
                assert(matches_from(s, m, i) == matches_from(s, m, i + 1));
            },
        }
    }
}

/// Number of consecutive backslashes immediately before index `i`.
pub open spec fn backslash_run(s: Seq<char>, i: int) -> int
    decreases i,
{
    if i <= 0 {
        0
    } else if s[i - 1] == '\\' {
        1 + backslash_run(s, i - 1)
    } else {
        0
    }
}

/// A match starting at `i` is escaped when an odd number of consecutive
/// backslashes stands immediately before it; an even number are literal
/// backslashes, not escapes.
pub open spec fn is_escaped_at(s: Seq<char>, i: int) -> bool {
    backslash_run(s, i) % 2 == 1
}

/// A match is excluded from violations when it lies inside a code region or
/// is escaped.
pub open spec fn excluded(s: Seq<char>, rg: Seq<(usize, usize)>, a: int) -> bool {
    in_ranges(rg, byte_at(s, a)) || is_escaped_at(s, a)
}

/// The matches from index `k` on that are not excluded.
pub open spec fn viol_from(
    s: Seq<char>,
    rg: Seq<(usize, usize)>,
    ms: Seq<(int, int)>,
    k: int,
) -> Seq<(int, int)>
    decreases ms.len() - k,
{
    if k >= ms.len() {
        Seq::empty()
    } else if !excluded(s, rg, ms[k].0) {
        seq![ms[k]] + viol_from(s, rg, ms, k + 1)
    } else {
        viol_from(s, rg, ms, k + 1)
    }
}

/// The violating spans of the non-target marker pattern, in document order.
pub open spec fn md050_spans(s: Seq<char>, m: char, rg: Seq<(usize, usize)>) -> Seq<(int, int)> {
    viol_from(s, rg, matches_from(s, m, 0), 0)
}

pub proof fn lemma_viol_from_wf(s: Seq<char>, rg: Seq<(usize, usize)>, ms: Seq<(int, int)>, k: int)
    requires
        0 <= k,
        forall|j: int|
            0 <= j < ms.len() ==> 0 <= (#[trigger] ms[j]).0 && ms[j].0 + 5 <= ms[j].1 <= s.len(),
        forall|j: int, l: int|
            0 <= j < l < ms.len() ==> (#[trigger] ms[j]).1 <= (#[trigger] ms[l]).0,
    ensures
        forall|j: int|
            0 <= j < viol_from(s, rg, ms, k).len() ==> 0 <= (#[trigger] viol_from(s, rg, ms, k)[j]).0
                && viol_from(s, rg, ms, k)[j].0 + 5 <= viol_from(s, rg, ms, k)[j].1 <= s.len(),
        forall|j: int, l: int|
            0 <= j < l < viol_from(s, rg, ms, k).len() ==> (#[trigger] viol_from(s, rg, ms, k)[j]).1
                <= (#[trigger] viol_from(s, rg, ms, k)[l]).0,
        k < ms.len() ==> forall|j: int|
            0 <= j < viol_from(s, rg, ms, k).len() ==> ms[k].0 <= (#[trigger] viol_from(
                s,
                rg,
                ms,
                k,
            )[j]).0,
    decreases ms.len() - k,
{
    if k < ms.len() {
        lemma_viol_from_wf(s, rg, ms, k + 1);
        if !excluded(s, rg, ms[k].0) {
            let vs = viol_from(s, rg, ms, k);
            let tail = viol_from(s, rg, ms, k + 1);
            assert(forall|j: int| 1 <= j < vs.len() ==> vs[j] == tail[j - 1]);
        }
    }
}

proof fn lemma_viol_from_membership(
    s: Seq<char>,
    rg: Seq<(usize, usize)>,
    ms: Seq<(int, int)>,
    k: int,
    p: (int, int),
)
    requires
        0 <= k,
    ensures
        viol_from(s, rg, ms, k).contains(p) <==> exists|j: int|
            k <= j < ms.len() && ms[j] == p && !excluded(s, rg, (#[trigger] ms[j]).0),
    decreases ms.len() - k,
{
    if k < ms.len() {
        lemma_viol_from_membership(s, rg, ms, k + 1, p);
        let vs = viol_from(s, rg, ms, k);
        let tail = viol_from(s, rg, ms, k + 1);
        if !excluded(s, rg, ms[k].0) {
            assert(vs == seq![ms[k]] + tail);
            if vs.contains(p) {
                let idx = choose|idx: int| 0 <= idx < vs.len() && vs[idx] == p;
                if idx == 0 {
                    assert(ms[k] == p && !excluded(s, rg, ms[k].0));
                } else {
                    assert(tail[idx - 1] == p);
                    assert(tail.contains(p));
                }
            }
            if exists|j: int|
                k <= j < ms.len() && ms[j] == p && !excluded(s, rg, (#[trigger] ms[j]).0) {
                let j = choose|j: int|
                    k <= j < ms.len() && ms[j] == p && !excluded(s, rg, (#[trigger] ms[j]).0);
                if j == k {
                    assert(vs[0] == p);
                } else {
                    assert(tail.contains(p));
                    let idx = choose|idx: int| 0 <= idx < tail.len() && tail[idx] == p;
                    assert(vs[idx + 1] == p);
                }
            }
        } else {
            assert(vs == tail);
            if exists|j: int|
                k <= j < ms.len() && ms[j] == p && !excluded(s, rg, (#[trigger] ms[j]).0) {
                let j = choose|j: int|
                    k <= j < ms.len() && ms[j] == p && !excluded(s, rg, (#[trigger] ms[j]).0);
                assert(j != k);
            }
        }
    }
}

/// Escape correctness: a marker-pattern match outside every code region is
/// among the violating spans exactly when an even number of consecutive
/// backslashes stands before it; with an odd number it is escaped and never
/// flagged.
pub proof fn lemma_md050_escape_correctness(
    s: Seq<char>,
    m: char,
    rg: Seq<(usize, usize)>,
    p: (int, int),
)
    requires
        matches_from(s, m, 0).contains(p),
        !in_ranges(rg, byte_at(s, p.0)),
    ensures
        md050_spans(s, m, rg).contains(p) <==> backslash_run(s, p.0) % 2 == 0,
{
    let ms = matches_from(s, m, 0);
    lemma_viol_from_membership(s, rg, ms, 0, p);
    let idx = choose|idx: int| 0 <= idx < ms.len() && ms[idx] == p;
    if backslash_run(s, p.0) % 2 == 0 {
        assert(ms[idx] == p && !excluded(s, rg, ms[idx].0));
    } else {
        if md050_spans(s, m, rg).contains(p) {
            let j = choose|j: int|
                0 <= j < ms.len() && ms[j] == p && !excluded(s, rg, (#[trigger] ms[j]).0);
            assert(is_escaped_at(s, ms[j].0));
        }
    }
}

/// First match from index `k` on that is not inside a code region (escapes
/// do not matter for style inference).
pub open spec fn first_unexcluded_in(
    s: Seq<char>,
    rg: Seq<(usize, usize)>,
    ms: Seq<(int, int)>,
    k: int,
) -> Option<(int, int)>
    decreases ms.len() - k,
{
    if k >= ms.len() {
        None
    } else if !in_ranges(rg, byte_at(s, ms[k].0)) {
        Some(ms[k])
    } else {
        first_unexcluded_in(s, rg, ms, k + 1)
    }
}

/// The dominant style: whichever of the two marker patterns first occurs
/// outside a code region; `None` when neither occurs.
pub open spec fn detect_spec(s: Seq<char>, rg: Seq<(usize, usize)>) -> Option<StrongStyle> {
    let fa = first_unexcluded_in(s, rg, matches_from(s, '*', 0), 0);
    let fu = first_unexcluded_in(s, rg, matches_from(s, '_', 0), 0);
    match (fa, fu) {
        (Some(a), Some(u)) => if a.0 < u.0 {
            Some(StrongStyle::Asterisk)
        } else {
            Some(StrongStyle::Underscore)
        },
        (Some(a), None) => Some(StrongStyle::Asterisk),
        (None, Some(u)) => Some(StrongStyle::Underscore),
        (None, None) => None,
    }
}

/// The concrete style matching runs against: the configured one, or for
/// `Consistent` the detected dominant style, defaulting to asterisk.
pub open spec fn resolved_style(cfg: StrongStyle, s: Seq<char>, rg: Seq<(usize, usize)>) -> StrongStyle {
    match cfg {
        StrongStyle::Consistent => match detect_spec(s, rg) {
            Some(st) => st,
            None => StrongStyle::Asterisk,
        },
        st => st,
    }
}

/// The violation message: which marker should be used instead.
pub open spec fn md050_message(target: StrongStyle) -> Seq<char> {
    if target == StrongStyle::Asterisk {
        "Strong emphasis should use ** instead of __"@
    } else {
        "Strong emphasis should use __ instead of **"@
    }
}

/// The replacement for one violating span: the inner text re-wrapped with
/// the target marker.
pub open spec fn rewrap(s: Seq<char>, m_rep: char, a: int, b: int) -> Seq<char> {
    seq![m_rep, m_rep] + s.subrange(a + 2, b - 2) + seq![m_rep, m_rep]
}

/// The warning for one violating span.
pub open spec fn warn_of_span(s: Seq<char>, target: StrongStyle, a: int, b: int) -> WarningModel {
    WarningModel {
        rule_name: Some("MD050"@),
        line: pos_line(s, a),
        column: pos_col(s, a),
        end_line: pos_line(s, b),
        end_column: pos_col(s, b),
        message: md050_message(target),
        severity: Severity::Warning,
        fix: Some(
            crate::warning::FixModel {
                start: byte_at(s, a),
                end: byte_at(s, b),
                replacement: rewrap(s, marker_of(target), a, b),
            },
        ),
    }
}

/// The warnings for the spans from index `k` on.
pub open spec fn warns_from(
    s: Seq<char>,
    target: StrongStyle,
    sp: Seq<(int, int)>,
    k: int,
) -> Seq<WarningModel>
    decreases sp.len() - k,
{
    if k >= sp.len() {
        Seq::empty()
    } else {
        seq![warn_of_span(s, target, sp[k].0, sp[k].1)] + warns_from(s, target, sp, k + 1)
    }
}

/// What `check` returns: one warning per violating span of the non-target
/// pattern, in ascending document order.
pub open spec fn md050_warnings_spec(
    cfg: StrongStyle,
    s: Seq<char>,
    rg: Seq<(usize, usize)>,
) -> Seq<WarningModel> {
    let target = resolved_style(cfg, s, rg);
    warns_from(s, target, md050_spans(s, scan_marker_of(target), rg), 0)
}

/// The document with the spans from index `k` on re-wrapped, `prev` being
/// the first index not yet emitted.
pub open spec fn apply_from(
    s: Seq<char>,
    m_rep: char,
    sp: Seq<(int, int)>,
    k: int,
    prev: int,
) -> Seq<char>
    decreases sp.len() - k,
{
    if k >= sp.len() {
        s.skip(prev)
    } else {
        s.subrange(prev, sp[k].0) + rewrap(s, m_rep, sp[k].0, sp[k].1) + apply_from(
            s,
            m_rep,
            sp,
            k + 1,
            sp[k].1,
        )
    }
}

/// What `fix` returns: every violating span re-wrapped with the target
/// marker, the rest of the document unchanged.
pub open spec fn md050_fix_spec(cfg: StrongStyle, s: Seq<char>, rg: Seq<(usize, usize)>) -> Seq<
    char,
> {
    let target = resolved_style(cfg, s, rg);
    apply_from(s, marker_of(target), md050_spans(s, scan_marker_of(target), rg), 0, 0)
}

/// A document with no violations is returned by `fix` unchanged.
pub proof fn lemma_md050_fix_identity(cfg: StrongStyle, s: Seq<char>, rg: Seq<(usize, usize)>)
    requires
        md050_warnings_spec(cfg, s, rg) == Seq::<WarningModel>::empty(),
    ensures
        md050_fix_spec(cfg, s, rg) == s,
{
    let target = resolved_style(cfg, s, rg);
    let sp = md050_spans(s, scan_marker_of(target), rg);
    assert(sp.len() == 0) by {
        if sp.len() > 0 {
            assert(warns_from(s, target, sp, 0).len() > 0);
        }
    }
    assert(apply_from(s, marker_of(target), sp, 0, 0) =~= s);
}

/// Fixing is idempotent whenever one pass leaves no further violations;
/// re-wrapping can regroup markers, so this is exactly the condition under
/// which a second pass changes nothing. The second pass may see a code-region
/// oracle rebuilt for the rewritten document.
pub proof fn lemma_md050_fix_idempotent(
    cfg: StrongStyle,
    s: Seq<char>,
    rg: Seq<(usize, usize)>,
    rg2: Seq<(usize, usize)>,
)
    requires
        md050_warnings_spec(cfg, md050_fix_spec(cfg, s, rg), rg2) == Seq::<WarningModel>::empty(),
    ensures
        md050_fix_spec(cfg, md050_fix_spec(cfg, s, rg), rg2) == md050_fix_spec(cfg, s, rg),
{
    lemma_md050_fix_identity(cfg, md050_fix_spec(cfg, s, rg), rg2);
}

/// View of an executable span vector.
pub open spec fn spans_view(v: Seq<(usize, usize)>) -> Seq<(int, int)> {
    v.map_values(|p: (usize, usize)| (p.0 as int, p.1 as int))
}

/// Rule MD050: strong-emphasis style should be consistent.
pub struct MD050StrongStyle {
    config: MD050Config,
}

impl MD050StrongStyle {
    /// The configured style.
    pub closed spec fn style_spec(&self) -> StrongStyle {
        self.config.style
    }

    pub fn new(style: StrongStyle) -> (r: MD050StrongStyle)
        ensures
            r.style_spec() == style,
    {
        MD050StrongStyle { config: MD050Config { style } }
    }

    pub fn from_config_struct(config: MD050Config) -> (r: MD050StrongStyle)
        ensures
            r.style_spec() == config.style,
    {
        MD050StrongStyle { config }
    }

    pub fn name(&self) -> (r: &'static str)
        ensures
            r@ == "MD050"@,
    {
        "MD050"
    }

    pub fn description(&self) -> (r: &'static str)
        ensures
            r@ == "Strong emphasis style should be consistent"@,
    {
        "Strong emphasis style should be consistent"
    }

    /// Whether the character at index `pos` is escaped: preceded by an odd
    /// number of consecutive backslashes.
    pub fn is_escaped(&self, text: &str, pos: usize) -> (r: bool)
        requires
            pos <= text@.len(),
        ensures
            r == is_escaped_at(text@, pos as int),
    {
        let v = chars_of(text);
        escaped_exec(&v, pos)
    }

    /// The dominant style of the document: whichever marker pattern first
    /// occurs outside a code region; `None` when neither occurs.
    pub fn detect_style(&self, content: &str, regions: &CodeRegions) -> (r: Option<StrongStyle>)
        ensures
            r == detect_spec(content@, regions@),
    {
        let v = chars_of(content);
        detect_inner(&v, regions)
    }

    fn resolve_style(&self, v: &Vec<char>, regions: &CodeRegions) -> (t: StrongStyle)
        requires
            byte_len(v@) <= usize::MAX / 2,
        ensures
            t == resolved_style(self.style_spec(), v@, regions@),
            t != StrongStyle::Consistent,
    {
        match self.config.style {
            StrongStyle::Consistent => match detect_inner(v, regions) {
                Some(st) => st,
                None => StrongStyle::Asterisk,
            },
            st => st,
        }
    }

    /// Violations of the resolved style, in ascending document order, each
    /// carrying a fix that re-wraps the span with the target marker.
    pub fn check(&self, content: &str, regions: &CodeRegions) -> (r: Vec<LintWarning>)
        ensures
            warnings_view(r@) == md050_warnings_spec(self.style_spec(), content@, regions@),
    {
        let v = chars_of(content);
        let ghost s = v@;
        let target = self.resolve_style(&v, regions);
        let m_scan = match target {
            StrongStyle::Asterisk => '_',
            _ => '*',
        };
        let m_rep = match target {
            StrongStyle::Underscore => '_',
            _ => '*',
        };
        proof {
            assert(m_scan == scan_marker_of(target));
            assert(m_rep == marker_of(target));
        }
        let spans = violating_spans(&v, m_scan, regions);
        let ghost sp = md050_spans(s, m_scan, regions@);
        proof {
            lemma_matches_wf(s, m_scan, 0);
            lemma_viol_from_wf(s, regions@, matches_from(s, m_scan, 0), 0);
        }
        let msg: &'static str = match target {
            StrongStyle::Asterisk => "Strong emphasis should use ** instead of __",
            _ => "Strong emphasis should use __ instead of **",
        };
        let mut out: Vec<LintWarning> = Vec::new();
        let mut k: usize = 0;
        while k < spans.len()
            invariant
                k <= spans.len(),
                byte_len(s) <= usize::MAX / 2,
                v@ == s,
                spans_view(spans@) == sp,
                m_rep == marker_of(target),
                msg@ == md050_message(target),
                forall|j: int|
                    0 <= j < sp.len() ==> 0 <= (#[trigger] sp[j]).0 && sp[j].0 + 5 <= sp[j].1
                        <= s.len(),
                warns_from(s, target, sp, 0) == warnings_view(out@) + warns_from(
                    s,
                    target,
                    sp,
                    k as int,
                ),
            decreases spans.len() - k,
        {
            let (a, b) = spans[k];
            proof {
                assert(sp[k as int] == (a as int, b as int));
            }
            let (sl, sc) = pos_of_exec(&v, a);
            let (el, ec) = pos_of_exec(&v, b);
            let mut rep: Vec<char> = Vec::new();
            rep.push(m_rep);
            rep.push(m_rep);
            push_range(&mut rep, &v, a + 2, b - 2);
            rep.push(m_rep);
            rep.push(m_rep);
            proof {
                assert(rep@ =~= rewrap(s, marker_of(target), a as int, b as int));
            }
            let w = LintWarning {
                rule_name: Some(String::from_str(self.name())),
                line: sl,
                column: sc,
                end_line: el,
                end_column: ec,
                message: String::from_str(msg),
                severity: Severity::Warning,
                fix: Some(
                    Fix {
                        start: byte_at_exec(&v, a),
                        end: byte_at_exec(&v, b),
                        replacement: chars_to_string(&rep),
                    },
                ),
            };
            proof {
                assert(w@ == warn_of_span(s, target, a as int, b as int));
            }
            out.push(w);
            proof {
                assert(warnings_view(out@) =~= warnings_view(out@.drop_last()) + seq![
                    warn_of_span(s, target, a as int, b as int),
                ]);
                assert(warns_from(s, target, sp, k as int) == seq![
                    warn_of_span(s, target, a as int, b as int),
                ] + warns_from(s, target, sp, k as int + 1));
                assert(warnings_view(out@) + warns_from(s, target, sp, k as int + 1)
                    =~= warnings_view(out@.drop_last()) + warns_from(s, target, sp, k as int));
            }
            k += 1;
        }
        proof {
            assert(warnings_view(out@) + warns_from(s, target, sp, k as int) =~= warnings_view(
                out@,
            ));
        }
        out
    }

    /// The document with every violation of the resolved style re-wrapped
    /// with the target marker; a document with no violations is returned
    /// unchanged.
    pub fn fix(&self, content: &str, regions: &CodeRegions) -> (r: String)
        ensures
            r@ == md050_fix_spec(self.style_spec(), content@, regions@),
    {
        let v = chars_of(content);
        let ghost s = v@;
        let target = self.resolve_style(&v, regions);
        let m_scan = match target {
            StrongStyle::Asterisk => '_',
            _ => '*',
        };
        let m_rep = match target {
            StrongStyle::Underscore => '_',
            _ => '*',
        };
        proof {
            assert(m_scan == scan_marker_of(target));
            assert(m_rep == marker_of(target));
        }
        let spans = violating_spans(&v, m_scan, regions);
        let ghost sp = md050_spans(s, m_scan, regions@);
        proof {
            lemma_matches_wf(s, m_scan, 0);
            lemma_viol_from_wf(s, regions@, matches_from(s, m_scan, 0), 0);
        }
        let mut out: Vec<char> = Vec::new();
        let mut prev: usize = 0;
        let mut k: usize = 0;
        while k < spans.len()
            invariant
                k <= spans.len(),
                byte_len(s) <= usize::MAX / 2,
                v@ == s,
                spans_view(spans@) == sp,
                m_rep == marker_of(target),
                prev <= s.len(),
                k < spans.len() ==> prev <= sp[k as int].0,
                forall|j: int|
                    0 <= j < sp.len() ==> 0 <= (#[trigger] sp[j]).0 && sp[j].0 + 5 <= sp[j].1
                        <= s.len(),
                forall|j: int, l: int|
                    0 <= j < l < sp.len() ==> (#[trigger] sp[j]).1 <= (#[trigger] sp[l]).0,
                apply_from(s, marker_of(target), sp, 0, 0) == out@ + apply_from(
                    s,
                    marker_of(target),
                    sp,
                    k as int,
                    prev as int,
                ),
            decreases spans.len() - k,
        {
            let (a, b) = spans[k];
            proof {
                assert(sp[k as int] == (a as int, b as int));
            }
            let ghost out0 = out@;
            let ghost prev0 = prev as int;
            push_range(&mut out, &v, prev, a);
            out.push(m_rep);
            out.push(m_rep);
            push_range(&mut out, &v, a + 2, b - 2);
            out.push(m_rep);
            out.push(m_rep);
            prev = b;
            proof {
                assert(out@ =~= out0 + s.subrange(prev0, a as int) + rewrap(
                    s,
                    marker_of(target),
                    a as int,
                    b as int,
                ));
                assert(apply_from(s, marker_of(target), sp, k as int, prev0) == s.subrange(
                    prev0,
                    a as int,
                ) + rewrap(s, marker_of(target), a as int, b as int) + apply_from(
                    s,
                    marker_of(target),
                    sp,
                    k as int + 1,
                    b as int,
                ));
                assert(out0 + apply_from(s, marker_of(target), sp, k as int, prev0) =~= out@
                    + apply_from(s, marker_of(target), sp, k as int + 1, b as int));
            }
            k += 1;
        }
        push_range(&mut out, &v, prev, v.len());
        proof {
            assert(s.subrange(prev as int, s.len() as int) =~= s.skip(prev as int));
        }
        chars_to_string(&out)
    }
}

/// Whether the character at `pos` is preceded by an odd number of
/// consecutive backslashes.
fn escaped_exec(v: &Vec<char>, pos: usize) -> (r: bool)
    requires
        pos <= v@.len(),
    ensures
        r == is_escaped_at(v@, pos as int),
{
    let mut j: usize = pos;
    while j > 0 && v[j - 1] == '\\'
        invariant
            j <= pos <= v@.len(),
            backslash_run(v@, pos as int) == pos - j + backslash_run(v@, j as int),
        decreases j,
    {
        j -= 1;
    }
    (pos - j) % 2 == 1
}

/// Index of the first character at or after `i` that is the marker or a
/// backslash (the document length if none).
fn run_end_exec(v: &Vec<char>, m: char, i: usize) -> (r: usize)
    requires
        i <= v@.len(),
    ensures
        r == run_end(v@, m, i as int),
        i <= r <= v@.len(),
{
    let mut j: usize = i;
    while j < v.len() && v[j] != m && v[j] != '\\'
        invariant
            i <= j <= v@.len(),
            run_end(v@, m, i as int) == run_end(v@, m, j as int),
        decreases v@.len() - j,
    {
        j += 1;
    }
    j
}

/// End of the marker-pair match starting at `i`, if one starts there.
fn try_match_at(v: &Vec<char>, m: char, i: usize) -> (r: Option<usize>)
    ensures
        match r {
            Some(e) => match_end_at(v@, m, i as int) == Some(e as int) && i < e <= v@.len(),
            None => match_end_at(v@, m, i as int) is None,
        },
{
    if i >= v.len() || i + 1 >= v.len() {
        return None;
    }
    if v[i] != m || v[i + 1] != m {
        return None;
    }
    let r = run_end_exec(v, m, i + 2);
    if i + 2 < r && r < v.len() && v[r] == m && r + 1 < v.len() && v[r + 1] == m {
        Some(r + 2)
    } else {
        None
    }
}

/// All marker-pair matches of the document, leftmost first.
fn find_matches(v: &Vec<char>, m: char) -> (r: Vec<(usize, usize)>)
    ensures
        spans_view(r@) == matches_from(v@, m, 0),
{
    let mut out: Vec<(usize, usize)> = Vec::new();
    let mut i: usize = 0;
    while i < v.len()
        invariant
            matches_from(v@, m, 0) == spans_view(out@) + matches_from(v@, m, i as int),
        decreases v@.len() - i,
    {
        match try_match_at(v, m, i) {
            Some(e) => {
                out.push((i, e));
                proof {
                    assert(spans_view(out@) =~= spans_view(out@.drop_last()) + seq![
                        (i as int, e as int),
                    ]);
                    assert(spans_view(out@.drop_last()) + (seq![(i as int, e as int)]
                        + matches_from(v@, m, e as int)) =~= spans_view(out@) + matches_from(
                        v@,
                        m,
                        e as int,
                    ));
                }
                i = e;
            },
            None => {
                i += 1;
            },
        }
    }
    proof {
        assert(spans_view(out@) + matches_from(v@, m, i as int) =~= spans_view(out@));
    }
    out
}

/// The matches that are not excluded: outside code regions and unescaped.
fn violating_spans(v: &Vec<char>, m: char, regions: &CodeRegions) -> (r: Vec<(usize, usize)>)
    requires
        byte_len(v@) <= usize::MAX / 2,
    ensures
        spans_view(r@) == md050_spans(v@, m, regions@),
{
    let ms = find_matches(v, m);
    let ghost msv = matches_from(v@, m, 0);
    proof {
        lemma_matches_wf(v@, m, 0);
    }
    let mut out: Vec<(usize, usize)> = Vec::new();
    let mut k: usize = 0;
    while k < ms.len()
        invariant
            k <= ms.len(),
            byte_len(v@) <= usize::MAX / 2,
            spans_view(ms@) == msv,
            forall|j: int|
                0 <= j < msv.len() ==> 0 <= (#[trigger] msv[j]).0 && msv[j].0 + 5 <= msv[j].1
                    <= v@.len(),
            viol_from(v@, regions@, msv, 0) == spans_view(out@) + viol_from(
                v@,
                regions@,
                msv,
                k as int,
            ),
        decreases ms.len() - k,
    {
        let (a, b) = ms[k];
        proof {
            assert(msv[k as int] == (a as int, b as int));
        }
        let in_code = regions.is_in_code_region(byte_at_exec(v, a));
        let esc = escaped_exec(v, a);
        if !in_code && !esc {
            out.push((a, b));
            proof {
                assert(spans_view(out@) =~= spans_view(out@.drop_last()) + seq![
                    (a as int, b as int),
                ]);
                assert(spans_view(out@.drop_last()) + (seq![(a as int, b as int)] + viol_from(
                    v@,
                    regions@,
                    msv,
                    k as int + 1,
                )) =~= spans_view(out@) + viol_from(v@, regions@, msv, k as int + 1));
            }
        }
        k += 1;
    }
    proof {
        assert(spans_view(out@) + viol_from(v@, regions@, msv, k as int) =~= spans_view(out@));
    }
    out
}

/// First match not inside a code region, scanning the given match list.
fn first_unexcluded(v: &Vec<char>, ms: &Vec<(usize, usize)>, regions: &CodeRegions) -> (r: Option<
    (usize, usize),
>)
    requires
        byte_len(v@) <= usize::MAX / 2,
        forall|j: int|
            0 <= j < ms@.len() ==> (#[trigger] ms@[j]).0 <= v@.len(),
    ensures
        match r {
            Some(p) => first_unexcluded_in(v@, regions@, spans_view(ms@), 0) == Some(
                (p.0 as int, p.1 as int),
            ),
            None => first_unexcluded_in(v@, regions@, spans_view(ms@), 0) is None,
        },
{
    let ghost msv = spans_view(ms@);
    let mut k: usize = 0;
    while k < ms.len()
        invariant
            k <= ms.len(),
            byte_len(v@) <= usize::MAX / 2,
            msv == spans_view(ms@),
            forall|j: int|
                0 <= j < ms@.len() ==> (#[trigger] ms@[j]).0 <= v@.len(),
            first_unexcluded_in(v@, regions@, msv, 0) == first_unexcluded_in(
                v@,
                regions@,
                msv,
                k as int,
            ),
        decreases ms.len() - k,
    {
        let (a, b) = ms[k];
        proof {
            assert(msv[k as int] == (a as int, b as int));
        }
        if !regions.is_in_code_region(byte_at_exec(v, a)) {
            return Some((a, b));
        }
        k += 1;
    }
    None
}

/// The dominant style of the document held as characters.
fn detect_inner(v: &Vec<char>, regions: &CodeRegions) -> (r: Option<StrongStyle>)
    requires
        byte_len(v@) <= usize::MAX / 2,
    ensures
        r == detect_spec(v@, regions@),
{
    let ma = find_matches(v, '*');
    let mu = find_matches(v, '_');
    proof {
        lemma_matches_wf(v@, '*', 0);
        lemma_matches_wf(v@, '_', 0);
    }
    proof {
        assert forall|j: int| 0 <= j < ma@.len() implies (#[trigger] ma@[j]).0 <= v@.len() by {
            assert(spans_view(ma@)[j] == (ma@[j].0 as int, ma@[j].1 as int));
        }
        assert forall|j: int| 0 <= j < mu@.len() implies (#[trigger] mu@[j]).0 <= v@.len() by {
            assert(spans_view(mu@)[j] == (mu@[j].0 as int, mu@[j].1 as int));
        }
    }
    let fa = first_unexcluded(v, &ma, regions);
    let fu = first_unexcluded(v, &mu, regions);
    match (fa, fu) {
        (Some(a), Some(u)) => if a.0 < u.0 {
            Some(StrongStyle::Asterisk)
        } else {
            Some(StrongStyle::Underscore)
        },
        (Some(_), None) => Some(StrongStyle::Asterisk),
        (None, Some(_)) => Some(StrongStyle::Underscore),
        (None, None) => None,
    }
}

} // verus!
