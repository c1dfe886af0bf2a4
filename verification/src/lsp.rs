//! Diagnostic adapter: translates rule violations into an editor-protocol
//! shape. Severities map 1:1; the rule identifier becomes both a
//! machine-readable code and a documentation link built deterministically
//! from the lower-cased identifier; positions are converted from the
//! 1-based rule-facing model to the protocol's 0-based model by
//! subtraction. A fixable violation additionally yields a quick-fix action
//! holding a single text edit, whose range comes from the position index;
//! when the fix's byte range cannot be mapped, the diagnostic is still
//! produced but no quick fix is.

use vstd::prelude::*;
use crate::position::{LineIndex, char_index_of_byte, to_range_spec, lemma_pos_positive};
use crate::text::{chars_of, chars_to_string, lower_seq, to_lower};
use crate::warning::{LintWarning, Severity, WarningModel};

verus! {

/// Configuration of a linting language server.
pub struct RumdlLspConfig {
    /// Path to the configuration file, if any.
    pub config_path: Option<String>,
    /// Whether real-time linting is on.
    pub enable_linting: bool,
    /// Whether fixes are applied on save.
    pub enable_auto_fix: bool,
    /// Rules to disable.
    pub disable_rules: Vec<String>,
}

impl Default for RumdlLspConfig {
    /// By default linting is on, auto-fixing is off, no configuration file
    /// is named and no rule is disabled.
    fn default() -> (r: RumdlLspConfig)
        ensures
            r.config_path is None,
            r.enable_linting == true,
            r.enable_auto_fix == false,
            r.disable_rules@ == Seq::<String>::empty(),
    {
        RumdlLspConfig {
            config_path: None,
            enable_linting: true,
            enable_auto_fix: false,
            disable_rules: Vec::new(),
        }
    }
}

/// A protocol position: 0-based line and character (in characters).
pub struct LspPosition {
    pub line: usize,
    pub character: usize,
}

/// A protocol range.
pub struct LspRange {
    pub start: LspPosition,
    pub end: LspPosition,
}

/// A protocol diagnostic for one violation.
pub struct LspDiagnostic {
    pub range: LspRange,
    pub severity: Severity,
    pub code: Option<String>,
    pub code_description_url: Option<String>,
    pub source: String,
    pub message: String,
}

/// One text replacement.
pub struct LspTextEdit {
    pub range: LspRange,
    pub new_text: String,
}

/// A quick-fix action: a single edit over one identified document.
pub struct LspCodeAction {
    pub title: String,
    pub kind: String,
    pub uri: String,
    pub edit: LspTextEdit,
    pub is_preferred: bool,
    pub diagnostic: LspDiagnostic,
}

/// Mathematical model of a diagnostic.
pub struct DiagModel {
    pub start_line: int,
    pub start_char: int,
    pub end_line: int,
    pub end_char: int,
    pub severity: Severity,
    pub code: Option<Seq<char>>,
    pub code_description_url: Option<Seq<char>>,
    pub source: Seq<char>,
    pub message: Seq<char>,
}

impl View for LspDiagnostic {
    type V = DiagModel;

    open spec fn view(&self) -> DiagModel {
        DiagModel {
            start_line: self.range.start.line as int,
            start_char: self.range.start.character as int,
            end_line: self.range.end.line as int,
            end_char: self.range.end.character as int,
            severity: self.severity,
            code: match self.code {
                Some(c) => Some(c@),
                None => None,
            },
            code_description_url: match self.code_description_url {
                Some(u) => Some(u@),
                None => None,
            },
            source: self.source@,
            message: self.message@,
        }
    }
}

/// Mathematical model of a quick-fix action.
pub struct ActionModel {
    pub title: Seq<char>,
    pub kind: Seq<char>,
    pub uri: Seq<char>,
    pub edit_start: (int, int),
    pub edit_end: (int, int),
    pub new_text: Seq<char>,
    pub is_preferred: bool,
    pub diagnostic: DiagModel,
}

impl View for LspCodeAction {
    type V = ActionModel;

    open spec fn view(&self) -> ActionModel {
        ActionModel {
            title: self.title@,
            kind: self.kind@,
            uri: self.uri@,
            edit_start: (
                self.edit.range.start.line as int,
                self.edit.range.start.character as int,
            ),
            edit_end: (self.edit.range.end.line as int, self.edit.range.end.character as int),
            new_text: self.edit.new_text@,
            is_preferred: self.is_preferred,
            diagnostic: self.diagnostic@,
        }
    }
}

/// 1-based to 0-based, never below zero.
pub open spec fn sub1(x: int) -> int {
    if x >= 1 {
        x - 1
    } else {
        0
    }
}

/// The documentation link for a rule identifier: host, organisation, tool
/// and the lower-cased identifier.
pub open spec fn doc_url_of(name: Seq<char>) -> Seq<char> {
    "https://github.com/rvben/rumdl/blob/main/docs/"@ + lower_seq(name) + ".md"@
}

/// The diagnostic a violation maps to.
pub open spec fn diagnostic_of(w: WarningModel) -> DiagModel {
    DiagModel {
        start_line: sub1(w.line),
        start_char: sub1(w.column),
        end_line: sub1(w.end_line),
        end_char: sub1(w.end_column),
        severity: w.severity,
        code: w.rule_name,
        code_description_url: match w.rule_name {
            Some(n) => Some(doc_url_of(n)),
            None => None,
        },
        source: "rumdl"@,
        message: w.message,
    }
}

/// The quick-fix action a violation maps to: its fix's byte range converted
/// to 0-based protocol positions, or nothing when the violation carries no
/// fix or the range cannot be mapped.
pub open spec fn code_action_of(w: WarningModel, uri: Seq<char>, s: Seq<char>) -> Option<
    ActionModel,
> {
    match w.fix {
        Some(f) => match to_range_spec(s, f.start, f.end) {
            Some(pr) => Some(
                ActionModel {
                    title: "Fix: "@ + w.message,
                    kind: "quickfix"@,
                    uri,
                    edit_start: (sub1(pr.0.0), sub1(pr.0.1)),
                    edit_end: (sub1(pr.1.0), sub1(pr.1.1)),
                    new_text: f.replacement,
                    is_preferred: true,
                    diagnostic: diagnostic_of(w),
                },
            ),
            None => None,
        },
        None => None,
    }
}

/// Translate one violation into a protocol diagnostic.
pub fn warning_to_diagnostic(warning: &LintWarning) -> (d: LspDiagnostic)
    ensures
        d@ == diagnostic_of(warning@),
{
    let start = LspPosition {
        line: if warning.line >= 1 {
            warning.line - 1
        } else {
            0
        },
        character: if warning.column >= 1 {
            warning.column - 1
        } else {
            0
        },
    };
    let end = LspPosition {
        line: if warning.end_line >= 1 {
            warning.end_line - 1
        } else {
            0
        },
        character: if warning.end_column >= 1 {
            warning.end_column - 1
        } else {
            0
        },
    };
    let (code, url) = match &warning.rule_name {
        Some(n) => {
            let nchars = chars_of(n.as_str());
            let lowered = to_lower(&nchars);
            let mut u = String::from_str("https://github.com/rvben/rumdl/blob/main/docs/");
            let low_s = chars_to_string(&lowered);
            u.append(low_s.as_str());
            u.append(".md");
            proof {
                assert(u@ =~= doc_url_of(n@));
            }
            (Some(n.clone()), Some(u))
        },
        None => (None, None),
    };
    LspDiagnostic {
        range: LspRange { start, end },
        severity: warning.severity,
        code,
        code_description_url: url,
        source: String::from_str("rumdl"),
        message: warning.message.clone(),
    }
}

/// Convert a byte range of `text` to a 0-based protocol range, or nothing
/// when an endpoint does not fall on a character boundary.
pub fn byte_range_to_lsp_range(text: &str, start: usize, end: usize) -> (r: Option<LspRange>)
    ensures
        match r {
            Some(lr) => to_range_spec(text@, start as int, end as int) == Some(
                (
                    (lr.start.line as int + 1, lr.start.character as int + 1),
                    (lr.end.line as int + 1, lr.end.character as int + 1),
                ),
            ),
            None => to_range_spec(text@, start as int, end as int) is None,
        },
{
    let li = LineIndex::new(text);
    match li.to_range(start, end) {
        Some(pr) => {
            let ((sl, sc), (el, ec)) = pr;
            proof {
                let s = text@;
                let i = char_index_of_byte(s, start as int)->Some_0;
                let j = char_index_of_byte(s, end as int)->Some_0;
                lemma_pos_positive(s, i);
                lemma_pos_positive(s, j);
            }
            Some(
                LspRange {
                    start: LspPosition { line: sl - 1, character: sc - 1 },
                    end: LspPosition { line: el - 1, character: ec - 1 },
                },
            )
        },
        None => None,
    }
}

/// Translate one fixable violation into a quick-fix action over the
/// document named by `uri`; the fix's byte range is resolved against
/// `document_text` by the position index.
pub fn warning_to_code_action(warning: &LintWarning, uri: &str, document_text: &str) -> (r: Option<
    LspCodeAction,
>)
    ensures
        match r {
            Some(a) => code_action_of(warning@, uri@, document_text@) == Some(a@),
            None => code_action_of(warning@, uri@, document_text@) is None,
        },
{
    match &warning.fix {
        Some(f) => {
            match byte_range_to_lsp_range(document_text, f.start, f.end) {
                Some(range) => {
                    let mut title = String::from_str("Fix: ");
                    title.append(warning.message.as_str());
                    proof {
                        assert(title@ =~= "Fix: "@ + warning.message@);
                    }
                    Some(
                        LspCodeAction {
                            title,
                            kind: String::from_str("quickfix"),
                            uri: String::from_str(uri),
                            edit: LspTextEdit { range, new_text: f.replacement.clone() },
                            is_preferred: true,
                            diagnostic: warning_to_diagnostic(warning),
                        },
                    )
                },
                None => None,
            }
        },
        None => None,
    }
}

} // verus!
