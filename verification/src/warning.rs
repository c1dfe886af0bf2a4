//! Violations and fixes: a located rule failure with message, severity and
//! an optional byte-precise edit resolving it.

use vstd::prelude::*;

verus! {

/// How severe a violation is.
#[derive(Clone, Copy, PartialEq, Eq, Structural, Debug)]
pub enum Severity {
    Error,
    Warning,
}

/// One edit resolving one violation: a byte range of the *original*
/// document and its replacement text.
pub struct Fix {
    /// Start byte offset, character-boundary aligned.
    pub start: usize,
    /// End byte offset (exclusive), character-boundary aligned.
    pub end: usize,
    /// Text to put in place of the range.
    pub replacement: String,
}

/// Mathematical model of a `Fix`.
pub struct FixModel {
    pub start: int,
    pub end: int,
    pub replacement: Seq<char>,
}

impl View for Fix {
    type V = FixModel;

    open spec fn view(&self) -> FixModel {
        FixModel { start: self.start as int, end: self.end as int, replacement: self.replacement@ }
    }
}

/// A located rule failure. Lines and columns are 1-based and count
/// characters, not bytes.
pub struct LintWarning {
    pub rule_name: Option<String>,
    pub line: usize,
    pub column: usize,
    pub end_line: usize,
    pub end_column: usize,
    pub message: String,
    pub severity: Severity,
    pub fix: Option<Fix>,
}

/// Mathematical model of a `LintWarning`.
pub struct WarningModel {
    pub rule_name: Option<Seq<char>>,
    pub line: int,
    pub column: int,
    pub end_line: int,
    pub end_column: int,
    pub message: Seq<char>,
    pub severity: Severity,
    pub fix: Option<FixModel>,
}

impl View for LintWarning {
    type V = WarningModel;

    open spec fn view(&self) -> WarningModel {
        WarningModel {
            rule_name: match self.rule_name {
                Some(n) => Some(n@),
                None => None,
            },
            line: self.line as int,
            column: self.column as int,
            end_line: self.end_line as int,
            end_column: self.end_column as int,
            message: self.message@,
            severity: self.severity,
            fix: match self.fix {
                Some(f) => Some(f@),
                None => None,
            },
        }
    }
}

/// The models of a vector of warnings, in order.
pub open spec fn warnings_view(v: Seq<LintWarning>) -> Seq<WarningModel> {
    v.map_values(|w: LintWarning| w@)
}

} // verus!
