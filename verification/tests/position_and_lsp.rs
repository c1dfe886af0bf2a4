//! Tests for the position index and the diagnostic adapter.

use rumdl::lsp::{warning_to_code_action, warning_to_diagnostic, RumdlLspConfig};
use rumdl::md050::{MD050StrongStyle, StrongStyle};
use rumdl::position::LineIndex;
use rumdl::regions::CodeRegions;
use rumdl::warning::{Fix, LintWarning, Severity};

#[test]
fn to_range_ascii() {
    let idx = LineIndex::new("hello\nworld");
    assert_eq!(idx.to_range(0, 5), Some(((1, 1), (1, 6))));
    assert_eq!(idx.to_range(6, 11), Some(((2, 1), (2, 6))));
}

#[test]
fn to_range_multibyte_and_round_trip() {
    // Bytes: a=1, e-acute=2, newline=1, b=1, emoji=4, c=1.
    let text = "aé\nb😀c";
    let idx = LineIndex::new(text);
    let range = idx.to_range(4, 9).unwrap();
    assert_eq!(range, ((2, 1), (2, 3)));
    // Round trip: positions map back to the same byte offsets.
    assert_eq!(idx.to_byte_offset(2, 1), Some(4));
    assert_eq!(idx.to_byte_offset(2, 3), Some(9));
}

#[test]
fn to_range_rejects_non_boundary_offsets() {
    let idx = LineIndex::new("aé\nb");
    // Byte 2 lies inside the two-byte character.
    assert_eq!(idx.to_range(2, 3), None);
    assert_eq!(idx.to_range(0, 2), None);
    assert_eq!(idx.to_range(0, 3), Some(((1, 1), (1, 3))));
}

#[test]
fn to_range_end_of_text() {
    let idx = LineIndex::new("ab");
    assert_eq!(idx.to_range(0, 2), Some(((1, 1), (1, 3))));
    assert_eq!(idx.to_range(2, 2), Some(((1, 3), (1, 3))));
    assert_eq!(idx.to_range(0, 3), None);
}

#[test]
fn to_byte_offset_rejects_missing_positions() {
    let idx = LineIndex::new("ab\ncd");
    assert_eq!(idx.to_byte_offset(1, 1), Some(0));
    assert_eq!(idx.to_byte_offset(2, 2), Some(4));
    assert_eq!(idx.to_byte_offset(3, 1), None);
    assert_eq!(idx.to_byte_offset(1, 9), None);
}

#[test]
fn round_trip_every_aligned_range() {
    let text = "aé😀\nxyz";
    let idx = LineIndex::new(text);
    let boundaries: Vec<usize> =
        (0..=text.len()).filter(|&b| text.is_char_boundary(b)).collect();
    for &bs in &boundaries {
        for &be in &boundaries {
            if bs <= be {
                let ((sl, sc), (el, ec)) = idx.to_range(bs, be).unwrap();
                assert_eq!(idx.to_byte_offset(sl, sc), Some(bs));
                assert_eq!(idx.to_byte_offset(el, ec), Some(be));
            }
        }
    }
}

#[test]
fn diagnostic_from_rule_warning() {
    let rule = MD050StrongStyle::new(StrongStyle::Asterisk);
    let regions = CodeRegions::none();
    let warnings = rule.check("__b__", &regions);
    assert_eq!(warnings.len(), 1);
    let d = warning_to_diagnostic(&warnings[0]);
    assert_eq!(d.range.start.line, 0);
    assert_eq!(d.range.start.character, 0);
    assert_eq!(d.range.end.line, 0);
    assert_eq!(d.range.end.character, 5);
    assert!(matches!(d.severity, Severity::Warning));
    assert_eq!(d.code.as_deref(), Some("MD050"));
    assert_eq!(
        d.code_description_url.as_deref(),
        Some("https://github.com/rvben/rumdl/blob/main/docs/md050.md")
    );
    assert_eq!(d.source, "rumdl");
    assert_eq!(d.message, "Strong emphasis should use ** instead of __");
}

#[test]
fn diagnostic_without_rule_name_has_no_code() {
    let w = LintWarning {
        rule_name: None,
        line: 3,
        column: 2,
        end_line: 3,
        end_column: 4,
        message: "plain".to_string(),
        severity: Severity::Error,
        fix: None,
    };
    let d = warning_to_diagnostic(&w);
    assert_eq!(d.range.start.line, 2);
    assert_eq!(d.range.start.character, 1);
    assert!(d.code.is_none());
    assert!(d.code_description_url.is_none());
    assert!(matches!(d.severity, Severity::Error));
}

#[test]
fn code_action_from_rule_warning() {
    let doc = "__b__";
    let rule = MD050StrongStyle::new(StrongStyle::Asterisk);
    let regions = CodeRegions::none();
    let warnings = rule.check(doc, &regions);
    let action = warning_to_code_action(&warnings[0], "file:///d.md", doc).unwrap();
    assert_eq!(action.title, "Fix: Strong emphasis should use ** instead of __");
    assert_eq!(action.kind, "quickfix");
    assert_eq!(action.uri, "file:///d.md");
    assert_eq!(action.edit.range.start.line, 0);
    assert_eq!(action.edit.range.start.character, 0);
    assert_eq!(action.edit.range.end.line, 0);
    assert_eq!(action.edit.range.end.character, 5);
    assert_eq!(action.edit.new_text, "**b**");
    assert!(action.is_preferred);
    assert_eq!(action.diagnostic.code.as_deref(), Some("MD050"));
}

#[test]
fn code_action_absent_without_fix() {
    let w = LintWarning {
        rule_name: Some("MD050".to_string()),
        line: 1,
        column: 1,
        end_line: 1,
        end_column: 2,
        message: "m".to_string(),
        severity: Severity::Warning,
        fix: None,
    };
    assert!(warning_to_code_action(&w, "file:///d.md", "text").is_none());
}

#[test]
fn code_action_absent_for_unmappable_range() {
    // Byte 1 lies inside the two-byte character: the fix range cannot be
    // mapped, so no quick fix is produced, though a diagnostic still is.
    let w = LintWarning {
        rule_name: Some("MD050".to_string()),
        line: 1,
        column: 1,
        end_line: 1,
        end_column: 2,
        message: "m".to_string(),
        severity: Severity::Warning,
        fix: Some(Fix { start: 1, end: 2, replacement: "x".to_string() }),
    };
    assert!(warning_to_code_action(&w, "file:///d.md", "é a").is_none());
    let d = warning_to_diagnostic(&w);
    assert_eq!(d.message, "m");
}

#[test]
fn lsp_config_defaults() {
    let c = RumdlLspConfig::default();
    assert!(c.config_path.is_none());
    assert!(c.enable_linting);
    assert!(!c.enable_auto_fix);
    assert!(c.disable_rules.is_empty());
}
