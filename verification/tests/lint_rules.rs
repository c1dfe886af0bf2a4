//! Behavioural tests for the two style rules.

use rumdl::md044::MD044ProperNames;
use rumdl::md050::{MD050StrongStyle, StrongStyle};
use rumdl::regions::CodeRegions;
use rumdl::warning::Severity;

fn names(list: &[&str]) -> Vec<String> {
    list.iter().map(|s| s.to_string()).collect()
}

#[test]
fn md050_flags_underscore_when_asterisk_forced() {
    let rule = MD050StrongStyle::new(StrongStyle::Asterisk);
    let regions = CodeRegions::none();
    let warnings = rule.check("some __bold__ text", &regions);
    assert_eq!(warnings.len(), 1);
    let w = &warnings[0];
    assert_eq!(w.rule_name.as_deref(), Some("MD050"));
    assert_eq!(w.line, 1);
    assert_eq!(w.column, 6);
    assert_eq!(w.end_line, 1);
    assert_eq!(w.end_column, 14);
    assert_eq!(w.message, "Strong emphasis should use ** instead of __");
    assert!(matches!(w.severity, Severity::Warning));
    let fix = w.fix.as_ref().unwrap();
    assert_eq!(fix.start, 5);
    assert_eq!(fix.end, 13);
    assert_eq!(fix.replacement, "**bold**");
}

#[test]
fn md050_no_violation_when_style_matches() {
    let rule = MD050StrongStyle::new(StrongStyle::Asterisk);
    let regions = CodeRegions::none();
    assert!(rule.check("some **bold** text", &regions).is_empty());
}

#[test]
fn md050_fix_rewraps_markers() {
    let rule = MD050StrongStyle::new(StrongStyle::Underscore);
    let regions = CodeRegions::none();
    assert_eq!(rule.fix("a **b** c **d**", &regions), "a __b__ c __d__");
}

#[test]
fn md050_fix_is_identity_without_violations() {
    let rule = MD050StrongStyle::new(StrongStyle::Asterisk);
    let regions = CodeRegions::none();
    let doc = "plain **ok** text";
    assert_eq!(rule.fix(doc, &regions), doc);
}

#[test]
fn md050_fix_idempotent_on_ordinary_input() {
    let rule = MD050StrongStyle::new(StrongStyle::Asterisk);
    let regions = CodeRegions::none();
    let once = rule.fix("__a__ b __c__", &regions);
    assert_eq!(once, "**a** b **c**");
    let twice = rule.fix(&once, &regions);
    assert_eq!(twice, once);
}

#[test]
fn md050_escaped_marker_even_backslashes_flagged() {
    let rule = MD050StrongStyle::new(StrongStyle::Asterisk);
    let regions = CodeRegions::none();
    // Two backslashes are a literal backslash: the marker is not escaped.
    let warnings = rule.check("\\\\__bold__", &regions);
    assert_eq!(warnings.len(), 1);
}

#[test]
fn md050_escaped_marker_odd_backslashes_not_flagged() {
    let rule = MD050StrongStyle::new(StrongStyle::Asterisk);
    let regions = CodeRegions::none();
    // One backslash escapes the marker.
    assert!(rule.check("\\__bold__", &regions).is_empty());
}

#[test]
fn md050_is_escaped_counts_backslash_parity() {
    let rule = MD050StrongStyle::new(StrongStyle::Asterisk);
    assert!(rule.is_escaped("\\__b__", 1));
    assert!(!rule.is_escaped("\\\\__b__", 2));
    assert!(!rule.is_escaped("x__b__", 1));
    assert!(!rule.is_escaped("__b__", 0));
}

#[test]
fn md050_style_inference_underscore_first() {
    let rule = MD050StrongStyle::new(StrongStyle::Consistent);
    let regions = CodeRegions::none();
    let doc = "__first__ then **second**";
    assert_eq!(rule.detect_style(doc, &regions), Some(StrongStyle::Underscore));
    let warnings = rule.check(doc, &regions);
    assert_eq!(warnings.len(), 1);
    assert_eq!(warnings[0].message, "Strong emphasis should use __ instead of **");
    assert_eq!(rule.fix(doc, &regions), "__first__ then __second__");
}

#[test]
fn md050_style_inference_asterisk_first() {
    let rule = MD050StrongStyle::new(StrongStyle::Consistent);
    let regions = CodeRegions::none();
    let doc = "**first** then __second__";
    assert_eq!(rule.detect_style(doc, &regions), Some(StrongStyle::Asterisk));
    assert_eq!(rule.fix(doc, &regions), "**first** then **second**");
}

#[test]
fn md050_no_marker_defaults_to_asterisk() {
    let rule = MD050StrongStyle::new(StrongStyle::Consistent);
    let regions = CodeRegions::none();
    let doc = "plain text only";
    assert_eq!(rule.detect_style(doc, &regions), None);
    assert!(rule.check(doc, &regions).is_empty());
    assert_eq!(rule.fix(doc, &regions), doc);
}

#[test]
fn md050_skips_matches_inside_code_regions() {
    let rule = MD050StrongStyle::new(StrongStyle::Asterisk);
    // "`__x__` and __y__": the span in backticks is a code region.
    let doc = "`__x__` and __y__";
    let regions = CodeRegions::new(vec![(0, 7)]);
    let warnings = rule.check(doc, &regions);
    assert_eq!(warnings.len(), 1);
    assert_eq!(warnings[0].column, 13);
    assert_eq!(rule.fix(doc, &regions), "`__x__` and **y**");
}

#[test]
fn md050_marker_interrupted_by_marker_char_not_matched() {
    let rule = MD050StrongStyle::new(StrongStyle::Asterisk);
    let regions = CodeRegions::none();
    assert!(rule.check("__a_b__", &regions).is_empty());
}

#[test]
fn md050_multibyte_byte_offsets() {
    let rule = MD050StrongStyle::new(StrongStyle::Asterisk);
    let regions = CodeRegions::none();
    let doc = "é __bé__";
    let warnings = rule.check(doc, &regions);
    assert_eq!(warnings.len(), 1);
    let fix = warnings[0].fix.as_ref().unwrap();
    // 'é' is two bytes: the match starts at byte 3 and ends at byte 10.
    assert_eq!(fix.start, 3);
    assert_eq!(fix.end, 10);
    assert_eq!(warnings[0].column, 3);
    assert_eq!(warnings[0].end_column, 9);
    assert_eq!(rule.fix(doc, &regions), "é **bé**");
}

#[test]
fn md050_names_and_description() {
    let rule = MD050StrongStyle::from_config_struct(rumdl::md050::MD050Config {
        style: StrongStyle::Asterisk,
    });
    assert_eq!(rule.name(), "MD050");
    assert_eq!(rule.description(), "Strong emphasis style should be consistent");
}

#[test]
fn md044_word_boundary_going_not_flagged() {
    let mut rule = MD044ProperNames::new(names(&["Go"]), true);
    let regions = CodeRegions::none();
    assert!(rule.check("Going to the store", &regions).is_empty());
}

#[test]
fn md044_standalone_lowercase_flagged() {
    let mut rule = MD044ProperNames::new(names(&["Go"]), true);
    let regions = CodeRegions::none();
    let warnings = rule.check("go ", &regions);
    assert_eq!(warnings.len(), 1);
    let w = &warnings[0];
    assert_eq!(w.line, 1);
    assert_eq!(w.column, 1);
    assert_eq!(w.end_column, 3);
    assert_eq!(w.message, "Proper name 'go' should be 'Go'");
    assert_eq!(w.fix.as_ref().unwrap().replacement, "Go");
    assert_eq!(rule.fix("go ", &regions), "Go ");
}

#[test]
fn md044_already_correct_not_flagged() {
    let mut rule = MD044ProperNames::new(names(&["JavaScript"]), true);
    let regions = CodeRegions::none();
    assert!(rule.check("JavaScript is fine", &regions).is_empty());
    assert_eq!(rule.fix("JavaScript is fine", &regions), "JavaScript is fine");
}

#[test]
fn md044_dot_stripped_variant_matches() {
    let mut rule = MD044ProperNames::new(names(&["Node.js"]), true);
    let regions = CodeRegions::none();
    let warnings = rule.check("nodejs rocks", &regions);
    assert_eq!(warnings.len(), 1);
    assert_eq!(warnings[0].message, "Proper name 'nodejs' should be 'Node.js'");
    assert_eq!(rule.fix("nodejs rocks", &regions), "Node.js rocks");
}

#[test]
fn md044_multiple_violations_ascending_order() {
    let mut rule = MD044ProperNames::new(names(&["JavaScript", "TypeScript"]), true);
    let regions = CodeRegions::none();
    let doc = "javascript first\nthen typescript";
    let warnings = rule.check(doc, &regions);
    assert_eq!(warnings.len(), 2);
    assert_eq!((warnings[0].line, warnings[0].column), (1, 1));
    assert_eq!((warnings[1].line, warnings[1].column), (2, 6));
    assert_eq!(rule.fix(doc, &regions), "JavaScript first\nthen TypeScript");
}

#[test]
fn md044_code_region_exclusion() {
    let doc = "```\njavascript\n```\n";
    // The fenced block spans bytes 0..18.
    let regions = CodeRegions::new(vec![(0, 18)]);
    let mut with_exclusion = MD044ProperNames::new(names(&["JavaScript"]), true);
    assert!(with_exclusion.check(doc, &regions).is_empty());
    let mut without_exclusion = MD044ProperNames::new(names(&["JavaScript"]), false);
    assert_eq!(without_exclusion.check(doc, &regions).len(), 1);
}

#[test]
fn md044_no_occurrence_empty() {
    let mut rule = MD044ProperNames::new(names(&["JavaScript"]), true);
    let regions = CodeRegions::none();
    assert!(rule.check("nothing relevant here", &regions).is_empty());
    assert_eq!(rule.fix("nothing relevant here", &regions), "nothing relevant here");
}

#[test]
fn md044_cache_hit_skips_rescan() {
    let mut rule = MD044ProperNames::new(names(&["JavaScript"]), true);
    let regions = CodeRegions::none();
    assert_eq!(rule.scans(), 0);
    let first = rule.check("javascript twice", &regions);
    assert_eq!(rule.scans(), 1);
    assert_eq!(rule.cache_len(), 1);
    let second = rule.check("javascript twice", &regions);
    assert_eq!(rule.scans(), 1, "second check must answer from the cache");
    assert_eq!(rule.cache_len(), 1);
    assert_eq!(first.len(), second.len());
    for (a, b) in first.iter().zip(second.iter()) {
        assert_eq!((a.line, a.column, a.end_line, a.end_column), (b.line, b.column, b.end_line, b.end_column));
        assert_eq!(a.message, b.message);
    }
    // A one-character change bypasses the cached entry.
    rule.check("javascript twice!", &regions);
    assert_eq!(rule.scans(), 2);
    assert_eq!(rule.cache_len(), 2);
}

#[test]
fn md044_fix_idempotent() {
    let mut rule = MD044ProperNames::new(names(&["JavaScript", "Node.js"]), true);
    let regions = CodeRegions::none();
    let once = rule.fix("javascript and nodejs", &regions);
    assert_eq!(once, "JavaScript and Node.js");
    let twice = rule.fix(&once, &regions);
    assert_eq!(twice, once);
}

#[test]
fn md044_fence_line_itself_skipped() {
    let mut rule = MD044ProperNames::new(names(&["Rust"]), false);
    let regions = CodeRegions::none();
    // The name on the fence line is not checked; the one inside is (no
    // exclusion is configured).
    let warnings = rule.check("```rust\nrust\n```\n", &regions);
    assert_eq!(warnings.len(), 1);
    assert_eq!(warnings[0].line, 2);
}

#[test]
fn md044_names_and_description() {
    let rule = MD044ProperNames::new(names(&[]), true);
    assert_eq!(rule.name(), "MD044");
    assert_eq!(rule.description(), "Proper names should have the correct capitalization");
}

#[test]
fn md050_rewrapping_can_regroup_markers() {
    // Converting the inner span leaves the outer underscores forming a new
    // span: one pass is not always enough, which is why convergence is the
    // stated condition for idempotence.
    let rule = MD050StrongStyle::new(StrongStyle::Asterisk);
    let regions = CodeRegions::none();
    let once = rule.fix("____a____", &regions);
    assert_eq!(once, "__**a**__");
    let twice = rule.fix(&once, &regions);
    assert_eq!(twice, "****a****");
    let thrice = rule.fix(&twice, &regions);
    assert_eq!(thrice, twice);
}

#[test]
fn md044_replacement_can_expose_new_match() {
    // Inserting a dotted canonical name creates a word boundary that lets
    // an overlapping name match on the next pass: one pass is not always
    // enough here either.
    let mut rule = MD044ProperNames::new(names(&["B.C", "A.B"]), true);
    let regions = CodeRegions::none();
    let once = rule.fix("a.bc", &regions);
    assert_eq!(once, "a.B.C");
    let twice = rule.fix(&once, &regions);
    assert_eq!(twice, "A.B.C");
    let thrice = rule.fix(&twice, &regions);
    assert_eq!(thrice, twice);
}
