//! A rule-based text linter core: position mapping between byte offsets and
//! line/column coordinates, two style rules with verified `check`/`fix`
//! behaviour, a content-addressed violation cache, and an adapter that turns
//! rule violations into editor-protocol diagnostics.

pub mod lsp;
pub mod md044;
pub mod md050;
pub mod position;
pub mod regions;
pub mod text;
pub mod warning;
