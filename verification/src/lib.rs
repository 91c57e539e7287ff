//! Core logic of a language server that reports spelling mistakes found by `typos`:
//! where a typo stands in a document (LSP line and UTF-16 column), which typos an
//! ignore pattern hides, the diagnostics and quick fixes offered for them, and the
//! bookkeeping of open documents and workspace folders.

pub mod position;
pub mod ignores;
pub mod check;
pub mod diagnostics;
pub mod actions;
pub mod settings;
pub mod documents;
pub mod workspace;
pub mod routing;
pub mod config_edit;
