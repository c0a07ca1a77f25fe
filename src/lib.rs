//! A verified engine for linting proposal documents: a preamble of named
//! fields, a markdown body, configurable rules with allow/warn/deny
//! dispositions, and structured diagnostics.

pub mod severity;
pub mod diagnostic;
pub mod disposition;
pub mod document;
pub mod markdown;
pub mod section_order;
pub mod modifier;
pub mod options;
pub mod requires_status;
pub mod linter;
pub mod reporter;
