//! Layout of word-processing documents.

pub mod bookmark;
pub mod bookmark_laws;
pub mod change_laws;
pub mod color;
pub mod convert;
pub mod document;
pub mod drawing;
pub mod engine;
pub mod engine_laws;
pub mod field;
pub mod fingerprint;
pub mod fingerprint_laws;
pub mod flow;
pub mod formatting_laws;
pub mod heading;
pub mod layout_laws;
pub mod page_laws;
pub mod pages;
pub mod paragraph;
pub mod plan;
pub mod plan_laws;
pub mod properties;
pub mod reference_laws;
pub mod revision;
pub mod revision_laws;
pub mod run_plan;
pub mod section;
pub mod section_laws;
pub mod segments;
pub mod style;
pub mod text;
pub mod text_laws;
pub mod units;
pub mod visit;
pub mod visit_laws;
