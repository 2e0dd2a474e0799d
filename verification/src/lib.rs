//! A streaming patcher for changelogs in the "Keep a Changelog" layout.
//!
//! A document arrives as a sequence of structural events. The patcher passes
//! that sequence through and inserts exactly one new entry: into the
//! `Unreleased` release at the top of the document, or into a freshly made
//! `Unreleased` release placed above the most recent one.

pub mod event;
pub mod request;
pub mod title;
pub mod rewrite;
pub mod patcher;
pub mod laws;
pub mod order;
