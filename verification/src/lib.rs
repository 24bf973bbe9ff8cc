//! An incremental compiler and registry for a small declarative DSL of
//! class-like node trees with properties, nested objects and cross-module
//! references.  Source text is tokenized into a flat, spanned token stream,
//! parsed into a flat node document, resolved across independently registered
//! files, and expanded into one fully resolved document per file.  An edit
//! that only changes literal values at fixed token positions is patched
//! directly into the already expanded documents; an edit that changes
//! structure is reported so the caller can reparse.
//!
//! The crate also carries two small self-contained companions: an undo/redo
//! history for text edits and the plain value types of a pointer-input layer.

pub mod ids;
pub mod span;
pub mod error;
pub mod token;

pub mod document;
pub mod lex;
pub mod tokenizer;

pub mod parser;
pub mod registry;
pub mod dep_order;
pub mod scope;
pub mod expand;
pub mod update;
pub mod patch;

pub mod history;
pub mod input;
