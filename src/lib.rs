//! Background syntax highlighting for a text editor: tokenizer output is
//! mapped to character spans, resolved against a per-document cache of
//! style handles, and guarded by a generation counter and a size cutoff.
//! Around it stand the editor's smaller rules: indentation on Tab, Enter and
//! closing brackets, the find-and-replace match test, the command palette's
//! filter, the file explorer's order, and the status bar's texts.

pub mod config;
pub mod color;
pub mod spans;
pub mod tokenize;
pub mod style_cache;
pub mod scheduler;
pub mod editing;
pub mod policy;
pub mod search;
pub mod palette;
pub mod explorer;
pub mod status;
pub mod themes;
