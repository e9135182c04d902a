//! Semantic core of a language server for the Nix expression language:
//! syntax trees as arenas, lexical scopes, dotted paths, cross-file
//! resolution, namespace completion and renaming.

pub mod builtins;
pub mod completion;
pub mod context;
pub mod cursor;
pub mod diagnostics;
pub mod files;
pub mod json;
pub mod lexical;
pub mod parse;
pub mod path;
pub mod position;
pub mod rename;
pub mod resolve;
pub mod scope;
pub mod text;
pub mod tree;
