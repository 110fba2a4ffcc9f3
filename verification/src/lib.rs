//! Core of a language server for the Orchid language: document position
//! codec, file URIs and virtual paths, an overlay of unsaved buffers over an
//! on-disk tree, workspace and project lookup, semantic-token splitting and
//! transcoding, a JSON-RPC dispatch kernel, and the two-phase publish
//! protocol that keeps analysis results fresh under concurrent edits.
pub mod chars;
pub mod docpos;
pub mod document;
pub mod errcode;
pub mod tokens;
pub mod expr;
pub mod patch;
pub mod vfs;
pub mod jrpc;
pub mod logging;
pub mod ctx_map;
pub mod registry;
pub mod pipeline;
pub mod init;
