//! Core logic of a chat-driven command runner: it turns short text commands
//! into subprocess executions or remote snippet evaluations, and renders the
//! output back as bounded, annotated message text.
//!
//! The modules here hold the pure, verified rules of the system: text
//! normalization and header extraction for snippets, assembly of the unit
//! sent to the remote execution service, bounded rendering of live output,
//! result formatting, and command routing. The surrounding process plumbing
//! (transport, subprocess spawning, HTTP) lives outside this crate and calls
//! into it with plain values.

pub mod args;
pub mod command;
pub mod conf;
pub mod render;
pub mod report;
pub mod router;
pub mod snippet;
pub mod text;
