//! Streaming markdown rendering primitives.
//!
//! A parse state machine consumes UTF-8 text in chunks of arbitrary size and
//! split points and commits lines as soon as they are determinable; fenced
//! code blocks are rendered with syntax highlighting threaded through a
//! capability interface, codepoint-exact line wrapping, and display-width
//! padding; colors resolve through a fixed palette with hex passthrough.

pub mod width;
pub mod strutil;
pub mod colors;
pub mod wrap;
pub mod ansi;
pub mod code;
pub mod laws;
pub mod stream;
pub mod inline;
