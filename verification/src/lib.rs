//! A verified core for a program-shim launcher.
//!
//! A shim is a stand-in executable installed under a well-known name; when
//! invoked it reads a sibling descriptor, merges configured and call-site
//! arguments, transforms the environment, and launches the real target.
//! This crate holds the logic of that mechanism: the descriptor data model
//! and its text codec, the placeholder expander, the environment action
//! engine, the identity resolver, and the launch-supervision decisions.
//! File and process I/O live outside, in the thin front end around it.

pub mod descriptor;
pub mod codec;
pub mod envmap;
pub mod expand;
pub mod launch;
pub mod resolve;
pub mod text;
pub mod value;
