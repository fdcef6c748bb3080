//! Content index and request-resolution core for a small Markdown site
//! server.
//!
//! The library builds an in-memory snapshot of a content tree (sections and
//! an index of documents sorted by date), renders Markdown documents to HTML
//! while extracting front matter, decides which request paths may be served
//! against the current snapshot, and swaps snapshots atomically on reload.
//! Filesystem walking, subprocess invocation and HTTP transport are left to
//! the surrounding program, which feeds this library plain values.

pub mod date;
pub mod ignore;
pub mod meta;
pub mod reload;
pub mod render;
pub mod routes;
pub mod scan;
pub mod snapshot;
pub mod text;
