//! A verified zero-copy parser for HTTP/1.1 request text.
//!
//! The parser walks one fully buffered request — request line, header
//! block, blank line, body — as described by RFC 2616 section 5. It never
//! copies input text: every parsed field is a [`span::Span`] into the one
//! buffer the parse started from. Each grammar position is its own parser
//! type, so a caller can neither skip a step nor repeat one; the
//! transitions are the [`parser::Parse`] implementations, and their
//! contracts pin down exactly which spans each step extracts and when it
//! fails instead.

pub mod bytes;
pub mod headers;
pub mod parser;
pub mod scan;
pub mod sealed;
pub mod span;
