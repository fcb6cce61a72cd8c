//! The core of a small HTTP/1.1 file server: clients list, view and upload
//! files that live in one directory.
//!
//! The library reads a request out of the bytes that a client sent,
//! decodes an uploaded file, decides what each route does, and writes the
//! response as bytes. It touches neither the network nor the disk: a
//! caller hands it what was read and the answers of the file system, and
//! performs the steps that it names.
//!
//! - [`text`], [`strings`]: characters, trimming, searching, numerals.
//! - [`paths`]: file paths taken by the letter.
//! - [`common`]: the kinds of failure and the file held in memory.
//! - [`headers`]: header fields.
//! - [`request`], [`multipart`]: requests and uploaded files.
//! - [`response`], [`framing`]: responses and their bytes on the wire.
//! - [`handlers`], [`listing`]: routes, handlers and the pages of failures.
//! - [`exchange`]: what a well-formed upload is read as.
//! - [`clock`]: the time of day for the log.

pub mod clock;
pub mod common;
pub mod exchange;
pub mod framing;
pub mod handlers;
pub mod headers;
pub mod listing;
pub mod multipart;
pub mod paths;
pub mod request;
pub mod response;
pub mod strings;
pub mod text;
