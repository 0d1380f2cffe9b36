//! Fetch-and-assemble library for video fragments and paginated web documents: header
//! parsing, retry decisions, ordered fragment scheduling, page enumeration strategies and
//! page extraction, each stated by contracts and proved.
pub mod cli;
pub mod ebook;
pub mod extract;
pub mod fetch;
pub mod headers;
pub mod media;
pub mod schedule;
pub mod text;
