//! Ingestion and query engine for a registry of published Elm package versions.
//!
//! `db` holds the append-only record store and its queries; `elm` turns the
//! registry's metadata into records and decides what each kind of
//! synchronization run stores; `sync` picks the run and applies what was
//! fetched; `release` classifies versions; `feed` writes the text of feed
//! titles and items; `text` holds the character-level helpers they share.
pub mod db;
pub mod elm;
pub mod feed;
pub mod release;
pub mod sync;
pub mod text;
