//! Finds files embedded in arbitrary binary data and works out where each of
//! them ends.
pub mod archive_laws;
pub mod archive_listing;
pub mod archives;
pub mod automaton;
pub mod browser_laws;
pub mod bytes;
pub mod chunk_laws;
pub mod config;
pub mod container_laws;
pub mod documents;
pub mod embedding;
pub mod entries;
pub mod entropy;
pub mod executables;
pub mod extent_laws;
pub mod extractor;
pub mod facts;
pub mod facts_laws;
pub mod finding_laws;
pub mod format_laws;
pub mod games;
pub mod goblin_model;
pub mod header_laws;
pub mod images;
pub mod inflate;
pub mod json;
pub mod keys;
pub mod lines;
pub mod listing;
pub mod listing_laws;
pub mod macho_laws;
pub mod media;
pub mod names;
pub mod nesting_laws;
pub mod numbers;
pub mod numeral_laws;
pub mod output;
pub mod picture;
pub mod popups;
pub mod prolongation;
pub mod rates;
pub mod refusal_laws;
pub mod relocation;
pub mod report_laws;
pub mod reports;
pub mod scan_laws;
pub mod scanner;
pub mod schema_laws;
pub mod screen_laws;
pub mod search;
pub mod signature;
pub mod skipping;
pub mod slices;
pub mod sound_laws;
pub mod sqlite;
pub mod stream_laws;
pub mod structure_listing;
pub mod table_laws;
pub mod tables;
pub mod taking;
pub mod text;
pub mod theme;
pub mod tree_laws;
pub mod tui;
pub mod validators;
pub mod views;
pub mod writing;
pub mod zip_laws;
