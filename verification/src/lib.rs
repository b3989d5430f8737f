//! Core engine of a music-library indexer.
//!
//! The library walks a snapshot of a media tree, extracts embedded audio
//! metadata, and reconciles it into normalized artist / album / song rows
//! held in an in-memory store with proved invariants: song paths stay
//! pairwise distinct, foreign keys always reference existing rows, and a
//! reconciliation pass leaves no album without songs and no artist without
//! albums.  Filesystem listing, tag-file reading and persistence are left to
//! the surrounding program, which hands the engine plain values.

pub mod change;
pub mod http;
pub mod responses;
pub mod scanner;
pub mod task_service;
pub mod tag_helper;
pub mod tag_reader;
pub mod tags;
pub mod task;
pub mod text;
pub mod metadata;
pub mod scan;
pub mod settings;
pub mod store;
