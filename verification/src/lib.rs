//! A personal media repository engine.
//!
//! Files are stored content-addressed by hash, organised with
//! `namespace:tag` metadata, queried with conjunctive tag predicates and
//! served to a presentation layer through a short-lived buffer cache.
//! Every operation carries a contract that Verus proves.

pub mod error;
pub mod seqs;
pub mod text;
pub mod catalog;
pub mod digest;
pub mod storage;
pub mod media_type;
pub mod file;
pub mod repo;
pub mod buffer;
pub mod tagging;
pub mod query;
pub mod render;
pub mod thumbnails;
pub mod connection;
pub mod uri;
pub mod schemes;
pub mod responses;
pub mod commands;
pub mod sorting;
