//! A local file-search engine: a query language over file metadata, a
//! catalogue of file records, and the evaluator that filters and ranks them.

pub mod text;
pub mod query;
pub mod files;
pub mod paths;
pub mod matching;
pub mod eval;
pub mod tags;
pub mod indexer;
