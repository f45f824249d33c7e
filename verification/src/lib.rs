//! Search engine core of an interactive file finder: listing cache, fuzzy
//! filename ranking, content scanning, query memo, debounce and pagination.

pub mod app;
pub mod content;
pub mod coordinator;
pub mod debounce;
pub mod duplicate;
pub mod file_searcher;
pub mod filter;
pub mod fuzzy;
pub mod lines;
pub mod listing;
pub mod matching;
pub mod pagination;
pub mod query_cache;
pub mod query_line;
pub mod selection;
pub mod sorting;
pub mod status;
pub mod text;
