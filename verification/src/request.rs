//! What a user asks for, and what they are told.

use vstd::prelude::*;

verus! {

/// A search as the user asked for it.
#[derive(Clone)]
pub struct SearchRequest {
    pub directory: String,
    pub query: String,
    pub mode: String,
    pub use_regex: bool,
    pub case_sensitive: bool,
    pub whole_word: bool,
    pub include_hidden: bool,
    pub include_subfolders: bool,
    pub pre_count: bool,
    pub file_pattern: String,
    pub min_size: Option<u64>,
    pub max_size: Option<u64>,
    pub min_modified: Option<u64>,
    pub max_modified: Option<u64>,
}

/// A replacement in files as the user asked for it.
pub struct ReplaceRequest {
    pub paths: Vec<String>,
    pub query: String,
    pub replacement: String,
    pub use_regex: bool,
    pub case_sensitive: bool,
    pub whole_word: bool,
    pub create_backup: bool,
}

/// A file that a search found.
#[derive(Clone)]
pub struct SearchResult {
    pub name: String,
    pub path: String,
    pub size: u64,
    pub modified: u64,
    pub matches: usize,
}

/// What a running search tells.
#[derive(Clone)]
pub enum SearchEvent {
    Cataloging { discovered: usize },
    Result { item: SearchResult },
    Progress { scanned: usize, found: usize, total: Option<usize> },
    Finished { scanned: usize, found: usize, cancelled: bool },
}

} // verus!
