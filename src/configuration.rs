use vstd::prelude::*;

verus! {

/// The kinds of database a source can be.
#[derive(Debug, Clone, Copy, PartialEq, Eq)]
pub enum SourceType {
    MYSQL,
}

/// A database to query: its name, kind, connection URL and query.
#[derive(Debug, Clone)]
pub struct Source {
    pub name: String,
    pub source_type: SourceType,
    pub url: String,
    pub query: String,
}

/// The sources to collect metrics from.
#[derive(Debug, Clone)]
pub struct Configuration {
    pub sources: Vec<Source>,
}

} // verus!
