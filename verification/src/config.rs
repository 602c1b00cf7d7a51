//! Where a search reads: the endpoint (local machine, agent, object
//! storage) and the target inside it (a directory, a list of files, an
//! archive).
use vstd::prelude::*;

verus! {

/// What to search, relative to the endpoint's root (local) or sub-path (agent).
#[derive(Debug, Clone)]
pub enum Target {
    /// A directory, searched recursively unless told otherwise.
    Dir { path: String, recursive: bool },
    /// A list of files.
    Files { paths: Vec<String> },
    /// An archive (tar, tar.gz, gz), or one entry of it.
    Archive { path: String, entry: Option<String> },
}

/// The default of a directory target's `recursive` flag.
pub fn default_true() -> (r: bool)
    ensures
        r,
{
    true
}

/// Where the data lives.
#[derive(Debug, Clone)]
pub enum Endpoint {
    /// The local machine, under `root`.
    Local { root: String },
    /// An agent, under its `subpath`.
    Agent { agent_id: String, subpath: String },
    /// A bucket of an object storage profile.
    S3 { profile: String, bucket: String },
}

/// A source of a search: endpoint, target and an optional path glob.
#[derive(Debug, Clone)]
pub struct Source {
    pub endpoint: Endpoint,
    pub target: Target,
    pub filter_glob: Option<String>,
}

} // verus!
