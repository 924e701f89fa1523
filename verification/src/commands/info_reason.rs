//! The `info` query command's decisions: what a query or target asks for.
use vstd::prelude::*;
use crate::model::DeclarchError;
use crate::text::{owned};

pub mod matching;
pub mod query_helpers;
pub mod report;
pub mod sync_plan;
pub mod targets;

verus! {

/// Options of the `info` query command.
#[derive(Clone, Debug)]
pub struct InfoReasonOptions {
    pub query: Option<String>,
    pub target: Option<String>,
    pub profile: Option<String>,
    pub host: Option<String>,
    pub modules: Vec<String>,
    pub verbose: bool,
}

/// What an `info` invocation inspects.
#[derive(Clone, Debug)]
pub enum InfoRequest {
    /// A `--target` form.
    Target(String),
    /// A package, backend or module query.
    Query(String),
}

/// Checks that something was asked and picks it: the target when there is
/// one, else the query.
pub fn run(options: &InfoReasonOptions) -> (r: Result<InfoRequest, DeclarchError>)
    ensures
        options.query is None && options.target is None ==> (r matches Err(DeclarchError::Other(m))
            && m@ == "Nothing to inspect. Provide a QUERY or use --plan."@),
        options.target matches Some(t) ==> (r matches Ok(InfoRequest::Target(x)) && x@ == t@),
        options.target is None ==> (options.query matches Some(q) ==> (r matches Ok(InfoRequest::Query(x)) && x@ == q@)),
{
    match &options.target {
        Some(t) => Ok(InfoRequest::Target(t.clone())),
        None => match &options.query {
            Some(q) => Ok(InfoRequest::Query(q.clone())),
            None => Err(DeclarchError::Other(owned("Nothing to inspect. Provide a QUERY or use --plan."))),
        },
    }
}

} // verus!
