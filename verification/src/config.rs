use vstd::prelude::*;

verus! {

/// The resolved configuration of one run: what to search for, where, and
/// whether the comparison is case-sensitive.
pub struct Config {
    pub query: String,
    pub filename: String,
    pub case_sensitive: bool,
}

/// The two ways a run can fail: a required argument was not supplied, or the
/// file could not be read.
#[derive(Debug)]
pub enum RunError {
    MissingArgument,
    ReadError { cause: String },
}

impl RunError {
    /// A human-readable description of the error: a fixed text for a missing
    /// argument, the underlying cause's description for a failed read.
    pub fn message(&self) -> (r: String)
        ensures
            self is MissingArgument ==> r@ == "a required argument was not supplied"@,
            self matches RunError::ReadError { cause } ==> r@ == cause@,
    {
        match self {
            RunError::MissingArgument => "a required argument was not supplied".to_owned(),
            RunError::ReadError { cause } => cause.clone(),
        }
    }
}

impl Config {
    /// Resolves a run configuration. Both `query` and `filename` are
    /// required; if either is absent the resolution fails with
    /// `MissingArgument`. The run is case-sensitive exactly when
    /// case-insensitivity was requested neither by the flag nor by the
    /// environment-style override.
    pub fn new(
        query: Option<String>,
        filename: Option<String>,
        insensitive_flag: bool,
        env_override: bool,
    ) -> (r: Result<Config, RunError>)
        ensures
            r is Ok <==> query is Some && filename is Some,
            r is Ok ==> r->Ok_0.query == query->0,
            r is Ok ==> r->Ok_0.filename == filename->0,
            r is Ok ==> r->Ok_0.case_sensitive == !(insensitive_flag || env_override),
            r is Err ==> r->Err_0 is MissingArgument,
    {
        let q = match query {
            Some(q) => q,
            None => {
                return Err(RunError::MissingArgument);
            },
        };
        let f = match filename {
            Some(f) => f,
            None => {
                return Err(RunError::MissingArgument);
            },
        };
        let case_sensitive = !(insensitive_flag || env_override);
        Ok(Config { query: q, filename: f, case_sensitive })
    }
}

} // verus!
