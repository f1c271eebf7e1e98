//! Runtime errors.
use vstd::prelude::*;
use crate::text::concat;

verus! {

/// Runtime error.
#[derive(Debug, Clone)]
pub enum RuntimeError {
    /// A module registered twice.
    DuplicateModule(String),
    /// A required module is missing.
    MissingModule(String),
    /// Dependency cycle.
    DependencyCycle(String),
    /// A module failed to apply.
    ModuleError(String),
    /// Configuration error.
    ConfigError(String),
    /// Role error.
    RoleError(String),
    /// Authentication error.
    Auth(String),
    /// Anything else.
    Other(String),
}

/// The human-readable text of an error.
pub open spec fn error_text(e: RuntimeError) -> Seq<char> {
    match e {
        RuntimeError::DuplicateModule(m) => "duplicate module: "@ + m@,
        RuntimeError::MissingModule(m) => "missing required module: "@ + m@,
        RuntimeError::DependencyCycle(d) => "dependency cycle: "@ + d@,
        RuntimeError::ModuleError(e) => "module error: "@ + e@,
        RuntimeError::ConfigError(e) => "config error: "@ + e@,
        RuntimeError::RoleError(e) => "role error: "@ + e@,
        RuntimeError::Auth(e) => "auth: "@ + e@,
        RuntimeError::Other(e) => e@,
    }
}

impl RuntimeError {
    /// The error's text, as its display form reads.
    pub fn message(&self) -> (s: String)
        ensures
            s@ == error_text(*self),
    {
        match self {
            RuntimeError::DuplicateModule(m) => concat("duplicate module: ", m.as_str()),
            RuntimeError::MissingModule(m) => concat("missing required module: ", m.as_str()),
            RuntimeError::DependencyCycle(d) => concat("dependency cycle: ", d.as_str()),
            RuntimeError::ModuleError(e) => concat("module error: ", e.as_str()),
            RuntimeError::ConfigError(e) => concat("config error: ", e.as_str()),
            RuntimeError::RoleError(e) => concat("role error: ", e.as_str()),
            RuntimeError::Auth(e) => concat("auth: ", e.as_str()),
            RuntimeError::Other(e) => e.clone(),
        }
    }
}

} // verus!
