//! Errors of the awareness and territory subsystems.
use vstd::prelude::*;
use crate::text::{join2, join3};

verus! {

/// What can go wrong in an awareness or territory operation. Failures that
/// come from the file system, serialization or the version store carry their
/// message.
#[derive(Debug, Clone, PartialEq, Eq)]
pub enum AwarenessError {
    DimensionNotFound(String),
    FileNotFoundInDimension { path: String, dimension: String },
    NoCommonAncestor { dim1: String, dim2: String },
    TerritoryLock(String),
    TerritoryConflict(String),
    Io(String),
    Json(String),
    Core(String),
    Dimension(String),
    Index(String),
    Cas(String),
    Ref(String),
    Graph(String),
    General(String),
}

/// The text that reports an awareness error.
pub open spec fn awareness_error_text(e: AwarenessError) -> Seq<char> {
    match e {
        AwarenessError::DimensionNotFound(d) => "Dimension '"@ + d@ + "' not found"@,
        AwarenessError::FileNotFoundInDimension { path, dimension } => "File '"@ + path@ + "' not found in dimension '"@
            + dimension@ + "'"@,
        AwarenessError::NoCommonAncestor { dim1, dim2 } => "Failed to find common ancestor between '"@ + dim1@
            + "' and '"@ + dim2@ + "'"@,
        AwarenessError::TerritoryLock(m) => "Territory lock error: "@ + m@,
        AwarenessError::TerritoryConflict(m) => "Territory conflict: "@ + m@,
        AwarenessError::Io(m) => "I/O error during awareness operation: "@ + m@,
        AwarenessError::Json(m) => "JSON serialization error: "@ + m@,
        AwarenessError::Core(m) => "Core VCS error: "@ + m@,
        AwarenessError::Dimension(m) => "Dimension engine error: "@ + m@,
        AwarenessError::Index(m) => "Index error: "@ + m@,
        AwarenessError::Cas(m) => "CAS error: "@ + m@,
        AwarenessError::Ref(m) => "Ref error: "@ + m@,
        AwarenessError::Graph(m) => "Graph traversal error: "@ + m@,
        AwarenessError::General(m) => "General error: "@ + m@,
    }
}

impl AwarenessError {
    /// The text that reports the error.
    pub fn message(&self) -> (r: String)
        ensures
            r@ == awareness_error_text(*self),
    {
        match self {
            AwarenessError::DimensionNotFound(d) => join3("Dimension '", d.as_str(), "' not found"),
            AwarenessError::FileNotFoundInDimension { path, dimension } => {
                let a = join3("File '", path.as_str(), "' not found in dimension '");
                join3(a.as_str(), dimension.as_str(), "'")
            },
            AwarenessError::NoCommonAncestor { dim1, dim2 } => {
                let a = join3("Failed to find common ancestor between '", dim1.as_str(), "' and '");
                join3(a.as_str(), dim2.as_str(), "'")
            },
            AwarenessError::TerritoryLock(m) => join2("Territory lock error: ", m.as_str()),
            AwarenessError::TerritoryConflict(m) => join2("Territory conflict: ", m.as_str()),
            AwarenessError::Io(m) => join2("I/O error during awareness operation: ", m.as_str()),
            AwarenessError::Json(m) => join2("JSON serialization error: ", m.as_str()),
            AwarenessError::Core(m) => join2("Core VCS error: ", m.as_str()),
            AwarenessError::Dimension(m) => join2("Dimension engine error: ", m.as_str()),
            AwarenessError::Index(m) => join2("Index error: ", m.as_str()),
            AwarenessError::Cas(m) => join2("CAS error: ", m.as_str()),
            AwarenessError::Ref(m) => join2("Ref error: ", m.as_str()),
            AwarenessError::Graph(m) => join2("Graph traversal error: ", m.as_str()),
            AwarenessError::General(m) => join2("General error: ", m.as_str()),
        }
    }
}

} // verus!
