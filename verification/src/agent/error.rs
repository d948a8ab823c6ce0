//! Errors of the agent subsystem.
use vstd::prelude::*;
use crate::text::{join2, join3};

verus! {

/// What can go wrong in an agent operation. Failures that come from the file
/// system or from serialization carry their message.
#[derive(Debug, Clone, PartialEq, Eq)]
pub enum AgentError {
    AgentAlreadyExists(String),
    AgentNotFound(String),
    InvalidAgentName(String, String),
    DimensionNotFound(String),
    MessageNotFound(String),
    LockError(String),
    Io(String),
    Json(String),
    Core(String),
    Dimension(String),
    Awareness(String),
    General(String),
}

/// The text that reports an agent error.
pub open spec fn agent_error_text(e: AgentError) -> Seq<char> {
    match e {
        AgentError::AgentAlreadyExists(n) => "Agent '"@ + n@ + "' already exists"@,
        AgentError::AgentNotFound(n) => "Agent '"@ + n@ + "' not found"@,
        AgentError::InvalidAgentName(n, why) => "Invalid agent name '"@ + n@ + "': "@ + why@,
        AgentError::DimensionNotFound(d) => "Dimension '"@ + d@ + "' not found"@,
        AgentError::MessageNotFound(m) => "Message '"@ + m@ + "' not found"@,
        AgentError::LockError(m) => "Registry lock error: "@ + m@,
        AgentError::Io(m) => "I/O error during agent operation: "@ + m@,
        AgentError::Json(m) => "JSON serialization error: "@ + m@,
        AgentError::Core(m) => "Core VCS error: "@ + m@,
        AgentError::Dimension(m) => "Dimension error: "@ + m@,
        AgentError::Awareness(m) => "Awareness error: "@ + m@,
        AgentError::General(m) => "General agent error: "@ + m@,
    }
}

impl AgentError {
    /// The text that reports the error.
    pub fn message(&self) -> (r: String)
        ensures
            r@ == agent_error_text(*self),
    {
        match self {
            AgentError::AgentAlreadyExists(n) => join3("Agent '", n.as_str(), "' already exists"),
            AgentError::AgentNotFound(n) => join3("Agent '", n.as_str(), "' not found"),
            AgentError::InvalidAgentName(n, why) => {
                let a = join3("Invalid agent name '", n.as_str(), "': ");
                join2(a.as_str(), why.as_str())
            },
            AgentError::DimensionNotFound(d) => join3("Dimension '", d.as_str(), "' not found"),
            AgentError::MessageNotFound(m) => join3("Message '", m.as_str(), "' not found"),
            AgentError::LockError(m) => join2("Registry lock error: ", m.as_str()),
            AgentError::Io(m) => join2("I/O error during agent operation: ", m.as_str()),
            AgentError::Json(m) => join2("JSON serialization error: ", m.as_str()),
            AgentError::Core(m) => join2("Core VCS error: ", m.as_str()),
            AgentError::Dimension(m) => join2("Dimension error: ", m.as_str()),
            AgentError::Awareness(m) => join2("Awareness error: ", m.as_str()),
            AgentError::General(m) => join2("General agent error: ", m.as_str()),
        }
    }
}

} // verus!
