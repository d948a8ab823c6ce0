//! Agent identities: the kind of agent, its name rules and its registered record.
use vstd::prelude::*;
use std::collections::HashMap;
use crate::agent::error::AgentError;
use crate::text::{chars_of, contains_char, join3};

verus! {

/// Whether an agent is a person or an AI.
#[derive(Debug, Clone, Copy, PartialEq, Eq, Structural)]
pub enum AgentType {
    Human,
    Ai,
}

/// The lowercase form of a text, as `str::to_lowercase` gives it.
pub uninterp spec fn lowercase(s: Seq<char>) -> Seq<char>;

/// `str::to_lowercase`: the text with every character replaced by its Unicode
/// lowercase mapping. The mapping itself is not stated here; its result is
/// named `lowercase`.
#[verifier::external_body]
fn to_lowercase(s: &str) -> (r: String)
    ensures
        r@ == lowercase(s@),
{
    s.to_lowercase()
}

/// The agent type a text names, compared after lowercasing, or the message
/// that rejects it.
pub open spec fn agent_type_named(s: Seq<char>) -> Result<AgentType, Seq<char>> {
    let l = lowercase(s);
    if l == "human"@ {
        Ok(AgentType::Human)
    } else if l == "ai"@ {
        Ok(AgentType::Ai)
    } else {
        Err("Unknown agent type: '"@ + l + "'. Valid options: human, ai"@)
    }
}

impl AgentType {
    /// Reads `human` or `ai`, in any letter case.
    pub fn parse(s: &str) -> (r: Result<AgentType, String>)
        ensures
            match (r, agent_type_named(s@)) {
                (Ok(t), Ok(u)) => t == u,
                (Err(m), Err(e)) => m@ == e,
                _ => false,
            },
    {
        let lower = to_lowercase(s);
        if crate::text::str_eq(lower.as_str(), "human") {
            Ok(AgentType::Human)
        } else if crate::text::str_eq(lower.as_str(), "ai") {
            Ok(AgentType::Ai)
        } else {
            Err(join3("Unknown agent type: '", lower.as_str(), "'. Valid options: human, ai"))
        }
    }
}

impl std::str::FromStr for AgentType {
    type Err = String;

    fn from_str(s: &str) -> (r: Result<Self, Self::Err>)
        ensures
            match (r, agent_type_named(s@)) {
                (Ok(t), Ok(u)) => t == u,
                (Err(m), Err(e)) => m@ == e,
                _ => false,
            },
    {
        AgentType::parse(s)
    }
}

/// ASCII letters and digits.
pub open spec fn is_ascii_alnum(c: char) -> bool {
    ('a' <= c && c <= 'z') || ('A' <= c && c <= 'Z') || ('0' <= c && c <= '9')
}

/// The characters an agent name may hold.
pub open spec fn is_name_char(c: char) -> bool {
    is_ascii_alnum(c) || c == '-' || c == '_' || c == '.'
}

/// Why a name is not acceptable for an agent, if it is not.
pub open spec fn name_problem(name: Seq<char>) -> Option<Seq<char>> {
    if name.len() == 0 {
        Some("Name cannot be empty"@)
    } else if name.contains('/') || name.contains('\\') || name.contains('\0') {
        Some("Name cannot contain path separators or null bytes"@)
    } else if exists|i: int| 0 <= i < name.len() && !is_name_char(#[trigger] name[i]) {
        Some("Name must contain only alphanumeric, dash, underscore, or dot characters"@)
    } else {
        None
    }
}

/// The error that rejects `name` for the reason `why`.
pub open spec fn is_invalid_name_error(e: AgentError, name: Seq<char>, why: Seq<char>) -> bool {
    e matches AgentError::InvalidAgentName(n, w) && n@ == name && w@ == why
}

fn name_char(c: char) -> (r: bool)
    ensures
        r == is_name_char(c),
{
    ('a' <= c && c <= 'z') || ('A' <= c && c <= 'Z') || ('0' <= c && c <= '9') || c == '-' || c
        == '_' || c == '.'
}

/// A registered agent.
#[derive(Debug, Clone)]
pub struct AgentIdentity {
    pub id: String,
    pub name: String,
    pub agent_type: AgentType,
    pub registered_at: u64,
    pub assigned_dimension: Option<String>,
    pub capabilities: Vec<String>,
    pub metadata: Option<HashMap<String, String>>,
}

/// The contents of an agent record.
pub struct AgentIdentityView {
    pub id: Seq<char>,
    pub name: Seq<char>,
    pub agent_type: AgentType,
    pub registered_at: u64,
    pub assigned_dimension: Option<Seq<char>>,
    pub capabilities: Seq<Seq<char>>,
    pub metadata: Option<Map<String, String>>,
}

impl View for AgentIdentity {
    type V = AgentIdentityView;

    open spec fn view(&self) -> AgentIdentityView {
        AgentIdentityView {
            id: self.id@,
            name: self.name@,
            agent_type: self.agent_type,
            registered_at: self.registered_at,
            assigned_dimension: match self.assigned_dimension {
                Some(d) => Some(d@),
                None => None,
            },
            capabilities: self.capabilities@.map_values(|c: String| c@),
            metadata: match self.metadata {
                Some(m) => Some(m@),
                None => None,
            },
        }
    }
}

impl AgentIdentity {
    /// A copy with the same contents.
    pub fn duplicate(&self) -> (r: Self)
        ensures
            r@ == self@,
    {
        let caps = crate::text::clone_strings(&self.capabilities);
        let metadata = match &self.metadata {
            Some(m) => Some(m.clone()),
            None => None,
        };
        let r = AgentIdentity {
            id: self.id.clone(),
            name: self.name.clone(),
            agent_type: self.agent_type,
            registered_at: self.registered_at,
            assigned_dimension: crate::text::clone_opt_string(&self.assigned_dimension),
            capabilities: caps,
            metadata,
        };
        proof {
            assert(r@.capabilities =~= self@.capabilities);
        }
        r
    }

    /// Checks that `name` can name an agent: not empty, no path separators or
    /// NUL, and only ASCII letters, digits, `-`, `_` and `.`.
    pub fn validate_name(name: &str) -> (r: Result<(), AgentError>)
        ensures
            match name_problem(name@) {
                None => r is Ok,
                Some(why) => r matches Err(e) && is_invalid_name_error(e, name@, why),
            },
    {
        let v = chars_of(name);
        if v.len() == 0 {
            return Err(
                AgentError::InvalidAgentName(
                    String::from_str(name),
                    String::from_str("Name cannot be empty"),
                ),
            );
        }
        if contains_char(&v, '/') || contains_char(&v, '\\') || contains_char(&v, '\0') {
            return Err(
                AgentError::InvalidAgentName(
                    String::from_str(name),
                    String::from_str("Name cannot contain path separators or null bytes"),
                ),
            );
        }
        let mut i: usize = 0;
        while i < v.len()
            invariant
                i <= v.len(),
                v@ == name@,
                v@.len() > 0,
                !v@.contains('/') && !v@.contains('\\') && !v@.contains('\0'),
                forall|j: int| 0 <= j < i ==> is_name_char(#[trigger] v@[j]),
            decreases v.len() - i,
        {
            if !name_char(v[i]) {
                assert(!is_name_char(name@[i as int]));
                return Err(
                    AgentError::InvalidAgentName(
                        String::from_str(name),
                        String::from_str(
                            "Name must contain only alphanumeric, dash, underscore, or dot characters",
                        ),
                    ),
                );
            }
            i = i + 1;
        }
        Ok(())
    }
}

} // verus!
