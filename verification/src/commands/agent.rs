//! `dft agent`: reading the subcommand and its arguments.
use vstd::prelude::*;
use crate::agent::identity::{agent_type_named, AgentType};
use crate::cli::AgentArgs;
use crate::text::{join_strings, joined, opt_view, str_eq, str_skip, str_starts_with, strs_view};

verus! {

/// What `dft agent` was asked to do.
#[derive(Debug, Clone)]
pub enum AgentCommand {
    /// Register an agent under a name, as a person or an AI.
    Register { name: String, agent_type: AgentType },
    /// List the registered agents.
    List,
    /// Assign an agent to a dimension.
    Assign { agent: String, dimension: String },
    /// Report the state of every agent.
    Status,
    /// Send a message to every agent.
    Broadcast { message: String },
    /// Read an inbox: the named agent's, or the caller's.
    Inbox { agent: Option<String>, json: bool },
    /// Record a heartbeat for the named agent, or the caller.
    Heartbeat { agent: Option<String> },
}

/// The first of two optional values that is present.
pub open spec fn first_some(a: Option<Seq<char>>, b: Option<Seq<char>>) -> Option<Seq<char>> {
    if a is Some {
        a
    } else {
        b
    }
}

/// The type and name that the arguments of `register` give, reading from
/// `i` on: the first type given wins (`--type T`, `-t T`, `--type=T`,
/// `-t=T`), `--json` is skipped, and the first word that is not an option
/// is the name.
pub open spec fn scan_register(
    toks: Seq<Seq<char>>,
    i: int,
    raw: Option<Seq<char>>,
    name: Option<Seq<char>>,
) -> (Option<Seq<char>>, Option<Seq<char>>)
    decreases toks.len() - i,
{
    if i < 0 || i >= toks.len() {
        (raw, name)
    } else {
        let t = toks[i];
        if (t == "--type"@ || t == "-t"@) && i + 1 < toks.len() {
            scan_register(toks, i + 2, first_some(raw, Some(toks[i + 1])), name)
        } else if "--type="@.is_prefix_of(t) {
            scan_register(toks, i + 1, first_some(raw, Some(t.skip(7))), name)
        } else if "-t="@.is_prefix_of(t) {
            scan_register(toks, i + 1, first_some(raw, Some(t.skip(3))), name)
        } else if t == "--json"@ || "-"@.is_prefix_of(t) {
            scan_register(toks, i + 1, raw, name)
        } else {
            scan_register(toks, i + 1, raw, first_some(name, Some(t)))
        }
    }
}

/// The view of what `dft agent` was asked to do.
pub enum AgentCommandView {
    Register { name: Seq<char>, agent_type: AgentType },
    List,
    Assign { agent: Seq<char>, dimension: Seq<char> },
    Status,
    Broadcast { message: Seq<char> },
    Inbox { agent: Option<Seq<char>>, json: bool },
    Heartbeat { agent: Option<Seq<char>> },
}

impl View for AgentCommand {
    type V = AgentCommandView;

    open spec fn view(&self) -> AgentCommandView {
        match self {
            AgentCommand::Register { name, agent_type } => AgentCommandView::Register {
                name: name@,
                agent_type: *agent_type,
            },
            AgentCommand::List => AgentCommandView::List,
            AgentCommand::Assign { agent, dimension } => AgentCommandView::Assign {
                agent: agent@,
                dimension: dimension@,
            },
            AgentCommand::Status => AgentCommandView::Status,
            AgentCommand::Broadcast { message } => AgentCommandView::Broadcast { message: message@ },
            AgentCommand::Inbox { agent, json } => AgentCommandView::Inbox {
                agent: opt_view(*agent),
                json: *json,
            },
            AgentCommand::Heartbeat { agent } => AgentCommandView::Heartbeat { agent: opt_view(*agent) },
        }
    }
}

pub open spec fn usage_assign() -> Seq<char> {
    "Usage: dft agent assign <agent> <dim>"@
}

/// What the words after `dft agent` ask for, with `json` the global switch,
/// or the message that refuses them. No word means `list`.
pub open spec fn agent_command(
    toks: Seq<Seq<char>>,
    given_type: Option<Seq<char>>,
    json: bool,
) -> Result<AgentCommandView, Seq<char>> {
    let cmd = if toks.len() > 0 {
        toks[0]
    } else {
        "list"@
    };
    if cmd == "register"@ {
        let (raw, name) = scan_register(toks, 1, given_type, None);
        match name {
            None => Err("Missing agent name"@),
            Some(n) => match agent_type_named(
                match raw {
                    Some(r) => r,
                    None => "ai"@,
                },
            ) {
                Ok(t) => Ok(AgentCommandView::Register { name: n, agent_type: t }),
                Err(e) => Err(e),
            },
        }
    } else if cmd == "list"@ {
        Ok(AgentCommandView::List)
    } else if cmd == "assign"@ {
        if toks.len() < 3 {
            Err(usage_assign())
        } else {
            Ok(AgentCommandView::Assign { agent: toks[1], dimension: toks[2] })
        }
    } else if cmd == "status"@ {
        Ok(AgentCommandView::Status)
    } else if cmd == "broadcast"@ {
        Ok(
            AgentCommandView::Broadcast {
                message: if toks.len() > 1 {
                    joined(toks.skip(1), " "@)
                } else {
                    "system broadcast"@
                },
            },
        )
    } else if cmd == "inbox"@ {
        Ok(
            AgentCommandView::Inbox {
                agent: if toks.len() > 1 && !"-"@.is_prefix_of(toks[1]) {
                    Some(toks[1])
                } else {
                    None
                },
                json: json || toks.contains("--json"@),
            },
        )
    } else if cmd == "heartbeat"@ {
        Ok(
            AgentCommandView::Heartbeat {
                agent: if toks.len() > 1 {
                    Some(toks[1])
                } else {
                    None
                },
            },
        )
    } else {
        Err("Unknown agent subcommand: "@ + cmd)
    }
}

fn scan_register_args(toks: &Vec<String>, given: &Option<String>) -> (r: (Option<String>, Option<String>))
    ensures
        opt_view(r.0) == scan_register(strs_view(toks@), 1, opt_view(*given), None).0,
        opt_view(r.1) == scan_register(strs_view(toks@), 1, opt_view(*given), None).1,
{
    let ghost tv = strs_view(toks@);
    let ghost target = scan_register(tv, 1, opt_view(*given), None);
    let mut raw: Option<String> = match given {
        Some(g) => Some(g.clone()),
        None => None,
    };
    let mut name: Option<String> = None;
    let mut i: usize = 1;
    proof {
        reveal_strlit("--type");
        reveal_strlit("-t");
        reveal_strlit("--type=");
        reveal_strlit("-t=");
        reveal_strlit("--json");
        reveal_strlit("-");
    }
    while i < toks.len()
        invariant
            tv == strs_view(toks@),
            1 <= i,
            scan_register(tv, i as int, opt_view(raw), opt_view(name)) == target,
        decreases toks.len() - i,
    {
        let t = toks[i].as_str();
        assert(tv[i as int] == t@);
        proof {
            reveal_strlit("--type");
            reveal_strlit("-t");
            reveal_strlit("--type=");
            reveal_strlit("-t=");
            reveal_strlit("--json");
            reveal_strlit("-");
        }
        if (str_eq(t, "--type") || str_eq(t, "-t")) && i + 1 < toks.len() {
            assert(tv[i + 1] == toks@[i + 1]@);
            if raw.is_none() {
                raw = Some(toks[i + 1].clone());
            }
            i = i + 2;
        } else if str_starts_with(t, "--type=") {
            if raw.is_none() {
                raw = Some(str_skip(t, 7));
            }
            i = i + 1;
        } else if str_starts_with(t, "-t=") {
            if raw.is_none() {
                raw = Some(str_skip(t, 3));
            }
            i = i + 1;
        } else if str_eq(t, "--json") || str_starts_with(t, "-") {
            i = i + 1;
        } else {
            if name.is_none() {
                name = Some(toks[i].clone());
            }
            i = i + 1;
        }
    }
    (raw, name)
}

/// Reads the words after `dft agent` into the subcommand they ask for, or
/// the message that refuses them.
pub fn parse_agent_command(args: &AgentArgs, json: bool) -> (r: Result<AgentCommand, String>)
    ensures
        match (r, agent_command(strs_view(args.args@), opt_view(args.agent_type), json)) {
            (Ok(c), Ok(v)) => c@ == v,
            (Err(m), Err(e)) => m@ == e,
            _ => false,
        },
{
    let toks = &args.args;
    let ghost tv = strs_view(toks@);
    proof {
        reveal_strlit("list");
        reveal_strlit("register");
        reveal_strlit("assign");
        reveal_strlit("status");
        reveal_strlit("broadcast");
        reveal_strlit("inbox");
        reveal_strlit("heartbeat");
    }
    let cmd: &str = if toks.len() > 0 {
        toks[0].as_str()
    } else {
        "list"
    };
    if toks.len() > 0 {
        assert(tv[0] == cmd@);
    }
    if str_eq(cmd, "register") {
        let (raw, name) = scan_register_args(toks, &args.agent_type);
        match name {
            None => Err(String::from_str("Missing agent name")),
            Some(n) => {
                let parsed = match &raw {
                    Some(r) => AgentType::parse(r.as_str()),
                    None => AgentType::parse("ai"),
                };
                match parsed {
                    Ok(t) => Ok(AgentCommand::Register { name: n, agent_type: t }),
                    Err(e) => Err(e),
                }
            },
        }
    } else if str_eq(cmd, "list") {
        Ok(AgentCommand::List)
    } else if str_eq(cmd, "assign") {
        if toks.len() < 3 {
            Err(String::from_str("Usage: dft agent assign <agent> <dim>"))
        } else {
            assert(tv[1] == toks@[1]@ && tv[2] == toks@[2]@);
            Ok(AgentCommand::Assign { agent: toks[1].clone(), dimension: toks[2].clone() })
        }
    } else if str_eq(cmd, "status") {
        Ok(AgentCommand::Status)
    } else if str_eq(cmd, "broadcast") {
        if toks.len() > 1 {
            let rest = tail_of(toks);
            let m = join_strings(&rest, " ");
            Ok(AgentCommand::Broadcast { message: m })
        } else {
            Ok(AgentCommand::Broadcast { message: String::from_str("system broadcast") })
        }
    } else if str_eq(cmd, "inbox") {
        let agent = if toks.len() > 1 && !str_starts_with(toks[1].as_str(), "-") {
            assert(tv[1] == toks@[1]@);
            Some(toks[1].clone())
        } else {
            None
        };
        proof {
            reveal_strlit("-");
            if toks.len() > 1 {
                assert(tv[1] == toks@[1]@);
            }
        }
        let asked = any_is(toks, "--json");
        Ok(AgentCommand::Inbox { agent, json: json || asked })
    } else if str_eq(cmd, "heartbeat") {
        let agent = if toks.len() > 1 {
            assert(tv[1] == toks@[1]@);
            Some(toks[1].clone())
        } else {
            None
        };
        Ok(AgentCommand::Heartbeat { agent })
    } else {
        let mut m = String::from_str("Unknown agent subcommand: ");
        m.append(cmd);
        Err(m)
    }
}

/// The words after the first.
fn tail_of(toks: &Vec<String>) -> (r: Vec<String>)
    requires
        toks@.len() > 0,
    ensures
        strs_view(r@) == strs_view(toks@).skip(1),
{
    let mut out: Vec<String> = Vec::new();
    let mut i: usize = 1;
    while i < toks.len()
        invariant
            1 <= i <= toks@.len(),
            strs_view(out@) == strs_view(toks@).subrange(1, i as int),
        decreases toks.len() - i,
    {
        let ghost before = strs_view(out@);
        out.push(toks[i].clone());
        proof {
            assert(strs_view(toks@)[i as int] == toks@[i as int]@);
            assert(strs_view(out@) =~= before.push(toks@[i as int]@));
            assert(strs_view(out@) =~= strs_view(toks@).subrange(1, i + 1));
        }
        i = i + 1;
    }
    proof {
        assert(strs_view(toks@).subrange(1, toks@.len() as int) =~= strs_view(toks@).skip(1));
    }
    out
}

/// Whether one of the words is `w`.
pub fn any_is(toks: &Vec<String>, w: &str) -> (r: bool)
    ensures
        r == strs_view(toks@).contains(w@),
{
    let mut i: usize = 0;
    while i < toks.len()
        invariant
            i <= toks@.len(),
            forall|k: int| 0 <= k < i ==> (#[trigger] toks@[k])@ != w@,
        decreases toks.len() - i,
    {
        if str_eq(toks[i].as_str(), w) {
            assert(strs_view(toks@)[i as int] == w@);
            return true;
        }
        i = i + 1;
    }
    assert forall|k: int| 0 <= k < strs_view(toks@).len() implies strs_view(toks@)[k] != w@ by {
        assert(strs_view(toks@)[k] == toks@[k]@);
    }
    false
}

} // verus!
