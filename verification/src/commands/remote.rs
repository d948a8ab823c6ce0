//! Remotes: `dft remote`, and what `fetch`, `pull` and `push` decide before
//! copying objects.
use vstd::prelude::*;
use crate::cli::RemoteArgs;
use crate::text::{decimal, str_eq, str_skip, str_starts_with, strs_view};

verus! {

/// What `dft remote` was asked to do.
#[derive(Debug, Clone)]
pub enum RemoteCommand {
    Add { name: String, url: String },
    Remove { name: String },
    /// List the remotes, with their URLs when verbose.
    List { verbose: bool },
}

pub enum RemoteCommandView {
    Add { name: Seq<char>, url: Seq<char> },
    Remove { name: Seq<char> },
    List { verbose: bool },
}

impl View for RemoteCommand {
    type V = RemoteCommandView;

    open spec fn view(&self) -> RemoteCommandView {
        match self {
            RemoteCommand::Add { name, url } => RemoteCommandView::Add { name: name@, url: url@ },
            RemoteCommand::Remove { name } => RemoteCommandView::Remove { name: name@ },
            RemoteCommand::List { verbose } => RemoteCommandView::List { verbose: *verbose },
        }
    }
}

/// What the words after `dft remote` ask for, or the usage message that
/// refuses them; anything but `add` and `remove` lists.
pub open spec fn remote_command_of(toks: Seq<Seq<char>>, verbose: bool) -> Result<RemoteCommandView, Seq<char>> {
    if toks.len() > 0 && toks[0] == "add"@ {
        if toks.len() < 3 {
            Err("Usage: dft remote add <name> <url>"@)
        } else {
            Ok(RemoteCommandView::Add { name: toks[1], url: toks[2] })
        }
    } else if toks.len() > 0 && toks[0] == "remove"@ {
        if toks.len() < 2 {
            Err("Usage: dft remote remove <name>"@)
        } else {
            Ok(RemoteCommandView::Remove { name: toks[1] })
        }
    } else {
        Ok(RemoteCommandView::List { verbose })
    }
}

/// Reads the words after `dft remote`.
pub fn parse_remote_command(args: &RemoteArgs) -> (r: Result<RemoteCommand, String>)
    ensures
        match (r, remote_command_of(strs_view(args.args@), args.verbose)) {
            (Ok(c), Ok(v)) => c@ == v,
            (Err(m), Err(e)) => m@ == e,
            _ => false,
        },
{
    let toks = &args.args;
    let ghost tv = strs_view(toks@);
    proof {
        if toks.len() > 0 {
            assert(tv[0] == toks@[0]@);
        }
        if toks.len() > 1 {
            assert(tv[1] == toks@[1]@);
        }
        if toks.len() > 2 {
            assert(tv[2] == toks@[2]@);
        }
        reveal_strlit("add");
        reveal_strlit("remove");
    }
    if toks.len() > 0 && str_eq(toks[0].as_str(), "add") {
        if toks.len() < 3 {
            Err(String::from_str("Usage: dft remote add <name> <url>"))
        } else {
            Ok(RemoteCommand::Add { name: toks[1].clone(), url: toks[2].clone() })
        }
    } else if toks.len() > 0 && str_eq(toks[0].as_str(), "remove") {
        if toks.len() < 2 {
            Err(String::from_str("Usage: dft remote remove <name>"))
        } else {
            Ok(RemoteCommand::Remove { name: toks[1].clone() })
        }
    } else {
        Ok(RemoteCommand::List { verbose: args.verbose })
    }
}

/// `s` without every leading copy of `p` (`str::trim_start_matches`).
pub open spec fn trim_start_text(s: Seq<char>, p: Seq<char>) -> Seq<char>
    decreases s.len(),
{
    if p.len() > 0 && p.is_prefix_of(s) {
        trim_start_text(s.skip(p.len() as int), p)
    } else {
        s
    }
}

/// `s` without every leading copy of `p`.
pub fn trim_start_str(s: &str, p: &str) -> (r: String)
    ensures
        r@ == trim_start_text(s@, p@),
{
    let mut cur = String::from_str(s);
    if p.unicode_len() == 0 {
        return cur;
    }
    while str_starts_with(cur.as_str(), p)
        invariant
            p@.len() > 0,
            trim_start_text(s@, p@) == trim_start_text(cur@, p@),
        decreases cur@.len(),
    {
        let n = p.unicode_len();
        let next = str_skip(cur.as_str(), n);
        cur = next;
    }
    cur
}

/// Where a remote lies on disk: its URL without any leading `file://`.
pub fn remote_root(url: &str) -> (r: String)
    ensures
        r@ == trim_start_text(url@, "file://"@),
{
    trim_start_str(url, "file://")
}

/// The remote that `fetch`, `pull` and `push` use: the first word, else
/// `origin`.
pub fn remote_name_of(toks: &Vec<String>) -> (r: String)
    ensures
        r@ == if toks@.len() > 0 {
            toks@[0]@
        } else {
            "origin"@
        },
{
    if toks.len() > 0 {
        toks[0].clone()
    } else {
        String::from_str("origin")
    }
}

/// The refusal of `fetch` for a remote that is not configured.
pub fn missing_remote_for_fetch(name: &str) -> (r: String)
    ensures
        r@ == "Fatal: remote '"@ + name@ + "' does not exist. Use 'dft remote add "@ + name@ + " <url>'"@,
{
    let mut m = String::from_str("Fatal: remote '");
    m.append(name);
    m.append("' does not exist. Use 'dft remote add ");
    m.append(name);
    m.append(" <url>'");
    m
}

/// The refusal of `push` for a remote that is not configured.
pub fn missing_remote_for_push(name: &str) -> (r: String)
    ensures
        r@ == "Fatal: remote '"@ + name@ + "' does not exist.\nConfigure with: dft remote add "@ + name@
            + " <path_or_url>"@,
{
    let mut m = String::from_str("Fatal: remote '");
    m.append(name);
    m.append("' does not exist.\nConfigure with: dft remote add ");
    m.append(name);
    m.append(" <path_or_url>");
    m
}

/// The branch `push` updates: the one given, else the branch HEAD points
/// to (its reference without `refs/heads/`), else `main` for a detached
/// HEAD.
pub fn push_branch(specified: Option<&str>, head_ref: Option<&str>) -> (r: String)
    ensures
        r@ == match specified {
            Some(b) => b@,
            None => match head_ref {
                Some(t) => trim_start_text(t@, "refs/heads/"@),
                None => "main"@,
            },
        },
{
    match specified {
        Some(b) => String::from_str(b),
        None => match head_ref {
            Some(t) => trim_start_str(t, "refs/heads/"),
            None => String::from_str("main"),
        },
    }
}

/// Whether `pull` has nothing to do: the local branch already holds the
/// remote commit.
pub fn pull_up_to_date(local: &str, remote: &str) -> (r: bool)
    ensures
        r == (local@ == remote@),
{
    str_eq(local, remote)
}

} // verus!
