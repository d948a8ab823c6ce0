//! `dft entangle`: reading the subcommand and its arguments.
use vstd::prelude::*;
use crate::cli::EntangleArgs;
use crate::commands::agent::any_is;
use crate::text::{opt_view, str_eq, str_skip, str_starts_with, strs_view};

verus! {

/// What `dft entangle` was asked to do.
#[derive(Debug, Clone)]
pub enum EntangleCommand {
    /// Bind two dimensions, optionally only on the paths a glob matches.
    Link { dim1: String, dim2: String, paths: Option<String> },
    /// Undo the binding of two dimensions.
    Sever { dim1: String, dim2: String },
    /// List the bindings.
    List { json: bool },
    /// Show the propagation log.
    Log { json: bool },
    /// Propagate every binding now.
    Sync,
}

pub enum EntangleCommandView {
    Link { dim1: Seq<char>, dim2: Seq<char>, paths: Option<Seq<char>> },
    Sever { dim1: Seq<char>, dim2: Seq<char> },
    List { json: bool },
    Log { json: bool },
    Sync,
}

impl View for EntangleCommand {
    type V = EntangleCommandView;

    open spec fn view(&self) -> EntangleCommandView {
        match self {
            EntangleCommand::Link { dim1, dim2, paths } => EntangleCommandView::Link {
                dim1: dim1@,
                dim2: dim2@,
                paths: opt_view(*paths),
            },
            EntangleCommand::Sever { dim1, dim2 } => EntangleCommandView::Sever {
                dim1: dim1@,
                dim2: dim2@,
            },
            EntangleCommand::List { json } => EntangleCommandView::List { json: *json },
            EntangleCommand::Log { json } => EntangleCommandView::Log { json: *json },
            EntangleCommand::Sync => EntangleCommandView::Sync,
        }
    }
}

/// The path glob and the remaining words of the arguments, reading from
/// `i` on: `--paths G` and `--paths=G` set the glob (the last one wins),
/// `--json` is dropped, and every other word is kept in order.
pub open spec fn scan_entangle(
    toks: Seq<Seq<char>>,
    i: int,
    paths: Option<Seq<char>>,
    kept: Seq<Seq<char>>,
) -> (Option<Seq<char>>, Seq<Seq<char>>)
    decreases toks.len() - i,
{
    if i < 0 || i >= toks.len() {
        (paths, kept)
    } else {
        let t = toks[i];
        if t == "--paths"@ && i + 1 < toks.len() {
            scan_entangle(toks, i + 2, Some(toks[i + 1]), kept)
        } else if t != "--paths"@ && "--paths="@.is_prefix_of(t) {
            scan_entangle(toks, i + 1, Some(t.skip(8)), kept)
        } else if t == "--json"@ {
            scan_entangle(toks, i + 1, paths, kept)
        } else {
            scan_entangle(toks, i + 1, paths, kept.push(t))
        }
    }
}

pub open spec fn usage_entangle() -> Seq<char> {
    "Usage: dft entangle [link] <dim1> <dim2> | sever <dim1> <dim2> | list | log | sync"@
}

/// What the arguments of `dft entangle` ask for, or the message that
/// refuses them. A first word that names no subcommand is the first of two
/// dimensions to link.
pub open spec fn entangle_command(toks: Seq<Seq<char>>, given_paths: Option<Seq<char>>) -> Result<
    EntangleCommandView,
    Seq<char>,
> {
    let (paths, kept) = scan_entangle(toks, 0, given_paths, Seq::empty());
    let json = toks.contains("--json"@);
    if kept.len() == 0 {
        Err(usage_entangle())
    } else {
        let c = kept[0];
        if c == "link"@ {
            if kept.len() < 3 {
                Err("Usage: dft entangle link <dim1> <dim2> [--paths <glob>]"@)
            } else {
                Ok(EntangleCommandView::Link { dim1: kept[1], dim2: kept[2], paths })
            }
        } else if c == "sever"@ || c == "break"@ {
            if kept.len() < 3 {
                Err("Usage: dft entangle sever <dim1> <dim2>"@)
            } else {
                Ok(EntangleCommandView::Sever { dim1: kept[1], dim2: kept[2] })
            }
        } else if c == "list"@ {
            Ok(EntangleCommandView::List { json })
        } else if c == "log"@ {
            Ok(EntangleCommandView::Log { json })
        } else if c == "sync"@ {
            Ok(EntangleCommandView::Sync)
        } else if "-"@.is_prefix_of(c) {
            Err("Unknown entangle option: '"@ + c + "'"@)
        } else if kept.len() < 2 {
            Err(usage_entangle())
        } else {
            Ok(EntangleCommandView::Link { dim1: c, dim2: kept[1], paths })
        }
    }
}

fn scan_entangle_args(toks: &Vec<String>, given: &Option<String>) -> (r: (Option<String>, Vec<String>))
    ensures
        opt_view(r.0) == scan_entangle(strs_view(toks@), 0, opt_view(*given), Seq::empty()).0,
        strs_view(r.1@) == scan_entangle(strs_view(toks@), 0, opt_view(*given), Seq::empty()).1,
{
    let ghost tv = strs_view(toks@);
    let ghost target = scan_entangle(tv, 0, opt_view(*given), Seq::empty());
    let mut paths: Option<String> = match given {
        Some(g) => Some(g.clone()),
        None => None,
    };
    let mut kept: Vec<String> = Vec::new();
    let mut i: usize = 0;
    proof {
        assert(strs_view(kept@) =~= Seq::<Seq<char>>::empty());
    }
    while i < toks.len()
        invariant
            tv == strs_view(toks@),
            scan_entangle(tv, i as int, opt_view(paths), strs_view(kept@)) == target,
        decreases toks.len() - i,
    {
        let t = toks[i].as_str();
        assert(tv[i as int] == t@);
        proof {
            reveal_strlit("--paths");
            reveal_strlit("--paths=");
            reveal_strlit("--json");
        }
        let is_paths = str_eq(t, "--paths");
        if is_paths && i + 1 < toks.len() {
            assert(tv[i + 1] == toks@[i + 1]@);
            paths = Some(toks[i + 1].clone());
            i = i + 2;
        } else if !is_paths && str_starts_with(t, "--paths=") {
            paths = Some(str_skip(t, 8));
            i = i + 1;
        } else if str_eq(t, "--json") {
            i = i + 1;
        } else {
            let ghost before = strs_view(kept@);
            kept.push(toks[i].clone());
            proof {
                assert(strs_view(kept@) =~= before.push(t@));
            }
            i = i + 1;
        }
    }
    (paths, kept)
}

/// Reads the arguments of `dft entangle` into the subcommand they ask for,
/// or the message that refuses them.
pub fn parse_entangle_command(args: &EntangleArgs) -> (r: Result<EntangleCommand, String>)
    ensures
        match (r, entangle_command(strs_view(args.args@), opt_view(args.paths))) {
            (Ok(c), Ok(v)) => c@ == v,
            (Err(m), Err(e)) => m@ == e,
            _ => false,
        },
{
    let (paths, kept) = scan_entangle_args(&args.args, &args.paths);
    let ghost kv = strs_view(kept@);
    let json = any_is(&args.args, "--json");
    proof {
        reveal_strlit("link");
        reveal_strlit("sever");
        reveal_strlit("break");
        reveal_strlit("list");
        reveal_strlit("log");
        reveal_strlit("sync");
        reveal_strlit("-");
    }
    if kept.len() == 0 {
        return Err(
            String::from_str(
                "Usage: dft entangle [link] <dim1> <dim2> | sever <dim1> <dim2> | list | log | sync",
            ),
        );
    }
    let c = kept[0].as_str();
    assert(kv[0] == c@);
    if kept.len() >= 2 {
        assert(kv[1] == kept@[1]@);
    }
    if kept.len() >= 3 {
        assert(kv[2] == kept@[2]@);
    }
    if str_eq(c, "link") {
        if kept.len() < 3 {
            Err(String::from_str("Usage: dft entangle link <dim1> <dim2> [--paths <glob>]"))
        } else {
            Ok(EntangleCommand::Link { dim1: kept[1].clone(), dim2: kept[2].clone(), paths })
        }
    } else if str_eq(c, "sever") || str_eq(c, "break") {
        if kept.len() < 3 {
            Err(String::from_str("Usage: dft entangle sever <dim1> <dim2>"))
        } else {
            Ok(EntangleCommand::Sever { dim1: kept[1].clone(), dim2: kept[2].clone() })
        }
    } else if str_eq(c, "list") {
        Ok(EntangleCommand::List { json })
    } else if str_eq(c, "log") {
        Ok(EntangleCommand::Log { json })
    } else if str_eq(c, "sync") {
        Ok(EntangleCommand::Sync)
    } else if str_starts_with(c, "-") {
        let mut m = String::from_str("Unknown entangle option: '");
        m.append(c);
        m.append("'");
        Err(m)
    } else if kept.len() < 2 {
        Err(
            String::from_str(
                "Usage: dft entangle [link] <dim1> <dim2> | sever <dim1> <dim2> | list | log | sync",
            ),
        )
    } else {
        Ok(EntangleCommand::Link { dim1: kept[0].clone(), dim2: kept[1].clone(), paths })
    }
}

} // verus!
