//! The awareness commands: `observe`, `radar`, `foresee`, `territory`.
use vstd::prelude::*;
use crate::cli::{ForeseeArgs, ObserveArgs, TerritoryArgs};
use crate::commands::agent::any_is;
use crate::territory::claim::{Claim, ClaimView};
use crate::territory::fence::{Fence, FenceView};
use crate::territory::{claim_views, fence_views};
use crate::text::{opt_view, str_eq, strs_view};

verus! {

/// What `dft observe` was asked to show.
#[derive(Debug, Clone)]
pub enum ObserveCommand {
    /// The differences between two dimensions, optionally for one path.
    Diff { dim1: String, dim2: String, path: Option<String> },
    /// The history of a dimension.
    Log { dimension: String },
    /// The uncommitted state of a dimension.
    Status { dimension: String },
    /// A file as a dimension sees it.
    Cat { dimension: String, file: String },
}

pub enum ObserveCommandView {
    Diff { dim1: Seq<char>, dim2: Seq<char>, path: Option<Seq<char>> },
    Log { dimension: Seq<char> },
    Status { dimension: Seq<char> },
    Cat { dimension: Seq<char>, file: Seq<char> },
}

impl View for ObserveCommand {
    type V = ObserveCommandView;

    open spec fn view(&self) -> ObserveCommandView {
        match self {
            ObserveCommand::Diff { dim1, dim2, path } => ObserveCommandView::Diff {
                dim1: dim1@,
                dim2: dim2@,
                path: opt_view(*path),
            },
            ObserveCommand::Log { dimension } => ObserveCommandView::Log { dimension: dimension@ },
            ObserveCommand::Status { dimension } => ObserveCommandView::Status { dimension: dimension@ },
            ObserveCommand::Cat { dimension, file } => ObserveCommandView::Cat {
                dimension: dimension@,
                file: file@,
            },
        }
    }
}

/// What the words after `dft observe` ask for, or the usage message that
/// refuses them: `diff D1 D2 [PATH]`, `log D`, `status D`, or `D FILE`.
pub open spec fn observe_command(toks: Seq<Seq<char>>) -> Result<ObserveCommandView, Seq<char>> {
    if toks.len() == 0 {
        Err("Usage: dft observe <dim> <path> | diff <d1> <d2> | log <d> | status <d>"@)
    } else if toks[0] == "diff"@ {
        if toks.len() < 3 {
            Err("Usage: dft observe diff <dim1> <dim2> [path]"@)
        } else {
            Ok(
                ObserveCommandView::Diff {
                    dim1: toks[1],
                    dim2: toks[2],
                    path: if toks.len() > 3 {
                        Some(toks[3])
                    } else {
                        None
                    },
                },
            )
        }
    } else if toks[0] == "log"@ {
        if toks.len() < 2 {
            Err("Usage: dft observe log <dim>"@)
        } else {
            Ok(ObserveCommandView::Log { dimension: toks[1] })
        }
    } else if toks[0] == "status"@ {
        if toks.len() < 2 {
            Err("Usage: dft observe status <dim>"@)
        } else {
            Ok(ObserveCommandView::Status { dimension: toks[1] })
        }
    } else if toks.len() < 2 {
        Err("Usage: dft observe <dim> <file>"@)
    } else {
        Ok(ObserveCommandView::Cat { dimension: toks[0], file: toks[1] })
    }
}

/// Reads the words after `dft observe` into what they ask to show, or the
/// usage message that refuses them.
pub fn parse_observe_command(args: &ObserveArgs) -> (r: Result<ObserveCommand, String>)
    ensures
        match (r, observe_command(strs_view(args.args@))) {
            (Ok(c), Ok(v)) => c@ == v,
            (Err(m), Err(e)) => m@ == e,
            _ => false,
        },
{
    let toks = &args.args;
    let ghost tv = strs_view(toks@);
    if toks.len() == 0 {
        return Err(String::from_str("Usage: dft observe <dim> <path> | diff <d1> <d2> | log <d> | status <d>"));
    }
    let c = toks[0].as_str();
    proof {
        assert(tv[0] == c@);
        if toks.len() > 1 {
            assert(tv[1] == toks@[1]@);
        }
        if toks.len() > 2 {
            assert(tv[2] == toks@[2]@);
        }
        if toks.len() > 3 {
            assert(tv[3] == toks@[3]@);
        }
        reveal_strlit("diff");
        reveal_strlit("log");
        reveal_strlit("status");
    }
    if str_eq(c, "diff") {
        if toks.len() < 3 {
            Err(String::from_str("Usage: dft observe diff <dim1> <dim2> [path]"))
        } else {
            let path = if toks.len() > 3 {
                Some(toks[3].clone())
            } else {
                None
            };
            Ok(ObserveCommand::Diff { dim1: toks[1].clone(), dim2: toks[2].clone(), path })
        }
    } else if str_eq(c, "log") {
        if toks.len() < 2 {
            Err(String::from_str("Usage: dft observe log <dim>"))
        } else {
            Ok(ObserveCommand::Log { dimension: toks[1].clone() })
        }
    } else if str_eq(c, "status") {
        if toks.len() < 2 {
            Err(String::from_str("Usage: dft observe status <dim>"))
        } else {
            Ok(ObserveCommand::Status { dimension: toks[1].clone() })
        }
    } else if toks.len() < 2 {
        Err(String::from_str("Usage: dft observe <dim> <file>"))
    } else {
        Ok(ObserveCommand::Cat { dimension: toks[0].clone(), file: toks[1].clone() })
    }
}

/// What `dft radar --json` prints: the paths touched in more than one
/// dimension, and the dimensions scanned.
#[derive(Debug, Clone)]
pub struct RadarJsonOutput {
    pub hot_zones: Vec<String>,
    pub active_dimensions: Vec<String>,
}

/// The two dimensions `dft foresee` compares: those given, else the current
/// one and the mainline.
pub fn foresee_pair(args: &ForeseeArgs, current: &str) -> (r: (String, String))
    ensures
        r.0@ == match args.dim1 {
            Some(d) => d@,
            None => current@,
        },
        r.1@ == match args.dim2 {
            Some(d) => d@,
            None => "mainline"@,
        },
{
    proof {
        reveal_strlit("mainline");
    }
    let d1 = match &args.dim1 {
        Some(d) => d.clone(),
        None => String::from_str(current),
    };
    let d2 = match &args.dim2 {
        Some(d) => d.clone(),
        None => String::from_str("mainline"),
    };
    (d1, d2)
}

/// A claim as `dft territory --json` prints it.
#[derive(Debug, Clone)]
pub struct ClaimRecord {
    pub path: String,
    pub dimension: String,
}

/// What `dft territory --json` prints: the claims and the fence globs in
/// force.
#[derive(Debug, Clone)]
pub struct TerritoryJsonOutput {
    pub claims: Vec<ClaimRecord>,
    pub fences: Vec<String>,
}

/// The overview of the claims and fences in force: each claim's glob and
/// dimension, and each fence's glob, in order.
pub fn territory_overview(claims: &Vec<Claim>, fences: &Vec<Fence>) -> (r: TerritoryJsonOutput)
    ensures
        r.claims@.len() == claims@.len(),
        forall|k: int|
            0 <= k < claims@.len() ==> (#[trigger] r.claims@[k]).path@ == claims@[k]@.path_glob
                && r.claims@[k].dimension@ == claims@[k]@.dimension,
        strs_view(r.fences@) == fence_views(fences@).map_values(|f: FenceView| f.path_glob),
{
    let mut records: Vec<ClaimRecord> = Vec::new();
    let mut i: usize = 0;
    while i < claims.len()
        invariant
            i <= claims.len(),
            records@.len() == i,
            forall|k: int|
                0 <= k < i ==> (#[trigger] records@[k]).path@ == claims@[k]@.path_glob
                    && records@[k].dimension@ == claims@[k]@.dimension,
        decreases claims.len() - i,
    {
        records.push(ClaimRecord { path: claims[i].path_glob.clone(), dimension: claims[i].dimension.clone() });
        i = i + 1;
    }
    let ghost fv = fence_views(fences@);
    let mut globs: Vec<String> = Vec::new();
    let mut j: usize = 0;
    while j < fences.len()
        invariant
            j <= fences.len(),
            fv == fence_views(fences@),
            strs_view(globs@) == fv.take(j as int).map_values(|f: FenceView| f.path_glob),
        decreases fences.len() - j,
    {
        let ghost before = strs_view(globs@);
        globs.push(fences[j].path_glob.clone());
        proof {
            assert(fv[j as int] == fences@[j as int]@);
            assert(strs_view(globs@) =~= before.push(fences@[j as int]@.path_glob));
            assert(fv.take(j + 1).map_values(|f: FenceView| f.path_glob) =~= fv.take(j as int).map_values(
                |f: FenceView| f.path_glob,
            ).push(fv[j as int].path_glob));
        }
        j = j + 1;
    }
    proof {
        assert(fv.take(fences.len() as int) =~= fv);
    }
    TerritoryJsonOutput { claims: records, fences: globs }
}

/// What `dft territory` was asked for: an audit, fixing what it can if
/// `--fix` is given, or the overview.
#[derive(Debug, Clone, Copy, PartialEq, Eq, Structural)]
pub enum TerritoryRequest {
    Audit { fix: bool },
    Overview,
}

/// Reads the words after `dft territory`: `audit` first asks for an audit.
pub fn territory_request(args: &TerritoryArgs) -> (r: TerritoryRequest)
    ensures
        r == if args.args@.len() > 0 && args.args@[0]@ == "audit"@ {
            TerritoryRequest::Audit { fix: strs_view(args.args@).contains("--fix"@) }
        } else {
            TerritoryRequest::Overview
        },
{
    if args.args.len() > 0 && str_eq(args.args[0].as_str(), "audit") {
        TerritoryRequest::Audit { fix: any_is(&args.args, "--fix") }
    } else {
        TerritoryRequest::Overview
    }
}

} // verus!
