//! `dft timeline`: which view of the timeline is asked for.
use vstd::prelude::*;
use crate::cli::TimelineArgs;
use crate::commands::agent::any_is;
use crate::text::{opt_view, str_eq, str_skip, str_starts_with, strs_view};

verus! {

/// The formats the timeline can be exported in.
#[derive(Debug, Clone, Copy, PartialEq, Eq, Structural)]
pub enum ExportFormat {
    Dot,
    Svg,
    Json,
}

/// The view of the timeline that `dft timeline` asks for.
#[derive(Debug, Clone)]
pub enum TimelineView {
    /// The whole graph, written in a format for other tools.
    Export(ExportFormat),
    /// The tree of dimensions by ancestry.
    Ancestry,
    /// The history of one dimension.
    Single(String),
    /// The whole graph for the terminal.
    Multiverse,
}

pub enum TimelineViewView {
    Export(ExportFormat),
    Ancestry,
    Single(Seq<char>),
    Multiverse,
}

impl View for TimelineView {
    type V = TimelineViewView;

    open spec fn view(&self) -> TimelineViewView {
        match self {
            TimelineView::Export(f) => TimelineViewView::Export(*f),
            TimelineView::Ancestry => TimelineViewView::Ancestry,
            TimelineView::Single(d) => TimelineViewView::Single(d@),
            TimelineView::Multiverse => TimelineViewView::Multiverse,
        }
    }
}

/// The first format named in the words from `i` on: `--format F`, `-f F`
/// or `--format=F`.
pub open spec fn format_in(toks: Seq<Seq<char>>, i: int) -> Option<Seq<char>>
    decreases toks.len() - i,
{
    if i < 0 || i >= toks.len() {
        None
    } else if (toks[i] == "--format"@ || toks[i] == "-f"@) && i + 1 < toks.len() {
        Some(toks[i + 1])
    } else if "--format="@.is_prefix_of(toks[i]) {
        Some(toks[i].skip(9))
    } else {
        format_in(toks, i + 1)
    }
}

pub open spec fn format_named(f: Seq<char>) -> ExportFormat {
    if f == "dot"@ {
        ExportFormat::Dot
    } else if f == "svg"@ {
        ExportFormat::Svg
    } else {
        ExportFormat::Json
    }
}

/// Whether a word can name the dimension to show on its own.
pub open spec fn names_dimension(d: Seq<char>) -> bool {
    d != "export"@ && !"-"@.is_prefix_of(d)
}

/// The view that the arguments of `dft timeline` ask for: an export when
/// the dimension or the first word is `export` (as JSON unless a format
/// says otherwise), else the ancestry tree when asked, else one dimension
/// when one is named, else the whole graph.
pub open spec fn timeline_view_of(
    dimension: Option<Seq<char>>,
    ancestry: bool,
    toks: Seq<Seq<char>>,
    format: Option<Seq<char>>,
) -> TimelineViewView {
    if dimension == Some("export"@) || (toks.len() > 0 && toks[0] == "export"@) {
        let f = match format {
            Some(f) => Some(f),
            None => format_in(toks, 0),
        };
        TimelineViewView::Export(
            match f {
                Some(f) => format_named(f),
                None => ExportFormat::Json,
            },
        )
    } else if ancestry || toks.contains("--ancestry"@) {
        TimelineViewView::Ancestry
    } else if dimension matches Some(d) && names_dimension(d) {
        TimelineViewView::Single(dimension->0)
    } else if toks.len() > 0 && names_dimension(toks[0]) {
        TimelineViewView::Single(toks[0])
    } else {
        TimelineViewView::Multiverse
    }
}

fn find_format(toks: &Vec<String>) -> (r: Option<String>)
    ensures
        opt_view(r) == format_in(strs_view(toks@), 0),
{
    let ghost tv = strs_view(toks@);
    let mut i: usize = 0;
    while i < toks.len()
        invariant
            tv == strs_view(toks@),
            format_in(tv, 0) == format_in(tv, i as int),
        decreases toks.len() - i,
    {
        let t = toks[i].as_str();
        assert(tv[i as int] == t@);
        proof {
            reveal_strlit("--format");
            reveal_strlit("-f");
            reveal_strlit("--format=");
        }
        if (str_eq(t, "--format") || str_eq(t, "-f")) && i + 1 < toks.len() {
            assert(tv[i + 1] == toks@[i + 1]@);
            return Some(toks[i + 1].clone());
        } else if str_starts_with(t, "--format=") {
            return Some(str_skip(t, 9));
        }
        i = i + 1;
    }
    None
}

fn can_name_dimension(d: &str) -> (r: bool)
    ensures
        r == names_dimension(d@),
{
    !str_eq(d, "export") && !str_starts_with(d, "-")
}

/// Decides which view of the timeline the arguments of `dft timeline` ask
/// for.
pub fn timeline_view(args: &TimelineArgs) -> (r: TimelineView)
    ensures
        r@ == timeline_view_of(opt_view(args.dimension), args.ancestry, strs_view(args.args@), opt_view(args.format)),
{
    let toks = &args.args;
    let ghost tv = strs_view(toks@);
    if toks.len() > 0 {
        assert(tv[0] == toks@[0]@);
    }
    proof {
        reveal_strlit("export");
        reveal_strlit("dot");
        reveal_strlit("svg");
    }
    let dim_export = match &args.dimension {
        Some(d) => str_eq(d.as_str(), "export"),
        None => false,
    };
    let first_export = toks.len() > 0 && str_eq(toks[0].as_str(), "export");
    if dim_export || first_export {
        let f = match &args.format {
            Some(f) => Some(f.clone()),
            None => find_format(toks),
        };
        let fmt = match &f {
            Some(f) => {
                if str_eq(f.as_str(), "dot") {
                    ExportFormat::Dot
                } else if str_eq(f.as_str(), "svg") {
                    ExportFormat::Svg
                } else {
                    ExportFormat::Json
                }
            },
            None => ExportFormat::Json,
        };
        return TimelineView::Export(fmt);
    }
    if args.ancestry || any_is(toks, "--ancestry") {
        return TimelineView::Ancestry;
    }
    if let Some(d) = &args.dimension {
        if can_name_dimension(d.as_str()) {
            return TimelineView::Single(d.clone());
        }
    }
    if toks.len() > 0 && can_name_dimension(toks[0].as_str()) {
        return TimelineView::Single(toks[0].clone());
    }
    TimelineView::Multiverse
}

} // verus!
