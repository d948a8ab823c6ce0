//! What `dft log`, `dft diff` and `dft branch` print and decide.
use vstd::prelude::*;
use crate::cli::BranchArgs;
use crate::clock::{representable, rfc2822_at, rfc2822_text, rfc2822_year};
use crate::foresee::EditOpKind;
use crate::text::{first_line, first_line_of, opt_view, short7, short_id, strs_view};

verus! {

/// A commit as `dft log --json` prints it.
#[derive(Debug, Clone)]
pub struct LogJsonEntry {
    pub oid: String,
    pub author_name: String,
    pub author_email: String,
    pub date: String,
    pub message: String,
}

/// The log entry of a commit: its date written as RFC 2822, or empty where
/// the time cannot be represented.
pub fn log_json_entry(oid: &str, author_name: &str, author_email: &str, time: i64, message: &str) -> (r: LogJsonEntry)
    requires
        representable(time) ==> rfc2822_year(time),
    ensures
        r.oid@ == oid@,
        r.author_name@ == author_name@,
        r.author_email@ == author_email@,
        r.date@ == if representable(time) {
            rfc2822_text(time)
        } else {
            Seq::empty()
        },
        r.message@ == message@,
{
    let date = match rfc2822_at(time) {
        Some(d) => d,
        None => String::new(),
    };
    LogJsonEntry {
        oid: String::from_str(oid),
        author_name: String::from_str(author_name),
        author_email: String::from_str(author_email),
        date,
        message: String::from_str(message),
    }
}

/// The one-line form of a commit in `dft log --oneline`: the first seven
/// characters of its id and the first line of its message.
pub fn oneline(oid_hex: &str, message: &str) -> (r: String)
    ensures
        r@ == short7(oid_hex@) + " "@ + first_line(message@),
{
    let mut s = short_id(oid_hex);
    s.append(" ");
    let t = first_line_of(message);
    s.append(t.as_str());
    s
}

/// A hunk as `dft diff --json` prints it.
#[derive(Debug, Clone)]
pub struct HunkJson {
    pub old_start: usize,
    pub old_count: usize,
    pub new_start: usize,
    pub new_count: usize,
    pub lines: Vec<String>,
}

/// A file's changes as `dft diff --json` prints them.
#[derive(Debug, Clone)]
pub struct DiffJson {
    pub old_path: Option<String>,
    pub new_path: Option<String>,
    pub is_binary: bool,
    pub hunks: Vec<HunkJson>,
}

pub open spec fn line_mark(kind: EditOpKind) -> Seq<char> {
    match kind {
        EditOpKind::Insert => "+"@,
        EditOpKind::Delete => "-"@,
        EditOpKind::Equal => " "@,
    }
}

/// A diff line with its mark: `+` inserted, `-` deleted, a space kept.
pub fn diff_line(kind: EditOpKind, content: &str) -> (r: String)
    ensures
        r@ == line_mark(kind) + content@,
{
    let mut s = match kind {
        EditOpKind::Insert => String::from_str("+"),
        EditOpKind::Delete => String::from_str("-"),
        EditOpKind::Equal => String::from_str(" "),
    };
    s.append(content);
    s
}

/// A line of a hunk: what it does and its text.
#[derive(Debug, Clone)]
pub struct HunkLine {
    pub kind: EditOpKind,
    pub content: String,
}

/// The JSON form of a hunk: its ranges, and each line with its mark.
pub fn hunk_json(old_start: usize, old_count: usize, new_start: usize, new_count: usize, lines: &Vec<HunkLine>) -> (r: HunkJson)
    ensures
        r.old_start == old_start,
        r.old_count == old_count,
        r.new_start == new_start,
        r.new_count == new_count,
        r.lines@.len() == lines@.len(),
        forall|k: int|
            0 <= k < lines@.len() ==> (#[trigger] r.lines@[k])@ == line_mark(lines@[k].kind)
                + lines@[k].content@,
{
    let mut out: Vec<String> = Vec::new();
    let mut i: usize = 0;
    while i < lines.len()
        invariant
            i <= lines.len(),
            out@.len() == i,
            forall|k: int|
                0 <= k < i ==> (#[trigger] out@[k])@ == line_mark(lines@[k].kind) + lines@[k].content@,
        decreases lines.len() - i,
    {
        out.push(diff_line(lines[i].kind, lines[i].content.as_str()));
        i = i + 1;
    }
    HunkJson { old_start, old_count, new_start, new_count, lines: out }
}

/// A branch as `dft branch --json` prints it.
#[derive(Debug, Clone)]
pub struct BranchJsonEntry {
    pub name: String,
    pub target: String,
    pub is_head: bool,
}

/// What `dft branch` was asked to do.
#[derive(Debug, Clone)]
pub enum BranchAction {
    Rename { from: String, to: String },
    Delete { name: String, force: bool },
    Create { name: String },
    List,
}

pub enum BranchActionView {
    Rename { from: Seq<char>, to: Seq<char> },
    Delete { name: Seq<char>, force: bool },
    Create { name: Seq<char> },
    List,
}

impl View for BranchAction {
    type V = BranchActionView;

    open spec fn view(&self) -> BranchActionView {
        match self {
            BranchAction::Rename { from, to } => BranchActionView::Rename { from: from@, to: to@ },
            BranchAction::Delete { name, force } => BranchActionView::Delete { name: name@, force: *force },
            BranchAction::Create { name } => BranchActionView::Create { name: name@ },
            BranchAction::List => BranchActionView::List,
        }
    }
}

/// What the options of `dft branch` ask for, first match first: a rename
/// (which needs two names), a deletion, a forced deletion, a creation, or
/// the list.
pub open spec fn branch_action_of(
    rename: Option<Seq<Seq<char>>>,
    delete: Option<Seq<char>>,
    force_delete: Option<Seq<char>>,
    name: Option<Seq<char>>,
) -> Result<BranchActionView, Seq<char>> {
    match rename {
        Some(r) => if r.len() >= 2 {
            Ok(BranchActionView::Rename { from: r[0], to: r[1] })
        } else {
            Err("Branch rename requires OLD and NEW branch names"@)
        },
        None => match delete {
            Some(d) => Ok(BranchActionView::Delete { name: d, force: false }),
            None => match force_delete {
                Some(d) => Ok(BranchActionView::Delete { name: d, force: true }),
                None => match name {
                    Some(n) => Ok(BranchActionView::Create { name: n }),
                    None => Ok(BranchActionView::List),
                },
            },
        },
    }
}

/// Decides what `dft branch` was asked to do.
pub fn branch_action(args: &BranchArgs) -> (r: Result<BranchAction, String>)
    ensures
        match (
            r,
            branch_action_of(
                match args.rename {
                    Some(v) => Some(strs_view(v@)),
                    None => None,
                },
                opt_view(args.delete),
                opt_view(args.force_delete),
                opt_view(args.name),
            ),
        ) {
            (Ok(a), Ok(b)) => a@ == b,
            (Err(m), Err(e)) => m@ == e,
            _ => false,
        },
{
    if let Some(r) = &args.rename {
        if r.len() >= 2 {
            proof {
                assert(strs_view(r@)[0] == r@[0]@);
                assert(strs_view(r@)[1] == r@[1]@);
            }
            return Ok(BranchAction::Rename { from: r[0].clone(), to: r[1].clone() });
        } else {
            return Err(String::from_str("Branch rename requires OLD and NEW branch names"));
        }
    }
    if let Some(d) = &args.delete {
        return Ok(BranchAction::Delete { name: d.clone(), force: false });
    }
    if let Some(d) = &args.force_delete {
        return Ok(BranchAction::Delete { name: d.clone(), force: true });
    }
    if let Some(n) = &args.name {
        return Ok(BranchAction::Create { name: n.clone() });
    }
    Ok(BranchAction::List)
}

} // verus!
