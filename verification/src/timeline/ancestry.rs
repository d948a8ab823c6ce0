//! The ancestry of the dimensions as a tree: each dimension under the one it
//! was forked from, walked depth first from the roots.
use vstd::prelude::*;
use crate::text::{byte_prefix, cuts_at, prefix_in_bytes, str_eq};
use crate::timeline::graph::{dim_views, MultiverseTimelineGraph, TimelineDimension, TimelineDimensionView};

verus! {

/// The names of the dimensions forked from `parent`, in order: those whose
/// parent is `parent` and which are not their own parent.
pub open spec fn child_names(dims: Seq<TimelineDimensionView>, parent: Seq<char>) -> Seq<Seq<char>>
    decreases dims.len(),
{
    if dims.len() == 0 {
        Seq::empty()
    } else {
        child_names(dims.drop_last(), parent) + (if dims.last().parent == Some(parent)
            && parent != dims.last().name {
            seq![dims.last().name]
        } else {
            Seq::empty()
        })
    }
}

/// The names of the dimensions with no parent, or with themselves as parent.
pub open spec fn root_names(dims: Seq<TimelineDimensionView>) -> Seq<Seq<char>>
    decreases dims.len(),
{
    if dims.len() == 0 {
        Seq::empty()
    } else {
        root_names(dims.drop_last()) + (if dims.last().parent is None || dims.last().parent
            == Some(dims.last().name) {
            seq![dims.last().name]
        } else {
            Seq::empty()
        })
    }
}

/// The roots of the tree: `mainline` always comes first unless it is a root
/// already.
pub open spec fn ancestry_roots(dims: Seq<TimelineDimensionView>) -> Seq<Seq<char>> {
    let r = root_names(dims);
    if r.contains("mainline"@) {
        r
    } else {
        seq!["mainline"@] + r
    }
}

/// The first dimension at or after `k` with this name.
pub open spec fn dim_named_from(dims: Seq<TimelineDimensionView>, name: Seq<char>, k: int) -> Option<
    TimelineDimensionView,
>
    decreases dims.len() - k,
{
    if k < 0 || k >= dims.len() {
        None
    } else if dims[k].name == name {
        Some(dims[k])
    } else {
        dim_named_from(dims, name, k + 1)
    }
}

pub open spec fn dim_named(dims: Seq<TimelineDimensionView>, name: Seq<char>) -> Option<TimelineDimensionView> {
    dim_named_from(dims, name, 0)
}

/// The first seven characters of a dimension's head, or `unborn`.
pub open spec fn head_label(d: Option<TimelineDimensionView>) -> Seq<char> {
    match d {
        Some(x) => match x.head_commit {
            Some(h) => byte_prefix(h, 7),
            None => "unborn"@,
        },
        None => "unborn"@,
    }
}

pub open spec fn status_label(d: Option<TimelineDimensionView>) -> Seq<char> {
    match d {
        Some(x) => x.status,
        None => "clean"@,
    }
}

/// Where a child was forked from, with the first seven characters of its
/// fork base where it has one.
pub open spec fn fork_label(d: Option<TimelineDimensionView>, parent: Seq<char>) -> Seq<char> {
    match d {
        Some(x) => match x.fork_base_commit {
            Some(fb) => "forked from "@ + parent + " @ "@ + byte_prefix(fb, 7),
            None => "forked from "@ + parent,
        },
        None => "forked from "@ + parent,
    }
}

pub open spec fn connector(last: bool) -> Seq<char> {
    if last {
        "└── "@
    } else {
        "├── "@
    }
}

pub open spec fn indent(last: bool) -> Seq<char> {
    if last {
        "    "@
    } else {
        "│   "@
    }
}

/// The line of a child entered for the first time: where it was forked from,
/// its head and its status.
pub open spec fn child_line(
    dims: Seq<TimelineDimensionView>,
    parent: Seq<char>,
    child: Seq<char>,
    last: bool,
    prefix: Seq<char>,
) -> Seq<char> {
    let d = dim_named(dims, child);
    prefix + connector(last) + " ["@ + child + "] ("@ + fork_label(d, parent) + ") [head: "@
        + head_label(d) + ", "@ + status_label(d) + "]\n"@
}

/// The lines for one child of `parent`, and the names visited once they are
/// written. A child seen before gets a line of its own and no subtree; any
/// other child is followed by its own children, one level deeper. `fuel`
/// bounds the depth.
pub open spec fn kid_text(
    dims: Seq<TimelineDimensionView>,
    parent: Seq<char>,
    child: Seq<char>,
    last: bool,
    visited: Set<Seq<char>>,
    prefix: Seq<char>,
    fuel: nat,
) -> (Seq<char>, Set<Seq<char>>)
    decreases fuel, 0int,
{
    if fuel == 0 {
        (Seq::empty(), visited)
    } else if visited.contains(child) {
        (prefix + connector(last) + " ["@ + child + "] (cycle detected)\n"@, visited)
    } else {
        let line = child_line(dims, parent, child, last, prefix);
        let sub = render_kids(
            dims,
            child,
            child_names(dims, child),
            0,
            visited.insert(child),
            prefix + indent(last),
            (fuel - 1) as nat,
        );
        (line + sub.0, sub.1)
    }
}

/// The lines for the children `kids[i..]` of `parent`, and the names visited
/// once they are written.
pub open spec fn render_kids(
    dims: Seq<TimelineDimensionView>,
    parent: Seq<char>,
    kids: Seq<Seq<char>>,
    i: int,
    visited: Set<Seq<char>>,
    prefix: Seq<char>,
    fuel: nat,
) -> (Seq<char>, Set<Seq<char>>)
    decreases fuel, kids.len() - i,
{
    if fuel == 0 || i < 0 || i >= kids.len() {
        (Seq::empty(), visited)
    } else {
        let one = kid_text(dims, parent, kids[i], i + 1 == kids.len(), visited, prefix, fuel);
        let rest = render_kids(dims, parent, kids, i + 1, one.1, prefix, fuel);
        (one.0 + rest.0, rest.1)
    }
}

/// The trees of the roots `roots[j..]`, each root that was not reached
/// before with the tree below it.
pub open spec fn render_roots(
    dims: Seq<TimelineDimensionView>,
    roots: Seq<Seq<char>>,
    j: int,
    visited: Set<Seq<char>>,
    fuel: nat,
) -> Seq<char>
    decreases roots.len() - j,
{
    if j < 0 || j >= roots.len() {
        Seq::empty()
    } else {
        let root = roots[j];
        if visited.contains(root) {
            render_roots(dims, roots, j + 1, visited, fuel)
        } else {
            let line = "* ["@ + root + "] (origin) [head: "@ + head_label(dim_named(dims, root))
                + "]\n"@;
            let sub = render_kids(
                dims,
                root,
                child_names(dims, root),
                0,
                visited.insert(root),
                Seq::empty(),
                fuel,
            );
            line + sub.0 + render_roots(dims, roots, j + 1, sub.1, fuel)
        }
    }
}

/// The whole ancestry tree. Every level below a root visits a name not seen
/// before, so one level more than there are dimensions is as deep as it goes.
pub open spec fn ancestry_tree(dims: Seq<TimelineDimensionView>) -> Seq<char> {
    "Multiverse Ancestry Graph:\n"@ + render_roots(
        dims,
        ancestry_roots(dims),
        0,
        Set::empty(),
        (dims.len() + 1) as nat,
    )
}

/// The names of the dimensions.
pub open spec fn dim_name_set(dims: Seq<TimelineDimensionView>) -> Set<Seq<char>> {
    dims.map_values(|d: TimelineDimensionView| d.name).to_set()
}

/// How many names of dimensions are not yet visited.
pub open spec fn unvisited(dims: Seq<TimelineDimensionView>, visited: Set<Seq<char>>) -> nat {
    dim_name_set(dims).difference(visited).len()
}

/// Every child listed is the name of a dimension.
proof fn lemma_child_names_are_dims(dims: Seq<TimelineDimensionView>, parent: Seq<char>)
    ensures
        forall|k: int|
            0 <= k < child_names(dims, parent).len() ==> dim_name_set(dims).contains(
                #[trigger] child_names(dims, parent)[k],
            ),
    decreases dims.len(),
{
    if dims.len() > 0 {
        let u = dims.drop_last();
        lemma_child_names_are_dims(u, parent);
        let names = dims.map_values(|d: TimelineDimensionView| d.name);
        let unames = u.map_values(|d: TimelineDimensionView| d.name);
        assert forall|k: int| 0 <= k < child_names(dims, parent).len() implies dim_name_set(dims).contains(
            #[trigger] child_names(dims, parent)[k],
        ) by {
            let c = child_names(dims, parent)[k];
            if k < child_names(u, parent).len() {
                assert(child_names(u, parent)[k] == c);
                assert(unames.to_set().contains(c));
                let j = choose|j: int| 0 <= j < unames.len() && unames[j] == c;
                assert(names[j] == c);
            } else {
                assert(c == dims.last().name);
                assert(names[dims.len() - 1] == c);
            }
        }
    }
}

proof fn lemma_unvisited_shrinks(dims: Seq<TimelineDimensionView>, v1: Set<Seq<char>>, v2: Set<Seq<char>>)
    requires
        v1.subset_of(v2),
    ensures
        unvisited(dims, v2) <= unvisited(dims, v1),
{
    let names = dims.map_values(|d: TimelineDimensionView| d.name);
    vstd::seq_lib::seq_to_set_is_finite(names);
    let s = dim_name_set(dims);
    vstd::set_lib::lemma_len_difference(s, v1);
    assert(s.difference(v2).subset_of(s.difference(v1)));
    vstd::set_lib::lemma_len_subset(s.difference(v2), s.difference(v1));
}

proof fn lemma_unvisited_visit(dims: Seq<TimelineDimensionView>, v: Set<Seq<char>>, c: Seq<char>)
    requires
        dim_name_set(dims).contains(c),
        !v.contains(c),
    ensures
        unvisited(dims, v.insert(c)) + 1 == unvisited(dims, v),
{
    let names = dims.map_values(|d: TimelineDimensionView| d.name);
    vstd::seq_lib::seq_to_set_is_finite(names);
    let s = dim_name_set(dims);
    vstd::set_lib::lemma_len_difference(s, v);
    assert(s.difference(v.insert(c)) =~= s.difference(v).remove(c));
}

/// One child's lines do not depend on the depth bound once it exceeds the
/// names left to visit; they only add to the names visited.
proof fn lemma_kid_fuel(
    dims: Seq<TimelineDimensionView>,
    parent: Seq<char>,
    child: Seq<char>,
    last: bool,
    visited: Set<Seq<char>>,
    prefix: Seq<char>,
    f1: nat,
    f2: nat,
)
    requires
        dim_name_set(dims).contains(child),
        f1 >= unvisited(dims, visited) + 1,
        f2 >= unvisited(dims, visited) + 1,
    ensures
        kid_text(dims, parent, child, last, visited, prefix, f1) == kid_text(
            dims,
            parent,
            child,
            last,
            visited,
            prefix,
            f2,
        ),
        visited.subset_of(kid_text(dims, parent, child, last, visited, prefix, f1).1),
    decreases f1, 0int,
{
    if !visited.contains(child) {
        lemma_unvisited_visit(dims, visited, child);
        lemma_child_names_are_dims(dims, child);
        lemma_kids_fuel(
            dims,
            child,
            child_names(dims, child),
            0,
            visited.insert(child),
            prefix + indent(last),
            (f1 - 1) as nat,
            (f2 - 1) as nat,
        );
    }
}

/// The lines of children `kids[i..]` do not depend on the depth bound once
/// it exceeds the names left to visit; they only add to the names visited.
proof fn lemma_kids_fuel(
    dims: Seq<TimelineDimensionView>,
    parent: Seq<char>,
    kids: Seq<Seq<char>>,
    i: int,
    visited: Set<Seq<char>>,
    prefix: Seq<char>,
    f1: nat,
    f2: nat,
)
    requires
        0 <= i,
        forall|k: int| 0 <= k < kids.len() ==> dim_name_set(dims).contains(#[trigger] kids[k]),
        f1 >= unvisited(dims, visited) + 1,
        f2 >= unvisited(dims, visited) + 1,
    ensures
        render_kids(dims, parent, kids, i, visited, prefix, f1) == render_kids(
            dims,
            parent,
            kids,
            i,
            visited,
            prefix,
            f2,
        ),
        visited.subset_of(render_kids(dims, parent, kids, i, visited, prefix, f1).1),
    decreases f1, kids.len() - i,
{
    if i < kids.len() {
        let last = i + 1 == kids.len();
        lemma_kid_fuel(dims, parent, kids[i], last, visited, prefix, f1, f2);
        let one = kid_text(dims, parent, kids[i], last, visited, prefix, f1);
        lemma_unvisited_shrinks(dims, visited, one.1);
        lemma_kids_fuel(dims, parent, kids, i + 1, one.1, prefix, f1, f2);
    }
}

proof fn lemma_roots_fuel(
    dims: Seq<TimelineDimensionView>,
    roots: Seq<Seq<char>>,
    j: int,
    visited: Set<Seq<char>>,
    f1: nat,
    f2: nat,
)
    requires
        0 <= j,
        f1 >= unvisited(dims, visited) + 1,
        f2 >= unvisited(dims, visited) + 1,
    ensures
        render_roots(dims, roots, j, visited, f1) == render_roots(dims, roots, j, visited, f2),
    decreases roots.len() - j,
{
    if j < roots.len() {
        let root = roots[j];
        if visited.contains(root) {
            lemma_roots_fuel(dims, roots, j + 1, visited, f1, f2);
        } else {
            let v2 = visited.insert(root);
            lemma_unvisited_shrinks(dims, visited, v2);
            lemma_child_names_are_dims(dims, root);
            lemma_kids_fuel(dims, root, child_names(dims, root), 0, v2, Seq::empty(), f1, f2);
            let sub = render_kids(dims, root, child_names(dims, root), 0, v2, Seq::empty(), f1);
            lemma_unvisited_shrinks(dims, visited, sub.1);
            lemma_roots_fuel(dims, roots, j + 1, sub.1, f1, f2);
        }
    }
}

/// The depth bound of the ancestry tree is never reached: each level below
/// a root visits a dimension not seen before, so any larger bound gives the
/// same tree.
pub proof fn lemma_ancestry_depth_suffices(dims: Seq<TimelineDimensionView>, fuel: nat)
    requires
        fuel >= dims.len() + 1,
    ensures
        "Multiverse Ancestry Graph:\n"@ + render_roots(dims, ancestry_roots(dims), 0, Set::empty(), fuel)
            == ancestry_tree(dims),
{
    let names = dims.map_values(|d: TimelineDimensionView| d.name);
    names.lemma_cardinality_of_set();
    vstd::seq_lib::seq_to_set_is_finite(names);
    vstd::set_lib::lemma_len_difference(dim_name_set(dims), Set::<Seq<char>>::empty());
    lemma_roots_fuel(dims, ancestry_roots(dims), 0, Set::empty(), fuel, (dims.len() + 1) as nat);
}

/// The heads and fork bases of the dimensions can be cut after their first
/// seven bytes: each is shorter, or its seventh byte ends a character.
pub open spec fn commits_cut_cleanly(dims: Seq<TimelineDimensionView>) -> bool {
    forall|k: int|
        0 <= k < dims.len() ==> {
            &&& ((#[trigger] dims[k]).head_commit matches Some(h) ==> cuts_at(h, 7))
            &&& (dims[k].fork_base_commit matches Some(f) ==> cuts_at(f, 7))
        }
}

/// The names held in a list of visited names.
pub open spec fn name_set(v: Seq<String>) -> Set<Seq<char>> {
    Set::new(|x: Seq<char>| exists|k: int| 0 <= k < v.len() && (#[trigger] v[k])@ == x)
}

fn is_visited(v: &Vec<String>, name: &str) -> (r: bool)
    ensures
        r == name_set(v@).contains(name@),
{
    let mut i: usize = 0;
    while i < v.len()
        invariant
            i <= v.len(),
            forall|k: int| 0 <= k < i ==> (#[trigger] v@[k])@ != name@,
        decreases v.len() - i,
    {
        if str_eq(v[i].as_str(), name) {
            assert(v@[i as int]@ == name@);
            return true;
        }
        i = i + 1;
    }
    false
}

fn mark_visited(v: &mut Vec<String>, name: &str)
    ensures
        name_set(final(v)@) == name_set(old(v)@).insert(name@),
{
    let ghost before = v@;
    v.push(String::from_str(name));
    assert forall|x: Seq<char>| #[trigger] name_set(v@).contains(x) implies name_set(
        before,
    ).insert(name@).contains(x) by {
        let k = choose|k: int| 0 <= k < v@.len() && (#[trigger] v@[k])@ == x;
        if k < before.len() {
            assert(before[k] == v@[k]);
        }
    }
    assert forall|x: Seq<char>| #[trigger] name_set(before).insert(name@).contains(x) implies name_set(
        v@,
    ).contains(x) by {
        if x == name@ {
            assert(v@[before.len() as int]@ == x);
        } else {
            let k = choose|k: int| 0 <= k < before.len() && (#[trigger] before[k])@ == x;
            assert(v@[k] == before[k]);
        }
    }
    assert(name_set(v@) =~= name_set(before).insert(name@));
}

fn find_dim(dims: &Vec<TimelineDimension>, name: &str) -> (r: Option<usize>)
    ensures
        match r {
            Some(k) => k < dims@.len() && dim_named(dim_views(dims@), name@) == Some(
                dims@[k as int]@,
            ),
            None => dim_named(dim_views(dims@), name@) is None,
        },
{
    let ghost dv = dim_views(dims@);
    let mut i: usize = 0;
    while i < dims.len()
        invariant
            i <= dims.len(),
            dv == dim_views(dims@),
            dim_named(dv, name@) == dim_named_from(dv, name@, i as int),
        decreases dims.len() - i,
    {
        assert(dv[i as int] == dims@[i as int]@);
        if str_eq(dims[i].name.as_str(), name) {
            return Some(i);
        }
        i = i + 1;
    }
    None
}

fn children_of(dims: &Vec<TimelineDimension>, parent: &str) -> (r: Vec<String>)
    ensures
        r@.len() == child_names(dim_views(dims@), parent@).len(),
        forall|k: int| 0 <= k < r@.len() ==> (#[trigger] r@[k])@ == child_names(
            dim_views(dims@),
            parent@,
        )[k],
{
    let ghost dv = dim_views(dims@);
    let mut out: Vec<String> = Vec::new();
    let mut i: usize = 0;
    while i < dims.len()
        invariant
            i <= dims.len(),
            dv == dim_views(dims@),
            out@.len() == child_names(dv.take(i as int), parent@).len(),
            forall|k: int| 0 <= k < out@.len() ==> (#[trigger] out@[k])@ == child_names(
                dv.take(i as int),
                parent@,
            )[k],
        decreases dims.len() - i,
    {
        let d = &dims[i];
        proof {
            assert(dv.take(i + 1).drop_last() =~= dv.take(i as int));
            assert(dv.take(i + 1).last() == d@);
        }
        let is_child = match &d.parent {
            Some(p) => str_eq(p.as_str(), parent) && !str_eq(parent, d.name.as_str()),
            None => false,
        };
        if is_child {
            out.push(d.name.clone());
        }
        i = i + 1;
    }
    proof {
        assert(dv.take(dims.len() as int) =~= dv);
    }
    out
}

fn roots_of(dims: &Vec<TimelineDimension>) -> (r: Vec<String>)
    ensures
        r@.len() == ancestry_roots(dim_views(dims@)).len(),
        forall|k: int| 0 <= k < r@.len() ==> (#[trigger] r@[k])@ == ancestry_roots(
            dim_views(dims@),
        )[k],
{
    let ghost dv = dim_views(dims@);
    let mut out: Vec<String> = Vec::new();
    let mut has_mainline = false;
    let mut i: usize = 0;
    while i < dims.len()
        invariant
            i <= dims.len(),
            dv == dim_views(dims@),
            out@.len() == root_names(dv.take(i as int)).len(),
            forall|k: int| 0 <= k < out@.len() ==> (#[trigger] out@[k])@ == root_names(
                dv.take(i as int),
            )[k],
            has_mainline == root_names(dv.take(i as int)).contains("mainline"@),
        decreases dims.len() - i,
    {
        let d = &dims[i];
        let ghost before = root_names(dv.take(i as int));
        proof {
            assert(dv.take(i + 1).drop_last() =~= dv.take(i as int));
            assert(dv.take(i + 1).last() == d@);
        }
        let is_root = match &d.parent {
            Some(p) => str_eq(p.as_str(), d.name.as_str()),
            None => true,
        };
        if is_root {
            let m = str_eq(d.name.as_str(), "mainline");
            out.push(d.name.clone());
            proof {
                let after = root_names(dv.take(i + 1));
                assert(after == before.push(d@.name));
                if has_mainline {
                    let w = choose|w: int| 0 <= w < before.len() && before[w] == "mainline"@;
                    assert(after[w] == "mainline"@);
                } else if m {
                    assert(after[before.len() as int] == "mainline"@);
                } else {
                    assert forall|w: int| 0 <= w < after.len() implies after[w] != "mainline"@ by {
                        if w < before.len() {
                            assert(after[w] == before[w]);
                        }
                    }
                }
            }
            has_mainline = has_mainline || m;
        } else {
            proof {
                assert(root_names(dv.take(i + 1)) =~= before);
            }
        }
        i = i + 1;
    }
    proof {
        assert(dv.take(dims.len() as int) =~= dv);
    }
    if !has_mainline {
        out.insert(0, String::from_str("mainline"));
        proof {
            reveal_strlit("mainline");
        }
    }
    out
}

fn dim_head_label(dims: &Vec<TimelineDimension>, idx: Option<usize>) -> (r: String)
    requires
        commits_cut_cleanly(dim_views(dims@)),
        idx matches Some(k) ==> k < dims@.len(),
    ensures
        r@ == head_label(
            match idx {
                Some(k) => Some(dims@[k as int]@),
                None => None,
            },
        ),
{
    match idx {
        Some(k) => {
            assert(dim_views(dims@)[k as int] == dims@[k as int]@);
            match &dims[k].head_commit {
                Some(h) => prefix_in_bytes(h.as_str(), 7),
                None => String::from_str("unborn"),
            }
        },
        None => String::from_str("unborn"),
    }
}

fn child_line_text(dims: &Vec<TimelineDimension>, parent: &str, child: &str, is_last: bool, prefix: &str) -> (r: String)
    requires
        commits_cut_cleanly(dim_views(dims@)),
    ensures
        r@ == child_line(dim_views(dims@), parent@, child@, is_last, prefix@),
{
    let ghost dv = dim_views(dims@);
    let conn = if is_last {
        "└── "
    } else {
        "├── "
    };
    let idx = find_dim(dims, child);
    let ghost d = dim_named(dv, child@);
    proof {
        if let Some(k) = idx {
            assert(dv[k as int] == dims@[k as int]@);
        }
    }
    let head = dim_head_label(dims, idx);
    let (status, fork) = match idx {
        Some(k) => {
            let st = dims[k].status.clone();
            let fk = match &dims[k].fork_base_commit {
                Some(fb) => {
                    let mut s = String::from_str("forked from ");
                    s.append(parent);
                    s.append(" @ ");
                    let sfb = prefix_in_bytes(fb.as_str(), 7);
                    s.append(sfb.as_str());
                    s
                },
                None => {
                    let mut s = String::from_str("forked from ");
                    s.append(parent);
                    s
                },
            };
            (st, fk)
        },
        None => {
            let mut s = String::from_str("forked from ");
            s.append(parent);
            (String::from_str("clean"), s)
        },
    };
    assert(status@ == status_label(d));
    assert(fork@ == fork_label(d, parent@));
    assert(head@ == head_label(d));
    let mut out = String::new();
    out.append(prefix);
    out.append(conn);
    out.append(" [");
    out.append(child);
    out.append("] (");
    out.append(fork.as_str());
    out.append(") [head: ");
    out.append(head.as_str());
    out.append(", ");
    out.append(status.as_str());
    out.append("]\n");
    out
}

/// Appends the lines for one child of `parent` and everything below it.
fn render_child(
    dims: &Vec<TimelineDimension>,
    parent: &str,
    child: &str,
    is_last: bool,
    visited: &mut Vec<String>,
    out: &mut String,
    prefix: &str,
    fuel: usize,
)
    requires
        commits_cut_cleanly(dim_views(dims@)),
    ensures
        final(out)@ == old(out)@ + kid_text(
            dim_views(dims@),
            parent@,
            child@,
            is_last,
            name_set(old(visited)@),
            prefix@,
            fuel as nat,
        ).0,
        name_set(final(visited)@) == kid_text(
            dim_views(dims@),
            parent@,
            child@,
            is_last,
            name_set(old(visited)@),
            prefix@,
            fuel as nat,
        ).1,
    decreases fuel, 0int,
{
    let ghost dv = dim_views(dims@);
    let ghost vis = name_set(visited@);
    if fuel == 0 {
        return;
    }
    let conn = if is_last {
        "└── "
    } else {
        "├── "
    };
    if is_visited(visited, child) {
        out.append(prefix);
        out.append(conn);
        out.append(" [");
        out.append(child);
        out.append("] (cycle detected)\n");
        return;
    }
    let line = child_line_text(dims, parent, child, is_last, prefix);
    out.append(line.as_str());
    mark_visited(visited, child);
    let mut next_prefix = String::from_str(prefix);
    if is_last {
        next_prefix.append("    ");
    } else {
        next_prefix.append("│   ");
    }
    assert(next_prefix@ == prefix@ + indent(is_last));
    render_children(dims, child, visited, out, next_prefix.as_str(), fuel - 1);
}

/// Appends the lines for the children of `parent` and everything below
/// them, marking each child it enters as visited.
fn render_children(
    dims: &Vec<TimelineDimension>,
    parent: &str,
    visited: &mut Vec<String>,
    out: &mut String,
    prefix: &str,
    fuel: usize,
)
    requires
        commits_cut_cleanly(dim_views(dims@)),
    ensures
        final(out)@ == old(out)@ + render_kids(
            dim_views(dims@),
            parent@,
            child_names(dim_views(dims@), parent@),
            0,
            name_set(old(visited)@),
            prefix@,
            fuel as nat,
        ).0,
        name_set(final(visited)@) == render_kids(
            dim_views(dims@),
            parent@,
            child_names(dim_views(dims@), parent@),
            0,
            name_set(old(visited)@),
            prefix@,
            fuel as nat,
        ).1,
    decreases fuel, 1int,
{
    let ghost dv = dim_views(dims@);
    let ghost kids_v = child_names(dv, parent@);
    let ghost target = render_kids(dv, parent@, kids_v, 0, name_set(visited@), prefix@, fuel as nat);
    let ghost out0 = out@;
    if fuel == 0 {
        return;
    }
    let kids = children_of(dims, parent);
    let count = kids.len();
    let mut i: usize = 0;
    while i < count
        invariant
            count == kids@.len(),
            kids_v.len() == count,
            forall|k: int| 0 <= k < count ==> (#[trigger] kids@[k])@ == kids_v[k],
            dv == dim_views(dims@),
            kids_v == child_names(dv, parent@),
            commits_cut_cleanly(dv),
            fuel > 0,
            i <= count,
            out@ + render_kids(dv, parent@, kids_v, i as int, name_set(visited@), prefix@, fuel as nat).0
                == out0 + target.0,
            render_kids(dv, parent@, kids_v, i as int, name_set(visited@), prefix@, fuel as nat).1
                == target.1,
        decreases count - i,
    {
        let child = &kids[i];
        let is_last = i + 1 == count;
        assert(child@ == kids_v[i as int]);
        render_child(dims, parent, child.as_str(), is_last, visited, out, prefix, fuel);
        i = i + 1;
    }
}

/// Renders the ancestry tree: a line for each root with its head, then the
/// dimensions forked from it, each with where it was forked from, its head
/// and its status, depth first; a dimension reached a second time is marked
/// as a cycle and not entered again.
pub fn render_ancestry_tree(graph: &MultiverseTimelineGraph) -> (r: String)
    requires
        commits_cut_cleanly(dim_views(graph.dimensions@)),
        graph.dimensions@.len() < usize::MAX,
    ensures
        r@ == ancestry_tree(dim_views(graph.dimensions@)),
{
    let ghost dv = dim_views(graph.dimensions@);
    let dims = &graph.dimensions;
    let fuel = dims.len() + 1;
    let roots = roots_of(dims);
    let ghost roots_v = ancestry_roots(dv);
    let mut out = String::from_str("Multiverse Ancestry Graph:\n");
    let ghost out0 = out@;
    let mut visited: Vec<String> = Vec::new();
    proof {
        assert(name_set(visited@) =~= Set::<Seq<char>>::empty());
    }
    let mut j: usize = 0;
    while j < roots.len()
        invariant
            j <= roots@.len(),
            roots@.len() == roots_v.len(),
            forall|k: int| 0 <= k < roots@.len() ==> (#[trigger] roots@[k])@ == roots_v[k],
            dv == dim_views(dims@),
            commits_cut_cleanly(dv),
            fuel == dv.len() + 1,
            out@ + render_roots(dv, roots_v, j as int, name_set(visited@), fuel as nat) == out0
                + render_roots(dv, roots_v, 0, Set::empty(), fuel as nat),
        decreases roots.len() - j,
    {
        let root = &roots[j];
        assert(root@ == roots_v[j as int]);
        let ghost vis = name_set(visited@);
        if !is_visited(&visited, root.as_str()) {
            let idx = find_dim(dims, root.as_str());
            let head = dim_head_label(dims, idx);
            proof {
                if let Some(k) = idx {
                    assert(dv[k as int] == dims@[k as int]@);
                }
                assert(head@ == head_label(dim_named(dv, root@)));
            }
            let ghost before = out@;
            out.append("* [");
            out.append(root.as_str());
            out.append("] (origin) [head: ");
            out.append(head.as_str());
            out.append("]\n");
            mark_visited(&mut visited, root.as_str());
            let ghost after_line = out@;
            render_children(dims, root.as_str(), &mut visited, &mut out, "", fuel);
            proof {
                reveal_strlit("");
                let sub = render_kids(
                    dv,
                    root@,
                    child_names(dv, root@),
                    0,
                    vis.insert(root@),
                    Seq::empty(),
                    fuel as nat,
                );
                assert(""@ =~= Seq::<char>::empty());
                assert(out@ == before + "* ["@ + root@ + "] (origin) [head: "@ + head_label(
                    dim_named(dv, root@),
                ) + "]\n"@ + sub.0);
                assert(render_roots(dv, roots_v, j as int, vis, fuel as nat) == "* ["@ + root@
                    + "] (origin) [head: "@ + head_label(dim_named(dv, root@)) + "]\n"@ + sub.0
                    + render_roots(dv, roots_v, j + 1, sub.1, fuel as nat));
            }
        }
        j = j + 1;
    }
    out
}

} // verus!
