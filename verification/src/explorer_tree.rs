//! The Explorer's tree as it is read: the project's files, which folders
//! are open, and which were already asked for.
//!
//! The tree is read in parts: each folder when someone opens it. An empty
//! folder and a folder not read yet look the same in the tree; what tells
//! them apart is the list of folders already asked for.
use vstd::prelude::*;
use crate::explorer::{eq_ascii_case, eq_ignore_ascii_case, FileNode};
use crate::fmt::{str_eq, string_of};
use crate::paths::{
    components, components_of, extension, extension_of, file_name, file_name_of, id, parent,
    parent_of, path_hash, path_starts_with, starts_with_path,
};

verus! {

/// The node whose path is `p`, the first found depth first.
pub open spec fn node_at(node: FileNode, p: Seq<char>) -> Option<FileNode>
    decreases node, 1int,
{
    if node.path@ == p {
        Some(node)
    } else {
        node_at_from(node, 0, p)
    }
}

/// The node whose path is `p` below the children `i..` of `node`.
pub open spec fn node_at_from(node: FileNode, i: int, p: Seq<char>) -> Option<FileNode>
    decreases node, 0int, node.children@.len() - i,
{
    if i < 0 || i >= node.children@.len() {
        None
    } else {
        proof {
            assert(decreases_to!(node => node.children@[i]));
        }
        match node_at(node.children@[i], p) {
            Some(n) => Some(n),
            None => node_at_from(node, i + 1, p),
        }
    }
}

/// The texts of a list of paths.
pub open spec fn paths_view(v: Seq<String>) -> Seq<Seq<char>> {
    v.map_values(|s: String| s@)
}

/// No path twice.
pub open spec fn each_once(v: Seq<Seq<char>>) -> bool {
    forall|i: int, j: int| 0 <= i < j < v.len() ==> v[i] != v[j]
}

/// The files below `node` whose extension is `ext` up to ASCII case, in the
/// order of the tree, from child `i` on when `node` is a folder.
pub open spec fn files_from(node: FileNode, i: int, ext: Seq<char>) -> Seq<Seq<char>>
    decreases node, node.children@.len() - i,
{
    if !node.is_directory {
        match extension_of(node.path@) {
            Some(e) => if i == 0 && eq_ascii_case(e, ext) {
                seq![node.path@]
            } else {
                Seq::empty()
            },
            None => Seq::empty(),
        }
    } else if i < 0 || i >= node.children@.len() {
        Seq::empty()
    } else {
        proof {
            assert(decreases_to!(node => node.children@[i]));
        }
        files_from(node.children@[i], 0, ext) + files_from(node, i + 1, ext)
    }
}

/// The rows drawn for `node` at `depth` and below it: depth and path, depth
/// first, the children of an open folder after it. The root, at depth zero,
/// draws no row of its own.
pub open spec fn rows_of(node: FileNode, depth: nat, open: Set<Seq<char>>) -> Seq<(nat, FileNode)>
    decreases node, 1int,
{
    let own: Seq<(nat, FileNode)> = if depth > 0 {
        seq![((depth - 1) as nat, node)]
    } else {
        Seq::empty()
    };
    own + rows_below(node, depth, 0, open)
}

/// The rows of the children `i..` of `node`, when it is an open folder.
pub open spec fn rows_below(node: FileNode, depth: nat, i: int, open: Set<Seq<char>>) -> Seq<(nat, FileNode)>
    decreases node, 0int, node.children@.len() - i,
{
    if node.is_directory && open.contains(node.path@) && 0 <= i < node.children@.len() {
        proof {
            assert(decreases_to!(node => node.children@[i]));
        }
        rows_of(node.children@[i], depth + 1, open) + rows_below(node, depth, i + 1, open)
    } else {
        Seq::empty()
    }
}

/// How many levels the tree has below and including `node`.
pub open spec fn height(node: FileNode) -> nat
    decreases node, 1int,
{
    1 + height_from(node, 0)
}

/// The tallest of the children `i..` of `node`.
pub open spec fn height_from(node: FileNode, i: int) -> nat
    decreases node, 0int, node.children@.len() - i,
{
    if i < 0 || i >= node.children@.len() {
        0
    } else {
        proof {
            assert(decreases_to!(node => node.children@[i]));
        }
        let a = height(node.children@[i]);
        let b = height_from(node, i + 1);
        if a >= b {
            a
        } else {
            b
        }
    }
}

proof fn lemma_height_child(node: FileNode, i: int, j: int)
    requires
        0 <= i <= j < node.children@.len(),
    ensures
        height(node.children@[j]) <= height_from(node, i),
    decreases j - i,
{
    if i < j {
        lemma_height_child(node, i + 1, j);
    }
}

/// A row as its depth and the node it draws.
pub open spec fn row_view(e: (usize, &FileNode)) -> (nat, FileNode) {
    (e.0 as nat, *e.1)
}

/// Two trees alike: the same paths, kinds and children, all the way down.
pub open spec fn same_node(a: FileNode, b: FileNode) -> bool
    decreases a, 1int,
{
    &&& a.path@ == b.path@
    &&& a.is_directory == b.is_directory
    &&& a.children@.len() == b.children@.len()
    &&& same_kids_from(a, b, 0)
}

/// The children `i..` of `a` and `b` are alike, one by one.
pub open spec fn same_kids_from(a: FileNode, b: FileNode, i: int) -> bool
    decreases a, 0int, a.children@.len() - i,
{
    if i < 0 || i >= a.children@.len() {
        true
    } else {
        proof {
            assert(decreases_to!(a => a.children@[i]));
        }
        same_node(a.children@[i], b.children@[i]) && same_kids_from(a, b, i + 1)
    }
}

/// Two lists of trees alike, one by one.
pub open spec fn same_list(x: Seq<FileNode>, y: Seq<FileNode>) -> bool {
    x.len() == y.len() && forall|i: int| 0 <= i < x.len() ==> same_node(#[trigger] x[i], y[i])
}

proof fn lemma_same_kids(a: FileNode, b: FileNode, i: int)
    requires
        0 <= i <= a.children@.len(),
    ensures
        same_kids_from(a, b, i) <==> forall|j: int| i <= j < a.children@.len() ==> same_node(
            #[trigger] a.children@[j],
            b.children@[j],
        ),
    decreases a.children@.len() - i,
{
    if i < a.children@.len() {
        lemma_same_kids(a, b, i + 1);
    }
}

/// The first folder of `olds` whose path is `p`.
pub open spec fn first_folder(olds: Seq<FileNode>, p: Seq<char>) -> Option<int> {
    if exists|j: int| 0 <= j < olds.len() && olds[j].is_directory && olds[j].path@ == p {
        Some(
            choose|j: int|
                0 <= j < olds.len() && olds[j].is_directory && olds[j].path@ == p && forall|m: int|
                    0 <= m < j ==> !(olds[m].is_directory && olds[m].path@ == p),
        )
    } else {
        None
    }
}

/// `res` is `news` with each folder that came back empty given, when there
/// was one, the children that the first old folder of the same path had:
/// reading a parent says which entries exist, not that they are empty.
pub open spec fn preserved(olds: Seq<FileNode>, news: Seq<FileNode>, res: Seq<FileNode>) -> bool {
    &&& res.len() == news.len()
    &&& forall|i: int|
        0 <= i < news.len() ==> {
            let k = #[trigger] news[i];
            if k.is_directory && k.children@.len() == 0 && first_folder(olds, k.path@) is Some {
                &&& res[i].path == k.path
                &&& res[i].is_directory
                &&& same_list(res[i].children@, olds[first_folder(olds, k.path@)->0].children@)
            } else {
                res[i] == k
            }
        }
}

/// The first child of `node`, from `i` on, below which a node has path `p`.
pub open spec fn first_below(node: FileNode, i: int, p: Seq<char>) -> Option<int>
    decreases node.children@.len() - i,
{
    if i < 0 || i >= node.children@.len() {
        None
    } else if node_at(node.children@[i], p) is Some {
        Some(i)
    } else {
        first_below(node, i + 1, p)
    }
}

/// `after` is `before` with the first node of path `p` (depth first) given
/// the children `kids`, nothing else changed.
pub open spec fn kids_set(before: FileNode, after: FileNode, p: Seq<char>, kids: Seq<FileNode>) -> bool
    decreases before,
{
    if before.path@ == p {
        after.path == before.path && after.is_directory == before.is_directory && after.children@ == kids
    } else {
        match first_below(before, 0, p) {
            Some(k) => {
                &&& 0 <= k < before.children@.len()
                &&& after.path == before.path
                &&& after.is_directory == before.is_directory
                &&& after.children@.len() == before.children@.len()
                &&& forall|j: int|
                    0 <= j < before.children@.len() && j != k ==> after.children@[j] == before.children@[j]
                &&& {
                    proof {
                        assert(decreases_to!(before => before.children@[k]));
                    }
                    kids_set(before.children@[k], after.children@[k], p, kids)
                }
            },
            None => after == before,
        }
    }
}

proof fn lemma_first_below(node: FileNode, i: int, p: Seq<char>)
    requires
        0 <= i,
    ensures
        match first_below(node, i, p) {
            Some(k) => i <= k < node.children@.len() && node_at_from(node, i, p) == node_at(node.children@[k], p)
                && node_at(node.children@[k], p) is Some,
            None => node_at_from(node, i, p) is None,
        },
    decreases node.children@.len() - i,
{
    if i < node.children@.len() {
        lemma_first_below(node, i + 1, p);
    }
}


/// `v` with `p` added at the end when it was not there.
pub open spec fn with_path(v: Seq<Seq<char>>, p: Seq<char>) -> Seq<Seq<char>> {
    if v.contains(p) {
        v
    } else {
        v.push(p)
    }
}

/// `v` with each of `ps` added in turn.
pub open spec fn with_paths(v: Seq<Seq<char>>, ps: Seq<Seq<char>>) -> Seq<Seq<char>>
    decreases ps.len(),
{
    if ps.len() == 0 {
        v
    } else {
        with_path(with_paths(v, ps.drop_last()), ps.last())
    }
}

/// The paths of `v` inside the folder `root`, in order.
pub open spec fn inside(v: Seq<Seq<char>>, root: Seq<char>) -> Seq<Seq<char>>
    decreases v.len(),
{
    if v.len() == 0 {
        v
    } else if path_starts_with(v.last(), root) {
        inside(v.drop_last(), root).push(v.last())
    } else {
        inside(v.drop_last(), root)
    }
}

/// The folders a single-folder chain opens below `node`: its only child,
/// when that is a folder, and so on down.
pub open spec fn chain_below(node: FileNode) -> Seq<Seq<char>>
    decreases node,
{
    if node.children@.len() == 1 && node.children@[0].is_directory {
        proof {
            assert(decreases_to!(node => node.children@[0]));
        }
        seq![node.children@[0].path@] + chain_below(node.children@[0])
    } else {
        Seq::empty()
    }
}

/// The links of the chains below the open folders `v` that are in the tree.
pub open spec fn chains(ws: FileNode, v: Seq<Seq<char>>) -> Seq<Seq<char>>
    decreases v.len(),
{
    if v.len() == 0 {
        Seq::empty()
    } else {
        chains(ws, v.drop_last()) + match node_at(ws, v.last()) {
            Some(n) => chain_below(n),
            None => Seq::empty(),
        }
    }
}

/// Whether the folder `p` still needs its children read.
pub open spec fn needs_children(ws: FileNode, requested: Seq<Seq<char>>, p: Seq<char>) -> bool {
    !requested.contains(p) && match node_at(ws, p) {
        Some(n) => n.children@.len() == 0,
        None => true,
    }
}

/// The open folders that still need their children, in order.
pub open spec fn needing(ws: FileNode, requested: Seq<Seq<char>>, v: Seq<Seq<char>>) -> Seq<Seq<char>>
    decreases v.len(),
{
    if v.len() == 0 {
        v
    } else if needs_children(ws, requested, v.last()) {
        needing(ws, requested, v.drop_last()).push(v.last())
    } else {
        needing(ws, requested, v.drop_last())
    }
}

/// Where `x` goes among `s` ordered by depth, from `j` on: before the first
/// deeper one, so that folders of the same depth keep their order.
pub open spec fn depth_slot(s: Seq<Seq<char>>, x: Seq<char>, j: int) -> int
    decreases s.len() - j,
{
    if j < 0 || j >= s.len() {
        s.len() as int
    } else if components_of(x).len() < components_of(s[j]).len() {
        j
    } else {
        depth_slot(s, x, j + 1)
    }
}

/// `s` ordered by depth (how many components), the shallow first.
pub open spec fn by_depth(s: Seq<Seq<char>>) -> Seq<Seq<char>>
    decreases s.len(),
{
    if s.len() == 0 {
        s
    } else {
        let t = by_depth(s.drop_last());
        t.insert(depth_slot(t, s.last(), 0), s.last())
    }
}

/// The trees `trees[0]`, `trees[1]`, ... as the levels are stored in turn,
/// each as `stored` says, and whether each changed its tree.
pub open spec fn stored_steps(
    trees: Seq<FileNode>,
    flags: Seq<bool>,
    levels: Seq<(Seq<char>, Seq<FileNode>)>,
) -> bool {
    &&& trees.len() == levels.len() + 1
    &&& flags.len() == levels.len()
    &&& forall|i: int|
        0 <= i < levels.len() ==> stored(trees[i], trees[i + 1], levels[i].0, levels[i].1, #[trigger] flags[i])
}

/// The folders of the levels read.
pub open spec fn level_names(l: Seq<(String, Vec<FileNode>)>) -> Seq<Seq<char>> {
    l.map_values(|x: (String, Vec<FileNode>)| x.0@)
}

/// The levels read, as folder and children.
pub open spec fn level_views(l: Seq<(String, Vec<FileNode>)>) -> Seq<(Seq<char>, Seq<FileNode>)> {
    l.map_values(|x: (String, Vec<FileNode>)| (x.0@, x.1@))
}


/// The path and its ancestors, the path first: `Path::ancestors`.
pub open spec fn ancestors_from(p: Seq<char>) -> Seq<Seq<char>>
    decreases p.len(),
{
    match parent_of(p) {
        Some(q) => if q.len() < p.len() {
            seq![p] + ancestors_from(q)
        } else {
            seq![p]
        },
        None => seq![p],
    }
}

/// The paths of `v` from the start while they are inside `root`.
pub open spec fn while_inside(v: Seq<Seq<char>>, root: Seq<char>) -> Seq<Seq<char>>
    decreases v.len(),
{
    if v.len() == 0 || !path_starts_with(v[0], root) {
        Seq::empty()
    } else {
        seq![v[0]] + while_inside(v.drop_first(), root)
    }
}

/// The first node whose identity is `id`, depth first.
pub open spec fn node_with_id(node: FileNode, id: u64) -> Option<FileNode>
    decreases node, 1int,
{
    if path_hash(node.path@) == id {
        Some(node)
    } else {
        node_with_id_from(node, 0, id)
    }
}

/// The first node whose identity is `id` below the children `i..` of `node`.
pub open spec fn node_with_id_from(node: FileNode, i: int, id: u64) -> Option<FileNode>
    decreases node, 0int, node.children@.len() - i,
{
    if i < 0 || i >= node.children@.len() {
        None
    } else {
        proof {
            assert(decreases_to!(node => node.children@[i]));
        }
        match node_with_id(node.children@[i], id) {
            Some(n) => Some(n),
            None => node_with_id_from(node, i + 1, id),
        }
    }
}

/// The first visible line after bringing row `row` into view, when `fits`
/// rows fit from `first`: unchanged when it is already in view, else two
/// rows above it, so that the parent shows too.
pub open spec fn line_to_show(row: int, first: int, fits: int) -> int {
    if first <= row < first + fits {
        first
    } else if row >= 2 {
        row - 2
    } else {
        0
    }
}


/// The Explorer's tree: the project's name and files, the open folders and
/// the folders whose children were already asked for, each path once.
#[derive(Debug)]
pub struct ExplorerTree {
    pub workspace_name: String,
    pub workspace: FileNode,
    pub expanded: Vec<String>,
    pub requested: Vec<String>,
}

/// Whether `path` is among `v`.
fn contains_path(v: &Vec<String>, path: &str) -> (r: bool)
    ensures
        r == paths_view(v@).contains(path@),
{
    let mut i: usize = 0;
    while i < v.len()
        invariant
            0 <= i <= v@.len(),
            forall|k: int| 0 <= k < i ==> paths_view(v@)[k] != path@,
        decreases v@.len() - i,
    {
        if str_eq(v[i].as_str(), path) {
            proof {
                assert(paths_view(v@)[i as int] == path@);
            }
            return true;
        }
        i = i + 1;
    }
    false
}

/// The node whose path is `path`, the first found depth first.
pub fn find_node<'a>(node: &'a FileNode, path: &str) -> (r: Option<&'a FileNode>)
    ensures
        match r {
            Some(n) => node_at(*node, path@) == Some(*n),
            None => node_at(*node, path@) is None,
        },
    decreases node,
{
    if str_eq(node.path.as_str(), path) {
        return Some(node);
    }
    let mut i: usize = 0;
    while i < node.children.len()
        invariant
            0 <= i <= node.children@.len(),
            node.path@ != path@,
            node_at(*node, path@) == node_at_from(*node, i as int, path@),
        decreases node.children@.len() - i,
    {
        proof {
            assert(decreases_to!(*node => node.children@[i as int]));
        }
        match find_node(&node.children[i], path) {
            Some(n) => {
                return Some(n);
            },
            None => {},
        }
        i = i + 1;
    }
    None
}

fn collect_files(node: &FileNode, ext: &str, out: &mut Vec<String>)
    ensures
        paths_view(final(out)@) == paths_view(old(out)@) + files_from(*node, 0, ext@),
    decreases node,
{
    if node.is_directory {
        let mut i: usize = 0;
        while i < node.children.len()
            invariant
                0 <= i <= node.children@.len(),
                node.is_directory,
                paths_view(out@) + files_from(*node, i as int, ext@) == paths_view(old(out)@) + files_from(
                    *node,
                    0,
                    ext@,
                ),
            decreases node.children@.len() - i,
        {
            proof {
                assert(decreases_to!(*node => node.children@[i as int]));
            }
            let ghost before = paths_view(out@);
            collect_files(&node.children[i], ext, out);
            proof {
                assert(before + files_from(*node, i as int, ext@) =~= before + files_from(
                    node.children@[i as int],
                    0,
                    ext@,
                ) + files_from(*node, i + 1, ext@));
            }
            i = i + 1;
        }
        proof {
            assert(files_from(*node, i as int, ext@) =~= Seq::<Seq<char>>::empty());
        }
    } else {
        match extension(node.path.as_str()) {
            Some(e) => {
                if eq_ignore_ascii_case(e.as_str(), ext) {
                    let ghost before = out@;
                    out.push(node.path.clone());
                    proof {
                        assert(paths_view(out@) =~= paths_view(before) + seq![node.path@]);
                    }
                } else {
                    proof {
                        assert(paths_view(out@) =~= paths_view(out@) + Seq::<Seq<char>>::empty());
                    }
                }
            },
            None => {
                proof {
                    assert(paths_view(out@) =~= paths_view(out@) + Seq::<Seq<char>>::empty());
                }
            },
        }
    }
}

fn collect_rows<'a>(node: &'a FileNode, depth: usize, expanded: &Vec<String>, out: &mut Vec<(usize, &'a FileNode)>)
    requires
        depth + height(*node) <= usize::MAX,
    ensures
        final(out)@.map_values(|e: (usize, &FileNode)| row_view(e)) == old(out)@.map_values(
            |e: (usize, &FileNode)| row_view(e),
        ) + rows_of(*node, depth as nat, paths_view(expanded@).to_set()),
    decreases node,
{
    let ghost open = paths_view(expanded@).to_set();
    let ghost start = old(out)@.map_values(|e: (usize, &FileNode)| row_view(e));
    if depth > 0 {
        let ghost before = out@;
        out.push((depth - 1, node));
        proof {
            assert(out@.map_values(|e: (usize, &FileNode)| row_view(e)) =~= before.map_values(
                |e: (usize, &FileNode)| row_view(e),
            ).push(((depth - 1) as nat, *node)));
        }
    }
    let ghost own: Seq<(nat, FileNode)> = if depth > 0 {
        seq![((depth - 1) as nat, *node)]
    } else {
        Seq::empty()
    };
    proof {
        assert(out@.map_values(|e: (usize, &FileNode)| row_view(e)) =~= start + own);
    }
    let open_here = node.is_directory && contains_path(expanded, node.path.as_str());
    proof {
        assert(paths_view(expanded@).contains(node.path@) == open.contains(node.path@));
    }
    if open_here {
        let mut i: usize = 0;
        while i < node.children.len()
            invariant
                0 <= i <= node.children@.len(),
                node.is_directory && open.contains(node.path@),
                open == paths_view(expanded@).to_set(),
                depth + height(*node) <= usize::MAX,
                out@.map_values(|e: (usize, &FileNode)| row_view(e)) + rows_below(*node, depth as nat, i as int, open)
                    == start + own + rows_below(*node, depth as nat, 0, open),
            decreases node.children@.len() - i,
        {
            proof {
                assert(decreases_to!(*node => node.children@[i as int]));
                lemma_height_child(*node, 0, i as int);
            }
            let ghost before = out@.map_values(|e: (usize, &FileNode)| row_view(e));
            collect_rows(&node.children[i], depth + 1, expanded, out);
            proof {
                assert(before + rows_below(*node, depth as nat, i as int, open) =~= before + rows_of(
                    node.children@[i as int],
                    (depth + 1) as nat,
                    open,
                ) + rows_below(*node, depth as nat, i + 1, open));
            }
            i = i + 1;
        }
        proof {
            assert(rows_below(*node, depth as nat, i as int, open) =~= Seq::<(nat, FileNode)>::empty());
            assert(out@.map_values(|e: (usize, &FileNode)| row_view(e)) =~= out@.map_values(
                |e: (usize, &FileNode)| row_view(e),
            ) + Seq::<(nat, FileNode)>::empty());
        }
    } else {
        proof {
            assert(rows_below(*node, depth as nat, 0, open) =~= Seq::<(nat, FileNode)>::empty());
        }
    }
    proof {
        assert(start + rows_of(*node, depth as nat, open) =~= start + own + rows_below(*node, depth as nat, 0, open));
    }
}


fn same_nodes(a: &FileNode, b: &FileNode) -> (r: bool)
    ensures
        r == same_node(*a, *b),
    decreases a,
{
    if !str_eq(a.path.as_str(), b.path.as_str()) || a.is_directory != b.is_directory
        || a.children.len() != b.children.len() {
        return false;
    }
    let mut i: usize = 0;
    while i < a.children.len()
        invariant
            0 <= i <= a.children@.len(),
            a.children@.len() == b.children@.len(),
            forall|j: int| 0 <= j < i ==> same_node(#[trigger] a.children@[j], b.children@[j]),
        decreases a.children@.len() - i,
    {
        proof {
            assert(decreases_to!(*a => a.children@[i as int]));
        }
        if !same_nodes(&a.children[i], &b.children[i]) {
            proof {
                lemma_same_kids(*a, *b, 0);
            }
            return false;
        }
        i = i + 1;
    }
    proof {
        lemma_same_kids(*a, *b, 0);
    }
    true
}

fn same_lists(x: &Vec<FileNode>, y: &Vec<FileNode>) -> (r: bool)
    ensures
        r == same_list(x@, y@),
{
    if x.len() != y.len() {
        return false;
    }
    let mut i: usize = 0;
    while i < x.len()
        invariant
            0 <= i <= x@.len(),
            x@.len() == y@.len(),
            forall|j: int| 0 <= j < i ==> same_node(#[trigger] x@[j], y@[j]),
        decreases x@.len() - i,
    {
        if !same_nodes(&x[i], &y[i]) {
            return false;
        }
        i = i + 1;
    }
    true
}

fn copy_node(n: &FileNode) -> (r: FileNode)
    ensures
        same_node(r, *n),
    decreases n,
{
    let mut kids: Vec<FileNode> = Vec::new();
    let mut i: usize = 0;
    while i < n.children.len()
        invariant
            0 <= i <= n.children@.len(),
            kids@.len() == i,
            forall|j: int| 0 <= j < i ==> same_node(#[trigger] kids@[j], n.children@[j]),
        decreases n.children@.len() - i,
    {
        proof {
            assert(decreases_to!(*n => n.children@[i as int]));
        }
        kids.push(copy_node(&n.children[i]));
        i = i + 1;
    }
    let r = FileNode { path: n.path.clone(), is_directory: n.is_directory, children: kids };
    proof {
        lemma_same_kids(r, *n, 0);
    }
    r
}

fn copy_list(v: &Vec<FileNode>) -> (r: Vec<FileNode>)
    ensures
        same_list(r@, v@),
{
    let mut out: Vec<FileNode> = Vec::new();
    let mut i: usize = 0;
    while i < v.len()
        invariant
            0 <= i <= v@.len(),
            out@.len() == i,
            forall|j: int| 0 <= j < i ==> same_node(#[trigger] out@[j], v@[j]),
        decreases v@.len() - i,
    {
        out.push(copy_node(&v[i]));
        i = i + 1;
    }
    out
}

fn first_folder_of(olds: &Vec<FileNode>, p: &str) -> (r: Option<usize>)
    ensures
        r matches Some(j) ==> j < olds@.len() && first_folder(olds@, p@) == Some(j as int),
        r is None ==> first_folder(olds@, p@) is None,
{
    let mut j: usize = 0;
    while j < olds.len()
        invariant
            0 <= j <= olds@.len(),
            forall|m: int| 0 <= m < j ==> !(olds@[m].is_directory && olds@[m].path@ == p@),
        decreases olds@.len() - j,
    {
        if olds[j].is_directory && str_eq(olds[j].path.as_str(), p) {
            proof {
                let c = choose|c: int|
                    0 <= c < olds@.len() && olds@[c].is_directory && olds@[c].path@ == p@ && forall|m: int|
                        0 <= m < c ==> !(olds@[m].is_directory && olds@[m].path@ == p@);
                if c < j {
                    assert(!(olds@[c].is_directory && olds@[c].path@ == p@));
                } else if j < c {
                    assert(!(olds@[j as int].is_directory && olds@[j as int].path@ == p@));
                }
            }
            return Some(j);
        }
        j = j + 1;
    }
    None
}

/// The children read for a folder, each folder that came back empty given
/// the children its old namesake had.
fn keep_subtrees(olds: &Vec<FileNode>, news: Vec<FileNode>) -> (r: Vec<FileNode>)
    ensures
        preserved(olds@, news@, r@),
{
    let ghost all = news@;
    let mut news = news;
    let mut out: Vec<FileNode> = Vec::new();
    while news.len() > 0
        invariant
            out@.len() + news@.len() == all.len(),
            news@ == all.skip(out@.len() as int),
            forall|i: int|
                0 <= i < out@.len() ==> {
                    let k = #[trigger] all[i];
                    if k.is_directory && k.children@.len() == 0 && first_folder(olds@, k.path@) is Some {
                        &&& out@[i].path == k.path
                        &&& out@[i].is_directory
                        &&& same_list(out@[i].children@, olds@[first_folder(olds@, k.path@)->0].children@)
                    } else {
                        out@[i] == k
                    }
                },
        decreases news@.len(),
    {
        let ghost n0 = out@.len() as int;
        let k = news.remove(0);
        proof {
            assert(k == all[n0]);
            assert(news@ =~= all.skip(n0 + 1));
        }
        let ghost prev = out@;
        if k.is_directory && k.children.len() == 0 {
            match first_folder_of(olds, k.path.as_str()) {
                Some(j) => {
                    let children = copy_list(&olds[j].children);
                    let ghost kp = k.path;
                    out.push(FileNode { path: k.path, is_directory: true, children });
                    proof {
                        assert(out@[n0].path == kp);
                        assert(first_folder(olds@, all[n0].path@) == Some(j as int));
                    }
                },
                None => {
                    out.push(k);
                },
            }
        } else {
            out.push(k);
        }
        proof {
            assert forall|i: int| 0 <= i < n0 implies out@[i] == prev[i] by {}
        }
    }
    out
}


/// What storing `kids` as the children of the folder `p` below `before`
/// does: `after` and the answer `changed`. The first node of that path,
/// depth first, takes the children read, with the subtrees kept; the
/// answer says whether its content changed. No such node: nothing changes.
pub open spec fn stored(before: FileNode, after: FileNode, p: Seq<char>, kids: Seq<FileNode>, changed: bool) -> bool {
    match node_at(before, p) {
        None => !changed && after == before,
        Some(m) => exists|res: Seq<FileNode>|
            #[trigger] preserved(m.children@, kids, res) && changed == !same_list(m.children@, res) && kids_set(
                before,
                after,
                p,
                if changed {
                    res
                } else {
                    m.children@
                },
            ),
    }
}

fn insert_into(node: &mut FileNode, path: &str, kids: Vec<FileNode>) -> (r: bool)
    ensures
        stored(*old(node), *final(node), path@, kids@, r),
    decreases *old(node),
{
    if str_eq(node.path.as_str(), path) {
        let res = keep_subtrees(&node.children, kids);
        proof {
            assert(node_at(*old(node), path@) == Some(*old(node)));
            assert(node_at(*old(node), path@)->0 == *old(node));
        }
        if same_lists(&node.children, &res) {
            proof {
                let m = *old(node);
                assert(preserved(m.children@, kids@, res@) && false == !same_list(m.children@, res@) && kids_set(
                    *old(node),
                    *node,
                    path@,
                    m.children@,
                ));
                assert(stored(*old(node), *node, path@, kids@, false));
            }
            return false;
        }
        let ghost res_view = res@;
        node.children = res;
        proof {
            let m = *old(node);
            assert(preserved(m.children@, kids@, res_view) && true == !same_list(m.children@, res_view) && kids_set(
                *old(node),
                *node,
                path@,
                res_view,
            ));
            assert(stored(*old(node), *node, path@, kids@, true));
        }
        return true;
    }
    let mut i: usize = 0;
    let mut hit: Option<usize> = None;
    while i < node.children.len()
        invariant_except_break
            hit is None,
        invariant
            0 <= i <= node.children@.len(),
            first_below(*node, 0, path@) == first_below(*node, i as int, path@),
        ensures
            match hit {
                Some(k) => k < node.children@.len() && first_below(*node, 0, path@) == Some(k as int),
                None => first_below(*node, 0, path@) is None,
            },
        decreases node.children@.len() - i,
    {
        if find_node(&node.children[i], path).is_some() {
            hit = Some(i);
            break;
        }
        i = i + 1;
    }
    proof {
        lemma_first_below(*node, 0, path@);
    }
    match hit {
        Some(k) => {
            proof {
                assert(decreases_to!(*node => node.children@[k as int]));
            }
            let ghost child = node.children@[k as int];
            let r = insert_into(&mut node.children[k], path, kids);
            proof {
                let m = node_at(child, path@)->0;
                assert(node_at(*old(node), path@) == Some(m));
                let res = choose|res: Seq<FileNode>|
                    #[trigger] preserved(m.children@, kids@, res) && r == !same_list(m.children@, res) && kids_set(
                        child,
                        node.children@[k as int],
                        path@,
                        if r {
                            res
                        } else {
                            m.children@
                        },
                    );
                assert(preserved(m.children@, kids@, res));
            }
            r
        },
        None => false,
    }
}


fn add_path(v: &mut Vec<String>, p: &str)
    requires
        each_once(paths_view(old(v)@)),
    ensures
        each_once(paths_view(final(v)@)),
        paths_view(final(v)@) == with_path(paths_view(old(v)@), p@),
{
    if contains_path(v, p) {
        return;
    }
    let ghost before = v@;
    v.push(string_of(p));
    proof {
        assert(paths_view(v@) =~= paths_view(before).push(p@));
    }
}

fn add_paths(v: &mut Vec<String>, ps: &Vec<String>)
    requires
        each_once(paths_view(old(v)@)),
    ensures
        each_once(paths_view(final(v)@)),
        paths_view(final(v)@) == with_paths(paths_view(old(v)@), paths_view(ps@)),
{
    let mut i: usize = 0;
    while i < ps.len()
        invariant
            0 <= i <= ps@.len(),
            each_once(paths_view(v@)),
            paths_view(v@) == with_paths(paths_view(old(v)@), paths_view(ps@.take(i as int))),
        decreases ps@.len() - i,
    {
        proof {
            assert(paths_view(ps@.take(i + 1)).drop_last() =~= paths_view(ps@.take(i as int)));
        }
        add_path(v, ps[i].as_str());
        i = i + 1;
    }
    proof {
        assert(ps@.take(ps@.len() as int) =~= ps@);
    }
}

fn push_chain(node: &FileNode, out: &mut Vec<String>)
    ensures
        paths_view(final(out)@) == paths_view(old(out)@) + chain_below(*node),
    decreases node,
{
    if node.children.len() == 1 && node.children[0].is_directory {
        proof {
            assert(decreases_to!(*node => node.children@[0]));
        }
        let ghost before = out@;
        out.push(node.children[0].path.clone());
        proof {
            assert(paths_view(out@) =~= paths_view(before).push(node.children@[0].path@));
        }
        push_chain(&node.children[0], out);
        proof {
            assert(paths_view(before) + chain_below(*node) =~= paths_view(before).push(node.children@[0].path@)
                + chain_below(node.children@[0]));
        }
    } else {
        proof {
            assert(paths_view(out@) =~= paths_view(out@) + Seq::<Seq<char>>::empty());
        }
    }
}

fn depth_slot_of(s: &Vec<String>, x: &str) -> (r: usize)
    ensures
        r == depth_slot(paths_view(s@), x@, 0),
{
    let kx = components(x).len();
    let mut j: usize = 0;
    while j < s.len()
        invariant
            0 <= j <= s@.len(),
            kx == components_of(x@).len(),
            depth_slot(paths_view(s@), x@, 0) == depth_slot(paths_view(s@), x@, j as int),
        decreases s@.len() - j,
    {
        let kj = components(s[j].as_str()).len();
        proof {
            assert(paths_view(s@)[j as int] == s@[j as int]@);
        }
        if kx < kj {
            return j;
        }
        j = j + 1;
    }
    j
}

proof fn lemma_depth_slot(s: Seq<Seq<char>>, x: Seq<char>, j: int)
    requires
        0 <= j <= s.len(),
    ensures
        j <= depth_slot(s, x, j) <= s.len(),
    decreases s.len() - j,
{
    if j < s.len() {
        lemma_depth_slot(s, x, j + 1);
    }
}


proof fn lemma_inside(v: Seq<Seq<char>>, root: Seq<char>)
    requires
        each_once(v),
    ensures
        each_once(inside(v, root)),
        forall|x: Seq<char>| inside(v, root).contains(x) ==> v.contains(x),
    decreases v.len(),
{
    if v.len() > 0 {
        let t = inside(v.drop_last(), root);
        assert(each_once(v.drop_last())) by {
            assert forall|i: int, j: int| 0 <= i < j < v.drop_last().len() implies v.drop_last()[i] != v.drop_last()[j] by {
                assert(v.drop_last()[i] == v[i] && v.drop_last()[j] == v[j]);
            }
        }
        lemma_inside(v.drop_last(), root);
        assert forall|x: Seq<char>| v.drop_last().contains(x) implies v.contains(x) by {
            let k = choose|k: int| 0 <= k < v.drop_last().len() && v.drop_last()[k] == x;
            assert(v[k] == x);
        }
        if path_starts_with(v.last(), root) {
            let u = t.push(v.last());
            assert(!t.contains(v.last())) by {
                if t.contains(v.last()) {
                    assert(v.drop_last().contains(v.last()));
                    let k = choose|k: int| 0 <= k < v.drop_last().len() && v.drop_last()[k] == v.last();
                    assert(v[k] == v[v.len() - 1]);
                }
            }
            assert forall|i: int, j: int| 0 <= i < j < u.len() implies u[i] != u[j] by {
                if j == u.len() - 1 {
                    assert(t.contains(u[i]));
                }
            }
            assert forall|x: Seq<char>| u.contains(x) implies v.contains(x) by {
                let k = choose|k: int| 0 <= k < u.len() && u[k] == x;
                if k == u.len() - 1 {
                    assert(v[v.len() - 1] == x);
                } else {
                    assert(t.contains(x));
                }
            }
        }
    }
}


proof fn lemma_with_paths_contains(v: Seq<Seq<char>>, ps: Seq<Seq<char>>, x: Seq<char>)
    ensures
        with_paths(v, ps).contains(x) <==> (v.contains(x) || ps.contains(x)),
    decreases ps.len(),
{
    if ps.len() > 0 {
        lemma_with_paths_contains(v, ps.drop_last(), x);
        let w = with_paths(v, ps.drop_last());
        if ps.drop_last().contains(x) {
            let k = choose|k: int| 0 <= k < ps.drop_last().len() && ps.drop_last()[k] == x;
            assert(ps[k] == x);
        }
        if ps.contains(x) && ps.last() != x {
            let k = choose|k: int| 0 <= k < ps.len() && ps[k] == x;
            assert(ps.drop_last()[k] == x);
        }
        if !w.contains(ps.last()) {
            assert(w.push(ps.last())[w.len() as int] == ps.last());
            if w.contains(x) {
                let k = choose|k: int| 0 <= k < w.len() && w[k] == x;
                assert(w.push(ps.last())[k] == x);
            }
            if w.push(ps.last()).contains(x) && x != ps.last() {
                let k = choose|k: int| 0 <= k < w.len() + 1 && w.push(ps.last())[k] == x;
                assert(w[k] == x);
            }
        }
    }
}

proof fn lemma_by_depth_contains(s: Seq<Seq<char>>, x: Seq<char>)
    ensures
        by_depth(s).contains(x) <==> s.contains(x),
        by_depth(s).len() == s.len(),
    decreases s.len(),
{
    if s.len() > 0 {
        let t = by_depth(s.drop_last());
        lemma_by_depth_contains(s.drop_last(), x);
        lemma_depth_slot(t, s.last(), 0);
        let p = depth_slot(t, s.last(), 0);
        let u = t.insert(p, s.last());
        if s.drop_last().contains(x) {
            let k = choose|k: int| 0 <= k < s.drop_last().len() && s.drop_last()[k] == x;
            assert(s[k] == x);
        }
        if s.contains(x) && s.last() != x {
            let k = choose|k: int| 0 <= k < s.len() && s[k] == x;
            assert(s.drop_last()[k] == x);
        }
        if t.contains(x) {
            let k = choose|k: int| 0 <= k < t.len() && t[k] == x;
            if k < p {
                assert(u[k] == x);
            } else {
                assert(u[k + 1] == x);
            }
        }
        assert(u[p] == s.last());
        if u.contains(x) && x != s.last() {
            let k = choose|k: int| 0 <= k < u.len() && u[k] == x;
            if k < p {
                assert(t[k] == x);
            } else {
                assert(t[k - 1] == x);
            }
        }
    }
}

proof fn lemma_needing_contains(ws: FileNode, req: Seq<Seq<char>>, v: Seq<Seq<char>>, x: Seq<char>)
    ensures
        needing(ws, req, v).contains(x) <==> (v.contains(x) && needs_children(ws, req, x)),
    decreases v.len(),
{
    if v.len() > 0 {
        lemma_needing_contains(ws, req, v.drop_last(), x);
        let t = needing(ws, req, v.drop_last());
        if v.drop_last().contains(x) {
            let k = choose|k: int| 0 <= k < v.drop_last().len() && v.drop_last()[k] == x;
            assert(v[k] == x);
        }
        if v.contains(x) && v.last() != x {
            let k = choose|k: int| 0 <= k < v.len() && v[k] == x;
            assert(v.drop_last()[k] == x);
        }
        if needs_children(ws, req, v.last()) {
            assert(t.push(v.last())[t.len() as int] == v.last());
            if t.contains(x) {
                let k = choose|k: int| 0 <= k < t.len() && t[k] == x;
                assert(t.push(v.last())[k] == x);
            }
            if t.push(v.last()).contains(x) && x != v.last() {
                let k = choose|k: int| 0 <= k < t.len() + 1 && t.push(v.last())[k] == x;
                assert(t[k] == x);
            }
        }
    }
}

/// Asking once per folder settles it: right after the open folders that
/// needed their children were asked for, none of them is asked for again,
/// though an empty folder still looks like one not read.
pub proof fn law_each_folder_is_asked_for_once(ws: FileNode, requested: Seq<Seq<char>>, expanded: Seq<Seq<char>>)
    ensures
        needing(ws, with_paths(requested, by_depth(needing(ws, requested, expanded))), expanded).len() == 0,
{
    let asked = by_depth(needing(ws, requested, expanded));
    let after = with_paths(requested, asked);
    let left = needing(ws, after, expanded);
    if left.len() > 0 {
        let x = left[0];
        assert(left.contains(x));
        lemma_needing_contains(ws, after, expanded, x);
        lemma_with_paths_contains(requested, asked, x);
        lemma_by_depth_contains(needing(ws, requested, expanded), x);
        lemma_needing_contains(ws, requested, expanded, x);
        assert(!requested.contains(x));
        assert(needs_children(ws, requested, x));
        assert(after.contains(x));
        assert(false);
    }
}

fn ancestors_of(path: &str) -> (r: Vec<String>)
    ensures
        paths_view(r@) == ancestors_from(path@),
{
    let mut out: Vec<String> = Vec::new();
    let mut current = string_of(path);
    let ghost start = path@;
    loop
        invariant
            start == path@,
            paths_view(out@) + ancestors_from(current@) == ancestors_from(start),
        decreases current@.len(),
    {
        let ghost before = paths_view(out@);
        let ghost cur = current@;
        out.push(current.clone());
        proof {
            assert(paths_view(out@) =~= before.push(cur));
        }
        match parent(current.as_str()) {
            Some(q) => {
                proof {
                    assert(ancestors_from(cur) == seq![cur] + ancestors_from(q@));
                    assert(before + ancestors_from(cur) =~= before.push(cur) + ancestors_from(q@));
                }
                current = q;
            },
            None => {
                proof {
                    assert(ancestors_from(cur) == seq![cur]);
                    assert(before + ancestors_from(cur) =~= before.push(cur));
                    assert(paths_view(out@) == ancestors_from(start));
                }
                return out;
            },
        }
    }
}

fn find_by_id<'a>(node: &'a FileNode, target: u64) -> (r: Option<&'a FileNode>)
    ensures
        match r {
            Some(n) => node_with_id(*node, target) == Some(*n),
            None => node_with_id(*node, target) is None,
        },
    decreases node,
{
    if id(node.path.as_str()) == target {
        return Some(node);
    }
    let mut i: usize = 0;
    while i < node.children.len()
        invariant
            0 <= i <= node.children@.len(),
            path_hash(node.path@) != target,
            node_with_id(*node, target) == node_with_id_from(*node, i as int, target),
        decreases node.children@.len() - i,
    {
        proof {
            assert(decreases_to!(*node => node.children@[i as int]));
        }
        match find_by_id(&node.children[i], target) {
            Some(n) => {
                return Some(n);
            },
            None => {},
        }
        i = i + 1;
    }
    None
}

/// The first visible line that shows row `row`, when `fits` rows fit from
/// `first`: scrolling only when the row is out of view, and then to two rows
/// above it.
pub fn scroll_to_show(row: usize, first: usize, fits: usize) -> (r: usize)
    ensures
        r == line_to_show(row as int, first as int, fits as int),
{
    if row >= first && row - first < fits {
        first
    } else if row >= 2 {
        row - 2
    } else {
        0
    }
}


impl ExplorerTree {
    /// Each open folder and each folder asked for is listed once.
    pub open spec fn wf(&self) -> bool {
        &&& each_once(paths_view(self.expanded@))
        &&& each_once(paths_view(self.requested@))
    }

    /// The tree of a project as first read: the root open, nothing asked for.
    pub fn from_tree(workspace: FileNode) -> (r: Self)
        ensures
            r.wf(),
            r.workspace == workspace,
            r.workspace_name@ == match file_name_of(workspace.path@) {
                Some(n) => n,
                None => "workspace"@,
            },
            paths_view(r.expanded@) == seq![workspace.path@],
            r.requested@.len() == 0,
    {
        let name = match file_name(workspace.path.as_str()) {
            Some(n) => n,
            None => string_of("workspace"),
        };
        let mut expanded: Vec<String> = Vec::new();
        expanded.push(workspace.path.clone());
        proof {
            assert(paths_view(expanded@) =~= seq![workspace.path@]);
        }
        ExplorerTree { workspace_name: name, workspace, expanded, requested: Vec::new() }
    }

    /// Another tree for the project: its name from the root, the folders
    /// open that are still inside it kept open, the root open, and
    /// everything to read again.
    pub fn replace_workspace(&mut self, workspace: FileNode)
        requires
            old(self).wf(),
        ensures
            final(self).wf(),
            final(self).workspace == workspace,
            final(self).workspace_name@ == match file_name_of(workspace.path@) {
                Some(n) => n,
                None => "workspace"@,
            },
            paths_view(final(self).expanded@) == with_path(
                inside(paths_view(old(self).expanded@), workspace.path@),
                workspace.path@,
            ),
            final(self).requested@.len() == 0,
    {
        self.workspace_name = match file_name(workspace.path.as_str()) {
            Some(n) => n,
            None => string_of("workspace"),
        };
        let mut kept: Vec<String> = Vec::new();
        let mut i: usize = 0;
        let ghost old_v = paths_view(self.expanded@);
        while i < self.expanded.len()
            invariant
                0 <= i <= self.expanded@.len(),
                old_v == paths_view(self.expanded@),
                paths_view(kept@) == inside(old_v.take(i as int), workspace.path@),
            decreases self.expanded@.len() - i,
        {
            proof {
                assert(old_v.take(i + 1).drop_last() =~= old_v.take(i as int));
            }
            if starts_with_path(self.expanded[i].as_str(), workspace.path.as_str()) {
                let ghost before = kept@;
                kept.push(self.expanded[i].clone());
                proof {
                    assert(paths_view(kept@) =~= paths_view(before).push(old_v[i as int]));
                }
            }
            i = i + 1;
        }
        proof {
            assert(old_v.take(old_v.len() as int) =~= old_v);
            lemma_inside(old_v, workspace.path@);
        }
        add_path(&mut kept, workspace.path.as_str());
        self.expanded = kept;
        self.requested = Vec::new();
        self.workspace = workspace;
        proof {
            assert(paths_view(self.requested@) =~= Seq::<Seq<char>>::empty());
        }
    }

    /// Stores the children read for the folder `path`: the first node of
    /// that path takes them, each folder that came back empty keeping the
    /// subtree it had. The answer says whether the content changed.
    pub fn insert_children_at(&mut self, path: &str, children: Vec<FileNode>) -> (r: bool)
        ensures
            stored(old(self).workspace, final(self).workspace, path@, children@, r),
            final(self).expanded == old(self).expanded,
            final(self).requested == old(self).requested,
            final(self).workspace_name == old(self).workspace_name,
    {
        insert_into(&mut self.workspace, path, children)
    }

    /// Opens the links of single-folder chains below the open folders: the
    /// tree joins such a chain into one row, named by its last folder, and
    /// opening the first should open the row.
    pub fn expand_single_child_chains(&mut self)
        requires
            old(self).wf(),
        ensures
            final(self).wf(),
            final(self).workspace == old(self).workspace,
            final(self).requested == old(self).requested,
            paths_view(final(self).expanded@) == with_paths(
                paths_view(old(self).expanded@),
                chains(old(self).workspace, paths_view(old(self).expanded@)),
            ),
    {
        let mut novos: Vec<String> = Vec::new();
        let mut i: usize = 0;
        let ghost v = paths_view(self.expanded@);
        while i < self.expanded.len()
            invariant
                0 <= i <= self.expanded@.len(),
                v == paths_view(self.expanded@),
                paths_view(novos@) == chains(self.workspace, v.take(i as int)),
            decreases self.expanded@.len() - i,
        {
            proof {
                assert(v.take(i + 1).drop_last() =~= v.take(i as int));
                assert(v[i as int] == self.expanded@[i as int]@);
            }
            let ghost before = paths_view(novos@);
            match find_node(&self.workspace, self.expanded[i].as_str()) {
                Some(n) => {
                    push_chain(n, &mut novos);
                },
                None => {
                    proof {
                        assert(before =~= before + Seq::<Seq<char>>::empty());
                    }
                },
            }
            i = i + 1;
        }
        proof {
            assert(v.take(v.len() as int) =~= v);
        }
        add_paths(&mut self.expanded, &novos);
    }

    /// Asks for the children of the open folders that still need them, the
    /// shallow first, so that each answer finds its parent in the tree;
    /// each is marked as asked for. The answer lists them in that order.
    pub fn request_expanded_directories(&mut self) -> (r: Vec<String>)
        requires
            old(self).wf(),
        ensures
            final(self).wf(),
            final(self).workspace == old(self).workspace,
            final(self).expanded == old(self).expanded,
            paths_view(r@) == by_depth(
                needing(old(self).workspace, paths_view(old(self).requested@), paths_view(old(self).expanded@)),
            ),
            paths_view(final(self).requested@) == with_paths(paths_view(old(self).requested@), paths_view(r@)),
    {
        let ghost v = paths_view(self.expanded@);
        let ghost req = paths_view(self.requested@);
        let mut pastas: Vec<String> = Vec::new();
        let mut i: usize = 0;
        while i < self.expanded.len()
            invariant
                0 <= i <= self.expanded@.len(),
                v == paths_view(self.expanded@),
                req == paths_view(self.requested@),
                paths_view(pastas@) == by_depth(needing(self.workspace, req, v.take(i as int))),
            decreases self.expanded@.len() - i,
        {
            proof {
                assert(v.take(i + 1).drop_last() =~= v.take(i as int));
                assert(v[i as int] == self.expanded@[i as int]@);
            }
            if self.directory_needs_children(self.expanded[i].as_str()) {
                let j = depth_slot_of(&pastas, self.expanded[i].as_str());
                proof {
                    lemma_depth_slot(paths_view(pastas@), v[i as int], 0);
                }
                let ghost before = pastas@;
                pastas.insert(j, self.expanded[i].clone());
                proof {
                    assert(paths_view(pastas@) =~= paths_view(before).insert(j as int, v[i as int]));
                    let s0 = needing(self.workspace, req, v.take(i as int));
                    assert(needing(self.workspace, req, v.take(i + 1)) == s0.push(v[i as int]));
                    assert(s0.push(v[i as int]).drop_last() =~= s0);
                    assert(by_depth(s0.push(v[i as int])) == by_depth(s0).insert(
                        depth_slot(by_depth(s0), v[i as int], 0),
                        v[i as int],
                    ));
                }
            } else {
                proof {
                    assert(needing(self.workspace, req, v.take(i + 1)) == needing(self.workspace, req, v.take(i as int)));
                }
            }
            i = i + 1;
        }
        proof {
            assert(v.take(v.len() as int) =~= v);
        }
        add_paths(&mut self.requested, &pastas);
        pastas
    }

    /// Stores the levels read for a path, from the root to the leaf, each
    /// marked as asked for (one reading brings several levels, none to ask
    /// again); when the tree changed, the chains below the open folders
    /// open. The answer says whether the tree changed.
    pub fn insert_path_children(&mut self, niveis: Vec<(String, Vec<FileNode>)>) -> (r: bool)
        requires
            old(self).wf(),
        ensures
            final(self).wf(),
            paths_view(final(self).requested@) == with_paths(
                paths_view(old(self).requested@),
                level_names(niveis@),
            ),
            exists|trees: Seq<FileNode>, flags: Seq<bool>|
                #[trigger] stored_steps(trees, flags, level_views(niveis@)) && trees[0] == old(self).workspace
                    && trees.last() == final(self).workspace && r == flags.contains(true),
            r ==> paths_view(final(self).expanded@) == with_paths(
                paths_view(old(self).expanded@),
                chains(final(self).workspace, paths_view(old(self).expanded@)),
            ),
            !r ==> final(self).expanded == old(self).expanded,
    {
        let ghost all = niveis@;
        let ghost names = level_names(all);
        let ghost levels = level_views(all);
        let ghost start = self.workspace;
        let ghost req0 = paths_view(self.requested@);
        let total = niveis.len();
        let mut niveis = niveis;
        let mut mudou = false;
        let mut done: usize = 0;
        let ghost mut trees: Seq<FileNode> = seq![start];
        let ghost mut flags: Seq<bool> = Seq::empty();
        proof {
            assert(levels.take(0) =~= Seq::<(Seq<char>, Seq<FileNode>)>::empty());
            assert(names.take(0) =~= Seq::<Seq<char>>::empty());
        }
        while niveis.len() > 0
            invariant
                done + niveis@.len() == all.len(),
                all.len() == total,
                niveis@ == all.skip(done as int),
                names == level_names(all),
                levels == level_views(all),
                self.wf(),
                self.expanded == old(self).expanded,
                paths_view(self.requested@) == with_paths(req0, names.take(done as int)),
                stored_steps(trees, flags, levels.take(done as int)),
                trees[0] == start,
                trees.last() == self.workspace,
                mudou == flags.contains(true),
            decreases niveis@.len(),
        {
            let (pasta, filhos) = niveis.remove(0);
            proof {
                assert(niveis@ =~= all.skip(done + 1));
                assert(names.take(done + 1).drop_last() =~= names.take(done as int));
                assert(names[done as int] == pasta@);
                assert(levels[done as int] == (pasta@, filhos@));
            }
            add_path(&mut self.requested, pasta.as_str());
            let ghost mid = self.workspace;
            let c = self.insert_children_at(pasta.as_str(), filhos);
            mudou = mudou || c;
            proof {
                let t0 = trees;
                let f0 = flags;
                trees = trees.push(self.workspace);
                flags = flags.push(c);
                let lv = levels.take(done + 1);
                assert forall|i: int| 0 <= i < lv.len() implies stored(
                    trees[i],
                    trees[i + 1],
                    lv[i].0,
                    lv[i].1,
                    #[trigger] flags[i],
                ) by {
                    if i < done {
                        assert(flags[i] == f0[i]);
                        assert(trees[i] == t0[i] && trees[i + 1] == t0[i + 1]);
                        assert(lv[i] == levels.take(done as int)[i]);
                    } else {
                        assert(trees[i] == mid);
                    }
                }
                assert(flags.contains(true) == (f0.contains(true) || c)) by {
                    if c {
                        assert(flags[flags.len() - 1] == true);
                    }
                    if f0.contains(true) {
                        let k = choose|k: int| 0 <= k < f0.len() && f0[k] == true;
                        assert(flags[k] == true);
                    }
                    if flags.contains(true) && !c {
                        let k = choose|k: int| 0 <= k < flags.len() && flags[k] == true;
                        assert(f0[k] == true);
                    }
                }
            }
            done = done + 1;
        }
        proof {
            assert(levels.take(all.len() as int) =~= levels);
            assert(names.take(all.len() as int) =~= names);
        }
        if mudou {
            self.expand_single_child_chains();
        }
        mudou
    }

    /// Opens `path` and each of its ancestors inside the project, then asks
    /// for the children of what needs them; the answer lists what was asked.
    pub fn reveal_path(&mut self, path: &str) -> (r: Vec<String>)
        requires
            old(self).wf(),
        ensures
            final(self).wf(),
            final(self).workspace == old(self).workspace,
            ({
                let opened = with_paths(
                    paths_view(old(self).expanded@),
                    inside(ancestors_from(path@), old(self).workspace.path@),
                );
                &&& paths_view(final(self).expanded@) == opened
                &&& paths_view(r@) == by_depth(needing(old(self).workspace, paths_view(old(self).requested@), opened))
                &&& paths_view(final(self).requested@) == with_paths(paths_view(old(self).requested@), paths_view(r@))
            }),
    {
        let all = ancestors_of(path);
        let mut inside_root: Vec<String> = Vec::new();
        let mut i: usize = 0;
        while i < all.len()
            invariant
                0 <= i <= all@.len(),
                paths_view(inside_root@) == inside(paths_view(all@).take(i as int), self.workspace.path@),
            decreases all@.len() - i,
        {
            proof {
                assert(paths_view(all@).take(i + 1).drop_last() =~= paths_view(all@).take(i as int));
                assert(paths_view(all@)[i as int] == all@[i as int]@);
            }
            if starts_with_path(all[i].as_str(), self.workspace.path.as_str()) {
                let ghost before = paths_view(inside_root@);
                inside_root.push(all[i].clone());
                proof {
                    assert(paths_view(inside_root@) =~= before.push(all@[i as int]@));
                }
            }
            i = i + 1;
        }
        proof {
            assert(paths_view(all@).take(all@.len() as int) =~= paths_view(all@));
        }
        add_paths(&mut self.expanded, &inside_root);
        self.request_expanded_directories()
    }

    /// The path of the first node whose identity is `target`, and whether
    /// it is a folder.
    pub fn path_for(&self, target: u64) -> (r: Option<(String, bool)>)
        ensures
            match node_with_id(self.workspace, target) {
                Some(n) => r matches Some((p, d)) && p@ == n.path@ && d == n.is_directory,
                None => r is None,
            },
    {
        match find_by_id(&self.workspace, target) {
            Some(n) => Some((n.path.clone(), n.is_directory)),
            None => None,
        }
    }

    /// Follows the document in the editor: when the tree does not hold it
    /// yet (it is read in parts), its folder is revealed; else the folders
    /// above it, up to the project, open. Either way the folders that need
    /// their children are asked for. Answers whether the tree holds it, and
    /// what was asked for.
    pub fn sync_to_active(&mut self, path: &str) -> (r: (bool, Vec<String>))
        requires
            old(self).wf(),
        ensures
            final(self).wf(),
            final(self).workspace == old(self).workspace,
            r.0 == (node_with_id(old(self).workspace, path_hash(path@)) is Some),
            !r.0 ==> match parent_of(path@) {
                Some(pasta) => paths_view(final(self).expanded@) == with_paths(
                    paths_view(old(self).expanded@),
                    inside(ancestors_from(pasta), old(self).workspace.path@),
                ),
                None => final(self).expanded == old(self).expanded && r.1@.len() == 0,
            },
            r.0 ==> paths_view(final(self).expanded@) == with_paths(
                paths_view(old(self).expanded@),
                while_inside(ancestors_from(path@).drop_first(), old(self).workspace.path@),
            ),
            match parent_of(path@) {
                None => !r.0 ==> final(self).requested == old(self).requested,
                Some(_) => true,
            },
            (r.0 || parent_of(path@) is Some) ==> paths_view(r.1@) == by_depth(
                needing(old(self).workspace, paths_view(old(self).requested@), paths_view(final(self).expanded@)),
            ) && paths_view(final(self).requested@) == with_paths(paths_view(old(self).requested@), paths_view(r.1@)),
    {
        let target = id(path);
        if self.path_for(target).is_none() {
            return match parent(path) {
                Some(pasta) => (false, self.reveal_path(pasta.as_str())),
                None => (false, Vec::new()),
            };
        }
        let all = ancestors_of(path);
        let mut above: Vec<String> = Vec::new();
        let mut i: usize = 1;
        let ghost v = paths_view(all@).drop_first();
        proof {
            assert(all@.len() >= 1) by {
                assert(ancestors_from(path@).len() >= 1);
            }
            assert(v.skip(0) =~= v);
            assert(paths_view(above@) + while_inside(v, self.workspace.path@) =~= while_inside(v, self.workspace.path@));
        }
        while i < all.len()
            invariant_except_break
                paths_view(above@) + while_inside(v.skip(i - 1), self.workspace.path@) == while_inside(
                    v,
                    self.workspace.path@,
                ),
            invariant
                1 <= i <= all@.len(),
                v == paths_view(all@).drop_first(),
            ensures
                paths_view(above@) == while_inside(v, self.workspace.path@),
            decreases all@.len() - i,
        {
            let ghost rest = v.skip(i - 1);
            proof {
                assert(rest[0] == all@[i as int]@);
                assert(rest.drop_first() =~= v.skip(i as int));
            }
            if !starts_with_path(all[i].as_str(), self.workspace.path.as_str()) {
                proof {
                    assert(while_inside(rest, self.workspace.path@) =~= Seq::<Seq<char>>::empty());
                    assert(paths_view(above@) =~= paths_view(above@) + Seq::<Seq<char>>::empty());
                }
                break;
            }
            let ghost before = paths_view(above@);
            above.push(all[i].clone());
            proof {
                assert(paths_view(above@) =~= before.push(rest[0]));
                assert(before + while_inside(rest, self.workspace.path@) =~= before.push(rest[0]) + while_inside(
                    rest.drop_first(),
                    self.workspace.path@,
                ));
            }
            i = i + 1;
        }
        proof {
            if i == all.len() {
                assert(v.skip(i - 1).len() == 0);
            }
        }
        add_paths(&mut self.expanded, &above);
        (true, self.request_expanded_directories())
    }

    /// Whether the folder `path` is open.
    pub fn is_expanded(&self, path: &str) -> (r: bool)
        ensures
            r == paths_view(self.expanded@).contains(path@),
    {
        contains_path(&self.expanded, path)
    }

    /// Whether the folder `path` still needs its children read: not asked
    /// for yet, and absent from the tree or without children there. An
    /// absent one needs them too: its ancestors come first, and asking by
    /// depth has the parent in the tree by the time it is answered.
    pub fn directory_needs_children(&self, path: &str) -> (r: bool)
        ensures
            r == (!paths_view(self.requested@).contains(path@) && match node_at(self.workspace, path@) {
                Some(n) => n.children@.len() == 0,
                None => true,
            }),
    {
        if contains_path(&self.requested, path) {
            return false;
        }
        match find_node(&self.workspace, path) {
            Some(n) => n.children.len() == 0,
            None => true,
        }
    }

    /// The rows drawn, depth and node, depth first: the root itself draws
    /// none, and only the children of open folders are drawn.
    pub fn visible_entries(&self) -> (r: Vec<(usize, &FileNode)>)
        requires
            height(self.workspace) <= usize::MAX,
        ensures
            r@.map_values(|e: (usize, &FileNode)| row_view(e)) == rows_of(
                self.workspace,
                0,
                paths_view(self.expanded@).to_set(),
            ),
    {
        let mut out: Vec<(usize, &FileNode)> = Vec::new();
        collect_rows(&self.workspace, 0, &self.expanded, &mut out);
        proof {
            assert(Seq::<(usize, &FileNode)>::empty().map_values(|e: (usize, &FileNode)| row_view(e)) =~= Seq::<
                (nat, FileNode),
            >::empty());
            assert(Seq::<(nat, FileNode)>::empty() + rows_of(
                self.workspace,
                0,
                paths_view(self.expanded@).to_set(),
            ) =~= rows_of(self.workspace, 0, paths_view(self.expanded@).to_set()));
        }
        out
    }

    /// The files of the project with extension `expected_extension` (up to
    /// ASCII case), in the order of the tree.
    pub fn source_files(&self, expected_extension: &str) -> (r: Vec<String>)
        ensures
            paths_view(r@) == files_from(self.workspace, 0, expected_extension@),
    {
        let mut out: Vec<String> = Vec::new();
        collect_files(&self.workspace, expected_extension, &mut out);
        proof {
            assert(paths_view(Seq::<String>::empty()) =~= Seq::<Seq<char>>::empty());
            assert(Seq::<Seq<char>>::empty() + files_from(self.workspace, 0, expected_extension@) =~= files_from(
                self.workspace,
                0,
                expected_extension@,
            ));
        }
        out
    }
}

} // verus!
