//! The file tree of a snapshot as the browser shows it: folder statuses
//! combined from their contents, the rows of the tree with some folders
//! open, and opening or closing a folder.

use vstd::prelude::*;
use crate::text::str_eq;
use crate::tui::{FileTreeNode, VisibleRow};
use crate::order::{chars_less, chars_lt};
use crate::text::string_from_chars;
use crate::types::{FileEntry, FileStatus};

verus! {

// ─── Combining statuses ─────────────────────────────────────────────────

/// How much a status weighs when the statuses inside a folder are combined:
/// added, then modified, then deleted, then unchanged, then none.
pub open spec fn status_rank(s: Option<FileStatus>) -> int {
    match s {
        None => 0,
        Some(FileStatus::Unchanged) => 1,
        Some(FileStatus::Deleted) => 2,
        Some(FileStatus::Modified) => 3,
        Some(FileStatus::Added) => 4,
    }
}

/// The weightier of two statuses.
pub open spec fn merged_status(a: Option<FileStatus>, b: Option<FileStatus>) -> Option<FileStatus> {
    if status_rank(a) >= status_rank(b) {
        a
    } else {
        b
    }
}

/// Combines two statuses: the weightier one wins.
pub fn merge_status(a: Option<FileStatus>, b: Option<FileStatus>) -> (r: Option<FileStatus>)
    ensures
        r == merged_status(a, b),
{
    match (a, b) {
        (Some(FileStatus::Added), _) | (_, Some(FileStatus::Added)) => Some(FileStatus::Added),
        (Some(FileStatus::Modified), _) | (_, Some(FileStatus::Modified)) => Some(FileStatus::Modified),
        (Some(FileStatus::Deleted), _) | (_, Some(FileStatus::Deleted)) => Some(FileStatus::Deleted),
        (Some(FileStatus::Unchanged), _) => Some(FileStatus::Unchanged),
        (_, Some(FileStatus::Unchanged)) => Some(FileStatus::Unchanged),
        (None, None) => None,
    }
}

/// Combining statuses does not depend on their order, and no status
/// changes a combination it is combined with again.
pub proof fn law_merge_status_order_free(a: Option<FileStatus>, b: Option<FileStatus>, c: Option<FileStatus>)
    ensures
        merged_status(a, b) == merged_status(b, a),
        merged_status(merged_status(a, b), c) == merged_status(a, merged_status(b, c)),
        merged_status(a, a) == a,
        merged_status(a, None) == a,
{
}

// ─── The tree as a value ────────────────────────────────────────────────

/// A node of the file tree as a mathematical value.
pub struct NodeView {
    pub name: Seq<char>,
    pub full_path: Seq<char>,
    pub is_dir: bool,
    pub children: Seq<NodeView>,
    pub status: Option<FileStatus>,
    pub file_size: Option<i64>,
}

/// The value of a node.
pub open spec fn node_view(n: FileTreeNode) -> NodeView
    decreases n,
{
    NodeView {
        name: n.name@,
        full_path: n.full_path@,
        is_dir: n.is_dir,
        children: nodes_view(n.children@),
        status: n.status,
        file_size: n.file_size,
    }
}

/// The values of a sequence of nodes.
pub open spec fn nodes_view(ns: Seq<FileTreeNode>) -> Seq<NodeView>
    decreases ns,
{
    if ns.len() == 0 {
        Seq::empty()
    } else {
        seq![node_view(ns[0])] + nodes_view(ns.subrange(1, ns.len() as int))
    }
}

/// `nodes_view` maps each node to its value.
pub proof fn lemma_nodes_view(ns: Seq<FileTreeNode>)
    ensures
        nodes_view(ns).len() == ns.len(),
        forall|i: int| 0 <= i < ns.len() ==> #[trigger] nodes_view(ns)[i] == node_view(ns[i]),
    decreases ns.len(),
{
    if ns.len() > 0 {
        let rest = ns.subrange(1, ns.len() as int);
        lemma_nodes_view(rest);
        assert forall|i: int| 0 <= i < ns.len() implies #[trigger] nodes_view(ns)[i] == node_view(ns[i]) by {
            if i > 0 {
                assert(rest[i - 1] == ns[i]);
            }
        }
    }
}

// ─── Folder statuses ────────────────────────────────────────────────────

/// The weightiest status anywhere in the subtree of `n`, its own included.
pub closed spec fn subtree_status(n: NodeView) -> Option<FileStatus>
    decreases n,
{
    fold_status(n.status, n.children)
}

/// `acc` combined with the subtree status of each node of `cs`, first to last.
pub closed spec fn fold_status(acc: Option<FileStatus>, cs: Seq<NodeView>) -> Option<FileStatus>
    decreases cs,
{
    if cs.len() == 0 {
        acc
    } else {
        fold_status(merged_status(acc, subtree_status(cs[0])), cs.subrange(1, cs.len() as int))
    }
}

/// The tree `n` with every folder given the subtree status of its contents.
pub closed spec fn propagated(n: NodeView) -> NodeView
    decreases n,
{
    NodeView {
        name: n.name,
        full_path: n.full_path,
        is_dir: n.is_dir,
        children: propagated_all(n.children),
        status: if n.is_dir {
            subtree_status(n)
        } else {
            n.status
        },
        file_size: n.file_size,
    }
}

/// `propagated` applied to each node of `cs`.
pub closed spec fn propagated_all(cs: Seq<NodeView>) -> Seq<NodeView>
    decreases cs,
{
    if cs.len() == 0 {
        Seq::empty()
    } else {
        seq![propagated(cs[0])] + propagated_all(cs.subrange(1, cs.len() as int))
    }
}

pub proof fn lemma_propagated_all(cs: Seq<NodeView>)
    ensures
        propagated_all(cs).len() == cs.len(),
        forall|i: int| 0 <= i < cs.len() ==> #[trigger] propagated_all(cs)[i] == propagated(cs[i]),
    decreases cs.len(),
{
    if cs.len() > 0 {
        let rest = cs.subrange(1, cs.len() as int);
        lemma_propagated_all(rest);
        assert forall|i: int| 0 <= i < cs.len() implies #[trigger] propagated_all(cs)[i] == propagated(cs[i]) by {
            if i > 0 {
                assert(rest[i - 1] == cs[i]);
            }
        }
    }
}

/// A copy of `node` whose folders carry the subtree status of their
/// contents, and the subtree status of `node`.
fn propagated_node(node: &FileTreeNode) -> (r: (FileTreeNode, Option<FileStatus>))
    ensures
        node_view(r.0) == propagated(node_view(*node)),
        r.1 == subtree_status(node_view(*node)),
    decreases node,
{
    let ghost v = node_view(*node);
    proof {
        lemma_nodes_view(node.children@);
        lemma_propagated_all(v.children);
    }
    let mut agg = node.status;
    assert(v.children.subrange(0, v.children.len() as int) =~= v.children);
    let mut children: Vec<FileTreeNode> = Vec::new();
    let mut i: usize = 0;
    while i < node.children.len()
        invariant
            i <= node.children.len(),
            v == node_view(*node),
            v.children.len() == node.children.len(),
            forall|j: int| 0 <= j < node.children.len() ==> #[trigger] v.children[j] == node_view(node.children@[j]),
            propagated_all(v.children).len() == v.children.len(),
            forall|j: int| 0 <= j < v.children.len() ==> #[trigger] propagated_all(v.children)[j] == propagated(v.children[j]),
            children.len() == i,
            forall|j: int| 0 <= j < i ==> #[trigger] node_view(children@[j]) == propagated(v.children[j]),
            fold_status(agg, v.children.subrange(i as int, v.children.len() as int)) == fold_status(node.status, v.children),
        decreases node.children.len() - i,
    {
        let (c, s) = propagated_node(&node.children[i]);
        proof {
            let rest = v.children.subrange(i as int, v.children.len() as int);
            assert(rest[0] == v.children[i as int]);
            assert(rest.subrange(1, rest.len() as int) =~= v.children.subrange(i + 1, v.children.len() as int));
        }
        agg = merge_status(agg, s);
        children.push(c);
        i += 1;
    }
    proof {
        assert(v.children.subrange(i as int, v.children.len() as int) =~= Seq::<NodeView>::empty());
        lemma_nodes_view(children@);
        assert(nodes_view(children@) =~= propagated_all(v.children));
    }
    let status = if node.is_dir {
        agg
    } else {
        node.status
    };
    let out = FileTreeNode {
        name: node.name.clone(),
        full_path: node.full_path.clone(),
        is_dir: node.is_dir,
        children,
        status,
        file_size: node.file_size,
    };
    (out, agg)
}

/// Gives every folder of the tree at `node` the weightiest status found
/// anywhere inside it (its own included), and returns that status for
/// `node` itself. Files keep their status.
pub fn propagate_folder_status(node: &mut FileTreeNode) -> (r: Option<FileStatus>)
    ensures
        node_view(*final(node)) == propagated(node_view(*old(node))),
        r == subtree_status(node_view(*old(node))),
{
    let (n, s) = propagated_node(node);
    *node = n;
    s
}

// ─── Rows of the tree ───────────────────────────────────────────────────

/// A displayed row as a value: path, folder or not, depth, open or not,
/// status, size and name.
pub struct RowView {
    pub full_path: Seq<char>,
    pub is_dir: bool,
    pub depth: usize,
    pub is_expanded: bool,
    pub status: Option<FileStatus>,
    pub file_size: Option<i64>,
    pub name: Seq<char>,
}

/// The value of a row.
pub open spec fn row_view(r: VisibleRow) -> RowView {
    RowView {
        full_path: r.full_path@,
        is_dir: r.is_dir,
        depth: r.depth,
        is_expanded: r.is_expanded,
        status: r.status,
        file_size: r.file_size,
        name: r.name@,
    }
}

/// The values of a sequence of rows.
pub open spec fn rows_view(rs: Seq<VisibleRow>) -> Seq<RowView> {
    rs.map_values(|r: VisibleRow| row_view(r))
}

/// The set of paths in `v`.
pub open spec fn path_set(v: Seq<String>) -> Set<Seq<char>> {
    Set::new(|p: Seq<char>| exists|i: int| 0 <= i < v.len() && #[trigger] v[i]@ == p)
}

/// `d + 1`, kept at `usize::MAX` there.
pub open spec fn next_depth(d: usize) -> usize {
    if d < usize::MAX {
        (d + 1) as usize
    } else {
        d
    }
}

/// The rows of the tree at `n` at depth `depth` with the folders of `open`
/// open: its own row, then, for an open folder, the rows of its children
/// one depth further.
pub closed spec fn flat_node(n: NodeView, depth: usize, open: Set<Seq<char>>) -> Seq<RowView>
    decreases n,
{
    let is_open = open.contains(n.full_path);
    seq![RowView {
        full_path: n.full_path,
        is_dir: n.is_dir,
        depth,
        is_expanded: is_open,
        status: n.status,
        file_size: n.file_size,
        name: n.name,
    }] + if n.is_dir && is_open {
        flat_nodes(n.children, next_depth(depth), open)
    } else {
        Seq::empty()
    }
}

/// The rows of the trees `ns`, one after the other.
pub closed spec fn flat_nodes(ns: Seq<NodeView>, depth: usize, open: Set<Seq<char>>) -> Seq<RowView>
    decreases ns,
{
    if ns.len() == 0 {
        Seq::empty()
    } else {
        flat_node(ns[0], depth, open) + flat_nodes(ns.subrange(1, ns.len() as int), depth, open)
    }
}

proof fn lemma_flat_nodes_push(ns: Seq<NodeView>, x: NodeView, depth: usize, open: Set<Seq<char>>)
    ensures
        flat_nodes(ns.push(x), depth, open) == flat_nodes(ns, depth, open) + flat_node(x, depth, open),
    decreases ns.len(),
{
    let s = ns.push(x);
    if ns.len() == 0 {
        assert(s.subrange(1, s.len() as int) =~= Seq::<NodeView>::empty());
        assert(flat_nodes(s.subrange(1, s.len() as int), depth, open) == Seq::<RowView>::empty());
        assert(ns =~= Seq::<NodeView>::empty());
        assert(flat_nodes(ns, depth, open) == Seq::<RowView>::empty());
        assert(s[0] == x);
        assert(flat_nodes(s, depth, open) =~= flat_node(x, depth, open));
    } else {
        let rest = ns.subrange(1, ns.len() as int);
        assert(s.subrange(1, s.len() as int) =~= rest.push(x));
        lemma_flat_nodes_push(rest, x, depth, open);
        assert(flat_nodes(s, depth, open) =~= flat_nodes(ns, depth, open) + flat_node(x, depth, open));
    }
}

/// Whether `paths` holds `p`.
pub fn contains_path(paths: &[String], p: &str) -> (r: bool)
    ensures
        r == path_set(paths@).contains(p@),
{
    let mut i: usize = 0;
    while i < paths.len()
        invariant
            i <= paths.len(),
            forall|j: int| 0 <= j < i ==> paths@[j]@ != p@,
        decreases paths.len() - i,
    {
        if str_eq(paths[i].as_str(), p) {
            assert(paths@[i as int]@ == p@);
            return true;
        }
        i += 1;
    }
    false
}

fn flatten_node(node: &FileTreeNode, depth: usize, expanded: &[String], rows: &mut Vec<VisibleRow>)
    ensures
        rows_view(final(rows)@) == rows_view(old(rows)@) + flat_node(node_view(*node), depth, path_set(expanded@)),
    decreases node,
{
    let ghost v = node_view(*node);
    let ghost open = path_set(expanded@);
    let is_expanded = contains_path(expanded, node.full_path.as_str());
    let ghost start = rows_view(rows@);
    rows.push(VisibleRow {
        full_path: node.full_path.clone(),
        is_dir: node.is_dir,
        depth,
        is_expanded,
        status: node.status,
        file_size: node.file_size,
        name: node.name.clone(),
    });
    let ghost head = rows_view(rows@);
    assert(head =~= start + seq![flat_node(v, depth, open)[0]]);
    if node.is_dir && is_expanded {
        let d = if depth < usize::MAX {
            depth + 1
        } else {
            depth
        };
        proof {
            lemma_nodes_view(node.children@);
        }
        let mut i: usize = 0;
        while i < node.children.len()
            invariant
                i <= node.children.len(),
                v == node_view(*node),
                open == path_set(expanded@),
                d == next_depth(depth),
                v.children.len() == node.children.len(),
                forall|j: int| 0 <= j < node.children.len() ==> #[trigger] v.children[j] == node_view(node.children@[j]),
                rows_view(rows@) == head + flat_nodes(v.children.subrange(0, i as int), d, open),
            decreases node.children.len() - i,
        {
            flatten_node(&node.children[i], d, expanded, rows);
            proof {
                assert(v.children.subrange(0, i + 1) =~= v.children.subrange(0, i as int).push(v.children[i as int]));
                lemma_flat_nodes_push(v.children.subrange(0, i as int), v.children[i as int], d, open);
            }
            i += 1;
        }
        assert(v.children.subrange(0, i as int) =~= v.children);
        assert(rows_view(rows@) =~= start + flat_node(v, depth, open));
    } else {
        assert(rows_view(rows@) =~= start + flat_node(v, depth, open));
    }
}

/// The rows of the trees `nodes`, from depth 0, with the folders whose paths
/// are in `expanded` open.
pub fn flatten(nodes: &[FileTreeNode], expanded: &[String]) -> (rows: Vec<VisibleRow>)
    ensures
        rows_view(rows@) == flat_nodes(nodes_view(nodes@), 0, path_set(expanded@)),
        rows.len() == flat_nodes(nodes_view(nodes@), 0, path_set(expanded@)).len(),
{
    let ghost vs = nodes_view(nodes@);
    let ghost open = path_set(expanded@);
    proof {
        lemma_nodes_view(nodes@);
    }
    let mut rows: Vec<VisibleRow> = Vec::new();
    let mut i: usize = 0;
    while i < nodes.len()
        invariant
            i <= nodes.len(),
            vs == nodes_view(nodes@),
            open == path_set(expanded@),
            vs.len() == nodes.len(),
            forall|j: int| 0 <= j < nodes.len() ==> #[trigger] vs[j] == node_view(nodes@[j]),
            rows_view(rows@) == flat_nodes(vs.subrange(0, i as int), 0, open),
        decreases nodes.len() - i,
    {
        flatten_node(&nodes[i], 0, expanded, &mut rows);
        proof {
            assert(vs.subrange(0, i + 1) =~= vs.subrange(0, i as int).push(vs[i as int]));
            lemma_flat_nodes_push(vs.subrange(0, i as int), vs[i as int], 0, open);
        }
        i += 1;
    }
    assert(vs.subrange(0, i as int) =~= vs);
    rows
}

// ─── Opening and closing folders ────────────────────────────────────────

/// The set of open folders after toggling `p`: closed if it was open,
/// opened if it was closed.
pub open spec fn toggled(open: Set<Seq<char>>, p: Seq<char>) -> Set<Seq<char>> {
    if open.contains(p) {
        open.remove(p)
    } else {
        open.insert(p)
    }
}

/// Toggling the same folder twice leaves the set of open folders as it was.
pub proof fn law_toggle_twice(open: Set<Seq<char>>, p: Seq<char>)
    ensures
        toggled(toggled(open, p), p) == open,
{
    if open.contains(p) {
        assert(toggled(toggled(open, p), p) =~= open);
    } else {
        assert(toggled(toggled(open, p), p) =~= open);
    }
}

/// Toggles the folder `p` in the list of open folders.
pub fn toggle_path(expanded: &mut Vec<String>, p: &str)
    ensures
        path_set(final(expanded)@) == toggled(path_set(old(expanded)@), p@),
{
    let ghost before = path_set(expanded@);
    if contains_path(expanded.as_slice(), p) {
        let mut kept: Vec<String> = Vec::new();
        let mut i: usize = 0;
        while i < expanded.len()
            invariant
                i <= expanded.len(),
                forall|q: Seq<char>| #[trigger] path_set(kept@).contains(q) <==> (q != p@ && exists|j: int|
                    0 <= j < i && expanded@[j]@ == q),
            decreases expanded.len() - i,
        {
            if !str_eq(expanded[i].as_str(), p) {
                let s = expanded[i].clone();
                proof {
                    assert forall|q: Seq<char>| #[trigger] path_set(kept@.push(s)).contains(q) <==> (q != p@ && exists|j: int|
                        0 <= j < i + 1 && expanded@[j]@ == q) by {
                        if path_set(kept@.push(s)).contains(q) {
                            let k = choose|k: int| 0 <= k < kept@.push(s).len() && kept@.push(s)[k]@ == q;
                            if k == kept@.len() {
                                assert(expanded@[i as int]@ == q);
                            } else {
                                assert(kept@[k]@ == q);
                                assert(path_set(kept@).contains(q));
                            }
                        }
                        if q != p@ && exists|j: int| 0 <= j < i + 1 && expanded@[j]@ == q {
                            let j = choose|j: int| 0 <= j < i + 1 && expanded@[j]@ == q;
                            if j == i {
                                assert(kept@.push(s)[kept@.len() as int]@ == q);
                            } else {
                                assert(path_set(kept@).contains(q));
                                let k = choose|k: int| 0 <= k < kept@.len() && kept@[k]@ == q;
                                assert(kept@.push(s)[k]@ == q);
                            }
                        }
                    }
                }
                kept.push(s);
            } else {
                proof {
                    assert forall|q: Seq<char>| #[trigger] path_set(kept@).contains(q) <==> (q != p@ && exists|j: int|
                        0 <= j < i + 1 && expanded@[j]@ == q) by {
                        if q != p@ && exists|j: int| 0 <= j < i + 1 && expanded@[j]@ == q {
                            let j = choose|j: int| 0 <= j < i + 1 && expanded@[j]@ == q;
                            assert(j != i);
                        }
                    }
                }
            }
            i += 1;
        }
        assert(path_set(kept@) =~= before.remove(p@));
        *expanded = kept;
    } else {
        let s = p.to_string();
        let ghost old_v = expanded@;
        expanded.push(s);
        assert forall|q: Seq<char>| #[trigger] path_set(expanded@).contains(q) <==> before.insert(p@).contains(q) by {
            if before.contains(q) {
                let j = choose|j: int| 0 <= j < old_v.len() && old_v[j]@ == q;
                assert(expanded@[j]@ == q);
            }
            if q == p@ {
                assert(expanded@[old_v.len() as int]@ == q);
            }
            if path_set(expanded@).contains(q) {
                let j = choose|j: int| 0 <= j < expanded@.len() && expanded@[j]@ == q;
                if j < old_v.len() {
                    assert(old_v[j]@ == q);
                }
            }
        }
        assert(path_set(expanded@) =~= before.insert(p@));
    }
}

// ─── Building the tree ──────────────────────────────────────────────────

/// The segments of a path, split at each `/` (`str::split('/')`).
pub open spec fn split_path(p: Seq<char>) -> Seq<Seq<char>>
    decreases p.len(),
{
    if p.len() == 0 {
        seq![Seq::empty()]
    } else {
        let s = split_path(p.drop_last());
        if p.last() == '/' {
            s.push(Seq::empty())
        } else {
            s.update(s.len() - 1, s.last().push(p.last()))
        }
    }
}

proof fn lemma_split_path_len(p: Seq<char>)
    ensures
        split_path(p).len() >= 1,
    decreases p.len(),
{
    if p.len() > 0 {
        lemma_split_path_len(p.drop_last());
    }
}

/// The values of a sequence of character vectors.
pub open spec fn segs_view(v: Seq<Vec<char>>) -> Seq<Seq<char>> {
    v.map_values(|s: Vec<char>| s@)
}

/// Splits a path into its segments at each `/`.
pub fn split_segments(p: &[char]) -> (r: Vec<Vec<char>>)
    ensures
        segs_view(r@) == split_path(p@),
        r.len() >= 1,
{
    let mut done: Vec<Vec<char>> = Vec::new();
    let mut cur: Vec<char> = Vec::new();
    let mut i: usize = 0;
    assert(p@.take(0) =~= Seq::<char>::empty());
    assert(segs_view(done@).push(cur@) =~= split_path(p@.take(0)));
    while i < p.len()
        invariant
            i <= p.len(),
            segs_view(done@).push(cur@) == split_path(p@.take(i as int)),
        decreases p.len() - i,
    {
        proof {
            lemma_split_path_len(p@.take(i as int));
            assert(p@.take(i + 1).drop_last() =~= p@.take(i as int));
            assert(p@.take(i + 1).last() == p@[i as int]);
        }
        let ghost before = segs_view(done@).push(cur@);
        if p[i] == '/' {
            let old_cur = cur;
            done.push(old_cur);
            cur = Vec::new();
            assert(segs_view(done@).push(cur@) =~= before.push(Seq::empty()));
        } else {
            cur.push(p[i]);
            assert(segs_view(done@).push(cur@) =~= before.update(before.len() - 1, before.last().push(p[i as int])));
        }
        i += 1;
    }
    assert(p@.take(p.len() as int) =~= p@);
    done.push(cur);
    done
}

/// The path of a child `name` of the folder at `parent` (the root has the empty path).
pub open spec fn child_path(parent: Seq<char>, name: Seq<char>) -> Seq<char> {
    if parent.len() == 0 {
        name
    } else {
        parent + seq!['/'] + name
    }
}

/// The leaf node for entry `e`, named `name`.
pub open spec fn leaf_of(name: Seq<char>, e: FileEntry) -> NodeView {
    NodeView {
        name,
        full_path: e.file_path@,
        is_dir: false,
        children: Seq::empty(),
        status: Some(e.status),
        file_size: e.file_size,
    }
}

/// Index of the first folder named `name` among `cs`.
pub open spec fn first_dir_named(cs: Seq<NodeView>, name: Seq<char>) -> Option<int>
    decreases cs.len(),
{
    if cs.len() == 0 {
        None
    } else if cs[0].name == name && cs[0].is_dir {
        Some(0)
    } else {
        match first_dir_named(cs.skip(1), name) {
            Some(i) => Some(i + 1),
            None => None,
        }
    }
}

proof fn lemma_first_dir_named(cs: Seq<NodeView>, name: Seq<char>)
    ensures
        match first_dir_named(cs, name) {
            Some(i) => 0 <= i < cs.len() && cs[i].name == name && cs[i].is_dir && forall|k: int|
                0 <= k < i ==> !((#[trigger] cs[k]).name == name && cs[k].is_dir),
            None => forall|k: int| 0 <= k < cs.len() ==> !((#[trigger] cs[k]).name == name && cs[k].is_dir),
        },
    decreases cs.len(),
{
    if cs.len() > 0 {
        lemma_first_dir_named(cs.skip(1), name);
        assert(forall|k: int| 0 <= k < cs.len() - 1 ==> #[trigger] cs.skip(1)[k] == cs[k + 1]);
        match first_dir_named(cs.skip(1), name) {
            Some(i) => {
                assert forall|k: int| 0 <= k < i + 1 && !(cs[0].name == name && cs[0].is_dir) implies !((
                #[trigger] cs[k]).name == name && cs[k].is_dir) by {
                    if k > 0 {
                        assert(cs[k] == cs.skip(1)[k - 1]);
                    }
                }
            },
            None => {
                assert forall|k: int| 0 <= k < cs.len() && !(cs[0].name == name && cs[0].is_dir) implies !((
                #[trigger] cs[k]).name == name && cs[k].is_dir) by {
                    if k > 0 {
                        assert(cs[k] == cs.skip(1)[k - 1]);
                    }
                }
            },
        }
    }
}

/// The trees `cs` with entry `e` added at the path whose remaining segments
/// are `parts`, below the folder at `parent`: the last segment becomes a
/// leaf; each other segment goes into the first folder of that name, which
/// is made at the end when there is none.
pub open spec fn inserted(cs: Seq<NodeView>, parts: Seq<Seq<char>>, e: FileEntry, parent: Seq<char>) -> Seq<NodeView>
    decreases parts.len(),
{
    if parts.len() == 0 {
        cs
    } else if parts.len() == 1 {
        cs.push(leaf_of(parts[0], e))
    } else {
        let name = parts[0];
        let cur = child_path(parent, name);
        let rest = parts.skip(1);
        match first_dir_named(cs, name) {
            Some(i) => cs.update(i, NodeView { children: inserted(cs[i].children, rest, e, cur), ..cs[i] }),
            None => cs.push(
                NodeView {
                    name,
                    full_path: cur,
                    is_dir: true,
                    children: inserted(Seq::empty(), rest, e, cur),
                    status: None,
                    file_size: None,
                },
            ),
        }
    }
}

fn first_dir_index(cs: &[FileTreeNode], name: &[char]) -> (r: Option<usize>)
    ensures
        match r {
            Some(i) => first_dir_named(nodes_view(cs@), name@) == Some(i as int),
            None => first_dir_named(nodes_view(cs@), name@) is None,
        },
{
    let ghost vs = nodes_view(cs@);
    proof {
        lemma_nodes_view(cs@);
        lemma_first_dir_named(vs, name@);
    }
    let nm = string_from_chars(name);
    let mut i: usize = 0;
    while i < cs.len()
        invariant
            i <= cs.len(),
            vs == nodes_view(cs@),
            vs.len() == cs.len(),
            nm@ == name@,
            forall|j: int| 0 <= j < cs.len() ==> #[trigger] vs[j] == node_view(cs@[j]),
            forall|k: int| 0 <= k < i ==> !((#[trigger] vs[k]).name == name@ && vs[k].is_dir),
            match first_dir_named(vs, name@) {
                Some(j) => 0 <= j < vs.len() && vs[j].name == name@ && vs[j].is_dir && forall|k: int|
                    0 <= k < j ==> !((#[trigger] vs[k]).name == name@ && vs[k].is_dir),
                None => forall|k: int| 0 <= k < vs.len() ==> !((#[trigger] vs[k]).name == name@ && vs[k].is_dir),
            },
        decreases cs.len() - i,
    {
        if cs[i].is_dir && str_eq(cs[i].name.as_str(), nm.as_str()) {
            assert(vs[i as int] == node_view(cs@[i as int]));
            return Some(i);
        }
        assert(vs[i as int] == node_view(cs@[i as int]));
        i += 1;
    }
    None
}

proof fn lemma_nodes_view_push(ns: Seq<FileTreeNode>, x: FileTreeNode)
    ensures
        nodes_view(ns.push(x)) == nodes_view(ns).push(node_view(x)),
{
    lemma_nodes_view(ns);
    lemma_nodes_view(ns.push(x));
    assert(nodes_view(ns.push(x)) =~= nodes_view(ns).push(node_view(x)));
}

proof fn lemma_nodes_view_update(ns: Seq<FileTreeNode>, i: int, x: FileTreeNode)
    requires
        0 <= i < ns.len(),
    ensures
        nodes_view(ns.update(i, x)) == nodes_view(ns).update(i, node_view(x)),
{
    lemma_nodes_view(ns);
    lemma_nodes_view(ns.update(i, x));
    assert(nodes_view(ns.update(i, x)) =~= nodes_view(ns).update(i, node_view(x)));
}

/// The path of child `name` of the folder at `parent`.
fn child_path_chars(parent: &[char], name: &[char]) -> (r: Vec<char>)
    ensures
        r@ == child_path(parent@, name@),
{
    let mut r: Vec<char> = Vec::new();
    if parent.len() == 0 {
        crate::text::push_all(&mut r, name);
    } else {
        crate::text::push_all(&mut r, parent);
        r.push('/');
        crate::text::push_all(&mut r, name);
    }
    assert(r@ =~= child_path(parent@, name@));
    r
}

fn insert_path(children: &mut Vec<FileTreeNode>, parts: &[Vec<char>], k: usize, e: &FileEntry, parent: &[char])
    requires
        k <= parts.len(),
    ensures
        nodes_view(final(children)@) == inserted(nodes_view(old(children)@), segs_view(parts@).skip(k as int), *e, parent@),
    decreases parts.len() - k,
{
    let ghost rest = segs_view(parts@).skip(k as int);
    if k == parts.len() {
        assert(rest.len() == 0);
        return;
    }
    assert(rest[0] == parts@[k as int]@);
    if k + 1 == parts.len() {
        let leaf = FileTreeNode {
            name: string_from_chars(parts[k].as_slice()),
            full_path: e.file_path.clone(),
            is_dir: false,
            children: Vec::new(),
            status: Some(e.status),
            file_size: e.file_size,
        };
        proof {
            lemma_nodes_view(leaf.children@);
            assert(nodes_view(leaf.children@) =~= Seq::<NodeView>::empty());
            assert(node_view(leaf) == leaf_of(rest[0], *e));
            lemma_nodes_view_push(children@, leaf);
        }
        children.push(leaf);
        return;
    }
    let name = &parts[k];
    let cur = child_path_chars(parent, name.as_slice());
    assert(segs_view(parts@).skip(k + 1) =~= rest.skip(1));
    match first_dir_index(children.as_slice(), name.as_slice()) {
        Some(i) => {
            let ghost before = children@;
            proof {
                lemma_nodes_view(before);
                lemma_first_dir_named(nodes_view(before), name@);
            }
            let mut c = children.remove(i);
            assert(c == before[i as int]);
            let ghost c0 = c;
            insert_path(&mut c.children, parts, k + 1, e, cur.as_slice());
            proof {
                assert(node_view(c) == NodeView { children: inserted(node_view(c0).children, rest.skip(1), *e, cur@), ..node_view(c0) });
            }
            children.insert(i, c);
            proof {
                assert(children@ =~= before.update(i as int, c));
                lemma_nodes_view_update(before, i as int, c);
            }
        },
        None => {
            let mut dir = FileTreeNode {
                name: string_from_chars(name.as_slice()),
                full_path: string_from_chars(cur.as_slice()),
                is_dir: true,
                children: Vec::new(),
                status: None,
                file_size: None,
            };
            proof {
                lemma_nodes_view(dir.children@);
                assert(nodes_view(dir.children@) =~= Seq::<NodeView>::empty());
            }
            insert_path(&mut dir.children, parts, k + 1, e, cur.as_slice());
            proof {
                lemma_nodes_view_push(children@, dir);
            }
            children.push(dir);
        },
    }
}

// ─── Stable sorting ─────────────────────────────────────────────────────

/// Whether entry `a` sorts before entry `b`: by path, as `String`s compare.
pub open spec fn path_before(a: FileEntry, b: FileEntry) -> bool {
    chars_lt(a.file_path@, b.file_path@)
}

/// `x` put into the sorted `s` after every element it does not sort before.
pub open spec fn entry_inserted(s: Seq<FileEntry>, x: FileEntry) -> Seq<FileEntry>
    decreases s.len(),
{
    if s.len() == 0 {
        seq![x]
    } else if path_before(x, s.last()) {
        entry_inserted(s.drop_last(), x).push(s.last())
    } else {
        s.push(x)
    }
}

/// The entries sorted by path, equal paths kept in their order (a stable sort).
pub open spec fn sorted_entries(s: Seq<FileEntry>) -> Seq<FileEntry>
    decreases s.len(),
{
    if s.len() == 0 {
        s
    } else {
        entry_inserted(sorted_entries(s.drop_last()), s.last())
    }
}

proof fn lemma_entry_inserted_at(s: Seq<FileEntry>, x: FileEntry, j: int)
    requires
        0 <= j <= s.len(),
        forall|m: int| j <= m < s.len() ==> path_before(x, #[trigger] s[m]),
        j == 0 || !path_before(x, s[j - 1]),
    ensures
        entry_inserted(s, x) == s.take(j).push(x) + s.skip(j),
    decreases s.len(),
{
    if s.len() == 0 {
        assert(s.take(j).push(x) + s.skip(j) =~= seq![x]);
    } else if j == s.len() {
        assert(s.take(j).push(x) + s.skip(j) =~= s.push(x));
    } else {
        assert(path_before(x, s[s.len() - 1]));
        let t = s.drop_last();
        assert forall|m: int| j <= m < t.len() implies path_before(x, #[trigger] t[m]) by {
            assert(t[m] == s[m]);
        }
        if j > 0 {
            assert(t[j - 1] == s[j - 1]);
        }
        lemma_entry_inserted_at(t, x, j);
        assert(t.take(j).push(x) + t.skip(j) + seq![s.last()] =~= s.take(j).push(x) + s.skip(j));
    }
}

/// The order in which `sorted_entries` puts the entries of `es`, as indices.
pub fn sorted_order(es: &[FileEntry]) -> (r: Vec<usize>)
    ensures
        r@.len() == es@.len(),
        forall|k: int| 0 <= k < r@.len() ==> #[trigger] r@[k] < es@.len(),
        r@.map_values(|i: usize| es@[i as int]) == sorted_entries(es@),
{
    let mut ord: Vec<usize> = Vec::new();
    let mut n: usize = 0;
    assert(es@.take(0) =~= Seq::<FileEntry>::empty());
    assert(ord@.map_values(|i: usize| es@[i as int]) =~= sorted_entries(es@.take(0)));
    while n < es.len()
        invariant
            n <= es.len(),
            ord@.len() == n,
            forall|k: int| 0 <= k < ord@.len() ==> #[trigger] ord@[k] < n,
            ord@.map_values(|i: usize| es@[i as int]) == sorted_entries(es@.take(n as int)),
        decreases es.len() - n,
    {
        let ghost s = ord@.map_values(|i: usize| es@[i as int]);
        let x = &es[n];
        let xp: Vec<char> = crate::text::chars_of(x.file_path.as_str());
        let mut j: usize = ord.len();
        while j > 0 && chars_less(xp.as_slice(), crate::text::chars_of(es[ord[j - 1]].file_path.as_str()).as_slice())
            invariant
                j <= ord@.len(),
                ord@.len() == n,
                n < es.len(),
                s == ord@.map_values(|i: usize| es@[i as int]),
                xp@ == es@[n as int].file_path@,
                forall|k: int| 0 <= k < ord@.len() ==> #[trigger] ord@[k] < n,
                forall|m: int| j <= m < s.len() ==> path_before(es@[n as int], #[trigger] s[m]),
            decreases j,
        {
            assert(s[j - 1] == es@[ord@[j - 1] as int]);
            j -= 1;
        }
        proof {
            if j > 0 {
                assert(s[j - 1] == es@[ord@[j - 1] as int]);
            }
            lemma_entry_inserted_at(s, es@[n as int], j as int);
            assert(es@.take(n + 1).drop_last() =~= es@.take(n as int));
            assert(es@.take(n + 1).last() == es@[n as int]);
        }
        ord.insert(j, n);
        proof {
            assert(ord@.map_values(|i: usize| es@[i as int]) =~= s.take(j as int).push(es@[n as int]) + s.skip(j as int));
        }
        n += 1;
    }
    assert(es@.take(es.len() as int) =~= es@);
    ord
}

/// Whether node `a` sorts before node `b`: folders first, then by name.
pub open spec fn node_before(a: NodeView, b: NodeView) -> bool {
    (a.is_dir && !b.is_dir) || (a.is_dir == b.is_dir && chars_lt(a.name, b.name))
}

/// `x` put into the sorted `s` after every node it does not sort before.
pub open spec fn node_inserted(s: Seq<NodeView>, x: NodeView) -> Seq<NodeView>
    decreases s.len(),
{
    if s.len() == 0 {
        seq![x]
    } else if node_before(x, s.last()) {
        node_inserted(s.drop_last(), x).push(s.last())
    } else {
        s.push(x)
    }
}

/// The nodes sorted folders first, then by name, ties kept in their order.
pub open spec fn sorted_nodes(s: Seq<NodeView>) -> Seq<NodeView>
    decreases s.len(),
{
    if s.len() == 0 {
        s
    } else {
        node_inserted(sorted_nodes(s.drop_last()), s.last())
    }
}

proof fn lemma_node_inserted_at(s: Seq<NodeView>, x: NodeView, j: int)
    requires
        0 <= j <= s.len(),
        forall|m: int| j <= m < s.len() ==> node_before(x, #[trigger] s[m]),
        j == 0 || !node_before(x, s[j - 1]),
    ensures
        node_inserted(s, x) == s.take(j).push(x) + s.skip(j),
    decreases s.len(),
{
    if s.len() == 0 {
        assert(s.take(j).push(x) + s.skip(j) =~= seq![x]);
    } else if j == s.len() {
        assert(s.take(j).push(x) + s.skip(j) =~= s.push(x));
    } else {
        assert(node_before(x, s[s.len() - 1]));
        let t = s.drop_last();
        assert forall|m: int| j <= m < t.len() implies node_before(x, #[trigger] t[m]) by {
            assert(t[m] == s[m]);
        }
        if j > 0 {
            assert(t[j - 1] == s[j - 1]);
        }
        lemma_node_inserted_at(t, x, j);
        assert(t.take(j).push(x) + t.skip(j) + seq![s.last()] =~= s.take(j).push(x) + s.skip(j));
    }
}

/// Every subtree sorted: each node's children sorted (recursively), then
/// the nodes themselves.
pub open spec fn sorted_tree(cs: Seq<NodeView>) -> Seq<NodeView>
    decreases cs, 1int,
{
    sorted_nodes(subtrees_sorted(cs))
}

/// Each node of `cs` with its children sorted (recursively).
pub open spec fn subtrees_sorted(cs: Seq<NodeView>) -> Seq<NodeView>
    decreases cs, 0int,
{
    if cs.len() == 0 {
        Seq::empty()
    } else {
        seq![NodeView { children: sorted_tree(cs[0].children), ..cs[0] }] + subtrees_sorted(cs.subrange(1, cs.len() as int))
    }
}

proof fn lemma_subtrees_sorted(cs: Seq<NodeView>)
    ensures
        subtrees_sorted(cs).len() == cs.len(),
        forall|i: int| 0 <= i < cs.len() ==> #[trigger] subtrees_sorted(cs)[i] == (NodeView {
            children: sorted_tree(cs[i].children),
            ..cs[i]
        }),
    decreases cs.len(),
{
    if cs.len() > 0 {
        let rest = cs.subrange(1, cs.len() as int);
        lemma_subtrees_sorted(rest);
        assert forall|i: int| 0 <= i < cs.len() implies #[trigger] subtrees_sorted(cs)[i] == (NodeView {
            children: sorted_tree(cs[i].children),
            ..cs[i]
        }) by {
            if i > 0 {
                assert(rest[i - 1] == cs[i]);
            }
        }
    }
}

/// Sorts nodes (by moving them) folders first, then by name, stably.
fn sort_nodes(v: Vec<FileTreeNode>) -> (r: Vec<FileTreeNode>)
    ensures
        nodes_view(r@) == sorted_nodes(nodes_view(v@)),
{
    let ghost vs = nodes_view(v@);
    proof {
        lemma_nodes_view(v@);
    }
    let mut src = v;
    let mut dst: Vec<FileTreeNode> = Vec::new();
    let mut n: usize = 0;
    let total = src.len();
    let ghost orig = src@;
    proof {
        lemma_nodes_view(dst@);
        assert(vs.take(0) =~= Seq::<NodeView>::empty());
        assert(nodes_view(dst@) =~= sorted_nodes(vs.take(0)));
    }
    while src.len() > 0
        invariant
            vs == nodes_view(orig),
            vs.len() == orig.len(),
            forall|j: int| 0 <= j < orig.len() ==> #[trigger] vs[j] == node_view(orig[j]),
            n + src@.len() == orig.len(),
            orig.len() == total,
            src@ == orig.skip(n as int),
            nodes_view(dst@) == sorted_nodes(vs.take(n as int)),
        decreases src@.len(),
    {
        let x = src.remove(0);
        assert(x == orig[n as int]);
        let ghost s = nodes_view(dst@);
        proof {
            lemma_nodes_view(dst@);
        }
        let mut j: usize = dst.len();
        while j > 0 && (x.is_dir && !dst[j - 1].is_dir || (x.is_dir == dst[j - 1].is_dir && chars_less(
            crate::text::chars_of(x.name.as_str()).as_slice(),
            crate::text::chars_of(dst[j - 1].name.as_str()).as_slice(),
        )))
            invariant
                j <= dst@.len(),
                s == nodes_view(dst@),
                s.len() == dst@.len(),
                forall|k: int| 0 <= k < dst@.len() ==> #[trigger] s[k] == node_view(dst@[k]),
                forall|m: int| j <= m < s.len() ==> node_before(node_view(x), #[trigger] s[m]),
            decreases j,
        {
            assert(s[j - 1] == node_view(dst@[j - 1]));
            j -= 1;
        }
        proof {
            if j > 0 {
                assert(s[j - 1] == node_view(dst@[j - 1]));
            }
            lemma_node_inserted_at(s, node_view(x), j as int);
            assert(vs.take(n + 1).drop_last() =~= vs.take(n as int));
            assert(vs.take(n + 1).last() == vs[n as int]);
        }
        let ghost before = dst@;
        dst.insert(j, x);
        proof {
            lemma_nodes_view(dst@);
            assert(nodes_view(dst@) =~= s.take(j as int).push(node_view(x)) + s.skip(j as int));
            assert(src@ =~= orig.skip(n + 1));
        }
        n += 1;
    }
    assert(vs.take(n as int) =~= vs);
    dst
}

/// A copy of the trees `cs` with every list of children sorted.
fn sorted_copy(cs: &[FileTreeNode]) -> (r: Vec<FileTreeNode>)
    ensures
        nodes_view(r@) == sorted_tree(nodes_view(cs@)),
    decreases cs@,
{
    let ghost vs = nodes_view(cs@);
    proof {
        lemma_nodes_view(cs@);
        lemma_subtrees_sorted(vs);
    }
    let mut out: Vec<FileTreeNode> = Vec::new();
    let mut i: usize = 0;
    while i < cs.len()
        invariant
            i <= cs.len(),
            vs == nodes_view(cs@),
            vs.len() == cs.len(),
            forall|j: int| 0 <= j < cs.len() ==> #[trigger] vs[j] == node_view(cs@[j]),
            subtrees_sorted(vs).len() == vs.len(),
            forall|j: int| 0 <= j < vs.len() ==> #[trigger] subtrees_sorted(vs)[j] == (NodeView {
                children: sorted_tree(vs[j].children),
                ..vs[j]
            }),
            out@.len() == i,
            forall|j: int| 0 <= j < i ==> #[trigger] node_view(out@[j]) == subtrees_sorted(vs)[j],
        decreases cs.len() - i,
    {
        let node = &cs[i];
        assert(decreases_to!(cs@ => node.children@));
        let kids = sorted_copy(node.children.as_slice());
        let n = FileTreeNode {
            name: node.name.clone(),
            full_path: node.full_path.clone(),
            is_dir: node.is_dir,
            children: kids,
            status: node.status,
            file_size: node.file_size,
        };
        assert(node_view(n) == subtrees_sorted(vs)[i as int]);
        out.push(n);
        i += 1;
    }
    proof {
        lemma_nodes_view(out@);
        assert(nodes_view(out@) =~= subtrees_sorted(vs));
    }
    sort_nodes(out)
}

/// The file tree of a snapshot's entries, as the browser shows it: the
/// entries sorted by path are added one by one at their paths, every list
/// of children is sorted folders first and then by name, and each folder
/// takes the weightiest status found inside it.
pub open spec fn built_tree(es: Seq<FileEntry>) -> Seq<NodeView> {
    propagated_all(sorted_tree(inserted_all(Seq::empty(), sorted_entries(es))))
}

/// The trees `cs` with the entries `es` added in order.
pub open spec fn inserted_all(cs: Seq<NodeView>, es: Seq<FileEntry>) -> Seq<NodeView>
    decreases es.len(),
{
    if es.len() == 0 {
        cs
    } else {
        inserted(inserted_all(cs, es.drop_last()), split_path(es.last().file_path@), es.last(), Seq::empty())
    }
}

/// Builds the file tree of a snapshot's entries.
pub fn build_tree(entries: &[FileEntry]) -> (r: Vec<FileTreeNode>)
    ensures
        nodes_view(r@) == built_tree(entries@),
{
    let ord = sorted_order(entries);
    let ghost sorted = sorted_entries(entries@);
    let mut children: Vec<FileTreeNode> = Vec::new();
    let mut k: usize = 0;
    proof {
        lemma_nodes_view(children@);
        assert(nodes_view(children@) =~= Seq::<NodeView>::empty());
        assert(sorted.take(0) =~= Seq::<FileEntry>::empty());
    }
    while k < ord.len()
        invariant
            k <= ord@.len(),
            ord@.len() == entries@.len(),
            forall|m: int| 0 <= m < ord@.len() ==> #[trigger] ord@[m] < entries@.len(),
            ord@.map_values(|i: usize| entries@[i as int]) == sorted,
            sorted == sorted_entries(entries@),
            nodes_view(children@) == inserted_all(Seq::empty(), sorted.take(k as int)),
        decreases ord@.len() - k,
    {
        let e = &entries[ord[k]];
        assert(sorted[k as int] == *e);
        let path = crate::text::chars_of(e.file_path.as_str());
        let parts = split_segments(path.as_slice());
        let empty: Vec<char> = Vec::new();
        insert_path(&mut children, parts.as_slice(), 0, e, empty.as_slice());
        proof {
            assert(segs_view(parts@).skip(0) =~= segs_view(parts@));
            assert(empty@ =~= Seq::<char>::empty());
            assert(sorted.take(k + 1).drop_last() =~= sorted.take(k as int));
            assert(sorted.take(k + 1).last() == *e);
        }
        k += 1;
    }
    assert(sorted.take(k as int) =~= sorted);
    let sorted_kids = sorted_copy(children.as_slice());
    let mut out: Vec<FileTreeNode> = Vec::new();
    let ghost st = nodes_view(sorted_kids@);
    proof {
        lemma_nodes_view(sorted_kids@);
        lemma_propagated_all(st);
    }
    let mut i: usize = 0;
    while i < sorted_kids.len()
        invariant
            i <= sorted_kids.len(),
            st == nodes_view(sorted_kids@),
            st.len() == sorted_kids.len(),
            forall|j: int| 0 <= j < sorted_kids.len() ==> #[trigger] st[j] == node_view(sorted_kids@[j]),
            propagated_all(st).len() == st.len(),
            forall|j: int| 0 <= j < st.len() ==> #[trigger] propagated_all(st)[j] == propagated(st[j]),
            out@.len() == i,
            forall|j: int| 0 <= j < i ==> #[trigger] node_view(out@[j]) == propagated(st[j]),
        decreases sorted_kids.len() - i,
    {
        let (n, _) = propagated_node(&sorted_kids[i]);
        out.push(n);
        i += 1;
    }
    proof {
        lemma_nodes_view(out@);
        assert(nodes_view(out@) =~= propagated_all(st));
    }
    out
}

} // verus!
